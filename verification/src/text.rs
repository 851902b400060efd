//! Text handles, alignment and the simple rich-text markup.

use vstd::prelude::*;
use crate::fmt::string_push;
use crate::shaders::{lemma_counter_run_u64, successive_u64};

verus! {

broadcast use vstd::string::group_string_axioms;

/// Opaque handle to a user font. The ID is exposed only for debugging purposes.
#[derive(Copy, Clone, Debug, PartialEq, Eq, Hash, Structural)]
pub struct FontHandle(pub u64);

/// The counter from which font handles are handed out.
pub struct FontHandles {
    pub next: u64,
}

/// Hands out a fresh font handle. Internal use only.
pub fn gen_font_handle(handles: &mut FontHandles) -> (h: FontHandle)
    ensures
        h == FontHandle(old(handles).next),
        final(handles).next == old(handles).next.wrapping_add(1),
{
    let id = handles.next;
    handles.next = handles.next.wrapping_add(1);
    FontHandle(id)
}

/// Successive calls of `gen_font_handle` hand out strictly increasing
/// handles, so no handle repeats, as long as the counter does not wrap:
/// `counters` are the counter's values before each call (and after the
/// last), `handles` what the calls returned.
pub proof fn law_font_handles_increase(counters: Seq<u64>, handles: Seq<FontHandle>)
    requires
        counters.len() == handles.len() + 1,
        forall|k: int| 0 <= k < handles.len() ==> #[trigger] handles[k] == FontHandle(counters[k]),
        successive_u64(counters),
        counters[0] + handles.len() <= u64::MAX + 1,
    ensures
        forall|k: int| 0 <= k < handles.len() ==> #[trigger] handles[k].0 == counters[0] + k,
        forall|i: int, j: int| 0 <= i < j < handles.len() ==> #[trigger] handles[i].0 < #[trigger] handles[j].0,
{
    if handles.len() > 0 {
        let run = counters.drop_last();
        assert forall|i: int, j: int| #![trigger run[i], run[j]] 0 <= i && j == i + 1 && j < run.len() implies run[j] == run[i].wrapping_add(1) by {
            assert(counters[j] == counters[i].wrapping_add(1));
        }
        lemma_counter_run_u64(run);
        assert forall|k: int| 0 <= k < handles.len() implies #[trigger] handles[k].0 == counters[0] + k by {
            assert(run[k] == counters[k]);
        }
    }
}

/// Where text is anchored relative to its position.
#[derive(Copy, Clone, Debug)]
pub enum TextAlign {
    TopLeft,
    TopRight,
    BottomLeft,
    BottomRight,
    Center,
}

/// A character of rich text with its style.
#[derive(Copy, Clone, Debug)]
pub struct StyledGlyph {
    /// The related character.
    pub char: char,
    /// If true the character will wiggle.
    pub wiggle: bool,
    /// If true the character is drawn in the highlight color (pink, boosted)
    /// instead of the text color.
    pub highlight: bool,
}

/// Text with the markup removed and the style of each character.
pub struct RichText {
    pub clean_text: String,
    pub styled_glyphs: Vec<StyledGlyph>,
}

/// The glyphs of `chars` from index `i` on: `*` marks the following character
/// as wiggling and highlighted; a trailing `*` is dropped.
pub open spec fn styled_from(chars: Seq<char>, i: int) -> Seq<StyledGlyph>
    decreases chars.len() - i,
{
    if i >= chars.len() {
        Seq::empty()
    } else if chars[i] == '*' {
        if i + 1 == chars.len() {
            Seq::empty()
        } else {
            seq![StyledGlyph { char: chars[i + 1], wiggle: true, highlight: true }] + styled_from(chars, i + 2)
        }
    } else {
        seq![StyledGlyph { char: chars[i], wiggle: false, highlight: false }] + styled_from(chars, i + 1)
    }
}

/// The characters of the glyphs.
pub open spec fn glyph_chars(gs: Seq<StyledGlyph>) -> Seq<char>
    decreases gs.len(),
{
    if gs.len() == 0 {
        Seq::empty()
    } else {
        glyph_chars(gs.drop_last()).push(gs.last().char)
    }
}

proof fn lemma_styled_step(chars: Seq<char>, i: int, prefix: Seq<StyledGlyph>, g: StyledGlyph, next: int)
    requires
        0 <= i < chars.len(),
        i < next,
        styled_from(chars, i) == seq![g] + styled_from(chars, next),
    ensures
        prefix + styled_from(chars, i) == prefix.push(g) + styled_from(chars, next),
{
    assert(prefix + styled_from(chars, i) =~= prefix.push(g) + styled_from(chars, next));
}

fn char_at(chars: &Vec<char>, i: usize) -> (c: char)
    requires
        i < chars@.len(),
    ensures
        c == chars@[i as int],
{
    chars[i]
}

/// Parses a simple subset of markdown-like syntax: a `*` makes the next
/// character wiggle and be highlighted.
pub fn simple_styled_text(text: &str) -> (r: RichText)
    ensures
        r.styled_glyphs@ == styled_from(text@, 0),
        r.clean_text@ == glyph_chars(styled_from(text@, 0)),
{
    let mut chars: Vec<char> = Vec::new();
    for c in it: text.chars()
        invariant
            chars@ == it.seq().take(it.index() as int),
    {
        proof {
            assert(it.seq().take(it.index() as int + 1) =~= chars@.push(c));
        }
        chars.push(c);
    }
    proof {
        assert(chars@ =~= text@);
    }
    let mut i: usize = 0;
    let mut clean_text = String::new();
    let mut styled_glyphs: Vec<StyledGlyph> = Vec::new();
    while i < chars.len()
        invariant
            i <= chars@.len(),
            chars@ == text@,
            styled_glyphs@ + styled_from(chars@, i as int) == styled_from(chars@, 0),
            clean_text@ == glyph_chars(styled_glyphs@),
        decreases chars@.len() - i,
    {
        let c = char_at(&chars, i);
        let ghost gs_before = styled_glyphs@;
        if c == '*' && i + 1 == chars.len() {
            proof {
                assert(styled_from(chars@, i as int) == Seq::<StyledGlyph>::empty());
                assert(styled_from(chars@, (i + 1) as int) == Seq::<StyledGlyph>::empty());
            }
            i = i + 1;
        } else {
            let g = if c == '*' {
                StyledGlyph { char: char_at(&chars, i + 1), wiggle: true, highlight: true }
            } else {
                StyledGlyph { char: c, wiggle: false, highlight: false }
            };
            let next: usize = if c == '*' { i + 2 } else { i + 1 };
            proof {
                lemma_styled_step(chars@, i as int, styled_glyphs@, g, next as int);
            }
            styled_glyphs.push(g);
            string_push(&mut clean_text, g.char);
            proof {
                assert(styled_glyphs@.drop_last() =~= gs_before);
            }
            i = next;
        }
    }
    proof {
        assert(styled_from(chars@, i as int) == Seq::<StyledGlyph>::empty());
        assert(styled_glyphs@ =~= styled_from(chars@, 0));
    }
    RichText { clean_text, styled_glyphs }
}

} // verus!
