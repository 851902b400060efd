//! The screenshot history: which frames are kept, and the conversion of the
//! captured BGRA pixels to RGBA.

use vstd::prelude::*;
use std::collections::VecDeque;

verus! {

/// Settings and state of the screenshot history.
#[derive(Copy, Clone, Debug)]
pub struct ScreenshotParams {
    pub record_screenshots: bool,
    /// When set to 1, a screenshot will be taken every frame.
    /// When set to a higher number, a screenshot will be taken every n frames.
    pub screenshot_interval_n: usize,
    pub history_length: usize,
    /// The number of frames offered to the history so far.
    pub counter: usize,
}

impl Default for ScreenshotParams {
    /// Not recording; every frame; the last 10 kept.
    fn default() -> (p: ScreenshotParams)
        ensures
            !p.record_screenshots,
            p.screenshot_interval_n == 1,
            p.history_length == 10,
            p.counter == 0,
    {
        Self { record_screenshots: false, screenshot_interval_n: 1, history_length: 10, counter: 0 }
    }
}

/// The history after offering it a screenshot: every `n`-th frame is
/// appended, dropping the oldest first when the history is at its length.
pub open spec fn history_after<T>(history: Seq<T>, image: T, params: ScreenshotParams) -> Seq<T> {
    if params.counter % params.screenshot_interval_n == 0 {
        if history.len() == params.history_length && history.len() > 0 {
            history.drop_first().push(image)
        } else {
            history.push(image)
        }
    } else {
        history
    }
}

/// Offers the screenshot of the current frame to the history.
pub fn record_screenshot<T>(params: &mut ScreenshotParams, history: &mut VecDeque<T>, image: T)
    requires
        old(params).screenshot_interval_n > 0,
        old(params).counter < usize::MAX,
    ensures
        final(history)@ == history_after(old(history)@, image, *old(params)),
        old(params).counter % old(params).screenshot_interval_n == 0 && old(params).history_length > 0
            && old(history)@.len() == old(params).history_length ==> {
            &&& final(history)@.len() == old(params).history_length
            &&& forall|i: int| 0 <= i < old(params).history_length - 1 ==> #[trigger] final(history)@[i] == old(history)@[i + 1]
            &&& final(history)@[old(params).history_length - 1] == image
        },
        final(params).counter == old(params).counter + 1,
        final(params).screenshot_interval_n == old(params).screenshot_interval_n,
        final(params).history_length == old(params).history_length,
        final(params).record_screenshots == old(params).record_screenshots,
{
    proof {
        law_history_keeps_the_newest(old(history)@, image, *old(params));
    }
    if params.counter % params.screenshot_interval_n == 0 {
        if history.len() == params.history_length {
            history.pop_front();
        }
        history.push_back(image);
    }
    params.counter = params.counter + 1;
}

/// The history never holds more than `history_length` screenshots once it
/// holds no more than that (for a positive length), and a recorded
/// screenshot is the newest one.
pub proof fn law_history_bounded<T>(history: Seq<T>, image: T, params: ScreenshotParams)
    requires
        params.screenshot_interval_n > 0,
        params.history_length > 0,
        history.len() <= params.history_length,
    ensures
        history_after(history, image, params).len() <= params.history_length,
        params.counter % params.screenshot_interval_n == 0 ==> history_after(history, image, params).last() == image,
{
}

/// What recording does to the history: a frame that is not an `n`-th
/// frame leaves it as it was; a recorded screenshot is appended after the
/// old screenshots, except that when the history already holds
/// `history_length > 0` screenshots, only its oldest one is dropped first.
pub proof fn law_history_keeps_the_newest<T>(history: Seq<T>, image: T, params: ScreenshotParams)
    requires
        params.screenshot_interval_n > 0,
    ensures
        params.counter % params.screenshot_interval_n != 0 ==> history_after(history, image, params) == history,
        params.counter % params.screenshot_interval_n == 0 && params.history_length > 0
            && history.len() == params.history_length ==> {
            let h = history_after(history, image, params);
            &&& h.len() == params.history_length
            &&& forall|i: int| 0 <= i < params.history_length - 1 ==> #[trigger] h[i] == history[i + 1]
            &&& h[params.history_length - 1] == image
        },
        params.counter % params.screenshot_interval_n == 0 && !(params.history_length > 0
            && history.len() == params.history_length) ==> {
            let h = history_after(history, image, params);
            &&& h.len() == history.len() + 1
            &&& forall|i: int| 0 <= i < history.len() ==> #[trigger] h[i] == history[i]
            &&& h[history.len() as int] == image
        },
{
}

/// Converting swaps blue and red in every whole pixel, keeps green and
/// alpha, and drops a trailing partial pixel.
pub proof fn law_bgra_swaps_blue_and_red(data: Seq<u8>)
    ensures
        bgra_to_rgba_spec(data).len() == data.len() / 4 * 4,
        forall|p: int| 0 <= p < data.len() / 4 ==> {
            &&& #[trigger] bgra_to_rgba_spec(data)[4 * p] == data[4 * p + 2]
            &&& bgra_to_rgba_spec(data)[4 * p + 1] == data[4 * p + 1]
            &&& bgra_to_rgba_spec(data)[4 * p + 2] == data[4 * p]
            &&& bgra_to_rgba_spec(data)[4 * p + 3] == data[4 * p + 3]
        },
{
    assert forall|p: int| 0 <= p < data.len() / 4 implies {
        &&& #[trigger] bgra_to_rgba_spec(data)[4 * p] == data[4 * p + 2]
        &&& bgra_to_rgba_spec(data)[4 * p + 1] == data[4 * p + 1]
        &&& bgra_to_rgba_spec(data)[4 * p + 2] == data[4 * p]
        &&& bgra_to_rgba_spec(data)[4 * p + 3] == data[4 * p + 3]
    } by {
        assert(4 * p + 3 < data.len() / 4 * 4) by (nonlinear_arith)
            requires
                0 <= p < data.len() / 4,
        ;
        assert((4 * p) % 4 == 0 && (4 * p + 1) % 4 == 1 && (4 * p + 2) % 4 == 2 && (4 * p + 3) % 4 == 3) by (nonlinear_arith)
            requires
                0 <= p,
        ;
    }
}

/// The RGBA bytes of BGRA pixels: each whole group of four bytes has its
/// first and third byte exchanged; a trailing partial group is dropped.
pub open spec fn bgra_to_rgba_spec(data: Seq<u8>) -> Seq<u8> {
    Seq::new(
        (data.len() / 4 * 4) as nat,
        |k: int|
            if k % 4 == 0 {
                data[k + 2]
            } else if k % 4 == 2 {
                data[k - 2]
            } else {
                data[k]
            },
    )
}

/// Converts captured BGRA pixels to RGBA.
pub fn bgra_to_rgba(data: &[u8]) -> (rgba: Vec<u8>)
    ensures
        rgba@ == bgra_to_rgba_spec(data@),
        rgba@.len() == data@.len() / 4 * 4,
        forall|p: int| 0 <= p < data@.len() / 4 ==> {
            &&& #[trigger] rgba@[4 * p] == data@[4 * p + 2]
            &&& rgba@[4 * p + 1] == data@[4 * p + 1]
            &&& rgba@[4 * p + 2] == data@[4 * p]
            &&& rgba@[4 * p + 3] == data@[4 * p + 3]
        },
{
    let len = data.len();
    let n = len / 4;
    let mut rgba: Vec<u8> = Vec::new();
    let mut i: usize = 0;
    while i < n
        invariant
            n == len / 4,
            len == data@.len(),
            i <= n,
            rgba@.len() == 4 * i,
            forall|k: int| 0 <= k < 4 * i ==> #[trigger] rgba@[k] == bgra_to_rgba_spec(data@)[k],
        decreases n - i,
    {
        assert(4 * i + 3 < data@.len()) by (nonlinear_arith)
            requires i < n, n == len / 4, len == data@.len();
        let base = 4 * i;
        let b = data[base];
        let g = data[base + 1];
        let r = data[base + 2];
        let a = data[base + 3];
        rgba.push(r);
        rgba.push(g);
        rgba.push(b);
        rgba.push(a);
        i = i + 1;
    }
    proof {
        assert(rgba@ =~= bgra_to_rgba_spec(data@));
        law_bgra_swaps_blue_and_red(data@);
    }
    rgba
}

} // verus!
