//! Shader creation: the map of created shaders, the binding numbers of
//! uniforms, and the generated uniform declarations.

use vstd::prelude::*;
use std::collections::HashMap;
use crate::shaders::{ShaderId, ShaderIds, gen_shader_id};
use crate::str_map::StrMap;
use crate::strings::{contains_str, occurs_in, sort_names, lex_lt, strictly_sorted, names_of, lemma_lex_total};
use crate::fmt::{push_decimal, decimal};

verus! {

broadcast use {vstd::std_specs::hash::group_hash_axioms, vstd::string::group_string_axioms};

/// The declaration of a shader uniform.
pub enum UniformDef {
    /// An `f32` uniform with an optional default, held as its bit pattern.
    F32(Option<u32>),
    Custom { default_data: Option<Vec<u8>>, wgsl_decl: String },
}

/// The WGSL type of a uniform declaration.
pub open spec fn wgsl_type(d: UniformDef) -> Seq<char> {
    match d {
        UniformDef::F32(_) => "f32"@,
        UniformDef::Custom { wgsl_decl, .. } => wgsl_decl@,
    }
}

impl UniformDef {
    /// The WGSL type of the uniform.
    pub fn to_wgsl(&self) -> (s: &str)
        ensures
            s@ == wgsl_type(*self),
    {
        match self {
            UniformDef::F32(_) => "f32",
            UniformDef::Custom { wgsl_decl, .. } => wgsl_decl.as_str(),
        }
    }
}

/// A created shader.
pub struct Shader {
    pub id: ShaderId,
    pub name: String,
    pub source: String,
    pub uniform_defs: StrMap<UniformDef>,
    pub bindings: StrMap<u32>,
}

/// The created shaders, by ID, and the source files watched for reloading.
pub struct ShaderMap {
    pub shaders: HashMap<u64, Shader>,
    pub watched_paths: StrMap<ShaderId>,
}

impl ShaderMap {
    /// No shaders.
    pub fn new() -> (m: ShaderMap)
        ensures
            m.shaders@ == Map::<u64, Shader>::empty(),
            m.watched_paths@ == Map::<Seq<char>, ShaderId>::empty(),
    {
        Self { shaders: HashMap::new(), watched_paths: StrMap::new() }
    }

    /// The shader with the given ID, if created.
    pub fn get(&self, id: ShaderId) -> (r: Option<&Shader>)
        ensures
            self.shaders@.dom().contains(id.0) ==> r == Some(&self.shaders@[id.0]),
            !self.shaders@.dom().contains(id.0) ==> r is None,
    {
        self.shaders.get(&id.0)
    }

    /// Stores a shader under the given ID.
    pub fn insert_shader(&mut self, id: ShaderId, shader: Shader)
        ensures
            final(self).shaders@ == old(self).shaders@.insert(id.0, shader),
            final(self).watched_paths@ == old(self).watched_paths@,
    {
        self.shaders.insert(id.0, shader);
    }

    /// Whether a shader with the given ID was created.
    pub fn has_shader(&self, id: ShaderId) -> (b: bool)
        ensures
            b == self.shaders@.dom().contains(id.0),
    {
        self.shaders.contains_key(&id.0)
    }
}

/// The number of names in `names` that come before `x`.
pub open spec fn rank(names: Set<Seq<char>>, x: Seq<char>) -> nat {
    names.filter(|y: Seq<char>| lex_lt(y, x)).len()
}

proof fn lemma_rank_in_sorted(s: Seq<Seq<char>>, p: int)
    requires
        strictly_sorted(s),
        0 <= p < s.len(),
    ensures
        rank(s.to_set(), s[p]) == p,
{
    let d = s.to_set();
    let below = d.filter(|y: Seq<char>| lex_lt(y, s[p]));
    let pre = s.take(p);
    assert forall|y: Seq<char>| below.contains(y) <==> pre.to_set().contains(y) by {
        if below.contains(y) {
            let k = choose|k: int| 0 <= k < s.len() && s[k] == y;
            if k == p {
                lemma_lex_total(y, y);
            } else if k > p {
                assert(lex_lt(s[p], s[k]));
                lemma_lex_total(s[p], s[k]);
            }
            assert(pre[k] == y);
        }
        if pre.to_set().contains(y) {
            let k = choose|k: int| 0 <= k < pre.len() && pre[k] == y;
            assert(s[k] == y);
            assert(lex_lt(s[k], s[p]));
        }
    }
    assert(below =~= pre.to_set());
    assert(pre.no_duplicates()) by {
        assert forall|i: int, j: int| 0 <= i < pre.len() && 0 <= j < pre.len() && i != j implies pre[i] != pre[j] by {
            if i < j {
                assert(lex_lt(s[i], s[j]));
                lemma_lex_total(s[i], s[i]);
            } else {
                assert(lex_lt(s[j], s[i]));
                lemma_lex_total(s[j], s[j]);
            }
        }
    }
    pre.unique_seq_to_set();
}

proof fn lemma_rank_below(dom: Set<Seq<char>>, k: Seq<char>)
    requires
        dom.finite(),
        dom.contains(k),
    ensures
        rank(dom, k) < dom.len(),
{
    let below = dom.filter(|y: Seq<char>| lex_lt(y, k));
    lemma_lex_total(k, k);
    assert(below.subset_of(dom.remove(k)));
    vstd::set_lib::lemma_len_subset(below, dom.remove(k));
}

proof fn lemma_rank_increasing(dom: Set<Seq<char>>, k1: Seq<char>, k2: Seq<char>)
    requires
        dom.finite(),
        dom.contains(k1),
        lex_lt(k1, k2),
    ensures
        rank(dom, k1) < rank(dom, k2),
{
    let a = dom.filter(|y: Seq<char>| lex_lt(y, k1));
    let b = dom.filter(|y: Seq<char>| lex_lt(y, k2));
    assert forall|y: Seq<char>| a.contains(y) implies b.remove(k1).contains(y) by {
        crate::strings::lemma_lex_transitive(y, k1, k2);
        lemma_lex_total(y, y);
    }
    vstd::set_lib::lemma_len_subset(b, dom);
    vstd::set_lib::lemma_len_subset(a, b.remove(k1));
    assert(b.contains(k1));
}

/// Uniform binding numbers are distinct, and each is below the number of
/// uniforms: the uniforms are numbered `0, 1, ..., n - 1`.
pub proof fn law_bindings_distinct(dom: Set<Seq<char>>, k1: Seq<char>, k2: Seq<char>)
    requires
        dom.finite(),
        dom.contains(k1),
        dom.contains(k2),
        k1 != k2,
    ensures
        rank(dom, k1) != rank(dom, k2),
        rank(dom, k1) < dom.len(),
{
    lemma_rank_below(dom, k1);
    lemma_lex_total(k1, k2);
    if lex_lt(k1, k2) {
        lemma_rank_increasing(dom, k1, k2);
    } else {
        lemma_rank_increasing(dom, k2, k1);
    }
}

/// Binding numbers for uniforms: each name gets the number of names that
/// sort before it, so the names in increasing order get `0, 1, 2, ...`.
pub fn uniform_defs_to_bindings(uniform_defs: &StrMap<UniformDef>) -> (b: StrMap<u32>)
    requires
        uniform_defs@.dom().len() <= u32::MAX,
    ensures
        b@.dom() == uniform_defs@.dom(),
        forall|k: Seq<char>| #[trigger] b@.dom().contains(k) ==> b@[k] == rank(uniform_defs@.dom(), k),
{
    let keys = uniform_defs.keys();
    proof {
        assert(keys@.len() <= u32::MAX);
    }
    let ghost dom = uniform_defs@.dom();
    proof {
        let names = names_of(keys@);
        assert(names.no_duplicates()) by {
            assert forall|a: int, c: int| 0 <= a < names.len() && 0 <= c < names.len() && a != c implies names[a] != names[c] by {
                assert(names[a] == keys@[a]@);
                assert(names[c] == keys@[c]@);
            }
        }
        assert(names.to_set() =~= dom) by {
            assert forall|k: Seq<char>| names.to_set().contains(k) <==> dom.contains(k) by {
                if dom.contains(k) {
                    let j = choose|j: int| 0 <= j < keys@.len() && #[trigger] keys@[j]@ == k;
                    assert(names[j] == k);
                }
                if names.to_set().contains(k) {
                    let j = choose|j: int| 0 <= j < names.len() && names[j] == k;
                    assert(keys@[j]@ == k);
                }
            }
        }
    }
    let sorted = sort_names(keys);
    let ghost s = names_of(sorted@);
    let mut b = StrMap::new();
    let mut i: usize = 0;
    while i < sorted.len()
        invariant
            i <= sorted@.len(),
            s == names_of(sorted@),
            strictly_sorted(s),
            s.to_set() == dom,
            sorted@.len() <= u32::MAX,
            b@.dom() == s.take(i as int).to_set(),
            forall|k: Seq<char>| #[trigger] b@.dom().contains(k) ==> b@[k] == rank(dom, k),
        decreases sorted@.len() - i,
    {
        let name = sorted[i].clone();
        proof {
            lemma_rank_in_sorted(s, i as int);
            assert(name@ == s[i as int]);
            assert(s.take(i as int + 1) =~= s.take(i as int).push(s[i as int]));
            s.take(i as int).lemma_push_to_set_commute(s[i as int]);
        }
        b.insert(name, i as u32);
        i = i + 1;
    }
    proof {
        assert(s.take(i as int) =~= s);
    }
    b
}


/// The generated declaration of one uniform.
pub open spec fn uniform_decl(name: Seq<char>, binding: u32, typ: Seq<char>) -> Seq<char> {
    "@group(2) @binding("@ + decimal(binding as nat) + ")\n            var<uniform> "@ + name + ": "@ + typ + ";"@
}

/// The declarations of the uniforms `names`, in that order.
pub open spec fn decls_text(
    names: Seq<Seq<char>>,
    bindings: Map<Seq<char>, u32>,
    defs: Map<Seq<char>, UniformDef>,
) -> Seq<char>
    decreases names.len(),
{
    if names.len() == 0 {
        Seq::empty()
    } else {
        decls_text(names.drop_last(), bindings, defs) + uniform_decl(
            names.last(),
            bindings[names.last()],
            wgsl_type(defs[names.last()]),
        )
    }
}

/// The full source of a shader: the uniform declarations (taken in the order
/// `names`), a newline, then the fragment source.
pub open spec fn shader_source_text(
    names: Seq<Seq<char>>,
    bindings: Map<Seq<char>, u32>,
    defs: Map<Seq<char>, UniformDef>,
    fragment: Seq<char>,
) -> Seq<char> {
    decls_text(names, bindings, defs) + "\n"@ + fragment
}

/// Whether `names` lists the names of `dom` in increasing order.
pub open spec fn sorted_listing(names: Seq<Seq<char>>, dom: Set<Seq<char>>) -> bool {
    strictly_sorted(names) && names.to_set() == dom
}

/// Builds the source of a shader: a declaration for each binding (in
/// increasing order of the names), then the fragment source.
pub fn build_shader_source(fragment_source: &str, bindings: &StrMap<u32>, uniform_defs: &StrMap<UniformDef>) -> (src: String)
    requires
        bindings@.dom().subset_of(uniform_defs@.dom()),
    ensures
        exists|names: Seq<Seq<char>>|
            sorted_listing(names, bindings@.dom()) && src@ == shader_source_text(
                names,
                bindings@,
                uniform_defs@,
                fragment_source@,
            ),
{
    let keys = bindings.keys();
    let ghost dom = bindings@.dom();
    proof {
        let names = names_of(keys@);
        assert(names.no_duplicates()) by {
            assert forall|a: int, c: int| 0 <= a < names.len() && 0 <= c < names.len() && a != c implies names[a] != names[c] by {
                assert(names[a] == keys@[a]@);
                assert(names[c] == keys@[c]@);
            }
        }
        assert(names.to_set() =~= dom) by {
            assert forall|k: Seq<char>| names.to_set().contains(k) <==> dom.contains(k) by {
                if dom.contains(k) {
                    let j = choose|j: int| 0 <= j < keys@.len() && #[trigger] keys@[j]@ == k;
                    assert(names[j] == k);
                }
                if names.to_set().contains(k) {
                    let j = choose|j: int| 0 <= j < names.len() && names[j] == k;
                    assert(keys@[j]@ == k);
                }
            }
        }
    }
    let sorted = sort_names(keys);
    let ghost s = names_of(sorted@);
    let mut uniforms_src = String::new();
    let mut i: usize = 0;
    while i < sorted.len()
        invariant
            i <= sorted@.len(),
            s == names_of(sorted@),
            s.to_set() == dom,
            dom == bindings@.dom(),
            bindings@.dom().subset_of(uniform_defs@.dom()),
            uniforms_src@ == decls_text(s.take(i as int), bindings@, uniform_defs@),
        decreases sorted@.len() - i,
    {
        let name = &sorted[i];
        proof {
            assert(s[i as int] == name@);
            assert(s.contains(name@));
            assert(dom.contains(name@));
        }
        let binding = *bindings.get(name).unwrap();
        let typ = uniform_defs.get(name).unwrap().to_wgsl();
        let ghost before = uniforms_src@;
        uniforms_src.append("@group(2) @binding(");
        push_decimal(&mut uniforms_src, binding as u64);
        uniforms_src.append(")\n            var<uniform> ");
        uniforms_src.append(name.as_str());
        uniforms_src.append(": ");
        uniforms_src.append(typ);
        uniforms_src.append(";");
        proof {
            let t = s.take(i as int + 1);
            assert(t.drop_last() =~= s.take(i as int));
            assert(t.last() == name@);
            assert(uniforms_src@ =~= before + uniform_decl(name@, binding, wgsl_type(uniform_defs@[name@])));
        }
        i = i + 1;
    }
    uniforms_src.append("\n");
    uniforms_src.append(fragment_source);
    proof {
        assert(s.take(i as int) =~= s);
        assert(sorted_listing(s, dom));
    }
    uniforms_src
}

/// The WGSL texts the engine puts in front of user shader code: the camera
/// bind group, the declarations a sprite fragment shader expects, and the
/// vertex stage of post-processing passes.
pub struct ShaderPrefixes {
    pub camera_bind_group: String,
    pub frag_shader_prefix: String,
    pub post_processing_vertex: String,
}

/// A whole sprite shader from a fragment shader: the camera bind group, the
/// fragment prefix, then `source`.
pub fn sprite_shader_from_fragment(prefixes: &ShaderPrefixes, source: &str) -> (s: String)
    ensures
        s@ == prefixes.camera_bind_group@ + prefixes.frag_shader_prefix@ + source@,
{
    let mut s = prefixes.camera_bind_group.clone();
    s.append(prefixes.frag_shader_prefix.as_str());
    s.append(source);
    s
}

/// A whole post-processing shader from a fragment shader: the camera bind
/// group, the post-processing vertex stage, then `source`.
pub fn post_process_shader_from_fragment(prefixes: &ShaderPrefixes, source: &str) -> (s: String)
    ensures
        s@ == prefixes.camera_bind_group@ + prefixes.post_processing_vertex@ + source@,
{
    let mut s = prefixes.camera_bind_group.clone();
    s.append(prefixes.post_processing_vertex.as_str());
    s.append(source);
    s
}

/// Errors of shader creation.
#[derive(Clone, Debug)]
pub enum ShaderError {
    CompileError(String),
}

/// The message of the error for a shader ID that is already taken.
pub open spec fn already_exists_message(name: Seq<char>) -> Seq<char> {
    "Shader with name '"@ + name + "' already exists"@
}

/// Creates a new shader and returns its ID. The `source` should hold the whole
/// shader (see `sprite_shader_from_fragment`); uniform declarations for
/// `uniform_defs` are generated in front of it, numbered as
/// `uniform_defs_to_bindings` does.
pub fn create_shader(
    shaders: &mut ShaderMap,
    ids: &mut ShaderIds,
    name: &str,
    source: &str,
    uniform_defs: StrMap<UniformDef>,
) -> (r: Result<ShaderId, ShaderError>)
    requires
        occurs_in(source@, "@vertex"@),
        uniform_defs@.dom().len() <= u32::MAX,
    ensures
        final(ids).next == old(ids).next.wrapping_add(1),
        final(shaders).watched_paths@ == old(shaders).watched_paths@,
        old(shaders).shaders@.dom().contains(old(ids).next) ==> {
            &&& r matches Err(ShaderError::CompileError(msg))
            &&& msg@ == already_exists_message(name@)
            &&& final(shaders).shaders@ == old(shaders).shaders@
        },
        !old(shaders).shaders@.dom().contains(old(ids).next) ==> {
            let id = old(ids).next;
            let sh = final(shaders).shaders@[id];
            &&& r == Ok::<ShaderId, ShaderError>(ShaderId(id))
            &&& final(shaders).shaders@ == old(shaders).shaders@.insert(id, sh)
            &&& sh.id == ShaderId(id)
            &&& sh.name@ == name@ + " Shader"@
            &&& sh.uniform_defs@ == uniform_defs@
            &&& sh.bindings@.dom() == uniform_defs@.dom()
            &&& forall|k: Seq<char>| #[trigger] sh.bindings@.dom().contains(k) ==> sh.bindings@[k] == rank(uniform_defs@.dom(), k)
            &&& exists|names: Seq<Seq<char>>| sorted_listing(names, uniform_defs@.dom())
                && sh.source@ == shader_source_text(names, sh.bindings@, uniform_defs@, source@)
        },
{
    let id = gen_shader_id(ids);
    if shaders.has_shader(id) {
        let mut msg = "Shader with name '".to_string();
        msg.append(name);
        msg.append("' already exists");
        return Err(ShaderError::CompileError(msg));
    }
    let bindings = uniform_defs_to_bindings(&uniform_defs);
    let shader_source = build_shader_source(source, &bindings, &uniform_defs);
    let mut shader_name = name.to_string();
    shader_name.append(" Shader");
    shaders.insert_shader(id, Shader {
        id,
        name: shader_name,
        source: shader_source,
        uniform_defs,
        bindings,
    });
    Ok(id)
}

} // verus!
