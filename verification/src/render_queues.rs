//! The render queues: meshes grouped by everything that forces a separate
//! draw call, with the groups in the order they are drawn.

use vstd::prelude::*;
use std::collections::BTreeMap;
use vstd::std_specs::cmp::OrdSpec;
use crate::assets::{TextureHandle, name_hash};
use crate::shaders::{ShaderInstanceId, RenderTargetId, ShaderState, get_current_shader, get_current_render_target};

verus! {

/// How a mesh is blended with what is behind it.
#[derive(Copy, Clone, Debug, PartialEq, Eq, Hash, PartialOrd, Ord, Structural)]
pub enum BlendMode {
    /// No blending: the default.
    NoBlend,
    Additive,
    Alpha,
}

impl Default for BlendMode {
    fn default() -> (b: BlendMode)
        ensures
            b == BlendMode::NoBlend,
    {
        BlendMode::NoBlend
    }
}

/// What a group of meshes shares: layer, blending, texture, shader and target.
#[derive(Copy, Clone, Debug, PartialEq, Eq, Hash, PartialOrd, Ord, Structural)]
pub struct MeshGroupKey {
    pub z_index: i32,
    pub blend_mode: BlendMode,
    pub texture_id: TextureHandle,
    pub shader: Option<ShaderInstanceId>,
    pub render_target: Option<RenderTargetId>,
}

/// The position of a blend mode in the declaration order.
pub open spec fn blend_rank(b: BlendMode) -> int {
    match b {
        BlendMode::NoBlend => 0,
        BlendMode::Additive => 1,
        BlendMode::Alpha => 2,
    }
}

/// The numbers a key is ordered by, most significant first: the fields in
/// declaration order, enums by variant then payload, `None` before `Some`.
pub open spec fn key_code(k: MeshGroupKey) -> Seq<int> {
    let (tv, tp) = match k.texture_id {
        TextureHandle::Path(p) => (0int, p as int),
        TextureHandle::Raw(p) => (1int, p as int),
        TextureHandle::RenderTarget(t) => (2int, t.0 as int),
    };
    let (sv, sp) = match k.shader {
        None => (0int, 0int),
        Some(s) => (1int, s.0 as int),
    };
    let (rv, rp) = match k.render_target {
        None => (0int, 0int),
        Some(r) => (1int, r.0 as int),
    };
    seq![k.z_index as int, blend_rank(k.blend_mode), tv, tp, sv, sp, rv, rp]
}

/// The order of group keys, that of the derived `Ord`: the first number of
/// `key_code` in which the two keys differ decides.
pub open spec fn key_lt(a: MeshGroupKey, b: MeshGroupKey) -> bool {
    let x = key_code(a);
    let y = key_code(b);
    if x[0] != y[0] {
        x[0] < y[0]
    } else if x[1] != y[1] {
        x[1] < y[1]
    } else if x[2] != y[2] {
        x[2] < y[2]
    } else if x[3] != y[3] {
        x[3] < y[3]
    } else if x[4] != y[4] {
        x[4] < y[4]
    } else if x[5] != y[5] {
        x[5] < y[5]
    } else if x[6] != y[6] {
        x[6] < y[6]
    } else {
        x[7] < y[7]
    }
}

proof fn lemma_key_code_injective(a: MeshGroupKey, b: MeshGroupKey)
    requires
        key_code(a)[0] == key_code(b)[0],
        key_code(a)[1] == key_code(b)[1],
        key_code(a)[2] == key_code(b)[2],
        key_code(a)[3] == key_code(b)[3],
        key_code(a)[4] == key_code(b)[4],
        key_code(a)[5] == key_code(b)[5],
        key_code(a)[6] == key_code(b)[6],
        key_code(a)[7] == key_code(b)[7],
    ensures
        a == b,
{
}

/// The key order is a strict total order.
pub proof fn law_key_order_total(a: MeshGroupKey, b: MeshGroupKey, c: MeshGroupKey)
    ensures
        !(key_lt(a, b) && key_lt(b, a)),
        a != b ==> key_lt(a, b) || key_lt(b, a),
        !key_lt(a, a),
        key_lt(a, b) && key_lt(b, c) ==> key_lt(a, c),
{
    if !key_lt(a, b) && !key_lt(b, a) {
        lemma_key_code_injective(a, b);
    }
}

/// The numbers of `key_code`, computed.
fn key_numbers(k: &MeshGroupKey) -> (r: (i32, u8, u8, u64, u8, u32, u8, u32))
    ensures
        r == group_code(*k),
        r.0 == key_code(*k)[0],
        r.1 == key_code(*k)[1],
        r.2 == key_code(*k)[2],
        r.3 == key_code(*k)[3],
        r.4 == key_code(*k)[4],
        r.5 == key_code(*k)[5],
        r.6 == key_code(*k)[6],
        r.7 == key_code(*k)[7],
{
    let b: u8 = match k.blend_mode {
        BlendMode::NoBlend => 0,
        BlendMode::Additive => 1,
        BlendMode::Alpha => 2,
    };
    let (tv, tp): (u8, u64) = match k.texture_id {
        TextureHandle::Path(p) => (0, p),
        TextureHandle::Raw(p) => (1, p),
        TextureHandle::RenderTarget(t) => (2, t.0 as u64),
    };
    let (sv, sp): (u8, u32) = match k.shader {
        None => (0, 0),
        Some(s) => (1, s.0),
    };
    let (rv, rp): (u8, u32) = match k.render_target {
        None => (0, 0),
        Some(r) => (1, r.0),
    };
    (k.z_index, b, tv, tp, sv, sp, rv, rp)
}

/// The numbers of `key_code` as a tuple, by which the queues are ordered.
pub open spec fn group_code(k: MeshGroupKey) -> (i32, u8, u8, u64, u8, u32, u8, u32) {
    let c = key_code(k);
    (c[0] as i32, c[1] as u8, c[2] as u8, c[3] as u64, c[4] as u8, c[5] as u32, c[6] as u8, c[7] as u32)
}

/// Whether `a` comes before `b` in the order in which groups are drawn.
pub fn key_less(a: &MeshGroupKey, b: &MeshGroupKey) -> (r: bool)
    ensures
        r == key_lt(*a, *b),
{
    let x = key_numbers(a);
    let y = key_numbers(b);
    if x.0 != y.0 {
        x.0 < y.0
    } else if x.1 != y.1 {
        x.1 < y.1
    } else if x.2 != y.2 {
        x.2 < y.2
    } else if x.3 != y.3 {
        x.3 < y.3
    } else if x.4 != y.4 {
        x.4 < y.4
    } else if x.5 != y.5 {
        x.5 < y.5
    } else if x.6 != y.6 {
        x.6 < y.6
    } else {
        x.7 < y.7
    }
}


/// A mesh to draw: its vertices (of whatever kind the renderer uses), the
/// indices of its triangles, its layer and its texture, if any.
pub struct Mesh<T> {
    pub vertices: Vec<T>,
    pub indices: Vec<u32>,
    pub z_index: i32,
    pub texture: Option<TextureHandle>,
}

/// The key under which a mesh is queued: its layer, the blend mode, its
/// texture (the white pixel `"1px"` when it has none), the current shader
/// instance and the current render target.
pub open spec fn group_key<T>(state: ShaderState, mesh: Mesh<T>, blend_mode: BlendMode) -> MeshGroupKey {
    MeshGroupKey {
        z_index: mesh.z_index,
        blend_mode,
        texture_id: match mesh.texture {
            Some(t) => t,
            None => TextureHandle::Path(name_hash("1px"@)),
        },
        shader: state.current_shader,
        render_target: Some(state.current_render_target),
    }
}

/// The groups of a map of groups, their meshes as sequences.
pub open spec fn group_views<T>(
    m: Map<(i32, u8, u8, u64, u8, u32, u8, u32), (MeshGroupKey, Vec<Mesh<T>>)>,
) -> Map<(i32, u8, u8, u64, u8, u32, u8, u32), (MeshGroupKey, Seq<Mesh<T>>)> {
    m.map_values(|g: (MeshGroupKey, Vec<Mesh<T>>)| (g.0, g.1@))
}

/// Every group is filed under the code of its own key.
pub open spec fn filed_by_code<T>(m: Map<(i32, u8, u8, u64, u8, u32, u8, u32), (MeshGroupKey, Seq<Mesh<T>>)>) -> bool {
    forall|c: (i32, u8, u8, u64, u8, u32, u8, u32)| #[trigger] m.dom().contains(c) ==> group_code(m[c].0) == c
}

/// `m` with `mesh` appended to the group of `key`, a group that is created
/// where it is missing.
pub open spec fn with_queued<T>(
    m: Map<(i32, u8, u8, u64, u8, u32, u8, u32), (MeshGroupKey, Seq<Mesh<T>>)>,
    key: MeshGroupKey,
    mesh: Mesh<T>,
) -> Map<(i32, u8, u8, u64, u8, u32, u8, u32), (MeshGroupKey, Seq<Mesh<T>>)> {
    let c = group_code(key);
    let before = if m.dom().contains(c) { m[c].1 } else { Seq::empty() };
    m.insert(c, (key, before.push(mesh)))
}

/// Meshes queued for drawing, grouped by key; the map keeps the groups in
/// key order.
pub struct RenderQueues<T> {
    groups: BTreeMap<(i32, u8, u8, u64, u8, u32, u8, u32), (MeshGroupKey, Vec<Mesh<T>>)>,
}

impl<T> View for RenderQueues<T> {
    type V = Map<(i32, u8, u8, u64, u8, u32, u8, u32), (MeshGroupKey, Seq<Mesh<T>>)>;

    closed spec fn view(&self) -> Self::V {
        group_views(self.groups@)
    }
}

impl<T> RenderQueues<T> {
    #[verifier::type_invariant]
    spec fn well_formed(self) -> bool {
        filed_by_code(group_views(self.groups@))
    }

    /// No queued meshes.
    pub fn new() -> (q: Self)
        ensures
            q@ == Map::<(i32, u8, u8, u64, u8, u32, u8, u32), (MeshGroupKey, Seq<Mesh<T>>)>::empty(),
    {
        let q = RenderQueues { groups: BTreeMap::new() };
        assert(q@ =~= Map::<(i32, u8, u8, u64, u8, u32, u8, u32), (MeshGroupKey, Seq<Mesh<T>>)>::empty());
        q
    }
}

impl<T> Default for RenderQueues<T> {
    fn default() -> (q: Self)
        ensures
            q@ == Map::<(i32, u8, u8, u64, u8, u32, u8, u32), (MeshGroupKey, Seq<Mesh<T>>)>::empty(),
    {
        RenderQueues::new()
    }
}

/// Appends `mesh` to the group of `key`, creating the group where it is missing.
fn queue_with_key<T>(queues: &mut RenderQueues<T>, key: MeshGroupKey, mesh: Mesh<T>)
    ensures
        filed_by_code(final(queues)@),
        final(queues)@ == with_queued(old(queues)@, key, mesh),
{
    broadcast use {vstd::std_specs::btree::group_btree_axioms, vstd::laws_cmp::group_laws_cmp};
    proof {
        use_type_invariant(&*queues);
    }
    assert(vstd::laws_cmp::obeys_cmp::<(i32, u8, u8, u64, u8, u32, u8, u32)>());
    let code = key_numbers(&key);
    let mut groups: BTreeMap<(i32, u8, u8, u64, u8, u32, u8, u32), (MeshGroupKey, Vec<Mesh<T>>)> = BTreeMap::new();
    std::mem::swap(&mut groups, &mut queues.groups);
    let ghost before = group_views(groups@);
    let ghost m = mesh;
    let mut meshes: Vec<Mesh<T>> = match groups.remove(&code) {
        Some(g) => g.1,
        None => Vec::new(),
    };
    let ghost prior = meshes@;
    assert(prior == (if before.dom().contains(code) { before[code].1 } else { Seq::<Mesh<T>>::empty() }));
    meshes.push(mesh);
    groups.insert(code, (key, meshes));
    proof {
        assert(group_views(groups@) =~= with_queued(before, key, m));
        assert forall|c: (i32, u8, u8, u64, u8, u32, u8, u32)| #[trigger] group_views(groups@).dom().contains(c)
            implies group_code(group_views(groups@)[c].0) == c by {
            if c != code {
                assert(before.dom().contains(c));
            }
        }
    }
    queues.groups = groups;
}

/// Queues `mesh` for drawing with `blend_mode`, grouped with the meshes that
/// share its layer, blend mode, texture, the current shader instance and the
/// current render target.
pub fn queue_mesh_draw<T>(queues: &mut RenderQueues<T>, state: &ShaderState, mesh: Mesh<T>, blend_mode: BlendMode)
    ensures
        filed_by_code(final(queues)@),
        final(queues)@ == with_queued(old(queues)@, group_key(*state, mesh, blend_mode), mesh),
{
    let shader = get_current_shader(state);
    let render_target = get_current_render_target(state);
    let white_px = TextureHandle::from_path("1px");
    let texture_id = match mesh.texture {
        Some(t) => t,
        None => white_px,
    };
    let key = MeshGroupKey {
        z_index: mesh.z_index,
        blend_mode,
        texture_id,
        shader,
        render_target: Some(render_target),
    };
    queue_with_key(queues, key, mesh);
}

/// Takes the queued groups, by the codes of their keys (so that walking the
/// map visits them in key order), and leaves the queues empty.
pub fn consume_render_queues<T>(queues: &mut RenderQueues<T>)
    -> (r: BTreeMap<(i32, u8, u8, u64, u8, u32, u8, u32), (MeshGroupKey, Vec<Mesh<T>>)>)
    ensures
        group_views(r@) == old(queues)@,
        filed_by_code(group_views(r@)),
        final(queues)@ == Map::<(i32, u8, u8, u64, u8, u32, u8, u32), (MeshGroupKey, Seq<Mesh<T>>)>::empty(),
{
    proof {
        use_type_invariant(&*queues);
    }
    let mut groups: BTreeMap<(i32, u8, u8, u64, u8, u32, u8, u32), (MeshGroupKey, Vec<Mesh<T>>)> = BTreeMap::new();
    std::mem::swap(&mut groups, &mut queues.groups);
    assert(queues@ =~= Map::<(i32, u8, u8, u64, u8, u32, u8, u32), (MeshGroupKey, Seq<Mesh<T>>)>::empty());
    groups
}

/// Queues `mesh` with the default blend mode.
pub fn draw_mesh<T>(queues: &mut RenderQueues<T>, state: &ShaderState, mesh: Mesh<T>)
    ensures
        filed_by_code(final(queues)@),
        final(queues)@ == with_queued(old(queues)@, group_key(*state, mesh, BlendMode::NoBlend), mesh),
{
    draw_mesh_ex(queues, state, mesh, BlendMode::default());
}

/// Queues `mesh` with `blend_mode`.
pub fn draw_mesh_ex<T>(queues: &mut RenderQueues<T>, state: &ShaderState, mesh: Mesh<T>, blend_mode: BlendMode)
    ensures
        filed_by_code(final(queues)@),
        final(queues)@ == with_queued(old(queues)@, group_key(*state, mesh, blend_mode), mesh),
{
    queue_mesh_draw(queues, state, mesh, blend_mode);
}

/// Queueing a mesh makes it the newest mesh of the group of its key and
/// leaves every other group as it was.
pub proof fn law_queued_mesh_is_newest_of_its_group<T>(
    before: Map<(i32, u8, u8, u64, u8, u32, u8, u32), (MeshGroupKey, Seq<Mesh<T>>)>,
    key: MeshGroupKey,
    mesh: Mesh<T>,
)
    ensures
        with_queued(before, key, mesh).dom().contains(group_code(key)),
        with_queued(before, key, mesh)[group_code(key)].0 == key,
        with_queued(before, key, mesh)[group_code(key)].1.last() == mesh,
        with_queued(before, key, mesh)[group_code(key)].1.len() == (if before.dom().contains(group_code(key)) {
            before[group_code(key)].1.len() + 1
        } else {
            1
        }),
        forall|c: (i32, u8, u8, u64, u8, u32, u8, u32)| c != group_code(key) && #[trigger] before.dom().contains(c)
            ==> with_queued(before, key, mesh)[c] == before[c],
{
}

/// Distinct keys have distinct codes, so no two groups share a place.
pub proof fn law_group_codes_distinct(a: MeshGroupKey, b: MeshGroupKey)
    ensures
        group_code(a) == group_code(b) ==> a == b,
{
    if group_code(a) == group_code(b) {
        lemma_key_code_injective(a, b);
    }
}

/// The map's order of codes is the order of keys: a group's code comes
/// before another's exactly when its key does.
pub proof fn law_code_order_is_key_order(a: MeshGroupKey, b: MeshGroupKey)
    ensures
        (group_code(a).cmp_spec(&group_code(b)) is Less) == key_lt(a, b),
{
}

/// Groups come out layer by layer: whatever order meshes were queued in, a
/// group of a lower z-index comes before every group of a higher one.
pub proof fn law_lower_z_index_drawn_first(a: MeshGroupKey, b: MeshGroupKey)
    requires
        a.z_index < b.z_index,
    ensures
        group_code(a).cmp_spec(&group_code(b)) is Less,
{
}

} // verus!
