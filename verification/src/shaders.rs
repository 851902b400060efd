//! Shader and render-target bookkeeping: identifiers, the table of shader
//! instances with their uniform values, the current shader and target, and
//! the per-layer y-sorting flags.

use vstd::prelude::*;
use std::collections::HashMap;
use crate::str_map::StrMap;

verus! {

broadcast use vstd::std_specs::hash::group_hash_axioms;

/// Identifier of a render target; `0` is the screen.
#[derive(Copy, Clone, Debug, Default, PartialEq, Eq, Hash, PartialOrd, Ord, Structural)]
pub struct RenderTargetId(pub u32);

/// Opaque handle to a shader. The ID is exposed for debugging purposes.
#[derive(Copy, Clone, Debug, PartialEq, Eq, Hash, Structural)]
pub struct ShaderId(pub u64);

/// Index of a shader instance in the uniform table.
#[derive(Copy, Clone, Debug, PartialEq, Eq, Hash, PartialOrd, Ord, Structural)]
pub struct ShaderInstanceId(pub u32);

/// The value of a shader uniform.
pub enum Uniform {
    /// An `f32` value, held as its bit pattern (`f32::to_bits`).
    F32(u32),
    Custom(Vec<u8>),
}

/// The value a `Uniform` holds.
pub enum UniformValue {
    F32(u32),
    Custom(Seq<u8>),
}

impl View for Uniform {
    type V = UniformValue;

    open spec fn view(&self) -> UniformValue {
        match self {
            Uniform::F32(bits) => UniformValue::F32(*bits),
            Uniform::Custom(data) => UniformValue::Custom(data@),
        }
    }
}

/// The values of a map of uniforms.
pub open spec fn uniform_values(m: Map<Seq<char>, Uniform>) -> Map<Seq<char>, UniformValue> {
    m.map_values(|u: Uniform| u@)
}

impl Uniform {
    /// A copy of the value.
    pub fn duplicate(&self) -> (u: Uniform)
        ensures
            u@ == self@,
    {
        match self {
            Uniform::F32(bits) => Uniform::F32(*bits),
            Uniform::Custom(data) => {
                let copy = data.clone();
                proof {
                    assert(copy@ =~= data@);
                }
                Uniform::Custom(copy)
            },
        }
    }
}

/// A shader together with values for some of its uniforms.
pub struct ShaderInstance {
    pub id: ShaderId,
    pub uniforms: StrMap<Uniform>,
}

/// The shader instances used during a frame, in the order they were created.
pub struct ShaderUniformTable {
    pub instances: Vec<ShaderInstance>,
}

/// The shader state the renderer reads: the instance table, the current
/// shader instance and the current render target.
pub struct ShaderState {
    pub table: ShaderUniformTable,
    pub current_shader: Option<ShaderInstanceId>,
    pub current_render_target: RenderTargetId,
}

impl ShaderState {
    /// An empty table, the default shader and the screen as render target.
    pub fn new() -> (s: ShaderState)
        ensures
            s.table.instances@.len() == 0,
            s.current_shader is None,
            s.current_render_target == RenderTargetId(0),
    {
        ShaderState {
            table: ShaderUniformTable { instances: Vec::new() },
            current_shader: None,
            current_render_target: RenderTargetId(0),
        }
    }
}

/// Empties the table of shader instances.
pub fn clear_shader_uniform_table(state: &mut ShaderState)
    ensures
        final(state).table.instances@.len() == 0,
        final(state).current_shader == old(state).current_shader,
        final(state).current_render_target == old(state).current_render_target,
{
    state.table.instances.clear();
}

/// The shader instance with the given ID, which must exist.
pub fn get_shader_instance(state: &ShaderState, id: ShaderInstanceId) -> (inst: &ShaderInstance)
    requires
        (id.0 as int) < state.table.instances@.len(),
    ensures
        *inst == state.table.instances@[id.0 as int],
{
    &state.table.instances[id.0 as usize]
}

/// Switches to the shader with the given ID: adds an instance of it without
/// uniform values and makes it current. To revert back to the default
/// shader call `use_default_shader()`.
pub fn use_shader(state: &mut ShaderState, shader_id: ShaderId)
    requires
        old(state).table.instances@.len() < u32::MAX,
    ensures
        final(state).table.instances@.len() == old(state).table.instances@.len() + 1,
        final(state).table.instances@.drop_last() == old(state).table.instances@,
        final(state).table.instances@.last().id == shader_id,
        final(state).table.instances@.last().uniforms@ == Map::<Seq<char>, Uniform>::empty(),
        final(state).current_shader == Some(ShaderInstanceId(old(state).table.instances@.len() as u32)),
        final(state).current_render_target == old(state).current_render_target,
{
    state.table.instances.push(ShaderInstance { id: shader_id, uniforms: StrMap::new() });
    state.current_shader = Some(ShaderInstanceId((state.table.instances.len() - 1) as u32));
    proof {
        assert(state.table.instances@.drop_last() =~= old(state).table.instances@);
    }
}

/// Switches back to the default shader.
pub fn use_default_shader(state: &mut ShaderState)
    ensures
        final(state).current_shader is None,
        final(state).table == old(state).table,
        final(state).current_render_target == old(state).current_render_target,
{
    state.current_shader = None;
}

/// The current shader instance, if any.
pub fn get_current_shader(state: &ShaderState) -> (r: Option<ShaderInstanceId>)
    ensures
        r == state.current_shader,
{
    state.current_shader
}

/// The index of the current shader instance.
pub open spec fn current_index(state: ShaderState) -> int {
    (state.current_shader->0).0 as int
}

/// Sets a uniform of the current shader: adds a copy of the current instance
/// with `name` set to `value`, and makes that copy current. A shader must be
/// active and its instance must exist.
pub fn set_uniform(state: &mut ShaderState, name: String, value: Uniform)
    requires
        old(state).current_shader is Some,
        current_index(*old(state)) < old(state).table.instances@.len(),
        old(state).table.instances@.len() < u32::MAX,
    ensures
        final(state).table.instances@.len() == old(state).table.instances@.len() + 1,
        final(state).table.instances@.drop_last() == old(state).table.instances@,
        final(state).table.instances@.last().id == old(state).table.instances@[current_index(*old(state))].id,
        uniform_values(final(state).table.instances@.last().uniforms@) == uniform_values(
            old(state).table.instances@[current_index(*old(state))].uniforms@,
        ).insert(name@, value@),
        final(state).current_shader == Some(ShaderInstanceId(old(state).table.instances@.len() as u32)),
        final(state).current_render_target == old(state).current_render_target,
{
    let current = state.current_shader.unwrap();
    let instance = &state.table.instances[current.0 as usize];
    let mut uniforms = copy_uniforms(&instance.uniforms);
    let ghost copied = uniforms@;
    let ghost nm = name@;
    let ghost vv = value@;
    uniforms.insert(name, value);
    proof {
        assert(uniform_values(uniforms@) =~= uniform_values(copied).insert(nm, vv));
    }
    let new_instance = ShaderInstance { id: instance.id, uniforms };
    state.table.instances.push(new_instance);
    state.current_shader = Some(ShaderInstanceId((state.table.instances.len() - 1) as u32));
    proof {
        assert(state.table.instances@.drop_last() =~= old(state).table.instances@);
    }
}

/// A copy of a map of uniform values.
fn copy_uniforms(m: &StrMap<Uniform>) -> (c: StrMap<Uniform>)
    ensures
        uniform_values(c@) == uniform_values(m@),
{
    let keys = m.keys();
    let mut c = StrMap::new();
    let mut i: usize = 0;
    while i < keys.len()
        invariant
            i <= keys@.len(),
            forall|j: int| 0 <= j < keys@.len() ==> m@.dom().contains(#[trigger] keys@[j]@),
            forall|k: Seq<char>| m@.dom().contains(k) ==> exists|j: int| 0 <= j < keys@.len() && #[trigger] keys@[j]@ == k,
            uniform_values(c@) == uniform_values(m@.restrict(Set::new(|k: Seq<char>| exists|j: int| 0 <= j < i && #[trigger] keys@[j]@ == k))),
        decreases keys@.len() - i,
    {
        let key = keys[i].clone();
        let got = m.get(&key);
        let v = got.unwrap().duplicate();
        let ghost kk = key@;
        assert(m@.dom().contains(kk));
        assert(v@ == m@[kk]@);
        let ghost before = c@;
        c.insert(key, v);
        i = i + 1;
        proof {
            let sel = Set::new(|k: Seq<char>| exists|j: int| 0 <= j < i && #[trigger] keys@[j]@ == k);
            let prev = Set::new(|k: Seq<char>| exists|j: int| 0 <= j < i - 1 && #[trigger] keys@[j]@ == k);
            assert(keys@[i - 1]@ == kk);
            assert(sel =~= prev.insert(kk));
            assert(c@ == before.insert(kk, v));
            assert(uniform_values(before) == uniform_values(m@.restrict(prev)));
            assert forall|k: Seq<char>| #[trigger] c@.dom().contains(k) <==> m@.restrict(sel).dom().contains(k) by {
                if k != kk {
                    assert(before.dom().contains(k) <==> uniform_values(before).dom().contains(k));
                    assert(m@.restrict(prev).dom().contains(k) <==> uniform_values(m@.restrict(prev)).dom().contains(k));
                }
            }
            assert forall|k: Seq<char>| #[trigger] c@.dom().contains(k) implies c@[k]@ == m@.restrict(sel)[k]@ by {
                if k != kk {
                    assert(uniform_values(before)[k] == before[k]@);
                    assert(uniform_values(m@.restrict(prev))[k] == m@.restrict(prev)[k]@);
                }
            }
            assert(uniform_values(c@) =~= uniform_values(m@.restrict(sel)));
        }
    }
    proof {
        let sel = Set::new(|k: Seq<char>| exists|j: int| 0 <= j < i && #[trigger] keys@[j]@ == k);
        assert(m@.restrict(sel) =~= m@);
        assert(uniform_values(c@) =~= uniform_values(m@));
    }
    c
}

/// Makes `id` the render target that drawing goes to.
pub fn use_render_target(state: &mut ShaderState, id: RenderTargetId)
    ensures
        final(state).current_render_target == id,
        final(state).table == old(state).table,
        final(state).current_shader == old(state).current_shader,
{
    state.current_render_target = id;
}

/// Makes the screen the render target that drawing goes to.
pub fn use_default_render_target(state: &mut ShaderState)
    ensures
        final(state).current_render_target == RenderTargetId(0),
        final(state).table == old(state).table,
        final(state).current_shader == old(state).current_shader,
{
    state.current_render_target = RenderTargetId(0);
}

/// The render target drawing goes to.
pub fn get_current_render_target(state: &ShaderState) -> (r: RenderTargetId)
    ensures
        r == state.current_render_target,
{
    state.current_render_target
}

/// Counters from which fresh shader IDs are handed out.
pub struct ShaderIds {
    pub next: u64,
}

/// Generates a new ShaderId. This is intended for internal use only.
pub fn gen_shader_id(ids: &mut ShaderIds) -> (id: ShaderId)
    ensures
        id == ShaderId(old(ids).next),
        final(ids).next == old(ids).next.wrapping_add(1),
{
    let id = ids.next;
    ids.next = ids.next.wrapping_add(1);
    ShaderId(id)
}

/// The counter from which fresh render target IDs are handed out (`0` is
/// the screen, so generated IDs start at `1`), and the debug names given to
/// generated targets, in the order they were given.
pub struct RenderTargetIds {
    pub next: u32,
    pub labels: Vec<(RenderTargetId, String)>,
}

impl RenderTargetIds {
    /// A counter whose first ID is `1`; no names yet.
    pub fn new() -> (ids: RenderTargetIds)
        ensures
            ids.next == 1,
            ids.labels@.len() == 0,
    {
        RenderTargetIds { next: 1, labels: Vec::new() }
    }
}

/// Allocates a new render target id. A label, if given, is recorded as the
/// target's debug name, for graphics debuggers such as RenderDoc.
pub fn gen_render_target(ids: &mut RenderTargetIds, label: Option<&str>) -> (id: RenderTargetId)
    ensures
        id == RenderTargetId(old(ids).next),
        final(ids).next == old(ids).next.wrapping_add(1),
        label is None ==> final(ids).labels@ == old(ids).labels@,
        label matches Some(l) ==> {
            &&& final(ids).labels@.len() == old(ids).labels@.len() + 1
            &&& final(ids).labels@.drop_last() == old(ids).labels@
            &&& final(ids).labels@.last().0 == id
            &&& final(ids).labels@.last().1@ == l@
        },
{
    let id = RenderTargetId(ids.next);
    ids.next = ids.next.wrapping_add(1);
    match label {
        Some(l) => {
            ids.labels.push((id, l.to_string()));
            assert(ids.labels@.drop_last() =~= old(ids).labels@);
        },
        None => {},
    }
    id
}

/// The debug name last given to the render target `id`, if any.
pub fn render_target_label(ids: &RenderTargetIds, id: RenderTargetId) -> (name: Option<String>)
    ensures
        name matches Some(n) ==> exists|i: int|
            0 <= i < ids.labels@.len() && ids.labels@[i].0 == id && ids.labels@[i].1@ == n@
                && forall|j: int| i < j < ids.labels@.len() ==> #[trigger] ids.labels@[j].0 != id,
        name is None ==> forall|i: int| 0 <= i < ids.labels@.len() ==> #[trigger] ids.labels@[i].0 != id,
{
    let mut k: usize = ids.labels.len();
    while k > 0
        invariant
            k <= ids.labels@.len(),
            forall|j: int| k <= j < ids.labels@.len() ==> #[trigger] ids.labels@[j].0 != id,
        decreases k,
    {
        k = k - 1;
        if ids.labels[k].0 == id {
            let n = ids.labels[k].1.clone();
            assert(ids.labels@[k as int].0 == id && ids.labels@[k as int].1@ == n@);
            return Some(n);
        }
    }
    None
}

/// Each value of `c` is the one before it plus one, wrapping as the counter does.
pub open spec fn successive_u64(c: Seq<u64>) -> bool {
    forall|i: int, j: int| #![trigger c[i], c[j]] 0 <= i && j == i + 1 && j < c.len() ==> c[j] == c[i].wrapping_add(1)
}

/// Each value of `c` is the one before it plus one, wrapping as the counter does.
pub open spec fn successive_u32(c: Seq<u32>) -> bool {
    forall|i: int, j: int| #![trigger c[i], c[j]] 0 <= i && j == i + 1 && j < c.len() ==> c[j] == c[i].wrapping_add(1)
}

/// A run of counter values in which each is the one before plus one
/// (wrapping), starting low enough not to wrap, counts up from its start.
pub(crate) proof fn lemma_counter_run_u64(counters: Seq<u64>)
    requires
        counters.len() >= 1,
        counters[0] + counters.len() - 1 <= u64::MAX,
        successive_u64(counters),
    ensures
        forall|k: int| 0 <= k < counters.len() ==> #[trigger] counters[k] == counters[0] + k,
    decreases counters.len(),
{
    if counters.len() > 1 {
        let p = counters.drop_last();
        assert forall|i: int, j: int| #![trigger p[i], p[j]] 0 <= i && j == i + 1 && j < p.len() implies p[j] == p[i].wrapping_add(1) by {
            assert(counters[j] == counters[i].wrapping_add(1));
        }
        lemma_counter_run_u64(p);
        let n = counters.len() - 1;
        assert(p[n - 1] == p[0] + n - 1);
        assert(counters[n] == counters[n - 1].wrapping_add(1));
        assert forall|k: int| 0 <= k < counters.len() implies #[trigger] counters[k] == counters[0] + k by {
            if k < n {
                assert(p[k] == p[0] + k);
            }
        }
        assert(counters[n - 1] + 1 <= u64::MAX);
    }
}

/// As `lemma_counter_run_u64`, for 32-bit counters.
proof fn lemma_counter_run_u32(counters: Seq<u32>)
    requires
        counters.len() >= 1,
        counters[0] + counters.len() - 1 <= u32::MAX,
        successive_u32(counters),
    ensures
        forall|k: int| 0 <= k < counters.len() ==> #[trigger] counters[k] == counters[0] + k,
    decreases counters.len(),
{
    if counters.len() > 1 {
        let p = counters.drop_last();
        assert forall|i: int, j: int| #![trigger p[i], p[j]] 0 <= i && j == i + 1 && j < p.len() implies p[j] == p[i].wrapping_add(1) by {
            assert(counters[j] == counters[i].wrapping_add(1));
        }
        lemma_counter_run_u32(p);
        let n = counters.len() - 1;
        assert(p[n - 1] == p[0] + n - 1);
        assert(counters[n] == counters[n - 1].wrapping_add(1));
        assert forall|k: int| 0 <= k < counters.len() implies #[trigger] counters[k] == counters[0] + k by {
            if k < n {
                assert(p[k] == p[0] + k);
            }
        }
        assert(counters[n - 1] + 1 <= u32::MAX);
    }
}

/// Successive calls of `gen_shader_id` hand out strictly increasing ids, so
/// no id repeats, as long as the counter does not wrap: `counters` are the
/// counter's values before each call (and after the last), `ids` what the
/// calls returned.
pub proof fn law_shader_ids_increase(counters: Seq<u64>, ids: Seq<ShaderId>)
    requires
        counters.len() == ids.len() + 1,
        forall|k: int| 0 <= k < ids.len() ==> #[trigger] ids[k] == ShaderId(counters[k]),
        successive_u64(counters),
        counters[0] + ids.len() <= u64::MAX + 1,
    ensures
        forall|k: int| 0 <= k < ids.len() ==> #[trigger] ids[k].0 == counters[0] + k,
        forall|i: int, j: int| 0 <= i < j < ids.len() ==> #[trigger] ids[i].0 < #[trigger] ids[j].0,
{
    if ids.len() > 0 {
        let run = counters.drop_last();
        assert forall|i: int, j: int| #![trigger run[i], run[j]] 0 <= i && j == i + 1 && j < run.len() implies run[j] == run[i].wrapping_add(1) by {
            assert(counters[j] == counters[i].wrapping_add(1));
        }
        lemma_counter_run_u64(run);
        assert forall|k: int| 0 <= k < ids.len() implies #[trigger] ids[k].0 == counters[0] + k by {
            assert(run[k] == counters[k]);
        }
    }
}

/// Successive calls of `gen_render_target` hand out strictly increasing ids,
/// none of them the screen's id `0`, as long as the counter started at `1`
/// or above and does not wrap: `counters` are the counter's values before
/// each call (and after the last), `ids` what the calls returned.
pub proof fn law_render_target_ids_increase(counters: Seq<u32>, ids: Seq<RenderTargetId>)
    requires
        counters.len() == ids.len() + 1,
        counters[0] >= 1,
        forall|k: int| 0 <= k < ids.len() ==> #[trigger] ids[k] == RenderTargetId(counters[k]),
        successive_u32(counters),
        counters[0] + ids.len() <= u32::MAX + 1,
    ensures
        forall|k: int| 0 <= k < ids.len() ==> #[trigger] ids[k].0 == counters[0] + k,
        forall|k: int| 0 <= k < ids.len() ==> #[trigger] ids[k] != RenderTargetId(0),
        forall|i: int, j: int| 0 <= i < j < ids.len() ==> #[trigger] ids[i].0 < #[trigger] ids[j].0,
{
    if ids.len() > 0 {
        let run = counters.drop_last();
        assert forall|i: int, j: int| #![trigger run[i], run[j]] 0 <= i && j == i + 1 && j < run.len() implies run[j] == run[i].wrapping_add(1) by {
            assert(counters[j] == counters[i].wrapping_add(1));
        }
        lemma_counter_run_u32(run);
        assert forall|k: int| 0 <= k < ids.len() implies #[trigger] ids[k].0 == counters[0] + k by {
            assert(run[k] == counters[k]);
        }
        assert forall|k: int| 0 <= k < ids.len() implies #[trigger] ids[k] != RenderTargetId(0) by {
            assert(ids[k].0 == counters[0] + k);
        }
    }
}

/// Which z-index layers are drawn sorted by their y coordinate.
pub struct YSortFlags {
    pub flags: HashMap<i32, bool>,
}

impl YSortFlags {
    /// No layer sorted.
    pub fn new() -> (f: YSortFlags)
        ensures
            f.flags@ == Map::<i32, bool>::empty(),
    {
        YSortFlags { flags: HashMap::new() }
    }
}

/// Sets whether the layer `z_index` is drawn sorted by y.
pub fn set_y_sort(flags: &mut YSortFlags, z_index: i32, value: bool)
    ensures
        final(flags).flags@ == old(flags).flags@.insert(z_index, value),
{
    flags.flags.insert(z_index, value);
}

/// Whether the layer `z_index` is drawn sorted by y; `false` unless set.
pub fn get_y_sort(flags: &YSortFlags, z_index: i32) -> (b: bool)
    ensures
        b == (flags.flags@.dom().contains(z_index) && flags.flags@[z_index]),
{
    match flags.flags.get(&z_index) {
        Some(v) => *v,
        None => false,
    }
}

} // verus!
