use comfy_core::assets::TextureHandle;
use comfy_core::render_queues::{
    consume_render_queues, draw_mesh, draw_mesh_ex, key_less, queue_mesh_draw, BlendMode, Mesh,
    MeshGroupKey, RenderQueues,
};
use comfy_core::shaders::{
    use_render_target, use_shader, RenderTargetId, ShaderId, ShaderInstanceId, ShaderState,
};

fn mesh(z_index: i32, texture: Option<TextureHandle>, tag: u8) -> Mesh<u8> {
    Mesh { vertices: vec![tag], indices: vec![0, 1, 2], z_index, texture }
}

fn key(z_index: i32, blend_mode: BlendMode, texture_id: TextureHandle) -> MeshGroupKey {
    MeshGroupKey {
        z_index,
        blend_mode,
        texture_id,
        shader: None,
        render_target: Some(RenderTargetId(0)),
    }
}

#[test]
fn same_key_meshes_share_a_group_in_queue_order() {
    let state = ShaderState::new();
    let mut queues: RenderQueues<u8> = RenderQueues::new();
    let tex = TextureHandle::Raw(5);
    queue_mesh_draw(&mut queues, &state, mesh(0, Some(tex), 1), BlendMode::Alpha);
    queue_mesh_draw(&mut queues, &state, mesh(0, Some(tex), 2), BlendMode::Alpha);
    let groups: Vec<(MeshGroupKey, Vec<Mesh<u8>>)> = consume_render_queues(&mut queues).into_values().collect();
    assert_eq!(groups.len(), 1);
    assert_eq!(groups[0].0, key(0, BlendMode::Alpha, tex));
    let tags: Vec<u8> = groups[0].1.iter().map(|m| m.vertices[0]).collect();
    assert_eq!(tags, vec![1, 2]);
}

#[test]
fn groups_come_out_in_key_order() {
    let state = ShaderState::new();
    let mut queues: RenderQueues<u8> = RenderQueues::new();
    let tex = TextureHandle::Raw(1);
    queue_mesh_draw(&mut queues, &state, mesh(3, Some(tex), 1), BlendMode::NoBlend);
    queue_mesh_draw(&mut queues, &state, mesh(-2, Some(tex), 2), BlendMode::NoBlend);
    queue_mesh_draw(&mut queues, &state, mesh(3, Some(tex), 3), BlendMode::Additive);
    queue_mesh_draw(&mut queues, &state, mesh(0, Some(TextureHandle::Path(9)), 4), BlendMode::Alpha);
    queue_mesh_draw(&mut queues, &state, mesh(-2, Some(tex), 5), BlendMode::NoBlend);
    let groups: Vec<(MeshGroupKey, Vec<Mesh<u8>>)> = consume_render_queues(&mut queues).into_values().collect();
    let keys: Vec<MeshGroupKey> = groups.iter().map(|g| g.0).collect();
    assert_eq!(
        keys,
        vec![
            key(-2, BlendMode::NoBlend, tex),
            key(0, BlendMode::Alpha, TextureHandle::Path(9)),
            key(3, BlendMode::NoBlend, tex),
            key(3, BlendMode::Additive, tex),
        ]
    );
    assert_eq!(groups[0].1.len(), 2);
    let mut sorted = keys.clone();
    sorted.sort();
    assert_eq!(keys, sorted);
}

#[test]
fn consuming_leaves_the_queues_empty() {
    let state = ShaderState::new();
    let mut queues: RenderQueues<u8> = RenderQueues::default();
    draw_mesh(&mut queues, &state, mesh(1, None, 7));
    assert_eq!(consume_render_queues(&mut queues).len(), 1);
    assert!(consume_render_queues(&mut queues).is_empty());
}

#[test]
fn a_mesh_without_texture_uses_the_white_pixel() {
    let state = ShaderState::new();
    let mut queues: RenderQueues<u8> = RenderQueues::new();
    draw_mesh(&mut queues, &state, mesh(1, None, 7));
    let groups: Vec<(MeshGroupKey, Vec<Mesh<u8>>)> = consume_render_queues(&mut queues).into_values().collect();
    assert_eq!(groups[0].0.texture_id, TextureHandle::from_path("1px"));
    assert_eq!(groups[0].0.blend_mode, BlendMode::NoBlend);
}

#[test]
fn shader_and_render_target_split_groups() {
    let mut state = ShaderState::new();
    let mut queues: RenderQueues<u8> = RenderQueues::new();
    let tex = TextureHandle::Raw(1);
    draw_mesh_ex(&mut queues, &state, mesh(0, Some(tex), 1), BlendMode::NoBlend);
    use_shader(&mut state, ShaderId(4));
    draw_mesh_ex(&mut queues, &state, mesh(0, Some(tex), 2), BlendMode::NoBlend);
    use_render_target(&mut state, RenderTargetId(3));
    draw_mesh_ex(&mut queues, &state, mesh(0, Some(tex), 3), BlendMode::NoBlend);
    let groups: Vec<(MeshGroupKey, Vec<Mesh<u8>>)> = consume_render_queues(&mut queues).into_values().collect();
    assert_eq!(groups.len(), 3);
    assert_eq!(groups[0].0.shader, None);
    assert_eq!(groups[1].0.shader, Some(ShaderInstanceId(0)));
    assert_eq!(groups[1].0.render_target, Some(RenderTargetId(0)));
    assert_eq!(groups[2].0.render_target, Some(RenderTargetId(3)));
}

#[test]
fn groups_are_filed_under_their_codes() {
    let state = ShaderState::new();
    let mut queues: RenderQueues<u8> = RenderQueues::new();
    queue_mesh_draw(&mut queues, &state, mesh(2, Some(TextureHandle::Raw(4)), 1), BlendMode::Additive);
    let map = consume_render_queues(&mut queues);
    let (code, (k, _)) = map.iter().next().unwrap();
    assert_eq!(*code, (2, 1, 1, 4, 0, 0, 1, 0));
    assert_eq!(k.z_index, 2);
}

#[test]
fn key_less_agrees_with_the_derived_order() {
    let textures = [
        TextureHandle::Path(3),
        TextureHandle::Path(u64::MAX),
        TextureHandle::Raw(0),
        TextureHandle::RenderTarget(RenderTargetId(2)),
    ];
    let blends = [BlendMode::NoBlend, BlendMode::Additive, BlendMode::Alpha];
    let shaders = [None, Some(ShaderInstanceId(0)), Some(ShaderInstanceId(9))];
    let targets = [None, Some(RenderTargetId(0)), Some(RenderTargetId(1))];
    let mut keys = Vec::new();
    for z in [-5, 0, 5] {
        for b in blends {
            for t in textures {
                for s in shaders {
                    for r in targets {
                        keys.push(MeshGroupKey {
                            z_index: z,
                            blend_mode: b,
                            texture_id: t,
                            shader: s,
                            render_target: r,
                        });
                    }
                }
            }
        }
    }
    for a in &keys {
        for b in keys.iter().step_by(7) {
            assert_eq!(key_less(a, b), a < b);
        }
    }
}
