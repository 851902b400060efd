use comfy_core::shaders::{
    clear_shader_uniform_table, gen_shader_id, get_current_render_target, get_current_shader,
    get_shader_instance, get_y_sort, set_uniform, set_y_sort, use_default_render_target,
    use_default_shader, use_render_target, use_shader, RenderTargetId, ShaderId, ShaderIds,
    ShaderInstanceId, ShaderState, Uniform, YSortFlags,
};

#[test]
fn shader_instances_are_copied_on_write() {
    let mut s = ShaderState::new();
    assert_eq!(get_current_shader(&s), None);
    use_shader(&mut s, ShaderId(7));
    assert_eq!(get_current_shader(&s), Some(ShaderInstanceId(0)));
    set_uniform(&mut s, "time".to_string(), Uniform::F32(1.5f32.to_bits()));
    assert_eq!(get_current_shader(&s), Some(ShaderInstanceId(1)));
    set_uniform(&mut s, "data".to_string(), Uniform::Custom(vec![1, 2]));
    let inst = get_shader_instance(&s, ShaderInstanceId(2));
    assert_eq!(inst.id, ShaderId(7));
    assert!(matches!(inst.uniforms.get(&"time".to_string()), Some(Uniform::F32(b)) if f32::from_bits(*b) == 1.5));
    assert!(matches!(inst.uniforms.get(&"data".to_string()), Some(Uniform::Custom(d)) if d == &vec![1, 2]));
    let first = get_shader_instance(&s, ShaderInstanceId(0));
    assert!(first.uniforms.get(&"time".to_string()).is_none());
    use_default_shader(&mut s);
    assert_eq!(get_current_shader(&s), None);
    clear_shader_uniform_table(&mut s);
    assert_eq!(s.table.instances.len(), 0);
}

#[test]
fn render_targets() {
    let mut s = ShaderState::new();
    assert_eq!(get_current_render_target(&s), RenderTargetId(0));
    use_render_target(&mut s, RenderTargetId(3));
    assert_eq!(get_current_render_target(&s), RenderTargetId(3));
    use_default_render_target(&mut s);
    assert_eq!(get_current_render_target(&s), RenderTargetId(0));
}

#[test]
fn shader_ids_count_up() {
    let mut ids = ShaderIds { next: u64::MAX };
    assert_eq!(gen_shader_id(&mut ids), ShaderId(u64::MAX));
    assert_eq!(gen_shader_id(&mut ids), ShaderId(0));
}

#[test]
fn y_sort_flags() {
    let mut f = YSortFlags::new();
    assert!(!get_y_sort(&f, 3));
    set_y_sort(&mut f, 3, true);
    set_y_sort(&mut f, -1, false);
    assert!(get_y_sort(&f, 3));
    assert!(!get_y_sort(&f, -1));
}
