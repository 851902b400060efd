use comfy_core::shader_map::{
    build_shader_source, create_shader, uniform_defs_to_bindings, ShaderError, ShaderMap, UniformDef,
};
use comfy_core::shaders::{ShaderId, ShaderIds};
use comfy_core::str_map::StrMap;
use comfy_core::strings::{contains_str, sort_names};

fn defs() -> StrMap<UniformDef> {
    let mut d = StrMap::new();
    d.insert("time".to_string(), UniformDef::F32(Some(0.5f32.to_bits())));
    d.insert(
        "color".to_string(),
        UniformDef::Custom { default_data: None, wgsl_decl: "vec4<f32>".to_string() },
    );
    d.insert("amount".to_string(), UniformDef::F32(None));
    d
}

#[test]
fn bindings_follow_name_order() {
    let b = uniform_defs_to_bindings(&defs());
    assert_eq!(b.get(&"amount".to_string()), Some(&0));
    assert_eq!(b.get(&"color".to_string()), Some(&1));
    assert_eq!(b.get(&"time".to_string()), Some(&2));
}

#[test]
fn shader_source_has_declarations_then_fragment() {
    let d = defs();
    let b = uniform_defs_to_bindings(&d);
    let src = build_shader_source("@fragment fn fs_main() {}", &b, &d);
    assert_eq!(
        src,
        "@group(2) @binding(0)\n            var<uniform> amount: f32;\
         @group(2) @binding(1)\n            var<uniform> color: vec4<f32>;\
         @group(2) @binding(2)\n            var<uniform> time: f32;\
         \n@fragment fn fs_main() {}"
    );
}

#[test]
fn create_shader_registers_and_rejects_taken_ids() {
    let mut shaders = ShaderMap::new();
    let mut ids = ShaderIds { next: 5 };
    let id = create_shader(&mut shaders, &mut ids, "glow", "@vertex fn vs() {}", StrMap::new()).unwrap();
    assert_eq!(id, ShaderId(5));
    assert!(shaders.has_shader(ShaderId(5)));
    let sh = shaders.get(ShaderId(5)).unwrap();
    assert_eq!(sh.name, "glow Shader");
    assert_eq!(sh.source, "\n@vertex fn vs() {}");
    ids.next = 5;
    match create_shader(&mut shaders, &mut ids, "again", "@vertex", StrMap::new()) {
        Err(ShaderError::CompileError(msg)) => assert_eq!(msg, "Shader with name 'again' already exists"),
        Ok(_) => panic!("a taken ID must be refused"),
    }
    assert_eq!(ids.next, 6);
}

#[test]
fn substring_search() {
    assert!(contains_str("abc @vertex fn", "@vertex"));
    assert!(!contains_str("@verte", "@vertex"));
    assert!(contains_str("", ""));
    assert!(contains_str("xyz", "z"));
    assert!(!contains_str("xyz", "zy"));
}

#[test]
fn names_sort_increasing() {
    let v = vec!["pear".to_string(), "apple".to_string(), "app".to_string(), "Zebra".to_string()];
    assert_eq!(sort_names(v), vec!["Zebra", "app", "apple", "pear"]);
}

#[test]
fn shaders_from_fragments() {
    let prefixes = comfy_core::shader_map::ShaderPrefixes {
        camera_bind_group: "CAM;".to_string(),
        frag_shader_prefix: "FRAG;".to_string(),
        post_processing_vertex: "POST;".to_string(),
    };
    assert_eq!(comfy_core::shader_map::sprite_shader_from_fragment(&prefixes, "body"), "CAM;FRAG;body");
    assert_eq!(comfy_core::shader_map::post_process_shader_from_fragment(&prefixes, "x"), "CAM;POST;x");
}
