use shad_env::{content_hash, ShadEnv, ShadError, UniformValue};

const SRC: &str = "@fragment fn fs() -> @location(0) vec4<f32> { return vec4<f32>(1.0); }";

fn rect(x: f32, y: f32, w: f32, h: f32) -> [u32; 4] {
    [x.to_bits(), y.to_bits(), w.to_bits(), h.to_bits()]
}

fn env_with_shader() -> ShadEnv {
    let mut env = ShadEnv::new();
    env.register_shader("ball", SRC, "", false).unwrap();
    env
}

#[test]
fn register_shader_accepts_its_own_hash() {
    let mut env = ShadEnv::new();
    let h = content_hash(SRC.as_bytes());
    assert!(env.register_shader("ball", SRC, &h, true).is_ok());
}

#[test]
fn register_shader_ignores_hash_case() {
    let mut env = ShadEnv::new();
    let h = content_hash(SRC.as_bytes()).to_ascii_uppercase();
    assert!(env.register_shader("ball", SRC, &h, true).is_ok());
}

#[test]
fn register_shader_rejects_a_wrong_hash() {
    let mut env = ShadEnv::new();
    match env.register_shader("ball", SRC, "bd6c2c9743b92532", true) {
        Err(ShadError::HashMismatch { expected, got }) => {
            assert_eq!(expected, "bd6c2c9743b92532");
            assert_eq!(got, "1858ec769e68af31");
        }
        _ => panic!("expected a hash mismatch"),
    }
    // nothing was registered
    assert!(matches!(
        env.add_shad("b", "ball", rect(0.0, 0.0, 1.0, 1.0), None),
        Err(ShadError::UnknownShader(h)) if h == "ball"
    ));
}

#[test]
fn register_shader_without_validation_ignores_the_hash() {
    let mut env = ShadEnv::new();
    assert!(env.register_shader("ball", SRC, "not a hash", false).is_ok());
    assert!(env.add_shad("b", "ball", rect(0.0, 0.0, 1.0, 1.0), None).is_ok());
}

#[test]
fn add_shad_needs_a_registered_shader() {
    let mut env = ShadEnv::new();
    assert!(matches!(
        env.add_shad("label", "text", rect(0.0, 0.0, 10.0, 10.0), None),
        Err(ShadError::UnknownShader(h)) if h == "text"
    ));
    assert!(env.get_shad_data("label").is_none());
}

#[test]
fn add_shad_defaults_to_layer_zero_and_fresh_uniforms() {
    let mut env = env_with_shader();
    env.add_shad("b", "ball", rect(10.0, 20.0, 30.0, 40.0), None).unwrap();
    let s = env.get_shad_data("b").unwrap();
    assert_eq!(s.shader, "ball");
    assert_eq!(s.z, 0.0f32.to_bits());
    assert_eq!(s.order, 0);
    assert_eq!(s.rect, rect(10.0, 20.0, 30.0, 40.0));
    assert_eq!(s.uniforms.rect, s.rect);
    assert_eq!(s.uniforms.resolution, [30.0f32.to_bits(), 40.0f32.to_bits()]);
    assert_eq!(s.uniforms.scalars, [0; 4]);
    assert_eq!(s.uniforms.vecs, [[0; 4]; 4]);
    assert_eq!(s.uniforms.time, 0);
    assert!(s.tex_handle.is_none() && s.buf_handle.is_none());
}

#[test]
fn insertion_indices_count_up() {
    let mut env = env_with_shader();
    env.add_shad("a", "ball", rect(0.0, 0.0, 1.0, 1.0), Some(1.0f32.to_bits())).unwrap();
    env.add_shad("b", "ball", rect(0.0, 0.0, 1.0, 1.0), None).unwrap();
    assert_eq!(env.get_shad_data("a").unwrap().order, 0);
    assert_eq!(env.get_shad_data("b").unwrap().order, 1);
    assert_eq!(env.get_shad_data("a").unwrap().z, 1.0f32.to_bits());
}

#[test]
fn move_shad_keeps_layer_when_none_given() {
    let mut env = env_with_shader();
    env.add_shad("b", "ball", rect(0.0, 0.0, 18.0, 18.0), Some(1.0f32.to_bits())).unwrap();
    env.move_shad("b", rect(5.0, 6.0, 18.0, 18.0), None).unwrap();
    let s = env.get_shad_data("b").unwrap();
    assert_eq!(s.rect, rect(5.0, 6.0, 18.0, 18.0));
    assert_eq!(s.z, 1.0f32.to_bits());
    // the uniform block's rect is refreshed only when a frame is prepared
    assert_eq!(s.uniforms.rect, rect(0.0, 0.0, 18.0, 18.0));
    env.move_shad("b", rect(5.0, 6.0, 18.0, 18.0), Some((-2.0f32).to_bits())).unwrap();
    assert_eq!(env.get_shad_data("b").unwrap().z, (-2.0f32).to_bits());
}

#[test]
fn move_shad_of_unknown_shad_fails() {
    let mut env = env_with_shader();
    assert!(matches!(
        env.move_shad("ghost", rect(0.0, 0.0, 1.0, 1.0), None),
        Err(ShadError::UnknownShad(h)) if h == "ghost"
    ));
}

#[test]
fn set_uniform_value_writes_named_slots() {
    let mut env = env_with_shader();
    env.add_shad("left", "ball", rect(0.0, 0.0, 1.0, 1.0), None).unwrap();
    env.set_uniform_value("left", "s0", UniformValue::Scalar(0.5f32.to_bits())).unwrap();
    env.set_uniform_value("left", "s3", UniformValue::Scalar(7.0f32.to_bits())).unwrap();
    let v = [1.0f32.to_bits(), 2.0f32.to_bits(), 3.0f32.to_bits(), 4.0f32.to_bits()];
    env.set_uniform_value("left", "v2", UniformValue::Vec4(v)).unwrap();
    let u = env.get_shad_data("left").unwrap().uniforms;
    assert_eq!(u.scalars, [0.5f32.to_bits(), 0, 0, 7.0f32.to_bits()]);
    assert_eq!(u.vecs[2], v);
    assert_eq!(u.vecs[0], [0; 4]);
}

#[test]
fn set_uniform_value_last_write_wins() {
    let mut env = env_with_shader();
    env.add_shad("d", "ball", rect(0.0, 0.0, 1.0, 1.0), None).unwrap();
    env.set_uniform_value("d", "s1", UniformValue::Scalar(3.0f32.to_bits())).unwrap();
    env.set_uniform_value("d", "s1", UniformValue::Scalar(9.0f32.to_bits())).unwrap();
    assert_eq!(env.get_shad_data("d").unwrap().uniforms.scalars[1], 9.0f32.to_bits());
}

#[test]
fn set_uniform_value_rejects_unknown_slots() {
    let mut env = env_with_shader();
    env.add_shad("d", "ball", rect(0.0, 0.0, 1.0, 1.0), None).unwrap();
    for name in ["s4", "x0", "s", "", "time", "s-1"] {
        assert!(matches!(
            env.set_uniform_value("d", name, UniformValue::Scalar(1)),
            Err(ShadError::UnknownUniform(h)) if h == name
        ));
    }
    // a vec4 slot does not take a scalar, nor a scalar slot a vec4
    assert!(matches!(
        env.set_uniform_value("d", "v0", UniformValue::Scalar(1)),
        Err(ShadError::UnknownUniform(_))
    ));
    assert!(matches!(
        env.set_uniform_value("d", "s0", UniformValue::Vec4([1; 4])),
        Err(ShadError::UnknownUniform(_))
    ));
    assert_eq!(env.get_shad_data("d").unwrap().uniforms.scalars, [0; 4]);
}

#[test]
fn set_uniform_value_takes_only_the_eight_documented_names() {
    let mut env = env_with_shader();
    env.add_shad("d", "ball", rect(0.0, 0.0, 1.0, 1.0), None).unwrap();
    for name in ["s01", "s+2", "v003", "v+0", "s00", " s0", "s0 ", "S0", "V1"] {
        let value = if name.trim().to_ascii_lowercase().starts_with('v') {
            UniformValue::Vec4([1; 4])
        } else {
            UniformValue::Scalar(1)
        };
        assert!(
            matches!(env.set_uniform_value("d", name, value), Err(ShadError::UnknownUniform(h)) if h == name),
            "{name}"
        );
    }
    for i in 0..4 {
        env.set_uniform_value("d", &format!("s{i}"), UniformValue::Scalar(i + 1)).unwrap();
        env.set_uniform_value("d", &format!("v{i}"), UniformValue::Vec4([i; 4])).unwrap();
    }
    let u = env.get_shad_data("d").unwrap().uniforms;
    assert_eq!(u.scalars, [1, 2, 3, 4]);
    assert_eq!(u.vecs, [[0; 4], [1; 4], [2; 4], [3; 4]]);
}

#[test]
fn set_uniform_value_checks_the_shad_first() {
    let mut env = env_with_shader();
    assert!(matches!(
        env.set_uniform_value("nobody", "nonsense", UniformValue::Scalar(1)),
        Err(ShadError::UnknownShad(h)) if h == "nobody"
    ));
}

#[test]
fn set_texture_checks_texture_then_shad() {
    let mut env = env_with_shader();
    assert!(matches!(env.set_texture("label", "ascii"), Err(ShadError::UnknownTexture(h)) if h == "ascii"));
    env.register_texture("ascii", &[255u8; 16], 2, 2).unwrap();
    assert!(matches!(env.set_texture("label", "ascii"), Err(ShadError::UnknownShad(h)) if h == "label"));
    env.add_shad("label", "ball", rect(0.0, 0.0, 1.0, 1.0), None).unwrap();
    env.set_texture("label", "ascii").unwrap();
    assert_eq!(env.get_shad_data("label").unwrap().tex_handle.as_deref(), Some("ascii"));
}

#[test]
fn set_buffer_checks_buffer_then_shad() {
    let mut env = env_with_shader();
    assert!(matches!(env.set_buffer("label", "msg"), Err(ShadError::UnknownBuffer(h)) if h == "msg"));
    env.register_buffer("msg", &[72, 0, 0, 0]).unwrap();
    assert!(matches!(env.set_buffer("label", "msg"), Err(ShadError::UnknownShad(h)) if h == "label"));
    env.add_shad("label", "ball", rect(0.0, 0.0, 1.0, 1.0), None).unwrap();
    env.set_buffer("label", "msg").unwrap();
    assert_eq!(env.get_shad_data("label").unwrap().buf_handle.as_deref(), Some("msg"));
}

#[test]
fn re_adding_a_shad_resets_it() {
    let mut env = env_with_shader();
    env.register_texture("t", &[0u8; 4], 1, 1).unwrap();
    env.add_shad("a", "ball", rect(0.0, 0.0, 1.0, 1.0), Some(3.0f32.to_bits())).unwrap();
    env.add_shad("b", "ball", rect(0.0, 0.0, 1.0, 1.0), None).unwrap();
    env.set_texture("a", "t").unwrap();
    env.set_uniform_value("a", "s0", UniformValue::Scalar(1)).unwrap();
    env.add_shad("a", "ball", rect(1.0, 1.0, 2.0, 2.0), None).unwrap();
    let s = env.get_shad_data("a").unwrap();
    assert_eq!(s.order, 2);
    assert_eq!(s.z, 0);
    assert!(s.tex_handle.is_none());
    assert_eq!(s.uniforms.scalars, [0; 4]);
    assert_eq!(env.draw_order(), vec!["b".to_string(), "a".to_string()]);
}

#[test]
fn draw_order_is_layer_then_insertion() {
    let mut env = env_with_shader();
    env.add_shad("ball", "ball", rect(0.0, 0.0, 18.0, 18.0), Some(1.0f32.to_bits())).unwrap();
    env.add_shad("left", "ball", rect(24.0, 0.0, 38.0, 500.0), None).unwrap();
    env.add_shad("right", "ball", rect(762.0, 0.0, 14.0, 500.0), None).unwrap();
    env.add_shad("back", "ball", rect(0.0, 0.0, 800.0, 500.0), Some((-1.0f32).to_bits())).unwrap();
    env.add_shad("score", "ball", rect(175.0, 20.0, 50.0, 70.0), None).unwrap();
    assert_eq!(env.draw_order(), vec!["back", "left", "right", "score", "ball"]);
}

#[test]
fn draw_order_treats_negative_zero_as_zero() {
    let mut env = env_with_shader();
    env.add_shad("a", "ball", rect(0.0, 0.0, 1.0, 1.0), Some((-0.0f32).to_bits())).unwrap();
    env.add_shad("b", "ball", rect(0.0, 0.0, 1.0, 1.0), Some(0.0f32.to_bits())).unwrap();
    env.add_shad("c", "ball", rect(0.0, 0.0, 1.0, 1.0), Some((-1.0e-30f32).to_bits())).unwrap();
    env.add_shad("d", "ball", rect(0.0, 0.0, 1.0, 1.0), Some(f32::INFINITY.to_bits())).unwrap();
    env.add_shad("e", "ball", rect(0.0, 0.0, 1.0, 1.0), Some(f32::NEG_INFINITY.to_bits())).unwrap();
    assert_eq!(env.draw_order(), vec!["e", "c", "a", "b", "d"]);
}

#[test]
fn draw_order_with_a_nan_layer_still_lists_every_shad_once() {
    let mut env = env_with_shader();
    env.add_shad("a", "ball", rect(0.0, 0.0, 1.0, 1.0), Some(2.0f32.to_bits())).unwrap();
    env.add_shad("b", "ball", rect(0.0, 0.0, 1.0, 1.0), Some(f32::NAN.to_bits())).unwrap();
    env.add_shad("c", "ball", rect(0.0, 0.0, 1.0, 1.0), Some(1.0f32.to_bits())).unwrap();
    let mut order = env.draw_order();
    order.sort();
    assert_eq!(order, vec!["a", "b", "c"]);
}

#[test]
fn render_to_refreshes_builtins() {
    let mut env = env_with_shader();
    env.add_shad("b", "ball", rect(0.0, 0.0, 18.0, 18.0), None).unwrap();
    env.set_uniform_value("b", "s0", UniformValue::Scalar(4)).unwrap();
    env.move_shad("b", rect(100.0, 50.0, 18.0, 20.0), None).unwrap();
    env.render_to(1.25f32.to_bits());
    assert_eq!(env.draw_order(), vec!["b"]);
    let u = env.get_shad_data("b").unwrap().uniforms;
    assert_eq!(u.rect, rect(100.0, 50.0, 18.0, 20.0));
    assert_eq!(u.resolution, [18.0f32.to_bits(), 20.0f32.to_bits()]);
    assert_eq!(u.time, 1.25f32.to_bits());
    assert_eq!(u.scalars, [4, 0, 0, 0]);
}

#[test]
fn uniform_bytes_follow_the_block_layout() {
    let mut env = env_with_shader();
    env.add_shad("b", "ball", rect(1.0, 2.0, 3.0, 4.0), None).unwrap();
    env.set_uniform_value("b", "s1", UniformValue::Scalar(0xdead_beef)).unwrap();
    env.set_uniform_value("b", "v3", UniformValue::Vec4([11, 12, 13, 14])).unwrap();
    env.render_to(0x4000_0000);
    let bytes = env.uniform_bytes("b").unwrap();
    assert_eq!(bytes.len(), 128);
    let words: Vec<u32> = bytes.chunks(4).map(|c| u32::from_ne_bytes([c[0], c[1], c[2], c[3]])).collect();
    assert_eq!(&words[0..4], &rect(1.0, 2.0, 3.0, 4.0));
    assert_eq!(&words[4..6], &[3.0f32.to_bits(), 4.0f32.to_bits()]);
    assert_eq!(&words[6..8], &[0, 0]);
    assert_eq!(words[8], 0x4000_0000);
    assert_eq!(&words[9..12], &[0, 0, 0]);
    assert_eq!(&words[12..16], &[0, 0xdead_beef, 0, 0]);
    assert_eq!(&words[28..32], &[11, 12, 13, 14]);
    assert!(env.uniform_bytes("nobody").is_none());
}

#[test]
fn failed_commands_change_nothing() {
    let mut env = env_with_shader();
    env.add_shad("b", "ball", rect(0.0, 0.0, 1.0, 1.0), None).unwrap();
    assert!(env.set_texture("b", "missing").is_err());
    assert!(env.set_buffer("b", "missing").is_err());
    assert!(env.set_uniform_value("b", "s9", UniformValue::Scalar(1)).is_err());
    assert!(env.add_shad("c", "missing", rect(0.0, 0.0, 1.0, 1.0), None).is_err());
    let s = env.get_shad_data("b").unwrap();
    assert!(s.tex_handle.is_none() && s.buf_handle.is_none());
    assert_eq!(s.uniforms.scalars, [0; 4]);
    assert_eq!(env.draw_order(), vec!["b"]);
}
