use shad_env::content_hash;
use shad_env::hash::ascii_case_insensitive_eq;

#[test]
fn content_hash_of_empty_input_is_offset_basis() {
    assert_eq!(content_hash(b""), "cbf29ce484222325");
}

#[test]
fn content_hash_known_vectors() {
    assert_eq!(content_hash(b"a"), "af63dc4c8601ec8c");
    assert_eq!(content_hash(b"foobar"), "85944171f73967e8");
}

#[test]
fn content_hash_of_a_shader_source() {
    let src = "@fragment fn fs() -> @location(0) vec4<f32> { return vec4<f32>(1.0); }";
    assert_eq!(content_hash(src.as_bytes()), "1858ec769e68af31");
}

#[test]
fn content_hash_is_sixteen_lowercase_hex_digits() {
    for input in [&b""[..], b"x", b"hello world", &[0xffu8; 300][..]] {
        let h = content_hash(input);
        assert_eq!(h.len(), 16);
        assert!(h.chars().all(|c| c.is_ascii_digit() || ('a'..='f').contains(&c)));
    }
}

#[test]
fn content_hash_pads_with_leading_zeros() {
    // a digest below 2^60 still prints all sixteen digits
    for i in 0u32..2000 {
        let h = content_hash(&i.to_le_bytes());
        assert_eq!(h.len(), 16);
        assert_eq!(u64::from_str_radix(&h, 16).unwrap(), {
            let mut x: u64 = 0xcbf2_9ce4_8422_2325;
            for b in i.to_le_bytes() {
                x ^= b as u64;
                x = x.wrapping_mul(0x100_0000_01b3);
            }
            x
        });
    }
}

#[test]
fn ascii_case_insensitive_comparison() {
    assert!(ascii_case_insensitive_eq("85944171F73967E8", "85944171f73967e8"));
    assert!(ascii_case_insensitive_eq("", ""));
    assert!(!ascii_case_insensitive_eq("abc", "abd"));
    assert!(!ascii_case_insensitive_eq("abc", "abcd"));
    assert!(!ascii_case_insensitive_eq("[", "{"));
}
