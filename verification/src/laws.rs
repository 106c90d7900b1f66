use vstd::prelude::*;
use vstd::utf8::encode_utf8;
use crate::hash::{ascii_case_eq, fnv1a, hex_char, hex_digits, mul_mod64, spec_content_hash};
use crate::scene::{
    draws_before, env_inv, hash_matches, slot_accepts, slot_written, uniform_words, z_key, EnvView, ShadView,
    UniformValue, Uniforms,
};

verus! {

/// A shader whose expected hash is its own content hash always validates.
pub proof fn law_own_hash_validates(source: Seq<u8>)
    ensures
        hash_matches(source, encode_utf8(spec_content_hash(source))),
{
}

/// Hash validation ignores ASCII case: two expected hashes that differ only in
/// the case of their letters are accepted for exactly the same sources.
pub proof fn law_hash_check_ignores_case(source: Seq<u8>, h1: Seq<u8>, h2: Seq<u8>)
    requires
        ascii_case_eq(h1, h2),
    ensures
        hash_matches(source, h1) == hash_matches(source, h2),
{
    let g = encode_utf8(spec_content_hash(source));
    if hash_matches(source, h1) {
        assert forall|i: int| 0 <= i < g.len() implies crate::hash::ascii_lower(#[trigger] g[i])
            == crate::hash::ascii_lower(h2[i]) by {
            assert(crate::hash::ascii_lower(h1[i]) == crate::hash::ascii_lower(h2[i]));
        }
    }
    if hash_matches(source, h2) {
        assert forall|i: int| 0 <= i < g.len() implies crate::hash::ascii_lower(#[trigger] g[i])
            == crate::hash::ascii_lower(h1[i]) by {
            assert(crate::hash::ascii_lower(h1[i]) == crate::hash::ascii_lower(h2[i]));
        }
    }
}

/// Every character of a content hash is a lowercase hexadecimal digit.
pub proof fn law_content_hash_alphabet(bytes: Seq<u8>)
    ensures
        forall|i: int| 0 <= i < spec_content_hash(bytes).len() ==> exists|d: nat|
            d < 16 && #[trigger] spec_content_hash(bytes)[i] == hex_char(d),
{
    lemma_hex_digits_alphabet(crate::hash::fnv1a(bytes) as nat, 16);
}

proof fn lemma_hex_digits_alphabet(x: nat, n: nat)
    ensures
        forall|i: int| 0 <= i < hex_digits(x, n).len() ==> exists|d: nat|
            d < 16 && #[trigger] hex_digits(x, n)[i] == hex_char(d),
    decreases n,
{
    if n > 0 {
        lemma_hex_digits_alphabet(x / 16, (n - 1) as nat);
        let s = hex_digits(x, n);
        assert forall|i: int| 0 <= i < s.len() implies exists|d: nat|
            d < 16 && #[trigger] s[i] == hex_char(d) by {
            if i == s.len() - 1 {
                assert(s[i] == hex_char(x % 16));
            } else {
                assert(s[i] == hex_digits(x / 16, (n - 1) as nat)[i]);
            }
        }
    }
}

/// Writing the same user slot twice leaves the second value: the block after
/// both accepted writes is the first block with only the second write applied.
pub proof fn law_last_slot_write_wins(
    u: Uniforms,
    w1: Uniforms,
    w2: Uniforms,
    name: Seq<char>,
    v1: UniformValue,
    v2: UniformValue,
)
    requires
        slot_accepts(name, v1),
        slot_accepts(name, v2),
        slot_written(u, w1, name, v1),
        slot_written(w1, w2, name, v2),
    ensures
        slot_written(u, w2, name, v2),
{
    let i = crate::slot::spec_user_slot(name).unwrap().1 as int;
    match (v1, v2) {
        (UniformValue::Scalar(_), UniformValue::Scalar(x)) => {
            assert(w2.scalars@ =~= u.scalars@.update(i, x));
        },
        (UniformValue::Vec4(_), UniformValue::Vec4(x)) => {
            assert(w2.vecs@ =~= u.vecs@.update(i, x));
        },
        _ => {},
    }
}

/// The uniform block is 32 words: rect at 0..4, resolution at 4..6, mouse at
/// 6..8, time at 8, padding at 9..12, scalar slots at 12..16, and vec4 slot
/// `i` at 16 + 4i .. 20 + 4i.
pub proof fn law_uniform_layout(u: Uniforms)
    ensures
        uniform_words(u).len() == 32,
        forall|i: int| 0 <= i < 4 ==> #[trigger] uniform_words(u)[i] == u.rect[i],
        uniform_words(u)[4] == u.resolution[0],
        uniform_words(u)[5] == u.resolution[1],
        uniform_words(u)[6] == u.mouse[0],
        uniform_words(u)[7] == u.mouse[1],
        uniform_words(u)[8] == u.time,
        uniform_words(u)[9] == 0 && uniform_words(u)[10] == 0 && uniform_words(u)[11] == 0,
        forall|i: int| 0 <= i < 4 ==> #[trigger] uniform_words(u)[12 + i] == u.scalars[i],
        forall|i: int, j: int|
            0 <= i < 4 && 0 <= j < 4 ==> #[trigger] uniform_words(u)[16 + 4 * i + j] == u.vecs[i][j],
{
    let w = uniform_words(u);
    assert forall|i: int, j: int| 0 <= i < 4 && 0 <= j < 4 implies #[trigger] w[16 + 4 * i + j] == u.vecs[i][j] by {
        if i == 0 {
            assert(w[16 + j] == u.vecs[0][j]);
        } else if i == 1 {
            assert(w[20 + j] == u.vecs[1][j]);
        } else if i == 2 {
            assert(w[24 + j] == u.vecs[2][j]);
        } else {
            assert(w[28 + j] == u.vecs[3][j]);
        }
    }
}

/// On one layer, or when either layer is NaN, the shad added earlier draws
/// first, so the later one ends up on top.
pub proof fn law_later_added_draws_on_top(a: crate::scene::ShadView, b: crate::scene::ShadView)
    requires
        a.order < b.order,
        z_key(a.z) == z_key(b.z) || z_key(a.z) is None || z_key(b.z) is None,
    ensures
        draws_before(a, b),
        !draws_before(b, a),
{
}

/// Painter's order is a strict order: never both ways, and transitive while
/// no layer is NaN.
pub proof fn law_draw_order_strict(a: crate::scene::ShadView, b: crate::scene::ShadView, c: crate::scene::ShadView)
    ensures
        !(draws_before(a, b) && draws_before(b, a)),
        z_key(a.z) is Some && z_key(b.z) is Some && z_key(c.z) is Some && draws_before(a, b)
            && draws_before(b, c) ==> draws_before(a, c),
{
}

/// Placing a shad with `add_shad` puts it on top of every shad already on its
/// layer.
pub proof fn law_added_shad_on_top(
    v: EnvView,
    h: Seq<char>,
    shader: Seq<char>,
    rect: [u32; 4],
    z: Option<u32>,
    k: Seq<char>,
)
    requires
        env_inv(v),
        v.shaders.contains(shader),
        v.next_order < u64::MAX,
        v.shads.contains_key(k),
        k != h,
        z_key(v.shads[k].z) == z_key(v.new_shad(shader, rect, z).z),
    ensures
        draws_before(
            v.placed(h, shader, rect, z).shads[k],
            v.placed(h, shader, rect, z).shads[h],
        ),
{
}

/// The draw order is determined: while no layer is NaN, two lists that each
/// name every placed shad once in painter's order are the same list.
pub proof fn law_draw_order_unique(v: EnvView, s1: Seq<Seq<char>>, s2: Seq<Seq<char>>)
    requires
        env_inv(v),
        v.layers_ordered(),
        v.is_draw_order(s1),
        v.is_draw_order(s2),
    ensures
        s1 == s2,
{
    assert forall|i: int| 0 <= i < s1.len() && 0 <= i < s2.len() implies s1[i] == s2[i] by {
        lemma_draw_orders_agree_at(v, s1, s2, i);
    }
    if s1.len() > s2.len() {
        let n = s2.len() as int;
        assert(v.shads.contains_key(s1[n]));
        let j = choose|j: int| 0 <= j < s2.len() && #[trigger] s2[j] == s1[n];
        lemma_draw_orders_agree_at(v, s1, s2, j);
        assert(s1[j] == s1[n]);
    } else if s2.len() > s1.len() {
        let n = s1.len() as int;
        assert(v.shads.contains_key(s2[n]));
        let j = choose|j: int| 0 <= j < s1.len() && #[trigger] s1[j] == s2[n];
        lemma_draw_orders_agree_at(v, s1, s2, j);
        assert(s2[j] == s2[n]);
    }
    assert(s1 =~= s2);
}

proof fn lemma_draw_orders_agree_at(v: EnvView, s1: Seq<Seq<char>>, s2: Seq<Seq<char>>, i: int)
    requires
        env_inv(v),
        v.layers_ordered(),
        v.is_draw_order(s1),
        v.is_draw_order(s2),
        0 <= i < s1.len(),
        0 <= i < s2.len(),
    ensures
        s1[i] == s2[i],
    decreases i,
{
    if s1[i] != s2[i] {
        assert forall|m: int| 0 <= m < i implies s1[m] == s2[m] by {
            lemma_draw_orders_agree_at(v, s1, s2, m);
        }
        let a = s1[i];
        let b = s2[i];
        assert(v.shads.contains_key(a) && v.shads.contains_key(b));
        let j = choose|j: int| 0 <= j < s2.len() && #[trigger] s2[j] == a;
        let j2 = choose|j2: int| 0 <= j2 < s1.len() && #[trigger] s1[j2] == b;
        if j < i {
            assert(s1[j] == a);
        }
        if j2 < i {
            assert(s2[j2] == b);
        }
        assert(j > i && j2 > i);
        assert(draws_before(v.shads[s2[i]], v.shads[s2[j]]));
        assert(draws_before(v.shads[s1[i]], v.shads[s1[j2]]));
    }
}

/// The content hash starts from the FNV-1a 64-bit offset basis on no input.
pub proof fn law_hash_of_nothing()
    ensures
        fnv1a(Seq::<u8>::empty()) == 0xcbf2_9ce4_8422_2325u64,
{
}

/// The content hash folds in every byte, at any length: appending byte `b`
/// xors it into the hash so far and multiplies by the FNV-1a 64-bit prime,
/// modulo 2^64.
pub proof fn law_hash_folds_every_byte(s: Seq<u8>, b: u8)
    ensures
        fnv1a(s.push(b)) == mul_mod64(fnv1a(s) ^ (b as u64), 0x0000_0100_0000_01b3u64),
{
    assert(s.push(b).drop_last() =~= s);
}

/// Of two shads whose layers are not NaN, the one on the strictly lower layer
/// draws first, whatever the order they were added in.
pub proof fn law_lower_layer_draws_first(a: ShadView, b: ShadView)
    requires
        z_key(a.z) is Some,
        z_key(b.z) is Some,
        z_key(a.z).unwrap() < z_key(b.z).unwrap(),
    ensures
        draws_before(a, b),
        !draws_before(b, a),
{
}

/// Layers compare as `f32` values, read from their bit patterns: among
/// non-negative layers a larger pattern is a higher layer, among negative
/// ones a larger pattern is a lower layer, and every negative layer other
/// than -0.0 is below every non-negative one (NaN patterns excluded).
pub proof fn law_layer_bits_order(a: ShadView, b: ShadView)
    ensures
        a.z < b.z <= 0x7f80_0000 ==> z_key(a.z).unwrap() < z_key(b.z).unwrap() && draws_before(a, b),
        0x8000_0000 <= b.z < a.z <= 0xff80_0000 ==> z_key(a.z).unwrap() < z_key(b.z).unwrap() && draws_before(
            a,
            b,
        ),
        0x8000_0000 < a.z <= 0xff80_0000 && b.z <= 0x7f80_0000 ==> z_key(a.z).unwrap() < z_key(b.z).unwrap()
            && draws_before(a, b),
        (a.z == 0 || a.z == 0x8000_0000) && (b.z == 0 || b.z == 0x8000_0000) ==> (draws_before(a, b) <==> a.order
            < b.order),
        a.z == b.z ==> (draws_before(a, b) <==> a.order < b.order),
{
}

/// In a draw order with no NaN layer, a shad on a strictly lower layer comes
/// before one on a higher layer.
pub proof fn law_draw_order_by_layer(v: EnvView, out: Seq<Seq<char>>, i: int, j: int)
    requires
        v.layers_ordered(),
        v.is_draw_order(out),
        0 <= i < out.len(),
        0 <= j < out.len(),
        z_key(v.shads[out[i]].z).unwrap() < z_key(v.shads[out[j]].z).unwrap(),
    ensures
        i < j,
{
    let a = v.shads[out[i]];
    let b = v.shads[out[j]];
    assert(v.shads.contains_key(out[i]) && v.shads.contains_key(out[j]));
    assert(z_key(a.z) is Some && z_key(b.z) is Some);
    law_lower_layer_draws_first(a, b);
    if j < i {
        assert(draws_before(v.shads[out[j]], v.shads[out[i]]));
    }
}

/// Binding a texture changes only that shad's texture binding: its buffer
/// binding, shader, rect, layer, insertion index and uniforms stay, and so
/// does everything else in the environment.
pub proof fn law_texture_binding_keeps_rest(v: EnvView, h: Seq<char>, t: Seq<char>)
    requires
        v.shads.contains_key(h),
    ensures
        v.same_but_shad(v.texture_bound(h, t), h),
        v.texture_bound(h, t).shads[h].tex_handle == Some(t),
        v.texture_bound(h, t).shads[h].buf_handle == v.shads[h].buf_handle,
        v.texture_bound(h, t).shads[h].shader == v.shads[h].shader,
        v.texture_bound(h, t).shads[h].rect == v.shads[h].rect,
        v.texture_bound(h, t).shads[h].z == v.shads[h].z,
        v.texture_bound(h, t).shads[h].order == v.shads[h].order,
        v.texture_bound(h, t).shads[h].uniforms == v.shads[h].uniforms,
{
    assert(v.texture_bound(h, t).shads.dom() =~= v.shads.dom());
}

/// Binding a buffer changes only that shad's buffer binding: a texture bound
/// beside it stays, as do its shader, rect, layer, insertion index and
/// uniforms, and everything else in the environment.
pub proof fn law_buffer_binding_keeps_rest(v: EnvView, h: Seq<char>, b: Seq<char>)
    requires
        v.shads.contains_key(h),
    ensures
        v.same_but_shad(v.buffer_bound(h, b), h),
        v.buffer_bound(h, b).shads[h].buf_handle == Some(b),
        v.buffer_bound(h, b).shads[h].tex_handle == v.shads[h].tex_handle,
        v.buffer_bound(h, b).shads[h].shader == v.shads[h].shader,
        v.buffer_bound(h, b).shads[h].rect == v.shads[h].rect,
        v.buffer_bound(h, b).shads[h].z == v.shads[h].z,
        v.buffer_bound(h, b).shads[h].order == v.shads[h].order,
        v.buffer_bound(h, b).shads[h].uniforms == v.shads[h].uniforms,
{
    assert(v.buffer_bound(h, b).shads.dom() =~= v.shads.dom());
}

/// Moving a shad sets its rect, and its layer when one is given; its
/// bindings, shader, insertion index and uniforms stay, and so does
/// everything else in the environment.
pub proof fn law_move_keeps_rest(v: EnvView, h: Seq<char>, rect: [u32; 4], z: Option<u32>)
    requires
        v.shads.contains_key(h),
    ensures
        v.same_but_shad(v.moved(h, rect, z), h),
        v.moved(h, rect, z).shads[h].rect == rect,
        z matches Some(l) ==> v.moved(h, rect, z).shads[h].z == l,
        z is None ==> v.moved(h, rect, z).shads[h].z == v.shads[h].z,
        v.moved(h, rect, z).shads[h].tex_handle == v.shads[h].tex_handle,
        v.moved(h, rect, z).shads[h].buf_handle == v.shads[h].buf_handle,
        v.moved(h, rect, z).shads[h].shader == v.shads[h].shader,
        v.moved(h, rect, z).shads[h].order == v.shads[h].order,
        v.moved(h, rect, z).shads[h].uniforms == v.shads[h].uniforms,
{
    assert(v.moved(h, rect, z).shads.dom() =~= v.shads.dom());
}

/// Preparing a frame at time `t` refreshes every placed shad, whatever its
/// layer: its uniform rect becomes its rect, its resolution the rect's size,
/// its time `t`; the mouse and user slots stay, as do the shad's other fields
/// and the rest of the environment.
pub proof fn law_frame_refreshes_every_shad(v: EnvView, t: u32)
    ensures
        v.refreshed_at(t).shaders == v.shaders,
        v.refreshed_at(t).textures == v.textures,
        v.refreshed_at(t).buffers == v.buffers,
        v.refreshed_at(t).next_order == v.next_order,
        v.refreshed_at(t).shads.dom() == v.shads.dom(),
        forall|k: Seq<char>| #[trigger] v.shads.contains_key(k) ==> {
            let s = v.shads[k];
            let w = v.refreshed_at(t).shads[k];
            &&& w.uniforms.rect == s.rect
            &&& w.uniforms.resolution == [s.rect[2], s.rect[3]]
            &&& w.uniforms.time == t
            &&& w.uniforms.mouse == s.uniforms.mouse
            &&& w.uniforms.scalars == s.uniforms.scalars
            &&& w.uniforms.vecs == s.uniforms.vecs
            &&& w.shader == s.shader
            &&& w.rect == s.rect
            &&& w.z == s.z
            &&& w.order == s.order
            &&& w.tex_handle == s.tex_handle
            &&& w.buf_handle == s.buf_handle
        },
{
    assert(v.refreshed_at(t).shads.dom() =~= v.shads.dom());
}

/// `c` is a lowercase hexadecimal digit: `0`-`9` or `a`-`f`.
pub open spec fn is_lower_hex(c: char) -> bool {
    ('0' <= c && c <= '9') || ('a' <= c && c <= 'f')
}

/// The value of a lowercase hexadecimal digit.
pub open spec fn hex_digit_value(c: char) -> nat {
    if '0' <= c && c <= '9' {
        (c as u32 - 48) as nat
    } else {
        (c as u32 - 87) as nat
    }
}

/// The number that a string of hexadecimal digits writes, most significant
/// digit first.
pub open spec fn hex_value(s: Seq<char>) -> nat
    decreases s.len(),
{
    if s.len() == 0 {
        0
    } else {
        hex_value(s.drop_last()) * 16 + hex_digit_value(s.last())
    }
}

/// 16 to the power `n`.
pub open spec fn pow16(n: nat) -> nat
    decreases n,
{
    if n == 0 {
        1
    } else {
        16 * pow16((n - 1) as nat)
    }
}

/// A content hash reads back as the FNV-1a digest it writes: sixteen
/// lowercase hexadecimal digits whose value, most significant first, is the
/// digest.
pub proof fn law_content_hash_reads_back(bytes: Seq<u8>)
    ensures
        spec_content_hash(bytes).len() == 16,
        forall|i: int| 0 <= i < 16 ==> is_lower_hex(#[trigger] spec_content_hash(bytes)[i]),
        hex_value(spec_content_hash(bytes)) == fnv1a(bytes),
{
    let x = fnv1a(bytes) as nat;
    lemma_hex_digits_value(x, 16);
    crate::hash::lemma_hex_digits_len(x, 16);
    reveal_with_fuel(pow16, 17);
    assert(pow16(16) == 0x1_0000_0000_0000_0000nat);
    vstd::arithmetic::div_mod::lemma_small_mod(x, pow16(16));
}

proof fn lemma_hex_char_digit(d: nat)
    requires
        d < 16,
    ensures
        is_lower_hex(hex_char(d)),
        hex_digit_value(hex_char(d)) == d,
{
    let t = seq!['0', '1', '2', '3', '4', '5', '6', '7', '8', '9', 'a', 'b', 'c', 'd', 'e', 'f'];
    assert(hex_char(d) == t[d as int]);
}

proof fn lemma_hex_digits_value(x: nat, n: nat)
    ensures
        forall|i: int| 0 <= i < hex_digits(x, n).len() ==> is_lower_hex(#[trigger] hex_digits(x, n)[i]),
        hex_value(hex_digits(x, n)) == x % pow16(n),
    decreases n,
{
    if n == 0 {
        assert(x % 1 == 0);
    } else {
        let m = (n - 1) as nat;
        lemma_hex_digits_value(x / 16, m);
        lemma_hex_char_digit(x % 16);
        let s = hex_digits(x, n);
        assert(s.drop_last() =~= hex_digits(x / 16, m));
        assert forall|i: int| 0 <= i < s.len() implies is_lower_hex(#[trigger] s[i]) by {
            if i < s.len() - 1 {
                assert(s[i] == hex_digits(x / 16, m)[i]);
            }
        }
        assert(pow16(m) > 0) by {
            lemma_pow16_pos(m);
        }
        vstd::arithmetic::div_mod::lemma_mod_breakdown(x as int, 16, pow16(m) as int);
        assert(hex_value(s) == (x / 16) % pow16(m) * 16 + x % 16);
        assert(x % pow16(n) == 16 * ((x / 16) % pow16(m)) + x % 16);
    }
}

proof fn lemma_pow16_pos(n: nat)
    ensures
        pow16(n) > 0,
    decreases n,
{
    if n > 0 {
        lemma_pow16_pos((n - 1) as nat);
    }
}

/// Placing a shad puts, under its handle, a shad that runs the given shader
/// at the given rect, on the given layer or 0.0, with the next insertion index,
/// no bindings and a uniform block holding its rect and size with all else
/// zero; the insertion counter moves on by one and nothing else changes.
pub proof fn law_placing_a_shad(v: EnvView, h: Seq<char>, shader: Seq<char>, rect: [u32; 4], z: Option<u32>)
    requires
        v.next_order < u64::MAX,
    ensures
        v.placed(h, shader, rect, z).shaders == v.shaders,
        v.placed(h, shader, rect, z).textures == v.textures,
        v.placed(h, shader, rect, z).buffers == v.buffers,
        v.placed(h, shader, rect, z).next_order == v.next_order + 1,
        v.placed(h, shader, rect, z).shads.dom() == v.shads.dom().insert(h),
        forall|k: Seq<char>| #[trigger] v.shads.contains_key(k) && k != h ==> v.placed(h, shader, rect, z).shads[k]
            == v.shads[k],
        ({
            let s = v.placed(h, shader, rect, z).shads[h];
            &&& s.shader == shader
            &&& s.rect == rect
            &&& s.z == match z {
                Some(l) => l,
                None => 0u32,
            }
            &&& s.order == v.next_order
            &&& s.tex_handle is None
            &&& s.buf_handle is None
            &&& s.uniforms.rect == rect
            &&& s.uniforms.resolution == [rect[2], rect[3]]
            &&& s.uniforms.mouse == [0u32, 0u32]
            &&& s.uniforms.time == 0
            &&& s.uniforms.scalars == [0u32, 0u32, 0u32, 0u32]
            &&& forall|i: int| 0 <= i < 4 ==> #[trigger] s.uniforms.vecs[i] == [0u32, 0u32, 0u32, 0u32]
        }),
{
    assert(v.placed(h, shader, rect, z).shads.dom() =~= v.shads.dom().insert(h));
}

/// The user slots are the names `s0`-`s3` (scalars) and `v0`-`v3` (vec4s),
/// the kind being the first character and the index the digit; every slot
/// name has two characters, a kind `s` or `v`, and an index below 4.
pub proof fn law_user_slot_names(name: Seq<char>)
    ensures
        crate::slot::spec_user_slot(seq!['s', '0']) == Some(('s', 0usize)),
        crate::slot::spec_user_slot(seq!['s', '1']) == Some(('s', 1usize)),
        crate::slot::spec_user_slot(seq!['s', '2']) == Some(('s', 2usize)),
        crate::slot::spec_user_slot(seq!['s', '3']) == Some(('s', 3usize)),
        crate::slot::spec_user_slot(seq!['v', '0']) == Some(('v', 0usize)),
        crate::slot::spec_user_slot(seq!['v', '1']) == Some(('v', 1usize)),
        crate::slot::spec_user_slot(seq!['v', '2']) == Some(('v', 2usize)),
        crate::slot::spec_user_slot(seq!['v', '3']) == Some(('v', 3usize)),
        crate::slot::spec_user_slot(name) matches Some((kind, i)) ==> {
            &&& name.len() == 2
            &&& kind == name[0]
            &&& (kind == 's' || kind == 'v')
            &&& i < 4
            &&& i == name[1] as u32 - 48
        },
{
}

/// Readback reorders each BGRA pixel to RGBA: red is the source pixel's
/// third byte, green its second, blue its first and alpha its fourth, where
/// the source pixel `p` of row `r` starts `r * padded + 4 * p` bytes in and
/// the packed one `4 * (r * w + p)` bytes in.
pub proof fn law_readback_channels(w: int, padded: int, r: int, p: int)
    ensures
        crate::readback::padded_index(padded, r, p, crate::readback::swizzle(0)) == r * padded + 4 * p + 2,
        crate::readback::padded_index(padded, r, p, crate::readback::swizzle(1)) == r * padded + 4 * p + 1,
        crate::readback::padded_index(padded, r, p, crate::readback::swizzle(2)) == r * padded + 4 * p,
        crate::readback::padded_index(padded, r, p, crate::readback::swizzle(3)) == r * padded + 4 * p + 3,
        forall|c: int| 0 <= c < 4 ==> #[trigger] crate::readback::packed_index(w, r, p, c) == 4 * (r * w + p) + c,
{
}

/// The headless flag is the twelve characters `--screenshot`.
pub proof fn law_screenshot_flag_text()
    ensures
        crate::cli::screenshot_flag() == seq!['-', '-', 's', 'c', 'r', 'e', 'e', 'n', 's', 'h', 'o', 't'],
{
    reveal_strlit("--screenshot");
    assert(crate::cli::screenshot_flag() =~= seq!['-', '-', 's', 'c', 'r', 'e', 'e', 'n', 's', 'h', 'o', 't']);
}

/// Validation accepts the content hash with any of its letters written in
/// upper case.
pub proof fn law_hash_check_accepts_upper_case(source: Seq<u8>, hash: Seq<u8>)
    requires
        hash.len() == encode_utf8(spec_content_hash(source)).len(),
        forall|i: int|
            0 <= i < hash.len() ==> {
                let g = #[trigger] encode_utf8(spec_content_hash(source))[i];
                hash[i] == g || (97 <= g <= 122 && hash[i] == g - 32)
            },
    ensures
        hash_matches(source, hash),
{
    let g = encode_utf8(spec_content_hash(source));
    assert forall|i: int| 0 <= i < g.len() implies crate::hash::ascii_lower(#[trigger] g[i])
        == crate::hash::ascii_lower(hash[i]) by {
        assert(hash[i] == g[i] || (97 <= g[i] <= 122 && hash[i] == g[i] - 32));
    }
}

/// An accepted write of slot `s<d>` or `v<d>` stores the value at index `d`
/// of the scalars or vec4s and changes no other word of the block.
pub proof fn law_slot_write_sets_that_slot(u: Uniforms, w: Uniforms, name: Seq<char>, value: UniformValue)
    requires
        slot_accepts(name, value),
        slot_written(u, w, name, value),
    ensures
        name.len() == 2,
        w.rect == u.rect && w.resolution == u.resolution && w.mouse == u.mouse && w.time == u.time,
        ({
            let d = name[1] as u32 - 48;
            &&& 0 <= d < 4
            &&& match value {
                UniformValue::Scalar(x) => {
                    &&& name[0] == 's'
                    &&& w.scalars[d] == x
                    &&& forall|j: int| 0 <= j < 4 && j != d ==> #[trigger] w.scalars[j] == u.scalars[j]
                    &&& w.vecs == u.vecs
                },
                UniformValue::Vec4(v) => {
                    &&& name[0] == 'v'
                    &&& w.vecs[d] == v
                    &&& forall|j: int| 0 <= j < 4 && j != d ==> #[trigger] w.vecs[j] == u.vecs[j]
                    &&& w.scalars == u.scalars
                },
            }
        }),
{
    let d = name[1] as u32 - 48;
    match value {
        UniformValue::Scalar(x) => {
            assert(w.scalars@[d] == x);
            assert forall|j: int| 0 <= j < 4 && j != d implies #[trigger] w.scalars[j] == u.scalars[j] by {
                assert(w.scalars@[j] == u.scalars@[j]);
            }
        },
        UniformValue::Vec4(v) => {
            assert(w.vecs@[d] == v);
            assert forall|j: int| 0 <= j < 4 && j != d implies #[trigger] w.vecs[j] == u.vecs[j] by {
                assert(w.vecs@[j] == u.vecs@[j]);
            }
        },
    }
}

} // verus!
