use vstd::prelude::*;
use vstd::hash_map::StringHashMap;
use vstd::string::StringSliceAdditionalSpecFns;
use vstd::utf8::encode_utf8;
use crate::bytes::{encodes_words, words_as_bytes};
use crate::slot::{spec_user_slot, user_slot};
use crate::hash::{ascii_case_eq, ascii_case_insensitive_eq, content_hash, spec_content_hash};

verus! {

/// `std::io::Error` travels through the library untouched, inside `ShadError::Io`.
#[verifier::external_type_specification]
#[verifier::external_body]
pub struct ExIoError(std::io::Error);

/// A value pushed into a named user slot: scalars go to "s0".."s3", vec4s to
/// "v0".."v3". Each component is the bit pattern of an `f32`.
#[derive(Debug, Clone, Copy)]
pub enum UniformValue {
    Scalar(u32),
    Vec4([u32; 4]),
}

/// Why a command was refused.
#[derive(Debug)]
pub enum ShadError {
    UnknownShader(String),
    UnknownShad(String),
    UnknownUniform(String),
    UnknownTexture(String),
    UnknownBuffer(String),
    HashMismatch { expected: String, got: String },
    Io(std::io::Error),
}

/// The uniform block every shad carries, field for field, each `f32` held as
/// its bit pattern. Builtins: `rect` (x, y, w, h in px), `resolution` (w, h),
/// `mouse`, `time`; user slots: `scalars` ("s0".."s3") and `vecs` ("v0".."v3").
#[derive(Debug, Clone, Copy)]
pub struct Uniforms {
    pub rect: [u32; 4],
    pub resolution: [u32; 2],
    pub mouse: [u32; 2],
    pub time: u32,
    pub scalars: [u32; 4],
    pub vecs: [[u32; 4]; 4],
}

/// The uniform block as the 32 words the shader reads: rect, resolution,
/// mouse, time, three words of padding, scalars, then the four vec4s.
pub open spec fn uniform_words(u: Uniforms) -> Seq<u32> {
    u.rect@ + u.resolution@ + u.mouse@ + seq![u.time, 0u32, 0u32, 0u32] + u.scalars@ + u.vecs[0]@
        + u.vecs[1]@ + u.vecs[2]@ + u.vecs[3]@
}

/// The block a shad starts with: its rect, its size as resolution, all else zero.
pub open spec fn fresh_uniforms(rect: [u32; 4]) -> Uniforms {
    Uniforms {
        rect,
        resolution: [rect[2], rect[3]],
        mouse: [0u32, 0u32],
        time: 0u32,
        scalars: [0u32, 0u32, 0u32, 0u32],
        vecs: [[0u32, 0u32, 0u32, 0u32], [0u32, 0u32, 0u32, 0u32], [0u32, 0u32, 0u32, 0u32], [
            0u32,
            0u32,
            0u32,
            0u32,
        ]],
    }
}

impl Uniforms {
    /// The block as the 32 words the shader reads.
    pub fn words(&self) -> (r: Vec<u32>)
        ensures
            r@ == uniform_words(*self),
    {
        let mut r: Vec<u32> = Vec::new();
        r.push(self.rect[0]);
        r.push(self.rect[1]);
        r.push(self.rect[2]);
        r.push(self.rect[3]);
        r.push(self.resolution[0]);
        r.push(self.resolution[1]);
        r.push(self.mouse[0]);
        r.push(self.mouse[1]);
        r.push(self.time);
        r.push(0);
        r.push(0);
        r.push(0);
        r.push(self.scalars[0]);
        r.push(self.scalars[1]);
        r.push(self.scalars[2]);
        r.push(self.scalars[3]);
        let mut v: usize = 0;
        while v < 4
            invariant
                v <= 4,
                r@ == uniform_words(*self).subrange(0, 16 + 4 * v),
            decreases 4 - v,
        {
            r.push(self.vecs[v][0]);
            r.push(self.vecs[v][1]);
            r.push(self.vecs[v][2]);
            r.push(self.vecs[v][3]);
            assert(r@ =~= uniform_words(*self).subrange(0, 16 + 4 * (v + 1)));
            v = v + 1;
        }
        assert(r@ =~= uniform_words(*self));
        r
    }
}

/// One placed shader-rect: the shader it runs, its rect (x, y, w, h) and
/// layer `z` as `f32` bit patterns, its insertion index, its uniform block,
/// and the texture and buffer bound to it, if any.
#[derive(Debug)]
pub struct Shad {
    pub shader: String,
    pub rect: [u32; 4],
    pub z: u32,
    pub order: u64,
    pub uniforms: Uniforms,
    pub tex_handle: Option<String>,
    pub buf_handle: Option<String>,
}

/// What a shad is, with its strings taken by their characters.
pub struct ShadView {
    pub shader: Seq<char>,
    pub rect: [u32; 4],
    pub z: u32,
    pub order: u64,
    pub uniforms: Uniforms,
    pub tex_handle: Option<Seq<char>>,
    pub buf_handle: Option<Seq<char>>,
}

/// The characters of an optional string.
pub open spec fn opt_chars(o: Option<String>) -> Option<Seq<char>> {
    match o {
        Some(s) => Some(s@),
        None => None,
    }
}

impl View for Shad {
    type V = ShadView;

    open spec fn view(&self) -> ShadView {
        ShadView {
            shader: self.shader@,
            rect: self.rect,
            z: self.z,
            order: self.order,
            uniforms: self.uniforms,
            tex_handle: opt_chars(self.tex_handle),
            buf_handle: opt_chars(self.buf_handle),
        }
    }
}

fn copy_opt_string(o: &Option<String>) -> (r: Option<String>)
    ensures
        opt_chars(r) == opt_chars(*o),
{
    match o {
        Some(s) => Some(s.clone()),
        None => None,
    }
}

impl Shad {
    /// A copy of this record.
    pub fn snapshot(&self) -> (r: Shad)
        ensures
            r@ == self@,
    {
        Shad {
            shader: self.shader.clone(),
            rect: self.rect,
            z: self.z,
            order: self.order,
            uniforms: self.uniforms,
            tex_handle: copy_opt_string(&self.tex_handle),
            buf_handle: copy_opt_string(&self.buf_handle),
        }
    }
}

/// The registries of an environment: shader, texture and buffer handles (a
/// buffer with its byte length), the placed shads by handle, and the next
/// insertion index.
pub struct EnvView {
    pub shaders: Set<Seq<char>>,
    pub textures: Set<Seq<char>>,
    pub buffers: Map<Seq<char>, usize>,
    pub shads: Map<Seq<char>, ShadView>,
    pub next_order: u64,
}

impl EnvView {
    /// This environment with `h` added to the shader handles.
    pub open spec fn with_shader(self, h: Seq<char>) -> EnvView {
        EnvView { shaders: self.shaders.insert(h), ..self }
    }

    /// This environment with `h` added to the texture handles.
    pub open spec fn with_texture(self, h: Seq<char>) -> EnvView {
        EnvView { textures: self.textures.insert(h), ..self }
    }

    /// This environment with buffer `h` registered at `len` bytes.
    pub open spec fn with_buffer(self, h: Seq<char>, len: usize) -> EnvView {
        EnvView { buffers: self.buffers.insert(h, len), ..self }
    }

    /// This environment with shad `h` set to `s`, everything else unchanged.
    pub open spec fn with_shad(self, h: Seq<char>, s: ShadView) -> EnvView {
        EnvView { shads: self.shads.insert(h, s), ..self }
    }

    /// This environment with shad `h` bound to texture `t`.
    pub open spec fn texture_bound(self, h: Seq<char>, t: Seq<char>) -> EnvView {
        self.with_shad(h, ShadView { tex_handle: Some(t), ..self.shads[h] })
    }

    /// This environment with shad `h` bound to buffer `b`.
    pub open spec fn buffer_bound(self, h: Seq<char>, b: Seq<char>) -> EnvView {
        self.with_shad(h, ShadView { buf_handle: Some(b), ..self.shads[h] })
    }

    /// This environment with shad `h` moved to `rect`, and to layer `z` when
    /// one is given.
    pub open spec fn moved(self, h: Seq<char>, rect: [u32; 4], z: Option<u32>) -> EnvView {
        self.with_shad(
            h,
            ShadView {
                rect,
                z: match z {
                    Some(v) => v,
                    None => self.shads[h].z,
                },
                ..self.shads[h]
            },
        )
    }

    /// `w` differs from this environment at most in shad `h`: the same
    /// registrations, the same placed handles, every other shad unchanged.
    pub open spec fn same_but_shad(self, w: EnvView, h: Seq<char>) -> bool {
        &&& w.shaders == self.shaders
        &&& w.textures == self.textures
        &&& w.buffers == self.buffers
        &&& w.next_order == self.next_order
        &&& w.shads.dom() == self.shads.dom()
        &&& forall|k: Seq<char>| #[trigger] self.shads.contains_key(k) && k != h ==> w.shads[k] == self.shads[k]
    }

    /// Every placed shad has a layer that is not NaN.
    pub open spec fn layers_ordered(self) -> bool {
        forall|k: Seq<char>| #[trigger] self.shads.contains_key(k) ==> z_key(self.shads[k].z) is Some
    }

    /// `out` lists every placed shad exactly once, and, when no layer is NaN,
    /// in painter's order.
    pub open spec fn is_draw_order(self, out: Seq<Seq<char>>) -> bool {
        &&& forall|i: int| 0 <= i < out.len() ==> self.shads.contains_key(#[trigger] out[i])
        &&& forall|k: Seq<char>| #[trigger]
            self.shads.contains_key(k) ==> exists|i: int| 0 <= i < out.len() && #[trigger] out[i] == k
        &&& forall|i: int, j: int| 0 <= i < out.len() && 0 <= j < out.len() && i != j ==> #[trigger] out[i]
            != #[trigger] out[j]
        &&& self.layers_ordered() ==> forall|i: int, j: int|
            0 <= i < j < out.len() ==> draws_before(self.shads[#[trigger] out[i]], self.shads[#[trigger] out[j]])
    }

    /// This environment with every shad's builtins refreshed at time `t`.
    pub open spec fn refreshed_at(self, t: u32) -> EnvView {
        EnvView { shads: self.shads.map_values(|s: ShadView| refreshed(s, t)), ..self }
    }

    /// The shad that `add_shad` places: shader `shader`, rect `rect`, layer
    /// `z` (0.0 when absent), the next insertion index, a fresh uniform block
    /// and no bindings.
    pub open spec fn new_shad(self, shader: Seq<char>, rect: [u32; 4], z: Option<u32>) -> ShadView {
        ShadView {
            shader,
            rect,
            z: match z {
                Some(v) => v,
                None => 0u32,
            },
            order: self.next_order,
            uniforms: fresh_uniforms(rect),
            tex_handle: None,
            buf_handle: None,
        }
    }

    /// This environment after `add_shad` placed shad `h`.
    pub open spec fn placed(self, h: Seq<char>, shader: Seq<char>, rect: [u32; 4], z: Option<u32>) -> EnvView {
        EnvView {
            shads: self.shads.insert(h, self.new_shad(shader, rect, z)),
            next_order: (self.next_order + 1) as u64,
            ..self
        }
    }
}

/// `hash` names the content hash of `source`, ignoring ASCII case.
pub open spec fn hash_matches(source: Seq<u8>, hash: Seq<u8>) -> bool {
    ascii_case_eq(encode_utf8(spec_content_hash(source)), hash)
}

/// What holds of every environment: each shad runs a registered shader, binds
/// only registered textures and buffers, and has an insertion index below the
/// next one and unlike any other shad's.
pub open spec fn env_inv(v: EnvView) -> bool {
    &&& forall|k: Seq<char>| #[trigger]
        v.shads.contains_key(k) ==> {
            &&& v.shaders.contains(v.shads[k].shader)
            &&& v.shads[k].order < v.next_order
            &&& (v.shads[k].tex_handle matches Some(t) ==> v.textures.contains(t))
            &&& (v.shads[k].buf_handle matches Some(b) ==> v.buffers.contains_key(b))
        }
    &&& forall|k1: Seq<char>, k2: Seq<char>|
        #[trigger] v.shads.contains_key(k1) && #[trigger] v.shads.contains_key(k2) && k1 != k2
            ==> v.shads[k1].order != v.shads[k2].order
}

/// Registering more shaders, textures or buffers keeps the invariant.
pub proof fn lemma_inv_more_registered(v: EnvView, w: EnvView)
    requires
        env_inv(v),
        w.shads == v.shads,
        w.next_order == v.next_order,
        v.shaders.subset_of(w.shaders),
        v.textures.subset_of(w.textures),
        v.buffers.dom().subset_of(w.buffers.dom()),
    ensures
        env_inv(w),
{
    assert forall|k: Seq<char>| #[trigger] w.shads.contains_key(k) implies {
        &&& w.shaders.contains(w.shads[k].shader)
        &&& w.shads[k].order < w.next_order
        &&& (w.shads[k].tex_handle matches Some(t) ==> w.textures.contains(t))
        &&& (w.shads[k].buf_handle matches Some(b) ==> w.buffers.contains_key(b))
    } by {
        assert(v.shads.contains_key(k));
    }
}

/// Changing one placed shad, keeping its insertion index, to one that runs a
/// registered shader and binds only registered handles keeps the invariant.
pub proof fn lemma_inv_replace(v: EnvView, h: Seq<char>, s: ShadView)
    requires
        env_inv(v),
        v.shads.contains_key(h),
        s.order == v.shads[h].order,
        v.shaders.contains(s.shader),
        s.tex_handle matches Some(t) ==> v.textures.contains(t),
        s.buf_handle matches Some(b) ==> v.buffers.contains_key(b),
    ensures
        env_inv(v.with_shad(h, s)),
{
    let w = v.with_shad(h, s);
    assert forall|k1: Seq<char>, k2: Seq<char>|
        #[trigger] w.shads.contains_key(k1) && #[trigger] w.shads.contains_key(k2) && k1 != k2
            implies w.shads[k1].order != w.shads[k2].order by {
        assert(v.shads.contains_key(k1) && v.shads.contains_key(k2));
    }
    assert forall|k: Seq<char>| #[trigger] w.shads.contains_key(k) implies {
        &&& w.shaders.contains(w.shads[k].shader)
        &&& w.shads[k].order < w.next_order
        &&& (w.shads[k].tex_handle matches Some(t) ==> w.textures.contains(t))
        &&& (w.shads[k].buf_handle matches Some(b) ==> w.buffers.contains_key(b))
    } by {
        assert(v.shads.contains_key(k));
    }
}

/// The layer `z` (an `f32` bit pattern) as a key that orders the way the
/// floats compare: `None` for NaN, else the signed magnitude, so that -0.0
/// and 0.0 meet at 0.
pub open spec fn z_key(bits: u32) -> Option<int> {
    let mag = bits % 0x8000_0000;
    if mag > 0x7f80_0000 {
        None
    } else if bits >= 0x8000_0000 {
        Some(-(mag as int))
    } else {
        Some(mag as int)
    }
}

/// Painter's order: a shad on a lower layer draws first; on the same layer,
/// or when either layer is NaN (the floats then compare as equal), the one
/// added earlier draws first.
pub open spec fn draws_before(a: ShadView, b: ShadView) -> bool {
    keys_before(a.z, a.order, b.z, b.order)
}

/// Painter's order on (layer, insertion index) pairs.
pub open spec fn keys_before(az: u32, ao: u64, bz: u32, bo: u64) -> bool {
    match (z_key(az), z_key(bz)) {
        (Some(x), Some(y)) => x < y || (x == y && ao < bo),
        _ => ao < bo,
    }
}

fn key_before(az: u32, ao: u64, bz: u32, bo: u64) -> (r: bool)
    ensures
        r == keys_before(az, ao, bz, bo),
{
    let am = az % 0x8000_0000;
    let bm = bz % 0x8000_0000;
    if am > 0x7f80_0000 || bm > 0x7f80_0000 {
        ao < bo
    } else {
        let ak: i64 = if az >= 0x8000_0000 { -(am as i64) } else { am as i64 };
        let bk: i64 = if bz >= 0x8000_0000 { -(bm as i64) } else { bm as i64 };
        ak < bk || (ak == bk && ao < bo)
    }
}

/// Position `q` occurs in `perm`.
pub open spec fn lists(perm: Seq<usize>, q: int) -> bool {
    exists|a: int| 0 <= a < perm.len() && #[trigger] perm[a] == q
}

/// `perm` lists positions of `recs` in painter's order.
pub open spec fn sorted_by(recs: Seq<ShadView>, perm: Seq<usize>) -> bool {
    forall|a: int, b: int|
        0 <= a < b < perm.len() ==> draws_before(recs[#[trigger] perm[a] as int], recs[#[trigger] perm[b] as int])
}

/// With no NaN layer and distinct insertion indices, inserting position `t`
/// in front of the first entry it draws before keeps a painter-ordered list
/// in painter's order.
pub proof fn lemma_insert_sorted(recs: Seq<ShadView>, perm: Seq<usize>, j: int, t: usize)
    requires
        forall|p: int| 0 <= p < recs.len() ==> z_key(#[trigger] recs[p].z) is Some,
        forall|p: int, q: int|
            0 <= p < recs.len() && 0 <= q < recs.len() && p != q ==> #[trigger] recs[p].order
                != #[trigger] recs[q].order,
        t < recs.len(),
        forall|a: int| 0 <= a < perm.len() ==> #[trigger] perm[a] < recs.len() && perm[a] != t,
        sorted_by(recs, perm),
        0 <= j <= perm.len(),
        forall|m: int| 0 <= m < j ==> !draws_before(recs[t as int], recs[#[trigger] perm[m] as int]),
        j < perm.len() ==> draws_before(recs[t as int], recs[perm[j] as int]),
    ensures
        sorted_by(recs, perm.insert(j, t)),
{
    let np = perm.insert(j, t);
    assert forall|a: int, b: int| 0 <= a < b < np.len() implies draws_before(
        recs[#[trigger] np[a] as int],
        recs[#[trigger] np[b] as int],
    ) by {
        let ti = t as int;
        if a < j && b < j {
            assert(np[a] == perm[a] && np[b] == perm[b]);
        } else if a < j && b == j {
            assert(np[a] == perm[a] && np[b] == t);
            assert(!draws_before(recs[ti], recs[perm[a] as int]));
            assert(recs[perm[a] as int].order != recs[ti].order);
        } else if a < j && b > j {
            assert(np[a] == perm[a] && np[b] == perm[b - 1]);
        } else if a == j {
            assert(np[a] == t && np[b] == perm[b - 1]);
            assert(draws_before(recs[ti], recs[perm[j] as int]));
            if b - 1 > j {
                assert(draws_before(recs[perm[j] as int], recs[perm[b - 1] as int]));
            }
        } else {
            assert(np[a] == perm[a - 1] && np[b] == perm[b - 1]);
        }
    }
}

/// The refreshed builtins of a shad at time `t`: its rect, its size as
/// resolution, and the time; the user slots stay.
pub open spec fn refreshed(s: ShadView, t: u32) -> ShadView {
    ShadView {
        uniforms: Uniforms {
            rect: s.rect,
            resolution: [s.rect[2], s.rect[3]],
            time: t,
            ..s.uniforms
        },
        ..s
    }
}

/// `name` is a user slot that takes `value`: exactly one of "s0".."s3" for a
/// scalar, exactly one of "v0".."v3" for a vec4.
pub open spec fn slot_accepts(name: Seq<char>, value: UniformValue) -> bool {
    match spec_user_slot(name) {
        Some((kind, i)) => (kind == 's' && value is Scalar) || (kind == 'v' && value is Vec4),
        None => false,
    }
}

/// `w` is `u` with the slot `name` set to `value`, every other field unchanged.
pub open spec fn slot_written(u: Uniforms, w: Uniforms, name: Seq<char>, value: UniformValue) -> bool {
    let i = spec_user_slot(name).unwrap().1 as int;
    &&& w.rect == u.rect
    &&& w.resolution == u.resolution
    &&& w.mouse == u.mouse
    &&& w.time == u.time
    &&& match value {
        UniformValue::Scalar(x) => w.scalars@ == u.scalars@.update(i, x) && w.vecs == u.vecs,
        UniformValue::Vec4(v) => w.vecs@ == u.vecs@.update(i, v) && w.scalars == u.scalars,
    }
}

/// The library's side of a shader-rect environment: which shaders, textures
/// and buffers are registered under which handles, and every placed shad with
/// its rect, layer, insertion index, uniforms and bindings.
pub struct ShadEnv {
    shaders: StringHashMap<()>,
    textures: StringHashMap<()>,
    buffers: StringHashMap<usize>,
    shads: StringHashMap<Shad>,
    handles: Vec<String>,
    next_order: u64,
}

impl View for ShadEnv {
    type V = EnvView;

    closed spec fn view(&self) -> EnvView {
        EnvView {
            shaders: self.shaders@.dom(),
            textures: self.textures@.dom(),
            buffers: self.buffers@,
            shads: self.shads@.map_values(|s: Shad| s@),
            next_order: self.next_order,
        }
    }
}

impl ShadEnv {
    /// The handle list names each placed shad exactly once.
    closed spec fn handles_ok(&self) -> bool {
        &&& forall|i: int, j: int|
            0 <= i < self.handles@.len() && 0 <= j < self.handles@.len() && i != j
                ==> #[trigger] self.handles@[i]@ != #[trigger] self.handles@[j]@
        &&& forall|i: int|
            0 <= i < self.handles@.len() ==> self.shads@.contains_key(#[trigger] self.handles@[i]@)
        &&& forall|k: Seq<char>| #[trigger]
            self.shads@.contains_key(k) ==> exists|i: int|
                0 <= i < self.handles@.len() && #[trigger] self.handles@[i]@ == k
    }

    proof fn lemma_handles_same(&self, other: &ShadEnv)
        requires
            self.handles_ok(),
            other.handles@ == self.handles@,
            other.shads@.dom() == self.shads@.dom(),
        ensures
            other.handles_ok(),
    {
        assert forall|k: Seq<char>| #[trigger] other.shads@.contains_key(k) implies exists|i: int|
            0 <= i < other.handles@.len() && #[trigger] other.handles@[i]@ == k by {
            assert(self.shads@.contains_key(k));
            let i = choose|i: int| 0 <= i < self.handles@.len() && #[trigger] self.handles@[i]@ == k;
            assert(other.handles@[i]@ == k);
        }
        assert forall|i: int| 0 <= i < other.handles@.len() implies other.shads@.contains_key(
            #[trigger] other.handles@[i]@,
        ) by {
            assert(self.shads@.contains_key(self.handles@[i]@));
        }
    }

    /// The environment is well formed: its invariant holds, and the handle
    /// list names each shad exactly once.
    pub closed spec fn wf(&self) -> bool {
        &&& env_inv(self@)
        &&& self.handles_ok()
    }

    /// Well-formed environments satisfy the invariant.
    pub proof fn lemma_wf_inv(&self)
        requires
            self.wf(),
        ensures
            env_inv(self@),
    {
    }

    /// An empty environment: nothing registered, nothing placed.
    pub fn new() -> (env: ShadEnv)
        ensures
            env.wf(),
            env@.shaders == Set::<Seq<char>>::empty(),
            env@.textures == Set::<Seq<char>>::empty(),
            env@.buffers == Map::<Seq<char>, usize>::empty(),
            env@.shads == Map::<Seq<char>, ShadView>::empty(),
            env@.next_order == 0,
    {
        let env = ShadEnv {
            shaders: StringHashMap::new(),
            textures: StringHashMap::new(),
            buffers: StringHashMap::new(),
            shads: StringHashMap::new(),
            handles: Vec::new(),
            next_order: 0,
        };
        assert(env@.shaders =~= Set::<Seq<char>>::empty());
        assert(env@.textures =~= Set::<Seq<char>>::empty());
        assert(env@.shads =~= Map::<Seq<char>, ShadView>::empty());
        env
    }

    /// Register shader `shader_handle` from its WGSL `source`. When `validate`
    /// is set, `hash` must be the content hash of the source (ASCII case
    /// ignored), else the command fails with `HashMismatch` and changes nothing.
    pub fn register_shader(&mut self, shader_handle: &str, source: &str, hash: &str, validate: bool) -> (r:
        Result<(), ShadError>)
        requires
            old(self).wf(),
        ensures
            final(self).wf(),
            validate && !hash_matches(source.spec_bytes(), hash.spec_bytes()) ==> {
                &&& r matches Err(ShadError::HashMismatch { expected, got })
                &&& expected@ == hash@
                &&& got@ == spec_content_hash(source.spec_bytes())
                &&& final(self)@ == old(self)@
            },
            !(validate && !hash_matches(source.spec_bytes(), hash.spec_bytes())) ==> {
                &&& r is Ok
                &&& final(self)@ == old(self)@.with_shader(shader_handle@)
            },
    {
        if validate {
            let got = content_hash(source.as_bytes());
            if !ascii_case_insensitive_eq(got.as_str(), hash) {
                return Err(ShadError::HashMismatch { expected: hash.to_owned(), got });
            }
        }
        self.shaders.insert(shader_handle.to_owned(), ());
        proof {
            assert(self@.shads =~= old(self)@.shads);
            assert(self@ =~= old(self)@.with_shader(shader_handle@));
            lemma_inv_more_registered(old(self)@, self@);
            old(self).lemma_handles_same(self);
        }
        Ok(())
    }

    /// Register texture `handle` from `rgba`, `width` x `height` pixels of
    /// RGBA8, row-major. Registering a handle again replaces it.
    pub fn register_texture(&mut self, handle: &str, rgba: &[u8], width: u32, height: u32) -> (r: Result<
        (),
        ShadError,
    >)
        requires
            old(self).wf(),
            width > 0,
            height > 0,
            4 * width * height <= rgba@.len(),
        ensures
            final(self).wf(),
            r is Ok,
            final(self)@ == old(self)@.with_texture(handle@),
    {
        self.textures.insert(handle.to_owned(), ());
        proof {
            assert(self@.shads =~= old(self)@.shads);
            assert(self@ =~= old(self)@.with_texture(handle@));
            lemma_inv_more_registered(old(self)@, self@);
            old(self).lemma_handles_same(self);
        }
        Ok(())
    }

    /// Register buffer `handle` holding the bytes of `data`. Registering a
    /// handle again replaces it.
    pub fn register_buffer(&mut self, handle: &str, data: &[u8]) -> (r: Result<(), ShadError>)
        requires
            old(self).wf(),
        ensures
            final(self).wf(),
            r is Ok,
            final(self)@ == old(self)@.with_buffer(handle@, data@.len() as usize),
    {
        self.buffers.insert(handle.to_owned(), data.len());
        proof {
            assert(self@.shads =~= old(self)@.shads);
            assert(self@ =~= old(self)@.with_buffer(handle@, data@.len() as usize));
            lemma_inv_more_registered(old(self)@, self@);
            old(self).lemma_handles_same(self);
        }
        Ok(())
    }

    /// Place shad `shad_handle`, running shader `shader_handle`, at `rect`
    /// (x, y, w, h) on layer `z` (0.0 when absent). It gets the next insertion
    /// index, a fresh uniform block and no bindings; an existing shad of that
    /// handle is replaced. Fails with `UnknownShader` when the shader is not
    /// registered, changing nothing.
    pub fn add_shad(&mut self, shad_handle: &str, shader_handle: &str, rect: [u32; 4], z: Option<u32>) -> (r:
        Result<(), ShadError>)
        requires
            old(self).wf(),
            old(self)@.next_order < u64::MAX,
        ensures
            final(self).wf(),
            !old(self)@.shaders.contains(shader_handle@) ==> {
                &&& r matches Err(ShadError::UnknownShader(h))
                &&& h@ == shader_handle@
                &&& final(self)@ == old(self)@
            },
            old(self)@.shaders.contains(shader_handle@) ==> {
                &&& r is Ok
                &&& final(self)@ == old(self)@.placed(shad_handle@, shader_handle@, rect, z)
            },
    {
        if !self.shaders.contains_key(shader_handle) {
            return Err(ShadError::UnknownShader(shader_handle.to_owned()));
        }
        let zv = match z {
            Some(v) => v,
            None => 0u32,
        };
        let shad = Shad {
            shader: shader_handle.to_owned(),
            rect,
            z: zv,
            order: self.next_order,
            uniforms: Uniforms {
                rect,
                resolution: [rect[2], rect[3]],
                mouse: [0u32, 0u32],
                time: 0u32,
                scalars: [0u32, 0u32, 0u32, 0u32],
                vecs: [[0u32, 0u32, 0u32, 0u32], [0u32, 0u32, 0u32, 0u32], [0u32, 0u32, 0u32, 0u32], [0u32, 0u32, 0u32, 0u32]],
            },
            tex_handle: None,
            buf_handle: None,
        };
        assert(shad@ == old(self)@.new_shad(shader_handle@, rect, z));
        let ghost old_handles = self.handles@;
        let existed = self.shads.contains_key(shad_handle);
        if !existed {
            self.handles.push(shad_handle.to_owned());
        }
        self.shads.insert(shad_handle.to_owned(), shad);
        self.next_order = self.next_order + 1;
        proof {
            let k = shad_handle@;
            assert(self@.shads =~= old(self)@.shads.insert(k, old(self)@.new_shad(shader_handle@, rect, z)));
            assert(self@ =~= old(self)@.placed(k, shader_handle@, rect, z));
            assert forall|i: int|
                0 <= i < self.handles@.len() implies self.shads@.contains_key(#[trigger] self.handles@[i]@) by {
                if i < old_handles.len() {
                    assert(self.handles@[i] == old_handles[i]);
                }
            }
            assert forall|k2: Seq<char>| #[trigger]
                self.shads@.contains_key(k2) implies exists|i: int|
                    0 <= i < self.handles@.len() && #[trigger] self.handles@[i]@ == k2 by {
                if k2 == k {
                    if existed {
                        let i = choose|i: int| 0 <= i < old_handles.len() && #[trigger] old_handles[i]@ == k2;
                        assert(self.handles@[i]@ == k2);
                    } else {
                        assert(self.handles@[old_handles.len() as int]@ == k2);
                    }
                } else {
                    let i = choose|i: int| 0 <= i < old_handles.len() && #[trigger] old_handles[i]@ == k2;
                    assert(self.handles@[i]@ == k2);
                }
            }
        }
        Ok(())
    }

    /// Put `s` in place of the placed shad `h`.
    fn replace_shad(&mut self, h: &str, s: Shad)
        requires
            old(self).wf(),
            old(self)@.shads.contains_key(h@),
            s@.order == old(self)@.shads[h@].order,
            old(self)@.shaders.contains(s@.shader),
            s@.tex_handle matches Some(t) ==> old(self)@.textures.contains(t),
            s@.buf_handle matches Some(b) ==> old(self)@.buffers.contains_key(b),
        ensures
            final(self).wf(),
            final(self)@ == old(self)@.with_shad(h@, s@),
            final(self).handles@ == old(self).handles@,
    {
        let ghost sv = s@;
        self.shads.insert(h.to_owned(), s);
        proof {
            assert(self@.shads =~= old(self)@.shads.insert(h@, sv));
            assert(self@ =~= old(self)@.with_shad(h@, sv));
            assert(self.shads@.dom() =~= old(self).shads@.dom());
            lemma_inv_replace(old(self)@, h@, sv);
            old(self).lemma_handles_same(self);
        }
    }

    /// Bind registered texture `tex_handle` to shad `shad_handle`. Fails with
    /// `UnknownTexture` when the texture is not registered, else with
    /// `UnknownShad` when the shad is not placed; a failure changes nothing.
    pub fn set_texture(&mut self, shad_handle: &str, tex_handle: &str) -> (r: Result<(), ShadError>)
        requires
            old(self).wf(),
        ensures
            final(self).wf(),
            !old(self)@.textures.contains(tex_handle@) ==> {
                &&& r matches Err(ShadError::UnknownTexture(h))
                &&& h@ == tex_handle@
                &&& final(self)@ == old(self)@
            },
            old(self)@.textures.contains(tex_handle@) && !old(self)@.shads.contains_key(shad_handle@) ==> {
                &&& r matches Err(ShadError::UnknownShad(h))
                &&& h@ == shad_handle@
                &&& final(self)@ == old(self)@
            },
            old(self)@.textures.contains(tex_handle@) && old(self)@.shads.contains_key(shad_handle@) ==> {
                &&& r is Ok
                &&& final(self)@ == old(self)@.texture_bound(shad_handle@, tex_handle@)
                &&& old(self)@.same_but_shad(final(self)@, shad_handle@)
                &&& final(self)@.shads[shad_handle@].tex_handle == Some(tex_handle@)
                &&& final(self)@.shads[shad_handle@].buf_handle == old(self)@.shads[shad_handle@].buf_handle
                &&& final(self)@.shads[shad_handle@].shader == old(self)@.shads[shad_handle@].shader
                &&& final(self)@.shads[shad_handle@].rect == old(self)@.shads[shad_handle@].rect
                &&& final(self)@.shads[shad_handle@].z == old(self)@.shads[shad_handle@].z
                &&& final(self)@.shads[shad_handle@].order == old(self)@.shads[shad_handle@].order
                &&& final(self)@.shads[shad_handle@].uniforms == old(self)@.shads[shad_handle@].uniforms
            },
    {
        if !self.textures.contains_key(tex_handle) {
            return Err(ShadError::UnknownTexture(tex_handle.to_owned()));
        }
        let mut rec = match self.shads.get(shad_handle) {
            Some(s) => s.snapshot(),
            None => {
                return Err(ShadError::UnknownShad(shad_handle.to_owned()));
            },
        };
        let ghost before = self@;
        proof {
            self.lemma_wf_inv();
            assert(self@.shads.contains_key(shad_handle@));
        }
        rec.tex_handle = Some(tex_handle.to_owned());
        self.replace_shad(shad_handle, rec);
        proof {
            crate::laws::law_texture_binding_keeps_rest(before, shad_handle@, tex_handle@);
        }
        Ok(())
    }

    /// Bind registered buffer `buf_handle` to shad `shad_handle`. Fails with
    /// `UnknownBuffer` when the buffer is not registered, else with
    /// `UnknownShad` when the shad is not placed; a failure changes nothing.
    pub fn set_buffer(&mut self, shad_handle: &str, buf_handle: &str) -> (r: Result<(), ShadError>)
        requires
            old(self).wf(),
            old(self)@.buffers.contains_key(buf_handle@) && old(self)@.shads.contains_key(shad_handle@)
                ==> old(self)@.buffers[buf_handle@] > 0,
        ensures
            final(self).wf(),
            !old(self)@.buffers.contains_key(buf_handle@) ==> {
                &&& r matches Err(ShadError::UnknownBuffer(h))
                &&& h@ == buf_handle@
                &&& final(self)@ == old(self)@
            },
            old(self)@.buffers.contains_key(buf_handle@) && !old(self)@.shads.contains_key(shad_handle@) ==> {
                &&& r matches Err(ShadError::UnknownShad(h))
                &&& h@ == shad_handle@
                &&& final(self)@ == old(self)@
            },
            old(self)@.buffers.contains_key(buf_handle@) && old(self)@.shads.contains_key(shad_handle@) ==> {
                &&& r is Ok
                &&& final(self)@ == old(self)@.buffer_bound(shad_handle@, buf_handle@)
                &&& old(self)@.same_but_shad(final(self)@, shad_handle@)
                &&& final(self)@.shads[shad_handle@].buf_handle == Some(buf_handle@)
                &&& final(self)@.shads[shad_handle@].tex_handle == old(self)@.shads[shad_handle@].tex_handle
                &&& final(self)@.shads[shad_handle@].shader == old(self)@.shads[shad_handle@].shader
                &&& final(self)@.shads[shad_handle@].rect == old(self)@.shads[shad_handle@].rect
                &&& final(self)@.shads[shad_handle@].z == old(self)@.shads[shad_handle@].z
                &&& final(self)@.shads[shad_handle@].order == old(self)@.shads[shad_handle@].order
                &&& final(self)@.shads[shad_handle@].uniforms == old(self)@.shads[shad_handle@].uniforms
            },
    {
        if !self.buffers.contains_key(buf_handle) {
            return Err(ShadError::UnknownBuffer(buf_handle.to_owned()));
        }
        let mut rec = match self.shads.get(shad_handle) {
            Some(s) => s.snapshot(),
            None => {
                return Err(ShadError::UnknownShad(shad_handle.to_owned()));
            },
        };
        let ghost before = self@;
        proof {
            self.lemma_wf_inv();
            assert(self@.shads.contains_key(shad_handle@));
        }
        rec.buf_handle = Some(buf_handle.to_owned());
        self.replace_shad(shad_handle, rec);
        proof {
            crate::laws::law_buffer_binding_keeps_rest(before, shad_handle@, buf_handle@);
        }
        Ok(())
    }

    /// Move placed shad `shad_handle` to `rect`, and to layer `z` when given
    /// (the current layer is kept otherwise). Fails with `UnknownShad`,
    /// changing nothing, when the shad is not placed.
    pub fn move_shad(&mut self, shad_handle: &str, rect: [u32; 4], z: Option<u32>) -> (r: Result<(), ShadError>)
        requires
            old(self).wf(),
        ensures
            final(self).wf(),
            !old(self)@.shads.contains_key(shad_handle@) ==> {
                &&& r matches Err(ShadError::UnknownShad(h))
                &&& h@ == shad_handle@
                &&& final(self)@ == old(self)@
            },
            old(self)@.shads.contains_key(shad_handle@) ==> {
                &&& r is Ok
                &&& final(self)@ == old(self)@.moved(shad_handle@, rect, z)
                &&& old(self)@.same_but_shad(final(self)@, shad_handle@)
                &&& final(self)@.shads[shad_handle@].rect == rect
                &&& final(self)@.shads[shad_handle@].z == match z {
                    Some(v) => v,
                    None => old(self)@.shads[shad_handle@].z,
                }
                &&& final(self)@.shads[shad_handle@].tex_handle == old(self)@.shads[shad_handle@].tex_handle
                &&& final(self)@.shads[shad_handle@].buf_handle == old(self)@.shads[shad_handle@].buf_handle
                &&& final(self)@.shads[shad_handle@].shader == old(self)@.shads[shad_handle@].shader
                &&& final(self)@.shads[shad_handle@].order == old(self)@.shads[shad_handle@].order
                &&& final(self)@.shads[shad_handle@].uniforms == old(self)@.shads[shad_handle@].uniforms
            },
    {
        let mut rec = match self.shads.get(shad_handle) {
            Some(s) => s.snapshot(),
            None => {
                return Err(ShadError::UnknownShad(shad_handle.to_owned()));
            },
        };
        let ghost before = self@;
        proof {
            self.lemma_wf_inv();
            assert(self@.shads.contains_key(shad_handle@));
        }
        rec.rect = rect;
        match z {
            Some(v) => {
                rec.z = v;
            },
            None => {},
        }
        self.replace_shad(shad_handle, rec);
        proof {
            crate::laws::law_move_keeps_rest(before, shad_handle@, rect, z);
        }
        Ok(())
    }

    /// Write `value` into the user slot `var_name` of shad `shad_handle`.
    /// Fails with `UnknownShad` when the shad is not placed, else with
    /// `UnknownUniform` when the name is not a slot that takes such a value;
    /// a failure changes nothing.
    pub fn set_uniform_value(&mut self, shad_handle: &str, var_name: &str, value: UniformValue) -> (r:
        Result<(), ShadError>)
        requires
            old(self).wf(),
        ensures
            final(self).wf(),
            !old(self)@.shads.contains_key(shad_handle@) ==> {
                &&& r matches Err(ShadError::UnknownShad(h))
                &&& h@ == shad_handle@
                &&& final(self)@ == old(self)@
            },
            old(self)@.shads.contains_key(shad_handle@) && !slot_accepts(var_name@, value) ==> {
                &&& r matches Err(ShadError::UnknownUniform(h))
                &&& h@ == var_name@
                &&& final(self)@ == old(self)@
            },
            old(self)@.shads.contains_key(shad_handle@) && slot_accepts(var_name@, value) ==> {
                &&& r is Ok
                &&& final(self)@ == old(self)@.with_shad(
                    shad_handle@,
                    ShadView { uniforms: final(self)@.shads[shad_handle@].uniforms, ..old(self)@.shads[shad_handle@] },
                )
                &&& slot_written(
                    old(self)@.shads[shad_handle@].uniforms,
                    final(self)@.shads[shad_handle@].uniforms,
                    var_name@,
                    value,
                )
            },
    {
        let mut rec = match self.shads.get(shad_handle) {
            Some(s) => s.snapshot(),
            None => {
                return Err(ShadError::UnknownShad(shad_handle.to_owned()));
            },
        };
        proof {
            self.lemma_wf_inv();
            assert(self@.shads.contains_key(shad_handle@));
            assert(rec@.shader == self@.shads[shad_handle@].shader);
        }
        let slot = user_slot(var_name);
        match slot {
            Some((kind, i)) => {
                if i < 4 && kind == 's' {
                    match value {
                        UniformValue::Scalar(x) => {
                            rec.uniforms.scalars[i] = x;
                        },
                        UniformValue::Vec4(_) => {
                            return Err(ShadError::UnknownUniform(var_name.to_owned()));
                        },
                    }
                } else if i < 4 && kind == 'v' {
                    match value {
                        UniformValue::Vec4(v) => {
                            rec.uniforms.vecs[i] = v;
                        },
                        UniformValue::Scalar(_) => {
                            return Err(ShadError::UnknownUniform(var_name.to_owned()));
                        },
                    }
                } else {
                    return Err(ShadError::UnknownUniform(var_name.to_owned()));
                }
            },
            None => {
                return Err(ShadError::UnknownUniform(var_name.to_owned()));
            },
        }
        let ghost written = rec@;
        self.replace_shad(shad_handle, rec);
        proof {
            assert(self@.shads[shad_handle@] == written);
        }
        Ok(())
    }

    /// A snapshot of shad `shad_handle`: its shader, rect, layer, insertion
    /// index, uniforms and bindings; `None` when it is not placed.
    pub fn get_shad_data(&self, shad_handle: &str) -> (r: Option<Shad>)
        ensures
            match r {
                Some(s) => self@.shads.contains_key(shad_handle@) && s@ == self@.shads[shad_handle@],
                None => !self@.shads.contains_key(shad_handle@),
            },
    {
        match self.shads.get(shad_handle) {
            Some(s) => Some(s.snapshot()),
            None => None,
        }
    }

    /// The handles of all placed shads in painter's order: lower layer first,
    /// then earlier added first.
    pub fn draw_order(&self) -> (out: Vec<String>)
        requires
            self.wf(),
        ensures
            self@.is_draw_order(out@.map_values(|h: String| h@)),
            self@.layers_ordered() ==> forall|i: int, j: int|
                0 <= i < out@.len() && 0 <= j < out@.len() && z_key(self@.shads[#[trigger] out@[i]@].z).unwrap()
                    < z_key(self@.shads[#[trigger] out@[j]@].z).unwrap() ==> i < j,
    {
        let n = self.handles.len();
        let ghost hs = self.handles@.map_values(|h: String| h@);
        let ghost recs = Seq::new(n as nat, |p: int| self@.shads[hs[p]]);
        let mut zs: Vec<u32> = Vec::new();
        let mut os: Vec<u64> = Vec::new();
        let mut p: usize = 0;
        while p < n
            invariant
                n == self.handles@.len(),
                p <= n,
                hs == self.handles@.map_values(|h: String| h@),
                recs == Seq::new(n as nat, |p: int| self@.shads[hs[p]]),
                self.wf(),
                zs@.len() == p,
                os@.len() == p,
                forall|q: int| 0 <= q < p ==> #[trigger] zs@[q] == recs[q].z && os@[q] == recs[q].order,
            decreases n - p,
        {
            assert(self.shads@.contains_key(self.handles@[p as int]@));
            assert(recs[p as int] == self@.shads[self.handles@[p as int]@]);
            let key = self.handles[p].as_str();
            match self.shads.get(key) {
                Some(r) => {
                    assert(key@ == self.handles@[p as int]@);
                    assert(r@ == self@.shads[key@]);
                    zs.push(r.z);
                    os.push(r.order);
                    assert(zs@[p as int] == recs[p as int].z);
                    assert(os@[p as int] == recs[p as int].order);
                },
                None => {
                    assert(false);
                },
            }
            p = p + 1;
        }
        proof {
            assert forall|p: int, q: int|
                0 <= p < recs.len() && 0 <= q < recs.len() && p != q implies #[trigger] recs[p].order
                    != #[trigger] recs[q].order by {
                assert(self.handles@[p]@ != self.handles@[q]@);
                assert(self.shads@.contains_key(self.handles@[p]@));
                assert(self.shads@.contains_key(self.handles@[q]@));
                assert(self@.shads.contains_key(hs[p]) && self@.shads.contains_key(hs[q]));
            }
        }
        let mut perm: Vec<usize> = Vec::new();
        for t in 0..n
            invariant
                n == self.handles@.len(),
                n == recs.len(),
                hs == self.handles@.map_values(|h: String| h@),
                recs == Seq::new(n as nat, |p: int| self@.shads[hs[p]]),
                self.wf(),
                zs@.len() == n,
                os@.len() == n,
                forall|q: int| 0 <= q < n ==> #[trigger] zs@[q] == recs[q].z && os@[q] == recs[q].order,
                forall|p: int, q: int|
                    0 <= p < recs.len() && 0 <= q < recs.len() && p != q ==> #[trigger] recs[p].order
                        != #[trigger] recs[q].order,
                perm@.len() == t,
                forall|a: int| 0 <= a < perm@.len() ==> #[trigger] perm@[a] < t,
                forall|a: int, b: int|
                    0 <= a < perm@.len() && 0 <= b < perm@.len() && a != b ==> #[trigger] perm@[a]
                        != #[trigger] perm@[b],
                forall|q: int| 0 <= q < t ==> #[trigger] lists(perm@, q),
                self@.layers_ordered() ==> sorted_by(recs, perm@),
        {
            let mut j: usize = 0;
            while j < perm.len()
                invariant
                    j <= perm@.len(),
                    t < n,
                    zs@.len() == n,
                    os@.len() == n,
                    forall|a: int| 0 <= a < perm@.len() ==> #[trigger] perm@[a] < t,
                    forall|q: int| 0 <= q < n ==> #[trigger] zs@[q] == recs[q].z && os@[q] == recs[q].order,
                    forall|m: int| 0 <= m < j ==> !draws_before(recs[t as int], recs[#[trigger] perm@[m] as int]),
                ensures
                    j <= perm@.len(),
                    forall|m: int| 0 <= m < j ==> !draws_before(recs[t as int], recs[#[trigger] perm@[m] as int]),
                    j < perm@.len() ==> draws_before(recs[t as int], recs[perm@[j as int] as int]),
                decreases perm@.len() - j,
            {
                let q = perm[j];
                if key_before(zs[t], os[t], zs[q], os[q]) {
                    break;
                }
                j = j + 1;
            }
            let ghost before = perm@;
            proof {
                if self@.layers_ordered() {
                    assert forall|p: int| 0 <= p < recs.len() implies z_key(#[trigger] recs[p].z) is Some by {
                        assert(self.shads@.contains_key(self.handles@[p]@));
                        assert(self@.shads.contains_key(hs[p]));
                    }
                    lemma_insert_sorted(recs, before, j as int, t);
                }
            }
            perm.insert(j, t);
            proof {
                assert forall|q: int| 0 <= q < t + 1 implies #[trigger] lists(perm@, q) by {
                    if q == t {
                        assert(perm@[j as int] == q);
                    } else {
                        assert(lists(before, q));
                        let a = choose|a: int| 0 <= a < before.len() && #[trigger] before[a] == q;
                        if a < j {
                            assert(perm@[a] == q);
                        } else {
                            assert(perm@[a + 1] == q);
                        }
                    }
                }
                assert forall|a: int, b: int|
                    0 <= a < perm@.len() && 0 <= b < perm@.len() && a != b implies #[trigger] perm@[a]
                        != #[trigger] perm@[b] by {
                    if a != j && b != j {
                        let a0 = if a < j { a } else { a - 1 };
                        let b0 = if b < j { b } else { b - 1 };
                        assert(perm@[a] == before[a0] && perm@[b] == before[b0]);
                    } else if a == j {
                        let b0 = if b < j { b } else { b - 1 };
                        assert(perm@[b] == before[b0]);
                    } else {
                        let a0 = if a < j { a } else { a - 1 };
                        assert(perm@[a] == before[a0]);
                    }
                }
                assert forall|a: int| 0 <= a < perm@.len() implies #[trigger] perm@[a] < t + 1 by {
                    if a < j {
                        assert(perm@[a] == before[a]);
                    } else if a > j {
                        assert(perm@[a] == before[a - 1]);
                    }
                }
            }
        }
        let mut out: Vec<String> = Vec::new();
        for i in 0..n
            invariant
                n == self.handles@.len(),
                perm@.len() == n,
                forall|a: int| 0 <= a < perm@.len() ==> #[trigger] perm@[a] < n,
                out@.len() == i,
                forall|a: int| 0 <= a < i ==> #[trigger] out@[a]@ == self.handles@[perm@[a] as int]@,
        {
            out.push(self.handles[perm[i]].clone());
        }
        proof {
            let ov = out@.map_values(|h: String| h@);
            assert forall|i: int| 0 <= i < ov.len() implies self@.shads.contains_key(#[trigger] ov[i]) by {
                assert(self.shads@.contains_key(self.handles@[perm@[i] as int]@));
            }
            assert forall|k: Seq<char>| #[trigger] self@.shads.contains_key(k) implies exists|i: int|
                0 <= i < ov.len() && #[trigger] ov[i] == k by {
                assert(self.shads@.contains_key(k));
                let p = choose|p: int| 0 <= p < self.handles@.len() && #[trigger] self.handles@[p]@ == k;
                assert(lists(perm@, p));
                let a = choose|a: int| 0 <= a < perm@.len() && #[trigger] perm@[a] == p;
                assert(ov[a] == k);
            }
            assert forall|i: int, j: int| 0 <= i < ov.len() && 0 <= j < ov.len() && i != j implies #[trigger] ov[i]
                != #[trigger] ov[j] by {
                assert(perm@[i] != perm@[j]);
            }
            if self@.layers_ordered() {
                assert forall|i: int, j: int| 0 <= i < j < ov.len() implies draws_before(
                    self@.shads[#[trigger] ov[i]],
                    self@.shads[#[trigger] ov[j]],
                ) by {
                    assert(draws_before(recs[perm@[i] as int], recs[perm@[j] as int]));
                }
                assert forall|i: int, j: int|
                    0 <= i < out@.len() && 0 <= j < out@.len() && z_key(self@.shads[#[trigger] out@[i]@].z).unwrap()
                        < z_key(self@.shads[#[trigger] out@[j]@].z).unwrap() implies i < j by {
                    assert(ov[i] == out@[i]@ && ov[j] == out@[j]@);
                    crate::laws::law_draw_order_by_layer(self@, ov, i, j);
                }
            }
        }
        out
    }

    /// Prepare a frame at time `time` (an `f32` bit pattern, seconds): refresh
    /// every shad's builtins, its rect, its size as resolution, and the time.
    /// The shads are then drawn in `draw_order`.
    pub fn render_to(&mut self, time: u32)
        requires
            old(self).wf(),
        ensures
            final(self).wf(),
            final(self)@ == old(self)@.refreshed_at(time),
            final(self)@.shaders == old(self)@.shaders,
            final(self)@.textures == old(self)@.textures,
            final(self)@.buffers == old(self)@.buffers,
            final(self)@.next_order == old(self)@.next_order,
            final(self)@.shads.dom() == old(self)@.shads.dom(),
            forall|k: Seq<char>| #[trigger] old(self)@.shads.contains_key(k) ==> {
                let s = old(self)@.shads[k];
                let u = final(self)@.shads[k].uniforms;
                &&& u.rect == s.rect
                &&& u.resolution == [s.rect[2], s.rect[3]]
                &&& u.time == time
                &&& u.mouse == s.uniforms.mouse
                &&& u.scalars == s.uniforms.scalars
                &&& u.vecs == s.uniforms.vecs
                &&& final(self)@.shads[k].shader == s.shader
                &&& final(self)@.shads[k].rect == s.rect
                &&& final(self)@.shads[k].z == s.z
                &&& final(self)@.shads[k].order == s.order
                &&& final(self)@.shads[k].tex_handle == s.tex_handle
                &&& final(self)@.shads[k].buf_handle == s.buf_handle
            },
    {
        let n = self.handles.len();
        let ghost start = self@;
        for i in 0..n
            invariant
                n == self.handles@.len(),
                self.handles@ == old(self).handles@,
                self.wf(),
                old(self).wf(),
                start == old(self)@,
                self@.shaders == start.shaders,
                self@.textures == start.textures,
                self@.buffers == start.buffers,
                self@.next_order == start.next_order,
                self@.shads.dom() == start.shads.dom(),
                forall|k: Seq<char>| #[trigger]
                    self@.shads.contains_key(k) ==> self@.shads[k] == if exists|a: int|
                        0 <= a < i && #[trigger] self.handles@[a]@ == k {
                        refreshed(start.shads[k], time)
                    } else {
                        start.shads[k]
                    },
        {
            let owned = self.handles[i].clone();
            let h = owned.as_str();
            assert(self.shads@.contains_key(self.handles@[i as int]@));
            match self.shads.get(h) {
                Some(s) => {
                    let mut rec = s.snapshot();
                    proof {
                        self.lemma_wf_inv();
                        assert(self@.shads.contains_key(h@));
                    }
                    rec.uniforms.rect = rec.rect;
                    rec.uniforms.resolution = [rec.rect[2], rec.rect[3]];
                    rec.uniforms.time = time;
                    let ghost prev = self@;
                    self.replace_shad(h, rec);
                    proof {
                        assert forall|k: Seq<char>| #[trigger] self@.shads.contains_key(k) implies self@.shads[k]
                            == if exists|a: int| 0 <= a < i + 1 && #[trigger] self.handles@[a]@ == k {
                            refreshed(start.shads[k], time)
                        } else {
                            start.shads[k]
                        } by {
                            if k == h@ {
                                assert(self.handles@[i as int]@ == k);
                                if exists|a: int| 0 <= a < i && #[trigger] self.handles@[a]@ == k {
                                    let a = choose|a: int| 0 <= a < i && #[trigger] self.handles@[a]@ == k;
                                    assert(self.handles@[a]@ == self.handles@[i as int]@);
                                }
                            } else {
                                assert(prev.shads.contains_key(k));
                                if exists|a: int| 0 <= a < i + 1 && #[trigger] self.handles@[a]@ == k {
                                    let a = choose|a: int| 0 <= a < i + 1 && #[trigger] self.handles@[a]@ == k;
                                    assert(a != i);
                                    assert(exists|a2: int| 0 <= a2 < i && #[trigger] self.handles@[a2]@ == k);
                                }
                            }
                        }
                    }
                },
                None => {},
            }
        }
        proof {
            assert forall|k: Seq<char>| #[trigger] self@.shads.contains_key(k) implies self@.shads[k] == refreshed(
                start.shads[k],
                time,
            ) by {
                assert(self.shads@.contains_key(k));
                let a = choose|a: int| 0 <= a < self.handles@.len() && #[trigger] self.handles@[a]@ == k;
                assert(exists|a2: int| 0 <= a2 < n && #[trigger] self.handles@[a2]@ == k);
            }
            assert(self@.shads =~= start.refreshed_at(time).shads);
            assert(self@ =~= start.refreshed_at(time));
        }
    }

    /// The uniform block of shad `shad_handle` as the bytes uploaded to the
    /// GPU: its 32 words in the machine's byte order; `None` when the shad is
    /// not placed.
    pub fn uniform_bytes(&self, shad_handle: &str) -> (r: Option<Vec<u8>>)
        ensures
            match r {
                Some(b) => {
                    &&& self@.shads.contains_key(shad_handle@)
                    &&& (encodes_words(uniform_words(self@.shads[shad_handle@].uniforms), b@, true)
                        || encodes_words(uniform_words(self@.shads[shad_handle@].uniforms), b@, false))
                },
                None => !self@.shads.contains_key(shad_handle@),
            },
    {
        match self.shads.get(shad_handle) {
            Some(s) => {
                let words = s.uniforms.words();
                Some(words_as_bytes(words.as_slice()))
            },
            None => None,
        }
    }

    /// The insertion index the next placed shad gets.
    pub fn next_order(&self) -> (r: u64)
        ensures
            r == self@.next_order,
    {
        self.next_order
    }
}

} // verus!
