//! Viewport texture bookkeeping: the VRAM budget, size and mip estimates,
//! nearest-neighbour downscaling of RGBA8 data, colour-space detection from
//! file extensions, and resolution of material texture paths.

use vstd::prelude::*;

use crate::text::{contains_text, has_substring};
use crate::paths::{extension, is_absolute, join_path, spec_extension, spec_is_absolute, spec_join};

verus! {

/// Default per-scene VRAM cap for viewport textures: 1.5 GiB.
pub const DEFAULT_VRAM_BUDGET_BYTES: u64 = 1_500 * 1024 * 1024;

/// Default maximum texture dimension for viewport rendering.
pub const DEFAULT_MAX_VIEWPORT_TEXTURE_SIZE: u32 = 2048;

/// Minimum texture size (in both dimensions) for generating GPU mipmaps.
pub const GPU_MIPMAP_MIN_SIZE: u32 = 64;

/// Whether the GPU device is still usable. Once it is lost, texture uploads stop.
pub struct GpuHealth {
    unhealthy: bool,
}

impl GpuHealth {
    /// Whether the device has been reported lost.
    pub closed spec fn is_lost(&self) -> bool {
        self.unhealthy
    }

    /// A healthy device.
    pub fn new() -> (h: GpuHealth)
        ensures
            !h.is_lost(),
    {
        GpuHealth { unhealthy: false }
    }
}

/// Whether the GPU is healthy.
pub fn gpu_is_healthy(health: &GpuHealth) -> (b: bool)
    ensures
        b == !health.is_lost(),
{
    !health.unhealthy
}

/// Records that the GPU device was lost. Returns true only for the call that
/// changed the state (the one that should report it).
pub fn mark_gpu_unhealthy(health: &mut GpuHealth) -> (first: bool)
    ensures
        final(health).is_lost(),
        first == !old(health).is_lost(),
{
    let first = !health.unhealthy;
    health.unhealthy = true;
    first
}

/// Approximate VRAM cost of a 2D RGBA8 texture: 4 bytes per pixel, and 4/3 of
/// that for a full mip chain.
pub open spec fn spec_texture_bytes(width: u32, height: u32, mip_count: u32) -> int {
    let base = width * height * 4;
    if mip_count <= 1 {
        base
    } else {
        base * 4 / 3
    }
}

/// Approximate VRAM cost of a 2D RGBA8 texture with `mip_count` levels.
pub fn estimate_texture_bytes(width: u32, height: u32, mip_count: u32) -> (b: u64)
    requires
        width * height * 4 <= u64::MAX,
        mip_count > 1 ==> width * height * 16 <= u64::MAX,
    ensures
        b as int == spec_texture_bytes(width, height, mip_count),
{
    let base = (width as u64) * (height as u64) * 4;
    if mip_count <= 1 {
        base
    } else {
        base * 4 / 3
    }
}

/// Running tally of bytes uploaded to GPU texture slots, against a cap.
#[derive(Debug)]
pub struct TextureBudget {
    used_bytes: u64,
    max_bytes: u64,
    warned: bool,
}

impl TextureBudget {
    /// The tally never exceeds the cap.
    #[verifier::type_invariant]
    spec fn within_cap(&self) -> bool {
        self.used_bytes <= self.max_bytes
    }

    /// Bytes charged so far.
    pub closed spec fn used(&self) -> nat {
        self.used_bytes as nat
    }

    /// The cap.
    pub closed spec fn cap(&self) -> nat {
        self.max_bytes as nat
    }

    /// Whether a refusal has been reported.
    pub closed spec fn has_warned(&self) -> bool {
        self.warned
    }

    /// An empty budget capped at `max_bytes`.
    pub fn new(max_bytes: u64) -> (b: TextureBudget)
        ensures
            b.used() == 0,
            b.cap() == max_bytes,
            !b.has_warned(),
    {
        TextureBudget { used_bytes: 0, max_bytes, warned: false }
    }

    /// An empty budget with the default cap.
    pub fn default() -> (b: TextureBudget)
        ensures
            b.used() == 0,
            b.cap() == DEFAULT_VRAM_BUDGET_BYTES,
            !b.has_warned(),
    {
        TextureBudget::new(DEFAULT_VRAM_BUDGET_BYTES)
    }

    /// Bytes charged so far; never more than the cap, whatever was charged.
    pub fn used_bytes(&self) -> (r: u64)
        ensures
            r == self.used(),
            r <= self.cap(),
    {
        proof {
            use_type_invariant(self);
        }
        self.used_bytes
    }

    /// The cap.
    pub fn max_bytes(&self) -> (r: u64)
        ensures
            r == self.cap(),
    {
        self.max_bytes
    }

    /// Whether a refusal has been reported.
    pub fn warned(&self) -> (r: bool)
        ensures
            r == self.has_warned(),
    {
        self.warned
    }

    /// Tries to reserve VRAM for a texture of the given size. Commits the
    /// charge and returns true when it fits under the cap; otherwise leaves
    /// the tally unchanged, records that a refusal was reported, and returns
    /// false.
    pub fn try_charge(&mut self, width: u32, height: u32, mip_count: u32) -> (ok: bool)
        requires
            width * height * 4 <= u64::MAX,
            mip_count > 1 ==> width * height * 16 <= u64::MAX,
            old(self).used() + spec_texture_bytes(width, height, mip_count) <= u64::MAX
                || old(self).cap() < u64::MAX,
        ensures
            ok == (old(self).used() + spec_texture_bytes(width, height, mip_count) <= old(
                self,
            ).cap()),
            ok ==> final(self).used() == old(self).used() + spec_texture_bytes(
                width,
                height,
                mip_count,
            ) && final(self).has_warned() == old(self).has_warned(),
            !ok ==> final(self).used() == old(self).used() && final(self).has_warned(),
            final(self).cap() == old(self).cap(),
    {
        proof {
            use_type_invariant(&*self);
        }
        let bytes = estimate_texture_bytes(width, height, mip_count);
        if self.used_bytes.saturating_add(bytes) > self.max_bytes {
            if !self.warned {
                self.warned = true;
            }
            return false;
        }
        self.used_bytes = self.used_bytes + bytes;
        true
    }
}

/// Floor of the base-2 logarithm (0 for 0 and 1).
pub open spec fn log2_floor(n: nat) -> nat
    decreases n,
{
    if n <= 1 {
        0
    } else {
        1 + log2_floor(n / 2)
    }
}

/// Number of mip levels of a texture: floor(log2(max(width, height))) + 1,
/// and 1 for an empty texture.
pub open spec fn spec_mip_count(width: u32, height: u32) -> nat {
    let m = if width >= height {
        width
    } else {
        height
    };
    log2_floor(m as nat) + 1
}

/// 2 to the power `k`.
pub open spec fn pow2(k: nat) -> nat
    decreases k,
{
    if k == 0 {
        1
    } else {
        2 * pow2((k - 1) as nat)
    }
}

proof fn lemma_log2_floor_below(n: nat, k: nat)
    requires
        1 <= k,
        n < pow2(k),
    ensures
        log2_floor(n) < k,
    decreases k,
{
    if n > 1 {
        assert(k >= 2) by {
            if k == 1 {
                assert(pow2(1) == 2 * pow2(0));
            }
        }
        assert(pow2(k) == 2 * pow2((k - 1) as nat));
        lemma_log2_floor_below(n / 2, (k - 1) as nat);
    }
}

proof fn lemma_log2_floor_small(n: nat)
    ensures
        n < 0x1_0000_0000 ==> log2_floor(n) < 32,
{
    if n < 0x1_0000_0000 {
        assert(pow2(32) == 0x1_0000_0000) by {
            reveal_with_fuel(pow2, 33);
        }
        lemma_log2_floor_below(n, 32);
    }
}

/// Number of mip levels for the given dimensions.
pub fn calculate_mip_count(width: u32, height: u32) -> (c: u32)
    ensures
        c as nat == spec_mip_count(width, height),
{
    let mut m = if width >= height {
        width
    } else {
        height
    };
    let ghost m0 = m as nat;
    let mut levels: u32 = 0;
    proof {
        lemma_log2_floor_small(m0);
    }
    while m > 1
        invariant
            log2_floor(m0) == levels + log2_floor(m as nat),
            levels < 32,
            levels + log2_floor(m as nat) < 32,
        decreases m,
    {
        proof {
            lemma_log2_floor_small((m / 2) as nat);
        }
        m = m / 2;
        levels = levels + 1;
    }
    levels + 1
}

/// ASCII lowercase of a character.
pub open spec fn ascii_lower(c: char) -> char {
    if 'A' <= c <= 'Z' {
        ((c as u32) + 32) as char
    } else {
        c
    }
}

/// Whether a texture path holds the UDIM tile token `<UDIM>`.
pub fn is_udim_path(path: &str) -> (b: bool)
    ensures
        b == has_substring(path@, "<UDIM>"@),
{
    contains_text(path, "<UDIM>")
}

/// Whether `e`, lowercased, is `exr` or `hdr`.
pub open spec fn is_linear_extension(e: Seq<char>) -> bool {
    let l = e.map_values(|c: char| ascii_lower(c));
    l == seq!['e', 'x', 'r'] || l == seq!['h', 'd', 'r']
}

/// Whether a texture path names a linear-colour-space format (EXR or HDR),
/// judged by its extension in any letter case.
pub fn is_linear_texture_path(path: &str) -> (b: bool)
    ensures
        b == (spec_extension(path@) matches Some(e) && is_linear_extension(e)),
{
    let e = match extension(path) {
        Some(e) => e,
        None => return false,
    };
    if e.len() != 3 {
        assert(e@.map_values(|c: char| ascii_lower(c)).len() != 3);
        return false;
    }
    let a = lower_char(e[0]);
    let b = lower_char(e[1]);
    let c = lower_char(e[2]);
    let ghost l = e@.map_values(|c: char| ascii_lower(c));
    assert(l == seq![a, b, c]);
    (a == 'e' && b == 'x' && c == 'r') || (a == 'h' && b == 'd' && c == 'r')
}

/// ASCII lowercase of a character.
fn lower_char(c: char) -> (r: char)
    ensures
        r == ascii_lower(c),
{
    if 'A' <= c && c <= 'Z' {
        let v: u8 = (c as u32) as u8;
        let r = (v + 32) as char;
        r
    } else {
        c
    }
}

/// The larger of two dimensions.
pub open spec fn larger(a: u32, b: u32) -> nat {
    if a >= b {
        a as nat
    } else {
        b as nat
    }
}

/// `n`, or 1 when it is 0.
pub open spec fn at_least_one(n: int) -> nat {
    if n < 1 {
        1
    } else {
        n as nat
    }
}

/// Size of a `width` x `height` texture after nearest-neighbour downscaling
/// so that neither side exceeds `max_dim`: both sides are scaled by
/// `max_dim / max(width, height)`, rounded down, and kept at least 1.
pub open spec fn downscaled_size(width: u32, height: u32, max_dim: u32) -> (nat, nat) {
    if width <= max_dim && height <= max_dim {
        (width as nat, height as nat)
    } else if max_dim == 0 {
        (1, 1)
    } else {
        let big = larger(width, height);
        (at_least_one(width * max_dim / big as int), at_least_one(height * max_dim / big as int))
    }
}

/// Source row or column sampled for output row or column `i`.
pub open spec fn source_coord(i: int, big: nat, max_dim: nat, extent: nat) -> int {
    let s = if max_dim == 0 {
        0
    } else {
        i * big / max_dim as int
    };
    if s < extent - 1 {
        s
    } else {
        extent - 1
    }
}

/// Byte of the source data copied to byte `p` of the downscaled data, whose
/// rows are `new_width` pixels wide.
pub open spec fn source_byte(p: int, new_width: nat, width: u32, height: u32, max_dim: u32) -> int {
    let px = p / 4;
    let big = larger(width, height);
    (source_coord(px / new_width as int, big, max_dim as nat, height as nat) * width
        + source_coord(px % new_width as int, big, max_dim as nat, width as nat)) * 4 + p % 4
}

proof fn lemma_flat_index(y: int, x: int, c: int, nw: int)
    requires
        0 <= y,
        0 <= x < nw,
        0 <= c < 4,
    ensures
        ((y * nw + x) * 4 + c) / 4 == y * nw + x,
        ((y * nw + x) * 4 + c) % 4 == c,
        (y * nw + x) / nw == y,
        (y * nw + x) % nw == x,
{
    vstd::arithmetic::div_mod::lemma_fundamental_div_mod_converse(
        (y * nw + x) * 4 + c,
        4,
        y * nw + x,
        c,
    );
    vstd::arithmetic::div_mod::lemma_fundamental_div_mod_converse(y * nw + x, nw, y, x);
}

/// Source row or column sampled for output row or column `i`.
fn source_coord_exec(i: u64, big: u64, max_dim: u64, extent: u64) -> (r: u64)
    requires
        extent >= 1,
        i <= u32::MAX,
        big <= u32::MAX,
    ensures
        r as int == source_coord(i as int, big as nat, max_dim as nat, extent as nat),
        r < extent,
{
    let s = if max_dim == 0 {
        0
    } else {
        assert(i * big <= u64::MAX) by (nonlinear_arith)
            requires
                i <= u32::MAX,
                big <= u32::MAX,
        ;
        i * big / max_dim
    };
    if s < extent - 1 {
        s
    } else {
        extent - 1
    }
}

/// Downscales RGBA8 pixel data by nearest-neighbour sampling so that neither
/// side exceeds `max_dimension`; data that already fits is returned as is.
/// Returns the new width, height and data.
pub fn downscale_raw_nearest(width: u32, height: u32, data: &[u8], max_dimension: u32) -> (r: (
    u32,
    u32,
    Vec<u8>,
))
    requires
        (width > max_dimension || height > max_dimension) ==> width >= 1 && height >= 1 && width
            * height <= u32::MAX && downscaled_size(width, height, max_dimension).0
            * downscaled_size(width, height, max_dimension).1 * 4 <= u32::MAX && data@.len()
            >= width * height * 4,
    ensures
        (r.0 as nat, r.1 as nat) == downscaled_size(width, height, max_dimension),
        width <= max_dimension && height <= max_dimension ==> r.2@ == data@,
        (width > max_dimension || height > max_dimension) ==> r.2@.len() == r.0 * r.1 * 4
            && forall|p: int|
            0 <= p < r.2@.len() ==> #[trigger] r.2@[p] == data@[source_byte(
                p,
                r.0 as nat,
                width,
                height,
                max_dimension,
            )],
{
    if width <= max_dimension && height <= max_dimension {
        return (width, height, vstd::slice::slice_to_vec(data));
    }
    let big: u64 = if width >= height {
        width as u64
    } else {
        height as u64
    };
    let m = max_dimension as u64;
    let (nw, nh): (u64, u64) = if m == 0 {
        (1, 1)
    } else {
        assert((width as u64) * m <= u64::MAX) by (nonlinear_arith)
            requires
                width <= u32::MAX,
                m <= u32::MAX,
        ;
        assert((height as u64) * m <= u64::MAX) by (nonlinear_arith)
            requires
                height <= u32::MAX,
                m <= u32::MAX,
        ;
        let a = (width as u64) * m / big;
        let b = (height as u64) * m / big;
        (if a < 1 {
            1
        } else {
            a
        }, if b < 1 {
            1
        } else {
            b
        })
    };
    assert(nw as nat == downscaled_size(width, height, max_dimension).0);
    assert(nh as nat == downscaled_size(width, height, max_dimension).1);
    let w = width as u64;
    let h = height as u64;
    let dlen = data.len();
    let mut out: Vec<u8> = Vec::new();
    let mut y: u64 = 0;
    while y < nh
        invariant
            nw >= 1,
            nh >= 1,
            nw * nh * 4 <= u32::MAX,
            y <= nh,
            w == width,
            h == height,
            w >= 1,
            h >= 1,
            w * h <= u32::MAX,
            data@.len() >= w * h * 4,
            dlen == data@.len(),
            big == larger(width, height),
            m == max_dimension,
            out@.len() == y * nw * 4,
            forall|p: int|
                0 <= p < out@.len() ==> #[trigger] out@[p] == data@[source_byte(
                    p,
                    nw as nat,
                    width,
                    height,
                    max_dimension,
                )],
        decreases nh - y,
    {
        assert(y < u32::MAX) by (nonlinear_arith)
            requires
                y < nh,
                nw * nh * 4 <= u32::MAX,
                nw >= 1,
        ;
        let sy = source_coord_exec(y, big, m, h);
        let mut x: u64 = 0;
        while x < nw
            invariant
                nw >= 1,
                nh >= 1,
                nw * nh * 4 <= u32::MAX,
                y < nh,
                x <= nw,
                w == width,
                h == height,
                w >= 1,
                h >= 1,
                w * h <= u32::MAX,
                data@.len() >= w * h * 4,
                dlen == data@.len(),
                big == larger(width, height),
                m == max_dimension,
                sy as int == source_coord(y as int, big as nat, m as nat, h as nat),
                sy < h,
                out@.len() == (y * nw + x) * 4,
                forall|p: int|
                    0 <= p < out@.len() ==> #[trigger] out@[p] == data@[source_byte(
                        p,
                        nw as nat,
                        width,
                        height,
                        max_dimension,
                    )],
            decreases nw - x,
        {
            assert(x < u32::MAX) by (nonlinear_arith)
                requires
                    x < nw,
                    nw * nh * 4 <= u32::MAX,
                    nh >= 1,
            ;
            let sx = source_coord_exec(x, big, m, w);
            assert((sy * w + sx) * 4 + 4 <= w * h * 4) by (nonlinear_arith)
                requires
                    sy < h,
                    sx < w,
            ;
            assert((sy * w + sx) * 4 + 4 <= dlen);
            let off = ((sy * w + sx) * 4) as usize;
            let ghost before = out@;
            out.push(data[off]);
            out.push(data[off + 1]);
            out.push(data[off + 2]);
            out.push(data[off + 3]);
            proof {
                assert forall|p: int| 0 <= p < out@.len() implies #[trigger] out@[p] == data@[source_byte(
                    p,
                    nw as nat,
                    width,
                    height,
                    max_dimension,
                )] by {
                    if p >= before.len() {
                        let c = p - before.len();
                        assert(p == (y * nw + x) * 4 + c);
                        lemma_flat_index(y as int, x as int, c, nw as int);
                        assert(out@[p] == data@[off + c]);
                    } else {
                        assert(out@[p] == before[p]);
                    }
                }
                assert(out@.len() == (y * nw + (x + 1)) * 4) by (nonlinear_arith)
                    requires
                        out@.len() == (y * nw + x) * 4 + 4,
                ;
            }
            x = x + 1;
        }
        assert(out@.len() == (y + 1) * nw * 4) by (nonlinear_arith)
            requires
                out@.len() == (y * nw + nw) * 4,
        ;
        y = y + 1;
    }
    assert(out@.len() == nw * nh * 4) by (nonlinear_arith)
        requires
            out@.len() == nh * nw * 4,
    ;
    assert(nw <= u32::MAX && nh <= u32::MAX) by (nonlinear_arith)
        requires
            nw * nh * 4 <= u32::MAX,
            nw >= 1,
            nh >= 1,
    ;
    (nw as u32, nh as u32, out)
}

/// A texture decoded on a background thread, ready for upload.
pub struct TextureLoadMessage {
    /// Resolved texture path (the key of its pre-allocated slot).
    pub path: String,
    pub width: u32,
    pub height: u32,
    /// RGBA8 pixel data.
    pub data: Vec<u8>,
    pub is_linear: bool,
}

/// Largest texture side loaded for the viewport, by the number of textures
/// in the scene: 512 above 200 textures, 1024 above 50, 2048 otherwise.
pub open spec fn spec_adaptive_texture_size(total_textures: nat) -> u32 {
    if total_textures > 200 {
        512
    } else if total_textures > 50 {
        1024
    } else {
        DEFAULT_MAX_VIEWPORT_TEXTURE_SIZE
    }
}

/// The side limit a loaded texture is brought under before upload (the
/// smaller of the GPU's and the viewport's), when one of its sides exceeds it.
pub fn viewport_downscale_limit(width: u32, height: u32, max_dimension: u32, viewport_limit: u32) -> (r:
    Option<u32>)
    ensures
        ({
            let limit = if max_dimension <= viewport_limit {
                max_dimension
            } else {
                viewport_limit
            };
            r == (if width > limit || height > limit {
                Some(limit)
            } else {
                None
            })
        }),
{
    let limit = if max_dimension <= viewport_limit {
        max_dimension
    } else {
        viewport_limit
    };
    if width > limit || height > limit {
        Some(limit)
    } else {
        None
    }
}

/// Pixel format of a viewport texture.
#[derive(Clone, Copy, Debug, PartialEq, Eq, Structural)]
pub enum TexelFormat {
    /// Eight-bit RGBA read as stored.
    Rgba8Unorm,
    /// Eight-bit RGBA decoded from sRGB on sampling.
    Rgba8UnormSrgb,
}

/// How a loaded texture is created on the GPU.
#[derive(Clone, Copy, Debug, PartialEq, Eq, Structural)]
pub struct GpuTextureLayout {
    /// Number of mip levels.
    pub mip_count: u32,
    /// Format the texture is created with.
    pub format: TexelFormat,
    /// Whether the mipmap compute pass writes the texture (storage use).
    pub storage: bool,
    /// Whether it is sampled through an sRGB view of a linear-format texture.
    pub srgb_view: bool,
}

/// The GPU layout of an uploaded texture of the given size: mips are
/// generated on the GPU when a generator is at hand and both sides are at
/// least [`GPU_MIPMAP_MIN_SIZE`]. Storage writes need a linear format, so an
/// sRGB texture that gets GPU mips is created linear and sampled through an
/// sRGB view; other sRGB textures are created sRGB, linear ones linear.
pub fn gpu_texture_layout(width: u32, height: u32, is_linear: bool, has_mip_generator: bool) -> (r:
    GpuTextureLayout)
    ensures
        ({
            let gpu_mips = has_mip_generator && width >= GPU_MIPMAP_MIN_SIZE && height
                >= GPU_MIPMAP_MIN_SIZE;
            &&& r.mip_count as nat == (if gpu_mips {
                spec_mip_count(width, height)
            } else {
                1
            })
            &&& r.storage == gpu_mips
            &&& r.srgb_view == (gpu_mips && !is_linear)
            &&& r.format == (if is_linear || gpu_mips {
                TexelFormat::Rgba8Unorm
            } else {
                TexelFormat::Rgba8UnormSrgb
            })
        }),
{
    let gpu_mips = has_mip_generator && width >= GPU_MIPMAP_MIN_SIZE && height >= GPU_MIPMAP_MIN_SIZE;
    let mip_count = if gpu_mips {
        calculate_mip_count(width, height)
    } else {
        1
    };
    let srgb_view = gpu_mips && !is_linear;
    let format = if is_linear || srgb_view {
        TexelFormat::Rgba8Unorm
    } else {
        TexelFormat::Rgba8UnormSrgb
    };
    GpuTextureLayout { mip_count, format, storage: gpu_mips, srgb_view }
}

/// Largest texture side loaded for the viewport, by the number of textures.
pub fn adaptive_texture_size(total_textures: usize) -> (s: u32)
    ensures
        s == spec_adaptive_texture_size(total_textures as nat),
{
    if total_textures > 200 {
        512
    } else if total_textures > 50 {
        1024
    } else {
        DEFAULT_MAX_VIEWPORT_TEXTURE_SIZE
    }
}

/// The smaller of two dimensions.
pub open spec fn smaller(a: u32, b: u32) -> u32 {
    if a <= b {
        a
    } else {
        b
    }
}

/// Size and mip count a streamed texture takes on the GPU: each side clamped
/// to `min(max_dimension, 2048)`, with a full mip chain when both sides are
/// at least 64.
pub open spec fn spec_upload_extent(width: u32, height: u32, max_dimension: u32) -> (
    u32,
    u32,
    u32,
) {
    let limit = smaller(max_dimension, DEFAULT_MAX_VIEWPORT_TEXTURE_SIZE);
    let w = smaller(width, limit);
    let h = smaller(height, limit);
    let mips = if w >= GPU_MIPMAP_MIN_SIZE && h >= GPU_MIPMAP_MIN_SIZE {
        spec_mip_count(w, h) as u32
    } else {
        1
    };
    (w, h, mips)
}

/// Decides whether a streamed texture is uploaded, and into which slot: the
/// GPU must be healthy, the texture must have a pre-allocated slot within
/// both the view and texture arrays, and its predicted size must fit the VRAM
/// budget (which is then charged). Returns the slot to replace.
pub fn plan_streamed_upload(
    health: &GpuHealth,
    budget: &mut TextureBudget,
    slot: Option<u32>,
    view_count: usize,
    texture_count: usize,
    width: u32,
    height: u32,
    max_dimension: u32,
) -> (r: Option<usize>)
    requires
        old(budget).used() + 0x200_0000 <= u64::MAX || old(budget).cap() < u64::MAX,
    ensures
        ({
            let (w, h, mips) = spec_upload_extent(width, height, max_dimension);
            let considered = !health.is_lost() && slot is Some && (slot->0 as int) < view_count
                && (slot->0 as int) < texture_count;
            let fits = old(budget).used() + spec_texture_bytes(w, h, mips) <= old(budget).cap();
            &&& r == (if considered && fits {
                Some(slot->0 as usize)
            } else {
                None
            })
            &&& (considered && fits) ==> final(budget).used() == old(budget).used()
                + spec_texture_bytes(w, h, mips)
            &&& !(considered && fits) ==> final(budget).used() == old(budget).used()
            &&& considered || *final(budget) == *old(budget)
            &&& final(budget).cap() == old(budget).cap()
        }),
{
    if !gpu_is_healthy(health) {
        return None;
    }
    let index = match slot {
        Some(i) => i,
        None => return None,
    };
    let idx = index as usize;
    if idx >= view_count || idx >= texture_count {
        return None;
    }
    let limit = if max_dimension <= DEFAULT_MAX_VIEWPORT_TEXTURE_SIZE {
        max_dimension
    } else {
        DEFAULT_MAX_VIEWPORT_TEXTURE_SIZE
    };
    let w = if width <= limit {
        width
    } else {
        limit
    };
    let h = if height <= limit {
        height
    } else {
        limit
    };
    let mips = if w >= GPU_MIPMAP_MIN_SIZE && h >= GPU_MIPMAP_MIN_SIZE {
        calculate_mip_count(w, h)
    } else {
        1
    };
    assert(w * h * 16 <= 2048 * 2048 * 16) by (nonlinear_arith)
        requires
            w <= 2048,
            h <= 2048,
    ;
    assert(spec_texture_bytes(w, h, mips) <= 0x200_0000) by (nonlinear_arith)
        requires
            w <= 2048,
            h <= 2048,
    ;
    if budget.try_charge(w, h, mips) {
        Some(idx)
    } else {
        None
    }
}

/// A texture path resolved against a material's source directory, or else
/// the fallback base directory; absolute paths (and `//` UNC paths) are kept.
pub open spec fn spec_resolve_texture_path(
    tex_path: Seq<char>,
    source_dir: Option<Seq<char>>,
    fallback_base: Option<Seq<char>>,
) -> Seq<char> {
    if spec_is_absolute(tex_path) {
        tex_path
    } else {
        match (if source_dir is Some {
            source_dir
        } else {
            fallback_base
        }) {
            Some(dir) => spec_join(dir, tex_path),
            None => tex_path,
        }
    }
}

/// A relative texture path of a material with a source directory is that
/// directory joined with the path, whatever the fallback base; the fallback
/// base stands in only for a material without a source directory; an absolute
/// path is kept as it is.
pub proof fn lemma_texture_path_prefers_source_dir(
    tex_path: Seq<char>,
    dir: Seq<char>,
    fallback_base: Option<Seq<char>>,
    other_fallback: Option<Seq<char>>,
)
    ensures
        !spec_is_absolute(tex_path) ==> spec_resolve_texture_path(tex_path, Some(dir), fallback_base)
            == spec_join(dir, tex_path),
        !spec_is_absolute(tex_path) && dir.len() > 0 && dir.last() != '/'
            ==> spec_resolve_texture_path(tex_path, Some(dir), fallback_base) == dir + seq!['/']
            + tex_path,
        spec_resolve_texture_path(tex_path, Some(dir), fallback_base) == spec_resolve_texture_path(
            tex_path,
            Some(dir),
            other_fallback,
        ),
        spec_resolve_texture_path(tex_path, None, Some(dir)) == spec_resolve_texture_path(
            tex_path,
            Some(dir),
            other_fallback,
        ),
        spec_is_absolute(tex_path) ==> spec_resolve_texture_path(tex_path, fallback_base, other_fallback)
            == tex_path,
        spec_resolve_texture_path(tex_path, None, None) == tex_path,
{
}

/// The text of an optional string.
pub open spec fn opt_view(s: Option<&str>) -> Option<Seq<char>> {
    match s {
        Some(x) => Some(x@),
        None => None,
    }
}

/// Resolves a texture path against a material's source directory, falling
/// back to `fallback_base`.
pub fn resolve_texture_path(
    tex_path: &str,
    material_source_dir: Option<&str>,
    fallback_base: Option<&str>,
) -> (r: String)
    ensures
        r@ == spec_resolve_texture_path(
            tex_path@,
            opt_view(material_source_dir),
            opt_view(fallback_base),
        ),
{
    if is_absolute(tex_path) {
        return String::from_str(tex_path);
    }
    let dir = match material_source_dir {
        Some(d) => Some(d),
        None => fallback_base,
    };
    match dir {
        Some(d) => join_path(d, tex_path),
        None => String::from_str(tex_path),
    }
}

/// The texture paths a material references, with its source directory.
pub struct MaterialTextures {
    pub source_dir: Option<String>,
    pub base_color_texture: Option<String>,
    pub specular_roughness_texture: Option<String>,
    pub base_metalness_texture: Option<String>,
    pub normal_texture: Option<String>,
    pub emission_texture: Option<String>,
}

/// The text of an optional owned string.
pub open spec fn opt_string_view(s: Option<String>) -> Option<Seq<char>> {
    match s {
        Some(x) => Some(x@),
        None => None,
    }
}

/// The texture paths of a material that are set, in slot order: base colour,
/// specular roughness, metalness, normal, emission.
pub open spec fn material_texture_slots(m: MaterialTextures) -> Seq<Option<String>> {
    seq![
        m.base_color_texture,
        m.specular_roughness_texture,
        m.base_metalness_texture,
        m.normal_texture,
        m.emission_texture,
    ]
}

/// The resolved paths of the set slots among the first `k` slots of a material.
pub open spec fn resolved_slots(
    m: MaterialTextures,
    k: int,
    fallback_base: Option<Seq<char>>,
) -> Seq<Seq<char>>
    decreases k,
{
    if k <= 0 {
        seq![]
    } else {
        let rest = resolved_slots(m, k - 1, fallback_base);
        match material_texture_slots(m)[k - 1] {
            Some(t) => rest.push(
                spec_resolve_texture_path(t@, opt_string_view(m.source_dir), fallback_base),
            ),
            None => rest,
        }
    }
}

/// The resolved texture paths of all materials, in order, duplicates included.
pub open spec fn all_resolved_paths(
    mats: Seq<MaterialTextures>,
    fallback_base: Option<Seq<char>>,
) -> Seq<Seq<char>>
    decreases mats.len(),
{
    if mats.len() == 0 {
        seq![]
    } else {
        all_resolved_paths(mats.drop_last(), fallback_base) + resolved_slots(
            mats.last(),
            5,
            fallback_base,
        )
    }
}

/// `s` with every element after its first occurrence dropped.
pub open spec fn dedup_first(s: Seq<Seq<char>>) -> Seq<Seq<char>>
    decreases s.len(),
{
    if s.len() == 0 {
        seq![]
    } else {
        let r = dedup_first(s.drop_last());
        if r.contains(s.last()) {
            r
        } else {
            r.push(s.last())
        }
    }
}

/// Keeping first occurrences leaves no duplicates and the same elements.
pub proof fn lemma_dedup_first(s: Seq<Seq<char>>)
    ensures
        dedup_first(s).no_duplicates(),
        forall|x: Seq<char>| #[trigger] dedup_first(s).contains(x) <==> s.contains(x),
    decreases s.len(),
{
    if s.len() > 0 {
        lemma_dedup_first(s.drop_last());
        let r = dedup_first(s.drop_last());
        assert forall|x: Seq<char>| #[trigger] dedup_first(s).contains(x) <==> s.contains(x) by {
            if s.drop_last().contains(x) {
                let i = choose|i: int| 0 <= i < s.drop_last().len() && s.drop_last()[i] == x;
                assert(s[i] == x);
            }
            if s.contains(x) && x != s.last() {
                let i = choose|i: int| 0 <= i < s.len() && s[i] == x;
                assert(s.drop_last()[i] == x);
            }
            if !r.contains(s.last()) {
                if dedup_first(s).contains(x) && x != s.last() {
                    let i = choose|i: int| 0 <= i < r.push(s.last()).len() && r.push(s.last())[i] == x;
                    assert(r[i] == x);
                }
                if x == s.last() {
                    assert(r.push(s.last())[r.len() as int] == x);
                }
                if r.contains(x) {
                    let i = choose|i: int| 0 <= i < r.len() && r[i] == x;
                    assert(r.push(s.last())[i] == x);
                }
            }
        }
    }
}

/// The text of each string.
pub open spec fn string_views(v: Seq<String>) -> Seq<Seq<char>> {
    v.map_values(|s: String| s@)
}

/// Whether `v` holds a string with the text of `x`.
fn contains_string(v: &Vec<String>, x: &String) -> (b: bool)
    ensures
        b == string_views(v@).contains(x@),
{
    let mut i: usize = 0;
    while i < v.len()
        invariant
            i <= v@.len(),
            forall|j: int| 0 <= j < i ==> v@[j]@ != x@,
        decreases v@.len() - i,
    {
        if v[i] == *x {
            assert(string_views(v@)[i as int] == x@);
            return true;
        }
        i = i + 1;
    }
    assert forall|j: int| 0 <= j < string_views(v@).len() implies string_views(v@)[j] != x@ by {}
    false
}

/// The texture path of slot `k` of a material.
fn slot_of(m: &MaterialTextures, k: usize) -> (r: Option<&String>)
    requires
        k < 5,
    ensures
        match r {
            Some(s) => material_texture_slots(*m)[k as int] == Some(*s),
            None => material_texture_slots(*m)[k as int] is None,
        },
{
    let slot = if k == 0 {
        &m.base_color_texture
    } else if k == 1 {
        &m.specular_roughness_texture
    } else if k == 2 {
        &m.base_metalness_texture
    } else if k == 3 {
        &m.normal_texture
    } else {
        &m.emission_texture
    };
    match slot {
        Some(s) => Some(s),
        None => None,
    }
}

/// The unique resolved texture paths of all materials, in order of first
/// reference. Each path is resolved against its material's source directory,
/// or else against `fallback_base`.
pub fn collect_scene_texture_paths(materials: &Vec<MaterialTextures>, fallback_base: Option<&str>) -> (r: Vec<String>)
    ensures
        string_views(r@) == dedup_first(all_resolved_paths(materials@, opt_view(fallback_base))),
{
    let ghost fb = opt_view(fallback_base);
    let mut paths: Vec<String> = Vec::new();
    let mut i: usize = 0;
    while i < materials.len()
        invariant
            i <= materials@.len(),
            fb == opt_view(fallback_base),
            string_views(paths@) == dedup_first(all_resolved_paths(materials@.take(i as int), fb)),
        decreases materials@.len() - i,
    {
        let m = &materials[i];
        let src = match &m.source_dir {
            Some(d) => Some(d.as_str()),
            None => None,
        };
        assert(opt_view(src) == opt_string_view(m.source_dir));
        let ghost base = all_resolved_paths(materials@.take(i as int), fb);
        let mut k: usize = 0;
        while k < 5
            invariant
                k <= 5,
                fb == opt_view(fallback_base),
                opt_view(src) == opt_string_view(m.source_dir),
                string_views(paths@) == dedup_first(base + resolved_slots(*m, k as int, fb)),
            decreases 5 - k,
        {
            match slot_of(m, k) {
                Some(t) => {
                    let resolved = resolve_texture_path(t.as_str(), src, fallback_base);
                    let ghost s_old = base + resolved_slots(*m, k as int, fb);
                    assert(base + resolved_slots(*m, k + 1, fb) == s_old.push(resolved@));
                    assert(s_old.push(resolved@).drop_last() == s_old);
                    if !contains_string(&paths, &resolved) {
                        let ghost before = paths@;
                        paths.push(resolved);
                        assert(string_views(paths@) == string_views(before).push(
                            string_views(paths@).last(),
                        ));
                    }
                },
                None => {
                    assert(resolved_slots(*m, k + 1, fb) == resolved_slots(*m, k as int, fb));
                },
            }
            k = k + 1;
        }
        assert(materials@.take(i + 1).drop_last() == materials@.take(i as int));
        assert(materials@.take(i + 1).last() == *m);
        i = i + 1;
    }
    assert(materials@.take(materials@.len() as int) == materials@);
    paths
}

} // verus!
