//! Bookkeeping for the double-buffered DMA-BUF textures of a module panel,
//! the memory-type choice for exportable images, and the row layout of a
//! CPU readback of an `Rgba8Unorm` texture.

use vstd::prelude::*;

verus! {

/// DRM fourcc code for ABGR8888, the memory layout of `Rgba8Unorm`
/// (R in byte 0, G in byte 1, B in byte 2, A in byte 3).
pub const DRM_FORMAT_ABGR8888: u32 = 0x34324241;

/// The DRM format fourcc code of the exported textures.
pub fn drm_format() -> (code: u32)
    ensures
        code == DRM_FORMAT_ABGR8888,
{
    DRM_FORMAT_ABGR8888
}

// ── Double buffering ────────────────────────────────────────────────────────

/// A double-buffered pair of textures for one module, with the Stardust
/// dmatex ids of both slots and the timeline point of the shared syncobj.
///
/// `T` is the texture type and `F` the type of the exported syncobj handle.
pub struct ModuleTextures<T, F> {
    pub textures: [T; 2],
    /// Which texture is currently being written (0 or 1).
    pub write_index: usize,
    /// Stardust dmatex ids for each texture slot.
    pub dmatex_ids: [u64; 2],
    /// Current timeline synchronisation point.
    pub timeline_point: u64,
    /// Timeline syncobj handle (shared with the Stardust server).
    pub syncobj_fd: F,
    pub width: u32,
    pub height: u32,
}

impl<T, F> ModuleTextures<T, F> {
    /// The slot index is one of the two slots.
    pub open spec fn well_formed(&self) -> bool {
        self.write_index < 2
    }

    /// The slot that the compositor reads: the one not being written.
    pub open spec fn read_index(&self) -> int {
        1 - self.write_index
    }

    /// The texture that the renderer should draw into this frame.
    pub fn write_texture(&self) -> (t: &T)
        requires
            self.well_formed(),
        ensures
            *t == self.textures@[self.write_index as int],
    {
        &self.textures[self.write_index]
    }

    /// The dmatex id of the texture the compositor should read (the one not
    /// being written).
    pub fn read_dmatex_id(&self) -> (id: u64)
        requires
            self.well_formed(),
        ensures
            id == self.dmatex_ids@[self.read_index()],
    {
        self.dmatex_ids[1 - self.write_index]
    }

    /// Exchange the written and read slots and advance the timeline point.
    pub fn swap(&mut self)
        requires
            old(self).well_formed(),
            old(self).timeline_point < u64::MAX,
        ensures
            final(self).well_formed(),
            final(self).write_index == 1 - old(self).write_index,
            final(self).timeline_point == old(self).timeline_point + 1,
            final(self).textures == old(self).textures,
            final(self).dmatex_ids == old(self).dmatex_ids,
            final(self).syncobj_fd == old(self).syncobj_fd,
            final(self).width == old(self).width,
            final(self).height == old(self).height,
    {
        self.write_index = 1 - self.write_index;
        self.timeline_point = self.timeline_point + 1;
    }
}

/// After a swap, the compositor reads the texture that was just written, and
/// the renderer writes the one the compositor read before.
pub proof fn lemma_swap_publishes_written<T, F>(
    before: ModuleTextures<T, F>,
    after: ModuleTextures<T, F>,
)
    requires
        before.well_formed(),
        after.write_index == 1 - before.write_index,
        after.dmatex_ids == before.dmatex_ids,
    ensures
        after.well_formed(),
        after.dmatex_ids@[after.read_index()] == before.dmatex_ids@[before.write_index as int],
        after.write_index as int == before.read_index(),
{
}

/// Two swaps bring the slots back to where they were.
pub proof fn lemma_swap_twice_restores<T, F>(
    start: ModuleTextures<T, F>,
    mid: ModuleTextures<T, F>,
    end: ModuleTextures<T, F>,
)
    requires
        start.well_formed(),
        mid.write_index == 1 - start.write_index,
        end.write_index == 1 - mid.write_index,
        end.timeline_point == mid.timeline_point + 1,
        mid.timeline_point == start.timeline_point + 1,
    ensures
        end.write_index == start.write_index,
        end.timeline_point == start.timeline_point + 2,
{
}

// ── Memory type choice ──────────────────────────────────────────────────────

/// Bit `i` of `type_bits` is set.
pub open spec fn type_bit_set(type_bits: u32, i: int) -> bool {
    0 <= i < 32 && (type_bits & (1u32 << (i as u32))) != 0
}

/// A set of property flags holds every flag of `required`.
pub open spec fn flags_contain(flags: u32, required: u32) -> bool {
    flags & required == required
}

/// Memory type `i` is both allowed by `type_bits` and has the required flags.
pub open spec fn memory_type_fits(
    type_flags: Seq<u32>,
    type_bits: u32,
    required: u32,
    i: int,
) -> bool {
    0 <= i < type_flags.len() && type_bit_set(type_bits, i) && flags_contain(type_flags[i], required)
}

/// The first memory type, in index order, whose bit is set in `type_bits` and
/// whose property flags (`type_flags[i]`, the raw `VkMemoryPropertyFlags` of
/// memory type `i`) hold all of `required_flags`.
pub fn find_memory_type(type_flags: &[u32], type_bits: u32, required_flags: u32) -> (found:
    Option<usize>)
    requires
        type_flags@.len() <= 32,
    ensures
        match found {
            Some(i) => {
                &&& memory_type_fits(type_flags@, type_bits, required_flags, i as int)
                &&& forall|j: int|
                    0 <= j < i ==> !memory_type_fits(type_flags@, type_bits, required_flags, j)
            },
            None => forall|j: int|
                0 <= j < type_flags@.len() ==> !memory_type_fits(
                    type_flags@,
                    type_bits,
                    required_flags,
                    j,
                ),
        },
{
    let n = type_flags.len();
    let mut i: usize = 0;
    while i < n
        invariant
            n == type_flags@.len(),
            n <= 32,
            i <= n,
            forall|j: int| 0 <= j < i ==> !memory_type_fits(type_flags@, type_bits, required_flags, j),
        decreases n - i,
    {
        let bit: u32 = 1u32 << (i as u32);
        if (type_bits & bit) != 0 && (type_flags[i] & required_flags) == required_flags {
            return Some(i);
        }
        i = i + 1;
    }
    None
}

// ── CPU readback layout ─────────────────────────────────────────────────────

/// Bytes per pixel of an `Rgba8Unorm` texture.
pub const BYTES_PER_PIXEL: u32 = 4;

/// The byte layout of a texture-to-buffer copy: each row of `unpadded` bytes
/// starts at a multiple of `padded`, and the staging buffer holds
/// `buffer_size` bytes.
pub struct ReadbackLayout {
    pub unpadded_bytes_per_row: u32,
    pub padded_bytes_per_row: u32,
    pub buffer_size: u64,
}

/// `n` rounded up to the next multiple of `align`.
pub open spec fn round_up(n: int, align: int) -> int {
    ((n + align - 1) / align) * align
}

/// The staging-buffer layout for reading back a `width` x `height`
/// `Rgba8Unorm` texture when rows must start at multiples of `align`.
pub fn readback_layout(width: u32, height: u32, align: u32) -> (layout: ReadbackLayout)
    requires
        align > 0,
        width * 4 + align <= u32::MAX,
        round_up(width * 4, align as int) * height <= u32::MAX,
    ensures
        layout.unpadded_bytes_per_row == width * 4,
        layout.padded_bytes_per_row == round_up(width * 4, align as int),
        layout.buffer_size == layout.padded_bytes_per_row * height,
        layout.padded_bytes_per_row % align == 0,
        layout.unpadded_bytes_per_row <= layout.padded_bytes_per_row,
        layout.padded_bytes_per_row < layout.unpadded_bytes_per_row + align,
{
    let unpadded = width * BYTES_PER_PIXEL;
    proof {
        lemma_round_up_bounds(unpadded as int, align as int);
        assert(((unpadded + align - 1) as int / align as int) * align as int == round_up(unpadded as int, align as int));
    }
    let padded = (unpadded + align - 1) / align * align;
    let size: u32 = padded * height;
    ReadbackLayout {
        unpadded_bytes_per_row: unpadded,
        padded_bytes_per_row: padded,
        buffer_size: size as u64,
    }
}

proof fn lemma_round_up_bounds(n: int, align: int)
    requires
        n >= 0,
        align > 0,
    ensures
        round_up(n, align) % align == 0,
        n <= round_up(n, align) < n + align,
{
    let q = (n + align - 1) / align;
    let r = (n + align - 1) % align;
    vstd::arithmetic::div_mod::lemma_fundamental_div_mod(n + align - 1, align);
    vstd::arithmetic::div_mod::lemma_mod_multiples_basic(q, align);
    assert(round_up(n, align) == q * align);
    assert(q * align == n + align - 1 - r);
    assert(0 <= r < align) by {
        vstd::arithmetic::div_mod::lemma_mod_pos_bound(n + align - 1, align);
    }
}

/// The tightly packed image read out of a padded staging buffer: for each
/// of `rows` rows, the `unpadded` bytes that start at `row * padded`.
pub open spec fn unpadded_image(mapped: Seq<u8>, unpadded: int, padded: int, rows: int) -> Seq<u8>
    decreases rows,
{
    if rows <= 0 {
        Seq::empty()
    } else {
        let start = (rows - 1) * padded;
        unpadded_image(mapped, unpadded, padded, rows - 1) + mapped.subrange(start, start + unpadded)
    }
}

proof fn lemma_unpadded_image_len(mapped: Seq<u8>, unpadded: int, padded: int, rows: int)
    requires
        rows >= 0,
        unpadded >= 0,
        padded >= 0,
        rows == 0 || (rows - 1) * padded + unpadded <= mapped.len(),
    ensures
        unpadded_image(mapped, unpadded, padded, rows).len() == rows * unpadded,
    decreases rows,
{
    if rows > 0 {
        if rows > 1 {
            assert((rows - 2) * padded <= (rows - 1) * padded) by (nonlinear_arith)
                requires
                    rows >= 2,
                    padded >= 0,
            ;
        }
        lemma_unpadded_image_len(mapped, unpadded, padded, rows - 1);
        assert((rows - 1) * unpadded + unpadded == rows * unpadded) by (nonlinear_arith);
    }
}

/// Each byte of the unpacked image is the staging byte at the same column
/// of the same row: byte `c` of row `r` comes from `r * padded + c`.
pub proof fn lemma_unpadded_image_bytes(mapped: Seq<u8>, unpadded: int, padded: int, rows: int)
    requires
        rows >= 0,
        unpadded >= 0,
        padded >= 0,
        rows == 0 || (rows - 1) * padded + unpadded <= mapped.len(),
    ensures
        forall|r: int, c: int|
            #![trigger unpadded_image(mapped, unpadded, padded, rows)[r * unpadded + c]]
            0 <= r < rows && 0 <= c < unpadded ==> unpadded_image(mapped, unpadded, padded, rows)[r
                * unpadded + c] == mapped[r * padded + c],
    decreases rows,
{
    if rows > 0 {
        if rows > 1 {
            assert((rows - 2) * padded <= (rows - 1) * padded) by (nonlinear_arith)
                requires
                    rows >= 2,
                    padded >= 0,
            ;
        }
        lemma_unpadded_image_bytes(mapped, unpadded, padded, rows - 1);
        lemma_unpadded_image_len(mapped, unpadded, padded, rows - 1);
        let prev = unpadded_image(mapped, unpadded, padded, rows - 1);
        let start = (rows - 1) * padded;
        let row = mapped.subrange(start, start + unpadded);
        assert(unpadded_image(mapped, unpadded, padded, rows) == prev + row);
        assert forall|r: int, c: int|
            0 <= r < rows && 0 <= c < unpadded implies #[trigger] unpadded_image(
                mapped,
                unpadded,
                padded,
                rows,
            )[r * unpadded + c] == mapped[r * padded + c] by {
            if r < rows - 1 {
                assert(r * unpadded + c < (rows - 1) * unpadded) by (nonlinear_arith)
                    requires
                        0 <= r < rows - 1,
                        0 <= c < unpadded,
                ;
                assert(0 <= r * unpadded) by (nonlinear_arith)
                    requires
                        0 <= r,
                        0 <= unpadded,
                ;
                assert((prev + row)[r * unpadded + c] == prev[r * unpadded + c]);
            } else {
                assert(r * unpadded + c - prev.len() == c);
                assert(r * padded == start);
                assert((prev + row)[r * unpadded + c] == row[c]);
            }
        }
    }
}

/// Copy the first `unpadded` bytes of each of the `height` rows of a staging
/// buffer whose rows start every `padded` bytes into one packed buffer.
pub fn unpad_rows(mapped: &[u8], unpadded: usize, padded: usize, height: usize) -> (pixels: Vec<u8>)
    requires
        height == 0 || (height - 1) * padded + unpadded <= mapped@.len(),
    ensures
        pixels@ == unpadded_image(mapped@, unpadded as int, padded as int, height as int),
        pixels@.len() == height * unpadded,
        forall|r: int, c: int|
            #![trigger pixels@[r * unpadded + c]]
            0 <= r < height && 0 <= c < unpadded ==> pixels@[r * unpadded + c] == mapped@[r * padded
                + c],
{
    let total = mapped.len();
    let mut pixels: Vec<u8> = Vec::new();
    let mut row: usize = 0;
    while row < height
        invariant
            total == mapped@.len(),
            row <= height,
            height == 0 || (height - 1) * padded + unpadded <= mapped@.len(),
            pixels@ == unpadded_image(mapped@, unpadded as int, padded as int, row as int),
        decreases height - row,
    {
        assert(row * padded <= (height - 1) * padded) by (nonlinear_arith)
            requires
                row < height,
        ;
        let row_start = row * padded;
        let row_end = row_start + unpadded;
        let ghost before = pixels@;
        let mut k: usize = row_start;
        while k < row_end
            invariant
                row_start <= k <= row_end,
                row_end <= mapped@.len(),
                pixels@ == before + mapped@.subrange(row_start as int, k as int),
            decreases row_end - k,
        {
            pixels.push(mapped[k]);
            assert(mapped@.subrange(row_start as int, k + 1) == mapped@.subrange(
                row_start as int,
                k as int,
            ).push(mapped@[k as int]));
            k = k + 1;
        }
        assert(unpadded_image(mapped@, unpadded as int, padded as int, row + 1) == before
            + mapped@.subrange(row_start as int, row_start + unpadded));
        row = row + 1;
    }
    proof {
        lemma_unpadded_image_len(mapped@, unpadded as int, padded as int, height as int);
        lemma_unpadded_image_bytes(mapped@, unpadded as int, padded as int, height as int);
    }
    pixels
}

// ── DRM render node search ──────────────────────────────────────────────────

/// The first render-node minor number that is scanned when the device does
/// not name its own, and one past the last.
pub const RENDER_NODE_SCAN_START: u64 = 128;
pub const RENDER_NODE_SCAN_END: u64 = 144;

/// The render-node minors to try opening, in order: the one the device
/// reports (if any), then every minor of the scan range.
pub fn render_node_candidates(device_minor: Option<u64>) -> (minors: Vec<u64>)
    ensures
        minors@ == match device_minor {
            Some(m) => seq![m] + Seq::new(16, |i: int| (128 + i) as u64),
            None => Seq::new(16, |i: int| (128 + i) as u64),
        },
{
    let mut minors: Vec<u64> = Vec::new();
    if let Some(m) = device_minor {
        minors.push(m);
    }
    let ghost base = minors@;
    let mut i: u64 = RENDER_NODE_SCAN_START;
    while i < RENDER_NODE_SCAN_END
        invariant
            128 <= i <= 144,
            minors@ == base + Seq::new((i - 128) as nat, |k: int| (128 + k) as u64),
        decreases 144 - i,
    {
        minors.push(i);
        assert(base + Seq::new((i + 1 - 128) as nat, |k: int| (128 + k) as u64) == (base + Seq::new(
            (i - 128) as nat,
            |k: int| (128 + k) as u64,
        )).push(i));
        i = i + 1;
    }
    minors
}

} // verus!
