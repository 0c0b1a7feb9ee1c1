//! The GPU pipeline as far as it is plain bookkeeping: which textures it needs and how its
//! output is laid out in memory.

use vstd::prelude::*;
use vstd::slice::slice_subrange;

use crate::capture::CapturedFrame;
use crate::ieee::Single;
use crate::render;
use crate::render::{Renderer, Uniforms};

verus! {

/// Rows that the GPU hands back start at multiples of this many bytes.
pub const ROW_ALIGNMENT: u32 = 256;

/// The number of indices that the display's two triangles have.
pub const QUAD_INDICES: u32 = 6;

/// `padded` is the least multiple of the alignment that is not below `n`.
pub open spec fn is_aligned_up(n: int, padded: int) -> bool {
    &&& padded % ROW_ALIGNMENT as int == 0
    &&& n <= padded < n + ROW_ALIGNMENT
}

/// `n`, brought up to a multiple of the alignment.
pub open spec fn aligned_up(n: int) -> int {
    (n + ROW_ALIGNMENT - 1) / ROW_ALIGNMENT as int * ROW_ALIGNMENT
}

/// The first `count` rows, without what stands between their ends and the next rows.
pub open spec fn packed_rows(data: Seq<u8>, padded: int, row_bytes: int, count: int) -> Seq<u8>
    decreases count,
{
    if count <= 0 {
        Seq::empty()
    } else {
        let start = (count - 1) * padded;
        packed_rows(data, padded, row_bytes, count - 1) + data.subrange(start, start + row_bytes)
    }
}

/// How a frame goes to its texture.
#[derive(Debug, Clone, Copy, PartialEq, Eq, Structural)]
pub struct UploadPlan {
    /// Whether a texture has to be made for it first.
    pub new_texture: bool,
    pub width: u32,
    pub height: u32,
    pub bytes_per_row: u32,
    pub rows_per_image: u32,
}

/// How the output comes back.
#[derive(Debug, Clone, Copy, PartialEq, Eq, Structural)]
pub struct ReadbackLayout {
    /// Bytes of a row.
    pub bytes_per_row: u32,
    /// Bytes from one row to the next.
    pub padded_bytes_per_row: u32,
    /// Bytes of all rows.
    pub buffer_size: u64,
}

/// The state of a pipeline.
#[derive(Debug, Clone, Copy, PartialEq, Eq)]
pub struct GpuPipeline {
    /// The sides of the frame texture, where there is one.
    pub frame_texture: Option<(u32, u32)>,
    pub num_indices: u32,
    /// The sides of the output.
    pub width: u32,
    pub height: u32,
}

/// How a frame of the given sides and stride goes to its texture.
pub open spec fn planned(p: GpuPipeline, width: u32, height: u32, stride: u32) -> UploadPlan {
    UploadPlan {
        new_texture: p.frame_texture != Some((width, height)),
        width,
        height,
        bytes_per_row: stride,
        rows_per_image: height,
    }
}

/// The pipeline with a texture of the given sides.
pub open spec fn uploaded(p: GpuPipeline, width: u32, height: u32) -> GpuPipeline {
    GpuPipeline { frame_texture: Some((width, height)), ..p }
}

/// `l` is how the output of the pipeline comes back.
pub open spec fn comes_back(p: GpuPipeline, l: ReadbackLayout) -> bool {
    &&& l.bytes_per_row == 4 * p.width
    &&& l.padded_bytes_per_row == aligned_up(4 * p.width)
    &&& l.buffer_size == l.padded_bytes_per_row * p.height
}

/// The pixels of the output, given the buffer that it came back in.
pub open spec fn output_pixels(p: GpuPipeline, data: Seq<u8>) -> Seq<u8> {
    packed_rows(data, aligned_up(4 * p.width), 4 * p.width, p.height as int)
}

impl GpuPipeline {
    /// The output can be read back into one buffer.
    pub open spec fn fits(self) -> bool {
        &&& 4 * self.width + 255 <= u32::MAX
        &&& aligned_up(4 * self.width) * self.height <= u32::MAX
    }

    /// A pipeline with an output of the given size and no frame.
    pub fn new(width: u32, height: u32) -> (r: Self)
        ensures
            r == (GpuPipeline { frame_texture: None, num_indices: QUAD_INDICES, width, height }),
    {
        let (_, indices) = Renderer::quad_vertices();
        GpuPipeline { frame_texture: None, num_indices: indices.len() as u32, width, height }
    }

    /// Whether the output can be read back into one buffer.
    pub fn can_read_back(&self) -> (r: bool)
        ensures
            r == self.fits(),
    {
        let sum: u64 = 4 * self.width as u64 + 255;
        if sum > 0xffff_ffff {
            return false;
        }
        let padded: u64 = sum / 256 * 256;
        let h: u64 = self.height as u64;
        assert(0 <= padded * h <= 0xffff_ffff * 0xffff_ffff) by (nonlinear_arith)
            requires
                0 <= padded <= 0xffff_ffff,
                0 <= h <= 0xffff_ffff,
        ;
        padded * h <= 0xffff_ffff
    }

    /// Whether there is a frame to draw.
    pub fn has_frame(&self) -> (r: bool)
        ensures
            r == (self.frame_texture is Some),
    {
        self.frame_texture.is_some()
    }

    /// Takes a frame: the texture is kept as long as the frames have its size.
    pub fn upload_frame(&mut self, frame: &CapturedFrame) -> (r: UploadPlan)
        ensures
            r == planned(*old(self), frame.width, frame.height, frame.stride),
            *final(self) == uploaded(*old(self), frame.width, frame.height),
            r == (UploadPlan {
                new_texture: old(self).frame_texture != Some((frame.width, frame.height)),
                width: frame.width,
                height: frame.height,
                bytes_per_row: frame.stride,
                rows_per_image: frame.height,
            }),
            *final(self) == (GpuPipeline {
                frame_texture: Some((frame.width, frame.height)),
                ..*old(self)
            }),
    {
        let new_texture: bool = match self.frame_texture {
            Some((w, h)) => w != frame.width || h != frame.height,
            None => true,
        };
        if new_texture {
            self.frame_texture = Some((frame.width, frame.height));
        }
        UploadPlan {
            new_texture,
            width: frame.width,
            height: frame.height,
            bytes_per_row: frame.stride,
            rows_per_image: frame.height,
        }
    }

    /// The bytes of the uniform buffer for a transform with the given columns.
    pub fn update_mvp(&self, columns: [[Single; 4]; 4]) -> (r: Vec<u8>)
        ensures
            render::words_in_memory((Uniforms { mvp: columns }).words(), r@),
    {
        Uniforms::from_mat4(columns).to_bytes()
    }

    /// How the output comes back: in rows of four bytes per pixel, each brought up to a multiple
    /// of the alignment.
    pub fn readback_layout(&self) -> (r: ReadbackLayout)
        requires
            self.fits(),
        ensures
            comes_back(*self, r),
            r.bytes_per_row == 4 * self.width,
            r.padded_bytes_per_row == aligned_up(4 * self.width),
            is_aligned_up(4 * self.width, r.padded_bytes_per_row as int),
            r.buffer_size == r.padded_bytes_per_row * self.height,
    {
        let bytes_per_row: u32 = 4 * self.width;
        let sum: u32 = bytes_per_row + 255;
        let padded_bytes_per_row: u32 = sum & !255u32;
        assert(sum & !255u32 == sum - sum % 256) by (bit_vector);
        assert(0 <= padded_bytes_per_row * self.height);
        ReadbackLayout {
            bytes_per_row,
            padded_bytes_per_row,
            buffer_size: (padded_bytes_per_row * self.height) as u64,
        }
    }

    /// The pixels of the output, given the buffer that it came back in: its rows without the
    /// padding.
    pub fn render_frame(&self, data: &[u8]) -> (r: Vec<u8>)
        requires
            self.fits(),
            data@.len() >= aligned_up(4 * self.width) * self.height,
        ensures
            r@ == output_pixels(*self, data@),
            r@ == packed_rows(
                data@,
                aligned_up(4 * self.width),
                4 * self.width,
                self.height as int,
            ),
            r@.len() == 4 * self.width * self.height,
    {
        let layout = self.readback_layout();
        assert(data.len() == data@.len());
        let padded: u32 = layout.padded_bytes_per_row;
        let row_bytes: u32 = layout.bytes_per_row;
        let mut pixels: Vec<u8> = Vec::new();
        let mut row: u32 = 0;
        while row < self.height
            invariant
                row <= self.height,
                padded * self.height <= data@.len() <= usize::MAX,
                padded * self.height <= u32::MAX,
                row_bytes <= padded,
                pixels@ == packed_rows(data@, padded as int, row_bytes as int, row as int),
                pixels@.len() == row_bytes * row,
            decreases self.height - row,
        {
            assert(0 <= row * padded && row * padded + padded <= padded * self.height)
                by (nonlinear_arith)
                requires
                    0 <= row < self.height,
                    0 <= padded,
            ;
            let start: usize = (row * padded) as usize;
            let end: usize = start + row_bytes as usize;
            let ghost before = pixels@;
            let part = slice_subrange(data, start, end);
            pixels.extend_from_slice(part);
            assert(pixels@ =~= before + part@);
            assert(row_bytes * row + row_bytes == row_bytes * (row + 1)) by (nonlinear_arith);
            row = row + 1;
        }
        assert(row_bytes * self.height == 4 * self.width * self.height) by (nonlinear_arith)
            requires
                row_bytes == 4 * self.width,
        ;
        pixels
    }
}

// ---- Laws ----

/// Bringing a size up to the alignment adds less than one step, and nothing to a multiple.
pub proof fn alignment_is_least(n: int)
    requires
        0 <= n,
    ensures
        is_aligned_up(n, aligned_up(n)),
        forall|m: int| is_aligned_up(n, m) ==> m == aligned_up(n),
        n % ROW_ALIGNMENT as int == 0 ==> aligned_up(n) == n,
{
}

/// Rows without padding come back as they are.
pub proof fn tight_rows_are_kept(data: Seq<u8>, row_bytes: int, count: int)
    requires
        0 <= row_bytes,
        0 <= count,
        count * row_bytes <= data.len(),
    ensures
        0 <= count * row_bytes,
        packed_rows(data, row_bytes, row_bytes, count) == data.take(count * row_bytes),
    decreases count,
{
    if count == 0 {
        assert(count * row_bytes == 0) by (nonlinear_arith)
            requires
                count == 0,
        ;
        assert(data.take(0) =~= Seq::<u8>::empty());
    } else {
        let start = (count - 1) * row_bytes;
        assert(start + row_bytes == count * row_bytes) by (nonlinear_arith)
            requires
                start == (count - 1) * row_bytes,
        ;
        tight_rows_are_kept(data, row_bytes, count - 1);
        assert(data.take(start) + data.subrange(start, start + row_bytes) =~= data.take(
            count * row_bytes,
        ));
    }
}

/// A texture is made exactly where there is none of the frame's size, so a second frame of the
/// same size makes none; the frame goes to it whole, by its own sides and stride.
pub proof fn textures_have_the_size_of_the_frame(
    p: GpuPipeline,
    width: u32,
    height: u32,
    stride: u32,
)
    ensures
        planned(p, width, height, stride).new_texture <==> (p.frame_texture matches Some((w, h))
            ==> w != width || h != height),
        !planned(uploaded(p, width, height), width, height, stride).new_texture,
        planned(p, width, height, stride).width == width,
        planned(p, width, height, stride).height == height,
        planned(p, width, height, stride).bytes_per_row == stride,
        planned(p, width, height, stride).rows_per_image == height,
        uploaded(p, width, height).width == p.width,
        uploaded(p, width, height).height == p.height,
        uploaded(p, width, height).num_indices == p.num_indices,
        uploaded(p, width, height).frame_texture == Some((width, height)),
{
}

/// Rows come back four bytes a pixel, each brought up to the next multiple of 256 bytes, and the
/// buffer holds them all.
pub proof fn rows_come_back_aligned(p: GpuPipeline, l: ReadbackLayout)
    requires
        comes_back(p, l),
    ensures
        l.bytes_per_row == 4 * p.width,
        l.padded_bytes_per_row % 256 == 0,
        4 * p.width <= l.padded_bytes_per_row < 4 * p.width + 256,
        l.buffer_size == l.padded_bytes_per_row * p.height,
{
}

/// An output can be read back exactly if its rows, brought up to the alignment, fit 32 bits one
/// by one and together.
pub proof fn outputs_that_can_come_back(p: GpuPipeline, padded: int)
    requires
        padded % 256 == 0,
        4 * p.width <= padded < 4 * p.width + 256,
    ensures
        p.fits() <==> 4 * p.width + 255 <= 0xffff_ffff && padded * p.height <= 0xffff_ffff,
{
    assert(aligned_up(4 * p.width) == padded);
}

proof fn packed_bytes(
    data: Seq<u8>,
    padded: int,
    row_bytes: int,
    count: int,
    row: int,
    k: int,
)
    requires
        0 <= row_bytes <= padded,
        0 <= count,
        count * padded <= data.len(),
    ensures
        packed_rows(data, padded, row_bytes, count).len() == count * row_bytes,
        0 <= row < count && 0 <= k < row_bytes ==> packed_rows(data, padded, row_bytes, count)[row
            * row_bytes + k] == data[row * padded + k],
    decreases count,
{
    if count == 0 {
        assert(count * row_bytes == 0) by (nonlinear_arith)
            requires
                count == 0,
        ;
    } else {
        let start = (count - 1) * padded;
        assert(0 <= start && start + padded == count * padded) by (nonlinear_arith)
            requires
                start == (count - 1) * padded,
                1 <= count,
                0 <= padded,
        ;
        assert((count - 1) * row_bytes + row_bytes == count * row_bytes) by (nonlinear_arith);
        packed_bytes(data, padded, row_bytes, count - 1, row, k);
        if 0 <= row < count - 1 && 0 <= k < row_bytes {
            assert(0 <= row * row_bytes && row * row_bytes + row_bytes <= (count - 1) * row_bytes)
                by (nonlinear_arith)
                requires
                    0 <= row < count - 1,
                    0 <= row_bytes,
            ;
        }
    }
}

/// Byte `k` of row `y` of the output is byte `k` of the row that came back, for every byte of
/// every row, whatever its value.
pub proof fn output_has_the_bytes_that_came_back(
    p: GpuPipeline,
    data: Seq<u8>,
    padded: int,
    y: int,
    k: int,
)
    requires
        padded % 256 == 0,
        4 * p.width <= padded < 4 * p.width + 256,
        p.height * padded <= data.len(),
        0 <= y < p.height,
        0 <= k < 4 * p.width,
    ensures
        output_pixels(p, data).len() == p.height * (4 * p.width),
        output_pixels(p, data)[y * (4 * p.width) + k] == data[y * padded + k],
{
    assert(aligned_up(4 * p.width) == padded);
    packed_bytes(data, padded, 4 * p.width, p.height as int, y, k);
}

} // verus!
