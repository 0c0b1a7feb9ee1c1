//! Screen capture through a region of shared memory that a helper process fills.
//!
//! The region starts with a header of 32 bytes, little-endian throughout:
//!   bytes 0 to 3    the magic number 0x42434150
//!   bytes 4 to 7    width in pixels
//!   bytes 8 to 11   height in pixels
//!   bytes 12 to 15  stride: bytes from one row to the next
//!   bytes 16 to 19  format: 0 is BGRx, 1 is RGBx, 2 is BGRA, 3 is RGBA
//!   bytes 20 to 23  sequence number of the frame
//!   bytes 24 to 31  monotonic time stamp in nanoseconds
//! The pixels, height times stride bytes, follow.

use vstd::prelude::*;
use vstd::slice::slice_subrange;
use vstd::string::*;

use crate::bytes;
use crate::bytes::{copy_bytes, read_u32, read_u64};
use crate::pixels;
use crate::pixels::push_as_rgba;

verus! {

/// Length of the header.
pub const HEADER_SIZE: usize = 32;

/// The number that a filled region starts with.
pub const MAGIC: u32 = 0x4243_4150;

/// The byte that separates the parts of a path.
pub const SLASH: u8 = 47;

/// How long the helper may take until it delivers its first frame.
pub const INIT_TIMEOUT_NANOS: u128 = 120_000_000_000;

/// How long to wait between two looks at the region.
pub const INIT_POLL_MILLIS: u64 = 200;

/// A captured frame, ready for the GPU.
#[derive(Debug)]
pub struct CapturedFrame {
    /// Rows of pixels, one right behind the other.
    pub data: Vec<u8>,
    /// Width in pixels.
    pub width: u32,
    /// Height in pixels.
    pub height: u32,
    /// Bytes from one row to the next.
    pub stride: u32,
    /// Pixel format.
    pub format: PixelFormat,
    /// Monotonic time stamp of the capture.
    pub timestamp_ns: u64,
}

/// The order of the channels in a 32-bit pixel, from the highest byte to the lowest.
#[derive(Debug, Clone, Copy, PartialEq, Eq, Structural)]
pub enum PixelFormat {
    Argb8888,
    Xrgb8888,
    Abgr8888,
    Xbgr8888,
}

impl PixelFormat {
    /// The format that a code in the header stands for; pixels of an unknown code are taken for
    /// RGBA already.
    pub open spec fn coded(code: int) -> PixelFormat {
        if code == 0 {
            PixelFormat::Xrgb8888
        } else if code == 1 {
            PixelFormat::Xbgr8888
        } else if code == 2 {
            PixelFormat::Argb8888
        } else {
            PixelFormat::Abgr8888
        }
    }

    /// The format that a code in the header stands for.
    pub fn from_code(code: u32) -> (r: PixelFormat)
        ensures
            r == PixelFormat::coded(code as int),
    {
        match code {
            0 => PixelFormat::Xrgb8888,
            1 => PixelFormat::Xbgr8888,
            2 => PixelFormat::Argb8888,
            _ => PixelFormat::Abgr8888,
        }
    }

    /// Bytes per pixel.
    pub fn bpp(&self) -> (r: u32)
        ensures
            r == 4,
    {
        4
    }

    /// Whether the channels must be reordered to become RGBA.
    pub fn needs_swizzle(&self) -> (r: bool)
        ensures
            r == (*self == PixelFormat::Argb8888 || *self == PixelFormat::Xrgb8888),
    {
        matches!(self, PixelFormat::Argb8888 | PixelFormat::Xrgb8888)
    }

    /// Whether a pixel's fourth byte is its opacity; otherwise it is unused.
    pub fn has_opacity(&self) -> (r: bool)
        ensures
            r == (*self == PixelFormat::Argb8888 || *self == PixelFormat::Abgr8888),
    {
        matches!(self, PixelFormat::Argb8888 | PixelFormat::Abgr8888)
    }

    /// A row of pixels of this format as pixels of red, green, blue and opacity.
    pub open spec fn to_rgba(self, row: Seq<u8>) -> Seq<u8> {
        match self {
            PixelFormat::Xrgb8888 => pixels::bgrx_to_rgba(row),
            PixelFormat::Xbgr8888 => pixels::rgbx_to_rgba(row),
            PixelFormat::Argb8888 => pixels::red_blue_exchanged(row),
            PixelFormat::Abgr8888 => row,
        }
    }
}

// ---- The shared region ----

/// The magic number; 0 where the region is too short for a header.
pub open spec fn magic_of(region: Seq<u8>) -> int {
    if region.len() < HEADER_SIZE {
        0
    } else {
        bytes::le_u32(region, 0)
    }
}

pub open spec fn width_of(region: Seq<u8>) -> int {
    bytes::le_u32(region, 4)
}

pub open spec fn height_of(region: Seq<u8>) -> int {
    bytes::le_u32(region, 8)
}

pub open spec fn stride_of(region: Seq<u8>) -> int {
    bytes::le_u32(region, 12)
}

pub open spec fn format_of(region: Seq<u8>) -> int {
    bytes::le_u32(region, 16)
}

pub open spec fn sequence_of(region: Seq<u8>) -> int {
    bytes::le_u32(region, 20)
}

pub open spec fn timestamp_of(region: Seq<u8>) -> int {
    bytes::le_u64(region, 24)
}

/// The pixels behind the header: height times stride bytes, or none where the region does not
/// hold as many.
pub open spec fn pixels_of(region: Seq<u8>) -> Seq<u8> {
    let end = HEADER_SIZE + height_of(region) * stride_of(region);
    if end <= region.len() {
        region.subrange(HEADER_SIZE as int, end)
    } else {
        Seq::empty()
    }
}

/// A view of the shared region.
pub struct ShmReader<'a> {
    pub mmap: &'a [u8],
}

impl<'a> ShmReader<'a> {
    /// The magic number, 0 where there is no whole header.
    pub fn magic(&self) -> (r: u32)
        ensures
            r == magic_of(self.mmap@),
    {
        if self.mmap.len() < HEADER_SIZE {
            return 0;
        }
        read_u32(self.mmap, 0)
    }

    pub fn width(&self) -> (r: u32)
        requires
            self.mmap@.len() >= 8,
        ensures
            r == width_of(self.mmap@),
    {
        read_u32(self.mmap, 4)
    }

    pub fn height(&self) -> (r: u32)
        requires
            self.mmap@.len() >= 12,
        ensures
            r == height_of(self.mmap@),
    {
        read_u32(self.mmap, 8)
    }

    pub fn stride(&self) -> (r: u32)
        requires
            self.mmap@.len() >= 16,
        ensures
            r == stride_of(self.mmap@),
    {
        read_u32(self.mmap, 12)
    }

    pub fn format_code(&self) -> (r: u32)
        requires
            self.mmap@.len() >= 20,
        ensures
            r == format_of(self.mmap@),
    {
        read_u32(self.mmap, 16)
    }

    pub fn frame_seq(&self) -> (r: u32)
        requires
            self.mmap@.len() >= 24,
        ensures
            r == sequence_of(self.mmap@),
    {
        read_u32(self.mmap, 20)
    }

    pub fn timestamp_ns(&self) -> (r: u64)
        requires
            self.mmap@.len() >= HEADER_SIZE,
        ensures
            r == timestamp_of(self.mmap@),
    {
        read_u64(self.mmap, 24)
    }

    /// The pixels behind the header.
    pub fn pixel_data(&self) -> (r: &'a [u8])
        requires
            self.mmap@.len() >= 16,
        ensures
            r@ == pixels_of(self.mmap@),
    {
        let h: u32 = self.height();
        let s: u32 = self.stride();
        assert(0 <= h * s <= 0xffff_fffe_0000_0001) by (nonlinear_arith)
            requires
                0 <= h <= 0xffff_ffff,
                0 <= s <= 0xffff_ffff,
        ;
        let size: u64 = h as u64 * s as u64;
        let n: usize = self.mmap.len();
        if size + HEADER_SIZE as u64 <= n as u64 {
            slice_subrange(self.mmap, HEADER_SIZE, HEADER_SIZE + size as usize)
        } else {
            let nothing = slice_subrange(self.mmap, 0, 0);
            assert(nothing@ =~= Seq::<u8>::empty());
            nothing
        }
    }
}

// ---- Frames ----

/// Row `row` ends within `total` bytes.
pub open spec fn row_fits(total: int, stride: int, row_bytes: int, row: int) -> bool {
    row * stride + row_bytes <= total
}

/// The first row from `row` on that does not end within `total` bytes, or the height.
pub open spec fn rows_upto(total: int, stride: int, row_bytes: int, height: int, row: int) -> int
    decreases height - row,
{
    if row >= height || !row_fits(total, stride, row_bytes, row) {
        row
    } else {
        rows_upto(total, stride, row_bytes, height, row + 1)
    }
}

/// The first `count` rows as RGBA, without what stands between their ends and the next rows.
pub open spec fn rgba_rows(
    pixels: Seq<u8>,
    format: PixelFormat,
    stride: int,
    row_bytes: int,
    count: int,
) -> Seq<u8>
    decreases count,
{
    if count <= 0 {
        Seq::empty()
    } else {
        let start = (count - 1) * stride;
        rgba_rows(pixels, format, stride, row_bytes, count - 1) + format.to_rgba(
            pixels.subrange(start, start + row_bytes),
        )
    }
}

/// The pixels of a region as a frame shows them: the rows that the region holds, each as RGBA,
/// one right behind the other.
pub open spec fn frame_data(region: Seq<u8>) -> Seq<u8> {
    let all = pixels_of(region);
    let row_bytes = 4 * width_of(region);
    let stride = stride_of(region);
    rgba_rows(
        all,
        PixelFormat::coded(format_of(region)),
        stride,
        row_bytes,
        rows_upto(all.len() as int, stride, row_bytes, height_of(region), 0),
    )
}

/// Why there is no frame.
#[derive(Debug, Clone, Copy, PartialEq, Eq, Structural)]
pub enum CaptureError {
    /// The capture was not started.
    NotInitialized,
    /// The region does not start with the magic number.
    InvalidMagic,
    /// The region holds no pixels, or fewer than its header says.
    EmptyPixels,
}

/// What to do after a look at the helper and its region.
#[derive(Debug, Clone, Copy, PartialEq, Eq, Structural)]
pub enum InitAction {
    /// The capture has started.
    Ready,
    /// Look again after so many milliseconds.
    Wait { millis: u64 },
    /// Give up: the time is over, and the helper has exited.
    FailExited,
    /// Give up: the time is over, and the helper has delivered no frame.
    FailTimeout,
    /// Give up: the helper has exited before its time was over.
    FailExitedEarly,
}

/// A capture of the named output.
pub struct ScreenCapture {
    pub target_output: String,
    pub width: u32,
    pub height: u32,
    pub source_type: String,
    /// Whether the helper has delivered a frame.
    pub attached: bool,
    /// The sequence number of the last frame.
    pub last_seq: u32,
}

/// The region holds a frame: its magic number is right and its sequence number is not 0.
pub open spec fn holds_frame(region: Seq<u8>) -> bool {
    magic_of(region) == MAGIC && sequence_of(region) > 0
}

/// What to do after `elapsed` nanoseconds, given the region, where it could be mapped, and
/// whether the helper has exited.
pub open spec fn init_action(elapsed: int, region: Option<Seq<u8>>, exited: bool) -> InitAction {
    if elapsed > INIT_TIMEOUT_NANOS {
        if exited {
            InitAction::FailExited
        } else {
            InitAction::FailTimeout
        }
    } else if region is Some && holds_frame(region->0) {
        InitAction::Ready
    } else if exited {
        InitAction::FailExitedEarly
    } else {
        InitAction::Wait { millis: INIT_POLL_MILLIS }
    }
}

/// The outcome of a look at the region of a capture.
pub open spec fn captured(
    before: ScreenCapture,
    region: Seq<u8>,
    after: ScreenCapture,
    r: Result<CapturedFrame, CaptureError>,
) -> bool {
    if !before.attached {
        r == Err::<CapturedFrame, CaptureError>(CaptureError::NotInitialized) && after == before
    } else if magic_of(region) != MAGIC {
        r == Err::<CapturedFrame, CaptureError>(CaptureError::InvalidMagic) && after == before
    } else {
        &&& after == (ScreenCapture { last_seq: sequence_of(region) as u32, ..before })
        &&& if pixels_of(region).len() == 0 {
            r == Err::<CapturedFrame, CaptureError>(CaptureError::EmptyPixels)
        } else {
            &&& r matches Ok(frame)
            &&& frame.data@ == frame_data(region)
            &&& frame.width == width_of(region)
            &&& frame.height == height_of(region)
            &&& frame.stride == 4 * width_of(region)
            &&& frame.format == PixelFormat::Abgr8888
            &&& frame.timestamp_ns == timestamp_of(region)
        }
    }
}

impl ScreenCapture {
    /// A capture of the named output that has not started.
    pub fn new(output_name: &str, width: u32, height: u32, source: &str) -> (r: Self)
        ensures
            r.target_output@ == output_name@,
            r.width == width,
            r.height == height,
            r.source_type@ == source@,
            !r.attached,
            r.last_seq == 0,
    {
        ScreenCapture {
            target_output: output_name.to_owned(),
            width,
            height,
            source_type: source.to_owned(),
            attached: false,
            last_seq: 0,
        }
    }

    /// One look at a helper that was launched `elapsed_nanos` ago: its region, where it could be
    /// mapped, and whether it has exited.
    pub fn init(&mut self, elapsed_nanos: u128, region: Option<&[u8]>, exited: bool) -> (r:
        InitAction)
        ensures
            r == init_action(
                elapsed_nanos as int,
                match region {
                    Some(s) => Some(s@),
                    None => None,
                },
                exited,
            ),
            *final(self) == (ScreenCapture {
                attached: old(self).attached || r == InitAction::Ready,
                ..*old(self)
            }),
    {
        if elapsed_nanos > INIT_TIMEOUT_NANOS {
            if exited {
                return InitAction::FailExited;
            }
            return InitAction::FailTimeout;
        }
        if let Some(s) = region {
            let reader = ShmReader { mmap: s };
            if reader.magic() == MAGIC && reader.frame_seq() > 0 {
                self.attached = true;
                return InitAction::Ready;
            }
        }
        if exited {
            return InitAction::FailExitedEarly;
        }
        InitAction::Wait { millis: INIT_POLL_MILLIS }
    }

    /// Takes the current frame out of the region.
    pub fn capture_frame(&mut self, region: &[u8]) -> (r: Result<CapturedFrame, CaptureError>)
        requires
            old(self).attached && magic_of(region@) == MAGIC && pixels_of(region@).len() > 0
                ==> 4 * width_of(region@) <= u32::MAX,
        ensures
            captured(*old(self), region@, *final(self), r),
    {
        if !self.attached {
            return Err(CaptureError::NotInitialized);
        }
        let reader = ShmReader { mmap: region };
        if reader.magic() != MAGIC {
            return Err(CaptureError::InvalidMagic);
        }
        self.last_seq = reader.frame_seq();
        let width: u32 = reader.width();
        let height: u32 = reader.height();
        let stride: u32 = reader.stride();
        let timestamp_ns: u64 = reader.timestamp_ns();
        let format = PixelFormat::from_code(reader.format_code());
        let pixel_data = reader.pixel_data();
        if pixel_data.len() == 0 {
            return Err(CaptureError::EmptyPixels);
        }
        let data = rgba_of_rows(pixel_data, format, width, height, stride);
        Ok(
            CapturedFrame {
                data,
                width,
                height,
                stride: width * 4,
                format: PixelFormat::Abgr8888,
                timestamp_ns,
            },
        )
    }
}

/// The rows that `pixel_data` holds whole, as RGBA.
fn rgba_of_rows(
    pixel_data: &[u8],
    format: PixelFormat,
    width: u32,
    height: u32,
    stride: u32,
) -> (r: Vec<u8>)
    requires
        pixel_data@.len() == height * stride,
        4 * width <= u32::MAX,
    ensures
        r@ == rgba_rows(
            pixel_data@,
            format,
            stride as int,
            4 * width as int,
            rows_upto(pixel_data@.len() as int, stride as int, 4 * width as int, height as int, 0),
        ),
{
    let total: usize = pixel_data.len();
    let row_bytes: u32 = width * 4;
    let swap: bool = format.needs_swizzle();
    let opaque: bool = !format.has_opacity();
    let mut out: Vec<u8> = Vec::new();
    let mut row: u32 = 0;
    let mut start: usize = 0;
    let ghost rows = rows_upto(total as int, stride as int, row_bytes as int, height as int, 0);
    while row < height
        invariant
            row <= height,
            total == pixel_data@.len() == height * stride,
            start == row * stride,
            row_bytes == 4 * width,
            swap == (format == PixelFormat::Argb8888 || format == PixelFormat::Xrgb8888),
            opaque == (format == PixelFormat::Xbgr8888 || format == PixelFormat::Xrgb8888),
            rows == rows_upto(total as int, stride as int, row_bytes as int, height as int, 0),
            rows == rows_upto(
                total as int,
                stride as int,
                row_bytes as int,
                height as int,
                row as int,
            ),
            out@ == rgba_rows(pixel_data@, format, stride as int, row_bytes as int, row as int),
        decreases height - row,
    {
        assert(row * stride + stride == (row + 1) * stride <= height * stride) by (nonlinear_arith)
            requires
                0 <= row < height,
                0 <= stride,
        ;
        if row_bytes as u64 > (total - start) as u64 {
            assert(rows == row);
            return out;
        }
        let end: usize = start + row_bytes as usize;
        let part = slice_subrange(pixel_data, start, end);
        push_as_rgba(&mut out, part, swap, opaque);
        assert(pixels::reordered(part@, swap, opaque) == format.to_rgba(part@));
        start = start + stride as usize;
        row = row + 1;
    }
    out
}

// ---- Where the helper is ----

/// The file name of the helper, in bytes.
pub open spec fn helper_name() -> Seq<u8> {
    "breezy_portal_capture.py".spec_bytes()
}

/// A path below a directory: the two with one slash between them, where there is a directory and
/// it does not end in one.
pub open spec fn joined(dir: Seq<u8>, rest: Seq<u8>) -> Seq<u8> {
    if dir.len() == 0 || dir.last() == SLASH {
        dir + rest
    } else {
        dir.push(SLASH) + rest
    }
}

/// The places to look for the helper, in order: beside the program and above it, where its
/// directory is known, then the working directory, then the source tree.
pub open spec fn helper_places(exe_dir: Option<Seq<u8>>) -> Seq<Seq<u8>> {
    let fixed = seq![
        helper_name(),
        "/home/bluekitty/Documents/Git/breezy-cosmic/breezy_portal_capture.py".spec_bytes(),
    ];
    match exe_dir {
        Some(dir) => seq![
            joined(dir, helper_name()),
            joined(dir, "../breezy_portal_capture.py".spec_bytes()),
        ] + fixed,
        None => fixed,
    }
}

fn join(dir: &[u8], rest: &str) -> (r: Vec<u8>)
    ensures
        r@ == joined(dir@, rest.spec_bytes()),
{
    let n: usize = dir.len();
    let mut r = copy_bytes(dir);
    if n > 0 && dir[n - 1] != SLASH {
        r.push(SLASH);
    }
    let ghost front = r@;
    let tail = rest.as_bytes();
    r.extend_from_slice(tail);
    assert(r@ =~= front + tail@);
    r
}

/// The places to look for the helper, in order. Paths are rows of bytes, as the system has them,
/// and need not be text.
pub fn helper_candidates(exe_dir: Option<&[u8]>) -> (r: Vec<Vec<u8>>)
    ensures
        r@.map_values(|s: Vec<u8>| s@) == helper_places(
            match exe_dir {
                Some(dir) => Some(dir@),
                None => None,
            },
        ),
{
    let mut r: Vec<Vec<u8>> = Vec::new();
    if let Some(dir) = exe_dir {
        r.push(join(dir, "breezy_portal_capture.py"));
        r.push(join(dir, "../breezy_portal_capture.py"));
    }
    r.push(copy_bytes("breezy_portal_capture.py".as_bytes()));
    r.push(
        copy_bytes(
            "/home/bluekitty/Documents/Git/breezy-cosmic/breezy_portal_capture.py".as_bytes(),
        ),
    );
    assert(r@.map_values(|s: Vec<u8>| s@) =~= helper_places(
        match exe_dir {
            Some(dir) => Some(dir@),
            None => None,
        },
    ));
    r
}

/// `r` is the first place at which the helper exists.
pub open spec fn first_existing(
    candidates: Seq<Vec<u8>>,
    exists: Seq<bool>,
    r: Option<Vec<u8>>,
) -> bool {
    match r {
        Some(place) => exists|i: int|
            {
                &&& 0 <= i < candidates.len()
                &&& #[trigger] exists[i]
                &&& place@ == candidates[i]@
                &&& forall|k: int| 0 <= k < i ==> !exists[k]
            },
        None => forall|k: int| 0 <= k < exists.len() ==> !exists[k],
    }
}

/// The first place at which the helper exists.
pub fn find_helper(candidates: &Vec<Vec<u8>>, exists: &Vec<bool>) -> (r: Option<Vec<u8>>)
    requires
        candidates@.len() == exists@.len(),
    ensures
        first_existing(candidates@, exists@, r),
        match r {
            Some(place) => exists|i: int|
                {
                    &&& 0 <= i < candidates@.len()
                    &&& #[trigger] exists@[i]
                    &&& place@ == candidates@[i]@
                    &&& forall|k: int| 0 <= k < i ==> !exists@[k]
                },
            None => forall|k: int| 0 <= k < exists@.len() ==> !exists@[k],
        },
{
    let mut i: usize = 0;
    while i < candidates.len()
        invariant
            i <= candidates@.len() == exists@.len(),
            forall|k: int| 0 <= k < i ==> !exists@[k],
        decreases candidates@.len() - i,
    {
        if exists[i] {
            return Some(copy_bytes(candidates[i].as_slice()));
        }
        i = i + 1;
    }
    None
}

// ---- Laws ----

/// Rows that fit are rows before the first that does not.
pub proof fn rows_upto_is_first_misfit(
    total: int,
    stride: int,
    row_bytes: int,
    height: int,
    row: int,
)
    requires
        row <= height,
    ensures
        row <= rows_upto(total, stride, row_bytes, height, row) <= height,
        forall|k: int|
            row <= k < rows_upto(total, stride, row_bytes, height, row) ==> row_fits(
                total,
                stride,
                row_bytes,
                k,
            ),
        rows_upto(total, stride, row_bytes, height, row) < height ==> !row_fits(
            total,
            stride,
            row_bytes,
            rows_upto(total, stride, row_bytes, height, row),
        ),
    decreases height - row,
{
    if row < height && row_fits(total, stride, row_bytes, row) {
        rows_upto_is_first_misfit(total, stride, row_bytes, height, row + 1);
    }
}

proof fn all_rows_fit(stride: int, row_bytes: int, height: int, row: int)
    requires
        0 <= row <= height,
        0 <= row_bytes <= stride,
    ensures
        rows_upto(height * stride, stride, row_bytes, height, row) == height,
    decreases height - row,
{
    if row < height {
        assert(row * stride + stride <= height * stride) by (nonlinear_arith)
            requires
                0 <= row < height,
                0 <= stride,
        ;
        all_rows_fit(stride, row_bytes, height, row + 1);
    }
}

proof fn rgba_rows_facts(
    pixels: Seq<u8>,
    format: PixelFormat,
    stride: int,
    row_bytes: int,
    count: int,
    row: int,
)
    requires
        0 <= count,
        0 <= row_bytes,
        0 <= stride,
        forall|k: int| 0 <= k < count ==> row_fits(pixels.len() as int, stride, row_bytes, k),
    ensures
        rgba_rows(pixels, format, stride, row_bytes, count).len() == count * row_bytes,
        0 <= row < count ==> {
            &&& 0 <= row * row_bytes
            &&& row * row_bytes + row_bytes <= count * row_bytes
            &&& rgba_rows(pixels, format, stride, row_bytes, count).subrange(
                row * row_bytes,
                row * row_bytes + row_bytes,
            ) == format.to_rgba(pixels.subrange(row * stride, row * stride + row_bytes))
        },
    decreases count,
{
    if count > 0 {
        rgba_rows_facts(pixels, format, stride, row_bytes, count - 1, row);
        assert(row_fits(pixels.len() as int, stride, row_bytes, count - 1));
        assert(0 <= (count - 1) * stride) by (nonlinear_arith)
            requires
                1 <= count,
                0 <= stride,
        ;
        assert(0 <= (count - 1) * row_bytes) by (nonlinear_arith)
            requires
                1 <= count,
                0 <= row_bytes,
        ;
        assert((count - 1) * row_bytes + row_bytes == count * row_bytes) by (nonlinear_arith);
        let front = rgba_rows(pixels, format, stride, row_bytes, count - 1);
        let last = format.to_rgba(
            pixels.subrange((count - 1) * stride, (count - 1) * stride + row_bytes),
        );
        assert(last.len() == row_bytes);
        if 0 <= row < count - 1 {
            assert((front + last).subrange(row * row_bytes, row * row_bytes + row_bytes)
                =~= front.subrange(row * row_bytes, row * row_bytes + row_bytes));
        } else if row == count - 1 {
            assert((front + last).subrange(row * row_bytes, row * row_bytes + row_bytes)
                =~= last);
        }
    } else {
        assert(count * row_bytes == 0) by (nonlinear_arith)
            requires
                count == 0,
        ;
    }
}

/// A region whose rows are no longer than its stride gives a frame of exactly width times height
/// pixels of four bytes, whatever its format.
pub proof fn frame_is_complete(region: Seq<u8>)
    requires
        pixels_of(region).len() > 0,
        4 * width_of(region) <= stride_of(region),
    ensures
        frame_data(region).len() == height_of(region) * (4 * width_of(region)),
{
    frame_holds_every_row(region, 0);
}

/// Row by row, such a frame holds the region's rows: row `row` stands at `row` times the frame's
/// stride, which is four times its width, and is the region's row as RGBA.
pub proof fn frame_holds_every_row(region: Seq<u8>, row: int)
    requires
        pixels_of(region).len() > 0,
        4 * width_of(region) <= stride_of(region),
    ensures
        frame_data(region).len() == height_of(region) * (4 * width_of(region)),
        0 <= row < height_of(region) ==> {
            let bytes = 4 * width_of(region);
            &&& 0 <= row * bytes
            &&& row * bytes + bytes <= frame_data(region).len()
            &&& frame_data(region).subrange(row * bytes, row * bytes + bytes)
                == PixelFormat::coded(format_of(region)).to_rgba(
                pixels_of(region).subrange(
                    row * stride_of(region),
                    row * stride_of(region) + bytes,
                ),
            )
        },
{
    let h = height_of(region);
    let s = stride_of(region);
    let w = 4 * width_of(region);
    let all = pixels_of(region);
    assert(0 <= h * s) by (nonlinear_arith)
        requires
            0 <= h,
            0 <= s,
    ;
    assert(all.len() == h * s);
    all_rows_fit(s, w, h, 0);
    rows_upto_is_first_misfit(h * s, s, w, h, 0);
    rgba_rows_facts(all, PixelFormat::coded(format_of(region)), s, w, h, row);
}

proof fn tight_rows(pixels: Seq<u8>, format: PixelFormat, row_bytes: int, count: int)
    requires
        0 <= count,
        0 <= row_bytes,
        row_bytes % 4 == 0,
        count * row_bytes <= pixels.len(),
    ensures
        0 <= count * row_bytes,
        (count * row_bytes) % 4 == 0,
        rgba_rows(pixels, format, row_bytes, row_bytes, count) == format.to_rgba(
            pixels.take(count * row_bytes),
        ),
    decreases count,
{
    if count == 0 {
        assert(count * row_bytes == 0) by (nonlinear_arith)
            requires
                count == 0,
        ;
        assert(format.to_rgba(pixels.take(0)) =~= Seq::<u8>::empty());
    } else {
        let start = (count - 1) * row_bytes;
        assert(start + row_bytes == count * row_bytes) by (nonlinear_arith)
            requires
                start == (count - 1) * row_bytes,
        ;
        tight_rows(pixels, format, row_bytes, count - 1);
        let front = pixels.take(start);
        let row = pixels.subrange(start, start + row_bytes);
        let whole = pixels.take(start + row_bytes);
        assert(format.to_rgba(front) + format.to_rgba(row) =~= format.to_rgba(whole)) by {
            assert forall|i: int| 0 <= i < whole.len() implies (format.to_rgba(front)
                + format.to_rgba(row))[i] == #[trigger] format.to_rgba(whole)[i] by {
                if i >= start {
                    assert((i - start) % 4 == i % 4);
                }
            }
        }
    }
}

/// A region without gaps between its rows is converted pixel by pixel, as one row.
pub proof fn tight_frame_is_converted_whole(region: Seq<u8>)
    requires
        pixels_of(region).len() > 0,
        4 * width_of(region) == stride_of(region),
    ensures
        frame_data(region) == PixelFormat::coded(format_of(region)).to_rgba(pixels_of(region)),
{
    let h = height_of(region);
    let s = stride_of(region);
    let all = pixels_of(region);
    assert(0 <= h * s) by (nonlinear_arith)
        requires
            0 <= h,
            0 <= s,
    ;
    all_rows_fit(s, s, h, 0);
    tight_rows(all, PixelFormat::coded(format_of(region)), s, h);
    assert(all.take(h * s) =~= all);
}

/// Waiting for the helper ends: a look after the time is over gives up, whatever it finds.
pub proof fn waiting_is_bounded(elapsed: int, region: Option<Seq<u8>>, exited: bool)
    ensures
        init_action(elapsed, region, exited) is Wait ==> elapsed <= INIT_TIMEOUT_NANOS && !exited,
        elapsed > INIT_TIMEOUT_NANOS ==> init_action(elapsed, region, exited) is FailExited
            || init_action(elapsed, region, exited) is FailTimeout,
{
}

/// A region that holds no new frame gives the same frame again.
pub proof fn same_region_gives_the_same_frame(
    before: ScreenCapture,
    region: Seq<u8>,
    between: ScreenCapture,
    first: CapturedFrame,
    after: ScreenCapture,
    second: Result<CapturedFrame, CaptureError>,
)
    requires
        captured(before, region, between, Ok(first)),
        captured(between, region, after, second),
    ensures
        second matches Ok(frame) && {
            &&& frame.data@ == first.data@
            &&& frame.width == first.width
            &&& frame.height == first.height
            &&& frame.stride == first.stride
            &&& frame.format == first.format
            &&& frame.timestamp_ns == first.timestamp_ns
        },
        after == between,
{
}

/// A capture that a look at the helper finds ready reads its first frame from the same region,
/// provided that the region holds the pixels that its header announces.
pub proof fn ready_region_gives_a_frame(
    before: ScreenCapture,
    elapsed: int,
    region: Seq<u8>,
    exited: bool,
    after: ScreenCapture,
    r: Result<CapturedFrame, CaptureError>,
)
    requires
        init_action(elapsed, Some(region), exited) == InitAction::Ready,
        pixels_of(region).len() > 0,
        captured(ScreenCapture { attached: true, ..before }, region, after, r),
    ensures
        r is Ok,
        after.last_seq == sequence_of(region),
{
}

/// Where the numbers of the header stand, byte by byte.
pub proof fn header_layout(region: Seq<u8>)
    requires
        region.len() >= 32,
    ensures
        magic_of(region) == region[0] + 256 * region[1] + 65536 * region[2] + 16777216 * region[3],
        width_of(region) == region[4] + 256 * region[5] + 65536 * region[6] + 16777216 * region[7],
        height_of(region) == region[8] + 256 * region[9] + 65536 * region[10] + 16777216
            * region[11],
        stride_of(region) == region[12] + 256 * region[13] + 65536 * region[14] + 16777216
            * region[15],
        format_of(region) == region[16] + 256 * region[17] + 65536 * region[18] + 16777216
            * region[19],
        sequence_of(region) == region[20] + 256 * region[21] + 65536 * region[22] + 16777216
            * region[23],
        timestamp_of(region) % 0x1_0000_0000 == region[24] + 256 * region[25] + 65536 * region[26]
            + 16777216 * region[27],
        timestamp_of(region) / 0x1_0000_0000 == region[28] + 256 * region[29] + 65536 * region[30]
            + 16777216 * region[31],
{
}

/// A region without a whole header has the magic number 0, which is no region's.
pub proof fn short_region_has_no_magic(region: Seq<u8>)
    requires
        region.len() < 32,
    ensures
        magic_of(region) == 0,
        !holds_frame(region),
{
}

/// The pixels are the bytes from 32 on, as many as height times stride; where the region ends
/// before that, there are none.
pub proof fn pixels_follow_the_header(region: Seq<u8>)
    ensures
        32 + height_of(region) * stride_of(region) > region.len() ==> pixels_of(region).len() == 0,
        region.len() >= 32 && 32 + height_of(region) * stride_of(region) <= region.len()
            ==> pixels_of(region).len() == height_of(region) * stride_of(region),
        forall|i: int|
            0 <= i < pixels_of(region).len() ==> #[trigger] pixels_of(region)[i] == region[32 + i],
{
    let h = height_of(region);
    let s = stride_of(region);
    assert(0 <= h * s) by (nonlinear_arith)
        requires
            0 <= h,
            0 <= s,
    ;
}

/// When a capture fails, and with which error, and what it remembers.
pub proof fn capture_outcomes(
    before: ScreenCapture,
    region: Seq<u8>,
    after: ScreenCapture,
    r: Result<CapturedFrame, CaptureError>,
)
    requires
        captured(before, region, after, r),
    ensures
        r matches Err(e) && e == CaptureError::NotInitialized <==> !before.attached,
        r matches Err(e) && e == CaptureError::InvalidMagic <==> before.attached && (region.len()
            < 32 || magic_of(region) != 0x4243_4150),
        r is Ok <==> before.attached && region.len() >= 32 && magic_of(region) == 0x4243_4150 && 0
            < height_of(region) * stride_of(region) <= region.len() - 32,
        after.attached == before.attached,
        after.target_output == before.target_output,
        after.source_type == before.source_type,
        after.width == before.width,
        after.height == before.height,
        before.attached && magic_of(region) == 0x4243_4150 ==> after.last_seq == sequence_of(
            region,
        ),
        !(before.attached && magic_of(region) == 0x4243_4150) ==> after.last_seq == before.last_seq,
        r matches Ok(frame) ==> {
            &&& frame.width == width_of(region)
            &&& frame.height == height_of(region)
            &&& frame.stride == 4 * frame.width
            &&& frame.format == PixelFormat::Abgr8888
            &&& frame.timestamp_ns == timestamp_of(region)
        },
{
    pixels_follow_the_header(region);
}

/// The pixel in column `x` of row `y` of a frame is the region's pixel there: its colors and its
/// opacity as the format code has them, for all their values.
pub proof fn frame_shows_every_pixel(
    before: ScreenCapture,
    region: Seq<u8>,
    after: ScreenCapture,
    frame: CapturedFrame,
    y: int,
    x: int,
)
    requires
        captured(before, region, after, Ok(frame)),
        4 * width_of(region) <= stride_of(region),
        0 <= y < height_of(region),
        0 <= x < width_of(region),
    ensures
        ({
            let to = y * (4 * width_of(region)) + 4 * x;
            let from = 32 + y * stride_of(region) + 4 * x;
            let code = format_of(region);
            &&& 0 <= to && to + 4 <= frame.data@.len()
            &&& 32 <= from && from + 4 <= region.len()
            &&& frame.data@[to + 1] == region[from + 1]
            &&& code == 0 || code == 2 ==> frame.data@[to] == region[from + 2] && frame.data@[to
                + 2] == region[from]
            &&& code != 0 && code != 2 ==> frame.data@[to] == region[from] && frame.data@[to + 2]
                == region[from + 2]
            &&& code == 0 || code == 1 ==> frame.data@[to + 3] == 255
            &&& code != 0 && code != 1 ==> frame.data@[to + 3] == region[from + 3]
        }),
{
    let w = 4 * width_of(region);
    let s = stride_of(region);
    let h = height_of(region);
    let all = pixels_of(region);
    pixels_follow_the_header(region);
    frame_holds_every_row(region, y);
    assert(0 <= y * s && y * s + s <= h * s) by (nonlinear_arith)
        requires
            0 <= y < h,
            0 <= s,
    ;
    let part = all.subrange(y * s, y * s + w);
    let row = frame.data@.subrange(y * w, y * w + w);
    assert(row == PixelFormat::coded(format_of(region)).to_rgba(part));
    assert forall|k: int| 0 <= k < 4 implies #[trigger] row[4 * x + k] == frame.data@[y * w + 4 * x
        + k] && part[4 * x + k] == region[32 + y * s + 4 * x + k] by {
        assert(row[4 * x + k] == frame.data@[y * w + (4 * x + k)]);
        assert(part[4 * x + k] == all[y * s + (4 * x + k)]);
    }
    assert(row[4 * x + 0] == frame.data@[y * w + 4 * x + 0]);
    assert(row[4 * x + 1] == frame.data@[y * w + 4 * x + 1]);
    assert(row[4 * x + 2] == frame.data@[y * w + 4 * x + 2]);
    assert(row[4 * x + 3] == frame.data@[y * w + 4 * x + 3]);
    pixels::bgrx_pixel(part, x);
    pixels::rgbx_pixel(part, x);
    pixels::exchanged_pixel(part, x);
}

/// Where rows are longer than the stride, the frame still holds whole rows, those before the
/// first one that does not end within the pixels, one right behind the other.
pub proof fn frame_holds_the_rows_that_fit(region: Seq<u8>, rows: int, row: int)
    requires
        region.len() >= 32,
        0 <= rows <= height_of(region),
        forall|k: int|
            0 <= k < rows ==> #[trigger] (k * stride_of(region)) + 4 * width_of(region) <= pixels_of(
                region,
            ).len(),
        rows < height_of(region) ==> rows * stride_of(region) + 4 * width_of(region) > pixels_of(
            region,
        ).len(),
    ensures
        frame_data(region).len() == rows * (4 * width_of(region)),
        0 <= row < rows ==> frame_data(region).subrange(
            row * (4 * width_of(region)),
            row * (4 * width_of(region)) + 4 * width_of(region),
        ) == PixelFormat::coded(format_of(region)).to_rgba(
            pixels_of(region).subrange(
                row * stride_of(region),
                row * stride_of(region) + 4 * width_of(region),
            ),
        ),
{
    let all = pixels_of(region);
    let w = 4 * width_of(region);
    let s = stride_of(region);
    let h = height_of(region);
    let n = rows_upto(all.len() as int, s, w, h, 0);
    rows_upto_is_first_misfit(all.len() as int, s, w, h, 0);
    if n < rows {
        assert(n * s + w <= all.len());
        assert(!row_fits(all.len() as int, s, w, n));
    }
    if rows < n {
        assert(row_fits(all.len() as int, s, w, rows));
    }
    assert(n == rows);
    rgba_rows_facts(all, PixelFormat::coded(format_of(region)), s, w, rows, row);
}

/// When a look at the helper ends the waiting, and how.
pub proof fn looks_at_the_helper(elapsed: int, region: Option<Seq<u8>>, exited: bool)
    ensures
        init_action(elapsed, region, exited) == InitAction::Ready <==> elapsed <= 120_000_000_000
            && region is Some && region->0.len() >= 32 && magic_of(region->0) == 0x4243_4150
            && sequence_of(region->0) != 0,
        init_action(elapsed, region, exited) == InitAction::FailExited <==> elapsed
            > 120_000_000_000 && exited,
        init_action(elapsed, region, exited) == InitAction::FailTimeout <==> elapsed
            > 120_000_000_000 && !exited,
        init_action(elapsed, region, exited) == InitAction::FailExitedEarly ==> elapsed
            <= 120_000_000_000 && exited,
        init_action(elapsed, region, exited) matches InitAction::Wait { millis } ==> millis == 200
            && !exited,
{
}

/// A path below a directory starts with the directory and ends with the path, with one slash
/// between them unless the directory is empty or ends in one.
pub proof fn joined_paths(dir: Seq<u8>, rest: Seq<u8>)
    ensures
        dir.len() == 0 || dir.last() == 0x2f ==> joined(dir, rest) == dir + rest,
        dir.len() > 0 && dir.last() != 0x2f ==> joined(dir, rest) == dir + seq![0x2fu8] + rest,
{
    assert(dir.push(0x2f) =~= dir + seq![0x2fu8]);
}

/// The helper is looked for beside the program and above it first, where the program's directory
/// is known, and then where it is always looked for.
pub proof fn helper_is_looked_for_near_the_program(dir: Seq<u8>)
    ensures
        helper_places(None).len() == 2,
        helper_places(Some(dir)).len() == 4,
        helper_places(Some(dir)).skip(2) == helper_places(None),
        helper_places(None)[0] == "breezy_portal_capture.py".spec_bytes(),
        helper_places(Some(dir))[0] == joined(dir, "breezy_portal_capture.py".spec_bytes()),
        helper_places(Some(dir))[1] == joined(dir, "../breezy_portal_capture.py".spec_bytes()),
{
    assert(helper_places(Some(dir)).skip(2) =~= helper_places(None));
}

/// The helper is found wherever it exists, and at the first such place.
pub proof fn helper_is_found_where_it_exists(
    candidates: Seq<Vec<u8>>,
    exists: Seq<bool>,
    r: Option<Vec<u8>>,
    i: int,
)
    requires
        candidates.len() == exists.len(),
        first_existing(candidates, exists, r),
        0 <= i < exists.len(),
        exists[i],
        forall|k: int| 0 <= k < i ==> !exists[k],
    ensures
        r is Some,
        r->0@ == candidates[i]@,
{
    if let Some(place) = r {
        let j = choose|j: int|
            {
                &&& 0 <= j < candidates.len()
                &&& #[trigger] exists[j]
                &&& place@ == candidates[j]@
                &&& forall|k: int| 0 <= k < j ==> !exists[k]
            };
        assert(i == j);
    }
}

} // verus!
