//! The overlay on the glasses: its size, the steps of a redraw, the pixels that it shows.

use vstd::prelude::*;

use crate::capture::{CapturedFrame, PixelFormat};
use crate::output::OutputInfo;
use crate::pixels;
use crate::pixels::write_exchanged;

verus! {

/// A report on the pose is due every so many frames.
pub const POSE_REPORT_FRAMES: u64 = 120;

/// A report on the frame rate is due every so many frames.
pub const RATE_REPORT_FRAMES: u64 = 60;

/// The side of a tile of the test pattern in pixels.
pub const TILE_SIZE: u32 = 64;

/// The state of the overlay.
#[derive(Debug, Clone, Copy)]
pub struct App {
    /// Whether the compositor has given the surface its first size.
    pub configured: bool,
    pub width: u32,
    pub height: u32,
    /// Whether the compositor has closed the surface.
    pub exit: bool,
    /// The sides of the content on the GPU, which need not be those of the surface.
    pub source_size: Option<(u32, u32)>,
    /// How many frames have been presented.
    pub frame_count: u64,
}

/// What has happened in the course of a redraw.
#[derive(Debug, Clone, Copy, PartialEq, Eq)]
pub enum DrawEvent {
    /// The redraw begins; `repin` tells whether the user asked to center the display anew.
    Begin { repin: bool },
    /// A frame of the given size was captured; `posed` tells whether a pose was read.
    Captured { posed: bool, width: u32, height: u32 },
    /// No frame was captured; `posed` tells whether a pose was read.
    CaptureFailed { posed: bool },
    /// The GPU has drawn the display.
    Rendered,
    RenderFailed,
    /// There is a filled buffer to present.
    BufferReady,
    BufferFailed,
    /// The buffer is attached to the surface.
    Attached,
    AttachFailed,
}

/// What to bring to the GPU.
#[derive(Debug, Clone, Copy, PartialEq, Eq, Structural)]
pub enum Upload {
    /// The captured frame.
    Frame,
    /// A test pattern of the surface's size.
    TestPattern,
    /// Nothing: what is there stays.
    Nothing,
}

/// How the display is drawn.
#[derive(Debug, Clone, Copy, PartialEq, Eq, Structural)]
pub enum Transform {
    /// As the pose that was read has it.
    Posed,
    /// Flat and centered: the transform changes nothing.
    Identity,
}

/// The next step of a redraw.
#[derive(Debug, Clone, Copy, PartialEq, Eq, Structural)]
pub enum DrawAction {
    /// Center the display anew, where asked to, read the pose and capture a frame.
    Capture { reset: bool, report_pose: bool },
    /// Bring the content to the GPU and draw the display under the transform.
    Render { upload: Upload, transform: Transform },
    /// Make a buffer with so many bytes from one row to the next, and fill it.
    CreateBuffer { stride: i32 },
    /// Mark the surface as damaged, request the next frame, attach the buffer.
    Present,
    /// Request the next frame; this redraw is over.
    RequestFrame,
    /// Commit the surface; this redraw is over.
    Commit { report_rate: bool },
    /// This redraw is over.
    Stop,
}

/// The transform of a redraw: without a pose it is the identity.
pub open spec fn transform_for(posed: bool) -> Transform {
    if posed {
        Transform::Posed
    } else {
        Transform::Identity
    }
}

/// The step that follows an event, and the state then.
pub open spec fn draw_step(app: App, event: DrawEvent) -> (App, DrawAction) {
    match event {
        DrawEvent::Begin { repin } => (
            app,
            DrawAction::Capture {
                reset: repin,
                report_pose: app.frame_count % POSE_REPORT_FRAMES == 0,
            },
        ),
        DrawEvent::Captured { posed, width, height } => (
            App { source_size: Some((width, height)), ..app },
            DrawAction::Render { upload: Upload::Frame, transform: transform_for(posed) },
        ),
        DrawEvent::CaptureFailed { posed } => if app.frame_count == 0 {
            (
                App { source_size: Some((app.width, app.height)), ..app },
                DrawAction::Render {
                    upload: Upload::TestPattern,
                    transform: transform_for(posed),
                },
            )
        } else {
            (
                app,
                DrawAction::Render { upload: Upload::Nothing, transform: transform_for(posed) },
            )
        },
        DrawEvent::Rendered => (app, DrawAction::CreateBuffer { stride: (4 * signed(app.width as int)) as i32 }),
        DrawEvent::RenderFailed => (app, DrawAction::RequestFrame),
        DrawEvent::BufferReady => (app, DrawAction::Present),
        DrawEvent::BufferFailed => (app, DrawAction::RequestFrame),
        DrawEvent::Attached => {
            let count = (app.frame_count + 1) as u64;
            (
                App { frame_count: count, ..app },
                DrawAction::Commit { report_rate: count % RATE_REPORT_FRAMES == 0 },
            )
        },
        DrawEvent::AttachFailed => (app, DrawAction::Stop),
    }
}

/// A size as the surface takes it: 32 bits read without a sign.
pub open spec fn unsigned(n: int) -> int {
    if n >= 0 {
        n
    } else {
        n + 0x1_0000_0000
    }
}

fn to_unsigned(n: i32) -> (r: u32)
    ensures
        r == unsigned(n as int),
{
    if n >= 0 {
        n as u32
    } else {
        (n as i64 + 0x1_0000_0000) as u32
    }
}

/// A size as the compositor takes it: 32 bits read with a sign.
pub open spec fn signed(n: int) -> int {
    if n <= i32::MAX {
        n
    } else {
        n - 0x1_0000_0000
    }
}

fn to_signed(n: u32) -> (r: i32)
    ensures
        r == signed(n as int),
{
    if n <= 0x7fff_ffff {
        n as i32
    } else {
        (n as i64 - 0x1_0000_0000) as i32
    }
}

fn choose_transform(posed: bool) -> (r: Transform)
    ensures
        r == transform_for(posed),
{
    if posed {
        Transform::Posed
    } else {
        Transform::Identity
    }
}

/// The overlay has just been made for the given glasses.
pub open spec fn is_fresh(app: App, xr: OutputInfo) -> bool {
    &&& !app.configured
    &&& app.width == unsigned(xr.width as int)
    &&& app.height == unsigned(xr.height as int)
    &&& !app.exit
    &&& app.source_size is None
    &&& app.frame_count == 0
}

/// The overlay after the compositor gave it a size.
pub open spec fn resized(app: App, new_width: u32, new_height: u32) -> App {
    App {
        configured: true,
        width: if new_width > 0 {
            new_width
        } else {
            app.width
        },
        height: if new_height > 0 {
            new_height
        } else {
            app.height
        },
        ..app
    }
}

/// The overlay after the output to cover was looked up.
pub open spec fn targeted(app: App, place: Option<usize>) -> App {
    App { configured: app.configured && place is None, ..app }
}

/// What a buffer holds after the GPU's pixels were to be written into it.
pub open spec fn presented(app: App, pixels: Seq<u8>, canvas: Seq<u8>) -> Seq<u8> {
    let size = app.width * app.height * 4;
    if size <= pixels.len() && size <= canvas.len() {
        pixels::red_blue_exchanged(pixels.take(size)) + canvas.skip(size)
    } else {
        canvas
    }
}

/// The size in bytes of a pool that holds three buffers of the surface.
pub open spec fn pool_bytes(app: App) -> int {
    app.width * app.height * 4 * 3
}

impl App {
    /// An overlay that fills the output of the glasses.
    pub fn new(xr: &OutputInfo) -> (r: Self)
        ensures
            is_fresh(r, *xr),
            !r.configured,
            r.width == unsigned(xr.width as int),
            r.height == unsigned(xr.height as int),
            !r.exit,
            r.source_size is None,
            r.frame_count == 0,
    {
        App {
            configured: false,
            width: to_unsigned(xr.width),
            height: to_unsigned(xr.height),
            exit: false,
            source_size: None,
            frame_count: 0,
        }
    }

    /// The size in bytes of a pool that holds three buffers.
    pub fn pool_size(&self) -> (r: usize)
        requires
            self.width * self.height * 4 * 3 <= u32::MAX,
        ensures
            r == pool_bytes(*self),
            r == self.width * self.height * 4 * 3,
    {
        assert(0 <= self.width * self.height) by (nonlinear_arith)
            requires
                0 <= self.width,
                0 <= self.height,
        ;
        (self.width * self.height * 4 * 3) as usize
    }

    /// Looks up the output to cover by its name; where there is one, the surface is made anew on
    /// it and awaits its first size.
    pub fn target_output(&mut self, names: &Vec<Option<String>>, name: &str) -> (r: Option<usize>)
        ensures
            first_named(names@, name@, r),
            *final(self) == targeted(*old(self), r),
            *final(self) == (App {
                configured: if r is Some {
                    false
                } else {
                    old(self).configured
                },
                ..*old(self)
            }),
    {
        let r = find_output_by_name(names, name);
        if r.is_some() {
            self.configured = false;
        }
        r
    }

    /// One step of a redraw.
    pub fn draw(&mut self, event: DrawEvent) -> (r: DrawAction)
        requires
            event is Begin || event is Rendered ==> i32::MIN <= 4 * signed(old(self).width as int)
                <= i32::MAX,
            event is Attached ==> old(self).frame_count < u64::MAX,
        ensures
            (*final(self), r) == draw_step(*old(self), event),
    {
        match event {
            DrawEvent::Begin { repin } => {
                DrawAction::Capture {
                    reset: repin,
                    report_pose: self.frame_count % POSE_REPORT_FRAMES == 0,
                }
            },
            DrawEvent::Captured { posed, width, height } => {
                self.source_size = Some((width, height));
                DrawAction::Render { upload: Upload::Frame, transform: choose_transform(posed) }
            },
            DrawEvent::CaptureFailed { posed } => {
                let transform = choose_transform(posed);
                if self.frame_count == 0 {
                    self.source_size = Some((self.width, self.height));
                    DrawAction::Render { upload: Upload::TestPattern, transform }
                } else {
                    DrawAction::Render { upload: Upload::Nothing, transform }
                }
            },
            DrawEvent::Rendered => DrawAction::CreateBuffer { stride: to_signed(self.width) * 4 },
            DrawEvent::RenderFailed => DrawAction::RequestFrame,
            DrawEvent::BufferReady => DrawAction::Present,
            DrawEvent::BufferFailed => DrawAction::RequestFrame,
            DrawEvent::Attached => {
                self.frame_count = self.frame_count + 1;
                DrawAction::Commit { report_rate: self.frame_count % RATE_REPORT_FRAMES == 0 }
            },
            DrawEvent::AttachFailed => DrawAction::Stop,
        }
    }

    /// Writes the GPU's pixels (red, green, blue, opacity) into the buffer to present (blue,
    /// green, red, opacity), where both hold the whole surface; otherwise the buffer stays as
    /// it is.
    pub fn write_pixels(&self, canvas: &mut [u8], pixels: &[u8])
        requires
            self.width * self.height <= u32::MAX,
        ensures
            final(canvas)@ == presented(*self, pixels@, old(canvas)@),
            ({
                let size = self.width * self.height * 4;
                final(canvas)@ == (if size <= pixels@.len() && size <= old(canvas)@.len() {
                    pixels::red_blue_exchanged(pixels@.take(size)) + old(canvas)@.skip(size)
                } else {
                    old(canvas)@
                })
            }),
    {
        assert(0 <= self.width * self.height) by (nonlinear_arith)
            requires
                0 <= self.width,
                0 <= self.height,
        ;
        let count: u32 = self.width * self.height;
        let size: u64 = count as u64 * 4;
        let m: usize = canvas.len();
        if pixels.len() as u64 >= size && m as u64 >= size {
            write_exchanged(canvas, pixels, count as usize);
        }
    }

    /// The compositor gives the surface a size, in which 0 leaves a side as it is. The answer
    /// tells whether to draw at once, which is so the first time.
    pub fn configure(&mut self, new_width: u32, new_height: u32) -> (r: bool)
        ensures
            r == !old(self).configured,
            *final(self) == resized(*old(self), new_width, new_height),
            *final(self) == (App {
                configured: true,
                width: if new_width > 0 {
                    new_width
                } else {
                    old(self).width
                },
                height: if new_height > 0 {
                    new_height
                } else {
                    old(self).height
                },
                ..*old(self)
            }),
    {
        if new_width > 0 {
            self.width = new_width;
        }
        if new_height > 0 {
            self.height = new_height;
        }
        if !self.configured {
            self.configured = true;
            return true;
        }
        false
    }

    /// The compositor closes the surface.
    pub fn closed(&mut self)
        ensures
            *final(self) == (App { exit: true, ..*old(self) }),
    {
        self.exit = true;
    }
}

/// `r` is the place of the first output with the given name.
pub open spec fn first_named(
    names: Seq<Option<String>>,
    name: Seq<char>,
    r: Option<usize>,
) -> bool {
    match r {
        Some(i) => {
            &&& i < names.len()
            &&& has_name(names[i as int], name)
            &&& forall|k: int| 0 <= k < i ==> !has_name(#[trigger] names[k], name)
        },
        None => forall|k: int| 0 <= k < names.len() ==> !has_name(#[trigger] names[k], name),
    }
}

/// The output is known to have the given name.
pub open spec fn has_name(known: Option<String>, name: Seq<char>) -> bool {
    known is Some && known->0@ == name
}

/// Finds an output by the name of its connector, among outputs whose names may be unknown.
pub fn find_output_by_name(names: &Vec<Option<String>>, target_name: &str) -> (r: Option<usize>)
    ensures
        first_named(names@, target_name@, r),
{
    let target: String = target_name.to_owned();
    let mut i: usize = 0;
    while i < names.len()
        invariant
            i <= names@.len(),
            target@ == target_name@,
            forall|k: int| 0 <= k < i ==> !has_name(#[trigger] names@[k], target_name@),
        decreases names@.len() - i,
    {
        if let Some(name) = &names[i] {
            if *name == target {
                return Some(i);
            }
        }
        i = i + 1;
    }
    None
}

// ---- The test pattern ----

/// The pixel lies less than two pixels away from a line through the center.
pub open spec fn on_crosshair(x: int, y: int, width: int, height: int) -> bool {
    -2 < x - width / 2 < 2 || -2 < y - height / 2 < 2
}

/// The pixel lies within four pixels of an edge.
pub open spec fn on_border(x: int, y: int, width: int, height: int) -> bool {
    x < 4 || x >= width - 4 || y < 4 || y >= height - 4
}

/// The pixel lies on a light tile of the checkerboard.
pub open spec fn on_light_tile(x: int, y: int) -> bool {
    (x / TILE_SIZE as int + y / TILE_SIZE as int) % 2 == 0
}

/// The color of a pixel of the test pattern: a yellow crosshair over a red border over a
/// checkerboard whose light tiles show the gradients.
pub open spec fn pattern_color(
    x: int,
    y: int,
    width: int,
    height: int,
    ramp_x: Seq<u8>,
    ramp_y: Seq<u8>,
) -> (u8, u8, u8) {
    if on_crosshair(x, y, width, height) {
        (255, 255, 0)
    } else if on_border(x, y, width, height) {
        (255, 0, 0)
    } else if on_light_tile(x, y) {
        ((ramp_x[x] + 40) as u8, (ramp_y[y] + 40) as u8, 120)
    } else {
        (30, 30, 40)
    }
}

/// The four bytes of pixel `i` are the given color, fully opaque.
pub open spec fn shows(data: Seq<u8>, i: int, color: (u8, u8, u8)) -> bool {
    &&& data[4 * i] == color.0
    &&& data[4 * i + 1] == color.1
    &&& data[4 * i + 2] == color.2
    &&& data[4 * i + 3] == 255
}

/// `frame` is the test pattern of the given size.
pub open spec fn is_pattern(
    frame: CapturedFrame,
    width: u32,
    height: u32,
    ramp_x: Seq<u8>,
    ramp_y: Seq<u8>,
) -> bool {
    &&& frame.data@.len() == 4 * (width * height)
    &&& forall|x: int, y: int|
        0 <= x < width && 0 <= y < height ==> shows(
            frame.data@,
            y * width + x,
            #[trigger] pattern_color(x, y, width as int, height as int, ramp_x, ramp_y),
        )
    &&& frame.width == width
    &&& frame.height == height
    &&& frame.stride == 4 * width
    &&& frame.format == PixelFormat::Abgr8888
    &&& frame.timestamp_ns == 0
}

fn pattern_pixel(
    x: u32,
    y: u32,
    width: u32,
    height: u32,
    ramp_x: &Vec<u8>,
    ramp_y: &Vec<u8>,
) -> (r: (u8, u8, u8))
    requires
        x < width == ramp_x@.len(),
        y < height == ramp_y@.len(),
        ramp_x@[x as int] <= 215,
        ramp_y@[y as int] <= 215,
    ensures
        r == pattern_color(
            x as int,
            y as int,
            width as int,
            height as int,
            ramp_x@,
            ramp_y@,
        ),
{
    let dx: i64 = x as i64 - (width / 2) as i64;
    let dy: i64 = y as i64 - (height / 2) as i64;
    if (-2 < dx && dx < 2) || (-2 < dy && dy < 2) {
        return (255, 255, 0);
    }
    if x < 4 || x >= width - 4 || y < 4 || y >= height - 4 {
        return (255, 0, 0);
    }
    let tiles: u32 = x / TILE_SIZE + y / TILE_SIZE;
    if tiles % 2 == 0 {
        (ramp_x[x as usize] + 40, ramp_y[y as usize] + 40, 120)
    } else {
        (30, 30, 40)
    }
}

/// A test pattern on which every movement of the head can be seen. `ramp_x` and `ramp_y` give,
/// for each column and each row, how far it is along its side, on a scale of 200.
pub fn generate_test_pattern(width: u32, height: u32, ramp_x: &Vec<u8>, ramp_y: &Vec<u8>) -> (r:
    CapturedFrame)
    requires
        width * height * 4 <= u32::MAX,
        width * 4 <= u32::MAX,
        ramp_x@.len() == width,
        ramp_y@.len() == height,
        forall|i: int| 0 <= i < width ==> #[trigger] ramp_x@[i] <= 215,
        forall|i: int| 0 <= i < height ==> #[trigger] ramp_y@[i] <= 215,
    ensures
        is_pattern(r, width, height, ramp_x@, ramp_y@),
        r.data@.len() == 4 * (width * height),
        forall|x: int, y: int|
            0 <= x < width && 0 <= y < height ==> shows(
                r.data@,
                y * width + x,
                #[trigger] pattern_color(x, y, width as int, height as int, ramp_x@, ramp_y@),
            ),
        r.width == width,
        r.height == height,
        r.stride == 4 * width,
        r.format == PixelFormat::Abgr8888,
        r.timestamp_ns == 0,
{
    let mut data: Vec<u8> = Vec::new();
    let mut y: u32 = 0;
    while y < height
        invariant
            y <= height,
            ramp_x@.len() == width,
            ramp_y@.len() == height,
            forall|i: int| 0 <= i < width ==> #[trigger] ramp_x@[i] <= 215,
            forall|i: int| 0 <= i < height ==> #[trigger] ramp_y@[i] <= 215,
            data@.len() == 4 * (y * width),
            forall|a: int, b: int|
                0 <= a < width && 0 <= b < y ==> shows(
                    data@,
                    b * width + a,
                    #[trigger] pattern_color(a, b, width as int, height as int, ramp_x@, ramp_y@),
                ),
        decreases height - y,
    {
        let mut x: u32 = 0;
        while x < width
            invariant
                x <= width,
                y < height,
                ramp_x@.len() == width,
                ramp_y@.len() == height,
                forall|i: int| 0 <= i < width ==> #[trigger] ramp_x@[i] <= 215,
                forall|i: int| 0 <= i < height ==> #[trigger] ramp_y@[i] <= 215,
                data@.len() == 4 * (y * width + x),
                forall|a: int, b: int|
                    0 <= a < width && 0 <= b && (b < y || b == y && a < x) ==> shows(
                        data@,
                        b * width + a,
                        #[trigger] pattern_color(
                            a,
                            b,
                            width as int,
                            height as int,
                            ramp_x@,
                            ramp_y@,
                        ),
                    ),
            decreases width - x,
        {
            let ghost before = data@;
            let (r, g, b) = pattern_pixel(x, y, width, height, ramp_x, ramp_y);
            data.push(r);
            data.push(g);
            data.push(b);
            data.push(255);
            proof {
                assert forall|a: int, b: int|
                    0 <= a < width && 0 <= b && (b < y || b == y && a < x + 1) implies shows(
                    data@,
                    b * width + a,
                    #[trigger] pattern_color(a, b, width as int, height as int, ramp_x@, ramp_y@),
                ) by {
                    if b < y || a < x {
                        earlier_pixel(a, b, x as int, y as int, width as int);
                        assert(shows(
                            before,
                            b * width + a,
                            pattern_color(a, b, width as int, height as int, ramp_x@, ramp_y@),
                        ));
                    }
                }
            }
            x = x + 1;
        }
        assert((y + 1) * width == y * width + width) by (nonlinear_arith);
        y = y + 1;
    }
    assert(height * width == width * height) by (nonlinear_arith);
    CapturedFrame {
        data,
        width,
        height,
        stride: width * 4,
        format: PixelFormat::Abgr8888,
        timestamp_ns: 0,
    }
}

proof fn earlier_pixel(a: int, b: int, x: int, y: int, width: int)
    requires
        0 <= a < width,
        0 <= b,
        0 <= x,
        b < y || b == y && a < x,
    ensures
        0 <= b * width + a < y * width + x,
{
    assert(0 <= b * width) by (nonlinear_arith)
        requires
            0 <= b,
            0 <= width,
    ;
    if b < y {
        assert(b * width + width <= y * width) by (nonlinear_arith)
            requires
                b + 1 <= y,
                0 <= width,
        ;
    }
}

// ---- Laws ----

/// How the outside steps of one redraw go.
pub ghost struct Course {
    pub repin: bool,
    pub posed: bool,
    pub captured: Option<(u32, u32)>,
    pub rendered: bool,
    pub buffered: bool,
    pub attached: bool,
}

/// The events of a redraw that takes the given course, up to its end.
pub open spec fn events_of(c: Course) -> Seq<DrawEvent> {
    let start = seq![
        DrawEvent::Begin { repin: c.repin },
        match c.captured {
            Some((width, height)) => DrawEvent::Captured { posed: c.posed, width, height },
            None => DrawEvent::CaptureFailed { posed: c.posed },
        },
    ];
    if !c.rendered {
        start.push(DrawEvent::RenderFailed)
    } else if !c.buffered {
        start.push(DrawEvent::Rendered).push(DrawEvent::BufferFailed)
    } else if !c.attached {
        start.push(DrawEvent::Rendered).push(DrawEvent::BufferReady).push(DrawEvent::AttachFailed)
    } else {
        start.push(DrawEvent::Rendered).push(DrawEvent::BufferReady).push(DrawEvent::Attached)
    }
}

/// The state after a row of events.
pub open spec fn state_after(app: App, events: Seq<DrawEvent>) -> App
    decreases events.len(),
{
    if events.len() == 0 {
        app
    } else {
        draw_step(state_after(app, events.drop_last()), events.last()).0
    }
}

/// How often a row of events has the next frame requested.
pub open spec fn requests_in(app: App, events: Seq<DrawEvent>) -> nat
    decreases events.len(),
{
    if events.len() == 0 {
        0
    } else {
        let action = draw_step(state_after(app, events.drop_last()), events.last()).1;
        requests_in(app, events.drop_last()) + if action is Present || action is RequestFrame {
            1nat
        } else {
            0
        }
    }
}

proof fn state_after_push(app: App, events: Seq<DrawEvent>, event: DrawEvent)
    ensures
        state_after(app, events.push(event)) == draw_step(state_after(app, events), event).0,
        requests_in(app, events.push(event)) == requests_in(app, events) + (if event is BufferReady
            || event is RenderFailed || event is BufferFailed {
            1nat
        } else {
            0
        }),
{
    assert(events.push(event).drop_last() =~= events);
}

proof fn course_of_redraw(app: App, c: Course)
    requires
        app.frame_count < u64::MAX,
    ensures
        requests_in(app, events_of(c)) == 1,
        state_after(app, events_of(c)) == (App {
            source_size: match c.captured {
                Some(size) => Some(size),
                None => if app.frame_count == 0 {
                    Some((app.width, app.height))
                } else {
                    app.source_size
                },
            },
            frame_count: if c.rendered && c.buffered && c.attached {
                (app.frame_count + 1) as u64
            } else {
                app.frame_count
            },
            ..app
        }),
{
    let none = Seq::<DrawEvent>::empty();
    let begin = DrawEvent::Begin { repin: c.repin };
    let capture = match c.captured {
        Some((width, height)) => DrawEvent::Captured { posed: c.posed, width, height },
        None => DrawEvent::CaptureFailed { posed: c.posed },
    };
    let start = none.push(begin).push(capture);
    assert(start =~= seq![begin, capture]);
    state_after_push(app, none, begin);
    state_after_push(app, none.push(begin), capture);
    if !c.rendered {
        state_after_push(app, start, DrawEvent::RenderFailed);
        assert(events_of(c) =~= start.push(DrawEvent::RenderFailed));
    } else {
        let drawn = start.push(DrawEvent::Rendered);
        state_after_push(app, start, DrawEvent::Rendered);
        if !c.buffered {
            state_after_push(app, drawn, DrawEvent::BufferFailed);
            assert(events_of(c) =~= drawn.push(DrawEvent::BufferFailed));
        } else {
            let filled = drawn.push(DrawEvent::BufferReady);
            state_after_push(app, drawn, DrawEvent::BufferReady);
            if c.attached {
                state_after_push(app, filled, DrawEvent::Attached);
                assert(events_of(c) =~= filled.push(DrawEvent::Attached));
            } else {
                state_after_push(app, filled, DrawEvent::AttachFailed);
                assert(events_of(c) =~= filled.push(DrawEvent::AttachFailed));
            }
        }
    }
}

/// A redraw requests the next frame exactly once, whatever fails in its course, so redrawing
/// goes on and does not multiply.
pub proof fn redraw_requests_one_frame(app: App, c: Course)
    requires
        app.frame_count < u64::MAX,
    ensures
        requests_in(app, events_of(c)) == 1,
{
    course_of_redraw(app, c);
}

/// A redraw counts exactly if all its steps after the capture succeed, and leaves the size and
/// the rest of the surface's state alone.
pub proof fn redraw_counts_presented_frames(app: App, c: Course)
    requires
        app.frame_count < u64::MAX,
    ensures
        state_after(app, events_of(c)).frame_count == app.frame_count + if c.rendered && c.buffered
            && c.attached {
            1int
        } else {
            0
        },
        state_after(app, events_of(c)).width == app.width,
        state_after(app, events_of(c)).height == app.height,
        state_after(app, events_of(c)).configured == app.configured,
        state_after(app, events_of(c)).exit == app.exit,
{
    course_of_redraw(app, c);
}

/// After a redraw there is content to show: captured in it, left from before, or, before the
/// first frame, a test pattern.
pub proof fn redraw_has_content(app: App, c: Course)
    requires
        app.frame_count < u64::MAX,
        app.frame_count > 0 ==> app.source_size is Some,
    ensures
        state_after(app, events_of(c)).source_size is Some,
{
    course_of_redraw(app, c);
}

/// The test pattern stands in only for a capture that fails before any frame was presented.
pub proof fn test_pattern_only_at_first(app: App, event: DrawEvent)
    ensures
        draw_step(app, event).1 matches DrawAction::Render { upload, .. } && upload
            == Upload::TestPattern <==> event is CaptureFailed && app.frame_count == 0,
{
}

/// The display is drawn in every redraw, whether a frame was captured or not: as the pose has it
/// where one was read, and otherwise under the identity.
pub proof fn every_redraw_is_drawn(app: App, posed: bool, width: u32, height: u32)
    ensures
        draw_step(app, DrawEvent::Captured { posed, width, height }).1 == (DrawAction::Render {
            upload: Upload::Frame,
            transform: transform_for(posed),
        }),
        draw_step(app, DrawEvent::CaptureFailed { posed }).1 matches DrawAction::Render {
            upload,
            transform,
        } && transform == transform_for(posed) && upload != Upload::Frame,
{
}

/// A redraw begins with a capture; the display is centered anew exactly where asked to, and the
/// pose is reported on at the first frame and then at every 120th.
pub proof fn redraws_begin_with_a_capture(app: App, repin: bool)
    ensures
        draw_step(app, DrawEvent::Begin { repin }).0 == app,
        draw_step(app, DrawEvent::Begin { repin }).1 matches DrawAction::Capture {
            reset,
            report_pose,
        } && reset == repin && (report_pose <==> app.frame_count as int % 120 == 0),
{
}

/// A captured frame gives its sides to the content; a capture that fails leaves them, but before
/// the first frame they are those of the surface, which the test pattern has. Nothing else
/// changes.
pub proof fn content_has_the_sides_of_what_is_uploaded(
    app: App,
    posed: bool,
    width: u32,
    height: u32,
)
    ensures
        draw_step(app, DrawEvent::Captured { posed, width, height }).0 == (App {
            source_size: Some((width, height)),
            ..app
        }),
        app.frame_count == 0 ==> draw_step(app, DrawEvent::CaptureFailed { posed }).0 == (App {
            source_size: Some((app.width, app.height)),
            ..app
        }),
        app.frame_count != 0 ==> draw_step(app, DrawEvent::CaptureFailed { posed }).0 == app,
        app.frame_count != 0 ==> (draw_step(app, DrawEvent::CaptureFailed { posed }).1 matches
            DrawAction::Render { upload, .. } && upload == Upload::Nothing),
        transform_for(true) == Transform::Posed,
        transform_for(false) == Transform::Identity,
{
}

/// What was rendered is presented in a buffer of four bytes a pixel; whatever fails on the way
/// has the next frame requested, and only an attached buffer is committed, counted and, at every
/// 60th, reported on.
pub proof fn rendered_frames_are_presented(app: App)
    requires
        app.frame_count < u64::MAX,
    ensures
        app.width < 0x2000_0000 ==> draw_step(app, DrawEvent::Rendered).1
            == (DrawAction::CreateBuffer { stride: (app.width * 4) as i32 }),
        app.width >= 0xe000_0000 ==> draw_step(app, DrawEvent::Rendered).1
            == (DrawAction::CreateBuffer { stride: ((app.width - 0x1_0000_0000) * 4) as i32 }),
        draw_step(app, DrawEvent::Rendered).0 == app,
        draw_step(app, DrawEvent::RenderFailed) == (app, DrawAction::RequestFrame),
        draw_step(app, DrawEvent::BufferReady) == (app, DrawAction::Present),
        draw_step(app, DrawEvent::BufferFailed) == (app, DrawAction::RequestFrame),
        draw_step(app, DrawEvent::AttachFailed) == (app, DrawAction::Stop),
        draw_step(app, DrawEvent::Attached).0 == (App {
            frame_count: (app.frame_count + 1) as u64,
            ..app
        }),
        draw_step(app, DrawEvent::Attached).1 matches DrawAction::Commit { report_rate } && (
        report_rate <==> (app.frame_count + 1) % 60 == 0),
{
}

/// An overlay begins unconfigured, with the sides of the glasses and nothing shown.
pub proof fn overlay_begins_with_the_sides_of_the_glasses(app: App, xr: OutputInfo)
    requires
        is_fresh(app, xr),
    ensures
        xr.width >= 0 ==> app.width == xr.width,
        xr.width < 0 ==> app.width == xr.width + 0x1_0000_0000,
        xr.height >= 0 ==> app.height == xr.height,
        xr.height < 0 ==> app.height == xr.height + 0x1_0000_0000,
        !app.configured && !app.exit && app.source_size is None && app.frame_count == 0,
{
}

/// A size that the compositor gives is taken side by side, where it is not 0, and no other part
/// of the state changes; the same size once more changes nothing.
pub proof fn given_sizes_are_taken(app: App, w: u32, h: u32)
    ensures
        w != 0 ==> resized(app, w, h).width == w,
        w == 0 ==> resized(app, w, h).width == app.width,
        h != 0 ==> resized(app, w, h).height == h,
        h == 0 ==> resized(app, w, h).height == app.height,
        resized(app, w, h).configured,
        resized(app, w, h).exit == app.exit,
        resized(app, w, h).source_size == app.source_size,
        resized(app, w, h).frame_count == app.frame_count,
        resized(resized(app, w, h), w, h) == resized(app, w, h),
{
}

/// The output to cover is the first one of that name, and is found wherever there is one; the
/// surface then awaits its first size again, and otherwise stays as it is.
pub proof fn outputs_are_found_by_name(
    app: App,
    names: Seq<Option<String>>,
    name: Seq<char>,
    r: Option<usize>,
    k: int,
)
    requires
        first_named(names, name, r),
        0 <= k < names.len(),
    ensures
        r matches Some(i) ==> i < names.len() && names[i as int] is Some && names[i as int]->0@
            == name,
        names[k] is Some && names[k]->0@ == name ==> r is Some && r->0 <= k,
        r is Some ==> targeted(app, r) == (App { configured: false, ..app }),
        r is None ==> targeted(app, r) == app,
{
    assert(has_name(names[k], name) <==> names[k] is Some && names[k]->0@ == name);
}

/// Pixel `i` of the surface reaches the buffer with red and blue exchanged, whatever its values;
/// what stands behind the surface stays, and where either side is too short nothing changes.
pub proof fn pixels_reach_the_buffer(app: App, pixels: Seq<u8>, canvas: Seq<u8>, i: int, k: int)
    ensures
        presented(app, pixels, canvas).len() == canvas.len(),
        pixels.len() < app.width * app.height * 4 || canvas.len() < app.width * app.height * 4
            ==> presented(app, pixels, canvas) == canvas,
        pixels.len() >= app.width * app.height * 4 && canvas.len() >= app.width * app.height * 4
            ==> {
            &&& 0 <= i < app.width * app.height ==> {
                &&& presented(app, pixels, canvas)[4 * i] == pixels[4 * i + 2]
                &&& presented(app, pixels, canvas)[4 * i + 1] == pixels[4 * i + 1]
                &&& presented(app, pixels, canvas)[4 * i + 2] == pixels[4 * i]
                &&& presented(app, pixels, canvas)[4 * i + 3] == pixels[4 * i + 3]
            }
            &&& app.width * app.height * 4 <= k < canvas.len() ==> presented(
                app,
                pixels,
                canvas,
            )[k] == canvas[k]
        },
{
    let count = app.width * app.height;
    assert(0 <= count) by (nonlinear_arith)
        requires
            count == app.width * app.height,
            0 <= app.width,
            0 <= app.height,
    ;
    if pixels.len() >= count * 4 && canvas.len() >= count * 4 && 0 <= i < count {
        pixels::exchanged_pixel(pixels.take(count * 4), i);
    }
}

/// The pool holds three buffers of four bytes a pixel.
pub proof fn pool_holds_three_buffers(app: App)
    ensures
        pool_bytes(app) == 3 * (4 * (app.width * app.height)),
{
}

/// The lines through the center, three pixels wide, are yellow.
pub proof fn pattern_has_a_crosshair(
    frame: CapturedFrame,
    width: u32,
    height: u32,
    ramp_x: Seq<u8>,
    ramp_y: Seq<u8>,
    x: int,
    y: int,
)
    requires
        is_pattern(frame, width, height, ramp_x, ramp_y),
        0 <= x < width,
        0 <= y < height,
        width as int / 2 - 1 <= x <= width as int / 2 + 1 || height as int / 2 - 1 <= y <= height
            as int / 2 + 1,
    ensures
        frame.data@[4 * (y * width + x)] == 255,
        frame.data@[4 * (y * width + x) + 1] == 255,
        frame.data@[4 * (y * width + x) + 2] == 0,
        frame.data@[4 * (y * width + x) + 3] == 255,
{
    assert(shows(
        frame.data@,
        y * width + x,
        pattern_color(x, y, width as int, height as int, ramp_x, ramp_y),
    ));
}

/// Beside the crosshair, the pixels within four pixels of an edge are red.
pub proof fn pattern_has_a_border(
    frame: CapturedFrame,
    width: u32,
    height: u32,
    ramp_x: Seq<u8>,
    ramp_y: Seq<u8>,
    x: int,
    y: int,
)
    requires
        is_pattern(frame, width, height, ramp_x, ramp_y),
        0 <= x < width,
        0 <= y < height,
        x < width as int / 2 - 1 || x > width as int / 2 + 1,
        y < height as int / 2 - 1 || y > height as int / 2 + 1,
        x <= 3 || width - x <= 4 || y <= 3 || height - y <= 4,
    ensures
        frame.data@[4 * (y * width + x)] == 255,
        frame.data@[4 * (y * width + x) + 1] == 0,
        frame.data@[4 * (y * width + x) + 2] == 0,
        frame.data@[4 * (y * width + x) + 3] == 255,
{
    assert(shows(
        frame.data@,
        y * width + x,
        pattern_color(x, y, width as int, height as int, ramp_x, ramp_y),
    ));
}

/// Inside the border and beside the crosshair stand tiles of 64 pixels, light and dark in turn:
/// the light ones show how far along either side they are, brightened by 40, the dark ones are
/// all the same.
pub proof fn pattern_has_tiles(
    frame: CapturedFrame,
    width: u32,
    height: u32,
    ramp_x: Seq<u8>,
    ramp_y: Seq<u8>,
    x: int,
    y: int,
)
    requires
        is_pattern(frame, width, height, ramp_x, ramp_y),
        4 <= x < width - 4,
        4 <= y < height - 4,
        x < width as int / 2 - 1 || x > width as int / 2 + 1,
        y < height as int / 2 - 1 || y > height as int / 2 + 1,
        ramp_x[x] <= 215,
        ramp_y[y] <= 215,
    ensures
        ({
            let at = 4 * (y * width + x);
            let light = (x / 64) % 2 == (y / 64) % 2;
            &&& light ==> frame.data@[at] == ramp_x[x] + 40 && frame.data@[at + 1] == ramp_y[y] + 40
                && frame.data@[at + 2] == 120
            &&& !light ==> frame.data@[at] == 30 && frame.data@[at + 1] == 30 && frame.data@[at + 2]
                == 40
            &&& frame.data@[at + 3] == 255
        }),
{
    assert(shows(
        frame.data@,
        y * width + x,
        pattern_color(x, y, width as int, height as int, ramp_x, ramp_y),
    ));
}

/// The test pattern is a frame of the given size, row behind row, in the order red, green, blue
/// and opacity.
pub proof fn pattern_is_a_frame(
    frame: CapturedFrame,
    width: u32,
    height: u32,
    ramp_x: Seq<u8>,
    ramp_y: Seq<u8>,
)
    requires
        is_pattern(frame, width, height, ramp_x, ramp_y),
    ensures
        frame.width == width,
        frame.height == height,
        frame.stride == 4 * width,
        frame.data@.len() == width * height * 4,
        frame.format == PixelFormat::Abgr8888,
        frame.timestamp_ns == 0,
{
}

} // verus!
