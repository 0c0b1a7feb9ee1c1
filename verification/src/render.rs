//! How the virtual display answers to the head: which orientation is shown, what the display is
//! drawn on, and how that reaches the GPU.
//!
//! The arithmetic on quaternions is done elsewhere. It is asked for by a `ViewAction`, and its
//! result comes back in a `ViewEvent`.

use vstd::prelude::*;

use crate::bytes;
use crate::bytes::copy_bytes;
use crate::ieee;
use crate::ieee::{
    Quaternion, Single, SINGLE_MINUS_ONE, SINGLE_ONE, SINGLE_ZERO,
};

verus! {

/// Turns of the head below so many degrees are ignored: 0.4.
pub const DEAD_ZONE_DEGREES: u32 = 0x3ecc_cccd;

/// The field of view in degrees where the driver tells none: 46.
pub const FALLBACK_FOV_DEGREES: u32 = 0x4238_0000;

/// The rotation that changes nothing.
pub open spec fn identity() -> Quaternion {
    Quaternion {
        x: Single { bits: SINGLE_ZERO },
        y: Single { bits: SINGLE_ZERO },
        z: Single { bits: SINGLE_ZERO },
        w: Single { bits: SINGLE_ONE },
    }
}

/// The orientations that the shown one depends on.
#[derive(Debug, Clone, Copy, PartialEq, Eq, Structural)]
pub struct Renderer {
    /// The orientation that counts as straight ahead, once known, as the sensor tells it.
    pub reference_q: Option<Quaternion>,
    /// The orientation that the display rests at in smooth follow.
    pub smooth_follow_anchor: Quaternion,
    /// Whether there is such an orientation yet.
    pub anchor_initialized: bool,
    /// The orientation shown last.
    pub last_orientation: Quaternion,
}

/// What has happened on the way to an orientation to show.
#[derive(Debug, Clone, Copy, PartialEq, Eq, Structural)]
pub enum ViewEvent {
    /// The sensor tells the orientation `raw`.
    Start { raw: Quaternion },
    /// `delta` is the rotation from the reference to the orientation told.
    Compared { delta: Quaternion },
    /// `head` is the head's orientation, of unit length.
    Normalized { head: Quaternion },
    /// The head has turned by so many degrees since the orientation shown last.
    Turned { head: Quaternion, degrees: Single },
    /// `filtered` is the head's orientation with its unrest damped.
    Damped { filtered: Quaternion },
    /// The head is so many degrees away from where the display rests.
    Drifted { filtered: Quaternion, degrees: Single },
    /// `anchor` is where the display comes to rest.
    Eased { anchor: Quaternion },
}

/// The next step on the way to an orientation to show.
#[derive(Debug, Clone, Copy, PartialEq, Eq, Structural)]
pub enum ViewAction {
    /// Compute the rotation from `reference` to `raw`.
    Compare { reference: Quaternion, raw: Quaternion },
    /// Bring `q` to unit length.
    Normalize { q: Quaternion },
    /// Measure the angle from `from` to `to`.
    MeasureTurn { from: Quaternion, to: Quaternion },
    /// Move from `from` towards `to`, the further the larger the turn was.
    Damp { from: Quaternion, to: Quaternion, degrees: Single },
    /// Measure the angle from `anchor` to `to`.
    MeasureDrift { anchor: Quaternion, to: Quaternion },
    /// Move from `anchor` gently towards `to`.
    Ease { anchor: Quaternion, to: Quaternion, degrees: Single },
    /// Show the display at this orientation.
    Show { orientation: Quaternion },
}

/// A rotation told along the sensor's axes, along the display's. The sensor's axes point forward,
/// up and right, the display's right, up and back; the signs make the display move against the
/// head.
pub open spec fn sensor_axes(delta: Quaternion) -> Quaternion {
    Quaternion { x: delta.z.flipped(), y: delta.y.flipped(), z: delta.x, w: delta.w }
}

/// The turn is too small to be followed.
pub open spec fn in_dead_zone(degrees: Single) -> bool {
    degrees.below(Single { bits: DEAD_ZONE_DEGREES })
}

/// The orientation is shown, and remembered.
pub open spec fn shown(r: Renderer, orientation: Quaternion) -> (Renderer, ViewAction) {
    (Renderer { last_orientation: orientation, ..r }, ViewAction::Show { orientation })
}

/// The display follows the head: at once without smooth follow, and with it from where it rests,
/// which is where the head is at first.
pub open spec fn follow(r: Renderer, filtered: Quaternion, smooth_follow: bool) -> (
    Renderer,
    ViewAction,
) {
    if !smooth_follow {
        shown(r, filtered)
    } else if !r.anchor_initialized {
        shown(
            Renderer { smooth_follow_anchor: filtered, anchor_initialized: true, ..r },
            filtered,
        )
    } else {
        (r, ViewAction::MeasureDrift { anchor: r.smooth_follow_anchor, to: filtered })
    }
}

/// The step that follows an event, and the orientations then.
pub open spec fn view_step(
    r: Renderer,
    event: ViewEvent,
    smooth_follow: bool,
    threshold: Single,
) -> (Renderer, ViewAction) {
    match event {
        ViewEvent::Start { raw } => {
            let reference = match r.reference_q {
                Some(q) => q,
                None => raw,
            };
            (
                Renderer { reference_q: Some(reference), ..r },
                ViewAction::Compare { reference, raw },
            )
        },
        ViewEvent::Compared { delta } => (r, ViewAction::Normalize { q: sensor_axes(delta) }),
        ViewEvent::Normalized { head } => (
            r,
            ViewAction::MeasureTurn { from: r.last_orientation, to: head },
        ),
        ViewEvent::Turned { head, degrees } => if in_dead_zone(degrees) {
            follow(r, r.last_orientation, smooth_follow)
        } else {
            (r, ViewAction::Damp { from: r.last_orientation, to: head, degrees })
        },
        ViewEvent::Damped { filtered } => follow(r, filtered, smooth_follow),
        ViewEvent::Drifted { filtered, degrees } => if threshold.below(degrees) {
            (r, ViewAction::Ease { anchor: r.smooth_follow_anchor, to: filtered, degrees })
        } else {
            shown(r, r.smooth_follow_anchor)
        },
        ViewEvent::Eased { anchor } => shown(
            Renderer { smooth_follow_anchor: anchor, ..r },
            anchor,
        ),
    }
}

/// The renderer without what counts as straight ahead and without where the display rests.
pub open spec fn forgetful(r: Renderer) -> Renderer {
    Renderer { reference_q: None, anchor_initialized: false, ..r }
}

impl Renderer {
    /// A renderer that has shown nothing yet.
    pub fn new() -> (r: Self)
        ensures
            r.reference_q is None,
            r.smooth_follow_anchor == identity(),
            !r.anchor_initialized,
            r.last_orientation == identity(),
    {
        let zero = Single { bits: SINGLE_ZERO };
        let one = Single { bits: SINGLE_ONE };
        let q = Quaternion { x: zero, y: zero, z: zero, w: one };
        Renderer {
            reference_q: None,
            smooth_follow_anchor: q,
            anchor_initialized: false,
            last_orientation: q,
        }
    }

    /// The orientation that counts as straight ahead: the first one told since the last reset.
    pub fn sensor_to_renderer(&mut self, raw: Quaternion) -> (r: Quaternion)
        ensures
            r == (match old(self).reference_q {
                Some(q) => q,
                None => raw,
            }),
            *final(self) == (Renderer { reference_q: Some(r), ..*old(self) }),
    {
        match self.reference_q {
            Some(q) => q,
            None => {
                self.reference_q = Some(raw);
                raw
            },
        }
    }

    fn show(&mut self, orientation: Quaternion) -> (r: ViewAction)
        ensures
            (*final(self), r) == shown(*old(self), orientation),
    {
        self.last_orientation = orientation;
        ViewAction::Show { orientation }
    }

    /// The display follows the head, with smooth follow or without.
    pub fn compute_smooth_follow(&mut self, filtered: Quaternion, smooth_follow: bool) -> (r:
        ViewAction)
        ensures
            (*final(self), r) == follow(*old(self), filtered, smooth_follow),
    {
        if !smooth_follow {
            return self.show(filtered);
        }
        if !self.anchor_initialized {
            self.smooth_follow_anchor = filtered;
            self.anchor_initialized = true;
            return self.show(filtered);
        }
        ViewAction::MeasureDrift { anchor: self.smooth_follow_anchor, to: filtered }
    }

    /// One step on the way to the orientation to show. `threshold` is the angle in degrees
    /// beyond which the display follows in smooth follow.
    pub fn compute_view_matrix(
        &mut self,
        event: ViewEvent,
        smooth_follow: bool,
        threshold: Single,
    ) -> (r: ViewAction)
        ensures
            (*final(self), r) == view_step(*old(self), event, smooth_follow, threshold),
    {
        match event {
            ViewEvent::Start { raw } => {
                let reference = self.sensor_to_renderer(raw);
                ViewAction::Compare { reference, raw }
            },
            ViewEvent::Compared { delta } => {
                ViewAction::Normalize {
                    q: Quaternion {
                        x: delta.z.negate(),
                        y: delta.y.negate(),
                        z: delta.x,
                        w: delta.w,
                    },
                }
            },
            ViewEvent::Normalized { head } => {
                ViewAction::MeasureTurn { from: self.last_orientation, to: head }
            },
            ViewEvent::Turned { head, degrees } => {
                if degrees.less_than(Single { bits: DEAD_ZONE_DEGREES }) {
                    let kept = self.last_orientation;
                    self.compute_smooth_follow(kept, smooth_follow)
                } else {
                    ViewAction::Damp { from: self.last_orientation, to: head, degrees }
                }
            },
            ViewEvent::Damped { filtered } => self.compute_smooth_follow(filtered, smooth_follow),
            ViewEvent::Drifted { filtered, degrees } => {
                if threshold.less_than(degrees) {
                    ViewAction::Ease { anchor: self.smooth_follow_anchor, to: filtered, degrees }
                } else {
                    let kept = self.smooth_follow_anchor;
                    self.show(kept)
                }
            },
            ViewEvent::Eased { anchor } => {
                self.smooth_follow_anchor = anchor;
                self.show(anchor)
            },
        }
    }

    /// Forgets what counts as straight ahead and where the display rests.
    pub fn reset_smooth_follow(&mut self)
        ensures
            *final(self) == forgetful(*old(self)),
            *final(self) == (Renderer {
                reference_q: None,
                anchor_initialized: false,
                ..*old(self)
            }),
    {
        self.anchor_initialized = false;
        self.reference_q = None;
    }

    /// The corners of the display, and the two triangles that fill it.
    pub fn quad_vertices() -> (r: (Vec<QuadVertex>, Vec<u16>))
        ensures
            r.0@.map_values(|v: QuadVertex| v@) == quad_corners(),
            r.1@ == seq![0u16, 1, 2, 0, 2, 3],
    {
        let mut vertices: Vec<QuadVertex> = Vec::new();
        vertices.push(corner(SINGLE_MINUS_ONE, SINGLE_MINUS_ONE, SINGLE_ZERO, SINGLE_ONE));
        vertices.push(corner(SINGLE_ONE, SINGLE_MINUS_ONE, SINGLE_ONE, SINGLE_ONE));
        vertices.push(corner(SINGLE_ONE, SINGLE_ONE, SINGLE_ONE, SINGLE_ZERO));
        vertices.push(corner(SINGLE_MINUS_ONE, SINGLE_ONE, SINGLE_ZERO, SINGLE_ZERO));
        let indices: Vec<u16> = vec![0, 1, 2, 0, 2, 3];
        assert(indices@ =~= seq![0u16, 1, 2, 0, 2, 3]);
        assert(vertices@.map_values(|v: QuadVertex| v@) =~= quad_corners());
        (vertices, indices)
    }
}

/// The field of view in degrees: the one told, where it is positive.
pub open spec fn angle_of_view(told: Single) -> Single {
    if (Single { bits: SINGLE_ZERO }).below(told) {
        told
    } else {
        Single { bits: FALLBACK_FOV_DEGREES }
    }
}

/// The field of view in degrees: the one told, where it is positive.
pub fn field_of_view(told: Single) -> (r: Single)
    ensures
        r == angle_of_view(told),
        r == (if (Single { bits: SINGLE_ZERO }).below(told) {
            told
        } else {
            Single { bits: FALLBACK_FOV_DEGREES }
        }),
{
    let zero = Single { bits: SINGLE_ZERO };
    if zero.less_than(told) {
        told
    } else {
        Single { bits: FALLBACK_FOV_DEGREES }
    }
}

/// The two sides whose ratio the display has.
pub open spec fn shape_of(viewport: (u32, u32), source: Option<(u32, u32)>) -> (u32, u32) {
    match source {
        Some((w, h)) => if w > 0 && h > 0 {
            (w, h)
        } else {
            viewport
        },
        None => viewport,
    }
}

/// The two sides whose ratio the display has: those of the captured content, where it has any,
/// so that it is not stretched, and else those of the viewport.
pub fn display_shape(viewport: (u32, u32), source: Option<(u32, u32)>) -> (r: (u32, u32))
    ensures
        r == shape_of(viewport, source),
        r == (match source {
            Some((w, h)) => if w > 0 && h > 0 {
                (w, h)
            } else {
                viewport
            },
            None => viewport,
        }),
{
    match source {
        Some((w, h)) => {
            if w > 0 && h > 0 {
                (w, h)
            } else {
                viewport
            }
        },
        None => viewport,
    }
}

// ---- What the GPU gets ----

/// A corner of the display: where it is, and which point of the content it shows.
#[derive(Debug, Clone, Copy)]
pub struct QuadVertex {
    pub position: [Single; 3],
    pub uv: [Single; 2],
}

impl View for QuadVertex {
    type V = (Seq<Single>, Seq<Single>);

    open spec fn view(&self) -> (Seq<Single>, Seq<Single>) {
        (self.position@, self.uv@)
    }
}

/// A corner in the plane of the display.
pub open spec fn corner_at(x: u32, y: u32, u: u32, v: u32) -> (Seq<Single>, Seq<Single>) {
    (
        seq![Single { bits: x }, Single { bits: y }, Single { bits: SINGLE_ZERO }],
        seq![Single { bits: u }, Single { bits: v }],
    )
}

/// The corners at bottom left, bottom right, top right and top left.
pub open spec fn quad_corners() -> Seq<(Seq<Single>, Seq<Single>)> {
    seq![
        corner_at(SINGLE_MINUS_ONE, SINGLE_MINUS_ONE, SINGLE_ZERO, SINGLE_ONE),
        corner_at(SINGLE_ONE, SINGLE_MINUS_ONE, SINGLE_ONE, SINGLE_ONE),
        corner_at(SINGLE_ONE, SINGLE_ONE, SINGLE_ONE, SINGLE_ZERO),
        corner_at(SINGLE_MINUS_ONE, SINGLE_ONE, SINGLE_ZERO, SINGLE_ZERO),
    ]
}

fn corner(x: u32, y: u32, u: u32, v: u32) -> (r: QuadVertex)
    ensures
        r@ == corner_at(x, y, u, v),
{
    let r = QuadVertex {
        position: [Single { bits: x }, Single { bits: y }, Single { bits: SINGLE_ZERO }],
        uv: [Single { bits: u }, Single { bits: v }],
    };
    assert(r.position@ =~= corner_at(x, y, u, v).0);
    assert(r.uv@ =~= corner_at(x, y, u, v).1);
    r
}

/// The transform of the display, by columns.
#[derive(Debug, Clone, Copy)]
pub struct Uniforms {
    pub mvp: [[Single; 4]; 4],
}

/// The 32-bit number at `k` whose highest byte comes first.
pub open spec fn be_u32(s: Seq<u8>, k: int) -> int {
    s[k + 3] + 0x100 * s[k + 2] + 0x1_0000 * s[k + 1] + 0x100_0000 * s[k]
}

/// The bytes of a row of 32-bit numbers as a machine holds them: in the one order throughout or
/// in the other.
pub open spec fn words_in_memory(words: Seq<u32>, s: Seq<u8>) -> bool {
    &&& s.len() == 4 * words.len()
    &&& {
        ||| forall|i: int| 0 <= i < words.len() ==> bytes::le_u32(s, 4 * i) == #[trigger] words[i]
        ||| forall|i: int| 0 <= i < words.len() ==> be_u32(s, 4 * i) == #[trigger] words[i]
    }
}

/// The bytes of a row of 16-bit numbers as a machine holds them: in the one order throughout or
/// in the other.
pub open spec fn halves_in_memory(halves: Seq<u16>, s: Seq<u8>) -> bool {
    &&& s.len() == 2 * halves.len()
    &&& {
        ||| forall|i: int|
            0 <= i < halves.len() ==> s[2 * i] + 0x100 * s[2 * i + 1] == #[trigger] halves[i]
        ||| forall|i: int|
            0 <= i < halves.len() ==> s[2 * i + 1] + 0x100 * s[2 * i] == #[trigger] halves[i]
    }
}

/// `bytemuck::cast_slice` from 32-bit numbers to bytes: the same memory, four bytes for each
/// number, in the machine's byte order.
#[verifier::external_body]
fn words_as_bytes(words: &[u32]) -> (r: &[u8])
    ensures
        words_in_memory(words@, r@),
{
    bytemuck::cast_slice(words)
}

/// `bytemuck::cast_slice` from 16-bit numbers to bytes: the same memory, two bytes for each
/// number, in the machine's byte order.
#[verifier::external_body]
fn halves_as_bytes(halves: &[u16]) -> (r: &[u8])
    ensures
        halves_in_memory(halves@, r@),
{
    bytemuck::cast_slice(halves)
}

/// The numbers of a corner, position first.
pub open spec fn corner_words(v: (Seq<Single>, Seq<Single>)) -> Seq<u32> {
    seq![v.0[0].bits, v.0[1].bits, v.0[2].bits, v.1[0].bits, v.1[1].bits]
}

/// The numbers of a row of corners, one after the other.
pub open spec fn all_corner_words(vs: Seq<(Seq<Single>, Seq<Single>)>) -> Seq<u32>
    decreases vs.len(),
{
    if vs.len() == 0 {
        Seq::empty()
    } else {
        all_corner_words(vs.drop_last()) + corner_words(vs.last())
    }
}

/// The numbers of the vertex buffer.
pub fn vertex_words(vertices: &Vec<QuadVertex>) -> (r: Vec<u32>)
    ensures
        r@ == all_corner_words(vertices@.map_values(|v: QuadVertex| v@)),
{
    let mut words: Vec<u32> = Vec::new();
    let ghost corners = vertices@.map_values(|v: QuadVertex| v@);
    let mut i: usize = 0;
    while i < vertices.len()
        invariant
            i <= vertices@.len(),
            corners == vertices@.map_values(|v: QuadVertex| v@),
            words@ == all_corner_words(corners.take(i as int)),
        decreases vertices@.len() - i,
    {
        let v: QuadVertex = vertices[i];
        let ghost before = words@;
        words.push(v.position[0].bits);
        words.push(v.position[1].bits);
        words.push(v.position[2].bits);
        words.push(v.uv[0].bits);
        words.push(v.uv[1].bits);
        proof {
            assert(corners.take(i + 1).drop_last() =~= corners.take(i as int));
            assert(corners.take(i + 1).last() == v@);
            assert(words@ =~= before + corner_words(v@));
        }
        i = i + 1;
    }
    assert(corners.take(corners.len() as int) =~= corners);
    words
}

/// The bytes of the vertex buffer, in the machine's order.
pub fn vertex_bytes(vertices: &Vec<QuadVertex>) -> (r: Vec<u8>)
    ensures
        words_in_memory(all_corner_words(vertices@.map_values(|v: QuadVertex| v@)), r@),
{
    let words = vertex_words(vertices);
    copy_bytes(words_as_bytes(words.as_slice()))
}

/// The bytes of the index buffer, in the machine's order.
pub fn index_bytes(indices: &Vec<u16>) -> (r: Vec<u8>)
    ensures
        halves_in_memory(indices@, r@),
{
    copy_bytes(halves_as_bytes(indices.as_slice()))
}

impl Uniforms {
    /// The transform with the given columns.
    pub fn from_mat4(columns: [[Single; 4]; 4]) -> (r: Self)
        ensures
            r.mvp == columns,
    {
        Uniforms { mvp: columns }
    }

    /// The numbers of the transform, column by column.
    pub open spec fn words(self) -> Seq<u32> {
        Seq::new(16, |i: int| self.mvp@[i / 4]@[i % 4].bits)
    }

    /// The numbers of the uniform buffer.
    pub fn to_words(&self) -> (r: Vec<u32>)
        ensures
            r@ == self.words(),
    {
        let mut words: Vec<u32> = Vec::new();
        let mut i: usize = 0;
        while i < 16
            invariant
                i <= 16,
                words@ =~= self.words().take(i as int),
            decreases 16 - i,
        {
            words.push(self.mvp[i / 4][i % 4].bits);
            i = i + 1;
        }
        assert(words@ =~= self.words());
        words
    }

    /// The bytes of the uniform buffer, in the machine's order.
    pub fn to_bytes(&self) -> (r: Vec<u8>)
        ensures
            words_in_memory(self.words(), r@),
    {
        let words = self.to_words();
        copy_bytes(words_as_bytes(words.as_slice()))
    }
}

/// The columns of the transform that changes nothing.
pub open spec fn is_identity(columns: [[Single; 4]; 4]) -> bool {
    forall|i: int, j: int|
        0 <= i < 4 && 0 <= j < 4 ==> (#[trigger] columns@[i]@[j]).bits == if i == j {
            SINGLE_ONE
        } else {
            SINGLE_ZERO
        }
}

/// `r` are the columns to draw with.
pub open spec fn are_shown(posed: Option<[[Single; 4]; 4]>, r: [[Single; 4]; 4]) -> bool {
    match posed {
        Some(columns) => r == columns,
        None => is_identity(r),
    }
}

/// The columns of the transform to draw with: the one that the pose asks for, or the identity
/// where there is no pose.
pub fn columns_to_show(posed: Option<[[Single; 4]; 4]>) -> (r: [[Single; 4]; 4])
    ensures
        are_shown(posed, r),
        match posed {
            Some(columns) => r == columns,
            None => is_identity(r),
        },
{
    match posed {
        Some(columns) => columns,
        None => {
            let o = Single { bits: SINGLE_ZERO };
            let l = Single { bits: SINGLE_ONE };
            [[l, o, o, o], [o, l, o, o], [o, o, l, o], [o, o, o, l]]
        },
    }
}

// ---- Laws ----

/// How far along the way to an orientation an event is.
pub open spec fn stage(event: ViewEvent) -> int {
    match event {
        ViewEvent::Start { .. } => 0,
        ViewEvent::Compared { .. } => 1,
        ViewEvent::Normalized { .. } => 2,
        ViewEvent::Turned { .. } => 3,
        ViewEvent::Damped { .. } => 4,
        ViewEvent::Drifted { .. } => 5,
        ViewEvent::Eased { .. } => 6,
    }
}

/// `event` reports what was asked for by `action`.
pub open spec fn answers(action: ViewAction, event: ViewEvent) -> bool {
    match action {
        ViewAction::Compare { .. } => event is Compared,
        ViewAction::Normalize { .. } => event is Normalized,
        ViewAction::MeasureTurn { to, .. } => event matches ViewEvent::Turned { head, .. } && head
            == to,
        ViewAction::Damp { .. } => event is Damped,
        ViewAction::MeasureDrift { to, .. } => event matches ViewEvent::Drifted { filtered, .. }
            && filtered == to,
        ViewAction::Ease { .. } => event is Eased,
        ViewAction::Show { .. } => false,
    }
}

/// Every answer is further along the way than the event before it, so an orientation is shown
/// after at most seven steps.
pub proof fn every_answer_advances(
    r: Renderer,
    event: ViewEvent,
    smooth_follow: bool,
    threshold: Single,
    next: ViewEvent,
)
    requires
        answers(view_step(r, event, smooth_follow, threshold).1, next),
    ensures
        stage(event) < stage(next) <= 6,
{
}

/// What counts as straight ahead is told once and stays until the next reset.
pub proof fn reference_is_kept(
    r: Renderer,
    event: ViewEvent,
    smooth_follow: bool,
    threshold: Single,
)
    ensures
        r.reference_q is Some ==> view_step(r, event, smooth_follow, threshold).0.reference_q
            == r.reference_q,
        event is Start ==> view_step(r, event, smooth_follow, threshold).0.reference_q is Some,
{
}

/// The orientation remembered changes only when one is shown, and is then the one shown.
pub proof fn shown_orientation_is_remembered(
    r: Renderer,
    event: ViewEvent,
    smooth_follow: bool,
    threshold: Single,
)
    ensures
        ({
            let (next, action) = view_step(r, event, smooth_follow, threshold);
            match action {
                ViewAction::Show { orientation } => next.last_orientation == orientation,
                _ => next.last_orientation == r.last_orientation,
            }
        }),
{
}

/// Without smooth follow a turn in the dead zone leaves the display where it is.
pub proof fn dead_zone_keeps_the_display(
    r: Renderer,
    head: Quaternion,
    degrees: Single,
    threshold: Single,
)
    requires
        in_dead_zone(degrees),
    ensures
        view_step(r, ViewEvent::Turned { head, degrees }, false, threshold) == (
            r,
            ViewAction::Show { orientation: r.last_orientation },
        ),
{
}

/// In smooth follow the display stays where it rests as long as the head is not beyond the
/// threshold.
pub proof fn display_rests_within_the_threshold(
    r: Renderer,
    filtered: Quaternion,
    degrees: Single,
    threshold: Single,
)
    requires
        !threshold.below(degrees),
    ensures
        view_step(r, ViewEvent::Drifted { filtered, degrees }, true, threshold) == (
            (Renderer { last_orientation: r.smooth_follow_anchor, ..r }),
            ViewAction::Show { orientation: r.smooth_follow_anchor },
        ),
{
}

/// After a reset the next orientation told counts as straight ahead, and the display next rests
/// where the head then is.
pub proof fn reset_starts_over(
    r: Renderer,
    raw: Quaternion,
    filtered: Quaternion,
    smooth_follow: bool,
    threshold: Single,
)
    ensures
        ({
            let reset = Renderer { reference_q: None, anchor_initialized: false, ..r };
            let (next, action) = view_step(
                reset,
                ViewEvent::Start { raw },
                smooth_follow,
                threshold,
            );
            &&& action == ViewAction::Compare { reference: raw, raw }
            &&& next.reference_q == Some(raw)
            &&& follow(next, filtered, true).1 == ViewAction::Show { orientation: filtered }
            &&& follow(next, filtered, true).0.smooth_follow_anchor == filtered
        }),
{
}

/// Each triangle of the display has three different corners, and every corner is one of the
/// four that there are.
pub proof fn triangles_use_the_corners(k: int)
    requires
        0 <= k < 2,
    ensures
        ({
            let i = seq![0u16, 1, 2, 0, 2, 3];
            &&& i[3 * k] < quad_corners().len()
            &&& i[3 * k + 1] < quad_corners().len()
            &&& i[3 * k + 2] < quad_corners().len()
            &&& i[3 * k] != i[3 * k + 1]
            &&& i[3 * k] != i[3 * k + 2]
            &&& i[3 * k + 1] != i[3 * k + 2]
        }),
{
}

/// A rotation that the sensor tells turns the display about its axes by what the sensor tells
/// against its right and its up, for either sign, and by what it tells about its front; the
/// scalar part stays. So opposite movements of the head move the display in opposite directions.
pub proof fn sensor_axes_are_changed(
    r: Renderer,
    delta: Quaternion,
    smooth_follow: bool,
    threshold: Single,
)
    ensures
        ({
            let (next, action) = view_step(
                r,
                ViewEvent::Compared { delta },
                smooth_follow,
                threshold,
            );
            &&& next == r
            &&& action matches ViewAction::Normalize { q } && {
                &&& ieee::opposite(q.x, delta.z)
                &&& ieee::opposite(q.y, delta.y)
                &&& q.z == delta.x
                &&& q.w == delta.w
            }
        }),
{
}

/// Different rotations of the sensor stay different.
pub proof fn sensor_axes_can_be_changed_back(
    r: Renderer,
    a: Quaternion,
    b: Quaternion,
    smooth_follow: bool,
    threshold: Single,
)
    requires
        view_step(r, ViewEvent::Compared { delta: a }, smooth_follow, threshold) == view_step(
            r,
            ViewEvent::Compared { delta: b },
            smooth_follow,
            threshold,
        ),
    ensures
        a == b,
{
    sensor_axes_are_changed(r, a, smooth_follow, threshold);
    sensor_axes_are_changed(r, b, smooth_follow, threshold);
}

/// An orientation told is compared with the reference, which is the first one told; nothing else
/// changes.
pub proof fn orientations_are_compared_with_the_first(
    r: Renderer,
    raw: Quaternion,
    smooth_follow: bool,
    threshold: Single,
)
    ensures
        ({
            let (next, action) = view_step(r, ViewEvent::Start { raw }, smooth_follow, threshold);
            &&& action matches ViewAction::Compare { reference, raw: told } && told == raw
                && next.reference_q == Some(reference) && (r.reference_q is None ==> reference
                == raw) && (r.reference_q is Some ==> reference == r.reference_q->0)
            &&& next.smooth_follow_anchor == r.smooth_follow_anchor
            &&& next.anchor_initialized == r.anchor_initialized
            &&& next.last_orientation == r.last_orientation
        }),
{
}

/// The turn is measured from the orientation shown last to the head's, and damped between the two
/// unless it is below 0.4 degrees.
pub proof fn turns_are_measured_and_damped(
    r: Renderer,
    head: Quaternion,
    degrees: Single,
    smooth_follow: bool,
    threshold: Single,
)
    ensures
        view_step(r, ViewEvent::Normalized { head }, smooth_follow, threshold) == (
            r,
            ViewAction::MeasureTurn { from: r.last_orientation, to: head },
        ),
        0x3ecc_cccd <= degrees.bits < 0x8000_0000 || degrees.bits > 0xff80_0000 ==> view_step(
            r,
            ViewEvent::Turned { head, degrees },
            smooth_follow,
            threshold,
        ) == (r, ViewAction::Damp { from: r.last_orientation, to: head, degrees }),
        degrees.bits < 0x3ecc_cccd || 0x8000_0000 <= degrees.bits <= 0xff80_0000 ==> view_step(
            r,
            ViewEvent::Turned { head, degrees },
            smooth_follow,
            threshold,
        ) == view_step(
            r,
            ViewEvent::Damped { filtered: r.last_orientation },
            smooth_follow,
            threshold,
        ),
{
}

/// Without smooth follow the display is shown where the head is. With it the display rests where
/// the head is at first, and from then on its way from there to the head is measured.
pub proof fn display_follows_the_head(r: Renderer, filtered: Quaternion, threshold: Single)
    ensures
        view_step(r, ViewEvent::Damped { filtered }, false, threshold) == (
            (Renderer { last_orientation: filtered, ..r }),
            ViewAction::Show { orientation: filtered },
        ),
        !r.anchor_initialized ==> view_step(r, ViewEvent::Damped { filtered }, true, threshold) == (
            (Renderer {
                reference_q: r.reference_q,
                smooth_follow_anchor: filtered,
                anchor_initialized: true,
                last_orientation: filtered,
            }),
            ViewAction::Show { orientation: filtered },
        ),
        r.anchor_initialized ==> view_step(r, ViewEvent::Damped { filtered }, true, threshold) == (
            r,
            ViewAction::MeasureDrift { anchor: r.smooth_follow_anchor, to: filtered },
        ),
{
}

/// Beyond the threshold, and only there, the display leaves its rest towards the head; it then
/// rests and is shown where it has come to.
pub proof fn display_leaves_its_rest_beyond_the_threshold(
    r: Renderer,
    filtered: Quaternion,
    degrees: Single,
    anchor: Quaternion,
    smooth_follow: bool,
    threshold: Single,
)
    ensures
        ({
            let (next, action) = view_step(
                r,
                ViewEvent::Drifted { filtered, degrees },
                smooth_follow,
                threshold,
            );
            &&& threshold.bits < degrees.bits <= 0x7f80_0000 ==> next == r && action
                == (ViewAction::Ease { anchor: r.smooth_follow_anchor, to: filtered, degrees })
            &&& degrees.bits <= threshold.bits <= 0x7f80_0000 ==> action == (ViewAction::Show {
                orientation: r.smooth_follow_anchor,
            }) && next == (Renderer { last_orientation: r.smooth_follow_anchor, ..r })
        }),
        view_step(r, ViewEvent::Eased { anchor }, smooth_follow, threshold) == (
            (Renderer { smooth_follow_anchor: anchor, last_orientation: anchor, ..r }),
            ViewAction::Show { orientation: anchor },
        ),
{
}

/// A reset forgets the reference and the rest, and keeps the orientation shown last.
pub proof fn reset_forgets_the_reference(r: Renderer)
    ensures
        forgetful(r).reference_q is None,
        !forgetful(r).anchor_initialized,
        forgetful(r).last_orientation == r.last_orientation,
        forgetful(r).smooth_follow_anchor == r.smooth_follow_anchor,
{
}

/// A positive field of view is taken as it is told; for anything else 46 degrees stand in.
pub proof fn told_field_of_view_is_taken(told: Single)
    ensures
        0 < told.bits <= 0x7f80_0000 ==> angle_of_view(told) == told,
        !(0 < told.bits <= 0x7f80_0000) ==> angle_of_view(told).bits == 0x4238_0000,
{
}

/// The display has the shape of the content, where that has both sides, and else of the viewport.
pub proof fn content_is_not_stretched(viewport: (u32, u32), w: u32, h: u32)
    ensures
        w != 0 && h != 0 ==> shape_of(viewport, Some((w, h))) == (w, h),
        w == 0 || h == 0 ==> shape_of(viewport, Some((w, h))) == viewport,
        shape_of(viewport, None) == viewport,
{
}

/// The columns of a pose are drawn with as they are; without one, each column has a one in its own
/// row and zeros in the others.
pub proof fn columns_that_are_shown(
    posed: Option<[[Single; 4]; 4]>,
    r: [[Single; 4]; 4],
    i: int,
    j: int,
)
    requires
        are_shown(posed, r),
        0 <= i < 4,
        0 <= j < 4,
    ensures
        posed matches Some(columns) ==> r == columns,
        posed is None && i == j ==> r@[i]@[j].bits == 0x3f80_0000,
        posed is None && i != j ==> r@[i]@[j].bits == 0,
{
}

/// The numbers of a transform come column by column, from the top down.
pub proof fn words_of_a_transform(u: Uniforms, column: int, row: int)
    requires
        0 <= column < 4,
        0 <= row < 4,
    ensures
        u.words().len() == 16,
        u.words()[4 * column + row] == u.mvp@[column]@[row].bits,
{
    assert((4 * column + row) / 4 == column);
    assert((4 * column + row) % 4 == row);
}

/// The numbers of a corner are its position and then its point of the content; the corners follow
/// each other.
pub proof fn words_of_a_corner(vs: Seq<(Seq<Single>, Seq<Single>)>, i: int)
    requires
        0 <= i < vs.len(),
    ensures
        all_corner_words(vs).len() == 5 * vs.len(),
        all_corner_words(vs)[5 * i] == vs[i].0[0].bits,
        all_corner_words(vs)[5 * i + 1] == vs[i].0[1].bits,
        all_corner_words(vs)[5 * i + 2] == vs[i].0[2].bits,
        all_corner_words(vs)[5 * i + 3] == vs[i].1[0].bits,
        all_corner_words(vs)[5 * i + 4] == vs[i].1[1].bits,
    decreases vs.len(),
{
    let front = vs.drop_last();
    if vs.len() == 1 {
        assert(all_corner_words(front).len() == 0);
    } else {
        words_of_a_corner(front, 0);
        if i < front.len() {
            words_of_a_corner(front, i);
        }
    }
}

} // verus!
