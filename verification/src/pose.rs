//! Head poses out of the region of shared memory that XRLinuxDriver fills.
//!
//! The record is packed, little-endian throughout:
//!   byte 0            version
//!   byte 1            enabled
//!   bytes 2 to 17     look-ahead configuration, 4 numbers
//!   bytes 18 to 25    display resolution, 2 integers
//!   bytes 26 to 29    display field of view
//!   bytes 30 to 33    lens distance ratio
//!   byte 34           side by side enabled
//!   byte 35           custom banner
//!   byte 36           smooth follow enabled
//!   bytes 37 to 100   smooth follow origin, 4 quaternions
//!   bytes 101 to 112  position, 3 numbers
//!   bytes 113 to 120  time stamp in milliseconds
//!   bytes 121 to 184  orientations, 4 quaternions
//!   byte 185          parity: the exclusive or of all bytes before it
//!
//! The driver's axes point north, west and up (NWU); the display's point east, up and south
//! (EUS): `x_eus = -y_nwu`, `y_eus = z_nwu`, `z_eus = -x_nwu`.

use vstd::prelude::*;

use crate::bytes;
use crate::bytes::{read_u32, read_u64};
use crate::ieee;
use crate::ieee::{Quaternion, Single};

verus! {

/// The least size of the shared region.
pub const MIN_SHM_SIZE: usize = 178;

/// Where the parity byte stands: behind the rest of the record.
pub const PARITY_OFFSET: usize = 185;

/// A pose as the driver wrote it.
#[derive(Debug, Clone, Copy)]
pub struct PoseData {
    pub version: u8,
    pub enabled: bool,
    pub look_ahead_cfg: [Single; 4],
    pub display_res: [u32; 2],
    pub display_fov: Single,
    pub lens_distance_ratio: Single,
    pub sbs_enabled: bool,
    pub custom_banner: bool,
    pub smooth_follow_enabled: bool,
    pub smooth_follow_origin: [Single; 16],
    pub position_nwu: [Single; 3],
    pub timestamp_ms: u64,
    pub orientations: [Single; 16],
    pub parity: u8,
}

/// The number whose bits stand at `k`.
pub open spec fn single_at(s: Seq<u8>, k: int) -> Single {
    Single { bits: bytes::le_u32(s, k) as u32 }
}

/// The `count` numbers from `k` on.
pub open spec fn singles_at(s: Seq<u8>, k: int, count: nat) -> Seq<Single> {
    Seq::new(count, |i: int| single_at(s, k + 4 * i))
}

/// The byte behind the record, 0 where the region ends before it.
pub open spec fn parity_at(s: Seq<u8>) -> u8 {
    if PARITY_OFFSET < s.len() {
        s[PARITY_OFFSET as int]
    } else {
        0
    }
}

/// `p` is the pose that the region `s` holds.
pub open spec fn holds_pose(s: Seq<u8>, p: PoseData) -> bool {
    &&& p.version == s[0]
    &&& p.enabled == (s[1] != 0)
    &&& p.look_ahead_cfg@ == singles_at(s, 2, 4)
    &&& p.display_res@ == seq![bytes::le_u32(s, 18) as u32, bytes::le_u32(s, 22) as u32]
    &&& p.display_fov == single_at(s, 26)
    &&& p.lens_distance_ratio == single_at(s, 30)
    &&& p.sbs_enabled == (s[34] != 0)
    &&& p.custom_banner == (s[35] != 0)
    &&& p.smooth_follow_enabled == (s[36] != 0)
    &&& p.smooth_follow_origin@ == singles_at(s, 37, 16)
    &&& p.position_nwu@ == singles_at(s, 101, 3)
    &&& p.timestamp_ms == bytes::le_u64(s, 113)
    &&& p.orientations@ == singles_at(s, 121, 16)
    &&& p.parity == parity_at(s)
}

fn read_single(data: &[u8], offset: usize) -> (r: Single)
    requires
        offset + 4 <= data@.len(),
    ensures
        r == single_at(data@, offset as int),
{
    Single { bits: read_u32(data, offset) }
}

fn read_singles<const N: usize>(data: &[u8], offset: usize) -> (r: [Single; N])
    requires
        offset + 4 * N <= data@.len(),
    ensures
        r@ == singles_at(data@, offset as int, N as nat),
{
    assert(data.len() == data@.len());
    let mut arr: [Single; N] = [Single { bits: 0 }; N];
    let mut i: usize = 0;
    while i < N
        invariant
            i <= N,
            offset + 4 * N <= data@.len() <= usize::MAX,
            forall|k: int| 0 <= k < i ==> arr@[k] == single_at(data@, offset + 4 * k),
        decreases N - i,
    {
        arr[i] = read_single(data, offset + i * 4);
        i = i + 1;
    }
    assert(arr@ =~= singles_at(data@, offset as int, N as nat));
    arr
}

/// Reads the pose that a region holds.
pub fn parse_pose_data(data: &[u8]) -> (r: PoseData)
    requires
        data@.len() >= PARITY_OFFSET,
    ensures
        holds_pose(data@, r),
{
    let mut offset: usize = 0;

    let version: u8 = data[offset];
    offset = offset + 1;

    let enabled: bool = data[offset] != 0;
    offset = offset + 1;

    let look_ahead_cfg = read_singles::<4>(data, offset);
    offset = offset + 16;

    let display_res: [u32; 2] = [read_u32(data, offset), read_u32(data, offset + 4)];
    offset = offset + 8;

    let display_fov = read_single(data, offset);
    offset = offset + 4;

    let lens_distance_ratio = read_single(data, offset);
    offset = offset + 4;

    let sbs_enabled: bool = data[offset] != 0;
    offset = offset + 1;

    let custom_banner: bool = data[offset] != 0;
    offset = offset + 1;

    let smooth_follow_enabled: bool = data[offset] != 0;
    offset = offset + 1;

    let smooth_follow_origin = read_singles::<16>(data, offset);
    offset = offset + 64;

    let position_nwu = read_singles::<3>(data, offset);
    offset = offset + 12;

    let timestamp_ms: u64 = read_u64(data, offset);
    offset = offset + 8;

    let orientations = read_singles::<16>(data, offset);
    offset = offset + 64;

    let parity: u8 = if offset < data.len() {
        data[offset]
    } else {
        0
    };

    assert(display_res@ =~= seq![
        bytes::le_u32(data@, 18) as u32,
        bytes::le_u32(data@, 22) as u32,
    ]);
    PoseData {
        version,
        enabled,
        look_ahead_cfg,
        display_res,
        display_fov,
        lens_distance_ratio,
        sbs_enabled,
        custom_banner,
        smooth_follow_enabled,
        smooth_follow_origin,
        position_nwu,
        timestamp_ms,
        orientations,
        parity,
    }
}

// ---- Parity ----

/// The exclusive or of all bytes.
pub open spec fn xor_all(s: Seq<u8>) -> u8
    decreases s.len(),
{
    if s.len() == 0 {
        0
    } else {
        xor_all(s.drop_last()) ^ s.last()
    }
}

/// The record is as the driver finished it.
pub open spec fn is_whole(s: Seq<u8>) -> bool {
    xor_all(s.take(PARITY_OFFSET as int)) == parity_at(s)
}

/// The exclusive or of all bytes of the record in front of the parity byte.
pub fn expected_parity(data: &[u8]) -> (r: u8)
    requires
        data@.len() >= PARITY_OFFSET,
    ensures
        r == xor_all(data@.take(PARITY_OFFSET as int)),
{
    let mut acc: u8 = 0;
    let mut i: usize = 0;
    while i < PARITY_OFFSET
        invariant
            i <= PARITY_OFFSET <= data@.len(),
            acc == xor_all(data@.take(i as int)),
        decreases PARITY_OFFSET - i,
    {
        assert(data@.take(i + 1).drop_last() =~= data@.take(i as int));
        acc = acc ^ data[i];
        i = i + 1;
    }
    acc
}

/// Whether the record is as the driver finished it: its parity byte is the exclusive or of all
/// bytes before it. A record that the driver is still writing may fail this; it is used all the
/// same.
pub fn parity_matches(data: &[u8]) -> (r: bool)
    requires
        data@.len() >= PARITY_OFFSET,
    ensures
        r == is_whole(data@),
        r == (xor_all(data@.take(PARITY_OFFSET as int)) == parity_at(data@)),
{
    let actual: u8 = if PARITY_OFFSET < data.len() {
        data[PARITY_OFFSET]
    } else {
        0
    };
    expected_parity(data) == actual
}

// ---- Coordinates ----

/// A direction along the display's axes.
#[derive(Debug, Clone, Copy, PartialEq, Eq, Structural)]
pub struct Vector {
    pub x: Single,
    pub y: Single,
    pub z: Single,
}

/// A direction along the driver's axes as one along the display's.
pub open spec fn nwu_to_eus(v: Vector) -> Vector {
    Vector { x: v.y.flipped(), y: v.z, z: v.x.flipped() }
}

/// The rotation that the four numbers from `k` on write, along the display's axes.
pub open spec fn rotation_at(s: Seq<Single>, k: int) -> Quaternion {
    let v = nwu_to_eus(Vector { x: s[k], y: s[k + 1], z: s[k + 2] });
    Quaternion { x: v.x, y: v.y, z: v.z, w: s[k + 3] }
}

impl PoseData {
    /// The current rotation (T0) along the display's axes.
    pub open spec fn current(self) -> Quaternion {
        rotation_at(self.orientations@, 0)
    }

    /// The predicted rotation (T1) along the display's axes.
    pub open spec fn predicted(self) -> Quaternion {
        rotation_at(self.orientations@, 4)
    }

    /// The position along the display's axes.
    pub open spec fn place(self) -> Vector {
        nwu_to_eus(
            Vector {
                x: self.position_nwu@[0],
                y: self.position_nwu@[1],
                z: self.position_nwu@[2],
            },
        )
    }

    /// The current orientation (T0) along the display's axes, as the driver scaled it: it is
    /// still to be brought to unit length.
    pub fn orientation(&self) -> (r: Quaternion)
        ensures
            r == self.current(),
            r == rotation_at(self.orientations@, 0),
            r.w == self.orientations@[3],
            r.y == self.orientations@[2],
    {
        Quaternion {
            x: self.orientations[1].negate(),
            y: self.orientations[2],
            z: self.orientations[0].negate(),
            w: self.orientations[3],
        }
    }

    /// The position along the display's axes.
    pub fn position_eus(&self) -> (r: [Single; 3])
        ensures
            r@ == seq![self.place().x, self.place().y, self.place().z],
            r@ == seq![
                self.position_nwu@[1].flipped(),
                self.position_nwu@[2],
                self.position_nwu@[0].flipped(),
            ],
    {
        let r: [Single; 3] = [
            self.position_nwu[1].negate(),
            self.position_nwu[2],
            self.position_nwu[0].negate(),
        ];
        assert(r@ =~= seq![
            self.position_nwu@[1].flipped(),
            self.position_nwu@[2],
            self.position_nwu@[0].flipped(),
        ]);
        r
    }

    /// The orientation that the driver predicts (T1) along the display's axes, as the driver
    /// scaled it: it is still to be brought to unit length.
    pub fn orientation_lookahead(&self) -> (r: Quaternion)
        ensures
            r == self.predicted(),
            r == rotation_at(self.orientations@, 4),
            r.w == self.orientations@[7],
            r.y == self.orientations@[6],
    {
        Quaternion {
            x: self.orientations[5].negate(),
            y: self.orientations[6],
            z: self.orientations[4].negate(),
            w: self.orientations[7],
        }
    }
}

// ---- Reading ----

/// Why a region cannot be used.
#[derive(Debug, Clone, Copy, PartialEq, Eq, Structural)]
pub enum PoseError {
    /// The region is shorter than `MIN_SHM_SIZE`.
    TooSmall { len: usize },
}

/// What became of the last step of an attempt to read.
#[derive(Debug, Clone, Copy, PartialEq, Eq, Structural)]
pub enum PoseEvent {
    /// The attempt begins.
    Start,
    /// The file of the region exists, or does not.
    Probed { exists: bool },
    /// The file was mapped, with so many bytes.
    Mapped { len: usize },
    /// The file could not be mapped.
    MapFailed,
}

/// The next step of an attempt to read.
#[derive(Debug, Clone, Copy, PartialEq, Eq, Structural)]
pub enum PoseAction {
    /// Look whether the file of the region exists.
    Probe,
    /// Map the file.
    MapFile,
    /// Read the pose out of the mapped region.
    Read,
    /// There is no pose.
    GiveUp,
}

/// A reader of poses.
#[derive(Debug, Clone, Copy, PartialEq, Eq, Structural)]
pub struct PoseReader {
    /// Whether a region is mapped.
    pub ready: bool,
}

/// The step that follows an event, and whether a region is mapped then.
pub open spec fn read_step(ready: bool, event: PoseEvent) -> (PoseAction, bool) {
    match event {
        PoseEvent::Start => if ready {
            (PoseAction::Read, ready)
        } else {
            (PoseAction::Probe, ready)
        },
        PoseEvent::Probed { exists } => if exists {
            (PoseAction::MapFile, ready)
        } else {
            (PoseAction::GiveUp, ready)
        },
        PoseEvent::Mapped { len } => if len >= MIN_SHM_SIZE {
            (PoseAction::Read, true)
        } else {
            (PoseAction::GiveUp, ready)
        },
        PoseEvent::MapFailed => (PoseAction::GiveUp, ready),
    }
}

/// What a reader reads out of a region.
pub open spec fn pose_read(ready: bool, region: Seq<u8>, r: Option<PoseData>) -> bool {
    match r {
        Some(pose) => ready && region.len() >= PARITY_OFFSET && holds_pose(region, pose),
        None => !ready || region.len() < PARITY_OFFSET,
    }
}

impl PoseReader {
    /// A reader without a region.
    pub fn new() -> (r: Self)
        ensures
            !r.ready,
    {
        PoseReader { ready: false }
    }

    /// Takes over a mapped region of `len` bytes.
    pub fn init(&mut self, len: usize) -> (r: Result<(), PoseError>)
        ensures
            len < MIN_SHM_SIZE ==> r == Err::<(), PoseError>(PoseError::TooSmall { len })
                && *final(self) == *old(self),
            len >= MIN_SHM_SIZE ==> r == Ok::<(), PoseError>(()) && final(self).ready,
    {
        if len < MIN_SHM_SIZE {
            return Err(PoseError::TooSmall { len });
        }
        self.ready = true;
        Ok(())
    }

    /// Reads the current pose out of the mapped region. There is none where no region is mapped
    /// or where the region ends before the record does.
    pub fn read_pose(&self, region: &[u8]) -> (r: Option<PoseData>)
        ensures
            pose_read(self.ready, region@, r),
            r is Some <==> self.ready && region@.len() >= PARITY_OFFSET,
            r matches Some(pose) ==> holds_pose(region@, pose),
    {
        if !self.ready || region.len() < PARITY_OFFSET {
            return None;
        }
        Some(parse_pose_data(region))
    }

    /// One step of an attempt to read, which maps the region on the first one that finds it.
    pub fn try_read(&mut self, event: PoseEvent) -> (r: PoseAction)
        ensures
            (r, final(self).ready) == read_step(old(self).ready, event),
    {
        match event {
            PoseEvent::Start => {
                if self.ready {
                    PoseAction::Read
                } else {
                    PoseAction::Probe
                }
            },
            PoseEvent::Probed { exists } => {
                if exists {
                    PoseAction::MapFile
                } else {
                    PoseAction::GiveUp
                }
            },
            PoseEvent::Mapped { len } => {
                match self.init(len) {
                    Ok(_) => PoseAction::Read,
                    Err(_) => PoseAction::GiveUp,
                }
            },
            PoseEvent::MapFailed => PoseAction::GiveUp,
        }
    }
}

// ---- Laws ----

/// The parity byte makes the exclusive or of the whole record 0.
pub proof fn parity_closes_the_record(s: Seq<u8>)
    requires
        s.len() > 0,
    ensures
        s.last() == xor_all(s.drop_last()) <==> xor_all(s) == 0,
{
    let a = xor_all(s.drop_last());
    let b = s.last();
    assert(b == a <==> a ^ b == 0) by (bit_vector);
}

proof fn xor_after_change(s: Seq<u8>, i: int, b: u8)
    requires
        0 <= i < s.len(),
    ensures
        xor_all(s.update(i, b)) == xor_all(s) ^ s[i] ^ b,
    decreases s.len(),
{
    let t = s.update(i, b);
    let x = xor_all(s.drop_last());
    if i == s.len() - 1 {
        assert(t.drop_last() =~= s.drop_last());
        let y = s[i];
        assert(x ^ b == (x ^ y) ^ y ^ b) by (bit_vector);
    } else {
        assert(t.drop_last() =~= s.drop_last().update(i, b));
        xor_after_change(s.drop_last(), i, b);
        let y = s[i];
        let z = s.last();
        assert((x ^ y ^ b) ^ z == (x ^ z) ^ y ^ b) by (bit_vector);
    }
}

/// A record whose parity is right has a wrong one after any single byte of it has changed.
pub proof fn changed_byte_breaks_parity(s: Seq<u8>, i: int, b: u8)
    requires
        0 <= i < s.len(),
        s.last() == xor_all(s.drop_last()),
        b != s[i],
    ensures
        s.update(i, b).last() != xor_all(s.update(i, b).drop_last()),
{
    parity_closes_the_record(s);
    parity_closes_the_record(s.update(i, b));
    xor_after_change(s, i, b);
    let x = xor_all(s);
    let y = s[i];
    assert(x == 0 && b != y ==> x ^ y ^ b != 0) by (bit_vector);
}

/// What follows the record in the region does not change the pose.
pub proof fn pose_depends_on_the_record(s: Seq<u8>, t: Seq<u8>, p: PoseData)
    requires
        s.len() > PARITY_OFFSET,
        t.len() > PARITY_OFFSET,
        s.take(PARITY_OFFSET + 1) == t.take(PARITY_OFFSET + 1),
    ensures
        holds_pose(s, p) <==> holds_pose(t, p),
{
    let n: int = PARITY_OFFSET + 1;
    assert forall|k: int| 0 <= k < n implies #[trigger] s[k] == t[k] by {
        assert(s.take(n)[k] == s[k]);
        assert(t.take(n)[k] == t[k]);
    }
    assert(singles_at(s, 2, 4) =~= singles_at(t, 2, 4));
    assert(singles_at(s, 37, 16) =~= singles_at(t, 37, 16));
    assert(singles_at(s, 101, 3) =~= singles_at(t, 101, 3));
    assert(singles_at(s, 121, 16) =~= singles_at(t, 121, 16));
}

/// The change of axes loses nothing: the driver's direction can be told from the display's.
pub proof fn axes_can_be_changed_back(v: Vector)
    ensures
        ({
            let e = nwu_to_eus(v);
            v == (Vector { x: e.z.flipped(), y: e.x.flipped(), z: e.y })
        }),
{
}

/// An attempt to read maps a region at most once: once mapped it stays so, and no further
/// attempt looks for the file.
pub proof fn mapped_region_is_kept(event: PoseEvent)
    ensures
        read_step(true, event).1,
        read_step(true, PoseEvent::Start).0 == PoseAction::Read,
{
}

/// A reader with a mapped region of at least 185 bytes reads a pose, and the pose holds what
/// stands in the region at the places of the record; any other reader reads none.
pub proof fn record_layout(ready: bool, s: Seq<u8>, r: Option<PoseData>, i: int)
    requires
        pose_read(ready, s, r),
    ensures
        r is Some <==> ready && s.len() >= 185,
        r matches Some(p) ==> {
            &&& p.version == s[0]
            &&& p.enabled <==> s[1] != 0
            &&& 0 <= i < 4 ==> p.look_ahead_cfg@[i].bits == bytes::le_u32(s, 2 + 4 * i)
            &&& p.display_res@[0] == bytes::le_u32(s, 18)
            &&& p.display_res@[1] == bytes::le_u32(s, 22)
            &&& p.display_fov.bits == bytes::le_u32(s, 26)
            &&& p.lens_distance_ratio.bits == bytes::le_u32(s, 30)
            &&& p.sbs_enabled <==> s[34] != 0
            &&& p.custom_banner <==> s[35] != 0
            &&& p.smooth_follow_enabled <==> s[36] != 0
            &&& 0 <= i < 16 ==> p.smooth_follow_origin@[i].bits == bytes::le_u32(s, 37 + 4 * i)
            &&& 0 <= i < 3 ==> p.position_nwu@[i].bits == bytes::le_u32(s, 101 + 4 * i)
            &&& p.timestamp_ms == bytes::le_u64(s, 113)
            &&& 0 <= i < 16 ==> p.orientations@[i].bits == bytes::le_u32(s, 121 + 4 * i)
            &&& s.len() > 185 ==> p.parity == s[185]
            &&& s.len() == 185 ==> p.parity == 0
        },
{
    if let Some(p) = r {
        if 0 <= i < 4 {
            assert(p.look_ahead_cfg@[i] == singles_at(s, 2, 4)[i]);
        }
        if 0 <= i < 3 {
            assert(p.position_nwu@[i] == singles_at(s, 101, 3)[i]);
        }
        if 0 <= i < 16 {
            assert(p.smooth_follow_origin@[i] == singles_at(s, 37, 16)[i]);
            assert(p.orientations@[i] == singles_at(s, 121, 16)[i]);
        }
        assert(p.display_res@[0] == bytes::le_u32(s, 18) as u32);
        assert(p.display_res@[1] == bytes::le_u32(s, 22) as u32);
    }
}

/// Along the display's axes a rotation has the same scalar part, bit for bit, and about east, up
/// and south what it had against west, about up and against north. The driver's four numbers can
/// be recovered from it.
pub proof fn orientation_keeps_the_rotation(p: PoseData)
    ensures
        p.current().w == p.orientations@[3],
        p.current().y == p.orientations@[2],
        ieee::opposite(p.current().x, p.orientations@[1]),
        ieee::opposite(p.current().z, p.orientations@[0]),
        p.predicted().w == p.orientations@[7],
        p.predicted().y == p.orientations@[6],
        ieee::opposite(p.predicted().x, p.orientations@[5]),
        ieee::opposite(p.predicted().z, p.orientations@[4]),
{
}

/// Poses with the same orientation have the same first quaternion, number by number.
pub proof fn orientation_can_be_undone(p: PoseData, q: PoseData, i: int)
    requires
        p.current() == q.current(),
        p.predicted() == q.predicted(),
        0 <= i < 8,
    ensures
        p.orientations@[i] == q.orientations@[i],
{
    orientation_keeps_the_rotation(p);
    orientation_keeps_the_rotation(q);
}

/// A position has, to the east, up and to the south, what it had against west, up and against
/// north.
pub proof fn position_keeps_its_numbers(p: PoseData)
    ensures
        ieee::opposite(p.place().x, p.position_nwu@[1]),
        p.place().y == p.position_nwu@[2],
        ieee::opposite(p.place().z, p.position_nwu@[0]),
{
}

/// The exclusive or of one byte is the byte, and that of two rows is the exclusive or of both.
pub proof fn exclusive_or_of_parts(a: Seq<u8>, b: Seq<u8>, c: u8)
    ensures
        xor_all(a + b) == xor_all(a) ^ xor_all(b),
        xor_all(seq![c]) == c,
        xor_all(Seq::<u8>::empty()) == 0,
    decreases b.len(),
{
    let x = xor_all(a);
    assert(seq![c].drop_last() =~= Seq::<u8>::empty());
    assert(xor_all(seq![c].drop_last()) == 0);
    assert(0u8 ^ c == c) by (bit_vector);
    if b.len() == 0 {
        assert(a + b =~= a);
        assert(x ^ 0u8 == x) by (bit_vector);
    } else {
        assert((a + b).drop_last() =~= a + b.drop_last());
        assert((a + b).last() == b.last());
        exclusive_or_of_parts(a, b.drop_last(), c);
        let y = xor_all(b.drop_last());
        let z = b.last();
        assert((x ^ y) ^ z == x ^ (y ^ z)) by (bit_vector);
    }
}

/// A record is whole exactly if the exclusive or of its 186 bytes is 0.
pub proof fn whole_record_cancels_out(s: Seq<u8>)
    requires
        s.len() >= 185,
    ensures
        s.len() > 185 ==> (is_whole(s) <==> xor_all(s.take(186)) == 0),
        s.len() == 185 ==> (is_whole(s) <==> xor_all(s) == 0),
{
    if s.len() > 185 {
        let r = s.take(186);
        assert(r.drop_last() =~= s.take(185));
        parity_closes_the_record(r);
    } else {
        assert(s.take(185) =~= s);
    }
}

/// The steps of an attempt to read: a mapped region is read at once; otherwise the file is looked
/// for, mapped where it exists, and taken over where it has at least 178 bytes. Every other turn
/// ends the attempt and leaves the reader as it was.
pub proof fn attempts_to_read(ready: bool, exists: bool, len: usize)
    ensures
        ready ==> read_step(ready, PoseEvent::Start).0 == PoseAction::Read,
        !ready ==> read_step(ready, PoseEvent::Start).0 == PoseAction::Probe,
        read_step(ready, PoseEvent::Start).1 == ready,
        exists ==> read_step(ready, PoseEvent::Probed { exists }).0 == PoseAction::MapFile,
        !exists ==> read_step(ready, PoseEvent::Probed { exists }).0 == PoseAction::GiveUp,
        read_step(ready, PoseEvent::Probed { exists }).1 == ready,
        len >= 178 ==> read_step(ready, PoseEvent::Mapped { len }).0 == PoseAction::Read
            && read_step(ready, PoseEvent::Mapped { len }).1,
        len < 178 ==> read_step(ready, PoseEvent::Mapped { len }).0 == PoseAction::GiveUp
            && read_step(ready, PoseEvent::Mapped { len }).1 == ready,
        read_step(ready, PoseEvent::MapFailed).0 == PoseAction::GiveUp,
        read_step(ready, PoseEvent::MapFailed).1 == ready,
{
}

} // verus!
