use breezy_cosmic::ieee::{Quaternion, Single};
use breezy_cosmic::pose::{
    expected_parity, parity_matches, parse_pose_data, PoseAction, PoseError, PoseEvent, PoseReader,
};

fn single(x: f32) -> Single {
    Single { bits: x.to_bits() }
}

fn record() -> Vec<u8> {
    let mut r = vec![5u8, 1];
    for i in 0..4 {
        r.extend_from_slice(&(i as f32).to_le_bytes());
    }
    r.extend_from_slice(&1920u32.to_le_bytes());
    r.extend_from_slice(&1080u32.to_le_bytes());
    r.extend_from_slice(&46.0f32.to_le_bytes());
    r.extend_from_slice(&1.25f32.to_le_bytes());
    r.extend_from_slice(&[0, 7, 1]);
    for i in 0..16 {
        r.extend_from_slice(&(100.0 + i as f32).to_le_bytes());
    }
    for x in [0.5f32, -0.25, 2.0] {
        r.extend_from_slice(&x.to_le_bytes());
    }
    r.extend_from_slice(&0x1122334455667788u64.to_le_bytes());
    for i in 0..16 {
        r.extend_from_slice(&(i as f32 - 8.0).to_le_bytes());
    }
    assert_eq!(r.len(), 185);
    let parity = r.iter().fold(0u8, |a, b| a ^ b);
    r.push(parity);
    r
}

#[test]
fn a_record_is_read() {
    let r = record();
    let p = parse_pose_data(&r);
    assert_eq!(p.version, 5);
    assert!(p.enabled);
    assert_eq!(p.look_ahead_cfg, [single(0.0), single(1.0), single(2.0), single(3.0)]);
    assert_eq!(p.display_res, [1920, 1080]);
    assert_eq!(p.display_fov, single(46.0));
    assert_eq!(p.lens_distance_ratio, single(1.25));
    assert!(!p.sbs_enabled);
    assert!(p.custom_banner);
    assert!(p.smooth_follow_enabled);
    assert_eq!(p.smooth_follow_origin[0], single(100.0));
    assert_eq!(p.smooth_follow_origin[15], single(115.0));
    assert_eq!(p.position_nwu, [single(0.5), single(-0.25), single(2.0)]);
    assert_eq!(p.timestamp_ms, 0x1122334455667788);
    assert_eq!(p.orientations[0], single(-8.0));
    assert_eq!(p.orientations[15], single(7.0));
    assert_eq!(p.parity, r[185]);
    assert_eq!(parse_pose_data(&r[..185]).parity, 0);
}

#[test]
fn axes_are_changed() {
    let p = parse_pose_data(&record());
    assert_eq!(p.position_eus(), [single(0.25), single(2.0), single(-0.5)]);
    assert_eq!(
        p.orientation(),
        Quaternion { x: single(7.0), y: single(-6.0), z: single(8.0), w: single(-5.0) }
    );
    assert_eq!(
        p.orientation_lookahead(),
        Quaternion { x: single(3.0), y: single(-2.0), z: single(4.0), w: single(-1.0) }
    );
}

#[test]
fn what_follows_the_record_does_not_matter() {
    let mut r = record();
    let a = parse_pose_data(&r);
    r.extend_from_slice(&[1, 2, 3]);
    let b = parse_pose_data(&r);
    assert_eq!(a.orientations, b.orientations);
    assert_eq!(a.parity, b.parity);
    assert!(parity_matches(&r));
}

#[test]
fn parity_covers_every_byte() {
    let r = record();
    assert_eq!(expected_parity(&r), r[185]);
    assert!(parity_matches(&r));
    for i in 0..186 {
        let mut changed = r.clone();
        changed[i] ^= 0x10;
        assert!(!parity_matches(&changed), "byte {}", i);
    }
    assert_eq!(parity_matches(&r[..185]), r[185] == 0);
}

#[test]
fn regions_that_are_too_small() {
    let mut reader = PoseReader::new();
    let e = reader.init(177).unwrap_err();
    assert_eq!(e, PoseError::TooSmall { len: 177 });
    assert_eq!(e.message(), "Shared memory too small: 177 bytes (expected >= 178)");
    assert!(!reader.ready);
    assert_eq!(reader.init(178), Ok(()));
    assert!(reader.ready);
    assert!(reader.read_pose(&record()[..184]).is_none());
    assert!(reader.read_pose(&record()[..185]).is_some());
}

#[test]
fn a_reader_without_a_region_reads_nothing() {
    assert!(PoseReader::new().read_pose(&record()).is_none());
}

#[test]
fn the_region_is_mapped_once() {
    let mut r = PoseReader::new();
    assert_eq!(r.try_read(PoseEvent::Start), PoseAction::Probe);
    assert_eq!(r.try_read(PoseEvent::Probed { exists: false }), PoseAction::GiveUp);
    assert_eq!(r.try_read(PoseEvent::Probed { exists: true }), PoseAction::MapFile);
    assert_eq!(r.try_read(PoseEvent::MapFailed), PoseAction::GiveUp);
    assert_eq!(r.try_read(PoseEvent::Mapped { len: 10 }), PoseAction::GiveUp);
    assert!(!r.ready);
    assert_eq!(r.try_read(PoseEvent::Mapped { len: 186 }), PoseAction::Read);
    assert!(r.ready);
    assert_eq!(r.try_read(PoseEvent::Start), PoseAction::Read);
    assert_eq!(r.read_pose(&record()).unwrap().version, 5);
}
