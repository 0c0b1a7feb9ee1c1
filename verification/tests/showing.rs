use breezy_cosmic::capture::{CapturedFrame, PixelFormat};
use breezy_cosmic::config::{
    default_distance, default_follow_threshold, default_fps, default_scale, default_source,
    default_true, default_xr_match, Config,
};
use breezy_cosmic::gpu::{GpuPipeline, UploadPlan};
use breezy_cosmic::ieee::{Double, Quaternion, Single};
use breezy_cosmic::output::OutputInfo;
use breezy_cosmic::render::{
    columns_to_show, display_shape, field_of_view, index_bytes, vertex_bytes, vertex_words, Renderer,
    Uniforms, ViewAction, ViewEvent,
};
use breezy_cosmic::surface::{
    find_output_by_name, generate_test_pattern, App, DrawAction, DrawEvent, Transform, Upload,
};

fn single(x: f32) -> Single {
    Single { bits: x.to_bits() }
}

fn quat(x: f32, y: f32, z: f32, w: f32) -> Quaternion {
    Quaternion { x: single(x), y: single(y), z: single(z), w: single(w) }
}

fn glasses(width: i32, height: i32) -> OutputInfo {
    OutputInfo {
        name: "DP-3".to_string(),
        description: String::new(),
        make: String::new(),
        model: String::new(),
        width,
        height,
        refresh_mhz: 0,
        scale: Double { bits: 1.0f64.to_bits() },
        x: 0,
        y: 0,
        enabled: true,
    }
}

fn frame(width: u32, height: u32) -> CapturedFrame {
    CapturedFrame {
        data: vec![0; (width * height * 4) as usize],
        width,
        height,
        stride: width * 4,
        format: PixelFormat::Abgr8888,
        timestamp_ns: 0,
    }
}

// ---- Configuration ----

#[test]
fn default_configuration() {
    let c = Config::load_or_default(None);
    assert_eq!(f64::from_bits(c.display.distance.bits), 1.5);
    assert_eq!(f64::from_bits(c.display.scale.bits), 1.0);
    assert!(c.display.smooth_follow);
    assert_eq!(f64::from_bits(c.display.follow_threshold.bits), 15.0);
    assert_eq!(f64::from_bits(c.display.pin_yaw.bits), 0.0);
    assert_eq!(f64::from_bits(c.display.pin_pitch.bits), 0.0);
    assert_eq!(c.capture.target_fps, 60);
    assert!(c.capture.use_dmabuf);
    assert_eq!(c.capture.source, "monitor");
    assert_eq!(c.output.xr_match, "VITURE");
    assert_eq!(c.output.primary_match, "");
    assert_eq!(default_distance(), c.display.distance);
    assert_eq!(default_scale(), c.display.scale);
    assert_eq!(default_follow_threshold(), c.display.follow_threshold);
    assert!(default_true());
    assert_eq!(default_fps(), 60);
    assert_eq!(default_source(), "monitor");
    assert_eq!(default_xr_match(), "VITURE");
}

#[test]
fn a_loaded_configuration_is_used() {
    let mut c = Config::default();
    c.output.xr_match = "Xreal".to_string();
    let copy = c.clone();
    assert_eq!(Config::load_or_default(Some(c)).output.xr_match, "Xreal");
    assert_eq!(copy.output.xr_match, "Xreal");
    assert_eq!(copy.capture.source, "monitor");
}

// ---- Orientation ----

#[test]
fn the_way_to_an_orientation() {
    let far = single(15.0);
    let mut r = Renderer::new();
    let first = quat(0.1, 0.2, 0.3, 0.9);
    let second = quat(0.0, 0.5, 0.0, 0.8);
    assert_eq!(
        r.compute_view_matrix(ViewEvent::Start { raw: first }, true, far),
        ViewAction::Compare { reference: first, raw: first }
    );
    assert_eq!(
        r.compute_view_matrix(ViewEvent::Start { raw: second }, true, far),
        ViewAction::Compare { reference: first, raw: second }
    );
    assert_eq!(
        r.compute_view_matrix(ViewEvent::Compared { delta: quat(1.0, 2.0, 3.0, 4.0) }, true, far),
        ViewAction::Normalize { q: quat(-3.0, -2.0, 1.0, 4.0) }
    );
    let head = quat(0.0, 0.6, 0.0, 0.8);
    assert_eq!(
        r.compute_view_matrix(ViewEvent::Normalized { head }, true, far),
        ViewAction::MeasureTurn { from: quat(0.0, 0.0, 0.0, 1.0), to: head }
    );
    let degrees = single(0.4);
    assert_eq!(
        r.compute_view_matrix(ViewEvent::Turned { head, degrees }, true, far),
        ViewAction::Damp { from: quat(0.0, 0.0, 0.0, 1.0), to: head, degrees }
    );
    let filtered = quat(0.0, 0.3, 0.0, 0.9);
    assert_eq!(
        r.compute_view_matrix(ViewEvent::Damped { filtered }, true, far),
        ViewAction::Show { orientation: filtered }
    );
    assert_eq!(r.smooth_follow_anchor, filtered);
    assert_eq!(r.last_orientation, filtered);
    let next = quat(0.0, 0.7, 0.0, 0.7);
    assert_eq!(
        r.compute_view_matrix(ViewEvent::Damped { filtered: next }, true, far),
        ViewAction::MeasureDrift { anchor: filtered, to: next }
    );
    assert_eq!(
        r.compute_view_matrix(
            ViewEvent::Drifted { filtered: next, degrees: single(15.0) },
            true,
            far
        ),
        ViewAction::Show { orientation: filtered }
    );
    let degrees = single(15.5);
    assert_eq!(
        r.compute_view_matrix(ViewEvent::Drifted { filtered: next, degrees }, true, far),
        ViewAction::Ease { anchor: filtered, to: next, degrees }
    );
    let eased = quat(0.0, 0.35, 0.0, 0.9);
    assert_eq!(
        r.compute_view_matrix(ViewEvent::Eased { anchor: eased }, true, far),
        ViewAction::Show { orientation: eased }
    );
    assert_eq!(r.smooth_follow_anchor, eased);
    assert_eq!(r.last_orientation, eased);
    assert_eq!(r.reference_q, Some(first));
}

#[test]
fn small_turns_are_ignored() {
    let mut r = Renderer::new();
    let before = r;
    let head = quat(0.0, 0.6, 0.0, 0.8);
    let event = ViewEvent::Turned { head, degrees: single(0.39) };
    assert_eq!(
        r.compute_view_matrix(event, false, single(15.0)),
        ViewAction::Show { orientation: quat(0.0, 0.0, 0.0, 1.0) }
    );
    assert_eq!(r, before);
    let event = ViewEvent::Turned { head, degrees: single(f32::NAN) };
    assert!(matches!(r.compute_view_matrix(event, false, single(15.0)), ViewAction::Damp { .. }));
}

#[test]
fn without_smooth_follow_the_display_follows_at_once() {
    let mut r = Renderer::new();
    let filtered = quat(0.0, 0.3, 0.0, 0.9);
    assert_eq!(
        r.compute_smooth_follow(filtered, false),
        ViewAction::Show { orientation: filtered }
    );
    assert!(!r.anchor_initialized);
}

#[test]
fn a_reset_starts_over() {
    let mut r = Renderer::new();
    let a = quat(0.1, 0.0, 0.0, 1.0);
    let b = quat(0.2, 0.0, 0.0, 1.0);
    assert_eq!(r.sensor_to_renderer(a), a);
    assert_eq!(r.sensor_to_renderer(b), a);
    r.compute_smooth_follow(a, true);
    r.reset_smooth_follow();
    assert_eq!(r.sensor_to_renderer(b), b);
    assert_eq!(r.compute_smooth_follow(b, true), ViewAction::Show { orientation: b });
    assert_eq!(r.smooth_follow_anchor, b);
}

#[test]
fn field_of_view_and_shape() {
    assert_eq!(field_of_view(single(50.0)), single(50.0));
    for told in [0.0, -0.0, -3.0, f32::NAN] {
        assert_eq!(field_of_view(single(told)), single(46.0));
    }
    assert_eq!(display_shape((16, 9), None), (16, 9));
    assert_eq!(display_shape((16, 9), Some((4, 3))), (4, 3));
    assert_eq!(display_shape((16, 9), Some((0, 3))), (16, 9));
    assert_eq!(display_shape((16, 9), Some((4, 0))), (16, 9));
}

// ---- What the GPU gets ----

#[test]
fn the_buffers_of_the_display() {
    let (vertices, indices) = Renderer::quad_vertices();
    let numbers: [f32; 20] = [
        -1.0, -1.0, 0.0, 0.0, 1.0, 1.0, -1.0, 0.0, 1.0, 1.0, 1.0, 1.0, 0.0, 1.0, 0.0, -1.0, 1.0,
        0.0, 0.0, 0.0,
    ];
    let expected: Vec<u32> = numbers.iter().map(|x| x.to_bits()).collect();
    assert_eq!(vertex_words(&vertices), expected);
    let expected: Vec<u8> = numbers.iter().flat_map(|x| x.to_ne_bytes()).collect();
    assert_eq!(vertex_bytes(&vertices), expected);
    assert_eq!(indices, [0, 1, 2, 0, 2, 3]);
    let expected: Vec<u8> = indices.iter().flat_map(|x| x.to_ne_bytes()).collect();
    assert_eq!(index_bytes(&indices), expected);
}

#[test]
fn the_bytes_of_a_transform() {
    let mut columns = [[single(0.0); 4]; 4];
    let mut words: Vec<u32> = Vec::new();
    let mut expected: Vec<u8> = Vec::new();
    for i in 0..16 {
        let x = 1.5 * i as f32 - 7.0;
        columns[i / 4][i % 4] = single(x);
        words.push(x.to_bits());
        expected.extend_from_slice(&x.to_ne_bytes());
    }
    assert_eq!(Uniforms::from_mat4(columns).to_words(), words);
    assert_eq!(Uniforms::from_mat4(columns).to_bytes(), expected);
    assert_eq!(GpuPipeline::new(1, 1).update_mvp(columns), expected);
}

#[test]
fn textures_are_kept_while_the_size_stays() {
    let mut g = GpuPipeline::new(8, 4);
    assert_eq!((g.width, g.height, g.num_indices), (8, 4, 6));
    assert!(!g.has_frame());
    let plan = g.upload_frame(&frame(3, 2));
    assert_eq!(
        plan,
        UploadPlan {
            new_texture: true,
            width: 3,
            height: 2,
            bytes_per_row: 12,
            rows_per_image: 2
        }
    );
    assert!(g.has_frame());
    assert!(!g.upload_frame(&frame(3, 2)).new_texture);
    assert!(g.upload_frame(&frame(2, 3)).new_texture);
    assert!(g.upload_frame(&frame(3, 3)).new_texture);
}

#[test]
fn rows_come_back_aligned() {
    for (width, padded) in [(0u32, 0u32), (1, 256), (64, 256), (65, 512), (1920, 7680)] {
        let layout = GpuPipeline::new(width, 3).readback_layout();
        assert_eq!(layout.bytes_per_row, 4 * width);
        assert_eq!(layout.padded_bytes_per_row, padded);
        assert_eq!(layout.buffer_size, 3 * padded as u64);
    }
}

#[test]
fn outputs_that_are_too_large_to_come_back() {
    assert!(GpuPipeline::new(1920, 1080).can_read_back());
    assert!(GpuPipeline::new(0, u32::MAX).can_read_back());
    assert!(GpuPipeline::new(64, 0xff_ffff).can_read_back());
    assert!(!GpuPipeline::new(64, 0x100_0000).can_read_back());
    assert!(GpuPipeline::new(0x3fff_ffc0, 1).can_read_back());
    assert!(!GpuPipeline::new(0x3fff_ffc1, 0).can_read_back());
}

#[test]
fn padding_is_removed() {
    let g = GpuPipeline::new(2, 2);
    let mut data = vec![0u8; 512];
    for i in 0..8 {
        data[i] = i as u8 + 1;
        data[256 + i] = i as u8 + 101;
    }
    assert_eq!(
        g.render_frame(&data),
        [1, 2, 3, 4, 5, 6, 7, 8, 101, 102, 103, 104, 105, 106, 107, 108]
    );
    let tight: Vec<u8> = (0..512).map(|i| (i % 251) as u8).collect();
    assert_eq!(GpuPipeline::new(64, 2).render_frame(&tight), tight);
}

// ---- The overlay ----

#[test]
fn an_overlay_begins_with_the_size_of_the_glasses() {
    let app = App::new(&glasses(1920, 1080));
    assert_eq!((app.width, app.height), (1920, 1080));
    assert!(!app.configured && !app.exit);
    assert_eq!(app.source_size, None);
    assert_eq!(app.frame_count, 0);
    assert_eq!(app.pool_size(), 1920 * 1080 * 4 * 3);
    assert_eq!(App::new(&glasses(-1, i32::MIN)).width, u32::MAX);
    assert_eq!(App::new(&glasses(-1, i32::MIN)).height, 0x8000_0000);
}

#[test]
fn only_the_first_size_draws() {
    let mut app = App::new(&glasses(10, 20));
    assert!(app.configure(0, 30));
    assert_eq!((app.width, app.height), (10, 30));
    assert!(!app.configure(40, 0));
    assert_eq!((app.width, app.height), (40, 30));
    let names = vec![None, Some("eDP-1".to_string()), Some("DP-3".to_string())];
    assert_eq!(app.target_output(&names, "HDMI-A-1"), None);
    assert!(app.configured);
    assert_eq!(app.target_output(&names, "DP-3"), Some(2));
    assert!(!app.configured);
    assert!(app.configure(1, 1));
    app.closed();
    assert!(app.exit);
}

#[test]
fn outputs_are_found_by_their_names() {
    let names = vec![None, Some("A".to_string()), Some("B".to_string()), Some("A".to_string())];
    assert_eq!(find_output_by_name(&names, "A"), Some(1));
    assert_eq!(find_output_by_name(&names, "B"), Some(2));
    assert_eq!(find_output_by_name(&names, ""), None);
    assert_eq!(find_output_by_name(&vec![], "A"), None);
}

#[test]
fn a_redraw_that_succeeds() {
    let mut app = App::new(&glasses(100, 50));
    assert_eq!(
        app.draw(DrawEvent::Begin { repin: true }),
        DrawAction::Capture { reset: true, report_pose: true }
    );
    assert_eq!(
        app.draw(DrawEvent::Captured { posed: true, width: 7, height: 5 }),
        DrawAction::Render { upload: Upload::Frame, transform: Transform::Posed }
    );
    assert_eq!(app.source_size, Some((7, 5)));
    assert_eq!(app.draw(DrawEvent::Rendered), DrawAction::CreateBuffer { stride: 400 });
    assert_eq!(app.draw(DrawEvent::BufferReady), DrawAction::Present);
    assert_eq!(app.draw(DrawEvent::Attached), DrawAction::Commit { report_rate: false });
    assert_eq!(app.frame_count, 1);
    assert_eq!(
        app.draw(DrawEvent::Begin { repin: false }),
        DrawAction::Capture { reset: false, report_pose: false }
    );
    assert_eq!(
        app.draw(DrawEvent::CaptureFailed { posed: true }),
        DrawAction::Render { upload: Upload::Nothing, transform: Transform::Posed }
    );
    assert_eq!(app.source_size, Some((7, 5)));
}

#[test]
fn strides_of_wide_surfaces() {
    for (width, stride) in [
        (0x1fff_ffff, 0x7fff_fffc),
        (0xe000_0000, i32::MIN),
        (u32::MAX, -4),
    ] {
        let mut app = App::new(&glasses(1, 1));
        app.configure(width, 1);
        app.draw(DrawEvent::Begin { repin: false });
        assert_eq!(app.draw(DrawEvent::Rendered), DrawAction::CreateBuffer { stride });
    }
}

#[test]
fn redraws_that_fail() {
    let mut app = App::new(&glasses(100, 50));
    assert_eq!(
        app.draw(DrawEvent::CaptureFailed { posed: false }),
        DrawAction::Render { upload: Upload::TestPattern, transform: Transform::Identity }
    );
    assert_eq!(app.source_size, Some((100, 50)));
    assert_eq!(app.draw(DrawEvent::RenderFailed), DrawAction::RequestFrame);
    assert_eq!(app.draw(DrawEvent::BufferFailed), DrawAction::RequestFrame);
    assert_eq!(app.draw(DrawEvent::AttachFailed), DrawAction::Stop);
    assert_eq!(app.frame_count, 0);
}

#[test]
fn a_redraw_without_a_pose_is_flat() {
    let mut app = App::new(&glasses(100, 50));
    let identity = Transform::Identity;
    assert_eq!(
        app.draw(DrawEvent::Captured { posed: false, width: 7, height: 5 }),
        DrawAction::Render { upload: Upload::Frame, transform: identity }
    );
    app.draw(DrawEvent::Attached);
    assert_eq!(
        app.draw(DrawEvent::CaptureFailed { posed: false }),
        DrawAction::Render { upload: Upload::Nothing, transform: identity }
    );
    let flat = columns_to_show(None);
    for i in 0..4 {
        for j in 0..4 {
            assert_eq!(flat[i][j], single(if i == j { 1.0 } else { 0.0 }));
        }
    }
    let columns = [[single(2.5); 4]; 4];
    assert_eq!(columns_to_show(Some(columns)), columns);
}

#[test]
fn reports_come_in_turn() {
    let mut app = App::new(&glasses(1, 1));
    for n in 1..=240u64 {
        let begin = app.draw(DrawEvent::Begin { repin: false });
        assert_eq!(
            begin,
            DrawAction::Capture { reset: false, report_pose: (n - 1) % 120 == 0 }
        );
        assert_eq!(
            app.draw(DrawEvent::Attached),
            DrawAction::Commit { report_rate: n % 60 == 0 }
        );
    }
}

#[test]
fn pixels_reach_the_buffer_whole_or_not_at_all() {
    let app = App::new(&glasses(2, 1));
    let pixels = [1u8, 2, 3, 4, 5, 6, 7, 8];
    let mut canvas = [0u8; 9];
    app.write_pixels(&mut canvas, &pixels);
    assert_eq!(canvas, [3, 2, 1, 4, 7, 6, 5, 8, 0]);
    let mut short = [9u8; 7];
    app.write_pixels(&mut short, &pixels);
    assert_eq!(short, [9; 7]);
    let mut canvas = [9u8; 8];
    app.write_pixels(&mut canvas, &pixels[..7]);
    assert_eq!(canvas, [9; 8]);
}

#[test]
fn the_test_pattern() {
    let (w, h) = (200u32, 150u32);
    let ramp_x: Vec<u8> = (0..w).map(|x| (x as f32 / w as f32 * 200.0) as u8).collect();
    let ramp_y: Vec<u8> = (0..h).map(|y| (y as f32 / h as f32 * 200.0) as u8).collect();
    let f = generate_test_pattern(w, h, &ramp_x, &ramp_y);
    assert_eq!((f.width, f.height, f.stride, f.timestamp_ns), (200, 150, 800, 0));
    assert_eq!(f.format, PixelFormat::Abgr8888);
    assert_eq!(f.data.len(), 200 * 150 * 4);
    let at = |x: usize, y: usize| {
        let k = (y * 200 + x) * 4;
        [f.data[k], f.data[k + 1], f.data[k + 2], f.data[k + 3]]
    };
    for y in 0..150 {
        assert_eq!(at(99, y), [255, 255, 0, 255]);
        assert_eq!(at(100, y), [255, 255, 0, 255]);
        assert_eq!(at(101, y), [255, 255, 0, 255]);
    }
    assert_eq!(at(98, 4), [30, 30, 40, 255]);
    assert_eq!(at(3, 10), [255, 0, 0, 255]);
    assert_eq!(at(196, 10), [255, 0, 0, 255]);
    assert_eq!(at(10, 146), [255, 0, 0, 255]);
    assert_eq!(at(10, 75), [255, 255, 0, 255]);
    assert_eq!(at(10, 30), [50, 80, 120, 255]);
    assert_eq!(at(70, 10), [30, 30, 40, 255]);
    assert_eq!(at(70, 70), [110, 133, 120, 255]);
}

#[test]
fn tiny_test_patterns() {
    let f = generate_test_pattern(0, 5, &vec![], &vec![0; 5]);
    assert_eq!(f.data.len(), 0);
    let f = generate_test_pattern(1, 1, &vec![0], &vec![0]);
    assert_eq!(f.data, [255, 255, 0, 255]);
}
