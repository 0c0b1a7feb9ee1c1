use breezy_cosmic::ansi::strip_ansi;
use breezy_cosmic::ieee::Double;
use breezy_cosmic::listing::{parse_cosmic_randr_output, RawOutput};
use breezy_cosmic::output::{
    any_contains, select_outputs, OutputError, OutputInfo, OutputManager, OutputNumbers, Selection,
};
use breezy_cosmic::report::OutputFigures;

fn numbers_of(raw: &RawOutput) -> OutputNumbers {
    OutputNumbers {
        scale: raw
            .scale
            .as_ref()
            .and_then(|s| s.parse::<f64>().ok())
            .map(|v| Double { bits: v.to_bits() }),
        rates: raw
            .rates
            .iter()
            .map(|r| r.text.parse::<f64>().ok().map(|rate| (rate * 1000.0) as i32))
            .collect(),
    }
}

fn detect(text: &str) -> OutputManager {
    let listed = parse_cosmic_randr_output(text);
    let numbers: Vec<OutputNumbers> = listed.iter().map(numbers_of).collect();
    let mut manager = OutputManager::new_standalone();
    assert!(manager.needs_detection());
    manager.detect_outputs(&listed, &numbers);
    manager
}

fn output(name: &str, make: &str, width: i32, height: i32, enabled: bool) -> OutputInfo {
    OutputInfo {
        name: name.to_string(),
        description: String::new(),
        make: make.to_string(),
        model: String::new(),
        width,
        height,
        refresh_mhz: 60000,
        scale: Double { bits: 1.0f64.to_bits() },
        x: 0,
        y: 0,
        enabled,
    }
}

fn manager(outputs: Vec<OutputInfo>) -> OutputManager {
    OutputManager { outputs }
}

#[test]
fn test_strip_ansi() {
    assert_eq!(strip_ansi("\x1b[1meDP-1\x1b[0m"), "eDP-1");
    assert_eq!(strip_ansi("\x1b[1;32m(enabled)\x1b[0m"), "(enabled)");
    assert_eq!(strip_ansi("no ansi here"), "no ansi here");
    assert_eq!(
        strip_ansi("\x1b[35m1920x1080\x1b[0m @ \x1b[36m 60.056 Hz\x1b[0m"),
        "1920x1080 @  60.056 Hz"
    );
}

#[test]
fn test_parse_cosmic_randr_with_ansi() {
    let input = [
        "\x1b[1meDP-1\x1b[0m \x1b[1;32m(enabled)\x1b[0m\x1b[1;33m\n",
        "\x1b[1;33m  Make: \x1b[0mAU Optronics\x1b[1;33m\n",
        "\x1b[1;33m  Model: \x1b[0m0xF992\x1b[1;33m\n",
        "\x1b[1;33m  Scale: \x1b[0m1\x1b[1;33m\n",
        "\x1b[1;33m  Position: \x1b[0m0, 0\x1b[1;33m\n",
        "\x1b[1;33m  Modes:\x1b[0m\n",
        "    \x1b[35m1920x1080\x1b[0m @ \x1b[36m 60.056 Hz\x1b[0m\x1b[1;35m (current)\x1b[0m\x1b[1;32m (preferred)\x1b[0m\n",
        "    \x1b[35m1920x1080\x1b[0m @ \x1b[36m 48.045 Hz\x1b[0m\n",
    ]
    .concat();

    let outputs = detect(&input).outputs;
    assert_eq!(outputs.len(), 1);

    let out = &outputs[0];
    assert_eq!(out.name, "eDP-1");
    assert_eq!(out.make, "AU Optronics");
    assert_eq!(out.model, "0xF992");
    assert_eq!(out.width, 1920);
    assert_eq!(out.height, 1080);
    assert!(out.refresh_mhz > 59000 && out.refresh_mhz < 61000);
    assert!(out.enabled);
    assert_eq!(f64::from_bits(out.scale.bits), 1.0);
}

#[test]
fn test_parse_multiple_outputs() {
    let input = "eDP-1 (enabled)\n\
                  \x20\x20Make: AU Optronics\n\
                  \x20\x20Model: 0xF992\n\
                  \x20\x20Scale: 1.25\n\
                  \x20\x20Position: 0, 0\n\
                  \x20\x20Modes:\n\
                  \x20\x20\x20\x201920x1080 @ 60.000 Hz (current) (preferred)\n\
                  DP-3 (enabled)\n\
                  \x20\x20Make: VITURE\n\
                  \x20\x20Model: Luma Pro\n\
                  \x20\x20Scale: 1\n\
                  \x20\x20Position: 1920, 0\n\
                  \x20\x20Modes:\n\
                  \x20\x20\x20\x201920x1080 @ 60.000 Hz (current) (preferred)\n";

    let outputs = detect(input).outputs;
    assert_eq!(outputs.len(), 2);
    assert_eq!(outputs[0].name, "eDP-1");
    assert_eq!(f64::from_bits(outputs[0].scale.bits), 1.25);
    assert_eq!(outputs[1].name, "DP-3");
    assert_eq!(outputs[1].make, "VITURE");
    assert_eq!(outputs[1].model, "Luma Pro");
    assert_eq!((outputs[1].x, outputs[1].y), (1920, 0));
    assert_eq!(outputs[1].refresh_mhz, 60000);
}

#[test]
fn escape_sequences_at_the_edges() {
    assert_eq!(strip_ansi(""), "");
    assert_eq!(strip_ansi("\x1b"), "");
    assert_eq!(strip_ansi("a\x1bb"), "ab");
    assert_eq!(strip_ansi("a\x1b[12;3"), "a");
    assert_eq!(strip_ansi("\x1b[\x1b[mx"), "x");
    assert_eq!(strip_ansi("é\x1b[1mü"), "éü");
}

#[test]
fn stripping_twice_changes_nothing() {
    let once = strip_ansi("\x1b\x1b[1m[31m x \x1b[0m");
    assert!(!once.contains('\x1b'));
    assert_eq!(strip_ansi(&once), once);
}

#[test]
fn colors_change_no_listing() {
    let colored = "\x1b[1mDP-1:\x1b[0m\n  Make: \x1b[3mLG\x1b[0m\n";
    let a = detect(colored).outputs;
    let b = detect(&strip_ansi(colored)).outputs;
    assert_eq!(a[0].name, b[0].name);
    assert_eq!(a[0].name, "DP-1");
    assert_eq!(a[0].make, "LG");
    assert_eq!(b[0].make, "LG");
}

#[test]
fn header_lines() {
    let outputs = detect("  Make: nobody\n\nA (disabled)\nB\n  Disabled\nC::\n  this is disabled\n\tD\n").outputs;
    let names: Vec<&str> = outputs.iter().map(|o| o.name.as_str()).collect();
    assert_eq!(names, ["A", "B", "C", "D"]);
    let enabled: Vec<bool> = outputs.iter().map(|o| o.enabled).collect();
    assert_eq!(enabled, [false, false, false, true]);
}

#[test]
fn carriage_returns_end_lines() {
    let outputs = detect("A\r\n  Make: X\r\n  Model: Y").outputs;
    assert_eq!(outputs.len(), 1);
    assert_eq!(outputs[0].name, "A");
    assert_eq!(outputs[0].make, "X");
    assert_eq!(outputs[0].model, "Y");
}

#[test]
fn positions() {
    let at = |line: &str| {
        let o = detect(&format!("A\n  Position: {}\n", line)).outputs;
        (o[0].x, o[0].y)
    };
    assert_eq!(at("1920, -5"), (1920, -5));
    assert_eq!(at("(10,20)"), (10, 20));
    assert_eq!(at("((+7 , 8))"), (7, 8));
    assert_eq!(at("1, 2, 3"), (0, 0));
    assert_eq!(at("12"), (0, 0));
    assert_eq!(at("x, 3"), (0, 3));
    assert_eq!(at("2147483648, -2147483648"), (0, -2147483648));
    assert_eq!(at("2147483647, -"), (2147483647, 0));
}

#[test]
fn the_current_mode_gives_the_resolution() {
    let o = detect(
        "A\n  Modes:\n    800x600 @ 75 Hz\n    1920x1080 @ 59.94 Hz (current)\n    640x480 @ 60 Hz\n",
    )
    .outputs;
    assert_eq!((o[0].width, o[0].height), (1920, 1080));
    assert_eq!(o[0].refresh_mhz, 59940);
}

#[test]
fn the_first_mode_stands_in_for_a_current_one() {
    let o = detect("A\n  Modes:\n    800x600 @ 75 Hz\n    640x480 @ 60 Hz\n").outputs;
    assert_eq!((o[0].width, o[0].height), (800, 600));
    assert_eq!(o[0].refresh_mhz, 75000);
}

#[test]
fn rates_that_cannot_be_read() {
    let o = detect("A\n  800x600 @ fast Hz (current)\n  640x480 @ 60 Hz\n  1x2x3 Hz\n").outputs;
    assert_eq!((o[0].width, o[0].height), (800, 600));
    assert_eq!(o[0].refresh_mhz, 60000);
    let o = detect("A\n  800x600 @ 1 @ 2 Hz\n").outputs;
    assert_eq!(o[0].refresh_mhz, 2000);
}

#[test]
fn a_scale_that_cannot_be_read_is_one() {
    let o = detect("A\n  Scale: big\nB\n  Scale: 2\n  Scale: 1.5\nC\n").outputs;
    assert_eq!(f64::from_bits(o[0].scale.bits), 1.0);
    assert_eq!(f64::from_bits(o[1].scale.bits), 1.5);
    assert_eq!(f64::from_bits(o[2].scale.bits), 1.0);
}

#[test]
fn blocks_do_not_depend_on_those_above() {
    let above = "A\n  Make: One\n  800x600 @ 75 Hz\n";
    let below = "B (disabled)\n  Model: Two\n";
    let both = detect(&format!("{}{}", above, below)).outputs;
    let alone = detect(below).outputs;
    assert_eq!(both.len(), 2);
    assert_eq!(both[1].name, alone[0].name);
    assert_eq!(both[1].model, alone[0].model);
    assert_eq!(both[1].make, alone[0].make);
    assert_eq!(both[1].width, alone[0].width);
    assert_eq!(both[1].enabled, alone[0].enabled);
}

#[test]
fn search_strings_match_in_either_case() {
    let mut o = output("DP-3", "VITURE", 1, 1, true);
    o.model = "Luma Pro".to_string();
    o.description = "Brille ÄÖ".to_string();
    assert!(o.matches_edid("viture"));
    assert!(o.matches_edid("VITURE"));
    assert!(o.matches_edid("dp-"));
    assert!(o.matches_edid("luma p"));
    assert!(o.matches_edid("äö"));
    assert!(!o.matches_edid(""));
    assert!(!o.matches_edid("Xreal"));
    assert!(!any_contains("DP-3", "", "VITURE", "", "viture"));
    assert!(any_contains("DP-3", "", "VITURE", "", "TUR"));
    assert!(any_contains("", "", "", "", ""));
}

#[test]
fn pixel_counts() {
    assert_eq!(output("A", "", 1920, 1080, true).pixel_count(), 2073600);
    assert_eq!(output("A", "", i32::MIN, i32::MIN, true).pixel_count(), 1i64 << 62);
    assert_eq!(output("A", "", i32::MAX, i32::MIN, true).pixel_count(), -4611686016279904256);
}

#[test]
fn the_largest_other_output_is_the_monitor() {
    let m = manager(vec![
        output("DP-3", "VITURE", 3840, 2160, true),
        output("eDP-1", "AUO", 1920, 1080, true),
        output("DP-1", "LG", 2560, 1440, true),
        output("DP-2", "Dell", 7680, 4320, false),
    ]);
    let (primary, xr) = m.find_outputs("viture", "").unwrap();
    assert_eq!(primary.name, "DP-1");
    assert_eq!(xr.name, "DP-3");
}

#[test]
fn the_last_of_equally_large_outputs_is_the_monitor() {
    let m = manager(vec![
        output("A", "", 100, 10, true),
        output("XR", "VITURE", 1, 1, true),
        output("B", "", 10, 100, true),
        output("C", "", 10, 10, true),
    ]);
    assert_eq!(m.find_outputs("VITURE", "").unwrap().0.name, "B");
}

#[test]
fn a_search_string_finds_the_first_monitor() {
    let m = manager(vec![
        output("XR", "VITURE LG", 1, 1, true),
        output("A", "LG", 10, 10, false),
        output("B", "LG", 10, 10, true),
        output("C", "LG", 100, 100, true),
    ]);
    let (primary, xr) = m.find_outputs("viture", "lg").unwrap();
    assert_eq!(primary.name, "B");
    assert_eq!(xr.name, "XR");
}

#[test]
fn searches_in_vain() {
    let m = manager(vec![
        output("XR", "VITURE", 1, 1, false),
        output("A", "LG", 10, 10, true),
    ]);
    let e = m.find_outputs("viture", "").unwrap_err();
    assert!(matches!(&e, OutputError::NoXrOutput { pattern } if pattern == "viture"));
    assert_eq!(
        e.message(),
        "No XR output found matching 'viture'. Use --list-outputs to see available displays.\n\
         Make sure your XR glasses are connected and detected as a display."
    );

    let e = m.find_outputs("lg", "").unwrap_err();
    assert!(matches!(&e, OutputError::NoPrimary));
    assert_eq!(
        e.message(),
        "No primary output found. You need at least two displays \
         (your monitor + the XR glasses)."
    );

    let e = m.find_outputs("lg", "Dell").unwrap_err();
    assert!(matches!(&e, OutputError::NoPrimaryMatch { pattern } if pattern == "Dell"));
    assert_eq!(e.message(), "No primary output found matching 'Dell'");

    assert!(m.find_outputs("", "").is_err());
    assert!(manager(vec![]).find_outputs("viture", "").is_err());
}

#[test]
fn selections() {
    let outputs = vec![
        output("A", "", 5, 5, true),
        output("B", "", 9, 9, true),
        output("C", "", 7, 7, true),
    ];
    let all = vec![true, true, true];
    let last = vec![false, false, true];
    let none = vec![false, false, false];
    assert_eq!(
        select_outputs(&outputs, &last, &none, false),
        Selection::Found { primary: 1, xr: 2 }
    );
    assert_eq!(
        select_outputs(&outputs, &last, &all, true),
        Selection::Found { primary: 0, xr: 2 }
    );
    assert_eq!(select_outputs(&outputs, &last, &last, true), Selection::NoPrimary);
    assert_eq!(select_outputs(&outputs, &none, &all, true), Selection::NoXr);
}

#[test]
fn the_list_of_outputs() {
    let mut o = output("DP-3", "VITURE", 1920, 1080, true);
    o.model = "Luma Pro".to_string();
    o.x = -1920;
    let m = manager(vec![o, output("eDP-1", "AUO", 0, 0, false)]);
    let figures = vec![
        OutputFigures { refresh: "60.0".to_string(), scale: "1.0".to_string() },
        OutputFigures { refresh: "0.0".to_string(), scale: "1.2".to_string() },
    ];
    let expected = format!(
        "Detected outputs:\n{:-<70}\n\
         \x20 [0] DP-3 — VITURE Luma Pro\n\
         \x20     Resolution: 1920x1080 @ 60.0Hz\n\
         \x20     Position: (-1920, 0)  Scale: 1.0x  ENABLED\n\n\
         \x20 [1] eDP-1 — AUO \n\
         \x20     Resolution: 0x0 @ 0.0Hz\n\
         \x20     Position: (0, 0)  Scale: 1.2x  disabled\n\n",
        ""
    );
    assert_eq!(m.list_outputs(&figures), expected);
}
