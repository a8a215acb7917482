use libremarkable_utils::status::{
    document_counts, do_percents_fit, parse_df, parse_status, render, status_script, Battery,
    DocumentCounts, Readings, SystemStatus,
};
use libremarkable_utils::units::{format_duration, format_kib};
use libremarkable_utils::xochitl::{Item, ItemKind, TRASH_PARENT};

fn uptime(status: &SystemStatus) -> Option<f64> {
    status.uptime_secs.as_ref().and_then(|s| s.parse().ok())
}

fn load(status: &SystemStatus) -> Option<(f64, f64, f64)> {
    status
        .load_average
        .as_ref()
        .map(|(a, b, c)| (a.parse().unwrap(), b.parse().unwrap(), c.parse().unwrap()))
}

fn minutes(secs: f64) -> u64 {
    (secs / 60.0) as u64
}

fn readings(status: &SystemStatus) -> Readings {
    Readings {
        uptime_minutes: uptime(status).map(minutes),
        load: load(status)
            .map(|(a, b, c)| (format!("{a:.2}"), format!("{b:.2}"), format!("{c:.2}"))),
    }
}

/// A Paper-Pro-shaped fixture with a fabricated serial.
fn fixture() -> String {
    let m = "===M===";
    format!(
        "\n{m} model\nreMarkable Ferrari\u{0}\n\
         \n{m} serial\nRM100-000-00000\u{0}\u{0}\n\
         \n{m} update-conf\n[General]\nREMARKABLE_RELEASE_VERSION=3.20.0.92\n\
         \n{m} os-release\nID=codex\nVERSION_ID=\"3.20.0\"\n\
         \n{m} build\n20240915163045\n\
         \n{m} kernel\n6.1.36-rm\naarch64\n\
         \n{m} uptime\n279123.45 401234.00\n\
         \n{m} loadavg\n0.15 0.10 0.05 1/123 4567\n\
         \n{m} cpus\n2\n\
         \n{m} meminfo\nMemTotal:        1892456 kB\nMemFree:          123456 kB\nMemAvailable:    1479844 kB\n\
         \n{m} df\nFilesystem 1024-blocks Used Available Capacity Mounted on\n/dev/mmcblk0p4 6712344 2201234 4511110 33% /home\n/dev/mmcblk0p2 505576 288012 217564 57% /\n\
         \n{m} battery\n86 Discharging\n\
         \n{m} xochitl\nactive\n"
    )
}

#[test]
fn parses_full_fixture() {
    let status = parse_status("===M===", &fixture());
    assert_eq!(status.model.as_deref(), Some("reMarkable Ferrari"));
    // NUL padding stripped from device-tree strings.
    assert_eq!(status.serial.as_deref(), Some("RM100-000-00000"));
    assert_eq!(status.os_version.as_deref(), Some("3.20.0.92"));
    assert_eq!(status.os_build.as_deref(), Some("20240915163045"));
    assert_eq!(status.kernel.as_deref(), Some("6.1.36-rm"));
    assert_eq!(status.arch.as_deref(), Some("aarch64"));
    assert_eq!(uptime(&status), Some(279123.45));
    assert_eq!(load(&status), Some((0.15, 0.10, 0.05)));
    assert_eq!(status.cpu_count, Some(2));
    assert_eq!(status.mem_total_kib, Some(1_892_456));
    assert_eq!(status.mem_available_kib, Some(1_479_844));
    assert_eq!(status.disks.len(), 2);
    assert_eq!(status.disks[0].mount, "/home");
    assert_eq!(status.disks[0].total_kib, 6_712_344);
    assert_eq!(
        status.battery,
        Some(Battery {
            percent: 86,
            status: Some("Discharging".to_string())
        })
    );
    assert_eq!(status.xochitl.as_deref(), Some("active"));
}

#[test]
fn missing_sections_yield_none_not_errors() {
    let status = parse_status("===M===", "\n===M=== model\n\n===M=== battery\n");
    assert_eq!(status.model, None);
    assert_eq!(status.battery, None);
    assert_eq!(status.os_version, None);
    assert!(status.disks.is_empty());
}

#[test]
fn os_release_is_the_version_fallback() {
    let out = "\n===M=== os-release\nVERSION_ID=\"3.5.2\"\n";
    let status = parse_status("===M===", out);
    assert_eq!(status.os_version.as_deref(), Some("3.5.2"));
}

#[test]
fn df_dedupes_shared_mounts() {
    let body = "Filesystem 1024-blocks Used Available Capacity Mounted on\n\
                /dev/root 100 50 50 50% /\n\
                /dev/root 100 50 50 50% /\n";
    assert_eq!(parse_df(body).len(), 1);
}

#[test]
fn counts_split_trash_from_live_items() {
    let item = |uuid: &str, parent: &str, kind: ItemKind| Item {
        uuid: uuid.to_string(),
        visible_name: uuid.to_string(),
        parent: parent.to_string(),
        kind,
        file_type: None,
        created_time: 0,
        last_modified: 0,
        size_bytes: None,
    };
    let items = vec![
        item("f", "", ItemKind::Folder),
        item("d1", "f", ItemKind::Document),
        item("t", TRASH_PARENT, ItemKind::Folder),
        item("td", "t", ItemKind::Document), // nested in trashed folder
    ];
    assert_eq!(
        document_counts(&items),
        DocumentCounts {
            documents: 1,
            folders: 1,
            trashed: 2
        }
    );
}

#[test]
fn render_omits_missing_rows() {
    let full = parse_status("===M===", &fixture());
    let lines = render(&full, &readings(&full));
    assert!(lines.iter().any(|l| l.starts_with("Serial:")));
    assert!(lines.iter().any(|l| l.contains("3d 5h 32m")));
    assert!(lines.iter().any(|l| l.contains("2 core(s), load 0.15")));
    assert!(
        lines
            .iter()
            .any(|l| l.contains("/home 2.1 GiB used / 6.4 GiB (32%)"))
    );
    assert!(lines.iter().any(|l| l.contains("86% (Discharging)")));

    let nothing = SystemStatus::default();
    let empty = render(&nothing, &readings(&nothing));
    assert!(empty.is_empty());
}

#[test]
fn duration_and_size_formatting() {
    assert_eq!(format_duration(minutes(59.0)), "0m");
    assert_eq!(format_duration(minutes(3_660.0)), "1h 1m");
    assert_eq!(format_duration(minutes(90_000.0)), "1d 1h 0m");
    assert_eq!(format_kib(512), "512 KiB");
    assert_eq!(format_kib(2048), "2.0 MiB");
    assert_eq!(format_kib(1_992_294), "1.9 GiB");
}

/// Sizes as floating-point arithmetic shows them.
fn float_size(kib: u64) -> String {
    let bytes = kib as f64 * 1024.0;
    let units = ["KiB", "MiB", "GiB", "TiB"];
    let (value, unit) = units
        .iter()
        .enumerate()
        .map(|(i, unit)| (bytes / 1024f64.powi(i as i32 + 1), unit))
        .take_while(|(value, _)| *value >= 1.0)
        .last()
        .unwrap_or((kib as f64, &"KiB"));
    if value >= 10.0 {
        format!("{value:.0} {unit}")
    } else {
        format!("{value:.1} {unit}")
    }
}

#[test]
fn sizes_agree_with_floating_point() {
    let mut kib: u64 = 1;
    for step in 0..4000u64 {
        assert_eq!(format_kib(kib), float_size(kib), "{kib}");
        kib = kib
            .wrapping_mul(6364136223846793005)
            .wrapping_add(1442695040888963407 + step);
        assert_eq!(format_kib(kib >> (step % 64)), float_size(kib >> (step % 64)));
    }
    for kib in [
        0,
        1,
        9,
        10,
        1023,
        1024,
        1587,
        10239,
        10240,
        10752,
        11264,
        11776,
        1 << 20,
        (1 << 53) - 1,
        (1 << 53) + 1,
        (1 << 54) + (1 << 29) + 1,
        (1 << 63) + (1 << 29) + 1,
        u64::MAX - 1024,
        u64::MAX - 1023,
        u64::MAX,
    ] {
        assert_eq!(format_kib(kib), float_size(kib), "{kib}");
    }
}

#[test]
fn which_words_are_numbers_is_what_the_parser_says() {
    for word in [
        "1", "1.", ".5", ".", "", "+1.5", "-2e3", "1e", "1e+", "1e-7", "1E5", "inf", "-Infinity",
        "NaN", "infin", "1_0", "0x10", "1.2.3", "e5", ".e1", "--1", "1e5.0", "+", "+.5e-1",
    ] {
        let output = format!("===M=== uptime\n{word} rest\n");
        let status = parse_status("===M===", &output);
        // An empty word is no word: the one behind it is looked at.
        let first = if word.is_empty() { "rest" } else { word };
        let expected = first.parse::<f64>().is_ok();
        assert_eq!(status.uptime_secs.is_some(), expected, "{word}");
    }
}

#[test]
fn three_numbers_make_a_load() {
    let status = parse_status("M", "M loadavg\nx 1 2\n");
    assert!(status.load_average.is_none());
    let status = parse_status("M", "M loadavg\nx 1 y 2 3 4\n");
    let load = status.load_average.unwrap();
    assert_eq!(load, ("1".to_string(), "2".to_string(), "3".to_string()));
}

#[test]
fn df_lines_that_do_not_parse_still_claim_their_mount() {
    let body = "head\n/dev/a x 1 1 1% /m\n/dev/b 5 1 4 20% /m\n/dev/c 9 1 8 1% /a b\nshort 1 2\n";
    let disks = parse_df(body);
    assert_eq!(disks.len(), 1);
    assert_eq!(disks[0].mount, "/a b");
    assert_eq!(disks[0].available_kib, 8);
}

#[test]
fn batteries_above_full_are_passed_over() {
    let status = parse_status("M", "M battery\n101 Full\nx\n7\n");
    assert_eq!(
        status.battery,
        Some(Battery {
            percent: 7,
            status: None
        })
    );
}

#[test]
fn an_empty_value_hides_later_ones() {
    let status = parse_status("M", "M os-release\nVERSION_ID=\"\"\nVERSION_ID=2\n");
    assert_eq!(status.os_version, None);
}

#[test]
fn the_script_marks_its_sections() {
    let script = status_script("=== M ===");
    assert!(script.starts_with("sec() { printf '\\n%s %s\\n' '=== M ===' \"$1\"; }\nsec model; "));
    assert!(script.ends_with("\ntrue\n"));
}

#[test]
fn rows_line_up() {
    let status = SystemStatus {
        kernel: Some("6.1".to_string()),
        os_build: Some("7".to_string()),
        mem_total_kib: Some(2048),
        mem_available_kib: Some(4096),
        ..SystemStatus::default()
    };
    assert!(do_percents_fit(&status.disks));
    assert_eq!(
        render(&status, &readings(&status)),
        [
            "OS:        build 7",
            "Kernel:    6.1",
            "Memory:    0.0 KiB used / 2.0 MiB total"
        ]
    );
}

#[test]
fn a_disk_of_no_size_is_not_used() {
    let mut status = SystemStatus::default();
    status.disks = parse_df("head\n/dev/a 0 0 0 - /m\n");
    let rows = render(&status, &readings(&status));
    assert_eq!(rows, ["Storage:   /m 0.0 KiB used / 0.0 KiB (0%)"]);
    status.disks[0].used_kib = u64::MAX;
    assert!(!do_percents_fit(&status.disks));
}
