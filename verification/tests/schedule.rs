use tmtidy::schedule::render_scan_summary;
use tmtidy::schedule::{
    bootout_is_benign, domain_target, parse_every, plist_path, render_plist, scan_log_path,
    xml_escape, EveryError,
};

#[test]
fn parse_every_accepts_units() {
    assert_eq!(parse_every("3600s").ok().unwrap(), 3600);
    assert_eq!(parse_every("30m").ok().unwrap(), 1800);
    assert_eq!(parse_every("1h").ok().unwrap(), 3600);
    assert_eq!(parse_every("24h").ok().unwrap(), 86400);
    assert_eq!(parse_every("1d").ok().unwrap(), 86400);
    assert_eq!(parse_every("60s").ok().unwrap(), 60);
    assert_eq!(parse_every("1m").ok().unwrap(), 60);
}

#[test]
fn parse_every_rejects_bad_input() {
    for bad in ["", "0", "5x", "h", "-1h", "1h30m", "  ", "1s", "30s", "59s"] {
        assert!(parse_every(bad).is_err(), "expected {:?} to be rejected", bad);
    }
}

#[test]
fn parse_every_trims_surrounding_whitespace() {
    assert_eq!(parse_every("  2h\t\n").ok().unwrap(), 7200);
    assert_eq!(parse_every("\u{3000}5m\u{a0}").ok().unwrap(), 300);
}

#[test]
fn parse_every_reports_each_error() {
    assert!(matches!(parse_every(" \t "), Err(EveryError::Empty)));
    match parse_every(" h ") {
        Err(EveryError::MissingNumber(s)) => assert_eq!(s, "h"),
        _ => panic!("expected MissingNumber"),
    }
    match parse_every("99999999999999999999s") {
        Err(EveryError::BadNumber(s)) => assert_eq!(s, "99999999999999999999s"),
        _ => panic!("expected BadNumber"),
    }
    match parse_every("0") {
        Err(EveryError::MissingUnit(s)) => assert_eq!(s, "0"),
        _ => panic!("expected MissingUnit"),
    }
    match parse_every("1h30m") {
        Err(EveryError::UnknownUnit(u)) => assert_eq!(u, "h30m"),
        _ => panic!("expected UnknownUnit"),
    }
    assert!(matches!(parse_every("300000000000000000d"), Err(EveryError::TooLarge)));
    assert!(matches!(parse_every("0s"), Err(EveryError::Zero)));
    assert!(matches!(parse_every("59s"), Err(EveryError::TooShort)));
}

#[test]
fn parse_every_accepts_largest_interval() {
    assert_eq!(parse_every("18446744073709551615s").ok().unwrap(), u64::MAX);
    assert!(matches!(parse_every("18446744073709551616s"), Err(EveryError::BadNumber(_))));
}

#[test]
fn parse_every_roundtrips_rendered_numbers() {
    for n in [1u64, 7, 60, 1440, 123456] {
        assert_eq!(parse_every(&format!("{}m", n)).ok().unwrap(), n * 60);
    }
}

#[test]
fn render_plist_has_core_fields() {
    let out = render_plist(
        "/usr/local/bin/tmtidy",
        None,
        3600,
        "/Users/x/.local/state/tmtidy/scan.log",
    );
    assert!(out.contains("<string>com.tmtidy.scan</string>"));
    assert!(out.contains("<string>/usr/local/bin/tmtidy</string>"));
    assert!(out.contains("<string>scan</string>"));
    assert!(out.contains("<key>StartInterval</key>"));
    assert!(out.contains("<integer>3600</integer>"));
    assert!(out.contains("<key>RunAtLoad</key>"));
    assert!(out.contains("<string>/Users/x/.local/state/tmtidy/scan.log</string>"));
    // No config passed -> no --config arg.
    assert!(!out.contains("--config"));
}

#[test]
fn render_plist_includes_config_when_present() {
    let out = render_plist(
        "/usr/local/bin/tmtidy",
        Some("/Users/x/.config/tmtidy/config.yaml"),
        1800,
        "/tmp/scan.log",
    );
    assert!(out.contains("<string>--config</string>"));
    assert!(out.contains("<string>/Users/x/.config/tmtidy/config.yaml</string>"));
    assert!(out.contains("<integer>1800</integer>"));
}

#[test]
fn render_plist_is_exact() {
    let out = render_plist("/bin/t", None, 60, "/l");
    let expected = "<?xml version=\"1.0\" encoding=\"UTF-8\"?>\n<!DOCTYPE plist PUBLIC \"-//Apple//DTD PLIST 1.0//EN\" \"http://www.apple.com/DTDs/PropertyList-1.0.dtd\">\n<plist version=\"1.0\">\n<dict>\n\t<key>Label</key>\n\t<string>com.tmtidy.scan</string>\n\t<key>ProgramArguments</key>\n\t<array>\n\t\t<string>/bin/t</string>\n\t\t<string>scan</string>\n\t</array>\n\t<key>StartInterval</key>\n\t<integer>60</integer>\n\t<key>RunAtLoad</key>\n\t<true/>\n\t<key>StandardOutPath</key>\n\t<string>/l</string>\n\t<key>StandardErrorPath</key>\n\t<string>/l</string>\n\t<key>ProcessType</key>\n\t<string>Background</string>\n\t<key>LowPriorityIO</key>\n\t<true/>\n\t<key>Nice</key>\n\t<integer>5</integer>\n</dict>\n</plist>\n";
    assert_eq!(out, expected);
}

#[test]
fn render_plist_escapes_paths() {
    let out = render_plist("/a&b/<t>", Some("/c>d"), 120, "/x&y");
    assert!(out.contains("<string>/a&amp;b/&lt;t&gt;</string>"));
    assert!(out.contains("<string>/c&gt;d</string>"));
    assert!(out.contains("<string>/x&amp;y</string>"));
    assert!(out.contains("<integer>120</integer>"));
}

#[test]
fn xml_escape_replaces_entities() {
    assert_eq!(xml_escape("a&b<c>d"), "a&amp;b&lt;c&gt;d");
    assert_eq!(xml_escape("plain"), "plain");
    assert_eq!(xml_escape("&amp;"), "&amp;amp;");
}

#[test]
fn schedule_paths_under_home() {
    assert_eq!(plist_path("/Users/x"), "/Users/x/Library/LaunchAgents/com.tmtidy.scan.plist");
    assert_eq!(scan_log_path("/Users/x/.local/state"), "/Users/x/.local/state/tmtidy/scan.log");
    assert_eq!(scan_log_path("/xdg/state/"), "/xdg/state/tmtidy/scan.log");
}

#[test]
fn domain_target_names_gui_domain() {
    assert_eq!(domain_target("501"), "gui/501");
}

#[test]
fn bootout_not_loaded_is_benign() {
    assert!(bootout_is_benign("Boot-out failed: 3: No such process\n"));
    assert!(bootout_is_benign("Could not find service \"com.tmtidy.scan\" in domain"));
    assert!(!bootout_is_benign("Boot-out failed: 1: Operation not permitted"));
    assert!(!bootout_is_benign(""));
}

#[test]
fn last_scan_summary_reads_newest_scan_record() {
    let log = "{\"ts\":\"t1\",\"command\":\"scan\",\"stats\":{\"errors\":0}}\n\
               {\"ts\":\"t2\",\"command\":\"decay\"}\n\
               {\"ts\":\"t3\",\"command\":\"scan\",\"stats\":{\"errors\":4}}\n";
    assert_eq!(
        tmtidy::schedule::last_scan_summary(log).as_deref(),
        Some("t3 {\"errors\":4}")
    );
    assert_eq!(tmtidy::schedule::last_scan_summary("{\"command\":\"decay\"}\n"), None);
    assert_eq!(tmtidy::schedule::last_scan_summary(""), None);
}

#[test]
fn last_scan_summary_falls_back_to_raw_line() {
    // Not JSON: the raw line is shown.
    let log = "garbage \"command\":\"scan\" here\n";
    assert_eq!(
        tmtidy::schedule::last_scan_summary(log).as_deref(),
        Some("garbage \"command\":\"scan\" here")
    );
    // JSON without ts or stats.
    assert_eq!(
        tmtidy::schedule::last_scan_summary("{\"command\":\"scan\"}").as_deref(),
        Some("? ")
    );
}

#[test]
fn render_scan_summary_layout() {
    assert_eq!(render_scan_summary("raw", None), "raw");
    assert_eq!(
        render_scan_summary("raw", Some((Some("ts".to_string()), Some("{}".to_string())))),
        "ts {}"
    );
    assert_eq!(render_scan_summary("raw", Some((None, None))), "? ");
}
