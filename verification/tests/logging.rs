use tmtidy::logging::{cap_offset, last_line_containing, logfile_path, state_dir, MAX_LOG_BYTES};

#[test]
fn cap_noop_when_small() {
    let data = vec![b'x'; 50];
    assert_eq!(cap_offset(&data, 100), None);
    assert_eq!(cap_offset(&[], 100), None);
    assert_eq!(cap_offset(&vec![b'x'; 100], 100), None);
}

#[test]
fn cap_keeps_recent_tail_and_drops_oldest_lines() {
    let mut content = String::new();
    for i in 0..10 {
        content.push_str(&format!("line{}\n", i)); // 6 bytes each, 60 total
    }
    let data = content.as_bytes();
    let k = cap_offset(data, 18).unwrap();
    let kept = std::str::from_utf8(&data[k..]).unwrap();
    assert!(kept.len() <= 18); // never exceeds cap
    assert!(kept.ends_with("line9\n")); // newest retained
    assert!(!kept.contains("line0")); // oldest dropped
    assert!(kept.starts_with("line")); // retained content starts whole
    assert_eq!(kept, "line7\nline8\nline9\n");
}

#[test]
fn cap_drops_partial_oldest_line() {
    let data = b"abc\ndefg\nhi\n";
    // The last 6 bytes start inside "defg": that partial line goes.
    assert_eq!(cap_offset(data, 6), Some(9));
    // The last 8 bytes start exactly at "defg": it is kept whole.
    assert_eq!(cap_offset(data, 8), Some(4));
}

#[test]
fn cap_without_newline_keeps_no_partial_line() {
    let data = vec![b'x'; MAX_LOG_BYTES as usize + 10];
    assert_eq!(cap_offset(&data, MAX_LOG_BYTES), Some(MAX_LOG_BYTES as usize + 10));
    assert_eq!(cap_offset(b"xxx", 2), Some(3));
}

#[test]
fn last_line_containing_finds_newest_match() {
    let log = "{\"command\":\"scan\",\"n\":1}\n{\"command\":\"decay\"}\r\n{\"command\":\"scan\",\"n\":2}\r\n{\"command\":\"status\"}\n";
    assert_eq!(
        last_line_containing(log, "\"command\":\"scan\"").as_deref(),
        Some("{\"command\":\"scan\",\"n\":2}")
    );
    assert_eq!(last_line_containing(log, "nothing"), None);
    assert_eq!(last_line_containing("", "x"), None);
    assert_eq!(last_line_containing("a\nxb\r", "x").as_deref(), Some("xb\r"));
}

#[test]
fn log_paths_under_state_home() {
    assert_eq!(logfile_path("/s"), "/s/tmtidy/tmtidy.log");
    assert_eq!(state_dir("/s/"), "/s/tmtidy");
    assert_eq!(format!("{}/tmtidy.log", state_dir("/s")), logfile_path("/s"));
}
