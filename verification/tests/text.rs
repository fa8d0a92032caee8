use odx_desktop::text::{
    bytes_to_hex, clean_hex_string, clean_path, decimal_string_to_hex, diagnostic_kind,
    format_hex_bytes, is_odx_archive_entry, parse_hex_frame_text, parse_logical_address,
    safe_folder_name,
};

#[test]
fn clean_path_strips_whitespace_and_quotes() {
    assert_eq!(clean_path("  \"C:\\Diag\\vehicle.pdx\"  "), "C:\\Diag\\vehicle.pdx");
    assert_eq!(clean_path(" ' x ' "), "x");
    assert_eq!(clean_path("plain"), "plain");
    assert_eq!(clean_path("   "), "");
}

#[test]
fn decimal_string_to_hex_pads_to_even_widths() {
    assert_eq!(decimal_string_to_hex("255").as_deref(), Some("FF"));
    assert_eq!(decimal_string_to_hex("256").as_deref(), Some("0100"));
    assert_eq!(decimal_string_to_hex(" 65536 ").as_deref(), Some("010000"));
    assert_eq!(decimal_string_to_hex("16777216").as_deref(), Some("01000000"));
    assert_eq!(decimal_string_to_hex("0x1F").as_deref(), Some("1F"));
    assert_eq!(decimal_string_to_hex("0XABC").as_deref(), Some("0ABC"));
    assert_eq!(decimal_string_to_hex("+5").as_deref(), Some("05"));
    assert_eq!(
        decimal_string_to_hex("18446744073709551615").as_deref(),
        Some("FFFFFFFFFFFFFFFF")
    );
}

#[test]
fn decimal_string_to_hex_rejects_non_numbers() {
    assert_eq!(decimal_string_to_hex("abc"), None);
    assert_eq!(decimal_string_to_hex(""), None);
    assert_eq!(decimal_string_to_hex("0x"), None);
    assert_eq!(decimal_string_to_hex("-1"), None);
    assert_eq!(decimal_string_to_hex("18446744073709551616"), None);
}

#[test]
fn clean_hex_string_normalises() {
    assert_eq!(clean_hex_string("0x1a2").as_deref(), Some("01A2"));
    assert_eq!(clean_hex_string("  de:ad be-ef ").as_deref(), Some("DEADBEEF"));
    assert_eq!(clean_hex_string("zz"), None);
    assert_eq!(clean_hex_string("0X"), None);
}

#[test]
fn clean_hex_string_is_idempotent() {
    for input in ["0x1a2", " 7 ", "ab cd", "0Xf"] {
        let once = clean_hex_string(input).unwrap();
        assert_eq!(clean_hex_string(&once).as_deref(), Some(once.as_str()));
    }
}

#[test]
fn bytes_to_hex_renders_spaced_pairs() {
    assert_eq!(bytes_to_hex(&[0x0a, 0xff, 0x00]), "0A FF 00");
    assert_eq!(bytes_to_hex(&[]), "");
    assert_eq!(format_hex_bytes(&[0x22, 0xf1, 0x90]), "22 F1 90");
}

#[test]
fn parse_hex_frame_text_accepts_separators_and_prefixes() {
    assert_eq!(parse_hex_frame_text("22 F1 90"), Ok(vec![0x22, 0xF1, 0x90]));
    assert_eq!(parse_hex_frame_text("0x22,0xf1;90"), Ok(vec![0x22, 0xF1, 0x90]));
    assert_eq!(parse_hex_frame_text("10-03_3E:00"), Ok(vec![0x10, 0x03, 0x3E, 0x00]));
}

#[test]
fn parse_hex_frame_text_errors() {
    assert_eq!(
        parse_hex_frame_text(" , "),
        Err("A sequence contains an empty frame.".to_string())
    );
    assert_eq!(
        parse_hex_frame_text("123"),
        Err("Invalid hexadecimal frame '123': odd number of digits.".to_string())
    );
    assert_eq!(
        parse_hex_frame_text("GG"),
        Err("Invalid hexadecimal frame 'GG'.".to_string())
    );
}

#[test]
fn hex_text_round_trips_to_bytes() {
    for bytes in [vec![0u8], vec![0x22, 0xF1, 0x90], (0u8..=255).collect::<Vec<u8>>()] {
        assert_eq!(parse_hex_frame_text(&bytes_to_hex(&bytes)), Ok(bytes.clone()));
    }
}

#[test]
fn safe_folder_name_replaces_and_falls_back() {
    assert_eq!(safe_folder_name("  My/Seq: 1 ", "sequence"), "My_Seq_ 1");
    assert_eq!(safe_folder_name("..", "fallback"), "fallback");
    assert_eq!(safe_folder_name(" .a. ", "x"), "a");
    assert_eq!(safe_folder_name("", "empty"), "empty");
}

#[test]
fn parse_logical_address_reads_hex_and_decimal() {
    assert_eq!(parse_logical_address("0x0E80", "Target address"), Ok(0x0E80));
    assert_eq!(parse_logical_address(" 3712 ", "Source address"), Ok(3712));
    assert_eq!(parse_logical_address("0XFFFF", "x"), Ok(0xFFFF));
}

#[test]
fn parse_logical_address_errors() {
    assert_eq!(
        parse_logical_address("  ", "Source address"),
        Err("Source address is empty.".to_string())
    );
    assert_eq!(
        parse_logical_address("0x10000", "target address"),
        Err("Invalid target address '0x10000'. Use for example 0x0E80.".to_string())
    );
    assert_eq!(
        parse_logical_address(" zz ", "T"),
        Err("Invalid T 'zz'. Use for example 0x0E80.".to_string())
    );
}

#[test]
fn diagnostic_kind_by_ending() {
    assert_eq!(diagnostic_kind(Some("VEHICLE.PDX")), Some("pdx"));
    assert_eq!(diagnostic_kind(Some("ecu.mdd")), Some("mdd"));
    assert_eq!(diagnostic_kind(Some("base.odx-cs")), Some("odx"));
    assert_eq!(diagnostic_kind(Some("notes.txt")), None);
    assert_eq!(diagnostic_kind(None), None);
}

#[test]
fn odx_archive_entries() {
    assert!(is_odx_archive_entry("dir/File.ODX-D"));
    assert!(is_odx_archive_entry("a.odx"));
    assert!(!is_odx_archive_entry("a.odx-x"));
    assert!(!is_odx_archive_entry("index.xml"));
}

#[test]
fn decimal_to_hex_reads_back() {
    for n in [0u64, 9, 255, 256, 4095, 65535, 65536, 16777215, 16777216, 4294967295, 4294967296, u64::MAX] {
        let h = decimal_string_to_hex(&n.to_string()).unwrap();
        assert_eq!(u64::from_str_radix(&h, 16), Ok(n));
        assert_eq!(decimal_string_to_hex(&format!("0x{n:x}")).as_deref(), Some(h.as_str()));
        assert!(h.chars().all(|c| c.is_ascii_hexdigit() && !c.is_ascii_lowercase()));
        if n <= u32::MAX as u64 {
            assert_eq!(h.len() % 2, 0);
        }
    }
}

#[test]
fn logical_addresses_read_back() {
    for a in [0u16, 1, 0x0E80, 0x1001, 0xFFFF] {
        assert_eq!(parse_logical_address(&format!("0x{a:04X}"), "x"), Ok(a));
        assert_eq!(parse_logical_address(&a.to_string(), "x"), Ok(a));
    }
}
