use reclass::{find_pattern_in, sanitize_pattern, signature_value, AppSignature};

#[test]
fn patterns_are_squeezed_to_single_spaces() {
    assert_eq!(sanitize_pattern("  48 8B\t\t05  ?? ?? \n"), "48 8B 05 ?? ??");
    assert_eq!(sanitize_pattern(""), "");
    assert_eq!(sanitize_pattern("   "), "");
    assert_eq!(sanitize_pattern("E8"), "E8");
}

#[test]
fn signature_values_are_offsets_or_relative_addresses() {
    assert_eq!(signature_value(false, 7, 0x1000, 0x20), 0x20);
    assert_eq!(signature_value(true, 7, 0x1000, 0x20), 0x1027);
}

#[test]
fn edit_buffers_update_numbers_only_when_they_parse() {
    let mut s = AppSignature::default();
    s.offset = 5;
    s.rel_inst_len = 9;
    s.offset_buf = "0x10".to_string();
    s.rel_inst_len_buf = "seven".to_string();
    s.refresh_numbers();
    assert_eq!(s.offset, 16);
    assert_eq!(s.rel_inst_len, 9);
    s.rel_inst_len_buf = " 7 ".to_string();
    s.refresh_numbers();
    assert_eq!(s.rel_inst_len, 7);
}

#[test]
fn resolution_outcomes_are_recorded() {
    let mut s = AppSignature::default();
    s.record_resolution(Ok(0x1234));
    assert_eq!(s.last_value, Some(0x1234));
    assert_eq!(s.last_error, None);
    s.record_resolution(Err("failed to find pattern".to_string()));
    assert_eq!(s.last_value, None);
    assert_eq!(s.last_error.as_deref(), Some("failed to find pattern"));
}

#[test]
fn patterns_are_found_at_their_first_match() {
    let buf = [0x48u8, 0x8b, 0x05, 0x10, 0x48, 0x8b, 0x0d, 0x20];
    assert_eq!(find_pattern_in(&buf, 0x1000, &[Some(0x48), Some(0x8b)]), Some(0x1000));
    assert_eq!(find_pattern_in(&buf, 0x1000, &[Some(0x48), Some(0x8b), Some(0x0d)]), Some(0x1004));
    assert_eq!(find_pattern_in(&buf, 0x1000, &[Some(0x8b), None, Some(0x20)]), Some(0x1005));
    assert_eq!(find_pattern_in(&buf, 0x1000, &[Some(0x99)]), None);
    assert_eq!(find_pattern_in(&[1, 2], 0, &[Some(1), Some(2), Some(3)]), None);
}
