use conky_hwmon::replace_hwmon_path;

fn patch(line: &str, mon: Option<i32>) -> String {
    replace_hwmon_path(String::from(line), mon)
}

#[test]
fn cpu_line_gets_new_index() {
    assert_eq!(patch("== CPU == temp hwmon 3 foo", Some(1)), "== CPU == temp hwmon 1 foo");
}

#[test]
fn non_numeric_token_left_alone() {
    assert_eq!(patch("== Disk IO == hwmon foo", Some(2)), "== Disk IO == hwmon foo");
    assert_eq!(patch("x hwmon abc y", Some(4)), "x hwmon abc y");
}

#[test]
fn no_index_means_no_change() {
    let lines = ["== CPU == temp hwmon 3 foo", "", "hwmon", " hwmon 7 ", "plain text"];
    for line in lines {
        assert_eq!(patch(line, None), line);
    }
}

#[test]
fn line_without_marker_unchanged() {
    assert_eq!(patch("${cpu} temp 3", Some(5)), "${cpu} temp 3");
    assert_eq!(patch("== CPU == hwmon3 temp", Some(5)), "== CPU == hwmon3 temp");
    assert_eq!(patch("== CPU == HWMON 3 temp", Some(5)), "== CPU == HWMON 3 temp");
}

#[test]
fn extra_spaces_after_marker_are_kept() {
    assert_eq!(patch("a hwmon    3 b", Some(7)), "a hwmon    7 b");
}

#[test]
fn token_at_end_of_line_is_replaced() {
    assert_eq!(patch("a hwmon 3", Some(9)), "a hwmon 9");
}

#[test]
fn marker_at_end_of_line_invents_nothing() {
    assert_eq!(patch("a hwmon ", Some(9)), "a hwmon ");
    assert_eq!(patch("a hwmon    ", Some(9)), "a hwmon    ");
}

#[test]
fn only_first_marker_is_patched() {
    assert_eq!(patch("a hwmon 1 b hwmon 2 c", Some(9)), "a hwmon 9 b hwmon 2 c");
}

#[test]
fn signed_or_oversized_tokens_are_not_indices() {
    assert_eq!(patch("a hwmon +3 b", Some(1)), "a hwmon +3 b");
    assert_eq!(patch("a hwmon -3 b", Some(1)), "a hwmon -3 b");
    assert_eq!(patch("a hwmon 4294967296 b", Some(1)), "a hwmon 4294967296 b");
    assert_eq!(patch("a hwmon 3x b", Some(1)), "a hwmon 3x b");
}

#[test]
fn largest_and_padded_tokens_are_indices() {
    assert_eq!(patch("a hwmon 4294967295 b", Some(1)), "a hwmon 1 b");
    assert_eq!(patch("a hwmon 007 b", Some(12)), "a hwmon 12 b");
}

#[test]
fn index_written_in_decimal() {
    assert_eq!(patch("a hwmon 0 b", Some(0)), "a hwmon 0 b");
    assert_eq!(patch("a hwmon 0 b", Some(305)), "a hwmon 305 b");
    assert_eq!(patch("a hwmon 0 b", Some(-1)), "a hwmon -1 b");
    assert_eq!(patch("a hwmon 0 b", Some(i32::MAX)), "a hwmon 2147483647 b");
    assert_eq!(patch("a hwmon 0 b", Some(i32::MIN)), "a hwmon -2147483648 b");
}

#[test]
fn patching_twice_changes_nothing_more() {
    for mon in [Some(0), Some(42), Some(-5), None] {
        for line in ["a hwmon 3 b", "a hwmon x", "a hwmon   17", "none here"] {
            let once = patch(line, mon);
            assert_eq!(patch(&once, mon), once);
        }
    }
}

#[test]
fn marker_text_survives_patching() {
    let out = patch("== CPU == temp hwmon 3 foo", Some(11));
    assert!(out.contains(" hwmon "));
    assert!(out.starts_with("== CPU == temp hwmon "));
}

#[test]
fn non_ascii_text_is_kept() {
    assert_eq!(patch("é hwmon 3 ü", Some(2)), "é hwmon 2 ü");
}
