use cmux_sidebar_agents::text::{decimal_string, middle_truncate, text_precedes_exec, title_case};

#[test]
fn truncates_the_middle_and_preserves_both_ends() {
    assert_eq!(middle_truncate("abcdefghij", 7), "ab...ij");
    assert_eq!(middle_truncate("abcdef", 3), "...");
    assert_eq!(middle_truncate("abc", 8), "abc");
}

#[test]
fn truncation_edge_widths() {
    assert_eq!(middle_truncate("abcdef", 0), "");
    assert_eq!(middle_truncate("abcdef", 2), "..");
    assert_eq!(middle_truncate("abcdef", 6), "abcdef");
    assert_eq!(middle_truncate("abcdef", 5), "a...f");
    assert_eq!(middle_truncate("abcdefgh", 6), "ab...h");
    assert_eq!(middle_truncate("", 0), "");
    assert_eq!(middle_truncate("ééééé", 4), "é...");
}

#[test]
fn truncation_length_is_min_of_length_and_width() {
    for width in 0..12 {
        let out = middle_truncate("0123456789", width);
        assert_eq!(out.chars().count(), width.min(10));
    }
}

#[test]
fn title_case_upper_cases_first_character() {
    assert_eq!(title_case("warning"), "Warning");
    assert_eq!(title_case("error"), "Error");
    assert_eq!(title_case(""), "Unread");
    assert_eq!(title_case("ßx"), "SSx");
    assert_eq!(title_case("Info"), "Info");
}

#[test]
fn decimal_rendering() {
    assert_eq!(decimal_string(0), "0");
    assert_eq!(decimal_string(120), "120");
    assert_eq!(decimal_string(u64::MAX), u64::MAX.to_string());
}

#[test]
fn text_order_is_lexicographic() {
    assert!(text_precedes_exec("alpha", "beta"));
    assert!(!text_precedes_exec("beta", "alpha"));
    assert!(text_precedes_exec("ab", "abc"));
    assert!(!text_precedes_exec("abc", "abc"));
    assert!(text_precedes_exec("", "a"));
    assert!(text_precedes_exec("Z", "a"));
}
