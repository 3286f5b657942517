use colored::Colorize;
use smf_status::color_aware_string::ColorAwareString;
use smf_status::report::{format_output_line, format_status_map};

#[test]
fn basic_test() {
    let s = format!("{} {} {}", "red".red(), "blue".blue(), "green".green());
    let color_string = ColorAwareString::with_string(s);

    assert_eq!(color_string.raw_string(), "red blue green");
    assert_eq!(color_string.raw_len(), "red blue green".len());
}

#[test]
fn pad_end() {
    let s = format!("green: {}", "green starting now".green());
    let color_string = ColorAwareString::with_string(s);

    let output = color_string.pad_end(28);
    assert_eq!(output, format!("green: {}   ", "green starting now".green()));

    let output = color_string.pad_start(28);
    assert_eq!(output, format!("   green: {}", "green starting now".green()));
}

#[test]
fn strips_escape_runs() {
    let s = String::from("\u{1b}[31mred\u{1b}[0m blue");
    let full = s.len();
    let cas = ColorAwareString::with_string(s);
    assert_eq!(cas.raw_string(), "red blue");
    assert_eq!(cas.raw_len(), 8);
    assert_eq!(cas.full_len(), full);
}

#[test]
fn strips_compound_style_runs() {
    let cas = ColorAwareString::with_string(String::from("\u{1b}[1;30mbold black\u{1b}[0m"));
    assert_eq!(cas.raw_string(), "bold black");
}

#[test]
fn stripping_is_idempotent() {
    let once = ColorAwareString::with_string(String::from("a\u{1b}[32mb\u{1b}[0mc")).raw_string();
    let twice = ColorAwareString::with_string(once.clone()).raw_string();
    assert_eq!(once, twice);
    assert_eq!(once, "abc");
}

#[test]
fn unterminated_run_extends_to_end() {
    let cas = ColorAwareString::with_string(String::from("ok\u{1b}[12;34"));
    assert_eq!(cas.raw_string(), "ok");
    assert_eq!(cas.raw_len(), 2);
}

#[test]
fn pad_end_counts_visible_width() {
    let cas = ColorAwareString::with_string(String::from("\u{1b}[33mhi\u{1b}[0m"));
    let padded = cas.pad_end(5);
    assert_eq!(padded, "\u{1b}[33mhi\u{1b}[0m   ");
    assert_eq!(ColorAwareString::with_string(padded).raw_len(), 5);
}

#[test]
fn pad_keeps_original_prefix() {
    let padded = ColorAwareString::with_string(String::from("abc")).pad_end(5);
    assert_eq!(padded, "abc  ");
    assert!(padded.starts_with("abc"));
}

#[test]
fn pad_of_wide_string_is_unchanged() {
    let cas = ColorAwareString::with_string(String::from("abcdef"));
    assert_eq!(cas.pad_end(3), "abcdef");
    assert_eq!(cas.pad_start(3), "abcdef");
}

#[test]
fn multibyte_visible_length_counts_bytes() {
    let cas = ColorAwareString::with_string(String::from("\u{2714} ok"));
    assert_eq!(cas.raw_len(), 6);
    assert_eq!(cas.full_len(), 6);
}

#[test]
fn format_output_line_pads_columns() {
    let cols = vec![
        String::from("*"),
        String::from("svc:/a/b:default"),
        String::from("123"),
        String::from("4"),
        String::from("5 hours"),
    ];
    let line = format_output_line(&cols);
    let expected = format!(
        " * {:<40} {:<7} {:<7} {:<10}",
        "svc:/a/b:default", "123", "4", "5 hours"
    );
    assert_eq!(line, expected);
}

#[test]
fn format_status_map_aligns_keys() {
    let entries = vec![
        (String::from("fmri"), String::from("* svc:/a/b:c")),
        (String::from("state"), String::from("online")),
        (String::from("dependencies"), String::from("2\nx\ny")),
    ];
    let block = format_status_map(&entries);
    let expected = "        fmri: * svc:/a/b:c\n       state: online\ndependencies: 2\n              x\n              y";
    assert_eq!(block, expected);
}

#[test]
fn format_status_map_measures_styled_keys_by_visible_width() {
    let entries = vec![
        (format!("{}", "\u{1b}[1mstate\u{1b}[0m"), String::from("online")),
        (String::from("time"), String::from("now")),
    ];
    let block = format_status_map(&entries);
    assert_eq!(block, "\u{1b}[1mstate\u{1b}[0m: online\n time: now");
}

#[test]
fn format_output_line_ignores_escape_bytes() {
    let cols = vec![
        String::from("\u{1b}[32m*\u{1b}[0m"),
        String::from("svc"),
        String::from("1"),
        String::from("2"),
        String::from("3"),
    ];
    let line = format_output_line(&cols);
    assert_eq!(
        line,
        format!(" \u{1b}[32m*\u{1b}[0m {:<40} {:<7} {:<7} {:<10}", "svc", "1", "2", "3")
    );
}
