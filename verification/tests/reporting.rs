use kwc::counts::FileCount;
use kwc::report::format_count;
use kwc::report::render;
use kwc::report::render_line;
use kwc::report::run_totals;
use kwc::report::SelectedMetrics;

fn all_metrics() -> SelectedMetrics {
    SelectedMetrics { lines: false, words: false, characters: false, bytes: false }
}

#[test]
fn format_count_writes_decimal_digits() {
    assert_eq!(format_count(0), "0");
    assert_eq!(format_count(7), "7");
    assert_eq!(format_count(12), "12");
    assert_eq!(format_count(90210), "90210");
    assert_eq!(format_count(i32::MAX), "2147483647");
}

#[test]
fn totals_sum_every_field() {
    let files = vec![
        FileCount::new("a", 1, 2, 3, 4),
        FileCount::new("b", 10, 20, 30, 40),
        FileCount::new("c", 100, 200, 300, 400),
    ];
    let t = run_totals(&files);
    assert_eq!(t.filename, "Total");
    assert_eq!(t.w_count, 111);
    assert_eq!(t.c_count, 222);
    assert_eq!(t.l_count, 333);
    assert_eq!(t.b_count, 444);
}

#[test]
fn default_line_shows_all_four_counts_in_order() {
    let fc = FileCount::new("greeting", 2, 12, 1, 12);
    let line = render_line(&fc, &all_metrics());
    assert_eq!(line, " 1  2  12  12 greeting");
}

#[test]
fn selected_line_shows_only_chosen_metrics() {
    let fc = FileCount::new("f", 2, 12, 1, 12);
    let only_lines = SelectedMetrics { lines: true, words: false, characters: false, bytes: false };
    assert_eq!(render_line(&fc, &only_lines), " 1 f");
    let words_and_bytes =
        SelectedMetrics { lines: false, words: true, characters: false, bytes: true };
    assert_eq!(render_line(&fc, &words_and_bytes), " 2  12 f");
}

#[test]
fn single_source_report_has_no_total_line() {
    let files = vec![FileCount::new("only", 2, 12, 1, 12)];
    let out = render(&files, &all_metrics());
    assert_eq!(out, vec![" 1  2  12  12 only".to_string()]);
}

#[test]
fn multi_source_report_ends_with_total_line() {
    let files = vec![
        FileCount::new("first", 3, 5, 1, 5),
        FileCount::new("second", 1, 2, 1, 2),
    ];
    let out = render(&files, &all_metrics());
    assert_eq!(out.len(), 3);
    assert_eq!(out[0], " 1  3  5  5 first");
    assert_eq!(out[1], " 1  1  2  2 second");
    assert_eq!(out[2], " 2  4  7  7 Total");
}
