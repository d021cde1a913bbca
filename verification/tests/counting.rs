use kwc::counts::FileCount;
use kwc::lines::split_lines;
use kwc::scan::loop_thru_string;
use kwc::source::count_content;

#[test]
fn new_sets_every_field() {
    let fc = FileCount::new("some/file", 1, 2, 3, 4);
    assert_eq!(fc.filename, "some/file");
    assert_eq!(fc.w_count, 1);
    assert_eq!(fc.c_count, 2);
    assert_eq!(fc.l_count, 3);
    assert_eq!(fc.b_count, 4);
}

#[test]
fn scan_line_counts_words_and_characters() {
    let mut fc = FileCount::new("x", 0, 0, 0, 0);
    loop_thru_string("hello world", &mut fc);
    assert_eq!(fc.l_count, 1);
    assert_eq!(fc.w_count, 2);
    assert_eq!(fc.c_count, 12);
    assert_eq!(fc.b_count, 0);
}

#[test]
fn scan_empty_line_counts_newline_only() {
    let mut fc = FileCount::new("x", 0, 0, 0, 0);
    loop_thru_string("", &mut fc);
    assert_eq!(fc.l_count, 1);
    assert_eq!(fc.w_count, 0);
    assert_eq!(fc.c_count, 1);
}

#[test]
fn scan_line_of_spaces_has_no_words() {
    let mut fc = FileCount::new("x", 0, 0, 0, 0);
    loop_thru_string("     ", &mut fc);
    assert_eq!(fc.w_count, 0);
    assert_eq!(fc.c_count, 6);
}

#[test]
fn scan_line_without_spaces_has_one_word() {
    let mut fc = FileCount::new("x", 0, 0, 0, 0);
    loop_thru_string("abcdef", &mut fc);
    assert_eq!(fc.w_count, 1);
}

#[test]
fn extra_spaces_in_a_run_do_not_change_words() {
    let mut narrow = FileCount::new("x", 0, 0, 0, 0);
    loop_thru_string("a b c", &mut narrow);
    let mut wide = FileCount::new("x", 0, 0, 0, 0);
    loop_thru_string("a    b      c", &mut wide);
    assert_eq!(narrow.w_count, 3);
    assert_eq!(wide.w_count, 3);
}

#[test]
fn only_the_space_character_separates_words() {
    let mut fc = FileCount::new("x", 0, 0, 0, 0);
    loop_thru_string("a\tb", &mut fc);
    assert_eq!(fc.w_count, 1);
}

#[test]
fn scanning_accumulates_across_lines() {
    let mut fc = FileCount::new("x", 0, 0, 0, 0);
    loop_thru_string("a  b", &mut fc);
    assert_eq!(fc.w_count, 2);
    assert_eq!(fc.c_count, 5);
    loop_thru_string("c", &mut fc);
    assert_eq!(fc.l_count, 2);
    assert_eq!(fc.w_count, 3);
    assert_eq!(fc.c_count, 7);
}

#[test]
fn split_keeps_newline_delimited_segments() {
    let parts = split_lines("a\nb");
    assert_eq!(parts, vec!["a".to_string(), "b".to_string()]);
}

#[test]
fn split_drops_the_trailing_newline_segment() {
    let parts = split_lines("a\n");
    assert_eq!(parts, vec!["a".to_string()]);
}

#[test]
fn split_of_empty_text_has_no_lines() {
    let parts = split_lines("");
    assert!(parts.is_empty());
}

#[test]
fn split_keeps_empty_lines() {
    let parts = split_lines("\n\n");
    assert_eq!(parts, vec![String::new(), String::new()]);
}

#[test]
fn hello_world_file_counts() {
    let fc = count_content("greeting", "hello world\n");
    assert_eq!(fc.l_count, 1);
    assert_eq!(fc.w_count, 2);
    assert_eq!(fc.c_count, 12);
    assert_eq!(fc.b_count, 12);
    assert_eq!(fc.filename, "greeting");
}

#[test]
fn two_line_file_counts() {
    let fc = count_content("f", "a  b\nc\n");
    assert_eq!(fc.l_count, 2);
    assert_eq!(fc.w_count, 3);
    assert_eq!(fc.c_count, 7);
    assert_eq!(fc.b_count, 7);
}

#[test]
fn empty_input_counts_zero_everywhere() {
    let fc = count_content("stdin", "");
    assert_eq!(fc.l_count, 0);
    assert_eq!(fc.w_count, 0);
    assert_eq!(fc.c_count, 0);
    assert_eq!(fc.b_count, 0);
}

#[test]
fn ascii_content_has_equal_bytes_and_characters() {
    let fc = count_content("f", "abc\n");
    assert_eq!(fc.c_count, 4);
    assert_eq!(fc.b_count, 4);
}

#[test]
fn multibyte_content_has_more_bytes_than_characters() {
    let fc = count_content("f", "caf\u{e9}\n");
    assert_eq!(fc.c_count, 5);
    assert_eq!(fc.b_count, 6);
    assert!(fc.b_count > fc.c_count);
}

#[test]
fn final_line_without_newline_still_counts() {
    let fc = count_content("f", "ab");
    assert_eq!(fc.l_count, 1);
    assert_eq!(fc.c_count, 3);
    assert_eq!(fc.b_count, 2);
}
