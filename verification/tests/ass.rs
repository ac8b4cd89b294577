use make_comment_movie::ass::{
    escape_ass_text, format_ass_time, format_comment_block, render_ass_script, stacked_body, AssLayout,
};
use make_comment_movie::comments::CommentEntry;
use make_comment_movie::datetime::LocalDateTime;
use make_comment_movie::wrap::{cols_budget, wrap_by_display_width, wrap_with_breaks};
use unicode_width::UnicodeWidthChar;

fn width_of(s: &str) -> usize {
    s.chars().map(|c| UnicodeWidthChar::width(c).unwrap_or(1)).sum()
}

fn entry(start_ms: i64, name: &str, message: &str) -> CommentEntry {
    CommentEntry {
        posted_at: LocalDateTime { secs: 0, nanos: 0 },
        start_ms,
        end_ms: None,
        display_name: name.to_string(),
        message: message.to_string(),
        comment_type: String::new(),
    }
}

#[test]
fn wraps_cjk_run() {
    let s = "あいうえおかきくけこさしすせそたちつてとなにぬねのはひふへほ";
    let lines = wrap_by_display_width(s, 10);
    assert!(lines.len() >= 3, "expected multiple lines, got {:?}", lines);
    for ln in &lines {
        let w = width_of(ln);
        assert!(w <= 10, "line {:?} width {} > 10", ln, w);
    }
}

#[test]
fn wraps_at_space_en() {
    let s = "hello world this is a long line of text";
    let lines = wrap_by_display_width(s, 12);
    assert!(lines.len() >= 2);
    for ln in &lines {
        let w = width_of(ln);
        assert!(w <= 12, "line {:?} width {}", ln, w);
    }
}

#[test]
fn cols_budget_reasonable() {
    let c = cols_budget(150, 22);
    // 2 * 150/22 * 1.30 ≈ 17.73 → ceil 18
    assert!((17..=32).contains(&c), "cols_budget={}", c);
}

#[test]
fn cols_budget_exact_values() {
    assert_eq!(cols_budget(150, 22), 18);
    assert_eq!(cols_budget(0, 0), 11);
    assert_eq!(cols_budget(10_000, 6), 320);
    assert_eq!(cols_budget(24, 100), 8);
}

#[test]
fn wrap_rejoins_to_the_text() {
    let s = "hello world this is a long line of text";
    let lines = wrap_by_display_width(s, 12);
    assert_eq!(lines.concat(), s);
    assert!(lines.iter().all(|l| !l.is_empty()));
    assert_eq!(lines, vec!["hello world ", "this is a ", "long line ", "of text"]);
}

#[test]
fn wrap_empty_text_gives_one_empty_line() {
    assert_eq!(wrap_by_display_width("", 10), vec![String::new()]);
}

#[test]
fn wrap_limit_is_at_least_four() {
    let lines = wrap_by_display_width("abcdefgh", 1);
    assert_eq!(lines, vec!["abcd", "efgh"]);
}

#[test]
fn wrap_cuts_cjk_between_characters() {
    let lines = wrap_by_display_width("あいうえおか", 4);
    assert_eq!(lines, vec!["あい", "うえ", "おか"]);
}

#[test]
fn escape_ass_text_escapes_braces_backslash_and_newlines() {
    assert_eq!(escape_ass_text("a{b}c\\d\ne\rf"), "a\\{b\\}c\\\\d\\Ne\\Nf");
    assert_eq!(escape_ass_text("plain テキスト"), "plain テキスト");
    assert_eq!(escape_ass_text(""), "");
}

#[test]
fn format_ass_time_rounds_to_centiseconds() {
    assert_eq!(format_ass_time(0), "0:00:00.00");
    assert_eq!(format_ass_time(1_234), "0:00:01.23");
    assert_eq!(format_ass_time(1_235), "0:00:01.24");
    assert_eq!(format_ass_time(3_723_450), "1:02:03.45");
    assert_eq!(format_ass_time(36_000_000), "10:00:00.00");
    assert_eq!(format_ass_time(59_999), "0:01:00.00");
    assert_eq!(format_ass_time(-1), "0:00:00.00");
    assert_eq!(format_ass_time(-300), "0:00:00.00");
}

#[test]
fn comment_block_colours_name_and_body() {
    let e = entry(0, "名前", "本文{x}");
    let b = format_comment_block(&e, 17, 22, 20, 20);
    assert_eq!(b, "{\\fs17\\c&H00B4FF7F&}名前\\N{\\fs22\\c&H00FFFFFF&}本文\\{x\\}");
}

#[test]
fn stacked_body_puts_newest_first_and_limits_lines() {
    let entries = vec![entry(0, "a", "1"), entry(1_000, "b", "2"), entry(2_000, "c", "3")];
    let body = stacked_body(&entries, 2, 2, 600_000, 17, 22, 150);
    assert_eq!(
        body,
        "{\\fs17\\c&H00B4FF7F&}c\\N{\\fs22\\c&H00FFFFFF&}3\\N{\\fs17\\c&H00B4FF7F&}b\\N{\\fs22\\c&H00FFFFFF&}2"
    );
}

#[test]
fn stacked_body_drops_comments_older_than_retention() {
    let entries = vec![entry(0, "a", "1"), entry(5_000, "b", "2")];
    let body = stacked_body(&entries, 1, 10, 4_000, 17, 22, 150);
    assert_eq!(body, "{\\fs17\\c&H00B4FF7F&}b\\N{\\fs22\\c&H00FFFFFF&}2");
    let body = stacked_body(&entries, 1, 10, 5_000, 17, 22, 150);
    assert!(body.ends_with("{\\fs17\\c&H00B4FF7F&}a\\N{\\fs22\\c&H00FFFFFF&}1"));
}

fn layout() -> AssLayout {
    AssLayout {
        play_res_x: 1280 + 300,
        play_res_y: 720,
        panel_width: 300,
        font_name: "Noto Sans CJK JP".to_string(),
        font_size: 22,
        name_font_size: 17,
        max_lines: 10,
        stack_retention_ms: 600_000,
        scroll_ms: 380,
    }
}

#[test]
fn ass_script_has_header_and_one_dialogue_per_segment() {
    let entries = vec![entry(0, "a", "hi"), entry(1_000, "b", "yo")];
    let segments = vec![(0usize, 0i64, 1_000i64), (1usize, 1_000i64, 10_000i64)];
    let script = render_ass_script(&entries, &segments, &layout());
    let lines: Vec<&str> = script.lines().collect();
    assert_eq!(lines[0], "[Script Info]");
    assert!(script.contains("WrapStyle: 2\nPlayResX: 1580\nPlayResY: 720\n"));
    assert!(script.contains(
        "Style: LeftPanel,Noto Sans CJK JP,22,&H00FFFFFF,&H000000FF,&H00000000,&H80000000,0,0,0,0,100,100,0,0,1,1,0,7,10,1281,24,1\n"
    ));
    let dialogues: Vec<&&str> = lines.iter().filter(|l| l.starts_with("Dialogue:")).collect();
    assert_eq!(dialogues.len(), 2);
    assert_eq!(
        *dialogues[0],
        "Dialogue: 0,0:00:00.00,0:00:01.00,LeftPanel,,10,1281,24,,{\\clip(0,0,300,720)\\an7\\q2\\move(10,-6,10,20,0,380)}{\\fs17\\c&H00B4FF7F&}a\\N{\\fs22\\c&H00FFFFFF&}hi"
    );
    assert!(dialogues[1].starts_with("Dialogue: 0,0:00:01.00,0:00:10.00,LeftPanel,,10,1281,24,,{\\clip(0,0,300,720)\\an7\\q2\\move(10,-6,10,20,0,380)}{\\fs17\\c&H00B4FF7F&}b\\N{\\fs22\\c&H00FFFFFF&}yo\\N{\\fs17"));
    assert!(script.ends_with("\n"));
}

#[test]
fn short_segments_are_not_animated() {
    let entries = vec![entry(0, "a", "hi")];
    let segments = vec![(0usize, 0i64, 100i64)];
    let script = render_ass_script(&entries, &segments, &layout());
    assert!(script.contains("{\\clip(0,0,300,720)\\an7\\q2\\pos(10,20)}"));
    let segments = vec![(0usize, 0i64, 200i64)];
    let script = render_ass_script(&entries, &segments, &layout());
    assert!(script.contains("\\move(10,-6,10,20,0,170)}"));
}

#[test]
fn wrap_with_given_breaks_and_widths() {
    // Breaks before "c" (byte 2) and "e" (byte 4); every character two columns wide.
    let lines = wrap_with_breaks("abcdef", &vec![2, 4, 6], &vec![2; 6], 4);
    assert_eq!(lines, vec!["ab", "cd", "ef"]);
    // No break opportunity: the line is cut before the character that overflows.
    let lines = wrap_with_breaks("abcdef", &vec![6], &vec![1; 6], 4);
    assert_eq!(lines, vec!["abcd", "ef"]);
    // A break inside the current line is preferred to the overflow point.
    let lines = wrap_with_breaks("ab cdef", &vec![3, 7], &vec![1; 7], 5);
    assert_eq!(lines, vec!["ab ", "cdef"]);
    assert_eq!(wrap_with_breaks("", &vec![], &vec![], 4), vec![""]);
}

#[test]
fn wrap_measures_wide_characters() {
    // Two full-width characters fill a line of four columns.
    assert_eq!(wrap_by_display_width("あいう", 4), vec!["あい", "う"]);
    assert_eq!(wrap_by_display_width("abcde", 4), vec!["abcd", "e"]);
}
