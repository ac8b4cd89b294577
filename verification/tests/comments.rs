use make_comment_movie::comments::{annotate_timeline, build_display_segments, parse_comments_text, CommentEntry};
use make_comment_movie::datetime::LocalDateTime;

fn entry_at(ms: i64) -> CommentEntry {
    CommentEntry {
        posted_at: LocalDateTime { secs: 0, nanos: 0 },
        start_ms: ms,
        end_ms: Some(0),
        display_name: String::new(),
        message: String::new(),
        comment_type: String::new(),
    }
}

fn posted(secs: i64, nanos: u32, name: &str) -> CommentEntry {
    CommentEntry {
        posted_at: LocalDateTime { secs, nanos },
        start_ms: 0,
        end_ms: Some(0),
        display_name: name.to_string(),
        message: String::new(),
        comment_type: String::new(),
    }
}

#[test]
fn segments_cover_until_next_and_duration() {
    let mut e = vec![entry_at(0), entry_at(1_000), entry_at(5_000)];
    e[0].end_ms = Some(1_000);
    e[1].end_ms = Some(5_000);
    e[2].end_ms = Some(99_000);
    let segs = build_display_segments(&e, 10_000);
    assert_eq!(segs.len(), 3);
    assert!(segs[0].1 == 0 && segs[0].2 == 1_000);
    assert!(segs[1].1 == 1_000 && segs[1].2 == 5_000);
    assert!(segs[2].1 == 5_000 && segs[2].2 == 10_000);
}

#[test]
fn segments_merge_same_timestamp() {
    let mut e = vec![entry_at(1_000), entry_at(1_000), entry_at(3_000)];
    e[2].start_ms = 3_000;
    let segs = build_display_segments(&e, 10_000);
    assert_eq!(segs.len(), 2);
    assert_eq!(segs[0].0, 1);
    assert_eq!(segs[0].2, 3_000);
}

#[test]
fn segments_last_at_least_twenty_ms() {
    let e = vec![entry_at(0), entry_at(5), entry_at(9_995)];
    let segs = build_display_segments(&e, 10_000);
    assert_eq!(segs, vec![(0, 0, 20), (1, 5, 9_995), (2, 9_995, 10_015)]);
    assert!(build_display_segments(&Vec::new(), 10_000).is_empty());
}

#[test]
fn segments_stop_at_the_video_end() {
    let e = vec![entry_at(0), entry_at(20_000)];
    let segs = build_display_segments(&e, 10_000);
    assert_eq!(segs, vec![(0, 0, 10_000), (1, 20_000, 20_020)]);
}

const LOG: &str = "posted_at_local\tuser_id\tdisplay_name\taccount_name\tcomment_type\tmessage\n\
# a comment line\n\
2026-04-12 14:52:00\t1\tAlice\talice\tBY_USER\tsecond\n\
2026-04-12 14:51:59.500\t2\tBob\tbob\tBY_USER\tfirst  \r\n\
2026-04-12 14:52:00\t3\tCarol\tcarol\tBY_PLAYITEM\tgift\n\
not a date\t4\tDan\tdan\tBY_USER\tdropped\n\
too\tfew\tcolumns\n\
\n";

#[test]
fn parses_log_lines_sorted_by_time() {
    let es = parse_comments_text(LOG, false);
    let names: Vec<&str> = es.iter().map(|e| e.display_name.as_str()).collect();
    assert_eq!(names, vec!["Bob", "Alice", "Carol"]);
    assert_eq!(es[0].message, "first");
    assert_eq!(es[0].comment_type, "BY_USER");
    assert_eq!(es[2].comment_type, "BY_PLAYITEM");
    let bob = chrono::NaiveDate::from_ymd_opt(2026, 4, 12).unwrap().and_hms_milli_opt(14, 51, 59, 500).unwrap().and_utc();
    assert_eq!(es[0].posted_at.secs, bob.timestamp());
    assert_eq!(es[0].posted_at.nanos, 500_000_000);
    assert!(es.iter().all(|e| e.start_ms == 0));
}

#[test]
fn skip_playitem_drops_gifts() {
    let es = parse_comments_text(LOG, true);
    let names: Vec<&str> = es.iter().map(|e| e.display_name.as_str()).collect();
    assert_eq!(names, vec!["Bob", "Alice"]);
}

#[test]
fn annotate_drops_early_comments_and_spaces_equal_starts() {
    let start = LocalDateTime { secs: 100, nanos: 0 };
    let mut es = vec![
        posted(99, 999_999_999, "early"),
        posted(100, 0, "a"),
        posted(100, 0, "b"),
        posted(101, 500_900_000, "c"),
        posted(101, 500_000_000, "d"),
    ];
    annotate_timeline(&mut es, start);
    let names: Vec<&str> = es.iter().map(|e| e.display_name.as_str()).collect();
    assert_eq!(names, vec!["a", "b", "c", "d"]);
    let starts: Vec<i64> = es.iter().map(|e| e.start_ms).collect();
    assert_eq!(starts, vec![0, 1, 1_500, 1_501]);
    let ends: Vec<Option<i64>> = es.iter().map(|e| e.end_ms).collect();
    assert_eq!(ends, vec![Some(1), Some(1_500), Some(1_501), None]);
}

#[test]
fn annotated_timeline_gives_one_segment_per_comment() {
    let start = LocalDateTime { secs: 0, nanos: 0 };
    let mut es = vec![posted(1, 0, "a"), posted(1, 0, "b"), posted(3, 0, "c")];
    annotate_timeline(&mut es, start);
    let segs = build_display_segments(&es, 10_000);
    assert_eq!(segs, vec![(0, 1_000, 1_020), (1, 1_001, 3_000), (2, 3_000, 10_000)]);
}

#[test]
fn negative_durations_count_as_zero() {
    let e = vec![entry_at(0)];
    assert_eq!(build_display_segments(&e, -5_000), vec![(0, 0, 20)]);
}

#[test]
fn leap_seconds_sort_and_count_as_chrono_does() {
    // 23:59:59 plus a leap second (nanos past 10^9) comes before the next day's 00:00:00.
    let mut es = parse_comments_text(
        "2024-10-04 00:00:00.100\t1\tnext\tn\tBY_USER\tx\n2024-10-03 23:59:60.500\t2\tleap\tl\tBY_USER\ty\n",
        false,
    );
    let names: Vec<&str> = es.iter().map(|e| e.display_name.as_str()).collect();
    assert_eq!(names, vec!["leap", "next"]);
    assert_eq!(es[0].posted_at.nanos, 1_500_000_000);
    let start = LocalDateTime { secs: es[0].posted_at.secs - 1, nanos: 0 };
    annotate_timeline(&mut es, start);
    let starts: Vec<i64> = es.iter().map(|e| e.start_ms).collect();
    let a = chrono::DateTime::from_timestamp(start.secs, 0).unwrap().naive_utc();
    let leap = chrono::NaiveDate::from_ymd_opt(2024, 10, 3).unwrap().and_hms_milli_opt(23, 59, 59, 1_500).unwrap();
    let next = chrono::NaiveDate::from_ymd_opt(2024, 10, 4).unwrap().and_hms_milli_opt(0, 0, 0, 100).unwrap();
    assert_eq!(starts[0], leap.signed_duration_since(a).num_milliseconds());
    // The next day's comment is 2100 ms in, not later than the leap one: it moves to 1 ms after it.
    assert_eq!(next.signed_duration_since(a).num_milliseconds(), 2_100);
    assert_eq!(starts, vec![2_500, 2_501]);
}

#[test]
fn a_leap_second_start_can_put_a_comment_before_zero() {
    let leap = chrono::NaiveDate::from_ymd_opt(2024, 10, 3).unwrap().and_hms_milli_opt(23, 59, 59, 1_500).unwrap();
    let next = chrono::NaiveDate::from_ymd_opt(2024, 10, 4).unwrap().and_hms_milli_opt(0, 0, 0, 200).unwrap();
    let lu = leap.and_utc();
    let nu = next.and_utc();
    let start = LocalDateTime { secs: lu.timestamp(), nanos: lu.timestamp_subsec_nanos() };
    let mut es = vec![posted(nu.timestamp(), nu.timestamp_subsec_nanos(), "after")];
    annotate_timeline(&mut es, start);
    assert_eq!(es.len(), 1);
    assert_eq!(es[0].start_ms, next.signed_duration_since(leap).num_milliseconds());
    assert_eq!(es[0].start_ms, -300);
}
