use make_comment_movie::datetime::LocalDateTime;
use make_comment_movie::video_start::{
    parse_i32, parse_u32, parse_video_start_arg, parse_video_start_from_path, resolve_video_start,
    video_start_from_captures, video_start_from_file_name, VideoStartError,
};

fn naive(dt: &LocalDateTime) -> chrono::NaiveDateTime {
    chrono::DateTime::from_timestamp(dt.secs, dt.nanos).unwrap().naive_utc()
}

#[test]
fn parses_filename_pattern() {
    let dt = parse_video_start_from_path("ロンシン_2026-04-12T14-51-31.mp4").unwrap();
    assert_eq!(naive(&dt).to_string(), "2026-04-12 14:51:31");
}

#[test]
fn filename_stamp_in_a_directory_path() {
    let dt = parse_video_start_from_path("/videos/rec_2024-02-29T00-00-59.mp4").unwrap();
    assert_eq!(naive(&dt).to_string(), "2024-02-29 00:00:59");
}

#[test]
fn filename_without_valid_stamp() {
    assert!(parse_video_start_from_path("rec.mp4").is_none());
    assert!(parse_video_start_from_path("rec_2023-02-29T00-00-00.mp4").is_none());
    assert!(parse_video_start_from_path("rec_2023-01-01T24-00-00.mp4").is_none());
    assert!(parse_video_start_from_path("2026-04-12T14-51-31/").is_some());
    assert!(parse_video_start_from_path("dir_2026-04-12T14-51-31/..").is_none());
}

#[test]
fn parses_video_start_argument_forms() {
    let a = parse_video_start_arg("2026-04-12T14:51:31").ok().unwrap();
    assert_eq!(naive(&a).to_string(), "2026-04-12 14:51:31");
    let b = parse_video_start_arg("  2026-04-12 14:51:31.25 ").ok().unwrap();
    assert_eq!(naive(&b).to_string(), "2026-04-12 14:51:31.250");
    match parse_video_start_arg(" 12:00 ") {
        Err(VideoStartError::InvalidArgument(t)) => assert_eq!(t, "12:00"),
        _ => panic!("expected an invalid argument"),
    }
}

#[test]
fn resolve_prefers_the_override() {
    let a = resolve_video_start("x_2020-01-01T00-00-00.mp4", Some("2026-04-12T14:51:31")).ok().unwrap();
    assert_eq!(naive(&a).to_string(), "2026-04-12 14:51:31");
    let b = resolve_video_start("x_2020-01-01T00-00-00.mp4", None).ok().unwrap();
    assert_eq!(naive(&b).to_string(), "2020-01-01 00:00:00");
    assert!(matches!(resolve_video_start("x.mp4", None), Err(VideoStartError::NoStampInFileName)));
}

#[test]
fn decimal_parsing_follows_str_parse() {
    for s in ["0", "42", "+7", "-3", "", "+", "-", "4294967295", "4294967296", "2147483648", "-2147483648", "1a", "０"] {
        assert_eq!(parse_u32(s), s.parse::<u32>().ok(), "u32 {:?}", s);
        assert_eq!(parse_i32(s), s.parse::<i32>().ok(), "i32 {:?}", s);
    }
}

#[test]
fn captures_are_read_as_date_and_time() {
    let groups: Vec<Option<String>> = ["2026-04-12T14-51-31", "2026", "04", "12", "14", "51", "31"]
        .iter()
        .map(|g| Some(g.to_string()))
        .collect();
    let dt = video_start_from_captures(&groups).unwrap();
    assert_eq!(naive(&dt).to_string(), "2026-04-12 14:51:31");
    let mut missing = groups.clone();
    missing[6] = None;
    assert!(video_start_from_captures(&missing).is_none());
    assert!(video_start_from_captures(&groups[..6].to_vec()).is_none());
    let mut bad_month = groups.clone();
    bad_month[2] = Some("13".to_string());
    assert!(video_start_from_captures(&bad_month).is_none());
}

#[test]
fn file_name_stamp_is_the_first_one() {
    let dt = video_start_from_file_name("a_2021-03-04T05-06-07_b_2022-01-01T00-00-00.mkv").unwrap();
    assert_eq!(naive(&dt).to_string(), "2021-03-04 05:06:07");
    assert!(video_start_from_file_name("2021-03-04T05:06:07.mkv").is_none());
}

#[test]
fn datetime_at_day_number_and_time() {
    let dt = make_comment_movie::datetime::datetime_at(719_163, 0, 0, 1).unwrap();
    assert_eq!((dt.secs, dt.nanos), (1, 0));
    let d = chrono::NaiveDate::from_ymd_opt(2026, 4, 12).unwrap();
    let days = chrono::Datelike::num_days_from_ce(&d);
    let dt = make_comment_movie::datetime::datetime_at(days, 14, 51, 31).unwrap();
    assert_eq!(naive(&dt).to_string(), "2026-04-12 14:51:31");
    assert!(make_comment_movie::datetime::datetime_at(days, 24, 0, 0).is_none());
    assert!(make_comment_movie::datetime::datetime_at(days, 0, 60, 0).is_none());
    assert!(make_comment_movie::datetime::datetime_at(days, 0, 0, 60).is_none());
}

#[test]
fn millis_since_rounds_toward_zero_like_chrono() {
    let pairs = [
        ((10, 500_000_000), (9, 999_999_999)),
        ((9, 0), (10, 500_000_000)),
        ((86_399, 1_500_000_000), (86_398, 0)),
        ((86_400, 100_000_000), (86_399, 1_200_000_000)),
        ((-5, 1), (-5, 0)),
    ];
    for ((s1, n1), (s2, n2)) in pairs {
        let a = LocalDateTime { secs: s1, nanos: n1 };
        let b = LocalDateTime { secs: s2, nanos: n2 };
        let ca = chrono::DateTime::from_timestamp(s1, n1).unwrap().naive_utc();
        let cb = chrono::DateTime::from_timestamp(s2, n2).unwrap().naive_utc();
        assert_eq!(a.millis_since(&b), ca.signed_duration_since(cb).num_milliseconds(), "{:?}", (s1, n1, s2, n2));
        assert_eq!(a.ordering_key() < b.ordering_key(), ca < cb);
    }
}
