use make_comment_movie::ffmpeg::{burn_in_args, BurnInError, BurnInParams};
use make_comment_movie::ffprobe::{
    default_panel_width, duration_text, select_video_geometry, ProbeError, ProbeStream,
};
use make_comment_movie::options::default_name_font_size;

fn params(fonts_dir: Option<&str>) -> BurnInParams {
    BurnInParams {
        panel_width: 300,
        video_width: 1280,
        video_height: 720,
        fonts_dir: fonts_dir.map(|s| s.to_string()),
        crf: 20,
        preset: "medium".to_string(),
    }
}

#[test]
fn burn_in_arguments() {
    let args = burn_in_args(&params(None), "/tmp/a.ass").ok().unwrap();
    assert_eq!(
        args,
        vec![
            "-vf",
            "pad=1580:720:300:0:black,subtitles='/tmp/a.ass':charenc=UTF-8",
            "-c:v",
            "libx264",
            "-preset",
            "medium",
            "-crf",
            "20",
            "-c:a",
            "copy"
        ]
    );
    let args = burn_in_args(&params(Some("/fonts")), "/tmp/a.ass").ok().unwrap();
    assert_eq!(args[1], "pad=1580:720:300:0:black,subtitles='/tmp/a.ass':charenc=UTF-8:fontsdir='/fonts'");
}

#[test]
fn burn_in_refuses_single_quotes() {
    match burn_in_args(&params(None), "/tmp/it's.ass") {
        Err(BurnInError::QuoteInAssPath(p)) => assert_eq!(p, "/tmp/it's.ass"),
        _ => panic!("expected a refused path"),
    }
    assert!(matches!(burn_in_args(&params(Some("/it's")), "/tmp/a.ass"), Err(BurnInError::QuoteInFontsDir)));
}

fn stream(kind: Option<&str>, w: Option<u32>, h: Option<u32>) -> ProbeStream {
    ProbeStream { codec_type: kind.map(|s| s.to_string()), width: w, height: h }
}

#[test]
fn picks_first_video_stream() {
    let g = select_video_geometry(&vec![
        stream(Some("audio"), None, None),
        stream(Some("video"), Some(1280), Some(720)),
        stream(Some("video"), Some(640), Some(480)),
    ])
    .ok()
    .unwrap();
    assert_eq!((g.width, g.height), (1280, 720));
    assert!(matches!(select_video_geometry(&vec![stream(None, Some(1), Some(1))]), Err(ProbeError::NoVideoStream)));
    assert!(matches!(
        select_video_geometry(&vec![stream(Some("video"), None, Some(1))]),
        Err(ProbeError::MissingWidth)
    ));
    assert!(matches!(
        select_video_geometry(&vec![stream(Some("video"), Some(1), None)]),
        Err(ProbeError::MissingHeight)
    ));
}

#[test]
fn duration_text_needs_a_value() {
    assert_eq!(duration_text(" 12.5\n"), Some("12.5".to_string()));
    assert_eq!(duration_text("N/A\n"), None);
    assert_eq!(duration_text("  "), None);
}

#[test]
fn panel_width_is_thirty_percent_clamped() {
    assert_eq!(default_panel_width(1080), 324);
    assert_eq!(default_panel_width(480), 200);
    assert_eq!(default_panel_width(4320), 560);
}

#[test]
fn name_font_size_defaults() {
    assert_eq!(default_name_font_size(22), 17);
    assert_eq!(default_name_font_size(12), 10);
    assert_eq!(default_name_font_size(5), 10);
}
