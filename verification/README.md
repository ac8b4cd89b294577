# make-comment-movie

Burns a WhoWatch comment log into a screen recording: the video gets a black
panel on its left, and the comments, synchronised with the video's clock, are
stacked in that panel (newest on top, display names in green, messages in
white) through an ASS subtitle script that ffmpeg renders.

The logic is a Verus library, verified against its contracts:

- `src/video_start.rs`: the local time of the video's first frame, from
  `--video-start` or from a `YYYY-MM-DDTHH-MM-SS` stamp in the file name.
- `src/comments.rs`: reading the tab-separated log, ordering it by posting
  time, placing the comments on the video's timeline and grouping them into
  display segments.
- `src/wrap.rs`: cutting text into lines by display width at Unicode line
  break opportunities.
- `src/ass.rs`: escaping, times and the whole ASS script.
- `src/ffmpeg.rs`, `src/ffprobe.rs`, `src/options.rs`: the ffmpeg arguments,
  reading ffprobe's report, and option defaults.
- `src/datetime.rs`, `src/text.rs`: local date and times as plain values, and
  string helpers.

Times on the timeline are whole milliseconds. Calls into chrono, regex,
unicode-linebreak and unicode-width stand behind small trusted wrappers whose
contracts name what those crates compute.

`app/main.rs` is the command line: argument parsing, file and process I/O
(ffprobe, ffmpeg), JSON decoding and the floating-point conversions.
