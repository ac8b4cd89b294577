pub mod ass;
pub mod comments;
pub mod datetime;
pub mod ffmpeg;
pub mod ffprobe;
pub mod options;
pub mod text;
pub mod video_start;
pub mod wrap;
