pub mod ffmpeg;
