//! The FFmpeg command line of a conversion.
use vstd::prelude::*;
use crate::models::job::texts;

verus! {

/// An FFmpeg invocation that converts `input` into a 320 kbit/s MP3 at `output`.
pub struct FFmpegCommand {
    pub input: String,
    pub output: String,
}

/// The arguments that convert `input` into `output`: 320 kbit/s, metadata kept, ID3v2.3
/// tags, progress reported on standard output, `output` overwritten.
pub open spec fn ffmpeg_args(input: Seq<char>, output: Seq<char>) -> Seq<Seq<char>> {
    seq![
        "-i"@,
        input,
        "-ab"@,
        "320k"@,
        "-map_metadata"@,
        "0"@,
        "-id3v2_version"@,
        "3"@,
        "-progress"@,
        "pipe:1"@,
        "-y"@,
        output,
    ]
}

impl FFmpegCommand {
    /// The invocation that converts the file at `input` into `output`.
    pub fn new(input: &str, output: &str) -> (r: FFmpegCommand)
        ensures
            r.input@ == input@,
            r.output@ == output@,
    {
        FFmpegCommand { input: input.to_owned(), output: output.to_owned() }
    }

    /// The program to run.
    pub fn program(&self) -> (r: String)
        ensures
            r@ == "ffmpeg"@,
    {
        "ffmpeg".to_owned()
    }

    /// The arguments to run the program with.
    pub fn args(&self) -> (r: Vec<String>)
        ensures
            texts(r@) == ffmpeg_args(self.input@, self.output@),
    {
        let mut r: Vec<String> = Vec::new();
        r.push("-i".to_owned());
        r.push(self.input.clone());
        r.push("-ab".to_owned());
        r.push("320k".to_owned());
        r.push("-map_metadata".to_owned());
        r.push("0".to_owned());
        r.push("-id3v2_version".to_owned());
        r.push("3".to_owned());
        r.push("-progress".to_owned());
        r.push("pipe:1".to_owned());
        r.push("-y".to_owned());
        r.push(self.output.clone());
        assert(texts(r@) =~= ffmpeg_args(self.input@, self.output@));
        r
    }
}

} // verus!
