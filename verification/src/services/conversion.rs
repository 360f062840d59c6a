//! The decisions of a FLAC to MP3 conversion: which input is acceptable, what the
//! output is called, what FFmpeg's progress lines say and what a failed run reports.
use vstd::prelude::*;
use crate::error::{not_found, AppError};
use crate::paths::{
    file_stem,
    file_stem_of,
    has_flac_ext,
    has_flac_ext_exec,
    opt_view,
    parent,
    parent_exec,
};
use crate::text::{
    chars_of,
    concat,
    contains_exec,
    contains_text,
    signed_decimal,
    signed_decimal_text,
    string_of,
    text,
};
use crate::models::job::texts;

verus! {

/// The conversion service.
pub struct ConversionService;

/// The MP3 file name for an input path: the input's file stem followed by `.mp3`, or
/// `output.mp3` when the path has no file name.
pub open spec fn output_filename(input: Seq<char>) -> Seq<char> {
    match file_stem(input) {
        Some(stem) => stem + ".mp3"@,
        None => "output.mp3"@,
    }
}

/// What a line of FFmpeg's progress output reports: 100 percent when it holds
/// `progress=end`, nothing otherwise.
pub open spec fn progress_of_line(line: Seq<char>) -> Option<u32> {
    if contains_text(line, "progress=end"@) {
        Some(100)
    } else {
        None
    }
}

/// The `Debug` text of an exit code.
pub open spec fn exit_code_text(code: Option<i32>) -> Seq<char> {
    match code {
        Some(c) => "Some("@ + signed_decimal(c as int) + ")"@,
        None => "None"@,
    }
}

/// The lines of an error stream, each followed by a line break.
pub open spec fn stderr_text(lines: Seq<Seq<char>>) -> Seq<char>
    decreases lines.len(),
{
    if lines.len() == 0 {
        Seq::empty()
    } else {
        stderr_text(lines.drop_last()) + lines.last() + seq!['\n']
    }
}

/// What a conversion whose FFmpeg run exited with `code` reports: the error stream's
/// lines, or `Unknown error` when there was no error stream.
pub open spec fn failure_text(code: Option<i32>, stderr: Option<Seq<Seq<char>>>) -> Seq<char> {
    "FFmpeg failed with exit code "@ + exit_code_text(code) + ": "@ + match stderr {
        Some(lines) => stderr_text(lines),
        None => "Unknown error"@,
    }
}

impl ConversionService {
    /// The MP3 file name for an input path.
    pub fn generate_output_filename(input: &str) -> (r: String)
        ensures
            r@ == output_filename(input@),
    {
        let v = chars_of(input);
        match file_stem_of(&v) {
            Some(stem) => {
                let s = string_of(&stem);
                concat(s.as_str(), ".mp3")
            },
            None => text("output.mp3"),
        }
    }

    /// Checks the input of a conversion: it must exist (`exists` says whether it does)
    /// and have the extension `flac` in any letter case.
    pub fn check_input(input: &str, exists: bool) -> (r: Result<(), AppError>)
        ensures
            !exists ==> (r matches Err(AppError::Io(e)) && e.kind is NotFound && e.message@
                == "Input file not found: "@
                + input@),
            exists && !has_flac_ext(input@) ==> (r matches Err(AppError::InvalidFileType)),
            exists && has_flac_ext(input@) ==> (r is Ok),
    {
        if !exists {
            return Err(not_found(concat("Input file not found: ", input)));
        }
        let v = chars_of(input);
        if !has_flac_ext_exec(&v) {
            return Err(AppError::InvalidFileType);
        }
        Ok(())
    }

    /// The directory that must exist before FFmpeg writes `output`: the output's parent,
    /// if it has one.
    pub fn output_directory(output: &str) -> (r: Option<String>)
        ensures
            opt_view(r) == parent(output@),
    {
        match parent_exec(&chars_of(output)) {
            Some(p) => Some(string_of(&p)),
            None => None,
        }
    }

    /// The error of a conversion whose FFmpeg process could not be waited for, with the
    /// text of the failure.
    pub fn process_error(detail: &str) -> (r: AppError)
        ensures
            r matches AppError::ConversionError(msg) && msg@ == "Process error: "@ + detail@,
    {
        AppError::ConversionError(concat("Process error: ", detail))
    }

    /// The error of a conversion whose FFmpeg run failed with exit code `code`, with
    /// the lines of its error stream where there was one.
    pub fn failure_error(code: Option<i32>, stderr: Option<Vec<String>>) -> (r: AppError)
        ensures
            r matches AppError::ConversionError(msg) && msg@ == failure_text(
                code,
                match stderr {
                    Some(lines) => Some(texts(lines@)),
                    None => None,
                },
            ),
    {
        let code_text = match code {
            Some(c) => {
                let digits = signed_decimal_text(c);
                let head = concat("Some(", digits.as_str());
                concat(head.as_str(), ")")
            },
            None => text("None"),
        };
        let detail = match stderr {
            Some(lines) => {
                let mut out = String::new();
                let mut i: usize = 0;
                assert(texts(lines@).take(0) =~= Seq::<Seq<char>>::empty());
                while i < lines.len()
                    invariant
                        i <= lines.len(),
                        out@ == stderr_text(texts(lines@).take(i as int)),
                    decreases lines.len() - i,
                {
                    assert(texts(lines@).take(i + 1).drop_last() =~= texts(lines@).take(i as int));
                    let with_line = concat(out.as_str(), lines[i].as_str());
                    out = concat(with_line.as_str(), "\n");
                    proof {
                        reveal_strlit("\n");
                    }
                    i = i + 1;
                }
                assert(texts(lines@).take(lines.len() as int) =~= texts(lines@));
                out
            },
            None => text("Unknown error"),
        };
        let head = concat("FFmpeg failed with exit code ", code_text.as_str());
        let head = concat(head.as_str(), ": ");
        AppError::ConversionError(concat(head.as_str(), detail.as_str()))
    }
}

/// The progress that a line of FFmpeg's progress output reports, in percent.
pub fn parse_ffmpeg_progress(line: &str) -> (r: Option<u32>)
    ensures
        r == progress_of_line(line@),
{
    let v = chars_of(line);
    let pattern = chars_of("progress=end");
    if contains_exec(&v, &pattern) {
        Some(100)
    } else {
        None
    }
}

/// Every output name is an MP3 file name: it ends in `.mp3`.
pub proof fn law_output_is_mp3(input: Seq<char>)
    ensures
        crate::text::ends_with(output_filename(input), ".mp3"@),
{
    reveal_strlit(".mp3");
    reveal_strlit("output.mp3");
    match file_stem(input) {
        Some(stem) => {
            assert((stem + ".mp3"@).skip(stem.len() as int) =~= ".mp3"@);
        },
        None => {
            assert("output.mp3"@.skip(6) =~= ".mp3"@);
        },
    }
}

} // verus!
