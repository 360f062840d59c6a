//! Archives of converted files: which files go into an archive and under which names.
use vstd::prelude::*;
use crate::error::AppError;
use crate::models::job::texts;
use crate::paths::{file_name, file_name_of};
use crate::text::{chars_of, concat, string_of, text};

verus! {

/// Builds archives of converted files.
pub struct FileManager;

/// The paths of `files` that exist (`present[i]` says whether file `i` does), in order.
pub open spec fn kept(files: Seq<Seq<char>>, present: Seq<bool>) -> Seq<Seq<char>>
    decreases files.len(),
{
    if files.len() == 0 {
        Seq::empty()
    } else {
        let rest = kept(files.drop_last(), present.take(files.len() - 1));
        if present[files.len() - 1] {
            rest.push(files.last())
        } else {
            rest
        }
    }
}

impl FileManager {
    /// The files that go into an archive: those that exist, in order;
    /// `ZipError` when none does.
    pub fn existing_files(files: Vec<String>, present: &Vec<bool>) -> (r: Result<
        Vec<String>,
        AppError,
    >)
        requires
            present.len() == files.len(),
        ensures
            match r {
                Ok(v) => texts(v@) == kept(texts(files@), present@) && v@.len() > 0,
                Err(e) => kept(texts(files@), present@).len() == 0 && (e matches AppError::ZipError(
                    m,
                ) && m@ == "No files available for ZIP creation"@),
            },
    {
        let ghost orig = texts(files@);
        let mut out: Vec<String> = Vec::new();
        let mut i: usize = 0;
        while i < files.len()
            invariant
                i <= files.len(),
                present.len() == files.len(),
                orig == texts(files@),
                texts(out@) == kept(orig.take(i as int), present@.take(i as int)),
            decreases files.len() - i,
        {
            let ghost before = texts(out@);
            assert(orig.take(i + 1).drop_last() =~= orig.take(i as int));
            assert(present@.take(i + 1).take(i as int) =~= present@.take(i as int));
            if present[i] {
                out.push(files[i].clone());
                assert(texts(out@) =~= before.push(orig[i as int]));
            }
            i = i + 1;
        }
        assert(orig.take(files.len() as int) =~= orig);
        assert(present@.take(files.len() as int) =~= present@);
        if out.len() == 0 {
            return Err(AppError::ZipError(text("No files available for ZIP creation")));
        }
        Ok(out)
    }

    /// The name of a file's entry in an archive: its file name; `ZipError` naming the
    /// path when it has none.
    pub fn zip_entry_name(path: &str) -> (r: Result<String, AppError>)
        ensures
            match r {
                Ok(n) => file_name(path@) == Some(n@),
                Err(e) => file_name(path@) is None && (e matches AppError::ZipError(m) && m@
                    == "Invalid output filename for path: "@ + path@),
            },
    {
        match file_name_of(&chars_of(path)) {
            Some(n) => Ok(string_of(&n)),
            None => Err(AppError::ZipError(concat("Invalid output filename for path: ", path))),
        }
    }
}

} // verus!
