//! Output file names derived from the input name.
use std::path::Path;

use vstd::prelude::*;

use crate::text::{decimal, push_decimal};

verus! {

/// What `Path::with_extension` gives for a path and an extension.
pub uninterp spec fn path_with_extension(path: Seq<char>, extension: Seq<char>) -> Seq<char>;

/// What `Path::file_stem` gives for a path.
pub uninterp spec fn path_file_stem(path: Seq<char>) -> Option<Seq<char>>;

/// What `Path::extension` gives for a path.
pub uninterp spec fn path_extension(path: Seq<char>) -> Option<Seq<char>>;

/// What `Path::with_file_name` gives for a path and a file name.
pub uninterp spec fn path_with_file_name(path: Seq<char>, name: Seq<char>) -> Seq<char>;

/// `std::path::Path::with_extension`, on paths held as UTF-8 text. Its
/// result is named, not described: it depends on the path and extension
/// only. The call panics when the extension holds a path separator, so such
/// extensions are left out.
#[verifier::external_body]
fn with_extension(path: &str, extension: &str) -> (r: String)
    requires
        forall|i: int| 0 <= i < extension@.len() ==> extension@[i] != '/' && extension@[i] != '\\',
    ensures
        r@ == path_with_extension(path@, extension@),
{
    Path::new(path).with_extension(extension).to_string_lossy().into_owned()
}

/// `std::path::Path::file_stem`, on paths held as UTF-8 text.
#[verifier::external_body]
fn file_stem(path: &str) -> (r: Option<String>)
    ensures
        match r {
            Some(s) => path_file_stem(path@) == Some(s@),
            None => path_file_stem(path@) is None,
        },
{
    match Path::new(path).file_stem() {
        Some(s) => Some(s.to_string_lossy().into_owned()),
        None => None,
    }
}

/// `std::path::Path::extension`, on paths held as UTF-8 text.
#[verifier::external_body]
fn extension(path: &str) -> (r: Option<String>)
    ensures
        match r {
            Some(s) => path_extension(path@) == Some(s@),
            None => path_extension(path@) is None,
        },
{
    match Path::new(path).extension() {
        Some(s) => Some(s.to_string_lossy().into_owned()),
        None => None,
    }
}

/// `std::path::Path::with_file_name`, on paths held as UTF-8 text.
#[verifier::external_body]
fn with_file_name(path: &str, name: &str) -> (r: String)
    ensures
        r@ == path_with_file_name(path@, name@),
{
    Path::new(path).with_file_name(name).to_string_lossy().into_owned()
}

/// The output written for an input: the input path with the extension `mid`.
pub fn default_output(input: &str) -> (r: String)
    ensures
        r@ == path_with_extension(input@, "mid"@),
{
    proof {
        reveal_strlit("mid");
    }
    with_extension(input, "mid")
}

/// The file name of song `index`: `<stem>.<index>.<extension>`, with
/// `output` and `mid` where the stem or the extension is missing.
pub open spec fn indexed_name(stem: Option<Seq<char>>, extension: Option<Seq<char>>, index: usize) -> Seq<char> {
    let s = match stem {
        Some(s) => s,
        None => "output"@,
    };
    let e = match extension {
        Some(e) => e,
        None => "mid"@,
    };
    s + "."@ + decimal(index as nat) + "."@ + e
}

/// The file name of song `index`, from the output's stem and extension.
pub fn indexed_file_name(stem: Option<String>, extension: Option<String>, index: usize) -> (r: String)
    ensures
        r@ == indexed_name(
            match stem {
                Some(s) => Some(s@),
                None => None,
            },
            match extension {
                Some(e) => Some(e@),
                None => None,
            },
            index,
        ),
{
    let mut name = match stem {
        Some(s) => s,
        None => String::from_str("output"),
    };
    let ext = match extension {
        Some(e) => e,
        None => String::from_str("mid"),
    };
    name.append(".");
    push_decimal(&mut name, index as u64);
    name.append(".");
    name.append(ext.as_str());
    name
}

/// The output of song `index` of a multi-song export: the output path with
/// its file name replaced by `<stem>.<index>.<extension>`.
pub fn indexed_path(output: &str, index: usize) -> (r: String)
    ensures
        r@ == path_with_file_name(
            output@,
            indexed_name(path_file_stem(output@), path_extension(output@), index),
        ),
{
    let stem = file_stem(output);
    let ext = extension(output);
    let name = indexed_file_name(stem, ext, index);
    with_file_name(output, name.as_str())
}

} // verus!
