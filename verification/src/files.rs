//! Decisions and messages of `del` (remove paths) and `cp` (copy a file to the clipboard).
use vstd::prelude::*;
use crate::errors::{clean_io, clean_io_spec, IoErrorKind};
use crate::text::{append_chars, chars_of, decimal, push_decimal, string_of};

verus! {

/// The message when `del` is given no path.
pub open spec fn no_paths_msg() -> Seq<char> {
    "rm: give at least one path"@
}

/// `del` needs at least one path.
pub fn rm_paths_given(count: usize) -> (r: Result<(), String>)
    ensures
        count > 0 <==> r is Ok,
        r matches Err(m) ==> m@ == no_paths_msg(),
{
    if count == 0 {
        return Err("rm: give at least one path".to_string());
    }
    Ok(())
}

/// The message when some paths could not be removed.
pub open spec fn rm_failed_msg(failed: nat) -> Seq<char> {
    "rm: "@ + decimal(failed) + " path(s) failed"@
}

/// The result of `del` once `failed` of its paths could not be removed.
pub fn rm_result(failed: usize) -> (r: Result<(), String>)
    ensures
        failed == 0 <==> r is Ok,
        r matches Err(m) ==> m@ == rm_failed_msg(failed as nat),
{
    if failed > 0 {
        let mut v = chars_of("rm: ");
        push_decimal(&mut v, failed as u64);
        let tail = chars_of(" path(s) failed");
        append_chars(&mut v, tail.as_slice());
        return Err(string_of(v.as_slice()));
    }
    Ok(())
}

/// How a path is removed.
#[derive(Clone, Copy, Debug, PartialEq, Eq, Structural)]
pub enum Removal {
    /// A directory, with everything in it.
    Tree,
    /// A file or a symbolic link (a link to a directory is removed, not followed).
    Entry,
}

/// How to remove a path, given what its own metadata (not following links) says.
pub fn removal_for(is_dir: bool, is_symlink: bool) -> (r: Removal)
    ensures
        r == (if is_dir && !is_symlink { Removal::Tree } else { Removal::Entry }),
{
    if is_dir && !is_symlink { Removal::Tree } else { Removal::Entry }
}

/// The message when a path cannot be looked at.
pub open spec fn unreadable_path_msg() -> Seq<char> {
    "not found or no permission"@
}

/// The message for a path whose metadata cannot be read.
pub fn unreadable_path() -> (r: String)
    ensures
        r@ == unreadable_path_msg(),
{
    "not found or no permission".to_string()
}

/// Calls `String::from_utf8`.
/// Trusted: the bytes are accepted exactly when they are valid UTF-8, and then the text
/// is their decoding.
#[verifier::external_body]
fn string_from_utf8(bytes: Vec<u8>) -> (r: Option<String>)
    ensures
        r is Some <==> vstd::utf8::valid_utf8(bytes@),
        r matches Some(s) ==> s@ == vstd::utf8::decode_utf8(bytes@),
{
    String::from_utf8(bytes).ok()
}

/// `cp: <shown>: not a text file`.
pub open spec fn not_text_msg(shown: Seq<char>) -> Seq<char> {
    "cp: "@ + shown + ": not a text file"@
}

/// `cp: <shown>: <reason>`.
pub open spec fn read_failed_msg(shown: Seq<char>, kind: IoErrorKind) -> Seq<char> {
    "cp: "@ + shown + ": "@ + clean_io_spec(kind)
}

/// The text `cp` puts on the clipboard: the file's bytes decoded as UTF-8, or the message
/// naming the file (as `shown`) when they are not UTF-8.
pub fn clipboard_text(bytes: Vec<u8>, shown: &str) -> (r: Result<String, String>)
    ensures
        match r {
            Ok(t) => vstd::utf8::valid_utf8(bytes@) && t@ == vstd::utf8::decode_utf8(bytes@),
            Err(m) => !vstd::utf8::valid_utf8(bytes@) && m@ == not_text_msg(shown@),
        },
{
    match string_from_utf8(bytes) {
        Some(t) => Ok(t),
        None => {
            let mut v = chars_of("cp: ");
            let s = chars_of(shown);
            append_chars(&mut v, s.as_slice());
            let tail = chars_of(": not a text file");
            append_chars(&mut v, tail.as_slice());
            Err(string_of(v.as_slice()))
        },
    }
}

/// The message when the file to copy cannot be read.
pub fn read_failed(shown: &str, kind: IoErrorKind) -> (r: String)
    ensures
        r@ == read_failed_msg(shown@, kind),
{
    let mut v = chars_of("cp: ");
    let s = chars_of(shown);
    append_chars(&mut v, s.as_slice());
    let sep = chars_of(": ");
    append_chars(&mut v, sep.as_slice());
    let reason = clean_io(kind);
    let rv = chars_of(reason.as_str());
    append_chars(&mut v, rv.as_slice());
    string_of(v.as_slice())
}

} // verus!
