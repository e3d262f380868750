//! Validation and sanitization of paths, metadata text, and cover art.

use vstd::prelude::*;
use vstd::string::{StringExecFns, StrSliceExecFns};

verus! {

/// Whether the character counts as alphanumeric; decided by the standard
/// library's Unicode tables.
pub uninterp spec fn alphanumeric_char(c: char) -> bool;

/// Whether the character counts as whitespace; decided by the standard
/// library's Unicode tables.
pub uninterp spec fn whitespace_char(c: char) -> bool;

/// Relies on char::is_alphanumeric: the result depends on the character
/// alone.
#[verifier::external_body]
fn is_alphanumeric_c(c: char) -> (r: bool)
    ensures
        r == alphanumeric_char(c),
{
    c.is_alphanumeric()
}

/// Relies on char::is_whitespace: the result depends on the character
/// alone.
#[verifier::external_body]
fn is_whitespace_c(c: char) -> (r: bool)
    ensures
        r == whitespace_char(c),
{
    c.is_whitespace()
}

/// Relies on String::from for char: a string holding exactly that one
/// character.
#[verifier::external_body]
fn char_to_string(c: char) -> (r: String)
    ensures
        r@ =~= seq![c],
{
    String::from(c)
}

/// Characters kept by metadata sanitization: alphanumerics, whitespace,
/// and a small list of common punctuation.
pub open spec fn allowed_meta_char(c: char) -> bool {
    ||| alphanumeric_char(c)
    ||| whitespace_char(c)
    ||| c == '-' || c == '_' || c == '.' || c == ','
    ||| c == '\u{27}' || c == '&' || c == '!' || c == '?'
}

/// The sanitized text: the allowed characters of `s` from index `i` on, in
/// order, until `budget` of them have been kept.
pub open spec fn sanitize_spec(s: Seq<char>, i: int, budget: int) -> Seq<char>
    decreases s.len() - i,
{
    if i < 0 || i >= s.len() || budget <= 0 {
        Seq::empty()
    } else if allowed_meta_char(s[i]) {
        seq![s[i]] + sanitize_spec(s, i + 1, budget - 1)
    } else {
        sanitize_spec(s, i + 1, budget)
    }
}

/// Whether `s` contains two consecutive dots anywhere.
pub open spec fn has_dotdot(s: Seq<char>) -> bool {
    exists|i: int| 0 <= i && i + 1 < s.len() && (#[trigger] s[i]) == '.' && s[i + 1] == '.'
}

/// Security utilities for file validation and sanitization.
pub struct SecurityValidator;

impl SecurityValidator {
    /// Reject paths that attempt traversal (a ".." anywhere) or that are
    /// not absolute (do not start with a separator).
    pub fn validate_path_safety(path: &str) -> (r: Result<(), String>)
        ensures
            has_dotdot(path@) ==> ({
                &&& r matches Err(m) && m@ == "Path traversal detected"@
            }),
            !has_dotdot(path@) && !(path@.len() > 0 && path@[0] == '/') ==> ({
                &&& r matches Err(m) && m@ == "Only absolute paths are allowed"@
            }),
            !has_dotdot(path@) && path@.len() > 0 && path@[0] == '/' ==> r is Ok,
    {
        let len: usize = path.unicode_len();
        let mut i: usize = 0;
        while i < len && i + 1 < len
            invariant
                i <= len,
                len == path@.len(),
                forall|m: int| 0 <= m && m + 1 < len && m < i ==> !((#[trigger] path@[m]) == '.'
                    && path@[m + 1] == '.'),
            decreases len - i,
        {
            if path.get_char(i) == '.' && path.get_char(i + 1) == '.' {
                return Err(String::from_str("Path traversal detected"));
            }
            i = i + 1;
        }
        if len == 0 || path.get_char(0) != '/' {
            return Err(String::from_str("Only absolute paths are allowed"));
        }
        Ok(())
    }

    /// Keep only harmless characters of a metadata string, up to 1000 of
    /// them, to prevent markup injection.
    pub fn sanitize_metadata(input: &str) -> (r: String)
        ensures
            r@ == sanitize_spec(input@, 0, 1000),
    {
        let len: usize = input.unicode_len();
        let mut out: String = String::new();
        let mut kept: usize = 0;
        let mut i: usize = 0;
        while i < len && kept < 1000
            invariant
                i <= len,
                kept <= 1000,
                len == input@.len(),
                sanitize_spec(input@, 0, 1000) == out@ + sanitize_spec(
                    input@,
                    i as int,
                    1000 - kept as int,
                ),
            decreases len - i,
        {
            let c: char = input.get_char(i);
            let ok: bool = is_alphanumeric_c(c) || is_whitespace_c(c) || c == '-' || c == '_' || c
                == '.' || c == ',' || c == '\u{27}' || c == '&' || c == '!' || c == '?';
            let ghost out_pre = out@;
            if ok {
                let cs = char_to_string(c);
                out.append(cs.as_str());
                kept = kept + 1;
                proof {
                    assert(out@ =~= out_pre + seq![c]);
                    assert(out_pre + (seq![c] + sanitize_spec(
                        input@,
                        i as int + 1,
                        1000 - kept as int,
                    )) =~= out@ + sanitize_spec(input@, i as int + 1, 1000 - kept as int));
                }
            }
            i = i + 1;
        }
        proof {
            assert(sanitize_spec(input@, i as int, 1000 - kept as int) =~= Seq::<char>::empty());
            assert(out@ + Seq::<char>::empty() =~= out@);
        }
        out
    }

    /// Accept cover art only when it is at most 10 MB and starts with a
    /// recognizable JPEG, PNG, GIF, or WebP signature.
    pub fn validate_cover_art(data: &[u8]) -> (r: Result<(), String>)
        ensures
            data@.len() > 10485760 ==> ({
                &&& r matches Err(m) && m@ == "Cover art exceeds maximum size (10 MB)"@
            }),
            data@.len() <= 10485760 && data@.len() < 4 ==> ({
                &&& r matches Err(m) && m@ == "Invalid image data"@
            }),
            data@.len() <= 10485760 && data@.len() >= 4 ==> {
                &&& valid_image_sig(data@) ==> r is Ok
                &&& !valid_image_sig(data@) ==> ({
                    &&& r matches Err(m) && m@ == "Invalid image format"@
                })
            },
    {
        if data.len() > 10485760 {
            return Err(String::from_str("Cover art exceeds maximum size (10 MB)"));
        }
        if data.len() < 4 {
            return Err(String::from_str("Invalid image data"));
        }
        let b0 = *vstd::slice::slice_index_get(data, 0);
        let b1 = *vstd::slice::slice_index_get(data, 1);
        let b2 = *vstd::slice::slice_index_get(data, 2);
        let b3 = *vstd::slice::slice_index_get(data, 3);
        let ok: bool = (b0 == 0xFF && b1 == 0xD8) || (b0 == 0x89 && b1 == 0x50 && b2 == 0x4E && b3
            == 0x47) || (b0 == 0x47 && b1 == 0x49 && b2 == 0x46) || (b0 == 0x52 && b1 == 0x49 && b2
            == 0x46 && b3 == 0x46);
        if ok {
            Ok(())
        } else {
            Err(String::from_str("Invalid image format"))
        }
    }
}

/// Whether the first bytes carry a JPEG, PNG, GIF, or WebP signature.
pub open spec fn valid_image_sig(d: Seq<u8>) -> bool {
    ||| (d[0] == 0xFF && d[1] == 0xD8)
    ||| (d[0] == 0x89 && d[1] == 0x50 && d[2] == 0x4E && d[3] == 0x47)
    ||| (d[0] == 0x47 && d[1] == 0x49 && d[2] == 0x46)
    ||| (d[0] == 0x52 && d[1] == 0x49 && d[2] == 0x46 && d[3] == 0x46)
}

} // verus!
