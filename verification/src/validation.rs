//! Checks on what the configuration asks for.

use vstd::prelude::*;
use vstd::string::StringSliceAdditionalSpecFns;
use vstd::utf8::encode_utf8;
use crate::errors::EpubError;
use crate::paths::{component_count, parts, PathStyle};
use crate::text::{chars_of, push_decimal, push_str, string_of};

verus! {

/// The container format versions that can be asked for.
#[derive(Clone, Copy, Debug, PartialEq, Eq, Structural)]
pub enum EpubVersion {
    /// Version 2.0.1.
    V20,
    /// Version 3.0.1.
    V30,
}

/// The message for a version number that is neither 2 nor 3.
pub open spec fn unsupported_version_message(v: u8) -> Seq<char> {
    "Unsupported epub version specified in book.toml: "@ + crate::text::decimal(v as nat)
}

/// The container version that the configuration names: 2 and 3 are known,
/// no number leaves the choice open, any other number is refused.
pub fn validate_config_epub_version(epub_version: Option<u8>) -> (r: Result<
    Option<EpubVersion>,
    EpubError,
>)
    ensures
        match epub_version {
            None => r == Ok::<Option<EpubVersion>, EpubError>(None),
            Some(v) => if v == 2 {
                r == Ok::<Option<EpubVersion>, EpubError>(Some(EpubVersion::V20))
            } else if v == 3 {
                r == Ok::<Option<EpubVersion>, EpubError>(Some(EpubVersion::V30))
            } else {
                r matches Err(EpubError::EpubDocCreate(m)) && m@ == unsupported_version_message(v)
            },
        },
{
    match epub_version {
        None => Ok(None),
        Some(v) => {
            if v == 2 {
                Ok(Some(EpubVersion::V20))
            } else if v == 3 {
                Ok(Some(EpubVersion::V30))
            } else {
                let mut out: Vec<char> = Vec::new();
                push_str(&mut out, "Unsupported epub version specified in book.toml: ");
                push_decimal(&mut out, v as u64);
                assert(out@ =~= unsupported_version_message(v));
                Err(EpubError::EpubDocCreate(string_of(&out)))
            }
        },
    }
}

/// The book's title, when it can serve as the name of the output file.
pub fn validate_config_title_file_name(title: Option<&str>) -> (r: Result<String, EpubError>)
    ensures
        match title {
            Some(t) => if valid_filename(t@) {
                r matches Ok(name) && name@ == t@
            } else {
                r matches Err(EpubError::EpubBookNameOrPath(name)) && name@ == t@
            },
            None => r matches Err(EpubError::EpubBookNameOrPath(name)) && name@.len() == 0,
        },
{
    match title {
        Some(t) => {
            if is_valid_filename(t) {
                Ok(t.to_owned())
            } else {
                Err(EpubError::EpubBookNameOrPath(t.to_owned()))
            }
        },
        None => Err(EpubError::EpubBookNameOrPath(String::new())),
    }
}

/// The chars that no file name may hold on every platform.
pub open spec fn forbidden_char(c: char) -> bool {
    c == '<' || c == '>' || c == ':' || c == '"' || c == '/' || c == '\\' || c == '|' || c == '?'
        || c == '*'
}

/// Executable form of [`forbidden_char`].
fn is_forbidden_char(c: char) -> (r: bool)
    ensures
        r == forbidden_char(c),
{
    c == '<' || c == '>' || c == ':' || c == '"' || c == '/' || c == '\\' || c == '|' || c == '?'
        || c == '*'
}

/// The char with an upper-case ASCII letter made lower case, as a number.
pub open spec fn folded(c: char) -> u32 {
    if 'A' <= c && c <= 'Z' {
        (c as u32 + 32) as u32
    } else {
        c as u32
    }
}

/// Executable form of [`folded`].
fn fold(c: char) -> (r: u32)
    ensures
        r == folded(c),
{
    if 'A' <= c && c <= 'Z' {
        c as u32 + 32
    } else {
        c as u32
    }
}

/// Whether the two texts are equal once ASCII letters are taken without
/// regard to case.
pub open spec fn same_ignoring_ascii_case(a: Seq<char>, b: Seq<char>) -> bool {
    a.len() == b.len() && forall|i: int| 0 <= i < a.len() ==> folded(#[trigger] a[i]) == folded(b[i])
}

/// Executable form of [`same_ignoring_ascii_case`].
fn eq_ignore_ascii_case(a: &Vec<char>, b: &str) -> (r: bool)
    ensures
        r == same_ignoring_ascii_case(a@, b@),
{
    let t = chars_of(b);
    if a.len() != t.len() {
        return false;
    }
    let mut i: usize = 0;
    while i < a.len()
        invariant
            i <= a.len(),
            a.len() == t.len(),
            t@ == b@,
            forall|k: int| 0 <= k < i ==> folded(#[trigger] a@[k]) == folded(b@[k]),
        decreases a.len() - i,
    {
        if fold(a[i]) != fold(t[i]) {
            return false;
        }
        i = i + 1;
    }
    true
}

/// Whether `s` is one of the device names that cannot name a file: `CON`,
/// `PRN`, `AUX`, `NUL`, `COM1` to `COM9`, `LPT1` to `LPT9`, in any case.
pub open spec fn reserved_name(s: Seq<char>) -> bool {
    ||| same_ignoring_ascii_case(s, "CON"@)
    ||| same_ignoring_ascii_case(s, "PRN"@)
    ||| same_ignoring_ascii_case(s, "AUX"@)
    ||| same_ignoring_ascii_case(s, "NUL"@)
    ||| same_ignoring_ascii_case(s, "COM1"@)
    ||| same_ignoring_ascii_case(s, "COM2"@)
    ||| same_ignoring_ascii_case(s, "COM3"@)
    ||| same_ignoring_ascii_case(s, "COM4"@)
    ||| same_ignoring_ascii_case(s, "COM5"@)
    ||| same_ignoring_ascii_case(s, "COM6"@)
    ||| same_ignoring_ascii_case(s, "COM7"@)
    ||| same_ignoring_ascii_case(s, "COM8"@)
    ||| same_ignoring_ascii_case(s, "COM9"@)
    ||| same_ignoring_ascii_case(s, "LPT1"@)
    ||| same_ignoring_ascii_case(s, "LPT2"@)
    ||| same_ignoring_ascii_case(s, "LPT3"@)
    ||| same_ignoring_ascii_case(s, "LPT4"@)
    ||| same_ignoring_ascii_case(s, "LPT5"@)
    ||| same_ignoring_ascii_case(s, "LPT6"@)
    ||| same_ignoring_ascii_case(s, "LPT7"@)
    ||| same_ignoring_ascii_case(s, "LPT8"@)
    ||| same_ignoring_ascii_case(s, "LPT9"@)
}

/// Executable form of [`reserved_name`].
fn is_reserved_name(s: &Vec<char>) -> (r: bool)
    ensures
        r == reserved_name(s@),
{
    eq_ignore_ascii_case(s, "CON") || eq_ignore_ascii_case(s, "PRN") || eq_ignore_ascii_case(
        s,
        "AUX",
    ) || eq_ignore_ascii_case(s, "NUL") || eq_ignore_ascii_case(s, "COM1")
        || eq_ignore_ascii_case(s, "COM2") || eq_ignore_ascii_case(s, "COM3")
        || eq_ignore_ascii_case(s, "COM4") || eq_ignore_ascii_case(s, "COM5")
        || eq_ignore_ascii_case(s, "COM6") || eq_ignore_ascii_case(s, "COM7")
        || eq_ignore_ascii_case(s, "COM8") || eq_ignore_ascii_case(s, "COM9")
        || eq_ignore_ascii_case(s, "LPT1") || eq_ignore_ascii_case(s, "LPT2")
        || eq_ignore_ascii_case(s, "LPT3") || eq_ignore_ascii_case(s, "LPT4")
        || eq_ignore_ascii_case(s, "LPT5") || eq_ignore_ascii_case(s, "LPT6")
        || eq_ignore_ascii_case(s, "LPT7") || eq_ignore_ascii_case(s, "LPT8")
        || eq_ignore_ascii_case(s, "LPT9")
}

/// Whether `s` can name a file on Linux, macOS and Windows alike: not
/// empty, free of the forbidden chars and of the null char, no reserved
/// device name, at most 255 bytes in UTF-8, and a single path component.
pub open spec fn valid_filename(s: Seq<char>) -> bool {
    &&& s.len() > 0
    &&& forall|i: int| 0 <= i < s.len() ==> !forbidden_char(#[trigger] s[i])
    &&& !reserved_name(s)
    &&& forall|i: int| 0 <= i < s.len() ==> #[trigger] s[i] != '\0'
    &&& encode_utf8(s).len() <= 255
    &&& parts(PathStyle::Slash, s).len() == 1
}

/// Checks if a string can be used as a filename in Linux, macOS, and Windows.
pub fn is_valid_filename(filename: &str) -> (r: bool)
    ensures
        r == valid_filename(filename@),
{
    let t = chars_of(filename);
    if t.len() == 0 {
        return false;
    }
    let mut i: usize = 0;
    while i < t.len()
        invariant
            i <= t.len(),
            t@ == filename@,
            forall|k: int| 0 <= k < i ==> !forbidden_char(#[trigger] t@[k]),
        decreases t.len() - i,
    {
        if is_forbidden_char(t[i]) {
            return false;
        }
        i = i + 1;
    }
    if is_reserved_name(&t) {
        return false;
    }
    let mut j: usize = 0;
    while j < t.len()
        invariant
            j <= t.len(),
            t@ == filename@,
            forall|k: int| 0 <= k < j ==> #[trigger] t@[k] != '\0',
        decreases t.len() - j,
    {
        if t[j] == '\0' {
            return false;
        }
        j = j + 1;
    }
    let bytes = filename.as_bytes();
    if bytes.len() > 255 {
        return false;
    }
    assert(encode_utf8(filename@).len() <= 255);
    if component_count(PathStyle::Slash, filename) != 1 {
        return false;
    }
    true
}

} // verus!
