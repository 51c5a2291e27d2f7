//! Input file format detection.
//!
//! Detects a scan-benchmark input's format from the extension of its
//! file path: the part of the path after the last `/` is the file
//! name, and the part of the file name after its last `.` is the
//! extension, provided that dot exists and is not the file name's
//! first character. Extensions match case-insensitively (ASCII).

use vstd::prelude::*;

use vstd::string::StrSliceExecFns;

verus! {

/// Supported input file formats.
#[derive(Debug, Clone, Copy, PartialEq, Eq, Structural)]
pub enum InputFormat {
    Csv,
    Parquet,
    Json,
    Lance,
}

/// Why no format could be detected for a path.
#[derive(Debug, PartialEq, Eq)]
pub enum FormatError {
    /// The path's file name has no extension.
    NoExtension,
    /// The extension (held here as written in the path) is not a
    /// supported one.
    Unsupported(String),
}

/// The suffix of `s` after the last occurrence of `c`; all of `s` when
/// `c` does not occur.
pub open spec fn suffix_after_last(s: Seq<char>, c: char) -> Seq<char>
    decreases s.len(),
{
    if s.len() == 0 {
        s
    } else if s.last() == c {
        Seq::empty()
    } else {
        suffix_after_last(s.drop_last(), c).push(s.last())
    }
}

/// The file name of a path: everything after the last `/`.
pub open spec fn file_name_of(path: Seq<char>) -> Seq<char> {
    suffix_after_last(path, '/')
}

/// The extension of a path: the part of its file name after the last
/// `.` of the file name.
pub open spec fn extension_of(path: Seq<char>) -> Seq<char> {
    suffix_after_last(file_name_of(path), '.')
}

/// Whether a path has an extension: its file name holds a `.` that is
/// not the file name's first character.
pub open spec fn has_extension(path: Seq<char>) -> bool {
    file_name_of(path).len() >= extension_of(path).len() + 2
}

/// ASCII-lowercased code point of a character.
pub open spec fn lower_code(c: char) -> int {
    if 65 <= c as u32 <= 90 {
        c as u32 + 32
    } else {
        c as u32 as int
    }
}

/// Two strings are equal up to ASCII case.
pub open spec fn matches_ignore_case(a: Seq<char>, b: Seq<char>) -> bool {
    a.len() == b.len() && forall|i: int|
        0 <= i < a.len() ==> lower_code(a[i]) == lower_code(b[i])
}

/// The format a given extension stands for, if any.
pub open spec fn format_of_extension(ext: Seq<char>) -> Option<InputFormat> {
    if matches_ignore_case(ext, "csv"@) {
        Some(InputFormat::Csv)
    } else if matches_ignore_case(ext, "parquet"@) {
        Some(InputFormat::Parquet)
    } else if matches_ignore_case(ext, "json"@) || matches_ignore_case(ext, "jsonl"@)
        || matches_ignore_case(ext, "ndjson"@) {
        Some(InputFormat::Json)
    } else if matches_ignore_case(ext, "lance"@) {
        Some(InputFormat::Lance)
    } else {
        None
    }
}

/// Position of the last occurrence of `c` in `s`, if any.
fn last_index_of(s: &str, c: char) -> (r: Option<usize>)
    ensures
        match r {
            Some(i) => i < s@.len() && s@[i as int] == c && forall|k: int|
                i < k < s@.len() ==> s@[k] != c,
            None => forall|k: int| 0 <= k < s@.len() ==> s@[k] != c,
        },
{
    let n = s.unicode_len();
    let mut i: usize = n;
    while i > 0
        invariant
            n == s@.len(),
            0 <= i <= n,
            forall|k: int| i <= k < n ==> s@[k] != c,
        decreases i,
    {
        i = i - 1;
        if s.get_char(i) == c {
            return Some(i);
        }
    }
    None
}

/// When `c` occurs last at position `i`, the suffix after the last
/// occurrence is everything past `i`.
proof fn lemma_suffix_after_last_at(s: Seq<char>, c: char, i: int)
    requires
        0 <= i < s.len(),
        s[i] == c,
        forall|k: int| i < k < s.len() ==> s[k] != c,
    ensures
        suffix_after_last(s, c) =~= s.subrange(i + 1, s.len() as int),
    decreases s.len(),
{
    if i == s.len() - 1 {
        assert(s.last() == c);
    } else {
        assert(s.last() != c);
        let d = s.drop_last();
        assert(forall|k: int| i < k < d.len() ==> #[trigger] d[k] == s[k]);
        lemma_suffix_after_last_at(d, c, i);
        assert(d.subrange(i + 1, d.len() as int).push(s.last()) =~= s.subrange(
            i + 1,
            s.len() as int,
        ));
    }
}

/// When `c` does not occur, the suffix after its last occurrence is
/// the whole string.
proof fn lemma_suffix_after_last_none(s: Seq<char>, c: char)
    requires
        forall|k: int| 0 <= k < s.len() ==> s[k] != c,
    ensures
        suffix_after_last(s, c) =~= s,
    decreases s.len(),
{
    if s.len() > 0 {
        lemma_suffix_after_last_none(s.drop_last(), c);
    }
}

/// Compares two strings for equality up to ASCII case.
fn eq_ignore_case(a: &str, b: &str) -> (r: bool)
    ensures
        r == matches_ignore_case(a@, b@),
{
    let na = a.unicode_len();
    let nb = b.unicode_len();
    if na != nb {
        return false;
    }
    let mut i: usize = 0;
    while i < na
        invariant
            na == a@.len(),
            nb == b@.len(),
            na == nb,
            0 <= i <= na,
            forall|k: int| 0 <= k < i ==> lower_code(a@[k]) == lower_code(b@[k]),
        decreases na - i,
    {
        let ca = a.get_char(i);
        let cb = b.get_char(i);
        let la = if ca as u32 >= 65 && ca as u32 <= 90 {
            ca as u32 + 32
        } else {
            ca as u32
        };
        let lb = if cb as u32 >= 65 && cb as u32 <= 90 {
            cb as u32 + 32
        } else {
            cb as u32
        };
        if la != lb {
            return false;
        }
        i = i + 1;
    }
    true
}

impl InputFormat {
    /// Detects the format of an input path from its extension: `Ok`
    /// exactly when the path has an extension naming a supported
    /// format; `NoExtension` when it has none; `Unsupported`, holding
    /// the extension, when the extension names no format.
    pub fn from_path(path: &str) -> (r: Result<InputFormat, FormatError>)
        ensures
            match r {
                Ok(f) => has_extension(path@) && format_of_extension(extension_of(path@))
                    == Some(f),
                Err(FormatError::NoExtension) => !has_extension(path@),
                Err(FormatError::Unsupported(e)) => has_extension(path@) && format_of_extension(
                    extension_of(path@),
                ) is None && e@ == extension_of(path@),
            },
    {
        let n = path.unicode_len();
        let fstart: usize = match last_index_of(path, '/') {
            Some(i) => {
                proof {
                    lemma_suffix_after_last_at(path@, '/', i as int);
                }
                i + 1
            },
            None => {
                proof {
                    lemma_suffix_after_last_none(path@, '/');
                    assert(path@.subrange(0, n as int) =~= path@);
                }
                0
            },
        };
        let fname = path.substring_char(fstart, n);
        proof {
            assert(fname@ == file_name_of(path@));
        }
        let m = fname.unicode_len();
        let dot = last_index_of(fname, '.');
        match dot {
            None => {
                proof {
                    lemma_suffix_after_last_none(fname@, '.');
                }
                Err(FormatError::NoExtension)
            },
            Some(d) => {
                proof {
                    lemma_suffix_after_last_at(fname@, '.', d as int);
                }
                if d == 0 {
                    proof {
                        assert(extension_of(path@).len() == m - 1);
                    }
                    Err(FormatError::NoExtension)
                } else {
                    let ext = fname.substring_char(d + 1, m);
                    proof {
                        assert(ext@ == extension_of(path@));
                        assert(file_name_of(path@).len() >= extension_of(path@).len() + 2);
                    }
                    if eq_ignore_case(ext, "csv") {
                        Ok(InputFormat::Csv)
                    } else if eq_ignore_case(ext, "parquet") {
                        Ok(InputFormat::Parquet)
                    } else if eq_ignore_case(ext, "json") || eq_ignore_case(ext, "jsonl")
                        || eq_ignore_case(ext, "ndjson") {
                        Ok(InputFormat::Json)
                    } else if eq_ignore_case(ext, "lance") {
                        Ok(InputFormat::Lance)
                    } else {
                        Err(FormatError::Unsupported(ext.to_owned()))
                    }
                }
            },
        }
    }

    /// The display name of this format.
    pub fn name(&self) -> (r: &'static str)
        ensures
            r@ == spec_name(*self),
    {
        match self {
            InputFormat::Csv => "CSV",
            InputFormat::Parquet => "Parquet",
            InputFormat::Json => "JSON",
            InputFormat::Lance => "Lance",
        }
    }
}

/// The display name of each format.
pub open spec fn spec_name(f: InputFormat) -> Seq<char> {
    match f {
        InputFormat::Csv => "CSV"@,
        InputFormat::Parquet => "Parquet"@,
        InputFormat::Json => "JSON"@,
        InputFormat::Lance => "Lance"@,
    }
}

} // verus!
