//! File names of paths, and the tests that tell a PDF by its extension.
use vstd::prelude::*;

verus! {

/// Whether `c` separates components of a path on some platform: `/`
/// everywhere, `\` on Windows.
pub open spec fn is_separator(c: char) -> bool {
    c == '/' || c == '\\'
}

/// Whether `c` may follow the final normal component of a path: a separator,
/// or the `.` of a trailing `.` component.
pub open spec fn ends_component(c: char) -> bool {
    is_separator(c) || c == '.'
}

/// Whether `c` can name a Windows drive: an ASCII letter.
pub open spec fn is_drive_letter(c: char) -> bool {
    ('a' <= c && c <= 'z') || ('A' <= c && c <= 'Z')
}

/// Whether `n` stands in `path` at `i` as its final normal component: it
/// starts the path, follows a separator, or follows a Windows drive prefix
/// (a letter and `:` at the start), and only separators and `.` come after
/// it.
pub open spec fn is_final_component_at(path: Seq<char>, n: Seq<char>, i: int) -> bool {
    &&& 0 <= i
    &&& i + n.len() <= path.len()
    &&& path.subrange(i, i + n.len()) == n
    &&& (i == 0 || is_separator(path[i - 1]) || (i == 2 && is_drive_letter(path[0]) && path[1]
        == ':'))
    &&& forall|j: int| i + n.len() <= j < path.len() ==> ends_component(#[trigger] path[j])
}

/// Whether `path` starts with two separators, as the Windows network and
/// verbatim prefixes do (after a verbatim prefix, `/` is no separator).
pub open spec fn starts_with_two_separators(path: Seq<char>) -> bool {
    path.len() >= 2 && is_separator(path[0]) && is_separator(path[1])
}

/// Whether `n` is the final normal component of `path`: a non-empty name,
/// neither `.` nor `..`, standing at the end of the path, and without `/`
/// unless the path starts with two separators.
pub open spec fn is_final_component_of(path: Seq<char>, n: Seq<char>) -> bool {
    &&& n.len() > 0
    &&& (!starts_with_two_separators(path) ==> !n.contains('/'))
    &&& n != "."@
    &&& n != ".."@
    &&& exists|i: int| #[trigger] is_final_component_at(path, n, i)
}

/// Whether `path` plainly ends in a file name, on every platform: it is not
/// empty, is not a bare Windows drive prefix (a letter and `:`), does not
/// start with two separators (so no Windows network or verbatim prefix), and
/// does not end in a separator or a `.`.
pub open spec fn plainly_named(path: Seq<char>) -> bool {
    &&& path.len() > 0
    &&& !(path.len() == 2 && is_drive_letter(path[0]) && path[1] == ':')
    &&& !starts_with_two_separators(path)
    &&& !ends_component(path.last())
}

/// `Path::file_name`, taken as text: the final component of `path` where it
/// is a normal component. Stated of it: such a component is the final normal
/// component as `is_final_component_of` says; a path that is plainly named
/// has one. Not stated: which of `/` and `\` separate components, which
/// depends on the platform and, on Windows, on the path's prefix.
#[verifier::external_body]
pub(crate) fn path_file_name(path: &str) -> (r: Option<String>)
    ensures
        r matches Some(n) ==> is_final_component_of(path@, n@),
        plainly_named(path@) ==> r is Some,
{
    match std::path::Path::new(path).file_name() {
        Some(n) => Some(n.to_string_lossy().to_string()),
        None => None,
    }
}

/// Whether `e` is an extension of `path` as `Path::extension` finds one: it
/// follows a `.` that is not the first character of the path, holds no `.`
/// (and no `/`, unless the path starts with two separators), and only
/// separators and `.` come after it.
pub open spec fn is_extension_of(path: Seq<char>, e: Seq<char>) -> bool {
    &&& !e.contains('.')
    &&& (!starts_with_two_separators(path) ==> !e.contains('/'))
    &&& exists|k: int| #[trigger] is_extension_dot(path, e, k)
}

/// Whether the `.` at `k` of `path` starts the extension `e`: it is not the
/// first character of its component, so no `/` stands right before it
/// (unless the path starts with two separators).
pub open spec fn is_extension_dot(path: Seq<char>, e: Seq<char>, k: int) -> bool {
    &&& 0 < k
    &&& k + 1 + e.len() <= path.len()
    &&& path[k] == '.'
    &&& (!starts_with_two_separators(path) ==> path[k - 1] != '/')
    &&& path.subrange(k + 1, k + 1 + e.len()) == e
    &&& forall|j: int| k + 1 + e.len() <= j < path.len() ==> ends_component(#[trigger] path[j])
}

/// Whether the `.` at `k` of `path` starts its extension on every platform:
/// the path does not start with two separators, the `.` is the last one and
/// no separator comes after it, and what stands right before it is neither a
/// separator nor a `:` (so the `.` is not the first character of its
/// component), nor, at the very end of the path, a second `.`.
pub open spec fn is_extension_start(path: Seq<char>, k: int) -> bool {
    &&& !starts_with_two_separators(path)
    &&& 0 < k < path.len()
    &&& path[k] == '.'
    &&& !is_separator(path[k - 1])
    &&& path[k - 1] != ':'
    &&& !(k + 1 == path.len() && path[k - 1] == '.')
    &&& forall|j: int| k < j < path.len() ==> #[trigger] path[j] != '.' && !is_separator(path[j])
}

/// Whether the final component of `path` plainly holds no `.` on every
/// platform: the path does not start with two separators nor end in one, and
/// some `/` in it has no `.` after it.
pub open spec fn has_dotless_tail(path: Seq<char>) -> bool {
    &&& !starts_with_two_separators(path)
    &&& path.len() > 0
    &&& !is_separator(path.last())
    &&& exists|j: int|
        0 <= j < path.len() && #[trigger] path[j] == '/' && forall|m: int|
            j < m < path.len() ==> path[m] != '.'
}

/// The text of an optional string.
pub open spec fn text_option(o: Option<String>) -> Option<Seq<char>> {
    match o {
        Some(s) => Some(s@),
        None => None,
    }
}

/// What `Path::extension` gives for `path`: an extension as
/// `is_extension_of` says; where a `.` starts it on every platform, the text
/// after that `.`; and none where the path holds no `.`, or its final
/// component plainly holds none.
pub open spec fn extension_fits(path: Seq<char>, r: Option<Seq<char>>) -> bool {
    &&& r matches Some(e) ==> is_extension_of(path, e)
    &&& forall|k: int| #[trigger] is_extension_start(path, k) ==> r == Some(
        path.subrange(k + 1, path.len() as int),
    )
    &&& (!path.contains('.') || has_dotless_tail(path)) ==> r is None
}

/// `Path::extension`, taken as text. Stated of it: what `extension_fits`
/// says. Not stated: the extension of a path whose last `.` has a separator
/// after it (but where the final component plainly holds no `.`) or right
/// before it, or that starts with two separators. Some of these depend on the
/// platform (`\` separates only on Windows, `/` not after a verbatim prefix).
#[verifier::external_body]
pub(crate) fn path_extension(path: &str) -> (r: Option<String>)
    ensures
        extension_fits(path@, text_option(r)),
{
    match std::path::Path::new(path).extension() {
        Some(e) => Some(e.to_string_lossy().to_string()),
        None => None,
    }
}

/// ASCII lower case of `c`; other characters are left as they are.
pub open spec fn ascii_lower(c: char) -> char {
    if 'A' <= c && c <= 'Z' {
        ((c as u32) + 32) as char
    } else {
        c
    }
}

/// Whether `a` and `b` are equal ignoring ASCII case (for an ASCII `b` this is
/// what `OsStr::eq_ignore_ascii_case` computes on their bytes).
pub open spec fn eq_ignore_ascii_case(a: Seq<char>, b: Seq<char>) -> bool {
    &&& a.len() == b.len()
    &&& forall|i: int| 0 <= i < a.len() ==> ascii_lower(#[trigger] a[i]) == ascii_lower(b[i])
}

/// Whether `ext` is `pdf` in any ASCII case.
pub fn is_pdf_extension(ext: &str) -> (b: bool)
    ensures
        b == eq_ignore_ascii_case(ext@, "pdf"@),
{
    proof {
        reveal_strlit("pdf");
    }
    if ext.unicode_len() != 3 {
        return false;
    }
    let c0 = ext.get_char(0);
    let c1 = ext.get_char(1);
    let c2 = ext.get_char(2);
    let r = (c0 == 'p' || c0 == 'P') && (c1 == 'd' || c1 == 'D') && (c2 == 'f' || c2 == 'F');
    assert(r == eq_ignore_ascii_case(ext@, "pdf"@)) by {
        if eq_ignore_ascii_case(ext@, "pdf"@) {
            assert(ascii_lower(ext@[0]) == ascii_lower("pdf"@[0]));
            assert(ascii_lower(ext@[1]) == ascii_lower("pdf"@[1]));
            assert(ascii_lower(ext@[2]) == ascii_lower("pdf"@[2]));
        }
    }
    r
}


/// What `str::to_lowercase` gives for a text: its characters mapped to lower
/// case by the Unicode tables of the standard library.
pub uninterp spec fn unicode_lowercase(s: Seq<char>) -> Seq<char>;

/// `str::to_lowercase`. Its result is named, not written out: it follows
/// the Unicode case tables.
#[verifier::external_body]
fn to_lowercase_text(s: &str) -> (r: String)
    ensures
        r@ == unicode_lowercase(s@),
{
    s.to_lowercase()
}

/// Whether `ext` lower-cases to `pdf`.
pub fn lowercases_to_pdf(ext: &str) -> (b: bool)
    ensures
        b == (unicode_lowercase(ext@) == "pdf"@),
{
    let lower = to_lowercase_text(ext);
    let pdf = String::from_str("pdf");
    lower == pdf
}

} // verus!
