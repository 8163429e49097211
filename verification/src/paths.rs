//! Checks and clean-ups of the relative paths and names a bundle may carry.

use vstd::prelude::*;
use crate::chars::{is_ws, char_is_ws, split, split_vec, trim, trim_vec, views};
use crate::text::{chars_of, string_from_chars};

verus! {

broadcast use vstd::string::group_string_axioms;

/// Why a relative path inside a bundle was refused; each variant carries the
/// label that names the path in messages.
#[derive(Debug, PartialEq, Eq)]
pub enum PathError {
    /// The path is empty or whitespace only.
    Empty(String),
    /// The path uses `\` as separator.
    Backslash(String),
    /// The path is absolute.
    Absolute(String),
    /// A segment is empty, `.` or `..`.
    BadSegment(String),
}

/// Which check a relative path failed.
pub enum PathErrorKind {
    Empty,
    Backslash,
    Absolute,
    BadSegment,
}

impl PathError {
    /// The label carried by the error.
    pub open spec fn label_view(&self) -> Seq<char> {
        match self {
            PathError::Empty(l) => l@,
            PathError::Backslash(l) => l@,
            PathError::Absolute(l) => l@,
            PathError::BadSegment(l) => l@,
        }
    }

    /// The check the path failed.
    pub open spec fn kind(&self) -> PathErrorKind {
        match self {
            PathError::Empty(_) => PathErrorKind::Empty,
            PathError::Backslash(_) => PathErrorKind::Backslash,
            PathError::Absolute(_) => PathErrorKind::Absolute,
            PathError::BadSegment(_) => PathErrorKind::BadSegment,
        }
    }
}

/// A segment that a bundle path may not hold: empty, `.` or `..`.
pub open spec fn bad_segment(seg: Seq<char>) -> bool {
    seg.len() == 0 || seg == seq!['.'] || seg == seq!['.', '.']
}

/// The check a relative bundle path fails first, given whether the platform
/// considers it absolute; `None` when it passes every check.
pub open spec fn relative_path_failure(value: Seq<char>, absolute: bool) -> Option<PathErrorKind> {
    if trim(value).len() == 0 {
        Some(PathErrorKind::Empty)
    } else if value.contains('\\') {
        Some(PathErrorKind::Backslash)
    } else if absolute {
        Some(PathErrorKind::Absolute)
    } else if exists|i: int| 0 <= i < split(value, seq!['/']).len() && bad_segment(#[trigger] split(value, seq!['/'])[i]) {
        Some(PathErrorKind::BadSegment)
    } else {
        None
    }
}

/// An ASCII letter, as a drive letter is.
pub open spec fn is_ascii_letter(c: char) -> bool {
    ('a' <= c && c <= 'z') || ('A' <= c && c <= 'Z')
}

/// Whether some platform may consider `p` absolute: on Unix an absolute path
/// begins with `/`; on Windows it has a prefix, which begins with two
/// separators (`\` or `/`) or is a drive letter followed by `:`.
pub open spec fn maybe_absolute(p: Seq<char>) -> bool {
    (p.len() > 0 && (p[0] == '/' || p[0] == '\\')) || (p.len() >= 2 && is_ascii_letter(p[0]) && p[1] == ':')
}

/// Whether the platform considers `value` an absolute path.
///
/// Trusted: calls `camino::Utf8Path::is_absolute`, which defers to
/// `std::path::Path::is_absolute`. Its answer depends on the platform, so the
/// contract only states what holds on every platform: an absolute path begins
/// with `/` (Unix) or has a Windows prefix (which begins with `\` or `/`, or
/// is an ASCII letter and `:`); which of those paths are absolute is left
/// unsaid.
#[verifier::external_body]
pub(crate) fn path_is_absolute(value: &str) -> (r: bool)
    ensures
        r ==> maybe_absolute(value@),
{
    camino::Utf8Path::new(value).is_absolute()
}

/// Checks a relative path of a bundle, `absolute` telling whether the
/// platform considers it absolute.
pub fn check_relative_path(label: &str, value: &str, absolute: bool) -> (r: Result<(), PathError>)
    ensures
        match relative_path_failure(value@, absolute) {
            None => r is Ok,
            Some(k) => r matches Err(e) && e.kind() == k && e.label_view() == label@,
        },
{
    let v = chars_of(value);
    let t = trim_vec(&v);
    if t.len() == 0 {
        return Err(PathError::Empty(label.to_string()));
    }
    let mut i: usize = 0;
    while i < v.len()
        invariant
            i <= v.len(),
            v@ == value@,
            trim(value@).len() != 0,
            forall|j: int| 0 <= j < i ==> v@[j] != '\\',
        decreases v.len() - i,
    {
        if v[i] == '\\' {
            assert(value@.contains('\\')) by { assert(v@[i as int] == '\\'); }
            return Err(PathError::Backslash(label.to_string()));
        }
        i += 1;
    }
    assert(!value@.contains('\\'));
    if absolute {
        return Err(PathError::Absolute(label.to_string()));
    }
    let slash = vec!['/'];
    assert(slash@ =~= seq!['/']);
    let segs = split_vec(&v, &slash);
    let mut k: usize = 0;
    while k < segs.len()
        invariant
            k <= segs.len(),
            trim(value@).len() != 0,
            !value@.contains('\\'),
            !absolute,
            views(segs@) == split(value@, seq!['/']),
            forall|j: int| 0 <= j < k ==> !bad_segment(#[trigger] split(value@, seq!['/'])[j]),
        decreases segs.len() - k,
    {
        let seg = &segs[k];
        assert(seg@ == split(value@, seq!['/'])[k as int]);
        let bad = seg.len() == 0 || (seg.len() == 1 && seg[0] == '.') || (seg.len() == 2 && seg[0] == '.' && seg[1] == '.');
        if bad {
            assert(bad_segment(seg@)) by {
                if seg.len() == 1 { assert(seg@ =~= seq!['.']); }
                if seg.len() == 2 { assert(seg@ =~= seq!['.', '.']); }
            }
            assert(bad_segment(split(value@, seq!['/'])[k as int]));
            return Err(PathError::BadSegment(label.to_string()));
        }
        assert(!bad_segment(seg@)) by {
            if seg@ == seq!['.'] { assert(seg@.len() == 1); }
            if seg@ == seq!['.', '.'] { assert(seg@.len() == 2); }
        }
        k += 1;
    }
    Ok(())
}

/// Checks a relative path of a bundle: it must not be blank, must use `/` as
/// separator, must not be absolute, and no segment may be empty, `.` or `..`.
pub fn validate_simple_relative_path(label: &str, value: &str) -> (r: Result<(), PathError>)
    ensures
        relative_path_failure(value@, false) is Some ==> r is Err,
        r is Ok ==> relative_path_failure(value@, false) is None,
        relative_path_failure(value@, false) is None && !maybe_absolute(value@) ==> r is Ok,
        r matches Err(e) ==> e.label_view() == label@,
{
    let absolute = path_is_absolute(value);
    check_relative_path(label, value, absolute)
}

/// A character a downloaded file name may keep as is.
pub open spec fn file_name_safe(c: char) -> bool {
    ('a' as u32 <= c as u32 <= 'z' as u32) || ('A' as u32 <= c as u32 <= 'Z' as u32) || ('0' as u32
        <= c as u32 <= '9' as u32) || c == '.' || c == '_' || c == '-'
}

/// `c`, or `_` when a file name may not hold it.
pub open spec fn file_name_char(c: char) -> char {
    if file_name_safe(c) { c } else { '_' }
}

/// A file name made of safe characters; an empty name becomes `asset.bin`.
pub open spec fn spec_sanitize_file_name(name: Seq<char>) -> Seq<char> {
    if name.len() == 0 {
        "asset.bin"@
    } else {
        name.map_values(|c: char| file_name_char(c))
    }
}

fn char_file_name_safe(c: char) -> (r: bool)
    ensures
        r == file_name_safe(c),
{
    let u = c as u32;
    (97 <= u && u <= 122) || (65 <= u && u <= 90) || (48 <= u && u <= 57) || c == '.' || c == '_' || c
        == '-'
}

/// Replaces every character outside `[A-Za-z0-9._-]` with `_`; an empty name
/// becomes `asset.bin`.
pub fn sanitize_file_name(name: &str) -> (r: String)
    ensures
        r@ == spec_sanitize_file_name(name@),
{
    let v = chars_of(name);
    if v.len() == 0 {
        return "asset.bin".to_string();
    }
    let mut out: Vec<char> = Vec::new();
    let mut i: usize = 0;
    while i < v.len()
        invariant
            i <= v.len(),
            out@ =~= v@.take(i as int).map_values(|c: char| file_name_char(c)),
        decreases v.len() - i,
    {
        let c = v[i];
        out.push(if char_file_name_safe(c) { c } else { '_' });
        i += 1;
    }
    assert(v@.take(v.len() as int) =~= v@);
    string_from_chars(&out)
}

/// Sanitizing a file name twice changes nothing more than sanitizing it once.
pub proof fn lemma_sanitize_file_name_idempotent(name: Seq<char>)
    ensures
        spec_sanitize_file_name(spec_sanitize_file_name(name)) == spec_sanitize_file_name(name),
{
    reveal_strlit("asset.bin");
    let once = spec_sanitize_file_name(name);
    assert(spec_sanitize_file_name(once) =~= once);
}

/// A character a directory name may not hold on common file systems.
pub open spec fn draft_name_illegal(c: char) -> bool {
    c == '\\' || c == '/' || c == ':' || c == '*' || c == '?' || c == '"' || c == '<' || c == '>'
        || c == '|'
}

/// `c`, or `_` when a directory name may not hold it.
pub open spec fn draft_name_char(c: char) -> char {
    if draft_name_illegal(c) { '_' } else { c }
}

/// `s` with each run of whitespace replaced by one `_`.
pub open spec fn squeeze_ws(s: Seq<char>) -> Seq<char>
    decreases s.len(),
{
    if s.len() == 0 {
        s
    } else if is_ws(s.last()) {
        if s.len() > 1 && is_ws(s[s.len() - 2]) {
            squeeze_ws(s.drop_last())
        } else {
            squeeze_ws(s.drop_last()).push('_')
        }
    } else {
        squeeze_ws(s.drop_last()).push(s.last())
    }
}

/// A draft directory name: the trimmed input with illegal characters turned
/// into `_` and each run of whitespace into one `_`; `imported_bundle` when
/// nothing is left.
pub open spec fn spec_sanitize_draft_name(value: Seq<char>) -> Seq<char> {
    let s = squeeze_ws(trim(value).map_values(|c: char| draft_name_char(c)));
    if s.len() == 0 {
        "imported_bundle"@
    } else {
        s
    }
}

fn char_draft_name_illegal(c: char) -> (r: bool)
    ensures
        r == draft_name_illegal(c),
{
    c == '\\' || c == '/' || c == ':' || c == '*' || c == '?' || c == '"' || c == '<' || c == '>'
        || c == '|'
}

/// Cleans a user-typed draft name into a safe directory name.
pub fn sanitize_draft_name(value: &str) -> (r: String)
    ensures
        r@ == spec_sanitize_draft_name(value@),
{
    let v = chars_of(value);
    let t = trim_vec(&v);
    let ghost mapped = trim(value@).map_values(|c: char| draft_name_char(c));
    let mut out: Vec<char> = Vec::new();
    let mut i: usize = 0;
    while i < t.len()
        invariant
            i <= t.len(),
            t@ == trim(value@),
            mapped == trim(value@).map_values(|c: char| draft_name_char(c)),
            out@ == squeeze_ws(mapped.take(i as int)),
        decreases t.len() - i,
    {
        let c = t[i];
        let m = if char_draft_name_illegal(c) { '_' } else { c };
        assert(mapped.take(i + 1).drop_last() =~= mapped.take(i as int));
        assert(mapped.take(i + 1).last() == m);
        if char_is_ws(m) {
            if !(i > 0 && char_is_ws(if char_draft_name_illegal(t[i - 1]) { '_' } else { t[i - 1] })) {
                out.push('_');
            }
        } else {
            out.push(m);
        }
        i += 1;
    }
    assert(mapped.take(t.len() as int) =~= mapped);
    if out.len() == 0 {
        return "imported_bundle".to_string();
    }
    string_from_chars(&out)
}

/// `s` holds neither whitespace nor characters a directory name may not hold.
pub open spec fn clean_draft_name(s: Seq<char>) -> bool {
    forall|i: int| 0 <= i < s.len() ==> !is_ws(#[trigger] s[i]) && !draft_name_illegal(s[i])
}

proof fn lemma_squeeze_no_ws(s: Seq<char>)
    ensures
        forall|i: int| 0 <= i < squeeze_ws(s).len() ==> !is_ws(#[trigger] squeeze_ws(s)[i]),
        (forall|i: int| 0 <= i < s.len() ==> !draft_name_illegal(#[trigger] s[i])) ==> (forall|i: int|
            0 <= i < squeeze_ws(s).len() ==> !draft_name_illegal(#[trigger] squeeze_ws(s)[i])),
        (forall|i: int| 0 <= i < s.len() ==> !is_ws(#[trigger] s[i])) ==> squeeze_ws(s) == s,
    decreases s.len(),
{
    if s.len() > 0 {
        lemma_squeeze_no_ws(s.drop_last());
        let p = squeeze_ws(s.drop_last());
        let q = squeeze_ws(s);
        assert(q == p || q == p.push('_') || (q == p.push(s.last()) && !is_ws(s.last())));
        assert forall|i: int| 0 <= i < q.len() implies !is_ws(#[trigger] q[i]) by {
            if i < p.len() {
                assert(q[i] == p[i]);
            }
        }
        if forall|i: int| 0 <= i < s.len() ==> !draft_name_illegal(#[trigger] s[i]) {
            assert(!draft_name_illegal(s[s.len() - 1]));
            assert forall|i: int| 0 <= i < s.drop_last().len() implies !draft_name_illegal(#[trigger] s.drop_last()[i]) by {
                assert(s.drop_last()[i] == s[i]);
            }
            assert forall|i: int| 0 <= i < q.len() implies !draft_name_illegal(#[trigger] q[i]) by {
                if i < p.len() {
                    assert(q[i] == p[i]);
                }
            }
        }
        if forall|i: int| 0 <= i < s.len() ==> !is_ws(#[trigger] s[i]) {
            assert(forall|i: int| 0 <= i < s.drop_last().len() ==> !is_ws(#[trigger] s.drop_last()[i])) by {
                assert forall|i: int| 0 <= i < s.drop_last().len() implies !is_ws(#[trigger] s.drop_last()[i]) by {
                    assert(s.drop_last()[i] == s[i]);
                }
            }
            assert(!is_ws(s[s.len() - 1]));
            assert(squeeze_ws(s) =~= s);
        }
    }
}

proof fn lemma_clean_trim(s: Seq<char>)
    requires
        clean_draft_name(s),
    ensures
        trim(s) == s,
{
    if s.len() > 0 {
        assert(!is_ws(s.last()));
        assert(!is_ws(s[0]));
    }
}

/// A sanitized draft name is non-empty and holds neither whitespace nor
/// characters a directory name may not hold.
pub proof fn lemma_sanitize_draft_name_clean(value: Seq<char>)
    ensures
        spec_sanitize_draft_name(value).len() > 0,
        clean_draft_name(spec_sanitize_draft_name(value)),
{
    reveal_strlit("imported_bundle");
    let mapped = trim(value).map_values(|c: char| draft_name_char(c));
    lemma_squeeze_no_ws(mapped);
    let r = spec_sanitize_draft_name(value);
    if squeeze_ws(mapped).len() == 0 {
        assert(r == "imported_bundle"@);
    }
}

/// Sanitizing a draft name twice gives the same name as sanitizing it once.
pub proof fn lemma_sanitize_draft_name_idempotent(value: Seq<char>)
    ensures
        spec_sanitize_draft_name(spec_sanitize_draft_name(value)) == spec_sanitize_draft_name(value),
{
    let once = spec_sanitize_draft_name(value);
    lemma_sanitize_draft_name_clean(value);
    lemma_clean_trim(once);
    let mapped = trim(once).map_values(|c: char| draft_name_char(c));
    assert(mapped =~= once);
    lemma_squeeze_no_ws(once);
}

} // verus!
