//! The ffmpeg concat list (`concat.txt`) of a pipeline package.

use vstd::prelude::*;
use crate::chars::{decimal, decimal_vec, slice_vec, split, split_vec, starts_with, trim, trim_vec, views};
use crate::paths::{
    check_relative_path, maybe_absolute, path_is_absolute, relative_path_failure, PathError,
    PathErrorKind,
};
use crate::srt::strip_bom;
use crate::text::{chars_of, push_str, string_from_chars};

verus! {

/// Why a concat list was refused; lines are numbered from 1.
#[derive(Debug, PartialEq, Eq)]
pub enum ConcatError {
    /// The line is not a `file` entry.
    NotFileEntry(usize),
    /// The entry's path is not enclosed in single quotes.
    Unquoted(usize),
    /// The entry's path is not an acceptable relative path.
    BadPath(usize, PathError),
    /// The list names no file.
    NoEntries,
}

/// The label that names the path on concat line `no` in messages.
pub open spec fn concat_path_label(no: nat) -> Seq<char> {
    "concat line "@ + decimal(no) + " path"@
}

/// What a concat line yields: nothing for a blank line, the quoted path of a
/// `file` entry, or the reason it is refused.
pub enum ConcatLine {
    Blank,
    Entry(Seq<char>),
    NotFileEntry,
    Unquoted,
    BadPath(PathErrorKind),
}

/// `v` enclosed in single quotes, with at least the two quotes.
pub open spec fn is_quoted(v: Seq<char>) -> bool {
    v.len() >= 2 && v[0] == '\'' && v.last() == '\''
}

/// How one concat line reads, `absolute` telling whether the platform takes
/// the entry's path for absolute (only a path that may be absolute can be).
pub open spec fn spec_concat_line(line: Seq<char>, absolute: bool) -> ConcatLine {
    let l = strip_bom(trim(line));
    if l.len() == 0 {
        ConcatLine::Blank
    } else if !starts_with(l, "file "@) {
        ConcatLine::NotFileEntry
    } else {
        let v = trim(l.skip(5));
        if !is_quoted(v) {
            ConcatLine::Unquoted
        } else {
            let inner = v.subrange(1, v.len() - 1);
            match relative_path_failure(inner, absolute && maybe_absolute(inner)) {
                Some(k) => ConcatLine::BadPath(k),
                None => ConcatLine::Entry(inner),
            }
        }
    }
}

/// A [`ConcatError`] with the failed path check in place of the error value.
pub enum ConcatErrorView {
    NotFileEntry(int),
    Unquoted(int),
    BadPath(int, PathErrorKind),
    NoEntries,
}

impl View for ConcatError {
    type V = ConcatErrorView;

    open spec fn view(&self) -> ConcatErrorView {
        match self {
            ConcatError::NotFileEntry(n) => ConcatErrorView::NotFileEntry(*n as int),
            ConcatError::Unquoted(n) => ConcatErrorView::Unquoted(*n as int),
            ConcatError::BadPath(n, e) => ConcatErrorView::BadPath(*n as int, e.kind()),
            ConcatError::NoEntries => ConcatErrorView::NoEntries,
        }
    }
}

/// The files the lines `lines` list, read in order; the first bad line decides
/// the error, `absolute[i]` answering for line `i`.
pub open spec fn spec_concat_lines(lines: Seq<Seq<char>>, absolute: Seq<bool>) -> Result<Seq<Seq<char>>, ConcatErrorView>
    decreases lines.len(),
{
    if lines.len() == 0 {
        Ok(Seq::empty())
    } else {
        match spec_concat_lines(lines.drop_last(), absolute) {
            Err(e) => Err(e),
            Ok(files) => {
                let no = lines.len() as int;
                match spec_concat_line(lines.last(), absolute[no - 1]) {
                    ConcatLine::Blank => Ok(files),
                    ConcatLine::Entry(p) => Ok(files.push(p)),
                    ConcatLine::NotFileEntry => Err(ConcatErrorView::NotFileEntry(no)),
                    ConcatLine::Unquoted => Err(ConcatErrorView::Unquoted(no)),
                    ConcatLine::BadPath(k) => Err(ConcatErrorView::BadPath(no, k)),
                }
            },
        }
    }
}

/// The files a concat list names, `absolute[i]` telling whether the platform
/// takes the path on line `i + 1` for absolute.
pub open spec fn spec_parse_concat(content: Seq<char>, absolute: Seq<bool>) -> Result<Seq<Seq<char>>, ConcatErrorView> {
    match spec_concat_lines(split(content, seq!['\n']), absolute) {
        Err(e) => Err(e),
        Ok(files) => if files.len() == 0 {
            Err(ConcatErrorView::NoEntries)
        } else {
            Ok(files)
        },
    }
}

/// The result `r` of reading a concat list is the one `spec` describes.
pub open spec fn concat_result_is(r: Result<Vec<String>, ConcatError>, spec: Result<Seq<Seq<char>>, ConcatErrorView>) -> bool {
    match r {
        Ok(v) => spec == Ok::<Seq<Seq<char>>, ConcatErrorView>(v@.map_values(|f: String| f@)),
        Err(e) => spec == Err::<Seq<Seq<char>>, ConcatErrorView>(e@),
    }
}

fn strip_bom_vec(s: &Vec<char>) -> (r: Vec<char>)
    ensures
        r@ == strip_bom(s@),
{
    let mut k: usize = 0;
    assert(s@.skip(0) =~= s@);
    while k < s.len() && s[k] == '\u{feff}'
        invariant
            k <= s.len(),
            strip_bom(s@) == strip_bom(s@.skip(k as int)),
        decreases s.len() - k,
    {
        assert(s@.skip(k as int).drop_first() =~= s@.skip(k + 1));
        k += 1;
    }
    let r = slice_vec(s, k, s.len());
    assert(r@ =~= s@.skip(k as int));
    r
}

/// How one concat line, numbered `no`, reads; `Ok(None)` for a blank line.
/// Also gives the platform's answer for the entry's path, when one was asked.
fn parse_concat_line(line: &Vec<char>, no: usize) -> (r: (Result<Option<String>, ConcatError>, Ghost<bool>))
    ensures
        match spec_concat_line(line@, r.1@) {
            ConcatLine::Blank => r.0 matches Ok(None),
            ConcatLine::Entry(p) => r.0 matches Ok(Some(f)) && f@ == p,
            ConcatLine::NotFileEntry => r.0 == Err::<Option<String>, ConcatError>(ConcatError::NotFileEntry(no)),
            ConcatLine::Unquoted => r.0 == Err::<Option<String>, ConcatError>(ConcatError::Unquoted(no)),
            ConcatLine::BadPath(k) => r.0 matches Err(ConcatError::BadPath(n, e)) && n == no && e.kind() == k
                && e.label_view() == concat_path_label(no as nat),
        },
{
    let t = trim_vec(line);
    let l = strip_bom_vec(&t);
    if l.len() == 0 {
        return (Ok(None), Ghost(false));
    }
    let file = chars_of("file ");
    proof { reveal_strlit("file "); }
    if !crate::chars::occurs_at(&l, &file, 0) {
        assert(l@.skip(0) =~= l@);
        return (Err(ConcatError::NotFileEntry(no)), Ghost(false));
    }
    assert(l@.skip(0) =~= l@);
    let rest = slice_vec(&l, 5, l.len());
    assert(rest@ =~= l@.skip(5));
    let v = trim_vec(&rest);
    if !(v.len() >= 2 && v[0] == '\'' && v[v.len() - 1] == '\'') {
        return (Err(ConcatError::Unquoted(no)), Ghost(false));
    }
    let inner = slice_vec(&v, 1, v.len() - 1);
    let inner_s = string_from_chars(&inner);
    let mut label = chars_of("concat line ");
    let mut digits = decimal_vec(no as u128);
    label.append(&mut digits);
    push_str(&mut label, " path");
    let label_s = string_from_chars(&label);
    let absolute = path_is_absolute(inner_s.as_str());
    match check_relative_path(label_s.as_str(), inner_s.as_str(), absolute) {
        Ok(()) => (Ok(Some(inner_s)), Ghost(absolute)),
        Err(e) => (Err(ConcatError::BadPath(no, e)), Ghost(absolute)),
    }
}

/// Reads the entries of a concat list: each non-blank line must be
/// `file '<relative path>'`, leading byte-order marks aside, and at least one
/// entry must be present. The platform's view of absolute paths only matters
/// for paths that begin with `/` or `\` or hold `:`.
pub fn parse_concat_content(content: &str) -> (r: Result<Vec<String>, ConcatError>)
    ensures
        exists|absolute: Seq<bool>| concat_result_is(r, spec_parse_concat(content@, absolute)),
        r matches Err(ConcatError::BadPath(n, e)) ==> e.label_view() == concat_path_label(n as nat),
{
    let cs = chars_of(content);
    let nl = vec!['\n'];
    assert(nl@ =~= seq!['\n']);
    let lines = split_vec(&cs, &nl);
    let ghost mut answers: Seq<bool> = Seq::empty();
    let mut files: Vec<String> = Vec::new();
    let mut i: usize = 0;
    assert(views(lines@).take(0) =~= Seq::<Seq<char>>::empty());
    assert(files@.map_values(|f: String| f@) =~= Seq::<Seq<char>>::empty());
    while i < lines.len()
        invariant
            i <= lines.len(),
            views(lines@) == split(content@, seq!['\n']),
            answers.len() == i,
            spec_concat_lines(views(lines@).take(i as int), answers) == Ok::<Seq<Seq<char>>, ConcatErrorView>(files@.map_values(|f: String| f@)),
        decreases lines.len() - i,
    {
        let ghost pre = views(lines@).take(i as int);
        let ghost next = views(lines@).take(i + 1);
        assert(next.drop_last() =~= pre);
        assert(next.last() == lines@[i as int]@);
        let (res, Ghost(ans)) = parse_concat_line(&lines[i], i + 1);
        let ghost next_answers = answers.push(ans);
        proof {
            lemma_concat_lines_answers_prefix(pre, answers, next_answers);
        }
        match res {
            Ok(None) => {},
            Ok(Some(f)) => {
                let ghost prev = files@.map_values(|f: String| f@);
                let ghost fv = f@;
                files.push(f);
                assert(files@.map_values(|f: String| f@) =~= prev.push(fv));
            },
            Err(e) => {
                proof {
                    assert(spec_concat_lines(next, next_answers) == Err::<Seq<Seq<char>>, ConcatErrorView>(e@));
                    let full = next_answers + Seq::new((lines.len() - i - 1) as nat, |k: int| false);
                    lemma_concat_lines_answers_prefix(next, next_answers, full);
                    lemma_concat_lines_err_sticky(views(lines@), full, i + 1);
                    assert(next == views(lines@).take(i + 1));
                    assert(concat_result_is(Err(e), spec_parse_concat(content@, full)));
                }
                return Err(e);
            },
        }
        proof {
            answers = next_answers;
        }
        i += 1;
    }
    assert(views(lines@).take(lines.len() as int) =~= views(lines@));
    if files.len() == 0 {
        assert(concat_result_is(Err(ConcatError::NoEntries), spec_parse_concat(content@, answers)));
        return Err(ConcatError::NoEntries);
    }
    assert(concat_result_is(Ok(files), spec_parse_concat(content@, answers)));
    Ok(files)
}

/// Reading a prefix of the lines only looks at the answers for those lines.
proof fn lemma_concat_lines_answers_prefix(lines: Seq<Seq<char>>, a: Seq<bool>, b: Seq<bool>)
    requires
        lines.len() <= a.len() <= b.len(),
        forall|k: int| 0 <= k < a.len() ==> a[k] == b[k],
    ensures
        spec_concat_lines(lines, a) == spec_concat_lines(lines, b),
    decreases lines.len(),
{
    if lines.len() > 0 {
        lemma_concat_lines_answers_prefix(lines.drop_last(), a, b);
    }
}

/// Once a prefix of the lines fails, the whole list fails the same way.
proof fn lemma_concat_lines_err_sticky(lines: Seq<Seq<char>>, a: Seq<bool>, k: int)
    requires
        0 <= k <= lines.len(),
        spec_concat_lines(lines.take(k), a) is Err,
    ensures
        spec_concat_lines(lines, a) == spec_concat_lines(lines.take(k), a),
    decreases lines.len() - k,
{
    if k == lines.len() {
        assert(lines.take(k) =~= lines);
    } else {
        assert(lines.take(k + 1).drop_last() =~= lines.take(k));
        lemma_concat_lines_err_sticky(lines, a, k + 1);
    }
}

} // verus!
