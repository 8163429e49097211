//! SubRip (`.srt`) subtitle parsing.
//!
//! Times are kept in whole milliseconds: every SRT timestamp is an integer
//! count of hours, minutes, seconds and milliseconds, so no precision is lost.

use vstd::prelude::*;
use crate::chars::{
    contains, find, find_vec, is_blank, is_ws, join, join_from, lemma_trim_end_prefix, parse_u64, parse_u64_vec,
    split, split_once, split_once_vec, split_vec, trim, trim_end, trim_end_vec, trim_vec, vec_is_blank, views,
};
use crate::text::{chars_of, string_from_chars};

verus! {

/// One subtitle cue.
#[derive(Debug, Clone, PartialEq, Eq)]
pub struct SrtCue {
    /// Start of the cue, in milliseconds.
    pub start_ms: u128,
    /// End of the cue, in milliseconds.
    pub end_ms: u128,
    /// The cue's text; several lines are joined with `\n`.
    pub text: String,
}

impl View for SrtCue {
    type V = (int, int, Seq<char>);

    open spec fn view(&self) -> (int, int, Seq<char>) {
        (self.start_ms as int, self.end_ms as int, self.text@)
    }
}

/// The views of a sequence of cues.
pub open spec fn cue_views(cues: Seq<SrtCue>) -> Seq<(int, int, Seq<char>)> {
    cues.map_values(|c: SrtCue| c@)
}

/// Why a timestamp or time range could not be read.
#[derive(Debug, Clone, PartialEq, Eq)]
pub enum TimeError {
    /// The range has no `-->` between its two timestamps.
    MissingArrow,
    /// The timestamp is not laid out as `h:m:s,ms` (or `h:m:s.ms`).
    Layout(String),
    /// The hours are not a number.
    Hour(String),
    /// The minutes are not a number.
    Minute(String),
    /// The seconds are not a number.
    Second(String),
    /// The milliseconds are not a number.
    Millis(String),
    /// Minutes or seconds reach 60, or milliseconds reach 1000.
    Component(String),
}

/// A [`TimeError`] with its timestamp text as a character sequence.
pub enum TimeErrorView {
    MissingArrow,
    Layout(Seq<char>),
    Hour(Seq<char>),
    Minute(Seq<char>),
    Second(Seq<char>),
    Millis(Seq<char>),
    Component(Seq<char>),
}

impl View for TimeError {
    type V = TimeErrorView;

    open spec fn view(&self) -> TimeErrorView {
        match self {
            TimeError::MissingArrow => TimeErrorView::MissingArrow,
            TimeError::Layout(v) => TimeErrorView::Layout(v@),
            TimeError::Hour(v) => TimeErrorView::Hour(v@),
            TimeError::Minute(v) => TimeErrorView::Minute(v@),
            TimeError::Second(v) => TimeErrorView::Second(v@),
            TimeError::Millis(v) => TimeErrorView::Millis(v@),
            TimeError::Component(v) => TimeErrorView::Component(v@),
        }
    }
}

/// Why a subtitle file could not be read; blocks are numbered from 1.
#[derive(Debug, Clone, PartialEq, Eq)]
pub enum SrtError {
    /// The block has no time range line.
    MissingTimeRange(usize),
    /// The block has a time range but no text.
    MissingText(usize),
    /// The block's time range is malformed.
    BadTimeRange(usize, TimeError),
    /// The block's end time is not after its start time.
    EndNotAfterStart(usize),
    /// The file holds no cue at all.
    NoCues,
}

/// An [`SrtError`] in terms of [`TimeErrorView`].
pub enum SrtErrorView {
    MissingTimeRange(int),
    MissingText(int),
    BadTimeRange(int, TimeErrorView),
    EndNotAfterStart(int),
    NoCues,
}

impl View for SrtError {
    type V = SrtErrorView;

    open spec fn view(&self) -> SrtErrorView {
        match self {
            SrtError::MissingTimeRange(b) => SrtErrorView::MissingTimeRange(*b as int),
            SrtError::MissingText(b) => SrtErrorView::MissingText(*b as int),
            SrtError::BadTimeRange(b, e) => SrtErrorView::BadTimeRange(*b as int, e@),
            SrtError::EndNotAfterStart(b) => SrtErrorView::EndNotAfterStart(*b as int),
            SrtError::NoCues => SrtErrorView::NoCues,
        }
    }
}

/// `s` without the byte-order marks it begins with.
pub open spec fn strip_bom(s: Seq<char>) -> Seq<char>
    decreases s.len(),
{
    if s.len() > 0 && s[0] == '\u{feff}' {
        strip_bom(s.drop_first())
    } else {
        s
    }
}

/// `s` with every `\r\n`, and then every remaining `\r`, turned into `\n`.
pub open spec fn unify_newlines(s: Seq<char>) -> Seq<char>
    decreases s.len(),
{
    if s.len() == 0 {
        s
    } else if s[0] == '\r' && s.len() > 1 && s[1] == '\n' {
        seq!['\n'] + unify_newlines(s.skip(2))
    } else if s[0] == '\r' {
        seq!['\n'] + unify_newlines(s.skip(1))
    } else {
        seq![s[0]] + unify_newlines(s.skip(1))
    }
}

/// The subtitle text with its byte-order marks dropped and line endings unified.
pub open spec fn normalize(s: Seq<char>) -> Seq<char> {
    unify_newlines(strip_bom(s))
}

/// The lines of `ls` that hold something besides whitespace, with their
/// trailing whitespace removed.
pub open spec fn clean_lines(ls: Seq<Seq<char>>) -> Seq<Seq<char>>
    decreases ls.len(),
{
    if ls.len() == 0 {
        Seq::empty()
    } else if is_blank(ls.last()) {
        clean_lines(ls.drop_last())
    } else {
        clean_lines(ls.drop_last()).push(trim_end(ls.last()))
    }
}

/// The meaningful lines of one block.
pub open spec fn block_lines(block: Seq<char>) -> Seq<Seq<char>> {
    clean_lines(split(block, seq!['\n']))
}

/// The seconds and milliseconds fields of `rest`, split at the first `,`,
/// or at the first `.` when there is no comma.
pub open spec fn split_fraction(rest: Seq<char>) -> Option<(Seq<char>, Seq<char>)> {
    match split_once(rest, seq![',']) {
        Some(p) => Some(p),
        None => split_once(rest, seq!['.']),
    }
}

/// The milliseconds a timestamp `h:m:s,ms` stands for.
pub open spec fn spec_parse_time(v: Seq<char>) -> Result<int, TimeErrorView> {
    match split_once(v, seq![':']) {
        None => Err(TimeErrorView::Layout(v)),
        Some((h, rest)) => match split_once(rest, seq![':']) {
            None => Err(TimeErrorView::Layout(v)),
            Some((m, rest2)) => match split_fraction(rest2) {
                None => Err(TimeErrorView::Layout(v)),
                Some((sec, ms)) => match parse_u64(h) {
                    None => Err(TimeErrorView::Hour(v)),
                    Some(hv) => match parse_u64(m) {
                        None => Err(TimeErrorView::Minute(v)),
                        Some(mv) => match parse_u64(sec) {
                            None => Err(TimeErrorView::Second(v)),
                            Some(sv) => match parse_u64(ms) {
                                None => Err(TimeErrorView::Millis(v)),
                                Some(msv) => if mv >= 60 || sv >= 60 || msv >= 1000 {
                                    Err(TimeErrorView::Component(v))
                                } else {
                                    Ok(((hv * 3600 + mv * 60 + sv) * 1000 + msv) as int)
                                },
                            },
                        },
                    },
                },
            },
        },
    }
}

/// The start and end, in milliseconds, of a range line `start --> end`.
pub open spec fn spec_parse_range(line: Seq<char>) -> Result<(int, int), TimeErrorView> {
    match split_once(line, "-->"@) {
        None => Err(TimeErrorView::MissingArrow),
        Some((a, b)) => match spec_parse_time(trim(a)) {
            Err(e) => Err(e),
            Ok(x) => match spec_parse_time(trim(b)) {
                Err(e) => Err(e),
                Ok(y) => Ok((x, y)),
            },
        },
    }
}

/// Index of the time range line in a block: the first line when it holds
/// `-->`, else the second (the first being the cue number).
pub open spec fn time_line_index(lines: Seq<Seq<char>>) -> int {
    if contains(lines[0], "-->"@) { 0 } else { 1 }
}

/// The cue that the non-empty block `lines`, numbered `no`, describes.
pub open spec fn spec_parse_block(lines: Seq<Seq<char>>, no: int) -> Result<(int, int, Seq<char>), SrtErrorView> {
    let t = time_line_index(lines);
    if t >= lines.len() {
        Err(SrtErrorView::MissingTimeRange(no))
    } else if t + 1 >= lines.len() {
        Err(SrtErrorView::MissingText(no))
    } else {
        match spec_parse_range(lines[t]) {
            Err(e) => Err(SrtErrorView::BadTimeRange(no, e)),
            Ok((s, e)) => if e <= s {
                Err(SrtErrorView::EndNotAfterStart(no))
            } else {
                Ok((s, e, join(lines.skip(t + 1), seq!['\n'])))
            },
        }
    }
}

/// The cues of the blocks `blocks`, read in order; the first bad block
/// decides the error. Blocks without content are passed over.
pub open spec fn spec_parse_blocks(blocks: Seq<Seq<char>>) -> Result<Seq<(int, int, Seq<char>)>, SrtErrorView>
    decreases blocks.len(),
{
    if blocks.len() == 0 {
        Ok(Seq::empty())
    } else {
        match spec_parse_blocks(blocks.drop_last()) {
            Err(e) => Err(e),
            Ok(cues) => {
                let ls = block_lines(blocks.last());
                if ls.len() == 0 {
                    Ok(cues)
                } else {
                    match spec_parse_block(ls, blocks.len() as int) {
                        Err(e) => Err(e),
                        Ok(c) => Ok(cues.push(c)),
                    }
                }
            },
        }
    }
}

/// The cues of a whole subtitle file: blocks are separated by a blank line.
pub open spec fn spec_parse_srt(content: Seq<char>) -> Result<Seq<(int, int, Seq<char>)>, SrtErrorView> {
    match spec_parse_blocks(split(normalize(content), seq!['\n', '\n'])) {
        Err(e) => Err(e),
        Ok(cues) => if cues.len() == 0 {
            Err(SrtErrorView::NoCues)
        } else {
            Ok(cues)
        },
    }
}

/// The subtitle text with its byte-order marks dropped and line endings unified.
fn normalize_vec(s: &Vec<char>) -> (r: Vec<char>)
    ensures
        r@ == normalize(s@),
{
    let mut k: usize = 0;
    assert(s@.skip(0) =~= s@);
    while k < s.len() && s[k] == '\u{feff}'
        invariant
            k <= s.len(),
            strip_bom(s@) == strip_bom(s@.skip(k as int)),
        decreases s.len() - k,
    {
        assert(s@.skip(k as int).drop_first() =~= s@.skip(k + 1));
        k += 1;
    }
    let ghost start = s@.skip(k as int);
    assert(strip_bom(start) == start);
    let mut r: Vec<char> = Vec::new();
    let mut i = k;
    while i < s.len()
        invariant
            k <= i <= s.len(),
            start == s@.skip(k as int),
            unify_newlines(start) == r@ + unify_newlines(s@.skip(i as int)),
        decreases s.len() - i,
    {
        let ghost rest = s@.skip(i as int);
        if s[i] == '\r' && i + 1 < s.len() && s[i + 1] == '\n' {
            assert(rest.skip(2) =~= s@.skip(i + 2));
            r.push('\n');
            i += 2;
        } else if s[i] == '\r' {
            assert(rest.skip(1) =~= s@.skip(i + 1));
            r.push('\n');
            i += 1;
        } else {
            assert(rest.skip(1) =~= s@.skip(i + 1));
            r.push(s[i]);
            i += 1;
        }
        assert(unify_newlines(start) =~= r@ + unify_newlines(s@.skip(i as int)));
    }
    assert(s@.skip(i as int) =~= Seq::<char>::empty());
    assert(r@ + Seq::<char>::empty() =~= r@);
    r
}

/// The lines of `ls` that hold something besides whitespace, without their
/// trailing whitespace.
fn clean_lines_vec(ls: &Vec<Vec<char>>) -> (r: Vec<Vec<char>>)
    ensures
        views(r@) == clean_lines(views(ls@)),
{
    let mut r: Vec<Vec<char>> = Vec::new();
    let mut i: usize = 0;
    while i < ls.len()
        invariant
            i <= ls.len(),
            views(r@) == clean_lines(views(ls@).take(i as int)),
        decreases ls.len() - i,
    {
        let ghost pre = views(ls@).take(i as int);
        let ghost next = views(ls@).take(i + 1);
        assert(next.drop_last() =~= pre);
        assert(next.last() == ls@[i as int]@);
        if !vec_is_blank(&ls[i]) {
            let t = trim_end_vec(&ls[i]);
            let ghost prev = views(r@);
            let ghost tv = t@;
            r.push(t);
            assert(views(r@) =~= prev.push(tv));
        }
        i += 1;
    }
    assert(views(ls@).take(ls.len() as int) =~= views(ls@));
    r
}

/// The milliseconds the timestamp `v` stands for.
fn parse_time_vec(v: &Vec<char>) -> (r: Result<u128, TimeError>)
    ensures
        r is Ok <==> spec_parse_time(v@) is Ok,
        r matches Ok(x) ==> spec_parse_time(v@) == Ok::<int, TimeErrorView>(x as int),
        r matches Err(e) ==> spec_parse_time(v@) == Err::<int, TimeErrorView>(e@),
{
    let colon = vec![':'];
    let comma = vec![','];
    let dot = vec!['.'];
    assert(colon@ =~= seq![':']);
    assert(comma@ =~= seq![',']);
    assert(dot@ =~= seq!['.']);
    let (h, rest) = match split_once_vec(v, &colon) {
        Some(p) => p,
        None => return Err(TimeError::Layout(string_from_chars(v))),
    };
    let (m, rest2) = match split_once_vec(&rest, &colon) {
        Some(p) => p,
        None => return Err(TimeError::Layout(string_from_chars(v))),
    };
    let (sec, ms) = match split_once_vec(&rest2, &comma) {
        Some(p) => p,
        None => match split_once_vec(&rest2, &dot) {
            Some(p) => p,
            None => return Err(TimeError::Layout(string_from_chars(v))),
        },
    };
    assert(split_fraction(rest2@) == Some((sec@, ms@)));
    let hv = match parse_u64_vec(&h) {
        Some(x) => x,
        None => return Err(TimeError::Hour(string_from_chars(v))),
    };
    let mv = match parse_u64_vec(&m) {
        Some(x) => x,
        None => return Err(TimeError::Minute(string_from_chars(v))),
    };
    let sv = match parse_u64_vec(&sec) {
        Some(x) => x,
        None => return Err(TimeError::Second(string_from_chars(v))),
    };
    let msv = match parse_u64_vec(&ms) {
        Some(x) => x,
        None => return Err(TimeError::Millis(string_from_chars(v))),
    };
    if mv >= 60 || sv >= 60 || msv >= 1000 {
        return Err(TimeError::Component(string_from_chars(v)));
    }
    assert((hv as u128) * 3600 <= 18446744073709551615u128 * 3600) by (nonlinear_arith)
        requires hv <= 18446744073709551615u64;
    let total: u128 = ((hv as u128) * 3600 + (mv as u128) * 60 + (sv as u128)) * 1000 + (msv as u128);
    Ok(total)
}

/// The start and end, in milliseconds, of the range line `line`.
fn parse_range_vec(line: &Vec<char>) -> (r: Result<(u128, u128), TimeError>)
    ensures
        r is Ok <==> spec_parse_range(line@) is Ok,
        r matches Ok((a, b)) ==> spec_parse_range(line@) == Ok::<(int, int), TimeErrorView>((a as int, b as int)),
        r matches Err(e) ==> spec_parse_range(line@) == Err::<(int, int), TimeErrorView>(e@),
{
    let arrow = chars_of("-->");
    let (a, b) = match split_once_vec(line, &arrow) {
        Some(p) => p,
        None => return Err(TimeError::MissingArrow),
    };
    let x = parse_time_vec(&trim_vec(&a))?;
    let y = parse_time_vec(&trim_vec(&b))?;
    Ok((x, y))
}

/// The cue described by the non-empty block `lines`, numbered `no`.
fn parse_block_vec(lines: &Vec<Vec<char>>, no: usize) -> (r: Result<SrtCue, SrtError>)
    requires
        lines.len() > 0,
    ensures
        r is Ok <==> spec_parse_block(views(lines@), no as int) is Ok,
        r matches Ok(c) ==> spec_parse_block(views(lines@), no as int) == Ok::<(int, int, Seq<char>), SrtErrorView>(c@),
        r matches Err(e) ==> spec_parse_block(views(lines@), no as int) == Err::<(int, int, Seq<char>), SrtErrorView>(e@),
{
    let arrow = chars_of("-->");
    let ghost ls = views(lines@);
    assert(ls[0] == lines@[0]@);
    let t: usize = if find_vec(&lines[0], &arrow).is_some() { 0 } else { 1 };
    assert(t as int == time_line_index(ls));
    if t >= lines.len() {
        return Err(SrtError::MissingTimeRange(no));
    }
    if t + 1 >= lines.len() {
        return Err(SrtError::MissingText(no));
    }
    assert(ls[t as int] == lines@[t as int]@);
    let (start, end) = match parse_range_vec(&lines[t]) {
        Ok(p) => p,
        Err(e) => return Err(SrtError::BadTimeRange(no, e)),
    };
    if end <= start {
        return Err(SrtError::EndNotAfterStart(no));
    }
    let nl = vec!['\n'];
    assert(nl@ =~= seq!['\n']);
    let text = join_from(lines, t + 1, &nl);
    Ok(SrtCue { start_ms: start, end_ms: end, text: string_from_chars(&text) })
}

/// Parses the text of a subtitle file into its cues.
///
/// A leading byte-order mark is ignored and `\r\n` or `\r` line endings are
/// read as `\n`. Blocks are separated by a blank line; in each block, lines
/// holding only whitespace are ignored, the time range is the first line when
/// it holds `-->` and the second line otherwise, and the remaining lines are
/// the text.
pub fn parse_srt_content(content: &str) -> (r: Result<Vec<SrtCue>, SrtError>)
    ensures
        r is Ok <==> spec_parse_srt(content@) is Ok,
        r matches Ok(v) ==> spec_parse_srt(content@) == Ok::<Seq<(int, int, Seq<char>)>, SrtErrorView>(cue_views(v@)),
        r matches Err(e) ==> spec_parse_srt(content@) == Err::<Seq<(int, int, Seq<char>)>, SrtErrorView>(e@),
        r matches Ok(v) ==> v.len() >= 1 && forall|i: int| 0 <= i < v.len() ==> v[i].start_ms < #[trigger] v[i].end_ms,
        r matches Ok(v) ==> forall|i: int| 0 <= i < v.len() ==> (#[trigger] v[i]).text@.len() > 0,
{
    let cs = chars_of(content);
    let n = normalize_vec(&cs);
    let sep = vec!['\n', '\n'];
    assert(sep@ =~= seq!['\n', '\n']);
    let blocks = split_vec(&n, &sep);
    let nl = vec!['\n'];
    assert(nl@ =~= seq!['\n']);
    let mut cues: Vec<SrtCue> = Vec::new();
    let mut i: usize = 0;
    assert(views(blocks@).take(0) =~= Seq::<Seq<char>>::empty());
    assert(cue_views(cues@) =~= Seq::<(int, int, Seq<char>)>::empty());
    while i < blocks.len()
        invariant
            i <= blocks.len(),
            nl@ == seq!['\n'],
            views(blocks@) == split(normalize(content@), seq!['\n', '\n']),
            spec_parse_blocks(views(blocks@).take(i as int)) == Ok::<Seq<(int, int, Seq<char>)>, SrtErrorView>(cue_views(cues@)),
            forall|j: int| 0 <= j < cues.len() ==> cues[j].start_ms < #[trigger] cues[j].end_ms,
        decreases blocks.len() - i,
    {
        let ghost pre = views(blocks@).take(i as int);
        let ghost next = views(blocks@).take(i + 1);
        assert(next.drop_last() =~= pre);
        assert(next.last() == blocks@[i as int]@);
        let pieces = split_vec(&blocks[i], &nl);
        let lines = clean_lines_vec(&pieces);
        if lines.len() > 0 {
            let no = i + 1;
            match parse_block_vec(&lines, no) {
                Ok(c) => {
                    let ghost prev = cue_views(cues@);
                    let ghost cv = c@;
                    cues.push(c);
                    assert(cue_views(cues@) =~= prev.push(cv));
                },
                Err(e) => {
                    proof {
                        assert(block_lines(next.last()) == views(lines@));
                        assert(spec_parse_blocks(next) == Err::<Seq<(int, int, Seq<char>)>, SrtErrorView>(e@));
                        assert(next == views(blocks@).take(i + 1));
                        lemma_parse_blocks_err_sticky(views(blocks@), i as int + 1);
                    }
                    return Err(e);
                },
            }
        }
        i += 1;
    }
    assert(views(blocks@).take(blocks.len() as int) =~= views(blocks@));
    if cues.len() == 0 {
        return Err(SrtError::NoCues);
    }
    proof {
        lemma_srt_cue_text_nonempty(content@);
        assert forall|j: int| 0 <= j < cues.len() implies (#[trigger] cues[j]).text@.len() > 0 by {
            assert(cue_views(cues@)[j] == cues[j]@);
        }
    }
    Ok(cues)
}

/// Once a prefix of the blocks fails, the whole sequence fails the same way.
proof fn lemma_parse_blocks_err_sticky(blocks: Seq<Seq<char>>, k: int)
    requires
        0 <= k <= blocks.len(),
        spec_parse_blocks(blocks.take(k)) is Err,
    ensures
        spec_parse_blocks(blocks) == spec_parse_blocks(blocks.take(k)),
    decreases blocks.len() - k,
{
    if k == blocks.len() {
        assert(blocks.take(k) =~= blocks);
    } else {
        assert(blocks.take(k + 1).drop_last() =~= blocks.take(k));
        lemma_parse_blocks_err_sticky(blocks, k + 1);
    }
}


/// The lines `clean_lines` keeps are never empty.
proof fn lemma_clean_lines_nonempty(ls: Seq<Seq<char>>)
    ensures
        forall|i: int| 0 <= i < clean_lines(ls).len() ==> (#[trigger] clean_lines(ls)[i]).len() > 0,
    decreases ls.len(),
{
    if ls.len() > 0 {
        lemma_clean_lines_nonempty(ls.drop_last());
        if !is_blank(ls.last()) {
            let x = ls.last();
            lemma_trim_end_prefix(x);
            if trim_end(x).len() == 0 {
                assert(forall|i: int| 0 <= i < x.len() ==> is_ws(#[trigger] x[i]));
                assert(is_blank(x));
            }
            let prev = clean_lines(ls.drop_last());
            assert(clean_lines(ls) == prev.push(trim_end(x)));
            assert forall|i: int| 0 <= i < clean_lines(ls).len() implies (#[trigger] clean_lines(ls)[i]).len() > 0 by {
                if i < prev.len() {
                    assert(clean_lines(ls)[i] == prev[i]);
                }
            }
        }
    }
}

/// Pieces whose last one is not empty join to a non-empty text.
proof fn lemma_join_nonempty(pieces: Seq<Seq<char>>, sep: Seq<char>)
    requires
        pieces.len() > 0,
        pieces.last().len() > 0,
    ensures
        join(pieces, sep).len() > 0,
{
}

/// Every cue the blocks yield has a text.
proof fn lemma_blocks_text_nonempty(blocks: Seq<Seq<char>>)
    ensures
        spec_parse_blocks(blocks) matches Ok(cues) ==> forall|i: int| 0 <= i < cues.len() ==> (#[trigger] cues[i]).2.len() > 0,
    decreases blocks.len(),
{
    if blocks.len() > 0 {
        lemma_blocks_text_nonempty(blocks.drop_last());
        let ls = block_lines(blocks.last());
        lemma_clean_lines_nonempty(split(blocks.last(), seq!['\n']));
        if ls.len() > 0 {
            let t = time_line_index(ls);
            if t + 1 < ls.len() {
                let rest = ls.skip(t + 1);
                assert(rest.last() == ls[ls.len() - 1]);
                lemma_join_nonempty(rest, seq!['\n']);
            }
        }
    }
}

/// Every cue a subtitle file yields has a non-empty text.
pub proof fn lemma_srt_cue_text_nonempty(content: Seq<char>)
    ensures
        spec_parse_srt(content) matches Ok(cues) ==> forall|i: int| 0 <= i < cues.len() ==> (#[trigger] cues[i]).2.len() > 0,
{
    lemma_blocks_text_nonempty(split(normalize(content), seq!['\n', '\n']));
}

/// `s` with every `\n` written as `\r\n`, as a file saved with Windows
/// line endings holds it.
pub open spec fn crlf_lines(s: Seq<char>) -> Seq<char>
    decreases s.len(),
{
    if s.len() == 0 {
        s
    } else if s[0] == '\n' {
        seq!['\r', '\n'] + crlf_lines(s.skip(1))
    } else {
        seq![s[0]] + crlf_lines(s.skip(1))
    }
}

proof fn lemma_unify_crlf(s: Seq<char>)
    requires
        !s.contains('\r'),
    ensures
        unify_newlines(crlf_lines(s)) == s,
        unify_newlines(s) == s,
    decreases s.len(),
{
    if s.len() > 0 {
        let t = s.skip(1);
        assert(!t.contains('\r')) by {
            if t.contains('\r') {
                let k = choose|k: int| 0 <= k < t.len() && t[k] == '\r';
                assert(s[k + 1] == '\r');
            }
        }
        lemma_unify_crlf(t);
        assert(s[0] != '\r') by {
            assert(s.contains(s[0]) || true);
            if s[0] == '\r' {
                assert(s.contains('\r'));
            }
        }
        let c = crlf_lines(s);
        if s[0] == '\n' {
            assert(c.skip(2) =~= crlf_lines(t));
        } else {
            assert(c.skip(1) =~= crlf_lines(t));
        }
        assert(seq![s[0]] + t =~= s);
    }
}

proof fn lemma_strip_bom_crlf(s: Seq<char>)
    ensures
        strip_bom(crlf_lines(s)) == crlf_lines(strip_bom(s)),
        exists|k: int| 0 <= k <= s.len() && strip_bom(s) == s.skip(k),
    decreases s.len(),
{
    if s.len() > 0 && s[0] == '\u{feff}' {
        lemma_strip_bom_crlf(s.drop_first());
        assert(crlf_lines(s).drop_first() =~= crlf_lines(s.skip(1)));
        assert(s.drop_first() =~= s.skip(1));
        let k = choose|k: int| 0 <= k <= s.drop_first().len() && strip_bom(s.drop_first()) == s.drop_first().skip(k);
        assert(s.drop_first().skip(k) =~= s.skip(k + 1));
    } else {
        assert(s.skip(0) =~= s);
        if s.len() > 0 {
            assert(crlf_lines(s)[0] != '\u{feff}');
        }
    }
}

/// Line endings do not matter: a subtitle file saved with `\r\n` line
/// endings reads exactly as the same file saved with `\n`.
pub proof fn lemma_srt_crlf_same(content: Seq<char>)
    requires
        !content.contains('\r'),
    ensures
        spec_parse_srt(crlf_lines(content)) == spec_parse_srt(content),
{
    lemma_strip_bom_crlf(content);
    let b = strip_bom(content);
    let k = choose|k: int| 0 <= k <= content.len() && b == content.skip(k);
    assert(!b.contains('\r')) by {
        if b.contains('\r') {
            let j = choose|j: int| 0 <= j < b.len() && b[j] == '\r';
            assert(content[k + j] == '\r');
        }
    }
    lemma_unify_crlf(b);
    assert(normalize(crlf_lines(content)) == normalize(content));
}


/// The blocks of a subtitle file.
pub open spec fn srt_blocks(content: Seq<char>) -> Seq<Seq<char>> {
    split(normalize(content), seq!['\n', '\n'])
}

/// A block that holds something but no valid cue makes the file fail:
/// parsing stops with an error.
pub proof fn lemma_srt_bad_block_fails(content: Seq<char>, k: int)
    requires
        0 <= k < srt_blocks(content).len(),
        block_lines(srt_blocks(content)[k]).len() > 0,
        spec_parse_block(block_lines(srt_blocks(content)[k]), k + 1) is Err,
    ensures
        spec_parse_srt(content) is Err,
{
    let blocks = srt_blocks(content);
    let pre = blocks.take(k + 1);
    assert(pre.drop_last() =~= blocks.take(k));
    assert(pre.last() == blocks[k]);
    assert(spec_parse_blocks(pre) is Err);
    lemma_parse_blocks_err_sticky(blocks, k + 1);
}

/// The blocks `idx` points at, in increasing order, are those the cues come
/// from: cue `i` is what block `idx[i]` describes.
pub open spec fn cues_from_blocks(blocks: Seq<Seq<char>>, cues: Seq<(int, int, Seq<char>)>, idx: Seq<int>) -> bool {
    &&& idx.len() == cues.len()
    &&& forall|i: int, j: int| 0 <= i < j < idx.len() ==> #[trigger] idx[i] < #[trigger] idx[j]
    &&& forall|i: int| 0 <= i < idx.len() ==> 0 <= #[trigger] idx[i] < blocks.len()
        && spec_parse_block(block_lines(blocks[idx[i]]), idx[i] + 1) == Ok::<(int, int, Seq<char>), SrtErrorView>(cues[i])
}

proof fn lemma_blocks_in_order(blocks: Seq<Seq<char>>) -> (idx: Seq<int>)
    requires
        spec_parse_blocks(blocks) is Ok,
    ensures
        cues_from_blocks(blocks, spec_parse_blocks(blocks)->Ok_0, idx),
    decreases blocks.len(),
{
    if blocks.len() == 0 {
        Seq::empty()
    } else {
        let d = blocks.drop_last();
        let prev = lemma_blocks_in_order(d);
        let cues0 = spec_parse_blocks(d)->Ok_0;
        assert forall|i: int| 0 <= i < prev.len() implies 0 <= #[trigger] prev[i] < blocks.len()
            && spec_parse_block(block_lines(blocks[prev[i]]), prev[i] + 1) == Ok::<(int, int, Seq<char>), SrtErrorView>(cues0[i]) by {
            assert(blocks[prev[i]] == d[prev[i]]);
        }
        let ls = block_lines(blocks.last());
        if ls.len() == 0 {
            prev
        } else {
            let n = blocks.len() - 1;
            let idx = prev.push(n);
            let cues = spec_parse_blocks(blocks)->Ok_0;
            assert(cues == cues0.push(spec_parse_block(ls, blocks.len() as int)->Ok_0));
            assert forall|i: int| 0 <= i < idx.len() implies 0 <= #[trigger] idx[i] < blocks.len()
                && spec_parse_block(block_lines(blocks[idx[i]]), idx[i] + 1) == Ok::<(int, int, Seq<char>), SrtErrorView>(cues[i]) by {
                if i < prev.len() {
                    assert(idx[i] == prev[i]);
                }
            }
            assert forall|i: int, j: int| 0 <= i < j < idx.len() implies #[trigger] idx[i] < #[trigger] idx[j] by {
                if j < prev.len() {
                    assert(idx[i] == prev[i] && idx[j] == prev[j]);
                } else {
                    assert(idx[i] == prev[i]);
                }
            }
            idx
        }
    }
}

/// The cues of a subtitle file keep the order of its blocks: each cue is
/// what one block describes, and later cues come from later blocks.
pub proof fn lemma_srt_cues_in_block_order(content: Seq<char>)
    requires
        spec_parse_srt(content) is Ok,
    ensures
        exists|idx: Seq<int>| #[trigger] cues_from_blocks(srt_blocks(content), spec_parse_srt(content)->Ok_0, idx),
{
    let idx = lemma_blocks_in_order(srt_blocks(content));
    assert(cues_from_blocks(srt_blocks(content), spec_parse_srt(content)->Ok_0, idx));
}


proof fn lemma_find_separator(a: Seq<char>, c: char, b: Seq<char>)
    requires
        !a.contains(c),
    ensures
        find(a + seq![c] + b, seq![c]) == Some(a.len() as int),
        split_once(a + seq![c] + b, seq![c]) == Some((a, b)),
    decreases a.len(),
{
    let s = a + seq![c] + b;
    if a.len() == 0 {
        assert(s.take(1) =~= seq![c]);
    } else {
        assert(a[0] != c) by {
            if a[0] == c {
                assert(a.contains(c));
            }
        }
        assert(s.take(1)[0] == a[0]);
        assert(!a.skip(1).contains(c)) by {
            if a.skip(1).contains(c) {
                let k = choose|k: int| 0 <= k < a.skip(1).len() && a.skip(1)[k] == c;
                assert(a[k + 1] == c);
            }
        }
        lemma_find_separator(a.skip(1), c, b);
        assert(s.skip(1) =~= a.skip(1) + seq![c] + b);
    }
    assert(s.take(a.len() as int) =~= a);
    assert(s.skip(a.len() as int + 1) =~= b);
}

/// A timestamp `h:m:s,ms` stands for `h` hours, `m` minutes, `s` seconds
/// and `ms` milliseconds: it reads as `((h * 3600 + m * 60 + s) * 1000 +
/// ms)` milliseconds, whenever each field is a number and minutes, seconds
/// and milliseconds are within their ranges.
pub proof fn lemma_srt_time_value(h: Seq<char>, m: Seq<char>, sec: Seq<char>, ms: Seq<char>)
    requires
        !h.contains(':'),
        !m.contains(':'),
        !sec.contains(','),
        parse_u64(h) is Some,
        parse_u64(m) is Some,
        parse_u64(sec) is Some,
        parse_u64(ms) is Some,
        parse_u64(m)->Some_0 < 60,
        parse_u64(sec)->Some_0 < 60,
        parse_u64(ms)->Some_0 < 1000,
    ensures
        spec_parse_time(h + seq![':'] + m + seq![':'] + sec + seq![','] + ms) == Ok::<int, TimeErrorView>(
            ((parse_u64(h)->Some_0 * 3600 + parse_u64(m)->Some_0 * 60 + parse_u64(sec)->Some_0) * 1000 + parse_u64(ms)->Some_0) as int,
        ),
{
    let rest2 = sec + seq![','] + ms;
    let rest = m + seq![':'] + rest2;
    let v = h + seq![':'] + rest;
    assert(h + seq![':'] + m + seq![':'] + sec + seq![','] + ms =~= v);
    lemma_find_separator(h, ':', rest);
    lemma_find_separator(m, ':', rest2);
    lemma_find_separator(sec, ',', ms);
}

} // verus!
