//! Specifications and executable counterparts of the character-sequence
//! operations the text formats rely on: Unicode whitespace, trimming,
//! splitting on a separator, searching, joining and decimal numbers.

use vstd::prelude::*;

verus! {

/// Unicode `White_Space`, the property `char::is_whitespace` tests.
pub open spec fn is_ws(c: char) -> bool {
    let u = c as u32;
    ||| 0x09 <= u <= 0x0D
    ||| u == 0x20
    ||| u == 0x85
    ||| u == 0xA0
    ||| u == 0x1680
    ||| 0x2000 <= u <= 0x200A
    ||| u == 0x2028
    ||| u == 0x2029
    ||| u == 0x202F
    ||| u == 0x205F
    ||| u == 0x3000
}

/// Whether `c` is Unicode whitespace.
pub fn char_is_ws(c: char) -> (r: bool)
    ensures
        r == is_ws(c),
{
    let u = c as u32;
    (0x09 <= u && u <= 0x0D) || u == 0x20 || u == 0x85 || u == 0xA0 || u == 0x1680 || (0x2000 <= u
        && u <= 0x200A) || u == 0x2028 || u == 0x2029 || u == 0x202F || u == 0x205F || u == 0x3000
}

/// `s` without its trailing whitespace.
pub open spec fn trim_end(s: Seq<char>) -> Seq<char>
    decreases s.len(),
{
    if s.len() > 0 && is_ws(s.last()) {
        trim_end(s.drop_last())
    } else {
        s
    }
}

/// `s` without its leading whitespace.
pub open spec fn trim_start(s: Seq<char>) -> Seq<char>
    decreases s.len(),
{
    if s.len() > 0 && is_ws(s[0]) {
        trim_start(s.drop_first())
    } else {
        s
    }
}

/// `s` without leading or trailing whitespace.
pub open spec fn trim(s: Seq<char>) -> Seq<char> {
    trim_start(trim_end(s))
}

/// Every character of `s` is whitespace.
pub open spec fn is_blank(s: Seq<char>) -> bool {
    forall|i: int| 0 <= i < s.len() ==> is_ws(#[trigger] s[i])
}

pub(crate) proof fn lemma_trim_end_prefix(s: Seq<char>)
    ensures
        trim_end(s) == s.take(trim_end(s).len() as int),
        trim_end(s).len() <= s.len(),
        forall|i: int| trim_end(s).len() <= i < s.len() ==> is_ws(#[trigger] s[i]),
        trim_end(s).len() == 0 || !is_ws(s[trim_end(s).len() - 1]),
    decreases s.len(),
{
    if s.len() > 0 && is_ws(s.last()) {
        lemma_trim_end_prefix(s.drop_last());
        assert(s.drop_last().take(trim_end(s).len() as int) =~= s.take(trim_end(s).len() as int));
        assert forall|i: int| trim_end(s).len() <= i < s.len() implies is_ws(#[trigger] s[i]) by {
            if i < s.len() - 1 {
                assert(s[i] == s.drop_last()[i]);
            }
        }
    } else {
        assert(s.take(s.len() as int) =~= s);
    }
}

proof fn lemma_trim_start_suffix(s: Seq<char>)
    ensures
        trim_start(s).len() <= s.len(),
        trim_start(s) == s.skip(s.len() - trim_start(s).len()),
        forall|i: int| 0 <= i < s.len() - trim_start(s).len() ==> is_ws(#[trigger] s[i]),
        trim_start(s).len() == 0 || !is_ws(s[s.len() - trim_start(s).len()]),
    decreases s.len(),
{
    if s.len() > 0 && is_ws(s[0]) {
        lemma_trim_start_suffix(s.drop_first());
        assert(s.drop_first().skip(s.drop_first().len() - trim_start(s).len()) =~= s.skip(
            s.len() - trim_start(s).len(),
        ));
        assert forall|i: int| 0 <= i < s.len() - trim_start(s).len() implies is_ws(#[trigger] s[i]) by {
            if i > 0 {
                assert(s[i] == s.drop_first()[i - 1]);
            }
        }
    } else {
        assert(s.skip(0) =~= s);
    }
}

/// A whitespace-only sequence trims to nothing, and only such a sequence does.
pub proof fn lemma_blank_iff_trim_empty(s: Seq<char>)
    ensures
        is_blank(s) <==> trim(s).len() == 0,
{
    lemma_trim_end_prefix(s);
    lemma_trim_start_suffix(trim_end(s));
    let e = trim_end(s);
    if trim(s).len() == 0 {
        assert forall|i: int| 0 <= i < s.len() implies is_ws(#[trigger] s[i]) by {
            if i < e.len() {
                assert(e[i] == s[i]);
            }
        }
    }
    if is_blank(s) && e.len() > 0 {
        assert(is_ws(s[e.len() - 1]));
    }
}

/// The characters of `s` up to its trailing whitespace.
pub fn trim_end_vec(s: &Vec<char>) -> (r: Vec<char>)
    ensures
        r@ == trim_end(s@),
{
    let mut n = s.len();
    assert(s@.take(n as int) =~= s@);
    while n > 0 && char_is_ws(s[n - 1])
        invariant
            n <= s.len(),
            trim_end(s@) == trim_end(s@.take(n as int)),
        decreases n,
    {
        assert(s@.take(n as int).drop_last() =~= s@.take(n - 1));
        n -= 1;
    }
    let mut r: Vec<char> = Vec::new();
    let mut i: usize = 0;
    while i < n
        invariant
            i <= n <= s.len(),
            r@ == s@.take(i as int),
        decreases n - i,
    {
        r.push(s[i]);
        assert(s@.take(i + 1) =~= s@.take(i as int).push(s@[i as int]));
        i += 1;
    }
    r
}

/// The characters of `s` without leading and trailing whitespace.
pub fn trim_vec(s: &Vec<char>) -> (r: Vec<char>)
    ensures
        r@ == trim(s@),
{
    let e = trim_end_vec(s);
    let mut k: usize = 0;
    assert(e@.skip(0) =~= e@);
    while k < e.len() && char_is_ws(e[k])
        invariant
            k <= e.len(),
            trim_start(e@) == trim_start(e@.skip(k as int)),
        decreases e.len() - k,
    {
        assert(e@.skip(k as int).drop_first() =~= e@.skip(k + 1));
        k += 1;
    }
    let mut r: Vec<char> = Vec::new();
    let mut i: usize = k;
    while i < e.len()
        invariant
            k <= i <= e.len(),
            r@ == e@.subrange(k as int, i as int),
        decreases e.len() - i,
    {
        r.push(e[i]);
        assert(e@.subrange(k as int, i + 1) =~= e@.subrange(k as int, i as int).push(e@[i as int]));
        i += 1;
    }
    assert(e@.skip(k as int) =~= e@.subrange(k as int, e.len() as int));
    r
}

/// Whether every character of `s` is whitespace.
pub fn vec_is_blank(s: &Vec<char>) -> (r: bool)
    ensures
        r == is_blank(s@),
{
    let mut i: usize = 0;
    while i < s.len()
        invariant
            i <= s.len(),
            forall|j: int| 0 <= j < i ==> is_ws(#[trigger] s@[j]),
        decreases s.len() - i,
    {
        if !char_is_ws(s[i]) {
            return false;
        }
        i += 1;
    }
    true
}

/// `s` begins with `p`.
pub open spec fn starts_with(s: Seq<char>, p: Seq<char>) -> bool {
    p.len() <= s.len() && s.take(p.len() as int) == p
}

/// The pieces of `s` between the non-overlapping occurrences of `sep`, found
/// from left to right, as `str::split` yields them.
pub open spec fn split(s: Seq<char>, sep: Seq<char>) -> Seq<Seq<char>>
    decreases s.len(),
{
    if s.len() == 0 {
        seq![Seq::<char>::empty()]
    } else if sep.len() > 0 && starts_with(s, sep) {
        seq![Seq::<char>::empty()] + split(s.skip(sep.len() as int), sep)
    } else {
        prepend(seq![s[0]], split(s.skip(1), sep))
    }
}

/// `pieces` with `c` put in front of its first piece.
pub open spec fn prepend(c: Seq<char>, pieces: Seq<Seq<char>>) -> Seq<Seq<char>> {
    pieces.update(0, c + pieces[0])
}

/// The character sequences held by a vector of character vectors.
pub open spec fn views(v: Seq<Vec<char>>) -> Seq<Seq<char>> {
    v.map_values(|x: Vec<char>| x@)
}

/// A split always has at least one piece.
pub proof fn lemma_split_nonempty(s: Seq<char>, sep: Seq<char>)
    ensures
        split(s, sep).len() >= 1,
    decreases s.len(),
{
    if s.len() == 0 {
    } else if sep.len() > 0 && starts_with(s, sep) {
        lemma_split_nonempty(s.skip(sep.len() as int), sep);
    } else {
        lemma_split_nonempty(s.skip(1), sep);
    }
}

/// Whether `p` occurs in `s` at position `i`.
pub fn occurs_at(s: &Vec<char>, p: &Vec<char>, i: usize) -> (r: bool)
    requires
        i <= s.len(),
    ensures
        r == starts_with(s@.skip(i as int), p@),
{
    if p.len() > s.len() - i {
        return false;
    }
    let mut j: usize = 0;
    while j < p.len()
        invariant
            i + p.len() <= s.len(),
            j <= p.len(),
            forall|k: int| 0 <= k < j ==> s@[i + k] == p@[k],
        decreases p.len() - j,
    {
        if s[i + j] != p[j] {
            assert(s@.skip(i as int).take(p.len() as int)[j as int] != p@[j as int]);
            return false;
        }
        j += 1;
    }
    assert(s@.skip(i as int).take(p.len() as int) =~= p@);
    true
}

/// The pieces of `s` between the occurrences of the non-empty separator `sep`.
pub fn split_vec(s: &Vec<char>, sep: &Vec<char>) -> (r: Vec<Vec<char>>)
    requires
        sep.len() > 0,
    ensures
        views(r@) == split(s@, sep@),
{
    let mut out: Vec<Vec<char>> = Vec::new();
    let mut cur: Vec<char> = Vec::new();
    let mut i: usize = 0;
    assert(s@.skip(0) =~= s@);
    proof {
        lemma_split_nonempty(s@, sep@);
        assert(prepend(Seq::<char>::empty(), split(s@, sep@)) =~= split(s@, sep@));
    }
    while i < s.len()
        invariant
            i <= s.len(),
            sep.len() > 0,
            split(s@, sep@) == views(out@) + prepend(cur@, split(s@.skip(i as int), sep@)),
        decreases s.len() - i,
    {
        let ghost rest = s@.skip(i as int);
        if occurs_at(s, sep, i) {
            proof {
                assert(rest.skip(sep.len() as int) =~= s@.skip(i + sep.len()));
                let tail = split(s@.skip(i + sep.len()), sep@);
                lemma_split_nonempty(s@.skip(i + sep.len()), sep@);
                assert(split(rest, sep@) == seq![Seq::<char>::empty()] + tail);
                assert(prepend(cur@, split(rest, sep@)) =~= seq![cur@] + prepend(
                    Seq::<char>::empty(),
                    tail,
                ));
                assert(views(out@).push(cur@) + prepend(Seq::<char>::empty(), tail)
                    =~= views(out@) + prepend(cur@, split(rest, sep@)));
            }
            let ghost prev = views(out@);
            let ghost done_view = cur@;
            let done = cur;
            out.push(done);
            cur = Vec::new();
            proof {
                assert(views(out@) =~= prev.push(done_view));
            }
            i += sep.len();
        } else {
            proof {
                assert(rest.skip(1) =~= s@.skip(i + 1));
                let tail = split(s@.skip(i + 1), sep@);
                lemma_split_nonempty(s@.skip(i + 1), sep@);
                assert(split(rest, sep@) == prepend(seq![s@[i as int]], tail));
                assert(cur@ + (seq![s@[i as int]] + tail[0]) =~= cur@.push(s@[i as int]) + tail[0]);
                assert(prepend(cur@, prepend(seq![s@[i as int]], tail)) =~= prepend(
                    cur@.push(s@[i as int]),
                    tail,
                ));
            }
            cur.push(s[i]);
            i += 1;
        }
    }
    proof {
        assert(s@.skip(i as int) =~= Seq::<char>::empty());
        assert(prepend(cur@, seq![Seq::<char>::empty()]) =~= seq![cur@]);
    }
    let ghost prev = views(out@);
    let ghost last_view = cur@;
    out.push(cur);
    proof {
        assert(views(out@) =~= prev.push(last_view));
        assert(views(out@) =~= split(s@, sep@));
    }
    out
}

/// Position of the first occurrence of `p` in `s`.
pub open spec fn find(s: Seq<char>, p: Seq<char>) -> Option<int>
    decreases s.len(),
{
    if p.len() > s.len() {
        None
    } else if starts_with(s, p) {
        Some(0)
    } else if s.len() == 0 {
        None
    } else {
        match find(s.skip(1), p) {
            Some(i) => Some(i + 1),
            None => None,
        }
    }
}

/// `s` holds `p` somewhere.
pub open spec fn contains(s: Seq<char>, p: Seq<char>) -> bool {
    find(s, p) is Some
}

/// The text before and after the first occurrence of `p`, as `str::split_once`
/// gives them.
pub open spec fn split_once(s: Seq<char>, p: Seq<char>) -> Option<(Seq<char>, Seq<char>)> {
    match find(s, p) {
        Some(i) => Some((s.take(i), s.skip(i + p.len()))),
        None => None,
    }
}

proof fn lemma_find_bounds(s: Seq<char>, p: Seq<char>)
    ensures
        find(s, p) matches Some(i) ==> 0 <= i && i + p.len() <= s.len(),
    decreases s.len(),
{
    if p.len() > s.len() {
    } else if starts_with(s, p) {
    } else if s.len() == 0 {
    } else {
        lemma_find_bounds(s.skip(1), p);
    }
}

/// Position of the first occurrence of `p` in `s`.
pub fn find_vec(s: &Vec<char>, p: &Vec<char>) -> (r: Option<usize>)
    ensures
        match find(s@, p@) {
            Some(i) => r == Some(i as usize),
            None => r is None,
        },
        r matches Some(i) ==> i + p.len() <= s.len() && find(s@, p@) == Some(i as int),
{
    let mut i: usize = 0;
    assert(s@.skip(0) =~= s@);
    loop
        invariant
            i <= s.len(),
            find(s@, p@) == match find(s@.skip(i as int), p@) {
                Some(k) => Some(k + i),
                None => None,
            },
        decreases s.len() - i,
    {
        if occurs_at(s, p, i) {
            proof {
                lemma_find_bounds(s@, p@);
            }
            return Some(i);
        }
        if p.len() > s.len() - i || i == s.len() {
            return None;
        }
        proof {
            assert(s@.skip(i as int).skip(1) =~= s@.skip(i + 1));
        }
        i += 1;
    }
}

/// The text before and after the first occurrence of `p` in `s`.
pub fn split_once_vec(s: &Vec<char>, p: &Vec<char>) -> (r: Option<(Vec<char>, Vec<char>)>)
    ensures
        r is Some <==> split_once(s@, p@) is Some,
        r matches Some((x, y)) ==> split_once(s@, p@) == Some((x@, y@)),
{
    match find_vec(s, p) {
        Some(i) => {
            proof {
                lemma_find_bounds(s@, p@);
            }
            let a = slice_vec(s, 0, i);
            let b = slice_vec(s, i + p.len(), s.len());
            assert(s@.subrange(0, i as int) =~= s@.take(i as int));
            assert(s@.subrange((i + p.len()) as int, s.len() as int) =~= s@.skip(i + p.len()));
            assert(split_once(s@, p@) == Some((a@, b@)));
            Some((a, b))
        },
        None => None,
    }
}

/// The characters of `s` from position `lo` up to, not including, `hi`.
pub fn slice_vec(s: &Vec<char>, lo: usize, hi: usize) -> (r: Vec<char>)
    requires
        lo <= hi <= s.len(),
    ensures
        r@ == s@.subrange(lo as int, hi as int),
{
    let mut r: Vec<char> = Vec::new();
    let mut i = lo;
    while i < hi
        invariant
            lo <= i <= hi <= s.len(),
            r@ == s@.subrange(lo as int, i as int),
        decreases hi - i,
    {
        r.push(s[i]);
        assert(s@.subrange(lo as int, i + 1) =~= s@.subrange(lo as int, i as int).push(s@[i as int]));
        i += 1;
    }
    r
}

/// `pieces` joined with `sep` between consecutive pieces.
pub open spec fn join(pieces: Seq<Seq<char>>, sep: Seq<char>) -> Seq<char>
    decreases pieces.len(),
{
    if pieces.len() == 0 {
        Seq::empty()
    } else if pieces.len() == 1 {
        pieces[0]
    } else {
        join(pieces.drop_last(), sep) + sep + pieces.last()
    }
}

/// The pieces `pieces[lo..]` joined with `sep`.
pub fn join_from(pieces: &Vec<Vec<char>>, lo: usize, sep: &Vec<char>) -> (r: Vec<char>)
    requires
        lo <= pieces.len(),
    ensures
        r@ == join(views(pieces@).skip(lo as int), sep@),
{
    let mut r: Vec<char> = Vec::new();
    let mut i = lo;
    while i < pieces.len()
        invariant
            lo <= i <= pieces.len(),
            r@ == join(views(pieces@).subrange(lo as int, i as int), sep@),
        decreases pieces.len() - i,
    {
        let ghost before = views(pieces@).subrange(lo as int, i as int);
        let ghost after = views(pieces@).subrange(lo as int, i + 1);
        assert(after.drop_last() =~= before);
        if i > lo {
            let mut sv = sep.clone();
            r.append(&mut sv);
        } else {
            assert(before.len() == 0);
        }
        let mut piece = pieces[i].clone();
        r.append(&mut piece);
        assert(after.last() == pieces@[i as int]@);
        i += 1;
    }
    assert(views(pieces@).subrange(lo as int, pieces.len() as int) =~= views(pieces@).skip(lo as int));
    r
}

/// The decimal digits of `n`, most significant first, as `to_string` writes them.
pub open spec fn decimal(n: nat) -> Seq<char>
    decreases n,
{
    if n < 10 {
        seq![digit_char(n)]
    } else {
        decimal(n / 10) + seq![digit_char(n % 10)]
    }
}

/// The ASCII digit for `d`.
pub open spec fn digit_char(d: nat) -> char {
    (('0' as u32) + d) as char
}

/// The decimal representation of `n`.
pub fn decimal_vec(n: u128) -> (r: Vec<char>)
    ensures
        r@ == decimal(n as nat),
    decreases n,
{
    let d = (n % 10) as u32;
    let c = char_from_digit(d);
    if n < 10 {
        let mut r = Vec::new();
        r.push(c);
        assert(r@ =~= seq![digit_char(n as nat)]);
        r
    } else {
        let mut r = decimal_vec(n / 10);
        r.push(c);
        r
    }
}

/// The ASCII digit character for `d`.
fn char_from_digit(d: u32) -> (c: char)
    requires
        d < 10,
    ensures
        c == digit_char(d as nat),
{
    if d == 0 { '0' }
    else if d == 1 { '1' }
    else if d == 2 { '2' }
    else if d == 3 { '3' }
    else if d == 4 { '4' }
    else if d == 5 { '5' }
    else if d == 6 { '6' }
    else if d == 7 { '7' }
    else if d == 8 { '8' }
    else { '9' }
}

/// `c` is an ASCII digit.
pub open spec fn is_digit(c: char) -> bool {
    '0' as u32 <= c as u32 <= '9' as u32
}

/// The number written by the digits `d`.
pub open spec fn digits_value(d: Seq<char>) -> nat
    decreases d.len(),
{
    if d.len() == 0 {
        0
    } else {
        digits_value(d.drop_last()) * 10 + ((d.last() as u32) - ('0' as u32)) as nat
    }
}

/// `s` without the one `+` sign it may begin with.
pub open spec fn unsigned_digits(s: Seq<char>) -> Seq<char> {
    if s.len() > 0 && s[0] == '+' { s.drop_first() } else { s }
}

/// Every character of `d` is an ASCII digit.
pub open spec fn all_digits(d: Seq<char>) -> bool {
    forall|i: int| 0 <= i < d.len() ==> is_digit(#[trigger] d[i])
}

/// What `u64::from_str` accepts: an optional `+`, then one or more ASCII
/// digits whose value fits in 64 bits.
pub open spec fn parse_u64(s: Seq<char>) -> Option<nat> {
    let d = unsigned_digits(s);
    if d.len() > 0 && all_digits(d) && digits_value(d) <= u64::MAX {
        Some(digits_value(d))
    } else {
        None
    }
}

proof fn lemma_digits_value_monotone(d: Seq<char>, k: int)
    requires
        0 <= k <= d.len(),
        forall|i: int| 0 <= i < d.len() ==> is_digit(#[trigger] d[i]),
    ensures
        digits_value(d.take(k)) <= digits_value(d),
    decreases d.len() - k,
{
    if k < d.len() {
        lemma_digits_value_monotone(d, k + 1);
        assert(d.take(k + 1).drop_last() =~= d.take(k));
    } else {
        assert(d.take(k) =~= d);
    }
}

/// The value of `s` read as `u64::from_str` reads it.
pub fn parse_u64_vec(s: &Vec<char>) -> (r: Option<u64>)
    ensures
        match parse_u64(s@) {
            Some(v) => r == Some(v as u64),
            None => r is None,
        },
{
    let start: usize = if s.len() > 0 && s[0] == '+' { 1 } else { 0 };
    let ghost d = unsigned_digits(s@);
    assert(d =~= s@.skip(start as int));
    if start == s.len() {
        return None;
    }
    let mut acc: u64 = 0;
    let mut i = start;
    while i < s.len()
        invariant
            start <= i <= s.len(),
            d == s@.skip(start as int),
            d == unsigned_digits(s@),
            forall|j: int| 0 <= j < i - start ==> is_digit(#[trigger] d[j]),
            acc as nat == digits_value(d.take(i - start)),
        decreases s.len() - i,
    {
        let c = s[i];
        let cu = c as u32;
        if cu < 48 || cu > 57 {
            assert(d[i - start] == s@[i as int]);
            assert(!is_digit(d[i - start]));
            assert(!all_digits(d));
            return None;
        }
        let dv = (cu - 48) as u64;
        assert(d.take(i - start + 1).drop_last() =~= d.take(i - start));
        assert(d[i - start] == s@[i as int]);
        assert(digits_value(d.take(i - start + 1)) == acc * 10 + dv);
        if acc > (u64::MAX - dv) / 10 {
            if all_digits_from(s, i + 1) {
                proof {
                    assert forall|j: int| 0 <= j < d.len() implies is_digit(#[trigger] d[j]) by {
                        assert(d[j] == s@[j + start]);
                    }
                    lemma_digits_value_monotone(d, i - start + 1);
                    assert(acc * 10 + dv > u64::MAX) by (nonlinear_arith)
                        requires
                            acc > (u64::MAX - dv) / 10,
                            dv <= 9;
                }
            } else {
                proof {
                    let j = choose|j: int| i + 1 <= j < s.len() && !is_digit(#[trigger] s@[j]);
                    assert(d[j - start] == s@[j]);
                    assert(!all_digits(d));
                }
            }
            return None;
        }
        acc = acc * 10 + dv;
        i += 1;
    }
    assert(d.take(d.len() as int) =~= d);
    Some(acc)
}

/// Whether every character of `s` from position `from` on is an ASCII digit.
fn all_digits_from(s: &Vec<char>, from: usize) -> (r: bool)
    requires
        from <= s.len(),
    ensures
        r == forall|j: int| from <= j < s.len() ==> is_digit(#[trigger] s@[j]),
{
    let mut i = from;
    while i < s.len()
        invariant
            from <= i <= s.len(),
            forall|j: int| from <= j < i ==> is_digit(#[trigger] s@[j]),
        decreases s.len() - i,
    {
        let cu = s[i] as u32;
        if cu < 48 || cu > 57 {
            return false;
        }
        i += 1;
    }
    true
}

/// The ASCII lower-case form of `c`; other characters are unchanged.
pub open spec fn ascii_lower(c: char) -> char {
    if 'A' as u32 <= c as u32 <= 'Z' as u32 {
        ((c as u32) + 32) as char
    } else {
        c
    }
}

/// `a` and `b` are equal when ASCII letters are compared without case, as
/// `str::eq_ignore_ascii_case` compares them.
pub open spec fn eq_ignore_ascii_case(a: Seq<char>, b: Seq<char>) -> bool {
    a.len() == b.len() && forall|i: int| 0 <= i < a.len() ==> ascii_lower(#[trigger] a[i]) == ascii_lower(b[i])
}

/// The ASCII lower-case form of `c`.
pub fn char_ascii_lower(c: char) -> (r: char)
    ensures
        r == ascii_lower(c),
{
    let u = c as u32;
    if 65 <= u && u <= 90 {
        let l = u + 32;
        assert(l <= 122);
        char_from_ascii(l)
    } else {
        c
    }
}

/// The character with ASCII code `u`.
fn char_from_ascii(u: u32) -> (c: char)
    requires
        u < 128,
    ensures
        c == u as char,
{
    let b = u as u8;
    let c = b as char;
    assert(c == u as char);
    c
}

/// Whether `a` and `b` are equal up to the case of ASCII letters.
pub fn vec_eq_ignore_ascii_case(a: &Vec<char>, b: &Vec<char>) -> (r: bool)
    ensures
        r == eq_ignore_ascii_case(a@, b@),
{
    if a.len() != b.len() {
        return false;
    }
    let mut i: usize = 0;
    while i < a.len()
        invariant
            a.len() == b.len(),
            i <= a.len(),
            forall|j: int| 0 <= j < i ==> ascii_lower(#[trigger] a@[j]) == ascii_lower(b@[j]),
        decreases a.len() - i,
    {
        if char_ascii_lower(a[i]) != char_ascii_lower(b[i]) {
            return false;
        }
        i += 1;
    }
    true
}

} // verus!
