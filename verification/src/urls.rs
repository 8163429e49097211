//! Remote media addresses of a VOD timeline: the Alibaba Cloud OSS endpoint
//! to download from, and the local file names of downloads; and the colours
//! of VOD subtitles.
//!
//! URLs are handed around in their serialized form; parsing them is left to
//! the `url` crate.

use vstd::prelude::*;
use vstd::utf8::{encode_utf8, is_char_boundary};
use crate::chars::{contains, find, starts_with, trim, trim_vec, find_vec, slice_vec};
use crate::paths::{sanitize_file_name, spec_sanitize_file_name};
use crate::text::{chars_of, push_str, string_from_chars};

verus! {

broadcast use vstd::string::group_string_axioms;

/// The host of the URL written `s`, as the `url` crate parses it; `None`
/// when `s` is no URL or names no host.
pub uninterp spec fn parsed_host(s: Seq<char>) -> Option<Seq<char>>;

/// The URL written `s` with its host replaced by `host`, serialized, as the
/// `url` crate makes it; `None` when `s` is no URL or refuses that host.
pub uninterp spec fn with_host(s: Seq<char>, host: Seq<char>) -> Option<Seq<char>>;

/// The path of the URL written `s`, as the `url` crate parses it; `None`
/// when `s` is no URL.
pub uninterp spec fn parsed_path(s: Seq<char>) -> Option<Seq<char>>;

/// The host of a URL.
///
/// Trusted: calls `url::Url::parse` and `Url::host_str`; the result is
/// named [`parsed_host`].
#[verifier::external_body]
fn url_host(s: &str) -> (r: Option<String>)
    ensures
        parsed_host(s@) == match r { Some(h) => Some(h@), None => None },
{
    url::Url::parse(s).ok().and_then(|u| u.host_str().map(|h| h.to_string()))
}

/// A lower-case ASCII letter.
pub open spec fn is_lower_letter(c: char) -> bool {
    'a' <= c && c <= 'z'
}

/// A character of a plain DNS name: letter, digit, `-` or `.`.
pub open spec fn is_ldh(c: char) -> bool {
    is_lower_letter(c) || ('0' <= c && c <= '9') || c == '-' || c == '.'
}

/// A plain DNS host name: lower-case letters, digits and `-`, in labels
/// separated by single dots; each label begins with a letter, does not end
/// with `-` and has no `--` at its third character; the last label is made
/// of letters. The `url` crate keeps such a host exactly as written.
pub open spec fn plain_dns_host(h: Seq<char>) -> bool {
    &&& h.len() > 0 && is_lower_letter(h[0]) && h.last() != '-'
    &&& forall|i: int| 0 <= i < h.len() ==> is_ldh(#[trigger] h[i])
    &&& forall|i: int| 0 <= i < h.len() && #[trigger] h[i] == '.' ==> i + 1 < h.len() && is_lower_letter(h[i + 1]) && h[i - 1] != '-'
    &&& forall|i: int| 2 <= i && i + 1 < h.len() && #[trigger] h[i] == '-' && h[i + 1] == '-' ==> i != 2 && h[i - 3] != '.'
    &&& exists|d: int| -1 <= d < h.len() && (d >= 0 ==> h[d] == '.') && forall|j: int| d < j < h.len() ==> is_lower_letter(#[trigger] h[j])
}

/// A URL with another host.
///
/// Trusted: calls `url::Url::parse`, `Url::set_host` and `Url::as_str`;
/// the result is named [`with_host`]. `set_host` replaces only the host part
/// of the serialization (`set_host_internal` keeps what follows the host),
/// so the path stays. A plain DNS host ([`plain_dns_host`]) passes the
/// crate's host parsing unchanged: no `%` to decode, each label passes
/// `idna`'s ASCII fast path as it stands, and a last label of letters is no
/// IPv4 number. The one such host the parser reads back otherwise is
/// `localhost`, which a `file` URL drops (`parser.rs`, file host). So when
/// the URL already has a host and the call succeeds with a plain host other
/// than `localhost`, the new URL parses back with exactly that host and the
/// old path.
#[verifier::external_body]
fn url_with_host(s: &str, host: &str) -> (r: Option<String>)
    ensures
        with_host(s@, host@) == match r { Some(u) => Some(u@), None => None },
        parsed_host(s@) is Some && plain_dns_host(host@) && host@ != "localhost"@ ==> (r matches Some(u) ==> parsed_host(u@) == Some(host@) && parsed_path(u@) == parsed_path(s@)),
{
    match url::Url::parse(s) {
        Ok(mut u) => match u.set_host(Some(host)) {
            Ok(()) => Some(u.as_str().to_string()),
            Err(_) => None,
        },
        Err(_) => None,
    }
}

/// The path of a URL.
///
/// Trusted: calls `url::Url::parse` and `Url::path`; the result is named
/// [`parsed_path`].
#[verifier::external_body]
fn url_path(s: &str) -> (r: Option<String>)
    ensures
        parsed_path(s@) == match r { Some(p) => Some(p@), None => None },
{
    url::Url::parse(s).ok().map(|u| u.path().to_string())
}

/// `s` ends with `p`.
pub open spec fn ends_with(s: Seq<char>, p: Seq<char>) -> bool {
    p.len() <= s.len() && s.subrange(s.len() - p.len(), s.len() as int) == p
}

/// The host to download from inside the OSS region: for a public OSS
/// endpoint `<bucket>.oss-<region>.aliyuncs.com`, the same with
/// `-internal` before `.aliyuncs.com`. `None` for other hosts, for internal
/// endpoints already, and for accelerated endpoints.
pub open spec fn internal_host(h: Seq<char>) -> Option<Seq<char>> {
    match find(h, ".oss-"@) {
        None => None,
        Some(m) => {
            let start = m + 1;
            let endpoint = h.subrange(start, h.len() as int);
            if !ends_with(endpoint, ".aliyuncs.com"@) || contains(endpoint, "-internal.aliyuncs.com"@)
                || starts_with(endpoint, "oss-accelerate"@) {
                None
            } else {
                let prefix = endpoint.subrange(0, endpoint.len() - 13);
                Some(h.subrange(0, start) + prefix + "-internal.aliyuncs.com"@)
            }
        },
    }
}

/// The serialized URL `url` moved to its internal OSS endpoint, when it has
/// one and the URL takes that host; `url` itself otherwise.
pub open spec fn spec_rewrite_internal(url: Seq<char>) -> Seq<char> {
    match parsed_host(url) {
        None => url,
        Some(h) => match internal_host(h) {
            None => url,
            Some(nh) => match with_host(url, nh) {
                None => url,
                Some(u) => u,
            },
        },
    }
}

fn seq_ends_with(s: &Vec<char>, p: &str) -> (r: bool)
    ensures
        r == ends_with(s@, p@),
{
    let pv = chars_of(p);
    if pv.len() > s.len() {
        return false;
    }
    let off = s.len() - pv.len();
    let mut i: usize = 0;
    while i < pv.len()
        invariant
            i <= pv.len(),
            off + pv.len() == s.len(),
            pv@ == p@,
            forall|j: int| 0 <= j < i ==> s@[off + j] == pv@[j],
        decreases pv.len() - i,
    {
        if s[off + i] != pv[i] {
            assert(s@.subrange(off as int, s.len() as int)[i as int] != p@[i as int]);
            return false;
        }
        i += 1;
    }
    assert(s@.subrange(off as int, s.len() as int) =~= p@);
    true
}

/// The internal OSS host for `h`, if it has one (see [`internal_host`]).
pub fn internal_oss_host(h: &str) -> (r: Option<String>)
    ensures
        match r {
            Some(n) => internal_host(h@) == Some(n@),
            None => internal_host(h@) is None,
        },
{
    proof {
        reveal_strlit(".oss-");
        reveal_strlit(".aliyuncs.com");
        reveal_strlit("-internal.aliyuncs.com");
        reveal_strlit("oss-accelerate");
    }
    let hv = chars_of(h);
    let marker = chars_of(".oss-");
    let m = match find_vec(&hv, &marker) {
        None => return None,
        Some(m) => m,
    };
    let start = m + 1;
    let endpoint = slice_vec(&hv, start, hv.len());
    let internal = chars_of("-internal.aliyuncs.com");
    let accel = chars_of("oss-accelerate");
    assert(find(hv@, marker@) == Some(m as int));
    assert(endpoint@ == h@.subrange(start as int, h@.len() as int));
    assert(endpoint@.skip(0) =~= endpoint@);
    let ends = seq_ends_with(&endpoint, ".aliyuncs.com");
    let has_internal = find_vec(&endpoint, &internal).is_some();
    let accelerated = crate::chars::occurs_at(&endpoint, &accel, 0);
    assert(has_internal == contains(endpoint@, "-internal.aliyuncs.com"@));
    assert(accelerated == starts_with(endpoint@, "oss-accelerate"@));
    if !ends || has_internal || accelerated {
        return None;
    }
    let prefix = slice_vec(&endpoint, 0, endpoint.len() - 13);
    let mut out = slice_vec(&hv, 0, start);
    let mut p = prefix;
    out.append(&mut p);
    push_str(&mut out, "-internal.aliyuncs.com");
    Some(string_from_chars(&out))
}

/// Where `p` is first found in `s`, `s` holds it.
proof fn lemma_find_at(s: Seq<char>, p: Seq<char>)
    ensures
        find(s, p) matches Some(i) ==> 0 <= i && i + p.len() <= s.len() && s.subrange(i, i + p.len()) == p,
    decreases s.len(),
{
    if p.len() > s.len() {
    } else if starts_with(s, p) {
        assert(s.subrange(0, p.len() as int) =~= s.take(p.len() as int));
    } else if s.len() == 0 {
    } else {
        lemma_find_at(s.skip(1), p);
        if let Some(i) = find(s.skip(1), p) {
            assert(s.skip(1).subrange(i, i + p.len()) =~= s.subrange(i + 1, i + 1 + p.len()));
        }
    }
}

/// When `s` holds `p` at `k`, `p` is first found at `k` or before.
proof fn lemma_find_by(s: Seq<char>, p: Seq<char>, k: int)
    requires
        0 <= k,
        k + p.len() <= s.len(),
        s.subrange(k, k + p.len()) == p,
    ensures
        find(s, p) matches Some(i) && i <= k,
    decreases k,
{
    if !starts_with(s, p) {
        if k == 0 {
            assert(s.take(p.len() as int) =~= s.subrange(0, p.len() as int));
        }
        assert(s.skip(1).subrange(k - 1, k - 1 + p.len()) =~= s.subrange(k, k + p.len()));
        lemma_find_by(s.skip(1), p, k - 1);
    }
}

/// The internal host of a plain DNS host is a plain DNS host too, and has
/// no internal host of its own.
proof fn lemma_internal_host_plain(h: Seq<char>)
    requires
        plain_dns_host(h),
        internal_host(h) is Some,
    ensures
        plain_dns_host(internal_host(h)->0),
        internal_host(internal_host(h)->0) is None,
        internal_host(h)->0 != "localhost"@,
{
    reveal_strlit(".oss-");
    reveal_strlit(".aliyuncs.com");
    reveal_strlit("-internal.aliyuncs.com");
    reveal_strlit("localhost");
    let marker = ".oss-"@;
    let suffix = ".aliyuncs.com"@;
    let inner = "-internal.aliyuncs.com"@;
    let n = h.len() as int;
    lemma_find_at(h, marker);
    let m = find(h, marker)->0;
    let start = m + 1;
    let endpoint = h.subrange(start, n);
    let elen = endpoint.len() as int;
    assert(h.subrange(m, m + 5) == marker);
    assert(endpoint.subrange(elen - 13, elen) == suffix);
    assert(elen >= 17) by {
        if elen < 17 {
            let idx = elen - 13;
            assert(endpoint.subrange(elen - 13, elen)[0] == '.');
            assert(endpoint[idx] == '.');
            assert(endpoint[idx] == h[start + idx]);
            assert(h.subrange(m, m + 5)[idx + 1] == h[m + idx + 1]);
        }
    }
    let l = n - 13;
    let t = h.take(l);
    let nh = internal_host(h)->0;
    assert(nh =~= t + inner);
    assert forall|j: int| 0 <= j < 13 implies h[l + j] == #[trigger] suffix[j] by {
        assert(endpoint.subrange(elen - 13, elen)[j] == endpoint[elen - 13 + j]);
        assert(endpoint[elen - 13 + j] == h[start + elen - 13 + j]);
    }
    assert(suffix[0] == '.');
    assert(h[l] == '.');
    assert(h[l - 1] != '-');
    let nl = nh.len() as int;
    assert(nl == l + 22);
    assert forall|i: int| 0 <= i < nl implies is_ldh(#[trigger] nh[i]) by {
        if i < l {
            assert(nh[i] == h[i]);
        } else {
            assert(nh[i] == inner[i - l]);
        }
    }
    assert forall|i: int| 0 <= i < nl && #[trigger] nh[i] == '.' implies i + 1 < nl && is_lower_letter(nh[i + 1]) && nh[i - 1] != '-' by {
        if i < l {
            assert(nh[i] == h[i]);
            assert(h[i] == '.');
            assert(i + 1 < n && is_lower_letter(h[i + 1]) && h[i - 1] != '-');
            if i + 1 == l {
                assert(h[l] == '.');
            }
            assert(nh[i + 1] == h[i + 1]);
            assert(nh[i - 1] == h[i - 1]);
        } else {
            assert(nh[i] == inner[i - l]);
            assert(nh[i + 1] == inner[i + 1 - l]);
            assert(nh[i - 1] == inner[i - 1 - l]);
        }
    }
    assert forall|i: int| 2 <= i && i + 1 < nl && #[trigger] nh[i] == '-' && nh[i + 1] == '-' implies i != 2 && nh[i - 3] != '.' by {
        if i + 1 < l {
            assert(nh[i] == h[i] && nh[i + 1] == h[i + 1] && nh[i - 3] == h[i - 3]);
        } else if i + 1 == l {
            assert(nh[i] == h[l - 1]);
        } else {
            assert(nh[i] == inner[i - l]);
            assert(nh[i + 1] == inner[i + 1 - l]);
        }
    }
    let d = nl - 4;
    assert(nh[d] == '.');
    assert forall|j: int| d < j < nl implies is_lower_letter(#[trigger] nh[j]) by {
        assert(nh[j] == inner[j - l]);
    }
    assert(nh[0] == h[0]);
    assert(nh.last() == 'm');
    // The first `.oss-` of the new host is where it was, before `-internal`.
    assert(nh.subrange(m, m + 5) =~= h.subrange(m, m + 5));
    lemma_find_by(nh, marker, m);
    lemma_find_at(nh, marker);
    let m2 = find(nh, marker)->0;
    assert(nh.subrange(l, nl) =~= inner);
    let e2 = nh.subrange(m2 + 1, nl);
    let k = l - (m2 + 1);
    assert forall|j: int| 0 <= j < 22 implies e2.subrange(k, k + 22)[j] == inner[j] by {
        assert(e2.subrange(k, k + 22)[j] == nh[l + j]);
        assert(nh.subrange(l, nl)[j] == nh[l + j]);
    }
    assert(e2.subrange(k, k + 22) =~= inner);
    lemma_find_by(e2, inner, k);
}

/// Moves a serialized OSS URL to the internal endpoint of its region, so
/// that a machine inside the region downloads without public traffic:
/// `<bucket>.oss-<region>.aliyuncs.com` becomes
/// `<bucket>.oss-<region>-internal.aliyuncs.com`. Custom domains,
/// accelerated endpoints and internal endpoints stay as they are.
///
/// For a URL whose host is a plain DNS name, the rewrite settles at once:
/// rewriting its result again changes nothing, and a URL it changes keeps
/// its path and gets exactly the internal host.
pub fn rewrite_aliyun_oss_url_to_internal(url: &str) -> (r: String)
    ensures
        r@ == spec_rewrite_internal(url@),
        parsed_host(url@) is Some && plain_dns_host(parsed_host(url@)->0) ==> {
            &&& spec_rewrite_internal(r@) == r@
            &&& r@ != url@ ==> internal_host(parsed_host(url@)->0) is Some
                && parsed_host(r@) == internal_host(parsed_host(url@)->0)
                && parsed_path(r@) == parsed_path(url@)
        },
{
    match url_host(url) {
        None => url.to_string(),
        Some(h) => match internal_oss_host(h.as_str()) {
            None => url.to_string(),
            Some(nh) => match url_with_host(url, nh.as_str()) {
                None => url.to_string(),
                Some(u) => {
                    proof {
                        if plain_dns_host(h@) {
                            lemma_internal_host_plain(h@);
                        }
                    }
                    u
                },
            },
        },
    }
}

/// The part of `path` after its last `/`; all of it when it has none.
pub open spec fn last_segment(path: Seq<char>) -> Seq<char>
    decreases path.len(),
{
    if path.len() == 0 {
        path
    } else if path.last() == '/' {
        Seq::empty()
    } else {
        last_segment(path.drop_last()).push(path.last())
    }
}

fn last_segment_vec(path: &Vec<char>) -> (r: Vec<char>)
    ensures
        r@ == last_segment(path@),
{
    let mut start: usize = 0;
    let mut i: usize = 0;
    assert(path@.take(0) =~= Seq::<char>::empty());
    while i < path.len()
        invariant
            i <= path.len(),
            start <= i,
            last_segment(path@.take(i as int)) == path@.subrange(start as int, i as int),
        decreases path.len() - i,
    {
        assert(path@.take(i + 1).drop_last() =~= path@.take(i as int));
        assert(path@.take(i + 1).last() == path@[i as int]);
        if path[i] == '/' {
            start = i + 1;
            assert(path@.subrange(start as int, i + 1) =~= Seq::<char>::empty());
        } else {
            assert(path@.subrange(start as int, i + 1) =~= path@.subrange(start as int, i as int).push(path@[i as int]));
        }
        i += 1;
    }
    assert(path@.take(i as int) =~= path@);
    slice_vec(path, start, path.len())
}

/// A character a remote file name keeps: ASCII letters and digits, `.`,
/// `_`, `-`, `%`, and CJK ideographs (U+4E00 to U+9FFF).
pub open spec fn remote_name_keeps(c: char) -> bool {
    ('a' <= c && c <= 'z') || ('A' <= c && c <= 'Z') || ('0' <= c && c <= '9') || c == '.' || c == '_' || c == '-'
        || c == '%' || ('\u{4e00}' <= c && c <= '\u{9fff}')
}

/// The local file name for a download from a URL with path `path`: its last
/// segment (`asset.bin` when that is empty), with every other character
/// replaced by `_`.
pub open spec fn spec_remote_file_name(path: Seq<char>) -> Seq<char> {
    let base = if last_segment(path).len() == 0 { "asset.bin"@ } else { last_segment(path) };
    base.map_values(|c: char| if remote_name_keeps(c) { c } else { '_' })
}

/// The local file name for a download from a URL with path `path` (see
/// [`spec_remote_file_name`]).
pub fn remote_file_name_from_path(path: &str) -> (r: String)
    ensures
        r@ == spec_remote_file_name(path@),
{
    let pv = chars_of(path);
    let seg = last_segment_vec(&pv);
    let base = if seg.len() == 0 { chars_of("asset.bin") } else { seg };
    let mut out: Vec<char> = Vec::new();
    let mut i: usize = 0;
    while i < base.len()
        invariant
            i <= base.len(),
            out@ == base@.take(i as int).map_values(|c: char| if remote_name_keeps(c) { c } else { '_' }),
        decreases base.len() - i,
    {
        let c = base[i];
        let keep = ('a' <= c && c <= 'z') || ('A' <= c && c <= 'Z') || ('0' <= c && c <= '9') || c == '.' || c == '_'
            || c == '-' || c == '%' || ('\u{4e00}' <= c && c <= '\u{9fff}');
        out.push(if keep { c } else { '_' });
        assert(base@.take(i + 1) =~= base@.take(i as int).push(c));
        assert(out@ =~= base@.take(i + 1).map_values(|c: char| if remote_name_keeps(c) { c } else { '_' }));
        i += 1;
    }
    assert(base@.take(i as int) =~= base@);
    string_from_chars(&out)
}

/// The local file name for a download from the serialized URL `url`, from
/// the last segment of its path (see [`spec_remote_file_name`]).
pub fn build_remote_file_name(url: &str) -> (r: String)
    ensures
        r@ == spec_remote_file_name(match parsed_path(url@) { Some(p) => p, None => Seq::empty() }),
{
    match url_path(url) {
        Some(p) => remote_file_name_from_path(p.as_str()),
        None => {
            proof {
                reveal_strlit("");
            }
            remote_file_name_from_path("")
        },
    }
}

/// The last path segment of a URL with path `path`, as `Url::path_segments`
/// gives it: none for a path that does not begin with `/`.
pub open spec fn last_path_segment(path: Seq<char>) -> Option<Seq<char>> {
    if path.len() > 0 && path[0] == '/' { Some(last_segment(path)) } else { None }
}

/// The file name a downloaded bundle asset is saved under: the last path
/// segment of its URL with unsafe characters replaced, or `<asset_id>.bin`
/// when the URL has none.
pub open spec fn spec_download_file_name(path: Option<Seq<char>>, asset_id: Seq<char>) -> Seq<char> {
    match path {
        Some(p) => match last_path_segment(p) {
            Some(seg) => if seg.len() > 0 { spec_sanitize_file_name(seg) } else { asset_id + ".bin"@ },
            None => asset_id + ".bin"@,
        },
        None => asset_id + ".bin"@,
    }
}

/// The file name a downloaded bundle asset is saved under (see
/// [`spec_download_file_name`]).
pub fn download_file_name(url: &str, asset_id: &str) -> (r: String)
    ensures
        r@ == spec_download_file_name(parsed_path(url@), asset_id@),
{
    let fallback = {
        let mut v = chars_of(asset_id);
        push_str(&mut v, ".bin");
        string_from_chars(&v)
    };
    match url_path(url) {
        None => fallback,
        Some(p) => {
            let pv = chars_of(p.as_str());
            if pv.len() > 0 && pv[0] == '/' {
                let seg = last_segment_vec(&pv);
                if seg.len() > 0 {
                    let name = string_from_chars(&seg);
                    sanitize_file_name(name.as_str())
                } else {
                    fallback
                }
            } else {
                fallback
            }
        },
    }
}

/// `s` without the `#` characters it begins with.
pub open spec fn strip_hashes(s: Seq<char>) -> Seq<char>
    decreases s.len(),
{
    if s.len() > 0 && s[0] == '#' { strip_hashes(s.drop_first()) } else { s }
}

/// The value of an ASCII hexadecimal digit.
pub open spec fn hex_digit(b: u8) -> Option<int> {
    if 48 <= b <= 57 {
        Some(b - 48)
    } else if 97 <= b <= 102 {
        Some(b - 87)
    } else if 65 <= b <= 70 {
        Some(b - 55)
    } else {
        None
    }
}

/// What `u8::from_str_radix(_, 16)` reads from two bytes, 255 when it
/// refuses them: an optional `+` and one digit, or two digits.
pub open spec fn hex_pair(b0: u8, b1: u8) -> u8 {
    if b0 == 43 {
        match hex_digit(b1) {
            Some(v) => v as u8,
            None => 255,
        }
    } else {
        match (hex_digit(b0), hex_digit(b1)) {
            (Some(x), Some(y)) => (x * 16 + y) as u8,
            _ => 255,
        }
    }
}

/// The hexadecimal digits of a colour: trimmed, without leading `#`.
pub open spec fn hex_text(value: Seq<char>) -> Seq<char> {
    strip_hashes(trim(value))
}

/// The colour `#RRGGBB` as its three bytes; white when fewer than six bytes
/// remain, and 255 for a pair that is no hexadecimal number.
pub open spec fn spec_parse_hex_rgb(value: Seq<char>) -> (u8, u8, u8) {
    let b = encode_utf8(hex_text(value));
    if b.len() < 6 {
        (255, 255, 255)
    } else {
        (hex_pair(b[0], b[1]), hex_pair(b[2], b[3]), hex_pair(b[4], b[5]))
    }
}

fn hex_digit_of(b: u8) -> (r: Option<u8>)
    ensures
        match hex_digit(b) {
            Some(v) => r == Some(v as u8),
            None => r is None,
        },
{
    if 48 <= b && b <= 57 {
        Some(b - 48)
    } else if 97 <= b && b <= 102 {
        Some(b - 87)
    } else if 65 <= b && b <= 70 {
        Some(b - 55)
    } else {
        None
    }
}

fn hex_pair_of(b0: u8, b1: u8) -> (r: u8)
    ensures
        r == hex_pair(b0, b1),
{
    if b0 == 43 {
        match hex_digit_of(b1) {
            Some(v) => v,
            None => 255,
        }
    } else {
        match (hex_digit_of(b0), hex_digit_of(b1)) {
            (Some(x), Some(y)) => x * 16 + y,
            _ => 255,
        }
    }
}

/// Reads a colour written `#RRGGBB` into its red, green and blue bytes (see
/// [`spec_parse_hex_rgb`]); a value too short gives white. The value must
/// not cut a multi-byte character at byte 2, 4 or 6 of its digits.
pub fn parse_hex_rgb(value: &str) -> (r: (u8, u8, u8))
    requires
        encode_utf8(hex_text(value@)).len() >= 6 ==> is_char_boundary(encode_utf8(hex_text(value@)), 2)
            && is_char_boundary(encode_utf8(hex_text(value@)), 4) && is_char_boundary(encode_utf8(hex_text(value@)), 6),
    ensures
        r == spec_parse_hex_rgb(value@),
{
    let v = chars_of(value);
    let t = trim_vec(&v);
    let mut k: usize = 0;
    assert(t@.skip(0) =~= t@);
    while k < t.len() && t[k] == '#'
        invariant
            k <= t.len(),
            strip_hashes(t@) == strip_hashes(t@.skip(k as int)),
        decreases t.len() - k,
    {
        assert(t@.skip(k as int).drop_first() =~= t@.skip(k + 1));
        k += 1;
    }
    let digits = slice_vec(&t, k, t.len());
    assert(digits@ =~= t@.skip(k as int));
    assert(strip_hashes(digits@) == digits@);
    let hex = string_from_chars(&digits);
    let bytes = hex.as_str().as_bytes();
    assert(bytes@ == encode_utf8(hex_text(value@)));
    if bytes.len() < 6 {
        return (255, 255, 255);
    }
    (hex_pair_of(bytes[0], bytes[1]), hex_pair_of(bytes[2], bytes[3]), hex_pair_of(bytes[4], bytes[5]))
}

} // verus!
