use vstd::prelude::*;
use vstd::slice::{slice_subrange, slice_to_vec};
use vstd::utf8::{decode_utf8, valid_utf8};

use crate::http::{method_of, pairs_text, Error, Method, Request};

verus! {

/// Whether a line ending (CR LF) starts at `i`.
pub open spec fn crlf_at(b: Seq<u8>, i: int) -> bool {
    0 <= i && i + 1 < b.len() && b[i] == 13 && b[i + 1] == 10
}

/// The lines of a request head, read from `i` on, where the current line
/// started at `s`: the lines up to the first empty one, and the index just
/// past that empty line; `None` when the bytes end first.
pub open spec fn scan_head(b: Seq<u8>, s: int, i: int) -> Option<(Seq<Seq<u8>>, int)>
    decreases b.len() - i,
{
    if i < 0 || i + 1 >= b.len() {
        None
    } else if crlf_at(b, i) {
        if i == s {
            Some((Seq::<Seq<u8>>::empty(), i + 2))
        } else {
            match scan_head(b, i + 2, i + 2) {
                Some(rest) => Some((seq![b.subrange(s, i)] + rest.0, rest.1)),
                None => None,
            }
        }
    } else {
        scan_head(b, s, i + 1)
    }
}

/// The first index at or after `i` that holds `c`, or the length.
pub open spec fn find_byte(l: Seq<u8>, c: u8, i: int) -> int
    decreases l.len() - i,
{
    if i < 0 || i >= l.len() {
        l.len() as int
    } else if l[i] == c {
        i
    } else {
        find_byte(l, c, i + 1)
    }
}

/// The first index at or after `i` where ": " starts, or the length.
pub open spec fn find_colon_space(l: Seq<u8>, i: int) -> int
    decreases l.len() - i,
{
    if i < 0 || i + 1 >= l.len() {
        l.len() as int
    } else if l[i] == 58 && l[i + 1] == 32 {
        i
    } else {
        find_colon_space(l, i + 1)
    }
}

/// Splits a request line into its method and path tokens: the method runs to
/// the first space, the path to the next space or the end, and must not be
/// empty; what follows is ignored.
pub open spec fn request_line(l: Seq<u8>) -> Option<(Seq<u8>, Seq<u8>)> {
    let k = find_byte(l, 32, 0);
    if k >= l.len() {
        None
    } else {
        let m = find_byte(l, 32, k + 1);
        if m == k + 1 {
            None
        } else {
            Some((l.subrange(0, k), l.subrange(k + 1, m)))
        }
    }
}

/// ASCII lower case of one byte.
pub open spec fn lower_byte(c: u8) -> u8 {
    if 65 <= c <= 90 {
        (c + 32) as u8
    } else {
        c
    }
}

/// ASCII lower case of a byte string.
pub open spec fn ascii_lower(s: Seq<u8>) -> Seq<u8> {
    s.map_values(|c: u8| lower_byte(c))
}

/// A header line split at its first ": ", the name lower-cased.
pub open spec fn header_line(l: Seq<u8>) -> Option<(Seq<u8>, Seq<u8>)> {
    let j = find_colon_space(l, 0);
    if j >= l.len() {
        None
    } else {
        Some((ascii_lower(l.subrange(0, j)), l.subrange(j + 2, l.len() as int)))
    }
}

/// All header lines parsed, in order; `None` if one of them has no ": ".
pub open spec fn header_lines(ls: Seq<Seq<u8>>) -> Option<Seq<(Seq<u8>, Seq<u8>)>>
    decreases ls.len(),
{
    if ls.len() == 0 {
        Some(Seq::empty())
    } else {
        match (header_lines(ls.drop_last()), header_line(ls.last())) {
            (Some(hs), Some(h)) => Some(hs.push(h)),
            _ => None,
        }
    }
}

/// The value under key `k` in a list of pairs; the last one wins.
pub open spec fn lookup<K, V>(s: Seq<(K, V)>, k: K) -> Option<V>
    decreases s.len(),
{
    if s.len() == 0 {
        None
    } else if s.last().0 == k {
        Some(s.last().1)
    } else {
        lookup(s.drop_last(), k)
    }
}

/// Whether every byte is an ASCII digit.
pub open spec fn all_digits(s: Seq<u8>) -> bool {
    forall|i: int| 0 <= i < s.len() ==> 48 <= #[trigger] s[i] <= 57
}

/// The number that a string of ASCII digits spells.
pub open spec fn digits_value(s: Seq<u8>) -> nat
    decreases s.len(),
{
    if s.len() == 0 {
        0
    } else {
        digits_value(s.drop_last()) * 10 + (s.last() - 48) as nat
    }
}

/// The header name `content-length` as bytes.
pub open spec fn content_length_key() -> Seq<u8> {
    seq![99u8, 111, 110, 116, 101, 110, 116, 45, 108, 101, 110, 103, 116, 104]
}

/// The body length that a list of headers declares: zero without a
/// `content-length` header, `None` if its value is not a decimal number
/// that fits in `usize`.
pub open spec fn content_length(hs: Seq<(Seq<u8>, Seq<u8>)>) -> Option<nat> {
    match lookup(hs, content_length_key()) {
        None => Some(0),
        Some(v) => if v.len() > 0 && all_digits(v) && digits_value(v) <= usize::MAX {
            Some(digits_value(v))
        } else {
            None
        },
    }
}

/// Why a request could not be read.
pub enum DecodeFault {
    Incomplete,
    Malformed,
    UnknownMethod,
}

/// Whether `e` is the error that reports `f`.
pub open spec fn reports(e: Error, f: DecodeFault) -> bool {
    match f {
        DecodeFault::Incomplete => e is Incomplete,
        DecodeFault::Malformed => e is BadRequest,
        DecodeFault::UnknownMethod => e is MethodNotAllowed,
    }
}

/// A request read off the wire, before its text is turned into strings.
pub struct RawRequest {
    pub method: Seq<u8>,
    pub path: Seq<u8>,
    pub headers: Seq<(Seq<u8>, Seq<u8>)>,
    pub body: Seq<u8>,
}

/// What reading a request from `b` gives, or the kind of error it fails with.
/// The head runs to the first empty line; its first line is the request line,
/// the others are headers; exactly `content-length` bytes of body follow.
pub open spec fn decode_raw(b: Seq<u8>) -> Result<RawRequest, DecodeFault> {
    match scan_head(b, 0, 0) {
        None => Err(DecodeFault::Incomplete),
        Some((ls, end)) => if ls.len() == 0 {
            Err(DecodeFault::Malformed)
        } else {
            match request_line(ls[0]) {
                None => Err(DecodeFault::Malformed),
                Some((m, p)) => if method_of(lossy_text(m)) is None {
                    Err(DecodeFault::UnknownMethod)
                } else {
                    match header_lines(ls.drop_first()) {
                        None => Err(DecodeFault::Malformed),
                        Some(hs) => match content_length(hs) {
                            None => Err(DecodeFault::Malformed),
                            Some(n) => if b.len() - end < n {
                                Err(DecodeFault::Incomplete)
                            } else {
                                Ok(
                                    RawRequest {
                                        method: m,
                                        path: p,
                                        headers: hs,
                                        body: b.subrange(end, end + n),
                                    },
                                )
                            },
                        },
                    }
                },
            }
        },
    }
}

/// The text that `String::from_utf8_lossy` makes of a byte string.
pub uninterp spec fn lossy_text(b: Seq<u8>) -> Seq<char>;

/// Relies on `String::from_utf8_lossy`: the result depends on the bytes alone,
/// and valid UTF-8 is decoded as it stands.
#[verifier::external_body]
pub(crate) fn text_of(b: &[u8]) -> (r: String)
    ensures
        r@ == lossy_text(b@),
        valid_utf8(b@) ==> r@ == decode_utf8(b@),
{
    String::from_utf8_lossy(b).into_owned()
}

/// A copy of `b[from..to]`.
pub fn copy_range(b: &[u8], from: usize, to: usize) -> (r: Vec<u8>)
    requires
        from <= to <= b@.len(),
    ensures
        r@ == b@.subrange(from as int, to as int),
{
    slice_to_vec(slice_subrange(b, from, to))
}


/// The result of a head scan with `done` put before the lines it finds.
pub open spec fn after(done: Seq<Seq<u8>>, r: Option<(Seq<Seq<u8>>, int)>) -> Option<(Seq<Seq<u8>>, int)> {
    match r {
        Some(x) => Some((done + x.0, x.1)),
        None => None,
    }
}

/// The contents of a list of byte vectors.
pub open spec fn byte_lines(v: Seq<Vec<u8>>) -> Seq<Seq<u8>> {
    v.map_values(|l: Vec<u8>| l@)
}

/// Reads the lines of a request head up to the first empty line; returns
/// them with the index just past that empty line.
pub fn read_head(b: &[u8]) -> (r: Option<(Vec<Vec<u8>>, usize)>)
    ensures
        match scan_head(b@, 0, 0) {
            None => r is None,
            Some(x) => r matches Some(y) && byte_lines(y.0@) == x.0 && y.1 == x.1 && y.1 <= b@.len(),
        },
{
    let mut lines: Vec<Vec<u8>> = Vec::new();
    let mut s: usize = 0;
    let mut i: usize = 0;
    proof {
        assert(byte_lines(lines@) + Seq::<Seq<u8>>::empty() =~= Seq::<Seq<u8>>::empty());
    }
    while i < b.len() && b.len() - i > 1
        invariant
            s <= i <= b@.len(),
            after(Seq::empty(), scan_head(b@, 0, 0)) == after(byte_lines(lines@), scan_head(b@, s as int, i as int)),
        decreases b@.len() - i,
    {
        if b[i] == 13 && b[i + 1] == 10 {
            if i == s {
                proof {
                    let (xs, xe) = scan_head(b@, 0, 0)->0;
                    assert(Seq::<Seq<u8>>::empty() + xs =~= xs);
                }
                return Some((lines, i + 2));
            }
            let line = copy_range(b, s, i);
            proof {
                let ghost old_lines_v = lines@;
                let ghost old_lines = byte_lines(lines@);
                match scan_head(b@, (i + 2) as int, (i + 2) as int) {
                    Some(rest) => {
                        assert(byte_lines(old_lines_v.push(line)) =~= old_lines.push(line@));
                        assert(old_lines + (seq![b@.subrange(s as int, i as int)] + rest.0) =~= old_lines.push(line@) + rest.0);
                    },
                    None => {},
                }
            }
            lines.push(line);
            i = i + 2;
            s = i;
        } else {
            i = i + 1;
        }
    }
    None
}


/// The first index at or after `from` that holds `c`, or the length.
pub fn index_of_byte(l: &[u8], c: u8, from: usize) -> (r: usize)
    requires
        from <= l@.len(),
    ensures
        r == find_byte(l@, c, from as int),
{
    let mut i: usize = from;
    while i < l.len()
        invariant
            from <= i <= l@.len(),
            find_byte(l@, c, from as int) == find_byte(l@, c, i as int),
        decreases l@.len() - i,
    {
        if l[i] == c {
            return i;
        }
        i = i + 1;
    }
    i
}

/// The first index where ": " starts, or the length.
pub fn index_of_colon_space(l: &[u8]) -> (r: usize)
    ensures
        r == find_colon_space(l@, 0),
{
    let mut i: usize = 0;
    while i < l.len() && l.len() - i > 1
        invariant
            i <= l@.len(),
            find_colon_space(l@, 0) == find_colon_space(l@, i as int),
        decreases l@.len() - i,
    {
        if l[i] == 58 && l[i + 1] == 32 {
            return i;
        }
        i = i + 1;
    }
    l.len()
}

/// The ASCII lower case of `l`.
pub fn lower_ascii(l: &[u8]) -> (r: Vec<u8>)
    ensures
        r@ == ascii_lower(l@),
{
    let mut out: Vec<u8> = Vec::new();
    let mut i: usize = 0;
    while i < l.len()
        invariant
            i <= l@.len(),
            out@ == ascii_lower(l@.subrange(0, i as int)),
        decreases l@.len() - i,
    {
        let c = l[i];
        let d = if 65 <= c && c <= 90 { c + 32 } else { c };
        out.push(d);
        i = i + 1;
        assert(out@ =~= ascii_lower(l@.subrange(0, i as int)));
    }
    assert(l@.subrange(0, l@.len() as int) =~= l@);
    out
}

/// A prefix of a digit string spells no more than the whole string.
proof fn lemma_digits_prefix(s: Seq<u8>, i: int)
    requires
        0 <= i <= s.len(),
        all_digits(s),
    ensures
        digits_value(s.subrange(0, i)) <= digits_value(s),
    decreases s.len() - i,
{
    if i < s.len() {
        lemma_digits_prefix(s, i + 1);
        let t = s.subrange(0, i + 1);
        assert(t.drop_last() =~= s.subrange(0, i));
        assert(48 <= t.last() <= 57);
    } else {
        assert(s.subrange(0, i) =~= s);
    }
}

/// The number that `v` spells in decimal, if it is a non-empty string of
/// digits that fits in `usize`.
pub fn parse_decimal(v: &[u8]) -> (r: Option<usize>)
    ensures
        v@.len() > 0 && all_digits(v@) && digits_value(v@) <= usize::MAX ==> r == Some(
            digits_value(v@) as usize,
        ),
        !(v@.len() > 0 && all_digits(v@) && digits_value(v@) <= usize::MAX) ==> r is None,
{
    if v.len() == 0 {
        return None;
    }
    let mut acc: usize = 0;
    let mut i: usize = 0;
    while i < v.len()
        invariant
            i <= v@.len(),
            all_digits(v@.subrange(0, i as int)),
            acc == digits_value(v@.subrange(0, i as int)),
        decreases v@.len() - i,
    {
        let c = v[i];
        let ghost next = v@.subrange(0, i + 1);
        assert(next.drop_last() =~= v@.subrange(0, i as int));
        if c < 48 || c > 57 {
            assert(!all_digits(v@));
            return None;
        }
        let d = (c - 48) as usize;
        if acc > (usize::MAX - d) / 10 {
            proof {
                assert(acc * 10 + d > usize::MAX) by (nonlinear_arith)
                    requires acc > (usize::MAX - d) / 10, d <= 9;
                assert(all_digits(next));
                if all_digits(v@) {
                    lemma_digits_prefix(v@, i + 1);
                }
            }
            return None;
        }
        proof {
            assert(acc * 10 + d <= usize::MAX) by (nonlinear_arith)
                requires acc <= (usize::MAX - d) / 10, d <= 9;
        }
        acc = acc * 10 + d;
        i = i + 1;
        assert(all_digits(v@.subrange(0, i as int)));
    }
    assert(v@.subrange(0, v@.len() as int) =~= v@);
    Some(acc)
}


/// The contents of a list of byte-string pairs.
pub open spec fn raw_pairs(v: Seq<(Vec<u8>, Vec<u8>)>) -> Seq<(Seq<u8>, Seq<u8>)> {
    v.map_values(|p: (Vec<u8>, Vec<u8>)| (p.0@, p.1@))
}

/// Header pairs as the text that the decoder makes of them.
pub open spec fn text_headers(hs: Seq<(Seq<u8>, Seq<u8>)>) -> Seq<(Seq<char>, Seq<char>)> {
    hs.map_values(|h: (Seq<u8>, Seq<u8>)| (lossy_text(h.0), lossy_text(h.1)))
}

/// Whether `req` is the request that the wire form `q` stands for, before
/// any route has set its parameters.
pub open spec fn decoded_as(req: Request, q: RawRequest) -> bool {
    &&& method_of(lossy_text(q.method)) == Some(req.method)
    &&& req.path@ == lossy_text(q.path)
    &&& req.params@.len() == 0
    &&& pairs_text(req.headers@) == text_headers(q.headers)
    &&& req.body@ == q.body
    &&& valid_utf8(q.method) ==> method_of(decode_utf8(q.method)) == Some(req.method)
    &&& valid_utf8(q.path) ==> req.path@ == decode_utf8(q.path)
    &&& forall|k: int|
        0 <= k < q.headers.len() ==> utf8_kept(#[trigger] q.headers[k])
}

/// Whether the decoder kept both halves of a header pair as they are, where
/// they are valid UTF-8.
pub open spec fn utf8_kept(h: (Seq<u8>, Seq<u8>)) -> bool {
    &&& valid_utf8(h.0) ==> lossy_text(h.0) == decode_utf8(h.0)
    &&& valid_utf8(h.1) ==> lossy_text(h.1) == decode_utf8(h.1)
}

/// Whether two byte strings are equal.
pub fn bytes_equal(a: &[u8], b: &[u8]) -> (r: bool)
    ensures
        r == (a@ == b@),
{
    if a.len() != b.len() {
        return false;
    }
    let mut i: usize = 0;
    while i < a.len()
        invariant
            i <= a@.len(),
            a@.len() == b@.len(),
            a@.subrange(0, i as int) == b@.subrange(0, i as int),
        decreases a@.len() - i,
    {
        if a[i] != b[i] {
            return false;
        }
        i = i + 1;
        assert(a@.subrange(0, i as int) =~= a@.subrange(0, i - 1).push(a@[i - 1]));
        assert(b@.subrange(0, i as int) =~= b@.subrange(0, i - 1).push(b@[i - 1]));
    }
    assert(a@ =~= a@.subrange(0, i as int));
    assert(b@ =~= b@.subrange(0, i as int));
    true
}

/// If some leading lines fail to parse as headers, so do all of them.
proof fn lemma_header_lines_prefix(ls: Seq<Seq<u8>>, n: int)
    requires
        0 <= n <= ls.len(),
        header_lines(ls.subrange(0, n)) is None,
    ensures
        header_lines(ls) is None,
    decreases ls.len(),
{
    if n < ls.len() {
        assert(ls.drop_last().subrange(0, n) =~= ls.subrange(0, n));
        lemma_header_lines_prefix(ls.drop_last(), n);
    } else {
        assert(ls.subrange(0, n) =~= ls);
    }
}

/// The declared body length of a list of header pairs.
fn declared_length(raw: &Vec<(Vec<u8>, Vec<u8>)>) -> (r: Option<usize>)
    ensures
        match content_length(raw_pairs(raw@)) {
            None => r is None,
            Some(n) => r == Some(n as usize),
        },
{
    let key: Vec<u8> = vec![99u8, 111, 110, 116, 101, 110, 116, 45, 108, 101, 110, 103, 116, 104];
    assert(key@ =~= content_length_key());
    let mut i: usize = raw.len();
    assert(raw@.subrange(0, i as int) =~= raw@);
    while i > 0
        invariant
            i <= raw@.len(),
            key@ == content_length_key(),
            lookup(raw_pairs(raw@), key@) == lookup(raw_pairs(raw@.subrange(0, i as int)), key@),
        decreases i,
    {
        let ghost t = raw_pairs(raw@.subrange(0, i as int));
        assert(t.drop_last() =~= raw_pairs(raw@.subrange(0, i - 1)));
        assert(t.last() == (raw@[i - 1].0@, raw@[i - 1].1@));
        if bytes_equal(raw[i - 1].0.as_slice(), key.as_slice()) {
            return parse_decimal(raw[i - 1].1.as_slice());
        }
        i = i - 1;
    }
    Some(0)
}

/// Reads one request from the start of `b`. Fails with `Incomplete` when the
/// bytes end before the head or the declared body does, with
/// `MethodNotAllowed` for a method other than GET and POST, and with
/// `BadRequest` for any other malformed input.
pub fn decode(b: &[u8]) -> (r: Result<Request, Error>)
    ensures
        match decode_raw(b@) {
            Ok(q) => r matches Ok(req) && decoded_as(req, q),
            Err(f) => r matches Err(e) && reports(e, f),
        },
{
    let (lines, end) = match read_head(b) {
        None => return Err(Error::Incomplete),
        Some(x) => x,
    };
    let ghost ls = byte_lines(lines@);
    if lines.len() == 0 {
        return Err(Error::BadRequest);
    }
    let first = lines[0].as_slice();
    assert(first@ == ls[0]);
    let k = index_of_byte(first, 32, 0);
    if k >= first.len() {
        return Err(Error::BadRequest);
    }
    let m = index_of_byte(first, 32, k + 1);
    if m == k + 1 {
        return Err(Error::BadRequest);
    }
    proof {
        lemma_find_byte_bound(first@, 32, (k + 1) as int);
    }
    let method_text = text_of(slice_subrange(first, 0, k));
    let method = match Method::from_str(method_text.as_str()) {
        Ok(x) => x,
        Err(e) => return Err(e),
    };
    let path = text_of(slice_subrange(first, k + 1, m));
    let ghost mtok = first@.subrange(0, k as int);
    let ghost ptok = first@.subrange(k + 1, m as int);
    assert(request_line(ls[0]) == Some((mtok, ptok)));
    let mut raw: Vec<(Vec<u8>, Vec<u8>)> = Vec::new();
    let mut idx: usize = 1;
    assert(ls.subrange(1, 1) =~= Seq::<Seq<u8>>::empty());
    assert(raw_pairs(raw@) =~= Seq::<(Seq<u8>, Seq<u8>)>::empty());
    while idx < lines.len()
        invariant
            1 <= idx <= lines@.len(),
            ls == byte_lines(lines@),
            ls.len() > 0,
            scan_head(b@, 0, 0) == Some((ls, end as int)),
            end <= b@.len(),
            request_line(ls[0]) == Some((mtok, ptok)),
            method_of(lossy_text(mtok)) == Some(method),
            path@ == lossy_text(ptok),
            header_lines(ls.subrange(1, idx as int)) == Some(raw_pairs(raw@)),
        decreases lines@.len() - idx,
    {
        let line = lines[idx].as_slice();
        assert(line@ == ls[idx as int]);
        let ghost upto = ls.subrange(1, idx + 1);
        assert(upto.drop_last() =~= ls.subrange(1, idx as int));
        assert(upto.last() == ls[idx as int]);
        let j = index_of_colon_space(line);
        if j >= line.len() {
            proof {
                assert(header_line(ls[idx as int]) is None);
                assert(header_lines(upto) is None);
                assert(ls.drop_first().subrange(0, idx as int) =~= upto);
                lemma_header_lines_prefix(ls.drop_first(), idx as int);
            }
            return Err(Error::BadRequest);
        }
        proof {
            lemma_colon_space_bound(line@, 0);
        }
        let name = lower_ascii(slice_subrange(line, 0, j));
        let value = copy_range(line, j + 2, line.len());
        let ghost before = raw@;
        raw.push((name, value));
        proof {
            assert(raw_pairs(raw@) =~= raw_pairs(before).push((name@, value@)));
        }
        idx = idx + 1;
    }
    assert(ls.subrange(1, ls.len() as int) =~= ls.drop_first());
    let n = match declared_length(&raw) {
        None => return Err(Error::BadRequest),
        Some(n) => n,
    };
    if b.len() - end < n {
        return Err(Error::Incomplete);
    }
    let body = copy_range(b, end, end + n);
    let mut headers: Vec<(String, String)> = Vec::new();
    let mut h: usize = 0;
    while h < raw.len()
        invariant
            h <= raw@.len(),
            pairs_text(headers@) == text_headers(raw_pairs(raw@).subrange(0, h as int)),
            forall|k: int| 0 <= k < h ==> utf8_kept(#[trigger] raw_pairs(raw@)[k]),
        decreases raw@.len() - h,
    {
        let name = text_of(raw[h].0.as_slice());
        let value = text_of(raw[h].1.as_slice());
        let ghost before = headers@;
        headers.push((name, value));
        proof {
            let rp = raw_pairs(raw@);
            assert(rp[h as int] == (raw@[h as int].0@, raw@[h as int].1@));
            assert(utf8_kept(rp[h as int]));
            assert(pairs_text(headers@) =~= pairs_text(before).push((name@, value@)));
            assert(text_headers(rp.subrange(0, h + 1)) =~= text_headers(rp.subrange(0, h as int)).push(
                (lossy_text(rp[h as int].0), lossy_text(rp[h as int].1)),
            ));
        }
        h = h + 1;
    }
    assert(raw_pairs(raw@).subrange(0, h as int) =~= raw_pairs(raw@));
    Ok(Request { path, method, params: Vec::new(), headers, body })
}

proof fn lemma_colon_space_bound(l: Seq<u8>, i: int)
    requires
        0 <= i,
    ensures
        find_colon_space(l, i) < l.len() ==> find_colon_space(l, i) + 1 < l.len(),
    decreases l.len() - i,
{
    if i + 1 < l.len() && !(l[i] == 58 && l[i + 1] == 32) {
        lemma_colon_space_bound(l, i + 1);
    }
}

proof fn lemma_find_byte_bound(l: Seq<u8>, c: u8, i: int)
    ensures
        i <= l.len() ==> i <= find_byte(l, c, i) <= l.len(),
        find_byte(l, c, i) <= l.len(),
    decreases l.len() - i,
{
    if 0 <= i < l.len() && l[i] != c {
        lemma_find_byte_bound(l, c, i + 1);
    }
}

} // verus!
