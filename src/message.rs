use vstd::prelude::*;
use vstd::utf8::{encode_utf8, is_ascii_chars, is_ascii_chars_encode_utf8};

use crate::codec::{
    after, all_digits, ascii_lower, content_length, content_length_key, crlf_at, digits_value,
    find_byte, find_colon_space, header_line, header_lines, lookup, scan_head,
};
use crate::http::{decimal, status_text, Response};

verus! {

/// The header name `content-type` as bytes.
pub open spec fn content_type_key() -> Seq<u8> {
    seq![99u8, 111, 110, 116, 101, 110, 116, 45, 116, 121, 112, 101]
}

/// The status code of a status line `PROTOCOL SP CODE SP ...`: the digits
/// between the first and the second space.
pub open spec fn status_of(line: Seq<u8>) -> Option<nat> {
    let k = find_byte(line, 32, 0);
    let m = find_byte(line, 32, k + 1);
    if k < line.len() && m > k + 1 && all_digits(line.subrange(k + 1, m)) {
        Some(digits_value(line.subrange(k + 1, m)))
    } else {
        None
    }
}

/// Reads any HTTP message as framed on the wire: the head up to the first
/// empty line, its first line, its headers, and `content-length` bytes of
/// body. Gives the status code, the `content-type` header, and the body.
pub open spec fn read_message(b: Seq<u8>) -> Option<(Option<nat>, Option<Seq<u8>>, Seq<u8>)> {
    match scan_head(b, 0, 0) {
        None => None,
        Some((ls, end)) => if ls.len() == 0 {
            None
        } else {
            match header_lines(ls.drop_first()) {
                None => None,
                Some(hs) => match content_length(hs) {
                    None => None,
                    Some(n) => if b.len() - end < n {
                        None
                    } else {
                        Some(
                            (status_of(ls[0]), lookup(hs, content_type_key()), b.subrange(end, end + n)),
                        )
                    },
                },
            }
        },
    }
}

/// Whether `l` holds no carriage return.
pub open spec fn no_cr(l: Seq<u8>) -> bool {
    forall|k: int| 0 <= k < l.len() ==> l[k] != 13
}

proof fn lemma_scan_skip(b: Seq<u8>, s: int, i: int, j: int)
    requires
        0 <= i <= j,
        j + 1 < b.len(),
        forall|k: int| i <= k < j ==> !crlf_at(b, k),
    ensures
        scan_head(b, s, i) == scan_head(b, s, j),
    decreases j - i,
{
    if i < j {
        lemma_scan_skip(b, s, i + 1, j);
    }
}

/// One non-empty line `l` followed by CR LF, at `s`.
proof fn lemma_scan_line(b: Seq<u8>, s: int, l: Seq<u8>)
    requires
        0 <= s,
        l.len() > 0,
        s + l.len() + 1 < b.len(),
        b.subrange(s, s + l.len()) == l,
        no_cr(l),
        b[s + l.len()] == 13,
        b[s + l.len() + 1] == 10,
    ensures
        scan_head(b, s, s) == after(seq![l], scan_head(b, s + l.len() + 2, s + l.len() + 2)),
{
    let j = s + l.len();
    assert forall|k: int| s <= k < j implies !crlf_at(b, k) by {
        assert(b[k] == l[k - s]);
    }
    lemma_scan_skip(b, s, s, j);
    assert(crlf_at(b, j));
    match scan_head(b, j + 2, j + 2) {
        Some(rest) => {
            assert(seq![b.subrange(s, j)] + rest.0 =~= seq![l] + rest.0);
        },
        None => {},
    }
}

proof fn lemma_find_byte_at(l: Seq<u8>, c: u8, i: int, j: int)
    requires
        0 <= i <= j <= l.len(),
        j < l.len() ==> l[j] == c,
        forall|k: int| i <= k < j ==> l[k] != c,
    ensures
        find_byte(l, c, i) == j,
    decreases j - i,
{
    if i < j {
        lemma_find_byte_at(l, c, i + 1, j);
    }
}

proof fn lemma_colon_space_at(l: Seq<u8>, i: int, j: int)
    requires
        0 <= i <= j,
        j + 1 < l.len(),
        l[j] == 58 && l[j + 1] == 32,
        forall|k: int| i <= k < j ==> l[k] != 58,
    ensures
        find_colon_space(l, i) == j,
    decreases j - i,
{
    if i < j {
        lemma_colon_space_at(l, i + 1, j);
    }
}

proof fn lemma_decimal_digits(n: nat)
    ensures
        decimal(n).len() > 0,
        all_digits(decimal(n)),
        digits_value(decimal(n)) == n,
    decreases n,
{
    let d = decimal(n);
    if n < 10 {
        assert(d.drop_last() =~= Seq::<u8>::empty());
        assert(digits_value(d.drop_last()) == 0);
    } else {
        lemma_decimal_digits(n / 10);
        assert(d.drop_last() =~= decimal(n / 10));
        assert(d.last() == (48 + n % 10) as u8);
        assert((n / 10) * 10 + n % 10 == n);
        assert forall|i: int| 0 <= i < d.len() implies 48 <= #[trigger] d[i] <= 57 by {
            if i < d.len() - 1 {
                assert(d[i] == decimal(n / 10)[i]);
            }
        }
    }
}

/// An ASCII literal's UTF-8 bytes are its characters, one each.
proof fn lemma_ascii(s: Seq<char>, b: Seq<u8>)
    requires
        s.len() == b.len(),
        is_ascii_chars(s),
        forall|i: int| 0 <= i < s.len() ==> #[trigger] b[i] == s[i] as u8,
    ensures
        encode_utf8(s) == b,
{
    is_ascii_chars_encode_utf8(s);
    assert(encode_utf8(s) =~= b);
}

proof fn lemma_status_text_no_cr(code: u16)
    ensures
        no_cr(encode_utf8(status_text(code))),
{
    let t = status_text(code);
    reveal_strlit("OK");
    reveal_strlit("Created");
    reveal_strlit("Bad Request");
    reveal_strlit("Not Found");
    reveal_strlit("Internal Server Error");
    reveal_strlit("Unknown");
    assert(is_ascii_chars(t));
    is_ascii_chars_encode_utf8(t);
    assert forall|k: int| 0 <= k < encode_utf8(t).len() implies encode_utf8(t)[k] != 13 by {
        assert(t[k] != '\r');
    }
}

/// Encoding then reading back gives the same status code, content type and
/// body, for every response whose content type holds no carriage return
/// (one that does would end its header line early).
pub proof fn lemma_encode_then_read(r: Response)
    requires
        no_cr(encode_utf8(r.content_type@)),
        r.body@.len() <= usize::MAX,
    ensures
        read_message(r.wire()) == Some(
            (
                Some(r.status_code as nat),
                Some(encode_utf8(r.content_type@)),
                r.body@,
            ),
        ),
{
    reveal_strlit("HTTP/1.1 ");
    reveal_strlit(" ");
    reveal_strlit("\r\nContent-Type: ");
    reveal_strlit("\r\nContent-Length: ");
    reveal_strlit("\r\n\r\n");
    let proto: Seq<u8> = seq![72u8, 84, 84, 80, 47, 49, 46, 49, 32];
    let sp: Seq<u8> = seq![32u8];
    let crlf: Seq<u8> = seq![13u8, 10];
    let k1: Seq<u8> = seq![67u8, 111, 110, 116, 101, 110, 116, 45, 84, 121, 112, 101, 58, 32];
    let k2: Seq<u8> = seq![67u8, 111, 110, 116, 101, 110, 116, 45, 76, 101, 110, 103, 116, 104, 58, 32];
    lemma_ascii("HTTP/1.1 "@, proto);
    lemma_ascii(" "@, sp);
    lemma_ascii("\r\nContent-Type: "@, crlf + k1);
    lemma_ascii("\r\nContent-Length: "@, crlf + k2);
    lemma_ascii("\r\n\r\n"@, crlf + crlf);
    let d1 = decimal(r.status_code as nat);
    let d2 = decimal(r.body@.len());
    let t = encode_utf8(status_text(r.status_code));
    let c = encode_utf8(r.content_type@);
    let body = r.body@;
    lemma_decimal_digits(r.status_code as nat);
    lemma_decimal_digits(r.body@.len());
    lemma_status_text_no_cr(r.status_code);
    let line0 = proto + d1 + sp + t;
    let line1 = k1 + c;
    let line2 = k2 + d2;
    let w = r.wire();
    assert(w == proto + d1 + sp + t + (crlf + k1) + c + (crlf + k2) + d2 + (crlf + crlf) + body);
    assert(w =~= line0 + crlf + line1 + crlf + line2 + crlf + crlf + body);
    lemma_read_lines(w, line0, line1, line2, body, c, d1, d2, t, r.status_code as nat);
}

proof fn lemma_read_scan(w: Seq<u8>, line0: Seq<u8>, line1: Seq<u8>, line2: Seq<u8>, body: Seq<u8>)
    requires
        w == line0 + seq![13u8, 10] + line1 + seq![13u8, 10] + line2 + seq![13u8, 10] + seq![13u8, 10] + body,
        line0.len() > 0 && line1.len() > 0 && line2.len() > 0,
        no_cr(line0),
        no_cr(line1),
        no_cr(line2),
    ensures
        scan_head(w, 0, 0) == Some((seq![line0, line1, line2], line0.len() as int + line1.len() + line2.len() + 8)),
{
    let s1: int = line0.len() as int + 2;
    let s2: int = s1 + line1.len() + 2;
    let s3: int = s2 + line2.len() + 2;
    let end: int = s3 + 2;
    assert(w.subrange(0, line0.len() as int) =~= line0);
    assert(w.subrange(s1, s1 + line1.len()) =~= line1);
    assert(w.subrange(s2, s2 + line2.len()) =~= line2);
    lemma_scan_line(w, 0, line0);
    lemma_scan_line(w, s1, line1);
    lemma_scan_line(w, s2, line2);
    assert(crlf_at(w, s3));
    let ls = seq![line0, line1, line2];
    assert(end == line0.len() + line1.len() + line2.len() + 8);
    assert(scan_head(w, s3, s3) == Some((Seq::<Seq<u8>>::empty(), end)));
    assert(scan_head(w, 0, 0) == Some((ls, end))) by {
        assert(seq![line1] + (seq![line2] + Seq::<Seq<u8>>::empty()) =~= seq![line1, line2]);
        assert(seq![line0] + seq![line1, line2] =~= ls);
    }
}

proof fn lemma_read_lines(
    w: Seq<u8>,
    line0: Seq<u8>,
    line1: Seq<u8>,
    line2: Seq<u8>,
    body: Seq<u8>,
    c: Seq<u8>,
    d1: Seq<u8>,
    d2: Seq<u8>,
    t: Seq<u8>,
    code: nat,
)
    requires
        w == line0 + seq![13u8, 10] + line1 + seq![13u8, 10] + line2 + seq![13u8, 10] + seq![13u8, 10] + body,
        line0 == seq![72u8, 84, 84, 80, 47, 49, 46, 49, 32] + d1 + seq![32u8] + t,
        no_cr(t),
        line1 == seq![67u8, 111, 110, 116, 101, 110, 116, 45, 84, 121, 112, 101, 58, 32] + c,
        line2 == seq![67u8, 111, 110, 116, 101, 110, 116, 45, 76, 101, 110, 103, 116, 104, 58, 32] + d2,
        no_cr(c),
        d1.len() > 0 && all_digits(d1) && digits_value(d1) == code,
        d2.len() > 0 && all_digits(d2) && digits_value(d2) == body.len(),
        body.len() <= usize::MAX,
    ensures
        read_message(w) == Some((Some(code), Some(c), body)),
{
    let crlf: Seq<u8> = seq![13u8, 10];
    let k1 = line1.subrange(0, 14);
    let k2 = line2.subrange(0, 16);
    let end: int = line0.len() as int + line1.len() + line2.len() + 8;
    let ls = seq![line0, line1, line2];
    assert(no_cr(line0)) by {
        assert forall|k: int| 0 <= k < line0.len() implies line0[k] != 13 by {
            if k >= 10 + d1.len() {
                assert(line0[k] == t[k - 10 - d1.len()]);
            } else if k >= 9 && k < 9 + d1.len() {
                assert(line0[k] == d1[k - 9]);
            }
        }
    }
    assert(no_cr(line1)) by {
        assert forall|k: int| 0 <= k < line1.len() implies line1[k] != 13 by {
            if k >= 14 {
                assert(line1[k] == c[k - 14]);
            }
        }
    }
    assert(no_cr(line2)) by {
        assert forall|k: int| 0 <= k < line2.len() implies line2[k] != 13 by {
            if k >= 16 {
                assert(line2[k] == d2[k - 16]);
            }
        }
    }
    lemma_read_scan(w, line0, line1, line2, body);
    // the status line
    lemma_find_byte_at(line0, 32, 0, 8);
    lemma_find_byte_at(line0, 32, 9, 9 + d1.len() as int);
    assert(line0.subrange(9, 9 + d1.len() as int) =~= d1);
    assert(status_of(line0) == Some(code));
    // the header lines
    lemma_colon_space_at(line1, 0, 12);
    lemma_colon_space_at(line2, 0, 14);
    assert(line1.subrange(14, line1.len() as int) =~= c);
    assert(line2.subrange(16, line2.len() as int) =~= d2);
    assert(ascii_lower(line1.subrange(0, 12)) =~= content_type_key());
    assert(ascii_lower(line2.subrange(0, 14)) =~= content_length_key());
    let hs = seq![(content_type_key(), c), (content_length_key(), d2)];
    assert(ls.drop_first() =~= seq![line1, line2]);
    assert(header_line(line1) == Some((content_type_key(), c)));
    assert(header_line(line2) == Some((content_length_key(), d2)));
    assert(header_lines(Seq::<Seq<u8>>::empty()) == Some(Seq::<(Seq<u8>, Seq<u8>)>::empty()));
    assert(header_lines(seq![line1]) == Some(seq![(content_type_key(), c)])) by {
        assert(seq![line1].drop_last() =~= Seq::<Seq<u8>>::empty());
        assert(Seq::<(Seq<u8>, Seq<u8>)>::empty().push((content_type_key(), c)) =~= seq![(content_type_key(), c)]);
    }
    assert(header_lines(seq![line1, line2]) == Some(hs)) by {
        assert(seq![line1, line2].drop_last() =~= seq![line1]);
        assert(seq![line1].drop_last() =~= Seq::<Seq<u8>>::empty());
        assert(Seq::<(Seq<u8>, Seq<u8>)>::empty().push((content_type_key(), c)).push(
            (content_length_key(), d2),
        ) =~= hs);
    }
    assert(hs.drop_last() =~= seq![(content_type_key(), c)]);
    assert(content_type_key() != content_length_key()) by {
        assert(content_type_key().len() != content_length_key().len());
    }
    assert(lookup(seq![(content_type_key(), c)], content_type_key()) == Some(c));
    assert(lookup(hs, content_type_key()) == Some(c));
    assert(lookup(hs, content_length_key()) == Some(d2));
    assert(content_length(hs) == Some(body.len()));
    assert(w.subrange(end, end + body.len()) =~= body);
}

} // verus!
