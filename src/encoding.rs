//! Content-Transfer-Encoding decoding of MIME bodies: quoted-printable and
//! base64, on the bytes of the body text.

use vstd::prelude::*;
use vstd::utf8::{decode_utf8, encode_utf8, valid_utf8};
use crate::text::{append, chars_of, eq_ci, equal_ci, find_char, index_of, is_space, slice, string_of};

verus! {

/// The value of a hexadecimal digit (either case).
pub open spec fn hex_value(b: u8) -> Option<u8> {
    if 48 <= b && b <= 57 {
        Some((b - 48) as u8)
    } else if 65 <= b && b <= 70 {
        Some((b - 55) as u8)
    } else if 97 <= b && b <= 102 {
        Some((b - 87) as u8)
    } else {
        None
    }
}

/// Quoted-printable decoding of `s` from index `i`: `=XX` is the byte with
/// hexadecimal value XX, `=` before a line break is a soft break and goes
/// away with the break, every other byte stands for itself.
pub open spec fn qp_decode(s: Seq<u8>, i: int) -> Seq<u8>
    decreases s.len() - i,
{
    if i < 0 || i >= s.len() {
        Seq::empty()
    } else if s[i] == 61 && i + 1 < s.len() && s[i + 1] == 10 {
        qp_decode(s, i + 2)
    } else if s[i] == 61 && i + 2 < s.len() && s[i + 1] == 13 && s[i + 2] == 10 {
        qp_decode(s, i + 3)
    } else if s[i] == 61 && i + 2 < s.len() && hex_value(s[i + 1]) is Some && hex_value(
        s[i + 2],
    ) is Some {
        seq![(hex_value(s[i + 1])->Some_0 * 16 + hex_value(s[i + 2])->Some_0) as u8] + qp_decode(
            s,
            i + 3,
        )
    } else {
        seq![s[i]] + qp_decode(s, i + 1)
    }
}

/// The 6-bit value of a base64 alphabet byte.
pub open spec fn b64_value(b: u8) -> Option<u8> {
    if 65 <= b && b <= 90 {
        Some((b - 65) as u8)
    } else if 97 <= b && b <= 122 {
        Some((b - 71) as u8)
    } else if 48 <= b && b <= 57 {
        Some((b + 4) as u8)
    } else if b == 43 {
        Some(62)
    } else if b == 47 {
        Some(63)
    } else {
        None
    }
}

/// The 6-bit values of the base64 alphabet bytes of `s`, in order; line
/// breaks, padding and other bytes are skipped.
pub open spec fn b64_digits(s: Seq<u8>) -> Seq<u8>
    decreases s.len(),
{
    if s.len() == 0 {
        Seq::empty()
    } else {
        match b64_value(s.last()) {
            Some(v) => b64_digits(s.drop_last()).push(v),
            None => b64_digits(s.drop_last()),
        }
    }
}

/// The bytes that 6-bit values `d[i..]` encode: three bytes for each group of
/// four values, and one or two bytes for a final group of two or three.
pub open spec fn b64_bytes(d: Seq<u8>, i: int) -> Seq<u8>
    decreases d.len() - i,
{
    if i < 0 || i + 2 > d.len() {
        Seq::empty()
    } else {
        let b0 = (d[i] * 4 + d[i + 1] / 16) as u8;
        if i + 3 > d.len() {
            seq![b0]
        } else {
            let b1 = ((d[i + 1] % 16) * 16 + d[i + 2] / 4) as u8;
            if i + 4 > d.len() {
                seq![b0, b1]
            } else {
                let b2 = ((d[i + 2] % 4) * 64 + d[i + 3]) as u8;
                seq![b0, b1, b2] + b64_bytes(d, i + 4)
            }
        }
    }
}

/// Base64 decoding of a body.
pub open spec fn b64_decode(s: Seq<u8>) -> Seq<u8> {
    b64_bytes(b64_digits(s), 0)
}

/// What `String::from_utf8_lossy` makes of a byte sequence.
pub uninterp spec fn utf8_lossy(b: Seq<u8>) -> Seq<char>;

/// Relies on `String::from_utf8_lossy`: valid UTF-8 decodes to its
/// characters; the result depends on the bytes alone.
#[verifier::external_body]
pub(crate) fn text_of_bytes(b: &[u8]) -> (r: String)
    ensures
        r@ == utf8_lossy(b@),
        valid_utf8(b@) ==> r@ == decode_utf8(b@),
{
    String::from_utf8_lossy(b).into_owned()
}

pub fn hex_digit(b: u8) -> (r: Option<u8>)
    ensures
        r == hex_value(b),
{
    if 48 <= b && b <= 57 {
        Some(b - 48)
    } else if 65 <= b && b <= 70 {
        Some(b - 55)
    } else if 97 <= b && b <= 102 {
        Some(b - 87)
    } else {
        None
    }
}

/// Quoted-printable decoding.
pub fn decode_quoted_printable(s: &[u8]) -> (r: Vec<u8>)
    ensures
        r@ == qp_decode(s@, 0),
{
    let mut out: Vec<u8> = Vec::new();
    let mut i: usize = 0;
    let n = s.len();
    while i < n
        invariant
            n == s@.len(),
            i <= n,
            qp_decode(s@, 0) == out@ + qp_decode(s@, i as int),
        decreases n - i,
    {
        let ghost before = out@;
        if s[i] == 61 && n - i > 1 && s[i + 1] == 10 {
            i = i + 2;
        } else if s[i] == 61 && n - i > 2 && s[i + 1] == 13 && s[i + 2] == 10 {
            i = i + 3;
        } else {
            let hi = if s[i] == 61 && n - i > 2 {
                hex_digit(s[i + 1])
            } else {
                None
            };
            let lo = if s[i] == 61 && n - i > 2 {
                hex_digit(s[i + 2])
            } else {
                None
            };
            match (hi, lo) {
                (Some(h), Some(l)) => {
                    let v: u8 = h * 16 + l;
                    out.push(v);
                    assert(out@ + qp_decode(s@, i + 3) =~= before + (seq![v] + qp_decode(
                        s@,
                        i + 3,
                    )));
                    i = i + 3;
                },
                _ => {
                    let v = s[i];
                    out.push(v);
                    assert(out@ + qp_decode(s@, i + 1) =~= before + (seq![v] + qp_decode(
                        s@,
                        i + 1,
                    )));
                    i = i + 1;
                },
            }
        }
    }
    assert(out@ + qp_decode(s@, n as int) =~= out@);
    out
}

pub fn b64_digit(b: u8) -> (r: Option<u8>)
    ensures
        r == b64_value(b),
        r matches Some(v) ==> v < 64,
{
    if 65 <= b && b <= 90 {
        Some(b - 65)
    } else if 97 <= b && b <= 122 {
        Some(b - 71)
    } else if 48 <= b && b <= 57 {
        Some(b + 4)
    } else if b == 43 {
        Some(62)
    } else if b == 47 {
        Some(63)
    } else {
        None
    }
}

/// Base64 decoding.
pub fn decode_base64(s: &[u8]) -> (r: Vec<u8>)
    ensures
        r@ == b64_decode(s@),
{
    let mut d: Vec<u8> = Vec::new();
    let mut i: usize = 0;
    while i < s.len()
        invariant
            i <= s@.len(),
            d@ == b64_digits(s@.subrange(0, i as int)),
            forall|k: int| 0 <= k < d@.len() ==> #[trigger] d@[k] < 64,
        decreases s@.len() - i,
    {
        assert(s@.subrange(0, i + 1).drop_last() =~= s@.subrange(0, i as int));
        match b64_digit(s[i]) {
            Some(v) => d.push(v),
            None => {},
        }
        i += 1;
    }
    assert(s@.subrange(0, s@.len() as int) =~= s@);
    let mut out: Vec<u8> = Vec::new();
    let mut j: usize = 0;
    let m = d.len();
    while m - j >= 2
        invariant
            m == d@.len(),
            j <= m,
            forall|k: int| 0 <= k < d@.len() ==> #[trigger] d@[k] < 64,
            b64_bytes(d@, 0) == out@ + b64_bytes(d@, j as int),
        decreases m - j,
    {
        let ghost before = out@;
        let a = d[j];
        let b = d[j + 1];
        let b0: u8 = ((a as u32) * 4 + (b as u32) / 16) as u8;
        out.push(b0);
        if m - j < 3 {
            assert(out@ + b64_bytes(d@, m as int) =~= before + b64_bytes(d@, j as int));
            j = m;
        } else {
            let c = d[j + 2];
            let b1: u8 = (((b as u32) % 16) * 16 + (c as u32) / 4) as u8;
            out.push(b1);
            if m - j < 4 {
                assert(out@ + b64_bytes(d@, m as int) =~= before + b64_bytes(d@, j as int));
                j = m;
            } else {
                let e = d[j + 3];
                let b2: u8 = (((c as u32) % 4) * 64 + (e as u32)) as u8;
                out.push(b2);
                assert(out@ + b64_bytes(d@, j + 4) =~= before + b64_bytes(d@, j as int));
                j = j + 4;
            }
        }
    }
    assert(out@ + b64_bytes(d@, j as int) =~= out@);
    out
}

/// Bytes read as ISO-8859-1: each byte is the character of that code.
pub open spec fn latin1(b: Seq<u8>) -> Seq<char> {
    b.map_values(|x: u8| x as char)
}

/// The text that bytes in `charset` stand for: ISO-8859-1 byte by byte,
/// anything else as UTF-8.
pub open spec fn charset_text(charset: Seq<char>, bytes: Seq<u8>) -> Seq<char> {
    if eq_ci(charset, "iso-8859-1"@) || eq_ci(charset, "latin1"@) {
        latin1(bytes)
    } else {
        utf8_lossy(bytes)
    }
}

/// The Q encoding of encoded words: quoted-printable where `_` is a space.
pub open spec fn q_bytes(s: Seq<u8>) -> Seq<u8> {
    s.map_values(|b: u8| if b == 95 { 32u8 } else { b })
}

/// No white space in `s`.
pub open spec fn no_space(s: Seq<char>) -> bool {
    forall|k: int| 0 <= k < s.len() ==> !is_space(#[trigger] s[k])
}

/// The encoded word `=?charset?B?text?=` or `=?charset?Q?text?=` that starts
/// at `i`: the index just after it and the text it stands for.
pub open spec fn encoded_word(v: Seq<char>, i: int) -> Option<(int, Seq<char>)> {
    if 0 <= i && i + 1 < v.len() && v[i] == '=' && v[i + 1] == '?' {
        let c = index_of(v, '?', i + 2);
        if c > i + 2 && c + 2 < v.len() && v[c + 2] == '?' && (v[c + 1] == 'B' || v[c + 1] == 'b'
            || v[c + 1] == 'Q' || v[c + 1] == 'q') {
            let t = index_of(v, '?', c + 3);
            if t >= c + 3 && t + 1 < v.len() && v[t + 1] == '=' && no_space(v.subrange(i + 2, t)) {
                let bytes = encode_utf8(v.subrange(c + 3, t));
                let raw = if v[c + 1] == 'B' || v[c + 1] == 'b' {
                    b64_decode(bytes)
                } else {
                    qp_decode(q_bytes(bytes), 0)
                };
                Some((t + 2, charset_text(v.subrange(i + 2, c), raw)))
            } else {
                None
            }
        } else {
            None
        }
    } else {
        None
    }
}

/// Index of the first non-blank character at or after `i`, or the length.
pub open spec fn skip_blanks(v: Seq<char>, i: int) -> int
    decreases v.len() - i,
{
    if i < 0 || i >= v.len() {
        v.len() as int
    } else if crate::text::is_blank(v[i]) {
        skip_blanks(v, i + 1)
    } else {
        i
    }
}

/// A header value from `i` with its encoded words decoded; the blanks
/// between two adjacent encoded words are dropped.
pub open spec fn decode_words(v: Seq<char>, i: int) -> Seq<char>
    decreases v.len() - i,
{
    if i < 0 || i >= v.len() {
        Seq::empty()
    } else {
        match encoded_word(v, i) {
            Some((e, d)) => if e > i {
                let j = skip_blanks(v, e);
                if j > e && encoded_word(v, j) is Some {
                    d + decode_words(v, j)
                } else {
                    d + decode_words(v, e)
                }
            } else {
                seq![v[i]] + decode_words(v, i + 1)
            },
            None => seq![v[i]] + decode_words(v, i + 1),
        }
    }
}

/// A header value with its encoded words decoded.
pub open spec fn decoded_header(v: Seq<char>) -> Seq<char> {
    decode_words(v, 0)
}

fn latin1_text(b: &[u8]) -> (r: Vec<char>)
    ensures
        r@ == latin1(b@),
{
    let mut out: Vec<char> = Vec::new();
    let mut i: usize = 0;
    while i < b.len()
        invariant
            i <= b@.len(),
            out@ == latin1(b@.subrange(0, i as int)),
        decreases b@.len() - i,
    {
        out.push(b[i] as char);
        i += 1;
        assert(out@ =~= latin1(b@.subrange(0, i as int)));
    }
    assert(b@.subrange(0, b@.len() as int) =~= b@);
    out
}

/// The text that bytes in `charset` stand for.
pub fn text_in_charset(charset: &[char], bytes: &[u8]) -> (r: Vec<char>)
    ensures
        r@ == charset_text(charset@, bytes@),
{
    if equal_ci(charset, chars_of("iso-8859-1").as_slice()) || equal_ci(
        charset,
        chars_of("latin1").as_slice(),
    ) {
        latin1_text(bytes)
    } else {
        chars_of(text_of_bytes(bytes).as_str())
    }
}

fn q_to_qp(b: &[u8]) -> (r: Vec<u8>)
    ensures
        r@ == q_bytes(b@),
{
    let mut out: Vec<u8> = Vec::new();
    let mut i: usize = 0;
    while i < b.len()
        invariant
            i <= b@.len(),
            out@ == q_bytes(b@.subrange(0, i as int)),
        decreases b@.len() - i,
    {
        out.push(if b[i] == 95 { 32 } else { b[i] });
        i += 1;
        assert(out@ =~= q_bytes(b@.subrange(0, i as int)));
    }
    assert(b@.subrange(0, b@.len() as int) =~= b@);
    out
}

fn has_no_space(s: &[char], from: usize, to: usize) -> (r: bool)
    requires
        from <= to <= s@.len(),
    ensures
        r == no_space(s@.subrange(from as int, to as int)),
{
    let mut k: usize = from;
    while k < to
        invariant
            from <= k <= to <= s@.len(),
            forall|j: int| from <= j < k ==> !is_space(#[trigger] s@[j]),
        decreases to - k,
    {
        let c = s[k];
        if c == ' ' || c == '\t' || c == '\r' || c == '\n' {
            assert(s@.subrange(from as int, to as int)[k - from] == c);
            return false;
        }
        k += 1;
    }
    assert forall|j: int| 0 <= j < to - from implies !is_space(
        #[trigger] s@.subrange(from as int, to as int)[j],
    ) by {
        assert(s@.subrange(from as int, to as int)[j] == s@[from + j]);
    }
    true
}

/// The encoded word at `i`, if one starts there.
fn encoded_word_at(v: &[char], i: usize) -> (r: Option<(usize, Vec<char>)>)
    requires
        i <= v@.len(),
    ensures
        match r {
            Some((e, d)) => encoded_word(v@, i as int) == Some((e as int, d@)),
            None => encoded_word(v@, i as int) is None,
        },
{
    let n = v.len();
    if !(n - i > 1 && v[i] == '=' && v[i + 1] == '?') {
        return None;
    }
    let c = find_char(v, '?', i + 2);
    if !(c > i + 2 && n - c > 2 && v[c + 2] == '?' && (v[c + 1] == 'B' || v[c + 1] == 'b'
        || v[c + 1] == 'Q' || v[c + 1] == 'q')) {
        return None;
    }
    let t = find_char(v, '?', c + 3);
    if !(n - t > 1 && v[t + 1] == '=' && has_no_space(v, i + 2, t)) {
        return None;
    }
    let payload = string_of(slice(v, c + 3, t).as_slice());
    let bytes = payload.as_str().as_bytes();
    let raw = if v[c + 1] == 'B' || v[c + 1] == 'b' {
        decode_base64(bytes)
    } else {
        decode_quoted_printable(q_to_qp(bytes).as_slice())
    };
    let charset = slice(v, i + 2, c);
    let d = text_in_charset(charset.as_slice(), raw.as_slice());
    Some((t + 2, d))
}

fn skip_blanks_from(v: &[char], from: usize) -> (r: usize)
    requires
        from <= v@.len(),
    ensures
        r as int == skip_blanks(v@, from as int),
        from <= r <= v@.len(),
{
    let mut i: usize = from;
    while i < v.len() && (v[i] == ' ' || v[i] == '\t')
        invariant
            from <= i <= v@.len(),
            skip_blanks(v@, from as int) == skip_blanks(v@, i as int),
        decreases v@.len() - i,
    {
        i += 1;
    }
    i
}

/// A header value with its encoded words decoded.
pub fn decode_header_value(v: &[char]) -> (r: Vec<char>)
    ensures
        r@ == decoded_header(v@),
{
    let mut out: Vec<char> = Vec::new();
    let mut i: usize = 0;
    let n = v.len();
    while i < n
        invariant
            n == v@.len(),
            i <= n,
            decode_words(v@, 0) == out@ + decode_words(v@, i as int),
        decreases n - i,
    {
        let ghost before = out@;
        match encoded_word_at(v, i) {
            Some((e, d)) => {
                let j = skip_blanks_from(v, e);
                let next = if j > e {
                    match encoded_word_at(v, j) {
                        Some(_) => j,
                        None => e,
                    }
                } else {
                    e
                };
                append(&mut out, d.as_slice());
                assert(out@ + decode_words(v@, next as int) =~= before + (d@ + decode_words(
                    v@,
                    next as int,
                )));
                i = next;
            },
            None => {
                let c = v[i];
                out.push(c);
                assert(out@ + decode_words(v@, i + 1) =~= before + (seq![c] + decode_words(
                    v@,
                    i + 1,
                )));
                i += 1;
            },
        }
    }
    assert(out@ + decode_words(v@, n as int) =~= out@);
    out
}

} // verus!
