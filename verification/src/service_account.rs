//! Service-account sign-in: the PEM key's DER bytes, base64 in both
//! directions, and the signed JWT assertion.
use crate::auth::AuthError;
use crate::callback::{split_chars, split_on};
use crate::output::chars_of;
use crate::text::{char_is_whitespace, concat2, has_prefix, is_white_space, push_char, push_str, str_starts_with, string_of};
use vstd::prelude::*;
use vstd::utf8::encode_utf8;

verus! {

/// Value of a byte in the standard base64 alphabet.
pub open spec fn b64_value(b: u8) -> Option<u8> {
    if 65 <= b <= 90 {
        Some((b - 65) as u8)
    } else if 97 <= b <= 122 {
        Some((b - 71) as u8)
    } else if 48 <= b <= 57 {
        Some((b + 4) as u8)
    } else if b == 43 {
        Some(62u8)
    } else if b == 47 {
        Some(63u8)
    } else {
        None
    }
}

/// Bytes that the decoder passes over: `=`, line feed, carriage return.
pub open spec fn b64_skipped(b: u8) -> bool {
    b == 61 || b == 10 || b == 13
}

/// The sextets of a base64 text's bytes, or the first byte that is neither
/// passed over nor in the alphabet.
pub open spec fn b64_sextets(bs: Seq<u8>) -> Result<Seq<u8>, u8>
    decreases bs.len(),
{
    if bs.len() == 0 {
        Ok(seq![])
    } else {
        match b64_sextets(bs.drop_last()) {
            Err(b) => Err(b),
            Ok(s) => {
                let b = bs.last();
                if b64_skipped(b) {
                    Ok(s)
                } else {
                    match b64_value(b) {
                        Some(v) => Ok(s.push(v)),
                        None => Err(b),
                    }
                }
            },
        }
    }
}

/// The bytes that a run of sextets spells, eight bits at a time; the bits
/// of an unfinished last byte are dropped.
pub open spec fn sextets_to_bytes(s: Seq<u8>) -> Seq<u8>
    decreases s.len(),
{
    if s.len() < 2 {
        seq![]
    } else if s.len() == 2 {
        seq![(s[0] * 4 + s[1] / 16) as u8]
    } else if s.len() == 3 {
        seq![(s[0] * 4 + s[1] / 16) as u8, ((s[1] % 16) * 16 + s[2] / 4) as u8]
    } else {
        seq![(s[0] * 4 + s[1] / 16) as u8, ((s[1] % 16) * 16 + s[2] / 4) as u8, ((s[2] % 4) * 64 + s[3]) as u8]
            + sextets_to_bytes(s.skip(4))
    }
}

/// What decoding a standard base64 text gives: its bytes, or the message
/// naming the first character outside the alphabet.
pub open spec fn base64_decoded(text: Seq<char>) -> Result<Seq<u8>, Seq<char>> {
    match b64_sextets(encode_utf8(text)) {
        Ok(s) => Ok(sextets_to_bytes(s)),
        Err(b) => Err("invalid base64 character: "@ + seq![b as char]),
    }
}

/// The bytes that one more sextet `v` adds to those of `s`.
pub open spec fn sextet_tail(s: Seq<u8>, v: u8) -> Seq<u8> {
    if s.len() % 4 == 0 {
        seq![]
    } else if s.len() % 4 == 1 {
        seq![(s.last() * 4 + v / 16) as u8]
    } else if s.len() % 4 == 2 {
        seq![((s.last() % 16) * 16 + v / 4) as u8]
    } else {
        seq![((s.last() % 4) * 64 + v) as u8]
    }
}

proof fn lemma_sextets_push_short(s: Seq<u8>, v: u8)
    requires
        s.len() < 4,
    ensures
        sextets_to_bytes(s.push(v)) == sextets_to_bytes(s) + sextet_tail(s, v),
{
    let t = s.push(v);
    if s.len() == 3 {
        assert(t.skip(4) =~= Seq::<u8>::empty());
        assert(sextets_to_bytes(Seq::<u8>::empty()) == Seq::<u8>::empty());
        assert(t[0] == s[0] && t[1] == s[1] && t[2] == s[2] && t[3] == v);
    } else if s.len() == 2 {
        assert(t[0] == s[0] && t[1] == s[1] && t[2] == v);
    } else if s.len() == 1 {
        assert(t[0] == s[0] && t[1] == v);
    }
    assert(sextets_to_bytes(t) =~= sextets_to_bytes(s) + sextet_tail(s, v));
}

proof fn lemma_sextets_push(s: Seq<u8>, v: u8)
    ensures
        sextets_to_bytes(s.push(v)) == sextets_to_bytes(s) + sextet_tail(s, v),
    decreases s.len(),
{
    if s.len() >= 4 {
        let t = s.push(v);
        assert(t.skip(4) =~= s.skip(4).push(v));
        assert(t[0] == s[0] && t[1] == s[1] && t[2] == s[2] && t[3] == s[3]);
        lemma_sextets_push(s.skip(4), v);
        if s.skip(4).len() > 0 {
            assert(s.skip(4).last() == s.last());
        }
        assert(sextet_tail(s.skip(4), v) == sextet_tail(s, v));
        assert(sextets_to_bytes(t) =~= sextets_to_bytes(s) + sextet_tail(s, v));
    } else {
        lemma_sextets_push_short(s, v);
    }
}

proof fn lemma_sextets_err(bs: Seq<u8>, k: int, b: u8)
    requires
        0 <= k <= bs.len(),
        b64_sextets(bs.take(k)) == Err::<Seq<u8>, u8>(b),
    ensures
        b64_sextets(bs) == Err::<Seq<u8>, u8>(b),
    decreases bs.len(),
{
    if k == bs.len() {
        assert(bs.take(k) =~= bs);
    } else {
        assert(bs.drop_last().take(k) =~= bs.take(k));
        lemma_sextets_err(bs.drop_last(), k, b);
    }
}

proof fn lemma_accumulate(buf: u32, v: u32)
    by (bit_vector)
    requires
        buf < 64,
        v < 64,
    ensures
        (buf << 6u32) | v == buf * 64 + v,
        (((buf << 6u32) | v) >> 4u32) == buf * 4 + v / 16,
        (((buf << 6u32) | v) & 15u32) == v % 16,
        (((buf << 6u32) | v) >> 2u32) == buf * 16 + v / 4,
        (((buf << 6u32) | v) & 3u32) == v % 4,
        (((buf << 6u32) | v) >> 0u32) == buf * 64 + v,
        (((buf << 6u32) | v) & 0u32) == 0,
        (1u32 << 4u32) == 16,
        (1u32 << 2u32) == 4,
        (1u32 << 0u32) == 1,
{
}

/// Value of a byte in the standard base64 alphabet.
fn b64_digit(b: u8) -> (r: Option<u8>)
    ensures
        r == b64_value(b),
{
    if 65u8 <= b && b <= 90u8 {
        Some(b - 65)
    } else if 97u8 <= b && b <= 122u8 {
        Some(b - 71)
    } else if 48u8 <= b && b <= 57u8 {
        Some(b + 4)
    } else if b == 43u8 {
        Some(62)
    } else if b == 47u8 {
        Some(63)
    } else {
        None
    }
}

/// Decodes standard base64 (padding, line feeds and carriage returns are
/// passed over).
pub fn base64_decode(input: &str) -> (r: Result<Vec<u8>, String>)
    ensures
        match base64_decoded(input@) {
            Ok(bs) => r matches Ok(v) && v@ == bs,
            Err(m) => r matches Err(e) && e@ == m,
        },
{
    let bytes = input.as_bytes();
    let ghost all = bytes@;
    let mut result: Vec<u8> = Vec::new();
    let mut buf: u32 = 0;
    let mut bits: u32 = 0;
    let ghost mut s: Seq<u8> = seq![];
    let mut i: usize = 0;
    assert(all.take(0) =~= Seq::<u8>::empty());
    while i < bytes.len()
        invariant
            all == bytes@,
            all == encode_utf8(input@),
            i <= all.len(),
            b64_sextets(all.take(i as int)) == Ok::<Seq<u8>, u8>(s),
            forall|k: int| 0 <= k < s.len() ==> s[k] < 64,
            result@ == sextets_to_bytes(s),
            s.len() % 4 == 0 ==> bits == 0 && buf == 0,
            s.len() % 4 == 1 ==> bits == 6 && buf == s.last(),
            s.len() % 4 == 2 ==> bits == 4 && buf == s.last() % 16,
            s.len() % 4 == 3 ==> bits == 2 && buf == s.last() % 4,
        decreases all.len() - i,
    {
        let b = bytes[i];
        assert(all.take(i + 1).drop_last() =~= all.take(i as int));
        assert(all.take(i + 1).last() == b);
        if b == 61u8 || b == 10u8 || b == 13u8 {
            i = i + 1;
        } else {
            let v = match b64_digit(b) {
                Some(v) => v,
                None => {
                    proof {
                        lemma_sextets_err(all, i + 1, b);
                    }
                    let mut m = string_of("invalid base64 character: ");
                    push_char(&mut m, b as char);
                    return Err(m);
                },
            };
            proof {
                lemma_sextets_push(s, v);
                lemma_accumulate(buf, v as u32);
            }
            buf = (buf << 6) | (v as u32);
            bits = bits + 6;
            if bits >= 8 {
                bits = bits - 8;
                result.push((buf >> bits) as u8);
                buf = buf & ((1u32 << bits) - 1);
            }
            proof {
                s = s.push(v);
            }
            i = i + 1;
        }
    }
    assert(all.take(i as int) =~= all);
    Ok(result)
}

/// Character of the URL-safe base64 alphabet for a sextet.
pub open spec fn b64url_char(v: int) -> char {
    if v < 26 {
        (65 + v) as char
    } else if v < 52 {
        (71 + v) as char
    } else if v < 62 {
        (v - 4) as char
    } else if v == 62 {
        '-'
    } else {
        '_'
    }
}

/// URL-safe base64 without padding: each three bytes give four characters,
/// a last pair three and a last byte two.
pub open spec fn base64url(bs: Seq<u8>) -> Seq<char>
    decreases bs.len(),
{
    if bs.len() == 0 {
        seq![]
    } else {
        let b0 = bs[0] as int;
        let b1 = if bs.len() > 1 { bs[1] as int } else { 0 };
        let b2 = if bs.len() > 2 { bs[2] as int } else { 0 };
        let head = seq![b64url_char(b0 / 4), b64url_char((b0 % 4) * 16 + b1 / 16)];
        if bs.len() == 1 {
            head
        } else if bs.len() == 2 {
            head.push(b64url_char((b1 % 16) * 4 + b2 / 64))
        } else {
            head.push(b64url_char((b1 % 16) * 4 + b2 / 64)).push(b64url_char(b2 % 64)) + base64url(bs.skip(3))
        }
    }
}

proof fn lemma_triple(b0: u32, b1: u32, b2: u32)
    by (bit_vector)
    requires
        b0 < 256,
        b1 < 256,
        b2 < 256,
    ensures
        (((b0 << 16u32) | (b1 << 8u32) | b2) >> 18u32) & 0x3F == b0 / 4,
        (((b0 << 16u32) | (b1 << 8u32) | b2) >> 12u32) & 0x3F == (b0 % 4) * 16 + b1 / 16,
        (((b0 << 16u32) | (b1 << 8u32) | b2) >> 6u32) & 0x3F == (b1 % 16) * 4 + b2 / 64,
        ((b0 << 16u32) | (b1 << 8u32) | b2) & 0x3F == b2 % 64,
{
}

/// Character of the URL-safe base64 alphabet for a sextet.
fn b64url_digit(v: u32) -> (c: char)
    requires
        v < 64,
    ensures
        c == b64url_char(v as int),
{
    if v < 26 {
        ((65 + v) as u8) as char
    } else if v < 52 {
        ((71 + v) as u8) as char
    } else if v < 62 {
        ((v - 4) as u8) as char
    } else if v == 62 {
        '-'
    } else {
        '_'
    }
}

/// URL-safe base64 of the bytes, without padding.
pub fn base64url_encode(data: &[u8]) -> (r: String)
    ensures
        r@ == base64url(data@),
{
    let mut result = String::new();
    let mut i: usize = 0;
    assert(data@.skip(0) =~= data@);
    assert(Seq::<char>::empty() + base64url(data@) =~= base64url(data@));
    while i < data.len()
        invariant
            i <= data@.len(),
            base64url(data@) == result@ + base64url(data@.skip(i as int)),
        decreases data@.len() - i,
    {
        let n = data.len() - i;
        let b0 = data[i] as u32;
        let b1 = if n > 1 { data[i + 1] as u32 } else { 0 };
        let b2 = if n > 2 { data[i + 2] as u32 } else { 0 };
        let triple = (b0 << 16) | (b1 << 8) | b2;
        proof {
            lemma_triple(b0, b1, b2);
        }
        let ghost rest = data@.skip(i as int);
        let ghost before = result@;
        let c0 = b64url_digit((triple >> 18) & 0x3F);
        let c1 = b64url_digit((triple >> 12) & 0x3F);
        push_char(&mut result, c0);
        push_char(&mut result, c1);
        if n == 1 {
            assert(result@ =~= before + base64url(rest));
            assert(data@.skip(i + 1) =~= Seq::<u8>::empty());
            assert(result@ + Seq::<char>::empty() =~= result@);
            i = i + 1;
        } else {
            let c2 = b64url_digit((triple >> 6) & 0x3F);
            push_char(&mut result, c2);
            if n == 2 {
                assert(result@ =~= before + base64url(rest));
                assert(data@.skip(i + 2) =~= Seq::<u8>::empty());
                assert(result@ + Seq::<char>::empty() =~= result@);
                i = i + 2;
            } else {
                let c3 = b64url_digit(triple & 0x3F);
                push_char(&mut result, c3);
                assert(rest.skip(3) =~= data@.skip(i + 3));
                assert(base64url(rest) == seq![c0, c1, c2, c3] + base64url(rest.skip(3)));
                assert(result@ =~= before + seq![c0, c1, c2, c3]);
                assert(before + base64url(rest) =~= result@ + base64url(rest.skip(3)));
                i = i + 3;
            }
        }
    }
    assert(data@.skip(i as int) =~= Seq::<u8>::empty());
    assert(result@ + Seq::<char>::empty() =~= result@);
    result
}

/// The sextets that URL-safe base64 writes for the bytes.
pub open spec fn url_sextets(bs: Seq<u8>) -> Seq<u8>
    decreases bs.len(),
{
    if bs.len() == 0 {
        seq![]
    } else {
        let b0 = bs[0] as int;
        let b1 = if bs.len() > 1 { bs[1] as int } else { 0 };
        let b2 = if bs.len() > 2 { bs[2] as int } else { 0 };
        let head = seq![(b0 / 4) as u8, ((b0 % 4) * 16 + b1 / 16) as u8];
        if bs.len() == 1 {
            head
        } else if bs.len() == 2 {
            head.push(((b1 % 16) * 4 + b2 / 64) as u8)
        } else {
            head.push(((b1 % 16) * 4 + b2 / 64) as u8).push((b2 % 64) as u8) + url_sextets(bs.skip(3))
        }
    }
}

/// The byte of the standard base64 alphabet for a sextet.
pub open spec fn standard_byte(v: u8) -> u8 {
    if v < 26 {
        (65 + v) as u8
    } else if v < 52 {
        (71 + v) as u8
    } else if v < 62 {
        (v - 4) as u8
    } else if v == 62 {
        43
    } else {
        47
    }
}

/// A URL-safe base64 text in the standard alphabet: `-` becomes `+` and `_`
/// becomes `/`.
pub open spec fn standard_alphabet(s: Seq<char>) -> Seq<char> {
    s.map_values(|c: char| if c == '-' { '+' } else if c == '_' { '/' } else { c })
}

proof fn lemma_url_sextets_chars(bs: Seq<u8>)
    ensures
        base64url(bs) == url_sextets(bs).map_values(|v: u8| b64url_char(v as int)),
        forall|i: int| 0 <= i < url_sextets(bs).len() ==> #[trigger] url_sextets(bs)[i] < 64,
    decreases bs.len(),
{
    if bs.len() > 2 {
        lemma_url_sextets_chars(bs.skip(3));
    }
    assert(base64url(bs) =~= url_sextets(bs).map_values(|v: u8| b64url_char(v as int)));
}

proof fn lemma_chunk_digits(b0: int, b1: int, b2: int)
    by (nonlinear_arith)
    requires
        0 <= b0 < 256,
        0 <= b1 < 256,
        0 <= b2 < 256,
    ensures
        (b0 / 4) * 4 + ((b0 % 4) * 16 + b1 / 16) / 16 == b0,
        (((b0 % 4) * 16 + b1 / 16) % 16) * 16 + ((b1 % 16) * 4 + b2 / 64) / 4 == b1,
        (((b1 % 16) * 4 + b2 / 64) % 4) * 64 + b2 % 64 == b2,
        0 <= (b0 % 4) * 16 + b1 / 16 < 64,
        0 <= (b1 % 16) * 4 + b2 / 64 < 64,
{
}

proof fn lemma_url_sextets_bytes(bs: Seq<u8>)
    ensures
        sextets_to_bytes(url_sextets(bs)) == bs,
    decreases bs.len(),
{
    if bs.len() > 0 {
        let b0 = bs[0] as int;
        let b1 = if bs.len() > 1 { bs[1] as int } else { 0 };
        let b2 = if bs.len() > 2 { bs[2] as int } else { 0 };
        lemma_chunk_digits(b0, b1, b2);
        let s = url_sextets(bs);
        if bs.len() > 2 {
            lemma_url_sextets_bytes(bs.skip(3));
            assert(s.skip(4) =~= url_sextets(bs.skip(3)));
            assert(sextets_to_bytes(s) =~= bs);
        } else {
            assert(sextets_to_bytes(s) =~= bs);
        }
    }
}

proof fn lemma_standard_sextets(s: Seq<u8>)
    requires
        forall|i: int| 0 <= i < s.len() ==> #[trigger] s[i] < 64,
    ensures
        b64_sextets(s.map_values(|v: u8| standard_byte(v))) == Ok::<Seq<u8>, u8>(s),
    decreases s.len(),
{
    if s.len() > 0 {
        let t = s.map_values(|v: u8| standard_byte(v));
        assert(t.drop_last() =~= s.drop_last().map_values(|v: u8| standard_byte(v)));
        lemma_standard_sextets(s.drop_last());
        let v = s.last();
        assert(v < 64);
        assert(t.last() == standard_byte(v));
        assert(!b64_skipped(standard_byte(v)));
        assert(b64_value(standard_byte(v)) == Some(v));
        assert(b64_sextets(t) == Ok::<Seq<u8>, u8>(s.drop_last().push(v)));
        assert(s.drop_last().push(v) =~= s);
    } else {
        assert(s.map_values(|v: u8| standard_byte(v)) =~= Seq::<u8>::empty());
        assert(s =~= Seq::<u8>::empty());
    }
}

/// Decoding undoes encoding: the standard-alphabet form of the URL-safe
/// base64 text of any bytes decodes to those bytes.
pub proof fn lemma_base64_round_trip(bs: Seq<u8>)
    ensures
        base64_decoded(standard_alphabet(base64url(bs))) == Ok::<Seq<u8>, Seq<char>>(bs),
{
    lemma_url_sextets_chars(bs);
    let s = url_sextets(bs);
    let text = standard_alphabet(base64url(bs));
    let bytes = s.map_values(|v: u8| standard_byte(v));
    assert(text.len() == s.len());
    assert forall|i: int| 0 <= i < s.len() implies #[trigger] text[i] == (bytes[i] as char) by {
        assert(s[i] < 64);
    }
    assert(vstd::utf8::is_ascii_chars(text));
    vstd::utf8::is_ascii_chars_encode_utf8(text);
    assert(encode_utf8(text) =~= bytes);
    lemma_standard_sextets(s);
    lemma_url_sextets_bytes(bs);
}

/// A text without its leading white space.
pub open spec fn trim_start(s: Seq<char>) -> Seq<char>
    decreases s.len(),
{
    if s.len() > 0 && is_white_space(s[0]) {
        trim_start(s.drop_first())
    } else {
        s
    }
}

/// A text without its trailing white space.
pub open spec fn trim_end(s: Seq<char>) -> Seq<char>
    decreases s.len(),
{
    if s.len() > 0 && is_white_space(s.last()) {
        trim_end(s.drop_last())
    } else {
        s
    }
}

/// A text without white space at either end.
pub open spec fn trim_ws(s: Seq<char>) -> Seq<char> {
    trim_end(trim_start(s))
}

/// What a line of a PEM file adds to the base64 body: the trimmed line,
/// or nothing for a `-----` armour line.
pub open spec fn pem_line_text(line: Seq<char>) -> Seq<char> {
    let t = trim_ws(line);
    if has_prefix(t, "-----"@) {
        seq![]
    } else {
        t
    }
}

pub open spec fn pem_lines_text(lines: Seq<Seq<char>>) -> Seq<char>
    decreases lines.len(),
{
    if lines.len() == 0 {
        seq![]
    } else {
        pem_lines_text(lines.drop_last()) + pem_line_text(lines.last())
    }
}

/// The base64 body of a PEM text: its lines trimmed and joined, armour
/// lines left out.
pub open spec fn pem_base64(pem: Seq<char>) -> Seq<char> {
    pem_lines_text(split_on(pem, '\n'))
}

proof fn lemma_trim_start(s: Seq<char>, k: int)
    requires
        0 <= k <= s.len(),
        forall|j: int| 0 <= j < k ==> is_white_space(#[trigger] s[j]),
        k == s.len() || !is_white_space(s[k]),
    ensures
        trim_start(s) == s.skip(k),
    decreases k,
{
    if k > 0 {
        assert forall|j: int| 0 <= j < k - 1 implies is_white_space(#[trigger] s.drop_first()[j]) by {
            assert(s.drop_first()[j] == s[j + 1]);
        }
        lemma_trim_start(s.drop_first(), k - 1);
        assert(s.drop_first().skip(k - 1) =~= s.skip(k));
    } else {
        assert(s.skip(0) =~= s);
    }
}

proof fn lemma_trim_end(s: Seq<char>, h: int)
    requires
        0 <= h <= s.len(),
        forall|j: int| h <= j < s.len() ==> is_white_space(#[trigger] s[j]),
        h == 0 || !is_white_space(s[h - 1]),
    ensures
        trim_end(s) == s.take(h),
    decreases s.len(),
{
    if h < s.len() {
        assert forall|j: int| h <= j < s.drop_last().len() implies is_white_space(#[trigger] s.drop_last()[j]) by {
            assert(s.drop_last()[j] == s[j]);
        }
        lemma_trim_end(s.drop_last(), h);
        assert(s.drop_last().take(h) =~= s.take(h));
    } else {
        assert(s.take(h) =~= s);
    }
}

/// The characters of `v` from `lo` up to `hi`, as a string.
fn text_range(v: &[char], lo: usize, hi: usize) -> (r: String)
    requires
        lo <= hi <= v@.len(),
    ensures
        r@ == v@.subrange(lo as int, hi as int),
{
    let mut r = String::new();
    let mut i: usize = lo;
    while i < hi
        invariant
            lo <= i <= hi <= v@.len(),
            r@ == v@.subrange(lo as int, i as int),
        decreases hi - i,
    {
        push_char(&mut r, v[i]);
        assert(v@.subrange(lo as int, i + 1) =~= v@.subrange(lo as int, i as int).push(v@[i as int]));
        i = i + 1;
    }
    r
}

/// The characters of `v` without white space at either end.
fn trimmed(v: &[char]) -> (r: String)
    ensures
        r@ == trim_ws(v@),
{
    let mut lo: usize = 0;
    while lo < v.len() && char_is_whitespace(v[lo])
        invariant
            lo <= v@.len(),
            forall|j: int| 0 <= j < lo ==> is_white_space(#[trigger] v@[j]),
        decreases v@.len() - lo,
    {
        lo = lo + 1;
    }
    let mut hi: usize = v.len();
    while hi > lo && char_is_whitespace(v[hi - 1])
        invariant
            lo <= hi <= v@.len(),
            forall|j: int| hi <= j < v@.len() ==> is_white_space(#[trigger] v@[j]),
        decreases hi,
    {
        hi = hi - 1;
    }
    proof {
        lemma_trim_start(v@, lo as int);
        let t = v@.skip(lo as int);
        assert forall|j: int| hi - lo <= j < t.len() implies is_white_space(#[trigger] t[j]) by {
            assert(t[j] == v@[lo + j]);
        }
        if hi > lo {
            assert(t[hi - lo - 1] == v@[hi - 1]);
        }
        lemma_trim_end(t, hi - lo);
        assert(t.take(hi - lo) =~= v@.subrange(lo as int, hi as int));
    }
    text_range(v, lo, hi)
}

/// The DER bytes of a PEM-encoded PKCS#8 key: the base64 body of its
/// lines, decoded.
pub fn pem_to_pkcs8_der(pem: &str) -> (r: Result<Vec<u8>, AuthError>)
    ensures
        match base64_decoded(pem_base64(pem@)) {
            Ok(der) => r matches Ok(v) && v@ == der,
            Err(e) => r matches Err(AuthError::InvalidKey(m)) && m@ == "Invalid base64 in PEM private key: "@ + e,
        },
{
    let chars = chars_of(pem);
    let lines = split_chars(chars.as_slice(), '\n');
    let ghost ls = split_on(pem@, '\n');
    let mut b64 = String::new();
    let mut j: usize = 0;
    assert(ls.take(0) =~= Seq::<Seq<char>>::empty());
    while j < lines.len()
        invariant
            j <= lines@.len(),
            lines@.len() == ls.len(),
            forall|t: int| 0 <= t < lines@.len() ==> (#[trigger] lines@[t])@ == ls[t],
            b64@ == pem_lines_text(ls.take(j as int)),
        decreases lines@.len() - j,
    {
        let t = trimmed(lines[j].as_slice());
        assert(lines@[j as int]@ == ls[j as int]);
        let ghost before = b64@;
        if !str_starts_with(t.as_str(), "-----") {
            push_str(&mut b64, t.as_str());
        }
        assert(ls.take(j + 1).drop_last() =~= ls.take(j as int));
        assert(b64@ =~= before + pem_line_text(ls[j as int]));
        j = j + 1;
    }
    assert(ls.take(j as int) =~= ls);
    match base64_decode(b64.as_str()) {
        Ok(v) => Ok(v),
        Err(e) => Err(AuthError::InvalidKey(concat2("Invalid base64 in PEM private key: ", e.as_str()))),
    }
}

/// An RSA key pair of *ring*.
#[verifier::external_type_specification]
#[verifier::external_body]
pub struct ExRsaKeyPair(ring::rsa::KeyPair);

/// The public half of an RSA key pair of *ring*.
#[verifier::external_type_specification]
#[verifier::external_body]
pub struct ExRsaPublicKey(ring::rsa::PublicKey);

/// The operating system's random source, as *ring* reaches it.
#[verifier::external_type_specification]
#[verifier::external_body]
pub struct ExSystemRandom(ring::rand::SystemRandom);

/// Why `RsaKeyPair::from_pkcs8` rejects these DER bytes (the text of its
/// `KeyRejected`), or none when it accepts them.
pub uninterp spec fn pkcs8_rejection(der: Seq<u8>) -> Option<Seq<char>>;

/// `RsaKeyPair::from_pkcs8`: parses and checks a PKCS#8 RSA private key. A
/// rejection comes back as the text of its `KeyRejected`; which outcome comes
/// depends on the bytes alone.
#[verifier::external_body]
fn rsa_key_pair_from_pkcs8(der: &[u8]) -> (r: Result<ring::rsa::KeyPair, String>)
    ensures
        match r {
            Ok(_) => pkcs8_rejection(der@) is None,
            Err(m) => pkcs8_rejection(der@) == Some(m@),
        },
{
    match ring::rsa::KeyPair::from_pkcs8(der) {
        Ok(k) => Ok(k),
        Err(e) => Err(format!("{e}")),
    }
}

/// `SystemRandom::new`: the system random source; construction always
/// succeeds. Nothing is claimed of the value.
#[verifier::external_body]
fn system_random() -> ring::rand::SystemRandom {
    ring::rand::SystemRandom::new()
}

/// `KeyPair::public`: the public key of the pair. Nothing is claimed of it.
#[verifier::external_body]
fn rsa_public_key(key_pair: &ring::rsa::KeyPair) -> &ring::rsa::PublicKey {
    key_pair.public()
}

/// `PublicKey::modulus_len`: the modulus length in bytes. Its value is not
/// stated: it depends on the key, which is opaque here.
#[verifier::external_body]
fn rsa_modulus_len(public_key: &ring::rsa::PublicKey) -> usize {
    public_key.modulus_len()
}

/// `KeyPair::sign` with `RSA_PKCS1_SHA256`: writes the signature of `msg`
/// into `sig`, whose length stays as it was. A failure comes back as the
/// text of *ring*'s `Unspecified`, which is "ring::error::Unspecified". The
/// signature bytes are not stated: they depend on the key.
#[verifier::external_body]
fn rsa_sign_pkcs1_sha256(
    key_pair: &ring::rsa::KeyPair,
    rng: &ring::rand::SystemRandom,
    msg: &[u8],
    sig: &mut Vec<u8>,
) -> (r: Result<(), String>)
    ensures
        final(sig)@.len() == old(sig)@.len(),
        r matches Err(m) ==> m@ == "ring::error::Unspecified"@,
{
    match key_pair.sign(&ring::signature::RSA_PKCS1_SHA256, rng, msg, sig.as_mut_slice()) {
        Ok(()) => Ok(()),
        Err(e) => Err(format!("{e}")),
    }
}

/// Signs `data` with RS256 under the PEM-encoded PKCS#8 RSA key.
pub fn sign_rs256(data: &[u8], pem_key: &str) -> (r: Result<Vec<u8>, AuthError>)
    ensures
        match base64_decoded(pem_base64(pem_key@)) {
            Err(e) => r matches Err(AuthError::InvalidKey(m)) && m@ == "Invalid base64 in PEM private key: "@ + e,
            Ok(der) => match pkcs8_rejection(der) {
                Some(why) => r matches Err(AuthError::InvalidKey(m))
                    && m@ == "Invalid RSA private key in service account JSON: "@ + why,
                None => r is Ok || (r matches Err(AuthError::InvalidKey(m))
                    && m@ == "RSA signing failed: "@ + "ring::error::Unspecified"@),
            },
        },
{
    let der = match pem_to_pkcs8_der(pem_key) {
        Ok(d) => d,
        Err(e) => {
            return Err(e);
        },
    };
    let key_pair = match rsa_key_pair_from_pkcs8(der.as_slice()) {
        Ok(k) => k,
        Err(why) => {
            return Err(AuthError::InvalidKey(concat2("Invalid RSA private key in service account JSON: ", why.as_str())));
        },
    };
    let rng = system_random();
    let n = rsa_modulus_len(rsa_public_key(&key_pair));
    let mut sig = vec![0u8; n];
    match rsa_sign_pkcs1_sha256(&key_pair, &rng, data, &mut sig) {
        Ok(()) => Ok(sig),
        Err(e) => Err(AuthError::InvalidKey(concat2("RSA signing failed: ", e.as_str()))),
    }
}

/// Seconds that a signed assertion stays valid.
pub const ASSERTION_LIFETIME_SECS: u64 = 3600;

/// When an assertion issued at `now` expires: an hour later.
pub fn assertion_expiry(now: u64) -> (r: u64)
    requires
        now + ASSERTION_LIFETIME_SECS <= u64::MAX,
    ensures
        r == now + 3600,
{
    now + ASSERTION_LIFETIME_SECS
}

/// The signing input of a JWT: the URL-safe base64 of its header and of its
/// claims, joined by a dot.
pub open spec fn jwt_signing_input(header: Seq<u8>, claims: Seq<u8>) -> Seq<char> {
    base64url(header) + "."@ + base64url(claims)
}

/// A signed JWT: the signing input, a dot, and the URL-safe base64 of the
/// signature.
pub fn signed_jwt(signing_input: &str, signature: &[u8]) -> (r: String)
    ensures
        r@ == signing_input@ + "."@ + base64url(signature@),
{
    let sig_b64 = base64url_encode(signature);
    let mut r = concat2(signing_input, ".");
    push_str(&mut r, sig_b64.as_str());
    r
}

/// A JWT signed with RS256 under the PEM key, from the JSON bytes of its
/// header and claims.
pub fn build_signed_jwt(header_json: &[u8], claims_json: &[u8], private_key: &str) -> (r: Result<String, AuthError>)
    ensures
        match base64_decoded(pem_base64(private_key@)) {
            Err(e) => r matches Err(AuthError::InvalidKey(m)) && m@ == "Invalid base64 in PEM private key: "@ + e,
            Ok(der) => match pkcs8_rejection(der) {
                Some(why) => r matches Err(AuthError::InvalidKey(m))
                    && m@ == "Invalid RSA private key in service account JSON: "@ + why,
                None => (r matches Ok(t) && exists|sig: Seq<u8>|
                    t@ == jwt_signing_input(header_json@, claims_json@) + "."@ + #[trigger] base64url(sig))
                    || (r matches Err(AuthError::InvalidKey(m))
                    && m@ == "RSA signing failed: "@ + "ring::error::Unspecified"@),
            },
        },
{
    let header_b64 = base64url_encode(header_json);
    let claims_b64 = base64url_encode(claims_json);
    let mut signing_input = concat2(header_b64.as_str(), ".");
    push_str(&mut signing_input, claims_b64.as_str());
    let signature = match sign_rs256(signing_input.as_str().as_bytes(), private_key) {
        Ok(s) => s,
        Err(e) => {
            return Err(e);
        },
    };
    let r = signed_jwt(signing_input.as_str(), signature.as_slice());
    assert(r@ == jwt_signing_input(header_json@, claims_json@) + "."@ + base64url(signature@));
    Ok(r)
}

} // verus!
