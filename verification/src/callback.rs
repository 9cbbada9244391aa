//! The OAuth callback: the authorization code in the request line of the
//! browser's redirect.
use crate::auth::AuthError;
use crate::output::chars_of;
use crate::text::{char_is_whitespace, is_white_space, push_char, string_of};
use vstd::prelude::*;
use crate::validate::{ascii_bytes, hex_upper, is_unreserved, percent_encode};
use vstd::utf8::{decode_utf8, encode_utf8, valid_utf8};

verus! {

/// `String::from_utf8`: the text of the bytes when they are valid UTF-8.
#[verifier::external_body]
fn string_from_utf8(bytes: Vec<u8>) -> (r: Option<String>)
    ensures
        r is Some <==> valid_utf8(bytes@),
        r is Some ==> r.unwrap()@ == decode_utf8(bytes@),
{
    String::from_utf8(bytes).ok()
}

/// The text before the first line feed.
pub open spec fn first_line(s: Seq<char>) -> Seq<char>
    decreases s.len(),
{
    if s.len() == 0 {
        seq![]
    } else if s[0] == '\n' {
        seq![]
    } else {
        seq![s[0]] + first_line(s.drop_first())
    }
}

/// The white-space separated words of a text.
pub open spec fn words(s: Seq<char>) -> Seq<Seq<char>>
    decreases s.len(),
{
    if s.len() == 0 {
        seq![]
    } else {
        let w = words(s.drop_last());
        let c = s.last();
        if is_white_space(c) {
            w
        } else if s.len() >= 2 && !is_white_space(s[s.len() - 2]) {
            w.update(w.len() - 1, w.last().push(c))
        } else {
            w.push(seq![c])
        }
    }
}

/// Pieces of a text between separators (k separators give k + 1 pieces).
pub open spec fn split_on(s: Seq<char>, sep: char) -> Seq<Seq<char>>
    decreases s.len(),
{
    if s.len() == 0 {
        seq![seq![]]
    } else {
        let p = split_on(s.drop_last(), sep);
        if s.last() == sep {
            p.push(seq![])
        } else {
            p.update(p.len() - 1, p.last().push(s.last()))
        }
    }
}

/// Index of the first occurrence of `c`, if any.
pub open spec fn find_char(s: Seq<char>, c: char) -> Option<int>
    decreases s.len(),
{
    if s.len() == 0 {
        None
    } else if s[0] == c {
        Some(0)
    } else {
        match find_char(s.drop_first(), c) {
            Some(i) => Some(i + 1),
            None => None,
        }
    }
}

/// The name of a `name=value` pair (all of it without `=`).
pub open spec fn pair_name(p: Seq<char>) -> Seq<char> {
    match find_char(p, '=') {
        Some(i) => p.take(i),
        None => p,
    }
}

/// The value of a `name=value` pair (empty without `=`).
pub open spec fn pair_value(p: Seq<char>) -> Seq<char> {
    match find_char(p, '=') {
        Some(i) => p.skip(i + 1),
        None => seq![],
    }
}

/// Index of the first pair named `key`, if any.
pub open spec fn find_pair(pairs: Seq<Seq<char>>, key: Seq<char>) -> Option<int>
    decreases pairs.len(),
{
    if pairs.len() == 0 {
        None
    } else if pair_name(pairs[0]) == key {
        Some(0)
    } else {
        match find_pair(pairs.drop_first(), key) {
            Some(i) => Some(i + 1),
            None => None,
        }
    }
}

pub open spec fn hex_val(c: u8) -> Option<nat> {
    if 48 <= c <= 57 {
        Some((c - 48) as nat)
    } else if 97 <= c <= 102 {
        Some((c - 87) as nat)
    } else if 65 <= c <= 70 {
        Some((c - 55) as nat)
    } else {
        None
    }
}

/// What `u8::from_str_radix(_, 16)` yields for two bytes: an optional `+`
/// then hex digits.
pub open spec fn hex_pair(a: u8, b: u8) -> Option<u8> {
    if a == 43 {
        match hex_val(b) {
            Some(v) => Some(v as u8),
            None => None,
        }
    } else {
        match (hex_val(a), hex_val(b)) {
            (Some(x), Some(y)) => Some((16 * x + y) as u8),
            _ => None,
        }
    }
}

/// Decoding of a query component's bytes: `%XY` a byte (needing two bytes
/// after the `%`), `+` a space, other bytes themselves; `None` on a bad
/// escape.
pub open spec fn percent_decode(bs: Seq<u8>) -> Option<Seq<u8>>
    decreases bs.len(),
{
    if bs.len() == 0 {
        Some(seq![])
    } else if bs[0] == 37 {
        if bs.len() >= 3 {
            match hex_pair(bs[1], bs[2]) {
                Some(b) => match percent_decode(bs.skip(3)) {
                    Some(rest) => Some(seq![b] + rest),
                    None => None,
                },
                None => None,
            }
        } else {
            None
        }
    } else {
        let b = if bs[0] == 43 { 32u8 } else { bs[0] };
        match percent_decode(bs.skip(1)) {
            Some(rest) => Some(seq![b] + rest),
            None => None,
        }
    }
}

/// The refusal of a request whose first line has no path.
pub open spec fn malformed_message() -> Seq<char> {
    "Malformed OAuth callback request."@
}

/// The refusal of a callback that carries no such parameter.
pub open spec fn no_code_message() -> Seq<char> {
    "No authorization code in callback. The user may have denied access."@
}

/// The decoded value of a query component, or the reason it is refused.
pub open spec fn decode_component(v: Seq<char>) -> Result<Seq<char>, Seq<char>> {
    match percent_decode(vstd::utf8::encode_utf8(v)) {
        None => Err("Invalid percent-encoding in OAuth callback."@),
        Some(bs) => if valid_utf8(bs) {
            Ok(decode_utf8(bs))
        } else {
            Err("OAuth callback contained invalid UTF-8."@)
        },
    }
}

/// What percent-encoding writes for one byte.
pub open spec fn escape_chunk(b: u8) -> Seq<char> {
    if is_unreserved(b) {
        seq![b as char]
    } else {
        seq!['%', hex_upper(b as int / 16), hex_upper(b as int % 16)]
    }
}

/// Percent-encoding written from the first byte on.
pub open spec fn encode_from_front(bs: Seq<u8>) -> Seq<char>
    decreases bs.len(),
{
    if bs.len() == 0 {
        seq![]
    } else {
        escape_chunk(bs[0]) + encode_from_front(bs.skip(1))
    }
}

proof fn lemma_encode_from_front_push(a: Seq<u8>, b: u8)
    ensures
        encode_from_front(a.push(b)) == encode_from_front(a) + escape_chunk(b),
    decreases a.len(),
{
    if a.len() > 0 {
        assert(a.push(b).skip(1) =~= a.skip(1).push(b));
        lemma_encode_from_front_push(a.skip(1), b);
        assert(encode_from_front(a.push(b)) =~= encode_from_front(a) + escape_chunk(b));
    } else {
        assert(a.push(b).skip(1) =~= Seq::<u8>::empty());
        assert(encode_from_front(Seq::<u8>::empty()) == Seq::<char>::empty());
        assert(a.push(b)[0] == b);
        assert(encode_from_front(a) == Seq::<char>::empty());
        assert(encode_from_front(a.push(b)) =~= encode_from_front(a) + escape_chunk(b));
    }
}

proof fn lemma_encode_from_front(bs: Seq<u8>)
    ensures
        percent_encode(bs) == encode_from_front(bs),
    decreases bs.len(),
{
    if bs.len() > 0 {
        lemma_encode_from_front(bs.drop_last());
        lemma_encode_from_front_push(bs.drop_last(), bs.last());
        assert(bs.drop_last().push(bs.last()) =~= bs);
    }
}

proof fn lemma_escape_chunk(b: u8)
    ensures
        is_unreserved(b) ==> ascii_bytes(escape_chunk(b)) == seq![b],
        !is_unreserved(b) ==> {
            let e = ascii_bytes(escape_chunk(b));
            &&& e.len() == 3
            &&& e[0] == 37
            &&& hex_pair(e[1], e[2]) == Some(b)
        },
        forall|i: int| 0 <= i < escape_chunk(b).len() ==> '\0' <= #[trigger] escape_chunk(b)[i] <= '\u{7f}',
{
    let e = ascii_bytes(escape_chunk(b));
    if is_unreserved(b) {
        assert(e =~= seq![b]);
    } else {
        let hi = b as int / 16;
        let lo = b as int % 16;
        assert(e[1] == (if hi < 10 { 48 + hi } else { 55 + hi }));
        assert(e[2] == (if lo < 10 { 48 + lo } else { 55 + lo }));
        assert(hex_val(e[1]) == Some(hi as nat));
        assert(hex_val(e[2]) == Some(lo as nat));
        assert(16 * hi + lo == b);
    }
}

proof fn lemma_decode_encoded(bs: Seq<u8>)
    ensures
        percent_decode(ascii_bytes(encode_from_front(bs))) == Some(bs),
        forall|i: int| 0 <= i < encode_from_front(bs).len() ==> '\0' <= #[trigger] encode_from_front(bs)[i] <= '\u{7f}',
    decreases bs.len(),
{
    if bs.len() == 0 {
        assert(ascii_bytes(encode_from_front(bs)) =~= Seq::<u8>::empty());
    } else {
        let b = bs[0];
        let rest = bs.skip(1);
        lemma_decode_encoded(rest);
        lemma_escape_chunk(b);
        let c = escape_chunk(b);
        let t = encode_from_front(rest);
        let x = ascii_bytes(encode_from_front(bs));
        assert(encode_from_front(bs) == c + t);
        assert(x =~= ascii_bytes(c) + ascii_bytes(t));
        if is_unreserved(b) {
            assert(x.skip(1) =~= ascii_bytes(t));
            assert(x[0] == b);
        } else {
            assert(x.skip(3) =~= ascii_bytes(t));
            assert(x[0] == 37 && x[1] == ascii_bytes(c)[1] && x[2] == ascii_bytes(c)[2]);
        }
        assert(seq![b] + rest =~= bs);
        assert forall|i: int| 0 <= i < encode_from_front(bs).len() implies '\0' <= #[trigger] encode_from_front(bs)[i] <= '\u{7f}' by {
            if i < c.len() {
                assert(encode_from_front(bs)[i] == c[i]);
            } else {
                assert(encode_from_front(bs)[i] == t[i - c.len()]);
            }
        }
    }
}

/// The callback decodes what percent-encoding writes: the percent-encoded
/// UTF-8 of any text decodes back to that text.
pub proof fn lemma_callback_decodes_percent_encoding(s: Seq<char>)
    ensures
        decode_component(percent_encode(encode_utf8(s))) == Ok::<Seq<char>, Seq<char>>(s),
{
    let bs = encode_utf8(s);
    let v = percent_encode(bs);
    lemma_encode_from_front(bs);
    lemma_decode_encoded(bs);
    assert(vstd::utf8::is_ascii_chars(v));
    vstd::utf8::is_ascii_chars_encode_utf8(v);
    assert(encode_utf8(v) =~= ascii_bytes(v));
    vstd::utf8::encode_utf8_valid_utf8(s);
    vstd::utf8::encode_utf8_decode_utf8(s);
}

fn hex_digit_value(c: u8) -> (r: Option<u8>)
    ensures
        match hex_val(c) {
            Some(v) => r == Some(v as u8),
            None => r is None,
        },
{
    if 48u8 <= c && c <= 57u8 {
        Some(c - 48)
    } else if 97u8 <= c && c <= 102u8 {
        Some(c - 87)
    } else if 65u8 <= c && c <= 70u8 {
        Some(c - 55)
    } else {
        None
    }
}

fn decode_hex_pair(a: u8, b: u8) -> (r: Option<u8>)
    ensures
        r == hex_pair(a, b),
{
    if a == 43u8 {
        hex_digit_value(b)
    } else {
        match (hex_digit_value(a), hex_digit_value(b)) {
            (Some(x), Some(y)) => Some(16 * x + y),
            _ => None,
        }
    }
}

/// Decodes a query component of the OAuth callback.
pub fn percent_decode_query_component(value: &str) -> (r: Result<String, AuthError>)
    ensures
        match decode_component(value@) {
            Ok(s) => r matches Ok(t) && t@ == s,
            Err(m) => r matches Err(AuthError::NetworkError(t)) && t@ == m,
        },
{
    let bytes = value.as_bytes();
    let ghost all = bytes@;
    let mut decoded: Vec<u8> = Vec::new();
    let mut index: usize = 0;
    proof {
        assert(all.skip(0) =~= all);
        match percent_decode(all) {
            Some(t) => assert(decoded@ + t =~= t),
            None => {},
        }
    }
    while index < bytes.len()
        invariant
            index <= all.len(),
            all == bytes@,
            all == vstd::utf8::encode_utf8(value@),
            percent_decode(all) == match percent_decode(all.skip(index as int)) {
                Some(rest) => Some(decoded@ + rest),
                None => None,
            },
        decreases all.len() - index,
    {
        let ghost rest = all.skip(index as int);
        let b = bytes[index];
        if b == 37u8 && bytes.len() - index > 2 {
            let h = decode_hex_pair(bytes[index + 1], bytes[index + 2]);
            assert(rest[1] == bytes@[index + 1] && rest[2] == bytes@[index + 2]);
            match h {
                Some(x) => {
                    assert(rest.skip(3) =~= all.skip(index + 3));
                    let ghost before = decoded@;
                    decoded.push(x);
                    proof {
                        match percent_decode(all.skip(index + 3)) {
                            Some(t) => {
                                assert(before + (seq![x] + t) =~= decoded@ + t);
                            },
                            None => {},
                        }
                    }
                    index = index + 3;
                },
                None => {
                    return Err(AuthError::NetworkError(string_of("Invalid percent-encoding in OAuth callback.")));
                },
            }
        } else if b == 37u8 {
            return Err(AuthError::NetworkError(string_of("Invalid percent-encoding in OAuth callback.")));
        } else {
            let out: u8 = if b == 43u8 { 32 } else { b };
            assert(rest.skip(1) =~= all.skip(index + 1));
            let ghost before = decoded@;
            decoded.push(out);
            proof {
                match percent_decode(all.skip(index + 1)) {
                    Some(t) => {
                        assert(before + (seq![out] + t) =~= decoded@ + t);
                    },
                    None => {},
                }
            }
            index = index + 1;
        }
    }
    assert(all.skip(index as int).len() == 0);
    assert(decoded@ + Seq::<u8>::empty() =~= decoded@);
    let ghost d = decoded@;
    match string_from_utf8(decoded) {
        Some(s) => Ok(s),
        None => Err(AuthError::NetworkError(string_of("OAuth callback contained invalid UTF-8."))),
    }
}

/// What the callback request yields for the query parameter `key`: the path
/// is the second word of the first line, the query what follows its first
/// `?`, and the value that of the first `&`-separated pair named `key`.
pub open spec fn query_param(request: Seq<char>, key: Seq<char>) -> Result<Seq<char>, Seq<char>> {
    let ws = words(first_line(request));
    if ws.len() < 2 {
        Err(malformed_message())
    } else {
        match find_char(ws[1], '?') {
            None => Err(no_code_message()),
            Some(q) => {
                let pairs = split_on(ws[1].skip(q + 1), '&');
                match find_pair(pairs, key) {
                    None => Err(no_code_message()),
                    Some(i) => decode_component(pair_value(pairs[i])),
                }
            },
        }
    }
}

proof fn lemma_first_line(s: Seq<char>, e: int)
    requires
        0 <= e <= s.len(),
        forall|j: int| 0 <= j < e ==> s[j] != '\n',
        e == s.len() || s[e] == '\n',
    ensures
        first_line(s) =~= s.take(e),
    decreases e,
{
    if e > 0 {
        lemma_first_line(s.drop_first(), e - 1);
        assert(s.drop_first().take(e - 1) =~= s.take(e).drop_first());
    }
}

proof fn lemma_find_char(s: Seq<char>, c: char, k: int)
    requires
        0 <= k <= s.len(),
        forall|j: int| 0 <= j < k ==> s[j] != c,
        k == s.len() || s[k] == c,
    ensures
        find_char(s, c) == (if k < s.len() { Some(k) } else { None::<int> }),
    decreases k,
{
    if k > 0 {
        lemma_find_char(s.drop_first(), c, k - 1);
    }
}

proof fn lemma_find_pair(pairs: Seq<Seq<char>>, key: Seq<char>, k: int)
    requires
        0 <= k <= pairs.len(),
        forall|j: int| 0 <= j < k ==> pair_name(#[trigger] pairs[j]) != key,
        k == pairs.len() || pair_name(pairs[k]) == key,
    ensures
        find_pair(pairs, key) == (if k < pairs.len() { Some(k) } else { None::<int> }),
    decreases k,
{
    if k > 0 {
        assert forall|j: int| 0 <= j < k - 1 implies pair_name(#[trigger] pairs.drop_first()[j]) != key by {
            assert(pairs.drop_first()[j] == pairs[j + 1]);
        }
        lemma_find_pair(pairs.drop_first(), key, k - 1);
    }
}

/// Index of the first `c` in `v`.
fn index_of_char(v: &[char], c: char) -> (r: Option<usize>)
    ensures
        match r {
            Some(i) => find_char(v@, c) == Some(i as int) && i < v@.len(),
            None => find_char(v@, c) is None,
        },
{
    let mut i: usize = 0;
    while i < v.len()
        invariant
            i <= v@.len(),
            forall|j: int| 0 <= j < i ==> v@[j] != c,
        decreases v@.len() - i,
    {
        if v[i] == c {
            proof {
                lemma_find_char(v@, c, i as int);
            }
            return Some(i);
        }
        i = i + 1;
    }
    proof {
        lemma_find_char(v@, c, i as int);
    }
    None
}

/// Whether the first `n` characters of `v` are exactly `key`.
fn prefix_is(v: &[char], n: usize, key: &[char]) -> (r: bool)
    requires
        n <= v@.len(),
    ensures
        r == (v@.take(n as int) == key@),
{
    if n != key.len() {
        return false;
    }
    let mut i: usize = 0;
    while i < n
        invariant
            n <= v@.len(),
            n == key@.len(),
            i <= n,
            forall|j: int| 0 <= j < i ==> v@[j] == key@[j],
        decreases n - i,
    {
        if v[i] != key[i] {
            assert(v@.take(n as int)[i as int] != key@[i as int]);
            return false;
        }
        i = i + 1;
    }
    assert(v@.take(n as int) =~= key@);
    true
}

/// The text of the characters of `v` from `start` on.
fn text_from(v: &[char], start: usize) -> (r: String)
    requires
        start <= v@.len(),
    ensures
        r@ == v@.skip(start as int),
{
    let mut r = String::new();
    let mut i: usize = start;
    while i < v.len()
        invariant
            start <= i <= v@.len(),
            r@ == v@.subrange(start as int, i as int),
        decreases v@.len() - i,
    {
        push_char(&mut r, v[i]);
        assert(v@.subrange(start as int, i + 1) =~= v@.subrange(start as int, i as int).push(v@[i as int]));
        i = i + 1;
    }
    assert(v@.subrange(start as int, i as int) =~= v@.skip(start as int));
    r
}

/// The path of the request line: the second white-space separated word of
/// the first line, if there is one.
fn request_path(chars: &[char]) -> (r: Option<Vec<char>>)
    ensures
        words(first_line(chars@)).len() < 2 ==> r is None,
        words(first_line(chars@)).len() >= 2 ==> (r matches Some(p) && p@ == words(first_line(chars@))[1]),
{
    let mut e: usize = 0;
    while e < chars.len() && chars[e] != '\n'
        invariant
            e <= chars@.len(),
            forall|j: int| 0 <= j < e ==> chars@[j] != '\n',
        decreases chars@.len() - e,
    {
        e = e + 1;
    }
    proof {
        lemma_first_line(chars@, e as int);
    }
    let ghost line = chars@.take(e as int);
    let mut count: usize = 0;
    let mut second: Vec<char> = Vec::new();
    let mut in_word = false;
    let mut i: usize = 0;
    while i < e
        invariant
            e <= chars@.len(),
            line == chars@.take(e as int),
            i <= e,
            count <= i,
            count == words(line.take(i as int)).len(),
            count >= 2 ==> second@ == words(line.take(i as int))[1],
            in_word == (i >= 1 && !is_white_space(line[i - 1])),
            in_word ==> count >= 1,
        decreases e - i,
    {
        let c = chars[i];
        let ghost t = line.take(i + 1);
        let ghost w = words(line.take(i as int));
        assert(t.drop_last() =~= line.take(i as int));
        assert(t.last() == c);
        if i >= 1 {
            assert(t[t.len() - 2] == line[i - 1]);
        }
        if char_is_whitespace(c) {
            in_word = false;
        } else if in_word {
            if count == 2 {
                second.push(c);
            }
            in_word = true;
        } else {
            count = count + 1;
            if count == 2 {
                second = Vec::new();
                second.push(c);
            }
            in_word = true;
        }
        assert(words(t) == words(line.take(i + 1)));
        i = i + 1;
    }
    assert(line.take(e as int) =~= line);
    if count >= 2 {
        Some(second)
    } else {
        None
    }
}

/// Splits `v` on `sep` (k separators give k + 1 pieces).
pub(crate) fn split_chars(v: &[char], sep: char) -> (r: Vec<Vec<char>>)
    ensures
        r@.len() == split_on(v@, sep).len(),
        forall|j: int| 0 <= j < r@.len() ==> (#[trigger] r@[j])@ == split_on(v@, sep)[j],
{
    let mut done: Vec<Vec<char>> = Vec::new();
    let mut cur: Vec<char> = Vec::new();
    let mut i: usize = 0;
    while i < v.len()
        invariant
            i <= v@.len(),
            split_on(v@.take(i as int), sep).len() == done@.len() + 1,
            forall|j: int| 0 <= j < done@.len() ==> (#[trigger] done@[j])@ == split_on(v@.take(i as int), sep)[j],
            cur@ == split_on(v@.take(i as int), sep).last(),
        decreases v@.len() - i,
    {
        let c = v[i];
        let ghost t = v@.take(i + 1);
        assert(t.drop_last() =~= v@.take(i as int));
        if c == sep {
            done.push(cur);
            cur = Vec::new();
        } else {
            cur.push(c);
        }
        i = i + 1;
    }
    assert(v@.take(i as int) =~= v@);
    done.push(cur);
    done
}

/// The value of the query parameter `key` in the OAuth callback request,
/// percent-decoded.
pub fn extract_query_param(request: &str, key: &str) -> (r: Result<String, AuthError>)
    ensures
        match query_param(request@, key@) {
            Ok(v) => r matches Ok(t) && t@ == v,
            Err(m) => r matches Err(AuthError::NetworkError(t)) && t@ == m,
        },
{
    let chars = chars_of(request);
    let key_chars = chars_of(key);
    let path = match request_path(chars.as_slice()) {
        Some(p) => p,
        None => {
            return Err(AuthError::NetworkError(string_of("Malformed OAuth callback request.")));
        },
    };
    let path_len = path.len();
    let q = match index_of_char(path.as_slice(), '?') {
        Some(q) => q,
        None => {
            return Err(AuthError::NetworkError(
                string_of("No authorization code in callback. The user may have denied access."),
            ));
        },
    };
    let ghost query = path@.skip(q + 1);
    let mut rest: Vec<char> = Vec::new();
    let mut k: usize = q + 1;
    while k < path_len
        invariant
            path_len == path@.len(),
            q < path@.len(),
            q + 1 <= k <= path@.len(),
            query == path@.skip(q + 1),
            rest@ == path@.subrange(q + 1, k as int),
        decreases path@.len() - k,
    {
        rest.push(path[k]);
        assert(path@.subrange(q + 1, k + 1) =~= path@.subrange(q + 1, k as int).push(path@[k as int]));
        k = k + 1;
    }
    assert(rest@ =~= query);
    let pairs = split_chars(rest.as_slice(), '&');
    let ghost ps = split_on(query, '&');
    let mut j: usize = 0;
    while j < pairs.len()
        invariant
            j <= pairs@.len(),
            pairs@.len() == ps.len(),
            forall|t: int| 0 <= t < pairs@.len() ==> (#[trigger] pairs@[t])@ == ps[t],
            forall|t: int| 0 <= t < j ==> pair_name(#[trigger] ps[t]) != key@,
            key_chars@ == key@,
            query == path@.skip(q + 1),
            ps == split_on(query, '&'),
            query_param(request@, key@) == (match find_pair(ps, key@) {
                None => Err(no_code_message()),
                Some(i) => decode_component(pair_value(ps[i])),
            }),
        decreases pairs@.len() - j,
    {
        let pair = &pairs[j];
        let pair_len = pair.len();
        assert(pair@ == ps[j as int]);
        let eq = index_of_char(pair.as_slice(), '=');
        let (name_len, value_start) = match eq {
            Some(i) => (i, i + 1),
            None => (pair_len, pair_len),
        };
        proof {
            assert(pair@.skip(pair@.len() as int) =~= Seq::<char>::empty());
            assert(pair@.take(pair@.len() as int) =~= pair@);
            assert(pair_name(ps[j as int]) == pair@.take(name_len as int));
            assert(pair_value(ps[j as int]) == pair@.skip(value_start as int));
        }
        if prefix_is(pair.as_slice(), name_len, key_chars.as_slice()) {
            proof {
                lemma_find_pair(ps, key@, j as int);
            }
            let value = text_from(pair.as_slice(), value_start);
            return percent_decode_query_component(value.as_str());
        }
        j = j + 1;
    }
    proof {
        lemma_find_pair(ps, key@, j as int);
    }
    Err(AuthError::NetworkError(string_of("No authorization code in callback. The user may have denied access.")))
}

} // verus!
