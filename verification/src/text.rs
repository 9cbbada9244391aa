//! Text building blocks: decimal rendering, zero padding and string pushes.
use vstd::prelude::*;
use vstd::std_specs::iter::IteratorSpec;
use vstd::utf8::encode_utf8;

verus! {

/// The character of a decimal digit.
pub open spec fn digit_char(d: nat) -> char
    recommends
        d < 10,
{
    ((48 + d) as u8) as char
}

/// Decimal rendering of a natural number, most significant digit first,
/// without leading zeros (zero is rendered as "0").
pub open spec fn dec(n: nat) -> Seq<char>
    decreases n,
{
    if n < 10 {
        seq![digit_char(n)]
    } else {
        dec(n / 10).push(digit_char(n % 10))
    }
}

/// Appends one character to a string.
#[verifier::external_body]
pub(crate) fn push_char(s: &mut String, c: char)
    ensures
        final(s)@ == old(s)@.push(c),
{
    s.push(c);
}

/// Appends a string slice to a string.
#[verifier::external_body]
pub(crate) fn push_str(s: &mut String, t: &str)
    ensures
        final(s)@ == old(s)@ + t@,
{
    s.push_str(t);
}

/// The character of a digit below ten.
pub fn digit_to_char(d: u64) -> (c: char)
    requires
        d < 10,
    ensures
        c == digit_char(d as nat),
{
    let b: u8 = 48u8 + (d as u8);
    b as char
}

/// Appends the decimal rendering of `n`.
pub fn push_decimal(s: &mut String, n: u64)
    ensures
        final(s)@ == old(s)@ + dec(n as nat),
    decreases n,
{
    if n >= 10 {
        push_decimal(s, n / 10);
    }
    let c = digit_to_char(n % 10);
    push_char(s, c);
    proof {
        if n < 10 {
            assert(dec(n as nat) == seq![digit_char(n as nat)]);
        }
    }
    assert(s@ =~= old(s)@ + dec(n as nat)) by {
        if n >= 10 {
            assert(dec(n as nat) == dec((n / 10) as nat).push(digit_char((n % 10) as nat)));
        }
    }
}


/// `n` zero characters.
pub open spec fn zeros(n: nat) -> Seq<char> {
    Seq::new(n, |i: int| '0')
}

/// Left-pads a text with zeros to at least `w` characters.
pub open spec fn zpad(s: Seq<char>, w: nat) -> Seq<char> {
    if s.len() < w {
        zeros((w - s.len()) as nat) + s
    } else {
        s
    }
}

/// Rendering of a signed number padded with zeros to width `w`, the sign
/// counting towards the width (as `{:0w}` renders it).
pub open spec fn signed_zpad(v: int, w: nat) -> Seq<char> {
    if v < 0 {
        seq!['-'] + zpad(dec((-v) as nat), (if w >= 1 { w - 1 } else { 0 }) as nat)
    } else {
        zpad(dec(v as nat), w)
    }
}

pub open spec fn pow10(k: nat) -> nat
    decreases k,
{
    if k == 0 { 1 } else { 10 * pow10((k - 1) as nat) }
}

proof fn lemma_dec_len(n: nat, k: nat)
    requires
        n < pow10(k),
        k >= 1,
    ensures
        1 <= dec(n).len() <= k,
    decreases n,
{
    if n >= 10 {
        assert(k >= 2) by {
            if k == 1 {
                reveal_with_fuel(pow10, 2);
                assert(pow10(1) == 10);
            }
        }
        assert(n / 10 < pow10((k - 1) as nat));
        lemma_dec_len(n / 10, (k - 1) as nat);
    }
}

/// Number of characters of the decimal rendering of `n`.
pub fn decimal_width(n: u64) -> (w: usize)
    ensures
        w == dec(n as nat).len(),
    decreases n,
{
    if n < 10 {
        1
    } else {
        let w = decimal_width(n / 10);
        proof {
            reveal_with_fuel(pow10, 21);
            assert(pow10(20) == 100000000000000000000);
            lemma_dec_len((n / 10) as nat, 20);
        }
        w + 1
    }
}

/// Appends `n` zero characters.
pub fn push_zeros(s: &mut String, n: usize)
    ensures
        final(s)@ == old(s)@ + zeros(n as nat),
{
    let mut i: usize = 0;
    while i < n
        invariant
            i <= n,
            s@ == old(s)@ + zeros(i as nat),
        decreases n - i,
    {
        push_char(s, '0');
        i = i + 1;
        assert(s@ =~= old(s)@ + zeros(i as nat));
    }
}

/// Appends `n` in decimal, left-padded with zeros to at least `w` characters.
pub fn push_padded(s: &mut String, n: u64, w: usize)
    ensures
        final(s)@ == old(s)@ + zpad(dec(n as nat), w as nat),
{
    let len = decimal_width(n);
    if len < w {
        push_zeros(s, w - len);
    }
    push_decimal(s, n);
    assert(s@ =~= old(s)@ + zpad(dec(n as nat), w as nat));
}

/// Appends `v` in decimal, padded with zeros to width `w`, the sign counting
/// towards the width.
pub fn push_signed_padded(s: &mut String, v: i64, w: usize)
    ensures
        final(s)@ == old(s)@ + signed_zpad(v as int, w as nat),
{
    if v < 0 {
        push_char(s, '-');
        let mag: u64 = if v == i64::MIN { 9223372036854775808u64 } else { (-v) as u64 };
        let w1: usize = if w >= 1 { w - 1 } else { 0 };
        push_padded(s, mag, w1);
        assert(s@ =~= old(s)@ + signed_zpad(v as int, w as nat));
    } else {
        push_padded(s, v as u64, w);
    }
}


/// Whether `p` is a prefix of `s`.
pub open spec fn has_prefix<T>(s: Seq<T>, p: Seq<T>) -> bool {
    p.len() <= s.len() && s.subrange(0, p.len() as int) == p
}

/// Lexicographic order on byte strings (a proper prefix sorts first).
pub open spec fn lex_lt(a: Seq<u8>, b: Seq<u8>) -> bool
    decreases a.len(),
{
    if a.len() == 0 {
        b.len() > 0
    } else if b.len() == 0 {
        false
    } else if a[0] != b[0] {
        a[0] < b[0]
    } else {
        lex_lt(a.drop_first(), b.drop_first())
    }
}

/// `str == str`: equality of the characters.
#[verifier::external_body]
pub(crate) fn str_eq(a: &str, b: &str) -> (r: bool)
    ensures
        r == (a@ == b@),
{
    a == b
}

/// `str::starts_with` with a string pattern: whether `p` is a prefix of `s`.
#[verifier::external_body]
pub(crate) fn str_starts_with(s: &str, p: &str) -> (r: bool)
    ensures
        r == has_prefix(s@, p@),
{
    s.starts_with(p)
}

/// `str < str`: the lexicographic order of the UTF-8 bytes.
#[verifier::external_body]
pub(crate) fn str_lt(a: &str, b: &str) -> (r: bool)
    ensures
        r == lex_lt(encode_utf8(a@), encode_utf8(b@)),
{
    a < b
}

/// A string holding the characters of `s`.
pub fn string_of(s: &str) -> (r: String)
    ensures
        r@ == s@,
{
    let mut r = String::new();
    push_str(&mut r, s);
    assert(r@ =~= s@);
    r
}

/// Concatenation of two texts into a new string.
pub fn concat2(a: &str, b: &str) -> (r: String)
    ensures
        r@ == a@ + b@,
{
    let mut r = string_of(a);
    push_str(&mut r, b);
    r
}

/// Concatenation of three texts into a new string.
pub fn concat3(a: &str, b: &str, c: &str) -> (r: String)
    ensures
        r@ == a@ + b@ + c@,
{
    let mut r = concat2(a, b);
    push_str(&mut r, c);
    r
}

/// Texts joined with a separator between neighbours.
pub open spec fn join(parts: Seq<Seq<char>>, sep: Seq<char>) -> Seq<char>
    decreases parts.len(),
{
    if parts.len() == 0 {
        seq![]
    } else if parts.len() == 1 {
        parts[0]
    } else {
        join(parts.drop_last(), sep) + sep + parts.last()
    }
}

/// Views of a sequence of string slices.
pub open spec fn str_views(v: Seq<&str>) -> Seq<Seq<char>> {
    v.map_values(|s: &str| s@)
}

/// Views of a sequence of strings.
pub open spec fn string_views(v: Seq<String>) -> Seq<Seq<char>> {
    v.map_values(|s: String| s@)
}

/// Appends the string slices of `parts` joined by `sep`.
pub fn push_joined_strs(out: &mut String, parts: &[&str], sep: &str)
    ensures
        final(out)@ == old(out)@ + join(str_views(parts@), sep@),
{
    let ghost start = out@;
    let mut i: usize = 0;
    while i < parts.len()
        invariant
            i <= parts@.len(),
            out@ == start + join(str_views(parts@.take(i as int)), sep@),
        decreases parts@.len() - i,
    {
        if i > 0 {
            push_str(out, sep);
        }
        push_str(out, parts[i]);
        proof {
            let t = str_views(parts@.take(i as int + 1));
            assert(t.drop_last() =~= str_views(parts@.take(i as int)));
            assert(t.last() == parts@[i as int]@);
        }
        i = i + 1;
        assert(out@ =~= start + join(str_views(parts@.take(i as int)), sep@));
    }
    assert(parts@.take(parts@.len() as int) =~= parts@);
}

/// Appends the strings of `parts` joined by `sep`.
pub fn push_joined_strings(out: &mut String, parts: &[String], sep: &str)
    ensures
        final(out)@ == old(out)@ + join(string_views(parts@), sep@),
{
    let ghost start = out@;
    let mut i: usize = 0;
    while i < parts.len()
        invariant
            i <= parts@.len(),
            out@ == start + join(string_views(parts@.take(i as int)), sep@),
        decreases parts@.len() - i,
    {
        if i > 0 {
            push_str(out, sep);
        }
        push_str(out, parts[i].as_str());
        proof {
            let t = string_views(parts@.take(i as int + 1));
            assert(t.drop_last() =~= string_views(parts@.take(i as int)));
            assert(t.last() == parts@[i as int]@);
        }
        i = i + 1;
        assert(out@ =~= start + join(string_views(parts@.take(i as int)), sep@));
    }
    assert(parts@.take(parts@.len() as int) =~= parts@);
}


/// Whether `p` occurs in `s` as a contiguous part.
pub open spec fn is_substring(p: Seq<char>, s: Seq<char>) -> bool {
    exists|i: int| 0 <= i && i + p.len() <= s.len() && #[trigger] s.subrange(i, i + p.len()) == p
}

/// `str::contains` with a string pattern: whether `p` occurs in `s`.
#[verifier::external_body]
pub(crate) fn str_contains(s: &str, p: &str) -> (r: bool)
    ensures
        r == is_substring(p@, s@),
{
    s.contains(p)
}

/// Unicode `White_Space` of a character (what `char::is_whitespace`
/// answers).
pub uninterp spec fn is_white_space(c: char) -> bool;

/// Unicode lower-casing of a text (what `str::to_lowercase` returns).
pub uninterp spec fn to_lower(s: Seq<char>) -> Seq<char>;

/// `char::is_whitespace`: whether the character has the Unicode
/// `White_Space` property.
#[verifier::external_body]
pub(crate) fn char_is_whitespace(c: char) -> (r: bool)
    ensures
        r == is_white_space(c),
{
    c.is_whitespace()
}

/// `str::to_lowercase`: the Unicode lower-case of the text.
#[verifier::external_body]
pub(crate) fn str_to_lowercase(s: &str) -> (r: String)
    ensures
        r@ == to_lower(s@),
{
    s.to_lowercase()
}

/// Whether the text has only white space (what `str::trim` leaves empty).
pub open spec fn blank(s: Seq<char>) -> bool {
    forall|i: int| 0 <= i < s.len() ==> is_white_space(#[trigger] s[i])
}

/// Whether the text is empty once white space is trimmed from both ends.
pub fn is_blank(s: &str) -> (r: bool)
    ensures
        r == blank(s@),
{
    let mut it = s.chars();
    let ghost all = s@;
    let ghost mut i: int = 0;
    loop
        invariant
            it.remaining() == all.skip(i),
            0 <= i <= all.len(),
            all == s@,
            forall|t: int| 0 <= t < i ==> is_white_space(#[trigger] all[t]),
        decreases all.len() - i,
    {
        match it.next() {
            Some(c) => {
                assert(all.skip(i)[0] == all[i]);
                if !char_is_whitespace(c) {
                    return false;
                }
                assert(all.skip(i).drop_first() =~= all.skip(i + 1));
                proof {
                    i = i + 1;
                }
            },
            None => {
                assert(all.skip(i).len() == 0);
                return true;
            },
        }
    }
}

} // verus!
