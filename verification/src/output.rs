//! Presentation of results: inline or CSV, CSV escaping and file names.
use crate::text::{dec, join, push_char, push_decimal, push_joined_strings, push_str, string_of, string_views};
use crate::query::strings_view;
use vstd::prelude::*;
use vstd::std_specs::iter::IteratorSpec;

verus! {

/// Rows above which results go to a CSV file.
pub const DEFAULT_INLINE_LIMIT: u32 = 500;

/// How a result is presented.
pub enum ResponseForm {
    /// No rows: a short notice.
    NoData,
    /// Rows listed in the answer.
    Inline,
    /// Rows written to a CSV file with this base name.
    Export(String),
}

/// No rows gives a notice; up to `inline_limit` rows (the count narrowed to
/// 32 bits) are shown inline; more go to a CSV file named after
/// `export_filename`, `gsc_export` by default.
pub fn response_form(row_count: usize, inline_limit: u32, export_filename: Option<&str>) -> (r: ResponseForm)
    ensures
        row_count == 0 ==> r is NoData,
        row_count != 0 && (#[verifier::truncate] (row_count as u32)) <= inline_limit ==> r is Inline,
        row_count != 0 && (#[verifier::truncate] (row_count as u32)) > inline_limit ==> (r matches ResponseForm::Export(f)
            && f@ == match export_filename { Some(n) => n@, None => "gsc_export"@ }),
{
    if row_count == 0 {
        return ResponseForm::NoData;
    }
    if (#[verifier::truncate] (row_count as u32)) <= inline_limit {
        ResponseForm::Inline
    } else {
        ResponseForm::Export(match export_filename {
            Some(n) => string_of(n),
            None => string_of("gsc_export"),
        })
    }
}

/// The notice for a result without rows.
pub fn no_data_text() -> (r: String)
    ensures
        r@ == "No data found for the given parameters."@,
{
    string_of("No data found for the given parameters.")
}

/// The answer when the CSV export failed: a warning, then the rows inline.
pub fn export_fallback_text(error: &str, inline: &str) -> (r: String)
    ensures
        r@ == "Warning: CSV export failed ("@ + error@ + "). Showing inline instead.\n\n"@ + inline@,
{
    let mut r = string_of("Warning: CSV export failed (");
    push_str(&mut r, error);
    push_str(&mut r, "). Showing inline instead.\n\n");
    push_str(&mut r, inline);
    r
}

/// The characters of a string.
pub fn chars_of(s: &str) -> (r: Vec<char>)
    ensures
        r@ == s@,
{
    let mut it = s.chars();
    let ghost all = s@;
    let mut v: Vec<char> = Vec::new();
    loop
        invariant
            it.remaining() == all.skip(v@.len() as int),
            v@ == all.take(v@.len() as int),
            v@.len() <= all.len(),
            all == s@,
        decreases all.len() - v@.len(),
    {
        match it.next() {
            Some(c) => {
                let ghost k = v@.len() as int;
                assert(all.skip(k)[0] == all[k]);
                v.push(c);
                assert(all.skip(k).drop_first() =~= all.skip(k + 1));
                assert(v@ =~= all.take(k + 1));
            },
            None => {
                assert(all.skip(v@.len() as int).len() == 0);
                assert(v@ =~= all);
                return v;
            },
        }
    }
}

/// Doubles each double quote.
pub open spec fn escape_quotes(s: Seq<char>) -> Seq<char>
    decreases s.len(),
{
    if s.len() == 0 {
        seq![]
    } else {
        escape_quotes(s.drop_last()) + if s.last() == '"' { seq!['"', '"'] } else { seq![s.last()] }
    }
}

pub open spec fn formula_start(c: char) -> bool {
    c == '=' || c == '+' || c == '-' || c == '@' || c == '\t'
}

pub open spec fn needs_quoting(s: Seq<char>) -> bool {
    s.contains(',') || s.contains('"') || s.contains('\n') || s.contains('\r')
}

/// A CSV field: a value that a spreadsheet would read as a formula (first
/// character `= + - @` or tab) is quoted and prefixed with `'`; a value
/// holding a comma, quote or line break is quoted; quotes are doubled
/// inside quotes.
pub open spec fn csv_field(s: Seq<char>) -> Seq<char> {
    if s.len() > 0 && formula_start(s[0]) {
        seq!['"', '\''] + escape_quotes(s) + seq!['"']
    } else if needs_quoting(s) {
        seq!['"'] + escape_quotes(s) + seq!['"']
    } else {
        s
    }
}

/// No exported field begins with a character that a spreadsheet reads as
/// the start of a formula; a value that does is exported quoted, behind an
/// apostrophe.
pub proof fn lemma_csv_field_inert(s: Seq<char>)
    ensures
        csv_field(s).len() > 0 ==> !formula_start(csv_field(s)[0]),
        s.len() > 0 && formula_start(s[0]) ==> csv_field(s).take(2) == seq!['"', '\''],
{
    if s.len() > 0 && formula_start(s[0]) {
        assert(csv_field(s).take(2) =~= seq!['"', '\'']);
    }
}

/// Escapes a value for a CSV file, guarding against formula injection.
pub fn csv_escape(s: &str) -> (r: String)
    ensures
        r@ == csv_field(s@),
{
    let cs = chars_of(s);
    let guard = cs.len() > 0 && (cs[0] == '=' || cs[0] == '+' || cs[0] == '-' || cs[0] == '@' || cs[0] == '\t');
    let mut special = false;
    let mut escaped = String::new();
    let mut i: usize = 0;
    while i < cs.len()
        invariant
            i <= cs@.len(),
            cs@ == s@,
            escaped@ == escape_quotes(cs@.take(i as int)),
            special == (cs@.take(i as int).contains(',') || cs@.take(i as int).contains('"')
                || cs@.take(i as int).contains('\n') || cs@.take(i as int).contains('\r')),
        decreases cs@.len() - i,
    {
        let c = cs[i];
        let ghost prev = cs@.take(i as int);
        assert(cs@.take(i as int + 1) =~= prev.push(c));
        assert(cs@.take(i as int + 1).drop_last() =~= prev);
        if c == '"' {
            push_char(&mut escaped, '"');
            push_char(&mut escaped, '"');
        } else {
            push_char(&mut escaped, c);
        }
        if c == ',' || c == '"' || c == '\n' || c == '\r' {
            special = true;
        }
        proof {
            let next = prev.push(c);
            assert(next[next.len() - 1] == c);
            assert(next.contains(c));
            assert forall|x: char| next.contains(x) <==> prev.contains(x) || x == c by {
                if next.contains(x) {
                    let k = choose|k: int| 0 <= k < next.len() && next[k] == x;
                    if k < prev.len() {
                        assert(prev[k] == x);
                    }
                }
                if prev.contains(x) {
                    let k = choose|k: int| 0 <= k < prev.len() && prev[k] == x;
                    assert(next[k] == x);
                }
            }
        }
        i = i + 1;
        assert(escaped@ =~= escape_quotes(cs@.take(i as int)));
    }
    assert(cs@.take(cs@.len() as int) =~= cs@);
    proof {
        reveal_strlit("\"'");
        reveal_strlit("\"");
    }
    if guard {
        let mut r = string_of("\"'");
        push_str(&mut r, escaped.as_str());
        push_char(&mut r, '"');
        assert(r@ =~= csv_field(s@));
        r
    } else if special {
        let mut r = string_of("\"");
        push_str(&mut r, escaped.as_str());
        push_char(&mut r, '"');
        assert(r@ =~= csv_field(s@));
        r
    } else {
        string_of(s)
    }
}

/// `/` and `\` replaced by `_`.
pub open spec fn replace_separators(s: Seq<char>) -> Seq<char> {
    s.map_values(|c: char| if c == '/' || c == '\\' { '_' } else { c })
}

/// Each `..`, scanning from the left without overlap, replaced by `_`.
pub open spec fn replace_dot_pairs(s: Seq<char>) -> Seq<char>
    decreases s.len(),
{
    if s.len() == 0 {
        seq![]
    } else if s.len() >= 2 && s[0] == '.' && s[1] == '.' {
        seq!['_'] + replace_dot_pairs(s.skip(2))
    } else {
        seq![s[0]] + replace_dot_pairs(s.skip(1))
    }
}

/// A file name without path separators or `..`.
pub open spec fn safe_filename(s: Seq<char>) -> Seq<char> {
    replace_dot_pairs(replace_separators(s))
}

/// Makes a user-given file name safe: path separators and `..` become `_`.
pub fn sanitize_filename(filename: &str) -> (r: String)
    ensures
        r@ == safe_filename(filename@),
{
    let cs = chars_of(filename);
    let mut t: Vec<char> = Vec::new();
    let mut i: usize = 0;
    while i < cs.len()
        invariant
            i <= cs@.len(),
            cs@ == filename@,
            t@ == replace_separators(cs@.take(i as int)),
        decreases cs@.len() - i,
    {
        let c = cs[i];
        t.push(if c == '/' || c == '\\' { '_' } else { c });
        i = i + 1;
        assert(t@ =~= replace_separators(cs@.take(i as int)));
    }
    assert(cs@.take(cs@.len() as int) =~= cs@);
    let mut out = String::new();
    let mut k: usize = 0;
    assert(t@.skip(0) =~= t@);
    assert(out@ + replace_dot_pairs(t@.skip(0)) =~= safe_filename(filename@));
    while k < t.len()
        invariant
            k <= t@.len(),
            t@ == replace_separators(filename@),
            out@ + replace_dot_pairs(t@.skip(k as int)) == safe_filename(filename@),
        decreases t@.len() - k,
    {
        let ghost rest = t@.skip(k as int);
        if k + 1 < t.len() && t[k] == '.' && t[k + 1] == '.' {
            assert(rest.skip(2) =~= t@.skip(k + 2));
            push_char(&mut out, '_');
            k = k + 2;
        } else {
            assert(rest.skip(1) =~= t@.skip(k + 1));
            push_char(&mut out, t[k]);
            k = k + 1;
        }
    }
    assert(t@.skip(k as int).len() == 0);
    assert(out@ =~= safe_filename(filename@));
    out
}

/// The CSV header of analytics rows with `key_count` keys: the dimension
/// names (`dim_<i>` where none is given), then the four metrics.
pub open spec fn analytics_header(dims: Option<Seq<Seq<char>>>, key_count: nat) -> Seq<Seq<char>> {
    Seq::new(key_count, |i: int| match dims {
        Some(d) => if i < d.len() { d[i] } else { "dim_"@ + dec(i as nat) },
        None => "dim_"@ + dec(i as nat),
    }) + seq!["clicks"@, "impressions"@, "ctr"@, "position"@]
}

/// Builds the CSV header of analytics rows.
pub fn analytics_csv_header(dimensions: Option<&[String]>, key_count: usize) -> (r: Vec<String>)
    ensures
        strings_view(r@) == analytics_header(
            match dimensions { Some(d) => Some(strings_view(d@)), None => None },
            key_count as nat,
        ),
{
    let ghost dims = match dimensions { Some(d) => Some(strings_view(d@)), None => None };
    let mut h: Vec<String> = Vec::new();
    let mut i: usize = 0;
    while i < key_count
        invariant
            i <= key_count,
            dims == match dimensions { Some(d) => Some(strings_view(d@)), None => None },
            strings_view(h@) == analytics_header(dims, key_count as nat).take(i as int),
        decreases key_count - i,
    {
        let name = match dimensions {
            Some(d) => if i < d.len() {
                d[i].clone()
            } else {
                let mut n = string_of("dim_");
                push_decimal(&mut n, i as u64);
                n
            },
            None => {
                let mut n = string_of("dim_");
                push_decimal(&mut n, i as u64);
                n
            },
        };
        let ghost old_h = h@;
        h.push(name);
        proof {
            assert(strings_view(old_h).len() == old_h.len());
            assert(strings_view(h@) =~= strings_view(old_h).push(name@));
            assert(analytics_header(dims, key_count as nat).take(i + 1) =~= analytics_header(dims, key_count as nat).take(i as int).push(name@));
        }
        i = i + 1;
    }
    let metrics: [&str; 4] = ["clicks", "impressions", "ctr", "position"];
    let mut m: usize = 0;
    while m < 4
        invariant
            m <= 4,
            metrics@ == seq!["clicks", "impressions", "ctr", "position"],
            strings_view(h@) == analytics_header(dims, key_count as nat).take(key_count + m),
        decreases 4 - m,
    {
        let ghost old_h = h@;
        h.push(string_of(metrics[m]));
        proof {
            assert(strings_view(old_h).len() == old_h.len());
            assert(strings_view(h@) =~= strings_view(old_h).push(metrics@[m as int]@));
            assert(analytics_header(dims, key_count as nat).take(key_count + m + 1) =~= analytics_header(dims, key_count as nat).take(key_count + m).push(metrics@[m as int]@));
        }
        m = m + 1;
    }
    assert(analytics_header(dims, key_count as nat).take(key_count + 4) =~= analytics_header(dims, key_count as nat));
    h
}

/// One CSV record: the fields joined by commas, then a line break.
pub fn csv_record(fields: &[String]) -> (r: String)
    ensures
        r@ == join(string_views(fields@), ","@) + seq!['\n'],
{
    let mut r = String::new();
    push_joined_strings(&mut r, fields, ",");
    push_char(&mut r, '\n');
    assert(r@ =~= join(string_views(fields@), ","@) + seq!['\n']);
    r
}

} // verus!
