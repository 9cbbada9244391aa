//! URL inspection: validation and the batch report.
use crate::api::{ApiError, ui_text};
use crate::text::{dec, push_decimal, push_str, str_eq, string_of};
use crate::tools::properties::check_site;
use crate::validate::site_url_check;
use vstd::prelude::*;

verus! {

/// The language of issue messages: the requested one, `en-US` by default.
pub fn inspection_language(language_code: Option<&str>) -> (r: &str)
    ensures
        r@ == match language_code { Some(l) => l@, None => "en-US"@ },
{
    match language_code {
        Some(l) => l,
        None => "en-US",
    }
}

/// Validates a `batch_inspect_urls` call: the site, one to fifty URLs; the
/// concurrency (default 5) is clamped to 1..=20.
pub fn plan_batch_inspect(site_url: &str, url_count: usize, concurrency: Option<u32>) -> (r: Result<u32, String>)
    ensures
        ({
            let c = match concurrency { Some(c) => c, None => 5u32 };
            if site_url_check(site_url@) is Err {
                r matches Err(e) && e@ == "Error: "@ + site_url_check(site_url@)->Err_0
            } else if url_count == 0 {
                r matches Err(e) && e@ == "Error: urls list cannot be empty."@
            } else if url_count > 50 {
                r matches Err(e) && e@ == "Error: batch_inspect_urls accepts max 50 URLs, got "@ + dec(url_count as nat) + "."@
            } else {
                r == Ok::<u32, String>(if c < 1 { 1 } else if c > 20 { 20 } else { c })
            }
        }),
{
    if let Err(e) = check_site(site_url) {
        return Err(e);
    }
    if url_count == 0 {
        return Err(string_of("Error: urls list cannot be empty."));
    }
    if url_count > 50 {
        let mut e = string_of("Error: batch_inspect_urls accepts max 50 URLs, got ");
        push_decimal(&mut e, url_count as u64);
        push_str(&mut e, ".");
        return Err(e);
    }
    let c = match concurrency {
        Some(c) => c,
        None => 5,
    };
    Ok(if c < 1 { 1 } else if c > 20 { 20 } else { c })
}

/// The outcome of inspecting one URL.
pub enum InspectOutcome {
    /// The inspection answered, with the index verdict when it had one.
    Verdict { url: String, verdict: Option<String> },
    /// The API refused the inspection.
    Failed { url: String, error: ApiError },
    /// The inspection task itself failed.
    TaskError(String),
}

pub open spec fn verdict_text(v: Option<String>) -> Seq<char> {
    match v {
        Some(s) => s@,
        None => "UNKNOWN"@,
    }
}

pub open spec fn is_indexed(o: InspectOutcome) -> bool {
    o matches InspectOutcome::Verdict { verdict, .. } && verdict_text(verdict) == "PASS"@
}

pub open spec fn is_not_indexed(o: InspectOutcome) -> bool {
    o matches InspectOutcome::Verdict { verdict, .. } && (verdict_text(verdict) == "FAIL"@ || verdict_text(verdict) == "NEUTRAL"@)
}

/// How many outcomes satisfy a predicate.
pub open spec fn count_of(os: Seq<InspectOutcome>, f: spec_fn(InspectOutcome) -> bool) -> nat
    decreases os.len(),
{
    if os.len() == 0 {
        0
    } else {
        count_of(os.drop_last(), f) + if f(os.last()) { 1nat } else { 0nat }
    }
}

pub open spec fn outcome_line(o: InspectOutcome) -> Seq<char> {
    match o {
        InspectOutcome::Verdict { url, verdict } => "  "@ + url@ + " - "@ + verdict_text(verdict),
        InspectOutcome::Failed { url, error } => "  "@ + url@ + " - Error: "@ + ui_text(error.status, error.message@),
        InspectOutcome::TaskError(e) => "  (task error) - "@ + e@,
    }
}

pub open spec fn outcome_lines(os: Seq<InspectOutcome>) -> Seq<char>
    decreases os.len(),
{
    if os.len() == 0 {
        seq![]
    } else {
        outcome_lines(os.drop_last()) + outcome_line(os.last()) + seq!['\n']
    }
}

/// The batch report: the URL count, the summary counts (indexed: verdict
/// PASS; not indexed: FAIL or NEUTRAL; errors: everything else) and one line
/// per outcome.
pub open spec fn batch_report_text(total: nat, os: Seq<InspectOutcome>) -> Seq<char> {
    let indexed = count_of(os, |o: InspectOutcome| is_indexed(o));
    let not_indexed = count_of(os, |o: InspectOutcome| is_not_indexed(o));
    let errors = (os.len() - indexed - not_indexed) as nat;
    "Batch Inspection Results ("@ + dec(total) + " URLs)\n\n"@
        + "Summary: "@ + dec(indexed) + " indexed, "@ + dec(not_indexed) + " not indexed, "@ + dec(errors) + " errors\n\n"@
        + "Details:\n"@ + outcome_lines(os)
}

/// Each outcome adds one to exactly one count of the summary: a verdict
/// "PASS" to the indexed URLs, a verdict "FAIL" or "NEUTRAL" to the
/// not-indexed ones, and anything else (another verdict, no verdict, an API
/// refusal, a failed task) to the errors.
pub proof fn lemma_summary_counts_step(os: Seq<InspectOutcome>, o: InspectOutcome)
    ensures
        ({
            let pass = o matches InspectOutcome::Verdict { verdict: Some(v), .. } && v@ == "PASS"@;
            let not_indexed = o matches InspectOutcome::Verdict { verdict: Some(v), .. } && (v@ == "FAIL"@ || v@ == "NEUTRAL"@);
            let indexed_count = |s: Seq<InspectOutcome>| count_of(s, |x: InspectOutcome| is_indexed(x));
            let not_indexed_count = |s: Seq<InspectOutcome>| count_of(s, |x: InspectOutcome| is_not_indexed(x));
            &&& indexed_count(os.push(o)) == indexed_count(os) + if pass { 1int } else { 0int }
            &&& not_indexed_count(os.push(o)) == not_indexed_count(os) + if not_indexed { 1int } else { 0int }
            &&& os.push(o).len() - indexed_count(os.push(o)) - not_indexed_count(os.push(o))
                == os.len() - indexed_count(os) - not_indexed_count(os) + if pass || not_indexed { 0int } else { 1int }
        }),
{
    reveal_strlit("PASS");
    reveal_strlit("FAIL");
    reveal_strlit("NEUTRAL");
    reveal_strlit("UNKNOWN");
    assert(os.push(o).drop_last() =~= os);
    assert("UNKNOWN"@[0] != "PASS"@[0] && "UNKNOWN"@[0] != "FAIL"@[0] && "UNKNOWN"@[0] != "NEUTRAL"@[0]);
    assert("PASS"@[0] != "FAIL"@[0] && "PASS"@.len() != "NEUTRAL"@.len());
}

fn classify(o: &InspectOutcome) -> (r: u8)
    ensures
        r == 0 <==> is_indexed(*o),
        r == 1 <==> is_not_indexed(*o),
        r <= 2,
{
    proof {
        reveal_strlit("PASS");
        reveal_strlit("FAIL");
        reveal_strlit("NEUTRAL");
        reveal_strlit("UNKNOWN");
    }
    match o {
        InspectOutcome::Verdict { verdict, .. } => {
            let v = match verdict {
                Some(s) => s.as_str(),
                None => "UNKNOWN",
            };
            if str_eq(v, "PASS") {
                assert(v@ != "FAIL"@ && v@ != "NEUTRAL"@) by {
                    assert(v@[0] != "FAIL"@[0]);
                    assert(v@.len() != "NEUTRAL"@.len());
                }
                0
            } else if str_eq(v, "FAIL") || str_eq(v, "NEUTRAL") {
                assert(v@ != "PASS"@) by {
                    if v@ == "FAIL"@ {
                        assert(v@[0] != "PASS"@[0]);
                    } else {
                        assert(v@.len() != "PASS"@.len());
                    }
                }
                1
            } else {
                2
            }
        },
        _ => 2,
    }
}

/// The report of a batch inspection of `total` URLs.
pub fn batch_report(total: usize, outcomes: &[InspectOutcome]) -> (r: String)
    ensures
        r@ == batch_report_text(total as nat, outcomes@),
{
    let ghost os = outcomes@;
    let mut indexed: usize = 0;
    let mut not_indexed: usize = 0;
    let mut i: usize = 0;
    while i < outcomes.len()
        invariant
            i <= os.len(),
            os == outcomes@,
            indexed == count_of(os.take(i as int), |o: InspectOutcome| is_indexed(o)),
            not_indexed == count_of(os.take(i as int), |o: InspectOutcome| is_not_indexed(o)),
            indexed + not_indexed <= i,
        decreases os.len() - i,
    {
        assert(os.take(i as int + 1).drop_last() =~= os.take(i as int));
        let c = classify(&outcomes[i]);
        if c == 0 {
            indexed = indexed + 1;
        } else if c == 1 {
            not_indexed = not_indexed + 1;
        }
        i = i + 1;
    }
    assert(os.take(os.len() as int) =~= os);
    let errors = outcomes.len() - indexed - not_indexed;
    let mut out = string_of("Batch Inspection Results (");
    push_decimal(&mut out, total as u64);
    push_str(&mut out, " URLs)\n\n");
    push_str(&mut out, "Summary: ");
    push_decimal(&mut out, indexed as u64);
    push_str(&mut out, " indexed, ");
    push_decimal(&mut out, not_indexed as u64);
    push_str(&mut out, " not indexed, ");
    push_decimal(&mut out, errors as u64);
    push_str(&mut out, " errors\n\n");
    push_str(&mut out, "Details:\n");
    let ghost head = out@;
    let mut k: usize = 0;
    while k < outcomes.len()
        invariant
            k <= os.len(),
            os == outcomes@,
            out@ == head + outcome_lines(os.take(k as int)),
        decreases os.len() - k,
    {
        assert(os.take(k as int + 1).drop_last() =~= os.take(k as int));
        match &outcomes[k] {
            InspectOutcome::Verdict { url, verdict } => {
                push_str(&mut out, "  ");
                push_str(&mut out, url.as_str());
                push_str(&mut out, " - ");
                match verdict {
                    Some(v) => push_str(&mut out, v.as_str()),
                    None => push_str(&mut out, "UNKNOWN"),
                }
            },
            InspectOutcome::Failed { url, error } => {
                push_str(&mut out, "  ");
                push_str(&mut out, url.as_str());
                push_str(&mut out, " - Error: ");
                push_str(&mut out, error.to_ui_string().as_str());
            },
            InspectOutcome::TaskError(e) => {
                push_str(&mut out, "  (task error) - ");
                push_str(&mut out, e.as_str());
            },
        }
        crate::text::push_char(&mut out, '\n');
        k = k + 1;
        assert(out@ =~= head + outcome_lines(os.take(k as int)));
    }
    assert(os.take(os.len() as int) =~= os);
    assert(out@ =~= batch_report_text(total as nat, outcomes@));
    out
}

} // verus!
