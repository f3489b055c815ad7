//! Reading the QEMU Type-2 BAR2 repeatability runs: the fields of each
//! run's `summary.json` and `guest-summary.json`, and the evidence they
//! add up to.

use vstd::prelude::*;

use super::error::HostError;
use super::sim_feasible::{is_bar2_summary, run_total, summarize_bar2_runs, Bar2EvidenceSummary, Bar2RunEvidence};

verus! {

/// What serde_json finds under `key` in the JSON document `json`: the
/// parse error's text, or the field as an unsigned 64-bit number (`None`
/// when there is no such field or it is not one).
pub uninterp spec fn json_u64_field_of(json: Seq<u8>, key: Seq<char>) -> Result<Option<u64>, Seq<char>>;

/// What serde_json finds under `key` in the JSON document `json`: the
/// parse error's text, or the field as a string (`None` when there is no
/// such field or it is not a string).
pub uninterp spec fn json_str_field_of(json: Seq<u8>, key: Seq<char>) -> Result<Option<Seq<char>>, Seq<char>>;

/// `serde_json::from_slice::<serde_json::Value>` on `json`, then
/// `Value::get(key)` and `Value::as_u64`: the result is a function of the
/// bytes and the key, named `json_u64_field_of`; the error is the parse
/// error's text.
#[verifier::external_body]
fn json_u64_field(json: &[u8], key: &str) -> (r: Result<Option<u64>, String>)
    ensures
        match r {
            Ok(v) => json_u64_field_of(json@, key@) == Ok::<Option<u64>, Seq<char>>(v),
            Err(e) => json_u64_field_of(json@, key@) == Err::<Option<u64>, Seq<char>>(e@),
        },
{
    match serde_json::from_slice::<serde_json::Value>(json) {
        Ok(v) => Ok(v.get(key).and_then(serde_json::Value::as_u64)),
        Err(e) => Err(e.to_string()),
    }
}

/// `serde_json::from_slice::<serde_json::Value>` on `json`, then
/// `Value::get(key)` and `Value::as_str`: the result is a function of the
/// bytes and the key, named `json_str_field_of`; the error is the parse
/// error's text.
#[verifier::external_body]
fn json_str_field(json: &[u8], key: &str) -> (r: Result<Option<String>, String>)
    ensures
        match r {
            Ok(Some(s)) => json_str_field_of(json@, key@) == Ok::<Option<Seq<char>>, Seq<char>>(Some(s@)),
            Ok(None) => json_str_field_of(json@, key@) == Ok::<Option<Seq<char>>, Seq<char>>(None),
            Err(e) => json_str_field_of(json@, key@) == Err::<Option<Seq<char>>, Seq<char>>(e@),
        },
{
    match serde_json::from_slice::<serde_json::Value>(json) {
        Ok(v) => Ok(v.get(key).and_then(serde_json::Value::as_str).map(String::from)),
        Err(e) => Err(e.to_string()),
    }
}

/// The files one repeatability run left: `summary.json` and, when it
/// exists, `guest-summary.json`, with their paths.
pub struct Bar2RunFiles {
    pub summary_path: String,
    pub summary_json: Vec<u8>,
    pub guest_path: String,
    pub guest_json: Option<Vec<u8>>,
}

/// The bytes of an optional file.
pub open spec fn opt_bytes(b: Option<Vec<u8>>) -> Option<Seq<u8>> {
    match b {
        Some(v) => Some(v@),
        None => None,
    }
}

/// The reason a file that does not parse gives.
pub open spec fn parse_reason(path: Seq<char>, err: Seq<char>) -> Seq<char> {
    "parse "@ + path + ": "@ + err
}

/// The reason of the first lookup in a run's files that fails: the
/// summary's status, request, response, tag-mismatch and dispatch-failure
/// counts, then the guest's elapsed time; `None` when none fails.
pub open spec fn run_files_error(f: Bar2RunFiles) -> Option<Seq<char>> {
    let s = f.summary_json@;
    let sp = f.summary_path@;
    if json_str_field_of(s, "status"@) is Err {
        Some(parse_reason(sp, json_str_field_of(s, "status"@)->Err_0))
    } else if json_u64_field_of(s, "request_count"@) is Err {
        Some(parse_reason(sp, json_u64_field_of(s, "request_count"@)->Err_0))
    } else if json_u64_field_of(s, "response_count"@) is Err {
        Some(parse_reason(sp, json_u64_field_of(s, "response_count"@)->Err_0))
    } else if json_u64_field_of(s, "tag_mismatches"@) is Err {
        Some(parse_reason(sp, json_u64_field_of(s, "tag_mismatches"@)->Err_0))
    } else if json_u64_field_of(s, "dispatch_failures"@) is Err {
        Some(parse_reason(sp, json_u64_field_of(s, "dispatch_failures"@)->Err_0))
    } else {
        match opt_bytes(f.guest_json) {
            Some(g) => if json_u64_field_of(g, "elapsed_ms"@) is Err {
                Some(parse_reason(f.guest_path@, json_u64_field_of(g, "elapsed_ms"@)->Err_0))
            } else {
                None
            },
            None => None,
        }
    }
}

/// `e` is the evidence a run's files hold: the summary's status and
/// counts, and the guest's elapsed time when there is a guest summary.
pub open spec fn run_evidence_holds(e: Bar2RunEvidence, f: Bar2RunFiles) -> bool {
    let s = f.summary_json@;
    &&& json_str_field_of(s, "status"@) == Ok::<Option<Seq<char>>, Seq<char>>(match e.status {
        Some(t) => Some(t@),
        None => None,
    })
    &&& json_u64_field_of(s, "request_count"@) == Ok::<Option<u64>, Seq<char>>(e.request_count)
    &&& json_u64_field_of(s, "response_count"@) == Ok::<Option<u64>, Seq<char>>(e.response_count)
    &&& json_u64_field_of(s, "tag_mismatches"@) == Ok::<Option<u64>, Seq<char>>(e.tag_mismatches)
    &&& json_u64_field_of(s, "dispatch_failures"@) == Ok::<Option<u64>, Seq<char>>(e.dispatch_failures)
    &&& e.guest_elapsed_ms == match opt_bytes(f.guest_json) {
        Some(g) => json_u64_field_of(g, "elapsed_ms"@)->Ok_0,
        None => None,
    }
}

fn parse_failure(path: &String, err: String) -> (r: HostError)
    ensures
        r matches HostError::DispatchFailed { tag, reason } && tag == 0 && reason@ == parse_reason(path@, err@),
{
    let mut reason = String::from_str("parse ");
    reason.append(path.as_str());
    reason.append(": ");
    reason.append(err.as_str());
    HostError::DispatchFailed { tag: 0, reason }
}

fn u64_field(json: &Vec<u8>, key: &str, path: &String) -> (r: Result<Option<u64>, HostError>)
    ensures
        match json_u64_field_of(json@, key@) {
            Ok(v) => r == Ok::<Option<u64>, HostError>(v),
            Err(e) => r matches Err(HostError::DispatchFailed { tag, reason }) && tag == 0 && reason@ == parse_reason(path@, e),
        },
{
    match json_u64_field(json.as_slice(), key) {
        Ok(v) => Ok(v),
        Err(e) => Err(parse_failure(path, e)),
    }
}

/// The evidence of one run, read from its files; fails at the first file
/// that does not parse.
pub fn run_evidence_of(f: &Bar2RunFiles) -> (r: Result<Bar2RunEvidence, HostError>)
    ensures
        match run_files_error(*f) {
            Some(reason) => r matches Err(HostError::DispatchFailed { tag, reason: rr }) && tag == 0 && rr@ == reason,
            None => r matches Ok(e) && run_evidence_holds(e, *f),
        },
{
    proof {
        reveal_strlit("status");
        reveal_strlit("request_count");
        reveal_strlit("response_count");
        reveal_strlit("tag_mismatches");
        reveal_strlit("dispatch_failures");
        reveal_strlit("elapsed_ms");
    }
    let status = match json_str_field(f.summary_json.as_slice(), "status") {
        Ok(s) => s,
        Err(e) => return Err(parse_failure(&f.summary_path, e)),
    };
    let request_count = u64_field(&f.summary_json, "request_count", &f.summary_path)?;
    let response_count = u64_field(&f.summary_json, "response_count", &f.summary_path)?;
    let tag_mismatches = u64_field(&f.summary_json, "tag_mismatches", &f.summary_path)?;
    let dispatch_failures = u64_field(&f.summary_json, "dispatch_failures", &f.summary_path)?;
    let guest_elapsed_ms = match &f.guest_json {
        Some(g) => u64_field(g, "elapsed_ms", &f.guest_path)?,
        None => None,
    };
    Ok(Bar2RunEvidence { status, request_count, response_count, tag_mismatches, dispatch_failures, guest_elapsed_ms })
}

/// Whether the counter `field` (0 requests, 1 responses, 2 tag mismatches,
/// 3 dispatch failures) summed over `runs` fits in 64 bits.
fn total_fits(runs: &Vec<Bar2RunEvidence>, field: u8) -> (r: bool)
    requires
        field <= 3,
    ensures
        r == (run_total(runs@, field as int) <= u64::MAX),
{
    let mut sum: u64 = 0;
    let mut i: usize = 0;
    while i < runs.len()
        invariant
            0 <= i <= runs@.len(),
            field <= 3,
            sum == run_total(runs@.subrange(0, i as int), field as int),
        decreases runs@.len() - i,
    {
        proof {
            assert(runs@.subrange(0, i as int + 1).drop_last() =~= runs@.subrange(0, i as int));
            assert(runs@.subrange(0, i as int + 1).last() == runs@[i as int]);
            super::sim_feasible::lemma_run_totals_prefix(runs@, i as int + 1, field as int);
        }
        let r = &runs[i];
        let x = match if field == 0 {
            r.request_count
        } else if field == 1 {
            r.response_count
        } else if field == 2 {
            r.tag_mismatches
        } else {
            r.dispatch_failures
        } {
            Some(n) => n,
            None => 0,
        };
        match sum.checked_add(x) {
            Some(s) => sum = s,
            None => return false,
        }
        i = i + 1;
    }
    assert(runs@.subrange(0, i as int) =~= runs@);
    true
}

/// `k` is the first run whose files do not parse.
pub open spec fn first_bad_run(runs: Seq<Bar2RunFiles>, k: int) -> bool {
    &&& 0 <= k < runs.len()
    &&& forall|i: int| 0 <= i < k ==> run_files_error(#[trigger] runs[i]) is None
    &&& run_files_error(runs[k]) is Some
}

/// The BAR2 repeatability evidence of the runs found under `source_dir`,
/// read from their files (`None` when no directory was given, and then the
/// runs are not read). Fails at the first run whose files do not parse;
/// gives `Ok(None)` when a summed counter leaves 64 bits.
pub fn bar2_evidence_from_files(source_dir: Option<String>, runs: &Vec<Bar2RunFiles>) -> (r: Result<Option<Bar2EvidenceSummary>, HostError>)
    ensures
        source_dir is None ==> (r matches Ok(Some(s)) && is_bar2_summary(s, None, Seq::empty())),
        source_dir matches Some(d) ==> {
            &&& (r is Err <==> exists|k: int| first_bad_run(runs@, k))
            &&& forall|k: int| #[trigger] first_bad_run(runs@, k) ==> (r matches Err(HostError::DispatchFailed { tag, reason })
                && tag == 0 && reason@ == run_files_error(runs@[k])->0)
            &&& r is Ok ==> exists|evs: Seq<Bar2RunEvidence>| {
                &&& evs.len() == runs@.len()
                &&& forall|i: int| 0 <= i < evs.len() ==> run_evidence_holds(#[trigger] evs[i], runs@[i])
                &&& if run_total(evs, 0) <= u64::MAX && run_total(evs, 1) <= u64::MAX && run_total(evs, 2) <= u64::MAX
                    && run_total(evs, 3) <= u64::MAX {
                    r matches Ok(Some(s)) && is_bar2_summary(s, Some(d@), evs)
                } else {
                    r == Ok::<Option<Bar2EvidenceSummary>, HostError>(None)
                }
            }
        },
{
    let dir = match source_dir {
        None => {
            let empty: Vec<Bar2RunEvidence> = Vec::new();
            let s = summarize_bar2_runs(None, &empty);
            assert(empty@ =~= Seq::<Bar2RunEvidence>::empty());
            return Ok(Some(s));
        },
        Some(d) => d,
    };
    let ghost dv = dir@;
    let mut evs: Vec<Bar2RunEvidence> = Vec::new();
    let mut i: usize = 0;
    while i < runs.len()
        invariant
            0 <= i <= runs@.len(),
            dv == dir@,
            source_dir is Some,
            evs@.len() == i,
            forall|j: int| 0 <= j < i ==> run_evidence_holds(#[trigger] evs@[j], runs@[j]),
            forall|j: int| 0 <= j < i ==> run_files_error(#[trigger] runs@[j]) is None,
        decreases runs@.len() - i,
    {
        let e = run_evidence_of(&runs[i]);
        match e {
            Ok(ev) => {
                let ghost before = evs@;
                evs.push(ev);
                proof {
                    assert forall|j: int| 0 <= j < i + 1 implies run_evidence_holds(#[trigger] evs@[j], runs@[j]) by {
                        if j < i {
                            assert(evs@[j] == before[j]);
                        }
                    }
                }
            },
            Err(err) => {
                proof {
                    assert(first_bad_run(runs@, i as int));
                    assert forall|k: int| #[trigger] first_bad_run(runs@, k) implies k == i by {
                        if k < i {
                            assert(run_files_error(runs@[k]) is None);
                        } else if k > i {
                            assert(run_files_error(runs@[i as int]) is None);
                        }
                    }
                }
                return Err(err);
            },
        }
        i = i + 1;
    }
    proof {
        assert forall|k: int| !#[trigger] first_bad_run(runs@, k) by {
            if 0 <= k < runs@.len() {
                assert(run_files_error(runs@[k]) is None);
            }
        }
    }
    let fits = total_fits(&evs, 0) && total_fits(&evs, 1) && total_fits(&evs, 2) && total_fits(&evs, 3);
    if !fits {
        return Ok(None);
    }
    let s = summarize_bar2_runs(Some(dir), &evs);
    Ok(Some(s))
}

} // verus!
