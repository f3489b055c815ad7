//! The simulator-feasible benchmark pass: what each claim rests on. The
//! ledger says, claim by claim, whether the pass measured it, measured it
//! in part, or could not, and why; it follows the BAR2 repeatability
//! evidence and the DAX probe.

use vstd::prelude::*;
use vstd::string::*;

use super::job::GemmJob;
use super::text::{join, joined, lemma_lex_total, lex_le, starts_with, str_le};

verus! {

/// How far a claim is measured.
#[derive(Debug, Clone, Copy, PartialEq, Eq, Structural)]
pub enum ClaimStatus {
    Measured,
    PartiallyMeasured,
    Blocked,
}

/// One claim of the ledger.
#[derive(Debug, Clone, PartialEq, Eq)]
pub struct ClaimLedgerEntry {
    pub claim: String,
    pub status: ClaimStatus,
    pub evidence_artifact: String,
    pub measured_substrate: String,
    pub paper_safe_wording: String,
    pub limitation: String,
    pub checked: Vec<String>,
    pub missing_substrate: Option<String>,
}

/// Whether DAX devices were visible.
#[derive(Debug, Clone, Copy, PartialEq, Eq, Structural)]
pub enum DaxProbeStatus {
    Measured,
    Blocked,
}

/// What the DAX probe found.
#[derive(Debug, Clone, PartialEq, Eq)]
pub struct DaxProbe {
    pub status: DaxProbeStatus,
    pub dev_root: String,
    pub devices: Vec<String>,
    pub checked: Vec<String>,
    pub limitation: String,
}

/// The QEMU Type-2 BAR2 repeatability evidence.
#[derive(Debug, Clone, PartialEq)]
pub struct Bar2EvidenceSummary {
    pub status: ClaimStatus,
    pub runs: usize,
    pub pass_runs: usize,
    pub request_count: u64,
    pub response_count: u64,
    pub tag_mismatches: u64,
    pub dispatch_failures: u64,
    pub guest_elapsed_ms: Vec<u64>,
    pub source_dir: Option<String>,
    pub limitation: String,
}

/// Records per payload capture kind.
#[derive(Debug, Clone, PartialEq)]
pub struct PayloadRecordCounts {
    pub hash: u64,
    pub delta: u64,
    pub full: u64,
}

/// What the simulator-feasible pass runs on.
pub struct SimFeasibleInput {
    pub job: GemmJob,
    pub replay_repeats: usize,
    pub qemu_repeatability_dir: Option<String>,
    pub dev_root: String,
}

/// The characters of each string.
pub open spec fn texts(v: Seq<String>) -> Seq<Seq<char>> {
    v.map_values(|s: String| s@)
}

/// A ledger entry as a value.
pub struct ClaimView {
    pub claim: Seq<char>,
    pub status: ClaimStatus,
    pub evidence_artifact: Seq<char>,
    pub measured_substrate: Seq<char>,
    pub paper_safe_wording: Seq<char>,
    pub limitation: Seq<char>,
    pub checked: Seq<Seq<char>>,
    pub missing_substrate: Option<Seq<char>>,
}

impl View for ClaimLedgerEntry {
    type V = ClaimView;

    open spec fn view(&self) -> ClaimView {
        ClaimView {
            claim: self.claim@,
            status: self.status,
            evidence_artifact: self.evidence_artifact@,
            measured_substrate: self.measured_substrate@,
            paper_safe_wording: self.paper_safe_wording@,
            limitation: self.limitation@,
            checked: texts(self.checked@),
            missing_substrate: match self.missing_substrate {
                Some(m) => Some(m@),
                None => None,
            },
        }
    }
}

/// The substrate every claim of this pass is measured on.
pub open spec fn pass_substrate() -> Seq<char> {
    "SlugArch/CXLMemSim simulator-feasible pass"@
}

/// A ledger entry on the pass's substrate.
pub open spec fn claim_view(claim: Seq<char>, status: ClaimStatus, evidence_artifact: Seq<char>, paper_safe_wording: Seq<char>, limitation: Seq<char>, checked: Seq<Seq<char>>, missing_substrate: Option<Seq<char>>) -> ClaimView {
    ClaimView {
        claim,
        status,
        evidence_artifact,
        measured_substrate: pass_substrate(),
        paper_safe_wording,
        limitation,
        checked,
        missing_substrate,
    }
}

fn claim(name: &str, status: ClaimStatus, evidence_artifact: String, paper_safe_wording: &str, limitation: &str, checked: Vec<String>, missing_substrate: Option<String>) -> (r: ClaimLedgerEntry)
    ensures
        r@ == claim_view(name@, status, evidence_artifact@, paper_safe_wording@, limitation@, texts(checked@), match missing_substrate {
            Some(m) => Some(m@),
            None => None,
        }),
{
    ClaimLedgerEntry {
        claim: String::from_str(name),
        status,
        evidence_artifact,
        measured_substrate: String::from_str("SlugArch/CXLMemSim simulator-feasible pass"),
        paper_safe_wording: String::from_str(paper_safe_wording),
        limitation: String::from_str(limitation),
        checked,
        missing_substrate,
    }
}

fn one(s: &str) -> (r: Vec<String>)
    ensures
        texts(r@) == seq![s@],
{
    let mut r: Vec<String> = Vec::new();
    r.push(String::from_str(s));
    assert(texts(r@) =~= seq![s@]);
    r
}

fn one_string(s: String) -> (r: Vec<String>)
    ensures
        texts(r@) == seq![s@],
{
    let ghost t = s@;
    let mut r: Vec<String> = Vec::new();
    r.push(s);
    assert(texts(r@) =~= seq![t]);
    r
}

fn bar2_source_text(dir: &Option<String>) -> (r: String)
    ensures
        r@ == bar2_source(match dir {
            Some(d) => Some(d@),
            None => None,
        }),
{
    match dir {
        Some(d) => d.clone(),
        None => String::from_str("none"),
    }
}

fn text(s: &str) -> (r: String)
    ensures
        r@ == s@,
{
    String::from_str(s)
}

/// The claim status a DAX probe gives CXL.mem/DAX traffic: this pass runs
/// no streaming workload, so visible devices show reachability only and
/// the claim stays blocked whatever the probe found.
pub open spec fn dax_claim_status(s: DaxProbeStatus) -> ClaimStatus {
    ClaimStatus::Blocked
}

/// The BAR2 repeatability directory the evidence came from, or "none".
pub open spec fn bar2_source(dir: Option<Seq<char>>) -> Seq<char> {
    match dir {
        Some(d) => d,
        None => "none"@,
    }
}

/// The ledger for BAR2 evidence (status, source directory, limitation) and
/// a DAX probe (status, device root, limitation, paths checked, whether no
/// device was found): twelve claims, in this order.
pub open spec fn spec_claim_ledger(
    bar2_status: ClaimStatus,
    bar2_dir: Option<Seq<char>>,
    bar2_limitation: Seq<char>,
    dax_status: DaxProbeStatus,
    dax_root: Seq<char>,
    dax_limitation: Seq<char>,
    dax_checked: Seq<Seq<char>>,
    dax_no_devices: bool,
) -> Seq<ClaimView> {
    seq![
        claim_view("QEMU Type-2 BAR2 command/replay boundary"@, bar2_status, bar2_source(bar2_dir), "CXLMemSim QEMU Type-2 BAR2 carried the SlugArch command stream when the supplied artifact has all runs passing."@, bar2_limitation, seq![bar2_source(bar2_dir)], None),
        claim_view("CXL.mem/DAX simulator traffic"@, dax_claim_status(dax_status), dax_root, "CXL.mem/DAX is reported only as a device-reachability result unless a streaming workload is present."@, dax_limitation, dax_checked, if dax_no_devices { Some("/dev/dax* device or guest DAX path"@) } else { None }),
        claim_view("CXL.cache coherence"@, ClaimStatus::Blocked, "none"@, "CXL.cache coherence is not measured by BAR2 command traffic or software replay metadata."@, "No live CXLMemSim GPU coherency statistic or CXL.cache transaction artifact is produced by this pass."@, seq!["/home/victoryang00/CXLMemSim/qemu_integration/guest_libcuda/cpu_gpu_hitm_benchmark.c"@], Some("live CXL.cache or coherency-stat workload"@)),
        claim_view("DMA"@, ClaimStatus::Blocked, "none"@, "DMA replay remains a benchmark slot."@, "No real DMA path is exercised or logged by this pass."@, seq!["QEMU Type-2 BAR2 SlugArch command path"@], Some("live DMA transaction source"@)),
        claim_view("ATS"@, ClaimStatus::Blocked, "none"@, "ATS replay remains a benchmark slot."@, "No simulator or kernel ATS event path is exposed by this pass."@, seq!["CXLMemSim Type-2 and Type-3 helper inventory"@], Some("ATS event source and translation log"@)),
        claim_view("Page migration"@, ClaimStatus::Blocked, "none"@, "Page migration replay remains a benchmark slot."@, "No migration event source is exercised or logged by this pass."@, seq!["/home/victoryang00/CXLMemSim/include/cxlcounter.h"@], Some("live migrate_in/migrate_out counter source"@)),
        claim_view("Switch ordering"@, ClaimStatus::Blocked, "none"@, "Switch ordering replay remains a benchmark slot."@, "No two-host or switch-lock workload is run by this pass."@, seq!["/home/victoryang00/CXLMemSim/microbench/cxl_switch_lock_bench.c"@], Some("two-host switch-ordering workload"@)),
        claim_view("Runtime overhead"@, ClaimStatus::PartiallyMeasured, bar2_source(bar2_dir), "Runtime overhead is partially measured for the QEMU Type-2 BAR2 command path only."@, "This is not a CXL link, hardware endpoint, or production continuous-overhead measurement."@, seq![bar2_source(bar2_dir)], Some("hardware endpoint timing and continuous workload timing"@)),
        claim_view("Compression"@, ClaimStatus::PartiallyMeasured, "software replay metadata report"@, "Compression is measured for software replay artifact modes only."@, "Validation, delta, and full payload accounting do not prove a hardware compression engine."@, seq!["crates/slugarch-host/src/replay.rs"@], Some("hardware compression datapath"@)),
        claim_view("Replay latency"@, ClaimStatus::PartiallyMeasured, "software replay metadata report"@, "Replay latency is measured as software replay validation only."@, "The pass times validation of replay artifacts, not hardware replay execution."@, seq!["CxlReplayArtifact::validate_equivalent"@], Some("hardware replay executor"@)),
        claim_view("Provenance"@, ClaimStatus::PartiallyMeasured, "software replay metadata report"@, "Provenance is measured for software labels on the GEMM trace only."@, "The pass does not prove fabric-wide endpoint or protection-domain provenance."@, seq!["gemm.load_a, gemm.load_b, gemm.compute, gemm.readback"@], Some("fabric-wide provenance labels"@)),
        claim_view("FPGA resource cost"@, ClaimStatus::Blocked, "targets/agilex-vr2/generated/slugcxl_hj_overhead.json"@, "FPGA resource cost is blocked for post-fit resources; model-side metadata estimates may be cited separately."@, "No Quartus synthesis, fit, timing, or resource report is produced by this simulator pass."@, seq!["targets/agilex-vr2/generated/slugcxl_hj_overhead.json"@], Some("post-fit Quartus resource report"@)),
    ]
}

fn clone_strings(v: &Vec<String>) -> (r: Vec<String>)
    ensures
        texts(r@) == texts(v@),
{
    let mut r: Vec<String> = Vec::new();
    let mut i: usize = 0;
    while i < v.len()
        invariant
            0 <= i <= v@.len(),
            texts(r@) == texts(v@.subrange(0, i as int)),
        decreases v@.len() - i,
    {
        let ghost before = r@;
        assert(texts(before).len() == before.len());
        assert(before.len() == i);
        r.push(v[i].clone());
        assert(texts(r@) =~= texts(v@.subrange(0, i as int + 1))) by {
            assert(texts(before) =~= texts(v@.subrange(0, i as int)));
            assert forall|k: int| 0 <= k < i + 1 implies #[trigger] texts(r@)[k] == texts(v@.subrange(0, i as int + 1))[k] by {
                if k < i {
                    assert(texts(r@)[k] == texts(before)[k]);
                }
            }
        }
        i = i + 1;
    }
    assert(v@.subrange(0, i as int) =~= v@);
    r
}

/// Visible DAX devices do not upgrade the CXL.mem/DAX claim: without a
/// streaming workload they show reachability only, so the claim is blocked
/// whatever the probe found, and names what is missing when no device was
/// found.
pub proof fn lemma_dax_claim_not_upgraded(
    bar2_status: ClaimStatus,
    bar2_dir: Option<Seq<char>>,
    bar2_limitation: Seq<char>,
    dax_status: DaxProbeStatus,
    dax_root: Seq<char>,
    dax_limitation: Seq<char>,
    dax_checked: Seq<Seq<char>>,
    dax_no_devices: bool,
)
    ensures
        ({
            let c = spec_claim_ledger(bar2_status, bar2_dir, bar2_limitation, dax_status, dax_root, dax_limitation, dax_checked, dax_no_devices)[1];
            &&& c.claim == "CXL.mem/DAX simulator traffic"@
            &&& c.status == ClaimStatus::Blocked
            &&& dax_no_devices ==> c.missing_substrate is Some
        }),
{
}

/// The BAR2 claim carries the evidence's own status, and it and the
/// runtime-overhead claim cite and check the repeatability directory the
/// evidence came from ("none" without one).
pub proof fn lemma_bar2_claim_follows_source(
    bar2_status: ClaimStatus,
    bar2_dir: Option<Seq<char>>,
    bar2_limitation: Seq<char>,
    dax_status: DaxProbeStatus,
    dax_root: Seq<char>,
    dax_limitation: Seq<char>,
    dax_checked: Seq<Seq<char>>,
    dax_no_devices: bool,
)
    ensures
        ({
            let ledger = spec_claim_ledger(bar2_status, bar2_dir, bar2_limitation, dax_status, dax_root, dax_limitation, dax_checked, dax_no_devices);
            let c = ledger[0];
            let runtime = ledger[7];
            &&& c.status == bar2_status
            &&& c.evidence_artifact == bar2_source(bar2_dir)
            &&& c.checked == seq![bar2_source(bar2_dir)]
            &&& c.limitation == bar2_limitation
            &&& runtime.claim == "Runtime overhead"@
            &&& runtime.evidence_artifact == bar2_source(bar2_dir)
            &&& runtime.checked == seq![bar2_source(bar2_dir)]
        }),
{
}

/// The claim ledger of a pass with BAR2 evidence `bar2` and DAX probe
/// `dax`.
pub fn claim_ledger(bar2: &Bar2EvidenceSummary, dax: &DaxProbe) -> (r: Vec<ClaimLedgerEntry>)
    ensures
        r@.map_values(|c: ClaimLedgerEntry| c@) == spec_claim_ledger(
            bar2.status,
            match bar2.source_dir {
                Some(d) => Some(d@),
                None => None,
            },
            bar2.limitation@,
            dax.status,
            dax.dev_root@,
            dax.limitation@,
            texts(dax.checked@),
            dax.devices@.len() == 0,
        ),
{
    let dax_status = ClaimStatus::Blocked;
    let mut v: Vec<ClaimLedgerEntry> = Vec::new();
    v.push(claim(
        "QEMU Type-2 BAR2 command/replay boundary",
        bar2.status,
        bar2_source_text(&bar2.source_dir),
        "CXLMemSim QEMU Type-2 BAR2 carried the SlugArch command stream when the supplied artifact has all runs passing.",
        bar2.limitation.as_str(),
        one_string(bar2_source_text(&bar2.source_dir)),
        None,
    ));
    v.push(claim(
        "CXL.mem/DAX simulator traffic",
        dax_status,
        dax.dev_root.clone(),
        "CXL.mem/DAX is reported only as a device-reachability result unless a streaming workload is present.",
        dax.limitation.as_str(),
        clone_strings(&dax.checked),
        if dax.devices.len() == 0 { Some(text("/dev/dax* device or guest DAX path")) } else { None },
    ));
    v.push(claim(
        "CXL.cache coherence",
        ClaimStatus::Blocked,
        text("none"),
        "CXL.cache coherence is not measured by BAR2 command traffic or software replay metadata.",
        "No live CXLMemSim GPU coherency statistic or CXL.cache transaction artifact is produced by this pass.",
        one("/home/victoryang00/CXLMemSim/qemu_integration/guest_libcuda/cpu_gpu_hitm_benchmark.c"),
        Some(text("live CXL.cache or coherency-stat workload")),
    ));
    v.push(claim(
        "DMA",
        ClaimStatus::Blocked,
        text("none"),
        "DMA replay remains a benchmark slot.",
        "No real DMA path is exercised or logged by this pass.",
        one("QEMU Type-2 BAR2 SlugArch command path"),
        Some(text("live DMA transaction source")),
    ));
    v.push(claim(
        "ATS",
        ClaimStatus::Blocked,
        text("none"),
        "ATS replay remains a benchmark slot.",
        "No simulator or kernel ATS event path is exposed by this pass.",
        one("CXLMemSim Type-2 and Type-3 helper inventory"),
        Some(text("ATS event source and translation log")),
    ));
    v.push(claim(
        "Page migration",
        ClaimStatus::Blocked,
        text("none"),
        "Page migration replay remains a benchmark slot.",
        "No migration event source is exercised or logged by this pass.",
        one("/home/victoryang00/CXLMemSim/include/cxlcounter.h"),
        Some(text("live migrate_in/migrate_out counter source")),
    ));
    v.push(claim(
        "Switch ordering",
        ClaimStatus::Blocked,
        text("none"),
        "Switch ordering replay remains a benchmark slot.",
        "No two-host or switch-lock workload is run by this pass.",
        one("/home/victoryang00/CXLMemSim/microbench/cxl_switch_lock_bench.c"),
        Some(text("two-host switch-ordering workload")),
    ));
    v.push(claim(
        "Runtime overhead",
        ClaimStatus::PartiallyMeasured,
        bar2_source_text(&bar2.source_dir),
        "Runtime overhead is partially measured for the QEMU Type-2 BAR2 command path only.",
        "This is not a CXL link, hardware endpoint, or production continuous-overhead measurement.",
        one_string(bar2_source_text(&bar2.source_dir)),
        Some(text("hardware endpoint timing and continuous workload timing")),
    ));
    v.push(claim(
        "Compression",
        ClaimStatus::PartiallyMeasured,
        text("software replay metadata report"),
        "Compression is measured for software replay artifact modes only.",
        "Validation, delta, and full payload accounting do not prove a hardware compression engine.",
        one("crates/slugarch-host/src/replay.rs"),
        Some(text("hardware compression datapath")),
    ));
    v.push(claim(
        "Replay latency",
        ClaimStatus::PartiallyMeasured,
        text("software replay metadata report"),
        "Replay latency is measured as software replay validation only.",
        "The pass times validation of replay artifacts, not hardware replay execution.",
        one("CxlReplayArtifact::validate_equivalent"),
        Some(text("hardware replay executor")),
    ));
    v.push(claim(
        "Provenance",
        ClaimStatus::PartiallyMeasured,
        text("software replay metadata report"),
        "Provenance is measured for software labels on the GEMM trace only.",
        "The pass does not prove fabric-wide endpoint or protection-domain provenance.",
        one("gemm.load_a, gemm.load_b, gemm.compute, gemm.readback"),
        Some(text("fabric-wide provenance labels")),
    ));
    v.push(claim(
        "FPGA resource cost",
        ClaimStatus::Blocked,
        text("targets/agilex-vr2/generated/slugcxl_hj_overhead.json"),
        "FPGA resource cost is blocked for post-fit resources; model-side metadata estimates may be cited separately.",
        "No Quartus synthesis, fit, timing, or resource report is produced by this simulator pass.",
        one("targets/agilex-vr2/generated/slugcxl_hj_overhead.json"),
        Some(text("post-fit Quartus resource report")),
    ));
    proof {
        reveal_strlit("none");
    }
    assert(v@.map_values(|c: ClaimLedgerEntry| c@) =~= spec_claim_ledger(
        bar2.status,
        match bar2.source_dir {
            Some(d) => Some(d@),
            None => None,
        },
        bar2.limitation@,
        dax.status,
        dax.dev_root@,
        dax.limitation@,
        texts(dax.checked@),
        dax.devices@.len() == 0,
    ));
    v
}

/// Each string comes before or equals the next.
pub open spec fn sorted_texts(s: Seq<Seq<char>>) -> bool {
    forall|i: int| 0 <= i < s.len() - 1 ==> lex_le(#[trigger] s[i], s[i + 1])
}

/// Sorts `v` in the order of `String`.
fn sort_strings(v: Vec<String>) -> (r: Vec<String>)
    ensures
        sorted_texts(texts(r@)),
        texts(r@).to_multiset() == texts(v@).to_multiset(),
{
    let mut out: Vec<String> = Vec::new();
    let mut i: usize = 0;
    let ghost src = texts(v@);
    let mut rest = v;
    proof {
        assert(texts(out@) =~= Seq::<Seq<char>>::empty());
        assert(src.subrange(0, 0) =~= Seq::<Seq<char>>::empty());
    }
    while i < rest.len()
        invariant
            0 <= i <= rest@.len(),
            src == texts(rest@),
            sorted_texts(texts(out@)),
            texts(out@).to_multiset() == src.subrange(0, i as int).to_multiset(),
        decreases rest@.len() - i,
    {
        let x = rest[i].clone();
        // The first position whose string comes after x.
        let mut p: usize = 0;
        while p < out.len() && str_le(out[p].as_str(), x.as_str())
            invariant
                0 <= p <= out@.len(),
                forall|j: int| 0 <= j < p ==> lex_le(#[trigger] texts(out@)[j], x@),
            decreases out@.len() - p,
        {
            p = p + 1;
        }
        let ghost before = texts(out@);
        proof {
            if p < out@.len() {
                lemma_lex_total(before[p as int], x@);
            }
        }
        out.insert(p, x);
        proof {
            assert(texts(out@) =~= before.insert(p as int, x@));
            vstd::seq_lib::to_multiset_insert(before, p as int, x@);
            assert(src.subrange(0, i as int + 1) =~= src.subrange(0, i as int).push(src[i as int]));
            vstd::seq_lib::to_multiset_build(src.subrange(0, i as int), src[i as int]);
            assert forall|j: int| 0 <= j < texts(out@).len() - 1 implies lex_le(#[trigger] texts(out@)[j], texts(out@)[j + 1]) by {
                if j + 1 < p {
                    assert(texts(out@)[j] == before[j] && texts(out@)[j + 1] == before[j + 1]);
                } else if j + 1 == p {
                    assert(texts(out@)[j] == before[j]);
                } else if j == p {
                    assert(texts(out@)[j + 1] == before[j]);
                } else {
                    assert(texts(out@)[j] == before[j - 1] && texts(out@)[j + 1] == before[j]);
                }
            }
        }
        i = i + 1;
    }
    assert(src.subrange(0, i as int) =~= src);
    out
}

/// The paths under `root` of the entries whose name starts with "dax".
pub open spec fn dax_paths(root: Seq<char>, names: Seq<Seq<char>>) -> Seq<Seq<char>>
    decreases names.len(),
{
    if names.len() == 0 {
        Seq::empty()
    } else {
        let r = dax_paths(root, names.drop_last());
        let n = names.last();
        if n.len() >= 3 && n.subrange(0, 3) == "dax"@ {
            r.push(root + "/"@ + n)
        } else {
            r
        }
    }
}

/// `p` is the probe of device root `root` holding entries `names`: the
/// "dax" entries as paths under the root, sorted; measured when there is
/// one, with a limitation that says what was (not) seen.
pub open spec fn is_dax_probe(p: DaxProbe, root: Seq<char>, names: Seq<Seq<char>>) -> bool {
    let found = dax_paths(root, names);
    &&& p.dev_root@ == root
    &&& sorted_texts(texts(p.devices@))
    &&& texts(p.devices@).to_multiset() == found.to_multiset()
    &&& texts(p.checked@) == seq![root + "/dax*"@]
    &&& p.status == if found.len() == 0 { DaxProbeStatus::Blocked } else { DaxProbeStatus::Measured }
    &&& p.limitation@ == if found.len() == 0 {
        "No /dev/dax* device was visible under "@ + root
    } else {
        "DAX devices were visible, but this probe does not run a streaming workload by itself: "@ + joined(texts(p.devices@), ", "@)
    }
}

/// Probes device root `dev_root`, whose directory holds the entries named
/// `entry_names`, for DAX devices.
pub fn dax_probe(dev_root: String, entry_names: &Vec<String>) -> (p: DaxProbe)
    ensures
        is_dax_probe(p, dev_root@, texts(entry_names@)),
{
    let mut found: Vec<String> = Vec::new();
    let mut i: usize = 0;
    while i < entry_names.len()
        invariant
            0 <= i <= entry_names@.len(),
            texts(found@) == dax_paths(dev_root@, texts(entry_names@.subrange(0, i as int))),
        decreases entry_names@.len() - i,
    {
        let ghost before = found@;
        assert(texts(entry_names@.subrange(0, i as int + 1)).drop_last() =~= texts(entry_names@.subrange(0, i as int)));
        assert(texts(entry_names@.subrange(0, i as int + 1)).last() == entry_names@[i as int]@);
        if starts_with(entry_names[i].as_str(), "dax") {
            let mut path = dev_root.clone();
            path.append("/");
            path.append(entry_names[i].as_str());
            found.push(path);
            assert(texts(found@) =~= texts(before).push(dev_root@ + "/"@ + entry_names@[i as int]@));
        }
        proof {
            reveal_strlit("dax");
        }
        i = i + 1;
    }
    assert(entry_names@.subrange(0, i as int) =~= entry_names@);
    let mut checked: Vec<String> = Vec::new();
    let mut pattern = dev_root.clone();
    pattern.append("/dax*");
    checked.push(pattern);
    assert(texts(checked@) =~= seq![dev_root@ + "/dax*"@]);
    let ghost found_view = texts(found@);
    let devices = sort_strings(found);
    proof {
        vstd::seq_lib::to_multiset_len(texts(devices@));
        vstd::seq_lib::to_multiset_len(found_view);
    }
    let status = if devices.len() == 0 {
        DaxProbeStatus::Blocked
    } else {
        DaxProbeStatus::Measured
    };
    let limitation = if devices.len() == 0 {
        let mut l = String::from_str("No /dev/dax* device was visible under ");
        l.append(dev_root.as_str());
        l
    } else {
        let mut l = String::from_str("DAX devices were visible, but this probe does not run a streaming workload by itself: ");
        let j = join(&devices, ", ");
        l.append(j.as_str());
        l
    };
    DaxProbe { status, dev_root, devices, checked, limitation }
}

/// What one repeatability run left: its summary's status and counters,
/// and the guest's elapsed time when the guest summary has one (`None`
/// for what is missing).
#[derive(Debug, Clone, PartialEq, Eq)]
pub struct Bar2RunEvidence {
    pub status: Option<String>,
    pub request_count: Option<u64>,
    pub response_count: Option<u64>,
    pub tag_mismatches: Option<u64>,
    pub dispatch_failures: Option<u64>,
    pub guest_elapsed_ms: Option<u64>,
}

/// A counter of a run, 0 when missing.
pub open spec fn or_zero(x: Option<u64>) -> int {
    match x {
        Some(n) => n as int,
        None => 0,
    }
}

/// The run's summary says it passed.
pub open spec fn run_passed(r: Bar2RunEvidence) -> bool {
    r.status matches Some(s) && s@ == "pass"@
}

/// Sum over `runs` of the counter `field` (0 requests, 1 responses, 2 tag
/// mismatches, 3 dispatch failures).
pub open spec fn run_total(runs: Seq<Bar2RunEvidence>, field: int) -> int
    decreases runs.len(),
{
    if runs.len() == 0 {
        0
    } else {
        let r = runs.last();
        run_total(runs.drop_last(), field) + or_zero(
            if field == 0 {
                r.request_count
            } else if field == 1 {
                r.response_count
            } else if field == 2 {
                r.tag_mismatches
            } else {
                r.dispatch_failures
            },
        )
    }
}

/// Number of runs that passed.
pub open spec fn passed_runs(runs: Seq<Bar2RunEvidence>) -> int
    decreases runs.len(),
{
    if runs.len() == 0 {
        0
    } else {
        passed_runs(runs.drop_last()) + if run_passed(runs.last()) {
            1int
        } else {
            0int
        }
    }
}

/// The guest elapsed times the runs have, in order.
pub open spec fn elapsed_times(runs: Seq<Bar2RunEvidence>) -> Seq<u64>
    decreases runs.len(),
{
    if runs.len() == 0 {
        Seq::empty()
    } else {
        match runs.last().guest_elapsed_ms {
            Some(ms) => elapsed_times(runs.drop_last()).push(ms),
            None => elapsed_times(runs.drop_last()),
        }
    }
}

/// The limitation of BAR2 evidence.
pub open spec fn bar2_limitation() -> Seq<char> {
    "This is Type-2 BAR2 command-path evidence, not CXL link latency or hardware endpoint latency"@
}

/// `s` summarizes the runs found under `dir` (none when no directory was
/// given): measured when there is a run and every run passed, with the
/// counters summed.
pub open spec fn is_bar2_summary(s: Bar2EvidenceSummary, dir: Option<Seq<char>>, runs: Seq<Bar2RunEvidence>) -> bool {
    match dir {
        None => {
            &&& s.status == ClaimStatus::Blocked
            &&& s.runs == 0 && s.pass_runs == 0
            &&& s.request_count == 0 && s.response_count == 0 && s.tag_mismatches == 0 && s.dispatch_failures == 0
            &&& s.guest_elapsed_ms@ == Seq::<u64>::empty()
            &&& s.source_dir is None
            &&& s.limitation@ == "No QEMU Type-2 repeatability artifact directory was supplied"@
        },
        Some(d) => {
            &&& s.status == if runs.len() > 0 && runs.len() == passed_runs(runs) {
                ClaimStatus::Measured
            } else {
                ClaimStatus::Blocked
            }
            &&& s.runs == runs.len()
            &&& s.pass_runs == passed_runs(runs)
            &&& s.request_count == run_total(runs, 0)
            &&& s.response_count == run_total(runs, 1)
            &&& s.tag_mismatches == run_total(runs, 2)
            &&& s.dispatch_failures == run_total(runs, 3)
            &&& s.guest_elapsed_ms@ == elapsed_times(runs)
            &&& s.source_dir matches Some(sd) && sd@ == d
            &&& s.limitation@ == bar2_limitation()
        },
    }
}

pub(crate) proof fn lemma_run_totals_prefix(runs: Seq<Bar2RunEvidence>, k: int, field: int)
    requires
        0 <= k <= runs.len(),
    ensures
        0 <= run_total(runs.subrange(0, k), field) <= run_total(runs, field),
        0 <= passed_runs(runs.subrange(0, k)) <= k,
    decreases runs.len() - k,
{
    lemma_run_totals_nonneg(runs.subrange(0, k), field);
    if k < runs.len() {
        lemma_run_totals_prefix(runs, k + 1, field);
        assert(runs.subrange(0, k + 1).drop_last() =~= runs.subrange(0, k));
    } else {
        assert(runs.subrange(0, k) =~= runs);
        lemma_run_totals_nonneg(runs, field);
    }
}

proof fn lemma_run_totals_nonneg(runs: Seq<Bar2RunEvidence>, field: int)
    ensures
        0 <= run_total(runs, field),
        0 <= passed_runs(runs) <= runs.len(),
    decreases runs.len(),
{
    if runs.len() > 0 {
        lemma_run_totals_nonneg(runs.drop_last(), field);
    }
}

/// The BAR2 repeatability evidence of the runs found under `source_dir`
/// (`None` when no directory was given).
pub fn summarize_bar2_runs(source_dir: Option<String>, runs: &Vec<Bar2RunEvidence>) -> (s: Bar2EvidenceSummary)
    requires
        run_total(runs@, 0) <= u64::MAX,
        run_total(runs@, 1) <= u64::MAX,
        run_total(runs@, 2) <= u64::MAX,
        run_total(runs@, 3) <= u64::MAX,
    ensures
        is_bar2_summary(s, match source_dir {
            Some(d) => Some(d@),
            None => None,
        }, runs@),
{
    let dir = match source_dir {
        None => {
            let s = Bar2EvidenceSummary {
                status: ClaimStatus::Blocked,
                runs: 0,
                pass_runs: 0,
                request_count: 0,
                response_count: 0,
                tag_mismatches: 0,
                dispatch_failures: 0,
                guest_elapsed_ms: Vec::new(),
                source_dir: None,
                limitation: String::from_str("No QEMU Type-2 repeatability artifact directory was supplied"),
            };
            assert(s.guest_elapsed_ms@ =~= Seq::<u64>::empty());
            return s;
        },
        Some(d) => d,
    };
    let pass = String::from_str("pass");
    let mut pass_runs: usize = 0;
    let mut request_count: u64 = 0;
    let mut response_count: u64 = 0;
    let mut tag_mismatches: u64 = 0;
    let mut dispatch_failures: u64 = 0;
    let mut guest_elapsed_ms: Vec<u64> = Vec::new();
    let mut i: usize = 0;
    while i < runs.len()
        invariant
            0 <= i <= runs@.len(),
            pass@ == "pass"@,
            run_total(runs@, 0) <= u64::MAX,
            run_total(runs@, 1) <= u64::MAX,
            run_total(runs@, 2) <= u64::MAX,
            run_total(runs@, 3) <= u64::MAX,
            pass_runs == passed_runs(runs@.subrange(0, i as int)),
            request_count == run_total(runs@.subrange(0, i as int), 0),
            response_count == run_total(runs@.subrange(0, i as int), 1),
            tag_mismatches == run_total(runs@.subrange(0, i as int), 2),
            dispatch_failures == run_total(runs@.subrange(0, i as int), 3),
            guest_elapsed_ms@ == elapsed_times(runs@.subrange(0, i as int)),
        decreases runs@.len() - i,
    {
        let r = &runs[i];
        proof {
            assert(runs@.subrange(0, i as int + 1).drop_last() =~= runs@.subrange(0, i as int));
            assert(runs@.subrange(0, i as int + 1).last() == *r);
            lemma_run_totals_prefix(runs@, i as int + 1, 0);
            lemma_run_totals_prefix(runs@, i as int + 1, 1);
            lemma_run_totals_prefix(runs@, i as int + 1, 2);
            lemma_run_totals_prefix(runs@, i as int + 1, 3);
        }
        let passed = match &r.status {
            Some(st) => *st == pass,
            None => false,
        };
        if passed {
            pass_runs = pass_runs + 1;
        }
        request_count = request_count + match r.request_count {
            Some(n) => n,
            None => 0,
        };
        response_count = response_count + match r.response_count {
            Some(n) => n,
            None => 0,
        };
        tag_mismatches = tag_mismatches + match r.tag_mismatches {
            Some(n) => n,
            None => 0,
        };
        dispatch_failures = dispatch_failures + match r.dispatch_failures {
            Some(n) => n,
            None => 0,
        };
        match r.guest_elapsed_ms {
            Some(ms) => guest_elapsed_ms.push(ms),
            None => {},
        }
        i = i + 1;
    }
    assert(runs@.subrange(0, i as int) =~= runs@);
    let runs_n = runs.len();
    Bar2EvidenceSummary {
        status: if runs_n > 0 && runs_n == pass_runs {
            ClaimStatus::Measured
        } else {
            ClaimStatus::Blocked
        },
        runs: runs_n,
        pass_runs,
        request_count,
        response_count,
        tag_mismatches,
        dispatch_failures,
        guest_elapsed_ms,
        source_dir: Some(dir),
        limitation: String::from_str("This is Type-2 BAR2 command-path evidence, not CXL link latency or hardware endpoint latency"),
    }
}

} // verus!


