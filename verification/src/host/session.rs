//! A GEMM run on the CXL endpoint, as a state machine. The host runtime
//! sends each FLIT the session hands it, ticks the endpoint, and hands back
//! what each tick produced; the session decides what comes next: the next
//! request, another tick, or the end of the run with its result or error.

use vstd::prelude::*;
use vstd::string::*;

use crate::wire::decode::{decode, decodes_to, lemma_decodes_to_unique, spec_decode_error};
use crate::wire::encode::{encode, spec_encode};
use crate::wire::flit::FlitBytes;
use crate::wire::msg::{CxlMsg, S2MNDROp};
use super::dispatch::{build_gemm_dispatch_stream, is_dispatch_msg, STREAM_LEN};
use super::error::HostError;
use super::job::{cell, GemmJob, GemmResult};
use super::replay::{spec_record, CxlDirection, CxlRecordPolicy, CxlTraceRecorder, RecordView};
use super::result::{acc_value, all_mem_data, decode_results, is_count_error, is_mem_data, is_reject_error, resp_data};
use super::text::{decimal, push_decimal};

verus! {

/// Ticks to wait for a response FLIT before giving up.
pub const FLIT_TIMEOUT_TICKS: u64 = 64;

/// What the host runtime does next.
pub enum HostAction {
    /// Send this FLIT to the endpoint, then tick it.
    Send(FlitBytes),
    /// Tick the endpoint again.
    Tick,
    /// The run is over.
    Done(Result<GemmResult, HostError>),
}

/// The message a FLIT decodes to.
pub open spec fn decoded(f: Seq<u8>) -> CxlMsg {
    choose|m: CxlMsg| decodes_to(f, m)
}

/// A recorder's state.
pub struct RecorderView {
    pub policy: CxlRecordPolicy,
    pub records: Seq<RecordView>,
    pub last_response_tag: Option<u16>,
}

/// A session's state.
pub struct SessionView {
    pub job: GemmJob,
    pub first_tag: u16,
    /// The request waiting for its response.
    pub index: int,
    /// Ticks spent waiting for it.
    pub waited: u64,
    pub flits_sent: u64,
    pub flits_received: u64,
    /// The data responses so far.
    pub reads: Seq<CxlMsg>,
    pub start_cycles: u64,
    pub last_cycles: u64,
    pub recorder: Option<RecorderView>,
    pub finished: bool,
}

/// The host side of the endpoint: the tag counter.
pub struct HostCore {
    next_tag: u16,
}

/// A GEMM run in progress.
pub struct GemmSession {
    job: Ghost<GemmJob>,
    first_tag: u16,
    stream: Vec<CxlMsg>,
    index: usize,
    waited: u64,
    flits_sent: u64,
    flits_received: u64,
    reads: Vec<CxlMsg>,
    start_cycles: u64,
    last_cycles: u64,
    recorder: Option<CxlTraceRecorder>,
    finished: bool,
}

/// The `i`-th request of the run of `job` tagged from `first_tag`.
pub open spec fn request_of(job: GemmJob, first_tag: u16, i: int) -> CxlMsg {
    choose|m: CxlMsg| is_dispatch_msg(m, job, first_tag, i)
}

/// The recorder after recording FLIT `msg` of request `i` in `direction`.
pub open spec fn recorded(r: Option<RecorderView>, i: int, direction: CxlDirection, msg: CxlMsg) -> Option<RecorderView> {
    match r {
        None => None,
        Some(v) => Some(RecorderView {
            policy: v.policy,
            records: v.records.push(spec_record(v.policy, v.last_response_tag, v.records.len() as u64, i as usize, direction, msg)),
            last_response_tag: match direction {
                CxlDirection::HostToDevice => v.last_response_tag,
                CxlDirection::DeviceToHost => Some(msg.tag()),
            },
        }),
    }
}

impl GemmSession {
    /// The session's state.
    pub closed spec fn view(&self) -> SessionView {
        SessionView {
            job: self.job@,
            first_tag: self.first_tag,
            index: self.index as int,
            waited: self.waited,
            flits_sent: self.flits_sent,
            flits_received: self.flits_received,
            reads: self.reads@,
            start_cycles: self.start_cycles,
            last_cycles: self.last_cycles,
            recorder: match self.recorder {
                Some(r) => Some(RecorderView { policy: r.policy(), records: r.records(), last_response_tag: r.last_response_tag() }),
                None => None,
            },
            finished: self.finished,
        }
    }

    /// The session is well formed: it holds the dispatch stream of its
    /// job, and, while running, its counters agree with the request it
    /// waits on.
    pub closed spec fn wf(&self) -> bool {
        &&& self.stream@.len() == STREAM_LEN
        &&& forall|i: int| 0 <= i < STREAM_LEN ==> is_dispatch_msg(#[trigger] self.stream@[i], self.job@, self.first_tag, i)
        &&& self.index < STREAM_LEN
        &&& self.flits_sent <= STREAM_LEN && self.flits_received <= STREAM_LEN
        &&& (self.recorder matches Some(r) ==> r.records().len() == self.flits_sent + self.flits_received)
        &&& !self.finished ==> self.flits_sent == self.index + 1 && self.flits_received == self.index
            && self.waited <= FLIT_TIMEOUT_TICKS && self.reads@.len() <= self.index
    }
}

proof fn lemma_dispatch_unique(m1: CxlMsg, m2: CxlMsg, job: GemmJob, first_tag: u16, i: int)
    requires
        is_dispatch_msg(m1, job, first_tag, i),
        is_dispatch_msg(m2, job, first_tag, i),
    ensures
        m1 == m2,
{
    match (m1, m2) {
        (CxlMsg::M2SRwD { data: d1, .. }, CxlMsg::M2SRwD { data: d2, .. }) => {
            assert(d1 =~= d2);
        },
        _ => {},
    }
}

/// The session is done with `t` after a response `m` that refused the
/// run; `e` is the error for it.
pub open spec fn is_response_error(e: HostError, m: CxlMsg, index: int) -> bool {
    match m {
        CxlMsg::S2MNDR { tag, opcode: S2MNDROp::DispatchFailed } => e matches HostError::DispatchFailed { tag: t, reason }
            && t == tag && reason@ == "endpoint rejected dispatch #"@ + decimal(index as nat),
        CxlMsg::S2MNDR { tag, opcode } => e matches HostError::DispatchFailed { tag: t, reason } && t == tag
            && reason@ == "unexpected NDR opcode "@ + opcode.name()@,
        _ => e matches HostError::DispatchFailed { tag, reason } && tag == m.tag()
            && reason@ == "unexpected response class "@ + m.class().name()@,
    }
}

/// A response the run goes on from: a completion or a data response.
pub open spec fn response_continues(m: CxlMsg) -> bool {
    m matches CxlMsg::S2MNDR { opcode: S2MNDROp::Cmp, .. } || m is S2MDRS
}

/// The cycles between the start and the last tick (0 if the counter went
/// back).
pub open spec fn elapsed(last: u64, start: u64) -> u64 {
    if last >= start {
        (last - start) as u64
    } else {
        0
    }
}

/// How the run ends once every request got its response: the result
/// decoded from the read responses, or the error decoding them.
pub open spec fn finish_action(reads: Seq<CxlMsg>, cycles: u64, sent: u64, received: u64, a: HostAction) -> bool {
    if reads.len() != 16 {
        a matches HostAction::Done(Err(HostError::DispatchFailed { tag, reason })) && tag == 0
            && reason@ == "expected 16 read responses, got "@ + decimal(reads.len())
    } else if all_mem_data(reads, 16) {
        a matches HostAction::Done(Ok(r)) && r.cycles == cycles && r.flits_sent == sent && r.flits_received == received
            && forall|i: int| 0 <= i < 16 ==> cell(r.c, i / 4, i % 4) == acc_value(resp_data(#[trigger] reads[i]))
    } else {
        exists|k: int|
            0 <= k < 16 && all_mem_data(reads, k) && !is_mem_data(reads[k]) && (a matches HostAction::Done(Err(e))
                && is_reject_error(e, reads[k]))
    }
}

/// The state `t` and action `a` after the response `m` to request
/// `s.index` arrived (at tick `cycles`): the response is recorded; a wrong
/// tag or a refusing response ends the run with its error; otherwise the
/// next request is sent, or, after the last, the run ends with its result.
pub open spec fn response_step(s: SessionView, cycles: u64, m: CxlMsg, t: SessionView, a: HostAction) -> bool {
    let rec = recorded(s.recorder, s.index, CxlDirection::DeviceToHost, m);
    let req = request_of(s.job, s.first_tag, s.index);
    let received = (s.flits_received + 1) as u64;
    if m.tag() != req.tag() {
        &&& t.finished
        &&& t.recorder == rec
        &&& a matches HostAction::Done(Err(HostError::UnexpectedTag { got, outstanding })) && got == m.tag()
            && outstanding@ == seq![req.tag()]
    } else if !response_continues(m) {
        &&& t.finished
        &&& t.recorder == rec
        &&& a matches HostAction::Done(Err(e)) && is_response_error(e, m, s.index)
    } else {
        let reads = if m is S2MDRS { s.reads.push(m) } else { s.reads };
        if s.index + 1 < STREAM_LEN {
            let next = request_of(s.job, s.first_tag, s.index + 1);
            &&& a matches HostAction::Send(f) && f@ == spec_encode(next)
            &&& t == SessionView {
                index: s.index + 1,
                waited: 0,
                flits_sent: (s.flits_sent + 1) as u64,
                flits_received: received,
                reads,
                last_cycles: cycles,
                recorder: recorded(rec, s.index + 1, CxlDirection::HostToDevice, next),
                ..s
            }
        } else {
            &&& t.finished
            &&& t.recorder == rec
            &&& finish_action(reads, elapsed(cycles, s.start_cycles), s.flits_sent, received, a)
        }
    }
}

/// The state `t` and action `a` after a tick at `cycles` that produced
/// `flit` (None when no FLIT came): without a FLIT the session waits
/// another tick, up to the timeout; a FLIT that does not decode ends the
/// run; a decoded one is handled as a response.
pub open spec fn tick_step(s: SessionView, cycles: u64, flit: Option<Seq<u8>>, t: SessionView, a: HostAction) -> bool {
    &&& t.job == s.job
    &&& t.first_tag == s.first_tag
    &&& t.start_cycles == s.start_cycles
    &&& t.last_cycles == cycles
    &&& match flit {
        None => if s.waited + 1 > FLIT_TIMEOUT_TICKS {
            &&& t.finished
            &&& t.recorder == s.recorder
            &&& a == HostAction::Done(Err(HostError::FlitTimeout { ticks: (s.waited + 1) as u64 }))
        } else {
            &&& a is Tick
            &&& t == SessionView { waited: (s.waited + 1) as u64, last_cycles: cycles, ..s }
        },
        Some(f) => match spec_decode_error(f) {
            Some(e) => t.finished && t.recorder == s.recorder && a == HostAction::Done(Err(HostError::WireDecode(e))),
            None => response_step(s, cycles, decoded(f), t, a),
        },
    }
}

impl HostCore {
    /// The tag the next run starts from.
    pub closed spec fn next_tag(&self) -> u16 {
        self.next_tag
    }

    /// A host whose first run is tagged from 0.
    pub fn new() -> (r: HostCore)
        ensures
            r.next_tag() == 0,
    {
        HostCore { next_tag: 0 }
    }

    /// Starts a GEMM run of `job` at cycle `start_cycles`, recording it
    /// under `policy` when one is given: the run is tagged from the next
    /// tag, which moves on by 49 (wrapping), and its first request is sent.
    pub fn start_gemm(&mut self, job: &GemmJob, start_cycles: u64, policy: Option<CxlRecordPolicy>) -> (r: (GemmSession, HostAction))
        ensures
            final(self).next_tag() == ((old(self).next_tag() + STREAM_LEN) % 0x1_0000) as u16,
            r.0.wf(),
            r.0@ == (SessionView {
                job: *job,
                first_tag: old(self).next_tag(),
                index: 0,
                waited: 0,
                flits_sent: 1,
                flits_received: 0,
                reads: Seq::empty(),
                start_cycles,
                last_cycles: start_cycles,
                recorder: recorded(match policy {
                    Some(p) => Some(RecorderView { policy: p, records: Seq::empty(), last_response_tag: None }),
                    None => None,
                }, 0, CxlDirection::HostToDevice, request_of(*job, old(self).next_tag(), 0)),
                finished: false,
            }),
            r.1 matches HostAction::Send(f) && f@ == spec_encode(request_of(*job, old(self).next_tag(), 0)),
    {
        let first_tag = self.next_tag;
        self.next_tag = self.next_tag.wrapping_add(49);
        let stream = build_gemm_dispatch_stream(job, first_tag);
        proof {
            lemma_dispatch_unique(stream@[0], request_of(*job, first_tag, 0), *job, first_tag, 0);
        }
        let recorder = match policy {
            Some(p) => {
                let mut r = CxlTraceRecorder::new(p);
                r.record_gemm_msg(0, CxlDirection::HostToDevice, &stream[0]);
                Some(r)
            },
            None => None,
        };
        let flit = encode(&stream[0]);
        let session = GemmSession {
            job: Ghost(*job),
            first_tag,
            stream,
            index: 0,
            waited: 0,
            flits_sent: 1,
            flits_received: 0,
            reads: Vec::new(),
            start_cycles,
            last_cycles: start_cycles,
            recorder,
            finished: false,
        };
        assert(session@.reads =~= Seq::<CxlMsg>::empty());
        (session, HostAction::Send(flit))
    }
}

impl GemmSession {
    /// Hands the session what a tick at `cycles` produced (`None` when no
    /// FLIT came), and returns what to do next.
    pub fn on_tick(&mut self, cycles: u64, flit: Option<FlitBytes>) -> (a: HostAction)
        requires
            old(self).wf(),
            !old(self)@.finished,
        ensures
            final(self).wf(),
            tick_step(old(self)@, cycles, match flit {
                Some(f) => Some(f@),
                None => None,
            }, final(self)@, a),
            a is Done <==> final(self)@.finished,
            a matches HostAction::Done(Ok(r)) ==> r.flits_sent == STREAM_LEN && r.flits_received == STREAM_LEN,
            final(self)@.recorder matches Some(rv) ==> rv.records.len() == final(self)@.flits_sent + final(self)@.flits_received,
    {
        let ghost s = self@;
        self.last_cycles = cycles;
        let f = match flit {
            None => {
                self.waited = self.waited + 1;
                if self.waited > FLIT_TIMEOUT_TICKS {
                    self.finished = true;
                    return HostAction::Done(Err(HostError::FlitTimeout { ticks: self.waited }));
                }
                assert(self@ == SessionView { waited: (s.waited + 1) as u64, last_cycles: cycles, ..s });
                return HostAction::Tick;
            },
            Some(f) => f,
        };
        let m = match decode(&f) {
            Ok(m) => m,
            Err(e) => {
                self.finished = true;
                return HostAction::Done(Err(HostError::WireDecode(e)));
            },
        };
        proof {
            assert(decodes_to(f@, decoded(f@)));
            lemma_decodes_to_unique(f@, m, decoded(f@));
            lemma_dispatch_unique(self.stream@[self.index as int], request_of(s.job, s.first_tag, s.index), s.job, s.first_tag, s.index);
        }
        self.flits_received = self.flits_received + 1;
        let idx = self.index;
        let mut rec: Option<CxlTraceRecorder> = None;
        std::mem::swap(&mut rec, &mut self.recorder);
        let rec = match rec {
            Some(mut r) => {
                r.record_gemm_msg(idx, CxlDirection::DeviceToHost, &m);
                Some(r)
            },
            None => None,
        };
        self.recorder = rec;
        let expected = self.stream[idx].tag();
        if m.tag() != expected {
            self.finished = true;
            let outstanding = vec![expected];
            assert(outstanding@ =~= seq![expected]);
            return HostAction::Done(Err(HostError::UnexpectedTag { got: m.tag(), outstanding }));
        }
        match &m {
            CxlMsg::S2MNDR { opcode: S2MNDROp::Cmp, .. } => {},
            CxlMsg::S2MNDR { opcode: S2MNDROp::DispatchFailed, tag } => {
                self.finished = true;
                let mut reason = String::from_str("endpoint rejected dispatch #");
                push_decimal(&mut reason, idx as u64);
                return HostAction::Done(Err(HostError::DispatchFailed { tag: *tag, reason }));
            },
            CxlMsg::S2MNDR { opcode, tag } => {
                self.finished = true;
                let mut reason = String::from_str("unexpected NDR opcode ");
                reason.append(opcode.name());
                return HostAction::Done(Err(HostError::DispatchFailed { tag: *tag, reason }));
            },
            CxlMsg::S2MDRS { tag, opcode, data } => {
                self.reads.push(CxlMsg::S2MDRS { tag: *tag, opcode: *opcode, data: *data });
            },
            other => {
                self.finished = true;
                let mut reason = String::from_str("unexpected response class ");
                reason.append(other.class().name());
                return HostAction::Done(Err(HostError::DispatchFailed { tag: other.tag(), reason }));
            },
        }
        if idx + 1 < STREAM_LEN {
            let next_index = idx + 1;
            proof {
                lemma_dispatch_unique(self.stream@[next_index as int], request_of(s.job, s.first_tag, next_index as int), s.job, s.first_tag, next_index as int);
            }
            self.index = next_index;
            self.waited = 0;
            self.flits_sent = self.flits_sent + 1;
            let mut rec: Option<CxlTraceRecorder> = None;
            std::mem::swap(&mut rec, &mut self.recorder);
            let rec = match rec {
                Some(mut r) => {
                    r.record_gemm_msg(next_index, CxlDirection::HostToDevice, &self.stream[next_index]);
                    Some(r)
                },
                None => None,
            };
            self.recorder = rec;
            let out = encode(&self.stream[next_index]);
            return HostAction::Send(out);
        }
        self.finished = true;
        if self.reads.len() != 16 {
            let mut reason = String::from_str("expected 16 read responses, got ");
            push_decimal(&mut reason, self.reads.len() as u64);
            return HostAction::Done(Err(HostError::DispatchFailed { tag: 0, reason }));
        }
        let c = match decode_results(self.reads.as_slice()) {
            Ok(c) => c,
            Err(e) => return HostAction::Done(Err(e)),
        };
        let cycles_taken = if self.last_cycles >= self.start_cycles {
            self.last_cycles - self.start_cycles
        } else {
            0
        };
        HostAction::Done(Ok(GemmResult { c, cycles: cycles_taken, flits_sent: self.flits_sent, flits_received: self.flits_received }))
    }

    /// The recorder of a recorded run, once it is over.
    pub fn into_recorder(self) -> (r: Option<CxlTraceRecorder>)
        ensures
            match r {
                Some(rr) => self@.recorder == Some(RecorderView {
                    policy: rr.policy(),
                    records: rr.records(),
                    last_response_tag: rr.last_response_tag(),
                }),
                None => self@.recorder is None,
            },
    {
        self.recorder
    }
}

} // verus!


