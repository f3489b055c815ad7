//! The fabric scheduler, as a state machine. It fires each command once
//! its token_in has retired: commands for the CPU-backed emulation core
//! run at once (charging their cycle cost), the others are poked into
//! their IP and ticked until the IP reports them done, within a per-command
//! cycle budget and a global one. The host runtime does the poking,
//! ticking and asking; the scheduler decides.

use vstd::prelude::*;

use crate::backend::dispatch::DispatchCmd;
use crate::ir::types::{IpId, TokenId};
use super::cpu_emu::cycle_cost;
use super::error::FabricError;

verus! {

/// Cycles a command may stay in flight.
pub const DEFAULT_IP_CYCLE_BUDGET: u64 = 4096;

/// Whether a run of `n` commands keeps its counters within 64 bits: the
/// global budget of 4 * 4096 * (1 + n) cycles, with room for the cycles
/// the emulation core may charge past it.
pub open spec fn stream_fits(n: int) -> bool {
    16384 * (1 + n) + 4 * n + 5 <= u64::MAX
}

/// What a run took.
#[derive(Debug, Clone, PartialEq, Eq)]
pub struct RunReport {
    pub total_cycles: u64,
    /// Cycles per IP, each IP once, in the order the IPs first ran.
    pub per_ip_cycles: Vec<(IpId, u64)>,
    pub completions: u64,
}

/// The position of `ip`'s entry in `per`, or -1.
pub open spec fn ip_index(per: Seq<(IpId, u64)>, ip: IpId) -> int
    decreases per.len(),
{
    if per.len() == 0 {
        -1
    } else {
        let r = ip_index(per.drop_last(), ip);
        if r >= 0 {
            r
        } else if per.last().0 == ip {
            per.len() - 1
        } else {
            -1
        }
    }
}

/// The cycles charged to `ip`, if any.
pub open spec fn cycles_of(per: Seq<(IpId, u64)>, ip: IpId) -> Option<u64> {
    if ip_index(per, ip) >= 0 {
        Some(per[ip_index(per, ip)].1)
    } else {
        None
    }
}

/// `per` with `n` more cycles charged to `ip` (a new entry for a new IP).
pub open spec fn add_cycles(per: Seq<(IpId, u64)>, ip: IpId, n: u64) -> Seq<(IpId, u64)> {
    if ip_index(per, ip) >= 0 {
        per.update(ip_index(per, ip), (ip, (per[ip_index(per, ip)].1 + n) as u64))
    } else {
        per.push((ip, n))
    }
}

impl RunReport {
    /// The cycles charged to `ip`, if it ran.
    pub fn ip_cycles(&self, ip: IpId) -> (r: Option<u64>)
        ensures
            r == cycles_of(self.per_ip_cycles@, ip),
    {
        proof {
            lemma_ip_index(self.per_ip_cycles@, ip);
        }
        let mut i: usize = 0;
        while i < self.per_ip_cycles.len()
            invariant
                0 <= i <= self.per_ip_cycles@.len(),
                forall|j: int| 0 <= j < i ==> (#[trigger] self.per_ip_cycles@[j]).0 != ip,
            decreases self.per_ip_cycles@.len() - i,
        {
            if self.per_ip_cycles[i].0 == ip {
                proof {
                    lemma_ip_index(self.per_ip_cycles@, ip);
                }
                return Some(self.per_ip_cycles[i].1);
            }
            i = i + 1;
        }
        None
    }
}

/// A command poked into its IP, with the cycles it has been in flight.
pub struct InFlight {
    pub ip: IpId,
    pub cmd: DispatchCmd,
    pub cycles_elapsed: u64,
}

/// The state the launch pass works on.
pub struct LaunchState {
    pub pending: Seq<DispatchCmd>,
    pub retired: Seq<TokenId>,
    pub total: u64,
    pub per_ip: Seq<(IpId, u64)>,
    pub completions: u64,
    pub in_flight: Seq<InFlight>,
    pub pokes: Seq<(IpId, Seq<u8>)>,
    pub launched: bool,
}

/// The launch pass from position `i` on: each pending command whose
/// token_in has retired leaves the pending list (the last command takes
/// its place): on the emulation core it runs, charging its cost and
/// retiring its token_out; otherwise it is poked and goes in flight.
pub open spec fn launch_from(s: LaunchState, i: int) -> LaunchState
    decreases s.pending.len() - i,
{
    if i < 0 || i >= s.pending.len() {
        s
    } else if !s.retired.contains(s.pending[i].token_in) {
        launch_from(s, i + 1)
    } else {
        let cmd = s.pending[i];
        let rest = s.pending.update(i, s.pending.last()).drop_last();
        if cmd.ip is PtxEmulationCore {
            let cost = cycle_cost(cmd.opcode);
            launch_from(
                LaunchState {
                    pending: rest,
                    retired: s.retired.push(cmd.token_out),
                    total: (s.total + cost) as u64,
                    per_ip: add_cycles(s.per_ip, cmd.ip, cost),
                    completions: (s.completions + 1) as u64,
                    launched: true,
                    ..s
                },
                i,
            )
        } else {
            launch_from(
                LaunchState {
                    pending: rest,
                    in_flight: s.in_flight.push(InFlight { ip: cmd.ip, cmd, cycles_elapsed: 0 }),
                    pokes: s.pokes.push((cmd.ip, cmd.token@)),
                    launched: true,
                    ..s
                },
                i,
            )
        }
    }
}

proof fn lemma_launch_shrinks(s: LaunchState, i: int)
    requires
        0 <= i <= s.pending.len(),
        s.completions + s.pending.len() <= u64::MAX,
    ensures
        launch_from(s, i).pending.len() <= s.pending.len(),
        launch_from(s, i).launched ==> (s.launched || launch_from(s, i).pending.len() < s.pending.len()),
        launch_from(s, i).completions + launch_from(s, i).in_flight.len() + launch_from(s, i).pending.len()
            == s.completions + s.in_flight.len() + s.pending.len(),
    decreases s.pending.len() - i,
{
    if i < s.pending.len() {
        if !s.retired.contains(s.pending[i].token_in) {
            lemma_launch_shrinks(s, i + 1);
        } else {
            let cmd = s.pending[i];
            let rest = s.pending.update(i, s.pending.last()).drop_last();
            if cmd.ip is PtxEmulationCore {
                let cost = cycle_cost(cmd.opcode);
                lemma_launch_shrinks(
                    LaunchState {
                        pending: rest,
                        retired: s.retired.push(cmd.token_out),
                        total: (s.total + cost) as u64,
                        per_ip: add_cycles(s.per_ip, cmd.ip, cost),
                        completions: (s.completions + 1) as u64,
                        launched: true,
                        ..s
                    },
                    i,
                );
            } else {
                lemma_launch_shrinks(
                    LaunchState {
                        pending: rest,
                        in_flight: s.in_flight.push(InFlight { ip: cmd.ip, cmd, cycles_elapsed: 0 }),
                        pokes: s.pokes.push((cmd.ip, cmd.token@)),
                        launched: true,
                        ..s
                    },
                    i,
                );
            }
        }
    }
}

/// Where the scheduler is in a round.
#[derive(Debug, Clone, Copy, PartialEq, Eq, Structural)]
pub enum Phase {
    /// About to fire what it can.
    Launching,
    /// Waiting for the host to poke and tick.
    AwaitTick,
    /// Asking the in-flight commands, one by one, whether they are done.
    Querying,
    /// The run is over.
    Finished,
}

/// The scheduler's state.
pub struct SchedView {
    pub pending: Seq<DispatchCmd>,
    pub in_flight: Seq<InFlight>,
    /// The in-flight commands of this round kept for the next.
    pub still: Seq<InFlight>,
    /// The in-flight command to ask next.
    pub query: int,
    pub retired: Seq<TokenId>,
    pub total: u64,
    pub per_ip: Seq<(IpId, u64)>,
    pub completions: u64,
    pub budget: u64,
    pub phase: Phase,
    /// The length of the stream.
    pub n: nat,
}

/// What the host does next, as a value.
pub enum ActionView {
    Run { pokes: Seq<(IpId, Seq<u8>)>, ticks: Seq<IpId> },
    TakeDone(IpId),
    DoneOk { total: u64, per_ip: Seq<(IpId, u64)>, completions: u64 },
    DoneStuck(usize),
    DoneTimeout { ip: IpId, cycles: u64 },
    Other,
}

/// What the host runtime does next.
pub enum FabricAction {
    /// Poke each (IP, token) into its IP, in order (creating and resetting
    /// an IP the first time), tick each IP of `ticks` once, then call
    /// `ticked`.
    Run { pokes: Vec<(IpId, [u8; 32])>, ticks: Vec<IpId> },
    /// Ask `ip` whether a command completed, and hand the answer to
    /// `answer`.
    TakeDone(IpId),
    /// The run is over.
    Done(Result<RunReport, FabricError>),
}

/// An action as a value.
pub open spec fn action_view(a: FabricAction) -> ActionView {
    match a {
        FabricAction::Run { pokes, ticks } => ActionView::Run {
            pokes: pokes@.map_values(|p: (IpId, [u8; 32])| (p.0, p.1@)),
            ticks: ticks@,
        },
        FabricAction::TakeDone(ip) => ActionView::TakeDone(ip),
        FabricAction::Done(Ok(r)) => ActionView::DoneOk { total: r.total_cycles, per_ip: r.per_ip_cycles@, completions: r.completions },
        FabricAction::Done(Err(FabricError::TokenResolutionStuck { pending })) => ActionView::DoneStuck(pending),
        FabricAction::Done(Err(FabricError::DispatchTimeout { ip, cycles, cmd_op: None })) => ActionView::DoneTimeout { ip, cycles },
        _ => ActionView::Other,
    }
}

/// The distinct IPs of `fl`, in the order they first occur.
pub open spec fn unique_ips(fl: Seq<InFlight>) -> Seq<IpId>
    decreases fl.len(),
{
    if fl.len() == 0 {
        Seq::empty()
    } else {
        let r = unique_ips(fl.drop_last());
        if r.contains(fl.last().ip) {
            r
        } else {
            r.push(fl.last().ip)
        }
    }
}

/// The launch pass's view of a state.
pub open spec fn launch_state(v: SchedView) -> LaunchState {
    LaunchState {
        pending: v.pending,
        retired: v.retired,
        total: v.total,
        per_ip: v.per_ip,
        completions: v.completions,
        in_flight: v.in_flight,
        pokes: Seq::empty(),
        launched: false,
    }
}

/// A state after a launch pass.
pub open spec fn with_launch(v: SchedView, l: LaunchState) -> SchedView {
    SchedView {
        pending: l.pending,
        retired: l.retired,
        total: l.total,
        per_ip: l.per_ip,
        completions: l.completions,
        in_flight: l.in_flight,
        ..v
    }
}

/// The report of a state.
pub open spec fn done_ok(v: SchedView) -> ActionView {
    ActionView::DoneOk { total: v.total, per_ip: v.per_ip, completions: v.completions }
}

/// From a launching state: done when nothing is left; otherwise fire what
/// can fire; with nothing in flight, stuck when nothing fired, else fire
/// again; with something in flight, hand the pokes and the IPs to tick to
/// the host.
pub open spec fn advance(v: SchedView) -> (SchedView, ActionView)
    decreases v.pending.len(),
{
    if v.pending.len() == 0 && v.in_flight.len() == 0 {
        (SchedView { phase: Phase::Finished, ..v }, done_ok(v))
    } else {
        let l = launch_from(launch_state(v), 0);
        let w = with_launch(v, l);
        if l.in_flight.len() == 0 {
            if l.pending.len() == 0 {
                (SchedView { phase: Phase::Finished, ..w }, done_ok(w))
            } else if !l.launched {
                (SchedView { phase: Phase::Finished, ..w }, ActionView::DoneStuck(l.pending.len() as usize))
            } else if l.pending.len() < v.pending.len() {
                advance(w)
            } else {
                (w, ActionView::Other)
            }
        } else {
            (SchedView { phase: Phase::AwaitTick, ..w }, ActionView::Run { pokes: l.pokes, ticks: unique_ips(l.in_flight) })
        }
    }
}

/// After the host ticked: one more cycle; ask the first in-flight command.
pub open spec fn tick_step(v: SchedView) -> (SchedView, ActionView) {
    (
        SchedView { total: (v.total + 1) as u64, phase: Phase::Querying, query: 0, still: Seq::empty(), ..v },
        ActionView::TakeDone(v.in_flight[0].ip),
    )
}

/// After the in-flight command `v.query` answered `done`: its IP is
/// charged a cycle; done, it retires; otherwise it times out past the
/// per-command budget or stays in flight. After the last answer, the run
/// times out past the global budget, or goes on launching.
pub open spec fn answer_step(v: SchedView, done: bool) -> (SchedView, ActionView) {
    let fl = v.in_flight[v.query];
    let el = (fl.cycles_elapsed + 1) as u64;
    let per = add_cycles(v.per_ip, fl.ip, 1);
    if !done && el > DEFAULT_IP_CYCLE_BUDGET {
        (SchedView { per_ip: per, phase: Phase::Finished, ..v }, ActionView::DoneTimeout { ip: fl.ip, cycles: el })
    } else {
        let v1 = if done {
            SchedView {
                per_ip: per,
                retired: v.retired.push(fl.cmd.token_out),
                completions: (v.completions + 1) as u64,
                query: v.query + 1,
                ..v
            }
        } else {
            SchedView { per_ip: per, still: v.still.push(InFlight { cycles_elapsed: el, ..fl }), query: v.query + 1, ..v }
        };
        if v1.query < v1.in_flight.len() {
            (v1, ActionView::TakeDone(v1.in_flight[v1.query].ip))
        } else {
            let v2 = SchedView { in_flight: v1.still, still: Seq::empty(), query: 0, phase: Phase::Launching, ..v1 };
            if v2.total > v2.budget {
                (
                    SchedView { phase: Phase::Finished, ..v2 },
                    ActionView::DoneTimeout {
                        ip: if v2.in_flight.len() > 0 { v2.in_flight[0].ip } else { IpId::NoCMesh },
                        cycles: v2.total,
                    },
                )
            } else {
                advance(v2)
            }
        }
    }
}

/// The state a run of `stream` starts in: everything pending, token 0
/// retired, a global budget of 4 * 4096 * (1 + n) cycles.
pub open spec fn start_view(stream: Seq<DispatchCmd>) -> SchedView {
    SchedView {
        pending: stream,
        in_flight: Seq::empty(),
        still: Seq::empty(),
        query: 0,
        retired: seq![TokenId(0)],
        total: 0,
        per_ip: Seq::empty(),
        completions: 0,
        budget: (4 * DEFAULT_IP_CYCLE_BUDGET * (1 + stream.len())) as u64,
        phase: Phase::Launching,
        n: stream.len(),
    }
}

/// The cycles charged in `per`, summed.
pub open spec fn per_sum(per: Seq<(IpId, u64)>) -> int
    decreases per.len(),
{
    if per.len() == 0 {
        0
    } else {
        per_sum(per.drop_last()) + per.last().1
    }
}

/// The cycles the commands of `fl` have been in flight, summed.
pub open spec fn elapsed_sum(fl: Seq<InFlight>) -> int
    decreases fl.len(),
{
    if fl.len() == 0 {
        0
    } else {
        elapsed_sum(fl.drop_last()) + fl.last().cycles_elapsed
    }
}

proof fn lemma_per_sum_update(per: Seq<(IpId, u64)>, i: int, e: (IpId, u64))
    requires
        0 <= i < per.len(),
    ensures
        per_sum(per.update(i, e)) == per_sum(per) - per[i].1 + e.1,
    decreases per.len(),
{
    let u = per.update(i, e);
    if i == per.len() - 1 {
        assert(u.drop_last() =~= per.drop_last());
    } else {
        lemma_per_sum_update(per.drop_last(), i, e);
        assert(u.drop_last() =~= per.drop_last().update(i, e));
    }
}

proof fn lemma_per_sum_entries(per: Seq<(IpId, u64)>)
    ensures
        0 <= per_sum(per),
        forall|i: int| 0 <= i < per.len() ==> (#[trigger] per[i]).1 <= per_sum(per),
    decreases per.len(),
{
    if per.len() > 0 {
        lemma_per_sum_entries(per.drop_last());
        assert forall|i: int| 0 <= i < per.len() implies (#[trigger] per[i]).1 <= per_sum(per) by {
            if i < per.len() - 1 {
                assert(per[i] == per.drop_last()[i]);
            }
        }
    }
}

proof fn lemma_add_cycles_sum(per: Seq<(IpId, u64)>, ip: IpId, n: u64)
    requires
        ip_index(per, ip) >= 0 ==> per[ip_index(per, ip)].1 + n <= u64::MAX,
    ensures
        per_sum(add_cycles(per, ip, n)) == per_sum(per) + n,
{
    lemma_ip_index(per, ip);
    if ip_index(per, ip) >= 0 {
        lemma_per_sum_update(per, ip_index(per, ip), (ip, (per[ip_index(per, ip)].1 + n) as u64));
    } else {
        assert(per.push((ip, n)).drop_last() =~= per);
    }
}

proof fn lemma_elapsed_concat(a: Seq<InFlight>, b: Seq<InFlight>)
    ensures
        elapsed_sum(a + b) == elapsed_sum(a) + elapsed_sum(b),
    decreases b.len(),
{
    if b.len() == 0 {
        assert(a + b =~= a);
    } else {
        lemma_elapsed_concat(a, b.drop_last());
        assert((a + b).drop_last() =~= a + b.drop_last());
    }
}

proof fn lemma_elapsed_bound(fl: Seq<InFlight>)
    requires
        forall|i: int| 0 <= i < fl.len() ==> (#[trigger] fl[i]).cycles_elapsed <= DEFAULT_IP_CYCLE_BUDGET,
    ensures
        0 <= elapsed_sum(fl) <= 4096 * fl.len(),
    decreases fl.len(),
{
    if fl.len() > 0 {
        assert forall|i: int| 0 <= i < fl.len() - 1 implies (#[trigger] fl.drop_last()[i]).cycles_elapsed <= DEFAULT_IP_CYCLE_BUDGET by {
            assert(fl.drop_last()[i] == fl[i]);
        }
        lemma_elapsed_bound(fl.drop_last());
        assert(fl.last() == fl[fl.len() - 1]);
    }
}

/// The in-flight commands still to be asked this round (all of them
/// outside a round).
pub open spec fn unasked(v: SchedView) -> Seq<InFlight> {
    v.in_flight.subrange(v.query, v.in_flight.len() as int)
}

proof fn lemma_ip_index(per: Seq<(IpId, u64)>, ip: IpId)
    ensures
        -1 <= ip_index(per, ip) < per.len(),
        ip_index(per, ip) >= 0 ==> per[ip_index(per, ip)].0 == ip,
        ip_index(per, ip) < 0 ==> forall|i: int| 0 <= i < per.len() ==> (#[trigger] per[i]).0 != ip,
        ip_index(per, ip) >= 0 ==> forall|i: int| 0 <= i < ip_index(per, ip) ==> (#[trigger] per[i]).0 != ip,
    decreases per.len(),
{
    if per.len() > 0 {
        lemma_ip_index(per.drop_last(), ip);
        assert forall|i: int| 0 <= i < per.len() - 1 implies per[i] == per.drop_last()[i] by {}
    }
}

/// Every in-flight command's token_in has retired.
pub open spec fn fired_when_ready(fl: Seq<InFlight>, retired: Seq<TokenId>) -> bool {
    forall|k: int| 0 <= k < fl.len() ==> retired.contains(#[trigger] fl[k].cmd.token_in)
}

/// `a` is a prefix of `b`.
pub open spec fn is_prefix(a: Seq<TokenId>, b: Seq<TokenId>) -> bool {
    a.len() <= b.len() && b.subrange(0, a.len() as int) == a
}

proof fn lemma_launch_fires_only_ready(s: LaunchState, i: int)
    requires
        fired_when_ready(s.in_flight, s.retired),
    ensures
        fired_when_ready(launch_from(s, i).in_flight, launch_from(s, i).retired),
        is_prefix(s.retired, launch_from(s, i).retired),
    decreases s.pending.len() - i,
{
    if 0 <= i < s.pending.len() {
        if !s.retired.contains(s.pending[i].token_in) {
            lemma_launch_fires_only_ready(s, i + 1);
        } else {
            let cmd = s.pending[i];
            let rest = s.pending.update(i, s.pending.last()).drop_last();
            if cmd.ip is PtxEmulationCore {
                let cost = cycle_cost(cmd.opcode);
                let t = LaunchState {
                    pending: rest,
                    retired: s.retired.push(cmd.token_out),
                    total: (s.total + cost) as u64,
                    per_ip: add_cycles(s.per_ip, cmd.ip, cost),
                    completions: (s.completions + 1) as u64,
                    launched: true,
                    ..s
                };
                assert forall|k: int| 0 <= k < t.in_flight.len() implies t.retired.contains(#[trigger] t.in_flight[k].cmd.token_in) by {
                    let j = choose|j: int| 0 <= j < s.retired.len() && s.retired[j] == t.in_flight[k].cmd.token_in;
                    assert(t.retired[j] == s.retired[j]);
                }
                lemma_launch_fires_only_ready(t, i);
                let r = launch_from(t, i).retired;
                assert(r.subrange(0, s.retired.len() as int) =~= r.subrange(0, t.retired.len() as int).subrange(0, s.retired.len() as int));
                assert(t.retired.subrange(0, s.retired.len() as int) =~= s.retired);
            } else {
                let t = LaunchState {
                    pending: rest,
                    in_flight: s.in_flight.push(InFlight { ip: cmd.ip, cmd, cycles_elapsed: 0 }),
                    pokes: s.pokes.push((cmd.ip, cmd.token@)),
                    launched: true,
                    ..s
                };
                assert forall|k: int| 0 <= k < t.in_flight.len() implies t.retired.contains(#[trigger] t.in_flight[k].cmd.token_in) by {
                    if k < s.in_flight.len() {
                        assert(t.in_flight[k] == s.in_flight[k]);
                    }
                }
                lemma_launch_fires_only_ready(t, i);
            }
        }
    } else {
        assert(s.retired.subrange(0, s.retired.len() as int) =~= s.retired);
    }
}

/// The scheduler fires a command only once its token_in has retired, and
/// never forgets a retired token: from a state whose in-flight commands
/// were all ready, every command in flight after the next step was ready
/// when it fired, and the tokens retired before are retired after, in the
/// same order.
pub proof fn lemma_advance_fires_only_ready(v: SchedView)
    requires
        fired_when_ready(v.in_flight, v.retired),
    ensures
        fired_when_ready(advance(v).0.in_flight, advance(v).0.retired),
        is_prefix(v.retired, advance(v).0.retired),
    decreases v.pending.len(),
{
    if v.pending.len() == 0 && v.in_flight.len() == 0 {
        assert(v.retired.subrange(0, v.retired.len() as int) =~= v.retired);
    } else {
        let l = launch_from(launch_state(v), 0);
        let w = with_launch(v, l);
        lemma_launch_fires_only_ready(launch_state(v), 0);
        if l.in_flight.len() == 0 && l.pending.len() != 0 && l.launched && l.pending.len() < v.pending.len() {
            lemma_advance_fires_only_ready(w);
            let r = advance(w).0.retired;
            assert(r.subrange(0, v.retired.len() as int) =~= r.subrange(0, w.retired.len() as int).subrange(0, v.retired.len() as int));
        }
    }
}

proof fn lemma_advance_keeps_still(v: SchedView)
    ensures
        advance(v).0.still == v.still,
    decreases v.pending.len(),
{
    if !(v.pending.len() == 0 && v.in_flight.len() == 0) {
        let l = launch_from(launch_state(v), 0);
        let w = with_launch(v, l);
        if l.in_flight.len() == 0 && l.pending.len() != 0 && l.launched && l.pending.len() < v.pending.len() {
            lemma_advance_keeps_still(w);
        }
    }
}

/// Ticking and answering keep that: every command still in flight, or
/// kept for the next round, was ready when it fired, and retired tokens
/// stay retired.
pub proof fn lemma_answer_fires_only_ready(v: SchedView, done: bool)
    requires
        fired_when_ready(v.in_flight, v.retired),
        fired_when_ready(v.still, v.retired),
        0 <= v.query < v.in_flight.len(),
    ensures
        fired_when_ready(answer_step(v, done).0.in_flight, answer_step(v, done).0.retired),
        fired_when_ready(answer_step(v, done).0.still, answer_step(v, done).0.retired),
        is_prefix(v.retired, answer_step(v, done).0.retired),
{
    let fl = v.in_flight[v.query];
    let el = (fl.cycles_elapsed + 1) as u64;
    let per = add_cycles(v.per_ip, fl.ip, 1);
    if !done && el > DEFAULT_IP_CYCLE_BUDGET {
        assert(v.retired.subrange(0, v.retired.len() as int) =~= v.retired);
    } else {
        let v1 = if done {
            SchedView {
                per_ip: per,
                retired: v.retired.push(fl.cmd.token_out),
                completions: (v.completions + 1) as u64,
                query: v.query + 1,
                ..v
            }
        } else {
            SchedView { per_ip: per, still: v.still.push(InFlight { cycles_elapsed: el, ..fl }), query: v.query + 1, ..v }
        };
        assert forall|k: int| 0 <= k < v1.in_flight.len() implies v1.retired.contains(#[trigger] v1.in_flight[k].cmd.token_in) by {
            let j = choose|j: int| 0 <= j < v.retired.len() && v.retired[j] == v.in_flight[k].cmd.token_in;
            assert(v1.retired[j] == v.retired[j]);
        }
        assert forall|k: int| 0 <= k < v1.still.len() implies v1.retired.contains(#[trigger] v1.still[k].cmd.token_in) by {
            if k < v.still.len() {
                let j = choose|j: int| 0 <= j < v.retired.len() && v.retired[j] == v.still[k].cmd.token_in;
                assert(v1.still[k] == v.still[k]);
                assert(v1.retired[j] == v.retired[j]);
            } else {
                assert(v1.still[k].cmd == fl.cmd);
                let j = choose|j: int| 0 <= j < v.retired.len() && v.retired[j] == fl.cmd.token_in;
                assert(v1.retired[j] == v.retired[j]);
            }
        }
        assert(v1.retired.subrange(0, v.retired.len() as int) =~= v.retired);
        if v1.query < v1.in_flight.len() {
        } else {
            let v2 = SchedView { in_flight: v1.still, still: Seq::empty(), query: 0, phase: Phase::Launching, ..v1 };
            if v2.total > v2.budget {
            } else {
                lemma_advance_fires_only_ready(v2);
                let r = advance(v2).0.retired;
                assert(r.subrange(0, v.retired.len() as int) =~= r.subrange(0, v2.retired.len() as int).subrange(0, v.retired.len() as int));
                lemma_advance_keeps_still(v2);
            }
        }
    }
}

/// A fabric run in progress.
pub struct FabricScheduler {
    pending: Vec<DispatchCmd>,
    in_flight: Vec<InFlight>,
    still: Vec<InFlight>,
    query: usize,
    retired: Vec<TokenId>,
    report: RunReport,
    budget: u64,
    phase: Phase,
    n: Ghost<nat>,
}

impl FabricScheduler {
    /// The scheduler's state.
    pub closed spec fn view(&self) -> SchedView {
        SchedView {
            pending: self.pending@,
            in_flight: self.in_flight@,
            still: self.still@,
            query: self.query as int,
            retired: self.retired@,
            total: self.report.total_cycles,
            per_ip: self.report.per_ip_cycles@,
            completions: self.report.completions,
            budget: self.budget,
            phase: self.phase,
            n: self.n@,
        }
    }

    /// The scheduler's counters agree with one another and stay within 64
    /// bits.
    pub closed spec fn wf(&self) -> bool {
        let v = self.view();
        &&& stream_fits(v.n as int)
        &&& v.budget == 4 * DEFAULT_IP_CYCLE_BUDGET * (1 + v.n)
        &&& 0 <= v.query <= v.in_flight.len()
        &&& v.phase != Phase::Querying ==> v.query == 0 && v.still.len() == 0
        &&& v.phase == Phase::AwaitTick ==> v.in_flight.len() > 0
        &&& v.phase == Phase::Querying ==> v.query < v.in_flight.len() && v.total >= 1
        &&& v.completions + v.pending.len() + v.still.len() + v.in_flight.len() - v.query == v.n
        &&& v.total <= v.budget + 4 * (v.n - v.pending.len()) + if v.phase == Phase::Querying { 1int } else { 0int }
        &&& v.in_flight.len() + v.pending.len() <= v.n
        &&& v.still.len() <= v.query
        &&& per_sum(v.per_ip) <= 4097 * v.completions + elapsed_sum(unasked(v)) + elapsed_sum(v.still)
        &&& forall|i: int| 0 <= i < v.in_flight.len() ==> (#[trigger] v.in_flight[i]).cycles_elapsed <= DEFAULT_IP_CYCLE_BUDGET
        &&& forall|i: int| 0 <= i < v.still.len() ==> (#[trigger] v.still[i]).cycles_elapsed <= DEFAULT_IP_CYCLE_BUDGET
    }
}

fn add_cycles_exec(per: &mut Vec<(IpId, u64)>, ip: IpId, n: u64)
    requires
        ip_index(old(per)@, ip) >= 0 ==> old(per)@[ip_index(old(per)@, ip)].1 + n <= u64::MAX,
    ensures
        final(per)@ == add_cycles(old(per)@, ip, n),
{
    proof {
        lemma_ip_index(per@, ip);
    }
    let mut i: usize = 0;
    while i < per.len()
        invariant
            0 <= i <= per@.len(),
            per@ == old(per)@,
            ip_index(per@, ip) >= 0 ==> per@[ip_index(per@, ip)].1 + n <= u64::MAX,
            forall|j: int| 0 <= j < i ==> (#[trigger] per@[j]).0 != ip,
        decreases per@.len() - i,
    {
        if per[i].0 == ip {
            proof {
                lemma_ip_index(per@, ip);
                assert(ip_index(per@, ip) == i);
            }
            let v = per[i].1 + n;
            per.set(i, (ip, v));
            return;
        }
        i = i + 1;
    }
    per.push((ip, n));
}

fn copy_report(r: &RunReport) -> (c: RunReport)
    ensures
        c.total_cycles == r.total_cycles,
        c.per_ip_cycles@ == r.per_ip_cycles@,
        c.completions == r.completions,
{
    let mut per: Vec<(IpId, u64)> = Vec::new();
    let mut i: usize = 0;
    while i < r.per_ip_cycles.len()
        invariant
            0 <= i <= r.per_ip_cycles@.len(),
            per@ == r.per_ip_cycles@.subrange(0, i as int),
        decreases r.per_ip_cycles@.len() - i,
    {
        per.push(r.per_ip_cycles[i]);
        i = i + 1;
        assert(per@ =~= r.per_ip_cycles@.subrange(0, i as int));
    }
    assert(per@ =~= r.per_ip_cycles@);
    RunReport { total_cycles: r.total_cycles, per_ip_cycles: per, completions: r.completions }
}

fn unique_ips_exec(fl: &Vec<InFlight>) -> (r: Vec<IpId>)
    ensures
        r@ == unique_ips(fl@),
{
    let mut r: Vec<IpId> = Vec::new();
    let mut i: usize = 0;
    while i < fl.len()
        invariant
            0 <= i <= fl@.len(),
            r@ == unique_ips(fl@.subrange(0, i as int)),
        decreases fl@.len() - i,
    {
        assert(fl@.subrange(0, i as int + 1).drop_last() =~= fl@.subrange(0, i as int));
        let ip = fl[i].ip;
        let mut seen = false;
        let mut k: usize = 0;
        while k < r.len()
            invariant
                0 <= k <= r@.len(),
                seen == (exists|j: int| 0 <= j < k && r@[j] == ip),
            decreases r@.len() - k,
        {
            if r[k] == ip {
                seen = true;
            }
            k = k + 1;
        }
        if !seen {
            r.push(ip);
        }
        i = i + 1;
    }
    assert(fl@.subrange(0, i as int) =~= fl@);
    r
}

proof fn lemma_unasked_bound(v: SchedView)
    requires
        0 <= v.query <= v.in_flight.len(),
        forall|i: int| 0 <= i < v.in_flight.len() ==> (#[trigger] v.in_flight[i]).cycles_elapsed <= DEFAULT_IP_CYCLE_BUDGET,
        forall|i: int| 0 <= i < v.still.len() ==> (#[trigger] v.still[i]).cycles_elapsed <= DEFAULT_IP_CYCLE_BUDGET,
    ensures
        0 <= elapsed_sum(unasked(v)) <= 4096 * (v.in_flight.len() - v.query),
        0 <= elapsed_sum(v.still) <= 4096 * v.still.len(),
{
    let u = unasked(v);
    assert forall|i: int| 0 <= i < u.len() implies (#[trigger] u[i]).cycles_elapsed <= DEFAULT_IP_CYCLE_BUDGET by {
        assert(u[i] == v.in_flight[v.query + i]);
    }
    lemma_elapsed_bound(u);
    lemma_elapsed_bound(v.still);
}

impl FabricScheduler {
    /// In a well-formed scheduler every counter has room to grow by what
    /// one step adds.
    proof fn lemma_counters_fit(&self)
        requires
            self.wf(),
        ensures
            self@.total + 5 <= u64::MAX,
            self@.completions + 1 <= u64::MAX,
            forall|i: int| 0 <= i < self@.per_ip.len() ==> (#[trigger] self@.per_ip[i]).1 + 5 <= u64::MAX,
            per_sum(self@.per_ip) <= 4097 * self@.n,
    {
        let v = self@;
        lemma_unasked_bound(v);
        lemma_per_sum_entries(v.per_ip);
    }
}

/// The launch pass's state of the scheduler, with the pokes and whether
/// anything fired so far.
pub open spec fn current_launch(v: SchedView, pokes: Seq<(IpId, Seq<u8>)>, launched: bool) -> LaunchState {
    LaunchState {
        pending: v.pending,
        retired: v.retired,
        total: v.total,
        per_ip: v.per_ip,
        completions: v.completions,
        in_flight: v.in_flight,
        pokes,
        launched,
    }
}

fn contains_token(v: &Vec<TokenId>, t: TokenId) -> (r: bool)
    ensures
        r == v@.contains(t),
{
    let mut i: usize = 0;
    while i < v.len()
        invariant
            0 <= i <= v@.len(),
            forall|j: int| 0 <= j < i ==> v@[j] != t,
        decreases v@.len() - i,
    {
        if v[i] == t {
            assert(v@[i as int] == t);
            return true;
        }
        i = i + 1;
    }
    false
}

impl FabricScheduler {
    /// Fires every pending command whose token_in has retired.
    fn launch(&mut self) -> (r: (Vec<(IpId, [u8; 32])>, bool))
        requires
            old(self).wf(),
            old(self)@.phase == Phase::Launching,
        ensures
            ({
                let l = launch_from(launch_state(old(self)@), 0);
                &&& final(self)@ == with_launch(old(self)@, l)
                &&& r.0@.map_values(|p: (IpId, [u8; 32])| (p.0, p.1@)) == l.pokes
                &&& r.1 == l.launched
            }),
            final(self).wf(),
    {
        let ghost v0 = self@;
        let mut pokes: Vec<(IpId, [u8; 32])> = Vec::new();
        let mut launched = false;
        let mut i: usize = 0;
        proof {
            assert(pokes@.map_values(|p: (IpId, [u8; 32])| (p.0, p.1@)) =~= Seq::<(IpId, Seq<u8>)>::empty());
        }
        while i < self.pending.len()
            invariant
                self.wf(),
                self@.phase == Phase::Launching,
                0 <= i <= self@.pending.len(),
                self@.budget == v0.budget,
                self@.n == v0.n,
                self@.still == v0.still,
                self@.query == v0.query,
                launch_from(launch_state(v0), 0) == launch_from(current_launch(self@, pokes@.map_values(|p: (IpId, [u8; 32])| (p.0, p.1@)), launched), i as int),
            decreases self@.pending.len() - i,
        {
            let ghost cur = current_launch(self@, pokes@.map_values(|p: (IpId, [u8; 32])| (p.0, p.1@)), launched);
            let fire = contains_token(&self.retired, self.pending[i].token_in);
            if !fire {
                i = i + 1;
            } else {
                let ghost before = self@;
                let cmd = self.pending.swap_remove(i);
                if cmd.ip.is_cpu_backed() {
                    let cost = cycle_cost(cmd.opcode);
                    proof {
                        lemma_ip_index(before.per_ip, cmd.ip);
                        lemma_unasked_bound(before);
                        lemma_per_sum_entries(before.per_ip);
                        lemma_add_cycles_sum(before.per_ip, cmd.ip, cost);
                    }
                    self.report.total_cycles = self.report.total_cycles + cost;
                    add_cycles_exec(&mut self.report.per_ip_cycles, cmd.ip, cost);
                    self.retired.push(cmd.token_out);
                    self.report.completions = self.report.completions + 1;
                    launched = true;
                    proof {
                        assert(unasked(self@) == unasked(before));
                    }
                } else {
                    let ghost pv = pokes@.map_values(|p: (IpId, [u8; 32])| (p.0, p.1@));
                    pokes.push((cmd.ip, cmd.token));
                    assert(pokes@.map_values(|p: (IpId, [u8; 32])| (p.0, p.1@)) =~= pv.push((cmd.ip, cmd.token@)));
                    let ghost fl0 = self.in_flight@;
                    let ghost x = InFlight { ip: cmd.ip, cmd, cycles_elapsed: 0 };
                    self.in_flight.push(InFlight { ip: cmd.ip, cmd, cycles_elapsed: 0 });
                    launched = true;
                    proof {
                        assert(unasked(before) =~= fl0);
                        assert(unasked(self@) =~= fl0 + seq![x]);
                        lemma_elapsed_concat(fl0, seq![x]);
                        assert(seq![x].drop_last() =~= Seq::<InFlight>::empty());
                        assert(seq![x].len() == 1 && seq![x].last() == x);
                        assert(elapsed_sum(Seq::<InFlight>::empty()) == 0);
                        assert(elapsed_sum(seq![x]) == 0);
                    }
                }
            }
        }
        (pokes, launched)
    }
}

impl FabricScheduler {
    /// Fires what it can until the host has work to do or the run ends.
    fn advance_run(&mut self) -> (a: FabricAction)
        requires
            old(self).wf(),
            old(self)@.phase == Phase::Launching,
        ensures
            (final(self)@, action_view(a)) == advance(old(self)@),
            final(self)@.phase != Phase::Finished ==> final(self).wf(),
            final(self)@.phase == Phase::Finished || final(self)@.phase == Phase::AwaitTick,
            action_view(a) matches ActionView::DoneOk { completions, .. } ==> completions == old(self)@.n,
    {
        loop
            invariant
                self.wf(),
                self@.phase == Phase::Launching,
                self@.n == old(self)@.n,
                advance(self@) == advance(old(self)@),
            decreases self@.pending.len(),
        {
            if self.pending.len() == 0 && self.in_flight.len() == 0 {
                self.phase = Phase::Finished;
                return FabricAction::Done(Ok(copy_report(&self.report)));
            }
            let ghost v = self@;
            proof {
                lemma_launch_shrinks(launch_state(v), 0);
            }
            let (pokes, launched) = self.launch();
            if self.in_flight.len() == 0 {
                if self.pending.len() == 0 {
                    self.phase = Phase::Finished;
                    return FabricAction::Done(Ok(copy_report(&self.report)));
                }
                if !launched {
                    self.phase = Phase::Finished;
                    return FabricAction::Done(Err(FabricError::TokenResolutionStuck { pending: self.pending.len() }));
                }
            } else {
                self.phase = Phase::AwaitTick;
                let ticks = unique_ips_exec(&self.in_flight);
                return FabricAction::Run { pokes, ticks };
            }
        }
    }

    /// Starts a run of `stream` (of a length whose counters fit in 64 bits,
    /// see `stream_fits`) and returns what the host does first.
    pub fn start(stream: Vec<DispatchCmd>) -> (r: (FabricScheduler, FabricAction))
        requires
            stream_fits(stream@.len() as int),
        ensures
            (r.0@, action_view(r.1)) == advance(start_view(stream@)),
            r.0@.phase != Phase::Finished ==> r.0.wf(),
            action_view(r.1) matches ActionView::DoneOk { completions, .. } ==> completions == stream@.len(),
    {
        let n = stream.len();
        let budget: u64 = 16384 * (1 + n as u64);
        let mut retired: Vec<TokenId> = Vec::new();
        retired.push(TokenId(0));
        let mut s = FabricScheduler {
            pending: stream,
            in_flight: Vec::new(),
            still: Vec::new(),
            query: 0,
            retired,
            report: RunReport { total_cycles: 0, per_ip_cycles: Vec::new(), completions: 0 },
            budget,
            phase: Phase::Launching,
            n: Ghost(n as nat),
        };
        assert(s@ =~= start_view(s.pending@));
        let a = s.advance_run();
        (s, a)
    }

    /// The state of the run.
    pub fn phase(&self) -> (p: Phase)
        ensures
            p == self@.phase,
    {
        self.phase
    }

    /// The host poked and ticked: asks for the first in-flight command.
    pub fn ticked(&mut self) -> (a: FabricAction)
        requires
            old(self).wf(),
            old(self)@.phase == Phase::AwaitTick,
        ensures
            (final(self)@, action_view(a)) == tick_step(old(self)@),
            final(self).wf(),
    {
        proof {
            self.lemma_counters_fit();
            assert(unasked(self@) =~= self@.in_flight);
        }
        self.report.total_cycles = self.report.total_cycles + 1;
        self.phase = Phase::Querying;
        self.query = 0;
        self.still = Vec::new();
        assert(self@.still =~= Seq::<InFlight>::empty());
        FabricAction::TakeDone(self.in_flight[0].ip)
    }

    /// The in-flight command asked last answered `done`; returns what the
    /// host does next.
    pub fn answer(&mut self, done: bool) -> (a: FabricAction)
        requires
            old(self).wf(),
            old(self)@.phase == Phase::Querying,
        ensures
            (final(self)@, action_view(a)) == answer_step(old(self)@, done),
            final(self)@.phase != Phase::Finished ==> final(self).wf(),
            action_view(a) matches ActionView::DoneOk { completions, .. } ==> completions == old(self)@.n,
    {
        let ghost v = self@;
        let q = self.query;
        let ip = self.in_flight[q].ip;
        let el = self.in_flight[q].cycles_elapsed + 1;
        proof {
            self.lemma_counters_fit();
            lemma_ip_index(v.per_ip, ip);
            lemma_add_cycles_sum(v.per_ip, ip, 1);
            let u = unasked(v);
            assert(u =~= seq![v.in_flight[v.query]] + v.in_flight.subrange(v.query + 1, v.in_flight.len() as int));
            lemma_elapsed_concat(seq![v.in_flight[v.query]], v.in_flight.subrange(v.query + 1, v.in_flight.len() as int));
            assert(seq![v.in_flight[v.query]].drop_last() =~= Seq::<InFlight>::empty());
            assert(seq![v.in_flight[v.query]].len() == 1 && seq![v.in_flight[v.query]].last() == v.in_flight[v.query]);
            assert(elapsed_sum(Seq::<InFlight>::empty()) == 0);
            assert(elapsed_sum(u) == v.in_flight[v.query].cycles_elapsed + elapsed_sum(v.in_flight.subrange(v.query + 1, v.in_flight.len() as int)));
            assert(v.in_flight[v.query].cycles_elapsed <= DEFAULT_IP_CYCLE_BUDGET);
        }
        add_cycles_exec(&mut self.report.per_ip_cycles, ip, 1);
        assert(per_sum(self@.per_ip) == per_sum(v.per_ip) + 1);
        if !done && el > DEFAULT_IP_CYCLE_BUDGET {
            self.phase = Phase::Finished;
            return FabricAction::Done(Err(FabricError::DispatchTimeout { ip, cycles: el, cmd_op: None }));
        }
        let len = self.in_flight.len();
        assert(q < len);
        let ghost rest = v.in_flight.subrange(v.query + 1, v.in_flight.len() as int);
        if done {
            let token_out = self.in_flight[q].cmd.token_out;
            self.retired.push(token_out);
            self.report.completions = self.report.completions + 1;
        } else {
            let fl = &self.in_flight[q];
            let kept = InFlight { ip: fl.ip, cmd: fl.cmd.clone_cmd(), cycles_elapsed: el };
            let ghost st0 = self.still@;
            self.still.push(kept);
            proof {
                lemma_elapsed_concat(st0, seq![kept]);
                assert(st0 + seq![kept] =~= self.still@);
                assert(seq![kept].drop_last() =~= Seq::<InFlight>::empty());
                assert(seq![kept].len() == 1 && seq![kept].last() == kept);
                assert(elapsed_sum(Seq::<InFlight>::empty()) == 0);
                assert(elapsed_sum(seq![kept]) == el);
                assert(forall|i: int| 0 <= i < st0.len() ==> self.still@[i] == st0[i]);
            }
        }
        self.query = q + 1;
        proof {
            assert(unasked(self@) =~= rest);
        }
        if self.query < len {
            return FabricAction::TakeDone(self.in_flight[self.query].ip);
        }
        let ghost st1 = self.still@;
        let mut kept: Vec<InFlight> = Vec::new();
        std::mem::swap(&mut kept, &mut self.still);
        self.in_flight = kept;
        self.query = 0;
        self.phase = Phase::Launching;
        proof {
            assert(rest =~= Seq::<InFlight>::empty());
            assert(self@.still =~= Seq::<InFlight>::empty());
            assert(unasked(self@) =~= st1);
        }
        if self.report.total_cycles > self.budget {
            self.phase = Phase::Finished;
            let first = if self.in_flight.len() > 0 {
                self.in_flight[0].ip
            } else {
                IpId::NoCMesh
            };
            return FabricAction::Done(Err(FabricError::DispatchTimeout { ip: first, cycles: self.report.total_cycles, cmd_op: None }));
        }
        self.advance_run()
    }
}

} // verus!




