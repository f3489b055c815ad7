use slugarch::backend::dispatch::{DispatchCmd, DispatchMeta};
use slugarch::fabric::cpu_emu::{cycle_cost, execute};
use slugarch::fabric::record::backend_choices;
use slugarch::fabric::scheduler::Phase;
use slugarch::fabric::{FabricAction, FabricError, FabricScheduler, RunReport};
use slugarch::ir::module::{Context, FunctionBuilder, Module};
use slugarch::ir::op::Op;
use slugarch::ir::pass::Pass;
use slugarch::ir::passes::SelectBackend;
use slugarch::ir::types::{BackendChoice, IpId, TokenId};

#[test]
fn transcendental_opcodes_cost_4_cycles() {
    assert_eq!(cycle_cost(17), 4);
    assert_eq!(cycle_cost(23), 4);
}

#[test]
fn bit_op_opcodes_cost_1_cycle() {
    assert_eq!(cycle_cost(2), 1);
    assert_eq!(cycle_cost(4), 1);
}

#[test]
fn control_flow_sentinel_is_free() {
    assert_eq!(cycle_cost(254), 0);
}

#[test]
fn unknown_opcode_costs_1_cycle() {
    assert_eq!(cycle_cost(255), 1);
    assert_eq!(cycle_cost(99_999), 1);
}

#[test]
fn execute_charges_the_opcode_cost_and_leaves_memory() {
    let mut mem = vec![7u8; 16];
    assert_eq!(execute(&cpu_cmd(20, 0, 1), &mut mem), 4);
    assert_eq!(mem, vec![7u8; 16]);
}

fn cmd(ip: IpId, opcode: u32, token_in: u32, token_out: u32) -> DispatchCmd {
    DispatchCmd {
        ip,
        opcode,
        token: [0; 32],
        token_in: TokenId(token_in),
        token_out: TokenId(token_out),
        meta: DispatchMeta::default(),
    }
}

fn cpu_cmd(opcode: u32, token_in: u32, token_out: u32) -> DispatchCmd {
    cmd(IpId::PtxEmulationCore, opcode, token_in, token_out)
}

/// Drives the scheduler against IPs that finish each command after
/// `latency` ticks; returns the outcome and the pokes made.
fn run(stream: Vec<DispatchCmd>, latency: u32) -> (Result<RunReport, FabricError>, Vec<(IpId, [u8; 32])>) {
    let (mut s, mut action) = FabricScheduler::start(stream);
    let mut poked: Vec<(IpId, [u8; 32])> = Vec::new();
    let mut busy: Vec<(IpId, u32)> = Vec::new();
    loop {
        action = match action {
            FabricAction::Done(r) => {
                assert_eq!(s.phase(), Phase::Finished);
                return (r, poked);
            }
            FabricAction::Run { pokes, ticks } => {
                for (ip, token) in pokes {
                    poked.push((ip, token));
                    busy.push((ip, 0));
                }
                for ip in ticks {
                    for entry in busy.iter_mut() {
                        if entry.0 == ip {
                            entry.1 += 1;
                        }
                    }
                }
                s.ticked()
            }
            FabricAction::TakeDone(ip) => {
                let pos = busy.iter().position(|e| e.0 == ip && e.1 >= latency);
                let done = match pos {
                    Some(p) => {
                        busy.remove(p);
                        true
                    }
                    None => false,
                };
                s.answer(done)
            }
        };
    }
}

#[test]
fn empty_stream_produces_zero_cycles() {
    let (r, _) = run(vec![], 1);
    let r = r.unwrap();
    assert_eq!(r.total_cycles, 0);
    assert_eq!(r.completions, 0);
}

#[test]
fn linear_cpu_chain_accumulates_cycles() {
    let cmds = vec![cpu_cmd(2, 0, 1), cpu_cmd(17, 1, 2), cpu_cmd(4, 2, 3)];
    let (r, poked) = run(cmds, 1);
    let r = r.unwrap();
    assert_eq!(r.total_cycles, 6);
    assert_eq!(r.completions, 3);
    assert_eq!(r.ip_cycles(IpId::PtxEmulationCore), Some(6));
    assert!(poked.is_empty());
}

#[test]
fn stuck_dep_is_detected() {
    let (r, _) = run(vec![cpu_cmd(1, 42, 43)], 1);
    assert!(matches!(r, Err(FabricError::TokenResolutionStuck { .. })));
}

#[test]
fn stuck_reports_the_commands_left() {
    let (r, _) = run(vec![cpu_cmd(1, 0, 1), cpu_cmd(1, 42, 43), cpu_cmd(1, 43, 44)], 1);
    match r {
        Err(FabricError::TokenResolutionStuck { pending }) => assert_eq!(pending, 2),
        other => panic!("expected TokenResolutionStuck, got {:?}", other),
    }
}

#[test]
fn hardware_commands_are_poked_ticked_and_retired_in_token_order() {
    let stream = vec![
        cmd(IpId::NoCMesh, 0, 0, 1),
        cmd(IpId::SystolicArray4x4, 1, 1, 2),
        cpu_cmd(2, 2, 3),
    ];
    let (r, poked) = run(stream, 2);
    let r = r.unwrap();
    assert_eq!(r.completions, 3);
    assert_eq!(poked.len(), 2);
    assert_eq!(poked[0].0, IpId::NoCMesh);
    assert_eq!(poked[1].0, IpId::SystolicArray4x4);
    assert_eq!(r.ip_cycles(IpId::NoCMesh), Some(2));
    assert_eq!(r.ip_cycles(IpId::SystolicArray4x4), Some(2));
    assert_eq!(r.ip_cycles(IpId::PtxEmulationCore), Some(1));
    assert_eq!(r.ip_cycles(IpId::GemmIp), None);
    assert_eq!(r.total_cycles, 5);
}

#[test]
fn a_command_that_never_finishes_times_out() {
    let (r, _) = run(vec![cmd(IpId::NoCMesh, 0, 0, 1)], u32::MAX);
    assert!(matches!(r, Err(FabricError::DispatchTimeout { ip: IpId::NoCMesh, .. })));
}

#[test]
fn backend_choices_collect_every_annotated_op() {
    let mut ctx = Context::new();
    let mut b = FunctionBuilder::new(&mut ctx, "f");
    let a = b.add_op(Op::Dma { src: 0, dst: 8, bytes: 8 });
    let c = b.add_op(Op::Emu { opcode: 3, operands: vec![] });
    let mut m = Module::default();
    m.functions.push(b.finish());
    assert_eq!(backend_choices(&m).len(), 0);
    SelectBackend::default_policy().run(&mut m).unwrap();
    let choices = backend_choices(&m);
    assert_eq!(choices.len(), 2);
    assert_eq!(choices.get(&a), Some(&BackendChoice(IpId::NoCMesh)));
    assert_eq!(choices.get(&c), Some(&BackendChoice(IpId::PtxEmulationCore)));
}
