use slugarch::ir::error::{IrError, RtlmapDiff};
use slugarch::ir::graph::Edge;
use slugarch::ir::idmap::IdMap;
use slugarch::ir::module::{Context, Function, FunctionBuilder, Module};
use slugarch::ir::op::{ArithKind, Op, OpMeta, OperandRef, StateKind, TileKind};
use slugarch::ir::pass::{run_passes, Pass};
use slugarch::ir::passes::assign_tokens::assign_tokens_in;
use slugarch::ir::passes::select_backend::{gemm_tile_ip, AllEmuPolicy, BackendPolicy, DefaultPolicy, ForceIp};
use slugarch::ir::passes::validate_against_rtlmap::{parse_ip_id, PipelineEdge, PipelineNode, PipelineRtlmap};
use slugarch::ir::passes::{AssignTokens, FuseDecodeOps, SelectBackend, ValidateAgainstRtlmap};
use slugarch::ir::types::{BackendChoice, Dtype, IpId, OpId, Shape, TokenId};

fn arith(kind: ArithKind) -> Op {
    Op::Arith { kind, operands: vec![], dtype: Dtype::I32 }
}

fn mlp(operands: Vec<OperandRef>) -> Op {
    Op::StateStep { kind: StateKind::MlpStep, operands }
}

fn single_function_module(f: Function) -> Module {
    let mut m = Module::default();
    m.functions.push(f);
    m
}

// ---- types ----

#[test]
fn ip_catalog_names_are_unique_and_expected() {
    let names: Vec<&str> = IpId::all().iter().map(|ip| ip.catalog_name()).collect();
    let mut sorted = names.clone();
    sorted.sort();
    sorted.dedup();
    assert_eq!(sorted.len(), names.len(), "catalog names must be unique");
    assert!(names.contains(&"ptx_emulation_core"));
    assert!(names.contains(&"systolic_array_16x16"));
}

#[test]
fn ptx_emulation_is_the_only_cpu_backend() {
    let all = IpId::all();
    let cpu_ips: Vec<&IpId> = all.iter().filter(|ip| ip.is_cpu_backed()).collect();
    assert_eq!(cpu_ips.len(), 1);
    assert_eq!(cpu_ips[0], &IpId::PtxEmulationCore);
}

#[test]
fn shape_num_elements_matches_product() {
    let s = Shape(vec![16, 16, 4]);
    assert_eq!(s.rank(), 3);
    assert_eq!(s.num_elements(), 16 * 16 * 4);
}

#[test]
fn empty_shape_has_one_element() {
    let s = Shape(vec![]);
    assert_eq!(s.rank(), 0);
    assert_eq!(s.num_elements(), 1);
}

#[test]
fn catalog_names_parse_back_to_their_ip() {
    for ip in IpId::all() {
        assert_eq!(parse_ip_id(ip.catalog_name()), Some(ip));
    }
    assert_eq!(parse_ip_id("not_an_ip"), None);
    assert_eq!(parse_ip_id(""), None);
}

#[test]
fn all_lists_every_ip_once() {
    let all = IpId::all();
    assert_eq!(all.len(), 9);
    assert_eq!(all[0], IpId::SystolicArray4x4);
    assert_eq!(all[8], IpId::SlugCxl4x4);
    assert_eq!(IpId::SlugCxl4x4.catalog_name(), "slugcxl_4x4");
}

// ---- graph and module ----

#[test]
fn edge_accessors() {
    let e = Edge::Data(OpId(3), OpId(5));
    assert_eq!(e.src(), OpId(3));
    assert_eq!(e.dst(), OpId(5));
}

#[test]
fn token_edge_accessors() {
    let e = Edge::Token(OpId(7), OpId(1));
    assert_eq!(e.src(), OpId(7));
    assert_eq!(e.dst(), OpId(1));
}

#[test]
fn builder_assigns_unique_ids_in_order() {
    let mut ctx = Context::new();
    let mut b = FunctionBuilder::new(&mut ctx, "f");
    let a = b.add_op(arith(ArithKind::Add));
    let c = b.add_op(arith(ArithKind::Mul));
    let f = b.finish();
    assert_eq!(f.order, vec![a, c]);
    assert!(a < c);
    assert_eq!(f.ops.len(), 2);
    assert_eq!(f.meta.len(), 2);
}

#[test]
fn builder_continues_numbering_from_the_context() {
    let mut ctx = Context::new();
    let first = ctx.fresh_op();
    assert_eq!(first, OpId(0));
    let mut b = FunctionBuilder::new(&mut ctx, "g");
    let a = b.add_op(arith(ArithKind::Add));
    assert_eq!(a, OpId(1));
    let f = b.finish();
    assert_eq!(f.name, "g");
    assert_eq!(f.meta.get(&a), Some(&OpMeta::default()));
}

#[test]
fn edges_and_successors() {
    let mut ctx = Context::new();
    let mut b = FunctionBuilder::new(&mut ctx, "f");
    let a = b.add_op(arith(ArithKind::Add));
    let c = b.add_op(Op::Arith { kind: ArithKind::Mul, operands: vec![OperandRef::Op(a)], dtype: Dtype::I32 });
    b.add_edge(Edge::Data(a, c));
    let f = b.finish();
    let succs: Vec<OpId> = f.successors(a);
    assert_eq!(succs, vec![c]);
    let preds: Vec<OpId> = f.predecessors(c);
    assert_eq!(preds, vec![a]);
    assert!(f.successors(c).is_empty());
    assert!(f.predecessors(a).is_empty());
}

#[test]
fn id_map_insert_get_remove() {
    let mut m: IdMap<u32> = IdMap::new();
    assert_eq!(m.len(), 0);
    assert_eq!(m.insert(OpId(5), 50), None);
    assert_eq!(m.insert(OpId(2), 20), None);
    assert_eq!(m.insert(OpId(5), 55), Some(50));
    assert_eq!(m.len(), 2);
    assert_eq!(m.get(&OpId(5)), Some(&55));
    assert!(m.contains_key(&OpId(2)));
    assert_eq!(m.keys(), vec![OpId(2), OpId(5)]);
    assert_eq!(m.remove(&OpId(2)), Some(20));
    assert_eq!(m.remove(&OpId(2)), None);
    assert_eq!(m.len(), 1);
}

#[test]
fn tensor_tile_carries_shape_and_dtype() {
    let op = Op::TensorTile { kind: TileKind::Gemm, shape: Shape(vec![16, 16]), dtype: Dtype::F16, operands: vec![] };
    if let Op::TensorTile { shape, dtype, .. } = &op {
        assert_eq!(shape.0, vec![16, 16]);
        assert_eq!(*dtype, Dtype::F16);
    } else {
        panic!("unexpected Op variant");
    }
}

struct RenamerPass;

impl Pass for RenamerPass {
    fn name(&self) -> &'static str {
        "rename"
    }

    fn run(&mut self, module: &mut Module) -> Result<(), IrError> {
        for f in module.functions.iter_mut() {
            f.name = format!("renamed_{}", f.name);
        }
        Ok(())
    }
}

#[test]
fn run_passes_applies_each_pass_in_order() {
    let mut ctx = Context::new();
    let mut b = FunctionBuilder::new(&mut ctx, "original");
    b.add_op(arith(ArithKind::Add));
    let mut m = Module::default();
    m.functions.push(b.finish());

    let mut p1 = RenamerPass;
    let mut p2 = RenamerPass;
    run_passes(&mut m, &mut [&mut p1, &mut p2]).unwrap();
    assert_eq!(m.functions[0].name, "renamed_renamed_original");
}

#[test]
fn run_passes_with_no_passes_leaves_the_module() {
    let mut m = single_function_module(Function::new("kept"));
    let before = m.clone();
    run_passes(&mut m, &mut []).unwrap();
    assert_eq!(m, before);
}

// ---- assign_tokens ----

#[test]
fn linear_chain_tokens_increase_monotonically() {
    let mut ctx = Context::new();
    let mut b = FunctionBuilder::new(&mut ctx, "f");
    let a = b.add_op(arith(ArithKind::Add));
    let c = b.add_op(arith(ArithKind::Mul));
    let d = b.add_op(arith(ArithKind::Sub));
    b.add_edge(Edge::Data(a, c));
    b.add_edge(Edge::Data(c, d));
    let mut m = single_function_module(b.finish());
    AssignTokens.run(&mut m).unwrap();
    let f = &m.functions[0];
    let ma = f.meta.get(&a).unwrap();
    let mc = f.meta.get(&c).unwrap();
    let md = f.meta.get(&d).unwrap();
    assert_eq!(ma.token_in, Some(TokenId(0)));
    assert_eq!(ma.token_out, Some(TokenId(1)));
    assert_eq!(mc.token_in, Some(TokenId(1)));
    assert_eq!(mc.token_out, Some(TokenId(2)));
    assert_eq!(md.token_in, Some(TokenId(2)));
    assert_eq!(md.token_out, Some(TokenId(3)));
}

#[test]
fn cycle_is_detected() {
    let mut ctx = Context::new();
    let mut b = FunctionBuilder::new(&mut ctx, "f");
    let a = b.add_op(arith(ArithKind::Add));
    let c = b.add_op(arith(ArithKind::Mul));
    b.add_edge(Edge::Data(a, c));
    b.add_edge(Edge::Data(c, a));
    let mut m = single_function_module(b.finish());
    let err = AssignTokens.run(&mut m).unwrap_err();
    assert!(matches!(err, IrError::TokenGraphCycle { .. }));
}

#[test]
fn cycle_error_names_the_ops_left_out_and_keeps_the_function() {
    let mut ctx = Context::new();
    let mut b = FunctionBuilder::new(&mut ctx, "f");
    let a = b.add_op(arith(ArithKind::Add));
    let c = b.add_op(arith(ArithKind::Mul));
    let d = b.add_op(arith(ArithKind::Sub));
    b.add_edge(Edge::Data(c, d));
    b.add_edge(Edge::Data(d, c));
    let mut f = b.finish();
    let before = f.clone();
    let err = assign_tokens_in(&mut f).unwrap_err();
    assert_eq!(err, IrError::TokenGraphCycle { cycle: vec![c, d] });
    assert_eq!(f, before);
    assert!(f.meta.get(&a).unwrap().token_out.is_none());
}

#[test]
fn independent_ops_get_distinct_tokens() {
    let mut ctx = Context::new();
    let mut b = FunctionBuilder::new(&mut ctx, "f");
    let a = b.add_op(arith(ArithKind::Add));
    let c = b.add_op(arith(ArithKind::Mul));
    let mut m = single_function_module(b.finish());
    AssignTokens.run(&mut m).unwrap();
    let f = &m.functions[0];
    let ta = f.meta.get(&a).unwrap().token_out.unwrap();
    let tc = f.meta.get(&c).unwrap().token_out.unwrap();
    assert_ne!(ta, tc);
}

#[test]
fn tokens_follow_edges_against_insertion_order() {
    let mut ctx = Context::new();
    let mut b = FunctionBuilder::new(&mut ctx, "f");
    let a = b.add_op(arith(ArithKind::Add));
    let c = b.add_op(arith(ArithKind::Mul));
    b.add_edge(Edge::Token(c, a));
    let mut m = single_function_module(b.finish());
    AssignTokens.run(&mut m).unwrap();
    let f = &m.functions[0];
    let mc = f.meta.get(&c).unwrap();
    let ma = f.meta.get(&a).unwrap();
    assert_eq!(mc.token_in, Some(TokenId(0)));
    assert_eq!(mc.token_out, Some(TokenId(1)));
    assert_eq!(ma.token_in, Some(TokenId(1)));
    assert_eq!(ma.token_out, Some(TokenId(2)));
}

// ---- fuse_decode_ops ----

#[test]
fn chained_mlp_steps_fuse_into_one() {
    let mut ctx = Context::new();
    let mut b = FunctionBuilder::new(&mut ctx, "f");
    let a = b.add_op(mlp(vec![OperandRef::ImmU64(1)]));
    let c = b.add_op(mlp(vec![OperandRef::ImmU64(2)]));
    b.add_edge(Edge::Data(a, c));
    let mut m = single_function_module(b.finish());

    FuseDecodeOps.run(&mut m).unwrap();

    let f = &m.functions[0];
    assert_eq!(f.order.len(), 1);
    let fused = f.ops.get(&f.order[0]).unwrap();
    match fused {
        Op::StateStep { operands, .. } => assert_eq!(operands.len(), 2),
        _ => panic!("expected StateStep"),
    }
}

#[test]
fn chain_of_three_fuses_the_first_link_in_one_run() {
    let mut ctx = Context::new();
    let mut b = FunctionBuilder::new(&mut ctx, "f");
    let a = b.add_op(mlp(vec![OperandRef::ImmU64(1)]));
    let c = b.add_op(mlp(vec![OperandRef::ImmU64(2)]));
    let d = b.add_op(mlp(vec![OperandRef::ImmU64(3)]));
    b.add_edge(Edge::Data(a, c));
    b.add_edge(Edge::Data(c, d));
    let mut m = single_function_module(b.finish());
    FuseDecodeOps.run(&mut m).unwrap();
    let f = &m.functions[0];
    assert_eq!(f.order, vec![a, d]);
    assert_eq!(f.ops.get(&a), Some(&mlp(vec![OperandRef::ImmU64(1), OperandRef::ImmU64(2)])));
    assert_eq!(f.ops.get(&d), Some(&mlp(vec![OperandRef::ImmU64(3)])));
    assert!(f.ops.get(&c).is_none());
    assert!(f.meta.get(&c).is_none());
    assert!(f.edges.is_empty());
}

#[test]
fn non_mlp_steps_are_not_fused() {
    let mut ctx = Context::new();
    let mut b = FunctionBuilder::new(&mut ctx, "f");
    let a = b.add_op(Op::StateStep { kind: StateKind::RmsNorm, operands: vec![] });
    let c = b.add_op(Op::StateStep { kind: StateKind::AttnDecode, operands: vec![] });
    b.add_edge(Edge::Data(a, c));
    let mut m = single_function_module(b.finish());

    let before = m.clone();
    FuseDecodeOps.run(&mut m).unwrap();
    assert_eq!(m.functions[0].order.len(), 2);
    assert_eq!(m, before);
}

#[test]
fn independent_mlp_steps_are_not_fused() {
    let mut ctx = Context::new();
    let mut b = FunctionBuilder::new(&mut ctx, "f");
    b.add_op(mlp(vec![]));
    b.add_op(mlp(vec![]));
    let mut m = single_function_module(b.finish());

    FuseDecodeOps.run(&mut m).unwrap();
    assert_eq!(m.functions[0].order.len(), 2);
}

// ---- select_backend ----

#[test]
fn large_gemm_picks_32x32() {
    let op = Op::TensorTile { kind: TileKind::Gemm, shape: Shape(vec![256, 256]), dtype: Dtype::F16, operands: vec![] };
    assert_eq!(DefaultPolicy.pick(&op).0, IpId::SystolicArray32x32);
}

#[test]
fn small_gemm_picks_4x4() {
    let op = Op::TensorTile { kind: TileKind::Gemm, shape: Shape(vec![8, 8]), dtype: Dtype::F16, operands: vec![] };
    assert_eq!(DefaultPolicy.pick(&op).0, IpId::SystolicArray4x4);
}

#[test]
fn gemm_tile_thresholds() {
    assert_eq!(gemm_tile_ip(&Shape(vec![])), IpId::SystolicArray4x4);
    assert_eq!(gemm_tile_ip(&Shape(vec![4, 31])), IpId::SystolicArray4x4);
    assert_eq!(gemm_tile_ip(&Shape(vec![32, 2])), IpId::SystolicArray16x16);
    assert_eq!(gemm_tile_ip(&Shape(vec![3, 127])), IpId::SystolicArray16x16);
    assert_eq!(gemm_tile_ip(&Shape(vec![128])), IpId::SystolicArray32x32);
}

#[test]
fn state_step_picks_npu() {
    let op = Op::StateStep { kind: StateKind::RmsNorm, operands: vec![] };
    assert_eq!(DefaultPolicy.pick(&op).0, IpId::NpuArrayV4SeedG);
}

#[test]
fn dma_picks_noc() {
    let op = Op::Dma { src: 0, dst: 64, bytes: 32 };
    assert_eq!(DefaultPolicy.pick(&op).0, IpId::NoCMesh);
}

#[test]
fn emu_picks_ptx_emulation() {
    let op = Op::Emu { opcode: 1, operands: vec![OperandRef::ImmU64(0)] };
    assert_eq!(DefaultPolicy.pick(&op).0, IpId::PtxEmulationCore);
}

#[test]
fn force_ip_policy_overrides_everything() {
    let force = ForceIp(IpId::SystolicArray16x16, "all_16x16");
    let op = Op::Dma { src: 0, dst: 8, bytes: 8 };
    assert_eq!(force.pick(&op).0, IpId::SystolicArray16x16);
    assert_eq!(force.name(), "all_16x16");
    assert_eq!(DefaultPolicy.name(), "default_v1");
}

#[test]
fn all_emu_policy_routes_everything_to_the_emulation_core() {
    let op = Op::TensorTile { kind: TileKind::Gemm, shape: Shape(vec![256]), dtype: Dtype::F16, operands: vec![] };
    assert_eq!(AllEmuPolicy.pick(&op), BackendChoice(IpId::PtxEmulationCore));
    assert_eq!(AllEmuPolicy.pick(&Op::Dma { src: 0, dst: 0, bytes: 0 }).0, IpId::PtxEmulationCore);
    assert_eq!(AllEmuPolicy.name(), "all_emu_v1");
}

#[test]
fn pass_annotates_every_op() {
    let mut ctx = Context::new();
    let mut b = FunctionBuilder::new(&mut ctx, "f");
    b.add_op(Op::TensorTile { kind: TileKind::Gemm, shape: Shape(vec![64, 64]), dtype: Dtype::F16, operands: vec![] });
    b.add_op(Op::Dma { src: 0, dst: 8, bytes: 8 });
    let mut m = single_function_module(b.finish());
    SelectBackend::default_policy().run(&mut m).unwrap();
    let f = &m.functions[0];
    for id in f.meta.keys() {
        assert!(f.meta.get(&id).unwrap().backend.is_some());
    }
}

#[test]
fn selecting_twice_changes_nothing() {
    let mut ctx = Context::new();
    let mut b = FunctionBuilder::new(&mut ctx, "f");
    b.add_op(Op::Dma { src: 0, dst: 8, bytes: 8 });
    b.add_op(Op::StateStep { kind: StateKind::RmsNorm, operands: vec![] });
    let mut m = single_function_module(b.finish());
    SelectBackend::default_policy().run(&mut m).unwrap();
    let once = m.clone();
    SelectBackend::default_policy().run(&mut m).unwrap();
    assert_eq!(m, once);
}

#[test]
fn forced_pass_annotates_every_op_with_the_forced_ip() {
    let mut ctx = Context::new();
    let mut b = FunctionBuilder::new(&mut ctx, "f");
    let a = b.add_op(arith(ArithKind::Add));
    let c = b.add_op(Op::Dma { src: 0, dst: 8, bytes: 8 });
    let mut m = single_function_module(b.finish());
    SelectBackend::new(ForceIp(IpId::GemmIp, "gemm_everywhere")).run(&mut m).unwrap();
    let f = &m.functions[0];
    assert_eq!(f.meta.get(&a).unwrap().backend, Some(BackendChoice(IpId::GemmIp)));
    assert_eq!(f.meta.get(&c).unwrap().backend, Some(BackendChoice(IpId::GemmIp)));
}

// ---- validate_against_rtlmap ----

fn hand_made_oracle() -> PipelineRtlmap {
    PipelineRtlmap {
        name: "test".to_string(),
        nodes: vec![
            PipelineNode {
                node_id: "n0".to_string(),
                op: "rms_norm".to_string(),
                selected_ip: "npu_array_v4_seed_g".to_string(),
            },
            PipelineNode {
                node_id: "n1".to_string(),
                op: "gemm_qkv".to_string(),
                selected_ip: "systolic_array_16x16".to_string(),
            },
        ],
        edges: vec![PipelineEdge { from: "n0".to_string(), to: "n1".to_string(), channel: "token".to_string() }],
    }
}

fn annotated(backend: IpId, hint: &str) -> OpMeta {
    OpMeta { backend: Some(BackendChoice(backend)), source_hint: Some(hint.to_string()), ..Default::default() }
}

fn hint_map() -> Vec<(String, String)> {
    vec![("h0".to_string(), "n0".to_string()), ("h1".to_string(), "n1".to_string())]
}

#[test]
fn matching_module_produces_empty_diff() {
    let mut ctx = Context::new();
    let mut b = FunctionBuilder::new(&mut ctx, "test");
    let a = b.add_op(Op::StateStep { kind: StateKind::RmsNorm, operands: vec![] });
    let c = b.add_op(Op::TensorTile {
        kind: TileKind::Gemm,
        shape: Shape(vec![64, 64]),
        dtype: Dtype::F16,
        operands: vec![],
    });
    b.add_edge(Edge::Data(a, c));
    let mut f = b.finish();
    f.meta.insert(a, annotated(IpId::NpuArrayV4SeedG, "h0"));
    f.meta.insert(c, annotated(IpId::SystolicArray16x16, "h1"));
    let mut m = single_function_module(f);

    let mut pass = ValidateAgainstRtlmap {
        oracle: hand_made_oracle(),
        function_name: "test".to_string(),
        node_id_of_hint: hint_map(),
    };
    pass.run(&mut m).expect("should match");
}

#[test]
fn wrong_ip_produces_error() {
    let mut ctx = Context::new();
    let mut b = FunctionBuilder::new(&mut ctx, "test");
    let a = b.add_op(Op::StateStep { kind: StateKind::RmsNorm, operands: vec![] });
    let c = b.add_op(Op::StateStep { kind: StateKind::RmsNorm, operands: vec![] });
    b.add_edge(Edge::Data(a, c));
    let mut f = b.finish();
    f.meta.insert(a, annotated(IpId::NpuArrayV4SeedG, "h0"));
    f.meta.insert(c, annotated(IpId::NoCMesh, "h1"));
    let mut m = single_function_module(f);

    let mut pass = ValidateAgainstRtlmap {
        oracle: hand_made_oracle(),
        function_name: "test".to_string(),
        node_id_of_hint: hint_map(),
    };
    match pass.run(&mut m) {
        Err(IrError::OracleMismatch { diff }) => {
            let text = format!("{:?}", diff);
            assert!(text.contains("noc_mesh"));
            assert!(text.contains("systolic_array_16x16"));
            assert_eq!(
                diff.wrong_ip,
                vec![("n1".to_string(), "systolic_array_16x16".to_string(), "noc_mesh".to_string())]
            );
            assert!(diff.missing_nodes.is_empty());
            assert!(diff.extra_nodes.is_empty());
        }
        other => panic!("expected OracleMismatch, got {:?}", other),
    }
}

#[test]
fn missing_function_is_a_pass_failure() {
    let mut m = single_function_module(Function::new("other"));
    let mut pass = ValidateAgainstRtlmap {
        oracle: hand_made_oracle(),
        function_name: "test".to_string(),
        node_id_of_hint: hint_map(),
    };
    match pass.run(&mut m) {
        Err(IrError::PassFailed { pass, node, .. }) => {
            assert_eq!(pass, "validate_against_rtlmap");
            assert_eq!(node, None);
        }
        other => panic!("expected PassFailed, got {:?}", other),
    }
}

#[test]
fn unmatched_nodes_and_edges_are_reported() {
    let mut ctx = Context::new();
    let mut b = FunctionBuilder::new(&mut ctx, "test");
    let a = b.add_op(Op::StateStep { kind: StateKind::RmsNorm, operands: vec![] });
    let mut f = b.finish();
    f.meta.insert(a, annotated(IpId::NpuArrayV4SeedG, "h0"));
    let mut m = single_function_module(f);
    let mut pass = ValidateAgainstRtlmap {
        oracle: hand_made_oracle(),
        function_name: "test".to_string(),
        node_id_of_hint: hint_map(),
    };
    match pass.run(&mut m) {
        Err(IrError::OracleMismatch { diff }) => {
            assert_eq!(diff.missing_nodes, vec!["n1".to_string()]);
            assert!(diff.extra_nodes.is_empty());
            assert!(diff.wrong_ip.is_empty());
            assert_eq!(diff.edge_diff.len(), 1);
            assert!(!diff.is_empty());
        }
        other => panic!("expected OracleMismatch, got {:?}", other),
    }
}

#[test]
fn default_diff_is_empty() {
    let d = RtlmapDiff::default();
    assert!(d.is_empty());
}

// ---- the four passes together ----

#[test]
fn four_passes_run_end_to_end_on_synthetic_module() {
    let mut ctx = Context::new();
    let mut b = FunctionBuilder::new(&mut ctx, "tiny");
    let rms = b.add_op(Op::StateStep { kind: StateKind::RmsNorm, operands: vec![] });
    let gemm = b.add_op(Op::TensorTile {
        kind: TileKind::Gemm,
        shape: Shape(vec![64, 64]),
        dtype: Dtype::F16,
        operands: vec![],
    });
    let attn = b.add_op(Op::StateStep { kind: StateKind::AttnDecode, operands: vec![] });
    b.add_edge(Edge::Data(rms, gemm));
    b.add_edge(Edge::Data(gemm, attn));
    let mut m = single_function_module(b.finish());

    FuseDecodeOps.run(&mut m).unwrap();
    SelectBackend::default_policy().run(&mut m).unwrap();
    AssignTokens.run(&mut m).unwrap();

    let f = &m.functions[0];
    for id in &f.order {
        let meta = f.meta.get(id).unwrap();
        assert!(meta.backend.is_some(), "op {id:?} missing backend");
        assert!(meta.token_in.is_some() && meta.token_out.is_some(), "op {id:?} missing tokens");
    }
    let gemm_ip = f.meta.get(&gemm).unwrap().backend.unwrap().0;
    assert_eq!(gemm_ip, IpId::SystolicArray16x16);
}
