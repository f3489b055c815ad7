use slugarch::backend::bindings::{
    GemmIpBinding, NoCMeshBinding, NpuClusterBinding, NpuSeedGBinding, PtxEmulationBinding, SystolicBinding,
};
use slugarch::backend::dispatch::{BackendBinding, BindCtx, BindError};
use slugarch::backend::emit::emit_dispatches;
use slugarch::ir::graph::Edge;
use slugarch::ir::module::{Context, FunctionBuilder, Module};
use slugarch::ir::op::{Op, OperandRef, StateKind, TileKind};
use slugarch::ir::pass::Pass;
use slugarch::ir::passes::{AssignTokens, SelectBackend};
use slugarch::ir::types::{Dtype, IpId, Shape, TokenId};

fn ctx() -> BindCtx<'static> {
    BindCtx { token_in: TokenId(0), token_out: TokenId(1), source_hint: None, policy: None }
}

fn gemm(dims: Vec<u32>) -> Op {
    Op::TensorTile { kind: TileKind::Gemm, shape: Shape(dims), dtype: Dtype::F16, operands: vec![] }
}

#[test]
fn gemm_ip_forwards_to_systolic_encoding() {
    let cmds = GemmIpBinding.bind(&gemm(vec![8, 8]), &ctx()).unwrap();
    assert_eq!(cmds[0].ip, IpId::GemmIp);
    assert_eq!(cmds[0].opcode, 1);
}

#[test]
fn dma_packs_src_dst_bytes() {
    let op = Op::Dma { src: 0xdead_beef, dst: 0xcafe_f00d, bytes: 256 };
    let cmds = NoCMeshBinding.bind(&op, &ctx()).unwrap();
    assert_eq!(cmds[0].opcode, 0);
    let src = u64::from_le_bytes(cmds[0].token[0..8].try_into().unwrap());
    let dst = u64::from_le_bytes(cmds[0].token[8..16].try_into().unwrap());
    let bytes = u64::from_le_bytes(cmds[0].token[16..24].try_into().unwrap());
    assert_eq!(src, 0xdead_beef);
    assert_eq!(dst, 0xcafe_f00d);
    assert_eq!(bytes, 256);
    assert_eq!(&cmds[0].token[24..32], &[0u8; 8]);
}

#[test]
fn cluster_forwards_to_seed_g_opcode_with_cluster_ip() {
    let op = Op::StateStep { kind: StateKind::AttnDecode, operands: vec![] };
    let cmds = NpuClusterBinding.bind(&op, &ctx()).unwrap();
    assert_eq!(cmds[0].ip, IpId::NpuClusterV4);
    assert_eq!(cmds[0].opcode, 2);
}

#[test]
fn rms_norm_maps_to_opcode_1() {
    let b = NpuSeedGBinding;
    let op = Op::StateStep { kind: StateKind::RmsNorm, operands: vec![] };
    let cmds = b.bind(&op, &ctx()).unwrap();
    assert_eq!(cmds.len(), 1);
    assert_eq!(cmds[0].opcode, 1);
}

#[test]
fn npu_token_carries_the_operand_count() {
    let op = Op::StateStep {
        kind: StateKind::DecodeGeneric,
        operands: vec![OperandRef::ImmU64(1), OperandRef::Addr(4), OperandRef::ImmF32(0)],
    };
    let cmds = NpuSeedGBinding.bind(&op, &ctx()).unwrap();
    assert_eq!(cmds[0].opcode, 4);
    assert_eq!(u32::from_le_bytes(cmds[0].token[..4].try_into().unwrap()), 3);
}

#[test]
fn emu_passes_opcode_through() {
    let op = Op::Emu { opcode: 17, operands: vec![OperandRef::ImmU64(0)] };
    let cmds = PtxEmulationBinding.bind(&op, &ctx()).unwrap();
    assert_eq!(cmds[0].opcode, 17);
    assert_eq!(cmds[0].ip, IpId::PtxEmulationCore);
}

#[test]
fn systolic_gemm_emits_one_cmd_with_shape_product() {
    let b = SystolicBinding(IpId::SystolicArray16x16);
    let c = BindCtx { token_in: TokenId(1), token_out: TokenId(2), source_hint: None, policy: None };
    let cmds = b.bind(&gemm(vec![16, 16]), &c).unwrap();
    assert_eq!(cmds.len(), 1);
    assert_eq!(cmds[0].ip, IpId::SystolicArray16x16);
    assert_eq!(cmds[0].opcode, 1);
    let prod = u32::from_le_bytes(cmds[0].token[..4].try_into().unwrap());
    assert_eq!(prod, 256);
    assert_eq!(cmds[0].token_in, TokenId(1));
    assert_eq!(cmds[0].token_out, TokenId(2));
}

#[test]
fn binding_stamps_the_context() {
    let c = BindCtx { token_in: TokenId(4), token_out: TokenId(5), source_hint: Some("ptx:9"), policy: Some("p") };
    let cmds = SystolicBinding(IpId::SystolicArray4x4).bind(&gemm(vec![2, 3]), &c).unwrap();
    assert_eq!(cmds[0].meta.source_hint.as_deref(), Some("ptx:9"));
    assert_eq!(cmds[0].meta.policy.as_deref(), Some("p"));
    assert_eq!(u32::from_le_bytes(cmds[0].token[..4].try_into().unwrap()), 6);
}

#[test]
fn binding_refuses_ops_its_ip_does_not_take() {
    let op = Op::Dma { src: 0, dst: 8, bytes: 8 };
    match SystolicBinding(IpId::SystolicArray32x32).bind(&op, &ctx()) {
        Err(BindError::NoBindingForChoice { choice, op_desc }) => {
            assert_eq!(choice, IpId::SystolicArray32x32);
            assert_eq!(op_desc, format!("{:?}", op));
        }
        other => panic!("expected NoBindingForChoice, got {:?}", other),
    }
    assert!(matches!(
        NoCMeshBinding.bind(&gemm(vec![4]), &ctx()),
        Err(BindError::NoBindingForChoice { choice: IpId::NoCMesh, .. })
    ));
}

#[test]
fn binding_ips() {
    assert_eq!(GemmIpBinding.ip(), IpId::GemmIp);
    assert_eq!(NoCMeshBinding.ip(), IpId::NoCMesh);
    assert_eq!(NpuSeedGBinding.ip(), IpId::NpuArrayV4SeedG);
    assert_eq!(NpuClusterBinding.ip(), IpId::NpuClusterV4);
    assert_eq!(PtxEmulationBinding.ip(), IpId::PtxEmulationCore);
    assert_eq!(SystolicBinding(IpId::SystolicArray16x16).ip(), IpId::SystolicArray16x16);
}

fn annotated_pipeline() -> Module {
    let mut ctx = Context::new();
    let mut b = FunctionBuilder::new(&mut ctx, "tiny");
    let rms = b.add_op(Op::StateStep { kind: StateKind::RmsNorm, operands: vec![] });
    let g = b.add_op(gemm(vec![64, 64]));
    let add = b.add_op(Op::Arith { kind: slugarch::ir::op::ArithKind::Add, operands: vec![], dtype: Dtype::I32 });
    b.add_edge(Edge::Data(rms, g));
    b.add_edge(Edge::Data(g, add));
    let mut m = Module::default();
    m.functions.push(b.finish());
    SelectBackend::default_policy().run(&mut m).unwrap();
    AssignTokens.run(&mut m).unwrap();
    m
}

#[test]
fn emit_binds_each_op_in_order_with_its_tokens() {
    let m = annotated_pipeline();
    let cmds = emit_dispatches(&m, "default_v1").unwrap();
    assert_eq!(cmds.len(), 3);
    assert_eq!(cmds[0].ip, IpId::NpuArrayV4SeedG);
    assert_eq!(cmds[0].opcode, 1);
    assert_eq!(cmds[1].ip, IpId::SystolicArray16x16);
    assert_eq!(u32::from_le_bytes(cmds[1].token[..4].try_into().unwrap()), 4096);
    assert_eq!(cmds[2].ip, IpId::PtxEmulationCore);
    assert_eq!(cmds[2].opcode, 253);
    for (i, c) in cmds.iter().enumerate() {
        assert_eq!(c.token_in, TokenId(i as u32));
        assert_eq!(c.token_out, TokenId(i as u32 + 1));
        assert_eq!(c.meta.policy.as_deref(), Some("default_v1"));
    }
}

#[test]
fn emit_refuses_the_cxl_endpoint() {
    let mut m = annotated_pipeline();
    SelectBackend::new(slugarch::ir::passes::select_backend::ForceIp(IpId::SlugCxl4x4, "cxl")).run(&mut m).unwrap();
    match emit_dispatches(&m, "cxl") {
        Err(BindError::NoBindingForChoice { choice, .. }) => assert_eq!(choice, IpId::SlugCxl4x4),
        other => panic!("expected NoBindingForChoice, got {:?}", other),
    }
}

#[test]
fn a_tile_routed_to_the_emulation_core_binds_whatever_its_shape() {
    let big = gemm(vec![65536, 65536, 2]);
    let mut ctx = Context::new();
    let mut b = FunctionBuilder::new(&mut ctx, "wide");
    b.add_op(big);
    let mut m = Module::default();
    m.functions.push(b.finish());
    SelectBackend::new(slugarch::ir::passes::select_backend::AllEmuPolicy).run(&mut m).unwrap();
    AssignTokens.run(&mut m).unwrap();
    let cmds = emit_dispatches(&m, "all_emu_v1").unwrap();
    assert_eq!(cmds.len(), 1);
    assert_eq!(cmds[0].ip, IpId::PtxEmulationCore);
    assert_eq!(cmds[0].opcode, 253);
    assert_eq!(cmds[0].token_in, TokenId(0));
    assert_eq!(cmds[0].token_out, TokenId(1));
}
