use slugarch::host::dispatch::{build_gemm_dispatch_stream, DISPATCH_ADDR};
use slugarch::host::qemu_type2::{expected_for_job, matmul, request_bytes, summarize_responses, summary_csv, QemuType2Summary};
use slugarch::host::replay::{
    gemm_epoch, parse_cxl_record_mode, provenance_label, result_commitment, stable_hash64, CxlRecordMode,
    CxlRecordPolicy, CxlRecordedRun, CxlTraceRecorder, PayloadCapture,
};
use slugarch::host::bar2_files::{bar2_evidence_from_files, run_evidence_of, Bar2RunFiles};
use slugarch::host::provenance::provenance_counts;
use slugarch::host::result::decode_results;
use slugarch::host::session::{HostAction, HostCore, FLIT_TIMEOUT_TICKS};
use slugarch::host::sim_feasible::{
    claim_ledger, dax_probe, summarize_bar2_runs, Bar2RunEvidence, ClaimLedgerEntry, ClaimStatus, DaxProbeStatus,
};
use slugarch::host::text::{decimal_string, join, starts_with, str_le};
use slugarch::host::{GemmJob, GemmResult, HostError};
use slugarch::wire::{decode, encode, CxlMsg, FlitBytes, M2SReqOp, M2SRwDOp, S2MDRSOp, S2MNDROp, FLIT_BYTES};

fn sample_job() -> GemmJob {
    GemmJob {
        a: [[1, 2, 3, 4], [5, 6, 7, 8], [9, 10, 11, 12], [13, 14, 15, 16]],
        b: [[1, 0, 0, 0], [0, 1, 0, 0], [0, 0, 1, 0], [0, 0, 0, 1]],
    }
}

fn identity_job() -> GemmJob {
    GemmJob {
        a: [[1, 0, 0, 0], [0, 1, 0, 0], [0, 0, 1, 0], [0, 0, 0, 1]],
        b: [[2, 3, 4, 5], [6, 7, 8, 9], [10, 11, 12, 13], [14, 15, 16, 17]],
    }
}

fn token_of(data: &[u8; 32]) -> u32 {
    u32::from_le_bytes(data[..4].try_into().unwrap())
}

// ---- dispatch stream ----

#[test]
fn stream_has_49_messages() {
    let s = build_gemm_dispatch_stream(&sample_job(), 0);
    assert_eq!(s.len(), 49);
}

#[test]
fn first_16_are_load_a() {
    let s = build_gemm_dispatch_stream(&sample_job(), 100);
    for (i, m) in s[..16].iter().enumerate() {
        match m {
            CxlMsg::M2SRwD { tag, opcode, addr, data } => {
                assert_eq!(*tag, 100 + i as u16);
                assert_eq!(*opcode, M2SRwDOp::MemWr);
                assert_eq!(*addr, DISPATCH_ADDR);
                let token = token_of(data);
                assert_eq!((token >> 2) & 1, 1, "load_valid bit");
                assert_eq!((token >> 3) & 1, 0, "load_matrix_sel = 0 (A)");
                assert_eq!((token >> 4) & 0xFF, i as u32, "load_addr");
            }
            _ => panic!("expected M2SRwD for load A"),
        }
    }
}

#[test]
fn load_tokens_carry_the_matrix_bytes() {
    let job = sample_job();
    let s = build_gemm_dispatch_stream(&job, 0);
    for i in 0..32 {
        match &s[i] {
            CxlMsg::M2SRwD { data, .. } => {
                let token = token_of(data);
                let (r, c) = ((i % 16) / 4, i % 4);
                let byte = if i < 16 { job.a[r][c] } else { job.b[r][c] };
                assert_eq!((token >> 12) & 0xFF, byte as u32);
                assert!(data[4..].iter().all(|b| *b == 0));
            }
            _ => panic!("expected M2SRwD"),
        }
    }
}

#[test]
fn middle_16_are_load_b() {
    let s = build_gemm_dispatch_stream(&sample_job(), 0);
    for m in &s[16..32] {
        match m {
            CxlMsg::M2SRwD { data, .. } => {
                let token = token_of(data);
                assert_eq!((token >> 3) & 1, 1, "load_matrix_sel = 1 (B)");
            }
            _ => panic!("expected M2SRwD for load B"),
        }
    }
}

#[test]
fn message_32_is_compute() {
    let s = build_gemm_dispatch_stream(&sample_job(), 0);
    match &s[32] {
        CxlMsg::M2SRwD { data, .. } => {
            let token = token_of(data);
            assert_eq!((token >> 20) & 1, 1, "compute_valid bit");
        }
        _ => panic!("expected M2SRwD for compute"),
    }
}

#[test]
fn last_16_are_reads_with_token_in_addr_high() {
    let s = build_gemm_dispatch_stream(&sample_job(), 0);
    for (i, m) in s[33..].iter().enumerate() {
        match m {
            CxlMsg::M2SReq { opcode, addr, .. } => {
                assert_eq!(*opcode, M2SReqOp::MemRd);
                assert_eq!(*addr & 0xFFFF, DISPATCH_ADDR & 0xFFFF);
                let token = (*addr >> 32) as u32;
                assert_eq!((token >> 21) & 1, 1, "read_valid");
                assert_eq!((token >> 22) & 0xFF, i as u32, "read_addr = {}", i);
            }
            _ => panic!("expected M2SReq for read"),
        }
    }
}

#[test]
fn tags_wrap_around() {
    let s = build_gemm_dispatch_stream(&sample_job(), 0xFFFF);
    assert_eq!(s[0].tag(), 0xFFFF);
    assert_eq!(s[1].tag(), 0);
    assert_eq!(s[48].tag(), 47);
}

// ---- result decoding ----

fn drs(tag: u16, b0: u8, b1: u8, b2: u8) -> CxlMsg {
    let mut data = [0u8; 32];
    data[0] = b0;
    data[1] = b1;
    data[2] = b2;
    CxlMsg::S2MDRS { tag, opcode: S2MDRSOp::MemData, data }
}

#[test]
fn decodes_identity_row_major() {
    let mut responses: Vec<CxlMsg> = Vec::new();
    for i in 0..16u8 {
        responses.push(drs(i as u16, i, 0, 0));
    }
    let c = decode_results(&responses).unwrap();
    assert_eq!(c[0], [0, 1, 2, 3]);
    assert_eq!(c[3], [12, 13, 14, 15]);
}

#[test]
fn decodes_multi_byte_accumulators() {
    let mut responses = vec![drs(0, 0xFF, 0x7F, 0x00)];
    for i in 1..16u8 {
        responses.push(drs(i as u16, 0, 0, 0));
    }
    let c = decode_results(&responses).unwrap();
    assert_eq!(c[0][0], 0x00_7FFF);
}

#[test]
fn non_drs_response_errors() {
    let mut responses = vec![CxlMsg::S2MNDR { tag: 0, opcode: S2MNDROp::DispatchFailed }];
    for _ in 1..16 {
        responses.push(drs(0, 0, 0, 0));
    }
    let err = decode_results(&responses).unwrap_err();
    assert!(matches!(err, HostError::DispatchFailed { .. }));
}

#[test]
fn wrong_response_count_errors() {
    let responses = vec![drs(0, 1, 0, 0); 15];
    match decode_results(&responses) {
        Err(HostError::DispatchFailed { tag, reason }) => {
            assert_eq!(tag, 0);
            assert_eq!(reason, "expected 16 responses, got 15");
        }
        other => panic!("expected DispatchFailed, got {:?}", other),
    }
}

// ---- a software model of the GEMM endpoint ----

/// Answers each request after `latency` ticks: a completion for a write
/// (loading a matrix byte, or computing), the product cell for a read.
struct ModelEndpoint {
    a: [[u8; 4]; 4],
    b: [[u8; 4]; 4],
    c: [[u32; 4]; 4],
    latency: u32,
    pending: Option<(u32, CxlMsg)>,
    corrupt_tag: Option<u16>,
    reject_tag: Option<u16>,
    garbage_tag: Option<u16>,
    silent: bool,
}

impl ModelEndpoint {
    fn new(latency: u32) -> Self {
        ModelEndpoint {
            a: [[0; 4]; 4],
            b: [[0; 4]; 4],
            c: [[0; 4]; 4],
            latency,
            pending: None,
            corrupt_tag: None,
            reject_tag: None,
            garbage_tag: None,
            silent: false,
        }
    }

    fn accept(&mut self, flit: &FlitBytes) {
        let response = match decode(flit).unwrap() {
            CxlMsg::M2SRwD { tag, data, .. } => {
                let token = token_of(&data);
                if (token >> 2) & 1 == 1 {
                    let addr = ((token >> 4) & 0xFF) as usize;
                    let byte = ((token >> 12) & 0xFF) as u8;
                    if (token >> 3) & 1 == 0 {
                        self.a[addr / 4][addr % 4] = byte;
                    } else {
                        self.b[addr / 4][addr % 4] = byte;
                    }
                }
                if (token >> 20) & 1 == 1 {
                    for r in 0..4 {
                        for c in 0..4 {
                            self.c[r][c] = (0..4).map(|k| self.a[r][k] as u32 * self.b[k][c] as u32).sum();
                        }
                    }
                }
                CxlMsg::S2MNDR { tag, opcode: S2MNDROp::Cmp }
            }
            CxlMsg::M2SReq { tag, addr, .. } => {
                let token = (addr >> 32) as u32;
                let cell = ((token >> 22) & 0xFF) as usize;
                let v = self.c[cell / 4][cell % 4];
                let mut data = [0u8; 32];
                data[..4].copy_from_slice(&v.to_le_bytes());
                CxlMsg::S2MDRS { tag, opcode: S2MDRSOp::MemData, data }
            }
            other => panic!("unexpected request {:?}", other),
        };
        let response = match (self.corrupt_tag, response) {
            (Some(t), CxlMsg::S2MNDR { tag, opcode }) if t == tag => CxlMsg::S2MNDR { tag: tag ^ 0x8000, opcode },
            (_, r) => r,
        };
        let response = match (self.reject_tag, response) {
            (Some(t), r) if r.tag() == t => CxlMsg::S2MNDR { tag: t, opcode: S2MNDROp::DispatchFailed },
            (_, r) => r,
        };
        self.pending = Some((0, response));
    }

    fn encode_response(&self, msg: &CxlMsg) -> FlitBytes {
        let mut flit = encode(msg);
        if self.garbage_tag == Some(msg.tag()) {
            flit[60] = 1;
        }
        flit
    }

    fn tick(&mut self) -> Option<FlitBytes> {
        if self.silent {
            return None;
        }
        match self.pending.take() {
            Some((waited, msg)) if waited + 1 >= self.latency => Some(self.encode_response(&msg)),
            Some((waited, msg)) => {
                self.pending = Some((waited + 1, msg));
                None
            }
            None => None,
        }
    }
}

fn drive(
    host: &mut HostCore,
    ep: &mut ModelEndpoint,
    job: &GemmJob,
    policy: Option<CxlRecordPolicy>,
) -> (Result<GemmResult, HostError>, Option<CxlTraceRecorder>) {
    let mut cycles: u64 = 0;
    let (mut session, mut action) = host.start_gemm(job, cycles, policy);
    loop {
        action = match action {
            HostAction::Send(flit) => {
                ep.accept(&flit);
                cycles += 1;
                session.on_tick(cycles, ep.tick())
            }
            HostAction::Tick => {
                cycles += 1;
                session.on_tick(cycles, ep.tick())
            }
            HostAction::Done(r) => return (r, session.into_recorder()),
        };
    }
}

fn run_gemm(job: &GemmJob) -> Result<GemmResult, HostError> {
    drive(&mut HostCore::new(), &mut ModelEndpoint::new(2), job, None).0
}

fn run_gemm_recorded(job: &GemmJob, policy: CxlRecordPolicy) -> CxlRecordedRun {
    let (r, recorder) = drive(&mut HostCore::new(), &mut ModelEndpoint::new(2), job, Some(policy));
    let result = r.unwrap();
    let recorder = recorder.unwrap();
    let sizes: Vec<Option<u64>> = vec![None; 98];
    let artifact = recorder.finish(&result, &sizes);
    CxlRecordedRun { result, artifact }
}

#[test]
fn identity_times_constant_matches_expected() {
    let result = run_gemm(&identity_job()).unwrap();
    assert_eq!(
        result.c,
        [[2, 3, 4, 5], [6, 7, 8, 9], [10, 11, 12, 13], [14, 15, 16, 17]],
        "expected I*B=B, got {:?}",
        result.c
    );
    assert!(result.cycles > 50, "cycles too low: {}", result.cycles);
    assert!(result.cycles < 5000, "cycles too high: {}", result.cycles);
    assert_eq!(result.flits_sent, 49);
    assert_eq!(result.flits_received, 49);
}

#[test]
fn gemm_result_is_the_product_and_counts_cycles() {
    let result = run_gemm(&sample_job()).unwrap();
    assert_eq!(result.c, matmul(&sample_job()));
    assert_eq!(result.c[3], [13, 14, 15, 16]);
    assert_eq!(result.cycles, 98);
}

#[test]
fn running_same_job_twice_is_byte_identical() {
    let r1 = run_gemm(&sample_job()).unwrap();
    let r2 = run_gemm(&sample_job()).unwrap();
    assert_eq!(r1, r2, "GemmResult must be byte-identical across runs");
}

#[test]
fn second_run_on_a_host_uses_fresh_tags() {
    let mut host = HostCore::new();
    let job = sample_job();
    let first = drive(&mut host, &mut ModelEndpoint::new(1), &job, None).0.unwrap();
    let (second, _) = drive(&mut host, &mut ModelEndpoint::new(1), &job, Some(CxlRecordPolicy::gemm(CxlRecordMode::Validation)));
    assert_eq!(first.c, second.unwrap().c);
    let (_, recorder) = drive(&mut host, &mut ModelEndpoint::new(1), &job, Some(CxlRecordPolicy::gemm(CxlRecordMode::Validation)));
    let artifact = recorder.unwrap().finish(&first, &vec![None; 98]);
    assert_eq!(artifact.records[0].tag, 98);
}

#[test]
fn silent_endpoint_times_out() {
    let mut ep = ModelEndpoint::new(1);
    ep.silent = true;
    let (r, _) = drive(&mut HostCore::new(), &mut ep, &sample_job(), None);
    assert_eq!(r, Err(HostError::FlitTimeout { ticks: FLIT_TIMEOUT_TICKS + 1 }));
}

#[test]
fn wrong_response_tag_is_reported() {
    let mut ep = ModelEndpoint::new(1);
    ep.corrupt_tag = Some(5);
    let (r, _) = drive(&mut HostCore::new(), &mut ep, &sample_job(), None);
    assert_eq!(r, Err(HostError::UnexpectedTag { got: 5 ^ 0x8000, outstanding: vec![5] }));
}

#[test]
fn rejected_dispatch_is_reported_with_its_index() {
    let mut ep = ModelEndpoint::new(1);
    ep.reject_tag = Some(3);
    let (r, _) = drive(&mut HostCore::new(), &mut ep, &sample_job(), None);
    assert_eq!(r, Err(HostError::DispatchFailed { tag: 3, reason: "endpoint rejected dispatch #3".to_string() }));
}

#[test]
fn undecodable_response_ends_the_run() {
    let mut ep = ModelEndpoint::new(1);
    ep.garbage_tag = Some(7);
    let (r, recorder) = drive(&mut HostCore::new(), &mut ep, &sample_job(), Some(CxlRecordPolicy::gemm(CxlRecordMode::Full)));
    assert_eq!(r, Err(HostError::WireDecode(slugarch::wire::WireError::ReservedBitsSet)));
    let artifact = recorder.unwrap().finish(&GemmResult { c: [[0; 4]; 4], cycles: 0, flits_sent: 0, flits_received: 0 }, &vec![None; 15]);
    assert_eq!(artifact.records.len(), 15);
}

#[test]
fn recorded_run_has_one_record_per_boundary_flit() {
    let run = run_gemm_recorded(&identity_job(), CxlRecordPolicy::gemm(CxlRecordMode::Validation));
    assert_eq!(run.artifact.summary.record_count, 98);
    assert_eq!(run.artifact.summary.epoch_count, 4);
    assert_eq!(run.artifact.summary.application_flit_bytes, 98 * 64);
    assert_eq!(run.artifact.records[0].epoch, 0);
    assert_eq!(run.artifact.records[64].epoch, 2);
    assert_eq!(run.artifact.records[97].epoch, 3);
}

#[test]
fn records_alternate_requests_and_responses() {
    let run = run_gemm_recorded(&identity_job(), CxlRecordPolicy::gemm(CxlRecordMode::Validation));
    let records = &run.artifact.records;
    assert_eq!(records[0].opcode, "MemWr");
    assert_eq!(records[0].dependencies, Vec::<u16>::new());
    assert_eq!(records[1].tag, 0);
    assert_eq!(records[2].dependencies, vec![0]);
    assert!(records[64].fence);
    assert!(!records[63].fence);
    assert_eq!(records[0].provenance.as_deref(), Some("gemm.load_a"));
    assert_eq!(records[97].provenance.as_deref(), Some("gemm.readback"));
    for (i, r) in records.iter().enumerate() {
        assert_eq!(r.sequence, i as u64);
    }
    assert_eq!(run.artifact.final_result_commitment, result_commitment(&run.result));
    assert_eq!(run.artifact.summary.hash_payload_records, 49);
    assert_eq!(run.artifact.summary.payload_capture_bytes, 49 * 8);
}

#[test]
fn full_mode_captures_more_payload_bytes_than_validation() {
    let job = identity_job();
    let validation = run_gemm_recorded(&job, CxlRecordPolicy::gemm(CxlRecordMode::Validation));
    let full = run_gemm_recorded(&job, CxlRecordPolicy::gemm(CxlRecordMode::Full));
    assert!(full.artifact.summary.payload_capture_bytes > 0);
    assert!(full.artifact.summary.payload_capture_bytes > validation.artifact.summary.payload_capture_bytes);
    assert_eq!(full.artifact.summary.full_payload_records, 49);
}

#[test]
fn equivalent_recordings_validate() {
    let job = identity_job();
    let left = run_gemm_recorded(&job, CxlRecordPolicy::gemm(CxlRecordMode::Delta));
    let right = run_gemm_recorded(&job, CxlRecordPolicy::gemm(CxlRecordMode::Delta));
    let validation = left.artifact.validate_equivalent(&right.artifact);
    assert!(validation.is_equivalent(), "{validation:?}");
    assert_eq!(validation.records_compared, 98);
}

#[test]
fn different_jobs_do_not_validate() {
    let left = run_gemm_recorded(&identity_job(), CxlRecordPolicy::gemm(CxlRecordMode::Validation));
    let right = run_gemm_recorded(&sample_job(), CxlRecordPolicy::gemm(CxlRecordMode::Validation));
    let validation = left.artifact.validate_equivalent(&right.artifact);
    assert!(!validation.is_equivalent());
    assert!(validation.record_count_matches);
    assert!(validation.record_mismatches > 0);
    assert!(!validation.final_commitment_matches);
}

// ---- replay helpers ----

#[test]
fn fnv1a_known_values() {
    assert_eq!(stable_hash64(&[]), 0xcbf2_9ce4_8422_2325);
    assert_eq!(stable_hash64(b"a"), 0xaf63_dc4c_8601_ec8c);
    assert_eq!(stable_hash64(b"foobar"), 0x85944171f73967e8);
}

#[test]
fn payload_capture_modes() {
    let payload = [0u8, 5, 0, 7];
    assert_eq!(PayloadCapture::from_payload(CxlRecordMode::Validation, None), PayloadCapture::Empty);
    assert_eq!(
        PayloadCapture::from_payload(CxlRecordMode::Validation, Some(&payload)),
        PayloadCapture::Hash64(stable_hash64(&payload))
    );
    assert_eq!(
        PayloadCapture::from_payload(CxlRecordMode::Full, Some(&payload)),
        PayloadCapture::Full(payload.to_vec())
    );
    let delta = PayloadCapture::from_payload(CxlRecordMode::Delta, Some(&payload));
    assert_eq!(
        delta,
        PayloadCapture::Delta { baseline_hash: stable_hash64(&[0u8; 32]), changed_bytes: vec![(1, 5), (3, 7)] }
    );
    assert_eq!(delta.captured_bytes(), 12);
    assert_eq!(PayloadCapture::Full(vec![1, 2, 3]).captured_bytes(), 3);
    assert_eq!(PayloadCapture::Empty.captured_bytes(), 0);
}

#[test]
fn epochs_and_provenance_follow_the_gemm_phases() {
    assert_eq!(gemm_epoch(0), 0);
    assert_eq!(gemm_epoch(15), 0);
    assert_eq!(gemm_epoch(16), 1);
    assert_eq!(gemm_epoch(31), 1);
    assert_eq!(gemm_epoch(32), 2);
    assert_eq!(gemm_epoch(33), 3);
    assert_eq!(provenance_label(16).as_deref(), Some("gemm.load_b"));
    assert_eq!(provenance_label(32).as_deref(), Some("gemm.compute"));
}

#[test]
fn record_modes_parse() {
    assert_eq!(parse_cxl_record_mode("validation"), Ok(CxlRecordMode::Validation));
    assert_eq!(parse_cxl_record_mode("delta"), Ok(CxlRecordMode::Delta));
    assert_eq!(parse_cxl_record_mode("full"), Ok(CxlRecordMode::Full));
    assert_eq!(
        parse_cxl_record_mode("raw"),
        Err("unknown CXL record mode `raw`; expected validation, delta, or full".to_string())
    );
}

// ---- QEMU Type-2 artifacts ----

fn known_good_responses() -> Vec<CxlMsg> {
    let mut responses = Vec::new();
    for tag in 0..33u16 {
        responses.push(CxlMsg::S2MNDR { tag, opcode: S2MNDROp::Cmp });
    }
    let expected = [[2u32, 3, 4, 5], [6, 7, 8, 9], [10, 11, 12, 13], [14, 15, 16, 17]];
    for (i, value) in expected.iter().flatten().enumerate() {
        let mut data = [0u8; 32];
        data[0] = (*value & 0xff) as u8;
        data[1] = ((*value >> 8) & 0xff) as u8;
        data[2] = ((*value >> 16) & 0xff) as u8;
        responses.push(CxlMsg::S2MDRS { tag: 33 + i as u16, opcode: S2MDRSOp::MemData, data });
    }
    responses
}

fn encode_messages(messages: &[CxlMsg]) -> Vec<u8> {
    let mut bytes = Vec::new();
    for msg in messages {
        bytes.extend_from_slice(&encode(msg));
    }
    bytes
}

fn validate_fault_case(mutate: impl FnOnce(&mut Vec<CxlMsg>)) -> QemuType2Summary {
    let mut responses = known_good_responses();
    mutate(&mut responses);
    summarize_responses(&identity_job(), &encode_messages(&responses), "req.bin".to_string(), "resp.bin".to_string())
        .unwrap()
}

#[test]
fn export_writes_49_request_flits_and_expected_json() {
    let requests = request_bytes(&identity_job());
    let expected = expected_for_job(&identity_job());
    assert_eq!(requests.len(), 49 * FLIT_BYTES);
    assert_eq!(expected.request_count, 49);
    assert_eq!(expected.expected_c[0], [2, 3, 4, 5]);
    assert_eq!(expected.workload, "slugcxl_gemm_4x4");
    assert_eq!(expected.flit_bytes, 64);
    assert_eq!(expected.request_tags, (0..49u16).collect::<Vec<u16>>());
    let stream = build_gemm_dispatch_stream(&identity_job(), 0);
    assert_eq!(&requests[..64], &encode(&stream[0])[..]);
    assert_eq!(&requests[48 * 64..], &encode(&stream[48])[..]);
}

#[test]
fn validate_accepts_known_good_response_stream() {
    let summary = summarize_responses(
        &identity_job(),
        &encode_messages(&known_good_responses()),
        "out/requests.bin".to_string(),
        "out/responses.bin".to_string(),
    )
    .unwrap();
    assert_eq!(summary.status, "pass");
    assert_eq!(summary.request_count, 49);
    assert_eq!(summary.response_count, 49);
    assert_eq!(summary.tag_mismatches, 0);
    assert_eq!(summary.dispatch_failures, 0);
    assert_eq!(summary.result_c[3], [14, 15, 16, 17]);
    assert_eq!(summary.result_c, summary.expected_c);
    assert_eq!(summary.requests_path, "out/requests.bin");
    assert_eq!(summary.responses_path, "out/responses.bin");
    assert_eq!(
        summary_csv(&summary),
        "status,request_count,response_count,tag_mismatches,dispatch_failures\npass,49,49,0,0\n"
    );
}

#[test]
fn validate_rejects_truncated_responses() {
    let err = summarize_responses(&identity_job(), &vec![0u8; FLIT_BYTES - 1], String::new(), String::new())
        .unwrap_err();
    assert!(format!("{err:?}").contains("multiple of 64"));
}

#[test]
fn validate_rejects_undecodable_response() {
    let mut bytes = encode_messages(&known_good_responses());
    bytes[64 * 2] = 0xF0;
    let err = summarize_responses(&identity_job(), &bytes, String::new(), String::new()).unwrap_err();
    assert!(matches!(err, HostError::WireDecode(_)));
}

#[test]
fn validate_fails_on_bad_tag_response() {
    let summary = validate_fault_case(|responses| {
        responses[10] = CxlMsg::S2MNDR { tag: 99, opcode: S2MNDROp::Cmp };
    });
    assert_eq!(summary.status, "fail");
    assert_eq!(summary.tag_mismatches, 1);
    assert_eq!(summary.dispatch_failures, 0);
}

#[test]
fn validate_fails_on_missing_response() {
    let summary = validate_fault_case(|responses| {
        responses.pop();
    });
    assert_eq!(summary.status, "fail");
    assert_eq!(summary.response_count, 48);
}

#[test]
fn validate_fails_on_extra_duplicate_response() {
    let summary = validate_fault_case(|responses| {
        let duplicate = responses.last().unwrap().clone();
        responses.push(duplicate);
    });
    assert_eq!(summary.status, "fail");
    assert_eq!(summary.response_count, 50);
}

#[test]
fn validate_fails_on_dispatch_failed_response() {
    let summary = validate_fault_case(|responses| {
        responses[3] = CxlMsg::S2MNDR { tag: 3, opcode: S2MNDROp::DispatchFailed };
    });
    assert_eq!(summary.status, "fail");
    assert_eq!(summary.dispatch_failures, 1);
}

#[test]
fn validate_fails_on_wrong_read_data() {
    let summary = validate_fault_case(|responses| {
        if let CxlMsg::S2MDRS { data, .. } = &mut responses[33] {
            data[0] = data[0].wrapping_add(1);
        }
    });
    assert_eq!(summary.status, "fail");
    assert_eq!(summary.tag_mismatches, 0);
    assert_eq!(summary.dispatch_failures, 0);
    assert_ne!(summary.result_c, summary.expected_c);
}

#[test]
fn validate_fails_on_wrong_response_phase() {
    let summary = validate_fault_case(|responses| {
        responses[33] = CxlMsg::S2MNDR { tag: 33, opcode: S2MNDROp::Cmp };
    });
    assert_eq!(summary.status, "fail");
    assert_eq!(summary.dispatch_failures, 1);
}

// ---- simulator-feasible ledger ----

fn names(v: &[&str]) -> Vec<String> {
    v.iter().map(|s| s.to_string()).collect()
}

fn find<'a>(ledger: &'a [ClaimLedgerEntry], name: &str) -> &'a ClaimLedgerEntry {
    ledger.iter().find(|c| c.claim == name).unwrap()
}

#[test]
fn dax_probe_reports_blocked_when_no_dax_devices_exist() {
    let probe = dax_probe("/tmp/empty-dev".to_string(), &names(&["null", "tty0"]));
    assert_eq!(probe.status, DaxProbeStatus::Blocked);
    assert!(probe.devices.is_empty());
    assert!(probe.limitation.contains("/dev/dax"));
    assert_eq!(probe.checked, vec!["/tmp/empty-dev/dax*".to_string()]);
}

#[test]
fn dax_probe_lists_visible_devices_sorted() {
    let probe = dax_probe("/dev".to_string(), &names(&["dax1.0", "null", "dax0.0"]));
    assert_eq!(probe.status, DaxProbeStatus::Measured);
    assert_eq!(probe.devices, names(&["/dev/dax0.0", "/dev/dax1.0"]));
    assert_eq!(
        probe.limitation,
        "DAX devices were visible, but this probe does not run a streaming workload by itself: /dev/dax0.0, /dev/dax1.0"
    );
}

#[test]
fn visible_dax_nodes_do_not_upgrade_cxl_mem_claim_without_streaming_artifact() {
    let probe = dax_probe("/tmp/dev".to_string(), &names(&["dax0.0"]));
    assert_eq!(probe.status, DaxProbeStatus::Measured);
    assert!(probe.devices.iter().any(|path| path.ends_with("dax0.0")));
    let ledger = claim_ledger(&summarize_bar2_runs(None, &vec![]), &probe);
    let dax_claim = find(&ledger, "CXL.mem/DAX simulator traffic");
    assert_eq!(dax_claim.status, ClaimStatus::Blocked);
    assert_eq!(dax_claim.missing_substrate, None);
}

#[test]
fn ledger_has_blocked_cxl_cache_claim() {
    let probe = dax_probe("/tmp/dev".to_string(), &vec![]);
    let ledger = claim_ledger(&summarize_bar2_runs(None, &vec![]), &probe);
    assert_eq!(ledger.len(), 12);
    let cache = find(&ledger, "CXL.cache coherence");
    assert_eq!(cache.status, ClaimStatus::Blocked);
    assert_eq!(find(&ledger, "CXL.mem/DAX simulator traffic").status, ClaimStatus::Blocked);
    let latency = find(&ledger, "Replay latency");
    assert!(latency.paper_safe_wording.contains("software replay validation only"));
}

fn passing_run(elapsed: Option<u64>) -> Bar2RunEvidence {
    Bar2RunEvidence {
        status: Some("pass".to_string()),
        request_count: Some(1),
        response_count: Some(1),
        tag_mismatches: Some(0),
        dispatch_failures: Some(0),
        guest_elapsed_ms: elapsed,
    }
}

#[test]
fn bar2_claims_follow_the_actual_repeatability_source_path() {
    let probe = dax_probe("/tmp/dev".to_string(), &vec![]);
    let fake_path = "/tmp/custom-repeatability-artifact".to_string();
    let blocked = claim_ledger(&summarize_bar2_runs(None, &vec![]), &probe);
    let measured = claim_ledger(&summarize_bar2_runs(Some(fake_path.clone()), &vec![passing_run(Some(7))]), &probe);

    for ledger in [&blocked, &measured] {
        for c in ledger.iter() {
            assert!(!format!("{c:?}").contains("qemu-type2-repeatability-20260702-0627"));
        }
    }

    let bar2_claim = find(&measured, "QEMU Type-2 BAR2 command/replay boundary");
    let runtime_claim = find(&measured, "Runtime overhead");
    assert_eq!(bar2_claim.evidence_artifact, fake_path);
    assert_eq!(bar2_claim.checked, vec![fake_path.clone()]);
    assert_eq!(bar2_claim.status, ClaimStatus::Measured);
    assert_eq!(runtime_claim.evidence_artifact, fake_path);
    assert_eq!(runtime_claim.checked, vec![fake_path]);

    let blocked_bar2_claim = find(&blocked, "QEMU Type-2 BAR2 command/replay boundary");
    let blocked_runtime_claim = find(&blocked, "Runtime overhead");
    assert_eq!(blocked_bar2_claim.evidence_artifact, "none");
    assert_eq!(blocked_bar2_claim.checked, vec!["none".to_string()]);
    assert_eq!(blocked_bar2_claim.status, ClaimStatus::Blocked);
    assert_eq!(blocked_runtime_claim.evidence_artifact, "none");
    assert_eq!(blocked_runtime_claim.checked, vec!["none".to_string()]);
}

#[test]
fn bar2_summary_totals_the_runs() {
    let mut failing = passing_run(None);
    failing.status = Some("fail".to_string());
    failing.tag_mismatches = Some(2);
    let s = summarize_bar2_runs(Some("d".to_string()), &vec![passing_run(Some(7)), failing]);
    assert_eq!(s.runs, 2);
    assert_eq!(s.pass_runs, 1);
    assert_eq!(s.request_count, 2);
    assert_eq!(s.tag_mismatches, 2);
    assert_eq!(s.guest_elapsed_ms, vec![7]);
    assert_eq!(s.status, ClaimStatus::Blocked);
}

// ---- text helpers ----

#[test]
fn text_helpers() {
    assert_eq!(decimal_string(0), "0");
    assert_eq!(decimal_string(18446744073709551615), "18446744073709551615");
    assert!(starts_with("dax0.0", "dax"));
    assert!(!starts_with("da", "dax"));
    assert!(str_le("abc", "abd"));
    assert!(str_le("ab", "abc"));
    assert!(!str_le("b", "abc"));
    assert_eq!(join(&names(&["a", "b", "c"]), ", "), "a, b, c");
    assert_eq!(join(&vec![], ", "), "");
}

#[test]
fn provenance_counts_cover_every_record() {
    let run = run_gemm_recorded(&identity_job(), CxlRecordPolicy::gemm(CxlRecordMode::Validation));
    let (labels, uncovered) = provenance_counts(&run.artifact.records);
    assert_eq!(
        labels,
        vec![
            ("gemm.load_a".to_string(), 32),
            ("gemm.load_b".to_string(), 32),
            ("gemm.compute".to_string(), 2),
            ("gemm.readback".to_string(), 32),
        ]
    );
    assert_eq!(uncovered, 0);
}

#[test]
fn unlabelled_records_are_uncovered() {
    let run = run_gemm_recorded(&identity_job(), CxlRecordPolicy::gemm(CxlRecordMode::Delta));
    let mut records = run.artifact.records.clone();
    records[0].provenance = None;
    records[97].provenance = Some("gemm.load_a".to_string());
    let (labels, uncovered) = provenance_counts(&records);
    assert_eq!(uncovered, 1);
    assert_eq!(labels[0], ("gemm.load_a".to_string(), 32));
    assert_eq!(labels[3], ("gemm.readback".to_string(), 31));
}

#[test]
fn validation_is_symmetric() {
    let left = run_gemm_recorded(&identity_job(), CxlRecordPolicy::gemm(CxlRecordMode::Full));
    let right = run_gemm_recorded(&sample_job(), CxlRecordPolicy::gemm(CxlRecordMode::Full));
    assert_eq!(left.artifact.validate_equivalent(&right.artifact), right.artifact.validate_equivalent(&left.artifact));
    let mut shorter = right.artifact.clone();
    shorter.records.truncate(90);
    let v = left.artifact.validate_equivalent(&shorter);
    assert_eq!(v, shorter.validate_equivalent(&left.artifact));
    assert_eq!(v.records_compared, 90);
    assert!(!v.record_count_matches);
    assert!(v.record_mismatches >= 8);
}

#[test]
fn full_capture_of_a_flit_payload_costs_more_than_its_hash() {
    let payload = [3u8; 32];
    let hash = PayloadCapture::from_payload(CxlRecordMode::Validation, Some(&payload)).captured_bytes();
    let delta = PayloadCapture::from_payload(CxlRecordMode::Delta, Some(&payload)).captured_bytes();
    let full = PayloadCapture::from_payload(CxlRecordMode::Full, Some(&payload)).captured_bytes();
    assert_eq!(hash, 8);
    assert_eq!(delta, 8 + 2 * 32);
    assert_eq!(full, 32);
    assert!(hash < full && hash <= delta);
}

fn run_files(summary: &str, guest: Option<&str>) -> Bar2RunFiles {
    Bar2RunFiles {
        summary_path: "d/run-1/summary.json".to_string(),
        summary_json: summary.as_bytes().to_vec(),
        guest_path: "d/run-1/guest-summary.json".to_string(),
        guest_json: guest.map(|g| g.as_bytes().to_vec()),
    }
}

#[test]
fn run_evidence_reads_the_summary_and_guest_fields() {
    let f = run_files(
        r#"{"status":"pass","request_count":1,"response_count":1,"tag_mismatches":0,"dispatch_failures":0}"#,
        Some(r#"{"elapsed_ms":7}"#),
    );
    assert_eq!(run_evidence_of(&f).unwrap(), passing_run(Some(7)));
    let partial = run_files(r#"{"status":3,"request_count":-1}"#, None);
    assert_eq!(
        run_evidence_of(&partial).unwrap(),
        Bar2RunEvidence {
            status: None,
            request_count: None,
            response_count: None,
            tag_mismatches: None,
            dispatch_failures: None,
            guest_elapsed_ms: None,
        }
    );
}

#[test]
fn run_files_that_do_not_parse_are_reported_with_their_path() {
    match run_evidence_of(&run_files("{not json", None)) {
        Err(HostError::DispatchFailed { tag, reason }) => {
            assert_eq!(tag, 0);
            assert!(reason.starts_with("parse d/run-1/summary.json: "), "{reason}");
        }
        other => panic!("expected DispatchFailed, got {:?}", other),
    }
    match run_evidence_of(&run_files(r#"{"status":"pass"}"#, Some("[1,"))) {
        Err(HostError::DispatchFailed { reason, .. }) => {
            assert!(reason.starts_with("parse d/run-1/guest-summary.json: "), "{reason}");
        }
        other => panic!("expected DispatchFailed, got {:?}", other),
    }
}

#[test]
fn bar2_evidence_from_files_sums_the_runs() {
    let good = r#"{"status":"pass","request_count":49,"response_count":49,"tag_mismatches":0,"dispatch_failures":0}"#;
    let runs = vec![run_files(good, Some(r#"{"elapsed_ms":7}"#)), run_files(good, None)];
    let s = bar2_evidence_from_files(Some("d".to_string()), &runs).unwrap().unwrap();
    assert_eq!(s.status, ClaimStatus::Measured);
    assert_eq!(s.runs, 2);
    assert_eq!(s.request_count, 98);
    assert_eq!(s.guest_elapsed_ms, vec![7]);
    assert_eq!(s.source_dir.as_deref(), Some("d"));
    let none = bar2_evidence_from_files(None, &runs).unwrap().unwrap();
    assert_eq!(none.status, ClaimStatus::Blocked);
    assert_eq!(none.runs, 0);
    let big = r#"{"status":"pass","request_count":18446744073709551615}"#;
    assert_eq!(bar2_evidence_from_files(Some("d".to_string()), &vec![run_files(big, None), run_files(big, None)]).unwrap(), None);
    assert!(bar2_evidence_from_files(Some("d".to_string()), &vec![run_files(good, None), run_files("x", None)]).is_err());
}

#[test]
fn a_recording_with_its_first_tag_moved_is_caught() {
    let run = run_gemm_recorded(&identity_job(), CxlRecordPolicy::gemm(CxlRecordMode::Validation));
    let mut bad = run.artifact.clone();
    let tag = bad.records[0].tag;
    bad.bump_first_tag();
    assert_eq!(bad.records[0].tag, tag.wrapping_add(1));
    assert_eq!(bad.records.len(), run.artifact.records.len());
    assert_eq!(bad.records[1..], run.artifact.records[1..]);
    let v = run.artifact.validate_equivalent(&bad);
    assert!(!v.is_equivalent());
    assert_eq!(v.record_mismatches, 1);
    assert!(v.final_commitment_matches);

    let mut wrap = run.artifact.clone();
    wrap.records[0].tag = u16::MAX;
    wrap.bump_first_tag();
    assert_eq!(wrap.records[0].tag, 0);

    let mut empty = run.artifact.clone();
    empty.records.clear();
    let before = empty.clone();
    empty.bump_first_tag();
    assert_eq!(empty, before);
}
