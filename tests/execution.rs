use agent_platform::orchestrator::{
    run_succeeded, step_outcomes, Orchestrator, StepFailure, StepOutcome, StepStatus,
};
use agent_platform::planner::PlannedPipeline;
use agent_platform::sandbox::{
    decode_frame, encode_frame, EngineOutcome, ExecutionError, SandboxSession, SessionStatus, MAX_OUTPUT_LEN,
    OUTPUT_OFFSET,
};

fn memory_with_frame(payload: &[u8], size: usize) -> Vec<u8> {
    let mut mem = encode_frame(&payload.to_vec());
    mem.resize(size, 0);
    mem
}

#[test]
fn frame_round_trip() {
    let data = b"hello sandbox".to_vec();
    let f = encode_frame(&data);
    assert_eq!(&f[..4], &[13, 0, 0, 0]);
    assert_eq!(&f[4..], &data[..]);
    assert_eq!(decode_frame(&f, 0, 1024).unwrap(), data);
}

#[test]
fn frame_length_is_little_endian() {
    let data = vec![7u8; 300];
    let f = encode_frame(&data);
    assert_eq!(&f[..4], &[44, 1, 0, 0]);
    assert_eq!(f.len(), 304);
}

#[test]
fn frame_past_memory_end_is_a_bounds_violation() {
    let mut mem = vec![10u8, 0, 0, 0, 1, 2, 3];
    assert_eq!(decode_frame(&mem, 0, 1024), Err(ExecutionError::MemoryBoundsViolation));
    mem.truncate(2);
    assert_eq!(decode_frame(&mem, 0, 1024), Err(ExecutionError::MemoryBoundsViolation));
    assert_eq!(decode_frame(&vec![0u8; 8], 6, 1024), Err(ExecutionError::MemoryBoundsViolation));
}

#[test]
fn frame_longer_than_limit_is_a_bounds_violation() {
    let mem = memory_with_frame(&[1u8; 20], 64);
    assert_eq!(decode_frame(&mem, 0, 19), Err(ExecutionError::MemoryBoundsViolation));
    assert_eq!(decode_frame(&mem, 0, 20).unwrap(), vec![1u8; 20]);
}

#[test]
fn missing_entry_point_spends_no_fuel() {
    let mut s = SandboxSession::new(5000, b"input".to_vec());
    assert_eq!(s.module_loaded(true), Ok(()));
    assert_eq!(s.begin(true, false, 65536), Err(ExecutionError::MissingEntryPoint));
    assert_eq!(s.fuel_remaining(), 5000);
    assert_eq!(s.status(), SessionStatus::Faulted(ExecutionError::MissingEntryPoint));
}

#[test]
fn missing_memory_is_reported_first() {
    let mut s = SandboxSession::new(10, Vec::new());
    s.module_loaded(true).unwrap();
    assert_eq!(s.begin(false, false, 0), Err(ExecutionError::MissingMemoryExport));
    assert_eq!(s.fuel_remaining(), 10);
}

#[test]
fn unparsable_module_fails_to_load() {
    let mut s = SandboxSession::new(10, Vec::new());
    assert_eq!(s.module_loaded(false), Err(ExecutionError::ModuleLoadFailed));
    assert_eq!(s.status(), SessionStatus::Faulted(ExecutionError::ModuleLoadFailed));
}

#[test]
fn input_too_large_for_memory() {
    let mut s = SandboxSession::new(10, vec![0u8; 100]);
    s.module_loaded(true).unwrap();
    assert_eq!(s.begin(true, true, 103), Err(ExecutionError::MemoryBoundsViolation));
    let mut t = SandboxSession::new(10, vec![0u8; 100]);
    t.module_loaded(true).unwrap();
    assert_eq!(t.begin(true, true, 104).unwrap().len(), 104);
}

#[test]
fn out_of_fuel_is_resource_exhausted() {
    for budget in [1u64, 7, 1_000_000] {
        let mut s = SandboxSession::new(budget, b"x".to_vec());
        s.module_loaded(true).unwrap();
        s.begin(true, true, 1024).unwrap();
        assert_eq!(s.finish(EngineOutcome::OutOfFuel, 0, &vec![0u8; 1024]), Err(ExecutionError::ResourceExhausted));
        assert_eq!(s.fuel_remaining(), 0);
        assert_eq!(s.status(), SessionStatus::ResourceExhausted);
    }
}

#[test]
fn trap_is_runtime_trap() {
    let mut s = SandboxSession::new(100, b"x".to_vec());
    s.module_loaded(true).unwrap();
    s.begin(true, true, 1024).unwrap();
    assert_eq!(s.finish(EngineOutcome::Trapped, 40, &vec![0u8; 1024]), Err(ExecutionError::RuntimeTrap));
    assert_eq!(s.fuel_remaining(), 40);
}

#[test]
fn completed_run_returns_output_frame() {
    let mut s = SandboxSession::new(100, b"abc".to_vec());
    s.module_loaded(true).unwrap();
    let frame = s.begin(true, true, 4096).unwrap();
    assert_eq!(frame, vec![3, 0, 0, 0, b'a', b'b', b'c']);
    let mem = memory_with_frame(b"abc - processed", 4096);
    let out = s.finish(EngineOutcome::Returned, 60, &mem).unwrap();
    assert_eq!(out, b"abc - processed".to_vec());
    assert_eq!(s.output(), &out);
    assert_eq!(s.status(), SessionStatus::Completed);
    assert_eq!(s.fuel_remaining(), 60);
    assert_eq!(s.fuel_budget(), 100);
}

#[test]
fn fuel_never_grows() {
    let mut s = SandboxSession::new(100, Vec::new());
    s.module_loaded(true).unwrap();
    s.begin(true, true, 64).unwrap();
    let mem = memory_with_frame(b"", 64);
    s.finish(EngineOutcome::Returned, 500, &mem).unwrap();
    assert_eq!(s.fuel_remaining(), 100);
}

#[test]
fn oversized_output_is_a_bounds_violation() {
    let mut s = SandboxSession::new(100, Vec::new());
    s.module_loaded(true).unwrap();
    s.begin(true, true, 4096).unwrap();
    let mem = memory_with_frame(&vec![1u8; MAX_OUTPUT_LEN + 1], 4096);
    assert_eq!(s.finish(EngineOutcome::Returned, 1, &mem), Err(ExecutionError::MemoryBoundsViolation));
    assert_eq!(OUTPUT_OFFSET, 0);
}

#[test]
fn trap_at_step_two_keeps_earlier_outputs() {
    let pipeline = PlannedPipeline { agent_ids: vec![10, 20, 30], total_cost: 3 };
    let mut o = Orchestrator::new(&pipeline, b"in".to_vec());
    assert_eq!(o.next_step(), Some(0));
    assert_eq!(o.current_input(), &b"in".to_vec());
    o.record(Ok(b"one".to_vec()));
    assert_eq!(o.next_step(), Some(1));
    assert_eq!(o.current_input(), &b"one".to_vec());
    o.record(Ok(b"two".to_vec()));
    assert_eq!(o.next_step(), Some(2));
    assert_eq!(o.agent_at(2), 30);
    o.record(Err(ExecutionError::RuntimeTrap));
    assert_eq!(o.next_step(), None);
    let r = o.into_result();
    assert_eq!(r.failure, Some(StepFailure { step_index: 2, agent_id: 30, error: ExecutionError::RuntimeTrap }));
    assert_eq!(r.outputs, vec![b"one".to_vec(), b"two".to_vec()]);
    assert!(!run_succeeded(&r, 3));
}

#[test]
fn completed_run_feeds_each_output_forward() {
    let pipeline = PlannedPipeline { agent_ids: vec![1, 2], total_cost: 2 };
    let mut o = Orchestrator::new(&pipeline, b"a".to_vec());
    while let Some(_) = o.next_step() {
        let mut next = o.current_input().clone();
        next.push(b'+');
        o.record(Ok(next));
    }
    let r = o.into_result();
    assert!(run_succeeded(&r, 2));
    assert_eq!(r.outputs, vec![b"a+".to_vec(), b"a++".to_vec()]);
}

#[test]
fn empty_pipeline_has_nothing_to_run() {
    let pipeline = PlannedPipeline { agent_ids: Vec::new(), total_cost: 0 };
    let o = Orchestrator::new(&pipeline, Vec::new());
    assert_eq!(o.next_step(), None);
}

#[test]
fn step_outcomes_list_completed_steps_then_the_failure() {
    let pipeline = PlannedPipeline { agent_ids: vec![10, 20, 30], total_cost: 3 };
    let mut o = Orchestrator::new(&pipeline, b"in".to_vec());
    o.record(Ok(b"one".to_vec()));
    o.record(Err(ExecutionError::ResourceExhausted));
    let r = o.into_result();
    let outcomes = step_outcomes(7, &pipeline, &r);
    assert_eq!(
        outcomes,
        vec![
            StepOutcome { run_id: 7, step_index: 0, agent_id: 10, status: StepStatus::Completed },
            StepOutcome {
                run_id: 7,
                step_index: 1,
                agent_id: 20,
                status: StepStatus::Failed(ExecutionError::ResourceExhausted),
            },
        ]
    );
}
