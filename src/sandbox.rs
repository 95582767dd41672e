use vstd::prelude::*;

verus! {

/// Offset in the module's memory where the input frame is written.
pub const INPUT_OFFSET: usize = 0;

/// Offset in the module's memory where the output frame is read back.
pub const OUTPUT_OFFSET: usize = 0;

/// Largest output, in bytes, that the host reads back.
pub const MAX_OUTPUT_LEN: usize = 1024;

/// Width of the little-endian length that precedes each frame's payload.
pub const LEN_PREFIX: usize = 4;

/// Why one sandboxed invocation failed.
#[derive(PartialEq, Eq, Structural, Clone, Copy, Debug)]
pub enum ExecutionError {
    /// The module could not be parsed or validated.
    ModuleLoadFailed,
    /// The module exports no entry point.
    MissingEntryPoint,
    /// The module exports no linear memory.
    MissingMemoryExport,
    /// The instruction budget ran out before the module finished.
    ResourceExhausted,
    /// A frame did not fit in the module's memory.
    MemoryBoundsViolation,
    /// The module trapped.
    RuntimeTrap,
}

/// Where one invocation stands.
#[derive(PartialEq, Eq, Structural, Clone, Copy, Debug)]
pub enum SessionStatus {
    Created,
    Loaded,
    Running,
    Completed,
    Faulted(ExecutionError),
    ResourceExhausted,
}

/// How the engine reports the end of the entry point's run.
#[derive(PartialEq, Eq, Structural, Clone, Copy, Debug)]
pub enum EngineOutcome {
    Returned,
    Trapped,
    OutOfFuel,
}

/// The four little-endian bytes of `n`.
pub open spec fn le32(n: nat) -> Seq<u8> {
    seq![
        (n % 256) as u8,
        (n / 256 % 256) as u8,
        (n / 65536 % 256) as u8,
        (n / 16777216 % 256) as u8,
    ]
}

/// The number whose little-endian bytes are `b0 b1 b2 b3`.
pub open spec fn le32_value(b0: u8, b1: u8, b2: u8, b3: u8) -> nat {
    b0 as nat + 256 * (b1 as nat) + 65536 * (b2 as nat) + 16777216 * (b3 as nat)
}

/// A payload preceded by its length.
pub open spec fn frame(data: Seq<u8>) -> Seq<u8> {
    le32(data.len()) + data
}

/// The length that the frame at `offset` of `mem` announces.
pub open spec fn announced_len(mem: Seq<u8>, offset: int) -> nat {
    le32_value(mem[offset], mem[offset + 1], mem[offset + 2], mem[offset + 3])
}

/// The frame at `offset` of `mem` lies inside `mem` and is at most `max_len` long.
pub open spec fn frame_in_bounds(mem: Seq<u8>, offset: int, max_len: nat) -> bool {
    &&& offset + LEN_PREFIX <= mem.len()
    &&& announced_len(mem, offset) <= max_len
    &&& offset + LEN_PREFIX + announced_len(mem, offset) <= mem.len()
}

/// The payload of the frame at `offset` of `mem`.
pub open spec fn frame_payload(mem: Seq<u8>, offset: int) -> Seq<u8> {
    mem.subrange(offset + LEN_PREFIX, offset + LEN_PREFIX + announced_len(mem, offset))
}

/// The input frame fits in a memory of `memory_len` bytes.
pub open spec fn input_fits(input: Seq<u8>, memory_len: nat) -> bool {
    input.len() <= u32::MAX && INPUT_OFFSET + LEN_PREFIX + input.len() <= memory_len
}

proof fn lemma_le32_round_trip(n: u32)
    ensures
        le32(n as nat).len() == 4,
        le32_value(le32(n as nat)[0], le32(n as nat)[1], le32(n as nat)[2], le32(n as nat)[3]) == n,
{
    assert(n == n % 256 + 256 * ((n / 256) % 256) + 65536 * ((n / 65536) % 256) + 16777216 * ((n / 16777216)
        % 256)) by (bit_vector);
}

/// A frame written for a payload of at most `max_len` bytes reads back, at
/// offset zero, as exactly that payload.
pub proof fn lemma_frame_round_trip(data: Seq<u8>, max_len: nat)
    requires
        data.len() <= max_len,
        data.len() <= u32::MAX,
    ensures
        frame_in_bounds(frame(data), 0, max_len),
        frame_payload(frame(data), 0) == data,
{
    lemma_le32_round_trip(data.len() as u32);
    let f = frame(data);
    assert(f[0] == le32(data.len())[0]);
    assert(f[1] == le32(data.len())[1]);
    assert(f[2] == le32(data.len())[2]);
    assert(f[3] == le32(data.len())[3]);
    assert(announced_len(f, 0) == data.len());
    assert(f.subrange(4, 4 + data.len() as int) =~= data);
}

/// Prefixes `data` with its length as four little-endian bytes.
pub fn encode_frame(data: &Vec<u8>) -> (r: Vec<u8>)
    requires
        data@.len() <= u32::MAX,
    ensures
        r@ == frame(data@),
{
    let n = data.len();
    let mut r: Vec<u8> = Vec::new();
    r.push((n % 256) as u8);
    r.push((n / 256 % 256) as u8);
    r.push((n / 65536 % 256) as u8);
    r.push((n / 16777216 % 256) as u8);
    let mut i: usize = 0;
    while i < data.len()
        invariant
            i <= data@.len(),
            n == data@.len(),
            r@ == le32(n as nat) + data@.subrange(0, i as int),
        decreases data@.len() - i,
    {
        r.push(data[i]);
        i += 1;
        assert(r@ =~= le32(n as nat) + data@.subrange(0, i as int));
    }
    assert(data@.subrange(0, data@.len() as int) =~= data@);
    r
}

/// Reads the frame at `offset` of `mem`, checking every bound before reading.
pub fn decode_frame(mem: &Vec<u8>, offset: usize, max_len: usize) -> (r: Result<Vec<u8>, ExecutionError>)
    ensures
        frame_in_bounds(mem@, offset as int, max_len as nat) ==> r == Ok::<Vec<u8>, ExecutionError>(r->Ok_0)
            && r->Ok_0@ == frame_payload(mem@, offset as int),
        !frame_in_bounds(mem@, offset as int, max_len as nat) ==> r == Err::<Vec<u8>, ExecutionError>(
            ExecutionError::MemoryBoundsViolation,
        ),
{
    if offset > mem.len() || mem.len() - offset < LEN_PREFIX {
        return Err(ExecutionError::MemoryBoundsViolation);
    }
    let len: u64 = mem[offset] as u64 + 256 * (mem[offset + 1] as u64) + 65536 * (mem[offset + 2] as u64)
        + 16777216 * (mem[offset + 3] as u64);
    let start = offset + LEN_PREFIX;
    if len > max_len as u64 || len > (mem.len() - start) as u64 {
        return Err(ExecutionError::MemoryBoundsViolation);
    }
    let end = start + len as usize;
    let mut out: Vec<u8> = Vec::new();
    let mut i: usize = start;
    while i < end
        invariant
            start <= i <= end,
            end <= mem@.len(),
            out@ == mem@.subrange(start as int, i as int),
        decreases end - i,
    {
        out.push(mem[i]);
        i += 1;
        assert(out@ =~= mem@.subrange(start as int, i as int));
    }
    Ok(out)
}

/// One invocation of an untrusted module: its fuel, its input and output
/// buffers and where it stands.
pub struct SandboxSession {
    fuel_budget: u64,
    fuel_remaining: u64,
    status: SessionStatus,
    input: Vec<u8>,
    output: Vec<u8>,
}

impl SandboxSession {
    pub closed spec fn spec_fuel_budget(&self) -> u64 {
        self.fuel_budget
    }

    pub closed spec fn spec_fuel_remaining(&self) -> u64 {
        self.fuel_remaining
    }

    pub closed spec fn spec_status(&self) -> SessionStatus {
        self.status
    }

    pub closed spec fn spec_input(&self) -> Seq<u8> {
        self.input@
    }

    pub closed spec fn spec_output(&self) -> Seq<u8> {
        self.output@
    }

    /// Fuel never exceeds the budget.
    pub closed spec fn wf(&self) -> bool {
        self.fuel_remaining <= self.fuel_budget
    }

    /// A fresh session with its whole budget.
    pub fn new(fuel_budget: u64, input: Vec<u8>) -> (s: Self)
        ensures
            s.wf(),
            s.spec_fuel_budget() == fuel_budget,
            s.spec_fuel_remaining() == fuel_budget,
            s.spec_status() == SessionStatus::Created,
            s.spec_input() == input@,
            s.spec_output().len() == 0,
    {
        SandboxSession {
            fuel_budget,
            fuel_remaining: fuel_budget,
            status: SessionStatus::Created,
            input,
            output: Vec::new(),
        }
    }

    pub fn fuel_budget(&self) -> (r: u64)
        ensures
            r == self.spec_fuel_budget(),
    {
        self.fuel_budget
    }

    pub fn fuel_remaining(&self) -> (r: u64)
        ensures
            r == self.spec_fuel_remaining(),
    {
        self.fuel_remaining
    }

    pub fn status(&self) -> (r: SessionStatus)
        ensures
            r == self.spec_status(),
    {
        self.status
    }

    pub fn output(&self) -> (r: &Vec<u8>)
        ensures
            r@ == self.spec_output(),
    {
        &self.output
    }

    /// Records whether the engine accepted the module.
    pub fn module_loaded(&mut self, parsed: bool) -> (r: Result<(), ExecutionError>)
        requires
            old(self).wf(),
            old(self).spec_status() == SessionStatus::Created,
        ensures
            final(self).wf(),
            final(self).spec_fuel_budget() == old(self).spec_fuel_budget(),
            final(self).spec_fuel_remaining() == old(self).spec_fuel_remaining(),
            final(self).spec_input() == old(self).spec_input(),
            final(self).spec_output() == old(self).spec_output(),
            parsed ==> r is Ok && final(self).spec_status() == SessionStatus::Loaded,
            !parsed ==> r == Err::<(), ExecutionError>(ExecutionError::ModuleLoadFailed)
                && final(self).spec_status() == SessionStatus::Faulted(ExecutionError::ModuleLoadFailed),
    {
        if parsed {
            self.status = SessionStatus::Loaded;
            Ok(())
        } else {
            self.status = SessionStatus::Faulted(ExecutionError::ModuleLoadFailed);
            Err(ExecutionError::ModuleLoadFailed)
        }
    }

    /// Checks the module's exports and, when they are present and the input
    /// fits, starts the run and hands back the frame to write at
    /// `INPUT_OFFSET`. No fuel is spent here.
    pub fn begin(&mut self, has_memory: bool, has_entry: bool, memory_len: usize) -> (r: Result<
        Vec<u8>,
        ExecutionError,
    >)
        requires
            old(self).wf(),
            old(self).spec_status() == SessionStatus::Loaded,
        ensures
            final(self).wf(),
            final(self).spec_fuel_budget() == old(self).spec_fuel_budget(),
            final(self).spec_fuel_remaining() == old(self).spec_fuel_remaining(),
            final(self).spec_input() == old(self).spec_input(),
            final(self).spec_output() == old(self).spec_output(),
            !has_memory ==> r == Err::<Vec<u8>, ExecutionError>(ExecutionError::MissingMemoryExport),
            has_memory && !has_entry ==> r == Err::<Vec<u8>, ExecutionError>(ExecutionError::MissingEntryPoint),
            has_memory && has_entry && !input_fits(old(self).spec_input(), memory_len as nat)
                ==> r == Err::<Vec<u8>, ExecutionError>(ExecutionError::MemoryBoundsViolation),
            has_memory && has_entry && input_fits(old(self).spec_input(), memory_len as nat) ==> r is Ok
                && r->Ok_0@ == frame(old(self).spec_input())
                && final(self).spec_status() == SessionStatus::Running,
            r is Err ==> final(self).spec_status() == SessionStatus::Faulted(r->Err_0),
    {
        let e = if !has_memory {
            ExecutionError::MissingMemoryExport
        } else if !has_entry {
            ExecutionError::MissingEntryPoint
        } else if self.input.len() > u32::MAX as usize || memory_len < INPUT_OFFSET + LEN_PREFIX
            || memory_len - (INPUT_OFFSET + LEN_PREFIX) < self.input.len() {
            ExecutionError::MemoryBoundsViolation
        } else {
            self.status = SessionStatus::Running;
            return Ok(encode_frame(&self.input));
        };
        self.status = SessionStatus::Faulted(e);
        Err(e)
    }

    /// Records how the entry point's run ended, given the fuel that the engine
    /// reports as left and the module's memory afterwards.
    pub fn finish(&mut self, outcome: EngineOutcome, fuel_left: u64, memory: &Vec<u8>) -> (r: Result<
        Vec<u8>,
        ExecutionError,
    >)
        requires
            old(self).wf(),
            old(self).spec_status() == SessionStatus::Running,
        ensures
            final(self).wf(),
            final(self).spec_fuel_budget() == old(self).spec_fuel_budget(),
            final(self).spec_fuel_remaining() <= old(self).spec_fuel_remaining(),
            final(self).spec_input() == old(self).spec_input(),
            outcome == EngineOutcome::OutOfFuel ==> r == Err::<Vec<u8>, ExecutionError>(
                ExecutionError::ResourceExhausted,
            ) && final(self).spec_fuel_remaining() == 0 && final(self).spec_status()
                == SessionStatus::ResourceExhausted,
            outcome == EngineOutcome::Trapped ==> r == Err::<Vec<u8>, ExecutionError>(ExecutionError::RuntimeTrap)
                && final(self).spec_status() == SessionStatus::Faulted(ExecutionError::RuntimeTrap),
            outcome == EngineOutcome::Returned && !frame_in_bounds(memory@, OUTPUT_OFFSET as int, MAX_OUTPUT_LEN as nat)
                ==> r == Err::<Vec<u8>, ExecutionError>(ExecutionError::MemoryBoundsViolation)
                && final(self).spec_status() == SessionStatus::Faulted(ExecutionError::MemoryBoundsViolation),
            outcome == EngineOutcome::Returned && frame_in_bounds(memory@, OUTPUT_OFFSET as int, MAX_OUTPUT_LEN as nat)
                ==> r is Ok && r->Ok_0@ == frame_payload(memory@, OUTPUT_OFFSET as int)
                && final(self).spec_output() == r->Ok_0@
                && final(self).spec_status() == SessionStatus::Completed,
            outcome != EngineOutcome::OutOfFuel ==> final(self).spec_fuel_remaining() == if fuel_left
                < old(self).spec_fuel_remaining() {
                fuel_left
            } else {
                old(self).spec_fuel_remaining()
            },
    {
        match outcome {
            EngineOutcome::OutOfFuel => {
                self.fuel_remaining = 0;
                self.status = SessionStatus::ResourceExhausted;
                Err(ExecutionError::ResourceExhausted)
            },
            EngineOutcome::Trapped => {
                if fuel_left < self.fuel_remaining {
                    self.fuel_remaining = fuel_left;
                }
                self.status = SessionStatus::Faulted(ExecutionError::RuntimeTrap);
                Err(ExecutionError::RuntimeTrap)
            },
            EngineOutcome::Returned => {
                if fuel_left < self.fuel_remaining {
                    self.fuel_remaining = fuel_left;
                }
                match decode_frame(memory, OUTPUT_OFFSET, MAX_OUTPUT_LEN) {
                    Ok(out) => {
                        self.output = copy_bytes(&out);
                        self.status = SessionStatus::Completed;
                        Ok(out)
                    },
                    Err(e) => {
                        self.status = SessionStatus::Faulted(e);
                        Err(e)
                    },
                }
            },
        }
    }
}

fn copy_bytes(data: &Vec<u8>) -> (r: Vec<u8>)
    ensures
        r@ == data@,
{
    let mut r: Vec<u8> = Vec::new();
    let mut i: usize = 0;
    while i < data.len()
        invariant
            i <= data@.len(),
            r@ == data@.subrange(0, i as int),
        decreases data@.len() - i,
    {
        r.push(data[i]);
        i += 1;
        assert(r@ =~= data@.subrange(0, i as int));
    }
    assert(data@.subrange(0, data@.len() as int) =~= data@);
    r
}

} // verus!
