//! The virtual machine that replays bytecode against a gene library.

use crate::assoc::{entries_view, find_key, index_of, insert_entry, insert_key, unique_keys};
use crate::compiler::BytecodeProgram;
use crate::error::{ErrorView, VmError};
use crate::gene::{thawed, used, Gene, GeneLibrary, LibraryView};
use crate::machine::{
    emit_ref, output_limit_msg, read_block_at, skip_one, skip_one_pos, skip_operands_pos,
    skip_block_pos, text_fail_pos, block_fail_pos, read_text_at, read_u16_at, read_u32_at, read_u64_at,
    step, step_ale, step_def, step_err, step_ref, step_rpt, step_rpt_end, xorshift, xorshift_bytes,
    Transition, VmModel, MAX_LOOP_COUNT, MAX_OUTPUT_SIZE, machine_inv, run, finish, lemma_step_progress, measure,
    lemma_xorshift_bytes_len,
};
use crate::text::{decimal, joined, lossy_text, owned, push_decimal};
use vstd::bytes::{u16_from_le_bytes, u32_from_le_bytes, u64_from_le_bytes};
use vstd::prelude::*;
use vstd::slice::{slice_subrange, slice_to_vec};
use vstd::string::*;

verus! {

/// The STB virtual machine: it reconstructs an output by executing bytecode
/// against its gene library and its own local definitions.
pub struct STBVM {
    library: GeneLibrary,
    locals: Vec<(String, Vec<u8>)>,
    output: Vec<u8>,
    pub trace: Vec<String>,
    executed_instr: usize,
    failed_genes: usize,
    loop_stack: Vec<(usize, u32)>,
    permissive_mode: bool,
}

impl View for STBVM {
    type V = VmModel;

    closed spec fn view(&self) -> VmModel {
        VmModel {
            library: self.library@,
            locals: entries_view(self.locals@),
            output: self.output@,
            trace: self.trace@.map_values(|s: String| s@),
            executed: self.executed_instr,
            failed: self.failed_genes,
            loop_stack: self.loop_stack@,
            permissive: self.permissive_mode,
        }
    }
}

/// The state in which a run starts: output, trace, counters and loop stack
/// cleared; library, local definitions and mode kept.
pub open spec fn restart(m: VmModel) -> VmModel {
    VmModel {
        output: Seq::empty(),
        trace: Seq::empty(),
        executed: 0,
        failed: 0,
        loop_stack: Seq::empty(),
        ..m
    }
}

/// A new machine over a library: no local definitions, nothing run yet.
pub open spec fn fresh_model(library: LibraryView, permissive: bool) -> VmModel {
    VmModel {
        library: library,
        locals: Seq::empty(),
        output: Seq::empty(),
        trace: Seq::empty(),
        executed: 0,
        failed: 0,
        loop_stack: Seq::empty(),
        permissive: permissive,
    }
}

/// The mathematical value of a run's result.
pub open spec fn result_view(r: Result<Vec<u8>, VmError>) -> Result<Seq<u8>, ErrorView> {
    match r {
        Ok(v) => Ok(v@),
        Err(e) => Err(e@),
    }
}

/// The executable outcome of one instruction agrees with its transition.
pub open spec fn outcome_is(t: Transition, m: VmModel, pc: int, r: Result<bool, VmError>) -> bool {
    match t {
        Transition::Next(m2, p2) => r == Ok::<bool, VmError>(false) && m == m2 && pc == p2,
        Transition::Halt(m2) => r == Ok::<bool, VmError>(true) && m == m2,
        Transition::Fault(m2, e) => r matches Err(x) && x@ == e && m == m2,
    }
}

fn out_of_bounds() -> (e: VmError)
    ensures
        e@ == ErrorView::OutOfBounds,
{
    VmError::OutOfBounds
}

fn read_u16(bytes: &[u8], pc: &mut usize) -> (r: Result<u16, VmError>)
    requires
        *old(pc) <= bytes@.len(),
    ensures
        match read_u16_at(bytes@, *old(pc) as int) {
            None => r matches Err(e) && e@ == ErrorView::OutOfBounds && *final(pc) == *old(pc),
            Some((v, p)) => r == Ok::<u16, VmError>(v) && *final(pc) == p,
        },
{
    if bytes.len() < 2 || *pc > bytes.len() - 2 {
        return Err(out_of_bounds());
    }
    let v = u16_from_le_bytes(slice_subrange(bytes, *pc, *pc + 2));
    *pc = *pc + 2;
    Ok(v)
}

fn read_u32(bytes: &[u8], pc: &mut usize) -> (r: Result<u32, VmError>)
    requires
        *old(pc) <= bytes@.len(),
    ensures
        match read_u32_at(bytes@, *old(pc) as int) {
            None => r matches Err(e) && e@ == ErrorView::OutOfBounds && *final(pc) == *old(pc),
            Some((v, p)) => r == Ok::<u32, VmError>(v) && *final(pc) == p,
        },
{
    if bytes.len() < 4 || *pc > bytes.len() - 4 {
        return Err(out_of_bounds());
    }
    let v = u32_from_le_bytes(slice_subrange(bytes, *pc, *pc + 4));
    *pc = *pc + 4;
    Ok(v)
}

fn read_u64(bytes: &[u8], pc: &mut usize) -> (r: Result<u64, VmError>)
    requires
        *old(pc) <= bytes@.len(),
    ensures
        match read_u64_at(bytes@, *old(pc) as int) {
            None => r matches Err(e) && e@ == ErrorView::OutOfBounds && *final(pc) == *old(pc),
            Some((v, p)) => r == Ok::<u64, VmError>(v) && *final(pc) == p,
        },
{
    if bytes.len() < 8 || *pc > bytes.len() - 8 {
        return Err(out_of_bounds());
    }
    let v = u64_from_le_bytes(slice_subrange(bytes, *pc, *pc + 8));
    *pc = *pc + 8;
    Ok(v)
}

fn read_string(bytes: &[u8], pc: &mut usize) -> (r: Result<String, VmError>)
    requires
        *old(pc) <= bytes@.len(),
    ensures
        match read_text_at(bytes@, *old(pc) as int) {
            None => r matches Err(e) && e@ == ErrorView::OutOfBounds
                && *final(pc) == text_fail_pos(bytes@, *old(pc) as int),
            Some((s, p)) => r matches Ok(x) && x@ == s && *final(pc) == p,
        },
{
    let len = read_u16(bytes, pc)? as usize;
    if len > bytes.len() - *pc {
        return Err(out_of_bounds());
    }
    let s = lossy_text(slice_subrange(bytes, *pc, *pc + len));
    *pc = *pc + len;
    Ok(s)
}

fn read_bytes(bytes: &[u8], pc: &mut usize) -> (r: Result<Vec<u8>, VmError>)
    requires
        *old(pc) <= bytes@.len(),
    ensures
        match read_block_at(bytes@, *old(pc) as int) {
            None => r matches Err(e) && e@ == ErrorView::OutOfBounds
                && *final(pc) == block_fail_pos(bytes@, *old(pc) as int),
            Some((s, p)) => r matches Ok(x) && x@ == s && *final(pc) == p,
        },
{
    let len = read_u32(bytes, pc)? as usize;
    if len > bytes.len() - *pc {
        return Err(out_of_bounds());
    }
    let data = slice_to_vec(slice_subrange(bytes, *pc, *pc + len));
    *pc = *pc + len;
    Ok(data)
}

/// Skips the operands of one instruction other than a loop header, starting
/// at its opcode.
fn skip_operands(bytes: &[u8], pc: &mut usize) -> (r: Result<(), VmError>)
    requires
        *old(pc) < bytes@.len(),
    ensures
        match crate::machine::skip_operands(bytes@, *old(pc) as int) {
            Ok(p) => r is Ok && *final(pc) == p,
            Err(e) => r matches Err(x) && x@ == e,
        },
        *final(pc) == skip_operands_pos(bytes@, *old(pc) as int),
{
    let op = bytes[*pc];
    *pc = *pc + 1;
    if op == 0x01 {
        read_string(bytes, pc)?;
        read_bytes(bytes, pc)?;
    } else if op == 0x02 || op == 0x08 {
        read_string(bytes, pc)?;
    } else if op == 0x07 {
        read_u64(bytes, pc)?;
        read_u32(bytes, pc)?;
    } else if op == 0x04 || op == 0xFF {
    } else {
        return Err(VmError::InvalidOpcode(op));
    }
    Ok(())
}

/// Skips one whole instruction starting at its opcode; a loop is skipped
/// with its body, nested loops included, through its matching end marker.
fn skip_instruction(bytes: &[u8], pc: &mut usize) -> (r: Result<(), VmError>)
    ensures
        match skip_one(bytes@, *old(pc) as int) {
            Ok(p) => r is Ok && *final(pc) == p,
            Err(e) => r matches Err(x) && x@ == e,
        },
        *final(pc) == skip_one_pos(bytes@, *old(pc) as int),
    decreases bytes@.len() - *old(pc), 1int,
{
    if *pc >= bytes.len() {
        return Err(out_of_bounds());
    }
    if bytes[*pc] == 0x03 {
        *pc = *pc + 1;
        read_u32(bytes, pc)?;
        skip_loop_body(bytes, pc)
    } else {
        skip_operands(bytes, pc)
    }
}

/// Skips the body of a loop whose header has just been read, through its
/// matching end marker.
fn skip_loop_body(bytes: &[u8], pc: &mut usize) -> (r: Result<(), VmError>)
    requires
        1 <= *old(pc) <= bytes@.len(),
    ensures
        match crate::machine::skip_block(bytes@, *old(pc) as int, 1) {
            Ok(p) => r is Ok && *final(pc) == p,
            Err(e) => r matches Err(x) && x@ == e,
        },
        *final(pc) == skip_block_pos(bytes@, *old(pc) as int, 1),
    decreases bytes@.len() - *old(pc), 2int,
{
    let ghost start = *pc;
    let mut depth: usize = 1;
    while depth > 0 && *pc < bytes.len()
        invariant
            start == *old(pc),
            start <= *pc,
            depth <= *pc <= bytes@.len(),
            crate::machine::skip_block(bytes@, *pc as int, depth as nat) == crate::machine::skip_block(bytes@, start as int, 1),
            skip_block_pos(bytes@, *pc as int, depth as nat) == skip_block_pos(bytes@, start as int, 1),
        decreases bytes@.len() - *pc,
    {
        let op = bytes[*pc];
        if op == 0x03 {
            *pc = *pc + 1;
            match read_u32(bytes, pc) {
                Ok(_) => {},
                Err(e) => {
                    return Err(e);
                },
            }
            depth = depth + 1;
        } else if op == 0x04 {
            *pc = *pc + 1;
            depth = depth - 1;
        } else {
            match skip_instruction(bytes, pc) {
                Ok(()) => {},
                Err(e) => {
                    return Err(e);
                },
            }
        }
    }
    if depth != 0 {
        return Err(VmError::LoopMismatch);
    }
    Ok(())
}

/// The low bytes of the next `len` xorshift states after `seed`.
fn generate(seed: u64, len: usize) -> (buf: Vec<u8>)
    ensures
        buf@ == xorshift_bytes(seed, len as nat),
{
    let mut x = seed;
    let mut buf: Vec<u8> = Vec::with_capacity(len);
    let mut i: usize = 0;
    while i < len
        invariant
            0 <= i <= len,
            buf@ + xorshift_bytes(x, (len - i) as nat) == xorshift_bytes(seed, len as nat),
        decreases len - i,
    {
        let ghost x0 = x;
        x = x ^ (x << 13u64);
        x = x ^ (x >> 7u64);
        x = x ^ (x << 17u64);
        assert(x == xorshift(x0));
        let ghost before = buf@;
        buf.push((x & 0xFF) as u8);
        assert(buf@ + xorshift_bytes(x, (len - i - 1) as nat) =~= before + xorshift_bytes(x0, (len - i) as nat));
        i = i + 1;
    }
    assert(buf@ =~= xorshift_bytes(seed, len as nat));
    buf
}

impl STBVM {
    /// The machine's local definitions and library have unique keys.
    pub open spec fn wf(&self) -> bool {
        unique_keys(self@.locals) && unique_keys(self@.library.entries)
    }

    /// A strict machine over `library`.
    pub fn new(library: GeneLibrary) -> (vm: STBVM)
        requires
            library.wf(),
        ensures
            vm.wf(),
            vm@ == fresh_model(library@, false),
    {
        Self::new_with_mode(library, false)
    }

    /// A machine over `library`; a permissive machine logs missing genes and
    /// error instructions instead of failing on them.
    pub fn new_with_mode(library: GeneLibrary, permissive: bool) -> (vm: STBVM)
        requires
            library.wf(),
        ensures
            vm.wf(),
            vm@ == fresh_model(library@, permissive),
    {
        let vm = STBVM {
            library,
            locals: Vec::new(),
            output: Vec::new(),
            trace: Vec::new(),
            executed_instr: 0,
            failed_genes: 0,
            loop_stack: Vec::new(),
            permissive_mode: permissive,
        };
        assert(vm@.locals =~= Seq::<(Seq<char>, Seq<u8>)>::empty());
        assert(vm@.trace =~= Seq::<Seq<char>>::empty());
        vm
    }

    /// The number of failures counted by the last run.
    pub fn failed_genes(&self) -> (n: usize)
        ensures
            n == self@.failed,
    {
        self.failed_genes
    }

    /// The machine's library as it stands, with the use counts that its runs
    /// recorded.
    pub fn library(&self) -> (lib: &GeneLibrary)
        ensures
            lib@ == self@.library,
            self.wf() ==> lib.wf(),
    {
        &self.library
    }

    /// Adds a gene to the machine's library (its counter restored from the
    /// saved value), replacing any gene bound to that id; later runs resolve
    /// references against it. Nothing else changes.
    pub fn insert_gene(&mut self, gene: Gene)
        requires
            old(self).wf(),
        ensures
            final(self).wf(),
            final(self)@ == (VmModel {
                library: LibraryView {
                    entries: insert_entry(old(self)@.library.entries, gene@.id, thawed(gene@)),
                    path: old(self)@.library.path,
                },
                ..old(self)@
            }),
    {
        let ghost before = self@;
        self.library.insert(gene);
        assert(self@.library =~= (LibraryView {
            entries: insert_entry(before.library.entries, gene@.id, thawed(gene@)),
            path: before.library.path,
        }));
    }

    /// Hands back the machine's library, with the use counts that its runs
    /// recorded.
    pub fn into_library(self) -> (lib: GeneLibrary)
        requires
            self.wf(),
        ensures
            lib.wf(),
            lib@ == self@.library,
    {
        self.library
    }

    fn log(&mut self, line: String)
        ensures
            final(self)@ == (VmModel { trace: old(self)@.trace.push(line@), ..old(self)@ }),
    {
        let ghost before = self@;
        self.trace.push(line);
        assert(self@.trace =~= before.trace.push(line@));
    }

    fn append_output(&mut self, data: &[u8]) -> (r: Result<(), VmError>)
        ensures
            old(self)@.output.len() + data@.len() > MAX_OUTPUT_SIZE ==> (r matches Err(e)
                && e@ == ErrorView::Custom(output_limit_msg()) && final(self)@ == old(self)@),
            old(self)@.output.len() + data@.len() <= MAX_OUTPUT_SIZE ==> (r is Ok
                && final(self)@ == (VmModel { output: old(self)@.output + data@, ..old(self)@ })),
    {
        if self.output.len().saturating_add(data.len()) > MAX_OUTPUT_SIZE {
            return Err(VmError::Custom(owned("Output size limit exceeded")));
        }
        let ghost before = self@;
        crate::bytes::append_bytes(&mut self.output, data);
        assert(self@.trace =~= before.trace);
        Ok(())
    }

    fn count_failure(&mut self)
        ensures
            final(self)@ == (VmModel { failed: old(self)@.failed.wrapping_add(1), ..old(self)@ }),
    {
        self.failed_genes = self.failed_genes.wrapping_add(1);
    }

    fn exec_def(&mut self, bytes: &[u8], pc: &mut usize) -> (r: Result<bool, VmError>)
        requires
            old(self).wf(),
            *old(pc) <= bytes@.len(),
        ensures
            final(self).wf(),
            outcome_is(step_def(bytes@, old(self)@, *old(pc) as int), final(self)@, *final(pc) as int, r),
    {
        let id = read_string(bytes, pc)?;
        let data = read_bytes(bytes, pc)?;
        let line = joined("DEF ", id.as_str());
        let ghost before = self@;
        insert_key(&mut self.locals, id, data);
        assert(self@ == VmModel { locals: insert_entry(before.locals, id@, data@), ..before });
        self.log(line);
        Ok(false)
    }

    fn emit_ref(&mut self, id: &String, data: &[u8], pc: &mut usize, next: usize) -> (r: Result<bool, VmError>)
        requires
            old(self).wf(),
        ensures
            final(self).wf(),
            outcome_is(emit_ref(old(self)@, id@, data@, next as int), final(self)@, *final(pc) as int, r),
    {
        self.append_output(data)?;
        let mut line = joined("REF ", id.as_str());
        line.append(" (");
        push_decimal(&mut line, data.len() as u64);
        line.append("b)");
        self.log(line);
        *pc = next;
        Ok(false)
    }

    fn exec_ref(&mut self, bytes: &[u8], pc: &mut usize) -> (r: Result<bool, VmError>)
        requires
            old(self).wf(),
            *old(pc) <= bytes@.len(),
        ensures
            final(self).wf(),
            outcome_is(step_ref(bytes@, old(self)@, *old(pc) as int), final(self)@, *final(pc) as int, r),
    {
        let id = read_string(bytes, pc)?;
        let next = *pc;
        let ghost m = self@;
        match find_key(&self.locals, &id) {
            Some(i) => {
                let data = self.locals[i].1.clone();
                assert(data@ =~= m.locals[i as int].1);
                return self.emit_ref(&id, data.as_slice(), pc, next);
            },
            None => {},
        }
        match self.library.use_gene(&id) {
            Some(payload) => {
                assert(self@ == VmModel {
                    library: LibraryView {
                        entries: m.library.entries.update(index_of(m.library.entries, id@), (id@, used(m.library.entries[index_of(m.library.entries, id@)].1))),
                        ..m.library
                    },
                    ..m
                });
                return self.emit_ref(&id, payload.as_slice(), pc, next);
            },
            None => {},
        }
        self.count_failure();
        self.log(joined("⚠️ MISS ", id.as_str()));
        if !self.permissive_mode {
            return Err(VmError::GeneNotFound(id));
        }
        let empty: Vec<u8> = Vec::new();
        assert(empty@ =~= Seq::<u8>::empty());
        self.emit_ref(&id, empty.as_slice(), pc, next)
    }

    fn exec_rpt(&mut self, bytes: &[u8], pc: &mut usize) -> (r: Result<bool, VmError>)
        requires
            old(self).wf(),
            *old(pc) <= bytes@.len(),
        ensures
            final(self).wf(),
            outcome_is(step_rpt(bytes@, old(self)@, *old(pc) as int), final(self)@, *final(pc) as int, r),
    {
        let count = read_u32(bytes, pc)?;
        if count == 0 {
            skip_loop_body(bytes, pc)?;
        } else {
            if count > MAX_LOOP_COUNT {
                let mut msg = owned("Loop count ");
                push_decimal(&mut msg, count as u64);
                msg.append(" exceeds limit ");
                push_decimal(&mut msg, MAX_LOOP_COUNT as u64);
                return Err(VmError::Custom(msg));
            }
            let ghost before = self@;
            self.loop_stack.push((*pc, count - 1));
            assert(self@.trace =~= before.trace);
        }
        Ok(false)
    }

    fn exec_rpt_end(&mut self, pc: &mut usize) -> (r: Result<bool, VmError>)
        requires
            old(self).wf(),
        ensures
            final(self).wf(),
            outcome_is(step_rpt_end(old(self)@, *old(pc) as int), final(self)@, *final(pc) as int, r),
    {
        let k = self.loop_stack.len();
        if k == 0 {
            return Err(VmError::LoopMismatch);
        }
        let (start, remaining) = self.loop_stack[k - 1];
        let ghost before = self@;
        if remaining > 0 {
            self.loop_stack.set(k - 1, (start, remaining - 1));
            *pc = start;
        } else {
            self.loop_stack.pop();
            assert(self@.loop_stack =~= before.loop_stack.subrange(0, k - 1));
        }
        assert(self@.trace =~= before.trace);
        Ok(false)
    }

    fn exec_ale(&mut self, bytes: &[u8], pc: &mut usize) -> (r: Result<bool, VmError>)
        requires
            old(self).wf(),
            *old(pc) <= bytes@.len(),
        ensures
            final(self).wf(),
            outcome_is(step_ale(bytes@, old(self)@, *old(pc) as int), final(self)@, *final(pc) as int, r),
    {
        let seed = read_u64(bytes, pc)?;
        let len = read_u32(bytes, pc)? as usize;
        if len > MAX_OUTPUT_SIZE {
            return Err(VmError::Custom(owned("Ale length exceeds output limit")));
        }
        let buf = generate(seed, len);
        proof { lemma_xorshift_bytes_len(seed, len as nat); }
        self.append_output(buf.as_slice())?;
        let mut line = owned("ALE seed=");
        push_decimal(&mut line, seed);
        self.log(line);
        Ok(false)
    }

    fn exec_err(&mut self, bytes: &[u8], pc: &mut usize) -> (r: Result<bool, VmError>)
        requires
            old(self).wf(),
            *old(pc) <= bytes@.len(),
        ensures
            final(self).wf(),
            outcome_is(step_err(bytes@, old(self)@, *old(pc) as int), final(self)@, *final(pc) as int, r),
    {
        let msg = read_string(bytes, pc)?;
        self.count_failure();
        if !self.permissive_mode {
            return Err(VmError::Custom(msg));
        }
        self.log(joined("⚠️ ERR: ", msg.as_str()));
        Ok(false)
    }

    /// Executes the instruction at `pc`.
    fn exec_step(&mut self, bytes: &[u8], pc: &mut usize) -> (r: Result<bool, VmError>)
        requires
            old(self).wf(),
            *old(pc) < bytes@.len(),
        ensures
            final(self).wf(),
            outcome_is(step(bytes@, old(self)@, *old(pc) as int), final(self)@, *final(pc) as int, r),
    {
        let op = bytes[*pc];
        *pc = *pc + 1;
        self.executed_instr = self.executed_instr.wrapping_add(1);
        if op == 0x01 {
            self.exec_def(bytes, pc)
        } else if op == 0x02 {
            self.exec_ref(bytes, pc)
        } else if op == 0x03 {
            self.exec_rpt(bytes, pc)
        } else if op == 0x04 {
            self.exec_rpt_end(pc)
        } else if op == 0x07 {
            self.exec_ale(bytes, pc)
        } else if op == 0x08 {
            self.exec_err(bytes, pc)
        } else if op == 0xFF {
            self.log(owned("STP"));
            Ok(true)
        } else {
            Err(VmError::InvalidOpcode(op))
        }
    }
}

impl STBVM {
    /// Runs a program from its first byte and returns the output.
    ///
    /// The run starts with a cleared output, trace, loop stack and counters
    /// (local definitions and the library are kept) and follows `run`: it
    /// stops at the end of the program or at a `STP`, and fails with the
    /// first error met. A permissive run in which more than half of the
    /// executed instructions failed ends in apoptosis. The machine keeps the
    /// state in which the run ended.
    pub fn execute_bytecode(&mut self, bytecode: &BytecodeProgram) -> (r: Result<Vec<u8>, VmError>)
        requires
            old(self).wf(),
        ensures
            final(self).wf(),
            (final(self)@, result_view(r)) == run(bytecode.bytes@, restart(old(self)@), 0),
    {
        let bytes = bytecode.bytes.as_slice();
        let n = bytes.len();
        let mut pc: usize = 0;
        let ghost before = self@;
        self.output.clear();
        self.failed_genes = 0;
        self.executed_instr = 0;
        self.trace.clear();
        self.loop_stack.clear();
        let ghost start = self@;
        assert(start == restart(before)) by {
            assert(start.trace =~= Seq::<Seq<char>>::empty());
        }
        assert(start.loop_stack =~= Seq::<(usize, u32)>::empty());
        assert(machine_inv(bytes@.len(), start.loop_stack, 0));
        loop
            invariant_except_break
                self.wf(),
                start == restart(old(self)@),
                bytes@ == bytecode.bytes@,
                machine_inv(bytes@.len(), self@.loop_stack, pc as int),
                run(bytes@, self@, pc as int) == run(bytes@, start, 0),
            ensures
                self.wf(),
                finish(self@) == run(bytes@, start, 0),
            decreases measure(bytes@.len(), self@.loop_stack, pc as int),
        {
            if pc >= bytes.len() {
                break;
            }
            let ghost m0 = self@;
            let ghost pc0 = pc as int;
            proof {
                lemma_step_progress(bytes@, m0, pc0);
                assert(run(bytes@, m0, pc0) == match step(bytes@, m0, pc0) {
                    Transition::Next(m2, p2) => run(bytes@, m2, p2),
                    Transition::Halt(m2) => finish(m2),
                    Transition::Fault(m2, e) => (m2, Err(e)),
                });
            }
            match self.exec_step(bytes, &mut pc) {
                Ok(false) => {},
                Ok(true) => {
                    break;
                },
                Err(e) => {
                    return Err(e);
                },
            }
        }
        if self.permissive_mode && self.executed_instr > 0
            && (self.failed_genes as u128) * 2 > self.executed_instr as u128 {
            let mut msg = String::new();
            push_decimal(&mut msg, self.failed_genes as u64);
            msg.append("/");
            push_decimal(&mut msg, self.executed_instr as u64);
            msg.append(" genes falharam (>50%)");
            assert(msg@ =~= crate::machine::apoptosis_msg(self@.failed, self@.executed));
            return Err(VmError::Apoptosis(msg));
        }
        let out = self.output.clone();
        assert(out@ =~= self@.output);
        Ok(out)
    }
}

} // verus!
