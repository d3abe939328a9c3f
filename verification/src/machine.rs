//! The semantics of the virtual machine: the state it works on, how one
//! instruction changes it, and the run of a whole program.

use crate::assoc::{index_of, insert_entry};
use crate::error::ErrorView;
use crate::gene::{used, LibraryView};
use crate::text::{decimal, utf8_lossy};
use vstd::bytes::{spec_u16_from_le_bytes, spec_u32_from_le_bytes, spec_u64_from_le_bytes};
use vstd::prelude::*;

verus! {

/// The largest output a run may produce (64 MiB).
pub const MAX_OUTPUT_SIZE: usize = 67108864;

/// The largest repeat count a loop may have.
pub const MAX_LOOP_COUNT: u32 = 1000000;

/// The state of the machine, apart from its program counter.
pub struct VmModel {
    pub library: LibraryView,
    pub locals: Seq<(Seq<char>, Seq<u8>)>,
    pub output: Seq<u8>,
    pub trace: Seq<Seq<char>>,
    pub executed: usize,
    pub failed: usize,
    pub loop_stack: Seq<(usize, u32)>,
    pub permissive: bool,
}

/// What one instruction does: go on at a new position, stop, or fail.
pub enum Transition {
    Next(VmModel, int),
    Halt(VmModel),
    Fault(VmModel, ErrorView),
}

// ---------------------------------------------------------------------------
// Messages and trace lines

pub open spec fn output_limit_msg() -> Seq<char> {
    "Output size limit exceeded"@
}

pub open spec fn ale_limit_msg() -> Seq<char> {
    "Ale length exceeds output limit"@
}

pub open spec fn loop_limit_msg(count: u32) -> Seq<char> {
    "Loop count "@ + decimal(count as nat) + " exceeds limit "@ + decimal(MAX_LOOP_COUNT as nat)
}

pub open spec fn apoptosis_msg(failed: usize, executed: usize) -> Seq<char> {
    decimal(failed as nat) + "/"@ + decimal(executed as nat) + " genes falharam (>50%)"@
}

pub open spec fn def_line(id: Seq<char>) -> Seq<char> {
    "DEF "@ + id
}

pub open spec fn miss_line(id: Seq<char>) -> Seq<char> {
    "⚠️ MISS "@ + id
}

pub open spec fn ref_line(id: Seq<char>, n: nat) -> Seq<char> {
    "REF "@ + id + " ("@ + decimal(n) + "b)"@
}

pub open spec fn ale_line(seed: u64) -> Seq<char> {
    "ALE seed="@ + decimal(seed as nat)
}

pub open spec fn err_line(msg: Seq<char>) -> Seq<char> {
    "⚠️ ERR: "@ + msg
}

pub open spec fn stp_line() -> Seq<char> {
    "STP"@
}

// ---------------------------------------------------------------------------
// Reading operands

/// A little-endian `u16` at `pc`, and the position after it.
pub open spec fn read_u16_at(b: Seq<u8>, pc: int) -> Option<(u16, int)> {
    if pc + 1 >= b.len() {
        None
    } else {
        Some((spec_u16_from_le_bytes(b.subrange(pc, pc + 2)), pc + 2))
    }
}

/// A little-endian `u32` at `pc`, and the position after it.
pub open spec fn read_u32_at(b: Seq<u8>, pc: int) -> Option<(u32, int)> {
    if pc + 3 >= b.len() {
        None
    } else {
        Some((spec_u32_from_le_bytes(b.subrange(pc, pc + 4)), pc + 4))
    }
}

/// A little-endian `u64` at `pc`, and the position after it.
pub open spec fn read_u64_at(b: Seq<u8>, pc: int) -> Option<(u64, int)> {
    if pc + 7 >= b.len() {
        None
    } else {
        Some((spec_u64_from_le_bytes(b.subrange(pc, pc + 8)), pc + 8))
    }
}

/// A `u16`-length-prefixed text field at `pc`, decoded lossily.
pub open spec fn read_text_at(b: Seq<u8>, pc: int) -> Option<(Seq<char>, int)> {
    match read_u16_at(b, pc) {
        None => None,
        Some((n, p)) => if p + n > b.len() {
            None
        } else {
            Some((utf8_lossy(b.subrange(p, p + n)), p + n))
        },
    }
}

/// A `u32`-length-prefixed byte field at `pc`.
pub open spec fn read_block_at(b: Seq<u8>, pc: int) -> Option<(Seq<u8>, int)> {
    match read_u32_at(b, pc) {
        None => None,
        Some((n, p)) => if p + n > b.len() {
            None
        } else {
            Some((b.subrange(p, p + n), p + n))
        },
    }
}

// ---------------------------------------------------------------------------
// Skipping the body of a loop that runs zero times

/// Skips one instruction other than a loop marker, starting at its opcode.
pub open spec fn skip_operands(b: Seq<u8>, pc: int) -> Result<int, ErrorView> {
    let op = b[pc];
    let p = pc + 1;
    if op == 0x01 {
        match read_text_at(b, p) {
            None => Err(ErrorView::OutOfBounds),
            Some((_, p2)) => match read_block_at(b, p2) {
                None => Err(ErrorView::OutOfBounds),
                Some((_, p3)) => Ok(p3),
            },
        }
    } else if op == 0x02 || op == 0x08 {
        match read_text_at(b, p) {
            None => Err(ErrorView::OutOfBounds),
            Some((_, p2)) => Ok(p2),
        }
    } else if op == 0x07 {
        match read_u64_at(b, p) {
            None => Err(ErrorView::OutOfBounds),
            Some((_, p2)) => match read_u32_at(b, p2) {
                None => Err(ErrorView::OutOfBounds),
                Some((_, p3)) => Ok(p3),
            },
        }
    } else if op == 0x04 || op == 0xFF {
        Ok(p)
    } else {
        Err(ErrorView::InvalidOpcode(op))
    }
}

/// Skips forward from `pc` until `depth` open loops are closed, counting
/// nested loop headers; fails when the program ends first.
pub open spec fn skip_block(b: Seq<u8>, pc: int, depth: nat) -> Result<int, ErrorView>
    decreases b.len() - pc,
{
    if depth > 0 && 0 <= pc < b.len() {
        let op = b[pc];
        if op == 0x03 {
            match read_u32_at(b, pc + 1) {
                None => Err(ErrorView::OutOfBounds),
                Some((_, p)) => skip_block(b, p, depth + 1),
            }
        } else if op == 0x04 {
            skip_block(b, pc + 1, (depth - 1) as nat)
        } else {
            match skip_operands(b, pc) {
                Err(e) => Err(e),
                Ok(p) => skip_block(b, p, depth),
            }
        }
    } else if depth != 0 {
        Err(ErrorView::LoopMismatch)
    } else {
        Ok(pc)
    }
}

/// Skips one whole instruction starting at its opcode: a loop header is
/// skipped with its body through the matching end marker.
pub open spec fn skip_one(b: Seq<u8>, pc: int) -> Result<int, ErrorView> {
    if !(0 <= pc < b.len()) {
        Err(ErrorView::OutOfBounds)
    } else if b[pc] == 0x03 {
        match read_u32_at(b, pc + 1) {
            None => Err(ErrorView::OutOfBounds),
            Some((_, p)) => skip_block(b, p, 1),
        }
    } else {
        skip_operands(b, pc)
    }
}

/// Where reading a text field at `p` stops when it fails: at `p` when its
/// length is missing, just after the length when the text is cut short.
pub open spec fn text_fail_pos(b: Seq<u8>, p: int) -> int {
    if read_u16_at(b, p) is None { p } else { p + 2 }
}

/// Where reading a byte field at `p` stops when it fails: at `p` when its
/// length is missing, just after the length when the data is cut short.
pub open spec fn block_fail_pos(b: Seq<u8>, p: int) -> int {
    if read_u32_at(b, p) is None { p } else { p + 4 }
}

/// The position at which `skip_operands` stops, whether it succeeds or fails.
pub open spec fn skip_operands_pos(b: Seq<u8>, pc: int) -> int {
    let op = b[pc];
    let p = pc + 1;
    if op == 0x01 {
        match read_text_at(b, p) {
            None => text_fail_pos(b, p),
            Some((_, p2)) => match read_block_at(b, p2) {
                None => block_fail_pos(b, p2),
                Some((_, p3)) => p3,
            },
        }
    } else if op == 0x02 || op == 0x08 {
        match read_text_at(b, p) {
            None => text_fail_pos(b, p),
            Some((_, p2)) => p2,
        }
    } else if op == 0x07 {
        match read_u64_at(b, p) {
            None => p,
            Some((_, p2)) => match read_u32_at(b, p2) {
                None => p2,
                Some((_, p3)) => p3,
            },
        }
    } else {
        p
    }
}

/// The position at which `skip_block` stops, whether it succeeds or fails.
pub open spec fn skip_block_pos(b: Seq<u8>, pc: int, depth: nat) -> int
    decreases b.len() - pc,
{
    if depth > 0 && 0 <= pc < b.len() {
        let op = b[pc];
        if op == 0x03 {
            match read_u32_at(b, pc + 1) {
                None => pc + 1,
                Some((_, p)) => skip_block_pos(b, p, depth + 1),
            }
        } else if op == 0x04 {
            skip_block_pos(b, pc + 1, (depth - 1) as nat)
        } else {
            match skip_operands(b, pc) {
                Err(_) => skip_operands_pos(b, pc),
                Ok(p) => skip_block_pos(b, p, depth),
            }
        }
    } else {
        pc
    }
}

/// The position at which `skip_one` stops, whether it succeeds or fails.
pub open spec fn skip_one_pos(b: Seq<u8>, pc: int) -> int {
    if !(0 <= pc < b.len()) {
        pc
    } else if b[pc] == 0x03 {
        match read_u32_at(b, pc + 1) {
            None => pc + 1,
            Some((_, p)) => skip_block_pos(b, p, 1),
        }
    } else {
        skip_operands_pos(b, pc)
    }
}

// ---------------------------------------------------------------------------
// Generated bytes

/// One step of the xorshift generator.
pub open spec fn xorshift(x: u64) -> u64 {
    let a = x ^ (x << 13u64);
    let c = a ^ (a >> 7u64);
    c ^ (c << 17u64)
}

/// The low bytes of the next `n` xorshift states after `x`.
pub open spec fn xorshift_bytes(x: u64, n: nat) -> Seq<u8>
    decreases n,
{
    if n == 0 {
        Seq::empty()
    } else {
        let y = xorshift(x);
        seq![(y & 0xFF) as u8] + xorshift_bytes(y, (n - 1) as nat)
    }
}

/// The generator yields exactly the requested number of bytes.
pub proof fn lemma_xorshift_bytes_len(x: u64, n: nat)
    ensures
        xorshift_bytes(x, n).len() == n,
    decreases n,
{
    if n > 0 {
        lemma_xorshift_bytes_len(xorshift(x), (n - 1) as nat);
    }
}

/// Skipping fails only for a truncated, malformed or unclosed program.
pub proof fn lemma_skip_block_errors(b: Seq<u8>, pc: int, depth: nat)
    ensures
        skip_block(b, pc, depth) matches Err(e) ==> (e is OutOfBounds || e is InvalidOpcode || e is LoopMismatch),
    decreases b.len() - pc,
{
    if depth > 0 && 0 <= pc < b.len() {
        let op = b[pc];
        if op == 0x03 {
            match read_u32_at(b, pc + 1) {
                None => {},
                Some((_, p)) => lemma_skip_block_errors(b, p, depth + 1),
            }
        } else if op == 0x04 {
            lemma_skip_block_errors(b, pc + 1, (depth - 1) as nat);
        } else {
            match skip_operands(b, pc) {
                Err(e) => {},
                Ok(p) => lemma_skip_block_errors(b, p, depth),
            }
        }
    }
}

// ---------------------------------------------------------------------------
// One instruction

/// Appends `data` to the output and logs the reference, unless the output
/// would outgrow its limit.
pub open spec fn emit_ref(m: VmModel, id: Seq<char>, data: Seq<u8>, next: int) -> Transition {
    if m.output.len() + data.len() > MAX_OUTPUT_SIZE {
        Transition::Fault(m, ErrorView::Custom(output_limit_msg()))
    } else {
        Transition::Next(
            VmModel { output: m.output + data, trace: m.trace.push(ref_line(id, data.len())), ..m },
            next,
        )
    }
}

/// Binds a local definition.
pub open spec fn def_effect(m: VmModel, id: Seq<char>, data: Seq<u8>) -> VmModel {
    VmModel { locals: insert_entry(m.locals, id, data), trace: m.trace.push(def_line(id)), ..m }
}

/// Resolves a reference: a local definition first, then a gene of the
/// library (whose use is counted), else a miss.
pub open spec fn ref_effect(m: VmModel, id: Seq<char>, next: int) -> Transition {
    let li = index_of(m.locals, id);
    let gi = index_of(m.library.entries, id);
    if li >= 0 {
        emit_ref(m, id, m.locals[li].1, next)
    } else if gi >= 0 {
        let g = m.library.entries[gi].1;
        let lib = LibraryView { entries: m.library.entries.update(gi, (id, used(g))), ..m.library };
        emit_ref(VmModel { library: lib, ..m }, id, g.payload, next)
    } else {
        let m2 = VmModel { failed: m.failed.wrapping_add(1), trace: m.trace.push(miss_line(id)), ..m };
        if !m.permissive {
            Transition::Fault(m2, ErrorView::GeneNotFound(id))
        } else {
            emit_ref(m2, id, Seq::empty(), next)
        }
    }
}

/// Appends `len` generated bytes.
pub open spec fn ale_effect(m: VmModel, seed: u64, len: u32, next: int) -> Transition {
    if len > MAX_OUTPUT_SIZE {
        Transition::Fault(m, ErrorView::Custom(ale_limit_msg()))
    } else if m.output.len() + len > MAX_OUTPUT_SIZE {
        Transition::Fault(m, ErrorView::Custom(output_limit_msg()))
    } else {
        Transition::Next(
            VmModel { output: m.output + xorshift_bytes(seed, len as nat), trace: m.trace.push(ale_line(seed)), ..m },
            next,
        )
    }
}

/// Counts an error instruction; fails unless the machine is permissive.
pub open spec fn err_effect(m: VmModel, msg: Seq<char>, next: int) -> Transition {
    let m2 = VmModel { failed: m.failed.wrapping_add(1), ..m };
    if !m.permissive {
        Transition::Fault(m2, ErrorView::Custom(msg))
    } else {
        Transition::Next(VmModel { trace: m2.trace.push(err_line(msg)), ..m2 }, next)
    }
}

pub open spec fn step_def(b: Seq<u8>, m: VmModel, p: int) -> Transition {
    match read_text_at(b, p) {
        None => Transition::Fault(m, ErrorView::OutOfBounds),
        Some((id, p2)) => match read_block_at(b, p2) {
            None => Transition::Fault(m, ErrorView::OutOfBounds),
            Some((data, p3)) => Transition::Next(def_effect(m, id, data), p3),
        },
    }
}

pub open spec fn step_ref(b: Seq<u8>, m: VmModel, p: int) -> Transition {
    match read_text_at(b, p) {
        None => Transition::Fault(m, ErrorView::OutOfBounds),
        Some((id, p2)) => ref_effect(m, id, p2),
    }
}

pub open spec fn step_rpt(b: Seq<u8>, m: VmModel, p: int) -> Transition {
    match read_u32_at(b, p) {
        None => Transition::Fault(m, ErrorView::OutOfBounds),
        Some((count, p2)) => if count == 0 {
            match skip_block(b, p2, 1) {
                Ok(p3) => Transition::Next(m, p3),
                Err(e) => Transition::Fault(m, e),
            }
        } else if count > MAX_LOOP_COUNT {
            Transition::Fault(m, ErrorView::Custom(loop_limit_msg(count)))
        } else {
            Transition::Next(VmModel { loop_stack: m.loop_stack.push((p2 as usize, (count - 1) as u32)), ..m }, p2)
        },
    }
}

pub open spec fn step_rpt_end(m: VmModel, p: int) -> Transition {
    let k = m.loop_stack.len();
    if k == 0 {
        Transition::Fault(m, ErrorView::LoopMismatch)
    } else {
        let top = m.loop_stack[k - 1];
        if top.1 > 0 {
            Transition::Next(
                VmModel { loop_stack: m.loop_stack.update(k - 1, (top.0, (top.1 - 1) as u32)), ..m },
                top.0 as int,
            )
        } else {
            Transition::Next(VmModel { loop_stack: m.loop_stack.subrange(0, k - 1), ..m }, p)
        }
    }
}

pub open spec fn step_ale(b: Seq<u8>, m: VmModel, p: int) -> Transition {
    match read_u64_at(b, p) {
        None => Transition::Fault(m, ErrorView::OutOfBounds),
        Some((seed, p2)) => match read_u32_at(b, p2) {
            None => Transition::Fault(m, ErrorView::OutOfBounds),
            Some((len, p3)) => ale_effect(m, seed, len, p3),
        },
    }
}

pub open spec fn step_err(b: Seq<u8>, m: VmModel, p: int) -> Transition {
    match read_text_at(b, p) {
        None => Transition::Fault(m, ErrorView::OutOfBounds),
        Some((msg, p2)) => err_effect(m, msg, p2),
    }
}

/// Counts one executed instruction.
pub open spec fn tick(m: VmModel) -> VmModel {
    VmModel { executed: m.executed.wrapping_add(1), ..m }
}

/// The effect of the instruction at `pc` (which must lie inside the program).
pub open spec fn step(b: Seq<u8>, m0: VmModel, pc: int) -> Transition {
    let op = b[pc];
    let p = pc + 1;
    let m = tick(m0);
    if op == 0x01 {
        step_def(b, m, p)
    } else if op == 0x02 {
        step_ref(b, m, p)
    } else if op == 0x03 {
        step_rpt(b, m, p)
    } else if op == 0x04 {
        step_rpt_end(m, p)
    } else if op == 0x07 {
        step_ale(b, m, p)
    } else if op == 0x08 {
        step_err(b, m, p)
    } else if op == 0xFF {
        Transition::Halt(VmModel { trace: m.trace.push(stp_line()), ..m })
    } else {
        Transition::Fault(m, ErrorView::InvalidOpcode(op))
    }
}

// ---------------------------------------------------------------------------
// A whole run

/// Whether a permissive run ends in apoptosis: more than half of the executed
/// instructions were failures.
pub open spec fn apoptosis(m: VmModel) -> bool {
    m.permissive && m.executed > 0 && 2 * m.failed > m.executed
}

/// The end of a run: apoptosis, or the output.
pub open spec fn finish(m: VmModel) -> (VmModel, Result<Seq<u8>, ErrorView>) {
    if apoptosis(m) {
        (m, Err(ErrorView::Apoptosis(apoptosis_msg(m.failed, m.executed))))
    } else {
        (m, Ok(m.output))
    }
}

/// The loop stack is consistent with the position: loop starts strictly
/// increase, the `i`-th start lies past position `i`, and none lies past `pc`,
/// which lies inside the program or at its end.
pub open spec fn machine_inv(len: nat, stack: Seq<(usize, u32)>, pc: int) -> bool {
    &&& 0 <= pc <= len <= usize::MAX
    &&& forall|i: int| 0 <= i < stack.len() ==> i < #[trigger] stack[i].0 <= pc
    &&& forall|i: int, j: int| 0 <= i < j < stack.len() ==> #[trigger] stack[i].0 < #[trigger] stack[j].0
}

/// The final state and result of running the program `b` from state `m` at `pc`.
pub open spec fn run(b: Seq<u8>, m: VmModel, pc: int) -> (VmModel, Result<Seq<u8>, ErrorView>)
    decreases measure(b.len(), m.loop_stack, pc),
    when machine_inv(b.len(), m.loop_stack, pc)
    via run_decreases
{
    if pc >= b.len() {
        finish(m)
    } else {
        match step(b, m, pc) {
            Transition::Next(m2, p2) => run(b, m2, p2),
            Transition::Halt(m2) => finish(m2),
            Transition::Fault(m2, e) => (m2, Err(e)),
        }
    }
}

#[via_fn]
proof fn run_decreases(b: Seq<u8>, m: VmModel, pc: int) {
    if pc < b.len() {
        lemma_step_progress(b, m, pc);
    }
}

// ---------------------------------------------------------------------------
// Termination: a lexicographic measure over the loop stack

/// The base of the measure's digits.
pub open spec fn digit_base(len: nat) -> int {
    len as int + 4294967297
}

/// `base` to the power `n`.
pub open spec fn weight(base: int, n: nat) -> int
    decreases n,
{
    if n == 0 { 1 } else { base * weight(base, (n - 1) as nat) }
}

/// The digits `d`, most significant first, read as a number of `n` digits.
pub open spec fn digits_value(d: Seq<int>, base: int, n: nat) -> int
    decreases d.len(),
{
    if d.len() == 0 || n == 0 {
        0
    } else {
        d[0] * weight(base, (n - 1) as nat) + digits_value(d.subrange(1, d.len() as int), base, (n - 1) as nat)
    }
}

/// Each loop contributes the distance of its start from the end and its
/// remaining count.
pub open spec fn stack_digits(len: nat, stack: Seq<(usize, u32)>) -> Seq<int>
    decreases stack.len(),
{
    if stack.len() == 0 {
        Seq::empty()
    } else {
        let k = stack.len() - 1;
        stack_digits(len, stack.subrange(0, k)) + seq![len - stack[k].0, stack[k].1 as int]
    }
}

pub open spec fn state_digits(len: nat, stack: Seq<(usize, u32)>, pc: int) -> Seq<int> {
    stack_digits(len, stack) + seq![len - pc]
}

/// The termination measure of a run.
pub open spec fn measure(len: nat, stack: Seq<(usize, u32)>, pc: int) -> nat {
    let v = digits_value(state_digits(len, stack, pc), digit_base(len), 2 * len + 1);
    if v >= 0 { v as nat } else { 0 }
}


proof fn lemma_weight_positive(base: int, n: nat)
    requires
        base >= 1,
    ensures
        weight(base, n) >= 1,
    decreases n,
{
    if n > 0 {
        lemma_weight_positive(base, (n - 1) as nat);
        let w = weight(base, (n - 1) as nat);
        assert(base * w >= 1) by (nonlinear_arith)
            requires
                base >= 1,
                w >= 1,
        ;
    }
}

/// Digits that all lie in `[0, base)`.
pub open spec fn digits_in_range(d: Seq<int>, base: int) -> bool {
    forall|i: int| 0 <= i < d.len() ==> 0 <= #[trigger] d[i] < base
}

proof fn lemma_value_bounds(d: Seq<int>, base: int, n: nat)
    requires
        base >= 2,
        d.len() <= n,
        digits_in_range(d, base),
    ensures
        0 <= digits_value(d, base, n) < weight(base, n),
    decreases d.len(),
{
    lemma_weight_positive(base, n);
    if d.len() > 0 {
        let rest = d.subrange(1, d.len() as int);
        assert(digits_in_range(rest, base)) by {
            assert forall|i: int| 0 <= i < rest.len() implies 0 <= #[trigger] rest[i] < base by {
                assert(rest[i] == d[i + 1]);
            }
        }
        lemma_value_bounds(rest, base, (n - 1) as nat);
        let w = weight(base, (n - 1) as nat);
        let v = digits_value(rest, base, (n - 1) as nat);
        let d0 = d[0];
        lemma_weight_positive(base, (n - 1) as nat);
        assert(0 <= d0 * w + v < base * w) by (nonlinear_arith)
            requires
                0 <= d0 < base,
                0 <= v < w,
                w >= 1,
        ;
    }
}

proof fn lemma_value_prefix(pre: Seq<int>, x: Seq<int>, y: Seq<int>, base: int, n: nat)
    requires
        base >= 2,
        x.len() >= 1,
        y.len() >= 1,
        x[0] < y[0],
        (pre + x).len() <= n,
        (pre + y).len() <= n,
        digits_in_range(pre + x, base),
        digits_in_range(pre + y, base),
    ensures
        digits_value(pre + x, base, n) < digits_value(pre + y, base, n),
    decreases pre.len(),
{
    let a = pre + x;
    let b = pre + y;
    let w = weight(base, (n - 1) as nat);
    lemma_weight_positive(base, (n - 1) as nat);
    let ra = a.subrange(1, a.len() as int);
    let rb = b.subrange(1, b.len() as int);
    assert(digits_in_range(ra, base)) by {
        assert forall|i: int| 0 <= i < ra.len() implies 0 <= #[trigger] ra[i] < base by {
            assert(ra[i] == a[i + 1]);
        }
    }
    assert(digits_in_range(rb, base)) by {
        assert forall|i: int| 0 <= i < rb.len() implies 0 <= #[trigger] rb[i] < base by {
            assert(rb[i] == b[i + 1]);
        }
    }
    if pre.len() == 0 {
        assert(a =~= x);
        assert(b =~= y);
        lemma_value_bounds(ra, base, (n - 1) as nat);
        lemma_value_bounds(rb, base, (n - 1) as nat);
        let va = digits_value(ra, base, (n - 1) as nat);
        let vb = digits_value(rb, base, (n - 1) as nat);
        let x0 = x[0];
        let y0 = y[0];
        assert(x0 * w + va < y0 * w + vb) by (nonlinear_arith)
            requires
                x0 < y0,
                0 <= va < w,
                0 <= vb,
        ;
    } else {
        let p2 = pre.subrange(1, pre.len() as int);
        assert(ra =~= p2 + x);
        assert(rb =~= p2 + y);
        lemma_value_prefix(p2, x, y, base, (n - 1) as nat);
    }
}

/// The digit of a loop stack at position `j`.
pub open spec fn stack_digit(len: nat, stack: Seq<(usize, u32)>, j: int) -> int {
    if j % 2 == 0 { len - stack[j / 2].0 } else { stack[j / 2].1 as int }
}

proof fn lemma_stack_digits(len: nat, stack: Seq<(usize, u32)>)
    ensures
        stack_digits(len, stack).len() == 2 * stack.len(),
        forall|j: int| 0 <= j < 2 * stack.len() ==> #[trigger] stack_digits(len, stack)[j] == stack_digit(len, stack, j),
    decreases stack.len(),
{
    if stack.len() > 0 {
        let k = stack.len() - 1;
        let pre = stack.subrange(0, k);
        lemma_stack_digits(len, pre);
        let sd = stack_digits(len, stack);
        assert forall|j: int| 0 <= j < 2 * stack.len() implies #[trigger] sd[j] == stack_digit(len, stack, j) by {
            if j < 2 * k {
                assert(sd[j] == stack_digits(len, pre)[j]);
                assert(pre[j / 2] == stack[j / 2]);
            } else if j == 2 * k {
                assert(j / 2 == k);
            } else {
                assert(j / 2 == k);
            }
        }
    }
}

proof fn lemma_state_digits_in_range(len: nat, stack: Seq<(usize, u32)>, pc: int)
    requires
        machine_inv(len, stack, pc),
    ensures
        digits_in_range(state_digits(len, stack, pc), digit_base(len)),
        state_digits(len, stack, pc).len() <= 2 * len + 1,
{
    lemma_stack_digits(len, stack);
    let d = state_digits(len, stack, pc);
    assert forall|j: int| 0 <= j < d.len() implies 0 <= #[trigger] d[j] < digit_base(len) by {
        if j < 2 * stack.len() {
            let i = j / 2;
            assert(d[j] == stack_digits(len, stack)[j]);
            assert(0 <= i < stack.len());
            assert(i < stack[i].0 <= pc);
            assert(stack_digits(len, stack)[j] == stack_digit(len, stack, j));
        } else {
            assert(d[j] == len - pc);
        }
    }
    if stack.len() > 0 {
        let k = stack.len() - 1;
        assert(k < stack[k].0 <= pc);
    }
}

/// Skipping never moves backward and never leaves the program.
proof fn lemma_skip_block_range(b: Seq<u8>, pc: int, depth: nat)
    requires
        0 <= pc <= b.len(),
    ensures
        skip_block(b, pc, depth) matches Ok(p) ==> pc <= p <= b.len(),
    decreases b.len() - pc,
{
    if depth > 0 && 0 <= pc < b.len() {
        let op = b[pc];
        if op == 0x03 {
            match read_u32_at(b, pc + 1) {
                None => {},
                Some((_, p)) => lemma_skip_block_range(b, p, depth + 1),
            }
        } else if op == 0x04 {
            lemma_skip_block_range(b, pc + 1, (depth - 1) as nat);
        } else {
            match skip_operands(b, pc) {
                Err(e) => {},
                Ok(p) => lemma_skip_block_range(b, p, depth),
            }
        }
    }
}

/// Moving forward without touching the loop stack lowers the measure.
proof fn lemma_forward(len: nat, stack: Seq<(usize, u32)>, pc: int, p2: int)
    requires
        machine_inv(len, stack, pc),
        pc < p2 <= len,
    ensures
        machine_inv(len, stack, p2),
        measure(len, stack, p2) < measure(len, stack, pc),
{
    let base = digit_base(len);
    let n = 2 * len + 1;
    lemma_state_digits_in_range(len, stack, pc);
    lemma_state_digits_in_range(len, stack, p2);
    lemma_value_prefix(stack_digits(len, stack), seq![len - p2], seq![len - pc], base, n as nat);
    lemma_value_bounds(state_digits(len, stack, p2), base, n as nat);
}

/// Every instruction that goes on keeps the loop stack consistent and lowers
/// the measure.
pub proof fn lemma_step_progress(b: Seq<u8>, m: VmModel, pc: int)
    requires
        machine_inv(b.len(), m.loop_stack, pc),
        pc < b.len(),
    ensures
        step(b, m, pc) matches Transition::Next(m2, p2) ==> machine_inv(b.len(), m2.loop_stack, p2)
            && measure(b.len(), m2.loop_stack, p2) < measure(b.len(), m.loop_stack, pc),
{
    let len = b.len();
    let stack = m.loop_stack;
    let base = digit_base(len);
    let n = (2 * len + 1) as nat;
    let op = b[pc];
    let p = pc + 1;
    let mm = VmModel { executed: m.executed.wrapping_add(1), ..m };
    if let Transition::Next(m2, p2) = step(b, m, pc) {
        lemma_state_digits_in_range(len, stack, pc);
        if op == 0x03 {
            let (count, q) = read_u32_at(b, p)->Some_0;
            if count == 0 {
                lemma_skip_block_range(b, q, 1);
                lemma_forward(len, stack, pc, p2);
            } else {
                // a new loop starts at q
                let s2 = stack.push((q as usize, (count - 1) as u32));
                assert(m2.loop_stack == s2);
                assert(machine_inv(len, s2, q)) by {
                    if stack.len() > 0 {
                        let k = stack.len() - 1;
                        assert(k < stack[k].0 <= pc);
                    }
                }
                assert(s2.subrange(0, stack.len() as int) =~= stack);
                assert(state_digits(len, s2, q) =~= stack_digits(len, stack) + seq![len - q, (count - 1) as int, len - q]);
                lemma_state_digits_in_range(len, s2, q);
                lemma_value_prefix(stack_digits(len, stack), seq![len - q, (count - 1) as int, len - q], seq![len - pc], base, n);
                lemma_value_bounds(state_digits(len, s2, q), base, n);
            }
        } else if op == 0x04 {
            let k = stack.len() - 1;
            let top = stack[k];
            let pre = stack.subrange(0, k);
            assert(state_digits(len, stack, pc) =~= stack_digits(len, pre) + seq![len - top.0, top.1 as int, len - pc]);
            if top.1 > 0 {
                let s2 = stack.update(k, (top.0, (top.1 - 1) as u32));
                assert(s2.subrange(0, k) =~= pre);
                assert(state_digits(len, s2, top.0 as int) =~= stack_digits(len, pre) + seq![len - top.0, (top.1 - 1) as int, len - top.0]);
                assert(stack_digits(len, pre) + seq![len - top.0] + seq![(top.1 - 1) as int, len - top.0] =~= state_digits(len, s2, top.0 as int));
                assert(stack_digits(len, pre) + seq![len - top.0] + seq![top.1 as int, len - pc] =~= state_digits(len, stack, pc));
                assert(machine_inv(len, s2, top.0 as int)) by {
                    assert forall|i: int| 0 <= i < s2.len() implies i < #[trigger] s2[i].0 <= top.0 by {
                        if i < k {
                            assert(stack[i].0 < stack[k].0);
                        }
                    }
                }
                lemma_state_digits_in_range(len, s2, top.0 as int);
                lemma_value_prefix(stack_digits(len, pre) + seq![len - top.0], seq![(top.1 - 1) as int, len - top.0], seq![top.1 as int, len - pc], base, n);
                lemma_value_bounds(state_digits(len, s2, top.0 as int), base, n);
            } else {
                assert(m2.loop_stack == pre);
                assert(machine_inv(len, pre, p)) by {
                    assert forall|i: int| 0 <= i < pre.len() implies i < #[trigger] pre[i].0 <= p by {
                        assert(pre[i] == stack[i]);
                    }
                    assert forall|i: int, j: int| 0 <= i < j < pre.len() implies #[trigger] pre[i].0 < #[trigger] pre[j].0 by {
                        assert(pre[i] == stack[i]);
                        assert(pre[j] == stack[j]);
                    }
                }
                assert(top.0 <= pc);
                lemma_state_digits_in_range(len, pre, p);
                lemma_value_prefix(stack_digits(len, pre), seq![len - p], seq![len - top.0, top.1 as int, len - pc], base, n);
                lemma_value_bounds(state_digits(len, pre, p), base, n);
            }
        } else {
            assert(m2.loop_stack == stack);
            lemma_forward(len, stack, pc, p2);
        }
    }
}

} // verus!
