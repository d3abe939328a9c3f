//! The meaning of an instruction tree, read directly off the tree, and the
//! proof that the machine running the compiled bytecode agrees with it.

use crate::assoc::insert_entry;
use crate::compiler::{compile_list_spec, compile_spec, long_field, short_field, Instruction, MAX_LONG_LEN, MAX_SHORT_LEN};
use crate::error::ErrorView;
use crate::machine::{
    ale_effect, def_effect, err_effect, finish, loop_limit_msg, machine_inv, ref_effect, run, stp_line, tick,
    Transition, VmModel, MAX_LOOP_COUNT,
};
use crate::machine::{
    read_block_at, read_text_at, read_u16_at, read_u32_at, read_u64_at, skip_block, skip_one, skip_operands, step,
};
use crate::text::utf8_lossy;
use vstd::bytes::{
    lemma_auto_spec_u16_to_from_le_bytes, lemma_auto_spec_u32_to_from_le_bytes, lemma_auto_spec_u64_to_from_le_bytes,
    spec_u16_to_le_bytes, spec_u32_to_le_bytes, spec_u64_to_le_bytes,
};
use vstd::prelude::*;
use vstd::utf8::{decode_utf8, encode_utf8, encode_utf8_decode_utf8, encode_utf8_valid_utf8};

verus! {

/// How running an instruction tree ends: it falls through to what follows,
/// it stops the program, or it fails.
pub enum Outcome {
    Normal(VmModel),
    Stopped(VmModel),
    Failed(VmModel, ErrorView),
}

/// The outcome of an instruction that does not transfer control.
pub open spec fn outcome_of(t: Transition) -> Outcome {
    match t {
        Transition::Next(m, _) => Outcome::Normal(m),
        Transition::Halt(m) => Outcome::Stopped(m),
        Transition::Fault(m, e) => Outcome::Failed(m, e),
    }
}

/// The length of an instruction's bytecode.
pub open spec fn code_len(instr: Instruction) -> int {
    match compile_spec(instr) {
        Ok(c) => c.len() as int,
        Err(_) => 0,
    }
}

/// What running `instr` does to the machine state `m`, when its bytecode
/// starts at position `pos` (the position a loop returns to is recorded on
/// the loop stack).
pub open spec fn eval(instr: Instruction, m: VmModel, pos: int) -> Outcome
    decreases instr, 0nat,
{
    match instr {
        Instruction::Def { id, data } => Outcome::Normal(def_effect(tick(m), id@, data@)),
        Instruction::Ref { id } => outcome_of(ref_effect(tick(m), id@, 0)),
        Instruction::Rpt { count, body } => {
            let m1 = tick(m);
            if count == 0 {
                Outcome::Normal(m1)
            } else if count > MAX_LOOP_COUNT {
                Outcome::Failed(m1, ErrorView::Custom(loop_limit_msg(count as u32)))
            } else {
                let start = pos + 5;
                eval_loop(
                    *body,
                    VmModel { loop_stack: m1.loop_stack.push((start as usize, (count - 1) as u32)), ..m1 },
                    start,
                    (count - 1) as nat,
                )
            }
        },
        Instruction::Sequence(list) => eval_list(list@, m, pos),
        Instruction::Ale { seed, len } => outcome_of(ale_effect(tick(m), seed, len as u32, 0)),
        Instruction::Error(msg) => outcome_of(err_effect(tick(m), msg@, 0)),
        Instruction::Stp => Outcome::Stopped(VmModel { trace: tick(m).trace.push(stp_line()), ..tick(m) }),
    }
}

/// Running the instructions of a list one after the other.
pub open spec fn eval_list(list: Seq<Instruction>, m: VmModel, pos: int) -> Outcome
    decreases list, 0nat,
{
    if list.len() == 0 {
        Outcome::Normal(m)
    } else {
        match eval(list[0], m, pos) {
            Outcome::Normal(m2) => eval_list(list.subrange(1, list.len() as int), m2, pos + code_len(list[0])),
            other => other,
        }
    }
}

/// Running a loop body with `r` more repetitions to follow: after each pass
/// the end marker is executed, which repeats the body or closes the loop.
pub open spec fn eval_loop(body: Instruction, m: VmModel, start: int, r: nat) -> Outcome
    decreases body, r + 1,
{
    match eval(body, m, start) {
        Outcome::Normal(m2) => {
            let m3 = tick(m2);
            let k = m3.loop_stack.len();
            if r > 0 {
                eval_loop(
                    body,
                    VmModel { loop_stack: m3.loop_stack.update(k - 1, (start as usize, (r - 1) as u32)), ..m3 },
                    start,
                    (r - 1) as nat,
                )
            } else {
                Outcome::Normal(VmModel { loop_stack: m3.loop_stack.subrange(0, k - 1), ..m3 })
            }
        },
        other => other,
    }
}


/// `code` lies in `b` from position `pos` on.
pub open spec fn placed(b: Seq<u8>, pos: int, code: Seq<u8>) -> bool {
    &&& 0 <= pos
    &&& pos + code.len() <= b.len()
    &&& b.subrange(pos, pos + code.len()) == code
}

proof fn lemma_placed_split(b: Seq<u8>, pos: int, x: Seq<u8>, y: Seq<u8>)
    requires
        placed(b, pos, x + y),
    ensures
        placed(b, pos, x),
        placed(b, pos + x.len(), y),
{
    let whole = b.subrange(pos, pos + (x + y).len());
    assert forall|i: int| 0 <= i < x.len() implies #[trigger] b.subrange(pos, pos + x.len())[i] == x[i] by {
        assert(whole[i] == (x + y)[i]);
    }
    assert(b.subrange(pos, pos + x.len()) =~= x);
    assert forall|i: int| 0 <= i < y.len() implies #[trigger] b.subrange(pos + x.len(), pos + x.len() + y.len())[i] == y[i] by {
        assert(whole[x.len() + i] == (x + y)[x.len() + i]);
    }
    assert(b.subrange(pos + x.len(), pos + x.len() + y.len()) =~= y);
}

proof fn lemma_placed_byte(b: Seq<u8>, pos: int, x: u8, rest: Seq<u8>)
    requires
        placed(b, pos, seq![x] + rest),
    ensures
        b[pos] == x,
        pos < b.len(),
        placed(b, pos + 1, rest),
{
    lemma_placed_split(b, pos, seq![x], rest);
    assert(b.subrange(pos, pos + 1)[0] == b[pos]);
}

proof fn lemma_read_u16_placed(b: Seq<u8>, p: int, x: u16)
    requires
        placed(b, p, spec_u16_to_le_bytes(x)),
    ensures
        read_u16_at(b, p) == Some((x, p + 2)),
{
    lemma_auto_spec_u16_to_from_le_bytes();
}

proof fn lemma_read_u32_placed(b: Seq<u8>, p: int, x: u32)
    requires
        placed(b, p, spec_u32_to_le_bytes(x)),
    ensures
        read_u32_at(b, p) == Some((x, p + 4)),
{
    lemma_auto_spec_u32_to_from_le_bytes();
}

proof fn lemma_read_u64_placed(b: Seq<u8>, p: int, x: u64)
    requires
        placed(b, p, spec_u64_to_le_bytes(x)),
    ensures
        read_u64_at(b, p) == Some((x, p + 8)),
{
    lemma_auto_spec_u64_to_from_le_bytes();
}

proof fn lemma_read_text_placed(b: Seq<u8>, p: int, text: Seq<char>)
    requires
        placed(b, p, short_field(text)),
        encode_utf8(text).len() <= MAX_SHORT_LEN,
    ensures
        read_text_at(b, p) == Some((text, p + short_field(text).len())),
{
    let enc = encode_utf8(text);
    lemma_auto_spec_u16_to_from_le_bytes();
    lemma_placed_split(b, p, spec_u16_to_le_bytes(enc.len() as u16), enc);
    lemma_read_u16_placed(b, p, enc.len() as u16);
    encode_utf8_valid_utf8(text);
    encode_utf8_decode_utf8(text);
    assert(utf8_lossy(enc) == text);
}

proof fn lemma_read_block_placed(b: Seq<u8>, p: int, data: Seq<u8>)
    requires
        placed(b, p, long_field(data)),
        data.len() <= MAX_LONG_LEN,
    ensures
        read_block_at(b, p) == Some((data, p + long_field(data).len())),
{
    lemma_auto_spec_u32_to_from_le_bytes();
    lemma_placed_split(b, p, spec_u32_to_le_bytes(data.len() as u32), data);
    lemma_read_u32_placed(b, p, data.len() as u32);
}


/// The bytecode of a list is the bytecode of its first instruction followed
/// by that of the rest (or the first error in that order).
proof fn lemma_compile_list_front(list: Seq<Instruction>)
    requires
        list.len() > 0,
    ensures
        compile_list_spec(list) == match compile_spec(list[0]) {
            Err(e) => Err(e),
            Ok(c0) => match compile_list_spec(list.subrange(1, list.len() as int)) {
                Err(e) => Err(e),
                Ok(r) => Ok(c0 + r),
            },
        },
    decreases list.len(),
{
    let n = list.len();
    let pre = list.subrange(0, n - 1);
    let tail = list.subrange(1, n as int);
    if n == 1 {
        assert(pre =~= Seq::<Instruction>::empty());
        assert(tail =~= Seq::<Instruction>::empty());
        assert(compile_list_spec(pre) == Ok::<Seq<u8>, Seq<char>>(Seq::empty()));
        if let Ok(c0) = compile_spec(list[0]) {
            assert(Seq::<u8>::empty() + c0 =~= c0 + Seq::<u8>::empty());
        }
    } else {
        lemma_compile_list_front(pre);
        assert(pre[0] == list[0]);
        let mid = pre.subrange(1, pre.len() as int);
        assert(mid =~= tail.subrange(0, tail.len() - 1));
        assert(tail[tail.len() - 1] == list[n - 1]);
        assert(pre.len() > 0);
        match compile_spec(list[0]) {
            Err(e) => {},
            Ok(c0) => {
                match compile_list_spec(mid) {
                    Err(e) => {},
                    Ok(r) => {
                        match compile_spec(list[n - 1]) {
                            Err(e) => {},
                            Ok(cl) => {
                                assert(c0 + r + cl =~= c0 + (r + cl));
                            },
                        }
                    },
                }
            },
        }
    }
}

/// The bytecode of a well-compiled list is the first instruction's bytecode
/// followed by the rest's.
proof fn lemma_list_code(list: Seq<Instruction>)
    requires
        list.len() > 0,
        compile_list_spec(list) is Ok,
    ensures
        compile_spec(list[0]) is Ok,
        compile_list_spec(list.subrange(1, list.len() as int)) is Ok,
        compile_list_spec(list)->Ok_0 == compile_spec(list[0])->Ok_0
            + compile_list_spec(list.subrange(1, list.len() as int))->Ok_0,
{
    lemma_compile_list_front(list);
}

/// Skipping over well-compiled bytecode at a positive depth lands right after
/// it, at the same depth.
proof fn lemma_skip_compiled(instr: Instruction, b: Seq<u8>, pos: int, depth: nat)
    requires
        compile_spec(instr) is Ok,
        placed(b, pos, compile_spec(instr)->Ok_0),
        depth > 0,
    ensures
        skip_block(b, pos, depth) == skip_block(b, pos + code_len(instr), depth),
    decreases instr,
{
    let code = compile_spec(instr)->Ok_0;
    match instr {
        Instruction::Def { id, data } => {
            assert(code =~= seq![0x01u8] + (short_field(id@) + long_field(data@)));
            lemma_placed_byte(b, pos, 0x01, short_field(id@) + long_field(data@));
            lemma_placed_split(b, pos + 1, short_field(id@), long_field(data@));
            lemma_read_text_placed(b, pos + 1, id@);
            lemma_read_block_placed(b, pos + 1 + short_field(id@).len(), data@);
            let after = pos + 1 + short_field(id@).len() + long_field(data@).len();
            assert(skip_operands(b, pos) == Ok::<int, ErrorView>(after));
            assert(code_len(instr) == 1 + short_field(id@).len() + long_field(data@).len());
        },
        Instruction::Ref { id } => {
            lemma_placed_byte(b, pos, 0x02, short_field(id@));
            lemma_read_text_placed(b, pos + 1, id@);
        },
        Instruction::Rpt { count, body } => {
            let bc = compile_spec(*body)->Ok_0;
            assert(code =~= seq![0x03u8] + (spec_u32_to_le_bytes(count as u32) + (bc + seq![0x04u8])));
            lemma_placed_byte(b, pos, 0x03, spec_u32_to_le_bytes(count as u32) + (bc + seq![0x04u8]));
            lemma_auto_spec_u32_to_from_le_bytes();
            lemma_placed_split(b, pos + 1, spec_u32_to_le_bytes(count as u32), bc + seq![0x04u8]);
            lemma_read_u32_placed(b, pos + 1, count as u32);
            lemma_placed_split(b, pos + 5, bc, seq![0x04u8]);
            lemma_skip_compiled(*body, b, pos + 5, depth + 1);
            lemma_placed_byte(b, pos + 5 + bc.len(), 0x04, Seq::empty());
        },
        Instruction::Sequence(list) => {
            lemma_skip_list(list@, b, pos, depth);
        },
        Instruction::Ale { seed, len } => {
            assert(code =~= seq![0x07u8] + (spec_u64_to_le_bytes(seed) + spec_u32_to_le_bytes(len as u32)));
            lemma_placed_byte(b, pos, 0x07, spec_u64_to_le_bytes(seed) + spec_u32_to_le_bytes(len as u32));
            lemma_auto_spec_u64_to_from_le_bytes();
            lemma_auto_spec_u32_to_from_le_bytes();
            lemma_placed_split(b, pos + 1, spec_u64_to_le_bytes(seed), spec_u32_to_le_bytes(len as u32));
            lemma_read_u64_placed(b, pos + 1, seed);
            lemma_read_u32_placed(b, pos + 9, len as u32);

        },
        Instruction::Error(msg) => {
            lemma_placed_byte(b, pos, 0x08, short_field(msg@));
            lemma_read_text_placed(b, pos + 1, msg@);
        },
        Instruction::Stp => {
            lemma_placed_byte(b, pos, 0xFF, Seq::empty());
        },
    }
}

proof fn lemma_skip_list(list: Seq<Instruction>, b: Seq<u8>, pos: int, depth: nat)
    requires
        compile_list_spec(list) is Ok,
        placed(b, pos, compile_list_spec(list)->Ok_0),
        depth > 0,
    ensures
        skip_block(b, pos, depth) == skip_block(b, pos + compile_list_spec(list)->Ok_0.len(), depth),
    decreases list,
{
    if list.len() > 0 {
        lemma_list_code(list);
        let c0 = compile_spec(list[0])->Ok_0;
        let rest = list.subrange(1, list.len() as int);
        lemma_placed_split(b, pos, c0, compile_list_spec(rest)->Ok_0);
        lemma_skip_compiled(list[0], b, pos, depth);
        lemma_skip_list(rest, b, pos + c0.len(), depth);
    }
}


/// A run from `pos` carries on as the outcome `o` of the instruction whose
/// bytecode lies between `pos` and `end` says: it falls through to `end` with
/// the loop stack as it was, or it ends as the instruction ended.
pub open spec fn continues(b: Seq<u8>, m: VmModel, pos: int, o: Outcome, end: int) -> bool {
    match o {
        Outcome::Normal(m2) => m2.loop_stack == m.loop_stack && run(b, m, pos) == run(b, m2, end),
        Outcome::Stopped(m2) => run(b, m, pos) == finish(m2),
        Outcome::Failed(m2, e) => run(b, m, pos) == (m2, Err::<Seq<u8>, ErrorView>(e)),
    }
}

proof fn lemma_run_compiled(instr: Instruction, b: Seq<u8>, m: VmModel, pos: int)
    requires
        compile_spec(instr) is Ok,
        placed(b, pos, compile_spec(instr)->Ok_0),
        machine_inv(b.len(), m.loop_stack, pos),
    ensures
        continues(b, m, pos, eval(instr, m, pos), pos + code_len(instr)),
    decreases instr, 0nat,
{
    match instr {
        Instruction::Def { id, data } => lemma_run_def(instr, b, m, pos),
        Instruction::Ref { id } => lemma_run_ref(instr, b, m, pos),
        Instruction::Rpt { count, body } => {
            let bc = compile_spec(*body)->Ok_0;
            lemma_rpt_layout(instr, b, pos);
            let m1 = tick(m);
            if count != 0 && count <= MAX_LOOP_COUNT {
                let start = pos + 5;
                let m2 = VmModel { loop_stack: m1.loop_stack.push((start as usize, (count - 1) as u32)), ..m1 };
                lemma_push_inv(b.len(), m.loop_stack, pos, start, (count - 1) as u32);
                assert(step(b, m, pos) == Transition::Next(m2, start));
                lemma_run_loop(*body, b, m2, start, (count - 1) as nat);
                assert(m2.loop_stack.subrange(0, m2.loop_stack.len() - 1) =~= m.loop_stack);
            }
        },
        Instruction::Sequence(list) => {
            lemma_run_list(list@, b, m, pos);
        },
        Instruction::Ale { seed, len } => lemma_run_ale(instr, b, m, pos),
        Instruction::Error(msg) => lemma_run_err(instr, b, m, pos),
        Instruction::Stp => {
            assert(compile_spec(instr)->Ok_0 =~= seq![0xFFu8] + Seq::<u8>::empty());
            lemma_placed_byte(b, pos, 0xFF, Seq::empty());
        },
    }
}

proof fn lemma_run_def(instr: Instruction, b: Seq<u8>, m: VmModel, pos: int)
    requires
        instr is Def,
        compile_spec(instr) is Ok,
        placed(b, pos, compile_spec(instr)->Ok_0),
        machine_inv(b.len(), m.loop_stack, pos),
    ensures
        continues(b, m, pos, eval(instr, m, pos), pos + code_len(instr)),
{
    let code = compile_spec(instr)->Ok_0;
    let end = pos + code.len();
    if let Instruction::Def { id, data } = instr {
        assert(code =~= seq![0x01u8] + (short_field(id@) + long_field(data@)));
        lemma_placed_byte(b, pos, 0x01, short_field(id@) + long_field(data@));
        lemma_placed_split(b, pos + 1, short_field(id@), long_field(data@));
        lemma_read_text_placed(b, pos + 1, id@);
        lemma_read_block_placed(b, pos + 1 + short_field(id@).len(), data@);
        assert(step(b, m, pos) == Transition::Next(def_effect(tick(m), id@, data@), end));
    }
}

proof fn lemma_run_ref(instr: Instruction, b: Seq<u8>, m: VmModel, pos: int)
    requires
        instr is Ref,
        compile_spec(instr) is Ok,
        placed(b, pos, compile_spec(instr)->Ok_0),
        machine_inv(b.len(), m.loop_stack, pos),
    ensures
        continues(b, m, pos, eval(instr, m, pos), pos + code_len(instr)),
{
    let code = compile_spec(instr)->Ok_0;
    let end = pos + code.len();
    if let Instruction::Ref { id } = instr {
        lemma_placed_byte(b, pos, 0x02, short_field(id@));
        lemma_read_text_placed(b, pos + 1, id@);
        assert(step(b, m, pos) == ref_effect(tick(m), id@, end));
    }
}

proof fn lemma_run_ale(instr: Instruction, b: Seq<u8>, m: VmModel, pos: int)
    requires
        instr is Ale,
        compile_spec(instr) is Ok,
        placed(b, pos, compile_spec(instr)->Ok_0),
        machine_inv(b.len(), m.loop_stack, pos),
    ensures
        continues(b, m, pos, eval(instr, m, pos), pos + code_len(instr)),
{
    let code = compile_spec(instr)->Ok_0;
    let end = pos + code.len();
    if let Instruction::Ale { seed, len } = instr {
        assert(code =~= seq![0x07u8] + (spec_u64_to_le_bytes(seed) + spec_u32_to_le_bytes(len as u32)));
        lemma_placed_byte(b, pos, 0x07, spec_u64_to_le_bytes(seed) + spec_u32_to_le_bytes(len as u32));
        lemma_auto_spec_u64_to_from_le_bytes();
        lemma_auto_spec_u32_to_from_le_bytes();
        lemma_placed_split(b, pos + 1, spec_u64_to_le_bytes(seed), spec_u32_to_le_bytes(len as u32));
        lemma_read_u64_placed(b, pos + 1, seed);
        lemma_read_u32_placed(b, pos + 9, len as u32);
        assert(step(b, m, pos) == ale_effect(tick(m), seed, len as u32, end));
    }
}

proof fn lemma_run_err(instr: Instruction, b: Seq<u8>, m: VmModel, pos: int)
    requires
        instr is Error,
        compile_spec(instr) is Ok,
        placed(b, pos, compile_spec(instr)->Ok_0),
        machine_inv(b.len(), m.loop_stack, pos),
    ensures
        continues(b, m, pos, eval(instr, m, pos), pos + code_len(instr)),
{
    let code = compile_spec(instr)->Ok_0;
    let end = pos + code.len();
    if let Instruction::Error(msg) = instr {
        lemma_placed_byte(b, pos, 0x08, short_field(msg@));
        lemma_read_text_placed(b, pos + 1, msg@);
        assert(step(b, m, pos) == err_effect(tick(m), msg@, end));
    }
}

/// The layout of a compiled loop: header, count, body, end marker; and what
/// its first instruction does when the count is zero or too large.
proof fn lemma_rpt_layout(instr: Instruction, b: Seq<u8>, pos: int)
    requires
        instr is Rpt,
        compile_spec(instr) is Ok,
        placed(b, pos, compile_spec(instr)->Ok_0),
    ensures
        ({
            let count = instr->count;
            let bc = compile_spec(*instr->body)->Ok_0;
            &&& compile_spec(*instr->body) is Ok
            &&& code_len(instr) == bc.len() + 6
            &&& count <= u32::MAX
            &&& b[pos] == 0x03u8
            &&& read_u32_at(b, pos + 1) == Some((count as u32, pos + 5))
            &&& placed(b, pos + 5, bc + seq![0x04u8])
            &&& count == 0 ==> skip_block(b, pos + 5, 1) == Ok::<int, ErrorView>(pos + code_len(instr))
        }),
{
    if let Instruction::Rpt { count, body } = instr {
        let code = compile_spec(instr)->Ok_0;
        let bc = compile_spec(*body)->Ok_0;
        assert(code =~= seq![0x03u8] + (spec_u32_to_le_bytes(count as u32) + (bc + seq![0x04u8])));
        lemma_placed_byte(b, pos, 0x03, spec_u32_to_le_bytes(count as u32) + (bc + seq![0x04u8]));
        lemma_auto_spec_u32_to_from_le_bytes();
        lemma_placed_split(b, pos + 1, spec_u32_to_le_bytes(count as u32), bc + seq![0x04u8]);
        lemma_read_u32_placed(b, pos + 1, count as u32);
        lemma_placed_split(b, pos + 5, bc, seq![0x04u8]);
        lemma_placed_byte(b, pos + 5 + bc.len(), 0x04, Seq::empty());
        if count == 0 {
            lemma_skip_compiled(*body, b, pos + 5, 1);
            let mark = pos + 5 + bc.len();
            assert(skip_block(b, mark + 1, 0) == Ok::<int, ErrorView>(mark + 1));
            assert(skip_block(b, mark, 1) == skip_block(b, mark + 1, 0));
        }
    }
}

/// Opening a loop whose body starts at `start`, past the position `pos` of
/// its header, keeps the loop stack consistent.
proof fn lemma_push_inv(len: nat, stack: Seq<(usize, u32)>, pos: int, start: int, r: u32)
    requires
        machine_inv(len, stack, pos),
        pos < start <= len,
    ensures
        machine_inv(len, stack.push((start as usize, r)), start),
{
    let s2 = stack.push((start as usize, r));
    let k = stack.len();
    if k > 0 {
        assert(k - 1 < stack[k - 1].0 <= pos);
    }
    assert forall|i: int| 0 <= i < s2.len() implies i < #[trigger] s2[i].0 <= start by {
        if i < k {
            assert(s2[i] == stack[i]);
        }
    }
    assert forall|i: int, j: int| 0 <= i < j < s2.len() implies #[trigger] s2[i].0 < #[trigger] s2[j].0 by {
        assert(s2[i] == stack[i]);
        if j < k {
            assert(s2[j] == stack[j]);
        }
    }
}

proof fn lemma_run_list(list: Seq<Instruction>, b: Seq<u8>, m: VmModel, pos: int)
    requires
        compile_list_spec(list) is Ok,
        placed(b, pos, compile_list_spec(list)->Ok_0),
        machine_inv(b.len(), m.loop_stack, pos),
    ensures
        continues(b, m, pos, eval_list(list, m, pos), pos + compile_list_spec(list)->Ok_0.len()),
    decreases list, 0nat,
{
    if list.len() > 0 {
        lemma_list_code(list);
        let c0 = compile_spec(list[0])->Ok_0;
        let rest = list.subrange(1, list.len() as int);
        lemma_placed_split(b, pos, c0, compile_list_spec(rest)->Ok_0);
        lemma_run_compiled(list[0], b, m, pos);
        if let Outcome::Normal(m2) = eval(list[0], m, pos) {
            lemma_run_list(rest, b, m2, pos + c0.len());
        }
    }
}

proof fn lemma_run_loop(body: Instruction, b: Seq<u8>, m: VmModel, start: int, r: nat)
    requires
        compile_spec(body) is Ok,
        placed(b, start, compile_spec(body)->Ok_0 + seq![0x04u8]),
        machine_inv(b.len(), m.loop_stack, start),
        m.loop_stack.len() > 0,
        m.loop_stack[m.loop_stack.len() - 1] == (start as usize, r as u32),
        r <= u32::MAX,
    ensures
        ({
            let end = start + code_len(body) + 1;
            match eval_loop(body, m, start, r) {
                Outcome::Normal(m2) => m2.loop_stack == m.loop_stack.subrange(0, m.loop_stack.len() - 1)
                    && run(b, m, start) == run(b, m2, end),
                Outcome::Stopped(m2) => run(b, m, start) == finish(m2),
                Outcome::Failed(m2, e) => run(b, m, start) == (m2, Err::<Seq<u8>, ErrorView>(e)),
            }
        }),
    decreases body, r + 1,
{
    let bc = compile_spec(body)->Ok_0;
    let mark = start + bc.len();
    lemma_placed_split(b, start, bc, seq![0x04u8]);
    lemma_placed_byte(b, mark, 0x04, Seq::empty());
    lemma_run_compiled(body, b, m, start);
    if let Outcome::Normal(m2) = eval(body, m, start) {
        let m3 = tick(m2);
        let k = m3.loop_stack.len();
        assert(machine_inv(b.len(), m2.loop_stack, mark));
        if r > 0 {
            let m4 = VmModel { loop_stack: m3.loop_stack.update(k - 1, (start as usize, (r - 1) as u32)), ..m3 };
            assert(step(b, m2, mark) == Transition::Next(m4, start));
            assert(machine_inv(b.len(), m4.loop_stack, start)) by {
                assert forall|i: int| 0 <= i < m4.loop_stack.len() implies i < #[trigger] m4.loop_stack[i].0 <= start by {
                    if i < k - 1 {
                        assert(m4.loop_stack[i] == m.loop_stack[i]);
                    }
                }
                assert forall|i: int, j: int| 0 <= i < j < m4.loop_stack.len() implies #[trigger] m4.loop_stack[i].0 < #[trigger] m4.loop_stack[j].0 by {
                    assert(m4.loop_stack[i] == m.loop_stack[i]);
                    if j < k - 1 {
                        assert(m4.loop_stack[j] == m.loop_stack[j]);
                    }
                }
            }
            lemma_run_loop(body, b, m4, start, (r - 1) as nat);
            assert(m4.loop_stack.subrange(0, k - 1) =~= m.loop_stack.subrange(0, k - 1));
        } else {
            let m4 = VmModel { loop_stack: m3.loop_stack.subrange(0, k - 1), ..m3 };
            assert(step(b, m2, mark) == Transition::Next(m4, mark + 1));
            assert(machine_inv(b.len(), m4.loop_stack, mark + 1));
        }
    }
}

/// Running the bytecode of an instruction tree, from its first byte and with
/// no loop open, does what the tree says: the machine ends in the state that
/// `eval` gives, with the output as the result unless the tree failed (or a
/// permissive run ends in apoptosis).
pub proof fn law_compiled_program_runs_as_tree(ast: Instruction, m: VmModel)
    requires
        compile_spec(ast) is Ok,
        compile_spec(ast)->Ok_0.len() <= usize::MAX,
        m.loop_stack.len() == 0,
    ensures
        run(compile_spec(ast)->Ok_0, m, 0) == match eval(ast, m, 0) {
            Outcome::Normal(m2) => finish(m2),
            Outcome::Stopped(m2) => finish(m2),
            Outcome::Failed(m2, e) => (m2, Err::<Seq<u8>, ErrorView>(e)),
        },
{
    let b = compile_spec(ast)->Ok_0;
    assert(b.subrange(0, b.len() as int) =~= b);
    lemma_run_compiled(ast, b, m, 0);
    if let Outcome::Normal(m2) = eval(ast, m, 0) {
        assert(machine_inv(b.len(), m2.loop_stack, b.len() as int));
    }
}

/// Skipping one instruction of well-compiled bytecode (anything but a bare
/// sequence), wherever it lies in a program, lands right after its bytecode;
/// a loop is skipped whole, nested loops included.
pub proof fn law_skip_one_compiled(instr: Instruction, x: Seq<u8>, y: Seq<u8>)
    requires
        !(instr is Sequence),
        compile_spec(instr) is Ok,
    ensures
        skip_one(x + compile_spec(instr)->Ok_0 + y, x.len() as int)
            == Ok::<int, ErrorView>((x.len() + compile_spec(instr)->Ok_0.len()) as int),
{
    let code = compile_spec(instr)->Ok_0;
    let b = x + code + y;
    let pos = x.len() as int;
    assert(b.subrange(pos, pos + code.len()) =~= code);
    assert(placed(b, pos, code));
    match instr {
        Instruction::Def { id, data } => {
            assert(code =~= seq![0x01u8] + (short_field(id@) + long_field(data@)));
            lemma_placed_byte(b, pos, 0x01, short_field(id@) + long_field(data@));
            lemma_placed_split(b, pos + 1, short_field(id@), long_field(data@));
            lemma_read_text_placed(b, pos + 1, id@);
            lemma_read_block_placed(b, pos + 1 + short_field(id@).len(), data@);
        },
        Instruction::Ref { id } => {
            lemma_placed_byte(b, pos, 0x02, short_field(id@));
            lemma_read_text_placed(b, pos + 1, id@);
        },
        Instruction::Rpt { count, body } => {
            let bc = compile_spec(*body)->Ok_0;
            assert(code =~= seq![0x03u8] + (spec_u32_to_le_bytes(count as u32) + (bc + seq![0x04u8])));
            lemma_placed_byte(b, pos, 0x03, spec_u32_to_le_bytes(count as u32) + (bc + seq![0x04u8]));
            lemma_auto_spec_u32_to_from_le_bytes();
            lemma_placed_split(b, pos + 1, spec_u32_to_le_bytes(count as u32), bc + seq![0x04u8]);
            lemma_read_u32_placed(b, pos + 1, count as u32);
            lemma_placed_split(b, pos + 5, bc, seq![0x04u8]);
            lemma_skip_compiled(*body, b, pos + 5, 1);
            lemma_placed_byte(b, pos + 5 + bc.len(), 0x04, Seq::empty());
            assert(skip_block(b, pos + 5 + bc.len() + 1, 0) == Ok::<int, ErrorView>(pos + 5 + bc.len() + 1));
        },
        Instruction::Sequence(_) => {},
        Instruction::Ale { seed, len } => {
            assert(code =~= seq![0x07u8] + (spec_u64_to_le_bytes(seed) + spec_u32_to_le_bytes(len as u32)));
            lemma_placed_byte(b, pos, 0x07, spec_u64_to_le_bytes(seed) + spec_u32_to_le_bytes(len as u32));
            lemma_auto_spec_u64_to_from_le_bytes();
            lemma_auto_spec_u32_to_from_le_bytes();
            lemma_placed_split(b, pos + 1, spec_u64_to_le_bytes(seed), spec_u32_to_le_bytes(len as u32));
            lemma_read_u64_placed(b, pos + 1, seed);
            lemma_read_u32_placed(b, pos + 9, len as u32);
        },
        Instruction::Error(msg) => {
            lemma_placed_byte(b, pos, 0x08, short_field(msg@));
            lemma_read_text_placed(b, pos + 1, msg@);
        },
        Instruction::Stp => {
            lemma_placed_byte(b, pos, 0xFF, Seq::empty());
        },
    }
}

} // verus!
