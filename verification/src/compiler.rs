//! The instruction tree and its compilation into flat bytecode.

use crate::bytes::{append_bytes, copy_bytes, append_u16_le, append_u32_le, append_u64_le};
use crate::error::{ErrorView, VmError};
use vstd::bytes::*;
use vstd::prelude::*;
use vstd::string::*;
use vstd::utf8::*;

verus! {

/// The largest byte length of a gene id or an error message (`u16` range).
pub const MAX_SHORT_LEN: usize = 65535;

/// The largest payload length, repeat count or generated length (`u32` range).
pub const MAX_LONG_LEN: usize = 4294967295;

/// A generative instruction. `Sequence` is flattened away by the compiler.
#[derive(Debug)]
pub enum Instruction {
    Def { id: String, data: Vec<u8> },
    Ref { id: String },
    Rpt { count: usize, body: Box<Instruction> },
    Sequence(Vec<Instruction>),
    Ale { seed: u64, len: usize },
    Error(String),
    Stp,
}

impl Clone for Instruction {
    /// A copy that compiles to the same bytecode.
    fn clone(&self) -> (r: Instruction)
        ensures
            compile_spec(r) == compile_spec(*self),
    {
        copy_instruction(self)
    }
}

/// Lists whose instructions compile alike compile alike.
proof fn lemma_list_compiles_alike(a: Seq<Instruction>, b: Seq<Instruction>)
    requires
        a.len() == b.len(),
        forall|j: int| 0 <= j < a.len() ==> compile_spec(#[trigger] a[j]) == compile_spec(b[j]),
    ensures
        compile_list_spec(a) == compile_list_spec(b),
    decreases a.len(),
{
    if a.len() > 0 {
        let k = a.len() - 1;
        lemma_list_compiles_alike(a.subrange(0, k), b.subrange(0, k));
        assert(compile_spec(a[k]) == compile_spec(b[k]));
    }
}

fn copy_instruction(instr: &Instruction) -> (r: Instruction)
    ensures
        compile_spec(r) == compile_spec(*instr),
    decreases instr,
{
    match instr {
        Instruction::Def { id, data } => Instruction::Def { id: id.clone(), data: copy_bytes(data) },
        Instruction::Ref { id } => Instruction::Ref { id: id.clone() },
        Instruction::Rpt { count, body } => {
            let inner = copy_instruction(body);
            Instruction::Rpt { count: *count, body: Box::new(inner) }
        },
        Instruction::Sequence(list) => {
            let mut copy: Vec<Instruction> = Vec::new();
            let n = list.len();
            let mut i: usize = 0;
            while i < n
                invariant
                    *instr == Instruction::Sequence(*list),
                    n == list@.len(),
                    0 <= i <= n,
                    copy@.len() == i,
                    forall|j: int| 0 <= j < i ==> compile_spec(#[trigger] copy@[j]) == compile_spec(list@[j]),
                decreases n - i,
            {
                proof {
                    vstd::std_specs::vec::axiom_vec_index_decreases(*list, i as int);
                    assert(compile_spec(*instr) == compile_list_spec(list@));
                    assert(decreases_to!(*instr => list[i as int]));
                }
                copy.push(copy_instruction(&list[i]));
                i = i + 1;
            }
            proof {
                lemma_list_compiles_alike(copy@, list@);
            }
            Instruction::Sequence(copy)
        },
        Instruction::Ale { seed, len } => Instruction::Ale { seed: *seed, len: *len },
        Instruction::Error(msg) => Instruction::Error(msg.clone()),
        Instruction::Stp => Instruction::Stp,
    }
}

/// The opcodes of the bytecode.
#[derive(Debug, Clone, Copy, PartialEq, Eq, Structural)]
pub enum Opcode {
    Def,
    Ref,
    Rpt,
    RptEnd,
    Ale,
    Error,
    Stp,
}

/// The byte that encodes an opcode.
pub open spec fn opcode_byte(op: Opcode) -> u8 {
    match op {
        Opcode::Def => 0x01,
        Opcode::Ref => 0x02,
        Opcode::Rpt => 0x03,
        Opcode::RptEnd => 0x04,
        Opcode::Ale => 0x07,
        Opcode::Error => 0x08,
        Opcode::Stp => 0xFF,
    }
}

impl Opcode {
    /// The byte that encodes this opcode.
    pub fn to_byte(self) -> (b: u8)
        ensures
            b == opcode_byte(self),
    {
        match self {
            Opcode::Def => 0x01,
            Opcode::Ref => 0x02,
            Opcode::Rpt => 0x03,
            Opcode::RptEnd => 0x04,
            Opcode::Ale => 0x07,
            Opcode::Error => 0x08,
            Opcode::Stp => 0xFF,
        }
    }
}

/// A compiled program.
#[derive(Debug, Clone)]
pub struct BytecodeProgram {
    pub bytes: Vec<u8>,
}

/// The compiler from instruction trees to bytecode.
pub struct Compiler;

pub open spec fn msg_id_too_long() -> Seq<char> {
    "Gene id too long (>65535)"@
}

pub open spec fn msg_data_too_large() -> Seq<char> {
    "Gene data too large (>4GB)"@
}

pub open spec fn msg_count_too_large() -> Seq<char> {
    "Rpt count exceeds u32 range"@
}

pub open spec fn msg_ale_too_large() -> Seq<char> {
    "Ale length exceeds u32 range"@
}

pub open spec fn msg_err_too_long() -> Seq<char> {
    "Error message too long (>65535)"@
}

/// A length-prefixed string field: two length bytes, then the UTF-8 bytes.
pub open spec fn short_field(text: Seq<char>) -> Seq<u8> {
    spec_u16_to_le_bytes(encode_utf8(text).len() as u16) + encode_utf8(text)
}

/// A length-prefixed byte field: four length bytes, then the bytes.
pub open spec fn long_field(data: Seq<u8>) -> Seq<u8> {
    spec_u32_to_le_bytes(data.len() as u32) + data
}

/// The bytecode of one instruction, or the message of the first limit it breaks
/// (in the order in which the compiler meets the fields).
pub open spec fn compile_spec(instr: Instruction) -> Result<Seq<u8>, Seq<char>>
    decreases instr,
{
    match instr {
        Instruction::Def { id, data } => {
            if encode_utf8(id@).len() > MAX_SHORT_LEN {
                Err(msg_id_too_long())
            } else if data@.len() > MAX_LONG_LEN {
                Err(msg_data_too_large())
            } else {
                Ok(seq![0x01u8] + short_field(id@) + long_field(data@))
            }
        },
        Instruction::Ref { id } => {
            if encode_utf8(id@).len() > MAX_SHORT_LEN {
                Err(msg_id_too_long())
            } else {
                Ok(seq![0x02u8] + short_field(id@))
            }
        },
        Instruction::Rpt { count, body } => {
            if count > MAX_LONG_LEN {
                Err(msg_count_too_large())
            } else {
                match compile_spec(*body) {
                    Ok(b) => Ok(seq![0x03u8] + spec_u32_to_le_bytes(count as u32) + b + seq![0x04u8]),
                    Err(m) => Err(m),
                }
            }
        },
        Instruction::Sequence(list) => compile_list_spec(list@),
        Instruction::Ale { seed, len } => {
            if len > MAX_LONG_LEN {
                Err(msg_ale_too_large())
            } else {
                Ok(seq![0x07u8] + spec_u64_to_le_bytes(seed) + spec_u32_to_le_bytes(len as u32))
            }
        },
        Instruction::Error(msg) => {
            if encode_utf8(msg@).len() > MAX_SHORT_LEN {
                Err(msg_err_too_long())
            } else {
                Ok(seq![0x08u8] + short_field(msg@))
            }
        },
        Instruction::Stp => Ok(seq![0xFFu8]),
    }
}

/// The concatenated bytecode of a list of instructions, or the first error.
pub open spec fn compile_list_spec(list: Seq<Instruction>) -> Result<Seq<u8>, Seq<char>>
    decreases list,
{
    if list.len() == 0 {
        Ok(Seq::empty())
    } else {
        match compile_list_spec(list.subrange(0, list.len() - 1)) {
            Ok(prefix) => match compile_spec(list[list.len() - 1]) {
                Ok(b) => Ok(prefix + b),
                Err(m) => Err(m),
            },
            Err(m) => Err(m),
        }
    }
}


/// Builds the error that carries a compile-time limit message.
fn limit_error(text: &str) -> (e: VmError)
    ensures
        e@ == ErrorView::Custom(text@),
{
    VmError::Custom(text.to_string())
}

/// Appends a length-prefixed string field, or fails when its UTF-8 form is
/// longer than the `u16` range.
fn append_short_field(out: &mut Vec<u8>, text: &String) -> (r: bool)
    ensures
        r == (encode_utf8(text@).len() <= MAX_SHORT_LEN),
        r ==> final(out)@ == old(out)@ + short_field(text@),
        !r ==> final(out)@ == old(out)@,
{
    let b = text.as_str().as_bytes();
    if b.len() > MAX_SHORT_LEN {
        return false;
    }
    append_u16_le(out, b.len() as u16);
    append_bytes(out, b);
    proof {
        assert(final(out)@ =~= old(out)@ + short_field(text@));
    }
    true
}

impl Compiler {
    /// Compiles an instruction tree into bytecode.
    ///
    /// Fails with `VmError::Custom` and the message of the first limit broken
    /// (in compilation order) when an id or error message is longer than 65535
    /// bytes, or a payload, repeat count or generated length exceeds the `u32`
    /// range; otherwise the bytes are exactly `compile_spec(*ast)`.
    pub fn compile(ast: &Instruction) -> (r: Result<BytecodeProgram, VmError>)
        ensures
            match compile_spec(*ast) {
                Ok(b) => r matches Ok(p) && p.bytes@ == b,
                Err(m) => r matches Err(e) && e@ == ErrorView::Custom(m),
            },
    {
        let mut bytes: Vec<u8> = Vec::new();
        match Self::compile_instr(ast, &mut bytes) {
            Ok(()) => {
                assert(bytes@ =~= Seq::<u8>::empty() + bytes@);
                Ok(BytecodeProgram { bytes })
            },
            Err(e) => Err(e),
        }
    }

    fn compile_instr(instr: &Instruction, out: &mut Vec<u8>) -> (r: Result<(), VmError>)
        ensures
            match compile_spec(*instr) {
                Ok(b) => r is Ok && final(out)@ == old(out)@ + b,
                Err(m) => r matches Err(e) && e@ == ErrorView::Custom(m),
            },
            old(out)@.len() <= final(out)@.len(),
            final(out)@.subrange(0, old(out)@.len() as int) == old(out)@,
        decreases instr,
    {
        match instr {
            Instruction::Def { id, data } => {
                out.push(0x01u8);
                if !append_short_field(out, id) {
                    return Err(limit_error("Gene id too long (>65535)"));
                }
                if data.len() > MAX_LONG_LEN {
                    return Err(limit_error("Gene data too large (>4GB)"));
                }
                append_u32_le(out, data.len() as u32);
                append_bytes(out, data.as_slice());
                assert(final(out)@ =~= old(out)@ + (seq![0x01u8] + short_field(id@) + long_field(data@)));
            },
            Instruction::Ref { id } => {
                out.push(0x02u8);
                if !append_short_field(out, id) {
                    return Err(limit_error("Gene id too long (>65535)"));
                }
                assert(final(out)@ =~= old(out)@ + (seq![0x02u8] + short_field(id@)));
            },
            Instruction::Rpt { count, body } => {
                out.push(0x03u8);
                if *count > MAX_LONG_LEN {
                    return Err(limit_error("Rpt count exceeds u32 range"));
                }
                append_u32_le(out, *count as u32);
                Self::compile_instr(body, out)?;
                out.push(0x04u8);
                proof {
                    let b = compile_spec(**body)->Ok_0;
                    assert(final(out)@ =~= old(out)@ + (seq![0x03u8] + spec_u32_to_le_bytes(*count as u32) + b + seq![0x04u8]));
                }
            },
            Instruction::Sequence(list) => {
                let n = list.len();
                let mut i: usize = 0;
                while i < n
                    invariant
                        *instr == Instruction::Sequence(*list),
                        n == list@.len(),
                        0 <= i <= n,
                        compile_list_spec(list@.subrange(0, i as int)) matches Ok(p) && out@ == old(out)@ + p,
                    decreases n - i,
                {
                    assert(list@.subrange(0, i + 1).subrange(0, i as int) =~= list@.subrange(0, i as int));
                    let ghost before = out@;
                    let ghost p = compile_list_spec(list@.subrange(0, i as int))->Ok_0;
                    proof {
                        vstd::std_specs::vec::axiom_vec_index_decreases(*list, i as int);
                        assert(decreases_to!(*instr => list[i as int]));
                    }
                    match Self::compile_instr(&list[i], out) {
                        Ok(()) => {
                            assert(out@ =~= old(out)@ + (p + compile_spec(list@[i as int])->Ok_0));
                        },
                        Err(e) => {
                            proof {
                                assert(before.subrange(0, old(out)@.len() as int) =~= old(out)@);
                                assert(out@.subrange(0, old(out)@.len() as int) =~= before.subrange(0, old(out)@.len() as int));
                                let pre = list@.subrange(0, i + 1);
                                assert(pre[i as int] == list@[i as int]);
                                assert(compile_list_spec(pre) is Err);
                                lemma_list_error_extends(list@, (i + 1) as nat);
                            }
                            return Err(e);
                        },
                    }
                    i = i + 1;
                }
                assert(list@.subrange(0, n as int) =~= list@);
            },
            Instruction::Ale { seed, len } => {
                out.push(0x07u8);
                append_u64_le(out, *seed);
                if *len > MAX_LONG_LEN {
                    return Err(limit_error("Ale length exceeds u32 range"));
                }
                append_u32_le(out, *len as u32);
                assert(final(out)@ =~= old(out)@ + (seq![0x07u8] + spec_u64_to_le_bytes(*seed) + spec_u32_to_le_bytes(*len as u32)));
            },
            Instruction::Error(msg) => {
                out.push(0x08u8);
                if !append_short_field(out, msg) {
                    return Err(limit_error("Error message too long (>65535)"));
                }
                assert(final(out)@ =~= old(out)@ + (seq![0x08u8] + short_field(msg@)));
            },
            Instruction::Stp => {
                out.push(0xFFu8);
                assert(final(out)@ =~= old(out)@ + seq![0xFFu8]);
            },
        }
        Ok(())
    }
}

/// Once a prefix of a list fails to compile, every longer prefix fails with
/// the same message.
proof fn lemma_list_error_extends(list: Seq<Instruction>, k: nat)
    requires
        k <= list.len(),
    ensures
        compile_list_spec(list.subrange(0, k as int)) is Err ==>
            compile_list_spec(list) == compile_list_spec(list.subrange(0, k as int)),
    decreases list.len() - k,
{
    if k < list.len() {
        lemma_list_error_extends(list, k + 1);
        let next = list.subrange(0, (k + 1) as int);
        assert(next.subrange(0, k as int) =~= list.subrange(0, k as int));
    } else {
        assert(list.subrange(0, k as int) =~= list);
    }
}

} // verus!
