//! Properties of the library as a whole, proved over the specifications that
//! its functions' contracts use.

use crate::assoc::{
    index_of, insert_entry, keys, lemma_index_of_range, lemma_index_of_unique, lemma_insert_unique, unique_keys,
};
use crate::gene::{
    bound_in_order, first_invalid_from, freeze_all, frozen, lookup, signature_valid, thaw_all, thawed, GeneView,
};
use crate::compiler::{compile_spec, Instruction};
use crate::error::ErrorView;
use crate::vm::restart;
use vstd::bytes::{spec_u16_to_le_bytes, spec_u32_to_le_bytes};
use vstd::utf8::encode_utf8;
use crate::machine::{
    ale_limit_msg, finish, lemma_step_progress, loop_limit_msg, machine_inv, measure, read_block_at, read_text_at,
    read_u32_at, read_u64_at,
    run, step, tick, Transition, VmModel, MAX_LOOP_COUNT, MAX_OUTPUT_SIZE,
};
use vstd::prelude::*;

verus! {

/// Restoring a counter right after saving it keeps the live count: the gene
/// is the saved gene, with its counter unchanged.
pub proof fn law_thaw_after_freeze(g: GeneView)
    ensures
        thawed(frozen(g)) == frozen(g),
        thawed(frozen(g)).hits == g.hits,
{
}

/// After a gene is bound to a key, looking the key up finds that gene, and
/// every other key finds what it found before.
pub proof fn law_lookup_after_insert(entries: Seq<(Seq<char>, GeneView)>, key: Seq<char>, g: GeneView, other: Seq<char>)
    requires
        unique_keys(entries),
    ensures
        lookup(insert_entry(entries, key, g), key) == Some(g),
        other != key ==> lookup(insert_entry(entries, key, g), other) == lookup(entries, other),
{
    let r = insert_entry(entries, key, g);
    lemma_index_of_range(entries, key);
    crate::assoc::lemma_insert_unique(entries, key, g);
    let i = index_of(entries, key);
    let j = if i >= 0 { i } else { entries.len() as int };
    assert(r[j].0 == key);
    lemma_index_of_unique(r, key, j);
    if other != key {
        lemma_index_of_range(entries, other);
        lemma_index_of_range(r, other);
        let a = index_of(entries, other);
        let b = index_of(r, other);
        if a >= 0 {
            assert(r[a].0 == other);
            lemma_index_of_unique(r, other, a);
        } else if b >= 0 {
            assert(b != j);
            assert(entries[b].0 == other);
        }
    }
}

/// Storing a library and reading the stored entries back gives the same
/// library, when every gene's signature matches its payload: the entries are
/// bound unchanged and in order, none is rejected, and every gene comes back
/// with its live counter (now also its saved one).
pub proof fn law_reload_after_store(entries: Seq<(Seq<char>, GeneView)>)
    requires
        unique_keys(entries),
        forall|i: int| 0 <= i < entries.len() ==> signature_valid(#[trigger] entries[i].1),
    ensures
        bound_in_order(freeze_all(entries)) == freeze_all(entries),
        first_invalid_from(bound_in_order(freeze_all(entries)), 0) == -1,
        thaw_all(bound_in_order(freeze_all(entries))) == freeze_all(entries),
{
    lemma_bound_unique_identity(freeze_all(entries));
    let f = freeze_all(entries);
    assert(unique_keys(f)) by {
        assert(keys(f) =~= keys(entries));
    }
    lemma_bound_unique_identity(f);
    assert forall|i: int| 0 <= i < f.len() implies signature_valid(#[trigger] f[i].1) by {
        assert(f[i].1 == frozen(entries[i].1));
    }
    lemma_all_valid(f, 0);
    assert(thaw_all(f) =~= f);
}

proof fn lemma_all_valid(entries: Seq<(Seq<char>, GeneView)>, from: int)
    requires
        0 <= from,
        forall|i: int| 0 <= i < entries.len() ==> signature_valid(#[trigger] entries[i].1),
    ensures
        first_invalid_from(entries, from) == -1,
    decreases entries.len() - from,
{
    if from < entries.len() {
        lemma_all_valid(entries, from + 1);
    }
}

/// Binding entries with unique keys one after the other reproduces them.
proof fn lemma_bound_unique_identity(entries: Seq<(Seq<char>, GeneView)>)
    ensures
        unique_keys(entries) ==> bound_in_order(entries) == entries,
    decreases entries.len(),
{
    if entries.len() > 0 && unique_keys(entries) {
        let last = entries.len() - 1;
        let pre = entries.subrange(0, last);
        assert(unique_keys(pre)) by {
            assert forall|i: int, j: int| 0 <= i < pre.len() && 0 <= j < pre.len() && i != j implies keys(pre)[i] != keys(pre)[j] by {
                assert(keys(pre)[i] == keys(entries)[i]);
                assert(keys(pre)[j] == keys(entries)[j]);
            }
        }
        lemma_bound_unique_identity(pre);
        lemma_index_of_range(pre, entries[last].0);
        if index_of(pre, entries[last].0) >= 0 {
            let k = index_of(pre, entries[last].0);
            assert(keys(entries)[k] == keys(entries)[last]);
        }
        assert(pre.push(entries[last]) =~= entries);
    }
}


/// The machine's limits hold: the output is at most 64 MiB and every open
/// loop has fewer than `MAX_LOOP_COUNT` repetitions left.
pub open spec fn within_limits(m: VmModel) -> bool {
    &&& m.output.len() <= MAX_OUTPUT_SIZE
    &&& forall|i: int| 0 <= i < m.loop_stack.len() ==> #[trigger] m.loop_stack[i].1 < MAX_LOOP_COUNT
}

/// The state an instruction leaves.
pub open spec fn after(t: Transition) -> VmModel {
    match t {
        Transition::Next(m, _) => m,
        Transition::Halt(m) => m,
        Transition::Fault(m, _) => m,
    }
}

/// No instruction breaks the machine's limits or changes its mode.
pub proof fn law_step_keeps_limits(b: Seq<u8>, m: VmModel, pc: int)
    requires
        0 <= pc < b.len(),
        within_limits(m),
    ensures
        within_limits(after(step(b, m, pc))),
        after(step(b, m, pc)).permissive == m.permissive,
        step(b, m, pc) matches Transition::Fault(_, e) ==> !(e is Apoptosis),
        m.permissive ==> !(step(b, m, pc) matches Transition::Fault(_, e) && e is GeneNotFound),
{
    let m2 = after(step(b, m, pc));
    let op = b[pc];
    if op == 0x03 {
        if let Some((count, q)) = crate::machine::read_u32_at(b, pc + 1) {
            crate::machine::lemma_skip_block_errors(b, q, 1);
        }
    } else if op == 0x07 {
        if let Some((seed, q)) = crate::machine::read_u64_at(b, pc + 1) {
            if let Some((len, q2)) = crate::machine::read_u32_at(b, q) {
                crate::machine::lemma_xorshift_bytes_len(seed, len as nat);
            }
        }
    }
    assert forall|i: int| 0 <= i < m2.loop_stack.len() implies #[trigger] m2.loop_stack[i].1 < MAX_LOOP_COUNT by {
        if i < m.loop_stack.len() {
            assert(m.loop_stack[i].1 < MAX_LOOP_COUNT);
        }
    }
}

/// A whole run keeps the machine's limits, so its output is never larger than
/// 64 MiB; only a permissive run can end in apoptosis, and a permissive run
/// never fails on a missing gene.
pub proof fn law_run_keeps_limits(b: Seq<u8>, m: VmModel, pc: int)
    requires
        machine_inv(b.len(), m.loop_stack, pc),
        within_limits(m),
    ensures
        within_limits(run(b, m, pc).0),
        run(b, m, pc).1 matches Ok(out) ==> out.len() <= MAX_OUTPUT_SIZE,
        !m.permissive ==> !(run(b, m, pc).1 matches Err(e) && e is Apoptosis),
        m.permissive ==> !(run(b, m, pc).1 matches Err(e) && e is GeneNotFound),
    decreases measure(b.len(), m.loop_stack, pc),
{
    if pc < b.len() {
        lemma_step_progress(b, m, pc);
        law_step_keeps_limits(b, m, pc);
        match step(b, m, pc) {
            Transition::Next(m2, p2) => {
                law_run_keeps_limits(b, m2, p2);
            },
            Transition::Halt(m2) => {},
            Transition::Fault(m2, e) => {},
        }
    }
}


/// A loop that is reached with a repeat count above the limit ends the run
/// with the loop-limit error, before it produces any output.
pub proof fn law_oversized_loop_fails(b: Seq<u8>, m: VmModel, pc: int, count: u32, next: int)
    requires
        machine_inv(b.len(), m.loop_stack, pc),
        pc < b.len(),
        b[pc] == 0x03,
        read_u32_at(b, pc + 1) == Some((count, next)),
        count > MAX_LOOP_COUNT,
    ensures
        run(b, m, pc) == (tick(m), Err::<Seq<u8>, ErrorView>(ErrorView::Custom(loop_limit_msg(count)))),
        run(b, m, pc).0.output == m.output,
{
}

/// A generation that is reached with a length above the output limit ends
/// the run with the generation-limit error, before it produces any output.
pub proof fn law_oversized_generation_fails(b: Seq<u8>, m: VmModel, pc: int, seed: u64, p: int, len: u32, next: int)
    requires
        machine_inv(b.len(), m.loop_stack, pc),
        pc < b.len(),
        b[pc] == 0x07,
        read_u64_at(b, pc + 1) == Some((seed, p)),
        read_u32_at(b, p) == Some((len, next)),
        len > MAX_OUTPUT_SIZE,
    ensures
        run(b, m, pc) == (tick(m), Err::<Seq<u8>, ErrorView>(ErrorView::Custom(ale_limit_msg()))),
        run(b, m, pc).0.output == m.output,
{
}


/// The library differs from `before` at most in the usage counters of its
/// genes: same keys in the same order, same ids, signatures, payloads and
/// saved counters, same storage path.
pub open spec fn same_genes(before: crate::gene::LibraryView, after: crate::gene::LibraryView) -> bool {
    &&& after.path == before.path
    &&& after.entries.len() == before.entries.len()
    &&& forall|i: int| 0 <= i < before.entries.len() ==> {
        let (k1, g1) = #[trigger] before.entries[i];
        let (k2, g2) = after.entries[i];
        &&& k1 == k2
        &&& g1.id == g2.id
        &&& g1.signature == g2.signature
        &&& g1.payload == g2.payload
        &&& g1.hits_saved == g2.hits_saved
    }
}

/// A run never alters the genes of the library: it only counts their uses.
pub proof fn law_run_keeps_genes(b: Seq<u8>, m: VmModel, pc: int)
    requires
        machine_inv(b.len(), m.loop_stack, pc),
    ensures
        same_genes(m.library, run(b, m, pc).0.library),
    decreases measure(b.len(), m.loop_stack, pc),
{
    if pc < b.len() {
        lemma_step_progress(b, m, pc);
        let m2 = after(step(b, m, pc));
        assert(same_genes(m.library, m2.library)) by {
            assert forall|i: int| 0 <= i < m.library.entries.len() implies {
                let (k1, g1) = #[trigger] m.library.entries[i];
                let (k2, g2) = m2.library.entries[i];
                &&& k1 == k2
                &&& g1.id == g2.id
                &&& g1.signature == g2.signature
                &&& g1.payload == g2.payload
                &&& g1.hits_saved == g2.hits_saved
            } by {
                let op = b[pc];
                if op == 0x02 {
                    if let Some((id, q)) = crate::machine::read_text_at(b, pc + 1) {
                        let gi = index_of(m.library.entries, id);
                        lemma_index_of_range(m.library.entries, id);
                        if gi >= 0 && i == gi {
                            assert(m.library.entries[gi].0 == id);
                        }
                    }
                }
            }
        }
        if let Transition::Next(m3, p3) = step(b, m, pc) {
            law_run_keeps_genes(b, m3, p3);
        }
    }
}

/// After a local definition of `k` with `d`, the machine binds `k` to `d`,
/// whether or not `k` was bound before (a later definition replaces an earlier
/// one, also across runs); so a reference to `k` that follows appends exactly
/// `d` to the output.
pub proof fn law_definition_rebinds(
    b: Seq<u8>,
    m: VmModel,
    pc: int,
    k: Seq<char>,
    d: Seq<u8>,
    p2: int,
    p3: int,
    p4: int,
)
    requires
        unique_keys(m.locals),
        0 <= pc < b.len(),
        b[pc] == 0x01,
        read_text_at(b, pc + 1) == Some((k, p2)),
        read_block_at(b, p2) == Some((d, p3)),
        0 <= p3 < b.len(),
        b[p3] == 0x02,
        read_text_at(b, p3 + 1) == Some((k, p4)),
        m.output.len() + d.len() <= MAX_OUTPUT_SIZE,
    ensures
        step(b, m, pc) matches Transition::Next(m2, q) && q == p3 && {
            let i = index_of(m2.locals, k);
            &&& unique_keys(m2.locals)
            &&& 0 <= i < m2.locals.len()
            &&& m2.locals[i] == (k, d)
            &&& step(b, m2, p3) matches Transition::Next(m3, q2) && q2 == p4 && m3.output == m.output + d
        },
{
    let locals = insert_entry(m.locals, k, d);
    lemma_insert_unique(m.locals, k, d);
    lemma_index_of_range(m.locals, k);
    let j = index_of(m.locals, k);
    if j >= 0 {
        assert(locals[j].0 == k);
        lemma_index_of_unique(locals, k, j);
    } else {
        assert(locals[m.locals.len() as int].0 == k);
        lemma_index_of_unique(locals, k, m.locals.len() as int);
    }
}

/// A local definition whose id is at most 65535 UTF-8 bytes and whose data
/// is at most `u32::MAX` bytes always compiles, to its opcode, the id's `u16`
/// length, the id, the data's `u32` length and the data; it is refused
/// exactly when one of the two limits is broken.
pub proof fn law_definition_compiles(id: String, data: Vec<u8>)
    ensures
        (encode_utf8(id@).len() <= 65535 && data@.len() <= 4294967295) ==> compile_spec(Instruction::Def { id, data })
            == Ok::<Seq<u8>, Seq<char>>(seq![0x01u8] + spec_u16_to_le_bytes(encode_utf8(id@).len() as u16)
            + encode_utf8(id@) + spec_u32_to_le_bytes(data@.len() as u32) + data@),
        compile_spec(Instruction::Def { id, data }) is Err <==> (encode_utf8(id@).len() > 65535 || data@.len()
            > 4294967295),
{
    let e = encode_utf8(id@);
    assert(seq![0x01u8] + (spec_u16_to_le_bytes(e.len() as u16) + e) + (spec_u32_to_le_bytes(data@.len() as u32)
        + data@) =~= seq![0x01u8] + spec_u16_to_le_bytes(e.len() as u16) + e + spec_u32_to_le_bytes(
        data@.len() as u32) + data@);
}

/// Loading restores every gene's live counter from its saved value, whatever
/// the stored live counter was, and keeps everything else of the bound entry.
pub proof fn law_load_restores_counters(stored: Seq<(Seq<char>, GeneView)>)
    ensures
        thaw_all(bound_in_order(stored)).len() == bound_in_order(stored).len(),
        forall|i: int| 0 <= i < bound_in_order(stored).len() ==> {
            let (k, g) = #[trigger] bound_in_order(stored)[i];
            let (k2, g2) = thaw_all(bound_in_order(stored))[i];
            &&& k2 == k
            &&& g2.hits == g.hits_saved
            &&& g2.hits_saved == g.hits_saved
            &&& g2.id == g.id
            &&& g2.signature == g.signature
            &&& g2.payload == g.payload
        },
{
}

/// What a run produces depends only on the program, the local definitions,
/// the library and the mode: output, trace, counters (failures included) and
/// loops left over from earlier runs play no part.
pub proof fn law_runs_are_independent(b: Seq<u8>, m1: VmModel, m2: VmModel)
    requires
        m1.library == m2.library,
        m1.locals == m2.locals,
        m1.permissive == m2.permissive,
    ensures
        run(b, restart(m1), 0) == run(b, restart(m2), 0),
        restart(m1).failed == 0,
{
    assert(restart(m1) == restart(m2));
}

} // verus!
