//! The digital capsid that guards a transmitted program with its SHA-256
//! checksum, and the transmission of a program through it.

use crate::compiler::BytecodeProgram;
use crate::digest::{sha256, sha256_digest};
use crate::error::{ErrorView, VmError};
use crate::gene::{same_digest, Gene, GeneLibrary, LibraryView};
use crate::machine::run;
use crate::text::owned;
use crate::vm::{fresh_model, result_view, STBVM};
use std::collections::HashMap;
use vstd::prelude::*;

verus! {

/// How much the reconstruction may differ from the source.
#[derive(Debug, Clone, Copy, PartialEq, Eq, Structural)]
pub enum TolerancePolicy {
    Exact,
    Perceptual,
    Semantic,
}

/// What to do when the program does not match its checksum.
#[derive(Debug, Clone, Copy, PartialEq, Eq, Structural)]
pub enum FallbackPolicy {
    Classical,
    Abort,
    Partial,
}

/// The transmission header of a program.
#[derive(Debug, Clone)]
pub struct Capsid {
    pub domain: String,
    pub lookup_version: String,
    pub entry_point: String,
    pub bytecode_checksum: [u8; 32],
    pub tolerance: TolerancePolicy,
    pub fallback: FallbackPolicy,
    pub metadata: HashMap<String, String>,
}

/// A program with its capsid, the genes it uses and its compressed residue.
pub struct TransmissionUnit {
    pub capsid: Capsid,
    pub used_genes: Vec<Gene>,
    pub bytecode: BytecodeProgram,
    pub compressed_residual: Vec<u8>,
}

pub open spec fn msg_checksum_classical() -> Seq<char> {
    "Checksum mismatch – fallback clássico"@
}

pub open spec fn msg_checksum_abort() -> Seq<char> {
    "Checksum mismatch – abortado"@
}

/// The library and result of receiving `bytes` under a capsid holding
/// `checksum` and `fallback`: a program that does not match its checksum is
/// refused under a classical or aborting policy, and run anyway under a
/// partial one; a program that matches is run on a new strict machine.
pub open spec fn transmission(
    bytes: Seq<u8>,
    checksum: Seq<u8>,
    fallback: FallbackPolicy,
    library: LibraryView,
) -> (LibraryView, Result<Seq<u8>, ErrorView>) {
    if sha256(bytes) != checksum && fallback == FallbackPolicy::Classical {
        (library, Err(ErrorView::Custom(msg_checksum_classical())))
    } else if sha256(bytes) != checksum && fallback == FallbackPolicy::Abort {
        (library, Err(ErrorView::Custom(msg_checksum_abort())))
    } else {
        let (m, res) = run(bytes, fresh_model(library, false), 0);
        (m.library, res)
    }
}

/// A program sent under the capsid made from it is run as it is, whatever the
/// capsid's fallback policy.
pub proof fn law_own_capsid_runs(bytes: Seq<u8>, fallback: FallbackPolicy, library: LibraryView)
    ensures
        transmission(bytes, sha256(bytes), fallback, library) == ({
            let (m, res) = run(bytes, fresh_model(library, false), 0);
            (m.library, res)
        }),
{
}

impl Capsid {
    /// The capsid of a program for `domain`: version "0.2.0", entry point
    /// "main", the program's SHA-256 checksum, perceptual tolerance, classical
    /// fallback and no metadata.
    pub fn from_bytecode(domain: &str, bytecode: &BytecodeProgram) -> (c: Capsid)
        ensures
            c.domain@ == domain@,
            c.lookup_version@ == "0.2.0"@,
            c.entry_point@ == "main"@,
            c.bytecode_checksum@ == sha256(bytecode.bytes@),
            c.tolerance == TolerancePolicy::Perceptual,
            c.fallback == FallbackPolicy::Classical,
            c.metadata@ == Map::<String, String>::empty(),
    {
        let checksum = Self::compute_checksum(bytecode.bytes.as_slice());
        Capsid {
            domain: owned(domain),
            lookup_version: owned("0.2.0"),
            entry_point: owned("main"),
            bytecode_checksum: checksum,
            tolerance: TolerancePolicy::Perceptual,
            fallback: FallbackPolicy::Classical,
            metadata: HashMap::new(),
        }
    }

    /// The SHA-256 checksum of `data`.
    pub fn compute_checksum(data: &[u8]) -> (sum: [u8; 32])
        ensures
            sum@ == sha256(data@),
    {
        sha256_digest(data)
    }
}

/// Receives a transmission unit: checks the program against the capsid's
/// checksum and runs it on a new strict machine over `library`.
///
/// On a mismatch, a classical or aborting capsid fails without running, and
/// a partial capsid runs the program anyway. The library keeps the usage the
/// run counted.
pub fn transmit(unit: TransmissionUnit, library: &mut GeneLibrary) -> (r: Result<Vec<u8>, VmError>)
    requires
        old(library).wf(),
    ensures
        final(library).wf(),
        (final(library)@, result_view(r)) == transmission(
            unit.bytecode.bytes@,
            unit.capsid.bytecode_checksum@,
            unit.capsid.fallback,
            old(library)@,
        ),
{
    let checksum = Capsid::compute_checksum(unit.bytecode.bytes.as_slice());
    if !same_digest(&checksum, &unit.capsid.bytecode_checksum) {
        match unit.capsid.fallback {
            FallbackPolicy::Classical => {
                return Err(VmError::Custom(owned("Checksum mismatch – fallback clássico")));
            },
            FallbackPolicy::Abort => {
                return Err(VmError::Custom(owned("Checksum mismatch – abortado")));
            },
            FallbackPolicy::Partial => {},
        }
    }
    let mut lib = GeneLibrary::new();
    std::mem::swap(&mut lib, library);
    let mut vm = STBVM::new(lib);
    let r = vm.execute_bytecode(&unit.bytecode);
    let mut back = vm.into_library();
    std::mem::swap(&mut back, library);
    r
}

} // verus!
