//! Structural Generative Transmission core: a bytecode compiler for
//! generative instructions, the virtual machine that replays them, the gene
//! library they draw on, and the capsid that guards a transmitted program.

pub mod assoc;
pub mod bytes;
pub mod capsid;
pub mod compiler;
pub mod digest;
pub mod error;
pub mod gene;
pub mod laws;
pub mod machine;
pub mod purification;
pub mod residual;
pub mod semantics;
pub mod text;
pub mod vm;

pub use capsid::{transmit, Capsid, FallbackPolicy, TolerancePolicy, TransmissionUnit};
pub use compiler::{BytecodeProgram, Compiler, Instruction, Opcode};
pub use error::VmError;
pub use gene::{Gene, GeneLibrary};
pub use machine::{MAX_LOOP_COUNT, MAX_OUTPUT_SIZE};
pub use purification::{byte_counts, SegmentClass};
pub use residual::{compress_residual, decompress_residual};
pub use vm::STBVM;
