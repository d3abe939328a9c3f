//! Errors raised by the compiler and the virtual machine.

use vstd::prelude::*;
use vstd::std_specs::cmp::PartialEqSpecImpl;

verus! {

/// An error of the compiler or of the virtual machine.
#[derive(Debug)]
pub enum VmError {
    OutOfBounds,
    InvalidOpcode(u8),
    GeneNotFound(String),
    LoopMismatch,
    Apoptosis(String),
    Custom(String),
}

/// The mathematical value of a [`VmError`]: its messages as character sequences.
pub enum ErrorView {
    OutOfBounds,
    InvalidOpcode(u8),
    GeneNotFound(Seq<char>),
    LoopMismatch,
    Apoptosis(Seq<char>),
    Custom(Seq<char>),
}

impl View for VmError {
    type V = ErrorView;

    open spec fn view(&self) -> ErrorView {
        match self {
            VmError::OutOfBounds => ErrorView::OutOfBounds,
            VmError::InvalidOpcode(b) => ErrorView::InvalidOpcode(*b),
            VmError::GeneNotFound(s) => ErrorView::GeneNotFound(s@),
            VmError::LoopMismatch => ErrorView::LoopMismatch,
            VmError::Apoptosis(s) => ErrorView::Apoptosis(s@),
            VmError::Custom(s) => ErrorView::Custom(s@),
        }
    }
}


impl PartialEq for VmError {
    fn eq(&self, other: &VmError) -> (r: bool) {
        match (self, other) {
            (VmError::OutOfBounds, VmError::OutOfBounds) => true,
            (VmError::InvalidOpcode(a), VmError::InvalidOpcode(b)) => *a == *b,
            (VmError::GeneNotFound(a), VmError::GeneNotFound(b)) => *a == *b,
            (VmError::LoopMismatch, VmError::LoopMismatch) => true,
            (VmError::Apoptosis(a), VmError::Apoptosis(b)) => *a == *b,
            (VmError::Custom(a), VmError::Custom(b)) => *a == *b,
            _ => false,
        }
    }
}

impl PartialEqSpecImpl for VmError {
    open spec fn obeys_eq_spec() -> bool {
        true
    }

    open spec fn eq_spec(&self, other: &VmError) -> bool {
        self@ == other@
    }
}

} // verus!
