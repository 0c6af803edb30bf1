//! The ways in which a run can be cut short.

use vstd::prelude::*;

verus! {

/// Why a run stopped before its end; `NoTrap` where it did not.
#[derive(Debug, Clone, Copy, PartialEq, Eq, Structural)]
pub enum TrapCode {
    NoTrap,
    DivideByZero,
    ArrayOutOfBounds,
    StackOverflow,
    CycleLimit,
    UndefinedFunction,
    UndefinedLocal,
    InvalidInstruction,
}

/// The name of a trap code.
pub open spec fn trap_name(code: TrapCode) -> Seq<char> {
    match code {
        TrapCode::NoTrap => "None"@,
        TrapCode::DivideByZero => "DivideByZero"@,
        TrapCode::ArrayOutOfBounds => "ArrayOutOfBounds"@,
        TrapCode::StackOverflow => "StackOverflow"@,
        TrapCode::CycleLimit => "CycleLimit"@,
        TrapCode::UndefinedFunction => "UndefinedFunction"@,
        TrapCode::UndefinedLocal => "UndefinedLocal"@,
        TrapCode::InvalidInstruction => "InvalidInstruction"@,
    }
}

impl TrapCode {
    /// The name of the code.
    pub fn name(&self) -> (r: &'static str)
        ensures
            r@ == trap_name(*self),
    {
        match self {
            TrapCode::NoTrap => "None",
            TrapCode::DivideByZero => "DivideByZero",
            TrapCode::ArrayOutOfBounds => "ArrayOutOfBounds",
            TrapCode::StackOverflow => "StackOverflow",
            TrapCode::CycleLimit => "CycleLimit",
            TrapCode::UndefinedFunction => "UndefinedFunction",
            TrapCode::UndefinedLocal => "UndefinedLocal",
            TrapCode::InvalidInstruction => "InvalidInstruction",
        }
    }
}

} // verus!
