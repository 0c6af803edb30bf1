//! The instructions of compiled programs.

use vstd::prelude::*;

use crate::names;
use crate::names::NameSet;
use crate::text;

verus! {

/// The kind of an instruction.
#[derive(Debug, Clone, Copy, PartialEq, Eq, Structural)]
pub enum Opcode {
    LoadConst,
    LoadLocal,
    StoreLocal,
    LoadGlobal,
    StoreGlobal,
    Add,
    Sub,
    Mul,
    Div,
    Neg,
    Eq,
    Ne,
    Lt,
    Gt,
    Le,
    Ge,
    And,
    Or,
    Not,
    Jump,
    JumpIfFalse,
    JumpIfTrue,
    Call,
    Return,
    ArrayLoad,
    ArrayStore,
    ArrayNew,
    LocalArrayLoad,
    LocalArrayStore,
    AllocArray,
    Print,
    Pop,
    Dup,
    Halt,
}

/// The name of an instruction.
pub open spec fn name_of(opcode: Opcode) -> Seq<char> {
    match opcode {
        Opcode::LoadConst => "LoadConst"@,
        Opcode::LoadLocal => "LoadLocal"@,
        Opcode::StoreLocal => "StoreLocal"@,
        Opcode::LoadGlobal => "LoadGlobal"@,
        Opcode::StoreGlobal => "StoreGlobal"@,
        Opcode::Add => "Add"@,
        Opcode::Sub => "Sub"@,
        Opcode::Mul => "Mul"@,
        Opcode::Div => "Div"@,
        Opcode::Neg => "Neg"@,
        Opcode::Eq => "Eq"@,
        Opcode::Ne => "Ne"@,
        Opcode::Lt => "Lt"@,
        Opcode::Gt => "Gt"@,
        Opcode::Le => "Le"@,
        Opcode::Ge => "Ge"@,
        Opcode::And => "And"@,
        Opcode::Or => "Or"@,
        Opcode::Not => "Not"@,
        Opcode::Jump => "Jump"@,
        Opcode::JumpIfFalse => "JumpIfFalse"@,
        Opcode::JumpIfTrue => "JumpIfTrue"@,
        Opcode::Call => "Call"@,
        Opcode::Return => "Return"@,
        Opcode::ArrayLoad => "ArrayLoad"@,
        Opcode::ArrayStore => "ArrayStore"@,
        Opcode::ArrayNew => "ArrayNew"@,
        Opcode::LocalArrayLoad => "LocalArrayLoad"@,
        Opcode::LocalArrayStore => "LocalArrayStore"@,
        Opcode::AllocArray => "AllocArray"@,
        Opcode::Print => "Print"@,
        Opcode::Pop => "Pop"@,
        Opcode::Dup => "Dup"@,
        Opcode::Halt => "Halt"@,
    }
}

/// All kinds of instructions.
pub open spec fn opcodes() -> Seq<Opcode> {
    seq![
        Opcode::LoadConst,
        Opcode::LoadLocal,
        Opcode::StoreLocal,
        Opcode::LoadGlobal,
        Opcode::StoreGlobal,
        Opcode::Add,
        Opcode::Sub,
        Opcode::Mul,
        Opcode::Div,
        Opcode::Neg,
        Opcode::Eq,
        Opcode::Ne,
        Opcode::Lt,
        Opcode::Gt,
        Opcode::Le,
        Opcode::Ge,
        Opcode::And,
        Opcode::Or,
        Opcode::Not,
        Opcode::Jump,
        Opcode::JumpIfFalse,
        Opcode::JumpIfTrue,
        Opcode::Call,
        Opcode::Return,
        Opcode::ArrayLoad,
        Opcode::ArrayStore,
        Opcode::ArrayNew,
        Opcode::LocalArrayLoad,
        Opcode::LocalArrayStore,
        Opcode::AllocArray,
        Opcode::Print,
        Opcode::Pop,
        Opcode::Dup,
        Opcode::Halt,
    ]
}

/// The names of instructions.
pub open spec fn names_of(list: Seq<Opcode>) -> Seq<Seq<char>> {
    list.map_values(|opcode: Opcode| name_of(opcode))
}

/// Every kind of instruction is listed once.
pub proof fn law_every_opcode_is_listed_once(opcode: Opcode)
    ensures
        exists|i: int| 0 <= i < opcodes().len() && #[trigger] opcodes()[i] == opcode,
        forall|i: int, j: int|
            0 <= i < opcodes().len() && 0 <= j < opcodes().len() && #[trigger] opcodes()[i] == opcode
                && #[trigger] opcodes()[j] == opcode ==> i == j,
{
    match opcode {
        Opcode::LoadConst => {
            assert(opcodes()[0] == opcode);
        },
        Opcode::LoadLocal => {
            assert(opcodes()[1] == opcode);
        },
        Opcode::StoreLocal => {
            assert(opcodes()[2] == opcode);
        },
        Opcode::LoadGlobal => {
            assert(opcodes()[3] == opcode);
        },
        Opcode::StoreGlobal => {
            assert(opcodes()[4] == opcode);
        },
        Opcode::Add => {
            assert(opcodes()[5] == opcode);
        },
        Opcode::Sub => {
            assert(opcodes()[6] == opcode);
        },
        Opcode::Mul => {
            assert(opcodes()[7] == opcode);
        },
        Opcode::Div => {
            assert(opcodes()[8] == opcode);
        },
        Opcode::Neg => {
            assert(opcodes()[9] == opcode);
        },
        Opcode::Eq => {
            assert(opcodes()[10] == opcode);
        },
        Opcode::Ne => {
            assert(opcodes()[11] == opcode);
        },
        Opcode::Lt => {
            assert(opcodes()[12] == opcode);
        },
        Opcode::Gt => {
            assert(opcodes()[13] == opcode);
        },
        Opcode::Le => {
            assert(opcodes()[14] == opcode);
        },
        Opcode::Ge => {
            assert(opcodes()[15] == opcode);
        },
        Opcode::And => {
            assert(opcodes()[16] == opcode);
        },
        Opcode::Or => {
            assert(opcodes()[17] == opcode);
        },
        Opcode::Not => {
            assert(opcodes()[18] == opcode);
        },
        Opcode::Jump => {
            assert(opcodes()[19] == opcode);
        },
        Opcode::JumpIfFalse => {
            assert(opcodes()[20] == opcode);
        },
        Opcode::JumpIfTrue => {
            assert(opcodes()[21] == opcode);
        },
        Opcode::Call => {
            assert(opcodes()[22] == opcode);
        },
        Opcode::Return => {
            assert(opcodes()[23] == opcode);
        },
        Opcode::ArrayLoad => {
            assert(opcodes()[24] == opcode);
        },
        Opcode::ArrayStore => {
            assert(opcodes()[25] == opcode);
        },
        Opcode::ArrayNew => {
            assert(opcodes()[26] == opcode);
        },
        Opcode::LocalArrayLoad => {
            assert(opcodes()[27] == opcode);
        },
        Opcode::LocalArrayStore => {
            assert(opcodes()[28] == opcode);
        },
        Opcode::AllocArray => {
            assert(opcodes()[29] == opcode);
        },
        Opcode::Print => {
            assert(opcodes()[30] == opcode);
        },
        Opcode::Pop => {
            assert(opcodes()[31] == opcode);
        },
        Opcode::Dup => {
            assert(opcodes()[32] == opcode);
        },
        Opcode::Halt => {
            assert(opcodes()[33] == opcode);
        },
    }
}

/// The name of an instruction.
pub fn opcode_name(opcode: Opcode) -> (r: &'static str)
    ensures
        r@ == name_of(opcode),
{
    match opcode {
        Opcode::LoadConst => "LoadConst",
        Opcode::LoadLocal => "LoadLocal",
        Opcode::StoreLocal => "StoreLocal",
        Opcode::LoadGlobal => "LoadGlobal",
        Opcode::StoreGlobal => "StoreGlobal",
        Opcode::Add => "Add",
        Opcode::Sub => "Sub",
        Opcode::Mul => "Mul",
        Opcode::Div => "Div",
        Opcode::Neg => "Neg",
        Opcode::Eq => "Eq",
        Opcode::Ne => "Ne",
        Opcode::Lt => "Lt",
        Opcode::Gt => "Gt",
        Opcode::Le => "Le",
        Opcode::Ge => "Ge",
        Opcode::And => "And",
        Opcode::Or => "Or",
        Opcode::Not => "Not",
        Opcode::Jump => "Jump",
        Opcode::JumpIfFalse => "JumpIfFalse",
        Opcode::JumpIfTrue => "JumpIfTrue",
        Opcode::Call => "Call",
        Opcode::Return => "Return",
        Opcode::ArrayLoad => "ArrayLoad",
        Opcode::ArrayStore => "ArrayStore",
        Opcode::ArrayNew => "ArrayNew",
        Opcode::LocalArrayLoad => "LocalArrayLoad",
        Opcode::LocalArrayStore => "LocalArrayStore",
        Opcode::AllocArray => "AllocArray",
        Opcode::Print => "Print",
        Opcode::Pop => "Pop",
        Opcode::Dup => "Dup",
        Opcode::Halt => "Halt",
    }
}

/// All kinds of instructions.
pub fn all_opcodes() -> (r: Vec<Opcode>)
    ensures
        r@ == opcodes(),
{
    let list: Vec<Opcode> = vec![
        Opcode::LoadConst,
        Opcode::LoadLocal,
        Opcode::StoreLocal,
        Opcode::LoadGlobal,
        Opcode::StoreGlobal,
        Opcode::Add,
        Opcode::Sub,
        Opcode::Mul,
        Opcode::Div,
        Opcode::Neg,
        Opcode::Eq,
        Opcode::Ne,
        Opcode::Lt,
        Opcode::Gt,
        Opcode::Le,
        Opcode::Ge,
        Opcode::And,
        Opcode::Or,
        Opcode::Not,
        Opcode::Jump,
        Opcode::JumpIfFalse,
        Opcode::JumpIfTrue,
        Opcode::Call,
        Opcode::Return,
        Opcode::ArrayLoad,
        Opcode::ArrayStore,
        Opcode::ArrayNew,
        Opcode::LocalArrayLoad,
        Opcode::LocalArrayStore,
        Opcode::AllocArray,
        Opcode::Print,
        Opcode::Pop,
        Opcode::Dup,
        Opcode::Halt,
    ];
    assert(list@ =~= opcodes());
    list
}

/// The names of the kinds of instructions that a program has, each once, in ascending order.
pub fn program_opcode_kinds(instructions: &Vec<Opcode>) -> (r: Vec<String>)
    ensures
        names::ascending(text::texts(r@)),
        text::texts(r@).to_set() == names_of(instructions@).to_set(),
{
    let mut kinds = NameSet::new();
    let ghost all: Seq<Seq<char>> = names_of(instructions@);
    let mut i: usize = 0;
    assert(all.take(0).to_set() =~= Set::<Seq<char>>::empty());
    while i < instructions.len()
        invariant
            i <= instructions.len(),
            all == names_of(instructions@),
            kinds@ == all.take(i as int).to_set(),
        decreases instructions.len() - i,
    {
        kinds = kinds.with(opcode_name(instructions[i]).to_string());
        proof {
            names::lemma_taken_set(all, i as int);
        }
        i = i + 1;
    }
    assert(all.take(i as int) =~= all);
    kinds.into_names()
}

/// The names of the instructions, in the order in which they are listed.
pub proof fn law_the_instructions_in_their_order()
    ensures
        names_of(opcodes()) == seq![
            "LoadConst"@, "LoadLocal"@, "StoreLocal"@, "LoadGlobal"@, "StoreGlobal"@, "Add"@,
            "Sub"@, "Mul"@, "Div"@, "Neg"@, "Eq"@, "Ne"@, "Lt"@, "Gt"@, "Le"@, "Ge"@, "And"@, "Or"@,
            "Not"@, "Jump"@, "JumpIfFalse"@, "JumpIfTrue"@, "Call"@, "Return"@, "ArrayLoad"@,
            "ArrayStore"@, "ArrayNew"@, "LocalArrayLoad"@, "LocalArrayStore"@, "AllocArray"@,
            "Print"@, "Pop"@, "Dup"@, "Halt"@,
        ],
{
    assert(names_of(opcodes()) =~= seq![
        "LoadConst"@, "LoadLocal"@, "StoreLocal"@, "LoadGlobal"@, "StoreGlobal"@, "Add"@, "Sub"@,
        "Mul"@, "Div"@, "Neg"@, "Eq"@, "Ne"@, "Lt"@, "Gt"@, "Le"@, "Ge"@, "And"@, "Or"@, "Not"@,
        "Jump"@, "JumpIfFalse"@, "JumpIfTrue"@, "Call"@, "Return"@, "ArrayLoad"@, "ArrayStore"@,
        "ArrayNew"@, "LocalArrayLoad"@, "LocalArrayStore"@, "AllocArray"@, "Print"@, "Pop"@,
        "Dup"@, "Halt"@,
    ]);
}

} // verus!
