//! The meaning of a program, as a function of its syntax tree.
//!
//! A run is modelled on a [`Machine`]: the variables, the active calls, what was printed and the
//! steps that were counted. Evaluating an expression or executing a statement takes a machine to
//! the machine after it, and to a value or a trap.
//!
//! Every function that can start a call takes `room`, the number of calls that may still be
//! opened. A loop carries a bound on the conditions that it may still evaluate. As each of them
//! counts a step, the cycle limit stops a loop before the bound does.

use vstd::prelude::*;

use crate::arithmetic;
use crate::arithmetic::TrapView;
use crate::ast::{BinaryOp, Expr, Function, GlobalVar, Param, Program, Stmt};
use crate::limits::Limits;
use crate::text;
use crate::trap::TrapCode;

verus! {

/// What a variable holds: a scalar that may be unset, or an array.
pub enum SlotView {
    Scalar(Option<i64>),
    Array(Seq<i64>),
}

/// The variables of one call, or the global ones.
pub type ScopeView = Map<Seq<char>, SlotView>;

/// The state of a run.
#[verifier::ext_equal]
pub struct Machine {
    pub globals: ScopeView,
    /// The variables of the active calls, the innermost call last.
    pub frames: Seq<ScopeView>,
    pub output: Seq<Seq<char>>,
    pub cycles: nat,
}

/// How a statement ends: with the next statement in line, or with a return.
#[derive(Debug, Clone, Copy)]
pub enum Control {
    Continue,
    Return(i64),
}

/// A program and the bounds under which it runs.
pub struct Setting {
    pub program: Program,
    pub limits: Limits,
}

/// An array of `size` zeros.
pub open spec fn zeros(size: u32) -> SlotView {
    SlotView::Array(Seq::new(size as nat, |i: int| 0i64))
}

/// The last of the functions that bears the name.
pub open spec fn function_named(functions: Seq<Function>, name: Seq<char>) -> Option<Function>
    decreases functions.len(),
{
    if functions.len() == 0 {
        None
    } else if functions.last().name@ == name {
        Some(functions.last())
    } else {
        function_named(functions.drop_last(), name)
    }
}

/// The variables with which a call starts: each parameter with its argument.
pub open spec fn bound_params(params: Seq<Param>, args: Seq<i64>) -> ScopeView
    decreases params.len(),
{
    if params.len() == 0 {
        Map::empty()
    } else {
        bound_params(params.drop_last(), args.drop_last()).insert(
            params.last().name@,
            SlotView::Scalar(Some(arithmetic::wrap32(args.last() as int))),
        )
    }
}

/// The globals before any of them is initialised: zeros throughout.
pub open spec fn declared_globals(globals: Seq<GlobalVar>) -> ScopeView
    decreases globals.len(),
{
    if globals.len() == 0 {
        Map::empty()
    } else {
        declared_globals(globals.drop_last()).insert(
            globals.last().name@,
            match globals.last().array_size {
                Some(size) => zeros(size),
                None => SlotView::Scalar(Some(0)),
            },
        )
    }
}

/// The innermost active call that has a variable of that name.
pub open spec fn frame_with(frames: Seq<ScopeView>, name: Seq<char>) -> Option<int>
    decreases frames.len(),
{
    if frames.len() == 0 {
        None
    } else if frames.last().contains_key(name) {
        Some(frames.len() - 1)
    } else {
        frame_with(frames.drop_last(), name)
    }
}

impl Machine {
    /// The machine with one more step counted.
    pub open spec fn stepped(self) -> Machine {
        Machine { cycles: self.cycles + 1, ..self }
    }

    /// What a name stands for: the variable of the innermost call that has one, or else the
    /// global.
    pub open spec fn lookup(self, name: Seq<char>) -> Option<SlotView> {
        match frame_with(self.frames, name) {
            Some(i) => Some(self.frames[i][name]),
            None => if self.globals.contains_key(name) {
                Some(self.globals[name])
            } else {
                None
            },
        }
    }

    /// The machine in which the variable that a name stands for holds `slot`.
    pub open spec fn updated(self, name: Seq<char>, slot: SlotView) -> Machine {
        match frame_with(self.frames, name) {
            Some(i) => Machine {
                frames: self.frames.update(i, self.frames[i].insert(name, slot)),
                ..self
            },
            None => Machine { globals: self.globals.insert(name, slot), ..self },
        }
    }

    /// Gives the innermost call a variable.
    pub open spec fn declared(self, name: Seq<char>, slot: SlotView) -> (Machine, Result<
        (),
        TrapView,
    >) {
        if self.frames.len() == 0 {
            (self, Err((TrapCode::InvalidInstruction, "No active call frame"@)))
        } else {
            let frame = self.frames.last().insert(name, slot);
            (Machine { frames: self.frames.drop_last().push(frame), ..self }, Ok(()))
        }
    }

    /// Sets the variable that a name stands for, or declares it where there is none.
    pub open spec fn declared_or_updated(self, name: Seq<char>, slot: SlotView) -> (
        Machine,
        Result<(), TrapView>,
    ) {
        if self.lookup(name) is Some {
            (self.updated(name, slot), Ok(()))
        } else {
            self.declared(name, slot)
        }
    }

    /// The value of a scalar variable.
    pub open spec fn scalar(self, name: Seq<char>) -> Result<i64, TrapView> {
        match self.lookup(name) {
            Some(SlotView::Scalar(Some(value))) => Ok(value),
            Some(SlotView::Scalar(None)) => Err(
                (TrapCode::UndefinedLocal, "Undefined local "@ + name),
            ),
            Some(SlotView::Array(_)) => Err(
                (TrapCode::InvalidInstruction, "Cannot use array "@ + name + " without index"@),
            ),
            None => Err((TrapCode::InvalidInstruction, "Undefined variable "@ + name)),
        }
    }

    /// The value of an element of an array.
    pub open spec fn element(self, name: Seq<char>, index: int) -> Result<i64, TrapView> {
        match self.lookup(name) {
            Some(SlotView::Array(values)) => if 0 <= index < values.len() {
                Ok(values[index])
            } else {
                Err((TrapCode::ArrayOutOfBounds, out_of_bounds(index, values.len() as int)))
            },
            Some(SlotView::Scalar(_)) => Err(
                (TrapCode::InvalidInstruction, "Cannot index non-array "@ + name),
            ),
            None => Err((TrapCode::InvalidInstruction, "Undefined variable "@ + name)),
        }
    }

    /// Assigns to a scalar variable.
    pub open spec fn with_scalar(self, name: Seq<char>, value: i64) -> (Machine, Result<
        (),
        TrapView,
    >) {
        match self.lookup(name) {
            Some(SlotView::Scalar(_)) => (
                self.updated(name, SlotView::Scalar(Some(arithmetic::wrap32(value as int)))),
                Ok(()),
            ),
            Some(SlotView::Array(_)) => (
                self,
                Err(
                    (
                        TrapCode::InvalidInstruction,
                        "Cannot assign array "@ + name + " without index"@,
                    ),
                ),
            ),
            None => (self, Err((TrapCode::InvalidInstruction, "Undefined variable "@ + name))),
        }
    }

    /// Assigns to an element of an array.
    pub open spec fn with_element(self, name: Seq<char>, index: int, value: i64) -> (
        Machine,
        Result<(), TrapView>,
    ) {
        match self.lookup(name) {
            Some(SlotView::Array(values)) => if 0 <= index < values.len() {
                (
                    self.updated(
                        name,
                        SlotView::Array(values.update(index, arithmetic::wrap32(value as int))),
                    ),
                    Ok(()),
                )
            } else {
                (
                    self,
                    Err((TrapCode::ArrayOutOfBounds, out_of_bounds(index, values.len() as int))),
                )
            },
            Some(SlotView::Scalar(_)) => (
                self,
                Err((TrapCode::InvalidInstruction, "Cannot index non-array "@ + name)),
            ),
            None => (self, Err((TrapCode::InvalidInstruction, "Undefined variable "@ + name))),
        }
    }

    /// Initialises a global scalar.
    pub open spec fn with_global(self, name: Seq<char>, value: i64) -> (Machine, Result<
        (),
        TrapView,
    >) {
        if !self.globals.contains_key(name) {
            (self, Err((TrapCode::InvalidInstruction, "Undefined global "@ + name)))
        } else if self.globals[name] is Array {
            (
                self,
                Err(
                    (
                        TrapCode::InvalidInstruction,
                        "Cannot initialize array "@ + name + " as scalar"@,
                    ),
                ),
            )
        } else {
            let slot = SlotView::Scalar(Some(arithmetic::wrap32(value as int)));
            (Machine { globals: self.globals.insert(name, slot), ..self }, Ok(()))
        }
    }

    /// The machine that has printed `value`.
    pub open spec fn printed(self, value: i64) -> Machine {
        Machine { output: self.output.push("OUTPUT: "@ + text::decimal(value as int)), ..self }
    }
}

/// The message for an index that an array of `size` elements does not have.
pub open spec fn out_of_bounds(index: int, size: int) -> Seq<char> {
    "Array index "@ + text::decimal(index) + " out of bounds (size "@ + text::decimal(size) + ")"@
}

/// The index that a value stands for.
pub open spec fn array_index(raw: i64) -> Result<int, TrapView> {
    if raw < 0 {
        Err(
            (
                TrapCode::ArrayOutOfBounds,
                "Array index "@ + text::decimal(raw as int) + " out of bounds"@,
            ),
        )
    } else {
        Ok(raw as int)
    }
}

/// The trap of a run that takes too many steps.
pub open spec fn cycle_trap(limits: Limits) -> TrapView {
    (
        TrapCode::CycleLimit,
        "Cycle limit exceeded ("@ + text::decimal(limits.max_cycles as int) + ")"@,
    )
}

/// Counts one step.
pub open spec fn tick(limits: Limits, m: Machine) -> (Machine, Result<(), TrapView>) {
    if m.cycles + 1 > limits.max_cycles {
        (m.stepped(), Err(cycle_trap(limits)))
    } else {
        (m.stepped(), Ok(()))
    }
}

/// Evaluates an expression.
pub open spec fn evaluate(s: Setting, room: nat, m: Machine, expr: Expr) -> (Machine, Result<
    i64,
    TrapView,
>)
    decreases room, 1int, expr, 0int,
{
    let (m1, ticked) = tick(s.limits, m);
    if ticked is Err {
        (m1, Err(ticked->Err_0))
    } else {
        match expr {
            Expr::IntLiteral { value } => (m1, Ok(value as i64)),
            Expr::BoolLiteral { value } => (m1, Ok(arithmetic::truth(value))),
            Expr::Identifier { name } => (m1, m1.scalar(name@)),
            Expr::Binary { op, left, right } => {
                let (m2, l) = evaluate(s, room, m1, *left);
                match l {
                    Err(trap) => (m2, Err(trap)),
                    Ok(l) => if op == BinaryOp::And && l == 0 {
                        (m2, Ok(0))
                    } else if op == BinaryOp::Or && l != 0 {
                        (m2, Ok(1))
                    } else {
                        let (m3, r) = evaluate(s, room, m2, *right);
                        match r {
                            Err(trap) => (m3, Err(trap)),
                            Ok(r) => (m3, arithmetic::binary_result(op, l, r)),
                        }
                    },
                }
            },
            Expr::Unary { op, operand } => {
                let (m2, v) = evaluate(s, room, m1, *operand);
                match v {
                    Err(trap) => (m2, Err(trap)),
                    Ok(v) => (m2, Ok(arithmetic::unary_result(op, v))),
                }
            },
            Expr::Call { name, args } => {
                let (m2, values) = evaluate_args(s, room, m1, args@, Seq::empty());
                match values {
                    Err(trap) => (m2, Err(trap)),
                    Ok(values) => invoke(s, room, m2, name@, values),
                }
            },
            Expr::ArrayIndex { array_name, index } => {
                let (m2, i) = evaluate(s, room, m1, *index);
                match i {
                    Err(trap) => (m2, Err(trap)),
                    Ok(i) => match array_index(i) {
                        Err(trap) => (m2, Err(trap)),
                        Ok(i) => (m2, m2.element(array_name@, i)),
                    },
                }
            },
        }
    }
}

/// Evaluates arguments from left to right; `done` holds the values of those before them.
pub open spec fn evaluate_args(
    s: Setting,
    room: nat,
    m: Machine,
    args: Seq<Expr>,
    done: Seq<i64>,
) -> (Machine, Result<Seq<i64>, TrapView>)
    decreases room, 1int, args, 0int,
{
    if args.len() == 0 {
        (m, Ok(done))
    } else {
        let (m1, v) = evaluate(s, room, m, args[0]);
        match v {
            Err(trap) => (m1, Err(trap)),
            Ok(v) => evaluate_args(
                s,
                room,
                m1,
                args.subrange(1, args.len() as int),
                done.push(v),
            ),
        }
    }
}

/// Calls a function.
pub open spec fn invoke(
    s: Setting,
    room: nat,
    m: Machine,
    name: Seq<char>,
    args: Seq<i64>,
) -> (Machine, Result<i64, TrapView>)
    decreases room, 0int, s.program, 0int,
{
    let (m1, ticked) = tick(s.limits, m);
    if ticked is Err {
        (m1, Err(ticked->Err_0))
    } else if room == 0 {
        (
            m1,
            Err(
                (
                    TrapCode::StackOverflow,
                    "Call stack overflow (max "@ + text::decimal(s.limits.max_frames as int)
                        + " frames)"@,
                ),
            ),
        )
    } else {
        match function_named(s.program.functions@, name) {
            None => (m1, Err((TrapCode::UndefinedFunction, "Undefined function "@ + name))),
            Some(function) => if args.len() != function.params@.len() {
                (
                    m1,
                    Err(
                        (
                            TrapCode::InvalidInstruction,
                            "Call has "@ + text::decimal(args.len() as int)
                                + " arguments but function "@ + name + " expects "@ + text::decimal(
                                function.params@.len() as int,
                            ),
                        ),
                    ),
                )
            } else {
                let frame = bound_params(function.params@, args);
                let entered = Machine { frames: m1.frames.push(frame), ..m1 };
                let (m2, end) = execute_block(s, (room - 1) as nat, entered, function.body@);
                match end {
                    Err(trap) => (m2, Err(trap)),
                    Ok(control) => {
                        let left = Machine { frames: m2.frames.drop_last(), ..m2 };
                        match control {
                            Control::Return(value) => (left, Ok(arithmetic::wrap32(value as int))),
                            Control::Continue => (left, Ok(0)),
                        }
                    },
                }
            },
        }
    }
}

/// Executes statements in turn, up to a return or a trap.
pub open spec fn execute_block(s: Setting, room: nat, m: Machine, stmts: Seq<Stmt>) -> (
    Machine,
    Result<Control, TrapView>,
)
    decreases room, 2int, stmts, 0int,
{
    if stmts.len() == 0 {
        (m, Ok(Control::Continue))
    } else {
        let (m1, end) = execute(s, room, m, stmts[0]);
        match end {
            Ok(Control::Continue) => execute_block(
                s,
                room,
                m1,
                stmts.subrange(1, stmts.len() as int),
            ),
            _ => (m1, end),
        }
    }
}

/// The conditions that a loop may evaluate.
pub open spec fn loop_bound(limits: Limits) -> nat {
    limits.max_cycles as nat + 1
}

/// Executes a statement.
pub open spec fn execute(s: Setting, room: nat, m: Machine, stmt: Stmt) -> (Machine, Result<
    Control,
    TrapView,
>)
    decreases room, 2int, stmt, loop_bound(s.limits) + 1,
{
    let (m1, ticked) = tick(s.limits, m);
    if ticked is Err {
        (m1, Err(ticked->Err_0))
    } else {
        match stmt {
            Stmt::VarDecl { name, init_expr, array_size } => {
                match (array_size, init_expr) {
                    (Some(size), _) => proceed(m1.declared_or_updated(name@, zeros(size))),
                    (None, Some(init)) => {
                        let (m2, v) = evaluate(s, room, m1, init);
                        match v {
                            Err(trap) => (m2, Err(trap)),
                            Ok(v) => proceed(
                                m2.declared_or_updated(name@, SlotView::Scalar(Some(v))),
                            ),
                        }
                    },
                    (None, None) => if m1.lookup(name@) is Some {
                        (m1, Ok(Control::Continue))
                    } else {
                        proceed(m1.declared(name@, SlotView::Scalar(None)))
                    },
                }
            },
            Stmt::Assign { target, index_expr, value } => {
                let (m2, v) = evaluate(s, room, m1, value);
                match v {
                    Err(trap) => (m2, Err(trap)),
                    Ok(v) => match index_expr {
                        None => proceed(m2.with_scalar(target@, v)),
                        Some(index) => {
                            let (m3, i) = evaluate(s, room, m2, index);
                            match i {
                                Err(trap) => (m3, Err(trap)),
                                Ok(i) => match array_index(i) {
                                    Err(trap) => (m3, Err(trap)),
                                    Ok(i) => proceed(m3.with_element(target@, i, v)),
                                },
                            }
                        },
                    },
                }
            },
            Stmt::If { condition, then_body, else_body } => {
                let (m2, v) = evaluate(s, room, m1, condition);
                match v {
                    Err(trap) => (m2, Err(trap)),
                    Ok(v) => if v != 0 {
                        execute_block(s, room, m2, then_body@)
                    } else {
                        match else_body {
                            Some(body) => execute_block(s, room, m2, body@),
                            None => (m2, Ok(Control::Continue)),
                        }
                    },
                }
            },
            Stmt::While { .. } => execute_loop(s, room, m1, stmt, loop_bound(s.limits)),
            Stmt::Return { value } => {
                let (m2, v) = evaluate(s, room, m1, value);
                match v {
                    Err(trap) => (m2, Err(trap)),
                    Ok(v) => (m2, Ok(Control::Return(v))),
                }
            },
            Stmt::Print { value } => {
                let (m2, v) = evaluate(s, room, m1, value);
                match v {
                    Err(trap) => (m2, Err(trap)),
                    Ok(v) => (m2.printed(v), Ok(Control::Continue)),
                }
            },
            Stmt::ExprStmt { expr } => {
                let (m2, v) = evaluate(s, room, m1, expr);
                match v {
                    Err(trap) => (m2, Err(trap)),
                    Ok(_) => (m2, Ok(Control::Continue)),
                }
            },
        }
    }
}

/// Goes on with the next statement, unless there was a trap.
pub open spec fn proceed(step: (Machine, Result<(), TrapView>)) -> (Machine, Result<
    Control,
    TrapView,
>) {
    match step.1 {
        Err(trap) => (step.0, Err(trap)),
        Ok(_) => (step.0, Ok(Control::Continue)),
    }
}

/// Executes the loop `stmt`, which may evaluate its condition `bound` more times.
pub open spec fn execute_loop(s: Setting, room: nat, m: Machine, stmt: Stmt, bound: nat) -> (
    Machine,
    Result<Control, TrapView>,
)
    decreases room, 2int, stmt, bound,
{
    match stmt {
        Stmt::While { condition, body } => if bound == 0 {
            (m, Err(cycle_trap(s.limits)))
        } else {
            let (m1, v) = evaluate(s, room, m, condition);
            match v {
                Err(trap) => (m1, Err(trap)),
                Ok(v) => if v == 0 {
                    (m1, Ok(Control::Continue))
                } else {
                    let (m2, end) = execute_block(s, room, m1, body@);
                    match end {
                        Ok(Control::Continue) => execute_loop(
                            s,
                            room,
                            m2,
                            stmt,
                            (bound - 1) as nat,
                        ),
                        _ => (m2, end),
                    }
                },
            }
        },
        _ => (m, Ok(Control::Continue)),
    }
}

/// Gives the globals their initial values, in source order.
pub open spec fn initialize(s: Setting, m: Machine, globals: Seq<GlobalVar>) -> (Machine, Result<
    (),
    TrapView,
>)
    decreases globals.len(),
{
    if globals.len() == 0 {
        (m, Ok(()))
    } else {
        let rest = globals.subrange(1, globals.len() as int);
        match globals[0].init_expr {
            None => initialize(s, m, rest),
            Some(init) => {
                let (m1, v) = evaluate(s, s.limits.max_frames as nat, m, init);
                match v {
                    Err(trap) => (m1, Err(trap)),
                    Ok(v) => {
                        let (m2, stored) = m1.with_global(globals[0].name@, v);
                        match stored {
                            Err(trap) => (m2, Err(trap)),
                            Ok(_) => initialize(s, m2, rest),
                        }
                    },
                }
            },
        }
    }
}

/// The machine before the first step of a program.
pub open spec fn start(program: Program) -> Machine {
    Machine {
        globals: declared_globals(program.globals@),
        frames: Seq::empty(),
        output: Seq::empty(),
        cycles: 0,
    }
}

/// Runs a program: initialises its globals, then calls `main`.
pub open spec fn run(s: Setting) -> (Machine, Result<i64, TrapView>) {
    let (m, ready) = initialize(s, start(s.program), s.program.globals@);
    match ready {
        Err(trap) => (m, Err(trap)),
        Ok(_) => invoke(s, s.limits.max_frames as nat, m, "main"@, Seq::empty()),
    }
}

} // verus!
