//! An interpreter of syntax trees, the reference for what a program does.

use vstd::prelude::*;
use vstd::string::StringExecFns;

use crate::arithmetic;
use crate::arithmetic::{Trap, TrapView, bool_value, eval_binary, eval_unary, normalize_i32};
use crate::ast::{BinaryOp, Expr, Function, GlobalVar, Param, Program, Stmt};
use crate::bounds;
use crate::evidence_laws;
use crate::limits::Limits;
use crate::semantics;
use crate::semantics::{Control, Machine, Setting, SlotView};
use crate::table::{Table, same_text};
use crate::text;
use crate::text::{concat2, concat3, debug_strings, push_bool, push_i64, push_u64, push_usize};
use crate::trap::TrapCode;
use crate::words;

verus! {

/// What a variable holds: a scalar that may be unset, or an array.
#[derive(Debug)]
enum Slot {
    Scalar(Option<i64>),
    Array(Vec<i64>),
}

impl View for Slot {
    type V = SlotView;

    closed spec fn view(&self) -> SlotView {
        match self {
            Slot::Scalar(value) => SlotView::Scalar(*value),
            Slot::Array(values) => SlotView::Array(values@),
        }
    }
}

/// What can be observed of a run.
#[derive(Debug, Clone, PartialEq, Eq)]
pub struct OracleOutcome {
    /// Whether the run reached its end.
    pub success: bool,
    /// What `main` returned; zero where a trap cut the run short.
    pub return_value: i64,
    pub trap_code: TrapCode,
    pub trap_message: String,
    /// The lines that were printed.
    pub output: Vec<String>,
}

/// What can be observed of a run, with its texts as sequences.
pub struct OutcomeView {
    pub success: bool,
    pub return_value: i64,
    pub trap_code: TrapCode,
    pub trap_message: Seq<char>,
    pub output: Seq<Seq<char>>,
}

impl View for OracleOutcome {
    type V = OutcomeView;

    open spec fn view(&self) -> OutcomeView {
        OutcomeView {
            success: self.success,
            return_value: self.return_value,
            trap_code: self.trap_code,
            trap_message: self.trap_message@,
            output: text::texts(self.output@),
        }
    }
}

/// What can be observed of a run that ended in this machine with this result.
pub open spec fn outcome_of(end: (Machine, Result<i64, TrapView>)) -> OutcomeView {
    match end.1 {
        Ok(value) => OutcomeView {
            success: true,
            return_value: value,
            trap_code: TrapCode::NoTrap,
            trap_message: Seq::empty(),
            output: end.0.output,
        },
        Err(trap) => OutcomeView {
            success: false,
            return_value: 0,
            trap_code: trap.0,
            trap_message: trap.1,
            output: end.0.output,
        },
    }
}

/// The line that describes a run by whether it succeeded, what it returned, its trap, and the
/// notation of what it printed.
pub open spec fn run_line(
    success: bool,
    return_value: i64,
    trap_code: TrapCode,
    output: Seq<char>,
) -> Seq<char> {
    "success="@ + text::bool_text(success) + ", return="@ + text::decimal(return_value as int)
        + ", trap="@ + crate::trap::trap_name(trap_code) + ", output="@ + output
}

/// The line that describes an outcome.
pub open spec fn summary_line(outcome: OutcomeView) -> Seq<char> {
    run_line(
        outcome.success,
        outcome.return_value,
        outcome.trap_code,
        text::debug_list(outcome.output),
    )
}

/// Appends the line that describes a run; `output` is the notation of what it printed.
pub fn push_run_line(
    out: &mut String,
    success: bool,
    return_value: i64,
    trap_code: TrapCode,
    output: &str,
)
    ensures
        final(out)@ == old(out)@ + run_line(success, return_value, trap_code, output@),
{
    out.append("success=");
    push_bool(out, success);
    out.append(", return=");
    push_i64(out, return_value);
    out.append(", trap=");
    out.append(trap_code.name());
    out.append(", output=");
    out.append(output);
    assert(out@ =~= old(out)@ + run_line(success, return_value, trap_code, output@));
}

impl OracleOutcome {
    /// The outcome of a run that reached its end.
    pub fn ok(return_value: i64, output: Vec<String>) -> (r: Self)
        ensures
            r.success,
            r.return_value == return_value,
            r.trap_code == TrapCode::NoTrap,
            r.trap_message@ == Seq::<char>::empty(),
            r.output == output,
    {
        OracleOutcome {
            success: true,
            return_value,
            trap_code: TrapCode::NoTrap,
            trap_message: String::new(),
            output,
        }
    }

    /// The outcome of a run that a trap cut short.
    pub fn trap(trap_code: TrapCode, trap_message: String, output: Vec<String>) -> (r: Self)
        ensures
            !r.success,
            r.return_value == 0,
            r.trap_code == trap_code,
            r.trap_message == trap_message,
            r.output == output,
    {
        OracleOutcome { success: false, return_value: 0, trap_code, trap_message, output }
    }

    /// The line that describes the outcome.
    pub fn summary(&self) -> (r: String)
        ensures
            r@ == summary_line(self@),
            r@ == evidence_laws::shown_text(
                self.success,
                self.return_value,
                self.trap_code,
                Seq::new(self.output@.len(), |i: int| self.output@[i]@),
            ),
    {
        let printed = debug_strings(&self.output);
        let mut line = String::new();
        push_run_line(
            &mut line,
            self.success,
            self.return_value,
            self.trap_code,
            printed.as_str(),
        );
        assert(line@ =~= summary_line(self@));
        proof {
            evidence_laws::law_summaries_show_the_outcome(self@);
            assert(self@.output =~= Seq::new(self.output@.len(), |i: int| self.output@[i]@));
        }
        line
    }
}

/// What can be observed of a program that runs within the standard bounds.
pub fn run_ast_oracle(program: &Program) -> (r: OracleOutcome)
    ensures
        r@ == outcome_of(
            semantics::run(Setting { program: *program, limits: crate::limits::standard_limits() }),
        ),
        ({
            let limits = crate::limits::standard_limits();
            let (end, result) = semantics::run(Setting { program: *program, limits });
            &&& r.success <==> result is Ok
            &&& (result matches Ok(value) ==> r.return_value == value && r.trap_code
                == TrapCode::NoTrap && r.trap_message@.len() == 0)
            &&& (result matches Err(trap) ==> r.return_value == 0 && r.trap_code == trap.0
                && r.trap_message@ == trap.1)
            &&& r.output.len() == end.output.len()
            &&& forall|i: int|
                0 <= i < r.output.len() ==> (#[trigger] r.output[i])@ == end.output[i]
        }),
{
    run_ast_oracle_within(program, Limits::default())
}

/// What can be observed of a program that runs within the given bounds.
pub fn run_ast_oracle_within(program: &Program, limits: Limits) -> (r: OracleOutcome)
    requires
        limits.max_cycles < u64::MAX,
    ensures
        r@ == outcome_of(semantics::run(Setting { program: *program, limits })),
        ({
            let (end, result) = semantics::run(Setting { program: *program, limits });
            &&& r.success <==> result is Ok
            &&& (result matches Ok(value) ==> r.return_value == value && r.trap_code
                == TrapCode::NoTrap && r.trap_message@.len() == 0)
            &&& (result matches Err(trap) ==> r.return_value == 0 && r.trap_code == trap.0
                && r.trap_message@ == trap.1)
            &&& r.output.len() == end.output.len()
            &&& forall|i: int|
                0 <= i < r.output.len() ==> (#[trigger] r.output[i])@ == end.output[i]
        }),
{
    let r = AstOracle::new(program, limits).run();
    proof {
        let lines = text::texts(r.output@);
        assert(lines.len() == r.output.len());
        assert(forall|i: int| 0 <= i < r.output.len() ==> (#[trigger] r.output[i])@ == lines[i]);
        assert(r@.output == lines);
    }
    r
}

/// The interpreter: the program, its bounds, and the state of the run.
pub struct AstOracle<'a> {
    program: &'a Program,
    limits: Limits,
    globals: Table<Slot>,
    frames: Vec<Table<Slot>>,
    output: Vec<String>,
    cycles: u64,
}

impl<'a> View for AstOracle<'a> {
    type V = Machine;

    closed spec fn view(&self) -> Machine {
        Machine {
            globals: self.globals@,
            frames: self.frames@.map_values(|t: Table<Slot>| t@),
            output: text::texts(self.output@),
            cycles: self.cycles as nat,
        }
    }
}

/// The index that a value stands for.
fn checked_array_index(raw_index: i64) -> (r: Result<usize, Trap>)
    requires
        raw_index <= usize::MAX,
    ensures
        match (r, semantics::array_index(raw_index)) {
            (Ok(i), Ok(j)) => i == j,
            (Err(trap), Err(view)) => (trap.0, trap.1@) == view,
            _ => false,
        },
{
    if raw_index < 0 {
        let mut message = "Array index ".to_string();
        push_i64(&mut message, raw_index);
        message.append(" out of bounds");
        return Err((TrapCode::ArrayOutOfBounds, message));
    }
    Ok(raw_index as usize)
}

impl<'a> AstOracle<'a> {
    /// The program and the bounds.
    pub closed spec fn setting(&self) -> Setting {
        Setting { program: *self.program, limits: self.limits }
    }

    /// The number of calls that may still be opened.
    pub closed spec fn room(&self) -> nat {
        (self.limits.max_frames - self.frames.len()) as nat
    }

    /// No scope holds a name twice.
    closed spec fn tables_wf(&self) -> bool {
        &&& self.globals.wf()
        &&& forall|i: int| 0 <= i < self.frames.len() ==> (#[trigger] self.frames[i]).wf()
    }

    /// The interpreter is between two steps of a run.
    pub closed spec fn ready(&self) -> bool {
        &&& self.tables_wf()
        &&& words::machine_of_words(self@)
        &&& self.cycles <= self.limits.max_cycles < u64::MAX
        &&& self.frames.len() <= self.limits.max_frames
    }

    /// The position of the innermost call that has a variable of that name.
    fn frame_of(&self, name: &str) -> (r: Option<usize>)
        requires
            self.tables_wf(),
        ensures
            match (r, semantics::frame_with(self@.frames, name@)) {
                (Some(i), Some(j)) => i == j,
                (None, None) => true,
                _ => false,
            },
    {
        let mut i: usize = self.frames.len();
        assert(self@.frames.take(i as int) =~= self@.frames);
        while i > 0
            invariant
                i <= self.frames.len(),
                self.tables_wf(),
                semantics::frame_with(self@.frames, name@) == semantics::frame_with(
                    self@.frames.take(i as int),
                    name@,
                ),
            decreases i,
        {
            i = i - 1;
            let ghost inner = self@.frames.take(i + 1);
            assert(inner.last() == self.frames[i as int]@);
            if self.frames[i].get(name).is_some() {
                return Some(i);
            }
            assert(inner.drop_last() =~= self@.frames.take(i as int));
        }
        None
    }

    /// The variable that a name stands for.
    fn lookup_slot(&self, name: &str) -> (r: Option<&Slot>)
        requires
            self.tables_wf(),
        ensures
            match (r, self@.lookup(name@)) {
                (Some(slot), Some(view)) => slot@ == view,
                (None, None) => true,
                _ => false,
            },
    {
        proof {
            words::lemma_frame_with(self@.frames, name@);
        }
        match self.frame_of(name) {
            Some(i) => self.frames[i].get(name),
            None => self.globals.get(name),
        }
    }

    /// The variable that a name stands for, for change.
    fn lookup_slot_mut(&mut self, name: &str) -> (r: Option<&mut Slot>)
        requires
            old(self).tables_wf(),
        ensures
            r is Some <==> old(self)@.lookup(name@) is Some,
            r matches Some(slot) ==> slot@ == old(self)@.lookup(name@)->0,
            r matches Some(slot) ==> final(self)@ == old(self)@.updated(name@, final(slot)@),
            r is None ==> final(self)@ == old(self)@,
            final(self).tables_wf(),
            final(self).setting() == old(self).setting(),
            final(self).frames.len() == old(self).frames.len(),
            final(self).cycles == old(self).cycles,
    {
        proof {
            words::lemma_frame_with(self@.frames, name@);
        }
        match self.frame_of(name) {
            Some(i) => self.frames[i].get_mut(name),
            None => self.globals.get_mut(name),
        }
    }

    /// The interpreter stands where a step that began at `before` may end: at the same call, with
    /// no fewer steps counted.
    pub open spec fn follows(&self, before: &Self) -> bool {
        &&& self.ready()
        &&& self.setting() == before.setting()
        &&& self.room() == before.room()
        &&& self@.frames.len() == before@.frames.len()
        &&& self@.cycles >= before@.cycles
    }

    /// Counts one step.
    fn tick(&mut self) -> (r: Result<(), Trap>)
        requires
            old(self).ready(),
        ensures
            (final(self)@, arithmetic::result_view(r)) == semantics::tick(
                old(self).limits,
                old(self)@,
            ),
            r is Ok ==> final(self).follows(old(self)),
            r is Ok ==> final(self).cycles == old(self).cycles + 1,
    {
        self.cycles = self.cycles.saturating_add(1);
        if self.cycles > self.limits.max_cycles {
            let mut message = "Cycle limit exceeded (".to_string();
            push_u64(&mut message, self.limits.max_cycles);
            message.append(")");
            Err((TrapCode::CycleLimit, message))
        } else {
            Ok(())
        }
    }

    /// The value of a scalar variable.
    pub fn read_scalar(&self, name: &str) -> (r: Result<i64, Trap>)
        requires
            self.ready(),
        ensures
            arithmetic::result_view(r) == self@.scalar(name@),
            r matches Ok(value) ==> arithmetic::is_word(value),
    {
        proof {
            words::lemma_lookup_words(self@, name@);
        }
        match self.lookup_slot(name) {
            Some(Slot::Scalar(Some(value))) => Ok(*value),
            Some(Slot::Scalar(None)) => Err(
                (TrapCode::UndefinedLocal, concat2("Undefined local ", name)),
            ),
            Some(Slot::Array(_)) => Err(
                (
                    TrapCode::InvalidInstruction,
                    concat3("Cannot use array ", name, " without index"),
                ),
            ),
            None => Err((TrapCode::InvalidInstruction, concat2("Undefined variable ", name))),
        }
    }

    /// The value of an element of an array.
    fn read_array(&self, name: &str, index: usize) -> (r: Result<i64, Trap>)
        requires
            self.ready(),
        ensures
            arithmetic::result_view(r) == self@.element(name@, index as int),
            r matches Ok(value) ==> arithmetic::is_word(value),
    {
        proof {
            words::lemma_lookup_words(self@, name@);
        }
        match self.lookup_slot(name) {
            Some(Slot::Array(values)) => {
                if index < values.len() {
                    Ok(values[index])
                } else {
                    Err((TrapCode::ArrayOutOfBounds, out_of_bounds_message(index, values.len())))
                }
            },
            Some(Slot::Scalar(_)) => Err(
                (TrapCode::InvalidInstruction, concat2("Cannot index non-array ", name)),
            ),
            None => Err((TrapCode::InvalidInstruction, concat2("Undefined variable ", name))),
        }
    }

    /// Assigns to a scalar variable.
    pub fn assign_scalar(&mut self, name: &str, value: i64) -> (r: Result<(), Trap>)
        requires
            old(self).ready(),
        ensures
            (final(self)@, arithmetic::result_view(r)) == old(self)@.with_scalar(name@, value),
            final(self).follows(old(self)),
    {
        let value = normalize_i32(value);
        proof {
            words::lemma_updated_words(self@, name@, SlotView::Scalar(Some(value)));
            if self@.lookup(name@) is Some {
                words::lemma_updated_same(self@, name@);
            }
        }
        if let Some(slot) = self.lookup_slot_mut(name) {
            match slot {
                Slot::Scalar(existing) => {
                    *existing = Some(value);
                    Ok(())
                },
                Slot::Array(_) => Err(
                    (
                        TrapCode::InvalidInstruction,
                        concat3("Cannot assign array ", name, " without index"),
                    ),
                ),
            }
        } else {
            Err((TrapCode::InvalidInstruction, concat2("Undefined variable ", name)))
        }
    }

    /// Initialises a global scalar.
    fn assign_global_scalar(&mut self, name: &str, value: i64) -> (r: Result<(), Trap>)
        requires
            old(self).ready(),
        ensures
            (final(self)@, arithmetic::result_view(r)) == old(self)@.with_global(name@, value),
            r is Ok ==> final(self).follows(old(self)),
    {
        let value = normalize_i32(value);
        assert(self@.globals.contains_key(name@) ==> self@.globals.insert(
            name@,
            self@.globals[name@],
        ) =~= self@.globals);
        match self.globals.get_mut(name) {
            Some(Slot::Scalar(existing)) => {
                *existing = Some(value);
                Ok(())
            },
            Some(Slot::Array(_)) => Err(
                (
                    TrapCode::InvalidInstruction,
                    concat3("Cannot initialize array ", name, " as scalar"),
                ),
            ),
            None => Err((TrapCode::InvalidInstruction, concat2("Undefined global ", name))),
        }
    }

    /// Assigns to an element of an array.
    fn assign_array(&mut self, name: &str, index: usize, value: i64) -> (r: Result<(), Trap>)
        requires
            old(self).ready(),
        ensures
            (final(self)@, arithmetic::result_view(r)) == old(self)@.with_element(
                name@,
                index as int,
                value,
            ),
            r is Ok ==> final(self).follows(old(self)),
    {
        let value = normalize_i32(value);
        proof {
            words::lemma_lookup_words(self@, name@);
            if self@.lookup(name@) is Some {
                words::lemma_updated_same(self@, name@);
            }
            if let Some(SlotView::Array(values)) = self@.lookup(name@) {
                if index < values.len() {
                    let after = SlotView::Array(values.update(index as int, value));
                    words::lemma_updated_words(self@, name@, after);
                }
            }
        }
        if let Some(slot) = self.lookup_slot_mut(name) {
            match slot {
                Slot::Array(values) => {
                    let len = values.len();
                    if index >= len {
                        return Err(
                            (TrapCode::ArrayOutOfBounds, out_of_bounds_message(index, len)),
                        );
                    }
                    values.set(index, value);
                    Ok(())
                },
                Slot::Scalar(_) => Err(
                    (TrapCode::InvalidInstruction, concat2("Cannot index non-array ", name)),
                ),
            }
        } else {
            Err((TrapCode::InvalidInstruction, concat2("Undefined variable ", name)))
        }
    }

    /// Gives the innermost call a variable.
    fn declare(&mut self, name: &str, slot: Slot) -> (r: Result<(), Trap>)
        requires
            old(self).ready(),
            words::slot_of_words(slot@),
        ensures
            (final(self)@, arithmetic::result_view(r)) == old(self)@.declared(name@, slot@),
            r is Ok ==> final(self).follows(old(self)),
    {
        proof {
            words::lemma_declared_words(self@, name@, slot@);
        }
        let depth = self.frames.len();
        if depth == 0 {
            return Err((TrapCode::InvalidInstruction, "No active call frame".to_string()));
        }
        self.frames[depth - 1].insert(name.to_string(), slot);
        assert(self@.frames =~= old(self)@.declared(name@, slot@).0.frames);
        Ok(())
    }

    /// Sets the variable that a name stands for, or declares it where there is none.
    fn declare_or_update(&mut self, name: &str, slot: Slot) -> (r: Result<(), Trap>)
        requires
            old(self).ready(),
            words::slot_of_words(slot@),
        ensures
            (final(self)@, arithmetic::result_view(r)) == old(self)@.declared_or_updated(
                name@,
                slot@,
            ),
            r is Ok ==> final(self).follows(old(self)),
    {
        proof {
            words::lemma_updated_words(self@, name@, slot@);
        }
        if let Some(existing) = self.lookup_slot_mut(name) {
            *existing = slot;
            Ok(())
        } else {
            self.declare(name, slot)
        }
    }

    /// The last of the functions that bears the name.
    fn function_named(&self, name: &str) -> (r: Option<&'a Function>)
        ensures
            match (r, semantics::function_named(self.program.functions@, name@)) {
                (Some(function), Some(view)) => *function == view,
                (None, None) => true,
                _ => false,
            },
    {
        let program: &'a Program = self.program;
        let mut i: usize = program.functions.len();
        let ghost functions: Seq<Function> = program.functions@;
        assert(functions.take(i as int) =~= functions);
        while i > 0
            invariant
                i <= program.functions.len(),
                program == self.program,
                functions == program.functions@,
                semantics::function_named(functions, name@) == semantics::function_named(
                    functions.take(i as int),
                    name@,
                ),
            decreases i,
        {
            i = i - 1;
            let ghost upto = functions.take(i + 1);
            assert(upto.last() == functions[i as int]);
            if same_text(program.functions[i].name.as_str(), name) {
                return Some(&program.functions[i]);
            }
            assert(upto.drop_last() =~= functions.take(i as int));
        }
        None
    }

    /// Evaluates an expression.
    pub fn eval_expr(&mut self, expr: &Expr) -> (r: Result<i64, Trap>)
        requires
            old(self).ready(),
        ensures
            (final(self)@, arithmetic::result_view(r)) == semantics::evaluate(
                old(self).setting(),
                old(self).room(),
                old(self)@,
                *expr,
            ),
            r is Ok ==> final(self).follows(old(self)),
            r is Ok ==> final(self)@.cycles > old(self)@.cycles,
            r matches Ok(value) ==> arithmetic::is_word(value),
            words::machine_of_words(final(self)@),
        decreases old(self).room(), 1int, *expr, 0int,
    {
        proof {
            bounds::lemma_evaluate(self.setting(), self.room(), self@, *expr);
        }
        if let Err(trap) = self.tick() {
            return Err(trap);
        }
        match expr {
            Expr::IntLiteral { value } => Ok(*value as i64),
            Expr::BoolLiteral { value } => Ok(bool_value(*value)),
            Expr::Identifier { name } => self.read_scalar(name.as_str()),
            Expr::Binary { op, left, right } => {
                let left = match self.eval_expr(left) {
                    Ok(value) => value,
                    Err(trap) => {
                        return Err(trap);
                    },
                };
                if *op == BinaryOp::And && left == 0 {
                    return Ok(0);
                }
                if *op == BinaryOp::Or && left != 0 {
                    return Ok(1);
                }
                let right = match self.eval_expr(right) {
                    Ok(value) => value,
                    Err(trap) => {
                        return Err(trap);
                    },
                };
                match op {
                    BinaryOp::And => Ok(bool_value(right != 0)),
                    BinaryOp::Or => Ok(bool_value(right != 0)),
                    _ => eval_binary(*op, left, right),
                }
            },
            Expr::Unary { op, operand } => {
                match self.eval_expr(operand) {
                    Ok(value) => Ok(eval_unary(*op, value)),
                    Err(trap) => Err(trap),
                }
            },
            Expr::Call { name, args } => {
                match self.eval_args(args) {
                    Ok(values) => self.call_function(name.as_str(), &values),
                    Err(trap) => Err(trap),
                }
            },
            Expr::ArrayIndex { array_name, index } => {
                let raw = match self.eval_expr(index) {
                    Ok(value) => value,
                    Err(trap) => {
                        return Err(trap);
                    },
                };
                match checked_array_index(raw) {
                    Ok(index) => self.read_array(array_name.as_str(), index),
                    Err(trap) => Err(trap),
                }
            },
        }
    }

    /// Evaluates arguments from left to right.
    fn eval_args(&mut self, args: &Vec<Expr>) -> (r: Result<Vec<i64>, Trap>)
        requires
            old(self).ready(),
        ensures
            ({
                let (after, values) = semantics::evaluate_args(
                    old(self).setting(),
                    old(self).room(),
                    old(self)@,
                    args@,
                    Seq::empty(),
                );
                &&& final(self)@ == after
                &&& match (r, values) {
                    (Ok(list), Ok(view)) => list@ == view,
                    (Err(trap), Err(view)) => (trap.0, trap.1@) == view,
                    _ => false,
                }
            }),
            r is Ok ==> final(self).follows(old(self)),
            r matches Ok(list) ==> forall|i: int|
                0 <= i < list.len() ==> arithmetic::is_word(#[trigger] list[i]),
        decreases old(self).room(), 1int, args@, 0int,
    {
        let mut values: Vec<i64> = Vec::new();
        let mut i: usize = 0;
        let ghost s: Setting = self.setting();
        let ghost room: nat = self.room();
        assert(args@.subrange(0, args.len() as int) =~= args@);
        while i < args.len()
            invariant
                i <= args.len(),
                self.follows(old(self)),
                s == self.setting(),
                s == old(self).setting(),
                room == self.room(),
                room == old(self).room(),
                forall|j: int|
                    0 <= j < values.len() ==> arithmetic::is_word(#[trigger] values[j]),
                semantics::evaluate_args(s, room, old(self)@, args@, Seq::empty())
                    == semantics::evaluate_args(
                    s,
                    room,
                    self@,
                    args@.subrange(i as int, args.len() as int),
                    values@,
                ),
            decreases args.len() - i,
        {
            let ghost rest = args@.subrange(i as int, args.len() as int);
            assert(rest[0] == args[i as int]);
            assert(rest.subrange(1, rest.len() as int) =~= args@.subrange(
                i + 1,
                args.len() as int,
            ));
            match self.eval_expr(&args[i]) {
                Ok(value) => {
                    values.push(value);
                },
                Err(trap) => {
                    return Err(trap);
                },
            }
            i = i + 1;
        }
        Ok(values)
    }

    /// Calls a function.
    fn call_function(&mut self, name: &str, args: &Vec<i64>) -> (r: Result<i64, Trap>)
        requires
            old(self).ready(),
        ensures
            (final(self)@, arithmetic::result_view(r)) == semantics::invoke(
                old(self).setting(),
                old(self).room(),
                old(self)@,
                name@,
                args@,
            ),
            r is Ok ==> final(self).follows(old(self)),
            r is Ok ==> final(self).cycles > old(self).cycles,
            r matches Ok(value) ==> arithmetic::is_word(value),
        decreases old(self).room(), 0int, *old(self).program, 0int,
    {
        if let Err(trap) = self.tick() {
            return Err(trap);
        }
        if self.frames.len() >= self.limits.max_frames {
            let mut message = "Call stack overflow (max ".to_string();
            push_usize(&mut message, self.limits.max_frames);
            message.append(" frames)");
            return Err((TrapCode::StackOverflow, message));
        }
        let function = match self.function_named(name) {
            Some(function) => function,
            None => {
                return Err((TrapCode::UndefinedFunction, concat2("Undefined function ", name)));
            },
        };
        if args.len() != function.params.len() {
            let mut message = "Call has ".to_string();
            push_usize(&mut message, args.len());
            message.append(" arguments but function ");
            message.append(name);
            message.append(" expects ");
            push_usize(&mut message, function.params.len());
            return Err((TrapCode::InvalidInstruction, message));
        }
        let ghost ticked: Machine = self@;
        let frame = bind_params(&function.params, args);
        self.frames.push(frame);
        proof {
            let entered = Machine { frames: ticked.frames.push(frame@), ..ticked };
            assert(self@ =~= entered);
            assert forall|i: int| 0 <= i < self@.frames.len() implies words::scope_of_words(
                #[trigger] self@.frames[i],
            ) by {
                if i < ticked.frames.len() {
                    assert(self@.frames[i] == ticked.frames[i]);
                }
            }
        }
        let end = match self.exec_block(&function.body) {
            Ok(end) => end,
            Err(trap) => {
                return Err(trap);
            },
        };
        let ghost ended: Machine = self@;
        self.frames.pop();
        proof {
            let left = Machine { frames: ended.frames.drop_last(), ..ended };
            assert(self@ =~= left);
            assert forall|i: int| 0 <= i < self@.frames.len() implies words::scope_of_words(
                #[trigger] self@.frames[i],
            ) by {
                assert(self@.frames[i] == ended.frames[i]);
            }
        }
        match end {
            Control::Return(value) => Ok(normalize_i32(value)),
            Control::Continue => Ok(0),
        }
    }

    /// Executes statements in turn, up to a return or a trap.
    pub fn exec_block(&mut self, stmts: &Vec<Stmt>) -> (r: Result<Control, Trap>)
        requires
            old(self).ready(),
        ensures
            (final(self)@, arithmetic::result_view(r)) == semantics::execute_block(
                old(self).setting(),
                old(self).room(),
                old(self)@,
                stmts@,
            ),
            r is Ok ==> final(self).follows(old(self)),
        decreases old(self).room(), 2int, stmts@, 0int,
    {
        let mut i: usize = 0;
        let ghost s: Setting = self.setting();
        let ghost room: nat = self.room();
        assert(stmts@.subrange(0, stmts.len() as int) =~= stmts@);
        while i < stmts.len()
            invariant
                i <= stmts.len(),
                self.follows(old(self)),
                s == self.setting(),
                s == old(self).setting(),
                room == self.room(),
                room == old(self).room(),
                semantics::execute_block(s, room, old(self)@, stmts@) == semantics::execute_block(
                    s,
                    room,
                    self@,
                    stmts@.subrange(i as int, stmts.len() as int),
                ),
            decreases stmts.len() - i,
        {
            let ghost rest = stmts@.subrange(i as int, stmts.len() as int);
            assert(rest[0] == stmts[i as int]);
            assert(rest.subrange(1, rest.len() as int) =~= stmts@.subrange(
                i + 1,
                stmts.len() as int,
            ));
            match self.exec_stmt(&stmts[i]) {
                Ok(Control::Continue) => {},
                other => {
                    return other;
                },
            }
            i = i + 1;
        }
        Ok(Control::Continue)
    }

    /// Executes a statement.
    fn exec_stmt(&mut self, stmt: &Stmt) -> (r: Result<Control, Trap>)
        requires
            old(self).ready(),
        ensures
            (final(self)@, arithmetic::result_view(r)) == semantics::execute(
                old(self).setting(),
                old(self).room(),
                old(self)@,
                *stmt,
            ),
            r is Ok ==> final(self).follows(old(self)),
        decreases
            old(self).room(),
            2int,
            *stmt,
            semantics::loop_bound(old(self).limits) + 1,
    {
        if let Err(trap) = self.tick() {
            return Err(trap);
        }
        match stmt {
            Stmt::VarDecl { name, init_expr, array_size } => {
                let declared = if let Some(size) = array_size {
                    self.declare_or_update(name.as_str(), Slot::Array(zeros(*size)))
                } else if let Some(init) = init_expr {
                    match self.eval_expr(init) {
                        Ok(value) => self.declare_or_update(
                            name.as_str(),
                            Slot::Scalar(Some(value)),
                        ),
                        Err(trap) => Err(trap),
                    }
                } else if self.lookup_slot(name.as_str()).is_none() {
                    self.declare(name.as_str(), Slot::Scalar(None))
                } else {
                    Ok(())
                };
                match declared {
                    Ok(()) => Ok(Control::Continue),
                    Err(trap) => Err(trap),
                }
            },
            Stmt::Assign { target, index_expr, value } => {
                let value = match self.eval_expr(value) {
                    Ok(value) => value,
                    Err(trap) => {
                        return Err(trap);
                    },
                };
                let assigned = match index_expr {
                    Some(index_expr) => {
                        let raw = match self.eval_expr(index_expr) {
                            Ok(raw) => raw,
                            Err(trap) => {
                                return Err(trap);
                            },
                        };
                        match checked_array_index(raw) {
                            Ok(index) => self.assign_array(target.as_str(), index, value),
                            Err(trap) => Err(trap),
                        }
                    },
                    None => self.assign_scalar(target.as_str(), value),
                };
                match assigned {
                    Ok(()) => Ok(Control::Continue),
                    Err(trap) => Err(trap),
                }
            },
            Stmt::If { condition, then_body, else_body } => {
                match self.eval_expr(condition) {
                    Ok(value) => {
                        if value != 0 {
                            self.exec_block(then_body)
                        } else if let Some(else_body) = else_body {
                            self.exec_block(else_body)
                        } else {
                            Ok(Control::Continue)
                        }
                    },
                    Err(trap) => Err(trap),
                }
            },
            Stmt::While { condition, body } => self.exec_loop(stmt, condition, body),
            Stmt::Return { value } => {
                match self.eval_expr(value) {
                    Ok(value) => Ok(Control::Return(value)),
                    Err(trap) => Err(trap),
                }
            },
            Stmt::Print { value } => {
                match self.eval_expr(value) {
                    Ok(value) => {
                        let ghost before: Machine = self@;
                        let mut line = "OUTPUT: ".to_string();
                        push_i64(&mut line, value);
                        self.output.push(line);
                        assert(self@ =~= before.printed(value));
                        Ok(Control::Continue)
                    },
                    Err(trap) => Err(trap),
                }
            },
            Stmt::ExprStmt { expr } => {
                match self.eval_expr(expr) {
                    Ok(_) => Ok(Control::Continue),
                    Err(trap) => Err(trap),
                }
            },
        }
    }

    /// Executes the loop `stmt`, whose parts are `condition` and `body`.
    fn exec_loop(&mut self, stmt: &Stmt, condition: &Expr, body: &Vec<Stmt>) -> (r: Result<
        Control,
        Trap,
    >)
        requires
            old(self).ready(),
            *stmt == (Stmt::While { condition: *condition, body: *body }),
        ensures
            (final(self)@, arithmetic::result_view(r)) == semantics::execute_loop(
                old(self).setting(),
                old(self).room(),
                old(self)@,
                *stmt,
                semantics::loop_bound(old(self).limits),
            ),
            r is Ok ==> final(self).follows(old(self)),
        decreases old(self).room(), 2int, *stmt, semantics::loop_bound(old(self).limits),
    {
        let ghost s: Setting = self.setting();
        let ghost room: nat = self.room();
        let ghost mut bound: nat = semantics::loop_bound(self.limits);
        loop
            invariant
                self.follows(old(self)),
                s == self.setting(),
                s == old(self).setting(),
                room == self.room(),
                room == old(self).room(),
                *stmt == (Stmt::While { condition: *condition, body: *body }),
                bound + self.cycles >= semantics::loop_bound(s.limits),
                semantics::execute_loop(
                    s,
                    room,
                    old(self)@,
                    *stmt,
                    semantics::loop_bound(s.limits),
                ) == semantics::execute_loop(s, room, self@, *stmt, bound),
            decreases s.limits.max_cycles - self.cycles,
        {
            match self.eval_expr(condition) {
                Ok(value) => {
                    if value == 0 {
                        return Ok(Control::Continue);
                    }
                },
                Err(trap) => {
                    return Err(trap);
                },
            }
            match self.exec_block(body) {
                Ok(Control::Continue) => {},
                other => {
                    return other;
                },
            }
            proof {
                bound = (bound - 1) as nat;
            }
        }
    }

    /// The interpreter of a program before its first step.
    pub fn new(program: &'a Program, limits: Limits) -> (r: Self)
        requires
            limits.max_cycles < u64::MAX,
        ensures
            r.ready(),
            r.setting() == (Setting { program: *program, limits }),
            r.room() == limits.max_frames,
            r@ == semantics::start(*program),
    {
        let mut globals: Table<Slot> = Table::new();
        let mut i: usize = 0;
        while i < program.globals.len()
            invariant
                i <= program.globals.len(),
                globals.wf(),
                globals@ == semantics::declared_globals(program.globals@.take(i as int)),
                words::scope_of_words(globals@),
            decreases program.globals.len() - i,
        {
            let global = &program.globals[i];
            let slot = match global.array_size {
                Some(size) => Slot::Array(zeros(size)),
                None => Slot::Scalar(Some(0)),
            };
            globals.insert(global.name.clone(), slot);
            i = i + 1;
            assert(program.globals@.take(i as int).drop_last() =~= program.globals@.take(i - 1));
        }
        assert(program.globals@.take(i as int) =~= program.globals@);
        let oracle = AstOracle {
            program,
            limits,
            globals,
            frames: Vec::new(),
            output: Vec::new(),
            cycles: 0,
        };
        assert(oracle@ =~= semantics::start(*program));
        oracle
    }

    /// Gives the globals their initial values, in source order.
    fn initialize_globals(&mut self) -> (r: Result<(), Trap>)
        requires
            old(self).ready(),
            old(self).frames.len() == 0,
        ensures
            (final(self)@, arithmetic::result_view(r)) == semantics::initialize(
                old(self).setting(),
                old(self)@,
                old(self).setting().program.globals@,
            ),
            r is Ok ==> final(self).follows(old(self)),
    {
        let program: &'a Program = self.program;
        let mut i: usize = 0;
        let ghost s: Setting = self.setting();
        let ghost globals: Seq<GlobalVar> = program.globals@;
        assert(globals.subrange(0, globals.len() as int) =~= globals);
        while i < program.globals.len()
            invariant
                i <= program.globals.len(),
                globals == program.globals@,
                globals == s.program.globals@,
                self.follows(old(self)),
                old(self).frames.len() == 0,
                s == self.setting(),
                s == old(self).setting(),
                semantics::initialize(s, old(self)@, globals) == semantics::initialize(
                    s,
                    self@,
                    globals.subrange(i as int, globals.len() as int),
                ),
            decreases program.globals.len() - i,
        {
            let ghost rest = globals.subrange(i as int, globals.len() as int);
            assert(rest[0] == globals[i as int]);
            assert(rest.subrange(1, rest.len() as int) =~= globals.subrange(
                i + 1,
                globals.len() as int,
            ));
            let global = &program.globals[i];
            if let Some(init) = &global.init_expr {
                match self.eval_expr(init) {
                    Ok(value) => {
                        if let Err(trap) = self.assign_global_scalar(global.name.as_str(), value) {
                            return Err(trap);
                        }
                    },
                    Err(trap) => {
                        return Err(trap);
                    },
                }
            }
            i = i + 1;
        }
        Ok(())
    }

    /// Runs the program: initialises its globals, then calls `main`.
    fn run(self) -> (r: OracleOutcome)
        requires
            self.ready(),
            self@ == semantics::start(self.setting().program),
        ensures
            r@ == outcome_of(semantics::run(self.setting())),
    {
        let mut oracle = self;
        let result = match oracle.initialize_globals() {
            Ok(()) => {
                let no_args: Vec<i64> = Vec::new();
                assert(no_args@ =~= Seq::empty());
                oracle.call_function("main", &no_args)
            },
            Err(trap) => Err(trap),
        };
        match result {
            Ok(return_value) => OracleOutcome::ok(return_value, oracle.output),
            Err((code, message)) => OracleOutcome::trap(code, message, oracle.output),
        }
    }
}

/// An array of `size` zeros.
fn zeros(size: u32) -> (r: Vec<i64>)
    ensures
        SlotView::Array(r@) == semantics::zeros(size),
        words::slot_of_words(SlotView::Array(r@)),
{
    let mut values: Vec<i64> = Vec::new();
    let mut i: u32 = 0;
    while i < size
        invariant
            i <= size,
            values@ == Seq::new(i as nat, |j: int| 0i64),
        decreases size - i,
    {
        values.push(0);
        i = i + 1;
        assert(values@ =~= Seq::new(i as nat, |j: int| 0i64));
    }
    values
}

/// The variables with which a call starts: each parameter with its argument.
fn bind_params(params: &Vec<Param>, args: &Vec<i64>) -> (r: Table<Slot>)
    requires
        params.len() == args.len(),
    ensures
        r.wf(),
        r@ == semantics::bound_params(params@, args@),
        words::scope_of_words(r@),
{
    let mut scope: Table<Slot> = Table::new();
    let mut i: usize = 0;
    while i < params.len()
        invariant
            i <= params.len(),
            params.len() == args.len(),
            scope.wf(),
            scope@ == semantics::bound_params(params@.take(i as int), args@.take(i as int)),
            words::scope_of_words(scope@),
        decreases params.len() - i,
    {
        scope.insert(params[i].name.clone(), Slot::Scalar(Some(normalize_i32(args[i]))));
        i = i + 1;
        assert(params@.take(i as int).drop_last() =~= params@.take(i - 1));
        assert(args@.take(i as int).drop_last() =~= args@.take(i - 1));
    }
    assert(params@.take(i as int) =~= params@);
    assert(args@.take(i as int) =~= args@);
    scope
}

/// The message for an index that an array of `size` elements does not have.
fn out_of_bounds_message(index: usize, size: usize) -> (r: String)
    ensures
        r@ == semantics::out_of_bounds(index as int, size as int),
{
    let mut message = "Array index ".to_string();
    push_usize(&mut message, index);
    message.append(" out of bounds (size ");
    push_usize(&mut message, size);
    message.append(")");
    message
}

} // verus!
