//! What every step of a run keeps.

use vstd::prelude::*;

use crate::arithmetic;
use crate::arithmetic::TrapView;
use crate::ast::{BinaryOp, Expr, GlobalVar, Param, Stmt};
use crate::semantics;
use crate::semantics::{Control, Machine, Setting, SlotView};
use crate::text;
use crate::trap::TrapCode;
use crate::words;

verus! {

/// Whether a line is one that a print statement writes: the value of a word.
pub open spec fn is_output_line(line: Seq<char>) -> bool {
    exists|value: i64|
        arithmetic::is_word(value) && line == "OUTPUT: "@ + #[trigger] text::decimal(value as int)
}

/// Whether every line is one that a print statement writes.
pub open spec fn are_output_lines(lines: Seq<Seq<char>>) -> bool {
    forall|i: int| 0 <= i < lines.len() ==> is_output_line(#[trigger] lines[i])
}

/// Whether all values and all output of a machine are words.
pub open spec fn holds_words(m: Machine) -> bool {
    &&& words::machine_of_words(m)
    &&& are_output_lines(m.output)
}

/// How the machine before a step and the machine after it are related.
///
/// Steps are only ever counted up, and at most one beyond the limit. Nothing that was printed is
/// taken back. The set of globals stays. Words stay words. A step without a trap ends in the call
/// that it began in; a trap has a code, and leaves behind no more calls than there was room for.
pub open spec fn advances(
    s: Setting,
    room: nat,
    before: Machine,
    after: Machine,
    trap: Option<TrapView>,
) -> bool {
    &&& before.cycles <= after.cycles <= s.limits.max_cycles + 1
    &&& before.output.len() <= after.output.len()
    &&& forall|i: int| 0 <= i < before.output.len() ==> #[trigger] after.output[i] == before.output[i]
    &&& forall|name: Seq<char>| #[trigger]
        after.globals.contains_key(name) <==> before.globals.contains_key(name)
    &&& words::machine_of_words(before) ==> {
        &&& words::machine_of_words(after)
        &&& are_output_lines(before.output) ==> are_output_lines(after.output)
    }
    &&& match trap {
        None => after.frames.len() == before.frames.len() && after.cycles <= s.limits.max_cycles,
        Some(trap) => {
            &&& trap.0 != TrapCode::NoTrap
            &&& before.frames.len() <= after.frames.len() <= before.frames.len() + room
        },
    }
}

/// The trap of a result, if there is one.
pub open spec fn trap_of<T>(r: Result<T, TrapView>) -> Option<TrapView> {
    match r {
        Ok(_) => None,
        Err(trap) => Some(trap),
    }
}

/// Two steps in a row are a step.
proof fn lemma_in_turn(
    s: Setting,
    room: nat,
    a: Machine,
    b: Machine,
    c: Machine,
    trap: Option<TrapView>,
)
    requires
        advances(s, room, a, b, None),
        advances(s, room, b, c, trap),
    ensures
        advances(s, room, a, c, trap),
{
    assert forall|i: int| 0 <= i < a.output.len() implies #[trigger] c.output[i] == a.output[i] by {
        assert(b.output[i] == a.output[i]);
    }
}

proof fn lemma_tick(s: Setting, room: nat, m: Machine)
    requires
        m.cycles <= s.limits.max_cycles,
    ensures
        ({
            let (after, r) = semantics::tick(s.limits, m);
            advances(s, room, m, after, trap_of(r)) && after.cycles > m.cycles
        }),
{
}

proof fn lemma_updated(
    s: Setting,
    room: nat,
    origin: Machine,
    m: Machine,
    name: Seq<char>,
    slot: SlotView,
)
    requires
        advances(s, room, origin, m, None),
        m.lookup(name) is Some,
        words::machine_of_words(origin) ==> words::slot_of_words(slot),
    ensures
        advances(s, room, origin, m.updated(name, slot), None),
{
    words::lemma_frame_with(m.frames, name);
    if words::machine_of_words(origin) {
        words::lemma_updated_words(m, name, slot);
    }
}

proof fn lemma_declared(
    s: Setting,
    room: nat,
    origin: Machine,
    m: Machine,
    name: Seq<char>,
    slot: SlotView,
)
    requires
        advances(s, room, origin, m, None),
        words::machine_of_words(origin) ==> words::slot_of_words(slot),
    ensures
        advances(s, room, origin, m.declared(name, slot).0, trap_of(m.declared(name, slot).1)),
{
    if words::machine_of_words(origin) {
        words::lemma_declared_words(m, name, slot);
    }
}

proof fn lemma_declared_or_updated(
    s: Setting,
    room: nat,
    origin: Machine,
    m: Machine,
    name: Seq<char>,
    slot: SlotView,
)
    requires
        advances(s, room, origin, m, None),
        words::machine_of_words(origin) ==> words::slot_of_words(slot),
    ensures
        advances(
            s,
            room,
            origin,
            m.declared_or_updated(name, slot).0,
            trap_of(m.declared_or_updated(name, slot).1),
        ),
{
    if m.lookup(name) is Some {
        lemma_updated(s, room, origin, m, name, slot);
    } else {
        lemma_declared(s, room, origin, m, name, slot);
    }
}

proof fn lemma_with_scalar(s: Setting, room: nat, m: Machine, name: Seq<char>, value: i64)
    requires
        m.cycles <= s.limits.max_cycles,
    ensures
        advances(s, room, m, m.with_scalar(name, value).0, trap_of(m.with_scalar(name, value).1)),
{
    if m.lookup(name) is Some {
        lemma_updated(
            s,
            room,
            m,
            m,
            name,
            SlotView::Scalar(Some(arithmetic::wrap32(value as int))),
        );
    }
}

proof fn lemma_with_element(
    s: Setting,
    room: nat,
    m: Machine,
    name: Seq<char>,
    index: int,
    value: i64,
)
    requires
        m.cycles <= s.limits.max_cycles,
    ensures
        advances(
            s,
            room,
            m,
            m.with_element(name, index, value).0,
            trap_of(m.with_element(name, index, value).1),
        ),
{
    if let Some(SlotView::Array(values)) = m.lookup(name) {
        if 0 <= index < values.len() {
            if words::machine_of_words(m) {
                words::lemma_lookup_words(m, name);
            }
            let stored = values.update(index, arithmetic::wrap32(value as int));
            lemma_updated(s, room, m, m, name, SlotView::Array(stored));
        }
    }
}

pub proof fn lemma_with_global(s: Setting, room: nat, m: Machine, name: Seq<char>, value: i64)
    requires
        m.cycles <= s.limits.max_cycles,
    ensures
        advances(s, room, m, m.with_global(name, value).0, trap_of(m.with_global(name, value).1)),
{
}

proof fn lemma_printed(s: Setting, room: nat, origin: Machine, m: Machine, value: i64)
    requires
        advances(s, room, origin, m, None),
        words::machine_of_words(origin) ==> arithmetic::is_word(value),
    ensures
        advances(s, room, origin, m.printed(value), None),
{
    let after = m.printed(value);
    assert forall|i: int| 0 <= i < origin.output.len() implies #[trigger] after.output[i]
        == origin.output[i] by {
        assert(m.output[i] == origin.output[i]);
    }
    if words::machine_of_words(origin) {
        assert(is_output_line("OUTPUT: "@ + text::decimal(value as int)));
        if are_output_lines(origin.output) {
            assert forall|i: int| 0 <= i < after.output.len() implies is_output_line(
                #[trigger] after.output[i],
            ) by {
                if i < m.output.len() {
                    assert(after.output[i] == m.output[i]);
                }
            }
        }
    }
}

proof fn lemma_binary_word(op: BinaryOp, left: i64, right: i64)
    ensures
        arithmetic::binary_result(op, left, right) matches Ok(value) ==> arithmetic::is_word(value),
        arithmetic::binary_result(op, left, right) matches Err(trap) ==> trap.0 != TrapCode::NoTrap,
{
}

pub proof fn lemma_bound_params(params: Seq<Param>, args: Seq<i64>)
    ensures
        words::scope_of_words(semantics::bound_params(params, args)),
    decreases params.len(),
{
    if params.len() > 0 {
        lemma_bound_params(params.drop_last(), args.drop_last());
    }
}

/// Evaluating an expression is a step that counts.
pub proof fn lemma_evaluate(s: Setting, room: nat, m: Machine, expr: Expr)
    requires
        m.cycles <= s.limits.max_cycles,
    ensures
        ({
            let (after, r) = semantics::evaluate(s, room, m, expr);
            &&& advances(s, room, m, after, trap_of(r))
            &&& after.cycles > m.cycles
            &&& r matches Ok(value) ==> words::machine_of_words(m) ==> arithmetic::is_word(value)
        }),
    decreases room, 1int, expr, 0int,
{
    let (m1, ticked) = semantics::tick(s.limits, m);
    lemma_tick(s, room, m);
    if ticked is Ok {
        let (after, r) = semantics::evaluate(s, room, m, expr);
        match expr {
            Expr::IntLiteral { value } => {},
            Expr::BoolLiteral { value } => {},
            Expr::Identifier { name } => {
                if words::machine_of_words(m1) {
                    words::lemma_lookup_words(m1, name@);
                }
            },
            Expr::Binary { op, left, right } => {
                let (m2, l) = semantics::evaluate(s, room, m1, *left);
                lemma_evaluate(s, room, m1, *left);
                lemma_in_turn(s, room, m, m1, m2, trap_of(l));
                if let Ok(l) = l {
                    if !(op == BinaryOp::And && l == 0) && !(op == BinaryOp::Or && l != 0) {
                        let (m3, r) = semantics::evaluate(s, room, m2, *right);
                        lemma_evaluate(s, room, m2, *right);
                        lemma_in_turn(s, room, m, m2, m3, trap_of(r));
                        if let Ok(r) = r {
                            lemma_binary_word(op, l, r);
                        }
                    }
                }
            },
            Expr::Unary { op, operand } => {
                let (m2, v) = semantics::evaluate(s, room, m1, *operand);
                lemma_evaluate(s, room, m1, *operand);
                lemma_in_turn(s, room, m, m1, m2, trap_of(v));
            },
            Expr::Call { name, args } => {
                let (m2, values) = semantics::evaluate_args(s, room, m1, args@, Seq::empty());
                lemma_evaluate_args(s, room, m1, args@, Seq::empty());
                lemma_in_turn(s, room, m, m1, m2, trap_of(values));
                if let Ok(values) = values {
                    lemma_invoke(s, room, m2, name@, values);
                    lemma_in_turn(s, room, m, m2, after, trap_of(r));
                }
            },
            Expr::ArrayIndex { array_name, index } => {
                let (m2, i) = semantics::evaluate(s, room, m1, *index);
                lemma_evaluate(s, room, m1, *index);
                lemma_in_turn(s, room, m, m1, m2, trap_of(i));
                if words::machine_of_words(m2) {
                    words::lemma_lookup_words(m2, array_name@);
                }
            },
        }
    }
}

/// Evaluating arguments is a step.
pub proof fn lemma_evaluate_args(
    s: Setting,
    room: nat,
    m: Machine,
    args: Seq<Expr>,
    done: Seq<i64>,
)
    requires
        m.cycles <= s.limits.max_cycles,
    ensures
        ({
            let (after, r) = semantics::evaluate_args(s, room, m, args, done);
            advances(s, room, m, after, trap_of(r))
        }),
    decreases room, 1int, args, 0int,
{
    if args.len() > 0 {
        let (m1, v) = semantics::evaluate(s, room, m, args[0]);
        lemma_evaluate(s, room, m, args[0]);
        if let Ok(v) = v {
            let rest = args.subrange(1, args.len() as int);
            let (after, r) = semantics::evaluate_args(s, room, m1, rest, done.push(v));
            lemma_evaluate_args(s, room, m1, rest, done.push(v));
            lemma_in_turn(s, room, m, m1, after, trap_of(r));
        }
    }
}

/// Calling a function is a step that counts.
pub proof fn lemma_invoke(s: Setting, room: nat, m: Machine, name: Seq<char>, args: Seq<i64>)
    requires
        m.cycles <= s.limits.max_cycles,
    ensures
        ({
            let (after, r) = semantics::invoke(s, room, m, name, args);
            &&& advances(s, room, m, after, trap_of(r))
            &&& after.cycles > m.cycles
            &&& r matches Ok(value) ==> arithmetic::is_word(value)
        }),
    decreases room, 0int, s.program, 0int,
{
    let (m1, ticked) = semantics::tick(s.limits, m);
    lemma_tick(s, room, m);
    if ticked is Ok && room > 0 {
        if let Some(function) = semantics::function_named(s.program.functions@, name) {
            if args.len() == function.params@.len() {
                let inner = (room - 1) as nat;
                let frame = semantics::bound_params(function.params@, args);
                lemma_bound_params(function.params@, args);
                let entered = Machine { frames: m1.frames.push(frame), ..m1 };
                if words::machine_of_words(m1) {
                    assert forall|i: int| 0 <= i < entered.frames.len() implies
                        words::scope_of_words(#[trigger] entered.frames[i]) by {
                        if i < m1.frames.len() {
                            assert(entered.frames[i] == m1.frames[i]);
                        }
                    }
                }
                let (m2, end) = semantics::execute_block(s, inner, entered, function.body@);
                lemma_execute_block(s, inner, entered, function.body@);
                if end is Ok {
                    let left = Machine { frames: m2.frames.drop_last(), ..m2 };
                    if words::machine_of_words(m2) {
                        assert forall|i: int| 0 <= i < left.frames.len() implies
                            words::scope_of_words(#[trigger] left.frames[i]) by {
                            assert(left.frames[i] == m2.frames[i]);
                        }
                    }
                }
            }
        }
    }
}

/// Executing statements is a step.
pub proof fn lemma_execute_block(s: Setting, room: nat, m: Machine, stmts: Seq<Stmt>)
    requires
        m.cycles <= s.limits.max_cycles,
    ensures
        ({
            let (after, r) = semantics::execute_block(s, room, m, stmts);
            advances(s, room, m, after, trap_of(r))
        }),
    decreases room, 2int, stmts, 0int,
{
    if stmts.len() > 0 {
        let (m1, end) = semantics::execute(s, room, m, stmts[0]);
        lemma_execute(s, room, m, stmts[0]);
        if let Ok(Control::Continue) = end {
            let rest = stmts.subrange(1, stmts.len() as int);
            let (after, r) = semantics::execute_block(s, room, m1, rest);
            lemma_execute_block(s, room, m1, rest);
            lemma_in_turn(s, room, m, m1, after, trap_of(r));
        }
    }
}

/// Executing a statement is a step that counts.
pub proof fn lemma_execute(s: Setting, room: nat, m: Machine, stmt: Stmt)
    requires
        m.cycles <= s.limits.max_cycles,
    ensures
        ({
            let (after, r) = semantics::execute(s, room, m, stmt);
            advances(s, room, m, after, trap_of(r)) && after.cycles > m.cycles
        }),
    decreases room, 2int, stmt, semantics::loop_bound(s.limits) + 1,
{
    let (m1, ticked) = semantics::tick(s.limits, m);
    lemma_tick(s, room, m);
    if ticked is Ok {
        let (after, r) = semantics::execute(s, room, m, stmt);
        match stmt {
            Stmt::VarDecl { name, init_expr, array_size } => {
                match (array_size, init_expr) {
                    (Some(size), _) => {
                        lemma_declared_or_updated(s, room, m, m1, name@, semantics::zeros(size));
                    },
                    (None, Some(init)) => {
                        let (m2, v) = semantics::evaluate(s, room, m1, init);
                        lemma_evaluate(s, room, m1, init);
                        lemma_in_turn(s, room, m, m1, m2, trap_of(v));
                        if let Ok(v) = v {
                            lemma_declared_or_updated(
                                s,
                                room,
                                m,
                                m2,
                                name@,
                                SlotView::Scalar(Some(v)),
                            );
                        }
                    },
                    (None, None) => {
                        lemma_declared(s, room, m, m1, name@, SlotView::Scalar(None));
                    },
                }
            },
            Stmt::Assign { target, index_expr, value } => {
                let (m2, v) = semantics::evaluate(s, room, m1, value);
                lemma_evaluate(s, room, m1, value);
                lemma_in_turn(s, room, m, m1, m2, trap_of(v));
                if let Ok(v) = v {
                    match index_expr {
                        None => {
                            lemma_with_scalar(s, room, m2, target@, v);
                            lemma_in_turn(s, room, m, m2, after, trap_of(r));
                        },
                        Some(index) => {
                            let (m3, i) = semantics::evaluate(s, room, m2, index);
                            lemma_evaluate(s, room, m2, index);
                            lemma_in_turn(s, room, m, m2, m3, trap_of(i));
                            if let Ok(i) = i {
                                if let Ok(i) = semantics::array_index(i) {
                                    lemma_with_element(s, room, m3, target@, i, v);
                                    lemma_in_turn(s, room, m, m3, after, trap_of(r));
                                }
                            }
                        },
                    }
                }
            },
            Stmt::If { condition, then_body, else_body } => {
                let (m2, v) = semantics::evaluate(s, room, m1, condition);
                lemma_evaluate(s, room, m1, condition);
                lemma_in_turn(s, room, m, m1, m2, trap_of(v));
                if let Ok(v) = v {
                    if v != 0 {
                        lemma_execute_block(s, room, m2, then_body@);
                        lemma_in_turn(s, room, m, m2, after, trap_of(r));
                    } else if let Some(body) = else_body {
                        lemma_execute_block(s, room, m2, body@);
                        lemma_in_turn(s, room, m, m2, after, trap_of(r));
                    }
                }
            },
            Stmt::While { condition, body } => {
                lemma_execute_loop(s, room, m1, stmt, semantics::loop_bound(s.limits));
                lemma_in_turn(s, room, m, m1, after, trap_of(r));
            },
            Stmt::Return { value } => {
                let (m2, v) = semantics::evaluate(s, room, m1, value);
                lemma_evaluate(s, room, m1, value);
                lemma_in_turn(s, room, m, m1, m2, trap_of(v));
            },
            Stmt::Print { value } => {
                let (m2, v) = semantics::evaluate(s, room, m1, value);
                lemma_evaluate(s, room, m1, value);
                lemma_in_turn(s, room, m, m1, m2, trap_of(v));
                if let Ok(v) = v {
                    lemma_printed(s, room, m, m2, v);
                }
            },
            Stmt::ExprStmt { expr } => {
                let (m2, v) = semantics::evaluate(s, room, m1, expr);
                lemma_evaluate(s, room, m1, expr);
                lemma_in_turn(s, room, m, m1, m2, trap_of(v));
            },
        }
    }
}

/// Executing a loop is a step.
pub proof fn lemma_execute_loop(s: Setting, room: nat, m: Machine, stmt: Stmt, bound: nat)
    requires
        m.cycles <= s.limits.max_cycles,
    ensures
        ({
            let (after, r) = semantics::execute_loop(s, room, m, stmt, bound);
            advances(s, room, m, after, trap_of(r))
        }),
    decreases room, 2int, stmt, bound,
{
    if let Stmt::While { condition, body } = stmt {
        if bound > 0 {
            let (m1, v) = semantics::evaluate(s, room, m, condition);
            lemma_evaluate(s, room, m, condition);
            if let Ok(v) = v {
                if v != 0 {
                    let (m2, end) = semantics::execute_block(s, room, m1, body@);
                    lemma_execute_block(s, room, m1, body@);
                    lemma_in_turn(s, room, m, m1, m2, trap_of(end));
                    if let Ok(Control::Continue) = end {
                        let rest = (bound - 1) as nat;
                        let (after, r) = semantics::execute_loop(s, room, m2, stmt, rest);
                        lemma_execute_loop(s, room, m2, stmt, rest);
                        lemma_in_turn(s, room, m, m2, after, trap_of(r));
                    }
                }
            }
        }
    }
}

/// Initialising globals is a step.
pub proof fn lemma_initialize(s: Setting, m: Machine, globals: Seq<GlobalVar>)
    requires
        m.cycles <= s.limits.max_cycles,
    ensures
        ({
            let (after, r) = semantics::initialize(s, m, globals);
            advances(s, s.limits.max_frames as nat, m, after, trap_of(r))
        }),
    decreases globals.len(),
{
    if globals.len() > 0 {
        let room = s.limits.max_frames as nat;
        let rest = globals.subrange(1, globals.len() as int);
        let (after, r) = semantics::initialize(s, m, globals);
        match globals[0].init_expr {
            None => {
                lemma_initialize(s, m, rest);
            },
            Some(init) => {
                let (m1, v) = semantics::evaluate(s, room, m, init);
                lemma_evaluate(s, room, m, init);
                if let Ok(v) = v {
                    let (m2, stored) = m1.with_global(globals[0].name@, v);
                    lemma_with_global(s, room, m1, globals[0].name@, v);
                    lemma_in_turn(s, room, m, m1, m2, trap_of(stored));
                    if stored is Ok {
                        lemma_initialize(s, m2, rest);
                        lemma_in_turn(s, room, m, m2, after, trap_of(r));
                    }
                }
            },
        }
    }
}

/// The globals of a program start as words.
pub proof fn lemma_declared_globals(globals: Seq<GlobalVar>)
    ensures
        words::scope_of_words(semantics::declared_globals(globals)),
    decreases globals.len(),
{
    if globals.len() > 0 {
        lemma_declared_globals(globals.drop_last());
    }
}

} // verus!
