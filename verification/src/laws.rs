//! Laws of the interpreter.

use vstd::prelude::*;

use crate::arithmetic;
use crate::ast::{BinaryOp, Expr, Program, Stmt, UnaryOp};
use crate::bounds;
use crate::budget;
use crate::limits::Limits;
use crate::oracle;
use crate::semantics;
use crate::semantics::{Control, Machine, Setting, SlotView};
use crate::trap::TrapCode;
use crate::words;

verus! {

/// A run counts at most one step beyond its limit and has at most as many calls active as its
/// limit allows; it neither adds nor removes a global; all values that it holds and prints are
/// words.
pub proof fn law_runs_stay_in_bounds(s: Setting)
    ensures
        ({
            let (end, r) = semantics::run(s);
            &&& end.cycles <= s.limits.max_cycles + 1
            &&& end.frames.len() <= s.limits.max_frames
            &&& end.globals.dom() == semantics::declared_globals(s.program.globals@).dom()
            &&& bounds::holds_words(end)
            &&& r matches Ok(value) ==> arithmetic::is_word(value) && end.frames.len() == 0
            &&& r matches Err(trap) ==> trap.0 != TrapCode::NoTrap
        }),
{
    let begin = semantics::start(s.program);
    let (m, ready) = semantics::initialize(s, begin, s.program.globals@);
    let (end, r) = semantics::run(s);
    bounds::lemma_declared_globals(s.program.globals@);
    bounds::lemma_initialize(s, begin, s.program.globals@);
    if ready is Ok {
        bounds::lemma_invoke(s, s.limits.max_frames as nat, m, "main"@, Seq::empty());
    }
    assert(end.globals.dom() =~= begin.globals.dom());
}

/// A run succeeds exactly where it has no trap; a run with a trap returns zero, and one that
/// succeeds has no message.
pub proof fn law_success_is_the_absence_of_a_trap(s: Setting)
    ensures
        ({
            let outcome = oracle::outcome_of(semantics::run(s));
            &&& outcome.success <==> outcome.trap_code == TrapCode::NoTrap
            &&& !outcome.success ==> outcome.return_value == 0
            &&& outcome.success ==> outcome.trap_message.len() == 0
            &&& arithmetic::is_word(outcome.return_value)
        }),
{
    law_runs_stay_in_bounds(s);
}

/// Limits only cut runs short: what can be observed of a run that hits neither limit is the same
/// under all higher limits.
pub proof fn law_higher_limits_change_nothing(program: Program, low: Limits, high: Limits)
    requires
        low.max_cycles <= high.max_cycles,
        low.max_frames <= high.max_frames,
        !budget::hit_limit(semantics::run(Setting { program, limits: low }).1),
    ensures
        oracle::outcome_of(semantics::run(Setting { program, limits: low })) == oracle::outcome_of(
            semantics::run(Setting { program, limits: high }),
        ),
{
    let s1 = Setting { program, limits: low };
    let s2 = Setting { program, limits: high };
    let begin = semantics::start(program);
    let (m1, ready) = semantics::initialize(s1, begin, program.globals@);
    let (m2, ready2) = semantics::initialize(s2, begin, program.globals@);
    budget::lemma_initialize(s1, begin, s2, begin, program.globals@);
    if ready is Ok {
        budget::lemma_invoke(
            s1,
            low.max_frames as nat,
            m1,
            s2,
            high.max_frames as nat,
            m2,
            "main"@,
            Seq::empty(),
        );
    }
}

/// How often a loop may evaluate its condition never decides what it does, as long as it may do
/// so until the steps run out.
pub proof fn law_loop_bounds_do_not_matter(
    s: Setting,
    room: nat,
    m: Machine,
    stmt: Stmt,
    bound1: nat,
    bound2: nat,
)
    requires
        m.cycles <= s.limits.max_cycles,
        bound1 + m.cycles > s.limits.max_cycles,
        bound2 + m.cycles > s.limits.max_cycles,
    ensures
        semantics::execute_loop(s, room, m, stmt, bound1) == semantics::execute_loop(
            s,
            room,
            m,
            stmt,
            bound2,
        ),
    decreases bound1,
{
    if let Stmt::While { condition, body } = stmt {
        let (m1, v) = semantics::evaluate(s, room, m, condition);
        bounds::lemma_evaluate(s, room, m, condition);
        if let Ok(v) = v {
            if v != 0 {
                let (m2, end) = semantics::execute_block(s, room, m1, body@);
                bounds::lemma_execute_block(s, room, m1, body@);
                if let Ok(Control::Continue) = end {
                    law_loop_bounds_do_not_matter(
                        s,
                        room,
                        m2,
                        stmt,
                        (bound1 - 1) as nat,
                        (bound2 - 1) as nat,
                    );
                }
            }
        }
    }
}

/// A loop is its condition, and where that is true, its body followed by the loop.
pub proof fn law_loops_unfold(
    s: Setting,
    room: nat,
    m: Machine,
    condition: Expr,
    body: Vec<Stmt>,
)
    requires
        m.cycles <= s.limits.max_cycles,
    ensures
        ({
            let stmt = Stmt::While { condition, body };
            let bound = semantics::loop_bound(s.limits);
            let (m1, v) = semantics::evaluate(s, room, m, condition);
            semantics::execute_loop(s, room, m, stmt, bound) == match v {
                Err(trap) => (m1, Err(trap)),
                Ok(v) => if v == 0 {
                    (m1, Ok(Control::Continue))
                } else {
                    let (m2, end) = semantics::execute_block(s, room, m1, body@);
                    match end {
                        Ok(Control::Continue) => semantics::execute_loop(s, room, m2, stmt, bound),
                        _ => (m2, end),
                    }
                },
            }
        }),
{
    let stmt = Stmt::While { condition, body };
    let bound = semantics::loop_bound(s.limits);
    let (m1, v) = semantics::evaluate(s, room, m, condition);
    bounds::lemma_evaluate(s, room, m, condition);
    if let Ok(v) = v {
        if v != 0 {
            let (m2, end) = semantics::execute_block(s, room, m1, body@);
            bounds::lemma_execute_block(s, room, m1, body@);
            if let Ok(Control::Continue) = end {
                law_loop_bounds_do_not_matter(s, room, m2, stmt, (bound - 1) as nat, bound);
            }
        }
    }
}

/// A block of statements `a` followed by `b` runs as `a` and then, where `a` ends with the next
/// statement in line, as `b`; a return or a trap in `a` ends the block. An empty block does nothing.
pub proof fn law_blocks_run_in_turn(
    s: Setting,
    room: nat,
    m: Machine,
    a: Seq<Stmt>,
    b: Seq<Stmt>,
)
    ensures
        ({
            let (m1, end) = semantics::execute_block(s, room, m, a);
            semantics::execute_block(s, room, m, a + b) == match end {
                Ok(Control::Continue) => semantics::execute_block(s, room, m1, b),
                _ => (m1, end),
            }
        }),
        semantics::execute_block(s, room, m, Seq::empty()) == (m, Ok::<
            Control,
            arithmetic::TrapView,
        >(Control::Continue)),
    decreases a.len(),
{
    if a.len() == 0 {
        assert(a + b =~= b);
    } else {
        let rest = a.subrange(1, a.len() as int);
        let (m1, end) = semantics::execute(s, room, m, a[0]);
        assert((a + b)[0] == a[0]);
        assert((a + b).subrange(1, (a + b).len() as int) =~= rest + b);
        law_blocks_run_in_turn(s, room, m1, rest, b);
    }
}

/// A block opens no scope: to take a branch and go on is to have the statements of the branch in
/// its place, two steps later, so that what they declare stays.
pub proof fn law_blocks_open_no_scope(
    s: Setting,
    room: nat,
    m: Machine,
    body: Vec<Stmt>,
    else_body: Option<Vec<Stmt>>,
    rest: Seq<Stmt>,
)
    requires
        m.cycles + 2 <= s.limits.max_cycles,
    ensures
        ({
            let taken = Stmt::If {
                condition: Expr::BoolLiteral { value: true },
                then_body: body,
                else_body,
            };
            semantics::execute_block(s, room, m, seq![taken] + rest) == semantics::execute_block(
                s,
                room,
                m.stepped().stepped(),
                body@ + rest,
            )
        }),
{
    let taken = Stmt::If {
        condition: Expr::BoolLiteral { value: true },
        then_body: body,
        else_body,
    };
    let all = seq![taken] + rest;
    assert(all[0] == taken);
    assert(all.subrange(1, all.len() as int) =~= rest);
    assert(semantics::execute(s, room, m, taken) == semantics::execute_block(
        s,
        room,
        m.stepped().stepped(),
        body@,
    ));
    law_blocks_run_in_turn(s, room, m.stepped().stepped(), body@, rest);
}

/// Where every value that a machine holds is a word, it stays so when an expression is evaluated,
/// also where that ends in a trap; and what the expression gives is a word.
pub proof fn law_evaluation_keeps_words(s: Setting, room: nat, m: Machine, expr: Expr)
    requires
        words::machine_of_words(m),
    ensures
        ({
            let (after, r) = semantics::evaluate(s, room, m, expr);
            &&& words::machine_of_words(after)
            &&& r matches Ok(value) ==> arithmetic::is_word(value)
        }),
{
    if m.cycles <= s.limits.max_cycles {
        bounds::lemma_evaluate(s, room, m, expr);
    }
}

/// Negating a word gives a word; the least word is its own negation.
pub proof fn law_negation_stays_in_bounds(v: i64)
    requires
        arithmetic::is_word(v),
    ensures
        arithmetic::is_word(arithmetic::unary_result(UnaryOp::Neg, v)),
        arithmetic::unary_result(UnaryOp::Neg, v) == if v == -0x8000_0000 {
            v as int
        } else {
            -v
        },
{
}

/// The words are the fixed points of wrapping, and wrapping gives a word.
pub proof fn law_wrapping_fixes_words(v: i64)
    ensures
        arithmetic::is_word(arithmetic::wrap32(v as int)),
        arithmetic::is_word(v) <==> arithmetic::wrap32(v as int) == v,
{
}

/// Adding zero to an expression changes neither its value nor the state after it.
pub proof fn law_adding_zero_is_neutral(s: Setting, room: nat, m: Machine, expr: Expr)
    requires
        words::machine_of_words(m),
        !budget::hit_limit(semantics::evaluate(s, room, m, plus_zero(expr)).1),
    ensures
        ({
            let (plain, r) = semantics::evaluate(s, room, m, expr);
            let (padded, padded_r) = semantics::evaluate(s, room, m, plus_zero(expr));
            padded_r == r && budget::same_state(padded, plain)
        }),
{
    let zero = Expr::IntLiteral { value: 0 };
    let (m1, v) = semantics::evaluate(s, room, m.stepped(), expr);
    budget::lemma_evaluate(s, room, m.stepped(), s, room, m, expr);
    bounds::lemma_evaluate(s, room, m.stepped(), expr);
    if let Ok(v) = v {
        assert(semantics::evaluate(s, room, m1, zero).1 is Ok);
        law_wrapping_fixes_words(v);
    }
}

/// The sum of an expression and zero.
pub open spec fn plus_zero(expr: Expr) -> Expr {
    Expr::Binary {
        op: BinaryOp::Add,
        left: Box::new(expr),
        right: Box::new(Expr::IntLiteral { value: 0 }),
    }
}

/// A branch on false without an alternative does nothing but count its two steps.
pub proof fn law_dead_branches_do_nothing(s: Setting, room: nat, m: Machine, body: Vec<Stmt>)
    requires
        m.cycles + 2 <= s.limits.max_cycles,
    ensures
        ({
            let dead = Stmt::If {
                condition: Expr::BoolLiteral { value: false },
                then_body: body,
                else_body: None,
            };
            semantics::execute(s, room, m, dead) == (m.stepped().stepped(), Ok::<
                Control,
                arithmetic::TrapView,
            >(Control::Continue))
        }),
{
}

/// Branching on the negated condition with the branches exchanged does the same.
pub proof fn law_inverted_branches_do_the_same(
    s: Setting,
    room: nat,
    m: Machine,
    condition: Expr,
    first: Vec<Stmt>,
    second: Vec<Stmt>,
)
    requires
        !budget::hit_limit(
            semantics::execute(s, room, m, branch(negated(condition), second, first)).1,
        ),
    ensures
        ({
            let (plain, r) = semantics::execute(s, room, m, branch(condition, first, second));
            let (turned, turned_r) = semantics::execute(
                s,
                room,
                m,
                branch(negated(condition), second, first),
            );
            turned_r == r && budget::same_state(turned, plain)
        }),
{
    let a = m.stepped();
    let b = a.stepped();
    let (b1, v) = semantics::evaluate(s, room, b, condition);
    let (a1, v2) = semantics::evaluate(s, room, a, condition);
    budget::lemma_evaluate(s, room, b, s, room, a, condition);
    if let Ok(v) = v {
        let body = if v != 0 { first } else { second };
        budget::lemma_execute_block(s, room, b1, s, room, a1, body@);
    }
}

/// The negation of an expression.
pub open spec fn negated(expr: Expr) -> Expr {
    Expr::Unary { op: UnaryOp::Not, operand: Box::new(expr) }
}

/// A statement with two branches.
pub open spec fn branch(condition: Expr, first: Vec<Stmt>, second: Vec<Stmt>) -> Stmt {
    Stmt::If { condition, then_body: first, else_body: Some(second) }
}

/// An assignment to a scalar succeeds exactly where the name stands for a scalar, set or not; then
/// the name reads back what was assigned, as a word, and every other name reads as before. Where it
/// does not succeed, it changes nothing.
pub proof fn law_scalars_read_back(m: Machine, name: Seq<char>, value: i64, other: Seq<char>)
    ensures
        ({
            let (after, r) = m.with_scalar(name, value);
            &&& r is Ok <==> (m.lookup(name) matches Some(slot) && slot is Scalar)
            &&& r is Ok ==> after.scalar(name) == Ok::<i64, arithmetic::TrapView>(
                arithmetic::wrap32(value as int),
            )
            &&& other != name ==> after.lookup(other) == m.lookup(other)
            &&& other != name ==> after.scalar(other) == m.scalar(other)
            &&& r is Err ==> after == m
        }),
{
    if m.with_scalar(name, value).1 is Ok {
        let slot = SlotView::Scalar(Some(arithmetic::wrap32(value as int)));
        words::lemma_updated_lookup(m, name, slot, other);
    }
}

/// An element of an array reads back what was assigned to it, as a word; the other elements and
/// all other names are untouched.
pub proof fn law_elements_read_back(
    m: Machine,
    name: Seq<char>,
    index: int,
    value: i64,
    other_index: int,
    other: Seq<char>,
)
    requires
        m.with_element(name, index, value).1 is Ok,
    ensures
        m.with_element(name, index, value).0.element(name, index) == Ok::<
            i64,
            arithmetic::TrapView,
        >(arithmetic::wrap32(value as int)),
        other_index != index ==> m.with_element(name, index, value).0.element(name, other_index)
            == m.element(name, other_index),
        other != name ==> m.with_element(name, index, value).0.lookup(other) == m.lookup(other),
{
    if let Some(SlotView::Array(values)) = m.lookup(name) {
        let stored = values.update(index, arithmetic::wrap32(value as int));
        words::lemma_updated_lookup(m, name, SlotView::Array(stored), other);
    }
}

/// A declaration gives its name what it declares, and touches no other name.
pub proof fn law_declarations_read_back(
    m: Machine,
    name: Seq<char>,
    slot: SlotView,
    other: Seq<char>,
)
    requires
        m.declared_or_updated(name, slot).1 is Ok,
    ensures
        m.declared_or_updated(name, slot).0.lookup(name) == Some(slot),
        other != name ==> m.declared_or_updated(name, slot).0.lookup(other) == m.lookup(other),
{
    let after = m.declared_or_updated(name, slot).0;
    if m.lookup(name) is Some {
        words::lemma_updated_lookup(m, name, slot, other);
    } else {
        words::lemma_frame_with(m.frames, other);
        if other != name {
            words::lemma_same_frame(m.frames, after.frames, other);
        }
    }
}

/// Where the left operand of a logical operator decides, the right one is not evaluated.
pub proof fn law_logic_short_circuits(s: Setting, room: nat, m: Machine, left: Expr, right: Expr)
    requires
        m.cycles < s.limits.max_cycles,
    ensures
        ({
            let (after, l) = semantics::evaluate(s, room, m.stepped(), left);
            let and = Expr::Binary {
                op: BinaryOp::And,
                left: Box::new(left),
                right: Box::new(right),
            };
            let or = Expr::Binary {
                op: BinaryOp::Or,
                left: Box::new(left),
                right: Box::new(right),
            };
            &&& l matches Ok(value) ==> value == 0 ==> semantics::evaluate(s, room, m, and) == (
                after,
                Ok::<i64, arithmetic::TrapView>(0),
            )
            &&& l matches Ok(value) ==> value != 0 ==> semantics::evaluate(s, room, m, or) == (
                after,
                Ok::<i64, arithmetic::TrapView>(1),
            )
        }),
{
}

} // verus!
