//! Runs that have more steps and more calls to spend.
//!
//! A step that does not run into a limit does the same where the limits are farther away.

use vstd::prelude::*;

use crate::arithmetic::TrapView;
use crate::ast::{BinaryOp, Expr, GlobalVar, Stmt};
use crate::semantics;
use crate::semantics::{Control, Machine, Setting, SlotView};
use crate::trap::TrapCode;

verus! {

/// Whether two machines are the same but for the steps counted.
pub open spec fn same_state(a: Machine, b: Machine) -> bool {
    &&& a.globals == b.globals
    &&& a.frames == b.frames
    &&& a.output == b.output
}

/// Whether a result is a trap that comes of a limit.
pub open spec fn hit_limit<T>(r: Result<T, TrapView>) -> bool {
    r matches Err(trap) && (trap.0 == TrapCode::CycleLimit || trap.0 == TrapCode::StackOverflow)
}

/// Whether a run in machine `m2` under `s2` has at least as much to spend as one of the same
/// program in the same state, `m1` under `s1`.
pub open spec fn has_more(
    s1: Setting,
    room1: nat,
    m1: Machine,
    s2: Setting,
    room2: nat,
    m2: Machine,
) -> bool {
    &&& s1.program == s2.program
    &&& s1.limits.max_cycles <= s2.limits.max_cycles
    &&& s1.limits.max_cycles - m1.cycles <= s2.limits.max_cycles - m2.cycles
    &&& room1 <= room2
    &&& same_state(m1, m2)
}

/// Whether two steps, from `m1` and `m2`, end in the same state with the same result after the
/// same number of steps.
pub open spec fn same_end<T>(
    m1: Machine,
    end1: (Machine, Result<T, TrapView>),
    m2: Machine,
    end2: (Machine, Result<T, TrapView>),
) -> bool {
    &&& end1.1 == end2.1
    &&& same_state(end1.0, end2.0)
    &&& end1.0.cycles - m1.cycles == end2.0.cycles - m2.cycles
}

proof fn lemma_same_lookup(m1: Machine, m2: Machine, name: Seq<char>)
    requires
        same_state(m1, m2),
    ensures
        m1.lookup(name) == m2.lookup(name),
        forall|slot: SlotView|
            same_state(#[trigger] m1.updated(name, slot), m2.updated(name, slot)) && m1.updated(
                name,
                slot,
            ).cycles == m1.cycles && m2.updated(name, slot).cycles == m2.cycles,
{
}

/// Evaluating an expression.
pub proof fn lemma_evaluate(
    s1: Setting,
    room1: nat,
    m1: Machine,
    s2: Setting,
    room2: nat,
    m2: Machine,
    expr: Expr,
)
    requires
        has_more(s1, room1, m1, s2, room2, m2),
        !hit_limit(semantics::evaluate(s1, room1, m1, expr).1),
    ensures
        same_end(
            m1,
            semantics::evaluate(s1, room1, m1, expr),
            m2,
            semantics::evaluate(s2, room2, m2, expr),
        ),
    decreases room1, 1int, expr, 0int,
{
    let a1 = m1.stepped();
    let a2 = m2.stepped();
    match expr {
        Expr::IntLiteral { value } => {},
        Expr::BoolLiteral { value } => {},
        Expr::Identifier { name } => {
            lemma_same_lookup(a1, a2, name@);
        },
        Expr::Binary { op, left, right } => {
            let (b1, l) = semantics::evaluate(s1, room1, a1, *left);
            let (b2, l2) = semantics::evaluate(s2, room2, a2, *left);
            lemma_evaluate(s1, room1, a1, s2, room2, a2, *left);
            if let Ok(l) = l {
                if !(op == BinaryOp::And && l == 0) && !(op == BinaryOp::Or && l != 0) {
                    lemma_evaluate(s1, room1, b1, s2, room2, b2, *right);
                }
            }
        },
        Expr::Unary { op, operand } => {
            lemma_evaluate(s1, room1, a1, s2, room2, a2, *operand);
        },
        Expr::Call { name, args } => {
            let (b1, values) = semantics::evaluate_args(s1, room1, a1, args@, Seq::empty());
            let (b2, values2) = semantics::evaluate_args(s2, room2, a2, args@, Seq::empty());
            lemma_evaluate_args(s1, room1, a1, s2, room2, a2, args@, Seq::empty());
            if let Ok(values) = values {
                lemma_invoke(s1, room1, b1, s2, room2, b2, name@, values);
            }
        },
        Expr::ArrayIndex { array_name, index } => {
            let (b1, i) = semantics::evaluate(s1, room1, a1, *index);
            let (b2, i2) = semantics::evaluate(s2, room2, a2, *index);
            lemma_evaluate(s1, room1, a1, s2, room2, a2, *index);
            lemma_same_lookup(b1, b2, array_name@);
        },
    }
}

/// Evaluating arguments.
pub proof fn lemma_evaluate_args(
    s1: Setting,
    room1: nat,
    m1: Machine,
    s2: Setting,
    room2: nat,
    m2: Machine,
    args: Seq<Expr>,
    done: Seq<i64>,
)
    requires
        has_more(s1, room1, m1, s2, room2, m2),
        !hit_limit(semantics::evaluate_args(s1, room1, m1, args, done).1),
    ensures
        same_end(
            m1,
            semantics::evaluate_args(s1, room1, m1, args, done),
            m2,
            semantics::evaluate_args(s2, room2, m2, args, done),
        ),
    decreases room1, 1int, args, 0int,
{
    if args.len() > 0 {
        let (b1, v) = semantics::evaluate(s1, room1, m1, args[0]);
        let (b2, v2) = semantics::evaluate(s2, room2, m2, args[0]);
        lemma_evaluate(s1, room1, m1, s2, room2, m2, args[0]);
        if let Ok(v) = v {
            let rest = args.subrange(1, args.len() as int);
            lemma_evaluate_args(s1, room1, b1, s2, room2, b2, rest, done.push(v));
        }
    }
}

/// Calling a function.
pub proof fn lemma_invoke(
    s1: Setting,
    room1: nat,
    m1: Machine,
    s2: Setting,
    room2: nat,
    m2: Machine,
    name: Seq<char>,
    args: Seq<i64>,
)
    requires
        has_more(s1, room1, m1, s2, room2, m2),
        !hit_limit(semantics::invoke(s1, room1, m1, name, args).1),
    ensures
        same_end(
            m1,
            semantics::invoke(s1, room1, m1, name, args),
            m2,
            semantics::invoke(s2, room2, m2, name, args),
        ),
    decreases room1, 0int, s1.program, 0int,
{
    let a1 = m1.stepped();
    let a2 = m2.stepped();
    if let Some(function) = semantics::function_named(s1.program.functions@, name) {
        if args.len() == function.params@.len() {
            let frame = semantics::bound_params(function.params@, args);
            let entered1 = Machine { frames: a1.frames.push(frame), ..a1 };
            let entered2 = Machine { frames: a2.frames.push(frame), ..a2 };
            lemma_execute_block(
                s1,
                (room1 - 1) as nat,
                entered1,
                s2,
                (room2 - 1) as nat,
                entered2,
                function.body@,
            );
        }
    }
}

/// Executing statements.
pub proof fn lemma_execute_block(
    s1: Setting,
    room1: nat,
    m1: Machine,
    s2: Setting,
    room2: nat,
    m2: Machine,
    stmts: Seq<Stmt>,
)
    requires
        has_more(s1, room1, m1, s2, room2, m2),
        !hit_limit(semantics::execute_block(s1, room1, m1, stmts).1),
    ensures
        same_end(
            m1,
            semantics::execute_block(s1, room1, m1, stmts),
            m2,
            semantics::execute_block(s2, room2, m2, stmts),
        ),
    decreases room1, 2int, stmts, 0int,
{
    if stmts.len() > 0 {
        let (b1, end) = semantics::execute(s1, room1, m1, stmts[0]);
        let (b2, end2) = semantics::execute(s2, room2, m2, stmts[0]);
        lemma_execute(s1, room1, m1, s2, room2, m2, stmts[0]);
        if let Ok(Control::Continue) = end {
            let rest = stmts.subrange(1, stmts.len() as int);
            lemma_execute_block(s1, room1, b1, s2, room2, b2, rest);
        }
    }
}

/// Executing a statement.
pub proof fn lemma_execute(
    s1: Setting,
    room1: nat,
    m1: Machine,
    s2: Setting,
    room2: nat,
    m2: Machine,
    stmt: Stmt,
)
    requires
        has_more(s1, room1, m1, s2, room2, m2),
        !hit_limit(semantics::execute(s1, room1, m1, stmt).1),
    ensures
        same_end(
            m1,
            semantics::execute(s1, room1, m1, stmt),
            m2,
            semantics::execute(s2, room2, m2, stmt),
        ),
    decreases room1, 2int, stmt, semantics::loop_bound(s1.limits) + 1,
{
    let a1 = m1.stepped();
    let a2 = m2.stepped();
    match stmt {
        Stmt::VarDecl { name, init_expr, array_size } => {
            match (array_size, init_expr) {
                (Some(size), _) => {
                    lemma_same_lookup(a1, a2, name@);
                },
                (None, Some(init)) => {
                    let (b1, v) = semantics::evaluate(s1, room1, a1, init);
                    let (b2, v2) = semantics::evaluate(s2, room2, a2, init);
                    lemma_evaluate(s1, room1, a1, s2, room2, a2, init);
                    lemma_same_lookup(b1, b2, name@);
                },
                (None, None) => {
                    lemma_same_lookup(a1, a2, name@);
                },
            }
        },
        Stmt::Assign { target, index_expr, value } => {
            let (b1, v) = semantics::evaluate(s1, room1, a1, value);
            let (b2, v2) = semantics::evaluate(s2, room2, a2, value);
            lemma_evaluate(s1, room1, a1, s2, room2, a2, value);
            if let Ok(v) = v {
                match index_expr {
                    None => {
                        lemma_same_lookup(b1, b2, target@);
                    },
                    Some(index) => {
                        let (c1, i) = semantics::evaluate(s1, room1, b1, index);
                        let (c2, i2) = semantics::evaluate(s2, room2, b2, index);
                        lemma_evaluate(s1, room1, b1, s2, room2, b2, index);
                        lemma_same_lookup(c1, c2, target@);
                    },
                }
            }
        },
        Stmt::If { condition, then_body, else_body } => {
            let (b1, v) = semantics::evaluate(s1, room1, a1, condition);
            let (b2, v2) = semantics::evaluate(s2, room2, a2, condition);
            lemma_evaluate(s1, room1, a1, s2, room2, a2, condition);
            if let Ok(v) = v {
                if v != 0 {
                    lemma_execute_block(s1, room1, b1, s2, room2, b2, then_body@);
                } else if let Some(body) = else_body {
                    lemma_execute_block(s1, room1, b1, s2, room2, b2, body@);
                }
            }
        },
        Stmt::While { condition, body } => {
            lemma_execute_loop(
                s1,
                room1,
                a1,
                semantics::loop_bound(s1.limits),
                s2,
                room2,
                a2,
                semantics::loop_bound(s2.limits),
                stmt,
            );
        },
        Stmt::Return { value } => {
            lemma_evaluate(s1, room1, a1, s2, room2, a2, value);
        },
        Stmt::Print { value } => {
            lemma_evaluate(s1, room1, a1, s2, room2, a2, value);
        },
        Stmt::ExprStmt { expr } => {
            lemma_evaluate(s1, room1, a1, s2, room2, a2, expr);
        },
    }
}

/// Executing a loop, which may evaluate its condition at least as often.
pub proof fn lemma_execute_loop(
    s1: Setting,
    room1: nat,
    m1: Machine,
    bound1: nat,
    s2: Setting,
    room2: nat,
    m2: Machine,
    bound2: nat,
    stmt: Stmt,
)
    requires
        has_more(s1, room1, m1, s2, room2, m2),
        bound1 <= bound2,
        !hit_limit(semantics::execute_loop(s1, room1, m1, stmt, bound1).1),
    ensures
        same_end(
            m1,
            semantics::execute_loop(s1, room1, m1, stmt, bound1),
            m2,
            semantics::execute_loop(s2, room2, m2, stmt, bound2),
        ),
    decreases room1, 2int, stmt, bound1,
{
    if let Stmt::While { condition, body } = stmt {
        let (b1, v) = semantics::evaluate(s1, room1, m1, condition);
        let (b2, v2) = semantics::evaluate(s2, room2, m2, condition);
        lemma_evaluate(s1, room1, m1, s2, room2, m2, condition);
        if let Ok(v) = v {
            if v != 0 {
                let (c1, end) = semantics::execute_block(s1, room1, b1, body@);
                let (c2, end2) = semantics::execute_block(s2, room2, b2, body@);
                lemma_execute_block(s1, room1, b1, s2, room2, b2, body@);
                if let Ok(Control::Continue) = end {
                    lemma_execute_loop(
                        s1,
                        room1,
                        c1,
                        (bound1 - 1) as nat,
                        s2,
                        room2,
                        c2,
                        (bound2 - 1) as nat,
                        stmt,
                    );
                }
            }
        }
    }
}

/// Initialising globals.
pub proof fn lemma_initialize(
    s1: Setting,
    m1: Machine,
    s2: Setting,
    m2: Machine,
    globals: Seq<GlobalVar>,
)
    requires
        has_more(
            s1,
            s1.limits.max_frames as nat,
            m1,
            s2,
            s2.limits.max_frames as nat,
            m2,
        ),
        !hit_limit(semantics::initialize(s1, m1, globals).1),
    ensures
        same_end(
            m1,
            semantics::initialize(s1, m1, globals),
            m2,
            semantics::initialize(s2, m2, globals),
        ),
    decreases globals.len(),
{
    if globals.len() > 0 {
        let room1 = s1.limits.max_frames as nat;
        let room2 = s2.limits.max_frames as nat;
        let rest = globals.subrange(1, globals.len() as int);
        match globals[0].init_expr {
            None => {
                lemma_initialize(s1, m1, s2, m2, rest);
            },
            Some(init) => {
                let (b1, v) = semantics::evaluate(s1, room1, m1, init);
                let (b2, v2) = semantics::evaluate(s2, room2, m2, init);
                lemma_evaluate(s1, room1, m1, s2, room2, m2, init);
                if let Ok(v) = v {
                    let (c1, stored) = b1.with_global(globals[0].name@, v);
                    let (c2, stored2) = b2.with_global(globals[0].name@, v);
                    if stored is Ok {
                        lemma_initialize(s1, c1, s2, c2, rest);
                    }
                }
            },
        }
    }
}

} // verus!
