//! Variants of a program that behave as the program does.
//!
//! A variant may have neutral arithmetic in its expressions, branches that are never taken and
//! locals that nothing reads among its statements, and branches on the negated condition with
//! their bodies exchanged. It counts more steps than the program, so that it may run into the
//! limit where the program does not; where it does not, nothing tells the two apart.

use vstd::prelude::*;

use crate::arithmetic;
use crate::arithmetic::TrapView;
use crate::ast::{BinaryOp, Expr, Function, GlobalVar, Param, Program, Stmt, UnaryOp};
use crate::bounds;
use crate::budget;
use crate::oracle;
use crate::semantics;
use crate::semantics::{Control, Machine, ScopeView, Setting, SlotView};

verus! {

/// Whether an expression mentions a variable.
pub open spec fn expr_mentions(expr: Expr, variable: Seq<char>) -> bool
    decreases expr,
{
    match expr {
        Expr::IntLiteral { .. } => false,
        Expr::BoolLiteral { .. } => false,
        Expr::Identifier { name } => name@ == variable,
        Expr::Binary { left, right, .. } => expr_mentions(*left, variable) || expr_mentions(
            *right,
            variable,
        ),
        Expr::Unary { operand, .. } => expr_mentions(*operand, variable),
        Expr::Call { args, .. } => exprs_mention(args@, variable),
        Expr::ArrayIndex { array_name, index } => array_name@ == variable || expr_mentions(
            *index,
            variable,
        ),
    }
}

/// Whether any of the expressions mentions a variable.
pub open spec fn exprs_mention(exprs: Seq<Expr>, variable: Seq<char>) -> bool
    decreases exprs,
{
    exprs.len() > 0 && (expr_mentions(exprs[0], variable) || exprs_mention(
        exprs.subrange(1, exprs.len() as int),
        variable,
    ))
}

/// Whether an expression is there and mentions a variable.
pub open spec fn optional_mentions(expr: Option<Expr>, variable: Seq<char>) -> bool {
    match expr {
        Some(expr) => expr_mentions(expr, variable),
        None => false,
    }
}

/// Whether a statement mentions a variable.
pub open spec fn stmt_mentions(stmt: Stmt, variable: Seq<char>) -> bool
    decreases stmt,
{
    match stmt {
        Stmt::VarDecl { name, init_expr, .. } => name@ == variable || optional_mentions(
            init_expr,
            variable,
        ),
        Stmt::Assign { target, index_expr, value } => target@ == variable || optional_mentions(
            index_expr,
            variable,
        ) || expr_mentions(value, variable),
        Stmt::If { condition, then_body, else_body } => {
            ||| expr_mentions(condition, variable)
            ||| stmts_mention(then_body@, variable)
            ||| match else_body {
                Some(body) => stmts_mention(body@, variable),
                None => false,
            }
        },
        Stmt::While { condition, body } => expr_mentions(condition, variable) || stmts_mention(
            body@,
            variable,
        ),
        Stmt::Return { value } => expr_mentions(value, variable),
        Stmt::Print { value } => expr_mentions(value, variable),
        Stmt::ExprStmt { expr } => expr_mentions(expr, variable),
    }
}

/// Whether any of the statements mentions a variable.
pub open spec fn stmts_mention(stmts: Seq<Stmt>, variable: Seq<char>) -> bool
    decreases stmts,
{
    stmts.len() > 0 && (stmt_mentions(stmts[0], variable) || stmts_mention(
        stmts.subrange(1, stmts.len() as int),
        variable,
    ))
}

/// Whether the initial value of a global or the body of a function mentions a variable.
pub open spec fn program_mentions(program: Program, variable: Seq<char>) -> bool {
    ||| globals_mention(program.globals@, variable)
    ||| functions_mention(program.functions@, variable)
}

/// Whether the name or the initial value of any of the globals is or mentions a variable.
pub open spec fn globals_mention(globals: Seq<GlobalVar>, variable: Seq<char>) -> bool {
    exists|i: int|
        0 <= i < globals.len() && ((#[trigger] globals[i]).name@ == variable || optional_mentions(
            globals[i].init_expr,
            variable,
        ))
}

/// Whether the body of any of the functions mentions a variable.
pub open spec fn functions_mention(functions: Seq<Function>, variable: Seq<char>) -> bool {
    exists|i: int|
        0 <= i < functions.len() && stmts_mention((#[trigger] functions[i]).body@, variable)
}

/// Whether an operator with this right operand leaves every word as it is: adding or subtracting
/// zero, and multiplying by one.
pub open spec fn is_neutral(op: BinaryOp, right: Expr) -> bool {
    match (op, right) {
        (BinaryOp::Add, Expr::IntLiteral { value }) => value == 0,
        (BinaryOp::Sub, Expr::IntLiteral { value }) => value == 0,
        (BinaryOp::Mul, Expr::IntLiteral { value }) => value == 1,
        _ => false,
    }
}

/// Whether `e1` is `e2`, but for neutral arithmetic.
pub open spec fn expr_variant(e1: Expr, e2: Expr) -> bool
    decreases e1,
{
    match e1 {
        Expr::IntLiteral { value } => e2 matches Expr::IntLiteral { value: value2 } && value
            == value2,
        Expr::BoolLiteral { value } => e2 matches Expr::BoolLiteral { value: value2 } && value
            == value2,
        Expr::Identifier { name } => e2 matches Expr::Identifier { name: name2 } && name@
            == name2@,
        Expr::Binary { op, left, right } => {
            ||| is_neutral(op, *right) && expr_variant(*left, e2)
            ||| {
                &&& e2 matches Expr::Binary { op: op2, left: left2, right: right2 }
                &&& op == op2
                &&& expr_variant(*left, *left2)
                &&& expr_variant(*right, *right2)
            }
        },
        Expr::Unary { op, operand } => {
            &&& e2 matches Expr::Unary { op: op2, operand: operand2 }
            &&& op == op2
            &&& expr_variant(*operand, *operand2)
        },
        Expr::Call { name, args } => {
            &&& e2 matches Expr::Call { name: name2, args: args2 }
            &&& name@ == name2@
            &&& exprs_variant(args@, args2@)
        },
        Expr::ArrayIndex { array_name, index } => {
            &&& e2 matches Expr::ArrayIndex { array_name: array_name2, index: index2 }
            &&& array_name@ == array_name2@
            &&& expr_variant(*index, *index2)
        },
    }
}

/// Whether expressions are, one by one, the same but for neutral arithmetic.
pub open spec fn exprs_variant(e1: Seq<Expr>, e2: Seq<Expr>) -> bool
    decreases e1,
{
    &&& e1.len() == e2.len()
    &&& e1.len() > 0 ==> expr_variant(e1[0], e2[0]) && exprs_variant(
        e1.subrange(1, e1.len() as int),
        e2.subrange(1, e2.len() as int),
    )
}

/// Whether both expressions are missing, or are the same but for neutral arithmetic.
pub open spec fn optional_variant(e1: Option<Expr>, e2: Option<Expr>) -> bool {
    match (e1, e2) {
        (Some(e1), Some(e2)) => expr_variant(e1, e2),
        (None, None) => true,
        _ => false,
    }
}

/// Whether a statement does nothing that shows: a branch that is never taken, or the declaration
/// of the local `unused` with a number for its value.
pub open spec fn does_nothing(stmt: Stmt, unused: Seq<char>) -> bool {
    match stmt {
        Stmt::If { condition: Expr::BoolLiteral { value }, else_body: None, .. } => !value,
        Stmt::VarDecl {
            name,
            init_expr: Some(Expr::IntLiteral { .. }),
            array_size: None,
        } => name@ == unused,
        _ => false,
    }
}

/// Whether `s1` is a variant of the statement `s2`.
pub open spec fn stmt_variant(s1: Stmt, s2: Stmt, unused: Seq<char>) -> bool
    decreases s1,
{
    match s1 {
        Stmt::VarDecl { name, init_expr, array_size } => {
            &&& s2 matches Stmt::VarDecl {
                name: name2,
                init_expr: init_expr2,
                array_size: array_size2,
            }
            &&& name@ == name2@
            &&& array_size == array_size2
            &&& optional_variant(init_expr, init_expr2)
        },
        Stmt::Assign { target, index_expr, value } => {
            &&& s2 matches Stmt::Assign { target: target2, index_expr: index_expr2, value: value2 }
            &&& target@ == target2@
            &&& optional_variant(index_expr, index_expr2)
            &&& expr_variant(value, value2)
        },
        Stmt::If { condition, then_body, else_body } => {
            &&& s2 matches Stmt::If {
                condition: condition2,
                then_body: then_body2,
                else_body: else_body2,
            }
            &&& {
                ||| {
                    &&& expr_variant(condition, condition2)
                    &&& stmts_variant(then_body@, then_body2@, unused)
                    &&& match (else_body, else_body2) {
                        (Some(body), Some(body2)) => stmts_variant(body@, body2@, unused),
                        (None, None) => true,
                        _ => false,
                    }
                }
                ||| match (condition, else_body, else_body2) {
                    (Expr::Unary { op, operand }, Some(body), Some(body2)) => {
                        &&& op == UnaryOp::Not
                        &&& expr_variant(*operand, condition2)
                        &&& stmts_variant(then_body@, body2@, unused)
                        &&& stmts_variant(body@, then_body2@, unused)
                    },
                    _ => false,
                }
            }
        },
        Stmt::While { condition, body } => {
            &&& s2 matches Stmt::While { condition: condition2, body: body2 }
            &&& expr_variant(condition, condition2)
            &&& stmts_variant(body@, body2@, unused)
        },
        Stmt::Return { value } => s2 matches Stmt::Return { value: value2 } && expr_variant(
            value,
            value2,
        ),
        Stmt::Print { value } => s2 matches Stmt::Print { value: value2 } && expr_variant(
            value,
            value2,
        ),
        Stmt::ExprStmt { expr } => s2 matches Stmt::ExprStmt { expr: expr2 } && expr_variant(
            expr,
            expr2,
        ),
    }
}

/// Whether statements are variants of others, in turn, among statements that do nothing.
pub open spec fn stmts_variant(s1: Seq<Stmt>, s2: Seq<Stmt>, unused: Seq<char>) -> bool
    decreases s1,
{
    if s1.len() == 0 {
        s2.len() == 0
    } else {
        let rest = s1.subrange(1, s1.len() as int);
        ||| does_nothing(s1[0], unused) && stmts_variant(rest, s2, unused)
        ||| s2.len() > 0 && stmt_variant(s1[0], s2[0], unused) && stmts_variant(
            rest,
            s2.subrange(1, s2.len() as int),
            unused,
        )
    }
}

/// The names of parameters.
pub open spec fn param_names(params: Seq<Param>) -> Seq<Seq<char>> {
    params.map_values(|param: Param| param.name@)
}

/// Whether `f1` is a variant of the function `f2`.
pub open spec fn function_variant(f1: Function, f2: Function, unused: Seq<char>) -> bool {
    &&& f1.name@ == f2.name@
    &&& param_names(f1.params@) == param_names(f2.params@)
    &&& stmts_variant(f1.body@, f2.body@, unused)
}

/// Whether functions are, one by one, variants of others.
pub open spec fn functions_variant(
    f1: Seq<Function>,
    f2: Seq<Function>,
    unused: Seq<char>,
) -> bool {
    &&& f1.len() == f2.len()
    &&& forall|i: int| 0 <= i < f1.len() ==> function_variant(#[trigger] f1[i], f2[i], unused)
}

/// Whether `g1` is a variant of the global `g2`.
pub open spec fn global_variant(g1: GlobalVar, g2: GlobalVar) -> bool {
    &&& g1.name@ == g2.name@
    &&& g1.array_size == g2.array_size
    &&& optional_variant(g1.init_expr, g2.init_expr)
}

/// Whether globals are, one by one, variants of others.
pub open spec fn globals_variant(g1: Seq<GlobalVar>, g2: Seq<GlobalVar>) -> bool {
    &&& g1.len() == g2.len()
    &&& forall|i: int| 0 <= i < g1.len() ==> global_variant(#[trigger] g1[i], g2[i])
}

/// Whether `p1` is a variant of the program `p2`.
pub open spec fn program_variant(p1: Program, p2: Program, unused: Seq<char>) -> bool {
    &&& globals_variant(p1.globals@, p2.globals@)
    &&& functions_variant(p1.functions@, p2.functions@, unused)
}

/// Whether the variables of the active calls are the same but for one name.
pub open spec fn same_frames(
    frames1: Seq<ScopeView>,
    frames2: Seq<ScopeView>,
    variable: Seq<char>,
) -> bool {
    &&& frames1.len() == frames2.len()
    &&& forall|i: int|
        0 <= i < frames1.len() ==> (#[trigger] frames1[i]).remove(variable) == frames2[i].remove(
            variable,
        )
}

/// Whether a variant in `m1` is where the program is in `m2`: they are the same but for a variable
/// and the steps counted, of which the variant has at least as many.
pub open spec fn agree_but_for(m1: Machine, m2: Machine, unused: Seq<char>) -> bool {
    &&& m1.globals == m2.globals
    &&& !m2.globals.contains_key(unused)
    &&& m1.output == m2.output
    &&& m1.cycles >= m2.cycles
    &&& same_frames(m1.frames, m2.frames, unused)
    &&& bounds::holds_words(m2)
}

/// Whether two settings are those of a variant and of the program, with a variable that the
/// program does not mention.
pub open spec fn varies(s1: Setting, s2: Setting, unused: Seq<char>) -> bool {
    &&& s1.limits == s2.limits
    &&& program_variant(s1.program, s2.program, unused)
    &&& !program_mentions(s2.program, unused)
}

/// Whether two steps have the same result, in machines that are the same but for a variable.
pub open spec fn same_end<T>(
    s: Setting,
    end1: (Machine, Result<T, TrapView>),
    end2: (Machine, Result<T, TrapView>),
    unused: Seq<char>,
) -> bool {
    &&& end1.1 == end2.1
    &&& agree_but_for(end1.0, end2.0, unused)
    &&& end1.1 is Ok ==> end1.0.cycles <= s.limits.max_cycles
}

/// Scopes that are the same but for one name have all other names in common.
proof fn lemma_other_names(
    scope1: ScopeView,
    scope2: ScopeView,
    unused: Seq<char>,
    name: Seq<char>,
)
    requires
        scope1.remove(unused) == scope2.remove(unused),
        name != unused,
    ensures
        scope1.contains_key(name) == scope2.contains_key(name),
        scope1.contains_key(name) ==> scope1[name] == scope2[name],
        forall|slot: SlotView|
            (#[trigger] scope1.insert(name, slot)).remove(unused) == scope2.insert(
                name,
                slot,
            ).remove(unused),
{
    assert(scope1.contains_key(name) == scope1.remove(unused).contains_key(name));
    assert(scope2.contains_key(name) == scope2.remove(unused).contains_key(name));
    if scope1.contains_key(name) {
        assert(scope1[name] == scope1.remove(unused)[name]);
        assert(scope2[name] == scope2.remove(unused)[name]);
    }
    assert forall|slot: SlotView|
        (#[trigger] scope1.insert(name, slot)).remove(unused) == scope2.insert(
            name,
            slot,
        ).remove(unused) by {
        assert(scope1.insert(name, slot).remove(unused) =~= scope1.remove(unused).insert(
            name,
            slot,
        ));
        assert(scope2.insert(name, slot).remove(unused) =~= scope2.remove(unused).insert(
            name,
            slot,
        ));
    }
}

/// Every other name is found in the same call.
proof fn lemma_same_frame_with(
    frames1: Seq<ScopeView>,
    frames2: Seq<ScopeView>,
    unused: Seq<char>,
    name: Seq<char>,
)
    requires
        same_frames(frames1, frames2, unused),
        name != unused,
    ensures
        semantics::frame_with(frames1, name) == semantics::frame_with(frames2, name),
        semantics::frame_with(frames1, name) matches Some(i) ==> 0 <= i < frames1.len()
            && frames1[i].contains_key(name) && frames1[i][name] == frames2[i][name],
    decreases frames1.len(),
{
    if frames1.len() > 0 {
        let last = frames1.len() - 1;
        assert(frames1[last].remove(unused) == frames2[last].remove(unused));
        lemma_other_names(frames1[last], frames2[last], unused, name);
        assert forall|i: int| 0 <= i < last implies (#[trigger] frames1.drop_last()[i]).remove(
            unused,
        ) == frames2.drop_last()[i].remove(unused) by {
            assert(frames1[i].remove(unused) == frames2[i].remove(unused));
        }
        lemma_same_frame_with(frames1.drop_last(), frames2.drop_last(), unused, name);
    }
}

/// Every other name stands for the same, and changing it or declaring it does the same.
proof fn lemma_same_lookup(m1: Machine, m2: Machine, unused: Seq<char>, name: Seq<char>)
    requires
        m1.globals == m2.globals,
        same_frames(m1.frames, m2.frames, unused),
        name != unused,
    ensures
        m1.lookup(name) == m2.lookup(name),
        forall|slot: SlotView|
            #![trigger m1.updated(name, slot)]
            {
                &&& m1.updated(name, slot).globals == m2.updated(name, slot).globals
                &&& same_frames(
                    m1.updated(name, slot).frames,
                    m2.updated(name, slot).frames,
                    unused,
                )
            },
        forall|slot: SlotView|
            #![trigger m1.declared(name, slot)]
            {
                &&& m1.declared(name, slot).1 == m2.declared(name, slot).1
                &&& same_frames(
                    m1.declared(name, slot).0.frames,
                    m2.declared(name, slot).0.frames,
                    unused,
                )
            },
{
    lemma_same_frame_with(m1.frames, m2.frames, unused, name);
    assert forall|slot: SlotView|
        #![trigger m1.updated(name, slot)]
        {
            &&& m1.updated(name, slot).globals == m2.updated(name, slot).globals
            &&& same_frames(m1.updated(name, slot).frames, m2.updated(name, slot).frames, unused)
        } by {
        if let Some(at) = semantics::frame_with(m1.frames, name) {
            let after1 = m1.updated(name, slot).frames;
            let after2 = m2.updated(name, slot).frames;
            assert forall|i: int| 0 <= i < after1.len() implies (#[trigger] after1[i]).remove(
                unused,
            ) == after2[i].remove(unused) by {
                assert(m1.frames[i].remove(unused) == m2.frames[i].remove(unused));
                lemma_other_names(m1.frames[i], m2.frames[i], unused, name);
            }
        }
    }
    assert forall|slot: SlotView|
        #![trigger m1.declared(name, slot)]
        {
            &&& m1.declared(name, slot).1 == m2.declared(name, slot).1
            &&& same_frames(
                m1.declared(name, slot).0.frames,
                m2.declared(name, slot).0.frames,
                unused,
            )
        } by {
        if m1.frames.len() > 0 {
            let last = m1.frames.len() - 1;
            let after1 = m1.declared(name, slot).0.frames;
            let after2 = m2.declared(name, slot).0.frames;
            assert forall|i: int| 0 <= i < after1.len() implies (#[trigger] after1[i]).remove(
                unused,
            ) == after2[i].remove(unused) by {
                assert(m1.frames[i].remove(unused) == m2.frames[i].remove(unused));
                if i == last {
                    lemma_other_names(m1.frames[i], m2.frames[i], unused, name);
                }
            }
        }
    }
}

/// Without the innermost calls, the variables are still the same but for one name.
proof fn lemma_same_outer_frames(
    frames1: Seq<ScopeView>,
    frames2: Seq<ScopeView>,
    unused: Seq<char>,
)
    requires
        same_frames(frames1, frames2, unused),
    ensures
        same_frames(frames1.drop_last(), frames2.drop_last(), unused),
{
    if frames1.len() == 0 {
        assert(frames1 =~= frames2);
    } else {
        assert forall|i: int| 0 <= i < frames1.len() - 1 implies (
        #[trigger] frames1.drop_last()[i]).remove(unused) == frames2.drop_last()[i].remove(
            unused,
        ) by {
            assert(frames1[i].remove(unused) == frames2[i].remove(unused));
        }
    }
}

/// Functions of the same name are variants of each other.
proof fn lemma_function_named(
    f1: Seq<Function>,
    f2: Seq<Function>,
    unused: Seq<char>,
    name: Seq<char>,
)
    requires
        functions_variant(f1, f2, unused),
        !functions_mention(f2, unused),
    ensures
        match (semantics::function_named(f1, name), semantics::function_named(f2, name)) {
            (Some(g1), Some(g2)) => function_variant(g1, g2, unused) && !stmts_mention(
                g2.body@,
                unused,
            ),
            (None, None) => true,
            _ => false,
        },
    decreases f1.len(),
{
    if f1.len() > 0 {
        let last = f1.len() - 1;
        assert(function_variant(f1[last], f2[last], unused));
        assert(!stmts_mention(f2[last].body@, unused));
        if f1[last].name@ != name {
            assert forall|i: int| 0 <= i < last implies function_variant(
                #[trigger] f1.drop_last()[i],
                f2.drop_last()[i],
                unused,
            ) by {
                assert(function_variant(f1[i], f2[i], unused));
            }
            assert(!functions_mention(f2.drop_last(), unused)) by {
                assert forall|i: int| 0 <= i < last implies !stmts_mention(
                    (#[trigger] f2.drop_last()[i]).body@,
                    unused,
                ) by {
                    assert(!stmts_mention(f2[i].body@, unused));
                }
            }
            lemma_function_named(f1.drop_last(), f2.drop_last(), unused, name);
        }
    }
}

/// The variables with which a call starts depend on the names of the parameters.
proof fn lemma_bound_params(p1: Seq<Param>, p2: Seq<Param>, args: Seq<i64>)
    requires
        param_names(p1) == param_names(p2),
    ensures
        p1.len() == p2.len(),
        semantics::bound_params(p1, args) == semantics::bound_params(p2, args),
    decreases p1.len(),
{
    assert(param_names(p1).len() == p1.len() && param_names(p2).len() == p2.len());
    if p1.len() > 0 {
        assert(param_names(p1).last() == p1.last().name@);
        assert(param_names(p2).last() == p2.last().name@);
        assert(param_names(p1.drop_last()) =~= param_names(p1).drop_last());
        assert(param_names(p2.drop_last()) =~= param_names(p2).drop_last());
        lemma_bound_params(p1.drop_last(), p2.drop_last(), args.drop_last());
    }
}

/// Evaluating an expression.
#[verifier::spinoff_prover]
proof fn lemma_evaluate(
    s1: Setting,
    s2: Setting,
    room: nat,
    m1: Machine,
    m2: Machine,
    e1: Expr,
    e2: Expr,
    unused: Seq<char>,
)
    requires
        varies(s1, s2, unused),
        agree_but_for(m1, m2, unused),
        m1.cycles <= s1.limits.max_cycles,
        expr_variant(e1, e2),
        !expr_mentions(e2, unused),
        !budget::hit_limit(semantics::evaluate(s1, room, m1, e1).1),
    ensures
        same_end(
            s1,
            semantics::evaluate(s1, room, m1, e1),
            semantics::evaluate(s2, room, m2, e2),
            unused,
        ),
    decreases room, 1int, e1, 1int,
{
    bounds::lemma_evaluate(s1, room, m1, e1);
    bounds::lemma_evaluate(s2, room, m2, e2);
    let a1 = m1.stepped();
    let a2 = m2.stepped();
    match e1 {
        Expr::IntLiteral { value } => {},
        Expr::BoolLiteral { value } => {},
        Expr::Identifier { name } => {
            lemma_same_lookup(a1, a2, unused, name@);
        },
        Expr::Binary { .. } => {
            lemma_evaluate_binary(s1, s2, room, m1, m2, e1, e2, unused);
        },
        Expr::Unary { op, operand } => {
            if let Expr::Unary { op: op2, operand: operand2 } = e2 {
                lemma_evaluate(s1, s2, room, a1, a2, *operand, *operand2, unused);
            }
        },
        Expr::Call { name, args } => {
            if let Expr::Call { name: name2, args: args2 } = e2 {
                let (b1, values) = semantics::evaluate_args(s1, room, a1, args@, Seq::empty());
                let (b2, values2) = semantics::evaluate_args(s2, room, a2, args2@, Seq::empty());
                lemma_evaluate_args(s1, s2, room, a1, a2, args@, args2@, Seq::empty(), unused);
                if let Ok(values) = values {
                    lemma_invoke(s1, s2, room, b1, b2, name@, values, unused);
                }
            }
        },
        Expr::ArrayIndex { array_name, index } => {
            if let Expr::ArrayIndex { array_name: array_name2, index: index2 } = e2 {
                let (b1, i) = semantics::evaluate(s1, room, a1, *index);
                let (b2, i2) = semantics::evaluate(s2, room, a2, *index2);
                lemma_evaluate(s1, s2, room, a1, a2, *index, *index2, unused);
                lemma_same_lookup(b1, b2, unused, array_name@);
            }
        },
    }
}

/// Evaluating a binary expression.
#[verifier::spinoff_prover]
proof fn lemma_evaluate_binary(
    s1: Setting,
    s2: Setting,
    room: nat,
    m1: Machine,
    m2: Machine,
    e1: Expr,
    e2: Expr,
    unused: Seq<char>,
)
    requires
        varies(s1, s2, unused),
        agree_but_for(m1, m2, unused),
        m1.cycles <= s1.limits.max_cycles,
        e1 is Binary,
        expr_variant(e1, e2),
        !expr_mentions(e2, unused),
        !budget::hit_limit(semantics::evaluate(s1, room, m1, e1).1),
    ensures
        same_end(
            s1,
            semantics::evaluate(s1, room, m1, e1),
            semantics::evaluate(s2, room, m2, e2),
            unused,
        ),
    decreases room, 1int, e1, 0int,
{
    let a1 = m1.stepped();
    let a2 = m2.stepped();
    if let Expr::Binary { op, left, right } = e1 {
        if is_neutral(op, *right) && expr_variant(*left, e2) {
            bounds::lemma_evaluate(s1, room, a1, *left);
            bounds::lemma_evaluate(s2, room, m2, e2);
            lemma_evaluate(s1, s2, room, a1, m2, *left, e2, unused);
            lemma_neutral(s1, room, m1, op, *left, *right);
        } else if let Expr::Binary { op: op2, left: left2, right: right2 } = e2 {
            bounds::lemma_evaluate(s1, room, m1, e1);
            bounds::lemma_evaluate(s2, room, m2, e2);
            let (b1, l) = semantics::evaluate(s1, room, a1, *left);
            let (b2, l2) = semantics::evaluate(s2, room, a2, *left2);
            lemma_evaluate(s1, s2, room, a1, a2, *left, *left2, unused);
            if let Ok(l) = l {
                if !(op == BinaryOp::And && l == 0) && !(op == BinaryOp::Or && l != 0) {
                    lemma_evaluate(s1, s2, room, b1, b2, *right, *right2, unused);
                }
            }
        }
    }
}

/// Neutral arithmetic gives what its left operand gives where that is a word, one step later.
proof fn lemma_neutral(s: Setting, room: nat, m: Machine, op: BinaryOp, left: Expr, right: Expr)
    requires
        is_neutral(op, right),
        !budget::hit_limit(
            semantics::evaluate(
                s,
                room,
                m,
                Expr::Binary { op, left: Box::new(left), right: Box::new(right) },
            ).1,
        ),
        semantics::evaluate(s, room, m.stepped(), left).1 matches Ok(value)
            ==> arithmetic::is_word(value),
    ensures
        ({
            let (after, r) = semantics::evaluate(s, room, m.stepped(), left);
            let whole = Expr::Binary { op, left: Box::new(left), right: Box::new(right) };
            semantics::evaluate(s, room, m, whole) == match r {
                Ok(value) => (after.stepped(), Ok::<i64, TrapView>(value)),
                Err(trap) => (after, Err(trap)),
            } && (r is Ok ==> after.cycles < s.limits.max_cycles)
        }),
{
    let (after, r) = semantics::evaluate(s, room, m.stepped(), left);
    if r is Ok {
        assert(!(op == BinaryOp::And) && !(op == BinaryOp::Or));
        assert(semantics::evaluate(s, room, after, right).0 == after.stepped());
    }
}

/// Evaluating arguments.
proof fn lemma_evaluate_args(
    s1: Setting,
    s2: Setting,
    room: nat,
    m1: Machine,
    m2: Machine,
    args1: Seq<Expr>,
    args2: Seq<Expr>,
    done: Seq<i64>,
    unused: Seq<char>,
)
    requires
        varies(s1, s2, unused),
        agree_but_for(m1, m2, unused),
        m1.cycles <= s1.limits.max_cycles,
        exprs_variant(args1, args2),
        !exprs_mention(args2, unused),
        !budget::hit_limit(semantics::evaluate_args(s1, room, m1, args1, done).1),
    ensures
        same_end(
            s1,
            semantics::evaluate_args(s1, room, m1, args1, done),
            semantics::evaluate_args(s2, room, m2, args2, done),
            unused,
        ),
    decreases room, 1int, args1, 0int,
{
    if args1.len() > 0 {
        let (b1, v) = semantics::evaluate(s1, room, m1, args1[0]);
        let (b2, v2) = semantics::evaluate(s2, room, m2, args2[0]);
        lemma_evaluate(s1, s2, room, m1, m2, args1[0], args2[0], unused);
        if let Ok(v) = v {
            lemma_evaluate_args(
                s1,
                s2,
                room,
                b1,
                b2,
                args1.subrange(1, args1.len() as int),
                args2.subrange(1, args2.len() as int),
                done.push(v),
                unused,
            );
        }
    }
}

/// Calling a function.
proof fn lemma_invoke(
    s1: Setting,
    s2: Setting,
    room: nat,
    m1: Machine,
    m2: Machine,
    name: Seq<char>,
    args: Seq<i64>,
    unused: Seq<char>,
)
    requires
        varies(s1, s2, unused),
        agree_but_for(m1, m2, unused),
        m1.cycles <= s1.limits.max_cycles,
        !budget::hit_limit(semantics::invoke(s1, room, m1, name, args).1),
    ensures
        same_end(
            s1,
            semantics::invoke(s1, room, m1, name, args),
            semantics::invoke(s2, room, m2, name, args),
            unused,
        ),
    decreases room, 0int, s1.program, 0int,
{
    bounds::lemma_invoke(s1, room, m1, name, args);
    bounds::lemma_invoke(s2, room, m2, name, args);
    let a1 = m1.stepped();
    let a2 = m2.stepped();
    lemma_function_named(s1.program.functions@, s2.program.functions@, unused, name);
    if let Some(f1) = semantics::function_named(s1.program.functions@, name) {
        if let Some(f2) = semantics::function_named(s2.program.functions@, name) {
            lemma_bound_params(f1.params@, f2.params@, args);
            if args.len() == f1.params@.len() {
                let inner = (room - 1) as nat;
                let frame = semantics::bound_params(f1.params@, args);
                let entered1 = Machine { frames: a1.frames.push(frame), ..a1 };
                let entered2 = Machine { frames: a2.frames.push(frame), ..a2 };
                lemma_entered(a1, a2, frame, unused);
                bounds::lemma_bound_params(f2.params@, args);
                let (b1, end1) = semantics::execute_block(s1, inner, entered1, f1.body@);
                let (b2, end2) = semantics::execute_block(s2, inner, entered2, f2.body@);
                lemma_execute_block(
                    s1,
                    s2,
                    inner,
                    entered1,
                    entered2,
                    f1.body@,
                    f2.body@,
                    unused,
                );
                lemma_same_outer_frames(b1.frames, b2.frames, unused);
            }
        }
    }
}

/// Opening the same call keeps what is the same.
proof fn lemma_entered(m1: Machine, m2: Machine, frame: ScopeView, unused: Seq<char>)
    requires
        same_frames(m1.frames, m2.frames, unused),
    ensures
        same_frames(m1.frames.push(frame), m2.frames.push(frame), unused),
{
    let frames1 = m1.frames.push(frame);
    let frames2 = m2.frames.push(frame);
    assert forall|i: int| 0 <= i < frames1.len() implies (#[trigger] frames1[i]).remove(unused)
        == frames2[i].remove(unused) by {
        if i < m1.frames.len() {
            assert(m1.frames[i].remove(unused) == m2.frames[i].remove(unused));
        }
    }
}

/// A statement that does nothing leaves the machine the same but for the local.
proof fn lemma_does_nothing(
    s1: Setting,
    room: nat,
    m1: Machine,
    m2: Machine,
    stmt: Stmt,
    unused: Seq<char>,
)
    requires
        agree_but_for(m1, m2, unused),
        m1.cycles <= s1.limits.max_cycles,
        m1.frames.len() > 0,
        does_nothing(stmt, unused),
        !budget::hit_limit(semantics::execute(s1, room, m1, stmt).1),
    ensures
        semantics::execute(s1, room, m1, stmt).1 == Ok::<Control, TrapView>(Control::Continue),
        agree_but_for(semantics::execute(s1, room, m1, stmt).0, m2, unused),
        semantics::execute(s1, room, m1, stmt).0.frames.len() == m1.frames.len(),
        semantics::execute(s1, room, m1, stmt).0.cycles <= s1.limits.max_cycles,
{
    bounds::lemma_execute(s1, room, m1, stmt);
    if let Stmt::VarDecl { name, init_expr: Some(init), array_size: None } = stmt {
        let (b1, v) = semantics::evaluate(s1, room, m1.stepped(), init);
        let (c1, end) = semantics::execute(s1, room, m1, stmt);
        if let Ok(v) = v {
            let slot = SlotView::Scalar(Some(v));
            crate::words::lemma_frame_with(b1.frames, name@);
            assert(end is Ok);
            assert forall|i: int| 0 <= i < c1.frames.len() implies (#[trigger] c1.frames[i]).remove(
                unused,
            ) == m2.frames[i].remove(unused) by {
                assert(m1.frames[i].remove(unused) == m2.frames[i].remove(unused));
                assert(m1.frames[i].insert(name@, slot).remove(unused) =~= m1.frames[i].remove(
                    unused,
                ));
            }
        }
    }
}

/// Executing statements.
proof fn lemma_execute_block(
    s1: Setting,
    s2: Setting,
    room: nat,
    m1: Machine,
    m2: Machine,
    stmts1: Seq<Stmt>,
    stmts2: Seq<Stmt>,
    unused: Seq<char>,
)
    requires
        varies(s1, s2, unused),
        agree_but_for(m1, m2, unused),
        m1.cycles <= s1.limits.max_cycles,
        m1.frames.len() > 0,
        stmts_variant(stmts1, stmts2, unused),
        !stmts_mention(stmts2, unused),
        !budget::hit_limit(semantics::execute_block(s1, room, m1, stmts1).1),
    ensures
        same_end(
            s1,
            semantics::execute_block(s1, room, m1, stmts1),
            semantics::execute_block(s2, room, m2, stmts2),
            unused,
        ),
    decreases room, 2int, stmts1, 0int,
{
    if stmts1.len() > 0 {
        let rest1 = stmts1.subrange(1, stmts1.len() as int);
        let (b1, end) = semantics::execute(s1, room, m1, stmts1[0]);
        bounds::lemma_execute(s1, room, m1, stmts1[0]);
        if does_nothing(stmts1[0], unused) && stmts_variant(rest1, stmts2, unused) {
            lemma_does_nothing(s1, room, m1, m2, stmts1[0], unused);
            lemma_execute_block(s1, s2, room, b1, m2, rest1, stmts2, unused);
        } else {
            let rest2 = stmts2.subrange(1, stmts2.len() as int);
            let (b2, end2) = semantics::execute(s2, room, m2, stmts2[0]);
            lemma_execute(s1, s2, room, m1, m2, stmts1[0], stmts2[0], unused);
            if let Ok(Control::Continue) = end {
                lemma_execute_block(s1, s2, room, b1, b2, rest1, rest2, unused);
            }
        }
    }
}

/// Executing a statement.
proof fn lemma_execute(
    s1: Setting,
    s2: Setting,
    room: nat,
    m1: Machine,
    m2: Machine,
    stmt1: Stmt,
    stmt2: Stmt,
    unused: Seq<char>,
)
    requires
        varies(s1, s2, unused),
        agree_but_for(m1, m2, unused),
        m1.cycles <= s1.limits.max_cycles,
        m1.frames.len() > 0,
        stmt_variant(stmt1, stmt2, unused),
        !stmt_mentions(stmt2, unused),
        !budget::hit_limit(semantics::execute(s1, room, m1, stmt1).1),
    ensures
        same_end(
            s1,
            semantics::execute(s1, room, m1, stmt1),
            semantics::execute(s2, room, m2, stmt2),
            unused,
        ),
    decreases room, 2int, stmt1, semantics::loop_bound(s1.limits) + 1,
{
    bounds::lemma_execute(s1, room, m1, stmt1);
    bounds::lemma_execute(s2, room, m2, stmt2);
    let a1 = m1.stepped();
    let a2 = m2.stepped();
    match (stmt1, stmt2) {
        (
            Stmt::VarDecl { name, init_expr, array_size },
            Stmt::VarDecl { name: name2, init_expr: init_expr2, array_size: array_size2 },
        ) => {
            match (array_size, init_expr) {
                (None, Some(init)) => {
                    let init2 = init_expr2->0;
                    let (b1, v) = semantics::evaluate(s1, room, a1, init);
                    let (b2, v2) = semantics::evaluate(s2, room, a2, init2);
                    lemma_evaluate(s1, s2, room, a1, a2, init, init2, unused);
                    lemma_same_lookup(b1, b2, unused, name@);
                },
                _ => {
                    lemma_same_lookup(a1, a2, unused, name@);
                },
            }
        },
        (
            Stmt::Assign { target, index_expr, value },
            Stmt::Assign { target: target2, index_expr: index_expr2, value: value2 },
        ) => {
            let (b1, v) = semantics::evaluate(s1, room, a1, value);
            let (b2, v2) = semantics::evaluate(s2, room, a2, value2);
            lemma_evaluate(s1, s2, room, a1, a2, value, value2, unused);
            if let Ok(v) = v {
                match (index_expr, index_expr2) {
                    (Some(index), Some(index2)) => {
                        let (c1, i) = semantics::evaluate(s1, room, b1, index);
                        let (c2, i2) = semantics::evaluate(s2, room, b2, index2);
                        lemma_evaluate(s1, s2, room, b1, b2, index, index2, unused);
                        lemma_same_lookup(c1, c2, unused, target@);
                    },
                    _ => {
                        lemma_same_lookup(b1, b2, unused, target@);
                    },
                }
            }
        },
        (Stmt::If { .. }, Stmt::If { .. }) => {
            lemma_execute_if(s1, s2, room, m1, m2, stmt1, stmt2, unused);
        },
        (
            Stmt::While { condition, body },
            Stmt::While { condition: condition2, body: body2 },
        ) => {
            lemma_execute_loop(
                s1,
                s2,
                room,
                a1,
                a2,
                semantics::loop_bound(s1.limits),
                stmt1,
                stmt2,
                unused,
            );
        },
        (Stmt::Return { value }, Stmt::Return { value: value2 }) => {
            lemma_evaluate(s1, s2, room, a1, a2, value, value2, unused);
        },
        (Stmt::Print { value }, Stmt::Print { value: value2 }) => {
            lemma_evaluate(s1, s2, room, a1, a2, value, value2, unused);
        },
        (Stmt::ExprStmt { expr }, Stmt::ExprStmt { expr: expr2 }) => {
            lemma_evaluate(s1, s2, room, a1, a2, expr, expr2, unused);
        },
        _ => {},
    }
}

/// Executing a branch.
proof fn lemma_execute_if(
    s1: Setting,
    s2: Setting,
    room: nat,
    m1: Machine,
    m2: Machine,
    stmt1: Stmt,
    stmt2: Stmt,
    unused: Seq<char>,
)
    requires
        varies(s1, s2, unused),
        agree_but_for(m1, m2, unused),
        m1.cycles <= s1.limits.max_cycles,
        m1.frames.len() > 0,
        stmt1 is If,
        stmt_variant(stmt1, stmt2, unused),
        !stmt_mentions(stmt2, unused),
        !budget::hit_limit(semantics::execute(s1, room, m1, stmt1).1),
    ensures
        same_end(
            s1,
            semantics::execute(s1, room, m1, stmt1),
            semantics::execute(s2, room, m2, stmt2),
            unused,
        ),
    decreases room, 2int, stmt1, semantics::loop_bound(s1.limits),
{
    let a1 = m1.stepped();
    let a2 = m2.stepped();
    if let Stmt::If { condition, then_body, else_body } = stmt1 {
        if let Stmt::If {
            condition: condition2,
            then_body: then_body2,
            else_body: else_body2,
        } = stmt2 {
            let (b2, v2) = semantics::evaluate(s2, room, a2, condition2);
            let same_way = expr_variant(condition, condition2) && stmts_variant(
                then_body@,
                then_body2@,
                unused,
            ) && match (else_body, else_body2) {
                (Some(body), Some(body2)) => stmts_variant(body@, body2@, unused),
                (None, None) => true,
                _ => false,
            };
            let (b1, v1) = semantics::evaluate(s1, room, a1, condition);
            bounds::lemma_evaluate(s1, room, a1, condition);
            if same_way {
                lemma_evaluate(s1, s2, room, a1, a2, condition, condition2, unused);
                if let Ok(v) = v1 {
                    if v != 0 {
                        lemma_execute_block(
                            s1,
                            s2,
                            room,
                            b1,
                            b2,
                            then_body@,
                            then_body2@,
                            unused,
                        );
                    } else if let (Some(body), Some(body2)) = (else_body, else_body2) {
                        lemma_execute_block(s1, s2, room, b1, b2, body@, body2@, unused);
                    }
                }
            } else if let (Expr::Unary { op, operand }, Some(body), Some(body2)) = (
                condition,
                else_body,
                else_body2,
            ) {
                let inner = semantics::evaluate(s1, room, a1.stepped(), *operand);
                lemma_evaluate(s1, s2, room, a1.stepped(), a2, *operand, condition2, unused);
                if let Ok(v) = v2 {
                    if v != 0 {
                        lemma_execute_block(
                            s1,
                            s2,
                            room,
                            b1,
                            b2,
                            body@,
                            then_body2@,
                            unused,
                        );
                    } else {
                        lemma_execute_block(
                            s1,
                            s2,
                            room,
                            b1,
                            b2,
                            then_body@,
                            body2@,
                            unused,
                        );
                    }
                }
            }
        }
    }
}

/// Executing a loop.
proof fn lemma_execute_loop(
    s1: Setting,
    s2: Setting,
    room: nat,
    m1: Machine,
    m2: Machine,
    bound: nat,
    stmt1: Stmt,
    stmt2: Stmt,
    unused: Seq<char>,
)
    requires
        varies(s1, s2, unused),
        agree_but_for(m1, m2, unused),
        m1.cycles <= s1.limits.max_cycles,
        m1.frames.len() > 0,
        stmt_variant(stmt1, stmt2, unused),
        !stmt_mentions(stmt2, unused),
        !budget::hit_limit(semantics::execute_loop(s1, room, m1, stmt1, bound).1),
    ensures
        same_end(
            s1,
            semantics::execute_loop(s1, room, m1, stmt1, bound),
            semantics::execute_loop(s2, room, m2, stmt2, bound),
            unused,
        ),
    decreases room, 2int, stmt1, bound,
{
    if let Stmt::While { condition, body } = stmt1 {
        if let Stmt::While { condition: condition2, body: body2 } = stmt2 {
            let (b1, v) = semantics::evaluate(s1, room, m1, condition);
            let (b2, v2) = semantics::evaluate(s2, room, m2, condition2);
            bounds::lemma_evaluate(s1, room, m1, condition);
            lemma_evaluate(s1, s2, room, m1, m2, condition, condition2, unused);
            if let Ok(v) = v {
                if v != 0 {
                    let (c1, end) = semantics::execute_block(s1, room, b1, body@);
                    let (c2, end2) = semantics::execute_block(s2, room, b2, body2@);
                    bounds::lemma_execute_block(s1, room, b1, body@);
                    lemma_execute_block(s1, s2, room, b1, b2, body@, body2@, unused);
                    if let Ok(Control::Continue) = end {
                        lemma_execute_loop(
                            s1,
                            s2,
                            room,
                            c1,
                            c2,
                            (bound - 1) as nat,
                            stmt1,
                            stmt2,
                            unused,
                        );
                    }
                }
            }
        }
    }
}

/// Variants of globals declare the same.
proof fn lemma_declared_globals(g1: Seq<GlobalVar>, g2: Seq<GlobalVar>, unused: Seq<char>)
    requires
        globals_variant(g1, g2),
        !globals_mention(g2, unused),
    ensures
        semantics::declared_globals(g1) == semantics::declared_globals(g2),
        !semantics::declared_globals(g2).contains_key(unused),
    decreases g1.len(),
{
    if g1.len() > 0 {
        let last = g1.len() - 1;
        assert(global_variant(g1[last], g2[last]));
        assert(g2[last].name@ != unused);
        assert forall|i: int| 0 <= i < last implies global_variant(
            #[trigger] g1.drop_last()[i],
            g2.drop_last()[i],
        ) by {
            assert(global_variant(g1[i], g2[i]));
        }
        assert(!globals_mention(g2.drop_last(), unused)) by {
            assert forall|i: int| 0 <= i < last implies !((
            #[trigger] g2.drop_last()[i]).name@ == unused || optional_mentions(
                g2.drop_last()[i].init_expr,
                unused,
            )) by {
                assert(!(g2[i].name@ == unused || optional_mentions(g2[i].init_expr, unused)));
            }
        }
        lemma_declared_globals(g1.drop_last(), g2.drop_last(), unused);
    }
}

/// Initialising globals.
proof fn lemma_initialize(
    s1: Setting,
    s2: Setting,
    m1: Machine,
    m2: Machine,
    g1: Seq<GlobalVar>,
    g2: Seq<GlobalVar>,
    unused: Seq<char>,
)
    requires
        varies(s1, s2, unused),
        agree_but_for(m1, m2, unused),
        m1.cycles <= s1.limits.max_cycles,
        globals_variant(g1, g2),
        !globals_mention(g2, unused),
        !budget::hit_limit(semantics::initialize(s1, m1, g1).1),
    ensures
        same_end(
            s1,
            semantics::initialize(s1, m1, g1),
            semantics::initialize(s2, m2, g2),
            unused,
        ),
    decreases g1.len(),
{
    bounds::lemma_initialize(s1, m1, g1);
    bounds::lemma_initialize(s2, m2, g2);
    if g1.len() > 0 {
        let room = s1.limits.max_frames as nat;
        let rest1 = g1.subrange(1, g1.len() as int);
        let rest2 = g2.subrange(1, g2.len() as int);
        assert(global_variant(g1[0], g2[0]));
        assert(!(g2[0].name@ == unused || optional_mentions(g2[0].init_expr, unused)));
        assert forall|i: int| 0 <= i < rest1.len() implies global_variant(
            #[trigger] rest1[i],
            rest2[i],
        ) by {
            assert(global_variant(g1[i + 1], g2[i + 1]));
        }
        assert(!globals_mention(rest2, unused)) by {
            assert forall|i: int| 0 <= i < rest2.len() implies !((#[trigger] rest2[i]).name@
                == unused || optional_mentions(rest2[i].init_expr, unused)) by {
                assert(!(g2[i + 1].name@ == unused || optional_mentions(
                    g2[i + 1].init_expr,
                    unused,
                )));
            }
        }
        match (g1[0].init_expr, g2[0].init_expr) {
            (Some(init), Some(init2)) => {
                let (b1, v) = semantics::evaluate(s1, room, m1, init);
                let (b2, v2) = semantics::evaluate(s2, room, m2, init2);
                lemma_evaluate(s1, s2, room, m1, m2, init, init2, unused);
                bounds::lemma_evaluate(s2, room, m2, init2);
                if let Ok(v) = v {
                    let (c1, stored) = b1.with_global(g1[0].name@, v);
                    let (c2, stored2) = b2.with_global(g2[0].name@, v);
                    bounds::lemma_with_global(s2, room, b2, g2[0].name@, v);
                    if stored is Ok {
                        lemma_initialize(s1, s2, c1, c2, rest1, rest2, unused);
                    }
                }
            },
            _ => {
                lemma_initialize(s1, s2, m1, m2, rest1, rest2, unused);
            },
        }
    }
}

/// Nothing that can be observed tells a variant from the program, unless the variant runs into a
/// limit. The program does not mention the local that the variant may declare.
pub proof fn law_variants_behave_the_same(s1: Setting, s2: Setting, unused: Seq<char>)
    requires
        s1.limits == s2.limits,
        program_variant(s1.program, s2.program, unused),
        !program_mentions(s2.program, unused),
        !budget::hit_limit(semantics::run(s1).1),
    ensures
        oracle::outcome_of(semantics::run(s1)) == oracle::outcome_of(semantics::run(s2)),
{
    let begin1 = semantics::start(s1.program);
    let begin2 = semantics::start(s2.program);
    lemma_declared_globals(s1.program.globals@, s2.program.globals@, unused);
    bounds::lemma_declared_globals(s2.program.globals@);
    lemma_initialize(
        s1,
        s2,
        begin1,
        begin2,
        s1.program.globals@,
        s2.program.globals@,
        unused,
    );
    let (m1, ready) = semantics::initialize(s1, begin1, s1.program.globals@);
    let (m2, ready2) = semantics::initialize(s2, begin2, s2.program.globals@);
    if ready is Ok {
        lemma_invoke(
            s1,
            s2,
            s1.limits.max_frames as nat,
            m1,
            m2,
            "main"@,
            Seq::empty(),
            unused,
        );
    }
}

} // verus!
