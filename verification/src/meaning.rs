//! What each construct of the language does, one construct at a time.
//!
//! The machine after a step is written out in terms of the machine before it, and a result in
//! terms of the values that go into it.

use vstd::prelude::*;

use crate::arithmetic;
use crate::arithmetic::TrapView;
use crate::ast::{BinaryOp, Expr, Function, GlobalVar, Param, Stmt, UnaryOp};
use crate::bounds;
use crate::oracle;
use crate::semantics;
use crate::semantics::{Control, Machine, ScopeView, Setting, SlotView};
use crate::text;
use crate::trap::TrapCode;
use crate::words;

verus! {

/// Wrapping gives the one 32-bit number that differs from its argument by a multiple of two to the
/// thirty-second.
pub proof fn law_wrapping_is_congruent(v: int)
    ensures
        -0x8000_0000 <= arithmetic::wrap32(v) < 0x8000_0000,
        (v - arithmetic::wrap32(v)) % 0x1_0000_0000 == 0,
{
}

/// Sums, differences and products are those of the integers, wrapped.
pub proof fn law_sums_and_products(left: i64, right: i64)
    ensures
        arithmetic::binary_result(BinaryOp::Add, left, right) matches Ok(v) && -0x8000_0000 <= v
            < 0x8000_0000 && (left + right - v) % 0x1_0000_0000 == 0,
        arithmetic::binary_result(BinaryOp::Sub, left, right) matches Ok(v) && -0x8000_0000 <= v
            < 0x8000_0000 && (left - right - v) % 0x1_0000_0000 == 0,
        arithmetic::binary_result(BinaryOp::Mul, left, right) matches Ok(v) && -0x8000_0000 <= v
            < 0x8000_0000 && (left * right - v) % 0x1_0000_0000 == 0,
{
    law_wrapping_is_congruent(left + right);
    law_wrapping_is_congruent(left - right);
    law_wrapping_is_congruent(left * right);
}

/// A quotient is rounded towards zero and wrapped: what it leaves of the dividend is smaller than
/// the divisor and has the sign of the dividend. Dividing by zero is a trap, and nothing else is.
pub proof fn law_quotients(left: i64, right: i64)
    ensures
        right == 0 ==> arithmetic::binary_result(BinaryOp::Div, left, right) == Err::<
            i64,
            TrapView,
        >((TrapCode::DivideByZero, "Division by zero"@)),
        right != 0 ==> exists|q: int, rest: int| #[trigger]
            is_division(left as int, right as int, q, rest) && (
            arithmetic::binary_result(BinaryOp::Div, left, right) matches Ok(v) && -0x8000_0000
                <= v < 0x8000_0000 && (q - v) % 0x1_0000_0000 == 0),
{
    if right != 0 {
        let a: int = left as int;
        let b: int = right as int;
        let n: int = if a < 0 { -a } else { a };
        let d: int = if b < 0 { -b } else { b };
        vstd::arithmetic::div_mod::lemma_fundamental_div_mod(n, d);
        vstd::arithmetic::div_mod::lemma_mod_bound(n, d);
        let q = arithmetic::quotient(a, b);
        let rest = if a < 0 { -(n % d) } else { n % d };
        assert(d * (n / d) == n - n % d);
        assert(a == b * q + rest) by (nonlinear_arith)
            requires
                d * (n / d) == n - n % d,
                n == if a < 0 { -a } else { a },
                d == if b < 0 { -b } else { b },
                rest == if a < 0 { -(n % d) } else { n % d },
                q == if (a < 0) == (b < 0) { n / d } else { -(n / d) },
        ;
        assert(is_division(a, b, q, rest));
        law_wrapping_is_congruent(q);
    }
}

/// Whether `q` and `rest` are quotient and rest of a division that rounds towards zero.
pub open spec fn is_division(a: int, b: int, q: int, rest: int) -> bool {
    &&& a == b * q + rest
    &&& -b < rest < b || b < rest < -b
    &&& a >= 0 ==> rest >= 0
    &&& a <= 0 ==> rest <= 0
}

/// A comparison gives one where it holds and zero where it does not.
pub proof fn law_comparisons(left: i64, right: i64)
    ensures
        arithmetic::binary_result(BinaryOp::Eq, left, right) == Ok::<i64, TrapView>(
            if left == right { 1i64 } else { 0i64 },
        ),
        arithmetic::binary_result(BinaryOp::Ne, left, right) == Ok::<i64, TrapView>(
            if left == right { 0i64 } else { 1i64 },
        ),
        arithmetic::binary_result(BinaryOp::Lt, left, right) == Ok::<i64, TrapView>(
            if left < right { 1i64 } else { 0i64 },
        ),
        arithmetic::binary_result(BinaryOp::Gt, left, right) == Ok::<i64, TrapView>(
            if right < left { 1i64 } else { 0i64 },
        ),
        arithmetic::binary_result(BinaryOp::Le, left, right) == Ok::<i64, TrapView>(
            if right < left { 0i64 } else { 1i64 },
        ),
        arithmetic::binary_result(BinaryOp::Ge, left, right) == Ok::<i64, TrapView>(
            if left < right { 0i64 } else { 1i64 },
        ),
{
}

/// Without a step left, whatever comes next is the trap of the step limit, and nothing is done.
pub proof fn law_steps_run_out(
    s: Setting,
    room: nat,
    m: Machine,
    expr: Expr,
    stmt: Stmt,
    name: Seq<char>,
    args: Seq<i64>,
)
    requires
        m.cycles >= s.limits.max_cycles,
    ensures
        ({
            let spent = Machine { cycles: m.cycles + 1, ..m };
            let trap: TrapView = (
                TrapCode::CycleLimit,
                "Cycle limit exceeded ("@ + text::decimal(s.limits.max_cycles as int) + ")"@,
            );
            &&& semantics::evaluate(s, room, m, expr) == (spent, Err::<i64, TrapView>(trap))
            &&& semantics::execute(s, room, m, stmt) == (spent, Err::<Control, TrapView>(trap))
            &&& semantics::invoke(s, room, m, name, args) == (spent, Err::<i64, TrapView>(trap))
        }),
{
}

/// A literal gives its value, in one step.
pub proof fn law_literals(s: Setting, room: nat, m: Machine, value: i32, flag: bool)
    requires
        m.cycles < s.limits.max_cycles,
    ensures
        ({
            let after = Machine { cycles: m.cycles + 1, ..m };
            &&& semantics::evaluate(s, room, m, Expr::IntLiteral { value }) == (after, Ok::<
                i64,
                TrapView,
            >(value as i64))
            &&& semantics::evaluate(s, room, m, Expr::BoolLiteral { value: flag }) == (after, Ok::<
                i64,
                TrapView,
            >(if flag { 1i64 } else { 0i64 }))
        }),
{
}

/// A name stands for the variable of the innermost call that has one of that name, and changing it
/// changes that variable alone. Where no call has one, it stands for the global.
pub proof fn law_the_innermost_variable_counts(
    m: Machine,
    name: Seq<char>,
    slot: SlotView,
    i: int,
)
    ensures
        0 <= i < m.frames.len() && m.frames[i].contains_key(name) && (forall|j: int|
            i < j < m.frames.len() ==> !(#[trigger] m.frames[j]).contains_key(name)) ==> {
            &&& m.lookup(name) == Some(m.frames[i][name])
            &&& m.updated(name, slot) == (Machine {
                frames: m.frames.update(i, m.frames[i].insert(name, slot)),
                ..m
            })
        },
        (forall|j: int|
            0 <= j < m.frames.len() ==> !(#[trigger] m.frames[j]).contains_key(name)) ==> {
            &&& m.lookup(name) == if m.globals.contains_key(name) {
                Some(m.globals[name])
            } else {
                None
            }
            &&& m.updated(name, slot) == (Machine {
                globals: m.globals.insert(name, slot),
                ..m
            })
        },
{
    words::lemma_frame_with(m.frames, name);
}

/// A name in an expression gives the value of the scalar that it stands for. An unset scalar, an
/// array and a name that stands for nothing are traps.
pub proof fn law_names_give_their_value(s: Setting, room: nat, m: Machine, name: String)
    requires
        m.cycles < s.limits.max_cycles,
    ensures
        semantics::evaluate(s, room, m, Expr::Identifier { name }) == (
            Machine { cycles: m.cycles + 1, ..m },
            match m.lookup(name@) {
                Some(SlotView::Scalar(Some(value))) => Ok::<i64, TrapView>(value),
                Some(SlotView::Scalar(None)) => Err(
                    (TrapCode::UndefinedLocal, "Undefined local "@ + name@),
                ),
                Some(SlotView::Array(_)) => Err(
                    (TrapCode::InvalidInstruction, "Cannot use array "@ + name@ + " without index"@),
                ),
                None => Err((TrapCode::InvalidInstruction, "Undefined variable "@ + name@)),
            },
        ),
{
    let after = Machine { cycles: m.cycles + 1, ..m };
    assert(after.lookup(name@) == m.lookup(name@));
}

/// An indexed name gives the element of the array at the value of the index. An index that the
/// array does not have is a trap, and so is a name that stands for no array.
pub proof fn law_indices_give_the_element(
    s: Setting,
    room: nat,
    m: Machine,
    array_name: String,
    index: Expr,
)
    requires
        m.cycles < s.limits.max_cycles,
    ensures
        ({
            let (after, i) = semantics::evaluate(
                s,
                room,
                Machine { cycles: m.cycles + 1, ..m },
                index,
            );
            semantics::evaluate(
                s,
                room,
                m,
                Expr::ArrayIndex { array_name, index: Box::new(index) },
            ) == (
                after,
                match i {
                    Err(trap) => Err::<i64, TrapView>(trap),
                    Ok(i) => if i < 0 {
                        Err(
                            (
                                TrapCode::ArrayOutOfBounds,
                                "Array index "@ + text::decimal(i as int) + " out of bounds"@,
                            ),
                        )
                    } else {
                        match after.lookup(array_name@) {
                            Some(SlotView::Array(values)) => if i < values.len() {
                                Ok(values[i as int])
                            } else {
                                Err(
                                    (
                                        TrapCode::ArrayOutOfBounds,
                                        "Array index "@ + text::decimal(i as int)
                                            + " out of bounds (size "@ + text::decimal(
                                            values.len() as int,
                                        ) + ")"@,
                                    ),
                                )
                            },
                            Some(SlotView::Scalar(_)) => Err(
                                (
                                    TrapCode::InvalidInstruction,
                                    "Cannot index non-array "@ + array_name@,
                                ),
                            ),
                            None => Err(
                                (
                                    TrapCode::InvalidInstruction,
                                    "Undefined variable "@ + array_name@,
                                ),
                            ),
                        }
                    },
                },
            )
        }),
{
}

/// The operands of an operator are evaluated from left to right, and the first trap among them is
/// the result. The logical operators leave out a right operand that does not matter, and give one
/// or zero.
pub proof fn law_operands_from_left_to_right(
    s: Setting,
    room: nat,
    m: Machine,
    op: BinaryOp,
    left: Expr,
    right: Expr,
)
    requires
        m.cycles < s.limits.max_cycles,
    ensures
        ({
            let (m1, l) = semantics::evaluate(s, room, Machine { cycles: m.cycles + 1, ..m }, left);
            let (m2, r) = semantics::evaluate(s, room, m1, right);
            let whole = semantics::evaluate(
                s,
                room,
                m,
                Expr::Binary { op, left: Box::new(left), right: Box::new(right) },
            );
            &&& l is Err ==> whole == (m1, l)
            &&& l matches Ok(a) ==> op == BinaryOp::And && a == 0 ==> whole == (m1, Ok::<
                i64,
                TrapView,
            >(0))
            &&& l matches Ok(a) ==> op == BinaryOp::Or && a != 0 ==> whole == (m1, Ok::<
                i64,
                TrapView,
            >(1))
            &&& l matches Ok(a) ==> !(op == BinaryOp::And && a == 0) && !(op == BinaryOp::Or && a
                != 0) ==> whole == match r {
                Err(trap) => (m2, Err::<i64, TrapView>(trap)),
                Ok(b) => (
                    m2,
                    if op == BinaryOp::And || op == BinaryOp::Or {
                        Ok(if b != 0 { 1i64 } else { 0i64 })
                    } else {
                        arithmetic::binary_result(op, a, b)
                    },
                ),
            }
        }),
{
}

/// A unary operator negates its operand as a word, or gives one for zero and zero for all else.
pub proof fn law_unary_operators(s: Setting, room: nat, m: Machine, operand: Expr)
    requires
        m.cycles < s.limits.max_cycles,
    ensures
        ({
            let (after, v) = semantics::evaluate(
                s,
                room,
                Machine { cycles: m.cycles + 1, ..m },
                operand,
            );
            let negated = semantics::evaluate(
                s,
                room,
                m,
                Expr::Unary { op: UnaryOp::Neg, operand: Box::new(operand) },
            );
            let not = semantics::evaluate(
                s,
                room,
                m,
                Expr::Unary { op: UnaryOp::Not, operand: Box::new(operand) },
            );
            &&& negated.0 == after && not.0 == after
            &&& v is Err ==> negated.1 == v && not.1 == v
            &&& v matches Ok(a) ==> {
                &&& negated.1 matches Ok(b)
                &&& -0x8000_0000 <= b < 0x8000_0000
                &&& (a + b) % 0x1_0000_0000 == 0
                &&& not.1 == Ok::<i64, TrapView>(if a == 0 { 1i64 } else { 0i64 })
            }
        }),
{
    let (after, v) = semantics::evaluate(s, room, Machine { cycles: m.cycles + 1, ..m }, operand);
    if let Ok(a) = v {
        law_wrapping_is_congruent(-a);
        let b = arithmetic::wrap32(-a);
        assert((a + b) % 0x1_0000_0000 == 0) by {
            vstd::arithmetic::div_mod::lemma_fundamental_div_mod(-a - b, 0x1_0000_0000);
        }
    }
}

/// Whether expressions are evaluated one after the other, each in the machine that the one before
/// it left, to these values.
pub open spec fn in_turn(
    s: Setting,
    room: nat,
    machines: Seq<Machine>,
    args: Seq<Expr>,
    values: Seq<i64>,
) -> bool {
    &&& machines.len() == args.len() + 1
    &&& values.len() == args.len()
    &&& forall|i: int|
        0 <= i < args.len() ==> semantics::evaluate(s, room, #[trigger] machines[i], args[i]) == (
            machines[i + 1],
            Ok::<i64, TrapView>(values[i]),
        )
}

/// Arguments are evaluated from left to right, and the values stand in the order of the arguments.
/// The first argument that traps ends it.
pub proof fn law_arguments_in_order(s: Setting, room: nat, m: Machine, args: Seq<Expr>)
    ensures
        ({
            let (end, r) = semantics::evaluate_args(s, room, m, args, Seq::empty());
            match r {
                Ok(values) => exists|machines: Seq<Machine>| #[trigger]
                    in_turn(s, room, machines, args, values) && machines[0] == m && machines.last()
                        == end,
                Err(trap) => exists|machines: Seq<Machine>, values: Seq<i64>, k: int| #[trigger]
                    in_turn(s, room, machines, args.take(k), values) && 0 <= k < args.len()
                        && machines[0] == m && semantics::evaluate(
                        s,
                        room,
                        machines.last(),
                        args[k],
                    ) == (end, Err::<i64, TrapView>(trap)),
            }
        }),
{
    lemma_arguments(s, room, m, args, Seq::empty());
    let (end, r) = semantics::evaluate_args(s, room, m, args, Seq::empty());
    if let Ok(all) = r {
        let (machines, values) = choose|machines: Seq<Machine>, values: Seq<i64>| #[trigger]
            in_turn(s, room, machines, args, values) && machines[0] == m && machines.last() == end
                && all == Seq::<i64>::empty() + values;
        assert(all =~= values);
    }
}

proof fn lemma_arguments(s: Setting, room: nat, m: Machine, args: Seq<Expr>, done: Seq<i64>)
    ensures
        ({
            let (end, r) = semantics::evaluate_args(s, room, m, args, done);
            match r {
                Ok(all) => exists|machines: Seq<Machine>, values: Seq<i64>| #[trigger]
                    in_turn(s, room, machines, args, values) && machines[0] == m && machines.last()
                        == end && all == done + values,
                Err(trap) => exists|machines: Seq<Machine>, values: Seq<i64>, k: int| #[trigger]
                    in_turn(s, room, machines, args.take(k), values) && 0 <= k < args.len()
                        && machines[0] == m && semantics::evaluate(
                        s,
                        room,
                        machines.last(),
                        args[k],
                    ) == (end, Err::<i64, TrapView>(trap)),
            }
        }),
    decreases args.len(),
{
    let (end, r) = semantics::evaluate_args(s, room, m, args, done);
    if args.len() == 0 {
        let machines = seq![m];
        assert(in_turn(s, room, machines, args, Seq::empty()));
        assert(done =~= done + Seq::<i64>::empty());
    } else {
        let (m1, v) = semantics::evaluate(s, room, m, args[0]);
        let rest = args.subrange(1, args.len() as int);
        match v {
            Err(trap) => {
                assert(in_turn(s, room, seq![m], args.take(0), Seq::empty()));
            },
            Ok(v) => {
                lemma_arguments(s, room, m1, rest, done.push(v));
                match r {
                    Ok(all) => {
                        let (machines, values) = choose|machines: Seq<Machine>, values: Seq<i64>|
                         #[trigger]
                            in_turn(s, room, machines, rest, values) && machines[0] == m1
                                && machines.last() == end && all == done.push(v) + values;
                        lemma_one_more(s, room, m, machines, args, rest, v, values);
                        assert(done.push(v) + values =~= done + (seq![v] + values));
                    },
                    Err(trap) => {
                        let (machines, values, k) = choose|
                            machines: Seq<Machine>,
                            values: Seq<i64>,
                            k: int,
                        | #[trigger]
                            in_turn(s, room, machines, rest.take(k), values) && 0 <= k < rest.len()
                                && machines[0] == m1 && semantics::evaluate(
                                s,
                                room,
                                machines.last(),
                                rest[k],
                            ) == (end, Err::<i64, TrapView>(trap));
                        assert(args.take(k + 1).subrange(1, k + 1) =~= rest.take(k));
                        lemma_one_more(
                            s,
                            room,
                            m,
                            machines,
                            args.take(k + 1),
                            rest.take(k),
                            v,
                            values,
                        );
                        assert(args[k + 1] == rest[k]);
                    },
                }
            },
        }
    }
}

proof fn lemma_one_more(
    s: Setting,
    room: nat,
    m: Machine,
    machines: Seq<Machine>,
    args: Seq<Expr>,
    rest: Seq<Expr>,
    v: i64,
    values: Seq<i64>,
)
    requires
        args.len() > 0,
        rest == args.subrange(1, args.len() as int),
        in_turn(s, room, machines, rest, values),
        semantics::evaluate(s, room, m, args[0]) == (machines[0], Ok::<i64, TrapView>(v)),
    ensures
        in_turn(s, room, seq![m] + machines, args, seq![v] + values),
        (seq![m] + machines)[0] == m,
        (seq![m] + machines).last() == machines.last(),
{
    let all = seq![m] + machines;
    assert forall|i: int| 0 <= i < args.len() implies semantics::evaluate(
        s,
        room,
        #[trigger] all[i],
        args[i],
    ) == (all[i + 1], Ok::<i64, TrapView>((seq![v] + values)[i])) by {
        if i > 0 {
            assert(all[i] == machines[i - 1]);
            assert(args[i] == rest[i - 1]);
        }
    }
}

/// A function is found by its name; of several with that name the last one counts.
pub proof fn law_the_last_function_counts(functions: Seq<Function>, name: Seq<char>)
    ensures
        match semantics::function_named(functions, name) {
            Some(f) => exists|i: int|
                0 <= i < functions.len() && #[trigger] functions[i] == f && f.name@ == name && (
                forall|j: int| i < j < functions.len() ==> (#[trigger] functions[j]).name@ != name),
            None => forall|j: int|
                0 <= j < functions.len() ==> (#[trigger] functions[j]).name@ != name,
        },
    decreases functions.len(),
{
    if functions.len() > 0 {
        let last = functions.len() - 1;
        let rest = functions.drop_last();
        assert(functions[last] == functions.last());
        if functions.last().name@ != name {
            law_the_last_function_counts(rest, name);
            assert(forall|j: int| 0 <= j < rest.len() ==> #[trigger] functions[j] == rest[j]);
            if let Some(f) = semantics::function_named(rest, name) {
                let i = choose|i: int|
                    0 <= i < rest.len() && #[trigger] rest[i] == f && f.name@ == name && (forall|
                        j: int,
                    |
                        i < j < rest.len() ==> (#[trigger] rest[j]).name@ != name);
                assert(functions[i] == f);
            }
        }
    }
}

/// Whether a scope holds the parameters of a function and nothing else, each with its argument as
/// a word; of parameters with the same name the last one counts.
pub open spec fn binds(scope: ScopeView, params: Seq<Param>, args: Seq<i64>) -> bool {
    &&& forall|name: Seq<char>| #[trigger]
        scope.contains_key(name) <==> exists|i: int|
            0 <= i < params.len() && (#[trigger] params[i]).name@ == name
    &&& forall|i: int|
        0 <= i < params.len() && (forall|j: int|
            i < j < params.len() ==> (#[trigger] params[j]).name@ != params[i].name@) ==> {
            &&& scope[(#[trigger] params[i]).name@] matches SlotView::Scalar(Some(v))
            &&& -0x8000_0000 <= v < 0x8000_0000
            &&& (args[i] - v) % 0x1_0000_0000 == 0
        }
}

/// A call starts with its parameters, the one at each position with the argument at that position.
pub proof fn law_parameters_hold_their_arguments(params: Seq<Param>, args: Seq<i64>)
    requires
        params.len() == args.len(),
    ensures
        binds(semantics::bound_params(params, args), params, args),
        (forall|i: int, j: int|
            0 <= i < j < params.len() ==> (#[trigger] params[i]).name@ != (
            #[trigger] params[j]).name@) ==> forall|i: int|
            0 <= i < params.len() ==> semantics::bound_params(params, args)[(
            #[trigger] params[i]).name@] == SlotView::Scalar(
                Some(arithmetic::wrap32(args[i] as int)),
            ),
{
    let scope = semantics::bound_params(params, args);
    assert forall|name: Seq<char>| #[trigger]
        scope.contains_key(name) <==> exists|i: int|
            0 <= i < params.len() && (#[trigger] params[i]).name@ == name by {
        lemma_bound_names(params, args, name);
    }
    assert forall|i: int|
        0 <= i < params.len() && (forall|j: int|
            i < j < params.len() ==> (#[trigger] params[j]).name@ != params[i].name@) implies {
        &&& scope[(#[trigger] params[i]).name@] matches SlotView::Scalar(Some(v))
        &&& -0x8000_0000 <= v < 0x8000_0000
        &&& (args[i] - v) % 0x1_0000_0000 == 0
    } by {
        lemma_bound_value(params, args, i);
        law_wrapping_is_congruent(args[i] as int);
    }
    if forall|i: int, j: int|
        0 <= i < j < params.len() ==> (#[trigger] params[i]).name@ != (#[trigger] params[j]).name@ {
        assert forall|i: int| 0 <= i < params.len() implies scope[(#[trigger] params[i]).name@]
            == SlotView::Scalar(Some(arithmetic::wrap32(args[i] as int))) by {
            lemma_bound_value(params, args, i);
        }
    }
}

proof fn lemma_bound_names(params: Seq<Param>, args: Seq<i64>, name: Seq<char>)
    requires
        params.len() == args.len(),
    ensures
        semantics::bound_params(params, args).contains_key(name) <==> exists|i: int|
            0 <= i < params.len() && (#[trigger] params[i]).name@ == name,
    decreases params.len(),
{
    if params.len() > 0 {
        let last = params.len() - 1;
        let rest = params.drop_last();
        lemma_bound_names(rest, args.drop_last(), name);
        if semantics::bound_params(rest, args.drop_last()).contains_key(name) {
            let i = choose|i: int| 0 <= i < rest.len() && (#[trigger] rest[i]).name@ == name;
            assert(params[i].name@ == name);
        }
        if params[last].name@ != name && exists|i: int|
            0 <= i < params.len() && (#[trigger] params[i]).name@ == name {
            let i = choose|i: int| 0 <= i < params.len() && (#[trigger] params[i]).name@ == name;
            assert(rest[i].name@ == name);
        }
    }
}

proof fn lemma_bound_value(params: Seq<Param>, args: Seq<i64>, i: int)
    requires
        params.len() == args.len(),
        0 <= i < params.len(),
        forall|j: int| i < j < params.len() ==> (#[trigger] params[j]).name@ != params[i].name@,
    ensures
        semantics::bound_params(params, args)[params[i].name@] == SlotView::Scalar(
            Some(arithmetic::wrap32(args[i] as int)),
        ),
    decreases params.len(),
{
    let last = params.len() - 1;
    if i < last {
        let rest = params.drop_last();
        assert(params[last].name@ != params[i].name@);
        assert forall|j: int| i < j < rest.len() implies (#[trigger] rest[j]).name@ != rest[i].name@ by {
            assert(params[j].name@ != params[i].name@);
        }
        lemma_bound_value(rest, args.drop_last(), i);
    }
}

/// A call runs the body of the function in a scope of its own, which holds the parameters with
/// their arguments; when the body is done that scope is gone, and the value is what was returned,
/// as a word, or zero where nothing was.
pub proof fn law_calls_run_the_body(
    s: Setting,
    room: nat,
    m: Machine,
    name: Seq<char>,
    args: Seq<i64>,
    f: Function,
)
    requires
        m.cycles < s.limits.max_cycles,
        room > 0,
        semantics::function_named(s.program.functions@, name) == Some(f),
        args.len() == f.params@.len(),
    ensures
        exists|scope: ScopeView| #[trigger]
            binds(scope, f.params@, args) && {
                let entered = Machine {
                    frames: m.frames.push(scope),
                    cycles: m.cycles + 1,
                    ..m
                };
                let (m1, end) = semantics::execute_block(s, (room - 1) as nat, entered, f.body@);
                let (after, r) = semantics::invoke(s, room, m, name, args);
                &&& end matches Err(trap) ==> after == m1 && r == Err::<i64, TrapView>(trap)
                &&& end is Ok ==> after == (Machine { frames: m1.frames.drop_last(), ..m1 })
                &&& end matches Ok(Control::Return(value)) ==> {
                    &&& r matches Ok(v)
                    &&& -0x8000_0000 <= v < 0x8000_0000
                    &&& (value - v) % 0x1_0000_0000 == 0
                }
                &&& end matches Ok(Control::Continue) ==> r == Ok::<i64, TrapView>(0)
            },
{
    law_parameters_hold_their_arguments(f.params@, args);
    let scope = semantics::bound_params(f.params@, args);
    let entered = Machine { frames: m.frames.push(scope), cycles: m.cycles + 1, ..m };
    let (m1, end) = semantics::execute_block(s, (room - 1) as nat, entered, f.body@);
    if let Ok(Control::Return(value)) = end {
        law_wrapping_is_congruent(value as int);
    }
    assert(binds(scope, f.params@, args));
}

/// A call that cannot be made is a trap: when too many calls are active, when no function has the
/// name, and when the function takes another number of arguments.
pub proof fn law_calls_that_cannot_be_made(
    s: Setting,
    room: nat,
    m: Machine,
    name: Seq<char>,
    args: Seq<i64>,
)
    requires
        m.cycles < s.limits.max_cycles,
    ensures
        ({
            let after = Machine { cycles: m.cycles + 1, ..m };
            let found = semantics::function_named(s.program.functions@, name);
            &&& room == 0 ==> semantics::invoke(s, room, m, name, args) == (after, Err::<
                i64,
                TrapView,
            >(
                (
                    TrapCode::StackOverflow,
                    "Call stack overflow (max "@ + text::decimal(s.limits.max_frames as int)
                        + " frames)"@,
                ),
            ))
            &&& room > 0 && found is None ==> semantics::invoke(s, room, m, name, args) == (
                after,
                Err::<i64, TrapView>((TrapCode::UndefinedFunction, "Undefined function "@ + name)),
            )
            &&& room > 0 ==> (found matches Some(f) ==> args.len() != f.params@.len()
                ==> semantics::invoke(s, room, m, name, args) == (after, Err::<i64, TrapView>(
                (
                    TrapCode::InvalidInstruction,
                    "Call has "@ + text::decimal(args.len() as int) + " arguments but function "@
                        + name + " expects "@ + text::decimal(f.params@.len() as int),
                ),
            )))
        }),
{
}

/// A function that returns one of its parameters gives the argument at the position of that
/// parameter.
pub proof fn law_a_function_gives_its_argument(
    s: Setting,
    room: nat,
    m: Machine,
    name: Seq<char>,
    args: Seq<i64>,
    f: Function,
    param: String,
    i: int,
)
    requires
        m.cycles + 3 <= s.limits.max_cycles,
        room > 0,
        semantics::function_named(s.program.functions@, name) == Some(f),
        args.len() == f.params@.len(),
        f.body@ == seq![Stmt::Return { value: Expr::Identifier { name: param } }],
        0 <= i < args.len(),
        f.params@[i].name@ == param@,
        forall|j: int| i < j < args.len() ==> (#[trigger] f.params@[j]).name@ != param@,
    ensures
        ({
            let (after, r) = semantics::invoke(s, room, m, name, args);
            &&& after == (Machine { cycles: m.cycles + 3, ..m })
            &&& r matches Ok(v)
            &&& -0x8000_0000 <= v < 0x8000_0000
            &&& (args[i] - v) % 0x1_0000_0000 == 0
        }),
{
    law_parameters_hold_their_arguments(f.params@, args);
    let scope = semantics::bound_params(f.params@, args);
    let entered = Machine { frames: m.frames.push(scope), cycles: m.cycles + 1, ..m };
    assert(f.params@[i].name@ == param@);
    assert(scope[f.params@[i].name@] matches SlotView::Scalar(Some(v)));
    assert(scope.contains_key(param@));
    let value = scope[param@]->Scalar_0->0;
    assert(entered.frames.last() == scope);
    lemma_returns_variable(s, (room - 1) as nat, entered, f.body@, param, value);
    assert(entered.frames.drop_last() =~= m.frames);
    law_wrapping_is_congruent(value as int);
    assert(arithmetic::wrap32(value as int) == value);
}

/// A body that returns a variable of its call gives the value of that variable.
#[verifier::spinoff_prover]
proof fn lemma_returns_variable(
    s: Setting,
    room: nat,
    m: Machine,
    body: Seq<Stmt>,
    name: String,
    value: i64,
)
    requires
        m.cycles + 2 <= s.limits.max_cycles,
        m.frames.len() > 0,
        m.frames.last().contains_key(name@),
        m.frames.last()[name@] == SlotView::Scalar(Some(value)),
        body == seq![Stmt::Return { value: Expr::Identifier { name } }],
    ensures
        semantics::execute_block(s, room, m, body) == (
            Machine { cycles: m.cycles + 2, ..m },
            Ok::<Control, TrapView>(Control::Return(value)),
        ),
{
    let m1 = Machine { cycles: m.cycles + 1, ..m };
    law_the_innermost_variable_counts(m1, name@, SlotView::Scalar(None), m1.frames.len() - 1);
    law_names_give_their_value(s, room, m1, name);
    let stmt = Stmt::Return { value: Expr::Identifier { name } };
    assert(semantics::execute(s, room, m, stmt) == (
        Machine { cycles: m.cycles + 2, ..m },
        Ok::<Control, TrapView>(Control::Return(value)),
    ));
    assert(body[0] == stmt);
}

/// A call passes its arguments in order: where the arguments are numbers and the function returns
/// one of its parameters, the call gives the number at the position of that parameter.
pub proof fn law_arguments_reach_their_parameters(
    s: Setting,
    room: nat,
    m: Machine,
    name: String,
    args: Vec<Expr>,
    numbers: Seq<i32>,
    f: Function,
    param: String,
    i: int,
)
    requires
        m.cycles + args@.len() + 4 <= s.limits.max_cycles,
        room > 0,
        numbers.len() == args@.len(),
        forall|k: int|
            0 <= k < numbers.len() ==> #[trigger] args@[k] == (Expr::IntLiteral {
                value: numbers[k],
            }),
        semantics::function_named(s.program.functions@, name@) == Some(f),
        args@.len() == f.params@.len(),
        f.body@ == seq![Stmt::Return { value: Expr::Identifier { name: param } }],
        0 <= i < numbers.len(),
        f.params@[i].name@ == param@,
        forall|j: int| i < j < numbers.len() ==> (#[trigger] f.params@[j]).name@ != param@,
    ensures
        semantics::evaluate(s, room, m, Expr::Call { name, args }).1 == Ok::<i64, TrapView>(
            numbers[i] as i64,
        ),
{
    let m1 = Machine { cycles: m.cycles + 1, ..m };
    lemma_numbers(s, room, m1, args@, numbers, Seq::empty());
    let values = numbers.map_values(|n: i32| n as i64);
    assert(Seq::<i64>::empty() + values =~= values);
    let m2 = Machine { cycles: m1.cycles + args@.len(), ..m1 };
    law_a_function_gives_its_argument(s, room, m2, name@, values, f, param, i);
}

proof fn lemma_numbers(
    s: Setting,
    room: nat,
    m: Machine,
    args: Seq<Expr>,
    numbers: Seq<i32>,
    done: Seq<i64>,
)
    requires
        m.cycles + args.len() <= s.limits.max_cycles,
        numbers.len() == args.len(),
        forall|k: int|
            0 <= k < numbers.len() ==> #[trigger] args[k] == (Expr::IntLiteral {
                value: numbers[k],
            }),
    ensures
        semantics::evaluate_args(s, room, m, args, done) == (
            Machine { cycles: m.cycles + args.len(), ..m },
            Ok::<Seq<i64>, TrapView>(done + numbers.map_values(|n: i32| n as i64)),
        ),
    decreases args.len(),
{
    let values = numbers.map_values(|n: i32| n as i64);
    if args.len() == 0 {
        assert(done + values =~= done);
    } else {
        let rest = args.subrange(1, args.len() as int);
        let rest_numbers = numbers.subrange(1, numbers.len() as int);
        law_literals(s, room, m, numbers[0], true);
        assert(args[0] == (Expr::IntLiteral { value: numbers[0] }));
        assert forall|k: int| 0 <= k < rest_numbers.len() implies #[trigger] rest[k] == (
        Expr::IntLiteral { value: rest_numbers[k] }) by {
            assert(args[k + 1] == (Expr::IntLiteral { value: numbers[k + 1] }));
        }
        let m1 = Machine { cycles: m.cycles + 1, ..m };
        lemma_numbers(s, room, m1, rest, rest_numbers, done.push(numbers[0] as i64));
        assert(done.push(numbers[0] as i64) + rest_numbers.map_values(|n: i32| n as i64) =~= done
            + values);
    }
}

/// Puts a variable where its name stands: into the variable that has the name, or else into the
/// innermost call, which there must be.
pub open spec fn placed(m: Machine, name: Seq<char>, slot: SlotView) -> (Machine, Result<
    Control,
    TrapView,
>) {
    if m.lookup(name) is Some {
        (m.updated(name, slot), Ok(Control::Continue))
    } else if m.frames.len() > 0 {
        let last = m.frames.len() - 1;
        (
            Machine { frames: m.frames.update(last, m.frames[last].insert(name, slot)), ..m },
            Ok(Control::Continue),
        )
    } else {
        (m, Err((TrapCode::InvalidInstruction, "No active call frame"@)))
    }
}

/// A declaration of an array puts zeros in place, one of a scalar with an initial value that value;
/// one of a scalar without leaves a known name as it is and otherwise puts an unset scalar in
/// place.
pub proof fn law_declarations(
    s: Setting,
    room: nat,
    m: Machine,
    name: String,
    init_expr: Option<Expr>,
    size: u32,
)
    requires
        m.cycles < s.limits.max_cycles,
    ensures
        ({
            let m1 = Machine { cycles: m.cycles + 1, ..m };
            let array = semantics::execute(
                s,
                room,
                m,
                Stmt::VarDecl { name, init_expr, array_size: Some(size) },
            );
            let scalar = semantics::execute(
                s,
                room,
                m,
                Stmt::VarDecl { name, init_expr, array_size: None },
            );
            &&& array == placed(
                m1,
                name@,
                SlotView::Array(Seq::new(size as nat, |i: int| 0i64)),
            )
            &&& init_expr matches Some(init) ==> {
                let (m2, v) = semantics::evaluate(s, room, m1, init);
                &&& v matches Err(trap) ==> scalar == (m2, Err::<Control, TrapView>(trap))
                &&& v matches Ok(v) ==> scalar == placed(m2, name@, SlotView::Scalar(Some(v)))
            }
            &&& init_expr is None && m1.lookup(name@) is Some ==> scalar == (m1, Ok::<
                Control,
                TrapView,
            >(Control::Continue))
            &&& init_expr is None && m1.lookup(name@) is None ==> scalar == placed(
                m1,
                name@,
                SlotView::Scalar(None),
            )
        }),
{
    let m1 = Machine { cycles: m.cycles + 1, ..m };
    lemma_declared(m1, name@, SlotView::Array(Seq::new(size as nat, |i: int| 0i64)));
    lemma_declared(m1, name@, SlotView::Scalar(None));
    if let Some(init) = init_expr {
        let (m2, v) = semantics::evaluate(s, room, m1, init);
        if let Ok(v) = v {
            lemma_declared(m2, name@, SlotView::Scalar(Some(v)));
        }
    }
}

proof fn lemma_declared(m: Machine, name: Seq<char>, slot: SlotView)
    ensures
        semantics::proceed(m.declared_or_updated(name, slot)) == placed(m, name, slot),
        m.lookup(name) is None ==> semantics::proceed(m.declared(name, slot)) == placed(
            m,
            name,
            slot,
        ),
{
    if m.frames.len() > 0 {
        let last = m.frames.len() - 1;
        let frame = m.frames[last].insert(name, slot);
        assert(m.frames.drop_last().push(frame) =~= m.frames.update(last, frame));
    }
}

/// An assignment to a name sets the scalar that it stands for to the value, as a word, and nothing
/// else; a name that stands for an array or for nothing is a trap.
pub proof fn law_assignments(
    s: Setting,
    room: nat,
    m: Machine,
    target: String,
    value: Expr,
)
    requires
        m.cycles < s.limits.max_cycles,
    ensures
        ({
            let (m2, v) = semantics::evaluate(
                s,
                room,
                Machine { cycles: m.cycles + 1, ..m },
                value,
            );
            let (after, end) = semantics::execute(
                s,
                room,
                m,
                Stmt::Assign { target, index_expr: None, value },
            );
            &&& v matches Err(trap) ==> after == m2 && end == Err::<Control, TrapView>(trap)
            &&& v matches Ok(v) ==> match m2.lookup(target@) {
                Some(SlotView::Scalar(_)) => {
                    &&& end == Ok::<Control, TrapView>(Control::Continue)
                    &&& exists|w: i64|
                        {
                            &&& #[trigger] m2.updated(target@, SlotView::Scalar(Some(w))) == after
                            &&& -0x8000_0000 <= w < 0x8000_0000
                            &&& (v - w) % 0x1_0000_0000 == 0
                        }
                },
                Some(SlotView::Array(_)) => after == m2 && end == Err::<Control, TrapView>(
                    (
                        TrapCode::InvalidInstruction,
                        "Cannot assign array "@ + target@ + " without index"@,
                    ),
                ),
                None => after == m2 && end == Err::<Control, TrapView>(
                    (TrapCode::InvalidInstruction, "Undefined variable "@ + target@),
                ),
            }
        }),
{
    let (m2, v) = semantics::evaluate(s, room, Machine { cycles: m.cycles + 1, ..m }, value);
    if let Ok(v) = v {
        law_wrapping_is_congruent(v as int);
        let w = arithmetic::wrap32(v as int);
        let after = m2.updated(target@, SlotView::Scalar(Some(w)));
        assert(after == m2.updated(target@, SlotView::Scalar(Some(w))));
    }
}

/// An assignment to an element evaluates the value and then the index, and sets that element alone
/// to the value, as a word; an index that the array does not have is a trap, and so is a name that
/// stands for no array.
pub proof fn law_element_assignments(
    s: Setting,
    room: nat,
    m: Machine,
    target: String,
    index: Expr,
    value: Expr,
)
    requires
        m.cycles < s.limits.max_cycles,
    ensures
        ({
            let (m2, v) = semantics::evaluate(
                s,
                room,
                Machine { cycles: m.cycles + 1, ..m },
                value,
            );
            let (m3, i) = semantics::evaluate(s, room, m2, index);
            let (after, end) = semantics::execute(
                s,
                room,
                m,
                Stmt::Assign { target, index_expr: Some(index), value },
            );
            &&& v matches Err(trap) ==> after == m2 && end == Err::<Control, TrapView>(trap)
            &&& v is Ok ==> (i matches Err(trap) ==> after == m3 && end == Err::<
                Control,
                TrapView,
            >(trap))
            &&& v matches Ok(v) ==> (i matches Ok(i) ==> if i < 0 {
                after == m3 && end == Err::<Control, TrapView>(
                    (
                        TrapCode::ArrayOutOfBounds,
                        "Array index "@ + text::decimal(i as int) + " out of bounds"@,
                    ),
                )
            } else {
                match m3.lookup(target@) {
                    Some(SlotView::Array(values)) => if i < values.len() {
                        &&& end == Ok::<Control, TrapView>(Control::Continue)
                        &&& exists|w: i64|
                            {
                                &&& #[trigger] m3.updated(
                                    target@,
                                    SlotView::Array(values.update(i as int, w)),
                                ) == after
                                &&& -0x8000_0000 <= w < 0x8000_0000
                                &&& (v - w) % 0x1_0000_0000 == 0
                            }
                    } else {
                        after == m3 && end == Err::<Control, TrapView>(
                            (
                                TrapCode::ArrayOutOfBounds,
                                "Array index "@ + text::decimal(i as int)
                                    + " out of bounds (size "@ + text::decimal(
                                    values.len() as int,
                                ) + ")"@,
                            ),
                        )
                    },
                    Some(SlotView::Scalar(_)) => after == m3 && end == Err::<Control, TrapView>(
                        (TrapCode::InvalidInstruction, "Cannot index non-array "@ + target@),
                    ),
                    None => after == m3 && end == Err::<Control, TrapView>(
                        (TrapCode::InvalidInstruction, "Undefined variable "@ + target@),
                    ),
                }
            })
        }),
{
    let (m2, v) = semantics::evaluate(s, room, Machine { cycles: m.cycles + 1, ..m }, value);
    let (m3, i) = semantics::evaluate(s, room, m2, index);
    if let (Ok(v), Ok(i)) = (v, i) {
        law_wrapping_is_congruent(v as int);
        if let Some(SlotView::Array(values)) = m3.lookup(target@) {
            if 0 <= i < values.len() {
                let w = arithmetic::wrap32(v as int);
                let slot = SlotView::Array(values.update(i as int, w));
                let after = m3.updated(target@, slot);
                assert(after == m3.updated(target@, SlotView::Array(values.update(i as int, w))));
            }
        }
    }
}

/// A branch runs its first body where the condition is not zero, and its second, if it has one,
/// where it is.
pub proof fn law_branches(
    s: Setting,
    room: nat,
    m: Machine,
    condition: Expr,
    then_body: Vec<Stmt>,
    else_body: Option<Vec<Stmt>>,
)
    requires
        m.cycles < s.limits.max_cycles,
    ensures
        ({
            let (m2, v) = semantics::evaluate(
                s,
                room,
                Machine { cycles: m.cycles + 1, ..m },
                condition,
            );
            let whole = semantics::execute(
                s,
                room,
                m,
                Stmt::If { condition, then_body, else_body },
            );
            &&& v matches Err(trap) ==> whole == (m2, Err::<Control, TrapView>(trap))
            &&& v matches Ok(v) ==> v != 0 ==> whole == semantics::execute_block(
                s,
                room,
                m2,
                then_body@,
            )
            &&& v matches Ok(v) ==> v == 0 ==> match else_body {
                Some(body) => whole == semantics::execute_block(s, room, m2, body@),
                None => whole == (m2, Ok::<Control, TrapView>(Control::Continue)),
            }
        }),
{
}

/// A loop runs its body as long as its condition is not zero: it does nothing where the condition
/// is zero, and otherwise its body and, where that comes to its end, the loop again.
pub proof fn law_loops(s: Setting, room: nat, m: Machine, condition: Expr, body: Vec<Stmt>)
    requires
        m.cycles < s.limits.max_cycles,
    ensures
        ({
            let stmt = Stmt::While { condition, body };
            let m1 = Machine { cycles: m.cycles + 1, ..m };
            let (m2, v) = semantics::evaluate(s, room, m1, condition);
            let whole = semantics::execute(s, room, m, stmt);
            let (m3, end) = semantics::execute_block(s, room, m2, body@);
            &&& v matches Err(trap) ==> whole == (m2, Err::<Control, TrapView>(trap))
            &&& v matches Ok(v) ==> v == 0 ==> whole == (m2, Ok::<Control, TrapView>(
                Control::Continue,
            ))
            &&& v matches Ok(v) ==> v != 0 ==> match end {
                Ok(Control::Continue) => m3.cycles > 0 && whole == semantics::execute(
                    s,
                    room,
                    Machine { cycles: (m3.cycles - 1) as nat, ..m3 },
                    stmt,
                ),
                _ => whole == (m3, end),
            }
        }),
{
    let m1 = Machine { cycles: m.cycles + 1, ..m };
    crate::laws::law_loops_unfold(s, room, m1, condition, body);
    let (m2, v) = semantics::evaluate(s, room, m1, condition);
    bounds::lemma_evaluate(s, room, m1, condition);
    if v is Ok {
        bounds::lemma_execute_block(s, room, m2, body@);
        let (m3, end) = semantics::execute_block(s, room, m2, body@);
        if end is Ok {
            let back = Machine { cycles: (m3.cycles - 1) as nat, ..m3 };
            assert((Machine { cycles: back.cycles + 1, ..back }) == m3);
        }
    }
}

/// A return ends with the value of its expression; a print statement adds one line, with the value
/// in decimal notation, to what was printed; an expression on its own does no more than it does.
pub proof fn law_returns_and_prints(s: Setting, room: nat, m: Machine, value: Expr)
    requires
        m.cycles < s.limits.max_cycles,
    ensures
        ({
            let (m2, v) = semantics::evaluate(
                s,
                room,
                Machine { cycles: m.cycles + 1, ..m },
                value,
            );
            let returned = semantics::execute(s, room, m, Stmt::Return { value });
            let printed = semantics::execute(s, room, m, Stmt::Print { value });
            let dropped = semantics::execute(s, room, m, Stmt::ExprStmt { expr: value });
            match v {
                Err(trap) => {
                    &&& returned == (m2, Err::<Control, TrapView>(trap))
                    &&& printed == (m2, Err::<Control, TrapView>(trap))
                    &&& dropped == (m2, Err::<Control, TrapView>(trap))
                },
                Ok(v) => {
                    &&& returned == (m2, Ok::<Control, TrapView>(Control::Return(v)))
                    &&& printed == (
                        Machine {
                            output: m2.output + seq!["OUTPUT: "@ + text::decimal(v as int)],
                            ..m2
                        },
                        Ok::<Control, TrapView>(Control::Continue),
                    )
                    &&& dropped == (m2, Ok::<Control, TrapView>(Control::Continue))
                },
            }
        }),
{
    let (m2, v) = semantics::evaluate(s, room, Machine { cycles: m.cycles + 1, ..m }, value);
    if let Ok(v) = v {
        let line = "OUTPUT: "@ + text::decimal(v as int);
        assert(m2.output.push(line) =~= m2.output + seq![line]);
    }
}

/// Before any global is initialised, the globals are those of the program and nothing else, and
/// hold zeros; of globals with the same name the last one counts.
pub proof fn law_globals_start_with_zeros(globals: Seq<GlobalVar>)
    ensures
        forall|name: Seq<char>| #[trigger]
            semantics::declared_globals(globals).contains_key(name) <==> exists|i: int|
                0 <= i < globals.len() && (#[trigger] globals[i]).name@ == name,
        forall|i: int|
            0 <= i < globals.len() && (forall|j: int|
                i < j < globals.len() ==> (#[trigger] globals[j]).name@ != globals[i].name@)
                ==> semantics::declared_globals(globals)[(#[trigger] globals[i]).name@]
                == match globals[i].array_size {
                Some(size) => SlotView::Array(Seq::new(size as nat, |k: int| 0i64)),
                None => SlotView::Scalar(Some(0)),
            },
    decreases globals.len(),
{
    let scope = semantics::declared_globals(globals);
    if globals.len() > 0 {
        let last = globals.len() - 1;
        let rest = globals.drop_last();
        let before = semantics::declared_globals(rest);
        law_globals_start_with_zeros(rest);
        assert(globals[last] == globals.last());
        assert(forall|i: int| 0 <= i < last ==> #[trigger] globals[i] == rest[i]);
        assert forall|name: Seq<char>| #[trigger]
            scope.contains_key(name) <==> exists|i: int|
                0 <= i < globals.len() && (#[trigger] globals[i]).name@ == name by {
            if before.contains_key(name) {
                let i = choose|i: int| 0 <= i < rest.len() && (#[trigger] rest[i]).name@ == name;
                assert(globals[i].name@ == name);
            }
            if exists|i: int| 0 <= i < globals.len() && (#[trigger] globals[i]).name@ == name {
                let i = choose|i: int|
                    0 <= i < globals.len() && (#[trigger] globals[i]).name@ == name;
                if i < last {
                    assert(rest[i].name@ == name);
                }
            }
        }
        assert forall|i: int|
            0 <= i < globals.len() && (forall|j: int|
                i < j < globals.len() ==> (#[trigger] globals[j]).name@
                    != globals[i].name@) implies scope[(#[trigger] globals[i]).name@]
            == match globals[i].array_size {
            Some(size) => SlotView::Array(Seq::new(size as nat, |k: int| 0i64)),
            None => SlotView::Scalar(Some(0)),
        } by {
            if i < last {
                assert(globals[last].name@ != globals[i].name@);
                assert forall|j: int| i < j < rest.len() implies (#[trigger] rest[j]).name@
                    != rest[i].name@ by {
                    assert(globals[j].name@ != globals[i].name@);
                }
                assert(rest[i] == globals[i]);
            }
        }
    }
}

/// Globals are initialised one after the other, in source order. One without an initial value is
/// left alone; one with an initial value gets it, as a word; an array with an initial value is a
/// trap, and a trap ends it.
pub proof fn law_globals_are_initialised_in_order(
    s: Setting,
    m: Machine,
    first: GlobalVar,
    rest: Seq<GlobalVar>,
)
    ensures
        ({
            let whole = semantics::initialize(s, m, seq![first] + rest);
            match first.init_expr {
                None => whole == semantics::initialize(s, m, rest),
                Some(init) => {
                    let (m1, v) = semantics::evaluate(s, s.limits.max_frames as nat, m, init);
                    &&& v matches Err(trap) ==> whole == (m1, Err::<(), TrapView>(trap))
                    &&& v matches Ok(v) ==> if !m1.globals.contains_key(first.name@) {
                        whole == (m1, Err::<(), TrapView>(
                            (TrapCode::InvalidInstruction, "Undefined global "@ + first.name@),
                        ))
                    } else if m1.globals[first.name@] is Array {
                        whole == (m1, Err::<(), TrapView>(
                            (
                                TrapCode::InvalidInstruction,
                                "Cannot initialize array "@ + first.name@ + " as scalar"@,
                            ),
                        ))
                    } else {
                        exists|w: i64|
                            {
                                &&& #[trigger] semantics::initialize(
                                    s,
                                    Machine {
                                        globals: m1.globals.insert(
                                            first.name@,
                                            SlotView::Scalar(Some(w)),
                                        ),
                                        ..m1
                                    },
                                    rest,
                                ) == whole
                                &&& -0x8000_0000 <= w < 0x8000_0000
                                &&& (v - w) % 0x1_0000_0000 == 0
                            }
                    }
                },
            }
        }),
{
    let all = seq![first] + rest;
    assert(all[0] == first);
    assert(all.subrange(1, all.len() as int) =~= rest);
    if let Some(init) = first.init_expr {
        let (m1, v) = semantics::evaluate(s, s.limits.max_frames as nat, m, init);
        if let Ok(v) = v {
            law_wrapping_is_congruent(v as int);
            let w = arithmetic::wrap32(v as int);
            let stored = Machine {
                globals: m1.globals.insert(first.name@, SlotView::Scalar(Some(w))),
                ..m1
            };
            if m1.globals.contains_key(first.name@) && !(m1.globals[first.name@] is Array) {
                assert(m1.with_global(first.name@, v) == (stored, Ok::<(), TrapView>(())));
                assert(semantics::initialize(s, stored, rest) == semantics::initialize(
                    s,
                    m,
                    all,
                ));
            }
        }
    }
}

/// A run starts with the globals at zero, no active call, nothing printed and no step counted;
/// initialises the globals; and calls `main` without arguments.
pub proof fn law_a_run_calls_main(s: Setting)
    ensures
        ({
            let begin = Machine {
                globals: semantics::declared_globals(s.program.globals@),
                frames: Seq::empty(),
                output: Seq::empty(),
                cycles: 0,
            };
            let (m, ready) = semantics::initialize(s, begin, s.program.globals@);
            semantics::run(s) == match ready {
                Err(trap) => (m, Err::<i64, TrapView>(trap)),
                Ok(_) => semantics::invoke(
                    s,
                    s.limits.max_frames as nat,
                    m,
                    "main"@,
                    Seq::empty(),
                ),
            }
        }),
{
}

/// What is observed of a run: success and the value where there was no trap, else the trap and
/// zero; in any case what was printed, line by line.
pub proof fn law_what_is_observed(m: Machine, value: i64, trap: TrapView)
    ensures
        ({
            let done = oracle::outcome_of((m, Ok::<i64, TrapView>(value)));
            let stopped = oracle::outcome_of((m, Err::<i64, TrapView>(trap)));
            &&& done.success && done.return_value == value && done.trap_code == TrapCode::NoTrap
            &&& done.trap_message == Seq::<char>::empty() && done.output == m.output
            &&& !stopped.success && stopped.return_value == 0 && stopped.trap_code == trap.0
            &&& stopped.trap_message == trap.1 && stopped.output == m.output
        }),
{
}

/// A call in an expression evaluates its arguments, and then calls the function with their values;
/// a trap among the arguments is the result.
pub proof fn law_calls_in_expressions(
    s: Setting,
    room: nat,
    m: Machine,
    name: String,
    args: Vec<Expr>,
)
    requires
        m.cycles < s.limits.max_cycles,
    ensures
        ({
            let (m1, values) = semantics::evaluate_args(
                s,
                room,
                Machine { cycles: m.cycles + 1, ..m },
                args@,
                Seq::empty(),
            );
            semantics::evaluate(s, room, m, Expr::Call { name, args }) == match values {
                Err(trap) => (m1, Err::<i64, TrapView>(trap)),
                Ok(values) => semantics::invoke(s, room, m1, name@, values),
            }
        }),
{
}

/// A block of one statement is that statement, and without globals there is nothing to initialise.
pub proof fn law_blocks_of_one_statement(s: Setting, room: nat, m: Machine, stmt: Stmt)
    ensures
        semantics::execute_block(s, room, m, seq![stmt]) == semantics::execute(s, room, m, stmt),
        semantics::initialize(s, m, Seq::empty()) == (m, Ok::<(), TrapView>(())),
{
    let block = seq![stmt];
    let (m1, end) = semantics::execute(s, room, m, stmt);
    let rest = block.subrange(1, block.len() as int);
    assert(block[0] == stmt);
    assert(rest.len() == 0);
    assert(semantics::execute_block(s, room, m1, rest) == (
        m1,
        Ok::<Control, TrapView>(Control::Continue),
    ));
}

} // verus!
