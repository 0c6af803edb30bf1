//! The interpreter, its traps and its comparison with backends.

use minilang::ast::{BinaryOp, Expr, Function, GlobalVar, Param, Program, Stmt, UnaryOp};
use minilang::compare::{
    compare_ast_oracle, BackendComparisonReport, BackendOutcome, BackendRun, BackendRunStatus,
};
use minilang::limits::{Limits, MAX_CYCLES, MAX_FRAMES};
use minilang::oracle::{run_ast_oracle, run_ast_oracle_within, AstOracle, OracleOutcome};
use minilang::semantics::Control;
use minilang::trap::TrapCode;

fn num(value: i32) -> Expr {
    Expr::IntLiteral { value }
}

fn truth(value: bool) -> Expr {
    Expr::BoolLiteral { value }
}

fn var(name: &str) -> Expr {
    Expr::Identifier { name: name.to_string() }
}

fn binary(op: BinaryOp, left: Expr, right: Expr) -> Expr {
    Expr::Binary { op, left: Box::new(left), right: Box::new(right) }
}

fn unary(op: UnaryOp, operand: Expr) -> Expr {
    Expr::Unary { op, operand: Box::new(operand) }
}

fn call(name: &str, args: Vec<Expr>) -> Expr {
    Expr::Call { name: name.to_string(), args }
}

fn at(array_name: &str, index: Expr) -> Expr {
    Expr::ArrayIndex { array_name: array_name.to_string(), index: Box::new(index) }
}

fn declare(name: &str, init_expr: Option<Expr>, array_size: Option<u32>) -> Stmt {
    Stmt::VarDecl { name: name.to_string(), init_expr, array_size }
}

fn set(target: &str, value: Expr) -> Stmt {
    Stmt::Assign { target: target.to_string(), index_expr: None, value }
}

fn set_at(target: &str, index: Expr, value: Expr) -> Stmt {
    Stmt::Assign { target: target.to_string(), index_expr: Some(index), value }
}

fn give(value: Expr) -> Stmt {
    Stmt::Return { value }
}

fn print(value: Expr) -> Stmt {
    Stmt::Print { value }
}

fn function(name: &str, params: &[&str], body: Vec<Stmt>) -> Function {
    Function {
        name: name.to_string(),
        params: params.iter().map(|name| Param { name: name.to_string() }).collect(),
        body,
    }
}

fn global(name: &str, init_expr: Option<Expr>, array_size: Option<u32>) -> GlobalVar {
    GlobalVar { name: name.to_string(), init_expr, array_size }
}

fn main_only(body: Vec<Stmt>) -> Program {
    Program { globals: vec![], functions: vec![function("main", &[], body)] }
}

fn outcome_of(value: Expr) -> OracleOutcome {
    run_ast_oracle(&main_only(vec![give(value)]))
}

fn executed(name: &str, outcome: BackendOutcome) -> BackendRun {
    BackendRun { name: name.to_string(), status: BackendRunStatus::Executed(outcome) }
}

fn skipped(name: &str, reason: &str) -> BackendRun {
    BackendRun { name: name.to_string(), status: BackendRunStatus::Skipped(reason.to_string()) }
}

/// What the three virtual machines report where each of them shows `outcome`.
fn backends(outcome: BackendOutcome) -> BackendComparisonReport {
    BackendComparisonReport {
        equivalent: true,
        runs: vec![
            executed("VM", outcome.clone()),
            executed("GC VM", outcome.clone()),
            executed("Optimized VM", outcome),
            skipped("JIT", "not eligible"),
        ],
    }
}

fn trapped(trap_code: TrapCode) -> BackendOutcome {
    BackendOutcome { success: false, return_value: 0, trap_code, output: vec![] }
}

/// The program of
///
/// ```text
/// int g = 2;
/// int arr[3];
/// func add(int x) { return x + g; }
/// func main() {
///   int local[2];
///   local[0] = add(5);
///   arr[1] = local[0] + 3;
///   print arr[1];
///   return arr[1];
/// }
/// ```
fn scalars_functions_and_arrays() -> Program {
    Program {
        globals: vec![global("g", Some(num(2)), None), global("arr", None, Some(3))],
        functions: vec![
            function("add", &["x"], vec![give(binary(BinaryOp::Add, var("x"), var("g")))]),
            function(
                "main",
                &[],
                vec![
                    declare("local", None, Some(2)),
                    set_at("local", num(0), call("add", vec![num(5)])),
                    set_at("arr", num(1), binary(BinaryOp::Add, at("local", num(0)), num(3))),
                    print(at("arr", num(1))),
                    give(at("arr", num(1))),
                ],
            ),
        ],
    }
}

#[test]
fn oracle_executes_scalars_functions_and_arrays() {
    let program = scalars_functions_and_arrays();
    let report = compare_ast_oracle(
        &program,
        backends(BackendOutcome {
            success: true,
            return_value: 10,
            trap_code: TrapCode::NoTrap,
            output: vec!["OUTPUT: 10".to_string()],
        }),
    );
    assert!(report.equivalent, "{report:#?}");
    assert_eq!(report.oracle.return_value, 10);
    assert_eq!(report.oracle.output, vec!["OUTPUT: 10"]);
}

#[test]
fn oracle_matches_divide_by_zero_trap() {
    // func main() { return 10 / 0; }
    let program = main_only(vec![give(binary(BinaryOp::Div, num(10), num(0)))]);
    let report = compare_ast_oracle(&program, backends(trapped(TrapCode::DivideByZero)));
    assert!(report.equivalent, "{report:#?}");
    assert!(!report.oracle.success);
    assert_eq!(report.oracle.trap_code, TrapCode::DivideByZero);
    assert_eq!(report.oracle.trap_message, "Division by zero");
}

#[test]
fn oracle_matches_undefined_local_trap() {
    // func main() { int x; return x; }
    let program = main_only(vec![declare("x", None, None), give(var("x"))]);
    let report = compare_ast_oracle(&program, backends(trapped(TrapCode::UndefinedLocal)));
    assert!(report.equivalent, "{report:#?}");
    assert!(!report.oracle.success);
    assert_eq!(report.oracle.trap_code, TrapCode::UndefinedLocal);
    assert_eq!(report.oracle.trap_message, "Undefined local x");
}

#[test]
fn every_backend_that_differs_gives_a_mismatch() {
    let program = main_only(vec![print(num(7)), give(num(1))]);
    let good = BackendOutcome {
        success: true,
        return_value: 1,
        trap_code: TrapCode::NoTrap,
        output: vec!["OUTPUT: 7".to_string()],
    };
    let silent = BackendOutcome { output: vec![], ..good.clone() };
    let report = compare_ast_oracle(
        &program,
        BackendComparisonReport {
            equivalent: true,
            runs: vec![
                executed("VM", good.clone()),
                executed("GC VM", silent),
                executed("Optimized VM", trapped(TrapCode::CycleLimit)),
                skipped("JIT", "no"),
            ],
        },
    );
    assert!(!report.equivalent);
    assert_eq!(
        report.mismatches,
        vec![
            "GC VM differs from AST oracle: success=true, return=1, trap=None, output=[] vs \
             success=true, return=1, trap=None, output=[\"OUTPUT: 7\"]",
            "Optimized VM differs from AST oracle: success=false, return=0, trap=CycleLimit, \
             output=[] vs success=true, return=1, trap=None, output=[\"OUTPUT: 7\"]",
        ]
    );
    assert_eq!(
        report.to_text("Backends\n"),
        "AST Oracle Comparison\n  status: mismatch\n  oracle: success=true, return=1, trap=None, \
         output=[\"OUTPUT: 7\"]\n\nBackends\n\nOracle Mismatches\n  GC VM differs from AST oracle: \
         success=true, return=1, trap=None, output=[] vs success=true, return=1, trap=None, \
         output=[\"OUTPUT: 7\"]\n  Optimized VM differs from AST oracle: success=false, return=0, \
         trap=CycleLimit, output=[] vs success=true, return=1, trap=None, output=[\"OUTPUT: 7\"]\n"
    );
}

#[test]
fn each_observation_alone_gives_a_mismatch() {
    let program = main_only(vec![give(num(1))]);
    let good = BackendOutcome {
        success: true,
        return_value: 1,
        trap_code: TrapCode::NoTrap,
        output: vec![],
    };
    let others = vec![
        BackendOutcome { success: false, ..good.clone() },
        BackendOutcome { return_value: 2, ..good.clone() },
        BackendOutcome { trap_code: TrapCode::StackOverflow, ..good.clone() },
        BackendOutcome { output: vec!["OUTPUT: 1".to_string()], ..good.clone() },
    ];
    for other in others {
        let runs = vec![executed("VM", other)];
        let report =
            compare_ast_oracle(&program, BackendComparisonReport { equivalent: true, runs });
        assert!(!report.equivalent);
        assert_eq!(report.mismatches.len(), 1);
    }
    let runs = vec![executed("VM", good)];
    let report = compare_ast_oracle(&program, BackendComparisonReport { equivalent: true, runs });
    assert!(report.equivalent && report.mismatches.is_empty());
}

#[test]
fn backends_that_disagree_are_not_equivalent() {
    let program = main_only(vec![give(num(1))]);
    let report =
        compare_ast_oracle(&program, BackendComparisonReport { equivalent: false, runs: vec![] });
    assert!(!report.equivalent);
    assert!(report.mismatches.is_empty());
    assert_eq!(
        report.to_text(""),
        "AST Oracle Comparison\n  status: mismatch\n  oracle: success=true, return=1, trap=None, \
         output=[]\n\n"
    );
}

#[test]
fn a_program_with_only_skipped_backends_is_equivalent() {
    let program = main_only(vec![give(num(1))]);
    let runs = vec![skipped("JIT", "no"), skipped("VM", "no")];
    let report = compare_ast_oracle(&program, BackendComparisonReport { equivalent: true, runs });
    assert!(report.equivalent);
}

#[test]
fn summaries_quote_and_escape_the_output() {
    let outcome = OracleOutcome {
        success: true,
        return_value: -4,
        trap_code: TrapCode::NoTrap,
        trap_message: String::new(),
        output: vec!["a \"b\"".to_string(), "c\n".to_string()],
    };
    assert_eq!(
        outcome.summary(),
        "success=true, return=-4, trap=None, output=[\"a \\\"b\\\"\", \"c\\n\"]"
    );
}

#[test]
fn arithmetic_wraps_to_words() {
    let max = i32::MAX;
    assert_eq!(outcome_of(binary(BinaryOp::Add, num(max), num(1))).return_value, -2147483648);
    assert_eq!(outcome_of(binary(BinaryOp::Sub, num(i32::MIN), num(1))).return_value, 2147483647);
    assert_eq!(outcome_of(binary(BinaryOp::Mul, num(65536), num(65536))).return_value, 0);
    assert_eq!(outcome_of(binary(BinaryOp::Mul, num(max), num(max))).return_value, 1);
    assert_eq!(outcome_of(unary(UnaryOp::Neg, num(i32::MIN))).return_value, -2147483648);
    assert_eq!(outcome_of(binary(BinaryOp::Div, num(i32::MIN), num(-1))).return_value, -2147483648);
}

#[test]
fn division_rounds_towards_zero() {
    assert_eq!(outcome_of(binary(BinaryOp::Div, num(7), num(2))).return_value, 3);
    assert_eq!(outcome_of(binary(BinaryOp::Div, num(-7), num(2))).return_value, -3);
    assert_eq!(outcome_of(binary(BinaryOp::Div, num(7), num(-2))).return_value, -3);
    assert_eq!(outcome_of(binary(BinaryOp::Div, num(-7), num(-2))).return_value, 3);
}

#[test]
fn comparisons_and_logic_give_zero_or_one() {
    let cases = vec![
        (BinaryOp::Eq, 3, 3, 1),
        (BinaryOp::Eq, 3, 4, 0),
        (BinaryOp::Ne, 3, 4, 1),
        (BinaryOp::Ne, 3, 3, 0),
        (BinaryOp::Lt, -1, 0, 1),
        (BinaryOp::Lt, 0, 0, 0),
        (BinaryOp::Gt, 1, 0, 1),
        (BinaryOp::Gt, 0, 0, 0),
        (BinaryOp::Le, 0, 0, 1),
        (BinaryOp::Le, 1, 0, 0),
        (BinaryOp::Ge, 0, 0, 1),
        (BinaryOp::Ge, -1, 0, 0),
        (BinaryOp::And, 5, 7, 1),
        (BinaryOp::And, 5, 0, 0),
        (BinaryOp::Or, 0, 9, 1),
        (BinaryOp::Or, 0, 0, 0),
    ];
    for (op, left, right, expected) in cases {
        assert_eq!(outcome_of(binary(op, num(left), num(right))).return_value, expected);
    }
    assert_eq!(outcome_of(unary(UnaryOp::Not, num(0))).return_value, 1);
    assert_eq!(outcome_of(unary(UnaryOp::Not, num(-3))).return_value, 0);
    assert_eq!(outcome_of(truth(true)).return_value, 1);
    assert_eq!(outcome_of(truth(false)).return_value, 0);
}

#[test]
fn logic_does_not_evaluate_what_does_not_matter() {
    let trap = || binary(BinaryOp::Div, num(1), num(0));
    assert_eq!(outcome_of(binary(BinaryOp::And, num(0), trap())).return_value, 0);
    assert!(outcome_of(binary(BinaryOp::And, num(0), trap())).success);
    assert_eq!(outcome_of(binary(BinaryOp::Or, num(2), trap())).return_value, 1);
    assert!(!outcome_of(binary(BinaryOp::And, num(1), trap())).success);
    assert!(!outcome_of(binary(BinaryOp::Or, num(0), trap())).success);
}

#[test]
fn a_function_without_return_gives_zero() {
    assert_eq!(run_ast_oracle(&main_only(vec![])).return_value, 0);
}

#[test]
fn loops_run_until_their_condition_fails() {
    let program = main_only(vec![
        declare("i", Some(num(0)), None),
        declare("sum", Some(num(0)), None),
        Stmt::While {
            condition: binary(BinaryOp::Lt, var("i"), num(5)),
            body: vec![
                set("i", binary(BinaryOp::Add, var("i"), num(1))),
                set("sum", binary(BinaryOp::Add, var("sum"), var("i"))),
                Stmt::If {
                    condition: binary(BinaryOp::Eq, var("i"), num(3)),
                    then_body: vec![print(var("sum"))],
                    else_body: Some(vec![Stmt::ExprStmt { expr: var("i") }]),
                },
            ],
        },
        give(var("sum")),
    ]);
    let outcome = run_ast_oracle(&program);
    assert_eq!(outcome.return_value, 15);
    assert_eq!(outcome.output, vec!["OUTPUT: 6"]);
}

#[test]
fn a_return_ends_the_loop_and_the_function() {
    let program = main_only(vec![
        Stmt::While { condition: truth(true), body: vec![give(num(9)), print(num(1))] },
        print(num(2)),
    ]);
    let outcome = run_ast_oracle(&program);
    assert_eq!(outcome.return_value, 9);
    assert!(outcome.output.is_empty());
}

#[test]
fn names_are_looked_up_through_all_active_calls() {
    let program = Program {
        globals: vec![global("v", Some(num(1)), None)],
        functions: vec![
            function("show", &[], vec![give(var("v"))]),
            function(
                "outer",
                &["v"],
                vec![give(call("show", vec![]))],
            ),
            function(
                "main",
                &[],
                vec![
                    print(call("show", vec![])),
                    print(call("outer", vec![num(5)])),
                    give(call("show", vec![])),
                ],
            ),
        ],
    };
    let outcome = run_ast_oracle(&program);
    assert_eq!(outcome.output, vec!["OUTPUT: 1", "OUTPUT: 5"]);
    assert_eq!(outcome.return_value, 1);
}

#[test]
fn a_declaration_of_a_known_name_sets_it() {
    let program = Program {
        globals: vec![global("g", Some(num(1)), None)],
        functions: vec![
            function("touch", &[], vec![declare("g", Some(num(8)), None)]),
            function(
                "main",
                &[],
                vec![Stmt::ExprStmt { expr: call("touch", vec![]) }, give(var("g"))],
            ),
        ],
    };
    assert_eq!(run_ast_oracle(&program).return_value, 8);

    let kept = main_only(vec![
        declare("x", Some(num(4)), None),
        declare("x", None, None),
        give(var("x")),
    ]);
    assert_eq!(run_ast_oracle(&kept).return_value, 4);

    let cleared = main_only(vec![
        declare("a", None, Some(2)),
        set_at("a", num(0), num(3)),
        declare("a", None, Some(2)),
        give(at("a", num(0))),
    ]);
    assert_eq!(run_ast_oracle(&cleared).return_value, 0);
}

#[test]
fn parameters_and_the_last_function_of_a_name_count() {
    let program = Program {
        globals: vec![],
        functions: vec![
            function("f", &["a"], vec![give(num(1))]),
            function("f", &["a", "a"], vec![give(var("a"))]),
            function("main", &[], vec![give(call("f", vec![num(3), num(4)]))]),
        ],
    };
    assert_eq!(run_ast_oracle(&program).return_value, 4);
}

#[test]
fn globals_are_initialised_in_source_order() {
    let program = Program {
        globals: vec![
            global("a", Some(num(2)), None),
            global("b", Some(binary(BinaryOp::Mul, var("a"), num(5))), None),
            global("z", None, None),
        ],
        functions: vec![function(
            "main",
            &[],
            vec![give(binary(BinaryOp::Add, var("b"), var("z")))],
        )],
    };
    assert_eq!(run_ast_oracle(&program).return_value, 10);
}

fn trap_of(program: &Program) -> (TrapCode, String) {
    let outcome = run_ast_oracle(program);
    assert!(!outcome.success);
    assert_eq!(outcome.return_value, 0);
    (outcome.trap_code, outcome.trap_message)
}

fn invalid(message: &str) -> (TrapCode, String) {
    (TrapCode::InvalidInstruction, message.to_string())
}

#[test]
fn every_trap_has_its_message() {
    assert_eq!(trap_of(&main_only(vec![give(var("q"))])), invalid("Undefined variable q"));
    assert_eq!(trap_of(&main_only(vec![set("q", num(1))])), invalid("Undefined variable q"));
    assert_eq!(
        trap_of(&main_only(vec![give(at("q", num(0)))])),
        invalid("Undefined variable q")
    );
    assert_eq!(
        trap_of(&main_only(vec![set_at("q", num(0), num(1))])),
        invalid("Undefined variable q")
    );
    assert_eq!(
        trap_of(&main_only(vec![declare("a", None, Some(2)), give(var("a"))])),
        invalid("Cannot use array a without index")
    );
    assert_eq!(
        trap_of(&main_only(vec![declare("a", None, Some(2)), set("a", num(1))])),
        invalid("Cannot assign array a without index")
    );
    assert_eq!(
        trap_of(&main_only(vec![declare("x", Some(num(1)), None), give(at("x", num(0)))])),
        invalid("Cannot index non-array x")
    );
    assert_eq!(
        trap_of(&main_only(vec![declare("x", Some(num(1)), None), set_at("x", num(0), num(1))])),
        invalid("Cannot index non-array x")
    );
    assert_eq!(
        trap_of(&main_only(vec![declare("a", None, Some(2)), give(at("a", num(2)))])),
        (TrapCode::ArrayOutOfBounds, "Array index 2 out of bounds (size 2)".to_string())
    );
    assert_eq!(
        trap_of(&main_only(vec![declare("a", None, Some(2)), set_at("a", num(5), num(0))])),
        (TrapCode::ArrayOutOfBounds, "Array index 5 out of bounds (size 2)".to_string())
    );
    assert_eq!(
        trap_of(&main_only(vec![declare("a", None, Some(2)), give(at("a", num(-1)))])),
        (TrapCode::ArrayOutOfBounds, "Array index -1 out of bounds".to_string())
    );
    assert_eq!(
        trap_of(&main_only(vec![give(call("f", vec![]))])),
        (TrapCode::UndefinedFunction, "Undefined function f".to_string())
    );
    assert_eq!(
        trap_of(&Program { globals: vec![], functions: vec![] }),
        (TrapCode::UndefinedFunction, "Undefined function main".to_string())
    );
    assert_eq!(
        trap_of(&Program {
            globals: vec![],
            functions: vec![
                function("f", &["a"], vec![]),
                function("main", &[], vec![give(call("f", vec![num(1), num(2)]))]),
            ],
        }),
        invalid("Call has 2 arguments but function f expects 1")
    );
    assert_eq!(
        trap_of(&Program {
            globals: vec![global("a", Some(num(1)), Some(2))],
            functions: vec![function("main", &[], vec![])],
        }),
        invalid("Cannot initialize array a as scalar")
    );
}

#[test]
fn what_was_printed_before_a_trap_is_kept() {
    let outcome = run_ast_oracle(&main_only(vec![
        print(num(1)),
        give(binary(BinaryOp::Div, num(1), num(0))),
    ]));
    assert_eq!(outcome.output, vec!["OUTPUT: 1"]);
}

#[test]
fn the_value_is_evaluated_before_the_index() {
    let outcome = run_ast_oracle(&main_only(vec![
        declare("a", None, Some(1)),
        set_at("a", num(9), binary(BinaryOp::Div, num(1), num(0))),
    ]));
    assert_eq!(outcome.trap_code, TrapCode::DivideByZero);
}

fn endless_recursion() -> Program {
    Program {
        globals: vec![],
        functions: vec![
            function("f", &[], vec![give(call("f", vec![]))]),
            function("main", &[], vec![give(call("f", vec![]))]),
        ],
    }
}

#[test]
fn calls_are_limited() {
    let limits = Limits { max_frames: 4, max_cycles: 1000 };
    let outcome = run_ast_oracle_within(&endless_recursion(), limits);
    assert_eq!(outcome.trap_code, TrapCode::StackOverflow);
    assert_eq!(outcome.trap_message, "Call stack overflow (max 4 frames)");

    let outcome = run_ast_oracle(&endless_recursion());
    assert_eq!(outcome.trap_code, TrapCode::StackOverflow);
    assert_eq!(
        outcome.trap_message,
        format!("Call stack overflow (max {} frames)", MAX_FRAMES)
    );
}

#[test]
fn steps_are_limited() {
    let endless = main_only(vec![Stmt::While { condition: truth(true), body: vec![] }]);
    let limits = Limits { max_frames: 4, max_cycles: 50 };
    let outcome = run_ast_oracle_within(&endless, limits);
    assert_eq!(outcome.trap_code, TrapCode::CycleLimit);
    assert_eq!(outcome.trap_message, "Cycle limit exceeded (50)");

    let outcome = run_ast_oracle(&endless);
    assert_eq!(outcome.trap_message, format!("Cycle limit exceeded ({})", MAX_CYCLES));
}

#[test]
fn every_statement_expression_and_call_counts_one_step() {
    // The call of main, the return statement and the literal.
    let program = main_only(vec![give(num(1))]);
    let within = |max_cycles: u64| {
        run_ast_oracle_within(&program, Limits { max_frames: 1, max_cycles }).success
    };
    assert!(!within(2));
    assert!(within(3));
}

#[test]
fn higher_limits_change_nothing() {
    let program = scalars_functions_and_arrays();
    let low = run_ast_oracle_within(&program, Limits { max_frames: 2, max_cycles: 100 });
    let high = run_ast_oracle_within(&program, Limits { max_frames: 50, max_cycles: 100_000 });
    assert!(low.success);
    assert_eq!(low, high);
    assert_eq!(low, run_ast_oracle(&program));
}

#[test]
fn variants_behave_as_the_program_does() {
    let plain = Program {
        globals: vec![global("g", Some(num(3)), None)],
        functions: vec![
            function(
                "fact",
                &["n"],
                vec![
                    Stmt::If {
                        condition: binary(BinaryOp::Le, var("n"), num(1)),
                        then_body: vec![give(num(1))],
                        else_body: Some(vec![print(var("n"))]),
                    },
                    give(binary(
                        BinaryOp::Mul,
                        var("n"),
                        call("fact", vec![binary(BinaryOp::Sub, var("n"), num(1))]),
                    )),
                ],
            ),
            function("main", &[], vec![give(call("fact", vec![var("g")]))]),
        ],
    };
    let plus_zero = |expr: Expr| binary(BinaryOp::Add, expr, num(0));
    let times_one = |expr: Expr| binary(BinaryOp::Mul, expr, num(1));
    let minus_zero = |expr: Expr| binary(BinaryOp::Sub, expr, num(0));
    let unused = || declare("spare", Some(num(77)), None);
    let dead = || Stmt::If {
        condition: truth(false),
        then_body: vec![print(num(13)), give(num(13))],
        else_body: None,
    };
    let variant = Program {
        globals: vec![global("g", Some(plus_zero(num(3))), None)],
        functions: vec![
            function(
                "fact",
                &["n"],
                vec![
                    unused(),
                    Stmt::If {
                        condition: unary(
                            UnaryOp::Not,
                            binary(BinaryOp::Le, times_one(var("n")), num(1)),
                        ),
                        then_body: vec![dead(), print(minus_zero(var("n")))],
                        else_body: Some(vec![give(num(1))]),
                    },
                    dead(),
                    give(binary(
                        BinaryOp::Mul,
                        var("n"),
                        plus_zero(call("fact", vec![binary(BinaryOp::Sub, var("n"), num(1))])),
                    )),
                ],
            ),
            function("main", &[], vec![unused(), give(call("fact", vec![var("g")]))]),
        ],
    };
    let outcome = run_ast_oracle(&plain);
    assert_eq!(outcome.return_value, 6);
    assert_eq!(outcome.output, vec!["OUTPUT: 3", "OUTPUT: 2"]);
    assert_eq!(run_ast_oracle(&variant), outcome);
}

#[test]
fn a_variant_may_run_out_of_steps_first() {
    let plain = main_only(vec![give(num(1))]);
    let padded = main_only(vec![declare("spare", Some(num(0)), None), give(num(1))]);
    let limits = Limits { max_frames: 1, max_cycles: 3 };
    assert!(run_ast_oracle_within(&plain, limits).success);
    assert_eq!(run_ast_oracle_within(&padded, limits).trap_code, TrapCode::CycleLimit);
}

#[test]
fn trap_codes_have_names() {
    let names = vec![
        (TrapCode::NoTrap, "None"),
        (TrapCode::DivideByZero, "DivideByZero"),
        (TrapCode::ArrayOutOfBounds, "ArrayOutOfBounds"),
        (TrapCode::StackOverflow, "StackOverflow"),
        (TrapCode::CycleLimit, "CycleLimit"),
        (TrapCode::UndefinedFunction, "UndefinedFunction"),
        (TrapCode::UndefinedLocal, "UndefinedLocal"),
        (TrapCode::InvalidInstruction, "InvalidInstruction"),
    ];
    for (code, name) in names {
        assert_eq!(code.name(), name);
    }
}

#[test]
fn a_loop_is_its_condition_its_body_and_the_loop() {
    let step = || set("i", binary(BinaryOp::Add, var("i"), num(1)));
    let condition = || binary(BinaryOp::Lt, var("i"), num(3));
    let plain = main_only(vec![
        declare("i", Some(num(0)), None),
        Stmt::While { condition: condition(), body: vec![step(), print(var("i"))] },
        give(var("i")),
    ]);
    let unfolded = main_only(vec![
        declare("i", Some(num(0)), None),
        Stmt::If {
            condition: condition(),
            then_body: vec![
                step(),
                print(var("i")),
                Stmt::While { condition: condition(), body: vec![step(), print(var("i"))] },
            ],
            else_body: None,
        },
        give(var("i")),
    ]);
    assert_eq!(run_ast_oracle(&plain), run_ast_oracle(&unfolded));
    assert_eq!(run_ast_oracle(&plain).return_value, 3);
}

#[test]
fn assignments_touch_nothing_else() {
    let program = main_only(vec![
        declare("a", None, Some(3)),
        declare("b", Some(num(5)), None),
        set_at("a", num(1), num(7)),
        print(at("a", num(0))),
        print(at("a", num(1))),
        print(at("a", num(2))),
        set("b", num(6)),
        print(at("a", num(1))),
        give(var("b")),
    ]);
    let outcome = run_ast_oracle(&program);
    assert_eq!(outcome.output, vec!["OUTPUT: 0", "OUTPUT: 7", "OUTPUT: 0", "OUTPUT: 7"]);
    assert_eq!(outcome.return_value, 6);
}

#[test]
fn a_block_opens_no_scope() {
    let inside = main_only(vec![
        Stmt::If {
            condition: truth(true),
            then_body: vec![declare("x", Some(num(4)), None), print(var("x"))],
            else_body: None,
        },
        give(var("x")),
    ]);
    let in_place = main_only(vec![
        declare("x", Some(num(4)), None),
        print(var("x")),
        give(var("x")),
    ]);
    assert_eq!(run_ast_oracle(&inside), run_ast_oracle(&in_place));
    assert_eq!(run_ast_oracle(&inside).return_value, 4);
}

#[test]
fn a_return_or_a_trap_ends_the_block() {
    let returned = run_ast_oracle(&main_only(vec![print(num(1)), give(num(2)), print(num(3))]));
    assert_eq!(returned.return_value, 2);
    assert_eq!(returned.output, vec!["OUTPUT: 1"]);
    let stopped = run_ast_oracle(&main_only(vec![
        print(num(1)),
        set("missing", num(0)),
        print(num(3)),
    ]));
    assert!(!stopped.success);
    assert_eq!(stopped.output, vec!["OUTPUT: 1"]);
}

#[test]
fn an_assigned_scalar_reads_back_as_a_word() {
    let program = Program {
        globals: vec![
            global("g", None, None),
            global("h", None, None),
            global("a", None, Some(2)),
        ],
        functions: vec![],
    };
    let mut oracle = AstOracle::new(&program, Limits::default());
    assert_eq!(oracle.assign_scalar("g", 0x1_0000_0005), Ok(()));
    assert_eq!(oracle.read_scalar("g"), Ok(5));
    assert_eq!(oracle.read_scalar("h"), Ok(0));
    assert_eq!(
        oracle.assign_scalar("a", 1),
        Err(invalid("Cannot assign array a without index"))
    );
    assert_eq!(oracle.assign_scalar("q", 1), Err(invalid("Undefined variable q")));
    assert_eq!(oracle.read_scalar("g"), Ok(5));
    assert_eq!(oracle.eval_expr(&unary(UnaryOp::Neg, num(i32::MIN))), Ok(-2147483648));
}

#[test]
fn a_block_runs_as_its_parts_in_turn() {
    let program = Program { globals: vec![global("g", None, None)], functions: vec![] };
    let first = || set("g", binary(BinaryOp::Add, var("g"), num(2)));
    let second = || set("g", binary(BinaryOp::Mul, var("g"), num(5)));

    let mut whole = AstOracle::new(&program, Limits::default());
    let mut parts = AstOracle::new(&program, Limits::default());
    assert!(matches!(whole.exec_block(&vec![first(), second()]), Ok(Control::Continue)));
    assert!(matches!(parts.exec_block(&vec![first()]), Ok(Control::Continue)));
    assert!(matches!(parts.exec_block(&vec![]), Ok(Control::Continue)));
    assert!(matches!(parts.exec_block(&vec![second()]), Ok(Control::Continue)));
    assert_eq!(whole.read_scalar("g"), Ok(10));
    assert_eq!(parts.read_scalar("g"), Ok(10));
    assert!(matches!(whole.exec_block(&vec![give(num(3)), first()]), Ok(Control::Return(3))));
    assert_eq!(whole.read_scalar("g"), Ok(10));
}
