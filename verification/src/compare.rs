//! The comparison of the interpreter with the executable backends.

use vstd::prelude::*;
use vstd::string::StringExecFns;

use crate::ast::Program;
use crate::oracle;
use crate::oracle::{OracleOutcome, OutcomeView, push_run_line, run_ast_oracle};
use crate::semantics;
use crate::semantics::Setting;
use crate::table::same_text;
use crate::text;
use crate::text::debug_strings;
use crate::trap::TrapCode;

verus! {

/// What can be observed of a program on one backend.
#[derive(Debug, Clone, PartialEq, Eq)]
pub struct BackendOutcome {
    pub success: bool,
    pub return_value: i64,
    pub trap_code: TrapCode,
    pub output: Vec<String>,
}

/// What became of a program on one backend.
#[derive(Debug, Clone, PartialEq, Eq)]
pub enum BackendRunStatus {
    Executed(BackendOutcome),
    /// The backend did not run the program, for the reason given.
    Skipped(String),
}

/// One backend, and what became of the program on it.
#[derive(Debug, Clone, PartialEq, Eq)]
pub struct BackendRun {
    pub name: String,
    pub status: BackendRunStatus,
}

/// What became of a program on every backend.
#[derive(Debug, Clone, PartialEq, Eq)]
pub struct BackendComparisonReport {
    /// Whether the backends that executed the program agree with each other.
    pub equivalent: bool,
    pub runs: Vec<BackendRun>,
}

/// The comparison of the interpreter with the backends.
#[derive(Debug, Clone, PartialEq, Eq)]
pub struct OracleComparisonReport {
    /// Whether the backends agree with each other and with the interpreter.
    pub equivalent: bool,
    pub oracle: OracleOutcome,
    pub backend_report: BackendComparisonReport,
    /// One line for every backend that executed the program otherwise than the interpreter.
    pub mismatches: Vec<String>,
}

/// Whether a backend shows what the interpreter shows: the same success, return value, trap code
/// and output.
pub open spec fn agrees(outcome: BackendOutcome, expected: OutcomeView) -> bool {
    &&& outcome.success == expected.success
    &&& outcome.return_value == expected.return_value
    &&& outcome.trap_code == expected.trap_code
    &&& text::texts(outcome.output@) == expected.output
}

/// Whether a backend executed the program otherwise than the interpreter.
pub open spec fn differs(run: BackendRun, expected: OutcomeView) -> bool {
    match run.status {
        BackendRunStatus::Executed(outcome) => !agrees(outcome, expected),
        BackendRunStatus::Skipped(_) => false,
    }
}

/// The line that reports how a backend differs.
pub open spec fn mismatch_line(
    name: Seq<char>,
    outcome: BackendOutcome,
    expected: OutcomeView,
) -> Seq<char> {
    name + " differs from AST oracle: "@ + oracle::run_line(
        outcome.success,
        outcome.return_value,
        outcome.trap_code,
        text::debug_list(text::texts(outcome.output@)),
    ) + " vs "@ + oracle::summary_line(expected)
}

/// One line for every run that differs, in the order of the runs.
pub open spec fn mismatch_lines(runs: Seq<BackendRun>, expected: OutcomeView) -> Seq<Seq<char>>
    decreases runs.len(),
{
    if runs.len() == 0 {
        Seq::empty()
    } else {
        let before = mismatch_lines(runs.drop_last(), expected);
        if differs(runs.last(), expected) {
            before.push(
                mismatch_line(runs.last().name@, runs.last().status->Executed_0, expected),
            )
        } else {
            before
        }
    }
}

/// The outcome of a program that runs within the standard bounds.
pub open spec fn expected_outcome(program: Program) -> OutcomeView {
    oracle::outcome_of(
        semantics::run(Setting { program, limits: crate::limits::standard_limits() }),
    )
}

/// Whether two lists hold the same texts.
fn same_texts(a: &Vec<String>, b: &Vec<String>) -> (r: bool)
    ensures
        r == (text::texts(a@) == text::texts(b@)),
{
    if a.len() != b.len() {
        assert(text::texts(a@).len() != text::texts(b@).len());
        return false;
    }
    let mut i: usize = 0;
    while i < a.len()
        invariant
            i <= a.len(),
            a.len() == b.len(),
            forall|j: int| 0 <= j < i ==> (#[trigger] a[j])@ == b[j]@,
        decreases a.len() - i,
    {
        if !same_text(a[i].as_str(), b[i].as_str()) {
            proof {
                assert(text::texts(a@)[i as int] != text::texts(b@)[i as int]);
            }
            return false;
        }
        i = i + 1;
    }
    assert(text::texts(a@) =~= text::texts(b@));
    true
}

/// Whether a backend shows what the interpreter shows.
fn shows(outcome: &BackendOutcome, expected: &OracleOutcome) -> (r: bool)
    ensures
        r == agrees(*outcome, expected@),
{
    outcome.success == expected.success && outcome.return_value == expected.return_value
        && outcome.trap_code == expected.trap_code && same_texts(
        &outcome.output,
        &expected.output,
    )
}

/// The lines that report how the backends differ from the interpreter.
pub fn backend_mismatches(runs: &Vec<BackendRun>, expected: &OracleOutcome) -> (r: Vec<String>)
    ensures
        text::texts(r@) == mismatch_lines(runs@, expected@),
{
    let mut mismatches: Vec<String> = Vec::new();
    let mut i: usize = 0;
    assert(text::texts(mismatches@) =~= Seq::empty());
    while i < runs.len()
        invariant
            i <= runs.len(),
            text::texts(mismatches@) == mismatch_lines(runs@.take(i as int), expected@),
        decreases runs.len() - i,
    {
        let run = &runs[i];
        let ghost before: Seq<Seq<char>> = text::texts(mismatches@);
        if let BackendRunStatus::Executed(outcome) = &run.status {
            if !shows(outcome, expected) {
                let mut line = run.name.clone();
                line.append(" differs from AST oracle: ");
                let printed = debug_strings(&outcome.output);
                push_run_line(
                    &mut line,
                    outcome.success,
                    outcome.return_value,
                    outcome.trap_code,
                    printed.as_str(),
                );
                line.append(" vs ");
                line.append(expected.summary().as_str());
                assert(line@ =~= mismatch_line(run.name@, *outcome, expected@));
                mismatches.push(line);
                assert(text::texts(mismatches@) =~= before.push(line@));
            }
        }
        i = i + 1;
        assert(runs@.take(i as int).drop_last() =~= runs@.take(i - 1));
        assert(runs@.take(i as int).last() == *run);
    }
    assert(runs@.take(i as int) =~= runs@);
    mismatches
}

/// Lists hold the same texts where they have the same length and the same text at every position.
proof fn lemma_same_lines(a: Seq<String>, b: Seq<String>)
    ensures
        text::texts(a) == text::texts(b) <==> a.len() == b.len() && forall|k: int|
            0 <= k < a.len() ==> (#[trigger] a[k])@ == b[k]@,
{
    let x = text::texts(a);
    let y = text::texts(b);
    assert(x.len() == a.len() && y.len() == b.len());
    if x == y {
        assert forall|k: int| 0 <= k < a.len() implies (#[trigger] a[k])@ == b[k]@ by {
            assert(x[k] == y[k]);
        }
    } else if a.len() == b.len() && forall|k: int|
        0 <= k < a.len() ==> (#[trigger] a[k])@ == b[k]@ {
        assert(x =~= y);
    }
}

/// Compares the interpreter with what the backends made of the same program.
pub fn compare_ast_oracle(
    program: &Program,
    backend_report: BackendComparisonReport,
) -> (r: OracleComparisonReport)
    ensures
        r.oracle@ == expected_outcome(*program),
        r.backend_report == backend_report,
        text::texts(r.mismatches@) == mismatch_lines(
            backend_report.runs@,
            expected_outcome(*program),
        ),
        r.equivalent == (backend_report.equivalent && forall|i: int|
            0 <= i < backend_report.runs.len() ==> !differs(
                #[trigger] backend_report.runs[i],
                expected_outcome(*program),
            )),
        r.equivalent <==> backend_report.equivalent && forall|i: int|
            0 <= i < backend_report.runs.len() ==> (
            (#[trigger] backend_report.runs[i]).status matches BackendRunStatus::Executed(shown)
                ==> {
                &&& shown.success == r.oracle.success
                &&& shown.return_value == r.oracle.return_value
                &&& shown.trap_code == r.oracle.trap_code
                &&& shown.output.len() == r.oracle.output.len()
                &&& forall|k: int|
                    0 <= k < shown.output.len() ==> (#[trigger] shown.output[k])@
                        == r.oracle.output[k]@
            }),
        r.mismatches.len() == 0 <==> forall|i: int|
            0 <= i < backend_report.runs.len() ==> (
            (#[trigger] backend_report.runs[i]).status matches BackendRunStatus::Executed(shown)
                ==> {
                &&& shown.success == r.oracle.success
                &&& shown.return_value == r.oracle.return_value
                &&& shown.trap_code == r.oracle.trap_code
                &&& shown.output.len() == r.oracle.output.len()
                &&& forall|k: int|
                    0 <= k < shown.output.len() ==> (#[trigger] shown.output[k])@
                        == r.oracle.output[k]@
            }),
{
    let oracle = run_ast_oracle(program);
    let mismatches = backend_mismatches(&backend_report.runs, &oracle);
    proof {
        lemma_no_mismatch(backend_report.runs@, oracle@);
        assert(text::texts(mismatches@).len() == mismatches.len());
        assert forall|i: int| 0 <= i < backend_report.runs.len() implies (differs(
            #[trigger] backend_report.runs[i],
            oracle@,
        ) <==> (backend_report.runs[i].status matches BackendRunStatus::Executed(shown) && !{
            &&& shown.success == oracle.success
            &&& shown.return_value == oracle.return_value
            &&& shown.trap_code == oracle.trap_code
            &&& shown.output.len() == oracle.output.len()
            &&& forall|k: int|
                0 <= k < shown.output.len() ==> (#[trigger] shown.output[k])@ == oracle.output[k]@
        })) by {
            if let BackendRunStatus::Executed(shown) = backend_report.runs[i].status {
                lemma_same_lines(shown.output@, oracle.output@);
            }
        }
    }
    OracleComparisonReport {
        equivalent: backend_report.equivalent && mismatches.len() == 0,
        oracle,
        backend_report,
        mismatches,
    }
}

/// There is no mismatch exactly where no run differs.
pub proof fn lemma_no_mismatch(runs: Seq<BackendRun>, expected: OutcomeView)
    ensures
        mismatch_lines(runs, expected).len() == 0 <==> forall|i: int|
            0 <= i < runs.len() ==> !differs(#[trigger] runs[i], expected),
    decreases runs.len(),
{
    if runs.len() > 0 {
        lemma_no_mismatch(runs.drop_last(), expected);
        assert forall|i: int| 0 <= i < runs.len() - 1 implies #[trigger] runs[i]
            == runs.drop_last()[i] by {}
        if mismatch_lines(runs, expected).len() == 0 {
            assert forall|i: int| 0 <= i < runs.len() implies !differs(
                #[trigger] runs[i],
                expected,
            ) by {
                if i < runs.len() - 1 {
                    assert(!differs(runs.drop_last()[i], expected));
                }
            }
        } else if !differs(runs.last(), expected) {
            let i = choose|i: int|
                0 <= i < runs.len() - 1 && differs(#[trigger] runs.drop_last()[i], expected);
            assert(differs(runs[i], expected));
        } else {
            assert(differs(runs[runs.len() - 1], expected));
        }
    }
}

/// The lines, each indented and ended.
pub open spec fn indented(lines: Seq<Seq<char>>) -> Seq<char>
    decreases lines.len(),
{
    if lines.len() == 0 {
        Seq::empty()
    } else {
        indented(lines.drop_last()) + "  "@ + lines.last() + "\n"@
    }
}

/// The comparison as a text; `backends` is the text of the report on the backends.
pub open spec fn comparison_text(
    equivalent: bool,
    outcome: OutcomeView,
    backends: Seq<char>,
    mismatches: Seq<Seq<char>>,
) -> Seq<char> {
    "AST Oracle Comparison\n"@ + "  status: "@ + (if equivalent {
        "equivalent"@
    } else {
        "mismatch"@
    }) + "\n"@ + "  oracle: "@ + oracle::summary_line(outcome) + "\n"@ + "\n"@ + backends + (
    if mismatches.len() == 0 {
        Seq::empty()
    } else {
        "\n"@ + "Oracle Mismatches\n"@ + indented(mismatches)
    })
}

impl OracleComparisonReport {
    /// The comparison as a text; `backends` is the text of the report on the backends.
    pub fn to_text(&self, backends: &str) -> (r: String)
        ensures
            r@ == comparison_text(
                self.equivalent,
                self.oracle@,
                backends@,
                text::texts(self.mismatches@),
            ),
    {
        let mut out = "AST Oracle Comparison\n".to_string();
        out.append("  status: ");
        if self.equivalent {
            out.append("equivalent");
        } else {
            out.append("mismatch");
        }
        out.append("\n");
        out.append("  oracle: ");
        out.append(self.oracle.summary().as_str());
        out.append("\n");
        out.append("\n");
        out.append(backends);
        let ghost lines: Seq<Seq<char>> = text::texts(self.mismatches@);
        if self.mismatches.len() > 0 {
            let ghost head: Seq<char> = out@;
            out.append("\n");
            out.append("Oracle Mismatches\n");
            let ghost start: Seq<char> = out@;
            let mut i: usize = 0;
            assert(start =~= start + indented(lines.take(0)));
            while i < self.mismatches.len()
                invariant
                    i <= self.mismatches.len(),
                    lines == text::texts(self.mismatches@),
                    out@ == start + indented(lines.take(i as int)),
                decreases self.mismatches.len() - i,
            {
                out.append("  ");
                out.append(self.mismatches[i].as_str());
                out.append("\n");
                i = i + 1;
                assert(lines.take(i as int).drop_last() =~= lines.take(i - 1));
                assert(out@ =~= start + indented(lines.take(i as int)));
            }
            assert(lines.take(i as int) =~= lines);
            assert(out@ =~= head + ("\n"@ + "Oracle Mismatches\n"@ + indented(lines)));
        }
        assert(out@ =~= comparison_text(self.equivalent, self.oracle@, backends@, lines));
        out
    }
}

/// Whether a backend ran the program.
pub open spec fn executed(run: BackendRun) -> bool {
    run.status is Executed
}

/// The runs of the backends that ran the program.
pub open spec fn executed_runs(runs: Seq<BackendRun>) -> Seq<BackendRun>
    decreases runs.len(),
{
    if runs.len() == 0 {
        Seq::empty()
    } else if executed(runs.last()) {
        executed_runs(runs.drop_last()).push(runs.last())
    } else {
        executed_runs(runs.drop_last())
    }
}

/// A backend that was skipped never disagrees: without the skipped ones the mismatches are the
/// same.
pub proof fn law_skipped_backends_do_not_count(runs: Seq<BackendRun>, expected: OutcomeView)
    ensures
        mismatch_lines(executed_runs(runs), expected) == mismatch_lines(runs, expected),
    decreases runs.len(),
{
    if runs.len() > 0 {
        law_skipped_backends_do_not_count(runs.drop_last(), expected);
        if executed(runs.last()) {
            assert(executed_runs(runs).drop_last() =~= executed_runs(runs.drop_last()));
        }
    }
}

/// Where no backend differs from the interpreter, any two backends that ran the program show the
/// same.
pub proof fn law_agreement_is_mutual(
    runs: Seq<BackendRun>,
    expected: OutcomeView,
    i: int,
    j: int,
)
    requires
        mismatch_lines(runs, expected).len() == 0,
        0 <= i < runs.len(),
        0 <= j < runs.len(),
    ensures
        match (runs[i].status, runs[j].status) {
            (BackendRunStatus::Executed(first), BackendRunStatus::Executed(second)) => {
                &&& first.success == second.success
                &&& first.return_value == second.return_value
                &&& first.trap_code == second.trap_code
                &&& text::texts(first.output@) == text::texts(second.output@)
            },
            _ => true,
        },
{
    lemma_no_mismatch(runs, expected);
    assert(!differs(runs[i], expected));
    assert(!differs(runs[j], expected));
}

} // verus!
