//! Laws of the evidence: what a comparison, an audit, a scan and a verdict say of what they were
//! made from, field by field.

use vstd::prelude::*;

use crate::artifacts;
use crate::artifacts::{BugArtifactEvidence, BugMuseumEvidence, MuseumDir, ScannedDir};
use crate::ast::Program;
use crate::compare;
use crate::compare::{BackendRun, BackendRunStatus};
use crate::coverage;
use crate::coverage::{CoverageDashboard, FeatureCoverageRow};
use crate::evidence;
use crate::evidence::{BackendCell, CorpusEvidence, CorpusFile, FrontEndError, SourceAudit};
use crate::fuzz;
use crate::fuzz::{FuzzCoverage, FuzzMode, FuzzReport, FuzzRunEvidence};
use crate::hash;
use crate::limits;
use crate::metadata;
use crate::opcode;
use crate::opcode::Opcode;
use crate::oracle;
use crate::oracle::{OracleOutcome, OutcomeView};
use crate::order;
use crate::order::Keyed;
use crate::report;
use crate::report::EvidenceSummary;
use crate::semantics;
use crate::semantics::Setting;
use crate::text;
use crate::trap;
use crate::trap::TrapCode;

verus! {

/// What is expected of the backends is what the interpreter shows within the standard bounds: its
/// value or its trap, and its output line by line.
pub proof fn law_the_interpreter_sets_the_expectation(program: Program)
    ensures
        ({
            let limits = limits::Limits {
                max_frames: limits::MAX_FRAMES,
                max_cycles: limits::MAX_CYCLES,
            };
            let (end, r) = semantics::run(Setting { program, limits });
            let expected = compare::expected_outcome(program);
            &&& expected.success <==> r is Ok
            &&& r matches Ok(value) ==> expected.return_value == value && expected.trap_code
                == TrapCode::NoTrap
            &&& r matches Err(trap) ==> expected.return_value == 0 && expected.trap_code == trap.0
            &&& expected.output == end.output
        }),
{
}

/// A backend differs exactly where it ran the program and its success, its value, its trap code,
/// the number of its lines or one of its lines is another than expected.
pub proof fn law_backends_are_compared_line_by_line(run: BackendRun, expected: OutcomeView)
    ensures
        run.status is Skipped ==> !compare::differs(run, expected),
        run.status matches BackendRunStatus::Executed(shown) ==> (compare::differs(run, expected)
            <==> {
            ||| shown.success != expected.success
            ||| shown.return_value != expected.return_value
            ||| shown.trap_code != expected.trap_code
            ||| shown.output.len() != expected.output.len()
            ||| exists|i: int|
                0 <= i < shown.output.len() && (#[trigger] shown.output[i])@ != expected.output[i]
        }),
{
    if let BackendRunStatus::Executed(shown) = run.status {
        let lines = text::texts(shown.output@);
        assert(lines.len() == shown.output.len());
        assert(forall|i: int| 0 <= i < lines.len() ==> #[trigger] lines[i] == shown.output[i]@);
        if !compare::differs(run, expected) {
            assert(forall|i: int|
                0 <= i < shown.output.len() ==> (#[trigger] shown.output[i])@ == lines[i]);
        } else if shown.output.len() == expected.output.len() && shown.success == expected.success
            && shown.return_value == expected.return_value && shown.trap_code
            == expected.trap_code {
            if forall|i: int|
                0 <= i < shown.output.len() ==> (#[trigger] shown.output[i])@
                    == expected.output[i] {
                assert(lines =~= expected.output);
            }
        }
    }
}

/// Whether `at` are the positions of the runs that differ, in order.
pub open spec fn are_differing(
    runs: Seq<BackendRun>,
    expected: OutcomeView,
    at: Seq<int>,
) -> bool {
    &&& forall|k: int, l: int| 0 <= k < l < at.len() ==> #[trigger] at[k] < #[trigger] at[l]
    &&& forall|k: int|
        0 <= k < at.len() ==> 0 <= #[trigger] at[k] < runs.len() && compare::differs(
            runs[at[k]],
            expected,
        )
    &&& forall|i: int|
        0 <= i < runs.len() && compare::differs(#[trigger] runs[i], expected) ==> at.contains(i)
}

/// There is one line for every backend that differs, in the order of the backends. It names the
/// backend, says what the backend showed, and what was expected.
pub proof fn law_every_difference_has_its_line(runs: Seq<BackendRun>, expected: OutcomeView)
    ensures
        exists|at: Seq<int>|
            {
                let lines = compare::mismatch_lines(runs, expected);
                &&& #[trigger] are_differing(runs, expected, at)
                &&& lines.len() == at.len()
                &&& forall|k: int|
                    0 <= k < at.len() ==> (
                    runs[#[trigger] at[k]].status matches BackendRunStatus::Executed(shown)
                        && lines[k] == runs[at[k]].name@ + " differs from AST oracle: "@
                        + shown_text(
                        shown.success,
                        shown.return_value,
                        shown.trap_code,
                        Seq::new(shown.output@.len(), |i: int| shown.output@[i]@),
                    ) + " vs "@ + shown_text(
                        expected.success,
                        expected.return_value,
                        expected.trap_code,
                        expected.output,
                    ))
            },
    decreases runs.len(),
{
    let lines = compare::mismatch_lines(runs, expected);
    if runs.len() == 0 {
        let at = Seq::<int>::empty();
        assert(are_differing(runs, expected, at));
    } else {
        let rest = runs.drop_last();
        let last = runs.len() - 1;
        let before = compare::mismatch_lines(rest, expected);
        law_every_difference_has_its_line(rest, expected);
        let at = choose|at: Seq<int>|
            {
                &&& #[trigger] are_differing(rest, expected, at)
                &&& before.len() == at.len()
                &&& forall|k: int|
                    0 <= k < at.len() ==> (
                    rest[#[trigger] at[k]].status matches BackendRunStatus::Executed(shown)
                        && before[k] == rest[at[k]].name@ + " differs from AST oracle: "@
                        + shown_text(
                        shown.success,
                        shown.return_value,
                        shown.trap_code,
                        Seq::new(shown.output@.len(), |i: int| shown.output@[i]@),
                    ) + " vs "@ + shown_text(
                        expected.success,
                        expected.return_value,
                        expected.trap_code,
                        expected.output,
                    ))
            };
        assert forall|k: int| 0 <= k < at.len() implies runs[#[trigger] at[k]] == rest[at[k]] by {}
        assert(runs[last] == runs.last());
        if compare::differs(runs.last(), expected) {
            let more = at.push(last);
            if let BackendRunStatus::Executed(shown) = runs.last().status {
                assert(text::texts(shown.output@) =~= Seq::new(
                    shown.output@.len(),
                    |i: int| shown.output@[i]@,
                ));
                lemma_shown_text(
                    shown.success,
                    shown.return_value,
                    shown.trap_code,
                    text::texts(shown.output@),
                );
                lemma_shown_text(
                    expected.success,
                    expected.return_value,
                    expected.trap_code,
                    expected.output,
                );
            }
            assert forall|i: int|
                0 <= i < runs.len() && compare::differs(
                    #[trigger] runs[i],
                    expected,
                ) implies more.contains(i) by {
                if i < last {
                    assert(compare::differs(rest[i], expected));
                    let k = choose|k: int| 0 <= k < at.len() && at[k] == i;
                    assert(more[k] == i);
                } else {
                    assert(more[at.len() as int] == last);
                }
            }
            assert(are_differing(runs, expected, more));
            assert forall|k: int| 0 <= k < more.len() implies (
            runs[#[trigger] more[k]].status matches BackendRunStatus::Executed(shown) && lines[k]
                == runs[more[k]].name@ + " differs from AST oracle: "@ + shown_text(
                shown.success,
                shown.return_value,
                shown.trap_code,
                Seq::new(shown.output@.len(), |i: int| shown.output@[i]@),
            ) + " vs "@ + shown_text(
                expected.success,
                expected.return_value,
                expected.trap_code,
                expected.output,
            )) by {
                if k < at.len() {
                    assert(more[k] == at[k]);
                    assert(lines[k] == before[k]);
                }
            }
        } else {
            assert forall|i: int|
                0 <= i < runs.len() && compare::differs(
                    #[trigger] runs[i],
                    expected,
                ) implies at.contains(i) by {
                assert(compare::differs(rest[i], expected));
            }
            assert(are_differing(runs, expected, at));
        }
    }
}

/// How an outcome is shown: success, value and trap, and the lines in their quoted notation.
pub open spec fn shown_text(
    success: bool,
    return_value: i64,
    trap_code: TrapCode,
    output: Seq<Seq<char>>,
) -> Seq<char> {
    "success="@ + (if success { "true"@ } else { "false"@ }) + ", return="@ + text::decimal(
        return_value as int,
    ) + ", trap="@ + trap::trap_name(trap_code) + ", output="@ + ("["@ + text::joined(
        Seq::new(output.len(), |i: int| text::debug_text(output[i])),
        ", "@,
    ) + "]"@)
}

proof fn lemma_shown_text(
    success: bool,
    return_value: i64,
    trap_code: TrapCode,
    output: Seq<Seq<char>>,
)
    ensures
        oracle::run_line(success, return_value, trap_code, text::debug_list(output))
            == shown_text(success, return_value, trap_code, output),
{
    assert(output.map_values(|s: Seq<char>| text::debug_text(s)) =~= Seq::new(
        output.len(),
        |i: int| text::debug_text(output[i]),
    ));
}

/// The summary of an outcome shows its success, value, trap and output.
pub proof fn law_summaries_show_the_outcome(outcome: OutcomeView)
    ensures
        oracle::summary_line(outcome) == shown_text(
            outcome.success,
            outcome.return_value,
            outcome.trap_code,
            outcome.output,
        ),
{
    lemma_shown_text(
        outcome.success,
        outcome.return_value,
        outcome.trap_code,
        outcome.output,
    );
}

/// A cell of the backend matrix has the name of the backend, whether it ran the program, and what
/// it showed or why it was skipped.
pub proof fn law_cells_describe_runs(cell: BackendCell, run: BackendRun)
    requires
        evidence::cell_view(cell) == evidence::cell_of(run),
    ensures
        cell.backend@ == run.name@,
        run.status matches BackendRunStatus::Executed(shown) ==> cell.status@ == "executed"@
            && cell.detail@ == "success="@ + (if shown.success { "true"@ } else { "false"@ })
            + ", return="@ + text::decimal(shown.return_value as int) + ", trap="@
            + trap::trap_name(shown.trap_code),
        run.status matches BackendRunStatus::Skipped(reason) ==> cell.status@ == "skipped"@
            && cell.detail@ == reason@,
{
}

/// A byte more changes the hash as FNV-1a does: the byte is mixed in by exclusive or, and the
/// result multiplied by the prime, in sixty-four bits.
pub proof fn law_the_hash_is_fnv1a(bytes: Seq<u8>, byte: u8)
    ensures
        hash::fnv1a(Seq::empty()) == 0xcbf2_9ce4_8422_2325u64,
        hash::fnv1a(bytes.push(byte)) as int == ((hash::fnv1a(bytes) ^ (byte as u64)) as int
            * 0x0000_0100_0000_01b3) % 0x1_0000_0000_0000_0000,
{
    assert(bytes.push(byte).drop_last() =~= bytes);
}

/// What the compiler says of a source that it rejects: that it does not parse and why, or all its
/// errors, one below the other.
pub proof fn law_rejections_are_explained(reason: String, errors: Vec<String>)
    ensures
        evidence::front_end_message(FrontEndError::Parse(reason)) == "parse failed: "@ + reason@,
        evidence::front_end_message(FrontEndError::Semantic(errors)) == text::joined(
            Seq::new(errors@.len(), |i: int| errors@[i]@),
            "\n"@,
        ),
{
    assert(text::texts(errors@) =~= Seq::new(errors@.len(), |i: int| errors@[i]@));
}

/// An entry of the corpus says of each check what that check found. A source that could not be read
/// or does not compile passes none, and says why. One that was checked has the outcome of every
/// check under its own name; it has no error exactly where all of them are good.
pub proof fn law_entries_report_each_check(
    entry: CorpusEvidence,
    path: Seq<char>,
    audit: SourceAudit,
)
    requires
        evidence::is_audit(entry, path, audit),
    ensures
        entry.path@ == path,
        audit matches SourceAudit::Unreadable(reason) ==> entry.source_hash == 0 && (
        entry.error matches Some(error) && error@ == "read failed: "@ + reason@),
        audit matches SourceAudit::Rejected { source, error } ==> entry.source_hash == hash::fnv1a(
            vstd::utf8::encode_utf8(source@),
        ) && (entry.error matches Some(text) && text@ == evidence::front_end_message(error)),
        !(audit is Checked) ==> {
            &&& !entry.compile_passed
            &&& !entry.verify_passed
            &&& !entry.oracle_equivalent
            &&& !entry.backend_equivalent
            &&& !entry.trace_replay_passed
            &&& !entry.trace_diff_passed
            &&& entry.trace_replay_fingerprint is None
            &&& entry.trace_diff_fingerprint is None
            &&& entry.backend_matrix.len() == 0
            &&& entry.opcode_kinds.len() == 0
        },
        audit matches SourceAudit::Checked { source, program, checks } ==> {
            &&& entry.source_hash == hash::fnv1a(vstd::utf8::encode_utf8(source@))
            &&& entry.compile_passed
            &&& entry.verify_passed <==> checks.verified
            &&& entry.backend_equivalent <==> checks.backends.equivalent
            &&& entry.trace_replay_passed <==> checks.replayable
            &&& entry.trace_diff_passed <==> checks.traces_equivalent
            &&& entry.oracle_equivalent <==> checks.backends.equivalent && forall|i: int|
                0 <= i < checks.backends.runs.len() ==> !compare::differs(
                    #[trigger] checks.backends.runs[i],
                    compare::expected_outcome(program),
                )
            &&& (entry.trace_replay_fingerprint matches Some(print) && print@
                == checks.replay_fingerprint@)
            &&& (entry.trace_diff_fingerprint matches Some(print) && print@
                == checks.trace_diff_fingerprint@)
            &&& entry.error is None <==> checks.verified && checks.backends.equivalent
                && checks.replayable && checks.traces_equivalent && entry.oracle_equivalent
            &&& (entry.error matches Some(error) ==> error@ == "one or more audit checks failed"@)
            &&& entry.backend_matrix.len() == checks.backends.runs.len()
            &&& forall|i: int|
                0 <= i < entry.backend_matrix.len() ==> evidence::cell_view(
                    #[trigger] entry.backend_matrix[i],
                ) == evidence::cell_of(checks.backends.runs[i])
        },
{
    if let SourceAudit::Checked { source, program, checks } = audit {
        let cells = entry.backend_matrix@.map_values(|cell: BackendCell| evidence::cell_view(cell));
        let runs = checks.backends.runs@.map_values(|run: BackendRun| evidence::cell_of(run));
        assert(cells.len() == entry.backend_matrix.len());
        assert(runs.len() == checks.backends.runs.len());
        assert forall|i: int| 0 <= i < entry.backend_matrix.len() implies evidence::cell_view(
            #[trigger] entry.backend_matrix[i],
        ) == evidence::cell_of(checks.backends.runs[i]) by {
            assert(cells[i] == runs[i]);
        }
    }
}

/// The kinds of instructions of a checked program are the names of the instructions that occur in
/// it, each once, in the order of the names.
pub proof fn law_entries_list_the_instructions(
    entry: CorpusEvidence,
    path: Seq<char>,
    audit: SourceAudit,
    opcode: Opcode,
)
    requires
        evidence::is_audit(entry, path, audit),
    ensures
        audit matches SourceAudit::Checked { source, program, checks } ==> {
            &&& checks.instructions@.contains(opcode) ==> exists|k: int|
                0 <= k < entry.opcode_kinds.len() && (#[trigger] entry.opcode_kinds[k])@
                    == opcode::name_of(opcode)
            &&& forall|k: int|
                0 <= k < entry.opcode_kinds.len() ==> exists|i: int|
                    0 <= i < checks.instructions.len() && (#[trigger] entry.opcode_kinds[k])@
                        == opcode::name_of(#[trigger] checks.instructions[i])
            &&& forall|k: int, l: int|
                0 <= k < l < entry.opcode_kinds.len() ==> order::text_le(
                    (#[trigger] entry.opcode_kinds[k])@,
                    (#[trigger] entry.opcode_kinds[l])@,
                ) && entry.opcode_kinds[k]@ != entry.opcode_kinds[l]@
        },
{
    if let SourceAudit::Checked { source, program, checks } = audit {
        let kinds = text::texts(entry.opcode_kinds@);
        let names = opcode::names_of(checks.instructions@);
        assert(kinds.len() == entry.opcode_kinds.len());
        assert(forall|k: int|
            0 <= k < kinds.len() ==> #[trigger] entry.opcode_kinds[k]@ == kinds[k]);
        if checks.instructions@.contains(opcode) {
            let i = choose|i: int|
                0 <= i < checks.instructions@.len() && checks.instructions@[i] == opcode;
            assert(names[i] == opcode::name_of(opcode));
            assert(names.to_set().contains(opcode::name_of(opcode)));
            assert(kinds.to_set().contains(opcode::name_of(opcode)));
            let k = choose|k: int| 0 <= k < kinds.len() && kinds[k] == opcode::name_of(opcode);
            assert(entry.opcode_kinds[k]@ == opcode::name_of(opcode));
        }
        assert forall|k: int| 0 <= k < entry.opcode_kinds.len() implies exists|i: int|
            0 <= i < checks.instructions.len() && (#[trigger] entry.opcode_kinds[k])@
                == opcode::name_of(#[trigger] checks.instructions[i]) by {
            let kind = kinds[k];
            assert(kinds.to_set().contains(kind));
            assert(names.to_set().contains(kind));
            let i = choose|i: int| 0 <= i < names.len() && names[i] == kind;
            assert(opcode::name_of(checks.instructions[i]) == kind);
        }
        assert forall|k: int, l: int| 0 <= k < l < entry.opcode_kinds.len() implies order::text_le(
            (#[trigger] entry.opcode_kinds[k])@,
            (#[trigger] entry.opcode_kinds[l])@,
        ) && entry.opcode_kinds[k]@ != entry.opcode_kinds[l]@ by {
            assert(order::text_lt(kinds[k], kinds[l]));
        }
    }
}

/// A report passes exactly where each program of the corpus compiled, was accepted by the verifier,
/// agrees with the interpreter and on all backends, and has traces that replay and do not differ;
/// each fuzz run succeeded; and each bug on record has its metadata, its description and its
/// source.
pub proof fn law_the_verdict(
    summary: EvidenceSummary,
    corpus: Seq<CorpusEvidence>,
    fuzz: Seq<FuzzRunEvidence>,
    artifacts: Seq<BugArtifactEvidence>,
    bug_museum: Seq<BugMuseumEvidence>,
)
    requires
        report::is_summary(summary, corpus, fuzz, artifacts, bug_museum),
    ensures
        summary.passed <==> {
            &&& forall|i: int|
                0 <= i < corpus.len() ==> {
                    &&& (#[trigger] corpus[i]).compile_passed
                    &&& corpus[i].verify_passed
                    &&& corpus[i].oracle_equivalent
                    &&& corpus[i].backend_equivalent
                    &&& corpus[i].trace_replay_passed
                    &&& corpus[i].trace_diff_passed
                }
            &&& forall|i: int| 0 <= i < fuzz.len() ==> (#[trigger] fuzz[i]).report.success
            &&& forall|i: int|
                0 <= i < bug_museum.len() ==> {
                    &&& (#[trigger] bug_museum[i]).has_metadata
                    &&& bug_museum[i].has_readme
                    &&& bug_museum[i].has_repro_source
                }
        },
{
    report::law_a_report_passes_where_everything_does(
        summary,
        corpus,
        fuzz,
        artifacts,
        bug_museum,
    );
    assert(forall|i: int|
        0 <= i < corpus.len() && evidence::entry_passed(#[trigger] corpus[i])
            ==> corpus[i].compile_passed);
}

/// The counts of a summary are those of the entries that they are named after.
pub proof fn law_the_counts_behind_the_verdict(
    summary: EvidenceSummary,
    corpus: Seq<CorpusEvidence>,
    fuzz: Seq<FuzzRunEvidence>,
    artifacts: Seq<BugArtifactEvidence>,
    bug_museum: Seq<BugMuseumEvidence>,
)
    requires
        report::is_summary(summary, corpus, fuzz, artifacts, bug_museum),
    ensures
        summary.corpus_files == corpus.len(),
        summary.fuzz_runs == fuzz.len(),
        summary.historical_artifacts == artifacts.len(),
        summary.bug_museum_entries == bug_museum.len(),
        summary.fuzz_cases_executed as int == fuzz.fold_left(
            0int,
            |sum: int, run: FuzzRunEvidence| sum + run.report.cases_executed,
        ),
        summary.corpus_failures == corpus.filter(
            |e: CorpusEvidence|
                !e.compile_passed || !e.verify_passed || !e.oracle_equivalent
                    || !e.backend_equivalent || !e.trace_replay_passed || !e.trace_diff_passed,
        ).len(),
        summary.backend_mismatches == corpus.filter(
            |e: CorpusEvidence| !e.backend_equivalent,
        ).len(),
        summary.oracle_mismatches == corpus.filter(|e: CorpusEvidence| !e.oracle_equivalent).len(),
        summary.trace_failures == corpus.filter(
            |e: CorpusEvidence| !e.trace_replay_passed || !e.trace_diff_passed,
        ).len(),
        summary.fuzz_failures == fuzz.filter(|run: FuzzRunEvidence| !run.report.success).len(),
        summary.bug_museum_incomplete == bug_museum.filter(
            |e: BugMuseumEvidence| !e.has_metadata || !e.has_readme || !e.has_repro_source,
        ).len(),
{
    assert((|e: CorpusEvidence|
        !e.compile_passed || !e.verify_passed || !e.oracle_equivalent || !e.backend_equivalent
            || !e.trace_replay_passed || !e.trace_diff_passed) =~= (|entry: CorpusEvidence|
        !evidence::entry_passed(entry)));
    assert((|e: BugMuseumEvidence| !e.has_metadata || !e.has_readme || !e.has_repro_source) =~= (|
        entry: BugMuseumEvidence,
    | !artifacts::complete(entry)));
    lemma_executed_total(fuzz);
}

proof fn lemma_executed_total(runs: Seq<FuzzRunEvidence>)
    ensures
        fuzz::executed_total(runs) == runs.fold_left(
            0int,
            |sum: int, run: FuzzRunEvidence| sum + run.report.cases_executed,
        ),
    decreases runs.len(),
{
    reveal(Seq::fold_left);
    if runs.len() > 0 {
        lemma_executed_total(runs.drop_last());
    }
}

/// A report passes only where every directory that documents a bug has all three of `metadata.txt`,
/// `README.md` and a source, `repro.lang` or `minimized.lang`.
pub proof fn law_a_report_needs_documented_bugs(
    summary: EvidenceSummary,
    corpus: Seq<CorpusEvidence>,
    fuzz: Seq<FuzzRunEvidence>,
    artifacts: Seq<BugArtifactEvidence>,
    bug_museum: Seq<BugMuseumEvidence>,
    dirs: Seq<MuseumDir>,
)
    requires
        report::is_summary(summary, corpus, fuzz, artifacts, bug_museum),
        artifacts::is_museum(bug_museum, dirs),
        summary.passed,
    ensures
        forall|i: int|
            0 <= i < dirs.len() && !(#[trigger] dirs[i]).is_root && (dirs[i].metadata is Some
                || dirs[i].has_readme || dirs[i].repro is Some || dirs[i].minimized is Some) ==> {
                &&& dirs[i].metadata is Some
                &&& dirs[i].has_readme
                &&& dirs[i].repro is Some || dirs[i].minimized is Some
            },
{
    law_the_verdict(summary, corpus, fuzz, artifacts, bug_museum);
    assert forall|i: int|
        0 <= i < dirs.len() && !(#[trigger] dirs[i]).is_root && (dirs[i].metadata is Some
            || dirs[i].has_readme || dirs[i].repro is Some || dirs[i].minimized is Some) implies {
        &&& dirs[i].metadata is Some
        &&& dirs[i].has_readme
        &&& dirs[i].repro is Some || dirs[i].minimized is Some
    } by {
        assert(artifacts::documents(dirs[i]));
        let record = artifacts::record_of(dirs[i]);
        artifacts::law_every_documented_bug_is_listed(bug_museum, dirs, record);
        let j = choose|j: int|
            0 <= j < artifacts::recorded(bug_museum).len() && artifacts::recorded(bug_museum)[j]
                == record;
        assert(bug_museum[j]@ == record);
        assert(bug_museum[j].has_metadata && bug_museum[j].has_readme
            && bug_museum[j].has_repro_source);
    }
}

/// What is recorded of a bug is what its directory holds: whether it has metadata, a description
/// and a source; the hash of `repro.lang`, or of `minimized.lang` where there is none; and what the
/// metadata say, `unspecified` where they say nothing.
pub proof fn law_records_are_read_from_the_directory(entry: BugMuseumEvidence, dir: MuseumDir)
    requires
        entry@ == artifacts::record_of(dir),
    ensures
        entry.path@ == dir.path@,
        entry.has_metadata <==> dir.metadata is Some,
        entry.has_readme <==> dir.has_readme,
        entry.has_repro_source <==> dir.repro is Some || dir.minimized is Some,
        dir.repro matches Some(source) ==> (entry.repro_source_hash matches Some(hash) && hash@
            == text::hex16(hash::fnv1a(vstd::utf8::encode_utf8(source@)))),
        dir.repro is None ==> (dir.minimized matches Some(source) ==> (
        entry.repro_source_hash matches Some(hash) && hash@ == text::hex16(
            hash::fnv1a(vstd::utf8::encode_utf8(source@)),
        ))),
        dir.repro is None && dir.minimized is None ==> entry.repro_source_hash is None,
        dir.metadata is None ==> {
            &&& entry.id@ == match dir.file_name {
                Some(name) => name@,
                None => dir.path@,
            }
            &&& entry.status@ == "unspecified"@
            &&& entry.expected@ == "unspecified"@
            &&& entry.proof_gate@ == "unspecified"@
        },
        dir.metadata matches Some(source) ==> {
            let fields = metadata::fields(metadata::lines(source@));
            &&& entry.id@ == if fields.contains_key("id"@) {
                fields["id"@]
            } else {
                match dir.file_name {
                    Some(name) => name@,
                    None => dir.path@,
                }
            }
            &&& fields.contains_key("status"@) && fields["status"@].len() > 0 ==> entry.status@
                == fields["status"@]
            &&& fields.contains_key("expected"@) && fields["expected"@].len() > 0
                ==> entry.expected@ == fields["expected"@]
            &&& fields.contains_key("proof_gate"@) && fields["proof_gate"@].len() > 0
                ==> entry.proof_gate@ == fields["proof_gate"@]
            &&& !(fields.contains_key("status"@) && fields["status"@].len() > 0) ==> entry.status@
                == "unspecified"@
            &&& !(fields.contains_key("expected"@) && fields["expected"@].len() > 0)
                ==> entry.expected@ == "unspecified"@
            &&& !(fields.contains_key("proof_gate"@) && fields["proof_gate"@].len() > 0)
                ==> entry.proof_gate@ == "unspecified"@
        },
{
    assert(entry@.path == entry.path@);
    assert(entry@.id == entry.id@);
    assert(entry@.repro_source_hash == artifacts::record_of(dir).repro_source_hash);
}

/// The museum holds what is recorded of every directory below its own that has metadata, a
/// description or a source, and of no other, in ascending order of the names.
pub proof fn law_the_museum_is_complete_and_sorted(
    entries: Seq<BugMuseumEvidence>,
    dirs: Seq<MuseumDir>,
)
    requires
        artifacts::is_museum(entries, dirs),
    ensures
        forall|i: int|
            0 <= i < dirs.len() && !dirs[i].is_root && (dirs[i].metadata is Some
                || dirs[i].has_readme || dirs[i].repro is Some || dirs[i].minimized is Some)
                ==> holds_record(entries, artifacts::record_of(#[trigger] dirs[i])),
        forall|j: int|
            0 <= j < entries.len() ==> exists|i: int|
                {
                    &&& 0 <= i < dirs.len()
                    &&& !(#[trigger] dirs[i]).is_root
                    &&& dirs[i].metadata is Some || dirs[i].has_readme || dirs[i].repro is Some
                        || dirs[i].minimized is Some
                    &&& (#[trigger] entries[j])@ == artifacts::record_of(dirs[i])
                },
        forall|i: int, j: int|
            0 <= i < j < entries.len() ==> order::text_le(
                (#[trigger] entries[i]).id@,
                (#[trigger] entries[j]).id@,
            ),
{
    let recorded = artifacts::recorded(entries);
    assert forall|i: int|
        0 <= i < dirs.len() && !dirs[i].is_root && (dirs[i].metadata is Some || dirs[i].has_readme
            || dirs[i].repro is Some || dirs[i].minimized is Some) implies holds_record(
        entries,
        artifacts::record_of(#[trigger] dirs[i]),
    ) by {
        assert(artifacts::documents(dirs[i]));
        let record = artifacts::record_of(dirs[i]);
        artifacts::law_every_documented_bug_is_listed(entries, dirs, record);
        let j = choose|j: int| 0 <= j < recorded.len() && recorded[j] == record;
        assert(entries[j]@ == record);
    }
    assert forall|j: int| 0 <= j < entries.len() implies exists|i: int|
        {
            &&& 0 <= i < dirs.len()
            &&& !(#[trigger] dirs[i]).is_root
            &&& dirs[i].metadata is Some || dirs[i].has_readme || dirs[i].repro is Some
                || dirs[i].minimized is Some
            &&& (#[trigger] entries[j])@ == artifacts::record_of(dirs[i])
        } by {
        assert(recorded[j] == entries[j]@);
        assert(recorded.contains(entries[j]@));
        artifacts::law_every_documented_bug_is_listed(entries, dirs, entries[j]@);
        let i = choose|i: int|
            0 <= i < dirs.len() && artifacts::documents(#[trigger] dirs[i])
                && artifacts::record_of(dirs[i]) == entries[j]@;
        assert(artifacts::documents(dirs[i]));
    }
    assert forall|i: int, j: int| 0 <= i < j < entries.len() implies order::text_le(
        (#[trigger] entries[i]).id@,
        (#[trigger] entries[j]).id@,
    ) by {
        assert(order::text_le(entries[i].key(), entries[j].key()));
    }
}

/// Whether one of the entries is a record.
pub open spec fn holds_record(
    entries: Seq<BugMuseumEvidence>,
    record: artifacts::MuseumRecord,
) -> bool {
    exists|j: int| 0 <= j < entries.len() && (#[trigger] entries[j])@ == record
}

/// The museum has as many entries as there are directories below its own with metadata, a
/// description or a source.
pub proof fn law_every_bug_is_listed_once(entries: Seq<BugMuseumEvidence>, dirs: Seq<MuseumDir>)
    requires
        artifacts::is_museum(entries, dirs),
    ensures
        entries.len() == dirs.filter(
            |dir: MuseumDir|
                !dir.is_root && (dir.metadata is Some || dir.has_readme || dir.repro is Some
                    || dir.minimized is Some),
        ).len(),
{
    artifacts::law_every_documented_bug_is_listed(entries, dirs, entries[0]@);
    lemma_record_count(dirs);
}

proof fn lemma_record_count(dirs: Seq<MuseumDir>)
    ensures
        artifacts::records_of(dirs).len() == dirs.filter(
            |dir: MuseumDir|
                !dir.is_root && (dir.metadata is Some || dir.has_readme || dir.repro is Some
                    || dir.minimized is Some),
        ).len(),
    decreases dirs.len(),
{
    reveal(Seq::filter);
    if dirs.len() > 0 {
        lemma_record_count(dirs.drop_last());
    }
}

/// An artifact of failed fuzz cases is a directory with a manifest or a minimized source. The scan
/// gives all of them, each with what it has, in ascending order of the paths.
pub proof fn law_artifacts_are_found_and_sorted(
    found: Seq<BugArtifactEvidence>,
    dirs: Seq<ScannedDir>,
)
    requires
        order::is_stable_sort(artifacts::artifacts_of(dirs), found),
    ensures
        found.len() == dirs.filter(
            |dir: ScannedDir| dir.has_manifest || dir.has_minimized_source,
        ).len(),
        forall|i: int|
            0 <= i < dirs.len() && ((#[trigger] dirs[i]).has_manifest
                || dirs[i].has_minimized_source) ==> found.contains(
                BugArtifactEvidence {
                    path: dirs[i].path,
                    has_manifest: dirs[i].has_manifest,
                    has_minimized_source: dirs[i].has_minimized_source,
                },
            ),
        forall|j: int| 0 <= j < found.len() ==> is_artifact_in(#[trigger] found[j], dirs),
        forall|i: int, j: int|
            0 <= i < j < found.len() ==> order::text_le(
                (#[trigger] found[i]).path@,
                (#[trigger] found[j]).path@,
            ),
{
    broadcast use vstd::seq_lib::group_to_multiset_ensures;

    let all = artifacts::artifacts_of(dirs);
    assert(all.len() == all.to_multiset().len());
    assert(found.len() == found.to_multiset().len());
    lemma_artifact_count(dirs);
    assert forall|i: int|
        0 <= i < dirs.len() && ((#[trigger] dirs[i]).has_manifest
            || dirs[i].has_minimized_source) implies found.contains(
        BugArtifactEvidence {
            path: dirs[i].path,
            has_manifest: dirs[i].has_manifest,
            has_minimized_source: dirs[i].has_minimized_source,
        },
    ) by {
        let artifact = BugArtifactEvidence {
            path: dirs[i].path,
            has_manifest: dirs[i].has_manifest,
            has_minimized_source: dirs[i].has_minimized_source,
        };
        lemma_artifact_is_there(dirs, i);
        assert(all.to_multiset().count(artifact) > 0);
        assert(found.to_multiset().count(artifact) > 0);
    }
    assert forall|j: int| 0 <= j < found.len() implies is_artifact_in(
        #[trigger] found[j],
        dirs,
    ) by {
        assert(found.contains(found[j]));
        assert(all.to_multiset().count(found[j]) > 0);
        assert(all.contains(found[j]));
        let k = choose|k: int| 0 <= k < all.len() && all[k] == found[j];
        lemma_artifact_comes_of(dirs, k);
    }
    assert forall|i: int, j: int| 0 <= i < j < found.len() implies order::text_le(
        (#[trigger] found[i]).path@,
        (#[trigger] found[j]).path@,
    ) by {
        assert(order::text_le(found[i].key(), found[j].key()));
    }
}

/// Whether an artifact is one of the directories, with what that directory has.
pub open spec fn is_artifact_in(artifact: BugArtifactEvidence, dirs: Seq<ScannedDir>) -> bool {
    exists|i: int|
        {
            &&& 0 <= i < dirs.len()
            &&& (#[trigger] dirs[i]).has_manifest || dirs[i].has_minimized_source
            &&& artifact.path@ == dirs[i].path@
            &&& artifact.has_manifest == dirs[i].has_manifest
            &&& artifact.has_minimized_source == dirs[i].has_minimized_source
        }
}

proof fn lemma_artifact_count(dirs: Seq<ScannedDir>)
    ensures
        artifacts::artifacts_of(dirs).len() == dirs.filter(
            |dir: ScannedDir| dir.has_manifest || dir.has_minimized_source,
        ).len(),
    decreases dirs.len(),
{
    reveal(Seq::filter);
    if dirs.len() > 0 {
        lemma_artifact_count(dirs.drop_last());
    }
}

proof fn lemma_artifact_is_there(dirs: Seq<ScannedDir>, i: int)
    requires
        0 <= i < dirs.len(),
        dirs[i].has_manifest || dirs[i].has_minimized_source,
    ensures
        artifacts::artifacts_of(dirs).contains(
            BugArtifactEvidence {
                path: dirs[i].path,
                has_manifest: dirs[i].has_manifest,
                has_minimized_source: dirs[i].has_minimized_source,
            },
        ),
    decreases dirs.len(),
{
    let all = artifacts::artifacts_of(dirs);
    let before = artifacts::artifacts_of(dirs.drop_last());
    let artifact = BugArtifactEvidence {
        path: dirs[i].path,
        has_manifest: dirs[i].has_manifest,
        has_minimized_source: dirs[i].has_minimized_source,
    };
    if i < dirs.len() - 1 {
        lemma_artifact_is_there(dirs.drop_last(), i);
        let k = choose|k: int| 0 <= k < before.len() && before[k] == artifact;
        assert(all[k] == artifact);
    } else {
        assert(all[before.len() as int] == artifact);
    }
}

proof fn lemma_artifact_comes_of(dirs: Seq<ScannedDir>, k: int)
    requires
        0 <= k < artifacts::artifacts_of(dirs).len(),
    ensures
        exists|i: int|
            {
                &&& 0 <= i < dirs.len()
                &&& (#[trigger] dirs[i]).has_manifest || dirs[i].has_minimized_source
                &&& artifacts::artifacts_of(dirs)[k].path@ == dirs[i].path@
                &&& artifacts::artifacts_of(dirs)[k].has_manifest == dirs[i].has_manifest
                &&& artifacts::artifacts_of(dirs)[k].has_minimized_source
                    == dirs[i].has_minimized_source
            },
    decreases dirs.len(),
{
    if dirs.len() > 0 {
        let rest = dirs.drop_last();
        let before = artifacts::artifacts_of(rest);
        if k < before.len() {
            lemma_artifact_comes_of(rest, k);
            let i = choose|i: int|
                {
                    &&& 0 <= i < rest.len()
                    &&& (#[trigger] rest[i]).has_manifest || rest[i].has_minimized_source
                    &&& before[k].path@ == rest[i].path@
                    &&& before[k].has_manifest == rest[i].has_manifest
                    &&& before[k].has_minimized_source == rest[i].has_minimized_source
                };
            assert(dirs[i] == rest[i]);
        } else {
            assert(dirs[dirs.len() - 1] == dirs.last());
        }
    }
}

/// The corpus is made of the files whose names are something followed by `.lang`: all of them, each
/// with its name and its position in the listing, in ascending order of the names, and of files
/// with the same name the one listed first comes first.
pub proof fn law_the_corpus_is_made_of_programs(files: Seq<CorpusFile>, names: Seq<String>)
    requires
        names.len() <= usize::MAX,
        order::is_stable_sort(evidence::program_files(names), files),
    ensures
        forall|j: int|
            0 <= j < files.len() ==> (#[trigger] files[j]).position < names.len() && files[j].name
                == names[files[j].position as int] && is_program(files[j].name@),
        forall|i: int|
            0 <= i < names.len() && is_program((#[trigger] names[i])@) ==> files.contains(
                CorpusFile { name: names[i], position: i as usize },
            ),
        files.len() == names.filter(|name: String| is_program(name@)).len(),
        forall|i: int, j: int|
            0 <= i < j < files.len() ==> order::text_le(
                (#[trigger] files[i]).name@,
                (#[trigger] files[j]).name@,
            ) && (files[i].name@ == files[j].name@ ==> files[i].position < files[j].position),
{
    broadcast use vstd::seq_lib::group_to_multiset_ensures;

    let all = evidence::program_files(names);
    assert(all.len() == all.to_multiset().len());
    assert(files.len() == files.to_multiset().len());
    lemma_program_files(names);
    assert forall|j: int| 0 <= j < files.len() implies (#[trigger] files[j]).position < names.len()
        && files[j].name == names[files[j].position as int] && is_program(files[j].name@) by {
        assert(files.contains(files[j]));
        assert(all.to_multiset().count(files[j]) > 0);
        assert(all.contains(files[j]));
        let k = choose|k: int| 0 <= k < all.len() && all[k] == files[j];
        assert(all[k].position < names.len());
    }
    assert forall|i: int| 0 <= i < names.len() && is_program((
    #[trigger] names[i])@) implies files.contains(
        CorpusFile { name: names[i], position: i as usize },
    ) by {
        let file = CorpusFile { name: names[i], position: i as usize };
        assert(all.contains(file));
        assert(all.to_multiset().count(file) > 0);
        assert(files.to_multiset().count(file) > 0);
    }
    assert forall|i: int, j: int| 0 <= i < j < files.len() implies order::text_le(
        (#[trigger] files[i]).name@,
        (#[trigger] files[j]).name@,
    ) && (files[i].name@ == files[j].name@ ==> files[i].position < files[j].position) by {
        assert(order::text_le(files[i].key(), files[j].key()));
        order::law_equals_keep_their_order(all, files, i, j);
    }
}

/// Whether a file name is something followed by `.lang`.
pub open spec fn is_program(name: Seq<char>) -> bool {
    exists|stem: Seq<char>| stem.len() > 0 && name == #[trigger] (stem + ".lang"@)
}

proof fn lemma_is_program(name: Seq<char>)
    ensures
        is_program(name) <==> evidence::is_program_name(name),
{
    reveal_strlit(".lang");
    let extension = seq!['.', 'l', 'a', 'n', 'g'];
    assert(".lang"@ =~= extension);
    if evidence::is_program_name(name) {
        let stem = name.take(name.len() - 5);
        assert(name =~= stem + ".lang"@);
    }
    if is_program(name) {
        let stem = choose|stem: Seq<char>| stem.len() > 0 && name == #[trigger] (stem + ".lang"@);
        assert(name.skip(name.len() - 5) =~= extension);
    }
}

proof fn lemma_program_files(names: Seq<String>)
    requires
        names.len() <= usize::MAX,
    ensures
        forall|k: int|
            0 <= k < evidence::program_files(names).len() ==> {
                let file = #[trigger] evidence::program_files(names)[k];
                file.position < names.len() && file.name == names[file.position as int]
                    && is_program(file.name@)
            },
        forall|i: int|
            0 <= i < names.len() && is_program((#[trigger] names[i])@) ==> evidence::program_files(
                names,
            ).contains(CorpusFile { name: names[i], position: i as usize }),
        evidence::program_files(names).len() == names.filter(
            |name: String| is_program(name@),
        ).len(),
        forall|a: int, b: int|
            0 <= a < b < evidence::program_files(names).len() ==> (
            #[trigger] evidence::program_files(names)[a]).position < (
            #[trigger] evidence::program_files(names)[b]).position,
    decreases names.len(),
{
    reveal(Seq::filter);
    if names.len() > 0 {
        let rest = names.drop_last();
        let last = names.len() - 1;
        let before = evidence::program_files(rest);
        let all = evidence::program_files(names);
        lemma_program_files(rest);
        lemma_is_program(names.last()@);
        assert forall|k: int| 0 <= k < all.len() implies {
            let file = #[trigger] all[k];
            file.position < names.len() && file.name == names[file.position as int] && is_program(
                file.name@,
            )
        } by {
            if k < before.len() {
                assert(all[k] == before[k]);
                assert(before[k].position < rest.len());
            }
        }
        assert forall|i: int| 0 <= i < names.len() && is_program((
        #[trigger] names[i])@) implies all.contains(
            CorpusFile { name: names[i], position: i as usize },
        ) by {
            let file = CorpusFile { name: names[i], position: i as usize };
            if i < last {
                assert(rest[i] == names[i]);
                assert(before.contains(file));
                let k = choose|k: int| 0 <= k < before.len() && before[k] == file;
                assert(all[k] == file);
            } else {
                assert(all[before.len() as int] == file);
            }
        }
    }
}

/// The fuzz matrix goes through the modes in order, and for each mode through the seeds in order.
pub proof fn law_the_fuzz_matrix_is_in_order(
    modes: Seq<FuzzMode>,
    seeds: Seq<u64>,
    i: int,
    j: int,
)
    requires
        0 <= i < modes.len(),
        0 <= j < seeds.len(),
    ensures
        0 <= i * seeds.len() + j < fuzz::fuzz_plan(modes, seeds).len(),
        fuzz::fuzz_plan(modes, seeds)[i * seeds.len() + j] == (modes[i], seeds[j]),
    decreases modes.len(),
{
    let n: int = seeds.len() as int;
    let rest = modes.drop_last();
    fuzz::law_the_fuzz_matrix_is_complete(modes, seeds);
    fuzz::law_the_fuzz_matrix_is_complete(rest, seeds);
    assert(rest.len() * n == (modes.len() - 1) * n);
    assert(0 <= i * n && i * n + j < modes.len() * n) by (nonlinear_arith)
        requires
            0 <= i < modes.len(),
            0 <= j < n,
    ;
    if i < modes.len() - 1 {
        law_the_fuzz_matrix_is_in_order(rest, seeds, i, j);
    } else {
        assert(i * n == rest.len() * n);
    }
}

/// A job asks for the mode, the seed and the number of cases that it was planned with, and keeps
/// its artifacts in a directory named after both.
pub proof fn law_jobs_ask_for_what_was_planned(
    job: fuzz::FuzzJob,
    mode: FuzzMode,
    seed: u64,
    cases: usize,
)
    requires
        fuzz::is_job(job, mode, seed, cases),
    ensures
        job.mode == mode,
        job.seed == seed,
        job.cases == cases,
        job.artifact_path.len() == 2,
        job.artifact_path[0]@ == "fuzz-artifacts"@,
        job.artifact_path[1]@ == (match mode {
            FuzzMode::General => "general"@,
            FuzzMode::OptimizerStress => "optimizer-stress"@,
        }) + "-"@ + text::hex16(seed),
{
    let path = text::texts(job.artifact_path@);
    assert(path.len() == job.artifact_path.len());
    assert(path[0] == job.artifact_path[0]@);
    assert(path[1] == job.artifact_path[1]@);
}

/// Every planned run has its own mode, seed and report.
pub proof fn law_runs_have_their_reports(
    plan: Seq<(FuzzMode, u64)>,
    reports: Seq<FuzzReport>,
    i: int,
)
    requires
        0 <= i < plan.len(),
    ensures
        fuzz::runs_of(plan, reports).len() == plan.len(),
        fuzz::runs_of(plan, reports)[i].mode == plan[i].0,
        fuzz::runs_of(plan, reports)[i].seed == plan[i].1,
        fuzz::runs_of(plan, reports)[i].report == reports[i],
{
}

/// What a directory gives is what was found in it, and nothing where there is none.
pub proof fn law_directories_give_what_is_there<T>(items: Vec<T>)
    ensures
        report::found(Some(items)) == items@,
        report::found(None::<Vec<T>>).len() == 0,
{
}

/// The dashboard of a single fuzz run has the counts of that run.
pub proof fn law_the_dashboard_of_one_run(
    dashboard: CoverageDashboard,
    corpus: Set<Seq<char>>,
    run: FuzzRunEvidence,
)
    requires
        coverage::is_dashboard(dashboard, corpus, seq![run]),
    ensures
        ({
            let c = run.report.coverage;
            let rows = dashboard.feature_rows@;
            &&& dashboard.fuzz_cases == c.cases
            &&& dashboard.oracle_comparisons == c.oracle_comparisons
            &&& dashboard.metamorphic_variants == c.metamorphic_variants
            &&& rows.len() == 22
            &&& is_row(rows[0], "coverage-guided selected cases"@, c.coverage_guided_cases, c.cases)
            &&& is_row(rows[1], "optimizer stress cases"@, c.optimizer_stress_cases, c.cases)
            &&& is_row(rows[2], "helper functions"@, c.helper_functions, c.cases)
            &&& is_row(rows[3], "helper calls"@, c.helper_calls, c.cases)
            &&& is_row(rows[4], "branches"@, c.branches, c.cases)
            &&& is_row(rows[5], "loops"@, c.loops, c.cases)
            &&& is_row(rows[6], "print statements"@, c.prints, c.cases)
            &&& is_row(rows[7], "global array reads"@, c.global_array_reads, c.cases)
            &&& is_row(rows[8], "global array writes"@, c.global_array_writes, c.cases)
            &&& is_row(rows[9], "local array reads"@, c.local_array_reads, c.cases)
            &&& is_row(rows[10], "local array writes"@, c.local_array_writes, c.cases)
            &&& is_row(
                rows[11],
                "loop-indexed array writes"@,
                c.loop_indexed_array_writes,
                c.cases,
            )
            &&& is_row(
                rows[12],
                "helper/array interactions"@,
                c.helper_array_interactions,
                c.cases,
            )
            &&& is_row(rows[13], "constant-fold patterns"@, c.constant_fold_patterns, c.cases)
            &&& is_row(rows[14], "dead-code shapes"@, c.dead_code_shapes, c.cases)
            &&& is_row(
                rows[15],
                "metamorphic return-neutral variants"@,
                c.metamorphic_return_neutral,
                c.metamorphic_variants,
            )
            &&& is_row(
                rows[16],
                "metamorphic dead-branch variants"@,
                c.metamorphic_dead_branch,
                c.metamorphic_variants,
            )
            &&& is_row(
                rows[17],
                "metamorphic unused-local variants"@,
                c.metamorphic_unused_local,
                c.metamorphic_variants,
            )
            &&& is_row(
                rows[18],
                "metamorphic algebraic-neutral variants"@,
                c.metamorphic_algebraic_neutral,
                c.metamorphic_variants,
            )
            &&& is_row(
                rows[19],
                "metamorphic branch-inversion variants"@,
                c.metamorphic_branch_inversion,
                c.metamorphic_variants,
            )
            &&& is_row(
                rows[20],
                "metamorphic helper-wrapping variants"@,
                c.metamorphic_helper_wrapping,
                c.metamorphic_variants,
            )
            &&& is_row(
                rows[21],
                "metamorphic statement-reordering variants"@,
                c.metamorphic_statement_reordering,
                c.metamorphic_variants,
            )
        }),
{
    let sum = choose|sum: FuzzCoverage|
        {
            &&& #[trigger] fuzz::is_sum(sum, seq![run])
            &&& dashboard.fuzz_cases == sum.cases
            &&& dashboard.oracle_comparisons == sum.oracle_comparisons
            &&& dashboard.metamorphic_variants == sum.metamorphic_variants
            &&& coverage::feature_views(dashboard.feature_rows@) == coverage::feature_table(sum)
        };
    assert forall|k: int| 0 <= k < 25 implies #[trigger] fuzz::counters(sum)[k] == fuzz::counters(
        run.report.coverage,
    )[k] by {
        lemma_one_run(run, k);
    }
    assert(fuzz::counters(sum) =~= fuzz::counters(run.report.coverage));
    lemma_same_counters(sum, run.report.coverage);
    let views = coverage::feature_views(dashboard.feature_rows@);
    assert(views.len() == dashboard.feature_rows@.len());
    assert(forall|i: int|
        0 <= i < views.len() ==> #[trigger] dashboard.feature_rows@[i].feature@ == views[i].0
            && dashboard.feature_rows@[i].cases == views[i].1
            && dashboard.feature_rows@[i].total_cases == views[i].2);
}

/// Whether a row has this feature and these counts.
pub open spec fn is_row(
    row: FeatureCoverageRow,
    feature: Seq<char>,
    cases: usize,
    total: usize,
) -> bool {
    row.feature@ == feature && row.cases == cases && row.total_cases == total
}

proof fn lemma_one_run(run: FuzzRunEvidence, k: int)
    ensures
        fuzz::counter_total(seq![run], k) == fuzz::counters(run.report.coverage)[k],
{
    let runs = seq![run];
    assert(runs.drop_last() =~= Seq::empty());
    assert(fuzz::counter_total(Seq::empty(), k) == 0);
}

proof fn lemma_same_counters(a: FuzzCoverage, b: FuzzCoverage)
    requires
        fuzz::counters(a) == fuzz::counters(b),
    ensures
        coverage::feature_table(a) == coverage::feature_table(b),
        a.cases == b.cases,
        a.oracle_comparisons == b.oracle_comparisons,
        a.metamorphic_variants == b.metamorphic_variants,
{
    let x = fuzz::counters(a);
    let y = fuzz::counters(b);
    assert(x[0] == y[0] && x[1] == y[1] && x[2] == y[2] && x[3] == y[3] && x[4] == y[4]);
    assert(x[5] == y[5] && x[6] == y[6] && x[7] == y[7] && x[8] == y[8] && x[9] == y[9]);
    assert(x[10] == y[10] && x[11] == y[11] && x[12] == y[12] && x[13] == y[13] && x[14] == y[14]);
    assert(x[15] == y[15] && x[16] == y[16] && x[17] == y[17] && x[18] == y[18] && x[19] == y[19]);
    assert(x[20] == y[20] && x[21] == y[21] && x[22] == y[22] && x[23] == y[23] && x[24] == y[24]);
}

/// The counts of a dashboard add up over the fuzz runs: those of two groups of runs, row by row,
/// make those of both together.
pub proof fn law_dashboards_add_up(
    whole: CoverageDashboard,
    one: CoverageDashboard,
    two: CoverageDashboard,
    corpus: Set<Seq<char>>,
    first: Seq<FuzzRunEvidence>,
    second: Seq<FuzzRunEvidence>,
)
    requires
        coverage::is_dashboard(whole, corpus, first + second),
        coverage::is_dashboard(one, corpus, first),
        coverage::is_dashboard(two, corpus, second),
    ensures
        whole.fuzz_cases == one.fuzz_cases + two.fuzz_cases,
        whole.oracle_comparisons == one.oracle_comparisons + two.oracle_comparisons,
        whole.metamorphic_variants == one.metamorphic_variants + two.metamorphic_variants,
        whole.feature_rows.len() == 22 && one.feature_rows.len() == 22 && two.feature_rows.len()
            == 22,
        forall|i: int|
            0 <= i < 22 ==> {
                let row = #[trigger] whole.feature_rows[i];
                &&& row.feature@ == one.feature_rows[i].feature@
                &&& row.feature@ == two.feature_rows[i].feature@
                &&& row.cases == one.feature_rows[i].cases + two.feature_rows[i].cases
                &&& row.total_cases == one.feature_rows[i].total_cases
                    + two.feature_rows[i].total_cases
            },
{
    let c = lemma_summed(whole, corpus, first + second);
    let a = lemma_summed(one, corpus, first);
    let b = lemma_summed(two, corpus, second);
    assert forall|k: int| 0 <= k < 25 implies #[trigger] fuzz::counters(c)[k] == fuzz::counters(
        a,
    )[k] + fuzz::counters(b)[k] by {
        fuzz::law_totals_add_up(first, second, k);
        assert(fuzz::counters(c)[k] == fuzz::counter_total(first + second, k));
        assert(fuzz::counters(a)[k] == fuzz::counter_total(first, k));
        assert(fuzz::counters(b)[k] == fuzz::counter_total(second, k));
    }
    lemma_added_counters(a, b, c);
    let x = coverage::feature_views(whole.feature_rows@);
    let y = coverage::feature_views(one.feature_rows@);
    let z = coverage::feature_views(two.feature_rows@);
    assert(x.len() == whole.feature_rows@.len() && y.len() == one.feature_rows@.len() && z.len()
        == two.feature_rows@.len());
    assert forall|i: int| 0 <= i < 22 implies {
        let row = #[trigger] whole.feature_rows[i];
        &&& row.feature@ == one.feature_rows[i].feature@
        &&& row.feature@ == two.feature_rows[i].feature@
        &&& row.cases == one.feature_rows[i].cases + two.feature_rows[i].cases
        &&& row.total_cases == one.feature_rows[i].total_cases + two.feature_rows[i].total_cases
    } by {
        let ghost row = whole.feature_rows[i];
        assert(x[i] == (row.feature@, row.cases, row.total_cases));
        assert(y[i] == (
            one.feature_rows[i].feature@,
            one.feature_rows[i].cases,
            one.feature_rows[i].total_cases,
        ));
        assert(z[i] == (
            two.feature_rows[i].feature@,
            two.feature_rows[i].cases,
            two.feature_rows[i].total_cases,
        ));
    }
}

/// The coverage that a dashboard was made from.
proof fn lemma_summed(
    dashboard: CoverageDashboard,
    corpus: Set<Seq<char>>,
    runs: Seq<FuzzRunEvidence>,
) -> (sum: FuzzCoverage)
    requires
        coverage::is_dashboard(dashboard, corpus, runs),
    ensures
        fuzz::is_sum(sum, runs),
        dashboard.fuzz_cases == sum.cases,
        dashboard.oracle_comparisons == sum.oracle_comparisons,
        dashboard.metamorphic_variants == sum.metamorphic_variants,
        coverage::feature_views(dashboard.feature_rows@) == coverage::feature_table(sum),
{
    choose|sum: FuzzCoverage|
        {
            &&& #[trigger] fuzz::is_sum(sum, runs)
            &&& dashboard.fuzz_cases == sum.cases
            &&& dashboard.oracle_comparisons == sum.oracle_comparisons
            &&& dashboard.metamorphic_variants == sum.metamorphic_variants
            &&& coverage::feature_views(dashboard.feature_rows@) == coverage::feature_table(sum)
        }
}

proof fn lemma_added_counters(a: FuzzCoverage, b: FuzzCoverage, c: FuzzCoverage)
    requires
        forall|k: int|
            0 <= k < 25 ==> #[trigger] fuzz::counters(c)[k] == fuzz::counters(a)[k]
                + fuzz::counters(b)[k],
    ensures
        c.cases == a.cases + b.cases,
        c.coverage_guided_cases == a.coverage_guided_cases + b.coverage_guided_cases,
        c.oracle_comparisons == a.oracle_comparisons + b.oracle_comparisons,
        c.metamorphic_variants == a.metamorphic_variants + b.metamorphic_variants,
        c.metamorphic_return_neutral == a.metamorphic_return_neutral + b.metamorphic_return_neutral,
        c.metamorphic_dead_branch == a.metamorphic_dead_branch + b.metamorphic_dead_branch,
        c.metamorphic_unused_local == a.metamorphic_unused_local + b.metamorphic_unused_local,
        c.metamorphic_algebraic_neutral == a.metamorphic_algebraic_neutral
            + b.metamorphic_algebraic_neutral,
        c.metamorphic_branch_inversion == a.metamorphic_branch_inversion
            + b.metamorphic_branch_inversion,
        c.metamorphic_helper_wrapping == a.metamorphic_helper_wrapping
            + b.metamorphic_helper_wrapping,
        c.metamorphic_statement_reordering == a.metamorphic_statement_reordering
            + b.metamorphic_statement_reordering,
        c.optimizer_stress_cases == a.optimizer_stress_cases + b.optimizer_stress_cases,
        c.helper_functions == a.helper_functions + b.helper_functions,
        c.helper_calls == a.helper_calls + b.helper_calls,
        c.branches == a.branches + b.branches,
        c.loops == a.loops + b.loops,
        c.prints == a.prints + b.prints,
        c.global_array_reads == a.global_array_reads + b.global_array_reads,
        c.global_array_writes == a.global_array_writes + b.global_array_writes,
        c.local_array_reads == a.local_array_reads + b.local_array_reads,
        c.local_array_writes == a.local_array_writes + b.local_array_writes,
        c.loop_indexed_array_writes == a.loop_indexed_array_writes + b.loop_indexed_array_writes,
        c.helper_array_interactions == a.helper_array_interactions + b.helper_array_interactions,
        c.constant_fold_patterns == a.constant_fold_patterns + b.constant_fold_patterns,
        c.dead_code_shapes == a.dead_code_shapes + b.dead_code_shapes,
{
    assert(fuzz::counters(c)[0] == fuzz::counters(a)[0] + fuzz::counters(b)[0]);
    assert(fuzz::counters(c)[1] == fuzz::counters(a)[1] + fuzz::counters(b)[1]);
    assert(fuzz::counters(c)[2] == fuzz::counters(a)[2] + fuzz::counters(b)[2]);
    assert(fuzz::counters(c)[3] == fuzz::counters(a)[3] + fuzz::counters(b)[3]);
    assert(fuzz::counters(c)[4] == fuzz::counters(a)[4] + fuzz::counters(b)[4]);
    assert(fuzz::counters(c)[5] == fuzz::counters(a)[5] + fuzz::counters(b)[5]);
    assert(fuzz::counters(c)[6] == fuzz::counters(a)[6] + fuzz::counters(b)[6]);
    assert(fuzz::counters(c)[7] == fuzz::counters(a)[7] + fuzz::counters(b)[7]);
    assert(fuzz::counters(c)[8] == fuzz::counters(a)[8] + fuzz::counters(b)[8]);
    assert(fuzz::counters(c)[9] == fuzz::counters(a)[9] + fuzz::counters(b)[9]);
    assert(fuzz::counters(c)[10] == fuzz::counters(a)[10] + fuzz::counters(b)[10]);
    assert(fuzz::counters(c)[11] == fuzz::counters(a)[11] + fuzz::counters(b)[11]);
    assert(fuzz::counters(c)[12] == fuzz::counters(a)[12] + fuzz::counters(b)[12]);
    assert(fuzz::counters(c)[13] == fuzz::counters(a)[13] + fuzz::counters(b)[13]);
    assert(fuzz::counters(c)[14] == fuzz::counters(a)[14] + fuzz::counters(b)[14]);
    assert(fuzz::counters(c)[15] == fuzz::counters(a)[15] + fuzz::counters(b)[15]);
    assert(fuzz::counters(c)[16] == fuzz::counters(a)[16] + fuzz::counters(b)[16]);
    assert(fuzz::counters(c)[17] == fuzz::counters(a)[17] + fuzz::counters(b)[17]);
    assert(fuzz::counters(c)[18] == fuzz::counters(a)[18] + fuzz::counters(b)[18]);
    assert(fuzz::counters(c)[19] == fuzz::counters(a)[19] + fuzz::counters(b)[19]);
    assert(fuzz::counters(c)[20] == fuzz::counters(a)[20] + fuzz::counters(b)[20]);
    assert(fuzz::counters(c)[21] == fuzz::counters(a)[21] + fuzz::counters(b)[21]);
    assert(fuzz::counters(c)[22] == fuzz::counters(a)[22] + fuzz::counters(b)[22]);
    assert(fuzz::counters(c)[23] == fuzz::counters(a)[23] + fuzz::counters(b)[23]);
    assert(fuzz::counters(c)[24] == fuzz::counters(a)[24] + fuzz::counters(b)[24]);
}

/// The dashboard of no fuzz run has zeros.
pub proof fn law_the_dashboard_of_no_run(dashboard: CoverageDashboard, corpus: Set<Seq<char>>)
    requires
        coverage::is_dashboard(dashboard, corpus, Seq::empty()),
    ensures
        dashboard.fuzz_cases == 0,
        dashboard.oracle_comparisons == 0,
        dashboard.metamorphic_variants == 0,
        forall|i: int|
            0 <= i < dashboard.feature_rows.len() ==> (#[trigger] dashboard.feature_rows[i]).cases
                == 0 && dashboard.feature_rows[i].total_cases == 0,
{
    let none = Seq::<FuzzRunEvidence>::empty();
    assert(none + none =~= none);
    law_dashboards_add_up(dashboard, dashboard, dashboard, corpus, none, none);
}

/// Whether a kind of instruction occurs in a program of the corpus.
pub open spec fn in_corpus(corpus: Seq<CorpusEvidence>, name: Seq<char>) -> bool {
    exists|e: int, k: int|
        0 <= e < corpus.len() && 0 <= k < corpus[e].opcode_kinds.len() && (
        #[trigger] corpus[e].opcode_kinds[k])@ == name
}

/// Whether a kind of instruction occurs in a fuzz run.
pub open spec fn in_runs(runs: Seq<FuzzRunEvidence>, name: Seq<char>) -> bool {
    exists|r: int|
        0 <= r < runs.len() && (#[trigger] runs[r]).report.coverage.opcode_kinds@.contains(name)
}

/// The instruction table has a row for every kind of instruction, in their order. A row says
/// whether a program of the corpus has the instruction and whether a fuzz run has it. The number of
/// instructions seen is that of the rows in which either is so.
pub proof fn law_instructions_are_seen_where_they_occur(
    dashboard: CoverageDashboard,
    corpus: Seq<CorpusEvidence>,
    runs: Seq<FuzzRunEvidence>,
)
    requires
        coverage::is_dashboard(dashboard, report::corpus_kinds(corpus), runs),
    ensures
        dashboard.opcode_rows.len() == 34,
        dashboard.opcodes_total == 34,
        forall|i: int|
            0 <= i < 34 ==> {
                let row = #[trigger] dashboard.opcode_rows[i];
                &&& row.opcode@ == opcode::name_of(opcode::opcodes()[i])
                &&& row.corpus_seen <==> in_corpus(corpus, row.opcode@)
                &&& row.fuzz_seen <==> in_runs(runs, row.opcode@)
            },
        dashboard.opcodes_seen == dashboard.opcode_rows@.filter(
            |row: coverage::OpcodeCoverageRow| row.corpus_seen || row.fuzz_seen,
        ).len(),
{
    assert forall|i: int| 0 <= i < 34 implies {
        let row = #[trigger] dashboard.opcode_rows[i];
        &&& row.opcode@ == opcode::name_of(opcode::opcodes()[i])
        &&& row.corpus_seen <==> in_corpus(corpus, row.opcode@)
        &&& row.fuzz_seen <==> in_runs(runs, row.opcode@)
    } by {
        let name = opcode::name_of(opcode::opcodes()[i]);
        lemma_in_corpus(corpus, name);
        lemma_in_runs(runs, name);
        assert(coverage::is_opcode_row(
            dashboard.opcode_rows[i],
            opcode::opcodes()[i],
            report::corpus_kinds(corpus),
            fuzz::kinds_total(runs),
        ));
    }
    assert((|row: coverage::OpcodeCoverageRow| row.corpus_seen || row.fuzz_seen) =~= (|
        row: coverage::OpcodeCoverageRow,
    | coverage::observed(row)));
}

proof fn lemma_in_corpus(corpus: Seq<CorpusEvidence>, name: Seq<char>)
    ensures
        report::corpus_kinds(corpus).contains(name) <==> in_corpus(corpus, name),
    decreases corpus.len(),
{
    if corpus.len() > 0 {
        let rest = corpus.drop_last();
        let last = corpus.len() - 1;
        lemma_in_corpus(rest, name);
        let kinds = text::texts(corpus.last().opcode_kinds@);
        if report::corpus_kinds(rest).contains(name) {
            let (e, k) = choose|e: int, k: int|
                0 <= e < rest.len() && 0 <= k < rest[e].opcode_kinds.len() && (
                #[trigger] rest[e].opcode_kinds[k])@ == name;
            assert(corpus[e].opcode_kinds[k]@ == name);
        }
        if kinds.to_set().contains(name) {
            let k = choose|k: int| 0 <= k < kinds.len() && kinds[k] == name;
            assert(corpus[last].opcode_kinds[k]@ == name);
        }
        if in_corpus(corpus, name) {
            let (e, k) = choose|e: int, k: int|
                0 <= e < corpus.len() && 0 <= k < corpus[e].opcode_kinds.len() && (
                #[trigger] corpus[e].opcode_kinds[k])@ == name;
            if e < last {
                assert(rest[e].opcode_kinds[k]@ == name);
            } else {
                assert(kinds[k] == name);
                assert(kinds.to_set().contains(name));
            }
        }
    }
}

proof fn lemma_in_runs(runs: Seq<FuzzRunEvidence>, name: Seq<char>)
    ensures
        fuzz::kinds_total(runs).contains(name) <==> in_runs(runs, name),
    decreases runs.len(),
{
    if runs.len() > 0 {
        let rest = runs.drop_last();
        let last = runs.len() - 1;
        lemma_in_runs(rest, name);
        assert(runs[last] == runs.last());
        if in_runs(rest, name) {
            let r = choose|r: int|
                0 <= r < rest.len() && (
                #[trigger] rest[r]).report.coverage.opcode_kinds@.contains(name);
            assert(runs[r].report.coverage.opcode_kinds@.contains(name));
        }
        if in_runs(runs, name) && !runs.last().report.coverage.opcode_kinds@.contains(name) {
            let r = choose|r: int|
                0 <= r < runs.len() && (
                #[trigger] runs[r]).report.coverage.opcode_kinds@.contains(name);
            assert(rest[r].report.coverage.opcode_kinds@.contains(name));
        }
    }
}

/// The text of a comparison: whether it found the backends equivalent, what the interpreter showed,
/// the text on the backends, and every mismatch on a line of its own.
pub proof fn law_the_text_of_a_comparison(
    equivalent: bool,
    outcome: OutcomeView,
    backends: Seq<char>,
    mismatches: Seq<Seq<char>>,
)
    ensures
        compare::comparison_text(equivalent, outcome, backends, mismatches)
            == "AST Oracle Comparison\n"@ + "  status: "@ + (if equivalent {
            "equivalent"@
        } else {
            "mismatch"@
        }) + "\n"@ + "  oracle: "@ + shown_text(
            outcome.success,
            outcome.return_value,
            outcome.trap_code,
            outcome.output,
        ) + "\n"@ + "\n"@ + backends + (if mismatches.len() == 0 {
            Seq::empty()
        } else {
            "\n"@ + "Oracle Mismatches\n"@ + Seq::new(
                mismatches.len(),
                |i: int| "  "@ + mismatches[i] + "\n"@,
            ).flatten_alt()
        }),
{
    law_summaries_show_the_outcome(outcome);
    lemma_indented(mismatches);
}

proof fn lemma_indented(lines: Seq<Seq<char>>)
    ensures
        compare::indented(lines) == Seq::new(
            lines.len(),
            |i: int| "  "@ + lines[i] + "\n"@,
        ).flatten_alt(),
    decreases lines.len(),
{
    let all = Seq::new(lines.len(), |i: int| "  "@ + lines[i] + "\n"@);
    if lines.len() > 0 {
        let rest = lines.drop_last();
        lemma_indented(rest);
        assert(all.drop_last() =~= Seq::new(rest.len(), |i: int| "  "@ + rest[i] + "\n"@));
        let before = compare::indented(rest);
        assert(before + "  "@ + lines.last() + "\n"@ =~= before + ("  "@ + lines.last() + "\n"@));
    }
}

/// An outcome is seen as it is, its output line by line.
pub proof fn law_outcomes_are_seen_as_they_are(outcome: OracleOutcome)
    ensures
        outcome@.success == outcome.success,
        outcome@.return_value == outcome.return_value,
        outcome@.trap_code == outcome.trap_code,
        outcome@.trap_message == outcome.trap_message@,
        outcome@.output.len() == outcome.output.len(),
        forall|i: int|
            0 <= i < outcome.output.len() ==> #[trigger] outcome@.output[i]
                == outcome.output[i]@,
{
    assert(outcome@.output == text::texts(outcome.output@));
}

/// Bugs of the same name stand in the order in which their directories were searched.
pub proof fn law_bugs_of_one_name_keep_their_order(
    entries: Seq<BugMuseumEvidence>,
    dirs: Seq<MuseumDir>,
    i: int,
    j: int,
)
    requires
        artifacts::is_museum(entries, dirs),
        0 <= i < j < entries.len(),
        entries[i].id@ == entries[j].id@,
    ensures
        exists|a: int, b: int|
            0 <= a < b < dirs.len() && artifacts::record_of(#[trigger] dirs[a]) == entries[i]@
                && artifacts::record_of(#[trigger] dirs[b]) == entries[j]@,
{
    let found = choose|found: Seq<BugMuseumEvidence>| #[trigger]
        artifacts::recorded(found) == artifacts::records_of(dirs) && order::is_stable_sort(
            found,
            entries,
        );
    assert(entries[i].key() == entries[j].key());
    order::law_equals_keep_their_order(found, entries, i, j);
    let (x, y) = choose|x: int, y: int|
        0 <= x < y < found.len() && #[trigger] found[x] == entries[i] && #[trigger] found[y]
            == entries[j];
    let records = artifacts::recorded(found);
    assert(records.len() == found.len());
    assert(records[x] == found[x]@ && records[y] == found[y]@);
    lemma_records_in_order(dirs, x, y);
}

proof fn lemma_records_in_order(dirs: Seq<MuseumDir>, x: int, y: int)
    requires
        0 <= x <= y < artifacts::records_of(dirs).len(),
    ensures
        exists|a: int, b: int|
            0 <= a <= b < dirs.len() && (x < y ==> a < b) && artifacts::record_of(
                #[trigger] dirs[a],
            ) == artifacts::records_of(dirs)[x] && artifacts::record_of(#[trigger] dirs[b])
                == artifacts::records_of(dirs)[y],
    decreases dirs.len(),
{
    let rest = dirs.drop_last();
    let last = dirs.len() - 1;
    let before = artifacts::records_of(rest);
    if y < before.len() {
        lemma_records_in_order(rest, x, y);
        let (a, b) = choose|a: int, b: int|
            0 <= a <= b < rest.len() && (x < y ==> a < b) && artifacts::record_of(
                #[trigger] rest[a],
            ) == before[x] && artifacts::record_of(#[trigger] rest[b]) == before[y];
        assert(dirs[a] == rest[a] && dirs[b] == rest[b]);
    } else if x < y {
        lemma_records_in_order(rest, x, x);
        let (a, b) = choose|a: int, b: int|
            0 <= a <= b < rest.len() && (x < x ==> a < b) && artifacts::record_of(
                #[trigger] rest[a],
            ) == before[x] && artifacts::record_of(#[trigger] rest[b]) == before[x];
        assert(dirs[a] == rest[a] && dirs[last] == dirs.last());
    } else {
        assert(dirs[last] == dirs.last());
    }
}

/// Artifacts of the same path stand in the order in which they were found.
pub proof fn law_artifacts_of_one_path_keep_their_order(
    found: Seq<BugArtifactEvidence>,
    dirs: Seq<ScannedDir>,
    i: int,
    j: int,
)
    requires
        order::is_stable_sort(artifacts::artifacts_of(dirs), found),
        0 <= i < j < found.len(),
        found[i].path@ == found[j].path@,
    ensures
        exists|a: int, b: int|
            {
                &&& 0 <= a < b < dirs.len()
                &&& (#[trigger] dirs[a]).has_manifest == found[i].has_manifest
                &&& dirs[a].has_minimized_source == found[i].has_minimized_source
                &&& dirs[a].path == found[i].path
                &&& (#[trigger] dirs[b]).has_manifest == found[j].has_manifest
                &&& dirs[b].has_minimized_source == found[j].has_minimized_source
                &&& dirs[b].path == found[j].path
            },
{
    let all = artifacts::artifacts_of(dirs);
    assert(found[i].key() == found[j].key());
    order::law_equals_keep_their_order(all, found, i, j);
    let (x, y) = choose|x: int, y: int|
        0 <= x < y < all.len() && #[trigger] all[x] == found[i] && #[trigger] all[y] == found[j];
    lemma_artifacts_in_order(dirs, x, y);
    let (a, b) = choose|a: int, b: int|
        0 <= a <= b < dirs.len() && (x < y ==> a < b) && is_artifact_of(all[x], #[trigger] dirs[a])
            && is_artifact_of(all[y], #[trigger] dirs[b]);
    assert(dirs[a].path == found[i].path && dirs[b].path == found[j].path);
}

/// Whether an artifact is that of a directory.
pub open spec fn is_artifact_of(artifact: BugArtifactEvidence, dir: ScannedDir) -> bool {
    &&& artifact.path == dir.path
    &&& artifact.has_manifest == dir.has_manifest
    &&& artifact.has_minimized_source == dir.has_minimized_source
}

proof fn lemma_artifacts_in_order(dirs: Seq<ScannedDir>, x: int, y: int)
    requires
        0 <= x <= y < artifacts::artifacts_of(dirs).len(),
    ensures
        exists|a: int, b: int|
            0 <= a <= b < dirs.len() && (x < y ==> a < b) && is_artifact_of(
                artifacts::artifacts_of(dirs)[x],
                #[trigger] dirs[a],
            ) && is_artifact_of(artifacts::artifacts_of(dirs)[y], #[trigger] dirs[b]),
    decreases dirs.len(),
{
    let rest = dirs.drop_last();
    let last = dirs.len() - 1;
    let before = artifacts::artifacts_of(rest);
    if y < before.len() {
        lemma_artifacts_in_order(rest, x, y);
        let (a, b) = choose|a: int, b: int|
            0 <= a <= b < rest.len() && (x < y ==> a < b) && is_artifact_of(
                before[x],
                #[trigger] rest[a],
            ) && is_artifact_of(before[y], #[trigger] rest[b]);
        assert(dirs[a] == rest[a] && dirs[b] == rest[b]);
    } else if x < y {
        lemma_artifacts_in_order(rest, x, x);
        let (a, b) = choose|a: int, b: int|
            0 <= a <= b < rest.len() && (x < x ==> a < b) && is_artifact_of(
                before[x],
                #[trigger] rest[a],
            ) && is_artifact_of(before[x], #[trigger] rest[b]);
        assert(dirs[a] == rest[a] && dirs[last] == dirs.last());
    } else {
        assert(dirs[last] == dirs.last());
    }
}

/// Programs of the same path stand in the order in which their sources were given.
pub proof fn law_programs_of_one_path_keep_their_order(
    entries: Seq<CorpusEvidence>,
    files: Seq<(String, SourceAudit)>,
    i: int,
    j: int,
)
    requires
        evidence::is_corpus(entries, files),
        0 <= i < j < entries.len(),
        entries[i].path@ == entries[j].path@,
    ensures
        exists|a: int, b: int|
            0 <= a < b < files.len() && evidence::is_audit(
                entries[i],
                (#[trigger] files[a]).0@,
                files[a].1,
            ) && evidence::is_audit(entries[j], (#[trigger] files[b]).0@, files[b].1),
{
    let audits = choose|audits: Seq<CorpusEvidence>| #[trigger]
        evidence::are_audits(audits, files) && order::is_stable_sort(audits, entries);
    assert(entries[i].key() == entries[j].key());
    order::law_equals_keep_their_order(audits, entries, i, j);
    let (a, b) = choose|a: int, b: int|
        0 <= a < b < audits.len() && #[trigger] audits[a] == entries[i] && #[trigger] audits[b]
            == entries[j];
    assert(evidence::is_audit(audits[a], files[a].0@, files[a].1));
    assert(evidence::is_audit(audits[b], files[b].0@, files[b].1));
}

/// A counter, added up over all runs.
pub open spec fn summed(runs: Seq<FuzzRunEvidence>, k: int) -> int {
    runs.fold_left(
        0int,
        |sum: int, run: FuzzRunEvidence| sum + fuzz::counters(run.report.coverage)[k],
    )
}

/// The sums over the runs fit exactly where the cases executed and every counter, each added up over
/// all runs, are at most the greatest machine integer.
pub proof fn law_sums_fit_up_to_the_greatest_integer(runs: Seq<FuzzRunEvidence>)
    ensures
        fuzz::totals_fit(runs) <==> {
            &&& runs.fold_left(
                0int,
                |sum: int, run: FuzzRunEvidence| sum + run.report.cases_executed,
            ) <= usize::MAX
            &&& forall|k: int| 0 <= k < 25 ==> #[trigger] summed(runs, k) <= usize::MAX
        },
{
    lemma_executed_total(runs);
    assert forall|k: int| #[trigger] summed(runs, k) == fuzz::counter_total(runs, k) by {
        lemma_counter_summed(runs, k);
    }
    assert forall|k: int| #[trigger] fuzz::counter_total(runs, k) == summed(runs, k) by {}
}

proof fn lemma_counter_summed(runs: Seq<FuzzRunEvidence>, k: int)
    ensures
        summed(runs, k) == fuzz::counter_total(runs, k),
    decreases runs.len(),
{
    reveal(Seq::fold_left);
    if runs.len() > 0 {
        lemma_counter_summed(runs.drop_last(), k);
    }
}

} // verus!
