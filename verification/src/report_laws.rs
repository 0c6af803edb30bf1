//! Laws of the written report: what stands in the JSON and in the Markdown, and where.

use vstd::prelude::*;

use crate::artifacts::{BugArtifactEvidence, BugMuseumEvidence};
use crate::coverage;
use crate::coverage::{CoverageDashboard, FeatureCoverageRow, OpcodeCoverageRow};
use crate::evidence::{BackendCell, CorpusEvidence};
use crate::fuzz::{FuzzMode, FuzzRunEvidence};
use crate::json::Json;
use crate::report::{EvidenceReport, EvidenceSummary};
use crate::report_json;
use crate::report_markdown;
use crate::text;

verus! {

/// A summary in JSON has each of its fields under its name, in order.
pub proof fn law_summary_json(summary: EvidenceSummary)
    ensures
        ({
            let members = report_json::summary_json(summary)->Object_0;
            &&& report_json::summary_json(summary) is Object
            &&& members.len() == 12
            &&& members[0] == ("passed"@, Json::Bool(summary.passed))
            &&& members[1] == ("corpus_files"@, Json::Number(summary.corpus_files as int))
            &&& members[2] == ("corpus_failures"@, Json::Number(summary.corpus_failures as int))
            &&& members[3] == ("fuzz_runs"@, Json::Number(summary.fuzz_runs as int))
            &&& members[4] == (
                "fuzz_cases_executed"@,
                Json::Number(summary.fuzz_cases_executed as int),
            )
            &&& members[5] == ("fuzz_failures"@, Json::Number(summary.fuzz_failures as int))
            &&& members[6] == (
                "backend_mismatches"@,
                Json::Number(summary.backend_mismatches as int),
            )
            &&& members[7] == ("oracle_mismatches"@, Json::Number(summary.oracle_mismatches as int))
            &&& members[8] == ("trace_failures"@, Json::Number(summary.trace_failures as int))
            &&& members[9] == (
                "historical_artifacts"@,
                Json::Number(summary.historical_artifacts as int),
            )
            &&& members[10] == (
                "bug_museum_entries"@,
                Json::Number(summary.bug_museum_entries as int),
            )
            &&& members[11] == (
                "bug_museum_incomplete"@,
                Json::Number(summary.bug_museum_incomplete as int),
            )
        }),
{
}

/// A row of the feature table in JSON has its feature and its counts under their names.
pub proof fn law_feature_json(row: FeatureCoverageRow)
    ensures
        ({
            let members = report_json::feature_json(row)->Object_0;
            &&& report_json::feature_json(row) is Object
            &&& members.len() == 3
            &&& members[0] == ("feature"@, Json::Text(row.feature@))
            &&& members[1] == ("cases"@, Json::Number(row.cases as int))
            &&& members[2] == ("total_cases"@, Json::Number(row.total_cases as int))
        }),
{
}

/// A row of the instruction table in JSON says where the instruction was seen, and whether it was
/// seen at all.
pub proof fn law_opcode_json(row: OpcodeCoverageRow)
    ensures
        ({
            let members = report_json::opcode_json(row)->Object_0;
            &&& report_json::opcode_json(row) is Object
            &&& members.len() == 4
            &&& members[0] == ("opcode"@, Json::Text(row.opcode@))
            &&& members[1] == ("corpus_seen"@, Json::Bool(row.corpus_seen))
            &&& members[2] == ("fuzz_seen"@, Json::Bool(row.fuzz_seen))
            &&& members[3] == ("observed"@, Json::Bool(row.corpus_seen || row.fuzz_seen))
        }),
{
}

/// A dashboard in JSON has its totals, and every row of its two tables in order.
pub proof fn law_dashboard_json(dashboard: CoverageDashboard)
    ensures
        ({
            let members = report_json::dashboard_json(dashboard)->Object_0;
            &&& report_json::dashboard_json(dashboard) is Object
            &&& members.len() == 7
            &&& members[0] == ("fuzz_cases"@, Json::Number(dashboard.fuzz_cases as int))
            &&& members[1] == (
                "oracle_comparisons"@,
                Json::Number(dashboard.oracle_comparisons as int),
            )
            &&& members[2] == (
                "metamorphic_variants"@,
                Json::Number(dashboard.metamorphic_variants as int),
            )
            &&& members[3] == ("opcodes_seen"@, Json::Number(dashboard.opcodes_seen as int))
            &&& members[4] == ("opcodes_total"@, Json::Number(dashboard.opcodes_total as int))
            &&& members[5] == (
                "features"@,
                Json::Array(
                    Seq::new(
                        dashboard.feature_rows@.len(),
                        |i: int| report_json::feature_json(dashboard.feature_rows@[i]),
                    ),
                ),
            )
            &&& members[6] == (
                "opcodes"@,
                Json::Array(
                    Seq::new(
                        dashboard.opcode_rows@.len(),
                        |i: int| report_json::opcode_json(dashboard.opcode_rows@[i]),
                    ),
                ),
            )
        }),
{
    assert(report_json::dashboard_json(dashboard)->Object_0[5].1->Array_0 =~= Seq::new(
        dashboard.feature_rows@.len(),
        |i: int| report_json::feature_json(dashboard.feature_rows@[i]),
    ));
    assert(report_json::dashboard_json(dashboard)->Object_0[6].1->Array_0 =~= Seq::new(
        dashboard.opcode_rows@.len(),
        |i: int| report_json::opcode_json(dashboard.opcode_rows@[i]),
    ));
}

/// A cell of the backend matrix in JSON has its backend, status and detail.
pub proof fn law_cell_json(cell: BackendCell)
    ensures
        ({
            let members = report_json::cell_json(cell)->Object_0;
            &&& report_json::cell_json(cell) is Object
            &&& members.len() == 3
            &&& members[0] == ("backend"@, Json::Text(cell.backend@))
            &&& members[1] == ("status"@, Json::Text(cell.status@))
            &&& members[2] == ("detail"@, Json::Text(cell.detail@))
        }),
{
}

/// The evidence on a program in JSON has each of its fields under its name, and every cell of its
/// backend matrix in order.
pub proof fn law_corpus_json(entry: CorpusEvidence)
    ensures
        ({
            let members = report_json::corpus_json(entry)->Object_0;
            &&& report_json::corpus_json(entry) is Object
            &&& members.len() == 13
            &&& members[0] == ("path"@, Json::Text(entry.path@))
            &&& members[1] == ("source_hash"@, Json::Text(text::hex16(entry.source_hash)))
            &&& members[2] == ("compile_passed"@, Json::Bool(entry.compile_passed))
            &&& members[3] == ("verify_passed"@, Json::Bool(entry.verify_passed))
            &&& members[4] == ("oracle_equivalent"@, Json::Bool(entry.oracle_equivalent))
            &&& members[5] == ("backend_equivalent"@, Json::Bool(entry.backend_equivalent))
            &&& members[6] == ("trace_replay_passed"@, Json::Bool(entry.trace_replay_passed))
            &&& members[7] == ("trace_replay_fingerprint"@, match entry.trace_replay_fingerprint {
                    Some(text) => Json::Text(text@),
                    None => Json::Null,
                })
            &&& members[8] == ("trace_diff_passed"@, Json::Bool(entry.trace_diff_passed))
            &&& members[9] == ("trace_diff_fingerprint"@, match entry.trace_diff_fingerprint {
                    Some(text) => Json::Text(text@),
                    None => Json::Null,
                })
            &&& members[10] == (
                "backend_matrix"@,
                Json::Array(
                    Seq::new(
                        entry.backend_matrix@.len(),
                        |i: int| report_json::cell_json(entry.backend_matrix@[i]),
                    ),
                ),
            )
            &&& members[11] == ("error"@, match entry.error {
                    Some(text) => Json::Text(text@),
                    None => Json::Null,
                })
            &&& members[12] == (
                "opcode_kinds"@,
                Json::Array(
                    Seq::new(
                        entry.opcode_kinds@.len(),
                        |i: int| Json::Text(entry.opcode_kinds@[i]@),
                    ),
                ),
            )
        }),
{
    assert(report_json::corpus_json(entry)->Object_0[10].1->Array_0 =~= Seq::new(
        entry.backend_matrix@.len(),
        |i: int| report_json::cell_json(entry.backend_matrix@[i]),
    ));
    assert(report_json::corpus_json(entry)->Object_0[12].1->Array_0 =~= Seq::new(
        entry.opcode_kinds@.len(),
        |i: int| Json::Text(entry.opcode_kinds@[i]@),
    ));
}

/// A fuzz run in JSON has its seed, its mode, and what the fuzzer reports of it.
pub proof fn law_fuzz_json(run: FuzzRunEvidence)
    ensures
        ({
            let members = report_json::fuzz_json(run)->Object_0;
            &&& report_json::fuzz_json(run) is Object
            &&& members.len() == 3
            &&& members[0] == ("seed"@, Json::Text("0x"@ + text::hex16(run.seed)))
            &&& members[1] == ("mode"@, Json::Text(match run.mode {
                    FuzzMode::General => "general"@,
                    FuzzMode::OptimizerStress => "optimizer-stress"@,
                }))
            &&& members[2] == ("report"@, Json::Written(run.report.json@))
        }),
{
}

/// An artifact in JSON has its path and what it holds.
pub proof fn law_artifact_json(artifact: BugArtifactEvidence)
    ensures
        ({
            let members = report_json::artifact_json(artifact)->Object_0;
            &&& report_json::artifact_json(artifact) is Object
            &&& members.len() == 3
            &&& members[0] == ("path"@, Json::Text(artifact.path@))
            &&& members[1] == ("has_manifest"@, Json::Bool(artifact.has_manifest))
            &&& members[2] == ("has_minimized_source"@, Json::Bool(artifact.has_minimized_source))
        }),
{
}

/// A documented bug in JSON has each of its fields under its name.
pub proof fn law_museum_json(entry: BugMuseumEvidence)
    ensures
        ({
            let members = report_json::museum_json(entry)->Object_0;
            &&& report_json::museum_json(entry) is Object
            &&& members.len() == 9
            &&& members[0] == ("id"@, Json::Text(entry.id@))
            &&& members[1] == ("path"@, Json::Text(entry.path@))
            &&& members[2] == ("status"@, Json::Text(entry.status@))
            &&& members[3] == ("expected"@, Json::Text(entry.expected@))
            &&& members[4] == ("proof_gate"@, Json::Text(entry.proof_gate@))
            &&& members[5] == ("has_metadata"@, Json::Bool(entry.has_metadata))
            &&& members[6] == ("has_readme"@, Json::Bool(entry.has_readme))
            &&& members[7] == ("has_repro_source"@, Json::Bool(entry.has_repro_source))
            &&& members[8] == ("repro_source_hash"@, match entry.repro_source_hash {
                    Some(text) => Json::Text(text@),
                    None => Json::Null,
                })
        }),
{
}

/// A report in JSON has its version, the time, and all its parts, with every entry in order.
pub proof fn law_report_json(report: EvidenceReport)
    ensures
        ({
            let members = report_json::report_json(report)->Object_0;
            &&& report_json::report_json(report) is Object
            &&& members.len() == 8
            &&& members[0] == ("schema_version"@, Json::Number(2))
            &&& members[1] == ("generated_at_unix"@, Json::Number(report.generated_at_unix as int))
            &&& members[2] == ("summary"@, report_json::summary_json(report.summary))
            &&& members[3] == ("coverage"@, report_json::dashboard_json(report.coverage))
            &&& members[4] == (
                "corpus"@,
                Json::Array(
                    Seq::new(
                        report.corpus@.len(),
                        |i: int| report_json::corpus_json(report.corpus@[i]),
                    ),
                ),
            )
            &&& members[5] == (
                "fuzz"@,
                Json::Array(
                    Seq::new(
                        report.fuzz@.len(),
                        |i: int| report_json::fuzz_json(report.fuzz@[i]),
                    ),
                ),
            )
            &&& members[6] == (
                "artifacts"@,
                Json::Array(
                    Seq::new(
                        report.artifacts@.len(),
                        |i: int| report_json::artifact_json(report.artifacts@[i]),
                    ),
                ),
            )
            &&& members[7] == (
                "bug_museum"@,
                Json::Array(
                    Seq::new(
                        report.bug_museum@.len(),
                        |i: int| report_json::museum_json(report.bug_museum@[i]),
                    ),
                ),
            )
        }),
{
    assert(report_json::report_json(report)->Object_0[4].1->Array_0 =~= Seq::new(
        report.corpus@.len(),
        |i: int| report_json::corpus_json(report.corpus@[i]),
    ));
    assert(report_json::report_json(report)->Object_0[5].1->Array_0 =~= Seq::new(
        report.fuzz@.len(),
        |i: int| report_json::fuzz_json(report.fuzz@[i]),
    ));
    assert(report_json::report_json(report)->Object_0[6].1->Array_0 =~= Seq::new(
        report.artifacts@.len(),
        |i: int| report_json::artifact_json(report.artifacts@[i]),
    ));
    assert(report_json::report_json(report)->Object_0[7].1->Array_0 =~= Seq::new(
        report.bug_museum@.len(),
        |i: int| report_json::museum_json(report.bug_museum@[i]),
    ));
}

proof fn lemma_joined_2(a: Seq<char>, b: Seq<char>)
    ensures
        text::joined(seq![a, b], " | "@) == a + " | "@ + b,
{
    assert(seq![a, b].drop_last() =~= seq![a]);
    assert(text::joined(seq![a], " | "@) == a);
}

proof fn lemma_joined_3(a: Seq<char>, b: Seq<char>, c: Seq<char>)
    ensures
        text::joined(seq![a, b, c], " | "@) == a + " | "@ + b + " | "@ + c,
{
    lemma_joined_2(a, b);
    assert(seq![a, b, c].drop_last() =~= seq![a, b]);
}

proof fn lemma_joined_4(a: Seq<char>, b: Seq<char>, c: Seq<char>, d: Seq<char>)
    ensures
        text::joined(seq![a, b, c, d], " | "@) == a + " | "@ + b + " | "@ + c + " | "@ + d,
{
    lemma_joined_3(a, b, c);
    assert(seq![a, b, c, d].drop_last() =~= seq![a, b, c]);
}

proof fn lemma_joined_5(a: Seq<char>, b: Seq<char>, c: Seq<char>, d: Seq<char>, e: Seq<char>)
    ensures
        text::joined(seq![a, b, c, d, e], " | "@) == a + " | "@ + b + " | "@ + c + " | "@ + d
            + " | "@ + e,
{
    lemma_joined_4(a, b, c, d);
    assert(seq![a, b, c, d, e].drop_last() =~= seq![a, b, c, d]);
}

proof fn lemma_joined_6(
    a: Seq<char>,
    b: Seq<char>,
    c: Seq<char>,
    d: Seq<char>,
    e: Seq<char>,
    f: Seq<char>,
)
    ensures
        text::joined(seq![a, b, c, d, e, f], " | "@) == a + " | "@ + b + " | "@ + c + " | "@ + d
            + " | "@ + e + " | "@ + f,
{
    lemma_joined_5(a, b, c, d, e);
    assert(seq![a, b, c, d, e, f].drop_last() =~= seq![a, b, c, d, e]);
}

proof fn lemma_joined_7(
    a: Seq<char>,
    b: Seq<char>,
    c: Seq<char>,
    d: Seq<char>,
    e: Seq<char>,
    f: Seq<char>,
    g: Seq<char>,
)
    ensures
        text::joined(seq![a, b, c, d, e, f, g], " | "@) == a + " | "@ + b + " | "@ + c + " | "@
            + d + " | "@ + e + " | "@ + f + " | "@ + g,
{
    lemma_joined_6(a, b, c, d, e, f);
    assert(seq![a, b, c, d, e, f, g].drop_last() =~= seq![a, b, c, d, e, f]);
}

proof fn lemma_joined_8(
    a: Seq<char>,
    b: Seq<char>,
    c: Seq<char>,
    d: Seq<char>,
    e: Seq<char>,
    f: Seq<char>,
    g: Seq<char>,
    h: Seq<char>,
)
    ensures
        text::joined(seq![a, b, c, d, e, f, g, h], " | "@) == a + " | "@ + b + " | "@ + c + " | "@
            + d + " | "@ + e + " | "@ + f + " | "@ + g + " | "@ + h,
{
    lemma_joined_7(a, b, c, d, e, f, g);
    assert(seq![a, b, c, d, e, f, g, h].drop_last() =~= seq![a, b, c, d, e, f, g]);
}

/// Rows stand one below the other.
proof fn lemma_rows(rows: Seq<Seq<Seq<char>>>, lines: Seq<Seq<char>>)
    requires
        rows.len() == lines.len(),
        forall|i: int|
            0 <= i < rows.len() ==> report_markdown::row_text(#[trigger] rows[i]) == lines[i],
    ensures
        report_markdown::rows_text(rows) == lines.flatten_alt(),
    decreases rows.len(),
{
    if rows.len() > 0 {
        let rest = rows.drop_last();
        assert forall|i: int| 0 <= i < rest.len() implies report_markdown::row_text(
            #[trigger] rest[i],
        ) == lines.drop_last()[i] by {
            assert(report_markdown::row_text(rows[i]) == lines[i]);
        }
        lemma_rows(rest, lines.drop_last());
        assert(report_markdown::row_text(rows[rows.len() - 1]) == lines[lines.len() - 1]);
    }
}

/// The status of a backend in the matrix is that of the first cell of that name.
pub proof fn law_the_first_cell_counts(cells: Seq<BackendCell>, name: Seq<char>, i: int)
    ensures
        0 <= i < cells.len() && cells[i].backend@ == name && (forall|j: int|
            0 <= j < i ==> (#[trigger] cells[j]).backend@ != name) ==> report_markdown::matrix_status(
            cells,
            name,
        ) == cells[i].status@,
        (forall|j: int| 0 <= j < cells.len() ==> (#[trigger] cells[j]).backend@ != name)
            ==> report_markdown::matrix_status(cells, name) == "n/a"@,
    decreases cells.len(),
{
    if cells.len() > 0 {
        let rest = cells.skip(1);
        assert forall|j: int| 0 <= j < rest.len() implies #[trigger] rest[j] == cells[j + 1] by {}
        if cells[0].backend@ != name {
            law_the_first_cell_counts(rest, name, i - 1);
            if 0 <= i < cells.len() && cells[i].backend@ == name && (forall|j: int|
                0 <= j < i ==> (#[trigger] cells[j]).backend@ != name) {
                assert forall|j: int| 0 <= j < i - 1 implies (#[trigger] rest[j]).backend@ != name by {
                    assert(cells[j + 1].backend@ != name);
                }
            }
            if forall|j: int| 0 <= j < cells.len() ==> (#[trigger] cells[j]).backend@ != name {
                assert forall|j: int| 0 <= j < rest.len() implies (#[trigger] rest[j]).backend@
                    != name by {
                    assert(cells[j + 1].backend@ != name);
                }
            }
        } else if 0 < i < cells.len() && (forall|j: int|
            0 <= j < i ==> (#[trigger] cells[j]).backend@ != name) {
            assert(cells[0].backend@ != name);
        }
    }
}

/// The line of a feature: its name, how many of all cases have it, and the share, which is not
/// there where there are no cases.
pub open spec fn feature_line(row: FeatureCoverageRow, share: Seq<char>) -> Seq<char> {
    "| "@ + (row.feature@ + " | "@ + (text::decimal(row.cases as int) + " / "@ + text::decimal(
        row.total_cases as int,
    )) + " | "@ + (if row.total_cases == 0 { "n/a"@ } else { share })) + " |\n"@
}

/// The line of an instruction: whether the corpus has it, whether the fuzz runs have it, and
/// whether
/// it was observed, that is, whether either has it.
pub open spec fn opcode_line(opcode: Seq<char>, corpus_seen: bool, fuzz_seen: bool) -> Seq<char> {
    "| "@ + (opcode + " | "@ + (if corpus_seen { "yes"@ } else { "no"@ }) + " | "@ + (
    if fuzz_seen { "yes"@ } else { "no"@ }) + " | "@ + (if corpus_seen || fuzz_seen {
        "observed"@
    } else {
        "missing"@
    })) + " |\n"@
}

/// The word for the outcome of a check.
pub open spec fn outcome_word(good: bool) -> Seq<char> {
    if good {
        "passed"@
    } else {
        "failed"@
    }
}

/// The line of a program of the corpus: the outcome of every check, in the order of the columns.
pub open spec fn corpus_line(e: CorpusEvidence) -> Seq<char> {
    "| "@ + (e.path@ + " | "@ + outcome_word(e.compile_passed) + " | "@ + outcome_word(
        e.verify_passed,
    ) + " | "@ + outcome_word(e.oracle_equivalent) + " | "@ + outcome_word(e.backend_equivalent)
        + " | "@ + outcome_word(e.trace_replay_passed) + " | "@ + outcome_word(e.trace_diff_passed))
        + " |\n"@
}

/// The line of a fuzz run.
pub open spec fn fuzz_line(run: FuzzRunEvidence) -> Seq<char> {
    let c = run.report.coverage;
    "| "@ + ("0x"@ + text::hex16(run.seed) + " | "@ + (match run.mode {
        FuzzMode::General => "general"@,
        FuzzMode::OptimizerStress => "optimizer-stress"@,
    }) + " | "@ + text::decimal(run.report.cases_executed as int) + " | "@ + outcome_word(
        run.report.success,
    ) + " | "@ + text::decimal(c.branches as int) + " | "@ + text::decimal(c.loops as int) + " | "@
        + text::decimal(c.local_array_reads + c.local_array_writes) + " | "@ + text::decimal(
        c.opcode_kinds@.len() as int,
    )) + " |\n"@
}

/// The line of a program in the backend matrix.
pub open spec fn matrix_line(e: CorpusEvidence) -> Seq<char> {
    let cells = e.backend_matrix@;
    "| "@ + (e.path@ + " | "@ + report_markdown::matrix_status(cells, "VM"@) + " | "@
        + report_markdown::matrix_status(cells, "GC VM"@) + " | "@ + report_markdown::matrix_status(
        cells,
        "Optimized VM"@,
    ) + " | "@ + report_markdown::matrix_status(cells, "JIT"@)) + " |\n"@
}

/// The line of a documented bug.
pub open spec fn museum_line(e: BugMuseumEvidence) -> Seq<char> {
    "| "@ + (e.id@ + " | "@ + e.status@ + " | "@ + e.expected@ + " | "@ + e.proof_gate@ + " | "@ + (
    if e.has_repro_source { "yes"@ } else { "no"@ }) + " | "@ + (if e.has_readme {
        "yes"@
    } else {
        "no"@
    })) + " |\n"@
}

/// The line of an artifact.
pub open spec fn artifact_line(a: BugArtifactEvidence) -> Seq<char> {
    "| "@ + (a.path@ + " | "@ + outcome_word(a.has_manifest) + " | "@ + outcome_word(
        a.has_minimized_source,
    )) + " |\n"@
}

/// The whole text of a report in Markdown: the verdict with its counts; the dashboard with a line
/// for every feature and every instruction; a line for every program of the corpus, every fuzz run,
/// every program in the backend matrix, every documented bug and every artifact, in their order;
/// and a placeholder where there is no bug or no artifact.
pub proof fn law_the_markdown_has_a_line_for_everything(
    report: EvidenceReport,
    shares: Seq<String>,
)
    ensures
        ({
            let s = report.summary;
            let c = report.coverage;
            report_markdown::markdown(report, shares) == ("# Qydrel Evidence Report\n\n## Verdict\n\n"@
                + (if s.passed { "Passed"@ } else { "Failed"@ }) + ": corpus files="@
                + text::decimal(s.corpus_files as int) + ", fuzz runs="@ + text::decimal(
                s.fuzz_runs as int,
            ) + ", fuzz cases executed="@ + text::decimal(s.fuzz_cases_executed as int)
                + ", bug museum entries="@ + text::decimal(s.bug_museum_entries as int)
                + ", local fuzz artifacts="@ + text::decimal(s.historical_artifacts as int)
                + ".\n"@) + (
            "\n## Coverage Dashboard\n\nObserved coverage from checked-in corpus programs plus the deterministic evidence fuzz matrix. This is execution evidence, not a completeness proof. Opcodes observed: "@
                + text::decimal(c.opcodes_seen as int) + "/"@ + text::decimal(
                c.opcodes_total as int,
            ) + ". AST oracle comparisons: "@ + text::decimal(c.oracle_comparisons as int)
                + ". Metamorphic variants checked: "@ + text::decimal(
                c.metamorphic_variants as int,
            ) + ".\n\n### Feature Coverage\n\n| Feature | Cases | Share |\n| --- | ---: | ---: |\n"@
                + Seq::new(
                c.feature_rows@.len(),
                |i: int| feature_line(c.feature_rows@[i], shares[i]@),
            ).flatten_alt()
                + "\n### Opcode Coverage\n\n| Opcode | Corpus | Fuzz | Status |\n| --- | --- | --- | --- |\n"@
                + Seq::new(
                c.opcode_rows@.len(),
                |i: int|
                    opcode_line(
                        c.opcode_rows@[i].opcode@,
                        c.opcode_rows@[i].corpus_seen,
                        c.opcode_rows@[i].fuzz_seen,
                    ),
            ).flatten_alt()) + (
            "\n## Corpus Status\n\n| File | Compile | Verify | Oracle | Backends | Replay | VM/GC Diff |\n| --- | --- | --- | --- | --- | --- | --- |\n"@
                + Seq::new(
                report.corpus@.len(),
                |i: int| corpus_line(report.corpus@[i]),
            ).flatten_alt()) + (
            "\n## Fuzz Matrix Detail\n\n| Seed | Mode | Cases | Status | Branches | Loops | Local Arrays | Opcodes |\n| --- | --- | ---: | --- | ---: | ---: | ---: | ---: |\n"@
                + Seq::new(
                report.fuzz@.len(),
                |i: int| fuzz_line(report.fuzz@[i]),
            ).flatten_alt()) + (
            "\n## Backend Matrix\n\n| Program | VM | GC VM | Optimized VM | JIT |\n| --- | --- | --- | --- | --- |\n"@
                + Seq::new(
                report.corpus@.len(),
                |i: int| matrix_line(report.corpus@[i]),
            ).flatten_alt()) + (
            "\n## Bug Museum\n\n| Entry | Status | Expected Behavior | Proof Gate | Repro | Docs |\n| --- | --- | --- | --- | --- | --- |\n"@
                + (if report.bug_museum@.len() == 0 {
                "| none | n/a | n/a | n/a | no | no |\n"@
            } else {
                Seq::new(
                    report.bug_museum@.len(),
                    |i: int| museum_line(report.bug_museum@[i]),
                ).flatten_alt()
            })) + (
            "\n## Local Fuzz Artifacts\n\n| Artifact | Manifest | Minimized Source |\n| --- | --- | --- |\n"@
                + (if report.artifacts@.len() == 0 {
                "| none | no | no |\n"@
            } else {
                Seq::new(
                    report.artifacts@.len(),
                    |i: int| artifact_line(report.artifacts@[i]),
                ).flatten_alt()
            }))
        }),
{
    let c = report.coverage;
    lemma_feature_lines(c.feature_rows@, shares);
    lemma_opcode_lines(c.opcode_rows@);
    lemma_corpus_lines(report.corpus@);
    lemma_fuzz_lines(report.fuzz@);
    lemma_matrix_lines(report.corpus@);
    lemma_museum_lines(report.bug_museum@);
    lemma_artifact_lines(report.artifacts@);
}

proof fn lemma_feature_lines(rows: Seq<FeatureCoverageRow>, shares: Seq<String>)
    ensures
        report_markdown::rows_text(report_markdown::feature_rows(rows, shares)) == Seq::new(
            rows.len(),
            |i: int| feature_line(rows[i], shares[i]@),
        ).flatten_alt(),
{
    let all = report_markdown::feature_rows(rows, shares);
    let lines = Seq::new(rows.len(), |i: int| feature_line(rows[i], shares[i]@));
    assert forall|i: int| 0 <= i < all.len() implies report_markdown::row_text(#[trigger] all[i])
        == lines[i] by {
        let cells = all[i];
        assert(cells =~= seq![cells[0], cells[1], cells[2]]);
        lemma_joined_3(cells[0], cells[1], cells[2]);
    }
    lemma_rows(all, lines);
}

proof fn lemma_opcode_lines(rows: Seq<OpcodeCoverageRow>)
    ensures
        report_markdown::rows_text(
            rows.map_values(|row: OpcodeCoverageRow| report_markdown::opcode_cells(row)),
        ) == Seq::new(
            rows.len(),
            |i: int| opcode_line(rows[i].opcode@, rows[i].corpus_seen, rows[i].fuzz_seen),
        ).flatten_alt(),
{
    let all = rows.map_values(|row: OpcodeCoverageRow| report_markdown::opcode_cells(row));
    let lines = Seq::new(
        rows.len(),
        |i: int| opcode_line(rows[i].opcode@, rows[i].corpus_seen, rows[i].fuzz_seen),
    );
    assert forall|i: int| 0 <= i < all.len() implies report_markdown::row_text(#[trigger] all[i])
        == lines[i] by {
        let cells = all[i];
        assert(cells =~= seq![cells[0], cells[1], cells[2], cells[3]]);
        lemma_joined_4(cells[0], cells[1], cells[2], cells[3]);
    }
    lemma_rows(all, lines);
}

proof fn lemma_corpus_lines(corpus: Seq<CorpusEvidence>)
    ensures
        report_markdown::rows_text(
            corpus.map_values(|entry: CorpusEvidence| report_markdown::corpus_cells(entry)),
        ) == Seq::new(corpus.len(), |i: int| corpus_line(corpus[i])).flatten_alt(),
{
    let all = corpus.map_values(|entry: CorpusEvidence| report_markdown::corpus_cells(entry));
    let lines = Seq::new(corpus.len(), |i: int| corpus_line(corpus[i]));
    assert forall|i: int| 0 <= i < all.len() implies report_markdown::row_text(#[trigger] all[i])
        == lines[i] by {
        let c = all[i];
        assert(c =~= seq![c[0], c[1], c[2], c[3], c[4], c[5], c[6]]);
        lemma_joined_7(c[0], c[1], c[2], c[3], c[4], c[5], c[6]);
    }
    lemma_rows(all, lines);
}

proof fn lemma_fuzz_lines(runs: Seq<FuzzRunEvidence>)
    ensures
        report_markdown::rows_text(
            runs.map_values(|run: FuzzRunEvidence| report_markdown::fuzz_cells(run)),
        ) == Seq::new(runs.len(), |i: int| fuzz_line(runs[i])).flatten_alt(),
{
    let all = runs.map_values(|run: FuzzRunEvidence| report_markdown::fuzz_cells(run));
    let lines = Seq::new(runs.len(), |i: int| fuzz_line(runs[i]));
    assert forall|i: int| 0 <= i < all.len() implies report_markdown::row_text(#[trigger] all[i])
        == lines[i] by {
        let c = all[i];
        assert(c =~= seq![c[0], c[1], c[2], c[3], c[4], c[5], c[6], c[7]]);
        lemma_joined_8(c[0], c[1], c[2], c[3], c[4], c[5], c[6], c[7]);
    }
    lemma_rows(all, lines);
}

proof fn lemma_matrix_lines(corpus: Seq<CorpusEvidence>)
    ensures
        report_markdown::rows_text(
            corpus.map_values(|entry: CorpusEvidence| report_markdown::matrix_cells(entry)),
        ) == Seq::new(corpus.len(), |i: int| matrix_line(corpus[i])).flatten_alt(),
{
    let all = corpus.map_values(|entry: CorpusEvidence| report_markdown::matrix_cells(entry));
    let lines = Seq::new(corpus.len(), |i: int| matrix_line(corpus[i]));
    assert forall|i: int| 0 <= i < all.len() implies report_markdown::row_text(#[trigger] all[i])
        == lines[i] by {
        let c = all[i];
        assert(c =~= seq![c[0], c[1], c[2], c[3], c[4]]);
        lemma_joined_5(c[0], c[1], c[2], c[3], c[4]);
    }
    lemma_rows(all, lines);
}

proof fn lemma_museum_lines(entries: Seq<BugMuseumEvidence>)
    ensures
        report_markdown::rows_text(
            entries.map_values(|entry: BugMuseumEvidence| report_markdown::museum_cells(entry)),
        ) == Seq::new(entries.len(), |i: int| museum_line(entries[i])).flatten_alt(),
{
    let all = entries.map_values(|entry: BugMuseumEvidence| report_markdown::museum_cells(entry));
    let lines = Seq::new(entries.len(), |i: int| museum_line(entries[i]));
    assert forall|i: int| 0 <= i < all.len() implies report_markdown::row_text(#[trigger] all[i])
        == lines[i] by {
        let c = all[i];
        assert(c =~= seq![c[0], c[1], c[2], c[3], c[4], c[5]]);
        lemma_joined_6(c[0], c[1], c[2], c[3], c[4], c[5]);
    }
    lemma_rows(all, lines);
}

proof fn lemma_artifact_lines(artifacts: Seq<BugArtifactEvidence>)
    ensures
        report_markdown::rows_text(
            artifacts.map_values(
                |artifact: BugArtifactEvidence| report_markdown::artifact_cells(artifact),
            ),
        ) == Seq::new(artifacts.len(), |i: int| artifact_line(artifacts[i])).flatten_alt(),
{
    let all = artifacts.map_values(
        |artifact: BugArtifactEvidence| report_markdown::artifact_cells(artifact),
    );
    let lines = Seq::new(artifacts.len(), |i: int| artifact_line(artifacts[i]));
    assert forall|i: int| 0 <= i < all.len() implies report_markdown::row_text(#[trigger] all[i])
        == lines[i] by {
        let c = all[i];
        assert(c =~= seq![c[0], c[1], c[2]]);
        lemma_joined_3(c[0], c[1], c[2]);
    }
    lemma_rows(all, lines);
}

/// The instruction table and the count above it agree: as many instructions have the status
/// `observed` as the dashboard says were seen.
pub proof fn law_the_table_agrees_with_the_count(
    dashboard: CoverageDashboard,
    corpus: Set<Seq<char>>,
    runs: Seq<FuzzRunEvidence>,
)
    requires
        coverage::is_dashboard(dashboard, corpus, runs),
    ensures
        dashboard.opcodes_seen == dashboard.opcode_rows@.filter(
            |row: OpcodeCoverageRow| report_markdown::opcode_cells(row).last() == "observed"@,
        ).len(),
        forall|i: int|
            0 <= i < dashboard.opcode_rows.len() ==> (report_markdown::opcode_cells(
                #[trigger] dashboard.opcode_rows[i],
            ).last() == "observed"@ <==> dashboard.opcode_rows[i].corpus_seen
                || dashboard.opcode_rows[i].fuzz_seen),
{
    reveal_strlit("observed");
    reveal_strlit("missing");
    assert("observed"@.len() != "missing"@.len());
    assert((|row: OpcodeCoverageRow| report_markdown::opcode_cells(row).last() == "observed"@)
        =~= (|row: OpcodeCoverageRow| coverage::observed(row)));
}

} // verus!
