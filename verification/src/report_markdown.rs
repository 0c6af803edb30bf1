//! The evidence report as Markdown.

use vstd::prelude::*;
use vstd::string::StringExecFns;

use crate::artifacts::{BugArtifactEvidence, BugMuseumEvidence};
use crate::coverage;
use crate::coverage::{CoverageDashboard, FeatureCoverageRow, OpcodeCoverageRow};
use crate::evidence::CorpusEvidence;
use crate::fuzz;
use crate::fuzz::FuzzRunEvidence;
use crate::report::{EvidenceReport, EvidenceSummary};
use crate::table::same_text;
use crate::text;
use crate::text::{joined_text, push_hex16, push_usize};

verus! {

/// A row of a table with these cells.
pub open spec fn row_text(cells: Seq<Seq<char>>) -> Seq<char> {
    "| "@ + text::joined(cells, " | "@) + " |\n"@
}

/// Rows of a table, each with its cells.
pub open spec fn rows_text(rows: Seq<Seq<Seq<char>>>) -> Seq<char>
    decreases rows.len(),
{
    if rows.len() == 0 {
        Seq::empty()
    } else {
        rows_text(rows.drop_last()) + row_text(rows.last())
    }
}

/// The word for a check that passed or failed.
pub open spec fn status_word(value: bool) -> Seq<char> {
    if value {
        "passed"@
    } else {
        "failed"@
    }
}

/// The word for yes or no.
pub open spec fn yes_no_word(value: bool) -> Seq<char> {
    if value {
        "yes"@
    } else {
        "no"@
    }
}

/// The status of a backend in the matrix of a program: that of its first cell, if it has one.
pub open spec fn matrix_status(
    cells: Seq<crate::evidence::BackendCell>,
    name: Seq<char>,
) -> Seq<char>
    decreases cells.len(),
{
    if cells.len() == 0 {
        "n/a"@
    } else if cells[0].backend@ == name {
        cells[0].status@
    } else {
        matrix_status(cells.skip(1), name)
    }
}

/// The verdict.
pub open spec fn verdict_section(summary: EvidenceSummary) -> Seq<char> {
    "# Qydrel Evidence Report\n\n## Verdict\n\n"@ + (if summary.passed {
        "Passed"@
    } else {
        "Failed"@
    }) + ": corpus files="@ + text::decimal(summary.corpus_files as int) + ", fuzz runs="@
        + text::decimal(summary.fuzz_runs as int) + ", fuzz cases executed="@ + text::decimal(
        summary.fuzz_cases_executed as int,
    ) + ", bug museum entries="@ + text::decimal(summary.bug_museum_entries as int)
        + ", local fuzz artifacts="@ + text::decimal(summary.historical_artifacts as int) + ".\n"@
}

/// The cells of a feature, with its share of all cases.
pub open spec fn feature_cells(row: FeatureCoverageRow, share: Seq<char>) -> Seq<Seq<char>> {
    seq![
        row.feature@,
        text::decimal(row.cases as int) + " / "@ + text::decimal(row.total_cases as int),
        if row.total_cases == 0 {
            "n/a"@
        } else {
            share
        },
    ]
}

/// The cells of a kind of instruction.
pub open spec fn opcode_cells(row: OpcodeCoverageRow) -> Seq<Seq<char>> {
    seq![
        row.opcode@,
        yes_no_word(row.corpus_seen),
        yes_no_word(row.fuzz_seen),
        if coverage::observed(row) {
            "observed"@
        } else {
            "missing"@
        },
    ]
}

/// The dashboard.
pub open spec fn dashboard_section(dashboard: CoverageDashboard, shares: Seq<String>) -> Seq<char> {
    "\n## Coverage Dashboard\n\nObserved coverage from checked-in corpus programs plus the deterministic evidence fuzz matrix. This is execution evidence, not a completeness proof. Opcodes observed: "@
        + text::decimal(dashboard.opcodes_seen as int) + "/"@ + text::decimal(
        dashboard.opcodes_total as int,
    ) + ". AST oracle comparisons: "@ + text::decimal(dashboard.oracle_comparisons as int)
        + ". Metamorphic variants checked: "@ + text::decimal(
        dashboard.metamorphic_variants as int,
    ) + ".\n\n### Feature Coverage\n\n| Feature | Cases | Share |\n| --- | ---: | ---: |\n"@
        + rows_text(feature_rows(dashboard.feature_rows@, shares))
        + "\n### Opcode Coverage\n\n| Opcode | Corpus | Fuzz | Status |\n| --- | --- | --- | --- |\n"@
        + rows_text(dashboard.opcode_rows@.map_values(|row: OpcodeCoverageRow| opcode_cells(row)))
}

/// The rows of the feature table, with the share of each.
pub open spec fn feature_rows(
    rows: Seq<FeatureCoverageRow>,
    shares: Seq<String>,
) -> Seq<Seq<Seq<char>>> {
    Seq::new(rows.len(), |i: int| feature_cells(rows[i], shares[i]@))
}

/// The cells of a program of the corpus.
pub open spec fn corpus_cells(entry: CorpusEvidence) -> Seq<Seq<char>> {
    seq![
        entry.path@,
        status_word(entry.compile_passed),
        status_word(entry.verify_passed),
        status_word(entry.oracle_equivalent),
        status_word(entry.backend_equivalent),
        status_word(entry.trace_replay_passed),
        status_word(entry.trace_diff_passed),
    ]
}

/// The status of the corpus.
pub open spec fn corpus_section(corpus: Seq<CorpusEvidence>) -> Seq<char> {
    "\n## Corpus Status\n\n| File | Compile | Verify | Oracle | Backends | Replay | VM/GC Diff |\n| --- | --- | --- | --- | --- | --- | --- |\n"@
        + rows_text(corpus.map_values(|entry: CorpusEvidence| corpus_cells(entry)))
}

/// The reads and writes of local arrays in a run.
pub open spec fn local_arrays(run: FuzzRunEvidence) -> int {
    run.report.coverage.local_array_reads + run.report.coverage.local_array_writes
}

/// The cells of a fuzz run.
pub open spec fn fuzz_cells(run: FuzzRunEvidence) -> Seq<Seq<char>> {
    seq![
        "0x"@ + text::hex16(run.seed),
        fuzz::mode_name(run.mode),
        text::decimal(run.report.cases_executed as int),
        status_word(run.report.success),
        text::decimal(run.report.coverage.branches as int),
        text::decimal(run.report.coverage.loops as int),
        text::decimal(local_arrays(run)),
        text::decimal(run.report.coverage.opcode_kinds@.len() as int),
    ]
}

/// The fuzz matrix.
pub open spec fn fuzz_section(runs: Seq<FuzzRunEvidence>) -> Seq<char> {
    "\n## Fuzz Matrix Detail\n\n| Seed | Mode | Cases | Status | Branches | Loops | Local Arrays | Opcodes |\n| --- | --- | ---: | --- | ---: | ---: | ---: | ---: |\n"@
        + rows_text(runs.map_values(|run: FuzzRunEvidence| fuzz_cells(run)))
}

/// The cells of a program in the backend matrix.
pub open spec fn matrix_cells(entry: CorpusEvidence) -> Seq<Seq<char>> {
    seq![
        entry.path@,
        matrix_status(entry.backend_matrix@, "VM"@),
        matrix_status(entry.backend_matrix@, "GC VM"@),
        matrix_status(entry.backend_matrix@, "Optimized VM"@),
        matrix_status(entry.backend_matrix@, "JIT"@),
    ]
}

/// The backend matrix.
pub open spec fn matrix_section(corpus: Seq<CorpusEvidence>) -> Seq<char> {
    "\n## Backend Matrix\n\n| Program | VM | GC VM | Optimized VM | JIT |\n| --- | --- | --- | --- | --- |\n"@
        + rows_text(corpus.map_values(|entry: CorpusEvidence| matrix_cells(entry)))
}

/// The cells of a documented bug.
pub open spec fn museum_cells(entry: BugMuseumEvidence) -> Seq<Seq<char>> {
    seq![
        entry.id@,
        entry.status@,
        entry.expected@,
        entry.proof_gate@,
        yes_no_word(entry.has_repro_source),
        yes_no_word(entry.has_readme),
    ]
}

/// The documented bugs.
pub open spec fn museum_section(entries: Seq<BugMuseumEvidence>) -> Seq<char> {
    "\n## Bug Museum\n\n| Entry | Status | Expected Behavior | Proof Gate | Repro | Docs |\n| --- | --- | --- | --- | --- | --- |\n"@
        + (if entries.len() == 0 {
        "| none | n/a | n/a | n/a | no | no |\n"@
    } else {
        rows_text(entries.map_values(|entry: BugMuseumEvidence| museum_cells(entry)))
    })
}

/// The cells of an artifact.
pub open spec fn artifact_cells(artifact: BugArtifactEvidence) -> Seq<Seq<char>> {
    seq![
        artifact.path@,
        status_word(artifact.has_manifest),
        status_word(artifact.has_minimized_source),
    ]
}

/// The artifacts.
pub open spec fn artifact_section(artifacts: Seq<BugArtifactEvidence>) -> Seq<char> {
    "\n## Local Fuzz Artifacts\n\n| Artifact | Manifest | Minimized Source |\n| --- | --- | --- |\n"@
        + (if artifacts.len() == 0 {
        "| none | no | no |\n"@
    } else {
        rows_text(artifacts.map_values(|artifact: BugArtifactEvidence| artifact_cells(artifact)))
    })
}

/// A report as Markdown, where `shares` are the percentages that stand in the rows of the feature
/// table.
pub open spec fn markdown(report: EvidenceReport, shares: Seq<String>) -> Seq<char> {
    verdict_section(report.summary) + dashboard_section(report.coverage, shares) + corpus_section(
        report.corpus@,
    ) + fuzz_section(report.fuzz@) + matrix_section(report.corpus@) + museum_section(
        report.bug_museum@,
    ) + artifact_section(report.artifacts@)
}

/// The word for a check that passed or failed.
pub fn status(value: bool) -> (r: &'static str)
    ensures
        r@ == status_word(value),
{
    if value {
        "passed"
    } else {
        "failed"
    }
}

/// The word for yes or no.
pub fn yes_no(value: bool) -> (r: &'static str)
    ensures
        r@ == yes_no_word(value),
{
    if value {
        "yes"
    } else {
        "no"
    }
}

/// The status of a backend in the matrix of a program.
pub fn backend_status(entry: &CorpusEvidence, name: &str) -> (r: String)
    ensures
        r@ == matrix_status(entry.backend_matrix@, name@),
{
    let cells = &entry.backend_matrix;
    let mut i: usize = 0;
    assert(cells@.skip(0) =~= cells@);
    while i < cells.len()
        invariant
            i <= cells.len(),
            cells@ == entry.backend_matrix@,
            matrix_status(cells@, name@) == matrix_status(cells@.skip(i as int), name@),
        decreases cells.len() - i,
    {
        assert(cells@.skip(i as int)[0] == cells[i as int]);
        if same_text(cells[i].backend.as_str(), name) {
            return cells[i].status.clone();
        }
        assert(cells@.skip(i as int).skip(1) =~= cells@.skip(i + 1));
        i = i + 1;
    }
    "n/a".to_string()
}

/// The decimal notation of a count.
fn count_text(n: usize) -> (r: String)
    ensures
        r@ == text::decimal(n as int),
{
    let mut out = String::new();
    push_usize(&mut out, n);
    assert(out@ =~= text::decimal(n as int));
    out
}

/// Appends a row of a table.
fn push_row(out: &mut String, cells: &Vec<String>)
    ensures
        final(out)@ == old(out)@ + row_text(text::texts(cells@)),
{
    out.append("| ");
    out.append(joined_text(cells, " | ").as_str());
    out.append(" |\n");
    assert(out@ =~= old(out)@ + row_text(text::texts(cells@)));
}

/// One more row.
proof fn lemma_one_more_row(rows: Seq<Seq<Seq<char>>>, i: int)
    requires
        0 <= i < rows.len(),
    ensures
        rows_text(rows.take(i + 1)) == rows_text(rows.take(i)) + row_text(rows[i]),
{
    assert(rows.take(i + 1).drop_last() =~= rows.take(i));
}

fn verdict_text(summary: &EvidenceSummary) -> (r: String)
    ensures
        r@ == verdict_section(*summary),
{
    let mut out = "# Qydrel Evidence Report\n\n## Verdict\n\n".to_string();
    out.append(
        if summary.passed {
            "Passed"
        } else {
            "Failed"
        },
    );
    out.append(": corpus files=");
    push_usize(&mut out, summary.corpus_files);
    out.append(", fuzz runs=");
    push_usize(&mut out, summary.fuzz_runs);
    out.append(", fuzz cases executed=");
    push_usize(&mut out, summary.fuzz_cases_executed);
    out.append(", bug museum entries=");
    push_usize(&mut out, summary.bug_museum_entries);
    out.append(", local fuzz artifacts=");
    push_usize(&mut out, summary.historical_artifacts);
    out.append(".\n");
    out
}

fn feature_rows_text(rows: &Vec<FeatureCoverageRow>, shares: &Vec<String>) -> (r: String)
    requires
        shares.len() == rows.len(),
    ensures
        r@ == rows_text(feature_rows(rows@, shares@)),
{
    let ghost all: Seq<Seq<Seq<char>>> = feature_rows(rows@, shares@);
    let mut out = String::new();
    let mut i: usize = 0;
    while i < rows.len()
        invariant
            i <= rows.len(),
            shares.len() == rows.len(),
            all == feature_rows(rows@, shares@),
            out@ == rows_text(all.take(i as int)),
        decreases rows.len() - i,
    {
        let row = &rows[i];
        let mut share_of_cases = count_text(row.cases);
        share_of_cases.append(" / ");
        push_usize(&mut share_of_cases, row.total_cases);
        let share = if row.total_cases == 0 {
            "n/a".to_string()
        } else {
            shares[i].clone()
        };
        let cells: Vec<String> = vec![row.feature.clone(), share_of_cases, share];
        assert(text::texts(cells@) =~= all[i as int]);
        push_row(&mut out, &cells);
        proof {
            lemma_one_more_row(all, i as int);
        }
        i = i + 1;
    }
    assert(all.take(i as int) =~= all);
    out
}

fn opcode_rows_text(rows: &Vec<OpcodeCoverageRow>) -> (r: String)
    ensures
        r@ == rows_text(rows@.map_values(|row: OpcodeCoverageRow| opcode_cells(row))),
{
    let ghost all: Seq<Seq<Seq<char>>> = rows@.map_values(
        |row: OpcodeCoverageRow| opcode_cells(row),
    );
    let mut out = String::new();
    let mut i: usize = 0;
    while i < rows.len()
        invariant
            i <= rows.len(),
            all == rows@.map_values(|row: OpcodeCoverageRow| opcode_cells(row)),
            out@ == rows_text(all.take(i as int)),
        decreases rows.len() - i,
    {
        let row = &rows[i];
        let seen = if row.corpus_seen || row.fuzz_seen {
            "observed"
        } else {
            "missing"
        };
        let cells: Vec<String> = vec![
            row.opcode.clone(),
            yes_no(row.corpus_seen).to_string(),
            yes_no(row.fuzz_seen).to_string(),
            seen.to_string(),
        ];
        assert(text::texts(cells@) =~= all[i as int]);
        push_row(&mut out, &cells);
        proof {
            lemma_one_more_row(all, i as int);
        }
        i = i + 1;
    }
    assert(all.take(i as int) =~= all);
    out
}

fn dashboard_text(dashboard: &CoverageDashboard, shares: &Vec<String>) -> (r: String)
    requires
        shares.len() == dashboard.feature_rows.len(),
    ensures
        r@ == dashboard_section(*dashboard, shares@),
{
    let mut out =
        "\n## Coverage Dashboard\n\nObserved coverage from checked-in corpus programs plus the deterministic evidence fuzz matrix. This is execution evidence, not a completeness proof. Opcodes observed: ".to_string();
    push_usize(&mut out, dashboard.opcodes_seen);
    out.append("/");
    push_usize(&mut out, dashboard.opcodes_total);
    out.append(". AST oracle comparisons: ");
    push_usize(&mut out, dashboard.oracle_comparisons);
    out.append(". Metamorphic variants checked: ");
    push_usize(&mut out, dashboard.metamorphic_variants);
    out.append(".\n\n### Feature Coverage\n\n| Feature | Cases | Share |\n| --- | ---: | ---: |\n");
    out.append(feature_rows_text(&dashboard.feature_rows, shares).as_str());
    out.append(
        "\n### Opcode Coverage\n\n| Opcode | Corpus | Fuzz | Status |\n| --- | --- | --- | --- |\n",
    );
    out.append(opcode_rows_text(&dashboard.opcode_rows).as_str());
    out
}

fn corpus_text(corpus: &Vec<CorpusEvidence>) -> (r: String)
    ensures
        r@ == corpus_section(corpus@),
{
    let ghost all: Seq<Seq<Seq<char>>> = corpus@.map_values(
        |entry: CorpusEvidence| corpus_cells(entry),
    );
    let mut rows = String::new();
    let mut i: usize = 0;
    while i < corpus.len()
        invariant
            i <= corpus.len(),
            all == corpus@.map_values(|entry: CorpusEvidence| corpus_cells(entry)),
            rows@ == rows_text(all.take(i as int)),
        decreases corpus.len() - i,
    {
        let entry = &corpus[i];
        let cells: Vec<String> = vec![
            entry.path.clone(),
            status(entry.compile_passed).to_string(),
            status(entry.verify_passed).to_string(),
            status(entry.oracle_equivalent).to_string(),
            status(entry.backend_equivalent).to_string(),
            status(entry.trace_replay_passed).to_string(),
            status(entry.trace_diff_passed).to_string(),
        ];
        assert(text::texts(cells@) =~= all[i as int]);
        push_row(&mut rows, &cells);
        proof {
            lemma_one_more_row(all, i as int);
        }
        i = i + 1;
    }
    assert(all.take(i as int) =~= all);
    text::concat2(
        "\n## Corpus Status\n\n| File | Compile | Verify | Oracle | Backends | Replay | VM/GC Diff |\n| --- | --- | --- | --- | --- | --- | --- |\n",
        rows.as_str(),
    )
}

fn fuzz_text(runs: &Vec<FuzzRunEvidence>) -> (r: String)
    requires
        forall|i: int| 0 <= i < runs.len() ==> local_arrays(#[trigger] runs[i]) <= usize::MAX,
    ensures
        r@ == fuzz_section(runs@),
{
    let ghost all: Seq<Seq<Seq<char>>> = runs@.map_values(|run: FuzzRunEvidence| fuzz_cells(run));
    let mut rows = String::new();
    let mut i: usize = 0;
    while i < runs.len()
        invariant
            i <= runs.len(),
            forall|i: int| 0 <= i < runs.len() ==> local_arrays(#[trigger] runs[i]) <= usize::MAX,
            all == runs@.map_values(|run: FuzzRunEvidence| fuzz_cells(run)),
            rows@ == rows_text(all.take(i as int)),
        decreases runs.len() - i,
    {
        let run = &runs[i];
        let covered = &run.report.coverage;
        let mut seed = "0x".to_string();
        push_hex16(&mut seed, run.seed);
        assert(local_arrays(runs[i as int]) <= usize::MAX);
        let cells: Vec<String> = vec![
            seed,
            run.mode.as_str().to_string(),
            count_text(run.report.cases_executed),
            status(run.report.success).to_string(),
            count_text(covered.branches),
            count_text(covered.loops),
            count_text(covered.local_array_reads + covered.local_array_writes),
            count_text(covered.opcode_kinds.len()),
        ];
        assert(text::texts(cells@) =~= all[i as int]);
        push_row(&mut rows, &cells);
        proof {
            lemma_one_more_row(all, i as int);
        }
        i = i + 1;
    }
    assert(all.take(i as int) =~= all);
    text::concat2(
        "\n## Fuzz Matrix Detail\n\n| Seed | Mode | Cases | Status | Branches | Loops | Local Arrays | Opcodes |\n| --- | --- | ---: | --- | ---: | ---: | ---: | ---: |\n",
        rows.as_str(),
    )
}

fn matrix_text(corpus: &Vec<CorpusEvidence>) -> (r: String)
    ensures
        r@ == matrix_section(corpus@),
{
    let ghost all: Seq<Seq<Seq<char>>> = corpus@.map_values(
        |entry: CorpusEvidence| matrix_cells(entry),
    );
    let mut rows = String::new();
    let mut i: usize = 0;
    while i < corpus.len()
        invariant
            i <= corpus.len(),
            all == corpus@.map_values(|entry: CorpusEvidence| matrix_cells(entry)),
            rows@ == rows_text(all.take(i as int)),
        decreases corpus.len() - i,
    {
        let entry = &corpus[i];
        let cells: Vec<String> = vec![
            entry.path.clone(),
            backend_status(entry, "VM"),
            backend_status(entry, "GC VM"),
            backend_status(entry, "Optimized VM"),
            backend_status(entry, "JIT"),
        ];
        assert(text::texts(cells@) =~= all[i as int]);
        push_row(&mut rows, &cells);
        proof {
            lemma_one_more_row(all, i as int);
        }
        i = i + 1;
    }
    assert(all.take(i as int) =~= all);
    text::concat2(
        "\n## Backend Matrix\n\n| Program | VM | GC VM | Optimized VM | JIT |\n| --- | --- | --- | --- | --- |\n",
        rows.as_str(),
    )
}

fn museum_text(entries: &Vec<BugMuseumEvidence>) -> (r: String)
    ensures
        r@ == museum_section(entries@),
{
    let ghost all: Seq<Seq<Seq<char>>> = entries@.map_values(
        |entry: BugMuseumEvidence| museum_cells(entry),
    );
    let mut rows = String::new();
    let mut i: usize = 0;
    while i < entries.len()
        invariant
            i <= entries.len(),
            all == entries@.map_values(|entry: BugMuseumEvidence| museum_cells(entry)),
            rows@ == rows_text(all.take(i as int)),
        decreases entries.len() - i,
    {
        let entry = &entries[i];
        let cells: Vec<String> = vec![
            entry.id.clone(),
            entry.status.clone(),
            entry.expected.clone(),
            entry.proof_gate.clone(),
            yes_no(entry.has_repro_source).to_string(),
            yes_no(entry.has_readme).to_string(),
        ];
        assert(text::texts(cells@) =~= all[i as int]);
        push_row(&mut rows, &cells);
        proof {
            lemma_one_more_row(all, i as int);
        }
        i = i + 1;
    }
    assert(all.take(i as int) =~= all);
    text::concat2(
        "\n## Bug Museum\n\n| Entry | Status | Expected Behavior | Proof Gate | Repro | Docs |\n| --- | --- | --- | --- | --- | --- |\n",
        if entries.len() == 0 {
            "| none | n/a | n/a | n/a | no | no |\n"
        } else {
            rows.as_str()
        },
    )
}

fn artifact_text(artifacts: &Vec<BugArtifactEvidence>) -> (r: String)
    ensures
        r@ == artifact_section(artifacts@),
{
    let ghost all: Seq<Seq<Seq<char>>> = artifacts@.map_values(
        |artifact: BugArtifactEvidence| artifact_cells(artifact),
    );
    let mut rows = String::new();
    let mut i: usize = 0;
    while i < artifacts.len()
        invariant
            i <= artifacts.len(),
            all == artifacts@.map_values(
                |artifact: BugArtifactEvidence| artifact_cells(artifact),
            ),
            rows@ == rows_text(all.take(i as int)),
        decreases artifacts.len() - i,
    {
        let artifact = &artifacts[i];
        let cells: Vec<String> = vec![
            artifact.path.clone(),
            status(artifact.has_manifest).to_string(),
            status(artifact.has_minimized_source).to_string(),
        ];
        assert(text::texts(cells@) =~= all[i as int]);
        push_row(&mut rows, &cells);
        proof {
            lemma_one_more_row(all, i as int);
        }
        i = i + 1;
    }
    assert(all.take(i as int) =~= all);
    text::concat2(
        "\n## Local Fuzz Artifacts\n\n| Artifact | Manifest | Minimized Source |\n| --- | --- | --- |\n",
        if artifacts.len() == 0 {
            "| none | no | no |\n"
        } else {
            rows.as_str()
        },
    )
}

impl EvidenceReport {
    /// The report as Markdown. `shares` holds, for every row of the feature table, the percentage
    /// of cases that have the feature; a row of no cases has none to show.
    pub fn to_markdown(&self, shares: &Vec<String>) -> (r: String)
        requires
            shares.len() == self.coverage.feature_rows.len(),
            forall|i: int|
                0 <= i < self.fuzz.len() ==> local_arrays(#[trigger] self.fuzz[i]) <= usize::MAX,
        ensures
            r@ == markdown(*self, shares@),
    {
        let mut out = verdict_text(&self.summary);
        out.append(dashboard_text(&self.coverage, shares).as_str());
        out.append(corpus_text(&self.corpus).as_str());
        out.append(fuzz_text(&self.fuzz).as_str());
        out.append(matrix_text(&self.corpus).as_str());
        out.append(museum_text(&self.bug_museum).as_str());
        out.append(artifact_text(&self.artifacts).as_str());
        out
    }
}

} // verus!
