//! The dashboard of what the corpus and the fuzz runs cover.

use vstd::prelude::*;

use crate::fuzz;
use crate::fuzz::{FuzzCoverage, FuzzRunEvidence, aggregate_fuzz_coverage};
use crate::names::NameSet;
use crate::opcode;
use crate::opcode::{all_opcodes, opcode_name};

verus! {

/// What is covered: totals, a row for every feature, and a row for every kind of instruction.
#[derive(Debug, Clone)]
pub struct CoverageDashboard {
    pub fuzz_cases: usize,
    pub oracle_comparisons: usize,
    pub metamorphic_variants: usize,
    pub opcodes_seen: usize,
    pub opcodes_total: usize,
    pub feature_rows: Vec<FeatureCoverageRow>,
    pub opcode_rows: Vec<OpcodeCoverageRow>,
}

/// How many of all cases have a feature.
#[derive(Debug, Clone)]
pub struct FeatureCoverageRow {
    pub feature: String,
    pub cases: usize,
    pub total_cases: usize,
}

/// Where a kind of instruction was seen.
#[derive(Debug, Clone)]
pub struct OpcodeCoverageRow {
    pub opcode: String,
    pub corpus_seen: bool,
    pub fuzz_seen: bool,
}

/// The rows of a feature table: the feature, the cases that have it, and all cases.
pub open spec fn feature_table(coverage: FuzzCoverage) -> Seq<(Seq<char>, usize, usize)> {
    seq![
        ("coverage-guided selected cases"@, coverage.coverage_guided_cases, coverage.cases),
        ("optimizer stress cases"@, coverage.optimizer_stress_cases, coverage.cases),
        ("helper functions"@, coverage.helper_functions, coverage.cases),
        ("helper calls"@, coverage.helper_calls, coverage.cases),
        ("branches"@, coverage.branches, coverage.cases),
        ("loops"@, coverage.loops, coverage.cases),
        ("print statements"@, coverage.prints, coverage.cases),
        ("global array reads"@, coverage.global_array_reads, coverage.cases),
        ("global array writes"@, coverage.global_array_writes, coverage.cases),
        ("local array reads"@, coverage.local_array_reads, coverage.cases),
        ("local array writes"@, coverage.local_array_writes, coverage.cases),
        ("loop-indexed array writes"@, coverage.loop_indexed_array_writes, coverage.cases),
        ("helper/array interactions"@, coverage.helper_array_interactions, coverage.cases),
        ("constant-fold patterns"@, coverage.constant_fold_patterns, coverage.cases),
        ("dead-code shapes"@, coverage.dead_code_shapes, coverage.cases),
        ("metamorphic return-neutral variants"@, coverage.metamorphic_return_neutral, coverage.metamorphic_variants),
        ("metamorphic dead-branch variants"@, coverage.metamorphic_dead_branch, coverage.metamorphic_variants),
        ("metamorphic unused-local variants"@, coverage.metamorphic_unused_local, coverage.metamorphic_variants),
        ("metamorphic algebraic-neutral variants"@, coverage.metamorphic_algebraic_neutral, coverage.metamorphic_variants),
        ("metamorphic branch-inversion variants"@, coverage.metamorphic_branch_inversion, coverage.metamorphic_variants),
        ("metamorphic helper-wrapping variants"@, coverage.metamorphic_helper_wrapping, coverage.metamorphic_variants),
        ("metamorphic statement-reordering variants"@, coverage.metamorphic_statement_reordering, coverage.metamorphic_variants),
    ]
}

/// What the rows of a feature table hold.
pub open spec fn feature_views(rows: Seq<FeatureCoverageRow>) -> Seq<(Seq<char>, usize, usize)> {
    rows.map_values(|row: FeatureCoverageRow| (row.feature@, row.cases, row.total_cases))
}

/// Whether an instruction was seen anywhere.
pub open spec fn observed(row: OpcodeCoverageRow) -> bool {
    row.corpus_seen || row.fuzz_seen
}

/// Whether a row is that of an instruction, where `corpus` and `fuzz` are the names seen.
pub open spec fn is_opcode_row(
    row: OpcodeCoverageRow,
    opcode: opcode::Opcode,
    corpus: Set<Seq<char>>,
    fuzz: Set<Seq<char>>,
) -> bool {
    &&& row.opcode@ == opcode::name_of(opcode)
    &&& row.corpus_seen == corpus.contains(opcode::name_of(opcode))
    &&& row.fuzz_seen == fuzz.contains(opcode::name_of(opcode))
}

/// The number of instructions that were seen anywhere.
pub open spec fn observed_count(rows: Seq<OpcodeCoverageRow>) -> nat {
    rows.filter(|row: OpcodeCoverageRow| observed(row)).len()
}

/// Whether a dashboard is that of the fuzz runs and of a corpus with these kinds of instructions.
pub open spec fn is_dashboard(
    dashboard: CoverageDashboard,
    corpus: Set<Seq<char>>,
    runs: Seq<FuzzRunEvidence>,
) -> bool {
    &&& dashboard.opcodes_total == opcode::opcodes().len()
    &&& dashboard.opcodes_seen == observed_count(dashboard.opcode_rows@)
    &&& dashboard.opcode_rows.len() == opcode::opcodes().len()
    &&& forall|i: int|
        0 <= i < dashboard.opcode_rows.len() ==> is_opcode_row(
            #[trigger] dashboard.opcode_rows[i],
            opcode::opcodes()[i],
            corpus,
            fuzz::kinds_total(runs),
        )
    &&& exists|coverage: FuzzCoverage|
        {
            &&& #[trigger] fuzz::is_sum(coverage, runs)
            &&& dashboard.fuzz_cases == coverage.cases
            &&& dashboard.oracle_comparisons == coverage.oracle_comparisons
            &&& dashboard.metamorphic_variants == coverage.metamorphic_variants
            &&& feature_views(dashboard.feature_rows@) == feature_table(coverage)
        }
}

/// A row of a feature table.
pub fn feature_row(feature: &str, cases: usize, total_cases: usize) -> (r: FeatureCoverageRow)
    ensures
        r.feature@ == feature@,
        r.cases == cases,
        r.total_cases == total_cases,
{
    FeatureCoverageRow { feature: feature.to_string(), cases, total_cases }
}

/// The rows of the feature table of a coverage.
pub fn feature_coverage_rows(coverage: &FuzzCoverage) -> (r: Vec<FeatureCoverageRow>)
    ensures
        feature_views(r@) == feature_table(*coverage),
{
    let total = coverage.cases;
    let variants = coverage.metamorphic_variants;
    let rows: Vec<FeatureCoverageRow> = vec![
        feature_row("coverage-guided selected cases", coverage.coverage_guided_cases, total),
        feature_row("optimizer stress cases", coverage.optimizer_stress_cases, total),
        feature_row("helper functions", coverage.helper_functions, total),
        feature_row("helper calls", coverage.helper_calls, total),
        feature_row("branches", coverage.branches, total),
        feature_row("loops", coverage.loops, total),
        feature_row("print statements", coverage.prints, total),
        feature_row("global array reads", coverage.global_array_reads, total),
        feature_row("global array writes", coverage.global_array_writes, total),
        feature_row("local array reads", coverage.local_array_reads, total),
        feature_row("local array writes", coverage.local_array_writes, total),
        feature_row("loop-indexed array writes", coverage.loop_indexed_array_writes, total),
        feature_row("helper/array interactions", coverage.helper_array_interactions, total),
        feature_row("constant-fold patterns", coverage.constant_fold_patterns, total),
        feature_row("dead-code shapes", coverage.dead_code_shapes, total),
        feature_row("metamorphic return-neutral variants", coverage.metamorphic_return_neutral, variants),
        feature_row("metamorphic dead-branch variants", coverage.metamorphic_dead_branch, variants),
        feature_row("metamorphic unused-local variants", coverage.metamorphic_unused_local, variants),
        feature_row("metamorphic algebraic-neutral variants", coverage.metamorphic_algebraic_neutral, variants),
        feature_row("metamorphic branch-inversion variants", coverage.metamorphic_branch_inversion, variants),
        feature_row("metamorphic helper-wrapping variants", coverage.metamorphic_helper_wrapping, variants),
        feature_row("metamorphic statement-reordering variants", coverage.metamorphic_statement_reordering, variants),
    ];
    assert(feature_views(rows@) =~= feature_table(*coverage));
    rows
}

/// The dashboard of the fuzz runs and of a corpus with these kinds of instructions.
pub fn dashboard_of(
    corpus_opcodes: &NameSet,
    runs: &Vec<FuzzRunEvidence>,
) -> (r: CoverageDashboard)
    requires
        fuzz::counters_fit(runs@),
    ensures
        is_dashboard(r, corpus_opcodes@, runs@),
{
    let coverage = aggregate_fuzz_coverage(runs);
    let all = all_opcodes();
    let mut opcode_rows: Vec<OpcodeCoverageRow> = Vec::new();
    let mut opcodes_seen: usize = 0;
    let mut i: usize = 0;
    while i < all.len()
        invariant
            i <= all.len(),
            all@ == opcode::opcodes(),
            opcode_rows.len() == i,
            coverage.opcode_kinds@ == fuzz::kinds_total(runs@),
            opcodes_seen == observed_count(opcode_rows@),
            opcodes_seen <= i,
            forall|j: int|
                0 <= j < i ==> is_opcode_row(
                    #[trigger] opcode_rows[j],
                    all[j],
                    corpus_opcodes@,
                    fuzz::kinds_total(runs@),
                ),
        decreases all.len() - i,
    {
        let name = opcode_name(all[i]);
        let row = OpcodeCoverageRow {
            opcode: name.to_string(),
            corpus_seen: corpus_opcodes.contains(name),
            fuzz_seen: coverage.opcode_kinds.contains(name),
        };
        if row.corpus_seen || row.fuzz_seen {
            opcodes_seen = opcodes_seen + 1;
        }
        proof {
            opcode_rows@.lemma_filter_len_push(|row: OpcodeCoverageRow| observed(row), row);
        }
        opcode_rows.push(row);
        i = i + 1;
    }
    let feature_rows = feature_coverage_rows(&coverage);
    CoverageDashboard {
        fuzz_cases: coverage.cases,
        oracle_comparisons: coverage.oracle_comparisons,
        metamorphic_variants: coverage.metamorphic_variants,
        opcodes_seen,
        opcodes_total: all.len(),
        feature_rows,
        opcode_rows,
    }
}

/// No more kinds of instructions are seen than there are, and all are where every row says so.
pub proof fn law_seen_instructions_are_counted(
    dashboard: CoverageDashboard,
    corpus: Set<Seq<char>>,
    runs: Seq<FuzzRunEvidence>,
)
    requires
        is_dashboard(dashboard, corpus, runs),
    ensures
        dashboard.opcodes_seen <= dashboard.opcodes_total,
        dashboard.opcodes_seen == dashboard.opcodes_total <==> forall|i: int|
            0 <= i < dashboard.opcode_rows.len() ==> observed(#[trigger] dashboard.opcode_rows[i]),
{
    lemma_observed_count(dashboard.opcode_rows@);
}

proof fn lemma_observed_count(rows: Seq<OpcodeCoverageRow>)
    ensures
        observed_count(rows) <= rows.len(),
        observed_count(rows) == rows.len() <==> forall|i: int|
            0 <= i < rows.len() ==> observed(#[trigger] rows[i]),
    decreases rows.len(),
{
    reveal(Seq::filter);
    if rows.len() > 0 {
        let rest = rows.drop_last();
        lemma_observed_count(rest);
        assert(forall|i: int| 0 <= i < rest.len() ==> #[trigger] rest[i] == rows[i]);
        assert(forall|i: int| 0 <= i < rest.len() ==> rest[i] == #[trigger] rows[i]);
        assert(rows[rows.len() - 1] == rows.last());
    }
}

} // verus!
