//! Fuzz runs: what they are asked to do, and what they cover.

use vstd::prelude::*;
use vstd::string::StringExecFns;

use crate::names::NameSet;
use crate::text;
use crate::text::push_hex16;

verus! {

/// How a fuzz run makes its programs.
#[derive(Debug, Clone, Copy, PartialEq, Eq, Structural)]
pub enum FuzzMode {
    General,
    OptimizerStress,
}

/// The name of a mode.
pub open spec fn mode_name(mode: FuzzMode) -> Seq<char> {
    match mode {
        FuzzMode::General => "general"@,
        FuzzMode::OptimizerStress => "optimizer-stress"@,
    }
}

impl FuzzMode {
    /// The name of the mode.
    pub fn as_str(&self) -> (r: &'static str)
        ensures
            r@ == mode_name(*self),
    {
        match self {
            FuzzMode::General => "general",
            FuzzMode::OptimizerStress => "optimizer-stress",
        }
    }
}

/// What the cases of a fuzz run cover.
#[derive(Debug, Clone)]
pub struct FuzzCoverage {
    pub cases: usize,
    pub coverage_guided_cases: usize,
    pub oracle_comparisons: usize,
    pub metamorphic_variants: usize,
    pub metamorphic_return_neutral: usize,
    pub metamorphic_dead_branch: usize,
    pub metamorphic_unused_local: usize,
    pub metamorphic_algebraic_neutral: usize,
    pub metamorphic_branch_inversion: usize,
    pub metamorphic_helper_wrapping: usize,
    pub metamorphic_statement_reordering: usize,
    pub optimizer_stress_cases: usize,
    pub helper_functions: usize,
    pub helper_calls: usize,
    pub branches: usize,
    pub loops: usize,
    pub prints: usize,
    pub global_array_reads: usize,
    pub global_array_writes: usize,
    pub local_array_reads: usize,
    pub local_array_writes: usize,
    pub loop_indexed_array_writes: usize,
    pub helper_array_interactions: usize,
    pub constant_fold_patterns: usize,
    pub dead_code_shapes: usize,
    /// The kinds of instructions that occurred.
    pub opcode_kinds: NameSet,
}

/// The result of a fuzz run.
#[derive(Debug, Clone)]
pub struct FuzzReport {
    pub success: bool,
    pub cases_executed: usize,
    pub coverage: FuzzCoverage,
    /// What the fuzzer reports of the run, as JSON.
    pub json: String,
}

/// A fuzz run: the seed and the mode, and its result.
#[derive(Debug, Clone)]
pub struct FuzzRunEvidence {
    pub seed: u64,
    pub mode: FuzzMode,
    pub report: FuzzReport,
}

/// A fuzz run that is to be made.
#[derive(Debug, Clone)]
pub struct FuzzJob {
    pub seed: u64,
    pub mode: FuzzMode,
    pub cases: usize,
    /// The directories, each within the one before it, that lead from the output directory to the
    /// one for the artifacts of the run.
    pub artifact_path: Vec<String>,
}

/// The counters of a coverage, in the order of their declaration.
pub open spec fn counters(coverage: FuzzCoverage) -> Seq<usize> {
    seq![
        coverage.cases,
        coverage.coverage_guided_cases,
        coverage.oracle_comparisons,
        coverage.metamorphic_variants,
        coverage.metamorphic_return_neutral,
        coverage.metamorphic_dead_branch,
        coverage.metamorphic_unused_local,
        coverage.metamorphic_algebraic_neutral,
        coverage.metamorphic_branch_inversion,
        coverage.metamorphic_helper_wrapping,
        coverage.metamorphic_statement_reordering,
        coverage.optimizer_stress_cases,
        coverage.helper_functions,
        coverage.helper_calls,
        coverage.branches,
        coverage.loops,
        coverage.prints,
        coverage.global_array_reads,
        coverage.global_array_writes,
        coverage.local_array_reads,
        coverage.local_array_writes,
        coverage.loop_indexed_array_writes,
        coverage.helper_array_interactions,
        coverage.constant_fold_patterns,
        coverage.dead_code_shapes,
    ]
}

/// The sum over all runs of the counter at position `k`.
pub open spec fn counter_total(runs: Seq<FuzzRunEvidence>, k: int) -> int
    decreases runs.len(),
{
    if runs.len() == 0 {
        0
    } else {
        counter_total(runs.drop_last(), k) + counters(runs.last().report.coverage)[k]
    }
}

/// The cases that all runs executed.
pub open spec fn executed_total(runs: Seq<FuzzRunEvidence>) -> int
    decreases runs.len(),
{
    if runs.len() == 0 {
        0
    } else {
        executed_total(runs.drop_last()) + runs.last().report.cases_executed
    }
}

/// The kinds of instructions that occurred in any run.
pub open spec fn kinds_total(runs: Seq<FuzzRunEvidence>) -> Set<Seq<char>>
    decreases runs.len(),
{
    if runs.len() == 0 {
        Set::empty()
    } else {
        kinds_total(runs.drop_last()).union(runs.last().report.coverage.opcode_kinds@)
    }
}

/// Whether the counters of a coverage are the sums over all runs, and its kinds of instructions
/// those that occurred in any.
pub open spec fn is_sum(coverage: FuzzCoverage, runs: Seq<FuzzRunEvidence>) -> bool {
    &&& forall|k: int| 0 <= k < 25 ==> #[trigger] counters(coverage)[k] == counter_total(runs, k)
    &&& coverage.opcode_kinds@ == kinds_total(runs)
}

/// Whether the sum of every counter over all runs is a machine integer.
pub open spec fn counters_fit(runs: Seq<FuzzRunEvidence>) -> bool {
    forall|k: int| 0 <= k < 25 ==> #[trigger] counter_total(runs, k) <= usize::MAX
}

/// Whether all sums over the runs are machine integers.
pub open spec fn totals_fit(runs: Seq<FuzzRunEvidence>) -> bool {
    counters_fit(runs) && executed_total(runs) <= usize::MAX
}

/// A sum over some runs is not greater than that over all.
pub proof fn lemma_totals_grow(runs: Seq<FuzzRunEvidence>, n: int, k: int)
    requires
        0 <= n <= runs.len(),
        0 <= k < 25,
    ensures
        0 <= counter_total(runs.take(n), k) <= counter_total(runs, k),
        0 <= executed_total(runs.take(n)) <= executed_total(runs),
    decreases runs.len(),
{
    if n < runs.len() {
        assert(runs.drop_last().take(n) =~= runs.take(n));
        lemma_totals_grow(runs.drop_last(), n, k);
    } else if n > 0 {
        assert(runs.take(n) =~= runs);
        assert(runs.drop_last().take(n - 1) =~= runs.drop_last());
        lemma_totals_grow(runs.drop_last(), n - 1, k);
    }
}

/// Aggregating is additive: the sums over two groups of runs add up to those over both together,
/// and the kinds of instructions are those of either.
pub proof fn law_totals_add_up(first: Seq<FuzzRunEvidence>, second: Seq<FuzzRunEvidence>, k: int)
    ensures
        counter_total(first + second, k) == counter_total(first, k) + counter_total(second, k),
        executed_total(first + second) == executed_total(first) + executed_total(second),
        kinds_total(first + second) == kinds_total(first).union(kinds_total(second)),
    decreases second.len(),
{
    if second.len() == 0 {
        assert(first + second =~= first);
        assert(kinds_total(first).union(Set::empty()) =~= kinds_total(first));
    } else {
        assert((first + second).drop_last() =~= first + second.drop_last());
        law_totals_add_up(first, second.drop_last(), k);
        assert(kinds_total(first + second) =~= kinds_total(first).union(kinds_total(second)));
    }
}

impl FuzzCoverage {
    /// The coverage of nothing.
    pub fn new() -> (r: Self)
        ensures
            counters(r) == Seq::new(25, |k: int| 0usize),
            r.opcode_kinds@ == Set::<Seq<char>>::empty(),
    {
        let r = FuzzCoverage {
            cases: 0,
            coverage_guided_cases: 0,
            oracle_comparisons: 0,
            metamorphic_variants: 0,
            metamorphic_return_neutral: 0,
            metamorphic_dead_branch: 0,
            metamorphic_unused_local: 0,
            metamorphic_algebraic_neutral: 0,
            metamorphic_branch_inversion: 0,
            metamorphic_helper_wrapping: 0,
            metamorphic_statement_reordering: 0,
            optimizer_stress_cases: 0,
            helper_functions: 0,
            helper_calls: 0,
            branches: 0,
            loops: 0,
            prints: 0,
            global_array_reads: 0,
            global_array_writes: 0,
            local_array_reads: 0,
            local_array_writes: 0,
            loop_indexed_array_writes: 0,
            helper_array_interactions: 0,
            constant_fold_patterns: 0,
            dead_code_shapes: 0,
            opcode_kinds: NameSet::new(),
        };
        assert(counters(r) =~= Seq::new(25, |k: int| 0usize));
        r
    }

    /// The counters, in the order of their declaration.
    fn counter_list(&self) -> (r: Vec<usize>)
        ensures
            r@ == counters(*self),
    {
        let list: Vec<usize> = vec![
            self.cases,
            self.coverage_guided_cases,
            self.oracle_comparisons,
            self.metamorphic_variants,
            self.metamorphic_return_neutral,
            self.metamorphic_dead_branch,
            self.metamorphic_unused_local,
            self.metamorphic_algebraic_neutral,
            self.metamorphic_branch_inversion,
            self.metamorphic_helper_wrapping,
            self.metamorphic_statement_reordering,
            self.optimizer_stress_cases,
            self.helper_functions,
            self.helper_calls,
            self.branches,
            self.loops,
            self.prints,
            self.global_array_reads,
            self.global_array_writes,
            self.local_array_reads,
            self.local_array_writes,
            self.loop_indexed_array_writes,
            self.helper_array_interactions,
            self.constant_fold_patterns,
            self.dead_code_shapes,
        ];
        assert(list@ =~= counters(*self));
        list
    }

    /// The coverage of two groups of cases together.
    fn plus(self, other: &FuzzCoverage) -> (r: Self)
        requires
            forall|k: int|
                0 <= k < 25 ==> #[trigger] counters(self)[k] + counters(*other)[k] <= usize::MAX,
        ensures
            forall|k: int|
                0 <= k < 25 ==> #[trigger] counters(r)[k] == counters(self)[k] + counters(
                    *other,
                )[k],
            r.opcode_kinds@ == self.opcode_kinds@.union(other.opcode_kinds@),
    {
        proof {
            assert(counters(self)[0] + counters(*other)[0] <= usize::MAX);
            assert(counters(self)[1] + counters(*other)[1] <= usize::MAX);
            assert(counters(self)[2] + counters(*other)[2] <= usize::MAX);
            assert(counters(self)[3] + counters(*other)[3] <= usize::MAX);
            assert(counters(self)[4] + counters(*other)[4] <= usize::MAX);
            assert(counters(self)[5] + counters(*other)[5] <= usize::MAX);
            assert(counters(self)[6] + counters(*other)[6] <= usize::MAX);
            assert(counters(self)[7] + counters(*other)[7] <= usize::MAX);
            assert(counters(self)[8] + counters(*other)[8] <= usize::MAX);
            assert(counters(self)[9] + counters(*other)[9] <= usize::MAX);
            assert(counters(self)[10] + counters(*other)[10] <= usize::MAX);
            assert(counters(self)[11] + counters(*other)[11] <= usize::MAX);
            assert(counters(self)[12] + counters(*other)[12] <= usize::MAX);
            assert(counters(self)[13] + counters(*other)[13] <= usize::MAX);
            assert(counters(self)[14] + counters(*other)[14] <= usize::MAX);
            assert(counters(self)[15] + counters(*other)[15] <= usize::MAX);
            assert(counters(self)[16] + counters(*other)[16] <= usize::MAX);
            assert(counters(self)[17] + counters(*other)[17] <= usize::MAX);
            assert(counters(self)[18] + counters(*other)[18] <= usize::MAX);
            assert(counters(self)[19] + counters(*other)[19] <= usize::MAX);
            assert(counters(self)[20] + counters(*other)[20] <= usize::MAX);
            assert(counters(self)[21] + counters(*other)[21] <= usize::MAX);
            assert(counters(self)[22] + counters(*other)[22] <= usize::MAX);
            assert(counters(self)[23] + counters(*other)[23] <= usize::MAX);
            assert(counters(self)[24] + counters(*other)[24] <= usize::MAX);
        }
        FuzzCoverage {
            cases: self.cases + other.cases,
            coverage_guided_cases: self.coverage_guided_cases + other.coverage_guided_cases,
            oracle_comparisons: self.oracle_comparisons + other.oracle_comparisons,
            metamorphic_variants: self.metamorphic_variants + other.metamorphic_variants,
            metamorphic_return_neutral: self.metamorphic_return_neutral + other.metamorphic_return_neutral,
            metamorphic_dead_branch: self.metamorphic_dead_branch + other.metamorphic_dead_branch,
            metamorphic_unused_local: self.metamorphic_unused_local + other.metamorphic_unused_local,
            metamorphic_algebraic_neutral: self.metamorphic_algebraic_neutral + other.metamorphic_algebraic_neutral,
            metamorphic_branch_inversion: self.metamorphic_branch_inversion + other.metamorphic_branch_inversion,
            metamorphic_helper_wrapping: self.metamorphic_helper_wrapping + other.metamorphic_helper_wrapping,
            metamorphic_statement_reordering: self.metamorphic_statement_reordering + other.metamorphic_statement_reordering,
            optimizer_stress_cases: self.optimizer_stress_cases + other.optimizer_stress_cases,
            helper_functions: self.helper_functions + other.helper_functions,
            helper_calls: self.helper_calls + other.helper_calls,
            branches: self.branches + other.branches,
            loops: self.loops + other.loops,
            prints: self.prints + other.prints,
            global_array_reads: self.global_array_reads + other.global_array_reads,
            global_array_writes: self.global_array_writes + other.global_array_writes,
            local_array_reads: self.local_array_reads + other.local_array_reads,
            local_array_writes: self.local_array_writes + other.local_array_writes,
            loop_indexed_array_writes: self.loop_indexed_array_writes + other.loop_indexed_array_writes,
            helper_array_interactions: self.helper_array_interactions + other.helper_array_interactions,
            constant_fold_patterns: self.constant_fold_patterns + other.constant_fold_patterns,
            dead_code_shapes: self.dead_code_shapes + other.dead_code_shapes,
            opcode_kinds: self.opcode_kinds.union(&other.opcode_kinds),
        }
    }
}

impl Default for FuzzCoverage {
    fn default() -> (r: Self)
        ensures
            counters(r) == Seq::new(25, |k: int| 0usize),
            r.opcode_kinds@ == Set::<Seq<char>>::empty(),
    {
        FuzzCoverage::new()
    }
}

/// What all runs together cover.
pub fn aggregate_fuzz_coverage(runs: &Vec<FuzzRunEvidence>) -> (r: FuzzCoverage)
    requires
        counters_fit(runs@),
    ensures
        is_sum(r, runs@),
{
    let mut coverage = FuzzCoverage::new();
    let mut i: usize = 0;
    while i < runs.len()
        invariant
            i <= runs.len(),
            counters_fit(runs@),
            is_sum(coverage, runs@.take(i as int)),
        decreases runs.len() - i,
    {
        proof {
            let now = runs@.take(i + 1);
            assert(now.drop_last() =~= runs@.take(i as int));
            assert forall|k: int| 0 <= k < 25 implies #[trigger] counters(coverage)[k] + counters(
                runs[i as int].report.coverage,
            )[k] <= usize::MAX by {
                lemma_totals_grow(runs@, i + 1, k);
                assert(counter_total(runs@, k) <= usize::MAX);
            }
        }
        coverage = coverage.plus(&runs[i].report.coverage);
        i = i + 1;
    }
    assert(runs@.take(i as int) =~= runs@);
    coverage
}

/// Whether all sums over the runs are machine integers.
pub fn fuzz_totals_fit(runs: &Vec<FuzzRunEvidence>) -> (r: bool)
    ensures
        r == totals_fit(runs@),
{
    let mut executed: usize = 0;
    let mut i: usize = 0;
    while i < runs.len()
        invariant
            i <= runs.len(),
            executed == executed_total(runs@.take(i as int)),
        decreases runs.len() - i,
    {
        proof {
            assert(runs@.take(i + 1).drop_last() =~= runs@.take(i as int));
            lemma_totals_grow(runs@, i + 1, 0);
        }
        match executed.checked_add(runs[i].report.cases_executed) {
            Some(sum) => {
                executed = sum;
            },
            None => {
                return false;
            },
        }
        i = i + 1;
    }
    assert(runs@.take(i as int) =~= runs@);
    let mut k: usize = 0;
    while k < 25
        invariant
            k <= 25,
            executed_total(runs@) <= usize::MAX,
            forall|j: int| 0 <= j < k ==> #[trigger] counter_total(runs@, j) <= usize::MAX,
        decreases 25 - k,
    {
        let mut total: usize = 0;
        let mut j: usize = 0;
        while j < runs.len()
            invariant
                j <= runs.len(),
                k < 25,
                total == counter_total(runs@.take(j as int), k as int),
            decreases runs.len() - j,
        {
            proof {
                assert(runs@.take(j + 1).drop_last() =~= runs@.take(j as int));
                lemma_totals_grow(runs@, j + 1, k as int);
            }
            let list = runs[j].report.coverage.counter_list();
            match total.checked_add(list[k]) {
                Some(sum) => {
                    total = sum;
                },
                None => {
                    assert(counter_total(runs@, k as int) > usize::MAX);
                    return false;
                },
            }
            j = j + 1;
        }
        assert(runs@.take(j as int) =~= runs@);
        k = k + 1;
    }
    true
}

/// The directories that lead to the artifacts of a run.
pub open spec fn artifact_path(mode: FuzzMode, seed: u64) -> Seq<Seq<char>> {
    seq!["fuzz-artifacts"@, mode_name(mode) + "-"@ + text::hex16(seed)]
}

/// Whether a job is the run of a mode with a seed.
pub open spec fn is_job(job: FuzzJob, mode: FuzzMode, seed: u64, cases: usize) -> bool {
    &&& job.mode == mode
    &&& job.seed == seed
    &&& job.cases == cases
    &&& text::texts(job.artifact_path@) == artifact_path(mode, seed)
}

/// Every mode with every seed: the seeds of the first mode, then those of the second, and so on.
pub open spec fn fuzz_plan(modes: Seq<FuzzMode>, seeds: Seq<u64>) -> Seq<(FuzzMode, u64)>
    decreases modes.len(),
{
    if modes.len() == 0 {
        Seq::empty()
    } else {
        fuzz_plan(modes.drop_last(), seeds) + seeds.map_values(|seed: u64| (modes.last(), seed))
    }
}

/// Whether the jobs are those of a plan, in its order.
pub open spec fn are_jobs(jobs: Seq<FuzzJob>, plan: Seq<(FuzzMode, u64)>, cases: usize) -> bool {
    &&& jobs.len() == plan.len()
    &&& forall|i: int|
        0 <= i < jobs.len() ==> is_job(#[trigger] jobs[i], plan[i].0, plan[i].1, cases)
}

/// The fuzz runs of all modes with all seeds.
pub fn fuzz_jobs(modes: &Vec<FuzzMode>, seeds: &Vec<u64>, cases: usize) -> (r: Vec<FuzzJob>)
    ensures
        are_jobs(r@, fuzz_plan(modes@, seeds@), cases),
{
    let mut jobs: Vec<FuzzJob> = Vec::new();
    let mut i: usize = 0;
    while i < modes.len()
        invariant
            i <= modes.len(),
            are_jobs(jobs@, fuzz_plan(modes@.take(i as int), seeds@), cases),
        decreases modes.len() - i,
    {
        let mode = modes[i];
        let ghost before: Seq<(FuzzMode, u64)> = fuzz_plan(modes@.take(i as int), seeds@);
        let ghost row: Seq<(FuzzMode, u64)> = seeds@.map_values(|seed: u64| (mode, seed));
        let mut j: usize = 0;
        assert(before + row.take(0) =~= before);
        while j < seeds.len()
            invariant
                j <= seeds.len(),
                row == seeds@.map_values(|seed: u64| (mode, seed)),
                are_jobs(jobs@, before + row.take(j as int), cases),
            decreases seeds.len() - j,
        {
            let seed = seeds[j];
            let mut directory = mode.as_str().to_string();
            directory.append("-");
            push_hex16(&mut directory, seed);
            let mut path: Vec<String> = Vec::new();
            path.push("fuzz-artifacts".to_string());
            path.push(directory);
            assert(text::texts(path@) =~= artifact_path(mode, seed));
            jobs.push(FuzzJob { seed, mode, cases, artifact_path: path });
            assert(before + row.take(j + 1) =~= (before + row.take(j as int)).push((mode, seed)));
            j = j + 1;
        }
        assert(row.take(j as int) =~= row);
        i = i + 1;
        assert(modes@.take(i as int).drop_last() =~= modes@.take(i - 1));
        assert(fuzz_plan(modes@.take(i as int), seeds@) =~= before + row);
    }
    assert(modes@.take(i as int) =~= modes@);
    jobs
}

/// The fuzz matrix is complete: it has a run for every mode and seed, and as many runs as there
/// are pairs of them.
pub proof fn law_the_fuzz_matrix_is_complete(modes: Seq<FuzzMode>, seeds: Seq<u64>)
    ensures
        fuzz_plan(modes, seeds).len() == modes.len() * seeds.len(),
        forall|mode: FuzzMode, seed: u64| #[trigger]
            fuzz_plan(modes, seeds).contains((mode, seed)) <==> modes.contains(mode)
                && seeds.contains(seed),
    decreases modes.len(),
{
    if modes.len() == 0 {
        assert(0 * seeds.len() == 0) by (nonlinear_arith);
    } else {
        let rest = modes.drop_last();
        let before = fuzz_plan(rest, seeds);
        let row = seeds.map_values(|seed: u64| (modes.last(), seed));
        law_the_fuzz_matrix_is_complete(rest, seeds);
        assert(modes.len() * seeds.len() == (modes.len() - 1) * seeds.len() + seeds.len())
            by (nonlinear_arith)
            requires
                modes.len() > 0,
        ;
        assert forall|mode: FuzzMode, seed: u64| #[trigger]
            fuzz_plan(modes, seeds).contains((mode, seed)) <==> modes.contains(mode)
                && seeds.contains(seed) by {
            let all = before + row;
            assert(modes[modes.len() - 1] == modes.last());
            if all.contains((mode, seed)) {
                let i = choose|i: int| 0 <= i < all.len() && all[i] == (mode, seed);
                if i < before.len() {
                    assert(before[i] == (mode, seed));
                    assert(before.contains((mode, seed)));
                    let j = choose|j: int| 0 <= j < rest.len() && rest[j] == mode;
                    assert(modes[j] == mode);
                } else {
                    assert(row[i - before.len()] == (modes.last(), seeds[i - before.len()]));
                }
            }
            if modes.contains(mode) && seeds.contains(seed) {
                let j = choose|j: int| 0 <= j < modes.len() && modes[j] == mode;
                let k = choose|k: int| 0 <= k < seeds.len() && seeds[k] == seed;
                if j < rest.len() {
                    assert(rest[j] == mode);
                    assert(before.contains((mode, seed)));
                    let i = choose|i: int| 0 <= i < before.len() && before[i] == (mode, seed);
                    assert(all[i] == (mode, seed));
                } else {
                    assert(all[before.len() + k] == (mode, seed));
                }
            }
        }
    }
}

/// The runs of a plan, each with its report.
pub open spec fn runs_of(
    plan: Seq<(FuzzMode, u64)>,
    reports: Seq<FuzzReport>,
) -> Seq<FuzzRunEvidence> {
    Seq::new(
        plan.len(),
        |i: int| FuzzRunEvidence { seed: plan[i].1, mode: plan[i].0, report: reports[i] },
    )
}

/// The runs of the jobs, where `reports` are their results in the same order.
pub fn fuzz_runs(jobs: &Vec<FuzzJob>, reports: Vec<FuzzReport>) -> (r: Vec<FuzzRunEvidence>)
    requires
        reports.len() == jobs.len(),
    ensures
        r@ == runs_of(jobs@.map_values(|job: FuzzJob| (job.mode, job.seed)), reports@),
{
    let ghost plan: Seq<(FuzzMode, u64)> = jobs@.map_values(|job: FuzzJob| (job.mode, job.seed));
    let ghost all: Seq<FuzzReport> = reports@;
    let mut reports = reports;
    let mut runs: Vec<FuzzRunEvidence> = Vec::new();
    let mut i: usize = 0;
    assert(all.skip(0) =~= all);
    while i < jobs.len()
        invariant
            i <= jobs.len(),
            jobs.len() == all.len(),
            plan == jobs@.map_values(|job: FuzzJob| (job.mode, job.seed)),
            reports@ == all.skip(i as int),
            runs.len() == i,
            forall|j: int| 0 <= j < i ==> #[trigger] runs[j] == runs_of(plan, all)[j],
        decreases jobs.len() - i,
    {
        assert(all.skip(i as int)[0] == all[i as int]);
        let report = reports.remove(0);
        runs.push(FuzzRunEvidence { seed: jobs[i].seed, mode: jobs[i].mode, report });
        i = i + 1;
        assert(reports@ =~= all.skip(i as int));
    }
    assert(runs@ =~= runs_of(plan, all));
    runs
}

/// No two runs of the fuzz matrix share a directory for their artifacts.
pub proof fn law_artifact_paths_are_distinct(
    mode: FuzzMode,
    seed: u64,
    other_mode: FuzzMode,
    other_seed: u64,
)
    requires
        artifact_path(mode, seed) == artifact_path(other_mode, other_seed),
    ensures
        mode == other_mode,
        seed == other_seed,
{
    reveal_strlit("general");
    reveal_strlit("optimizer-stress");
    reveal_strlit("-");
    let name = artifact_path(mode, seed)[1];
    assert(name == artifact_path(other_mode, other_seed)[1]);
    text::law_hexadecimal_is_unambiguous(seed, other_seed);
    text::law_hexadecimal_is_unambiguous(other_seed, seed);
    assert(name.len() == mode_name(mode).len() + 1 + 16);
    assert(name.len() == mode_name(other_mode).len() + 1 + 16);
    assert(mode == other_mode);
    assert(hex16_part(name) =~= text::hex16(seed));
    assert(hex16_part(name) =~= text::hex16(other_seed));
}

/// The last sixteen characters of a text.
spec fn hex16_part(s: Seq<char>) -> Seq<char> {
    s.skip(s.len() - 16)
}

} // verus!
