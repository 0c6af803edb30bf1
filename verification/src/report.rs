//! The evidence report and its verdict.

use vstd::prelude::*;

use crate::artifacts;
use crate::artifacts::{
    BugArtifactEvidence, BugMuseumEvidence, MuseumDir, ScannedDir, scan_bug_artifacts,
    scan_bug_museum,
};
use crate::coverage;
use crate::coverage::{CoverageDashboard, dashboard_of};
use crate::evidence;
use crate::evidence::{CorpusEvidence, EvidenceConfig, SourceAudit, audit_source_files};
use crate::fuzz;
use crate::fuzz::{FuzzJob, FuzzReport, FuzzRunEvidence, fuzz_jobs, fuzz_runs, fuzz_totals_fit};
use crate::names;
use crate::names::NameSet;
use crate::order;
use crate::text;

verus! {

/// All evidence, and what is made of it.
#[derive(Debug, Clone)]
pub struct EvidenceReport {
    pub generated_at_unix: u64,
    pub summary: EvidenceSummary,
    pub coverage: CoverageDashboard,
    pub corpus: Vec<CorpusEvidence>,
    pub fuzz: Vec<FuzzRunEvidence>,
    pub artifacts: Vec<BugArtifactEvidence>,
    pub bug_museum: Vec<BugMuseumEvidence>,
}

/// The verdict, and the counts behind it.
#[derive(Debug, Clone, Default)]
pub struct EvidenceSummary {
    pub passed: bool,
    pub corpus_files: usize,
    pub corpus_failures: usize,
    pub fuzz_runs: usize,
    pub fuzz_cases_executed: usize,
    pub fuzz_failures: usize,
    pub backend_mismatches: usize,
    pub oracle_mismatches: usize,
    pub trace_failures: usize,
    pub historical_artifacts: usize,
    pub bug_museum_entries: usize,
    pub bug_museum_incomplete: usize,
}

/// The kinds of instructions that occur in any program of the corpus.
pub open spec fn corpus_kinds(corpus: Seq<CorpusEvidence>) -> Set<Seq<char>>
    decreases corpus.len(),
{
    if corpus.len() == 0 {
        Set::empty()
    } else {
        corpus_kinds(corpus.drop_last()).union(text::texts(corpus.last().opcode_kinds@).to_set())
    }
}

/// The set with more names.
fn with_names(set: NameSet, names: &Vec<String>) -> (r: NameSet)
    ensures
        r@ == set@.union(text::texts(names@).to_set()),
{
    let ghost texts: Seq<Seq<char>> = text::texts(names@);
    let ghost start: Set<Seq<char>> = set@;
    let mut all = set;
    let mut i: usize = 0;
    assert(start.union(texts.take(0).to_set()) =~= start);
    while i < names.len()
        invariant
            i <= names.len(),
            texts == text::texts(names@),
            all@ == start.union(texts.take(i as int).to_set()),
        decreases names.len() - i,
    {
        all = all.with(names[i].clone());
        proof {
            names::lemma_taken_set(texts, i as int);
            assert(start.union(texts.take(i + 1).to_set()) =~= start.union(
                texts.take(i as int).to_set(),
            ).insert(texts[i as int]));
        }
        i = i + 1;
    }
    assert(texts.take(i as int) =~= texts);
    all
}

/// The dashboard of what a corpus and fuzz runs cover.
pub fn coverage_dashboard(
    corpus: &Vec<CorpusEvidence>,
    fuzz: &Vec<FuzzRunEvidence>,
) -> (r: CoverageDashboard)
    requires
        fuzz::counters_fit(fuzz@),
    ensures
        coverage::is_dashboard(r, corpus_kinds(corpus@), fuzz@),
{
    let mut kinds = NameSet::new();
    let mut i: usize = 0;
    while i < corpus.len()
        invariant
            i <= corpus.len(),
            kinds@ == corpus_kinds(corpus@.take(i as int)),
        decreases corpus.len() - i,
    {
        kinds = with_names(kinds, &corpus[i].opcode_kinds);
        i = i + 1;
        assert(corpus@.take(i as int).drop_last() =~= corpus@.take(i - 1));
    }
    assert(corpus@.take(i as int) =~= corpus@);
    dashboard_of(&kinds, fuzz)
}

/// The number of programs that failed a check.
pub open spec fn failure_count(corpus: Seq<CorpusEvidence>) -> nat {
    corpus.filter(|entry: CorpusEvidence| !evidence::entry_passed(entry)).len()
}

/// The number of programs on which the backends do not agree.
pub open spec fn backend_mismatch_count(corpus: Seq<CorpusEvidence>) -> nat {
    corpus.filter(|entry: CorpusEvidence| !entry.backend_equivalent).len()
}

/// The number of programs on which the interpreter and the backends do not agree.
pub open spec fn oracle_mismatch_count(corpus: Seq<CorpusEvidence>) -> nat {
    corpus.filter(|entry: CorpusEvidence| !entry.oracle_equivalent).len()
}

/// The number of programs whose traces failed a check.
pub open spec fn trace_failure_count(corpus: Seq<CorpusEvidence>) -> nat {
    corpus.filter(
        |entry: CorpusEvidence| !entry.trace_replay_passed || !entry.trace_diff_passed,
    ).len()
}

/// The number of fuzz runs that failed.
pub open spec fn fuzz_failure_count(runs: Seq<FuzzRunEvidence>) -> nat {
    runs.filter(|run: FuzzRunEvidence| !run.report.success).len()
}

/// The number of bugs that are not documented in full.
pub open spec fn incomplete_count(entries: Seq<BugMuseumEvidence>) -> nat {
    entries.filter(|entry: BugMuseumEvidence| !artifacts::complete(entry)).len()
}

/// Whether a summary is that of the evidence.
pub open spec fn is_summary(
    summary: EvidenceSummary,
    corpus: Seq<CorpusEvidence>,
    fuzz: Seq<FuzzRunEvidence>,
    artifacts: Seq<BugArtifactEvidence>,
    bug_museum: Seq<BugMuseumEvidence>,
) -> bool {
    &&& summary.passed == (failure_count(corpus) == 0 && fuzz_failure_count(fuzz) == 0
        && incomplete_count(bug_museum) == 0)
    &&& summary.corpus_files == corpus.len()
    &&& summary.corpus_failures == failure_count(corpus)
    &&& summary.fuzz_runs == fuzz.len()
    &&& summary.fuzz_cases_executed == fuzz::executed_total(fuzz)
    &&& summary.fuzz_failures == fuzz_failure_count(fuzz)
    &&& summary.backend_mismatches == backend_mismatch_count(corpus)
    &&& summary.oracle_mismatches == oracle_mismatch_count(corpus)
    &&& summary.trace_failures == trace_failure_count(corpus)
    &&& summary.historical_artifacts == artifacts.len()
    &&& summary.bug_museum_entries == bug_museum.len()
    &&& summary.bug_museum_incomplete == incomplete_count(bug_museum)
}

/// The summary of the evidence.
pub fn summarize(
    corpus: &Vec<CorpusEvidence>,
    fuzz: &Vec<FuzzRunEvidence>,
    artifacts: &Vec<BugArtifactEvidence>,
    bug_museum: &Vec<BugMuseumEvidence>,
) -> (r: EvidenceSummary)
    requires
        fuzz::executed_total(fuzz@) <= usize::MAX,
    ensures
        is_summary(r, corpus@, fuzz@, artifacts@, bug_museum@),
{
    let mut corpus_failures: usize = 0;
    let mut backend_mismatches: usize = 0;
    let mut oracle_mismatches: usize = 0;
    let mut trace_failures: usize = 0;
    let mut i: usize = 0;
    while i < corpus.len()
        invariant
            i <= corpus.len(),
            corpus_failures == failure_count(corpus@.take(i as int)),
            backend_mismatches == backend_mismatch_count(corpus@.take(i as int)),
            oracle_mismatches == oracle_mismatch_count(corpus@.take(i as int)),
            trace_failures == trace_failure_count(corpus@.take(i as int)),
            corpus_failures <= i,
            backend_mismatches <= i,
            oracle_mismatches <= i,
            trace_failures <= i,
        decreases corpus.len() - i,
    {
        let entry = &corpus[i];
        proof {
            let before = corpus@.take(i as int);
            assert(corpus@.take(i + 1) =~= before.push(*entry));
            before.lemma_filter_len_push(
                |entry: CorpusEvidence| !evidence::entry_passed(entry),
                *entry,
            );
            before.lemma_filter_len_push(
                |entry: CorpusEvidence| !entry.backend_equivalent,
                *entry,
            );
            before.lemma_filter_len_push(
                |entry: CorpusEvidence| !entry.oracle_equivalent,
                *entry,
            );
            before.lemma_filter_len_push(
                |entry: CorpusEvidence| !entry.trace_replay_passed || !entry.trace_diff_passed,
                *entry,
            );
        }
        if !entry.passed() {
            corpus_failures = corpus_failures + 1;
        }
        if !entry.backend_equivalent {
            backend_mismatches = backend_mismatches + 1;
        }
        if !entry.oracle_equivalent {
            oracle_mismatches = oracle_mismatches + 1;
        }
        if !entry.trace_replay_passed || !entry.trace_diff_passed {
            trace_failures = trace_failures + 1;
        }
        i = i + 1;
    }
    assert(corpus@.take(i as int) =~= corpus@);

    let mut fuzz_failures: usize = 0;
    let mut fuzz_cases_executed: usize = 0;
    let mut j: usize = 0;
    while j < fuzz.len()
        invariant
            j <= fuzz.len(),
            fuzz::executed_total(fuzz@) <= usize::MAX,
            fuzz_cases_executed == fuzz::executed_total(fuzz@.take(j as int)),
            fuzz_failures == fuzz_failure_count(fuzz@.take(j as int)),
            fuzz_failures <= j,
        decreases fuzz.len() - j,
    {
        let run = &fuzz[j];
        proof {
            let before = fuzz@.take(j as int);
            assert(fuzz@.take(j + 1) =~= before.push(*run));
            assert(fuzz@.take(j + 1).drop_last() =~= before);
            before.lemma_filter_len_push(|run: FuzzRunEvidence| !run.report.success, *run);
            fuzz::lemma_totals_grow(fuzz@, j + 1, 0);
        }
        fuzz_cases_executed = fuzz_cases_executed + run.report.cases_executed;
        if !run.report.success {
            fuzz_failures = fuzz_failures + 1;
        }
        j = j + 1;
    }
    assert(fuzz@.take(j as int) =~= fuzz@);

    let mut bug_museum_incomplete: usize = 0;
    let mut k: usize = 0;
    while k < bug_museum.len()
        invariant
            k <= bug_museum.len(),
            bug_museum_incomplete == incomplete_count(bug_museum@.take(k as int)),
            bug_museum_incomplete <= k,
        decreases bug_museum.len() - k,
    {
        let entry = &bug_museum[k];
        proof {
            let before = bug_museum@.take(k as int);
            assert(bug_museum@.take(k + 1) =~= before.push(*entry));
            before.lemma_filter_len_push(
                |entry: BugMuseumEvidence| !artifacts::complete(entry),
                *entry,
            );
        }
        if !entry.is_complete() {
            bug_museum_incomplete = bug_museum_incomplete + 1;
        }
        k = k + 1;
    }
    assert(bug_museum@.take(k as int) =~= bug_museum@);

    EvidenceSummary {
        passed: corpus_failures == 0 && fuzz_failures == 0 && bug_museum_incomplete == 0,
        corpus_files: corpus.len(),
        corpus_failures,
        fuzz_runs: fuzz.len(),
        fuzz_cases_executed,
        fuzz_failures,
        backend_mismatches,
        oracle_mismatches,
        trace_failures,
        historical_artifacts: artifacts.len(),
        bug_museum_entries: bug_museum.len(),
        bug_museum_incomplete,
    }
}

/// The report on the evidence.
pub fn assemble_report(
    generated_at_unix: u64,
    corpus: Vec<CorpusEvidence>,
    fuzz: Vec<FuzzRunEvidence>,
    artifacts: Vec<BugArtifactEvidence>,
    bug_museum: Vec<BugMuseumEvidence>,
) -> (r: EvidenceReport)
    requires
        fuzz::totals_fit(fuzz@),
    ensures
        r.generated_at_unix == generated_at_unix,
        is_summary(r.summary, corpus@, fuzz@, artifacts@, bug_museum@),
        coverage::is_dashboard(r.coverage, corpus_kinds(corpus@), fuzz@),
        r.corpus == corpus,
        r.fuzz == fuzz,
        r.artifacts == artifacts,
        r.bug_museum == bug_museum,
{
    let coverage = coverage_dashboard(&corpus, &fuzz);
    let summary = summarize(&corpus, &fuzz, &artifacts, &bug_museum);
    EvidenceReport { generated_at_unix, summary, coverage, corpus, fuzz, artifacts, bug_museum }
}

/// What was found in a directory, which is nothing where the directory does not exist.
pub open spec fn found<T>(listing: Option<Vec<T>>) -> Seq<T> {
    match listing {
        Some(items) => items@,
        None => Seq::empty(),
    }
}

/// What was found in a directory.
fn found_items<T>(listing: Option<Vec<T>>) -> (r: Vec<T>)
    ensures
        r@ == found(listing),
{
    match listing {
        Some(items) => items,
        None => Vec::new(),
    }
}

/// The fuzz runs that a configuration asks for, with their reports.
pub open spec fn configured_runs(
    config: EvidenceConfig,
    reports: Seq<FuzzReport>,
) -> Seq<FuzzRunEvidence> {
    fuzz::runs_of(fuzz::fuzz_plan(config.fuzz_modes@, config.fuzz_seeds@), reports)
}

/// The report that a configuration asks for, from what was found in its directories and what the
/// fuzzer made of its jobs. A directory that does not exist is `None` and gives no evidence. There
/// is no report where a sum over the fuzz runs is not a machine integer.
pub fn generate_evidence_report(
    config: &EvidenceConfig,
    generated_at_unix: u64,
    corpus: Option<Vec<(String, SourceAudit)>>,
    fuzz_reports: Vec<FuzzReport>,
    artifact_dirs: Option<Vec<ScannedDir>>,
    museum_dirs: Option<Vec<MuseumDir>>,
) -> (r: Option<EvidenceReport>)
    requires
        fuzz_reports.len() == config.fuzz_modes.len() * config.fuzz_seeds.len(),
    ensures
        r is Some <==> fuzz::totals_fit(configured_runs(*config, fuzz_reports@)),
        r matches Some(report) ==> {
            &&& report.generated_at_unix == generated_at_unix
            &&& evidence::is_corpus(report.corpus@, found(corpus))
            &&& report.fuzz@ == configured_runs(*config, fuzz_reports@)
            &&& order::is_stable_sort(
                artifacts::artifacts_of(found(artifact_dirs)),
                report.artifacts@,
            )
            &&& artifacts::is_museum(report.bug_museum@, found(museum_dirs))
            &&& is_summary(
                report.summary,
                report.corpus@,
                report.fuzz@,
                report.artifacts@,
                report.bug_museum@,
            )
            &&& coverage::is_dashboard(report.coverage, corpus_kinds(report.corpus@), report.fuzz@)
            &&& report.summary.fuzz_runs == config.fuzz_modes.len() * config.fuzz_seeds.len()
        },
{
    proof {
        fuzz::law_the_fuzz_matrix_is_complete(config.fuzz_modes@, config.fuzz_seeds@);
    }
    let corpus = audit_source_files(found_items(corpus));
    let jobs = fuzz_jobs(&config.fuzz_modes, &config.fuzz_seeds, config.fuzz_cases);
    proof {
        let plan = fuzz::fuzz_plan(config.fuzz_modes@, config.fuzz_seeds@);
        assert forall|i: int| 0 <= i < plan.len() implies ((#[trigger] jobs@[i]).mode, jobs@[i].seed)
            == plan[i] by {
            assert(fuzz::is_job(jobs@[i], plan[i].0, plan[i].1, config.fuzz_cases));
        }
        assert(jobs@.map_values(|job: FuzzJob| (job.mode, job.seed)) =~= plan);
    }
    let fuzz = fuzz_runs(&jobs, fuzz_reports);
    let artifacts = scan_bug_artifacts(&found_items(artifact_dirs));
    let bug_museum = scan_bug_museum(&found_items(museum_dirs));
    if !fuzz_totals_fit(&fuzz) {
        return None;
    }
    Some(assemble_report(generated_at_unix, corpus, fuzz, artifacts, bug_museum))
}

/// A directory in which nothing was found, or that does not exist, gives no evidence.
pub proof fn law_nothing_found_gives_no_evidence(
    corpus: Seq<CorpusEvidence>,
    artifacts: Seq<BugArtifactEvidence>,
    bug_museum: Seq<BugMuseumEvidence>,
)
    ensures
        evidence::is_corpus(corpus, found(None)) ==> corpus.len() == 0,
        order::is_stable_sort(artifacts::artifacts_of(found(None)), artifacts) ==> artifacts.len()
            == 0,
        artifacts::is_museum(bug_museum, found(None)) ==> bug_museum.len() == 0,
{
    broadcast use vstd::seq_lib::group_to_multiset_ensures;

    if evidence::is_corpus(corpus, found(None)) {
        evidence::law_every_source_file_is_audited(corpus, found(None));
    }
    let nothing = artifacts::artifacts_of(found(None));
    assert(nothing.len() == nothing.to_multiset().len());
    assert(artifacts.len() == artifacts.to_multiset().len());
    if artifacts::is_museum(bug_museum, found(None)) {
        let dirs: Seq<MuseumDir> = found(None);
        let entries = choose|entries: Seq<BugMuseumEvidence>| #[trigger]
            artifacts::recorded(entries) == artifacts::records_of(dirs) && order::is_stable_sort(
                entries,
                bug_museum,
            );
        assert(entries.len() == artifacts::recorded(entries).len());
        assert(entries.len() == entries.to_multiset().len());
        assert(bug_museum.len() == bug_museum.to_multiset().len());
    }
}

/// Filtering by what no item meets leaves nothing, and only then.
proof fn lemma_nothing_left<T>(items: Seq<T>, pred: spec_fn(T) -> bool)
    ensures
        items.filter(pred).len() == 0 <==> forall|i: int|
            0 <= i < items.len() ==> !pred(#[trigger] items[i]),
    decreases items.len(),
{
    reveal(Seq::filter);
    if items.len() > 0 {
        let rest = items.drop_last();
        lemma_nothing_left(rest, pred);
        assert(forall|i: int| 0 <= i < rest.len() ==> #[trigger] rest[i] == items[i]);
        assert(forall|i: int| 0 <= i < rest.len() ==> rest[i] == #[trigger] items[i]);
        assert(items[items.len() - 1] == items.last());
    }
}

/// What meets the narrower condition is no more than what meets the wider one, and no more than
/// all.
proof fn lemma_narrower<T>(items: Seq<T>, narrow: spec_fn(T) -> bool, wide: spec_fn(T) -> bool)
    requires
        forall|item: T| #[trigger] narrow(item) ==> wide(item),
    ensures
        items.filter(narrow).len() <= items.filter(wide).len() <= items.len(),
    decreases items.len(),
{
    reveal(Seq::filter);
    if items.len() > 0 {
        lemma_narrower(items.drop_last(), narrow, wide);
        assert(narrow(items.last()) ==> wide(items.last()));
    }
}

/// A report passes exactly where every program of the corpus passed every check, every fuzz run
/// succeeded, and every bug is documented in full.
pub proof fn law_a_report_passes_where_everything_does(
    summary: EvidenceSummary,
    corpus: Seq<CorpusEvidence>,
    fuzz: Seq<FuzzRunEvidence>,
    artifacts: Seq<BugArtifactEvidence>,
    bug_museum: Seq<BugMuseumEvidence>,
)
    requires
        is_summary(summary, corpus, fuzz, artifacts, bug_museum),
    ensures
        summary.passed <==> {
            &&& forall|i: int| 0 <= i < corpus.len() ==> evidence::entry_passed(#[trigger] corpus[i])
            &&& forall|i: int| 0 <= i < fuzz.len() ==> (#[trigger] fuzz[i]).report.success
            &&& forall|i: int|
                0 <= i < bug_museum.len() ==> artifacts::complete(#[trigger] bug_museum[i])
        },
{
    lemma_nothing_left(corpus, |entry: CorpusEvidence| !evidence::entry_passed(entry));
    lemma_nothing_left(fuzz, |run: FuzzRunEvidence| !run.report.success);
    lemma_nothing_left(bug_museum, |entry: BugMuseumEvidence| !artifacts::complete(entry));
}

/// A mismatch or a trace failure is a failure, and no more programs fail than there are.
pub proof fn law_mismatches_are_failures(
    summary: EvidenceSummary,
    corpus: Seq<CorpusEvidence>,
    fuzz: Seq<FuzzRunEvidence>,
    artifacts: Seq<BugArtifactEvidence>,
    bug_museum: Seq<BugMuseumEvidence>,
)
    requires
        is_summary(summary, corpus, fuzz, artifacts, bug_museum),
    ensures
        summary.backend_mismatches <= summary.corpus_failures,
        summary.oracle_mismatches <= summary.corpus_failures,
        summary.trace_failures <= summary.corpus_failures,
        summary.corpus_failures <= summary.corpus_files,
        summary.fuzz_failures <= summary.fuzz_runs,
        summary.bug_museum_incomplete <= summary.bug_museum_entries,
{
    let failed = |entry: CorpusEvidence| !evidence::entry_passed(entry);
    lemma_narrower(corpus, |entry: CorpusEvidence| !entry.backend_equivalent, failed);
    lemma_narrower(corpus, |entry: CorpusEvidence| !entry.oracle_equivalent, failed);
    lemma_narrower(
        corpus,
        |entry: CorpusEvidence| !entry.trace_replay_passed || !entry.trace_diff_passed,
        failed,
    );
    let unsuccessful = |run: FuzzRunEvidence| !run.report.success;
    lemma_narrower(fuzz, unsuccessful, unsuccessful);
    let incomplete = |entry: BugMuseumEvidence| !artifacts::complete(entry);
    lemma_narrower(bug_museum, incomplete, incomplete);
}

} // verus!
