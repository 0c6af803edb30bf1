//! The evidence report as JSON.

use vstd::prelude::*;

use crate::artifacts::{BugArtifactEvidence, BugMuseumEvidence};
use crate::coverage;
use crate::coverage::{CoverageDashboard, FeatureCoverageRow, OpcodeCoverageRow};
use crate::evidence::{BackendCell, CorpusEvidence};
use crate::fuzz;
use crate::fuzz::FuzzRunEvidence;
use crate::json;
use crate::json::{ArrayWriter, Json, ObjectWriter, text_items};
use crate::report::{EvidenceReport, EvidenceSummary};
use crate::text;
use crate::text::push_hex16;

verus! {

/// A count as JSON.
pub open spec fn count_json(n: usize) -> Json {
    Json::Number(n as int)
}

/// A summary as JSON.
pub open spec fn summary_json(summary: EvidenceSummary) -> Json {
    Json::Object(
        seq![
            ("passed"@, Json::Bool(summary.passed)),
            ("corpus_files"@, count_json(summary.corpus_files)),
            ("corpus_failures"@, count_json(summary.corpus_failures)),
            ("fuzz_runs"@, count_json(summary.fuzz_runs)),
            ("fuzz_cases_executed"@, count_json(summary.fuzz_cases_executed)),
            ("fuzz_failures"@, count_json(summary.fuzz_failures)),
            ("backend_mismatches"@, count_json(summary.backend_mismatches)),
            ("oracle_mismatches"@, count_json(summary.oracle_mismatches)),
            ("trace_failures"@, count_json(summary.trace_failures)),
            ("historical_artifacts"@, count_json(summary.historical_artifacts)),
            ("bug_museum_entries"@, count_json(summary.bug_museum_entries)),
            ("bug_museum_incomplete"@, count_json(summary.bug_museum_incomplete)),
        ],
    )
}

/// A row of the feature table as JSON.
pub open spec fn feature_json(row: FeatureCoverageRow) -> Json {
    Json::Object(
        seq![
            ("feature"@, Json::Text(row.feature@)),
            ("cases"@, count_json(row.cases)),
            ("total_cases"@, count_json(row.total_cases)),
        ],
    )
}

/// A row of the instruction table as JSON.
pub open spec fn opcode_json(row: OpcodeCoverageRow) -> Json {
    Json::Object(
        seq![
            ("opcode"@, Json::Text(row.opcode@)),
            ("corpus_seen"@, Json::Bool(row.corpus_seen)),
            ("fuzz_seen"@, Json::Bool(row.fuzz_seen)),
            ("observed"@, Json::Bool(coverage::observed(row))),
        ],
    )
}

/// A dashboard as JSON.
pub open spec fn dashboard_json(dashboard: CoverageDashboard) -> Json {
    Json::Object(
        seq![
            ("fuzz_cases"@, count_json(dashboard.fuzz_cases)),
            ("oracle_comparisons"@, count_json(dashboard.oracle_comparisons)),
            ("metamorphic_variants"@, count_json(dashboard.metamorphic_variants)),
            ("opcodes_seen"@, count_json(dashboard.opcodes_seen)),
            ("opcodes_total"@, count_json(dashboard.opcodes_total)),
            (
                "features"@,
                Json::Array(
                    dashboard.feature_rows@.map_values(|row: FeatureCoverageRow| feature_json(row)),
                ),
            ),
            (
                "opcodes"@,
                Json::Array(
                    dashboard.opcode_rows@.map_values(|row: OpcodeCoverageRow| opcode_json(row)),
                ),
            ),
        ],
    )
}

/// A cell of the backend matrix as JSON.
pub open spec fn cell_json(cell: BackendCell) -> Json {
    Json::Object(
        seq![
            ("backend"@, Json::Text(cell.backend@)),
            ("status"@, Json::Text(cell.status@)),
            ("detail"@, Json::Text(cell.detail@)),
        ],
    )
}

/// The evidence on a program as JSON.
pub open spec fn corpus_json(entry: CorpusEvidence) -> Json {
    Json::Object(
        seq![
            ("path"@, Json::Text(entry.path@)),
            ("source_hash"@, Json::Text(text::hex16(entry.source_hash))),
            ("compile_passed"@, Json::Bool(entry.compile_passed)),
            ("verify_passed"@, Json::Bool(entry.verify_passed)),
            ("oracle_equivalent"@, Json::Bool(entry.oracle_equivalent)),
            ("backend_equivalent"@, Json::Bool(entry.backend_equivalent)),
            ("trace_replay_passed"@, Json::Bool(entry.trace_replay_passed)),
            ("trace_replay_fingerprint"@, json::optional_text(entry.trace_replay_fingerprint)),
            ("trace_diff_passed"@, Json::Bool(entry.trace_diff_passed)),
            ("trace_diff_fingerprint"@, json::optional_text(entry.trace_diff_fingerprint)),
            (
                "backend_matrix"@,
                Json::Array(entry.backend_matrix@.map_values(|cell: BackendCell| cell_json(cell))),
            ),
            ("error"@, json::optional_text(entry.error)),
            ("opcode_kinds"@, json::text_array(entry.opcode_kinds@)),
        ],
    )
}

/// A fuzz run as JSON.
pub open spec fn fuzz_json(run: FuzzRunEvidence) -> Json {
    Json::Object(
        seq![
            ("seed"@, Json::Text("0x"@ + text::hex16(run.seed))),
            ("mode"@, Json::Text(fuzz::mode_name(run.mode))),
            ("report"@, Json::Written(run.report.json@)),
        ],
    )
}

/// An artifact as JSON.
pub open spec fn artifact_json(artifact: BugArtifactEvidence) -> Json {
    Json::Object(
        seq![
            ("path"@, Json::Text(artifact.path@)),
            ("has_manifest"@, Json::Bool(artifact.has_manifest)),
            ("has_minimized_source"@, Json::Bool(artifact.has_minimized_source)),
        ],
    )
}

/// A documented bug as JSON.
pub open spec fn museum_json(entry: BugMuseumEvidence) -> Json {
    Json::Object(
        seq![
            ("id"@, Json::Text(entry.id@)),
            ("path"@, Json::Text(entry.path@)),
            ("status"@, Json::Text(entry.status@)),
            ("expected"@, Json::Text(entry.expected@)),
            ("proof_gate"@, Json::Text(entry.proof_gate@)),
            ("has_metadata"@, Json::Bool(entry.has_metadata)),
            ("has_readme"@, Json::Bool(entry.has_readme)),
            ("has_repro_source"@, Json::Bool(entry.has_repro_source)),
            ("repro_source_hash"@, json::optional_text(entry.repro_source_hash)),
        ],
    )
}

/// A report as JSON.
pub open spec fn report_json(report: EvidenceReport) -> Json {
    Json::Object(
        seq![
            ("schema_version"@, Json::Number(2)),
            ("generated_at_unix"@, Json::Number(report.generated_at_unix as int)),
            ("summary"@, summary_json(report.summary)),
            ("coverage"@, dashboard_json(report.coverage)),
            (
                "corpus"@,
                Json::Array(report.corpus@.map_values(|entry: CorpusEvidence| corpus_json(entry))),
            ),
            (
                "fuzz"@,
                Json::Array(report.fuzz@.map_values(|run: FuzzRunEvidence| fuzz_json(run))),
            ),
            (
                "artifacts"@,
                Json::Array(
                    report.artifacts@.map_values(
                        |artifact: BugArtifactEvidence| artifact_json(artifact),
                    ),
                ),
            ),
            (
                "bug_museum"@,
                Json::Array(
                    report.bug_museum@.map_values(|entry: BugMuseumEvidence| museum_json(entry)),
                ),
            ),
        ],
    )
}

fn summary_object(summary: &EvidenceSummary) -> (r: ObjectWriter)
    ensures
        r.wf(),
        Json::Object(r@) == summary_json(*summary),
{
    let mut object = ObjectWriter::new();
    object.bool("passed", summary.passed);
    object.count("corpus_files", summary.corpus_files);
    object.count("corpus_failures", summary.corpus_failures);
    object.count("fuzz_runs", summary.fuzz_runs);
    object.count("fuzz_cases_executed", summary.fuzz_cases_executed);
    object.count("fuzz_failures", summary.fuzz_failures);
    object.count("backend_mismatches", summary.backend_mismatches);
    object.count("oracle_mismatches", summary.oracle_mismatches);
    object.count("trace_failures", summary.trace_failures);
    object.count("historical_artifacts", summary.historical_artifacts);
    object.count("bug_museum_entries", summary.bug_museum_entries);
    object.count("bug_museum_incomplete", summary.bug_museum_incomplete);
    assert(object@ =~= summary_json(*summary)->Object_0);
    object
}

fn feature_object(row: &FeatureCoverageRow) -> (r: ObjectWriter)
    ensures
        r.wf(),
        Json::Object(r@) == feature_json(*row),
{
    let mut object = ObjectWriter::new();
    object.text("feature", row.feature.as_str());
    object.count("cases", row.cases);
    object.count("total_cases", row.total_cases);
    assert(object@ =~= feature_json(*row)->Object_0);
    object
}

fn opcode_object(row: &OpcodeCoverageRow) -> (r: ObjectWriter)
    ensures
        r.wf(),
        Json::Object(r@) == opcode_json(*row),
{
    let mut object = ObjectWriter::new();
    object.text("opcode", row.opcode.as_str());
    object.bool("corpus_seen", row.corpus_seen);
    object.bool("fuzz_seen", row.fuzz_seen);
    object.bool("observed", row.corpus_seen || row.fuzz_seen);
    assert(object@ =~= opcode_json(*row)->Object_0);
    object
}

fn dashboard_object(dashboard: &CoverageDashboard) -> (r: ObjectWriter)
    ensures
        r.wf(),
        Json::Object(r@) == dashboard_json(*dashboard),
{
    let mut features = ArrayWriter::new();
    let ghost feature_items: Seq<Json> = dashboard.feature_rows@.map_values(
        |row: FeatureCoverageRow| feature_json(row),
    );
    let mut i: usize = 0;
    assert(feature_items.take(0) =~= Seq::empty());
    while i < dashboard.feature_rows.len()
        invariant
            i <= dashboard.feature_rows.len(),
            features.wf(),
            feature_items == dashboard.feature_rows@.map_values(
                |row: FeatureCoverageRow| feature_json(row),
            ),
            features@ == feature_items.take(i as int),
        decreases dashboard.feature_rows.len() - i,
    {
        features.object(feature_object(&dashboard.feature_rows[i]));
        i = i + 1;
        assert(feature_items.take(i as int) =~= feature_items.take(i - 1).push(
            feature_items[i - 1],
        ));
    }
    assert(feature_items.take(i as int) =~= feature_items);

    let mut opcodes = ArrayWriter::new();
    let ghost opcode_items: Seq<Json> = dashboard.opcode_rows@.map_values(
        |row: OpcodeCoverageRow| opcode_json(row),
    );
    let mut j: usize = 0;
    assert(opcode_items.take(0) =~= Seq::empty());
    while j < dashboard.opcode_rows.len()
        invariant
            j <= dashboard.opcode_rows.len(),
            opcodes.wf(),
            opcode_items == dashboard.opcode_rows@.map_values(
                |row: OpcodeCoverageRow| opcode_json(row),
            ),
            opcodes@ == opcode_items.take(j as int),
        decreases dashboard.opcode_rows.len() - j,
    {
        opcodes.object(opcode_object(&dashboard.opcode_rows[j]));
        j = j + 1;
        assert(opcode_items.take(j as int) =~= opcode_items.take(j - 1).push(opcode_items[j - 1]));
    }
    assert(opcode_items.take(j as int) =~= opcode_items);

    let mut object = ObjectWriter::new();
    object.count("fuzz_cases", dashboard.fuzz_cases);
    object.count("oracle_comparisons", dashboard.oracle_comparisons);
    object.count("metamorphic_variants", dashboard.metamorphic_variants);
    object.count("opcodes_seen", dashboard.opcodes_seen);
    object.count("opcodes_total", dashboard.opcodes_total);
    object.array("features", features);
    object.array("opcodes", opcodes);
    assert(object@ =~= dashboard_json(*dashboard)->Object_0);
    object
}

fn cell_object(cell: &BackendCell) -> (r: ObjectWriter)
    ensures
        r.wf(),
        Json::Object(r@) == cell_json(*cell),
{
    let mut object = ObjectWriter::new();
    object.text("backend", cell.backend.as_str());
    object.text("status", cell.status.as_str());
    object.text("detail", cell.detail.as_str());
    assert(object@ =~= cell_json(*cell)->Object_0);
    object
}

fn corpus_object(entry: &CorpusEvidence) -> (r: ObjectWriter)
    ensures
        r.wf(),
        Json::Object(r@) == corpus_json(*entry),
{
    let mut cells = ArrayWriter::new();
    let ghost cell_items: Seq<Json> = entry.backend_matrix@.map_values(
        |cell: BackendCell| cell_json(cell),
    );
    let mut i: usize = 0;
    assert(cell_items.take(0) =~= Seq::empty());
    while i < entry.backend_matrix.len()
        invariant
            i <= entry.backend_matrix.len(),
            cells.wf(),
            cell_items == entry.backend_matrix@.map_values(|cell: BackendCell| cell_json(cell)),
            cells@ == cell_items.take(i as int),
        decreases entry.backend_matrix.len() - i,
    {
        cells.object(cell_object(&entry.backend_matrix[i]));
        i = i + 1;
        assert(cell_items.take(i as int) =~= cell_items.take(i - 1).push(cell_items[i - 1]));
    }
    assert(cell_items.take(i as int) =~= cell_items);

    let mut source_hash = String::new();
    push_hex16(&mut source_hash, entry.source_hash);
    assert(source_hash@ =~= text::hex16(entry.source_hash));

    let mut object = ObjectWriter::new();
    object.text("path", entry.path.as_str());
    object.text("source_hash", source_hash.as_str());
    object.bool("compile_passed", entry.compile_passed);
    object.bool("verify_passed", entry.verify_passed);
    object.bool("oracle_equivalent", entry.oracle_equivalent);
    object.bool("backend_equivalent", entry.backend_equivalent);
    object.bool("trace_replay_passed", entry.trace_replay_passed);
    object.optional("trace_replay_fingerprint", &entry.trace_replay_fingerprint);
    object.bool("trace_diff_passed", entry.trace_diff_passed);
    object.optional("trace_diff_fingerprint", &entry.trace_diff_fingerprint);
    object.array("backend_matrix", cells);
    object.optional("error", &entry.error);
    object.array("opcode_kinds", text_items(&entry.opcode_kinds));
    assert(object@ =~= corpus_json(*entry)->Object_0);
    object
}

fn fuzz_object(run: &FuzzRunEvidence) -> (r: ObjectWriter)
    ensures
        r.wf(),
        Json::Object(r@) == fuzz_json(*run),
{
    let mut seed = "0x".to_string();
    push_hex16(&mut seed, run.seed);
    let mut object = ObjectWriter::new();
    object.text("seed", seed.as_str());
    object.text("mode", run.mode.as_str());
    object.written("report", run.report.json.as_str());
    assert(object@ =~= fuzz_json(*run)->Object_0);
    object
}

fn artifact_object(artifact: &BugArtifactEvidence) -> (r: ObjectWriter)
    ensures
        r.wf(),
        Json::Object(r@) == artifact_json(*artifact),
{
    let mut object = ObjectWriter::new();
    object.text("path", artifact.path.as_str());
    object.bool("has_manifest", artifact.has_manifest);
    object.bool("has_minimized_source", artifact.has_minimized_source);
    assert(object@ =~= artifact_json(*artifact)->Object_0);
    object
}

fn museum_object(entry: &BugMuseumEvidence) -> (r: ObjectWriter)
    ensures
        r.wf(),
        Json::Object(r@) == museum_json(*entry),
{
    let mut object = ObjectWriter::new();
    object.text("id", entry.id.as_str());
    object.text("path", entry.path.as_str());
    object.text("status", entry.status.as_str());
    object.text("expected", entry.expected.as_str());
    object.text("proof_gate", entry.proof_gate.as_str());
    object.bool("has_metadata", entry.has_metadata);
    object.bool("has_readme", entry.has_readme);
    object.bool("has_repro_source", entry.has_repro_source);
    object.optional("repro_source_hash", &entry.repro_source_hash);
    assert(object@ =~= museum_json(*entry)->Object_0);
    object
}

fn corpus_array(corpus: &Vec<CorpusEvidence>) -> (r: ArrayWriter)
    ensures
        r.wf(),
        r@ == corpus@.map_values(|entry: CorpusEvidence| corpus_json(entry)),
{
    let mut array = ArrayWriter::new();
    let ghost items: Seq<Json> = corpus@.map_values(|entry: CorpusEvidence| corpus_json(entry));
    let mut i: usize = 0;
    assert(items.take(0) =~= Seq::empty());
    while i < corpus.len()
        invariant
            i <= corpus.len(),
            array.wf(),
            items == corpus@.map_values(|entry: CorpusEvidence| corpus_json(entry)),
            array@ == items.take(i as int),
        decreases corpus.len() - i,
    {
        array.object(corpus_object(&corpus[i]));
        i = i + 1;
        assert(items.take(i as int) =~= items.take(i - 1).push(items[i - 1]));
    }
    assert(items.take(i as int) =~= items);
    array
}

fn fuzz_array(runs: &Vec<FuzzRunEvidence>) -> (r: ArrayWriter)
    ensures
        r.wf(),
        r@ == runs@.map_values(|run: FuzzRunEvidence| fuzz_json(run)),
{
    let mut array = ArrayWriter::new();
    let ghost items: Seq<Json> = runs@.map_values(|run: FuzzRunEvidence| fuzz_json(run));
    let mut i: usize = 0;
    assert(items.take(0) =~= Seq::empty());
    while i < runs.len()
        invariant
            i <= runs.len(),
            array.wf(),
            items == runs@.map_values(|run: FuzzRunEvidence| fuzz_json(run)),
            array@ == items.take(i as int),
        decreases runs.len() - i,
    {
        array.object(fuzz_object(&runs[i]));
        i = i + 1;
        assert(items.take(i as int) =~= items.take(i - 1).push(items[i - 1]));
    }
    assert(items.take(i as int) =~= items);
    array
}

fn artifact_array(artifacts: &Vec<BugArtifactEvidence>) -> (r: ArrayWriter)
    ensures
        r.wf(),
        r@ == artifacts@.map_values(|artifact: BugArtifactEvidence| artifact_json(artifact)),
{
    let mut array = ArrayWriter::new();
    let ghost items: Seq<Json> = artifacts@.map_values(
        |artifact: BugArtifactEvidence| artifact_json(artifact),
    );
    let mut i: usize = 0;
    assert(items.take(0) =~= Seq::empty());
    while i < artifacts.len()
        invariant
            i <= artifacts.len(),
            array.wf(),
            items == artifacts@.map_values(
                |artifact: BugArtifactEvidence| artifact_json(artifact),
            ),
            array@ == items.take(i as int),
        decreases artifacts.len() - i,
    {
        array.object(artifact_object(&artifacts[i]));
        i = i + 1;
        assert(items.take(i as int) =~= items.take(i - 1).push(items[i - 1]));
    }
    assert(items.take(i as int) =~= items);
    array
}

fn museum_array(entries: &Vec<BugMuseumEvidence>) -> (r: ArrayWriter)
    ensures
        r.wf(),
        r@ == entries@.map_values(|entry: BugMuseumEvidence| museum_json(entry)),
{
    let mut array = ArrayWriter::new();
    let ghost items: Seq<Json> = entries@.map_values(|entry: BugMuseumEvidence| museum_json(entry));
    let mut i: usize = 0;
    assert(items.take(0) =~= Seq::empty());
    while i < entries.len()
        invariant
            i <= entries.len(),
            array.wf(),
            items == entries@.map_values(|entry: BugMuseumEvidence| museum_json(entry)),
            array@ == items.take(i as int),
        decreases entries.len() - i,
    {
        array.object(museum_object(&entries[i]));
        i = i + 1;
        assert(items.take(i as int) =~= items.take(i - 1).push(items[i - 1]));
    }
    assert(items.take(i as int) =~= items);
    array
}

impl EvidenceReport {
    /// The report as JSON.
    pub fn to_json(&self) -> (r: String)
        ensures
            r@ == json::render(report_json(*self)),
    {
        let mut object = ObjectWriter::new();
        object.number("schema_version", 2);
        object.number("generated_at_unix", self.generated_at_unix);
        object.object("summary", summary_object(&self.summary));
        object.object("coverage", dashboard_object(&self.coverage));
        object.array("corpus", corpus_array(&self.corpus));
        object.array("fuzz", fuzz_array(&self.fuzz));
        object.array("artifacts", artifact_array(&self.artifacts));
        object.array("bug_museum", museum_array(&self.bug_museum));
        assert(object@ =~= report_json(*self)->Object_0);
        object.finish()
    }
}

} // verus!
