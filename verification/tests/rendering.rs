//! The report as JSON and as Markdown.

use minilang::artifacts::{BugArtifactEvidence, BugMuseumEvidence, MuseumDir};
use minilang::coverage::{CoverageDashboard, FeatureCoverageRow, OpcodeCoverageRow};
use minilang::evidence::{BackendCell, CorpusEvidence, EvidenceConfig, SourceAudit};
use minilang::fuzz::{FuzzCoverage, FuzzMode, FuzzReport, FuzzRunEvidence};
use minilang::json::push_json_string;
use minilang::names::NameSet;
use minilang::report::{
    assemble_report, generate_evidence_report, EvidenceReport, EvidenceSummary,
};
use minilang::report_markdown::{backend_status, status, yes_no};

fn text(s: &str) -> String {
    s.to_string()
}

fn entry() -> CorpusEvidence {
    CorpusEvidence {
        path: text("c/a.lang"),
        source_hash: 0xab,
        compile_passed: true,
        verify_passed: true,
        oracle_equivalent: false,
        backend_equivalent: true,
        trace_replay_passed: true,
        trace_replay_fingerprint: Some(text("f1")),
        trace_diff_passed: false,
        trace_diff_fingerprint: None,
        backend_matrix: vec![
            BackendCell { backend: text("VM"), status: text("executed"), detail: text("d") },
            BackendCell { backend: text("JIT"), status: text("skipped"), detail: text("a \"b\"") },
            BackendCell { backend: text("VM"), status: text("later"), detail: text("") },
        ],
        opcode_kinds: vec![text("Add"), text("Sub")],
        error: Some(text("one or more audit checks failed")),
    }
}

fn report() -> EvidenceReport {
    EvidenceReport {
        generated_at_unix: 1700000000,
        summary: EvidenceSummary {
            passed: false,
            corpus_files: 1,
            corpus_failures: 1,
            fuzz_runs: 1,
            fuzz_cases_executed: 12,
            fuzz_failures: 0,
            backend_mismatches: 0,
            oracle_mismatches: 1,
            trace_failures: 1,
            historical_artifacts: 1,
            bug_museum_entries: 1,
            bug_museum_incomplete: 0,
        },
        coverage: CoverageDashboard {
            fuzz_cases: 4,
            oracle_comparisons: 5,
            metamorphic_variants: 6,
            opcodes_seen: 1,
            opcodes_total: 2,
            feature_rows: vec![
                FeatureCoverageRow { feature: text("loops"), cases: 1, total_cases: 4 },
                FeatureCoverageRow { feature: text("none"), cases: 0, total_cases: 0 },
            ],
            opcode_rows: vec![
                OpcodeCoverageRow { opcode: text("Add"), corpus_seen: true, fuzz_seen: false },
                OpcodeCoverageRow { opcode: text("Halt"), corpus_seen: false, fuzz_seen: false },
            ],
        },
        corpus: vec![entry()],
        fuzz: vec![FuzzRunEvidence {
            seed: 0x5eed,
            mode: FuzzMode::OptimizerStress,
            report: FuzzReport {
                success: true,
                cases_executed: 12,
                coverage: FuzzCoverage {
                    branches: 2,
                    loops: 3,
                    local_array_reads: 4,
                    local_array_writes: 5,
                    opcode_kinds: NameSet::new().with(text("Add")).with(text("Sub")),
                    ..FuzzCoverage::default()
                },
                json: text("{\"seed\":24301}"),
            },
        }],
        artifacts: vec![BugArtifactEvidence {
            path: text("art"),
            has_manifest: true,
            has_minimized_source: false,
        }],
        bug_museum: vec![BugMuseumEvidence {
            id: text("bug"),
            path: text("tests/bugs/bug"),
            status: text("fixed"),
            expected: text("trap"),
            proof_gate: text("gate"),
            has_metadata: true,
            has_readme: true,
            has_repro_source: true,
            repro_source_hash: Some(text("00ab")),
        }],
    }
}

#[test]
fn the_json_is_exact() {
    assert_eq!(
        report().to_json(),
        concat_lines(&[
            "{\"schema_version\":2,\"generated_at_unix\":1700000000,",
            "\"summary\":{\"passed\":false,\"corpus_files\":1,\"corpus_failures\":1,",
            "\"fuzz_runs\":1,\"fuzz_cases_executed\":12,\"fuzz_failures\":0,",
            "\"backend_mismatches\":0,\"oracle_mismatches\":1,\"trace_failures\":1,",
            "\"historical_artifacts\":1,\"bug_museum_entries\":1,\"bug_museum_incomplete\":0},",
            "\"coverage\":{\"fuzz_cases\":4,\"oracle_comparisons\":5,\"metamorphic_variants\":6,",
            "\"opcodes_seen\":1,\"opcodes_total\":2,\"features\":[",
            "{\"feature\":\"loops\",\"cases\":1,\"total_cases\":4},",
            "{\"feature\":\"none\",\"cases\":0,\"total_cases\":0}],\"opcodes\":[",
            "{\"opcode\":\"Add\",\"corpus_seen\":true,\"fuzz_seen\":false,\"observed\":true},",
            "{\"opcode\":\"Halt\",\"corpus_seen\":false,\"fuzz_seen\":false,\"observed\":false}]},",
            "\"corpus\":[{\"path\":\"c/a.lang\",\"source_hash\":\"00000000000000ab\",",
            "\"compile_passed\":true,\"verify_passed\":true,\"oracle_equivalent\":false,",
            "\"backend_equivalent\":true,\"trace_replay_passed\":true,",
            "\"trace_replay_fingerprint\":\"f1\",\"trace_diff_passed\":false,",
            "\"trace_diff_fingerprint\":null,\"backend_matrix\":[",
            "{\"backend\":\"VM\",\"status\":\"executed\",\"detail\":\"d\"},",
            "{\"backend\":\"JIT\",\"status\":\"skipped\",\"detail\":\"a \\\"b\\\"\"},",
            "{\"backend\":\"VM\",\"status\":\"later\",\"detail\":\"\"}],",
            "\"error\":\"one or more audit checks failed\",\"opcode_kinds\":[\"Add\",\"Sub\"]}],",
            "\"fuzz\":[{\"seed\":\"0x0000000000005eed\",\"mode\":\"optimizer-stress\",",
            "\"report\":{\"seed\":24301}}],",
            "\"artifacts\":[{\"path\":\"art\",\"has_manifest\":true,",
            "\"has_minimized_source\":false}],",
            "\"bug_museum\":[{\"id\":\"bug\",\"path\":\"tests/bugs/bug\",\"status\":\"fixed\",",
            "\"expected\":\"trap\",\"proof_gate\":\"gate\",\"has_metadata\":true,",
            "\"has_readme\":true,\"has_repro_source\":true,\"repro_source_hash\":\"00ab\"}]}",
        ])
    );
}

fn concat_lines(parts: &[&str]) -> String {
    parts.concat()
}

#[test]
fn the_markdown_is_exact() {
    let shares = vec![text("25.0%"), text("unused")];
    assert_eq!(
        report().to_markdown(&shares),
        concat_lines(&[
            "# Qydrel Evidence Report\n\n## Verdict\n\n",
            "Failed: corpus files=1, fuzz runs=1, fuzz cases executed=12, bug museum entries=1, local fuzz artifacts=1.\n",
            "\n## Coverage Dashboard\n\n",
            "Observed coverage from checked-in corpus programs plus the deterministic evidence fuzz matrix. This is execution evidence, not a completeness proof. Opcodes observed: 1/2. AST oracle comparisons: 5. Metamorphic variants checked: 6.\n",
            "\n### Feature Coverage\n\n| Feature | Cases | Share |\n| --- | ---: | ---: |\n",
            "| loops | 1 / 4 | 25.0% |\n| none | 0 / 0 | n/a |\n",
            "\n### Opcode Coverage\n\n| Opcode | Corpus | Fuzz | Status |\n| --- | --- | --- | --- |\n",
            "| Add | yes | no | observed |\n| Halt | no | no | missing |\n",
            "\n## Corpus Status\n\n| File | Compile | Verify | Oracle | Backends | Replay | VM/GC Diff |\n| --- | --- | --- | --- | --- | --- | --- |\n",
            "| c/a.lang | passed | passed | failed | passed | passed | failed |\n",
            "\n## Fuzz Matrix Detail\n\n| Seed | Mode | Cases | Status | Branches | Loops | Local Arrays | Opcodes |\n| --- | --- | ---: | --- | ---: | ---: | ---: | ---: |\n",
            "| 0x0000000000005eed | optimizer-stress | 12 | passed | 2 | 3 | 9 | 2 |\n",
            "\n## Backend Matrix\n\n| Program | VM | GC VM | Optimized VM | JIT |\n| --- | --- | --- | --- | --- |\n",
            "| c/a.lang | executed | n/a | n/a | skipped |\n",
            "\n## Bug Museum\n\n| Entry | Status | Expected Behavior | Proof Gate | Repro | Docs |\n| --- | --- | --- | --- | --- | --- |\n",
            "| bug | fixed | trap | gate | yes | yes |\n",
            "\n## Local Fuzz Artifacts\n\n| Artifact | Manifest | Minimized Source |\n| --- | --- | --- |\n",
            "| art | passed | failed |\n",
        ])
    );
}

#[test]
fn evidence_report_renders_json_and_markdown() {
    let config = EvidenceConfig {
        fuzz_cases: 1,
        fuzz_seeds: vec![0x5eed],
        fuzz_modes: vec![FuzzMode::General],
        artifact_scan_dir: text("missing-fuzz-artifacts-for-test"),
        ..EvidenceConfig::default()
    };
    let file = |name: &str| (text(name), SourceAudit::Unreadable(text("gone")));
    let report = generate_evidence_report(
        &config,
        0,
        Some(vec![file("a.lang"), file("b.lang"), file("c.lang")]),
        vec![FuzzReport {
            success: true,
            cases_executed: 1,
            coverage: FuzzCoverage { cases: 1, ..FuzzCoverage::default() },
            json: text("{}"),
        }],
        None,
        Some(vec![MuseumDir {
            is_root: false,
            path: text("tests/bugs/jit_undefined_local"),
            file_name: Some(text("jit_undefined_local")),
            metadata: None,
            has_readme: true,
            repro: None,
            minimized: None,
        }]),
    )
    .expect("report should generate");
    let shares: Vec<String> =
        report.coverage.feature_rows.iter().map(|_| text("0.0%")).collect();

    assert!(report.summary.corpus_files >= 3);
    assert_eq!(report.summary.fuzz_runs, 1);
    assert!(report.to_json().contains("\"schema_version\":2"));
    assert!(report.to_json().contains("\"coverage\""));
    assert!(report.to_json().contains("\"bug_museum\""));
    assert!(report.to_json().contains("\"oracle_equivalent\""));
    assert!(report.to_markdown(&shares).contains("# Qydrel Evidence Report"));
    assert!(report.to_markdown(&shares).contains("## Coverage Dashboard"));
}

#[test]
fn an_empty_report_has_placeholders() {
    let report = assemble_report(3, vec![], vec![], vec![], vec![]);
    let shares: Vec<String> = report.coverage.feature_rows.iter().map(|_| String::new()).collect();
    let markdown = report.to_markdown(&shares);
    assert!(markdown.contains("Passed: corpus files=0, fuzz runs=0, fuzz cases executed=0, bug museum entries=0, local fuzz artifacts=0.\n"));
    assert!(markdown.contains("| none | n/a | n/a | n/a | no | no |\n"));
    assert!(markdown.ends_with("| none | no | no |\n"));
    assert!(markdown.contains("| branches | 0 / 0 | n/a |\n"));
    assert!(markdown.contains("Opcodes observed: 0/34."));
    let json = report.to_json();
    assert!(json.starts_with("{\"schema_version\":2,\"generated_at_unix\":3,"));
    assert!(json.ends_with("\"corpus\":[],\"fuzz\":[],\"artifacts\":[],\"bug_museum\":[]}"));
}

#[test]
fn strings_are_escaped() {
    let written = |s: &str| {
        let mut out = String::new();
        push_json_string(&mut out, s);
        out
    };
    assert_eq!(written(""), "\"\"");
    assert_eq!(written("a\"b\\c"), "\"a\\\"b\\\\c\"");
    assert_eq!(written("\n\r\t"), "\"\\n\\r\\t\"");
    assert_eq!(written("\u{1}\u{1f}"), "\"\\u0001\\u001f\"");
    assert_eq!(written("\u{e9}/"), "\"\u{e9}/\"");
}

#[test]
fn different_strings_are_written_differently() {
    let samples = ["", "\"", "\\", "\\\"", "n", "\n", "\\n", "\u{1}", "\\u0001", "u0001"];
    for a in samples {
        for b in samples {
            let mut left = String::new();
            let mut right = String::new();
            push_json_string(&mut left, a);
            push_json_string(&mut right, b);
            assert_eq!(left == right, a == b);
        }
    }
}

#[test]
fn words_for_the_tables() {
    assert_eq!((status(true), status(false)), ("passed", "failed"));
    assert_eq!((yes_no(true), yes_no(false)), ("yes", "no"));
    assert_eq!(backend_status(&entry(), "VM"), "executed");
    assert_eq!(backend_status(&entry(), "JIT"), "skipped");
    assert_eq!(backend_status(&entry(), "vm"), "n/a");
}
