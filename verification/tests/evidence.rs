//! The evidence: audits, scans, coverage and the verdict.

use minilang::artifacts::{
    scan_bug_artifacts, scan_bug_museum, BugArtifactEvidence, BugMuseumEvidence, MuseumDir,
    ScannedDir,
};
use minilang::ast::{Expr, Function, Program, Stmt};
use minilang::compare::{
    BackendComparisonReport, BackendOutcome, BackendRun, BackendRunStatus,
};
use minilang::coverage::feature_coverage_rows;
use minilang::evidence::{
    audit_source_file, backend_cell, front_end_error, select_corpus_files, AuditChecks,
    CorpusEvidence, EvidenceConfig, FrontEndError, SourceAudit,
};
use minilang::fuzz::{
    aggregate_fuzz_coverage, fuzz_jobs, fuzz_totals_fit, FuzzCoverage, FuzzMode, FuzzReport,
    FuzzRunEvidence,
};
use minilang::hash::stable_hash;
use minilang::metadata::{metadata_value, parse_metadata};
use minilang::names::NameSet;
use minilang::opcode::{all_opcodes, opcode_name, program_opcode_kinds, Opcode};
use minilang::order::{in_order, sort_by_key};
use minilang::report::{
    assemble_report, coverage_dashboard, generate_evidence_report, summarize, EvidenceReport,
};
use minilang::trap::TrapCode;

fn text(s: &str) -> String {
    s.to_string()
}

/// func main() { int x; return x; }
fn undefined_local() -> Program {
    Program {
        globals: vec![],
        functions: vec![Function {
            name: text("main"),
            params: vec![],
            body: vec![
                Stmt::VarDecl { name: text("x"), init_expr: None, array_size: None },
                Stmt::Return { value: Expr::Identifier { name: text("x") } },
            ],
        }],
    }
}

fn trap(trap_code: TrapCode) -> BackendRunStatus {
    BackendRunStatus::Executed(BackendOutcome {
        success: false,
        return_value: 0,
        trap_code,
        output: vec![],
    })
}

fn runs(vm: BackendRunStatus) -> BackendComparisonReport {
    BackendComparisonReport {
        equivalent: true,
        runs: vec![
            BackendRun { name: text("VM"), status: vm },
            BackendRun { name: text("GC VM"), status: trap(TrapCode::UndefinedLocal) },
            BackendRun { name: text("Optimized VM"), status: trap(TrapCode::UndefinedLocal) },
            BackendRun {
                name: text("JIT"),
                status: BackendRunStatus::Skipped(text("possible traps: UndefinedLocal")),
            },
        ],
    }
}

fn checks() -> AuditChecks {
    AuditChecks {
        verified: true,
        backends: runs(trap(TrapCode::UndefinedLocal)),
        replayable: true,
        replay_fingerprint: text("00ff"),
        traces_equivalent: true,
        trace_diff_fingerprint: text("0a0b"),
        instructions: vec![Opcode::LoadLocal, Opcode::Return, Opcode::LoadLocal],
    }
}

const REPRO: &str = "func main() {\n  int x;\n  return x;\n}\n";

fn audit(checks: AuditChecks) -> CorpusEvidence {
    audit_source_file(
        text("tests/corpus/a.lang"),
        SourceAudit::Checked { source: text(REPRO), program: undefined_local(), checks },
    )
}

const METADATA: &str = "id: stable-case-id\nstatus: fixed\nexpected: vm_trap_undefined_local_jit_skipped\nproof_gate: verifier_possible_trap_blocks_jit\n";

fn museum_dir(path: &str) -> MuseumDir {
    MuseumDir {
        is_root: false,
        path: text(path),
        file_name: path.rsplit('/').next().map(|name| name.to_string()),
        metadata: None,
        has_readme: false,
        repro: None,
        minimized: None,
    }
}

fn museum() -> Vec<BugMuseumEvidence> {
    scan_bug_museum(&vec![
        MuseumDir { is_root: true, has_readme: true, ..museum_dir("tests/bugs") },
        MuseumDir {
            metadata: Some(text(METADATA)),
            has_readme: true,
            repro: Some(text(REPRO)),
            ..museum_dir("tests/bugs/jit_undefined_local")
        },
    ])
}

fn run(seed: u64, success: bool, coverage: FuzzCoverage) -> FuzzRunEvidence {
    FuzzRunEvidence {
        seed,
        mode: FuzzMode::General,
        report: FuzzReport { success, cases_executed: 5, coverage, json: text("{}") },
    }
}

#[test]
fn bug_museum_entries_are_documented() {
    let cases = museum();
    assert!(!cases.is_empty(), "expected at least one checked-in bug case");

    for case in cases {
        assert!(case.has_readme, "{} should have a short README", case.id);
        assert!(case.has_metadata, "{} should have readable metadata", case.id);
        assert!(
            !case.status.is_empty() && case.status != "unspecified",
            "{} should document fixed/current status",
            case.id
        );
        assert!(
            !case.expected.is_empty() && case.expected != "unspecified",
            "{} should document expected behavior",
            case.id
        );
        assert!(
            !case.proof_gate.is_empty() && case.proof_gate != "unspecified",
            "{} should document the proof gate or checker",
            case.id
        );
        assert!(
            case.has_repro_source && !REPRO.trim().is_empty(),
            "{} should include a minimized source repro",
            case.id
        );
    }
}

#[test]
fn bug_museum_expected_behaviors_are_enforced() {
    for case in museum() {
        assert_eq!(case.expected, "vm_trap_undefined_local_jit_skipped");
        assert_eq!(
            case.status, "fixed",
            "{} should be labelled fixed only when the proof gate is in place",
            case.id
        );
        let entry = audit(checks());
        assert!(entry.oracle_equivalent && entry.backend_equivalent);
        let mut executed_backends = 0usize;
        for cell in &entry.backend_matrix {
            if cell.backend == "JIT" {
                assert_eq!(cell.status, "skipped");
                assert!(!cell.detail.is_empty());
            } else {
                assert_eq!(cell.status, "executed");
                executed_backends += 1;
                assert_eq!(cell.detail, "success=false, return=0, trap=UndefinedLocal");
            }
        }
        assert!(
            executed_backends >= 3,
            "{} should audit VM, GC VM, and optimized VM",
            case.id
        );
    }
}

#[test]
fn a_museum_entry_is_read_from_its_directory() {
    let entries = museum();
    assert_eq!(entries.len(), 1);
    let entry = &entries[0];
    assert_eq!(entry.id, "stable-case-id");
    assert_eq!(entry.path, "tests/bugs/jit_undefined_local");
    assert_eq!(entry.status, "fixed");
    assert_eq!(entry.expected, "vm_trap_undefined_local_jit_skipped");
    assert_eq!(entry.proof_gate, "verifier_possible_trap_blocks_jit");
    assert!(entry.has_metadata && entry.has_readme && entry.has_repro_source);
    assert_eq!(entry.repro_source_hash, Some(format!("{:016x}", stable_hash(REPRO))));
    assert!(entry.is_complete());
}

#[test]
fn museum_entries_fall_back_on_the_directory() {
    let entries = scan_bug_museum(&vec![
        museum_dir("tests/bugs/empty"),
        MuseumDir { has_readme: true, ..museum_dir("tests/bugs/zeta") },
        MuseumDir { minimized: Some(text("m")), ..museum_dir("tests/bugs/alpha") },
        MuseumDir {
            metadata: Some(text("status:")),
            repro: Some(text("r")),
            minimized: Some(text("m")),
            file_name: None,
            ..museum_dir("tests/bugs/mid")
        },
    ]);
    let ids: Vec<&str> = entries.iter().map(|entry| entry.id.as_str()).collect();
    assert_eq!(ids, vec!["alpha", "tests/bugs/mid", "zeta"]);
    assert_eq!(entries[0].repro_source_hash, Some(format!("{:016x}", stable_hash("m"))));
    assert_eq!(entries[1].repro_source_hash, Some(format!("{:016x}", stable_hash("r"))));
    assert_eq!(entries[2].repro_source_hash, None);
    for entry in &entries {
        assert_eq!(entry.status, "unspecified");
        assert!(!entry.is_complete());
    }
    assert!(!entries[2].has_repro_source && entries[2].has_readme);
    assert!(entries[1].has_metadata && !entries[1].has_readme);
}

#[test]
fn an_empty_id_still_names_the_bug() {
    let entries = scan_bug_museum(&vec![MuseumDir {
        metadata: Some(text("id:\n")),
        ..museum_dir("tests/bugs/x")
    }]);
    assert_eq!(entries[0].id, "");
}

#[test]
fn artifacts_are_found_and_sorted() {
    let dir = |path: &str, has_manifest: bool, has_minimized_source: bool| ScannedDir {
        path: text(path),
        has_manifest,
        has_minimized_source,
    };
    let artifacts: Vec<BugArtifactEvidence> = scan_bug_artifacts(&vec![
        dir("b", true, false),
        dir("c", false, false),
        dir("a/x", false, true),
        dir("a", true, true),
    ]);
    let found: Vec<(&str, bool, bool)> = artifacts
        .iter()
        .map(|artifact| {
            (artifact.path.as_str(), artifact.has_manifest, artifact.has_minimized_source)
        })
        .collect();
    assert_eq!(found, vec![("a", true, true), ("a/x", false, true), ("b", true, false)]);
    assert!(scan_bug_artifacts(&vec![]).is_empty());
}

#[test]
fn corpus_files_are_those_of_programs() {
    let names: Vec<String> =
        vec!["b.lang", "a.txt", "a.lang", ".lang", "lang", "x.y.lang", "c.langs", "B.lang", "..lang"]
            .into_iter()
            .map(text)
            .collect();
    let files: Vec<(String, usize)> =
        select_corpus_files(&names).into_iter().map(|file| (file.name, file.position)).collect();
    let expected: Vec<(String, usize)> =
        vec![("..lang", 8), ("B.lang", 7), ("a.lang", 2), ("b.lang", 0), ("x.y.lang", 5)]
            .into_iter()
            .map(|(name, position)| (text(name), position))
            .collect();
    assert_eq!(files, expected);
}

#[test]
fn texts_are_ordered_by_their_bytes() {
    assert!(in_order("", ""));
    assert!(in_order("", "a"));
    assert!(!in_order("a", ""));
    assert!(in_order("Z", "a"));
    assert!(in_order("ab", "b"));
    assert!(in_order("z", "\u{e9}"));
    assert!(!in_order("\u{ffff}", "a"));
    let sorted = sort_by_key(vec![text("b"), text("a"), text("ab"), text("")]);
    assert_eq!(sorted, vec!["", "a", "ab", "b"]);
}

#[test]
fn sorting_keeps_the_order_of_equals() {
    let entry = |id: &str, path: &str| MuseumDir {
        metadata: Some(format!("id: {id}")),
        ..museum_dir(path)
    };
    let entries = scan_bug_museum(&vec![entry("b", "1"), entry("a", "2"), entry("b", "3"), entry("a", "4")]);
    let paths: Vec<&str> = entries.iter().map(|entry| entry.path.as_str()).collect();
    assert_eq!(paths, vec!["2", "4", "1", "3"]);
}

#[test]
fn metadata_lines_are_read() {
    let fields = parse_metadata(
        "# a comment: ignored\n\n  key :  value with: colon  \r\nno separator\nempty:\nkey2:one\nkey2: two\n\u{a0}wide\u{3000}: x",
    );
    assert_eq!(metadata_value(&fields, "key"), "value with: colon");
    assert_eq!(metadata_value(&fields, "key2"), "two");
    assert_eq!(metadata_value(&fields, "wide"), "x");
    assert_eq!(metadata_value(&fields, "empty"), "unspecified");
    assert_eq!(metadata_value(&fields, "no separator"), "unspecified");
    assert_eq!(metadata_value(&fields, "# a comment"), "unspecified");
    assert_eq!(fields.get("empty"), Some(&String::new()));
    assert_eq!(fields.get("missing"), None);
}

#[test]
fn what_is_written_as_a_field_reads_back() {
    for (key, value) in [("id", "stable-case-id"), ("a b", ""), ("k", "x: # y")] {
        let fields = parse_metadata(&format!("{key}: {value}"));
        assert_eq!(fields.get(key), Some(&text(value)));
    }
}

#[test]
fn the_hash_is_fnv1a() {
    assert_eq!(stable_hash(""), 0xcbf2_9ce4_8422_2325);
    assert_eq!(stable_hash("a"), 0xaf63_dc4c_8601_ec8c);
    assert_eq!(stable_hash("foobar"), 0x8594_4171_f739_67e8);
}

#[test]
fn a_program_that_passes_has_no_error() {
    let entry = audit(checks());
    assert!(entry.passed());
    assert_eq!(entry.path, "tests/corpus/a.lang");
    assert_eq!(entry.source_hash, stable_hash(REPRO));
    assert_eq!(entry.trace_replay_fingerprint.as_deref(), Some("00ff"));
    assert_eq!(entry.trace_diff_fingerprint.as_deref(), Some("0a0b"));
    assert_eq!(entry.opcode_kinds, vec!["LoadLocal", "Return"]);
    assert_eq!(entry.error, None);
    let cells: Vec<(&str, &str)> = entry
        .backend_matrix
        .iter()
        .map(|cell| (cell.backend.as_str(), cell.status.as_str()))
        .collect();
    assert_eq!(
        cells,
        vec![
            ("VM", "executed"),
            ("GC VM", "executed"),
            ("Optimized VM", "executed"),
            ("JIT", "skipped")
        ]
    );
    assert_eq!(entry.backend_matrix[3].detail, "possible traps: UndefinedLocal");
}

#[test]
fn each_failed_check_fails_the_program() {
    let failing = vec![
        AuditChecks { verified: false, ..checks() },
        AuditChecks { replayable: false, ..checks() },
        AuditChecks { traces_equivalent: false, ..checks() },
        AuditChecks {
            backends: BackendComparisonReport {
                equivalent: false,
                ..runs(trap(TrapCode::UndefinedLocal))
            },
            ..checks()
        },
        AuditChecks { backends: runs(trap(TrapCode::DivideByZero)), ..checks() },
    ];
    for checks in failing {
        let entry = audit(checks);
        assert!(!entry.passed());
        assert!(entry.compile_passed);
        assert_eq!(entry.error.as_deref(), Some("one or more audit checks failed"));
    }
    let disagreeing = audit(AuditChecks {
        backends: runs(trap(TrapCode::DivideByZero)),
        ..checks()
    });
    assert!(!disagreeing.oracle_equivalent && disagreeing.backend_equivalent);
}

#[test]
fn a_program_that_does_not_compile_fails_every_check() {
    let unreadable =
        audit_source_file(text("p"), SourceAudit::Unreadable(text("permission denied")));
    assert_eq!(unreadable.error.as_deref(), Some("read failed: permission denied"));
    assert_eq!(unreadable.source_hash, 0);

    let unparsed = audit_source_file(
        text("p"),
        SourceAudit::Rejected { source: text("a"), error: FrontEndError::Parse(text("line 1")) },
    );
    assert_eq!(unparsed.error.as_deref(), Some("parse failed: line 1"));
    assert_eq!(unparsed.source_hash, 0xaf63_dc4c_8601_ec8c);

    let rejected = audit_source_file(
        text("p"),
        SourceAudit::Rejected {
            source: text("a"),
            error: FrontEndError::Semantic(vec![text("one"), text("two")]),
        },
    );
    assert_eq!(rejected.error.as_deref(), Some("one\ntwo"));

    for entry in [unreadable, unparsed, rejected] {
        assert!(!entry.passed() && !entry.compile_passed && !entry.verify_passed);
        assert!(!entry.oracle_equivalent && !entry.backend_equivalent);
        assert!(!entry.trace_replay_passed && !entry.trace_diff_passed);
        assert_eq!(entry.trace_replay_fingerprint, None);
        assert_eq!(entry.trace_diff_fingerprint, None);
        assert!(entry.backend_matrix.is_empty() && entry.opcode_kinds.is_empty());
    }
    assert_eq!(front_end_error(&FrontEndError::Semantic(vec![])), "");
}

#[test]
fn a_cell_describes_a_run() {
    let cell = backend_cell(&BackendRun {
        name: text("VM"),
        status: BackendRunStatus::Executed(BackendOutcome {
            success: true,
            return_value: -12,
            trap_code: TrapCode::NoTrap,
            output: vec![text("OUTPUT: 1")],
        }),
    });
    assert_eq!(cell.backend, "VM");
    assert_eq!(cell.status, "executed");
    assert_eq!(cell.detail, "success=true, return=-12, trap=None");
}

#[test]
fn the_default_configuration() {
    let config = EvidenceConfig::default();
    assert_eq!(config.output_dir, "evidence/latest");
    assert_eq!(config.corpus_dir, "tests/corpus");
    assert_eq!(config.artifact_scan_dir, "fuzz-artifacts");
    assert_eq!(config.bug_museum_dir, "tests/bugs");
    assert_eq!(config.fuzz_cases, 150);
    assert_eq!(config.fuzz_seeds, vec![0x5eed, 0xc0ffee, 0xbadc0de, 0x51ced]);
    assert_eq!(config.fuzz_modes, vec![FuzzMode::General, FuzzMode::OptimizerStress]);
}

#[test]
fn the_fuzz_matrix_has_every_mode_and_seed() {
    let config = EvidenceConfig::default();
    let jobs = fuzz_jobs(&config.fuzz_modes, &config.fuzz_seeds, config.fuzz_cases);
    assert_eq!(jobs.len(), 8);
    assert_eq!(jobs[1].seed, 0xc0ffee);
    assert_eq!(jobs[1].mode, FuzzMode::General);
    assert_eq!(jobs[1].cases, 150);
    assert_eq!(jobs[1].artifact_path, vec!["fuzz-artifacts", "general-0000000000c0ffee"]);
    assert_eq!(jobs[4].seed, 0x5eed);
    assert_eq!(jobs[4].artifact_path[1], "optimizer-stress-0000000000005eed");
    assert!(fuzz_jobs(&vec![], &vec![1], 1).is_empty());
    assert!(fuzz_jobs(&vec![FuzzMode::General], &vec![], 1).is_empty());
}

#[test]
fn there_are_as_many_instructions_as_names() {
    let all = all_opcodes();
    assert_eq!(all.len(), 34);
    assert_eq!(opcode_name(all[0]), "LoadConst");
    assert_eq!(opcode_name(all[33]), "Halt");
    for opcode in &all {
        assert_eq!(opcode_name(*opcode), format!("{opcode:?}"));
    }
    let kinds = program_opcode_kinds(&vec![Opcode::Sub, Opcode::Add, Opcode::Sub, Opcode::And]);
    assert_eq!(kinds, vec!["Add", "And", "Sub"]);
}

#[test]
fn sets_of_names_have_no_duplicates() {
    let set = NameSet::new().with(text("b")).with(text("a")).with(text("b"));
    assert_eq!(set.len(), 2);
    assert!(set.contains("a") && !set.contains("c"));
    let both = set.clone().union(&NameSet::new().with(text("c")).with(text("a")));
    assert_eq!(both.into_names(), vec!["a", "b", "c"]);
    assert_eq!(set.into_names(), vec!["a", "b"]);
}

fn covered(cases: usize, loops: usize, opcode: &str) -> FuzzCoverage {
    FuzzCoverage {
        cases,
        loops,
        metamorphic_variants: 3,
        metamorphic_dead_branch: 2,
        opcode_kinds: NameSet::new().with(text(opcode)),
        ..FuzzCoverage::default()
    }
}

#[test]
fn coverage_adds_up_over_the_runs() {
    let runs = vec![run(1, true, covered(4, 2, "Add")), run(2, true, covered(6, 1, "Sub"))];
    assert!(fuzz_totals_fit(&runs));
    let total = aggregate_fuzz_coverage(&runs);
    assert_eq!(total.cases, 10);
    assert_eq!(total.loops, 3);
    assert_eq!(total.metamorphic_variants, 6);
    assert_eq!(total.branches, 0);
    assert!(total.opcode_kinds.contains("Add") && total.opcode_kinds.contains("Sub"));
    assert_eq!(aggregate_fuzz_coverage(&vec![]).cases, 0);
}

#[test]
fn totals_that_do_not_fit_are_noticed() {
    let huge = FuzzCoverage { dead_code_shapes: usize::MAX, ..FuzzCoverage::default() };
    let one = FuzzCoverage { dead_code_shapes: 1, ..FuzzCoverage::default() };
    assert!(fuzz_totals_fit(&vec![run(1, true, huge.clone())]));
    assert!(!fuzz_totals_fit(&vec![run(1, true, huge), run(2, true, one)]));
    let mut busy = run(1, true, FuzzCoverage::default());
    busy.report.cases_executed = usize::MAX;
    assert!(!fuzz_totals_fit(&vec![busy, run(2, true, FuzzCoverage::default())]));
}

#[test]
fn the_dashboard_shows_what_was_seen() {
    let corpus = vec![audit(checks())];
    let runs = vec![run(1, true, covered(4, 2, "Add"))];
    let dashboard = coverage_dashboard(&corpus, &runs);
    assert_eq!(dashboard.fuzz_cases, 4);
    assert_eq!(dashboard.metamorphic_variants, 3);
    assert_eq!(dashboard.opcodes_total, 34);
    assert_eq!(dashboard.opcodes_seen, 3);
    assert_eq!(dashboard.opcode_rows.len(), 34);
    let row = |name: &str| {
        let row = dashboard.opcode_rows.iter().find(|row| row.opcode == name).unwrap();
        (row.corpus_seen, row.fuzz_seen)
    };
    assert_eq!(row("Add"), (false, true));
    assert_eq!(row("LoadLocal"), (true, false));
    assert_eq!(row("Halt"), (false, false));
    let feature = |name: &str| {
        let row = dashboard.feature_rows.iter().find(|row| row.feature == name).unwrap();
        (row.cases, row.total_cases)
    };
    assert_eq!(dashboard.feature_rows.len(), 22);
    assert_eq!(feature("loops"), (2, 4));
    assert_eq!(feature("metamorphic dead-branch variants"), (2, 3));
}

#[test]
fn every_feature_has_its_counter() {
    let coverage = FuzzCoverage {
        cases: 100,
        coverage_guided_cases: 1,
        oracle_comparisons: 2,
        metamorphic_variants: 50,
        metamorphic_return_neutral: 3,
        metamorphic_dead_branch: 4,
        metamorphic_unused_local: 5,
        metamorphic_algebraic_neutral: 6,
        metamorphic_branch_inversion: 7,
        metamorphic_helper_wrapping: 8,
        metamorphic_statement_reordering: 9,
        optimizer_stress_cases: 10,
        helper_functions: 11,
        helper_calls: 12,
        branches: 13,
        loops: 14,
        prints: 15,
        global_array_reads: 16,
        global_array_writes: 17,
        local_array_reads: 18,
        local_array_writes: 19,
        loop_indexed_array_writes: 20,
        helper_array_interactions: 21,
        constant_fold_patterns: 22,
        dead_code_shapes: 23,
        opcode_kinds: NameSet::new(),
    };
    let rows: Vec<(String, usize, usize)> = feature_coverage_rows(&coverage)
        .into_iter()
        .map(|row| (row.feature, row.cases, row.total_cases))
        .collect();
    let expected: Vec<(String, usize, usize)> = vec![
        ("coverage-guided selected cases", 1, 100),
        ("optimizer stress cases", 10, 100),
        ("helper functions", 11, 100),
        ("helper calls", 12, 100),
        ("branches", 13, 100),
        ("loops", 14, 100),
        ("print statements", 15, 100),
        ("global array reads", 16, 100),
        ("global array writes", 17, 100),
        ("local array reads", 18, 100),
        ("local array writes", 19, 100),
        ("loop-indexed array writes", 20, 100),
        ("helper/array interactions", 21, 100),
        ("constant-fold patterns", 22, 100),
        ("dead-code shapes", 23, 100),
        ("metamorphic return-neutral variants", 3, 50),
        ("metamorphic dead-branch variants", 4, 50),
        ("metamorphic unused-local variants", 5, 50),
        ("metamorphic algebraic-neutral variants", 6, 50),
        ("metamorphic branch-inversion variants", 7, 50),
        ("metamorphic helper-wrapping variants", 8, 50),
        ("metamorphic statement-reordering variants", 9, 50),
    ]
    .into_iter()
    .map(|(feature, cases, total)| (text(feature), cases, total))
    .collect();
    assert_eq!(rows, expected);
}

fn report(corpus: Vec<CorpusEvidence>, fuzz: Vec<FuzzRunEvidence>) -> EvidenceReport {
    assemble_report(17, corpus, fuzz, vec![], museum())
}

#[test]
fn a_report_passes_where_everything_does() {
    let good = report(vec![audit(checks())], vec![run(1, true, FuzzCoverage::default())]);
    assert!(good.summary.passed);
    assert_eq!(good.generated_at_unix, 17);
    assert_eq!(good.summary.corpus_files, 1);
    assert_eq!(good.summary.fuzz_cases_executed, 5);
    assert_eq!(good.summary.bug_museum_entries, 1);

    let failed = audit_source_file(text("p"), SourceAudit::Unreadable(text("gone")));
    let bad = report(vec![audit(checks()), failed], vec![]);
    assert!(!bad.summary.passed);
    assert_eq!(bad.summary.corpus_failures, 1);
    assert_eq!(bad.summary.backend_mismatches, 1);
    assert_eq!(bad.summary.oracle_mismatches, 1);
    assert_eq!(bad.summary.trace_failures, 1);

    let bad = report(vec![], vec![run(1, false, FuzzCoverage::default())]);
    assert!(!bad.summary.passed);
    assert_eq!(bad.summary.fuzz_failures, 1);

    let incomplete = scan_bug_museum(&vec![MuseumDir { has_readme: true, ..museum_dir("b/c") }]);
    let summary = summarize(&vec![], &vec![], &vec![], &incomplete);
    assert!(!summary.passed);
    assert_eq!(summary.bug_museum_incomplete, 1);

    assert!(summarize(&vec![], &vec![], &vec![], &vec![]).passed);
}

#[test]
fn artifacts_do_not_fail_a_report() {
    let artifacts = scan_bug_artifacts(&vec![ScannedDir {
        path: text("a"),
        has_manifest: true,
        has_minimized_source: false,
    }]);
    let summary = summarize(&vec![], &vec![], &artifacts, &vec![]);
    assert!(summary.passed);
    assert_eq!(summary.historical_artifacts, 1);
}

#[test]
fn fuzz_runs_do_not_share_a_directory() {
    let modes = vec![FuzzMode::General, FuzzMode::OptimizerStress];
    let jobs = fuzz_jobs(&modes, &vec![0, 1, 16, u64::MAX], 1);
    for (i, first) in jobs.iter().enumerate() {
        for (j, second) in jobs.iter().enumerate() {
            assert_eq!(first.artifact_path == second.artifact_path, i == j);
        }
    }
    assert_eq!(jobs[3].artifact_path[1], "general-ffffffffffffffff");
}

#[test]
fn the_order_of_scanned_directories_does_not_matter() {
    let dir = |path: &str| MuseumDir { has_readme: true, ..museum_dir(path) };
    let ids = |dirs: Vec<MuseumDir>| -> Vec<String> {
        scan_bug_museum(&dirs).into_iter().map(|entry| entry.id).collect()
    };
    let expected = vec!["a", "b", "c"];
    assert_eq!(ids(vec![dir("m/c"), dir("m/a"), dir("m/b")]), expected);
    assert_eq!(ids(vec![dir("m/b"), dir("m/c"), dir("m/a")]), expected);
}

fn config(modes: Vec<FuzzMode>, seeds: Vec<u64>) -> EvidenceConfig {
    EvidenceConfig { fuzz_cases: 1, fuzz_modes: modes, fuzz_seeds: seeds, ..EvidenceConfig::default() }
}

fn fuzz_report(cases_executed: usize) -> FuzzReport {
    FuzzReport { success: true, cases_executed, coverage: covered(1, 0, "Add"), json: text("{}") }
}

#[test]
fn a_report_is_generated_from_what_was_found() {
    let modes = vec![FuzzMode::General, FuzzMode::OptimizerStress];
    let report = generate_evidence_report(
        &config(modes, vec![7, 9]),
        42,
        Some(vec![
            (text("c/z.lang"), SourceAudit::Unreadable(text("gone"))),
            (
                text("c/b.lang"),
                SourceAudit::Checked {
                    source: text(REPRO),
                    program: undefined_local(),
                    checks: checks(),
                },
            ),
        ]),
        vec![fuzz_report(1), fuzz_report(2), fuzz_report(3), fuzz_report(4)],
        Some(vec![ScannedDir {
            path: text("art"),
            has_manifest: true,
            has_minimized_source: false,
        }]),
        Some(vec![MuseumDir { has_readme: true, ..museum_dir("m/bug") }]),
    )
    .unwrap();
    assert_eq!(report.generated_at_unix, 42);
    assert_eq!(report.corpus[0].path, "c/b.lang");
    assert!(report.corpus[0].passed());
    assert_eq!(report.corpus[1].path, "c/z.lang");
    assert_eq!(report.corpus[1].error.as_deref(), Some("read failed: gone"));
    let runs: Vec<(FuzzMode, u64, usize)> = report
        .fuzz
        .iter()
        .map(|run| (run.mode, run.seed, run.report.cases_executed))
        .collect();
    assert_eq!(
        runs,
        vec![
            (FuzzMode::General, 7, 1),
            (FuzzMode::General, 9, 2),
            (FuzzMode::OptimizerStress, 7, 3),
            (FuzzMode::OptimizerStress, 9, 4),
        ]
    );
    assert_eq!(report.summary.fuzz_runs, 4);
    assert_eq!(report.summary.fuzz_cases_executed, 10);
    assert_eq!(report.coverage.fuzz_cases, 4);
    assert_eq!(report.artifacts[0].path, "art");
    assert_eq!(report.bug_museum[0].id, "bug");
    assert!(!report.summary.passed);
}

#[test]
fn a_missing_directory_gives_no_evidence() {
    let report =
        generate_evidence_report(&config(vec![], vec![1]), 0, None, vec![], None, None).unwrap();
    assert!(report.corpus.is_empty() && report.fuzz.is_empty());
    assert!(report.artifacts.is_empty() && report.bug_museum.is_empty());
    assert!(report.summary.passed);
}

#[test]
fn there_is_no_report_where_the_totals_do_not_fit() {
    let report = generate_evidence_report(
        &config(vec![FuzzMode::General], vec![1, 2]),
        0,
        None,
        vec![fuzz_report(usize::MAX), fuzz_report(1)],
        None,
        None,
    );
    assert!(report.is_none());
}
