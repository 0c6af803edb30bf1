//! What is asked of a report, and what the checks make of a program.

use vstd::prelude::*;
use vstd::string::StringExecFns;

use crate::ast::Program;
use crate::compare;
use crate::compare::{BackendComparisonReport, BackendRun, BackendRunStatus, compare_ast_oracle};
use crate::fuzz::FuzzMode;
use crate::hash;
use crate::hash::stable_hash;
use crate::names;
use crate::opcode;
use crate::opcode::{Opcode, program_opcode_kinds};
use crate::order;
use crate::order::{Keyed, sort_by_key};
use crate::text;
use crate::text::{concat2, push_bool, push_i64};
use crate::trap;

verus! {

/// Where a report finds its material, and how much it fuzzes.
#[derive(Debug, Clone)]
pub struct EvidenceConfig {
    pub output_dir: String,
    pub corpus_dir: String,
    pub artifact_scan_dir: String,
    pub bug_museum_dir: String,
    pub fuzz_cases: usize,
    pub fuzz_seeds: Vec<u64>,
    pub fuzz_modes: Vec<FuzzMode>,
}

impl Default for EvidenceConfig {
    fn default() -> (r: Self)
        ensures
            r.output_dir@ == "evidence/latest"@,
            r.corpus_dir@ == "tests/corpus"@,
            r.artifact_scan_dir@ == "fuzz-artifacts"@,
            r.bug_museum_dir@ == "tests/bugs"@,
            r.fuzz_cases == 150,
            r.fuzz_seeds@ == seq![0x5eedu64, 0xc0ffeeu64, 0xbadc0deu64, 0x51cedu64],
            r.fuzz_modes@ == seq![FuzzMode::General, FuzzMode::OptimizerStress],
    {
        let fuzz_seeds: Vec<u64> = vec![0x5eed, 0xc0ffee, 0xbadc0de, 0x51ced];
        let fuzz_modes: Vec<FuzzMode> = vec![FuzzMode::General, FuzzMode::OptimizerStress];
        assert(fuzz_seeds@ =~= seq![0x5eedu64, 0xc0ffeeu64, 0xbadc0deu64, 0x51cedu64]);
        assert(fuzz_modes@ =~= seq![FuzzMode::General, FuzzMode::OptimizerStress]);
        EvidenceConfig {
            output_dir: "evidence/latest".to_string(),
            corpus_dir: "tests/corpus".to_string(),
            artifact_scan_dir: "fuzz-artifacts".to_string(),
            bug_museum_dir: "tests/bugs".to_string(),
            fuzz_cases: 150,
            fuzz_seeds,
            fuzz_modes,
        }
    }
}

/// What the checks make of one program of the corpus.
#[derive(Debug, Clone)]
pub struct CorpusEvidence {
    pub path: String,
    pub source_hash: u64,
    pub compile_passed: bool,
    pub verify_passed: bool,
    pub oracle_equivalent: bool,
    pub backend_equivalent: bool,
    pub trace_replay_passed: bool,
    pub trace_replay_fingerprint: Option<String>,
    pub trace_diff_passed: bool,
    pub trace_diff_fingerprint: Option<String>,
    pub backend_matrix: Vec<BackendCell>,
    pub opcode_kinds: Vec<String>,
    pub error: Option<String>,
}

/// What one backend made of a program.
#[derive(Debug, Clone)]
pub struct BackendCell {
    pub backend: String,
    pub status: String,
    pub detail: String,
}

/// What became of a source file on its way through the compiler.
pub enum SourceAudit {
    /// The file could not be read; the text says why.
    Unreadable(String),
    /// The compiler rejects the source.
    Rejected { source: String, error: FrontEndError },
    /// The source compiled, and the checks were made.
    Checked { source: String, program: Program, checks: AuditChecks },
}

/// Why the compiler rejects a source.
pub enum FrontEndError {
    /// It does not parse; the text says why.
    Parse(String),
    /// It parses but has errors, each of which has its text.
    Semantic(Vec<String>),
}

/// What the checks on a compiled program found.
pub struct AuditChecks {
    /// Whether the verifier accepts the program.
    pub verified: bool,
    /// What the backends made of the program.
    pub backends: BackendComparisonReport,
    /// Whether two runs leave the same trace.
    pub replayable: bool,
    pub replay_fingerprint: String,
    /// Whether the traces of two machines agree.
    pub traces_equivalent: bool,
    pub trace_diff_fingerprint: String,
    /// The instructions of the program.
    pub instructions: Vec<Opcode>,
}

/// Whether a file name has the extension of a program: `.lang`, with something before it.
pub open spec fn is_program_name(name: Seq<char>) -> bool {
    &&& name.len() > 5
    &&& name.skip(name.len() - 5) == seq!['.', 'l', 'a', 'n', 'g']
}

/// Whether a file name has the extension of a program.
fn has_program_extension(name: &str) -> (r: bool)
    ensures
        r == is_program_name(name@),
{
    let chars = text::chars_of(name);
    let n = chars.len();
    if n <= 5 {
        return false;
    }
    let ghost last = name@.skip(name@.len() - 5);
    let ghost extension = seq!['.', 'l', 'a', 'n', 'g'];
    let r = chars[n - 5] == '.' && chars[n - 4] == 'l' && chars[n - 3] == 'a' && chars[n - 2] == 'n'
        && chars[n - 1] == 'g';
    proof {
        assert(last[0] == chars[n - 5] && last[1] == chars[n - 4] && last[2] == chars[n - 3]
            && last[3] == chars[n - 2] && last[4] == chars[n - 1]);
        if r {
            assert(last =~= extension);
        } else {
            assert(extension[0] == '.' && extension[1] == 'l' && extension[2] == 'a' && extension[3]
                == 'n' && extension[4] == 'g');
        }
    }
    r
}

/// A file of the corpus directory: its name, and its position in the listing that it came from.
#[derive(Debug, Clone)]
pub struct CorpusFile {
    pub name: String,
    pub position: usize,
}

impl Keyed for CorpusFile {
    open spec fn key(&self) -> Seq<char> {
        self.name@
    }

    fn key_text(&self) -> (r: &str) {
        self.name.as_str()
    }
}

/// The files of programs in a listing of names, in the order in which they stand.
pub open spec fn program_files(names: Seq<String>) -> Seq<CorpusFile>
    decreases names.len(),
{
    if names.len() == 0 {
        Seq::empty()
    } else {
        let before = program_files(names.drop_last());
        if is_program_name(names.last()@) {
            before.push(
                CorpusFile { name: names.last(), position: (names.len() - 1) as usize },
            )
        } else {
            before
        }
    }
}

/// The files of a directory that make up the corpus: those of programs, in the order of their
/// names.
pub fn select_corpus_files(names: &Vec<String>) -> (r: Vec<CorpusFile>)
    ensures
        order::is_stable_sort(program_files(names@), r@),
{
    let mut programs: Vec<CorpusFile> = Vec::new();
    let mut i: usize = 0;
    while i < names.len()
        invariant
            i <= names.len(),
            programs@ == program_files(names@.take(i as int)),
        decreases names.len() - i,
    {
        if has_program_extension(names[i].as_str()) {
            programs.push(CorpusFile { name: names[i].clone(), position: i });
        }
        i = i + 1;
        assert(names@.take(i as int).drop_last() =~= names@.take(i - 1));
    }
    assert(names@.take(i as int) =~= names@);
    sort_by_key(programs)
}

/// What the compiler says of a source that it rejects.
pub open spec fn front_end_message(error: FrontEndError) -> Seq<char> {
    match error {
        FrontEndError::Parse(reason) => "parse failed: "@ + reason@,
        FrontEndError::Semantic(errors) => text::joined(text::texts(errors@), "\n"@),
    }
}

/// What the compiler says of a source that it rejects.
pub fn front_end_error(error: &FrontEndError) -> (r: String)
    ensures
        r@ == front_end_message(*error),
{
    match error {
        FrontEndError::Parse(reason) => concat2("parse failed: ", reason.as_str()),
        FrontEndError::Semantic(errors) => text::joined_text(errors, "\n"),
    }
}

/// The cell of the backend matrix for a run: the backend, its status and the detail.
pub open spec fn cell_of(run: BackendRun) -> (Seq<char>, Seq<char>, Seq<char>) {
    match run.status {
        BackendRunStatus::Executed(outcome) => (
            run.name@,
            "executed"@,
            "success="@ + text::bool_text(outcome.success) + ", return="@ + text::decimal(
                outcome.return_value as int,
            ) + ", trap="@ + trap::trap_name(outcome.trap_code),
        ),
        BackendRunStatus::Skipped(reason) => (run.name@, "skipped"@, reason@),
    }
}

/// What a cell of the backend matrix holds.
pub open spec fn cell_view(cell: BackendCell) -> (Seq<char>, Seq<char>, Seq<char>) {
    (cell.backend@, cell.status@, cell.detail@)
}

/// The cell of the backend matrix for a run.
pub fn backend_cell(run: &BackendRun) -> (r: BackendCell)
    ensures
        cell_view(r) == cell_of(*run),
{
    match &run.status {
        BackendRunStatus::Executed(outcome) => {
            let mut detail = "success=".to_string();
            push_bool(&mut detail, outcome.success);
            detail.append(", return=");
            push_i64(&mut detail, outcome.return_value);
            detail.append(", trap=");
            detail.append(outcome.trap_code.name());
            BackendCell { backend: run.name.clone(), status: "executed".to_string(), detail }
        },
        BackendRunStatus::Skipped(reason) => BackendCell {
            backend: run.name.clone(),
            status: "skipped".to_string(),
            detail: reason.clone(),
        },
    }
}

/// The backend matrix of runs.
fn backend_cells(runs: &Vec<BackendRun>) -> (r: Vec<BackendCell>)
    ensures
        r@.map_values(|cell: BackendCell| cell_view(cell)) == runs@.map_values(
            |run: BackendRun| cell_of(run),
        ),
{
    let mut cells: Vec<BackendCell> = Vec::new();
    let mut i: usize = 0;
    while i < runs.len()
        invariant
            i <= runs.len(),
            cells.len() == i,
            forall|j: int| 0 <= j < i ==> cell_view(#[trigger] cells[j]) == cell_of(runs[j]),
        decreases runs.len() - i,
    {
        cells.push(backend_cell(&runs[i]));
        i = i + 1;
    }
    assert(cells@.map_values(|cell: BackendCell| cell_view(cell)) =~= runs@.map_values(
        |run: BackendRun| cell_of(run),
    ));
    cells
}

/// Whether a program passed every check.
pub open spec fn entry_passed(entry: CorpusEvidence) -> bool {
    &&& entry.compile_passed
    &&& entry.verify_passed
    &&& entry.oracle_equivalent
    &&& entry.backend_equivalent
    &&& entry.trace_replay_passed
    &&& entry.trace_diff_passed
}

/// Whether an entry is that of a program on which no check could be made.
pub open spec fn is_failed(
    entry: CorpusEvidence,
    path: Seq<char>,
    source_hash: u64,
    error: Seq<char>,
) -> bool {
    &&& entry.path@ == path
    &&& entry.source_hash == source_hash
    &&& !entry.compile_passed
    &&& !entry.verify_passed
    &&& !entry.oracle_equivalent
    &&& !entry.backend_equivalent
    &&& !entry.trace_replay_passed
    &&& entry.trace_replay_fingerprint is None
    &&& !entry.trace_diff_passed
    &&& entry.trace_diff_fingerprint is None
    &&& entry.backend_matrix@.len() == 0
    &&& entry.opcode_kinds@.len() == 0
    &&& entry.error matches Some(message) && message@ == error
}

/// Whether the interpreter and the backends agree on a program.
pub open spec fn oracle_agrees(program: Program, backends: BackendComparisonReport) -> bool {
    &&& backends.equivalent
    &&& forall|i: int|
        0 <= i < backends.runs.len() ==> !compare::differs(
            #[trigger] backends.runs[i],
            compare::expected_outcome(program),
        )
}

/// Whether an entry is that of a program on which the checks were made.
pub open spec fn is_checked(
    entry: CorpusEvidence,
    path: Seq<char>,
    source_hash: u64,
    program: Program,
    checks: AuditChecks,
) -> bool {
    &&& entry.path@ == path
    &&& entry.source_hash == source_hash
    &&& entry.compile_passed
    &&& entry.verify_passed == checks.verified
    &&& entry.oracle_equivalent == oracle_agrees(program, checks.backends)
    &&& entry.backend_equivalent == checks.backends.equivalent
    &&& entry.trace_replay_passed == checks.replayable
    &&& entry.trace_replay_fingerprint matches Some(print) && print@ == checks.replay_fingerprint@
    &&& entry.trace_diff_passed == checks.traces_equivalent
    &&& entry.trace_diff_fingerprint matches Some(print) && print@
        == checks.trace_diff_fingerprint@
    &&& entry.backend_matrix@.map_values(|cell: BackendCell| cell_view(cell))
        == checks.backends.runs@.map_values(|run: BackendRun| cell_of(run))
    &&& names::ascending(text::texts(entry.opcode_kinds@))
    &&& text::texts(entry.opcode_kinds@).to_set() == opcode::names_of(
        checks.instructions@,
    ).to_set()
    &&& match entry.error {
        None => entry_passed(entry),
        Some(message) => !entry_passed(entry) && message@ == "one or more audit checks failed"@,
    }
}

/// Whether an entry is that of a source file.
pub open spec fn is_audit(entry: CorpusEvidence, path: Seq<char>, audit: SourceAudit) -> bool {
    match audit {
        SourceAudit::Unreadable(reason) => is_failed(entry, path, 0, "read failed: "@ + reason@),
        SourceAudit::Rejected { source, error } => is_failed(
            entry,
            path,
            hash::fnv1a(vstd::utf8::encode_utf8(source@)),
            front_end_message(error),
        ),
        SourceAudit::Checked { source, program, checks } => is_checked(
            entry,
            path,
            hash::fnv1a(vstd::utf8::encode_utf8(source@)),
            program,
            checks,
        ),
    }
}

impl CorpusEvidence {
    /// The entry of a program on which no check could be made.
    pub fn failed(path: String, source_hash: u64, error: String) -> (r: Self)
        ensures
            is_failed(r, path@, source_hash, error@),
    {
        CorpusEvidence {
            path,
            source_hash,
            compile_passed: false,
            verify_passed: false,
            oracle_equivalent: false,
            backend_equivalent: false,
            trace_replay_passed: false,
            trace_replay_fingerprint: None,
            trace_diff_passed: false,
            trace_diff_fingerprint: None,
            backend_matrix: Vec::new(),
            opcode_kinds: Vec::new(),
            error: Some(error),
        }
    }

    /// Whether the program passed every check.
    pub fn passed(&self) -> (r: bool)
        ensures
            r == entry_passed(*self),
            r <==> self.compile_passed && self.verify_passed && self.oracle_equivalent
                && self.backend_equivalent && self.trace_replay_passed && self.trace_diff_passed,
    {
        self.compile_passed && self.verify_passed && self.oracle_equivalent
            && self.backend_equivalent && self.trace_replay_passed && self.trace_diff_passed
    }
}

/// The entry of a source file.
pub fn audit_source_file(path: String, audit: SourceAudit) -> (r: CorpusEvidence)
    ensures
        is_audit(r, path@, audit),
        r.path@ == path@,
        r.compile_passed <==> audit is Checked,
        r.verify_passed <==> (audit matches SourceAudit::Checked { source, program, checks }
            && checks.verified),
        r.backend_equivalent <==> (audit matches SourceAudit::Checked { source, program, checks }
            && checks.backends.equivalent),
        r.trace_replay_passed <==> (audit matches SourceAudit::Checked { source, program, checks }
            && checks.replayable),
        r.trace_diff_passed <==> (audit matches SourceAudit::Checked { source, program, checks }
            && checks.traces_equivalent),
{
    match audit {
        SourceAudit::Unreadable(reason) => CorpusEvidence::failed(
            path,
            0,
            concat2("read failed: ", reason.as_str()),
        ),
        SourceAudit::Rejected { source, error } => CorpusEvidence::failed(
            path,
            stable_hash(source.as_str()),
            front_end_error(&error),
        ),
        SourceAudit::Checked { source, program, checks } => {
            let source_hash = stable_hash(source.as_str());
            let backend_equivalent = checks.backends.equivalent;
            let backend_matrix = backend_cells(&checks.backends.runs);
            let opcode_kinds = program_opcode_kinds(&checks.instructions);
            let oracle = compare_ast_oracle(&program, checks.backends);
            let passed = checks.verified && oracle.equivalent && backend_equivalent
                && checks.replayable && checks.traces_equivalent;
            CorpusEvidence {
                path,
                source_hash,
                compile_passed: true,
                verify_passed: checks.verified,
                oracle_equivalent: oracle.equivalent,
                backend_equivalent,
                trace_replay_passed: checks.replayable,
                trace_replay_fingerprint: Some(checks.replay_fingerprint),
                trace_diff_passed: checks.traces_equivalent,
                trace_diff_fingerprint: Some(checks.trace_diff_fingerprint),
                backend_matrix,
                opcode_kinds,
                error: if passed {
                    None
                } else {
                    Some("one or more audit checks failed".to_string())
                },
            }
        },
    }
}

/// Whether the entries are those of source files, each with its path, in the same order.
pub open spec fn are_audits(
    entries: Seq<CorpusEvidence>,
    files: Seq<(String, SourceAudit)>,
) -> bool {
    &&& entries.len() == files.len()
    &&& forall|i: int|
        0 <= i < entries.len() ==> is_audit(#[trigger] entries[i], files[i].0@, files[i].1)
}

/// The entries of source files, each with its path, in the order of the paths.
pub fn audit_source_files(files: Vec<(String, SourceAudit)>) -> (r: Vec<CorpusEvidence>)
    ensures
        is_corpus(r@, files@),
{
    let ghost all: Seq<(String, SourceAudit)> = files@;
    let mut files = files;
    let mut entries: Vec<CorpusEvidence> = Vec::new();
    assert(all.skip(0) =~= all);
    while files.len() > 0
        invariant
            entries.len() + files.len() == all.len(),
            files@ == all.skip(entries.len() as int),
            are_audits(entries@, all.take(entries.len() as int)),
        decreases files.len(),
    {
        let ghost n: int = entries.len() as int;
        let (path, audit) = files.remove(0);
        assert(all.skip(n)[0] == all[n]);
        entries.push(audit_source_file(path, audit));
        assert(files@ =~= all.skip(n + 1));
    }
    assert(all.take(entries.len() as int) =~= all);
    sort_by_key(entries)
}

impl Keyed for CorpusEvidence {
    open spec fn key(&self) -> Seq<char> {
        self.path@
    }

    fn key_text(&self) -> (r: &str) {
        self.path.as_str()
    }
}

/// Whether the entries are those of source files, in the order of their paths.
pub open spec fn is_corpus(
    entries: Seq<CorpusEvidence>,
    files: Seq<(String, SourceAudit)>,
) -> bool {
    exists|audits: Seq<CorpusEvidence>| #[trigger]
        are_audits(audits, files) && order::is_stable_sort(audits, entries)
}

/// Whether one of the entries is that of a source file.
pub open spec fn is_listed(entries: Seq<CorpusEvidence>, file: (String, SourceAudit)) -> bool {
    exists|j: int| 0 <= j < entries.len() && is_audit(#[trigger] entries[j], file.0@, file.1)
}

/// Whether an entry is that of one of the source files.
pub open spec fn comes_of(entry: CorpusEvidence, files: Seq<(String, SourceAudit)>) -> bool {
    exists|i: int| 0 <= i < files.len() && is_audit(entry, (#[trigger] files[i]).0@, files[i].1)
}

/// The corpus has an entry for every source file and no other, and they stand in the order of their
/// paths.
pub proof fn law_every_source_file_is_audited(
    entries: Seq<CorpusEvidence>,
    files: Seq<(String, SourceAudit)>,
)
    requires
        is_corpus(entries, files),
    ensures
        entries.len() == files.len(),
        forall|i: int| 0 <= i < files.len() ==> is_listed(entries, #[trigger] files[i]),
        forall|j: int| 0 <= j < entries.len() ==> comes_of(#[trigger] entries[j], files),
        forall|i: int, j: int|
            0 <= i < j < entries.len() ==> order::text_le(
                (#[trigger] entries[i]).path@,
                (#[trigger] entries[j]).path@,
            ),
{
    broadcast use vstd::seq_lib::group_to_multiset_ensures;

    let audits = choose|audits: Seq<CorpusEvidence>| #[trigger]
        are_audits(audits, files) && order::is_stable_sort(audits, entries);
    assert(audits.len() == audits.to_multiset().len());
    assert(entries.len() == entries.to_multiset().len());
    assert forall|i: int| 0 <= i < files.len() implies is_listed(
        entries,
        #[trigger] files[i],
    ) by {
        assert(is_audit(audits[i], files[i].0@, files[i].1));
        assert(audits.contains(audits[i]));
        assert(entries.to_multiset().count(audits[i]) > 0);
        assert(entries.contains(audits[i]));
        let j = choose|j: int| 0 <= j < entries.len() && entries[j] == audits[i];
        assert(is_audit(entries[j], files[i].0@, files[i].1));
    }
    assert forall|j: int| 0 <= j < entries.len() implies comes_of(
        #[trigger] entries[j],
        files,
    ) by {
        assert(entries.contains(entries[j]));
        assert(audits.to_multiset().count(entries[j]) > 0);
        assert(audits.contains(entries[j]));
        let i = choose|i: int| 0 <= i < audits.len() && audits[i] == entries[j];
        assert(is_audit(audits[i], files[i].0@, files[i].1));
    }
    assert forall|i: int, j: int| 0 <= i < j < entries.len() implies order::text_le(
        (#[trigger] entries[i]).path@,
        (#[trigger] entries[j]).path@,
    ) by {
        assert(order::text_le(entries[i].key(), entries[j].key()));
    }
}

/// An entry has an error exactly where the program did not pass every check.
pub proof fn law_errors_mark_failures(entry: CorpusEvidence, path: Seq<char>, audit: SourceAudit)
    requires
        is_audit(entry, path, audit),
    ensures
        entry.error is None <==> entry_passed(entry),
{
}

/// A program passes only where it compiles, and then exactly where the verifier accepts it, its
/// traces pass, the backends agree, and every backend that ran it shows what the interpreter shows.
pub proof fn law_passing_means_agreement(
    entry: CorpusEvidence,
    path: Seq<char>,
    audit: SourceAudit,
)
    requires
        is_audit(entry, path, audit),
    ensures
        entry_passed(entry) <==> {
            &&& audit matches SourceAudit::Checked { source, program, checks }
            &&& checks.verified
            &&& checks.replayable
            &&& checks.traces_equivalent
            &&& checks.backends.equivalent
            &&& forall|i: int|
                0 <= i < checks.backends.runs.len() ==> match (
                #[trigger] checks.backends.runs[i]).status {
                    BackendRunStatus::Executed(outcome) => compare::agrees(
                        outcome,
                        compare::expected_outcome(program),
                    ),
                    BackendRunStatus::Skipped(_) => true,
                }
        },
{
}

} // verus!
