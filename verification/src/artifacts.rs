//! The bugs on record: what failed fuzz cases left behind, and the documented ones.

use vstd::prelude::*;

use crate::hash;
use crate::hash::stable_hash;
use crate::metadata;
use crate::metadata::{metadata_value, parse_metadata};
use crate::order;
use crate::order::{Keyed, sort_by_key};
use crate::table::Table;
use crate::text;
use crate::text::push_hex16;

verus! {

/// A directory with what a failed fuzz case left behind.
#[derive(Debug, Clone)]
pub struct BugArtifactEvidence {
    pub path: String,
    pub has_manifest: bool,
    pub has_minimized_source: bool,
}

/// A documented bug.
#[derive(Debug, Clone)]
pub struct BugMuseumEvidence {
    pub id: String,
    pub path: String,
    pub status: String,
    pub expected: String,
    pub proof_gate: String,
    pub has_metadata: bool,
    pub has_readme: bool,
    pub has_repro_source: bool,
    pub repro_source_hash: Option<String>,
}

/// A directory below the one that is searched for artifacts.
pub struct ScannedDir {
    pub path: String,
    pub has_manifest: bool,
    pub has_minimized_source: bool,
}

/// A directory that is searched for documented bugs: the museum's own, or one below it.
pub struct MuseumDir {
    pub is_root: bool,
    pub path: String,
    /// The last component of the path, where it has one.
    pub file_name: Option<String>,
    /// The text of `metadata.txt`.
    pub metadata: Option<String>,
    /// Whether there is a `README.md`.
    pub has_readme: bool,
    /// The text of `repro.lang`.
    pub repro: Option<String>,
    /// The text of `minimized.lang`.
    pub minimized: Option<String>,
}

impl Keyed for BugArtifactEvidence {
    open spec fn key(&self) -> Seq<char> {
        self.path@
    }

    fn key_text(&self) -> (r: &str) {
        self.path.as_str()
    }
}

impl Keyed for BugMuseumEvidence {
    open spec fn key(&self) -> Seq<char> {
        self.id@
    }

    fn key_text(&self) -> (r: &str) {
        self.id.as_str()
    }
}

/// The directories that hold an artifact, as evidence, in the order in which they stand.
pub open spec fn artifacts_of(dirs: Seq<ScannedDir>) -> Seq<BugArtifactEvidence>
    decreases dirs.len(),
{
    if dirs.len() == 0 {
        Seq::empty()
    } else {
        let before = artifacts_of(dirs.drop_last());
        let dir = dirs.last();
        if dir.has_manifest || dir.has_minimized_source {
            before.push(
                BugArtifactEvidence {
                    path: dir.path,
                    has_manifest: dir.has_manifest,
                    has_minimized_source: dir.has_minimized_source,
                },
            )
        } else {
            before
        }
    }
}

/// The artifacts among the directories searched, in the order of their paths.
pub fn scan_bug_artifacts(dirs: &Vec<ScannedDir>) -> (r: Vec<BugArtifactEvidence>)
    ensures
        order::is_stable_sort(artifacts_of(dirs@), r@),
{
    let mut artifacts: Vec<BugArtifactEvidence> = Vec::new();
    let mut i: usize = 0;
    while i < dirs.len()
        invariant
            i <= dirs.len(),
            artifacts@ == artifacts_of(dirs@.take(i as int)),
        decreases dirs.len() - i,
    {
        let dir = &dirs[i];
        if dir.has_manifest || dir.has_minimized_source {
            artifacts.push(
                BugArtifactEvidence {
                    path: dir.path.clone(),
                    has_manifest: dir.has_manifest,
                    has_minimized_source: dir.has_minimized_source,
                },
            );
        }
        i = i + 1;
        assert(dirs@.take(i as int).drop_last() =~= dirs@.take(i - 1));
    }
    assert(dirs@.take(i as int) =~= dirs@);
    sort_by_key(artifacts)
}

/// What is recorded of a documented bug.
pub struct MuseumRecord {
    pub id: Seq<char>,
    pub path: Seq<char>,
    pub status: Seq<char>,
    pub expected: Seq<char>,
    pub proof_gate: Seq<char>,
    pub has_metadata: bool,
    pub has_readme: bool,
    pub has_repro_source: bool,
    pub repro_source_hash: Option<Seq<char>>,
}

impl View for BugMuseumEvidence {
    type V = MuseumRecord;

    open spec fn view(&self) -> MuseumRecord {
        MuseumRecord {
            id: self.id@,
            path: self.path@,
            status: self.status@,
            expected: self.expected@,
            proof_gate: self.proof_gate@,
            has_metadata: self.has_metadata,
            has_readme: self.has_readme,
            has_repro_source: self.has_repro_source,
            repro_source_hash: match self.repro_source_hash {
                Some(hash) => Some(hash@),
                None => None,
            },
        }
    }
}

/// Whether a bug is documented in full.
pub open spec fn complete(entry: BugMuseumEvidence) -> bool {
    entry.has_metadata && entry.has_readme && entry.has_repro_source
}

impl BugMuseumEvidence {
    /// Whether the bug is documented in full.
    pub fn is_complete(&self) -> (r: bool)
        ensures
            r == complete(*self),
            r <==> self.has_metadata && self.has_readme && self.has_repro_source,
    {
        self.has_metadata && self.has_readme && self.has_repro_source
    }
}

/// The source that shows the bug: `repro.lang`, or `minimized.lang` where there is none.
pub open spec fn reproduction(dir: MuseumDir) -> Option<String> {
    if dir.repro is Some {
        dir.repro
    } else {
        dir.minimized
    }
}

/// Whether a directory documents a bug. That of the museum itself does not.
pub open spec fn documents(dir: MuseumDir) -> bool {
    !dir.is_root && (dir.metadata is Some || dir.has_readme || reproduction(dir) is Some)
}

/// The fields of the metadata of a directory.
pub open spec fn fields_of(dir: MuseumDir) -> Map<Seq<char>, Seq<char>> {
    match dir.metadata {
        Some(source) => metadata::fields(metadata::lines(source@)),
        None => Map::empty(),
    }
}

/// What a directory records of a bug. The bug goes by the name that the metadata give it, else by
/// that of the directory.
pub open spec fn record_of(dir: MuseumDir) -> MuseumRecord {
    let fields = fields_of(dir);
    MuseumRecord {
        id: if fields.contains_key("id"@) {
            fields["id"@]
        } else {
            match dir.file_name {
                Some(name) => name@,
                None => dir.path@,
            }
        },
        path: dir.path@,
        status: metadata::field_value(fields, "status"@),
        expected: metadata::field_value(fields, "expected"@),
        proof_gate: metadata::field_value(fields, "proof_gate"@),
        has_metadata: dir.metadata is Some,
        has_readme: dir.has_readme,
        has_repro_source: reproduction(dir) is Some,
        repro_source_hash: match reproduction(dir) {
            Some(source) => Some(text::hex16(hash::fnv1a(vstd::utf8::encode_utf8(source@)))),
            None => None,
        },
    }
}

/// What the directories record of bugs, in the order in which they stand.
pub open spec fn records_of(dirs: Seq<MuseumDir>) -> Seq<MuseumRecord>
    decreases dirs.len(),
{
    if dirs.len() == 0 {
        Seq::empty()
    } else {
        let before = records_of(dirs.drop_last());
        if documents(dirs.last()) {
            before.push(record_of(dirs.last()))
        } else {
            before
        }
    }
}

/// What is recorded in entries.
pub open spec fn recorded(entries: Seq<BugMuseumEvidence>) -> Seq<MuseumRecord> {
    entries.map_values(|entry: BugMuseumEvidence| entry@)
}

/// Whether the entries are what the directories record of bugs, in the order of the bugs' names.
pub open spec fn is_museum(entries: Seq<BugMuseumEvidence>, dirs: Seq<MuseumDir>) -> bool {
    exists|found: Seq<BugMuseumEvidence>| #[trigger]
        recorded(found) == records_of(dirs) && order::is_stable_sort(found, entries)
}

/// The entry of a directory that documents a bug.
pub fn museum_entry(dir: &MuseumDir) -> (r: BugMuseumEvidence)
    ensures
        r@ == record_of(*dir),
{
    let fields: Table<String> = match &dir.metadata {
        Some(source) => parse_metadata(source.as_str()),
        None => Table::new(),
    };
    let id = match fields.get("id") {
        Some(id) => id.clone(),
        None => match &dir.file_name {
            Some(name) => name.clone(),
            None => dir.path.clone(),
        },
    };
    let source = match &dir.repro {
        Some(source) => Some(source),
        None => match &dir.minimized {
            Some(source) => Some(source),
            None => None,
        },
    };
    let repro_source_hash = match source {
        Some(source) => {
            let mut text = String::new();
            push_hex16(&mut text, stable_hash(source.as_str()));
            assert(text@ =~= text::hex16(hash::fnv1a(vstd::utf8::encode_utf8(source@))));
            Some(text)
        },
        None => None,
    };
    BugMuseumEvidence {
        id,
        path: dir.path.clone(),
        status: metadata_value(&fields, "status"),
        expected: metadata_value(&fields, "expected"),
        proof_gate: metadata_value(&fields, "proof_gate"),
        has_metadata: dir.metadata.is_some(),
        has_readme: dir.has_readme,
        has_repro_source: source.is_some(),
        repro_source_hash,
    }
}

/// The documented bugs of the directories searched, in the order of their names.
pub fn scan_bug_museum(dirs: &Vec<MuseumDir>) -> (r: Vec<BugMuseumEvidence>)
    ensures
        is_museum(r@, dirs@),
{
    let mut entries: Vec<BugMuseumEvidence> = Vec::new();
    let mut i: usize = 0;
    assert(recorded(entries@) =~= Seq::empty());
    while i < dirs.len()
        invariant
            i <= dirs.len(),
            recorded(entries@) == records_of(dirs@.take(i as int)),
        decreases dirs.len() - i,
    {
        let dir = &dirs[i];
        let ghost before: Seq<BugMuseumEvidence> = entries@;
        if !dir.is_root && (dir.metadata.is_some() || dir.has_readme || dir.repro.is_some()
            || dir.minimized.is_some()) {
            let entry = museum_entry(dir);
            entries.push(entry);
            assert(recorded(entries@) =~= recorded(before).push(entry@));
        }
        i = i + 1;
        assert(dirs@.take(i as int).drop_last() =~= dirs@.take(i - 1));
    }
    assert(dirs@.take(i as int) =~= dirs@);
    sort_by_key(entries)
}

/// The museum lists every bug that a directory documents, and nothing else.
pub proof fn law_every_documented_bug_is_listed(
    entries: Seq<BugMuseumEvidence>,
    dirs: Seq<MuseumDir>,
    record: MuseumRecord,
)
    requires
        is_museum(entries, dirs),
    ensures
        recorded(entries).contains(record) <==> exists|i: int|
            0 <= i < dirs.len() && documents(#[trigger] dirs[i]) && record_of(dirs[i]) == record,
        entries.len() == records_of(dirs).len(),
{
    broadcast use vstd::seq_lib::group_to_multiset_ensures;

    let found = choose|found: Seq<BugMuseumEvidence>| #[trigger]
        recorded(found) == records_of(dirs) && order::is_stable_sort(found, entries);
    assert(found.len() == found.to_multiset().len());
    assert(entries.len() == entries.to_multiset().len());
    assert(found.len() == recorded(found).len());
    lemma_records_of(dirs, record);
    if recorded(entries).contains(record) {
        let i = choose|i: int| 0 <= i < entries.len() && recorded(entries)[i] == record;
        assert(entries.contains(entries[i]));
        assert(found.to_multiset().count(entries[i]) > 0);
        assert(found.contains(entries[i]));
        let j = choose|j: int| 0 <= j < found.len() && found[j] == entries[i];
        assert(recorded(found)[j] == record);
    }
    if recorded(found).contains(record) {
        let i = choose|i: int| 0 <= i < found.len() && recorded(found)[i] == record;
        assert(found.contains(found[i]));
        assert(entries.to_multiset().count(found[i]) > 0);
        assert(entries.contains(found[i]));
        let j = choose|j: int| 0 <= j < entries.len() && entries[j] == found[i];
        assert(recorded(entries)[j] == record);
    }
}

proof fn lemma_records_of(dirs: Seq<MuseumDir>, record: MuseumRecord)
    ensures
        records_of(dirs).contains(record) <==> exists|i: int|
            0 <= i < dirs.len() && documents(#[trigger] dirs[i]) && record_of(dirs[i]) == record,
    decreases dirs.len(),
{
    if dirs.len() > 0 {
        let rest = dirs.drop_last();
        let before = records_of(rest);
        let last = dirs.len() - 1;
        lemma_records_of(rest, record);
        if records_of(dirs).contains(record) {
            let k = choose|k: int| 0 <= k < records_of(dirs).len() && records_of(dirs)[k] == record;
            if k < before.len() {
                assert(before[k] == record);
                let i = choose|i: int|
                    0 <= i < rest.len() && documents(#[trigger] rest[i]) && record_of(rest[i])
                        == record;
                assert(dirs[i] == rest[i]);
            } else {
                assert(documents(dirs[last]));
            }
        }
        if exists|i: int|
            0 <= i < dirs.len() && documents(#[trigger] dirs[i]) && record_of(dirs[i]) == record {
            let i = choose|i: int|
                0 <= i < dirs.len() && documents(#[trigger] dirs[i]) && record_of(dirs[i])
                    == record;
            if i < last {
                assert(rest[i] == dirs[i]);
                assert(before.contains(record));
                let k = choose|k: int| 0 <= k < before.len() && before[k] == record;
                assert(records_of(dirs)[k] == record);
            } else {
                assert(records_of(dirs)[before.len() as int] == record);
            }
        }
    }
}

} // verus!
