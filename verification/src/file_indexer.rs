//! The traversal-and-upsert engine: normalizes filesystem metadata into
//! records, decides per entry whether to ignore, skip or store it, and runs
//! the whole pipeline against the in-memory store model.
//!
//! The caller enumerates the filesystem entries under the scan root and
//! hands them in as plain values; everything from exclusion filtering to the
//! final upsert is decided and performed here.

use vstd::prelude::*;

use crate::incremental::{needs_rescan, rescan_needed};
use crate::skipcompare::{is_blacklisted, path_excluded, ExclusionSet};
use crate::store::{stored_modified_of, FileRecord, IndexStore, RecordV};

verus! {

/// The metadata read for one filesystem entry, as plain values: size in
/// bytes, the Unix permission bits if the platform has them, and creation
/// and modification times in seconds since the Unix epoch where they could
/// be read.
#[derive(Clone, Copy)]
pub struct EntryMeta {
    pub size: u64,
    pub mode: Option<u32>,
    pub created: Option<u64>,
    pub modified: Option<u64>,
}

/// One filesystem entry discovered under the scan root: its path, its base
/// name, whether it is a regular file, and its metadata — `None` when the
/// metadata read failed, which skips the entry without aborting the run.
pub struct EntryInfo {
    pub path: String,
    pub filename: String,
    pub is_file: bool,
    pub meta: Option<EntryMeta>,
}

/// The mathematical value of an `EntryInfo`.
pub ghost struct EntryV {
    pub path: Seq<char>,
    pub filename: Seq<char>,
    pub is_file: bool,
    pub meta: Option<EntryMeta>,
}

impl View for EntryInfo {
    type V = EntryV;

    open spec fn view(&self) -> EntryV {
        EntryV { path: self.path@, filename: self.filename@, is_file: self.is_file, meta: self.meta }
    }
}

/// The character at position `i` of the permission string: `r`, `w` or `x`
/// (by position) when bit `8 - i` of the mode is set, `-` otherwise.
pub open spec fn perm_char_at(mode: u32, i: int) -> char {
    let ch = if i % 3 == 0 {
        'r'
    } else if i % 3 == 1 {
        'w'
    } else {
        'x'
    };
    if mode & (1u32 << ((8 - i) as u32)) != 0 {
        ch
    } else {
        '-'
    }
}

/// The nine-character permission string for a mode, owner bits first.
pub open spec fn perm_string(mode: u32) -> Seq<char> {
    Seq::new(9, |i: int| perm_char_at(mode, i))
}

/// The recorded permission text: the nine-character string where the
/// platform reports Unix permission bits, the `n/a` marker where it does not.
pub open spec fn perm_display(mode: Option<u32>) -> Seq<char> {
    match mode {
        Some(m) => perm_string(m),
        None => "n/a"@,
    }
}

/// Format permission bits into `rwxr-xr--` style, or `n/a` on a platform
/// without the Unix permission model.
pub fn format_permissions(mode: Option<u32>) -> (r: String)
    ensures
        r@ == perm_display(mode),
{
    match mode {
        None => String::from_str("n/a"),
        Some(m) => {
            let mut result = String::new();
            let mut i: usize = 0;
            while i < 9
                invariant
                    i <= 9,
                    result@.len() == i,
                    forall|k: int| 0 <= k < i ==> result@[k] == perm_char_at(m, k),
                decreases 9 - i,
            {
                let sh: u32 = (8 - i) as u32;
                let bit: u32 = 1u32 << sh;
                let rem: usize = i % 3;
                proof {
                    reveal_strlit("r");
                    reveal_strlit("w");
                    reveal_strlit("x");
                    reveal_strlit("-");
                    assert(sh == (8 - i as int) as u32);
                }
                if m & bit != 0 {
                    if rem == 0 {
                        result.append("r");
                    } else if rem == 1 {
                        result.append("w");
                    } else {
                        result.append("x");
                    }
                } else {
                    result.append("-");
                }
                i = i + 1;
            }
            proof {
                assert(result@ =~= perm_string(m));
            }
            result
        },
    }
}

/// The recorded timestamp: the seconds value where the time could be read,
/// the fallback `0` where it could not.
pub open spec fn unix_timestamp_of(time: Option<u64>) -> i64 {
    match time {
        None => 0,
        Some(s) => s as i64,
    }
}

/// Convert an optionally read time (seconds since the Unix epoch) to the
/// stored timestamp, degrading to `0` when the time is unavailable.
pub fn to_unix_timestamp(time: Option<u64>) -> (r: i64)
    ensures
        r == unix_timestamp_of(time),
{
    match time {
        None => 0,
        Some(s) => #[verifier::truncate] (s as i64),
    }
}

/// The record that the metadata extractor produces for a regular file.
pub open spec fn record_of(path: Seq<char>, filename: Seq<char>, m: EntryMeta) -> RecordV {
    RecordV {
        path: path,
        filename: filename,
        filetype: "file"@,
        size: m.size as i64,
        permissions: perm_display(m.mode),
        created: unix_timestamp_of(m.created),
        modified: unix_timestamp_of(m.modified),
        content: None,
    }
}

/// Build the index record for a regular file from its path, base name and
/// metadata.
pub fn make_record(path: &String, filename: &String, meta: &EntryMeta) -> (r: FileRecord)
    ensures
        r@ == record_of(path@, filename@, *meta),
{
    FileRecord {
        path: path.clone(),
        filename: filename.clone(),
        filetype: String::from_str("file"),
        size: #[verifier::truncate] (meta.size as i64),
        permissions: format_permissions(meta.mode),
        created: to_unix_timestamp(meta.created),
        modified: to_unix_timestamp(meta.modified),
        content: None,
    }
}

/// What the engine does with one discovered entry.
pub enum EntryAction {
    /// Not a regular file, or a path component is excluded: not an entry of
    /// this run at all.
    Ignore,
    /// Incremental mode found the stored record up to date: no metadata is
    /// recorded and no write happens.
    SkipUnchanged,
    /// The metadata read failed: reported and skipped, the run continues.
    SkipFailed,
    /// A new or changed regular file: upsert this record.
    Store(FileRecord),
}

/// The mathematical value of an `EntryAction`.
pub ghost enum ActionV {
    Ignore,
    SkipUnchanged,
    SkipFailed,
    Store(RecordV),
}

impl View for EntryAction {
    type V = ActionV;

    open spec fn view(&self) -> ActionV {
        match self {
            EntryAction::Ignore => ActionV::Ignore,
            EntryAction::SkipUnchanged => ActionV::SkipUnchanged,
            EntryAction::SkipFailed => ActionV::SkipFailed,
            EntryAction::Store(rec) => ActionV::Store(rec@),
        }
    }
}

/// The live modification time handed to the change detector: the read
/// seconds value, or the fallback `0` where it was unavailable.
pub open spec fn current_secs_of(m: EntryMeta) -> u64 {
    match m.modified {
        Some(s) => s,
        None => 0,
    }
}

/// The decision for one entry: directories and excluded paths are ignored;
/// a failed metadata read skips the entry; in incremental mode an entry
/// whose stored modification time is not older than the live one is
/// skipped; everything else is recorded.
pub open spec fn decide_spec(
    e: EntryV,
    names: Set<Seq<char>>,
    incremental: bool,
    stored: Option<i64>,
) -> ActionV {
    if !e.is_file || path_excluded(e.path, names) {
        ActionV::Ignore
    } else {
        match e.meta {
            None => ActionV::SkipFailed,
            Some(m) => if incremental && !rescan_needed(stored, current_secs_of(m)) {
                ActionV::SkipUnchanged
            } else {
                ActionV::Store(record_of(e.path, e.filename, m))
            },
        }
    }
}

/// Decide what to do with one entry. `stored_modified` is the `modified`
/// value of the record the store holds for the entry's path, if any; it is
/// only consulted in incremental mode.
pub fn decide_entry(
    entry: &EntryInfo,
    blacklist: &ExclusionSet,
    incremental: bool,
    stored_modified: Option<i64>,
) -> (a: EntryAction)
    ensures
        a@ == decide_spec(entry@, blacklist@, incremental, stored_modified),
{
    if !entry.is_file || is_blacklisted(entry.path.as_str(), blacklist) {
        EntryAction::Ignore
    } else {
        match &entry.meta {
            None => EntryAction::SkipFailed,
            Some(m) => {
                let cur: u64 = match m.modified {
                    Some(s) => s,
                    None => 0,
                };
                if incremental && !needs_rescan(stored_modified, cur) {
                    EntryAction::SkipUnchanged
                } else {
                    EntryAction::Store(make_record(&entry.path, &entry.filename, m))
                }
            },
        }
    }
}

/// The counters a run reports: entries recorded, entries skipped as
/// unchanged, entries skipped for a failed metadata read.
pub struct ScanOutcome {
    pub processed: usize,
    pub unchanged: usize,
    pub failed: usize,
}

/// The state a scan threads through the entries: the store's contents and
/// the three counters.
pub ghost struct ScanState {
    pub store: Map<Seq<char>, RecordV>,
    pub processed: nat,
    pub unchanged: nat,
    pub failed: nat,
}

/// One entry's effect on the scan state.
pub open spec fn scan_step(
    st: ScanState,
    e: EntryV,
    names: Set<Seq<char>>,
    incremental: bool,
) -> ScanState {
    match decide_spec(e, names, incremental, stored_modified_of(st.store, e.path)) {
        ActionV::Ignore => st,
        ActionV::SkipUnchanged => ScanState { unchanged: st.unchanged + 1, ..st },
        ActionV::SkipFailed => ScanState { failed: st.failed + 1, ..st },
        ActionV::Store(r) => ScanState {
            store: st.store.insert(r.path, r),
            processed: st.processed + 1,
            ..st
        },
    }
}

/// The state after scanning all of `entries`, in order, starting from
/// `store0` and zero counters.
pub open spec fn scan_model(
    store0: Map<Seq<char>, RecordV>,
    entries: Seq<EntryV>,
    names: Set<Seq<char>>,
    incremental: bool,
) -> ScanState
    decreases entries.len(),
{
    if entries.len() == 0 {
        ScanState { store: store0, processed: 0, unchanged: 0, failed: 0 }
    } else {
        scan_step(
            scan_model(store0, entries.drop_last(), names, incremental),
            entries.last(),
            names,
            incremental,
        )
    }
}

/// The views of a sequence of entries.
pub open spec fn entry_views(es: Seq<EntryInfo>) -> Seq<EntryV> {
    es.map_values(|e: EntryInfo| e@)
}

/// Run one scan: filter, detect changes in incremental mode, extract
/// metadata and upsert, entry by entry, exactly as `scan_model` says.
/// An empty entry list is a successful run with zero counts; a failed
/// metadata read skips only its own entry.
pub fn scan_and_store(
    store: &mut IndexStore,
    entries: &Vec<EntryInfo>,
    blacklist: &ExclusionSet,
    incremental: bool,
) -> (outcome: ScanOutcome)
    requires
        old(store).wf(),
    ensures
        final(store).wf(),
        ({
            let end = scan_model(old(store)@, entry_views(entries@), blacklist@, incremental);
            &&& final(store)@ == end.store
            &&& outcome.processed == end.processed
            &&& outcome.unchanged == end.unchanged
            &&& outcome.failed == end.failed
        }),
{
    let n = entries.len();
    let mut processed: usize = 0;
    let mut unchanged: usize = 0;
    let mut failed: usize = 0;
    let mut i: usize = 0;
    while i < n
        invariant
            n == entries@.len(),
            i <= n,
            store.wf(),
            processed + unchanged + failed <= i,
            ({
                let st = scan_model(
                    old(store)@,
                    entry_views(entries@).take(i as int),
                    blacklist@,
                    incremental,
                );
                &&& store@ == st.store
                &&& processed == st.processed
                &&& unchanged == st.unchanged
                &&& failed == st.failed
            }),
        decreases n - i,
    {
        proof {
            assert(entry_views(entries@).take(i + 1).drop_last() =~= entry_views(
                entries@,
            ).take(i as int));
            assert(entry_views(entries@).take(i + 1).last() == entries@[i as int]@);
        }
        let entry = &entries[i];
        let stored_modified = store.lookup_modified(&entry.path);
        let act = decide_entry(entry, blacklist, incremental, stored_modified);
        match act {
            EntryAction::Ignore => {},
            EntryAction::SkipUnchanged => {
                unchanged = unchanged + 1;
            },
            EntryAction::SkipFailed => {
                failed = failed + 1;
            },
            EntryAction::Store(rec) => {
                store.upsert(rec);
                processed = processed + 1;
            },
        }
        i = i + 1;
    }
    proof {
        assert(entry_views(entries@).take(n as int) =~= entry_views(entries@));
    }
    ScanOutcome { processed, unchanged, failed }
}

/// No two entries share a path, as holds of one enumeration of a subtree.
pub open spec fn distinct_entry_paths(es: Seq<EntryV>) -> bool {
    forall|i: int, j: int| 0 <= i < j < es.len() ==> es[i].path != es[j].path
}

/// Whether a full scan writes a record for this entry: it is a regular
/// file, no path component is excluded, and its metadata could be read.
pub open spec fn full_scan_writes(e: EntryV, names: Set<Seq<char>>) -> bool {
    e.is_file && !path_excluded(e.path, names) && e.meta is Some
}

proof fn lemma_full_scan_store(
    store0: Map<Seq<char>, RecordV>,
    entries: Seq<EntryV>,
    names: Set<Seq<char>>,
)
    requires
        distinct_entry_paths(entries),
    ensures
        forall|i: int|
            0 <= i < entries.len() && full_scan_writes(#[trigger] entries[i], names) ==> {
                let m = scan_model(store0, entries, names, false).store;
                &&& m.contains_key(entries[i].path)
                &&& m[entries[i].path] == record_of(
                    entries[i].path,
                    entries[i].filename,
                    entries[i].meta->0,
                )
            },
    decreases entries.len(),
{
    if entries.len() > 0 {
        let prefix = entries.drop_last();
        assert(distinct_entry_paths(prefix));
        lemma_full_scan_store(store0, prefix, names);
        let e = entries.last();
        assert forall|i: int|
            0 <= i < entries.len() && full_scan_writes(#[trigger] entries[i], names) implies {
            let m = scan_model(store0, entries, names, false).store;
            &&& m.contains_key(entries[i].path)
            &&& m[entries[i].path] == record_of(
                entries[i].path,
                entries[i].filename,
                entries[i].meta->0,
            )
        } by {
            if i < entries.len() - 1 {
                assert(prefix[i] == entries[i]);
                assert(entries[i].path != e.path);
            }
        }
    }
}

proof fn lemma_scan_fixpoint(
    m: Map<Seq<char>, RecordV>,
    entries: Seq<EntryV>,
    names: Set<Seq<char>>,
)
    requires
        forall|i: int|
            0 <= i < entries.len() && full_scan_writes(#[trigger] entries[i], names) ==> {
                &&& m.contains_key(entries[i].path)
                &&& m[entries[i].path] == record_of(
                    entries[i].path,
                    entries[i].filename,
                    entries[i].meta->0,
                )
            },
    ensures
        scan_model(m, entries, names, false).store == m,
    decreases entries.len(),
{
    if entries.len() > 0 {
        let prefix = entries.drop_last();
        assert(forall|i: int|
            0 <= i < prefix.len() ==> prefix[i] == #[trigger] entries[i]);
        lemma_scan_fixpoint(m, prefix, names);
        let e = entries.last();
        assert(e == entries[entries.len() - 1]);
        if full_scan_writes(e, names) {
            let r = record_of(e.path, e.filename, e.meta->0);
            assert(m.insert(e.path, r) =~= m);
        }
    }
}

proof fn lemma_full_scan_counts(
    m1: Map<Seq<char>, RecordV>,
    m2: Map<Seq<char>, RecordV>,
    entries: Seq<EntryV>,
    names: Set<Seq<char>>,
)
    ensures
        scan_model(m1, entries, names, false).processed == scan_model(
            m2,
            entries,
            names,
            false,
        ).processed,
        scan_model(m1, entries, names, false).unchanged == scan_model(
            m2,
            entries,
            names,
            false,
        ).unchanged,
        scan_model(m1, entries, names, false).failed == scan_model(
            m2,
            entries,
            names,
            false,
        ).failed,
    decreases entries.len(),
{
    if entries.len() > 0 {
        lemma_full_scan_counts(m1, m2, entries.drop_last(), names);
    }
}

/// A scan never deletes: every record the store held before the run is
/// still present after it (possibly overwritten). A file that disappears
/// from disk leaves a stale record behind.
pub proof fn lemma_scan_never_deletes(
    store0: Map<Seq<char>, RecordV>,
    entries: Seq<EntryV>,
    names: Set<Seq<char>>,
    incremental: bool,
)
    ensures
        forall|p: Seq<char>|
            store0.contains_key(p) ==> scan_model(
                store0,
                entries,
                names,
                incremental,
            ).store.contains_key(p),
    decreases entries.len(),
{
    if entries.len() > 0 {
        lemma_scan_never_deletes(store0, entries.drop_last(), names, incremental);
    }
}

/// Full scans are idempotent: when the same entries are scanned twice in
/// full mode — no filesystem change between the runs, so no two entries of
/// one enumeration share a path — the second run leaves the store exactly
/// as the first left it, and reports the same counts.
pub proof fn lemma_full_scan_idempotent(
    store0: Map<Seq<char>, RecordV>,
    entries: Seq<EntryV>,
    names: Set<Seq<char>>,
)
    requires
        distinct_entry_paths(entries),
    ensures
        ({
            let once = scan_model(store0, entries, names, false);
            let twice = scan_model(once.store, entries, names, false);
            &&& twice.store == once.store
            &&& twice.processed == once.processed
            &&& twice.unchanged == once.unchanged
            &&& twice.failed == once.failed
        }),
{
    let once = scan_model(store0, entries, names, false);
    lemma_full_scan_store(store0, entries, names);
    lemma_scan_fixpoint(once.store, entries, names);
    lemma_full_scan_counts(store0, once.store, entries, names);
}

} // verus!
