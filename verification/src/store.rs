//! In-memory model of the index store's `files` table: one record per file,
//! keyed by path, written by upsert. The view of a store is a map from path
//! to record, so "at most one live record per path" holds by construction
//! for every well-formed store.

use vstd::prelude::*;

verus! {

/// One row of the index: the normalized metadata recorded for a file.
/// `created` and `modified` are seconds since the Unix epoch, with `0` as
/// the fallback when a timestamp could not be read. `content` is reserved
/// and never populated.
pub struct FileRecord {
    pub path: String,
    pub filename: String,
    pub filetype: String,
    pub size: i64,
    pub permissions: String,
    pub created: i64,
    pub modified: i64,
    pub content: Option<String>,
}

/// The mathematical value of a `FileRecord`.
pub ghost struct RecordV {
    pub path: Seq<char>,
    pub filename: Seq<char>,
    pub filetype: Seq<char>,
    pub size: i64,
    pub permissions: Seq<char>,
    pub created: i64,
    pub modified: i64,
    pub content: Option<Seq<char>>,
}

impl View for FileRecord {
    type V = RecordV;

    open spec fn view(&self) -> RecordV {
        RecordV {
            path: self.path@,
            filename: self.filename@,
            filetype: self.filetype@,
            size: self.size,
            permissions: self.permissions@,
            created: self.created,
            modified: self.modified,
            content: match self.content {
                Some(c) => Some(c@),
                None => None,
            },
        }
    }
}

/// The map that a sequence of records denotes: later records overwrite
/// earlier ones with the same path.
pub open spec fn store_view_of(s: Seq<FileRecord>) -> Map<Seq<char>, RecordV>
    decreases s.len(),
{
    if s.len() == 0 {
        Map::empty()
    } else {
        store_view_of(s.drop_last()).insert(s.last()@.path, s.last()@)
    }
}

/// No two records share a path.
pub open spec fn distinct_record_paths(s: Seq<FileRecord>) -> bool {
    forall|i: int, j: int| 0 <= i < j < s.len() ==> s[i]@.path != s[j]@.path
}

proof fn lemma_view_contains(s: Seq<FileRecord>, p: Seq<char>)
    ensures
        store_view_of(s).contains_key(p) <==> exists|i: int|
            0 <= i < s.len() && s[i]@.path == p,
    decreases s.len(),
{
    if s.len() > 0 {
        lemma_view_contains(s.drop_last(), p);
        if s.last()@.path == p {
            assert(s[s.len() - 1]@.path == p);
        } else {
            if store_view_of(s).contains_key(p) {
                let i = choose|i: int|
                    0 <= i < s.drop_last().len() && s.drop_last()[i]@.path == p;
                assert(s[i]@.path == p);
            }
            if exists|i: int| 0 <= i < s.len() && s[i]@.path == p {
                let i = choose|i: int| 0 <= i < s.len() && s[i]@.path == p;
                assert(s.drop_last()[i]@.path == p);
            }
        }
    }
}

proof fn lemma_view_at(s: Seq<FileRecord>, i: int)
    requires
        0 <= i < s.len(),
        distinct_record_paths(s),
    ensures
        store_view_of(s).contains_key(s[i]@.path),
        store_view_of(s)[s[i]@.path] == s[i]@,
    decreases s.len(),
{
    if i < s.len() - 1 {
        assert(distinct_record_paths(s.drop_last()));
        assert(s.drop_last()[i] == s[i]);
        lemma_view_at(s.drop_last(), i);
        assert(s.last()@.path != s[i]@.path);
    }
}

proof fn lemma_view_finite(s: Seq<FileRecord>)
    ensures
        store_view_of(s).dom().finite(),
    decreases s.len(),
{
    if s.len() > 0 {
        lemma_view_finite(s.drop_last());
    }
}

proof fn lemma_view_len(s: Seq<FileRecord>)
    requires
        distinct_record_paths(s),
    ensures
        store_view_of(s).dom().finite(),
        store_view_of(s).len() == s.len(),
    decreases s.len(),
{
    lemma_view_finite(s);
    if s.len() > 0 {
        assert(distinct_record_paths(s.drop_last()));
        lemma_view_len(s.drop_last());
        lemma_view_contains(s.drop_last(), s.last()@.path);
        assert(!(exists|i: int|
            0 <= i < s.drop_last().len() && s.drop_last()[i]@.path == s.last()@.path)) by {
            if exists|i: int|
                0 <= i < s.drop_last().len() && s.drop_last()[i]@.path == s.last()@.path {
                let i = choose|i: int|
                    0 <= i < s.drop_last().len() && s.drop_last()[i]@.path == s.last()@.path;
                assert(s[i]@.path == s[s.len() - 1]@.path);
            }
        }
        assert(store_view_of(s).dom() =~= store_view_of(s.drop_last()).dom().insert(
            s.last()@.path,
        ));
        vstd::set::axiom_set_insert_len(store_view_of(s.drop_last()).dom(), s.last()@.path);
    }
}

proof fn lemma_view_update(s: Seq<FileRecord>, i: int, r: FileRecord)
    requires
        0 <= i < s.len(),
        distinct_record_paths(s),
        s[i]@.path == r@.path,
    ensures
        store_view_of(s.update(i, r)) == store_view_of(s).insert(r@.path, r@),
    decreases s.len(),
{
    let p = r@.path;
    if i == s.len() - 1 {
        assert(s.update(i, r).drop_last() =~= s.drop_last());
        assert(s.update(i, r).last() == r);
        assert(store_view_of(s.drop_last()).insert(p, r@) =~= store_view_of(
            s.drop_last(),
        ).insert(p, s.last()@).insert(p, r@));
    } else {
        assert(distinct_record_paths(s.drop_last()));
        assert(s.drop_last()[i] == s[i]);
        lemma_view_update(s.drop_last(), i, r);
        assert(s.update(i, r).drop_last() =~= s.drop_last().update(i, r));
        assert(s.update(i, r).last() == s.last());
        assert(s.last()@.path != p);
        assert(store_view_of(s.drop_last()).insert(p, r@).insert(s.last()@.path, s.last()@)
            =~= store_view_of(s.drop_last()).insert(s.last()@.path, s.last()@).insert(p, r@));
    }
}

/// What the store remembers as the `modified` time for a path, if anything.
pub open spec fn stored_modified_of(m: Map<Seq<char>, RecordV>, p: Seq<char>) -> Option<i64> {
    if m.contains_key(p) {
        Some(m[p].modified)
    } else {
        None
    }
}

/// The in-memory index store.
pub struct IndexStore {
    pub records: Vec<FileRecord>,
}

impl View for IndexStore {
    type V = Map<Seq<char>, RecordV>;

    open spec fn view(&self) -> Map<Seq<char>, RecordV> {
        store_view_of(self.records@)
    }
}

impl IndexStore {
    /// Each path has at most one record.
    pub open spec fn wf(&self) -> bool {
        distinct_record_paths(self.records@)
    }

    /// An empty store.
    pub fn new() -> (s: IndexStore)
        ensures
            s.wf(),
            s@ == Map::<Seq<char>, RecordV>::empty(),
    {
        IndexStore { records: Vec::new() }
    }

    /// The number of records in the store.
    pub fn count(&self) -> (n: usize)
        requires
            self.wf(),
        ensures
            n == self@.len(),
    {
        proof {
            lemma_view_len(self.records@);
        }
        self.records.len()
    }

    /// The stored `modified` value for `path`, if a record exists.
    pub fn lookup_modified(&self, path: &String) -> (r: Option<i64>)
        requires
            self.wf(),
        ensures
            r == stored_modified_of(self@, path@),
    {
        let n = self.records.len();
        let mut i: usize = 0;
        while i < n
            invariant
                n == self.records@.len(),
                i <= n,
                self.wf(),
                forall|k: int| 0 <= k < i ==> self.records@[k]@.path != path@,
            decreases n - i,
        {
            if self.records[i].path == *path {
                proof {
                    lemma_view_at(self.records@, i as int);
                }
                return Some(self.records[i].modified);
            }
            i = i + 1;
        }
        proof {
            lemma_view_contains(self.records@, path@);
        }
        None
    }

    /// The record stored for `path`, if any.
    pub fn get(&self, path: &String) -> (r: Option<&FileRecord>)
        requires
            self.wf(),
        ensures
            match r {
                Some(rec) => self@.contains_key(path@) && rec@ == self@[path@],
                None => !self@.contains_key(path@),
            },
    {
        let n = self.records.len();
        let mut i: usize = 0;
        while i < n
            invariant
                n == self.records@.len(),
                i <= n,
                self.wf(),
                forall|k: int| 0 <= k < i ==> self.records@[k]@.path != path@,
            decreases n - i,
        {
            if self.records[i].path == *path {
                proof {
                    lemma_view_at(self.records@, i as int);
                }
                return Some(&self.records[i]);
            }
            i = i + 1;
        }
        proof {
            lemma_view_contains(self.records@, path@);
        }
        None
    }

    /// Insert `rec` if its path is new, otherwise replace the record that
    /// holds the same path.
    pub fn upsert(&mut self, rec: FileRecord)
        requires
            old(self).wf(),
        ensures
            final(self).wf(),
            final(self)@ == old(self)@.insert(rec@.path, rec@),
    {
        let n = self.records.len();
        let mut i: usize = 0;
        while i < n
            invariant
                n == self.records@.len(),
                i <= n,
                self == old(self),
                self.wf(),
                forall|k: int| 0 <= k < i ==> self.records@[k]@.path != rec@.path,
            decreases n - i,
        {
            if self.records[i].path == rec.path {
                proof {
                    lemma_view_update(self.records@, i as int, rec);
                }
                self.records[i] = rec;
                proof {
                    assert(distinct_record_paths(self.records@)) by {
                        assert(forall|a: int|
                            0 <= a < self.records@.len() && a != i ==> self.records@[a]
                                == old(self).records@[a]);
                    }
                }
                return ;
            }
            i = i + 1;
        }
        proof {
            assert(store_view_of(self.records@.push(rec)).contains_key(rec@.path));
            assert(self.records@.push(rec).drop_last() =~= self.records@);
        }
        self.records.push(rec);
    }
}

} // verus!
