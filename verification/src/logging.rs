//! The ingest log and the duplicate index kept in the library.
//!
//! Every run writes a log of what it did. Hashes of files that really are in
//! the library (copied, or skipped because they were already there) are also
//! kept in an index beside the logs, so that rotating old logs away never
//! makes the app forget what it has already imported.
use vstd::prelude::*;
use crate::paths::{extension, extension_of_chars, join, join_chars};
use crate::text::{
    chars_eq, chars_eq_str, chars_lt, chars_of, copy_chars, lemma_lex_total, lemma_lex_trans,
    lex_lt, string_from,
};

verus! {

/// One line of an ingest log.
#[derive(Debug, Clone)]
pub struct LogEntry {
    pub timestamp: String,
    pub source_path: String,
    pub dest_path: String,
    pub size: u64,
    /// Sampled fingerprint from `fast_hash`: a lookup key, not proof of
    /// equality.
    pub hash: Option<String>,
    /// SHA-256 of the whole file, computed during the copy. Absent on entries
    /// written before this was recorded, on skips, and on same-volume moves,
    /// which rename without reading the bytes.
    pub full_hash: Option<String>,
    pub capture_datetime: Option<String>,
    pub device_name: String,
    pub status: String,
    pub error: Option<String>,
}

/// What the duplicate index remembers about a file that has been ingested.
#[derive(Debug, Clone)]
pub struct IndexEntry {
    /// A file known to carry this fingerprint: the copy in the library for
    /// persisted entries, or the source file for duplicates found within a
    /// single run, where nothing has been written yet.
    pub path: String,
    pub full_hash: Option<String>,
}

/// The options a log records.
#[derive(Debug, Clone)]
pub struct IngestOptionsLog {
    pub operation: String,
    pub skip_duplicates: bool,
    pub dest_root: String,
}

/// A whole ingest log.
#[derive(Debug, Clone)]
pub struct IngestLog {
    pub app_version: String,
    pub timestamp: String,
    pub sources: Vec<String>,
    pub options: IngestOptionsLog,
    pub entries: Vec<LogEntry>,
}

pub open spec fn opt_view(o: Option<String>) -> Option<Seq<char>> {
    match o {
        Some(s) => Some(s@),
        None => None,
    }
}

/// An index entry as plain values: path and full hash.
pub type EntryView = (Seq<char>, Option<Seq<char>>);

pub open spec fn entry_view(e: IndexEntry) -> EntryView {
    (e.path@, opt_view(e.full_hash))
}

/// The value stored under `key` in a list of keyed entries (the first one).
pub open spec fn find_key<V>(s: Seq<(Seq<char>, V)>, key: Seq<char>) -> Option<V>
    decreases s.len(),
{
    if s.len() == 0 {
        None
    } else if s[0].0 == key {
        Some(s[0].1)
    } else {
        find_key(s.drop_first(), key)
    }
}

pub open spec fn keys_distinct<V>(s: Seq<(Seq<char>, V)>) -> bool {
    forall|i: int, j: int| 0 <= i < j < s.len() ==> (#[trigger] s[i]).0 != (#[trigger] s[j]).0
}

pub proof fn lemma_find_key_at<V>(s: Seq<(Seq<char>, V)>, key: Seq<char>, i: int)
    requires
        0 <= i < s.len(),
        s[i].0 == key,
        forall|j: int| 0 <= j < i ==> (#[trigger] s[j]).0 != key,
    ensures
        find_key(s, key) == Some(s[i].1),
    decreases i,
{
    if i > 0 {
        let u = s.drop_first();
        assert forall|j: int| 0 <= j < i - 1 implies (#[trigger] u[j]).0 != key by {
            assert(u[j] == s[j + 1]);
        }
        lemma_find_key_at(u, key, i - 1);
    }
}

pub proof fn lemma_find_key_none<V>(s: Seq<(Seq<char>, V)>, key: Seq<char>)
    requires
        forall|j: int| 0 <= j < s.len() ==> (#[trigger] s[j]).0 != key,
    ensures
        find_key(s, key) is None,
    decreases s.len(),
{
    if s.len() > 0 {
        let u = s.drop_first();
        assert forall|j: int| 0 <= j < u.len() implies (#[trigger] u[j]).0 != key by {
            assert(u[j] == s[j + 1]);
        }
        lemma_find_key_none(u, key);
    }
}

/// With distinct keys, the value under a key is the one at its position.
pub proof fn lemma_find_key_distinct<V>(s: Seq<(Seq<char>, V)>, i: int)
    requires
        keys_distinct(s),
        0 <= i < s.len(),
    ensures
        find_key(s, s[i].0) == Some(s[i].1),
{
    assert forall|j: int| 0 <= j < i implies (#[trigger] s[j]).0 != s[i].0 by {}
    lemma_find_key_at(s, s[i].0, i);
}

/// `find_key` with no entry for `key` anywhere.
pub proof fn lemma_find_key_absent<V>(s: Seq<(Seq<char>, V)>, key: Seq<char>)
    ensures
        find_key(s, key) is None <==> forall|j: int| 0 <= j < s.len() ==> (#[trigger] s[j]).0 != key,
{
    if forall|j: int| 0 <= j < s.len() ==> (#[trigger] s[j]).0 != key {
        lemma_find_key_none(s, key);
    } else {
        let i = choose|i: int| 0 <= i < s.len() && (#[trigger] s[i]).0 == key;
        let k = first_with_key(s, key, i);
        lemma_find_key_at(s, key, k);
    }
}

proof fn first_with_key<V>(s: Seq<(Seq<char>, V)>, key: Seq<char>, i: int) -> (k: int)
    requires
        0 <= i < s.len(),
        s[i].0 == key,
    ensures
        0 <= k <= i,
        s[k].0 == key,
        forall|j: int| 0 <= j < k ==> (#[trigger] s[j]).0 != key,
    decreases i,
{
    if exists|j: int| 0 <= j < i && (#[trigger] s[j]).0 == key {
        let j = choose|j: int| 0 <= j < i && (#[trigger] s[j]).0 == key;
        first_with_key(s, key, j)
    } else {
        i
    }
}

/// Fingerprint to index entry, each fingerprint at most once.
pub struct HashIndex {
    entries: Vec<(String, IndexEntry)>,
}

pub open spec fn pair_view(e: (String, IndexEntry)) -> (Seq<char>, EntryView) {
    (e.0@, entry_view(e.1))
}

impl HashIndex {
    /// The entries as plain values, in the order they were first recorded.
    pub closed spec fn view_entries(&self) -> Seq<(Seq<char>, EntryView)> {
        self.entries@.map_values(|e: (String, IndexEntry)| pair_view(e))
    }

    /// What the index holds for a fingerprint.
    pub open spec fn spec_get(&self, hash: Seq<char>) -> Option<EntryView> {
        find_key(self.view_entries(), hash)
    }

    pub closed spec fn wf(&self) -> bool {
        keys_distinct(self.view_entries())
    }

    pub fn new() -> (r: Self)
        ensures
            r.wf(),
            forall|h: Seq<char>| #[trigger] r.spec_get(h) is None,
            r.view_entries().len() == 0,
    {
        let r = HashIndex { entries: Vec::new() };
        assert(r.view_entries() =~= Seq::<(Seq<char>, EntryView)>::empty());
        r
    }

    pub fn len(&self) -> (n: usize)
        ensures
            n == self.view_entries().len(),
    {
        self.entries.len()
    }

    fn position(&self, hash: &[char]) -> (r: Option<usize>)
        ensures
            match r {
                Some(i) => i < self.view_entries().len() && self.view_entries()[i as int].0
                    == hash@ && forall|j: int|
                    0 <= j < i ==> (#[trigger] self.view_entries()[j]).0 != hash@,
                None => forall|j: int|
                    0 <= j < self.view_entries().len() ==> (#[trigger] self.view_entries()[j]).0
                        != hash@,
            },
    {
        let ghost ev = self.view_entries();
        let mut i: usize = 0;
        while i < self.entries.len()
            invariant
                i <= self.entries@.len(),
                ev == self.view_entries(),
                ev.len() == self.entries@.len(),
                forall|j: int| 0 <= j < i ==> (#[trigger] ev[j]).0 != hash@,
            decreases self.entries@.len() - i,
        {
            assert(ev[i as int] == pair_view(self.entries@[i as int]));
            let kc = chars_of(self.entries[i].0.as_str());
            if chars_eq(&kc, hash) {
                return Some(i);
            }
            i = i + 1;
        }
        None
    }

    /// The entry recorded for a fingerprint.
    pub fn get(&self, hash: &str) -> (r: Option<IndexEntry>)
        ensures
            match r {
                Some(e) => self.spec_get(hash@) == Some(entry_view(e)),
                None => self.spec_get(hash@) is None,
            },
    {
        let hc = chars_of(hash);
        match self.position(&hc) {
            Some(i) => {
                proof {
                    lemma_find_key_at(self.view_entries(), hash@, i as int);
                    assert(self.view_entries()[i as int] == pair_view(self.entries@[i as int]));
                }
                let e = &self.entries[i].1;
                Some(IndexEntry { path: e.path.clone(), full_hash: e.full_hash.clone() })
            },
            None => {
                proof {
                    lemma_find_key_none(self.view_entries(), hash@);
                }
                None
            },
        }
    }

    /// Whether a fingerprint is recorded.
    pub fn contains_key(&self, hash: &str) -> (r: bool)
        ensures
            r == self.spec_get(hash@) is Some,
    {
        self.get(hash).is_some()
    }

    /// Records `entry` under `hash`, replacing what was there.
    pub fn insert(&mut self, hash: String, entry: IndexEntry)
        requires
            old(self).wf(),
        ensures
            final(self).wf(),
            forall|h: Seq<char>|
                #[trigger] final(self).spec_get(h) == if h == hash@ {
                    Some(entry_view(entry))
                } else {
                    old(self).spec_get(h)
                },
    {
        let hc = chars_of(hash.as_str());
        let ghost old_ev = self.view_entries();
        let ghost nv = pair_view((hash, entry));
        match self.position(&hc) {
            Some(i) => {
                self.entries.set(i, (hash, entry));
                proof {
                    let ev = self.view_entries();
                    assert(ev =~= old_ev.update(i as int, nv));
                    assert(keys_distinct(ev)) by {
                        assert forall|a: int, b: int| 0 <= a < b < ev.len() implies (
                        #[trigger] ev[a]).0 != (#[trigger] ev[b]).0 by {
                            assert(old_ev[a].0 != old_ev[b].0);
                        }
                    }
                    assert forall|h: Seq<char>|
                        #[trigger] self.spec_get(h) == if h == nv.0 {
                            Some(nv.1)
                        } else {
                            find_key(old_ev, h)
                        } by {
                        lemma_find_key_absent(ev, h);
                        lemma_find_key_absent(old_ev, h);
                        if h == nv.0 {
                            lemma_find_key_distinct(ev, i as int);
                        } else if exists|j: int| 0 <= j < old_ev.len() && (#[trigger] old_ev[j]).0 == h {
                            let j = choose|j: int| 0 <= j < old_ev.len() && (#[trigger] old_ev[j]).0 == h;
                            lemma_find_key_distinct(ev, j);
                            lemma_find_key_distinct(old_ev, j);
                        }
                    }
                }
            },
            None => {
                self.entries.push((hash, entry));
                proof {
                    let ev = self.view_entries();
                    assert(ev =~= old_ev.push(nv));
                    assert(keys_distinct(ev)) by {
                        assert forall|a: int, b: int| 0 <= a < b < ev.len() implies (
                        #[trigger] ev[a]).0 != (#[trigger] ev[b]).0 by {
                            if b == ev.len() - 1 {
                                assert(old_ev[a].0 != hc@);
                            } else {
                                assert(old_ev[a].0 != old_ev[b].0);
                            }
                        }
                    }
                    assert forall|h: Seq<char>|
                        #[trigger] self.spec_get(h) == if h == nv.0 {
                            Some(nv.1)
                        } else {
                            find_key(old_ev, h)
                        } by {
                        lemma_find_key_absent(ev, h);
                        lemma_find_key_absent(old_ev, h);
                        if h == nv.0 {
                            lemma_find_key_distinct(ev, ev.len() - 1);
                        } else if exists|j: int| 0 <= j < old_ev.len() && (#[trigger] old_ev[j]).0 == h {
                            let j = choose|j: int| 0 <= j < old_ev.len() && (#[trigger] old_ev[j]).0 == h;
                            lemma_find_key_distinct(ev, j);
                            lemma_find_key_distinct(old_ev, j);
                        }
                    }
                }
            },
        }
    }

    /// All entries, in the order they were first recorded.
    pub fn entries(&self) -> (r: Vec<(String, IndexEntry)>)
        ensures
            r@.len() == self.view_entries().len(),
            forall|k: int| 0 <= k < r@.len() ==> pair_view(#[trigger] r@[k]) == self.view_entries()[k],
    {
        let mut r: Vec<(String, IndexEntry)> = Vec::new();
        let mut i: usize = 0;
        while i < self.entries.len()
            invariant
                i <= self.entries@.len(),
                self.view_entries().len() == self.entries@.len(),
                r@.len() == i,
                forall|k: int| 0 <= k < i ==> pair_view(#[trigger] r@[k]) == self.view_entries()[k],
            decreases self.entries@.len() - i,
        {
            let e = &self.entries[i];
            let c = (e.0.clone(), IndexEntry { path: e.1.path.clone(), full_hash: clone_opt(&e.1.full_hash) });
            proof {
                assert(self.view_entries()[i as int] == pair_view(self.entries@[i as int]));
            }
            r.push(c);
            i = i + 1;
        }
        r
    }
}

pub fn clone_opt(o: &Option<String>) -> (r: Option<String>)
    ensures
        r == *o,
        opt_view(r) == opt_view(*o),
{
    match o {
        Some(s) => Some(s.clone()),
        None => None,
    }
}

// ---------------------------------------------------------------------------
// What goes into the index.
// ---------------------------------------------------------------------------

/// A log entry proves its file is in the library when it was copied or
/// skipped as already present; a failed copy proves nothing.
pub open spec fn in_library(e: LogEntry) -> bool {
    e.status@ == "success"@ || e.status@ == "skipped"@
}

/// The index after recording one log entry. A skip records no full hash, so
/// whichever one is already stored is kept rather than blanked.
pub open spec fn record_spec(get: spec_fn(Seq<char>) -> Option<EntryView>, e: LogEntry) -> spec_fn(
    Seq<char>,
) -> Option<EntryView> {
    match e.hash {
        Some(h) => if in_library(e) {
            |k: Seq<char>|
                if k == h@ {
                    Some(
                        (
                            e.dest_path@,
                            match opt_view(e.full_hash) {
                                Some(f) => Some(f),
                                None => match get(k) {
                                    Some(old) => old.1,
                                    None => None,
                                },
                            },
                        ),
                    )
                } else {
                    get(k)
                }
        } else {
            get
        },
        None => get,
    }
}

/// The index after recording the entries of a log, first to last.
pub open spec fn merged(get: spec_fn(Seq<char>) -> Option<EntryView>, es: Seq<LogEntry>) -> spec_fn(
    Seq<char>,
) -> Option<EntryView>
    decreases es.len(),
{
    if es.len() == 0 {
        get
    } else {
        record_spec(merged(get, es.drop_last()), es.last())
    }
}

fn is_in_library(e: &LogEntry) -> (r: bool)
    ensures
        r == in_library(*e),
{
    let s = chars_of(e.status.as_str());
    chars_eq_str(&s, "success") || chars_eq_str(&s, "skipped")
}

impl HashIndex {
    pub open spec fn getter(&self) -> spec_fn(Seq<char>) -> Option<EntryView> {
        |k: Seq<char>| self.spec_get(k)
    }

    /// Merge a run's log entries into the index: every entry whose file is
    /// in the library and that has a fingerprint is recorded under it,
    /// pointing at its place in the library.
    pub fn merge_entries(&mut self, entries: &[LogEntry])
        requires
            old(self).wf(),
        ensures
            final(self).wf(),
            forall|h: Seq<char>| #[trigger] final(self).spec_get(h) == merged(old(self).getter(), entries@)(h),
    {
        let ghost g0 = self.getter();
        let mut i: usize = 0;
        while i < entries.len()
            invariant
                i <= entries@.len(),
                self.wf(),
                g0 == old(self).getter(),
                forall|h: Seq<char>| #[trigger] self.spec_get(h) == merged(g0, entries@.take(i as int))(h),
            decreases entries@.len() - i,
        {
            let e = &entries[i];
            let ghost before = self.getter();
            proof {
                assert(entries@.take(i + 1).drop_last() == entries@.take(i as int));
                assert(entries@.take(i + 1).last() == *e);
            }
            if is_in_library(e) {
                match &e.hash {
                    Some(h) => {
                        let retained = match self.get(h.as_str()) {
                            Some(old) => old.full_hash,
                            None => None,
                        };
                        let full = match &e.full_hash {
                            Some(f) => Some(f.clone()),
                            None => retained,
                        };
                        self.insert(h.clone(), IndexEntry { path: e.dest_path.clone(), full_hash: full });
                    },
                    None => {},
                }
            }
            proof {
                assert forall|h: Seq<char>| #[trigger] self.spec_get(h) == merged(g0, entries@.take(i + 1))(h) by {
                    assert(merged(g0, entries@.take(i + 1)) == record_spec(merged(g0, entries@.take(i as int)), *e));
                }
            }
            i = i + 1;
        }
        assert(entries@.take(entries@.len() as int) == entries@);
    }

    /// Fold in what an old log knows, without overwriting what the index
    /// already holds: the index stores where a file landed in the library.
    pub fn absorb_log(&mut self, entries: &[LogEntry])
        requires
            old(self).wf(),
        ensures
            final(self).wf(),
            forall|h: Seq<char>| #[trigger] final(self).spec_get(h) == absorbed(old(self).getter(), entries@)(h),
    {
        let ghost g0 = self.getter();
        let mut i: usize = 0;
        while i < entries.len()
            invariant
                i <= entries@.len(),
                self.wf(),
                g0 == old(self).getter(),
                forall|h: Seq<char>| #[trigger] self.spec_get(h) == absorbed(g0, entries@.take(i as int))(h),
            decreases entries@.len() - i,
        {
            let e = &entries[i];
            proof {
                assert(entries@.take(i + 1).drop_last() == entries@.take(i as int));
                assert(entries@.take(i + 1).last() == *e);
            }
            if is_in_library(e) {
                match &e.hash {
                    Some(h) => {
                        if !self.contains_key(h.as_str()) {
                            self.insert(
                                h.clone(),
                                IndexEntry { path: e.dest_path.clone(), full_hash: e.full_hash.clone() },
                            );
                        }
                    },
                    None => {},
                }
            }
            proof {
                assert forall|h: Seq<char>| #[trigger] self.spec_get(h) == absorbed(g0, entries@.take(i + 1))(h) by {
                    assert(absorbed(g0, entries@.take(i + 1)) == absorb_spec(absorbed(g0, entries@.take(i as int)), *e));
                }
            }
            i = i + 1;
        }
        assert(entries@.take(entries@.len() as int) == entries@);
    }
}

/// The index after taking one old log entry: recorded only if its
/// fingerprint is not yet known.
pub open spec fn absorb_spec(get: spec_fn(Seq<char>) -> Option<EntryView>, e: LogEntry) -> spec_fn(
    Seq<char>,
) -> Option<EntryView> {
    match e.hash {
        Some(h) => if in_library(e) && get(h@) is None {
            |k: Seq<char>|
                if k == h@ {
                    Some((e.dest_path@, opt_view(e.full_hash)))
                } else {
                    get(k)
                }
        } else {
            get
        },
        None => get,
    }
}

pub open spec fn absorbed(get: spec_fn(Seq<char>) -> Option<EntryView>, es: Seq<LogEntry>) -> spec_fn(
    Seq<char>,
) -> Option<EntryView>
    decreases es.len(),
{
    if es.len() == 0 {
        get
    } else {
        absorb_spec(absorbed(get, es.drop_last()), es.last())
    }
}

/// A log entry records a file of the library under fingerprint `h`.
pub open spec fn records(e: LogEntry, h: Seq<char>) -> bool {
    &&& in_library(e)
    &&& e.hash matches Some(x) && x@ == h
}

/// Merging a run's log touches only the fingerprints of entries whose files
/// are in the library: a failed copy never enters the index, and every
/// other fingerprint keeps what it had.
pub proof fn lemma_merge_touches_only_library_files(
    get: spec_fn(Seq<char>) -> Option<EntryView>,
    es: Seq<LogEntry>,
    h: Seq<char>,
)
    requires
        forall|i: int|
            0 <= i < es.len() ==> !records(#[trigger] es[i], h),
    ensures
        merged(get, es)(h) == get(h),
    decreases es.len(),
{
    if es.len() > 0 {
        assert forall|i: int| 0 <= i < es.drop_last().len() implies !records(
            #[trigger] es.drop_last()[i],
            h,
        ) by {
            assert(es.drop_last()[i] == es[i]);
        }
        lemma_merge_touches_only_library_files(get, es.drop_last(), h);
        assert(!records(es[es.len() - 1], h));
    }
}

/// Every file a run put in the library with a fingerprint is found in the
/// index under it afterwards, unless a later entry of the same run took the
/// same fingerprint.
pub proof fn lemma_merged_entry_is_found(
    get: spec_fn(Seq<char>) -> Option<EntryView>,
    es: Seq<LogEntry>,
    i: int,
)
    requires
        0 <= i < es.len(),
        in_library(es[i]),
        es[i].hash is Some,
        forall|j: int|
            i < j < es.len() ==> !records(#[trigger] es[j], es[i].hash->0@),
    ensures
        merged(get, es)(es[i].hash->0@) matches Some(e) && e.0 == es[i].dest_path@,
    decreases es.len(),
{
    let h = es[i].hash->0@;
    if i < es.len() - 1 {
        assert forall|j: int| i < j < es.drop_last().len() implies !records(
            #[trigger] es.drop_last()[j],
            h,
        ) by {
            assert(es.drop_last()[j] == es[j]);
        }
        assert(es.drop_last()[i] == es[i]);
        lemma_merged_entry_is_found(get, es.drop_last(), i);
        assert(!records(es[es.len() - 1], h));
    }
}

/// Folding in old logs never changes a fingerprint the index already
/// holds: the index wins over a log for the same fingerprint.
pub proof fn lemma_index_wins_over_logs(
    get: spec_fn(Seq<char>) -> Option<EntryView>,
    es: Seq<LogEntry>,
    h: Seq<char>,
)
    requires
        get(h) is Some,
    ensures
        absorbed(get, es)(h) == get(h),
    decreases es.len(),
{
    if es.len() > 0 {
        lemma_index_wins_over_logs(get, es.drop_last(), h);
    }
}

/// An index in the first on-disk shape, a plain fingerprint-to-path map,
/// read as entries without full hashes, so existing libraries keep their
/// duplicate history.
pub fn index_from_legacy(pairs: Vec<(String, String)>) -> (r: HashIndex)
    ensures
        r.wf(),
        forall|h: Seq<char>|
            #[trigger] r.spec_get(h) == legacy_get(pairs@, h),
{
    let mut idx = HashIndex::new();
    let mut i: usize = 0;
    while i < pairs.len()
        invariant
            i <= pairs@.len(),
            idx.wf(),
            forall|h: Seq<char>| #[trigger] idx.spec_get(h) == legacy_get(pairs@.take(i as int), h),
        decreases pairs@.len() - i,
    {
        proof {
            assert(pairs@.take(i + 1).drop_last() =~= pairs@.take(i as int));
            assert(pairs@.take(i + 1).last() == pairs@[i as int]);
        }
        let (h, p) = (pairs[i].0.clone(), pairs[i].1.clone());
        idx.insert(h, IndexEntry { path: p, full_hash: None });
        i = i + 1;
    }
    assert(pairs@.take(pairs@.len() as int) =~= pairs@);
    idx
}

/// What a legacy map says of a fingerprint: the last pair with it.
pub open spec fn legacy_get(pairs: Seq<(String, String)>, h: Seq<char>) -> Option<EntryView>
    decreases pairs.len(),
{
    if pairs.len() == 0 {
        None
    } else if pairs.last().0@ == h {
        Some((pairs.last().1@, None))
    } else {
        legacy_get(pairs.drop_last(), h)
    }
}

/// The log of one run: the app's version, when it ran, the sources it
/// planned from, the options it ran with, and an entry per operation.
pub fn ingest_log(
    app_version: &str,
    timestamp: String,
    sources: Vec<String>,
    options: &crate::types::IngestOptions,
    entries: Vec<LogEntry>,
) -> (r: IngestLog)
    ensures
        r.app_version@ == app_version@,
        r.timestamp == timestamp,
        r.sources == sources,
        r.options.operation == options.operation,
        r.options.skip_duplicates == options.skip_duplicates,
        r.options.dest_root == options.dest_root,
        r.entries == entries,
{
    IngestLog {
        app_version: String::from_str(app_version),
        timestamp,
        sources,
        options: IngestOptionsLog {
            operation: options.operation.clone(),
            skip_duplicates: options.skip_duplicates,
            dest_root: options.dest_root.clone(),
        },
        entries,
    }
}

// ---------------------------------------------------------------------------
// Where logs and the index live.
// ---------------------------------------------------------------------------

/// `<dest_root>/.ingst/index.json`.
pub fn index_path(dest_root: &str) -> (r: String)
    ensures
        r@ == join(join(dest_root@, ".ingst"@), "index.json"@),
{
    let root = chars_of(dest_root);
    let a = join_chars(&root, &chars_of(".ingst"));
    let b = join_chars(&a, &chars_of("index.json"));
    string_from(&b)
}

/// `<dest_root>/.ingst/logs`.
pub fn log_dir(dest_root: &str) -> (r: String)
    ensures
        r@ == join(join(dest_root@, ".ingst"@), "logs"@),
{
    let root = chars_of(dest_root);
    let a = join_chars(&root, &chars_of(".ingst"));
    let b = join_chars(&a, &chars_of("logs"));
    string_from(&b)
}

/// `ingst_<stamp>.json`, where the stamp is `YYYYMMDD_HHMMSS`, so that file
/// names sort in the order the logs were written.
pub fn log_file_name(stamp: &str) -> (r: String)
    ensures
        r@ == "ingst_"@ + stamp@ + ".json"@,
{
    let mut v = chars_of("ingst_");
    crate::text::push_str(&mut v, stamp);
    crate::text::push_str(&mut v, ".json");
    string_from(&v)
}

/// Calls `chrono::Utc::now().to_rfc3339()`. Nothing is stated of the
/// result, which depends on the clock.
#[verifier::external_body]
fn utc_now_rfc3339() -> String {
    chrono::Utc::now().to_rfc3339()
}

/// A log line for one operation, stamped with the current time. A full hash
/// is filled in only by the caller that computed one.
pub fn create_log_entry(
    source_path: &str,
    dest_path: &str,
    size: u64,
    hash: Option<String>,
    capture_datetime: Option<String>,
    device_name: String,
    status: &str,
    error: Option<String>,
) -> (e: LogEntry)
    ensures
        e.source_path@ == source_path@,
        e.dest_path@ == dest_path@,
        e.size == size,
        e.hash == hash,
        e.full_hash is None,
        e.capture_datetime == capture_datetime,
        e.device_name == device_name,
        e.status@ == status@,
        e.error == error,
{
    LogEntry {
        timestamp: utc_now_rfc3339(),
        source_path: String::from_str(source_path),
        dest_path: String::from_str(dest_path),
        size,
        hash,
        full_hash: None,
        capture_datetime,
        device_name,
        status: String::from_str(status),
        error,
    }
}

// ---------------------------------------------------------------------------
// Log rotation.
// ---------------------------------------------------------------------------

/// How many logs are kept.
pub open spec fn max_logs() -> nat {
    50
}

/// A file in the log directory is a log when its extension is `json`.
pub open spec fn is_log_name(n: Seq<char>) -> bool {
    extension(n) == Some("json"@)
}

/// The log files among `names`, in order.
pub open spec fn log_names(names: Seq<String>) -> Seq<Seq<char>>
    decreases names.len(),
{
    if names.len() == 0 {
        Seq::empty()
    } else {
        let r = log_names(names.drop_last());
        if is_log_name(names.last()@) {
            r.push(names.last()@)
        } else {
            r
        }
    }
}

/// Ascending by name, which for `ingst_YYYYMMDD_HHMMSS.json` is oldest
/// first.
pub open spec fn sorted_names(s: Seq<Seq<char>>) -> bool {
    forall|i: int, j: int| 0 <= i < j < s.len() ==> !lex_lt(#[trigger] s[j], #[trigger] s[i])
}

/// How many of `n` logs rotation deletes.
pub open spec fn excess(n: nat) -> nat {
    if n > max_logs() {
        (n - max_logs()) as nat
    } else {
        0
    }
}

fn is_log_file_name(n: &[char]) -> (r: bool)
    ensures
        r == is_log_name(n@),
{
    match extension_of_chars(n) {
        Some(e) => chars_eq_str(&e, "json"),
        None => false,
    }
}

fn insert_sorted(v: &mut Vec<Vec<char>>, x: Vec<char>, g: Ghost<Seq<Seq<char>>>) -> (r: Ghost<
    Seq<Seq<char>>,
>)
    requires
        old(v)@.len() == g@.len(),
        forall|k: int| 0 <= k < g@.len() ==> (#[trigger] old(v)@[k])@ == g@[k],
        sorted_names(g@),
    ensures
        final(v)@.len() == r@.len(),
        forall|k: int| 0 <= k < r@.len() ==> (#[trigger] final(v)@[k])@ == r@[k],
        sorted_names(r@),
        r@.to_multiset() == g@.to_multiset().insert(x@),
{
    let ghost gs = g@;
    let mut p: usize = 0;
    while p < v.len() && !chars_lt(&x, &v[p])
        invariant
            p <= v@.len(),
            v@ == old(v)@,
            v@.len() == gs.len(),
            forall|k: int| 0 <= k < gs.len() ==> (#[trigger] v@[k])@ == gs[k],
            forall|k: int| 0 <= k < p ==> !lex_lt(x@, #[trigger] gs[k]),
        decreases v@.len() - p,
    {
        p = p + 1;
    }
    let ghost xv = x@;
    v.insert(p, x);
    let ghost r = gs.insert(p as int, xv);
    proof {
        broadcast use vstd::seq_lib::to_multiset_insert;
        assert forall|k: int| 0 <= k < r.len() implies (#[trigger] v@[k])@ == r[k] by {
            if k < p {
                assert(v@[k] == old(v)@[k]);
            } else if k > p {
                assert(v@[k] == old(v)@[k - 1]);
            }
        }
        assert forall|i: int, j: int| 0 <= i < j < r.len() implies !lex_lt(#[trigger] r[j], #[trigger] r[i]) by {
            if i < p && j < p {
                assert(r[i] == gs[i] && r[j] == gs[j]);
            } else if i < p && j == p {
                // gs[i] <= x
                lemma_lex_total(xv, gs[i]);
            } else if i < p && j > p {
                assert(r[i] == gs[i] && r[j] == gs[j - 1]);
                if i < j - 1 {
                } 
            } else if i == p {
                assert(r[j] == gs[j - 1]);
                // x < gs[p] <= gs[j - 1]
                assert(p < gs.len());
                lemma_lex_total(xv, gs[p as int]);
                if lex_lt(gs[j - 1], xv) {
                    if j - 1 > p {
                        lemma_lex_total(gs[p as int], gs[j - 1]);
                        if gs[p as int] == gs[j - 1] {
                        } else {
                            lemma_lex_trans(gs[j - 1], xv, gs[p as int]);
                        }
                    }
                }
                lemma_lex_total(gs[j - 1], xv);
            } else {
                assert(r[i] == gs[i - 1] && r[j] == gs[j - 1]);
            }
        }
    }
    Ghost(r)
}

/// Which logs rotation deletes, given the names of the files in the log
/// directory: only `.json` files count as logs, and when there are more than
/// the limit, the oldest (by name) beyond it are deleted; at or below the
/// limit nothing is.
pub fn logs_to_rotate(names: &[String]) -> (r: Vec<String>)
    ensures
        exists|p: Seq<Seq<char>>|
            {
                &&& p.to_multiset() == log_names(names@).to_multiset()
                &&& sorted_names(p)
                &&& r@.len() == excess(p.len())
                &&& forall|k: int| 0 <= k < r@.len() ==> (#[trigger] r@[k])@ == p[k]
            },
{
    let mut sorted: Vec<Vec<char>> = Vec::new();
    let mut g: Ghost<Seq<Seq<char>>> = Ghost(Seq::empty());
    let mut i: usize = 0;
    while i < names.len()
        invariant
            i <= names@.len(),
            sorted@.len() == g@.len(),
            forall|k: int| 0 <= k < g@.len() ==> (#[trigger] sorted@[k])@ == g@[k],
            sorted_names(g@),
            g@.to_multiset() == log_names(names@.take(i as int)).to_multiset(),
        decreases names@.len() - i,
    {
        let c = chars_of(names[i].as_str());
        proof {
            assert(names@.take(i + 1).drop_last() == names@.take(i as int));
            assert(names@.take(i + 1).last() == names@[i as int]);
        }
        if is_log_file_name(&c) {
            g = insert_sorted(&mut sorted, c, g);
            proof {
                broadcast use vstd::seq_lib::to_multiset_build;
            }
        }
        i = i + 1;
    }
    assert(names@.take(names@.len() as int) == names@);
    let n = sorted.len();
    let del: usize = if n > 50 { n - 50 } else { 0 };
    let mut r: Vec<String> = Vec::new();
    let mut k: usize = 0;
    while k < del
        invariant
            k <= del <= n,
            n == sorted@.len(),
            sorted@.len() == g@.len(),
            forall|j: int| 0 <= j < g@.len() ==> (#[trigger] sorted@[j])@ == g@[j],
            r@.len() == k,
            forall|j: int| 0 <= j < k ==> (#[trigger] r@[j])@ == g@[j],
        decreases del - k,
    {
        r.push(string_from(&sorted[k]));
        k = k + 1;
    }
    assert(r@.len() == excess(g@.len()));
    r
}

} // verus!
