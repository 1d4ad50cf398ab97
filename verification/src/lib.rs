//! Content-addressable comparison of directory trees.
//!
//! The library indexes files by a cryptographic fingerprint of their
//! contents, then derives set differences and duplicate groups from the
//! resulting indexes.  Walking real directories and reading file bytes is
//! left to the caller; the library works on paths and byte contents handed
//! to it, so every decision it makes is stated and proved here.

pub mod hashing;
pub mod index;
pub mod laws;
pub mod tracker;

use vstd::prelude::*;

verus! {

use crate::hashing::fingerprint_of;
use crate::hashing::hash_bytes;
use crate::index::ContentIndex;
use crate::index::IndexView;
use crate::index::empty_index;
use crate::index::index_contains_key;
use crate::index::index_get_vec;
use crate::index::index_insert;
use crate::index::index_keys;
use crate::index::index_new;
use crate::index::index_view;
use crate::index::insert_path;
use crate::tracker::ProgressTracker;

/// One unit of hashing work: a file's path, and the outcome of reading the
/// file — its full contents, or a description of why it could not be read.
pub struct FileData {
    pub path: String,
    pub content: Result<Vec<u8>, String>,
}

/// Whether this entry was read successfully and its contents hash to `k`.
pub open spec fn entry_hits(e: FileData, k: Seq<char>) -> bool {
    e.content is Ok && fingerprint_of(e.content->Ok_0@) == k
}

/// The paths of the readable entries whose contents hash to `k`, in entry
/// order.
pub open spec fn paths_for(entries: Seq<FileData>, k: Seq<char>) -> Seq<Seq<char>> {
    entries.filter(|e: FileData| entry_hits(e, k)).map_values(|e: FileData| e.path@)
}

/// The index built from a batch of entries: a fingerprint is a key exactly
/// when some readable entry hashes to it, and maps to those entries' paths
/// in entry order.
pub open spec fn index_of_entries(entries: Seq<FileData>) -> IndexView {
    Map::new(
        |k: Seq<char>| paths_for(entries, k).len() > 0,
        |k: Seq<char>| paths_for(entries, k),
    )
}

/// The failure descriptions of the unreadable entries, in entry order.
pub open spec fn errors_of(entries: Seq<FileData>) -> Seq<Seq<char>> {
    entries.filter(|e: FileData| e.content is Err).map_values(
        |e: FileData| e.content->Err_0@,
    )
}

/// An append-only log of recoverable failures gathered during one run,
/// owned by the caller that builds the indexes.
pub struct ErrorLog {
    records: Vec<String>,
}

impl View for ErrorLog {
    type V = Seq<Seq<char>>;

    closed spec fn view(&self) -> Seq<Seq<char>> {
        self.records.deep_view()
    }
}

impl ErrorLog {
    /// An empty log.
    pub fn new() -> (r: Self)
        ensures
            r@ == Seq::<Seq<char>>::empty(),
    {
        let log = ErrorLog { records: Vec::new() };
        proof {
            assert(log@ =~= Seq::<Seq<char>>::empty());
        }
        log
    }
}

/// Appends one failure description to the log.
pub fn push_error(log: &mut ErrorLog, message: &str)
    ensures
        final(log)@ == old(log)@.push(message@),
{
    let record = message.to_owned();
    log.records.push(record);
    proof {
        assert(log@ =~= old(log)@.push(message@));
    }
}

/// A snapshot of every failure recorded so far, in the order recorded.
pub fn get_errors(log: &ErrorLog) -> (r: Vec<String>)
    ensures
        r.deep_view() == log@,
{
    clone_string_vec(&log.records)
}

/// How one more completed entry extends a partly built index and error
/// list: exactly the step that `record_completion` takes, so a batch
/// applied one completion at a time — as the concurrent strategy does —
/// builds `index_of_entries` and `errors_of` of the completion order.
pub proof fn lemma_entries_push(entries: Seq<FileData>, e: FileData)
    ensures
        e.content is Ok ==> index_of_entries(entries.push(e)) == insert_path(
            index_of_entries(entries),
            fingerprint_of(e.content->Ok_0@),
            e.path@,
        ),
        e.content is Err ==> index_of_entries(entries.push(e)) == index_of_entries(entries),
        e.content is Ok ==> errors_of(entries.push(e)) == errors_of(entries),
        e.content is Err ==> errors_of(entries.push(e)) == errors_of(entries).push(
            e.content->Err_0@,
        ),
{
    reveal(Seq::filter);
    let s = entries.push(e);
    assert(s.drop_last() =~= entries);

    assert(errors_of(s) =~= if e.content is Err {
        errors_of(entries).push(e.content->Err_0@)
    } else {
        errors_of(entries)
    });

    assert forall|k: Seq<char>| true implies paths_for(s, k) == (if entry_hits(e, k) {
        paths_for(entries, k).push(e.path@)
    } else {
        paths_for(entries, k)
    }) by {
        assert(paths_for(s, k) =~= if entry_hits(e, k) {
            paths_for(entries, k).push(e.path@)
        } else {
            paths_for(entries, k)
        });
    }

    if e.content is Ok {
        let fp = fingerprint_of(e.content->Ok_0@);
        assert(entry_hits(e, fp));
        assert forall|k: Seq<char>| k != fp implies !entry_hits(e, k) by {}
        assert(index_of_entries(s) =~~= insert_path(index_of_entries(entries), fp, e.path@));
    } else {
        assert(index_of_entries(s) =~~= index_of_entries(entries));
    }
}

/// Hashes each readable entry, in order, into a fresh index, and appends
/// each unreadable entry's failure description to the error log.  The
/// result is exactly the index of the batch: one key per distinct
/// fingerprint of a readable entry, holding the matching paths in entry
/// order.
pub fn hash_file_list(files: Vec<FileData>, errors: &mut ErrorLog) -> (store: ContentIndex)
    ensures
        index_view(store) == index_of_entries(files@),
        final(errors)@ == old(errors)@ + errors_of(files@),
{
    let mut store = index_new();
    let mut i: usize = 0;
    proof {
        assert(files@.take(0) =~= Seq::<FileData>::empty());
        reveal(Seq::filter);
        assert(index_of_entries(files@.take(0)) =~~= empty_index());
        assert(errors_of(files@.take(0)) =~= Seq::<Seq<char>>::empty());
        assert(errors@ =~= old(errors)@ + errors_of(files@.take(0)));
    }
    while i < files.len()
        invariant
            i <= files@.len(),
            index_view(store) == index_of_entries(files@.take(i as int)),
            errors@ == old(errors)@ + errors_of(files@.take(i as int)),
        decreases files@.len() - i,
    {
        let entry = &files[i];
        match &entry.content {
            Ok(bytes) => {
                let fingerprint = hash_bytes(bytes);
                index_insert(&mut store, fingerprint, entry.path.clone());
            },
            Err(message) => {
                push_error(errors, message.as_str());
            },
        }
        proof {
            assert(files@.take(i + 1) =~= files@.take(i as int).push(files@[i as int]));
            lemma_entries_push(files@.take(i as int), files@[i as int]);
            if files@[i as int].content is Err {
                assert(errors@ =~= old(errors)@ + errors_of(files@.take(i + 1)));
            }
        }
        i = i + 1;
    }
    proof {
        assert(files@.take(files@.len() as int) =~= files@);
    }
    store
}

/// Applies one completed unit of hashing work to the shared batch state,
/// as the concurrent strategy's workers do under their lock: a successful
/// fingerprint is inserted with the file's path, a failure description is
/// appended to the error log, the progress counter advances, and the
/// result reports whether the whole batch is now done.
pub fn record_completion(
    store: &mut ContentIndex,
    errors: &mut ErrorLog,
    tracker: &mut ProgressTracker,
    path: String,
    outcome: Result<String, String>,
) -> (done: bool)
    ensures
        outcome matches Ok(fp) ==> index_view(*final(store)) == insert_path(
            index_view(*old(store)),
            fp@,
            path@,
        ) && final(errors)@ == old(errors)@,
        outcome matches Err(message) ==> index_view(*final(store)) == index_view(*old(store))
            && final(errors)@ == old(errors)@.push(message@),
        final(tracker).counter == if old(tracker).counter < old(tracker).max_val {
            old(tracker).counter + 1
        } else {
            old(tracker).counter as int
        },
        final(tracker).min_val == old(tracker).min_val,
        final(tracker).max_val == old(tracker).max_val,
        done == final(tracker).spec_is_done(),
{
    match outcome {
        Ok(fingerprint) => {
            index_insert(store, fingerprint, path);
        },
        Err(message) => {
            push_error(errors, message.as_str());
        },
    }
    tracker.increment();
    tracker.is_done()
}

/// The fingerprints of `a` that `b` lacks.
pub open spec fn diff_keys(a: IndexView, b: IndexView) -> Set<Seq<char>> {
    a.dom().difference(b.dom())
}

/// An owned copy of a list of strings.
fn clone_string_vec(v: &Vec<String>) -> (r: Vec<String>)
    ensures
        r.deep_view() == v.deep_view(),
{
    let r = v.clone();
    proof {
        assert forall|i: int| 0 <= i < r@.len() implies r@[i] == v@[i] by {
            assert(cloned::<String>(v[i], r[i]));
        }
        assert(r@ =~= v@);
        assert(r.deep_view() =~= v.deep_view());
    }
    r
}

/// In a sequence without duplicates, an element never occurs before its
/// own position.
proof fn lemma_not_in_prefix<A>(s: Seq<A>, i: int)
    requires
        s.no_duplicates(),
        0 <= i < s.len(),
    ensures
        !s.take(i).contains(s[i]),
        !s.take(i).to_set().contains(s[i]),
{
    if s.take(i).contains(s[i]) {
        let j = choose|j: int| 0 <= j < i && s.take(i)[j] == s[i];
        assert(s[j] == s[i]);
        assert(false);
    }
}

/// The keys of `map_x` that `map_y` lacks, each exactly once, in an order
/// the index leaves unspecified.
fn keys_not_in(map_x: &ContentIndex, map_y: &ContentIndex) -> (r: Vec<String>)
    ensures
        r.deep_view().to_set() == diff_keys(index_view(*map_x), index_view(*map_y)),
        r.deep_view().no_duplicates(),
{
    let keys = index_keys(map_x);
    let ghost dom_y = index_view(*map_y).dom();
    let mut out: Vec<String> = Vec::new();
    let mut i: usize = 0;
    proof {
        assert(out.deep_view() =~= Seq::<Seq<char>>::empty());
        assert(out.deep_view().to_set() =~= keys.deep_view().take(0).to_set().difference(dom_y));
    }
    while i < keys.len()
        invariant
            i <= keys@.len(),
            keys@.len() == keys.deep_view().len(),
            keys.deep_view().no_duplicates(),
            keys.deep_view().to_set() == index_view(*map_x).dom(),
            dom_y == index_view(*map_y).dom(),
            out.deep_view().no_duplicates(),
            out.deep_view().to_set() == keys.deep_view().take(i as int).to_set().difference(
                dom_y,
            ),
        decreases keys@.len() - i,
    {
        let ghost pre = out.deep_view();
        let ghost kv = keys.deep_view()[i as int];
        proof {
            assert(kv == keys@[i as int]@);
            lemma_not_in_prefix(keys.deep_view(), i as int);
        }
        if !index_contains_key(map_y, &keys[i]) {
            proof {
                assert(!pre.to_set().contains(kv));
                assert(!pre.contains(kv));
            }
            let copy = keys[i].clone();
            out.push(copy);
            proof {
                assert(out.deep_view() =~= pre.push(kv));
                assert(pre.push(kv).no_duplicates());
                assert(pre.push(kv) =~= pre + seq![kv]);
                Seq::lemma_to_set_insert_commutes(pre, kv);
            }
        }
        proof {
            assert(keys.deep_view().take(i + 1) =~= keys.deep_view().take(i as int) + seq![kv]);
            Seq::lemma_to_set_insert_commutes(keys.deep_view().take(i as int), kv);
            assert(out.deep_view().to_set() =~= keys.deep_view().take(i + 1).to_set().difference(
                dom_y,
            ));
        }
        i = i + 1;
    }
    proof {
        assert(keys.deep_view().take(keys.deep_view().len() as int) =~= keys.deep_view());
    }
    out
}

/// The symmetric difference of two indexes' key sets, split in two parts:
/// the fingerprints only in `map_a`, then those only in `map_b`.  A
/// fingerprint present in both indexes — under however many paths — lands
/// in neither part, and neither part repeats a fingerprint.
pub fn get_diff(map_a: &ContentIndex, map_b: &ContentIndex) -> (r: (Vec<String>, Vec<String>))
    ensures
        r.0.deep_view().to_set() == diff_keys(index_view(*map_a), index_view(*map_b)),
        r.1.deep_view().to_set() == diff_keys(index_view(*map_b), index_view(*map_a)),
        r.0.deep_view().no_duplicates(),
        r.1.deep_view().no_duplicates(),
{
    let only_a = keys_not_in(map_a, map_b);
    let only_b = keys_not_in(map_b, map_a);
    (only_a, only_b)
}

/// The fingerprints of an index that hold at least two paths.
pub open spec fn dup_keys(v: IndexView) -> Set<Seq<char>> {
    v.dom().filter(|k: Seq<char>| v[k].len() >= 2)
}

/// `ks` lists the duplicated fingerprints of `v`, each exactly once, and
/// `groups` holds those fingerprints' full path lists, aligned with `ks`.
pub open spec fn is_duplicates_listing(
    v: IndexView,
    ks: Seq<Seq<char>>,
    groups: Seq<Seq<Seq<char>>>,
) -> bool {
    &&& ks.no_duplicates()
    &&& ks.to_set() == dup_keys(v)
    &&& groups.len() == ks.len()
    &&& forall|i: int| 0 <= i < ks.len() ==> groups[i] == v[ks[i]]
}

/// The duplicate groups of an index: one group for each fingerprint with
/// at least two paths, holding that fingerprint's full path list.  Groups
/// come in an order the index leaves unspecified.
pub fn find_duplicates(map: &ContentIndex) -> (result: Vec<Vec<String>>)
    ensures
        exists|ks: Seq<Seq<char>>|
            is_duplicates_listing(index_view(*map), ks, result.deep_view()),
{
    let ghost v = index_view(*map);
    let keys = index_keys(map);
    let mut result: Vec<Vec<String>> = Vec::new();
    let ghost mut gks: Seq<Seq<char>> = Seq::empty();
    let mut i: usize = 0;
    proof {
        assert(result.deep_view() =~= Seq::<Seq<Seq<char>>>::empty());
        assert(gks.to_set() =~= dup_keys(v).intersect(keys.deep_view().take(0).to_set()));
    }
    while i < keys.len()
        invariant
            i <= keys@.len(),
            keys@.len() == keys.deep_view().len(),
            keys.deep_view().no_duplicates(),
            keys.deep_view().to_set() == v.dom(),
            v == index_view(*map),
            gks.no_duplicates(),
            gks.to_set() == dup_keys(v).intersect(keys.deep_view().take(i as int).to_set()),
            result.deep_view().len() == gks.len(),
            forall|j: int| 0 <= j < gks.len() ==> result.deep_view()[j] == v[gks[j]],
        decreases keys@.len() - i,
    {
        let ghost kv = keys.deep_view()[i as int];
        let ghost pre = result.deep_view();
        let ghost gks_pre = gks;
        proof {
            assert(kv == keys@[i as int]@);
            lemma_not_in_prefix(keys.deep_view(), i as int);
            assert(keys.deep_view().contains(kv)) by {
                assert(keys.deep_view()[i as int] == kv);
            }
            assert(keys.deep_view().to_set().contains(kv));
            assert(v.dom().contains(kv));
        }
        match index_get_vec(map, &keys[i]) {
            Some(vals) => {
                proof {
                    assert(vals.deep_view().len() == vals@.len());
                    assert(vals.deep_view() == v[kv]);
                }
                if vals.len() > 1 {
                    proof {
                        assert(dup_keys(v).contains(kv));
                        assert(!gks.to_set().contains(kv));
                        assert(!gks.contains(kv));
                    }
                    let group = clone_string_vec(vals);
                    result.push(group);
                    proof {
                        gks = gks.push(kv);
                        assert(gks.no_duplicates());
                        assert(gks =~= gks_pre + seq![kv]);
                        Seq::lemma_to_set_insert_commutes(gks_pre, kv);
                        assert(result.deep_view() =~= pre.push(vals.deep_view()));
                    }
                } else {
                    proof {
                        assert(!dup_keys(v).contains(kv));
                    }
                }
            },
            None => {
                proof {
                    assert(false);
                }
            },
        }
        proof {
            assert(keys.deep_view().take(i + 1) =~= keys.deep_view().take(i as int) + seq![kv]);
            Seq::lemma_to_set_insert_commutes(keys.deep_view().take(i as int), kv);
            assert(gks.to_set() =~= dup_keys(v).intersect(keys.deep_view().take(i + 1).to_set()));
        }
        i = i + 1;
    }
    proof {
        assert(keys.deep_view().take(keys.deep_view().len() as int) =~= keys.deep_view());
        assert(gks.to_set() =~= dup_keys(v));
        assert(is_duplicates_listing(v, gks, result.deep_view()));
    }
    result
}

} // verus!
