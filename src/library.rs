use vstd::prelude::*;

use crate::collections::{
    appended, contains_id, created, id_seq, ids_removed, listed_pred, moved, ranked, ranked_up, removed, renamed,
    reordered, slot, ListView, Shelf,
};
use crate::error::Error;
use crate::index::{has_id, pos_of, reconciled, read_count, unreadable_paths, Index, Probe, ScanReport, Track};

verus! {

/// Every id in `ids` has a row in `cat`.
pub open spec fn ids_known(ids: Seq<Seq<char>>, cat: Seq<Track>) -> bool {
    forall|k: int| 0 <= k < ids.len() ==> has_id(cat, #[trigger] ids[k])
}

/// Every entry of every list has a row in `cat`.
pub open spec fn refs_known(s: Seq<ListView>, cat: Seq<Track>) -> bool {
    forall|i: int| 0 <= i < s.len() ==> ids_known(#[trigger] s[i].ids, cat)
}

proof fn lemma_known_sub(a: Seq<Seq<char>>, b: Seq<Seq<char>>, cat: Seq<Track>)
    requires
        ids_known(a, cat),
        forall|k: int| 0 <= k < b.len() ==> a.contains(#[trigger] b[k]),
    ensures
        ids_known(b, cat),
{
    assert forall|k: int| 0 <= k < b.len() implies has_id(cat, #[trigger] b[k]) by {
        assert(a.contains(b[k]));
        let j = choose|j: int| 0 <= j < a.len() && a[j] == b[k];
        assert(has_id(cat, a[j]));
    }
}

proof fn lemma_refs_update(s: Seq<ListView>, cat: Seq<Track>, i: int, l: ListView)
    requires
        refs_known(s, cat),
        0 <= i < s.len(),
        ids_known(l.ids, cat),
    ensures
        refs_known(s.update(i, l), cat),
{
    assert forall|j: int| 0 <= j < s.len() implies ids_known(#[trigger] s.update(i, l)[j].ids, cat) by {
        if j != i {
            assert(ids_known(s[j].ids, cat));
        }
    }
}

proof fn lemma_moved_elements(s: Seq<Seq<char>>, src: int, dst: int)
    requires
        0 <= src < s.len(),
        0 <= dst < s.len(),
    ensures
        forall|k: int| 0 <= k < moved(s, src, dst).len() ==> s.contains(#[trigger] moved(s, src, dst)[k]),
{
    let r = s.remove(src);
    assert forall|k: int| 0 <= k < moved(s, src, dst).len() implies s.contains(
        #[trigger] moved(s, src, dst)[k],
    ) by {
        if k < dst {
            if k < src {
                assert(moved(s, src, dst)[k] == s[k]);
            } else {
                assert(moved(s, src, dst)[k] == s[k + 1]);
            }
        } else if k == dst {
            assert(moved(s, src, dst)[k] == s[src]);
        } else {
            if k - 1 < src {
                assert(moved(s, src, dst)[k] == s[k - 1]);
            } else {
                assert(moved(s, src, dst)[k] == s[k]);
            }
        }
    }
}

proof fn lemma_ranked_elements(s: Seq<Seq<char>>, p: int)
    requires
        0 <= p < s.len(),
    ensures
        forall|k: int| 0 <= k < ranked_up(s, p).len() ==> s.contains(#[trigger] ranked_up(s, p)[k]),
{
    assert forall|k: int| 0 <= k < ranked_up(s, p).len() implies s.contains(#[trigger] ranked_up(s, p)[k]) by {
        if p > 0 && k == p - 1 {
            assert(ranked_up(s, p)[k] == s[p]);
        } else if p > 0 && k == p {
            assert(ranked_up(s, p)[k] == s[p - 1]);
        } else {
            assert(ranked_up(s, p)[k] == s[k]);
        }
    }
}

proof fn lemma_filter_elements(s: Seq<Seq<char>>, pred: spec_fn(Seq<char>) -> bool)
    ensures
        forall|k: int| 0 <= k < s.filter(pred).len() ==> s.contains(#[trigger] s.filter(pred)[k]),
        forall|k: int| 0 <= k < s.filter(pred).len() ==> pred(#[trigger] s.filter(pred)[k]),
    decreases s.len(),
{
    reveal(Seq::filter);
    if s.len() > 0 {
        let d = s.drop_last();
        lemma_filter_elements(d, pred);
        let f = s.filter(pred);
        assert forall|k: int| 0 <= k < f.len() implies s.contains(#[trigger] f[k]) && pred(f[k]) by {
            if k < d.filter(pred).len() {
                assert(f[k] == d.filter(pred)[k]);
                let j = choose|j: int| 0 <= j < d.len() && d[j] == f[k];
                assert(s[j] == f[k]);
            } else {
                assert(f[k] == s.last());
                assert(s[s.len() - 1] == f[k]);
            }
        }
    }
}

/// `v` holds, for each id of `ids` in order, the catalog row with that identity.
pub open spec fn tracks_for(v: Seq<Track>, ids: Seq<Seq<char>>, cat: Seq<Track>) -> bool {
    v.len() == ids.len() && forall|k: int| 0 <= k < v.len() ==> #[trigger] v[k] == cat[pos_of(cat, ids[k])]
}

/// The identities of the rows of `cat`, in order.
pub open spec fn cat_ids(cat: Seq<Track>) -> Seq<Seq<char>> {
    cat.map_values(|t: Track| t.id@)
}

/// The entries of `s`, each once, in order of first appearance.
pub open spec fn distinct(s: Seq<Seq<char>>) -> Seq<Seq<char>>
    decreases s.len(),
{
    if s.len() == 0 {
        Seq::empty()
    } else if distinct(s.drop_last()).contains(s.last()) {
        distinct(s.drop_last())
    } else {
        distinct(s.drop_last()).push(s.last())
    }
}

/// `after` is `before` with every id that has no row in `cat` dropped.
pub open spec fn pruned(before: Seq<ListView>, after: Seq<ListView>, cat: Seq<Track>) -> bool {
    after.len() == before.len() && forall|i: int|
        0 <= i < before.len() ==> #[trigger] after[i] == (ListView {
            name: before[i].name,
            ids: before[i].ids.filter(listed_pred(cat_ids(cat), true)),
        })
}

proof fn lemma_pruned_known(before: Seq<ListView>, after: Seq<ListView>, cat: Seq<Track>)
    requires
        pruned(before, after, cat),
    ensures
        refs_known(after, cat),
{
    assert forall|i: int| 0 <= i < after.len() implies ids_known(#[trigger] after[i].ids, cat) by {
        let p = listed_pred(cat_ids(cat), true);
        assert(after[i].ids == before[i].ids.filter(p));
        lemma_filter_elements(before[i].ids, p);
        assert forall|k: int| 0 <= k < after[i].ids.len() implies has_id(cat, #[trigger] after[i].ids[k]) by {
            assert(p(after[i].ids[k]));
            assert(cat_ids(cat).contains(after[i].ids[k]));
            let m = choose|m: int| 0 <= m < cat_ids(cat).len() && cat_ids(cat)[m] == after[i].ids[k];
            assert(cat[m].id@ == after[i].ids[k]);
        }
    }
}

/// Once a track has no row, no list names it.
pub proof fn lemma_removal_cascades(s: Seq<ListView>, cat: Seq<Track>, id: Seq<char>)
    requires
        refs_known(s, cat),
        !has_id(cat, id),
    ensures
        forall|i: int| 0 <= i < s.len() ==> !(#[trigger] s[i]).ids.contains(id),
{
    assert forall|i: int| 0 <= i < s.len() implies !(#[trigger] s[i]).ids.contains(id) by {
        assert(ids_known(s[i].ids, cat));
        if s[i].ids.contains(id) {
            let k = choose|k: int| 0 <= k < s[i].ids.len() && s[i].ids[k] == id;
            assert(has_id(cat, s[i].ids[k]));
        }
    }
}

/// Returns whether every id of `ids` has a row in `index`.
fn all_known(index: &Index, ids: &Vec<String>) -> (r: bool)
    requires
        index.wf(),
    ensures
        r == ids_known(id_seq(ids@), index.tracks@),
{
    let mut k: usize = 0;
    while k < ids.len()
        invariant
            index.wf(),
            k <= ids@.len(),
            forall|j: int| 0 <= j < k ==> has_id(index.tracks@, #[trigger] id_seq(ids@)[j]),
        decreases ids@.len() - k,
    {
        if index.find(&ids[k]).is_none() {
            assert(!has_id(index.tracks@, id_seq(ids@)[k as int]));
            return false;
        }
        k += 1;
    }
    true
}

/// The catalog rows for `ids`, in order.
fn resolve(index: &Index, ids: &Vec<String>) -> (r: Vec<Track>)
    requires
        index.wf(),
        ids_known(id_seq(ids@), index.tracks@),
    ensures
        tracks_for(r@, id_seq(ids@), index.tracks@),
{
    let mut r: Vec<Track> = Vec::new();
    let mut k: usize = 0;
    while k < ids.len()
        invariant
            index.wf(),
            ids_known(id_seq(ids@), index.tracks@),
            k <= ids@.len(),
            r@.len() == k,
            forall|j: int| 0 <= j < k ==> #[trigger] r@[j] == index.tracks@[pos_of(index.tracks@, id_seq(ids@)[j])],
        decreases ids@.len() - k,
    {
        assert(has_id(index.tracks@, id_seq(ids@)[k as int]));
        match index.find(&ids[k]) {
            Some(i) => {
                r.push(index.tracks[i].duplicate());
            },
            None => {},
        }
        k += 1;
    }
    r
}

/// The tracks of the list `name`, in list order.
fn list_tracks(shelf: &Shelf, index: &Index, name: &String) -> (r: Result<Vec<Track>, Error>)
    requires
        index.wf(),
        refs_known(shelf@, index.tracks@),
    ensures
        match r {
            Ok(v) => exists|i: int| slot(shelf@, name@, i) && tracks_for(v@, shelf@[i].ids, index.tracks@),
            Err(e) => e == Error::NotFound && !crate::collections::has_name(shelf@, name@),
        },
{
    match shelf.position(name) {
        None => Err(Error::NotFound),
        Some(i) => {
            assert(ids_known(shelf@[i as int].ids, index.tracks@));
            assert(id_seq(shelf.lists@[i as int].ids@) == shelf@[i as int].ids);
            Ok(resolve(index, &shelf.lists[i].ids))
        },
    }
}

/// Appends `ids` to the list `name`; ids without a row are refused with `NotFound`.
fn append_known(shelf: &mut Shelf, index: &Index, name: &String, ids: &Vec<String>) -> (r: Result<(), Error>)
    requires
        index.wf(),
        old(shelf).wf(),
        refs_known(old(shelf)@, index.tracks@),
    ensures
        final(shelf).wf(),
        refs_known(final(shelf)@, index.tracks@),
        !ids_known(id_seq(ids@), index.tracks@) ==> r == Err::<(), Error>(Error::NotFound) && final(shelf)@
            == old(shelf)@,
        ids_known(id_seq(ids@), index.tracks@) ==> appended(old(shelf)@, final(shelf)@, name@, id_seq(ids@), r),
{
    if !all_known(index, ids) {
        return Err(Error::NotFound);
    }
    let r = shelf.append(name, ids);
    proof {
        if r is Ok {
            let i = choose|i: int|
                slot(old(shelf)@, name@, i) && final(shelf)@ == old(shelf)@.update(
                    i,
                    ListView { name: name@, ids: old(shelf)@[i].ids + id_seq(ids@) },
                );
            let l = ListView { name: name@, ids: old(shelf)@[i].ids + id_seq(ids@) };
            assert(ids_known(old(shelf)@[i].ids, index.tracks@));
            assert forall|k: int| 0 <= k < l.ids.len() implies has_id(index.tracks@, #[trigger] l.ids[k]) by {
                if k < old(shelf)@[i].ids.len() {
                    assert(l.ids[k] == old(shelf)@[i].ids[k]);
                } else {
                    assert(l.ids[k] == id_seq(ids@)[k - old(shelf)@[i].ids.len()]);
                }
            }
            lemma_refs_update(old(shelf)@, index.tracks@, i, l);
        }
    }
    r
}

/// Keeps every list naming only catalogued tracks after one list changed.
proof fn lemma_refs_after_change(s: Seq<ListView>, cat: Seq<Track>, i: int, l: ListView)
    requires
        refs_known(s, cat),
        0 <= i < s.len(),
        forall|k: int| 0 <= k < l.ids.len() ==> s[i].ids.contains(#[trigger] l.ids[k]),
    ensures
        refs_known(s.update(i, l), cat),
{
    assert(ids_known(s[i].ids, cat));
    lemma_known_sub(s[i].ids, l.ids, cat);
    lemma_refs_update(s, cat, i, l);
}

/// The library: the track catalog, the playlists, the emotion buckets and the watched
/// directories. Every list entry names a catalogued track.
pub struct Library {
    pub index: Index,
    pub playlists: Shelf,
    pub emotions: Shelf,
    pub dirs: Vec<String>,
}

impl Library {
    pub open spec fn wf(&self) -> bool {
        &&& self.index.wf()
        &&& self.playlists.wf()
        &&& self.emotions.wf()
        &&& refs_known(self.playlists@, self.index.tracks@)
        &&& refs_known(self.emotions@, self.index.tracks@)
    }

    /// Only the playlists may differ between `self` and `o`.
    pub open spec fn same_but_playlists(&self, o: &Library) -> bool {
        self.index.tracks@ == o.index.tracks@ && self.emotions@ == o.emotions@ && self.dirs@ == o.dirs@
    }

    /// Only the emotion buckets may differ between `self` and `o`.
    pub open spec fn same_but_emotions(&self, o: &Library) -> bool {
        self.index.tracks@ == o.index.tracks@ && self.playlists@ == o.playlists@ && self.dirs@ == o.dirs@
    }

    pub fn new() -> (r: Library)
        ensures
            r.wf(),
            r.index.tracks@.len() == 0,
            r.playlists@.len() == 0,
            r.emotions@.len() == 0,
            r.dirs@.len() == 0,
    {
        Library { index: Index::new(), playlists: Shelf::new(), emotions: Shelf::new(), dirs: Vec::new() }
    }

    pub fn get_playlists(&self) -> (r: Vec<String>)
        ensures
            id_seq(r@) == self.playlists@.map_values(|l: ListView| l.name),
    {
        self.playlists.names()
    }

    pub fn add_playlist(&mut self, name: String) -> (r: Result<(), Error>)
        requires
            old(self).wf(),
        ensures
            final(self).wf(),
            final(self).same_but_playlists(old(self)),
            created(old(self).playlists@, final(self).playlists@, name@, r),
    {
        let ghost n = name@;
        let r = self.playlists.create(name);
        proof {
            let s = self.playlists@;
            assert forall|i: int| 0 <= i < s.len() implies ids_known(#[trigger] s[i].ids, self.index.tracks@) by {
                if i < old(self).playlists@.len() {
                    assert(s[i] == old(self).playlists@[i]);
                } else {
                    assert(s[i].ids == Seq::<Seq<char>>::empty());
                }
            }
        }
        r
    }

    pub fn rename_playlist(&mut self, name: String, new_name: String) -> (r: Result<(), Error>)
        requires
            old(self).wf(),
        ensures
            final(self).wf(),
            final(self).same_but_playlists(old(self)),
            renamed(old(self).playlists@, final(self).playlists@, name@, new_name@, r),
    {
        let ghost nn = new_name@;
        let r = self.playlists.rename(&name, new_name);
        proof {
            if r is Ok {
                let i = choose|i: int|
                    slot(old(self).playlists@, name@, i) && self.playlists@ == old(self).playlists@.update(
                        i,
                        ListView { name: nn, ids: old(self).playlists@[i].ids },
                    );
                lemma_refs_after_change(
                    old(self).playlists@,
                    self.index.tracks@,
                    i,
                    ListView { name: nn, ids: old(self).playlists@[i].ids },
                );
            }
        }
        r
    }

    pub fn remove_playlist(&mut self, name: String) -> (r: Result<(), Error>)
        requires
            old(self).wf(),
        ensures
            final(self).wf(),
            final(self).same_but_playlists(old(self)),
            removed(old(self).playlists@, final(self).playlists@, name@, r),
    {
        let r = self.playlists.remove(&name);
        proof {
            if r is Ok {
                let i = choose|i: int| slot(old(self).playlists@, name@, i) && self.playlists@ == old(self).playlists@.remove(i);
                let s = self.playlists@;
                assert forall|j: int| 0 <= j < s.len() implies ids_known(#[trigger] s[j].ids, self.index.tracks@) by {
                    if j < i {
                        assert(s[j] == old(self).playlists@[j]);
                    } else {
                        assert(s[j] == old(self).playlists@[j + 1]);
                    }
                }
            }
        }
        r
    }

    pub fn get_playlist_tracks(&self, name: String) -> (r: Result<Vec<Track>, Error>)
        requires
            self.wf(),
        ensures
            match r {
                Ok(v) => exists|i: int|
                    slot(self.playlists@, name@, i) && tracks_for(v@, self.playlists@[i].ids, self.index.tracks@),
                Err(e) => e == Error::NotFound && !crate::collections::has_name(self.playlists@, name@),
            },
    {
        list_tracks(&self.playlists, &self.index, &name)
    }

    pub fn add_playlist_tracks(&mut self, name: String, hashes: &Vec<String>) -> (r: Result<(), Error>)
        requires
            old(self).wf(),
        ensures
            final(self).wf(),
            final(self).same_but_playlists(old(self)),
            !ids_known(id_seq(hashes@), old(self).index.tracks@) ==> r == Err::<(), Error>(Error::NotFound)
                && final(self).playlists@ == old(self).playlists@,
            ids_known(id_seq(hashes@), old(self).index.tracks@) ==> appended(
                old(self).playlists@,
                final(self).playlists@,
                name@,
                id_seq(hashes@),
                r,
            ),
    {
        append_known(&mut self.playlists, &self.index, &name, hashes)
    }

    pub fn remove_playlist_tracks(&mut self, name: String, hashes: Option<&Vec<String>>) -> (r: Result<(), Error>)
        requires
            old(self).wf(),
        ensures
            final(self).wf(),
            final(self).same_but_playlists(old(self)),
            ids_removed(
                old(self).playlists@,
                final(self).playlists@,
                name@,
                match hashes {
                    Some(d) => Some(id_seq(d@)),
                    None => None,
                },
                r,
            ),
    {
        let r = self.playlists.remove_ids(&name, hashes);
        proof {
            if r is Ok {
                let i = choose|i: int|
                    slot(old(self).playlists@, name@, i) && self.playlists@ == old(self).playlists@.update(
                        i,
                        ListView {
                            name: name@,
                            ids: match hashes {
                                Some(d) => old(self).playlists@[i].ids.filter(listed_pred(id_seq(d@), false)),
                                None => Seq::empty(),
                            },
                        },
                    );
                let l = self.playlists@[i];
                match hashes {
                    Some(d) => lemma_filter_elements(old(self).playlists@[i].ids, listed_pred(id_seq(d@), false)),
                    None => {},
                }
                assert(self.playlists@ == old(self).playlists@.update(i, l));
                lemma_refs_after_change(old(self).playlists@, self.index.tracks@, i, l);
            }
        }
        r
    }

    pub fn reorder_playlist_track(&mut self, name: String, hash: String, src: i64, dst: i64) -> (r: Result<(), Error>)
        requires
            old(self).wf(),
        ensures
            final(self).wf(),
            final(self).same_but_playlists(old(self)),
            reordered(old(self).playlists@, final(self).playlists@, name@, hash@, src as int, dst as int, r),
    {
        let r = self.playlists.reorder(&name, &hash, src, dst);
        proof {
            if r is Ok {
                let i = choose|i: int|
                    slot(old(self).playlists@, name@, i) && crate::collections::reorder_error(
                        old(self).playlists@[i].ids,
                        hash@,
                        src as int,
                        dst as int,
                    ) is None && self.playlists@ == old(self).playlists@.update(
                        i,
                        ListView { name: name@, ids: moved(old(self).playlists@[i].ids, src as int, dst as int) },
                    );
                lemma_moved_elements(old(self).playlists@[i].ids, src as int, dst as int);
                lemma_refs_after_change(old(self).playlists@, self.index.tracks@, i, self.playlists@[i]);
                assert(self.playlists@ == old(self).playlists@.update(i, self.playlists@[i]));
            }
        }
        r
    }

    pub fn get_emotions(&self) -> (r: Vec<String>)
        ensures
            id_seq(r@) == self.emotions@.map_values(|l: ListView| l.name),
    {
        self.emotions.names()
    }

    pub fn add_emotion(&mut self, name: String) -> (r: Result<(), Error>)
        requires
            old(self).wf(),
        ensures
            final(self).wf(),
            final(self).same_but_emotions(old(self)),
            created(old(self).emotions@, final(self).emotions@, name@, r),
    {
        let r = self.emotions.create(name);
        proof {
            let s = self.emotions@;
            assert forall|i: int| 0 <= i < s.len() implies ids_known(#[trigger] s[i].ids, self.index.tracks@) by {
                if i < old(self).emotions@.len() {
                    assert(s[i] == old(self).emotions@[i]);
                } else {
                    assert(s[i].ids == Seq::<Seq<char>>::empty());
                }
            }
        }
        r
    }

    /// Appends tracks to an emotion bucket, behind its current members in rank order.
    pub fn add_emotion_tracks(&mut self, name: String, hashes: &Vec<String>) -> (r: Result<(), Error>)
        requires
            old(self).wf(),
        ensures
            final(self).wf(),
            final(self).same_but_emotions(old(self)),
            !ids_known(id_seq(hashes@), old(self).index.tracks@) ==> r == Err::<(), Error>(Error::NotFound)
                && final(self).emotions@ == old(self).emotions@,
            ids_known(id_seq(hashes@), old(self).index.tracks@) ==> appended(
                old(self).emotions@,
                final(self).emotions@,
                name@,
                id_seq(hashes@),
                r,
            ),
    {
        append_known(&mut self.emotions, &self.index, &name, hashes)
    }

    pub fn get_emotion_tracks(&self, name: String) -> (r: Result<Vec<Track>, Error>)
        requires
            self.wf(),
        ensures
            match r {
                Ok(v) => exists|i: int|
                    slot(self.emotions@, name@, i) && tracks_for(v@, self.emotions@[i].ids, self.index.tracks@),
                Err(e) => e == Error::NotFound && !crate::collections::has_name(self.emotions@, name@),
            },
    {
        list_tracks(&self.emotions, &self.index, &name)
    }

    pub fn rank_up_emotion_track(&mut self, name: String, hash: String) -> (r: Result<(), Error>)
        requires
            old(self).wf(),
        ensures
            final(self).wf(),
            final(self).same_but_emotions(old(self)),
            ranked(old(self).emotions@, final(self).emotions@, name@, hash@, r),
    {
        let r = self.emotions.rank_up(&name, &hash);
        proof {
            if r is Ok {
                let (i, p) = choose|i: int, p: int|
                    slot(old(self).emotions@, name@, i) && crate::collections::first_at(
                        old(self).emotions@[i].ids,
                        hash@,
                        p,
                    ) && self.emotions@ == old(self).emotions@.update(
                        i,
                        ListView { name: name@, ids: ranked_up(old(self).emotions@[i].ids, p) },
                    );
                lemma_ranked_elements(old(self).emotions@[i].ids, p);
                lemma_refs_after_change(old(self).emotions@, self.index.tracks@, i, self.emotions@[i]);
                assert(self.emotions@ == old(self).emotions@.update(i, self.emotions@[i]));
            }
        }
        r
    }

    /// Reconciles the catalog with one scan's probes, then drops from every list the
    /// tracks that left the catalog.
    pub fn scan_dirs(&mut self, probes: &Vec<Probe>) -> (r: ScanReport)
        requires
            old(self).wf(),
        ensures
            final(self).wf(),
            final(self).index.tracks@ == reconciled(old(self).index.tracks@, probes@),
            r.indexed == read_count(probes@),
            id_seq(r.failed@) == unreadable_paths(probes@),
            final(self).dirs@ == old(self).dirs@,
            pruned(old(self).playlists@, final(self).playlists@, final(self).index.tracks@),
            pruned(old(self).emotions@, final(self).emotions@, final(self).index.tracks@),
    {
        let r = self.index.scan(probes);
        let known = self.index.ids();
        self.playlists.retain_known(&known);
        self.emotions.retain_known(&known);
        proof {
            lemma_pruned_known(old(self).playlists@, self.playlists@, self.index.tracks@);
            lemma_pruned_known(old(self).emotions@, self.emotions@, self.index.tracks@);
        }
        r
    }

    /// Replaces the watched directories, each root once; a scan of the new set follows.
    pub fn set_dirs(&mut self, dirs: Vec<String>)
        requires
            old(self).wf(),
        ensures
            final(self).wf(),
            id_seq(final(self).dirs@) == distinct(id_seq(dirs@)),
            final(self).index.tracks@ == old(self).index.tracks@,
            final(self).playlists@ == old(self).playlists@,
            final(self).emotions@ == old(self).emotions@,
    {
        let mut r: Vec<String> = Vec::new();
        let mut i: usize = 0;
        while i < dirs.len()
            invariant
                i <= dirs@.len(),
                id_seq(r@) == distinct(id_seq(dirs@).take(i as int)),
            decreases dirs@.len() - i,
        {
            let ghost t = id_seq(dirs@).take(i as int + 1);
            assert(t.drop_last() =~= id_seq(dirs@).take(i as int));
            assert(t.last() == dirs@[i as int]@);
            if !contains_id(&r, &dirs[i]) {
                let ghost before = r@;
                r.push(dirs[i].clone());
                assert(id_seq(r@) =~= id_seq(before).push(dirs@[i as int]@));
            }
            i += 1;
        }
        assert(id_seq(dirs@).take(i as int) =~= id_seq(dirs@));
        self.dirs = r;
    }

    pub fn get_dirs(&self) -> (r: Vec<String>)
        ensures
            id_seq(r@) == id_seq(self.dirs@),
    {
        let r = self.dirs.clone();
        assert(id_seq(r@) =~= id_seq(self.dirs@));
        r
    }
}

} // verus!
