use vstd::prelude::*;

use crate::error::Error;

verus! {

/// The abstract content of a sequence of string ids.
pub open spec fn id_seq(v: Seq<String>) -> Seq<Seq<char>> {
    v.map_values(|s: String| s@)
}

/// `s` with the entry at `src` taken out and put back at `dst`.
pub open spec fn moved<A>(s: Seq<A>, src: int, dst: int) -> Seq<A> {
    s.remove(src).insert(dst, s[src])
}

/// `s` with the entry at `i` swapped with its predecessor; unchanged at the front.
pub open spec fn ranked_up<A>(s: Seq<A>, i: int) -> Seq<A> {
    if i <= 0 {
        s
    } else {
        s.update(i - 1, s[i]).update(i, s[i - 1])
    }
}

/// Why moving the entry at `src`, said to hold `id`, to `dst` is refused, if it is.
pub open spec fn reorder_error(ids: Seq<Seq<char>>, id: Seq<char>, src: int, dst: int) -> Option<Error> {
    if !(0 <= src < ids.len() && 0 <= dst < ids.len()) {
        Some(Error::OutOfRange)
    } else if ids[src] != id {
        Some(Error::NotFound)
    } else {
        None
    }
}

/// `i` is the first position of `x` in `s`.
pub open spec fn first_at<A>(s: Seq<A>, x: A, i: int) -> bool {
    0 <= i < s.len() && s[i] == x && forall|j: int| 0 <= j < i ==> s[j] != x
}

/// Moving an entry and moving it back restores the sequence.
pub proof fn lemma_reorder_round_trip<A>(s: Seq<A>, src: int, dst: int)
    requires
        0 <= src < s.len(),
        0 <= dst < s.len(),
    ensures
        moved(s, src, dst)[dst] == s[src],
        moved(moved(s, src, dst), dst, src) == s,
{
    let m = moved(s, src, dst);
    assert(m.remove(dst) =~= s.remove(src));
    assert(m.remove(dst).insert(src, m[dst]) =~= s);
}

/// Moving an entry onto its own position changes nothing.
pub proof fn lemma_reorder_same_position<A>(s: Seq<A>, i: int)
    requires
        0 <= i < s.len(),
    ensures
        moved(s, i, i) == s,
{
    assert(moved(s, i, i) =~= s);
}

/// Ranking up is the move of one entry one position toward the front.
pub proof fn lemma_rank_up_is_move<A>(s: Seq<A>, i: int)
    requires
        0 < i < s.len(),
    ensures
        ranked_up(s, i) == moved(s, i, i - 1),
{
    assert(ranked_up(s, i) =~= moved(s, i, i - 1));
}

/// Moving an entry keeps every entry, each as often as before.
pub proof fn lemma_move_permutes<A>(s: Seq<A>, src: int, dst: int)
    requires
        0 <= src < s.len(),
        0 <= dst < s.len(),
    ensures
        moved(s, src, dst).to_multiset() == s.to_multiset(),
{
    s.to_multiset_ensures();
    vstd::seq_lib::to_multiset_remove(s, src);
    vstd::seq_lib::to_multiset_insert(s.remove(src), dst, s[src]);
    assert(s.contains(s[src]));
    assert(s.to_multiset().remove(s[src]).insert(s[src]) =~= s.to_multiset());
}

/// Ranking up keeps every entry, each as often as before.
pub proof fn lemma_rank_up_permutes<A>(s: Seq<A>, i: int)
    requires
        0 <= i < s.len(),
    ensures
        ranked_up(s, i).to_multiset() == s.to_multiset(),
{
    if i > 0 {
        lemma_rank_up_is_move(s, i);
        lemma_move_permutes(s, i, i - 1);
    }
}

/// A named sequence of track ids: a playlist or an emotion bucket.
pub struct NamedList {
    pub name: String,
    pub ids: Vec<String>,
}

/// What a named list holds.
pub struct ListView {
    pub name: Seq<char>,
    pub ids: Seq<Seq<char>>,
}

impl View for NamedList {
    type V = ListView;

    open spec fn view(&self) -> ListView {
        ListView { name: self.name@, ids: id_seq(self.ids@) }
    }
}

/// Named lists keyed by unique names, kept in creation order.
pub struct Shelf {
    pub lists: Vec<NamedList>,
}

impl View for Shelf {
    type V = Seq<ListView>;

    open spec fn view(&self) -> Seq<ListView> {
        self.lists@.map_values(|l: NamedList| l@)
    }
}

/// `i` is the slot of the list named `n`.
pub open spec fn slot(s: Seq<ListView>, n: Seq<char>, i: int) -> bool {
    0 <= i < s.len() && s[i].name == n
}

pub open spec fn has_name(s: Seq<ListView>, n: Seq<char>) -> bool {
    exists|i: int| slot(s, n, i)
}

pub open spec fn names_unique(s: Seq<ListView>) -> bool {
    forall|i: int, j: int| 0 <= i < s.len() && 0 <= j < s.len() && i != j ==> s[i].name != s[j].name
}

/// Accepts an id exactly when its presence in `listed` equals `keep_listed`.
pub open spec fn listed_pred(listed: Seq<Seq<char>>, keep_listed: bool) -> spec_fn(Seq<char>) -> bool {
    |x: Seq<char>| listed.contains(x) == keep_listed
}

/// Returns whether `x` occurs in `v`.
pub fn contains_id(v: &Vec<String>, x: &String) -> (r: bool)
    ensures
        r == id_seq(v@).contains(x@),
{
    let mut i: usize = 0;
    while i < v.len()
        invariant
            i <= v@.len(),
            forall|j: int| 0 <= j < i ==> v@[j]@ != x@,
        decreases v@.len() - i,
    {
        if v[i] == *x {
            assert(id_seq(v@)[i as int] == x@);
            return true;
        }
        i += 1;
    }
    assert forall|j: int| 0 <= j < id_seq(v@).len() implies id_seq(v@)[j] != x@ by {}
    false
}

/// The first position of `x` in `v`, if it occurs.
pub fn first_position(v: &Vec<String>, x: &String) -> (r: Option<usize>)
    ensures
        match r {
            Some(p) => first_at(id_seq(v@), x@, p as int),
            None => !id_seq(v@).contains(x@),
        },
{
    let mut i: usize = 0;
    while i < v.len()
        invariant
            i <= v@.len(),
            forall|j: int| 0 <= j < i ==> v@[j]@ != x@,
        decreases v@.len() - i,
    {
        if v[i] == *x {
            return Some(i);
        }
        i += 1;
    }
    assert forall|j: int| 0 <= j < id_seq(v@).len() implies id_seq(v@)[j] != x@ by {}
    None
}

/// The ids of `v` whose presence in `drop` equals `keep_listed`, in order.
fn filter_ids(v: &Vec<String>, drop: &Vec<String>, keep_listed: bool) -> (r: Vec<String>)
    ensures
        id_seq(r@) == id_seq(v@).filter(listed_pred(id_seq(drop@), keep_listed)),
{
    let mut r: Vec<String> = Vec::new();
    let mut i: usize = 0;
    while i < v.len()
        invariant
            i <= v@.len(),
            id_seq(r@) == id_seq(v@).take(i as int).filter(listed_pred(id_seq(drop@), keep_listed)),
        decreases v@.len() - i,
    {
        let ghost before = r@;
        let ghost t = id_seq(v@).take(i as int + 1);
        assert(t.drop_last() =~= id_seq(v@).take(i as int));
        assert(t.last() == v@[i as int]@);
        let present = contains_id(drop, &v[i]);
        assert(listed_pred(id_seq(drop@), keep_listed)(t.last()) == (present == keep_listed));
        if present == keep_listed {
            r.push(v[i].clone());
            assert(id_seq(r@) =~= id_seq(before).push(v@[i as int]@));
        }
        proof {
            reveal(Seq::filter);
        }
        assert(id_seq(r@) == t.filter(listed_pred(id_seq(drop@), keep_listed)));
        i += 1;
    }
    assert(id_seq(v@).take(i as int) =~= id_seq(v@));
    r
}

/// The outcome of creating the list `name`.
pub open spec fn created(before: Seq<ListView>, after: Seq<ListView>, name: Seq<char>, r: Result<(), Error>) -> bool {
    match r {
        Ok(()) => !has_name(before, name) && after == before.push(
            ListView { name: name, ids: Seq::empty() },
        ),
        Err(e) => e == Error::Conflict && has_name(before, name) && after
            == before,
    }
}

/// The outcome of renaming the list `name` to `new_name`.
pub open spec fn renamed(before: Seq<ListView>, after: Seq<ListView>, name: Seq<char>, new_name: Seq<char>, r: Result<(), Error>) -> bool {
    match r {
        Ok(()) => !has_name(before, new_name) && exists|i: int|
            slot(before, name, i) && after == before.update(
                i,
                ListView { name: new_name, ids: before[i].ids },
            ),
        Err(e) => after == before && (if !has_name(before, name) {
            e == Error::NotFound
        } else {
            e == Error::Conflict && has_name(before, new_name)
        }),
    }
}

/// The outcome of removing the list `name`.
pub open spec fn removed(before: Seq<ListView>, after: Seq<ListView>, name: Seq<char>, r: Result<(), Error>) -> bool {
    match r {
        Ok(()) => exists|i: int|
            slot(before, name, i) && after == before.remove(i),
        Err(e) => e == Error::NotFound && !has_name(before, name) && after
            == before,
    }
}

/// The outcome of appending `ids` to the list `name`.
pub open spec fn appended(before: Seq<ListView>, after: Seq<ListView>, name: Seq<char>, ids: Seq<Seq<char>>, r: Result<(), Error>) -> bool {
    match r {
        Ok(()) => exists|i: int|
            slot(before, name, i) && after == before.update(
                i,
                ListView { name: name, ids: before[i].ids + ids },
            ),
        Err(e) => e == Error::NotFound && !has_name(before, name) && after
            == before,
    }
}

/// The outcome of dropping `ids` (all ids where `None`) from the list `name`.
pub open spec fn ids_removed(before: Seq<ListView>, after: Seq<ListView>, name: Seq<char>, ids: Option<Seq<Seq<char>>>, r: Result<(), Error>) -> bool {
    match r {
        Ok(()) => exists|i: int|
            slot(before, name, i) && after == before.update(
                i,
                ListView {
                    name: name,
                    ids: match ids {
                        Some(d) => before[i].ids.filter(
                            listed_pred(d, false),
                        ),
                        None => Seq::empty(),
                    },
                },
            ),
        Err(e) => e == Error::NotFound && !has_name(before, name) && after
            == before,
    }
}

/// The outcome of moving `id` from `src` to `dst` in the list `name`.
pub open spec fn reordered(before: Seq<ListView>, after: Seq<ListView>, name: Seq<char>, id: Seq<char>, src: int, dst: int, r: Result<(), Error>) -> bool {
    match r {
        Ok(()) => exists|i: int|
            slot(before, name, i) && reorder_error(before[i].ids, id, src, dst)
                is None && after == before.update(
                i,
                ListView { name: name, ids: moved(before[i].ids, src, dst) },
            ),
        Err(e) => after == before && ((!has_name(before, name) && e
            == Error::NotFound) || exists|i: int|
            slot(before, name, i) && reorder_error(before[i].ids, id, src, dst)
                == Some(e)),
    }
}

/// The outcome of ranking up `id` in the list `name`.
pub open spec fn ranked(before: Seq<ListView>, after: Seq<ListView>, name: Seq<char>, id: Seq<char>, r: Result<(), Error>) -> bool {
    match r {
        Ok(()) => exists|i: int, p: int|
            slot(before, name, i) && first_at(before[i].ids, id, p) && after
                == before.update(
                i,
                ListView { name: name, ids: ranked_up(before[i].ids, p) },
            ),
        Err(e) => e == Error::NotFound && after == before && (!has_name(
            before,
            name,
        ) || exists|i: int| slot(before, name, i) && !before[i].ids.contains(id)),
    }
}

/// Moving an entry from `src` to `dst` and then from `dst` back to `src` succeeds
/// and restores the list as it was.
pub proof fn lemma_reorder_back(
    before: Seq<ListView>,
    mid: Seq<ListView>,
    after: Seq<ListView>,
    name: Seq<char>,
    id: Seq<char>,
    src: int,
    dst: int,
    r: Result<(), Error>,
)
    requires
        names_unique(before),
        reordered(before, mid, name, id, src, dst, Ok(())),
        reordered(mid, after, name, id, dst, src, r),
    ensures
        r is Ok,
        after == before,
{
    let i = choose|i: int|
        slot(before, name, i) && reorder_error(before[i].ids, id, src, dst) is None && mid == before.update(
            i,
            ListView { name: name, ids: moved(before[i].ids, src, dst) },
        );
    let ids = before[i].ids;
    lemma_reorder_round_trip(ids, src, dst);
    assert(slot(mid, name, i));
    assert forall|j: int| slot(mid, name, j) implies j == i by {
        if j != i {
            assert(mid[j] == before[j]);
        }
    }
    assert(reorder_error(mid[i].ids, id, dst, src) is None);
    match r {
        Ok(()) => {
            let k = choose|k: int|
                slot(mid, name, k) && reorder_error(mid[k].ids, id, dst, src) is None && after == mid.update(
                    k,
                    ListView { name: name, ids: moved(mid[k].ids, dst, src) },
                );
            assert(k == i);
            assert(after =~= before);
        },
        Err(e) => {
            assert(has_name(mid, name));
        },
    }
}

/// Ranking up the entry at the front of a bucket succeeds and changes nothing.
pub proof fn lemma_rank_up_first_is_noop(
    before: Seq<ListView>,
    after: Seq<ListView>,
    name: Seq<char>,
    id: Seq<char>,
    i: int,
    r: Result<(), Error>,
)
    requires
        names_unique(before),
        slot(before, name, i),
        before[i].ids.len() > 0,
        before[i].ids[0] == id,
        ranked(before, after, name, id, r),
    ensures
        r is Ok,
        after == before,
{
    assert(before[i].ids.contains(id));
    match r {
        Ok(()) => {
            let (k, p) = choose|k: int, p: int|
                slot(before, name, k) && first_at(before[k].ids, id, p) && after == before.update(
                    k,
                    ListView { name: name, ids: ranked_up(before[k].ids, p) },
                );
            assert(k == i);
            assert(p == 0);
            assert(after =~= before);
        },
        Err(e) => {
            assert(has_name(before, name));
        },
    }
}

impl Shelf {
    pub open spec fn wf(&self) -> bool {
        names_unique(self@)
    }

    pub fn new() -> (r: Shelf)
        ensures
            r@ == Seq::<ListView>::empty(),
            r.wf(),
    {
        let r = Shelf { lists: Vec::new() };
        assert(r@ =~= Seq::<ListView>::empty());
        r
    }

    /// The slot of the list named `name`, if there is one.
    pub fn position(&self, name: &String) -> (r: Option<usize>)
        ensures
            match r {
                Some(i) => slot(self@, name@, i as int),
                None => !has_name(self@, name@),
            },
    {
        let mut i: usize = 0;
        while i < self.lists.len()
            invariant
                i <= self.lists@.len(),
                forall|j: int| 0 <= j < i ==> self@[j].name != name@,
            decreases self.lists@.len() - i,
        {
            if self.lists[i].name == *name {
                return Some(i);
            }
            i += 1;
        }
        None
    }

    /// The names of all lists, in creation order.
    pub fn names(&self) -> (r: Vec<String>)
        ensures
            id_seq(r@) == self@.map_values(|l: ListView| l.name),
    {
        let mut r: Vec<String> = Vec::new();
        let mut i: usize = 0;
        while i < self.lists.len()
            invariant
                i <= self.lists@.len(),
                id_seq(r@) == self@.take(i as int).map_values(|l: ListView| l.name),
            decreases self.lists@.len() - i,
        {
            let ghost before = r@;
            r.push(self.lists[i].name.clone());
            assert(id_seq(r@) =~= id_seq(before).push(self@[i as int].name));
            assert(id_seq(r@) =~= self@.take(i as int + 1).map_values(|l: ListView| l.name));
            i += 1;
        }
        assert(self@.take(i as int) =~= self@);
        r
    }

    /// The ids of the list named `name`.
    pub fn ids_of(&self, name: &String) -> (r: Result<Vec<String>, Error>)
        ensures
            match r {
                Ok(v) => exists|i: int| slot(self@, name@, i) && id_seq(v@) == self@[i].ids,
                Err(e) => e == Error::NotFound && !has_name(self@, name@),
            },
    {
        match self.position(name) {
            None => Err(Error::NotFound),
            Some(i) => {
                let v = self.lists[i].ids.clone();
                assert(id_seq(v@) =~= self@[i as int].ids);
                Ok(v)
            },
        }
    }

    /// Adds an empty list; fails with `Conflict` where the name is taken.
    pub fn create(&mut self, name: String) -> (r: Result<(), Error>)
        requires
            old(self).wf(),
        ensures
            final(self).wf(),
            created(old(self)@, final(self)@, name@, r),
    {
        if self.position(&name).is_some() {
            return Err(Error::Conflict);
        }
        let ghost before = self@;
        assert(forall|j: int| 0 <= j < before.len() ==> !slot(before, name@, j));
        let l = NamedList { name, ids: Vec::new() };
        assert(l@.ids =~= Seq::<Seq<char>>::empty());
        self.lists.push(l);
        assert(self@ =~= before.push(ListView { name: l@.name, ids: Seq::empty() }));
        assert forall|a: int, b: int|
            0 <= a < self@.len() && 0 <= b < self@.len() && a != b implies self@[a].name
            != self@[b].name by {
            if a < before.len() && b < before.len() {
            } else if a < before.len() {
                assert(!slot(before, self@[b].name, a));
            } else {
                assert(!slot(before, self@[a].name, b));
            }
        }
        Ok(())
    }

    /// Replaces the list in slot `i`.
    fn put(&mut self, i: usize, l: NamedList)
        requires
            i < old(self)@.len(),
        ensures
            final(self)@ == old(self)@.update(i as int, l@),
            final(self).lists@.len() == old(self).lists@.len(),
    {
        let ghost before = self@;
        self.lists.set(i, l);
        assert(self@ =~= before.update(i as int, l@));
    }

    /// Renames a list; `NotFound` where it does not exist, `Conflict` where the new name is taken.
    pub fn rename(&mut self, name: &String, new_name: String) -> (r: Result<(), Error>)
        requires
            old(self).wf(),
        ensures
            final(self).wf(),
            renamed(old(self)@, final(self)@, name@, new_name@, r),
    {
        let i = match self.position(name) {
            None => return Err(Error::NotFound),
            Some(i) => i,
        };
        if self.position(&new_name).is_some() {
            return Err(Error::Conflict);
        }
        let ids = self.lists[i].ids.clone();
        assert(id_seq(ids@) =~= self@[i as int].ids);
        assert(forall|j: int| 0 <= j < self@.len() ==> !slot(self@, new_name@, j));
        let ghost before = self@;
        self.put(i, NamedList { name: new_name, ids });
        assert forall|a: int, b: int|
            0 <= a < self@.len() && 0 <= b < self@.len() && a != b implies self@[a].name
            != self@[b].name by {
            if a != i && b != i {
                assert(before[a].name != before[b].name);
            } else if a != i {
                assert(!slot(before, self@[b].name, a));
            } else {
                assert(!slot(before, self@[a].name, b));
            }
        }
        Ok(())
    }

    /// Removes a list; `NotFound` where it does not exist.
    pub fn remove(&mut self, name: &String) -> (r: Result<(), Error>)
        requires
            old(self).wf(),
        ensures
            final(self).wf(),
            removed(old(self)@, final(self)@, name@, r),
    {
        let i = match self.position(name) {
            None => return Err(Error::NotFound),
            Some(i) => i,
        };
        let ghost before = self@;
        self.lists.remove(i);
        assert(self@ =~= before.remove(i as int));
        Ok(())
    }

    /// Appends `ids` to the list named `name`; `NotFound` where it does not exist.
    pub fn append(&mut self, name: &String, ids: &Vec<String>) -> (r: Result<(), Error>)
        requires
            old(self).wf(),
        ensures
            final(self).wf(),
            appended(old(self)@, final(self)@, name@, id_seq(ids@), r),
    {
        let i = match self.position(name) {
            None => return Err(Error::NotFound),
            Some(i) => i,
        };
        let mut v = self.lists[i].ids.clone();
        let ghost start = v@;
        let mut k: usize = 0;
        while k < ids.len()
            invariant
                k <= ids@.len(),
                id_seq(v@) == id_seq(start) + id_seq(ids@).take(k as int),
            decreases ids@.len() - k,
        {
            let ghost before = v@;
            v.push(ids[k].clone());
            assert(id_seq(v@) =~= id_seq(before).push(ids@[k as int]@));
            assert(id_seq(v@) =~= id_seq(start) + id_seq(ids@).take(k as int + 1));
            k += 1;
        }
        assert(id_seq(ids@).take(k as int) =~= id_seq(ids@));
        assert(id_seq(start) =~= self@[i as int].ids);
        self.put(i, NamedList { name: name.clone(), ids: v });
        Ok(())
    }

    /// Drops from the list named `name` every id listed in `ids`, or every id where `ids` is `None`.
    pub fn remove_ids(&mut self, name: &String, ids: Option<&Vec<String>>) -> (r: Result<(), Error>)
        requires
            old(self).wf(),
        ensures
            final(self).wf(),
            ids_removed(old(self)@, final(self)@, name@, match ids { Some(d) => Some(id_seq(d@)), None => None }, r),
    {
        let i = match self.position(name) {
            None => return Err(Error::NotFound),
            Some(i) => i,
        };
        let v = match ids {
            Some(d) => filter_ids(&self.lists[i].ids, d, false),
            None => Vec::new(),
        };
        assert(ids is None ==> id_seq(v@) =~= Seq::<Seq<char>>::empty());
        self.put(i, NamedList { name: name.clone(), ids: v });
        Ok(())
    }

    /// Keeps in every list only the ids listed in `known`.
    pub fn retain_known(&mut self, known: &Vec<String>)
        requires
            old(self).wf(),
        ensures
            final(self).wf(),
            final(self)@.len() == old(self)@.len(),
            forall|i: int|
                0 <= i < old(self)@.len() ==> #[trigger] final(self)@[i] == (ListView {
                    name: old(self)@[i].name,
                    ids: old(self)@[i].ids.filter(listed_pred(id_seq(known@), true)),
                }),
    {
        let ghost start = self@;
        let mut i: usize = 0;
        while i < self.lists.len()
            invariant
                i <= self.lists@.len(),
                self@.len() == start.len(),
                start == old(self)@,
                forall|j: int| i <= j < start.len() ==> self@[j] == start[j],
                forall|j: int|
                    0 <= j < i ==> #[trigger] self@[j] == (ListView {
                        name: start[j].name,
                        ids: start[j].ids.filter(listed_pred(id_seq(known@), true)),
                    }),
            decreases self.lists@.len() - i,
        {
            let v = filter_ids(&self.lists[i].ids, known, true);
            let n = self.lists[i].name.clone();
            self.put(i, NamedList { name: n, ids: v });
            i += 1;
        }
    }

    /// Moves the entry at `src`, which must hold `id`, to position `dst`.
    pub fn reorder(&mut self, name: &String, id: &String, src: i64, dst: i64) -> (r: Result<(), Error>)
        requires
            old(self).wf(),
        ensures
            final(self).wf(),
            reordered(old(self)@, final(self)@, name@, id@, src as int, dst as int, r),
    {
        let i = match self.position(name) {
            None => return Err(Error::NotFound),
            Some(i) => i,
        };
        let n = self.lists[i].ids.len();
        let ghost ids = self@[i as int].ids;
        assert(slot(self@, name@, i as int));
        assert(ids.len() == n);
        if src < 0 || dst < 0 || src as u64 >= n as u64 || dst as u64 >= n as u64 {
            assert(reorder_error(ids, id@, src as int, dst as int) == Some(Error::OutOfRange));
            return Err(Error::OutOfRange);
        }
        let s = src as usize;
        let d = dst as usize;
        assert(ids[s as int] == self.lists@[i as int].ids@[s as int]@);
        if !(self.lists[i].ids[s] == *id) {
            assert(reorder_error(ids, id@, src as int, dst as int) == Some(Error::NotFound));
            return Err(Error::NotFound);
        }
        let mut v = self.lists[i].ids.clone();
        let ghost start = v@;
        assert(id_seq(start) =~= self@[i as int].ids);
        let x = v.remove(s);
        v.insert(d, x);
        assert(id_seq(v@) =~= moved(id_seq(start), s as int, d as int));
        self.put(i, NamedList { name: name.clone(), ids: v });
        Ok(())
    }

    /// Moves the first entry holding `id` one position toward the front; at the front it stays.
    pub fn rank_up(&mut self, name: &String, id: &String) -> (r: Result<(), Error>)
        requires
            old(self).wf(),
        ensures
            final(self).wf(),
            ranked(old(self)@, final(self)@, name@, id@, r),
    {
        let i = match self.position(name) {
            None => return Err(Error::NotFound),
            Some(i) => i,
        };
        let ghost ids = self@[i as int].ids;
        assert(id_seq(self.lists@[i as int].ids@) == ids);
        let p = match first_position(&self.lists[i].ids, id) {
            None => return Err(Error::NotFound),
            Some(p) => p,
        };
        assert(first_at(ids, id@, p as int));
        if p == 0 {
            assert(ranked_up(ids, 0) == ids);
            assert(self@[i as int].name == name@);
            assert(self@[i as int] == ListView { name: name@, ids: ranked_up(ids, 0) });
            assert(self@.update(i as int, ListView { name: name@, ids: ranked_up(ids, 0) }) =~= self@);
            return Ok(());
        }
        let mut v = self.lists[i].ids.clone();
        let ghost start = v@;
        assert(id_seq(start) =~= ids);
        let a = v[p - 1].clone();
        let b = v[p].clone();
        v.set(p - 1, b);
        v.set(p, a);
        assert(id_seq(v@) =~= ranked_up(ids, p as int));
        self.put(i, NamedList { name: name.clone(), ids: v });
        Ok(())
    }
}

} // verus!
