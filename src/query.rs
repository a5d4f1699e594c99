use vstd::prelude::*;

use crate::collections::{contains_id, has_name, id_seq, slot};
use crate::error::Error;
use crate::index::Track;
use crate::library::Library;

verus! {

/// Optional predicates over tracks; those that are set must all hold.
pub struct GetTracksFilters {
    pub artist: Option<String>,
    pub album: Option<String>,
    /// Only members of the emotion bucket with this name.
    pub emotion: Option<String>,
}

/// An album: the grouping of tracks by artist and album title.
#[derive(Debug, Clone, PartialEq, Eq)]
pub struct Album {
    pub name: String,
    pub artist: String,
}

pub open spec fn field_ok(f: Option<String>, v: Seq<char>) -> bool {
    match f {
        Some(x) => x@ == v,
        None => true,
    }
}

/// The tracks that `f` selects, given the members of its emotion bucket where it names one.
pub open spec fn selects(f: GetTracksFilters, members: Seq<Seq<char>>) -> spec_fn(Track) -> bool {
    |t: Track|
        field_ok(f.artist, t.artist@) && field_ok(f.album, t.album@) && (f.emotion is None
            || members.contains(t.id@))
}

/// The distinct (artist, album) pairs of `cat`, in order of first appearance.
pub open spec fn albums_of(cat: Seq<Track>) -> Seq<(Seq<char>, Seq<char>)>
    decreases cat.len(),
{
    if cat.len() == 0 {
        Seq::empty()
    } else {
        let r = albums_of(cat.drop_last());
        let k = (cat.last().artist@, cat.last().album@);
        if r.contains(k) {
            r
        } else {
            r.push(k)
        }
    }
}

/// The distinct artists of `cat`, in order of first appearance.
pub open spec fn artists_of(cat: Seq<Track>) -> Seq<Seq<char>>
    decreases cat.len(),
{
    if cat.len() == 0 {
        Seq::empty()
    } else {
        let r = artists_of(cat.drop_last());
        if r.contains(cat.last().artist@) {
            r
        } else {
            r.push(cat.last().artist@)
        }
    }
}

pub open spec fn album_keys(v: Seq<Album>) -> Seq<(Seq<char>, Seq<char>)> {
    v.map_values(|a: Album| (a.artist@, a.name@))
}

fn option_matches(f: &Option<String>, v: &String) -> (r: bool)
    ensures
        r == field_ok(*f, v@),
{
    match f {
        Some(x) => *x == *v,
        None => true,
    }
}

fn has_album(v: &Vec<Album>, artist: &String, name: &String) -> (r: bool)
    ensures
        r == album_keys(v@).contains((artist@, name@)),
{
    let mut i: usize = 0;
    while i < v.len()
        invariant
            i <= v@.len(),
            forall|j: int| 0 <= j < i ==> album_keys(v@)[j] != (artist@, name@),
        decreases v@.len() - i,
    {
        if v[i].artist == *artist && v[i].name == *name {
            assert(album_keys(v@)[i as int] == (artist@, name@));
            return true;
        }
        i += 1;
    }
    false
}

impl Library {
    /// The catalog tracks that `filters` selects, in catalog order; `NotFound` where it
    /// names an emotion bucket that does not exist.
    pub fn get_tracks(&self, filters: &GetTracksFilters) -> (r: Result<Vec<Track>, Error>)
        requires
            self.wf(),
        ensures
            match filters.emotion {
                None => r is Ok && r->Ok_0@ == self.index.tracks@.filter(
                    selects(*filters, Seq::empty()),
                ),
                Some(e) => if has_name(self.emotions@, e@) {
                    r is Ok && exists|i: int|
                        slot(self.emotions@, e@, i) && r->Ok_0@ == self.index.tracks@.filter(
                            selects(*filters, self.emotions@[i].ids),
                        )
                } else {
                    r == Err::<Vec<Track>, Error>(Error::NotFound)
                },
            },
    {
        let members = match &filters.emotion {
            None => Vec::new(),
            Some(e) => match self.emotions.ids_of(e) {
                Ok(v) => v,
                Err(x) => return Err(x),
            },
        };
        let ghost m = id_seq(members@);
        let ghost cat = self.index.tracks@;
        let ghost pred = selects(*filters, m);
        assert(filters.emotion is None ==> m =~= Seq::<Seq<char>>::empty());
        let mut r: Vec<Track> = Vec::new();
        let mut i: usize = 0;
        while i < self.index.tracks.len()
            invariant
                i <= cat.len(),
                cat == self.index.tracks@,
                m == id_seq(members@),
                pred == selects(*filters, m),
                r@ == cat.take(i as int).filter(pred),
            decreases cat.len() - i,
        {
            let t = &self.index.tracks[i];
            let ghost tk = cat.take(i as int + 1);
            assert(tk.drop_last() =~= cat.take(i as int));
            assert(tk.last() == cat[i as int]);
            let ok = option_matches(&filters.artist, &t.artist) && option_matches(&filters.album, &t.album)
                && (filters.emotion.is_none() || contains_id(&members, &t.id));
            assert(ok == pred(cat[i as int]));
            if ok {
                r.push(t.duplicate());
            }
            proof {
                reveal(Seq::filter);
            }
            i += 1;
        }
        assert(cat.take(i as int) =~= cat);
        Ok(r)
    }

    /// The albums of the catalog, each once, in order of first appearance.
    pub fn get_albums(&self) -> (r: Vec<Album>)
        ensures
            album_keys(r@) == albums_of(self.index.tracks@),
    {
        let ghost cat = self.index.tracks@;
        let mut r: Vec<Album> = Vec::new();
        let mut i: usize = 0;
        while i < self.index.tracks.len()
            invariant
                i <= cat.len(),
                cat == self.index.tracks@,
                album_keys(r@) == albums_of(cat.take(i as int)),
            decreases cat.len() - i,
        {
            let t = &self.index.tracks[i];
            let ghost tk = cat.take(i as int + 1);
            assert(tk.drop_last() =~= cat.take(i as int));
            assert(tk.last() == cat[i as int]);
            if !has_album(&r, &t.artist, &t.album) {
                let ghost before = r@;
                r.push(Album { name: t.album.clone(), artist: t.artist.clone() });
                assert(album_keys(r@) =~= album_keys(before).push((t.artist@, t.album@)));
            }
            i += 1;
        }
        assert(cat.take(i as int) =~= cat);
        r
    }

    /// The artists of the catalog, each once, in order of first appearance.
    pub fn get_artists(&self) -> (r: Vec<String>)
        ensures
            id_seq(r@) == artists_of(self.index.tracks@),
    {
        let ghost cat = self.index.tracks@;
        let mut r: Vec<String> = Vec::new();
        let mut i: usize = 0;
        while i < self.index.tracks.len()
            invariant
                i <= cat.len(),
                cat == self.index.tracks@,
                id_seq(r@) == artists_of(cat.take(i as int)),
            decreases cat.len() - i,
        {
            let t = &self.index.tracks[i];
            let ghost tk = cat.take(i as int + 1);
            assert(tk.drop_last() =~= cat.take(i as int));
            assert(tk.last() == cat[i as int]);
            if !contains_id(&r, &t.artist) {
                let ghost before = r@;
                r.push(t.artist.clone());
                assert(id_seq(r@) =~= id_seq(before).push(t.artist@));
            }
            i += 1;
        }
        assert(cat.take(i as int) =~= cat);
        r
    }
}

} // verus!
