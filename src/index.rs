use vstd::prelude::*;

use vstd::string::StrSliceExecFns;

use crate::collections::id_seq;

verus! {

/// One catalogued track; `id` is the content identity, `duration` is in milliseconds.
#[derive(Debug, Clone, PartialEq, Eq)]
pub struct Track {
    pub id: String,
    pub path: String,
    pub title: String,
    pub artist: String,
    pub album: String,
    pub duration: u64,
}

impl Track {
    /// A copy of this track.
    pub fn duplicate(&self) -> (r: Track)
        ensures
            r == *self,
    {
        Track {
            id: self.id.clone(),
            path: self.path.clone(),
            title: self.title.clone(),
            artist: self.artist.clone(),
            album: self.album.clone(),
            duration: self.duration,
        }
    }
}

/// What the directory walk learned of one audio file.
#[derive(Debug, Clone, PartialEq, Eq)]
pub enum Probe {
    /// The file was read; the track carries its content identity, path and tags.
    Read(Track),
    /// The file at this path could not be read.
    Unreadable(String),
}

/// `c` with ASCII upper case taken to lower case.
pub open spec fn ascii_lower(c: char) -> char {
    if 'A' <= c && c <= 'Z' {
        ((c as u8) + 32) as char
    } else {
        c
    }
}

/// `s` ends with `suffix`, ignoring ASCII case in `s`.
pub open spec fn ends_with_ci(s: Seq<char>, suffix: Seq<char>) -> bool {
    suffix.len() <= s.len() && forall|k: int|
        0 <= k < suffix.len() ==> ascii_lower(#[trigger] s[s.len() - suffix.len() + k]) == suffix[k]
}

/// The files that a directory walk takes in: those with an audio file extension.
pub open spec fn is_audio(p: Seq<char>) -> bool {
    ends_with_ci(p, ".mp3"@) || ends_with_ci(p, ".flac"@) || ends_with_ci(p, ".ogg"@) || ends_with_ci(
        p,
        ".opus"@,
    ) || ends_with_ci(p, ".wav"@) || ends_with_ci(p, ".m4a"@)
}

fn lower(c: char) -> (r: char)
    ensures
        r == ascii_lower(c),
{
    if 'A' <= c && c <= 'Z' {
        ((c as u8) + 32) as char
    } else {
        c
    }
}

fn ends_with(s: &str, suffix: &str) -> (r: bool)
    ensures
        r == ends_with_ci(s@, suffix@),
{
    let n = s.unicode_len();
    let m = suffix.unicode_len();
    if m > n {
        return false;
    }
    let mut k: usize = 0;
    while k < m
        invariant
            n == s@.len(),
            m == suffix@.len(),
            m <= n,
            k <= m,
            forall|j: int| 0 <= j < k ==> ascii_lower(#[trigger] s@[s@.len() - suffix@.len() + j]) == suffix@[j],
        decreases m - k,
    {
        if lower(s.get_char(n - m + k)) != suffix.get_char(k) {
            return false;
        }
        k += 1;
    }
    true
}

/// Whether a directory walk takes in the file at `path`.
pub fn is_audio_path(path: &String) -> (r: bool)
    ensures
        r == is_audio(path@),
{
    let p = path.as_str();
    ends_with(p, ".mp3") || ends_with(p, ".flac") || ends_with(p, ".ogg") || ends_with(p, ".opus")
        || ends_with(p, ".wav") || ends_with(p, ".m4a")
}

/// `t` moved to `p`.
pub open spec fn with_path(t: Track, p: String) -> Track {
    Track { id: t.id, path: p, title: t.title, artist: t.artist, album: t.album, duration: t.duration }
}

pub open spec fn has_id(cat: Seq<Track>, id: Seq<char>) -> bool {
    exists|i: int| 0 <= i < cat.len() && cat[i].id@ == id
}

pub open spec fn ids_unique(cat: Seq<Track>) -> bool {
    forall|i: int, j: int| 0 <= i < cat.len() && 0 <= j < cat.len() && i != j ==> cat[i].id@ != cat[j].id@
}

/// The row of `cat` holding `id`, or -1.
pub open spec fn pos_of(cat: Seq<Track>, id: Seq<char>) -> int {
    if has_id(cat, id) {
        choose|i: int| 0 <= i < cat.len() && cat[i].id@ == id
    } else {
        -1
    }
}

/// The catalog after taking in one probe: a known identity keeps its row and takes the
/// new path, an unknown one is appended, an unreadable file changes nothing.
pub open spec fn apply_probe(cat: Seq<Track>, p: Probe) -> Seq<Track> {
    match p {
        Probe::Read(t) => if has_id(cat, t.id@) {
            cat.update(pos_of(cat, t.id@), with_path(cat[pos_of(cat, t.id@)], t.path))
        } else {
            cat.push(t)
        },
        Probe::Unreadable(_) => cat,
    }
}

/// The catalog after taking in every probe in order.
pub open spec fn merged(cat: Seq<Track>, probes: Seq<Probe>) -> Seq<Track>
    decreases probes.len(),
{
    if probes.len() == 0 {
        cat
    } else {
        apply_probe(merged(cat, probes.drop_last()), probes.last())
    }
}

pub open spec fn observed(probes: Seq<Probe>, id: Seq<char>) -> bool {
    exists|k: int| 0 <= k < probes.len() && (match #[trigger] probes[k] {
        Probe::Read(t) => t.id@ == id,
        Probe::Unreadable(_) => false,
    })
}

pub open spec fn failed(probes: Seq<Probe>, path: Seq<char>) -> bool {
    exists|k: int| 0 <= k < probes.len() && (match #[trigger] probes[k] {
        Probe::Read(_) => false,
        Probe::Unreadable(p) => p@ == path,
    })
}

/// A row stays when its identity was seen again, or when its file could not be read.
pub open spec fn survives(probes: Seq<Probe>) -> spec_fn(Track) -> bool {
    |t: Track| observed(probes, t.id@) || failed(probes, t.path@)
}

/// The catalog that a scan producing `probes` leaves.
pub open spec fn reconciled(cat: Seq<Track>, probes: Seq<Probe>) -> Seq<Track> {
    merged(cat, probes).filter(survives(probes))
}

pub open spec fn read_count(probes: Seq<Probe>) -> nat
    decreases probes.len(),
{
    if probes.len() == 0 {
        0
    } else {
        read_count(probes.drop_last()) + if probes.last() is Read { 1nat } else { 0nat }
    }
}

pub open spec fn unreadable_paths(probes: Seq<Probe>) -> Seq<Seq<char>>
    decreases probes.len(),
{
    if probes.len() == 0 {
        Seq::empty()
    } else {
        match probes.last() {
            Probe::Read(_) => unreadable_paths(probes.drop_last()),
            Probe::Unreadable(p) => unreadable_paths(probes.drop_last()).push(p@),
        }
    }
}

/// Taking in one probe keeps identities unique and loses none; a read file's identity is present after.
pub proof fn lemma_apply_probe(cat: Seq<Track>, p: Probe, id: Seq<char>)
    requires
        ids_unique(cat),
    ensures
        ids_unique(apply_probe(cat, p)),
        has_id(cat, id) ==> has_id(apply_probe(cat, p), id),
        (match p {
            Probe::Read(t) => t.id@ == id,
            Probe::Unreadable(_) => false,
        }) ==> has_id(apply_probe(cat, p), id),
{
    let n = apply_probe(cat, p);
    match p {
        Probe::Read(t) => {
            if has_id(cat, t.id@) {
                let i = pos_of(cat, t.id@);
                assert(0 <= i < cat.len());
                assert forall|a: int| 0 <= a < n.len() implies #[trigger] n[a].id@ == cat[a].id@ by {}
                assert(n.len() == cat.len());
                if has_id(cat, id) {
                    let j = choose|j: int| 0 <= j < cat.len() && cat[j].id@ == id;
                    assert(n[j].id@ == id);
                }
                if t.id@ == id {
                    assert(n[i].id@ == id);
                }
            } else {
                assert(n[cat.len() as int].id@ == t.id@);
                assert forall|a: int, b: int|
                    0 <= a < n.len() && 0 <= b < n.len() && a != b implies n[a].id@ != n[b].id@ by {
                    if a < cat.len() && b < cat.len() {
                        assert(n[a] == cat[a] && n[b] == cat[b]);
                    } else if a < cat.len() {
                        assert(n[a] == cat[a]);
                    } else {
                        assert(n[b] == cat[b]);
                    }
                }
                if has_id(cat, id) {
                    let j = choose|j: int| 0 <= j < cat.len() && cat[j].id@ == id;
                    assert(n[j] == cat[j]);
                }
            }
        },
        Probe::Unreadable(_) => {},
    }
}

/// Merging keeps identities unique, and every identity that a probe read is present after.
pub proof fn lemma_merged(cat: Seq<Track>, probes: Seq<Probe>, id: Seq<char>)
    requires
        ids_unique(cat),
    ensures
        ids_unique(merged(cat, probes)),
        observed(probes, id) ==> has_id(merged(cat, probes), id),
    decreases probes.len(),
{
    if probes.len() > 0 {
        let d = probes.drop_last();
        lemma_merged(cat, d, id);
        lemma_apply_probe(merged(cat, d), probes.last(), id);
        if observed(probes, id) {
            let k = choose|k: int| 0 <= k < probes.len() && (match #[trigger] probes[k] {
                Probe::Read(t) => t.id@ == id,
                Probe::Unreadable(_) => false,
            });
            if k < d.len() {
                assert(d[k] == probes[k]);
            }
        }
    }
}

/// Filtering keeps identities unique, and keeps only rows of `s`.
pub proof fn lemma_filter_unique(s: Seq<Track>, pred: spec_fn(Track) -> bool)
    requires
        ids_unique(s),
    ensures
        ids_unique(s.filter(pred)),
        forall|a: int| 0 <= a < s.filter(pred).len() ==> s.contains(#[trigger] s.filter(pred)[a]),
    decreases s.len(),
{
    reveal(Seq::filter);
    if s.len() > 0 {
        let d = s.drop_last();
        assert(ids_unique(d));
        lemma_filter_unique(d, pred);
        let f = d.filter(pred);
        assert forall|a: int| 0 <= a < f.len() implies s.contains(#[trigger] f[a]) by {
            let j = choose|j: int| 0 <= j < d.len() && d[j] == f[a];
            assert(s[j] == f[a]);
        }
        assert forall|a: int| 0 <= a < f.len() implies #[trigger] f[a].id@ != s.last().id@ by {
            let j = choose|j: int| 0 <= j < d.len() && d[j] == f[a];
            assert(s[j] == f[a]);
        }
        if pred(s.last()) {
            let g = f.push(s.last());
            assert(s.contains(s.last()));
            assert forall|a: int| 0 <= a < g.len() implies s.contains(#[trigger] g[a]) by {
                if a < f.len() {
                    assert(g[a] == f[a]);
                }
            }
            assert forall|a: int, b: int|
                0 <= a < g.len() && 0 <= b < g.len() && a != b implies g[a].id@ != g[b].id@ by {
                if a < f.len() && b < f.len() {
                    assert(g[a] == f[a] && g[b] == f[b]);
                } else if a < f.len() {
                    assert(g[a] == f[a]);
                } else {
                    assert(g[b] == f[b]);
                }
            }
        }
    }
}

/// Files with identical content share one row: where a scan read any copy of `id`,
/// the catalog it leaves has a row with that identity, and only one.
pub proof fn lemma_identical_content_one_row(cat: Seq<Track>, probes: Seq<Probe>, id: Seq<char>)
    requires
        ids_unique(cat),
        observed(probes, id),
    ensures
        has_id(reconciled(cat, probes), id),
        ids_unique(reconciled(cat, probes)),
{
    let m = merged(cat, probes);
    lemma_merged(cat, probes, id);
    lemma_filter_unique(m, survives(probes));
    let j = choose|j: int| 0 <= j < m.len() && m[j].id@ == id;
    m.lemma_filter_contains(survives(probes), j);
    let f = m.filter(survives(probes));
    let a = choose|a: int| 0 <= a < f.len() && f[a] == m[j];
    assert(f[a].id@ == id);
}

/// A copy of every track of `v`.
pub fn copy_tracks(v: &Vec<Track>) -> (r: Vec<Track>)
    ensures
        r@ == v@,
{
    let mut r: Vec<Track> = Vec::new();
    let mut i: usize = 0;
    while i < v.len()
        invariant
            i <= v@.len(),
            r@ == v@.take(i as int),
        decreases v@.len() - i,
    {
        r.push(v[i].duplicate());
        assert(r@ =~= v@.take(i as int + 1));
        i += 1;
    }
    assert(v@.take(i as int) =~= v@);
    r
}

/// Returns whether some probe read a file with identity `id`.
pub fn is_observed(probes: &Vec<Probe>, id: &String) -> (r: bool)
    ensures
        r == observed(probes@, id@),
{
    let mut k: usize = 0;
    while k < probes.len()
        invariant
            k <= probes@.len(),
            forall|j: int| 0 <= j < k ==> !(match #[trigger] probes@[j] {
                Probe::Read(t) => t.id@ == id@,
                Probe::Unreadable(_) => false,
            }),
        decreases probes@.len() - k,
    {
        match &probes[k] {
            Probe::Read(t) => {
                if t.id == *id {
                    return true;
                }
            },
            Probe::Unreadable(_) => {},
        }
        k += 1;
    }
    false
}

/// Returns whether some probe could not read the file at `path`.
pub fn is_failed(probes: &Vec<Probe>, path: &String) -> (r: bool)
    ensures
        r == failed(probes@, path@),
{
    let mut k: usize = 0;
    while k < probes.len()
        invariant
            k <= probes@.len(),
            forall|j: int| 0 <= j < k ==> !(match #[trigger] probes@[j] {
                Probe::Read(_) => false,
                Probe::Unreadable(p) => p@ == path@,
            }),
        decreases probes@.len() - k,
    {
        match &probes[k] {
            Probe::Read(_) => {},
            Probe::Unreadable(p) => {
                if *p == *path {
                    return true;
                }
            },
        }
        k += 1;
    }
    false
}

/// The path of the last probe that read identity `id`, if any did.
pub open spec fn last_path(probes: Seq<Probe>, id: Seq<char>) -> Option<Seq<char>>
    decreases probes.len(),
{
    if probes.len() == 0 {
        None
    } else {
        match probes.last() {
            Probe::Read(t) => if t.id@ == id {
                Some(t.path@)
            } else {
                last_path(probes.drop_last(), id)
            },
            Probe::Unreadable(_) => last_path(probes.drop_last(), id),
        }
    }
}

pub open spec fn probe_path(p: Probe) -> Seq<char> {
    match p {
        Probe::Read(t) => t.path@,
        Probe::Unreadable(q) => q@,
    }
}

/// No two probes are for the same path, as in any walk of a directory tree.
pub open spec fn paths_distinct(probes: Seq<Probe>) -> bool {
    forall|i: int, j: int|
        0 <= i < probes.len() && 0 <= j < probes.len() && i != j ==> probe_path(probes[i]) != probe_path(
            probes[j],
        )
}

proof fn lemma_last_path(probes: Seq<Probe>, id: Seq<char>)
    ensures
        last_path(probes, id) is None ==> !observed(probes, id),
        last_path(probes, id) is Some ==> exists|k: int|
            0 <= k < probes.len() && #[trigger] probes[k] is Read && probes[k]->Read_0.id@ == id
                && probes[k]->Read_0.path@ == last_path(probes, id)->Some_0,
    decreases probes.len(),
{
    if probes.len() > 0 {
        let d = probes.drop_last();
        lemma_last_path(d, id);
        let n = probes.len() - 1;
        match probes.last() {
            Probe::Read(t) => {
                if t.id@ == id {
                    assert(probes[n] is Read);
                } else {
                    if last_path(d, id) is Some {
                        let k = choose|k: int|
                            0 <= k < d.len() && #[trigger] d[k] is Read && d[k]->Read_0.id@ == id
                                && d[k]->Read_0.path@ == last_path(d, id)->Some_0;
                        assert(probes[k] == d[k]);
                    } else {
                        assert forall|k: int| 0 <= k < probes.len() implies !(match #[trigger] probes[k] {
                            Probe::Read(t) => t.id@ == id,
                            Probe::Unreadable(_) => false,
                        }) by {
                            if k < n {
                                assert(probes[k] == d[k]);
                            }
                        }
                    }
                }
            },
            Probe::Unreadable(_) => {
                if last_path(d, id) is Some {
                    let k = choose|k: int|
                        0 <= k < d.len() && #[trigger] d[k] is Read && d[k]->Read_0.id@ == id
                            && d[k]->Read_0.path@ == last_path(d, id)->Some_0;
                    assert(probes[k] == d[k]);
                } else {
                    assert forall|k: int| 0 <= k < probes.len() implies !(match #[trigger] probes[k] {
                        Probe::Read(t) => t.id@ == id,
                        Probe::Unreadable(_) => false,
                    }) by {
                        if k < n {
                            assert(probes[k] == d[k]);
                        }
                    }
                }
            },
        }
    }
}

/// After merging, a row whose identity some probe read sits at the last such probe's path.
proof fn lemma_merged_paths(cat: Seq<Track>, probes: Seq<Probe>)
    requires
        ids_unique(cat),
    ensures
        forall|i: int|
            0 <= i < merged(cat, probes).len() && (#[trigger] last_path(probes, merged(cat, probes)[i].id@)) is Some
                ==> merged(cat, probes)[i].path@ == last_path(probes, merged(cat, probes)[i].id@)->Some_0,
    decreases probes.len(),
{
    if probes.len() > 0 {
        let d = probes.drop_last();
        lemma_merged_paths(cat, d);
        lemma_merged(cat, d, Seq::empty());
        let m = merged(cat, d);
        let n = merged(cat, probes);
        match probes.last() {
            Probe::Read(t) => {
                if has_id(m, t.id@) {
                    let j = pos_of(m, t.id@);
                    assert(0 <= j < m.len() && m[j].id@ == t.id@);
                    assert(n == m.update(j, with_path(m[j], t.path)));
                    assert forall|i: int|
                        0 <= i < n.len() && (#[trigger] last_path(probes, n[i].id@)) is Some implies n[i].path@
                        == last_path(probes, n[i].id@)->Some_0 by {
                        if i != j {
                            assert(n[i] == m[i]);
                            assert(m[i].id@ != m[j].id@);
                            assert(last_path(probes, m[i].id@) == last_path(d, m[i].id@));
                        } else {
                            assert(n[j].id@ == t.id@);
                            assert(last_path(probes, t.id@) == Some(t.path@));
                        }
                    }
                } else {
                    assert(n == m.push(t));
                    assert forall|i: int|
                        0 <= i < n.len() && (#[trigger] last_path(probes, n[i].id@)) is Some implies n[i].path@
                        == last_path(probes, n[i].id@)->Some_0 by {
                        if i < m.len() {
                            assert(n[i] == m[i]);
                            assert(m[i].id@ != t.id@);
                            assert(last_path(probes, m[i].id@) == last_path(d, m[i].id@));
                        } else {
                            assert(n[i] == t);
                            assert(last_path(probes, t.id@) == Some(t.path@));
                        }
                    }
                }
            },
            Probe::Unreadable(_) => {
                assert forall|i: int|
                    0 <= i < n.len() && (#[trigger] last_path(probes, n[i].id@)) is Some implies n[i].path@
                    == last_path(probes, n[i].id@)->Some_0 by {
                    assert(last_path(probes, n[i].id@) == last_path(d, m[i].id@));
                }
            },
        }
    }
}

/// In a walk that lists each path once, the row at a read file's path, if any, has that
/// file's identity: copies with identical content leave no row but the shared one.
pub proof fn lemma_read_path_holds_its_identity(cat: Seq<Track>, probes: Seq<Probe>, k: int, i: int)
    requires
        ids_unique(cat),
        paths_distinct(probes),
        0 <= k < probes.len(),
        probes[k] is Read,
        0 <= i < reconciled(cat, probes).len(),
        reconciled(cat, probes)[i].path@ == probes[k]->Read_0.path@,
    ensures
        reconciled(cat, probes)[i].id@ == probes[k]->Read_0.id@,
{
    let m = merged(cat, probes);
    let r = reconciled(cat, probes)[i];
    lemma_merged(cat, probes, Seq::empty());
    lemma_filter_unique(m, survives(probes));
    m.lemma_filter_pred(survives(probes), i);
    assert(m.contains(r));
    let j = choose|j: int| 0 <= j < m.len() && m[j] == r;
    lemma_merged_paths(cat, probes);
    lemma_last_path(probes, r.id@);
    if last_path(probes, r.id@) is Some {
        assert(r.path@ == last_path(probes, m[j].id@)->Some_0);
        let q = choose|q: int|
            0 <= q < probes.len() && #[trigger] probes[q] is Read && probes[q]->Read_0.id@ == r.id@
                && probes[q]->Read_0.path@ == last_path(probes, r.id@)->Some_0;
        assert(probe_path(probes[q]) == probe_path(probes[k]));
    } else {
        assert(survives(probes)(r));
        let q = choose|q: int| 0 <= q < probes.len() && (match #[trigger] probes[q] {
            Probe::Read(_) => false,
            Probe::Unreadable(p) => p@ == r.path@,
        });
        assert(probe_path(probes[q]) == probe_path(probes[k]));
    }
}

/// After merging, a row whose identity no probe read is a row of the catalog as it was.
proof fn lemma_merged_unobserved(cat: Seq<Track>, probes: Seq<Probe>)
    requires
        ids_unique(cat),
    ensures
        forall|i: int|
            0 <= i < merged(cat, probes).len() && !observed(probes, #[trigger] merged(cat, probes)[i].id@)
                ==> cat.contains(merged(cat, probes)[i]),
    decreases probes.len(),
{
    if probes.len() > 0 {
        let d = probes.drop_last();
        lemma_merged_unobserved(cat, d);
        lemma_merged(cat, d, Seq::empty());
        let m = merged(cat, d);
        let n = merged(cat, probes);
        assert(n == apply_probe(m, probes.last()));
        assert forall|i: int| 0 <= i < n.len() && !observed(probes, #[trigger] n[i].id@) implies cat.contains(n[i]) by {
            let x = n[i].id@;
            if observed(d, x) {
                let k = choose|k: int| 0 <= k < d.len() && (match #[trigger] d[k] {
                    Probe::Read(t) => t.id@ == x,
                    Probe::Unreadable(_) => false,
                });
                assert(probes[k] == d[k]);
            }
            let last = probes.len() - 1;
            match probes.last() {
                Probe::Read(t) => {
                    assert(probes[last] == probes.last());
                    assert(t.id@ != x);
                    if has_id(m, t.id@) {
                        let j = pos_of(m, t.id@);
                        assert(0 <= j < m.len() && m[j].id@ == t.id@);
                        assert(i != j);
                        assert(n[i] == m[i]);
                    } else {
                        assert(i < m.len());
                        assert(n[i] == m[i]);
                    }
                },
                Probe::Unreadable(_) => {
                    assert(n[i] == m[i]);
                },
            }
        }
    }
}

/// A scan removes an identity that no probe read and whose rows' files were all readable;
/// the cascade then drops it from every list.
pub proof fn lemma_unseen_identity_leaves(cat: Seq<Track>, probes: Seq<Probe>, id: Seq<char>)
    requires
        ids_unique(cat),
        !observed(probes, id),
        forall|i: int| 0 <= i < cat.len() && cat[i].id@ == id ==> !failed(probes, #[trigger] cat[i].path@),
    ensures
        !has_id(reconciled(cat, probes), id),
{
    let m = merged(cat, probes);
    let f = reconciled(cat, probes);
    lemma_merged(cat, probes, Seq::empty());
    lemma_filter_unique(m, survives(probes));
    lemma_merged_unobserved(cat, probes);
    if has_id(f, id) {
        let a = choose|a: int| 0 <= a < f.len() && f[a].id@ == id;
        m.lemma_filter_pred(survives(probes), a);
        assert(m.contains(f[a]));
        let j = choose|j: int| 0 <= j < m.len() && m[j] == f[a];
        assert(cat.contains(m[j]));
        let c = choose|c: int| 0 <= c < cat.len() && cat[c] == m[j];
        assert(!failed(probes, cat[c].path@));
    }
}

/// A first scan catalogs exactly the identities of the files it read; unreadable files
/// add nothing.
pub proof fn lemma_first_scan_holds_read_files(probes: Seq<Probe>, id: Seq<char>)
    ensures
        has_id(reconciled(Seq::empty(), probes), id) <==> observed(probes, id),
{
    let cat = Seq::<Track>::empty();
    let m = merged(cat, probes);
    let f = reconciled(cat, probes);
    if observed(probes, id) {
        lemma_identical_content_one_row(cat, probes, id);
    } else {
        lemma_merged(cat, probes, Seq::empty());
        lemma_filter_unique(m, survives(probes));
        lemma_merged_unobserved(cat, probes);
        if has_id(f, id) {
            let a = choose|a: int| 0 <= a < f.len() && f[a].id@ == id;
            let j = choose|j: int| 0 <= j < m.len() && m[j] == f[a];
            assert(cat.contains(m[j]));
        }
    }
}

/// What a scan reports: how many files were indexed, and the files it could not read.
#[derive(Debug, Clone, PartialEq, Eq)]
pub struct ScanReport {
    pub indexed: usize,
    pub failed: Vec<String>,
}

/// The catalog of known tracks, one row per content identity.
pub struct Index {
    pub tracks: Vec<Track>,
}

impl Index {
    pub open spec fn wf(&self) -> bool {
        ids_unique(self.tracks@)
    }

    pub fn new() -> (r: Index)
        ensures
            r.tracks@ == Seq::<Track>::empty(),
            r.wf(),
    {
        Index { tracks: Vec::new() }
    }

    /// The row holding `id`, if any.
    pub fn find(&self, id: &String) -> (r: Option<usize>)
        requires
            self.wf(),
        ensures
            match r {
                Some(i) => i == pos_of(self.tracks@, id@) && 0 <= i < self.tracks@.len()
                    && self.tracks@[i as int].id@ == id@,
                None => !has_id(self.tracks@, id@) && pos_of(self.tracks@, id@) == -1,
            },
    {
        let mut i: usize = 0;
        while i < self.tracks.len()
            invariant
                i <= self.tracks@.len(),
                self.wf(),
                forall|j: int| 0 <= j < i ==> self.tracks@[j].id@ != id@,
            decreases self.tracks@.len() - i,
        {
            if self.tracks[i].id == *id {
                assert(self.tracks@[i as int].id@ == id@);
                assert(has_id(self.tracks@, id@));
                let ghost c = pos_of(self.tracks@, id@);
                assert(self.tracks@[c].id@ == id@);
                assert(0 <= c < self.tracks@.len());
                assert(c == i as int);
                return Some(i);
            }
            i += 1;
        }
        None
    }

    /// The identities of all rows, in catalog order.
    pub fn ids(&self) -> (r: Vec<String>)
        ensures
            id_seq(r@) == self.tracks@.map_values(|t: Track| t.id@),
    {
        let mut r: Vec<String> = Vec::new();
        let mut i: usize = 0;
        while i < self.tracks.len()
            invariant
                i <= self.tracks@.len(),
                id_seq(r@) == self.tracks@.take(i as int).map_values(|t: Track| t.id@),
            decreases self.tracks@.len() - i,
        {
            let ghost before = r@;
            r.push(self.tracks[i].id.clone());
            assert(id_seq(r@) =~= id_seq(before).push(self.tracks@[i as int].id@));
            assert(id_seq(r@) =~= self.tracks@.take(i as int + 1).map_values(|t: Track| t.id@));
            i += 1;
        }
        assert(self.tracks@.take(i as int) =~= self.tracks@);
        r
    }

    /// Takes in one scan's probes: known identities take their new path, new ones are
    /// appended, and rows whose identity was not seen again and whose file was readable
    /// are dropped. Unreadable files are reported, never fatal.
    pub fn scan(&mut self, probes: &Vec<Probe>) -> (r: ScanReport)
        requires
            old(self).wf(),
        ensures
            final(self).wf(),
            final(self).tracks@ == reconciled(old(self).tracks@, probes@),
            r.indexed == read_count(probes@),
            id_seq(r.failed@) == unreadable_paths(probes@),
    {
        let ghost start = self.tracks@;
        let mut indexed: usize = 0;
        let mut failed_paths: Vec<String> = Vec::new();
        let mut k: usize = 0;
        while k < probes.len()
            invariant
                k <= probes@.len(),
                ids_unique(start),
                self.tracks@ == merged(start, probes@.take(k as int)),
                indexed as nat == read_count(probes@.take(k as int)),
                indexed <= k,
                id_seq(failed_paths@) == unreadable_paths(probes@.take(k as int)),
            decreases probes@.len() - k,
        {
            let ghost before = self.tracks@;
            let ghost before_failed = failed_paths@;
            proof {
                lemma_merged(start, probes@.take(k as int), Seq::empty());
            }
            let ghost t = probes@.take(k as int + 1);
            assert(t.drop_last() =~= probes@.take(k as int));
            assert(t.last() == probes@[k as int]);
            match &probes[k] {
                Probe::Read(t) => {
                    match self.find(&t.id) {
                        Some(i) => {
                            let mut u = self.tracks[i].duplicate();
                            u.path = t.path.clone();
                            self.tracks.set(i, u);
                        },
                        None => {
                            self.tracks.push(t.duplicate());
                        },
                    }
                    indexed += 1;
                },
                Probe::Unreadable(p) => {
                    failed_paths.push(p.clone());
                    assert(id_seq(failed_paths@) =~= id_seq(before_failed).push(p@));
                },
            }
            k += 1;
        }
        assert(probes@.take(k as int) =~= probes@);
        let ghost m = self.tracks@;
        proof {
            lemma_merged(start, probes@, Seq::empty());
            lemma_filter_unique(m, survives(probes@));
        }
        let mut kept: Vec<Track> = Vec::new();
        let mut i: usize = 0;
        while i < self.tracks.len()
            invariant
                i <= self.tracks@.len(),
                self.tracks@ == m,
                kept@ == m.take(i as int).filter(survives(probes@)),
            decreases m.len() - i,
        {
            let ghost tk = m.take(i as int + 1);
            assert(tk.drop_last() =~= m.take(i as int));
            assert(tk.last() == m[i as int]);
            let keep = is_observed(probes, &self.tracks[i].id) || is_failed(probes, &self.tracks[i].path);
            if keep {
                kept.push(self.tracks[i].duplicate());
            }
            proof {
                reveal(Seq::filter);
            }
            i += 1;
        }
        assert(m.take(i as int) =~= m);
        self.tracks = kept;
        ScanReport { indexed, failed: failed_paths }
    }
}

} // verus!
