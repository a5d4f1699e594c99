use vstd::prelude::*;

pub mod collections;
pub mod error;
pub mod identity;
pub mod index;
pub mod library;
pub mod player;
pub mod query;

use crate::collections::{
    appended, created, has_name, id_seq, ids_removed, ranked, removed, renamed, reordered, slot, ListView,
};
use crate::error::Error;
use crate::index::{copy_tracks, reconciled, read_count, unreadable_paths, Probe, ScanReport, Track};
use crate::library::{distinct, ids_known, pruned, tracks_for, Library};
use crate::player::{
    goto_step, pause_step, relocated, play_step, seek_step, set_current_step, set_volume_step,
    stop_step, track_finished_step, Command, PlayState, Player, MAX_VOLUME,
};
use crate::query::{album_keys, albums_of, artists_of, selects, Album, GetTracksFilters};

verus! {

/// The engine's state: the player, the library, and the commands not yet handed to the
/// decode/output thread.
pub struct AppState {
    pub player: Player,
    pub db: Library,
    pub commands: Vec<Command>,
}

impl AppState {
    pub open spec fn wf(&self) -> bool {
        self.player.wf() && self.db.wf()
    }

    pub fn new() -> (r: AppState)
        ensures
            r.wf(),
            r.player.queue@.len() == 0,
            r.player.arbitrary_tracks@.len() == 0,
            r.player.state == PlayState::Stopped,
            r.player.volume == MAX_VOLUME,
            r.db.index.tracks@.len() == 0,
            r.db.playlists@.len() == 0,
            r.db.emotions@.len() == 0,
            r.db.dirs@.len() == 0,
            r.commands@.len() == 0,
    {
        AppState { player: Player::new(), db: Library::new(), commands: Vec::new() }
    }

    /// Hands over the pending commands, oldest first.
    pub fn take_commands(&mut self) -> (r: Vec<Command>)
        ensures
            r@ == old(self).commands@,
            final(self).commands@.len() == 0,
            final(self).player == old(self).player,
            final(self).db == old(self).db,
    {
        let mut r: Vec<Command> = Vec::new();
        std::mem::swap(&mut r, &mut self.commands);
        r
    }
}

/// A player step that ended in `out` is reported as `r`, its command queued.
pub open spec fn dispatched(
    before: Seq<Command>,
    after: Seq<Command>,
    out: Result<Command, Error>,
    r: Result<(), Error>,
) -> bool {
    match out {
        Ok(c) => r is Ok && after == before.push(c),
        Err(e) => r == Err::<(), Error>(e) && after == before,
    }
}

pub open spec fn has_path(s: Seq<Track>, p: Seq<char>) -> bool {
    exists|i: int| 0 <= i < s.len() && s[i].path@ == p
}

/// `t` is a track known only by its path `p`: no content identity, no tags, duration 0.
pub open spec fn bare_track(p: String, t: Track) -> bool {
    &&& t.path == p
    &&& t.id@ == Seq::<char>::empty()
    &&& t.title@ == Seq::<char>::empty()
    &&& t.artist@ == Seq::<char>::empty()
    &&& t.album@ == Seq::<char>::empty()
    &&& t.duration == 0
}

/// `t` is what the path `p` names: the first catalog row at `p`, else the first
/// arbitrary track at `p`, else a bare track for `p`.
pub open spec fn resolves(cat: Seq<Track>, extra: Seq<Track>, p: String, t: Track) -> bool {
    if has_path(cat, p@) {
        exists|i: int|
            0 <= i < cat.len() && cat[i].path@ == p@ && t == cat[i] && forall|j: int|
                0 <= j < i ==> cat[j].path@ != p@
    } else if has_path(extra, p@) {
        exists|i: int|
            0 <= i < extra.len() && extra[i].path@ == p@ && t == extra[i] && forall|j: int|
                0 <= j < i ==> extra[j].path@ != p@
    } else {
        bare_track(p, t)
    }
}

/// Accepts the tracks whose path neither the catalog nor the arbitrary tracks hold.
pub open spec fn unknown_path(cat: Seq<Track>, extra: Seq<Track>) -> spec_fn(Track) -> bool {
    |t: Track| !has_path(cat, t.path@) && !has_path(extra, t.path@)
}

fn find_path(s: &Vec<Track>, p: &String) -> (r: Option<usize>)
    ensures
        match r {
            Some(i) => i < s@.len() && s@[i as int].path@ == p@ && forall|j: int|
                0 <= j < i ==> s@[j].path@ != p@,
            None => !has_path(s@, p@),
        },
{
    let mut i: usize = 0;
    while i < s.len()
        invariant
            i <= s@.len(),
            forall|j: int| 0 <= j < i ==> s@[j].path@ != p@,
        decreases s@.len() - i,
    {
        if s[i].path == *p {
            return Some(i);
        }
        i += 1;
    }
    None
}

/// The tracks that `paths` name, and, in order, the bare tracks made for unknown paths.
fn resolve_paths(cat: &Vec<Track>, extra: &Vec<Track>, paths: &Vec<String>) -> (r: (Vec<Track>, Vec<Track>))
    ensures
        r.0@.len() == paths@.len(),
        forall|k: int| 0 <= k < r.0@.len() ==> resolves(cat@, extra@, paths@[k], #[trigger] r.0@[k]),
        r.1@ == r.0@.filter(unknown_path(cat@, extra@)),
{
    let mut v: Vec<Track> = Vec::new();
    let mut added: Vec<Track> = Vec::new();
    let mut k: usize = 0;
    while k < paths.len()
        invariant
            k <= paths@.len(),
            v@.len() == k,
            forall|j: int| 0 <= j < k ==> resolves(cat@, extra@, paths@[j], #[trigger] v@[j]),
            added@ == v@.filter(unknown_path(cat@, extra@)),
        decreases paths@.len() - k,
    {
        let ghost before = v@;
        let t = match find_path(cat, &paths[k]) {
            Some(i) => cat[i].duplicate(),
            None => match find_path(extra, &paths[k]) {
                Some(i) => extra[i].duplicate(),
                None => {
                    let b = Track {
                        id: String::new(),
                        path: paths[k].clone(),
                        title: String::new(),
                        artist: String::new(),
                        album: String::new(),
                        duration: 0,
                    };
                    added.push(b.duplicate());
                    b
                },
            },
        };
        v.push(t);
        assert(v@.drop_last() =~= before);
        proof {
            reveal(Seq::filter);
        }
        assert(resolves(cat@, extra@, paths@[k as int], v@[k as int]));
        k += 1;
    }
    (v, added)
}

/// The paths of `paths`, in order, that neither the catalog nor the arbitrary tracks hold:
/// the files a caller reads and registers before queueing them.
pub fn player_unknown_paths(state: &AppState, paths: &Vec<String>) -> (r: Vec<String>)
    ensures
        r@ == paths@.filter(
            |p: String| !has_path(state.db.index.tracks@, p@) && !has_path(state.player.arbitrary_tracks@, p@),
        ),
{
    let ghost pred = |p: String|
        !has_path(state.db.index.tracks@, p@) && !has_path(state.player.arbitrary_tracks@, p@);
    let mut r: Vec<String> = Vec::new();
    let mut k: usize = 0;
    while k < paths.len()
        invariant
            k <= paths@.len(),
            pred == (|p: String|
                !has_path(state.db.index.tracks@, p@) && !has_path(state.player.arbitrary_tracks@, p@)),
            r@ == paths@.take(k as int).filter(pred),
        decreases paths@.len() - k,
    {
        let ghost t = paths@.take(k as int + 1);
        assert(t.drop_last() =~= paths@.take(k as int));
        assert(t.last() == paths@[k as int]);
        let unknown = find_path(&state.db.index.tracks, &paths[k]).is_none() && find_path(
            &state.player.arbitrary_tracks,
            &paths[k],
        ).is_none();
        assert(unknown == pred(paths@[k as int]));
        if unknown {
            r.push(paths[k].clone());
        }
        proof {
            reveal(Seq::filter);
        }
        k += 1;
    }
    assert(paths@.take(k as int) =~= paths@);
    r
}

/// Replaces the queue with the tracks at `queue`. A path that neither the catalog nor the
/// arbitrary tracks hold is queued as a bare track and becomes an arbitrary track.
pub fn player_set_queue(state: &mut AppState, queue: Vec<String>) -> (r: Result<(), Error>)
    requires
        old(state).wf(),
    ensures
        final(state).wf(),
        final(state).db == old(state).db,
        r is Ok,
        final(state).player.queue@.len() == queue@.len(),
        forall|k: int|
            0 <= k < queue@.len() ==> #[trigger] final(state).player.queue@[k].path@ == queue@[k]@,
        forall|k: int|
            0 <= k < queue@.len() ==> resolves(
                old(state).db.index.tracks@,
                old(state).player.arbitrary_tracks@,
                queue@[k],
                #[trigger] final(state).player.queue@[k],
            ),
        final(state).player.arbitrary_tracks@ == old(state).player.arbitrary_tracks@
            + final(state).player.queue@.filter(
            unknown_path(old(state).db.index.tracks@, old(state).player.arbitrary_tracks@),
        ),
        final(state).player.current == 0,
        final(state).player.elapsed == 0,
        final(state).player.volume == old(state).player.volume,
        if old(state).player.state == PlayState::Playing && queue@.len() > 0 {
            final(state).player.state == PlayState::Playing && final(state).commands@
                == old(state).commands@.push(Command::Start { index: 0, offset: 0 })
        } else {
            final(state).player.state == PlayState::Stopped && final(state).commands@
                == old(state).commands@.push(Command::Halt)
        },
{
    let (v, added) = resolve_paths(&state.db.index.tracks, &state.player.arbitrary_tracks, &queue);
    let ghost tracks = v@;
    let ghost before = state.player;
    let c = state.player.set_queue(v);
    let ghost mid = state.player;
    let mut added = added;
    state.player.arbitrary_tracks.append(&mut added);
    state.commands.push(c);
    proof {
        assert forall|k: int| 0 <= k < queue@.len() implies #[trigger] state.player.queue@[k].path@ == queue@[k]@ by {
            assert(resolves(old(state).db.index.tracks@, old(state).player.arbitrary_tracks@, queue@[k], tracks[k]));
        }
    }
    Ok(())
}

pub fn player_goto(state: &mut AppState, index: usize) -> (r: Result<(), Error>)
    requires
        old(state).wf(),
    ensures
        final(state).wf(),
        final(state).db == old(state).db,
        exists|out: Result<Command, Error>|
            goto_step(old(state).player, final(state).player, index, out) && dispatched(
                old(state).commands@,
                final(state).commands@,
                out,
                r,
            ),
{
    let out = state.player.goto(index);
    match out {
        Ok(c) => {
            state.commands.push(c);
            Ok(())
        },
        Err(e) => Err(e),
    }
}

pub fn player_seek(state: &mut AppState, elapsed: u64) -> (r: Result<(), Error>)
    requires
        old(state).wf(),
    ensures
        final(state).wf(),
        final(state).db == old(state).db,
        exists|out: Result<Command, Error>|
            seek_step(old(state).player, final(state).player, elapsed, out) && dispatched(
                old(state).commands@,
                final(state).commands@,
                out,
                r,
            ),
{
    let out = state.player.seek(elapsed);
    match out {
        Ok(c) => {
            state.commands.push(c);
            Ok(())
        },
        Err(e) => Err(e),
    }
}

pub fn player_stop(state: &mut AppState) -> (r: Result<(), Error>)
    requires
        old(state).wf(),
    ensures
        final(state).wf(),
        final(state).db == old(state).db,
        r is Ok,
        exists|c: Command|
            stop_step(old(state).player, final(state).player, c) && final(state).commands@
                == old(state).commands@.push(c),
{
    let c = state.player.stop();
    state.commands.push(c);
    Ok(())
}

pub fn player_play(state: &mut AppState) -> (r: Result<(), Error>)
    requires
        old(state).wf(),
    ensures
        final(state).wf(),
        final(state).db == old(state).db,
        r is Ok,
        exists|c: Command|
            play_step(old(state).player, final(state).player, c) && final(state).commands@
                == old(state).commands@.push(c),
{
    let c = state.player.play();
    state.commands.push(c);
    Ok(())
}

pub fn player_pause(state: &mut AppState) -> (r: Result<(), Error>)
    requires
        old(state).wf(),
    ensures
        final(state).wf(),
        final(state).db == old(state).db,
        r is Ok,
        exists|c: Command|
            pause_step(old(state).player, final(state).player, c) && final(state).commands@
                == old(state).commands@.push(c),
{
    let c = state.player.pause();
    state.commands.push(c);
    Ok(())
}

pub fn player_set_current(state: &mut AppState, index: usize) -> (r: Result<(), Error>)
    requires
        old(state).wf(),
    ensures
        final(state).wf(),
        final(state).db == old(state).db,
        exists|out: Result<Command, Error>|
            set_current_step(old(state).player, final(state).player, index, out) && dispatched(
                old(state).commands@,
                final(state).commands@,
                out,
                r,
            ),
{
    let out = state.player.set_current(index);
    match out {
        Ok(c) => {
            state.commands.push(c);
            Ok(())
        },
        Err(e) => Err(e),
    }
}

pub fn player_is_paused(state: &AppState) -> (r: Result<bool, Error>)
    ensures
        r == Ok::<bool, Error>(state.player.state == PlayState::Paused),
{
    Ok(state.player.is_paused())
}

/// Sets the volume in thousandths of full volume; larger values are clamped.
pub fn player_set_volume(state: &mut AppState, volume: u32) -> (r: Result<(), Error>)
    requires
        old(state).wf(),
    ensures
        final(state).wf(),
        final(state).db == old(state).db,
        r is Ok,
        exists|c: Command|
            set_volume_step(old(state).player, final(state).player, volume, c) && final(state).commands@
                == old(state).commands@.push(c),
{
    let c = state.player.set_volume(volume);
    state.commands.push(c);
    Ok(())
}

/// The decode thread reports that the current track played to its end.
pub fn player_track_finished(state: &mut AppState) -> (r: Result<(), Error>)
    requires
        old(state).wf(),
    ensures
        final(state).wf(),
        final(state).db == old(state).db,
        r is Ok,
        exists|c: Command|
            track_finished_step(old(state).player, final(state).player, c) && final(state).commands@
                == old(state).commands@.push(c),
{
    let c = state.player.track_finished();
    state.commands.push(c);
    Ok(())
}

/// Makes a track opened directly from a file, outside the catalog, available to the queue.
pub fn player_add_arbitrary_track(state: &mut AppState, track: Track) -> (r: Result<(), Error>)
    requires
        old(state).wf(),
    ensures
        final(state).wf(),
        final(state).db == old(state).db,
        final(state).commands@ == old(state).commands@,
        final(state).player.arbitrary_tracks@ == old(state).player.arbitrary_tracks@.push(track),
        final(state).player.queue@ == old(state).player.queue@,
        final(state).player.current == old(state).player.current,
        final(state).player.elapsed == old(state).player.elapsed,
        final(state).player.state == old(state).player.state,
        final(state).player.volume == old(state).player.volume,
        r is Ok,
{
    state.player.arbitrary_tracks.push(track);
    Ok(())
}

pub fn player_get_arbitrary_tracks(state: &AppState) -> (r: Result<Vec<Track>, Error>)
    ensures
        r is Ok && r->Ok_0@ == state.player.arbitrary_tracks@,
{
    Ok(copy_tracks(&state.player.arbitrary_tracks))
}

/// The catalog tracks that `filters` selects, in catalog order.
pub fn db_get_tracks(state: &AppState, filters: GetTracksFilters) -> (r: Result<Vec<Track>, Error>)
    requires
        state.wf(),
    ensures
        match filters.emotion {
            None => r is Ok && r->Ok_0@ == state.db.index.tracks@.filter(selects(filters, Seq::empty())),
            Some(e) => if has_name(state.db.emotions@, e@) {
                r is Ok && exists|i: int|
                    slot(state.db.emotions@, e@, i) && r->Ok_0@ == state.db.index.tracks@.filter(
                        selects(filters, state.db.emotions@[i].ids),
                    )
            } else {
                r == Err::<Vec<Track>, Error>(Error::NotFound)
            },
        },
{
    state.db.get_tracks(&filters)
}

pub fn db_get_playlists(state: &AppState) -> (r: Result<Vec<String>, Error>)
    ensures
        r is Ok && id_seq(r->Ok_0@) == state.db.playlists@.map_values(|l: ListView| l.name),
{
    Ok(state.db.get_playlists())
}

pub fn db_add_playlist(state: &mut AppState, name: String) -> (r: Result<(), Error>)
    requires
        old(state).wf(),
    ensures
        final(state).wf(),
        final(state).player == old(state).player,
        final(state).commands@ == old(state).commands@,
        final(state).db.same_but_playlists(&old(state).db),
        created(old(state).db.playlists@, final(state).db.playlists@, name@, r),
{
    state.db.add_playlist(name)
}

pub fn db_rename_playlist(state: &mut AppState, name: String, new_name: String) -> (r: Result<(), Error>)
    requires
        old(state).wf(),
    ensures
        final(state).wf(),
        final(state).player == old(state).player,
        final(state).commands@ == old(state).commands@,
        final(state).db.same_but_playlists(&old(state).db),
        renamed(old(state).db.playlists@, final(state).db.playlists@, name@, new_name@, r),
{
    state.db.rename_playlist(name, new_name)
}

pub fn db_remove_playlist(state: &mut AppState, name: String) -> (r: Result<(), Error>)
    requires
        old(state).wf(),
    ensures
        final(state).wf(),
        final(state).player == old(state).player,
        final(state).commands@ == old(state).commands@,
        final(state).db.same_but_playlists(&old(state).db),
        removed(old(state).db.playlists@, final(state).db.playlists@, name@, r),
{
    state.db.remove_playlist(name)
}

pub fn db_get_playlist_tracks(state: &AppState, name: String) -> (r: Result<Vec<Track>, Error>)
    requires
        state.wf(),
    ensures
        match r {
            Ok(v) => exists|i: int|
                slot(state.db.playlists@, name@, i) && tracks_for(v@, state.db.playlists@[i].ids, state.db.index.tracks@),
            Err(e) => e == Error::NotFound && !has_name(state.db.playlists@, name@),
        },
{
    state.db.get_playlist_tracks(name)
}

pub fn db_add_playlist_tracks(state: &mut AppState, name: String, hashes: Vec<String>) -> (r: Result<(), Error>)
    requires
        old(state).wf(),
    ensures
        final(state).wf(),
        final(state).player == old(state).player,
        final(state).commands@ == old(state).commands@,
        final(state).db.same_but_playlists(&old(state).db),
        !ids_known(id_seq(hashes@), old(state).db.index.tracks@) ==> r == Err::<(), Error>(Error::NotFound)
            && final(state).db.playlists@ == old(state).db.playlists@,
        ids_known(id_seq(hashes@), old(state).db.index.tracks@) ==> appended(
            old(state).db.playlists@,
            final(state).db.playlists@,
            name@,
            id_seq(hashes@),
            r,
        ),
{
    state.db.add_playlist_tracks(name, &hashes)
}

pub fn db_remove_playlist_tracks(state: &mut AppState, name: String, hashes: Option<Vec<String>>) -> (r: Result<(), Error>)
    requires
        old(state).wf(),
    ensures
        final(state).wf(),
        final(state).player == old(state).player,
        final(state).commands@ == old(state).commands@,
        final(state).db.same_but_playlists(&old(state).db),
        ids_removed(
            old(state).db.playlists@,
            final(state).db.playlists@,
            name@,
            match hashes {
                Some(d) => Some(id_seq(d@)),
                None => None,
            },
            r,
        ),
{
    state.db.remove_playlist_tracks(name, hashes.as_ref())
}

pub fn db_reorder_playlist_track(state: &mut AppState, name: String, hash: String, src: i64, dst: i64) -> (r: Result<(), Error>)
    requires
        old(state).wf(),
    ensures
        final(state).wf(),
        final(state).player == old(state).player,
        final(state).commands@ == old(state).commands@,
        final(state).db.same_but_playlists(&old(state).db),
        reordered(old(state).db.playlists@, final(state).db.playlists@, name@, hash@, src as int, dst as int, r),
{
    state.db.reorder_playlist_track(name, hash, src, dst)
}

pub fn db_get_emotions(state: &AppState) -> (r: Result<Vec<String>, Error>)
    ensures
        r is Ok && id_seq(r->Ok_0@) == state.db.emotions@.map_values(|l: ListView| l.name),
{
    Ok(state.db.get_emotions())
}

pub fn db_add_emotion(state: &mut AppState, name: String) -> (r: Result<(), Error>)
    requires
        old(state).wf(),
    ensures
        final(state).wf(),
        final(state).player == old(state).player,
        final(state).commands@ == old(state).commands@,
        final(state).db.same_but_emotions(&old(state).db),
        created(old(state).db.emotions@, final(state).db.emotions@, name@, r),
{
    state.db.add_emotion(name)
}

pub fn db_add_emotion_tracks(state: &mut AppState, name: String, hashes: Vec<String>) -> (r: Result<(), Error>)
    requires
        old(state).wf(),
    ensures
        final(state).wf(),
        final(state).player == old(state).player,
        final(state).commands@ == old(state).commands@,
        final(state).db.same_but_emotions(&old(state).db),
        !ids_known(id_seq(hashes@), old(state).db.index.tracks@) ==> r == Err::<(), Error>(Error::NotFound)
            && final(state).db.emotions@ == old(state).db.emotions@,
        ids_known(id_seq(hashes@), old(state).db.index.tracks@) ==> appended(
            old(state).db.emotions@,
            final(state).db.emotions@,
            name@,
            id_seq(hashes@),
            r,
        ),
{
    state.db.add_emotion_tracks(name, &hashes)
}

pub fn db_get_emotion_tracks(state: &AppState, name: String) -> (r: Result<Vec<Track>, Error>)
    requires
        state.wf(),
    ensures
        match r {
            Ok(v) => exists|i: int|
                slot(state.db.emotions@, name@, i) && tracks_for(v@, state.db.emotions@[i].ids, state.db.index.tracks@),
            Err(e) => e == Error::NotFound && !has_name(state.db.emotions@, name@),
        },
{
    state.db.get_emotion_tracks(name)
}

pub fn db_rank_up_emotion_track(state: &mut AppState, name: String, hash: String) -> (r: Result<(), Error>)
    requires
        old(state).wf(),
    ensures
        final(state).wf(),
        final(state).player == old(state).player,
        final(state).commands@ == old(state).commands@,
        final(state).db.same_but_emotions(&old(state).db),
        ranked(old(state).db.emotions@, final(state).db.emotions@, name@, hash@, r),
{
    state.db.rank_up_emotion_track(name, hash)
}

pub fn db_get_albums(state: &AppState) -> (r: Result<Vec<Album>, Error>)
    ensures
        r is Ok && album_keys(r->Ok_0@) == albums_of(state.db.index.tracks@),
{
    Ok(state.db.get_albums())
}

pub fn db_get_artists(state: &AppState) -> (r: Result<Vec<String>, Error>)
    ensures
        r is Ok && id_seq(r->Ok_0@) == artists_of(state.db.index.tracks@),
{
    Ok(state.db.get_artists())
}

/// Reconciles the catalog with what a walk of the watched directories found; files that
/// could not be read are reported in the result, and the scan goes on past them.
pub fn db_scan_dirs(state: &mut AppState, probes: &Vec<Probe>) -> (r: Result<ScanReport, Error>)
    requires
        old(state).wf(),
    ensures
        final(state).wf(),
        final(state).commands@ == old(state).commands@,
        r is Ok,
        final(state).db.index.tracks@ == reconciled(old(state).db.index.tracks@, probes@),
        r->Ok_0.indexed == read_count(probes@),
        id_seq(r->Ok_0.failed@) == unreadable_paths(probes@),
        final(state).db.dirs@ == old(state).db.dirs@,
        pruned(old(state).db.playlists@, final(state).db.playlists@, final(state).db.index.tracks@),
        pruned(old(state).db.emotions@, final(state).db.emotions@, final(state).db.index.tracks@),
        final(state).player.queue@ == old(state).player.queue@.map_values(
            |t: Track| relocated(final(state).db.index.tracks@, t),
        ),
        final(state).player.current == old(state).player.current,
        final(state).player.elapsed == old(state).player.elapsed,
        final(state).player.state == old(state).player.state,
        final(state).player.volume == old(state).player.volume,
        final(state).player.arbitrary_tracks@ == old(state).player.arbitrary_tracks@,
{
    let report = state.db.scan_dirs(probes);
    state.player.relocate(&state.db.index);
    Ok(report)
}

/// Replaces the watched directories; the caller then scans the new set.
pub fn db_set_dirs(state: &mut AppState, dirs: Vec<String>) -> (r: Result<(), Error>)
    requires
        old(state).wf(),
    ensures
        final(state).wf(),
        final(state).player == old(state).player,
        final(state).commands@ == old(state).commands@,
        r is Ok,
        id_seq(final(state).db.dirs@) == distinct(id_seq(dirs@)),
        final(state).db.index.tracks@ == old(state).db.index.tracks@,
        final(state).db.playlists@ == old(state).db.playlists@,
        final(state).db.emotions@ == old(state).db.emotions@,
{
    state.db.set_dirs(dirs);
    Ok(())
}

pub fn db_get_dirs(state: &AppState) -> (r: Result<Vec<String>, Error>)
    ensures
        r is Ok && id_seq(r->Ok_0@) == id_seq(state.db.dirs@),
{
    Ok(state.db.get_dirs())
}

} // verus!
