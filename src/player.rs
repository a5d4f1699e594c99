use vstd::prelude::*;

use crate::error::Error;
use crate::index::{has_id, pos_of, with_path, Index, Track};

verus! {

/// Full volume, in thousandths.
pub const MAX_VOLUME: u32 = 1000;

#[derive(Debug, Clone, Copy, PartialEq, Eq, Structural)]
pub enum PlayState {
    Stopped,
    Playing,
    Paused,
}

/// What the decode/output thread is asked to do after a control call.
#[derive(Debug, Clone, Copy, PartialEq, Eq, Structural)]
pub enum Command {
    /// Decode queue entry `index` from `offset` milliseconds and play it.
    Start { index: usize, offset: u64 },
    /// Load queue entry `index` at `offset` milliseconds and hold it paused.
    Cue { index: usize, offset: u64 },
    /// Hold output where it is.
    Pause,
    /// Continue output where it was held.
    Resume,
    /// Stop decoding and release the output.
    Halt,
    /// Apply this volume, in thousandths.
    Volume(u32),
    /// Nothing to do.
    Idle,
}

/// The transport: a queue with a cursor and an elapsed offset in milliseconds.
/// `stop` keeps the cursor and resets the offset; at the end of the queue the player
/// stops with the cursor held on the last entry.
pub struct Player {
    pub queue: Vec<Track>,
    pub current: usize,
    pub elapsed: u64,
    pub state: PlayState,
    pub volume: u32,
    /// Tracks opened directly from files outside the index.
    pub arbitrary_tracks: Vec<Track>,
}

/// The command that takes the output to entry `index` at `offset` in state `s`.
pub open spec fn reposition(s: PlayState, index: usize, offset: u64) -> Command {
    match s {
        PlayState::Playing => Command::Start { index, offset },
        PlayState::Paused => Command::Cue { index, offset },
        PlayState::Stopped => Command::Idle,
    }
}

/// Only the cursor, the offset and the transport state may differ.
pub open spec fn same_queue(before: Player, after: Player) -> bool {
    &&& after.queue@ == before.queue@
    &&& after.volume == before.volume
    &&& after.arbitrary_tracks@ == before.arbitrary_tracks@
}

/// The outcome of `set_queue`.
pub open spec fn set_queue_step(before: Player, after: Player, tracks: Seq<Track>, out: Command) -> bool {
    &&& after.queue@ == tracks
    &&& after.current == 0
    &&& after.elapsed == 0
    &&& after.volume == before.volume
    &&& after.arbitrary_tracks@ == before.arbitrary_tracks@
    &&& if before.state == PlayState::Playing && tracks.len() > 0 {
        after.state == PlayState::Playing && out == (Command::Start { index: 0, offset: 0 })
    } else {
        after.state == PlayState::Stopped && out == Command::Halt
    }
}

/// The outcome of `goto`.
pub open spec fn goto_step(before: Player, after: Player, index: usize, out: Result<Command, Error>) -> bool {
    &&& same_queue(before, after)
    &&& index >= before.queue@.len() ==> out == Err::<Command, Error>(Error::OutOfRange) && after.current
        == before.current && after.elapsed == before.elapsed && after.state == before.state
    &&& index < before.queue@.len() ==> after.current == index && after.elapsed == 0 && if before.state
        == PlayState::Paused {
        after.state == PlayState::Paused && out == Ok::<Command, Error>(Command::Cue { index, offset: 0 })
    } else {
        after.state == PlayState::Playing && out == Ok::<Command, Error>(Command::Start { index, offset: 0 })
    }
}

/// The outcome of `set_current`.
pub open spec fn set_current_step(before: Player, after: Player, index: usize, out: Result<Command, Error>) -> bool {
    &&& same_queue(before, after)
    &&& after.state == before.state
    &&& index >= before.queue@.len() ==> out == Err::<Command, Error>(Error::OutOfRange) && after.current
        == before.current && after.elapsed == before.elapsed
    &&& index < before.queue@.len() ==> after.current == index && after.elapsed == 0 && out == Ok::<
        Command,
        Error,
    >(reposition(before.state, index, 0))
}

/// The outcome of `seek`.
pub open spec fn seek_step(before: Player, after: Player, elapsed: u64, out: Result<Command, Error>) -> bool {
    &&& same_queue(before, after)
    &&& after.current == before.current
    &&& after.state == before.state
    &&& before.queue@.len() == 0 ==> out == Err::<Command, Error>(Error::StateError) && after.elapsed
        == before.elapsed
    &&& before.queue@.len() > 0 && elapsed > before.queue@[before.current as int].duration ==> out == Err::<
        Command,
        Error,
    >(Error::OutOfRange) && after.elapsed == before.elapsed
    &&& before.queue@.len() > 0 && elapsed <= before.queue@[before.current as int].duration ==> after.elapsed
        == elapsed && out == Ok::<Command, Error>(reposition(before.state, before.current, elapsed))
}

/// The outcome of `play`.
pub open spec fn play_step(before: Player, after: Player, out: Command) -> bool {
    &&& same_queue(before, after)
    &&& after.current == before.current
    &&& after.elapsed == before.elapsed
    &&& before.queue@.len() == 0 || before.state == PlayState::Playing ==> out == Command::Idle
        && after.state == before.state
    &&& before.queue@.len() > 0 && before.state == PlayState::Paused ==> out == Command::Resume
        && after.state == PlayState::Playing
    &&& before.queue@.len() > 0 && before.state == PlayState::Stopped ==> out == (Command::Start {
        index: before.current,
        offset: before.elapsed,
    }) && after.state == PlayState::Playing
}

/// The outcome of `pause`.
pub open spec fn pause_step(before: Player, after: Player, out: Command) -> bool {
    &&& same_queue(before, after)
    &&& after.current == before.current
    &&& after.elapsed == before.elapsed
    &&& before.state == PlayState::Playing ==> out == Command::Pause && after.state == PlayState::Paused
    &&& before.state != PlayState::Playing ==> out == Command::Idle && after.state == before.state
}

/// The outcome of `stop`.
pub open spec fn stop_step(before: Player, after: Player, out: Command) -> bool {
    &&& same_queue(before, after)
    &&& after.current == before.current
    &&& after.elapsed == 0
    &&& after.state == PlayState::Stopped
    &&& out == Command::Halt
}

/// The outcome of `set_volume`.
pub open spec fn set_volume_step(before: Player, after: Player, volume: u32, out: Command) -> bool {
    &&& after.queue@ == before.queue@
    &&& after.arbitrary_tracks@ == before.arbitrary_tracks@
    &&& after.current == before.current
    &&& after.elapsed == before.elapsed
    &&& after.state == before.state
    &&& after.volume == if volume > MAX_VOLUME {
        MAX_VOLUME
    } else {
        volume
    }
    &&& out == Command::Volume(after.volume)
}

/// The outcome of `track_finished`.
pub open spec fn track_finished_step(before: Player, after: Player, out: Command) -> bool {
    &&& same_queue(before, after)
    &&& before.state != PlayState::Playing ==> out == Command::Idle && after.state == before.state
        && after.current == before.current && after.elapsed == before.elapsed
    &&& before.state == PlayState::Playing && before.current + 1 < before.queue@.len() ==> after.state
        == PlayState::Playing && after.current == before.current + 1 && after.elapsed == 0 && out
        == (Command::Start { index: after.current, offset: 0 })
    &&& before.state == PlayState::Playing && before.current + 1 >= before.queue@.len() ==> after.state
        == PlayState::Stopped && after.current == before.current && after.elapsed == 0 && out
        == Command::Halt
}

/// `t` with the path that the catalog now holds for its identity, where it has a row.
/// A queued track whose row is gone stays queued as it was.
pub open spec fn relocated(cat: Seq<Track>, t: Track) -> Track {
    if has_id(cat, t.id@) {
        with_path(t, cat[pos_of(cat, t.id@)].path)
    } else {
        t
    }
}

impl Player {
    pub open spec fn wf(&self) -> bool {
        &&& self.volume <= MAX_VOLUME
        &&& self.queue@.len() == 0 ==> self.state == PlayState::Stopped && self.current == 0
            && self.elapsed == 0
        &&& self.queue@.len() > 0 ==> self.current < self.queue@.len() && self.elapsed
            <= self.queue@[self.current as int].duration
    }

    pub fn new() -> (r: Player)
        ensures
            r.wf(),
            r.queue@.len() == 0,
            r.arbitrary_tracks@.len() == 0,
            r.state == PlayState::Stopped,
            r.volume == MAX_VOLUME,
    {
        Player {
            queue: Vec::new(),
            current: 0,
            elapsed: 0,
            state: PlayState::Stopped,
            volume: MAX_VOLUME,
            arbitrary_tracks: Vec::new(),
        }
    }

    /// Replaces the queue and puts the cursor on its first entry. Playback goes on
    /// from there where it was playing; otherwise the player stops.
    pub fn set_queue(&mut self, tracks: Vec<Track>) -> (c: Command)
        requires
            old(self).wf(),
        ensures
            final(self).wf(),
            set_queue_step(*old(self), *final(self), tracks@, c),
    {
        let resume = self.state == PlayState::Playing && tracks.len() > 0;
        self.queue = tracks;
        self.current = 0;
        self.elapsed = 0;
        if resume {
            Command::Start { index: 0, offset: 0 }
        } else {
            self.state = PlayState::Stopped;
            Command::Halt
        }
    }

    /// Jumps to entry `index` from its start. A paused player stays paused; otherwise it plays.
    pub fn goto(&mut self, index: usize) -> (r: Result<Command, Error>)
        requires
            old(self).wf(),
        ensures
            final(self).wf(),
            goto_step(*old(self), *final(self), index, r),
    {
        if index >= self.queue.len() {
            return Err(Error::OutOfRange);
        }
        self.current = index;
        self.elapsed = 0;
        if self.state == PlayState::Paused {
            Ok(Command::Cue { index, offset: 0 })
        } else {
            self.state = PlayState::Playing;
            Ok(Command::Start { index, offset: 0 })
        }
    }

    /// Puts the cursor on entry `index` from its start, keeping the transport state.
    pub fn set_current(&mut self, index: usize) -> (r: Result<Command, Error>)
        requires
            old(self).wf(),
        ensures
            final(self).wf(),
            set_current_step(*old(self), *final(self), index, r),
    {
        if index >= self.queue.len() {
            return Err(Error::OutOfRange);
        }
        self.current = index;
        self.elapsed = 0;
        Ok(
            match self.state {
                PlayState::Playing => Command::Start { index, offset: 0 },
                PlayState::Paused => Command::Cue { index, offset: 0 },
                PlayState::Stopped => Command::Idle,
            },
        )
    }

    /// Moves to `elapsed` milliseconds into the current entry.
    pub fn seek(&mut self, elapsed: u64) -> (r: Result<Command, Error>)
        requires
            old(self).wf(),
        ensures
            final(self).wf(),
            seek_step(*old(self), *final(self), elapsed, r),
    {
        if self.queue.len() == 0 {
            return Err(Error::StateError);
        }
        if elapsed > self.queue[self.current].duration {
            return Err(Error::OutOfRange);
        }
        self.elapsed = elapsed;
        let index = self.current;
        Ok(
            match self.state {
                PlayState::Playing => Command::Start { index, offset: elapsed },
                PlayState::Paused => Command::Cue { index, offset: elapsed },
                PlayState::Stopped => Command::Idle,
            },
        )
    }

    /// Starts or resumes playback of the current entry; with an empty queue nothing happens.
    pub fn play(&mut self) -> (c: Command)
        requires
            old(self).wf(),
        ensures
            final(self).wf(),
            play_step(*old(self), *final(self), c),
    {
        if self.queue.len() == 0 {
            return Command::Idle;
        }
        match self.state {
            PlayState::Playing => Command::Idle,
            PlayState::Paused => {
                self.state = PlayState::Playing;
                Command::Resume
            },
            PlayState::Stopped => {
                self.state = PlayState::Playing;
                Command::Start { index: self.current, offset: self.elapsed }
            },
        }
    }

    /// Holds playback; only a playing player changes.
    pub fn pause(&mut self) -> (c: Command)
        requires
            old(self).wf(),
        ensures
            final(self).wf(),
            pause_step(*old(self), *final(self), c),
    {
        if self.state == PlayState::Playing {
            self.state = PlayState::Paused;
            Command::Pause
        } else {
            Command::Idle
        }
    }

    /// Stops playback; the queue and the cursor stay, the offset goes back to 0.
    pub fn stop(&mut self) -> (c: Command)
        requires
            old(self).wf(),
        ensures
            final(self).wf(),
            stop_step(*old(self), *final(self), c),
    {
        self.state = PlayState::Stopped;
        self.elapsed = 0;
        Command::Halt
    }

    /// Sets the volume in thousandths; a value above full volume is clamped to it.
    pub fn set_volume(&mut self, volume: u32) -> (c: Command)
        requires
            old(self).wf(),
        ensures
            final(self).wf(),
            set_volume_step(*old(self), *final(self), volume, c),
    {
        self.volume = if volume > MAX_VOLUME { MAX_VOLUME } else { volume };
        Command::Volume(self.volume)
    }

    pub fn is_paused(&self) -> (r: bool)
        ensures
            r == (self.state == PlayState::Paused),
    {
        self.state == PlayState::Paused
    }

    /// The current entry has played to its end: move on to the next one, or stop on the
    /// last one at the end of the queue. Only a playing player reacts.
    pub fn track_finished(&mut self) -> (c: Command)
        requires
            old(self).wf(),
        ensures
            final(self).wf(),
            track_finished_step(*old(self), *final(self), c),
    {
        if self.state != PlayState::Playing {
            return Command::Idle;
        }
        self.elapsed = 0;
        assert(self.current < self.queue@.len());
        if self.current < self.queue.len() - 1 {
            self.current = self.current + 1;
            Command::Start { index: self.current, offset: 0 }
        } else {
            self.state = PlayState::Stopped;
            Command::Halt
        }
    }

    /// Gives every queued track that the catalog holds the path the catalog now has for it;
    /// queued tracks that the catalog no longer holds stay in the queue unchanged.
    pub fn relocate(&mut self, index: &Index)
        requires
            old(self).wf(),
            index.wf(),
        ensures
            final(self).wf(),
            final(self).queue@ == old(self).queue@.map_values(|t: Track| relocated(index.tracks@, t)),
            final(self).current == old(self).current,
            final(self).elapsed == old(self).elapsed,
            final(self).state == old(self).state,
            final(self).volume == old(self).volume,
            final(self).arbitrary_tracks@ == old(self).arbitrary_tracks@,
    {
        let ghost q = self.queue@;
        let mut i: usize = 0;
        while i < self.queue.len()
            invariant
                index.wf(),
                i <= q.len(),
                q == old(self).queue@,
                self.queue@.len() == q.len(),
                self.current == old(self).current,
                self.elapsed == old(self).elapsed,
                self.state == old(self).state,
                self.volume == old(self).volume,
                self.arbitrary_tracks@ == old(self).arbitrary_tracks@,
                forall|j: int| 0 <= j < i ==> #[trigger] self.queue@[j] == relocated(index.tracks@, q[j]),
                forall|j: int| i <= j < q.len() ==> #[trigger] self.queue@[j] == q[j],
            decreases q.len() - i,
        {
            match index.find(&self.queue[i].id) {
                Some(k) => {
                    let mut t = self.queue[i].duplicate();
                    t.path = index.tracks[k].path.clone();
                    self.queue.set(i, t);
                },
                None => {},
            }
            i += 1;
        }
        assert(self.queue@ =~= q.map_values(|t: Track| relocated(index.tracks@, t)));
        assert(q.len() > 0 ==> self.queue@[self.current as int].duration == q[self.current as int].duration);
    }
}

} // verus!
