use music_core::error::Error;
use music_core::identity::{content_id, probe_file};
use music_core::index::{is_audio_path, Probe, Track};
use music_core::player::{Command, PlayState, MAX_VOLUME};
use music_core::query::GetTracksFilters;
use music_core::{
    db_add_emotion, db_add_emotion_tracks, db_add_playlist, db_add_playlist_tracks, db_get_albums,
    db_get_artists, db_get_dirs, db_get_emotion_tracks, db_get_emotions, db_get_playlist_tracks,
    db_get_playlists, db_get_tracks, db_rank_up_emotion_track, db_remove_playlist,
    db_remove_playlist_tracks, db_rename_playlist, db_reorder_playlist_track, db_scan_dirs,
    db_set_dirs, player_add_arbitrary_track, player_get_arbitrary_tracks, player_goto,
    player_is_paused, player_pause, player_play, player_seek, player_set_current, player_set_queue,
    player_set_volume, player_stop, player_track_finished, player_unknown_paths, AppState,
};

fn track(id: &str, path: &str, artist: &str, album: &str, duration: u64) -> Track {
    Track {
        id: id.to_string(),
        path: path.to_string(),
        title: format!("title of {}", id),
        artist: artist.to_string(),
        album: album.to_string(),
        duration,
    }
}

fn read(id: &str, path: &str) -> Probe {
    Probe::Read(track(id, path, "artist", "album", 10_000))
}

fn strings(v: &[&str]) -> Vec<String> {
    v.iter().map(|s| s.to_string()).collect()
}

fn ids(v: &[Track]) -> Vec<String> {
    v.iter().map(|t| t.id.clone()).collect()
}

fn library_with(ids_paths: &[(&str, &str)]) -> AppState {
    let mut state = AppState::new();
    let probes: Vec<Probe> = ids_paths.iter().map(|(i, p)| read(i, p)).collect();
    db_scan_dirs(&mut state, &probes).unwrap();
    state
}

#[test]
fn scan_reports_unreadable_file_and_indexes_the_rest() {
    let mut state = AppState::new();
    db_set_dirs(&mut state, strings(&["/music"])).unwrap();
    assert_eq!(db_get_dirs(&state).unwrap(), strings(&["/music"]));
    let probes = vec![
        read("h1", "/music/a.flac"),
        Probe::Unreadable("/music/b.flac".to_string()),
        read("h3", "/music/c.flac"),
    ];
    let report = db_scan_dirs(&mut state, &probes).unwrap();
    assert_eq!(report.indexed, 2);
    assert_eq!(report.failed, strings(&["/music/b.flac"]));
    assert_eq!(state.db.index.tracks.len(), 2);
}

#[test]
fn reorder_moves_last_track_to_front() {
    let mut state = library_with(&[("h1", "/m/1"), ("h2", "/m/2"), ("h3", "/m/3")]);
    db_add_playlist(&mut state, "A".to_string()).unwrap();
    db_add_playlist_tracks(&mut state, "A".to_string(), strings(&["h1", "h2", "h3"])).unwrap();
    db_reorder_playlist_track(&mut state, "A".to_string(), "h3".to_string(), 2, 0).unwrap();
    let got = db_get_playlist_tracks(&state, "A".to_string()).unwrap();
    assert_eq!(ids(&got), strings(&["h3", "h1", "h2"]));
}

#[test]
fn seek_while_paused_stays_paused() {
    let mut state = library_with(&[("h1", "/m/p1"), ("h2", "/m/p2")]);
    player_set_queue(&mut state, strings(&["/m/p1", "/m/p2"])).unwrap();
    player_play(&mut state).unwrap();
    player_pause(&mut state).unwrap();
    player_goto(&mut state, 1).unwrap();
    player_seek(&mut state, 5000).unwrap();
    assert!(player_is_paused(&state).unwrap());
    assert_eq!(state.player.current, 1);
    assert_eq!(state.player.elapsed, 5000);
    let cmds = state.take_commands();
    assert_eq!(
        cmds,
        vec![
            Command::Halt,
            Command::Start { index: 0, offset: 0 },
            Command::Pause,
            Command::Cue { index: 1, offset: 0 },
            Command::Cue { index: 1, offset: 5000 },
        ]
    );
    assert!(state.commands.is_empty());
}

#[test]
fn goto_past_end_fails_and_changes_nothing() {
    let mut state = library_with(&[("h1", "/m/p1"), ("h2", "/m/p2")]);
    player_set_queue(&mut state, strings(&["/m/p1", "/m/p2"])).unwrap();
    player_set_current(&mut state, 1).unwrap();
    assert_eq!(player_goto(&mut state, 2), Err(Error::OutOfRange));
    assert_eq!(player_goto(&mut state, 7), Err(Error::OutOfRange));
    assert_eq!(state.player.current, 1);
    assert_eq!(ids(&state.player.queue), strings(&["h1", "h2"]));
    assert_eq!(player_set_current(&mut state, 2), Err(Error::OutOfRange));
}

#[test]
fn rank_up_on_first_member_changes_nothing() {
    let mut state = library_with(&[("h1", "/m/1"), ("h2", "/m/2"), ("h3", "/m/3")]);
    db_add_emotion(&mut state, "calm".to_string()).unwrap();
    db_add_emotion_tracks(&mut state, "calm".to_string(), strings(&["h1", "h2", "h3"])).unwrap();
    db_rank_up_emotion_track(&mut state, "calm".to_string(), "h1".to_string()).unwrap();
    db_rank_up_emotion_track(&mut state, "calm".to_string(), "h1".to_string()).unwrap();
    let got = db_get_emotion_tracks(&state, "calm".to_string()).unwrap();
    assert_eq!(ids(&got), strings(&["h1", "h2", "h3"]));
}

#[test]
fn rank_up_swaps_with_predecessor() {
    let mut state = library_with(&[("h1", "/m/1"), ("h2", "/m/2"), ("h3", "/m/3")]);
    db_add_emotion(&mut state, "calm".to_string()).unwrap();
    db_add_emotion_tracks(&mut state, "calm".to_string(), strings(&["h1", "h2", "h3"])).unwrap();
    db_rank_up_emotion_track(&mut state, "calm".to_string(), "h3".to_string()).unwrap();
    let got = db_get_emotion_tracks(&state, "calm".to_string()).unwrap();
    assert_eq!(ids(&got), strings(&["h1", "h3", "h2"]));
    assert_eq!(
        db_rank_up_emotion_track(&mut state, "calm".to_string(), "h9".to_string()),
        Err(Error::NotFound)
    );
    assert_eq!(
        db_rank_up_emotion_track(&mut state, "sad".to_string(), "h1".to_string()),
        Err(Error::NotFound)
    );
    assert_eq!(db_get_emotions(&state).unwrap(), strings(&["calm"]));
    assert_eq!(db_add_emotion(&mut state, "calm".to_string()), Err(Error::Conflict));
}

#[test]
fn reorder_and_back_restores_order() {
    let mut state = library_with(&[("h1", "/m/1"), ("h2", "/m/2"), ("h3", "/m/3"), ("h4", "/m/4")]);
    db_add_playlist(&mut state, "A".to_string()).unwrap();
    db_add_playlist_tracks(&mut state, "A".to_string(), strings(&["h1", "h2", "h3", "h4"])).unwrap();
    db_reorder_playlist_track(&mut state, "A".to_string(), "h2".to_string(), 1, 3).unwrap();
    let mid = db_get_playlist_tracks(&state, "A".to_string()).unwrap();
    assert_eq!(ids(&mid), strings(&["h1", "h3", "h4", "h2"]));
    db_reorder_playlist_track(&mut state, "A".to_string(), "h2".to_string(), 3, 1).unwrap();
    let back = db_get_playlist_tracks(&state, "A".to_string()).unwrap();
    assert_eq!(ids(&back), strings(&["h1", "h2", "h3", "h4"]));
    db_reorder_playlist_track(&mut state, "A".to_string(), "h3".to_string(), 2, 2).unwrap();
    let same = db_get_playlist_tracks(&state, "A".to_string()).unwrap();
    assert_eq!(ids(&same), strings(&["h1", "h2", "h3", "h4"]));
}

#[test]
fn reorder_errors() {
    let mut state = library_with(&[("h1", "/m/1"), ("h2", "/m/2")]);
    db_add_playlist(&mut state, "A".to_string()).unwrap();
    db_add_playlist_tracks(&mut state, "A".to_string(), strings(&["h1", "h2"])).unwrap();
    let a = || "A".to_string();
    assert_eq!(db_reorder_playlist_track(&mut state, a(), "h1".to_string(), 0, 2), Err(Error::OutOfRange));
    assert_eq!(db_reorder_playlist_track(&mut state, a(), "h1".to_string(), -1, 0), Err(Error::OutOfRange));
    assert_eq!(db_reorder_playlist_track(&mut state, a(), "h2".to_string(), 0, 1), Err(Error::NotFound));
    assert_eq!(
        db_reorder_playlist_track(&mut state, "B".to_string(), "h1".to_string(), 0, 1),
        Err(Error::NotFound)
    );
    let got = db_get_playlist_tracks(&state, a()).unwrap();
    assert_eq!(ids(&got), strings(&["h1", "h2"]));
}

#[test]
fn identical_content_keeps_one_row() {
    let mut state = AppState::new();
    let both = vec![read("same", "/m/a.mp3"), read("same", "/m/copy/a.mp3")];
    let report = db_scan_dirs(&mut state, &both).unwrap();
    assert_eq!(report.indexed, 2);
    assert_eq!(state.db.index.tracks.len(), 1);
    assert_eq!(state.db.index.tracks[0].id, "same");
    let one = vec![read("same", "/m/copy/a.mp3")];
    db_scan_dirs(&mut state, &one).unwrap();
    assert_eq!(state.db.index.tracks.len(), 1);
    assert_eq!(state.db.index.tracks[0].id, "same");
    assert_eq!(state.db.index.tracks[0].path, "/m/copy/a.mp3");
}

#[test]
fn moved_file_keeps_its_row_and_takes_new_path() {
    let mut state = library_with(&[("h1", "/m/old.ogg"), ("h2", "/m/2")]);
    db_scan_dirs(&mut state, &vec![read("h2", "/m/2"), read("h1", "/m/new.ogg")]).unwrap();
    assert_eq!(ids(&state.db.index.tracks), strings(&["h1", "h2"]));
    assert_eq!(state.db.index.tracks[0].path, "/m/new.ogg");
}

#[test]
fn unreadable_file_keeps_its_row() {
    let mut state = library_with(&[("h1", "/m/1"), ("h2", "/m/2")]);
    db_scan_dirs(&mut state, &vec![read("h1", "/m/1"), Probe::Unreadable("/m/2".to_string())]).unwrap();
    assert_eq!(ids(&state.db.index.tracks), strings(&["h1", "h2"]));
}

#[test]
fn removed_track_leaves_every_list() {
    let mut state = library_with(&[("h1", "/m/1"), ("h2", "/m/2")]);
    db_add_playlist(&mut state, "A".to_string()).unwrap();
    db_add_playlist_tracks(&mut state, "A".to_string(), strings(&["h1", "h2", "h1"])).unwrap();
    db_add_emotion(&mut state, "calm".to_string()).unwrap();
    db_add_emotion_tracks(&mut state, "calm".to_string(), strings(&["h2", "h1"])).unwrap();
    db_scan_dirs(&mut state, &vec![read("h2", "/m/2")]).unwrap();
    let p = db_get_playlist_tracks(&state, "A".to_string()).unwrap();
    assert_eq!(ids(&p), strings(&["h2"]));
    let e = db_get_emotion_tracks(&state, "calm".to_string()).unwrap();
    assert_eq!(ids(&e), strings(&["h2"]));
}

#[test]
fn playlist_crud_errors() {
    let mut state = library_with(&[("h1", "/m/1")]);
    db_add_playlist(&mut state, "A".to_string()).unwrap();
    db_add_playlist(&mut state, "B".to_string()).unwrap();
    assert_eq!(db_add_playlist(&mut state, "A".to_string()), Err(Error::Conflict));
    assert_eq!(db_rename_playlist(&mut state, "A".to_string(), "B".to_string()), Err(Error::Conflict));
    assert_eq!(db_rename_playlist(&mut state, "Z".to_string(), "C".to_string()), Err(Error::NotFound));
    db_rename_playlist(&mut state, "A".to_string(), "C".to_string()).unwrap();
    assert_eq!(db_get_playlists(&state).unwrap(), strings(&["C", "B"]));
    assert_eq!(db_remove_playlist(&mut state, "A".to_string()), Err(Error::NotFound));
    db_remove_playlist(&mut state, "C".to_string()).unwrap();
    assert_eq!(db_get_playlists(&state).unwrap(), strings(&["B"]));
    assert_eq!(
        db_add_playlist_tracks(&mut state, "B".to_string(), strings(&["h1", "unknown"])),
        Err(Error::NotFound)
    );
    assert_eq!(db_get_playlist_tracks(&state, "B".to_string()).unwrap().len(), 0);
    assert_eq!(db_get_playlist_tracks(&state, "C".to_string()), Err(Error::NotFound));
}

#[test]
fn remove_playlist_tracks_listed_or_all() {
    let mut state = library_with(&[("h1", "/m/1"), ("h2", "/m/2"), ("h3", "/m/3")]);
    db_add_playlist(&mut state, "A".to_string()).unwrap();
    db_add_playlist_tracks(&mut state, "A".to_string(), strings(&["h1", "h2", "h3", "h2"])).unwrap();
    db_remove_playlist_tracks(&mut state, "A".to_string(), Some(strings(&["h2"]))).unwrap();
    let got = db_get_playlist_tracks(&state, "A".to_string()).unwrap();
    assert_eq!(ids(&got), strings(&["h1", "h3"]));
    db_remove_playlist_tracks(&mut state, "A".to_string(), None).unwrap();
    assert_eq!(db_get_playlist_tracks(&state, "A".to_string()).unwrap().len(), 0);
    assert_eq!(db_remove_playlist_tracks(&mut state, "X".to_string(), None), Err(Error::NotFound));
}

#[test]
fn seek_errors() {
    let mut state = library_with(&[("h1", "/m/1")]);
    assert_eq!(player_seek(&mut state, 0), Err(Error::StateError));
    player_set_queue(&mut state, strings(&["/m/1"])).unwrap();
    assert_eq!(player_seek(&mut state, 10_001), Err(Error::OutOfRange));
    player_seek(&mut state, 10_000).unwrap();
    assert_eq!(state.player.elapsed, 10_000);
}

#[test]
fn set_queue_takes_unknown_paths_as_bare_tracks() {
    let mut state = library_with(&[("h1", "/m/1")]);
    player_add_arbitrary_track(&mut state, track("x", "/elsewhere", "a", "b", 500)).unwrap();
    player_play(&mut state).unwrap();
    player_set_queue(&mut state, strings(&["/m/1", "/elsewhere", "/nowhere"])).unwrap();
    assert_eq!(ids(&state.player.queue), strings(&["h1", "x", ""]));
    let bare = &state.player.queue[2];
    assert_eq!(bare.path, "/nowhere");
    assert_eq!(bare.duration, 0);
    assert_eq!(bare.title, "");
    let arbitrary = player_get_arbitrary_tracks(&state).unwrap();
    assert_eq!(arbitrary.len(), 2);
    assert_eq!(arbitrary[1].path, "/nowhere");
    assert_eq!(state.player.state, PlayState::Stopped);
    player_set_queue(&mut state, strings(&["/nowhere"])).unwrap();
    assert_eq!(player_get_arbitrary_tracks(&state).unwrap().len(), 2);
}

#[test]
fn set_queue_on_fresh_state_accepts_any_path() {
    let mut state = AppState::new();
    assert_eq!(player_set_queue(&mut state, strings(&[""])), Ok(()));
    assert_eq!(state.player.queue.len(), 1);
    assert_eq!(state.player.current, 0);
    assert_eq!(state.player.volume, MAX_VOLUME);
}

#[test]
fn set_queue_while_playing_restarts_from_top() {
    let mut state = library_with(&[("h1", "/m/1"), ("h2", "/m/2")]);
    player_set_queue(&mut state, strings(&["/m/1", "/m/2"])).unwrap();
    player_play(&mut state).unwrap();
    player_goto(&mut state, 1).unwrap();
    state.take_commands();
    player_set_queue(&mut state, strings(&["/m/2"])).unwrap();
    assert_eq!(state.player.state, PlayState::Playing);
    assert_eq!(state.player.current, 0);
    assert_eq!(state.take_commands(), vec![Command::Start { index: 0, offset: 0 }]);
    player_set_queue(&mut state, Vec::new()).unwrap();
    assert_eq!(state.player.state, PlayState::Stopped);
}

#[test]
fn end_of_track_advances_then_stops_on_last() {
    let mut state = library_with(&[("h1", "/m/1"), ("h2", "/m/2")]);
    player_set_queue(&mut state, strings(&["/m/1", "/m/2"])).unwrap();
    player_play(&mut state).unwrap();
    player_track_finished(&mut state).unwrap();
    assert_eq!(state.player.current, 1);
    assert_eq!(state.player.state, PlayState::Playing);
    player_track_finished(&mut state).unwrap();
    assert_eq!(state.player.current, 1);
    assert_eq!(state.player.state, PlayState::Stopped);
    let cmds = state.take_commands();
    assert_eq!(cmds[cmds.len() - 2..], [Command::Start { index: 1, offset: 0 }, Command::Halt]);
}

#[test]
fn stop_keeps_position_and_play_resumes() {
    let mut state = library_with(&[("h1", "/m/1"), ("h2", "/m/2")]);
    player_set_queue(&mut state, strings(&["/m/1", "/m/2"])).unwrap();
    player_goto(&mut state, 1).unwrap();
    player_seek(&mut state, 300).unwrap();
    player_stop(&mut state).unwrap();
    assert_eq!(state.player.state, PlayState::Stopped);
    assert_eq!(state.player.current, 1);
    assert_eq!(state.player.elapsed, 0);
    state.take_commands();
    player_play(&mut state).unwrap();
    assert_eq!(state.take_commands(), vec![Command::Start { index: 1, offset: 0 }]);
    assert!(!player_is_paused(&state).unwrap());
}

#[test]
fn volume_is_clamped() {
    let mut state = AppState::new();
    player_set_volume(&mut state, 250).unwrap();
    assert_eq!(state.player.volume, 250);
    player_set_volume(&mut state, 1500).unwrap();
    assert_eq!(state.player.volume, MAX_VOLUME);
    assert_eq!(state.take_commands(), vec![Command::Volume(250), Command::Volume(1000)]);
}

#[test]
fn queries_filter_and_group() {
    let mut state = AppState::new();
    let probes = vec![
        Probe::Read(track("a1", "/m/a1", "Ann", "First", 1)),
        Probe::Read(track("b1", "/m/b1", "Bob", "Solo", 1)),
        Probe::Read(track("a2", "/m/a2", "Ann", "Second", 1)),
        Probe::Read(track("a3", "/m/a3", "Ann", "First", 1)),
    ];
    db_scan_dirs(&mut state, &probes).unwrap();
    let none = GetTracksFilters { artist: None, album: None, emotion: None };
    assert_eq!(ids(&db_get_tracks(&state, none).unwrap()), strings(&["a1", "b1", "a2", "a3"]));
    let ann = GetTracksFilters { artist: Some("Ann".to_string()), album: Some("First".to_string()), emotion: None };
    assert_eq!(ids(&db_get_tracks(&state, ann).unwrap()), strings(&["a1", "a3"]));
    db_add_emotion(&mut state, "joy".to_string()).unwrap();
    db_add_emotion_tracks(&mut state, "joy".to_string(), strings(&["a3", "b1"])).unwrap();
    let joy = GetTracksFilters { artist: None, album: None, emotion: Some("joy".to_string()) };
    assert_eq!(ids(&db_get_tracks(&state, joy).unwrap()), strings(&["b1", "a3"]));
    let missing = GetTracksFilters { artist: None, album: None, emotion: Some("none".to_string()) };
    assert_eq!(db_get_tracks(&state, missing), Err(Error::NotFound));
    assert_eq!(db_get_artists(&state).unwrap(), strings(&["Ann", "Bob"]));
    let albums: Vec<(String, String)> =
        db_get_albums(&state).unwrap().into_iter().map(|a| (a.artist, a.name)).collect();
    assert_eq!(
        albums,
        vec![
            ("Ann".to_string(), "First".to_string()),
            ("Bob".to_string(), "Solo".to_string()),
            ("Ann".to_string(), "Second".to_string()),
        ]
    );
}

#[test]
fn content_id_is_hex_sha256() {
    assert_eq!(
        content_id(b"abc"),
        "ba7816bf8f01cfea414140de5dae2223b00361a396177a9cb410ff61f20015ad"
    );
    assert_eq!(
        content_id(b""),
        "e3b0c44298fc1c149afbf4c8996fb92427ae41e4649b934ca495991b7852b855"
    );
}

#[test]
fn probe_file_identifies_content_not_path() {
    let bytes = vec![1u8, 2, 3, 4];
    let a = probe_file("/m/a.wav".to_string(), Some(&bytes), "t".to_string(), "x".to_string(), "y".to_string(), 9);
    let b = probe_file("/m/b.wav".to_string(), Some(&bytes), "t".to_string(), "x".to_string(), "y".to_string(), 9);
    let c = probe_file("/m/c.wav".to_string(), None, String::new(), String::new(), String::new(), 0);
    assert_eq!(c, Probe::Unreadable("/m/c.wav".to_string()));
    match (&a, &b) {
        (Probe::Read(x), Probe::Read(y)) => {
            assert_eq!(x.id, y.id);
            assert_eq!(x.id, content_id(&bytes));
            assert_eq!(x.path, "/m/a.wav");
        }
        _ => panic!("both files were readable"),
    }
    let mut state = AppState::new();
    let report = db_scan_dirs(&mut state, &vec![a, b, c]).unwrap();
    assert_eq!(report.indexed, 2);
    assert_eq!(report.failed.len(), 1);
    assert_eq!(state.db.index.tracks.len(), 1);
}

#[test]
fn watched_dirs_hold_each_root_once() {
    let mut state = AppState::new();
    db_set_dirs(&mut state, strings(&["/music", "/more", "/music"])).unwrap();
    assert_eq!(db_get_dirs(&state).unwrap(), strings(&["/music", "/more"]));
    db_set_dirs(&mut state, Vec::new()).unwrap();
    assert!(db_get_dirs(&state).unwrap().is_empty());
}

#[test]
fn audio_paths_by_extension() {
    assert!(is_audio_path(&"/m/song.mp3".to_string()));
    assert!(is_audio_path(&"/m/SONG.FLAC".to_string()));
    assert!(is_audio_path(&"x.opus".to_string()));
    assert!(!is_audio_path(&"/m/cover.jpg".to_string()));
    assert!(!is_audio_path(&"mp3".to_string()));
    assert!(!is_audio_path(&String::new()));
}

#[test]
fn controls_that_do_not_apply_change_nothing() {
    let mut state = library_with(&[("h1", "/m/1")]);
    player_play(&mut state).unwrap();
    assert_eq!(state.player.state, PlayState::Stopped);
    player_set_queue(&mut state, strings(&["/m/1"])).unwrap();
    player_pause(&mut state).unwrap();
    player_track_finished(&mut state).unwrap();
    assert_eq!(state.player.state, PlayState::Stopped);
    assert_eq!(state.player.current, 0);
    assert_eq!(
        state.take_commands(),
        vec![Command::Idle, Command::Halt, Command::Idle, Command::Idle]
    );
}

#[test]
fn rescan_moves_queued_track_to_new_path() {
    let mut state = library_with(&[("h1", "/m/1"), ("h2", "/m/2")]);
    player_set_queue(&mut state, strings(&["/m/1", "/m/2"])).unwrap();
    player_goto(&mut state, 1).unwrap();
    db_scan_dirs(&mut state, &vec![read("h1", "/m/renamed"), read("h2", "/m/2")]).unwrap();
    assert_eq!(state.player.queue[0].path, "/m/renamed");
    assert_eq!(state.player.queue[1].path, "/m/2");
    assert_eq!(state.player.current, 1);
    assert_eq!(state.player.state, PlayState::Playing);
}

#[test]
fn unknown_paths_are_those_no_one_holds() {
    let mut state = library_with(&[("h1", "/m/1")]);
    player_add_arbitrary_track(&mut state, track("x", "/elsewhere", "a", "b", 500)).unwrap();
    let got = player_unknown_paths(&state, &strings(&["/m/1", "/new", "/elsewhere", "/other"]));
    assert_eq!(got, strings(&["/new", "/other"]));
}
