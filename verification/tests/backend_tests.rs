use autofy::backend::{FetchedSource, Pipe, Playlist, RemoteSource, Source};
use autofy::songs::PlayableId;

fn track(id: &str) -> PlayableId {
    PlayableId::Track(id.to_string())
}

fn pipe(name: &str, source: Source) -> Pipe {
    Pipe { source, filters: Vec::new(), name: name.to_string() }
}

fn songs(name: &str, ids: &[&str]) -> Source {
    Source::Songs { raw_imports: ids.iter().map(|i| track(i)).collect(), name: name.to_string() }
}

fn playlist(name: &str, sources: Vec<Pipe>) -> Playlist {
    Playlist { name: name.to_string(), sources, is_shadow: false }
}

#[test]
fn get_songs_joins_pipes_and_removes_repeats() {
    let p = playlist(
        "mix",
        vec![pipe("first", songs("s1", &["a", "b", "a"])), pipe("second", songs("s2", &["c", "b"]))],
    );
    assert_eq!(p.get_songs(&Vec::new()), vec![track("a"), track("b"), track("c")]);
}

#[test]
fn get_songs_looks_up_remote_sources() {
    let p = playlist(
        "remote",
        vec![
            pipe("list", Source::Playlist("pl1".to_string())),
            pipe("album", Source::Album("al1".to_string())),
        ],
    );
    let fetched = vec![
        FetchedSource { source: RemoteSource::Album("al1".to_string()), songs: vec![track("x"), track("y")] },
        FetchedSource { source: RemoteSource::Playlist("pl1".to_string()), songs: vec![track("y"), track("z")] },
        FetchedSource { source: RemoteSource::Playlist("pl1".to_string()), songs: vec![track("ignored")] },
    ];
    assert_eq!(p.get_songs(&fetched), vec![track("y"), track("z"), track("x")]);
}

#[test]
fn get_songs_of_a_source_without_fetched_entry_is_empty() {
    let p = playlist("remote", vec![pipe("list", Source::Playlist("missing".to_string()))]);
    let fetched = vec![FetchedSource {
        source: RemoteSource::Album("missing".to_string()),
        songs: vec![track("x")],
    }];
    assert_eq!(p.get_songs(&fetched), Vec::<PlayableId>::new());
}

#[test]
fn get_songs_of_nested_playlists() {
    let inner = Playlist {
        name: "inner".to_string(),
        sources: vec![pipe("a", songs("s", &["1", "2"])), pipe("b", Source::Album("al".to_string()))],
        is_shadow: true,
    };
    let outer = playlist("outer", vec![pipe("auto", Source::AutoPlaylist(inner)), pipe("more", songs("t", &["2", "4"]))]);
    let fetched = vec![FetchedSource { source: RemoteSource::Album("al".to_string()), songs: vec![track("3"), track("1")] }];
    assert_eq!(outer.get_songs(&fetched), vec![track("1"), track("2"), track("3"), track("4")]);
}

#[test]
fn pipe_and_source_songs_keep_repeats() {
    let p = pipe("p", songs("s", &["a", "a", "b"]));
    assert_eq!(p.get_songs(&Vec::new()), vec![track("a"), track("a"), track("b")]);
    assert_eq!(p.source.get_songs(&Vec::new()), vec![track("a"), track("a"), track("b")]);
}

#[test]
fn remote_sources_lists_what_get_songs_needs_in_order() {
    let inner = playlist("inner", vec![pipe("x", Source::Album("al".to_string()))]);
    let outer = playlist(
        "outer",
        vec![
            pipe("p", Source::Playlist("pl".to_string())),
            pipe("s", songs("s", &["a"])),
            pipe("auto", Source::AutoPlaylist(inner)),
            pipe("again", Source::Playlist("pl".to_string())),
        ],
    );
    assert_eq!(
        outer.remote_sources(),
        vec![
            RemoteSource::Playlist("pl".to_string()),
            RemoteSource::Album("al".to_string()),
            RemoteSource::Playlist("pl".to_string()),
        ]
    );
    assert_eq!(songs("s", &["a"]).remote_sources(), Vec::<RemoteSource>::new());
}

#[test]
fn remote_source_comparison() {
    let a = RemoteSource::Playlist("1".to_string());
    assert!(a.same_as(&RemoteSource::Playlist("1".to_string())));
    assert!(!a.same_as(&RemoteSource::Album("1".to_string())));
    assert_eq!(a.duplicate(), a);
}

#[test]
fn fetched_entries_for_other_sources_do_not_matter() {
    let p = playlist("p", vec![pipe("list", Source::Playlist("pl".to_string())), pipe("s", songs("s", &["k"]))]);
    let needed = FetchedSource { source: RemoteSource::Playlist("pl".to_string()), songs: vec![track("m")] };
    let unrelated = FetchedSource { source: RemoteSource::Album("pl".to_string()), songs: vec![track("zzz")] };
    let with_extra = vec![unrelated, needed.clone()];
    assert_eq!(p.get_songs(&vec![needed]), p.get_songs(&with_extra));
    assert_eq!(p.get_songs(&with_extra), vec![track("m"), track("k")]);
}
