use autofy::backend::{Pipe, Playlist, Source};
use autofy::frontend::{App, Key, ListEntry, ListSelection, Screen};

fn selection(selected: Option<usize>) -> ListSelection {
    ListSelection { offset: 0, selected }
}

fn item(label: &str) -> ListEntry {
    ListEntry { label: label.to_string(), is_action: false }
}

fn action(label: &str) -> ListEntry {
    ListEntry { label: label.to_string(), is_action: true }
}

fn sample_app(screen: Screen) -> App {
    let pipes = vec![
        Pipe { source: Source::Playlist("p".to_string()), filters: Vec::new(), name: "from list".to_string() },
        Pipe { source: Source::Album("a".to_string()), filters: Vec::new(), name: "from album".to_string() },
    ];
    App {
        playlists: vec![
            Playlist { name: "first".to_string(), sources: Vec::new(), is_shadow: false },
            Playlist { name: "second".to_string(), sources: pipes, is_shadow: true },
        ],
        screen,
        exiting: false,
    }
}

#[test]
fn defaults_start_at_the_playlists() {
    assert_eq!(ListSelection::default(), selection(None));
    assert_eq!(Screen::default(), Screen::EditingPlaylists { playlists_list_state: selection(None) });
    let app = App::default();
    assert!(app.playlists.is_empty());
    assert!(!app.exiting);
    assert_eq!(app.screen, Screen::default());
}

#[test]
fn promote_opens_a_fresh_inner_list() {
    let s = Screen::EditingPlaylists { playlists_list_state: selection(Some(1)) };
    let down = s.promote();
    assert_eq!(
        down,
        Screen::EditingSources { playlists_list_state: selection(Some(1)), source_list_state: selection(None) }
    );
    let further = Screen::EditingSources { playlists_list_state: selection(Some(1)), source_list_state: selection(Some(0)) }.promote();
    assert_eq!(
        further,
        Screen::EditingFilters {
            playlists_list_state: selection(Some(1)),
            source_list_state: selection(Some(0)),
            filter_list_state: selection(None),
        }
    );
}

#[test]
fn demote_drops_the_inner_list() {
    let s = Screen::EditingFilters {
        playlists_list_state: selection(Some(2)),
        source_list_state: selection(Some(3)),
        filter_list_state: selection(Some(4)),
    };
    let up = s.demote();
    assert_eq!(up, Screen::EditingSources { playlists_list_state: selection(Some(2)), source_list_state: selection(Some(3)) });
    assert_eq!(up.demote(), Screen::EditingPlaylists { playlists_list_state: selection(Some(2)) });
}

#[test]
fn demote_undoes_promote() {
    let s = Screen::EditingPlaylists { playlists_list_state: ListSelection { offset: 3, selected: Some(5) } };
    assert_eq!(s.promote().demote(), s);
    let t = Screen::EditingSources { playlists_list_state: selection(Some(0)), source_list_state: selection(Some(1)) };
    assert_eq!(t.promote().demote(), t);
}

#[test]
fn handle_q_exits_and_other_keys_change_nothing() {
    let mut app = sample_app(Screen::default());
    for key in [Key::Backspace, Key::Enter, Key::Left, Key::Right, Key::Up, Key::Down, Key::Tab, Key::Delete, Key::Char('x'), Key::Esc, Key::Other] {
        app.handle(key);
        assert!(!app.exiting);
        assert_eq!(app.screen, Screen::default());
        assert_eq!(app.playlists.len(), 2);
    }
    app.handle(Key::Char('q'));
    assert!(app.exiting);
    app.handle(Key::Char('a'));
    assert!(app.exiting);
}

#[test]
fn items_of_the_playlists_screen() {
    let app = sample_app(Screen::default());
    let [a, b, c] = app.get_items();
    assert_eq!(a, Some(vec![item("first"), item("second"), action("+add new playlist")]));
    assert_eq!(b, None);
    assert_eq!(c, None);
}

#[test]
fn items_of_the_sources_screen() {
    let app = sample_app(Screen::EditingSources { playlists_list_state: selection(Some(1)), source_list_state: selection(None) });
    let [a, b, c] = app.get_items();
    assert_eq!(a, Some(vec![item("first"), item("second")]));
    assert_eq!(b, Some(vec![item("from list"), item("from album"), action("+add new source")]));
    assert_eq!(c, None);
}

#[test]
fn items_of_the_filters_screen() {
    let app = sample_app(Screen::EditingFilters {
        playlists_list_state: selection(Some(1)),
        source_list_state: selection(Some(0)),
        filter_list_state: selection(None),
    });
    let [a, b, c] = app.get_items();
    assert_eq!(a, Some(vec![item("first"), item("second")]));
    assert_eq!(b, Some(vec![item("from list"), item("from album")]));
    assert_eq!(c, Some(vec![action("+add new filter")]));
}
