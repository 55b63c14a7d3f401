use vstd::prelude::*;

use crate::backend::{Filter, Pipe, Playlist};

verus! {

/// Which row of a list is selected, and from which row the list is shown.
#[derive(Debug, Clone, Copy, PartialEq, Eq)]
pub struct ListSelection {
    pub offset: usize,
    pub selected: Option<usize>,
}

/// A list shown from its top with nothing selected.
pub open spec fn fresh_selection() -> ListSelection {
    ListSelection { offset: 0, selected: None }
}

impl Default for ListSelection {
    fn default() -> (res: Self)
        ensures
            res == fresh_selection(),
    {
        ListSelection { offset: 0, selected: None }
    }
}

/// What the user is editing: the playlists, the sources of a playlist, or
/// the filters of a source. Each screen keeps the selections of the lists
/// above it.
#[derive(Debug, Clone, Copy, PartialEq, Eq)]
pub enum Screen {
    EditingPlaylists { playlists_list_state: ListSelection },
    EditingSources { playlists_list_state: ListSelection, source_list_state: ListSelection },
    EditingFilters {
        playlists_list_state: ListSelection,
        source_list_state: ListSelection,
        filter_list_state: ListSelection,
    },
}

/// The screen one level up: the selection of the innermost list is dropped.
pub open spec fn demoted(screen: Screen) -> Screen {
    match screen {
        Screen::EditingPlaylists { .. } => screen,
        Screen::EditingSources { playlists_list_state, .. } => Screen::EditingPlaylists {
            playlists_list_state,
        },
        Screen::EditingFilters { playlists_list_state, source_list_state, .. } => Screen::EditingSources {
            playlists_list_state,
            source_list_state,
        },
    }
}

/// The screen one level down: a new innermost list, shown from its top with
/// nothing selected.
pub open spec fn promoted(screen: Screen) -> Screen {
    match screen {
        Screen::EditingPlaylists { playlists_list_state } => Screen::EditingSources {
            playlists_list_state,
            source_list_state: fresh_selection(),
        },
        Screen::EditingSources { playlists_list_state, source_list_state } => Screen::EditingFilters {
            playlists_list_state,
            source_list_state,
            filter_list_state: fresh_selection(),
        },
        Screen::EditingFilters { .. } => screen,
    }
}

/// How deep a screen is: 0 for the playlists, 1 for sources, 2 for filters.
pub open spec fn depth(screen: Screen) -> int {
    match screen {
        Screen::EditingPlaylists { .. } => 0,
        Screen::EditingSources { .. } => 1,
        Screen::EditingFilters { .. } => 2,
    }
}

impl Screen {
    /// Goes one level up. There is nothing above the playlists.
    pub fn demote(self) -> (res: Self)
        requires
            !(self is EditingPlaylists),
        ensures
            res == demoted(self),
    {
        match self {
            Screen::EditingPlaylists { playlists_list_state } => Screen::EditingPlaylists {
                playlists_list_state,
            },
            Screen::EditingSources { playlists_list_state, source_list_state: _ } => {
                Screen::EditingPlaylists { playlists_list_state }
            },
            Screen::EditingFilters { playlists_list_state, source_list_state, filter_list_state: _ } => {
                Screen::EditingSources { playlists_list_state, source_list_state }
            },
        }
    }

    /// Goes one level down. There is nothing below the filters.
    pub fn promote(self) -> (res: Self)
        requires
            !(self is EditingFilters),
        ensures
            res == promoted(self),
    {
        match self {
            Screen::EditingPlaylists { playlists_list_state } => Screen::EditingSources {
                playlists_list_state,
                source_list_state: ListSelection::default(),
            },
            Screen::EditingSources { playlists_list_state, source_list_state } => {
                Screen::EditingFilters {
                    playlists_list_state,
                    source_list_state,
                    filter_list_state: ListSelection::default(),
                }
            },
            Screen::EditingFilters { playlists_list_state, source_list_state, filter_list_state } => {
                Screen::EditingFilters { playlists_list_state, source_list_state, filter_list_state }
            },
        }
    }
}

impl Default for Screen {
    fn default() -> (res: Self)
        ensures
            res == (Screen::EditingPlaylists { playlists_list_state: fresh_selection() }),
    {
        Screen::EditingPlaylists { playlists_list_state: ListSelection::default() }
    }
}

/// Going down and back up returns to the same screen.
pub proof fn lemma_demote_undoes_promote(screen: Screen)
    requires
        !(screen is EditingFilters),
    ensures
        demoted(promoted(screen)) == screen,
        depth(promoted(screen)) == depth(screen) + 1,
{
}

/// Going up and back down returns to the same screen when the innermost list
/// was shown from its top with nothing selected; otherwise that selection is lost.
pub proof fn lemma_promote_after_demote(screen: Screen)
    requires
        !(screen is EditingPlaylists),
    ensures
        depth(demoted(screen)) == depth(screen) - 1,
        (promoted(demoted(screen)) == screen) <==> match screen {
            Screen::EditingSources { source_list_state, .. } => source_list_state == fresh_selection(),
            Screen::EditingFilters { filter_list_state, .. } => filter_list_state == fresh_selection(),
            Screen::EditingPlaylists { .. } => true,
        },
{
}

/// A key that the user pressed.
#[derive(Debug, Clone, Copy, PartialEq, Eq)]
pub enum Key {
    Backspace,
    Enter,
    Left,
    Right,
    Up,
    Down,
    Tab,
    Delete,
    Char(char),
    Esc,
    /// Any other key.
    Other,
}

/// The state of the editor.
#[derive(Debug)]
pub struct App {
    pub playlists: Vec<Playlist>,
    pub screen: Screen,
    pub exiting: bool,
}

impl Default for App {
    fn default() -> (res: Self)
        ensures
            res.playlists@.len() == 0,
            res.screen == (Screen::EditingPlaylists { playlists_list_state: fresh_selection() }),
            !res.exiting,
    {
        App { playlists: Vec::new(), screen: Screen::default(), exiting: false }
    }
}

/// A row of a list: its text, and whether it is an action rather than an item.
#[derive(Debug, Clone, PartialEq, Eq)]
pub struct ListEntry {
    pub label: String,
    pub is_action: bool,
}

/// The value of a list's rows.
pub open spec fn entries_view(entries: Seq<ListEntry>) -> Seq<(Seq<char>, bool)> {
    entries.map_values(|e: ListEntry| (e.label@, e.is_action))
}

/// The value of an optional list.
pub open spec fn list_view(list: Option<Vec<ListEntry>>) -> Option<Seq<(Seq<char>, bool)>> {
    match list {
        Some(v) => Some(entries_view(v@)),
        None => None,
    }
}

/// Rows that show items, one per name.
pub open spec fn item_rows(names: Seq<Seq<char>>) -> Seq<(Seq<char>, bool)> {
    names.map_values(|n: Seq<char>| (n, false))
}

pub open spec fn playlist_names(playlists: Seq<Playlist>) -> Seq<Seq<char>> {
    playlists.map_values(|p: Playlist| p.name@)
}

pub open spec fn pipe_names(pipes: Seq<Pipe>) -> Seq<Seq<char>> {
    pipes.map_values(|p: Pipe| p.name@)
}

pub open spec fn filter_names(filters: Seq<Filter>) -> Seq<Seq<char>> {
    filters.map_values(|f: Filter| f.title())
}

/// Whether the lists of the screen can be shown: on a screen of sources the
/// selected playlist exists, and on a screen of filters the selected source exists too.
pub open spec fn selections_exist(app: App) -> bool {
    match app.screen {
        Screen::EditingPlaylists { .. } => true,
        Screen::EditingSources { playlists_list_state, .. } => playlists_list_state.selected matches Some(
            i,
        ) && i < app.playlists@.len(),
        Screen::EditingFilters { playlists_list_state, source_list_state, .. } => {
            &&& playlists_list_state.selected matches Some(i)
            &&& i < app.playlists@.len()
            &&& source_list_state.selected matches Some(j)
            &&& j < app.playlists@[i as int].sources@.len()
        },
    }
}

/// The three lists that a screen shows: the playlists, the sources of the
/// selected playlist and the filters of the selected source, as far down as
/// the screen goes. The innermost list ends with a row for adding an item.
pub open spec fn screen_lists(app: App) -> Seq<Option<Seq<(Seq<char>, bool)>>> {
    let playlists = item_rows(playlist_names(app.playlists@));
    match app.screen {
        Screen::EditingPlaylists { .. } => seq![
            Some(playlists.push(("+add new playlist"@, true))),
            None,
            None,
        ],
        Screen::EditingSources { playlists_list_state, .. } => {
            let pipes = app.playlists@[playlists_list_state.selected->0 as int].sources@;
            seq![
                Some(playlists),
                Some(item_rows(pipe_names(pipes)).push(("+add new source"@, true))),
                None,
            ]
        },
        Screen::EditingFilters { playlists_list_state, source_list_state, .. } => {
            let pipes = app.playlists@[playlists_list_state.selected->0 as int].sources@;
            let filters = pipes[source_list_state.selected->0 as int].filters@;
            seq![
                Some(playlists),
                Some(item_rows(pipe_names(pipes))),
                Some(item_rows(filter_names(filters)).push(("+add new filter"@, true))),
            ]
        },
    }
}

/// What the lists of a screen show: the first list holds one row per
/// playlist, with its name; on the sources screen the second list holds one
/// row per pipe of the selected playlist (the playlist at the selected index,
/// however far the list is scrolled), then the row for adding a source; on
/// the filters screen the second list holds the pipes of the selected
/// playlist and the third one row per filter of the selected pipe, then the
/// row for adding a filter. Rows of items are not actions; the adding rows are.
pub proof fn lemma_screen_lists_rows(app: App)
    requires
        selections_exist(app),
    ensures
        ({
            let lists = screen_lists(app);
            let ps = app.playlists@;
            &&& lists.len() == 3
            &&& lists[0] matches Some(rows) && rows.len() >= ps.len()
                && forall|k: int| 0 <= k < ps.len() ==> #[trigger] rows[k] == (ps[k].name@, false)
            &&& match app.screen {
                Screen::EditingPlaylists { .. } => {
                    &&& lists[0] matches Some(rows) && rows.len() == ps.len() + 1
                        && rows[ps.len() as int] == ("+add new playlist"@, true)
                    &&& lists[1] is None
                    &&& lists[2] is None
                },
                Screen::EditingSources { playlists_list_state, .. } => {
                    let pipes = ps[playlists_list_state.selected->0 as int].sources@;
                    &&& lists[0] matches Some(rows) && rows.len() == ps.len()
                    &&& lists[1] matches Some(rows) && rows.len() == pipes.len() + 1
                        && rows[pipes.len() as int] == ("+add new source"@, true)
                        && forall|k: int| 0 <= k < pipes.len() ==> #[trigger] rows[k] == (pipes[k].name@, false)
                    &&& lists[2] is None
                },
                Screen::EditingFilters { playlists_list_state, source_list_state, .. } => {
                    let pipes = ps[playlists_list_state.selected->0 as int].sources@;
                    let filters = pipes[source_list_state.selected->0 as int].filters@;
                    &&& lists[0] matches Some(rows) && rows.len() == ps.len()
                    &&& lists[1] matches Some(rows) && rows.len() == pipes.len()
                        && forall|k: int| 0 <= k < pipes.len() ==> #[trigger] rows[k] == (pipes[k].name@, false)
                    &&& lists[2] matches Some(rows) && rows.len() == filters.len() + 1
                        && rows[filters.len() as int] == ("+add new filter"@, true)
                        && forall|k: int| 0 <= k < filters.len() ==> #[trigger] rows[k] == (filters[k].title(), false)
                },
            }
        }),
{
}

fn playlist_rows(playlists: &Vec<Playlist>) -> (res: Vec<ListEntry>)
    ensures
        entries_view(res@) == item_rows(playlist_names(playlists@)),
{
    let mut res: Vec<ListEntry> = Vec::new();
    let mut i: usize = 0;
    while i < playlists.len()
        invariant
            i <= playlists.len(),
            entries_view(res@) == item_rows(playlist_names(playlists@)).take(i as int),
        decreases playlists.len() - i,
    {
        res.push(ListEntry { label: playlists[i].name.clone(), is_action: false });
        assert(item_rows(playlist_names(playlists@)).take(i + 1) =~= item_rows(
            playlist_names(playlists@),
        ).take(i as int).push((playlists@[i as int].name@, false)));
        i = i + 1;
    }
    assert(item_rows(playlist_names(playlists@)).take(playlists.len() as int) =~= item_rows(
        playlist_names(playlists@),
    ));
    res
}

fn pipe_rows(pipes: &Vec<Pipe>) -> (res: Vec<ListEntry>)
    ensures
        entries_view(res@) == item_rows(pipe_names(pipes@)),
{
    let mut res: Vec<ListEntry> = Vec::new();
    let mut i: usize = 0;
    while i < pipes.len()
        invariant
            i <= pipes.len(),
            entries_view(res@) == item_rows(pipe_names(pipes@)).take(i as int),
        decreases pipes.len() - i,
    {
        res.push(ListEntry { label: pipes[i].name.clone(), is_action: false });
        assert(item_rows(pipe_names(pipes@)).take(i + 1) =~= item_rows(pipe_names(pipes@)).take(
            i as int,
        ).push((pipes@[i as int].name@, false)));
        i = i + 1;
    }
    assert(item_rows(pipe_names(pipes@)).take(pipes.len() as int) =~= item_rows(pipe_names(pipes@)));
    res
}

fn filter_rows(filters: &Vec<Filter>) -> (res: Vec<ListEntry>)
    ensures
        entries_view(res@) == item_rows(filter_names(filters@)),
{
    let mut res: Vec<ListEntry> = Vec::new();
    let mut i: usize = 0;
    while i < filters.len()
        invariant
            i <= filters.len(),
            entries_view(res@) == item_rows(filter_names(filters@)).take(i as int),
        decreases filters.len() - i,
    {
        res.push(ListEntry { label: filters[i].name(), is_action: false });
        assert(item_rows(filter_names(filters@)).take(i + 1) =~= item_rows(filter_names(filters@)).take(
            i as int,
        ).push((filters@[i as int].title(), false)));
        i = i + 1;
    }
    assert(item_rows(filter_names(filters@)).take(filters.len() as int) =~= item_rows(
        filter_names(filters@),
    ));
    res
}

/// A row for adding an item, with the given text.
fn action_row(label: &str) -> (res: ListEntry)
    ensures
        res.label@ == label@,
        res.is_action,
{
    ListEntry { label: label.to_owned(), is_action: true }
}

impl App {
    /// Reacts to a key: `q` asks to leave; no other key changes anything yet.
    pub fn handle(&mut self, code: Key)
        ensures
            final(self).exiting == (old(self).exiting || code == Key::Char('q')),
            final(self).playlists == old(self).playlists,
            final(self).screen == old(self).screen,
    {
        match code {
            Key::Backspace => {},
            Key::Enter => {},
            Key::Left => {},
            Key::Right => {},
            Key::Up => {},
            Key::Down => {},
            Key::Tab => {},
            Key::Delete => {},
            Key::Char(c) => {
                if c == 'q' {
                    self.exiting = true;
                }
            },
            Key::Esc => {},
            Key::Other => {},
        }
    }

    /// The lists that the current screen shows, as `screen_lists` describes.
    pub fn get_items(&self) -> (res: [Option<Vec<ListEntry>>; 3])
        requires
            selections_exist(*self),
        ensures
            res@.map_values(|l: Option<Vec<ListEntry>>| list_view(l)) == screen_lists(*self),
    {
        let playlists = playlist_rows(&self.playlists);
        match &self.screen {
            Screen::EditingPlaylists { playlists_list_state: _ } => {
                let mut playlist_items = playlists;
                let ghost rows = entries_view(playlist_items@);
                playlist_items.push(action_row("+add new playlist"));
                assert(entries_view(playlist_items@) =~= rows.push(("+add new playlist"@, true)));
                let res = [Some(playlist_items), None, None];
                assert(res@.len() == 3);
                assert(res@[0] == Some(playlist_items));
                assert(res@.map_values(|l: Option<Vec<ListEntry>>| list_view(l)) =~= screen_lists(*self));
                res
            },
            Screen::EditingSources { playlists_list_state, source_list_state: _ } => {
                let i = playlists_list_state.selected.unwrap();
                let mut source_items = pipe_rows(&self.playlists[i].sources);
                let ghost rows = entries_view(source_items@);
                source_items.push(action_row("+add new source"));
                assert(entries_view(source_items@) =~= rows.push(("+add new source"@, true)));
                let res = [Some(playlists), Some(source_items), None];
                assert(res@.len() == 3);
                assert(res@[0] == Some(playlists));
                assert(res@[1] == Some(source_items));
                assert(res@.map_values(|l: Option<Vec<ListEntry>>| list_view(l)) =~= screen_lists(*self));
                res
            },
            Screen::EditingFilters { playlists_list_state, source_list_state, filter_list_state: _ } => {
                let i = playlists_list_state.selected.unwrap();
                let j = source_list_state.selected.unwrap();
                let pipes = &self.playlists[i].sources;
                let source_items = pipe_rows(pipes);
                let mut filter_items = filter_rows(&pipes[j].filters);
                let ghost rows = entries_view(filter_items@);
                filter_items.push(action_row("+add new filter"));
                assert(entries_view(filter_items@) =~= rows.push(("+add new filter"@, true)));
                let res = [Some(playlists), Some(source_items), Some(filter_items)];
                assert(res@.len() == 3);
                assert(res@[0] == Some(playlists));
                assert(res@[1] == Some(source_items));
                assert(res@[2] == Some(filter_items));
                assert(res@.map_values(|l: Option<Vec<ListEntry>>| list_view(l)) =~= screen_lists(*self));
                res
            },
        }
    }
}

} // verus!
