use vstd::prelude::*;

use crate::songs::{first_occurrences, ids_view, PlayableId, PlayableView};

verus! {

/// A playlist that is built from other sources of songs.
#[derive(Debug)]
pub struct Playlist {
    pub name: String,
    pub sources: Vec<Pipe>,
    /// A shadow playlist is only used as a source of other playlists and is
    /// never written to the user's account.
    pub is_shadow: bool,
}

/// A source of songs together with the filters that its songs must pass.
#[derive(Debug)]
pub struct Pipe {
    pub source: Source,
    pub filters: Vec<Filter>,
    pub name: String,
}

/// Where the songs of a pipe come from.
#[derive(Debug)]
pub enum Source {
    /// Songs listed by hand.
    Songs { raw_imports: Vec<PlayableId>, name: String },
    /// The songs of another playlist of this program.
    AutoPlaylist(Playlist),
    /// The items of a playlist of the user's account, by its id.
    Playlist(String),
    /// The tracks of an album, by its id.
    Album(String),
}

/// A song filter. No kind of filter exists yet: the type has no values, so a
/// pipe's list of filters is always empty.
#[derive(Debug)]
pub struct Filter {
    never: core::convert::Infallible,
}

impl Filter {
    #[verifier::type_invariant]
    closed spec fn has_a_kind(self) -> bool {
        false
    }

    /// Whether the filter lets `song` through (no filter exists to let anything through).
    pub closed spec fn admits(self, song: PlayableView) -> bool {
        false
    }

    /// The name under which the filter is listed.
    pub closed spec fn title(self) -> Seq<char> {
        Seq::empty()
    }

    pub fn matches(&self, song: &PlayableId) -> (res: bool)
        ensures
            res == self.admits(song@),
    {
        proof {
            use_type_invariant(self);
        }
        false
    }

    pub fn name(&self) -> (res: String)
        ensures
            res@ == self.title(),
    {
        proof {
            use_type_invariant(self);
        }
        String::new()
    }
}

/// A source whose songs must be fetched from the user's account.
#[derive(Debug, Clone, PartialEq, Eq)]
pub enum RemoteSource {
    Playlist(String),
    Album(String),
}

/// The mathematical value of a `RemoteSource`.
pub enum RemoteView {
    Playlist(Seq<char>),
    Album(Seq<char>),
}

impl View for RemoteSource {
    type V = RemoteView;

    open spec fn view(&self) -> RemoteView {
        match self {
            RemoteSource::Playlist(id) => RemoteView::Playlist(id@),
            RemoteSource::Album(id) => RemoteView::Album(id@),
        }
    }
}

impl RemoteSource {
    pub fn same_as(&self, other: &RemoteSource) -> (res: bool)
        ensures
            res == (self@ == other@),
    {
        match (self, other) {
            (RemoteSource::Playlist(a), RemoteSource::Playlist(b)) => *a == *b,
            (RemoteSource::Album(a), RemoteSource::Album(b)) => *a == *b,
            _ => false,
        }
    }

    pub fn duplicate(&self) -> (res: RemoteSource)
        ensures
            res@ == self@,
    {
        match self {
            RemoteSource::Playlist(id) => RemoteSource::Playlist(id.clone()),
            RemoteSource::Album(id) => RemoteSource::Album(id.clone()),
        }
    }
}

/// The songs that were fetched for one remote source.
#[derive(Debug, Clone, PartialEq, Eq)]
pub struct FetchedSource {
    pub source: RemoteSource,
    pub songs: Vec<PlayableId>,
}

pub type FetchedView = Seq<(RemoteView, Seq<PlayableView>)>;

/// The values of a list of fetched sources.
pub open spec fn fetched_view(fetched: Seq<FetchedSource>) -> FetchedView {
    fetched.map_values(|e: FetchedSource| (e.source@, ids_view(e.songs@)))
}

/// The songs fetched for `key`: those of its first entry, none if it has no entry.
pub open spec fn lookup_fetched(fetched: FetchedView, key: RemoteView) -> Seq<PlayableView>
    decreases fetched.len(),
{
    if fetched.len() == 0 {
        Seq::empty()
    } else if fetched[0].0 == key {
        fetched[0].1
    } else {
        lookup_fetched(fetched.drop_first(), key)
    }
}

/// Whether every filter of a list lets `song` through.
pub open spec fn admitted_by_all(filters: Seq<Filter>, song: PlayableView) -> bool {
    forall|i: int| 0 <= i < filters.len() ==> #[trigger] filters[i].admits(song)
}

/// The songs of a playlist: those of its pipes one after the other, without repeats.
pub open spec fn playlist_songs(p: Playlist, fetched: FetchedView) -> Seq<PlayableView>
    decreases p,
{
    first_occurrences(pipes_songs(p.sources@, p.sources@.len() as int, fetched))
}

/// The songs of the first `n` pipes of a list, one after the other.
pub open spec fn pipes_songs(pipes: Seq<Pipe>, n: int, fetched: FetchedView) -> Seq<PlayableView>
    decreases pipes, n,
{
    if n <= 0 || n > pipes.len() {
        Seq::empty()
    } else {
        pipes_songs(pipes, n - 1, fetched) + pipe_songs(pipes[n - 1], fetched)
    }
}

/// The songs of a pipe: those of its source that every filter lets through.
pub open spec fn pipe_songs(pipe: Pipe, fetched: FetchedView) -> Seq<PlayableView>
    decreases pipe,
{
    source_songs(pipe.source, fetched).filter(|song: PlayableView| admitted_by_all(pipe.filters@, song))
}

/// The songs of a source.
pub open spec fn source_songs(source: Source, fetched: FetchedView) -> Seq<PlayableView>
    decreases source,
{
    match source {
        Source::Songs { raw_imports, .. } => ids_view(raw_imports@),
        Source::AutoPlaylist(p) => playlist_songs(p, fetched),
        Source::Playlist(id) => lookup_fetched(fetched, RemoteView::Playlist(id@)),
        Source::Album(id) => lookup_fetched(fetched, RemoteView::Album(id@)),
    }
}

/// The values of a list of remote sources.
pub open spec fn remotes_view(sources: Seq<RemoteSource>) -> Seq<RemoteView> {
    sources.map_values(|r: RemoteSource| r@)
}

/// The remote sources that a playlist draws on, in the order in which its
/// pipes reach them (a source reached twice is listed twice).
pub open spec fn playlist_remotes(p: Playlist) -> Seq<RemoteView>
    decreases p,
{
    pipes_remotes(p.sources@, p.sources@.len() as int)
}

/// The remote sources of the first `n` pipes of a list.
pub open spec fn pipes_remotes(pipes: Seq<Pipe>, n: int) -> Seq<RemoteView>
    decreases pipes, n,
{
    if n <= 0 || n > pipes.len() {
        Seq::empty()
    } else {
        pipes_remotes(pipes, n - 1) + source_remotes(pipes[n - 1].source)
    }
}

/// The remote sources that a source draws on.
pub open spec fn source_remotes(source: Source) -> Seq<RemoteView>
    decreases source,
{
    match source {
        Source::Songs { .. } => Seq::empty(),
        Source::AutoPlaylist(p) => playlist_remotes(p),
        Source::Playlist(id) => seq![RemoteView::Playlist(id@)],
        Source::Album(id) => seq![RemoteView::Album(id@)],
    }
}

/// A playlist's songs depend on the fetched songs only through the remote
/// sources that it draws on: two fetch results that give the same songs for
/// each of those sources give the playlist the same songs.
pub proof fn lemma_playlist_songs_need_only_remotes(p: Playlist, f1: FetchedView, f2: FetchedView)
    requires
        forall|k: RemoteView| #[trigger]
            playlist_remotes(p).contains(k) ==> lookup_fetched(f1, k) == lookup_fetched(f2, k),
    ensures
        playlist_songs(p, f1) == playlist_songs(p, f2),
    decreases p,
{
    assert(playlist_remotes(p) == pipes_remotes(p.sources@, p.sources@.len() as int));
    lemma_pipes_songs_need_only_remotes(p.sources@, p.sources@.len() as int, f1, f2);
}

proof fn lemma_pipes_songs_need_only_remotes(
    pipes: Seq<Pipe>,
    n: int,
    f1: FetchedView,
    f2: FetchedView,
)
    requires
        forall|k: RemoteView| #[trigger]
            pipes_remotes(pipes, n).contains(k) ==> lookup_fetched(f1, k) == lookup_fetched(f2, k),
    ensures
        pipes_songs(pipes, n, f1) == pipes_songs(pipes, n, f2),
    decreases pipes, n,
{
    broadcast use vstd::seq_lib::group_seq_properties;

    if 0 < n <= pipes.len() {
        let front = pipes_remotes(pipes, n - 1);
        let back = source_remotes(pipes[n - 1].source);
        assert(pipes_remotes(pipes, n) == front + back);
        assert forall|k: RemoteView| #[trigger] front.contains(k) implies lookup_fetched(f1, k)
            == lookup_fetched(f2, k) by {
            assert((front + back).contains(k));
        }
        assert forall|k: RemoteView| #[trigger] back.contains(k) implies lookup_fetched(f1, k)
            == lookup_fetched(f2, k) by {
            assert((front + back).contains(k));
        }
        lemma_pipes_songs_need_only_remotes(pipes, n - 1, f1, f2);
        lemma_source_songs_need_only_remotes(pipes[n - 1].source, f1, f2);
        assert(pipe_songs(pipes[n - 1], f1) == pipe_songs(pipes[n - 1], f2));
    }
}

proof fn lemma_source_songs_need_only_remotes(source: Source, f1: FetchedView, f2: FetchedView)
    requires
        forall|k: RemoteView| #[trigger]
            source_remotes(source).contains(k) ==> lookup_fetched(f1, k) == lookup_fetched(f2, k),
    ensures
        source_songs(source, f1) == source_songs(source, f2),
    decreases source,
{
    match source {
        Source::Songs { raw_imports, .. } => {
            assert(source_songs(source, f1) == ids_view(raw_imports@));
        },
        Source::AutoPlaylist(p) => {
            lemma_playlist_songs_need_only_remotes(p, f1, f2);
        },
        Source::Playlist(id) => {
            assert(source_remotes(source)[0] == RemoteView::Playlist(id@));
            assert(source_remotes(source).contains(RemoteView::Playlist(id@)));
        },
        Source::Album(id) => {
            assert(source_remotes(source)[0] == RemoteView::Album(id@));
            assert(source_remotes(source).contains(RemoteView::Album(id@)));
        },
    }
}

/// Looking up a key finds the songs of its first entry.
proof fn lemma_lookup_first(fetched: FetchedView, key: RemoteView, j: int)
    requires
        0 <= j < fetched.len(),
        fetched[j].0 == key,
        forall|i: int| 0 <= i < j ==> fetched[i].0 != key,
    ensures
        lookup_fetched(fetched, key) == fetched[j].1,
    decreases j,
{
    if j > 0 {
        let rest = fetched.drop_first();
        assert(fetched[0].0 != key);
        assert forall|i: int| 0 <= i < j - 1 implies rest[i].0 != key by {
            assert(rest[i] == fetched[i + 1]);
        }
        lemma_lookup_first(rest, key, j - 1);
    }
}

/// Looking up a key without an entry finds no songs.
proof fn lemma_lookup_absent(fetched: FetchedView, key: RemoteView)
    requires
        forall|i: int| 0 <= i < fetched.len() ==> fetched[i].0 != key,
    ensures
        lookup_fetched(fetched, key) == Seq::<PlayableView>::empty(),
    decreases fetched.len(),
{
    if fetched.len() > 0 {
        let rest = fetched.drop_first();
        assert(fetched[0].0 != key);
        assert forall|i: int| 0 <= i < rest.len() implies rest[i].0 != key by {
            assert(rest[i] == fetched[i + 1]);
        }
        lemma_lookup_absent(rest, key);
    }
}

/// The songs of an album are exactly the songs fetched for it, in the
/// fetched order: those of the first entry for the album, none without one.
pub proof fn lemma_album_songs(id: String, fetched: FetchedView)
    ensures
        forall|j: int| 0 <= j < fetched.len() && fetched[j].0 == RemoteView::Album(id@)
            && (forall|i: int| 0 <= i < j ==> fetched[i].0 != RemoteView::Album(id@))
            ==> #[trigger] source_songs(Source::Album(id), fetched) == fetched[j].1,
        (forall|i: int| 0 <= i < fetched.len() ==> fetched[i].0 != RemoteView::Album(id@))
            ==> source_songs(Source::Album(id), fetched) == Seq::<PlayableView>::empty(),
{
    let key = RemoteView::Album(id@);
    assert forall|j: int| 0 <= j < fetched.len() && fetched[j].0 == key
        && (forall|i: int| 0 <= i < j ==> fetched[i].0 != key)
        implies #[trigger] source_songs(Source::Album(id), fetched) == fetched[j].1 by {
        lemma_lookup_first(fetched, key, j);
    }
    if forall|i: int| 0 <= i < fetched.len() ==> fetched[i].0 != key {
        lemma_lookup_absent(fetched, key);
    }
}

/// The songs of a playlist of the account are exactly the songs fetched for
/// it, in the fetched order: those of its first entry, none without one.
pub proof fn lemma_account_playlist_songs(id: String, fetched: FetchedView)
    ensures
        forall|j: int| 0 <= j < fetched.len() && fetched[j].0 == RemoteView::Playlist(id@)
            && (forall|i: int| 0 <= i < j ==> fetched[i].0 != RemoteView::Playlist(id@))
            ==> #[trigger] source_songs(Source::Playlist(id), fetched) == fetched[j].1,
        (forall|i: int| 0 <= i < fetched.len() ==> fetched[i].0 != RemoteView::Playlist(id@))
            ==> source_songs(Source::Playlist(id), fetched) == Seq::<PlayableView>::empty(),
{
    let key = RemoteView::Playlist(id@);
    assert forall|j: int| 0 <= j < fetched.len() && fetched[j].0 == key
        && (forall|i: int| 0 <= i < j ==> fetched[i].0 != key)
        implies #[trigger] source_songs(Source::Playlist(id), fetched) == fetched[j].1 by {
        lemma_lookup_first(fetched, key, j);
    }
    if forall|i: int| 0 <= i < fetched.len() ==> fetched[i].0 != key {
        lemma_lookup_absent(fetched, key);
    }
}

/// A song is in the first `n` pipes' songs exactly when one of those pipes has it.
proof fn lemma_pipes_songs_items(pipes: Seq<Pipe>, n: int, fetched: FetchedView)
    requires
        0 <= n <= pipes.len(),
    ensures
        forall|x: PlayableView| #[trigger] pipes_songs(pipes, n, fetched).contains(x) <==> exists|i: int|
            0 <= i < n && #[trigger] pipe_songs(pipes[i], fetched).contains(x),
    decreases n,
{
    broadcast use vstd::seq_lib::group_seq_properties;

    if n > 0 {
        lemma_pipes_songs_items(pipes, n - 1, fetched);
        let front = pipes_songs(pipes, n - 1, fetched);
        let back = pipe_songs(pipes[n - 1], fetched);
        assert(pipes_songs(pipes, n, fetched) == front + back);
        assert forall|x: PlayableView| #[trigger] (front + back).contains(x) <==> exists|i: int|
            0 <= i < n && #[trigger] pipe_songs(pipes[i], fetched).contains(x) by {
            if (front + back).contains(x) {
                if front.contains(x) {
                } else {
                    assert(back.contains(x));
                    assert(pipe_songs(pipes[n - 1], fetched).contains(x));
                }
            }
            if exists|i: int| 0 <= i < n && #[trigger] pipe_songs(pipes[i], fetched).contains(x) {
                let i = choose|i: int| 0 <= i < n && #[trigger] pipe_songs(pipes[i], fetched).contains(x);
                if i < n - 1 {
                    assert(front.contains(x));
                } else {
                    assert(back.contains(x));
                }
            }
        }
    }
}

/// A playlist holds a song exactly when one of its pipes gives it, and holds
/// no song twice.
pub proof fn lemma_playlist_songs_items(p: Playlist, fetched: FetchedView)
    ensures
        forall|x: PlayableView| #[trigger] playlist_songs(p, fetched).contains(x) <==> exists|i: int|
            0 <= i < p.sources@.len() && #[trigger] pipe_songs(p.sources@[i], fetched).contains(x),
        playlist_songs(p, fetched).no_duplicates(),
{
    let all = pipes_songs(p.sources@, p.sources@.len() as int, fetched);
    lemma_pipes_songs_items(p.sources@, p.sources@.len() as int, fetched);
    crate::songs::lemma_first_occurrences_same_items(all);
    crate::songs::lemma_first_occurrences_no_duplicates(all);
}

/// An automatic playlist used as a source gives exactly the songs of its
/// pipes, once each, whether it is a shadow playlist or not.
pub proof fn lemma_auto_source_songs(p: Playlist, fetched: FetchedView)
    ensures
        forall|x: PlayableView| #[trigger] source_songs(Source::AutoPlaylist(p), fetched).contains(x)
            <==> exists|i: int|
            0 <= i < p.sources@.len() && #[trigger] pipe_songs(p.sources@[i], fetched).contains(x),
        source_songs(Source::AutoPlaylist(p), fetched).no_duplicates(),
        source_songs(Source::AutoPlaylist(p), fetched) == source_songs(
            Source::AutoPlaylist(Playlist { name: p.name, sources: p.sources, is_shadow: !p.is_shadow }),
            fetched,
        ),
{
    lemma_playlist_songs_items(p, fetched);
    let q = Playlist { name: p.name, sources: p.sources, is_shadow: !p.is_shadow };
    assert(q.sources@ == p.sources@);
    assert(playlist_songs(q, fetched) == playlist_songs(p, fetched));
}

/// The songs fetched for `key`.
fn lookup_songs(fetched: &Vec<FetchedSource>, key: &RemoteSource) -> (res: Vec<PlayableId>)
    ensures
        ids_view(res@) == lookup_fetched(fetched_view(fetched@), key@),
{
    let mut i: usize = 0;
    assert(fetched_view(fetched@).skip(0) == fetched_view(fetched@));
    while i < fetched.len()
        invariant
            i <= fetched.len(),
            lookup_fetched(fetched_view(fetched@), key@) == lookup_fetched(
                fetched_view(fetched@).skip(i as int),
                key@,
            ),
        decreases fetched.len() - i,
    {
        let ghost rest = fetched_view(fetched@).skip(i as int);
        assert(rest.drop_first() == fetched_view(fetched@).skip(i + 1));
        assert(rest[0] == (fetched@[i as int].source@, ids_view(fetched@[i as int].songs@)));
        if fetched[i].source.same_as(key) {
            return crate::songs::copy_ids(&fetched[i].songs);
        }
        i = i + 1;
    }
    Vec::new()
}

impl Source {
    /// The remote sources whose songs this source needs.
    pub fn remote_sources(&self) -> (res: Vec<RemoteSource>)
        ensures
            remotes_view(res@) == source_remotes(*self),
        decreases self,
    {
        match self {
            Source::Songs { .. } => Vec::new(),
            Source::AutoPlaylist(p) => p.remote_sources(),
            Source::Playlist(id) => {
                let mut res = Vec::new();
                res.push(RemoteSource::Playlist(id.clone()));
                assert(remotes_view(res@) == seq![RemoteView::Playlist(id@)]);
                res
            },
            Source::Album(id) => {
                let mut res = Vec::new();
                res.push(RemoteSource::Album(id.clone()));
                assert(remotes_view(res@) == seq![RemoteView::Album(id@)]);
                res
            },
        }
    }

    /// The songs of this source; those of remote sources are looked up in `fetched`.
    pub fn get_songs(&self, fetched: &Vec<FetchedSource>) -> (res: Vec<PlayableId>)
        ensures
            ids_view(res@) == source_songs(*self, fetched_view(fetched@)),
        decreases self,
    {
        match self {
            Source::Songs { raw_imports, .. } => crate::songs::copy_ids(raw_imports),
            Source::AutoPlaylist(p) => p.get_songs(fetched),
            Source::Playlist(id) => lookup_songs(fetched, &RemoteSource::Playlist(id.clone())),
            Source::Album(id) => lookup_songs(fetched, &RemoteSource::Album(id.clone())),
        }
    }
}

impl Pipe {
    /// Whether every filter of this pipe lets `song` through.
    fn admits_all(&self, song: &PlayableId) -> (res: bool)
        ensures
            res == admitted_by_all(self.filters@, song@),
    {
        let mut i: usize = 0;
        while i < self.filters.len()
            invariant
                i <= self.filters.len(),
                forall|j: int| 0 <= j < i ==> #[trigger] self.filters@[j].admits(song@),
            decreases self.filters.len() - i,
        {
            if !self.filters[i].matches(song) {
                return false;
            }
            i = i + 1;
        }
        true
    }

    /// The songs of this pipe's source that pass all of its filters.
    pub fn get_songs(&self, fetched: &Vec<FetchedSource>) -> (res: Vec<PlayableId>)
        ensures
            ids_view(res@) == pipe_songs(*self, fetched_view(fetched@)),
            ids_view(res@) == source_songs(self.source, fetched_view(fetched@)),
        decreases self,
    {
        if self.filters.len() > 0 {
            let first = &self.filters[0];
            proof {
                use_type_invariant(first);
            }
        }
        let all = self.source.get_songs(fetched);
        let ghost pred = |song: PlayableView| admitted_by_all(self.filters@, song);
        proof {
            crate::songs::lemma_filter_all(ids_view(all@), pred);
        }
        let mut res: Vec<PlayableId> = Vec::new();
        let mut i: usize = 0;
        while i < all.len()
            invariant
                i <= all.len(),
                pred == (|song: PlayableView| admitted_by_all(self.filters@, song)),
                ids_view(res@) == ids_view(all@).take(i as int).filter(pred),
            decreases all.len() - i,
        {
            proof {
                assert(ids_view(all@).take(i + 1) == ids_view(all@).take(i as int).push(all@[i as int]@));
                ids_view(all@).take(i as int).lemma_filter_push(all@[i as int]@, pred);
            }
            let ghost before = ids_view(res@);
            if self.admits_all(&all[i]) {
                assert(pred(all@[i as int]@));
                res.push(all[i].duplicate());
                assert(ids_view(res@) == before.push(all@[i as int]@));
            } else {
                assert(!pred(all@[i as int]@));
            }
            i = i + 1;
        }
        assert(ids_view(all@).take(all.len() as int) == ids_view(all@));
        res
    }
}

impl Playlist {
    /// The remote sources whose songs `get_songs` looks up, in the order in
    /// which the pipes reach them.
    pub fn remote_sources(&self) -> (res: Vec<RemoteSource>)
        ensures
            remotes_view(res@) == playlist_remotes(*self),
        decreases self,
    {
        let mut all: Vec<RemoteSource> = Vec::new();
        let mut i: usize = 0;
        while i < self.sources.len()
            invariant
                i <= self.sources.len(),
                remotes_view(all@) == pipes_remotes(self.sources@, i as int),
            decreases self.sources.len() - i,
        {
            let mut part = self.sources[i].source.remote_sources();
            let ghost before = all@;
            let ghost added = part@;
            all.append(&mut part);
            assert(remotes_view(all@) == remotes_view(before) + remotes_view(added));
            i = i + 1;
        }
        all
    }

    /// The songs of this playlist: those of its pipes one after the other,
    /// each kept at its first occurrence only.
    pub fn get_songs(&self, fetched: &Vec<FetchedSource>) -> (res: Vec<PlayableId>)
        ensures
            ids_view(res@) == playlist_songs(*self, fetched_view(fetched@)),
            ids_view(res@).no_duplicates(),
        decreases self,
    {
        let mut all: Vec<PlayableId> = Vec::new();
        let mut i: usize = 0;
        while i < self.sources.len()
            invariant
                i <= self.sources.len(),
                ids_view(all@) == pipes_songs(self.sources@, i as int, fetched_view(fetched@)),
            decreases self.sources.len() - i,
        {
            let mut part = self.sources[i].get_songs(fetched);
            let ghost before = all@;
            let ghost added = part@;
            all.append(&mut part);
            assert(ids_view(all@) == ids_view(before) + ids_view(added));
            i = i + 1;
        }
        proof {
            crate::songs::lemma_first_occurrences_no_duplicates(ids_view(all@));
        }
        crate::songs::unique_ids(&all)
    }
}

} // verus!
