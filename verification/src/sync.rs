use vstd::prelude::*;

use crate::songs::{contains_id, ids_view, PlayableId, PlayableView};

verus! {

/// What the names of the playlists that this program writes begin with.
pub const PREFIX: &'static str = "Autofy";

/// How many songs one request may add to a playlist.
pub const ADD_BATCH_SIZE: usize = 100;

/// The characters of `PREFIX`.
pub open spec fn prefix_chars() -> Seq<char> {
    seq!['A', 'u', 't', 'o', 'f', 'y']
}

/// The name under which a playlist called `name` is kept in the user's
/// account: the prefix, a space, then `name`.
pub open spec fn synced_title(name: Seq<char>) -> Seq<char> {
    prefix_chars().push(' ') + name
}

/// The name under which the playlist called `name` is kept in the user's account.
pub fn sync_title(name: &str) -> (res: String)
    ensures
        res@ == synced_title(name@),
{
    let mut title = PREFIX.to_owned();
    title.append(" ");
    title.append(name);
    proof {
        reveal_strlit("Autofy");
        reveal_strlit(" ");
        assert(prefix_chars() + " "@ =~= prefix_chars().push(' '));
    }
    title
}

/// Whether a playlist of the user's account, called `existing_name`, is the
/// one that keeps the playlist called `playlist_name`.
pub fn is_sync_target(existing_name: &str, playlist_name: &str) -> (res: bool)
    ensures
        res == (existing_name@ == synced_title(playlist_name@)),
{
    let title = sync_title(playlist_name);
    let existing = existing_name.to_owned();
    existing == title
}

/// Whether every item of `wanted` occurs in `present`.
pub open spec fn all_present(wanted: Seq<PlayableView>, present: Seq<PlayableView>) -> bool {
    forall|i: int| 0 <= i < wanted.len() ==> present.contains(#[trigger] wanted[i])
}

/// Whether a playlist of the account, with `total` items of which `current`
/// were read, needs no change to hold `songs`: it has as many items as
/// there are songs, and each song is among its items.
pub open spec fn up_to_date(total: u32, songs: Seq<PlayableView>, current: Seq<PlayableView>) -> bool {
    &&& total == songs.len()
    &&& all_present(songs, current)
}

/// Whether a playlist of the account, with `total` items of which `current`
/// were read, already holds `songs`.
pub fn is_up_to_date(total: u32, songs: &Vec<PlayableId>, current: &Vec<PlayableId>) -> (res: bool)
    ensures
        res == up_to_date(total, ids_view(songs@), ids_view(current@)),
{
    if total as usize != songs.len() {
        return false;
    }
    let mut i: usize = 0;
    while i < songs.len()
        invariant
            i <= songs.len(),
            forall|j: int| 0 <= j < i ==> ids_view(current@).contains(#[trigger] ids_view(songs@)[j]),
        decreases songs.len() - i,
    {
        if !contains_id(current, &songs[i]) {
            assert(ids_view(songs@)[i as int] == songs@[i as int]@);
            return false;
        }
        i = i + 1;
    }
    true
}

/// The songs of `songs` that are not in `present`, in their order.
pub open spec fn missing_songs(songs: Seq<PlayableView>, present: Seq<PlayableView>) -> Seq<PlayableView> {
    songs.filter(|x: PlayableView| !present.contains(x))
}

/// The songs that must be added to a playlist holding `present` for it to hold `songs`.
pub fn songs_to_add(songs: &Vec<PlayableId>, present: &Vec<PlayableId>) -> (res: Vec<PlayableId>)
    ensures
        ids_view(res@) == missing_songs(ids_view(songs@), ids_view(present@)),
{
    let ghost pred = |x: PlayableView| !ids_view(present@).contains(x);
    let mut res: Vec<PlayableId> = Vec::new();
    let mut i: usize = 0;
    while i < songs.len()
        invariant
            i <= songs.len(),
            pred == (|x: PlayableView| !ids_view(present@).contains(x)),
            ids_view(res@) == ids_view(songs@).take(i as int).filter(pred),
        decreases songs.len() - i,
    {
        proof {
            assert(ids_view(songs@).take(i + 1) == ids_view(songs@).take(i as int).push(songs@[i as int]@));
            ids_view(songs@).take(i as int).lemma_filter_push(songs@[i as int]@, pred);
        }
        let ghost before = ids_view(res@);
        if !contains_id(present, &songs[i]) {
            res.push(songs[i].duplicate());
            assert(ids_view(res@) == before.push(songs@[i as int]@));
        }
        i = i + 1;
    }
    assert(ids_view(songs@).take(songs.len() as int) == ids_view(songs@));
    res
}

/// The batches in which `s` is sent, `size` at a time: one batch to begin
/// with, and each item goes into the last batch, after a new one is opened
/// if the last is full. An empty `s` gives one empty batch.
pub open spec fn batches_of<A>(s: Seq<A>, size: nat) -> Seq<Seq<A>>
    decreases s.len(),
{
    if s.len() == 0 {
        seq![Seq::empty()]
    } else {
        let before = batches_of(s.drop_last(), size);
        if before.last().len() == size {
            before.push(seq![s.last()])
        } else {
            before.update(before.len() - 1, before.last().push(s.last()))
        }
    }
}

/// There is always at least one batch.
pub proof fn lemma_batches_not_empty<A>(s: Seq<A>, size: nat)
    ensures
        batches_of(s, size).len() >= 1,
    decreases s.len(),
{
    if s.len() > 0 {
        lemma_batches_not_empty(s.drop_last(), size);
    }
}

/// The batches, one after the other, are `s` itself: nothing is lost, repeated or reordered.
pub proof fn lemma_batches_flatten<A>(s: Seq<A>, size: nat)
    ensures
        batches_of(s, size).flatten() == s,
    decreases s.len(),
{
    if s.len() == 0 {
        let one = seq![Seq::<A>::empty()];
        assert(one.drop_first().flatten() == Seq::<A>::empty());
        assert(one.flatten() =~= Seq::<A>::empty());
    } else {
        let rest = s.drop_last();
        lemma_batches_flatten(rest, size);
        lemma_batches_not_empty(rest, size);
        let before = batches_of(rest, size);
        assert(before =~= before.drop_last().push(before.last()));
        before.drop_last().lemma_flatten_push(before.last());
        if before.last().len() == size {
            before.lemma_flatten_push(seq![s.last()]);
            assert(before.push(seq![s.last()]).flatten() =~= before.flatten() + seq![s.last()]);
        } else {
            let after = before.update(before.len() - 1, before.last().push(s.last()));
            assert(after =~= before.drop_last().push(before.last().push(s.last())));
            before.drop_last().lemma_flatten_push(before.last().push(s.last()));
            assert(before.flatten() =~= before.drop_last().flatten() + before.last());
            assert(after.flatten() =~= before.drop_last().flatten() + before.last().push(s.last()));
        }
        assert(rest.push(s.last()) =~= s);
    }
}

/// Every batch holds at most `size` items, and every batch but the last holds exactly `size`.
pub proof fn lemma_batches_sizes<A>(s: Seq<A>, size: nat)
    requires
        size > 0,
    ensures
        forall|i: int| 0 <= i < batches_of(s, size).len() ==> #[trigger] batches_of(s, size)[i].len() <= size,
        forall|i: int| 0 <= i < batches_of(s, size).len() - 1 ==> #[trigger] batches_of(s, size)[i].len() == size,
    decreases s.len(),
{
    if s.len() > 0 {
        lemma_batches_sizes(s.drop_last(), size);
        lemma_batches_not_empty(s.drop_last(), size);
    }
}

/// When there is anything to send, no batch is empty.
pub proof fn lemma_batches_nonempty_items<A>(s: Seq<A>, size: nat)
    requires
        size > 0,
        s.len() > 0,
    ensures
        forall|i: int| 0 <= i < batches_of(s, size).len() ==> #[trigger] batches_of(s, size)[i].len() > 0,
    decreases s.len(),
{
    let rest = s.drop_last();
    lemma_batches_not_empty(rest, size);
    if rest.len() > 0 {
        lemma_batches_nonempty_items(rest, size);
    }
}

/// The values of a list of batches.
pub open spec fn batches_view(batches: Seq<Vec<PlayableId>>) -> Seq<Seq<PlayableView>> {
    batches.map_values(|b: Vec<PlayableId>| ids_view(b@))
}

/// `items` cut into batches of `size`, as `batches_of` describes.
pub fn into_batches(items: &Vec<PlayableId>, size: usize) -> (res: Vec<Vec<PlayableId>>)
    requires
        size > 0,
    ensures
        batches_view(res@) == batches_of(ids_view(items@), size as nat),
{
    let mut done: Vec<Vec<PlayableId>> = Vec::new();
    let mut current: Vec<PlayableId> = Vec::new();
    let mut i: usize = 0;
    assert(ids_view(items@).take(0) =~= Seq::<PlayableView>::empty());
    assert(batches_view(done@) =~= Seq::<Seq<PlayableView>>::empty());
    assert(ids_view(current@) =~= Seq::<PlayableView>::empty());
    assert(batches_view(done@).push(ids_view(current@)) =~= seq![Seq::<PlayableView>::empty()]);
    while i < items.len()
        invariant
            i <= items.len(),
            size > 0,
            batches_of(ids_view(items@).take(i as int), size as nat) == batches_view(done@).push(
                ids_view(current@),
            ),
        decreases items.len() - i,
    {
        let ghost s = ids_view(items@).take(i + 1);
        let ghost b = batches_view(done@).push(ids_view(current@));
        assert(s.drop_last() == ids_view(items@).take(i as int));
        assert(s.last() == items@[i as int]@);
        let ghost old_done = done@;
        let ghost old_current = current@;
        assert(b.last() == ids_view(current@));
        assert(ids_view(current@).len() == current.len());
        if current.len() == size {
            let full = current;
            done.push(full);
            current = Vec::new();
            current.push(items[i].duplicate());
            assert(batches_view(done@) =~= batches_view(old_done).push(ids_view(old_current)));
            assert(ids_view(current@) =~= seq![items@[i as int]@]);
            assert(b.push(seq![items@[i as int]@]) =~= batches_view(done@).push(ids_view(current@)));
        } else {
            current.push(items[i].duplicate());
            assert(ids_view(current@) =~= ids_view(old_current).push(items@[i as int]@));
            assert(b.update(b.len() - 1, b.last().push(items@[i as int]@)) =~= batches_view(done@).push(
                ids_view(current@),
            ));
        }
        i = i + 1;
    }
    assert(ids_view(items@).take(items.len() as int) == ids_view(items@));
    let ghost old_done = done@;
    let ghost last = current@;
    done.push(current);
    assert(batches_view(done@) =~= batches_view(old_done).push(ids_view(last)));
    done
}

/// What the user's account already holds under a playlist's title.
#[derive(Debug, Clone, PartialEq, Eq)]
pub struct ExistingPlaylist {
    /// How many items the account reports for it.
    pub total: u32,
    /// The items that were read from it.
    pub items: Vec<PlayableId>,
}

/// The value of an optional existing playlist: its total and its items.
pub open spec fn existing_view(existing: Option<ExistingPlaylist>) -> Option<(u32, Seq<PlayableView>)> {
    match existing {
        Some(e) => Some((e.total, ids_view(e.items@))),
        None => None,
    }
}

/// What must be done to the user's account so that it holds a playlist's songs.
#[derive(Debug, PartialEq, Eq)]
pub enum SyncPlan {
    /// The account's playlist already holds the songs.
    UpToDate,
    /// A playlist must be created under the title, then given these batches, in order.
    Create { batches: Vec<Vec<PlayableId>> },
    /// The account's playlist must be given these batches, in order.
    Extend { batches: Vec<Vec<PlayableId>> },
}

/// The value of a `SyncPlan`.
pub enum SyncPlanView {
    UpToDate,
    Create(Seq<Seq<PlayableView>>),
    Extend(Seq<Seq<PlayableView>>),
}

impl View for SyncPlan {
    type V = SyncPlanView;

    open spec fn view(&self) -> SyncPlanView {
        match self {
            SyncPlan::UpToDate => SyncPlanView::UpToDate,
            SyncPlan::Create { batches } => SyncPlanView::Create(batches_view(batches@)),
            SyncPlan::Extend { batches } => SyncPlanView::Extend(batches_view(batches@)),
        }
    }
}

/// The plan for putting `songs` in the account, given what it holds under
/// the playlist's title: without such a playlist, create one and add every
/// song; with one that is up to date, nothing; otherwise add the songs that
/// it lacks. Songs are added `ADD_BATCH_SIZE` at a time.
pub open spec fn sync_plan(songs: Seq<PlayableView>, existing: Option<(u32, Seq<PlayableView>)>) -> SyncPlanView {
    match existing {
        None => SyncPlanView::Create(batches_of(missing_songs(songs, Seq::empty()), ADD_BATCH_SIZE as nat)),
        Some((total, items)) => if up_to_date(total, songs, items) {
            SyncPlanView::UpToDate
        } else {
            SyncPlanView::Extend(batches_of(missing_songs(songs, items), ADD_BATCH_SIZE as nat))
        },
    }
}

/// Decides what must be done for the account to hold `songs`, given what it
/// holds under the playlist's title.
pub fn plan_sync(songs: &Vec<PlayableId>, existing: &Option<ExistingPlaylist>) -> (res: SyncPlan)
    ensures
        res@ == sync_plan(ids_view(songs@), existing_view(*existing)),
{
    match existing {
        None => {
            let present: Vec<PlayableId> = Vec::new();
            assert(ids_view(present@) =~= Seq::<PlayableView>::empty());
            let to_add = songs_to_add(songs, &present);
            SyncPlan::Create { batches: into_batches(&to_add, ADD_BATCH_SIZE) }
        },
        Some(e) => {
            if is_up_to_date(e.total, songs, &e.items) {
                SyncPlan::UpToDate
            } else {
                let to_add = songs_to_add(songs, &e.items);
                SyncPlan::Extend { batches: into_batches(&to_add, ADD_BATCH_SIZE) }
            }
        },
    }
}

/// What a plan adds: the songs that `present` lacks, each once per
/// occurrence in `songs`, split into batches of at most `ADD_BATCH_SIZE`.
/// Once they are added, every song is present, and nothing that was present
/// already is added again.
pub proof fn lemma_added_songs(songs: Seq<PlayableView>, present: Seq<PlayableView>)
    ensures
        ({
            let batches = batches_of(missing_songs(songs, present), ADD_BATCH_SIZE as nat);
            &&& batches.flatten() == missing_songs(songs, present)
            &&& forall|x: PlayableView| songs.contains(x) ==> present.contains(x) || #[trigger] batches.flatten().contains(x)
            &&& forall|x: PlayableView| #[trigger] batches.flatten().contains(x) ==> songs.contains(x) && !present.contains(x)
            &&& forall|i: int| 0 <= i < batches.len() ==> #[trigger] batches[i].len() <= ADD_BATCH_SIZE
        }),
{
    broadcast use vstd::seq_lib::group_filter_ensures;

    let pred = |x: PlayableView| !present.contains(x);
    let missing = missing_songs(songs, present);
    lemma_batches_flatten(missing, ADD_BATCH_SIZE as nat);
    lemma_batches_sizes(missing, ADD_BATCH_SIZE as nat);
    assert forall|x: PlayableView| songs.contains(x) implies present.contains(x) || missing.contains(x) by {
        let k = choose|k: int| 0 <= k < songs.len() && songs[k] == x;
        if !present.contains(x) {
            songs.lemma_filter_contains(pred, k);
        }
    }
    assert forall|x: PlayableView| #[trigger] missing.contains(x) implies songs.contains(x) && !present.contains(x) by {
        songs.lemma_filter_contains_rev(pred, x);
        let k = choose|k: int| 0 <= k < missing.len() && missing[k] == x;
        songs.lemma_filter_pred(pred, k);
    }
}

/// A plan that says the account is up to date is right: the account's
/// playlist has as many items as there are songs and holds each of them.
/// A plan that creates or extends adds, with what is present, every song.
pub proof fn lemma_plan_holds_all_songs(songs: Seq<PlayableView>, existing: Option<(u32, Seq<PlayableView>)>)
    ensures
        match sync_plan(songs, existing) {
            SyncPlanView::UpToDate => existing matches Some((total, items)) && total == songs.len()
                && all_present(songs, items),
            SyncPlanView::Create(batches) => existing is None
                && batches.flatten() == songs,
            SyncPlanView::Extend(batches) => existing matches Some((total, items))
                && forall|x: PlayableView| songs.contains(x) ==> items.contains(x)
                    || #[trigger] batches.flatten().contains(x),
        },
{
    match existing {
        None => {
            lemma_added_songs(songs, Seq::empty());
            let missing = missing_songs(songs, Seq::empty());
            lemma_batches_flatten(missing, ADD_BATCH_SIZE as nat);
            let pred = |x: PlayableView| !Seq::<PlayableView>::empty().contains(x);
            assert(missing == songs) by {
                crate::songs::lemma_filter_all(songs, pred);
            }
        },
        Some((total, items)) => {
            lemma_added_songs(songs, items);
        },
    }
}

/// Every plan that adds songs sends them in batches of at most
/// `ADD_BATCH_SIZE`, every batch but the last holding exactly
/// `ADD_BATCH_SIZE`: a new playlist gets all the songs, in order; an existing
/// one gets the songs that it lacks, in order.
pub proof fn lemma_plan_batches(songs: Seq<PlayableView>, existing: Option<(u32, Seq<PlayableView>)>)
    ensures
        match sync_plan(songs, existing) {
            SyncPlanView::UpToDate => existing is Some,
            SyncPlanView::Create(batches) => {
                &&& existing is None
                &&& batches.len() >= 1
                &&& forall|i: int| 0 <= i < batches.len() ==> #[trigger] batches[i].len() <= ADD_BATCH_SIZE
                &&& forall|i: int| 0 <= i < batches.len() - 1 ==> #[trigger] batches[i].len() == ADD_BATCH_SIZE
                &&& batches.flatten() == songs
            },
            SyncPlanView::Extend(batches) => {
                &&& existing matches Some((total, items))
                &&& batches.len() >= 1
                &&& forall|i: int| 0 <= i < batches.len() ==> #[trigger] batches[i].len() <= ADD_BATCH_SIZE
                &&& forall|i: int| 0 <= i < batches.len() - 1 ==> #[trigger] batches[i].len() == ADD_BATCH_SIZE
                &&& batches.flatten() == songs.filter(|x: PlayableView| !items.contains(x))
            },
        },
{
    lemma_plan_holds_all_songs(songs, existing);
    let present = match existing {
        Some((total, items)) => items,
        None => Seq::empty(),
    };
    let missing = missing_songs(songs, present);
    lemma_batches_sizes(missing, ADD_BATCH_SIZE as nat);
    lemma_batches_not_empty(missing, ADD_BATCH_SIZE as nat);
    lemma_batches_flatten(missing, ADD_BATCH_SIZE as nat);
}

/// Different playlist names give different titles in the account, so each
/// playlist is matched with at most one title.
pub proof fn lemma_titles_distinct(a: Seq<char>, b: Seq<char>)
    ensures
        synced_title(a) == synced_title(b) ==> a == b,
{
    if synced_title(a) == synced_title(b) {
        let n = prefix_chars().push(' ').len();
        assert(synced_title(a).skip(n as int) =~= a);
        assert(synced_title(b).skip(n as int) =~= b);
    }
}

/// A playlist created by a plan, once filled, is found up to date when the
/// songs are planned again: planning settles.
pub proof fn lemma_created_playlist_is_up_to_date(songs: Seq<PlayableView>)
    requires
        songs.len() <= u32::MAX,
    ensures
        match sync_plan(songs, None) {
            SyncPlanView::Create(batches) => sync_plan(
                songs,
                Some((songs.len() as u32, batches.flatten())),
            ) == SyncPlanView::UpToDate,
            _ => false,
        },
{
    lemma_plan_holds_all_songs(songs, None);
    assert forall|i: int| 0 <= i < songs.len() implies songs.contains(#[trigger] songs[i]) by {}
}

/// Filtering by two conditions that agree on every item gives the same result.
proof fn lemma_filter_agree<A>(s: Seq<A>, p: spec_fn(A) -> bool, q: spec_fn(A) -> bool)
    requires
        forall|i: int| 0 <= i < s.len() ==> p(#[trigger] s[i]) == q(s[i]),
    ensures
        s.filter(p) == s.filter(q),
    decreases s.len(),
{
    reveal(Seq::filter);
    if s.len() > 0 {
        let rest = s.drop_last();
        assert forall|i: int| 0 <= i < rest.len() implies p(#[trigger] rest[i]) == q(rest[i]) by {
            assert(rest[i] == s[i]);
        }
        lemma_filter_agree(rest, p, q);
        assert(p(s[s.len() - 1]) == q(s[s.len() - 1]));
    }
}

/// When `present` holds, once each, some of the songs of `songs` (which holds
/// each once), the missing songs and the present ones together are as many as `songs`.
proof fn lemma_missing_count(songs: Seq<PlayableView>, present: Seq<PlayableView>)
    requires
        songs.no_duplicates(),
        present.no_duplicates(),
        forall|x: PlayableView| #[trigger] present.contains(x) ==> songs.contains(x),
    ensures
        missing_songs(songs, present).len() + present.len() == songs.len(),
    decreases songs.len(),
{
    if songs.len() == 0 {
        if present.len() > 0 {
            assert(present.contains(present[0]));
        }
        reveal(Seq::filter);
    } else {
        let rest = songs.drop_last();
        let x = songs.last();
        let pred = |y: PlayableView| !present.contains(y);
        assert(rest.push(x) =~= songs);
        rest.lemma_filter_push(x, pred);
        assert(rest.no_duplicates());
        assert(!rest.contains(x)) by {
            if rest.contains(x) {
                let k = choose|k: int| 0 <= k < rest.len() && rest[k] == x;
                assert(songs[k] == songs[songs.len() - 1]);
            }
        }
        if present.contains(x) {
            let j = choose|j: int| 0 <= j < present.len() && present[j] == x;
            let smaller = present.remove(j);
            assert forall|y: PlayableView| #[trigger] smaller.contains(y) implies rest.contains(y) by {
                let k = choose|k: int| 0 <= k < smaller.len() && smaller[k] == y;
                if k < j {
                    assert(present[k] == y);
                    assert(k != j);
                } else {
                    assert(present[k + 1] == y);
                }
                assert(present.contains(y));
                assert(y != x);
                let m = choose|m: int| 0 <= m < songs.len() && songs[m] == y;
                assert(m != songs.len() - 1);
                assert(rest[m] == y);
            }
            assert(smaller.no_duplicates()) by {
                assert forall|a: int, b: int| 0 <= a < smaller.len() && 0 <= b < smaller.len() && a != b
                    implies smaller[a] != smaller[b] by {
                    let ia = if a < j { a } else { a + 1 };
                    let ib = if b < j { b } else { b + 1 };
                    assert(smaller[a] == present[ia]);
                    assert(smaller[b] == present[ib]);
                }
            }
            lemma_missing_count(rest, smaller);
            let pred2 = |y: PlayableView| !smaller.contains(y);
            assert forall|i: int| 0 <= i < rest.len() implies pred(#[trigger] rest[i]) == pred2(rest[i]) by {
                let y = rest[i];
                assert(y != x) by {
                    assert(rest.contains(y));
                }
                if present.contains(y) {
                    let k = choose|k: int| 0 <= k < present.len() && present[k] == y;
                    assert(k != j);
                    if k < j {
                        assert(smaller[k] == y);
                    } else {
                        assert(smaller[k - 1] == y);
                    }
                }
                if smaller.contains(y) {
                    let k = choose|k: int| 0 <= k < smaller.len() && smaller[k] == y;
                    if k < j {
                        assert(present[k] == y);
                    } else {
                        assert(present[k + 1] == y);
                    }
                }
            }
            lemma_filter_agree(rest, pred, pred2);
        } else {
            assert forall|y: PlayableView| #[trigger] present.contains(y) implies rest.contains(y) by {
                let m = choose|m: int| 0 <= m < songs.len() && songs[m] == y;
                assert(m != songs.len() - 1);
                assert(rest[m] == y);
            }
            lemma_missing_count(rest, present);
        }
    }
}

/// Planning settles: when the account's playlist holds, once each, only
/// songs of `songs` (which holds each once), and reports as many items as it
/// holds, then after the plan's batches are appended to it, planning the
/// same songs again finds it up to date.
pub proof fn lemma_extended_playlist_is_up_to_date(
    songs: Seq<PlayableView>,
    total: u32,
    items: Seq<PlayableView>,
)
    requires
        songs.no_duplicates(),
        items.no_duplicates(),
        forall|x: PlayableView| #[trigger] items.contains(x) ==> songs.contains(x),
        total == items.len(),
        songs.len() <= u32::MAX,
    ensures
        match sync_plan(songs, Some((total, items))) {
            SyncPlanView::UpToDate => true,
            SyncPlanView::Extend(batches) => sync_plan(
                songs,
                Some(((total + batches.flatten().len()) as u32, items + batches.flatten())),
            ) == SyncPlanView::UpToDate,
            SyncPlanView::Create(_) => false,
        },
{
    broadcast use vstd::seq_lib::group_seq_properties;

    lemma_added_songs(songs, items);
    lemma_missing_count(songs, items);
    let added = missing_songs(songs, items);
    assert forall|i: int| 0 <= i < songs.len() implies (items + added).contains(#[trigger] songs[i]) by {
        assert(songs.contains(songs[i]));
    }
}

} // verus!
