use vstd::prelude::*;

verus! {

/// Something that can stand in a playlist: a track or a podcast episode,
/// named by its Spotify id.
#[derive(Debug, Clone, PartialEq, Eq)]
pub enum PlayableId {
    Track(String),
    Episode(String),
}

/// The mathematical value of a `PlayableId`: its kind and the characters of its id.
pub enum PlayableView {
    Track(Seq<char>),
    Episode(Seq<char>),
}

impl View for PlayableId {
    type V = PlayableView;

    open spec fn view(&self) -> PlayableView {
        match self {
            PlayableId::Track(id) => PlayableView::Track(id@),
            PlayableId::Episode(id) => PlayableView::Episode(id@),
        }
    }
}

impl PlayableId {
    /// Whether two ids name the same playable item.
    pub fn same_as(&self, other: &PlayableId) -> (res: bool)
        ensures
            res == (self@ == other@),
    {
        match (self, other) {
            (PlayableId::Track(a), PlayableId::Track(b)) => *a == *b,
            (PlayableId::Episode(a), PlayableId::Episode(b)) => *a == *b,
            _ => false,
        }
    }

    /// A copy of this id.
    pub fn duplicate(&self) -> (res: PlayableId)
        ensures
            res@ == self@,
    {
        match self {
            PlayableId::Track(id) => PlayableId::Track(id.clone()),
            PlayableId::Episode(id) => PlayableId::Episode(id.clone()),
        }
    }
}

/// The values of a sequence of ids.
pub open spec fn ids_view(ids: Seq<PlayableId>) -> Seq<PlayableView> {
    ids.map_values(|x: PlayableId| x@)
}

/// `s` with every item after its first occurrence removed; the first
/// occurrences keep their order.
pub open spec fn first_occurrences<A>(s: Seq<A>) -> Seq<A>
    decreases s.len(),
{
    if s.len() == 0 {
        Seq::empty()
    } else {
        let kept = first_occurrences(s.drop_last());
        if kept.contains(s.last()) {
            kept
        } else {
            kept.push(s.last())
        }
    }
}

/// An item occurs in `first_occurrences(s)` exactly when it occurs in `s`:
/// removing repeats loses no item and invents none.
pub proof fn lemma_first_occurrences_same_items<A>(s: Seq<A>)
    ensures
        forall|x: A| #[trigger] first_occurrences(s).contains(x) <==> s.contains(x),
    decreases s.len(),
{
    if s.len() > 0 {
        let rest = s.drop_last();
        lemma_first_occurrences_same_items(rest);
        assert forall|x: A| #[trigger] s.contains(x) <==> (rest.contains(x) || x == s.last()) by {
            if s.contains(x) {
                let k = choose|k: int| 0 <= k < s.len() && s[k] == x;
                if k < s.len() - 1 {
                    assert(rest[k] == x);
                }
            }
            if rest.contains(x) {
                let k = choose|k: int| 0 <= k < rest.len() && rest[k] == x;
                assert(s[k] == x);
            }
            if x == s.last() {
                assert(s[s.len() - 1] == x);
            }
        }
        let kept = first_occurrences(rest);
        assert forall|x: A| #[trigger] kept.push(s.last()).contains(x) <==> (kept.contains(x) || x == s.last()) by {
            if kept.push(s.last()).contains(x) {
                let k = choose|k: int| 0 <= k < kept.push(s.last()).len() && kept.push(s.last())[k] == x;
                if k < kept.len() {
                    assert(kept[k] == x);
                }
            }
            if kept.contains(x) {
                let k = choose|k: int| 0 <= k < kept.len() && kept[k] == x;
                assert(kept.push(s.last())[k] == x);
            }
            if x == s.last() {
                assert(kept.push(s.last())[kept.len() as int] == x);
            }
        }
    }
}

/// `first_occurrences(s)` holds no item twice.
pub proof fn lemma_first_occurrences_no_duplicates<A>(s: Seq<A>)
    ensures
        first_occurrences(s).no_duplicates(),
    decreases s.len(),
{
    if s.len() > 0 {
        let rest = s.drop_last();
        lemma_first_occurrences_no_duplicates(rest);
        let kept = first_occurrences(rest);
        if !kept.contains(s.last()) {
            let pushed = kept.push(s.last());
            assert forall|i: int, j: int| 0 <= i < pushed.len() && 0 <= j < pushed.len() && i != j
                implies pushed[i] != pushed[j] by {
                if i < kept.len() && j < kept.len() {
                    assert(kept[i] != kept[j]);
                } else if i < kept.len() {
                    assert(kept.contains(kept[i]));
                } else {
                    assert(kept.contains(kept[j]));
                }
            }
        }
    }
}

/// A sequence that holds no item twice is left as it is.
pub proof fn lemma_first_occurrences_of_distinct<A>(s: Seq<A>)
    requires
        s.no_duplicates(),
    ensures
        first_occurrences(s) == s,
    decreases s.len(),
{
    if s.len() > 0 {
        let rest = s.drop_last();
        assert(rest.no_duplicates());
        lemma_first_occurrences_of_distinct(rest);
        if rest.contains(s.last()) {
            let k = choose|k: int| 0 <= k < rest.len() && rest[k] == s.last();
            assert(s[k] == s[s.len() - 1]);
        }
        assert(rest.push(s.last()) =~= s);
    }
}

/// Removing repeats twice is the same as removing them once.
pub proof fn lemma_first_occurrences_idempotent<A>(s: Seq<A>)
    ensures
        first_occurrences(first_occurrences(s)) == first_occurrences(s),
{
    lemma_first_occurrences_no_duplicates(s);
    lemma_first_occurrences_of_distinct(first_occurrences(s));
}

/// What a prefix of `s` keeps is a prefix of what `s` keeps: the first
/// occurrences stay in the order in which they first occur.
pub proof fn lemma_first_occurrences_prefix<A>(s: Seq<A>, i: int)
    requires
        0 <= i <= s.len(),
    ensures
        first_occurrences(s.take(i)).len() <= first_occurrences(s).len(),
        first_occurrences(s.take(i)) == first_occurrences(s).take(
            first_occurrences(s.take(i)).len() as int,
        ),
    decreases s.len(),
{
    if i == s.len() {
        assert(s.take(i) =~= s);
        assert(first_occurrences(s).take(first_occurrences(s).len() as int) =~= first_occurrences(s));
    } else {
        let rest = s.drop_last();
        assert(rest.take(i) =~= s.take(i));
        lemma_first_occurrences_prefix(rest, i);
        let small = first_occurrences(s.take(i));
        let kept = first_occurrences(rest);
        if !kept.contains(s.last()) {
            assert(kept.push(s.last()).take(small.len() as int) =~= kept.take(small.len() as int));
        }
    }
}

/// Filtering by a condition that holds of every item keeps everything.
pub(crate) proof fn lemma_filter_all<A>(s: Seq<A>, pred: spec_fn(A) -> bool)
    requires
        forall|x: A| #[trigger] pred(x),
    ensures
        s.filter(pred) == s,
    decreases s.len(),
{
    reveal(Seq::filter);
    if s.len() > 0 {
        lemma_filter_all(s.drop_last(), pred);
        assert(s.drop_last().push(s.last()) =~= s);
    }
}

/// Whether `id` occurs in `ids`.
pub fn contains_id(ids: &Vec<PlayableId>, id: &PlayableId) -> (res: bool)
    ensures
        res == ids_view(ids@).contains(id@),
{
    let mut i: usize = 0;
    while i < ids.len()
        invariant
            i <= ids.len(),
            forall|j: int| 0 <= j < i ==> ids@[j]@ != id@,
        decreases ids.len() - i,
    {
        if ids[i].same_as(id) {
            assert(ids_view(ids@)[i as int] == id@);
            return true;
        }
        i = i + 1;
    }
    proof {
        if ids_view(ids@).contains(id@) {
            let k = choose|k: int| 0 <= k < ids_view(ids@).len() && ids_view(ids@)[k] == id@;
            assert(ids@[k]@ == id@);
        }
    }
    false
}

/// A copy of a list of ids.
pub fn copy_ids(ids: &Vec<PlayableId>) -> (res: Vec<PlayableId>)
    ensures
        ids_view(res@) == ids_view(ids@),
{
    let mut res: Vec<PlayableId> = Vec::new();
    let mut i: usize = 0;
    while i < ids.len()
        invariant
            i <= ids.len(),
            ids_view(res@) == ids_view(ids@).take(i as int),
        decreases ids.len() - i,
    {
        res.push(ids[i].duplicate());
        assert(ids_view(ids@).take(i + 1) == ids_view(ids@).take(i as int).push(ids@[i as int]@));
        i = i + 1;
    }
    assert(ids_view(ids@).take(ids.len() as int) == ids_view(ids@));
    res
}

/// `ids` without repeats: each id at its first occurrence, in the original order.
pub fn unique_ids(ids: &Vec<PlayableId>) -> (res: Vec<PlayableId>)
    ensures
        ids_view(res@) == first_occurrences(ids_view(ids@)),
{
    let mut res: Vec<PlayableId> = Vec::new();
    let mut i: usize = 0;
    while i < ids.len()
        invariant
            i <= ids.len(),
            ids_view(res@) == first_occurrences(ids_view(ids@).take(i as int)),
        decreases ids.len() - i,
    {
        let ghost before = ids_view(ids@).take(i as int);
        assert(ids_view(ids@).take(i + 1).drop_last() == before);
        assert(ids_view(ids@).take(i + 1).last() == ids@[i as int]@);
        if !contains_id(&res, &ids[i]) {
            res.push(ids[i].duplicate());
            assert(ids_view(res@) == ids_view(res@).drop_last().push(ids@[i as int]@));
        }
        i = i + 1;
    }
    assert(ids_view(ids@).take(ids.len() as int) == ids_view(ids@));
    res
}

} // verus!
