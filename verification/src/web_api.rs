use vstd::prelude::*;
use vstd::string::*;

use base64::Engine;

verus! {

/// The credentials that the secrets file holds, one per line.
#[derive(Debug, Clone, PartialEq, Eq)]
pub struct Secrets {
    pub id: String,
    pub secret: String,
    pub auth_code: String,
}

/// The first position at or after `from` where a line break `\r\n` starts.
pub open spec fn find_line_break(s: Seq<char>, from: int) -> Option<int>
    decreases s.len() - from,
{
    if from < 0 || from + 1 >= s.len() {
        None
    } else if s[from] == '\r' && s[from + 1] == '\n' {
        Some(from)
    } else {
        find_line_break(s, from + 1)
    }
}

/// The text before the first line break, or all of it if there is none.
pub open spec fn first_line(s: Seq<char>) -> Seq<char> {
    match find_line_break(s, 0) {
        Some(p) => s.take(p),
        None => s,
    }
}

/// The text after the first line break, if there is one.
pub open spec fn after_first_line(s: Seq<char>) -> Option<Seq<char>> {
    match find_line_break(s, 0) {
        Some(p) => Some(s.skip(p + 2)),
        None => None,
    }
}

/// The first three lines of a text whose lines end with `\r\n`: the client
/// id, the client secret and the authorization code. There must be at least
/// two line breaks; the third line runs to the next break or to the end.
pub open spec fn secrets_of(s: Seq<char>) -> Option<(Seq<char>, Seq<char>, Seq<char>)> {
    match after_first_line(s) {
        None => None,
        Some(rest) => match after_first_line(rest) {
            None => None,
            Some(last) => Some((first_line(s), first_line(rest), first_line(last))),
        },
    }
}

/// Where the first line break at or after `from` starts.
fn line_break_from(s: &str, from: usize) -> (res: Option<usize>)
    requires
        from <= s@.len(),
    ensures
        match res {
            Some(p) => find_line_break(s@, from as int) == Some(p as int),
            None => find_line_break(s@, from as int) is None,
        },
{
    let n = s.unicode_len();
    let mut i = from;
    while n - i > 1
        invariant
            from <= i <= n,
            n == s@.len(),
            find_line_break(s@, from as int) == find_line_break(s@, i as int),
        decreases n - i,
    {
        if s.get_char(i) == '\r' && s.get_char(i + 1) == '\n' {
            return Some(i);
        }
        i = i + 1;
    }
    None
}

/// Splits `s` at its first line break: the first line, and what follows the break.
fn split_first_line(s: &str) -> (res: (&str, Option<&str>))
    ensures
        res.0@ == first_line(s@),
        match res.1 {
            Some(rest) => after_first_line(s@) == Some(rest@),
            None => after_first_line(s@) is None,
        },
{
    let n = s.unicode_len();
    match line_break_from(s, 0) {
        Some(p) => {
            proof {
                lemma_line_break_in_range(s@, 0);
            }
            (s.substring_char(0, p), Some(s.substring_char(p + 2, n)))
        },
        None => (s, None),
    }
}

/// A line break that is found lies within the text.
proof fn lemma_line_break_in_range(s: Seq<char>, from: int)
    ensures
        find_line_break(s, from) matches Some(p) ==> from <= p && p + 2 <= s.len(),
    decreases s.len() - from,
{
    if !(from < 0 || from + 1 >= s.len()) && !(s[from] == '\r' && s[from + 1] == '\n') {
        lemma_line_break_in_range(s, from + 1);
    }
}

/// Reads the credentials from the text of the secrets file: `None` when it
/// has fewer than two line breaks.
pub fn parse_secrets(file: &str) -> (res: Option<Secrets>)
    ensures
        match res {
            Some(sec) => secrets_of(file@) == Some((sec.id@, sec.secret@, sec.auth_code@)),
            None => secrets_of(file@) is None,
        },
{
    let (id, rest) = split_first_line(file);
    match rest {
        None => None,
        Some(rest) => {
            let (secret, last) = split_first_line(rest);
            match last {
                None => None,
                Some(last) => {
                    let (auth_code, _) = split_first_line(last);
                    Some(
                        Secrets {
                            id: id.to_owned(),
                            secret: secret.to_owned(),
                            auth_code: auth_code.to_owned(),
                        },
                    )
                },
            }
        },
    }
}

/// The body of the request for an access token of the app itself.
pub fn client_credentials_body(id: &str, secret: &str) -> (res: String)
    ensures
        res@ == "grant_type=client_credentials&client_id="@ + id@ + "&client_secret="@ + secret@,
{
    let mut body = "grant_type=client_credentials&client_id=".to_owned();
    body.append(id);
    body.append("&client_secret=");
    body.append(secret);
    body
}

/// The body of the request that trades an authorization code for an access token.
pub fn authorization_code_body(auth_code: &str) -> (res: String)
    ensures
        res@ == "grant_type=authorization_code&code="@ + auth_code@
            + "&redirect_uri=https://open.spotify.com/"@,
{
    let mut body = "grant_type=authorization_code&code=".to_owned();
    body.append(auth_code);
    body.append("&redirect_uri=https://open.spotify.com/");
    body
}

/// The address of a public playlist.
pub fn playlist_url(id: &str) -> (res: String)
    ensures
        res@ == "https://api.spotify.com/v1/playlists/"@ + id@,
{
    let mut url = "https://api.spotify.com/v1/playlists/".to_owned();
    url.append(id);
    url
}

/// The base64 text, in the URL-safe alphabet with padding, of the UTF-8 bytes of `text`.
pub uninterp spec fn url_safe_base64(text: Seq<char>) -> Seq<char>;

/// Calls `Engine::encode` of the `base64` crate with the `URL_SAFE` engine
/// on the bytes of `text`. Trusted: the result is the encoding that
/// `url_safe_base64` names. The `requires` keeps the encoded length within
/// `usize`, the one case in which the crate panics.
#[verifier::external_body]
fn encode_url_safe(text: &str) -> (res: String)
    requires
        text@.len() <= usize::MAX / 8,
    ensures
        res@ == url_safe_base64(text@),
{
    base64::engine::general_purpose::URL_SAFE.encode(text)
}

/// The value of an `Authorization` header for credentials already encoded.
pub fn basic_header(encoded: &str) -> (res: String)
    ensures
        res@ == "Basic "@ + encoded@,
{
    let mut header = "Basic ".to_owned();
    header.append(encoded);
    header
}

/// The value of the `Authorization` header that presents the app's id and secret.
pub fn basic_authorization(id: &str, secret: &str) -> (res: String)
    requires
        id@.len() + secret@.len() + 1 <= usize::MAX / 8,
    ensures
        res@ == "Basic "@ + url_safe_base64(id@ + ":"@ + secret@),
{
    let mut joined = id.to_owned();
    joined.append(":");
    joined.append(secret);
    proof {
        reveal_strlit(":");
    }
    let encoded = encode_url_safe(joined.as_str());
    basic_header(encoded.as_str())
}

/// A track as the program keeps it: its name and the names of its artists.
#[derive(Debug, Clone, PartialEq, Eq)]
pub struct Track {
    pub name: String,
    pub artists: Vec<String>,
}

/// A track as a page of playlist items describes it: its name, and for each
/// artist the name when the page gives it as text.
#[derive(Debug, Clone, PartialEq, Eq)]
pub struct TrackEntry {
    pub name: String,
    pub artists: Vec<Option<String>>,
}

/// One page of the items of a playlist.
#[derive(Debug, Clone, PartialEq, Eq)]
pub struct TracksPage {
    /// Each item's track, `None` where the item holds no track.
    pub items: Vec<Option<TrackEntry>>,
    /// How many items the playlist has in all.
    pub total: u64,
    /// The address of the next page, if there is one.
    pub next: Option<String>,
}

/// The name shown for an artist whose name is not given.
pub open spec fn artist_name(artist: Option<String>) -> Seq<char> {
    match artist {
        Some(name) => name@,
        None => "Unknown Artist"@,
    }
}

/// The value of a track: its name and its artists' names.
pub open spec fn track_view(t: Track) -> (Seq<char>, Seq<Seq<char>>) {
    (t.name@, t.artists@.map_values(|a: String| a@))
}

/// The value of the track that an entry describes.
pub open spec fn entry_track(e: TrackEntry) -> (Seq<char>, Seq<Seq<char>>) {
    (e.name@, e.artists@.map_values(|a: Option<String>| artist_name(a)))
}

/// The tracks of a page's items, in order; items without a track are skipped.
pub open spec fn page_tracks_of(items: Seq<Option<TrackEntry>>) -> Seq<(Seq<char>, Seq<Seq<char>>)>
    decreases items.len(),
{
    if items.len() == 0 {
        Seq::empty()
    } else {
        let before = page_tracks_of(items.drop_last());
        match items.last() {
            Some(e) => before.push(entry_track(e)),
            None => before,
        }
    }
}

/// The track read from an entry keeps the entry's name and lists its
/// artists in order: each artist by its given name, and "Unknown Artist"
/// exactly where no name is given.
pub proof fn lemma_entry_track(e: TrackEntry)
    ensures
        entry_track(e).0 == e.name@,
        entry_track(e).1.len() == e.artists@.len(),
        forall|k: int| 0 <= k < e.artists@.len() ==> #[trigger] entry_track(e).1[k] == match e.artists@[k] {
            Some(name) => name@,
            None => "Unknown Artist"@,
        },
{
}

/// Whether `track` is the track of one of `items`.
pub open spec fn from_an_item(items: Seq<Option<TrackEntry>>, track: (Seq<char>, Seq<Seq<char>>)) -> bool {
    exists|k: int| 0 <= k < items.len() && #[trigger] items[k] == Some(items[k]->0) && track == entry_track(items[k]->0)
}

/// The tracks of a page are those of its items that hold one, in order:
/// each comes from an item with a track, and an item with a track adds its
/// track after those of the items before it.
pub proof fn lemma_page_tracks(items: Seq<Option<TrackEntry>>)
    ensures
        page_tracks_of(items).len() <= items.len(),
        forall|j: int| 0 <= j < page_tracks_of(items).len() ==> from_an_item(items, #[trigger] page_tracks_of(items)[j]),
        forall|e: TrackEntry| #[trigger] page_tracks_of(items.push(Some(e))) == page_tracks_of(items).push(entry_track(e)),
        page_tracks_of(items.push(None)) == page_tracks_of(items),
    decreases items.len(),
{
    assert forall|e: TrackEntry| #[trigger] page_tracks_of(items.push(Some(e))) == page_tracks_of(items).push(
        entry_track(e),
    ) by {
        assert(items.push(Some(e)).drop_last() =~= items);
    }
    assert(items.push(None).drop_last() =~= items);
    if items.len() > 0 {
        let rest = items.drop_last();
        lemma_page_tracks(rest);
        let tracks = page_tracks_of(items);
        assert forall|j: int| 0 <= j < tracks.len() implies from_an_item(items, #[trigger] tracks[j]) by {
            if j < page_tracks_of(rest).len() {
                assert(from_an_item(rest, page_tracks_of(rest)[j]));
                let k = choose|k: int|
                    0 <= k < rest.len() && #[trigger] rest[k] == Some(rest[k]->0) && page_tracks_of(rest)[j]
                        == entry_track(rest[k]->0);
                assert(items[k] == rest[k]);
                assert(tracks[j] == page_tracks_of(rest)[j]);
                assert(items[k] == Some(items[k]->0));
            } else {
                let k = items.len() - 1;
                assert(items[k] == items.last());
                assert(items[k] == Some(items[k]->0));
                assert(tracks[j] == entry_track(items[k]->0));
            }
        }
    }
}

fn artist_names(artists: &Vec<Option<String>>) -> (res: Vec<String>)
    ensures
        res@.map_values(|a: String| a@) == artists@.map_values(|a: Option<String>| artist_name(a)),
{
    let mut res: Vec<String> = Vec::new();
    let mut i: usize = 0;
    while i < artists.len()
        invariant
            i <= artists.len(),
            res@.map_values(|a: String| a@) == artists@.map_values(|a: Option<String>| artist_name(a)).take(
                i as int,
            ),
        decreases artists.len() - i,
    {
        let ghost before = res@.map_values(|a: String| a@);
        let name = match &artists[i] {
            Some(name) => name.clone(),
            None => "Unknown Artist".to_owned(),
        };
        assert(name@ == artist_name(artists@[i as int]));
        res.push(name);
        assert(res@.map_values(|a: String| a@) =~= before.push(artist_name(artists@[i as int])));
        assert(res@.map_values(|a: String| a@) =~= artists@.map_values(|a: Option<String>| artist_name(a)).take(
            i + 1,
        ));
        i = i + 1;
    }
    assert(artists@.map_values(|a: Option<String>| artist_name(a)).take(artists.len() as int)
        =~= artists@.map_values(|a: Option<String>| artist_name(a)));
    res
}

/// The tracks of a page, in order, skipping the items that hold no track.
pub fn page_tracks(page: &TracksPage) -> (res: Vec<Track>)
    ensures
        res@.map_values(|t: Track| track_view(t)) == page_tracks_of(page.items@),
{
    let mut res: Vec<Track> = Vec::new();
    let mut i: usize = 0;
    while i < page.items.len()
        invariant
            i <= page.items.len(),
            res@.map_values(|t: Track| track_view(t)) == page_tracks_of(page.items@.take(i as int)),
        decreases page.items.len() - i,
    {
        let ghost before = res@.map_values(|t: Track| track_view(t));
        assert(page.items@.take(i + 1).drop_last() =~= page.items@.take(i as int));
        assert(page.items@.take(i + 1).last() == page.items@[i as int]);
        match &page.items[i] {
            Some(entry) => {
                let track = Track { name: entry.name.clone(), artists: artist_names(&entry.artists) };
                res.push(track);
                assert(res@.map_values(|t: Track| track_view(t)) =~= before.push(entry_track(*entry)));
            },
            None => {
                assert(res@.map_values(|t: Track| track_view(t)) =~= before);
            },
        }
        i = i + 1;
    }
    assert(page.items@.take(page.items.len() as int) =~= page.items@);
    res
}

/// What to do after reading a page of a playlist's items.
#[derive(Debug, Clone, PartialEq, Eq)]
pub enum PageStep {
    /// The page held as many tracks as the playlist has items.
    Complete,
    /// Tracks are missing: read the page at this address and add its tracks.
    Fetch(String),
    /// Tracks are missing but there is no next page.
    NoNextPage,
}

/// What follows a page from which `found` tracks were read: nothing when
/// they are as many as the playlist's items, else the next page if there is one.
pub fn next_step(page: &TracksPage, found: usize) -> (res: PageStep)
    ensures
        found == page.total ==> res == PageStep::Complete,
        found != page.total ==> match page.next {
            Some(url) => res matches PageStep::Fetch(u) && u@ == url@,
            None => res == PageStep::NoNextPage,
        },
{
    if found as u64 == page.total {
        PageStep::Complete
    } else {
        match &page.next {
            Some(url) => PageStep::Fetch(url.clone()),
            None => PageStep::NoNextPage,
        }
    }
}

} // verus!
