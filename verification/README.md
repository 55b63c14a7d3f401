# autofy

Keeps "automatic" Spotify playlists: each playlist is built from sources
(songs listed by hand, other playlists of the account, albums, or other
automatic playlists), and is written to the user's account under the title
`Autofy <name>`.

- `src/` is the verified library (Verus):
  - `songs`: ids of tracks and episodes, and removing repeats while keeping
    first occurrences;
  - `backend`: playlists, pipes, sources and filters, and which songs a
    playlist holds given the songs fetched for its remote sources;
  - `sync`: what must be done to the account for it to hold a playlist's
    songs (titles, up-to-date check, missing songs, batches of 100);
  - `frontend`: the editor's screens, key handling and the lists shown;
  - `web_api`: the secrets file, request texts, and the pages of a
    playlist's items read over the web API.
- `app/` is the program around it: talking to Spotify with `rspotify` and
  `reqwest`, and the terminal interface with `ratatui` and `crossterm`.
