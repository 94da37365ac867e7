# Lyrics overlay

Shows the current line of the song that Cider plays, on top of a Wayland desktop.

The library in `src/` decides; it is written in Verus and every function in it is
verified against its contract. The program in `app/` talks to the player, to
lrclib.net and to the compositor.

| module | what it holds |
| --- | --- |
| `text`, `number` | searching, splitting and trimming text; reading integers |
| `lrc` | LRC texts, timestamps, and the line to show at a position |
| `lrclib` | URLs, the choice among search results, the cache of lyrics |
| `fetch` | the steps of a lookup |
| `playback` | the state of the player, and what to say when it cannot be reached |
| `sync` | which text to show as the playback goes on |
| `settings` | settings from environment variables |
| `canvas` | blending, and glyphs on a canvas |
| `overlay` | what is drawn in a frame, and where |

Two functions from elsewhere are trusted: `str::to_lowercase` and
`urlencoding::encode`. Where a number would not fit its integer, a function either
says so in its result (`OutOfRange`) or excludes the input by `requires`.

Settings: `LYRICS_WIDTH`, `LYRICS_HEIGHT`, `LYRICS_TOP_MARGIN`,
`LYRICS_RIGHT_MARGIN`, `LYRICS_FONT_SIZE`, `LYRICS_OFFSET_MS`,
`LYRICS_ALLOW_ARTIST_MISMATCH`, `CIDER_API_TOKEN`.
