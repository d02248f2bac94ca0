# ledify

Drives an LED display from the Spotify player: the program polls the
playback state, puts the track's title and artists on the display over a
serial port, and flashes it on each beat of the track's audio analysis.

- `src/` is the verified library (Verus):
  - `strings` — appending characters, decimal numerals, splitting on a
    character, with the laws of splitting;
  - `display` — folding Polish letters to ASCII and cutting texts to the
    display's sixteen bytes;
  - `auth` — client id, token, and the form parameters of each token request
    and of the authorization page;
  - `pkce` — random state and code verifier, the code challenge, the check of
    the redirect's state, and the choice between refreshing and authorizing;
  - `redirect` — reading code and state out of the redirect request line, and
    the answer sent back;
  - `playback` — the playback state, the display messages, and the polling
    loop's decision on each new state.
- `app/main.rs` is the program: HTTP, files, browser, serial port, threads and
  the beat timing (floating-point seconds).
- `tests/` runs the library against concrete values.
