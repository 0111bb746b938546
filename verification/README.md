# longhorn

The library of a terminal music player: its play queue and playback
bookkeeping, and the lexer and parser of its configuration language, with
contracts proved by Verus.

## Layout

- `src/` – the verified library.
  - `song.rs` – songs and where they are found.
  - `queue.rs` – a play queue with a bounded history.
  - `player.rs` – the player's bookkeeping; each operation returns the
    commands that the audio engine carries out.
  - `lexer.rs` – the configuration language's tokens and the machine that
    reads them.
  - `parse.rs`, `lines.rs`, `path.rs`, `math.rs` – the parser: rule stack,
    comments and white space, lines and error recovery, path values, and math
    blocks. Math values are generic; the caller evaluates numbers and
    operators.
  - `settings.rs` – the settings and the bookkeeping of reading configuration
    files that name further files.
  - `reader.rs`, `text.rs` – a settings reader with fixed values, and small
    text operations.
- `tests/` – tests of the library.
- `app/` – the terminal program: reading files, the audio engine, float
  arithmetic of math blocks, and the user interface.
