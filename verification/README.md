# ghfetch

A Neofetch-style command line tool for GitHub profiles: the user's avatar in
terminal colours beside system information and this year's contribution
graph.

## Layout

- `src/` is the library, verified with Verus. Each public function states
  what it returns in its `ensures`; the `law_...` proof functions state the
  properties that hold across calls.
  - `text` — strings as character sequences: trimming, searching, splitting
    into lines and words, decimal numbers.
  - `theme` — the Gruvbox palette, ANSI escape sequences, icons.
  - `renderer` — visible width, truncation, the system lines and the
    side-by-side layout of the screen.
  - `contributions` — the contribution graph.
  - `github` — GitHub's data, the contribution page parser, request URLs.
  - `system`, `probe` — system information and reading the output of
    `lspci`, `xrandr`, `system_profiler` and `wmic`.
  - `config`, `cli`, `cache`, `avatar`, `greeting` — settings, command-line
    decisions, cache file names and ages, avatar lines, the greeting.
- `app/` is the program around it: argument parsing, the configuration
  file, HTTP, the cache on disk, image decoding and running system tools.
- `tests/` runs the library on concrete inputs.
