# denial_box

The message shown in a terminal when a command is blocked: the command with
the matched span marked, the pattern that matched with its pack and severity,
an optional explanation, safe alternatives, and the git branch when one is
known. It renders as plain text, in a Unicode box, in an ASCII box, without a
border, or as the layout of a console panel.

The library in `src/` is verified with Verus; every public function states in
its `ensures` what it returns, over spec functions on `Seq<char>`.

- `text`: escape-sequence stripping, trimming, padding, small string helpers.
- `wrap`: word wrapping to a width in characters.
- `theme`: severities, border styles, colors and their ANSI and markup codes.
- `highlight`: windowing a long command around the matched span, carets under
  the span, light markdown and regex display.
- `pattern`: splitting pattern identifiers into pack and pattern.
- `denial`: the denial box and its renderings, including the console panel
  that `rich_rust` draws (`render_rich`).

Proof functions named `law_*` state properties of the library as a whole:
wrapped lines fit and keep every word, the ASCII box is a rectangle, output
without colors holds no escape character, stripping is idempotent, and more.

`app/` holds what Verus does not see: terminal detection, conversion from
`ratatui` colors, and the `rich_rust` box characters handed to `render_rich`.
