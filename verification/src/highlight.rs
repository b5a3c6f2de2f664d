//! Highlighting of the matched part of a command, and light formatting of
//! markdown explanations and regex patterns.
use vstd::prelude::*;
use crate::text::{
    chars_of, string_of, owned, repeat, cat3, no_esc, group_no_esc, sgr, shows, ends_plain, ws_plain,
    lemma_sgr_ws_plain, lemma_shows_sgr, lemma_plain_ws_plain, lemma_ws_plain_concat,
    lemma_esc_scan_concat, lemma_shows_plain, lemma_shows_concat,
};
use crate::wrap::{utf8_len, append_chars};

verus! {

/// Escape sequence that turns on the highlight of a matched span.
pub open spec fn hl_on() -> Seq<char> {
    "\x1b[1;31m"@
}

/// Escape sequence that turns on the color of caret markers.
pub open spec fn caret_on() -> Seq<char> {
    "\x1b[31m"@
}

/// Escape sequence that turns on the color of code spans.
pub open spec fn code_on() -> Seq<char> {
    "\x1b[36m"@
}

/// Escape sequence that turns on bold text.
pub open spec fn bold_on() -> Seq<char> {
    "\x1b[1m"@
}

/// Escape sequence that resets all attributes.
pub open spec fn reset() -> Seq<char> {
    "\x1b[0m"@
}

/// A span of a command, in byte offsets, with an optional label.
#[derive(Clone, Debug)]
pub struct HighlightSpan {
    /// Byte offset where the span starts.
    pub start: usize,
    /// Byte offset just past the span.
    pub end: usize,
    /// Text shown under the span.
    pub label: Option<String>,
}

impl HighlightSpan {
    /// A span without a label.
    pub fn new(start: usize, end: usize) -> (s: Self)
        ensures
            s.start == start,
            s.end == end,
            s.label is None,
    {
        HighlightSpan { start, end, label: None }
    }

    /// A span with a label.
    pub fn with_label(start: usize, end: usize, label: &str) -> (s: Self)
        ensures
            s.start == start,
            s.end == end,
            s.label is Some,
            s.label->0@ == label@,
    {
        HighlightSpan { start, end, label: Some(owned(label)) }
    }
}

/// A command laid out for display: the (possibly windowed) command, a line
/// of carets under the span, and the span's label.
#[derive(Clone, Debug)]
pub struct HighlightedCommand {
    /// The command, cut to the window that is shown.
    pub command_line: String,
    /// Spaces, then one caret under each character of the span.
    pub caret_line: String,
    /// The label of the span, if it has one.
    pub label_line: Option<String>,
}

// ---------------------------------------------------------------------------
// Byte offsets to character positions
// ---------------------------------------------------------------------------

/// Number of characters of `s` whose UTF-8 encoding starts before byte `b`.
pub open spec fn chars_before(s: Seq<char>, b: int) -> nat
    decreases s.len(),
{
    if s.len() == 0 || b <= 0 {
        0
    } else {
        1 + chars_before(s.drop_first(), b - utf8_len(s[0]))
    }
}

proof fn lemma_chars_before_le(s: Seq<char>, b: int)
    ensures
        chars_before(s, b) <= s.len(),
    decreases s.len(),
{
    if s.len() > 0 && b > 0 {
        lemma_chars_before_le(s.drop_first(), b - utf8_len(s[0]));
    }
}

fn utf8_len_of(c: char) -> (n: usize)
    ensures
        n == utf8_len(c),
{
    let u = c as u32;
    if u < 0x80 {
        1
    } else if u < 0x800 {
        2
    } else if u < 0x10000 {
        3
    } else {
        4
    }
}

fn chars_before_exec(v: &Vec<char>, b: usize) -> (r: usize)
    ensures
        r == chars_before(v@, b as int),
{
    let mut i: usize = 0;
    let mut pos: usize = 0;
    assert(v@.skip(0) =~= v@);
    while i < v.len() && pos < b
        invariant
            i <= v.len(),
            pos <= b,
            chars_before(v@, b as int) == i + chars_before(v@.skip(i as int), b - pos),
        decreases v.len() - i,
    {
        let l = utf8_len_of(v[i]);
        assert(v@.skip(i as int).drop_first() =~= v@.skip(i + 1));
        if l >= b - pos {
            i = i + 1;
            assert(chars_before(v@.skip(i as int), b - pos - l) == 0);
            return i;
        }
        pos = pos + l;
        i = i + 1;
    }
    i
}

// ---------------------------------------------------------------------------
// The window shown of a long command
// ---------------------------------------------------------------------------

/// The middle of a span from character `s` to character `e` (its start when
/// it is empty or reversed).
pub open spec fn span_center(s: nat, e: nat) -> nat {
    if e > s {
        (s + (e - s) / 2) as nat
    } else {
        s
    }
}

/// First character shown of a command of `n` characters, when at most `w`
/// characters fit: the window is centered on character `s` (the middle of
/// the span) as far as the command allows.
pub open spec fn window_start(n: nat, s: nat, w: nat) -> nat {
    if n <= w {
        0
    } else if s <= w / 2 {
        0
    } else if s - w / 2 <= n - w {
        (s - w / 2) as nat
    } else {
        (n - w) as nat
    }
}

/// `x` held within `lo..=hi`.
pub open spec fn clamp(x: int, lo: int, hi: int) -> int {
    if x < lo {
        lo
    } else if x > hi {
        hi
    } else {
        x
    }
}

/// The layout of `command` with `span` highlighted, at most `max_width`
/// characters of it shown.
pub open spec fn highlighted(
    command: Seq<char>,
    start: usize,
    end: usize,
    use_color: bool,
    max_width: nat,
) -> (Seq<char>, Seq<char>) {
    let n = command.len();
    let s = chars_before(command, start as int);
    let e = chars_before(command, end as int);
    let ws = window_start(n, span_center(s, e), max_width) as int;
    let we = ws + if n <= max_width {
        n as int
    } else {
        max_width as int
    };
    let ms = clamp(s as int, ws, we);
    let me = clamp(e as int, ms, we);
    (window_line(command, ws, ms, me, we, use_color), caret_line(ws, ms, me, use_color))
}

fn push_range(out: &mut Vec<char>, v: &Vec<char>, from: usize, to: usize)
    requires
        from <= to <= v.len(),
    ensures
        final(out)@ == old(out)@ + v@.subrange(from as int, to as int),
{
    let mut i = from;
    while i < to
        invariant
            from <= i <= to <= v.len(),
            out@ == old(out)@ + v@.subrange(from as int, i as int),
        decreases to - i,
    {
        out.push(v[i]);
        i = i + 1;
        assert(out@ =~= old(out)@ + v@.subrange(from as int, i as int));
    }
}

fn push_str_chars(out: &mut Vec<char>, s: &str)
    ensures
        final(out)@ == old(out)@ + s@,
{
    let cs = chars_of(s);
    append_chars(out, &cs);
}

/// The command line of the layout: the window of the command, the span
/// wrapped in highlight codes when colors are on and it is not empty.
pub open spec fn window_line(command: Seq<char>, ws: int, ms: int, me: int, we: int, use_color: bool) -> Seq<char> {
    if use_color && ms < me {
        command.subrange(ws, ms) + hl_on() + command.subrange(ms, me) + reset() + command.subrange(
            me,
            we,
        )
    } else {
        command.subrange(ws, we)
    }
}

/// The caret line of the layout.
pub open spec fn caret_line(ws: int, ms: int, me: int, use_color: bool) -> Seq<char> {
    repeat(' ', (ms - ws) as nat) + if use_color && ms < me {
        caret_on() + repeat('^', (me - ms) as nat) + reset()
    } else {
        repeat('^', (me - ms) as nat)
    }
}

proof fn lemma_highlighted_parts(
    command: Seq<char>,
    start: usize,
    end: usize,
    use_color: bool,
    max_width: nat,
    ws: int,
    we: int,
    ms: int,
    me: int,
)
    requires
        ({
            let n = command.len();
            let s = chars_before(command, start as int);
            let e = chars_before(command, end as int);
            &&& ws == window_start(n, span_center(s, e), max_width) as int
            &&& we == ws + if n <= max_width {
                n as int
            } else {
                max_width as int
            }
            &&& ms == clamp(s as int, ws, we)
            &&& me == clamp(e as int, ms, we)
        }),
    ensures
        highlighted(command, start, end, use_color, max_width) == (
            window_line(command, ws, ms, me, we, use_color),
            caret_line(ws, ms, me, use_color),
        ),
{
}

fn window_bounds(v: &Vec<char>, start: usize, end: usize, max_width: usize) -> (r: (
    usize,
    usize,
    usize,
    usize,
))
    ensures
        ({
            let (ws, we, ms, me) = r;
            let n = v@.len();
            let s = chars_before(v@, start as int);
            let e = chars_before(v@, end as int);
            &&& ws == window_start(n, span_center(s, e), max_width as nat) as int
            &&& we == ws + if n <= max_width {
                n as int
            } else {
                max_width as int
            }
            &&& ms == clamp(s as int, ws as int, we as int)
            &&& me == clamp(e as int, ms as int, we as int)
            &&& ws <= ms <= me <= we <= n
        }),
{
    let n = v.len();
    let s = chars_before_exec(v, start);
    let e = chars_before_exec(v, end);
    proof {
        lemma_chars_before_le(v@, start as int);
        lemma_chars_before_le(v@, end as int);
    }
    let half = max_width / 2;
    let c: usize = if e > s {
        s + (e - s) / 2
    } else {
        s
    };
    let ws: usize = if n <= max_width {
        0
    } else if c <= half {
        0
    } else if c - half <= n - max_width {
        c - half
    } else {
        n - max_width
    };
    let we: usize = if n <= max_width {
        ws + n
    } else {
        ws + max_width
    };
    let ms: usize = if s < ws {
        ws
    } else if s > we {
        we
    } else {
        s
    };
    let me: usize = if e < ms {
        ms
    } else if e > we {
        we
    } else {
        e
    };
    (ws, we, ms, me)
}

fn window_line_exec(v: &Vec<char>, ws: usize, ms: usize, me: usize, we: usize, use_color: bool) -> (r: String)
    requires
        ws <= ms <= me <= we <= v.len(),
    ensures
        r@ == window_line(v@, ws as int, ms as int, me as int, we as int, use_color),
{
    let mut line: Vec<char> = Vec::new();
    if use_color && ms < me {
        push_range(&mut line, v, ws, ms);
        push_str_chars(&mut line, "\x1b[1;31m");
        push_range(&mut line, v, ms, me);
        push_str_chars(&mut line, "\x1b[0m");
        push_range(&mut line, v, me, we);
    } else {
        push_range(&mut line, v, ws, we);
    }
    assert(line@ =~= window_line(v@, ws as int, ms as int, me as int, we as int, use_color));
    string_of(&line)
}

fn caret_line_exec(ws: usize, ms: usize, me: usize, use_color: bool) -> (r: String)
    requires
        ws <= ms <= me,
    ensures
        r@ == caret_line(ws as int, ms as int, me as int, use_color),
{
    let mut carets: Vec<char> = Vec::new();
    let mut k: usize = ws;
    while k < ms
        invariant
            ws <= k <= ms,
            carets@ == repeat(' ', (k - ws) as nat),
        decreases ms - k,
    {
        carets.push(' ');
        k = k + 1;
        assert(carets@ =~= repeat(' ', (k - ws) as nat));
    }
    if use_color && ms < me {
        push_str_chars(&mut carets, "\x1b[31m");
    }
    let ghost before = carets@;
    let mut k: usize = ms;
    while k < me
        invariant
            ms <= k <= me,
            carets@ == before + repeat('^', (k - ms) as nat),
        decreases me - k,
    {
        carets.push('^');
        k = k + 1;
        assert(carets@ =~= before + repeat('^', (k - ms) as nat));
    }
    if use_color && ms < me {
        push_str_chars(&mut carets, "\x1b[0m");
    }
    assert(carets@ =~= caret_line(ws as int, ms as int, me as int, use_color));
    string_of(&carets)
}

/// Lay out a command for display with the matched span highlighted.
///
/// At most `max_width` characters of the command are shown; a longer command
/// is cut to a window centered on the start of the span. With colors, the
/// span and its carets are wrapped in escape sequences.
pub fn format_highlighted_command(
    command: &str,
    span: &HighlightSpan,
    use_color: bool,
    max_width: usize,
) -> (r: HighlightedCommand)
    ensures
        (r.command_line@, r.caret_line@) == highlighted(
            command@,
            span.start,
            span.end,
            use_color,
            max_width as nat,
        ),
        r.label_line == span.label,
{
    let v = chars_of(command);
    let (ws, we, ms, me) = window_bounds(&v, span.start, span.end, max_width);
    proof {
        lemma_highlighted_parts(
            v@,
            span.start,
            span.end,
            use_color,
            max_width as nat,
            ws as int,
            we as int,
            ms as int,
            me as int,
        );
    }
    HighlightedCommand {
        command_line: window_line_exec(&v, ws, ms, me, we, use_color),
        caret_line: caret_line_exec(ws, ms, me, use_color),
        label_line: span.label.clone(),
    }
}

// ---------------------------------------------------------------------------
// Regex patterns
// ---------------------------------------------------------------------------

/// A regex pattern as shown: in the code color when colors are on.
pub open spec fn regex_display(regex: Seq<char>, use_color: bool) -> Seq<char> {
    if use_color {
        code_on() + regex + reset()
    } else {
        regex
    }
}

/// Format a regex pattern for display.
pub fn format_regex_pattern(regex: &str, use_color: bool) -> (r: String)
    ensures
        r@ == regex_display(regex@, use_color),
{
    if use_color {
        cat3("\x1b[36m", regex, "\x1b[0m")
    } else {
        owned(regex)
    }
}

// ---------------------------------------------------------------------------
// Markdown explanations
// ---------------------------------------------------------------------------

/// Index of the first `c` in `s` at or after `from`, or -1.
pub open spec fn find_from(s: Seq<char>, from: int, c: char) -> int
    decreases s.len() - from,
{
    if from < 0 || from >= s.len() {
        -1
    } else if s[from] == c {
        from
    } else {
        find_from(s, from + 1, c)
    }
}

/// Where the `]` and the closing `)` stand of a link `[text](url)` that
/// opens at `i`, if one does.
pub open spec fn link_at(s: Seq<char>, i: int) -> Option<(int, int)> {
    let j = find_from(s, i + 1, ']');
    if 0 <= i < s.len() && s[i] == '[' && j >= 0 && j + 1 < s.len() && s[j + 1] == '(' {
        let k = find_from(s, j + 2, ')');
        if k >= 0 {
            Some((j, k))
        } else {
            None
        }
    } else {
        None
    }
}

/// The rest of `s` from `i` on, rendered as plain text: `**` and backticks
/// dropped (turned into bold and code colors when `color`), a link
/// `[text](url)` shown as `text (url)`; `bold` and `code` say which styles
/// are open.
pub open spec fn md_from(s: Seq<char>, i: int, bold: bool, code: bool, color: bool) -> Seq<char>
    decreases s.len() - i,
{
    if i < 0 || i >= s.len() {
        if color && (bold || code) {
            reset()
        } else {
            Seq::empty()
        }
    } else if s[i] == '*' && i + 1 < s.len() && s[i + 1] == '*' {
        (if color {
            if bold {
                reset()
            } else {
                bold_on()
            }
        } else {
            Seq::empty()
        }) + md_from(s, i + 2, !bold, code, color)
    } else if s[i] == '`' {
        (if color {
            if code {
                reset()
            } else {
                code_on()
            }
        } else {
            Seq::empty()
        }) + md_from(s, i + 1, bold, !code, color)
    } else if link_at(s, i) is Some {
        let (j, k) = link_at(s, i)->0;
        if i < j && j + 2 <= k < s.len() {
            s.subrange(i + 1, j) + " ("@ + s.subrange(j + 2, k) + ")"@ + md_from(
                s,
                k + 1,
                bold,
                code,
                color,
            )
        } else {
            Seq::empty()
        }
    } else {
        seq![s[i]] + md_from(s, i + 1, bold, code, color)
    }
}

/// An explanation written in light markdown, rendered as terminal text.
pub open spec fn markdown_text(s: Seq<char>, color: bool) -> Seq<char> {
    md_from(s, 0, false, false, color)
}

proof fn lemma_find_from(s: Seq<char>, from: int, c: char)
    ensures
        find_from(s, from, c) == -1 || (from <= find_from(s, from, c) < s.len() && s[find_from(
            s,
            from,
            c,
        )] == c),
    decreases s.len() - from,
{
    if 0 <= from < s.len() && s[from] != c {
        lemma_find_from(s, from + 1, c);
    }
}

fn find_from_exec(v: &Vec<char>, from: usize, c: char) -> (r: Option<usize>)
    ensures
        match r {
            Some(k) => find_from(v@, from as int, c) == k as int && from <= k < v.len(),
            None => find_from(v@, from as int, c) == -1,
        },
{
    let mut k = from;
    while k < v.len()
        invariant
            from <= k,
            find_from(v@, from as int, c) == find_from(v@, k as int, c),
        decreases v.len() - k,
    {
        if v[k] == c {
            return Some(k);
        }
        k = k + 1;
    }
    None
}

/// Where the link that opens at `i` ends, if one does.
fn link_at_exec(v: &Vec<char>, i: usize) -> (r: Option<(usize, usize)>)
    requires
        i < v.len(),
    ensures
        match r {
            Some((j, k)) => link_at(v@, i as int) == Some((j as int, k as int)) && i < j && j + 2
                <= k < v.len(),
            None => link_at(v@, i as int) is None,
        },
{
    if v[i] != '[' {
        return None;
    }
    match find_from_exec(v, i + 1, ']') {
        Some(j) => {
            if j + 1 < v.len() && v[j + 1] == '(' {
                match find_from_exec(v, j + 2, ')') {
                    Some(k) => Some((j, k)),
                    None => None,
                }
            } else {
                None
            }
        },
        None => None,
    }
}

/// The text that opens or closes a style, as shown.
pub open spec fn toggle_text(open: bool, on: Seq<char>, color: bool) -> Seq<char> {
    if color {
        if open {
            reset()
        } else {
            on
        }
    } else {
        Seq::empty()
    }
}

fn push_toggle(out: &mut Vec<char>, open: bool, bold_style: bool, color: bool)
    ensures
        final(out)@ == old(out)@ + toggle_text(
            open,
            if bold_style {
                bold_on()
            } else {
                code_on()
            },
            color,
        ),
{
    if color {
        if open {
            push_str_chars(out, "\x1b[0m");
        } else if bold_style {
            push_str_chars(out, "\x1b[1m");
        } else {
            push_str_chars(out, "\x1b[36m");
        }
    } else {
        assert(out@ =~= old(out)@ + Seq::<char>::empty());
    }
}

proof fn lemma_md_from_unfold(s: Seq<char>, i: int, bold: bool, code: bool, color: bool)
    requires
        0 <= i < s.len(),
    ensures
        s[i] == '*' && i + 1 < s.len() && s[i + 1] == '*' ==> md_from(s, i, bold, code, color)
            == toggle_text(bold, bold_on(), color) + md_from(s, i + 2, !bold, code, color),
        !(s[i] == '*' && i + 1 < s.len() && s[i + 1] == '*') && s[i] == '`' ==> md_from(
            s,
            i,
            bold,
            code,
            color,
        ) == toggle_text(code, code_on(), color) + md_from(s, i + 1, bold, !code, color),
{
}

/// One step of the rendering: the characters emitted for the markup at `i`
/// and where the rendering goes on.
fn md_step(v: &Vec<char>, i: usize, bold: bool, code: bool, color: bool, out: &mut Vec<char>) -> (r: (
    usize,
    bool,
    bool,
))
    requires
        i < v.len(),
    ensures
        i < r.0 <= v.len(),
        final(out)@ + md_from(v@, r.0 as int, r.1, r.2, color) == old(out)@ + md_from(
            v@,
            i as int,
            bold,
            code,
            color,
        ),
{
    proof {
        lemma_md_from_unfold(v@, i as int, bold, code, color);
    }
    if v[i] == '*' && i + 1 < v.len() && v[i + 1] == '*' {
        push_toggle(out, bold, true, color);
        assert(out@ + md_from(v@, i + 2, !bold, code, color) =~= old(out)@ + md_from(
            v@,
            i as int,
            bold,
            code,
            color,
        ));
        (i + 2, !bold, code)
    } else if v[i] == '`' {
        push_toggle(out, code, false, color);
        assert(out@ + md_from(v@, i + 1, bold, !code, color) =~= old(out)@ + md_from(
            v@,
            i as int,
            bold,
            code,
            color,
        ));
        (i + 1, bold, !code)
    } else {
        md_plain_step(v, i, bold, code, color, out)
    }
}

fn md_plain_step(v: &Vec<char>, i: usize, bold: bool, code: bool, color: bool, out: &mut Vec<char>) -> (r: (
    usize,
    bool,
    bool,
))
    requires
        i < v.len(),
        !(v@[i as int] == '*' && i + 1 < v.len() && v@[i + 1] == '*'),
        v@[i as int] != '`',
    ensures
        i < r.0 <= v.len(),
        final(out)@ + md_from(v@, r.0 as int, r.1, r.2, color) == old(out)@ + md_from(
            v@,
            i as int,
            bold,
            code,
            color,
        ),
{
    match link_at_exec(v, i) {
        Some((j, k)) => {
            push_range(out, v, i + 1, j);
            push_str_chars(out, " (");
            push_range(out, v, j + 2, k);
            push_str_chars(out, ")");
            assert(out@ + md_from(v@, k + 1, bold, code, color) =~= old(out)@ + md_from(
                v@,
                i as int,
                bold,
                code,
                color,
            ));
            (k + 1, bold, code)
        },
        None => {
            out.push(v[i]);
            assert(out@ + md_from(v@, i + 1, bold, code, color) =~= old(out)@ + md_from(
                v@,
                i as int,
                bold,
                code,
                color,
            ));
            (i + 1, bold, code)
        },
    }
}

/// Render a markdown explanation as terminal text.
///
/// `**` and backticks are dropped (with colors, they switch bold and the code
/// color on and off); a link `[text](url)` becomes `text (url)`.
pub fn format_markdown_explanation(text: &str, use_color: bool) -> (r: String)
    ensures
        r@ == markdown_text(text@, use_color),
{
    let v = chars_of(text);
    let mut out: Vec<char> = Vec::new();
    let mut i: usize = 0;
    let mut bold = false;
    let mut code = false;
    while i < v.len()
        invariant
            i <= v.len(),
            out@ + md_from(v@, i as int, bold, code, use_color) == markdown_text(v@, use_color),
        decreases v.len() - i,
    {
        let (i2, b2, c2) = md_step(&v, i, bold, code, use_color, &mut out);
        i = i2;
        bold = b2;
        code = c2;
    }
    if use_color && (bold || code) {
        push_str_chars(&mut out, "\x1b[0m");
    }
    assert(out@ =~= markdown_text(v@, use_color));
    string_of(&out)
}

// ---------------------------------------------------------------------------
// Laws of the layout
// ---------------------------------------------------------------------------

/// However long the command, the command line and the caret line shown
/// without colors hold at most `max_width` characters.
pub proof fn law_highlight_bounded(
    command: Seq<char>,
    start: usize,
    end: usize,
    max_width: nat,
)
    ensures
        highlighted(command, start, end, false, max_width).0.len() <= max_width,
        highlighted(command, start, end, false, max_width).1.len() <= max_width,
{
    lemma_chars_before_le(command, start as int);
    lemma_chars_before_le(command, end as int);
}

/// A command that fits in `max_width` characters is shown whole.
pub proof fn law_highlight_short_command_whole(
    command: Seq<char>,
    start: usize,
    end: usize,
    max_width: nat,
)
    requires
        command.len() <= max_width,
    ensures
        highlighted(command, start, end, false, max_width).0 == command,
{
    assert(command.subrange(0, command.len() as int) =~= command);
}

/// A span no longer than the window is shown whole, wherever it stands in
/// the command: the window is centered on it.
pub proof fn law_highlight_span_shown(
    command: Seq<char>,
    start: usize,
    end: usize,
    max_width: nat,
)
    requires
        chars_before(command, start as int) <= chars_before(command, end as int),
        chars_before(command, end as int) - chars_before(command, start as int) <= max_width,
    ensures
        ({
            let s = chars_before(command, start as int) as int;
            let e = chars_before(command, end as int) as int;
            let line = highlighted(command, start, end, false, max_width).0;
            exists|k: int|
                0 <= k && k + (e - s) <= line.len() && #[trigger] line.subrange(k, k + (e - s))
                    == command.subrange(s, e)
        }),
{
    lemma_chars_before_le(command, start as int);
    lemma_chars_before_le(command, end as int);
    let n = command.len();
    let s = chars_before(command, start as int) as int;
    let e = chars_before(command, end as int) as int;
    let ws = window_start(n, span_center(s as nat, e as nat), max_width) as int;
    let we = ws + if n <= max_width {
        n as int
    } else {
        max_width as int
    };
    assert(ws <= s && e <= we);
    let line = highlighted(command, start, end, false, max_width).0;
    assert(line == command.subrange(ws, we));
    assert(line.subrange(s - ws, s - ws + (e - s)) =~= command.subrange(s, e));
}

// ---------------------------------------------------------------------------
// Escape characters: none added without colors, sequences complete with them
// ---------------------------------------------------------------------------

/// Without colors, rendering markdown adds no escape character.
pub proof fn lemma_markdown_no_esc(s: Seq<char>, i: int, bold: bool, code: bool)
    requires
        no_esc(s),
    ensures
        no_esc(md_from(s, i, bold, code, false)),
    decreases s.len() - i,
{
    broadcast use group_no_esc;

    if 0 <= i < s.len() {
        if s[i] == '*' && i + 1 < s.len() && s[i + 1] == '*' {
            lemma_markdown_no_esc(s, i + 2, !bold, code);
            assert(Seq::<char>::empty() + md_from(s, i + 2, !bold, code, false) =~= md_from(
                s,
                i + 2,
                !bold,
                code,
                false,
            ));
        } else if s[i] == '`' {
            lemma_markdown_no_esc(s, i + 1, bold, !code);
            assert(Seq::<char>::empty() + md_from(s, i + 1, bold, !code, false) =~= md_from(
                s,
                i + 1,
                bold,
                !code,
                false,
            ));
        } else if link_at(s, i) is Some {
            let (j, k) = link_at(s, i)->0;
            if i < j && j + 2 <= k < s.len() {
                lemma_markdown_no_esc(s, k + 1, bold, code);
                reveal_strlit(" (");
                reveal_strlit(")");
            }
        } else {
            lemma_markdown_no_esc(s, i + 1, bold, code);
            assert(no_esc(seq![s[i]])) by {
                assert(seq![s[i]][0] == s[i]);
            }
        }
    }
}

/// The style sequences of markdown are complete SGR sequences without
/// whitespace.
proof fn lemma_style_codes()
    ensures
        reset() == sgr("0"@),
        bold_on() == sgr("1"@),
        code_on() == sgr("36"@),
        hl_on() == sgr("1;31"@),
        caret_on() == sgr("31"@),
        ws_plain(reset()) && ends_plain(reset()) && shows(reset(), 0),
        ws_plain(bold_on()) && ends_plain(bold_on()),
        ws_plain(code_on()) && ends_plain(code_on()) && shows(code_on(), 0),
        shows(hl_on(), 0),
        shows(caret_on(), 0),
{
    reveal_strlit("\x1b[0m");
    reveal_strlit("\x1b[1m");
    reveal_strlit("\x1b[36m");
    reveal_strlit("\x1b[1;31m");
    reveal_strlit("\x1b[31m");
    reveal_strlit("\x1b[");
    reveal_strlit("m");
    reveal_strlit("0");
    reveal_strlit("1");
    reveal_strlit("36");
    reveal_strlit("1;31");
    reveal_strlit("31");
    assert(reset() =~= sgr("0"@));
    assert(bold_on() =~= sgr("1"@));
    assert(code_on() =~= sgr("36"@));
    assert(hl_on() =~= sgr("1;31"@));
    assert(caret_on() =~= sgr("31"@));
    assert("0"@[0] == '0');
    assert("1"@[0] == '1');
    assert("36"@[0] == '3' && "36"@[1] == '6');
    assert("31"@[0] == '3' && "31"@[1] == '1');
    assert("1;31"@[0] == '1' && "1;31"@[1] == ';' && "1;31"@[2] == '3' && "1;31"@[3] == '1');
    lemma_sgr_ws_plain("0"@);
    lemma_sgr_ws_plain("1"@);
    lemma_sgr_ws_plain("36"@);
    lemma_shows_sgr("0"@);
    lemma_shows_sgr("36"@);
    lemma_shows_sgr("1;31"@);
    lemma_shows_sgr("31"@);
}

/// With colors, rendering markdown keeps every whitespace character outside
/// escape sequences and closes every sequence it opens.
pub proof fn lemma_markdown_ws_plain(s: Seq<char>, i: int, bold: bool, code: bool)
    requires
        no_esc(s),
    ensures
        ws_plain(md_from(s, i, bold, code, true)),
        ends_plain(md_from(s, i, bold, code, true)),
    decreases s.len() - i,
{
    broadcast use group_no_esc;

    lemma_style_codes();
    lemma_plain_ws_plain(Seq::<char>::empty());
    if 0 <= i < s.len() {
        if s[i] == '*' && i + 1 < s.len() && s[i + 1] == '*' {
            lemma_markdown_ws_plain(s, i + 2, !bold, code);
            let piece = if bold {
                reset()
            } else {
                bold_on()
            };
            let rest = md_from(s, i + 2, !bold, code, true);
            lemma_ws_plain_concat(piece, rest);
            lemma_esc_scan_concat(piece, rest);
        } else if s[i] == '`' {
            lemma_markdown_ws_plain(s, i + 1, bold, !code);
            let piece = if code {
                reset()
            } else {
                code_on()
            };
            let rest = md_from(s, i + 1, bold, !code, true);
            lemma_ws_plain_concat(piece, rest);
            lemma_esc_scan_concat(piece, rest);
        } else if link_at(s, i) is Some {
            let (j, k) = link_at(s, i)->0;
            if i < j && j + 2 <= k < s.len() {
                lemma_markdown_ws_plain(s, k + 1, bold, code);
                reveal_strlit(" (");
                reveal_strlit(")");
                let piece = s.subrange(i + 1, j) + " ("@ + s.subrange(j + 2, k) + ")"@;
                lemma_plain_ws_plain(piece);
                let rest = md_from(s, k + 1, bold, code, true);
                lemma_ws_plain_concat(piece, rest);
                lemma_esc_scan_concat(piece, rest);
            }
        } else {
            lemma_markdown_ws_plain(s, i + 1, bold, code);
            let piece = seq![s[i]];
            assert(no_esc(piece)) by {
                assert(piece[0] == s[i]);
            }
            lemma_plain_ws_plain(piece);
            let rest = md_from(s, i + 1, bold, code, true);
            lemma_ws_plain_concat(piece, rest);
            lemma_esc_scan_concat(piece, rest);
        }
    }
}

/// With colors, the command line and the caret line end in ordinary text and
/// show as many characters as they hold without colors.
pub proof fn lemma_highlight_shows(command: Seq<char>, start: usize, end: usize, max_width: nat)
    requires
        no_esc(command),
    ensures
        shows(
            highlighted(command, start, end, true, max_width).0,
            highlighted(command, start, end, false, max_width).0.len(),
        ),
        shows(
            highlighted(command, start, end, true, max_width).1,
            highlighted(command, start, end, false, max_width).1.len(),
        ),
{
    broadcast use group_no_esc;

    lemma_chars_before_le(command, start as int);
    lemma_chars_before_le(command, end as int);
    lemma_style_codes();
    let n = command.len();
    let s = chars_before(command, start as int);
    let e = chars_before(command, end as int);
    let ws = window_start(n, span_center(s, e), max_width) as int;
    let we = ws + if n <= max_width {
        n as int
    } else {
        max_width as int
    };
    let ms = clamp(s as int, ws, we);
    let me = clamp(e as int, ms, we);
    let plain = command.subrange(ws, we);
    lemma_shows_plain(plain);
    let spaces = repeat(' ', (ms - ws) as nat);
    let carets = repeat('^', (me - ms) as nat);
    lemma_shows_plain(spaces);
    lemma_shows_plain(carets);
    lemma_shows_plain(spaces + carets);
    if ms < me {
        let a = command.subrange(ws, ms);
        let m = command.subrange(ms, me);
        let z = command.subrange(me, we);
        lemma_shows_plain(a);
        lemma_shows_plain(m);
        lemma_shows_plain(z);
        lemma_shows_concat(a, a.len(), hl_on(), 0);
        lemma_shows_concat(a + hl_on(), a.len(), m, m.len());
        lemma_shows_concat(a + hl_on() + m, a.len() + m.len(), reset(), 0);
        lemma_shows_concat(a + hl_on() + m + reset(), a.len() + m.len(), z, z.len());
        lemma_shows_concat(spaces, spaces.len(), caret_on(), 0);
        lemma_shows_concat(spaces + caret_on(), spaces.len(), carets, carets.len());
        lemma_shows_concat(spaces + caret_on() + carets, spaces.len() + carets.len(), reset(), 0);
        assert(spaces + (caret_on() + carets + reset()) =~= spaces + caret_on() + carets + reset());
    }
}

/// With colors, a regex shows as many characters as it holds.
pub proof fn lemma_regex_display_shows(regex: Seq<char>)
    requires
        no_esc(regex),
    ensures
        shows(regex_display(regex, true), regex.len()),
{
    lemma_style_codes();
    lemma_shows_plain(regex);
    lemma_shows_concat(code_on(), 0, regex, regex.len());
    lemma_shows_concat(code_on() + regex, regex.len(), reset(), 0);
}

/// Without colors, the command line and the caret line hold no escape
/// character the command does not hold.
pub proof fn lemma_highlight_no_esc(command: Seq<char>, start: usize, end: usize, max_width: nat)
    requires
        no_esc(command),
    ensures
        no_esc(highlighted(command, start, end, false, max_width).0),
        no_esc(highlighted(command, start, end, false, max_width).1),
{
    broadcast use group_no_esc;

    lemma_chars_before_le(command, start as int);
    lemma_chars_before_le(command, end as int);
}

} // verus!
