//! The denial message box: what is shown when a command is blocked.
//!
//! A denial shows a header (naming the git branch when one is known), the
//! command with the matched span marked, an optional explanation, the
//! pattern that matched with its pack and severity, and safe alternatives.
//! It comes as plain text, in a Unicode box, in an ASCII box, without a
//! border, or inside a console panel.
use vstd::prelude::*;
use crate::text::{
    owned, cat, cat3, cat4, cat5, trim_chars, string_of, trim, padding, padding_for, repeat,
    repeat_char, sat_sub, strip_ansi, strip_ansi_codes, esc, no_esc, no_esc_lines, group_no_esc,
    ends_plain, lemma_esc_scan_concat, csi_params, sgr, lemma_sgr, lemma_csi_params_concat, shows,
    lemma_shows_concat, lemma_shows_plain, lemma_shows_sgr, visible_len,
};
use crate::wrap::{
    views, wrap, wrap_defined, wrap_text, wrap_text_defined, text_lines, text_lines_of,
    lemma_wrap_no_esc, lemma_wrap_ends_plain,
};
use crate::highlight::{
    HighlightSpan, format_highlighted_command, format_markdown_explanation,
    highlighted, markdown_text, lemma_markdown_no_esc, lemma_highlight_no_esc,
    law_highlight_bounded, lemma_highlight_shows, lemma_markdown_ws_plain, law_highlight_span_shown,
    chars_before,
};
use crate::theme::{
    Severity, BorderStyle, Theme, ansi_code, severity_name, severity_name_str, severity_color_code,
    ansi_color_code, severity_markup, severity_markup_of, markup_name, color_to_markup,
    lemma_ansi_code_params,
};
use crate::pattern::{
    format_pattern_lines, pattern_lines, opt_view, lemma_pattern_lines_no_esc, lemma_pattern_lines_shows,
};

verus! {

/// A denial message box to display when a command is blocked.
#[derive(Clone, Debug)]
pub struct DenialBox {
    /// The blocked command.
    pub command: String,
    /// Span within the command that matched.
    pub span: HighlightSpan,
    /// Pattern identifier (e.g., "`core.git:reset-hard`" or "`core.git.reset_hard`").
    pub pattern_id: String,
    /// Optional raw regex pattern for rich pattern displays.
    pub pattern_regex: Option<String>,
    /// Severity level of the match.
    pub severity: Severity,
    /// Optional explanation of why this command is blocked.
    pub explanation: Option<String>,
    /// Suggested safe alternatives.
    pub alternatives: Vec<String>,
    /// Optional allow-once code.
    pub allow_once_code: Option<String>,
    /// Git branch name.
    pub branch_name: Option<String>,
    /// Whether the branch is protected (adds extra caution note).
    pub is_protected_branch: bool,
}

/// `s` trimmed, or nothing when only whitespace remains.
pub open spec fn trimmed_opt(s: Seq<char>) -> Option<Seq<char>> {
    if trim(s).len() == 0 {
        None
    } else {
        Some(trim(s))
    }
}

fn trimmed_opt_exec(s: &str) -> (r: Option<String>)
    ensures
        opt_view(r) == trimmed_opt(s@),
{
    let t = trim_chars(s);
    if t.len() == 0 {
        None
    } else {
        Some(string_of(&t))
    }
}

impl DenialBox {
    /// Create a new denial box.
    pub fn new(command: &str, span: HighlightSpan, pattern_id: &str, severity: Severity) -> (r:
        Self)
        ensures
            r.command@ == command@,
            r.span == span,
            r.pattern_id@ == pattern_id@,
            r.pattern_regex is None,
            r.severity == severity,
            r.explanation is None,
            r.alternatives@.len() == 0,
            r.allow_once_code is None,
            r.branch_name is None,
            !r.is_protected_branch,
    {
        DenialBox {
            command: owned(command),
            span,
            pattern_id: owned(pattern_id),
            pattern_regex: None,
            severity,
            explanation: None,
            alternatives: Vec::new(),
            allow_once_code: None,
            branch_name: None,
            is_protected_branch: false,
        }
    }

    /// Add the raw regex pattern that matched: trimmed, and left out when
    /// only whitespace.
    pub fn with_pattern_regex(self, pattern_regex: &str) -> (r: Self)
        ensures
            opt_view(r.pattern_regex) == trimmed_opt(pattern_regex@),
            r == (DenialBox { pattern_regex: r.pattern_regex, ..self }),
    {
        DenialBox { pattern_regex: trimmed_opt_exec(pattern_regex), ..self }
    }

    /// Add an explanation: trimmed, and left out when only whitespace.
    pub fn with_explanation(self, explanation: &str) -> (r: Self)
        ensures
            opt_view(r.explanation) == trimmed_opt(explanation@),
            r == (DenialBox { explanation: r.explanation, ..self }),
    {
        DenialBox { explanation: trimmed_opt_exec(explanation), ..self }
    }

    /// Add safe alternatives.
    pub fn with_alternatives(self, alternatives: Vec<String>) -> (r: Self)
        ensures
            r == (DenialBox { alternatives, ..self }),
    {
        DenialBox { alternatives, ..self }
    }

    /// Add allow-once code.
    pub fn with_allow_once_code(self, code: &str) -> (r: Self)
        ensures
            opt_view(r.allow_once_code) == Some(code@),
            r == (DenialBox { allow_once_code: r.allow_once_code, ..self }),
    {
        DenialBox { allow_once_code: Some(owned(code)), ..self }
    }

    /// Add git branch context.
    pub fn with_branch_context(self, branch_name: &str, is_protected: bool) -> (r: Self)
        ensures
            opt_view(r.branch_name) == Some(branch_name@),
            r.is_protected_branch == is_protected,
            r == (DenialBox {
                branch_name: r.branch_name,
                is_protected_branch: is_protected,
                ..self
            }),
    {
        DenialBox { branch_name: Some(owned(branch_name)), is_protected_branch: is_protected, ..self }
    }
}

// ---------------------------------------------------------------------------
// Lines
// ---------------------------------------------------------------------------

/// The lines, each followed by a newline.
pub open spec fn join_lines(ls: Seq<Seq<char>>) -> Seq<char>
    decreases ls.len(),
{
    if ls.len() == 0 {
        Seq::empty()
    } else {
        join_lines(ls.drop_last()) + ls.last() + "\n"@
    }
}

/// Each line with `pre` in front of it.
pub open spec fn prefixed(pre: Seq<char>, ls: Seq<Seq<char>>) -> Seq<Seq<char>> {
    ls.map_values(|l: Seq<char>| pre + l)
}

/// `l` between `a` and `c`: `b` right after it, then the spaces that fill it
/// to `pw` visible characters.
pub open spec fn framed(a: Seq<char>, l: Seq<char>, b: Seq<char>, pw: nat, c: Seq<char>) -> Seq<
    char,
> {
    a + l + b + padding(l, pw) + c
}

/// Each line framed between `a` and `c` (see `framed`).
pub open spec fn framed_all(
    a: Seq<char>,
    ls: Seq<Seq<char>>,
    b: Seq<char>,
    pw: nat,
    c: Seq<char>,
) -> Seq<Seq<char>> {
    ls.map_values(|l: Seq<char>| framed(a, l, b, pw, c))
}

fn join_lines_exec(ls: &Vec<String>) -> (r: String)
    ensures
        r@ == join_lines(views(ls@)),
{
    let mut r = String::new();
    let mut i: usize = 0;
    while i < ls.len()
        invariant
            i <= ls.len(),
            r@ == join_lines(views(ls@).take(i as int)),
        decreases ls.len() - i,
    {
        r.append(ls[i].as_str());
        r.append("\n");
        i = i + 1;
        assert(views(ls@).take(i as int).drop_last() =~= views(ls@).take(i - 1));
    }
    assert(views(ls@).take(ls.len() as int) =~= views(ls@));
    r
}

fn push_line(lines: &mut Vec<String>, s: String)
    ensures
        views(final(lines)@) == views(old(lines)@).push(s@),
{
    lines.push(s);
    assert(views(lines@) =~= views(old(lines)@).push(s@));
}

fn push_blank(lines: &mut Vec<String>)
    ensures
        views(final(lines)@) == views(old(lines)@).push(Seq::empty()),
{
    push_line(lines, String::new());
}

fn push_str_line(lines: &mut Vec<String>, s: &str)
    ensures
        views(final(lines)@) == views(old(lines)@).push(s@),
{
    push_line(lines, owned(s));
}

fn push_prefixed(lines: &mut Vec<String>, pre: &str, src: &Vec<String>)
    ensures
        views(final(lines)@) == views(old(lines)@) + prefixed(pre@, views(src@)),
{
    let mut i: usize = 0;
    while i < src.len()
        invariant
            i <= src.len(),
            views(lines@) == views(old(lines)@) + prefixed(pre@, views(src@)).take(i as int),
        decreases src.len() - i,
    {
        push_line(lines, cat(pre, src[i].as_str()));
        i = i + 1;
        assert(views(lines@) =~= views(old(lines)@) + prefixed(pre@, views(src@)).take(i as int));
    }
    assert(prefixed(pre@, views(src@)).take(src.len() as int) =~= prefixed(pre@, views(src@)));
}

fn framed_line(a: &str, l: &str, b: &str, pw: usize, c: &str) -> (r: String)
    ensures
        r@ == framed(a@, l@, b@, pw as nat, c@),
{
    let pad = padding_for(l, pw);
    cat5(a, l, b, pad.as_str(), c)
}

fn push_framed(lines: &mut Vec<String>, a: &str, src: &Vec<String>, b: &str, pw: usize, c: &str)
    ensures
        views(final(lines)@) == views(old(lines)@) + framed_all(a@, views(src@), b@, pw as nat, c@),
{
    let mut i: usize = 0;
    while i < src.len()
        invariant
            i <= src.len(),
            views(lines@) == views(old(lines)@) + framed_all(a@, views(src@), b@, pw as nat, c@).take(
                i as int,
            ),
        decreases src.len() - i,
    {
        push_line(lines, framed_line(a, src[i].as_str(), b, pw, c));
        i = i + 1;
        assert(views(lines@) =~= views(old(lines)@) + framed_all(
            a@,
            views(src@),
            b@,
            pw as nat,
            c@,
        ).take(i as int));
    }
    assert(framed_all(a@, views(src@), b@, pw as nat, c@).take(src.len() as int) =~= framed_all(
        a@,
        views(src@),
        b@,
        pw as nat,
        c@,
    ));
}

// ---------------------------------------------------------------------------
// Shared pieces
// ---------------------------------------------------------------------------

/// The width of the boxes drawn for a terminal `tw` columns wide: four
/// columns less, and never under forty.
pub open spec fn box_width(tw: u16) -> nat {
    let w = sat_sub(tw as int, 4);
    if w >= 40 {
        w
    } else {
        40
    }
}

fn box_width_exec(tw: u16) -> (w: usize)
    ensures
        w == box_width(tw),
{
    let w = tw.saturating_sub(4);
    let w = if w >= 40 {
        w
    } else {
        40
    };
    w as usize
}

/// The title of a denial: it names the branch, and whether it is protected,
/// when a branch is known.
pub open spec fn blocked_title(branch: Option<Seq<char>>, protected: bool) -> Seq<char> {
    match branch {
        Some(b) => if protected {
            "BLOCKED (Protected Branch: "@ + b + ")"@
        } else {
            "BLOCKED (Branch: "@ + b + ")"@
        },
        None => "BLOCKED: Destructive Command Detected"@,
    }
}

fn blocked_title_exec(branch: &Option<String>, protected: bool) -> (r: String)
    ensures
        r@ == blocked_title(opt_view(*branch), protected),
{
    match branch {
        Some(b) => if protected {
            cat3("BLOCKED (Protected Branch: ", b.as_str(), ")")
        } else {
            cat3("BLOCKED (Branch: ", b.as_str(), ")")
        },
        None => owned("BLOCKED: Destructive Command Detected"),
    }
}

/// The explanation of `b`, if any, as it is shown in lines `width` wide.
pub open spec fn explanation_text_lines(b: DenialBox, use_color: bool, width: nat) -> Seq<
    Seq<char>,
> {
    match opt_view(b.explanation) {
        Some(e) => wrap(markdown_text(e, use_color), width),
        None => Seq::empty(),
    }
}

/// The explanation of `b`, if it has one, can be wrapped to `width`.
pub open spec fn explanation_wraps(b: DenialBox, use_color: bool, width: nat) -> bool {
    match opt_view(b.explanation) {
        Some(e) => wrap_defined(markdown_text(e, use_color), width),
        None => true,
    }
}

/// The lines of an explanation: its markdown rendered, then wrapped.
pub fn explanation_lines(explanation: &str, use_color: bool, width: usize) -> (r: Vec<String>)
    requires
        wrap_defined(markdown_text(explanation@, use_color), width as nat),
    ensures
        views(r@) == wrap(markdown_text(explanation@, use_color), width as nat),
{
    let rendered = format_markdown_explanation(explanation, use_color);
    wrap_text(rendered.as_str(), width)
}

impl DenialBox {
    /// Whether the explanation can be wrapped to `width` (see `explanation_wraps`).
    pub fn explanation_wraps_to(&self, use_color: bool, width: usize) -> (r: bool)
        ensures
            r == explanation_wraps(*self, use_color, width as nat),
    {
        match &self.explanation {
            Some(e) => {
                let rendered = format_markdown_explanation(e.as_str(), use_color);
                wrap_text_defined(rendered.as_str(), width)
            },
            None => true,
        }
    }
}

// ---------------------------------------------------------------------------
// Plain text
// ---------------------------------------------------------------------------

/// The caution lines shown for a protected branch.
pub open spec fn plain_caution(b: DenialBox) -> Seq<Seq<char>> {
    if b.is_protected_branch {
        seq!["  !! Extra caution on protected branches."@, Seq::empty()]
    } else {
        Seq::empty()
    }
}

/// The label of the span, as a line of its own when there is one.
pub open spec fn span_label_lines(b: DenialBox) -> Seq<Seq<char>> {
    match opt_view(b.span.label) {
        Some(l) => seq![l],
        None => Seq::empty(),
    }
}

/// The command lines of the plain-text denial.
pub open spec fn plain_command(b: DenialBox, tw: u16) -> Seq<Seq<char>> {
    let (cl, cr) = highlighted(b.command@, b.span.start, b.span.end, false, tw as nat);
    seq!["  Command: "@ + cl, "           "@ + cr] + prefixed("           "@, span_label_lines(b)) + seq![
        Seq::empty(),
    ]
}

/// The explanation lines of the plain-text denial.
pub open spec fn plain_explanation(b: DenialBox, tw: u16) -> Seq<Seq<char>> {
    if b.explanation is Some {
        seq![Seq::empty(), "  Explanation:"@] + prefixed(
            "  "@,
            explanation_text_lines(b, false, sat_sub(box_width(tw) as int, 2)),
        )
    } else {
        Seq::empty()
    }
}

/// The pattern lines of a denial with the given severity label and colors.
pub open spec fn denial_pattern_lines(b: DenialBox, label: Seq<char>, use_color: bool) -> Seq<
    Seq<char>,
> {
    pattern_lines(b.pattern_id@, label, opt_view(b.pattern_regex), use_color)
}

/// The alternatives of the plain-text denial.
pub open spec fn plain_alternatives(b: DenialBox) -> Seq<Seq<char>> {
    if b.alternatives@.len() > 0 {
        seq![Seq::empty(), "  Safe alternatives:"@] + prefixed("    - "@, views(b.alternatives@))
    } else {
        Seq::empty()
    }
}

/// The lines of the plain-text denial for a terminal `tw` columns wide: the
/// title, the caution for a protected branch, the command with carets under
/// the span, the explanation, the pattern, and the alternatives.
pub open spec fn plain_lines(b: DenialBox, tw: u16) -> Seq<Seq<char>> {
    seq![blocked_title(opt_view(b.branch_name), b.is_protected_branch), Seq::empty()]
        + plain_caution(b) + plain_command(b, tw) + plain_explanation(b, tw) + seq![Seq::empty()]
        + prefixed("  "@, denial_pattern_lines(b, severity_name(b.severity), false))
        + plain_alternatives(b)
}

/// The plain-text denial for a terminal `tw` columns wide.
pub open spec fn plain_text(b: DenialBox, tw: u16) -> Seq<char> {
    join_lines(plain_lines(b, tw))
}

fn opt_str(o: &Option<String>) -> (r: Option<&str>)
    ensures
        match r {
            Some(s) => opt_view(*o) == Some(s@),
            None => o is None,
        },
{
    match o {
        Some(s) => Some(s.as_str()),
        None => None,
    }
}

impl DenialBox {
    /// Render a plain text version for non-TTY contexts, for a terminal
    /// `term_width` columns wide.
    #[verifier::rlimit(30)]
    pub fn render_plain(&self, term_width: u16) -> (r: String)
        requires
            explanation_wraps(*self, false, sat_sub(box_width(term_width) as int, 2)),
        ensures
            r@ == plain_text(*self, term_width),
            escape_free(*self) ==> !r@.contains(esc()),
    {
        let width = box_width_exec(term_width);
        let severity_label = severity_name_str(self.severity);
        let pattern_lines = format_pattern_lines(
            self.pattern_id.as_str(),
            severity_label,
            opt_str(&self.pattern_regex),
            false,
        );
        let mut lines: Vec<String> = Vec::new();
        push_line(&mut lines, blocked_title_exec(&self.branch_name, self.is_protected_branch));
        push_blank(&mut lines);
        if self.is_protected_branch {
            push_str_line(&mut lines, "  !! Extra caution on protected branches.");
            push_blank(&mut lines);
        }
        let ghost s1 = views(lines@);
        assert(s1 =~= seq![blocked_title(opt_view(self.branch_name), self.is_protected_branch), Seq::empty()]
            + plain_caution(*self));
        let highlighted = format_highlighted_command(
            self.command.as_str(),
            &self.span,
            false,
            term_width as usize,
        );
        push_line(&mut lines, cat("  Command: ", highlighted.command_line.as_str()));
        push_line(&mut lines, cat("           ", highlighted.caret_line.as_str()));
        match &highlighted.label_line {
            Some(label) => push_line(&mut lines, cat("           ", label.as_str())),
            None => {},
        }
        push_blank(&mut lines);
        let ghost s2 = views(lines@);
        assert(s2 =~= s1 + plain_command(*self, term_width));
        match &self.explanation {
            Some(explanation) => {
                push_blank(&mut lines);
                push_str_line(&mut lines, "  Explanation:");
                let ex = explanation_lines(explanation.as_str(), false, width.saturating_sub(2));
                push_prefixed(&mut lines, "  ", &ex);
            },
            None => {},
        }
        let ghost s3 = views(lines@);
        assert(s3 =~= s2 + plain_explanation(*self, term_width));
        push_blank(&mut lines);
        push_prefixed(&mut lines, "  ", &pattern_lines);
        let ghost s4 = views(lines@);
        assert(s4 =~= s3 + seq![Seq::empty()] + prefixed(
            "  "@,
            denial_pattern_lines(*self, severity_name(self.severity), false),
        ));
        if self.alternatives.len() > 0 {
            push_blank(&mut lines);
            push_str_line(&mut lines, "  Safe alternatives:");
            push_prefixed(&mut lines, "    - ", &self.alternatives);
        }
        assert(views(lines@) =~= s4 + plain_alternatives(*self));
        assert(views(lines@) =~= plain_lines(*self, term_width));
        proof {
            if escape_free(*self) {
                law_plain_has_no_escapes(*self, term_width);
            }
        }
        join_lines_exec(&lines)
    }
}

// ---------------------------------------------------------------------------
// Boxes
// ---------------------------------------------------------------------------

/// Each line between `pre` and `post`.
pub open spec fn surrounded(pre: Seq<char>, ls: Seq<Seq<char>>, post: Seq<char>) -> Seq<Seq<char>> {
    ls.map_values(|l: Seq<char>| pre + l + post)
}

fn push_surrounded(lines: &mut Vec<String>, pre: &str, src: &Vec<String>, post: &str)
    ensures
        views(final(lines)@) == views(old(lines)@) + surrounded(pre@, views(src@), post@),
{
    let mut i: usize = 0;
    while i < src.len()
        invariant
            i <= src.len(),
            views(lines@) == views(old(lines)@) + surrounded(pre@, views(src@), post@).take(i as int),
        decreases src.len() - i,
    {
        push_line(lines, cat3(pre, src[i].as_str(), post));
        i = i + 1;
        assert(views(lines@) =~= views(old(lines)@) + surrounded(pre@, views(src@), post@).take(
            i as int,
        ));
    }
    assert(surrounded(pre@, views(src@), post@).take(src.len() as int) =~= surrounded(
        pre@,
        views(src@),
        post@,
    ));
}

/// The command line, the caret line and the label line of the span.
pub open spec fn command_block(b: DenialBox, use_color: bool, width: nat) -> Seq<Seq<char>> {
    let (cl, cr) = highlighted(b.command@, b.span.start, b.span.end, use_color, width);
    seq![cl, cr] + span_label_lines(b)
}

fn command_block_exec(b: &DenialBox, use_color: bool, width: usize) -> (r: Vec<String>)
    ensures
        views(r@) == command_block(*b, use_color, width as nat),
{
    let h = format_highlighted_command(b.command.as_str(), &b.span, use_color, width);
    let mut r: Vec<String> = Vec::new();
    push_line(&mut r, h.command_line);
    push_line(&mut r, h.caret_line);
    match h.label_line {
        Some(label) => push_line(&mut r, label),
        None => {},
    }
    assert(views(r@) =~= command_block(*b, use_color, width as nat));
    r
}

fn explanation_block_exec(b: &DenialBox, use_color: bool, width: usize) -> (r: Vec<String>)
    requires
        explanation_wraps(*b, use_color, width as nat),
    ensures
        views(r@) == explanation_text_lines(*b, use_color, width as nat),
{
    match &b.explanation {
        Some(e) => explanation_lines(e.as_str(), use_color, width),
        None => Vec::new(),
    }
}

fn bulleted(bullet: &str, alts: &Vec<String>) -> (r: Vec<String>)
    ensures
        views(r@) == prefixed(bullet@, views(alts@)),
{
    let mut r: Vec<String> = Vec::new();
    push_prefixed(&mut r, bullet, alts);
    assert(views(r@) =~= prefixed(bullet@, views(alts@)));
    r
}

/// The number of characters of `s`.
fn char_count(s: &str) -> (n: usize)
    ensures
        n == s@.len(),
{
    crate::text::chars_of(s).len()
}

// Unicode ---------------------------------------------------------------------

/// The vertical bar of a Unicode box, in the severity color `sev`.
pub open spec fn uni_bar(sev: Seq<char>) -> Seq<char> {
    "\x1b["@ + sev + "m\u{2502}\x1b[0m"@
}

/// A horizontal rule of a Unicode box between the corners `l` and `r`.
pub open spec fn uni_rule(sev: Seq<char>, w: nat, l: Seq<char>, r: Seq<char>) -> Seq<char> {
    "\x1b["@ + sev + "m"@ + l + repeat('\u{2500}', w) + r + "\x1b[0m"@
}

/// An empty line of a Unicode box.
pub open spec fn uni_blank(sev: Seq<char>, w: nat) -> Seq<char> {
    uni_bar(sev) + repeat(' ', sat_sub(w as int, 2)) + "  "@ + uni_bar(sev)
}

/// The header inside a Unicode box.
pub open spec fn uni_header(b: DenialBox) -> Seq<char> {
    " \u{26d4}  "@ + blocked_title(opt_view(b.branch_name), b.is_protected_branch) + " "@
}

/// The caution lines of a Unicode box for a protected branch.
pub open spec fn uni_caution(b: DenialBox, sev: Seq<char>, w: nat) -> Seq<Seq<char>> {
    if b.is_protected_branch {
        seq![
            framed(
                uni_bar(sev) + "  \x1b[1;"@ + sev + "m"@,
                "\u{26a0}  Extra caution on protected branches."@,
                "\x1b[0m"@,
                sat_sub(w as int, 4),
                "  "@ + uni_bar(sev),
            ),
            uni_blank(sev, w),
        ]
    } else {
        Seq::empty()
    }
}

/// The explanation of a Unicode box.
pub open spec fn uni_explanation(b: DenialBox, t: Theme, sev: Seq<char>, w: nat) -> Seq<Seq<char>> {
    let inner = sat_sub(w as int, 4);
    if b.explanation is Some {
        seq![
            uni_blank(sev, w),
            framed(
                uni_bar(sev) + "  "@,
                "\x1b[1;"@ + sev + "mExplanation:\x1b[0m"@,
                ""@,
                inner,
                "  "@ + uni_bar(sev),
            ),
        ] + framed_all(
            uni_bar(sev) + "  "@,
            explanation_text_lines(b, t.colors_enabled, inner),
            ""@,
            inner,
            "  "@ + uni_bar(sev),
        )
    } else {
        Seq::empty()
    }
}

/// The alternatives of a Unicode box.
pub open spec fn uni_alternatives(b: DenialBox, sev: Seq<char>, succ: Seq<char>, w: nat) -> Seq<
    Seq<char>,
> {
    if b.alternatives@.len() > 0 {
        seq![
            uni_blank(sev, w),
            framed(
                uni_bar(sev) + "  \x1b["@ + succ + "m"@,
                "Safe alternatives:"@,
                "\x1b[0m"@,
                sat_sub(w as int, 4),
                "  "@ + uni_bar(sev),
            ),
        ] + framed_all(
            uni_bar(sev) + "    \x1b["@ + succ + "m"@,
            prefixed("\u{2022} "@, views(b.alternatives@)),
            "\x1b[0m"@,
            sat_sub(w as int, 6),
            "  "@ + uni_bar(sev),
        )
    } else {
        Seq::empty()
    }
}

/// The top of a Unicode box: the top rule, the header, the rule under it.
pub open spec fn uni_top(b: DenialBox, sev: Seq<char>, w: nat) -> Seq<Seq<char>> {
    let header = uni_header(b);
    seq![
        uni_rule(sev, w, "\u{256d}"@, "\u{256e}"@),
        uni_bar(sev) + "\x1b[1;"@ + sev + "m"@ + header + "\x1b[0m"@ + repeat(
            ' ',
            sat_sub(w as int, header.len() as int),
        ) + uni_bar(sev),
        uni_rule(sev, w, "\u{251c}"@, "\u{2524}"@),
    ]
}

/// The command block of a Unicode box, and the empty line after it.
pub open spec fn uni_command(b: DenialBox, t: Theme, sev: Seq<char>, w: nat) -> Seq<Seq<char>> {
    let inner = sat_sub(w as int, 4);
    framed_all(
        uni_bar(sev) + "  "@,
        command_block(b, t.colors_enabled, inner),
        ""@,
        inner,
        "  "@ + uni_bar(sev),
    ) + seq![uni_blank(sev, w)]
}

/// The pattern block of a Unicode box, after an empty line.
pub open spec fn uni_pattern(b: DenialBox, t: Theme, sev: Seq<char>, w: nat) -> Seq<Seq<char>> {
    seq![uni_blank(sev, w)] + framed_all(
        uni_bar(sev) + "  \x1b[2m"@,
        denial_pattern_lines(b, severity_name(b.severity), t.colors_enabled),
        "\x1b[0m"@,
        sat_sub(w as int, 4),
        "  "@ + uni_bar(sev),
    )
}

/// The lines of the denial in a Unicode box, colored by severity.
pub open spec fn unicode_lines(b: DenialBox, t: Theme, tw: u16) -> Seq<Seq<char>> {
    let w = box_width(tw);
    let sev = ansi_code(t.severity_color(b.severity));
    let succ = ansi_code(t.success_color);
    uni_top(b, sev, w) + uni_caution(b, sev, w) + uni_command(b, t, sev, w) + uni_explanation(
        b,
        t,
        sev,
        w,
    ) + uni_pattern(b, t, sev, w) + uni_alternatives(b, sev, succ, w) + seq![
        uni_rule(sev, w, "\u{2570}"@, "\u{256f}"@),
    ]
}

fn uni_rule_exec(sev: &str, w: usize, l: &str, r: &str) -> (s: String)
    ensures
        s@ == uni_rule(sev@, w as nat, l@, r@),
{
    let rule = repeat_char('\u{2500}', w);
    let head = cat4("\x1b[", sev, "m", l);
    cat4(head.as_str(), rule.as_str(), r, "\x1b[0m")
}

fn uni_bar_exec(sev: &str) -> (s: String)
    ensures
        s@ == uni_bar(sev@),
{
    cat3("\x1b[", sev, "m\u{2502}\x1b[0m")
}

fn uni_blank_exec(sev: &str, w: usize) -> (s: String)
    ensures
        s@ == uni_blank(sev@, w as nat),
{
    let bar = uni_bar_exec(sev);
    let spaces = repeat_char(' ', w.saturating_sub(2));
    cat4(bar.as_str(), spaces.as_str(), "  ", bar.as_str())
}

fn push_uni_top(lines: &mut Vec<String>, b: &DenialBox, sev: &str, w: usize)
    ensures
        views(final(lines)@) == views(old(lines)@) + uni_top(*b, sev@, w as nat) + uni_caution(
            *b,
            sev@,
            w as nat,
        ),
{
    let bar = uni_bar_exec(sev);
    let title = blocked_title_exec(&b.branch_name, b.is_protected_branch);
    let header = cat3(" \u{26d4}  ", title.as_str(), " ");
    let top_pad = repeat_char(' ', w.saturating_sub(char_count(header.as_str())));
    push_line(lines, uni_rule_exec(sev, w, "\u{256d}", "\u{256e}"));
    let h1 = cat4(bar.as_str(), "\x1b[1;", sev, "m");
    let h2 = cat5(h1.as_str(), header.as_str(), "\x1b[0m", top_pad.as_str(), bar.as_str());
    push_line(lines, h2);
    push_line(lines, uni_rule_exec(sev, w, "\u{251c}", "\u{2524}"));
    let ghost s1 = views(lines@);
    assert(s1 =~= views(old(lines)@) + uni_top(*b, sev@, w as nat));
    if b.is_protected_branch {
        let lead = cat4(bar.as_str(), "  \x1b[1;", sev, "m");
        let right = cat("  ", bar.as_str());
        push_line(
            lines,
            framed_line(
                lead.as_str(),
                "\u{26a0}  Extra caution on protected branches.",
                "\x1b[0m",
                w.saturating_sub(4),
                right.as_str(),
            ),
        );
        push_line(lines, uni_blank_exec(sev, w));
    }
    assert(views(lines@) =~= s1 + uni_caution(*b, sev@, w as nat));
}

fn push_uni_command(lines: &mut Vec<String>, b: &DenialBox, t: &Theme, sev: &str, w: usize)
    ensures
        views(final(lines)@) == views(old(lines)@) + uni_command(*b, *t, sev@, w as nat),
{
    let inner = w.saturating_sub(4);
    let bar = uni_bar_exec(sev);
    let left = cat(bar.as_str(), "  ");
    let right = cat("  ", bar.as_str());
    let cmd = command_block_exec(b, t.colors_enabled, inner);
    push_framed(lines, left.as_str(), &cmd, "", inner, right.as_str());
    push_line(lines, uni_blank_exec(sev, w));
    assert(views(lines@) =~= views(old(lines)@) + uni_command(*b, *t, sev@, w as nat));
}

fn push_uni_explanation(lines: &mut Vec<String>, b: &DenialBox, t: &Theme, sev: &str, w: usize)
    requires
        explanation_wraps(*b, t.colors_enabled, sat_sub(w as int, 4)),
    ensures
        views(final(lines)@) == views(old(lines)@) + uni_explanation(*b, *t, sev@, w as nat),
{
    if b.explanation.is_some() {
        let inner = w.saturating_sub(4);
        let bar = uni_bar_exec(sev);
        let left = cat(bar.as_str(), "  ");
        let right = cat("  ", bar.as_str());
        push_line(lines, uni_blank_exec(sev, w));
        let label = cat3("\x1b[1;", sev, "mExplanation:\x1b[0m");
        push_line(lines, framed_line(left.as_str(), label.as_str(), "", inner, right.as_str()));
        let ex = explanation_block_exec(b, t.colors_enabled, inner);
        push_framed(lines, left.as_str(), &ex, "", inner, right.as_str());
    }
    assert(views(lines@) =~= views(old(lines)@) + uni_explanation(*b, *t, sev@, w as nat));
}

fn push_uni_pattern(
    lines: &mut Vec<String>,
    b: &DenialBox,
    t: &Theme,
    sev: &str,
    w: usize,
    pattern_lines: &Vec<String>,
)
    requires
        views(pattern_lines@) == denial_pattern_lines(*b, severity_name(b.severity), t.colors_enabled),
    ensures
        views(final(lines)@) == views(old(lines)@) + uni_pattern(*b, *t, sev@, w as nat),
{
    let bar = uni_bar_exec(sev);
    let right = cat("  ", bar.as_str());
    push_line(lines, uni_blank_exec(sev, w));
    let dim_left = cat(bar.as_str(), "  \x1b[2m");
    push_framed(lines, dim_left.as_str(), pattern_lines, "\x1b[0m", w.saturating_sub(4), right.as_str());
    assert(views(lines@) =~= views(old(lines)@) + uni_pattern(*b, *t, sev@, w as nat));
}

fn push_uni_alternatives(lines: &mut Vec<String>, b: &DenialBox, sev: &str, succ: &str, w: usize)
    ensures
        views(final(lines)@) == views(old(lines)@) + uni_alternatives(*b, sev@, succ@, w as nat),
{
    if b.alternatives.len() > 0 {
        let bar = uni_bar_exec(sev);
        let right = cat("  ", bar.as_str());
        push_line(lines, uni_blank_exec(sev, w));
        let lead = cat4(bar.as_str(), "  \x1b[", succ, "m");
        push_line(
            lines,
            framed_line(lead.as_str(), "Safe alternatives:", "\x1b[0m", w.saturating_sub(4), right.as_str()),
        );
        let bullets = bulleted("\u{2022} ", &b.alternatives);
        let alt_lead = cat4(bar.as_str(), "    \x1b[", succ, "m");
        push_framed(lines, alt_lead.as_str(), &bullets, "\x1b[0m", w.saturating_sub(6), right.as_str());
    }
    assert(views(lines@) =~= views(old(lines)@) + uni_alternatives(*b, sev@, succ@, w as nat));
}

impl DenialBox {
    /// Render with Unicode box-drawing characters.
    pub fn render_unicode(&self, theme: &Theme, term_width: u16) -> (r: String)
        requires
            explanation_wraps(
                *self,
                theme.colors_enabled,
                sat_sub(box_width(term_width) as int, 4),
            ),
        ensures
            r@ == join_lines(unicode_lines(*self, *theme, term_width)),
    {
        let width = box_width_exec(term_width);
        let severity_code = severity_color_code(theme, self.severity);
        let success_code = ansi_color_code(theme.success_color);
        let pattern_lines = format_pattern_lines(
            self.pattern_id.as_str(),
            theme.severity_label(self.severity),
            opt_str(&self.pattern_regex),
            theme.colors_enabled,
        );
        let mut lines: Vec<String> = Vec::new();
        push_uni_top(&mut lines, self, severity_code.as_str(), width);
        push_uni_command(&mut lines, self, theme, severity_code.as_str(), width);
        push_uni_explanation(&mut lines, self, theme, severity_code.as_str(), width);
        push_uni_pattern(&mut lines, self, theme, severity_code.as_str(), width, &pattern_lines);
        push_uni_alternatives(
            &mut lines,
            self,
            severity_code.as_str(),
            success_code.as_str(),
            width,
        );
        push_line(&mut lines, uni_rule_exec(severity_code.as_str(), width, "\u{2570}", "\u{256f}"));
        assert(views(lines@) =~= unicode_lines(*self, *theme, term_width));
        join_lines_exec(&lines)
    }
}

// ASCII -------------------------------------------------------------------------

/// A horizontal rule of an ASCII box.
pub open spec fn ascii_rule(w: nat) -> Seq<char> {
    "+"@ + repeat('-', w) + "+"@
}

/// An empty line of an ASCII box.
pub open spec fn ascii_blank(w: nat) -> Seq<char> {
    "|"@ + repeat(' ', sat_sub(w as int, 2)) + "  |"@
}

/// The header inside an ASCII box.
pub open spec fn ascii_header(b: DenialBox) -> Seq<char> {
    " !  "@ + blocked_title(opt_view(b.branch_name), b.is_protected_branch) + " "@
}

/// Lines framed by the sides of an ASCII box.
pub open spec fn ascii_framed(ls: Seq<Seq<char>>, w: nat) -> Seq<Seq<char>> {
    framed_all("|  "@, ls, ""@, sat_sub(w as int, 4), "  |"@)
}

/// The top of an ASCII box, with the caution for a protected branch.
pub open spec fn ascii_top(b: DenialBox, w: nat) -> Seq<Seq<char>> {
    let header = ascii_header(b);
    seq![
        ascii_rule(w),
        "|"@ + header + repeat(' ', sat_sub(w as int, header.len() as int)) + "|"@,
        ascii_rule(w),
    ] + if b.is_protected_branch {
        ascii_framed(seq!["!!  Extra caution on protected branches."@], w) + seq![ascii_blank(w)]
    } else {
        Seq::empty()
    }
}

/// The command block of an ASCII box, and the empty line after it.
pub open spec fn ascii_command(b: DenialBox, t: Theme, w: nat) -> Seq<Seq<char>> {
    ascii_framed(command_block(b, t.colors_enabled, sat_sub(w as int, 4)), w) + seq![
        ascii_blank(w),
    ]
}

/// The explanation of an ASCII box.
pub open spec fn ascii_explanation(b: DenialBox, t: Theme, w: nat) -> Seq<Seq<char>> {
    if b.explanation is Some {
        seq![ascii_blank(w)] + ascii_framed(seq!["EXPLANATION:"@], w) + ascii_framed(
            explanation_text_lines(b, t.colors_enabled, sat_sub(w as int, 4)),
            w,
        )
    } else {
        Seq::empty()
    }
}

/// The pattern block of an ASCII box, after an empty line.
pub open spec fn ascii_pattern(b: DenialBox, t: Theme, w: nat) -> Seq<Seq<char>> {
    seq![ascii_blank(w)] + ascii_framed(denial_pattern_lines(b, severity_name(b.severity), false), w)
}

/// The alternatives of an ASCII box.
pub open spec fn ascii_alternatives(b: DenialBox, w: nat) -> Seq<Seq<char>> {
    if b.alternatives@.len() > 0 {
        seq![ascii_blank(w)] + ascii_framed(seq!["Safe alternatives:"@], w) + framed_all(
            "|    "@,
            prefixed("* "@, views(b.alternatives@)),
            ""@,
            sat_sub(w as int, 6),
            "  |"@,
        )
    } else {
        Seq::empty()
    }
}

/// The lines of the denial in an ASCII box.
pub open spec fn ascii_lines(b: DenialBox, t: Theme, tw: u16) -> Seq<Seq<char>> {
    let w = box_width(tw);
    ascii_top(b, w) + ascii_command(b, t, w) + ascii_explanation(b, t, w) + ascii_pattern(b, t, w)
        + ascii_alternatives(b, w) + seq![ascii_rule(w)]
}

fn ascii_rule_exec(w: usize) -> (s: String)
    ensures
        s@ == ascii_rule(w as nat),
{
    let rule = repeat_char('-', w);
    cat3("+", rule.as_str(), "+")
}

fn ascii_blank_exec(w: usize) -> (s: String)
    ensures
        s@ == ascii_blank(w as nat),
{
    let spaces = repeat_char(' ', w.saturating_sub(2));
    cat3("|", spaces.as_str(), "  |")
}

fn one_line(s: &str) -> (r: Vec<String>)
    ensures
        views(r@) == seq![s@],
{
    let mut r: Vec<String> = Vec::new();
    push_str_line(&mut r, s);
    r
}

fn push_ascii_framed(lines: &mut Vec<String>, src: &Vec<String>, w: usize)
    ensures
        views(final(lines)@) == views(old(lines)@) + ascii_framed(views(src@), w as nat),
{
    push_framed(lines, "|  ", src, "", w.saturating_sub(4), "  |");
}

fn push_ascii_top(lines: &mut Vec<String>, b: &DenialBox, w: usize)
    ensures
        views(final(lines)@) == views(old(lines)@) + ascii_top(*b, w as nat),
{
    let title = blocked_title_exec(&b.branch_name, b.is_protected_branch);
    let header = cat3(" !  ", title.as_str(), " ");
    let top_pad = repeat_char(' ', w.saturating_sub(char_count(header.as_str())));
    push_line(lines, ascii_rule_exec(w));
    push_line(lines, cat4("|", header.as_str(), top_pad.as_str(), "|"));
    push_line(lines, ascii_rule_exec(w));
    if b.is_protected_branch {
        push_ascii_framed(lines, &one_line("!!  Extra caution on protected branches."), w);
        push_line(lines, ascii_blank_exec(w));
    }
    assert(views(lines@) =~= views(old(lines)@) + ascii_top(*b, w as nat));
}

fn push_ascii_body(
    lines: &mut Vec<String>,
    b: &DenialBox,
    t: &Theme,
    w: usize,
    pattern_lines: &Vec<String>,
)
    requires
        explanation_wraps(*b, t.colors_enabled, sat_sub(w as int, 4)),
        views(pattern_lines@) == denial_pattern_lines(*b, severity_name(b.severity), false),
    ensures
        views(final(lines)@) == views(old(lines)@) + ascii_command(*b, *t, w as nat)
            + ascii_explanation(*b, *t, w as nat) + ascii_pattern(*b, *t, w as nat),
{
    let inner = w.saturating_sub(4);
    let cmd = command_block_exec(b, t.colors_enabled, inner);
    push_ascii_framed(lines, &cmd, w);
    push_line(lines, ascii_blank_exec(w));
    let ghost s1 = views(lines@);
    assert(s1 =~= views(old(lines)@) + ascii_command(*b, *t, w as nat));
    if b.explanation.is_some() {
        push_line(lines, ascii_blank_exec(w));
        push_ascii_framed(lines, &one_line("EXPLANATION:"), w);
        let ex = explanation_block_exec(b, t.colors_enabled, inner);
        push_ascii_framed(lines, &ex, w);
    }
    let ghost s2 = views(lines@);
    assert(s2 =~= s1 + ascii_explanation(*b, *t, w as nat));
    push_line(lines, ascii_blank_exec(w));
    push_ascii_framed(lines, pattern_lines, w);
    assert(views(lines@) =~= s2 + ascii_pattern(*b, *t, w as nat));
}

fn push_ascii_alternatives(lines: &mut Vec<String>, b: &DenialBox, w: usize)
    ensures
        views(final(lines)@) == views(old(lines)@) + ascii_alternatives(*b, w as nat),
{
    if b.alternatives.len() > 0 {
        push_line(lines, ascii_blank_exec(w));
        push_ascii_framed(lines, &one_line("Safe alternatives:"), w);
        let bullets = bulleted("* ", &b.alternatives);
        push_framed(lines, "|    ", &bullets, "", w.saturating_sub(6), "  |");
    }
    assert(views(lines@) =~= views(old(lines)@) + ascii_alternatives(*b, w as nat));
}

impl DenialBox {
    /// Render with ASCII box-drawing characters.
    pub fn render_ascii(&self, theme: &Theme, term_width: u16) -> (r: String)
        requires
            explanation_wraps(
                *self,
                theme.colors_enabled,
                sat_sub(box_width(term_width) as int, 4),
            ),
        ensures
            r@ == join_lines(ascii_lines(*self, *theme, term_width)),
    {
        let width = box_width_exec(term_width);
        let pattern_lines = format_pattern_lines(
            self.pattern_id.as_str(),
            theme.severity_label(self.severity),
            opt_str(&self.pattern_regex),
            false,
        );
        let mut lines: Vec<String> = Vec::new();
        push_ascii_top(&mut lines, self, width);
        push_ascii_body(&mut lines, self, theme, width, &pattern_lines);
        push_ascii_alternatives(&mut lines, self, width);
        push_line(&mut lines, ascii_rule_exec(width));
        assert(views(lines@) =~= ascii_lines(*self, *theme, term_width));
        join_lines_exec(&lines)
    }
}

// Minimal -----------------------------------------------------------------------

/// The head of a denial without a border: title and command.
pub open spec fn minimal_head(b: DenialBox, t: Theme, tw: u16) -> Seq<Seq<char>> {
    let sev = ansi_code(t.severity_color(b.severity));
    seq!["\x1b["@ + sev + "m\u{26d4}  BLOCKED\x1b[0m: Destructive Command Detected"@, Seq::empty()]
        + prefixed("  "@, command_block(b, t.colors_enabled, box_width(tw))) + seq![Seq::empty()]
}

/// The explanation of a denial without a border.
pub open spec fn minimal_explanation(b: DenialBox, t: Theme, tw: u16) -> Seq<Seq<char>> {
    let sev = ansi_code(t.severity_color(b.severity));
    if b.explanation is Some {
        seq![Seq::empty(), "  "@ + ("\x1b[1;"@ + sev + "mExplanation:\x1b[0m"@)] + prefixed(
            "  "@,
            explanation_text_lines(b, t.colors_enabled, sat_sub(box_width(tw) as int, 2)),
        )
    } else {
        Seq::empty()
    }
}

/// The pattern and the alternatives of a denial without a border.
pub open spec fn minimal_tail(b: DenialBox, t: Theme) -> Seq<Seq<char>> {
    let succ = ansi_code(t.success_color);
    seq![Seq::empty()] + surrounded(
        "  \x1b[2m"@,
        denial_pattern_lines(b, severity_name(b.severity), t.colors_enabled),
        "\x1b[0m"@,
    ) + if b.alternatives@.len() > 0 {
        seq![Seq::empty(), "  \x1b["@ + succ + "mSafe alternatives:\x1b[0m"@] + prefixed(
            "    \x1b["@ + succ + "m\u{2022}\x1b[0m "@,
            views(b.alternatives@),
        )
    } else {
        Seq::empty()
    }
}

/// The lines of the denial without a border.
pub open spec fn minimal_lines(b: DenialBox, t: Theme, tw: u16) -> Seq<Seq<char>> {
    minimal_head(b, t, tw) + minimal_explanation(b, t, tw) + minimal_tail(b, t)
}

fn push_minimal_head(lines: &mut Vec<String>, b: &DenialBox, t: &Theme, tw: u16)
    ensures
        views(final(lines)@) == views(old(lines)@) + minimal_head(*b, *t, tw),
{
    let severity_code = severity_color_code(t, b.severity);
    push_line(
        lines,
        cat3("\x1b[", severity_code.as_str(), "m\u{26d4}  BLOCKED\x1b[0m: Destructive Command Detected"),
    );
    push_blank(lines);
    let cmd = command_block_exec(b, t.colors_enabled, box_width_exec(tw));
    push_prefixed(lines, "  ", &cmd);
    push_blank(lines);
    assert(views(lines@) =~= views(old(lines)@) + minimal_head(*b, *t, tw));
}

fn push_minimal_explanation(lines: &mut Vec<String>, b: &DenialBox, t: &Theme, tw: u16)
    requires
        explanation_wraps(*b, t.colors_enabled, sat_sub(box_width(tw) as int, 2)),
    ensures
        views(final(lines)@) == views(old(lines)@) + minimal_explanation(*b, *t, tw),
{
    if b.explanation.is_some() {
        let severity_code = severity_color_code(t, b.severity);
        push_blank(lines);
        let label = cat3("\x1b[1;", severity_code.as_str(), "mExplanation:\x1b[0m");
        push_line(lines, cat("  ", label.as_str()));
        let ex = explanation_block_exec(b, t.colors_enabled, box_width_exec(tw).saturating_sub(2));
        push_prefixed(lines, "  ", &ex);
    }
    assert(views(lines@) =~= views(old(lines)@) + minimal_explanation(*b, *t, tw));
}

fn push_minimal_tail(lines: &mut Vec<String>, b: &DenialBox, t: &Theme, pattern_lines: &Vec<String>)
    requires
        views(pattern_lines@) == denial_pattern_lines(*b, severity_name(b.severity), t.colors_enabled),
    ensures
        views(final(lines)@) == views(old(lines)@) + minimal_tail(*b, *t),
{
    push_blank(lines);
    push_surrounded(lines, "  \x1b[2m", pattern_lines, "\x1b[0m");
    if b.alternatives.len() > 0 {
        let success_code = ansi_color_code(t.success_color);
        let succ = success_code.as_str();
        push_blank(lines);
        push_line(lines, cat3("  \x1b[", succ, "mSafe alternatives:\x1b[0m"));
        let bullet = cat3("    \x1b[", succ, "m\u{2022}\x1b[0m ");
        push_prefixed(lines, bullet.as_str(), &b.alternatives);
    }
    assert(views(lines@) =~= views(old(lines)@) + minimal_tail(*b, *t));
}

impl DenialBox {
    /// Render with no borders (minimal style).
    pub fn render_minimal(&self, theme: &Theme, term_width: u16) -> (r: String)
        requires
            explanation_wraps(
                *self,
                theme.colors_enabled,
                sat_sub(box_width(term_width) as int, 2),
            ),
        ensures
            r@ == join_lines(minimal_lines(*self, *theme, term_width)),
    {
        let pattern_lines = format_pattern_lines(
            self.pattern_id.as_str(),
            theme.severity_label(self.severity),
            opt_str(&self.pattern_regex),
            theme.colors_enabled,
        );
        let mut lines: Vec<String> = Vec::new();
        push_minimal_head(&mut lines, self, theme, term_width);
        push_minimal_explanation(&mut lines, self, theme, term_width);
        push_minimal_tail(&mut lines, self, theme, &pattern_lines);
        assert(views(lines@) =~= minimal_lines(*self, *theme, term_width));
        join_lines_exec(&lines)
    }
}

// ---------------------------------------------------------------------------
// Escape characters
// ---------------------------------------------------------------------------

/// None of the text that a denial shows holds an escape character.
pub open spec fn escape_free(b: DenialBox) -> bool {
    &&& no_esc(b.command@)
    &&& (opt_view(b.span.label) matches Some(l) ==> no_esc(l))
    &&& no_esc(b.pattern_id@)
    &&& (opt_view(b.pattern_regex) matches Some(r) ==> no_esc(r))
    &&& (opt_view(b.explanation) matches Some(e) ==> no_esc(e))
    &&& no_esc_lines(views(b.alternatives@))
    &&& (opt_view(b.branch_name) matches Some(n) ==> no_esc(n))
}

proof fn lemma_framed_all_no_esc(a: Seq<char>, ls: Seq<Seq<char>>, b: Seq<char>, pw: nat, c: Seq<char>)
    requires
        no_esc(a),
        no_esc_lines(ls),
        no_esc(b),
        no_esc(c),
    ensures
        no_esc_lines(framed_all(a, ls, b, pw, c)),
{
    broadcast use group_no_esc;

    assert forall|i: int| 0 <= i < framed_all(a, ls, b, pw, c).len() implies no_esc(
        #[trigger] framed_all(a, ls, b, pw, c)[i],
    ) by {
        assert(no_esc(ls[i]));
    }
}

proof fn lemma_prefixed_no_esc(pre: Seq<char>, ls: Seq<Seq<char>>)
    requires
        no_esc(pre),
        no_esc_lines(ls),
    ensures
        no_esc_lines(prefixed(pre, ls)),
{
    broadcast use group_no_esc;

    assert forall|i: int| 0 <= i < prefixed(pre, ls).len() implies no_esc(
        #[trigger] prefixed(pre, ls)[i],
    ) by {
        assert(no_esc(ls[i]));
    }
}

proof fn lemma_join_lines_no_esc(ls: Seq<Seq<char>>)
    requires
        no_esc_lines(ls),
    ensures
        no_esc(join_lines(ls)),
    decreases ls.len(),
{
    broadcast use group_no_esc;

    if ls.len() > 0 {
        assert(no_esc_lines(ls.drop_last())) by {
            assert forall|i: int| 0 <= i < ls.drop_last().len() implies no_esc(
                #[trigger] ls.drop_last()[i],
            ) by {
                assert(ls.drop_last()[i] == ls[i]);
            }
        }
        lemma_join_lines_no_esc(ls.drop_last());
        assert(no_esc(ls.last())) by {
            assert(ls.last() == ls[ls.len() - 1]);
        }
        reveal_strlit("\n");
    }
}

proof fn lemma_ascii_top_no_esc(b: DenialBox, w: nat)
    requires
        escape_free(b),
    ensures
        no_esc_lines(ascii_top(b, w)),
{
    broadcast use group_no_esc;

    reveal_strlit("+");
    reveal_strlit("|");
    reveal_strlit(" !  ");
    reveal_strlit(" ");
    reveal_strlit("BLOCKED (Protected Branch: ");
    reveal_strlit("BLOCKED (Branch: ");
    reveal_strlit(")");
    reveal_strlit("BLOCKED: Destructive Command Detected");
    reveal_strlit("!!  Extra caution on protected branches.");
    reveal_strlit("|  ");
    reveal_strlit("");
    reveal_strlit("  |");
    let caution = seq!["!!  Extra caution on protected branches."@];
    assert(no_esc_lines(caution)) by {
        assert(caution[0] == "!!  Extra caution on protected branches."@);
    }
    lemma_framed_all_no_esc("|  "@, caution, ""@, sat_sub(w as int, 4), "  |"@);
    let top = ascii_top(b, w);
    assert forall|i: int| 0 <= i < top.len() implies no_esc(#[trigger] top[i]) by {
        if i >= 3 {
            let rest = ascii_framed(caution, w) + seq![ascii_blank(w)];
            assert(top[i] == rest[i - 3]);
            if i - 3 == 0 {
                assert(rest[0] == ascii_framed(caution, w)[0]);
            }
        }
    }
}

proof fn lemma_ascii_body_no_esc(b: DenialBox, t: Theme, w: nat)
    requires
        escape_free(b),
        !t.colors_enabled,
    ensures
        no_esc_lines(ascii_command(b, t, w)),
        no_esc_lines(ascii_explanation(b, t, w)),
        no_esc_lines(ascii_pattern(b, t, w)),
        no_esc_lines(ascii_alternatives(b, w)),
{
    broadcast use group_no_esc;

    reveal_strlit("|");
    reveal_strlit("|  ");
    reveal_strlit("|    ");
    reveal_strlit("");
    reveal_strlit("  |");
    reveal_strlit("* ");
    reveal_strlit("EXPLANATION:");
    reveal_strlit("Safe alternatives:");
    reveal_strlit("CRITICAL");
    reveal_strlit("HIGH");
    reveal_strlit("MEDIUM");
    reveal_strlit("LOW");
    let inner = sat_sub(w as int, 4);
    lemma_highlight_no_esc(b.command@, b.span.start, b.span.end, inner);
    let cb = command_block(b, false, inner);
    assert(no_esc_lines(cb)) by {
        assert forall|i: int| 0 <= i < cb.len() implies no_esc(#[trigger] cb[i]) by {
            if i >= 2 {
                assert(cb[i] == span_label_lines(b)[i - 2]);
            }
        }
    }
    lemma_framed_all_no_esc("|  "@, cb, ""@, inner, "  |"@);
    assert(no_esc_lines(seq![ascii_blank(w)])) by {
        assert(seq![ascii_blank(w)][0] == ascii_blank(w));
    }
    let label = seq!["EXPLANATION:"@];
    assert(no_esc_lines(label)) by {
        assert(label[0] == "EXPLANATION:"@);
    }
    lemma_framed_all_no_esc("|  "@, label, ""@, inner, "  |"@);
    if b.explanation is Some {
        let e = opt_view(b.explanation)->0;
        lemma_markdown_no_esc(e, 0, false, false);
        lemma_wrap_no_esc(markdown_text(e, false), inner);
        lemma_framed_all_no_esc("|  "@, explanation_text_lines(b, false, inner), ""@, inner, "  |"@);
    }
    lemma_pattern_lines_no_esc(b.pattern_id@, severity_name(b.severity), opt_view(b.pattern_regex));
    lemma_framed_all_no_esc(
        "|  "@,
        denial_pattern_lines(b, severity_name(b.severity), false),
        ""@,
        inner,
        "  |"@,
    );
    let sa = seq!["Safe alternatives:"@];
    assert(no_esc_lines(sa)) by {
        assert(sa[0] == "Safe alternatives:"@);
    }
    lemma_framed_all_no_esc("|  "@, sa, ""@, inner, "  |"@);
    lemma_prefixed_no_esc("* "@, views(b.alternatives@));
    lemma_framed_all_no_esc(
        "|    "@,
        prefixed("* "@, views(b.alternatives@)),
        ""@,
        sat_sub(w as int, 6),
        "  |"@,
    );
}

/// An ASCII box drawn without colors holds no escape character when none of
/// the text it shows holds one.
pub proof fn law_ascii_without_colors_has_no_escapes(b: DenialBox, t: Theme, tw: u16)
    requires
        !t.colors_enabled,
        escape_free(b),
    ensures
        !join_lines(ascii_lines(b, t, tw)).contains(esc()),
{
    broadcast use group_no_esc;

    reveal_strlit("+");
    let w = box_width(tw);
    lemma_ascii_top_no_esc(b, w);
    lemma_ascii_body_no_esc(b, t, w);
    assert(no_esc_lines(seq![ascii_rule(w)])) by {
        assert(seq![ascii_rule(w)][0] == ascii_rule(w));
    }
    lemma_join_lines_no_esc(ascii_lines(b, t, tw));
}

proof fn lemma_two_no_esc(a: Seq<char>, b: Seq<char>)
    requires
        no_esc(a),
        no_esc(b),
    ensures
        no_esc_lines(seq![a]),
        no_esc_lines(seq![a, b]),
{
    assert(seq![a][0] == a);
    assert(seq![a, b][0] == a);
    assert(seq![a, b][1] == b);
}

/// The plain-text denial holds no escape character when none of the text it
/// shows holds one.
pub proof fn law_plain_has_no_escapes(b: DenialBox, tw: u16)
    requires
        escape_free(b),
    ensures
        !plain_text(b, tw).contains(esc()),
{
    broadcast use group_no_esc;

    reveal_strlit("");
    reveal_strlit("BLOCKED (Protected Branch: ");
    reveal_strlit("BLOCKED (Branch: ");
    reveal_strlit(")");
    reveal_strlit("BLOCKED: Destructive Command Detected");
    reveal_strlit("  !! Extra caution on protected branches.");
    reveal_strlit("  Command: ");
    reveal_strlit("           ");
    reveal_strlit("  Explanation:");
    reveal_strlit("  ");
    reveal_strlit("  Safe alternatives:");
    reveal_strlit("    - ");
    reveal_strlit("CRITICAL");
    reveal_strlit("HIGH");
    reveal_strlit("MEDIUM");
    reveal_strlit("LOW");
    let empty = Seq::<char>::empty();
    lemma_two_no_esc(blocked_title(opt_view(b.branch_name), b.is_protected_branch), empty);
    lemma_two_no_esc("  !! Extra caution on protected branches."@, empty);
    lemma_two_no_esc(empty, empty);
    let (cl, cr) = highlighted(b.command@, b.span.start, b.span.end, false, tw as nat);
    lemma_highlight_no_esc(b.command@, b.span.start, b.span.end, tw as nat);
    lemma_two_no_esc("  Command: "@ + cl, "           "@ + cr);
    assert(no_esc_lines(span_label_lines(b))) by {
        if b.span.label is Some {
            assert(span_label_lines(b)[0] == opt_view(b.span.label)->0);
        }
    }
    lemma_prefixed_no_esc("           "@, span_label_lines(b));
    assert(no_esc_lines(plain_command(b, tw)));
    lemma_two_no_esc(empty, "  Explanation:"@);
    let w = sat_sub(box_width(tw) as int, 2);
    if b.explanation is Some {
        let e = opt_view(b.explanation)->0;
        lemma_markdown_no_esc(e, 0, false, false);
        lemma_wrap_no_esc(markdown_text(e, false), w);
        lemma_prefixed_no_esc("  "@, explanation_text_lines(b, false, w));
    }
    assert(no_esc_lines(plain_explanation(b, tw)));
    lemma_pattern_lines_no_esc(b.pattern_id@, severity_name(b.severity), opt_view(b.pattern_regex));
    lemma_prefixed_no_esc("  "@, denial_pattern_lines(b, severity_name(b.severity), false));
    lemma_two_no_esc(empty, "  Safe alternatives:"@);
    lemma_prefixed_no_esc("    - "@, views(b.alternatives@));
    assert(no_esc_lines(plain_alternatives(b)));
    assert(no_esc_lines(plain_caution(b)));
    lemma_join_lines_no_esc(plain_lines(b, tw));
}

// ---------------------------------------------------------------------------
// The ASCII box is a rectangle
// ---------------------------------------------------------------------------

/// Every line of `ls` holds at most `w` characters.
pub open spec fn all_within(ls: Seq<Seq<char>>, w: nat) -> bool {
    forall|i: int| 0 <= i < ls.len() ==> (#[trigger] ls[i]).len() <= w
}

/// Every line of `ls` holds exactly `w` characters.
pub open spec fn all_exactly(ls: Seq<Seq<char>>, w: nat) -> bool {
    forall|i: int| 0 <= i < ls.len() ==> (#[trigger] ls[i]).len() == w
}

/// Everything shown inside an ASCII box `w` columns wide fits in it.
pub open spec fn fits_ascii_box(b: DenialBox, w: nat) -> bool {
    let inner = sat_sub(w as int, 4);
    &&& ascii_header(b).len() <= w
    &&& (b.is_protected_branch ==> "!!  Extra caution on protected branches."@.len() <= inner)
    &&& all_within(span_label_lines(b), inner)
    &&& all_within(explanation_text_lines(b, false, inner), inner)
    &&& all_within(denial_pattern_lines(b, severity_name(b.severity), false), inner)
    &&& all_within(prefixed("* "@, views(b.alternatives@)), sat_sub(w as int, 6))
}

proof fn lemma_framed_all_width(
    a: Seq<char>,
    ls: Seq<Seq<char>>,
    b: Seq<char>,
    pw: nat,
    c: Seq<char>,
)
    requires
        no_esc_lines(ls),
        all_within(ls, pw),
    ensures
        all_exactly(framed_all(a, ls, b, pw, c), a.len() + b.len() + pw + c.len()),
{
    assert forall|i: int| 0 <= i < framed_all(a, ls, b, pw, c).len() implies (
    #[trigger] framed_all(a, ls, b, pw, c)[i]).len() == a.len() + b.len() + pw + c.len() by {
        assert(no_esc(ls[i]));
        assert(!ls[i].contains(esc())) by {
            if ls[i].contains(esc()) {
                let k = choose|k: int| 0 <= k < ls[i].len() && ls[i][k] == esc();
                assert(ls[i][k] != esc());
            }
        }
        crate::text::lemma_strip_ansi_plain(ls[i]);
    }
}

proof fn lemma_exactly_concat(a: Seq<Seq<char>>, b: Seq<Seq<char>>, w: nat)
    requires
        all_exactly(a, w),
        all_exactly(b, w),
    ensures
        all_exactly(a + b, w),
{
    assert forall|i: int| 0 <= i < (a + b).len() implies (#[trigger] (a + b)[i]).len() == w by {
        if i < a.len() {
            assert((a + b)[i] == a[i]);
        } else {
            assert((a + b)[i] == b[i - a.len()]);
        }
    }
}

/// An ASCII box drawn without colors is a rectangle: when everything shown
/// in it fits, every line of it, borders included, is two characters wider
/// than the box width.
pub proof fn law_ascii_box_is_rectangular(b: DenialBox, t: Theme, tw: u16)
    requires
        !t.colors_enabled,
        escape_free(b),
        fits_ascii_box(b, box_width(tw)),
    ensures
        all_exactly(ascii_lines(b, t, tw), box_width(tw) + 2),
{
    broadcast use group_no_esc;

    reveal_strlit("+");
    reveal_strlit("|");
    reveal_strlit("|  ");
    reveal_strlit("|    ");
    reveal_strlit("");
    reveal_strlit("  |");
    reveal_strlit("EXPLANATION:");
    reveal_strlit("Safe alternatives:");
    reveal_strlit("!!  Extra caution on protected branches.");
    let w = box_width(tw);
    let inner = sat_sub(w as int, 4);
    assert(inner + 6 == w + 2);
    lemma_ascii_top_no_esc(b, w);
    lemma_ascii_body_no_esc(b, t, w);
    law_highlight_bounded(b.command@, b.span.start, b.span.end, inner);
    lemma_highlight_no_esc(b.command@, b.span.start, b.span.end, inner);

    // Top.
    let caution = seq!["!!  Extra caution on protected branches."@];
    assert(no_esc_lines(caution)) by {
        assert(caution[0] == "!!  Extra caution on protected branches."@);
    }
    if b.is_protected_branch {
        assert(all_within(caution, inner)) by {
            assert(caution[0] == "!!  Extra caution on protected branches."@);
        }
        lemma_framed_all_width("|  "@, caution, ""@, inner, "  |"@);
    }
    let header = ascii_header(b);
    assert(("|"@ + header + repeat(' ', sat_sub(w as int, header.len() as int)) + "|"@).len() == w
        + 2);
    let top = ascii_top(b, w);
    assert(all_exactly(top, w + 2)) by {
        assert forall|i: int| 0 <= i < top.len() implies (#[trigger] top[i]).len() == w + 2 by {
            if i >= 3 {
                let rest = ascii_framed(caution, w) + seq![ascii_blank(w)];
                assert(top[i] == rest[i - 3]);
                if i - 3 == 0 {
                    assert(rest[0] == ascii_framed(caution, w)[0]);
                }
            }
        }
    }

    // Command.
    let cb = command_block(b, false, inner);
    assert(no_esc_lines(cb) && all_within(cb, inner)) by {
        assert forall|i: int| 0 <= i < cb.len() implies no_esc(#[trigger] cb[i]) && cb[i].len()
            <= inner by {
            if i >= 2 {
                assert(cb[i] == span_label_lines(b)[i - 2]);
            }
        }
    }
    lemma_framed_all_width("|  "@, cb, ""@, inner, "  |"@);
    let blank = seq![ascii_blank(w)];
    assert(all_exactly(blank, w + 2)) by {
        assert(blank[0] == ascii_blank(w));
    }
    lemma_exactly_concat(ascii_framed(cb, w), blank, w + 2);

    // Explanation.
    let label = seq!["EXPLANATION:"@];
    assert(no_esc_lines(label) && all_within(label, inner)) by {
        assert(label[0] == "EXPLANATION:"@);
    }
    lemma_framed_all_width("|  "@, label, ""@, inner, "  |"@);
    if b.explanation is Some {
        let e = opt_view(b.explanation)->0;
        lemma_markdown_no_esc(e, 0, false, false);
        lemma_wrap_no_esc(markdown_text(e, false), inner);
        lemma_framed_all_width("|  "@, explanation_text_lines(b, false, inner), ""@, inner, "  |"@);
        lemma_exactly_concat(blank, ascii_framed(label, w), w + 2);
        lemma_exactly_concat(
            blank + ascii_framed(label, w),
            ascii_framed(explanation_text_lines(b, false, inner), w),
            w + 2,
        );
    }

    // Pattern.
    reveal_strlit("CRITICAL");
    reveal_strlit("HIGH");
    reveal_strlit("MEDIUM");
    reveal_strlit("LOW");
    let pl = denial_pattern_lines(b, severity_name(b.severity), false);
    lemma_pattern_lines_no_esc(b.pattern_id@, severity_name(b.severity), opt_view(b.pattern_regex));
    lemma_framed_all_width("|  "@, pl, ""@, inner, "  |"@);
    lemma_exactly_concat(blank, ascii_framed(pl, w), w + 2);

    // Alternatives.
    if b.alternatives@.len() > 0 {
        let sa = seq!["Safe alternatives:"@];
        assert(no_esc_lines(sa) && all_within(sa, inner)) by {
            assert(sa[0] == "Safe alternatives:"@);
        }
        lemma_framed_all_width("|  "@, sa, ""@, inner, "  |"@);
        reveal_strlit("* ");
        lemma_prefixed_no_esc("* "@, views(b.alternatives@));
        let bullets = prefixed("* "@, views(b.alternatives@));
        lemma_framed_all_width("|    "@, bullets, ""@, sat_sub(w as int, 6), "  |"@);
        lemma_exactly_concat(blank, ascii_framed(sa, w), w + 2);
        lemma_exactly_concat(
            blank + ascii_framed(sa, w),
            framed_all("|    "@, bullets, ""@, sat_sub(w as int, 6), "  |"@),
            w + 2,
        );
    }
    let bottom = seq![ascii_rule(w)];
    assert(all_exactly(bottom, w + 2)) by {
        assert(bottom[0] == ascii_rule(w));
    }
    let cmd = ascii_command(b, t, w);
    let ex = ascii_explanation(b, t, w);
    let pat = ascii_pattern(b, t, w);
    let alts = ascii_alternatives(b, w);
    assert(all_exactly(Seq::<Seq<char>>::empty(), w + 2));
    lemma_exactly_concat(top, cmd, w + 2);
    lemma_exactly_concat(top + cmd, ex, w + 2);
    lemma_exactly_concat(top + cmd + ex, pat, w + 2);
    lemma_exactly_concat(top + cmd + ex + pat, alts, w + 2);
    lemma_exactly_concat(top + cmd + ex + pat + alts, bottom, w + 2);
}

// ---------------------------------------------------------------------------
// Boxes are aligned, with colors or without
// ---------------------------------------------------------------------------

/// Every line of `ls` shows `n` characters (see `shows`).
pub open spec fn all_show(ls: Seq<Seq<char>>, n: nat) -> bool {
    forall|i: int| 0 <= i < ls.len() ==> shows(#[trigger] ls[i], n)
}

/// The lines with their escape sequences left out.
pub open spec fn stripped(ls: Seq<Seq<char>>) -> Seq<Seq<char>> {
    ls.map_values(|l: Seq<char>| strip_ansi(l))
}

/// The reset sequence, and `ESC [ 1 ;` and `ESC [ 2 m`, are SGR sequences.
proof fn lemma_sgr_literals(sev: Seq<char>)
    requires
        csi_params(sev),
    ensures
        "\x1b[0m"@ == sgr("0"@),
        shows("\x1b[0m"@, 0),
        "\x1b[1;"@ + sev + "m"@ == sgr("1;"@ + sev),
        shows(sgr("1;"@ + sev), 0),
        "  \x1b[2m"@ == "  "@ + sgr("2"@),
        shows("  \x1b[2m"@, 2),
        shows(sgr(sev), 0),
{
    reveal_strlit("\x1b[0m");
    reveal_strlit("\x1b[");
    reveal_strlit("m");
    reveal_strlit("0");
    reveal_strlit("\x1b[1;");
    reveal_strlit("1;");
    reveal_strlit("  \x1b[2m");
    reveal_strlit("  ");
    reveal_strlit("2");
    assert("\x1b[0m"@ =~= sgr("0"@));
    assert("\x1b[1;"@ + sev + "m"@ =~= sgr("1;"@ + sev));
    assert("  \x1b[2m"@ =~= "  "@ + sgr("2"@));
    assert(csi_params("0"@)) by {
        assert("0"@[0] == '0');
    }
    assert(csi_params("2"@)) by {
        assert("2"@[0] == '2');
    }
    assert(csi_params("1;"@)) by {
        assert("1;"@[0] == '1');
        assert("1;"@[1] == ';');
    }
    lemma_csi_params_concat("1;"@, sev);
    lemma_shows_sgr("0"@);
    lemma_shows_sgr("2"@);
    lemma_shows_sgr("1;"@ + sev);
    lemma_shows_sgr(sev);
    assert(no_esc("  "@));
    lemma_shows_plain("  "@);
    lemma_shows_concat("  "@, 2, sgr("2"@), 0);
}

proof fn lemma_uni_bar_shows(sev: Seq<char>)
    requires
        csi_params(sev),
    ensures
        shows(uni_bar(sev), 1),
        strip_ansi(uni_bar(sev)) == seq!['\u{2502}'],
{
    reveal_strlit("\x1b[");
    reveal_strlit("m\u{2502}\x1b[0m");
    reveal_strlit("m");
    reveal_strlit("0");
    lemma_sgr_literals(sev);
    let bar = seq!['\u{2502}'];
    assert(uni_bar(sev) =~= sgr(sev) + bar + sgr("0"@));
    assert(no_esc(bar)) by {
        assert(bar[0] == '\u{2502}');
    }
    lemma_shows_plain(bar);
    lemma_shows_concat(sgr(sev), 0, bar, 1);
    lemma_shows_concat(sgr(sev) + bar, 1, sgr("0"@), 0);
    assert(strip_ansi(sgr(sev)) =~= Seq::<char>::empty());
    assert(strip_ansi(sgr("0"@)) =~= Seq::<char>::empty());
    assert(strip_ansi(uni_bar(sev)) =~= bar);
}

proof fn lemma_spaces_show(n: nat)
    ensures
        shows(repeat(' ', n), n),
{
    broadcast use group_no_esc;

    lemma_shows_plain(repeat(' ', n));
}

proof fn lemma_framed_shows(
    a: Seq<char>,
    na: nat,
    l: Seq<char>,
    k: nat,
    b: Seq<char>,
    nb: nat,
    pw: nat,
    c: Seq<char>,
    nc: nat,
)
    requires
        shows(a, na),
        shows(l, k),
        shows(b, nb),
        shows(c, nc),
        k <= pw,
    ensures
        shows(framed(a, l, b, pw, c), na + pw + nb + nc),
        strip_ansi(framed(a, l, b, pw, c)) == strip_ansi(a) + strip_ansi(l) + strip_ansi(b)
            + strip_ansi(padding(l, pw)) + strip_ansi(c),
{
    lemma_spaces_show((pw - k) as nat);
    assert(padding(l, pw) == repeat(' ', (pw - k) as nat));
    lemma_shows_concat(a, na, l, k);
    lemma_shows_concat(a + l, na + k, b, nb);
    lemma_shows_concat(a + l + b, na + k + nb, padding(l, pw), (pw - k) as nat);
    lemma_shows_concat(a + l + b + padding(l, pw), (na + k + nb + (pw - k)) as nat, c, nc);
}

proof fn lemma_framed_all_shows(
    a: Seq<char>,
    na: nat,
    ls: Seq<Seq<char>>,
    b: Seq<char>,
    nb: nat,
    pw: nat,
    c: Seq<char>,
    nc: nat,
)
    requires
        shows(a, na),
        shows(b, nb),
        shows(c, nc),
        all_fit(ls, pw),
    ensures
        all_show(framed_all(a, ls, b, pw, c), na + pw + nb + nc),
        bar_ends(strip_ansi(a), strip_ansi(c)) ==> all_boxed(framed_all(a, ls, b, pw, c)),
{
    assert forall|i: int| 0 <= i < framed_all(a, ls, b, pw, c).len() implies shows(
        #[trigger] framed_all(a, ls, b, pw, c)[i],
        na + pw + nb + nc,
    ) by {
        assert(ends_plain(ls[i]) && visible_len(ls[i]) <= pw);
        lemma_framed_shows(a, na, ls[i], visible_len(ls[i]), b, nb, pw, c, nc);
    }
    if bar_ends(strip_ansi(a), strip_ansi(c)) {
        assert forall|i: int| 0 <= i < framed_all(a, ls, b, pw, c).len() implies boxed(
            #[trigger] framed_all(a, ls, b, pw, c)[i],
        ) by {
            assert(ends_plain(ls[i]) && visible_len(ls[i]) <= pw);
            lemma_framed_shows(a, na, ls[i], visible_len(ls[i]), b, nb, pw, c, nc);
            lemma_boxed_pieces(
                strip_ansi(a),
                strip_ansi(ls[i]) + strip_ansi(b) + strip_ansi(padding(ls[i], pw)),
                strip_ansi(c),
            );
            assert(strip_ansi(framed(a, ls[i], b, pw, c)) =~= strip_ansi(a) + (strip_ansi(ls[i])
                + strip_ansi(b) + strip_ansi(padding(ls[i], pw))) + strip_ansi(c));
        }
    }
}

/// The line, its escape sequences left out, starts and ends with a bar `│`.
pub open spec fn boxed(l: Seq<char>) -> bool {
    sided(strip_ansi(l), '\u{2502}', '\u{2502}')
}

/// Every line of `ls` starts and ends with a bar once its escape sequences
/// are left out.
pub open spec fn all_boxed(ls: Seq<Seq<char>>) -> bool {
    forall|i: int| 0 <= i < ls.len() ==> boxed(#[trigger] ls[i])
}

/// `a` starts with a bar and `c` ends with one.
pub open spec fn bar_ends(a: Seq<char>, c: Seq<char>) -> bool {
    a.len() > 0 && a[0] == '\u{2502}' && c.len() > 0 && c.last() == '\u{2502}'
}

proof fn lemma_boxed_pieces(a: Seq<char>, m: Seq<char>, c: Seq<char>)
    requires
        bar_ends(a, c),
    ensures
        sided(a + m + c, '\u{2502}', '\u{2502}'),
{
    assert((a + m + c)[0] == a[0]);
    assert((a + m + c).last() == c.last());
}

proof fn lemma_bar_prefix(x: Seq<char>, n: nat, y: Seq<char>, m: nat)
    requires
        shows(x, n),
        shows(y, m),
        strip_ansi(x).len() > 0,
        strip_ansi(x)[0] == '\u{2502}',
    ensures
        shows(x + y, n + m),
        strip_ansi(x + y) == strip_ansi(x) + strip_ansi(y),
        strip_ansi(x + y).len() > 0,
        strip_ansi(x + y)[0] == '\u{2502}',
{
    lemma_shows_concat(x, n, y, m);
}

proof fn lemma_bar_suffix(x: Seq<char>, n: nat, y: Seq<char>, m: nat)
    requires
        shows(x, n),
        shows(y, m),
        strip_ansi(y).len() > 0,
        strip_ansi(y).last() == '\u{2502}',
    ensures
        shows(x + y, n + m),
        strip_ansi(x + y) == strip_ansi(x) + strip_ansi(y),
        strip_ansi(x + y).len() > 0,
        strip_ansi(x + y).last() == '\u{2502}',
{
    lemma_shows_concat(x, n, y, m);
}

proof fn lemma_framed_boxed(
    a: Seq<char>,
    na: nat,
    l: Seq<char>,
    k: nat,
    b: Seq<char>,
    nb: nat,
    pw: nat,
    c: Seq<char>,
    nc: nat,
)
    requires
        shows(a, na),
        shows(l, k),
        shows(b, nb),
        shows(c, nc),
        k <= pw,
        bar_ends(strip_ansi(a), strip_ansi(c)),
    ensures
        shows(framed(a, l, b, pw, c), na + pw + nb + nc),
        boxed(framed(a, l, b, pw, c)),
{
    lemma_framed_shows(a, na, l, k, b, nb, pw, c, nc);
    let m = strip_ansi(l) + strip_ansi(b) + strip_ansi(padding(l, pw));
    lemma_boxed_pieces(strip_ansi(a), m, strip_ansi(c));
    assert(strip_ansi(framed(a, l, b, pw, c)) =~= strip_ansi(a) + m + strip_ansi(c));
}

proof fn lemma_all_boxed_one(l: Seq<char>)
    requires
        boxed(l),
    ensures
        all_boxed(seq![l]),
{
    assert(seq![l][0] == l);
}

proof fn lemma_all_boxed_concat(a: Seq<Seq<char>>, b: Seq<Seq<char>>)
    requires
        all_boxed(a),
        all_boxed(b),
    ensures
        all_boxed(a + b),
{
    assert forall|i: int| 0 <= i < (a + b).len() implies boxed(#[trigger] (a + b)[i]) by {
        if i < a.len() {
            assert((a + b)[i] == a[i]);
        } else {
            assert((a + b)[i] == b[i - a.len()]);
        }
    }
}

/// Every line of `ls` ends in ordinary text and shows at most `w`
/// characters.
pub open spec fn all_fit(ls: Seq<Seq<char>>, w: nat) -> bool {
    forall|i: int| 0 <= i < ls.len() ==> ends_plain(#[trigger] ls[i]) && visible_len(ls[i]) <= w
}

/// Every line of `ls` shows at most `w` characters, escape sequences not
/// counted.
pub open spec fn all_visible_within(ls: Seq<Seq<char>>, w: nat) -> bool {
    forall|i: int| 0 <= i < ls.len() ==> visible_len(#[trigger] ls[i]) <= w
}

proof fn lemma_plain_fit(ls: Seq<Seq<char>>, w: nat)
    requires
        no_esc_lines(ls),
        all_within(ls, w),
    ensures
        all_fit(ls, w),
        all_visible_within(ls, w),
{
    assert forall|i: int| 0 <= i < ls.len() implies ends_plain(#[trigger] ls[i]) && visible_len(
        ls[i],
    ) <= w by {
        assert(no_esc(ls[i]));
        lemma_shows_plain(ls[i]);
    }
}
proof fn lemma_all_show_concat(a: Seq<Seq<char>>, b: Seq<Seq<char>>, n: nat)
    requires
        all_show(a, n),
        all_show(b, n),
    ensures
        all_show(a + b, n),
{
    assert forall|i: int| 0 <= i < (a + b).len() implies shows(#[trigger] (a + b)[i], n) by {
        if i < a.len() {
            assert((a + b)[i] == a[i]);
        } else {
            assert((a + b)[i] == b[i - a.len()]);
        }
    }
}

proof fn lemma_all_show_one(l: Seq<char>, n: nat)
    requires
        shows(l, n),
    ensures
        all_show(seq![l], n),
{
    assert(seq![l][0] == l);
}

proof fn lemma_uni_rule_shows(sev: Seq<char>, w: nat, l: Seq<char>, r: Seq<char>)
    requires
        csi_params(sev),
        no_esc(l),
        no_esc(r),
        l.len() == 1,
        r.len() == 1,
    ensures
        shows(uni_rule(sev, w, l, r), w + 2),
        strip_ansi(uni_rule(sev, w, l, r)) == l + repeat('\u{2500}', w) + r,
{
    lemma_sgr_literals(sev);
    lemma_shows_plain(l);
    lemma_shows_plain(r);
    lemma_spaces_show(0);
    broadcast use group_no_esc;

    lemma_shows_plain(repeat('\u{2500}', w));
    lemma_shows_concat(sgr(sev), 0, l, 1);
    lemma_shows_concat(sgr(sev) + l, 1, repeat('\u{2500}', w), w);
    lemma_shows_concat(sgr(sev) + l + repeat('\u{2500}', w), 1 + w, r, 1);
    lemma_shows_concat(sgr(sev) + l + repeat('\u{2500}', w) + r, 1 + w + 1, "\x1b[0m"@, 0);
    assert(strip_ansi(sgr(sev)) =~= Seq::<char>::empty());
    assert(strip_ansi("\x1b[0m"@) =~= Seq::<char>::empty());
    assert(strip_ansi(uni_rule(sev, w, l, r)) =~= l + repeat('\u{2500}', w) + r);
}

proof fn lemma_uni_blank_shows(sev: Seq<char>, w: nat)
    requires
        csi_params(sev),
        w >= 2,
    ensures
        shows(uni_blank(sev, w), w + 2),
        boxed(uni_blank(sev, w)),
{
    reveal_strlit("  ");
    lemma_uni_bar_shows(sev);
    lemma_spaces_show((w - 2) as nat);
    lemma_shows_plain("  "@);
    lemma_bar_prefix(uni_bar(sev), 1, repeat(' ', (w - 2) as nat), (w - 2) as nat);
    lemma_bar_prefix(uni_bar(sev) + repeat(' ', (w - 2) as nat), (w - 1) as nat, "  "@, 2);
    lemma_bar_prefix(
        uni_bar(sev) + repeat(' ', (w - 2) as nat) + "  "@,
        w + 1,
        uni_bar(sev),
        1,
    );
    lemma_bar_suffix(
        uni_bar(sev) + repeat(' ', (w - 2) as nat) + "  "@,
        w + 1,
        uni_bar(sev),
        1,
    );
}

proof fn lemma_side_shows(sev: Seq<char>)
    requires
        csi_params(sev),
    ensures
        shows(uni_bar(sev) + "  "@, 3),
        shows("  "@ + uni_bar(sev), 3),
        shows(""@, 0),
        bar_ends(strip_ansi(uni_bar(sev) + "  "@), strip_ansi("  "@ + uni_bar(sev))),
        strip_ansi(uni_bar(sev) + "  "@) == "\u{2502}  "@,
        strip_ansi("  "@ + uni_bar(sev)) == "  \u{2502}"@,
{
    reveal_strlit("\u{2502}  ");
    reveal_strlit("  \u{2502}");
    reveal_strlit("  ");
    reveal_strlit("");
    lemma_uni_bar_shows(sev);
    lemma_shows_plain("  "@);
    lemma_shows_plain(""@);
    lemma_bar_prefix(uni_bar(sev), 1, "  "@, 2);
    lemma_bar_suffix("  "@, 2, uni_bar(sev), 1);
    assert(strip_ansi(uni_bar(sev) + "  "@) =~= "\u{2502}  "@);
    assert(strip_ansi("  "@ + uni_bar(sev)) =~= "  \u{2502}"@);
}

proof fn lemma_uni_top_shows(b: DenialBox, sev: Seq<char>, w: nat)
    requires
        csi_params(sev),
        escape_free(b),
        uni_header(b).len() <= w,
    ensures
        all_show(uni_top(b, sev, w), w + 2),
        strip_ansi(uni_top(b, sev, w)[0]) == "\u{256d}"@ + repeat('\u{2500}', w) + "\u{256e}"@,
        strip_ansi(uni_top(b, sev, w)[1]) == seq!['\u{2502}'] + uni_header(b) + repeat(
            ' ',
            sat_sub(w as int, uni_header(b).len() as int),
        ) + seq!['\u{2502}'],
        strip_ansi(uni_top(b, sev, w)[2]) == "\u{251c}"@ + repeat('\u{2500}', w) + "\u{2524}"@,
{
    broadcast use group_no_esc;

    reveal_strlit("\u{256d}");
    reveal_strlit("\u{256e}");
    reveal_strlit("\u{251c}");
    reveal_strlit("\u{2524}");
    reveal_strlit(" \u{26d4}  ");
    reveal_strlit(" ");
    reveal_strlit("BLOCKED (Protected Branch: ");
    reveal_strlit("BLOCKED (Branch: ");
    reveal_strlit(")");
    reveal_strlit("BLOCKED: Destructive Command Detected");
    lemma_uni_rule_shows(sev, w, "\u{256d}"@, "\u{256e}"@);
    lemma_uni_rule_shows(sev, w, "\u{251c}"@, "\u{2524}"@);
    lemma_sgr_literals(sev);
    lemma_uni_bar_shows(sev);
    let header = uni_header(b);
    assert(no_esc(header));
    lemma_shows_plain(header);
    let pad = repeat(' ', sat_sub(w as int, header.len() as int));
    lemma_spaces_show(sat_sub(w as int, header.len() as int));
    let bar = uni_bar(sev);
    let on = sgr("1;"@ + sev);
    let off = "\x1b[0m"@;
    let line = bar + "\x1b[1;"@ + sev + "m"@ + header + "\x1b[0m"@ + pad + bar;
    assert(line =~= bar + on + header + off + pad + bar);
    lemma_shows_concat(bar, 1, on, 0);
    lemma_shows_concat(bar + on, 1, header, header.len());
    lemma_shows_concat(bar + on + header, 1 + header.len(), off, 0);
    lemma_shows_concat(bar + on + header + off, 1 + header.len(), pad, (w - header.len()) as nat);
    lemma_shows_concat(bar + on + header + off + pad, w + 1, bar, 1);
    lemma_shows_plain(pad);
    assert(strip_ansi(on) =~= Seq::<char>::empty());
    assert(strip_ansi(off) =~= Seq::<char>::empty());
    assert(strip_ansi(line) =~= seq!['\u{2502}'] + header + pad + seq!['\u{2502}']);
    let top = uni_top(b, sev, w);
    assert(top[0] == uni_rule(sev, w, "\u{256d}"@, "\u{256e}"@));
    assert(top[1] == line);
    assert(top[2] == uni_rule(sev, w, "\u{251c}"@, "\u{2524}"@));
}

proof fn lemma_uni_caution_shows(b: DenialBox, sev: Seq<char>, w: nat)
    requires
        csi_params(sev),
        w >= 4,
        b.is_protected_branch ==> "\u{26a0}  Extra caution on protected branches."@.len() <= w - 4,
    ensures
        all_show(uni_caution(b, sev, w), w + 2),
        all_boxed(uni_caution(b, sev, w)),
{
    if b.is_protected_branch {
        reveal_strlit("  \x1b[1;");
        reveal_strlit("\x1b[1;");
        reveal_strlit("  ");
        reveal_strlit("\u{26a0}  Extra caution on protected branches.");
        lemma_sgr_literals(sev);
        lemma_side_shows(sev);
        lemma_uni_bar_shows(sev);
        let bar = uni_bar(sev);
        let a = bar + "  \x1b[1;"@ + sev + "m"@;
        assert(a =~= (bar + "  "@) + sgr("1;"@ + sev));
        lemma_bar_prefix(bar + "  "@, 3, sgr("1;"@ + sev), 0);
        let caution = "\u{26a0}  Extra caution on protected branches."@;
        lemma_shows_plain(caution);
        lemma_framed_shows(
            a,
            3,
            caution,
            caution.len(),
            "\x1b[0m"@,
            0,
            sat_sub(w as int, 4),
            "  "@ + bar,
            3,
        );
        lemma_uni_blank_shows(sev, w);
        let ls = uni_caution(b, sev, w);
        let l0 = framed(a, caution, "\x1b[0m"@, sat_sub(w as int, 4), "  "@ + bar);
        assert(ls[0] == l0);
        assert(ls[1] == uni_blank(sev, w));
        let sp = padding(caution, sat_sub(w as int, 4));
        lemma_boxed_pieces(
            strip_ansi(a),
            strip_ansi(caution) + strip_ansi("\x1b[0m"@) + strip_ansi(sp),
            strip_ansi("  "@ + bar),
        );
        assert(strip_ansi(l0) =~= strip_ansi(a) + (strip_ansi(caution) + strip_ansi("\x1b[0m"@)
            + strip_ansi(sp)) + strip_ansi("  "@ + bar));
        assert(boxed(ls[0]));
    }
}

proof fn lemma_uni_command_shows(b: DenialBox, t: Theme, sev: Seq<char>, w: nat)
    requires
        csi_params(sev),
        escape_free(b),
        w >= 4,
        all_within(span_label_lines(b), sat_sub(w as int, 4)),
    ensures
        all_show(uni_command(b, t, sev, w), w + 2),
        all_boxed(uni_command(b, t, sev, w)),
{
    let inner = sat_sub(w as int, 4);
    law_highlight_bounded(b.command@, b.span.start, b.span.end, inner);
    lemma_highlight_no_esc(b.command@, b.span.start, b.span.end, inner);
    lemma_highlight_shows(b.command@, b.span.start, b.span.end, inner);
    let plain = command_block(b, false, inner);
    assert(no_esc_lines(plain) && all_within(plain, inner)) by {
        assert forall|i: int| 0 <= i < plain.len() implies no_esc(#[trigger] plain[i])
            && plain[i].len() <= inner by {
            if i >= 2 {
                assert(plain[i] == span_label_lines(b)[i - 2]);
            }
        }
    }
    lemma_plain_fit(plain, inner);
    let cb = command_block(b, t.colors_enabled, inner);
    assert(all_fit(cb, inner)) by {
        assert forall|i: int| 0 <= i < cb.len() implies ends_plain(#[trigger] cb[i])
            && visible_len(cb[i]) <= inner by {
            if i >= 2 {
                assert(cb[i] == span_label_lines(b)[i - 2]);
                assert(plain[i] == span_label_lines(b)[i - 2]);
            }
            assert(ends_plain(plain[i]) && visible_len(plain[i]) <= inner);
        }
    }
    lemma_side_shows(sev);
    lemma_framed_all_shows(uni_bar(sev) + "  "@, 3, cb, ""@, 0, inner, "  "@ + uni_bar(sev), 3);
    lemma_uni_blank_shows(sev, w);
    lemma_all_show_one(uni_blank(sev, w), w + 2);
    lemma_all_show_concat(
        framed_all(uni_bar(sev) + "  "@, cb, ""@, inner, "  "@ + uni_bar(sev)),
        seq![uni_blank(sev, w)],
        w + 2,
    );
    lemma_all_boxed_one(uni_blank(sev, w));
    lemma_all_boxed_concat(
        framed_all(uni_bar(sev) + "  "@, cb, ""@, inner, "  "@ + uni_bar(sev)),
        seq![uni_blank(sev, w)],
    );
}
proof fn lemma_uni_explanation_shows(b: DenialBox, t: Theme, sev: Seq<char>, w: nat)
    requires
        csi_params(sev),
        escape_free(b),
        w >= 16,
        all_visible_within(
            explanation_text_lines(b, t.colors_enabled, sat_sub(w as int, 4)),
            sat_sub(w as int, 4),
        ),
    ensures
        all_show(uni_explanation(b, t, sev, w), w + 2),
        all_boxed(uni_explanation(b, t, sev, w)),
{
    if b.explanation is Some {
        let inner = sat_sub(w as int, 4);
        reveal_strlit("\x1b[1;");
        reveal_strlit("mExplanation:\x1b[0m");
        reveal_strlit("Explanation:");
        reveal_strlit("\x1b[");
        reveal_strlit("m");
        reveal_strlit("1;");
        reveal_strlit("\x1b[0m");
        lemma_sgr_literals(sev);
        lemma_side_shows(sev);
        let label = "\x1b[1;"@ + sev + "mExplanation:\x1b[0m"@;
        let on = sgr("1;"@ + sev);
        assert(label =~= on + "Explanation:"@ + "\x1b[0m"@);
        lemma_shows_plain("Explanation:"@);
        lemma_shows_concat(on, 0, "Explanation:"@, 12);
        lemma_shows_concat(on + "Explanation:"@, 12, "\x1b[0m"@, 0);
        lemma_framed_boxed(
            uni_bar(sev) + "  "@,
            3,
            label,
            12,
            ""@,
            0,
            inner,
            "  "@ + uni_bar(sev),
            3,
        );
        lemma_uni_blank_shows(sev, w);
        let head = seq![
            uni_blank(sev, w),
            framed(uni_bar(sev) + "  "@, label, ""@, inner, "  "@ + uni_bar(sev)),
        ];
        assert(all_show(head, w + 2) && all_boxed(head)) by {
            assert(head[0] == uni_blank(sev, w));
            assert(head[1] == framed(uni_bar(sev) + "  "@, label, ""@, inner, "  "@ + uni_bar(sev)));
        }
        let e = opt_view(b.explanation)->0;
        let lines = explanation_text_lines(b, t.colors_enabled, inner);
        if t.colors_enabled {
            lemma_markdown_ws_plain(e, 0, false, false);
            lemma_wrap_ends_plain(markdown_text(e, true), inner);
        } else {
            lemma_markdown_no_esc(e, 0, false, false);
            lemma_wrap_no_esc(markdown_text(e, false), inner);
            assert forall|i: int| 0 <= i < lines.len() implies ends_plain(#[trigger] lines[i]) by {
                assert(no_esc(lines[i]));
                lemma_shows_plain(lines[i]);
            }
        }
        assert(all_fit(lines, inner));
        lemma_framed_all_shows(
            uni_bar(sev) + "  "@,
            3,
            explanation_text_lines(b, t.colors_enabled, inner),
            ""@,
            0,
            inner,
            "  "@ + uni_bar(sev),
            3,
        );
        lemma_all_show_concat(
            head,
            framed_all(
                uni_bar(sev) + "  "@,
                explanation_text_lines(b, t.colors_enabled, inner),
                ""@,
                inner,
                "  "@ + uni_bar(sev),
            ),
            w + 2,
        );
        lemma_all_boxed_concat(
            head,
            framed_all(
                uni_bar(sev) + "  "@,
                explanation_text_lines(b, t.colors_enabled, inner),
                ""@,
                inner,
                "  "@ + uni_bar(sev),
            ),
        );
    }
}

proof fn lemma_uni_pattern_shows(b: DenialBox, t: Theme, sev: Seq<char>, w: nat)
    requires
        csi_params(sev),
        escape_free(b),
        w >= 4,
        all_within(denial_pattern_lines(b, severity_name(b.severity), false), sat_sub(w as int, 4)),
    ensures
        all_show(uni_pattern(b, t, sev, w), w + 2),
        all_boxed(uni_pattern(b, t, sev, w)),
{
    reveal_strlit("CRITICAL");
    reveal_strlit("HIGH");
    reveal_strlit("MEDIUM");
    reveal_strlit("LOW");
    let inner = sat_sub(w as int, 4);
    lemma_sgr_literals(sev);
    lemma_side_shows(sev);
    lemma_uni_bar_shows(sev);
    let plain = denial_pattern_lines(b, severity_name(b.severity), false);
    let pl = denial_pattern_lines(b, severity_name(b.severity), t.colors_enabled);
    lemma_pattern_lines_no_esc(b.pattern_id@, severity_name(b.severity), opt_view(b.pattern_regex));
    lemma_pattern_lines_shows(b.pattern_id@, severity_name(b.severity), opt_view(b.pattern_regex));
    lemma_plain_fit(plain, inner);
    assert(all_fit(pl, inner)) by {
        assert forall|i: int| 0 <= i < pl.len() implies ends_plain(#[trigger] pl[i])
            && visible_len(pl[i]) <= inner by {
            assert(plain[i].len() <= inner);
        }
    }
    lemma_bar_prefix(uni_bar(sev), 1, "  \x1b[2m"@, 2);
    lemma_framed_all_shows(
        uni_bar(sev) + "  \x1b[2m"@,
        3,
        pl,
        "\x1b[0m"@,
        0,
        inner,
        "  "@ + uni_bar(sev),
        3,
    );
    lemma_uni_blank_shows(sev, w);
    lemma_all_show_one(uni_blank(sev, w), w + 2);
    lemma_all_show_concat(
        seq![uni_blank(sev, w)],
        framed_all(uni_bar(sev) + "  \x1b[2m"@, pl, "\x1b[0m"@, inner, "  "@ + uni_bar(sev)),
        w + 2,
    );
    lemma_all_boxed_one(uni_blank(sev, w));
    lemma_all_boxed_concat(
        seq![uni_blank(sev, w)],
        framed_all(uni_bar(sev) + "  \x1b[2m"@, pl, "\x1b[0m"@, inner, "  "@ + uni_bar(sev)),
    );
}
proof fn lemma_uni_alternatives_shows(b: DenialBox, sev: Seq<char>, succ: Seq<char>, w: nat)
    requires
        csi_params(sev),
        csi_params(succ),
        escape_free(b),
        w >= 24,
        all_within(prefixed("\u{2022} "@, views(b.alternatives@)), sat_sub(w as int, 6)),
    ensures
        all_show(uni_alternatives(b, sev, succ, w), w + 2),
        all_boxed(uni_alternatives(b, sev, succ, w)),
{
    if b.alternatives@.len() > 0 {
        reveal_strlit("  \x1b[");
        reveal_strlit("    \x1b[");
        reveal_strlit("\x1b[");
        reveal_strlit("m");
        reveal_strlit("  ");
        reveal_strlit("    ");
        reveal_strlit("Safe alternatives:");
        reveal_strlit("\u{2022} ");
        let inner = sat_sub(w as int, 4);
        lemma_sgr_literals(sev);
        lemma_sgr_literals(succ);
        lemma_side_shows(sev);
        lemma_uni_bar_shows(sev);
        let bar = uni_bar(sev);
        let a1 = bar + "  \x1b["@ + succ + "m"@;
        assert(a1 =~= (bar + "  "@) + sgr(succ));
        lemma_bar_prefix(bar + "  "@, 3, sgr(succ), 0);
        let a2 = bar + "    \x1b["@ + succ + "m"@;
        lemma_shows_plain("    "@);
        lemma_bar_prefix(bar, 1, "    "@, 4);
        assert(a2 =~= (bar + "    "@) + sgr(succ));
        lemma_bar_prefix(bar + "    "@, 5, sgr(succ), 0);
        lemma_shows_plain("Safe alternatives:"@);
        lemma_framed_boxed(
            a1,
            3,
            "Safe alternatives:"@,
            18,
            "\x1b[0m"@,
            0,
            inner,
            "  "@ + bar,
            3,
        );
        lemma_uni_blank_shows(sev, w);
        let head = seq![
            uni_blank(sev, w),
            framed(a1, "Safe alternatives:"@, "\x1b[0m"@, inner, "  "@ + bar),
        ];
        assert(all_show(head, w + 2) && all_boxed(head)) by {
            assert(head[0] == uni_blank(sev, w));
            assert(head[1] == framed(a1, "Safe alternatives:"@, "\x1b[0m"@, inner, "  "@ + bar));
        }
        let bullets = prefixed("\u{2022} "@, views(b.alternatives@));
        assert(no_esc("\u{2022} "@));
        lemma_prefixed_no_esc("\u{2022} "@, views(b.alternatives@));
        lemma_plain_fit(bullets, sat_sub(w as int, 6));
        lemma_framed_all_shows(a2, 5, bullets, "\x1b[0m"@, 0, sat_sub(w as int, 6), "  "@ + bar, 3);
        lemma_all_show_concat(
            head,
            framed_all(a2, bullets, "\x1b[0m"@, sat_sub(w as int, 6), "  "@ + bar),
            w + 2,
        );
        lemma_all_boxed_concat(
            head,
            framed_all(a2, bullets, "\x1b[0m"@, sat_sub(w as int, 6), "  "@ + bar),
        );
    }
}

/// Everything shown inside a Unicode box `w` columns wide, drawn with the
/// theme's colors, fits in it.
pub open spec fn fits_unicode_box(b: DenialBox, t: Theme, w: nat) -> bool {
    let inner = sat_sub(w as int, 4);
    &&& uni_header(b).len() <= w
    &&& (b.is_protected_branch ==> "\u{26a0}  Extra caution on protected branches."@.len() <= inner)
    &&& all_within(span_label_lines(b), inner)
    &&& all_visible_within(explanation_text_lines(b, t.colors_enabled, inner), inner)
    &&& all_within(denial_pattern_lines(b, severity_name(b.severity), false), inner)
    &&& all_within(prefixed("\u{2022} "@, views(b.alternatives@)), sat_sub(w as int, 6))
}

proof fn lemma_join_lines_stripped(ls: Seq<Seq<char>>, n: nat)
    requires
        all_show(ls, n),
    ensures
        ends_plain(join_lines(ls)),
        strip_ansi(join_lines(ls)) == join_lines(stripped(ls)),
        all_exactly(stripped(ls), n),
    decreases ls.len(),
{
    if ls.len() == 0 {
        assert(stripped(ls) =~= Seq::<Seq<char>>::empty());
    } else {
        reveal_strlit("\n");
        let init = ls.drop_last();
        assert(all_show(init, n)) by {
            assert forall|i: int| 0 <= i < init.len() implies shows(#[trigger] init[i], n) by {
                assert(init[i] == ls[i]);
            }
        }
        lemma_join_lines_stripped(init, n);
        let last = ls.last();
        assert(shows(last, n)) by {
            assert(last == ls[ls.len() - 1]);
        }
        lemma_shows_plain("\n"@);
        lemma_esc_scan_concat(join_lines(init), last);
        lemma_esc_scan_concat(join_lines(init) + last, "\n"@);
        assert(stripped(ls).drop_last() =~= stripped(init));
        assert(stripped(ls).last() == strip_ansi(last));
        assert forall|i: int| 0 <= i < stripped(ls).len() implies (
        #[trigger] stripped(ls)[i]).len() == n by {
            if i < init.len() {
                assert(stripped(ls)[i] == stripped(init)[i]);
            } else {
                assert(stripped(ls)[i] == strip_ansi(last));
            }
        }
    }
}

/// A Unicode box is aligned, with colors or without: when everything shown
/// in it fits, every line of it, borders included, ends in ordinary text and
/// shows two characters more than the box width, escape sequences not
/// counted.
pub proof fn law_unicode_box_is_aligned(b: DenialBox, t: Theme, tw: u16)
    requires
        escape_free(b),
        fits_unicode_box(b, t, box_width(tw)),
    ensures
        all_show(unicode_lines(b, t, tw), box_width(tw) + 2),
{
    reveal_strlit("\u{2570}");
    reveal_strlit("\u{256f}");
    let w = box_width(tw);
    let sev = ansi_code(t.severity_color(b.severity));
    let succ = ansi_code(t.success_color);
    lemma_ansi_code_params(t.severity_color(b.severity));
    lemma_ansi_code_params(t.success_color);
    lemma_uni_top_shows(b, sev, w);
    lemma_uni_caution_shows(b, sev, w);
    lemma_uni_command_shows(b, t, sev, w);
    lemma_uni_explanation_shows(b, t, sev, w);
    lemma_uni_pattern_shows(b, t, sev, w);
    lemma_uni_alternatives_shows(b, sev, succ, w);
    let bottom = uni_rule(sev, w, "\u{2570}"@, "\u{256f}"@);
    lemma_uni_rule_shows(sev, w, "\u{2570}"@, "\u{256f}"@);
    lemma_all_show_one(bottom, w + 2);
    let top = uni_top(b, sev, w);
    let caution = uni_caution(b, sev, w);
    let cmd = uni_command(b, t, sev, w);
    let ex = uni_explanation(b, t, sev, w);
    let pat = uni_pattern(b, t, sev, w);
    let alts = uni_alternatives(b, sev, succ, w);
    lemma_all_show_concat(top, caution, w + 2);
    lemma_all_show_concat(top + caution, cmd, w + 2);
    lemma_all_show_concat(top + caution + cmd, ex, w + 2);
    lemma_all_show_concat(top + caution + cmd + ex, pat, w + 2);
    lemma_all_show_concat(top + caution + cmd + ex + pat, alts, w + 2);
    lemma_all_show_concat(top + caution + cmd + ex + pat + alts, seq![bottom], w + 2);
}

/// A Unicode box drawn without colors is a rectangle: when everything shown
/// in it fits, the output is its lines with their escape sequences left out,
/// and every one of them, borders included, is two characters wider than the
/// box width.
pub proof fn law_unicode_box_is_rectangular(b: DenialBox, t: Theme, tw: u16)
    requires
        t.border_style == BorderStyle::Unicode,
        !t.colors_enabled,
        escape_free(b),
        fits_unicode_box(b, t, box_width(tw)),
    ensures
        rendered(b, t, tw) == join_lines(stripped(unicode_lines(b, t, tw))),
        all_exactly(stripped(unicode_lines(b, t, tw)), box_width(tw) + 2),
{
    law_unicode_box_is_aligned(b, t, tw);
    lemma_join_lines_stripped(unicode_lines(b, t, tw), box_width(tw) + 2);
}

/// An ASCII box is aligned, with colors or without: when everything shown in
/// it fits, every line of it, borders included, ends in ordinary text and
/// shows two characters more than the box width, escape sequences not
/// counted.
#[verifier::spinoff_prover]
#[verifier::rlimit(50)]
pub proof fn law_ascii_box_is_aligned(b: DenialBox, t: Theme, tw: u16)
    requires
        escape_free(b),
        fits_ascii_box(b, box_width(tw)),
        all_visible_within(
            explanation_text_lines(b, t.colors_enabled, sat_sub(box_width(tw) as int, 4)),
            sat_sub(box_width(tw) as int, 4),
        ),
    ensures
        all_show(ascii_lines(b, t, tw), box_width(tw) + 2),
{
    broadcast use group_no_esc;

    reveal_strlit("|  ");
    reveal_strlit("");
    reveal_strlit("  |");
    reveal_strlit("|    ");
    reveal_strlit("|");
    let w = box_width(tw);
    let inner = sat_sub(w as int, 4);
    let nt = Theme { colors_enabled: false, ..t };
    // Without colors the box is a rectangle; the lines that colors leave
    // alone are its lines.
    law_ascii_box_is_rectangular(b, nt, tw);
    lemma_ascii_top_no_esc(b, w);
    lemma_ascii_body_no_esc(b, nt, w);
    let top = ascii_top(b, w);
    assert forall|i: int| 0 <= i < top.len() implies shows(#[trigger] top[i], w + 2) by {
        assert(ascii_lines(b, nt, tw)[i] == top[i]);
        assert(no_esc(top[i]));
        lemma_shows_plain(top[i]);
    }
    lemma_shows_plain("|  "@);
    lemma_shows_plain(""@);
    lemma_shows_plain("  |"@);
    // Command.
    law_highlight_bounded(b.command@, b.span.start, b.span.end, inner);
    lemma_highlight_no_esc(b.command@, b.span.start, b.span.end, inner);
    lemma_highlight_shows(b.command@, b.span.start, b.span.end, inner);
    let plain = command_block(b, false, inner);
    assert(no_esc_lines(plain) && all_within(plain, inner)) by {
        assert forall|i: int| 0 <= i < plain.len() implies no_esc(#[trigger] plain[i])
            && plain[i].len() <= inner by {
            if i >= 2 {
                assert(plain[i] == span_label_lines(b)[i - 2]);
            }
        }
    }
    lemma_plain_fit(plain, inner);
    let cb = command_block(b, t.colors_enabled, inner);
    assert(all_fit(cb, inner)) by {
        assert forall|i: int| 0 <= i < cb.len() implies ends_plain(#[trigger] cb[i])
            && visible_len(cb[i]) <= inner by {
            if i >= 2 {
                assert(cb[i] == span_label_lines(b)[i - 2]);
                assert(plain[i] == span_label_lines(b)[i - 2]);
            }
            assert(ends_plain(plain[i]) && visible_len(plain[i]) <= inner);
        }
    }
    lemma_framed_all_shows("|  "@, 3, cb, ""@, 0, inner, "  |"@, 3);
    let blank = seq![ascii_blank(w)];
    assert(no_esc(ascii_blank(w)));
    lemma_shows_plain(ascii_blank(w));
    assert(ascii_blank(w).len() == w + 2);
    lemma_all_show_one(ascii_blank(w), w + 2);
    lemma_all_show_concat(ascii_framed(cb, w), blank, w + 2);
    // Explanation.
    let ex = ascii_explanation(b, t, w);
    if b.explanation is Some {
        reveal_strlit("EXPLANATION:");
        let label = seq!["EXPLANATION:"@];
        assert(no_esc_lines(label) && all_within(label, inner)) by {
            assert(label[0] == "EXPLANATION:"@);
        }
        lemma_plain_fit(label, inner);
        lemma_framed_all_shows("|  "@, 3, label, ""@, 0, inner, "  |"@, 3);
        let e = opt_view(b.explanation)->0;
        let lines = explanation_text_lines(b, t.colors_enabled, inner);
        if t.colors_enabled {
            lemma_markdown_ws_plain(e, 0, false, false);
            lemma_wrap_ends_plain(markdown_text(e, true), inner);
        } else {
            lemma_markdown_no_esc(e, 0, false, false);
            lemma_wrap_no_esc(markdown_text(e, false), inner);
            assert forall|i: int| 0 <= i < lines.len() implies ends_plain(#[trigger] lines[i]) by {
                assert(no_esc(lines[i]));
                lemma_shows_plain(lines[i]);
            }
        }
        assert(all_fit(lines, inner));
        lemma_framed_all_shows("|  "@, 3, lines, ""@, 0, inner, "  |"@, 3);
        lemma_all_show_concat(blank, ascii_framed(label, w), w + 2);
        lemma_all_show_concat(blank + ascii_framed(label, w), ascii_framed(lines, w), w + 2);
    }
    // Pattern, alternatives and the bottom rule hold no escape character.
    reveal_strlit("+");
    let rest = ascii_pattern(b, t, w) + ascii_alternatives(b, w) + seq![ascii_rule(w)];
    assert(ascii_pattern(b, t, w) == ascii_pattern(b, nt, w));
    assert(no_esc_lines(seq![ascii_rule(w)])) by {
        assert(seq![ascii_rule(w)][0] == ascii_rule(w));
    }
    assert(no_esc_lines(rest));
    let cmd = ascii_command(b, t, w);
    let ncmd = ascii_command(b, nt, w);
    let nex = ascii_explanation(b, nt, w);
    assert(ascii_lines(b, nt, tw) =~= top + ncmd + nex + rest);
    assert forall|i: int| 0 <= i < rest.len() implies shows(#[trigger] rest[i], w + 2) by {
        let k = top.len() + ncmd.len() + nex.len() + i;
        assert(ascii_lines(b, nt, tw)[k] == rest[i]);
        assert(no_esc(rest[i]));
        lemma_shows_plain(rest[i]);
    }
    lemma_all_show_concat(top, cmd, w + 2);
    lemma_all_show_concat(top + cmd, ex, w + 2);
    lemma_all_show_concat(top + cmd + ex, rest, w + 2);
    assert(ascii_lines(b, t, tw) =~= top + cmd + ex + rest);
}

// ---------------------------------------------------------------------------
// Dispatch on the border style
// ---------------------------------------------------------------------------

/// The explanation can be wrapped to the width that the theme's border
/// style gives it.
pub open spec fn render_defined(b: DenialBox, t: Theme, tw: u16) -> bool {
    match t.border_style {
        BorderStyle::Minimal => explanation_wraps(b, t.colors_enabled, sat_sub(box_width(tw) as int, 2)),
        _ => explanation_wraps(b, t.colors_enabled, sat_sub(box_width(tw) as int, 4)),
    }
}

/// The denial as the theme's border style draws it, escape sequences
/// stripped when colors are off (the ASCII box strips none).
pub open spec fn rendered(b: DenialBox, t: Theme, tw: u16) -> Seq<char> {
    match t.border_style {
        BorderStyle::Unicode => {
            let out = join_lines(unicode_lines(b, t, tw));
            if t.colors_enabled {
                out
            } else {
                strip_ansi(out)
            }
        },
        BorderStyle::Ascii => join_lines(ascii_lines(b, t, tw)),
        BorderStyle::Minimal => {
            let out = join_lines(minimal_lines(b, t, tw));
            if t.colors_enabled {
                out
            } else {
                strip_ansi(out)
            }
        },
    }
}

impl DenialBox {
    /// Whether `render_plain` is defined for a terminal `term_width` columns wide.
    pub fn plain_is_defined(&self, term_width: u16) -> (r: bool)
        ensures
            r == explanation_wraps(*self, false, sat_sub(box_width(term_width) as int, 2)),
    {
        self.explanation_wraps_to(false, box_width_exec(term_width).saturating_sub(2))
    }

    /// Whether `render` is defined with `theme` for a terminal `term_width`
    /// columns wide.
    pub fn render_is_defined(&self, theme: &Theme, term_width: u16) -> (r: bool)
        ensures
            r == render_defined(*self, *theme, term_width),
    {
        let w = box_width_exec(term_width);
        match theme.border_style {
            BorderStyle::Minimal => self.explanation_wraps_to(theme.colors_enabled, w.saturating_sub(2)),
            _ => self.explanation_wraps_to(theme.colors_enabled, w.saturating_sub(4)),
        }
    }
}

impl DenialBox {
    /// Render the denial box with the given theme, for a terminal
    /// `term_width` columns wide.
    pub fn render(&self, theme: &Theme, term_width: u16) -> (r: String)
        requires
            render_defined(*self, *theme, term_width),
        ensures
            r@ == rendered(*self, *theme, term_width),
            !theme.colors_enabled && (theme.border_style != BorderStyle::Ascii || escape_free(*self))
                ==> !r@.contains(esc()),
    {
        match theme.border_style {
            BorderStyle::Unicode => {
                let output = self.render_unicode(theme, term_width);
                if theme.colors_enabled {
                    output
                } else {
                    let r = strip_ansi_codes(output.as_str());
                    proof {
                        crate::text::lemma_strip_ansi_no_esc(output@);
                    }
                    r
                }
            },
            BorderStyle::Ascii => {
                let r = self.render_ascii(theme, term_width);
                proof {
                    if !theme.colors_enabled && escape_free(*self) {
                        law_ascii_without_colors_has_no_escapes(*self, *theme, term_width);
                    }
                }
                r
            },
            BorderStyle::Minimal => {
                let output = self.render_minimal(theme, term_width);
                if theme.colors_enabled {
                    output
                } else {
                    let r = strip_ansi_codes(output.as_str());
                    proof {
                        crate::text::lemma_strip_ansi_no_esc(output@);
                    }
                    r
                }
            },
        }
    }
}

// ---------------------------------------------------------------------------
// Console panel
// ---------------------------------------------------------------------------

/// The box drawn around a console panel.
#[derive(Clone, Copy, Debug, PartialEq, Eq, Structural)]
pub enum PanelFrame {
    Double,
    Heavy,
    Rounded,
    Ascii,
    Minimal,
}

/// The lines joined by newlines, with none after the last.
pub open spec fn join_with_newlines(ls: Seq<Seq<char>>) -> Seq<char>
    decreases ls.len(),
{
    if ls.len() == 0 {
        Seq::empty()
    } else if ls.len() == 1 {
        ls[0]
    } else {
        join_with_newlines(ls.drop_last()) + "\n"@ + ls.last()
    }
}

fn join_with_newlines_exec(ls: &Vec<String>) -> (r: String)
    ensures
        r@ == join_with_newlines(views(ls@)),
{
    let mut r = String::new();
    let mut i: usize = 0;
    while i < ls.len()
        invariant
            i <= ls.len(),
            r@ == join_with_newlines(views(ls@).take(i as int)),
        decreases ls.len() - i,
    {
        if i > 0 {
            r.append("\n");
        }
        r.append(ls[i].as_str());
        i = i + 1;
        assert(views(ls@).take(i as int).drop_last() =~= views(ls@).take(i - 1));
    }
    assert(views(ls@).take(ls.len() as int) =~= views(ls@));
    r
}

/// The width of a console panel for a terminal `tw` columns wide: eight
/// columns less, and never under forty.
pub open spec fn panel_width(tw: u16) -> nat {
    let w = sat_sub(tw as int, 8);
    if w >= 40 {
        w
    } else {
        40
    }
}

/// The box of a console panel: by severity for Unicode borders.
pub open spec fn panel_frame(t: Theme, severity: Severity) -> PanelFrame {
    match t.border_style {
        BorderStyle::Unicode => match severity {
            Severity::Critical => PanelFrame::Double,
            Severity::High => PanelFrame::Heavy,
            _ => PanelFrame::Rounded,
        },
        BorderStyle::Ascii => PanelFrame::Ascii,
        BorderStyle::Minimal => PanelFrame::Minimal,
    }
}

/// The explanation lines of a console panel: with colors, the rendered
/// markdown split into lines; without, wrapped to `width`.
pub open spec fn panel_explanation_lines(b: DenialBox, use_color: bool, width: nat) -> Seq<
    Seq<char>,
> {
    match opt_view(b.explanation) {
        Some(e) => if use_color {
            text_lines(markdown_text(e, true))
        } else {
            wrap(markdown_text(e, false), width)
        },
        None => Seq::empty(),
    }
}

/// The explanation of a console panel can be laid out.
pub open spec fn panel_defined(b: DenialBox, t: Theme, tw: u16) -> bool {
    t.colors_enabled || explanation_wraps(b, false, panel_width(tw))
}

/// The header of a console panel.
pub open spec fn panel_header(b: DenialBox, sm: Seq<char>) -> Seq<char> {
    match opt_view(b.branch_name) {
        Some(br) => if b.is_protected_branch {
            "["@ + sm + "]\u{1f6d1} BLOCKED (Protected Branch: "@ + br + ")[/]"@
        } else {
            "["@ + sm + "]\u{1f6d1} BLOCKED (Branch: "@ + br + ")[/]"@
        },
        None => "["@ + sm + "]\u{1f6d1} COMMAND BLOCKED[/]"@,
    }
}

/// The first part of a console panel: header, caution, command.
pub open spec fn panel_head(b: DenialBox, t: Theme, tw: u16) -> Seq<Seq<char>> {
    let sm = severity_markup(t, b.severity);
    let (cl, cr) = highlighted(b.command@, b.span.start, b.span.end, false, panel_width(tw));
    seq![panel_header(b, sm), Seq::empty()] + (if b.is_protected_branch {
        seq!["["@ + sm + "]Extra caution on protected branches.[/]"@, Seq::empty()]
    } else {
        Seq::empty()
    }) + seq!["[dim]Command:[/]  [bold]"@ + cl + "[/]"@, "[dim]"@ + cr + "[/]"@] + surrounded(
        "[dim]"@,
        span_label_lines(b),
        "[/]"@,
    )
}

/// The explanation of a console panel.
pub open spec fn panel_explanation(b: DenialBox, t: Theme, tw: u16) -> Seq<Seq<char>> {
    if b.explanation is Some {
        seq![Seq::empty(), "["@ + severity_markup(t, b.severity) + "]Explanation:[/]"@]
            + panel_explanation_lines(b, t.colors_enabled, panel_width(tw))
    } else {
        Seq::empty()
    }
}

/// The pattern and the alternatives of a console panel.
pub open spec fn panel_pattern(b: DenialBox, t: Theme) -> Seq<Seq<char>> {
    seq![Seq::empty()] + surrounded(
        "[dim]"@,
        denial_pattern_lines(b, severity_name(b.severity), t.colors_enabled),
        "[/]"@,
    ) + if b.alternatives@.len() > 0 {
        seq![Seq::empty(), "["@ + markup_name(t.success_color) + "]Safe alternatives:[/]"@]
            + prefixed("  [green]\u{2022}[/] "@, views(b.alternatives@))
    } else {
        Seq::empty()
    }
}

/// The allow-once code of a console panel.
pub open spec fn panel_allow_once(b: DenialBox) -> Seq<Seq<char>> {
    match opt_view(b.allow_once_code) {
        Some(code) => seq![
            Seq::empty(),
            "[dim]\u{2500}\u{2500}\u{2500}\u{2500}\u{2500}\u{2500}\u{2500}\u{2500}\u{2500}\u{2500}\u{2500}\u{2500}\u{2500}\u{2500}\u{2500}\u{2500}\u{2500}\u{2500}\u{2500}\u{2500}\u{2500}\u{2500}\u{2500}\u{2500}\u{2500}\u{2500}\u{2500}\u{2500}\u{2500}\u{2500}\u{2500}\u{2500}\u{2500}\u{2500}\u{2500}\u{2500}\u{2500}[/]"@,
            "[yellow]To allow once:[/] [bold]dcg allow-once "@ + code + "[/]"@,
        ],
        None => Seq::empty(),
    }
}

/// The rest of a console panel: explanation, pattern, alternatives, and the
/// allow-once code.
pub open spec fn panel_tail(b: DenialBox, t: Theme, tw: u16) -> Seq<Seq<char>> {
    panel_explanation(b, t, tw) + panel_pattern(b, t) + panel_allow_once(b)
}

/// The text inside a console panel, in console markup.
pub open spec fn panel_content(b: DenialBox, t: Theme, tw: u16) -> Seq<char> {
    join_with_newlines(panel_head(b, t, tw) + panel_tail(b, t, tw))
}

fn panel_frame_exec(t: &Theme, severity: Severity) -> (f: PanelFrame)
    ensures
        f == panel_frame(*t, severity),
{
    match t.border_style {
        BorderStyle::Unicode => match severity {
            Severity::Critical => PanelFrame::Double,
            Severity::High => PanelFrame::Heavy,
            _ => PanelFrame::Rounded,
        },
        BorderStyle::Ascii => PanelFrame::Ascii,
        BorderStyle::Minimal => PanelFrame::Minimal,
    }
}

fn panel_width_exec(tw: u16) -> (w: usize)
    ensures
        w == panel_width(tw),
{
    let w = tw.saturating_sub(8);
    let w = if w >= 40 {
        w
    } else {
        40
    };
    w as usize
}

fn push_panel_head(lines: &mut Vec<String>, b: &DenialBox, t: &Theme, tw: u16)
    ensures
        views(final(lines)@) == views(old(lines)@) + panel_head(*b, *t, tw),
{
    let sm = severity_markup_of(t, b.severity);
    let header = match &b.branch_name {
        Some(br) => if b.is_protected_branch {
            cat5("[", sm.as_str(), "]\u{1f6d1} BLOCKED (Protected Branch: ", br.as_str(), ")[/]")
        } else {
            cat5("[", sm.as_str(), "]\u{1f6d1} BLOCKED (Branch: ", br.as_str(), ")[/]")
        },
        None => cat3("[", sm.as_str(), "]\u{1f6d1} COMMAND BLOCKED[/]"),
    };
    push_line(lines, header);
    push_blank(lines);
    if b.is_protected_branch {
        push_line(lines, cat3("[", sm.as_str(), "]Extra caution on protected branches.[/]"));
        push_blank(lines);
    }
    let h = format_highlighted_command(b.command.as_str(), &b.span, false, panel_width_exec(tw));
    push_line(lines, cat3("[dim]Command:[/]  [bold]", h.command_line.as_str(), "[/]"));
    push_line(lines, cat3("[dim]", h.caret_line.as_str(), "[/]"));
    let mut label: Vec<String> = Vec::new();
    match h.label_line {
        Some(l) => push_line(&mut label, l),
        None => {},
    }
    assert(views(label@) =~= span_label_lines(*b));
    push_surrounded(lines, "[dim]", &label, "[/]");
    assert(views(lines@) =~= views(old(lines)@) + panel_head(*b, *t, tw));
}

fn push_all(lines: &mut Vec<String>, src: &Vec<String>)
    ensures
        views(final(lines)@) == views(old(lines)@) + views(src@),
{
    let mut i: usize = 0;
    while i < src.len()
        invariant
            i <= src.len(),
            views(lines@) == views(old(lines)@) + views(src@).take(i as int),
        decreases src.len() - i,
    {
        push_line(lines, owned(src[i].as_str()));
        i = i + 1;
        assert(views(lines@) =~= views(old(lines)@) + views(src@).take(i as int));
    }
    assert(views(src@).take(src.len() as int) =~= views(src@));
}

fn push_panel_explanation(lines: &mut Vec<String>, b: &DenialBox, t: &Theme, tw: u16)
    requires
        panel_defined(*b, *t, tw),
    ensures
        views(final(lines)@) == views(old(lines)@) + panel_explanation(*b, *t, tw),
{
    match &b.explanation {
        Some(e) => {
            let sm = severity_markup_of(t, b.severity);
            push_blank(lines);
            push_line(lines, cat3("[", sm.as_str(), "]Explanation:[/]"));
            let ex = if t.colors_enabled {
                let rendered = format_markdown_explanation(e.as_str(), true);
                text_lines_of(rendered.as_str())
            } else {
                explanation_lines(e.as_str(), false, panel_width_exec(tw))
            };
            push_all(lines, &ex);
        },
        None => {},
    }
    assert(views(lines@) =~= views(old(lines)@) + panel_explanation(*b, *t, tw));
}

fn push_panel_pattern(lines: &mut Vec<String>, b: &DenialBox, t: &Theme, pattern_lines: &Vec<String>)
    requires
        views(pattern_lines@) == denial_pattern_lines(*b, severity_name(b.severity), t.colors_enabled),
    ensures
        views(final(lines)@) == views(old(lines)@) + panel_pattern(*b, *t),
{
    push_blank(lines);
    push_surrounded(lines, "[dim]", pattern_lines, "[/]");
    if b.alternatives.len() > 0 {
        push_blank(lines);
        let success = color_to_markup(t.success_color);
        push_line(lines, cat3("[", success.as_str(), "]Safe alternatives:[/]"));
        push_prefixed(lines, "  [green]\u{2022}[/] ", &b.alternatives);
    }
    assert(views(lines@) =~= views(old(lines)@) + panel_pattern(*b, *t));
}

fn push_panel_allow_once(lines: &mut Vec<String>, b: &DenialBox)
    ensures
        views(final(lines)@) == views(old(lines)@) + panel_allow_once(*b),
{
    match &b.allow_once_code {
        Some(code) => {
            push_blank(lines);
            push_str_line(
                lines,
                "[dim]\u{2500}\u{2500}\u{2500}\u{2500}\u{2500}\u{2500}\u{2500}\u{2500}\u{2500}\u{2500}\u{2500}\u{2500}\u{2500}\u{2500}\u{2500}\u{2500}\u{2500}\u{2500}\u{2500}\u{2500}\u{2500}\u{2500}\u{2500}\u{2500}\u{2500}\u{2500}\u{2500}\u{2500}\u{2500}\u{2500}\u{2500}\u{2500}\u{2500}\u{2500}\u{2500}\u{2500}\u{2500}[/]",
            );
            push_line(
                lines,
                cat3("[yellow]To allow once:[/] [bold]dcg allow-once ", code.as_str(), "[/]"),
            );
        },
        None => {},
    }
    assert(views(lines@) =~= views(old(lines)@) + panel_allow_once(*b));
}

/// What a console panel is drawn from: its text in console markup, its
/// title, the markup of its border color, its box, its padding, and its
/// width.
#[derive(Clone, Debug)]
pub struct PanelLayout {
    pub content: String,
    pub title: String,
    pub border_style: String,
    pub frame: PanelFrame,
    pub pad_lines: usize,
    pub pad_columns: usize,
    pub width: usize,
}

impl DenialBox {
    /// The console panel for this denial, for a terminal `term_width`
    /// columns wide: the command windowed to the panel's width, the
    /// explanation as lines, the pattern, the alternatives and the
    /// allow-once code, in console markup; the box by border style and
    /// severity; the border in the severity's color.
    pub fn panel_layout(&self, theme: &Theme, term_width: u16) -> (r: PanelLayout)
        requires
            panel_defined(*self, *theme, term_width),
        ensures
            r.content@ == panel_content(*self, *theme, term_width),
            r.title@ == "[bold] DCG [/]"@,
            r.border_style@ == markup_name(theme.severity_color(self.severity)),
            r.frame == panel_frame(*theme, self.severity),
            r.pad_lines == 1,
            r.pad_columns == 2,
            r.width == panel_width(term_width),
    {
        let pattern_lines = format_pattern_lines(
            self.pattern_id.as_str(),
            theme.severity_label(self.severity),
            opt_str(&self.pattern_regex),
            theme.colors_enabled,
        );
        let mut lines: Vec<String> = Vec::new();
        push_panel_head(&mut lines, self, theme, term_width);
        push_panel_explanation(&mut lines, self, theme, term_width);
        push_panel_pattern(&mut lines, self, theme, &pattern_lines);
        push_panel_allow_once(&mut lines, self);
        assert(views(lines@) =~= panel_head(*self, *theme, term_width) + panel_tail(
            *self,
            *theme,
            term_width,
        ));
        PanelLayout {
            content: join_with_newlines_exec(&lines),
            title: owned("[bold] DCG [/]"),
            border_style: color_to_markup(theme.color_for_severity(self.severity)),
            frame: panel_frame_exec(theme, self.severity),
            pad_lines: 1,
            pad_columns: 2,
            width: panel_width_exec(term_width),
        }
    }
}

impl DenialBox {
    /// Whether `panel_layout` is defined with `theme` for a terminal
    /// `term_width` columns wide.
    pub fn panel_is_defined(&self, theme: &Theme, term_width: u16) -> (r: bool)
        ensures
            r == panel_defined(*self, *theme, term_width),
    {
        theme.colors_enabled || self.explanation_wraps_to(false, panel_width_exec(term_width))
    }
}

// ---------------------------------------------------------------------------
// Drawing the console panel
// ---------------------------------------------------------------------------

/// The characters of a panel's box, row by row, as `rich_rust`'s `BoxChars`
/// holds them; each row is left edge, line, divider, right edge.
#[derive(Clone, Copy, Debug)]
pub struct PanelBox {
    pub top: [char; 4],
    pub head: [char; 4],
    pub head_row: [char; 4],
    pub mid: [char; 4],
    pub row: [char; 4],
    pub foot_row: [char; 4],
    pub foot: [char; 4],
    pub bottom: [char; 4],
    /// Whether the box uses ASCII characters only.
    pub ascii: bool,
}

/// The boxes a console panel can be drawn with, one for each frame.
#[derive(Clone, Copy, Debug)]
pub struct PanelBoxes {
    pub double: PanelBox,
    pub heavy: PanelBox,
    pub rounded: PanelBox,
    pub ascii: PanelBox,
    pub minimal: PanelBox,
}

/// The box of `boxes` for `frame`.
pub open spec fn box_for(boxes: PanelBoxes, frame: PanelFrame) -> PanelBox {
    match frame {
        PanelFrame::Double => boxes.double,
        PanelFrame::Heavy => boxes.heavy,
        PanelFrame::Rounded => boxes.rounded,
        PanelFrame::Ascii => boxes.ascii,
        PanelFrame::Minimal => boxes.minimal,
    }
}

fn box_for_exec(boxes: &PanelBoxes, frame: PanelFrame) -> (b: PanelBox)
    ensures
        b == box_for(*boxes, frame),
{
    match frame {
        PanelFrame::Double => boxes.double,
        PanelFrame::Heavy => boxes.heavy,
        PanelFrame::Rounded => boxes.rounded,
        PanelFrame::Ascii => boxes.ascii,
        PanelFrame::Minimal => boxes.minimal,
    }
}

/// The text that `rich_rust` draws for a panel of `content` with `title`,
/// the border in `border_style` markup, the box `frame`, the padding and the
/// width.
pub uninterp spec fn panel_text(
    content: Seq<char>,
    title: Seq<char>,
    border_style: Seq<char>,
    frame: PanelBox,
    pad_lines: usize,
    pad_columns: usize,
    width: usize,
) -> Seq<char>;

/// Draws a panel with `rich_rust`: `Panel::from_text(content)`, `.title`,
/// `.border_style` with the style that `Style::parse` gives (the default style
/// when it does not parse), `.box_style` with the box built by
/// `BoxChars::new` from `frame` (leaked, as `box_style` takes a `'static`
/// box), `.padding`, then `Panel::render_plain(width)`.
/// The contract claims only that the text drawn is a function of these
/// arguments (`panel_text`); what that text is, is left unsaid.
#[verifier::external_body]
fn draw_panel(
    content: &str,
    title: &str,
    border_style: &str,
    frame: PanelBox,
    pad_lines: usize,
    pad_columns: usize,
    width: usize,
) -> (r: String)
    ensures
        r@ == panel_text(content@, title@, border_style@, frame, pad_lines, pad_columns, width),
{
    let f = frame;
    let chars = rich_rust::prelude::BoxChars::new(
        f.top, f.head, f.head_row, f.mid, f.row, f.foot_row, f.foot, f.bottom, f.ascii,
    );
    rich_rust::renderables::Panel::from_text(content).title(title).border_style(
        rich_rust::style::Style::parse(border_style).unwrap_or_default(),
    ).box_style(Box::leak(Box::new(chars))).padding((pad_lines, pad_columns)).render_plain(width)
}

impl DenialBox {
    /// Render the denial inside a console panel drawn by `rich_rust`, for a
    /// terminal `term_width` columns wide, with the box for its frame taken
    /// from `boxes`.
    pub fn render_rich(&self, theme: &Theme, term_width: u16, boxes: &PanelBoxes) -> (r: String)
        requires
            panel_defined(*self, *theme, term_width),
        ensures
            r@ == panel_text(
                panel_content(*self, *theme, term_width),
                "[bold] DCG [/]"@,
                markup_name(theme.severity_color(self.severity)),
                box_for(*boxes, panel_frame(*theme, self.severity)),
                1,
                2,
                panel_width(term_width) as usize,
            ),
    {
        let layout = self.panel_layout(theme, term_width);
        draw_panel(
            layout.content.as_str(),
            layout.title.as_str(),
            layout.border_style.as_str(),
            box_for_exec(boxes, layout.frame),
            layout.pad_lines,
            layout.pad_columns,
            layout.width,
        )
    }
}

/// The command in a console panel is windowed to the panel's width: its line
/// shows at most that many characters of the command, and a match no longer
/// than the window is shown whole, however long the command.
pub proof fn law_panel_command_windowed(b: DenialBox, t: Theme, tw: u16)
    ensures
        ({
            let w = panel_width(tw);
            let cl = highlighted(b.command@, b.span.start, b.span.end, false, w).0;
            let k = if b.is_protected_branch {
                4int
            } else {
                2int
            };
            let s = chars_before(b.command@, b.span.start as int) as int;
            let e = chars_before(b.command@, b.span.end as int) as int;
            &&& panel_head(b, t, tw)[k] == "[dim]Command:[/]  [bold]"@ + cl + "[/]"@
            &&& cl.len() <= w
            &&& (s <= e && e - s <= w ==> exists|j: int|
                0 <= j && j + (e - s) <= cl.len() && #[trigger] cl.subrange(j, j + (e - s))
                    == b.command@.subrange(s, e))
        }),
{
    let w = panel_width(tw);
    law_highlight_bounded(b.command@, b.span.start, b.span.end, w);
    let s = chars_before(b.command@, b.span.start as int) as int;
    let e = chars_before(b.command@, b.span.end as int) as int;
    if s <= e && e - s <= w {
        law_highlight_span_shown(b.command@, b.span.start, b.span.end, w);
    }
}

// ---------------------------------------------------------------------------
// The frames of the boxes
// ---------------------------------------------------------------------------

/// `l` starts with `x` and ends with `y`.
pub open spec fn sided(l: Seq<char>, x: char, y: char) -> bool {
    l.len() >= 2 && l[0] == x && l.last() == y
}

/// Every line of `ls` starts with `x` and ends with `y`.
pub open spec fn all_sided(ls: Seq<Seq<char>>, x: char, y: char) -> bool {
    forall|i: int| 0 <= i < ls.len() ==> sided(#[trigger] ls[i], x, y)
}

proof fn lemma_all_sided_concat(a: Seq<Seq<char>>, b: Seq<Seq<char>>, x: char, y: char)
    requires
        all_sided(a, x, y),
        all_sided(b, x, y),
    ensures
        all_sided(a + b, x, y),
{
    assert forall|i: int| 0 <= i < (a + b).len() implies sided(#[trigger] (a + b)[i], x, y) by {
        if i < a.len() {
            assert((a + b)[i] == a[i]);
        } else {
            assert((a + b)[i] == b[i - a.len()]);
        }
    }
}

proof fn lemma_sided_concat(a: Seq<char>, m: Seq<char>, c: Seq<char>, x: char, y: char)
    requires
        a.len() > 0,
        a[0] == x,
        c.len() > 0,
        c.last() == y,
    ensures
        sided(a + m + c, x, y),
{
    assert((a + m + c)[0] == a[0]);
    assert((a + m + c).last() == c.last());
}

proof fn lemma_framed_all_sided(
    a: Seq<char>,
    ls: Seq<Seq<char>>,
    b: Seq<char>,
    pw: nat,
    c: Seq<char>,
    x: char,
    y: char,
)
    requires
        a.len() > 0,
        a[0] == x,
        c.len() > 0,
        c.last() == y,
    ensures
        all_sided(framed_all(a, ls, b, pw, c), x, y),
{
    assert forall|i: int| 0 <= i < framed_all(a, ls, b, pw, c).len() implies sided(
        #[trigger] framed_all(a, ls, b, pw, c)[i],
        x,
        y,
    ) by {
        lemma_sided_concat(a, ls[i] + b + padding(ls[i], pw), c, x, y);
        assert(framed(a, ls[i], b, pw, c) =~= a + (ls[i] + b + padding(ls[i], pw)) + c);
    }
}

proof fn lemma_one_sided(l: Seq<char>, x: char, y: char)
    requires
        sided(l, x, y),
    ensures
        all_sided(seq![l], x, y),
{
    assert(seq![l][0] == l);
}

/// The frame of an ASCII box: its first and third lines and its last line
/// are rules `+---+` as wide as the box, the second holds the title, the
/// caution for a protected branch comes next, and every other line starts
/// and ends with `|`.
pub proof fn law_ascii_box_frame(b: DenialBox, t: Theme, tw: u16)
    ensures
        ({
            let w = box_width(tw);
            let ls = ascii_lines(b, t, tw);
            let header = ascii_header(b);
            &&& ls.len() >= 6
            &&& ls[0] == ascii_rule(w) && ls[2] == ascii_rule(w) && ls.last() == ascii_rule(w)
            &&& ascii_rule(w) == "+"@ + repeat('-', w) + "+"@
            &&& ls[1] == "|"@ + header + repeat(' ', sat_sub(w as int, header.len() as int)) + "|"@
            &&& header == " !  "@ + blocked_title(opt_view(b.branch_name), b.is_protected_branch)
                + " "@
            &&& (b.is_protected_branch ==> ls[3] == framed(
                "|  "@,
                "!!  Extra caution on protected branches."@,
                ""@,
                sat_sub(w as int, 4),
                "  |"@,
            ))
            &&& (!b.is_protected_branch ==> ls[3] == ascii_framed(
                command_block(b, t.colors_enabled, sat_sub(w as int, 4)),
                w,
            )[0])
            &&& forall|i: int| 3 <= i < ls.len() - 1 ==> sided(#[trigger] ls[i], '|', '|')
        }),
{
    reveal_strlit("|");
    reveal_strlit("|  ");
    reveal_strlit("|    ");
    reveal_strlit("  |");
    let w = box_width(tw);
    let inner = sat_sub(w as int, 4);
    let top = ascii_top(b, w);
    let cmd = ascii_command(b, t, w);
    let ex = ascii_explanation(b, t, w);
    let pat = ascii_pattern(b, t, w);
    let alts = ascii_alternatives(b, w);
    let bottom = seq![ascii_rule(w)];
    let ls = ascii_lines(b, t, tw);
    assert(ls =~= top + cmd + ex + pat + alts + bottom);
    let blank = seq![ascii_blank(w)];
    lemma_one_sided(ascii_blank(w), '|', '|');
    let caution = seq!["!!  Extra caution on protected branches."@];
    lemma_framed_all_sided("|  "@, caution, ""@, inner, "  |"@, '|', '|');
    let top_rest = if b.is_protected_branch {
        ascii_framed(caution, w) + blank
    } else {
        Seq::empty()
    };
    lemma_all_sided_concat(ascii_framed(caution, w), blank, '|', '|');
    assert(top =~= seq![ascii_rule(w), ls[1], ascii_rule(w)] + top_rest);
    let cb = command_block(b, t.colors_enabled, inner);
    lemma_framed_all_sided("|  "@, cb, ""@, inner, "  |"@, '|', '|');
    lemma_all_sided_concat(ascii_framed(cb, w), blank, '|', '|');
    let label = seq!["EXPLANATION:"@];
    lemma_framed_all_sided("|  "@, label, ""@, inner, "  |"@, '|', '|');
    let el = explanation_text_lines(b, t.colors_enabled, inner);
    lemma_framed_all_sided("|  "@, el, ""@, inner, "  |"@, '|', '|');
    lemma_all_sided_concat(blank, ascii_framed(label, w), '|', '|');
    lemma_all_sided_concat(blank + ascii_framed(label, w), ascii_framed(el, w), '|', '|');
    assert(all_sided(Seq::<Seq<char>>::empty(), '|', '|'));
    let pl = denial_pattern_lines(b, severity_name(b.severity), false);
    lemma_framed_all_sided("|  "@, pl, ""@, inner, "  |"@, '|', '|');
    lemma_all_sided_concat(blank, ascii_framed(pl, w), '|', '|');
    let sa = seq!["Safe alternatives:"@];
    lemma_framed_all_sided("|  "@, sa, ""@, inner, "  |"@, '|', '|');
    let bullets = prefixed("* "@, views(b.alternatives@));
    lemma_framed_all_sided("|    "@, bullets, ""@, sat_sub(w as int, 6), "  |"@, '|', '|');
    lemma_all_sided_concat(blank, ascii_framed(sa, w), '|', '|');
    lemma_all_sided_concat(
        blank + ascii_framed(sa, w),
        framed_all("|    "@, bullets, ""@, sat_sub(w as int, 6), "  |"@),
        '|',
        '|',
    );
    lemma_all_sided_concat(top_rest, cmd, '|', '|');
    lemma_all_sided_concat(top_rest + cmd, ex, '|', '|');
    lemma_all_sided_concat(top_rest + cmd + ex, pat, '|', '|');
    lemma_all_sided_concat(top_rest + cmd + ex + pat, alts, '|', '|');
    let mid = top_rest + cmd + ex + pat + alts;
    assert(ls =~= seq![ascii_rule(w), ls[1], ascii_rule(w)] + mid + bottom);
    assert forall|i: int| 3 <= i < ls.len() - 1 implies sided(#[trigger] ls[i], '|', '|') by {
        assert(ls[i] == mid[i - 3]);
    }
    assert(cmd.len() >= 3);
    if b.is_protected_branch {
        assert(ls[3] == ascii_framed(caution, w)[0]);
    } else {
        assert(ls[3] == cmd[0]);
        assert(cmd[0] == ascii_framed(cb, w)[0]);
    }
}

/// The frame of a Unicode box, escape sequences left out: when everything
/// shown in it fits, its first and third lines and its last line are rules
/// `╭─╮`, `├─┤` and `╰─╯` as wide as the box, the second holds the title,
/// the caution for a protected branch comes next (else the command), and
/// every other line starts and ends with `│`.
#[verifier::spinoff_prover]
#[verifier::rlimit(80)]
pub proof fn law_unicode_box_frame(b: DenialBox, t: Theme, tw: u16)
    requires
        escape_free(b),
        fits_unicode_box(b, t, box_width(tw)),
    ensures
        ({
            let w = box_width(tw);
            let ls = unicode_lines(b, t, tw);
            let sl = stripped(ls);
            let header = uni_header(b);
            let caution = "\u{26a0}  Extra caution on protected branches."@;
            let sev = ansi_code(t.severity_color(b.severity));
            &&& sl.len() >= 6
            &&& sl[0] == "\u{256d}"@ + repeat('\u{2500}', w) + "\u{256e}"@
            &&& sl[2] == "\u{251c}"@ + repeat('\u{2500}', w) + "\u{2524}"@
            &&& sl.last() == "\u{2570}"@ + repeat('\u{2500}', w) + "\u{256f}"@
            &&& sl[1] == seq!['\u{2502}'] + header + repeat(
                ' ',
                sat_sub(w as int, header.len() as int),
            ) + seq!['\u{2502}']
            &&& header == " \u{26d4}  "@ + blocked_title(opt_view(b.branch_name), b.is_protected_branch)
                + " "@
            &&& (b.is_protected_branch ==> sl[3] == "\u{2502}  "@ + caution + repeat(
                ' ',
                sat_sub(sat_sub(w as int, 4) as int, caution.len() as int),
            ) + "  \u{2502}"@)
            &&& (!b.is_protected_branch ==> ls[3] == uni_command(b, t, sev, w)[0])
            &&& forall|i: int| 3 <= i < sl.len() - 1 ==> sided(#[trigger] sl[i], '\u{2502}', '\u{2502}')
        }),
{
    reveal_strlit("\u{2570}");
    reveal_strlit("\u{256f}");
    reveal_strlit("\u{256d}");
    reveal_strlit("\u{256e}");
    reveal_strlit("\u{251c}");
    reveal_strlit("\u{2524}");
    let w = box_width(tw);
    let inner = sat_sub(w as int, 4);
    let sev = ansi_code(t.severity_color(b.severity));
    let succ = ansi_code(t.success_color);
    lemma_ansi_code_params(t.severity_color(b.severity));
    lemma_ansi_code_params(t.success_color);
    lemma_uni_top_shows(b, sev, w);
    lemma_uni_caution_shows(b, sev, w);
    lemma_uni_command_shows(b, t, sev, w);
    lemma_uni_explanation_shows(b, t, sev, w);
    lemma_uni_pattern_shows(b, t, sev, w);
    lemma_uni_alternatives_shows(b, sev, succ, w);
    let bottom = uni_rule(sev, w, "\u{2570}"@, "\u{256f}"@);
    lemma_uni_rule_shows(sev, w, "\u{2570}"@, "\u{256f}"@);
    let top = uni_top(b, sev, w);
    let caution_ls = uni_caution(b, sev, w);
    let cmd = uni_command(b, t, sev, w);
    let ex = uni_explanation(b, t, sev, w);
    let pat = uni_pattern(b, t, sev, w);
    let alts = uni_alternatives(b, sev, succ, w);
    lemma_all_boxed_concat(caution_ls, cmd);
    lemma_all_boxed_concat(caution_ls + cmd, ex);
    lemma_all_boxed_concat(caution_ls + cmd + ex, pat);
    lemma_all_boxed_concat(caution_ls + cmd + ex + pat, alts);
    let mid = caution_ls + cmd + ex + pat + alts;
    let ls = unicode_lines(b, t, tw);
    assert(ls =~= top + mid + seq![bottom]);
    let sl = stripped(ls);
    assert(top.len() == 3);
    assert(cmd.len() >= 3);
    assert(sl[0] == strip_ansi(top[0]));
    assert(sl[1] == strip_ansi(top[1]));
    assert(sl[2] == strip_ansi(top[2]));
    assert(sl.last() == strip_ansi(bottom));
    assert forall|i: int| 3 <= i < sl.len() - 1 implies sided(#[trigger] sl[i], '\u{2502}', '\u{2502}') by {
        assert(ls[i] == mid[i - 3]);
        assert(boxed(mid[i - 3]));
    }
    if b.is_protected_branch {
        reveal_strlit("  \x1b[1;");
        reveal_strlit("\x1b[1;");
        reveal_strlit("  ");
        reveal_strlit("\u{26a0}  Extra caution on protected branches.");
        lemma_sgr_literals(sev);
        lemma_side_shows(sev);
        let bar = uni_bar(sev);
        let a = bar + "  \x1b[1;"@ + sev + "m"@;
        assert(a =~= (bar + "  "@) + sgr("1;"@ + sev));
        lemma_bar_prefix(bar + "  "@, 3, sgr("1;"@ + sev), 0);
        let caution = "\u{26a0}  Extra caution on protected branches."@;
        lemma_shows_plain(caution);
        lemma_framed_shows(a, 3, caution, caution.len(), "\x1b[0m"@, 0, inner, "  "@ + bar, 3);
        let pad = padding(caution, inner);
        lemma_shows_plain(pad);
        assert(strip_ansi(sgr("1;"@ + sev)) =~= Seq::<char>::empty());
        assert(strip_ansi("\x1b[0m"@) =~= Seq::<char>::empty());
        assert(ls[3] == caution_ls[0]);
        assert(sl[3] == strip_ansi(ls[3]));
        assert(strip_ansi(caution_ls[0]) =~= "\u{2502}  "@ + caution + pad + "  \u{2502}"@);
    } else {
        assert(ls[3] == cmd[0]);
    }
}

// ---------------------------------------------------------------------------
// What each layout shows, and where
// ---------------------------------------------------------------------------

/// The title of a denial names the branch, and says whether it is
/// protected, exactly when a branch is known.
pub proof fn law_blocked_title(branch: Option<Seq<char>>, protected: bool)
    ensures
        branch is None ==> blocked_title(branch, protected)
            == "BLOCKED: Destructive Command Detected"@,
        branch matches Some(n) ==> blocked_title(branch, protected) == if protected {
            "BLOCKED (Protected Branch: "@ + n + ")"@
        } else {
            "BLOCKED (Branch: "@ + n + ")"@
        },
{
}

/// The plain-text denial opens with its title, then an empty line; the
/// caution for a protected branch comes next exactly when the branch is
/// protected, else the command.
pub proof fn law_plain_header(b: DenialBox, tw: u16)
    ensures
        ({
            let ls = plain_lines(b, tw);
            let cl = highlighted(b.command@, b.span.start, b.span.end, false, tw as nat).0;
            &&& ls[0] == blocked_title(opt_view(b.branch_name), b.is_protected_branch)
            &&& ls[1] == Seq::<char>::empty()
            &&& b.is_protected_branch ==> ls[2] == "  !! Extra caution on protected branches."@
                && ls[3] == Seq::<char>::empty() && ls[4] == "  Command: "@ + cl
            &&& !b.is_protected_branch ==> ls[2] == "  Command: "@ + cl
        }),
{
    let ls = plain_lines(b, tw);
    let head = seq![blocked_title(opt_view(b.branch_name), b.is_protected_branch), Seq::empty()];
    let rest = plain_command(b, tw) + plain_explanation(b, tw) + seq![Seq::<char>::empty()]
        + prefixed("  "@, denial_pattern_lines(b, severity_name(b.severity), false))
        + plain_alternatives(b);
    assert(ls =~= head + plain_caution(b) + rest);
    let cl = highlighted(b.command@, b.span.start, b.span.end, false, tw as nat).0;
    assert(rest[0] == plain_command(b, tw)[0]);
    assert(plain_command(b, tw)[0] == "  Command: "@ + cl);
    if b.is_protected_branch {
        assert(ls[4] == rest[0]);
    } else {
        assert(ls[2] == rest[0]);
    }
}

/// The sections of a Unicode box, in order: the top with the title, the
/// caution for a protected branch, the command, the explanation (present
/// exactly when there is one: a heading, then its wrapped lines in order),
/// the pattern, the alternatives (present exactly when there are some: a
/// heading, then one bullet for each, in order), and the bottom rule.
pub proof fn law_unicode_box_sections(b: DenialBox, t: Theme, tw: u16)
    ensures
        ({
            let w = box_width(tw);
            let inner = sat_sub(w as int, 4);
            let sev = ansi_code(t.severity_color(b.severity));
            let succ = ansi_code(t.success_color);
            let bar = uni_bar(sev);
            let ex = uni_explanation(b, t, sev, w);
            let alts = uni_alternatives(b, sev, succ, w);
            &&& unicode_lines(b, t, tw) == uni_top(b, sev, w) + uni_caution(b, sev, w) + uni_command(
                b,
                t,
                sev,
                w,
            ) + ex + uni_pattern(b, t, sev, w) + alts + seq![
                uni_rule(sev, w, "\u{2570}"@, "\u{256f}"@),
            ]
            &&& (ex.len() > 0 <==> b.explanation is Some)
            &&& b.explanation is Some ==> ex[1] == framed(
                bar + "  "@,
                "\x1b[1;"@ + sev + "mExplanation:\x1b[0m"@,
                ""@,
                inner,
                "  "@ + bar,
            ) && ex.skip(2) == framed_all(
                bar + "  "@,
                explanation_text_lines(b, t.colors_enabled, inner),
                ""@,
                inner,
                "  "@ + bar,
            )
            &&& (alts.len() > 0 <==> b.alternatives@.len() > 0)
            &&& b.alternatives@.len() > 0 ==> alts[1] == framed(
                bar + "  \x1b["@ + succ + "m"@,
                "Safe alternatives:"@,
                "\x1b[0m"@,
                inner,
                "  "@ + bar,
            ) && alts.skip(2) == framed_all(
                bar + "    \x1b["@ + succ + "m"@,
                prefixed("\u{2022} "@, views(b.alternatives@)),
                "\x1b[0m"@,
                sat_sub(w as int, 6),
                "  "@ + bar,
            )
        }),
{
    let w = box_width(tw);
    let sev = ansi_code(t.severity_color(b.severity));
    let succ = ansi_code(t.success_color);
    let ex = uni_explanation(b, t, sev, w);
    let alts = uni_alternatives(b, sev, succ, w);
    if b.explanation is Some {
        assert(ex.skip(2) =~= framed_all(
            uni_bar(sev) + "  "@,
            explanation_text_lines(b, t.colors_enabled, sat_sub(w as int, 4)),
            ""@,
            sat_sub(w as int, 4),
            "  "@ + uni_bar(sev),
        ));
    }
    if b.alternatives@.len() > 0 {
        assert(alts.skip(2) =~= framed_all(
            uni_bar(sev) + "    \x1b["@ + succ + "m"@,
            prefixed("\u{2022} "@, views(b.alternatives@)),
            "\x1b[0m"@,
            sat_sub(w as int, 6),
            "  "@ + uni_bar(sev),
        ));
    }
}

/// A denial without a border opens with its title in the severity's color;
/// its explanation, present exactly when there is one, is a heading followed
/// by the wrapped lines, in order; it ends with the pattern lines, then, when
/// there are alternatives, a heading and one bullet for each, in order.
pub proof fn law_minimal_layout(b: DenialBox, t: Theme, tw: u16)
    ensures
        ({
            let sev = ansi_code(t.severity_color(b.severity));
            let succ = ansi_code(t.success_color);
            let ls = minimal_lines(b, t, tw);
            let ex = minimal_explanation(b, t, tw);
            let pl = surrounded(
                "  \x1b[2m"@,
                denial_pattern_lines(b, severity_name(b.severity), t.colors_enabled),
                "\x1b[0m"@,
            );
            let bullets = prefixed(
                "    \x1b["@ + succ + "m\u{2022}\x1b[0m "@,
                views(b.alternatives@),
            );
            let n = ls.len();
            &&& ls[0] == "\x1b["@ + sev + "m\u{26d4}  BLOCKED\x1b[0m: Destructive Command Detected"@
            &&& ls == minimal_head(b, t, tw) + ex + minimal_tail(b, t)
            &&& b.explanation is None ==> ex.len() == 0
            &&& b.explanation is Some ==> ex == seq![
                Seq::<char>::empty(),
                "  "@ + ("\x1b[1;"@ + sev + "mExplanation:\x1b[0m"@),
            ] + prefixed(
                "  "@,
                explanation_text_lines(
                    b,
                    t.colors_enabled,
                    sat_sub(box_width(tw) as int, 2),
                ),
            )
            &&& b.alternatives@.len() == 0 ==> ls.skip(n - pl.len()) == pl
            &&& b.alternatives@.len() > 0 ==> ls.skip(n - bullets.len()) == bullets
                && ls[n - bullets.len() - 1] == "  \x1b["@ + succ + "mSafe alternatives:\x1b[0m"@
                && ls.subrange(n - bullets.len() - 2 - pl.len(), n - bullets.len() - 2) == pl
        }),
{
    let sev = ansi_code(t.severity_color(b.severity));
    let succ = ansi_code(t.success_color);
    let ls = minimal_lines(b, t, tw);
    let head = minimal_head(b, t, tw);
    let ex = minimal_explanation(b, t, tw);
    let tail = minimal_tail(b, t);
    let pl = surrounded(
        "  \x1b[2m"@,
        denial_pattern_lines(b, severity_name(b.severity), t.colors_enabled),
        "\x1b[0m"@,
    );
    let bullets = prefixed("    \x1b["@ + succ + "m\u{2022}\x1b[0m "@, views(b.alternatives@));
    let n = ls.len();
    assert(ls[0] == head[0]);
    if b.alternatives@.len() == 0 {
        assert(tail =~= seq![Seq::<char>::empty()] + pl);
        assert(ls.skip(n - pl.len()) =~= pl);
    } else {
        let mid = seq![Seq::<char>::empty(), "  \x1b["@ + succ + "mSafe alternatives:\x1b[0m"@];
        assert(tail =~= seq![Seq::<char>::empty()] + pl + mid + bullets);
        assert(ls =~= head + ex + seq![Seq::<char>::empty()] + pl + mid + bullets);
        assert(ls.skip(n - bullets.len()) =~= bullets);
        assert(ls[n - bullets.len() - 1] == mid[1]);
        assert(ls.subrange(n - bullets.len() - 2 - pl.len(), n - bullets.len() - 2) =~= pl);
    }
}

// ---------------------------------------------------------------------------
// What the renderings show
// ---------------------------------------------------------------------------

/// `x` occurs in `s` as a contiguous piece.
pub open spec fn occurs(s: Seq<char>, x: Seq<char>) -> bool {
    exists|p: int| 0 <= p && p + x.len() <= s.len() && #[trigger] s.subrange(p, p + x.len()) == x
}

/// `s` ends with `x`.
pub open spec fn ends_with(s: Seq<char>, x: Seq<char>) -> bool {
    x.len() <= s.len() && s.skip(s.len() - x.len()) == x
}

proof fn lemma_occurs(u: Seq<char>, x: Seq<char>, v: Seq<char>)
    ensures
        occurs(u + x + v, x),
{
    let s = u + x + v;
    assert(s.subrange(u.len() as int, (u.len() + x.len()) as int) =~= x);
}

proof fn lemma_join_lines_concat(a: Seq<Seq<char>>, b: Seq<Seq<char>>)
    ensures
        join_lines(a + b) == join_lines(a) + join_lines(b),
    decreases b.len(),
{
    if b.len() == 0 {
        assert(a + b =~= a);
        assert(join_lines(a) + join_lines(b) =~= join_lines(a));
    } else {
        assert((a + b).drop_last() =~= a + b.drop_last());
        assert((a + b).last() == b.last());
        lemma_join_lines_concat(a, b.drop_last());
        assert(join_lines(a) + join_lines(b.drop_last()) + b.last() + "\n"@ =~= join_lines(a) + (
        join_lines(b.drop_last()) + b.last() + "\n"@));
    }
}

/// The lines of `x` appear, one after the other, in the text of `a + x + c`.
proof fn lemma_join_lines_occurs(a: Seq<Seq<char>>, x: Seq<Seq<char>>, c: Seq<Seq<char>>)
    ensures
        occurs(join_lines(a + x + c), join_lines(x)),
{
    lemma_join_lines_concat(a + x, c);
    lemma_join_lines_concat(a, x);
    lemma_occurs(join_lines(a), join_lines(x), join_lines(c));
}

proof fn lemma_jwn_concat(a: Seq<Seq<char>>, b: Seq<Seq<char>>)
    requires
        a.len() > 0,
        b.len() > 0,
    ensures
        join_with_newlines(a + b) == join_with_newlines(a) + "\n"@ + join_with_newlines(b),
    decreases b.len(),
{
    if b.len() == 1 {
        assert((a + b).drop_last() =~= a);
        assert((a + b).last() == b[0]);
    } else {
        assert((a + b).drop_last() =~= a + b.drop_last());
        assert((a + b).last() == b.last());
        lemma_jwn_concat(a, b.drop_last());
        assert(join_with_newlines(a) + "\n"@ + join_with_newlines(b.drop_last()) + "\n"@ + b.last()
            =~= join_with_newlines(a) + "\n"@ + (join_with_newlines(b.drop_last()) + "\n"@
            + b.last()));
    }
}

/// The lines under the span: its label, when it has one, behind `pre`.
pub open spec fn label_line(b: DenialBox, pre: Seq<char>) -> Seq<Seq<char>> {
    match opt_view(b.span.label) {
        Some(l) => seq![pre + l],
        None => Seq::empty(),
    }
}

/// The plain-text denial shows the command, then on the next line the
/// carets under the match, then on the next line the match's label when it
/// has one, each behind the indentation of the command.
pub proof fn law_plain_shows_command(b: DenialBox, tw: u16)
    ensures
        ({
            let (cl, cr) = highlighted(b.command@, b.span.start, b.span.end, false, tw as nat);
            occurs(
                plain_text(b, tw),
                join_lines(
                    seq!["  Command: "@ + cl, "           "@ + cr] + label_line(b, "           "@),
                ),
            )
        }),
{
    let (cl, cr) = highlighted(b.command@, b.span.start, b.span.end, false, tw as nat);
    let x = seq!["  Command: "@ + cl, "           "@ + cr] + label_line(b, "           "@);
    let a = seq![blocked_title(opt_view(b.branch_name), b.is_protected_branch), Seq::empty()]
        + plain_caution(b);
    let c = seq![Seq::<char>::empty()] + plain_explanation(b, tw) + seq![Seq::<char>::empty()]
        + prefixed("  "@, denial_pattern_lines(b, severity_name(b.severity), false))
        + plain_alternatives(b);
    assert(prefixed("           "@, span_label_lines(b)) =~= label_line(b, "           "@));
    assert(plain_lines(b, tw) =~= a + x + c);
    lemma_join_lines_occurs(a, x, c);
}

/// A denial without a border shows the command, then on the next line the
/// carets under the match, then on the next line the match's label when it
/// has one, each indented by two spaces.
pub proof fn law_minimal_shows_command(b: DenialBox, t: Theme, tw: u16)
    ensures
        ({
            let (cl, cr) = highlighted(
                b.command@,
                b.span.start,
                b.span.end,
                t.colors_enabled,
                box_width(tw),
            );
            occurs(
                join_lines(minimal_lines(b, t, tw)),
                join_lines(seq!["  "@ + cl, "  "@ + cr] + label_line(b, "  "@)),
            )
        }),
{
    let (cl, cr) = highlighted(b.command@, b.span.start, b.span.end, t.colors_enabled, box_width(tw));
    let x = seq!["  "@ + cl, "  "@ + cr] + label_line(b, "  "@);
    let sev = ansi_code(t.severity_color(b.severity));
    let a = seq![
        "\x1b["@ + sev + "m\u{26d4}  BLOCKED\x1b[0m: Destructive Command Detected"@,
        Seq::<char>::empty(),
    ];
    let c = seq![Seq::<char>::empty()] + minimal_explanation(b, t, tw) + minimal_tail(b, t);
    assert(prefixed("  "@, command_block(b, t.colors_enabled, box_width(tw))) =~= x);
    assert(minimal_lines(b, t, tw) =~= a + x + c);
    lemma_join_lines_occurs(a, x, c);
}

/// A console panel with alternatives lists them under their heading, one
/// bullet line for each, in order: without an allow-once code the panel ends
/// there, with one an empty line follows the last bullet.
pub proof fn law_panel_lists_alternatives(b: DenialBox, t: Theme, tw: u16)
    requires
        b.alternatives@.len() > 0,
    ensures
        ({
            let heading = "["@ + markup_name(t.success_color) + "]Safe alternatives:[/]"@;
            let bullets = join_with_newlines(
                prefixed("  [green]\u{2022}[/] "@, views(b.alternatives@)),
            );
            &&& b.allow_once_code is None ==> ends_with(
                panel_content(b, t, tw),
                heading + "\n"@ + bullets,
            )
            &&& b.allow_once_code is Some ==> occurs(
                panel_content(b, t, tw),
                heading + "\n"@ + bullets + "\n\n"@,
            )
        }),
{
    reveal_strlit("\n");
    reveal_strlit("\n\n");
    let heading = "["@ + markup_name(t.success_color) + "]Safe alternatives:[/]"@;
    let bl = prefixed("  [green]\u{2022}[/] "@, views(b.alternatives@));
    let bullets = join_with_newlines(bl);
    let p = panel_head(b, t, tw) + panel_explanation(b, t, tw) + seq![Seq::<char>::empty()]
        + surrounded(
        "[dim]"@,
        denial_pattern_lines(b, severity_name(b.severity), t.colors_enabled),
        "[/]"@,
    ) + seq![Seq::<char>::empty()];
    let hb = seq![heading] + bl;
    assert(bl.len() > 0);
    assert(p.len() > 0);
    lemma_jwn_concat(seq![heading], bl);
    assert(join_with_newlines(seq![heading]) == heading);
    let ls = panel_head(b, t, tw) + panel_tail(b, t, tw);
    if b.allow_once_code is None {
        assert(ls =~= p + hb);
        lemma_jwn_concat(p, hb);
        let s = join_with_newlines(ls);
        let x = heading + "\n"@ + bullets;
        assert(s =~= join_with_newlines(p) + "\n"@ + x);
        assert(s.skip(s.len() - x.len()) =~= x);
    } else {
        let al = panel_allow_once(b);
        assert(ls =~= p + hb + al);
        assert(al.len() == 3 && al[0] == Seq::<char>::empty());
        lemma_jwn_concat(p, hb);
        lemma_jwn_concat(p + hb, al);
        assert(al =~= seq![al[0]] + al.drop_first());
        lemma_jwn_concat(seq![al[0]], al.drop_first());
        assert(join_with_newlines(seq![al[0]]) == al[0]);
        let rest = join_with_newlines(al.drop_first());
        let s = join_with_newlines(ls);
        assert(s =~= join_with_newlines(p) + "\n"@ + (heading + "\n"@ + bullets + "\n\n"@) + rest);
        lemma_occurs(join_with_newlines(p) + "\n"@, heading + "\n"@ + bullets + "\n\n"@, rest);
    }
}

proof fn lemma_join_lines_ends(a: Seq<Seq<char>>, x: Seq<Seq<char>>)
    ensures
        ends_with(join_lines(a + x), join_lines(x)),
{
    lemma_join_lines_concat(a, x);
    let s = join_lines(a + x);
    assert(s.skip(s.len() - join_lines(x).len()) =~= join_lines(x));
}

proof fn lemma_jwn_occurs(a: Seq<Seq<char>>, x: Seq<Seq<char>>, c: Seq<Seq<char>>)
    requires
        x.len() > 0,
    ensures
        occurs(join_with_newlines(a + x + c), join_with_newlines(x)),
{
    let jx = join_with_newlines(x);
    let (u, v) = if a.len() > 0 {
        lemma_jwn_concat(a, x);
        (join_with_newlines(a) + "\n"@, Seq::<char>::empty())
    } else {
        assert(a + x =~= x);
        (Seq::<char>::empty(), Seq::<char>::empty())
    };
    assert(join_with_newlines(a + x) =~= u + jx);
    if c.len() > 0 {
        lemma_jwn_concat(a + x, c);
        assert(join_with_newlines(a + x + c) =~= u + jx + ("\n"@ + join_with_newlines(c)));
        lemma_occurs(u, jx, "\n"@ + join_with_newlines(c));
    } else {
        assert(a + x + c =~= a + x);
        assert(u + jx =~= u + jx + v);
        lemma_occurs(u, jx, v);
    }
}

proof fn lemma_jwn_ends(a: Seq<Seq<char>>, x: Seq<Seq<char>>)
    requires
        x.len() > 0,
    ensures
        ends_with(join_with_newlines(a + x), join_with_newlines(x)),
{
    let s = join_with_newlines(a + x);
    let jx = join_with_newlines(x);
    if a.len() > 0 {
        lemma_jwn_concat(a, x);
    } else {
        assert(a + x =~= x);
    }
    assert(s.skip(s.len() - jx.len()) =~= jx);
}

/// The plain-text denial shows, in this order, the explanation under its
/// heading (when there is one), the pattern lines, and the alternatives
/// under their heading (when there are some); it ends with the last of
/// these.
pub proof fn law_plain_shows_all(b: DenialBox, tw: u16)
    ensures
        ({
            let text = plain_text(b, tw);
            let w = sat_sub(box_width(tw) as int, 2);
            let pl = prefixed(
                "  "@,
                pattern_lines(b.pattern_id@, severity_name(b.severity), opt_view(b.pattern_regex), false),
            );
            let al = seq!["  Safe alternatives:"@] + prefixed("    - "@, views(b.alternatives@));
            &&& (opt_view(b.explanation) matches Some(e) ==> occurs(
                text,
                join_lines(seq!["  Explanation:"@] + prefixed("  "@, wrap(markdown_text(e, false), w))),
            ))
            &&& occurs(text, join_lines(pl))
            &&& b.alternatives@.len() > 0 ==> ends_with(text, join_lines(al))
            &&& b.alternatives@.len() == 0 ==> ends_with(text, join_lines(pl))
        }),
{
    let w = sat_sub(box_width(tw) as int, 2);
    let pl = prefixed(
        "  "@,
        pattern_lines(b.pattern_id@, severity_name(b.severity), opt_view(b.pattern_regex), false),
    );
    let al = seq!["  Safe alternatives:"@] + prefixed("    - "@, views(b.alternatives@));
    let head = seq![blocked_title(opt_view(b.branch_name), b.is_protected_branch), Seq::empty()]
        + plain_caution(b) + plain_command(b, tw);
    let ls = plain_lines(b, tw);
    if let Some(e) = opt_view(b.explanation) {
        let x = seq!["  Explanation:"@] + prefixed("  "@, wrap(markdown_text(e, false), w));
        assert(ls =~= (head + seq![Seq::<char>::empty()]) + x + (seq![Seq::<char>::empty()] + pl
            + plain_alternatives(b)));
        lemma_join_lines_occurs(head + seq![Seq::<char>::empty()], x, seq![Seq::<char>::empty()]
            + pl + plain_alternatives(b));
    }
    let before = head + plain_explanation(b, tw) + seq![Seq::<char>::empty()];
    assert(ls =~= before + pl + plain_alternatives(b));
    lemma_join_lines_occurs(before, pl, plain_alternatives(b));
    if b.alternatives@.len() > 0 {
        assert(ls =~= (before + pl + seq![Seq::<char>::empty()]) + al);
        lemma_join_lines_ends(before + pl + seq![Seq::<char>::empty()], al);
    } else {
        assert(ls =~= before + pl);
        lemma_join_lines_ends(before, pl);
    }
}

/// A console panel shows the command, then on the next line the carets
/// under the match, then the match's label when it has one; the explanation
/// under its heading when there is one; and the pattern lines. It ends with
/// the allow-once command when there is one, else, without alternatives,
/// with the pattern lines.
#[verifier::spinoff_prover]
#[verifier::rlimit(80)]
pub proof fn law_panel_shows_all(b: DenialBox, t: Theme, tw: u16)
    ensures
        ({
            let content = panel_content(b, t, tw);
            let w = panel_width(tw);
            let (cl, cr) = highlighted(b.command@, b.span.start, b.span.end, false, w);
            let label = match opt_view(b.span.label) {
                Some(l) => seq!["[dim]"@ + l + "[/]"@],
                None => Seq::<Seq<char>>::empty(),
            };
            let pl = surrounded(
                "[dim]"@,
                pattern_lines(
                    b.pattern_id@,
                    severity_name(b.severity),
                    opt_view(b.pattern_regex),
                    t.colors_enabled,
                ),
                "[/]"@,
            );
            &&& occurs(
                content,
                join_with_newlines(
                    seq!["[dim]Command:[/]  [bold]"@ + cl + "[/]"@, "[dim]"@ + cr + "[/]"@] + label,
                ),
            )
            &&& (opt_view(b.explanation) matches Some(e) ==> occurs(
                content,
                join_with_newlines(
                    seq!["["@ + severity_markup(t, b.severity) + "]Explanation:[/]"@] + if t.colors_enabled {
                        text_lines(markdown_text(e, true))
                    } else {
                        wrap(markdown_text(e, false), w)
                    },
                ),
            ))
            &&& occurs(content, join_with_newlines(pl))
            &&& (opt_view(b.allow_once_code) matches Some(code) ==> ends_with(
                content,
                "[yellow]To allow once:[/] [bold]dcg allow-once "@ + code + "[/]"@,
            ))
            &&& b.allow_once_code is None && b.alternatives@.len() == 0 ==> ends_with(
                content,
                join_with_newlines(pl),
            )
        }),
{
    let w = panel_width(tw);
    let sm = severity_markup(t, b.severity);
    let (cl, cr) = highlighted(b.command@, b.span.start, b.span.end, false, w);
    let label = match opt_view(b.span.label) {
        Some(l) => seq!["[dim]"@ + l + "[/]"@],
        None => Seq::<Seq<char>>::empty(),
    };
    let cmd = seq!["[dim]Command:[/]  [bold]"@ + cl + "[/]"@, "[dim]"@ + cr + "[/]"@] + label;
    let top = seq![panel_header(b, sm), Seq::empty()] + (if b.is_protected_branch {
        seq!["["@ + sm + "]Extra caution on protected branches.[/]"@, Seq::empty()]
    } else {
        Seq::empty()
    });
    assert(surrounded("[dim]"@, span_label_lines(b), "[/]"@) =~= label);
    assert(panel_head(b, t, tw) =~= top + cmd);
    let tail = panel_tail(b, t, tw);
    let ls = panel_head(b, t, tw) + tail;
    assert(ls =~= top + cmd + tail);
    lemma_jwn_occurs(top, cmd, tail);
    let pl = surrounded(
        "[dim]"@,
        pattern_lines(
            b.pattern_id@,
            severity_name(b.severity),
            opt_view(b.pattern_regex),
            t.colors_enabled,
        ),
        "[/]"@,
    );
    if let Some(e) = opt_view(b.explanation) {
        let x = seq!["["@ + sm + "]Explanation:[/]"@] + panel_explanation_lines(
            b,
            t.colors_enabled,
            w,
        );
        assert(ls =~= (top + cmd + seq![Seq::<char>::empty()]) + x + (panel_pattern(b, t)
            + panel_allow_once(b)));
        lemma_jwn_occurs(top + cmd + seq![Seq::<char>::empty()], x, panel_pattern(b, t)
            + panel_allow_once(b));
    }
    let bl = prefixed("  [green]\u{2022}[/] "@, views(b.alternatives@));
    let alts = if b.alternatives@.len() > 0 {
        seq![Seq::empty(), "["@ + markup_name(t.success_color) + "]Safe alternatives:[/]"@] + bl
    } else {
        Seq::empty()
    };
    let before = top + cmd + panel_explanation(b, t, tw) + seq![Seq::<char>::empty()];
    assert(pattern_lines(b.pattern_id@, severity_name(b.severity), opt_view(b.pattern_regex), t.colors_enabled).len() > 0);
    assert(ls =~= before + pl + (alts + panel_allow_once(b)));
    lemma_jwn_occurs(before, pl, alts + panel_allow_once(b));
    if let Some(code) = opt_view(b.allow_once_code) {
        let al = panel_allow_once(b);
        let last = seq!["[yellow]To allow once:[/] [bold]dcg allow-once "@ + code + "[/]"@];
        assert(ls =~= (before + pl + alts + al.take(2)) + last);
        lemma_jwn_ends(before + pl + alts + al.take(2), last);
        assert(join_with_newlines(last) == last[0]);
    } else if b.alternatives@.len() == 0 {
        assert(ls =~= before + pl);
        lemma_jwn_ends(before, pl);
    }
}

/// The label of the span, as a line of its own when there is one.
pub open spec fn bare_label(b: DenialBox) -> Seq<Seq<char>> {
    match opt_view(b.span.label) {
        Some(l) => seq![l],
        None => Seq::empty(),
    }
}

/// An ASCII box shows, each line framed by `|`: the command, the carets
/// under the match and the match's label, on consecutive lines; the
/// explanation under its heading when there is one; the pattern lines; and
/// the alternatives under their heading, one bullet each in order, when
/// there are some.
pub proof fn law_ascii_shows_all(b: DenialBox, t: Theme, tw: u16)
    ensures
        ({
            let text = join_lines(ascii_lines(b, t, tw));
            let w = box_width(tw);
            let inner = sat_sub(w as int, 4);
            let (cl, cr) = highlighted(b.command@, b.span.start, b.span.end, t.colors_enabled, inner);
            let pl = pattern_lines(
                b.pattern_id@,
                severity_name(b.severity),
                opt_view(b.pattern_regex),
                false,
            );
            &&& occurs(
                text,
                join_lines(framed_all("|  "@, seq![cl, cr] + bare_label(b), ""@, inner, "  |"@)),
            )
            &&& (opt_view(b.explanation) matches Some(e) ==> occurs(
                text,
                join_lines(
                    framed_all(
                        "|  "@,
                        seq!["EXPLANATION:"@] + wrap(markdown_text(e, t.colors_enabled), inner),
                        ""@,
                        inner,
                        "  |"@,
                    ),
                ),
            ))
            &&& occurs(text, join_lines(framed_all("|  "@, pl, ""@, inner, "  |"@)))
            &&& b.alternatives@.len() > 0 ==> occurs(
                text,
                join_lines(
                    framed_all("|  "@, seq!["Safe alternatives:"@], ""@, inner, "  |"@) + framed_all(
                        "|    "@,
                        prefixed("* "@, views(b.alternatives@)),
                        ""@,
                        sat_sub(w as int, 6),
                        "  |"@,
                    ),
                ),
            )
        }),
{
    let w = box_width(tw);
    let inner = sat_sub(w as int, 4);
    let ls = ascii_lines(b, t, tw);
    let top = ascii_top(b, w);
    let cmd = ascii_command(b, t, w);
    let ex = ascii_explanation(b, t, w);
    let pat = ascii_pattern(b, t, w);
    let alts = ascii_alternatives(b, w);
    let bottom = seq![ascii_rule(w)];
    assert(ls =~= top + cmd + ex + pat + alts + bottom);
    let cb = command_block(b, t.colors_enabled, inner);
    let (cl, cr) = highlighted(b.command@, b.span.start, b.span.end, t.colors_enabled, inner);
    assert(cb =~= seq![cl, cr] + bare_label(b));
    let xc = ascii_framed(cb, w);
    assert(cmd =~= xc + seq![ascii_blank(w)]);
    assert(ls =~= top + xc + (seq![ascii_blank(w)] + ex + pat + alts + bottom));
    lemma_join_lines_occurs(top, xc, seq![ascii_blank(w)] + ex + pat + alts + bottom);
    if let Some(e) = opt_view(b.explanation) {
        let lab = seq!["EXPLANATION:"@];
        let el = wrap(markdown_text(e, t.colors_enabled), inner);
        let xe = framed_all("|  "@, lab + el, ""@, inner, "  |"@);
        assert(xe =~= ascii_framed(lab, w) + ascii_framed(el, w));
        assert(ex =~= seq![ascii_blank(w)] + xe);
        assert(ls =~= (top + cmd + seq![ascii_blank(w)]) + xe + (pat + alts + bottom));
        lemma_join_lines_occurs(top + cmd + seq![ascii_blank(w)], xe, pat + alts + bottom);
    }
    let pl = pattern_lines(b.pattern_id@, severity_name(b.severity), opt_view(b.pattern_regex), false);
    let xp = framed_all("|  "@, pl, ""@, inner, "  |"@);
    assert(pat =~= seq![ascii_blank(w)] + xp);
    assert(ls =~= (top + cmd + ex + seq![ascii_blank(w)]) + xp + (alts + bottom));
    lemma_join_lines_occurs(top + cmd + ex + seq![ascii_blank(w)], xp, alts + bottom);
    if b.alternatives@.len() > 0 {
        let xa = framed_all("|  "@, seq!["Safe alternatives:"@], ""@, inner, "  |"@) + framed_all(
            "|    "@,
            prefixed("* "@, views(b.alternatives@)),
            ""@,
            sat_sub(w as int, 6),
            "  |"@,
        );
        assert(alts =~= seq![ascii_blank(w)] + xa);
        assert(ls =~= (top + cmd + ex + pat + seq![ascii_blank(w)]) + xa + bottom);
        lemma_join_lines_occurs(top + cmd + ex + pat + seq![ascii_blank(w)], xa, bottom);
    }
}

/// A Unicode box shows, each line between bars: the command, the carets
/// under the match and the match's label, on consecutive lines; and the
/// pattern lines.
pub proof fn law_unicode_shows_command_and_pattern(b: DenialBox, t: Theme, tw: u16)
    ensures
        ({
            let text = join_lines(unicode_lines(b, t, tw));
            let w = box_width(tw);
            let inner = sat_sub(w as int, 4);
            let bar = uni_bar(ansi_code(t.severity_color(b.severity)));
            let (cl, cr) = highlighted(b.command@, b.span.start, b.span.end, t.colors_enabled, inner);
            let pl = pattern_lines(
                b.pattern_id@,
                severity_name(b.severity),
                opt_view(b.pattern_regex),
                t.colors_enabled,
            );
            &&& occurs(
                text,
                join_lines(
                    framed_all(bar + "  "@, seq![cl, cr] + bare_label(b), ""@, inner, "  "@ + bar),
                ),
            )
            &&& occurs(
                text,
                join_lines(framed_all(bar + "  \x1b[2m"@, pl, "\x1b[0m"@, inner, "  "@ + bar)),
            )
        }),
{
    let w = box_width(tw);
    let inner = sat_sub(w as int, 4);
    let sev = ansi_code(t.severity_color(b.severity));
    let succ = ansi_code(t.success_color);
    let bar = uni_bar(sev);
    let ls = unicode_lines(b, t, tw);
    let top = uni_top(b, sev, w) + uni_caution(b, sev, w);
    let cmd = uni_command(b, t, sev, w);
    let ex = uni_explanation(b, t, sev, w);
    let pat = uni_pattern(b, t, sev, w);
    let rest = uni_alternatives(b, sev, succ, w) + seq![uni_rule(sev, w, "\u{2570}"@, "\u{256f}"@)];
    assert(ls =~= top + cmd + ex + pat + rest);
    let cb = command_block(b, t.colors_enabled, inner);
    let (cl, cr) = highlighted(b.command@, b.span.start, b.span.end, t.colors_enabled, inner);
    assert(cb =~= seq![cl, cr] + bare_label(b));
    let xc = framed_all(bar + "  "@, cb, ""@, inner, "  "@ + bar);
    assert(cmd =~= xc + seq![uni_blank(sev, w)]);
    assert(ls =~= top + xc + (seq![uni_blank(sev, w)] + ex + pat + rest));
    lemma_join_lines_occurs(top, xc, seq![uni_blank(sev, w)] + ex + pat + rest);
    let pl = pattern_lines(
        b.pattern_id@,
        severity_name(b.severity),
        opt_view(b.pattern_regex),
        t.colors_enabled,
    );
    let xp = framed_all(bar + "  \x1b[2m"@, pl, "\x1b[0m"@, inner, "  "@ + bar);
    assert(pat =~= seq![uni_blank(sev, w)] + xp);
    assert(ls =~= (top + cmd + ex + seq![uni_blank(sev, w)]) + xp + rest);
    lemma_join_lines_occurs(top + cmd + ex + seq![uni_blank(sev, w)], xp, rest);
}

/// `s` starts with `x`.
pub open spec fn starts_with(s: Seq<char>, x: Seq<char>) -> bool {
    x.len() <= s.len() && s.take(x.len() as int) == x
}

/// A console panel opens with its title in the severity's markup, naming the
/// branch when one is known, then an empty line; for a protected branch the
/// caution follows, then another empty line.
#[verifier::spinoff_prover]
#[verifier::rlimit(80)]
pub proof fn law_panel_header(b: DenialBox, t: Theme, tw: u16)
    ensures
        ({
            let sm = severity_markup(t, b.severity);
            let title = match opt_view(b.branch_name) {
                Some(br) => if b.is_protected_branch {
                    "BLOCKED (Protected Branch: "@ + br + ")"@
                } else {
                    "BLOCKED (Branch: "@ + br + ")"@
                },
                None => "COMMAND BLOCKED"@,
            };
            let head = "["@ + sm + "]\u{1f6d1} "@ + title + "[/]"@ + "\n\n"@;
            let caution = "["@ + sm + "]Extra caution on protected branches.[/]"@ + "\n\n"@;
            &&& starts_with(panel_content(b, t, tw), head)
            &&& b.is_protected_branch ==> starts_with(panel_content(b, t, tw), head + caution)
        }),
{
    reveal_strlit("\n");
    reveal_strlit("\n\n");
    reveal_strlit("[");
    reveal_strlit("]\u{1f6d1} ");
    reveal_strlit("[/]");
    reveal_strlit("]\u{1f6d1} BLOCKED (Protected Branch: ");
    reveal_strlit("]\u{1f6d1} BLOCKED (Branch: ");
    reveal_strlit(")[/]");
    reveal_strlit("]\u{1f6d1} COMMAND BLOCKED[/]");
    reveal_strlit("BLOCKED (Protected Branch: ");
    reveal_strlit("BLOCKED (Branch: ");
    reveal_strlit(")");
    reveal_strlit("COMMAND BLOCKED");
    let sm = severity_markup(t, b.severity);
    let h = panel_header(b, sm);
    let ls = panel_head(b, t, tw) + panel_tail(b, t, tw);
    let rest = ls.skip(2);
    assert(ls =~= seq![h] + seq![Seq::<char>::empty()] + rest);
    assert(rest.len() > 0);
    lemma_jwn_concat(seq![h], seq![Seq::<char>::empty()] + rest);
    lemma_jwn_concat(seq![Seq::<char>::empty()], rest);
    assert(seq![h] + (seq![Seq::<char>::empty()] + rest) =~= ls);
    assert(join_with_newlines(seq![h]) == h);
    assert(join_with_newlines(seq![Seq::<char>::empty()]) == Seq::<char>::empty());
    let s = panel_content(b, t, tw);
    let title = match opt_view(b.branch_name) {
        Some(br) => if b.is_protected_branch {
            "BLOCKED (Protected Branch: "@ + br + ")"@
        } else {
            "BLOCKED (Branch: "@ + br + ")"@
        },
        None => "COMMAND BLOCKED"@,
    };
    assert(h =~= "["@ + sm + "]\u{1f6d1} "@ + title + "[/]"@);
    let head = h + "\n\n"@;
    assert(s =~= head + join_with_newlines(rest));
    assert(s.take(head.len() as int) =~= head);
    if b.is_protected_branch {
        let c = "["@ + sm + "]Extra caution on protected branches.[/]"@;
        let r2 = rest.skip(2);
        assert(rest =~= seq![c] + seq![Seq::<char>::empty()] + r2);
        assert(r2.len() > 0);
        lemma_jwn_concat(seq![c], seq![Seq::<char>::empty()] + r2);
        lemma_jwn_concat(seq![Seq::<char>::empty()], r2);
        assert(seq![c] + (seq![Seq::<char>::empty()] + r2) =~= rest);
        assert(join_with_newlines(seq![c]) == c);
        let x = head + (c + "\n\n"@);
        assert(s =~= x + join_with_newlines(r2));
        assert(s.take(x.len() as int) =~= x);
    }
}

} // verus!
