use denial_box::denial::{explanation_lines, DenialBox, PanelBox, PanelBoxes, PanelFrame};
use denial_box::highlight::{
    format_highlighted_command, format_markdown_explanation, format_regex_pattern, HighlightSpan,
};
use denial_box::pattern::{format_pattern_lines, split_pattern_id};
use denial_box::text::{
    is_whitespace, padding_for, repeat_char, strip_ansi_codes, trim_chars, u8_decimal,
};
use denial_box::theme::{
    ansi_color_code, color_to_markup, severity_color_code, severity_markup_of, severity_name_str,
    BorderStyle, Color, Severity, Theme,
};
use denial_box::wrap::{text_lines_of, wrap_text, wrap_text_defined};

const ESC: char = '\x1b';

fn strings(items: &[&str]) -> Vec<String> {
    items.iter().map(|s| s.to_string()).collect()
}

// ---------------------------------------------------------------------------
// Stripping escape sequences
// ---------------------------------------------------------------------------

#[test]
fn strip_removes_sgr_sequences() {
    assert_eq!(strip_ansi_codes("\x1b[31mred\x1b[0m"), "red");
    assert_eq!(strip_ansi_codes("\x1b[1;31mbold red\x1b[0m!"), "bold red!");
}

#[test]
fn strip_ends_csi_on_any_final_byte() {
    assert_eq!(strip_ansi_codes("a\x1b[Kb"), "ab");
    assert_eq!(strip_ansi_codes("x\x1b[2Jy\x1b[10;5Hz"), "xyz");
}

#[test]
fn strip_removes_osc_hyperlinks() {
    assert_eq!(
        strip_ansi_codes("\x1b]8;;http://example.com\x1b\\link\x1b]8;;\x1b\\"),
        "link"
    );
    assert_eq!(strip_ansi_codes("\x1b]0;title\x07after"), "after");
}

#[test]
fn strip_drops_two_byte_sequences() {
    assert_eq!(strip_ansi_codes("\x1b(Bx"), "Bx");
    assert_eq!(strip_ansi_codes("a\x1b"), "a");
}

#[test]
fn strip_leaves_plain_text_alone() {
    assert_eq!(strip_ansi_codes(""), "");
    assert_eq!(strip_ansi_codes("plain text, ünïcödé ✓"), "plain text, ünïcödé ✓");
}

#[test]
fn strip_is_idempotent_and_removes_every_escape() {
    let inputs = [
        "\x1b[31mred\x1b[0m",
        "\x1b]8;;u\x1b\\t\x1b]8;;\x1b\\",
        "\x1b\x1b[1mx",
        "\x1b]x\x1by z",
        "no escapes",
    ];
    for s in inputs {
        let once = strip_ansi_codes(s);
        assert!(!once.contains(ESC), "{once:?}");
        assert_eq!(strip_ansi_codes(&once), once);
        assert!(once.chars().count() <= s.chars().count());
    }
}

// ---------------------------------------------------------------------------
// Padding, repetition, numbers, whitespace
// ---------------------------------------------------------------------------

#[test]
fn padding_ignores_escape_sequences() {
    assert_eq!(padding_for("\x1b[31mab\x1b[0m", 5), "   ");
    assert_eq!(padding_for("ab", 5), "   ");
}

#[test]
fn padding_is_empty_for_wide_text() {
    assert_eq!(padding_for("abcdef", 3), "");
    assert_eq!(padding_for("abc", 3), "");
}

#[test]
fn padding_fills_to_width() {
    for (text, width) in [("", 7usize), ("héllo", 9), ("\x1b[1mbold\x1b[0m", 10)] {
        let visible = strip_ansi_codes(text).chars().count();
        assert_eq!(visible + padding_for(text, width).chars().count(), width);
    }
}

#[test]
fn repeat_and_decimal() {
    assert_eq!(repeat_char('-', 3), "---");
    assert_eq!(repeat_char('─', 2), "──");
    assert_eq!(repeat_char('x', 0), "");
    assert_eq!(u8_decimal(0), "0");
    assert_eq!(u8_decimal(7), "7");
    assert_eq!(u8_decimal(42), "42");
    assert_eq!(u8_decimal(255), "255");
}

#[test]
fn whitespace_is_unicode_white_space() {
    assert!(is_whitespace(' '));
    assert!(is_whitespace('\t'));
    assert!(is_whitespace('\u{3000}'));
    assert!(is_whitespace('\u{a0}'));
    assert!(!is_whitespace('a'));
    assert!(!is_whitespace('\u{200b}'));
}

#[test]
fn trim_drops_whitespace_at_both_ends() {
    let t: String = trim_chars("\u{3000} a b \t\n").into_iter().collect();
    assert_eq!(t, "a b");
    assert!(trim_chars("   ").is_empty());
}

// ---------------------------------------------------------------------------
// Wrapping
// ---------------------------------------------------------------------------

#[test]
fn wrap_fills_lines_greedily() {
    assert_eq!(wrap_text("hello world foo", 11), strings(&["hello world", "foo"]));
    assert_eq!(wrap_text("a b c d", 3), strings(&["a b", "c d"]));
}

#[test]
fn wrap_puts_a_long_word_on_its_own_line() {
    assert_eq!(
        wrap_text("a verylongwordhere b", 5),
        strings(&["a", "verylongwordhere", "b"])
    );
}

#[test]
fn wrap_repeats_indentation() {
    assert_eq!(wrap_text("  one two three", 9), strings(&["  one two", "  three"]));
}

#[test]
fn wrap_of_empty_text_or_zero_width_is_empty() {
    assert!(wrap_text("", 10).is_empty());
    assert!(wrap_text("some text", 0).is_empty());
}

#[test]
fn wrap_keeps_blank_lines_and_drops_carriage_returns() {
    assert_eq!(wrap_text("a\r\nb", 10), strings(&["a", "b"]));
    assert_eq!(wrap_text("a\n\nb", 10), strings(&["a", "", "b"]));
    assert_eq!(wrap_text("a\n   \nb", 10), strings(&["a", "", "b"]));
    assert_eq!(wrap_text("a\n", 10), strings(&["a"]));
    assert_eq!(wrap_text("trailing   ", 20), strings(&["trailing"]));
}

#[test]
fn wrap_counts_characters_not_bytes() {
    assert_eq!(wrap_text("ééé ààà", 7), strings(&["ééé ààà"]));
    assert_eq!(wrap_text("ééé ààà", 6), strings(&["ééé", "ààà"]));
}

#[test]
fn wrap_lines_fit_unless_single_long_word() {
    let text = "The quick brown fox jumps over the lazy dog; \
                pneumonoultramicroscopicsilicovolcanoconiosis is long.\n  indented line here";
    for width in [1usize, 5, 10, 20, 40] {
        for line in wrap_text(text, width) {
            let fits = line.chars().count() <= width;
            let single = line.trim_start().split_whitespace().count() <= 1;
            assert!(fits || single, "width {width}: {line:?}");
        }
    }
}

#[test]
fn wrap_definedness_follows_indentation_bytes() {
    assert!(wrap_text_defined("plain words", 10));
    assert!(wrap_text_defined("", 10));
    assert!(wrap_text_defined("\u{3000}x", 0));
    assert!(!wrap_text_defined("\u{3000}x", 10));
    assert!(!wrap_text_defined("ok\n\u{3000}x", 10));
    // Three ideographic spaces end exactly at byte three.
    assert!(wrap_text_defined("\u{3000}\u{3000}\u{3000}x", 10));
    assert_eq!(
        wrap_text("\u{3000}\u{3000}\u{3000}x", 10),
        strings(&["\u{3000}\u{3000}\u{3000}x"])
    );
}

#[test]
fn text_lines_split_like_str_lines() {
    assert_eq!(text_lines_of("a\r\nb\n\nc\n"), strings(&["a", "b", "", "c"]));
    assert!(text_lines_of("").is_empty());
    assert_eq!(text_lines_of("\n"), strings(&[""]));
}

// ---------------------------------------------------------------------------
// Markdown and regex display
// ---------------------------------------------------------------------------

#[test]
fn markdown_without_color_drops_markers() {
    assert_eq!(
        format_markdown_explanation("use **bold** and `code`", false),
        "use bold and code"
    );
}

#[test]
fn markdown_with_color_switches_styles() {
    assert_eq!(
        format_markdown_explanation("use **bold** and `code`", true),
        "use \x1b[1mbold\x1b[0m and \x1b[36mcode\x1b[0m"
    );
}

#[test]
fn markdown_closes_an_open_style_at_the_end() {
    assert_eq!(format_markdown_explanation("**x", true), "\x1b[1mx\x1b[0m");
    assert_eq!(format_markdown_explanation("**x", false), "x");
}

#[test]
fn markdown_links_show_their_target() {
    assert_eq!(
        format_markdown_explanation("see [docs](http://x.y) now", false),
        "see docs (http://x.y) now"
    );
    assert_eq!(format_markdown_explanation("[a] b", false), "[a] b");
    assert_eq!(format_markdown_explanation("[a](b", false), "[a](b");
}

#[test]
fn markdown_without_color_adds_no_escape() {
    let out = format_markdown_explanation("**a** `b` [c](d)", false);
    assert!(!out.contains(ESC));
}

#[test]
fn regex_display_in_code_color() {
    assert_eq!(format_regex_pattern("^git", false), "^git");
    assert_eq!(format_regex_pattern("^git", true), "\x1b[36m^git\x1b[0m");
}

// ---------------------------------------------------------------------------
// Highlighting
// ---------------------------------------------------------------------------

#[test]
fn highlight_plain_marks_span_with_carets() {
    let h = format_highlighted_command("git reset --hard HEAD", &HighlightSpan::new(4, 9), false, 80);
    assert_eq!(h.command_line, "git reset --hard HEAD");
    assert_eq!(h.caret_line, "    ^^^^^");
    assert_eq!(h.label_line, None);
}

#[test]
fn highlight_colored_wraps_span_in_codes() {
    let span = HighlightSpan::with_label(4, 9, "here");
    let h = format_highlighted_command("git reset --hard HEAD", &span, true, 80);
    assert_eq!(h.command_line, "git \x1b[1;31mreset\x1b[0m --hard HEAD");
    assert_eq!(h.caret_line, "    \x1b[31m^^^^^\x1b[0m");
    assert_eq!(h.label_line.as_deref(), Some("here"));
}

#[test]
fn highlight_windows_long_commands_around_the_span() {
    let h = format_highlighted_command("0123456789abcdefghij", &HighlightSpan::new(15, 17), false, 10);
    assert_eq!(h.command_line, "abcdefghij");
    assert_eq!(h.caret_line, "     ^^");
    let h = format_highlighted_command("0123456789abcdefghij", &HighlightSpan::new(8, 10), false, 10);
    assert_eq!(h.command_line, "456789abcd");
    assert_eq!(h.caret_line, "    ^^");
    let h = format_highlighted_command("0123456789abcdefghij", &HighlightSpan::new(1, 2), false, 10);
    assert_eq!(h.command_line, "0123456789");
    assert_eq!(h.caret_line, " ^");
}

#[test]
fn highlight_clamps_span_to_the_command() {
    let h = format_highlighted_command("abcdef", &HighlightSpan::new(4, 100), false, 80);
    assert_eq!(h.command_line, "abcdef");
    assert_eq!(h.caret_line, "    ^^");
    let h = format_highlighted_command("abcdef", &HighlightSpan::new(3, 3), true, 80);
    assert_eq!(h.command_line, "abcdef");
    assert_eq!(h.caret_line, "   ");
}

#[test]
fn highlight_counts_byte_offsets_as_characters() {
    let h = format_highlighted_command("é x", &HighlightSpan::new(3, 4), false, 80);
    assert_eq!(h.caret_line, "  ^");
}

#[test]
fn highlight_is_bounded_by_max_width() {
    let command = "x".repeat(300);
    for (start, end) in [(0usize, 5usize), (150, 160), (290, 400), (10, 2)] {
        let h = format_highlighted_command(&command, &HighlightSpan::new(start, end), false, 20);
        assert!(h.command_line.chars().count() <= 20);
        assert!(h.caret_line.chars().count() <= 20);
    }
}

#[test]
fn highlight_shows_short_commands_whole() {
    let h = format_highlighted_command("rm -rf /", &HighlightSpan::new(3, 6), false, 8);
    assert_eq!(h.command_line, "rm -rf /");
}

#[test]
fn highlight_window_follows_a_short_span() {
    let command: String = ('a'..='z').cycle().take(200).collect();
    for start in [0usize, 37, 99, 180, 195] {
        let end = start + 5;
        let h = format_highlighted_command(&command, &HighlightSpan::new(start, end), false, 12);
        assert!(h.command_line.contains(&command[start..end]), "{start}");
    }
}

// ---------------------------------------------------------------------------
// Pattern identifiers
// ---------------------------------------------------------------------------

#[test]
fn split_at_colon_or_last_dot() {
    assert_eq!(
        split_pattern_id("core.git:reset-hard"),
        (Some("core.git".to_string()), "reset-hard".to_string())
    );
    assert_eq!(
        split_pattern_id("core.git.reset_hard"),
        (Some("core.git".to_string()), "reset_hard".to_string())
    );
    assert_eq!(split_pattern_id("a..b"), (Some("a.".to_string()), "b".to_string()));
}

#[test]
fn split_without_pack() {
    assert_eq!(split_pattern_id("a.b"), (None, "a.b".to_string()));
    assert_eq!(split_pattern_id(":x"), (None, ":x".to_string()));
    assert_eq!(split_pattern_id("a:"), (None, "a:".to_string()));
    assert_eq!(split_pattern_id("x.y."), (None, "x.y.".to_string()));
    assert_eq!(split_pattern_id(""), (None, String::new()));
}

#[test]
fn split_rejoins_to_the_identifier() {
    for id in ["core.git:reset-hard", "a.b.c.d", "pack:p:q", "a..b", ".x.y", "plain"] {
        match split_pattern_id(id) {
            (Some(pack), pattern) => {
                assert!(!pack.is_empty() && !pattern.is_empty());
                assert!(id == format!("{pack}:{pattern}") || id == format!("{pack}.{pattern}"));
            }
            (None, pattern) => assert_eq!(pattern, id),
        }
    }
}

#[test]
fn pattern_lines_with_pack_and_regex() {
    assert_eq!(
        format_pattern_lines("core.git:reset-hard", "HIGH", Some("^git"), false),
        strings(&["Pattern: reset-hard", "Pack: core.git (severity: HIGH)", "Regex: ^git"])
    );
    assert_eq!(
        format_pattern_lines("core.git:reset-hard", "HIGH", Some("^git"), true)[2],
        "Regex: \x1b[36m^git\x1b[0m"
    );
}

#[test]
fn pattern_lines_without_pack() {
    assert_eq!(
        format_pattern_lines("simple", "LOW", None, false),
        strings(&["Pattern: simple (LOW)"])
    );
}

// ---------------------------------------------------------------------------
// Theme and colors
// ---------------------------------------------------------------------------

#[test]
fn ansi_codes_of_colors() {
    assert_eq!(ansi_color_code(Color::Reset), "0");
    assert_eq!(ansi_color_code(Color::Red), "31");
    assert_eq!(ansi_color_code(Color::DarkGray), "90");
    assert_eq!(ansi_color_code(Color::White), "97");
    assert_eq!(ansi_color_code(Color::Rgb(1, 2, 3)), "38;2;1;2;3");
    assert_eq!(ansi_color_code(Color::Rgb(255, 0, 10)), "38;2;255;0;10");
    assert_eq!(ansi_color_code(Color::Indexed(200)), "38;5;200");
}

#[test]
fn markup_names_of_colors() {
    assert_eq!(color_to_markup(Color::Reset), "default");
    assert_eq!(color_to_markup(Color::Gray), "white");
    assert_eq!(color_to_markup(Color::LightRed), "bright_red");
    assert_eq!(color_to_markup(Color::Rgb(1, 2, 3)), "rgb(1,2,3)");
    assert_eq!(color_to_markup(Color::Indexed(7)), "color(7)");
}

#[test]
fn default_theme_colors_by_severity() {
    let t = Theme::default();
    assert_eq!(t.border_style, BorderStyle::Unicode);
    assert!(t.colors_enabled);
    assert_eq!(severity_color_code(&t, Severity::Critical), "31");
    assert_eq!(severity_color_code(&t, Severity::High), "91");
    assert_eq!(severity_color_code(&t, Severity::Medium), "33");
    assert_eq!(severity_color_code(&t, Severity::Low), "34");
    assert_eq!(t.color_for_severity(Severity::Low), Color::Blue);
    assert_eq!(severity_markup_of(&t, Severity::Critical), "bold red");
}

#[test]
fn severity_labels_in_capitals() {
    let t = Theme::default();
    assert_eq!(t.severity_label(Severity::Critical), "CRITICAL");
    assert_eq!(t.severity_label(Severity::High), "HIGH");
    assert_eq!(severity_name_str(Severity::Medium), "MEDIUM");
    assert_eq!(severity_name_str(Severity::Low), "LOW");
}

#[test]
fn no_color_theme_and_without_colors() {
    let t = Theme::no_color();
    assert_eq!(t.border_style, BorderStyle::Ascii);
    assert!(!t.colors_enabled);
    assert_eq!(t.critical_color, Color::Red);
    let u = Theme { border_style: BorderStyle::Minimal, ..Theme::default() }.without_colors();
    assert_eq!(u.border_style, BorderStyle::Minimal);
    assert!(!u.colors_enabled);
    assert_eq!(u.success_color, Color::Green);
}

// ---------------------------------------------------------------------------
// The denial box
// ---------------------------------------------------------------------------

fn small_denial() -> DenialBox {
    DenialBox::new("ls", HighlightSpan::new(0, 2), "simple", Severity::Low)
}

#[test]
fn builders_trim_and_drop_blank_text() {
    let d = small_denial()
        .with_explanation("   ")
        .with_pattern_regex("\t\n");
    assert_eq!(d.explanation, None);
    assert_eq!(d.pattern_regex, None);
    let d = small_denial()
        .with_explanation("  why  ")
        .with_pattern_regex(" ^ls$ ")
        .with_allow_once_code(" ab12 ")
        .with_branch_context("main", true);
    assert_eq!(d.explanation.as_deref(), Some("why"));
    assert_eq!(d.pattern_regex.as_deref(), Some("^ls$"));
    assert_eq!(d.allow_once_code.as_deref(), Some(" ab12 "));
    assert_eq!(d.branch_name.as_deref(), Some("main"));
    assert!(d.is_protected_branch);
    assert_eq!(d.command, "ls");
}

#[test]
fn plain_render_of_a_small_denial() {
    assert_eq!(
        small_denial().render_plain(80),
        "BLOCKED: Destructive Command Detected\n\n  Command: ls\n           ^^\n\n\n  Pattern: simple (LOW)\n"
    );
}

#[test]
fn plain_render_with_branch_explanation_and_alternatives() {
    let d = small_denial()
        .with_branch_context("main", true)
        .with_explanation("Lists **files**.")
        .with_alternatives(vec!["ls -l".to_string()]);
    assert_eq!(
        d.render_plain(80),
        "BLOCKED (Protected Branch: main)\n\n  !! Extra caution on protected branches.\n\n  \
         Command: ls\n           ^^\n\n\n  Explanation:\n  Lists files.\n\n  \
         Pattern: simple (LOW)\n\n  Safe alternatives:\n    - ls -l\n"
    );
}

#[test]
fn explanation_lines_render_then_wrap() {
    assert_eq!(
        explanation_lines("one **two** three", false, 9),
        strings(&["one two", "three"])
    );
    assert_eq!(explanation_lines("a `b`", true, 80), strings(&["a \x1b[36mb\x1b[0m"]));
}

#[test]
fn ascii_box_is_a_rectangle_without_escapes() {
    let d = DenialBox::new(
        "git push --force origin main",
        HighlightSpan::with_label(0, 16, "force push"),
        "core.git:push-force",
        Severity::High,
    )
    .with_branch_context("main", false)
    .with_explanation("Force pushing rewrites the remote history, which can destroy the work of others.")
    .with_alternatives(vec!["git push --force-with-lease".to_string()]);
    let theme = Theme::no_color();
    for tw in [20u16, 60, 80, 120] {
        assert!(d.render_is_defined(&theme, tw));
        let out = d.render(&theme, tw);
        assert!(!out.contains(ESC));
        let width = (tw.saturating_sub(4).max(40) + 2) as usize;
        for line in out.lines() {
            assert_eq!(line.chars().count(), width, "{tw}: {line:?}");
        }
    }
}

#[test]
fn render_without_colors_has_no_escapes_in_any_style() {
    let d = small_denial()
        .with_explanation("Be **careful** with `ls`.")
        .with_pattern_regex("^ls")
        .with_alternatives(vec!["ls -la".to_string()]);
    for style in [BorderStyle::Unicode, BorderStyle::Ascii, BorderStyle::Minimal] {
        let theme = Theme { border_style: style, ..Theme::default() }.without_colors();
        let out = d.render(&theme, 80);
        assert!(!out.contains(ESC), "{style:?}");
        assert!(out.contains("BLOCKED"));
        assert!(out.contains("careful"));
    }
}

#[test]
fn render_with_colors_uses_severity_code() {
    let theme = Theme { border_style: BorderStyle::Minimal, ..Theme::default() };
    let out = small_denial().render(&theme, 80);
    assert!(out.starts_with("\x1b[34m\u{26d4}  BLOCKED\x1b[0m: Destructive Command Detected\n"));
}

#[test]
fn render_definedness_follows_the_explanation() {
    let d = small_denial().with_explanation("first\n\u{3000}second");
    assert!(!d.plain_is_defined(80));
    assert!(!d.render_is_defined(&Theme::default(), 80));
    let ok = small_denial().with_explanation("first\n  second");
    assert!(ok.plain_is_defined(80));
    assert!(ok.render_is_defined(&Theme::no_color(), 80));
}

#[test]
fn panel_layout_frames_by_style_and_severity() {
    let t = Theme::default();
    let critical = DenialBox::new("rm -rf /", HighlightSpan::new(0, 8), "core.fs:rm", Severity::Critical);
    let high = DenialBox::new("rm -rf /", HighlightSpan::new(0, 8), "core.fs:rm", Severity::High);
    let low = DenialBox::new("rm -rf /", HighlightSpan::new(0, 8), "core.fs:rm", Severity::Low);
    assert_eq!(critical.panel_layout(&t, 80).frame, PanelFrame::Double);
    assert_eq!(high.panel_layout(&t, 80).frame, PanelFrame::Heavy);
    assert_eq!(low.panel_layout(&t, 80).frame, PanelFrame::Rounded);
    assert_eq!(critical.panel_layout(&Theme::no_color(), 80).frame, PanelFrame::Ascii);
    let minimal = Theme { border_style: BorderStyle::Minimal, ..t };
    assert_eq!(critical.panel_layout(&minimal, 80).frame, PanelFrame::Minimal);
}

#[test]
fn panel_layout_width_title_and_border() {
    let t = Theme::default();
    let d = DenialBox::new("rm -rf /", HighlightSpan::new(0, 8), "core.fs:rm", Severity::Critical);
    let p = d.panel_layout(&t, 100);
    assert_eq!(p.width, 92);
    assert_eq!(d.panel_layout(&t, 30).width, 40);
    assert_eq!(p.title, "[bold] DCG [/]");
    assert_eq!(p.border_style, "red");
    assert_eq!(p.pad_lines, 1);
    assert_eq!(p.pad_columns, 2);
    assert_eq!(
        p.content,
        "[bold red]\u{1f6d1} COMMAND BLOCKED[/]\n\n[dim]Command:[/]  [bold]rm -rf /[/]\n\
         [dim]^^^^^^^^[/]\n\n[dim]Pattern: rm[/]\n[dim]Pack: core.fs (severity: CRITICAL)[/]"
    );
}

#[test]
fn panel_layout_allow_once_and_branch() {
    let d = small_denial().with_allow_once_code("ab12").with_branch_context("dev", false);
    let p = d.panel_layout(&Theme::default(), 80);
    assert!(p.content.starts_with("[bold blue]\u{1f6d1} BLOCKED (Branch: dev)[/]\n"));
    assert!(p.content.ends_with("[yellow]To allow once:[/] [bold]dcg allow-once ab12[/]"));
    assert!(d.panel_is_defined(&Theme::default(), 80));
}

#[test]
fn wrap_keeps_every_word_in_order() {
    let text = "  First line with   several words\r\n\nsecond\tline, ending in a verylongword\n \t";
    for width in [1usize, 3, 8, 16, 80] {
        assert!(wrap_text_defined(text, width));
        let wrapped = wrap_text(text, width);
        let out: Vec<String> = wrapped
            .iter()
            .flat_map(|l| l.split_whitespace().map(str::to_string).collect::<Vec<_>>())
            .collect();
        let expected: Vec<String> = text.split_whitespace().map(str::to_string).collect();
        assert_eq!(out, expected, "width {width}");
    }
}

#[test]
fn plain_render_has_no_escapes() {
    let d = DenialBox::new(
        "git reset --hard HEAD",
        HighlightSpan::with_label(0, 16, "reset"),
        "core.git:reset-hard",
        Severity::Critical,
    )
    .with_pattern_regex("^git")
    .with_explanation("Use `git stash` before **resetting**.")
    .with_alternatives(vec!["git stash".to_string()])
    .with_branch_context("main", true);
    for tw in [0u16, 40, 80, 200] {
        assert!(!d.render_plain(tw).contains(ESC));
    }
}

fn unicode_sample() -> DenialBox {
    DenialBox::new(
        "git reset --hard HEAD",
        HighlightSpan::with_label(0, 16, "Matched: git reset --hard"),
        "core.git:reset-hard",
        Severity::Critical,
    )
    .with_pattern_regex(r"^git\s+reset\s+--hard")
    .with_explanation("Use `git stash` before **resetting**; see [docs](https://example.test) first.")
    .with_alternatives(vec!["git stash".to_string(), "git reset --soft HEAD~1".to_string()])
    .with_branch_context("main", true)
}

#[test]
fn unicode_box_is_aligned_with_colors() {
    let d = unicode_sample();
    for tw in [60u16, 80, 120] {
        let theme = Theme::default();
        assert!(d.render_is_defined(&theme, tw));
        let out = d.render(&theme, tw);
        assert!(out.contains(ESC));
        let width = (tw.saturating_sub(4).max(40) + 2) as usize;
        for line in out.lines() {
            assert_eq!(strip_ansi_codes(line).chars().count(), width, "{tw}: {line:?}");
        }
    }
}

#[test]
fn unicode_box_is_rectangular_without_colors() {
    let d = unicode_sample();
    let theme = Theme::default().without_colors();
    for tw in [60u16, 80, 120] {
        let out = d.render(&theme, tw);
        assert!(!out.contains(ESC));
        let width = (tw.saturating_sub(4).max(40) + 2) as usize;
        for line in out.lines() {
            assert_eq!(line.chars().count(), width, "{tw}: {line:?}");
        }
    }
}

#[test]
fn ascii_box_is_aligned_with_colors() {
    let d = unicode_sample();
    let theme = Theme { border_style: BorderStyle::Ascii, ..Theme::default() };
    for tw in [60u16, 80, 120] {
        let out = d.render(&theme, tw);
        assert!(out.contains(ESC));
        let width = (tw.saturating_sub(4).max(40) + 2) as usize;
        for line in out.lines() {
            assert_eq!(strip_ansi_codes(line).chars().count(), width, "{tw}: {line:?}");
        }
    }
}

fn ascii_panel_boxes() -> PanelBoxes {
    let edge = ['+', '-', '+', '+'];
    let side = ['|', ' ', '|', '|'];
    let sep = ['|', '-', '+', '|'];
    let b = PanelBox {
        top: edge,
        head: side,
        head_row: sep,
        mid: sep,
        row: sep,
        foot_row: sep,
        foot: side,
        bottom: edge,
        ascii: true,
    };
    PanelBoxes { double: b, heavy: b, rounded: b, ascii: b, minimal: b }
}

#[test]
fn rich_panel_is_drawn_around_the_layout() {
    let d = small_denial().with_alternatives(vec!["ls -l".to_string()]);
    let theme = Theme::no_color();
    let out = d.render_rich(&theme, 80, &ascii_panel_boxes());
    let lines: Vec<&str> = out.lines().collect();
    assert!(lines[0].starts_with('+') && lines[0].contains("[bold] DCG [/]"));
    assert!(lines.last().unwrap().starts_with('+'));
    assert!(out.contains("COMMAND BLOCKED"));
    assert!(out.contains("ls -l"));
    for line in &lines[1..lines.len() - 1] {
        assert!(line.starts_with('|') && line.ends_with('|'), "{line:?}");
    }
}

#[test]
fn rich_panel_windows_a_huge_command() {
    let huge = format!("{}rm -rf /{}", "x".repeat(5_000), "y".repeat(5_000));
    let d = DenialBox::new(&huge, HighlightSpan::new(5_000, 5_008), "core:rm", Severity::Critical);
    let out = d.render_rich(&Theme::no_color(), 80, &ascii_panel_boxes());
    assert!(out.len() < 2000);
    assert!(out.contains("rm -rf /"));
}

fn is_subsequence(a: &str, b: &str) -> bool {
    let mut it = b.chars();
    a.chars().all(|c| it.any(|d| d == c))
}

#[test]
fn strip_leaves_a_subsequence() {
    for s in ["\x1b[31mred\x1b[0m", "a\x1b]8;;u\x1b\\b", "x\x1b(yz", "plain"] {
        assert!(is_subsequence(&strip_ansi_codes(s), s), "{s:?}");
    }
}

#[test]
fn wrapped_lines_are_indent_and_words_filled_greedily() {
    let raw = "   alpha beta gamma delta epsilon zeta eta theta";
    for width in [8usize, 12, 20] {
        let ls = wrap_text(raw, width);
        for l in &ls {
            assert!(l.starts_with("   "));
            let rest = &l[3..];
            let words: Vec<&str> = rest.split_whitespace().collect();
            assert!(!words.is_empty());
            assert_eq!(rest, words.join(" "));
        }
        for pair in ls.windows(2) {
            let next_first = pair[1].split_whitespace().next().unwrap();
            assert!(pair[0].chars().count() + 1 + next_first.chars().count() > width);
        }
    }
    assert_eq!(wrap_text("  \t ", 10), strings(&[""]));
}

#[test]
fn ascii_box_frame_rules_and_sides() {
    let d = unicode_sample();
    let out = d.render(&Theme::no_color(), 80);
    let ls: Vec<&str> = out.lines().collect();
    let rule = format!("+{}+", "-".repeat(76));
    assert_eq!(ls[0], rule);
    assert_eq!(ls[2], rule);
    assert_eq!(*ls.last().unwrap(), rule);
    assert!(ls[1].starts_with("| !  BLOCKED (Protected Branch: main) "));
    assert!(ls[3].starts_with("|  !!  Extra caution on protected branches."));
    for l in &ls[3..ls.len() - 1] {
        assert!(l.starts_with('|') && l.ends_with('|'), "{l:?}");
    }
}

#[test]
fn unicode_box_frame_rules_and_bars() {
    let d = unicode_sample();
    for theme in [Theme::default(), Theme::default().without_colors()] {
        let out = strip_ansi_codes(&d.render(&theme, 80));
        let ls: Vec<&str> = out.lines().collect();
        assert_eq!(ls[0], format!("\u{256d}{}\u{256e}", "\u{2500}".repeat(76)));
        assert_eq!(ls[2], format!("\u{251c}{}\u{2524}", "\u{2500}".repeat(76)));
        assert_eq!(*ls.last().unwrap(), format!("\u{2570}{}\u{256f}", "\u{2500}".repeat(76)));
        assert!(ls[1].starts_with("\u{2502} \u{26d4}  BLOCKED (Protected Branch: main) "));
        assert!(ls[3].starts_with("\u{2502}  \u{26a0}  Extra caution on protected branches."));
        for l in &ls[3..ls.len() - 1] {
            assert!(l.starts_with('\u{2502}') && l.ends_with('\u{2502}'), "{l:?}");
        }
        assert!(out.contains("\u{2502}  Explanation:"));
        assert!(out.contains("\u{2502}    \u{2022} git stash "));
    }
}

#[test]
fn minimal_layout_order() {
    let d = small_denial()
        .with_explanation("why")
        .with_alternatives(vec!["a".to_string(), "b".to_string()]);
    let theme = Theme { border_style: BorderStyle::Minimal, ..Theme::default() }.without_colors();
    let out = d.render(&theme, 80);
    let ls: Vec<&str> = out.lines().collect();
    assert_eq!(ls[0], "\u{26d4}  BLOCKED: Destructive Command Detected");
    let n = ls.len();
    assert_eq!(ls[n - 2..], ["    \u{2022} a", "    \u{2022} b"]);
    assert_eq!(ls[n - 3], "  Safe alternatives:");
    let e = ls.iter().position(|l| *l == "  Explanation:").unwrap();
    assert_eq!(ls[e + 1], "  why");
    assert!(ls.contains(&"  Pattern: simple (LOW)"));
}

#[test]
fn plain_header_follows_the_branch() {
    let none = small_denial().render_plain(80);
    assert!(none.starts_with("BLOCKED: Destructive Command Detected\n\n  Command: ls\n"));
    assert!(!none.contains("Branch:"));
    let open = small_denial().with_branch_context("dev", false).render_plain(80);
    assert!(open.starts_with("BLOCKED (Branch: dev)\n\n  Command: ls\n"));
    let protected = small_denial().with_branch_context("main", true).render_plain(80);
    assert!(protected.starts_with(
        "BLOCKED (Protected Branch: main)\n\n  !! Extra caution on protected branches.\n\n  Command: ls\n"
    ));
}
