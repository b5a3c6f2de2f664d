use denial_box::denial::{DenialBox, PanelBox, PanelBoxes};
use denial_box::highlight::HighlightSpan;
use denial_box::text::{padding_for, strip_ansi_codes};
use denial_box::theme::{severity_color_code, BorderStyle, Severity, Theme};
use denial_box::wrap::wrap_text;

const TERM_WIDTH: u16 = 80;

/// The box characters of `rich_rust`'s DOUBLE, HEAVY, ROUNDED, ASCII and
/// MINIMAL boxes.
fn box_rows(r: [[char; 4]; 8], ascii: bool) -> PanelBox {
    PanelBox {
        top: r[0],
        head: r[1],
        head_row: r[2],
        mid: r[3],
        row: r[4],
        foot_row: r[5],
        foot: r[6],
        bottom: r[7],
        ascii,
    }
}

fn framed_box(t: [char; 4], side: [char; 4], sep: [char; 4], b: [char; 4], ascii: bool) -> PanelBox {
    box_rows([t, side, sep, sep, sep, sep, side, b], ascii)
}

fn panel_boxes() -> PanelBoxes {
    PanelBoxes {
        double: framed_box(
            ['\u{2554}', '\u{2550}', '\u{2566}', '\u{2557}'],
            ['\u{2551}', ' ', '\u{2551}', '\u{2551}'],
            ['\u{2560}', '\u{2550}', '\u{256C}', '\u{2563}'],
            ['\u{255A}', '\u{2550}', '\u{2569}', '\u{255D}'],
            false,
        ),
        heavy: framed_box(
            ['\u{250F}', '\u{2501}', '\u{2533}', '\u{2513}'],
            ['\u{2503}', ' ', '\u{2503}', '\u{2503}'],
            ['\u{2523}', '\u{2501}', '\u{254B}', '\u{252B}'],
            ['\u{2517}', '\u{2501}', '\u{253B}', '\u{251B}'],
            false,
        ),
        rounded: framed_box(
            ['\u{256D}', '\u{2500}', '\u{252C}', '\u{256E}'],
            ['\u{2502}', ' ', '\u{2502}', '\u{2502}'],
            ['\u{251C}', '\u{2500}', '\u{253C}', '\u{2524}'],
            ['\u{2570}', '\u{2500}', '\u{2534}', '\u{256F}'],
            false,
        ),
        ascii: framed_box(
            ['+', '-', '+', '+'],
            ['|', ' ', '|', '|'],
            ['|', '-', '+', '|'],
            ['+', '-', '+', '+'],
            true,
        ),
        minimal: box_rows(
            [
                [' ', ' ', ' ', ' '],
                [' ', ' ', '\u{2502}', ' '],
                [' ', '\u{2500}', '\u{253C}', ' '],
                [' ', ' ', ' ', ' '],
                [' ', ' ', ' ', ' '],
                [' ', ' ', ' ', ' '],
                [' ', ' ', '\u{2502}', ' '],
                [' ', ' ', ' ', ' '],
            ],
            false,
        ),
    }
}

#[test]
fn test_denial_box_plain_render() {
    let span = HighlightSpan::with_label(0, 16, "Matched: git reset --hard");
    let denial = DenialBox::new(
        "git reset --hard HEAD",
        span,
        "core.git.reset_hard",
        Severity::Critical,
    );

    let output = denial.render_plain(TERM_WIDTH);

    assert!(output.contains("BLOCKED"));
    assert!(output.contains("git reset --hard"));
    assert!(output.contains("Pattern: reset_hard"));
    assert!(output.contains("Pack: core.git"));
    assert!(output.contains("CRITICAL"));
}

#[test]
fn test_denial_box_renders_pattern_regex_when_available() {
    let span = HighlightSpan::with_label(0, 16, "Matched: git reset --hard");
    let regex = r"^git\s+reset\s+--hard(?:\s|$)";
    let denial = DenialBox::new(
        "git reset --hard HEAD",
        span,
        "core.git:reset-hard",
        Severity::Critical,
    )
    .with_pattern_regex(regex);

    let output = denial.render_plain(TERM_WIDTH);

    assert!(output.contains("Pattern: reset-hard"));
    assert!(output.contains("Regex:"));
    assert!(output.contains(regex));
}

#[test]
fn test_denial_box_with_explanation() {
    let span = HighlightSpan::new(0, 10);
    let denial = DenialBox::new(
        "rm -rf /",
        span,
        "core.filesystem.rm_rf",
        Severity::Critical,
    )
    .with_explanation("This command would delete all files on the system.");

    let output = denial.render_plain(TERM_WIDTH);

    assert!(output.contains("would delete all files"));
}

#[test]
fn test_denial_box_with_alternatives() {
    let span = HighlightSpan::new(0, 10);
    let denial = DenialBox::new(
        "rm -rf /tmp/foo",
        span,
        "core.filesystem.rm_rf",
        Severity::Medium,
    )
    .with_alternatives(vec![
        "rm -ri /tmp/foo (interactive)".to_string(),
        "mv /tmp/foo /tmp/foo.bak (backup first)".to_string(),
    ]);

    let output = denial.render_plain(TERM_WIDTH);

    assert!(output.contains("Safe alternatives:"));
    assert!(output.contains("interactive"));
    assert!(output.contains("backup first"));
}

#[test]
fn test_denial_box_unicode_render() {
    let span = HighlightSpan::new(0, 10);
    let theme = Theme::default();
    let denial = DenialBox::new(
        "git push --force",
        span,
        "core.git.force_push",
        Severity::High,
    );

    let output = denial.render(&theme, TERM_WIDTH);

    // Should contain Unicode box-drawing characters
    assert!(output.contains('\u{256d}')); // Top-left corner
    assert!(output.contains('\u{256f}')); // Bottom-right corner
    assert!(output.contains("BLOCKED"));
}

#[test]
fn test_denial_box_ascii_render() {
    let span = HighlightSpan::new(0, 10);
    let theme = Theme {
        border_style: BorderStyle::Ascii,
        colors_enabled: true,
        ..Default::default()
    };
    let denial = DenialBox::new(
        "git push --force",
        span,
        "core.git.force_push",
        Severity::High,
    );

    let output = denial.render(&theme, TERM_WIDTH);

    // Should use ASCII characters
    assert!(output.contains('+'));
    assert!(output.contains('-'));
    assert!(output.contains("BLOCKED"));
}

#[test]
fn test_denial_box_no_color_still_uses_ascii_box() {
    let span = HighlightSpan::new(0, 10);
    let theme = Theme::no_color();
    let denial = DenialBox::new(
        "git push --force",
        span,
        "core.git.force_push",
        Severity::High,
    );

    let output = denial.render(&theme, TERM_WIDTH);

    assert!(output.contains('+'));
    assert!(output.contains("BLOCKED"));
    assert!(
        !output.contains('\x1b'),
        "No ANSI escapes should appear when colors are disabled"
    );
}

#[test]
fn test_denial_box_unicode_without_colors_strips_ansi() {
    let span = HighlightSpan::new(0, 10);
    let theme = Theme::default().without_colors();
    let denial = DenialBox::new(
        "git push --force",
        span,
        "core.git.force_push",
        Severity::High,
    );

    let output = denial.render(&theme, TERM_WIDTH);

    assert!(output.contains('\u{256d}'));
    assert!(output.contains("BLOCKED"));
    assert!(
        !output.contains('\x1b'),
        "No ANSI escapes should appear when colors are disabled"
    );
}

#[test]
fn test_wrap_text() {
    let text =
        "This is a long explanation that needs to be wrapped to fit within the terminal width.";
    let wrapped = wrap_text(text, 30);

    assert!(wrapped.len() > 1);
    for line in &wrapped {
        assert!(line.len() <= 30);
    }
}

#[test]
fn test_strip_ansi_codes() {
    let with_codes = "\x1b[31mRed text\x1b[0m and \x1b[32mgreen\x1b[0m";
    let stripped = strip_ansi_codes(with_codes);

    assert_eq!(stripped, "Red text and green");
}

#[test]
fn test_strip_ansi_codes_handles_non_sgr_csi_terminators() {
    let cases: &[(&str, &str, &str)] = &[
        ("\x1b[Khello", "hello", "ESC [ K (erase line)"),
        (
            "before\x1b[2Jafter",
            "beforeafter",
            "ESC [ 2 J (erase display)",
        ),
        (
            "before\x1b[1;2Hafter",
            "beforeafter",
            "ESC [ 1 ; 2 H (cursor position)",
        ),
        (
            "\x1b[?25lhide cursor\x1b[?25h",
            "hide cursor",
            "DECSET / DECRST private mode",
        ),
    ];
    for (input, expected, label) in cases {
        assert_eq!(
            strip_ansi_codes(input),
            *expected,
            "non-SGR sequence not stripped correctly ({label})"
        );
    }
}

#[test]
fn test_strip_ansi_codes_handles_osc_hyperlink() {
    let input = "\x1b]8;;https://example.com\x1b\\click here\x1b]8;;\x1b\\";
    assert_eq!(strip_ansi_codes(input), "click here");

    // BEL-terminated OSC variant.
    let input = "\x1b]0;window title\x07visible text";
    assert_eq!(strip_ansi_codes(input), "visible text");
}

#[test]
fn test_strip_ansi_codes_does_not_lose_text_after_truncated_escape() {
    assert_eq!(strip_ansi_codes("foo\x1b=bar"), "foobar");
    assert_eq!(strip_ansi_codes("foo\x1b"), "foo");
}

#[test]
fn test_severity_color_codes() {
    let theme = Theme::default();
    assert_eq!(severity_color_code(&theme, Severity::Critical), "31");
    assert_eq!(severity_color_code(&theme, Severity::High), "91");
    assert_eq!(severity_color_code(&theme, Severity::Medium), "33");
    assert_eq!(severity_color_code(&theme, Severity::Low), "34");
}

#[test]
fn test_denial_box_unicode_command_preservation() {
    let cmd = "rm -rf /path/with/émojis/🎉/and/中文";
    let span = HighlightSpan::new(0, 5);
    let denial = DenialBox::new(cmd, span, "core.filesystem.rm_rf", Severity::Critical);

    let output = denial.render_plain(TERM_WIDTH);

    assert!(
        output.contains("émojis"),
        "Unicode accented characters must be preserved"
    );
    assert!(output.contains("🎉"), "Emoji must be preserved");
    assert!(output.contains("中文"), "CJK characters must be preserved");
}

#[test]
fn test_denial_box_all_severity_levels() {
    for severity in [
        Severity::Critical,
        Severity::High,
        Severity::Medium,
        Severity::Low,
    ] {
        let span = HighlightSpan::new(0, 10);
        let denial = DenialBox::new("test command", span, "test.pattern", severity);
        let output = denial.render_plain(TERM_WIDTH);

        assert!(
            output.contains("BLOCKED"),
            "All severities must show BLOCKED header"
        );
        assert!(
            output.contains(&format!("{severity:?}").to_uppercase()),
            "Output must contain severity level: {severity:?}"
        );
    }
}

#[test]
fn test_denial_box_minimal_render() {
    let span = HighlightSpan::new(0, 10);
    let theme = Theme {
        border_style: BorderStyle::Minimal,
        ..Default::default()
    };
    let denial = DenialBox::new(
        "git push --force",
        span,
        "core.git.force_push",
        Severity::High,
    );

    let output = denial.render(&theme, TERM_WIDTH);
    let clean_output = strip_ansi_codes(&output);

    assert!(clean_output.contains("BLOCKED"));
    assert!(clean_output.contains("git push --force"));
    assert!(clean_output.contains("Pattern: force_push"));
    assert!(clean_output.contains("Pack: core.git"));
}

#[test]
fn test_wrap_text_empty_input() {
    let wrapped = wrap_text("", 30);
    assert!(wrapped.is_empty());
}

#[test]
fn test_wrap_text_zero_width() {
    let wrapped = wrap_text("some text", 0);
    assert!(wrapped.is_empty());
}

#[test]
fn test_wrap_text_single_word() {
    let wrapped = wrap_text("word", 30);
    assert_eq!(wrapped.len(), 1);
    assert_eq!(wrapped[0], "word");
}

#[test]
fn test_padding_for_with_ansi() {
    let text_with_ansi = "\x1b[31mRed\x1b[0m";
    let padding = padding_for(text_with_ansi, 10);
    assert_eq!(padding.len(), 7);
}

#[test]
fn test_denial_box_without_branch_context() {
    let span = HighlightSpan::new(0, 10);
    let denial = DenialBox::new(
        "git reset --hard",
        span,
        "core.git:reset_hard",
        Severity::Critical,
    );

    assert!(denial.branch_name.is_none());
    assert!(!denial.is_protected_branch);

    let output = denial.render_plain(TERM_WIDTH);
    assert!(output.contains("BLOCKED: Destructive Command Detected"));
    assert!(!output.contains("Branch:"));
    assert!(!output.contains("Protected"));
    assert!(!output.contains("Extra caution"));
}

#[test]
fn test_denial_box_with_branch_name() {
    let span = HighlightSpan::new(0, 10);
    let denial = DenialBox::new(
        "git reset --hard",
        span,
        "core.git:reset_hard",
        Severity::Critical,
    )
    .with_branch_context("feature/my-branch", false);

    assert_eq!(denial.branch_name.as_deref(), Some("feature/my-branch"));
    assert!(!denial.is_protected_branch);

    let output = denial.render_plain(TERM_WIDTH);
    assert!(output.contains("BLOCKED (Branch: feature/my-branch)"));
    assert!(!output.contains("Protected"));
    assert!(!output.contains("Extra caution"));
}

#[test]
fn test_denial_box_with_protected_branch() {
    let span = HighlightSpan::new(0, 10);
    let denial = DenialBox::new(
        "git reset --hard",
        span,
        "core.git:reset_hard",
        Severity::Critical,
    )
    .with_branch_context("main", true);

    assert_eq!(denial.branch_name.as_deref(), Some("main"));
    assert!(denial.is_protected_branch);

    let output = denial.render_plain(TERM_WIDTH);
    assert!(output.contains("BLOCKED (Protected Branch: main)"));
    assert!(output.contains("Extra caution on protected branches"));
}

#[test]
fn test_denial_box_branch_context_ascii_render() {
    let theme = Theme {
        border_style: BorderStyle::Ascii,
        colors_enabled: false,
        ..Theme::default()
    };
    let span = HighlightSpan::new(0, 10);
    let denial = DenialBox::new("rm -rf /", span, "core.fs:rm_rf", Severity::Critical)
        .with_branch_context("main", true);

    let output = denial.render(&theme, TERM_WIDTH);
    assert!(output.contains("BLOCKED (Protected Branch: main)"));
    assert!(output.contains("Extra caution on protected branches"));
}

#[test]
fn test_denial_box_branch_context_unicode_render() {
    let theme = Theme {
        border_style: BorderStyle::Unicode,
        colors_enabled: false,
        ..Theme::default()
    };
    let span = HighlightSpan::new(0, 10);
    let denial = DenialBox::new("rm -rf /", span, "core.fs:rm_rf", Severity::High)
        .with_branch_context("develop", false);

    let output = denial.render(&theme, TERM_WIDTH);
    assert!(output.contains("BLOCKED (Branch: develop)"));
    assert!(!output.contains("Protected"));
}

#[test]
fn test_denial_box_all_fields_with_branch() {
    let span = HighlightSpan::with_label(0, 10, "Matched");
    let denial = DenialBox::new(
        "git push --force",
        span,
        "core.git:push_force",
        Severity::High,
    )
    .with_explanation("Force push overwrites remote history")
    .with_alternatives(vec!["Use git push --force-with-lease".to_string()])
    .with_allow_once_code("abc12")
    .with_branch_context("main", true);

    let output = denial.render_plain(TERM_WIDTH);
    assert!(output.contains("BLOCKED (Protected Branch: main)"));
    assert!(output.contains("Extra caution"));
    assert!(output.contains("Force push overwrites remote history"));
    assert!(output.contains("git push --force-with-lease"));
}

#[test]
fn test_denial_box_branch_builder_chaining() {
    let span = HighlightSpan::new(0, 5);
    let denial = DenialBox::new("cmd", span, "pack:rule", Severity::Medium)
        .with_branch_context("release/1.0", true)
        .with_explanation("test")
        .with_allow_once_code("xyz");

    assert_eq!(denial.branch_name.as_deref(), Some("release/1.0"));
    assert!(denial.is_protected_branch);
    assert!(denial.explanation.is_some());
    assert!(denial.allow_once_code.is_some());
}

#[test]
fn test_denial_box_allow_once_code_stored() {
    let span = HighlightSpan::new(0, 16);
    let denial = DenialBox::new(
        "git reset --hard HEAD",
        span,
        "core.git:reset-hard",
        Severity::Critical,
    )
    .with_allow_once_code("abc123");

    assert_eq!(denial.allow_once_code.as_deref(), Some("abc123"));
    let output = denial.render_plain(TERM_WIDTH);
    assert!(output.contains("BLOCKED"), "plain render should succeed");
}

#[test]
fn test_denial_box_allow_once_code_does_not_crash_renders() {
    let theme_unicode = Theme {
        border_style: BorderStyle::Unicode,
        colors_enabled: false,
        ..Default::default()
    };
    let theme_ascii = Theme {
        border_style: BorderStyle::Ascii,
        colors_enabled: false,
        ..Default::default()
    };

    let span = HighlightSpan::new(0, 5);
    let denial = DenialBox::new("rm -rf /", span, "core:rm", Severity::High)
        .with_allow_once_code("xyz789");

    let unicode = denial.render(&theme_unicode, TERM_WIDTH);
    assert!(
        !unicode.is_empty(),
        "unicode render with allow-once should not be empty"
    );

    let ascii = denial.render(&theme_ascii, TERM_WIDTH);
    assert!(
        !ascii.is_empty(),
        "ascii render with allow-once should not be empty"
    );
}

#[test]
fn test_denial_box_matched_span_mid_command() {
    let cmd = "echo hello && rm -rf / && echo done";
    let span = HighlightSpan::with_label(14, 23, "rm -rf /");
    let denial = DenialBox::new(cmd, span, "core:rm_rf", Severity::Critical);

    let output = denial.render_plain(TERM_WIDTH);
    assert!(output.contains("rm -rf /"), "should show the matched text");
    assert!(output.contains("echo hello"), "should show full command");
}

#[test]
fn test_denial_box_very_long_command_wraps() {
    let long_cmd = format!("git push --force origin {}", "a".repeat(200));
    let span = HighlightSpan::new(0, 20);
    let theme = Theme {
        border_style: BorderStyle::Unicode,
        colors_enabled: false,
        ..Default::default()
    };
    let denial = DenialBox::new(&long_cmd, span, "core.git:force-push", Severity::High);

    let output = denial.render(&theme, TERM_WIDTH);
    assert!(
        !output.is_empty(),
        "should produce output even for long commands"
    );
    assert!(
        output.contains("git push --force"),
        "should contain start of command"
    );
}

#[test]
fn test_denial_box_empty_pattern_regex_ignored() {
    let span = HighlightSpan::new(0, 5);
    let denial =
        DenialBox::new("rm -rf", span, "core:rm", Severity::High).with_pattern_regex("");

    assert!(denial.pattern_regex.is_none(), "empty regex should be None");
    let output = denial.render_plain(TERM_WIDTH);
    assert!(!output.contains("Regex:"), "should not show Regex line");
}

#[test]
fn test_denial_box_whitespace_pattern_regex_trimmed() {
    let span = HighlightSpan::new(0, 5);
    let denial = DenialBox::new("rm -rf", span, "core:rm", Severity::High)
        .with_pattern_regex("  ^rm\\s+  ");

    assert_eq!(denial.pattern_regex.as_deref(), Some("^rm\\s+"));
}

#[test]
fn test_denial_box_empty_explanation_ignored() {
    let span = HighlightSpan::new(0, 5);
    let denial =
        DenialBox::new("rm -rf", span, "core:rm", Severity::High).with_explanation("   ");

    assert!(
        denial.explanation.is_none(),
        "whitespace-only explanation should be None"
    );
}

#[test]
fn test_denial_box_plain_render_strips_markdown_explanation() {
    let span = HighlightSpan::new(0, 16);
    let denial = DenialBox::new(
        "git reset --hard HEAD",
        span,
        "core.git:reset-hard",
        Severity::Critical,
    )
    .with_explanation("Use `git stash` before **resetting**.\n- See [docs](https://example.test)");

    let output = denial.render_plain(TERM_WIDTH);

    assert!(output.contains("git stash"));
    assert!(output.contains("resetting"));
    assert!(output.contains("docs (https://example.test)"));
    assert!(!output.contains("`git stash`"));
    assert!(!output.contains("**resetting**"));
}

#[test]
fn test_denial_box_alternatives_in_all_render_paths() {
    let span = HighlightSpan::new(0, 16);
    let alts = vec![
        "git stash".to_string(),
        "git reset --soft HEAD~1".to_string(),
    ];
    let denial = DenialBox::new(
        "git reset --hard HEAD",
        span,
        "core.git:reset-hard",
        Severity::High,
    )
    .with_alternatives(alts);

    let plain = denial.render_plain(TERM_WIDTH);
    assert!(plain.contains("git stash"), "plain should show alternative");
    assert!(
        plain.contains("git reset --soft"),
        "plain should show second alternative"
    );

    let theme_unicode = Theme {
        border_style: BorderStyle::Unicode,
        colors_enabled: false,
        ..Default::default()
    };
    let unicode = denial.render(&theme_unicode, TERM_WIDTH);
    assert!(
        unicode.contains("git stash"),
        "unicode should show alternative"
    );

    let theme_ascii = Theme {
        border_style: BorderStyle::Ascii,
        colors_enabled: false,
        ..Default::default()
    };
    let ascii = denial.render(&theme_ascii, TERM_WIDTH);
    assert!(ascii.contains("git stash"), "ascii should show alternative");
}

#[test]
fn test_denial_box_legacy_fallback_preserves_contract_without_rich_output() {
    let span = HighlightSpan::with_label(0, 16, "Matched: git reset --hard");
    let denial = DenialBox::new(
        "git reset --hard HEAD~1",
        span,
        "core.git:reset-hard",
        Severity::Critical,
    )
    .with_pattern_regex(r"^git\s+reset\s+--hard")
    .with_explanation("Discards staged and unstaged changes.")
    .with_alternatives(vec!["git stash push".to_string()]);

    for border_style in [BorderStyle::Unicode, BorderStyle::Ascii, BorderStyle::Minimal] {
        let theme = Theme {
            border_style,
            colors_enabled: false,
            ..Default::default()
        };

        let output = denial.render(&theme, TERM_WIDTH);

        assert!(
            output.contains("BLOCKED"),
            "{border_style:?} fallback should identify the denial"
        );
        assert!(
            output.contains("git reset --hard HEAD~1"),
            "{border_style:?} fallback should preserve the command"
        );
        assert!(
            output.contains("Pattern: reset-hard"),
            "{border_style:?} fallback should render pattern identity"
        );
        assert!(
            output.contains("Pack: core.git"),
            "{border_style:?} fallback should render pack identity"
        );
        assert!(
            output.contains("Discards staged and unstaged changes"),
            "{border_style:?} fallback should render explanations"
        );
        assert!(
            output.contains("git stash push"),
            "{border_style:?} fallback should render alternatives"
        );
        assert!(
            !output.contains('\x1b'),
            "{border_style:?} no-color fallback should strip ANSI escapes"
        );
    }
}

#[test]
fn test_denial_box_rich_render_stays_bounded_for_huge_command() {
    let huge = "cat > notes.md <<'EOF'\n".to_string() + &"x".repeat(50_000) + "\nEOF\n";
    let span = HighlightSpan::new(23, 24); // points at the first payload byte
    let denial = DenialBox::new(
        &huge,
        span,
        "core.filesystem:redirect-truncate",
        Severity::Critical,
    );

    let theme = Theme {
        border_style: BorderStyle::Unicode,
        colors_enabled: false,
        ..Default::default()
    };
    let output = denial.render_rich(&theme, TERM_WIDTH, &panel_boxes());

    assert!(
        output.len() < 2000,
        "rich render must stay bounded regardless of command size, got {} bytes for a {} byte command",
        output.len(),
        huge.len()
    );
    assert!(
        !output.contains(&"x".repeat(1000)),
        "rich render must not reprint the payload wholesale"
    );
}

#[test]
fn test_denial_box_rich_render_centers_on_a_match_buried_deep_in_the_payload() {
    let prefix = "x".repeat(25_000);
    let suffix = "y".repeat(25_000);
    let huge = format!("cat > notes.md <<'EOF'\n{prefix}rm -rf /{suffix}\nEOF\n");
    let match_start = huge.find("rm -rf /").expect("marker present");
    let span = HighlightSpan::new(match_start, match_start + "rm -rf /".len());
    let denial = DenialBox::new(&huge, span, "core.filesystem:rm-rf", Severity::Critical);

    let theme = Theme {
        border_style: BorderStyle::Unicode,
        colors_enabled: false,
        ..Default::default()
    };
    let output = denial.render_rich(&theme, TERM_WIDTH, &panel_boxes());

    assert!(
        output.contains("rm -rf /"),
        "the matched token must survive windowing rather than being cropped away: {output}"
    );
}

#[test]
fn test_denial_box_low_severity_render() {
    let span = HighlightSpan::new(0, 10);
    let denial = DenialBox::new("chmod 777 .", span, "core:chmod", Severity::Low);

    let output = denial.render_plain(TERM_WIDTH);
    assert!(
        output.to_lowercase().contains("low"),
        "should indicate low severity"
    );
}

#[test]
fn test_denial_box_minimal_render_contains_essentials() {
    let theme = Theme {
        border_style: BorderStyle::Minimal,
        colors_enabled: false,
        ..Default::default()
    };
    let span = HighlightSpan::new(0, 10);
    let denial = DenialBox::new(
        "docker rm -f $(docker ps -aq)",
        span,
        "containers:rm-all",
        Severity::High,
    )
    .with_explanation("Removes all running containers");

    let output = denial.render(&theme, TERM_WIDTH);
    assert!(output.contains("docker rm"), "minimal should show command");
    assert!(
        output.contains("containers"),
        "minimal should show pack info"
    );
}

#[test]
fn test_denial_box_protected_branch_all_render_paths() {
    let span = HighlightSpan::new(0, 16);
    let denial = DenialBox::new(
        "git reset --hard",
        span,
        "core.git:reset-hard",
        Severity::Critical,
    )
    .with_branch_context("main", true);

    let plain = denial.render_plain(TERM_WIDTH);
    assert!(
        plain.contains("main"),
        "plain should show protected branch name"
    );

    let theme_unicode = Theme {
        border_style: BorderStyle::Unicode,
        colors_enabled: false,
        ..Default::default()
    };
    let unicode = denial.render(&theme_unicode, TERM_WIDTH);
    assert!(
        unicode.contains("main"),
        "unicode should show protected branch"
    );

    let theme_ascii = Theme {
        border_style: BorderStyle::Ascii,
        colors_enabled: false,
        ..Default::default()
    };
    let ascii = denial.render(&theme_ascii, TERM_WIDTH);
    assert!(ascii.contains("main"), "ascii should show protected branch");

    // Note: minimal render doesn't show branch context yet
    let theme_minimal = Theme {
        border_style: BorderStyle::Minimal,
        colors_enabled: false,
        ..Default::default()
    };
    let minimal = denial.render(&theme_minimal, TERM_WIDTH);
    assert!(
        !minimal.is_empty(),
        "minimal render with branch context should not crash"
    );
}
