//! Severity levels, border styles, colors, and the theme that picks them.
use vstd::prelude::*;
use crate::text::{
    cat, cat3, owned, u8_decimal, decimal, csi_params, lemma_csi_params_concat, lemma_decimal_params,
};

verus! {

/// Severity level of a matched pattern.
#[derive(Clone, Copy, Debug, PartialEq, Eq, Structural)]
pub enum Severity {
    Critical,
    High,
    Medium,
    Low,
}

/// Style of the border drawn around a denial message.
#[derive(Clone, Copy, Debug, PartialEq, Eq, Structural)]
pub enum BorderStyle {
    /// Rounded Unicode box-drawing characters.
    Unicode,
    /// `+`, `-` and `|`.
    Ascii,
    /// No border at all.
    Minimal,
}

/// A terminal color: the sixteen named ANSI colors, the terminal default,
/// a true color, or an entry of the 256-color palette.
#[derive(Clone, Copy, Debug, PartialEq, Eq, Structural)]
pub enum Color {
    Reset,
    Black,
    Red,
    Green,
    Yellow,
    Blue,
    Magenta,
    Cyan,
    Gray,
    DarkGray,
    LightRed,
    LightGreen,
    LightYellow,
    LightBlue,
    LightMagenta,
    LightCyan,
    White,
    Rgb(u8, u8, u8),
    Indexed(u8),
}

/// Colors and border used when rendering.
#[derive(Clone, Copy, Debug)]
pub struct Theme {
    /// Border drawn around boxed output.
    pub border_style: BorderStyle,
    /// Whether escape sequences for colors may be written.
    pub colors_enabled: bool,
    /// Color of critical matches.
    pub critical_color: Color,
    /// Color of high-severity matches.
    pub high_color: Color,
    /// Color of medium-severity matches.
    pub medium_color: Color,
    /// Color of low-severity matches.
    pub low_color: Color,
    /// Color of suggestions that are safe.
    pub success_color: Color,
}

/// The theme used by default: Unicode borders, colors on.
pub open spec fn default_theme() -> Theme {
    Theme {
        border_style: BorderStyle::Unicode,
        colors_enabled: true,
        critical_color: Color::Red,
        high_color: Color::LightRed,
        medium_color: Color::Yellow,
        low_color: Color::Blue,
        success_color: Color::Green,
    }
}

impl Default for Theme {
    fn default() -> (t: Self)
        ensures
            t == default_theme(),
    {
        Theme {
            border_style: BorderStyle::Unicode,
            colors_enabled: true,
            critical_color: Color::Red,
            high_color: Color::LightRed,
            medium_color: Color::Yellow,
            low_color: Color::Blue,
            success_color: Color::Green,
        }
    }
}

impl Theme {
    /// The color of a severity level.
    pub open spec fn severity_color(self, severity: Severity) -> Color {
        match severity {
            Severity::Critical => self.critical_color,
            Severity::High => self.high_color,
            Severity::Medium => self.medium_color,
            Severity::Low => self.low_color,
        }
    }

    /// A theme for terminals without color: ASCII borders, colors off.
    pub fn no_color() -> (t: Self)
        ensures
            t == (Theme { border_style: BorderStyle::Ascii, colors_enabled: false, ..default_theme() }),
    {
        let t = Theme::default();
        Theme { border_style: BorderStyle::Ascii, colors_enabled: false, ..t }
    }

    /// The same theme with colors turned off.
    pub fn without_colors(self) -> (t: Self)
        ensures
            t == (Theme { colors_enabled: false, ..self }),
    {
        Theme { colors_enabled: false, ..self }
    }

    /// The color of a severity level.
    pub fn color_for_severity(&self, severity: Severity) -> (c: Color)
        ensures
            c == self.severity_color(severity),
    {
        match severity {
            Severity::Critical => self.critical_color,
            Severity::High => self.high_color,
            Severity::Medium => self.medium_color,
            Severity::Low => self.low_color,
        }
    }

    /// The label shown for a severity level.
    pub fn severity_label(&self, severity: Severity) -> (s: &'static str)
        ensures
            s@ == severity_name(severity),
    {
        severity_name_str(severity)
    }
}

/// The name of a severity level in capitals.
pub open spec fn severity_name(severity: Severity) -> Seq<char> {
    match severity {
        Severity::Critical => "CRITICAL"@,
        Severity::High => "HIGH"@,
        Severity::Medium => "MEDIUM"@,
        Severity::Low => "LOW"@,
    }
}

/// The name of a severity level in capitals.
pub fn severity_name_str(severity: Severity) -> (s: &'static str)
    ensures
        s@ == severity_name(severity),
{
    match severity {
        Severity::Critical => "CRITICAL",
        Severity::High => "HIGH",
        Severity::Medium => "MEDIUM",
        Severity::Low => "LOW",
    }
}

// ---------------------------------------------------------------------------
// ANSI codes
// ---------------------------------------------------------------------------

/// The parameters of the SGR sequence that selects `color` as foreground.
pub open spec fn ansi_code(color: Color) -> Seq<char> {
    match color {
        Color::Reset => "0"@,
        Color::Black => "30"@,
        Color::Red => "31"@,
        Color::Green => "32"@,
        Color::Yellow => "33"@,
        Color::Blue => "34"@,
        Color::Magenta => "35"@,
        Color::Cyan => "36"@,
        Color::Gray => "37"@,
        Color::DarkGray => "90"@,
        Color::LightRed => "91"@,
        Color::LightGreen => "92"@,
        Color::LightYellow => "93"@,
        Color::LightBlue => "94"@,
        Color::LightMagenta => "95"@,
        Color::LightCyan => "96"@,
        Color::White => "97"@,
        Color::Rgb(r, g, b) => "38;2;"@ + decimal(r as nat) + ";"@ + decimal(g as nat) + ";"@
            + decimal(b as nat),
        Color::Indexed(i) => "38;5;"@ + decimal(i as nat),
    }
}

/// The parameters of a color's SGR sequence hold no character that would
/// end the sequence early.
pub proof fn lemma_ansi_code_params(color: Color)
    ensures
        csi_params(ansi_code(color)),
{
    reveal_strlit("0");
    reveal_strlit("30");
    reveal_strlit("31");
    reveal_strlit("32");
    reveal_strlit("33");
    reveal_strlit("34");
    reveal_strlit("35");
    reveal_strlit("36");
    reveal_strlit("37");
    reveal_strlit("90");
    reveal_strlit("91");
    reveal_strlit("92");
    reveal_strlit("93");
    reveal_strlit("94");
    reveal_strlit("95");
    reveal_strlit("96");
    reveal_strlit("97");
    reveal_strlit("38;2;");
    reveal_strlit("38;5;");
    reveal_strlit(";");
    match color {
        Color::Rgb(r, g, b) => {
            lemma_decimal_params(r as nat);
            lemma_decimal_params(g as nat);
            lemma_decimal_params(b as nat);
            lemma_csi_params_concat("38;2;"@, decimal(r as nat));
            lemma_csi_params_concat("38;2;"@ + decimal(r as nat), ";"@);
            lemma_csi_params_concat("38;2;"@ + decimal(r as nat) + ";"@, decimal(g as nat));
            lemma_csi_params_concat("38;2;"@ + decimal(r as nat) + ";"@ + decimal(g as nat), ";"@);
            lemma_csi_params_concat(
                "38;2;"@ + decimal(r as nat) + ";"@ + decimal(g as nat) + ";"@,
                decimal(b as nat),
            );
        },
        Color::Indexed(i) => {
            lemma_decimal_params(i as nat);
            lemma_csi_params_concat("38;5;"@, decimal(i as nat));
        },
        _ => {},
    }
}

/// Convert a color to an ANSI foreground color code sequence.
pub fn ansi_color_code(color: Color) -> (r: String)
    ensures
        r@ == ansi_code(color),
{
    match color {
        Color::Reset => owned("0"),
        Color::Black => owned("30"),
        Color::Red => owned("31"),
        Color::Green => owned("32"),
        Color::Yellow => owned("33"),
        Color::Blue => owned("34"),
        Color::Magenta => owned("35"),
        Color::Cyan => owned("36"),
        Color::Gray => owned("37"),
        Color::DarkGray => owned("90"),
        Color::LightRed => owned("91"),
        Color::LightGreen => owned("92"),
        Color::LightYellow => owned("93"),
        Color::LightBlue => owned("94"),
        Color::LightMagenta => owned("95"),
        Color::LightCyan => owned("96"),
        Color::White => owned("97"),
        Color::Rgb(r, g, b) => {
            let rs = u8_decimal(r);
            let gs = u8_decimal(g);
            let bs = u8_decimal(b);
            let head = cat3("38;2;", rs.as_str(), ";");
            let mid = cat3(head.as_str(), gs.as_str(), ";");
            cat(mid.as_str(), bs.as_str())
        },
        Color::Indexed(i) => {
            let is = u8_decimal(i);
            cat("38;5;", is.as_str())
        },
    }
}

/// Get the ANSI color code for a severity level.
pub fn severity_color_code(theme: &Theme, severity: Severity) -> (r: String)
    ensures
        r@ == ansi_code(theme.severity_color(severity)),
{
    ansi_color_code(theme.color_for_severity(severity))
}

// ---------------------------------------------------------------------------
// Console markup
// ---------------------------------------------------------------------------

/// The console-markup name of `color`.
pub open spec fn markup_name(color: Color) -> Seq<char> {
    match color {
        Color::Reset => "default"@,
        Color::Black => "black"@,
        Color::Red => "red"@,
        Color::Green => "green"@,
        Color::Yellow => "yellow"@,
        Color::Blue => "blue"@,
        Color::Magenta => "magenta"@,
        Color::Cyan => "cyan"@,
        Color::Gray => "white"@,
        Color::DarkGray => "bright_black"@,
        Color::LightRed => "bright_red"@,
        Color::LightGreen => "bright_green"@,
        Color::LightYellow => "bright_yellow"@,
        Color::LightBlue => "bright_blue"@,
        Color::LightMagenta => "bright_magenta"@,
        Color::LightCyan => "bright_cyan"@,
        Color::White => "bright_white"@,
        Color::Rgb(r, g, b) => "rgb("@ + decimal(r as nat) + ","@ + decimal(g as nat) + ","@
            + decimal(b as nat) + ")"@,
        Color::Indexed(i) => "color("@ + decimal(i as nat) + ")"@,
    }
}

/// The console-markup name of a color.
pub fn color_to_markup(color: Color) -> (r: String)
    ensures
        r@ == markup_name(color),
{
    match color {
        Color::Reset => owned("default"),
        Color::Black => owned("black"),
        Color::Red => owned("red"),
        Color::Green => owned("green"),
        Color::Yellow => owned("yellow"),
        Color::Blue => owned("blue"),
        Color::Magenta => owned("magenta"),
        Color::Cyan => owned("cyan"),
        Color::Gray => owned("white"),
        Color::DarkGray => owned("bright_black"),
        Color::LightRed => owned("bright_red"),
        Color::LightGreen => owned("bright_green"),
        Color::LightYellow => owned("bright_yellow"),
        Color::LightBlue => owned("bright_blue"),
        Color::LightMagenta => owned("bright_magenta"),
        Color::LightCyan => owned("bright_cyan"),
        Color::White => owned("bright_white"),
        Color::Rgb(r, g, b) => {
            let rs = u8_decimal(r);
            let gs = u8_decimal(g);
            let bs = u8_decimal(b);
            let head = cat3("rgb(", rs.as_str(), ",");
            let mid = cat3(head.as_str(), gs.as_str(), ",");
            cat3(mid.as_str(), bs.as_str(), ")")
        },
        Color::Indexed(i) => {
            let is = u8_decimal(i);
            cat3("color(", is.as_str(), ")")
        },
    }
}

/// Markup for text in the color of a severity level: bold, in that color.
pub open spec fn severity_markup(theme: Theme, severity: Severity) -> Seq<char> {
    "bold "@ + markup_name(theme.severity_color(severity))
}

/// Markup for text in the color of a severity level.
pub fn severity_markup_of(theme: &Theme, severity: Severity) -> (r: String)
    ensures
        r@ == severity_markup(*theme, severity),
{
    let name = color_to_markup(theme.color_for_severity(severity));
    cat("bold ", name.as_str())
}

} // verus!
