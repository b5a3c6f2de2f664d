//! Pattern identifiers: splitting them into pack and pattern, and the lines
//! that describe the pattern that matched.
use vstd::prelude::*;
use crate::text::{
    chars_of, string_of, cat, cat5, no_esc, no_esc_lines, group_no_esc, shows, lemma_shows_plain,
    lemma_shows_concat,
};
use crate::highlight::{find_from, regex_display, format_regex_pattern, lemma_regex_display_shows};
use crate::wrap::views;

verus! {

/// Number of times `c` occurs in `s`.
pub open spec fn count_char(s: Seq<char>, c: char) -> nat
    decreases s.len(),
{
    if s.len() == 0 {
        0
    } else {
        count_char(s.drop_last(), c) + if s.last() == c {
            1nat
        } else {
            0nat
        }
    }
}

/// Index of the last `c` in `s`, or -1.
pub open spec fn find_last(s: Seq<char>, c: char) -> int
    decreases s.len(),
{
    if s.len() == 0 {
        -1
    } else if s.last() == c {
        s.len() - 1
    } else {
        find_last(s.drop_last(), c)
    }
}

/// A pattern identifier split into its pack and its pattern: at the first
/// `:` when both sides are non-empty, else, when it holds at least two dots,
/// at the last dot when both sides are non-empty; else no pack.
pub open spec fn split_id(id: Seq<char>) -> (Option<Seq<char>>, Seq<char>) {
    let c = find_from(id, 0, ':');
    if c > 0 && c + 1 < id.len() {
        (Some(id.take(c)), id.skip(c + 1))
    } else if count_char(id, '.') >= 2 {
        let d = find_last(id, '.');
        if d > 0 && d + 1 < id.len() {
            (Some(id.take(d)), id.skip(d + 1))
        } else {
            (None, id)
        }
    } else {
        (None, id)
    }
}

proof fn lemma_find_last(s: Seq<char>, c: char)
    ensures
        find_last(s, c) == -1 || (0 <= find_last(s, c) < s.len() && s[find_last(s, c)] == c),
    decreases s.len(),
{
    if s.len() > 0 && s.last() != c {
        lemma_find_last(s.drop_last(), c);
    }
}

proof fn lemma_find_from_first(s: Seq<char>, from: int, c: char)
    requires
        0 <= from,
    ensures
        find_from(s, from, c) == -1 || (from <= find_from(s, from, c) < s.len() && s[find_from(
            s,
            from,
            c,
        )] == c),
    decreases s.len() - from,
{
    if from < s.len() && s[from] != c {
        lemma_find_from_first(s, from + 1, c);
    }
}

/// Splitting a pattern identifier loses nothing: a pack and a pattern, both
/// non-empty, joined by the `:` or `.` between them give the identifier
/// back; without a pack, the pattern is the whole identifier.
pub proof fn law_split_id_rejoins(id: Seq<char>)
    ensures
        match split_id(id) {
            (Some(pack), pattern) => {
                &&& pack.len() > 0
                &&& pattern.len() > 0
                &&& (id == pack + seq![':'] + pattern || id == pack + seq!['.'] + pattern)
            },
            (None, pattern) => pattern == id,
        },
{
    lemma_find_from_first(id, 0, ':');
    lemma_find_last(id, '.');
    let c = find_from(id, 0, ':');
    if c > 0 && c + 1 < id.len() {
        assert(id =~= id.take(c) + seq![':'] + id.skip(c + 1));
    } else if count_char(id, '.') >= 2 {
        let d = find_last(id, '.');
        if d > 0 && d + 1 < id.len() {
            assert(id =~= id.take(d) + seq!['.'] + id.skip(d + 1));
        }
    }
}

fn count_char_exec(v: &Vec<char>, c: char) -> (n: usize)
    ensures
        n == count_char(v@, c),
{
    let mut n: usize = 0;
    let mut i: usize = 0;
    while i < v.len()
        invariant
            i <= v.len(),
            n == count_char(v@.take(i as int), c),
            n <= i,
        decreases v.len() - i,
    {
        assert(v@.take(i + 1).drop_last() =~= v@.take(i as int));
        if v[i] == c {
            n = n + 1;
        }
        i = i + 1;
    }
    assert(v@.take(v.len() as int) =~= v@);
    n
}

fn find_last_exec(v: &Vec<char>, c: char) -> (r: Option<usize>)
    ensures
        match r {
            Some(d) => find_last(v@, c) == d as int && d < v.len(),
            None => find_last(v@, c) == -1,
        },
{
    let mut i = v.len();
    assert(v@.take(v.len() as int) =~= v@);
    while i > 0
        invariant
            i <= v.len(),
            find_last(v@, c) == find_last(v@.take(i as int), c),
        decreases i,
    {
        assert(v@.take(i as int).drop_last() =~= v@.take(i - 1));
        if v[i - 1] == c {
            return Some(i - 1);
        }
        i = i - 1;
    }
    None
}

fn find_first_exec(v: &Vec<char>, c: char) -> (r: Option<usize>)
    ensures
        match r {
            Some(k) => find_from(v@, 0, c) == k as int && k < v.len(),
            None => find_from(v@, 0, c) == -1,
        },
{
    let mut k: usize = 0;
    while k < v.len()
        invariant
            find_from(v@, 0, c) == find_from(v@, k as int, c),
        decreases v.len() - k,
    {
        if v[k] == c {
            return Some(k);
        }
        k = k + 1;
    }
    None
}

fn sub_string(v: &Vec<char>, from: usize, to: usize) -> (r: String)
    requires
        from <= to <= v.len(),
    ensures
        r@ == v@.subrange(from as int, to as int),
{
    let mut w: Vec<char> = Vec::new();
    let mut i = from;
    while i < to
        invariant
            from <= i <= to <= v.len(),
            w@ == v@.subrange(from as int, i as int),
        decreases to - i,
    {
        w.push(v[i]);
        i = i + 1;
        assert(w@ =~= v@.subrange(from as int, i as int));
    }
    string_of(&w)
}

/// Split a pattern identifier into (pack, pattern) if possible.
pub fn split_pattern_id(pattern_id: &str) -> (r: (Option<String>, String))
    ensures
        (match r.0 {
            Some(p) => Some(p@),
            None => None,
        }, r.1@) == split_id(pattern_id@),
{
    let v = chars_of(pattern_id);
    let n = v.len();
    match find_first_exec(&v, ':') {
        Some(c) => {
            if c > 0 && c + 1 < n {
                assert(v@.take(c as int) =~= v@.subrange(0, c as int));
                assert(v@.skip(c + 1) =~= v@.subrange(c + 1, n as int));
                return (Some(sub_string(&v, 0, c)), sub_string(&v, c + 1, n));
            }
        },
        None => {},
    }
    if count_char_exec(&v, '.') >= 2 {
        match find_last_exec(&v, '.') {
            Some(d) => {
                if d > 0 && d + 1 < n {
                    assert(v@.take(d as int) =~= v@.subrange(0, d as int));
                    assert(v@.skip(d + 1) =~= v@.subrange(d + 1, n as int));
                    return (Some(sub_string(&v, 0, d)), sub_string(&v, d + 1, n));
                }
            },
            None => {},
        }
    }
    assert(v@.subrange(0, n as int) =~= v@);
    (None, sub_string(&v, 0, n))
}

/// The lines that describe the pattern that matched: its name, its pack and
/// severity, and the regex when one is known.
pub open spec fn pattern_lines(
    id: Seq<char>,
    label: Seq<char>,
    regex: Option<Seq<char>>,
    use_color: bool,
) -> Seq<Seq<char>> {
    let base = match split_id(id) {
        (Some(pack), pattern) => seq![
            "Pattern: "@ + pattern,
            "Pack: "@ + pack + " (severity: "@ + label + ")"@,
        ],
        (None, pattern) => seq!["Pattern: "@ + pattern + " ("@ + label + ")"@],
    };
    match regex {
        Some(r) => base.push("Regex: "@ + regex_display(r, use_color)),
        None => base,
    }
}

/// The view of an optional string.
pub open spec fn opt_view(o: Option<String>) -> Option<Seq<char>> {
    match o {
        Some(s) => Some(s@),
        None => None,
    }
}

/// Format the lines that describe a pattern.
pub fn format_pattern_lines(
    pattern_id: &str,
    severity_label: &str,
    pattern_regex: Option<&str>,
    use_color: bool,
) -> (r: Vec<String>)
    ensures
        views(r@) == pattern_lines(
            pattern_id@,
            severity_label@,
            match pattern_regex {
                Some(s) => Some(s@),
                None => None,
            },
            use_color,
        ),
{
    let (pack, pattern) = split_pattern_id(pattern_id);
    let mut lines: Vec<String> = Vec::new();
    match pack {
        Some(pack_id) => {
            lines.push(cat("Pattern: ", pattern.as_str()));
            lines.push(cat5("Pack: ", pack_id.as_str(), " (severity: ", severity_label, ")"));
        },
        None => {
            lines.push(cat5("Pattern: ", pattern.as_str(), " (", severity_label, ")"));
        },
    }
    match pattern_regex {
        Some(regex) => {
            let shown = format_regex_pattern(regex, use_color);
            lines.push(cat("Regex: ", shown.as_str()));
        },
        None => {},
    }
    let ghost expected = pattern_lines(
        pattern_id@,
        severity_label@,
        match pattern_regex {
            Some(s) => Some(s@),
            None => None,
        },
        use_color,
    );
    assert(views(lines@) =~= expected);
    lines
}

/// Without colors, the pattern lines hold no escape character that the
/// identifier, the label and the regex do not hold.
pub proof fn lemma_pattern_lines_no_esc(
    id: Seq<char>,
    label: Seq<char>,
    regex: Option<Seq<char>>,
)
    requires
        no_esc(id),
        no_esc(label),
        regex matches Some(r) ==> no_esc(r),
    ensures
        no_esc_lines(pattern_lines(id, label, regex, false)),
{
    broadcast use group_no_esc;

    reveal_strlit("Pattern: ");
    reveal_strlit("Pack: ");
    reveal_strlit(" (severity: ");
    reveal_strlit(")");
    reveal_strlit(" (");
    reveal_strlit("Regex: ");
    let c = find_from(id, 0, ':');
    let d = find_last(id, '.');
    let lines = pattern_lines(id, label, regex, false);
    assert forall|i: int| 0 <= i < lines.len() implies no_esc(#[trigger] lines[i]) by {
        if c > 0 && c + 1 < id.len() {
            assert(id.take(c) == id.subrange(0, c));
            assert(id.skip(c + 1) == id.subrange(c + 1, id.len() as int));
        } else if count_char(id, '.') >= 2 && d > 0 && d + 1 < id.len() {
            assert(id.take(d) == id.subrange(0, d));
            assert(id.skip(d + 1) == id.subrange(d + 1, id.len() as int));
        }
    }
}

/// With colors, each pattern line shows as many characters as it holds
/// without colors.
pub proof fn lemma_pattern_lines_shows(
    id: Seq<char>,
    label: Seq<char>,
    regex: Option<Seq<char>>,
)
    requires
        no_esc(id),
        no_esc(label),
        regex matches Some(r) ==> no_esc(r),
    ensures
        pattern_lines(id, label, regex, true).len() == pattern_lines(id, label, regex, false).len(),
        forall|i: int|
            0 <= i < pattern_lines(id, label, regex, true).len() ==> shows(
                #[trigger] pattern_lines(id, label, regex, true)[i],
                pattern_lines(id, label, regex, false)[i].len(),
            ),
{
    reveal_strlit("Regex: ");
    lemma_pattern_lines_no_esc(id, label, regex);
    let plain = pattern_lines(id, label, regex, false);
    let colored = pattern_lines(id, label, regex, true);
    let base = match split_id(id) {
        (Some(pack), pattern) => seq![
            "Pattern: "@ + pattern,
            "Pack: "@ + pack + " (severity: "@ + label + ")"@,
        ],
        (None, pattern) => seq!["Pattern: "@ + pattern + " ("@ + label + ")"@],
    };
    assert forall|i: int| 0 <= i < colored.len() implies shows(
        #[trigger] colored[i],
        plain[i].len(),
    ) by {
        assert(no_esc(plain[i]));
        lemma_shows_plain(plain[i]);
        if i < base.len() {
            assert(colored[i] == base[i]);
            assert(plain[i] == base[i]);
        } else {
            let r = regex->0;
            assert(colored[i] == "Regex: "@ + regex_display(r, true));
            assert(plain[i] == "Regex: "@ + r);
            lemma_regex_display_shows(r);
            assert(no_esc("Regex: "@));
            lemma_shows_plain("Regex: "@);
            lemma_shows_concat("Regex: "@, 7, regex_display(r, true), r.len());
        }
    }
}

/// The pattern lines name the pattern, then its pack with the severity (or
/// the severity beside the pattern when there is no pack), then the regex
/// exactly when one is given.
pub proof fn law_pattern_lines_describe(
    id: Seq<char>,
    label: Seq<char>,
    regex: Option<Seq<char>>,
    use_color: bool,
)
    ensures
        ({
            let ls = pattern_lines(id, label, regex, use_color);
            let n = if split_id(id).0 is Some {
                2int
            } else {
                1int
            };
            &&& ls.len() == n + if regex is Some {
                1int
            } else {
                0int
            }
            &&& (split_id(id) matches (Some(pack), pattern) ==> ls[0] == "Pattern: "@ + pattern
                && ls[1] == "Pack: "@ + pack + " (severity: "@ + label + ")"@)
            &&& (split_id(id) matches (None, pattern) ==> ls[0] == "Pattern: "@ + pattern + " ("@
                + label + ")"@)
            &&& (regex matches Some(r) ==> ls[n] == "Regex: "@ + regex_display(r, use_color))
        }),
{
}

} // verus!
