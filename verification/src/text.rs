//! Character-level text helpers: whitespace, escape sequences, padding,
//! repetition and decimal numbers.
use vstd::prelude::*;

verus! {

/// The escape character that opens every terminal control sequence.
pub open spec fn esc() -> char {
    '\x1b'
}

/// Calls `String::push` of std, which vstd gives no contract; the contract
/// claims what its documentation says: afterwards the string is the old one
/// with `c` appended at the end.
#[verifier::external_body]
pub(crate) fn push_char(s: &mut String, c: char)
    ensures
        final(s)@ == old(s)@.push(c),
{
    s.push(c)
}

/// The characters of `s`, in order.
pub fn chars_of(s: &str) -> (v: Vec<char>)
    ensures
        v@ == s@,
{
    let mut v: Vec<char> = Vec::new();
    for c in it: s.chars()
        invariant
            v@ == it.seq().take(it.index() as int),
    {
        v.push(c);
    }
    v
}

/// A string made of the characters of `cs`, in order.
pub fn string_of(cs: &Vec<char>) -> (s: String)
    ensures
        s@ == cs@,
{
    let mut s = String::new();
    let mut i: usize = 0;
    while i < cs.len()
        invariant
            i <= cs.len(),
            s@ == cs@.take(i as int),
        decreases cs.len() - i,
    {
        push_char(&mut s, cs[i]);
        i = i + 1;
        assert(s@ =~= cs@.take(i as int));
    }
    assert(cs@.take(cs.len() as int) =~= cs@);
    s
}

/// A fresh string with the contents of `s`.
pub fn owned(s: &str) -> (r: String)
    ensures
        r@ == s@,
{
    String::from_str(s)
}

/// `a` followed by `b`.
pub fn cat(a: &str, b: &str) -> (r: String)
    ensures
        r@ == a@ + b@,
{
    let mut r = String::from_str(a);
    r.append(b);
    r
}

/// `a`, `b` and `c` in turn.
pub fn cat3(a: &str, b: &str, c: &str) -> (r: String)
    ensures
        r@ == a@ + b@ + c@,
{
    let mut r = String::from_str(a);
    r.append(b);
    r.append(c);
    r
}

/// `a`, `b`, `c` and `d` in turn.
pub fn cat4(a: &str, b: &str, c: &str, d: &str) -> (r: String)
    ensures
        r@ == a@ + b@ + c@ + d@,
{
    let mut r = String::from_str(a);
    r.append(b);
    r.append(c);
    r.append(d);
    r
}

/// `a`, `b`, `c`, `d` and `e` in turn.
pub fn cat5(a: &str, b: &str, c: &str, d: &str, e: &str) -> (r: String)
    ensures
        r@ == a@ + b@ + c@ + d@ + e@,
{
    let mut r = String::from_str(a);
    r.append(b);
    r.append(c);
    r.append(d);
    r.append(e);
    r
}

// ---------------------------------------------------------------------------
// Whitespace
// ---------------------------------------------------------------------------

/// Unicode `White_Space`: the characters for which `char::is_whitespace` holds.
pub open spec fn is_ws(c: char) -> bool {
    ||| ('\u{9}' <= c && c <= '\u{d}')
    ||| c == ' '
    ||| c == '\u{85}'
    ||| c == '\u{a0}'
    ||| c == '\u{1680}'
    ||| ('\u{2000}' <= c && c <= '\u{200a}')
    ||| c == '\u{2028}'
    ||| c == '\u{2029}'
    ||| c == '\u{202f}'
    ||| c == '\u{205f}'
    ||| c == '\u{3000}'
}

/// Whether `c` is Unicode whitespace.
pub fn is_whitespace(c: char) -> (r: bool)
    ensures
        r == is_ws(c),
{
    ('\u{9}' <= c && c <= '\u{d}') || c == ' ' || c == '\u{85}' || c == '\u{a0}' || c
        == '\u{1680}' || ('\u{2000}' <= c && c <= '\u{200a}') || c == '\u{2028}' || c
        == '\u{2029}' || c == '\u{202f}' || c == '\u{205f}' || c == '\u{3000}'
}

/// Number of whitespace characters at the start of `s`.
pub open spec fn leading_ws(s: Seq<char>) -> nat
    decreases s.len(),
{
    if s.len() > 0 && is_ws(s[0]) {
        1 + leading_ws(s.drop_first())
    } else {
        0
    }
}

/// Number of whitespace characters at the end of `s`.
pub open spec fn trailing_ws(s: Seq<char>) -> nat
    decreases s.len(),
{
    if s.len() > 0 && is_ws(s.last()) {
        1 + trailing_ws(s.drop_last())
    } else {
        0
    }
}

/// The leading whitespace is whitespace, and the character after it is not.
pub proof fn lemma_leading_ws(s: Seq<char>)
    ensures
        leading_ws(s) <= s.len(),
        forall|i: int| 0 <= i < leading_ws(s) ==> is_ws(#[trigger] s[i]),
        leading_ws(s) < s.len() ==> !is_ws(s[leading_ws(s) as int]),
    decreases s.len(),
{
    if s.len() > 0 && is_ws(s[0]) {
        lemma_leading_ws(s.drop_first());
        assert forall|i: int| 0 <= i < leading_ws(s) implies is_ws(#[trigger] s[i]) by {
            if i > 0 {
                assert(s[i] == s.drop_first()[i - 1]);
            }
        }
    }
}

/// The trailing whitespace is whitespace, and the character before it is not.
pub proof fn lemma_trailing_ws(s: Seq<char>)
    ensures
        trailing_ws(s) <= s.len(),
        forall|i: int| s.len() - trailing_ws(s) <= i < s.len() ==> is_ws(#[trigger] s[i]),
        trailing_ws(s) < s.len() ==> !is_ws(s[s.len() - trailing_ws(s) - 1]),
    decreases s.len(),
{
    if s.len() > 0 && is_ws(s.last()) {
        lemma_trailing_ws(s.drop_last());
        assert forall|i: int| s.len() - trailing_ws(s) <= i < s.len() implies is_ws(
            #[trigger] s[i],
        ) by {
            if i < s.len() - 1 {
                assert(s[i] == s.drop_last()[i]);
            }
        }
    }
}

/// `s` without whitespace at either end, as `str::trim` gives it.
pub open spec fn trim(s: Seq<char>) -> Seq<char> {
    let t = s.skip(leading_ws(s) as int);
    t.take(t.len() - trailing_ws(t))
}

/// `s` without whitespace at its end, as `str::trim_end` gives it.
pub open spec fn trim_end(s: Seq<char>) -> Seq<char> {
    s.take(s.len() - trailing_ws(s))
}

/// Index of the first character of `v` from `from` on that is not whitespace
/// (or `v.len()` when there is none).
fn skip_ws(v: &Vec<char>, from: usize) -> (r: usize)
    requires
        from <= v.len(),
    ensures
        from <= r <= v.len(),
        r == from + leading_ws(v@.skip(from as int)),
{
    let mut i = from;
    while i < v.len() && is_whitespace(v[i])
        invariant
            from <= i <= v.len(),
            leading_ws(v@.skip(from as int)) == (i - from) + leading_ws(v@.skip(i as int)),
        decreases v.len() - i,
    {
        assert(v@.skip(i as int).drop_first() =~= v@.skip(i + 1));
        i = i + 1;
    }
    i
}

/// End of `v[..to]` once whitespace at its end is left out.
fn skip_ws_back(v: &Vec<char>, to: usize) -> (r: usize)
    requires
        to <= v.len(),
    ensures
        r <= to,
        r == to - trailing_ws(v@.take(to as int)),
{
    let mut j = to;
    while j > 0 && is_whitespace(v[j - 1])
        invariant
            j <= to <= v.len(),
            trailing_ws(v@.take(to as int)) == (to - j) + trailing_ws(v@.take(j as int)),
        decreases j,
    {
        assert(v@.take(j as int).drop_last() =~= v@.take(j - 1));
        j = j - 1;
    }
    j
}

/// `s` without whitespace at either end.
pub fn trim_chars(s: &str) -> (r: Vec<char>)
    ensures
        r@ == trim(s@),
{
    let v = chars_of(s);
    let a = skip_ws(&v, 0);
    assert(v@.skip(0) =~= v@);
    let b = skip_ws_back(&v, v.len());
    assert(v@.take(v.len() as int) =~= v@);
    proof {
        lemma_leading_ws(v@);
        lemma_trailing_ws(v@);
    }
    // The whitespace counted from the back stops at `a` at the latest.
    let ghost t = v@.skip(a as int);
    let mut r: Vec<char> = Vec::new();
    if a < b {
        let mut i = a;
        while i < b
            invariant
                a <= i <= b <= v.len(),
                r@ == v@.subrange(a as int, i as int),
            decreases b - i,
        {
            r.push(v[i]);
            i = i + 1;
            assert(r@ =~= v@.subrange(a as int, i as int));
        }
    }
    proof {
        lemma_trailing_ws(t);
        lemma_trailing_ws_shift(v@, a as int);
        if a < b {
            assert(r@ =~= t.take(t.len() - trailing_ws(t)));
        } else {
            assert(trailing_ws(t) == t.len());
            assert(r@ =~= t.take(t.len() - trailing_ws(t)));
        }
    }
    r
}

/// Whitespace at the end of `s` does not depend on a purely-whitespace
/// stretch in front of it being cut off.
proof fn lemma_trailing_ws_shift(s: Seq<char>, a: int)
    requires
        0 <= a <= s.len(),
        a == leading_ws(s),
    ensures
        ({
            let t = s.skip(a);
            &&& a < s.len() - trailing_ws(s) ==> trailing_ws(t) == trailing_ws(s)
            &&& a >= s.len() - trailing_ws(s) ==> trailing_ws(t) == t.len()
        }),
{
    lemma_leading_ws(s);
    lemma_trailing_ws(s);
    lemma_trailing_ws_suffix(s, a);
}

/// `trailing_ws` of a suffix is the smaller of the suffix's length and
/// `trailing_ws` of the whole.
proof fn lemma_trailing_ws_suffix(s: Seq<char>, a: int)
    requires
        0 <= a <= s.len(),
    ensures
        trailing_ws(s.skip(a)) == if trailing_ws(s) <= s.len() - a {
            trailing_ws(s) as int
        } else {
            s.len() - a
        },
    decreases s.len(),
{
    let t = s.skip(a);
    if s.len() == a {
        assert(t.len() == 0);
    } else if is_ws(s.last()) {
        assert(t.last() == s.last());
        assert(t.drop_last() =~= s.drop_last().skip(a));
        lemma_trailing_ws_suffix(s.drop_last(), a);
    } else {
        assert(t.last() == s.last());
    }
}

// ---------------------------------------------------------------------------
// Terminal escape sequences
// ---------------------------------------------------------------------------

/// Where the scan of a string for escape sequences stands.
#[derive(Clone, Copy, Debug, PartialEq, Eq, Structural)]
pub enum EscState {
    /// Ordinary text: characters are kept.
    Normal,
    /// Just after an escape character.
    EscOpen,
    /// Inside `ESC [ ...`, which ends on a character in `0x40..=0x7E`.
    Csi,
    /// Inside `ESC ] ...`, which ends on BEL or on `ESC \`.
    Osc,
    /// Inside an OSC sequence, just after an escape character.
    OscWantSt,
}

/// One step of the scan: the next state, and the character kept, if any.
pub open spec fn esc_step(st: EscState, c: char) -> (EscState, Option<char>) {
    match st {
        EscState::Normal => if c == esc() {
            (EscState::EscOpen, None)
        } else {
            (EscState::Normal, Some(c))
        },
        EscState::EscOpen => if c == '[' {
            (EscState::Csi, None)
        } else if c == ']' {
            (EscState::Osc, None)
        } else {
            (EscState::Normal, None)
        },
        EscState::Csi => if '\x40' <= c && c <= '\x7e' {
            (EscState::Normal, None)
        } else {
            (EscState::Csi, None)
        },
        EscState::Osc => if c == '\x07' {
            (EscState::Normal, None)
        } else if c == esc() {
            (EscState::OscWantSt, None)
        } else {
            (EscState::Osc, None)
        },
        EscState::OscWantSt => if c == '\\' {
            (EscState::Normal, None)
        } else {
            (EscState::EscOpen, None)
        },
    }
}

/// The kept characters and the final state after scanning all of `s`.
pub open spec fn esc_scan(s: Seq<char>) -> (Seq<char>, EscState)
    decreases s.len(),
{
    if s.len() == 0 {
        (Seq::empty(), EscState::Normal)
    } else {
        let (kept, st) = esc_scan(s.drop_last());
        let (st2, out) = esc_step(st, s.last());
        match out {
            Some(c) => (kept.push(c), st2),
            None => (kept, st2),
        }
    }
}

/// `s` with every terminal escape sequence (CSI, OSC, two-character) left out.
pub open spec fn strip_ansi(s: Seq<char>) -> Seq<char> {
    esc_scan(s).0
}

fn esc_step_exec(st: EscState, c: char) -> (r: (EscState, Option<char>))
    ensures
        r == esc_step(st, c),
{
    match st {
        EscState::Normal => if c == '\x1b' {
            (EscState::EscOpen, None)
        } else {
            (EscState::Normal, Some(c))
        },
        EscState::EscOpen => if c == '[' {
            (EscState::Csi, None)
        } else if c == ']' {
            (EscState::Osc, None)
        } else {
            (EscState::Normal, None)
        },
        EscState::Csi => if '\x40' <= c && c <= '\x7e' {
            (EscState::Normal, None)
        } else {
            (EscState::Csi, None)
        },
        EscState::Osc => if c == '\x07' {
            (EscState::Normal, None)
        } else if c == '\x1b' {
            (EscState::OscWantSt, None)
        } else {
            (EscState::Osc, None)
        },
        EscState::OscWantSt => if c == '\\' {
            (EscState::Normal, None)
        } else {
            (EscState::EscOpen, None)
        },
    }
}

/// Strip terminal escape sequences from a string, leaving the visible text.
///
/// CSI sequences (`ESC [`) end on any character in `0x40..=0x7E`; OSC
/// sequences (`ESC ]`) end on BEL or on `ESC \\`; any other character after
/// an escape is dropped together with it.
pub fn strip_ansi_codes(s: &str) -> (r: String)
    ensures
        r@ == strip_ansi(s@),
{
    let mut r = String::new();
    let mut st = EscState::Normal;
    for c in it: s.chars()
        invariant
            it.seq() == s@,
            (r@, st) == esc_scan(it.seq().take(it.index() as int)),
    {
        let ghost pre = it.seq().take(it.index() as int);
        let (st2, out) = esc_step_exec(st, c);
        match out {
            Some(k) => push_char(&mut r, k),
            None => {},
        }
        st = st2;
        proof {
            let next = it.seq().take(it.index() + 1);
            assert(next.drop_last() =~= pre);
            assert(next.last() == c);
        }
    }
    assert(s@.take(s@.len() as int) =~= s@);
    r
}

/// Stripping never keeps an escape character.
pub proof fn lemma_strip_ansi_no_esc(s: Seq<char>)
    ensures
        !strip_ansi(s).contains(esc()),
    decreases s.len(),
{
    if s.len() > 0 {
        lemma_strip_ansi_no_esc(s.drop_last());
        let (kept, st) = esc_scan(s.drop_last());
        let (st2, out) = esc_step(st, s.last());
        if let Some(c) = out {
            assert(c != esc());
            assert forall|i: int| 0 <= i < kept.push(c).len() implies kept.push(c)[i] != esc() by {
                if i < kept.len() {
                    assert(kept.push(c)[i] == kept[i]);
                }
            }
        }
    }
}

/// Text without an escape character is left as it is, and the scan ends in
/// ordinary text.
pub proof fn lemma_strip_ansi_plain(s: Seq<char>)
    requires
        !s.contains(esc()),
    ensures
        esc_scan(s) == (s, EscState::Normal),
    decreases s.len(),
{
    if s.len() > 0 {
        assert(!s.drop_last().contains(esc())) by {
            if s.drop_last().contains(esc()) {
                let i = choose|i: int| 0 <= i < s.drop_last().len() && s.drop_last()[i] == esc();
                assert(s[i] == esc());
            }
        }
        lemma_strip_ansi_plain(s.drop_last());
        assert(s.last() != esc()) by {
            assert(s[s.len() - 1] == s.last());
        }
        assert(s.drop_last().push(s.last()) =~= s);
    }
}

/// Stripping twice is stripping once.
pub proof fn lemma_strip_ansi_idempotent(s: Seq<char>)
    ensures
        strip_ansi(strip_ansi(s)) == strip_ansi(s),
{
    lemma_strip_ansi_no_esc(s);
    lemma_strip_ansi_plain(strip_ansi(s));
}

/// Stripping never lengthens a string.
pub proof fn lemma_strip_ansi_len(s: Seq<char>)
    ensures
        strip_ansi(s).len() <= s.len(),
    decreases s.len(),
{
    if s.len() > 0 {
        lemma_strip_ansi_len(s.drop_last());
    }
}

/// `a` is `b` with some characters left out: the positions `f` in `b` of
/// the characters of `a` rise.
pub open spec fn picks(f: Seq<int>, a: Seq<char>, b: Seq<char>) -> bool {
    &&& f.len() == a.len()
    &&& forall|i: int| 0 <= i < f.len() ==> 0 <= #[trigger] f[i] < b.len() && b[f[i]] == a[i]
    &&& forall|i: int, j: int| 0 <= i < j < f.len() ==> #[trigger] f[i] < #[trigger] f[j]
}

/// `a` is a subsequence of `b`.
pub open spec fn subsequence(a: Seq<char>, b: Seq<char>) -> bool {
    exists|f: Seq<int>| picks(f, a, b)
}

proof fn strip_positions(s: Seq<char>) -> (f: Seq<int>)
    ensures
        picks(f, strip_ansi(s), s),
    decreases s.len(),
{
    if s.len() == 0 {
        Seq::empty()
    } else {
        let p = s.drop_last();
        let g = strip_positions(p);
        let (kept, st) = esc_scan(p);
        let (st2, out) = esc_step(st, s.last());
        assert forall|i: int| 0 <= i < g.len() implies 0 <= #[trigger] g[i] < s.len() && s[g[i]]
            == kept[i] by {
            assert(s[g[i]] == p[g[i]]);
        }
        match out {
            Some(c) => {
                let f = g.push(s.len() - 1);
                assert forall|i: int| 0 <= i < f.len() implies 0 <= #[trigger] f[i] < s.len() && s[f[i]]
                    == kept.push(c)[i] by {
                    if i < g.len() {
                        assert(f[i] == g[i]);
                    } else {
                        assert(esc_step(st, s.last()).1 == Some(c));
                        assert(c == s.last());
                    }
                }
                assert forall|i: int, j: int| 0 <= i < j < f.len() implies #[trigger] f[i]
                    < #[trigger] f[j] by {
                    assert(f[i] == g[i]);
                    if j < g.len() {
                        assert(f[j] == g[j]);
                    }
                }
                f
            },
            None => g,
        }
    }
}

/// Stripping only leaves characters out: what remains is a subsequence of
/// the input.
pub proof fn law_strip_ansi_subsequence(s: Seq<char>)
    ensures
        subsequence(strip_ansi(s), s),
{
    let f = strip_positions(s);
    assert(picks(f, strip_ansi(s), s));
}

// ---------------------------------------------------------------------------
// Repetition, padding, numbers
// ---------------------------------------------------------------------------

/// `n` copies of `c`.
pub open spec fn repeat(c: char, n: nat) -> Seq<char> {
    Seq::new(n, |i: int| c)
}

/// A string of `n` copies of `c`.
pub fn repeat_char(c: char, n: usize) -> (r: String)
    ensures
        r@ == repeat(c, n as nat),
{
    let mut r = String::new();
    let mut i: usize = 0;
    while i < n
        invariant
            i <= n,
            r@ == repeat(c, i as nat),
        decreases n - i,
    {
        push_char(&mut r, c);
        i = i + 1;
        assert(r@ =~= repeat(c, i as nat));
    }
    r
}

/// `a - b`, or zero when `b` is larger.
pub open spec fn sat_sub(a: int, b: int) -> nat {
    if a >= b {
        (a - b) as nat
    } else {
        0
    }
}

/// Number of visible characters of `s`: its characters outside escape sequences.
pub open spec fn visible_len(s: Seq<char>) -> nat {
    strip_ansi(s).len()
}

/// The spaces that fill `text` up to `width` visible characters.
pub open spec fn padding(text: Seq<char>, width: nat) -> Seq<char> {
    repeat(' ', sat_sub(width as int, visible_len(text) as int))
}

/// Padding needed to fill `width` columns after `text`, escape sequences
/// not counted.
pub fn padding_for(text: &str, width: usize) -> (r: String)
    ensures
        r@ == padding(text@, width as nat),
{
    let visible = strip_ansi_codes(text);
    let n = chars_of(visible.as_str()).len();
    let pad = width.saturating_sub(n);
    repeat_char(' ', pad)
}

/// Padding fills a text up to the width: when the text's visible part fits,
/// it and the padding take exactly `width` columns; a text wider than that
/// gets no padding.
pub proof fn law_padding_fills(text: Seq<char>, width: nat)
    ensures
        visible_len(text) <= width ==> visible_len(text) + padding(text, width).len() == width,
        visible_len(text) > width ==> padding(text, width).len() == 0,
{
}

/// The decimal digit for `d`.
pub open spec fn digit(d: nat) -> char {
    (48 + d) as char
}

/// The decimal representation of `n`, without leading zeros.
pub open spec fn decimal(n: nat) -> Seq<char>
    decreases n,
{
    if n < 10 {
        seq![digit(n)]
    } else {
        decimal(n / 10).push(digit(n % 10))
    }
}

fn digit_char(d: u8) -> (c: char)
    requires
        d < 10,
    ensures
        c == digit(d as nat),
{
    let b: u8 = 48 + d;
    b as char
}

/// The decimal representation of a byte value.
pub fn u8_decimal(n: u8) -> (r: String)
    ensures
        r@ == decimal(n as nat),
{
    let mut r = String::new();
    if n >= 100 {
        push_char(&mut r, digit_char(n / 100));
        push_char(&mut r, digit_char((n / 10) % 10));
        push_char(&mut r, digit_char(n % 10));
        let ghost m = n as nat;
        assert(decimal(m / 10 / 10) == seq![digit(m / 10 / 10)]);
        assert(decimal(m / 10) == decimal(m / 10 / 10).push(digit((m / 10) % 10)));
        assert(decimal(m) == decimal(m / 10).push(digit(m % 10)));
        assert(r@ =~= decimal(n as nat));
    } else if n >= 10 {
        push_char(&mut r, digit_char(n / 10));
        push_char(&mut r, digit_char(n % 10));
        let ghost m = n as nat;
        assert(decimal(m / 10) == seq![digit(m / 10)]);
        assert(decimal(m) == decimal(m / 10).push(digit(m % 10)));
        assert(r@ =~= decimal(n as nat));
    } else {
        push_char(&mut r, digit_char(n));
        assert(r@ =~= decimal(n as nat));
    }
    r
}

// ---------------------------------------------------------------------------
// Complete escape sequences
// ---------------------------------------------------------------------------

/// The scan of `s` ends in ordinary text: every escape sequence in it is
/// complete.
pub open spec fn ends_plain(s: Seq<char>) -> bool {
    esc_scan(s).1 == EscState::Normal
}

/// After text whose escape sequences are complete, the scan starts afresh.
pub proof fn lemma_esc_scan_concat(a: Seq<char>, b: Seq<char>)
    requires
        ends_plain(a),
    ensures
        esc_scan(a + b) == (strip_ansi(a) + strip_ansi(b), esc_scan(b).1),
    decreases b.len(),
{
    if b.len() == 0 {
        assert(a + b =~= a);
        assert(strip_ansi(a) + strip_ansi(b) =~= strip_ansi(a));
    } else {
        assert((a + b).drop_last() =~= a + b.drop_last());
        assert((a + b).last() == b.last());
        lemma_esc_scan_concat(a, b.drop_last());
        let (kept, st) = esc_scan(b.drop_last());
        let (st2, out) = esc_step(st, b.last());
        if let Some(c) = out {
            assert(strip_ansi(a) + kept.push(c) =~= (strip_ansi(a) + kept).push(c));
        }
    }
}

/// The parameters of a CSI sequence: no character that would end it.
pub open spec fn csi_params(p: Seq<char>) -> bool {
    forall|i: int| 0 <= i < p.len() ==> !('\x40' <= #[trigger] p[i] && p[i] <= '\x7e')
}

/// The SGR sequence `ESC [ p m`.
pub open spec fn sgr(p: Seq<char>) -> Seq<char> {
    "\x1b["@ + p + "m"@
}

proof fn lemma_csi_params_scan(a: Seq<char>, p: Seq<char>)
    requires
        esc_scan(a).1 == EscState::Csi,
        csi_params(p),
    ensures
        esc_scan(a + p) == (esc_scan(a).0, EscState::Csi),
    decreases p.len(),
{
    if p.len() == 0 {
        assert(a + p =~= a);
    } else {
        assert((a + p).drop_last() =~= a + p.drop_last());
        assert((a + p).last() == p.last());
        assert(csi_params(p.drop_last())) by {
            assert forall|i: int| 0 <= i < p.drop_last().len() implies !('\x40'
                <= #[trigger] p.drop_last()[i] && p.drop_last()[i] <= '\x7e') by {
                assert(p.drop_last()[i] == p[i]);
            }
        }
        lemma_csi_params_scan(a, p.drop_last());
        assert(p.last() == p[p.len() - 1]);
    }
}

/// A complete SGR sequence shows nothing and ends in ordinary text.
pub proof fn lemma_sgr(p: Seq<char>)
    requires
        csi_params(p),
    ensures
        esc_scan(sgr(p)) == (Seq::<char>::empty(), EscState::Normal),
{
    reveal_strlit("\x1b[");
    reveal_strlit("m");
    let open = "\x1b["@;
    assert(open.drop_last() =~= seq![esc()]);
    assert(seq![esc()].drop_last() =~= Seq::<char>::empty());
    assert(esc_scan(Seq::<char>::empty()) == (Seq::<char>::empty(), EscState::Normal));
    assert(seq![esc()].last() == esc());
    assert(esc_scan(seq![esc()]) == (Seq::<char>::empty(), EscState::EscOpen));
    assert(esc_scan(open) == (Seq::<char>::empty(), EscState::Csi));
    lemma_csi_params_scan(open, p);
    let s = sgr(p);
    assert(s.drop_last() =~= open + p);
    assert(s.last() == 'm');
}

/// Parameters joined are parameters.
pub proof fn lemma_csi_params_concat(a: Seq<char>, b: Seq<char>)
    requires
        csi_params(a),
        csi_params(b),
    ensures
        csi_params(a + b),
{
    assert forall|i: int| 0 <= i < (a + b).len() implies !('\x40' <= #[trigger] (a + b)[i] && (a
        + b)[i] <= '\x7e') by {
        if i < a.len() {
            assert((a + b)[i] == a[i]);
        } else {
            assert((a + b)[i] == b[i - a.len()]);
        }
    }
}

/// `s` ends in ordinary text and shows `n` characters once its escape
/// sequences are left out.
pub open spec fn shows(s: Seq<char>, n: nat) -> bool {
    ends_plain(s) && strip_ansi(s).len() == n
}

/// Pieces that each end in ordinary text show their characters one after
/// the other.
pub proof fn lemma_shows_concat(a: Seq<char>, n: nat, b: Seq<char>, m: nat)
    requires
        shows(a, n),
        shows(b, m),
    ensures
        shows(a + b, n + m),
        strip_ansi(a + b) == strip_ansi(a) + strip_ansi(b),
{
    lemma_esc_scan_concat(a, b);
}

/// Text without escape characters shows itself.
pub proof fn lemma_shows_plain(s: Seq<char>)
    requires
        no_esc(s),
    ensures
        shows(s, s.len()),
        strip_ansi(s) == s,
{
    assert(!s.contains(esc())) by {
        if s.contains(esc()) {
            let k = choose|k: int| 0 <= k < s.len() && s[k] == esc();
            assert(s[k] != esc());
        }
    }
    lemma_strip_ansi_plain(s);
}

/// A complete SGR sequence shows nothing.
pub proof fn lemma_shows_sgr(p: Seq<char>)
    requires
        csi_params(p),
    ensures
        shows(sgr(p), 0),
{
    lemma_sgr(p);
}

/// Every whitespace character of `s` stands outside escape sequences: the
/// text before it ends in ordinary text.
pub open spec fn ws_plain(s: Seq<char>) -> bool {
    forall|i: int| 0 <= i < s.len() && is_ws(#[trigger] s[i]) ==> ends_plain(s.take(i))
}

/// A prefix of `s` keeps the property.
pub proof fn lemma_ws_plain_take(s: Seq<char>, n: int)
    requires
        ws_plain(s),
        0 <= n <= s.len(),
    ensures
        ws_plain(s.take(n)),
{
    let p = s.take(n);
    assert forall|i: int| 0 <= i < p.len() && is_ws(#[trigger] p[i]) implies ends_plain(
        p.take(i),
    ) by {
        assert(p[i] == s[i]);
        assert(p.take(i) =~= s.take(i));
    }
}

/// Text whose escape sequences are complete, then text with the property,
/// has the property.
pub proof fn lemma_ws_plain_concat(a: Seq<char>, b: Seq<char>)
    requires
        ws_plain(a),
        ends_plain(a),
        ws_plain(b),
    ensures
        ws_plain(a + b),
{
    let s = a + b;
    assert forall|i: int| 0 <= i < s.len() && is_ws(#[trigger] s[i]) implies ends_plain(
        s.take(i),
    ) by {
        if i < a.len() {
            assert(s[i] == a[i]);
            assert(s.take(i) =~= a.take(i));
        } else {
            assert(s[i] == b[i - a.len()]);
            assert(s.take(i) =~= a + b.take(i - a.len()));
            lemma_esc_scan_concat(a, b.take(i - a.len()));
        }
    }
}

/// After text whose escape sequences are complete, the rest's sequences are
/// complete exactly when the whole's are; the property carries over too.
pub proof fn lemma_ws_plain_suffix(a: Seq<char>, b: Seq<char>)
    requires
        ws_plain(a + b),
        ends_plain(a),
    ensures
        ws_plain(b),
        ends_plain(a + b) == ends_plain(b),
{
    lemma_esc_scan_concat(a, b);
    let s = a + b;
    assert forall|i: int| 0 <= i < b.len() && is_ws(#[trigger] b[i]) implies ends_plain(
        b.take(i),
    ) by {
        assert(s[a.len() + i] == b[i]);
        assert(s.take(a.len() + i) =~= a + b.take(i));
        lemma_esc_scan_concat(a, b.take(i));
    }
}

/// Text without escape characters has the property and ends in ordinary
/// text.
pub proof fn lemma_plain_ws_plain(s: Seq<char>)
    requires
        no_esc(s),
    ensures
        ws_plain(s),
        ends_plain(s),
{
    lemma_shows_plain(s);
    assert forall|i: int| 0 <= i < s.len() && is_ws(#[trigger] s[i]) implies ends_plain(
        s.take(i),
    ) by {
        assert(no_esc(s.take(i))) by {
            assert forall|k: int| 0 <= k < s.take(i).len() implies #[trigger] s.take(i)[k]
                != esc() by {
                assert(s.take(i)[k] == s[k]);
            }
        }
        lemma_shows_plain(s.take(i));
    }
}

/// A complete SGR sequence whose parameters hold no whitespace has the
/// property.
pub proof fn lemma_sgr_ws_plain(p: Seq<char>)
    requires
        csi_params(p),
        forall|i: int| 0 <= i < p.len() ==> !is_ws(#[trigger] p[i]),
    ensures
        ws_plain(sgr(p)),
        ends_plain(sgr(p)),
{
    reveal_strlit("\x1b[");
    reveal_strlit("m");
    lemma_sgr(p);
    let s = sgr(p);
    assert forall|i: int| 0 <= i < s.len() && is_ws(#[trigger] s[i]) implies ends_plain(
        s.take(i),
    ) by {
        if i >= 2 && i < 2 + p.len() {
            assert(s[i] == p[i - 2]);
        }
    }
}

/// The digits of a number are CSI parameters.
pub proof fn lemma_decimal_params(n: nat)
    ensures
        csi_params(decimal(n)),
        forall|i: int| 0 <= i < decimal(n).len() ==> '0' <= #[trigger] decimal(n)[i] <= '9',
    decreases n,
{
    if n >= 10 {
        lemma_decimal_params(n / 10);
        let d = decimal(n / 10);
        assert forall|i: int| 0 <= i < decimal(n).len() implies '0' <= #[trigger] decimal(n)[i]
            <= '9' by {
            if i < d.len() {
                assert(decimal(n)[i] == d[i]);
            }
        }
    }
}

// ---------------------------------------------------------------------------
// Text without escape characters
// ---------------------------------------------------------------------------

/// `s` holds no escape character.
pub open spec fn no_esc(s: Seq<char>) -> bool {
    forall|i: int| 0 <= i < s.len() ==> #[trigger] s[i] != esc()
}

/// No line of `ls` holds an escape character.
pub open spec fn no_esc_lines(ls: Seq<Seq<char>>) -> bool {
    forall|i: int| 0 <= i < ls.len() ==> no_esc(#[trigger] ls[i])
}

/// Joined text holds no escape character exactly when both parts hold none.
pub broadcast proof fn lemma_no_esc_concat(a: Seq<char>, b: Seq<char>)
    ensures
        #[trigger] no_esc(a + b) == (no_esc(a) && no_esc(b)),
{
    if no_esc(a) && no_esc(b) {
        assert forall|i: int| 0 <= i < (a + b).len() implies #[trigger] (a + b)[i] != esc() by {
            if i < a.len() {
                assert((a + b)[i] == a[i]);
            } else {
                assert((a + b)[i] == b[i - a.len()]);
            }
        }
    }
    if no_esc(a + b) {
        assert forall|i: int| 0 <= i < a.len() implies #[trigger] a[i] != esc() by {
            assert((a + b)[i] == a[i]);
        }
        assert forall|i: int| 0 <= i < b.len() implies #[trigger] b[i] != esc() by {
            assert((a + b)[a.len() + i] == b[i]);
        }
    }
}

/// Part of text without escape characters holds none.
pub broadcast proof fn lemma_no_esc_subrange(s: Seq<char>, i: int, j: int)
    requires
        no_esc(s),
        0 <= i <= j <= s.len(),
    ensures
        #[trigger] no_esc(s.subrange(i, j)),
{
    assert forall|k: int| 0 <= k < s.subrange(i, j).len() implies #[trigger] s.subrange(i, j)[k]
        != esc() by {
        assert(s.subrange(i, j)[k] == s[i + k]);
    }
}

/// A character added holds no escape character unless it is one.
pub broadcast proof fn lemma_no_esc_push(s: Seq<char>, c: char)
    ensures
        #[trigger] no_esc(s.push(c)) == (no_esc(s) && c != esc()),
{
    assert(s.push(c) =~= s + seq![c]);
    lemma_no_esc_concat(s, seq![c]);
    assert(seq![c][0] == c);
}

/// Copies of a character other than the escape character hold none.
pub broadcast proof fn lemma_no_esc_repeat(c: char, n: nat)
    requires
        c != esc(),
    ensures
        #[trigger] no_esc(repeat(c, n)),
{
}

/// Joined lists of lines hold no escape character exactly when both hold none.
pub broadcast proof fn lemma_no_esc_lines_concat(a: Seq<Seq<char>>, b: Seq<Seq<char>>)
    ensures
        #[trigger] no_esc_lines(a + b) == (no_esc_lines(a) && no_esc_lines(b)),
{
    if no_esc_lines(a) && no_esc_lines(b) {
        assert forall|i: int| 0 <= i < (a + b).len() implies no_esc(#[trigger] (a + b)[i]) by {
            if i < a.len() {
                assert((a + b)[i] == a[i]);
            } else {
                assert((a + b)[i] == b[i - a.len()]);
            }
        }
    }
    if no_esc_lines(a + b) {
        assert forall|i: int| 0 <= i < a.len() implies no_esc(#[trigger] a[i]) by {
            assert((a + b)[i] == a[i]);
        }
        assert forall|i: int| 0 <= i < b.len() implies no_esc(#[trigger] b[i]) by {
            assert((a + b)[a.len() + i] == b[i]);
        }
    }
}

/// The facts about text without escape characters.
pub broadcast group group_no_esc {
    lemma_no_esc_concat,
    lemma_no_esc_subrange,
    lemma_no_esc_push,
    lemma_no_esc_repeat,
    lemma_no_esc_lines_concat,
}

} // verus!
