//! Word wrapping of text to a width counted in characters.
use vstd::prelude::*;
use crate::text::{
    is_whitespace, is_ws, leading_ws, trailing_ws, trim_end, lemma_leading_ws, lemma_trailing_ws,
    string_of, chars_of, no_esc, no_esc_lines, group_no_esc, esc, ends_plain, ws_plain, EscState,
    esc_scan, lemma_ws_plain_take, lemma_ws_plain_suffix, lemma_plain_ws_plain, lemma_esc_scan_concat,
};

verus! {

/// The views of a sequence of strings.
pub open spec fn views(v: Seq<String>) -> Seq<Seq<char>> {
    v.map_values(|s: String| s@)
}

// ---------------------------------------------------------------------------
// Lines
// ---------------------------------------------------------------------------

/// `l` without one carriage return at its end.
pub open spec fn strip_cr(l: Seq<char>) -> Seq<char> {
    if l.len() > 0 && l.last() == '\r' {
        l.drop_last()
    } else {
        l
    }
}

/// The finished lines and the unfinished one after scanning `s` for newlines.
pub open spec fn line_scan(s: Seq<char>) -> (Seq<Seq<char>>, Seq<char>)
    decreases s.len(),
{
    if s.len() == 0 {
        (Seq::empty(), Seq::empty())
    } else {
        let (done, cur) = line_scan(s.drop_last());
        if s.last() == '\n' {
            (done.push(strip_cr(cur)), Seq::empty())
        } else {
            (done, cur.push(s.last()))
        }
    }
}

/// The lines of `s` as `str::lines` gives them: split at `\n`, a `\r` just
/// before it dropped, no empty line after a final `\n`.
pub open spec fn text_lines(s: Seq<char>) -> Seq<Seq<char>> {
    let (done, cur) = line_scan(s);
    if cur.len() > 0 {
        done.push(cur)
    } else {
        done
    }
}

fn strip_cr_exec(l: Vec<char>) -> (r: Vec<char>)
    ensures
        r@ == strip_cr(l@),
{
    let mut l = l;
    if l.len() > 0 && l[l.len() - 1] == '\r' {
        l.pop();
    }
    l
}

/// The lines of `v`.
fn split_lines(v: &Vec<char>) -> (r: Vec<Vec<char>>)
    ensures
        r@.map_values(|l: Vec<char>| l@) == text_lines(v@),
{
    let mut done: Vec<Vec<char>> = Vec::new();
    let mut cur: Vec<char> = Vec::new();
    let mut i: usize = 0;
    while i < v.len()
        invariant
            i <= v.len(),
            (done@.map_values(|l: Vec<char>| l@), cur@) == line_scan(v@.take(i as int)),
        decreases v.len() - i,
    {
        let ghost pre = v@.take(i as int);
        let c = v[i];
        if c == '\n' {
            let finished = strip_cr_exec(cur);
            done.push(finished);
            cur = Vec::new();
        } else {
            cur.push(c);
        }
        i = i + 1;
        proof {
            assert(v@.take(i as int).drop_last() =~= pre);
            assert(done@.map_values(|l: Vec<char>| l@) =~= line_scan(v@.take(i as int)).0);
        }
    }
    assert(v@.take(v.len() as int) =~= v@);
    if cur.len() > 0 {
        done.push(cur);
        assert(done@.map_values(|l: Vec<char>| l@) =~= text_lines(v@));
    }
    done
}

// ---------------------------------------------------------------------------
// Words
// ---------------------------------------------------------------------------

/// The finished words and the unfinished one after scanning `s`.
pub open spec fn word_scan(s: Seq<char>) -> (Seq<Seq<char>>, Seq<char>)
    decreases s.len(),
{
    if s.len() == 0 {
        (Seq::empty(), Seq::empty())
    } else {
        let (done, cur) = word_scan(s.drop_last());
        if is_ws(s.last()) {
            if cur.len() > 0 {
                (done.push(cur), Seq::empty())
            } else {
                (done, Seq::empty())
            }
        } else {
            (done, cur.push(s.last()))
        }
    }
}

/// The maximal runs of non-whitespace characters of `s`, as
/// `str::split_whitespace` gives them.
pub open spec fn words(s: Seq<char>) -> Seq<Seq<char>> {
    let (done, cur) = word_scan(s);
    if cur.len() > 0 {
        done.push(cur)
    } else {
        done
    }
}

/// No character of `w` is whitespace.
pub open spec fn no_ws(w: Seq<char>) -> bool {
    forall|i: int| 0 <= i < w.len() ==> !is_ws(#[trigger] w[i])
}

/// Every character of `w` is whitespace.
pub open spec fn all_ws(w: Seq<char>) -> bool {
    forall|i: int| 0 <= i < w.len() ==> is_ws(#[trigger] w[i])
}

proof fn lemma_word_scan(s: Seq<char>)
    ensures
        no_ws(word_scan(s).1),
        forall|i: int|
            0 <= i < word_scan(s).0.len() ==> #[trigger] word_scan(s).0[i].len() > 0 && no_ws(
                word_scan(s).0[i],
            ),
    decreases s.len(),
{
    if s.len() > 0 {
        lemma_word_scan(s.drop_last());
        let (done, cur) = word_scan(s.drop_last());
        if !is_ws(s.last()) {
            assert forall|i: int| 0 <= i < cur.push(s.last()).len() implies !is_ws(
                #[trigger] cur.push(s.last())[i],
            ) by {
                if i < cur.len() {
                    assert(cur.push(s.last())[i] == cur[i]);
                }
            }
        }
    }
}

/// Words are never empty and hold no whitespace.
pub proof fn lemma_words(s: Seq<char>)
    ensures
        forall|i: int|
            0 <= i < words(s).len() ==> #[trigger] words(s)[i].len() > 0 && no_ws(words(s)[i]),
{
    lemma_word_scan(s);
}

/// The words of `v`.
fn split_words(v: &Vec<char>) -> (r: Vec<Vec<char>>)
    ensures
        r@.map_values(|l: Vec<char>| l@) == words(v@),
{
    let mut done: Vec<Vec<char>> = Vec::new();
    let mut cur: Vec<char> = Vec::new();
    let mut i: usize = 0;
    while i < v.len()
        invariant
            i <= v.len(),
            (done@.map_values(|l: Vec<char>| l@), cur@) == word_scan(v@.take(i as int)),
        decreases v.len() - i,
    {
        let ghost pre = v@.take(i as int);
        let c = v[i];
        if is_whitespace(c) {
            if cur.len() > 0 {
                done.push(cur);
                cur = Vec::new();
            }
        } else {
            cur.push(c);
        }
        i = i + 1;
        proof {
            assert(v@.take(i as int).drop_last() =~= pre);
            assert(done@.map_values(|l: Vec<char>| l@) =~= word_scan(v@.take(i as int)).0);
        }
    }
    assert(v@.take(v.len() as int) =~= v@);
    if cur.len() > 0 {
        done.push(cur);
        assert(done@.map_values(|l: Vec<char>| l@) =~= words(v@));
    }
    done
}

// ---------------------------------------------------------------------------
// Filling
// ---------------------------------------------------------------------------

/// The finished lines and the line being filled after placing `ws` greedily,
/// each line opened with `prefix`, a line grown only while it stays within
/// `width` characters.
pub open spec fn fill_scan(ws: Seq<Seq<char>>, prefix: Seq<char>, width: nat) -> (
    Seq<Seq<char>>,
    Seq<char>,
)
    decreases ws.len(),
{
    if ws.len() == 0 {
        (Seq::empty(), Seq::empty())
    } else {
        let (done, cur) = fill_scan(ws.drop_last(), prefix, width);
        let w = ws.last();
        if cur.len() == 0 {
            (done, prefix + w)
        } else if cur.len() + 1 + w.len() <= width {
            (done, cur.push(' ') + w)
        } else {
            (done.push(cur), prefix + w)
        }
    }
}

/// The lines that greedy filling of `ws` gives.
pub open spec fn fill(ws: Seq<Seq<char>>, prefix: Seq<char>, width: nat) -> Seq<Seq<char>> {
    let (done, cur) = fill_scan(ws, prefix, width);
    if cur.len() > 0 {
        done.push(cur)
    } else {
        done
    }
}

fn fill_exec(ws: &Vec<Vec<char>>, prefix: &Vec<char>, width: usize) -> (r: Vec<Vec<char>>)
    ensures
        r@.map_values(|l: Vec<char>| l@) == fill(
            ws@.map_values(|l: Vec<char>| l@),
            prefix@,
            width as nat,
        ),
{
    let ghost wv = ws@.map_values(|l: Vec<char>| l@);
    let mut done: Vec<Vec<char>> = Vec::new();
    let mut cur: Vec<char> = Vec::new();
    let mut i: usize = 0;
    while i < ws.len()
        invariant
            i <= ws.len(),
            wv == ws@.map_values(|l: Vec<char>| l@),
            (done@.map_values(|l: Vec<char>| l@), cur@) == fill_scan(
                wv.take(i as int),
                prefix@,
                width as nat,
            ),
        decreases ws.len() - i,
    {
        let ghost pre = wv.take(i as int);
        let w = &ws[i];
        proof {
            assert(wv.take(i + 1).drop_last() =~= pre);
            assert(wv.take(i + 1).last() == w@);
        }
        if cur.len() == 0 {
            cur = prefix.clone();
            append_chars(&mut cur, w);
        } else if w.len() < width && cur.len() <= width - 1 - w.len() {
            cur.push(' ');
            append_chars(&mut cur, w);
        } else {
            done.push(cur);
            cur = prefix.clone();
            append_chars(&mut cur, w);
        }
        i = i + 1;
        proof {
            assert(done@.map_values(|l: Vec<char>| l@) =~= fill_scan(
                wv.take(i as int),
                prefix@,
                width as nat,
            ).0);
        }
    }
    assert(wv.take(ws.len() as int) =~= wv);
    if cur.len() > 0 {
        done.push(cur);
        assert(done@.map_values(|l: Vec<char>| l@) =~= fill(wv, prefix@, width as nat));
    }
    done
}

/// Appends the characters of `w` to `v`.
pub fn append_chars(v: &mut Vec<char>, w: &Vec<char>)
    ensures
        final(v)@ == old(v)@ + w@,
{
    let mut i: usize = 0;
    while i < w.len()
        invariant
            i <= w.len(),
            v@ == old(v)@ + w@.take(i as int),
        decreases w.len() - i,
    {
        v.push(w[i]);
        i = i + 1;
        assert(v@ =~= old(v)@ + w@.take(i as int));
    }
    assert(w@.take(w.len() as int) =~= w@);
}

// ---------------------------------------------------------------------------
// Wrapping
// ---------------------------------------------------------------------------

/// The wrapped lines for one line of text: its indentation repeated at the
/// start of every piece, trailing whitespace dropped, a blank line kept blank.
pub open spec fn wrap_line(raw: Seq<char>, width: nat) -> Seq<Seq<char>> {
    if raw.len() == 0 {
        seq![Seq::empty()]
    } else {
        let k = leading_ws(raw) as int;
        let content = trim_end(raw.skip(k));
        if content.len() == 0 {
            seq![Seq::empty()]
        } else {
            fill(words(content), raw.take(k), width)
        }
    }
}

/// The wrapped lines of all of `lines`, in order.
pub open spec fn wrap_all(lines: Seq<Seq<char>>, width: nat) -> Seq<Seq<char>>
    decreases lines.len(),
{
    if lines.len() == 0 {
        Seq::empty()
    } else {
        wrap_all(lines.drop_last(), width) + wrap_line(lines.last(), width)
    }
}

/// `text` wrapped to `width` characters; nothing for empty text or width zero.
pub open spec fn wrap(text: Seq<char>, width: nat) -> Seq<Seq<char>> {
    if text.len() == 0 || width == 0 {
        Seq::empty()
    } else {
        wrap_all(text_lines(text), width)
    }
}

// Byte offsets --------------------------------------------------------------

/// Number of bytes of `c` in UTF-8.
pub open spec fn utf8_len(c: char) -> nat {
    if (c as u32) < 0x80 {
        1
    } else if (c as u32) < 0x800 {
        2
    } else if (c as u32) < 0x10000 {
        3
    } else {
        4
    }
}

/// Number of bytes of `s` in UTF-8.
pub open spec fn utf8_bytes(s: Seq<char>) -> nat
    decreases s.len(),
{
    if s.len() == 0 {
        0
    } else {
        utf8_bytes(s.drop_last()) + utf8_len(s.last())
    }
}

/// Byte offset `b` of the UTF-8 encoding of `s` falls between two characters.
pub open spec fn is_char_boundary(s: Seq<char>, b: int) -> bool {
    exists|j: int| 0 <= j <= s.len() && utf8_bytes(s.take(j)) == b
}

/// The line can be sliced at the byte offset that equals the number of its
/// leading whitespace characters (a count of characters taken as a count of
/// bytes, which lands inside a character when the indentation holds a
/// non-ASCII space).
pub open spec fn indent_slice_ok(line: Seq<char>) -> bool {
    is_char_boundary(line, leading_ws(line) as int)
}

/// Wrapping `text` to `width` is defined: every line can be sliced after its
/// indentation.
pub open spec fn wrap_defined(text: Seq<char>, width: nat) -> bool {
    text.len() == 0 || width == 0 || forall|i: int|
        0 <= i < text_lines(text).len() ==> indent_slice_ok(#[trigger] text_lines(text)[i])
}

proof fn lemma_utf8_bytes_ge(s: Seq<char>)
    ensures
        utf8_bytes(s) >= s.len(),
    decreases s.len(),
{
    if s.len() > 0 {
        lemma_utf8_bytes_ge(s.drop_last());
    }
}

fn utf8_len_exec(c: char) -> (n: usize)
    ensures
        n == utf8_len(c),
{
    let u = c as u32;
    if u < 0x80 {
        1
    } else if u < 0x800 {
        2
    } else if u < 0x10000 {
        3
    } else {
        4
    }
}

fn indent_slice_ok_exec(line: &Vec<char>) -> (r: bool)
    ensures
        r == indent_slice_ok(line@),
{
    let k = skip_ws(line);
    let mut j: usize = 0;
    let mut b: usize = 0;
    while j < k && b < k
        invariant
            j <= k <= line.len(),
            k == leading_ws(line@),
            b == utf8_bytes(line@.take(j as int)),
            b <= k,
        decreases k - j,
    {
        let ghost pre = line@.take(j as int);
        let n = utf8_len_exec(line[j]);
        assert(line@.take(j + 1).drop_last() =~= pre);
        if n > k - b {
            assert forall|i: int| 0 <= i <= line@.len() implies utf8_bytes(line@.take(i)) != k by {
                if i <= j {
                    lemma_utf8_bytes_mono(line@, i, j as int);
                } else {
                    lemma_utf8_bytes_mono(line@, j + 1, i);
                }
            }
            return false;
        }
        b = b + n;
        j = j + 1;
    }
    proof {
        lemma_utf8_bytes_ge(line@.take(j as int));
    }
    assert(utf8_bytes(line@.take(j as int)) == k);
    true
}

proof fn lemma_utf8_bytes_mono(s: Seq<char>, i: int, j: int)
    requires
        0 <= i <= j <= s.len(),
    ensures
        utf8_bytes(s.take(i)) + (j - i) <= utf8_bytes(s.take(j)),
    decreases j - i,
{
    if i < j {
        lemma_utf8_bytes_mono(s, i, j - 1);
        assert(s.take(j).drop_last() =~= s.take(j - 1));
    }
}

/// Index of the first non-whitespace character of `v` (or its length).
fn skip_ws(v: &Vec<char>) -> (r: usize)
    ensures
        r == leading_ws(v@),
        r <= v.len(),
{
    let mut i: usize = 0;
    assert(v@.skip(0) =~= v@);
    while i < v.len() && is_whitespace(v[i])
        invariant
            i <= v.len(),
            leading_ws(v@) == i + leading_ws(v@.skip(i as int)),
        decreases v.len() - i,
    {
        assert(v@.skip(i as int).drop_first() =~= v@.skip(i + 1));
        i = i + 1;
    }
    assert(v@.skip(0) =~= v@);
    proof {
        lemma_leading_ws(v@);
    }
    i
}

/// Whether wrapping `text` to `width` is defined (see `wrap_defined`).
pub fn wrap_text_defined(text: &str, width: usize) -> (r: bool)
    ensures
        r == wrap_defined(text@, width as nat),
{
    let v = chars_of(text);
    if v.len() == 0 || width == 0 {
        return true;
    }
    let lines = split_lines(&v);
    let ghost lv = lines@.map_values(|l: Vec<char>| l@);
    let mut i: usize = 0;
    while i < lines.len()
        invariant
            i <= lines.len(),
            lv == lines@.map_values(|l: Vec<char>| l@),
            lv == text_lines(v@),
            v@ == text@,
            v.len() > 0,
            width > 0,
            forall|j: int| 0 <= j < i ==> indent_slice_ok(#[trigger] lv[j]),
        decreases lines.len() - i,
    {
        if !indent_slice_ok_exec(&lines[i]) {
            assert(lv[i as int] == lines@[i as int]@);
            assert(text_lines(text@)[i as int] == lv[i as int]);
            assert(!indent_slice_ok(text_lines(text@)[i as int]));
            return false;
        }
        i = i + 1;
    }
    true
}

// The wrapping itself ---------------------------------------------------------

fn wrap_line_exec(raw: &Vec<char>, width: usize) -> (r: Vec<Vec<char>>)
    ensures
        r@.map_values(|l: Vec<char>| l@) == wrap_line(raw@, width as nat),
{
    if raw.len() == 0 {
        let r = vec![Vec::new()];
        assert(r@.map_values(|l: Vec<char>| l@) =~= wrap_line(raw@, width as nat));
        return r;
    }
    let k = skip_ws(raw);
    let ghost t = raw@.skip(k as int);
    // End of the content once trailing whitespace is dropped.
    let mut e = raw.len();
    assert(t.take(raw.len() - k) =~= t);
    while e > k && is_whitespace(raw[e - 1])
        invariant
            k <= e <= raw.len(),
            t == raw@.skip(k as int),
            trailing_ws(t) == (raw.len() - e) + trailing_ws(t.take(e - k)),
        decreases e,
    {
        assert(t.take(e - k).drop_last() =~= t.take(e - k - 1));
        e = e - 1;
    }
    proof {
        assert(t.take(raw.len() - k) =~= t);
        lemma_trailing_ws(t.take(e - k));
    }
    let mut content: Vec<char> = Vec::new();
    let mut i = k;
    while i < e
        invariant
            k <= i <= e <= raw.len(),
            content@ == raw@.subrange(k as int, i as int),
        decreases e - i,
    {
        content.push(raw[i]);
        i = i + 1;
        assert(content@ =~= raw@.subrange(k as int, i as int));
    }
    assert(content@ =~= trim_end(t));
    if content.len() == 0 {
        let r = vec![Vec::new()];
        assert(r@.map_values(|l: Vec<char>| l@) =~= wrap_line(raw@, width as nat));
        return r;
    }
    let mut prefix: Vec<char> = Vec::new();
    let mut i: usize = 0;
    while i < k
        invariant
            i <= k <= raw.len(),
            prefix@ == raw@.take(i as int),
        decreases k - i,
    {
        prefix.push(raw[i]);
        i = i + 1;
        assert(prefix@ =~= raw@.take(i as int));
    }
    let ws = split_words(&content);
    fill_exec(&ws, &prefix, width)
}

/// Wrap text to fit within the specified width (character count, not bytes).
///
/// Each line of `text` is wrapped on its own; its indentation opens every
/// piece it is cut into; a word longer than the width stands on a line of
/// its own.
pub fn wrap_text(text: &str, width: usize) -> (r: Vec<String>)
    requires
        wrap_defined(text@, width as nat),
    ensures
        views(r@) == wrap(text@, width as nat),
{
    let v = chars_of(text);
    let mut out: Vec<String> = Vec::new();
    if v.len() == 0 || width == 0 {
        assert(views(out@) =~= wrap(text@, width as nat));
        return out;
    }
    let lines = split_lines(&v);
    let ghost lv = lines@.map_values(|l: Vec<char>| l@);
    let mut i: usize = 0;
    while i < lines.len()
        invariant
            i <= lines.len(),
            lv == lines@.map_values(|l: Vec<char>| l@),
            lv == text_lines(v@),
            views(out@) == wrap_all(lv.take(i as int), width as nat),
        decreases lines.len() - i,
    {
        let pieces = wrap_line_exec(&lines[i], width);
        let ghost before = views(out@);
        let mut j: usize = 0;
        while j < pieces.len()
            invariant
                j <= pieces.len(),
                views(out@) == before + pieces@.map_values(|l: Vec<char>| l@).take(j as int),
            decreases pieces.len() - j,
        {
            let s = string_of(&pieces[j]);
            let ghost old_out = out@;
            out.push(s);
            assert(views(out@) =~= views(old_out).push(pieces@[j as int]@));
            j = j + 1;
            assert(views(out@) =~= before + pieces@.map_values(|l: Vec<char>| l@).take(
                j as int,
            ));
        }
        assert(pieces@.map_values(|l: Vec<char>| l@).take(pieces.len() as int) =~= pieces@.map_values(
            |l: Vec<char>| l@,
        ));
        assert(lv.take(i + 1).drop_last() =~= lv.take(i as int));
        assert(lv[i as int] == lines@[i as int]@);
        i = i + 1;
    }
    assert(lv.take(lines.len() as int) =~= lv);
    out
}

// Laws ------------------------------------------------------------------------

/// A line that holds exactly one word.
pub open spec fn single_word(l: Seq<char>) -> bool {
    words(l).len() == 1
}

/// The line fits in `width`, or holds exactly one word, too long to fit.
pub open spec fn fits(l: Seq<char>, width: nat) -> bool {
    l.len() <= width || single_word(l)
}

proof fn lemma_prefix_word_single(prefix: Seq<char>, w: Seq<char>)
    requires
        all_ws(prefix),
        no_ws(w),
        w.len() > 0,
    ensures
        words(prefix + w) == seq![w],
        single_word(prefix + w),
{
    lemma_words_leading_ws(prefix, w);
    lemma_word_scan_word(w);
    assert(Seq::<Seq<char>>::empty().push(w) =~= seq![w]);
}

proof fn lemma_fill_scan_fits(ws: Seq<Seq<char>>, prefix: Seq<char>, width: nat)
    requires
        all_ws(prefix),
        forall|i: int| 0 <= i < ws.len() ==> no_ws(#[trigger] ws[i]) && ws[i].len() > 0,
    ensures
        fits(fill_scan(ws, prefix, width).1, width),
        forall|i: int|
            0 <= i < fill_scan(ws, prefix, width).0.len() ==> fits(
                #[trigger] fill_scan(ws, prefix, width).0[i],
                width,
            ),
    decreases ws.len(),
{
    if ws.len() > 0 {
        assert forall|i: int| 0 <= i < ws.drop_last().len() implies no_ws(
            #[trigger] ws.drop_last()[i],
        ) && ws.drop_last()[i].len() > 0 by {
            assert(ws.drop_last()[i] == ws[i]);
        }
        lemma_fill_scan_fits(ws.drop_last(), prefix, width);
        let (done, cur) = fill_scan(ws.drop_last(), prefix, width);
        let w = ws.last();
        assert(no_ws(w) && w.len() > 0) by {
            assert(w == ws[ws.len() - 1]);
        }
        lemma_prefix_word_single(prefix, w);
        if cur.len() != 0 && !(cur.len() + 1 + w.len() <= width) {
            assert forall|i: int| 0 <= i < done.push(cur).len() implies fits(
                #[trigger] done.push(cur)[i],
                width,
            ) by {
                if i < done.len() {
                    assert(done.push(cur)[i] == done[i]);
                }
            }
        }
    }
}

proof fn lemma_wrap_line_fits(raw: Seq<char>, width: nat)
    ensures
        forall|i: int| 0 <= i < wrap_line(raw, width).len() ==> fits(#[trigger] wrap_line(raw, width)[i], width),
{
    if raw.len() > 0 {
        let k = leading_ws(raw) as int;
        let content = trim_end(raw.skip(k));
        if content.len() > 0 {
            lemma_leading_ws(raw);
            lemma_words(content);
            let prefix = raw.take(k);
            assert(all_ws(prefix));
            let ws = words(content);
            assert forall|i: int| 0 <= i < ws.len() implies no_ws(#[trigger] ws[i]) && ws[i].len()
                > 0 by {
                assert(ws[i].len() > 0);
            }
            lemma_fill_scan_fits(ws, prefix, width);
            let (done, cur) = fill_scan(ws, prefix, width);
            if cur.len() > 0 {
                assert forall|i: int| 0 <= i < done.push(cur).len() implies fits(
                    #[trigger] done.push(cur)[i],
                    width,
                ) by {
                    if i < done.len() {
                        assert(done.push(cur)[i] == done[i]);
                    }
                }
            }
        } else {
            assert(fits(Seq::<char>::empty(), width));
        }
    } else {
        assert(fits(Seq::<char>::empty(), width));
    }
}

proof fn lemma_wrap_all_fits(lines: Seq<Seq<char>>, width: nat)
    ensures
        forall|i: int| 0 <= i < wrap_all(lines, width).len() ==> fits(#[trigger] wrap_all(lines, width)[i], width),
    decreases lines.len(),
{
    if lines.len() > 0 {
        lemma_wrap_all_fits(lines.drop_last(), width);
        lemma_wrap_line_fits(lines.last(), width);
        let a = wrap_all(lines.drop_last(), width);
        let b = wrap_line(lines.last(), width);
        assert forall|i: int| 0 <= i < (a + b).len() implies fits(#[trigger] (a + b)[i], width) by {
            if i < a.len() {
                assert((a + b)[i] == a[i]);
            } else {
                assert((a + b)[i] == b[i - a.len()]);
            }
        }
    }
}

/// Wrapping keeps every line within the width, except a line that holds
/// exactly one word, longer than the width (with the indentation in front of
/// it).
pub proof fn law_wrap_fits(text: Seq<char>, width: nat)
    ensures
        forall|i: int| 0 <= i < wrap(text, width).len() ==> fits(#[trigger] wrap(text, width)[i], width),
{
    if text.len() > 0 && width > 0 {
        lemma_wrap_all_fits(text_lines(text), width);
    }
}

/// The lines of `text`, as `str::lines` gives them.
pub fn text_lines_of(text: &str) -> (r: Vec<String>)
    ensures
        views(r@) == text_lines(text@),
{
    let v = chars_of(text);
    let lines = split_lines(&v);
    let ghost lv = lines@.map_values(|l: Vec<char>| l@);
    let mut out: Vec<String> = Vec::new();
    let mut i: usize = 0;
    while i < lines.len()
        invariant
            i <= lines.len(),
            lv == lines@.map_values(|l: Vec<char>| l@),
            views(out@) == lv.take(i as int),
        decreases lines.len() - i,
    {
        let s = string_of(&lines[i]);
        let ghost old_out = out@;
        out.push(s);
        assert(views(out@) =~= views(old_out).push(lines@[i as int]@));
        i = i + 1;
        assert(views(out@) =~= lv.take(i as int));
    }
    assert(lv.take(lines.len() as int) =~= lv);
    out
}

// Text without escape characters stays so ---------------------------------------

proof fn lemma_lines_push_no_esc(ls: Seq<Seq<char>>, l: Seq<char>)
    requires
        no_esc_lines(ls),
        no_esc(l),
    ensures
        no_esc_lines(ls.push(l)),
{
    assert forall|i: int| 0 <= i < ls.push(l).len() implies no_esc(#[trigger] ls.push(l)[i]) by {
        if i < ls.len() {
            assert(ls.push(l)[i] == ls[i]);
        }
    }
}

proof fn lemma_drop_last_no_esc(s: Seq<char>)
    requires
        no_esc(s),
        s.len() > 0,
    ensures
        no_esc(s.drop_last()),
        s.last() != crate::text::esc(),
{
    broadcast use group_no_esc;

    assert(s.drop_last() == s.subrange(0, s.len() - 1));
    assert(s.last() == s[s.len() - 1]);
}

proof fn lemma_line_scan_no_esc(s: Seq<char>)
    requires
        no_esc(s),
    ensures
        no_esc_lines(line_scan(s).0),
        no_esc(line_scan(s).1),
    decreases s.len(),
{
    broadcast use group_no_esc;

    if s.len() > 0 {
        lemma_drop_last_no_esc(s);
        lemma_line_scan_no_esc(s.drop_last());
        let (done, cur) = line_scan(s.drop_last());
        if s.last() == '\n' {
            if cur.len() > 0 && cur.last() == '\r' {
                assert(cur.drop_last() == cur.subrange(0, cur.len() - 1));
            }
            lemma_lines_push_no_esc(done, strip_cr(cur));
        }
    }
}

proof fn lemma_text_lines_no_esc(s: Seq<char>)
    requires
        no_esc(s),
    ensures
        no_esc_lines(text_lines(s)),
{
    lemma_line_scan_no_esc(s);
    let (done, cur) = line_scan(s);
    if cur.len() > 0 {
        lemma_lines_push_no_esc(done, cur);
    }
}

proof fn lemma_word_scan_no_esc(s: Seq<char>)
    requires
        no_esc(s),
    ensures
        no_esc_lines(word_scan(s).0),
        no_esc(word_scan(s).1),
    decreases s.len(),
{
    broadcast use group_no_esc;

    if s.len() > 0 {
        lemma_drop_last_no_esc(s);
        lemma_word_scan_no_esc(s.drop_last());
        let (done, cur) = word_scan(s.drop_last());
        if is_ws(s.last()) && cur.len() > 0 {
            lemma_lines_push_no_esc(done, cur);
        }
        assert(no_esc(Seq::<char>::empty()));
    }
}

proof fn lemma_words_no_esc(s: Seq<char>)
    requires
        no_esc(s),
    ensures
        no_esc_lines(words(s)),
{
    lemma_word_scan_no_esc(s);
    let (done, cur) = word_scan(s);
    if cur.len() > 0 {
        lemma_lines_push_no_esc(done, cur);
    }
}

proof fn lemma_fill_scan_no_esc(ws: Seq<Seq<char>>, prefix: Seq<char>, width: nat)
    requires
        no_esc_lines(ws),
        no_esc(prefix),
    ensures
        no_esc_lines(fill_scan(ws, prefix, width).0),
        no_esc(fill_scan(ws, prefix, width).1),
    decreases ws.len(),
{
    broadcast use group_no_esc;

    if ws.len() > 0 {
        assert(no_esc_lines(ws.drop_last())) by {
            assert forall|i: int| 0 <= i < ws.drop_last().len() implies no_esc(
                #[trigger] ws.drop_last()[i],
            ) by {
                assert(ws.drop_last()[i] == ws[i]);
            }
        }
        lemma_fill_scan_no_esc(ws.drop_last(), prefix, width);
        let (done, cur) = fill_scan(ws.drop_last(), prefix, width);
        assert(no_esc(ws.last())) by {
            assert(ws.last() == ws[ws.len() - 1]);
        }
        if cur.len() != 0 && !(cur.len() + 1 + ws.last().len() <= width) {
            lemma_lines_push_no_esc(done, cur);
        }
    }
}

proof fn lemma_wrap_line_no_esc(raw: Seq<char>, width: nat)
    requires
        no_esc(raw),
    ensures
        no_esc_lines(wrap_line(raw, width)),
{
    broadcast use group_no_esc;

    assert(no_esc_lines(seq![Seq::<char>::empty()])) by {
        assert(no_esc(seq![Seq::<char>::empty()][0]));
    }
    if raw.len() > 0 {
        let k = leading_ws(raw) as int;
        lemma_leading_ws(raw);
        let t = raw.skip(k);
        assert(t == raw.subrange(k, raw.len() as int));
        lemma_trailing_ws(t);
        let content = trim_end(t);
        assert(content == t.subrange(0, t.len() - trailing_ws(t)));
        if content.len() > 0 {
            assert(raw.take(k) == raw.subrange(0, k));
            lemma_words_no_esc(content);
            let (done, cur) = fill_scan(words(content), raw.take(k), width);
            lemma_fill_scan_no_esc(words(content), raw.take(k), width);
            if cur.len() > 0 {
                lemma_lines_push_no_esc(done, cur);
            }
        }
    }
}

proof fn lemma_wrap_all_no_esc(lines: Seq<Seq<char>>, width: nat)
    requires
        no_esc_lines(lines),
    ensures
        no_esc_lines(wrap_all(lines, width)),
    decreases lines.len(),
{
    broadcast use group_no_esc;

    if lines.len() > 0 {
        assert(no_esc_lines(lines.drop_last())) by {
            assert forall|i: int| 0 <= i < lines.drop_last().len() implies no_esc(
                #[trigger] lines.drop_last()[i],
            ) by {
                assert(lines.drop_last()[i] == lines[i]);
            }
        }
        lemma_wrap_all_no_esc(lines.drop_last(), width);
        assert(no_esc(lines.last())) by {
            assert(lines.last() == lines[lines.len() - 1]);
        }
        lemma_wrap_line_no_esc(lines.last(), width);
    }
}

/// Wrapping text without escape characters gives lines without them.
pub proof fn lemma_wrap_no_esc(text: Seq<char>, width: nat)
    requires
        no_esc(text),
    ensures
        no_esc_lines(wrap(text, width)),
{
    if text.len() > 0 && width > 0 {
        lemma_text_lines_no_esc(text);
        lemma_wrap_all_no_esc(text_lines(text), width);
    }
}

// Wrapping keeps the words ---------------------------------------------------

/// The words of all the lines, in order.
pub open spec fn all_words(ls: Seq<Seq<char>>) -> Seq<Seq<char>>
    decreases ls.len(),
{
    if ls.len() == 0 {
        Seq::empty()
    } else {
        all_words(ls.drop_last()) + words(ls.last())
    }
}

proof fn lemma_all_words_concat(a: Seq<Seq<char>>, b: Seq<Seq<char>>)
    ensures
        all_words(a + b) == all_words(a) + all_words(b),
    decreases b.len(),
{
    if b.len() == 0 {
        assert(a + b =~= a);
    } else {
        assert((a + b).drop_last() =~= a + b.drop_last());
        lemma_all_words_concat(a, b.drop_last());
    }
}

/// Scanning `a + b` after `a` ended between words is scanning `b` on its own.
proof fn lemma_word_scan_concat(a: Seq<char>, b: Seq<char>)
    requires
        word_scan(a).1.len() == 0,
    ensures
        word_scan(a + b) == (word_scan(a).0 + word_scan(b).0, word_scan(b).1),
    decreases b.len(),
{
    if b.len() == 0 {
        assert(a + b =~= a);
        assert(word_scan(a).0 + word_scan(b).0 =~= word_scan(a).0);
    } else {
        assert((a + b).drop_last() =~= a + b.drop_last());
        lemma_word_scan_concat(a, b.drop_last());
        let (d, c) = word_scan(b.drop_last());
        if is_ws(b.last()) && c.len() > 0 {
            assert(word_scan(a).0 + d.push(c) =~= (word_scan(a).0 + d).push(c));
        }
    }
}

/// Whitespace alone holds no word.
proof fn lemma_word_scan_all_ws(s: Seq<char>)
    requires
        all_ws(s),
    ensures
        word_scan(s) == (Seq::<Seq<char>>::empty(), Seq::<char>::empty()),
    decreases s.len(),
{
    if s.len() > 0 {
        assert(all_ws(s.drop_last())) by {
            assert forall|i: int| 0 <= i < s.drop_last().len() implies is_ws(
                #[trigger] s.drop_last()[i],
            ) by {
                assert(s.drop_last()[i] == s[i]);
            }
        }
        lemma_word_scan_all_ws(s.drop_last());
        assert(is_ws(s[s.len() - 1]));
    }
}

/// A run of characters that are not whitespace is one word.
proof fn lemma_word_scan_word(w: Seq<char>)
    requires
        no_ws(w),
    ensures
        word_scan(w) == (Seq::<Seq<char>>::empty(), w),
    decreases w.len(),
{
    if w.len() > 0 {
        assert(no_ws(w.drop_last())) by {
            assert forall|i: int| 0 <= i < w.drop_last().len() implies !is_ws(
                #[trigger] w.drop_last()[i],
            ) by {
                assert(w.drop_last()[i] == w[i]);
            }
        }
        lemma_word_scan_word(w.drop_last());
        assert(!is_ws(w[w.len() - 1]));
        assert(w.drop_last().push(w.last()) =~= w);
    }
}

/// Whitespace at the end adds no word.
proof fn lemma_words_trailing_ws(a: Seq<char>, b: Seq<char>)
    requires
        all_ws(b),
    ensures
        words(a + b) == words(a),
    decreases b.len(),
{
    if b.len() == 0 {
        assert(a + b =~= a);
    } else {
        assert((a + b).drop_last() =~= a + b.drop_last());
        assert(all_ws(b.drop_last())) by {
            assert forall|i: int| 0 <= i < b.drop_last().len() implies is_ws(
                #[trigger] b.drop_last()[i],
            ) by {
                assert(b.drop_last()[i] == b[i]);
            }
        }
        lemma_words_trailing_ws(a, b.drop_last());
        assert(is_ws(b[b.len() - 1]));
        assert((a + b).last() == b.last());
    }
}

/// Whitespace in front adds no word.
proof fn lemma_words_leading_ws(a: Seq<char>, b: Seq<char>)
    requires
        all_ws(a),
    ensures
        words(a + b) == words(b),
{
    lemma_word_scan_all_ws(a);
    lemma_word_scan_concat(a, b);
    assert(Seq::<Seq<char>>::empty() + word_scan(b).0 =~= word_scan(b).0);
}

/// A word after whitespace and a line adds itself to the line's words.
proof fn lemma_words_append_word(cur: Seq<char>, w: Seq<char>)
    requires
        no_ws(w),
        w.len() > 0,
    ensures
        words(cur.push(' ') + w) == words(cur).push(w),
{
    let a = cur.push(' ');
    assert(a.drop_last() =~= cur);
    assert(is_ws(a.last()));
    lemma_word_scan_concat(a, w);
    lemma_word_scan_word(w);
    assert(word_scan(a).0 + Seq::<Seq<char>>::empty() =~= word_scan(a).0);
    assert(words(a) == words(cur));
}

/// Every line that filling builds holds the words placed in it, in order.
proof fn lemma_fill_scan_words(ws: Seq<Seq<char>>, prefix: Seq<char>, width: nat)
    requires
        all_ws(prefix),
        forall|i: int| 0 <= i < ws.len() ==> #[trigger] ws[i].len() > 0 && no_ws(ws[i]),
    ensures
        all_words(fill_scan(ws, prefix, width).0) + words(fill_scan(ws, prefix, width).1) == ws,
        fill_scan(ws, prefix, width).1.len() == 0 ==> ws.len() == 0,
    decreases ws.len(),
{
    if ws.len() > 0 {
        let pre = ws.drop_last();
        assert forall|i: int| 0 <= i < pre.len() implies #[trigger] pre[i].len() > 0 && no_ws(
            pre[i],
        ) by {
            assert(pre[i] == ws[i]);
        }
        lemma_fill_scan_words(pre, prefix, width);
        let (done, cur) = fill_scan(pre, prefix, width);
        let w = ws.last();
        assert(w == ws[ws.len() - 1]);
        lemma_word_scan_word(w);
        assert(words(w) =~= seq![w]);
        lemma_words_leading_ws(prefix, w);
        assert(ws =~= pre.push(w));
        if cur.len() == 0 {
            assert(all_words(done) + seq![w] =~= ws);
        } else if cur.len() + 1 + w.len() <= width {
            lemma_words_append_word(cur, w);
            assert((all_words(done) + words(cur)).push(w) =~= all_words(done) + words(cur).push(w));
        } else {
            assert(done.push(cur).drop_last() =~= done);
            assert(all_words(done.push(cur)) + seq![w] =~= ws);
        }
    }
}

proof fn lemma_fill_words(ws: Seq<Seq<char>>, prefix: Seq<char>, width: nat)
    requires
        all_ws(prefix),
        forall|i: int| 0 <= i < ws.len() ==> #[trigger] ws[i].len() > 0 && no_ws(ws[i]),
    ensures
        all_words(fill(ws, prefix, width)) == ws,
{
    lemma_fill_scan_words(ws, prefix, width);
    let (done, cur) = fill_scan(ws, prefix, width);
    if cur.len() > 0 {
        assert(done.push(cur).drop_last() =~= done);
    } else {
        assert(all_words(done) + words(cur) =~= all_words(done));
    }
}

proof fn lemma_wrap_line_words(raw: Seq<char>, width: nat)
    ensures
        all_words(wrap_line(raw, width)) == words(raw),
{
    let one_blank = seq![Seq::<char>::empty()];
    assert(one_blank.drop_last() =~= Seq::<Seq<char>>::empty());
    assert(one_blank.last() == Seq::<char>::empty());
    assert(all_words(Seq::<Seq<char>>::empty()) =~= Seq::<Seq<char>>::empty());
    assert(words(Seq::<char>::empty()) =~= Seq::<Seq<char>>::empty());
    assert(all_words(one_blank) =~= Seq::<Seq<char>>::empty());
    if raw.len() > 0 {
        let k = leading_ws(raw) as int;
        lemma_leading_ws(raw);
        let prefix = raw.take(k);
        let t = raw.skip(k);
        let content = trim_end(t);
        assert(all_ws(prefix)) by {
            assert forall|i: int| 0 <= i < prefix.len() implies is_ws(#[trigger] prefix[i]) by {
                assert(prefix[i] == raw[i]);
            }
        }
        assert(prefix + t =~= raw);
        lemma_words_leading_ws(prefix, t);
        lemma_trailing_ws(t);
        let tail = t.skip(content.len() as int);
        assert(all_ws(tail)) by {
            assert forall|i: int| 0 <= i < tail.len() implies is_ws(#[trigger] tail[i]) by {
                assert(tail[i] == t[content.len() + i]);
            }
        }
        assert(content + tail =~= t);
        lemma_words_trailing_ws(content, tail);
        if content.len() == 0 {
            lemma_word_scan_all_ws(tail);
            assert(Seq::<char>::empty() + tail =~= tail);
        } else {
            lemma_words(content);
            lemma_fill_words(words(content), prefix, width);
        }
    }
}

proof fn lemma_wrap_all_words(lines: Seq<Seq<char>>, width: nat)
    ensures
        all_words(wrap_all(lines, width)) == all_words(lines),
    decreases lines.len(),
{
    if lines.len() > 0 {
        lemma_wrap_all_words(lines.drop_last(), width);
        lemma_wrap_line_words(lines.last(), width);
        lemma_all_words_concat(wrap_all(lines.drop_last(), width), wrap_line(lines.last(), width));
    }
}

/// Scanning for lines and for words side by side: the words seen so far are
/// those of the finished lines, then those of the unfinished one.
proof fn lemma_line_scan_words(s: Seq<char>)
    ensures
        word_scan(s) == (all_words(line_scan(s).0) + word_scan(line_scan(s).1).0, word_scan(
            line_scan(s).1,
        ).1),
    decreases s.len(),
{
    if s.len() == 0 {
        assert(all_words(Seq::<Seq<char>>::empty()) + Seq::<Seq<char>>::empty() =~= Seq::<
            Seq<char>,
        >::empty());
    } else {
        lemma_line_scan_words(s.drop_last());
        let (done, cur) = line_scan(s.drop_last());
        let (wd, wc) = word_scan(cur);
        let c = s.last();
        if c == '\n' {
            assert(is_ws(c));
            let l = strip_cr(cur);
            if cur.len() > 0 && cur.last() == '\r' {
                assert(cur =~= l + seq!['\r']);
                assert(all_ws(seq!['\r'])) by {
                    assert(seq!['\r'][0] == '\r');
                }
                lemma_words_trailing_ws(l, seq!['\r']);
            }
            assert(done.push(l).drop_last() =~= done);
            assert(words(cur) == words(l));
            if wc.len() > 0 {
                assert(all_words(done) + wd.push(wc) =~= (all_words(done) + wd).push(wc));
            }
            assert(all_words(done.push(l)) + Seq::<Seq<char>>::empty() =~= all_words(done.push(l)));
        } else {
            assert(cur.push(c).drop_last() =~= cur);
            if is_ws(c) && wc.len() > 0 {
                assert(all_words(done) + wd.push(wc) =~= (all_words(done) + wd).push(wc));
            }
        }
    }
}

/// The words of a text are the words of its lines, in order.
proof fn lemma_text_lines_words(s: Seq<char>)
    ensures
        all_words(text_lines(s)) == words(s),
{
    lemma_line_scan_words(s);
    let (done, cur) = line_scan(s);
    let (wd, wc) = word_scan(cur);
    if cur.len() > 0 {
        assert(done.push(cur).drop_last() =~= done);
        if wc.len() > 0 {
            assert(all_words(done) + wd.push(wc) =~= (all_words(done) + wd).push(wc));
        }
    } else {
        assert(all_words(done) + Seq::<Seq<char>>::empty() =~= all_words(done));
    }
}

/// Wrapping to a positive width neither loses, adds nor reorders a word: the
/// words of the wrapped lines are the words of the text.
pub proof fn law_wrap_keeps_words(text: Seq<char>, width: nat)
    requires
        width > 0,
    ensures
        all_words(wrap(text, width)) == words(text),
{
    if text.len() == 0 {
        assert(words(text) =~= Seq::<Seq<char>>::empty());
    } else {
        lemma_wrap_all_words(text_lines(text), width);
        lemma_text_lines_words(text);
    }
}

// Wrapping keeps escape sequences whole ---------------------------------------

/// Every line of `ls` ends in ordinary text.
pub open spec fn all_end_plain(ls: Seq<Seq<char>>) -> bool {
    forall|i: int| 0 <= i < ls.len() ==> ends_plain(#[trigger] ls[i])
}

proof fn lemma_ws_not_esc(c: char)
    requires
        is_ws(c),
    ensures
        c != esc(),
{
}

proof fn lemma_word_scan_plain(s: Seq<char>)
    requires
        ws_plain(s),
    ensures
        all_end_plain(word_scan(s).0),
        esc_scan(word_scan(s).1).1 == esc_scan(s).1,
    decreases s.len(),
{
    if s.len() > 0 {
        let p = s.drop_last();
        let c = s.last();
        assert(s.take(s.len() - 1) =~= p);
        lemma_ws_plain_take(s, s.len() - 1);
        lemma_word_scan_plain(p);
        let (done, cur) = word_scan(p);
        assert(s[s.len() - 1] == c);
        if is_ws(c) {
            lemma_ws_not_esc(c);
            assert(ends_plain(p));
            assert(ends_plain(cur));
            if cur.len() > 0 {
                assert forall|i: int| 0 <= i < done.push(cur).len() implies ends_plain(
                    #[trigger] done.push(cur)[i],
                ) by {
                    if i < done.len() {
                        assert(done.push(cur)[i] == done[i]);
                    }
                }
            }
        } else {
            assert(cur.push(c).drop_last() =~= cur);
        }
    }
}

proof fn lemma_line_scan_plain(s: Seq<char>)
    requires
        ws_plain(s),
    ensures
        forall|i: int|
            0 <= i < line_scan(s).0.len() ==> ws_plain(#[trigger] line_scan(s).0[i]) && ends_plain(
                line_scan(s).0[i],
            ),
        ws_plain(line_scan(s).1),
        esc_scan(line_scan(s).1).1 == esc_scan(s).1,
    decreases s.len(),
{
    if s.len() > 0 {
        let p = s.drop_last();
        let c = s.last();
        assert(s.take(s.len() - 1) =~= p);
        lemma_ws_plain_take(s, s.len() - 1);
        lemma_line_scan_plain(p);
        let (done, cur) = line_scan(p);
        assert(s[s.len() - 1] == c);
        if c == '\n' {
            assert(is_ws(c));
            assert(ends_plain(p));
            let l = strip_cr(cur);
            if cur.len() > 0 && cur.last() == '\r' {
                assert(cur[cur.len() - 1] == '\r');
                assert(cur.take(cur.len() - 1) =~= cur.drop_last());
                lemma_ws_plain_take(cur, cur.len() - 1);
            }
            assert(ws_plain(l) && ends_plain(l));
            assert forall|i: int| 0 <= i < done.push(l).len() implies ws_plain(
                #[trigger] done.push(l)[i],
            ) && ends_plain(done.push(l)[i]) by {
                if i < done.len() {
                    assert(done.push(l)[i] == done[i]);
                }
            }
            assert(ws_plain(Seq::<char>::empty()));
        } else {
            let nc = cur.push(c);
            assert(nc.drop_last() =~= cur);
            assert forall|i: int| 0 <= i < nc.len() && is_ws(#[trigger] nc[i]) implies ends_plain(
                nc.take(i),
            ) by {
                if i < cur.len() {
                    assert(nc[i] == cur[i]);
                    assert(nc.take(i) =~= cur.take(i));
                } else {
                    assert(nc.take(i) =~= cur);
                    assert(ends_plain(p));
                }
            }
        }
    }
}

proof fn lemma_text_lines_plain(s: Seq<char>)
    requires
        ws_plain(s),
        ends_plain(s),
    ensures
        forall|i: int|
            0 <= i < text_lines(s).len() ==> ws_plain(#[trigger] text_lines(s)[i]) && ends_plain(
                text_lines(s)[i],
            ),
{
    lemma_line_scan_plain(s);
    let (done, cur) = line_scan(s);
    if cur.len() > 0 {
        assert forall|i: int| 0 <= i < done.push(cur).len() implies ws_plain(
            #[trigger] done.push(cur)[i],
        ) && ends_plain(done.push(cur)[i]) by {
            if i < done.len() {
                assert(done.push(cur)[i] == done[i]);
            }
        }
    }
}

proof fn lemma_fill_scan_plain(ws: Seq<Seq<char>>, prefix: Seq<char>, width: nat)
    requires
        ends_plain(prefix),
        all_end_plain(ws),
    ensures
        all_end_plain(fill_scan(ws, prefix, width).0),
        ends_plain(fill_scan(ws, prefix, width).1),
    decreases ws.len(),
{
    if ws.len() == 0 {
        assert(esc_scan(Seq::<char>::empty()).1 == EscState::Normal);
    } else {
        let pre = ws.drop_last();
        assert(all_end_plain(pre)) by {
            assert forall|i: int| 0 <= i < pre.len() implies ends_plain(#[trigger] pre[i]) by {
                assert(pre[i] == ws[i]);
            }
        }
        lemma_fill_scan_plain(pre, prefix, width);
        let (done, cur) = fill_scan(pre, prefix, width);
        let w = ws.last();
        assert(ends_plain(w)) by {
            assert(w == ws[ws.len() - 1]);
        }
        lemma_esc_scan_concat(prefix, w);
        if cur.len() > 0 {
            assert(cur.push(' ').drop_last() =~= cur);
            assert(ends_plain(cur.push(' ')));
            lemma_esc_scan_concat(cur.push(' '), w);
            assert forall|i: int| 0 <= i < done.push(cur).len() implies ends_plain(
                #[trigger] done.push(cur)[i],
            ) by {
                if i < done.len() {
                    assert(done.push(cur)[i] == done[i]);
                }
            }
        }
    }
}

proof fn lemma_wrap_line_plain(raw: Seq<char>, width: nat)
    requires
        ws_plain(raw),
        ends_plain(raw),
    ensures
        all_end_plain(wrap_line(raw, width)),
{
    let one_blank = seq![Seq::<char>::empty()];
    assert(esc_scan(Seq::<char>::empty()).1 == EscState::Normal);
    assert(all_end_plain(one_blank)) by {
        assert(one_blank[0] == Seq::<char>::empty());
    }
    if raw.len() > 0 {
        let k = leading_ws(raw) as int;
        lemma_leading_ws(raw);
        let prefix = raw.take(k);
        let t = raw.skip(k);
        assert(no_esc(prefix)) by {
            assert forall|i: int| 0 <= i < prefix.len() implies #[trigger] prefix[i] != esc() by {
                assert(prefix[i] == raw[i]);
                lemma_ws_not_esc(raw[i]);
            }
        }
        lemma_plain_ws_plain(prefix);
        assert(prefix + t =~= raw);
        lemma_ws_plain_suffix(prefix, t);
        let content = trim_end(t);
        lemma_trailing_ws(t);
        let m = content.len() as int;
        lemma_ws_plain_take(t, m);
        if m < t.len() {
            assert(is_ws(t[m]));
            assert(ends_plain(t.take(m)));
        } else {
            assert(t.take(m) =~= t);
        }
        assert(ends_plain(content));
        if content.len() > 0 {
            lemma_word_scan_plain(content);
            let (done, cur) = word_scan(content);
            assert(all_end_plain(words(content))) by {
                if cur.len() > 0 {
                    assert forall|i: int| 0 <= i < done.push(cur).len() implies ends_plain(
                        #[trigger] done.push(cur)[i],
                    ) by {
                        if i < done.len() {
                            assert(done.push(cur)[i] == done[i]);
                        }
                    }
                }
            }
            lemma_fill_scan_plain(words(content), prefix, width);
            let (fd, fc) = fill_scan(words(content), prefix, width);
            if fc.len() > 0 {
                assert forall|i: int| 0 <= i < fd.push(fc).len() implies ends_plain(
                    #[trigger] fd.push(fc)[i],
                ) by {
                    if i < fd.len() {
                        assert(fd.push(fc)[i] == fd[i]);
                    }
                }
            }
        }
    }
}

proof fn lemma_wrap_all_plain(lines: Seq<Seq<char>>, width: nat)
    requires
        forall|i: int| 0 <= i < lines.len() ==> ws_plain(#[trigger] lines[i]) && ends_plain(lines[i]),
    ensures
        all_end_plain(wrap_all(lines, width)),
    decreases lines.len(),
{
    if lines.len() > 0 {
        let pre = lines.drop_last();
        assert forall|i: int| 0 <= i < pre.len() implies ws_plain(#[trigger] pre[i]) && ends_plain(
            pre[i],
        ) by {
            assert(pre[i] == lines[i]);
        }
        lemma_wrap_all_plain(pre, width);
        assert(lines.last() == lines[lines.len() - 1]);
        lemma_wrap_line_plain(lines.last(), width);
        let a = wrap_all(pre, width);
        let b = wrap_line(lines.last(), width);
        assert forall|i: int| 0 <= i < (a + b).len() implies ends_plain(#[trigger] (a + b)[i]) by {
            if i < a.len() {
                assert((a + b)[i] == a[i]);
            } else {
                assert((a + b)[i] == b[i - a.len()]);
            }
        }
    }
}

/// Wrapping never cuts an escape sequence: when every whitespace character
/// of the text stands outside escape sequences and the text ends in ordinary
/// text, every wrapped line ends in ordinary text.
pub proof fn lemma_wrap_ends_plain(text: Seq<char>, width: nat)
    requires
        ws_plain(text),
        ends_plain(text),
    ensures
        all_end_plain(wrap(text, width)),
{
    if text.len() > 0 && width > 0 {
        lemma_text_lines_plain(text);
        lemma_wrap_all_plain(text_lines(text), width);
    }
}

// The shape of wrapped lines ---------------------------------------------------

/// The words joined by single spaces.
pub open spec fn join_words(ws: Seq<Seq<char>>) -> Seq<char>
    decreases ws.len(),
{
    if ws.len() == 0 {
        Seq::empty()
    } else if ws.len() == 1 {
        ws[0]
    } else {
        join_words(ws.drop_last()) + seq![' '] + ws.last()
    }
}

/// The line is `prefix` followed by one or more words joined by single
/// spaces.
pub open spec fn shaped(l: Seq<char>, prefix: Seq<char>) -> bool {
    &&& words(l).len() > 0
    &&& l == prefix + join_words(words(l))
}

/// Filling is greedy: no line could have taken the first word of the next.
pub open spec fn greedy(ls: Seq<Seq<char>>, width: nat) -> bool {
    forall|i: int|
        0 <= i < ls.len() - 1 ==> #[trigger] ls[i].len() + 1 + words(ls[i + 1])[0].len() > width
}

proof fn lemma_fill_scan_shape(ws: Seq<Seq<char>>, prefix: Seq<char>, width: nat)
    requires
        all_ws(prefix),
        forall|i: int| 0 <= i < ws.len() ==> no_ws(#[trigger] ws[i]) && ws[i].len() > 0,
    ensures
        ({
            let (done, cur) = fill_scan(ws, prefix, width);
            &&& ws.len() > 0 ==> cur.len() > 0
            &&& ws.len() == 0 ==> done.len() == 0 && cur.len() == 0
            &&& forall|i: int| 0 <= i < done.len() ==> shaped(#[trigger] done[i], prefix)
            &&& cur.len() > 0 ==> shaped(cur, prefix)
            &&& greedy(done, width)
            &&& done.len() > 0 && cur.len() > 0 ==> done.last().len() + 1 + words(cur)[0].len()
                > width
        }),
    decreases ws.len(),
{
    if ws.len() > 0 {
        let pre = ws.drop_last();
        assert forall|i: int| 0 <= i < pre.len() implies no_ws(#[trigger] pre[i]) && pre[i].len()
            > 0 by {
            assert(pre[i] == ws[i]);
        }
        lemma_fill_scan_shape(pre, prefix, width);
        let (done, cur) = fill_scan(pre, prefix, width);
        let w = ws.last();
        assert(no_ws(w) && w.len() > 0) by {
            assert(w == ws[ws.len() - 1]);
        }
        lemma_prefix_word_single(prefix, w);
        assert(join_words(seq![w]) == w);
        assert(shaped(prefix + w, prefix));
        assert(words(prefix + w)[0] == w);
        if cur.len() == 0 {
        } else if cur.len() + 1 + w.len() <= width {
            lemma_words_append_word(cur, w);
            let cw = words(cur);
            let nc = cur.push(' ') + w;
            assert(cw.push(w).drop_last() =~= cw);
            assert(nc =~= prefix + join_words(cw) + seq![' '] + w);
            assert(join_words(cw.push(w)) == join_words(cw) + seq![' '] + w);
            assert(nc =~= prefix + join_words(cw.push(w)));
            assert(words(nc)[0] == cw[0]);
        } else {
            let nd = done.push(cur);
            assert forall|i: int| 0 <= i < nd.len() implies shaped(#[trigger] nd[i], prefix) by {
                if i < done.len() {
                    assert(nd[i] == done[i]);
                }
            }
            assert forall|i: int| 0 <= i < nd.len() - 1 implies #[trigger] nd[i].len() + 1 + words(
                nd[i + 1],
            )[0].len() > width by {
                assert(nd[i] == done[i]);
                if i + 1 < done.len() {
                    assert(nd[i + 1] == done[i + 1]);
                    assert(done[i].len() + 1 + words(done[i + 1])[0].len() > width);
                } else {
                    assert(nd[i + 1] == cur);
                    assert(done[i] == done.last());
                }
            }
            assert(nd.last() == cur);
        }
    }
}

/// The shape of the wrapped lines of one line of text: a line that is blank
/// once its whitespace is dropped gives one empty line; any other gives lines
/// that are each its indentation followed by one or more words joined by
/// single spaces, filled greedily (no line could have taken the first word
/// of the next).
pub proof fn law_wrap_line_shape(raw: Seq<char>, width: nat)
    ensures
        ({
            let k = leading_ws(raw) as int;
            let content = trim_end(raw.skip(k));
            let ls = wrap_line(raw, width);
            &&& content.len() == 0 ==> ls == seq![Seq::<char>::empty()]
            &&& content.len() > 0 ==> (forall|i: int|
                0 <= i < ls.len() ==> shaped(#[trigger] ls[i], raw.take(k))) && greedy(ls, width)
                && ls.len() > 0
        }),
{
    let k = leading_ws(raw) as int;
    lemma_leading_ws(raw);
    let content = trim_end(raw.skip(k));
    if raw.len() == 0 {
        assert(raw.skip(k).len() == 0);
    }
    if content.len() > 0 {
        lemma_words(content);
        let prefix = raw.take(k);
        assert(all_ws(prefix)) by {
            assert forall|i: int| 0 <= i < prefix.len() implies is_ws(#[trigger] prefix[i]) by {
                assert(prefix[i] == raw[i]);
            }
        }
        let ws = words(content);
        assert(ws.len() > 0) by {
            lemma_trailing_ws(raw.skip(k));
            assert(!is_ws(content[0])) by {
                assert(content[0] == raw.skip(k)[0]);
                assert(raw.skip(k)[0] == raw[k]);
            }
            lemma_words_nonempty(content);
        }
        assert forall|i: int| 0 <= i < ws.len() implies no_ws(#[trigger] ws[i]) && ws[i].len()
            > 0 by {
            assert(ws[i].len() > 0);
        }
        lemma_fill_scan_shape(ws, prefix, width);
        let (done, cur) = fill_scan(ws, prefix, width);
        let ls = done.push(cur);
        assert forall|i: int| 0 <= i < ls.len() implies shaped(#[trigger] ls[i], prefix) by {
            if i < done.len() {
                assert(ls[i] == done[i]);
            }
        }
        assert forall|i: int| 0 <= i < ls.len() - 1 implies #[trigger] ls[i].len() + 1 + words(
            ls[i + 1],
        )[0].len() > width by {
            assert(ls[i] == done[i]);
            if i + 1 < done.len() {
                assert(ls[i + 1] == done[i + 1]);
                assert(done[i].len() + 1 + words(done[i + 1])[0].len() > width);
            } else {
                assert(ls[i + 1] == cur);
                assert(done[i] == done.last());
            }
        }
    }
}

proof fn lemma_word_scan_nonempty(s: Seq<char>)
    requires
        s.len() > 0,
        !is_ws(s[0]),
    ensures
        word_scan(s).0.len() > 0 || word_scan(s).1.len() > 0,
    decreases s.len(),
{
    if s.len() > 1 {
        assert(s.drop_last()[0] == s[0]);
        lemma_word_scan_nonempty(s.drop_last());
    } else {
        assert(s.drop_last().len() == 0);
        assert(s.last() == s[0]);
    }
}

proof fn lemma_words_nonempty(s: Seq<char>)
    requires
        s.len() > 0,
        !is_ws(s[0]),
    ensures
        words(s).len() > 0,
{
    lemma_word_scan_nonempty(s);
}

} // verus!
