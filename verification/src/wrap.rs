//! Greedy line wrapping of a caption into lines that fit a pixel width.
//!
//! Glyph metrics are given in fixed-point units (one unit is a fraction of a
//! pixel chosen by the caller), one advance and one kerning value per
//! character of the text.  The kerning value at index `i` is the kerning
//! between the character at `i - 1` and the character at `i`; it is added
//! only when the character joins a line that already holds a character.
//!
//! Lines break between any two CJK characters.  A word of a space-separated
//! script moves whole to the next line, leaving the space before it behind,
//! and is broken only when it is wider than a line on its own.
use vstd::prelude::*;
use crate::text::{join, string_views};

verus! {

/// Largest magnitude accepted for a single advance or kerning value.
pub const METRIC_LIMIT: i64 = 0x7fff_ffff;

/// Largest number of characters accepted in a caption.
pub const TEXT_LIMIT: usize = 0x7fff_ffff;

/// Characters of the scripts that may be broken between any two characters:
/// CJK radicals, symbols and ideographs, Hangul syllables, compatibility
/// ideographs and forms, full-width and half-width forms, and the
/// supplementary ideograph planes.
pub open spec fn is_cjk(c: char) -> bool {
    let u = c as u32;
    ||| 0x2E80 <= u <= 0x9FFF
    ||| 0xAC00 <= u <= 0xD7AF
    ||| 0xF900 <= u <= 0xFAFF
    ||| 0xFE30 <= u <= 0xFE4F
    ||| 0xFF00 <= u <= 0xFFEF
    ||| 0x20000 <= u <= 0x3FFFF
}

/// Characters that belong to a word of a space-separated script.
pub open spec fn is_word_char(c: char) -> bool {
    c != ' ' && !is_cjk(c)
}

/// The state of the wrapping fold after some prefix of the text.
pub struct WrapState {
    /// Finished lines, in order.
    pub lines: Seq<Seq<char>>,
    /// Width of each finished line when it was closed.
    pub widths: Seq<int>,
    /// Position in the text of the first character of each finished line.
    pub starts: Seq<int>,
    /// The line being filled.
    pub current: Seq<char>,
    /// Width of the line being filled.
    pub width: int,
    /// Width of the line being filled before its last character.
    pub prev_width: int,
    /// Length of the word at the end of the line being filled: its trailing
    /// run of word characters.
    pub word_len: nat,
    /// Width that this word added to the line.
    pub word_width: int,
    /// Length of the line left behind when the word moves to a new line: the
    /// characters before the word, without the space just before it.
    pub cut_len: nat,
    /// Width of that line.
    pub cut_width: int,
}

pub open spec fn empty_wrap_state() -> WrapState {
    WrapState {
        lines: Seq::empty(),
        widths: Seq::empty(),
        starts: Seq::empty(),
        current: Seq::empty(),
        width: 0,
        prev_width: 0,
        word_len: 0,
        word_width: 0,
        cut_len: 0,
        cut_width: 0,
    }
}

/// Width that character `c` adds to the line of `st`: its advance, plus the
/// kerning with the previous character when the line is not empty.
pub open spec fn added_width(st: WrapState, advance: int, kern: int) -> int {
    advance + if st.current.len() == 0 {
        0
    } else {
        kern
    }
}

/// The word at the end of the line, followed by a character that adds `w`,
/// can move to a new line: something is left behind, what is left behind
/// fits, and the word fits a line on its own.
pub open spec fn word_moves(st: WrapState, w: int, max_width: int) -> bool {
    &&& st.word_len > 0
    &&& st.cut_len > 0
    &&& st.cut_width <= max_width
    &&& st.word_width <= max_width
    &&& st.word_width + w <= max_width
}

/// One step of the greedy wrap, on the character `c` at position `pos` of the
/// text.  A character that would push a non-empty line past `max_width`
/// starts a new line.  When it continues a word that can move (see
/// `word_moves`), the whole word moves to the new line and the space before it
/// is dropped; otherwise the line is closed as it stands, and the character
/// starts the new line, unless it is a space, which is dropped.
pub open spec fn wrap_step(
    st: WrapState,
    pos: int,
    c: char,
    advance: int,
    kern: int,
    max_width: int,
) -> WrapState {
    let w = added_width(st, advance, kern);
    if st.current.len() > 0 && st.width + w > max_width {
        if is_word_char(c) && word_moves(st, w, max_width) {
            WrapState {
                lines: st.lines.push(st.current.take(st.cut_len as int)),
                widths: st.widths.push(st.cut_width),
                starts: st.starts.push(pos - st.current.len()),
                current: st.current.skip(st.current.len() - st.word_len).push(c),
                width: st.word_width + w,
                prev_width: st.word_width,
                word_len: st.word_len + 1,
                word_width: st.word_width + w,
                cut_len: 0,
                cut_width: 0,
            }
        } else if c == ' ' {
            WrapState {
                lines: st.lines.push(st.current),
                widths: st.widths.push(st.width),
                starts: st.starts.push(pos - st.current.len()),
                ..empty_wrap_state()
            }
        } else {
            WrapState {
                lines: st.lines.push(st.current),
                widths: st.widths.push(st.width),
                starts: st.starts.push(pos - st.current.len()),
                current: seq![c],
                width: w,
                prev_width: 0,
                word_len: if is_word_char(c) {
                    1
                } else {
                    0
                },
                word_width: if is_word_char(c) {
                    w
                } else {
                    0
                },
                cut_len: 0,
                cut_width: 0,
            }
        }
    } else {
        let starts_word = is_word_char(c) && st.word_len == 0;
        let after_space = st.current.len() > 0 && st.current.last() == ' ';
        WrapState {
            lines: st.lines,
            widths: st.widths,
            starts: st.starts,
            current: st.current.push(c),
            width: st.width + w,
            prev_width: st.width,
            word_len: if is_word_char(c) {
                st.word_len + 1
            } else {
                0
            },
            word_width: if is_word_char(c) {
                st.word_width + w
            } else {
                0
            },
            cut_len: if starts_word {
                if after_space {
                    (st.current.len() - 1) as nat
                } else {
                    st.current.len()
                }
            } else if is_word_char(c) {
                st.cut_len
            } else {
                0
            },
            cut_width: if starts_word {
                if after_space {
                    st.prev_width
                } else {
                    st.width
                }
            } else if is_word_char(c) {
                st.cut_width
            } else {
                0
            },
        }
    }
}

/// The wrapping state after the first `n` characters of `text`.
pub open spec fn wrap_prefix(
    text: Seq<char>,
    advances: Seq<i64>,
    kerns: Seq<i64>,
    max_width: int,
    n: nat,
) -> WrapState
    decreases n,
{
    if n == 0 {
        empty_wrap_state()
    } else {
        let k = (n - 1) as nat;
        wrap_step(
            wrap_prefix(text, advances, kerns, max_width, k),
            k as int,
            text[k as int],
            advances[k as int] as int,
            kerns[k as int] as int,
            max_width,
        )
    }
}

/// The lines of a finished wrap: the finished lines plus the last line when it
/// is not empty; a text that yields no line at all gives itself as the only line.
pub open spec fn finish_lines(text: Seq<char>, st: WrapState) -> Seq<Seq<char>> {
    let lines = if st.current.len() > 0 {
        st.lines.push(st.current)
    } else {
        st.lines
    };
    if lines.len() == 0 {
        seq![text]
    } else {
        lines
    }
}

/// The lines that wrapping `text` at `max_width` gives.
pub open spec fn wrapped_lines(
    text: Seq<char>,
    advances: Seq<i64>,
    kerns: Seq<i64>,
    max_width: int,
) -> Seq<Seq<char>> {
    finish_lines(text, wrap_prefix(text, advances, kerns, max_width, text.len()))
}

/// The metrics are well formed for `text`: one advance and one kerning value
/// per character, each within `METRIC_LIMIT`, and a text within `TEXT_LIMIT`.
pub open spec fn metrics_fit(text: Seq<char>, advances: Seq<i64>, kerns: Seq<i64>) -> bool {
    &&& advances.len() == text.len()
    &&& kerns.len() == text.len()
    &&& text.len() <= TEXT_LIMIT
    &&& forall|i: int| 0 <= i < advances.len() ==> -METRIC_LIMIT <= #[trigger] advances[i] <= METRIC_LIMIT
    &&& forall|i: int| 0 <= i < kerns.len() ==> -METRIC_LIMIT <= #[trigger] kerns[i] <= METRIC_LIMIT
}

/// The characters that are not spaces.
pub open spec fn not_space() -> spec_fn(char) -> bool {
    |c: char| c != ' '
}

/// Every width the fold tracks after `n` characters is within
/// `n * 2 * METRIC_LIMIT` of zero.
proof fn lemma_width_bound(
    text: Seq<char>,
    advances: Seq<i64>,
    kerns: Seq<i64>,
    max_width: int,
    n: nat,
)
    requires
        metrics_fit(text, advances, kerns),
        n <= text.len(),
    ensures
        ({
            let st = wrap_prefix(text, advances, kerns, max_width, n);
            &&& -4294967294 * n <= st.width <= 4294967294 * n
            &&& -4294967294 * n <= st.prev_width <= 4294967294 * n
            &&& -4294967294 * n <= st.word_width <= 4294967294 * n
            &&& -4294967294 * n <= st.cut_width <= 4294967294 * n
        }),
    decreases n,
{
    if n > 0 {
        lemma_width_bound(text, advances, kerns, max_width, (n - 1) as nat);
        let k = (n - 1) as int;
        assert(-METRIC_LIMIT <= advances[k] <= METRIC_LIMIT);
        assert(-METRIC_LIMIT <= kerns[k] <= METRIC_LIMIT);
    }
}

/// Whether `c` is a word character (see `is_word_char`).
fn word_char(c: char) -> (b: bool)
    ensures
        b == is_word_char(c),
{
    let u: u32 = c as u32;
    let cjk = (0x2E80 <= u && u <= 0x9FFF) || (0xAC00 <= u && u <= 0xD7AF) || (0xF900 <= u && u
        <= 0xFAFF) || (0xFE30 <= u && u <= 0xFE4F) || (0xFF00 <= u && u <= 0xFFEF) || (0x20000
        <= u && u <= 0x3FFFF);
    c != ' ' && !cjk
}

/// The characters of `v` from `from` up to `to`, as a string.
fn string_of_chars(v: &Vec<char>, from: usize, to: usize) -> (s: String)
    requires
        from <= to <= v.len(),
    ensures
        s@ == v@.subrange(from as int, to as int),
{
    let mut s = String::new();
    let mut i: usize = from;
    while i < to
        invariant
            from <= i <= to,
            to <= v.len(),
            s@ == v@.subrange(from as int, i as int),
        decreases to - i,
    {
        s.push(v[i]);
        assert(s@ =~= v@.subrange(from as int, i + 1));
        i = i + 1;
    }
    s
}

/// The characters of `v` from `from` up to `to`.
fn chars_between(v: &Vec<char>, from: usize, to: usize) -> (r: Vec<char>)
    requires
        from <= to <= v.len(),
    ensures
        r@ == v@.subrange(from as int, to as int),
{
    let mut r: Vec<char> = Vec::new();
    let mut i: usize = from;
    while i < to
        invariant
            from <= i <= to,
            to <= v.len(),
            r@ == v@.subrange(from as int, i as int),
        decreases to - i,
    {
        r.push(v[i]);
        assert(r@ =~= v@.subrange(from as int, i + 1));
        i = i + 1;
    }
    r
}


/// Wraps `text` into lines no wider than `max_width` (see `wrap_step`):
/// CJK text breaks between any two characters, a word of a space-separated
/// script moves whole to the next line unless it is wider than a line on its
/// own, and a space that would start a line is dropped, as is the space
/// before a word that moves.  An empty text gives one empty line.
pub fn wrap_text(text: &str, max_width: i64, advances: &Vec<i64>, kerns: &Vec<i64>) -> (lines:
    Vec<String>)
    requires
        metrics_fit(text@, advances@, kerns@),
    ensures
        string_views(lines@) == wrapped_lines(text@, advances@, kerns@, max_width as int),
{
    let ghost t = text@;
    let ghost adv = advances@;
    let ghost ker = kerns@;
    let ghost mw = max_width as int;
    let mut lines: Vec<String> = Vec::new();
    let mut current: Vec<char> = Vec::new();
    let mut width: i64 = 0;
    let mut prev_width: i64 = 0;
    let mut word_len: usize = 0;
    let mut word_width: i64 = 0;
    let mut cut_len: usize = 0;
    let mut cut_width: i64 = 0;
    let mut idx: usize = 0;
    for ch in it: text.chars()
        invariant
            it.seq() == t,
            t == text@,
            adv == advances@,
            ker == kerns@,
            mw == max_width as int,
            metrics_fit(t, adv, ker),
            idx == it.index(),
            idx <= t.len(),
            string_views(lines@) == wrap_prefix(t, adv, ker, mw, idx as nat).lines,
            current@ == wrap_prefix(t, adv, ker, mw, idx as nat).current,
            width as int == wrap_prefix(t, adv, ker, mw, idx as nat).width,
            prev_width as int == wrap_prefix(t, adv, ker, mw, idx as nat).prev_width,
            word_len as int == wrap_prefix(t, adv, ker, mw, idx as nat).word_len,
            word_width as int == wrap_prefix(t, adv, ker, mw, idx as nat).word_width,
            cut_len as int == wrap_prefix(t, adv, ker, mw, idx as nat).cut_len,
            cut_width as int == wrap_prefix(t, adv, ker, mw, idx as nat).cut_width,
    {
        let ghost pre = wrap_prefix(t, adv, ker, mw, idx as nat);
        proof {
            lemma_width_bound(t, adv, ker, mw, idx as nat);
            lemma_prefix_invariants(t, adv, ker, mw, idx as nat);
        }
        assert(ch == t[idx as int]);
        assert(idx < t.len());
        assert(-4294967294 * t.len() >= -4294967294 * 0x7fff_ffff);
        let advance = advances[idx];
        let kern = kerns[idx];
        let w: i64 = if current.len() == 0 {
            advance
        } else {
            advance + kern
        };
        let wc = word_char(ch);
        if current.len() > 0 && width + w > max_width {
            if wc && word_len > 0 && cut_len > 0 && cut_width <= max_width && word_width
                <= max_width && word_width + w <= max_width {
                lines.push(string_of_chars(&current, 0, cut_len));
                let mut next = chars_between(&current, current.len() - word_len, current.len());
                next.push(ch);
                current = next;
                prev_width = word_width;
                word_width = word_width + w;
                width = word_width;
                word_len = word_len + 1;
                cut_len = 0;
                cut_width = 0;
                proof {
                    assert(pre.current.take(pre.cut_len as int) =~= pre.current.subrange(0, pre.cut_len as int));
                    assert(current@ =~= pre.current.skip(pre.current.len() - pre.word_len).push(ch));
                }
            } else {
                let n = current.len();
                lines.push(string_of_chars(&current, 0, n));
                assert(pre.current =~= pre.current.subrange(0, n as int));
                current = Vec::new();
                prev_width = 0;
                cut_len = 0;
                cut_width = 0;
                if ch == ' ' {
                    width = 0;
                    word_len = 0;
                    word_width = 0;
                } else {
                    current.push(ch);
                    width = w;
                    if wc {
                        word_len = 1;
                        word_width = w;
                    } else {
                        word_len = 0;
                        word_width = 0;
                    }
                    assert(current@ =~= seq![ch]);
                }
            }
        } else {
            if wc {
                if word_len == 0 {
                    if current.len() > 0 && current[current.len() - 1] == ' ' {
                        cut_len = current.len() - 1;
                        cut_width = prev_width;
                    } else {
                        cut_len = current.len();
                        cut_width = width;
                    }
                }
                word_len = word_len + 1;
                word_width = word_width + w;
            } else {
                word_len = 0;
                word_width = 0;
                cut_len = 0;
                cut_width = 0;
            }
            prev_width = width;
            current.push(ch);
            width = width + w;
        }
        proof {
            let st = wrap_prefix(t, adv, ker, mw, (idx + 1) as nat);
            assert(string_views(lines@) =~= st.lines);
            assert(current@ =~= st.current);
        }
        idx = idx + 1;
    }
    let ghost st = wrap_prefix(t, adv, ker, mw, t.len());
    if current.len() > 0 {
        lines.push(string_of_chars(&current, 0, current.len()));
        assert(current@ =~= current@.subrange(0, current@.len() as int));
    }
    assert(string_views(lines@) =~= (if st.current.len() > 0 {
        st.lines.push(st.current)
    } else {
        st.lines
    }));
    if lines.len() == 0 {
        lines.push(text.to_owned());
        assert(string_views(lines@) =~= seq![t]);
    }
    lines
}

/// The invariants of the wrapping fold after `n` characters: everything but
/// dropped spaces has been emitted, finished lines are not empty, every
/// finished line fit `max_width` or holds one character, the line being
/// filled ends with the last character read, some line exists once a
/// character has been read, and the word bookkeeping describes the line
/// being filled.
proof fn lemma_prefix_invariants(
    text: Seq<char>,
    advances: Seq<i64>,
    kerns: Seq<i64>,
    max_width: int,
    n: nat,
)
    requires
        n <= text.len(),
    ensures
        ({
            let st = wrap_prefix(text, advances, kerns, max_width, n);
            &&& (st.lines.flatten() + st.current).filter(not_space()) == text.take(n as int).filter(
                not_space(),
            )
            &&& st.widths.len() == st.lines.len()
            &&& forall|i: int| 0 <= i < st.lines.len() ==> #[trigger] st.lines[i].len() > 0
            &&& forall|i: int|
                0 <= i < st.lines.len() ==> #[trigger] st.widths[i] <= max_width || st.lines[i].len()
                    == 1
            &&& st.width <= max_width || st.current.len() <= 1
            &&& st.current.len() > 0 ==> st.current.last() == text[n - 1]
            &&& n > 0 ==> st.lines.len() > 0 || st.current.len() > 0
            &&& st.current.len() <= n
            &&& st.word_len <= st.current.len()
            &&& st.word_len > 0 ==> (st.cut_len + st.word_len == st.current.len() || (st.cut_len
                + st.word_len + 1 == st.current.len() && st.current[st.cut_len as int] == ' '))
        }),
    decreases n,
{
    broadcast use Seq::lemma_flatten_push, Seq::lemma_filter_push, Seq::filter_distributes_over_add;

    let p = not_space();
    if n == 0 {
        let st = wrap_prefix(text, advances, kerns, max_width, n);
        assert(st.lines.flatten() =~= Seq::<char>::empty());
        assert(text.take(0) =~= Seq::<char>::empty());
        reveal_with_fuel(Seq::filter, 1);
    } else {
        let k = (n - 1) as nat;
        lemma_prefix_invariants(text, advances, kerns, max_width, k);
        let pre = wrap_prefix(text, advances, kerns, max_width, k);
        let st = wrap_prefix(text, advances, kerns, max_width, n);
        let c = text[k as int];
        let a = pre.lines.flatten();
        let cur = pre.current;
        assert(text.take(n as int) =~= text.take(k as int).push(c));
        let w = added_width(pre, advances[k as int] as int, kerns[k as int] as int);
        assert(st == wrap_step(pre, k as int, c, advances[k as int] as int, kerns[k as int] as int, max_width));
        if cur.len() > 0 && pre.width + w > max_width {
            if is_word_char(c) && word_moves(pre, w, max_width) {
                let x = cur.take(pre.cut_len as int);
                let m = cur.subrange(pre.cut_len as int, cur.len() - pre.word_len);
                let y = cur.skip(cur.len() - pre.word_len);
                assert(cur =~= x + m + y);
                if m.len() == 0 {
                    assert(m =~= Seq::<char>::empty());
                } else {
                    assert(m =~= Seq::<char>::empty().push(' '));
                }
                assert(m.filter(p) =~= Seq::<char>::empty()) by {
                    reveal_with_fuel(Seq::filter, 1);
                }
                assert(st.lines.flatten() + st.current =~= (a + x) + y.push(c));
                assert((a + x + m + y).filter(p) == a.filter(p) + x.filter(p) + m.filter(p)
                    + y.filter(p));
                assert((a + x + y).filter(p) == a.filter(p) + x.filter(p) + y.filter(p));
                assert((a + cur) =~= a + x + m + y);
                assert((a + x) + y.push(c) =~= (a + x + y).push(c));
                assert((a + cur).push(c).filter(p) == (a + cur).filter(p) + if p(c) {
                    seq![c]
                } else {
                    Seq::empty()
                });
            } else {
                if c == ' ' {
                    assert(st.lines.flatten() + st.current =~= a + cur);
                } else {
                    assert(st.lines.flatten() + st.current =~= (a + cur).push(c));
                    assert((a + cur).push(c).filter(p) == (a + cur).filter(p) + seq![c]);
                }
            }
            assert forall|i: int| 0 <= i < st.lines.len() implies #[trigger] st.widths[i]
                <= max_width || st.lines[i].len() == 1 by {
                if i < pre.lines.len() {
                    assert(st.lines[i] == pre.lines[i]);
                    assert(st.widths[i] == pre.widths[i]);
                }
            }
            assert forall|i: int| 0 <= i < st.lines.len() implies #[trigger] st.lines[i].len()
                > 0 by {
                if i < pre.lines.len() {
                    assert(st.lines[i] == pre.lines[i]);
                }
            }
        } else {
            assert(st.lines.flatten() + st.current =~= (a + cur).push(c));
            if is_word_char(c) && pre.word_len > 0 {
                assert(st.current[pre.cut_len as int] == cur[pre.cut_len as int]);
            }
        }
    }
}


/// Wrapping loses no character but spaces: the lines, read one after the
/// other, hold the characters of the text that are not spaces, in order.
pub proof fn lemma_wrap_keeps_non_spaces(
    text: Seq<char>,
    advances: Seq<i64>,
    kerns: Seq<i64>,
    max_width: int,
)
    ensures
        wrapped_lines(text, advances, kerns, max_width).flatten().filter(not_space())
            == text.filter(not_space()),
{
    broadcast use Seq::lemma_flatten_push;

    lemma_prefix_invariants(text, advances, kerns, max_width, text.len());
    let st = wrap_prefix(text, advances, kerns, max_width, text.len());
    assert(text.take(text.len() as int) =~= text);
    let lines = if st.current.len() > 0 {
        st.lines.push(st.current)
    } else {
        st.lines
    };
    assert(lines.flatten() =~= st.lines.flatten() + st.current);
    if lines.len() == 0 {
        assert(seq![text].flatten() =~= text) by {
            reveal_with_fuel(Seq::flatten, 2);
        }
    }
}

/// Wrapping a non-empty text gives only non-empty lines; wrapping the empty
/// text gives exactly one empty line.
pub proof fn lemma_wrap_lines_not_empty(
    text: Seq<char>,
    advances: Seq<i64>,
    kerns: Seq<i64>,
    max_width: int,
)
    ensures
        text.len() > 0 ==> forall|i: int|
            0 <= i < wrapped_lines(text, advances, kerns, max_width).len() ==> #[trigger] wrapped_lines(
                text,
                advances,
                kerns,
                max_width,
            )[i].len() > 0,
        text.len() == 0 ==> wrapped_lines(text, advances, kerns, max_width) == seq![Seq::<char>::empty()],
{
    lemma_prefix_invariants(text, advances, kerns, max_width, text.len());
    let st = wrap_prefix(text, advances, kerns, max_width, text.len());
    let res = wrapped_lines(text, advances, kerns, max_width);
    if text.len() > 0 {
        assert forall|i: int| 0 <= i < res.len() implies #[trigger] res[i].len() > 0 by {
            if i < st.lines.len() {
                assert(res[i] == st.lines[i]);
            }
        }
    } else {
        assert(text =~= Seq::<char>::empty());
    }
}

/// Width of the characters at positions `a` to `b - 1` set on one line: their
/// advances, and the kerning of each against the one before it, but for the
/// first.
pub open spec fn line_width(advances: Seq<i64>, kerns: Seq<i64>, a: int, b: int) -> int
    decreases b - a,
{
    if b <= a {
        0
    } else if b == a + 1 {
        advances[a] as int
    } else {
        line_width(advances, kerns, a, b - 1) + advances[b - 1] + kerns[b - 1]
    }
}

/// `w` is the width of the characters at positions `a` to `b - 1` set on one
/// line, possibly with the first character's kerning against the character
/// before it, which a line started at a break keeps.
pub open spec fn measures(advances: Seq<i64>, kerns: Seq<i64>, w: int, a: int, b: int) -> bool {
    ||| w == line_width(advances, kerns, a, b)
    ||| a > 0 && w == line_width(advances, kerns, a, b) + kerns[a]
}

/// Where the lines of the fold after `n` characters stand in the text, and
/// what the widths it tracks measure.
proof fn lemma_prefix_positions(
    text: Seq<char>,
    advances: Seq<i64>,
    kerns: Seq<i64>,
    max_width: int,
    n: nat,
)
    requires
        n <= text.len(),
    ensures
        ({
            let st = wrap_prefix(text, advances, kerns, max_width, n);
            let s = n - st.current.len();
            &&& st.current == text.subrange(s, n as int)
            &&& st.starts.len() == st.lines.len()
            &&& forall|i: int|
                0 <= i < st.lines.len() ==> 0 <= #[trigger] st.starts[i] && st.starts[i]
                    + st.lines[i].len() <= n && st.lines[i] == text.subrange(
                    st.starts[i],
                    st.starts[i] + st.lines[i].len(),
                ) && measures(
                    advances,
                    kerns,
                    st.widths[i],
                    st.starts[i],
                    st.starts[i] + st.lines[i].len(),
                )
            &&& st.current.len() > 0 ==> measures(advances, kerns, st.width, s, n as int)
            &&& st.current.len() > 1 ==> measures(advances, kerns, st.prev_width, s, n - 1)
            &&& st.word_len > 0 ==> measures(advances, kerns, st.word_width, n - st.word_len, n as int)
            &&& st.word_len > 0 && st.cut_len > 0 ==> measures(
                advances,
                kerns,
                st.cut_width,
                s,
                s + st.cut_len,
            )
        }),
    decreases n,
{
    if n == 0 {
        assert(text.subrange(0, 0) =~= Seq::<char>::empty());
    } else {
        let k = (n - 1) as nat;
        let ki = k as int;
        lemma_prefix_positions(text, advances, kerns, max_width, k);
        lemma_prefix_invariants(text, advances, kerns, max_width, k);
        let pre = wrap_prefix(text, advances, kerns, max_width, k);
        let st = wrap_prefix(text, advances, kerns, max_width, n);
        let c = text[ki];
        let sp = k - pre.current.len();
        let a = advances[ki] as int;
        let kn = kerns[ki] as int;
        let w = added_width(pre, a, kn);
        assert(st == wrap_step(pre, ki, c, a, kn, max_width));
        assert(line_width(advances, kerns, ki, n as int) == a);
        if pre.current.len() > 0 {
            assert(line_width(advances, kerns, sp, n as int) == line_width(advances, kerns, sp, ki)
                + a + kn);
        }
        if pre.word_len > 0 {
            let ws = k - pre.word_len;
            assert(line_width(advances, kerns, ws, n as int) == line_width(advances, kerns, ws, ki)
                + a + kn);
        }
        if pre.current.len() > 0 && pre.width + w > max_width {
            assert forall|i: int| 0 <= i < st.lines.len() implies 0 <= #[trigger] st.starts[i]
                && st.starts[i] + st.lines[i].len() <= n && st.lines[i] == text.subrange(
                st.starts[i],
                st.starts[i] + st.lines[i].len(),
            ) && measures(
                advances,
                kerns,
                st.widths[i],
                st.starts[i],
                st.starts[i] + st.lines[i].len(),
            ) by {
                if i < pre.lines.len() {
                    assert(st.lines[i] == pre.lines[i]);
                    assert(st.widths[i] == pre.widths[i]);
                    assert(st.starts[i] == pre.starts[i]);
                } else if is_word_char(c) && word_moves(pre, w, max_width) {
                    assert(st.lines[i] =~= text.subrange(sp, sp + pre.cut_len));
                }
            }
            if is_word_char(c) && word_moves(pre, w, max_width) {
                assert(st.current =~= text.subrange(k - pre.word_len, n as int));
            } else if c != ' ' {
                assert(st.current =~= text.subrange(ki, n as int));
            } else {
                assert(st.current =~= text.subrange(n as int, n as int));
            }
        } else {
            assert(st.current =~= text.subrange(sp, n as int));
        }
    }
}

/// The first position in the text of each line of the wrap of a non-empty
/// text.
pub open spec fn wrapped_starts(
    text: Seq<char>,
    advances: Seq<i64>,
    kerns: Seq<i64>,
    max_width: int,
) -> Seq<int> {
    let st = wrap_prefix(text, advances, kerns, max_width, text.len());
    if st.current.len() > 0 {
        st.starts.push(text.len() - st.current.len())
    } else {
        st.starts
    }
}

/// Every line of the wrap of a non-empty text is a stretch of the text that
/// fits `max_width` as it is set: the advances of its characters, with the
/// kerning of each against the one before it, are at most `max_width`
/// (where a line that starts at a break may also count its first character's
/// kerning against the character before the break); or the line holds a
/// single character that is wider than that on its own.
pub proof fn lemma_wrap_lines_fit(
    text: Seq<char>,
    advances: Seq<i64>,
    kerns: Seq<i64>,
    max_width: int,
)
    requires
        text.len() > 0,
    ensures
        ({
            let lines = wrapped_lines(text, advances, kerns, max_width);
            let starts = wrapped_starts(text, advances, kerns, max_width);
            &&& starts.len() == lines.len()
            &&& forall|i: int|
                0 <= i < lines.len() ==> ({
                    let a = starts[i];
                    let b = a + lines[i].len();
                    &&& 0 <= a
                    &&& b <= text.len()
                    &&& #[trigger] lines[i] == text.subrange(a, b)
                    &&& line_width(advances, kerns, a, b) <= max_width || (a > 0 && line_width(
                        advances,
                        kerns,
                        a,
                        b,
                    ) + kerns[a] <= max_width) || lines[i].len() == 1
                })
        }),
{
    let n = text.len();
    lemma_prefix_invariants(text, advances, kerns, max_width, n);
    lemma_prefix_positions(text, advances, kerns, max_width, n);
    let st = wrap_prefix(text, advances, kerns, max_width, n);
    let lines = wrapped_lines(text, advances, kerns, max_width);
    let starts = wrapped_starts(text, advances, kerns, max_width);
    assert forall|i: int| 0 <= i < lines.len() implies ({
        let a = starts[i];
        let b = a + lines[i].len();
        &&& 0 <= a
        &&& b <= text.len()
        &&& #[trigger] lines[i] == text.subrange(a, b)
        &&& line_width(advances, kerns, a, b) <= max_width || (a > 0 && line_width(
            advances,
            kerns,
            a,
            b,
        ) + kerns[a] <= max_width) || lines[i].len() == 1
    }) by {
        if i < st.lines.len() {
            assert(lines[i] == st.lines[i]);
            assert(starts[i] == st.starts[i]);
            assert(st.widths[i] <= max_width || st.lines[i].len() == 1);
        } else {
            assert(lines[i] == st.current);
            assert(starts[i] == n - st.current.len());
        }
    }
}

/// The line being filled always ends with the character read last, so the
/// kerning value of a character is applied against the character before it
/// in the text.
pub proof fn lemma_line_ends_with_previous_char(
    text: Seq<char>,
    advances: Seq<i64>,
    kerns: Seq<i64>,
    max_width: int,
    n: nat,
)
    requires
        0 < n <= text.len(),
    ensures
        wrap_prefix(text, advances, kerns, max_width, n).current.len() > 0 ==> wrap_prefix(
            text,
            advances,
            kerns,
            max_width,
            n,
        ).current.last() == text[n - 1],
{
    lemma_prefix_invariants(text, advances, kerns, max_width, n);
}


/// Sum of the advances of the characters at positions `i` to `j - 1`.
pub open spec fn advance_sum(advances: Seq<i64>, i: int, j: int) -> int
    decreases j - i,
{
    if j <= i {
        0
    } else {
        advance_sum(advances, i, j - 1) + advances[j - 1]
    }
}

/// No space among the characters at positions `i` to `j - 1`.
pub open spec fn no_space_in(text: Seq<char>, i: int, j: int) -> bool {
    forall|k: int| i <= k < j ==> text[k] != ' '
}

/// Two spaces follow each other at position `i`.
pub open spec fn double_space_at(text: Seq<char>, i: int) -> bool {
    text[i] == ' ' && text[i + 1] == ' '
}

/// `text` is words of a space-separated script (see `is_word_char`) with
/// single spaces between them and none at either end; it is set without
/// kerning and with no negative advance; and every run of characters without
/// a space fits `max_width`.
pub open spec fn spaced_words_fit(
    text: Seq<char>,
    advances: Seq<i64>,
    kerns: Seq<i64>,
    max_width: int,
) -> bool {
    &&& advances.len() == text.len()
    &&& kerns.len() == text.len()
    &&& forall|i: int| 0 <= i < text.len() ==> #[trigger] text[i] == ' ' || is_word_char(text[i])
    &&& text.len() > 0 ==> text[0] != ' ' && text.last() != ' '
    &&& forall|i: int| 0 <= i < text.len() - 1 ==> !#[trigger] double_space_at(text, i)
    &&& forall|i: int| 0 <= i < kerns.len() ==> #[trigger] kerns[i] == 0
    &&& forall|i: int| 0 <= i < advances.len() ==> #[trigger] advances[i] >= 0
    &&& forall|i: int, j: int|
        0 <= i <= j <= text.len() && #[trigger] no_space_in(text, i, j) ==> advance_sum(
            advances,
            i,
            j,
        ) <= max_width
}

/// `line` without the one space it may end with.
pub open spec fn without_final_space(line: Seq<char>) -> Seq<char> {
    if line.len() > 0 && line.last() == ' ' {
        line.drop_last()
    } else {
        line
    }
}

/// Each line without the one space it may end with.
pub open spec fn trimmed_lines(lines: Seq<Seq<char>>) -> Seq<Seq<char>> {
    lines.map_values(|l: Seq<char>| without_final_space(l))
}

/// The text before the line being filled, given the finished lines: the
/// lines, each without a final space, joined by single spaces, and the space
/// after the last of them.
pub open spec fn text_before(lines: Seq<Seq<char>>) -> Seq<char> {
    if lines.len() == 0 {
        Seq::empty()
    } else {
        join(trimmed_lines(lines), seq![' ']) + seq![' ']
    }
}

proof fn lemma_trimmed_push(lines: Seq<Seq<char>>, x: Seq<char>)
    ensures
        trimmed_lines(lines.push(x)) == trimmed_lines(lines).push(without_final_space(x)),
        trimmed_lines(lines.push(x)).len() == lines.len() + 1,
{
    assert(trimmed_lines(lines.push(x)) =~= trimmed_lines(lines).push(without_final_space(x)));
}

proof fn lemma_join_push(parts: Seq<Seq<char>>, x: Seq<char>, sep: Seq<char>)
    ensures
        join(parts.push(x), sep) == if parts.len() == 0 {
            x
        } else {
            join(parts, sep) + sep + x
        },
{
    assert(parts.push(x).drop_last() =~= parts);
}

proof fn lemma_advance_sum_split(advances: Seq<i64>, i: int, j: int, k: int)
    requires
        i <= j <= k,
    ensures
        advance_sum(advances, i, k) == advance_sum(advances, i, j) + advance_sum(advances, j, k),
    decreases k - j,
{
    if k > j {
        lemma_advance_sum_split(advances, i, j, k - 1);
    }
}

proof fn lemma_advance_sum_nonneg(advances: Seq<i64>, i: int, j: int)
    requires
        0 <= i,
        j <= advances.len(),
        forall|k: int| 0 <= k < advances.len() ==> #[trigger] advances[k] >= 0,
    ensures
        advance_sum(advances, i, j) >= 0,
    decreases j - i,
{
    if j > i {
        lemma_advance_sum_nonneg(advances, i, j - 1);
    }
}

/// The fold on a text of spaced words that fit: the line being filled is the
/// text after the finished lines and a space, and the word bookkeeping holds
/// the widths of the stretches it names.
#[verifier::spinoff_prover]
#[verifier::rlimit(40)]
proof fn lemma_spaced_words_prefix(
    text: Seq<char>,
    advances: Seq<i64>,
    kerns: Seq<i64>,
    max_width: int,
    n: nat,
)
    requires
        spaced_words_fit(text, advances, kerns, max_width),
        n <= text.len(),
    ensures
        ({
            let st = wrap_prefix(text, advances, kerns, max_width, n);
            let s = n - st.current.len();
            &&& st.current.len() <= n
            &&& st.current == text.subrange(s, n as int)
            &&& text_before(st.lines) == text.take(s)
            &&& st.width == advance_sum(advances, s, n as int)
            &&& st.current.len() > 0 ==> st.prev_width == advance_sum(advances, s, n - 1)
                && st.current[0] != ' '
            &&& st.word_len <= st.current.len()
            &&& no_space_in(text, n - st.word_len, n as int)
            &&& st.word_len < st.current.len() ==> text[n - st.word_len - 1] == ' '
            &&& st.word_width == advance_sum(advances, n - st.word_len, n as int)
            &&& 0 < st.word_len < st.current.len() ==> st.cut_len + st.word_len + 1
                == st.current.len() && st.cut_width == advance_sum(advances, s, s + st.cut_len)
            &&& n > 0 && st.current.len() == 0 ==> text[n - 1] == ' '
        }),
    decreases n,
{
    if n == 0 {
        assert(text.take(0) =~= Seq::<char>::empty());
        assert(text.subrange(0, 0) =~= Seq::<char>::empty());
    } else {
        let k = (n - 1) as nat;
        let ki = k as int;
        lemma_spaced_words_prefix(text, advances, kerns, max_width, k);
        lemma_prefix_invariants(text, advances, kerns, max_width, k);
        let pre = wrap_prefix(text, advances, kerns, max_width, k);
        let st = wrap_prefix(text, advances, kerns, max_width, n);
        let c = text[ki];
        let sp = k - pre.current.len();
        let a = advances[ki] as int;
        assert(kerns[ki] == 0);
        assert(advances[ki] >= 0);
        let w = added_width(pre, a, kerns[ki] as int);
        assert(w == a);
        assert(st == wrap_step(pre, ki, c, a, kerns[ki] as int, max_width));
        assert(c == ' ' || is_word_char(c));
        assert(advance_sum(advances, sp, n as int) == advance_sum(advances, sp, ki) + a);
        if pre.current.len() == 0 || pre.width + w <= max_width {
            assert(st.current =~= text.subrange(sp, n as int));
            if pre.current.len() == 0 {
                if k > 0 {
                    assert(!double_space_at(text, ki - 1));
                }
            }
            if is_word_char(c) {
                assert(advance_sum(advances, k - pre.word_len, n as int) == advance_sum(
                    advances,
                    k - pre.word_len,
                    ki,
                ) + a);
                if pre.word_len == 0 && pre.current.len() > 0 {
                    assert(pre.current.last() == text[ki - 1]);
                }
            }
        } else if c == ' ' {
            assert(pre.current.last() == text[ki - 1]);
            assert(!double_space_at(text, ki - 1));
            assert(without_final_space(pre.current) == pre.current);
            lemma_trimmed_push(pre.lines, pre.current);
            lemma_join_push(trimmed_lines(pre.lines), pre.current, seq![' ']);
            assert(text_before(st.lines) =~= text.take(n as int));
            assert(st.current =~= text.subrange(n as int, n as int));
        } else if pre.word_len == 0 {
            assert(pre.current.last() == text[ki - 1]);
            assert(text[ki - 1] == ' ');
            assert(without_final_space(pre.current) =~= text.subrange(sp, ki - 1));
            lemma_trimmed_push(pre.lines, pre.current);
            lemma_join_push(trimmed_lines(pre.lines), text.subrange(sp, ki - 1), seq![' ']);
            assert(text_before(st.lines) =~= text.take(ki));
            assert(st.current =~= text.subrange(ki, n as int));
            assert(advance_sum(advances, ki, n as int) == advance_sum(advances, ki, ki) + a);
        } else {
            let ws = k - pre.word_len;
            assert forall|j: int| ws <= j < n implies text[j] != ' ' by {
                if j < ki {
                    assert(no_space_in(text, ws, ki as int));
                }
            }
            assert(no_space_in(text, ws, n as int));
            assert(advance_sum(advances, ws, n as int) <= max_width);
            assert(advance_sum(advances, ws, n as int) == advance_sum(advances, ws, ki) + a);
            if pre.word_len == pre.current.len() {
                assert(ws == sp);
                assert(false);
            }
            let cut = pre.cut_len as int;
            assert(pre.current[cut] == text[sp + cut]);
            assert(cut > 0);
            lemma_advance_sum_split(advances, sp, sp + cut, ki);
            lemma_advance_sum_nonneg(advances, sp + cut, ki);
            assert(word_moves(pre, w, max_width));
            let left = pre.current.take(cut);
            assert(left =~= text.subrange(sp, sp + cut));
            assert(text[sp + cut] == ' ');
            assert(!double_space_at(text, sp + cut - 1));
            assert(without_final_space(left) == left);
            lemma_trimmed_push(pre.lines, left);
            lemma_join_push(trimmed_lines(pre.lines), left, seq![' ']);
            assert(text_before(st.lines) =~= text.take(ws));
            assert(st.current =~= text.subrange(ws, n as int));
            assert(st.current[0] == text[ws]);
        }
    }
}

/// Latin text is broken only at spaces: when `text` is words of a
/// space-separated script with single spaces between them, set without
/// kerning and with no negative advance, and every word fits the line on its
/// own, then the lines, each without the space it may end with, joined by
/// single spaces give `text` back, so no word is split and each break falls
/// on exactly one space.
pub proof fn lemma_spaced_words_break_at_spaces(
    text: Seq<char>,
    advances: Seq<i64>,
    kerns: Seq<i64>,
    max_width: int,
)
    requires
        spaced_words_fit(text, advances, kerns, max_width),
    ensures
        join(trimmed_lines(wrapped_lines(text, advances, kerns, max_width)), seq![' ']) == text,
{
    let n = text.len();
    lemma_spaced_words_prefix(text, advances, kerns, max_width, n);
    let st = wrap_prefix(text, advances, kerns, max_width, n);
    if n == 0 {
        assert(text =~= Seq::<char>::empty());
    } else {
        assert(st.current.len() > 0);
        assert(st.current.last() == text[n - 1]);
        assert(without_final_space(st.current) == st.current);
        lemma_trimmed_push(st.lines, st.current);
        lemma_join_push(trimmed_lines(st.lines), st.current, seq![' ']);
        assert(text.take(n - st.current.len()) + text.subrange(n - st.current.len(), n as int)
            =~= text);
    }
}


proof fn lemma_fitting_prefix(
    text: Seq<char>,
    advances: Seq<i64>,
    kerns: Seq<i64>,
    max_width: int,
    n: nat,
)
    requires
        n <= text.len(),
        forall|j: int| 1 <= j <= text.len() ==> #[trigger] line_width(advances, kerns, 0, j) <= max_width,
    ensures
        ({
            let st = wrap_prefix(text, advances, kerns, max_width, n);
            &&& st.lines.len() == 0
            &&& st.current == text.take(n as int)
            &&& n > 0 ==> st.width == line_width(advances, kerns, 0, n as int)
        }),
    decreases n,
{
    if n == 0 {
        assert(text.take(0) =~= Seq::<char>::empty());
    } else {
        let k = (n - 1) as nat;
        let ki = k as int;
        lemma_fitting_prefix(text, advances, kerns, max_width, k);
        let pre = wrap_prefix(text, advances, kerns, max_width, k);
        let st = wrap_prefix(text, advances, kerns, max_width, n);
        let a = advances[ki] as int;
        let kn = kerns[ki] as int;
        assert(st == wrap_step(pre, ki, text[ki], a, kn, max_width));
        assert(line_width(advances, kerns, 0, n as int) <= max_width);
        if k > 0 {
            assert(line_width(advances, kerns, 0, n as int) == line_width(advances, kerns, 0, ki)
                + a + kn);
        }
        assert(st.current =~= text.take(n as int));
    }
}

/// Lines are filled greedily, so no line is closed early: when every leading
/// stretch of the text fits `max_width` as it is set, the wrap is the whole
/// text on one line.
pub proof fn lemma_fitting_text_is_one_line(
    text: Seq<char>,
    advances: Seq<i64>,
    kerns: Seq<i64>,
    max_width: int,
)
    requires
        forall|j: int| 1 <= j <= text.len() ==> #[trigger] line_width(advances, kerns, 0, j) <= max_width,
    ensures
        wrapped_lines(text, advances, kerns, max_width) == seq![text],
{
    lemma_fitting_prefix(text, advances, kerns, max_width, text.len());
    let st = wrap_prefix(text, advances, kerns, max_width, text.len());
    assert(text.take(text.len() as int) =~= text);
    if text.len() == 0 {
        assert(st.current =~= Seq::<char>::empty());
    } else {
        assert(st.lines.push(st.current) =~= seq![text]);
    }
}

proof fn lemma_line_width_grows(advances: Seq<i64>, kerns: Seq<i64>, j: int, m: int)
    requires
        1 <= j <= m <= advances.len(),
        m <= kerns.len(),
        forall|i: int| 0 <= i < advances.len() ==> #[trigger] advances[i] >= 0,
        forall|i: int| 0 <= i < kerns.len() ==> #[trigger] kerns[i] >= 0,
    ensures
        line_width(advances, kerns, 0, j) <= line_width(advances, kerns, 0, m),
    decreases m - j,
{
    if j < m {
        lemma_line_width_grows(advances, kerns, j, m - 1);
        assert(advances[m - 1] >= 0 && kerns[m - 1] >= 0);
    }
}

/// A text whose set width fits `max_width`, with no negative advance or
/// kerning, stays on one line.
pub proof fn lemma_narrow_text_is_one_line(
    text: Seq<char>,
    advances: Seq<i64>,
    kerns: Seq<i64>,
    max_width: int,
)
    requires
        advances.len() == text.len(),
        kerns.len() == text.len(),
        forall|i: int| 0 <= i < advances.len() ==> #[trigger] advances[i] >= 0,
        forall|i: int| 0 <= i < kerns.len() ==> #[trigger] kerns[i] >= 0,
        line_width(advances, kerns, 0, text.len() as int) <= max_width,
    ensures
        wrapped_lines(text, advances, kerns, max_width) == seq![text],
{
    assert forall|j: int| 1 <= j <= text.len() implies #[trigger] line_width(advances, kerns, 0, j)
        <= max_width by {
        lemma_line_width_grows(advances, kerns, j, text.len() as int);
    }
    lemma_fitting_text_is_one_line(text, advances, kerns, max_width);
}

/// The text holds only characters that may be broken between (no space and no
/// word character), and is set without kerning.
pub open spec fn unkerned_cjk(text: Seq<char>, advances: Seq<i64>, kerns: Seq<i64>) -> bool {
    &&& advances.len() == text.len()
    &&& kerns.len() == text.len()
    &&& forall|i: int| 0 <= i < text.len() ==> !is_word_char(#[trigger] text[i]) && text[i] != ' '
    &&& forall|i: int| 0 <= i < kerns.len() ==> #[trigger] kerns[i] == 0
}

proof fn lemma_cjk_prefix(
    text: Seq<char>,
    advances: Seq<i64>,
    kerns: Seq<i64>,
    max_width: int,
    n: nat,
)
    requires
        unkerned_cjk(text, advances, kerns),
        n <= text.len(),
    ensures
        ({
            let st = wrap_prefix(text, advances, kerns, max_width, n);
            let s = n - st.current.len();
            &&& n > 0 ==> st.current.len() > 0
            &&& st.word_len == 0
            &&& forall|i: int|
                0 <= i < st.lines.len() ==> line_width(
                    advances,
                    kerns,
                    st.starts[i],
                    st.starts[i] + #[trigger] st.lines[i].len() + 1,
                ) > max_width
            &&& forall|i: int|
                0 <= i < st.lines.len() - 1 ==> st.starts[i + 1] == st.starts[i]
                    + #[trigger] st.lines[i].len()
            &&& st.lines.len() > 0 ==> st.starts[0] == 0 && st.starts.last() + st.lines.last().len()
                == s
            &&& st.lines.len() == 0 ==> s == 0
        }),
    decreases n,
{
    if n > 0 {
        let k = (n - 1) as nat;
        let ki = k as int;
        lemma_cjk_prefix(text, advances, kerns, max_width, k);
        lemma_prefix_positions(text, advances, kerns, max_width, k);
        lemma_prefix_invariants(text, advances, kerns, max_width, k);
        lemma_prefix_positions(text, advances, kerns, max_width, n);
        let pre = wrap_prefix(text, advances, kerns, max_width, k);
        let st = wrap_prefix(text, advances, kerns, max_width, n);
        let c = text[ki];
        let sp = k - pre.current.len();
        let a = advances[ki] as int;
        let kn = kerns[ki] as int;
        assert(kn == 0);
        assert(!is_word_char(c) && c != ' ');
        let w = added_width(pre, a, kn);
        assert(st == wrap_step(pre, ki, c, a, kn, max_width));
        if pre.current.len() > 0 && pre.width + w > max_width {
            assert(kerns[sp] == 0);
            assert(pre.width == line_width(advances, kerns, sp, ki));
            assert(line_width(advances, kerns, sp, n as int) == line_width(advances, kerns, sp, ki)
                + a + kn);
            assert(st.lines[st.lines.len() - 1] == pre.current);
            assert(st.starts[st.starts.len() - 1] == sp);
            assert forall|i: int| 0 <= i < st.lines.len() implies line_width(
                advances,
                kerns,
                st.starts[i],
                st.starts[i] + #[trigger] st.lines[i].len() + 1,
            ) > max_width by {
                if i < pre.lines.len() {
                    assert(st.lines[i] == pre.lines[i]);
                    assert(st.starts[i] == pre.starts[i]);
                }
            }
            assert forall|i: int| 0 <= i < st.lines.len() - 1 implies st.starts[i + 1]
                == st.starts[i] + #[trigger] st.lines[i].len() by {
                assert(st.lines[i] == pre.lines[i]);
                assert(st.starts[i] == pre.starts[i]);
                if i + 1 < pre.lines.len() {
                    assert(st.starts[i + 1] == pre.starts[i + 1]);
                }
            }
            if pre.lines.len() > 0 {
                assert(st.starts[0] == pre.starts[0]);
            }
        }
    }
}

/// Text of characters that may be broken between, set without kerning, is
/// wrapped greedily: the lines are the text cut into consecutive stretches
/// from its start to its end, and every line but the last would pass
/// `max_width` if it also held the first character of the next line.
pub proof fn lemma_cjk_lines_are_greedy(
    text: Seq<char>,
    advances: Seq<i64>,
    kerns: Seq<i64>,
    max_width: int,
)
    requires
        unkerned_cjk(text, advances, kerns),
        text.len() > 0,
    ensures
        ({
            let lines = wrapped_lines(text, advances, kerns, max_width);
            let starts = wrapped_starts(text, advances, kerns, max_width);
            &&& lines.len() > 0
            &&& starts.len() == lines.len()
            &&& starts[0] == 0
            &&& starts.last() + lines.last().len() == text.len()
            &&& forall|i: int|
                0 <= i < lines.len() - 1 ==> starts[i + 1] == starts[i] + #[trigger] lines[i].len()
                    && line_width(advances, kerns, starts[i], starts[i] + lines[i].len() + 1)
                    > max_width
        }),
{
    let n = text.len();
    lemma_cjk_prefix(text, advances, kerns, max_width, n);
    lemma_prefix_positions(text, advances, kerns, max_width, n);
    let st = wrap_prefix(text, advances, kerns, max_width, n);
    let lines = wrapped_lines(text, advances, kerns, max_width);
    let starts = wrapped_starts(text, advances, kerns, max_width);
    assert(lines == st.lines.push(st.current));
    assert(starts == st.starts.push(n - st.current.len()));
    assert forall|i: int| 0 <= i < lines.len() - 1 implies starts[i + 1] == starts[i]
        + #[trigger] lines[i].len() && line_width(
        advances,
        kerns,
        starts[i],
        starts[i] + lines[i].len() + 1,
    ) > max_width by {
        assert(lines[i] == st.lines[i]);
        assert(starts[i] == st.starts[i]);
        if i + 1 < st.lines.len() {
            assert(starts[i + 1] == st.starts[i + 1]);
        }
    }
    if st.lines.len() > 0 {
        assert(starts[0] == st.starts[0]);
    }
}

} // verus!
