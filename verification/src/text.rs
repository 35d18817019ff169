use vstd::prelude::*;
use vstd::utf8::{encode_utf8, encode_scalar, char_is_scalar};

verus! {

/// The number of bytes of the UTF-8 encoding of `c`.
pub open spec fn char_width(c: char) -> nat {
    let v = c as u32;
    if v <= 0x7F {
        1
    } else if v <= 0x7FF {
        2
    } else if v <= 0xFFFF {
        3
    } else {
        4
    }
}

/// The number of bytes of the UTF-8 encoding of `s` (what `str::len` counts).
pub open spec fn byte_len(s: Seq<char>) -> nat
    decreases s.len(),
{
    if s.len() == 0 {
        0
    } else {
        byte_len(s.drop_last()) + char_width(s.last())
    }
}

/// Byte lengths add up over concatenation.
pub proof fn lemma_byte_len_concat(a: Seq<char>, b: Seq<char>)
    ensures
        byte_len(a + b) == byte_len(a) + byte_len(b),
    decreases b.len(),
{
    if b.len() > 0 {
        assert((a + b).drop_last() =~= a + b.drop_last());
        assert((a + b).last() == b.last());
        lemma_byte_len_concat(a, b.drop_last());
    } else {
        assert(a + b =~= a);
    }
}

/// Only the empty text has no bytes.
pub proof fn lemma_byte_len_zero(s: Seq<char>)
    ensures
        byte_len(s) == 0 <==> s.len() == 0,
    decreases s.len(),
{
    if s.len() > 0 {
        lemma_byte_len_zero(s.drop_last());
    }
}

/// `v` capped at `cap`.
pub open spec fn capped(v: int, cap: int) -> int {
    if v <= cap {
        v
    } else {
        cap
    }
}

/// The number of bytes of the UTF-8 encoding of `c`.
fn utf8_width(c: char) -> (r: u128)
    ensures
        r == char_width(c),
{
    let v = c as u32;
    if v <= 0x7F {
        1
    } else if v <= 0x7FF {
        2
    } else if v <= 0xFFFF {
        3
    } else {
        4
    }
}

/// The byte length of `s`, capped at `cap`.
fn byte_len_capped(s: &str, cap: u128) -> (r: u128)
    requires
        cap < u128::MAX / 2,
    ensures
        r == capped(byte_len(s@) as int, cap as int),
{
    let ghost text = s@;
    let mut n: u128 = 0;
    proof {
        assert(text.subrange(0, 0) =~= Seq::<char>::empty());
    }
    for c in it: s.chars()
        invariant
            text == s@,
            it.seq() == text,
            cap < u128::MAX / 2,
            n == capped(byte_len(text.subrange(0, it.index() as int)) as int, cap as int),
    {
        let ghost i = it.index();
        proof {
            assert(text.subrange(0, i + 1).drop_last() =~= text.subrange(0, i as int));
        }
        let w = utf8_width(c);
        n = if n + w <= cap { n + w } else { cap };
    }
    proof {
        assert(text.subrange(0, text.len() as int) =~= text);
    }
    n
}

/// The characters with the Unicode `White_Space` property.
pub open spec fn white_space(c: char) -> bool {
    let v = c as u32;
    ||| 0x09 <= v <= 0x0D
    ||| v == 0x20
    ||| v == 0x85
    ||| v == 0xA0
    ||| v == 0x1680
    ||| 0x2000 <= v <= 0x200A
    ||| v == 0x2028
    ||| v == 0x2029
    ||| v == 0x202F
    ||| v == 0x205F
    ||| v == 0x3000
}

/// Whether `c` has the Unicode `White_Space` property (what
/// `char::is_whitespace` answers).
fn is_white_space(c: char) -> (r: bool)
    ensures
        r == white_space(c),
{
    let v = c as u32;
    (0x09 <= v && v <= 0x0D) || v == 0x20 || v == 0x85 || v == 0xA0 || v == 0x1680 || (0x2000 <= v
        && v <= 0x200A) || v == 0x2028 || v == 0x2029 || v == 0x202F || v == 0x205F || v == 0x3000
}

/// `String::push`: appends `c` to `s`.
#[verifier::external_body]
fn push_char(s: &mut String, c: char)
    ensures
        final(s)@ == old(s)@.push(c),
{
    s.push(c)
}

/// The state of wrapping a text: the finished lines, the line being built,
/// the word being read and the whitespace read since the previous word.
pub struct Wrap {
    pub lines: Seq<Seq<char>>,
    pub line: Seq<char>,
    pub cur: Seq<char>,
    pub sep: Seq<char>,
}

/// The wrapping state after reading character `c`.
///
/// A non-whitespace character extends the current word. A whitespace
/// character ends the word: the word joins the line (with the whitespace
/// before it) when the line, the whitespace and the word fit in `width`
/// bytes; otherwise a non-empty line is finished and the word starts a new
/// one (an empty line keeps the pending whitespace). `c` then starts the
/// pending whitespace.
pub open spec fn wrap_step(w: Wrap, c: char, width: int) -> Wrap {
    if white_space(c) {
        let (lines, line, sep) = if byte_len(w.line) + byte_len(w.sep) + byte_len(w.cur) <= width {
            (w.lines, w.line + w.sep, Seq::<char>::empty())
        } else if byte_len(w.line) > 0 {
            (w.lines.push(w.line), Seq::<char>::empty(), Seq::<char>::empty())
        } else {
            (w.lines, w.line, w.sep)
        };
        Wrap { lines: lines, line: line + w.cur, cur: Seq::<char>::empty(), sep: sep.push(c) }
    } else {
        Wrap { cur: w.cur.push(c), ..w }
    }
}

/// The wrapping state after reading all of `s`.
pub open spec fn wrap_prefix(s: Seq<char>, width: int) -> Wrap
    decreases s.len(),
{
    if s.len() == 0 {
        Wrap {
            lines: Seq::<Seq<char>>::empty(),
            line: Seq::<char>::empty(),
            cur: Seq::<char>::empty(),
            sep: Seq::<char>::empty(),
        }
    } else {
        wrap_step(wrap_prefix(s.drop_last(), width), s.last(), width)
    }
}

/// The lines once the text has ended: the last word is placed as a
/// whitespace character would place it, and a non-empty last line is kept.
pub open spec fn wrap_finish(w: Wrap, width: int) -> Seq<Seq<char>> {
    let (lines, line) = if byte_len(w.cur) > 0 {
        if byte_len(w.line) + byte_len(w.sep) + byte_len(w.cur) <= width {
            (w.lines, w.line + w.sep + w.cur)
        } else if byte_len(w.line) > 0 {
            (w.lines.push(w.line), w.cur)
        } else {
            (w.lines, w.line + w.cur)
        }
    } else {
        (w.lines, w.line)
    };
    if byte_len(line) > 0 {
        lines.push(line)
    } else {
        lines
    }
}

/// `s` cut into lines of at most `width` bytes at whitespace (a word longer
/// than `width` keeps a line of its own); a text shorter than `width` bytes
/// is a single line.
pub open spec fn wrapped(s: Seq<char>, width: int) -> Seq<Seq<char>> {
    if byte_len(s) < width {
        seq![s]
    } else {
        wrap_finish(wrap_prefix(s, width), width)
    }
}

/// The views of a list of strings.
pub open spec fn strings_view(v: Seq<String>) -> Seq<Seq<char>> {
    v.map_values(|s: String| s@)
}

/// Cuts `s` into lines for a panel `width` bytes wide.
pub fn split(s: &str, width: usize) -> (r: Vec<String>)
    ensures
        strings_view(r@) == wrapped(s@, width as int),
{
    let mut r: Vec<String> = Vec::new();
    let cap: u128 = width as u128 + 1;
    if byte_len_capped(s, cap) < width as u128 {
        r.push(s.to_owned());
        proof {
            assert(strings_view(r@) =~= seq![s@]);
        }
        return r;
    }
    let ghost text = s@;
    let ghost wd = width as int;
    let mut line = String::new();
    let mut cur = String::new();
    let mut sep = String::new();
    let mut line_len: u128 = 0;
    let mut cur_len: u128 = 0;
    let mut sep_len: u128 = 0;
    proof {
        assert(strings_view(r@) =~= Seq::<Seq<char>>::empty());
        assert(text.subrange(0, 0) =~= Seq::<char>::empty());
    }
    for c in it: s.chars()
        invariant
            text == s@,
            it.seq() == text,
            wd == width,
            cap == width + 1,
            line_len == capped(byte_len(line@) as int, cap as int),
            cur_len == capped(byte_len(cur@) as int, cap as int),
            sep_len == capped(byte_len(sep@) as int, cap as int),
            ({
                let w = wrap_prefix(text.subrange(0, it.index() as int), wd);
                &&& strings_view(r@) == w.lines
                &&& line@ == w.line
                &&& cur@ == w.cur
                &&& sep@ == w.sep
            }),
    {
        let ghost i = it.index();
        proof {
            assert(text.subrange(0, i + 1).drop_last() =~= text.subrange(0, i as int));
            lemma_byte_len_zero(line@);
        }
        if is_white_space(c) {
            if line_len + sep_len + cur_len <= width as u128 {
                proof {
                    lemma_byte_len_concat(line@, sep@);
                }
                line.append(sep.as_str());
                line_len = line_len + sep_len;
                sep = String::new();
                sep_len = 0;
            } else if line_len > 0 {
                let ghost before = r@;
                r.push(line);
                proof {
                    assert(strings_view(r@) =~= strings_view(before).push(line@));
                }
                line = String::new();
                line_len = 0;
                sep = String::new();
                sep_len = 0;
            }
            proof {
                lemma_byte_len_concat(line@, cur@);
            }
            line.append(cur.as_str());
            line_len = if line_len + cur_len <= cap { line_len + cur_len } else { cap };
            cur = String::new();
            cur_len = 0;
            let ghost sep_before = sep@;
            push_char(&mut sep, c);
            proof {
                assert(sep@.drop_last() =~= sep_before);
                assert(sep@.last() == c);
                assert(byte_len(sep@) == byte_len(sep_before) + char_width(c));
            }
            let w = utf8_width(c);
            sep_len = if sep_len + w <= cap { sep_len + w } else { cap };
        } else {
            let ghost cur_before = cur@;
            push_char(&mut cur, c);
            proof {
                assert(cur@.drop_last() =~= cur_before);
                assert(cur@.last() == c);
                assert(byte_len(cur@) == byte_len(cur_before) + char_width(c));
            }
            let w = utf8_width(c);
            cur_len = if cur_len + w <= cap { cur_len + w } else { cap };
        }
    }
    proof {
        assert(text.subrange(0, text.len() as int) =~= text);
        lemma_byte_len_zero(line@);
    }
    if cur_len > 0 {
        if line_len + sep_len + cur_len <= width as u128 {
            proof {
                lemma_byte_len_concat(line@, sep@);
            }
            line.append(sep.as_str());
            line_len = line_len + sep_len;
        } else if line_len > 0 {
            let ghost before = r@;
            r.push(line);
            proof {
                assert(strings_view(r@) =~= strings_view(before).push(line@));
            }
            line = String::new();
            line_len = 0;
        }
        proof {
            lemma_byte_len_concat(line@, cur@);
        }
        line.append(cur.as_str());
        line_len = if line_len + cur_len <= cap { line_len + cur_len } else { cap };
    }
    if line_len > 0 {
        let ghost before = r@;
        r.push(line);
        proof {
            assert(strings_view(r@) =~= strings_view(before).push(line@));
        }
    }
    r
}


/// `byte_len` counts what `str::len` counts: the bytes of the UTF-8 encoding.
pub proof fn lemma_byte_len_is_utf8_len(s: Seq<char>)
    ensures
        byte_len(s) == encode_utf8(s).len(),
    decreases s.len(),
{
    if s.len() > 0 {
        let c = s[0];
        char_is_scalar(c);
        assert(encode_scalar(c as u32).len() == char_width(c));
        lemma_byte_len_is_utf8_len(s.drop_first());
        assert(s =~= seq![c] + s.drop_first());
        lemma_byte_len_concat(seq![c], s.drop_first());
        assert(seq![c].drop_last() =~= Seq::<char>::empty());
        assert(byte_len(Seq::<char>::empty()) == 0);
        assert(byte_len(seq![c]) == char_width(c));
        assert(byte_len(s) == char_width(c) + byte_len(s.drop_first()));
        assert(encode_utf8(s) == encode_scalar(s[0] as u32) + encode_utf8(s.drop_first()));
    }
}


/// No character of `l` is whitespace: `l` is a single word.
pub open spec fn one_word(l: Seq<char>) -> bool {
    forall|i: int| 0 <= i < l.len() ==> !white_space(#[trigger] l[i])
}

/// A line is acceptable: it fits in `width` bytes or is a single word.
pub open spec fn line_ok(l: Seq<char>, width: int) -> bool {
    byte_len(l) <= width || one_word(l)
}

/// What wrapping keeps true after every character.
pub open spec fn wrap_inv(w: Wrap, width: int) -> bool {
    &&& forall|i: int|
        0 <= i < w.lines.len() ==> byte_len(#[trigger] w.lines[i]) > 0 && line_ok(w.lines[i], width)
    &&& line_ok(w.line, width)
    &&& one_word(w.cur)
}

/// Wrapping keeps its invariant.
pub proof fn lemma_wrap_prefix_inv(s: Seq<char>, width: int)
    requires
        width >= 0,
    ensures
        wrap_inv(wrap_prefix(s, width), width),
    decreases s.len(),
{
    if s.len() > 0 {
        lemma_wrap_prefix_inv(s.drop_last(), width);
        let w = wrap_prefix(s.drop_last(), width);
        let c = s.last();
        let w2 = wrap_step(w, c, width);
        if white_space(c) {
            lemma_byte_len_zero(w.line);
            lemma_byte_len_concat(w.line, w.sep);
            lemma_byte_len_concat(w.line + w.sep, w.cur);
            if byte_len(w.line) + byte_len(w.sep) + byte_len(w.cur) <= width {
                assert(line_ok(w2.line, width));
            } else if byte_len(w.line) > 0 {
                assert(Seq::<char>::empty() + w.cur =~= w.cur);
                assert(line_ok(w2.line, width));
                assert forall|i: int|
                    0 <= i < w2.lines.len() implies byte_len(#[trigger] w2.lines[i]) > 0 && line_ok(
                    w2.lines[i],
                    width,
                ) by {
                    if i < w.lines.len() {
                        assert(w2.lines[i] == w.lines[i]);
                    }
                }
            } else {
                assert(w.line.len() == 0);
                assert(w.line + w.cur =~= w.cur);
                assert(line_ok(w2.line, width));
            }
            assert(one_word(w2.cur));
        } else {
            assert(one_word(w2.cur)) by {
                assert forall|i: int| 0 <= i < w2.cur.len() implies !white_space(#[trigger] w2.cur[i]) by {
                    if i < w.cur.len() {
                        assert(w2.cur[i] == w.cur[i]);
                    }
                }
            }
        }
    }
}

/// A text shorter than the width stays one line; otherwise every line is
/// non-empty. Either way every line fits in the width or is a single word.
pub proof fn lemma_split_lines(s: Seq<char>, width: int)
    requires
        width >= 0,
    ensures
        byte_len(s) < width ==> wrapped(s, width) == seq![s],
        forall|i: int|
            0 <= i < wrapped(s, width).len() ==> line_ok(#[trigger] wrapped(s, width)[i], width),
        byte_len(s) >= width ==> forall|i: int|
            0 <= i < wrapped(s, width).len() ==> byte_len(#[trigger] wrapped(s, width)[i]) > 0,
{
    if byte_len(s) >= width {
        lemma_wrap_prefix_inv(s, width);
        let w = wrap_prefix(s, width);
        lemma_byte_len_zero(w.line);
        lemma_byte_len_concat(w.line, w.sep);
        lemma_byte_len_concat(w.line + w.sep, w.cur);
        let (lines, line) = if byte_len(w.cur) > 0 {
            if byte_len(w.line) + byte_len(w.sep) + byte_len(w.cur) <= width {
                (w.lines, w.line + w.sep + w.cur)
            } else if byte_len(w.line) > 0 {
                (w.lines.push(w.line), w.cur)
            } else {
                assert(w.line + w.cur =~= w.cur);
                (w.lines, w.line + w.cur)
            }
        } else {
            (w.lines, w.line)
        };
        assert(line_ok(line, width));
        assert forall|i: int|
            0 <= i < lines.len() implies byte_len(#[trigger] lines[i]) > 0 && line_ok(lines[i], width) by {
            if i < w.lines.len() {
                assert(lines[i] == w.lines[i]);
            }
        }
        let r = wrapped(s, width);
        assert forall|i: int| 0 <= i < r.len() implies line_ok(#[trigger] r[i], width) && byte_len(
            r[i],
        ) > 0 by {
            if i < lines.len() {
                assert(r[i] == lines[i]);
            }
        }
    }
}

/// The lines joined by single spaces.
pub open spec fn join_lines(ls: Seq<Seq<char>>) -> Seq<char>
    decreases ls.len(),
{
    if ls.len() == 0 {
        Seq::empty()
    } else if ls.len() == 1 {
        ls[0]
    } else {
        join_lines(ls.drop_last()) + seq![' '] + ls.last()
    }
}

/// `s` is words separated by single spaces: it starts and ends with a
/// non-whitespace character, its only whitespace is the space, and no two
/// spaces follow each other.
pub open spec fn single_spaced(s: Seq<char>) -> bool {
    &&& s.len() > 0
    &&& !white_space(s[0])
    &&& !white_space(s.last())
    &&& forall|i: int| 0 <= i < s.len() && white_space(#[trigger] s[i]) ==> s[i] == ' '
    &&& forall|i: int|
        0 <= i < s.len() - 1 && white_space(#[trigger] s[i]) ==> !white_space(s[i + 1])
}

/// What the wrapping state of a single-spaced text holds: before the first
/// space only the first word; after it, the lines and the current line
/// joined by single spaces, one pending space and the current word.
pub open spec fn spaced_state(w: Wrap, t: Seq<char>) -> bool {
    ||| (w.lines.len() == 0 && w.line.len() == 0 && w.sep.len() == 0 && w.cur == t)
    ||| (w.line.len() > 0 && w.sep == seq![' '] && join_lines(w.lines.push(w.line)) + w.sep + w.cur == t)
}

/// Adding a line to the joined lines adds a space and the line.
proof fn lemma_join_push(ls: Seq<Seq<char>>, x: Seq<char>)
    ensures
        ls.len() == 0 ==> join_lines(ls.push(x)) == x,
        ls.len() > 0 ==> join_lines(ls.push(x)) == join_lines(ls) + seq![' '] + x,
{
    assert(ls.push(x).drop_last() =~= ls);
    if ls.len() == 0 {
        assert(ls.push(x)[0] == x);
    }
}

/// Wrapping a prefix of a single-spaced text keeps `spaced_state`.
proof fn lemma_wrap_spaced(s: Seq<char>, width: int, n: int)
    requires
        single_spaced(s),
        0 <= n <= s.len(),
    ensures
        spaced_state(wrap_prefix(s.subrange(0, n), width), s.subrange(0, n)),
    decreases n,
{
    let t = s.subrange(0, n);
    if n == 0 {
        assert(t =~= Seq::<char>::empty());
    } else {
        lemma_wrap_spaced(s, width, n - 1);
        let t0 = s.subrange(0, n - 1);
        assert(t.drop_last() =~= t0);
        assert(t.last() == s[n - 1]);
        let w = wrap_prefix(t0, width);
        let c = s[n - 1];
        let w2 = wrap_step(w, c, width);
        assert(wrap_prefix(t, width) == w2);
        assert(t0.push(c) =~= t);
        if white_space(c) {
            assert(c == ' ');
            assert(n - 1 > 0);
            assert(!white_space(s[n - 2]));
            assert(t0.last() == s[n - 2]);
            lemma_byte_len_zero(w.line);
            if w.lines.len() == 0 && w.line.len() == 0 && w.sep.len() == 0 && w.cur == t0 {
                assert(w.line + w.sep + w.cur =~= w.cur);
                assert(w.line + w.cur =~= w.cur);
                assert(w2.line == w.cur);
                assert(w2.sep =~= seq![' ']);
                assert(w2.lines.len() == 0);
                lemma_join_push(w2.lines, w2.line);
                assert(join_lines(w2.lines.push(w2.line)) + w2.sep + w2.cur =~= t);
            } else {
                let j = join_lines(w.lines.push(w.line));
                assert(w.cur.len() > 0) by {
                    if w.cur.len() == 0 {
                        assert(j + w.sep + w.cur =~= j + w.sep);
                        assert(t0.last() == ' ');
                    }
                }
                assert(w2.sep =~= seq![' ']);
                if byte_len(w.line) + byte_len(w.sep) + byte_len(w.cur) <= width {
                    assert(w2.lines == w.lines);
                    assert(w2.line == w.line + w.sep + w.cur);
                    lemma_join_push(w.lines, w.line);
                    lemma_join_push(w.lines, w2.line);
                    if w.lines.len() == 0 {
                        assert(join_lines(w2.lines.push(w2.line)) + w2.sep + w2.cur =~= t);
                    } else {
                        assert(join_lines(w2.lines.push(w2.line)) + w2.sep + w2.cur =~= t);
                    }
                } else {
                    assert(w2.lines == w.lines.push(w.line));
                    assert(w2.line =~= w.cur);
                    lemma_join_push(w.lines.push(w.line), w.cur);
                    assert(join_lines(w2.lines.push(w2.line)) + w2.sep + w2.cur =~= t);
                }
            }
        } else {
            assert(w2.cur == w.cur.push(c));
            if w.lines.len() == 0 && w.line.len() == 0 && w.sep.len() == 0 && w.cur == t0 {
                assert(w2.cur =~= t);
            } else {
                assert(join_lines(w2.lines.push(w2.line)) + w2.sep + w2.cur =~= t);
            }
        }
    }
}

/// Wrapping a text of words separated by single spaces only turns some of
/// the spaces into line breaks: joining the lines with single spaces gives
/// the text back.
pub proof fn lemma_split_keeps_single_spaced_text(s: Seq<char>, width: int)
    requires
        single_spaced(s),
    ensures
        join_lines(wrapped(s, width)) == s,
{
    if byte_len(s) < width {
        assert(wrapped(s, width) == seq![s]);
        assert(join_lines(seq![s]) == s);
    } else {
        lemma_wrap_spaced(s, width, s.len() as int);
        assert(s.subrange(0, s.len() as int) =~= s);
        let w = wrap_prefix(s, width);
        lemma_byte_len_zero(w.cur);
        lemma_byte_len_zero(w.line);
        assert(w.cur.len() > 0) by {
            if w.cur.len() == 0 {
                if w.lines.len() == 0 && w.line.len() == 0 && w.sep.len() == 0 && w.cur == s {
                } else {
                    let j = join_lines(w.lines.push(w.line));
                    assert(j + w.sep + w.cur =~= j + w.sep);
                    assert(s.last() == ' ');
                }
            }
        }
        let (lines, line) = if byte_len(w.line) + byte_len(w.sep) + byte_len(w.cur) <= width {
            (w.lines, w.line + w.sep + w.cur)
        } else if byte_len(w.line) > 0 {
            (w.lines.push(w.line), w.cur)
        } else {
            (w.lines, w.line + w.cur)
        };
        lemma_byte_len_zero(line);
        assert(line.len() > 0);
        assert(wrapped(s, width) == lines.push(line));
        if w.lines.len() == 0 && w.line.len() == 0 && w.sep.len() == 0 && w.cur == s {
            assert(line =~= s);
            lemma_join_push(lines, line);
        } else {
            lemma_join_push(w.lines, w.line);
            lemma_join_push(w.lines, line);
            lemma_join_push(w.lines.push(w.line), w.cur);
            assert(join_lines(lines.push(line)) =~= s);
        }
    }
}

} // verus!
