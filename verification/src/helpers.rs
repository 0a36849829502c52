//! Text layout (line counts and word wrapping), the command history file
//! and its contents, and the plans for opening a post in a browser or
//! viewing its media.
use vstd::prelude::*;

use crate::fetch::is_success;
use crate::model::Post;
use crate::text::{
    chars_of, dec, lines, owned, push_decimal, push_str, split_lines, split_newlines, split_nl,
    split_words, starts_with, string_of, string_of_range, strs_of, seqs_of, trim, trim_chars, words,
    is_ws, lemma_ws_pos_bound, lemma_nl_pos_bound, nl_pos, ws_pos, lemma_nl_pos_append, no_nl,
    strip_cr, trim_start, trim_end,
};
use std::hash::{Hash, Hasher};
use vstd::seq_lib::lemma_flatten_concat;

verus! {

// ---------------------------------------------------------------------------
// Counting wrapped lines
// ---------------------------------------------------------------------------

/// The rows that one line takes at `width` cells: its character count,
/// truncated to 16 bits, divided by `width` and rounded up; an empty line
/// takes one row.
pub open spec fn line_rows(line: Seq<char>, width: u16) -> nat {
    let len = line.len() as u16;
    if len == 0 {
        1
    } else if len % width == 0 {
        (len / width) as nat
    } else {
        (len / width + 1) as nat
    }
}

/// The rows of a sequence of lines, added up with saturation at `u16::MAX`.
pub open spec fn rows_sum(ls: Seq<Seq<char>>, width: u16) -> nat
    decreases ls.len(),
{
    if ls.len() == 0 {
        0
    } else {
        let s = rows_sum(ls.drop_last(), width) + line_rows(ls.last(), width);
        if s > 0xffff {
            0xffff
        } else {
            s
        }
    }
}

/// The rows that `text` takes at `width` cells: the rows of its lines, and
/// at least one.
pub open spec fn wrapped_count(text: Seq<char>, width: u16) -> u16 {
    if width == 0 {
        1
    } else {
        let t = rows_sum(lines(text), width);
        if t == 0 {
            1
        } else {
            t as u16
        }
    }
}

/// The number of rows that `text` takes when its lines are wrapped at
/// `width` cells, counting characters as cells.
pub fn wrapped_lines(text: &str, width: u16) -> (r: u16)
    ensures
        r == wrapped_count(text@, width),
        r >= 1,
{
    if width == 0 {
        return 1;
    }
    let v = chars_of(text);
    let ls = split_lines(&v);
    let ghost sl = seqs_of(ls@);
    let mut lines: u16 = 0;
    let mut i: usize = 0;
    while i < ls.len()
        invariant
            width > 0,
            i <= ls@.len(),
            sl == seqs_of(ls@),
            lines as nat == rows_sum(sl.take(i as int), width),
        decreases ls.len() - i,
    {
        let len = ls[i].len() as u16;
        let add: u16 = if len == 0 {
            1
        } else if len % width == 0 {
            len / width
        } else {
            assert(width >= 2) by {
                if width == 1 {
                    assert(len % 1 == 0);
                }
            }
            assert(len / width < 0xffff) by (nonlinear_arith)
                requires
                    width >= 2,
            ;
            len / width + 1
        };
        assert(sl.take(i + 1).drop_last() =~= sl.take(i as int));
        assert(sl.take(i + 1).last() == ls@[i as int]@);
        lines = lines.saturating_add(add);
        i += 1;
    }
    assert(sl.take(ls@.len() as int) =~= sl);
    if lines == 0 {
        1
    } else {
        lines
    }
}

// ---------------------------------------------------------------------------
// Word wrapping
// ---------------------------------------------------------------------------

/// A word cut into pieces of `width` characters (the last one shorter).
pub open spec fn chunks(w: Seq<char>, width: nat) -> Seq<Seq<char>>
    decreases w.len(),
{
    if w.len() == 0 {
        seq![]
    } else if width == 0 || w.len() <= width {
        seq![w]
    } else {
        seq![w.take(width as int)] + chunks(w.skip(width as int), width)
    }
}

/// One step of the wrapping: the finished lines and the line being filled,
/// after `word` is placed.  A word joins the current line when it fits with
/// one space; otherwise the line is finished first.  A word longer than the
/// width is cut into finished lines of its own.
pub open spec fn place_word(out: Seq<Seq<char>>, line: Seq<char>, word: Seq<char>, width: nat) -> (
    Seq<Seq<char>>,
    Seq<char>,
) {
    if line.len() == 0 {
        if word.len() > width {
            (out + chunks(word, width), line)
        } else {
            (out, word)
        }
    } else if line.len() + 1 + word.len() <= width {
        (out, line + seq![' '] + word)
    } else if word.len() > width {
        (out.push(line) + chunks(word, width), seq![])
    } else {
        (out.push(line), word)
    }
}

/// The words placed one after the other.
pub open spec fn place_words(
    out: Seq<Seq<char>>,
    line: Seq<char>,
    ws: Seq<Seq<char>>,
    width: nat,
) -> (Seq<Seq<char>>, Seq<char>)
    decreases ws.len(),
{
    if ws.len() == 0 {
        (out, line)
    } else {
        let p = place_words(out, line, ws.drop_last(), width);
        place_word(p.0, p.1, ws.last(), width)
    }
}

/// The lines of one paragraph added to `out`; an empty paragraph gives one
/// empty line.
pub open spec fn wrap_para(out: Seq<Seq<char>>, para: Seq<char>, width: nat) -> Seq<Seq<char>> {
    let p = place_words(out, seq![], words(para), width);
    let o = if p.1.len() > 0 {
        p.0.push(p.1)
    } else {
        p.0
    };
    if para.len() == 0 {
        o.push(seq![])
    } else {
        o
    }
}

/// The lines of a sequence of paragraphs.
pub open spec fn wrap_paras(paras: Seq<Seq<char>>, width: nat) -> Seq<Seq<char>>
    decreases paras.len(),
{
    if paras.len() == 0 {
        seq![]
    } else {
        wrap_para(wrap_paras(paras.drop_last(), width), paras.last(), width)
    }
}

/// `text` wrapped at `width` characters: the paragraphs between newlines are
/// wrapped one after the other; a width of zero leaves the text whole; the
/// result has at least one line.
pub open spec fn wrapped(text: Seq<char>, width: nat) -> Seq<Seq<char>> {
    if width == 0 {
        seq![text]
    } else {
        let o = wrap_paras(split_nl(text), width);
        if o.len() == 0 {
            seq![seq![]]
        } else {
            o
        }
    }
}

/// Appends the pieces of `word` cut at `width` characters to `out`.
fn push_chunks(out: &mut Vec<String>, word: &Vec<char>, width: usize)
    requires
        width > 0,
    ensures
        strs_of(final(out)@) == strs_of(old(out)@) + chunks(word@, width as nat),
{
    let len = word.len();
    let mut start: usize = 0;
    assert(word@.skip(0) =~= word@);
    assert(strs_of(out@) + chunks(word@.skip(0), width as nat) =~= strs_of(old(out)@) + chunks(word@, width as nat));
    while start < len
        invariant
            width > 0,
            len == word@.len(),
            start <= len,
            strs_of(out@) + chunks(word@.skip(start as int), width as nat) == strs_of(old(out)@)
                + chunks(word@, width as nat),
        decreases len - start,
    {
        let end = if len - start > width {
            start + width
        } else {
            len
        };
        let ghost rest = word@.skip(start as int);
        let piece = string_of_range(word, start, end);
        let ghost before = out@;
        out.push(piece);
        proof {
            assert(strs_of(out@) =~= strs_of(before).push(piece@));
            if rest.len() <= width {
                assert(piece@ =~= rest);
                assert(word@.skip(end as int) =~= Seq::<char>::empty());
                assert(chunks(rest, width as nat) == seq![rest]);
                assert(strs_of(before) + seq![rest] =~= strs_of(before).push(rest));
                assert(strs_of(out@) + chunks(Seq::<char>::empty(), width as nat) =~= strs_of(out@));
            } else {
                assert(piece@ =~= rest.take(width as int));
                assert(rest.skip(width as int) =~= word@.skip(end as int));
                assert(strs_of(before) + (seq![rest.take(width as int)] + chunks(
                    rest.skip(width as int),
                    width as nat,
                )) =~= strs_of(out@) + chunks(word@.skip(end as int), width as nat));
            }
        }
        start = end;
    }
    assert(word@.skip(len as int) =~= Seq::<char>::empty());
    assert(strs_of(out@) + Seq::<Seq<char>>::empty() =~= strs_of(out@));
}

/// Wraps `text` into lines of at most `width` characters, breaking between
/// words and cutting words longer than the width.
pub fn wrap_words(text: &str, width: usize) -> (r: Vec<String>)
    ensures
        strs_of(r@) == wrapped(text@, width as nat),
{
    if width == 0 {
        let mut r: Vec<String> = Vec::new();
        r.push(owned(text));
        assert(strs_of(r@) =~= seq![text@]);
        return r;
    }
    let v = chars_of(text);
    let paras = split_newlines(&v);
    let ghost ps = seqs_of(paras@);
    let mut out: Vec<String> = Vec::new();
    let mut pi: usize = 0;
    assert(ps.take(0) =~= Seq::<Seq<char>>::empty());
    while pi < paras.len()
        invariant
            width > 0,
            pi <= paras@.len(),
            ps == seqs_of(paras@),
            strs_of(out@) == wrap_paras(ps.take(pi as int), width as nat),
        decreases paras.len() - pi,
    {
        let para = &paras[pi];
        let ws = split_words(para);
        let ghost wss = seqs_of(ws@);
        let ghost out0 = strs_of(out@);
        let mut line: Vec<char> = Vec::new();
        let mut wi: usize = 0;
        assert(wss.take(0) =~= Seq::<Seq<char>>::empty());
        while wi < ws.len()
            invariant
                width > 0,
                wi <= ws@.len(),
                wss == seqs_of(ws@),
                line@.len() <= width,
                place_words(out0, seq![], wss.take(wi as int), width as nat) == (
                    strs_of(out@),
                    line@,
                ),
            decreases ws.len() - wi,
        {
            let word = &ws[wi];
            let ghost o = strs_of(out@);
            let ghost l = line@;
            proof {
                assert(wss.take(wi + 1).drop_last() =~= wss.take(wi as int));
                assert(wss.take(wi + 1).last() == word@);
            }
            if line.len() == 0 {
                if word.len() > width {
                    push_chunks(&mut out, word, width);
                } else {
                    line = word.clone();
                }
            } else if line.len() < width && word.len() <= width - line.len() - 1 {
                line.push(' ');
                let mut k: usize = 0;
                let ghost l1 = line@;
                while k < word.len()
                    invariant
                        k <= word@.len(),
                        line@ == l1 + word@.take(k as int),
                        l1.len() + word@.len() <= width,
                    decreases word.len() - k,
                {
                    line.push(word[k]);
                    assert(word@.take(k + 1) =~= word@.take(k as int).push(word@[k as int]));
                    k += 1;
                }
                assert(word@.take(word@.len() as int) =~= word@);
                assert(line@ =~= l + seq![' '] + word@);
            } else {
                let ghost before = out@;
                out.push(string_of(&line));
                assert(strs_of(out@) =~= strs_of(before).push(l));
                line = Vec::new();
                if word.len() > width {
                    push_chunks(&mut out, word, width);
                } else {
                    line = word.clone();
                }
            }
            wi += 1;
        }
        assert(wss.take(ws@.len() as int) =~= wss);
        assert(wss == words(para@));
        if line.len() > 0 {
            let ghost before = out@;
            out.push(string_of(&line));
            assert(strs_of(out@) =~= strs_of(before).push(line@));
        }
        if para.len() == 0 {
            let ghost before = out@;
            out.push(String::new());
            assert(strs_of(out@) =~= strs_of(before).push(Seq::<char>::empty()));
        }
        assert(ps.take(pi + 1).drop_last() =~= ps.take(pi as int));
        assert(ps.take(pi + 1).last() == para@);
        pi += 1;
    }
    assert(ps.take(paras@.len() as int) =~= ps);
    if out.len() == 0 {
        out.push(String::new());
        assert(strs_of(out@) =~= seq![Seq::<char>::empty()]);
    }
    out
}

proof fn lemma_place_word_shift(x: Seq<Seq<char>>, y: Seq<Seq<char>>, line: Seq<char>, word: Seq<char>, width: nat)
    ensures
        place_word(x + y, line, word, width) == (
            x + place_word(y, line, word, width).0,
            place_word(y, line, word, width).1,
        ),
{
    let c = chunks(word, width);
    assert((x + y) + c =~= x + (y + c));
    assert((x + y).push(line) =~= x + y.push(line));
    assert((x + y).push(line) + c =~= x + (y.push(line) + c));
}

proof fn lemma_place_words_shift(x: Seq<Seq<char>>, line: Seq<char>, ws: Seq<Seq<char>>, width: nat)
    ensures
        place_words(x, line, ws, width) == (
            x + place_words(seq![], line, ws, width).0,
            place_words(seq![], line, ws, width).1,
        ),
    decreases ws.len(),
{
    if ws.len() == 0 {
        assert(x + Seq::<Seq<char>>::empty() =~= x);
    } else {
        lemma_place_words_shift(x, line, ws.drop_last(), width);
        let q = place_words(seq![], line, ws.drop_last(), width);
        lemma_place_word_shift(x, q.0, q.1, ws.last(), width);
    }
}

proof fn lemma_wrap_para_shift(out: Seq<Seq<char>>, para: Seq<char>, width: nat)
    ensures
        wrap_para(out, para, width) == out + wrap_para(seq![], para, width),
{
    lemma_place_words_shift(out, seq![], words(para), width);
    let q = place_words(seq![], seq![], words(para), width);
    assert((out + q.0).push(q.1) =~= out + q.0.push(q.1));
    assert((out + q.0).push(Seq::<char>::empty()) =~= out + q.0.push(Seq::<char>::empty()));
    assert((out + q.0.push(q.1)).push(Seq::<char>::empty()) =~= out + q.0.push(q.1).push(
        Seq::<char>::empty(),
    ));
}

/// Paragraphs are wrapped apart: the lines of a run of paragraphs followed
/// by another run are the lines of the first run followed by the lines of
/// the second; no line ever takes words from two paragraphs.
pub proof fn law_paragraphs_wrap_apart(ps: Seq<Seq<char>>, qs: Seq<Seq<char>>, width: nat)
    ensures
        wrap_paras(ps + qs, width) == wrap_paras(ps, width) + wrap_paras(qs, width),
    decreases qs.len(),
{
    if qs.len() == 0 {
        assert(ps + qs =~= ps);
        assert(wrap_paras(ps, width) + Seq::<Seq<char>>::empty() =~= wrap_paras(ps, width));
    } else {
        law_paragraphs_wrap_apart(ps, qs.drop_last(), width);
        assert((ps + qs).drop_last() =~= ps + qs.drop_last());
        assert((ps + qs).last() == qs.last());
        let a = wrap_paras(ps, width);
        let b = wrap_paras(qs.drop_last(), width);
        lemma_wrap_para_shift(a + b, qs.last(), width);
        lemma_wrap_para_shift(b, qs.last(), width);
        assert(a + b + wrap_para(seq![], qs.last(), width) =~= a + (b + wrap_para(seq![], qs.last(), width)));
    }
}

/// A text with no newline is a single paragraph.
proof fn lemma_split_nl_single(a: Seq<char>)
    requires
        no_nl(a),
    ensures
        split_nl(a) == seq![a],
{
    crate::text::lemma_nl_pos_full(a);
}

/// A newline starts a new paragraph: the paragraphs of `a + "\n" + b`, for
/// `a` without a newline, are `a` and then the paragraphs of `b`.
proof fn lemma_split_nl_break(a: Seq<char>, b: Seq<char>)
    requires
        no_nl(a),
    ensures
        split_nl(a + seq!['\n'] + b) == seq![a] + split_nl(b),
{
    let s = a + seq!['\n'] + b;
    assert(s =~= a + (seq!['\n'] + b));
    lemma_nl_pos_append(a, seq!['\n'] + b);
    assert((seq!['\n'] + b)[0] == '\n');
    assert(nl_pos(seq!['\n'] + b) == 0);
    assert(s.take(a.len() as int) =~= a);
    assert(s.skip(a.len() as int + 1) =~= b);
}

/// A non-empty text without whitespace is one word.
proof fn lemma_one_word(p: Seq<char>)
    requires
        p.len() > 0,
        forall|k: int| 0 <= k < p.len() ==> !is_ws(#[trigger] p[k]),
    ensures
        words(p) == seq![p],
{
    crate::text::lemma_ws_pos_append(p, seq![]);
    assert(p + Seq::<char>::empty() =~= p);
    assert(p.take(p.len() as int) =~= p);
    assert(p.skip(p.len() as int) =~= Seq::<char>::empty());
    assert(seq![p] + words(Seq::<char>::empty()) =~= seq![p]);
}

/// Two words on lines of their own stay on lines of their own: wrapping
/// `p1 + "\n" + p2`, for words (non-empty, without whitespace) that fit the
/// width, gives the lines `p1` and `p2`.
pub proof fn law_line_break_kept(p1: Seq<char>, p2: Seq<char>, width: nat)
    requires
        0 < p1.len() <= width,
        0 < p2.len() <= width,
        forall|k: int| 0 <= k < p1.len() ==> !is_ws(#[trigger] p1[k]),
        forall|k: int| 0 <= k < p2.len() ==> !is_ws(#[trigger] p2[k]),
    ensures
        wrapped(p1 + seq!['\n'] + p2, width) == seq![p1, p2],
{
    assert(is_ws('\n'));
    assert(no_nl(p1)) by {
        assert forall|k: int| 0 <= k < p1.len() implies p1[k] != '\n' by {
            assert(!is_ws(p1[k]));
        }
    }
    assert(no_nl(p2)) by {
        assert forall|k: int| 0 <= k < p2.len() implies p2[k] != '\n' by {
            assert(!is_ws(p2[k]));
        }
    }
    lemma_split_nl_break(p1, p2);
    lemma_split_nl_single(p2);
    assert(seq![p1] + seq![p2] =~= seq![p1, p2]);
    law_paragraphs_wrap_apart(seq![p1], seq![p2], width);
    lemma_one_word(p1);
    lemma_one_word(p2);
    assert(seq![p1].drop_last() =~= Seq::<Seq<char>>::empty());
    assert(seq![p2].drop_last() =~= Seq::<Seq<char>>::empty());
    assert(seq![p1].last() == p1 && seq![p2].last() == p2);
    assert(wrap_paras(Seq::<Seq<char>>::empty(), width) == Seq::<Seq<char>>::empty());
    assert(wrap_paras(seq![p1], width) == wrap_para(seq![], p1, width));
    assert(wrap_paras(seq![p2], width) == wrap_para(seq![], p2, width));
    let no_lines = Seq::<Seq<char>>::empty();
    let no_text = Seq::<char>::empty();
    assert(place_words(no_lines, no_text, no_lines, width) == (no_lines, no_text));
    assert(place_words(no_lines, no_text, seq![p1], width) == place_word(no_lines, no_text, p1, width));
    assert(place_words(no_lines, no_text, seq![p2], width) == place_word(no_lines, no_text, p2, width));
    assert(wrap_para(seq![], p1, width) =~= seq![p1]);
    assert(wrap_para(seq![], p2, width) =~= seq![p2]);
    assert(seq![p1] + seq![p2] =~= seq![p1, p2]);
}

/// Whether every line has at most `width` characters.
pub open spec fn all_fit(ls: Seq<Seq<char>>, width: nat) -> bool {
    forall|i: int| 0 <= i < ls.len() ==> #[trigger] ls[i].len() <= width
}

proof fn lemma_fit_append(a: Seq<Seq<char>>, b: Seq<Seq<char>>, width: nat)
    requires
        all_fit(a, width),
        all_fit(b, width),
    ensures
        all_fit(a + b, width),
{
    assert forall|i: int| 0 <= i < (a + b).len() implies #[trigger] (a + b)[i].len() <= width by {
        if i < a.len() {
            assert((a + b)[i] == a[i]);
        } else {
            assert((a + b)[i] == b[i - a.len()]);
        }
    }
}

proof fn lemma_chunks_fit(w: Seq<char>, width: nat)
    requires
        width > 0,
    ensures
        all_fit(chunks(w, width), width),
    decreases w.len(),
{
    if w.len() > width {
        lemma_chunks_fit(w.skip(width as int), width);
        lemma_fit_append(seq![w.take(width as int)], chunks(w.skip(width as int), width), width);
    }
}

proof fn lemma_place_words_fit(out: Seq<Seq<char>>, line: Seq<char>, ws: Seq<Seq<char>>, width: nat)
    requires
        width > 0,
        all_fit(out, width),
        line.len() <= width,
    ensures
        all_fit(place_words(out, line, ws, width).0, width),
        place_words(out, line, ws, width).1.len() <= width,
    decreases ws.len(),
{
    if ws.len() > 0 {
        lemma_place_words_fit(out, line, ws.drop_last(), width);
        let q = place_words(out, line, ws.drop_last(), width);
        let word = ws.last();
        lemma_chunks_fit(word, width);
        if q.1.len() > 0 {
            lemma_fit_append(q.0, seq![q.1], width);
            assert(q.0.push(q.1) =~= q.0 + seq![q.1]);
            if word.len() > width {
                lemma_fit_append(q.0.push(q.1), chunks(word, width), width);
            }
        } else if word.len() > width {
            lemma_fit_append(q.0, chunks(word, width), width);
        }
    }
}

proof fn lemma_wrap_paras_fit(paras: Seq<Seq<char>>, width: nat)
    requires
        width > 0,
    ensures
        all_fit(wrap_paras(paras, width), width),
    decreases paras.len(),
{
    if paras.len() > 0 {
        lemma_wrap_paras_fit(paras.drop_last(), width);
        let out = wrap_paras(paras.drop_last(), width);
        let para = paras.last();
        lemma_place_words_fit(out, seq![], words(para), width);
        let q = place_words(out, seq![], words(para), width);
        let o = if q.1.len() > 0 { q.0.push(q.1) } else { q.0 };
        lemma_fit_append(q.0, seq![q.1], width);
        assert(q.0.push(q.1) =~= q.0 + seq![q.1]);
        lemma_fit_append(o, seq![Seq::<char>::empty()], width);
        assert(o.push(Seq::<char>::empty()) =~= o + seq![Seq::<char>::empty()]);
    }
}

/// Wrapping at a positive width gives lines of at most that many
/// characters.
pub proof fn law_wrapped_lines_fit(text: Seq<char>, width: nat)
    requires
        width > 0,
    ensures
        all_fit(wrapped(text, width), width),
        wrapped(text, width).len() >= 1,
        no_line_breaks(wrapped(text, width)),
{
    lemma_wrap_paras_fit(split_nl(text), width);
    lemma_wrap_paras_no_nl(split_nl(text), width);
    if wrap_paras(split_nl(text), width).len() == 0 {
        assert(no_nl(Seq::<char>::empty()));
        assert(no_line_breaks(seq![Seq::<char>::empty()]));
    }
}

/// Whether no line holds a newline.
pub open spec fn no_line_breaks(ls: Seq<Seq<char>>) -> bool {
    forall|i: int| 0 <= i < ls.len() ==> no_nl(#[trigger] ls[i])
}

proof fn lemma_no_nl_append(a: Seq<Seq<char>>, b: Seq<Seq<char>>)
    requires
        no_line_breaks(a),
        no_line_breaks(b),
    ensures
        no_line_breaks(a + b),
{
    assert forall|i: int| 0 <= i < (a + b).len() implies no_nl(#[trigger] (a + b)[i]) by {
        if i < a.len() {
            assert((a + b)[i] == a[i]);
        } else {
            assert((a + b)[i] == b[i - a.len()]);
        }
    }
}

proof fn lemma_chunks_no_nl(w: Seq<char>, width: nat)
    requires
        no_nl(w),
    ensures
        no_line_breaks(chunks(w, width)),
    decreases w.len(),
{
    if w.len() > 0 && width > 0 && w.len() > width {
        let head = w.take(width as int);
        let tail = w.skip(width as int);
        assert forall|k: int| 0 <= k < tail.len() implies tail[k] != '\n' by {
            assert(tail[k] == w[k + width]);
        }
        assert forall|k: int| 0 <= k < head.len() implies head[k] != '\n' by {
            assert(head[k] == w[k]);
        }
        lemma_chunks_no_nl(tail, width);
        lemma_no_nl_append(seq![head], chunks(tail, width));
    }
}

/// The words of a text hold no whitespace, so no newline.
proof fn lemma_words_no_nl(s: Seq<char>)
    ensures
        no_line_breaks(words(s)),
    decreases s.len(),
{
    if s.len() > 0 {
        if is_ws(s[0]) {
            lemma_words_no_nl(s.drop_first());
        } else {
            lemma_ws_pos_bound(s);
            let k = ws_pos(s) as int;
            let w = s.take(k);
            assert forall|j: int| 0 <= j < w.len() implies w[j] != '\n' by {
                assert(w[j] == s[j]);
                assert(!is_ws(s[j]));
                assert(is_ws('\n'));
            }
            lemma_words_no_nl(s.skip(k));
            lemma_no_nl_append(seq![w], words(s.skip(k)));
        }
    }
}

proof fn lemma_place_words_no_nl(out: Seq<Seq<char>>, line: Seq<char>, ws: Seq<Seq<char>>, width: nat)
    requires
        no_line_breaks(out),
        no_nl(line),
        no_line_breaks(ws),
    ensures
        no_line_breaks(place_words(out, line, ws, width).0),
        no_nl(place_words(out, line, ws, width).1),
    decreases ws.len(),
{
    if ws.len() > 0 {
        assert(no_line_breaks(ws.drop_last())) by {
            assert forall|i: int| 0 <= i < ws.drop_last().len() implies no_nl(#[trigger] ws.drop_last()[i]) by {
                assert(ws.drop_last()[i] == ws[i]);
            }
        }
        lemma_place_words_no_nl(out, line, ws.drop_last(), width);
        let q = place_words(out, line, ws.drop_last(), width);
        let word = ws.last();
        assert(no_nl(word));
        lemma_chunks_no_nl(word, width);
        lemma_no_nl_append(q.0, seq![q.1]);
        assert(q.0.push(q.1) =~= q.0 + seq![q.1]);
        lemma_no_nl_append(q.0, chunks(word, width));
        lemma_no_nl_append(q.0.push(q.1), chunks(word, width));
        let joined = q.1 + seq![' '] + word;
        assert forall|k: int| 0 <= k < joined.len() implies joined[k] != '\n' by {
            if k < q.1.len() {
                assert(joined[k] == q.1[k]);
            } else if k > q.1.len() {
                assert(joined[k] == word[k - q.1.len() - 1]);
            }
        }
    }
}

proof fn lemma_wrap_paras_no_nl(paras: Seq<Seq<char>>, width: nat)
    ensures
        no_line_breaks(wrap_paras(paras, width)),
    decreases paras.len(),
{
    if paras.len() > 0 {
        lemma_wrap_paras_no_nl(paras.drop_last(), width);
        let out = wrap_paras(paras.drop_last(), width);
        let para = paras.last();
        lemma_words_no_nl(para);
        assert(no_nl(Seq::<char>::empty()));
        lemma_place_words_no_nl(out, seq![], words(para), width);
        let q = place_words(out, seq![], words(para), width);
        let o = if q.1.len() > 0 { q.0.push(q.1) } else { q.0 };
        lemma_no_nl_append(q.0, seq![q.1]);
        assert(q.0.push(q.1) =~= q.0 + seq![q.1]);
        lemma_no_nl_append(o, seq![Seq::<char>::empty()]);
        assert(o.push(Seq::<char>::empty()) =~= o + seq![Seq::<char>::empty()]);
    }
}

/// For a positive line, the rows at width `w` are the least count whose
/// rows hold the line: `rows * w >= len > (rows - 1) * w`.
proof fn lemma_ceil_rows(len: int, w: int, c: int)
    requires
        len > 0,
        w > 0,
        c == if len % w == 0 {
            len / w
        } else {
            len / w + 1
        },
    ensures
        c * w >= len,
        (c - 1) * w < len,
{
    assert(len == w * (len / w) + len % w && 0 <= len % w < w) by (nonlinear_arith)
        requires
            w > 0,
    ;
    if len % w == 0 {
        assert(c * w == len) by (nonlinear_arith)
            requires
                len == w * (len / w) + len % w,
                len % w == 0,
                c == len / w,
        ;
        assert((c - 1) * w == len - w) by (nonlinear_arith)
            requires
                c * w == len,
        ;
    } else {
        assert(c * w == w * (len / w) + w && (c - 1) * w == w * (len / w)) by (nonlinear_arith)
            requires
                c == len / w + 1,
        ;
    }
}

/// A line needs no more rows at a wider width.
proof fn lemma_line_rows_wider(line: Seq<char>, w1: u16, w2: u16)
    requires
        0 < w1 <= w2,
    ensures
        line_rows(line, w2) <= line_rows(line, w1),
{
    let len = (line.len() as u16) as int;
    if len > 0 {
        let c1 = line_rows(line, w1) as int;
        let c2 = line_rows(line, w2) as int;
        lemma_ceil_rows(len, w1 as int, c1);
        lemma_ceil_rows(len, w2 as int, c2);
        assert(c2 <= c1) by (nonlinear_arith)
            requires
                c1 * w1 >= len,
                (c2 - 1) * w2 < len,
                0 < w1 <= w2,
                c1 >= 0,
        ;
    }
}

proof fn lemma_rows_sum_wider(ls: Seq<Seq<char>>, w1: u16, w2: u16)
    requires
        0 < w1 <= w2,
    ensures
        rows_sum(ls, w2) <= rows_sum(ls, w1),
        rows_sum(ls, w1) <= 0xffff,
    decreases ls.len(),
{
    if ls.len() > 0 {
        lemma_rows_sum_wider(ls.drop_last(), w1, w2);
        lemma_line_rows_wider(ls.last(), w1, w2);
    }
}

/// A wider width never needs more rows: for `0 < w1 <= w2`, the text takes
/// at least one and at most as many rows at `w2` as at `w1`.
pub proof fn law_wider_needs_no_more_rows(text: Seq<char>, w1: u16, w2: u16)
    requires
        0 < w1 <= w2,
    ensures
        1 <= wrapped_count(text, w2) <= wrapped_count(text, w1),
{
    lemma_rows_sum_wider(lines(text), w1, w2);
}

/// The characters of `s` that are not whitespace, in order.
pub open spec fn non_ws(s: Seq<char>) -> Seq<char> {
    s.filter(|c: char| !is_ws(c))
}

proof fn lemma_non_ws_concat(a: Seq<char>, b: Seq<char>)
    ensures
        non_ws(a + b) == non_ws(a) + non_ws(b),
{
    Seq::filter_distributes_over_add(a, b, |c: char| !is_ws(c));
}

proof fn lemma_non_ws_one(c: char)
    ensures
        non_ws(seq![c]) == if is_ws(c) {
            Seq::<char>::empty()
        } else {
            seq![c]
        },
{
    reveal_with_fuel(Seq::filter, 2);
    assert(seq![c].drop_last() =~= Seq::<char>::empty());
}

proof fn lemma_non_ws_plain(s: Seq<char>)
    requires
        forall|k: int| 0 <= k < s.len() ==> !is_ws(#[trigger] s[k]),
    ensures
        non_ws(s) == s,
    decreases s.len(),
{
    reveal(Seq::filter);
    if s.len() > 0 {
        lemma_non_ws_plain(s.drop_last());
        assert(s.drop_last().push(s.last()) =~= s);
    }
}

proof fn lemma_non_ws_twice(s: Seq<char>)
    ensures
        non_ws(non_ws(s)) == non_ws(s),
    decreases s.len(),
{
    reveal(Seq::filter);
    if s.len() > 0 {
        lemma_non_ws_twice(s.drop_last());
        let c = s.last();
        lemma_non_ws_one(c);
        let t = non_ws(s.drop_last());
        if !is_ws(c) {
            assert(non_ws(s) == t.push(c));
            assert(t.push(c) =~= t + seq![c]);
            lemma_non_ws_concat(t, seq![c]);
        }
    }
}

proof fn lemma_flatten_cons(x: Seq<char>, y: Seq<Seq<char>>)
    ensures
        (seq![x] + y).flatten() == x + y.flatten(),
{
    assert((seq![x] + y).drop_first() =~= y);
    assert((seq![x] + y).first() == x);
}

proof fn lemma_flatten_chunks(w: Seq<char>, width: nat)
    ensures
        chunks(w, width).flatten() == w,
    decreases w.len(),
{
    if w.len() > 0 {
        if width == 0 || w.len() <= width {
            lemma_flatten_cons(w, seq![]);
            assert(seq![w] + Seq::<Seq<char>>::empty() =~= seq![w]);
            assert(w + Seq::<char>::empty() =~= w);
        } else {
            lemma_flatten_chunks(w.skip(width as int), width);
            lemma_flatten_cons(w.take(width as int), chunks(w.skip(width as int), width));
            assert(w.take(width as int) + w.skip(width as int) =~= w);
        }
    }
}

/// The words of a text, run together, are its non-whitespace characters.
proof fn lemma_words_flatten(s: Seq<char>)
    ensures
        words(s).flatten() == non_ws(s),
    decreases s.len(),
{
    if s.len() > 0 {
        if is_ws(s[0]) {
            lemma_words_flatten(s.drop_first());
            lemma_non_ws_one(s[0]);
            assert(seq![s[0]] + s.drop_first() =~= s);
            lemma_non_ws_concat(seq![s[0]], s.drop_first());
            assert(Seq::<char>::empty() + non_ws(s.drop_first()) =~= non_ws(s.drop_first()));
        } else {
            lemma_ws_pos_bound(s);
            let k = ws_pos(s) as int;
            lemma_words_flatten(s.skip(k));
            lemma_flatten_cons(s.take(k), words(s.skip(k)));
            lemma_non_ws_plain(s.take(k));
            assert(s.take(k) + s.skip(k) =~= s);
            lemma_non_ws_concat(s.take(k), s.skip(k));
        }
    }
}

proof fn lemma_flatten_push_line(out: Seq<Seq<char>>, line: Seq<char>)
    ensures
        out.push(line).flatten() == out.flatten() + line,
{
    out.lemma_flatten_push(line);
}

proof fn lemma_place_word_keeps(out: Seq<Seq<char>>, line: Seq<char>, word: Seq<char>, width: nat)
    ensures
        ({
            let q = place_word(out, line, word, width);
            non_ws(q.0.flatten() + q.1) == non_ws(out.flatten() + line) + non_ws(word)
        }),
{
    let f = out.flatten();
    let q = place_word(out, line, word, width);
    lemma_flatten_chunks(word, width);
    lemma_flatten_concat(out, chunks(word, width));
    lemma_flatten_push_line(out, line);
    lemma_flatten_concat(out.push(line), chunks(word, width));
    lemma_non_ws_one(' ');
    if line.len() == 0 {
        assert(f + line =~= f);
        if word.len() > width {
            assert(q.0.flatten() + q.1 =~= f + word);
        }
        lemma_non_ws_concat(f, word);
    } else if line.len() + 1 + word.len() <= width {
        assert(q.0.flatten() + q.1 =~= (f + line) + seq![' '] + word);
        lemma_non_ws_concat((f + line) + seq![' '], word);
        lemma_non_ws_concat(f + line, seq![' ']);
        assert(non_ws(f + line) + Seq::<char>::empty() =~= non_ws(f + line));
    } else {
        if word.len() > width {
            assert(q.0.flatten() + q.1 =~= (f + line) + word);
        } else {
            assert(q.0.flatten() + q.1 =~= (f + line) + word);
        }
        lemma_non_ws_concat(f + line, word);
    }
}

proof fn lemma_place_words_keeps(out: Seq<Seq<char>>, line: Seq<char>, ws: Seq<Seq<char>>, width: nat)
    ensures
        ({
            let p = place_words(out, line, ws, width);
            non_ws(p.0.flatten() + p.1) == non_ws(out.flatten() + line) + non_ws(ws.flatten())
        }),
    decreases ws.len(),
{
    if ws.len() == 0 {
        assert(non_ws(Seq::<char>::empty()) =~= Seq::<char>::empty()) by {
            reveal(Seq::filter);
        }
        assert(non_ws(out.flatten() + line) + Seq::<char>::empty() =~= non_ws(out.flatten() + line));
    } else {
        lemma_place_words_keeps(out, line, ws.drop_last(), width);
        let p = place_words(out, line, ws.drop_last(), width);
        lemma_place_word_keeps(p.0, p.1, ws.last(), width);
        assert(ws.drop_last().push(ws.last()) =~= ws);
        lemma_flatten_push_line(ws.drop_last(), ws.last());
        lemma_non_ws_concat(ws.drop_last().flatten(), ws.last());
    }
}

proof fn lemma_wrap_paras_keep(paras: Seq<Seq<char>>, width: nat)
    ensures
        non_ws(wrap_paras(paras, width).flatten()) == non_ws(paras.flatten()),
    decreases paras.len(),
{
    reveal(Seq::filter);
    if paras.len() > 0 {
        lemma_wrap_paras_keep(paras.drop_last(), width);
        let out = wrap_paras(paras.drop_last(), width);
        let para = paras.last();
        lemma_place_words_keeps(out, seq![], words(para), width);
        let q = place_words(out, seq![], words(para), width);
        lemma_flatten_push_line(q.0, q.1);
        let o = if q.1.len() > 0 {
            q.0.push(q.1)
        } else {
            q.0
        };
        assert(o.flatten() == q.0.flatten() + q.1) by {
            if q.1.len() == 0 {
                assert(q.0.flatten() + q.1 =~= q.0.flatten());
            }
        }
        lemma_flatten_push_line(o, seq![]);
        assert(o.flatten() + Seq::<char>::empty() =~= o.flatten());
        assert(out.flatten() + Seq::<char>::empty() =~= out.flatten());
        lemma_words_flatten(para);
        lemma_non_ws_twice(para);
        assert(paras.drop_last().push(para) =~= paras);
        lemma_flatten_push_line(paras.drop_last(), para);
        lemma_non_ws_concat(out.flatten(), para);
        lemma_non_ws_concat(paras.drop_last().flatten(), para);
    }
}

proof fn lemma_split_nl_keep(s: Seq<char>)
    ensures
        non_ws(split_nl(s).flatten()) == non_ws(s),
    decreases s.len(),
{
    lemma_nl_pos_bound(s);
    let k = nl_pos(s) as int;
    if k < s.len() {
        lemma_split_nl_keep(s.skip(k + 1));
        lemma_flatten_cons(s.take(k), split_nl(s.skip(k + 1)));
        assert(s =~= s.take(k) + seq!['\n'] + s.skip(k + 1));
        lemma_non_ws_concat(s.take(k) + seq!['\n'], s.skip(k + 1));
        lemma_non_ws_concat(s.take(k), seq!['\n']);
        lemma_non_ws_one('\n');
        assert(non_ws(s.take(k)) + Seq::<char>::empty() =~= non_ws(s.take(k)));
        lemma_non_ws_concat(s.take(k), split_nl(s.skip(k + 1)).flatten());
    } else {
        lemma_flatten_cons(s, seq![]);
        assert(seq![s] + Seq::<Seq<char>>::empty() =~= seq![s]);
        assert(s + Seq::<char>::empty() =~= s);
    }
}

/// Wrapping drops only whitespace: the non-whitespace characters of the
/// lines, read in order, are those of the text.
pub proof fn law_wrap_keeps_text(text: Seq<char>, width: nat)
    ensures
        non_ws(wrapped(text, width).flatten()) == non_ws(text),
{
    if width == 0 {
        lemma_flatten_cons(text, seq![]);
        assert(seq![text] + Seq::<Seq<char>>::empty() =~= seq![text]);
        assert(text + Seq::<char>::empty() =~= text);
    } else {
        lemma_wrap_paras_keep(split_nl(text), width);
        lemma_split_nl_keep(text);
        let o = wrap_paras(split_nl(text), width);
        if o.len() == 0 {
            lemma_flatten_cons(seq![], seq![]);
            assert(seq![Seq::<char>::empty()] + Seq::<Seq<char>>::empty() =~= seq![Seq::<char>::empty()]);
            assert(Seq::<char>::empty() + Seq::<Seq<char>>::empty().flatten() =~= Seq::<char>::empty());
        }
    }
}

// ---------------------------------------------------------------------------
// Command history
// ---------------------------------------------------------------------------

/// The history entries among a sequence of lines: each line trimmed, the
/// empty ones left out.
pub open spec fn history_entries(ls: Seq<Seq<char>>) -> Seq<Seq<char>>
    decreases ls.len(),
{
    if ls.len() == 0 {
        seq![]
    } else {
        let r = history_entries(ls.drop_last());
        let t = trim(ls.last());
        if t.len() > 0 {
            r.push(t)
        } else {
            r
        }
    }
}

/// The command history that the text of a history file holds: its lines,
/// trimmed, without the empty ones.
pub fn history_from_text(content: &str) -> (r: Vec<String>)
    ensures
        strs_of(r@) == history_entries(lines(content@)),
{
    let v = chars_of(content);
    let ls = split_lines(&v);
    let ghost sl = seqs_of(ls@);
    let mut out: Vec<String> = Vec::new();
    let mut i: usize = 0;
    assert(sl.take(0) =~= Seq::<Seq<char>>::empty());
    while i < ls.len()
        invariant
            i <= ls@.len(),
            sl == seqs_of(ls@),
            strs_of(out@) == history_entries(sl.take(i as int)),
        decreases ls.len() - i,
    {
        let t = trim_chars(&ls[i]);
        assert(sl.take(i + 1).drop_last() =~= sl.take(i as int));
        assert(sl.take(i + 1).last() == ls@[i as int]@);
        if t.len() > 0 {
            let ghost before = out@;
            out.push(string_of(&t));
            assert(strs_of(out@) =~= strs_of(before).push(t@));
        }
        i += 1;
    }
    assert(sl.take(ls@.len() as int) =~= sl);
    out
}

proof fn lemma_nl_pos_prefix(a: Seq<char>, b: Seq<char>)
    requires
        nl_pos(a) < a.len(),
    ensures
        nl_pos(a + b) == nl_pos(a),
    decreases a.len(),
{
    if a[0] != '\n' {
        assert((a + b).drop_first() =~= a.drop_first() + b);
        assert((a + b)[0] == a[0]);
        lemma_nl_pos_prefix(a.drop_first(), b);
    } else {
        assert((a + b)[0] == '\n');
    }
}

/// Lines split at a line end: the lines of `a + b`, where `a` is empty or
/// ends with a newline, are those of `a` followed by those of `b`.
proof fn lemma_lines_concat(a: Seq<char>, b: Seq<char>)
    requires
        a.len() == 0 || a.last() == '\n',
    ensures
        lines(a + b) == lines(a) + lines(b),
    decreases a.len(),
{
    if a.len() == 0 {
        assert(a + b =~= b);
        assert(lines(a) + lines(b) =~= lines(b));
    } else {
        lemma_nl_pos_bound(a);
        let k = nl_pos(a) as int;
        assert(k < a.len()) by {
            if k >= a.len() {
                assert(a[a.len() - 1] != '\n');
            }
        }
        lemma_nl_pos_prefix(a, b);
        let a2 = a.skip(k + 1);
        assert((a + b).take(k) =~= a.take(k));
        assert((a + b).skip(k + 1) =~= a2 + b);
        assert(a2.len() == 0 || a2.last() == a.last());
        lemma_lines_concat(a2, b);
        assert(lines(a + b) == seq![strip_cr(a.take(k))] + lines(a2 + b));
        assert(lines(a) == seq![strip_cr(a.take(k))] + lines(a2));
        assert(lines(a + b) =~= lines(a) + lines(b));
    }
}

proof fn lemma_trim_start_len(s: Seq<char>)
    ensures
        trim_start(s).len() <= s.len(),
        trim_start(s).len() == s.len() ==> trim_start(s) == s,
    decreases s.len(),
{
    if s.len() > 0 && is_ws(s[0]) {
        lemma_trim_start_len(s.drop_first());
    }
}

proof fn lemma_trim_end_len(s: Seq<char>)
    ensures
        trim_end(s).len() <= s.len(),
        s.len() > 0 && is_ws(s.last()) ==> trim_end(s).len() < s.len(),
    decreases s.len(),
{
    if s.len() > 0 && is_ws(s.last()) {
        lemma_trim_end_len(s.drop_last());
    }
}

/// A trimmed text does not end with whitespace.
proof fn lemma_trimmed_end(c: Seq<char>)
    requires
        c.len() > 0,
        trim(c) == c,
    ensures
        !is_ws(c.last()),
{
    lemma_trim_start_len(c);
    lemma_trim_end_len(trim_start(c));
    assert(trim_start(c) == c);
    lemma_trim_end_len(c);
}

/// A command written to the history as a line of its own, after text that
/// is empty or ends with a newline, is read back as the newest entry, after
/// the entries that were there (for a command that is trimmed, not empty
/// and holds no newline).
pub proof fn law_logged_command_read_back(text: Seq<char>, c: Seq<char>)
    requires
        text.len() == 0 || text.last() == '\n',
        c.len() > 0,
        trim(c) == c,
        no_nl(c),
    ensures
        history_entries(lines(text + c + seq!['\n'])) == history_entries(lines(text)).push(c),
{
    let line = c + seq!['\n'];
    assert(text + c + seq!['\n'] =~= text + line);
    lemma_lines_concat(text, line);
    lemma_nl_pos_append(c, seq!['\n']);
    assert(nl_pos(seq!['\n']) == 0);
    assert(line.take(c.len() as int) =~= c);
    assert(line.skip(c.len() as int + 1) =~= Seq::<char>::empty());
    lemma_trimmed_end(c);
    assert(strip_cr(c) == c);
    assert(lines(line) == seq![c] + lines(Seq::<char>::empty()));
    assert(lines(line) =~= seq![c]);
    let all = lines(text) + seq![c];
    assert(all.drop_last() =~= lines(text));
    assert(all.last() == c);
}

/// A line without a newline (or carriage return) takes the least number of
/// rows whose cells hold all of its characters: `rows * width >= len` and
/// `(rows - 1) * width < len`, and one row when it is empty (for a line of
/// at most `u16::MAX` characters and a positive width).
pub proof fn law_one_line_rows(line: Seq<char>, width: u16)
    requires
        width > 0,
        line.len() <= 0xffff,
        no_nl(line),
        line.len() == 0 || line.last() != '\r',
    ensures
        line.len() == 0 ==> wrapped_count(line, width) == 1,
        line.len() > 0 ==> wrapped_count(line, width) * width >= line.len() && (wrapped_count(line, width)
            - 1) * width < line.len(),
{
    if line.len() > 0 {
        crate::text::lemma_nl_pos_full(line);
        assert(lines(line) == seq![line]);
        assert(seq![line].drop_last() =~= Seq::<Seq<char>>::empty());
        let len = line.len() as int;
        assert((line.len() as u16) as int == len);
        let c = line_rows(line, width) as int;
        lemma_ceil_rows(len, width as int, c);
        assert(c <= 0xffff) by (nonlinear_arith)
            requires
                (c - 1) * width < len,
                len <= 0xffff,
                width >= 1,
        ;
        assert(rows_sum(Seq::<Seq<char>>::empty(), width) == 0);
        assert(seq![line].last() == line);
        assert(rows_sum(seq![line], width) == line_rows(line, width));
    } else {
        assert(lines(line) == Seq::<Seq<char>>::empty());
    }
}

/// Every history entry is trimmed and non-empty, and a history text whose
/// lines are all trimmed and non-empty is read back line for line.
pub proof fn law_history_entries_trimmed(ls: Seq<Seq<char>>)
    ensures
        forall|i: int|
            0 <= i < history_entries(ls).len() ==> #[trigger] history_entries(ls)[i].len() > 0
                && trim(history_entries(ls)[i]) == history_entries(ls)[i],
        (forall|i: int| 0 <= i < ls.len() ==> #[trigger] ls[i].len() > 0 && trim(ls[i]) == ls[i])
            ==> history_entries(ls) == ls,
    decreases ls.len(),
{
    if ls.len() > 0 {
        law_history_entries_trimmed(ls.drop_last());
        let t = trim(ls.last());
        lemma_trim_twice(ls.last());
        let r = history_entries(ls.drop_last());
        if t.len() > 0 {
            assert forall|i: int| 0 <= i < r.push(t).len() implies #[trigger] r.push(t)[i].len() > 0
                && trim(r.push(t)[i]) == r.push(t)[i] by {
                if i < r.len() {
                    assert(r.push(t)[i] == r[i]);
                }
            }
        }
        if forall|i: int| 0 <= i < ls.len() ==> #[trigger] ls[i].len() > 0 && trim(ls[i]) == ls[i] {
            assert forall|i: int| 0 <= i < ls.drop_last().len() implies #[trigger] ls.drop_last()[i].len()
                > 0 && trim(ls.drop_last()[i]) == ls.drop_last()[i] by {
                assert(ls.drop_last()[i] == ls[i]);
            }
            assert(ls[ls.len() - 1].len() > 0);
            assert(ls.drop_last().push(ls.last()) =~= ls);
        }
    }
}

proof fn lemma_trim_start_idem(s: Seq<char>)
    ensures
        trim_start(trim_start(s)) == trim_start(s),
        trim_start(s).len() > 0 ==> !is_ws(trim_start(s)[0]),
    decreases s.len(),
{
    if s.len() > 0 && is_ws(s[0]) {
        lemma_trim_start_idem(s.drop_first());
    }
}

proof fn lemma_trim_end_keeps_start(s: Seq<char>)
    requires
        s.len() == 0 || !is_ws(s[0]),
    ensures
        trim_end(s).len() == 0 || !is_ws(trim_end(s)[0]),
        trim_end(s).len() > 0 ==> !is_ws(trim_end(s).last()),
        trim_end(trim_end(s)) == trim_end(s),
    decreases s.len(),
{
    if s.len() > 0 && is_ws(s.last()) {
        if s.len() == 1 {
            assert(s.drop_last() =~= Seq::<char>::empty());
        } else {
            assert(s.drop_last()[0] == s[0]);
        }
        lemma_trim_end_keeps_start(s.drop_last());
    }
}

/// Trimming twice is trimming once.
proof fn lemma_trim_twice(s: Seq<char>)
    ensures
        trim(trim(s)) == trim(s),
{
    lemma_trim_start_idem(s);
    let a = trim_start(s);
    lemma_trim_end_keeps_start(a);
    let b = trim_end(a);
    assert(trim_start(b) == b);
}

/// A path with one more component, as `PathBuf::push` forms it on Unix for
/// a relative component: a separator goes between them unless the path is
/// empty or already ends with one.
pub open spec fn path_push(base: Seq<char>, seg: Seq<char>) -> Seq<char> {
    if base.len() == 0 || base.last() == '/' {
        base + seg
    } else {
        base + seq!['/'] + seg
    }
}

fn push_path(base: &mut String, seg: &str)
    ensures
        final(base)@ == path_push(old(base)@, seg@),
{
    let v = chars_of(base.as_str());
    if v.len() == 0 || v[v.len() - 1] == '/' {
        push_str(base, seg);
    } else {
        base.push('/');
        push_str(base, seg);
    }
}

/// Where the command history is kept: the directory to create for it, if
/// any, and the file.
#[derive(Debug)]
pub struct HistoryLocation {
    pub dir: Option<String>,
    pub file: String,
}

/// The directory of the history file under the configuration directory of
/// the environment: `$XDG_CONFIG_HOME/reddit_tui`, else
/// `$HOME/.config/reddit_tui`, else none.
pub open spec fn history_dir(xdg: Option<Seq<char>>, home: Option<Seq<char>>) -> Option<Seq<char>> {
    match xdg {
        Some(x) => Some(path_push(x, "reddit_tui"@)),
        None => match home {
            Some(h) => Some(path_push(h, ".config/reddit_tui"@)),
            None => None,
        },
    }
}

/// The history file: `history` in the history directory, else
/// `commands.log` in the working directory.
pub open spec fn history_file(xdg: Option<Seq<char>>, home: Option<Seq<char>>) -> Seq<char> {
    match history_dir(xdg, home) {
        Some(d) => path_push(d, "history"@),
        None => "commands.log"@,
    }
}

/// Where the command history is kept, given the values of
/// `XDG_CONFIG_HOME` and `HOME` (where they are set).
pub fn history_file_path(xdg: Option<String>, home: Option<String>) -> (r: HistoryLocation)
    ensures
        opt_chars(r.dir) == history_dir(opt_chars(xdg), opt_chars(home)),
        r.file@ == history_file(opt_chars(xdg), opt_chars(home)),
{
    let dir = match xdg {
        Some(x) => {
            let mut p = x;
            push_path(&mut p, "reddit_tui");
            Some(p)
        },
        None => match home {
            Some(h) => {
                let mut p = h;
                push_path(&mut p, ".config/reddit_tui");
                Some(p)
            },
            None => None,
        },
    };
    match dir {
        Some(d) => {
            let mut f = d.clone();
            push_path(&mut f, "history");
            HistoryLocation { dir: Some(d), file: f }
        },
        None => HistoryLocation { dir: None, file: owned("commands.log") },
    }
}

/// The characters of an optional string.
pub open spec fn opt_chars(o: Option<String>) -> Option<Seq<char>> {
    match o {
        Some(s) => Some(s@),
        None => None,
    }
}

// ---------------------------------------------------------------------------
// Opening in a browser
// ---------------------------------------------------------------------------

/// The characters of `s` as they stand between single quotes in a shell
/// word: each `'` is written `'\''` (close the quotes, an escaped quote,
/// reopen them); every other character stands for itself.
pub open spec fn quoted_body(s: Seq<char>) -> Seq<char>
    decreases s.len(),
{
    if s.len() == 0 {
        seq![]
    } else {
        quoted_body(s.drop_last()) + if s.last() == '\'' {
            seq!['\'', '\\', '\'', '\'']
        } else {
            seq![s.last()]
        }
    }
}

/// `s` as one single-quoted shell word, which the shell reads back as `s`
/// exactly, with no expansion of any kind.
pub open spec fn shell_quoted(s: Seq<char>) -> Seq<char> {
    seq!['\''] + quoted_body(s) + seq!['\'']
}

/// How a POSIX shell reads `q` as one word made only of single-quoted
/// parts and backslash-escaped characters (`inside`: whether a single
/// quote is open): nothing where the quotes are left open or where an
/// unquoted character other than an escape occurs (that character could
/// end the word or have a meaning of its own).
pub open spec fn read_quoted_word(q: Seq<char>, inside: bool) -> Option<Seq<char>>
    decreases q.len(),
{
    if q.len() == 0 {
        if inside {
            None
        } else {
            Some(seq![])
        }
    } else if inside {
        if q[0] == '\'' {
            read_quoted_word(q.drop_first(), false)
        } else {
            match read_quoted_word(q.drop_first(), true) {
                Some(w) => Some(seq![q[0]] + w),
                None => None,
            }
        }
    } else if q[0] == '\'' {
        read_quoted_word(q.drop_first(), true)
    } else if q[0] == '\\' && q.len() >= 2 {
        match read_quoted_word(q.skip(2), false) {
            Some(w) => Some(seq![q[1]] + w),
            None => None,
        }
    } else {
        None
    }
}

proof fn lemma_quoted_body_cons(c: char, t: Seq<char>)
    ensures
        quoted_body(seq![c] + t) == (if c == '\'' {
            seq!['\'', '\\', '\'', '\'']
        } else {
            seq![c]
        }) + quoted_body(t),
    decreases t.len(),
{
    let piece = if c == '\'' {
        seq!['\'', '\\', '\'', '\'']
    } else {
        seq![c]
    };
    if t.len() == 0 {
        assert(seq![c] + t =~= seq![c]);
        assert(seq![c].drop_last() =~= Seq::<char>::empty());
        assert(seq![c].last() == c);
        assert(quoted_body(Seq::<char>::empty()) == Seq::<char>::empty());
        assert(quoted_body(seq![c]) == quoted_body(Seq::<char>::empty()) + piece);
        assert(quoted_body(seq![c]) =~= piece);
        assert(piece + quoted_body(t) =~= piece);
    } else {
        lemma_quoted_body_cons(c, t.drop_last());
        assert((seq![c] + t).drop_last() =~= seq![c] + t.drop_last());
        assert((seq![c] + t).last() == t.last());
    }
}

proof fn lemma_read_back(s: Seq<char>)
    ensures
        read_quoted_word(quoted_body(s) + seq!['\''], true) == Some(s),
    decreases s.len(),
{
    if s.len() == 0 {
        assert(s =~= Seq::<char>::empty());
        assert(quoted_body(s) + seq!['\''] =~= seq!['\'']);
        assert(seq!['\''].drop_first() =~= Seq::<char>::empty());
        assert(read_quoted_word(Seq::<char>::empty(), false) == Some(Seq::<char>::empty()));
        assert(read_quoted_word(seq!['\''], true) == read_quoted_word(Seq::<char>::empty(), false));
    } else {
        let c = s[0];
        let t = s.drop_first();
        assert(seq![c] + t =~= s);
        lemma_quoted_body_cons(c, t);
        lemma_read_back(t);
        let rest = quoted_body(t) + seq!['\''];
        if c == '\'' {
            let q = seq!['\'', '\\', '\'', '\''] + rest;
            assert(quoted_body(s) + seq!['\''] =~= q);
            assert(q.drop_first() =~= seq!['\\', '\'', '\''] + rest);
            let q1 = seq!['\\', '\'', '\''] + rest;
            let q2 = seq!['\''] + rest;
            assert(q1.skip(2) =~= q2);
            assert(q2.drop_first() =~= rest);
            assert(read_quoted_word(q2, false) == read_quoted_word(rest, true));
            assert(read_quoted_word(q1, false) == Some(seq![q1[1]] + t));
            assert(read_quoted_word(q, true) == read_quoted_word(q1, false));
            assert(seq![q1[1]] + t =~= s);
        } else {
            let q = seq![c] + rest;
            assert(quoted_body(s) + seq!['\''] =~= q);
            assert(q.drop_first() =~= rest);
            assert(q[0] == c);
            assert(read_quoted_word(q, true) == Some(seq![c] + t));
        }
    }
}

/// The shell reads a quoted word back as exactly the text that was quoted:
/// nothing in the text can end the word or run as shell syntax.
pub proof fn law_shell_quoting_reads_back(s: Seq<char>)
    ensures
        read_quoted_word(shell_quoted(s), false) == Some(s),
{
    lemma_read_back(s);
    assert(shell_quoted(s).drop_first() =~= quoted_body(s) + seq!['\'']);
}

/// The shell command that opens `url` in the default browser on Linux,
/// detached from the terminal; the URL is passed to `xdg-open` as one
/// quoted word.
pub open spec fn browser_command(url: Seq<char>) -> Seq<char> {
    "nohup xdg-open "@ + shell_quoted(url) + " >/dev/null 2>&1 &"@
}

/// Appends `url` to `s` as one single-quoted shell word.
fn push_shell_quoted(s: &mut String, url: &str)
    ensures
        final(s)@ == old(s)@ + shell_quoted(url@),
{
    let v = chars_of(url);
    s.push('\'');
    let ghost start = s@;
    let mut i: usize = 0;
    assert(v@.take(0) =~= Seq::<char>::empty());
    while i < v.len()
        invariant
            i <= v@.len(),
            v@ == url@,
            s@ == start + quoted_body(v@.take(i as int)),
        decreases v.len() - i,
    {
        let c = v[i];
        assert(v@.take(i + 1).drop_last() =~= v@.take(i as int));
        assert(v@.take(i + 1).last() == c);
        if c == '\'' {
            s.push('\'');
            s.push('\\');
            s.push('\'');
            s.push('\'');
        } else {
            s.push(c);
        }
        assert(s@ =~= start + quoted_body(v@.take(i + 1)));
        i += 1;
    }
    assert(v@.take(v@.len() as int) =~= v@);
    s.push('\'');
    assert(s@ =~= old(s)@ + shell_quoted(url@));
}

/// The shell command that opens `url` in the default browser on Linux.
pub fn browser_shell_command(url: &str) -> (r: String)
    ensures
        r@ == browser_command(url@),
{
    let mut r = owned("nohup xdg-open ");
    push_shell_quoted(&mut r, url);
    push_str(&mut r, " >/dev/null 2>&1 &");
    r
}

// ---------------------------------------------------------------------------
// Viewing media
// ---------------------------------------------------------------------------

/// An error while viewing a post's media.
#[derive(Debug)]
pub enum ViewMediaError {
    PostWithoutMedia,
    UnsupportedOS,
    DownloadFailure(String),
    IOError(std::io::Error),
}

impl ViewMediaError {
    /// The text that describes the error.
    pub fn message(&self) -> (r: String)
        ensures
            match self {
                ViewMediaError::PostWithoutMedia => r@ == "Post does not contain media to view"@,
                ViewMediaError::UnsupportedOS => r@ == "Your OS is not supported for viewing media"@,
                ViewMediaError::DownloadFailure(s) => r@
                    == "The post media could not be downloaded: "@ + s@,
                ViewMediaError::IOError(_) => starts_with(r@, "An I/O error occurred: "@),
            },
    {
        match self {
            ViewMediaError::PostWithoutMedia => owned("Post does not contain media to view"),
            ViewMediaError::UnsupportedOS => owned("Your OS is not supported for viewing media"),
            ViewMediaError::DownloadFailure(s) => {
                let mut r = owned("The post media could not be downloaded: ");
                push_str(&mut r, s.as_str());
                r
            },
            ViewMediaError::IOError(e) => {
                let mut r = owned("An I/O error occurred: ");
                let t = crate::fetch::io_error_text(e);
                push_str(&mut r, t.as_str());
                assert(r@.take("An I/O error occurred: "@.len() as int)
                    =~= "An I/O error occurred: "@);
                r
            },
        }
    }
}

/// How media is shown.
#[derive(Debug, Clone, Copy, PartialEq, Eq, Structural)]
pub enum ViewMediaMode {
    /// With the desktop's default viewer.
    Default,
    /// In a terminal, with `cacaview`.
    Caca,
}

/// The hash that a fresh `std::hash::DefaultHasher` gives a string.
pub uninterp spec fn default_hash(s: Seq<char>) -> u64;

/// Hashes a string with a fresh `std::hash::DefaultHasher` (`new`, `hash`,
/// `finish`).  `DefaultHasher::new` is documented to make the same,
/// unseeded hasher every time, so the result depends on the string alone; it
/// is named `default_hash` of the string.  Which number that is (the
/// algorithm, which std may change between releases) is left unsaid.
#[verifier::external_body]
fn hash_text(s: &String) -> (h: u64)
    ensures
        h == default_hash(s@),
{
    let mut hasher = std::hash::DefaultHasher::new();
    s.hash(&mut hasher);
    hasher.finish()
}

/// The local file that a post's media is downloaded to: named after the hash
/// of the post's permalink.
pub open spec fn media_file(perma_link: Seq<char>) -> Seq<char> {
    "/tmp/reddit_tui/reddit_media_"@ + dec(default_hash(perma_link) as nat)
}

/// What viewing a post's media needs: its address and the local file.
#[derive(Debug)]
pub struct MediaTarget {
    pub url: String,
    pub file: String,
}

/// The media of a post and the file it goes to; `PostWithoutMedia` where
/// the post has no media link.
pub fn media_target(post: &Post) -> (r: Result<MediaTarget, ViewMediaError>)
    ensures
        post.media_url is None <==> r is Err,
        post.media_url is None ==> r matches Err(ViewMediaError::PostWithoutMedia),
        match r {
            Ok(t) => post.media_url == Some(t.url) && t.file@ == media_file(post.perma_link@),
            Err(_) => true,
        },
{
    match &post.media_url {
        None => Err(ViewMediaError::PostWithoutMedia),
        Some(u) => {
            let mut file = owned("/tmp/reddit_tui/reddit_media_");
            let h = hash_text(&post.perma_link);
            push_decimal(&mut file, h);
            Ok(MediaTarget { url: u.clone(), file })
        },
    }
}

/// Judges the status of a media download: a success lets it through, any
/// other code is `DownloadFailure("HTTP status <code>")`.
pub fn download_status(code: u16) -> (r: Result<(), ViewMediaError>)
    ensures
        r is Ok <==> is_success(code),
        !is_success(code) ==> (r matches Err(ViewMediaError::DownloadFailure(s)) && s@
            == "HTTP status "@ + dec(code as nat)),
{
    if 200 <= code && code <= 299 {
        Ok(())
    } else {
        let mut s = owned("HTTP status ");
        push_decimal(&mut s, code as u64);
        Err(ViewMediaError::DownloadFailure(s))
    }
}

/// A program to start and its arguments.
#[derive(Debug)]
pub struct CommandLine {
    pub program: String,
    pub args: Vec<String>,
}

/// The program and arguments that show the media file `file` in `mode`:
/// `xdg-open <file>`, or `sh -c "x-terminal-emulator -e cacaview <file>
/// >/dev/null 2>&1 &"`.
pub fn viewer_command(mode: ViewMediaMode, file: &str) -> (r: CommandLine)
    ensures
        mode == ViewMediaMode::Default ==> r.program@ == "xdg-open"@ && strs_of(r.args@) == seq![file@],
        mode == ViewMediaMode::Caca ==> r.program@ == "sh"@ && strs_of(r.args@) == seq![
            "-c"@,
            "x-terminal-emulator -e cacaview "@ + file@ + " >/dev/null 2>&1 &"@,
        ],
{
    let mut args: Vec<String> = Vec::new();
    match mode {
        ViewMediaMode::Default => {
            args.push(owned(file));
            assert(strs_of(args@) =~= seq![file@]);
            CommandLine { program: owned("xdg-open"), args }
        },
        ViewMediaMode::Caca => {
            args.push(owned("-c"));
            let mut c = owned("x-terminal-emulator -e cacaview ");
            push_str(&mut c, file);
            push_str(&mut c, " >/dev/null 2>&1 &");
            args.push(c);
            assert(strs_of(args@) =~= seq![
                "-c"@,
                "x-terminal-emulator -e cacaview "@ + file@ + " >/dev/null 2>&1 &"@,
            ]);
            CommandLine { program: owned("sh"), args }
        },
    }
}

} // verus!
