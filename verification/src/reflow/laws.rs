//! What holds of the lines that a text is wrapped into.
//!
//! A line can be wider than the limit: a symbol of two columns is taken
//! into a word where one column is left for it. Of symbols that are one
//! column wide each, no line is wider than the limit. Whatever the widths,
//! the lines hold symbols of the text in the order of the text.

use vstd::prelude::*;
use tui::text::StyledGrapheme;
use crate::reflow::{
    broken, dropped, finished, flushed, gathered, lemma_total_add, line_full, room_left, sym_blank,
    sym_width, total, word_ends, wrapped, wrapped_one, wrapped_upto, Wrapping,
};

verus! {

/// Whether every grapheme of the run is one column wide.
pub open spec fn narrow(run: Seq<StyledGrapheme<'_>>) -> bool {
    forall|i: int| 0 <= i < run.len() ==> sym_width(#[trigger] run[i]) == 1
}

/// A run of graphemes of one column each is as wide as it is long.
pub proof fn lemma_total_narrow(run: Seq<StyledGrapheme<'_>>)
    requires
        narrow(run),
    ensures
        total(run) == run.len(),
    decreases run.len(),
{
    if run.len() > 0 {
        lemma_total_narrow(run.drop_last());
    }
}

/// Whitespace that fits into the room that is left is dropped as a whole.
pub proof fn lemma_dropped_all(spaces: Seq<StyledGrapheme<'_>>, remaining: int)
    requires
        total(spaces) <= remaining,
    ensures
        dropped(spaces, remaining) == (Seq::<StyledGrapheme<'_>>::empty(), true),
    decreases spaces.len(),
{
    if spaces.len() == 0 {
        assert(spaces =~= Seq::empty());
    } else {
        crate::reflow::lemma_total_front(spaces);
        crate::reflow::lemma_total_bounds(spaces.drop_first());
        lemma_dropped_all(spaces.drop_first(), remaining - sym_width(spaces[0]));
    }
}

/// Whether a wrapping of graphemes of one column each keeps within the
/// limit: the lines that are done, and the line that is being filled with
/// what is gathered for it.
pub open spec fn kept_within(at: Wrapping<'_>, max: int) -> bool {
    &&& narrow(at.line)
    &&& narrow(at.spaces)
    &&& narrow(at.word)
    &&& at.line.len() + at.spaces.len() + at.word.len() <= max
    &&& forall|i: int| 0 <= i < at.lines.len() ==> total(#[trigger] at.lines[i]) <= max
}

/// A grapheme of one column keeps a wrapping within the limit.
proof fn lemma_wrapped_one_within<'a>(
    at: Wrapping<'a>,
    next: StyledGrapheme<'a>,
    max: int,
    trim: bool,
)
    requires
        kept_within(at, max),
        sym_width(next) == 1,
    ensures
        kept_within(wrapped_one(at, next, max, trim), max),
{
    if sym_width(next) <= max {
        lemma_total_narrow(at.line);
        lemma_total_narrow(at.spaces);
        lemma_total_narrow(at.word);
        let ended = if word_ends(at, next, max, trim) {
            flushed(at, trim)
        } else {
            at
        };
        assert(kept_within(ended, max));
        lemma_total_narrow(ended.line);
        lemma_total_narrow(ended.spaces);
        lemma_total_narrow(ended.word);
        if line_full(ended, next, max) {
            lemma_dropped_all(ended.spaces, room_left(ended, max));
            let after = broken(ended, max);
            assert(after.spaces =~= Seq::empty());
            assert(after.line =~= Seq::empty());
            assert(kept_within(after, max));
            if !(sym_blank(next) && dropped(ended.spaces, room_left(ended, max)).1) {
                assert(ended.word.len() + 1 <= max);
                assert(kept_within(gathered(after, next), max));
            }
        } else {
            assert(kept_within(gathered(ended, next), max));
        }
    }
}

/// Graphemes of one column each keep the wrapping within the limit.
proof fn lemma_wrapped_upto_within<'a>(
    symbols: Seq<StyledGrapheme<'a>>,
    count: int,
    max: int,
    trim: bool,
)
    requires
        narrow(symbols),
        0 <= max,
        count <= symbols.len(),
    ensures
        kept_within(wrapped_upto(symbols, count, max, trim), max),
    decreases count,
{
    if count > 0 {
        lemma_wrapped_upto_within(symbols, count - 1, max, trim);
        lemma_wrapped_one_within(
            wrapped_upto(symbols, count - 1, max, trim),
            symbols[count - 1],
            max,
            trim,
        );
    }
}

/// Of symbols that are one column wide each, no line of the wrapped text
/// is wider than the limit.
pub proof fn lemma_wrapped_width<'a>(symbols: Seq<StyledGrapheme<'a>>, max: int, trim: bool)
    requires
        narrow(symbols),
        0 <= max,
    ensures
        forall|i: int|
            0 <= i < wrapped(symbols, max, trim).len() ==> total(
                #[trigger] wrapped(symbols, max, trim)[i],
            ) <= max,
{
    let at = wrapped_upto(symbols, symbols.len() as int, max, trim);
    lemma_wrapped_upto_within(symbols, symbols.len() as int, max, trim);
    lemma_total_narrow(at.line);
    lemma_total_narrow(at.spaces);
    lemma_total_narrow(at.word);
    lemma_total_add(at.line, at.spaces);
    lemma_total_add(at.line + at.spaces, at.word);
    lemma_total_add(at.line, at.word);
    assert(total(Seq::<StyledGrapheme<'a>>::empty()) == 0);
}

/// The symbols of the lines, line after line.
pub open spec fn joined<'a>(lines: Seq<Seq<StyledGrapheme<'a>>>) -> Seq<StyledGrapheme<'a>>
    decreases lines.len(),
{
    if lines.len() == 0 {
        Seq::empty()
    } else {
        joined(lines.drop_last()) + lines.last()
    }
}

/// Whether `part` is what is left of `whole` after some of its elements
/// were taken out: the elements of `part` are elements of `whole`, in the
/// same order.
pub open spec fn left_of<T>(part: Seq<T>, whole: Seq<T>) -> bool
    decreases whole.len(),
{
    part.len() == 0 || (whole.len() > 0 && ((part.last() == whole.last() && left_of(
        part.drop_last(),
        whole.drop_last(),
    )) || left_of(part, whole.drop_last())))
}

/// What is left of a sequence is left of a longer one.
pub proof fn lemma_left_of_longer<T>(part: Seq<T>, whole: Seq<T>, x: T)
    requires
        left_of(part, whole),
    ensures
        left_of(part, whole.push(x)),
{
    assert(whole.push(x).drop_last() =~= whole);
}

/// What is left of a sequence, with one more element, is left of the
/// sequence with that element.
pub proof fn lemma_left_of_both<T>(part: Seq<T>, whole: Seq<T>, x: T)
    requires
        left_of(part, whole),
    ensures
        left_of(part.push(x), whole.push(x)),
{
    assert(whole.push(x).drop_last() =~= whole);
    assert(part.push(x).drop_last() =~= part);
}

/// What is left of a sequence is still left of it after a run was taken
/// out of its middle.
pub proof fn lemma_left_of_less<T>(a: Seq<T>, b: Seq<T>, c: Seq<T>, whole: Seq<T>)
    requires
        left_of(a + b + c, whole),
    ensures
        left_of(a + c, whole),
    decreases whole.len(), b.len(),
{
    let part = a + b + c;
    if b.len() == 0 {
        assert(a + b + c =~= a + c);
    } else if whole.len() == 0 {
        assert(part.len() > 0);
    } else if part.last() == whole.last() && left_of(part.drop_last(), whole.drop_last()) {
        if c.len() > 0 {
            assert(part.drop_last() =~= a + b + c.drop_last());
            lemma_left_of_less(a, b, c.drop_last(), whole.drop_last());
            lemma_left_of_both(a + c.drop_last(), whole.drop_last(), c.last());
            assert((a + c.drop_last()).push(c.last()) =~= a + c);
            assert(whole.drop_last().push(whole.last()) =~= whole);
        } else {
            assert(part.drop_last() =~= a + b.drop_last() + c);
            lemma_left_of_less(a, b.drop_last(), c, whole.drop_last());
            lemma_left_of_longer(a + c, whole.drop_last(), whole.last());
            assert(whole.drop_last().push(whole.last()) =~= whole);
        }
    } else {
        lemma_left_of_less(a, b, c, whole.drop_last());
        lemma_left_of_longer(a + c, whole.drop_last(), whole.last());
        assert(whole.drop_last().push(whole.last()) =~= whole);
    }
}

/// The whitespace that is left after a line was broken is the end of the
/// whitespace that there was.
pub proof fn lemma_dropped_end(spaces: Seq<StyledGrapheme<'_>>, remaining: int) -> (k: int)
    ensures
        0 <= k <= spaces.len(),
        dropped(spaces, remaining).0 == spaces.subrange(k, spaces.len() as int),
    decreases spaces.len(),
{
    if spaces.len() == 0 {
        assert(spaces =~= spaces.subrange(0, 0));
        0
    } else if sym_width(spaces[0]) > remaining {
        1
    } else {
        let rest = spaces.drop_first();
        let k = lemma_dropped_end(rest, remaining - sym_width(spaces[0]));
        assert(rest.subrange(k, rest.len() as int) =~= spaces.subrange(
            k + 1,
            spaces.len() as int,
        ));
        k + 1
    }
}

/// The symbols of a wrapping in their order: those of the lines that are
/// done, of the line that is being filled, and of what is gathered.
pub open spec fn held<'a>(at: Wrapping<'a>) -> Seq<StyledGrapheme<'a>> {
    joined(at.lines) + at.line + at.spaces + at.word
}

/// Whether a wrapping holds symbols of the text in the order of the text,
/// and gathers whitespace only before a word.
pub open spec fn in_order<'a>(at: Wrapping<'a>, text: Seq<StyledGrapheme<'a>>) -> bool {
    &&& left_of(held(at), text)
    &&& !at.seen ==> at.word.len() == 0
}

/// The next grapheme keeps a wrapping in the order of the text.
proof fn lemma_wrapped_one_in_order<'a>(
    at: Wrapping<'a>,
    text: Seq<StyledGrapheme<'a>>,
    next: StyledGrapheme<'a>,
    max: int,
    trim: bool,
)
    requires
        in_order(at, text),
    ensures
        in_order(wrapped_one(at, next, max, trim), text.push(next)),
{
    if sym_width(next) > max {
        lemma_left_of_longer(held(at), text, next);
    } else {
        let ended = if word_ends(at, next, max, trim) {
            flushed(at, trim)
        } else {
            at
        };
        assert(in_order(ended, text) && (sym_blank(next) ==> ended.word.len() == 0)) by {
            if word_ends(at, next, max, trim) {
                if at.line.len() > 0 || !trim {
                    assert(held(ended) =~= held(at));
                } else {
                    assert(held(at) =~= joined(at.lines) + at.spaces + at.word);
                    lemma_left_of_less(joined(at.lines), at.spaces, at.word, text);
                    assert(held(ended) =~= joined(at.lines) + at.word);
                }
            }
        }
        let turned = if line_full(ended, next, max) {
            broken(ended, max)
        } else {
            ended
        };
        assert(in_order(turned, text) && turned.word == ended.word) by {
            if line_full(ended, next, max) {
                let k = lemma_dropped_end(ended.spaces, room_left(ended, max));
                let before = joined(ended.lines) + ended.line;
                let gone = ended.spaces.subrange(0, k);
                let kept = ended.spaces.subrange(k, ended.spaces.len() as int);
                assert(ended.lines.push(ended.line).drop_last() =~= ended.lines);
                assert(joined(turned.lines) == before);
                assert(held(ended) =~= before + gone + (kept + ended.word));
                lemma_left_of_less(before, gone, kept + ended.word, text);
                assert(held(turned) =~= before + (kept + ended.word));
            }
        }
        if line_full(ended, next, max) && sym_blank(next) && dropped(
            ended.spaces,
            room_left(ended, max),
        ).1 {
            lemma_left_of_longer(held(turned), text, next);
        } else {
            assert(held(gathered(turned, next)) =~= held(turned).push(next));
            lemma_left_of_both(held(turned), text, next);
        }
    }
}

/// The wrapping of the first symbols holds symbols of them, in their order.
proof fn lemma_wrapped_upto_in_order<'a>(
    symbols: Seq<StyledGrapheme<'a>>,
    count: int,
    max: int,
    trim: bool,
)
    requires
        0 <= count <= symbols.len(),
    ensures
        in_order(wrapped_upto(symbols, count, max, trim), symbols.take(count)),
    decreases count,
{
    if count > 0 {
        lemma_wrapped_upto_in_order(symbols, count - 1, max, trim);
        lemma_wrapped_one_in_order(
            wrapped_upto(symbols, count - 1, max, trim),
            symbols.take(count - 1),
            symbols[count - 1],
            max,
            trim,
        );
        assert(symbols.take(count - 1).push(symbols[count - 1]) =~= symbols.take(count));
    } else {
        assert(joined(Seq::<Seq<StyledGrapheme<'a>>>::empty()) =~= Seq::empty());
    }
}

/// The lines of the wrapped text hold, line after line, symbols of the
/// text in the order of the text: wrapping leaves symbols out, and neither
/// adds one nor moves one.
pub proof fn lemma_wrapped_order<'a>(symbols: Seq<StyledGrapheme<'a>>, max: int, trim: bool)
    ensures
        left_of(joined(wrapped(symbols, max, trim)), symbols),
{
    let at = wrapped_upto(symbols, symbols.len() as int, max, trim);
    lemma_wrapped_upto_in_order(symbols, symbols.len() as int, max, trim);
    assert(symbols.take(symbols.len() as int) =~= symbols);
    let lines = finished(at, trim);
    let empty = Seq::<StyledGrapheme<'a>>::empty();
    assert(joined(seq![empty]) =~= empty) by {
        let none = Seq::<Seq<StyledGrapheme<'a>>>::empty();
        assert(seq![empty] =~= none.push(empty));
        assert(none.push(empty).drop_last() =~= none);
        assert(joined(none) =~= empty);
        assert(none.push(empty).last() == empty);
    }
    assert(joined(at.lines.push(empty)) =~= joined(at.lines)) by {
        assert(at.lines.push(empty).drop_last() =~= at.lines);
    }
    let line = if at.word.len() > 0 || at.spaces.len() > 0 {
        if at.line.len() == 0 && at.word.len() == 0 {
            at.line
        } else if !trim || at.line.len() > 0 {
            at.line + at.spaces + at.word
        } else {
            at.line + at.word
        }
    } else {
        at.line
    };
    let before = if (at.word.len() > 0 || at.spaces.len() > 0) && at.line.len() == 0
        && at.word.len() == 0 {
        at.lines.push(empty)
    } else {
        at.lines
    };
    assert(joined(before.push(line)) =~= joined(before) + line) by {
        assert(before.push(line).drop_last() =~= before);
    }
    assert(left_of(joined(at.lines) + line, symbols)) by {
        if line == at.line + at.spaces + at.word {
            assert(joined(at.lines) + line =~= held(at));
        } else if line == at.line + at.word {
            assert(held(at) =~= joined(at.lines) + at.line + at.spaces + at.word);
            lemma_left_of_less(joined(at.lines) + at.line, at.spaces, at.word, symbols);
            assert(joined(at.lines) + line =~= joined(at.lines) + at.line + at.word);
        } else {
            assert(held(at) =~= joined(at.lines) + at.line + (at.spaces + at.word) + empty);
            lemma_left_of_less(joined(at.lines) + at.line, at.spaces + at.word, empty, symbols);
            assert(joined(at.lines) + line =~= joined(at.lines) + at.line + empty);
        }
    }
    assert(left_of(joined(at.lines), symbols)) by {
        assert(held(at) =~= joined(at.lines) + (at.line + at.spaces + at.word) + empty);
        lemma_left_of_less(joined(at.lines), at.line + at.spaces + at.word, empty, symbols);
        assert(joined(at.lines) + empty =~= joined(at.lines));
    }
    assert(joined(at.lines) + empty =~= joined(at.lines));
}

} // verus!
