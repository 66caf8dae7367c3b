//! Packing styled symbols into lines.
//!
//! A line of symbols that is wider than the room for it is wrapped on word
//! boundaries: words are kept whole where they fit into a line, and the
//! whitespace at which a line is broken is dropped.

pub mod laws;

use vstd::prelude::*;
use vstd::string::StrSliceExecFns;
use tui::layout::Alignment;
use tui::text::StyledGrapheme;
use crate::surface::{display_width, width_of};

verus! {

/// `tui::layout::Alignment`: where a line stands in its row. Nothing is
/// known of it.
#[verifier::external_type_specification]
#[verifier::external_body]
pub struct ExAlignment(Alignment);

/// `tui::text::StyledGrapheme`: a symbol in a style. Nothing is known of
/// it but its symbol.
#[verifier::external_type_specification]
#[verifier::external_body]
pub struct ExStyledGrapheme<'a>(StyledGrapheme<'a>);

/// The symbol of a styled grapheme.
pub uninterp spec fn grapheme_symbol(grapheme: StyledGrapheme<'_>) -> Seq<char>;

/// Whether a character is whitespace.
pub uninterp spec fn white_space(c: char) -> bool;

/// The field `symbol` of a `StyledGrapheme`.
#[verifier::external_body]
pub(crate) fn symbol_of<'a>(grapheme: &StyledGrapheme<'a>) -> (r: &'a str)
    ensures
        r@ == grapheme_symbol(*grapheme),
{
    grapheme.symbol
}

/// `Clone::clone` of a `StyledGrapheme`: the same symbol in the same style.
pub assume_specification<'a>[ <StyledGrapheme<'a> as Clone>::clone ](
    grapheme: &StyledGrapheme<'a>,
) -> (r: StyledGrapheme<'a>)
    ensures
        r == *grapheme,
;

/// `char::is_whitespace`: whether the character is whitespace.
#[verifier::external_body]
pub(crate) fn is_whitespace(c: char) -> (r: bool)
    ensures
        r == white_space(c),
{
    c.is_whitespace()
}

/// `Alignment::Left`: the alignment to the left.
#[verifier::external_body]
pub(crate) fn left_alignment() -> Alignment {
    Alignment::Left
}

/// Whether a symbol is whitespace at which a line may be broken: all its
/// characters are whitespace, and it is not the no-break space.
pub open spec fn blank(symbol: Seq<char>) -> bool {
    &&& forall|i: int| 0 <= i < symbol.len() ==> white_space(#[trigger] symbol[i])
    &&& symbol != seq!['\u{00a0}']
}

/// The width of a grapheme in columns, as `u16`.
pub open spec fn sym_width(grapheme: StyledGrapheme<'_>) -> int {
    (display_width(grapheme_symbol(grapheme)) % 0x1_0000) as int
}

/// Whether a grapheme is whitespace at which a line may be broken.
pub open spec fn sym_blank(grapheme: StyledGrapheme<'_>) -> bool {
    blank(grapheme_symbol(grapheme))
}

/// The width of a run of graphemes.
pub open spec fn total(run: Seq<StyledGrapheme<'_>>) -> int
    decreases run.len(),
{
    if run.len() == 0 {
        0
    } else {
        total(run.drop_last()) + sym_width(run.last())
    }
}

/// The width of two runs is the sum of their widths.
pub proof fn lemma_total_add(a: Seq<StyledGrapheme<'_>>, b: Seq<StyledGrapheme<'_>>)
    ensures
        total(a + b) == total(a) + total(b),
    decreases b.len(),
{
    if b.len() == 0 {
        assert(a + b =~= a);
    } else {
        lemma_total_add(a, b.drop_last());
        assert((a + b).drop_last() =~= a + b.drop_last());
        assert((a + b).last() == b.last());
    }
}

/// The width of a run is that of its first grapheme and of the rest.
pub proof fn lemma_total_front(run: Seq<StyledGrapheme<'_>>)
    requires
        run.len() > 0,
    ensures
        total(run) == sym_width(run[0]) + total(run.drop_first()),
{
    assert(run =~= seq![run[0]] + run.drop_first());
    lemma_total_add(seq![run[0]], run.drop_first());
    assert(seq![run[0]].drop_last() =~= Seq::empty());
    assert(total(seq![run[0]].drop_last()) == 0);
    assert(seq![run[0]].last() == run[0]);
    assert(total(seq![run[0]]) == sym_width(run[0]));
}

/// The width of a run is within what its graphemes can take.
pub proof fn lemma_total_bounds(run: Seq<StyledGrapheme<'_>>)
    ensures
        0 <= total(run) <= run.len() * 0xffff,
    decreases run.len(),
{
    if run.len() > 0 {
        lemma_total_bounds(run.drop_last());
    }
}

/// How far a line of symbols is wrapped: the lines that are done, the line
/// that is being filled, the word and the whitespace before it that are
/// not yet put into a line, and whether the last symbol taken belongs to a
/// word.
pub struct Wrapping<'a> {
    pub lines: Seq<Seq<StyledGrapheme<'a>>>,
    pub line: Seq<StyledGrapheme<'a>>,
    pub word: Seq<StyledGrapheme<'a>>,
    pub spaces: Seq<StyledGrapheme<'a>>,
    pub seen: bool,
}

/// Whether the word that is gathered ends before the next grapheme: at
/// whitespace after a word, and where the line is empty and the grapheme
/// would make what is gathered wider than a line.
pub open spec fn word_ends(at: Wrapping<'_>, next: StyledGrapheme<'_>, max: int, trim: bool) -> bool {
    ||| at.seen && sym_blank(next)
    ||| total(at.word) + sym_width(next) > max && at.line.len() == 0 && trim
    ||| total(at.spaces) + sym_width(next) > max && at.line.len() == 0 && trim
    ||| total(at.word) + total(at.spaces) + sym_width(next) > max && at.line.len() == 0 && !trim
}

/// The word put into the line, with the whitespace before it unless that
/// would begin a line and is to be trimmed.
pub open spec fn flushed<'a>(at: Wrapping<'a>, trim: bool) -> Wrapping<'a> {
    Wrapping {
        line: if at.line.len() > 0 || !trim {
            at.line + at.spaces + at.word
        } else {
            at.line + at.word
        },
        word: Seq::empty(),
        spaces: Seq::empty(),
        ..at
    }
}

/// Whether the line is full before the next grapheme: it is as wide as a
/// line may be, or would be with what is gathered.
pub open spec fn line_full(at: Wrapping<'_>, next: StyledGrapheme<'_>, max: int) -> bool {
    ||| total(at.line) >= max
    ||| total(at.line) + total(at.spaces) + total(at.word) >= max && sym_width(next) > 0
}

/// The whitespace left after a line was broken: what fits into the rest of
/// the broken line is dropped, and one more. Tells also whether all of it
/// was dropped with room to spare.
pub open spec fn dropped<'a>(spaces: Seq<StyledGrapheme<'a>>, remaining: int) -> (
    Seq<StyledGrapheme<'a>>,
    bool,
)
    decreases spaces.len(),
{
    if spaces.len() == 0 {
        (spaces, true)
    } else if sym_width(spaces[0]) > remaining {
        (spaces.drop_first(), false)
    } else {
        dropped(spaces.drop_first(), remaining - sym_width(spaces[0]))
    }
}

/// The line broken off.
pub open spec fn broken<'a>(at: Wrapping<'a>, max: int) -> Wrapping<'a> {
    Wrapping {
        lines: at.lines.push(at.line),
        line: Seq::empty(),
        spaces: dropped(at.spaces, room_left(at, max)).0,
        ..at
    }
}

/// The columns that the line leaves free.
pub open spec fn room_left(at: Wrapping<'_>, max: int) -> int {
    if max > total(at.line) {
        max - total(at.line)
    } else {
        0
    }
}

/// The grapheme gathered: into the whitespace or into the word.
pub open spec fn gathered<'a>(at: Wrapping<'a>, next: StyledGrapheme<'a>) -> Wrapping<'a> {
    if sym_blank(next) {
        Wrapping { spaces: at.spaces.push(next), seen: false, ..at }
    } else {
        Wrapping { word: at.word.push(next), seen: true, ..at }
    }
}

/// The wrapping after the next grapheme. A grapheme wider than a line is
/// passed over. Whitespace at which a line was just broken is dropped.
pub open spec fn wrapped_one<'a>(
    at: Wrapping<'a>,
    next: StyledGrapheme<'a>,
    max: int,
    trim: bool,
) -> Wrapping<'a> {
    if sym_width(next) > max {
        at
    } else {
        let ended = if word_ends(at, next, max, trim) {
            flushed(at, trim)
        } else {
            at
        };
        if line_full(ended, next, max) {
            if sym_blank(next) && dropped(ended.spaces, room_left(ended, max)).1 {
                broken(ended, max)
            } else {
                gathered(broken(ended, max), next)
            }
        } else {
            gathered(ended, next)
        }
    }
}

/// The wrapping after the first `count` graphemes.
pub open spec fn wrapped_upto<'a>(
    symbols: Seq<StyledGrapheme<'a>>,
    count: int,
    max: int,
    trim: bool,
) -> Wrapping<'a>
    decreases count,
{
    if count <= 0 {
        Wrapping {
            lines: Seq::empty(),
            line: Seq::empty(),
            word: Seq::empty(),
            spaces: Seq::empty(),
            seen: false,
        }
    } else {
        wrapped_one(wrapped_upto(symbols, count - 1, max, trim), symbols[count - 1], max, trim)
    }
}

/// The lines of a wrapping after its last grapheme: what is gathered goes
/// into the last line. There is always a line.
pub open spec fn finished<'a>(at: Wrapping<'a>, trim: bool) -> Seq<Seq<StyledGrapheme<'a>>> {
    let lines = if (at.word.len() > 0 || at.spaces.len() > 0) && at.line.len() == 0
        && at.word.len() == 0 {
        at.lines.push(Seq::empty())
    } else {
        at.lines
    };
    let line = if at.word.len() > 0 || at.spaces.len() > 0 {
        if at.line.len() == 0 && at.word.len() == 0 {
            at.line
        } else if !trim || at.line.len() > 0 {
            at.line + at.spaces + at.word
        } else {
            at.line + at.word
        }
    } else {
        at.line
    };
    let all = if line.len() > 0 {
        lines.push(line)
    } else {
        lines
    };
    if all.len() == 0 {
        seq![Seq::empty()]
    } else {
        all
    }
}

/// The lines that a line of symbols is wrapped into, for lines of `max`
/// columns: the symbols are taken one by one, from the state without lines,
/// and what is gathered in the end makes the last line. With `trim`, the
/// whitespace that would begin a line is left out.
pub open spec fn wrapped<'a>(symbols: Seq<StyledGrapheme<'a>>, max: int, trim: bool) -> Seq<
    Seq<StyledGrapheme<'a>>,
> {
    finished(wrapped_upto(symbols, symbols.len() as int, max, trim), trim)
}

/// The views of a list of lines, in order.
pub open spec fn line_views<'a>(lines: Seq<Vec<StyledGrapheme<'a>>>) -> Seq<
    Seq<StyledGrapheme<'a>>,
> {
    Seq::new(lines.len(), |i: int| lines[i]@)
}

/// Whether the symbol is whitespace at which a line may be broken.
pub fn is_blank(symbol: &str) -> (r: bool)
    ensures
        r == blank(symbol@),
{
    let len = symbol.unicode_len();
    let mut i: usize = 0;
    while i < len
        invariant
            len == symbol@.len(),
            i <= len,
            forall|j: int| 0 <= j < i ==> white_space(#[trigger] symbol@[j]),
        decreases len - i,
    {
        if !is_whitespace(symbol.get_char(i)) {
            return false;
        }
        i += 1;
    }
    if len == 1 && symbol.get_char(0) == '\u{00a0}' {
        assert(symbol@ =~= seq!['\u{00a0}']);
        false
    } else {
        assert(symbol@ != seq!['\u{00a0}']) by {
            if symbol@ == seq!['\u{00a0}'] {
                assert(seq!['\u{00a0}'].len() == 1);
                assert(seq!['\u{00a0}'][0] == '\u{00a0}');
            }
        }
        true
    }
}

/// The width of the grapheme in columns, as `u16`.
fn width_of_grapheme(grapheme: &StyledGrapheme<'_>) -> (r: u16)
    ensures
        r == sym_width(*grapheme),
{
    (width_of(symbol_of(grapheme)) % 0x1_0000) as u16
}

/// Drops the whitespace at which a line was broken. Returns whether all of
/// it was dropped with room to spare.
fn drop_spaces<'a>(
    spaces: &mut Vec<StyledGrapheme<'a>>,
    whitespace_width: &mut u128,
    remaining_width: u16,
) -> (r: bool)
    requires
        *old(whitespace_width) == total(old(spaces)@),
    ensures
        (final(spaces)@, r) == dropped(old(spaces)@, remaining_width as int),
        *final(whitespace_width) == total(final(spaces)@),
{
    let mut remaining = remaining_width;
    let mut exhausted = true;
    let mut running = true;
    while running && spaces.len() > 0
        invariant
            *whitespace_width == total(spaces@),
            running ==> exhausted && dropped(old(spaces)@, remaining_width as int) == dropped(
                spaces@,
                remaining as int,
            ),
            !running ==> !exhausted && dropped(old(spaces)@, remaining_width as int) == (
                spaces@,
                false,
            ),
        decreases spaces@.len() + if running { 1int } else { 0int },
    {
        proof {
            lemma_total_front(spaces@);
            lemma_total_bounds(spaces@.drop_first());
        }
        let first = spaces.remove(0);
        assert(spaces@ =~= old(spaces)@.subrange(0, 0) + spaces@);
        let symbol_width = width_of_grapheme(&first);
        *whitespace_width = *whitespace_width - symbol_width as u128;
        if symbol_width > remaining {
            running = false;
            exhausted = false;
        } else {
            remaining = remaining - symbol_width;
        }
    }
    exhausted
}

/// The width of the run in columns.
fn width_of_run(run: &Vec<StyledGrapheme<'_>>) -> (r: u128)
    ensures
        r == total(run@),
{
    let mut width: u128 = 0;
    let mut i: usize = 0;
    while i < run.len()
        invariant
            i <= run@.len(),
            width == total(run@.take(i as int)),
        decreases run@.len() - i,
    {
        proof {
            lemma_total_bounds(run@.take(i as int));
            assert(run@.take(i + 1).drop_last() =~= run@.take(i as int));
            assert(run@.take(i + 1).last() == run@[i as int]);
        }
        width = width + width_of_grapheme(&run[i]) as u128;
        i += 1;
    }
    assert(run@.take(i as int) =~= run@);
    width
}

/// The lines that the symbols of a line are wrapped into.
pub fn wrap<'a>(symbols: &Vec<StyledGrapheme<'a>>, max_line_width: u16, trim: bool) -> (r: Vec<
    Vec<StyledGrapheme<'a>>,
>)
    ensures
        line_views(r@) == wrapped(symbols@, max_line_width as int, trim),
        r@.len() > 0,
{
    let max = max_line_width as u128;
    // Saves the wrapped lines
    let mut wrapped_lines: Vec<Vec<StyledGrapheme<'a>>> = Vec::new();
    // Saves the unfinished wrapped line
    let mut current_line: Vec<StyledGrapheme<'a>> = Vec::new();
    let mut current_line_width: u128 = 0;
    // Saves the partially processed word
    let mut unfinished_word: Vec<StyledGrapheme<'a>> = Vec::new();
    let mut word_width: u128 = 0;
    // Saves the whitespaces of the partially unfinished word
    let mut unfinished_whitespaces: Vec<StyledGrapheme<'a>> = Vec::new();
    let mut whitespace_width: u128 = 0;

    let mut has_seen_non_whitespace = false;
    let mut i: usize = 0;
    assert(line_views(wrapped_lines@) =~= Seq::empty());
    while i < symbols.len()
        invariant
            max == max_line_width,
            i <= symbols@.len(),
            current_line_width == total(current_line@),
            word_width == total(unfinished_word@),
            whitespace_width == total(unfinished_whitespaces@),
            wrapped_upto(symbols@, i as int, max as int, trim) == (Wrapping {
                lines: line_views(wrapped_lines@),
                line: current_line@,
                word: unfinished_word@,
                spaces: unfinished_whitespaces@,
                seen: has_seen_non_whitespace,
            }),
        decreases symbols@.len() - i,
    {
        let grapheme = symbols[i].clone();
        let symbol_whitespace = is_blank(symbol_of(&grapheme));
        let symbol_width = width_of_grapheme(&grapheme);
        let ghost at = wrapped_upto(symbols@, i as int, max as int, trim);
        proof {
            lemma_total_bounds(current_line@);
            lemma_total_bounds(unfinished_word@);
            lemma_total_bounds(unfinished_whitespaces@);
            assert(current_line.len() <= usize::MAX);
            assert(unfinished_word.len() <= usize::MAX);
            assert(unfinished_whitespaces.len() <= usize::MAX);
            assert(word_width <= 0xffff_ffff_ffff_ffff * 0xffff);
            assert(whitespace_width <= 0xffff_ffff_ffff_ffff * 0xffff);
            assert(current_line_width <= 0xffff_ffff_ffff_ffff * 0xffff);
        }
        // Ignore characters wider than the total max width
        if symbol_width <= max_line_width {
            let width = symbol_width as u128;
            // Append finished word to current line
            if has_seen_non_whitespace && symbol_whitespace
                // Append if trimmed (whitespaces removed) word would overflow
                || word_width + width > max && current_line.len() == 0 && trim
                // Append if removed whitespace would overflow -> reset whitespace counting to prevent overflow
                || whitespace_width + width > max && current_line.len() == 0 && trim
                // Append if complete word would overflow
                || word_width + whitespace_width + width > max && current_line.len() == 0 && !trim {
                assert(word_ends(at, grapheme, max as int, trim));
                if current_line.len() > 0 || !trim {
                    // Also append whitespaces if not trimming or current line is not
                    // empty
                    proof {
                        lemma_total_add(current_line@, unfinished_whitespaces@);
                    }
                    current_line.append(&mut unfinished_whitespaces);
                    current_line_width = current_line_width + whitespace_width;
                }
                // Append trimmed word
                proof {
                    lemma_total_add(current_line@, unfinished_word@);
                }
                current_line.append(&mut unfinished_word);
                current_line_width = current_line_width + word_width;

                // Clear whitespace buffer
                unfinished_whitespaces.clear();
                whitespace_width = 0;
                word_width = 0;
                assert(flushed(at, trim) == (Wrapping {
                    lines: line_views(wrapped_lines@),
                    line: current_line@,
                    word: unfinished_word@,
                    spaces: unfinished_whitespaces@,
                    seen: has_seen_non_whitespace,
                }));
            } else {
                assert(!word_ends(at, grapheme, max as int, trim));
            }
            let ghost ended = if word_ends(at, grapheme, max as int, trim) {
                flushed(at, trim)
            } else {
                at
            };
            proof {
                lemma_total_bounds(current_line@);
                lemma_total_bounds(unfinished_word@);
                lemma_total_bounds(unfinished_whitespaces@);
                assert(current_line.len() <= usize::MAX);
                assert(unfinished_word.len() <= usize::MAX);
                assert(unfinished_whitespaces.len() <= usize::MAX);
                assert(word_width <= 0xffff_ffff_ffff_ffff * 0xffff);
                assert(whitespace_width <= 0xffff_ffff_ffff_ffff * 0xffff);
                assert(current_line_width <= 0xffff_ffff_ffff_ffff * 0xffff);
            }

            let mut skip = false;
            // Append the unfinished wrapped line to wrapped lines if it is as wide as
            // max line width
            if current_line_width >= max
                // or if it would be too long with the current partially processed word added
                || current_line_width + whitespace_width + word_width >= max && symbol_width > 0 {
                assert(line_full(ended, grapheme, max as int));
                let remaining_width: u16 = if max > current_line_width {
                    (max - current_line_width) as u16
                } else {
                    0
                };
                assert(remaining_width == room_left(ended, max as int));
                let ghost lines_before = wrapped_lines@;
                let mut line: Vec<StyledGrapheme<'a>> = Vec::new();
                core::mem::swap(&mut line, &mut current_line);
                wrapped_lines.push(line);
                current_line_width = 0;
                assert(line_views(wrapped_lines@) =~= line_views(lines_before).push(ended.line));

                // Remove all whitespaces till end of just appended wrapped line + next
                // whitespace
                let exhausted = drop_spaces(
                    &mut unfinished_whitespaces,
                    &mut whitespace_width,
                    remaining_width,
                );
                // In case all whitespaces have been exhausted
                if symbol_whitespace && exhausted {
                    // Prevent first whitespace to count towards next word
                    skip = true;
                }
                assert(broken(ended, max as int) == (Wrapping {
                    lines: line_views(wrapped_lines@),
                    line: current_line@,
                    word: unfinished_word@,
                    spaces: unfinished_whitespaces@,
                    seen: has_seen_non_whitespace,
                }));
            } else {
                assert(!line_full(ended, grapheme, max as int));
            }
            if !skip {
                proof {
                    lemma_total_bounds(unfinished_word@);
                    lemma_total_bounds(unfinished_whitespaces@);
                    assert(unfinished_word.len() <= usize::MAX);
                    assert(unfinished_whitespaces.len() <= usize::MAX);
                    assert(word_width <= 0xffff_ffff_ffff_ffff * 0xffff);
                    assert(whitespace_width <= 0xffff_ffff_ffff_ffff * 0xffff);
                }
                // Append symbol to unfinished, partially processed word
                if symbol_whitespace {
                    whitespace_width = whitespace_width + width;
                    proof {
                        assert(unfinished_whitespaces@.push(grapheme).drop_last()
                            =~= unfinished_whitespaces@);
                    }
                    unfinished_whitespaces.push(grapheme);
                } else {
                    word_width = word_width + width;
                    proof {
                        assert(unfinished_word@.push(grapheme).drop_last() =~= unfinished_word@);
                    }
                    unfinished_word.push(grapheme);
                }
                has_seen_non_whitespace = !symbol_whitespace;
            }
        }
        i += 1;
    }
    let ghost at = wrapped_upto(symbols@, symbols@.len() as int, max as int, trim);
    let ghost lines_before = wrapped_lines@;

    // Append remaining text parts
    if unfinished_word.len() > 0 || unfinished_whitespaces.len() > 0 {
        if current_line.len() == 0 && unfinished_word.len() == 0 {
            wrapped_lines.push(Vec::new());
            assert(line_views(wrapped_lines@) =~= line_views(lines_before).push(Seq::empty()));
        } else if !trim || current_line.len() > 0 {
            current_line.append(&mut unfinished_whitespaces);
        }
        current_line.append(&mut unfinished_word);
    }
    let ghost lines_between = wrapped_lines@;
    let ghost last = current_line@;
    if current_line.len() > 0 {
        wrapped_lines.push(current_line);
        assert(line_views(wrapped_lines@) =~= line_views(lines_between).push(last));
    }
    if wrapped_lines.len() == 0 {
        // Append empty line if there was nothing to wrap in the first place
        wrapped_lines.push(Vec::new());
        assert(line_views(wrapped_lines@) =~= seq![Seq::empty()]);
    }
    wrapped_lines
}

/// The lines with the alignment of the line that they were wrapped from.
pub open spec fn aligned<'a>(lines: Seq<Seq<StyledGrapheme<'a>>>, alignment: Alignment) -> Seq<
    (Seq<StyledGrapheme<'a>>, Alignment),
> {
    Seq::new(lines.len(), |i: int| (lines[i], alignment))
}

/// The lines that the input lines from index `from` on are wrapped into.
pub open spec fn wrapped_later<'a>(
    input: Seq<(Vec<StyledGrapheme<'a>>, Alignment)>,
    from: int,
    max: int,
    trim: bool,
) -> Seq<(Seq<StyledGrapheme<'a>>, Alignment)>
    decreases input.len() - from,
{
    if from < 0 || from >= input.len() {
        Seq::empty()
    } else {
        aligned(wrapped(input[from].0@, max, trim), input[from].1) + wrapped_later(
            input,
            from + 1,
            max,
            trim,
        )
    }
}

/// A state machine to pack styled symbols into lines.
pub trait LineComposer<'a> {
    /// The next line with its width and its alignment; none when all lines
    /// were given.
    fn next_line(&mut self) -> Option<(&[StyledGrapheme<'a>], u16, Alignment)>;
}

/// A state machine that wraps lines on word boundaries.
pub struct WordWrapper<'a> {
    /// The given, unprocessed lines
    input_lines: Vec<(Vec<StyledGrapheme<'a>>, Alignment)>,
    next_input: usize,
    max_line_width: u16,
    wrapped_lines: Vec<Vec<StyledGrapheme<'a>>>,
    next_wrapped: usize,
    current_alignment: Alignment,
    current_line: Vec<StyledGrapheme<'a>>,
    /// Removes the leading whitespace from lines
    trim: bool,
}

impl<'a> WordWrapper<'a> {
    /// Whether the wrapper is well formed: it is within its lines. Every
    /// function that makes or changes a wrapper keeps it so.
    pub closed spec fn wf(&self) -> bool {
        &&& self.next_input <= self.input_lines@.len()
        &&& self.next_wrapped <= self.wrapped_lines@.len()
    }

    /// The widest that a line may be.
    pub closed spec fn max_width(&self) -> u16 {
        self.max_line_width
    }

    /// The lines that are still to come, each with its alignment.
    pub closed spec fn pending(&self) -> Seq<(Seq<StyledGrapheme<'a>>, Alignment)> {
        aligned(
            line_views(self.wrapped_lines@).skip(self.next_wrapped as int),
            self.current_alignment,
        ) + wrapped_later(
            self.input_lines@,
            self.next_input as int,
            self.max_line_width as int,
            self.trim,
        )
    }

    /// A wrapper of the lines, each given as its symbols and its alignment,
    /// into lines for `max_line_width` columns. With `trim`, the whitespace
    /// that would begin a line is left out.
    pub fn new(
        lines: Vec<(Vec<StyledGrapheme<'a>>, Alignment)>,
        max_line_width: u16,
        trim: bool,
    ) -> (r: WordWrapper<'a>)
        ensures
            r.wf(),
            r.max_width() == max_line_width,
            r.pending() == wrapped_later(lines@, 0, max_line_width as int, trim),
    {
        let r = WordWrapper {
            input_lines: lines,
            next_input: 0,
            max_line_width,
            wrapped_lines: Vec::new(),
            next_wrapped: 0,
            current_alignment: left_alignment(),
            current_line: Vec::new(),
            trim,
        };
        assert(line_views(r.wrapped_lines@).skip(0) =~= Seq::empty());
        assert(aligned(Seq::<Seq<StyledGrapheme<'a>>>::empty(), r.current_alignment)
            =~= Seq::empty());
        assert(r.pending() =~= wrapped_later(lines@, 0, max_line_width as int, trim));
        r
    }
}

impl<'a> LineComposer<'a> for WordWrapper<'a> {
    fn next_line(&mut self) -> (r: Option<(&[StyledGrapheme<'a>], u16, Alignment)>)
        ensures
            old(self).wf() ==> final(self).wf(),
            final(self).max_width() == old(self).max_width(),
            old(self).wf() ==> match r {
                Some((line, width, alignment)) => {
                    &&& old(self).max_width() > 0
                    &&& old(self).pending().len() > 0
                    &&& line@ == old(self).pending()[0].0
                    &&& alignment == old(self).pending()[0].1
                    &&& width == total(line@) % 0x1_0000
                    &&& final(self).pending() == old(self).pending().drop_first()
                },
                None => {
                    &&& old(self).max_width() == 0 || old(self).pending().len() == 0
                    &&& final(self).pending() == old(self).pending()
                },
            },
    {
        if self.max_line_width == 0 {
            return None;
        }
        if self.next_wrapped > self.wrapped_lines.len() || self.next_input
            > self.input_lines.len() {
            return None;
        }
        // When no more preprocessed wrapped lines
        if self.next_wrapped == self.wrapped_lines.len() {
            // Try to calculate next wrapped lines based on current whole line
            if self.next_input < self.input_lines.len() {
                // Save the whole line's alignment
                self.current_alignment = self.input_lines[self.next_input].1;
                self.wrapped_lines = wrap(
                    &self.input_lines[self.next_input].0,
                    self.max_line_width,
                    self.trim,
                );
                self.next_wrapped = 0;
                self.next_input = self.next_input + 1;
                proof {
                    assert(line_views(old(self).wrapped_lines@).skip(
                        old(self).next_wrapped as int,
                    ) =~= Seq::empty());
                    assert(aligned(
                        Seq::<Seq<StyledGrapheme<'a>>>::empty(),
                        old(self).current_alignment,
                    ) =~= Seq::empty());
                    assert(line_views(self.wrapped_lines@).skip(0) =~= line_views(
                        self.wrapped_lines@,
                    ));
                    assert(self.pending() =~= old(self).pending());
                }
            } else {
                // No more whole lines available
                proof {
                    assert(line_views(self.wrapped_lines@).skip(self.next_wrapped as int)
                        =~= Seq::empty());
                    assert(self.pending() =~= Seq::empty());
                }
                return None;
            }
        }
        let ghost before = self.pending();
        // Retrieve next preprocessed wrapped line
        let line = self.wrapped_lines[self.next_wrapped].clone();
        let line_width = (width_of_run(&line) % 0x1_0000) as u16;
        self.next_wrapped = self.next_wrapped + 1;
        self.current_line = line;
        proof {
            let rest = line_views(self.wrapped_lines@);
            assert(rest.skip(self.next_wrapped - 1)[0] == self.current_line@);
            assert(rest.skip(self.next_wrapped - 1).drop_first() =~= rest.skip(
                self.next_wrapped as int,
            ));
            assert(self.pending() =~= before.drop_first());
        }
        Some((self.current_line.as_slice(), line_width, self.current_alignment))
    }
}

} // verus!
