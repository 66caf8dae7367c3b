//! Composing the text of items: each paragraph wrapped to the width that
//! the item has, and brought to the height that the paragraph may take.

use vstd::prelude::*;
use vstd::string::StringExecFns;
use tui::layout::{Alignment, Constraint};
use tui::style::Style;
use tui::text::StyledGrapheme;
use crate::reflow::{
    aligned, left_alignment, line_views, wrapped, wrapped_later, LineComposer, WordWrapper,
};

verus! {

/// `tui::layout::Constraint`: a height as lines or as a share. What it
/// holds is known through [`constraint_limit`] only.
#[verifier::external_type_specification]
#[verifier::external_body]
pub struct ExConstraint(Constraint);

/// What a constraint of `tui` holds.
#[derive(Debug, Clone, Copy, PartialEq, Eq, Structural)]
pub enum Limit {
    Percentage(u16),
    Ratio(u32, u32),
    Length(u16),
    Max(u16),
    Min(u16),
}

/// What a constraint holds.
pub uninterp spec fn constraint_limit(constraint: Constraint) -> Limit;

/// The variants of `Constraint`: what the constraint holds.
#[verifier::external_body]
pub(crate) fn limit_of(constraint: Constraint) -> (r: Limit)
    ensures
        r == constraint_limit(constraint),
{
    match constraint {
        Constraint::Percentage(percentage) => Limit::Percentage(percentage),
        Constraint::Ratio(numerator, denominator) => Limit::Ratio(numerator, denominator),
        Constraint::Length(length) => Limit::Length(length),
        Constraint::Max(length) => Limit::Max(length),
        Constraint::Min(length) => Limit::Min(length),
    }
}

/// Why a paragraph cannot be composed.
#[derive(Debug)]
pub enum ComposeError {
    /// The height is given as a share of something, not as a number of
    /// lines.
    Constraint(Constraint),
}

/// A constraint as it is written for debugging.
pub uninterp spec fn debug_text(constraint: Constraint) -> Seq<char>;

/// `format!` with the `Debug` form of a constraint: the constraint as it is
/// written for debugging, which goes by the constraint alone.
#[verifier::external_body]
fn debug_of(constraint: &Constraint) -> (r: String)
    ensures
        r@ == debug_text(*constraint),
{
    format!("{:?}", constraint)
}

impl ComposeError {
    /// The constraint that the error is about.
    pub open spec fn constraint(self) -> Constraint {
        match self {
            ComposeError::Constraint(constraint) => constraint,
        }
    }

    /// The error as text: that the constraint is invalid, and the
    /// constraint as it is written for debugging.
    pub fn to_string(&self) -> (r: String)
        ensures
            r@ == "Invalid constraint given: "@ + debug_text(self.constraint()),
    {
        match self {
            ComposeError::Constraint(constraint) => {
                let mut text = "Invalid constraint given: ".to_owned();
                text.append(debug_of(constraint).as_str());
                text
            },
        }
    }
}

/// What is done to the lines of a paragraph to give it its height.
#[derive(Debug, Clone, Copy, PartialEq, Eq, Structural)]
pub enum ComposeMode {
    /// The lines are as many as the height: so many are taken.
    Fit(usize),
    /// The lines are fewer than the height: so many are taken, and so many
    /// empty lines are added.
    Fill(usize, usize),
    /// The lines are more than the height: so many are taken, and a line
    /// with the truncation symbol is added.
    Truncate(usize),
}

/// The number of lines as `u16`, as a cast makes it.
pub open spec fn short(len: usize) -> u16 {
    (len % 0x1_0000) as u16
}

/// The height that a paragraph of so many lines gets under the limit; none
/// for a limit that is a share.
pub open spec fn height_under(len: usize, limit: Limit) -> Option<usize> {
    match limit {
        Limit::Length(height) => Some(height as usize),
        Limit::Min(height) => Some(
            if short(len) >= height {
                short(len) as usize
            } else {
                height as usize
            },
        ),
        Limit::Max(height) => Some(
            if short(len) <= height {
                short(len) as usize
            } else {
                height as usize
            },
        ),
        _ => None,
    }
}

/// What is done to so many lines to give them the height.
pub open spec fn mode_for(len: usize, height: usize) -> ComposeMode {
    if len == height {
        ComposeMode::Fit(height)
    } else if len < height {
        ComposeMode::Fill(height, (height - len) as usize)
    } else if height == 0 {
        ComposeMode::Truncate(0)
    } else {
        ComposeMode::Truncate((height - 1) as usize)
    }
}

/// What is done to so many lines under the limit; none for a limit that is
/// a share.
pub open spec fn mode_under(len: usize, limit: Limit) -> Option<ComposeMode> {
    match height_under(len, limit) {
        Some(height) => Some(mode_for(len, height)),
        None => None,
    }
}

/// What is done to a paragraph of `len` lines under the constraint.
///
/// # Errors
///
/// Errors when the constraint is a percentage or a ratio.
pub fn compose_mode(len: usize, constraint: Constraint) -> (r: Result<ComposeMode, ComposeError>)
    ensures
        match r {
            Ok(mode) => mode_under(len, constraint_limit(constraint)) == Some(mode),
            Err(error) => mode_under(len, constraint_limit(constraint)) is None
                && error.constraint() == constraint,
        },
{
    let lines = (len % 0x1_0000) as u16;
    let height = match limit_of(constraint) {
        Limit::Length(height) => height,
        Limit::Min(height) => if lines >= height {
            lines
        } else {
            height
        },
        Limit::Max(height) => if lines <= height {
            lines
        } else {
            height
        },
        _ => {
            return Err(ComposeError::Constraint(constraint));
        },
    } as usize;

    if len == height {
        Ok(ComposeMode::Fit(height))
    } else if len < height {
        Ok(ComposeMode::Fill(height, height - len))
    } else {
        Ok(ComposeMode::Truncate(height.saturating_sub(1)))
    }
}

/// `tui::style::Style`: colors and modifiers. Nothing is known of it.
#[verifier::external_type_specification]
#[verifier::external_body]
pub struct ExStyle(Style);

/// A symbol in a style, as a styled grapheme.
pub uninterp spec fn styled(symbol: Seq<char>, style: Style) -> StyledGrapheme<'static>;

/// A `StyledGrapheme` of the two fields: the symbol in the style.
#[verifier::external_body]
pub(crate) fn grapheme_of<'a>(symbol: &'a str, style: Style) -> (r: StyledGrapheme<'a>)
    ensures
        r == styled(symbol@, style),
{
    StyledGrapheme { symbol, style }
}

/// An item to compose: where it is in the tree, how it looks, and its text
/// as paragraphs of lines of styled symbols, with the height that each
/// paragraph may take. A paragraph without a height, or a height without a
/// paragraph, is left out.
pub struct Paragraphs<'a> {
    pub identifier: Vec<usize>,
    pub style: Style,
    pub has_children: bool,
    pub paragraphs: Vec<Vec<Vec<StyledGrapheme<'a>>>>,
    pub heights: Vec<Constraint>,
}

/// The composed text of an item.
pub struct Composed<'a> {
    identifier: Vec<usize>,
    item: &'a Paragraphs<'a>,
    text: Vec<Vec<StyledGrapheme<'a>>>,
}

impl<'a> Composed<'a> {
    /// The path of the item.
    pub closed spec fn spec_identifier(&self) -> Seq<usize> {
        self.identifier@
    }

    /// The item that was composed.
    pub closed spec fn spec_item(&self) -> Paragraphs<'a> {
        *self.item
    }

    /// The lines of the composed text.
    pub closed spec fn spec_text(&self) -> Seq<Seq<StyledGrapheme<'a>>> {
        line_views(self.text@)
    }

    /// The depth of the item, which has to have a path: the length of its
    /// path less one.
    pub fn depth(&self) -> (r: usize)
        requires
            self.spec_identifier().len() > 0,
        ensures
            r == self.spec_identifier().len() - 1,
    {
        self.identifier.len() - 1
    }

    /// The number of lines of the composed text.
    pub fn height(&self) -> (r: usize)
        ensures
            r == self.spec_text().len(),
    {
        self.text.len()
    }

    pub fn identifier(&self) -> (r: &Vec<usize>)
        ensures
            r@ == self.spec_identifier(),
    {
        &self.identifier
    }

    pub fn style(&self) -> (r: Style)
        ensures
            r == self.spec_item().style,
    {
        self.item.style
    }

    /// The lines of the composed text.
    pub fn text(&self) -> (r: &Vec<Vec<StyledGrapheme<'a>>>)
        ensures
            line_views(r@) == self.spec_text(),
    {
        &self.text
    }

    pub fn has_children(&self) -> (r: bool)
        ensures
            r == self.spec_item().has_children,
    {
        self.item.has_children
    }
}

/// The lines that the lines of a paragraph are wrapped into, whitespace
/// kept. No room gives no line.
pub open spec fn paragraph_lines<'a>(lines: Seq<Vec<StyledGrapheme<'a>>>, max: int) -> Seq<
    Seq<StyledGrapheme<'a>>,
>
    decreases lines.len(),
{
    if max <= 0 || lines.len() == 0 {
        Seq::empty()
    } else {
        wrapped(lines[0]@, max, false) + paragraph_lines(lines.drop_first(), max)
    }
}

/// So many empty lines.
pub open spec fn empty_lines<'a>(count: int) -> Seq<Seq<StyledGrapheme<'a>>> {
    Seq::new(count as nat, |i: int| Seq::empty())
}

/// The first lines, at most `take` of them.
pub open spec fn first_lines<'a>(lines: Seq<Seq<StyledGrapheme<'a>>>, take: int) -> Seq<
    Seq<StyledGrapheme<'a>>,
> {
    if take >= lines.len() {
        lines
    } else {
        lines.take(take)
    }
}

/// The lines brought to their height: cut where they are too many, with a
/// line of the truncation symbol at the end, and filled up with empty lines
/// where they are too few.
pub open spec fn fitted<'a>(
    lines: Seq<Seq<StyledGrapheme<'a>>>,
    mode: ComposeMode,
    truncation: StyledGrapheme<'a>,
) -> Seq<Seq<StyledGrapheme<'a>>> {
    match mode {
        ComposeMode::Fit(take) => first_lines(lines, take as int),
        ComposeMode::Fill(take, fill) => first_lines(lines, take as int) + empty_lines(
            fill as int,
        ),
        ComposeMode::Truncate(take) => first_lines(lines, take as int).push(seq![truncation]),
    }
}

/// The width that the text of an item at the depth has: two columns less
/// for each level.
pub open spec fn width_at(width: u16, depth: int) -> int {
    if width >= 2 * depth {
        width - 2 * depth
    } else {
        0
    }
}

/// The depth of an item: the length of its path less one; zero for an item
/// without a path.
pub open spec fn depth_of(item: Paragraphs<'_>) -> int {
    if item.identifier@.len() > 0 {
        item.identifier@.len() - 1
    } else {
        0
    }
}

/// The number of paragraphs of an item that have a height.
pub open spec fn paired(item: Paragraphs<'_>) -> int {
    if item.heights@.len() <= item.paragraphs@.len() {
        item.heights@.len() as int
    } else {
        item.paragraphs@.len() as int
    }
}

/// The composed text of the first `count` paragraphs of an item; none
/// where the height of one of them is a share.
pub open spec fn composed_upto<'a>(
    item: Paragraphs<'a>,
    count: int,
    width: u16,
    truncation: Seq<char>,
) -> Option<Seq<Seq<StyledGrapheme<'a>>>>
    decreases count,
{
    if count <= 0 {
        Some(Seq::empty())
    } else {
        let lines = paragraph_lines(
            item.paragraphs@[count - 1]@,
            width_at(width, depth_of(item)),
        );
        match (
            composed_upto(item, count - 1, width, truncation),
            mode_under(lines.len() as usize, constraint_limit(item.heights@[count - 1])),
        ) {
            (Some(before), Some(mode)) => Some(
                before + fitted(lines, mode, styled(truncation, item.style)),
            ),
            _ => None,
        }
    }
}

/// The first height of the first `count` paragraphs that is a share.
pub open spec fn first_share(item: Paragraphs<'_>, count: int) -> Option<Constraint>
    decreases count,
{
    if count <= 0 {
        None
    } else {
        match first_share(item, count - 1) {
            Some(constraint) => Some(constraint),
            None => match constraint_limit(item.heights@[count - 1]) {
                Limit::Percentage(_) => Some(item.heights@[count - 1]),
                Limit::Ratio(_, _) => Some(item.heights@[count - 1]),
                _ => None,
            },
        }
    }
}

/// The lines that the lines of a paragraph are wrapped into, whitespace
/// kept.
fn wrap_paragraph<'a>(lines: &Vec<Vec<StyledGrapheme<'a>>>, max_line_width: u16) -> (r: Vec<
    Vec<StyledGrapheme<'a>>,
>)
    ensures
        line_views(r@) == paragraph_lines(lines@, max_line_width as int),
{
    let mut input: Vec<(Vec<StyledGrapheme<'a>>, Alignment)> = Vec::new();
    let mut i: usize = 0;
    while i < lines.len()
        invariant
            i <= lines@.len(),
            input@.len() == i,
            forall|k: int| 0 <= k < i ==> (#[trigger] input@[k]).0@ == lines@[k]@,
        decreases lines@.len() - i,
    {
        let line = lines[i].clone();
        assert(line@ =~= lines@[i as int]@);
        input.push((line, left_alignment()));
        i += 1;
    }
    let ghost given = input@;
    let mut composer = WordWrapper::new(input, max_line_width, false);
    let ghost all = composer.pending();
    let mut result: Vec<Vec<StyledGrapheme<'a>>> = Vec::new();
    let mut running = true;
    assert(all.skip(0) =~= all);
    assert(line_views(result@) =~= Seq::empty());
    while running
        invariant
            composer.wf(),
            composer.max_width() == max_line_width,
            running ==> line_views(result@).len() + composer.pending().len() == all.len()
                && composer.pending() == all.skip(line_views(result@).len() as int),
            forall|k: int| 0 <= k < result@.len() ==> (#[trigger] result@[k])@ == all[k].0,
            !running ==> max_line_width == 0 || result@.len() == all.len(),
            max_line_width == 0 ==> result@.len() == 0,
            result@.len() <= all.len(),
        decreases composer.pending().len() + if running { 1int } else { 0int },
    {
        let ghost at = result@.len() as int;
        match composer.next_line() {
            Some((line, _, _)) => {
                let copy = slice_to_vec(line);
                assert(copy@ =~= all[at].0) by {
                    assert(all.skip(at)[0] == all[at]);
                }
                result.push(copy);
                assert(all.skip(at).drop_first() =~= all.skip(at + 1));
            },
            None => {
                running = false;
            },
        }
    }
    proof {
        assert(lines@.skip(0) =~= lines@);
        if max_line_width == 0 {
            assert(line_views(result@) =~= Seq::empty());
        } else {
            lemma_paragraph_lines(lines@, given, max_line_width as int, 0);
            assert(line_views(result@) =~= paragraph_lines(lines@, max_line_width as int));
        }
    }
    result
}

/// A copy of the graphemes.
fn slice_to_vec<'a>(line: &[StyledGrapheme<'a>]) -> (r: Vec<StyledGrapheme<'a>>)
    ensures
        r@ == line@,
{
    let mut r: Vec<StyledGrapheme<'a>> = Vec::new();
    let mut i: usize = 0;
    while i < line.len()
        invariant
            i <= line@.len(),
            r@ == line@.take(i as int),
        decreases line@.len() - i,
    {
        r.push(line[i].clone());
        assert(r@ =~= line@.take(i + 1));
        i += 1;
    }
    assert(line@.take(i as int) =~= line@);
    r
}

/// The lines of a word wrapper that keeps whitespace are those of the
/// paragraph.
proof fn lemma_paragraph_lines<'a>(
    lines: Seq<Vec<StyledGrapheme<'a>>>,
    input: Seq<(Vec<StyledGrapheme<'a>>, Alignment)>,
    max: int,
    from: int,
)
    requires
        0 <= from <= lines.len(),
        input.len() == lines.len(),
        forall|k: int| 0 <= k < lines.len() ==> (#[trigger] input[k]).0@ == lines[k]@,
        max > 0,
    ensures
        wrapped_later(input, from, max, false).len() == paragraph_lines(lines.skip(from), max).len(),
        forall|k: int|
            0 <= k < paragraph_lines(lines.skip(from), max).len() ==> (#[trigger] wrapped_later(
                input,
                from,
                max,
                false,
            )[k]).0 == paragraph_lines(lines.skip(from), max)[k],
    decreases lines.len() - from,
{
    if from < lines.len() {
        lemma_paragraph_lines(lines, input, max, from + 1);
        assert(lines.skip(from)[0] == lines[from]);
        assert(lines.skip(from).drop_first() =~= lines.skip(from + 1));
        let head = aligned(wrapped(input[from].0@, max, false), input[from].1);
        let tail = wrapped_later(input, from + 1, max, false);
        assert forall|k: int| 0 <= k < paragraph_lines(lines.skip(from), max).len() implies (
        #[trigger] wrapped_later(input, from, max, false)[k]).0 == paragraph_lines(
            lines.skip(from),
            max,
        )[k] by {
            if k < head.len() {
                assert(wrapped_later(input, from, max, false)[k] == head[k]);
            } else {
                assert(wrapped_later(input, from, max, false)[k] == tail[k - head.len()]);
            }
        }
    } else {
        assert(lines.skip(from) =~= Seq::empty());
    }
}

/// The first share among more paragraphs is the first share among fewer,
/// where there is one.
proof fn lemma_share_stays(item: Paragraphs<'_>, count: int, more: int)
    requires
        0 <= count <= more,
        first_share(item, count) is Some,
    ensures
        first_share(item, more) == first_share(item, count),
    decreases more - count,
{
    if count < more {
        lemma_share_stays(item, count, more - 1);
    }
}

/// The lines brought to their height.
fn fit<'a>(
    lines: Vec<Vec<StyledGrapheme<'a>>>,
    mode: ComposeMode,
    truncation_symbol: &'a str,
    style: Style,
) -> (r: Vec<Vec<StyledGrapheme<'a>>>)
    ensures
        line_views(r@) == fitted(line_views(lines@), mode, styled(truncation_symbol@, style)),
{
    let take = match mode {
        ComposeMode::Fit(take) => take,
        ComposeMode::Fill(take, _) => take,
        ComposeMode::Truncate(take) => take,
    };
    let mut lines = lines;
    let ghost given = lines@;
    if take < lines.len() {
        lines.truncate(take);
        assert(line_views(lines@) =~= line_views(given).take(take as int));
    }
    let ghost taken = lines@;
    assert(line_views(taken) == first_lines(line_views(given), take as int));
    match mode {
        ComposeMode::Fit(_) => {},
        ComposeMode::Fill(_, fill) => {
            let mut i: usize = 0;
            assert(line_views(lines@) =~= line_views(taken) + empty_lines(0));
            while i < fill
                invariant
                    i <= fill,
                    line_views(lines@) == line_views(taken) + empty_lines(i as int),
                decreases fill - i,
            {
                let ghost before = lines@;
                lines.push(Vec::new());
                i += 1;
                assert(line_views(lines@) =~= line_views(taken) + empty_lines(i as int)) by {
                    assert(line_views(lines@) =~= line_views(before).push(Seq::empty()));
                }
            }
        },
        ComposeMode::Truncate(_) => {
            let mut last: Vec<StyledGrapheme<'a>> = Vec::new();
            last.push(grapheme_of(truncation_symbol, style));
            assert(last@ =~= seq![styled(truncation_symbol@, style)]);
            lines.push(last);
            assert(line_views(lines@) =~= line_views(taken).push(
                seq![styled(truncation_symbol@, style)],
            ));
        },
    }
    lines
}

/// The composed text of an item.
fn compose_item<'a>(item: &'a Paragraphs<'a>, width: u16, truncation_symbol: &'a str) -> (r: Result<
    Composed<'a>,
    ComposeError,
>)
    ensures
        match r {
            Ok(composed) => {
                &&& first_share(*item, paired(*item)) is None
                &&& composed.spec_identifier() == item.identifier@
                &&& composed.spec_item() == *item
                &&& Some(composed.spec_text()) == composed_upto(
                    *item,
                    paired(*item),
                    width,
                    truncation_symbol@,
                )
            },
            Err(error) => first_share(*item, paired(*item)) == Some(error.constraint()),
        },
{
    let depth = if item.identifier.len() > 0 {
        item.identifier.len() - 1
    } else {
        0
    };
    let indent: u16 = if depth < 0x8000 {
        (depth * 2) as u16
    } else {
        0xffff
    };
    let room = width.saturating_sub(indent);
    assert(room == width_at(width, depth_of(*item)));
    let count = if item.heights.len() <= item.paragraphs.len() {
        item.heights.len()
    } else {
        item.paragraphs.len()
    };
    let mut composed: Vec<Vec<StyledGrapheme<'a>>> = Vec::new();
    let mut k: usize = 0;
    assert(line_views(composed@) =~= Seq::empty());
    while k < count
        invariant
            k <= count == paired(*item),
            room == width_at(width, depth_of(*item)),
            first_share(*item, k as int) is None,
            Some(line_views(composed@)) == composed_upto(
                *item,
                k as int,
                width,
                truncation_symbol@,
            ),
        decreases count - k,
    {
        let lines = wrap_paragraph(&item.paragraphs[k], room);
        let mode = match compose_mode(lines.len(), item.heights[k]) {
            Ok(mode) => mode,
            Err(error) => {
                proof {
                    assert(first_share(*item, k + 1) == Some(error.constraint()));
                    lemma_share_stays(*item, k + 1, count as int);
                }
                return Err(error);
            },
        };
        let ghost before = composed@;
        let mut lines = fit(lines, mode, truncation_symbol, item.style);
        let ghost added = lines@;
        composed.append(&mut lines);
        assert(line_views(composed@) =~= line_views(before) + line_views(added));
        k += 1;
    }
    Ok(Composed { identifier: copy_indexes(&item.identifier), item, text: composed })
}

/// A copy of the path.
fn copy_indexes(path: &Vec<usize>) -> (r: Vec<usize>)
    ensures
        r@ == path@,
{
    let r = path.clone();
    assert(r@ =~= path@);
    r
}

/// The first height of the paragraphs of the first `count` items that is a
/// share.
pub open spec fn first_share_of<'a>(items: Seq<Paragraphs<'a>>, count: int) -> Option<Constraint>
    decreases count,
{
    if count <= 0 {
        None
    } else {
        match first_share_of(items, count - 1) {
            Some(constraint) => Some(constraint),
            None => first_share(items[count - 1], paired(items[count - 1])),
        }
    }
}

/// Composes the text of each item: its paragraphs, one below the other,
/// each wrapped to the width less two columns for each level of depth, and
/// brought to the height that it may take. Lines that do not fit are cut
/// off and the truncation symbol is put in their place.
///
/// # Errors
///
/// Errors with the first height that is a percentage or a ratio, where
/// there is one.
pub fn compose<'a>(items: &'a [Paragraphs<'a>], width: u16, truncation_symbol: &'a str) -> (r:
    Result<Vec<Composed<'a>>, ComposeError>)
    ensures
        match r {
            Ok(composed) => {
                &&& first_share_of(items@, items@.len() as int) is None
                &&& composed@.len() == items@.len()
                &&& forall|i: int|
                    0 <= i < items@.len() ==> {
                        &&& (#[trigger] composed@[i]).spec_identifier() == items@[i].identifier@
                        &&& composed@[i].spec_item() == items@[i]
                        &&& Some(composed@[i].spec_text()) == composed_upto(
                            items@[i],
                            paired(items@[i]),
                            width,
                            truncation_symbol@,
                        )
                    }
            },
            Err(error) => first_share_of(items@, items@.len() as int) == Some(error.constraint()),
        },
{
    let mut result: Vec<Composed<'a>> = Vec::new();
    let mut i: usize = 0;
    while i < items.len()
        invariant
            i <= items@.len(),
            result@.len() == i,
            first_share_of(items@, i as int) is None,
            forall|k: int|
                0 <= k < i ==> {
                    &&& (#[trigger] result@[k]).spec_identifier() == items@[k].identifier@
                    &&& result@[k].spec_item() == items@[k]
                    &&& Some(result@[k].spec_text()) == composed_upto(
                        items@[k],
                        paired(items@[k]),
                        width,
                        truncation_symbol@,
                    )
                },
        decreases items@.len() - i,
    {
        match compose_item(&items[i], width, truncation_symbol) {
            Ok(composed) => {
                result.push(composed);
            },
            Err(error) => {
                proof {
                    lemma_first_share_stays(items@, i + 1, items@.len() as int);
                }
                return Err(error);
            },
        }
        i += 1;
    }
    Ok(result)
}

/// The first share among more items is the first share among fewer, where
/// there is one.
proof fn lemma_first_share_stays<'a>(items: Seq<Paragraphs<'a>>, count: int, more: int)
    requires
        0 <= count <= more,
        first_share_of(items, count) is Some,
    ensures
        first_share_of(items, more) == first_share_of(items, count),
    decreases more - count,
{
    if count < more {
        lemma_first_share_stays(items, count, more - 1);
    }
}

} // verus!
