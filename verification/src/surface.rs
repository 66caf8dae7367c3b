//! The character grid the widget draws on, and the rectangles on it.
//!
//! The grid, the styles and the texts are those of `ratatui`. Nothing here
//! looks into them: what is known of a call into that crate is what its
//! contract below says, and Verus takes those contracts on trust.

use vstd::prelude::*;
use vstd::string::StringExecFns;
use ratatui::buffer::Buffer;
use ratatui::layout::Rect;
use ratatui::style::{Color, Style, Styled};
use ratatui::text::{Line, Span, Text};
use ratatui::widgets::{Block, Scrollbar, ScrollbarState, StatefulWidget, Widget};
use unicode_width::UnicodeWidthStr;

verus! {

/// A cell of the grid.
#[derive(Debug, Clone, Copy, PartialEq, Eq, Structural, Hash)]
pub struct Position {
    pub x: u16,
    pub y: u16,
}

impl Position {
    pub fn new(x: u16, y: u16) -> (r: Self)
        ensures
            r == (Position { x, y }),
    {
        Position { x, y }
    }
}

/// A rectangle of cells: its top left cell, and how far it reaches to the
/// right and downwards.
#[derive(Debug, Clone, Copy, PartialEq, Eq, Structural, Hash)]
pub struct Area {
    pub x: u16,
    pub y: u16,
    pub width: u16,
    pub height: u16,
}

impl Area {
    /// The first column right of the area, kept within `u16`.
    pub open spec fn spec_right(self) -> int {
        if self.x + self.width > u16::MAX {
            u16::MAX as int
        } else {
            self.x + self.width
        }
    }

    /// The first row below the area, kept within `u16`.
    pub open spec fn spec_bottom(self) -> int {
        if self.y + self.height > u16::MAX {
            u16::MAX as int
        } else {
            self.y + self.height
        }
    }

    /// Whether the area has no cell.
    pub open spec fn spec_is_empty(self) -> bool {
        self.width == 0 || self.height == 0
    }

    /// Whether the cell lies in the area.
    pub open spec fn spec_contains(self, position: Position) -> bool {
        &&& self.x <= position.x < self.spec_right()
        &&& self.y <= position.y < self.spec_bottom()
    }

    /// Whether every cell of the area is a cell of `outer`, and the area
    /// begins within the columns and rows that `outer` spans.
    pub open spec fn within(self, outer: Area) -> bool {
        &&& outer.x <= self.x
        &&& self.x + self.width <= outer.spec_right()
        &&& outer.y <= self.y
        &&& self.y + self.height <= outer.spec_bottom()
    }

    /// Whether the area ends before the last column that there is: it has
    /// no cell, or the first column right of it is a column.
    pub open spec fn ends_before_edge(self) -> bool {
        self.spec_is_empty() || self.x + self.width < u16::MAX
    }

    /// The area without the last column that there is.
    pub open spec fn spec_cut_at_edge(self) -> Area {
        if self.x + self.width < u16::MAX {
            self
        } else if self.x < u16::MAX {
            Area { width: (u16::MAX - 1 - self.x) as u16, ..self }
        } else {
            Area { width: 0, ..self }
        }
    }

    /// The cells that are in both areas.
    pub open spec fn spec_intersection(self, other: Area) -> Area {
        let x = if self.x >= other.x {
            self.x
        } else {
            other.x
        };
        let y = if self.y >= other.y {
            self.y
        } else {
            other.y
        };
        let right = if self.spec_right() <= other.spec_right() {
            self.spec_right()
        } else {
            other.spec_right()
        };
        let bottom = if self.spec_bottom() <= other.spec_bottom() {
            self.spec_bottom()
        } else {
            other.spec_bottom()
        };
        Area {
            x,
            y,
            width: if right >= x {
                (right - x) as u16
            } else {
                0
            },
            height: if bottom >= y {
                (bottom - y) as u16
            } else {
                0
            },
        }
    }

    /// An area with the given corner, its width and height limited so that
    /// its right and bottom stay within `u16`.
    pub fn new(x: u16, y: u16, width: u16, height: u16) -> (r: Self)
        ensures
            r.x == x,
            r.y == y,
            r.width == if x + width > u16::MAX {
                u16::MAX - x
            } else {
                width as int
            },
            r.height == if y + height > u16::MAX {
                u16::MAX - y
            } else {
                height as int
            },
    {
        let max_width = u16::MAX - x;
        let max_height = u16::MAX - y;
        Area {
            x,
            y,
            width: if width > max_width {
                max_width
            } else {
                width
            },
            height: if height > max_height {
                max_height
            } else {
                height
            },
        }
    }

    /// The area without a cell, at the origin.
    pub fn zero() -> (r: Self)
        ensures
            r == (Area { x: 0, y: 0, width: 0, height: 0 }),
    {
        Area { x: 0, y: 0, width: 0, height: 0 }
    }

    #[verifier::when_used_as_spec(spec_right_u16)]
    pub fn right(self) -> (r: u16)
        ensures
            r == self.spec_right(),
    {
        self.x.saturating_add(self.width)
    }

    #[verifier::when_used_as_spec(spec_bottom_u16)]
    pub fn bottom(self) -> (r: u16)
        ensures
            r == self.spec_bottom(),
    {
        self.y.saturating_add(self.height)
    }

    pub open spec fn spec_right_u16(self) -> u16 {
        self.spec_right() as u16
    }

    pub open spec fn spec_bottom_u16(self) -> u16 {
        self.spec_bottom() as u16
    }

    #[verifier::when_used_as_spec(spec_is_empty)]
    pub fn is_empty(self) -> (r: bool)
        ensures
            r == self.spec_is_empty(),
    {
        self.width == 0 || self.height == 0
    }

    #[verifier::when_used_as_spec(spec_contains)]
    pub fn contains(self, position: Position) -> (r: bool)
        ensures
            r == self.spec_contains(position),
    {
        position.x >= self.x && position.x < self.right() && position.y >= self.y && position.y
            < self.bottom()
    }

    #[verifier::when_used_as_spec(spec_cut_at_edge)]
    pub fn cut_at_edge(self) -> (r: Area)
        ensures
            r == self.spec_cut_at_edge(),
            r.ends_before_edge(),
            r.x == self.x,
            r.y == self.y,
            r.height == self.height,
            r.width <= self.width,
    {
        if self.x == u16::MAX {
            Area { x: self.x, y: self.y, width: 0, height: self.height }
        } else if self.width >= u16::MAX - self.x {
            Area { x: self.x, y: self.y, width: u16::MAX - 1 - self.x, height: self.height }
        } else {
            self
        }
    }

    #[verifier::when_used_as_spec(spec_intersection)]
    pub fn intersection(self, other: Area) -> (r: Area)
        ensures
            r == self.spec_intersection(other),
            !r.spec_is_empty() ==> r.within(self) && r.within(other),
            r.x + r.width <= u16::MAX,
            r.y + r.height <= u16::MAX,
    {
        let x = if self.x >= other.x {
            self.x
        } else {
            other.x
        };
        let y = if self.y >= other.y {
            self.y
        } else {
            other.y
        };
        let right = if self.right() <= other.right() {
            self.right()
        } else {
            other.right()
        };
        let bottom = if self.bottom() <= other.bottom() {
            self.bottom()
        } else {
            other.bottom()
        };
        Area { x, y, width: right.saturating_sub(x), height: bottom.saturating_sub(y) }
    }
}

/// `ratatui::buffer::Buffer`: the grid. Nothing is known of its cells.
#[verifier::external_type_specification]
#[verifier::external_body]
pub struct ExBuffer(Buffer);

/// `ratatui::style::Style`: colors and modifiers. Nothing is known of it.
#[verifier::external_type_specification]
#[verifier::external_body]
pub struct ExStyle(Style);

/// `ratatui::text::Text`: lines of styled text. Nothing is known of it but
/// the number of its lines.
#[verifier::external_type_specification]
#[verifier::external_body]
pub struct ExText<'a>(Text<'a>);

/// `ratatui::widgets::Block`: a frame around a widget. Nothing is known of
/// it but what it takes from the sides of an area.
#[verifier::external_type_specification]
#[verifier::external_body]
pub struct ExBlock<'a>(Block<'a>);

/// `ratatui::widgets::Scrollbar`: a bar that shows how far a view is
/// scrolled. Nothing is known of it.
#[verifier::external_type_specification]
#[verifier::external_body]
pub struct ExScrollbar<'a>(Scrollbar<'a>);

/// `ratatui::text::Span`: a piece of text in one style. Nothing is known of
/// it.
#[verifier::external_type_specification]
#[verifier::external_body]
pub struct ExSpan<'a>(Span<'a>);

/// The colors that the widget itself gives to texts.
#[derive(Debug, Clone, Copy, PartialEq, Eq, Structural, Hash)]
pub enum Tint {
    Plain,
    Blue,
    Cyan,
    DarkGray,
    Green,
    LightBlue,
    Magenta,
}

/// The area that a grid covers.
pub uninterp spec fn surface_area(buffer: Buffer) -> Area;

/// The number of lines of a text.
pub uninterp spec fn text_height(text: Text<'_>) -> nat;

/// The number of columns that a string takes when displayed.
pub uninterp spec fn display_width(text: Seq<char>) -> nat;

/// The grid after `Buffer::set_style` has styled an area of it.
pub uninterp spec fn style_set(buffer: Buffer, area: Area, style: Style) -> Buffer;

/// The grid after `Buffer::set_stringn` has printed a string without a
/// style of its own from a cell on, on at most so many columns, and the
/// column after what was printed.
pub uninterp spec fn printed(buffer: Buffer, x: u16, y: u16, text: Seq<char>, max_width: usize) -> (
    Buffer,
    u16,
);

/// The grid after `Widget::render` has drawn a block into an area of it.
pub uninterp spec fn block_rendered(buffer: Buffer, block: Block<'_>, area: Area) -> Buffer;

/// The grid after `StatefulWidget::render` has drawn a scrollbar into an
/// area of it, for a content of so many rows, scrolled to a position, of
/// which so many rows are in view.
pub uninterp spec fn scrollbar_rendered(
    buffer: Buffer,
    scrollbar: Scrollbar<'_>,
    area: Area,
    content_length: usize,
    position: usize,
    viewport_content_length: usize,
) -> Buffer;

/// The text of one line that is made of spans.
pub uninterp spec fn line_text(spans: Seq<Span<'_>>) -> Text<'static>;

/// The grid after `Widget::render` has drawn a text into an area of it.
pub uninterp spec fn text_rendered(buffer: Buffer, text: Text<'_>, area: Area) -> Buffer;

/// The grid after `Widget::render` has drawn a string in a style into an
/// area of it.
pub uninterp spec fn styled_rendered(
    buffer: Buffer,
    text: Seq<char>,
    style: Style,
    area: Area,
) -> Buffer;

/// The grid after `Widget::render` has drawn a line of spans into an area of
/// it.
pub uninterp spec fn spans_rendered(buffer: Buffer, spans: Seq<Span<'_>>, area: Area) -> Buffer;

/// The span of a text in the color of a tint.
pub uninterp spec fn tinted(text: Seq<char>, tint: Tint) -> Span<'static>;

/// What a block takes from the sides of its area: a column or row for a
/// border or a title, and the padding. With it, the columns that the titles
/// of the block take together, each with the one column that is left free
/// after it.
pub struct Insets {
    pub left: bool,
    pub top: bool,
    pub right: bool,
    pub bottom: bool,
    pub padding_left: u16,
    pub padding_top: u16,
    pub padding_right: u16,
    pub padding_bottom: u16,
    pub title_columns: nat,
}

/// The insets of a block.
pub uninterp spec fn block_insets(block: Block<'_>) -> Insets;

pub open spec fn saturating_add(a: int, b: int) -> int {
    if a + b > u16::MAX {
        u16::MAX as int
    } else {
        a + b
    }
}

pub open spec fn saturating_sub(a: int, b: int) -> int {
    if a - b < 0 {
        0
    } else {
        a - b
    }
}

pub open spec fn lower(a: int, b: int) -> int {
    if a <= b {
        a
    } else {
        b
    }
}

/// Whether the paddings of each pair of opposite sides add up within `u16`,
/// and the columns of the titles too.
pub open spec fn insets_fit(insets: Insets) -> bool {
    &&& insets.padding_left + insets.padding_right <= u16::MAX
    &&& insets.padding_top + insets.padding_bottom <= u16::MAX
    &&& insets.title_columns <= u16::MAX
}

/// What is left of an area inside of the insets.
pub open spec fn inner_area(area: Area, insets: Insets) -> Area {
    let x1 = if insets.left {
        lower(saturating_add(area.x as int, 1), area.spec_right())
    } else {
        area.x as int
    };
    let w1 = if insets.left {
        saturating_sub(area.width as int, 1)
    } else {
        area.width as int
    };
    let y1 = if insets.top {
        lower(saturating_add(area.y as int, 1), area.spec_bottom())
    } else {
        area.y as int
    };
    let h1 = if insets.top {
        saturating_sub(area.height as int, 1)
    } else {
        area.height as int
    };
    let w2 = if insets.right {
        saturating_sub(w1, 1)
    } else {
        w1
    };
    let h2 = if insets.bottom {
        saturating_sub(h1, 1)
    } else {
        h1
    };
    Area {
        x: saturating_add(x1, insets.padding_left as int) as u16,
        y: saturating_add(y1, insets.padding_top as int) as u16,
        width: saturating_sub(w2, insets.padding_left + insets.padding_right) as u16,
        height: saturating_sub(h2, insets.padding_top + insets.padding_bottom) as u16,
    }
}

/// `Buffer::area`: the area that the grid covers.
#[verifier::external_body]
pub(crate) fn area_of_surface(buffer: &Buffer) -> (r: Area)
    ensures
        r == surface_area(*buffer),
{
    let area = buffer.area;
    Area { x: area.x, y: area.y, width: area.width, height: area.height }
}

/// The part of an area that can be drawn on: what of it lies on the grid
/// and before the last column that there is.
pub open spec fn drawing_area(area: Area, surface: Area) -> Area {
    area.spec_intersection(surface).spec_cut_at_edge()
}

/// The part of the area that can be drawn on.
pub fn clipped(area: Area, buffer: &Buffer) -> (r: Area)
    ensures
        r == drawing_area(area, surface_area(*buffer)),
        r.ends_before_edge(),
        !r.spec_is_empty() ==> r.within(surface_area(*buffer)) && r.within(area),
{
    area.intersection(area_of_surface(buffer)).cut_at_edge()
}

/// Whether the style is the one that `Style::new` gives: it sets no colour
/// and no modifier, so it changes nothing where it is applied.
pub uninterp spec fn is_plain(style: Style) -> bool;

/// `Style::new`: the style that changes nothing.
#[verifier::external_body]
pub(crate) fn plain_style() -> (r: Style)
    ensures
        is_plain(r),
{
    Style::new()
}

/// `Buffer::set_style`: styles the cells of the area that lie on the grid.
/// What the grid holds then goes by what it held, the area and the style.
/// The grid keeps its area.
#[verifier::external_body]
pub(crate) fn set_style(buffer: &mut Buffer, area: Area, style: Style)
    ensures
        *final(buffer) == style_set(*old(buffer), area, style),
        surface_area(*final(buffer)) == surface_area(*old(buffer)),
{
    buffer.set_style(Rect { x: area.x, y: area.y, width: area.width, height: area.height }, style);
}

/// `Buffer::set_stringn` with `Style::new`: prints the string, without a
/// style of its own, from the given cell to the right, as far as
/// `max_width` columns and the grid's right edge allow, and returns the
/// cell after what was printed, which is in the same row and not further
/// to the right than the columns allowed. The first cell has to lie on the
/// grid. What the grid holds then, and where the printing ends, goes by
/// what the grid held, the cell, the string and the columns allowed. The
/// grid keeps its area.
#[verifier::external_body]
pub(crate) fn print(buffer: &mut Buffer, x: u16, y: u16, text: &str, max_width: usize) -> (r: (
    u16,
    u16,
))
    requires
        surface_area(*old(buffer)).spec_contains(Position { x, y }),
    ensures
        (*final(buffer), r.0) == printed(*old(buffer), x, y, text@, max_width),
        surface_area(*final(buffer)) == surface_area(*old(buffer)),
        r.1 == y,
        x <= r.0 <= x + lower(surface_area(*old(buffer)).spec_right() - x, max_width as int),
{
    buffer.set_stringn(x, y, text, max_width, Style::new())
}

/// `Text::height`: the number of lines of the text.
#[verifier::external_body]
pub(crate) fn height_of_text(text: &Text<'_>) -> (r: usize)
    ensures
        r == text_height(*text),
{
    text.height()
}

/// `Clone::clone` of a `Text`: the copy is the same text, line for line.
pub assume_specification<'a>[ <Text<'a> as Clone>::clone ](text: &Text<'a>) -> (r: Text<'a>)
    ensures
        r == *text,
;

/// `Clone::clone` of a `Block`: the copy is the same block, setting for
/// setting.
pub assume_specification<'a>[ <Block<'a> as Clone>::clone ](block: &Block<'a>) -> (r: Block<'a>)
    ensures
        r == *block,
;

/// `Clone::clone` of a `Scrollbar`: the copy is the same scrollbar, setting
/// for setting.
pub assume_specification<'a>[ <Scrollbar<'a> as Clone>::clone ](scrollbar: &Scrollbar<'a>) -> (r:
    Scrollbar<'a>)
    ensures
        r == *scrollbar,
;

/// `Widget::render` of a `Text`: prints the lines of the text into the part
/// of the area that lies on the grid. The area has to end before the last
/// column that there is: up to that column the end of a row is not found.
/// What the grid holds then goes by what it held, the text and the area.
/// The grid keeps its area.
#[verifier::external_body]
pub(crate) fn render_text(text: &Text<'_>, area: Area, buffer: &mut Buffer)
    requires
        area.ends_before_edge(),
    ensures
        *final(buffer) == text_rendered(*old(buffer), *text, area),
        surface_area(*final(buffer)) == surface_area(*old(buffer)),
{
    let area = Rect { x: area.x, y: area.y, width: area.width, height: area.height };
    Widget::render(text, area, buffer);
}

/// `Styled::set_style` of a string and `Widget::render` of the span that
/// it gives: prints the string in the style into the first row of the
/// area, as far as it lies on the grid. What the grid holds then goes by
/// what it held, the string, the style and the area. The grid keeps its
/// area. The area has to end before the last column that there is.
#[verifier::external_body]
pub(crate) fn render_styled(text: &str, style: Style, area: Area, buffer: &mut Buffer)
    requires
        area.ends_before_edge(),
    ensures
        *final(buffer) == styled_rendered(*old(buffer), text@, style, area),
        surface_area(*final(buffer)) == surface_area(*old(buffer)),
{
    let area = Rect { x: area.x, y: area.y, width: area.width, height: area.height };
    Widget::render(text.set_style(style), area, buffer);
}

/// `Span::styled` with `Style::fg` of the color, or `Span::raw` for the
/// plain tint: a piece of text in one color, which goes by the text and the
/// tint.
#[verifier::external_body]
pub(crate) fn span_of<'a>(text: &str, tint: Tint) -> (r: Span<'a>)
    ensures
        r == tinted(text@, tint),
{
    let color = match tint {
        Tint::Plain => return Span::raw(text.to_owned()),
        Tint::Blue => Color::Blue,
        Tint::Cyan => Color::Cyan,
        Tint::DarkGray => Color::DarkGray,
        Tint::Green => Color::Green,
        Tint::LightBlue => Color::LightBlue,
        Tint::Magenta => Color::Magenta,
    };
    Span::styled(text.to_owned(), Style::new().fg(color))
}

/// `Text::from` of a `Line::from` of the spans: a text of one line, which
/// goes by the spans.
#[verifier::external_body]
pub(crate) fn text_of_spans<'a>(spans: Vec<Span<'a>>) -> (r: Text<'a>)
    ensures
        r == line_text(spans@),
        text_height(r) == 1,
{
    Text::from(Line::from(spans))
}

/// `Widget::render` of a `Line::from` of the spans: prints the spans one
/// after the other into the first row of the area, as far as it lies on
/// the grid. What the grid holds then goes by what it held, the spans and
/// the area. The grid keeps its area. The area has to end before the last
/// column that there is.
#[verifier::external_body]
pub(crate) fn render_spans(spans: Vec<Span<'_>>, area: Area, buffer: &mut Buffer)
    requires
        area.ends_before_edge(),
    ensures
        *final(buffer) == spans_rendered(*old(buffer), spans@, area),
        surface_area(*final(buffer)) == surface_area(*old(buffer)),
{
    let area = Rect { x: area.x, y: area.y, width: area.width, height: area.height };
    Widget::render(Line::from(spans), area, buffer);
}

/// `Block::inner`: the area inside of the block's borders, titles and
/// padding. It adds the paddings of opposite sides, so they have to add up
/// within `u16`. (The columns of the titles are asked for with them, though
/// this call does not add them.)
#[verifier::external_body]
pub(crate) fn inner_of_block(block: &Block<'_>, area: Area) -> (r: Area)
    requires
        insets_fit(block_insets(*block)),
    ensures
        r == inner_area(area, block_insets(*block)),
{
    let inner = block.inner(Rect { x: area.x, y: area.y, width: area.width, height: area.height });
    Area { x: inner.x, y: inner.y, width: inner.width, height: inner.height }
}

/// `Widget::render` of a `Block`: draws the block into the part of the area
/// that lies on the grid. It adds the widths of titles, each with one more
/// column, so these have to add up within `u16`; and as it prints the
/// titles, the area has to end before the last column that there is. What
/// the grid holds then goes by what it held, the block and the area. The
/// grid keeps its area.
#[verifier::external_body]
pub(crate) fn render_block(block: Block<'_>, area: Area, buffer: &mut Buffer)
    requires
        insets_fit(block_insets(block)),
        area.ends_before_edge(),
    ensures
        *final(buffer) == block_rendered(*old(buffer), block, area),
        surface_area(*final(buffer)) == surface_area(*old(buffer)),
{
    let area = Rect { x: area.x, y: area.y, width: area.width, height: area.height };
    Widget::render(block, area, buffer);
}

/// `StatefulWidget::render` of a `Scrollbar`, with a `ScrollbarState` made
/// of the three lengths: draws the bar along one edge of the area, which
/// has to have a cell and to lie on the grid. The grid keeps its area.
#[verifier::external_body]
pub(crate) fn render_scrollbar(
    scrollbar: Scrollbar<'_>,
    area: Area,
    buffer: &mut Buffer,
    content_length: usize,
    position: usize,
    viewport_content_length: usize,
)
    requires
        !area.spec_is_empty(),
        area.within(surface_area(*old(buffer))),
    ensures
        *final(buffer) == scrollbar_rendered(
            *old(buffer),
            scrollbar,
            area,
            content_length,
            position,
            viewport_content_length,
        ),
        surface_area(*final(buffer)) == surface_area(*old(buffer)),
{
    let mut state = ScrollbarState::new(content_length).position(position).viewport_content_length(
        viewport_content_length,
    );
    let area = Rect { x: area.x, y: area.y, width: area.width, height: area.height };
    StatefulWidget::render(scrollbar, area, buffer, &mut state);
}

/// `UnicodeWidthStr::width`: the number of columns that the string takes.
#[verifier::external_body]
pub(crate) fn width_of(text: &str) -> (r: usize)
    ensures
        r == display_width(text@),
{
    UnicodeWidthStr::width(text)
}

/// A string of as many blanks.
pub fn blanks(count: u16) -> (r: String)
    ensures
        r@ == Seq::new(count as nat, |i: int| ' '),
{
    proof {
        reveal_strlit(" ");
    }
    let mut r = String::new();
    let mut i: u16 = 0;
    while i < count
        invariant
            i <= count,
            r@ == Seq::new(i as nat, |j: int| ' '),
            " "@ == seq![' '],
        decreases count - i,
    {
        r.append(" ");
        i += 1;
        assert(r@ =~= Seq::new(i as nat, |j: int| ' '));
    }
    r
}

} // verus!
