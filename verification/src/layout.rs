//! Where things stand on the screen.

use ratatui::layout::{Constraint, Direction, Layout};
use ratatui::widgets::{Block, Borders};
use vstd::prelude::*;

verus! {

/// An area of the screen.
#[derive(Clone, Copy, Debug, PartialEq, Eq, Structural)]
pub struct Rect {
    pub x: u16,
    pub y: u16,
    pub width: u16,
    pub height: u16,
}

/// The sum of two positions, at most the greatest there is.
pub open spec fn sat_add(a: u16, b: u16) -> u16 {
    if a + b > u16::MAX {
        u16::MAX
    } else {
        (a + b) as u16
    }
}

/// The difference of two positions, at least zero.
pub open spec fn sat_sub(a: u16, b: u16) -> u16 {
    if a < b {
        0
    } else {
        (a - b) as u16
    }
}

/// The part of an area inside a border of one cell on each side. It begins where the area does
/// in a direction in which the area has no room for a border at all.
pub open spec fn inside_border(area: Rect) -> Rect {
    Rect {
        x: if area.width == 0 {
            area.x
        } else {
            sat_add(area.x, 1)
        },
        y: if area.height == 0 {
            area.y
        } else {
            sat_add(area.y, 1)
        },
        width: sat_sub(area.width, 2),
        height: sat_sub(area.height, 2),
    }
}

/// Asks ratatui's `Block::inner` for the part of an area inside a block with a title and all
/// borders: the area less one cell on each side.
#[verifier::external_body]
pub(crate) fn block_inner(area: Rect) -> (inner: Rect)
    ensures
        inner == inside_border(area),
{
    let outer = ratatui::layout::Rect { x: area.x, y: area.y, width: area.width, height: area.height };
    let block = Block::default().title("Shell");
    let inner = block.borders(Borders::ALL).inner(outer);
    Rect { x: inner.x, y: inner.y, width: inner.width, height: inner.height }
}

/// Whether four areas cut a larger one from its top to its bottom, each of them as wide as it is and
/// beginning where the one before it ends.
pub open spec fn are_bands(area: Rect, bands: Seq<Rect>) -> bool {
    &&& bands.len() == 4
    &&& forall|i: int|
        0 <= i < 4 ==> (#[trigger] bands[i]).x == area.x && bands[i].width == area.width
    &&& bands[0].y == area.y
    &&& bands[1].y == bands[0].y + bands[0].height
    &&& bands[2].y == bands[1].y + bands[1].height
    &&& bands[3].y == bands[2].y + bands[2].height
    &&& bands[3].y + bands[3].height == sat_add(area.y, area.height)
}

/// An area cut into four bands from the top to the bottom, of the given heights but for the third,
/// which has the rest.
pub open spec fn stacked(area: Rect, first: u16, second: u16, last: u16) -> Seq<Rect> {
    let third = (area.height - first - second - last) as u16;
    seq![
        Rect { height: first, ..area },
        Rect { y: (area.y + first) as u16, height: second, ..area },
        Rect { y: (area.y + first + second) as u16, height: third, ..area },
        Rect { y: (area.y + first + second + third) as u16, height: last, ..area },
    ]
}

/// The heights that the first and the last of four bands are left with where an area is too low for
/// all and the second has none: the third is served first, then the last, then the first.
pub open spec fn squeezed(height: u16, least: u16, last: u16) -> (u16, u16) {
    let rest = sat_sub(height, least);
    if rest < last {
        (0, rest)
    } else {
        ((rest - last) as u16, last)
    }
}

/// Has ratatui's `Layout::split` cut an area into four bands: of a fixed height, of a fixed height,
/// of at least some height, and of a fixed height. By the weights that it gives its wishes there is
/// no gap between bands. Where the heights fit, each band has its own and the third has what is
/// left. Where they do not, the least height outweighs the fixed ones. The slightest wish, that
/// neighbours be alike, then decides between these: the last band, next to the third, has its
/// height before the first, next to a second without any. Nothing is said of how a second band that
/// has a height is squeezed.
#[verifier::external_body]
pub(crate) fn split_bands(area: Rect, first: u16, second: u16, least: u16, last: u16) -> (bands: Vec<
    Rect,
>)
    ensures
        are_bands(area, bands@),
        least <= i16::MAX && area.y + area.height <= u16::MAX ==> {
            if first + second + least + last <= area.height {
                bands@ == stacked(area, first, second, last)
            } else {
                second == 0 && last <= least ==> bands@ == stacked(
                    area,
                    squeezed(area.height, least, last).0,
                    0,
                    squeezed(area.height, least, last).1,
                )
            }
        },
{
    let outer = ratatui::layout::Rect { x: area.x, y: area.y, width: area.width, height: area.height };
    let heights = [Constraint::Length(first), Constraint::Length(second), Constraint::Min(least), Constraint::Length(last)];
    let layout = Layout::default().direction(Direction::Vertical);
    let split = layout.constraints(heights).split(outer);
    split.iter().map(|r| Rect { x: r.x, y: r.y, width: r.width, height: r.height }).collect()
}

/// The height of the header.
pub const HEADER_HEIGHT: u16 = 2;

/// The height of the footer.
pub const FOOTER_HEIGHT: u16 = 1;

/// The least height of the shell's pane.
pub const SHELL_MIN_HEIGHT: u16 = 5;

/// The height of the directory listing on a screen of the given height: three sevenths of it, but
/// no less than eight lines, and no more than leaves eight lines for the rest.
pub open spec fn tree_height(height: u16) -> u16 {
    let share = (if 3 * height > u16::MAX {
        u16::MAX as int
    } else {
        3 * height
    }) / 7;
    let wanted = if share < 8 {
        8
    } else {
        share
    };
    let limit = sat_sub(height, 8);
    if wanted < limit {
        wanted as u16
    } else {
        limit
    }
}

/// Gives the height of the directory listing.
pub fn tree_rows(height: u16) -> (rows: u16)
    ensures
        rows == tree_height(height),
{
    let tripled: u32 = height as u32 * 3;
    let capped: u32 = if tripled > 65535 {
        65535
    } else {
        tripled
    };
    let share: u32 = capped / 7;
    let wanted: u32 = if share < 8 {
        8
    } else {
        share
    };
    let limit: u16 = height.saturating_sub(8);
    if wanted < limit as u32 {
        wanted as u16
    } else {
        limit
    }
}

/// The place on the screen of a cursor at a row and column of a pane, held within the pane.
pub open spec fn cursor_place(pane: Rect, cursor: (u16, u16)) -> (u16, u16) {
    let col = if cursor.1 < sat_sub(pane.width, 1) {
        cursor.1
    } else {
        sat_sub(pane.width, 1)
    };
    let row = if cursor.0 < sat_sub(pane.height, 1) {
        cursor.0
    } else {
        sat_sub(pane.height, 1)
    };
    (sat_add(pane.x, col), sat_add(pane.y, row))
}

/// Places a cursor on the screen.
pub fn place_cursor(pane: Rect, cursor: (u16, u16)) -> (place: (u16, u16))
    ensures
        place == cursor_place(pane, cursor),
{
    let max_col: u16 = pane.width.saturating_sub(1);
    let max_row: u16 = pane.height.saturating_sub(1);
    let col: u16 = if cursor.1 < max_col {
        cursor.1
    } else {
        max_col
    };
    let row: u16 = if cursor.0 < max_row {
        cursor.0
    } else {
        max_row
    };
    (pane.x.saturating_add(col), pane.y.saturating_add(row))
}

/// The bands of a screen: the header, the listing, the shell and the footer. On a screen of less
/// than eight lines, which has none for the listing, the shell comes first, then the footer.
pub open spec fn screen_bands(area: Rect) -> Seq<Rect> {
    if area.height >= 8 {
        stacked(area, HEADER_HEIGHT, tree_height(area.height), FOOTER_HEIGHT)
    } else {
        let (header, footer) = squeezed(area.height, SHELL_MIN_HEIGHT, FOOTER_HEIGHT);
        stacked(area, header, 0, footer)
    }
}

/// On a screen of eight lines or more the header, the listing, the least pane for the shell and the
/// footer fit.
pub proof fn law_bands_fit(height: u16)
    requires
        height >= 8,
    ensures
        HEADER_HEIGHT + tree_height(height) + SHELL_MIN_HEIGHT + FOOTER_HEIGHT <= height,
{
}

/// A cursor is placed inside the pane that it belongs to, wherever the emulator has it.
pub proof fn law_cursor_stays_in_pane(pane: Rect, cursor: (u16, u16))
    requires
        pane.width > 0,
        pane.height > 0,
        pane.x + pane.width <= u16::MAX,
        pane.y + pane.height <= u16::MAX,
    ensures
        pane.x <= cursor_place(pane, cursor).0 < pane.x + pane.width,
        pane.y <= cursor_place(pane, cursor).1 < pane.y + pane.height,
{
}

/// Bands that are stacked leave no line of the area out and share none.
pub proof fn law_stacked_bands_tile(area: Rect, first: u16, second: u16, last: u16)
    requires
        first + second + last <= area.height,
        area.y + area.height <= u16::MAX,
    ensures
        are_bands(area, stacked(area, first, second, last)),
{
}

/// The bands of any screen leave no line of it out and share none, and the shell has its least
/// height, or the whole of a screen that is lower than that.
pub proof fn law_screen_bands_tile(area: Rect)
    requires
        area.y + area.height <= u16::MAX,
    ensures
        are_bands(area, screen_bands(area)),
        screen_bands(area)[2].height >= SHELL_MIN_HEIGHT || screen_bands(area)[2].height
            == area.height,
{
}

/// The inside of a bordered area lies in the area.
pub proof fn law_inside_border_lies_in_area(area: Rect)
    requires
        area.x + area.width <= u16::MAX,
        area.y + area.height <= u16::MAX,
    ensures
        ({
            let inner = inside_border(area);
            &&& area.x <= inner.x
            &&& inner.x + inner.width <= area.x + area.width
            &&& area.y <= inner.y
            &&& inner.y + inner.height <= area.y + area.height
        }),
{
}

/// A cursor in a pane is placed at its own column and row of the pane, and one beyond the pane in
/// the last column, or in the last row, of it. A pane without columns, or rows, has its cursor where
/// it begins, and no cursor is placed beyond the greatest position.
pub proof fn law_cursor_keeps_its_place(pane: Rect, row: u16, col: u16)
    ensures
        ({
            let place = cursor_place(pane, (row, col));
            &&& col < pane.width && pane.x + col <= 65535 ==> place.0 == pane.x + col
            &&& 0 < pane.width <= col && pane.x + pane.width <= 65536 ==> place.0 == pane.x
                + pane.width - 1
            &&& col < pane.width && pane.x + col > 65535 ==> place.0 == 65535
            &&& 0 < pane.width <= col && pane.x + pane.width > 65536 ==> place.0 == 65535
            &&& pane.width == 0 ==> place.0 == pane.x
            &&& row < pane.height && pane.y + row <= 65535 ==> place.1 == pane.y + row
            &&& 0 < pane.height <= row && pane.y + pane.height <= 65536 ==> place.1 == pane.y
                + pane.height - 1
            &&& row < pane.height && pane.y + row > 65535 ==> place.1 == 65535
            &&& 0 < pane.height <= row && pane.y + pane.height > 65536 ==> place.1 == 65535
            &&& pane.height == 0 ==> place.1 == pane.y
        }),
{
}

/// From eight lines on the header has two lines and the footer one, the listing three sevenths of
/// the screen, but no less than eight lines where there are sixteen, and the shell all the rest.
pub proof fn law_heights_of_the_bands(area: Rect)
    requires
        8 <= area.height <= 21845,
    ensures
        ({
            let bands = screen_bands(area);
            let tree = bands[1].height;
            &&& bands[0].height == 2
            &&& bands[3].height == 1
            &&& bands[2].height == area.height - 3 - tree
            &&& area.height >= 19 ==> 7 * tree <= 3 * area.height < 7 * (tree + 1)
            &&& 16 <= area.height < 19 ==> tree == 8
            &&& area.height < 16 ==> tree == area.height - 8
        }),
{
}

} // verus!
