//! The terminal emulator that turns the shell's output into a screen.

use vstd::prelude::*;

verus! {

/// The emulator of the `vt100` crate.
#[verifier::external_type_specification]
#[verifier::external_body]
pub struct ExParser(vt100::Parser);

/// One thing that is done to an emulator.
pub enum TermStep {
    /// It is made, with a size and a number of lines to scroll back.
    Open { rows: u16, cols: u16, scrollback: usize },
    /// It is given a byte of the shell's output.
    Byte(u8),
    /// Its size is changed.
    Resize { rows: u16, cols: u16 },
}

/// What has been done to an emulator so far, in order. Nothing else is ever done to one.
pub uninterp spec fn terminal_steps(parser: vt100::Parser) -> Seq<TermStep>;

/// The text on the screen after the given steps, as `Screen::contents` gives it.
pub uninterp spec fn screen_text(steps: Seq<TermStep>) -> Seq<char>;

/// The row and column of the cursor after the given steps, as `Screen::cursor_position` gives it.
pub uninterp spec fn screen_cursor(steps: Seq<TermStep>) -> (u16, u16);

/// The numbers of rows and columns after the given steps, as `Screen::size` gives them.
pub uninterp spec fn screen_size(steps: Seq<TermStep>) -> (u16, u16);

/// Whether the alternate screen is in use after the given steps, as `Screen::alternate_screen`
/// tells.
pub uninterp spec fn screen_alternate(steps: Seq<TermStep>) -> bool;

/// Whether the cell at a row and column holds the first half of a character of two columns, and
/// whether it holds the second half of one, after the given steps, as `Screen::cell` has it.
pub uninterp spec fn screen_cell(steps: Seq<TermStep>, row: u16, col: u16) -> Option<(bool, bool)>;

/// The width from which on a tab may lead past the greatest column that can be counted.
pub const TOO_WIDE: u16 = 65528;

/// Whether a screen has room for a scroll and for the widest character, and its tab stops can be
/// counted.
pub open spec fn is_drawable(size: (u16, u16)) -> bool {
    size.0 >= 2 && 3 <= size.1 < TOO_WIDE
}

/// Whether the cursor is on the screen, or right behind the end of a line.
pub open spec fn on_screen(steps: Seq<TermStep>) -> bool {
    &&& screen_cursor(steps).0 < screen_size(steps).0
    &&& screen_cursor(steps).1 <= screen_size(steps).1
}

/// Whether there is a cell at a row and column, and it is no half of a character without the other
/// half beside it.
pub open spec fn is_whole_cell(steps: Seq<TermStep>, row: u16, col: u16) -> bool {
    &&& screen_cell(steps, row, col) matches Some((first, second))
    &&& first ==> col + 1 < screen_size(steps).1 && (screen_cell(steps, row, (col + 1) as u16)
        matches Some(next) && next.1)
    &&& second ==> col > 0 && (screen_cell(steps, row, (col - 1) as u16) matches Some(prev)
        && prev.0)
}

/// Whether no half of a character is on the screen without the other half.
pub open spec fn is_whole(steps: Seq<TermStep>) -> bool {
    forall|row: u16, col: u16|
        row < screen_size(steps).0 && col < screen_size(steps).1 ==> #[trigger] is_whole_cell(
            steps,
            row,
            col,
        )
}

/// Whether an emulator takes any byte.
pub open spec fn can_take(steps: Seq<TermStep>) -> bool {
    is_drawable(screen_size(steps)) && on_screen(steps) && is_whole(steps)
}

/// Whether a screen can be cut to a number of columns without cutting a character in two.
pub open spec fn cuts_nothing(steps: Seq<TermStep>, cols: u16) -> bool {
    cols >= screen_size(steps).1 || forall|row: u16|
        row < screen_size(steps).0 ==> (#[trigger] screen_cell(steps, row, (cols - 1) as u16)
            matches Some(cell) ==> !cell.0)
}

/// The greater of two numbers.
pub open spec fn greater(a: u16, b: u16) -> u16 {
    if a < b {
        b
    } else {
        a
    }
}

/// The greatest numbers of rows and of columns at which an emulator has been given output.
pub open spec fn drawn_after(steps: Seq<TermStep>) -> (u16, u16)
    decreases steps.len(),
{
    if steps.len() == 0 {
        (0, 0)
    } else {
        let drawn = drawn_after(steps.drop_last());
        let size = screen_size(steps.drop_last());
        if steps.last() is Byte {
            (greater(drawn.0, size.0), greater(drawn.1, size.1))
        } else {
            drawn
        }
    }
}

/// Whether an emulator has lost no column that was ever drawn on, and never got a byte that it
/// could not take.
pub open spec fn is_kept(steps: Seq<TermStep>) -> bool
    decreases steps.len(),
{
    if steps.len() == 0 {
        false
    } else {
        let before = steps.drop_last();
        match steps.last() {
            TermStep::Open { rows, cols, scrollback } => before.len() == 0 && is_drawable(
                (rows, cols),
            ),
            TermStep::Byte(b) => is_kept(before) && can_take(before),
            TermStep::Resize { rows, cols } => {
                &&& is_kept(before)
                &&& is_drawable((rows, cols))
                &&& cols >= drawn_after(before).1
            },
        }
    }
}

/// Whether an emulator is no lower than it ever was when it was given output.
pub open spec fn is_high(steps: Seq<TermStep>) -> bool {
    screen_size(steps).0 >= drawn_after(steps).0
}

/// Whether a byte may end a sequence that restores an earlier cursor.
pub open spec fn may_restore(byte: u8) -> bool {
    byte == '8' as u8 || byte == 'l' as u8
}

/// Whether a byte may end a sequence that restores an earlier cursor or changes the screen in use.
pub open spec fn may_switch(byte: u8) -> bool {
    may_restore(byte) || byte == 'h' as u8
}

/// The steps with output behind them.
pub open spec fn with_output(steps: Seq<TermStep>, bytes: Seq<u8>) -> Seq<TermStep> {
    steps + bytes.map_values(|b: u8| TermStep::Byte(b))
}

/// How many bytes of output an emulator takes, one by one.
pub open spec fn takeable(steps: Seq<TermStep>, bytes: Seq<u8>) -> nat
    decreases bytes.len(),
{
    if bytes.len() == 0 || !can_take(steps) {
        0
    } else {
        1 + takeable(steps.push(TermStep::Byte(bytes[0])), bytes.skip(1))
    }
}

/// Makes an emulator with `vt100::Parser::new`, which takes one from the number of rows. Its screen
/// is empty, and its cursor stands in the upper left corner.
#[verifier::external_body]
pub(crate) fn open_terminal(rows: u16, cols: u16, scrollback: usize) -> (parser: vt100::Parser)
    requires
        rows > 0,
        cols > 0,
    ensures
        terminal_steps(parser) == seq![TermStep::Open { rows, cols, scrollback }],
        screen_size(terminal_steps(parser)) == (rows, cols),
        screen_cursor(terminal_steps(parser)) == (0u16, 0u16),
        !screen_alternate(terminal_steps(parser)),
        is_whole(terminal_steps(parser)),
{
    vt100::Parser::new(rows, cols, scrollback)
}

/// Changes the size with `vt100::Parser::set_size`, which takes one from the numbers of rows and
/// columns. The emulator depends on nothing but what is done to it, so this adds one step to what
/// has been done. The cursor is brought back onto the screen. Lines are cut at their ends or filled
/// up with empty cells, so that a character loses a half only where its first half stands in the
/// last column that is left. In columns that were never drawn on there are no characters.
#[verifier::external_body]
pub(crate) fn resize_terminal(parser: &mut vt100::Parser, rows: u16, cols: u16)
    requires
        rows > 0,
        cols > 0,
    ensures
        terminal_steps(*final(parser)) == terminal_steps(*old(parser)).push(
            TermStep::Resize { rows, cols },
        ),
        screen_size(terminal_steps(*final(parser))) == (rows, cols),
        screen_alternate(terminal_steps(*final(parser))) == screen_alternate(
            terminal_steps(*old(parser)),
        ),
        on_screen(terminal_steps(*final(parser))),
        is_whole(terminal_steps(*old(parser))) && cuts_nothing(terminal_steps(*old(parser)), cols)
            ==> is_whole(terminal_steps(*final(parser))),
        is_kept(terminal_steps(*final(parser))) ==> is_whole(terminal_steps(*final(parser))),
{
    parser.set_size(rows, cols)
}

/// Hands a byte to `vt100::Parser::process`, which takes output byte by byte. That function can
/// panic where the cursor is not on the screen, or where a half of a character has lost the other.
/// A byte leaves both as they should be, on the screen that is in use. The screen in use changes,
/// and an earlier cursor is restored, only at the end of `ESC 8`, of a sequence that ends in `h` or
/// `l`, and of `ESC c`, which makes an empty screen. A cursor is outside of the screen when it is
/// restored only where it was saved on a larger one.
#[verifier::external_body]
pub(crate) fn feed_byte(parser: &mut vt100::Parser, byte: u8)
    requires
        can_take(terminal_steps(*old(parser))),
    ensures
        terminal_steps(*final(parser)) == terminal_steps(*old(parser)).push(TermStep::Byte(byte)),
        screen_size(terminal_steps(*final(parser))) == screen_size(terminal_steps(*old(parser))),
        screen_alternate(terminal_steps(*final(parser))) == screen_alternate(
            terminal_steps(*old(parser)),
        ) ==> is_whole(terminal_steps(*final(parser))),
        !may_switch(byte) ==> can_take(terminal_steps(*final(parser))),
        is_kept(terminal_steps(*final(parser))) && (is_high(terminal_steps(*final(parser)))
            || !may_restore(byte)) ==> can_take(terminal_steps(*final(parser))),
{
    parser.process(&[byte])
}

/// What is on the screen does not depend on how output is cut into chunks.
pub proof fn law_screen_ignores_chunking(steps: Seq<TermStep>, a: Seq<u8>, b: Seq<u8>)
    ensures
        with_output(with_output(steps, a), b) == with_output(steps, a + b),
{
}

/// How much of the output is taken does not depend on it either: of two chunks the second has its
/// turn where the first is taken whole.
pub proof fn law_taking_ignores_chunking(steps: Seq<TermStep>, a: Seq<u8>, b: Seq<u8>)
    ensures
        takeable(steps, a) <= a.len(),
        takeable(steps, a + b) == if takeable(steps, a) < a.len() {
            takeable(steps, a)
        } else {
            a.len() + takeable(with_output(steps, a), b)
        },
    decreases a.len(),
{
    if a.len() == 0 {
        assert(a + b == b);
        assert(with_output(steps, a) == steps);
    } else if can_take(steps) {
        let next = steps.push(TermStep::Byte(a[0]));
        assert((a + b).skip(1) == a.skip(1) + b);
        assert(with_output(next, a.skip(1)) == with_output(steps, a));
        law_taking_ignores_chunking(next, a.skip(1), b);
    }
}

/// Reads the text on the screen with `vt100::Screen::contents`.
#[verifier::external_body]
pub(crate) fn terminal_text(parser: &vt100::Parser) -> (text: String)
    ensures
        text@ == screen_text(terminal_steps(*parser)),
{
    parser.screen().contents()
}

/// Reads the position of the cursor with `vt100::Screen::cursor_position`: its row, then its
/// column.
#[verifier::external_body]
pub(crate) fn terminal_cursor(parser: &vt100::Parser) -> (cursor: (u16, u16))
    ensures
        cursor == screen_cursor(terminal_steps(*parser)),
{
    parser.screen().cursor_position()
}

/// Reads the numbers of rows and columns with `vt100::Screen::size`.
#[verifier::external_body]
pub(crate) fn terminal_size(parser: &vt100::Parser) -> (size: (u16, u16))
    ensures
        size == screen_size(terminal_steps(*parser)),
{
    parser.screen().size()
}

/// Asks with `vt100::Screen::alternate_screen` whether the alternate screen is in use.
#[verifier::external_body]
pub(crate) fn terminal_alternate(parser: &vt100::Parser) -> (alternate: bool)
    ensures
        alternate == screen_alternate(terminal_steps(*parser)),
{
    parser.screen().alternate_screen()
}

/// Reads with `vt100::Screen::cell`, where there is a cell, what `Cell::is_wide` and
/// `Cell::is_wide_continuation` say of it.
#[verifier::external_body]
pub(crate) fn terminal_cell(parser: &vt100::Parser, row: u16, col: u16) -> (cell: Option<
    (bool, bool),
>)
    ensures
        cell == screen_cell(terminal_steps(*parser), row, col),
{
    parser.screen().cell(row, col).map(|cell| (cell.is_wide(), cell.is_wide_continuation()))
}

fn whole_cell(parser: &vt100::Parser, cols: u16, row: u16, col: u16) -> (whole: bool)
    requires
        screen_size(terminal_steps(*parser)).1 == cols,
        col < cols,
    ensures
        whole == is_whole_cell(terminal_steps(*parser), row, col),
{
    match terminal_cell(parser, row, col) {
        Some((first, second)) => {
            if first {
                if cols - col < 2 {
                    return false;
                }
                match terminal_cell(parser, row, col + 1) {
                    Some((_, next_second)) => {
                        if !next_second {
                            return false;
                        }
                    },
                    None => {
                        return false;
                    },
                }
            }
            if second {
                if col == 0 {
                    return false;
                }
                match terminal_cell(parser, row, col - 1) {
                    Some((prev_first, _)) => prev_first,
                    None => false,
                }
            } else {
                true
            }
        },
        None => false,
    }
}

/// Tells whether no half of a character is on the screen without the other half.
pub(crate) fn whole_screen(parser: &vt100::Parser, rows: u16, cols: u16) -> (whole: bool)
    requires
        screen_size(terminal_steps(*parser)) == (rows, cols),
    ensures
        whole == is_whole(terminal_steps(*parser)),
{
    let ghost steps = terminal_steps(*parser);
    let mut row: u16 = 0;
    while row < rows
        invariant
            steps == terminal_steps(*parser),
            screen_size(steps) == (rows, cols),
            row <= rows,
            forall|r: u16, c: u16| r < row && c < cols ==> #[trigger] is_whole_cell(steps, r, c),
        decreases rows - row,
    {
        let mut col: u16 = 0;
        while col < cols
            invariant
                steps == terminal_steps(*parser),
                screen_size(steps) == (rows, cols),
                row < rows,
                col <= cols,
                forall|c: u16| c < col ==> #[trigger] is_whole_cell(steps, row, c),
            decreases cols - col,
        {
            if !whole_cell(parser, cols, row, col) {
                return false;
            }
            col += 1;
        }
        row += 1;
    }
    true
}

/// An emulator takes a byte on any screen of 2 rows and 3 columns or more, below 65528 columns, with
/// the cursor on it and every character whole.
pub proof fn law_when_a_byte_is_taken(steps: Seq<TermStep>)
    ensures
        can_take(steps) <==> {
            &&& screen_size(steps).0 >= 2
            &&& 3 <= screen_size(steps).1 < 65528
            &&& screen_cursor(steps).0 < screen_size(steps).0
            &&& screen_cursor(steps).1 <= screen_size(steps).1
            &&& is_whole(steps)
        },
{
}

/// A screen on which no cell holds half of a character is whole, where it has all its cells.
pub proof fn law_narrow_characters_are_whole(steps: Seq<TermStep>)
    requires
        forall|row: u16, col: u16|
            row < screen_size(steps).0 && col < screen_size(steps).1 ==> #[trigger] screen_cell(
                steps,
                row,
                col,
            ) == Some((false, false)),
    ensures
        is_whole(steps),
{
}

} // verus!
