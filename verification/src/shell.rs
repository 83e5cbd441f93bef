//! The shell's terminal: its size, its screen, and whether a full-screen program has taken it over.

use vstd::prelude::*;

use crate::bytes::{contains_seq, holds, law_occurring_is_being_held, occurs, stands_at};
use crate::terminal::{
    can_take, cuts_nothing, drawn_after, feed_byte, is_drawable, is_high, is_kept, is_whole,
    may_switch, on_screen, open_terminal, resize_terminal, screen_alternate, screen_cursor, screen_size,
    takeable, terminal_alternate, terminal_cursor, terminal_size, terminal_steps, whole_screen,
    with_output, TermStep, TOO_WIDE,
};

verus! {

/// The least number of rows of the shell's terminal.
pub const MIN_ROWS: u16 = 5;

/// The least number of columns of the shell's terminal.
pub const MIN_COLS: u16 = 10;

/// The number of lines that have left the screen at its top and are kept.
pub const SCROLLBACK: usize = 20_000;

/// The number of bytes of output in which a switch of the screen is looked for.
pub const KEEP: usize = 96;

/// `ESC [ ? 1049 h`
pub const ENTER_1049: [u8; 8] = [0x1b, 0x5b, 0x3f, 0x31, 0x30, 0x34, 0x39, 0x68];

/// `ESC [ ? 47 h`
pub const ENTER_47: [u8; 6] = [0x1b, 0x5b, 0x3f, 0x34, 0x37, 0x68];

/// `ESC [ ? 1047 h`
pub const ENTER_1047: [u8; 8] = [0x1b, 0x5b, 0x3f, 0x31, 0x30, 0x34, 0x37, 0x68];

/// `ESC [ ? 1049 l`
pub const LEAVE_1049: [u8; 8] = [0x1b, 0x5b, 0x3f, 0x31, 0x30, 0x34, 0x39, 0x6c];

/// `ESC [ ? 47 l`
pub const LEAVE_47: [u8; 6] = [0x1b, 0x5b, 0x3f, 0x34, 0x37, 0x6c];

/// `ESC [ ? 1047 l`
pub const LEAVE_1047: [u8; 8] = [0x1b, 0x5b, 0x3f, 0x31, 0x30, 0x34, 0x37, 0x6c];

/// Whether a byte string switches to the alternate screen.
pub open spec fn is_enter(s: Seq<u8>) -> bool {
    s == ENTER_1049@ || s == ENTER_47@ || s == ENTER_1047@
}

/// Whether a byte string switches back to the normal screen.
pub open spec fn is_leave(s: Seq<u8>) -> bool {
    s == LEAVE_1049@ || s == LEAVE_47@ || s == LEAVE_1047@
}

/// Whether output holds a switch to the alternate screen.
pub open spec fn enters(output: Seq<u8>) -> bool {
    occurs(output, ENTER_1049@) || occurs(output, ENTER_47@) || occurs(output, ENTER_1047@)
}

/// Whether output holds a switch back to the normal screen.
pub open spec fn leaves(output: Seq<u8>) -> bool {
    occurs(output, LEAVE_1049@) || occurs(output, LEAVE_47@) || occurs(output, LEAVE_1047@)
}

/// The last `n` bytes of a byte string, or all of it where it has no more.
pub open spec fn last_bytes(s: Seq<u8>, n: nat) -> Seq<u8> {
    if s.len() <= n {
        s
    } else {
        s.skip(s.len() - n)
    }
}

/// The tail of the output that is kept once a chunk has followed an earlier tail.
pub open spec fn next_tail(tail: Seq<u8>, chunk: Seq<u8>) -> Seq<u8> {
    last_bytes(tail + chunk, KEEP as nat)
}

/// Whether the alternate screen is on after output with the given tail: a switch back in the tail
/// turns it off, else a switch to it turns it on, else it stays as it was.
pub open spec fn alt_screen_after(was: bool, tail: Seq<u8>) -> bool {
    if leaves(tail) {
        false
    } else {
        was || enters(tail)
    }
}

/// The terminal of the shell.
pub struct Shell {
    /// The emulator, which holds the screen.
    pub parser: vt100::Parser,
    pub rows: u16,
    pub cols: u16,
    pub in_alt_screen: bool,
    /// The last bytes of the output seen so far.
    pub esc_tail: Vec<u8>,
}

/// A number of rows, raised to the least that there may be.
pub open spec fn clamp_rows(rows: u16) -> u16 {
    if rows < MIN_ROWS {
        MIN_ROWS
    } else {
        rows
    }
}

/// A number of columns, raised to the least that there may be.
pub open spec fn clamp_cols(cols: u16) -> u16 {
    if cols < MIN_COLS {
        MIN_COLS
    } else {
        cols
    }
}

/// Whether a terminal is the one before it after a change of its size, and `changed` the size
/// that its other end must be told.
pub open spec fn is_resized(
    before: Shell,
    after: Shell,
    rows: u16,
    cols: u16,
    changed: Option<(u16, u16)>,
) -> bool {
    let size = (clamp_rows(rows), clamp_cols(cols));
    if size == (before.rows, before.cols) {
        changed is None && after == before
    } else {
        &&& changed == Some(size)
        &&& after == (Shell { parser: after.parser, rows: size.0, cols: size.1, ..before })
        &&& terminal_steps(after.parser) == terminal_steps(before.parser).push(
            TermStep::Resize { rows: size.0, cols: size.1 },
        )
        &&& screen_size(terminal_steps(after.parser)) == size
        &&& on_screen(terminal_steps(after.parser))
        &&& is_whole(terminal_steps(before.parser)) && cuts_nothing(
            terminal_steps(before.parser),
            size.1,
        ) ==> is_whole(terminal_steps(after.parser))
    }
}

/// Whether a terminal is the one before it after it was given the first bytes of a chunk of output,
/// as many as its emulator takes.
pub open spec fn is_fed(before: Shell, after: Shell, chunk: Seq<u8>, given: usize) -> bool {
    let steps = terminal_steps(before.parser);
    &&& given == takeable(steps, chunk)
    &&& given <= chunk.len()
    &&& after == (Shell { parser: after.parser, ..before })
    &&& given == 0 ==> after == before
    &&& terminal_steps(after.parser) == with_output(steps, chunk.take(given as int))
    &&& screen_size(terminal_steps(after.parser)) == screen_size(steps)
}

/// Whether a chunk of output was given whole, or up to a byte that may have restored a cursor or
/// changed the screen in use.
pub open spec fn is_given(chunk: Seq<u8>, given: usize) -> bool {
    given == chunk.len() || (0 < given < chunk.len() && may_switch(chunk[given - 1]))
}

fn at_least(value: u16, least: u16) -> (raised: u16)
    ensures
        raised == if value < least {
            least
        } else {
            value
        },
{
    if value < least {
        least
    } else {
        value
    }
}

impl Shell {
    /// The terminal has at least the least size, no more output is kept than needed, and an
    /// emulator that has lost nothing that was drawn on takes output.
    pub open spec fn wf(self) -> bool {
        &&& self.rows >= MIN_ROWS
        &&& self.cols >= MIN_COLS
        &&& self.esc_tail@.len() <= KEEP
        &&& self.has_lost_nothing() ==> can_take(terminal_steps(self.parser))
    }

    /// Whether the emulator has lost no column and no row that was ever drawn on, save for rows that
    /// are there again.
    pub open spec fn has_lost_nothing(self) -> bool {
        is_kept(terminal_steps(self.parser)) && is_high(terminal_steps(self.parser))
    }

    /// Makes a terminal of the given size, or of the least size where that is smaller.
    pub fn new(rows: u16, cols: u16) -> (shell: Self)
        ensures
            shell.wf(),
            shell.rows == clamp_rows(rows),
            shell.cols == clamp_cols(cols),
            !shell.in_alt_screen,
            shell.esc_tail@ == Seq::<u8>::empty(),
            cols < TOO_WIDE ==> shell.has_lost_nothing(),
            screen_size(terminal_steps(shell.parser)) == (shell.rows, shell.cols),
            screen_cursor(terminal_steps(shell.parser)) == (0u16, 0u16),
            terminal_steps(shell.parser) == seq![
                TermStep::Open {
                    rows: clamp_rows(rows),
                    cols: clamp_cols(cols),
                    scrollback: SCROLLBACK,
                },
            ],
            terminal_steps(shell.parser)[0]->scrollback == 20_000,
    {
        let rows: u16 = at_least(rows, MIN_ROWS);
        let cols: u16 = at_least(cols, MIN_COLS);
        let parser = open_terminal(rows, cols, SCROLLBACK);
        let ghost none = Seq::<TermStep>::empty();
        assert(terminal_steps(parser).drop_last() == none);
        assert(drawn_after(none) == (0u16, 0u16));
        Shell {
            parser,
            rows,
            cols,
            in_alt_screen: false,
            esc_tail: Vec::with_capacity(128),
        }
    }

    /// Changes the size of the terminal and gives the size that its other end must be told, or
    /// nothing where the size is the one that it has.
    pub fn set_size(&mut self, rows: u16, cols: u16) -> (changed: Option<(u16, u16)>)
        ensures
            is_resized(*old(self), *final(self), rows, cols, changed),
            old(self).wf() ==> final(self).wf(),
    {
        let rows: u16 = at_least(rows, MIN_ROWS);
        let cols: u16 = at_least(cols, MIN_COLS);
        if rows == self.rows && cols == self.cols {
            return None;
        }
        self.rows = rows;
        self.cols = cols;
        let ghost before = terminal_steps(self.parser);
        resize_terminal(&mut self.parser, rows, cols);
        assert(terminal_steps(self.parser).drop_last() == before);
        Some((rows, cols))
    }

    /// Gives a chunk of output to the emulator, byte by byte up to where it can take no more, and
    /// tells how many bytes it was given. It can take no more where a cursor was restored outside of
    /// a screen that has become smaller, or where half of a character was cut off by the end of a
    /// line, until that is no longer on the screen. What it cannot take is for the caller to deal
    /// with.
    pub fn feed(&mut self, chunk: &[u8]) -> (given: usize)
        ensures
            is_fed(*old(self), *final(self), chunk@, given),
            old(self).wf() && old(self).has_lost_nothing() ==> given == chunk@.len()
                && final(self).has_lost_nothing(),
            can_take(terminal_steps(old(self).parser)) ==> is_given(chunk@, given),
            old(self).wf() ==> final(self).wf(),
    {
        let ghost start = *self;
        let ghost first = terminal_steps(self.parser);
        let (rows, cols) = terminal_size(&self.parser);
        let drawable: bool = rows >= 2 && cols >= 3 && cols < TOO_WIDE;
        let mut whole: bool = whole_screen(&self.parser, rows, cols);
        let mut alternate: bool = terminal_alternate(&self.parser);
        let mut n: usize = 0;
        assert(with_output(first, chunk@.take(0)) == first);
        assert(chunk@.skip(0) == chunk@);
        while n < chunk.len()
            invariant
                start == *old(self),
                first == terminal_steps(start.parser),
                n <= chunk@.len(),
                drawable == (rows >= 2 && 3 <= cols < TOO_WIDE),
                *self == (Shell { parser: self.parser, ..start }),
                n == 0 ==> *self == start,
                screen_size(first) == (rows, cols),
                screen_size(terminal_steps(self.parser)) == (rows, cols),
                whole == is_whole(terminal_steps(self.parser)),
                alternate == screen_alternate(terminal_steps(self.parser)),
                terminal_steps(self.parser) == with_output(first, chunk@.take(n as int)),
                takeable(first, chunk@) == n + takeable(
                    terminal_steps(self.parser),
                    chunk@.skip(n as int),
                ),
                can_take(first) ==> can_take(terminal_steps(self.parser)) || (n > 0 && may_switch(
                    chunk@[n - 1],
                )),
                start.wf() && start.has_lost_nothing() ==> self.has_lost_nothing() && can_take(
                    terminal_steps(self.parser),
                ),
                start.wf() ==> self.wf(),
            decreases chunk@.len() - n,
        {
            let ghost steps = terminal_steps(self.parser);
            let ghost rest = chunk@.skip(n as int);
            let (row, col) = terminal_cursor(&self.parser);
            if !drawable || !whole || row >= rows || col > cols {
                return n;
            }
            let byte: u8 = chunk[n];
            feed_byte(&mut self.parser, byte);
            let now: bool = terminal_alternate(&self.parser);
            if now != alternate {
                whole = whole_screen(&self.parser, rows, cols);
                alternate = now;
            }
            proof {
                let next = terminal_steps(self.parser);
                assert(next.drop_last() == steps);
                assert(rest[0] == byte);
                assert(rest.skip(1) == chunk@.skip(n + 1));
                assert(next == with_output(first, chunk@.take(n + 1)));
                assert(chunk@[n as int] == byte);
            }
            n += 1;
        }
        assert(chunk@.take(n as int) == chunk@);
        n
    }

    /// Takes note of a chunk of output, as far as it switches between the screens.
    pub fn observe_alt_screen(&mut self, chunk: &[u8])
        ensures
            final(self).esc_tail@ == next_tail(old(self).esc_tail@, chunk@),
            final(self).in_alt_screen == alt_screen_after(
                old(self).in_alt_screen,
                final(self).esc_tail@,
            ),
            *final(self) == (Shell {
                esc_tail: final(self).esc_tail,
                in_alt_screen: final(self).in_alt_screen,
                ..*old(self)
            }),
            old(self).wf() ==> final(self).wf(),
    {
        self.esc_tail.extend_from_slice(chunk);
        assert(self.esc_tail@ == old(self).esc_tail@ + chunk@);
        if self.esc_tail.len() > KEEP {
            let start: usize = self.esc_tail.len() - KEEP;
            self.esc_tail = self.esc_tail.split_off(start);
        }
        assert(self.esc_tail@ == next_tail(old(self).esc_tail@, chunk@));
        let enter_1049: [u8; 8] = ENTER_1049;
        let enter_47: [u8; 6] = ENTER_47;
        let enter_1047: [u8; 8] = ENTER_1047;
        let leave_1049: [u8; 8] = LEAVE_1049;
        let leave_47: [u8; 6] = LEAVE_47;
        let leave_1047: [u8; 8] = LEAVE_1047;
        let buf = self.esc_tail.as_slice();
        let entered: bool = contains_seq(buf, enter_1049.as_slice()) || contains_seq(
            buf,
            enter_47.as_slice(),
        ) || contains_seq(buf, enter_1047.as_slice());
        let left: bool = contains_seq(buf, leave_1049.as_slice()) || contains_seq(
            buf,
            leave_47.as_slice(),
        ) || contains_seq(buf, leave_1047.as_slice());
        if entered {
            self.in_alt_screen = true;
        }
        if left {
            self.in_alt_screen = false;
        }
    }
}

/// The tail that is kept does not depend on how the output is cut into chunks.
pub proof fn law_tail_ignores_chunking(tail: Seq<u8>, a: Seq<u8>, b: Seq<u8>)
    ensures
        next_tail(next_tail(tail, a), b) == next_tail(tail, a + b),
{
    let all = tail + a + b;
    assert(tail + (a + b) == all);
    let kept = next_tail(tail, a);
    assert(kept + b == all.skip(all.len() - (kept + b).len()));
    assert(next_tail(kept, b) =~= last_bytes(all, KEEP as nat));
}

/// A short byte string at the end of the output stands in the tail.
proof fn lemma_ending_is_in_tail(output: Seq<u8>, s: Seq<u8>)
    requires
        s.len() <= KEEP,
        s.is_suffix_of(output),
    ensures
        occurs(last_bytes(output, KEEP as nat), s),
{
    let tail = last_bytes(output, KEEP as nat);
    let at = tail.len() - s.len();
    assert(tail.subrange(at, at + s.len()) =~= s);
    assert(stands_at(tail, s, at));
}

/// A switch back to the normal screen takes effect at once, also where two chunks share it.
pub proof fn law_leaving_is_seen(tail: Seq<u8>, a: Seq<u8>, b: Seq<u8>, s: Seq<u8>, was: bool)
    requires
        is_leave(s),
        s.is_suffix_of(tail + a + b),
    ensures
        !alt_screen_after(was, next_tail(next_tail(tail, a), b)),
{
    law_tail_ignores_chunking(tail, a, b);
    assert(tail + (a + b) == tail + a + b);
    lemma_ending_is_in_tail(tail + a + b, s);
}

/// A switch to the alternate screen takes effect at once, also where two chunks share it, unless
/// a switch back is among the bytes that are kept.
pub proof fn law_entering_is_seen(tail: Seq<u8>, a: Seq<u8>, b: Seq<u8>, s: Seq<u8>, was: bool)
    requires
        is_enter(s),
        s.is_suffix_of(tail + a + b),
        !leaves(next_tail(tail, a + b)),
    ensures
        alt_screen_after(was, next_tail(next_tail(tail, a), b)),
{
    law_tail_ignores_chunking(tail, a, b);
    assert(tail + (a + b) == tail + a + b);
    lemma_ending_is_in_tail(tail + a + b, s);
}

/// The byte string `ESC [ ?`, a number in ASCII digits, and a last byte.
pub open spec fn mode_switch(digits: Seq<u8>, last: u8) -> Seq<u8> {
    seq![0x1bu8, 0x5bu8, 0x3fu8] + digits + seq![last]
}

/// Whether output holds the mode 1049, 47 or 1047, set by `h` or reset by `l`.
pub open spec fn holds_mode(tail: Seq<u8>, last: u8) -> bool {
    ||| holds(tail, mode_switch(seq![0x31u8, 0x30u8, 0x34u8, 0x39u8], last))
    ||| holds(tail, mode_switch(seq![0x34u8, 0x37u8], last))
    ||| holds(tail, mode_switch(seq![0x31u8, 0x30u8, 0x34u8, 0x37u8], last))
}

/// The alternate screen is on exactly where none of the modes 1049, 47 and 1047 is reset in the
/// kept output, and it was on before or one of them is set there. No other output switches it.
pub proof fn law_only_three_modes_switch_the_screen(was: bool, tail: Seq<u8>)
    ensures
        alt_screen_after(was, tail) <==> !holds_mode(tail, 0x6c) && (was || holds_mode(tail, 0x68)),
{
    let a = seq![0x31u8, 0x30u8, 0x34u8, 0x39u8];
    let b = seq![0x34u8, 0x37u8];
    let c = seq![0x31u8, 0x30u8, 0x34u8, 0x37u8];
    assert(ENTER_1049@ =~= mode_switch(a, 0x68));
    assert(ENTER_47@ =~= mode_switch(b, 0x68));
    assert(ENTER_1047@ =~= mode_switch(c, 0x68));
    assert(LEAVE_1049@ =~= mode_switch(a, 0x6c));
    assert(LEAVE_47@ =~= mode_switch(b, 0x6c));
    assert(LEAVE_1047@ =~= mode_switch(c, 0x6c));
    law_occurring_is_being_held(tail, ENTER_1049@);
    law_occurring_is_being_held(tail, ENTER_47@);
    law_occurring_is_being_held(tail, ENTER_1047@);
    law_occurring_is_being_held(tail, LEAVE_1049@);
    law_occurring_is_being_held(tail, LEAVE_47@);
    law_occurring_is_being_held(tail, LEAVE_1047@);
}

/// What is kept of the output is its end: all of it up to 96 bytes, and the last 96 of more.
pub proof fn law_the_end_of_the_output_is_kept(tail: Seq<u8>, chunk: Seq<u8>)
    ensures
        ({
            let kept = next_tail(tail, chunk);
            let all = tail + chunk;
            &&& kept.is_suffix_of(all)
            &&& all.len() <= 96 ==> kept.len() == all.len()
            &&& all.len() > 96 ==> kept.len() == 96
        }),
{
    let all = tail + chunk;
    let kept = next_tail(tail, chunk);
    assert(kept =~= all.subrange(all.len() - kept.len(), all.len() as int));
}

/// A change of size takes effect, with at least 5 rows and 10 columns; it is told exactly where the
/// size has changed; and it changes nothing but the size.
pub proof fn law_resizing(
    before: Shell,
    after: Shell,
    rows: u16,
    cols: u16,
    changed: Option<(u16, u16)>,
)
    requires
        is_resized(before, after, rows, cols, changed),
    ensures
        after.rows == if rows < 5 {
            5
        } else {
            rows
        },
        after.cols == if cols < 10 {
            10
        } else {
            cols
        },
        changed is Some <==> before.rows != after.rows || before.cols != after.cols,
        changed is Some ==> changed->0 == (after.rows, after.cols),
        changed is None ==> after.parser == before.parser,
        changed is Some ==> {
            let steps = terminal_steps(after.parser);
            &&& steps.len() == terminal_steps(before.parser).len() + 1
            &&& steps.drop_last() == terminal_steps(before.parser)
            &&& steps.last() == TermStep::Resize { rows: after.rows, cols: after.cols }
        },
        after.in_alt_screen == before.in_alt_screen,
        after.esc_tail == before.esc_tail,
{
    if changed is Some {
        assert(terminal_steps(after.parser).drop_last() =~= terminal_steps(before.parser));
    }
}

/// The emulator gets the output byte for byte and in order, as much of it as it can take, and
/// nothing else changes.
pub proof fn law_feeding(before: Shell, after: Shell, chunk: Seq<u8>, given: usize)
    requires
        is_fed(before, after, chunk, given),
    ensures
        ({
            let old_steps = terminal_steps(before.parser);
            let new_steps = terminal_steps(after.parser);
            &&& given <= chunk.len()
            &&& new_steps.len() == old_steps.len() + given
            &&& forall|i: int| 0 <= i < old_steps.len() ==> new_steps[i] == old_steps[i]
            &&& forall|i: int|
                0 <= i < given ==> #[trigger] new_steps[old_steps.len() + i] == TermStep::Byte(
                    chunk[i],
                )
            &&& given < chunk.len() ==> !can_take(new_steps)
        }),
        after.rows == before.rows,
        after.cols == before.cols,
        after.in_alt_screen == before.in_alt_screen,
        after.esc_tail == before.esc_tail,
{
    let steps = terminal_steps(before.parser);
    lemma_takes_all_it_can(steps, chunk);
    let bytes = chunk.take(given as int);
    assert forall|i: int| 0 <= i < given implies #[trigger] terminal_steps(
        after.parser,
    )[steps.len() + i] == TermStep::Byte(chunk[i]) by {
        assert(bytes[i] == chunk[i]);
    }
}

/// Behind the bytes that are taken there is none that could be.
proof fn lemma_takes_all_it_can(steps: Seq<TermStep>, bytes: Seq<u8>)
    ensures
        takeable(steps, bytes) <= bytes.len(),
        takeable(steps, bytes) < bytes.len() ==> !can_take(
            with_output(steps, bytes.take(takeable(steps, bytes) as int)),
        ),
    decreases bytes.len(),
{
    if bytes.len() > 0 && can_take(steps) {
        let next = steps.push(TermStep::Byte(bytes[0]));
        let rest = bytes.skip(1);
        lemma_takes_all_it_can(next, rest);
        let n = takeable(next, rest) as int;
        assert(with_output(next, rest.take(n)) =~= with_output(steps, bytes.take(n + 1)));
    } else {
        assert(with_output(steps, bytes.take(0)) =~= steps);
    }
}

/// Any size of at least 5 rows and 10 columns, below 65528 columns, can be drawn on.
pub proof fn law_ordinary_sizes_are_drawable(rows: u16, cols: u16)
    requires
        rows >= 5,
        10 <= cols < 65528,
    ensures
        is_drawable((rows, cols)),
{
}

} // verus!
