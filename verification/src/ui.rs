//! What is on the screen: the header, the directory listing, the shell's pane and the footer, or
//! the shell's pane alone while a full-screen program runs in it.

use vstd::prelude::*;

use crate::app::{App, Cwd};
use crate::layout::{
    are_bands, block_inner, cursor_place, inside_border, place_cursor, sat_sub, screen_bands,
    split_bands, tree_rows, Rect, FOOTER_HEIGHT, HEADER_HEIGHT, SHELL_MIN_HEIGHT,
};
use crate::listing::{
    column_width, law_listing_uses_the_height, lines, listing_text, render_3col_listing,
};
use crate::shell::{is_resized, Shell};
use crate::terminal::{screen_cursor, screen_text, terminal_cursor, terminal_steps, terminal_text};

verus! {

/// The colours in use.
#[derive(Clone, Copy, Debug, PartialEq, Eq, Structural)]
pub enum Color {
    Black,
    Cyan,
    Gray,
    White,
    LightYellow,
}

/// A piece of text in one style.
#[derive(Debug)]
pub struct Span {
    pub text: String,
    pub fg: Color,
    pub bg: Option<Color>,
    pub bold: bool,
}

/// A piece of text in one style, with its characters.
#[verifier::ext_equal]
pub struct SpanView {
    pub text: Seq<char>,
    pub fg: Color,
    pub bg: Option<Color>,
    pub bold: bool,
}

impl View for Span {
    type V = SpanView;

    open spec fn view(&self) -> SpanView {
        SpanView { text: self.text@, fg: self.fg, bg: self.bg, bold: self.bold }
    }
}

/// A pane with a border: the title on the border, its whole area, the area inside the border, and
/// the text in that.
#[derive(Debug)]
pub struct Pane {
    pub title: String,
    pub area: Rect,
    pub inner: Rect,
    pub text: String,
}

/// A pane with the characters of its texts.
#[verifier::ext_equal]
pub struct PaneView {
    pub title: Seq<char>,
    pub area: Rect,
    pub inner: Rect,
    pub text: Seq<char>,
}

impl View for Pane {
    type V = PaneView;

    open spec fn view(&self) -> PaneView {
        PaneView {
            title: self.title@,
            area: self.area,
            inner: self.inner,
            text: self.text@,
        }
    }
}

/// What stands around the shell's pane.
#[derive(Debug)]
pub struct Hud {
    pub header_area: Rect,
    /// The name of the program, on the first line of the header.
    pub name: Span,
    /// The label of the working directory and its path, on the second line.
    pub label: Span,
    pub path: Span,
    /// The pane of the directory listing, with a border and a title on it.
    pub tree_area: Rect,
    pub tree_title: String,
    pub tree: String,
    pub footer_area: Rect,
    pub footer: Span,
}

/// What stands around the shell's pane, with the characters of its texts.
#[verifier::ext_equal]
pub struct HudView {
    pub header_area: Rect,
    pub name: SpanView,
    pub label: SpanView,
    pub path: SpanView,
    pub tree_area: Rect,
    pub tree_title: Seq<char>,
    pub tree: Seq<char>,
    pub footer_area: Rect,
    pub footer: SpanView,
}

impl View for Hud {
    type V = HudView;

    open spec fn view(&self) -> HudView {
        HudView {
            header_area: self.header_area,
            name: self.name@,
            label: self.label@,
            path: self.path@,
            tree_area: self.tree_area,
            tree_title: self.tree_title@,
            tree: self.tree@,
            footer_area: self.footer_area,
            footer: self.footer@,
        }
    }
}

/// A screen: the shell's pane, the place of the cursor, and what stands around the pane unless it
/// takes the whole screen.
#[derive(Debug)]
pub struct Frame {
    pub shell: Pane,
    pub cursor: (u16, u16),
    pub hud: Option<Hud>,
    /// The size that the other end of the shell's terminal must be told, where it has changed.
    pub resized: Option<(u16, u16)>,
}

/// The shell's pane in an area, as its terminal has it.
pub open spec fn shell_pane(shell: Shell, area: Rect) -> PaneView {
    PaneView {
        title: "Shell"@,
        area,
        inner: inside_border(area),
        text: screen_text(terminal_steps(shell.parser)),
    }
}

/// The place of the cursor, for a shell's pane in an area.
pub open spec fn shell_cursor(shell: Shell, area: Rect) -> (u16, u16) {
    cursor_place(inside_border(area), screen_cursor(terminal_steps(shell.parser)))
}

/// The text of the footer.
pub open spec fn footer_text(show_hidden: bool) -> Seq<char> {
    "Ctrl+E quit | F5 refresh | Ctrl+H hidden: "@ + if show_hidden {
        "ON"@
    } else {
        "OFF"@
    }
}

/// What stands around the shell's pane, in the bands for the header, the listing and the footer.
pub open spec fn hud_view(app: App, header: Rect, tree: Rect, footer: Rect) -> HudView {
    HudView {
        header_area: header,
        name: SpanView { text: "HAWK"@, fg: Color::Black, bg: Some(Color::Cyan), bold: true },
        label: SpanView { text: "Current Directory: "@, fg: Color::Gray, bg: None, bold: true },
        path: SpanView { text: app.cwd.text(), fg: Color::White, bg: None, bold: false },
        tree_area: tree,
        tree_title: "Tree"@,
        tree: listing_text(
            app.items@,
            sat_sub(tree.width, 2) as nat,
            sat_sub(tree.height, 2) as nat,
        ),
        footer_area: footer,
        footer: SpanView {
            text: footer_text(app.show_hidden),
            fg: Color::LightYellow,
            bg: None,
            bold: false,
        },
    }
}

/// Whether the terminal of the shell fills the inside of its pane in an area, and nothing but its
/// size has changed to that end.
pub open spec fn is_fitted(before: App, after: App, area: Rect, resized: Option<(u16, u16)>) -> bool {
    let inner = inside_border(area);
    &&& is_resized(before.shell, after.shell, inner.height, inner.width, resized)
    &&& after == (App { shell: after.shell, ..before })
}

/// Drawing the pane again in the same area changes nothing and has nothing to tell.
pub proof fn law_drawing_again_resizes_nothing(
    before: App,
    first: App,
    second: App,
    area: Rect,
    told: Option<(u16, u16)>,
    told_again: Option<(u16, u16)>,
)
    requires
        is_fitted(before, first, area, told),
        is_fitted(first, second, area, told_again),
    ensures
        told_again is None,
        second == first,
{
}

fn span(text: &str, fg: Color, bg: Option<Color>, bold: bool) -> (span: Span)
    ensures
        span@ == (SpanView { text: text@, fg, bg, bold }),
{
    Span { text: text.to_owned(), fg, bg, bold }
}

/// Draws the shell's pane in an area, which its terminal is made to fill, with nothing around it.
pub fn shell_frame(app: &mut App, area: Rect) -> (frame: Frame)
    ensures
        is_fitted(*old(app), *final(app), area, frame.resized),
        frame.shell@ == shell_pane(final(app).shell, area),
        frame.cursor == shell_cursor(final(app).shell, area),
        frame.hud is None,
        old(app).shell.wf() ==> final(app).shell.wf(),
{
    let inner = block_inner(area);
    let resized = app.shell.set_size(inner.height, inner.width);
    let text = terminal_text(&app.shell.parser);
    let cursor = place_cursor(inner, terminal_cursor(&app.shell.parser));
    let shell = Pane { title: "Shell".to_owned(), area, inner, text };
    Frame { shell, cursor, hud: None, resized }
}

/// Draws the header, the listing, the shell's pane and the footer in four bands of the screen.
pub fn hud_frame(app: &mut App, bands: &[Rect]) -> (frame: Frame)
    requires
        bands@.len() == 4,
    ensures
        is_fitted(*old(app), *final(app), bands@[2], frame.resized),
        frame.shell@ == shell_pane(final(app).shell, bands@[2]),
        frame.cursor == shell_cursor(final(app).shell, bands@[2]),
        frame.hud matches Some(hud) && hud@ == hud_view(
            *final(app),
            bands@[0],
            bands@[1],
            bands@[3],
        ),
        frame.hud->0.tree@ == listing_text(
            final(app).items@,
            inside_border(bands@[1]).width as nat,
            inside_border(bands@[1]).height as nat,
        ),
        old(app).shell.wf() ==> final(app).shell.wf(),
{
    let tree_area = bands[1];
    let tree = render_3col_listing(
        app.items.as_slice(),
        tree_area.width.saturating_sub(2) as usize,
        tree_area.height.saturating_sub(2) as usize,
    );
    let mut footer = "Ctrl+E quit | F5 refresh | Ctrl+H hidden: ".to_owned();
    footer.append(if app.show_hidden { "ON" } else { "OFF" });
    let hud = Hud {
        header_area: bands[0],
        name: span("HAWK", Color::Black, Some(Color::Cyan), true),
        label: span("Current Directory: ", Color::Gray, None, true),
        path: span(app.cwd.as_text(), Color::White, None, false),
        tree_area,
        tree_title: "Tree".to_owned(),
        tree,
        footer_area: bands[3],
        footer: Span { text: footer, fg: Color::LightYellow, bg: None, bold: false },
    };
    let frame = shell_frame(app, bands[2]);
    Frame { hud: Some(hud), ..frame }
}

/// Whether four bands of the screen are cut as they should be.
pub open spec fn are_hud_bands(area: Rect, bands: Seq<Rect>) -> bool {
    &&& are_bands(area, bands)
    &&& area.y + area.height <= u16::MAX ==> bands == screen_bands(area)
}

/// Draws the screen. While a full-screen program runs, its pane takes the whole of it.
pub fn ui(app: &mut App, area: Rect) -> (frame: Frame)
    ensures
        is_fitted(*old(app), *final(app), frame.shell.area, frame.resized),
        frame.shell@ == shell_pane(final(app).shell, frame.shell.area),
        frame.cursor == shell_cursor(final(app).shell, frame.shell.area),
        old(app).shell.in_alt_screen ==> frame.shell.area == area && frame.hud is None,
        !old(app).shell.in_alt_screen ==> {
            &&& frame.hud matches Some(hud)
            &&& hud@ == hud_view(*final(app), hud.header_area, hud.tree_area, hud.footer_area)
            &&& hud.tree@ == listing_text(
                final(app).items@,
                inside_border(hud.tree_area).width as nat,
                inside_border(hud.tree_area).height as nat,
            )
            &&& are_hud_bands(
                area,
                seq![hud.header_area, hud.tree_area, frame.shell.area, hud.footer_area],
            )
        },
        old(app).shell.wf() ==> final(app).shell.wf(),
{
    if app.shell.in_alt_screen {
        return shell_frame(app, area);
    }
    let tree: u16 = tree_rows(area.height);
    let bands = split_bands(area, HEADER_HEIGHT, tree, SHELL_MIN_HEIGHT, FOOTER_HEIGHT);
    assert(bands@ == seq![bands@[0], bands@[1], bands@[2], bands@[3]]);
    hud_frame(app, bands.as_slice())
}

/// The listing uses the room inside the border of its own pane. Where the pane has the height for
/// them it shows the lines of all entries, and else as many as it is high, and a note.
pub proof fn law_listing_fills_its_pane(app: App, header: Rect, tree: Rect, footer: Rect, rows: nat)
    requires
        3 * rows >= app.items@.len(),
        3 * rows < app.items@.len() + 3,
    ensures
        ({
            let text = hud_view(app, header, tree, footer).tree;
            let inner = inside_border(tree);
            let items = app.items@;
            let col_w = column_width(inner.width as nat);
            &&& items.len() == 0 ==> text == "[empty]"@
            &&& items.len() > 0 && rows <= inner.height ==> text == lines(items, rows as int, col_w)
            &&& items.len() > 0 && rows > inner.height ==> text == lines(
                items,
                inner.height as int,
                col_w,
            ) + "\u{2026} (truncated)\n"@
        }),
{
    law_listing_uses_the_height(
        app.items@,
        sat_sub(tree.width, 2) as nat,
        sat_sub(tree.height, 2) as nat,
        rows,
    );
}

/// What stands around the shell's pane stands in its own bands, and shows the name of the program,
/// the path of the working directory, and whether hidden names are shown.
pub proof fn law_what_stands_around_the_shell(app: App, header: Rect, tree: Rect, footer: Rect)
    ensures
        ({
            let hud = hud_view(app, header, tree, footer);
            &&& hud.header_area == header
            &&& hud.tree_area == tree
            &&& hud.footer_area == footer
            &&& hud.name.text == "HAWK"@ && hud.name.fg == Color::Black && hud.name.bg == Some(
                Color::Cyan,
            ) && hud.name.bold
            &&& hud.label.text == "Current Directory: "@ && hud.label.fg == Color::Gray
                && hud.label.bg is None && hud.label.bold
            &&& hud.path.fg == Color::White && hud.path.bg is None && !hud.path.bold
            &&& (app.cwd matches Cwd::Text(path) ==> hud.path.text == path@)
            &&& (app.cwd matches Cwd::Native(shown) ==> hud.path.text == shown@)
            &&& hud.tree_title == "Tree"@
            &&& hud.footer.fg == Color::LightYellow && hud.footer.bg is None && !hud.footer.bold
            &&& app.show_hidden ==> hud.footer.text
                == "Ctrl+E quit | F5 refresh | Ctrl+H hidden: ON"@
            &&& !app.show_hidden ==> hud.footer.text
                == "Ctrl+E quit | F5 refresh | Ctrl+H hidden: OFF"@
        }),
{
    reveal_strlit("Ctrl+E quit | F5 refresh | Ctrl+H hidden: ");
    reveal_strlit("ON");
    reveal_strlit("OFF");
    reveal_strlit("Ctrl+E quit | F5 refresh | Ctrl+H hidden: ON");
    reveal_strlit("Ctrl+E quit | F5 refresh | Ctrl+H hidden: OFF");
    assert(footer_text(true) =~= "Ctrl+E quit | F5 refresh | Ctrl+H hidden: ON"@);
    assert(footer_text(false) =~= "Ctrl+E quit | F5 refresh | Ctrl+H hidden: OFF"@);
}

/// The shell's pane shows the text on the emulator's screen, and nothing else, in any area.
pub proof fn law_the_pane_shows_the_screen(shell: Shell, area: Rect)
    ensures
        shell_pane(shell, area).title == "Shell"@,
        shell_pane(shell, area).area == area,
        shell_pane(shell, area).inner == inside_border(area),
        shell_pane(shell, area).text == screen_text(terminal_steps(shell.parser)),
        shell_cursor(shell, area) == cursor_place(
            inside_border(area),
            screen_cursor(terminal_steps(shell.parser)),
        ),
{
}

/// The shell's pane shows the screen of the emulator inside a border of one cell, and the cursor
/// stands where the emulator has it, as far as the pane goes.
pub proof fn law_the_pane_shows_the_emulator(shell: Shell, area: Rect)
    requires
        area.width > 2,
        area.height > 2,
        area.x + area.width <= u16::MAX,
        area.y + area.height <= u16::MAX,
    ensures
        ({
            let pane = shell_pane(shell, area);
            let steps = terminal_steps(shell.parser);
            let (row, col) = screen_cursor(steps);
            let place = shell_cursor(shell, area);
            &&& pane.title == "Shell"@
            &&& pane.area == area
            &&& pane.inner.x == area.x + 1 && pane.inner.y == area.y + 1
            &&& pane.inner.width == area.width - 2 && pane.inner.height == area.height - 2
            &&& pane.text == screen_text(steps)
            &&& col < area.width - 2 ==> place.0 == area.x + 1 + col
            &&& col >= area.width - 2 ==> place.0 == area.x + area.width - 2
            &&& row < area.height - 2 ==> place.1 == area.y + 1 + row
            &&& row >= area.height - 2 ==> place.1 == area.y + area.height - 2
        }),
{
}

/// Drawing gives the terminal of the shell the room inside its pane, with at least 5 rows and 10
/// columns, and changes nothing else.
pub proof fn law_the_terminal_fills_its_pane(
    before: App,
    after: App,
    area: Rect,
    resized: Option<(u16, u16)>,
)
    requires
        is_fitted(before, after, area, resized),
    ensures
        after.shell.rows == if area.height < 7 {
            5
        } else {
            (area.height - 2) as u16
        },
        after.shell.cols == if area.width < 12 {
            10
        } else {
            (area.width - 2) as u16
        },
        resized is Some <==> (before.shell.rows, before.shell.cols) != (
            after.shell.rows,
            after.shell.cols,
        ),
        resized is Some ==> resized->0 == (after.shell.rows, after.shell.cols),
        after.shell.in_alt_screen == before.shell.in_alt_screen,
        after.shell.esc_tail == before.shell.esc_tail,
        after.cwd == before.cwd,
        after.items == before.items,
        after.show_hidden == before.show_hidden,
        after.hud_dirty == before.hud_dirty,
        after.last_hud_build == before.last_hud_build,
        after.should_quit == before.should_quit,
{
}

/// Spans, panes and what stands around the shell are seen with all that they hold.
pub proof fn law_frames_are_what_they_hold(span: Span, pane: Pane, hud: Hud)
    ensures
        span@.text == span.text@ && span@.fg == span.fg && span@.bg == span.bg && span@.bold
            == span.bold,
        pane@.title == pane.title@ && pane@.area == pane.area && pane@.inner == pane.inner
            && pane@.text == pane.text@,
        hud@.header_area == hud.header_area && hud@.tree_area == hud.tree_area && hud@.footer_area
            == hud.footer_area,
        hud@.name == hud.name@ && hud@.label == hud.label@ && hud@.path == hud.path@
            && hud@.footer == hud.footer@,
        hud@.tree_title == hud.tree_title@ && hud@.tree == hud.tree@,
{
}

} // verus!
