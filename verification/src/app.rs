//! The state of the program, and what it does on keys, on output of the shell and as time passes.

use vstd::prelude::*;
use vstd::utf8::{decode_utf8, encode_utf8, valid_utf8};

use crate::keys::{key_bytes, key_to_bytes, KeyCode, KeyEvent, KeyModifiers};
use crate::listing::{is_stable_sort, read_dir_items, shown_entries, sort_items, Entry, ScanItem};
use crate::osc7::{last_osc7_path, last_report};
use crate::paths::{law_trailing_slash_is_ignored, path_parts, same_directory};
use crate::shell::{alt_screen_after, is_fed, is_given, next_tail, Shell, SCROLLBACK};
use crate::terminal::{can_take, terminal_steps, TermStep};

verus! {

/// A working directory.
#[derive(Debug)]
pub enum Cwd {
    /// A path that is text.
    Text(String),
    /// The path that the program was started in, where that path is not text. It holds the text
    /// that is shown for it.
    Native(String),
}

impl Cwd {
    /// The text that is shown for a working directory.
    pub open spec fn text(self) -> Seq<char> {
        match self {
            Cwd::Text(text) => text@,
            Cwd::Native(shown) => shown@,
        }
    }

    /// Whether this is the directory that a path names. A path that is not text has a name along
    /// it that is not, and so is no path that is.
    pub open spec fn is_at(self, path: Seq<char>) -> bool {
        self matches Cwd::Text(text) && path_parts(path) == path_parts(text@)
    }

    /// Gives the text that is shown for a working directory.
    pub fn as_text(&self) -> (text: &str)
        ensures
            text@ == self.text(),
    {
        match self {
            Cwd::Text(text) => text.as_str(),
            Cwd::Native(shown) => shown.as_str(),
        }
    }
}

/// What happens at the keyboard.
#[derive(Debug)]
pub enum Event {
    Key(KeyEvent),
    Paste(String),
    /// Anything that the program does not react to.
    Other,
}

/// What the program must do next.
#[derive(Debug)]
pub enum Action {
    /// Nothing.
    Idle,
    /// Send bytes to the shell.
    Send(Vec<u8>),
    /// Scan the working directory anew and take up what the scan finds.
    Refresh,
}

/// An action with its bytes as a sequence.
pub enum ActionView {
    Idle,
    Send(Seq<u8>),
    Refresh,
}

impl View for Action {
    type V = ActionView;

    open spec fn view(&self) -> ActionView {
        match self {
            Action::Idle => ActionView::Idle,
            Action::Send(bytes) => ActionView::Send(bytes@),
            Action::Refresh => ActionView::Refresh,
        }
    }
}

/// What a chunk of the shell's output led to.
#[derive(Clone, Copy, Debug, PartialEq, Eq, Structural)]
pub struct Taken {
    /// Whether the shell has gone to another directory, whose listing must be built.
    pub changed: bool,
    /// How many bytes the emulator was given. It is for the caller to give it the others.
    pub given: usize,
}

/// How long a listing that is out of date may stand, in nanoseconds.
pub const REFRESH_AFTER: u64 = 100_000_000;

/// The state of the program. Times are in nanoseconds since some moment before it began.
pub struct App {
    pub cwd: Cwd,
    pub shell: Shell,
    pub items: Vec<Entry>,
    pub show_hidden: bool,
    /// Whether the listing is out of date.
    pub hud_dirty: bool,
    /// When the listing was last built.
    pub last_hud_build: u64,
    pub should_quit: bool,
}

/// Whether a key is the given character together with Control.
pub open spec fn is_control(key: KeyEvent, c: char) -> bool {
    key.code == KeyCode::Char(c) && key.modifiers.control
}

/// The key that quits the program.
pub open spec fn is_quit(key: KeyEvent) -> bool {
    is_control(key, 'e')
}

/// The key that shows or leaves out hidden names, unless a full-screen program runs.
pub open spec fn is_toggle(in_alt_screen: bool, key: KeyEvent) -> bool {
    !in_alt_screen && is_control(key, 'h')
}

/// The key that refreshes the listing, unless a full-screen program runs.
pub open spec fn is_refresh(in_alt_screen: bool, key: KeyEvent) -> bool {
    !in_alt_screen && key.code == KeyCode::F(5)
}

/// What a key makes the program do: interrupt the shell, or one of the program's own commands, or
/// else send the shell the bytes for the key.
pub open spec fn key_action(in_alt_screen: bool, key: KeyEvent) -> ActionView {
    if is_control(key, 'c') {
        ActionView::Send(seq![0x03u8])
    } else if is_quit(key) {
        ActionView::Idle
    } else if is_toggle(in_alt_screen, key) || is_refresh(in_alt_screen, key) {
        ActionView::Refresh
    } else {
        match key_bytes(key) {
            Some(bytes) => ActionView::Send(bytes),
            None => ActionView::Idle,
        }
    }
}

/// What an event makes the program do.
pub open spec fn event_action(in_alt_screen: bool, ev: Event) -> ActionView {
    match ev {
        Event::Key(key) => key_action(in_alt_screen, key),
        Event::Paste(text) => ActionView::Send(encode_utf8(text@)),
        Event::Other => ActionView::Idle,
    }
}

/// Tells whether a key is the given character together with Control.
fn control(key: &KeyEvent, c: char) -> (is: bool)
    ensures
        is == is_control(*key, c),
{
    match key.code {
        KeyCode::Char(k) => k == c && key.modifiers.control,
        _ => false,
    }
}

impl App {
    /// Begins in a directory, with a shell of a size to start with and a listing to be built.
    pub fn new(cwd: Cwd, now: u64) -> (app: Self)
        ensures
            app.cwd == cwd,
            app.shell.wf(),
            app.shell.rows == 24,
            app.shell.cols == 120,
            !app.shell.in_alt_screen,
            app.shell.esc_tail@.len() == 0,
            app.shell.has_lost_nothing(),
            terminal_steps(app.shell.parser) == seq![
                TermStep::Open { rows: 24, cols: 120, scrollback: SCROLLBACK },
            ],
            app.items@.len() == 0,
            !app.show_hidden,
            app.hud_dirty,
            app.last_hud_build == if now < 10_000_000_000 {
                0
            } else {
                (now - 10_000_000_000) as u64
            },
            !app.should_quit,
    {
        App {
            cwd,
            shell: Shell::new(24, 120),
            items: Vec::new(),
            show_hidden: false,
            hud_dirty: true,
            last_hud_build: now.saturating_sub(10_000_000_000),
            should_quit: false,
        }
    }

    /// Takes up a scan of the working directory: the listing is what the scan found, in order.
    pub fn refresh_hud(&mut self, scan: &[ScanItem], now: u64)
        ensures
            is_stable_sort(shown_entries(scan@, old(self).show_hidden), final(self).items@),
            *final(self) == (App {
                items: final(self).items,
                hud_dirty: false,
                last_hud_build: now,
                ..*old(self)
            }),
    {
        let mut items = read_dir_items(scan, self.show_hidden);
        sort_items(&mut items);
        self.items = items;
        self.hud_dirty = false;
        self.last_hud_build = now;
    }

    /// Goes to a directory and tells whether that is another one, whose listing must be built.
    pub fn set_cwd(&mut self, new_cwd: String) -> (changed: bool)
        ensures
            changed == !old(self).cwd.is_at(new_cwd@),
            !changed ==> *final(self) == *old(self),
            changed ==> *final(self) == (App {
                cwd: Cwd::Text(new_cwd),
                hud_dirty: true,
                ..*old(self)
            }),
            final(self).cwd.is_at(new_cwd@),
    {
        if let Cwd::Text(text) = &self.cwd {
            if same_directory(new_cwd.as_str(), text.as_str()) {
                return false;
            }
        }
        self.cwd = Cwd::Text(new_cwd);
        self.hud_dirty = true;
        true
    }

    /// Shows hidden names, or leaves them out again. The listing must be built anew.
    pub fn toggle_hidden(&mut self)
        ensures
            *final(self) == (App {
                show_hidden: !old(self).show_hidden,
                hud_dirty: true,
                ..*old(self)
            }),
    {
        self.show_hidden = !self.show_hidden;
        self.hud_dirty = true;
    }

    /// Takes a chunk of the shell's output: notes a switch between the screens, then a report of
    /// the working directory, and gives the chunk to the emulator.
    pub fn take_output(&mut self, chunk: &[u8]) -> (taken: Taken)
        ensures
            final(self).shell.esc_tail@ == next_tail(old(self).shell.esc_tail@, chunk@),
            final(self).shell.in_alt_screen == alt_screen_after(
                old(self).shell.in_alt_screen,
                next_tail(old(self).shell.esc_tail@, chunk@),
            ),
            is_fed(
                Shell {
                    esc_tail: final(self).shell.esc_tail,
                    in_alt_screen: final(self).shell.in_alt_screen,
                    ..old(self).shell
                },
                final(self).shell,
                chunk@,
                taken.given,
            ),
            old(self).shell.wf() && old(self).shell.has_lost_nothing() ==> taken.given
                == chunk@.len() && final(self).shell.has_lost_nothing(),
            can_take(terminal_steps(old(self).shell.parser)) ==> is_given(chunk@, taken.given),
            taken.changed == (last_report(chunk@) matches Some(path) && !old(self).cwd.is_at(path)),
            taken.changed ==> final(self).cwd is Text && Some(final(self).cwd.text())
                == last_report(chunk@),
            *final(self) == (App {
                shell: final(self).shell,
                cwd: if taken.changed {
                    final(self).cwd
                } else {
                    old(self).cwd
                },
                hud_dirty: taken.changed || old(self).hud_dirty,
                ..*old(self)
            }),
            last_report(chunk@) matches Some(path) ==> final(self).cwd.is_at(path),
            old(self).shell.wf() ==> final(self).shell.wf(),
    {
        self.shell.observe_alt_screen(chunk);
        let changed: bool = match last_osc7_path(chunk) {
            Some(path) => self.set_cwd(path),
            None => false,
        };
        let given: usize = self.shell.feed(chunk);
        Taken { changed, given }
    }

    /// Tells whether the listing has been out of date for so long that it must be built anew.
    pub fn refresh_due(&self, now: u64) -> (due: bool)
        ensures
            due == (self.hud_dirty && now - self.last_hud_build > REFRESH_AFTER),
            due <==> self.hud_dirty && now > self.last_hud_build + 100_000_000,
    {
        self.hud_dirty && now.saturating_sub(self.last_hud_build) > REFRESH_AFTER
    }

    /// Reacts to an event.
    pub fn handle_event(&mut self, ev: Event) -> (action: Action)
        ensures
            action@ == event_action(old(self).shell.in_alt_screen, ev),
            ev matches Event::Key(key) ==> *final(self) == old(self).after_key(key),
            !(ev is Key) ==> *final(self) == *old(self),
    {
        match ev {
            Event::Key(key) => self.handle_key(&key),
            Event::Paste(text) => {
                let mut bytes: Vec<u8> = Vec::new();
                bytes.extend_from_slice(text.as_str().as_bytes());
                assert(bytes@ == encode_utf8(text@));
                Action::Send(bytes)
            },
            Event::Other => Action::Idle,
        }
    }

    /// The state after a key: Control with `e` marks the end, Control with `h` changes whether
    /// hidden names are shown, and no other key changes anything.
    pub open spec fn after_key(self, key: KeyEvent) -> App {
        if is_quit(key) {
            App { should_quit: true, ..self }
        } else if is_toggle(self.shell.in_alt_screen, key) {
            App { show_hidden: !self.show_hidden, hud_dirty: true, ..self }
        } else {
            self
        }
    }

    /// Reacts to a key.
    pub fn handle_key(&mut self, key: &KeyEvent) -> (action: Action)
        ensures
            action@ == key_action(old(self).shell.in_alt_screen, *key),
            *final(self) == old(self).after_key(*key),
    {
        if control(key, 'c') {
            let interrupt: Vec<u8> = vec![0x03u8];
            assert(interrupt@ == seq![0x03u8]);
            return Action::Send(interrupt);
        }
        if control(key, 'e') {
            self.should_quit = true;
            return Action::Idle;
        }
        if !self.shell.in_alt_screen {
            if control(key, 'h') {
                self.toggle_hidden();
                return Action::Refresh;
            }
            if let KeyCode::F(n) = key.code {
                if n == 5 {
                    return Action::Refresh;
                }
            }
        }
        match key_to_bytes(key) {
            Some(bytes) => Action::Send(bytes),
            None => Action::Idle,
        }
    }
}

/// Control with `c` always goes to the shell, and changes nothing here.
pub proof fn law_interrupt_always_reaches_the_shell(app: App, key: KeyEvent)
    requires
        is_control(key, 'c'),
    ensures
        key_action(app.shell.in_alt_screen, key) == ActionView::Send(seq![0x03u8]),
        app.after_key(key) == app,
{
}

/// While a full-screen program runs, it gets the bytes of every key that has any, but for the key
/// that quits.
pub proof fn law_full_screen_programs_get_the_keys(app: App, key: KeyEvent)
    requires
        app.shell.in_alt_screen,
        !is_quit(key),
    ensures
        key_action(true, key) == match key_bytes(key) {
            Some(bytes) => ActionView::Send(bytes),
            None => ActionView::Idle,
        },
        app.after_key(key) == app,
{
}

/// Showing hidden names and leaving them out again brings back what was shown.
pub proof fn law_toggling_twice_undoes(app: App, key: KeyEvent)
    requires
        is_toggle(app.shell.in_alt_screen, key),
    ensures
        app.after_key(key).show_hidden != app.show_hidden,
        app.after_key(key).after_key(key).show_hidden == app.show_hidden,
{
}

/// No key takes back the end of the program.
pub proof fn law_quitting_is_final(app: App, key: KeyEvent)
    requires
        app.should_quit,
    ensures
        app.after_key(key).should_quit,
{
}

/// A directory that has been gone to is where the program is: going to it again, or to the same
/// path with a slash behind it, is no change.
pub proof fn law_arriving_is_being_there(path: String)
    ensures
        Cwd::Text(path).is_at(path@),
        path@.len() > 0 ==> Cwd::Text(path).is_at(path@.push('/')),
{
    if path@.len() > 0 {
        law_trailing_slash_is_ignored(path@);
    }
}

/// What each key does, by the key itself: Control with `c` sends the interrupt, Control with `e`
/// quits, and while no full-screen program runs Control with `h` and F5 refresh the listing. Every
/// other key sends its bytes, where it has any.
pub proof fn law_what_keys_do(in_alt_screen: bool, code: KeyCode, modifiers: KeyModifiers)
    ensures
        ({
            let key = KeyEvent { code, modifiers };
            let action = key_action(in_alt_screen, key);
            let interrupt = code == KeyCode::Char('c') && modifiers.control;
            let quit = code == KeyCode::Char('e') && modifiers.control;
            let refresh = !in_alt_screen && ((code == KeyCode::Char('h') && modifiers.control)
                || code == KeyCode::F(5));
            &&& action is Refresh <==> refresh
            &&& interrupt ==> action == ActionView::Send(seq![0x03u8])
            &&& quit ==> action is Idle
            &&& !interrupt && !quit && !refresh ==> match key_bytes(key) {
                Some(bytes) => action == ActionView::Send(bytes),
                None => action is Idle,
            }
        }),
{
}

/// A key quits the program only as Control with `e`, changes whether hidden names are shown only as
/// Control with `h` while no full-screen program runs, which puts the listing out of date, and
/// changes nothing else.
pub proof fn law_what_keys_change(app: App, code: KeyCode, modifiers: KeyModifiers)
    ensures
        ({
            let after = app.after_key(KeyEvent { code, modifiers });
            let quit = code == KeyCode::Char('e') && modifiers.control;
            let toggle = !app.shell.in_alt_screen && code == KeyCode::Char('h')
                && modifiers.control;
            &&& after.should_quit == (app.should_quit || quit)
            &&& after.show_hidden == if toggle {
                !app.show_hidden
            } else {
                app.show_hidden
            }
            &&& after.hud_dirty == (app.hud_dirty || toggle)
            &&& after.cwd == app.cwd
            &&& after.shell == app.shell
            &&& after.items == app.items
            &&& after.last_hud_build == app.last_hud_build
        }),
{
}

/// What is pasted is sent as it is, in UTF-8, and other events do nothing.
pub proof fn law_what_is_pasted_arrives(in_alt_screen: bool, text: String)
    ensures
        event_action(in_alt_screen, Event::Paste(text)) matches ActionView::Send(bytes) && valid_utf8(
            bytes,
        ) && decode_utf8(bytes) == text@,
        event_action(in_alt_screen, Event::Other) is Idle,
{
    vstd::utf8::encode_utf8_valid_utf8(text@);
    vstd::utf8::encode_utf8_decode_utf8(text@);
}

/// A key does as an event what it does as a key.
pub proof fn law_keys_are_events(in_alt_screen: bool, key: KeyEvent)
    ensures
        event_action(in_alt_screen, Event::Key(key)) == key_action(in_alt_screen, key),
{
}

/// The text of a directory is its path, and a directory whose path is not text is at no path.
pub proof fn law_where_a_directory_is(path: String, other: Seq<char>)
    ensures
        Cwd::Text(path).text() == path@,
        Cwd::Native(path).text() == path@,
        Cwd::Text(path).is_at(other) <==> path_parts(path@) == path_parts(other),
        !Cwd::Native(path).is_at(other),
{
}

/// An action is seen with the bytes that it sends.
pub proof fn law_actions_are_what_they_send(action: Action)
    ensures
        action is Idle <==> action@ is Idle,
        action is Refresh <==> action@ is Refresh,
        action matches Action::Send(bytes) ==> action@ == ActionView::Send(bytes@),
{
}

} // verus!
