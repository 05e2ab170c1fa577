//! The application's state machine: which screen is shown, what a key press asks for,
//! and what an action changes.
use vstd::prelude::*;
use crate::tui::{Event, KeyCode, KeyEvent, KeyEventKind};
use crate::tui::utils::{layout_areas, split_areas, Direction, LayoutConstraint, Rect};

verus! {

#[derive(Debug, Clone, Copy, PartialEq, Eq, Structural)]
pub enum CurrentScreen {
    Main,
    Exiting,
}

#[derive(Debug, Clone, Copy, PartialEq, Eq, Structural)]
pub enum AppAction {
    /// Quit; `true` asks for the settings to be output first.
    Exit(bool),
    SetScreen(CurrentScreen),
}

/// A screen: what an event asks of it, and what an action does to it.
pub trait Screen {
    fn handle_event(&self, evt: Event) -> Option<AppAction>;

    fn update(&mut self, action: AppAction) -> Option<AppAction>;
}

#[derive(Debug, PartialEq, Eq, Structural)]
pub struct App {
    pub should_quit: bool,
    pub current_screen: CurrentScreen,
    pub main_screen: MainScreen,
    pub exiting_screen: ExitingScreen,
}

#[derive(Debug, Clone, Copy, PartialEq, Eq, Structural)]
pub struct MainScreen {
    pub current_screen: CurrentScreen,
}

#[derive(Debug, Clone, Copy, PartialEq, Eq, Structural)]
pub struct ExitingScreen;

/// `evt` is a key event for the character `c`, of any kind.
pub open spec fn is_char_key(evt: Event, c: char) -> bool {
    evt matches Event::Key(k) && k.code == KeyCode::Char(c)
}

/// `evt` is a key event of kind release.
pub open spec fn is_release(evt: Event) -> bool {
    evt matches Event::Key(k) && k.kind == KeyEventKind::Release
}

/// The main screen asks for the exit prompt when `q` is pressed (or repeated).
pub open spec fn main_reaction(evt: Event) -> Option<AppAction> {
    if is_char_key(evt, 'q') && !is_release(evt) {
        Some(AppAction::SetScreen(CurrentScreen::Exiting))
    } else {
        None
    }
}

/// The exit prompt: `y` quits and outputs the settings, `n` or `q` quits without.
pub open spec fn exiting_reaction(evt: Event) -> Option<AppAction> {
    if is_char_key(evt, 'y') {
        Some(AppAction::Exit(true))
    } else if is_char_key(evt, 'n') || is_char_key(evt, 'q') {
        Some(AppAction::Exit(false))
    } else {
        None
    }
}

/// What an event asks of the application: nothing for a key release, else what the
/// current screen asks.
pub open spec fn app_reaction(app: App, evt: Event) -> Option<AppAction> {
    if is_release(evt) {
        None
    } else {
        match app.current_screen {
            CurrentScreen::Main => main_reaction(evt),
            CurrentScreen::Exiting => exiting_reaction(evt),
        }
    }
}

/// The application after an action: the shown screen takes it first (the main screen
/// remembers a new screen), then an exit ends the application and a screen change
/// shows the new screen.
pub open spec fn app_after(app: App, action: AppAction) -> App {
    let main_screen = match (app.current_screen, action) {
        (CurrentScreen::Main, AppAction::SetScreen(s)) => MainScreen { current_screen: s },
        _ => app.main_screen,
    };
    match action {
        AppAction::Exit(_) => App { should_quit: true, main_screen, ..app },
        AppAction::SetScreen(s) => App { current_screen: s, main_screen, ..app },
    }
}

impl Screen for MainScreen {
    fn handle_event(&self, evt: Event) -> (r: Option<AppAction>)
        ensures
            r == main_reaction(evt),
    {
        match evt {
            Event::Key(key) => {
                if key.kind != KeyEventKind::Release {
                    match key.code {
                        KeyCode::Char(c) => {
                            if c == 'q' {
                                Some(AppAction::SetScreen(CurrentScreen::Exiting))
                            } else {
                                None
                            }
                        },
                        _ => None,
                    }
                } else {
                    None
                }
            },
            _ => None,
        }
    }

    fn update(&mut self, action: AppAction) -> (r: Option<AppAction>)
        ensures
            r is None,
            final(self).current_screen == (match action {
                AppAction::SetScreen(s) => s,
                AppAction::Exit(_) => old(self).current_screen,
            }),
    {
        match action {
            AppAction::SetScreen(screen) => {
                self.current_screen = screen;
                None
            },
            _ => None,
        }
    }
}

impl Screen for ExitingScreen {
    fn handle_event(&self, evt: Event) -> (r: Option<AppAction>)
        ensures
            r == exiting_reaction(evt),
    {
        match evt {
            Event::Key(key) => match key.code {
                KeyCode::Char(c) => {
                    if c == 'y' {
                        Some(AppAction::Exit(true))
                    } else if c == 'n' || c == 'q' {
                        Some(AppAction::Exit(false))
                    } else {
                        None
                    }
                },
                _ => None,
            },
            _ => None,
        }
    }

    /// The prompt keeps no state and hands back no action; the settings are printed
    /// for the action that `ExitingScreen::output_requested` picks out.
    fn update(&mut self, action: AppAction) -> (r: Option<AppAction>)
        ensures
            r is None,
            *final(self) == *old(self),
    {
        None
    }
}

impl ExitingScreen {
    /// Whether the prompt, taking `action`, prints the settings: only for `Exit(true)`,
    /// the answer `y`.
    pub fn output_requested(&self, action: AppAction) -> (r: bool)
        ensures
            r == (action == AppAction::Exit(true)),
    {
        match action {
            AppAction::Exit(b) => b,
            AppAction::SetScreen(_) => false,
        }
    }
}

impl Default for CurrentScreen {
    fn default() -> (r: Self)
        ensures
            r == CurrentScreen::Main,
    {
        CurrentScreen::Main
    }
}

impl Default for MainScreen {
    fn default() -> (r: Self)
        ensures
            r.current_screen == CurrentScreen::Main,
    {
        MainScreen { current_screen: CurrentScreen::Main }
    }
}

impl Default for ExitingScreen {
    fn default() -> (r: Self) {
        ExitingScreen
    }
}

/// The application as it starts: on the main screen, not quitting.
pub open spec fn fresh_app() -> App {
    App {
        should_quit: false,
        current_screen: CurrentScreen::Main,
        main_screen: MainScreen { current_screen: CurrentScreen::Main },
        exiting_screen: ExitingScreen,
    }
}

impl Default for App {
    fn default() -> (r: Self)
        ensures
            r == fresh_app(),
    {
        App::new()
    }
}

impl App {
    pub fn new() -> (r: Self)
        ensures
            r == fresh_app(),
    {
        App {
            should_quit: false,
            current_screen: CurrentScreen::Main,
            main_screen: MainScreen { current_screen: CurrentScreen::Main },
            exiting_screen: ExitingScreen,
        }
    }

    /// What an event asks of the application.
    pub fn handle_event(&self, evt: Event) -> (r: Option<AppAction>)
        ensures
            r == app_reaction(*self, evt),
    {
        let released = match &evt {
            Event::Key(key) => key.kind == KeyEventKind::Release,
            _ => false,
        };
        if released {
            None
        } else {
            match self.current_screen {
                CurrentScreen::Main => self.main_screen.handle_event(evt),
                CurrentScreen::Exiting => self.exiting_screen.handle_event(evt),
            }
        }
    }

    /// Carries out an action. No screen hands back a further action, so none is
    /// returned; once the application quits it stays quitting.
    pub fn update(&mut self, action: AppAction) -> (r: Option<AppAction>)
        ensures
            r is None,
            *final(self) == app_after(*old(self), action),
            old(self).should_quit ==> final(self).should_quit,
    {
        let next_action = match self.current_screen {
            CurrentScreen::Main => self.main_screen.update(action),
            CurrentScreen::Exiting => self.exiting_screen.update(action),
        };
        if let Some(na) = next_action {
            return Some(na);
        }
        match action {
            AppAction::Exit(_) => {
                self.should_quit = true;
                None
            },
            AppAction::SetScreen(screen) => {
                self.current_screen = screen;
                None
            },
        }
    }

    /// Whether carrying out `action` now prints the settings: an `Exit(true)` taken
    /// by the exit prompt.
    pub fn output_requested(&self, action: AppAction) -> (r: bool)
        ensures
            r == (self.current_screen == CurrentScreen::Exiting && action == AppAction::Exit(true)),
    {
        match self.current_screen {
            CurrentScreen::Exiting => self.exiting_screen.output_requested(action),
            CurrentScreen::Main => false,
        }
    }
}

/// The colour a label of the main screen is drawn in.
#[derive(Debug, Clone, Copy, PartialEq, Eq, Structural)]
pub enum LabelColor {
    Green,
    LightRed,
    Red,
}

/// The rows of the main screen: a title of 3 lines, the body, a footer of 3 lines.
pub open spec fn main_row_areas(area: Rect) -> Seq<Rect> {
    layout_areas(
        Direction::Vertical,
        seq![LayoutConstraint::Length(3), LayoutConstraint::Min(1), LayoutConstraint::Length(3)],
        area,
    )
}

/// The two halves of the footer: the mode on the left, the keys on the right.
pub open spec fn footer_column_areas(area: Rect) -> Seq<Rect> {
    layout_areas(
        Direction::Horizontal,
        seq![LayoutConstraint::Percentage(50), LayoutConstraint::Percentage(50)],
        area,
    )
}

/// The title row, the body and the footer row of the main screen.
pub fn main_rows(area: Rect) -> (r: (Rect, Rect, Rect))
    ensures
        r == (main_row_areas(area)[0], main_row_areas(area)[1], main_row_areas(area)[2]),
{
    let c = vec![LayoutConstraint::Length(3), LayoutConstraint::Min(1), LayoutConstraint::Length(3)];
    let rows = split_areas(Direction::Vertical, c.as_slice(), area);
    proof {
        assert(c@ =~= seq![LayoutConstraint::Length(3), LayoutConstraint::Min(1), LayoutConstraint::Length(3)]);
    }
    (rows[0], rows[1], rows[2])
}

/// The mode half and the keys half of the footer.
pub fn footer_columns(area: Rect) -> (r: (Rect, Rect))
    ensures
        r == (footer_column_areas(area)[0], footer_column_areas(area)[1]),
{
    let c = vec![LayoutConstraint::Percentage(50), LayoutConstraint::Percentage(50)];
    let cols = split_areas(Direction::Horizontal, c.as_slice(), area);
    proof {
        assert(c@ =~= seq![LayoutConstraint::Percentage(50), LayoutConstraint::Percentage(50)]);
    }
    (cols[0], cols[1])
}

/// The title of the main screen, drawn in green.
pub fn main_title() -> (r: (&'static str, LabelColor))
    ensures
        r.0@ == "Create New Json"@,
        r.1 == LabelColor::Green,
{
    ("Create New Json", LabelColor::Green)
}

/// The mode shown in the footer: "Normal Mode" in green on the main screen,
/// "Exiting" in light red on the exit prompt.
pub fn mode_label(s: CurrentScreen) -> (r: (&'static str, LabelColor))
    ensures
        s == CurrentScreen::Main ==> r.0@ == "Normal Mode"@ && r.1 == LabelColor::Green,
        s == CurrentScreen::Exiting ==> r.0@ == "Exiting"@ && r.1 == LabelColor::LightRed,
{
    match s {
        CurrentScreen::Main => ("Normal Mode", LabelColor::Green),
        CurrentScreen::Exiting => ("Exiting", LabelColor::LightRed),
    }
}

/// The key hint shown in the footer, on either screen: "(q) to quit" in red.
pub fn keys_hint(s: CurrentScreen) -> (r: (&'static str, LabelColor))
    ensures
        r.0@ == "(q) to quit"@,
        r.1 == LabelColor::Red,
{
    match s {
        CurrentScreen::Main => ("(q) to quit", LabelColor::Red),
        CurrentScreen::Exiting => ("(q) to quit", LabelColor::Red),
    }
}

/// Quitting goes through the exit prompt: from the main screen, pressing `q` shows the
/// prompt, and answering it with `y`, `n` or `q` ends the application; only `y` asks
/// for the settings to be output.
pub proof fn lemma_prompt_answer_quits(app: App, first: Event, second: Event)
    requires
        app.current_screen == CurrentScreen::Main,
        is_char_key(first, 'q'),
        !is_release(first),
        is_char_key(second, 'y') || is_char_key(second, 'n') || is_char_key(second, 'q'),
        !is_release(second),
    ensures
        app_reaction(app, first) == Some(AppAction::SetScreen(CurrentScreen::Exiting)),
        app_after(app, AppAction::SetScreen(CurrentScreen::Exiting)).current_screen == CurrentScreen::Exiting,
        app_reaction(app_after(app, AppAction::SetScreen(CurrentScreen::Exiting)), second)
            == Some(AppAction::Exit(is_char_key(second, 'y'))),
        app_after(
            app_after(app, AppAction::SetScreen(CurrentScreen::Exiting)),
            AppAction::Exit(is_char_key(second, 'y')),
        ).should_quit,
{
}

/// Nothing but an exit action ends the application, and once it is ending, no action
/// brings it back.
pub proof fn lemma_quit_only_by_exit(app: App, action: AppAction)
    ensures
        app_after(app, action).should_quit == (app.should_quit || action is Exit),
{
}

/// A key release asks nothing of the application, whatever screen is shown.
pub proof fn lemma_release_ignored(app: App, evt: Event)
    requires
        is_release(evt),
    ensures
        app_reaction(app, evt) is None,
{
}

/// Carrying out an action, whatever screen is shown: a screen change shows the new
/// screen and leaves quitting as it was; an exit ends the application and leaves the
/// shown screen as it was.
pub proof fn lemma_update_effects(app: App, action: AppAction)
    ensures
        action matches AppAction::SetScreen(s) ==> app_after(app, action).current_screen == s
            && app_after(app, action).should_quit == app.should_quit,
        action is Exit ==> app_after(app, action).should_quit && app_after(app, action).current_screen
            == app.current_screen,
{
}

} // verus!
