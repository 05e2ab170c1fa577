use installer::tui::app::{App, AppAction, CurrentScreen, ExitingScreen, MainScreen, Screen};
use installer::tui::{stop_step, Event, KeyCode, KeyEvent, KeyEventKind, MouseEvent};

fn key(c: char, kind: KeyEventKind) -> Event {
    Event::Key(KeyEvent { code: KeyCode::Char(c), kind })
}

fn press(c: char) -> Event {
    key(c, KeyEventKind::Press)
}

fn run(app: &mut App, evt: Event) -> bool {
    let mut printed = false;
    let mut next = app.handle_event(evt);
    while let Some(action) = next {
        printed |= app.output_requested(action);
        next = app.update(action);
    }
    printed
}

#[test]
fn new_app_starts_on_main_screen() {
    let app = App::new();
    assert!(!app.should_quit);
    assert_eq!(app.current_screen, CurrentScreen::Main);
    assert_eq!(app.main_screen.current_screen, CurrentScreen::Main);
    assert_eq!(App::default(), app);
}

#[test]
fn q_then_y_quits_and_outputs() {
    let mut app = App::new();
    assert!(!run(&mut app, press('q')));
    assert_eq!(app.current_screen, CurrentScreen::Exiting);
    assert_eq!(app.main_screen.current_screen, CurrentScreen::Exiting);
    assert!(!app.should_quit);
    assert!(run(&mut app, press('y')));
    assert!(app.should_quit);
}

#[test]
fn q_then_n_or_q_quits_without_output() {
    for answer in ['n', 'q'] {
        let mut app = App::new();
        run(&mut app, press('q'));
        assert!(!run(&mut app, press(answer)));
        assert!(app.should_quit);
    }
}

#[test]
fn other_keys_and_events_do_nothing() {
    let mut app = App::new();
    for evt in [press('x'), press('y'), Event::Tick, Event::Resize(80, 24), Event::Paste("q".to_string())] {
        assert_eq!(app.handle_event(evt), None);
    }
    run(&mut app, press('q'));
    assert_eq!(app.handle_event(press('x')), None);
    assert_eq!(app.handle_event(Event::Key(KeyEvent { code: KeyCode::Other, kind: KeyEventKind::Press })), None);
    assert_eq!(app.handle_event(Event::Mouse(MouseEvent { column: 1, row: 2 })), None);
}

#[test]
fn key_releases_are_ignored() {
    let mut app = App::new();
    assert_eq!(app.handle_event(key('q', KeyEventKind::Release)), None);
    run(&mut app, press('q'));
    assert_eq!(app.handle_event(key('y', KeyEventKind::Release)), None);
    // a repeated key still counts
    assert_eq!(app.handle_event(key('y', KeyEventKind::Repeat)), Some(AppAction::Exit(true)));
}

#[test]
fn update_returns_no_further_action_and_quitting_sticks() {
    let mut app = App::new();
    assert_eq!(app.update(AppAction::Exit(false)), None);
    assert!(app.should_quit);
    assert_eq!(app.update(AppAction::SetScreen(CurrentScreen::Exiting)), None);
    assert!(app.should_quit);
    assert_eq!(app.current_screen, CurrentScreen::Exiting);
    // the exiting screen does not remember screens; the main screen does
    assert_eq!(app.update(AppAction::SetScreen(CurrentScreen::Main)), None);
    assert_eq!(app.main_screen.current_screen, CurrentScreen::Exiting);
}

#[test]
fn screens_react_to_their_keys() {
    let main = MainScreen::default();
    assert_eq!(main.handle_event(press('q')), Some(AppAction::SetScreen(CurrentScreen::Exiting)));
    assert_eq!(main.handle_event(key('q', KeyEventKind::Release)), None);
    let exiting = ExitingScreen;
    assert_eq!(exiting.handle_event(press('y')), Some(AppAction::Exit(true)));
    assert_eq!(exiting.handle_event(key('n', KeyEventKind::Release)), Some(AppAction::Exit(false)));
    let mut e = ExitingScreen;
    assert_eq!(e.update(AppAction::Exit(true)), None);
    let mut m = MainScreen::default();
    assert_eq!(m.update(AppAction::Exit(true)), None);
    assert_eq!(m.current_screen, CurrentScreen::Main);
}

#[test]
fn only_pressed_keys_are_forwarded() {
    assert!(press('a').is_forwarded());
    assert!(!key('a', KeyEventKind::Release).is_forwarded());
    assert!(!key('a', KeyEventKind::Repeat).is_forwarded());
    assert!(Event::Tick.is_forwarded());
    assert!(Event::Paste("x".to_string()).is_forwarded());
}

#[test]
fn stopping_aborts_after_50_and_gives_up_after_100() {
    assert_eq!((stop_step(1).abort, stop_step(1).give_up), (false, false));
    assert_eq!((stop_step(50).abort, stop_step(50).give_up), (false, false));
    assert_eq!((stop_step(51).abort, stop_step(51).give_up), (true, false));
    assert_eq!((stop_step(100).abort, stop_step(100).give_up), (true, false));
    assert_eq!((stop_step(101).abort, stop_step(101).give_up), (true, true));
}

#[test]
fn exit_prompt_requests_output_only_for_yes() {
    let s = ExitingScreen;
    assert!(s.output_requested(AppAction::Exit(true)));
    assert!(!s.output_requested(AppAction::Exit(false)));
    assert!(!s.output_requested(AppAction::SetScreen(CurrentScreen::Main)));
    let mut app = App::new();
    assert!(!app.output_requested(AppAction::Exit(true)));
    app.update(AppAction::SetScreen(CurrentScreen::Exiting));
    assert!(app.output_requested(AppAction::Exit(true)));
    assert!(!app.output_requested(AppAction::Exit(false)));
}
