use installer::tui::app::{footer_columns, keys_hint, main_rows, main_title, mode_label, CurrentScreen, LabelColor};
use installer::tui::utils::{center_horizontal, center_vertical, centered_rect, Rect};
use ratatui::layout::{Constraint, Direction, Layout};

fn middle(direction: Direction, side: u16, middle: u16, r: Rect) -> Rect {
    let a = ratatui::layout::Rect { x: r.x, y: r.y, width: r.width, height: r.height };
    let m = Layout::default()
        .direction(direction)
        .constraints([Constraint::Percentage(side), Constraint::Percentage(middle), Constraint::Percentage(side)])
        .split(a)[1];
    Rect { x: m.x, y: m.y, width: m.width, height: m.height }
}

#[test]
fn centered_rect_is_layout_middle_of_middle() {
    let area = Rect { x: 0, y: 0, width: 100, height: 40 };
    let c = centered_rect(60, 25, area);
    let expected = middle(Direction::Horizontal, 20, 60, middle(Direction::Vertical, 37, 25, area));
    assert_eq!(c, expected);
    assert_ne!(c, area);
    assert_eq!(c.x, 20);
    assert_eq!(c.width, 60);
}

#[test]
fn bands_of_full_and_empty_size() {
    let area = Rect { x: 3, y: 4, width: 50, height: 20 };
    assert_eq!(center_vertical(100, area), middle(Direction::Vertical, 0, 100, area));
    assert_eq!(center_horizontal(0, area), middle(Direction::Horizontal, 50, 0, area));
    assert_eq!(center_vertical(100, area).height, 20);
}

fn from_ratatui(m: ratatui::layout::Rect) -> Rect {
    Rect { x: m.x, y: m.y, width: m.width, height: m.height }
}

#[test]
fn main_screen_rows_and_footer_halves() {
    let area = Rect { x: 0, y: 0, width: 80, height: 24 };
    let (title, body, footer) = main_rows(area);
    let a = ratatui::layout::Rect { x: 0, y: 0, width: 80, height: 24 };
    let expected = Layout::default()
        .direction(Direction::Vertical)
        .constraints([Constraint::Length(3), Constraint::Min(1), Constraint::Length(3)])
        .split(a);
    assert_eq!((title, body, footer), (from_ratatui(expected[0]), from_ratatui(expected[1]), from_ratatui(expected[2])));
    assert_eq!(title, Rect { x: 0, y: 0, width: 80, height: 3 });
    assert_eq!(footer, Rect { x: 0, y: 21, width: 80, height: 3 });
    assert_eq!(body.height, 18);
    let (left, right) = footer_columns(footer);
    assert_eq!(left, Rect { x: 0, y: 21, width: 40, height: 3 });
    assert_eq!(right, Rect { x: 40, y: 21, width: 40, height: 3 });
}

#[test]
fn main_screen_labels() {
    assert_eq!(main_title(), ("Create New Json", LabelColor::Green));
    assert_eq!(mode_label(CurrentScreen::Main), ("Normal Mode", LabelColor::Green));
    assert_eq!(mode_label(CurrentScreen::Exiting), ("Exiting", LabelColor::LightRed));
    assert_eq!(keys_hint(CurrentScreen::Main), ("(q) to quit", LabelColor::Red));
    assert_eq!(keys_hint(CurrentScreen::Exiting), ("(q) to quit", LabelColor::Red));
}
