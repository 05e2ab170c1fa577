pub mod installer;
pub mod text;
pub mod tui;
pub mod utils;
