pub mod tui;
pub mod tui_;
