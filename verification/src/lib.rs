//! Plugin-provided TUI customizations, Ghostty theme synchronisation and
//! plugin terminal commands: the declarative rules behind them, verified.

pub mod contribution;
pub mod ghostty;
pub mod merge;
pub mod normalize;
pub mod terminal;
pub mod text;
pub mod tmtheme;
