pub mod text;
pub mod path;
pub mod order;
pub mod worktree;
pub mod gitignore;
pub mod app;
pub mod ui;
pub mod laws;
