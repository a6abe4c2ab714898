//! A terminal launcher for local repositories: the repositories come from a
//! YAML settings file, the user narrows the list by typing, moves through it
//! with the arrow keys and opens the selected one with its own command.
//!
//! This crate holds the launcher's logic: the settings format, the search
//! filter, the list cursor and the reaction to each key press, and those of
//! a small message recorder that shows the same event handling. Terminal
//! drawing, the input threads and the launching of processes live in the
//! program that uses it.

pub mod app;
pub mod editor;
pub mod events;
pub mod keys;
pub mod repo;
pub mod settings;
pub mod text;

pub use app::{App, ListRow};
pub use events::{handle_enter_press, handle_list_scroll, handle_user_input, Action, Reaction};
pub use keys::{Config, Event, Key};
pub use repo::{Colour, Repo};
pub use settings::{load_settings, Node, SettingsError};
