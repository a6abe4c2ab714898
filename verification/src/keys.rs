use vstd::prelude::*;

verus! {

/// A key press, as the terminal reports it.
#[derive(Clone, Copy, Debug, PartialEq, Eq, Structural)]
pub enum Key {
    Backspace,
    Left,
    Right,
    Up,
    Down,
    Home,
    End,
    PageUp,
    PageDown,
    BackTab,
    Delete,
    Insert,
    /// Function key; terminals report keys 1 through 12.
    F(u8),
    /// A plain character; Enter arrives as `Char('\n')`.
    Char(char),
    Alt(char),
    Ctrl(char),
    Null,
    Esc,
}

/// What the event source hands to the main loop: a key press, or a tick
/// that only asks for a redraw.
pub enum Event<I> {
    Input(I),
    Tick,
}

/// Settings of the event source.
#[derive(Clone, Copy, Debug)]
pub struct Config {
    /// The key after which the input reader stops, unless it is told to
    /// ignore that key.
    pub exit_key: Key,
    /// Milliseconds between two tick events.
    pub tick_rate_ms: u64,
}

impl Default for Config {
    fn default() -> (config: Config)
        ensures
            config.exit_key == Key::Char('q'),
            config.tick_rate_ms == 250,
    {
        Config { exit_key: Key::Char('q'), tick_rate_ms: 250 }
    }
}

impl Config {
    /// Whether the input reader stops after forwarding `key`: it does when
    /// `key` is the exit key and the exit key is not being ignored.
    pub fn ends_input(&self, key: Key, exit_key_ignored: bool) -> (stop: bool)
        ensures
            stop == (!exit_key_ignored && key == self.exit_key),
    {
        !exit_key_ignored && key == self.exit_key
    }
}

} // verus!
