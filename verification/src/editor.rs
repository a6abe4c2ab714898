use vstd::prelude::*;

use crate::keys::Key;
use vstd::arithmetic::div_mod::{lemma_fundamental_div_mod, lemma_mod_bound};

verus! {

/// Whether keys are commands or go into the input line.
#[derive(Clone, Copy, Debug, PartialEq, Eq, Structural)]
pub enum InputMode {
    Normal,
    Editing,
}

/// A small message recorder: an input line, and the messages recorded from it.
#[derive(Debug)]
pub struct App {
    /// Current value of the input box
    pub input: String,
    /// Current input mode
    pub input_mode: InputMode,
    /// History of recorded messages
    pub messages: Vec<String>,
}

#[verifier::ext_equal]
pub struct AppView {
    pub input: Seq<char>,
    pub mode: InputMode,
    pub messages: Seq<Seq<char>>,
}

pub open spec fn messages_view(messages: Seq<String>) -> Seq<Seq<char>> {
    messages.map_values(|m: String| m@)
}

impl View for App {
    type V = AppView;

    open spec fn view(&self) -> AppView {
        AppView { input: self.input@, mode: self.input_mode, messages: messages_view(self.messages@) }
    }
}

impl Default for App {
    fn default() -> (app: App)
        ensures
            app@ == (AppView { input: Seq::empty(), mode: InputMode::Normal, messages: Seq::empty() }),
    {
        let app = App { input: String::new(), input_mode: InputMode::Normal, messages: Vec::new() };
        assert(app@ =~= (AppView {
            input: Seq::empty(),
            mode: InputMode::Normal,
            messages: Seq::empty(),
        }));
        app
    }
}

/// What the recorder's main loop does after a key, beside the change of state.
#[derive(Clone, Copy, Debug, PartialEq, Eq, Structural)]
pub enum Command {
    Nothing,
    /// Leave the main loop.
    Quit,
    /// From now on the input reader does not stop at the exit key.
    DisableExitKey,
    /// From now on the input reader stops at the exit key again.
    EnableExitKey,
}

/// The state after a key press. In normal mode `e` starts editing; in
/// editing mode Enter records the input line and empties it, a character
/// is appended to it, Backspace removes its last character and Esc ends
/// editing.
pub open spec fn after_key(s: AppView, key: Key) -> AppView {
    match s.mode {
        InputMode::Normal => match key {
            Key::Char(c) => if c == 'e' {
                AppView { mode: InputMode::Editing, ..s }
            } else {
                s
            },
            _ => s,
        },
        InputMode::Editing => match key {
            Key::Char(c) => if c == '\n' {
                AppView { input: Seq::empty(), messages: s.messages.push(s.input), ..s }
            } else {
                AppView { input: s.input.push(c), ..s }
            },
            Key::Backspace => if s.input.len() > 0 {
                AppView { input: s.input.drop_last(), ..s }
            } else {
                s
            },
            Key::Esc => AppView { mode: InputMode::Normal, ..s },
            _ => s,
        },
    }
}

/// In normal mode `q` quits and `e` disables the exit key; in editing mode
/// Esc enables it again.
pub open spec fn key_command(s: AppView, key: Key) -> Command {
    match s.mode {
        InputMode::Normal => match key {
            Key::Char(c) => if c == 'e' {
                Command::DisableExitKey
            } else if c == 'q' {
                Command::Quit
            } else {
                Command::Nothing
            },
            _ => Command::Nothing,
        },
        InputMode::Editing => match key {
            Key::Esc => Command::EnableExitKey,
            _ => Command::Nothing,
        },
    }
}

/// The decimal digit `d`.
pub open spec fn digit_char(d: nat) -> char {
    if d == 0 {
        '0'
    } else if d == 1 {
        '1'
    } else if d == 2 {
        '2'
    } else if d == 3 {
        '3'
    } else if d == 4 {
        '4'
    } else if d == 5 {
        '5'
    } else if d == 6 {
        '6'
    } else if d == 7 {
        '7'
    } else if d == 8 {
        '8'
    } else {
        '9'
    }
}

/// The decimal notation of `n`, without leading zeros.
pub open spec fn decimal(n: nat) -> Seq<char>
    decreases n,
{
    if n < 10 {
        seq![digit_char(n)]
    } else {
        decimal(n / 10).push(digit_char(n % 10))
    }
}

/// The line under which a message is listed: its position, a colon, a
/// space and the message.
pub open spec fn message_line(i: nat, message: Seq<char>) -> Seq<char> {
    decimal(i) + seq![':', ' '] + message
}

fn digit(d: usize) -> (c: char)
    requires
        d < 10,
    ensures
        c == digit_char(d as nat),
{
    if d == 0 {
        '0'
    } else if d == 1 {
        '1'
    } else if d == 2 {
        '2'
    } else if d == 3 {
        '3'
    } else if d == 4 {
        '4'
    } else if d == 5 {
        '5'
    } else if d == 6 {
        '6'
    } else if d == 7 {
        '7'
    } else if d == 8 {
        '8'
    } else {
        '9'
    }
}

/// Appends the decimal notation of `n`.
fn push_decimal(s: &mut String, n: usize)
    ensures
        final(s)@ == old(s)@ + decimal(n as nat),
    decreases n,
{
    if n >= 10 {
        push_decimal(s, n / 10);
    }
    s.push(digit(n % 10));
    assert(s@ =~= old(s)@ + decimal(n as nat));
}

impl App {
    /// Applies a key press; says what the main loop does besides.
    pub fn handle_key(&mut self, key: Key) -> (command: Command)
        ensures
            final(self)@ == after_key(old(self)@, key),
            command == key_command(old(self)@, key),
    {
        match self.input_mode {
            InputMode::Normal => match key {
                Key::Char('e') => {
                    self.input_mode = InputMode::Editing;
                    assert(self@ =~= after_key(old(self)@, key));
                    Command::DisableExitKey
                },
                Key::Char('q') => Command::Quit,
                _ => Command::Nothing,
            },
            InputMode::Editing => match key {
                Key::Char('\n') => {
                    let mut line = String::new();
                    std::mem::swap(&mut line, &mut self.input);
                    let ghost before = self.messages@;
                    self.messages.push(line);
                    assert(messages_view(self.messages@) =~= messages_view(before).push(old(self).input@));
                    assert(self@ =~= after_key(old(self)@, key));
                    Command::Nothing
                },
                Key::Char(c) => {
                    self.input.push(c);
                    assert(self@ =~= after_key(old(self)@, key));
                    Command::Nothing
                },
                Key::Backspace => {
                    self.input.pop();
                    assert(self@ =~= after_key(old(self)@, key));
                    Command::Nothing
                },
                Key::Esc => {
                    self.input_mode = InputMode::Normal;
                    assert(self@ =~= after_key(old(self)@, key));
                    Command::EnableExitKey
                },
                _ => Command::Nothing,
            },
        }
    }

    /// The lines of the message list, one for each recorded message.
    pub fn message_lines(&self) -> (lines: Vec<String>)
        ensures
            lines@.len() == self.messages@.len(),
            forall|i: int|
                #![trigger lines@[i]]
                0 <= i < lines@.len() ==> lines@[i]@ == message_line(i as nat, self.messages@[i]@),
    {
        let mut lines: Vec<String> = Vec::new();
        let mut i: usize = 0;
        while i < self.messages.len()
            invariant
                i <= self.messages@.len(),
                lines@.len() == i,
                forall|k: int|
                    #![trigger lines@[k]]
                    0 <= k < i ==> lines@[k]@ == message_line(k as nat, self.messages@[k]@),
            decreases self.messages@.len() - i,
        {
            let mut line = String::new();
            push_decimal(&mut line, i);
            line.push(':');
            line.push(' ');
            line.append(self.messages[i].as_str());
            assert(line@ =~= message_line(i as nat, self.messages@[i as int]@));
            lines.push(line);
            i += 1;
        }
        lines
    }
}

/// The number that a decimal digit stands for.
pub open spec fn digit_value(c: char) -> nat {
    if c == '1' {
        1
    } else if c == '2' {
        2
    } else if c == '3' {
        3
    } else if c == '4' {
        4
    } else if c == '5' {
        5
    } else if c == '6' {
        6
    } else if c == '7' {
        7
    } else if c == '8' {
        8
    } else if c == '9' {
        9
    } else {
        0
    }
}

/// The number that a string of decimal digits stands for.
pub open spec fn decimal_value(digits: Seq<char>) -> nat
    decreases digits.len(),
{
    if digits.len() == 0 {
        0
    } else {
        10 * decimal_value(digits.drop_last()) + digit_value(digits.last())
    }
}

proof fn lemma_digit_round_trip(d: nat)
    requires
        d < 10,
    ensures
        digit_value(digit_char(d)) == d,
{
}

/// The position written in front of a message reads back as that position,
/// and it starts with a digit other than 0 unless it is 0 itself.
pub proof fn law_decimal_reads_back(n: nat)
    ensures
        decimal_value(decimal(n)) == n,
        decimal(n).len() > 0,
        n > 0 ==> decimal(n)[0] != '0',
    decreases n,
{
    if n < 10 {
        lemma_digit_round_trip(n);
        assert(decimal(n).drop_last() =~= Seq::<char>::empty());
        assert(decimal_value(decimal(n)) == 10 * decimal_value(Seq::<char>::empty()) + digit_value(digit_char(n)));
    } else {
        law_decimal_reads_back(n / 10);
        lemma_digit_round_trip(n % 10);
        lemma_fundamental_div_mod(n as int, 10);
        lemma_mod_bound(n as int, 10);
        assert(decimal(n).drop_last() =~= decimal(n / 10));
        assert(decimal(n).last() == digit_char(n % 10));
        assert(decimal_value(decimal(n)) == 10 * decimal_value(decimal(n / 10)) + digit_value(digit_char(n % 10)));
        assert(n == 10 * (n / 10) + n % 10);
        assert(decimal(n)[0] == decimal(n / 10)[0]);
    }
}

/// In editing mode Enter records the input line as the last message and
/// empties the line; the mode stays.
pub proof fn law_enter_records_input(s: AppView)
    requires
        s.mode == InputMode::Editing,
    ensures
        after_key(s, Key::Char('\n')).messages == s.messages.push(s.input),
        after_key(s, Key::Char('\n')).input.len() == 0,
        after_key(s, Key::Char('\n')).mode == InputMode::Editing,
        key_command(s, Key::Char('\n')) == Command::Nothing,
{
}

/// `e` and then Esc leave the recorder as it was, having disabled and then
/// enabled the exit key.
pub proof fn law_edit_then_escape(s: AppView)
    requires
        s.mode == InputMode::Normal,
    ensures
        after_key(after_key(s, Key::Char('e')), Key::Esc) == s,
        key_command(s, Key::Char('e')) == Command::DisableExitKey,
        key_command(after_key(s, Key::Char('e')), Key::Esc) == Command::EnableExitKey,
{
    assert(after_key(after_key(s, Key::Char('e')), Key::Esc) =~= s);
}

/// In editing mode, typing a character other than Enter appends exactly
/// that character to the input line and changes nothing else.
pub proof fn law_typing_appends(s: AppView, c: char)
    requires
        s.mode == InputMode::Editing,
        c != '\n',
    ensures
        after_key(s, Key::Char(c)).input.len() == s.input.len() + 1,
        after_key(s, Key::Char(c)).input.last() == c,
        after_key(s, Key::Char(c)).input.drop_last() == s.input,
        after_key(s, Key::Char(c)).mode == InputMode::Editing,
        after_key(s, Key::Char(c)).messages == s.messages,
        key_command(s, Key::Char(c)) == Command::Nothing,
{
    assert(s.input.push(c).drop_last() =~= s.input);
}

/// A message line is the whole position number, a colon, a space and the
/// whole message, whatever the message's length.
pub proof fn law_message_line_layout(i: nat, message: Seq<char>)
    ensures
        message_line(i, message).len() == decimal(i).len() + 2 + message.len(),
        message_line(i, message).take(decimal(i).len() as int) == decimal(i),
        message_line(i, message)[decimal(i).len() as int] == ':',
        message_line(i, message)[decimal(i).len() + 1int] == ' ',
        message_line(i, message).skip(decimal(i).len() + 2int) == message,
        decimal_value(message_line(i, message).take(decimal(i).len() as int)) == i,
{
    let line = message_line(i, message);
    assert(line.take(decimal(i).len() as int) =~= decimal(i));
    assert(line.skip(decimal(i).len() + 2int) =~= message);
    law_decimal_reads_back(i);
}

/// In editing mode, typing a character and then Backspace gives back the
/// input line.
pub proof fn law_type_then_erase(s: AppView, c: char)
    requires
        s.mode == InputMode::Editing,
        c != '\n',
    ensures
        after_key(after_key(s, Key::Char(c)), Key::Backspace) == s,
{
    assert(s.input.push(c).drop_last() =~= s.input);
    assert(after_key(after_key(s, Key::Char(c)), Key::Backspace) =~= s);
}

/// In normal mode no key but `e` changes anything: `q` quits, the others
/// are ignored.
pub proof fn law_normal_mode_only_e_changes_state(s: AppView, key: Key)
    requires
        s.mode == InputMode::Normal,
        key != Key::Char('e'),
    ensures
        after_key(s, key) == s,
        key_command(s, key) == (if key == Key::Char('q') {
            Command::Quit
        } else {
            Command::Nothing
        }),
{
}

} // verus!
