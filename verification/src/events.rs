use vstd::prelude::*;
use vstd::arithmetic::div_mod::{
    lemma_add_mod_noop, lemma_mod_add_multiples_vanish, lemma_mod_bound, lemma_mod_self_0,
    lemma_mod_multiples_vanish, lemma_mod_sub_multiples_vanish, lemma_small_mod,
    lemma_sub_mod_noop_right,
};

use crate::app::{App, AppView};
use crate::keys::{Event, Key};
use crate::repo::{Repo, RepoView};

verus! {

/// Whether the main loop goes on after an event.
#[derive(Clone, Copy, Debug, PartialEq, Eq, Structural)]
pub enum Action {
    Break,
    Continue,
}

/// How the launcher answers an event: whether it goes on, and the shell
/// command to run first, if any.
#[derive(Debug)]
pub struct Reaction {
    pub action: Action,
    pub launch: Option<String>,
}

pub open spec fn launch_view(launch: Option<String>) -> Option<Seq<char>> {
    match launch {
        Some(command) => Some(command@),
        None => None,
    }
}

/// Where the cursor lands when it moves by `dir` in a list of `len` lines:
/// the list wraps around at both ends.
pub open spec fn scroll_target(idx: int, len: int, dir: int) -> int {
    (idx + len + dir) % len
}

/// The state after the cursor moves by `dir`; an empty list keeps it.
pub open spec fn scrolled(s: AppView, dir: int) -> AppView {
    if s.filtered.len() > 0 {
        AppView {
            selected: scroll_target(s.selected as int, s.filtered.len() as int, dir) as nat,
            ..s
        }
    } else {
        s
    }
}

/// The shell command that opens a repository: its keyword, a space, its path.
pub open spec fn launch_command(repo: RepoView) -> Seq<char> {
    repo.keyword + seq![' '] + repo.path
}

/// The command that Enter launches: that of the repository under the
/// cursor, if the cursor stands on one.
pub open spec fn enter_launch(s: AppView) -> Option<Seq<char>> {
    if s.selected < s.filtered.len() {
        Some(launch_command(s.filtered[s.selected as int]))
    } else {
        None
    }
}

/// The state after a key press.
pub open spec fn after_key(s: AppView, key: Key) -> AppView {
    match key {
        Key::Down => scrolled(s, 1),
        Key::Up => scrolled(s, -1),
        Key::Char(c) => if c == '\n' {
            s
        } else {
            AppView { search: s.search.push(c), ..s }
        },
        Key::Backspace => if s.search.len() > 0 {
            AppView { search: s.search.drop_last(), ..s }
        } else {
            s
        },
        _ => s,
    }
}

/// Esc ends the launcher, and so does Enter on a repository; every other
/// key lets it go on.
pub open spec fn key_action(s: AppView, key: Key) -> Action {
    match key {
        Key::Esc => Action::Break,
        Key::Char(c) => if c == '\n' && enter_launch(s) is Some {
            Action::Break
        } else {
            Action::Continue
        },
        _ => Action::Continue,
    }
}

pub open spec fn key_launch(s: AppView, key: Key) -> Option<Seq<char>> {
    match key {
        Key::Char(c) => if c == '\n' {
            enter_launch(s)
        } else {
            None
        },
        _ => None,
    }
}

pub open spec fn after_event(s: AppView, event: Event<Key>) -> AppView {
    match event {
        Event::Input(key) => after_key(s, key),
        Event::Tick => s,
    }
}

pub open spec fn event_action(s: AppView, event: Event<Key>) -> Action {
    match event {
        Event::Input(key) => key_action(s, key),
        Event::Tick => Action::Continue,
    }
}

pub open spec fn event_launch(s: AppView, event: Event<Key>) -> Option<Seq<char>> {
    match event {
        Event::Input(key) => key_launch(s, key),
        Event::Tick => None,
    }
}

/// The command that opens `repo`.
fn command_for(repo: &Repo) -> (command: String)
    ensures
        command@ == launch_command(repo@),
{
    let mut command = repo.keyword.clone();
    command.push(' ');
    command.append(repo.path.as_str());
    command
}

/// Enter: launch the repository under the cursor and stop, or, where the
/// cursor stands on none, go on.
pub fn handle_enter_press(app: &App) -> (reaction: Reaction)
    ensures
        reaction.action == (if enter_launch(app@) is Some {
            Action::Break
        } else {
            Action::Continue
        }),
        launch_view(reaction.launch) == enter_launch(app@),
{
    if app.selected_idx < app.filtered_repos.len() {
        let command = command_for(&app.filtered_repos[app.selected_idx]);
        Reaction { action: Action::Break, launch: Some(command) }
    } else {
        Reaction { action: Action::Continue, launch: None }
    }
}

proof fn lemma_step_dir(len: int, dir: int, step: int)
    requires
        len > 0,
        dir >= 0 ==> step == dir % len,
        dir < 0 ==> step == (if (-dir) % len == 0 {
            0
        } else {
            len - (-dir) % len
        }),
    ensures
        step == (len + dir) % len,
        0 <= step < len,
{
    if dir >= 0 {
        lemma_mod_add_multiples_vanish(dir, len);
        lemma_mod_bound(dir, len);
    } else {
        let a: int = (-dir) % len;
        lemma_mod_bound(-dir, len);
        lemma_sub_mod_noop_right(len, -dir, len);
        if a == 0 {
            lemma_mod_self_0(len);
        } else {
            lemma_small_mod((len - a) as nat, len as nat);
        }
    }
}

proof fn lemma_step_sum(idx: int, len: int, dir: int, r: int, step: int)
    requires
        len > 0,
        r == idx % len,
        step == (len + dir) % len,
        0 <= r < len,
        0 <= step < len,
    ensures
        (if r + step >= len {
            r + step - len
        } else {
            r + step
        }) == scroll_target(idx, len, dir),
{
    lemma_add_mod_noop(idx, len + dir, len);
    if r + step >= len {
        lemma_mod_sub_multiples_vanish(r + step, len);
        lemma_small_mod((r + step - len) as nat, len as nat);
    } else {
        lemma_small_mod((r + step) as nat, len as nat);
    }
}

/// Up or down: the cursor moves by `scroll_dir` lines, wrapping around at
/// both ends of the list; in an empty list it stays.
pub fn handle_list_scroll(app: &mut App, scroll_dir: i8) -> (action: Action)
    ensures
        action == Action::Continue,
        final(app)@ == scrolled(old(app)@, scroll_dir as int),
        final(app).filtered_repos@.len() > 0 ==> final(app).selected_idx
            < final(app).filtered_repos@.len(),
{
    let len: usize = app.filtered_repos.len();
    if len > 0 {
        let r: usize = app.selected_idx % len;
        let step: usize = if scroll_dir >= 0 {
            (scroll_dir as usize) % len
        } else {
            let back: usize = ((0i16 - scroll_dir as i16) as usize) % len;
            if back == 0 {
                0
            } else {
                len - back
            }
        };
        proof {
            lemma_mod_bound(app.selected_idx as int, len as int);
            lemma_step_dir(len as int, scroll_dir as int, step as int);
            lemma_step_sum(app.selected_idx as int, len as int, scroll_dir as int, r as int, step as int);
        }
        let next: usize = if r >= len - step {
            r - (len - step)
        } else {
            r + step
        };
        app.selected_idx = next;
    }
    proof {
        if len > 0 {
            lemma_mod_bound(old(app).selected_idx as int + len + scroll_dir, len as int);
        }
    }
    assert(app@ =~= scrolled(old(app)@, scroll_dir as int));
    Action::Continue
}

/// The launcher's answer to one event: a key edits the search, moves the
/// cursor, launches the repository under it or ends the launcher; a tick
/// changes nothing.
pub fn handle_user_input(app: &mut App, event: Event<Key>) -> (reaction: Reaction)
    ensures
        final(app)@ == after_event(old(app)@, event),
        reaction.action == event_action(old(app)@, event),
        launch_view(reaction.launch) == event_launch(old(app)@, event),
{
    match event {
        Event::Input(key) => match key {
            Key::Esc => Reaction { action: Action::Break, launch: None },
            Key::Char('\n') => handle_enter_press(app),
            Key::Down => Reaction { action: handle_list_scroll(app, 1), launch: None },
            Key::Up => Reaction { action: handle_list_scroll(app, -1), launch: None },
            Key::Char(c) => {
                app.search_str.push(c);
                assert(app@ =~= after_key(old(app)@, key));
                Reaction { action: Action::Continue, launch: None }
            },
            Key::Backspace => {
                app.search_str.pop();
                assert(app@ =~= after_key(old(app)@, key));
                Reaction { action: Action::Continue, launch: None }
            },
            _ => Reaction { action: Action::Continue, launch: None },
        },
        Event::Tick => Reaction { action: Action::Continue, launch: None },
    }
}

/// Moving the cursor by `a` and then by `b` lands where moving it by `a + b`
/// does.
pub proof fn law_scroll_composes(idx: int, len: int, a: int, b: int)
    requires
        len > 0,
    ensures
        scroll_target(scroll_target(idx, len, a), len, b) == scroll_target(idx, len, a + b),
{
    lemma_add_mod_noop(idx + len + a, len + b, len);
    lemma_mod_bound(len + b, len);
    lemma_mod_bound(idx + len + a, len);
    lemma_mod_add_multiples_vanish(idx + len + a + b, len);
    lemma_add_mod_noop(scroll_target(idx, len, a), len + b, len);
    lemma_mod_bound(scroll_target(idx, len, a), len);
    lemma_small_mod(scroll_target(idx, len, a) as nat, len as nat);
}

/// Down and then Up puts the cursor back on the line it stood on, and so
/// does Up and then Down; nothing else changes.
pub proof fn law_down_up_returns(s: AppView)
    requires
        s.selected < s.filtered.len(),
    ensures
        after_key(after_key(s, Key::Down), Key::Up) == s,
        after_key(after_key(s, Key::Up), Key::Down) == s,
{
    let len: int = s.filtered.len() as int;
    let i: int = s.selected as int;
    law_scroll_composes(i, len, 1, -1);
    law_scroll_composes(i, len, -1, 1);
    lemma_mod_add_multiples_vanish(i, len);
    lemma_small_mod(i as nat, len as nat);
    lemma_mod_bound(i + len + 1, len);
    lemma_mod_bound(i + len - 1, len);
    assert(after_key(after_key(s, Key::Down), Key::Up) =~= s);
    assert(after_key(after_key(s, Key::Up), Key::Down) =~= s);
}

/// The state after `k` presses of `key`.
pub open spec fn presses(s: AppView, key: Key, k: nat) -> AppView
    decreases k,
{
    if k == 0 {
        s
    } else {
        after_key(presses(s, key, (k - 1) as nat), key)
    }
}

proof fn lemma_presses_move_cursor(s: AppView, key: Key, dir: int, k: nat)
    requires
        s.selected < s.filtered.len(),
        (key == Key::Down && dir == 1) || (key == Key::Up && dir == -1),
    ensures
        presses(s, key, k) == (AppView {
            selected: scroll_target(s.selected as int, s.filtered.len() as int, dir * k) as nat,
            ..s
        }),
    decreases k,
{
    let len: int = s.filtered.len() as int;
    let i: int = s.selected as int;
    if k == 0 {
        assert(dir * k == 0) by (nonlinear_arith)
            requires
                k == 0,
        ;
        lemma_mod_add_multiples_vanish(i, len);
        lemma_small_mod(i as nat, len as nat);
        assert(presses(s, key, k) =~= (AppView {
            selected: scroll_target(i, len, dir * k) as nat,
            ..s
        }));
    } else {
        lemma_presses_move_cursor(s, key, dir, (k - 1) as nat);
        let before: int = scroll_target(i, len, dir * (k - 1));
        lemma_mod_bound(i + len + dir * (k - 1), len);
        law_scroll_composes(i, len, dir * (k - 1), dir);
        assert(dir * (k - 1) + dir == dir * k) by (nonlinear_arith);
        assert(presses(s, key, k) =~= (AppView {
            selected: scroll_target(i, len, dir * k) as nat,
            ..s
        }));
    }
}

/// As many presses of Down, or of Up, as the list has lines bring the
/// cursor back to the line it stood on, and change nothing else.
pub proof fn law_full_round_returns(s: AppView, key: Key)
    requires
        s.selected < s.filtered.len(),
        key == Key::Down || key == Key::Up,
    ensures
        presses(s, key, s.filtered.len()) == s,
{
    let len: int = s.filtered.len() as int;
    let i: int = s.selected as int;
    let dir: int = if key == Key::Down {
        1
    } else {
        -1
    };
    lemma_presses_move_cursor(s, key, dir, s.filtered.len());
    assert(i + len + dir * len == len * (1 + dir) + i) by (nonlinear_arith);
    lemma_mod_multiples_vanish(1 + dir, i, len);
    lemma_small_mod(i as nat, len as nat);
    assert(presses(s, key, s.filtered.len()) =~= s);
}

/// Whatever the cursor did before, after a move it stands on a line of a
/// non-empty list.
pub proof fn law_scroll_lands_on_a_line(s: AppView, dir: int)
    requires
        s.filtered.len() > 0,
    ensures
        scrolled(s, dir).selected < s.filtered.len(),
{
    lemma_mod_bound(s.selected as int + s.filtered.len() + dir, s.filtered.len() as int);
}

/// Typing a character other than Enter appends exactly that character to
/// the search text and changes nothing else; nothing is launched and the
/// launcher goes on.
pub proof fn law_typing_appends(s: AppView, c: char)
    requires
        c != '\n',
    ensures
        after_key(s, Key::Char(c)).search.len() == s.search.len() + 1,
        after_key(s, Key::Char(c)).search.last() == c,
        after_key(s, Key::Char(c)).search.drop_last() == s.search,
        after_key(s, Key::Char(c)).selected == s.selected,
        after_key(s, Key::Char(c)).repos == s.repos,
        after_key(s, Key::Char(c)).filtered == s.filtered,
        key_action(s, Key::Char(c)) == Action::Continue,
        key_launch(s, Key::Char(c)) is None,
{
    assert(s.search.push(c).drop_last() =~= s.search);
}

/// Backspace removes exactly the last character of the search text, if any,
/// and changes nothing else.
pub proof fn law_backspace_removes_last(s: AppView)
    ensures
        s.search.len() > 0 ==> after_key(s, Key::Backspace).search.push(s.search.last())
            == s.search,
        s.search.len() > 0 ==> after_key(s, Key::Backspace).search.len() == s.search.len() - 1,
        s.search.len() == 0 ==> after_key(s, Key::Backspace).search.len() == 0,
        after_key(s, Key::Backspace).selected == s.selected,
        after_key(s, Key::Backspace).repos == s.repos,
        after_key(s, Key::Backspace).filtered == s.filtered,
{
    if s.search.len() > 0 {
        assert(s.search.drop_last().push(s.search.last()) =~= s.search);
    }
}

/// The launch command is the whole keyword, one space and the whole path,
/// whatever their lengths.
pub proof fn law_launch_command_layout(repo: RepoView)
    ensures
        launch_command(repo).len() == repo.keyword.len() + 1 + repo.path.len(),
        launch_command(repo).take(repo.keyword.len() as int) == repo.keyword,
        launch_command(repo)[repo.keyword.len() as int] == ' ',
        launch_command(repo).skip(repo.keyword.len() + 1int) == repo.path,
{
    let cmd = launch_command(repo);
    assert(cmd.take(repo.keyword.len() as int) =~= repo.keyword);
    assert(cmd.skip(repo.keyword.len() + 1int) =~= repo.path);
}

/// Enter on a line launches the command built from that line's repository:
/// its whole keyword, a space and its whole path.
pub proof fn law_enter_launches_keyword_and_path(s: AppView)
    requires
        s.selected < s.filtered.len(),
    ensures
        key_launch(s, Key::Char('\n')) is Some,
        ({
            let cmd = key_launch(s, Key::Char('\n'))->0;
            let r = s.filtered[s.selected as int];
            &&& cmd.len() == r.keyword.len() + 1 + r.path.len()
            &&& cmd.take(r.keyword.len() as int) == r.keyword
            &&& cmd[r.keyword.len() as int] == ' '
            &&& cmd.skip(r.keyword.len() + 1int) == r.path
        }),
{
    law_launch_command_layout(s.filtered[s.selected as int]);
}

/// Typing a character and then Backspace gives back the search text and
/// the whole state.
pub proof fn law_type_then_erase(s: AppView, c: char)
    requires
        c != '\n',
    ensures
        after_key(after_key(s, Key::Char(c)), Key::Backspace) == s,
{
    assert(s.search.push(c).drop_last() =~= s.search);
    assert(after_key(after_key(s, Key::Char(c)), Key::Backspace) =~= s);
}

/// Enter on a line of the list launches that line's repository and ends
/// the launcher; Enter past the end of the list does neither.
pub proof fn law_enter_launches_selected(s: AppView)
    ensures
        s.selected < s.filtered.len() ==> key_launch(s, Key::Char('\n')) == Some(
            launch_command(s.filtered[s.selected as int]),
        ) && key_action(s, Key::Char('\n')) == Action::Break,
        s.selected >= s.filtered.len() ==> key_launch(s, Key::Char('\n')) is None && key_action(
            s,
            Key::Char('\n'),
        ) == Action::Continue,
        after_key(s, Key::Char('\n')) == s,
{
}

} // verus!
