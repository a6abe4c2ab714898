use gitlauncher::events::{handle_enter_press, handle_list_scroll, handle_user_input, Action};
use gitlauncher::{App, Colour, Config, Event, Key, Repo};

fn repo(id: &str, path: &str, keyword: &str) -> Repo {
    Repo { id: id.to_string(), path: path.to_string(), colour: Colour::White, keyword: keyword.to_string() }
}

fn app_with(ids: &[&str], selected: usize) -> App {
    let mut app = App::default();
    for id in ids {
        app.repos.push(repo(id, &format!("/src/{}", id), "code"));
    }
    app.update_filtered_repos();
    app.selected_idx = selected;
    app
}

fn filtered_ids(app: &App) -> Vec<String> {
    app.filtered_repos.iter().map(|r| r.id.clone()).collect()
}

#[test]
fn default_app_is_empty() {
    let app = App::default();
    assert_eq!(app.search_str, "");
    assert_eq!(app.selected_idx, 0);
    assert!(app.repos.is_empty());
    assert!(app.filtered_repos.is_empty());
}

#[test]
fn new_repo_is_blank_and_white() {
    let r = Repo::new();
    assert_eq!(r.id, "");
    assert_eq!(r.path, "");
    assert_eq!(r.keyword, "");
    assert_eq!(r.colour, Colour::White);
}

#[test]
fn repo_clone_keeps_fields() {
    let r = Repo { id: "a".into(), path: "/p".into(), colour: Colour::Rgb(1, 2, 3), keyword: "k".into() };
    let c = r.clone();
    assert_eq!((c.id, c.path, c.colour, c.keyword), (r.id, r.path, r.colour, r.keyword));
}

#[test]
fn empty_search_lists_all_repos() {
    let app = app_with(&["alpha", "beta", "gamma"], 0);
    assert_eq!(filtered_ids(&app), vec!["alpha", "beta", "gamma"]);
}

#[test]
fn search_keeps_repos_whose_id_contains_it() {
    let mut app = app_with(&["alpha", "beta", "alphabet", "gamma"], 0);
    app.search_str = "ph".to_string();
    app.update_filtered_repos();
    assert_eq!(filtered_ids(&app), vec!["alpha", "alphabet"]);
    app.search_str = "bet".to_string();
    app.update_filtered_repos();
    assert_eq!(filtered_ids(&app), vec!["beta", "alphabet"]);
    app.search_str = "habe".to_string();
    app.update_filtered_repos();
    assert_eq!(filtered_ids(&app), vec!["alphabet"]);
    app.search_str = "zeta".to_string();
    app.update_filtered_repos();
    assert!(app.filtered_repos.is_empty());
    assert_eq!(app.repos.len(), 4);
}

#[test]
fn search_is_case_sensitive_and_needs_whole_text() {
    let mut app = app_with(&["Alpha", "al"], 0);
    app.search_str = "alp".to_string();
    app.update_filtered_repos();
    assert!(app.filtered_repos.is_empty());
    app.search_str = "Alpha".to_string();
    app.update_filtered_repos();
    assert_eq!(filtered_ids(&app), vec!["Alpha"]);
}

#[test]
fn search_matches_non_ascii_ids() {
    let mut app = app_with(&["größe", "gross"], 0);
    app.search_str = "öß".to_string();
    app.update_filtered_repos();
    assert_eq!(filtered_ids(&app), vec!["größe"]);
}

#[test]
fn scroll_down_and_up_wrap_around() {
    let mut app = app_with(&["a", "b", "c"], 0);
    assert_eq!(handle_list_scroll(&mut app, -1), Action::Continue);
    assert_eq!(app.selected_idx, 2);
    handle_list_scroll(&mut app, 1);
    assert_eq!(app.selected_idx, 0);
    handle_list_scroll(&mut app, 1);
    assert_eq!(app.selected_idx, 1);
    handle_list_scroll(&mut app, 1);
    handle_list_scroll(&mut app, 1);
    assert_eq!(app.selected_idx, 0);
}

#[test]
fn scroll_in_empty_list_keeps_cursor() {
    let mut app = app_with(&[], 4);
    assert_eq!(handle_list_scroll(&mut app, 1), Action::Continue);
    assert_eq!(app.selected_idx, 4);
    handle_list_scroll(&mut app, -1);
    assert_eq!(app.selected_idx, 4);
}

#[test]
fn scroll_from_past_the_end_lands_in_the_list() {
    // (5 + 3 + 1) % 3 == 0 and (5 + 3 - 1) % 3 == 1
    let mut app = app_with(&["a", "b", "c"], 5);
    handle_list_scroll(&mut app, 1);
    assert_eq!(app.selected_idx, 0);
    app.selected_idx = 5;
    handle_list_scroll(&mut app, -1);
    assert_eq!(app.selected_idx, 1);
}

#[test]
fn scroll_by_several_lines() {
    // (1 + 3 + 4) % 3 == 2, (1 + 3 - 5) mod 3 == 2
    let mut app = app_with(&["a", "b", "c"], 1);
    handle_list_scroll(&mut app, 4);
    assert_eq!(app.selected_idx, 2);
    app.selected_idx = 1;
    handle_list_scroll(&mut app, -5);
    assert_eq!(app.selected_idx, 2);
}

#[test]
fn down_then_up_returns_to_the_same_line() {
    for start in 0..4 {
        let mut app = app_with(&["a", "b", "c", "d"], start);
        handle_user_input(&mut app, Event::Input(Key::Down));
        handle_user_input(&mut app, Event::Input(Key::Up));
        assert_eq!(app.selected_idx, start);
        handle_user_input(&mut app, Event::Input(Key::Up));
        handle_user_input(&mut app, Event::Input(Key::Down));
        assert_eq!(app.selected_idx, start);
    }
}

#[test]
fn enter_launches_selected_repo() {
    let mut app = App::default();
    app.filtered_repos.push(repo("alpha", "/src/alpha", "code"));
    app.filtered_repos.push(repo("beta", "/home/me/beta", "vim"));
    app.selected_idx = 1;
    let r = handle_enter_press(&app);
    assert_eq!(r.action, Action::Break);
    assert_eq!(r.launch.as_deref(), Some("vim /home/me/beta"));
    let r = handle_user_input(&mut app, Event::Input(Key::Char('\n')));
    assert_eq!(r.action, Action::Break);
    assert_eq!(r.launch.as_deref(), Some("vim /home/me/beta"));
    assert_eq!(app.selected_idx, 1);
}

#[test]
fn enter_past_the_list_goes_on() {
    let mut app = app_with(&["a"], 1);
    let r = handle_enter_press(&app);
    assert_eq!(r.action, Action::Continue);
    assert!(r.launch.is_none());
    let empty = App::default();
    assert_eq!(handle_enter_press(&empty).action, Action::Continue);
    let r = handle_user_input(&mut app, Event::Input(Key::Char('\n')));
    assert_eq!(r.action, Action::Continue);
    assert!(r.launch.is_none());
}

#[test]
fn escape_ends_the_launcher() {
    let mut app = app_with(&["a"], 0);
    let r = handle_user_input(&mut app, Event::Input(Key::Esc));
    assert_eq!(r.action, Action::Break);
    assert!(r.launch.is_none());
    assert_eq!(app.search_str, "");
}

#[test]
fn typing_edits_the_search_text() {
    let mut app = app_with(&["a"], 0);
    for c in ['a', 'b', 'ç'] {
        let r = handle_user_input(&mut app, Event::Input(Key::Char(c)));
        assert_eq!(r.action, Action::Continue);
        assert!(r.launch.is_none());
    }
    assert_eq!(app.search_str, "abç");
    handle_user_input(&mut app, Event::Input(Key::Backspace));
    assert_eq!(app.search_str, "ab");
    handle_user_input(&mut app, Event::Input(Key::Backspace));
    handle_user_input(&mut app, Event::Input(Key::Backspace));
    assert_eq!(app.search_str, "");
    let r = handle_user_input(&mut app, Event::Input(Key::Backspace));
    assert_eq!(r.action, Action::Continue);
    assert_eq!(app.search_str, "");
}

#[test]
fn typing_then_backspace_restores_search() {
    let mut app = app_with(&["a"], 0);
    app.search_str = "xy".to_string();
    handle_user_input(&mut app, Event::Input(Key::Char('z')));
    handle_user_input(&mut app, Event::Input(Key::Backspace));
    assert_eq!(app.search_str, "xy");
}

#[test]
fn tick_and_other_keys_change_nothing() {
    let mut app = app_with(&["a", "b"], 1);
    app.search_str = "q".to_string();
    for event in [Event::Tick, Event::Input(Key::Left), Event::Input(Key::F(3)), Event::Input(Key::Ctrl('c'))] {
        let r = handle_user_input(&mut app, event);
        assert_eq!(r.action, Action::Continue);
        assert!(r.launch.is_none());
    }
    assert_eq!(app.search_str, "q");
    assert_eq!(app.selected_idx, 1);
}

#[test]
fn list_rows_highlight_the_cursor() {
    let mut app = App::default();
    app.filtered_repos.push(repo("alpha", "/a", "code"));
    app.filtered_repos.push(Repo { id: "beta".into(), path: "/b".into(), colour: Colour::Rgb(1, 2, 3), keyword: "vim".into() });
    app.selected_idx = 1;
    let rows = app.list_rows();
    assert_eq!(rows.len(), 2);
    assert_eq!((rows[0].label.as_str(), rows[0].colour, rows[0].highlighted), ("alpha", Colour::White, false));
    assert_eq!((rows[1].label.as_str(), rows[1].colour, rows[1].highlighted), ("beta", Colour::Rgb(1, 2, 3), true));
    app.selected_idx = 7;
    assert!(app.list_rows().iter().all(|r| !r.highlighted));
}

#[test]
fn config_default_and_exit_key() {
    let config = Config::default();
    assert_eq!(config.exit_key, Key::Char('q'));
    assert_eq!(config.tick_rate_ms, 250);
    assert!(config.ends_input(Key::Char('q'), false));
    assert!(!config.ends_input(Key::Char('q'), true));
    assert!(!config.ends_input(Key::Char('w'), false));
    let esc = Config { exit_key: Key::Esc, tick_rate_ms: 10 };
    assert!(esc.ends_input(Key::Esc, false));
}

#[test]
fn a_full_round_returns_the_cursor() {
    for start in 0..3 {
        for key in [Key::Down, Key::Up] {
            let mut app = app_with(&["a", "b", "c"], start);
            for _ in 0..3 {
                handle_user_input(&mut app, Event::Input(key));
            }
            assert_eq!(app.selected_idx, start);
        }
    }
}
