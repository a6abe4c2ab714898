use gitlauncher::settings::repos_from_documents;
use gitlauncher::{load_settings, App, Colour, Node, Repo, SettingsError};

const SETTINGS: &str = "
repos:
  - first:
      id: alpha
      path: /src/alpha
      keyword: code
      colour:
        r: 10
        g: 300
        b: 255
    second:
      id: beta
      path: /src/beta
      keyword: vim
      note: ignored
  - third:
      keyword: emacs
      colour:
        g: -1
";

fn fields(r: &Repo) -> (&str, &str, Colour, &str) {
    (r.id.as_str(), r.path.as_str(), r.colour, r.keyword.as_str())
}

#[test]
fn settings_list_one_repo_per_entry() {
    let repos = load_settings(SETTINGS).unwrap();
    assert_eq!(repos.len(), 3);
    assert_eq!(fields(&repos[0]), ("alpha", "/src/alpha", Colour::Rgb(10, 44, 255), "code"));
    assert_eq!(fields(&repos[1]), ("beta", "/src/beta", Colour::White, "vim"));
    assert_eq!(fields(&repos[2]), ("", "", Colour::Rgb(0, 255, 0), "emacs"));
}

#[test]
fn unknown_fields_are_ignored() {
    let repos = load_settings("repos:\n  - a: {id: x, path: p, id2: y, colour: {r: 1, r2: 5, b: 2}}\n").unwrap();
    assert_eq!(fields(&repos[0]), ("x", "p", Colour::Rgb(1, 0, 2), ""));
}

#[test]
fn empty_repo_list_gives_no_repos() {
    assert!(load_settings("repos: []\n").unwrap().is_empty());
    assert!(load_settings("repos:\n  - {}\n").unwrap().is_empty());
}

#[test]
fn only_first_document_counts() {
    let text = "repos:\n  - a: {id: one}\n---\nrepos:\n  - b: {id: two}\n";
    let repos = load_settings(text).unwrap();
    assert_eq!(repos.len(), 1);
    assert_eq!(repos[0].id, "one");
}

#[test]
fn syntax_error_is_reported() {
    assert!(matches!(load_settings("repos: [a, b"), Err(SettingsError::Syntax(_))));
    assert!(matches!(load_settings("a: b: c"), Err(SettingsError::Syntax(_))));
}

#[test]
fn malformed_settings_are_reported() {
    for text in [
        "",
        "other: 1",
        "repos: 5",
        "- repos",
        "repos:\n  - 3\n",
        "repos:\n  - a: 4\n",
        "repos:\n  - a: {id: [1]}\n",
        "repos:\n  - a: {path: 7}\n",
        "repos:\n  - a: {keyword: {x: 1}}\n",
        "repos:\n  - a: {1: x}\n",
        "repos:\n  - a: {colour: red}\n",
        "repos:\n  - a: {colour: {r: x}}\n",
        "repos:\n  - a: {colour: {r: 1.5}}\n",
        "repos:\n  - a: {colour: {7: 1}}\n",
    ] {
        assert!(matches!(load_settings(text), Err(SettingsError::Malformed)), "{:?}", text);
    }
}

#[test]
fn read_from_settings_appends_to_the_app() {
    let mut app = App::default();
    app.repos.push(Repo::new());
    Repo::read_from_settings(&mut app, SETTINGS).unwrap();
    assert_eq!(app.repos.len(), 4);
    assert_eq!(app.repos[0].id, "");
    assert_eq!(app.repos[1].id, "alpha");
    assert_eq!(app.repos[3].keyword, "emacs");
    assert!(app.filtered_repos.is_empty());
}

#[test]
fn failed_read_leaves_the_app_alone() {
    let mut app = App::default();
    app.search_str = "s".into();
    assert!(matches!(Repo::read_from_settings(&mut app, "repos: 1"), Err(SettingsError::Malformed)));
    assert!(matches!(Repo::read_from_settings(&mut app, "{"), Err(SettingsError::Syntax(_))));
    assert!(app.repos.is_empty());
    assert_eq!(app.search_str, "s");
}

#[test]
fn documents_are_read_from_nodes() {
    let entry = Node::Hash(vec![
        (Node::Str("id".into()), Node::Str("n".into())),
        (Node::Str("colour".into()), Node::Hash(vec![(Node::Str("b".into()), Node::Integer(513))])),
    ]);
    let docs = vec![Node::Hash(vec![(
        Node::Str("repos".into()),
        Node::Array(vec![Node::Hash(vec![(Node::Null, entry)])]),
    )])];
    let repos = repos_from_documents(&docs).unwrap();
    assert_eq!(fields(&repos[0]), ("n", "", Colour::Rgb(0, 0, 1), ""));
    let bad = vec![Node::Hash(vec![(Node::Str("repos".into()), Node::Str("x".into()))])];
    assert!(repos_from_documents(&bad).is_none());
    assert!(repos_from_documents(&vec![]).is_none());
}

fn all_fields(text: &str) -> Vec<(String, String, Colour, String)> {
    load_settings(text)
        .unwrap()
        .into_iter()
        .map(|r| (r.id, r.path, r.colour, r.keyword))
        .collect()
}

#[test]
fn extra_keys_change_nothing() {
    let plain = "repos:\n  - a: {id: x, path: p, keyword: k, colour: {r: 1, g: 2, b: 3}}\n    b: {id: y}\n";
    let extra = "name: me\nrepos:\n  - a: {note: n, id: x, path: p, tags: [1, 2], keyword: k, colour: {alpha: 9, r: 1, g: 2, b: 3, x: [1]}}\n    b: {id: y, z: {q: 1}}\nversion: 2\n";
    assert_eq!(all_fields(plain), all_fields(extra));
    assert_eq!(all_fields(extra).len(), 2);
}
