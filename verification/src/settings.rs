use vstd::prelude::*;
use yaml_rust::{ScanError, Yaml, YamlLoader};

use crate::app::{App, AppView};
use crate::repo::{blank_repo, repos_view, Colour, Repo, RepoView};

verus! {

#[verifier::external_type_specification]
#[verifier::external_body]
pub struct ExYaml(Yaml);

#[verifier::external_type_specification]
#[verifier::external_body]
pub struct ExScanError(ScanError);

/// A YAML value, one variant for each kind of value that the YAML loader
/// produces. A mapping keeps its entries in document order.
#[derive(Debug)]
pub enum Node {
    Real(String),
    Integer(i64),
    Str(String),
    Boolean(bool),
    Array(Vec<Node>),
    Hash(Vec<(Node, Node)>),
    Alias(usize),
    Null,
    BadValue,
}

/// The documents that the YAML loader reads from `text`, or `None` where it
/// reports a syntax error.
pub uninterp spec fn yaml_documents(text: Seq<char>) -> Option<Seq<Node>>;

/// Calls `yaml_rust::YamlLoader::load_from_str` and turns each loaded
/// document into a [`Node`]. Claimed: the loader is a function of the text
/// (`yaml_documents`), it fails exactly where that name gives `None`, and
/// otherwise returns those documents. Nothing is claimed of which documents
/// a given text yields: that is the YAML loader's business.
#[verifier::external_body]
fn load_documents(text: &str) -> (res: Result<Vec<Node>, ScanError>)
    ensures
        res is Ok <==> yaml_documents(text@) is Some,
        res matches Ok(docs) ==> yaml_documents(text@) == Some(docs@),
{
    YamlLoader::load_from_str(text).map(|docs| docs.iter().map(node_from_yaml).collect())
}

/// Turns a value of the YAML loader into a [`Node`], variant for variant;
/// the entries of a mapping in the loader's (document) order. It claims
/// nothing; `load_documents`, its only caller, states what the loader gives.
#[verifier::external_body]
fn node_from_yaml(value: &Yaml) -> Node {
    match value {
        Yaml::Real(s) => Node::Real(s.clone()),
        Yaml::Integer(i) => Node::Integer(*i),
        Yaml::String(s) => Node::Str(s.clone()),
        Yaml::Boolean(b) => Node::Boolean(*b),
        Yaml::Array(v) => Node::Array(v.iter().map(node_from_yaml).collect()),
        Yaml::Hash(h) => Node::Hash(h.iter().map(|(k, v)| (node_from_yaml(k), node_from_yaml(v))).collect()),
        Yaml::Alias(a) => Node::Alias(*a),
        Yaml::Null => Node::Null,
        Yaml::BadValue => Node::BadValue,
    }
}

/// Why a settings text gives no repositories.
#[derive(Debug)]
pub enum SettingsError {
    /// The text is not YAML.
    Syntax(ScanError),
    /// The text is YAML, but not laid out as settings (see `valid_settings`).
    Malformed,
}

/// Whether `n` is the string `key`.
pub open spec fn is_str(n: Node, key: Seq<char>) -> bool {
    match n {
        Node::Str(s) => s@ == key,
        _ => false,
    }
}

/// The value of the first entry of a mapping whose key is the string `key`.
pub open spec fn hash_lookup(entries: Seq<(Node, Node)>, key: Seq<char>) -> Option<Node>
    decreases entries.len(),
{
    if entries.len() == 0 {
        None
    } else if is_str(entries[0].0, key) {
        Some(entries[0].1)
    } else {
        hash_lookup(entries.drop_first(), key)
    }
}

/// The list under the key `repos` of the first document.
pub open spec fn repo_list(docs: Seq<Node>) -> Option<Seq<Node>> {
    if docs.len() == 0 {
        None
    } else {
        match docs[0] {
            Node::Hash(h) => match hash_lookup(h@, "repos"@) {
                Some(Node::Array(items)) => Some(items@),
                _ => None,
            },
            _ => None,
        }
    }
}

/// A colour entry is well formed: its key is a string, and the value of the
/// keys `r`, `g` and `b` is an integer.
pub open spec fn colour_entry_ok(entry: (Node, Node)) -> bool {
    match entry.0 {
        Node::Str(k) => (k@ == "r"@ || k@ == "g"@ || k@ == "b"@) ==> entry.1 is Integer,
        _ => false,
    }
}

pub open spec fn colour_ok(cols: Seq<(Node, Node)>) -> bool {
    forall|i: int| 0 <= i < cols.len() ==> colour_entry_ok(#[trigger] cols[i])
}

/// The red, green and blue parts that the colour entries set, in order,
/// starting from black; an integer is cut to its low byte.
pub open spec fn rgb_after(cols: Seq<(Node, Node)>) -> (u8, u8, u8)
    decreases cols.len(),
{
    if cols.len() == 0 {
        (0u8, 0u8, 0u8)
    } else {
        let (r, g, b): (u8, u8, u8) = rgb_after(cols.drop_last());
        match (cols.last().0, cols.last().1) {
            (Node::Str(k), Node::Integer(v)) => if k@ == "r"@ {
                (v as u8, g, b)
            } else if k@ == "g"@ {
                (r, v as u8, b)
            } else if k@ == "b"@ {
                (r, g, v as u8)
            } else {
                (r, g, b)
            },
            _ => (r, g, b),
        }
    }
}

/// A field of a repository entry is well formed: its key is a string, the
/// value of `id`, `path` and `keyword` is a string, and that of `colour` a
/// mapping of well-formed colour entries. Other keys are ignored.
pub open spec fn field_ok(entry: (Node, Node)) -> bool {
    match entry.0 {
        Node::Str(k) => if k@ == "id"@ || k@ == "path"@ || k@ == "keyword"@ {
            entry.1 is Str
        } else if k@ == "colour"@ {
            match entry.1 {
                Node::Hash(c) => colour_ok(c@),
                _ => false,
            }
        } else {
            true
        },
        _ => false,
    }
}

/// The repository that the fields describe, read in order from a blank one.
pub open spec fn repo_after(fields: Seq<(Node, Node)>) -> RepoView
    decreases fields.len(),
{
    if fields.len() == 0 {
        blank_repo()
    } else {
        let prev = repo_after(fields.drop_last());
        match (fields.last().0, fields.last().1) {
            (Node::Str(k), Node::Str(v)) => if k@ == "id"@ {
                RepoView { id: v@, ..prev }
            } else if k@ == "path"@ {
                RepoView { path: v@, ..prev }
            } else if k@ == "keyword"@ {
                RepoView { keyword: v@, ..prev }
            } else {
                prev
            },
            (Node::Str(k), Node::Hash(c)) => if k@ == "colour"@ {
                let (r, g, b): (u8, u8, u8) = rgb_after(c@);
                RepoView { colour: Colour::Rgb(r, g, b), ..prev }
            } else {
                prev
            },
            _ => prev,
        }
    }
}

/// A repository entry is a mapping of well-formed fields.
pub open spec fn entry_ok(v: Node) -> bool {
    match v {
        Node::Hash(f) => fields_ok(f@),
        _ => false,
    }
}

pub open spec fn fields_ok(fields: Seq<(Node, Node)>) -> bool {
    forall|j: int| 0 <= j < fields.len() ==> field_ok(#[trigger] fields[j])
}

pub open spec fn entry_repo(v: Node) -> RepoView {
    match v {
        Node::Hash(f) => repo_after(f@),
        _ => blank_repo(),
    }
}

/// An item of the `repos` list is a mapping whose values are repository entries.
pub open spec fn group_ok(item: Node) -> bool {
    match item {
        Node::Hash(data) => entries_ok(data@),
        _ => false,
    }
}

pub open spec fn entries_ok(data: Seq<(Node, Node)>) -> bool {
    forall|j: int| 0 <= j < data.len() ==> entry_ok(#[trigger] data[j].1)
}

/// The repositories of one item of the `repos` list, one for each value.
pub open spec fn group_repos(item: Node) -> Seq<RepoView> {
    match item {
        Node::Hash(data) => data@.map_values(|e: (Node, Node)| entry_repo(e.1)),
        _ => Seq::empty(),
    }
}

/// The repositories of the `repos` list, item after item.
pub open spec fn list_repos(items: Seq<Node>) -> Seq<RepoView>
    decreases items.len(),
{
    if items.len() == 0 {
        Seq::empty()
    } else {
        list_repos(items.drop_last()) + group_repos(items.last())
    }
}

/// The documents are laid out as settings: the first one maps `repos` to a
/// list of well-formed items.
pub open spec fn valid_settings(docs: Seq<Node>) -> bool {
    &&& repo_list(docs) is Some
    &&& forall|i: int| 0 <= i < repo_list(docs)->0.len() ==> group_ok(#[trigger] repo_list(docs)->0[i])
}

/// The repositories that valid settings describe.
pub open spec fn settings_repos(docs: Seq<Node>) -> Seq<RepoView> {
    list_repos(repo_list(docs)->0)
}

/// Whether `n` is the string `lit`.
fn key_is(n: &Node, lit: &str) -> (b: bool)
    ensures
        b == is_str(*n, lit@),
{
    match n {
        Node::Str(s) => *s == lit.to_owned(),
        _ => false,
    }
}

/// The value of the first entry whose key is the string `key`.
fn lookup<'a>(entries: &'a Vec<(Node, Node)>, key: &str) -> (res: Option<&'a Node>)
    ensures
        res is None <==> hash_lookup(entries@, key@) is None,
        res matches Some(n) ==> hash_lookup(entries@, key@) == Some(*n),
{
    let mut i: usize = 0;
    assert(entries@.skip(0) =~= entries@);
    while i < entries.len()
        invariant
            i <= entries@.len(),
            hash_lookup(entries@, key@) == hash_lookup(entries@.skip(i as int), key@),
        decreases entries@.len() - i,
    {
        assert(entries@.skip(i as int).drop_first() =~= entries@.skip(i + 1));
        if key_is(&entries[i].0, key) {
            return Some(&entries[i].1);
        }
        i += 1;
    }
    assert(entries@.skip(i as int).len() == 0);
    None
}

/// Reads a colour mapping: `None` where an entry is malformed.
fn parse_colour(cols: &Vec<(Node, Node)>) -> (res: Option<(u8, u8, u8)>)
    ensures
        res is Some <==> colour_ok(cols@),
        res matches Some(c) ==> c == rgb_after(cols@),
{
    let mut r: u8 = 0;
    let mut g: u8 = 0;
    let mut b: u8 = 0;
    let mut i: usize = 0;
    while i < cols.len()
        invariant
            i <= cols@.len(),
            (r, g, b) == rgb_after(cols@.take(i as int)),
            forall|j: int| 0 <= j < i ==> colour_entry_ok(#[trigger] cols@[j]),
        decreases cols@.len() - i,
    {
        assert(cols@.take(i + 1).drop_last() =~= cols@.take(i as int));
        let entry = &cols[i];
        if !matches!(entry.0, Node::Str(_)) {
            assert(!colour_entry_ok(cols@[i as int]));
            return None;
        }
        let is_r = key_is(&entry.0, "r");
        let is_g = key_is(&entry.0, "g");
        let is_b = key_is(&entry.0, "b");
        if is_r || is_g || is_b {
            match &entry.1 {
                Node::Integer(v) => {
                    if is_r {
                        r = *v as u8;
                    } else if is_g {
                        g = *v as u8;
                    } else {
                        b = *v as u8;
                    }
                },
                _ => {
                    assert(!colour_entry_ok(cols@[i as int]));
                    return None;
                },
            }
        }
        i += 1;
    }
    assert(cols@.take(i as int) =~= cols@);
    Some((r, g, b))
}

/// Reads the fields of a repository entry: `None` where a field is malformed.
fn parse_repo(fields: &Vec<(Node, Node)>) -> (res: Option<Repo>)
    ensures
        res is Some <==> fields_ok(fields@),
        res matches Some(repo) ==> repo@ == repo_after(fields@),
{
    let mut repo = Repo::new();
    let mut i: usize = 0;
    while i < fields.len()
        invariant
            i <= fields@.len(),
            repo@ == repo_after(fields@.take(i as int)),
            forall|j: int| 0 <= j < i ==> field_ok(#[trigger] fields@[j]),
        decreases fields@.len() - i,
    {
        assert(fields@.take(i + 1).drop_last() =~= fields@.take(i as int));
        let entry = &fields[i];
        if !matches!(entry.0, Node::Str(_)) {
            assert(!field_ok(fields@[i as int]));
            return None;
        }
        let is_id = key_is(&entry.0, "id");
        let is_path = key_is(&entry.0, "path");
        let is_keyword = key_is(&entry.0, "keyword");
        if is_id || is_path || is_keyword {
            match &entry.1 {
                Node::Str(v) => {
                    if is_id {
                        repo.id = v.clone();
                    } else if is_path {
                        repo.path = v.clone();
                    } else {
                        repo.keyword = v.clone();
                    }
                },
                _ => {
                    assert(!field_ok(fields@[i as int]));
                    return None;
                },
            }
        } else if key_is(&entry.0, "colour") {
            match &entry.1 {
                Node::Hash(c) => match parse_colour(c) {
                    Some((r, g, b)) => {
                        repo.colour = Colour::Rgb(r, g, b);
                    },
                    None => {
                        assert(!field_ok(fields@[i as int]));
                        return None;
                    },
                },
                _ => {
                    assert(!field_ok(fields@[i as int]));
                    return None;
                },
            }
        }
        i += 1;
    }
    assert(fields@.take(i as int) =~= fields@);
    Some(repo)
}

/// The repositories that the settings documents describe, in the order in
/// which they stand; `None` where the documents are not laid out as settings.
pub fn repos_from_documents(docs: &Vec<Node>) -> (res: Option<Vec<Repo>>)
    ensures
        res is Some <==> valid_settings(docs@),
        res matches Some(repos) ==> repos_view(repos@) == settings_repos(docs@),
{
    if docs.len() == 0 {
        return None;
    }
    let items = match &docs[0] {
        Node::Hash(h) => match lookup(h, "repos") {
            Some(Node::Array(items)) => items,
            _ => return None,
        },
        _ => return None,
    };
    assert(repo_list(docs@) == Some(items@));
    let mut out: Vec<Repo> = Vec::new();
    let mut i: usize = 0;
    while i < items.len()
        invariant
            i <= items@.len(),
            repo_list(docs@) == Some(items@),
            repos_view(out@) == list_repos(items@.take(i as int)),
            forall|k: int| 0 <= k < i ==> group_ok(#[trigger] items@[k]),
        decreases items@.len() - i,
    {
        assert(items@.take(i + 1).drop_last() =~= items@.take(i as int));
        match &items[i] {
            Node::Hash(data) => {
                let mut j: usize = 0;
                while j < data.len()
                    invariant
                        i < items@.len(),
                        repo_list(docs@) == Some(items@),
                        items@[i as int] == Node::Hash(*data),
                        j <= data@.len(),
                        repos_view(out@) == list_repos(items@.take(i as int)) + data@.take(
                            j as int,
                        ).map_values(|e: (Node, Node)| entry_repo(e.1)),
                        forall|k: int| 0 <= k < j ==> entry_ok(#[trigger] data@[k].1),
                    decreases data@.len() - j,
                {
                    assert(data@.take(j + 1).drop_last() =~= data@.take(j as int));
                    match &data[j].1 {
                        Node::Hash(f) => match parse_repo(f) {
                            Some(repo) => {
                                let ghost before = out@;
                                out.push(repo);
                                assert(repos_view(out@) =~= repos_view(before).push(repo@));
                                assert(data@.take(j + 1).map_values(
                                    |e: (Node, Node)| entry_repo(e.1),
                                ) =~= data@.take(j as int).map_values(
                                    |e: (Node, Node)| entry_repo(e.1),
                                ).push(entry_repo(data@[j as int].1)));
                            },
                            None => {
                                assert(data@[j as int].1 == Node::Hash(*f));
                                assert(!entry_ok(data@[j as int].1));
                                assert(!group_ok(items@[i as int]));
                                assert(!group_ok(repo_list(docs@)->0[i as int]));
                                return None;
                            },
                        },
                        _ => {
                            assert(!entry_ok(data@[j as int].1));
                            assert(!group_ok(items@[i as int]));
                            assert(!group_ok(repo_list(docs@)->0[i as int]));
                            return None;
                        },
                    }
                    j += 1;
                }
                assert(data@.take(j as int) =~= data@);
            },
            _ => {
                assert(!group_ok(items@[i as int]));
                assert(!group_ok(repo_list(docs@)->0[i as int]));
                return None;
            },
        }
        i += 1;
    }
    assert(items@.take(i as int) =~= items@);
    Some(out)
}

/// Reads the settings text: the repositories it lists, or why it lists none.
pub fn load_settings(text: &str) -> (res: Result<Vec<Repo>, SettingsError>)
    ensures
        res matches Err(SettingsError::Syntax(_)) <==> yaml_documents(text@) is None,
        res matches Err(SettingsError::Malformed) <==> (yaml_documents(text@) matches Some(
            docs,
        ) && !valid_settings(docs)),
        res matches Ok(repos) ==> yaml_documents(text@) matches Some(docs) && valid_settings(docs)
            && repos_view(repos@) == settings_repos(docs),
{
    match load_documents(text) {
        Err(e) => Err(SettingsError::Syntax(e)),
        Ok(docs) => match repos_from_documents(&docs) {
            Some(repos) => Ok(repos),
            None => Err(SettingsError::Malformed),
        },
    }
}

/// The part of a colour that the key `name` sets: 0 for `r`, 1 for `g`,
/// 2 for `b`.
pub open spec fn rgb_part(rgb: (u8, u8, u8), name: Seq<char>) -> u8 {
    if name == "r"@ {
        rgb.0
    } else if name == "g"@ {
        rgb.1
    } else {
        rgb.2
    }
}

/// In a well-formed colour mapping, each of red, green and blue is the low
/// byte of the integer under the last `r`, `g` or `b` key, wherever the
/// other keys stand, and 0 where the key is missing.
pub proof fn law_last_colour_key_wins(cols: Seq<(Node, Node)>, name: Seq<char>)
    requires
        colour_ok(cols),
        name == "r"@ || name == "g"@ || name == "b"@,
    ensures
        forall|j: int|
            0 <= j < cols.len() && is_str(#[trigger] cols[j].0, name) && (forall|k: int|
                j < k < cols.len() ==> !is_str(#[trigger] cols[k].0, name)) ==> (cols[j].1 matches Node::Integer(
                v,
            ) && rgb_part(rgb_after(cols), name) == v as u8),
        (forall|k: int| 0 <= k < cols.len() ==> !is_str(#[trigger] cols[k].0, name)) ==> rgb_part(
            rgb_after(cols),
            name,
        ) == 0,
    decreases cols.len(),
{
    reveal_strlit("r");
    reveal_strlit("g");
    reveal_strlit("b");
    if cols.len() > 0 {
        let rest = cols.drop_last();
        assert(colour_ok(rest)) by {
            assert forall|i: int| 0 <= i < rest.len() implies colour_entry_ok(#[trigger] rest[i]) by {
                assert(rest[i] == cols[i]);
            }
        }
        law_last_colour_key_wins(rest, name);
        assert(colour_entry_ok(cols[cols.len() - 1]));
        assert forall|j: int|
            0 <= j < cols.len() && is_str(#[trigger] cols[j].0, name) && (forall|k: int|
                j < k < cols.len() ==> !is_str(#[trigger] cols[k].0, name)) implies (
        cols[j].1 matches Node::Integer(v) && rgb_part(rgb_after(cols), name) == v as u8) by {
            assert(colour_entry_ok(cols[j]));
            if j < cols.len() - 1 {
                assert(!is_str(cols[cols.len() - 1].0, name));
                assert(rest[j] == cols[j]);
                assert forall|k: int| j < k < rest.len() implies !is_str(#[trigger] rest[k].0, name) by {
                    assert(rest[k] == cols[k]);
                    assert(!is_str(cols[k].0, name));
                }
            }
        }
        if forall|k: int| 0 <= k < cols.len() ==> !is_str(#[trigger] cols[k].0, name) {
            assert forall|k: int| 0 <= k < rest.len() implies !is_str(#[trigger] rest[k].0, name) by {
                assert(rest[k] == cols[k]);
                assert(!is_str(cols[k].0, name));
            }
            assert(!is_str(cols[cols.len() - 1].0, name));
        }
    }
}

/// The text of a string value.
pub open spec fn str_text(n: Node) -> Seq<char> {
    match n {
        Node::Str(s) => s@,
        _ => Seq::empty(),
    }
}

/// In a well-formed repository entry each of `id`, `path` and `keyword` is
/// the text of the last field with that key and the colour is that of the
/// last `colour` mapping, wherever the other fields stand; a missing `id`,
/// `path` or `keyword` leaves that part empty.
pub proof fn law_last_field_wins(fields: Seq<(Node, Node)>, name: Seq<char>)
    requires
        fields_ok(fields),
        name == "id"@ || name == "path"@ || name == "keyword"@ || name == "colour"@,
    ensures
        forall|j: int|
            0 <= j < fields.len() && is_str(#[trigger] fields[j].0, name) && (forall|k: int|
                j < k < fields.len() ==> !is_str(#[trigger] fields[k].0, name)) ==> {
                &&& name == "id"@ ==> fields[j].1 is Str && repo_after(fields).id == str_text(
                    fields[j].1,
                )
                &&& name == "path"@ ==> fields[j].1 is Str && repo_after(fields).path == str_text(
                    fields[j].1,
                )
                &&& name == "keyword"@ ==> fields[j].1 is Str && repo_after(fields).keyword
                    == str_text(fields[j].1)
                &&& name == "colour"@ ==> (fields[j].1 matches Node::Hash(c) && repo_after(
                    fields,
                ).colour == Colour::Rgb(rgb_after(c@).0, rgb_after(c@).1, rgb_after(c@).2))
            },
        (forall|k: int| 0 <= k < fields.len() ==> !is_str(#[trigger] fields[k].0, name)) ==> {
            &&& name == "id"@ ==> repo_after(fields).id.len() == 0
            &&& name == "path"@ ==> repo_after(fields).path.len() == 0
            &&& name == "keyword"@ ==> repo_after(fields).keyword.len() == 0
            &&& name == "colour"@ ==> repo_after(fields).colour == Colour::White
        },
    decreases fields.len(),
{
    reveal_strlit("id");
    reveal_strlit("path");
    reveal_strlit("keyword");
    reveal_strlit("colour");
    assert("id"@ != "path"@ && "id"@ != "keyword"@ && "id"@ != "colour"@ && "path"@ != "keyword"@
        && "path"@ != "colour"@ && "keyword"@ != "colour"@) by {
        assert("id"@.len() == 2 && "path"@.len() == 4 && "keyword"@.len() == 7);
        assert("colour"@.len() == 6 && "path"@[0] != "colour"@[0]);
    }
    if fields.len() > 0 {
        let rest = fields.drop_last();
        let last = fields[fields.len() - 1];
        assert(fields_ok(rest)) by {
            assert forall|i: int| 0 <= i < rest.len() implies field_ok(#[trigger] rest[i]) by {
                assert(rest[i] == fields[i]);
            }
        }
        law_last_field_wins(rest, name);
        assert(field_ok(last));
        assert forall|j: int|
            0 <= j < fields.len() && is_str(#[trigger] fields[j].0, name) && (forall|k: int|
                j < k < fields.len() ==> !is_str(#[trigger] fields[k].0, name)) implies {
            &&& name == "id"@ ==> fields[j].1 is Str && repo_after(fields).id == str_text(
                fields[j].1,
            )
            &&& name == "path"@ ==> fields[j].1 is Str && repo_after(fields).path == str_text(
                fields[j].1,
            )
            &&& name == "keyword"@ ==> fields[j].1 is Str && repo_after(fields).keyword == str_text(
                fields[j].1,
            )
            &&& name == "colour"@ ==> (fields[j].1 matches Node::Hash(c) && repo_after(
                fields,
            ).colour == Colour::Rgb(rgb_after(c@).0, rgb_after(c@).1, rgb_after(c@).2))
        } by {
            assert(field_ok(fields[j]));
            if j < fields.len() - 1 {
                assert(!is_str(last.0, name));
                assert(rest[j] == fields[j]);
                assert forall|k: int| j < k < rest.len() implies !is_str(#[trigger] rest[k].0, name) by {
                    assert(rest[k] == fields[k]);
                    assert(!is_str(fields[k].0, name));
                }
            }
        }
        if forall|k: int| 0 <= k < fields.len() ==> !is_str(#[trigger] fields[k].0, name) {
            assert forall|k: int| 0 <= k < rest.len() implies !is_str(#[trigger] rest[k].0, name) by {
                assert(rest[k] == fields[k]);
                assert(!is_str(fields[k].0, name));
            }
            assert(!is_str(last.0, name));
        }
    }
}

/// A repository entry without a `colour` field is listed in white.
pub proof fn law_white_without_colour(fields: Seq<(Node, Node)>)
    requires
        forall|j: int| 0 <= j < fields.len() ==> !is_str(#[trigger] fields[j].0, "colour"@),
    ensures
        repo_after(fields).colour == Colour::White,
    decreases fields.len(),
{
    if fields.len() > 0 {
        assert forall|j: int| 0 <= j < fields.drop_last().len() implies !is_str(
            #[trigger] fields.drop_last()[j].0,
            "colour"@,
        ) by {
            assert(fields.drop_last()[j] == fields[j]);
        }
        law_white_without_colour(fields.drop_last());
        assert(!is_str(fields[fields.len() - 1].0, "colour"@));
    }
}

/// A string key that means nothing in a colour mapping.
pub open spec fn is_extra_colour_key(key: Node) -> bool {
    &&& key is Str
    &&& !is_str(key, "r"@)
    &&& !is_str(key, "g"@)
    &&& !is_str(key, "b"@)
}

/// A string key that means nothing in a repository entry.
pub open spec fn is_extra_field_key(key: Node) -> bool {
    &&& key is Str
    &&& !is_str(key, "id"@)
    &&& !is_str(key, "path"@)
    &&& !is_str(key, "keyword"@)
    &&& !is_str(key, "colour"@)
}

/// An extra string key, with any value, anywhere in a colour mapping changes
/// neither whether the mapping is well formed nor the colour it gives.
pub proof fn law_extra_colour_key(cols: Seq<(Node, Node)>, k: int, key: Node, value: Node)
    requires
        0 <= k <= cols.len(),
        is_extra_colour_key(key),
    ensures
        colour_ok(cols.insert(k, (key, value))) == colour_ok(cols),
        rgb_after(cols.insert(k, (key, value))) == rgb_after(cols),
    decreases cols.len(),
{
    let e = (key, value);
    let more = cols.insert(k, e);
    cols.insert_ensures(k, e);
    assert(colour_entry_ok(e));
    if colour_ok(cols) {
        assert forall|i: int| 0 <= i < more.len() implies colour_entry_ok(#[trigger] more[i]) by {
            if i > k {
                assert(more[(i - 1) + 1] == cols[i - 1]);
            }
        }
    }
    if colour_ok(more) {
        assert forall|i: int| 0 <= i < cols.len() implies colour_entry_ok(#[trigger] cols[i]) by {
            if i >= k {
                assert(more[i + 1] == cols[i]);
            } else {
                assert(more[i] == cols[i]);
            }
        }
    }
    if k == cols.len() {
        assert(more.drop_last() =~= cols);
    } else {
        law_extra_colour_key(cols.drop_last(), k, key, value);
        assert(more.drop_last() =~= cols.drop_last().insert(k, e));
        assert(more.last() == cols.last());
    }
}

/// An extra string key, with any value, anywhere in a repository entry
/// changes neither whether the entry is well formed nor the repository it
/// describes.
pub proof fn law_extra_field_key(fields: Seq<(Node, Node)>, k: int, key: Node, value: Node)
    requires
        0 <= k <= fields.len(),
        is_extra_field_key(key),
    ensures
        fields_ok(fields.insert(k, (key, value))) == fields_ok(fields),
        repo_after(fields.insert(k, (key, value))) == repo_after(fields),
    decreases fields.len(),
{
    let e = (key, value);
    let more = fields.insert(k, e);
    fields.insert_ensures(k, e);
    assert(field_ok(e));
    if fields_ok(fields) {
        assert forall|i: int| 0 <= i < more.len() implies field_ok(#[trigger] more[i]) by {
            if i > k {
                assert(more[(i - 1) + 1] == fields[i - 1]);
            }
        }
    }
    if fields_ok(more) {
        assert forall|i: int| 0 <= i < fields.len() implies field_ok(#[trigger] fields[i]) by {
            if i >= k {
                assert(more[i + 1] == fields[i]);
            } else {
                assert(more[i] == fields[i]);
            }
        }
    }
    if k == fields.len() {
        assert(more.drop_last() =~= fields);
    } else {
        law_extra_field_key(fields.drop_last(), k, key, value);
        assert(more.drop_last() =~= fields.drop_last().insert(k, e));
        assert(more.last() == fields.last());
    }
}

/// Putting in place of a field's colour mapping another one that is as well
/// formed and gives the same colour (for instance the same mapping with an
/// extra key, by `law_extra_colour_key`) changes neither whether the entry is
/// well formed nor the repository it describes.
pub proof fn law_equivalent_colour_mapping(
    fields: Seq<(Node, Node)>,
    k: int,
    old_colour: Vec<(Node, Node)>,
    new_colour: Vec<(Node, Node)>,
)
    requires
        0 <= k < fields.len(),
        fields[k].1 == Node::Hash(old_colour),
        colour_ok(new_colour@) == colour_ok(old_colour@),
        rgb_after(new_colour@) == rgb_after(old_colour@),
    ensures
        fields_ok(fields.update(k, (fields[k].0, Node::Hash(new_colour)))) == fields_ok(fields),
        repo_after(fields.update(k, (fields[k].0, Node::Hash(new_colour)))) == repo_after(fields),
    decreases fields.len(),
{
    let e = (fields[k].0, Node::Hash(new_colour));
    let other = fields.update(k, e);
    assert(field_ok(e) == field_ok(fields[k]));
    if fields_ok(fields) {
        assert forall|i: int| 0 <= i < other.len() implies field_ok(#[trigger] other[i]) by {
            if i != k {
                assert(other[i] == fields[i]);
            }
        }
    }
    if fields_ok(other) {
        assert forall|i: int| 0 <= i < fields.len() implies field_ok(#[trigger] fields[i]) by {
            assert(field_ok(other[i]));
        }
    }
    if k == fields.len() - 1 {
        assert(other.drop_last() =~= fields.drop_last());
    } else {
        law_equivalent_colour_mapping(fields.drop_last(), k, old_colour, new_colour);
        assert(other.drop_last() =~= fields.drop_last().update(k, e));
        assert(other.last() == fields.last());
    }
}

/// Putting in place of one value of a `repos` item another that is as well
/// formed and describes the same repository (for instance the same entry with
/// extra keys, by `law_extra_field_key`) changes neither whether the item is
/// well formed nor its repositories.
pub proof fn law_equivalent_entry(old_item: Vec<(Node, Node)>, new_item: Vec<(Node, Node)>, j: int, value: Node)
    requires
        0 <= j < old_item@.len(),
        new_item@ == old_item@.update(j, (old_item@[j].0, value)),
        entry_ok(value) == entry_ok(old_item@[j].1),
        entry_repo(value) == entry_repo(old_item@[j].1),
    ensures
        group_ok(Node::Hash(new_item)) == group_ok(Node::Hash(old_item)),
        group_repos(Node::Hash(new_item)) == group_repos(Node::Hash(old_item)),
{
    if entries_ok(old_item@) {
        assert forall|i: int| 0 <= i < new_item@.len() implies entry_ok(#[trigger] new_item@[i].1) by {
            if i != j {
                assert(new_item@[i] == old_item@[i]);
            }
        }
    }
    if entries_ok(new_item@) {
        assert forall|i: int| 0 <= i < old_item@.len() implies entry_ok(#[trigger] old_item@[i].1) by {
            assert(entry_ok(new_item@[i].1));
        }
    }
    assert(group_repos(Node::Hash(new_item)) =~= group_repos(Node::Hash(old_item)));
}

proof fn lemma_list_update(items: Seq<Node>, i: int, item: Node)
    requires
        0 <= i < items.len(),
        group_repos(item) == group_repos(items[i]),
    ensures
        list_repos(items.update(i, item)) == list_repos(items),
    decreases items.len(),
{
    if i == items.len() - 1 {
        assert(items.update(i, item).drop_last() =~= items.drop_last());
    } else {
        lemma_list_update(items.drop_last(), i, item);
        assert(items.update(i, item).drop_last() =~= items.drop_last().update(i, item));
    }
}

/// Putting in place of one item of the `repos` list another that is as well
/// formed and gives the same repositories (for instance by
/// `law_equivalent_entry`) changes neither whether the settings are valid
/// nor the repositories they list.
pub proof fn law_equivalent_item(docs: Seq<Node>, new_docs: Seq<Node>, i: int, item: Node)
    requires
        repo_list(docs) is Some,
        0 <= i < repo_list(docs)->0.len(),
        repo_list(new_docs) == Some(repo_list(docs)->0.update(i, item)),
        group_ok(item) == group_ok(repo_list(docs)->0[i]),
        group_repos(item) == group_repos(repo_list(docs)->0[i]),
    ensures
        valid_settings(new_docs) == valid_settings(docs),
        settings_repos(new_docs) == settings_repos(docs),
{
    let items = repo_list(docs)->0;
    let new_items = items.update(i, item);
    if valid_settings(docs) {
        assert forall|k: int| 0 <= k < new_items.len() implies group_ok(#[trigger] new_items[k]) by {
            if k != i {
                assert(new_items[k] == items[k]);
            }
        }
    }
    if valid_settings(new_docs) {
        assert forall|k: int| 0 <= k < items.len() implies group_ok(#[trigger] items[k]) by {
            assert(group_ok(repo_list(new_docs)->0[k]));
            assert(group_ok(new_items[k]));
        }
    }
    lemma_list_update(items, i, item);
}

proof fn lemma_lookup_extra_key(entries: Seq<(Node, Node)>, k: int, key: Node, value: Node, wanted: Seq<char>)
    requires
        0 <= k <= entries.len(),
        !is_str(key, wanted),
    ensures
        hash_lookup(entries.insert(k, (key, value)), wanted) == hash_lookup(entries, wanted),
    decreases entries.len(),
{
    let more = entries.insert(k, (key, value));
    entries.insert_ensures(k, (key, value));
    if k == 0 {
        assert(more.drop_first() =~= entries);
    } else {
        lemma_lookup_extra_key(entries.drop_first(), k - 1, key, value, wanted);
        assert(more.drop_first() =~= entries.drop_first().insert(k - 1, (key, value)));
    }
}

/// An extra key, other than `repos`, with any value, anywhere in the first
/// document changes neither whether the settings are valid nor the
/// repositories they list.
pub proof fn law_extra_top_level_key(
    docs: Seq<Node>,
    new_docs: Seq<Node>,
    top: Vec<(Node, Node)>,
    new_top: Vec<(Node, Node)>,
    k: int,
    key: Node,
    value: Node,
)
    requires
        docs.len() > 0,
        docs[0] == Node::Hash(top),
        new_docs.len() > 0,
        new_docs[0] == Node::Hash(new_top),
        0 <= k <= top@.len(),
        new_top@ == top@.insert(k, (key, value)),
        !is_str(key, "repos"@),
    ensures
        repo_list(new_docs) == repo_list(docs),
        valid_settings(new_docs) == valid_settings(docs),
        settings_repos(new_docs) == settings_repos(docs),
{
    lemma_lookup_extra_key(top@, k, key, value, "repos"@);
}

impl Repo {
    /// Adds the repositories that the settings text lists to those of the
    /// app, after them; where the text is not YAML, or not laid out as
    /// settings, the app is left as it is and the error says which.
    pub fn read_from_settings(app: &mut App, settings: &str) -> (res: Result<(), SettingsError>)
        ensures
            res matches Err(SettingsError::Syntax(_)) <==> yaml_documents(settings@) is None,
            res matches Err(SettingsError::Malformed) <==> (yaml_documents(settings@) matches Some(
                docs,
            ) && !valid_settings(docs)),
            res is Ok ==> final(app)@ == (AppView {
                repos: old(app)@.repos + settings_repos(yaml_documents(settings@)->0),
                ..old(app)@
            }),
            res is Err ==> final(app)@ == old(app)@,
    {
        match load_settings(settings) {
            Ok(mut repos) => {
                let ghost before = app.repos@;
                let ghost added = repos@;
                app.repos.append(&mut repos);
                assert(repos_view(app.repos@) =~= repos_view(before) + repos_view(added));
                assert(app@ =~= (AppView {
                    repos: old(app)@.repos + settings_repos(yaml_documents(settings@)->0),
                    ..old(app)@
                }));
                Ok(())
            },
            Err(e) => Err(e),
        }
    }
}

} // verus!
