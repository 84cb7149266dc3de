//! Rust repositories: `[package]` and dependency tables of `Cargo.toml`,
//! read and edited through `toml_edit` (formatting and comments preserved).
use vstd::prelude::*;
use vstd::string::*;

use crate::config::{joined, join_path};
use crate::error::Error;
use crate::git::opt_view;
use crate::text::views_of;

verus! {

/// The top-level items of the TOML document `text`, each key with its item
/// as TOML text, in document order; `None` when `text` does not parse as a
/// `toml_edit::DocumentMut`.
pub uninterp spec fn toml_items(text: Seq<char>) -> Option<Seq<(Seq<char>, Seq<char>)>>;

/// Whether `text` parses as a TOML document.
pub open spec fn toml_parses(text: Seq<char>) -> bool {
    toml_items(text) is Some
}

/// The string value of `[package].<key>` in the TOML document `text`, if
/// there is one and it is a string.
pub uninterp spec fn toml_package_field(text: Seq<char>, key: Seq<char>) -> Option<Seq<char>>;

/// The items of `[package]` (each key with its value as TOML text, in
/// order), when the document has a table-like `package`.
pub uninterp spec fn toml_package_items(text: Seq<char>) -> Option<Seq<(Seq<char>, Seq<char>)>>;

/// The TOML document `text` with `[package].version` set to the string `version`.
pub uninterp spec fn toml_with_package_version(text: Seq<char>, version: Seq<char>) -> Seq<char>;

/// The keys of the table `table` of the TOML document `text`, in document
/// order, when it exists and is table-like.
pub uninterp spec fn toml_dependency_keys(text: Seq<char>, table: Seq<char>) -> Option<Seq<Seq<char>>>;

/// The entry `key` of the table `table`: its `package` rename, its value if
/// it is a string, whether it is table-like, and its `version` if that is a
/// string.
pub uninterp spec fn toml_dependency(text: Seq<char>, table: Seq<char>, key: Seq<char>) -> (
    Option<Seq<char>>,
    Option<Seq<char>>,
    bool,
    Option<Seq<char>>,
);

/// The items of the table-like entry `key` of `table` (its keys with their
/// values as TOML text, in order); empty for an entry of another shape.
pub uninterp spec fn toml_entry_items(text: Seq<char>, table: Seq<char>, key: Seq<char>) -> Seq<(Seq<char>, Seq<char>)>;

/// The document with the entry `key` of `table` replaced by the string `version`.
pub uninterp spec fn toml_with_dependency_string(
    text: Seq<char>,
    table: Seq<char>,
    key: Seq<char>,
    version: Seq<char>,
) -> Seq<char>;

/// The document with `version = "<version>"` set in the table-like entry `key` of `table`.
pub uninterp spec fn toml_with_dependency_version(
    text: Seq<char>,
    table: Seq<char>,
    key: Seq<char>,
    version: Seq<char>,
) -> Seq<char>;

/// Pairs of strings by their characters.
pub open spec fn pairs_view(v: Seq<(String, String)>) -> Seq<(Seq<char>, Seq<char>)> {
    v.map_values(|p: (String, String)| (p.0@, p.1@))
}

/// The item of the first pair with key `key`.
pub open spec fn item_of(items: Seq<(Seq<char>, Seq<char>)>, key: Seq<char>) -> Option<Seq<char>>
    decreases items.len(),
{
    if items.len() == 0 {
        None
    } else if items[0].0 == key {
        Some(items[0].1)
    } else {
        item_of(items.drop_first(), key)
    }
}

/// The top-level item `key` of the TOML document `text` as TOML text, if
/// the document parses and has one.
pub open spec fn top_item(text: Seq<char>, key: Seq<char>) -> Option<Seq<char>> {
    match toml_items(text) {
        Some(items) => item_of(items, key),
        None => None,
    }
}

/// The item `[package].<key>` as TOML text, if there is one.
pub open spec fn package_item(text: Seq<char>, key: Seq<char>) -> Option<Seq<char>> {
    match toml_package_items(text) {
        Some(items) => item_of(items, key),
        None => None,
    }
}

/// Whether `[package].<key>` exists (of any type) in the TOML document `text`.
pub open spec fn toml_package_has(text: Seq<char>, key: Seq<char>) -> bool {
    package_item(text, key) is Some
}

/// `item_of` finds a key exactly when some pair has it.
proof fn lemma_item_of(items: Seq<(Seq<char>, Seq<char>)>, key: Seq<char>)
    ensures
        (item_of(items, key) is Some) <==> exists|j: int| 0 <= j < items.len() && #[trigger] items[j].0 == key,
    decreases items.len(),
{
    if items.len() > 0 {
        lemma_item_of(items.drop_first(), key);
        if item_of(items.drop_first(), key) is Some {
            let j = choose|j: int| 0 <= j < items.drop_first().len() && #[trigger] items.drop_first()[j].0 == key;
            assert(items[j + 1].0 == key);
        }
        if exists|j: int| 0 <= j < items.len() && #[trigger] items[j].0 == key {
            let j = choose|j: int| 0 <= j < items.len() && #[trigger] items[j].0 == key;
            if j > 0 {
                assert(items.drop_first()[j - 1].0 == key);
            }
        }
    }
}

/// Whether one of `items` has the key `key`.
fn has_key(items: &Vec<(String, String)>, key: &str) -> (r: bool)
    ensures
        r == (item_of(pairs_view(items@), key@) is Some),
{
    proof { lemma_item_of(pairs_view(items@), key@); }
    let target = String::from_str(key);
    let mut i: usize = 0;
    while i < items.len()
        invariant
            i <= items@.len(),
            target@ == key@,
            forall|j: int| 0 <= j < i ==> (#[trigger] pairs_view(items@)[j]).0 != key@,
        decreases items@.len() - i,
    {
        if items[i].0 == target {
            assert(pairs_view(items@)[i as int].0 == key@);
            proof { lemma_item_of(pairs_view(items@), key@); }
            return true;
        }
        i += 1;
    }
    false
}

/// The items of an entry other than its `version`.
pub open spec fn other_items(items: Seq<(Seq<char>, Seq<char>)>) -> Seq<(Seq<char>, Seq<char>)> {
    items.filter(|p: (Seq<char>, Seq<char>)| p.0 != "version"@)
}

/// Whether `t` is one of the three dependency tables.
pub open spec fn dependency_table(t: Seq<char>) -> bool {
    t == "dependencies"@ || t == "dev-dependencies"@ || t == "build-dependencies"@
}

/// `str::parse::<toml_edit::DocumentMut>`, then `Table::iter` over the
/// document and `Item`'s `Display`: the top-level items, when the text
/// parses.
#[verifier::external_body]
fn document_items(text: &str) -> (r: Option<Vec<(String, String)>>)
    ensures
        match r {
            Some(v) => toml_items(text@) == Some(pairs_view(v@)),
            None => toml_items(text@) is None,
        },
{
    text.parse::<toml_edit::DocumentMut>().ok().map(|d| d.iter().map(|(k, v)| (k.to_string(), v.to_string())).collect())
}

/// `DocumentMut::get("package")`, `Item::get(key)`, `Item::as_str`: the
/// string at `[package].<key>`.
#[verifier::external_body]
fn package_field(text: &str, key: &str) -> (r: Option<String>)
    requires
        toml_parses(text@),
    ensures
        opt_view(r) == toml_package_field(text@, key@),
{
    let doc = text.parse::<toml_edit::DocumentMut>().unwrap();
    doc.get("package").and_then(|p| p.get(key)).and_then(|v| v.as_str()).map(|s| s.to_string())
}

/// `DocumentMut::get("package")`, `Item::as_table_like`, then
/// `TableLike::iter` with `Item`'s `Display`: the items of `[package]`,
/// when it is table-like.
#[verifier::external_body]
fn package_items(text: &str) -> (r: Option<Vec<(String, String)>>)
    requires
        toml_parses(text@),
    ensures
        match r {
            Some(v) => toml_package_items(text@) == Some(pairs_view(v@)),
            None => toml_package_items(text@) is None,
        },
{
    let doc = text.parse::<toml_edit::DocumentMut>().unwrap();
    doc.get("package").and_then(|p| p.as_table_like()).map(|t| t.iter().map(|(k, v)| (k.to_string(), v.to_string())).collect())
}

/// `doc["package"]["version"] = toml_edit::value(version)`, then the document
/// as text. The contract names the result and states what the source shows:
/// the result parses, its `[package].version` is `version`, the other
/// `[package]` items and every other top-level item are unchanged.
#[verifier::external_body]
fn set_package_version(text: &str, version: &str) -> (r: String)
    requires
        toml_parses(text@),
        toml_package_has(text@, "version"@),
    ensures
        r@ == toml_with_package_version(text@, version@),
        toml_parses(r@),
        toml_package_field(r@, "version"@) == Some(version@),
        forall|k: Seq<char>| k != "version"@ ==> #[trigger] toml_package_field(r@, k) == toml_package_field(text@, k),
        toml_package_has(r@, "version"@),
        forall|k: Seq<char>| k != "version"@ ==> #[trigger] package_item(r@, k) == package_item(text@, k),
        forall|k: Seq<char>| k != "package"@ ==> #[trigger] top_item(r@, k) == top_item(text@, k),
{
    let mut doc = text.parse::<toml_edit::DocumentMut>().unwrap();
    doc["package"]["version"] = toml_edit::value(version);
    doc.to_string()
}

/// `DocumentMut::get(table)`, `Item::as_table_like`, `TableLike::iter`: the
/// keys of a table, in document order (the keys of a TOML table are
/// distinct).
#[verifier::external_body]
fn dependency_keys(text: &str, table: &str) -> (r: Option<Vec<String>>)
    requires
        toml_parses(text@),
    ensures
        match r {
            Some(v) => toml_dependency_keys(text@, table@) == Some(views_of(v@)) && views_of(v@).no_duplicates(),
            None => toml_dependency_keys(text@, table@).is_none(),
        },
{
    let doc = text.parse::<toml_edit::DocumentMut>().unwrap();
    doc.get(table).and_then(|t| t.as_table_like()).map(|t| t.iter().map(|(k, _)| k.to_string()).collect())
}

/// One dependency entry, as the dependency update reads it.
#[derive(Debug)]
pub struct DepEntry {
    /// The `package = "..."` rename, if any.
    pub rename: Option<String>,
    /// The entry's value, if it is a string (`dep = "1.0.0"`).
    pub string: Option<String>,
    /// Whether the entry is a (possibly inline) table.
    pub table_like: bool,
    /// The table's `version`, if it is a string.
    pub table_version: Option<String>,
    /// The table's items, each key with its value as TOML text.
    pub items: Vec<(String, String)>,
}

impl DepEntry {
    pub open spec fn parts(&self) -> (Option<Seq<char>>, Option<Seq<char>>, bool, Option<Seq<char>>) {
        (opt_view(self.rename), opt_view(self.string), self.table_like, opt_view(self.table_version))
    }
}

/// `TableLike::get(key)` in `table`, then `Item::get("package")`,
/// `Item::as_str`, `Item::as_table_like` and `TableLike::get("version")`
/// on the entry. The contract names the result and states what the source
/// shows: a string value has no `package` key. The items are left empty
/// here (see `entry_items`).
#[verifier::external_body]
fn entry_parts(text: &str, table: &str, key: &str) -> (r: DepEntry)
    requires
        toml_parses(text@),
    ensures
        r.parts() == toml_dependency(text@, table@, key@),
        r.string is Some ==> r.rename is None,
{
    let doc = text.parse::<toml_edit::DocumentMut>().unwrap();
    let item = doc.get(table).and_then(|t| t.as_table_like()).and_then(|t| t.get(key));
    let t = item.and_then(|i| i.as_table_like());
    DepEntry {
        rename: item.and_then(|i| i.get("package")).and_then(|v| v.as_str()).map(String::from),
        string: item.and_then(|i| i.as_str()).map(String::from),
        table_like: t.is_some(),
        table_version: t.and_then(|t| t.get("version")).and_then(|v| v.as_str()).map(String::from),
        items: Vec::new(),
    }
}

/// `TableLike::get(key)` in `table`, `Item::as_table_like`, then
/// `TableLike::iter` with `Item`'s `Display`: the entry's items, none for
/// an entry that is not table-like. The contract names the result.
#[verifier::external_body]
fn entry_items(text: &str, table: &str, key: &str) -> (r: Vec<(String, String)>)
    requires
        toml_parses(text@),
    ensures
        pairs_view(r@) == toml_entry_items(text@, table@, key@),
{
    let doc = text.parse::<toml_edit::DocumentMut>().unwrap();
    let entry = doc.get(table).and_then(|t| t.as_table_like()).and_then(|t| t.get(key));
    let t = entry.and_then(|i| i.as_table_like());
    t.map(|t| t.iter().map(|(k, v)| (k.to_string(), v.to_string())).collect()).unwrap_or_default()
}

/// The entry `key` of `table` as the dependency update reads it: its
/// rename, string value, shape and version, and its items.
fn dependency_entry(text: &str, table: &str, key: &str) -> (r: DepEntry)
    requires
        toml_parses(text@),
    ensures
        r.parts() == toml_dependency(text@, table@, key@),
        pairs_view(r.items@) == toml_entry_items(text@, table@, key@),
        r.string is Some ==> r.rename is None,
{
    let mut entry = entry_parts(text, table, key);
    entry.items = entry_items(text, table, key);
    entry
}

/// `*item = toml_edit::value(version)` for the string entry `key` of
/// `table`, then the document as text. The contract names the result and
/// states what the source shows: the result parses, the entry reads back
/// as the string `version` (it has no items, before or after), and no other
/// entry, key list, top-level item or `[package]` field changes.
#[verifier::external_body]
fn set_dependency_string(text: &str, table: &str, key: &str, version: &str) -> (r: String)
    requires
        toml_parses(text@),
        dependency_table(table@),
        toml_dependency(text@, table@, key@).1 is Some,
    ensures
        r@ == toml_with_dependency_string(text@, table@, key@, version@),
        toml_parses(r@),
        toml_dependency(r@, table@, key@) == (None::<Seq<char>>, Some(version@), false, None::<Seq<char>>),
        forall|t: Seq<char>| #[trigger] toml_dependency_keys(r@, t) == toml_dependency_keys(text@, t),
        forall|t: Seq<char>, k: Seq<char>| (t != table@ || k != key@)
            ==> #[trigger] toml_dependency(r@, t, k) == toml_dependency(text@, t, k),
        forall|t: Seq<char>, k: Seq<char>| (t != table@ || k != key@)
            ==> #[trigger] toml_entry_items(r@, t, k) == toml_entry_items(text@, t, k),
        forall|t: Seq<char>| t != table@ ==> #[trigger] top_item(r@, t) == top_item(text@, t),
        forall|k: Seq<char>| #[trigger] toml_package_field(r@, k) == toml_package_field(text@, k),
        toml_entry_items(r@, table@, key@) == toml_entry_items(text@, table@, key@),
{
    let mut doc = text.parse::<toml_edit::DocumentMut>().unwrap();
    if let Some(item) = doc.get_mut(table).and_then(|t| t.as_table_like_mut()).and_then(|t| t.get_mut(key)) {
        *item = toml_edit::value(version);
    }
    doc.to_string()
}

/// `TableLike::insert("version", toml_edit::value(version))` on the
/// table-like entry `key` of `table`, then the document as text. The
/// contract names the result and states what the source shows: the result
/// parses, the entry keeps its `package` and all its other items (`path`,
/// `features`, ...) and reads back `version` as its version, and no other
/// entry, key list, top-level item or `[package]` field changes.
#[verifier::external_body]
fn set_dependency_version(text: &str, table: &str, key: &str, version: &str) -> (r: String)
    requires
        toml_parses(text@),
        dependency_table(table@),
        toml_dependency(text@, table@, key@).2,
    ensures
        r@ == toml_with_dependency_version(text@, table@, key@, version@),
        toml_parses(r@),
        toml_dependency(r@, table@, key@) == (toml_dependency(text@, table@, key@).0, None::<Seq<char>>, true, Some(version@)),
        forall|t: Seq<char>| #[trigger] toml_dependency_keys(r@, t) == toml_dependency_keys(text@, t),
        forall|t: Seq<char>, k: Seq<char>| (t != table@ || k != key@)
            ==> #[trigger] toml_dependency(r@, t, k) == toml_dependency(text@, t, k),
        forall|t: Seq<char>, k: Seq<char>| (t != table@ || k != key@)
            ==> #[trigger] toml_entry_items(r@, t, k) == toml_entry_items(text@, t, k),
        forall|t: Seq<char>| t != table@ ==> #[trigger] top_item(r@, t) == top_item(text@, t),
        forall|k: Seq<char>| #[trigger] toml_package_field(r@, k) == toml_package_field(text@, k),
        other_items(toml_entry_items(r@, table@, key@)) == other_items(toml_entry_items(text@, table@, key@)),
{
    let mut doc = text.parse::<toml_edit::DocumentMut>().unwrap();
    if let Some(t) = doc
        .get_mut(table)
        .and_then(|t| t.as_table_like_mut())
        .and_then(|t| t.get_mut(key))
        .and_then(|i| i.as_table_like_mut())
    {
        t.insert("version", toml_edit::value(version));
    }
    doc.to_string()
}

/// Path of a crate's `Cargo.toml`.
pub fn manifest_path(repo_dir: &str) -> (r: String)
    ensures
        r@ == joined(repo_dir@, "Cargo.toml"@),
{
    join_path(repo_dir, "Cargo.toml")
}

/// Loads a crate's `Cargo.toml` from its contents (`None` when the file does
/// not exist): the text when it parses, an error naming the file when not.
pub fn load(repo_dir: &str, text: &Option<String>) -> (r: Result<Option<String>, Error>)
    ensures
        match *text {
            None => r == Ok::<Option<String>, Error>(None),
            Some(t) => if toml_parses(t@) {
                r matches Ok(Some(u)) && u == t
            } else {
                r matches Err(Error::TomlParse(p)) && p@ == joined(repo_dir@, "Cargo.toml"@)
            },
        },
{
    match text {
        None => Ok(None),
        Some(t) => {
            match document_items(t.as_str()) {
                Some(_) => Ok(Some(t.clone())),
                None => Err(Error::TomlParse(manifest_path(repo_dir))),
            }
        },
    }
}

/// What reading `[package].<key>` gives: nothing without a `Cargo.toml`, an
/// error when it does not parse, else the string value if there is one.
pub open spec fn package_read(repo_dir: Seq<char>, text: Option<Seq<char>>, key: Seq<char>) -> Result<Option<Seq<char>>, Seq<char>> {
    match text {
        None => Ok(None),
        Some(t) => if toml_parses(t) { Ok(toml_package_field(t, key)) } else { Err(joined(repo_dir, "Cargo.toml"@)) },
    }
}

/// The view of a read result: the value read, or the path of the file that
/// did not parse.
pub open spec fn read_view(r: Result<Option<String>, Error>) -> Result<Option<Seq<char>>, Seq<char>> {
    match r {
        Ok(v) => Ok(opt_view(v)),
        Err(Error::TomlParse(p)) => Err(p@),
        Err(_) => Err(Seq::empty()),
    }
}

fn read_field(repo_dir: &str, text: &Option<String>, key: &str) -> (r: Result<Option<String>, Error>)
    ensures
        read_view(r) == package_read(repo_dir@, opt_view(*text), key@),
        r is Err ==> r matches Err(Error::TomlParse(_)),
{
    match load(repo_dir, text) {
        Err(e) => Err(e),
        Ok(None) => Ok(None),
        Ok(Some(t)) => Ok(package_field(t.as_str(), key)),
    }
}

/// Reads `[package].name` (the crate name other repos depend on).
pub fn read_package_name(repo_dir: &str, text: &Option<String>) -> (r: Result<Option<String>, Error>)
    ensures
        read_view(r) == package_read(repo_dir@, opt_view(*text), "name"@),
        r is Err ==> r matches Err(Error::TomlParse(_)),
{
    read_field(repo_dir, text, "name")
}

/// Reads `[package].version` from a crate's `Cargo.toml`.
pub fn read_version(repo_dir: &str, text: &Option<String>) -> (r: Result<Option<String>, Error>)
    ensures
        read_view(r) == package_read(repo_dir@, opt_view(*text), "version"@),
        r is Err ==> r matches Err(Error::TomlParse(_)),
{
    read_field(repo_dir, text, "version")
}

/// Writes `[package].version`, preserving formatting and comments: the new
/// contents of `Cargo.toml`. Refuses a missing file, one that does not parse
/// and one without `[package].version`.
pub fn write_version(repo_dir: &str, text: &Option<String>, version: &str) -> (r: Result<String, Error>)
    ensures
        match *text {
            None => r matches Err(Error::NoCargoToml(d)) && d@ == repo_dir@,
            Some(t) => if !toml_parses(t@) {
                r matches Err(Error::TomlParse(p)) && p@ == joined(repo_dir@, "Cargo.toml"@)
            } else if !toml_package_has(t@, "version"@) {
                r matches Err(Error::NoPackageVersion(p)) && p@ == joined(repo_dir@, "Cargo.toml"@)
            } else {
                &&& r matches Ok(u) && u@ == toml_with_package_version(t@, version@)
                &&& toml_parses(r->Ok_0@)
                &&& toml_package_field(r->Ok_0@, "version"@) == Some(version@)
                &&& forall|k: Seq<char>| k != "version"@
                    ==> #[trigger] toml_package_field(r->Ok_0@, k) == toml_package_field(t@, k)
                &&& forall|k: Seq<char>| k != "version"@
                    ==> #[trigger] package_item(r->Ok_0@, k) == package_item(t@, k)
                &&& forall|k: Seq<char>| k != "package"@ ==> #[trigger] top_item(r->Ok_0@, k) == top_item(t@, k)
            },
        },
{
    let t = match load(repo_dir, text) {
        Err(e) => return Err(e),
        Ok(None) => return Err(Error::NoCargoToml(String::from_str(repo_dir))),
        Ok(Some(t)) => t,
    };
    let has_version = match package_items(t.as_str()) {
        None => false,
        Some(items) => has_key(&items, "version"),
    };
    if !has_version {
        return Err(Error::NoPackageVersion(manifest_path(repo_dir)));
    }
    Ok(set_package_version(t.as_str(), version))
}

/// The name that the dependency entry `key` refers to: its `package`
/// rename, else the key itself.
pub open spec fn dep_target(text: Seq<char>, table: Seq<char>, key: Seq<char>) -> Seq<char> {
    match toml_dependency(text, table, key).0 {
        Some(r) => r,
        None => key,
    }
}

/// The keys among `keys` whose entries refer to `dep`, in order.
pub open spec fn matching_keys(text: Seq<char>, table: Seq<char>, keys: Seq<Seq<char>>, dep: Seq<char>) -> Seq<Seq<char>>
    decreases keys.len(),
{
    if keys.len() == 0 {
        Seq::empty()
    } else {
        let rest = matching_keys(text, table, keys.drop_last(), dep);
        if dep_target(text, table, keys.last()) == dep { rest.push(keys.last()) } else { rest }
    }
}

/// Requires `version` in the entry `key` of `table`: a string entry is
/// replaced when it differs; a table entry gets `version` set when its
/// version differs. The new text and whether it changed.
pub open spec fn edit_entry(text: Seq<char>, table: Seq<char>, key: Seq<char>, version: Seq<char>) -> (Seq<char>, bool) {
    let (_, string, table_like, table_version) = toml_dependency(text, table, key);
    match string {
        Some(s) => if s != version {
            (toml_with_dependency_string(text, table, key, version), true)
        } else {
            (text, false)
        },
        None => if table_like && table_version != Some(version) {
            (toml_with_dependency_version(text, table, key, version), true)
        } else {
            (text, false)
        },
    }
}

/// The count after one more change, saturating at `usize::MAX`.
pub open spec fn count_up(n: nat) -> nat {
    if n < usize::MAX { n + 1 } else { n }
}

/// Applies `edit_entry` to `keys` in turn, from `text` with `n` changes so far.
pub open spec fn edit_entries(text: Seq<char>, table: Seq<char>, keys: Seq<Seq<char>>, version: Seq<char>, n: nat) -> (Seq<char>, nat)
    decreases keys.len(),
{
    if keys.len() == 0 {
        (text, n)
    } else {
        let (t1, changed) = edit_entry(text, table, keys[0], version);
        edit_entries(t1, table, keys.drop_first(), version, if changed { count_up(n) } else { n })
    }
}

/// Updates the entries of one table that refer to `dep`: the keys are those
/// that refer to `dep` when the table is reached.
pub open spec fn edit_table(text: Seq<char>, table: Seq<char>, dep: Seq<char>, version: Seq<char>, n: nat) -> (Seq<char>, nat) {
    match toml_dependency_keys(text, table) {
        None => (text, n),
        Some(keys) => edit_entries(text, table, matching_keys(text, table, keys, dep), version, n),
    }
}

/// Updates `[dependencies]`, `[dev-dependencies]` and `[build-dependencies]`
/// in turn: the new text and the number of entries changed.
pub open spec fn edit_dependencies(text: Seq<char>, dep: Seq<char>, version: Seq<char>) -> (Seq<char>, nat) {
    let (t1, n1) = edit_table(text, "dependencies"@, dep, version, 0);
    let (t2, n2) = edit_table(t1, "dev-dependencies"@, dep, version, n1);
    edit_table(t2, "build-dependencies"@, dep, version, n2)
}

/// Whether a dependency entry, as `toml_dependency` reads it, requires
/// `version`: a string entry is the version, a table entry has it as its
/// `version`; an entry of another shape states no requirement.
pub open spec fn entry_requires(
    entry: (Option<Seq<char>>, Option<Seq<char>>, bool, Option<Seq<char>>),
    version: Seq<char>,
) -> bool {
    match entry.1 {
        Some(s) => s == version,
        None => entry.2 ==> entry.3 == Some(version),
    }
}

/// Every entry of `table` that refers to `dep` requires `version`.
pub open spec fn table_requires(text: Seq<char>, table: Seq<char>, dep: Seq<char>, version: Seq<char>) -> bool {
    forall|k: Seq<char>|
        (toml_dependency_keys(text, table) matches Some(keys) && keys.contains(k) && dep_target(text, table, k) == dep)
            ==> #[trigger] entry_requires(toml_dependency(text, table, k), version)
}

/// Every entry of `[dependencies]`, `[dev-dependencies]` and
/// `[build-dependencies]` that refers to `dep` requires `version`.
pub open spec fn requires_everywhere(text: Seq<char>, dep: Seq<char>, version: Seq<char>) -> bool {
    &&& table_requires(text, "dependencies"@, dep, version)
    &&& table_requires(text, "dev-dependencies"@, dep, version)
    &&& table_requires(text, "build-dependencies"@, dep, version)
}

/// A key of the list whose entry refers to `dep` is among the matching keys.
proof fn lemma_matching_contains(text: Seq<char>, table: Seq<char>, keys: Seq<Seq<char>>, dep: Seq<char>, k: Seq<char>)
    requires
        keys.contains(k),
        dep_target(text, table, k) == dep,
    ensures
        matching_keys(text, table, keys, dep).contains(k),
    decreases keys.len(),
{
    let rest = matching_keys(text, table, keys.drop_last(), dep);
    if keys.last() == k {
        assert(matching_keys(text, table, keys, dep) == rest.push(k));
        assert(rest.push(k)[rest.len() as int] == k);
    } else {
        let x = choose|x: int| 0 <= x < keys.len() && keys[x] == k;
        assert(x != keys.len() - 1);
        assert(keys.drop_last()[x] == k);
        lemma_matching_contains(text, table, keys.drop_last(), dep, k);
        let y = choose|y: int| 0 <= y < rest.len() && rest[y] == k;
        if dep_target(text, table, keys.last()) == dep {
            assert(rest.push(keys.last())[y] == k);
        }
    }
}

/// A table's requirement holds on after edits that change neither its keys
/// nor its entries.
proof fn lemma_table_requires_kept(a: Seq<char>, b: Seq<char>, table: Seq<char>, dep: Seq<char>, version: Seq<char>)
    requires
        table_requires(a, table, dep, version),
        toml_dependency_keys(b, table) == toml_dependency_keys(a, table),
        forall|k: Seq<char>| #[trigger] toml_dependency(b, table, k) == toml_dependency(a, table, k),
    ensures
        table_requires(b, table, dep, version),
{
    assert forall|k: Seq<char>|
        (toml_dependency_keys(b, table) matches Some(keys) && keys.contains(k) && dep_target(b, table, k) == dep)
            implies #[trigger] entry_requires(toml_dependency(b, table, k), version) by {
        assert(toml_dependency(b, table, k) == toml_dependency(a, table, k));
        assert(entry_requires(toml_dependency(a, table, k), version));
    }
}

/// A matching key is a key of the list whose entry refers to `dep`.
proof fn lemma_matching_sound(text: Seq<char>, table: Seq<char>, keys: Seq<Seq<char>>, dep: Seq<char>, x: int)
    requires
        0 <= x < matching_keys(text, table, keys, dep).len(),
    ensures
        keys.contains(matching_keys(text, table, keys, dep)[x]),
        dep_target(text, table, matching_keys(text, table, keys, dep)[x]) == dep,
    decreases keys.len(),
{
    let rest = matching_keys(text, table, keys.drop_last(), dep);
    if x < rest.len() {
        lemma_matching_sound(text, table, keys.drop_last(), dep, x);
        let k = rest[x];
        let y = choose|y: int| 0 <= y < keys.drop_last().len() && keys.drop_last()[y] == k;
        assert(keys[y] == k);
        if dep_target(text, table, keys.last()) == dep {
            assert(rest.push(keys.last())[x] == rest[x]);
        }
    } else {
        assert(keys[keys.len() - 1] == keys.last());
    }
}

/// Editing entries that already require `version` changes nothing.
proof fn lemma_edit_entries_noop(text: Seq<char>, table: Seq<char>, keys: Seq<Seq<char>>, version: Seq<char>, n: nat)
    requires
        forall|x: int| 0 <= x < keys.len() ==> entry_requires(toml_dependency(text, table, #[trigger] keys[x]), version),
    ensures
        edit_entries(text, table, keys, version, n) == (text, n),
    decreases keys.len(),
{
    if keys.len() > 0 {
        assert(entry_requires(toml_dependency(text, table, keys[0]), version));
        assert forall|x: int| 0 <= x < keys.drop_first().len()
            implies entry_requires(toml_dependency(text, table, #[trigger] keys.drop_first()[x]), version) by {
            assert(keys.drop_first()[x] == keys[x + 1]);
        }
        lemma_edit_entries_noop(text, table, keys.drop_first(), version, n);
    }
}

/// Updating a table whose entries already require `version` changes nothing.
proof fn lemma_edit_table_noop(text: Seq<char>, table: Seq<char>, dep: Seq<char>, version: Seq<char>, n: nat)
    requires
        table_requires(text, table, dep, version),
    ensures
        edit_table(text, table, dep, version, n) == (text, n),
{
    match toml_dependency_keys(text, table) {
        None => {},
        Some(keys) => {
            let ms = matching_keys(text, table, keys, dep);
            assert forall|x: int| 0 <= x < ms.len() implies entry_requires(toml_dependency(text, table, #[trigger] ms[x]), version) by {
                lemma_matching_sound(text, table, keys, dep, x);
            }
            lemma_edit_entries_noop(text, table, ms, version, n);
        },
    }
}

/// Updating dependencies that already require `version` everywhere changes
/// nothing: a second update after a first one counts no change.
pub proof fn lemma_update_idempotent(text: Seq<char>, dep: Seq<char>, version: Seq<char>)
    requires
        requires_everywhere(text, dep, version),
    ensures
        edit_dependencies(text, dep, version) == (text, 0nat),
{
    lemma_edit_table_noop(text, "dependencies"@, dep, version, 0);
    lemma_edit_table_noop(text, "dev-dependencies"@, dep, version, 0);
    lemma_edit_table_noop(text, "build-dependencies"@, dep, version, 0);
}

/// Whether the entry `key` is listed in `table` and refers to `dep`.
pub open spec fn refers(text: Seq<char>, table: Seq<char>, key: Seq<char>, dep: Seq<char>) -> bool {
    toml_dependency_keys(text, table) matches Some(keys) && keys.contains(key) && dep_target(text, table, key) == dep
}

/// How many of the entries `keys` of `table` do not require `version`.
pub open spec fn stale_count(text: Seq<char>, table: Seq<char>, keys: Seq<Seq<char>>, version: Seq<char>) -> nat
    decreases keys.len(),
{
    if keys.len() == 0 {
        0
    } else {
        stale_count(text, table, keys.drop_last(), version)
            + if entry_requires(toml_dependency(text, table, keys.last()), version) { 0nat } else { 1nat }
    }
}

/// How many entries of `table` refer to `dep` without requiring `version`.
pub open spec fn stale_in_table(text: Seq<char>, table: Seq<char>, dep: Seq<char>, version: Seq<char>) -> nat {
    match toml_dependency_keys(text, table) {
        None => 0,
        Some(keys) => stale_count(text, table, matching_keys(text, table, keys, dep), version),
    }
}

/// How many entries of `[dependencies]`, `[dev-dependencies]` and
/// `[build-dependencies]` refer to `dep` without requiring `version`.
pub open spec fn stale_entries(text: Seq<char>, dep: Seq<char>, version: Seq<char>) -> nat {
    stale_in_table(text, "dependencies"@, dep, version)
        + stale_in_table(text, "dev-dependencies"@, dep, version)
        + stale_in_table(text, "build-dependencies"@, dep, version)
}

/// `n`, counted up to `usize::MAX`.
pub open spec fn capped(n: nat) -> nat {
    if n < usize::MAX { n } else { usize::MAX as nat }
}

/// The matching keys of a list without repeats have no repeats.
proof fn lemma_matching_distinct(text: Seq<char>, table: Seq<char>, keys: Seq<Seq<char>>, dep: Seq<char>)
    requires
        keys.no_duplicates(),
    ensures
        matching_keys(text, table, keys, dep).no_duplicates(),
    decreases keys.len(),
{
    if keys.len() > 0 {
        let init = keys.drop_last();
        assert forall|i: int, j: int| 0 <= i < j < init.len() implies init[i] != init[j] by {
            assert(init[i] == keys[i] && init[j] == keys[j]);
        }
        lemma_matching_distinct(text, table, init, dep);
        let rest = matching_keys(text, table, init, dep);
        if dep_target(text, table, keys.last()) == dep {
            assert forall|x: int| 0 <= x < rest.len() implies rest[x] != keys.last() by {
                lemma_matching_sound(text, table, init, dep, x);
                let y = choose|y: int| 0 <= y < init.len() && init[y] == rest[x];
                assert(keys[y] == init[y]);
            }
            let m = rest.push(keys.last());
            assert forall|i: int, j: int| 0 <= i < j < m.len() implies m[i] != m[j] by {
                if j == rest.len() {
                    assert(m[i] == rest[i]);
                } else {
                    assert(m[i] == rest[i] && m[j] == rest[j]);
                }
            }
        }
    }
}

/// Which keys match, and how many of them are stale, depends only on the
/// entries of the table.
proof fn lemma_same_entries(a: Seq<char>, b: Seq<char>, table: Seq<char>, keys: Seq<Seq<char>>, dep: Seq<char>, version: Seq<char>)
    requires
        forall|k: Seq<char>| #[trigger] toml_dependency(b, table, k) == toml_dependency(a, table, k),
    ensures
        matching_keys(b, table, keys, dep) == matching_keys(a, table, keys, dep),
        stale_count(b, table, keys, version) == stale_count(a, table, keys, version),
    decreases keys.len(),
{
    if keys.len() > 0 {
        assert(toml_dependency(b, table, keys.last()) == toml_dependency(a, table, keys.last()));
        lemma_same_entries(a, b, table, keys.drop_last(), dep, version);
    }
}

/// A table's stale count is kept by edits that change neither its keys nor
/// its entries.
proof fn lemma_stale_kept(a: Seq<char>, b: Seq<char>, table: Seq<char>, dep: Seq<char>, version: Seq<char>)
    requires
        toml_dependency_keys(b, table) == toml_dependency_keys(a, table),
        forall|k: Seq<char>| #[trigger] toml_dependency(b, table, k) == toml_dependency(a, table, k),
    ensures
        stale_in_table(b, table, dep, version) == stale_in_table(a, table, dep, version),
{
    if let Some(keys) = toml_dependency_keys(a, table) {
        lemma_same_entries(a, b, table, keys, dep, version);
        lemma_same_entries(a, b, table, matching_keys(a, table, keys, dep), dep, version);
    }
}

fn matching(text: &str, table: &str, keys: &Vec<String>, dep: &str) -> (r: Vec<String>)
    requires
        toml_parses(text@),
    ensures
        views_of(r@) == matching_keys(text@, table@, views_of(keys@), dep@),
{
    let target = String::from_str(dep);
    let mut out: Vec<String> = Vec::new();
    let mut i: usize = 0;
    while i < keys.len()
        invariant
            toml_parses(text@),
            target@ == dep@,
            i <= keys@.len(),
            views_of(out@) == matching_keys(text@, table@, views_of(keys@).take(i as int), dep@),
        decreases keys@.len() - i,
    {
        let entry = dependency_entry(text, table, keys[i].as_str());
        let referred = match entry.rename {
            Some(r) => r,
            None => keys[i].clone(),
        };
        let ghost before = views_of(out@);
        assert(views_of(keys@).take(i + 1).drop_last() == views_of(keys@).take(i as int));
        if referred == target {
            out.push(keys[i].clone());
            assert(views_of(out@) =~= before.push(keys@[i as int]@));
        }
        i += 1;
    }
    assert(views_of(keys@).take(keys@.len() as int) == views_of(keys@));
    out
}

fn edit_one_table(text: String, table: &str, dep: &str, version: &str, n: usize) -> (r: (String, usize))
    requires
        toml_parses(text@),
        dependency_table(table@),
    ensures
        (r.0@, r.1 as nat) == edit_table(text@, table@, dep@, version@, n as nat),
        r.1 as nat == capped(n as nat + stale_in_table(text@, table@, dep@, version@)),
        toml_parses(r.0@),
        forall|t: Seq<char>| #[trigger] toml_dependency_keys(r.0@, t) == toml_dependency_keys(text@, t),
        forall|t: Seq<char>, k: Seq<char>| !(t == table@ && refers(text@, t, k, dep@))
            ==> #[trigger] toml_dependency(r.0@, t, k) == toml_dependency(text@, t, k),
        forall|t: Seq<char>, k: Seq<char>| (#[trigger] toml_dependency(r.0@, t, k)).0 == toml_dependency(text@, t, k).0,
        forall|t: Seq<char>, k: Seq<char>|
            other_items(#[trigger] toml_entry_items(r.0@, t, k)) == other_items(toml_entry_items(text@, t, k)),
        forall|t: Seq<char>| t != table@ ==> #[trigger] top_item(r.0@, t) == top_item(text@, t),
        forall|k: Seq<char>| #[trigger] toml_package_field(r.0@, k) == toml_package_field(text@, k),
        table_requires(r.0@, table@, dep@, version@),
        (r.1 == n && n < usize::MAX) ==> r.0@ == text@,
{
    let ghost start = text@;
    let keys = match dependency_keys(text.as_str(), table) {
        None => return (text, n),
        Some(k) => k,
    };
    let ghost listed = views_of(keys@);
    let keys = matching(text.as_str(), table, &keys, dep);
    let ghost all = views_of(keys@);
    proof {
        lemma_matching_distinct(start, table@, listed, dep@);
    }
    let mut cur = text;
    let mut count = n;
    let mut i: usize = 0;
    assert(all.skip(0) == all);
    assert(all.take(0) == Seq::<Seq<char>>::empty());
    while i < keys.len()
        invariant
            toml_parses(cur@),
            dependency_table(table@),
            i <= keys@.len(),
            all == views_of(keys@),
            all == matching_keys(start, table@, listed, dep@),
            all.no_duplicates(),
            toml_dependency_keys(start, table@) == Some(listed),
            edit_entries(start, table@, all, version@, n as nat)
                == edit_entries(cur@, table@, all.skip(i as int), version@, count as nat),
            count as nat == capped(n as nat + stale_count(start, table@, all.take(i as int), version@)),
            forall|t: Seq<char>| #[trigger] toml_dependency_keys(cur@, t) == toml_dependency_keys(start, t),
            forall|t: Seq<char>, k: Seq<char>| (t != table@ || !all.take(i as int).contains(k))
                ==> #[trigger] toml_dependency(cur@, t, k) == toml_dependency(start, t, k),
            forall|t: Seq<char>, k: Seq<char>| (#[trigger] toml_dependency(cur@, t, k)).0 == toml_dependency(start, t, k).0,
            forall|t: Seq<char>, k: Seq<char>|
                other_items(#[trigger] toml_entry_items(cur@, t, k)) == other_items(toml_entry_items(start, t, k)),
            forall|t: Seq<char>| t != table@ ==> #[trigger] top_item(cur@, t) == top_item(start, t),
            forall|k: Seq<char>| #[trigger] toml_package_field(cur@, k) == toml_package_field(start, k),
            forall|x: int| 0 <= x < i ==> entry_requires(toml_dependency(cur@, table@, #[trigger] all[x]), version@),
            count >= n,
            (count == n && n < usize::MAX) ==> cur@ == start,
        decreases keys@.len() - i,
    {
        let entry = dependency_entry(cur.as_str(), table, keys[i].as_str());
        let ghost before = cur@;
        let ghost kk = keys@[i as int]@;
        assert(all[i as int] == kk);
        assert(all.contains(kk));
        assert(all.skip(i as int).drop_first() == all.skip(i + 1));
        assert(all.skip(i as int)[0] == keys@[i as int]@);
        assert(all.take(i + 1) == all.take(i as int).push(kk));
        assert(!all.take(i as int).contains(kk)) by {
            if all.take(i as int).contains(kk) {
                let y = choose|y: int| 0 <= y < i && all.take(i as int)[y] == kk;
                assert(all[y] == all[i as int]);
            }
        }
        assert(toml_dependency(before, table@, kk) == toml_dependency(start, table@, kk));
        let target = String::from_str(version);
        let mut changed = false;
        match entry.string {
            Some(s) => {
                if s != target {
                    cur = set_dependency_string(cur.as_str(), table, keys[i].as_str(), version);
                    changed = true;
                }
            },
            None => {
                let differs = match &entry.table_version {
                    Some(v) => *v != target,
                    None => true,
                };
                if entry.table_like && differs {
                    cur = set_dependency_version(cur.as_str(), table, keys[i].as_str(), version);
                    changed = true;
                }
            },
        }
        assert(changed == !entry_requires(toml_dependency(before, table@, kk), version@));
        assert(all.take(i + 1).drop_last() == all.take(i as int));
        assert(all.take(i + 1).last() == kk);
        if changed && count < usize::MAX {
            count += 1;
        }
        assert((cur@, changed) == edit_entry(before, table@, kk, version@));
        assert(entry_requires(toml_dependency(cur@, table@, kk), version@));
        assert forall|x: int| 0 <= x < i + 1 implies entry_requires(toml_dependency(cur@, table@, #[trigger] all[x]), version@) by {
            if all[x] != kk {
                assert(toml_dependency(cur@, table@, all[x]) == toml_dependency(before, table@, all[x]));
            }
        }
        i += 1;
    }
    assert(all.skip(keys@.len() as int).len() == 0);
    assert(all.take(keys@.len() as int) == all);
    proof {
        assert forall|k: Seq<char>|
            (toml_dependency_keys(cur@, table@) matches Some(ks) && ks.contains(k) && dep_target(cur@, table@, k) == dep@)
                implies #[trigger] entry_requires(toml_dependency(cur@, table@, k), version@) by {
            if all.contains(k) {
                let x = choose|x: int| 0 <= x < all.len() && all[x] == k;
                assert(entry_requires(toml_dependency(cur@, table@, all[x]), version@));
            } else {
                assert(toml_dependency(cur@, table@, k) == toml_dependency(start, table@, k));
                lemma_matching_contains(start, table@, listed, dep@, k);
            }
        }
        assert forall|t: Seq<char>, k: Seq<char>| !(t == table@ && refers(start, t, k, dep@))
            implies #[trigger] toml_dependency(cur@, t, k) == toml_dependency(start, t, k) by {
            if t == table@ && all.contains(k) {
                let x = choose|x: int| 0 <= x < all.len() && all[x] == k;
                lemma_matching_sound(start, table@, listed, dep@, x);
            }
        }
    }
    (cur, count)
}

/// The contents of a file that held `before` once `w`, if any, is written.
pub open spec fn after_update(before: Seq<char>, w: Option<String>) -> Seq<char> {
    match w {
        Some(x) => x@,
        None => before,
    }
}

/// Updates every dependency on `dep_name` in this crate's `Cargo.toml`
/// (`None` when there is none) to require `new_version`, preserving
/// `path`, features, renames, the other entries, `[package]` and every
/// other top-level item (a second update then changes nothing): the number
/// of entries changed, which is the number of entries on `dep_name` that
/// did not require `new_version` (counted up to `usize::MAX`), and the new
/// contents when any changed. Refuses a file that does not parse.
pub fn update_dependency(repo_dir: &str, text: &Option<String>, dep_name: &str, new_version: &str) -> (r: Result<(usize, Option<String>), Error>)
    ensures
        match *text {
            None => r == Ok::<(usize, Option<String>), Error>((0, None)),
            Some(t) => if !toml_parses(t@) {
                r matches Err(Error::TomlParse(p)) && p@ == joined(repo_dir@, "Cargo.toml"@)
            } else {
                let (u, n) = edit_dependencies(t@, dep_name@, new_version@);
                r matches Ok((c, w)) && c as nat == n
                    && c as nat == capped(stale_entries(t@, dep_name@, new_version@))
                    && if n > 0 { w matches Some(x) && x@ == u } else { w.is_none() }
            },
        },
        r matches Ok((_, w)) ==> (text is Some ==> {
            let before = text->Some_0@;
            let after = after_update(before, w);
            &&& toml_parses(after)
            &&& requires_everywhere(after, dep_name@, new_version@)
            &&& edit_dependencies(after, dep_name@, new_version@) == (after, 0nat)
            &&& forall|t: Seq<char>| #[trigger] toml_dependency_keys(after, t) == toml_dependency_keys(before, t)
            &&& forall|t: Seq<char>, k: Seq<char>| !(dependency_table(t) && refers(before, t, k, dep_name@))
                ==> #[trigger] toml_dependency(after, t, k) == toml_dependency(before, t, k)
            &&& forall|t: Seq<char>, k: Seq<char>| (#[trigger] toml_dependency(after, t, k)).0 == toml_dependency(before, t, k).0
            &&& forall|t: Seq<char>, k: Seq<char>|
                other_items(#[trigger] toml_entry_items(after, t, k)) == other_items(toml_entry_items(before, t, k))
            &&& forall|t: Seq<char>| !dependency_table(t) ==> #[trigger] top_item(after, t) == top_item(before, t)
            &&& forall|k: Seq<char>| #[trigger] toml_package_field(after, k) == toml_package_field(before, k)
        }),
{
    let t = match load(repo_dir, text) {
        Err(e) => return Err(e),
        Ok(None) => return Ok((0, None)),
        Ok(Some(t)) => t,
    };
    let ghost t0 = t@;
    let (t1, n1) = edit_one_table(t, "dependencies", dep_name, new_version, 0);
    let ghost g1 = t1@;
    let (t2, n2) = edit_one_table(t1, "dev-dependencies", dep_name, new_version, n1);
    let ghost g2 = t2@;
    let (t3, n3) = edit_one_table(t2, "build-dependencies", dep_name, new_version, n2);
    proof {
        reveal_strlit("dependencies");
        reveal_strlit("dev-dependencies");
        reveal_strlit("build-dependencies");
        assert("dependencies"@.len() != "dev-dependencies"@.len());
        assert("dependencies"@.len() != "build-dependencies"@.len());
        assert("dev-dependencies"@[1] != "build-dependencies"@[1]);
        lemma_table_requires_kept(g1, g2, "dependencies"@, dep_name@, new_version@);
        lemma_table_requires_kept(g2, t3@, "dependencies"@, dep_name@, new_version@);
        lemma_table_requires_kept(g2, t3@, "dev-dependencies"@, dep_name@, new_version@);
        lemma_update_idempotent(t3@, dep_name@, new_version@);
        assert forall|k: Seq<char>| #[trigger] toml_dependency(g1, "dev-dependencies"@, k) == toml_dependency(t0, "dev-dependencies"@, k) by {}
        lemma_stale_kept(t0, g1, "dev-dependencies"@, dep_name@, new_version@);
        assert forall|k: Seq<char>| #[trigger] toml_dependency(g2, "build-dependencies"@, k) == toml_dependency(t0, "build-dependencies"@, k) by {
            assert(toml_dependency(g1, "build-dependencies"@, k) == toml_dependency(t0, "build-dependencies"@, k));
        }
        lemma_stale_kept(t0, g2, "build-dependencies"@, dep_name@, new_version@);
        assert forall|t: Seq<char>, k: Seq<char>| !(dependency_table(t) && refers(t0, t, k, dep_name@))
            implies #[trigger] toml_dependency(t3@, t, k) == toml_dependency(t0, t, k) by {
            assert(toml_dependency(g1, t, k) == toml_dependency(t0, t, k));
            assert(toml_dependency(g2, t, k) == toml_dependency(g1, t, k));
            assert(toml_dependency(t3@, t, k) == toml_dependency(g2, t, k));
        }
    }
    if n3 > 0 { Ok((n3, Some(t3))) } else { Ok((0, None)) }
}

} // verus!
