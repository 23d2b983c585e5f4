//! Reading structured data: a JSON record of a user, and the manifest of a
//! package in TOML.
//!
//! The documents are parsed by `serde_json` and `toml`. What a document
//! holds at a key is named here; which values a record must hold, and what
//! makes a manifest complete, is decided and proved here.

use vstd::prelude::*;

verus! {

/// Why a document could not be read.
#[derive(Debug, Clone, Copy, PartialEq, Eq, Structural)]
pub enum StructuredError {
    /// The text is not in the syntax of its format.
    Syntax,
    /// A field is missing or holds a value of another type.
    Field,
}

/// `serde_json::Value`, any JSON value.
#[verifier::external_type_specification]
#[verifier::external_body]
pub struct ExJsonValue(serde_json::Value);

/// `serde_json::Error`.
#[verifier::external_type_specification]
#[verifier::external_body]
pub struct ExJsonError(serde_json::Error);

/// `toml::Value`, any TOML value.
#[verifier::external_type_specification]
#[verifier::external_body]
pub struct ExTomlValue(toml::Value);

/// `toml::de::Error`.
#[verifier::external_type_specification]
#[verifier::external_body]
pub struct ExTomlError(toml::de::Error);

/// The JSON value that `text` spells, `None` where it spells none.
pub uninterp spec fn json_parsed(text: Seq<char>) -> Option<serde_json::Value>;

/// The number of members of `value`, `None` where it is no object.
pub uninterp spec fn json_members(value: serde_json::Value) -> Option<nat>;

/// The member `key` of `value` as an unsigned number, `None` where there is
/// no such member or it is none.
pub uninterp spec fn json_u64(value: serde_json::Value, key: Seq<char>) -> Option<u64>;

/// The member `key` of `value` as a truth value.
pub uninterp spec fn json_bool(value: serde_json::Value, key: Seq<char>) -> Option<bool>;

/// The elements of the member `key` of `value`, each as a text where it is
/// one; `None` where the member is no array.
pub uninterp spec fn json_items(value: serde_json::Value, key: Seq<char>) -> Option<Seq<Option<Seq<char>>>>;

/// The TOML document that `text` spells, `None` where it spells none.
pub uninterp spec fn toml_parsed(text: Seq<char>) -> Option<toml::Value>;

/// The text at `key` in the table `table` of `value`.
pub uninterp spec fn toml_text(value: toml::Value, table: Seq<char>, key: Seq<char>) -> Option<Seq<char>>;

/// The elements of the array at `key` in the table `table` of `value`, each
/// as a text where it is one; `None` where there is no such array.
pub uninterp spec fn toml_items(value: toml::Value, table: Seq<char>, key: Seq<char>) -> Option<Seq<Option<Seq<char>>>>;

/// The keys of the table `table` of `value` in their order, each with what
/// it holds as a text where that is one; `None` where there is no such table.
pub uninterp spec fn toml_entries(value: toml::Value, table: Seq<char>) -> Option<Seq<(Seq<char>, Option<Seq<char>>)>>;

/// The texts of `items`.
pub open spec fn texts(items: Seq<String>) -> Seq<Seq<char>> {
    Seq::new(items.len(), |i: int| items[i]@)
}

/// Key and text of each pair.
pub open spec fn pair_texts(pairs: Seq<(String, String)>) -> Seq<(Seq<char>, Seq<char>)> {
    Seq::new(pairs.len(), |i: int| (pairs[i].0@, pairs[i].1@))
}

/// The text of each item that is one.
pub open spec fn item_texts(items: Seq<Option<String>>) -> Seq<Option<Seq<char>>> {
    Seq::new(
        items.len(),
        |i: int|
            match items[i] {
                Some(text) => Some(text@),
                None => None,
            },
    )
}

/// The key of each entry, and its text where it holds one.
pub open spec fn entry_texts(entries: Seq<(String, Option<String>)>) -> Seq<(Seq<char>, Option<Seq<char>>)> {
    Seq::new(
        entries.len(),
        |i: int|
            (
                entries[i].0@,
                match entries[i].1 {
                    Some(text) => Some(text@),
                    None => None,
                },
            ),
    )
}

/// The items as texts, where each of them is one.
pub open spec fn all_texts(items: Seq<Option<Seq<char>>>) -> Option<Seq<Seq<char>>> {
    if forall|i: int| 0 <= i < items.len() ==> (#[trigger] items[i]) is Some {
        Some(Seq::new(items.len(), |i: int| items[i]->0))
    } else {
        None
    }
}

/// The entries as pairs of texts, where each of them holds a text.
pub open spec fn all_pairs(entries: Seq<(Seq<char>, Option<Seq<char>>)>) -> Option<Seq<(Seq<char>, Seq<char>)>> {
    if forall|i: int| 0 <= i < entries.len() ==> (#[trigger] entries[i]).1 is Some {
        Some(Seq::new(entries.len(), |i: int| (entries[i].0, entries[i].1->0)))
    } else {
        None
    }
}

/// The member `key` of `value` as a list of texts, `None` where it is no
/// array or holds anything but texts.
pub open spec fn json_texts(value: serde_json::Value, key: Seq<char>) -> Option<Seq<Seq<char>>> {
    match json_items(value, key) {
        Some(items) => all_texts(items),
        None => None,
    }
}

/// The list of texts at `key` in the table `table` of `value`.
pub open spec fn toml_texts(value: toml::Value, table: Seq<char>, key: Seq<char>) -> Option<Seq<Seq<char>>> {
    match toml_items(value, table, key) {
        Some(items) => all_texts(items),
        None => None,
    }
}

/// The keys of the table `table` of `value`, each with the text it holds, in
/// the order of the keys; `None` where there is no such table or it holds
/// anything but texts.
pub open spec fn toml_table(value: toml::Value, table: Seq<char>) -> Option<Seq<(Seq<char>, Seq<char>)>> {
    match toml_entries(value, table) {
        Some(entries) => all_pairs(entries),
        None => None,
    }
}

/// The items as texts, where each of them is one.
pub fn texts_of(items: &Vec<Option<String>>) -> (list: Option<Vec<String>>)
    ensures
        match list {
            Some(found) => all_texts(item_texts(items@)) == Some(texts(found@)),
            None => all_texts(item_texts(items@)) is None,
        },
{
    let ghost wanted = item_texts(items@);
    let mut list: Vec<String> = Vec::new();
    let mut i: usize = 0;
    while i < items.len()
        invariant
            i <= items.len(),
            wanted == item_texts(items@),
            list@.len() == i,
            forall|k: int| 0 <= k < i ==> (#[trigger] wanted[k]) is Some,
            forall|k: int| 0 <= k < i ==> (#[trigger] list@[k])@ == wanted[k]->0,
        decreases items.len() - i,
    {
        match &items[i] {
            Some(text) => {
                list.push(text.clone());
            },
            None => {
                proof {
                    assert(wanted[i as int] is None);
                }
                return None;
            },
        }
        i = i + 1;
    }
    proof {
        assert(texts(list@) =~= Seq::new(wanted.len(), |k: int| wanted[k]->0));
    }
    Some(list)
}

/// The entries as pairs of texts, where each of them holds a text.
pub fn pairs_of(entries: &Vec<(String, Option<String>)>) -> (list: Option<Vec<(String, String)>>)
    ensures
        match list {
            Some(found) => all_pairs(entry_texts(entries@)) == Some(pair_texts(found@)),
            None => all_pairs(entry_texts(entries@)) is None,
        },
{
    let ghost wanted = entry_texts(entries@);
    let mut list: Vec<(String, String)> = Vec::new();
    let mut i: usize = 0;
    while i < entries.len()
        invariant
            i <= entries.len(),
            wanted == entry_texts(entries@),
            list@.len() == i,
            forall|k: int| 0 <= k < i ==> (#[trigger] wanted[k]).1 is Some,
            forall|k: int|
                0 <= k < i ==> (#[trigger] list@[k]).0@ == wanted[k].0 && list@[k].1@
                    == wanted[k].1->0,
        decreases entries.len() - i,
    {
        match &entries[i].1 {
            Some(text) => {
                let key = entries[i].0.clone();
                list.push((key, text.clone()));
            },
            None => {
                proof {
                    assert(wanted[i as int].1 is None);
                }
                return None;
            },
        }
        i = i + 1;
    }
    proof {
        assert(pair_texts(list@) =~= Seq::new(wanted.len(), |k: int| (wanted[k].0, wanted[k].1->0)));
    }
    Some(list)
}

/// `serde_json::from_str` for a `Value`: the value named `json_parsed`, and
/// an error where the text is no JSON.
#[verifier::external_body]
fn json_from_str(text: &str) -> (parsed: Result<serde_json::Value, serde_json::Error>)
    ensures
        match parsed {
            Ok(value) => json_parsed(text@) == Some(value),
            Err(_) => json_parsed(text@) is None,
        },
{
    serde_json::from_str(text)
}

/// `Value::as_object` and `Map::len`: the number named `json_members`.
#[verifier::external_body]
fn json_len(value: &serde_json::Value) -> (count: Option<usize>)
    ensures
        match count {
            Some(n) => json_members(*value) == Some(n as nat),
            None => json_members(*value) is None,
        },
{
    value.as_object().map(|members| members.len())
}

/// `Value::get` and `Value::as_u64`: the number named `json_u64`.
#[verifier::external_body]
fn json_get_u64(value: &serde_json::Value, key: &str) -> (number: Option<u64>)
    ensures
        number == json_u64(*value, key@),
{
    value.get(key).and_then(|member| member.as_u64())
}

/// `Value::get` and `Value::as_bool`: the truth value named `json_bool`.
#[verifier::external_body]
fn json_get_bool(value: &serde_json::Value, key: &str) -> (truth: Option<bool>)
    ensures
        truth == json_bool(*value, key@),
{
    value.get(key).and_then(|member| member.as_bool())
}

/// `Value::get`, `Value::as_array` and `Value::as_str` on each element: the
/// items named `json_items`, one for one.
#[verifier::external_body]
fn json_get_items(value: &serde_json::Value, key: &str) -> (list: Option<Vec<Option<String>>>)
    ensures
        match list {
            Some(items) => json_items(*value, key@) == Some(item_texts(items@)),
            None => json_items(*value, key@) is None,
        },
{
    let array = value.get(key)?.as_array()?;
    Some(array.iter().map(|item| item.as_str().map(|text| text.to_owned())).collect())
}

/// `toml::from_str` for a `Value`: the document named `toml_parsed`, and an
/// error where the text is no TOML.
#[verifier::external_body]
fn toml_from_str(text: &str) -> (parsed: Result<toml::Value, toml::de::Error>)
    ensures
        match parsed {
            Ok(value) => toml_parsed(text@) == Some(value),
            Err(_) => toml_parsed(text@) is None,
        },
{
    toml::from_str(text)
}

/// `Value::get` twice and `Value::as_str`: the text named `toml_text`.
#[verifier::external_body]
fn toml_get_text(value: &toml::Value, table: &str, key: &str) -> (text: Option<String>)
    ensures
        match text {
            Some(t) => toml_text(*value, table@, key@) == Some(t@),
            None => toml_text(*value, table@, key@) is None,
        },
{
    value.get(table)?.get(key)?.as_str().map(|text| text.to_owned())
}

/// `Value::get` twice, `Value::as_array` and `Value::as_str` on each element:
/// the items named `toml_items`, one for one.
#[verifier::external_body]
fn toml_get_items(value: &toml::Value, table: &str, key: &str) -> (list: Option<Vec<Option<String>>>)
    ensures
        match list {
            Some(items) => toml_items(*value, table@, key@) == Some(item_texts(items@)),
            None => toml_items(*value, table@, key@) is None,
        },
{
    let array = value.get(table)?.get(key)?.as_array()?;
    Some(array.iter().map(|item| item.as_str().map(|text| text.to_owned())).collect())
}

/// `Value::get`, `Value::as_table` and `Value::as_str` on each entry: the
/// entries named `toml_entries`, one for one, in the order in which the table
/// hands them out, which is that of the keys.
#[verifier::external_body]
fn toml_get_entries(value: &toml::Value, table: &str) -> (entries: Option<Vec<(String, Option<String>)>>)
    ensures
        match entries {
            Some(pairs) => toml_entries(*value, table@) == Some(entry_texts(pairs@)),
            None => toml_entries(*value, table@) is None,
        },
{
    let entries = value.get(table)?.as_table()?;
    Some(entries.iter().map(|(key, item)| (key.clone(), item.as_str().map(|t| t.to_owned()))).collect())
}

/// Whether `a` and `b` are the same text.
pub fn same_text(a: &str, b: &str) -> (same: bool)
    ensures
        same == (a@ == b@),
{
    let x = a.to_owned();
    let y = b.to_owned();
    x == y
}

/// Whether `value` is the record of user 103609: an object of three
/// members, the user's number, the mark that the user is verified, and the
/// privileges `user` and `admin`.
pub open spec fn is_expected_user(value: serde_json::Value) -> bool {
    &&& json_members(value) == Some(3nat)
    &&& json_u64(value, "userid"@) == Some(103609u64)
    &&& json_bool(value, "verified"@) == Some(true)
    &&& json_texts(value, "access_privileges"@) == Some(seq!["user"@, "admin"@])
}

/// Whether `value` is the record of user 103609.
pub fn expected_user(value: &serde_json::Value) -> (expected: bool)
    ensures
        expected == is_expected_user(*value),
{
    let members = json_len(value);
    let userid = json_get_u64(value, "userid");
    let verified = json_get_bool(value, "verified");
    let privileges = match json_get_items(value, "access_privileges") {
        Some(items) => texts_of(&items),
        None => None,
    };
    let listed = match privileges {
        Some(list) => {
            let same = list.len() == 2 && same_text(list[0].as_str(), "user") && same_text(
                list[1].as_str(),
                "admin",
            );
            proof {
                let found = texts(list@);
                let wanted = seq!["user"@, "admin"@];
                assert(wanted.len() == 2 && wanted[0] == "user"@ && wanted[1] == "admin"@);
                assert(found.len() == list@.len());
                if same {
                    assert(found[0] == list@[0]@ && found[1] == list@[1]@);
                    assert(found =~= wanted);
                } else if found == wanted {
                    assert(found[0] == list@[0]@ && found[1] == list@[1]@);
                }
            }
            same
        },
        None => false,
    };
    let counted = match members {
        Some(n) => n == 3,
        None => false,
    };
    let numbered = match userid {
        Some(id) => id == 103609,
        None => false,
    };
    let marked = match verified {
        Some(mark) => mark,
        None => false,
    };
    counted && numbered && marked && listed
}

/// The document that `parse` reads.
pub open spec fn user_document() -> Seq<char> {
    r#"{
                 "userid": 103609,
                 "verified": true,
                 "access_privileges": [
                   "user",
                   "admin"
                 ]
               }"#@
}

/// Reads the record of a user and says whether it is the expected one.
pub fn parse() -> (outcome: Result<bool, StructuredError>)
    ensures
        match outcome {
            Ok(expected) => json_parsed(user_document()) is Some && expected == is_expected_user(
                json_parsed(user_document())->0,
            ),
            Err(e) => e == StructuredError::Syntax && json_parsed(user_document()) is None,
        },
{
    let j = r#"{
                 "userid": 103609,
                 "verified": true,
                 "access_privileges": [
                   "user",
                   "admin"
                 ]
               }"#;
    match json_from_str(j) {
        Ok(parsed) => Ok(expected_user(&parsed)),
        Err(_) => Err(StructuredError::Syntax),
    }
}

/// The manifest that `parse_toml` and `parse_toml_custom` read.
pub open spec fn manifest_document() -> Seq<char> {
    r#"
          [package]
          name = "your_package"
          version = "0.1.0"
          authors = ["You! <you@example.org>"]

          [dependencies]
          serde = "1.0"
          "#@
}

/// Whether `value` is a manifest of `your_package` that depends on `serde`
/// 1.0.
pub open spec fn is_expected_manifest(value: toml::Value) -> bool {
    &&& toml_text(value, "dependencies"@, "serde"@) == Some("1.0"@)
    &&& toml_text(value, "package"@, "name"@) == Some("your_package"@)
}

/// Whether `value` is a manifest of `your_package` that depends on `serde`
/// 1.0.
pub fn expected_manifest(value: &toml::Value) -> (expected: bool)
    ensures
        expected == is_expected_manifest(*value),
{
    let serde = match toml_get_text(value, "dependencies", "serde") {
        Some(version) => same_text(version.as_str(), "1.0"),
        None => false,
    };
    let name = match toml_get_text(value, "package", "name") {
        Some(name) => same_text(name.as_str(), "your_package"),
        None => false,
    };
    serde && name
}

/// Reads the manifest and says whether it is the expected one.
pub fn parse_toml() -> (outcome: Result<bool, StructuredError>)
    ensures
        match outcome {
            Ok(expected) => toml_parsed(manifest_document()) is Some && expected
                == is_expected_manifest(toml_parsed(manifest_document())->0),
            Err(e) => e == StructuredError::Syntax && toml_parsed(manifest_document()) is None,
        },
{
    let toml_content = r#"
          [package]
          name = "your_package"
          version = "0.1.0"
          authors = ["You! <you@example.org>"]

          [dependencies]
          serde = "1.0"
          "#;
    match toml_from_str(toml_content) {
        Ok(package_info) => Ok(expected_manifest(&package_info)),
        Err(_) => Err(StructuredError::Syntax),
    }
}

/// What a manifest says of the package itself.
#[derive(Debug, PartialEq, Eq)]
pub struct Package {
    pub name: String,
    pub version: String,
    pub authors: Vec<String>,
}

/// A manifest: the package, and the version asked of each dependency.
#[derive(Debug, PartialEq, Eq)]
pub struct Config {
    pub package: Package,
    /// The dependencies in the order of their names, each with its version.
    pub dependencies: Vec<(String, String)>,
}

/// What `value` holds of a manifest; `None` where a field is missing or of
/// another type.
pub open spec fn config_of(value: toml::Value) -> Option<
    (Seq<char>, Seq<char>, Seq<Seq<char>>, Seq<(Seq<char>, Seq<char>)>),
> {
    match (
        toml_text(value, "package"@, "name"@),
        toml_text(value, "package"@, "version"@),
        toml_texts(value, "package"@, "authors"@),
        toml_table(value, "dependencies"@),
    ) {
        (Some(name), Some(version), Some(authors), Some(dependencies)) => Some(
            (name, version, authors, dependencies),
        ),
        _ => None,
    }
}

/// The fields of `config` as texts.
pub open spec fn config_view(config: Config) -> (
    Seq<char>,
    Seq<char>,
    Seq<Seq<char>>,
    Seq<(Seq<char>, Seq<char>)>,
) {
    (
        config.package.name@,
        config.package.version@,
        texts(config.package.authors@),
        pair_texts(config.dependencies@),
    )
}

/// Whether the fields are those of `your_package` 0.1.0 by `You!`, which
/// asks for `serde` 1.0.
pub open spec fn is_expected_config(
    fields: (Seq<char>, Seq<char>, Seq<Seq<char>>, Seq<(Seq<char>, Seq<char>)>),
) -> bool {
    &&& fields.0 == "your_package"@
    &&& fields.1 == "0.1.0"@
    &&& fields.2 == seq!["You! <you@example.org>"@]
    &&& version_asked(fields.3, "serde"@) == Some("1.0"@)
}

/// The manifest in `value`, where it is complete.
pub fn read_config(value: &toml::Value) -> (config: Result<Config, StructuredError>)
    ensures
        match config {
            Ok(c) => config_of(*value) == Some(config_view(c)),
            Err(e) => e == StructuredError::Field && config_of(*value) is None,
        },
{
    let name = match toml_get_text(value, "package", "name") {
        Some(name) => name,
        None => {
            return Err(StructuredError::Field);
        },
    };
    let version = match toml_get_text(value, "package", "version") {
        Some(version) => version,
        None => {
            return Err(StructuredError::Field);
        },
    };
    let authors = match toml_get_items(value, "package", "authors") {
        Some(items) => match texts_of(&items) {
            Some(authors) => authors,
            None => {
                return Err(StructuredError::Field);
            },
        },
        None => {
            return Err(StructuredError::Field);
        },
    };
    let dependencies = match toml_get_entries(value, "dependencies") {
        Some(entries) => match pairs_of(&entries) {
            Some(dependencies) => dependencies,
            None => {
                return Err(StructuredError::Field);
            },
        },
        None => {
            return Err(StructuredError::Field);
        },
    };
    Ok(Config { package: Package { name, version, authors }, dependencies })
}

/// The version that `config` asks of the dependency `name`: that of the
/// first entry of that name.
pub open spec fn version_asked(dependencies: Seq<(Seq<char>, Seq<char>)>, name: Seq<char>) -> Option<Seq<char>>
    decreases dependencies.len(),
{
    if dependencies.len() == 0 {
        None
    } else if dependencies[0].0 == name {
        Some(dependencies[0].1)
    } else {
        version_asked(dependencies.drop_first(), name)
    }
}

impl Config {
    /// The version asked of the dependency `name`, if it is one.
    pub fn dependency(&self, name: &str) -> (version: Option<&String>)
        ensures
            match version {
                Some(v) => version_asked(pair_texts(self.dependencies@), name@) == Some(v@),
                None => version_asked(pair_texts(self.dependencies@), name@) is None,
            },
    {
        let mut i: usize = 0;
        proof {
            assert(pair_texts(self.dependencies@).skip(0) =~= pair_texts(self.dependencies@));
        }
        while i < self.dependencies.len()
            invariant
                i <= self.dependencies.len(),
                version_asked(pair_texts(self.dependencies@), name@) == version_asked(
                    pair_texts(self.dependencies@).skip(i as int),
                    name@,
                ),
            decreases self.dependencies.len() - i,
        {
            proof {
                let rest = pair_texts(self.dependencies@).skip(i as int);
                assert(rest[0] == (self.dependencies@[i as int].0@, self.dependencies@[i as int].1@));
                assert(rest.drop_first() =~= pair_texts(self.dependencies@).skip(i + 1));
            }
            if same_text(self.dependencies[i].0.as_str(), name) {
                return Some(&self.dependencies[i].1);
            }
            i = i + 1;
        }
        None
    }

    /// Whether this is the manifest of `your_package` 0.1.0 by `You!` that
    /// asks for `serde` 1.0.
    pub open spec fn is_expected(self) -> bool {
        is_expected_config(config_view(self))
    }

    /// Whether this is the expected manifest.
    pub fn expected(&self) -> (expected: bool)
        ensures
            expected == self.is_expected(),
    {
        let authors = self.package.authors.len() == 1 && same_text(
            self.package.authors[0].as_str(),
            "You! <you@example.org>",
        );
        proof {
            let found = texts(self.package.authors@);
            let wanted = seq!["You! <you@example.org>"@];
            assert(wanted.len() == 1 && wanted[0] == "You! <you@example.org>"@);
            assert(found.len() == self.package.authors@.len());
            if authors {
                assert(found[0] == self.package.authors@[0]@);
                assert(found =~= wanted);
            } else if found == wanted {
                assert(found[0] == self.package.authors@[0]@);
            }
        }
        let serde = match self.dependency("serde") {
            Some(version) => same_text(version.as_str(), "1.0"),
            None => false,
        };
        same_text(self.package.name.as_str(), "your_package") && same_text(
            self.package.version.as_str(),
            "0.1.0",
        ) && authors && serde
    }
}

/// Reads the manifest into a `Config` and says whether it is the expected
/// one.
pub fn parse_toml_custom() -> (outcome: Result<bool, StructuredError>)
    ensures
        match outcome {
            Ok(expected) => {
                &&& toml_parsed(manifest_document()) is Some
                &&& config_of(toml_parsed(manifest_document())->0) is Some
                &&& expected == is_expected_config(
                    config_of(toml_parsed(manifest_document())->0)->0,
                )
            },
            Err(StructuredError::Syntax) => toml_parsed(manifest_document()) is None,
            Err(StructuredError::Field) => toml_parsed(manifest_document()) is Some && config_of(
                toml_parsed(manifest_document())->0,
            ) is None,
        },
{
    let toml_content = r#"
          [package]
          name = "your_package"
          version = "0.1.0"
          authors = ["You! <you@example.org>"]

          [dependencies]
          serde = "1.0"
          "#;
    let value = match toml_from_str(toml_content) {
        Ok(value) => value,
        Err(_) => {
            return Err(StructuredError::Syntax);
        },
    };
    let package_info = read_config(&value)?;
    Ok(package_info.expected())
}

} // verus!
