use vstd::prelude::*;
use crate::markdown::opt_view;
use crate::text::{chars_of, string_from_range, trim, trim_str};

verus! {

/// The settings of a blog, read from its TOML configuration file.
pub struct Config {
    pub blogtitle: String,
    pub description: String,
    pub author: String,
    pub list_path: String,
}

/// Why a configuration could not be read.
pub enum ConfigError {
    /// The document is not TOML, or the key has no string value in it.
    MissingString(String),
}

/// The keys of the configuration, in the order they are asked for and read.
pub open spec fn config_key_names() -> Seq<Seq<char>> {
    seq!["blogtitle"@, "description"@, "author"@, "list_path"@]
}

/// The keys of the configuration, in the order they are asked for and read.
pub fn config_keys() -> (r: Vec<String>)
    ensures
        r@.map_values(|s: String| s@) == config_key_names(),
{
    let mut r: Vec<String> = Vec::new();
    r.push(String::from_str("blogtitle"));
    r.push(String::from_str("description"));
    r.push(String::from_str("author"));
    r.push(String::from_str("list_path"));
    assert(r@.map_values(|s: String| s@) =~= config_key_names());
    r
}

/// The string value at the top-level `key` of the TOML document `text`, if the document
/// parses and the key holds a string.
pub uninterp spec fn toml_string_at(text: Seq<char>, key: Seq<char>) -> Option<Seq<char>>;

/// Parses `text` with `toml::from_str` into a `toml::Value` and reads the string at `key`.
///
/// Trusted: the result depends on the text and the key alone, so it is named; `None`
/// stands for a document that does not parse, a missing key, and a value that is not a string.
#[verifier::external_body]
fn toml_string(text: &str, key: &str) -> (r: Option<String>)
    ensures
        opt_view(r) == toml_string_at(text@, key@),
{
    match toml::from_str::<toml::Value>(text) {
        Ok(doc) => doc.get(key).and_then(|v| v.as_str()).map(|s| s.to_string()),
        Err(_) => None,
    }
}

/// The string at `key`, or the error that names the key.
fn required_string(text: &str, key: &str) -> (r: Result<String, ConfigError>)
    ensures
        match r {
            Ok(s) => toml_string_at(text@, key@) == Some(s@),
            Err(ConfigError::MissingString(k)) => k@ == key@ && toml_string_at(text@, key@)
                is None,
        },
{
    match toml_string(text, key) {
        Some(s) => Ok(s),
        None => Err(ConfigError::MissingString(String::from_str(key))),
    }
}

/// Whether the document `text` holds a string at every configuration key.
pub open spec fn config_complete(text: Seq<char>) -> bool {
    forall|i: int| 0 <= i < 4 ==> toml_string_at(text, #[trigger] config_key_names()[i]) is Some
}

/// The first configuration key without a string value in `text`.
pub open spec fn first_missing_key(text: Seq<char>) -> Seq<char> {
    if toml_string_at(text, "blogtitle"@) is None {
        "blogtitle"@
    } else if toml_string_at(text, "description"@) is None {
        "description"@
    } else if toml_string_at(text, "author"@) is None {
        "author"@
    } else {
        "list_path"@
    }
}

impl Config {
    /// Reads the configuration from the TOML document `text`: each key must hold a string;
    /// otherwise the error names the first key, in `config_key_names` order, that does not.
    pub fn from_toml(text: &str) -> (r: Result<Config, ConfigError>)
        ensures
            r is Ok <==> config_complete(text@),
            r matches Ok(c) ==> {
                &&& toml_string_at(text@, "blogtitle"@) == Some(c.blogtitle@)
                &&& toml_string_at(text@, "description"@) == Some(c.description@)
                &&& toml_string_at(text@, "author"@) == Some(c.author@)
                &&& toml_string_at(text@, "list_path"@) == Some(c.list_path@)
            },
            r matches Err(ConfigError::MissingString(k)) ==> k@ == first_missing_key(text@),
    {
        assert(config_key_names()[0] == "blogtitle"@);
        assert(config_key_names()[1] == "description"@);
        assert(config_key_names()[2] == "author"@);
        assert(config_key_names()[3] == "list_path"@);
        let blogtitle = match required_string(text, "blogtitle") {
            Ok(s) => s,
            Err(e) => return Err(e),
        };
        let description = match required_string(text, "description") {
            Ok(s) => s,
            Err(e) => return Err(e),
        };
        let author = match required_string(text, "author") {
            Ok(s) => s,
            Err(e) => return Err(e),
        };
        let list_path = match required_string(text, "list_path") {
            Ok(s) => s,
            Err(e) => return Err(e),
        };
        Ok(Config { blogtitle, description, author, list_path })
    }
}

/// The value a configuration key is given when a blog is set up.
pub enum ConfigValue {
    Text(String),
    List(Vec<String>),
}

/// One key of a new configuration and its value.
pub struct ConfigEntry {
    pub key: String,
    pub value: ConfigValue,
}

/// `ConfigValue` as a value of spec mode.
pub enum ConfigValueView {
    Text(Seq<char>),
    List(Seq<Seq<char>>),
}

/// `ConfigEntry` as a value of spec mode.
pub struct ConfigEntryView {
    pub key: Seq<char>,
    pub value: ConfigValueView,
}

impl View for ConfigEntry {
    type V = ConfigEntryView;

    open spec fn view(&self) -> ConfigEntryView {
        ConfigEntryView {
            key: self.key@,
            value: match self.value {
                ConfigValue::Text(s) => ConfigValueView::Text(s@),
                ConfigValue::List(v) => ConfigValueView::List(v@.map_values(|s: String| s@)),
            },
        }
    }
}

/// The views of a sequence of entries.
pub open spec fn entries_view(v: Seq<ConfigEntry>) -> Seq<ConfigEntryView> {
    v.map_values(|e: ConfigEntry| e@)
}

/// The TOML document that `toml::to_string` writes for a table of the given entries.
pub uninterp spec fn toml_document(entries: Seq<ConfigEntryView>) -> Option<Seq<char>>;

/// Writes the entries into a `toml::value::Table`, text values as `toml::Value::String` and
/// lists as `toml::Value::Array` of strings, and renders it with `toml::to_string`.
///
/// Trusted: the text is a function of the entries alone (the table keeps its keys sorted),
/// so it is named; `None` stands for an error of the serializer.
#[verifier::external_body]
fn write_toml(entries: &Vec<ConfigEntry>) -> (r: Option<String>)
    ensures
        opt_view(r) == toml_document(entries_view(entries@)),
{
    let mut table = toml::value::Table::new();
    for e in entries {
        table.insert(e.key.clone(), match &e.value {
            ConfigValue::Text(s) => toml::Value::String(s.clone()),
            ConfigValue::List(v) => toml::Value::Array(v.iter().map(|s| toml::Value::String(s.clone())).collect()),
        });
    }
    toml::to_string(&toml::Value::Table(table)).ok()
}

/// The TOML text of a new configuration made of `entries`.
pub fn config_document(entries: &Vec<ConfigEntry>) -> (r: Option<String>)
    ensures
        opt_view(r) == toml_document(entries_view(entries@)),
{
    write_toml(entries)
}

/// Index of the first `','` in `s`, or `s.len()` when there is none.
pub open spec fn first_comma(s: Seq<char>) -> int
    decreases s.len(),
{
    if s.len() == 0 {
        0
    } else if s[0] == ',' {
        0
    } else {
        1 + first_comma(s.drop_first())
    }
}

/// The pieces of `s` between commas (`str::split(",")`): one more piece than commas.
pub open spec fn split_commas(s: Seq<char>) -> Seq<Seq<char>>
    decreases s.len(),
{
    let i = first_comma(s);
    proof {
        lemma_first_comma_bounds(s);
    }
    if i >= s.len() {
        seq![s]
    } else {
        seq![s.take(i)] + split_commas(s.skip(i + 1))
    }
}

/// The first comma, or the end, lies within `s`.
pub proof fn lemma_first_comma_bounds(s: Seq<char>)
    ensures
        0 <= first_comma(s) <= s.len(),
    decreases s.len(),
{
    if s.len() > 0 && s[0] != ',' {
        lemma_first_comma_bounds(s.drop_first());
    }
}

proof fn lemma_first_comma(s: Seq<char>, i: int)
    requires
        0 <= i <= s.len(),
        forall|k: int| 0 <= k < i ==> s[k] != ',',
        i == s.len() || s[i] == ',',
    ensures
        first_comma(s) == i,
    decreases i,
{
    if i > 0 {
        let t = s.drop_first();
        assert forall|k: int| 0 <= k < i - 1 implies t[k] != ',' by {
            assert(t[k] == s[k + 1]);
        }
        lemma_first_comma(t, i - 1);
    }
}

/// The pieces of `s` between commas, each trimmed of white space.
pub open spec fn trimmed_pieces(s: Seq<char>) -> Seq<Seq<char>> {
    split_commas(s).map_values(|p: Seq<char>| trim(p))
}

/// Splits `s` at its commas and trims each piece.
pub fn split_trimmed(s: &str) -> (r: Vec<String>)
    ensures
        r@.map_values(|x: String| x@) == trimmed_pieces(s@),
{
    let c = chars_of(s);
    let n = c.len();
    let mut r: Vec<String> = Vec::new();
    let mut start: usize = 0;
    let mut i: usize = 0;
    let ghost mut done: Seq<Seq<char>> = seq![];
    assert(c@.skip(0) =~= c@);
    while i < n
        invariant
            n == c@.len(),
            start <= i <= n,
            forall|k: int| start <= k < i ==> c@[k] != ',',
            split_commas(c@) == done + split_commas(c@.skip(start as int)),
            r@.len() == done.len(),
            r@.map_values(|x: String| x@) == done.map_values(|p: Seq<char>| trim(p)),
        decreases n - i,
    {
        if c[i] == ',' {
            let ghost rest = c@.skip(start as int);
            proof {
                assert forall|k: int| 0 <= k < i - start implies rest[k] != ',' by {
                    assert(rest[k] == c@[start + k]);
                }
                lemma_first_comma(rest, (i - start) as int);
                assert(rest.take((i - start) as int) =~= c@.subrange(start as int, i as int));
                assert(rest.skip((i - start) + 1) =~= c@.skip(i + 1));
            }
            let piece = string_from_range(&c, start, i);
            let t = trim_str(piece.as_str());
            let ghost old_r = r@;
            r.push(t);
            proof {
                let old_done = done;
                done = done.push(c@.subrange(start as int, i as int));
                assert(old_r.map_values(|x: String| x@) == old_done.map_values(|p: Seq<char>| trim(p)));
                assert forall|k: int| 0 <= k < r@.len() implies #[trigger] r@[k]@ == trim(done[k]) by {
                    if k < old_r.len() {
                        assert(old_r.map_values(|x: String| x@)[k] == old_r[k]@);
                        assert(old_done.map_values(|p: Seq<char>| trim(p))[k] == trim(old_done[k]));
                    }
                }
                assert(r@.map_values(|x: String| x@) =~= done.map_values(|p: Seq<char>| trim(p)));
                assert(split_commas(c@) =~= done + split_commas(c@.skip(i + 1)));
            }
            start = i + 1;
        }
        i = i + 1;
    }
    let ghost rest = c@.skip(start as int);
    proof {
        assert forall|k: int| 0 <= k < n - start implies rest[k] != ',' by {
            assert(rest[k] == c@[start + k]);
        }
        lemma_first_comma(rest, (n - start) as int);
        assert(rest =~= c@.subrange(start as int, n as int));
    }
    let piece = string_from_range(&c, start, n);
    let t = trim_str(piece.as_str());
    let ghost old_r = r@;
    r.push(t);
    proof {
        assert(split_commas(c@) =~= done.push(rest));
        let fin = done.push(rest);
        assert forall|k: int| 0 <= k < r@.len() implies #[trigger] r@[k]@ == trim(fin[k]) by {
            if k < old_r.len() {
                assert(old_r.map_values(|x: String| x@)[k] == old_r[k]@);
                assert(done.map_values(|p: Seq<char>| trim(p))[k] == trim(done[k]));
            }
        }
        assert(r@.map_values(|x: String| x@) =~= done.push(rest).map_values(|p: Seq<char>| trim(p)));
    }
    r
}

/// The entry a key gets from the answer typed for it: the answer without surrounding white
/// space; for the key `language`, the list of its comma-separated parts, each trimmed.
pub open spec fn entry_for(key: Seq<char>, answer: Seq<char>) -> ConfigEntryView {
    ConfigEntryView {
        key: key,
        value: if key == "language"@ {
            ConfigValueView::List(trimmed_pieces(trim(answer)))
        } else {
            ConfigValueView::Text(trim(answer))
        },
    }
}

/// The configuration entry for `key` from the answer typed for it (see `entry_for`).
pub fn config_entry(key: &str, answer: &str) -> (r: ConfigEntry)
    ensures
        r@ == entry_for(key@, answer@),
{
    let value = trim_str(answer);
    let k = String::from_str(key);
    let language = String::from_str("language");
    if k == language {
        let parts = split_trimmed(value.as_str());
        ConfigEntry { key: k, value: ConfigValue::List(parts) }
    } else {
        ConfigEntry { key: k, value: ConfigValue::Text(value) }
    }
}

/// Whether an answer to "create the directory?" says yes: it is `Y`, white space aside.
pub fn confirms_creation(answer: &str) -> (r: bool)
    ensures
        r == (trim(answer@) == seq!['Y']),
{
    let t = chars_of(trim_str(answer).as_str());
    let r = t.len() == 1 && t[0] == 'Y';
    proof {
        if t@.len() == 1 && t@[0] == 'Y' {
            assert(t@ =~= seq!['Y']);
        }
    }
    r
}

} // verus!
