//! The library's own model of a TOML document: the values its logic reads.
use vstd::prelude::*;

verus! {

/// A TOML value as far as this library reads it: strings, booleans and
/// tables are kept; every other kind of value is `Other`.
#[derive(Debug)]
pub enum TomlValue {
    Str(String),
    Bool(bool),
    /// The entries of a table, in the table's iteration order.
    Table(Vec<(String, TomlValue)>),
    Other,
}

/// The value stored under `key` among `entries` (the first entry with that key;
/// keys of a TOML table are unique).
pub open spec fn entries_get(entries: Seq<(String, TomlValue)>, key: Seq<char>) -> Option<TomlValue>
    decreases entries.len(),
{
    if entries.len() == 0 {
        None
    } else if entries[0].0@ == key {
        Some(entries[0].1)
    } else {
        entries_get(entries.drop_first(), key)
    }
}

/// No two entries share a key.
pub open spec fn keys_distinct(entries: Seq<(String, TomlValue)>) -> bool {
    forall|i: int, j: int| 0 <= i < j < entries.len() ==> entries[i].0@ != entries[j].0@
}

/// `a` comes before `b` in byte order, as `Ord for String` compares: `a` is a
/// proper prefix of `b`, or has the smaller byte where they first differ.
pub open spec fn bytes_less(a: Seq<u8>, b: Seq<u8>) -> bool
    decreases a.len(),
{
    if a.len() == 0 {
        b.len() > 0
    } else if b.len() == 0 {
        false
    } else if a[0] != b[0] {
        a[0] < b[0]
    } else {
        bytes_less(a.drop_first(), b.drop_first())
    }
}

/// Key `a` sorts before key `b` (by their UTF-8 bytes).
pub open spec fn key_less(a: Seq<char>, b: Seq<char>) -> bool {
    bytes_less(vstd::utf8::encode_utf8(a), vstd::utf8::encode_utf8(b))
}

/// The keys of `entries` are in strictly ascending order.
pub open spec fn keys_ascending(entries: Seq<(String, TomlValue)>) -> bool {
    forall|i: int, j: int| 0 <= i < j < entries.len() ==> key_less(entries[i].0@, entries[j].0@)
}

/// Every table in `v`, `v` itself and the tables nested in it, has distinct
/// keys listed in ascending order.
pub open spec fn keys_ordered(v: TomlValue) -> bool
    decreases v,
{
    match v {
        TomlValue::Table(entries) => {
            &&& keys_distinct(entries@)
            &&& keys_ascending(entries@)
            &&& forall|i: int| 0 <= i < entries@.len() ==> keys_ordered(#[trigger] entries@[i].1)
        },
        _ => true,
    }
}

/// The entries of a table with distinct keys in ascending order, whose nested
/// tables are so too.
pub open spec fn entries_ordered(entries: Seq<(String, TomlValue)>) -> bool {
    &&& keys_distinct(entries)
    &&& keys_ascending(entries)
    &&& forall|i: int| 0 <= i < entries.len() ==> keys_ordered(#[trigger] entries[i].1)
}

/// What `entries_get` finds is stored under the key at some position; when it
/// finds nothing, no entry has the key.
pub proof fn lemma_entries_get_found(entries: Seq<(String, TomlValue)>, key: Seq<char>)
    ensures
        entries_get(entries, key) matches Some(x) ==> exists|i: int|
            0 <= i < entries.len() && entries[i].0@ == key && #[trigger] entries[i].1 == x,
        entries_get(entries, key) is None ==> forall|i: int|
            0 <= i < entries.len() ==> #[trigger] entries[i].0@ != key,
    decreases entries.len(),
{
    if entries.len() > 0 {
        let rest = entries.drop_first();
        lemma_entries_get_found(rest, key);
        if entries[0].0@ != key {
            match entries_get(entries, key) {
                Some(x) => {
                    let i = choose|i: int| 0 <= i < rest.len() && rest[i].0@ == key && #[trigger] rest[i].1 == x;
                    assert(entries[i + 1] == rest[i]);
                },
                None => {
                    assert forall|i: int| 0 <= i < entries.len() implies #[trigger] entries[i].0@ != key by {
                        if i > 0 {
                            assert(entries[i] == rest[i - 1]);
                        }
                    }
                },
            }
        }
    }
}

/// Among entries with distinct keys, the key of the entry at `i` finds that entry.
pub proof fn lemma_entries_get_distinct(entries: Seq<(String, TomlValue)>, key: Seq<char>, i: int)
    requires
        keys_distinct(entries),
        0 <= i < entries.len(),
        entries[i].0@ == key,
    ensures
        entries_get(entries, key) == Some(entries[i].1),
    decreases entries.len(),
{
    if i > 0 {
        let rest = entries.drop_first();
        assert(entries[0].0@ != entries[i].0@);
        assert forall|a: int, b: int| 0 <= a < b < rest.len() implies rest[a].0@ != rest[b].0@ by {
            assert(rest[a] == entries[a + 1]);
            assert(rest[b] == entries[b + 1]);
        }
        assert(rest[i - 1] == entries[i]);
        lemma_entries_get_distinct(rest, key, i - 1);
    }
}

/// A value found in a table whose keys are ordered has ordered keys too.
pub proof fn lemma_get_keeps_order(v: TomlValue, key: Seq<char>)
    requires
        keys_ordered(v),
    ensures
        v.spec_get(key) matches Some(x) ==> keys_ordered(x),
{
    if let TomlValue::Table(e) = v {
        reveal_with_fuel(keys_ordered, 2);
        lemma_entries_get_found(e@, key);
        if let Some(x) = entries_get(e@, key) {
            let i = choose|i: int| 0 <= i < e@.len() && e@[i].0@ == key && #[trigger] e@[i].1 == x;
            assert(keys_ordered(e@[i].1));
        }
    }
}

impl TomlValue {
    /// What `get(key)` finds: the entry of a table, `None` for any other value.
    pub open spec fn spec_get(self, key: Seq<char>) -> Option<TomlValue> {
        match self {
            TomlValue::Table(entries) => entries_get(entries@, key),
            _ => None,
        }
    }

    /// The entries of a table value, or no entries for any other value.
    pub open spec fn table_entries(self) -> Seq<(String, TomlValue)> {
        match self {
            TomlValue::Table(entries) => entries@,
            _ => seq![],
        }
    }

    /// The entries of this value, if it is a table.
    pub open spec fn spec_as_table(self) -> Option<Seq<(String, TomlValue)>> {
        match self {
            TomlValue::Table(entries) => Some(entries@),
            _ => None,
        }
    }

    /// The string held by this value, if it is one.
    pub open spec fn spec_as_str(self) -> Option<Seq<char>> {
        match self {
            TomlValue::Str(s) => Some(s@),
            _ => None,
        }
    }

    /// The boolean held by this value, if it is one.
    pub open spec fn spec_as_bool(self) -> Option<bool> {
        match self {
            TomlValue::Bool(b) => Some(b),
            _ => None,
        }
    }

    /// Looks `key` up in a table; `None` when the value is not a table or has
    /// no such key.
    pub fn get(&self, key: &str) -> (r: Option<&TomlValue>)
        ensures
            r is Some <==> self.spec_get(key@) is Some,
            r matches Some(v) ==> self.spec_get(key@) == Some(*v),
    {
        match self {
            TomlValue::Table(entries) => {
                let n = entries.len();
                let mut i: usize = 0;
                assert(entries@.skip(0) =~= entries@);
                while i < n
                    invariant
                        n == entries.len(),
                        i <= n,
                        self.spec_get(key@) == entries_get(entries@, key@),
                        entries_get(entries@, key@) == entries_get(entries@.skip(i as int), key@),
                    decreases n - i,
                {
                    assert(entries@.skip(i as int).drop_first() =~= entries@.skip(i + 1));
                    assert(entries@.skip(i as int)[0] == entries@[i as int]);
                    if crate::text::str_eq(entries[i].0.as_str(), key) {
                        return Some(&entries[i].1);
                    }
                    i = i + 1;
                }
                None
            },
            _ => None,
        }
    }

    /// The string held by this value, if it is one.
    pub fn as_str(&self) -> (r: Option<&str>)
        ensures
            r is Some <==> self.spec_as_str() is Some,
            r matches Some(s) ==> Some(s@) == self.spec_as_str(),
    {
        match self {
            TomlValue::Str(s) => Some(s.as_str()),
            _ => None,
        }
    }

    /// The entries of this value, if it is a table.
    pub fn as_table(&self) -> (r: Option<&Vec<(String, TomlValue)>>)
        ensures
            r is Some <==> self.spec_as_table() is Some,
            r matches Some(e) ==> Some(e@) == self.spec_as_table(),
    {
        match self {
            TomlValue::Table(entries) => Some(entries),
            _ => None,
        }
    }

    /// The boolean held by this value, if it is one.
    pub fn as_bool(&self) -> (r: Option<bool>)
        ensures
            r == self.spec_as_bool(),
    {
        match self {
            TomlValue::Bool(b) => Some(*b),
            _ => None,
        }
    }
}

} // verus!

verus! {

/// Declares toml's map type so that a parsed table can be carried through
/// verified code without being looked into.
#[verifier::external_type_specification]
#[verifier::external_body]
#[verifier::reject_recursive_types(K)]
#[verifier::reject_recursive_types(V)]
pub struct ExTomlMap<K, V>(toml::map::Map<K, V>);

/// Declares toml's value type, which a parsed table holds.
#[verifier::external_type_specification]
#[verifier::external_body]
pub struct ExTomlValue(toml::Value);

/// The table that the `toml` crate parses from a document's text, or `None`
/// when the text is not a valid TOML document.
pub uninterp spec fn parsed_toml_table(text: Seq<char>) -> Option<toml::Table>;

/// The entries of a `toml` table in the library's model, in the table's
/// iteration order.
pub uninterp spec fn toml_table_model(table: toml::Table) -> Seq<(String, TomlValue)>;

/// Parses TOML text.
///
/// Trusted: calls `<toml::Table as FromStr>::from_str` (that is,
/// `toml::from_str::<toml::Table>`). Its result depends on the text alone; the
/// contract names it and claims no more about what a valid document is.
#[verifier::external_body]
fn parse_toml_table(text: &str) -> (r: Option<toml::Table>)
    ensures
        r == parsed_toml_table(text@),
{
    text.parse::<toml::Table>().ok()
}

/// Converts a `toml` table into the library's model: strings, booleans and
/// nested tables are kept as they are, every other value becomes `Other`.
///
/// Trusted: calls `toml::map::Map::iter` and reads each `toml::Value` variant.
/// The contract names the result as a function of the table, and states that
/// its keys are distinct and in ascending byte order, in the table and in every
/// nested table: with the crate's default features (this crate enables no
/// other) a `toml::map::Map` is a `BTreeMap<String, Value>`, which holds each
/// key once and iterates in key order.
#[verifier::external_body]
fn model_toml_table(table: &toml::Table) -> (r: Vec<(String, TomlValue)>)
    ensures
        r@ == toml_table_model(*table),
        keys_distinct(r@),
        keys_ascending(r@),
        forall|i: int| 0 <= i < r@.len() ==> keys_ordered(#[trigger] r@[i].1),
{
    table.iter().map(|(k, v)| (k.clone(), match v {
        toml::Value::String(s) => TomlValue::Str(s.clone()),
        toml::Value::Boolean(b) => TomlValue::Bool(*b),
        toml::Value::Table(t) => TomlValue::Table(model_toml_table(t)),
        _ => TomlValue::Other,
    })).collect()
}

/// The entries of the TOML document `text` in the library's model, or `None`
/// when the text does not parse.
pub open spec fn toml_document(text: Seq<char>) -> Option<Seq<(String, TomlValue)>> {
    match parsed_toml_table(text) {
        Some(t) => Some(toml_table_model(t)),
        None => None,
    }
}

/// The library's model of a parsed `toml` table, with its keys distinct and in
/// ascending order in it and in every nested table.
pub fn table_model(table: &toml::Table) -> (r: TomlValue)
    ensures
        r matches TomlValue::Table(entries) && entries@ == toml_table_model(*table),
        keys_ordered(r),
{
    let entries = model_toml_table(table);
    proof {
        reveal_with_fuel(keys_ordered, 2);
    }
    TomlValue::Table(entries)
}

/// Parses a TOML document into the library's model; `None` when the text is
/// not valid TOML.
pub fn parse_toml(text: &str) -> (r: Option<TomlValue>)
    ensures
        r is Some <==> toml_document(text@) is Some,
        r matches Some(v) ==> v matches TomlValue::Table(entries) && Some(entries@) == toml_document(text@),
        r matches Some(v) ==> keys_ordered(v),
        toml_document(text@) matches Some(root) ==> entries_ordered(root),
{
    match parse_toml_table(text) {
        Some(t) => {
            let v = table_model(&t);
            proof {
                reveal_with_fuel(keys_ordered, 2);
            }
            Some(v)
        },
        None => None,
    }
}

} // verus!
