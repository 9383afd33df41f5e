//! Reading key lists out of the wallet file (`wallet.toml`).
//!
//! The file's text is parsed with the `toml` crate into a [`TomlValue`]; the
//! functions here collect the viewing keys and the public keys that it holds.

use vstd::prelude::*;
use crate::text::{
    clean_address, key_marker_spec, lemma_trim_idempotent, remove_all_spec, strip_key_marker,
    trim_spec,
};

verus! {

/// A value of a parsed TOML document, as far as the wallet logic reads it:
/// strings, tables (entries in the order in which the table is walked), and
/// every other kind of value, whose contents are never read.
#[derive(Debug)]
pub enum TomlValue {
    Str(String),
    Table(Vec<TomlEntry>),
    Other,
}

/// One `key = value` entry of a TOML table.
#[derive(Debug)]
pub struct TomlEntry {
    pub key: String,
    pub value: TomlValue,
}

/// Declares the `toml` crate's value type, which the parser produces.
#[verifier::external_type_specification]
#[verifier::external_body]
pub struct ExTomlValue(toml::Value);

/// What `toml::de::from_str::<toml::Value>` makes of a text, converted into
/// [`TomlValue`]: the parsed document, or the parser's error message.
pub uninterp spec fn parsed_wallet_spec(content: Seq<char>) -> Result<TomlValue, Seq<char>>;

/// Parses a TOML text with `toml::de::from_str` into `toml::Value` and
/// converts the result. Trusted: the result, or the text of the parser's
/// error, is the one that [`parsed_wallet_spec`] names for the text; nothing
/// more of the parser is stated.
#[verifier::external_body]
fn parse_wallet(content: &str) -> (res: Result<TomlValue, String>)
    ensures
        match res {
            Ok(doc) => parsed_wallet_spec(content@) == Ok::<TomlValue, Seq<char>>(doc),
            Err(e) => parsed_wallet_spec(content@) == Err::<TomlValue, Seq<char>>(e@),
        },
{
    match toml::de::from_str::<toml::Value>(content) {
        Ok(value) => Ok(model_of(value)),
        Err(e) => Err(e.to_string()),
    }
}

/// Converts a `toml::Value` one for one as the last step of [`parse_wallet`]:
/// a string stays a string, a table keeps its entries in the order in which
/// `toml::map::Map` walks them, and every other value becomes
/// [`TomlValue::Other`]. Trusted, with no contract of its own: its result is
/// covered by the name that [`parse_wallet`] gives to its whole result.
#[verifier::external_body]
fn model_of(value: toml::Value) -> TomlValue {
    match value {
        toml::Value::String(s) => TomlValue::Str(s),
        toml::Value::Table(table) => TomlValue::Table(
            table.into_iter().map(|(key, value)| TomlEntry { key, value: model_of(value) }).collect(),
        ),
        _ => TomlValue::Other,
    }
}

/// Why a key list could not be read from the wallet file.
#[derive(Debug)]
pub enum KeyListError {
    /// The text is not TOML; the parser's message.
    Unparsable(String),
    /// The file has no section of that name.
    Missing,
    /// The section, or an entry of it, is not of the shape the keys are read from.
    Malformed,
}

/// The value stored under `key` among `entries` (the first entry with that key).
pub open spec fn entry_lookup(entries: Seq<TomlEntry>, key: Seq<char>) -> Option<TomlValue>
    decreases entries.len(),
{
    if entries.len() == 0 {
        None
    } else if entries[0].key@ == key {
        Some(entries[0].value)
    } else {
        entry_lookup(entries.drop_first(), key)
    }
}

/// What `toml::Value::get(key)` gives: the entry's value in a table, nothing otherwise.
pub open spec fn value_lookup(v: TomlValue, key: Seq<char>) -> Option<TomlValue> {
    match v {
        TomlValue::Table(entries) => entry_lookup(entries@, key),
        _ => None,
    }
}

/// The texts of a sequence of strings.
pub open spec fn texts(v: Seq<String>) -> Seq<Seq<char>> {
    v.map_values(|s: String| s@)
}

/// Looks up `key` in a table value.
fn lookup<'a>(v: &'a TomlValue, key: &str) -> (res: Option<&'a TomlValue>)
    ensures
        match res {
            Some(x) => value_lookup(*v, key@) == Some(*x),
            None => value_lookup(*v, key@) is None,
        },
{
    match v {
        TomlValue::Table(entries) => {
            let wanted = key.to_owned();
            let mut i: usize = 0;
            assert(entries@.skip(0) =~= entries@);
            while i < entries.len()
                invariant
                    i <= entries@.len(),
                    wanted@ == key@,
                    value_lookup(*v, key@) == entry_lookup(entries@, key@),
                    entry_lookup(entries@, key@) == entry_lookup(entries@.skip(i as int), key@),
                decreases entries.len() - i,
            {
                assert(entries@.skip(i as int)[0] == entries@[i as int]);
                if entries[i].key == wanted {
                    assert(entries@[i as int].key@ == key@);
                    assert(entry_lookup(entries@.skip(i as int), key@) == Some(
                        entries@[i as int].value,
                    ));
                    return Some(&entries[i].value);
                }
                assert(entries@.skip(i as int).drop_first() =~= entries@.skip(i + 1));
                i = i + 1;
            }
            None
        },
        _ => None,
    }
}

/// The viewing key of one `view_keys` entry: its trimmed `key` string, if it has one.
pub open spec fn view_key_of(v: TomlValue) -> Option<Seq<char>> {
    match value_lookup(v, "key"@) {
        Some(TomlValue::Str(s)) => Some(trim_spec(s@)),
        _ => None,
    }
}

/// The viewing keys of the `view_keys` entries, in entry order.
pub open spec fn view_keys_of(entries: Seq<TomlEntry>) -> Seq<Seq<char>>
    decreases entries.len(),
{
    if entries.len() == 0 {
        Seq::empty()
    } else {
        let rest = view_keys_of(entries.drop_last());
        match view_key_of(entries.last().value) {
            Some(k) => rest.push(k),
            None => rest,
        }
    }
}

/// Whether the `view_keys` section can be read without a fault: it is absent,
/// or a table whose entries have no `key`, or a string `key`.
pub open spec fn view_keys_readable(doc: TomlValue) -> bool {
    match value_lookup(doc, "view_keys"@) {
        None => true,
        Some(TomlValue::Table(entries)) => forall|i: int|
            0 <= i < entries@.len() ==> {
                ||| value_lookup(#[trigger] entries@[i].value, "key"@) is None
                ||| value_lookup(entries@[i].value, "key"@) matches Some(TomlValue::Str(_))
            },
        Some(_) => false,
    }
}

/// The public key of one `public_keys` entry: the string with its markers removed.
pub open spec fn public_key_of(v: TomlValue) -> Option<Seq<char>> {
    match v {
        TomlValue::Str(s) => Some(remove_all_spec(s@, key_marker_spec())),
        _ => None,
    }
}

/// The public keys of the `public_keys` entries, in entry order.
pub open spec fn public_keys_of(entries: Seq<TomlEntry>) -> Seq<Seq<char>>
    decreases entries.len(),
{
    if entries.len() == 0 {
        Seq::empty()
    } else {
        let rest = public_keys_of(entries.drop_last());
        match public_key_of(entries.last().value) {
            Some(k) => rest.push(k),
            None => rest,
        }
    }
}

/// Whether the `public_keys` section can be read without a fault: it is absent or a table.
pub open spec fn public_keys_readable(doc: TomlValue) -> bool {
    match value_lookup(doc, "public_keys"@) {
        None => true,
        Some(TomlValue::Table(_)) => true,
        Some(_) => false,
    }
}

/// Whether the `view_keys` section of `doc` can be read by [`view_keys_from_wallet`].
pub fn can_read_view_keys(doc: &TomlValue) -> (ok: bool)
    ensures
        ok == view_keys_readable(*doc),
{
    match lookup(doc, "view_keys") {
        None => true,
        Some(TomlValue::Table(entries)) => {
            let mut i: usize = 0;
            while i < entries.len()
                invariant
                    i <= entries@.len(),
                    value_lookup(*doc, "view_keys"@) == Some(TomlValue::Table(*entries)),
                    forall|k: int|
                        0 <= k < i ==> {
                            ||| value_lookup(#[trigger] entries@[k].value, "key"@) is None
                            ||| value_lookup(entries@[k].value, "key"@) matches Some(
                                TomlValue::Str(_),
                            )
                        },
                decreases entries.len() - i,
            {
                match lookup(&entries[i].value, "key") {
                    None => {},
                    Some(TomlValue::Str(_)) => {},
                    Some(_) => {
                        assert(!(value_lookup(entries@[i as int].value, "key"@) is None));
                        return false;
                    },
                }
                i = i + 1;
            }
            true
        },
        Some(_) => false,
    }
}

/// Whether the `public_keys` section of `doc` can be read by [`public_keys_from_wallet`].
pub fn can_read_public_keys(doc: &TomlValue) -> (ok: bool)
    ensures
        ok == public_keys_readable(*doc),
{
    match lookup(doc, "public_keys") {
        None => true,
        Some(TomlValue::Table(_)) => true,
        Some(_) => false,
    }
}

/// The viewing keys listed in the wallet file: for each entry of the
/// `view_keys` table that has a `key`, that key with surrounding whitespace
/// removed, in entry order; `None` where the file has no `view_keys`.
pub fn view_keys_from_wallet(doc: &TomlValue) -> (res: Option<Vec<String>>)
    requires
        view_keys_readable(*doc),
    ensures
        match value_lookup(*doc, "view_keys"@) {
            Some(TomlValue::Table(entries)) => res matches Some(keys) && texts(keys@)
                == view_keys_of(entries@),
            _ => res is None,
        },
{
    match lookup(doc, "view_keys") {
        Some(TomlValue::Table(entries)) => {
            let mut keys: Vec<String> = Vec::new();
            let mut i: usize = 0;
            while i < entries.len()
                invariant
                    i <= entries@.len(),
                    view_keys_readable(*doc),
                    value_lookup(*doc, "view_keys"@) == Some(TomlValue::Table(*entries)),
                    texts(keys@) == view_keys_of(entries@.subrange(0, i as int)),
                decreases entries.len() - i,
            {
                let ghost before = keys@;
                assert(entries@.subrange(0, i + 1).drop_last() =~= entries@.subrange(0, i as int));
                assert(entries@.subrange(0, i + 1).last() == entries@[i as int]);
                match lookup(&entries[i].value, "key") {
                    Some(TomlValue::Str(address)) => {
                        let k = clean_address(address.as_str());
                        keys.push(k);
                        assert(texts(keys@) =~= texts(before).push(k@));
                    },
                    Some(_) => {
                        assert(false);
                    },
                    None => {},
                }
                i = i + 1;
            }
            assert(entries@.subrange(0, entries@.len() as int) =~= entries@);
            Some(keys)
        },
        _ => None,
    }
}

/// The public keys listed in the wallet file: each string entry of the
/// `public_keys` table with every `ED25519_PK_PREFIX` marker removed, in
/// entry order; `None` where the file has no `public_keys`.
pub fn public_keys_from_wallet(doc: &TomlValue) -> (res: Option<Vec<String>>)
    requires
        public_keys_readable(*doc),
    ensures
        match value_lookup(*doc, "public_keys"@) {
            Some(TomlValue::Table(entries)) => res matches Some(keys) && texts(keys@)
                == public_keys_of(entries@),
            _ => res is None,
        },
{
    match lookup(doc, "public_keys") {
        Some(TomlValue::Table(entries)) => {
            let mut keys: Vec<String> = Vec::new();
            let mut i: usize = 0;
            while i < entries.len()
                invariant
                    i <= entries@.len(),
                    texts(keys@) == public_keys_of(entries@.subrange(0, i as int)),
                decreases entries.len() - i,
            {
                let ghost before = keys@;
                assert(entries@.subrange(0, i + 1).drop_last() =~= entries@.subrange(0, i as int));
                assert(entries@.subrange(0, i + 1).last() == entries@[i as int]);
                match &entries[i].value {
                    TomlValue::Str(address) => {
                        let k = strip_key_marker(address.as_str());
                        keys.push(k);
                        assert(texts(keys@) =~= texts(before).push(k@));
                    },
                    _ => {},
                }
                i = i + 1;
            }
            assert(entries@.subrange(0, entries@.len() as int) =~= entries@);
            Some(keys)
        },
        _ => None,
    }
}

/// The viewing keys listed in a wallet file's text: as
/// [`view_keys_from_wallet`] gives them from the parsed document, with the
/// parser's message where the text is not TOML, `Missing` where there is no
/// `view_keys` section, and `Malformed` where the section cannot be read.
pub fn view_keys_from_text(content: &str) -> (res: Result<Vec<String>, KeyListError>)
    ensures
        match parsed_wallet_spec(content@) {
            Err(e) => res matches Err(KeyListError::Unparsable(m)) && m@ == e,
            Ok(doc) => if !view_keys_readable(doc) {
                res matches Err(KeyListError::Malformed)
            } else {
                match value_lookup(doc, "view_keys"@) {
                    Some(TomlValue::Table(entries)) => res matches Ok(keys) && texts(keys@)
                        == view_keys_of(entries@),
                    _ => res matches Err(KeyListError::Missing),
                }
            },
        },
{
    match parse_wallet(content) {
        Err(e) => Err(KeyListError::Unparsable(e)),
        Ok(doc) => {
            if !can_read_view_keys(&doc) {
                Err(KeyListError::Malformed)
            } else {
                match view_keys_from_wallet(&doc) {
                    Some(keys) => Ok(keys),
                    None => Err(KeyListError::Missing),
                }
            }
        },
    }
}

/// The public keys listed in a wallet file's text: as
/// [`public_keys_from_wallet`] gives them from the parsed document, with the
/// parser's message where the text is not TOML, `Missing` where there is no
/// `public_keys` section, and `Malformed` where the section is not a table.
pub fn public_keys_from_text(content: &str) -> (res: Result<Vec<String>, KeyListError>)
    ensures
        match parsed_wallet_spec(content@) {
            Err(e) => res matches Err(KeyListError::Unparsable(m)) && m@ == e,
            Ok(doc) => if !public_keys_readable(doc) {
                res matches Err(KeyListError::Malformed)
            } else {
                match value_lookup(doc, "public_keys"@) {
                    Some(TomlValue::Table(entries)) => res matches Ok(keys) && texts(keys@)
                        == public_keys_of(entries@),
                    _ => res matches Err(KeyListError::Missing),
                }
            },
        },
{
    match parse_wallet(content) {
        Err(e) => Err(KeyListError::Unparsable(e)),
        Ok(doc) => {
            if !can_read_public_keys(&doc) {
                Err(KeyListError::Malformed)
            } else {
                match public_keys_from_wallet(&doc) {
                    Some(keys) => Ok(keys),
                    None => Err(KeyListError::Missing),
                }
            }
        },
    }
}

/// Every viewing key collected from the wallet file is already clean (a
/// second trimming leaves it as it is), and no entry gives more than one key.
pub proof fn lemma_view_keys_are_clean(entries: Seq<TomlEntry>)
    ensures
        view_keys_of(entries).len() <= entries.len(),
        forall|i: int|
            0 <= i < view_keys_of(entries).len() ==> trim_spec(#[trigger] view_keys_of(entries)[i])
                == view_keys_of(entries)[i],
    decreases entries.len(),
{
    if entries.len() > 0 {
        lemma_view_keys_are_clean(entries.drop_last());
        let rest = view_keys_of(entries.drop_last());
        match value_lookup(entries.last().value, "key"@) {
            Some(TomlValue::Str(s)) => {
                lemma_trim_idempotent(s@);
                assert forall|i: int|
                    0 <= i < view_keys_of(entries).len() implies trim_spec(
                    #[trigger] view_keys_of(entries)[i],
                ) == view_keys_of(entries)[i] by {
                    if i < rest.len() {
                        assert(view_keys_of(entries)[i] == rest[i]);
                    }
                }
            },
            _ => {},
        }
    }
}

/// No entry of the `public_keys` table gives more than one public key.
pub proof fn lemma_public_keys_bounded(entries: Seq<TomlEntry>)
    ensures
        public_keys_of(entries).len() <= entries.len(),
    decreases entries.len(),
{
    if entries.len() > 0 {
        lemma_public_keys_bounded(entries.drop_last());
    }
}

/// Whether a value is a table with a string `key` entry.
pub open spec fn has_string_key(v: TomlValue) -> bool {
    value_lookup(v, "key"@) matches Some(TomlValue::Str(_))
}

/// The text of a value's `key` entry, where it is a string.
pub open spec fn key_text(v: TomlValue) -> Seq<char> {
    match value_lookup(v, "key"@) {
        Some(TomlValue::Str(s)) => s@,
        _ => Seq::empty(),
    }
}

/// The text of a string value.
pub open spec fn string_text(v: TomlValue) -> Seq<char> {
    match v {
        TomlValue::Str(s) => s@,
        _ => Seq::empty(),
    }
}

/// The viewing keys are exactly the `key` strings of the entries that have
/// one, each trimmed, in entry order: every such entry gives one key, and no
/// other entry gives any.
pub proof fn lemma_view_keys_are_the_key_strings(entries: Seq<TomlEntry>)
    ensures
        view_keys_of(entries) == entries.filter(|e: TomlEntry| has_string_key(e.value)).map_values(
            |e: TomlEntry| trim_spec(key_text(e.value)),
        ),
        view_keys_of(entries).len() == entries.filter(|e: TomlEntry| has_string_key(e.value)).len(),
    decreases entries.len(),
{
    reveal_with_fuel(Seq::<TomlEntry>::filter, 1);
    let pred = |e: TomlEntry| has_string_key(e.value);
    let f = |e: TomlEntry| trim_spec(key_text(e.value));
    if entries.len() > 0 {
        lemma_view_keys_are_the_key_strings(entries.drop_last());
        let sub = entries.drop_last().filter(pred);
        if pred(entries.last()) {
            assert(entries.filter(pred) == sub.push(entries.last()));
            assert(sub.push(entries.last()).map_values(f) =~= sub.map_values(f).push(
                f(entries.last()),
            ));
        } else {
            assert(entries.filter(pred) == sub);
        }
    } else {
        assert(entries.filter(pred) =~= Seq::<TomlEntry>::empty());
        assert(entries.filter(pred).map_values(f) =~= Seq::<Seq<char>>::empty());
    }
}

/// The public keys are exactly the string entries of the `public_keys`
/// table, each with its markers removed, in entry order: every string entry
/// gives one key, and no other entry gives any.
pub proof fn lemma_public_keys_are_the_string_entries(entries: Seq<TomlEntry>)
    ensures
        public_keys_of(entries) == entries.filter(|e: TomlEntry| e.value is Str).map_values(
            |e: TomlEntry| remove_all_spec(string_text(e.value), key_marker_spec()),
        ),
        public_keys_of(entries).len() == entries.filter(|e: TomlEntry| e.value is Str).len(),
    decreases entries.len(),
{
    reveal_with_fuel(Seq::<TomlEntry>::filter, 1);
    let pred = |e: TomlEntry| e.value is Str;
    let f = |e: TomlEntry| remove_all_spec(string_text(e.value), key_marker_spec());
    if entries.len() > 0 {
        lemma_public_keys_are_the_string_entries(entries.drop_last());
        let sub = entries.drop_last().filter(pred);
        if pred(entries.last()) {
            assert(entries.filter(pred) == sub.push(entries.last()));
            assert(sub.push(entries.last()).map_values(f) =~= sub.map_values(f).push(
                f(entries.last()),
            ));
        } else {
            assert(entries.filter(pred) == sub);
        }
    } else {
        assert(entries.filter(pred) =~= Seq::<TomlEntry>::empty());
        assert(entries.filter(pred).map_values(f) =~= Seq::<Seq<char>>::empty());
    }
}

/// A table lookup finds the value of the first entry with the key, and finds
/// nothing where no entry has it.
pub proof fn lemma_lookup_finds_first_entry(entries: Seq<TomlEntry>, key: Seq<char>, i: int)
    ensures
        0 <= i < entries.len() && entries[i].key@ == key && (forall|j: int|
            0 <= j < i ==> (#[trigger] entries[j]).key@ != key) ==> entry_lookup(entries, key)
            == Some(entries[i].value),
        (forall|j: int| 0 <= j < entries.len() ==> (#[trigger] entries[j]).key@ != key)
            ==> entry_lookup(entries, key) is None,
    decreases entries.len(),
{
    if entries.len() > 0 {
        let t = entries.drop_first();
        lemma_lookup_finds_first_entry(t, key, i - 1);
        if 0 < i < entries.len() && entries[i].key@ == key && (forall|j: int|
            0 <= j < i ==> (#[trigger] entries[j]).key@ != key) {
            assert(entries[0].key@ != key);
            assert(t[i - 1] == entries[i]);
            assert forall|j: int| 0 <= j < i - 1 implies (#[trigger] t[j]).key@ != key by {
                assert(t[j] == entries[j + 1]);
            }
        }
        if forall|j: int| 0 <= j < entries.len() ==> (#[trigger] entries[j]).key@ != key {
            assert(entries[0].key@ != key);
            assert forall|j: int| 0 <= j < t.len() implies (#[trigger] t[j]).key@ != key by {
                assert(t[j] == entries[j + 1]);
            }
        }
    }
}

/// A `view_keys` table can be read whenever each of its entries has no
/// `key` or a string `key`; in particular an empty table can, and gives no
/// keys. A missing section can be read too.
pub proof fn lemma_view_keys_tables_are_readable(doc: TomlValue, entries: Vec<TomlEntry>)
    ensures
        value_lookup(doc, "view_keys"@) == Some(TomlValue::Table(entries)) && (forall|i: int|
            0 <= i < entries@.len() ==> value_lookup((#[trigger] entries@[i]).value, "key"@) is None
                || has_string_key(entries@[i].value)) ==> view_keys_readable(doc),
        entries@.len() == 0 ==> view_keys_of(entries@).len() == 0,
        value_lookup(doc, "view_keys"@) is None ==> view_keys_readable(doc),
{
}

/// A `public_keys` section can be read exactly when it is missing or a table;
/// an empty table gives no keys.
pub proof fn lemma_public_keys_tables_are_readable(doc: TomlValue, entries: Vec<TomlEntry>)
    ensures
        value_lookup(doc, "public_keys"@) == Some(TomlValue::Table(entries)) ==> public_keys_readable(doc),
        value_lookup(doc, "public_keys"@) is None ==> public_keys_readable(doc),
        (value_lookup(doc, "public_keys"@) matches Some(v) && !(v is Table)) ==> !public_keys_readable(doc),
        entries@.len() == 0 ==> public_keys_of(entries@).len() == 0,
{
}

} // verus!
