//! Access to TOML tables, through the `toml` crate.
use vstd::prelude::*;

verus! {

#[verifier::external_type_specification]
#[verifier::external_body]
#[verifier::reject_recursive_types(K)]
#[verifier::reject_recursive_types(V)]
pub struct ExTomlMap<K, V>(toml::map::Map<K, V>);

#[verifier::external_type_specification]
#[verifier::external_body]
pub struct ExTomlValue(toml::Value);

#[verifier::external_type_specification]
#[verifier::external_body]
pub struct ExTomlDeError(toml::de::Error);

/// What a TOML value is, as far as this library reads it.
pub enum TomlValueView {
    Str(Seq<char>),
    Table(Seq<(Seq<char>, TomlValueView)>),
    Other,
}

/// A TOML value handed out of a table: a string, a nested table, or
/// anything else.
pub enum TomlItem {
    Str(String),
    Table(toml::Table),
    Other,
}

/// The entries of a TOML table in the order the table lists them (by key),
/// nested tables given by their entries.
pub uninterp spec fn table_view(t: toml::Table) -> Seq<(Seq<char>, TomlValueView)>;

/// What parsing a text as a TOML document gives: the document's entries, or
/// `None` when the text is not TOML.
pub uninterp spec fn parse_toml_spec(text: Seq<char>) -> Option<Seq<(Seq<char>, TomlValueView)>>;

/// The TOML text that the `toml` crate writes for a table with these entries.
pub uninterp spec fn toml_render(entries: Seq<(Seq<char>, TomlValueView)>) -> Option<Seq<char>>;

impl TomlItem {
    pub open spec fn view(&self) -> TomlValueView {
        match self {
            TomlItem::Str(s) => TomlValueView::Str(s@),
            TomlItem::Table(t) => TomlValueView::Table(table_view(*t)),
            TomlItem::Other => TomlValueView::Other,
        }
    }
}

/// Key order of TOML tables: code point order on the characters.
pub open spec fn key_lt(a: Seq<char>, b: Seq<char>) -> bool
    decreases a.len(),
{
    if a.len() == 0 {
        b.len() > 0
    } else if b.len() == 0 {
        false
    } else if a[0] != b[0] {
        (a[0] as u32) < (b[0] as u32)
    } else {
        key_lt(a.drop_first(), b.drop_first())
    }
}

/// The entries after `key` is set to `value` in a table whose entries are
/// in key order: an entry with that key is replaced, otherwise the entry is
/// added before the first larger key.
pub open spec fn entries_insert(
    es: Seq<(Seq<char>, TomlValueView)>,
    key: Seq<char>,
    value: TomlValueView,
) -> Seq<(Seq<char>, TomlValueView)>
    decreases es.len(),
{
    if es.len() == 0 {
        seq![(key, value)]
    } else if es[0].0 == key {
        seq![(key, value)] + es.drop_first()
    } else if key_lt(key, es[0].0) {
        seq![(key, value)] + es
    } else {
        seq![es[0]] + entries_insert(es.drop_first(), key, value)
    }
}

/// The value stored under `key`.
pub open spec fn entries_lookup(es: Seq<(Seq<char>, TomlValueView)>, key: Seq<char>) -> Option<
    TomlValueView,
>
    decreases es.len(),
{
    if es.len() == 0 {
        None
    } else if es[0].0 == key {
        Some(es[0].1)
    } else {
        entries_lookup(es.drop_first(), key)
    }
}

/// Every value, at every depth, is a string or a table.
pub open spec fn only_strings_and_tables(es: Seq<(Seq<char>, TomlValueView)>) -> bool
    decreases es,
{
    forall|i: int|
        0 <= i < es.len() ==> match #[trigger] es[i].1 {
            TomlValueView::Str(_) => true,
            TomlValueView::Table(inner) => only_strings_and_tables(inner),
            TomlValueView::Other => false,
        }
}

/// Setting an entry keeps every value a string or a table when the new
/// value is one.
pub proof fn lemma_insert_keeps_strings_and_tables(
    es: Seq<(Seq<char>, TomlValueView)>,
    key: Seq<char>,
    value: TomlValueView,
)
    requires
        only_strings_and_tables(es),
        only_strings_and_tables(seq![(key, value)]),
    ensures
        only_strings_and_tables(entries_insert(es, key, value)),
    decreases es.len(),
{
    let r = entries_insert(es, key, value);
    if es.len() == 0 {
    } else if es[0].0 == key {
        assert forall|i: int| 0 <= i < r.len() implies match #[trigger] r[i].1 {
            TomlValueView::Str(_) => true,
            TomlValueView::Table(inner) => only_strings_and_tables(inner),
            TomlValueView::Other => false,
        } by {
            if i == 0 {
                assert(seq![(key, value)][0] == r[0]);
            } else {
                assert(r[i] == es[i]);
            }
        }
    } else if key_lt(key, es[0].0) {
        assert forall|i: int| 0 <= i < r.len() implies match #[trigger] r[i].1 {
            TomlValueView::Str(_) => true,
            TomlValueView::Table(inner) => only_strings_and_tables(inner),
            TomlValueView::Other => false,
        } by {
            if i == 0 {
                assert(seq![(key, value)][0] == r[0]);
            } else {
                assert(r[i] == es[i - 1]);
            }
        }
    } else {
        let rest = es.drop_first();
        assert forall|i: int| 0 <= i < rest.len() implies match #[trigger] rest[i].1 {
            TomlValueView::Str(_) => true,
            TomlValueView::Table(inner) => only_strings_and_tables(inner),
            TomlValueView::Other => false,
        } by {
            assert(rest[i] == es[i + 1]);
        }
        lemma_insert_keeps_strings_and_tables(rest, key, value);
        let t = entries_insert(rest, key, value);
        assert forall|i: int| 0 <= i < r.len() implies match #[trigger] r[i].1 {
            TomlValueView::Str(_) => true,
            TomlValueView::Table(inner) => only_strings_and_tables(inner),
            TomlValueView::Other => false,
        } by {
            if i == 0 {
                assert(r[0] == es[0]);
            } else {
                assert(r[i] == t[i - 1]);
            }
        }
    }
}

/// Setting a key that the entries do not hold yet adds one entry at some
/// place `p` and leaves the others in their order.
pub proof fn lemma_insert_new_key(
    es: Seq<(Seq<char>, TomlValueView)>,
    key: Seq<char>,
    value: TomlValueView,
) -> (p: int)
    requires
        forall|i: int| 0 <= i < es.len() ==> (#[trigger] es[i]).0 != key,
    ensures
        0 <= p <= es.len(),
        entries_insert(es, key, value) == es.take(p) + seq![(key, value)] + es.skip(p),
    decreases es.len(),
{
    if es.len() == 0 {
        assert(es.take(0) + seq![(key, value)] + es.skip(0) =~= seq![(key, value)]);
        0
    } else {
        assert(es[0].0 != key);
        if key_lt(key, es[0].0) {
            assert(es.take(0) + seq![(key, value)] + es.skip(0) =~= seq![(key, value)] + es);
            0
        } else {
            let rest = es.drop_first();
            assert forall|i: int| 0 <= i < rest.len() implies (#[trigger] rest[i]).0 != key by {
                assert(rest[i] == es[i + 1]);
            }
            let q = lemma_insert_new_key(rest, key, value);
            assert(seq![es[0]] + (rest.take(q) + seq![(key, value)] + rest.skip(q)) =~= es.take(q
                + 1) + seq![(key, value)] + es.skip(q + 1));
            q + 1
        }
    }
}

/// The view of each item of a list.
pub open spec fn items_view(items: Seq<(String, TomlItem)>) -> Seq<(Seq<char>, TomlValueView)> {
    items.map_values(|p: (String, TomlItem)| (p.0@, p.1.view()))
}

/// Calls `str::parse::<toml::Table>` (`toml::from_str`). Claims that the
/// result is the parse named by `parse_toml_spec`, a function of the text.
#[verifier::external_body]
pub(crate) fn parse_toml_table(text: &str) -> (r: Result<toml::Table, toml::de::Error>)
    ensures
        match r {
            Ok(t) => parse_toml_spec(text@) == Some(table_view(t)),
            Err(_) => parse_toml_spec(text@) is None,
        },
{
    text.parse::<toml::Table>()
}

/// Calls `toml::Table::len`; claims that it counts the table's entries.
#[verifier::external_body]
fn table_len(t: &toml::Table) -> (n: usize)
    ensures
        n == table_view(*t).len(),
{
    t.len()
}

/// Calls `toml::Table::iter` and takes the entry at place `i` of the
/// iteration (`Iterator::nth`), handing out its key and its value. Claims
/// that this is the table's entry at place `i` in key order.
#[verifier::external_body]
fn table_entry_at(t: &toml::Table, i: usize) -> (e: (String, TomlItem))
    requires
        i < table_view(*t).len(),
    ensures
        (e.0@, e.1.view()) == table_view(*t)[i as int],
{
    let (key, value) = t.iter().nth(i).unwrap();
    let item = match value {
        toml::Value::String(s) => TomlItem::Str(s.clone()),
        toml::Value::Table(inner) => TomlItem::Table(inner.clone()),
        _ => TomlItem::Other,
    };
    (key.clone(), item)
}

/// The entries of a table, each key with its value, in key order.
pub fn table_items(t: &toml::Table) -> (items: Vec<(String, TomlItem)>)
    ensures
        items_view(items@) == table_view(*t),
{
    let n = table_len(t);
    let mut items: Vec<(String, TomlItem)> = Vec::new();
    let mut i: usize = 0;
    while i < n
        invariant
            n == table_view(*t).len(),
            i <= n,
            items@.len() == i,
            forall|k: int|
                0 <= k < i ==> ((#[trigger] items@[k]).0@, items@[k].1.view()) == table_view(*t)[k],
        decreases n - i,
    {
        let e = table_entry_at(t, i);
        items.push(e);
        i += 1;
    }
    assert(items_view(items@) =~= table_view(*t));
    items
}

/// Calls `toml::Table::get`. Claims that the value found is the one the
/// table's entries hold under `key`.
#[verifier::external_body]
pub(crate) fn table_get(t: &toml::Table, key: &str) -> (r: Option<TomlItem>)
    ensures
        match r {
            Some(item) => entries_lookup(table_view(*t), key@) == Some(item.view()),
            None => entries_lookup(table_view(*t), key@) is None,
        },
{
    match t.get(key) {
        Some(toml::Value::String(s)) => Some(TomlItem::Str(s.clone())),
        Some(toml::Value::Table(inner)) => Some(TomlItem::Table(inner.clone())),
        Some(_) => Some(TomlItem::Other),
        None => None,
    }
}

/// Calls `toml::Table::new`; claims the table is empty.
#[verifier::external_body]
pub(crate) fn table_new() -> (t: toml::Table)
    ensures
        table_view(t) == Seq::<(Seq<char>, TomlValueView)>::empty(),
{
    toml::Table::new()
}

/// Calls `toml::Table::insert` with a string value. Claims that the entry
/// is set in key order.
#[verifier::external_body]
pub(crate) fn table_insert_str(t: &mut toml::Table, key: String, value: String)
    ensures
        table_view(*final(t)) == entries_insert(
            table_view(*old(t)),
            key@,
            TomlValueView::Str(value@),
        ),
{
    t.insert(key, toml::Value::String(value));
}

/// Calls `toml::Table::insert` with a table value. Claims that the entry is
/// set in key order.
#[verifier::external_body]
pub(crate) fn table_insert_table(t: &mut toml::Table, key: String, value: toml::Table)
    ensures
        table_view(*final(t)) == entries_insert(
            table_view(*old(t)),
            key@,
            TomlValueView::Table(table_view(value)),
        ),
{
    t.insert(key, toml::Value::Table(value));
}

/// Calls `toml::to_string` on a table of strings and tables. Claims the
/// text is the one named by `toml_render` for the table's entries (such a
/// table is given entirely by its entries); `None` when serialising fails.
#[verifier::external_body]
pub(crate) fn table_to_string(t: &toml::Table) -> (r: Option<String>)
    requires
        only_strings_and_tables(table_view(*t)),
    ensures
        match r {
            Some(s) => toml_render(table_view(*t)) == Some(s@),
            None => toml_render(table_view(*t)) is None,
        },
{
    toml::to_string(t).ok()
}

} // verus!
