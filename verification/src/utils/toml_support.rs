//! TOML documents (parsed by the `toml` crate) as the configuration readers
//! see them: strings, booleans, arrays and tables, anything else opaque.

use vstd::prelude::*;

use crate::utils::text::str_eq;

verus! {

/// `toml::Value`, declared so that it can be taken apart.
#[verifier::external_type_specification]
#[verifier::external_body]
pub struct ExTomlValue(toml::Value);

/// A TOML value. A table's entries come in key order.
#[derive(Debug)]
pub enum TomlValue {
    Str(String),
    Boolean(bool),
    Array(Vec<TomlValue>),
    Table(Vec<(String, TomlValue)>),
    /// An integer, float or datetime.
    Other,
}

/// A TOML value as values.
pub enum TomlView {
    Str(Seq<char>),
    Boolean(bool),
    Array(Seq<TomlView>),
    Table(Seq<(Seq<char>, TomlView)>),
    Other,
}

/// The view of a TOML value.
pub open spec fn toml_view(v: TomlValue) -> TomlView
    decreases v,
{
    match v {
        TomlValue::Str(s) => TomlView::Str(s@),
        TomlValue::Boolean(b) => TomlView::Boolean(b),
        TomlValue::Array(items) => TomlView::Array(toml_views(items@)),
        TomlValue::Table(entries) => TomlView::Table(entry_views(entries@)),
        TomlValue::Other => TomlView::Other,
    }
}

/// The views of some TOML values.
pub open spec fn toml_views(vs: Seq<TomlValue>) -> Seq<TomlView>
    decreases vs,
{
    if vs.len() == 0 {
        Seq::empty()
    } else {
        toml_views(vs.subrange(0, vs.len() - 1)).push(toml_view(vs[vs.len() - 1]))
    }
}

/// The views of some table entries.
pub open spec fn entry_views(es: Seq<(String, TomlValue)>) -> Seq<(Seq<char>, TomlView)>
    decreases es,
{
    if es.len() == 0 {
        Seq::empty()
    } else {
        entry_views(es.subrange(0, es.len() - 1)).push(
            (es[es.len() - 1].0@, toml_view(es[es.len() - 1].1)),
        )
    }
}

/// What `toml::from_str::<toml::Value>` makes of a document: `None` when it
/// does not parse.
pub uninterp spec fn toml_document(text: Seq<char>) -> Option<TomlView>;

/// Converts a `toml::Value` into the library's model, variant by variant.
#[verifier::external_body]
fn from_toml(v: toml::Value) -> TomlValue {
    match v {
        toml::Value::String(s) => TomlValue::Str(s),
        toml::Value::Boolean(b) => TomlValue::Boolean(b),
        toml::Value::Array(a) => TomlValue::Array(a.into_iter().map(from_toml).collect()),
        toml::Value::Table(t) => TomlValue::Table(t.into_iter().map(|(k, x)| (k, from_toml(x))).collect()),
        _ => TomlValue::Other,
    }
}

/// Calls `toml::from_str::<toml::Value>(text)`. The contract claims only
/// that the document is determined by the text.
#[verifier::external_body]
pub(crate) fn parse_toml(text: &str) -> (r: Option<TomlValue>)
    ensures
        match (r, toml_document(text@)) {
            (None, None) => true,
            (Some(v), Some(w)) => toml_view(v) == w,
            _ => false,
        },
{
    match toml::from_str::<toml::Value>(text) {
        Ok(v) => Some(from_toml(v)),
        Err(_) => None,
    }
}

/// The value under `key` in a table (the first entry with that key).
pub open spec fn table_get(entries: Seq<(Seq<char>, TomlView)>, key: Seq<char>) -> Option<TomlView>
    decreases entries.len(),
{
    if entries.len() == 0 {
        None
    } else if entries[0].0 == key {
        Some(entries[0].1)
    } else {
        table_get(entries.drop_first(), key)
    }
}

/// The value under `key` when `v` is a table.
pub open spec fn spec_get(v: TomlView, key: Seq<char>) -> Option<TomlView> {
    match v {
        TomlView::Table(entries) => table_get(entries, key),
        _ => None,
    }
}

/// The string elements of an array, in order.
pub open spec fn array_strings(items: Seq<TomlView>) -> Seq<Seq<char>>
    decreases items.len(),
{
    if items.len() == 0 {
        Seq::empty()
    } else {
        let rest = array_strings(items.drop_last());
        match items.last() {
            TomlView::Str(s) => rest.push(s),
            _ => rest,
        }
    }
}

/// The value under `key` when `v` is a table.
pub fn toml_get<'a>(v: &'a TomlValue, key: &str) -> (r: Option<&'a TomlValue>)
    ensures
        match r {
            None => spec_get(toml_view(*v), key@) is None,
            Some(x) => spec_get(toml_view(*v), key@) == Some(toml_view(*x)),
        },
{
    match v {
        TomlValue::Table(entries) => {
            let ghost ev = entry_views(entries@);
            proof {
                lemma_entry_views_len(entries@);
            }
            let mut i: usize = 0;
            assert(ev.skip(0) =~= ev);
            assert(toml_view(*v) == TomlView::Table(ev));
            while i < entries.len()
                invariant
                    toml_view(*v) == TomlView::Table(ev),
                    ev == entry_views(entries@),
                    ev.len() == entries@.len(),
                    i <= entries.len(),
                    table_get(ev, key@) == table_get(ev.skip(i as int), key@),
                decreases entries.len() - i,
            {
                proof {
                    lemma_entry_views_index(entries@, i as int);
                }
                assert(ev.skip(i as int)[0] == ev[i as int]);
                if str_eq(entries[i].0.as_str(), key) {
                    assert(table_get(ev.skip(i as int), key@) == Some(ev[i as int].1));
                    return Some(&entries[i].1);
                }
                assert(ev.skip(i as int).drop_first() =~= ev.skip(i + 1));
                i = i + 1;
            }
            assert(ev.skip(i as int).len() == 0);
            None
        },
        _ => None,
    }
}

/// The string elements of an array value (none for any other value), or
/// `None` when the value is not an array.
pub fn toml_strings(v: &TomlValue) -> (r: Option<Vec<String>>)
    ensures
        match toml_view(*v) {
            TomlView::Array(items) => r is Some && crate::utils::text::string_views(r->0@)
                == array_strings(items),
            _ => r is None,
        },
{
    match v {
        TomlValue::Array(items) => {
            let ghost iv = toml_views(items@);
            proof {
                lemma_toml_views_len(items@);
            }
            let mut out: Vec<String> = Vec::new();
            assert(toml_view(*v) == TomlView::Array(iv));
            for i in 0..items.len()
                invariant
                    toml_view(*v) == TomlView::Array(iv),
                    iv == toml_views(items@),
                    iv.len() == items@.len(),
                    crate::utils::text::string_views(out@) == array_strings(iv.take(i as int)),
            {
                proof {
                    lemma_toml_views_index(items@, i as int);
                }
                assert(iv.take(i + 1).drop_last() =~= iv.take(i as int));
                assert(iv.take(i + 1).last() == toml_view(items@[i as int]));
                if let TomlValue::Str(s) = &items[i] {
                    let ghost before = crate::utils::text::string_views(out@);
                    out.push(s.clone());
                    assert(crate::utils::text::string_views(out@) =~= before.push(s@));
                }
            }
            assert(iv.take(items.len() as int) =~= iv);
            Some(out)
        },
        _ => None,
    }
}

/// A boolean value.
pub fn toml_bool(v: &TomlValue) -> (r: Option<bool>)
    ensures
        match toml_view(*v) {
            TomlView::Boolean(b) => r == Some(b),
            _ => r is None,
        },
{
    match v {
        TomlValue::Boolean(b) => Some(*b),
        _ => None,
    }
}

/// A string value.
pub fn toml_str(v: &TomlValue) -> (r: Option<&String>)
    ensures
        match toml_view(*v) {
            TomlView::Str(s) => r is Some && r->0@ == s,
            _ => r is None,
        },
{
    match v {
        TomlValue::Str(s) => Some(s),
        _ => None,
    }
}

/// The elements of an array value.
pub fn toml_items(v: &TomlValue) -> (r: Option<&Vec<TomlValue>>)
    ensures
        match toml_view(*v) {
            TomlView::Array(items) => r is Some && toml_views(r->0@) == items,
            _ => r is None,
        },
{
    match v {
        TomlValue::Array(items) => Some(items),
        _ => None,
    }
}

/// The entries of a table value.
pub fn toml_entries(v: &TomlValue) -> (r: Option<&Vec<(String, TomlValue)>>)
    ensures
        match toml_view(*v) {
            TomlView::Table(entries) => r is Some && entry_views(r->0@) == entries,
            _ => r is None,
        },
{
    match v {
        TomlValue::Table(entries) => Some(entries),
        _ => None,
    }
}

pub proof fn lemma_toml_views_len(vs: Seq<TomlValue>)
    ensures
        toml_views(vs).len() == vs.len(),
    decreases vs.len(),
{
    if vs.len() > 0 {
        lemma_toml_views_len(vs.subrange(0, vs.len() - 1));
    }
}

pub proof fn lemma_toml_views_index(vs: Seq<TomlValue>, i: int)
    requires
        0 <= i < vs.len(),
    ensures
        toml_views(vs)[i] == toml_view(vs[i]),
    decreases vs.len(),
{
    lemma_toml_views_len(vs);
    if i < vs.len() - 1 {
        lemma_toml_views_len(vs.subrange(0, vs.len() - 1));
        lemma_toml_views_index(vs.subrange(0, vs.len() - 1), i);
    }
}

pub proof fn lemma_entry_views_len(es: Seq<(String, TomlValue)>)
    ensures
        entry_views(es).len() == es.len(),
    decreases es.len(),
{
    if es.len() > 0 {
        lemma_entry_views_len(es.subrange(0, es.len() - 1));
    }
}

pub proof fn lemma_entry_views_index(es: Seq<(String, TomlValue)>, i: int)
    requires
        0 <= i < es.len(),
    ensures
        entry_views(es)[i] == (es[i].0@, toml_view(es[i].1)),
    decreases es.len(),
{
    lemma_entry_views_len(es);
    if i < es.len() - 1 {
        lemma_entry_views_len(es.subrange(0, es.len() - 1));
        lemma_entry_views_index(es.subrange(0, es.len() - 1), i);
    }
}

} // verus!
