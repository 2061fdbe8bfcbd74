//! Structured key-value data, as a configuration or a linkfile holds it.

use vstd::prelude::*;
use crate::error::LoadError;

verus! {

/// The value of a key, as far as a configuration or a linkfile is read.
#[derive(Debug)]
pub enum Value {
    /// A string.
    Text(String),
    /// An array. An element that is a string stands with its text, any other
    /// element as `None`.
    Array(Vec<Option<String>>),
    /// A value of any other kind.
    Other,
}

/// Mathematical value of a [`Value`].
pub enum ValueView {
    Text(Seq<char>),
    Array(Seq<Option<Seq<char>>>),
    Other,
}

/// The mathematical value of the elements of an array.
pub open spec fn elements_view(elements: Seq<Option<String>>) -> Seq<Option<Seq<char>>> {
    Seq::new(
        elements.len(),
        |i: int|
            match elements[i] {
                Some(text) => Some(text@),
                None => None,
            },
    )
}

impl View for Value {
    type V = ValueView;

    open spec fn view(&self) -> ValueView {
        match self {
            Value::Text(text) => ValueView::Text(text@),
            Value::Array(elements) => ValueView::Array(elements_view(elements@)),
            Value::Other => ValueView::Other,
        }
    }
}

/// The mathematical value of the items of a document.
pub open spec fn items_view(items: Seq<(String, Value)>) -> Seq<(Seq<char>, ValueView)> {
    Seq::new(items.len(), |i: int| (items[i].0@, items[i].1@))
}

/// The value that the first item with the key `key` holds.
pub open spec fn value_at(items: Seq<(Seq<char>, ValueView)>, key: Seq<char>) -> Option<ValueView>
    decreases items.len(),
{
    if items.len() == 0 {
        None
    } else if items[0].0 == key {
        Some(items[0].1)
    } else {
        value_at(items.drop_first(), key)
    }
}

/// The string that `key` holds, if it holds one.
pub open spec fn text_at(items: Seq<(Seq<char>, ValueView)>, key: Seq<char>) -> Option<Seq<char>> {
    match value_at(items, key) {
        Some(ValueView::Text(text)) => Some(text),
        _ => None,
    }
}

/// The array that `key` holds, if it holds one.
pub open spec fn array_at(items: Seq<(Seq<char>, ValueView)>, key: Seq<char>) -> Option<
    Seq<Option<Seq<char>>>,
> {
    match value_at(items, key) {
        Some(ValueView::Array(elements)) => Some(elements),
        _ => None,
    }
}

/// The value that the first item with the key `key` holds.
pub fn find<'a>(items: &'a Vec<(String, Value)>, key: &str) -> (found: Option<&'a Value>)
    ensures
        match found {
            Some(value) => value_at(items_view(items@), key@) == Some(value@),
            None => value_at(items_view(items@), key@).is_none(),
        },
{
    let wanted = key.to_owned();
    let ghost all = items_view(items@);
    let mut i: usize = 0;
    proof {
        assert(all.skip(0) =~= all);
    }
    while i < items.len()
        invariant
            i <= items.len(),
            wanted@ == key@,
            all == items_view(items@),
            value_at(all, key@) == value_at(all.skip(i as int), key@),
        decreases items.len() - i,
    {
        proof {
            assert(all.skip(i as int)[0] == all[i as int]);
            assert(all.skip(i as int).drop_first() =~= all.skip(i + 1));
        }
        if items[i].0 == wanted {
            return Some(&items[i].1);
        }
        i = i + 1;
    }
    None
}

/// `toml::de::Error`, the error of a text that is no TOML document. Nothing
/// is read from it.
#[verifier::external_type_specification]
#[verifier::external_body]
pub struct ExTomlError(toml::de::Error);

/// What `toml::from_str` makes of `content` as a table: the keys of the top
/// level with their values, in the order in which `content` declares them,
/// or `None` where `content` is not a TOML document.
pub uninterp spec fn toml_document(content: Seq<char>) -> Option<Seq<(Seq<char>, ValueView)>>;

/// `toml::from_str`, for a `toml::Table`. The outcome is a function of
/// `content`; the table hands out its items in the order of their
/// declaration. A string becomes `Text`, an array becomes `Array` with the
/// text of each element that is a string, any other value becomes `Other`.
#[verifier::external_body]
fn toml_from_str(content: &str) -> (parsed: Result<Vec<(String, Value)>, toml::de::Error>)
    ensures
        match parsed {
            Ok(items) => toml_document(content@) == Some(items_view(items@)),
            Err(_) => toml_document(content@).is_none(),
        },
{
    let table: toml::Table = toml::from_str(content)?;
    Ok(table.into_iter().map(|(key, value)| (key, match value {
        toml::Value::String(text) => Value::Text(text),
        toml::Value::Array(elements) => Value::Array(elements.into_iter().map(|element| match element {
            toml::Value::String(text) => Some(text),
            _ => None,
        }).collect()),
        _ => Value::Other,
    })).collect())
}

/// Reads `content` as a document of keys and values.
pub fn parse_document(content: &str) -> (document: Result<Vec<(String, Value)>, LoadError>)
    ensures
        match document {
            Ok(items) => toml_document(content@) == Some(items_view(items@)),
            Err(error) => toml_document(content@).is_none() && error is ConfigParse,
        },
{
    match toml_from_str(content) {
        Ok(items) => Ok(items),
        Err(_) => Err(LoadError::ConfigParse),
    }
}

} // verus!
