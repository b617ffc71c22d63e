//! The apps that `localconfig.vdf` lists.
//!
//! The file is VDF text. Parsing it is left to `keyvalues_parser`. Whether
//! the parser accepts a text depends on more than the text (it gives up
//! where its budget of calls or the stack of the thread runs out), so
//! nothing is claimed of what it makes of a given text. What a parsed value
//! holds is taken on trust and is stated here over a model of the value.
//! Finding the apps in a parsed value is the library's own work: they are
//! the keys of the object under `Software`, `Valve`, `Steam`, `apps`.

use crate::error::VdfError;
use vstd::prelude::*;

verus! {

/// `keyvalues_parser::Value`, a value of parsed VDF text.
#[verifier::external_type_specification]
#[verifier::external_body]
pub struct ExTextValue<'a>(keyvalues_parser::Value<'a>);

/// What a value of VDF text holds: a string, or an object, which is a list
/// of keys with the values that stand under each key.
pub enum TextValueView {
    Str(Seq<char>),
    Obj(Seq<TextPairView>),
}

/// A key of an object of VDF text and the values under it.
pub struct TextPairView {
    pub key: Seq<char>,
    pub values: Seq<TextValueView>,
}

/// What a value of `keyvalues_parser` holds. The pairs of an object stand
/// in the order in which its map hands them out.
pub uninterp spec fn text_model(value: keyvalues_parser::Value) -> TextValueView;

/// The values under the first of `pairs` with the key `key`.
pub open spec fn values_of_pair(pairs: Seq<TextPairView>, key: Seq<char>) -> Option<
    Seq<TextValueView>,
>
    decreases pairs.len(),
{
    if pairs.len() == 0 {
        None
    } else if pairs[0].key == key {
        Some(pairs[0].values)
    } else {
        values_of_pair(pairs.drop_first(), key)
    }
}

/// The values that the object `value` holds under `key`: those of its first
/// pair with that key. A string holds none, and an object without the key
/// holds none.
pub open spec fn values_under(value: TextValueView, key: Seq<char>) -> Option<Seq<TextValueView>> {
    match value {
        TextValueView::Obj(pairs) => values_of_pair(pairs, key),
        TextValueView::Str(_) => None,
    }
}

/// The first of the values that `value` holds under `key`, where it holds
/// one.
pub open spec fn first_under(value: TextValueView, key: Seq<char>) -> Option<TextValueView> {
    match values_under(value, key) {
        Some(values) => if values.len() > 0 {
            Some(values[0])
        } else {
            None
        },
        None => None,
    }
}

/// What a list of values of `keyvalues_parser` holds.
pub open spec fn models_of(values: Seq<keyvalues_parser::Value>) -> Seq<TextValueView> {
    Seq::new(values.len(), |i: int| text_model(values[i]))
}

/// The keys of the pairs of `value`, in order, where `value` is an object.
pub open spec fn keys_of(value: TextValueView) -> Option<Seq<Seq<char>>> {
    match value {
        TextValueView::Obj(pairs) => Some(Seq::new(pairs.len(), |i: int| pairs[i].key)),
        TextValueView::Str(_) => None,
    }
}

/// The texts that a list of strings stands for.
pub open spec fn texts_of(strings: Seq<String>) -> Seq<Seq<char>> {
    Seq::new(strings.len(), |i: int| strings[i]@)
}

/// `Vdf::parse` of `keyvalues_parser`: the value of the pair that `text`
/// consists of, or nothing where the parser gives up. Nothing is claimed of
/// the result: the parser's answer depends on its budget of calls and on
/// the stack that the thread has left, not on the text alone.
#[verifier::external_body]
fn parse_text_vdf(text: &str) -> (root: Option<keyvalues_parser::Value<'_>>) {
    match keyvalues_parser::Vdf::parse(text) {
        Ok(document) => Some(document.value),
        Err(_) => None,
    }
}

/// `Value::get_obj` of `keyvalues_parser` and the lookup in the map that it
/// gives: the values that the object `value` holds under `key`, or nothing
/// where `value` is a string or has no pair with that key.
#[verifier::external_body]
fn text_values<'a>(value: &'a keyvalues_parser::Value<'_>, key: &str) -> (values: Option<
    &'a Vec<keyvalues_parser::Value<'a>>,
>)
    ensures
        match values {
            Some(values) => values_under(text_model(*value), key@) == Some(models_of(values@)),
            None => values_under(text_model(*value), key@) is None,
        },
{
    value.get_obj().and_then(|object| object.get(key))
}

/// The first of the values that `value` holds under `key`.
fn text_child<'a>(value: &'a keyvalues_parser::Value<'_>, key: &str) -> (child: Option<
    &'a keyvalues_parser::Value<'a>,
>)
    ensures
        match child {
            Some(child) => first_under(text_model(*value), key@) == Some(text_model(*child)),
            None => first_under(text_model(*value), key@) is None,
        },
{
    match text_values(value, key) {
        Some(values) => {
            if values.len() > 0 {
                assert(models_of(values@)[0] == text_model(values@[0]));
                Some(&values[0])
            } else {
                None
            }
        },
        None => None,
    }
}

/// `Value::get_obj` of `keyvalues_parser` and the keys of the map that it
/// gives: the keys of the object `value`, in the order of its pairs, or
/// nothing where `value` is a string.
#[verifier::external_body]
fn text_keys(value: &keyvalues_parser::Value<'_>) -> (keys: Option<Vec<String>>)
    ensures
        match keys {
            Some(keys) => keys_of(text_model(*value)) == Some(texts_of(keys@)),
            None => keys_of(text_model(*value)) is None,
        },
{
    match value.get_obj() {
        Some(object) => Some(object.keys().map(|key| key.to_string()).collect()),
        None => None,
    }
}

/// The ids of the apps that parsed text lists: the keys of the object
/// under `Software`, `Valve`, `Steam`, `apps`. A key of that chain that is
/// absent, or that holds no object, is a missing key.
pub open spec fn listed_apps(root: TextValueView) -> Result<Seq<Seq<char>>, VdfError> {
    match first_under(root, "Software"@) {
        None => Err(VdfError::MissingKey),
        Some(software) => match first_under(software, "Valve"@) {
            None => Err(VdfError::MissingKey),
            Some(valve) => match first_under(valve, "Steam"@) {
                None => Err(VdfError::MissingKey),
                Some(steam) => match first_under(steam, "apps"@) {
                    None => Err(VdfError::MissingKey),
                    Some(apps) => match keys_of(apps) {
                        None => Err(VdfError::MissingKey),
                        Some(keys) => Ok(keys),
                    },
                },
            },
        },
    }
}

/// Finds the ids of the apps in a parsed `localconfig.vdf`.
pub fn app_ids_in(root: &keyvalues_parser::Value<'_>) -> (apps: Result<Vec<String>, VdfError>)
    ensures
        match apps {
            Ok(apps) => listed_apps(text_model(*root)) == Ok::<Seq<Seq<char>>, VdfError>(
                texts_of(apps@),
            ),
            Err(error) => listed_apps(text_model(*root)) == Err::<Seq<Seq<char>>, VdfError>(error),
        },
{
    let software = match text_child(root, "Software") {
        Some(software) => software,
        None => {
            return Err(VdfError::MissingKey);
        },
    };
    let valve = match text_child(software, "Valve") {
        Some(valve) => valve,
        None => {
            return Err(VdfError::MissingKey);
        },
    };
    let steam = match text_child(valve, "Steam") {
        Some(steam) => steam,
        None => {
            return Err(VdfError::MissingKey);
        },
    };
    let apps = match text_child(steam, "apps") {
        Some(apps) => apps,
        None => {
            return Err(VdfError::MissingKey);
        },
    };
    match text_keys(apps) {
        Some(keys) => Ok(keys),
        None => Err(VdfError::MissingKey),
    }
}

/// Reads the ids of the apps that the text of a `localconfig.vdf` lists.
/// What comes back is the list of apps of some parsed value, or one of two
/// errors: malformed text where the parser gives none, a missing key where
/// the parsed value lacks the chain of keys.
pub fn read_localconfig_vdf(contents: &str) -> (apps: Result<Vec<String>, VdfError>)
    ensures
        match apps {
            Ok(apps) => exists|root: TextValueView|
                listed_apps(root) == Ok::<Seq<Seq<char>>, VdfError>(texts_of(apps@)),
            Err(error) => error == VdfError::MalformedText || error == VdfError::MissingKey,
        },
{
    match parse_text_vdf(contents) {
        Some(root) => app_ids_in(&root),
        None => Err(VdfError::MalformedText),
    }
}

} // verus!
