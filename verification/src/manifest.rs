//! Reading a value out of a TOML manifest. The `toml` crate reads the text;
//! this module walks what it has read.

use vstd::prelude::*;

verus! {

/// `toml::Value`: a value of a TOML document. Nothing of its inside is
/// known here; what it holds is spoken of through `toml_strings`.
#[verifier::external_type_specification]
#[verifier::external_body]
pub struct ExTomlValue(toml::Value);

/// The strings that a TOML value holds, each under the keys that lead to it
/// through tables: a string itself holds one string under no key, and a table
/// holds under `k` followed by `keys` what its value for `k` holds under
/// `keys`.
pub uninterp spec fn toml_strings(value: toml::Value) -> Map<Seq<Seq<char>>, Seq<char>>;

/// The strings of the TOML document that a text is, as `toml_strings` gives
/// them, or `None` where the text is no TOML document.
pub uninterp spec fn toml_document(content: Seq<char>) -> Option<Map<Seq<Seq<char>>, Seq<char>>>;

/// The strings that stand under `key` in `strings`, each under the rest of
/// its keys.
pub open spec fn strings_under(
    strings: Map<Seq<Seq<char>>, Seq<char>>,
    key: Seq<char>,
) -> Map<Seq<Seq<char>>, Seq<char>> {
    Map::new(
        |keys: Seq<Seq<char>>| strings.contains_key(seq![key] + keys),
        |keys: Seq<Seq<char>>| strings[seq![key] + keys],
    )
}

/// The string under `keys`, if there is one.
pub open spec fn string_at(
    strings: Map<Seq<Seq<char>>, Seq<char>>,
    keys: Seq<Seq<char>>,
) -> Option<Seq<char>> {
    if strings.contains_key(keys) {
        Some(strings[keys])
    } else {
        None
    }
}

/// `toml::from_str` for a `toml::Value`: reads a text as a TOML document.
/// Believed of `toml`, not proved: whether and as what a text is read depends
/// on the text alone.
#[verifier::external_body]
pub(crate) fn parse_toml(content: &str) -> (value: Option<toml::Value>)
    ensures
        match value {
            Some(v) => toml_document(content@) == Some(toml_strings(v)),
            None => toml_document(content@) is None,
        },
{
    toml::from_str::<toml::Value>(content).ok()
}

/// `toml::Value::get` with a string: the value of a table for a key.
/// Believed of `toml`, not proved: it returns the value for the key where the
/// value is a table that has the key, and `None` otherwise.
#[verifier::external_body]
pub(crate) fn toml_get<'a>(value: &'a toml::Value, key: &str) -> (child: Option<&'a toml::Value>)
    ensures
        match child {
            Some(c) => toml_strings(*c) == strings_under(toml_strings(*value), key@),
            None => strings_under(toml_strings(*value), key@) == Map::<
                Seq<Seq<char>>,
                Seq<char>,
            >::empty(),
        },
{
    value.get(key)
}

/// `toml::Value::as_str`: the string of a value that is a string, `None` for
/// any other value. Believed of `toml`, not proved.
#[verifier::external_body]
pub(crate) fn toml_as_str<'a>(value: &'a toml::Value) -> (text: Option<&'a str>)
    ensures
        match text {
            Some(s) => string_at(toml_strings(*value), Seq::empty()) == Some(s@),
            None => string_at(toml_strings(*value), Seq::empty()) is None,
        },
{
    value.as_str()
}

/// The string that a TOML value holds under `first` and then `second`.
pub fn string_at_two(value: &toml::Value, first: &str, second: &str) -> (text: Option<String>)
    ensures
        match text {
            Some(s) => string_at(toml_strings(*value), seq![first@, second@]) == Some(s@),
            None => string_at(toml_strings(*value), seq![first@, second@]) is None,
        },
{
    let ghost all = toml_strings(*value);
    let ghost keys = seq![first@, second@];
    proof {
        assert(seq![first@] + seq![second@] =~= keys);
        assert(seq![second@] + Seq::<Seq<char>>::empty() =~= seq![second@]);
    }
    match toml_get(value, first) {
        None => {
            proof {
                assert(!strings_under(all, first@).contains_key(seq![second@]));
            }
            None
        },
        Some(table) => match toml_get(table, second) {
            None => {
                proof {
                    assert(!strings_under(toml_strings(*table), second@).contains_key(
                        Seq::<Seq<char>>::empty(),
                    ));
                    assert(toml_strings(*table).contains_key(seq![second@]) == all.contains_key(
                        keys,
                    ));
                }
                None
            },
            Some(item) => {
                proof {
                    assert(toml_strings(*item).contains_key(Seq::<Seq<char>>::empty())
                        == toml_strings(*table).contains_key(seq![second@]));
                    assert(toml_strings(*table).contains_key(seq![second@]) == all.contains_key(
                        keys,
                    ));
                }
                match toml_as_str(item) {
                    None => None,
                    Some(s) => Some(s.to_owned()),
                }
            },
        },
    }
}

/// The string that a TOML value holds under `first`, `second` and then
/// `third`.
pub fn string_at_three(
    value: &toml::Value,
    first: &str,
    second: &str,
    third: &str,
) -> (text: Option<String>)
    ensures
        match text {
            Some(s) => string_at(toml_strings(*value), seq![first@, second@, third@]) == Some(s@),
            None => string_at(toml_strings(*value), seq![first@, second@, third@]) is None,
        },
{
    let ghost all = toml_strings(*value);
    let ghost keys = seq![first@, second@, third@];
    proof {
        assert(seq![first@] + seq![second@, third@] =~= keys);
    }
    match toml_get(value, first) {
        None => {
            proof {
                assert(!strings_under(all, first@).contains_key(seq![second@, third@]));
            }
            None
        },
        Some(table) => {
            proof {
                assert(toml_strings(*table).contains_key(seq![second@, third@])
                    == all.contains_key(keys));
            }
            string_at_two(table, second, third)
        },
    }
}

} // verus!
