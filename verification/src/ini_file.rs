//! INI documents are read by the `ini` crate. What its parser and its
//! lookups return is taken on trust from that crate's source; the rules that
//! this daemon applies to a document are verified on top of it.

use crate::text::strip_prefix;
use ini::{Ini, ParseError, Properties};
use vstd::prelude::*;

verus! {

/// `ini::Ini`, a parsed document. Nothing is known of it but what the
/// functions below say.
#[verifier::external_type_specification]
#[verifier::external_body]
pub struct ExIni(Ini);

/// `ini::Properties`, the keys and values of one section.
#[verifier::external_type_specification]
#[verifier::external_body]
pub struct ExProperties(Properties);

/// `ini::ParseError`, the parser's complaint about a text. It is never
/// looked into.
#[verifier::external_type_specification]
#[verifier::external_body]
pub struct ExParseError(ParseError);

/// The values of each key of a section, in the order they were written.
pub type KeyValues = Map<Seq<char>, Seq<Seq<char>>>;

/// For each key of a section, its values in the order they were added. A key
/// that is present has at least one value.
pub uninterp spec fn section_values(section: Properties) -> KeyValues;

/// For each section name of a document, the keys and values of the first
/// section of that name.
pub uninterp spec fn document_sections(document: Ini) -> Map<Seq<char>, KeyValues>;

/// What the parser makes of a text: the sections of the document, or `None`
/// where the text is refused.
pub uninterp spec fn parsed_sections(text: Seq<char>) -> Option<Map<Seq<char>, KeyValues>>;

/// `Ini::load_from_str`: the document that the text spells, or the parser's
/// error. The outcome depends on the text alone.
#[verifier::external_body]
fn parse_document(text: &str) -> (r: Result<Ini, ParseError>)
    ensures
        match r {
            Ok(document) => parsed_sections(text@) == Some(document_sections(document)),
            Err(_) => parsed_sections(text@) is None,
        },
{
    Ini::load_from_str(text)
}

/// `Ini::section` with a name: the first section of that name, or `None`
/// where the document has none.
#[verifier::external_body]
pub(crate) fn find_section<'a>(document: &'a Ini, name: &str) -> (r: Option<&'a Properties>)
    ensures
        match r {
            Some(section) => document_sections(*document).contains_key(name@)
                && document_sections(*document)[name@] == section_values(*section),
            None => !document_sections(*document).contains_key(name@),
        },
{
    document.section(Some(name))
}

/// `Properties::get`: the first value of the key, or `None` where the
/// section lacks the key.
#[verifier::external_body]
pub(crate) fn first_value<'a>(section: &'a Properties, key: &str) -> (r: Option<&'a str>)
    ensures
        match r {
            Some(value) => section_values(*section).contains_key(key@) && section_values(
                *section,
            )[key@].len() > 0 && section_values(*section)[key@][0] == value@,
            None => !section_values(*section).contains_key(key@),
        },
{
    section.get(key)
}

/// `Properties::get_all`: every value of the key in the order they were
/// added; none where the section lacks the key.
#[verifier::external_body]
pub(crate) fn all_values(section: &Properties, key: &str) -> (r: Vec<String>)
    ensures
        r@.len() == values_of(section_values(*section), key@).len(),
        forall|i: int| 0 <= i < r@.len() ==> (#[trigger] r@[i])@ == values_of(
            section_values(*section),
            key@,
        )[i],
{
    section.get_all(key).map(String::from).collect()
}

/// The values under a key, none where the key is absent.
pub open spec fn values_of(section: KeyValues, key: Seq<char>) -> Seq<Seq<char>> {
    if section.contains_key(key) {
        section[key]
    } else {
        Seq::empty()
    }
}

/// The first value under a key.
pub open spec fn value_of(section: KeyValues, key: Seq<char>) -> Option<Seq<char>> {
    if section.contains_key(key) && section[key].len() > 0 {
        Some(section[key][0])
    } else {
        None
    }
}

/// A file's text without the byte-order mark that may stand at its
/// beginning.
pub open spec fn without_bom(text: Seq<char>) -> Seq<char> {
    if text.len() > 0 && text[0] == '\u{feff}' {
        text.skip(1)
    } else {
        text
    }
}

/// What the parser makes of a file's text: a byte-order mark at the
/// beginning is passed over, the rest is parsed.
pub open spec fn loaded_sections(text: Seq<char>) -> Option<Map<Seq<char>, KeyValues>> {
    parsed_sections(without_bom(text))
}

/// The document that a file's text spells, `None` where the parser refuses
/// it. A byte-order mark at the beginning of the text is passed over.
pub fn load_document(text: &str) -> (r: Option<Ini>)
    ensures
        match r {
            Some(document) => loaded_sections(text@) == Some(document_sections(document)),
            None => loaded_sections(text@) is None,
        },
{
    proof {
        reveal_strlit("\u{feff}");
    }
    let body = match strip_prefix(text, "\u{feff}") {
        Some(rest) => {
            proof {
                assert(text@[0] == ("\u{feff}"@ + rest@)[0]);
                assert(rest@ =~= text@.skip(1));
            }
            rest
        },
        None => {
            proof {
                if text@.len() > 0 && text@[0] == '\u{feff}' {
                    assert("\u{feff}"@ =~= text@.subrange(0, 1));
                }
            }
            text
        },
    };
    match parse_document(body) {
        Ok(document) => Some(document),
        Err(_) => None,
    }
}

} // verus!
