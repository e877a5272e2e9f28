use vstd::prelude::*;
use crate::error::Error;
use crate::identifier::Identifier;
use crate::type_definition::{Structure, TypeDefinition};
use crate::attribute::Attributes;
use crate::visibility::Visibility;

verus! {

/// The texts the source language accepts as an identifier.
pub uninterp spec fn is_identifier_text(s: Seq<char>) -> bool;

/// Relies on syn::parse_str::<syn::Ident>: it accepts exactly the texts
/// that parse as one identifier, and acceptance depends on the text
/// alone; the accepted text is handed back unchanged.
#[verifier::external_body]
fn parse_identifier_text(input: &str) -> (r: Option<String>)
    ensures
        r matches Some(s) ==> s@ == input@ && is_identifier_text(input@),
        r is None ==> !is_identifier_text(input@),
{
    match syn::parse_str::<syn::Ident>(input) {
        Ok(_) => Some(input.to_string()),
        Err(_) => None,
    }
}

/// Parses identifiers out of source text.
#[derive(Debug)]
pub struct IdentifierParser;

impl IdentifierParser {
    /// An identifier with the given text, when the source language
    /// accepts the text as one.
    pub fn parse(&self, input: &str) -> (r: Result<Identifier, Error>)
        ensures
            r is Ok <==> is_identifier_text(input@),
            r matches Ok(id) ==> id@ == input@,
    {
        match parse_identifier_text(input) {
            Some(name) => Ok(Identifier { name }),
            None => Err(Error::Message(String::from_str("failed to parse identifier"))),
        }
    }
}

/// Parses a class-like symbol into a bare type definition: the named
/// structure, with no fields known yet.
#[derive(Debug)]
pub struct SymbolParser;

impl SymbolParser {
    /// A definition carrying just the symbol's name.
    pub fn parse(&self, name: &str) -> (r: Result<TypeDefinition, Error>)
        ensures
            r is Ok <==> is_identifier_text(name@),
            r matches Ok(d) ==> (d matches TypeDefinition::Structure(s) && s.identifier@ == name@
                && s.fields@.len() == 0),
    {
        let identifier = match IdentifierParser.parse(name) {
            Ok(identifier) => identifier,
            Err(e) => {
                return Err(e);
            },
        };
        Ok(
            TypeDefinition::Structure(
                Structure {
                    attributes: Attributes::empty(),
                    visibility: Visibility::Public,
                    identifier,
                    fields: Vec::new(),
                },
            ),
        )
    }
}

} // verus!
