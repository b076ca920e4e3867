//! A verified parser for a small L-system description language.
//!
//! The crate is organised in three layers:
//! - [`combinator`] holds the parsing engine: a [`combinator::Parser`] trait
//!   for parsers as first-class values, and the primitive combinators
//!   (literal matching, character predicates, repetition, ordered
//!   alternation, result mapping, end-of-input enforcement).
//! - [`model`] holds the data produced by a parse: rewrite rules and the
//!   renderer configuration.
//! - [`grammar`] builds the two concrete sub-languages (a `key = value`
//!   configuration block and `SYMBOL => SYMBOL+` rewrite rules) purely by
//!   composing the combinators.

pub mod combinator;
pub mod config;
pub mod grammar;
pub mod model;

use vstd::prelude::*;

use crate::combinator::at_least;
use crate::combinator::complete;
use crate::combinator::ParseError;
use crate::combinator::Parser;
use crate::config::parse_config;
use crate::config::spec_parse_config;
use crate::grammar::lemma_repeat_rules_equiv;
use crate::grammar::lemma_rule_line_consumes;
use crate::grammar::parse_one_rule;
use crate::grammar::spec_parse_rules;
use crate::model::LSystem;
use crate::model::LSystemRules;
use crate::model::SpecLSystem;

verus! {

/// Declares `std::io::Error` so that it can appear in this crate's
/// signatures; the type is opaque here and only carried through.
#[verifier::external_type_specification]
#[verifier::external_body]
pub struct ExIoError(std::io::Error);

/// Collapses an upstream I/O failure into the one `IO` parse error kind.
pub fn to_parse_error(_io_error: std::io::Error) -> (r: ParseError)
    ensures
        r == ParseError::IO,
{
    ParseError::IO
}

/// The meaning of [`parse`]: the configuration block consumes a prefix of
/// the text, then the rule block must account for the entire remainder — one
/// or more rewrite rules with nothing after the last rule's line terminator.
pub open spec fn spec_parse_text(input: Seq<char>) -> Result<SpecLSystem, ParseError> {
    let c = spec_parse_config(input);
    match spec_parse_rules(c.1) {
        Err(e) => Err(e),
        Ok(p) => if p.1.len() == 0 {
            Ok(SpecLSystem { rules: p.0, render_config: c.0 })
        } else {
            Err(ParseError::TrailingInput)
        },
    }
}

/// Parses a whole L-system description: an optional configuration block
/// followed by the rule block, which must consume the rest of the text
/// exactly (the text ends with the last rule's line terminator). On any
/// failure the innermost parse error surfaces and no partial result is
/// returned.
pub fn parse<'a>(input: &'a str) -> (r: Result<LSystem, ParseError>)
    ensures
        match r {
            Ok(sys) => spec_parse_text(input@) == Ok::<_, ParseError>(sys.deep_view()),
            Err(e) => spec_parse_text(input@) == Err::<SpecLSystem, _>(e),
        },
{
    let (render_config, remaining) = match parse_config(input) {
        Ok(p) => p,
        Err(e) => {
            return Err(e);
        },
    };
    let rule_block = complete(at_least(1, parse_one_rule()));
    proof {
        lemma_rule_line_consumes(&rule_block.p.p);
        lemma_repeat_rules_equiv(&rule_block.p.p, remaining@);
    }
    match rule_block.parse(remaining) {
        Ok((rules, _)) => Ok(
            LSystem { rules: LSystemRules::from_rules(rules), render_config },
        ),
        Err(e) => Err(e),
    }
}

} // verus!
