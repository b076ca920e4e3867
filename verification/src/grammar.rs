//! The two concrete sub-languages, built by composing the combinators: a
//! `key = value` configuration block introduced by a `render:` marker, and a
//! sequence of `SYMBOL => SYMBOL+` rewrite rules.
//!
//! Both are line-oriented. Each production for one line first skips any
//! whitespace (so indentation and blank lines between lines are tolerated),
//! and then runs its steps in order, each step skipping leading inline
//! whitespace (spaces and tabs), so that a line's terminator still has its
//! line break to match. Every production's meaning is a plain specification
//! function, and each parser's contract ties the executable composition to
//! it exactly.

use vstd::prelude::*;

use crate::combinator::at_least;
use crate::combinator::character;
use crate::combinator::consumes;
use crate::combinator::ignore_leading_ws;
use crate::combinator::is_suffix_of;
use crate::combinator::lemma_skip_is_suffix;
use crate::combinator::lemma_skip_ws_suffix;
use crate::combinator::lemma_suffix_trans;
use crate::combinator::literal;
use crate::combinator::one_of;
use crate::combinator::skip_all_ws;
use crate::combinator::spec_character;
use crate::combinator::spec_literal;
use crate::combinator::spec_one_of;
use crate::combinator::spec_repeat;
use crate::combinator::spec_skip_inline_ws;
use crate::combinator::spec_skip_ws;
use crate::combinator::AtLeast;
use crate::combinator::CharPred;
use crate::combinator::Character;
use crate::combinator::IgnoreLeadingWs;
use crate::combinator::Literal;
use crate::combinator::OneOf;
use crate::combinator::ParseError;
use crate::combinator::Parser;
use crate::combinator::SpecParsed;
use crate::model::Rule;
use crate::model::SpecRule;

verus! {

/// A symbol is one printable, non-whitespace character: the visible ASCII
/// range, which includes punctuation such as `[`, `]`, `+` and `-`, and
/// excludes space, tab and line breaks.
pub open spec fn is_graphic_char(c: char) -> bool {
    33 <= c as u32 && c as u32 <= 126
}

/// The predicate behind [`non_ws_char`], as a parser-usable value.
pub struct GraphicPred {}

impl CharPred for GraphicPred {
    open spec fn spec_test(&self, c: char) -> bool {
        is_graphic_char(c)
    }

    fn test(&self, c: char) -> (b: bool) {
        let u = c as u32;
        33 <= u && u <= 126
    }
}

/// The meaning of [`non_ws_char`]: `EndOfInput` on empty input,
/// `ExpectingPredicate` when the first character is not a graphic one,
/// otherwise that character and the rest of the input.
pub open spec fn spec_non_ws_char(input: Seq<char>) -> SpecParsed<char> {
    spec_character(|c: char| is_graphic_char(c), input)
}

/// Matches one printable, non-whitespace character.
pub fn non_ws_char<'a>(input: &'a str) -> (r: Result<(char, &'a str), ParseError>)
    ensures
        match r {
            Ok(p) => spec_non_ws_char(input@) == Ok::<_, ParseError>((p.0, p.1@)),
            Err(e) => spec_non_ws_char(input@) == Err::<(char, Seq<char>), _>(e),
        },
{
    let p = character(GraphicPred {});
    let r = p.parse(input);
    proof {
        assert(p.spec_parse(input@) == spec_non_ws_char(input@));
    }
    r
}

/// A symbol parser: inline whitespace, then one graphic character.
pub type SymbolParser = IgnoreLeadingWs<Character<GraphicPred>>;

/// The meaning of [`parse_symbol`]: skip inline whitespace, then match one
/// graphic character.
pub open spec fn spec_symbol(input: Seq<char>) -> SpecParsed<char> {
    spec_non_ws_char(spec_skip_inline_ws(input))
}

/// A parser for one symbol, tolerant of leading inline whitespace.
pub fn parse_symbol() -> (r: SymbolParser)
    ensures
        r.wf(),
{
    ignore_leading_ws(character(GraphicPred {}))
}

/// Every value of [`SymbolParser`] means exactly [`spec_symbol`].
pub proof fn lemma_symbol_equiv(p: &SymbolParser, input: Seq<char>)
    ensures
        p.spec_parse(input) == spec_symbol(input),
{
}

/// A successful symbol parse consumes at least one character and leaves a
/// suffix.
pub proof fn lemma_spec_symbol_suffix(input: Seq<char>)
    ensures
        spec_symbol(input) matches Ok(p) ==> is_suffix_of(p.1, input) && p.1.len() < input.len(),
{
    lemma_skip_ws_suffix(input);
    if spec_symbol(input) is Ok {
        let s = spec_skip_inline_ws(input);
        lemma_skip_is_suffix(s, 1);
        lemma_suffix_trans(s.skip(1), s, input);
    }
}

/// A symbol parser consumes on success, so it may be repeated.
pub proof fn lemma_symbol_consumes(p: &SymbolParser)
    ensures
        consumes(p),
{
    assert forall|input: Seq<char>|
        (#[trigger] p.spec_parse(input)) matches Ok(pr) ==> pr.1.len() < input.len() by {
        lemma_symbol_equiv(p, input);
        lemma_spec_symbol_suffix(input);
    };
}

/// The branches of a line terminator: `\n`, `\r\n` and `\r`, tried in that
/// order.
pub open spec fn newline_branches(o: &OneOf<Literal>) -> bool {
    o.branches@.len() == 3 && o.branches@[0].text@ == "\n"@ && o.branches@[1].text@ == "\r\n"@
        && o.branches@[2].text@ == "\r"@
}

/// The meaning of [`newline`]: one line terminator; `\n`, `\r\n` and bare
/// `\r` are all accepted, tried in that order.
pub open spec fn spec_newline(input: Seq<char>) -> SpecParsed<()> {
    if spec_literal("\n"@, input) is Ok {
        spec_literal("\n"@, input)
    } else if spec_literal("\r\n"@, input) is Ok {
        spec_literal("\r\n"@, input)
    } else {
        spec_literal("\r"@, input)
    }
}

/// A parser for one line terminator.
pub fn newline() -> (r: OneOf<Literal>)
    ensures
        r.wf(),
        newline_branches(&r),
{
    let mut branches: Vec<Literal> = Vec::new();
    branches.push(literal("\n"));
    branches.push(literal("\r\n"));
    branches.push(literal("\r"));
    let r = one_of(branches);
    proof {
        assert(forall|i: int| 0 <= i < r.branches@.len() ==> (#[trigger] r.branches@[i]).wf());
    }
    r
}

/// An alternation whose branches are the three line terminators means
/// exactly [`spec_newline`].
pub proof fn lemma_newline_equiv(o: &OneOf<Literal>, input: Seq<char>)
    requires
        newline_branches(o),
    ensures
        o.spec_parse(input) == spec_newline(input),
{
    let bs = o.branches@;
    assert(bs.skip(1)[0] == bs[1]);
    assert(bs.skip(1).len() == 2);
    assert(bs.skip(1).skip(1) =~= bs.skip(2));
    assert(bs.skip(2)[0] == bs[2]);
    assert(bs.skip(2).len() == 1);
    if bs[0].spec_parse(input) is Err {
        assert(o.spec_parse(input) == spec_one_of(bs.skip(1), input));
        if bs[1].spec_parse(input) is Err {
            assert(spec_one_of(bs.skip(1), input) == spec_one_of(bs.skip(2), input));
        }
    }
}

/// A successful line terminator leaves a suffix.
pub proof fn lemma_spec_newline_suffix(input: Seq<char>)
    ensures
        spec_newline(input) matches Ok(p) ==> is_suffix_of(p.1, input),
{
    if spec_newline(input) matches Ok(p) {
        lemma_spec_literal_suffix("\n"@, input);
        lemma_spec_literal_suffix("\r\n"@, input);
        lemma_spec_literal_suffix("\r"@, input);
    }
}

/// A successful literal match leaves a suffix.
pub proof fn lemma_spec_literal_suffix(text: Seq<char>, input: Seq<char>)
    ensures
        spec_literal(text, input) matches Ok(p) ==> is_suffix_of(p.1, input),
{
    if spec_literal(text, input) is Ok {
        lemma_skip_is_suffix(input, text.len() as int);
    }
}

/// The collected successes of repeatedly parsing symbols: values, remainder,
/// and the failure that stopped repetition.
pub open spec fn spec_symbols(input: Seq<char>) -> (Seq<char>, Seq<char>, ParseError)
    decreases input.len(),
{
    match spec_symbol(input) {
        Err(e) => (Seq::empty(), input, e),
        Ok(pr) => if pr.1.len() < input.len() {
            let t = spec_symbols(pr.1);
            (seq![pr.0] + t.0, t.1, t.2)
        } else {
            (seq![pr.0], pr.1, ParseError::EndOfInput)
        },
    }
}

/// The meaning of a replacement sequence: one-or-more symbols; fewer than
/// one propagates the failure that stopped repetition.
pub open spec fn spec_replacements(input: Seq<char>) -> SpecParsed<Seq<char>> {
    let t = spec_symbols(input);
    if t.0.len() >= 1 {
        Ok((t.0, t.1))
    } else {
        Err(t.2)
    }
}

/// Repeating a symbol parser means exactly [`spec_symbols`].
pub proof fn lemma_repeat_symbols_equiv(p: &SymbolParser, input: Seq<char>)
    ensures
        spec_repeat(p, input) == spec_symbols(input),
    decreases input.len(),
{
    lemma_symbol_equiv(p, input);
    match spec_symbol(input) {
        Err(_) => {},
        Ok(pr) => {
            if pr.1.len() < input.len() {
                lemma_repeat_symbols_equiv(p, pr.1);
            }
        },
    }
}

/// Symbol repetition stops at a suffix of its input.
pub proof fn lemma_spec_symbols_suffix(input: Seq<char>)
    ensures
        is_suffix_of(spec_symbols(input).1, input),
    decreases input.len(),
{
    lemma_spec_symbol_suffix(input);
    match spec_symbol(input) {
        Err(_) => {
            assert(input =~= input.skip(0));
        },
        Ok(pr) => {
            if pr.1.len() < input.len() {
                lemma_spec_symbols_suffix(pr.1);
                lemma_suffix_trans(spec_symbols(pr.1).1, pr.1, input);
            }
        },
    }
}

/// The meaning of one rewrite-rule line: any whitespace, a symbol to match,
/// `=>`, one-or-more replacement symbols, and a line terminator, the last
/// three each tolerating leading inline whitespace.
pub open spec fn spec_rule_line(input: Seq<char>) -> SpecParsed<SpecRule> {
    let start = spec_skip_ws(input);
    match spec_symbol(start) {
        Err(e) => Err(e),
        Ok(s1) => match spec_literal("=>"@, spec_skip_inline_ws(s1.1)) {
            Err(e) => Err(e),
            Ok(s2) => match spec_replacements(s2.1) {
                Err(e) => Err(e),
                Ok(s3) => match spec_newline(spec_skip_inline_ws(s3.1)) {
                    Err(e) => Err(e),
                    Ok(s4) => Ok(
                        (SpecRule { symbol: s1.0, replacements: s3.0 }, s4.1),
                    ),
                },
            },
        },
    }
}

/// One rewrite-rule line, as a sequence of named steps: the symbol to match,
/// the `=>` separator, the non-empty replacement sequence, and the line
/// terminator. The parse skips any whitespace first, then runs the steps in
/// order, each tolerating leading inline whitespace.
pub struct RuleLine {
    /// The symbol the rule rewrites.
    pub to_match: SymbolParser,
    /// The `=>` separator.
    pub separator: IgnoreLeadingWs<Literal>,
    /// The one-or-more replacement symbols.
    pub replacements: AtLeast<SymbolParser>,
    /// The line terminator.
    pub terminator: IgnoreLeadingWs<OneOf<Literal>>,
}

/// A parser for one rewrite-rule line.
pub fn parse_one_rule() -> (r: RuleLine)
    ensures
        r.wf(),
{
    let replacements = at_least(1, parse_symbol());
    proof {
        lemma_symbol_consumes(&replacements.p);
    }
    RuleLine {
        to_match: parse_symbol(),
        separator: ignore_leading_ws(literal("=>")),
        replacements,
        terminator: ignore_leading_ws(newline()),
    }
}

impl Parser for RuleLine {
    type Out = Rule;

    open spec fn wf(&self) -> bool {
        self.separator.p.text@ == "=>"@ && self.replacements.min == 1 && self.replacements.wf()
            && newline_branches(&self.terminator.p) && self.terminator.wf()
    }

    open spec fn spec_parse(&self, input: Seq<char>) -> SpecParsed<SpecRule> {
        spec_rule_line(input)
    }

    proof fn lemma_parse_suffix(&self, input: Seq<char>) {
        lemma_spec_rule_line_suffix(input);
    }

    fn parse<'a>(&self, input: &'a str) -> (r: Result<(Rule, &'a str), ParseError>) {
        let ghost start = spec_skip_ws(input@);
        let line = match skip_all_ws(input) {
            Ok(p) => p.1,
            Err(e) => {
                return Err(e);
            },
        };
        proof {
            lemma_symbol_equiv(&self.to_match, start);
        }
        let (symbol, rest1) = match self.to_match.parse(line) {
            Ok(p) => p,
            Err(e) => {
                return Err(e);
            },
        };
        let (_, rest2) = match self.separator.parse(rest1) {
            Ok(p) => p,
            Err(e) => {
                return Err(e);
            },
        };
        proof {
            lemma_repeat_symbols_equiv(&self.replacements.p, rest2@);
        }
        let (replacements, rest3) = match self.replacements.parse(rest2) {
            Ok(p) => p,
            Err(e) => {
                return Err(e);
            },
        };
        proof {
            lemma_newline_equiv(&self.terminator.p, spec_skip_inline_ws(rest3@));
        }
        let (_, rest4) = match self.terminator.parse(rest3) {
            Ok(p) => p,
            Err(e) => {
                return Err(e);
            },
        };
        proof {
            assert(replacements.deep_view().len() == replacements@.len());
        }
        Ok((Rule::new(symbol, replacements), rest4))
    }
}

/// A successful rule line consumes at least one character and leaves a
/// suffix.
pub proof fn lemma_spec_rule_line_suffix(input: Seq<char>)
    ensures
        spec_rule_line(input) matches Ok(p) ==> is_suffix_of(p.1, input) && p.1.len() < input.len(),
{
    if spec_rule_line(input) is Ok {
        let start = spec_skip_ws(input);
        lemma_skip_ws_suffix(input);
        lemma_spec_symbol_suffix(start);
        let s1 = spec_symbol(start)->Ok_0;
        lemma_skip_ws_suffix(s1.1);
        lemma_spec_literal_suffix("=>"@, spec_skip_inline_ws(s1.1));
        let s2 = spec_literal("=>"@, spec_skip_inline_ws(s1.1))->Ok_0;
        lemma_spec_symbols_suffix(s2.1);
        let s3 = spec_replacements(s2.1)->Ok_0;
        lemma_skip_ws_suffix(s3.1);
        lemma_spec_newline_suffix(spec_skip_inline_ws(s3.1));
        let s4 = spec_newline(spec_skip_inline_ws(s3.1))->Ok_0;
        lemma_suffix_trans(spec_skip_inline_ws(s1.1), s1.1, start);
        lemma_suffix_trans(s2.1, spec_skip_inline_ws(s1.1), start);
        lemma_suffix_trans(s3.1, s2.1, start);
        lemma_suffix_trans(spec_skip_inline_ws(s3.1), s3.1, start);
        lemma_suffix_trans(s4.1, spec_skip_inline_ws(s3.1), start);
        lemma_suffix_trans(s4.1, start, input);
    }
}

/// A rule-line parser consumes on success, so it may be repeated.
pub proof fn lemma_rule_line_consumes(p: &RuleLine)
    ensures
        consumes(p),
{
    assert forall|input: Seq<char>|
        (#[trigger] p.spec_parse(input)) matches Ok(pr) ==> pr.1.len() < input.len() by {
        lemma_spec_rule_line_suffix(input);
    };
}

/// The collected successes of repeatedly parsing rule lines.
pub open spec fn spec_rules(input: Seq<char>) -> (Seq<SpecRule>, Seq<char>, ParseError)
    decreases input.len(),
{
    match spec_rule_line(input) {
        Err(e) => (Seq::empty(), input, e),
        Ok(pr) => if pr.1.len() < input.len() {
            let t = spec_rules(pr.1);
            (seq![pr.0] + t.0, t.1, t.2)
        } else {
            (seq![pr.0], pr.1, ParseError::EndOfInput)
        },
    }
}

/// The meaning of [`parse_rules`]: one-or-more rewrite-rule lines, in order
/// of appearance; fewer than one propagates the failure that stopped
/// repetition.
pub open spec fn spec_parse_rules(input: Seq<char>) -> SpecParsed<Seq<SpecRule>> {
    let t = spec_rules(input);
    if t.0.len() >= 1 {
        Ok((t.0, t.1))
    } else {
        Err(t.2)
    }
}

/// Repeating a rule-line parser means exactly [`spec_rules`].
pub proof fn lemma_repeat_rules_equiv(p: &RuleLine, input: Seq<char>)
    ensures
        spec_repeat(p, input) == spec_rules(input),
    decreases input.len(),
{
    match spec_rule_line(input) {
        Err(_) => {},
        Ok(pr) => {
            if pr.1.len() < input.len() {
                lemma_repeat_rules_equiv(p, pr.1);
            }
        },
    }
}

/// Parses the rule block: one or more rewrite rules, in order of
/// appearance. The remainder begins at the first point where no further
/// rule can be parsed.
pub fn parse_rules<'a>(input: &'a str) -> (r: Result<(Vec<Rule>, &'a str), ParseError>)
    ensures
        match r {
            Ok(p) => spec_parse_rules(input@) == Ok::<_, ParseError>((p.0.deep_view(), p.1@)),
            Err(e) => spec_parse_rules(input@) == Err::<(Seq<SpecRule>, Seq<char>), _>(e),
        },
{
    let parser = at_least(1, parse_one_rule());
    proof {
        lemma_rule_line_consumes(&parser.p);
        lemma_repeat_rules_equiv(&parser.p, input@);
    }
    parser.parse(input)
}

} // verus!
