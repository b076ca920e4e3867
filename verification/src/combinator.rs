//! The parsing engine: parsers as first-class values.
//!
//! A parser takes a remaining-input view (`&str`, modelled as its
//! `Seq<char>` view) and either succeeds with a value and the unconsumed
//! suffix of its input, or fails with a [`ParseError`]. Every parser is a
//! value implementing the [`Parser`] trait, so any parser can be handed to
//! any combinator; combinators are generic wrapper types holding their
//! sub-parsers by value.

use vstd::prelude::*;

verus! {

/// The ways a parse attempt can fail.
///
/// Failures are terminal for the attempt that raised them but recoverable by
/// an enclosing ordered alternation ([`OneOf`]).
#[derive(Clone, Copy, Debug, PartialEq, Eq, Structural)]
pub enum ParseError {
    /// An upstream file-read failure, translated at the boundary.
    IO,
    /// No more characters when one was required.
    EndOfInput,
    /// The next character failed a required predicate.
    ExpectingPredicate,
    /// Required exact text was not found.
    ExpectingLiteral,
    /// No valid numeric literal begins at the current position.
    ExpectingNumber,
    /// Input remained after a parser wrapped in [`Complete`] finished.
    TrailingInput,
}

/// The specification-level outcome of a parse: the parsed value's view and
/// the remaining input, or the error.
pub type SpecParsed<V> = Result<(V, Seq<char>), ParseError>;

/// `s` is a suffix of `t`.
pub open spec fn is_suffix_of(s: Seq<char>, t: Seq<char>) -> bool {
    s.len() <= t.len() && s == t.skip(t.len() - s.len())
}

/// Dropping a prefix of `t` leaves a suffix of `t`.
pub proof fn lemma_skip_is_suffix(t: Seq<char>, n: int)
    requires
        0 <= n <= t.len(),
    ensures
        is_suffix_of(t.skip(n), t),
{
    assert(t.skip(n) =~= t.skip(t.len() - t.skip(n).len()));
}

/// Suffixes compose: a suffix of a suffix of `t` is a suffix of `t`.
pub proof fn lemma_suffix_trans(s: Seq<char>, m: Seq<char>, t: Seq<char>)
    requires
        is_suffix_of(s, m),
        is_suffix_of(m, t),
    ensures
        is_suffix_of(s, t),
{
    assert(s =~= t.skip(t.len() - s.len()));
}

/// What a parser is: a value that, given an input view, deterministically
/// returns success (value, suffix) or a typed failure.
///
/// `spec_parse` is the parser's mathematical meaning; the executable `parse`
/// agrees with it exactly, on success and on failure. `lemma_parse_suffix`
/// obliges every parser to return a suffix of its input on success, so a
/// failed branch leaves no residue and backtracking by re-invocation is
/// sound.
pub trait Parser: Sized {
    /// The type of parsed values.
    type Out: DeepView;

    /// Structural well-formedness of this parser value (for example, an
    /// alternation must have at least one branch).
    spec fn wf(&self) -> bool;

    /// The meaning of this parser on a given input view.
    spec fn spec_parse(&self, input: Seq<char>) -> SpecParsed<<Self::Out as DeepView>::V>;

    /// Every successful parse returns a suffix of its input.
    proof fn lemma_parse_suffix(&self, input: Seq<char>)
        requires
            self.wf(),
        ensures
            self.spec_parse(input) matches Ok(p) ==> is_suffix_of(p.1, input),
    ;

    /// Runs the parser. The result agrees with `spec_parse` exactly.
    fn parse<'a>(&self, input: &'a str) -> (r: Result<(Self::Out, &'a str), ParseError>)
        requires
            self.wf(),
        ensures
            match r {
                Ok(p) => self.spec_parse(input@) == Ok::<_, ParseError>((p.0.deep_view(), p.1@)),
                Err(e) => self.spec_parse(input@) == Err::<(<Self::Out as DeepView>::V, Seq<char>), _>(e),
            },
    ;
}

/// A parser consumes on success: every success leaves a strictly shorter
/// remainder. Repetition combinators require this of their sub-parser, so
/// that repetition terminates.
pub open spec fn consumes<P: Parser>(p: &P) -> bool {
    forall|input: Seq<char>| (#[trigger] p.spec_parse(input)) matches Ok(pr) ==> pr.1.len() < input.len()
}

/// The meaning of [`Literal`]: succeed exactly when the input begins with
/// `text`, consuming exactly `text.len()` characters.
pub open spec fn spec_literal(text: Seq<char>, input: Seq<char>) -> SpecParsed<()> {
    if text.len() <= input.len() && input.subrange(0, text.len() as int) == text {
        Ok(((), input.skip(text.len() as int)))
    } else {
        Err(ParseError::ExpectingLiteral)
    }
}

/// Matches an exact piece of text at the head of the input.
pub struct Literal {
    /// The text that the input must begin with.
    pub text: &'static str,
}

/// A parser matching exactly `text` at the head of the input.
pub fn literal(text: &'static str) -> (r: Literal)
    ensures
        r.text == text,
        r.wf(),
{
    Literal { text }
}

impl Parser for Literal {
    type Out = ();

    open spec fn wf(&self) -> bool {
        true
    }

    open spec fn spec_parse(&self, input: Seq<char>) -> SpecParsed<()> {
        spec_literal(self.text@, input)
    }

    proof fn lemma_parse_suffix(&self, input: Seq<char>) {
        if self.spec_parse(input) is Ok {
            lemma_skip_is_suffix(input, self.text@.len() as int);
        }
    }

    fn parse<'a>(&self, input: &'a str) -> (r: Result<((), &'a str), ParseError>) {
        let n = self.text.unicode_len();
        let len = input.unicode_len();
        if len < n {
            return Err(ParseError::ExpectingLiteral);
        }
        let mut i: usize = 0;
        while i < n
            invariant
                0 <= i <= n <= len,
                n == self.text@.len(),
                len == input@.len(),
                forall|j: int| 0 <= j < i ==> input@[j] == self.text@[j],
            decreases n - i,
        {
            if input.get_char(i) != self.text.get_char(i) {
                proof {
                    assert(input@.subrange(0, n as int)[i as int] != self.text@[i as int]);
                }
                return Err(ParseError::ExpectingLiteral);
            }
            i += 1;
        }
        proof {
            assert(input@.subrange(0, n as int) =~= self.text@);
        }
        Ok(((), input.substring_char(n, len)))
    }
}

/// For every literal `text` and every input beginning with `text`, the
/// literal parser succeeds and the remaining view is the input with its
/// first `text.len()` characters removed.
pub proof fn lemma_literal_succeeds_on_prefix(l: &Literal, input: Seq<char>)
    requires
        l.text@.len() <= input.len(),
        input.subrange(0, l.text@.len() as int) == l.text@,
    ensures
        l.spec_parse(input) == Ok::<_, ParseError>(((), input.skip(l.text@.len() as int))),
{
}

/// For every input not beginning with `text`, the literal parser fails with
/// `ExpectingLiteral`; the input itself is untouched, since parsing is a
/// pure function of the input view.
pub proof fn lemma_literal_fails_without_prefix(l: &Literal, input: Seq<char>)
    requires
        !(l.text@.len() <= input.len() && input.subrange(0, l.text@.len() as int) == l.text@),
    ensures
        l.spec_parse(input) == Err::<((), Seq<char>), _>(ParseError::ExpectingLiteral),
{
}

/// A character predicate as a value, so that [`Character`] parsers can be
/// specified: the executable test agrees with a specification-level one.
pub trait CharPred: Sized {
    /// Which characters the predicate accepts.
    spec fn spec_test(&self, c: char) -> bool;

    /// Tests one character; agrees with `spec_test` exactly.
    fn test(&self, c: char) -> (b: bool)
        ensures
            b == self.spec_test(c),
    ;
}

/// The meaning of [`Character`]: `EndOfInput` on empty input,
/// `ExpectingPredicate` if the first character fails `pred`, otherwise that
/// character and the one-character-shorter suffix.
pub open spec fn spec_character(pred: spec_fn(char) -> bool, input: Seq<char>) -> SpecParsed<char> {
    if input.len() == 0 {
        Err(ParseError::EndOfInput)
    } else if pred(input[0]) {
        Ok((input[0], input.skip(1)))
    } else {
        Err(ParseError::ExpectingPredicate)
    }
}

/// Matches a single character satisfying a predicate.
pub struct Character<P> {
    /// The predicate the matched character must satisfy.
    pub pred: P,
}

/// A parser matching one character accepted by `pred`.
pub fn character<P: CharPred>(pred: P) -> (r: Character<P>)
    ensures
        r.pred == pred,
        r.wf(),
{
    Character { pred }
}

impl<P: CharPred> Parser for Character<P> {
    type Out = char;

    open spec fn wf(&self) -> bool {
        true
    }

    open spec fn spec_parse(&self, input: Seq<char>) -> SpecParsed<char> {
        spec_character(|c: char| self.pred.spec_test(c), input)
    }

    proof fn lemma_parse_suffix(&self, input: Seq<char>) {
        if self.spec_parse(input) is Ok {
            lemma_skip_is_suffix(input, 1);
        }
    }

    fn parse<'a>(&self, input: &'a str) -> (r: Result<(char, &'a str), ParseError>) {
        let len = input.unicode_len();
        if len == 0 {
            return Err(ParseError::EndOfInput);
        }
        let c = input.get_char(0);
        if self.pred.test(c) {
            Ok((c, input.substring_char(1, len)))
        } else {
            Err(ParseError::ExpectingPredicate)
        }
    }
}

/// The meaning of [`OneOf`]: each branch is tried in order against the same
/// input; the first success wins; if every branch fails, the failure of the
/// last branch is returned. (An empty alternation, which well-formedness
/// rules out, is given the predicate failure.)
pub open spec fn spec_one_of<P: Parser>(
    branches: Seq<P>,
    input: Seq<char>,
) -> SpecParsed<<P::Out as DeepView>::V>
    decreases branches.len(),
{
    if branches.len() == 0 {
        Err(ParseError::ExpectingPredicate)
    } else {
        match branches[0].spec_parse(input) {
            Ok(p) => Ok(p),
            Err(e) => if branches.len() == 1 {
                Err(e)
            } else {
                spec_one_of(branches.skip(1), input)
            },
        }
    }
}

/// Ordered alternation with backtracking: tries each branch in order against
/// the same input and commits to the first success, with no longest-match
/// preference and no ambiguity detection.
pub struct OneOf<P> {
    /// The branches, in the order they are tried.
    pub branches: Vec<P>,
}

/// A parser trying each of `branches` in order; `branches` must not be
/// empty.
pub fn one_of<P: Parser>(branches: Vec<P>) -> (r: OneOf<P>)
    ensures
        r.branches == branches,
{
    OneOf { branches }
}

impl<P: Parser> Parser for OneOf<P> {
    type Out = P::Out;

    open spec fn wf(&self) -> bool {
        self.branches@.len() > 0 && forall|i: int|
            0 <= i < self.branches@.len() ==> (#[trigger] self.branches@[i]).wf()
    }

    open spec fn spec_parse(&self, input: Seq<char>) -> SpecParsed<<P::Out as DeepView>::V> {
        spec_one_of(self.branches@, input)
    }

    proof fn lemma_parse_suffix(&self, input: Seq<char>) {
        lemma_one_of_suffix(self.branches@, input);
    }

    fn parse<'a>(&self, input: &'a str) -> (r: Result<(P::Out, &'a str), ParseError>) {
        let m = self.branches.len();
        let mut k: usize = 0;
        proof {
            assert(self.branches@.skip(0) =~= self.branches@);
        }
        loop
            invariant
                self.wf(),
                0 <= k < m,
                m == self.branches@.len(),
                spec_one_of(self.branches@, input@) == spec_one_of(self.branches@.skip(k as int), input@),
            decreases m - k,
        {
            match self.branches[k].parse(input) {
                Ok(p) => {
                    proof {
                        assert(self.branches@.skip(k as int)[0] == self.branches@[k as int]);
                    }
                    return Ok(p);
                },
                Err(e) => {
                    proof {
                        assert(self.branches@.skip(k as int)[0] == self.branches@[k as int]);
                    }
                    if k == m - 1 {
                        return Err(e);
                    }
                    proof {
                        assert(self.branches@.skip(k as int).skip(1) =~= self.branches@.skip(
                            k as int + 1,
                        ));
                    }
                },
            }
            k += 1;
        }
    }
}

/// On success, every branch of an alternation leaves a suffix, so the
/// alternation does too.
proof fn lemma_one_of_suffix<P: Parser>(branches: Seq<P>, input: Seq<char>)
    requires
        forall|i: int| 0 <= i < branches.len() ==> (#[trigger] branches[i]).wf(),
    ensures
        spec_one_of(branches, input) matches Ok(p) ==> is_suffix_of(p.1, input),
    decreases branches.len(),
{
    if branches.len() > 0 {
        branches[0].lemma_parse_suffix(input);
        if branches.len() > 1 {
            lemma_one_of_suffix(branches.skip(1), input);
        }
    }
}

/// First-match-wins, stated for a two-branch alternation: if the first
/// branch fails and the second succeeds on the same input, the alternation
/// returns the second branch's result unchanged; and whenever the first
/// branch succeeds, the alternation returns the first branch's result, even
/// if the second would also match.
pub proof fn lemma_one_of_first_match<P: Parser>(o: &OneOf<P>, input: Seq<char>)
    requires
        o.branches@.len() == 2,
    ensures
        (o.branches@[0].spec_parse(input) is Err && o.branches@[1].spec_parse(input) is Ok)
            ==> o.spec_parse(input) == o.branches@[1].spec_parse(input),
        o.branches@[0].spec_parse(input) is Ok ==> o.spec_parse(input) == o.branches@[0].spec_parse(input),
{
    let tail = o.branches@.skip(1);
    assert(tail[0] == o.branches@[1]);
    if o.branches@[0].spec_parse(input) is Err {
        assert(o.spec_parse(input) == spec_one_of(tail, input));
        assert(spec_one_of(tail, input) == tail[0].spec_parse(input) || tail[0].spec_parse(input) is Err);
    }
}

/// If every branch fails, the alternation fails with the failure of the last
/// branch attempted.
pub proof fn lemma_one_of_last_error<P: Parser>(o: &OneOf<P>, input: Seq<char>)
    requires
        o.branches@.len() > 0,
        forall|i: int| 0 <= i < o.branches@.len() ==> (#[trigger] o.branches@[i]).spec_parse(input) is Err,
    ensures
        o.spec_parse(input) == o.branches@[o.branches@.len() - 1].spec_parse(input),
{
    lemma_one_of_rec_last_error(o.branches@, input);
}

proof fn lemma_one_of_rec_last_error<P: Parser>(branches: Seq<P>, input: Seq<char>)
    requires
        branches.len() > 0,
        forall|i: int| 0 <= i < branches.len() ==> (#[trigger] branches[i]).spec_parse(input) is Err,
    ensures
        spec_one_of(branches, input) == branches[branches.len() - 1].spec_parse(input),
    decreases branches.len(),
{
    if branches.len() > 1 {
        assert(forall|i: int| 0 <= i < branches.skip(1).len() ==> (#[trigger] branches.skip(1)[i])
            == branches[i + 1]);
        lemma_one_of_rec_last_error(branches.skip(1), input);
    }
}

/// The length of the longest prefix of `s` whose characters all satisfy
/// `pred`.
pub open spec fn spec_prefix_len(pred: spec_fn(char) -> bool, s: Seq<char>) -> nat
    decreases s.len(),
{
    if s.len() == 0 || !pred(s[0]) {
        0
    } else {
        1 + spec_prefix_len(pred, s.skip(1))
    }
}

/// `spec_prefix_len` is characterised by its bounds: everything before it
/// satisfies the predicate, and the character at it (if any) does not.
pub proof fn lemma_prefix_len_bounds(pred: spec_fn(char) -> bool, s: Seq<char>)
    ensures
        spec_prefix_len(pred, s) <= s.len(),
        forall|j: int| 0 <= j < spec_prefix_len(pred, s) ==> pred(s[j]),
        spec_prefix_len(pred, s) < s.len() ==> !pred(s[spec_prefix_len(pred, s) as int]),
    decreases s.len(),
{
    if s.len() > 0 && pred(s[0]) {
        lemma_prefix_len_bounds(pred, s.skip(1));
        assert(forall|j: int| 0 <= j < spec_prefix_len(pred, s.skip(1)) ==> pred(
            #[trigger] s.skip(1)[j],
        ));
        assert(forall|j: int| 1 <= j < spec_prefix_len(pred, s) ==> s[j] == s.skip(1)[j - 1]);
    }
}

/// Conversely, those bounds pin `spec_prefix_len` down: any position whose
/// prefix satisfies the predicate and which is the end or a failing
/// character is the prefix length.
pub proof fn lemma_prefix_len_unique(pred: spec_fn(char) -> bool, s: Seq<char>, i: int)
    requires
        0 <= i <= s.len(),
        forall|j: int| 0 <= j < i ==> pred(#[trigger] s[j]),
        i < s.len() ==> !pred(s[i]),
    ensures
        spec_prefix_len(pred, s) == i,
    decreases s.len(),
{
    if s.len() > 0 && pred(s[0]) {
        assert(forall|j: int| 0 <= j < i - 1 ==> #[trigger] s.skip(1)[j] == s[j + 1]);
        assert(i - 1 < s.skip(1).len() ==> s.skip(1)[i - 1] == s[i]);
        lemma_prefix_len_unique(pred, s.skip(1), i - 1);
    }
}

/// Whitespace, as skipped between the two logical sections of a source text
/// and at the start of each line-oriented production.
pub open spec fn is_ws_char(c: char) -> bool {
    c == ' ' || c == '\t' || c == '\n' || c == '\r' || c == '\u{B}' || c == '\u{C}'
}

/// Inline whitespace, as skipped before each step inside a line-oriented
/// production. Line breaks are excluded so that a line terminator still has
/// something to match.
pub open spec fn is_inline_ws_char(c: char) -> bool {
    c == ' ' || c == '\t'
}

/// The whitespace prefix of `s`.
pub open spec fn spec_ws_len(s: Seq<char>) -> nat {
    spec_prefix_len(|c: char| is_ws_char(c), s)
}

/// The inline-whitespace prefix of `s`.
pub open spec fn spec_inline_ws_len(s: Seq<char>) -> nat {
    spec_prefix_len(|c: char| is_inline_ws_char(c), s)
}

/// `s` after dropping its whitespace prefix.
pub open spec fn spec_skip_ws(s: Seq<char>) -> Seq<char> {
    s.skip(spec_ws_len(s) as int)
}

/// `s` after dropping its inline-whitespace prefix.
pub open spec fn spec_skip_inline_ws(s: Seq<char>) -> Seq<char> {
    s.skip(spec_inline_ws_len(s) as int)
}

fn is_ws(c: char) -> (b: bool)
    ensures
        b == is_ws_char(c),
{
    c == ' ' || c == '\t' || c == '\n' || c == '\r' || c == '\u{B}' || c == '\u{C}'
}

fn is_inline_ws(c: char) -> (b: bool)
    ensures
        b == is_inline_ws_char(c),
{
    c == ' ' || c == '\t'
}

/// Skips the run of consecutive whitespace characters (line breaks included)
/// at the head of the input. Never fails; skipping nothing is a success.
pub fn skip_all_ws<'a>(input: &'a str) -> (r: Result<((), &'a str), ParseError>)
    ensures
        r matches Ok(p) && p.1@ == spec_skip_ws(input@),
{
    let len = input.unicode_len();
    let mut i: usize = 0;
    while i < len && is_ws(input.get_char(i))
        invariant
            0 <= i <= len,
            len == input@.len(),
            forall|j: int| 0 <= j < i ==> is_ws_char(input@[j]),
        decreases len - i,
    {
        i += 1;
    }
    proof {
        lemma_prefix_len_unique(|c: char| is_ws_char(c), input@, i as int);
    }
    Ok(((), input.substring_char(i, len)))
}

/// Skips the run of consecutive inline whitespace (spaces and tabs) at the
/// head of the input. Never fails.
pub fn skip_inline_ws<'a>(input: &'a str) -> (r: Result<((), &'a str), ParseError>)
    ensures
        r matches Ok(p) && p.1@ == spec_skip_inline_ws(input@),
{
    let len = input.unicode_len();
    let mut i: usize = 0;
    while i < len && is_inline_ws(input.get_char(i))
        invariant
            0 <= i <= len,
            len == input@.len(),
            forall|j: int| 0 <= j < i ==> is_inline_ws_char(input@[j]),
        decreases len - i,
    {
        i += 1;
    }
    proof {
        lemma_prefix_len_unique(|c: char| is_inline_ws_char(c), input@, i as int);
    }
    Ok(((), input.substring_char(i, len)))
}

/// Dropping a whitespace prefix leaves a suffix, never longer than the
/// input.
pub proof fn lemma_skip_ws_suffix(s: Seq<char>)
    ensures
        is_suffix_of(spec_skip_ws(s), s),
        spec_skip_ws(s).len() <= s.len(),
        is_suffix_of(spec_skip_inline_ws(s), s),
        spec_skip_inline_ws(s).len() <= s.len(),
{
    lemma_prefix_len_bounds(|c: char| is_ws_char(c), s);
    lemma_prefix_len_bounds(|c: char| is_inline_ws_char(c), s);
    lemma_skip_is_suffix(s, spec_ws_len(s) as int);
    lemma_skip_is_suffix(s, spec_inline_ws_len(s) as int);
}

/// Runs its sub-parser after skipping leading inline whitespace. This is the
/// per-step whitespace tolerance of the sequencing discipline: a sequence of
/// such steps accepts arbitrary inline whitespace between its components.
/// Whitespace already skipped is not un-skipped when the sub-parser fails;
/// backtracking to before the step is the caller's responsibility.
pub struct IgnoreLeadingWs<P> {
    /// The parser run after the skip.
    pub p: P,
}

/// A parser running `p` after skipping leading inline whitespace.
pub fn ignore_leading_ws<P: Parser>(p: P) -> (r: IgnoreLeadingWs<P>)
    ensures
        r.p == p,
{
    IgnoreLeadingWs { p }
}

impl<P: Parser> Parser for IgnoreLeadingWs<P> {
    type Out = P::Out;

    open spec fn wf(&self) -> bool {
        self.p.wf()
    }

    open spec fn spec_parse(&self, input: Seq<char>) -> SpecParsed<<P::Out as DeepView>::V> {
        self.p.spec_parse(spec_skip_inline_ws(input))
    }

    proof fn lemma_parse_suffix(&self, input: Seq<char>) {
        lemma_skip_ws_suffix(input);
        self.p.lemma_parse_suffix(spec_skip_inline_ws(input));
        if self.spec_parse(input) is Ok {
            lemma_suffix_trans(
                self.spec_parse(input)->Ok_0.1,
                spec_skip_inline_ws(input),
                input,
            );
        }
    }

    fn parse<'a>(&self, input: &'a str) -> (r: Result<(P::Out, &'a str), ParseError>) {
        match skip_inline_ws(input) {
            Ok((_, rest)) => self.p.parse(rest),
            Err(e) => Err(e),
        }
    }
}

/// The collected successes of repeatedly applying `p` to successive
/// remainders: the values parsed, the remainder at which repetition stopped,
/// and the failure that stopped it. Repetition also stops if `p` ever
/// succeeds without consuming; a well-formed repetition (see
/// [`AtLeast::wf`]) has a consuming sub-parser, so that case never arises.
pub open spec fn spec_repeat<P: Parser>(p: &P, input: Seq<char>) -> (Seq<
    <P::Out as DeepView>::V,
>, Seq<char>, ParseError)
    decreases input.len(),
{
    match p.spec_parse(input) {
        Err(e) => (Seq::empty(), input, e),
        Ok(pr) => if pr.1.len() < input.len() {
            let t = spec_repeat(p, pr.1);
            (seq![pr.0] + t.0, t.1, t.2)
        } else {
            (seq![pr.0], pr.1, ParseError::EndOfInput)
        },
    }
}

/// Repetition stops at a suffix of the input.
pub proof fn lemma_repeat_suffix<P: Parser>(p: &P, input: Seq<char>)
    requires
        p.wf(),
    ensures
        is_suffix_of(spec_repeat(p, input).1, input),
    decreases input.len(),
{
    p.lemma_parse_suffix(input);
    match p.spec_parse(input) {
        Err(_) => {
            assert(input =~= input.skip(0));
        },
        Ok(pr) => {
            if pr.1.len() < input.len() {
                lemma_repeat_suffix(p, pr.1);
                lemma_suffix_trans(spec_repeat(p, pr.1).1, pr.1, input);
            }
        },
    }
}

/// Repetition with a minimum count: applies `p` to successive remainders,
/// collecting successes, stopping at the first failure of `p`; succeeds with
/// the collected sequence only if at least `min` values were collected,
/// otherwise propagates the failure that stopped repetition.
pub struct AtLeast<P> {
    /// How many successes are required.
    pub min: usize,
    /// The repeated parser.
    pub p: P,
}

/// A parser applying `p` repeatedly and requiring at least `min` successes.
pub fn at_least<P: Parser>(min: usize, p: P) -> (r: AtLeast<P>)
    ensures
        r.min == min,
        r.p == p,
{
    AtLeast { min, p }
}

/// Zero-or-more repetition: `at_least(0, p)`. It never fails.
pub fn many<P: Parser>(p: P) -> (r: AtLeast<P>)
    ensures
        r.min == 0,
        r.p == p,
{
    AtLeast { min: 0, p }
}

impl<P: Parser> Parser for AtLeast<P> {
    type Out = Vec<P::Out>;

    open spec fn wf(&self) -> bool {
        self.p.wf() && consumes(&self.p)
    }

    open spec fn spec_parse(&self, input: Seq<char>) -> SpecParsed<Seq<<P::Out as DeepView>::V>> {
        let t = spec_repeat(&self.p, input);
        if t.0.len() >= self.min {
            Ok((t.0, t.1))
        } else {
            Err(t.2)
        }
    }

    proof fn lemma_parse_suffix(&self, input: Seq<char>) {
        lemma_repeat_suffix(&self.p, input);
    }

    fn parse<'a>(&self, input: &'a str) -> (r: Result<(Vec<P::Out>, &'a str), ParseError>) {
        let mut values: Vec<P::Out> = Vec::new();
        let mut rest: &'a str = input;
        proof {
            assert(values.deep_view() + spec_repeat(&self.p, rest@).0 =~= spec_repeat(
                &self.p,
                input@,
            ).0);
        }
        loop
            invariant
                self.wf(),
                spec_repeat(&self.p, input@).0 == values.deep_view() + spec_repeat(&self.p, rest@).0,
                spec_repeat(&self.p, input@).1 == spec_repeat(&self.p, rest@).1,
                spec_repeat(&self.p, input@).2 == spec_repeat(&self.p, rest@).2,
            decreases rest@.len(),
        {
            match self.p.parse(rest) {
                Err(e) => {
                    proof {
                        assert(spec_repeat(&self.p, rest@).0 =~= Seq::<
                            <P::Out as DeepView>::V,
                        >::empty());
                        assert(values.deep_view() + Seq::<<P::Out as DeepView>::V>::empty()
                            =~= values.deep_view());
                        assert(values.deep_view().len() == values@.len());
                    }
                    if values.len() >= self.min {
                        return Ok((values, rest));
                    } else {
                        return Err(e);
                    }
                },
                Ok((v, next)) => {
                    proof {
                        assert(next@.len() < rest@.len());
                        assert(spec_repeat(&self.p, rest@).0 == seq![v.deep_view()] + spec_repeat(
                            &self.p,
                            next@,
                        ).0);
                    }
                    let ghost old_values = values.deep_view();
                    values.push(v);
                    proof {
                        assert(values.deep_view() =~= old_values + seq![v.deep_view()]);
                        assert(old_values + (seq![v.deep_view()] + spec_repeat(&self.p, next@).0)
                            =~= (old_values + seq![v.deep_view()]) + spec_repeat(&self.p, next@).0);
                    }
                    rest = next;
                },
            }
        }
    }
}

/// A zero-minimum repetition never fails.
pub proof fn lemma_many_never_fails<P: Parser>(m: &AtLeast<P>, input: Seq<char>)
    requires
        m.min == 0,
    ensures
        m.spec_parse(input) is Ok,
{
}

/// A repetition that collects fewer values than its minimum fails, and fails
/// with exactly the error that stopped the repetition (the failure of the
/// attempt after the last success).
pub proof fn lemma_at_least_propagates_stop_error<P: Parser>(a: &AtLeast<P>, input: Seq<char>)
    ensures
        spec_repeat(&a.p, input).0.len() < a.min ==> a.spec_parse(input) == Err::<
            (Seq<<P::Out as DeepView>::V>, Seq<char>),
            _,
        >(spec_repeat(&a.p, input).2),
{
}

/// A function from parsed values to results, as a value, so that [`Map`] can
/// be specified. `pre` is what the function needs of its argument; a mapped
/// parser is well-formed only if its sub-parser establishes it.
pub trait MapFn: Sized {
    /// The argument type.
    type In: DeepView;

    /// The result type.
    type Out: DeepView;

    /// What the function requires of its argument.
    spec fn pre(&self, a: <Self::In as DeepView>::V) -> bool;

    /// The meaning of the function.
    spec fn spec_apply(&self, a: <Self::In as DeepView>::V) -> <Self::Out as DeepView>::V;

    /// Applies the function; agrees with `spec_apply` exactly.
    fn apply(&self, a: Self::In) -> (b: Self::Out)
        requires
            self.pre(a.deep_view()),
        ensures
            b.deep_view() == self.spec_apply(a.deep_view()),
    ;
}

/// Runs `p`, transforming its value with `f` on success and passing the
/// error through unchanged on failure.
pub struct Mapped<P, F> {
    /// The parser whose value is transformed.
    pub p: P,
    /// The transformation.
    pub f: F,
}

/// A parser running `p` and mapping its value through `f`.
pub fn map<P: Parser, F: MapFn<In = P::Out>>(p: P, f: F) -> (r: Mapped<P, F>)
    ensures
        r.p == p,
        r.f == f,
{
    Mapped { p, f }
}

impl<P: Parser, F: MapFn<In = P::Out>> Parser for Mapped<P, F> {
    type Out = F::Out;

    open spec fn wf(&self) -> bool {
        self.p.wf() && forall|input: Seq<char>|
            (#[trigger] self.p.spec_parse(input)) matches Ok(pr) ==> self.f.pre(pr.0)
    }

    open spec fn spec_parse(&self, input: Seq<char>) -> SpecParsed<<F::Out as DeepView>::V> {
        match self.p.spec_parse(input) {
            Ok(pr) => Ok((self.f.spec_apply(pr.0), pr.1)),
            Err(e) => Err(e),
        }
    }

    proof fn lemma_parse_suffix(&self, input: Seq<char>) {
        self.p.lemma_parse_suffix(input);
    }

    fn parse<'a>(&self, input: &'a str) -> (r: Result<(F::Out, &'a str), ParseError>) {
        match self.p.parse(input) {
            Ok((v, rest)) => Ok((self.f.apply(v), rest)),
            Err(e) => Err(e),
        }
    }
}

/// A mapped parser transforms values and passes errors through unchanged.
pub proof fn lemma_map_transforms<P: Parser, F: MapFn<In = P::Out>>(m: &Mapped<P, F>, input: Seq<char>)
    ensures
        m.p.spec_parse(input) matches Ok(pr) ==> m.spec_parse(input) == Ok::<_, ParseError>(
            (m.f.spec_apply(pr.0), pr.1),
        ),
        m.p.spec_parse(input) matches Err(e) ==> m.spec_parse(input) == Err::<
            (<F::Out as DeepView>::V, Seq<char>),
            _,
        >(e),
{
}

/// Runs `p` and succeeds only if `p` succeeded and consumed the entire
/// input; otherwise fails with `TrailingInput`, so that trailing garbage is
/// never silently ignored.
pub struct Complete<P> {
    /// The parser that must account for the whole input.
    pub p: P,
}

/// A parser requiring `p` to consume the entire input.
pub fn complete<P: Parser>(p: P) -> (r: Complete<P>)
    ensures
        r.p == p,
{
    Complete { p }
}

impl<P: Parser> Parser for Complete<P> {
    type Out = P::Out;

    open spec fn wf(&self) -> bool {
        self.p.wf()
    }

    open spec fn spec_parse(&self, input: Seq<char>) -> SpecParsed<<P::Out as DeepView>::V> {
        match self.p.spec_parse(input) {
            Ok(pr) => if pr.1.len() == 0 {
                Ok(pr)
            } else {
                Err(ParseError::TrailingInput)
            },
            Err(e) => Err(e),
        }
    }

    proof fn lemma_parse_suffix(&self, input: Seq<char>) {
        self.p.lemma_parse_suffix(input);
    }

    fn parse<'a>(&self, input: &'a str) -> (r: Result<(P::Out, &'a str), ParseError>) {
        match self.p.parse(input) {
            Ok((v, rest)) => {
                if rest.unicode_len() == 0 {
                    Ok((v, rest))
                } else {
                    Err(ParseError::TrailingInput)
                }
            },
            Err(e) => Err(e),
        }
    }
}

/// `complete(p)` succeeds exactly when `p` succeeds and consumes the entire
/// input, and then returns `p`'s value.
pub proof fn lemma_complete_iff<P: Parser>(c: &Complete<P>, input: Seq<char>)
    ensures
        c.spec_parse(input) is Ok <==> (c.p.spec_parse(input) matches Ok(pr) && pr.1.len() == 0),
        c.spec_parse(input) is Ok ==> c.spec_parse(input) == c.p.spec_parse(input),
{
}

} // verus!
