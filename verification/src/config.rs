//! The configuration sub-language: a decimal numeric literal, `key = value`
//! items for the three rendering parameters, and the config block that an
//! optional `render:` marker introduces.

use vstd::prelude::*;
use crate::combinator::consumes;
use crate::combinator::ignore_leading_ws;
use crate::combinator::is_suffix_of;
use crate::combinator::lemma_prefix_len_bounds;
use crate::combinator::lemma_prefix_len_unique;
use crate::combinator::lemma_skip_is_suffix;
use crate::combinator::lemma_skip_ws_suffix;
use crate::combinator::lemma_suffix_trans;
use crate::combinator::literal;
use crate::combinator::many;
use crate::combinator::one_of;
use crate::combinator::skip_all_ws;
use crate::combinator::spec_literal;
use crate::combinator::spec_one_of;
use crate::combinator::spec_prefix_len;
use crate::combinator::spec_repeat;
use crate::combinator::spec_skip_inline_ws;
use crate::combinator::spec_skip_ws;
use crate::combinator::IgnoreLeadingWs;
use crate::combinator::Literal;
use crate::combinator::MapFn;
use crate::combinator::Mapped;
use crate::combinator::OneOf;
use crate::combinator::ParseError;
use crate::combinator::Parser;
use crate::combinator::SpecParsed;
use crate::model::spec_apply_items;
use crate::model::spec_default_config;
use crate::model::Decimal;
use crate::model::RenderConfigItem;
use crate::model::RendererConfig;
use crate::model::SpecConfig;
use crate::model::SpecConfigItem;
use crate::model::SpecDecimal;

verus! {

/// A decimal digit.
pub open spec fn is_digit_char(c: char) -> bool {
    48 <= c as u32 && c as u32 <= 57
}

/// The length of the digit run at the head of `s`.
pub open spec fn spec_digit_len(s: Seq<char>) -> nat {
    spec_prefix_len(|c: char| is_digit_char(c), s)
}

fn is_digit(c: char) -> (b: bool)
    ensures
        b == is_digit_char(c),
{
    let u = c as u32;
    48 <= u && u <= 57
}

/// The meaning of the numeric literal: an optional sign (`-` or `+`), one or
/// more digits, and an optional fractional part (a point followed by one or
/// more digits). Fails `ExpectingNumber` when no digit follows the optional
/// sign; a point not followed by a digit is left unconsumed.
pub open spec fn spec_decimal(input: Seq<char>) -> SpecParsed<SpecDecimal> {
    let signed = input.len() > 0 && (input[0] == '-' || input[0] == '+');
    let negative = input.len() > 0 && input[0] == '-';
    let s = if signed {
        input.skip(1)
    } else {
        input
    };
    let k = spec_digit_len(s);
    if k == 0 {
        Err(ParseError::ExpectingNumber)
    } else {
        let int_digits = s.take(k as int);
        let s2 = s.skip(k as int);
        if s2.len() >= 2 && s2[0] == '.' && is_digit_char(s2[1]) {
            let m = spec_digit_len(s2.skip(1));
            Ok(
                (
                    SpecDecimal {
                        negative,
                        int_digits,
                        frac_digits: s2.skip(1).take(m as int),
                    },
                    s2.skip(1).skip(m as int),
                ),
            )
        } else {
            Ok((SpecDecimal { negative, int_digits, frac_digits: Seq::empty() }, s2))
        }
    }
}

/// Collects the maximal digit run of `input` starting at position `from`:
/// the digits themselves and the position just after them.
fn digit_run(input: &str, from: usize) -> (r: (Vec<char>, usize))
    requires
        from <= input@.len(),
    ensures
        from <= r.1 <= input@.len(),
        r.1 - from == spec_digit_len(input@.skip(from as int)),
        r.0.deep_view() == input@.skip(from as int).take(
            spec_digit_len(input@.skip(from as int)) as int,
        ),
{
    let len = input.unicode_len();
    let mut digits: Vec<char> = Vec::new();
    let mut i: usize = from;
    while i < len && is_digit(input.get_char(i))
        invariant
            from <= i <= len,
            len == input@.len(),
            digits@ == input@.subrange(from as int, i as int),
            forall|j: int| from <= j < i ==> is_digit_char(input@[j]),
        decreases len - i,
    {
        digits.push(input.get_char(i));
        proof {
            assert(digits@ =~= input@.subrange(from as int, i + 1));
        }
        i += 1;
    }
    proof {
        let s = input@.skip(from as int);
        assert(forall|j: int| 0 <= j < i - from ==> s[j] == input@[j + from]);
        lemma_prefix_len_unique(|c: char| is_digit_char(c), s, i - from);
        assert(digits.deep_view() =~= s.take((i - from) as int));
    }
    (digits, i)
}

/// The numeric-literal parser.
pub struct DecimalParser {}

/// A parser for one decimal numeric literal.
pub fn parse_decimal() -> (r: DecimalParser)
    ensures
        r.wf(),
{
    DecimalParser {}
}

impl Parser for DecimalParser {

    type Out = Decimal;

    open spec fn wf(&self) -> bool {
        true
    }

    open spec fn spec_parse(&self, input: Seq<char>) -> SpecParsed<SpecDecimal> {
        spec_decimal(input)
    }

    proof fn lemma_parse_suffix(&self, input: Seq<char>) {
        lemma_spec_decimal_suffix(input);
    }

    fn parse<'a>(&self, input: &'a str) -> (r: Result<(Decimal, &'a str), ParseError>) {
        let len = input.unicode_len();
        let mut negative = false;
        let mut start: usize = 0;
        if len > 0 {
            let c0 = input.get_char(0);
            if c0 == '-' {
                negative = true;
                start = 1;
            } else if c0 == '+' {
                start = 1;
            }
        }
        let ghost s = input@.skip(start as int);
        let ghost signed = input@.len() > 0 && (input@[0] == '-' || input@[0] == '+');
        proof {
            assert(signed ==> start == 1 && s =~= input@.skip(1));
            assert(!signed ==> start == 0 && s =~= input@);
            assert(negative == (input@.len() > 0 && input@[0] == '-'));
        }
        let (int_digits, i) = digit_run(input, start);
        if i == start {
            return Err(ParseError::ExpectingNumber);
        }
        proof {
            assert(s.take((i - start) as int) == int_digits.deep_view());
            assert(s.skip((i - start) as int) =~= input@.skip(i as int));
            assert(input@.skip(i as int) =~= input@.subrange(i as int, len as int));
        }
        if i < len && input.get_char(i) == '.' {
            if i + 1 < len && is_digit(input.get_char(i + 1)) {
                let ghost s2 = input@.skip(i as int);
                let (frac_digits, j) = digit_run(input, i + 1);
                proof {
                    assert(s2[0] == input@[i as int]);
                    assert(s2[1] == input@[i + 1]);
                    assert(s2.skip(1) =~= input@.skip(i + 1));
                    assert(s2.skip(1).skip((j - (i + 1)) as int) =~= input@.skip(j as int));
                    assert(input@.skip(j as int) =~= input@.subrange(j as int, len as int));
                }
                let d = Decimal::new(negative, int_digits, frac_digits);
                let rest = input.substring_char(j, len);
                proof {
                    assert(spec_decimal(input@) == Ok::<_, ParseError>((d.deep_view(), rest@)));
                }
                return Ok((d, rest));
            }
        }
        let frac_digits: Vec<char> = Vec::new();
        proof {
            let s2 = input@.skip(i as int);
            if s2.len() >= 2 && s2[0] == '.' && is_digit_char(s2[1]) {
                assert(input@[i as int] == s2[0]);
                assert(input@[i + 1] == s2[1]);
                assert(false);
            }
            assert(frac_digits.deep_view() =~= Seq::<char>::empty());
        }
        let d = Decimal::new(negative, int_digits, frac_digits);
        let rest = input.substring_char(i, len);
        proof {
            assert(spec_decimal(input@) == Ok::<_, ParseError>((d.deep_view(), rest@)));
        }
        Ok((d, rest))
    }
}

/// A successful numeric literal consumes at least one character and leaves a
/// suffix.
pub proof fn lemma_spec_decimal_suffix(input: Seq<char>)
    ensures
        spec_decimal(input) matches Ok(p) ==> is_suffix_of(p.1, input) && p.1.len() < input.len(),
{
    if spec_decimal(input) is Ok {
        let signed = input.len() > 0 && (input[0] == '-' || input[0] == '+');
        let s = if signed {
            input.skip(1)
        } else {
            input
        };
        let k = spec_digit_len(s);
        lemma_prefix_len_bounds(|c: char| is_digit_char(c), s);
        if signed {
            lemma_skip_is_suffix(input, 1);
        } else {
            assert(s =~= input.skip(0));
        }
        let s2 = s.skip(k as int);
        lemma_skip_is_suffix(s, k as int);
        lemma_suffix_trans(s2, s, input);
        if s2.len() >= 2 && s2[0] == '.' && is_digit_char(s2[1]) {
            let m = spec_digit_len(s2.skip(1));
            lemma_prefix_len_bounds(|c: char| is_digit_char(c), s2.skip(1));
            lemma_skip_is_suffix(s2, 1);
            lemma_skip_is_suffix(s2.skip(1), m as int);
            lemma_suffix_trans(s2.skip(1), s2, input);
            lemma_suffix_trans(s2.skip(1).skip(m as int), s2.skip(1), input);
        }
    }
}

/// Which rendering parameter a `key = value` item addresses.
#[derive(Clone, Copy, Debug, PartialEq, Eq, Structural)]
pub enum ConfigKey {

    /// The `step` key.
    Step,

    /// The `angle` key.
    Angle,

    /// The `step_multiplier` key.
    StepMultiplier,
}

/// One `key = value` line, as a sequence of named steps: the key, the `=`
/// sign, and the numeric value. The parse skips any whitespace first, then
/// runs the steps in order, each tolerating leading inline whitespace.
pub struct KeyEqValue {

    /// The recognised key.
    pub key: IgnoreLeadingWs<Literal>,

    /// The `=` sign.
    pub eq_sign: IgnoreLeadingWs<Literal>,

    /// The numeric value.
    pub value: IgnoreLeadingWs<DecimalParser>,
}

/// The meaning of one `key = value` item: any whitespace, the key, `=`, and
/// a numeric literal, each step tolerating leading inline whitespace.
pub open spec fn spec_key_equals_value(key: Seq<char>, input: Seq<char>) -> SpecParsed<
    SpecDecimal,
> {
    let start = spec_skip_ws(input);
    match spec_literal(key, spec_skip_inline_ws(start)) {
        Err(e) => Err(e),
        Ok(s1) => match spec_literal("="@, spec_skip_inline_ws(s1.1)) {
            Err(e) => Err(e),
            Ok(s2) => spec_decimal(spec_skip_inline_ws(s2.1)),
        },
    }
}

impl Parser for KeyEqValue {

    type Out = Decimal;

    open spec fn wf(&self) -> bool {
        self.eq_sign.p.text@ == "="@
    }

    open spec fn spec_parse(&self, input: Seq<char>) -> SpecParsed<SpecDecimal> {
        spec_key_equals_value(self.key.p.text@, input)
    }

    proof fn lemma_parse_suffix(&self, input: Seq<char>) {
        lemma_spec_key_equals_value_suffix(self.key.p.text@, input);
    }

    fn parse<'a>(&self, input: &'a str) -> (r: Result<(Decimal, &'a str), ParseError>) {
        let line = match skip_all_ws(input) {
            Ok(p) => p.1,
            Err(e) => {
                return Err(e);
            },
        };
        let (_, rest1) = match self.key.parse(line) {
            Ok(p) => p,
            Err(e) => {
                return Err(e);
            },
        };
        let (_, rest2) = match self.eq_sign.parse(rest1) {
            Ok(p) => p,
            Err(e) => {
                return Err(e);
            },
        };
        self.value.parse(rest2)
    }
}

/// A successful `key = value` item consumes at least one character and
/// leaves a suffix.
pub proof fn lemma_spec_key_equals_value_suffix(key: Seq<char>, input: Seq<char>)
    ensures
        spec_key_equals_value(key, input) matches Ok(p) ==> is_suffix_of(p.1, input) && p.1.len()
            < input.len(),
{
    if spec_key_equals_value(key, input) is Ok {
        let start = spec_skip_ws(input);
        lemma_skip_ws_suffix(input);
        lemma_skip_ws_suffix(start);
        let t0 = spec_skip_inline_ws(start);
        let s1 = spec_literal(key, t0)->Ok_0;
        lemma_skip_is_suffix(t0, key.len() as int);
        lemma_skip_ws_suffix(s1.1);
        let t1 = spec_skip_inline_ws(s1.1);
        let s2 = spec_literal("="@, t1)->Ok_0;
        lemma_skip_is_suffix(t1, "="@.len() as int);
        lemma_skip_ws_suffix(s2.1);
        let t2 = spec_skip_inline_ws(s2.1);
        lemma_spec_decimal_suffix(t2);
        let p = spec_decimal(t2)->Ok_0;
        lemma_suffix_trans(s1.1, t0, start);
        lemma_suffix_trans(t1, s1.1, start);
        lemma_suffix_trans(s2.1, t1, start);
        lemma_suffix_trans(t2, s2.1, start);
        lemma_suffix_trans(p.1, t2, start);
        lemma_suffix_trans(p.1, start, input);
        assert(p.1.len() < t2.len());
    }
}

/// Builds the tagged configuration update for one key from the parsed
/// numeric value.
pub struct MakeItem {

    /// Which rendering parameter the update addresses.
    pub key: ConfigKey,
}

impl MapFn for MakeItem {

    type In = Decimal;

    type Out = RenderConfigItem;

    open spec fn pre(&self, a: SpecDecimal) -> bool {
        true
    }

    open spec fn spec_apply(&self, a: SpecDecimal) -> SpecConfigItem {
        match self.key {
            ConfigKey::Step => SpecConfigItem::Step(a),
            ConfigKey::Angle => SpecConfigItem::Angle(a),
            ConfigKey::StepMultiplier => SpecConfigItem::StepMultiplier(a),
        }
    }

    fn apply(&self, a: Decimal) -> (b: RenderConfigItem) {
        let ghost av = a.deep_view();
        let b = match self.key {
            ConfigKey::Step => RenderConfigItem::Step(a),
            ConfigKey::Angle => RenderConfigItem::Angle(a),
            ConfigKey::StepMultiplier => RenderConfigItem::StepMultiplier(a),
        };
        proof {
            assert(b.deep_view() == self.spec_apply(av));
        }
        b
    }
}

/// One recognised configuration item, as a parser value.
pub type ConfigItem = Mapped<KeyEqValue, MakeItem>;

/// A parser for `key = value` with the given key text and tag.
pub fn key_equals_value(key: &'static str, tag: ConfigKey) -> (r: ConfigItem)
    ensures
        r.wf(),
        r.p.key.p.text == key,
        r.f.key == tag,
{
    let r = crate::combinator::map(
        KeyEqValue {
            key: ignore_leading_ws(literal(key)),
            eq_sign: ignore_leading_ws(literal("=")),
            value: ignore_leading_ws(parse_decimal()),
        },
        MakeItem { key: tag },
    );
    proof {
        assert(forall|input: Seq<char>|
            (#[trigger] r.p.spec_parse(input)) matches Ok(pr) ==> r.f.pre(pr.0));
    }
    r
}

/// The structure of the config-item alternation: the three recognised keys,
/// in the order they are tried.
pub open spec fn config_item_branches(o: &OneOf<ConfigItem>) -> bool {
    o.branches@.len() == 3 && o.branches@[0].p.key.p.text@ == "step"@ && o.branches@[0].f.key
        == ConfigKey::Step && o.branches@[1].p.key.p.text@ == "angle"@ && o.branches@[1].f.key
        == ConfigKey::Angle && o.branches@[2].p.key.p.text@ == "step_multiplier"@
        && o.branches@[2].f.key == ConfigKey::StepMultiplier && (forall|i: int|
        0 <= i < o.branches@.len() ==> (#[trigger] o.branches@[i]).wf())
}

/// The meaning of one configuration item: the first of the three recognised
/// keys whose `key = value` grammar matches, tagged accordingly; when none
/// matches, the failure of the last key tried.
pub open spec fn spec_config_item(input: Seq<char>) -> SpecParsed<SpecConfigItem> {
    if spec_key_equals_value("step"@, input) is Ok {
        let p = spec_key_equals_value("step"@, input)->Ok_0;
        Ok((SpecConfigItem::Step(p.0), p.1))
    } else if spec_key_equals_value("angle"@, input) is Ok {
        let p = spec_key_equals_value("angle"@, input)->Ok_0;
        Ok((SpecConfigItem::Angle(p.0), p.1))
    } else {
        match spec_key_equals_value("step_multiplier"@, input) {
            Ok(p) => Ok((SpecConfigItem::StepMultiplier(p.0), p.1)),
            Err(e) => Err(e),
        }
    }
}

/// A parser for one configuration item.
pub fn config_item_parser() -> (r: OneOf<ConfigItem>)
    ensures
        r.wf(),
        config_item_branches(&r),
{
    let mut branches: Vec<ConfigItem> = Vec::new();
    branches.push(key_equals_value("step", ConfigKey::Step));
    branches.push(key_equals_value("angle", ConfigKey::Angle));
    branches.push(key_equals_value("step_multiplier", ConfigKey::StepMultiplier));
    one_of(branches)
}

/// An alternation whose branches are the three recognised keys means exactly
/// [`spec_config_item`].
pub proof fn lemma_config_item_equiv(o: &OneOf<ConfigItem>, input: Seq<char>)
    requires
        config_item_branches(o),
    ensures
        o.spec_parse(input) == spec_config_item(input),
{
    let bs = o.branches@;
    assert(bs.skip(1)[0] == bs[1]);
    assert(bs.skip(1).len() == 2);
    assert(bs.skip(1).skip(1) =~= bs.skip(2));
    assert(bs.skip(2)[0] == bs[2]);
    assert(bs.skip(2).len() == 1);
    if bs[0].spec_parse(input) is Err {
        assert(o.spec_parse(input) == spec_one_of(bs.skip(1), input));
        if bs[1].spec_parse(input) is Err {
            assert(spec_one_of(bs.skip(1), input) == spec_one_of(bs.skip(2), input));
        }
    }
}

/// A configuration item consumes on success, so it may be repeated.
pub proof fn lemma_config_item_consumes(o: &OneOf<ConfigItem>)
    requires
        config_item_branches(o),
    ensures
        consumes(o),
{
    assert forall|input: Seq<char>|
        (#[trigger] o.spec_parse(input)) matches Ok(pr) ==> pr.1.len() < input.len() by {
        lemma_config_item_equiv(o, input);
        lemma_spec_key_equals_value_suffix("step"@, input);
        lemma_spec_key_equals_value_suffix("angle"@, input);
        lemma_spec_key_equals_value_suffix("step_multiplier"@, input);
    };
}

/// The collected successes of repeatedly parsing configuration items.
pub open spec fn spec_config_items(input: Seq<char>) -> (Seq<SpecConfigItem>, Seq<char>, ParseError)
    decreases input.len(),
{
    match spec_config_item(input) {
        Err(e) => (Seq::empty(), input, e),
        Ok(pr) => if pr.1.len() < input.len() {
            let t = spec_config_items(pr.1);
            (seq![pr.0] + t.0, t.1, t.2)
        } else {
            (seq![pr.0], pr.1, ParseError::EndOfInput)
        },
    }
}

/// Repeating a configuration-item parser means exactly
/// [`spec_config_items`].
pub proof fn lemma_repeat_config_items_equiv(o: &OneOf<ConfigItem>, input: Seq<char>)
    requires
        config_item_branches(o),
    ensures
        spec_repeat(o, input) == spec_config_items(input),
    decreases input.len(),
{
    lemma_config_item_equiv(o, input);
    match spec_config_item(input) {
        Err(_) => {},
        Ok(pr) => {
            if pr.1.len() < input.len() {
                lemma_repeat_config_items_equiv(o, pr.1);
            }
        },
    }
}

/// The meaning of [`parse_config`]: skip any whitespace; without a `render:`
/// marker there, the defaults and that position; with one, zero-or-more
/// configuration items follow it, each overriding the default for its key in
/// order of appearance. The config block never fails: a missing or malformed
/// block simply leaves the defaults in place and the input at the point
/// where the block ended.
pub open spec fn spec_parse_config(input: Seq<char>) -> (SpecConfig, Seq<char>) {
    let start = spec_skip_ws(input);
    match spec_literal("render:"@, start) {
        Err(_) => (spec_default_config(), start),
        Ok(p) => {
            let t = spec_config_items(p.1);
            (spec_apply_items(spec_default_config(), t.0), t.1)
        },
    }
}

/// Parses the configuration block and returns the resulting configuration
/// together with the remaining input, where the rule block begins.
pub fn parse_config<'a>(input: &'a str) -> (r: Result<(RendererConfig, &'a str), ParseError>)
    ensures
        r matches Ok(p) && p.0.deep_view() == spec_parse_config(input@).0 && p.1@
            == spec_parse_config(input@).1,
{
    let start = match skip_all_ws(input) {
        Ok(p) => p.1,
        Err(e) => {
            return Err(e);
        },
    };
    let marker = literal("render:");
    match marker.parse(start) {
        Err(_) => Ok((RendererConfig::default(), start)),
        Ok((_, after_marker)) => {
            let items_parser = many(config_item_parser());
            proof {
                lemma_config_item_consumes(&items_parser.p);
                lemma_repeat_config_items_equiv(&items_parser.p, after_marker@);
            }
            match items_parser.parse(after_marker) {
                Err(e) => Err(e),
                Ok((items, rest)) => {
                    let mut config = RendererConfig::default();
                    let mut idx: usize = 0;
                    proof {
                        assert(items.deep_view().take(0) =~= Seq::<SpecConfigItem>::empty());
                    }
                    while idx < items.len()
                        invariant
                            0 <= idx <= items@.len(),
                            items.deep_view().len() == items@.len(),
                            config.deep_view() == spec_apply_items(
                                spec_default_config(),
                                items.deep_view().take(idx as int),
                            ),
                        decreases items@.len() - idx,
                    {
                        let item = &items[idx];
                        item.set(&mut config);
                        proof {
                            let dv = items.deep_view();
                            assert(dv.take(idx + 1).drop_last() =~= dv.take(idx as int));
                            assert(dv.take(idx + 1).last() == dv[idx as int]);
                        }
                        idx += 1;
                    }
                    proof {
                        assert(items.deep_view().take(items@.len() as int) =~= items.deep_view());
                    }
                    Ok((config, rest))
                },
            }
        },
    }
}

} // verus!
