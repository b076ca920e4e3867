//! The data produced by a parse: rewrite rules, the renderer configuration,
//! and the L-system model pairing them.
//!
//! Every type is a plain value with a ghost view, so that parser contracts
//! can speak about it mathematically.

use vstd::prelude::*;

verus! {

/// The view of a [`Rule`].
pub ghost struct SpecRule {
    /// The symbol the rule rewrites.
    pub symbol: char,
    /// The non-empty replacement sequence.
    pub replacements: Seq<char>,
}

/// One rewrite rule: a symbol to match and a non-empty ordered sequence of
/// replacement symbols. Rules are immutable once constructed; identity is
/// structural.
#[derive(Debug)]
pub struct Rule {
    /// The symbol the rule rewrites.
    pub symbol: char,
    /// The replacement symbols, in order.
    pub replacements: Vec<char>,
}

impl DeepView for Rule {
    type V = SpecRule;

    open spec fn deep_view(&self) -> SpecRule {
        SpecRule { symbol: self.symbol, replacements: self.replacements.deep_view() }
    }
}

impl Rule {
    /// A rule rewriting `symbol` to `replacements`, which must not be empty.
    pub fn new(symbol: char, replacements: Vec<char>) -> (r: Rule)
        requires
            replacements@.len() > 0,
        ensures
            r.symbol == symbol,
            r.replacements == replacements,
    {
        Rule { symbol, replacements }
    }

    /// A rule's replacement sequence is never empty.
    pub open spec fn valid(&self) -> bool {
        self.replacements@.len() > 0
    }
}

impl PartialEq for Rule {
    fn eq(&self, other: &Rule) -> (r: bool) {
        self.symbol == other.symbol && eq_vec_char(&self.replacements, &other.replacements)
    }
}

impl vstd::std_specs::cmp::PartialEqSpecImpl for Rule {
    open spec fn obeys_eq_spec() -> bool {
        true
    }

    open spec fn eq_spec(&self, other: &Rule) -> bool {
        self.symbol == other.symbol && self.replacements@ == other.replacements@
    }
}

fn eq_vec_char(a: &Vec<char>, b: &Vec<char>) -> (r: bool)
    ensures
        r == (a@ == b@),
{
    if a.len() != b.len() {
        return false;
    }
    let mut i: usize = 0;
    while i < a.len()
        invariant
            0 <= i <= a@.len(),
            a@.len() == b@.len(),
            forall|j: int| 0 <= j < i ==> a@[j] == b@[j],
        decreases a@.len() - i,
    {
        if a[i] != b[i] {
            return false;
        }
        i += 1;
    }
    proof {
        assert(a@ =~= b@);
    }
    true
}

fn clone_vec_char(v: &Vec<char>) -> (r: Vec<char>)
    ensures
        r@ == v@,
{
    let mut r: Vec<char> = Vec::new();
    let mut i: usize = 0;
    while i < v.len()
        invariant
            0 <= i <= v@.len(),
            r@ == v@.subrange(0, i as int),
        decreases v@.len() - i,
    {
        r.push(v[i]);
        proof {
            assert(r@ =~= v@.subrange(0, i + 1));
        }
        i += 1;
    }
    proof {
        assert(v@.subrange(0, v@.len() as int) =~= v@);
    }
    r
}

/// The view of a [`Decimal`].
pub ghost struct SpecDecimal {
    /// Whether the literal carried a minus sign.
    pub negative: bool,
    /// The digits before the decimal point, in order; never empty.
    pub int_digits: Seq<char>,
    /// The digits after the decimal point, in order; empty when the literal
    /// had no fractional part.
    pub frac_digits: Seq<char>,
}

/// A decimal numeric value, kept exactly as its digits: an optional sign,
/// the digits of the integer part, and the digits of the fractional part.
#[derive(Debug)]
pub struct Decimal {
    /// Whether the value is negative.
    pub negative: bool,
    /// The digits before the decimal point.
    pub int_digits: Vec<char>,
    /// The digits after the decimal point.
    pub frac_digits: Vec<char>,
}

impl DeepView for Decimal {
    type V = SpecDecimal;

    open spec fn deep_view(&self) -> SpecDecimal {
        SpecDecimal {
            negative: self.negative,
            int_digits: self.int_digits.deep_view(),
            frac_digits: self.frac_digits.deep_view(),
        }
    }
}

impl Decimal {
    /// A decimal from its sign and digits.
    pub fn new(negative: bool, int_digits: Vec<char>, frac_digits: Vec<char>) -> (r: Decimal)
        ensures
            r.negative == negative,
            r.int_digits == int_digits,
            r.frac_digits == frac_digits,
    {
        Decimal { negative, int_digits, frac_digits }
    }

    /// An exact copy of this value.
    pub fn duplicate(&self) -> (r: Decimal)
        ensures
            r.deep_view() == self.deep_view(),
    {
        let r = Decimal {
            negative: self.negative,
            int_digits: clone_vec_char(&self.int_digits),
            frac_digits: clone_vec_char(&self.frac_digits),
        };
        proof {
            assert(r.int_digits.deep_view() =~= self.int_digits.deep_view());
            assert(r.frac_digits.deep_view() =~= self.frac_digits.deep_view());
        }
        r
    }
}

impl PartialEq for Decimal {
    fn eq(&self, other: &Decimal) -> (r: bool) {
        self.negative == other.negative && eq_vec_char(&self.int_digits, &other.int_digits)
            && eq_vec_char(&self.frac_digits, &other.frac_digits)
    }
}

impl vstd::std_specs::cmp::PartialEqSpecImpl for Decimal {
    open spec fn obeys_eq_spec() -> bool {
        true
    }

    open spec fn eq_spec(&self, other: &Decimal) -> bool {
        self.negative == other.negative && self.int_digits@ == other.int_digits@
            && self.frac_digits@ == other.frac_digits@
    }
}

/// The view of a [`RendererConfig`].
pub ghost struct SpecConfig {
    /// The length of one drawing step.
    pub step: SpecDecimal,
    /// The turn angle.
    pub angle: SpecDecimal,
    /// The factor applied to the step length per generation.
    pub step_multiplier: SpecDecimal,
}

/// Rendering parameters: step length, turn angle and step multiplier. Each
/// is independently optional in the source text; fields not present retain
/// their defaults.
#[derive(Debug)]
pub struct RendererConfig {
    /// The length of one drawing step.
    pub step: Decimal,
    /// The turn angle.
    pub angle: Decimal,
    /// The factor applied to the step length per generation.
    pub step_multiplier: Decimal,
}

impl DeepView for RendererConfig {
    type V = SpecConfig;

    open spec fn deep_view(&self) -> SpecConfig {
        SpecConfig {
            step: self.step.deep_view(),
            angle: self.angle.deep_view(),
            step_multiplier: self.step_multiplier.deep_view(),
        }
    }
}

/// The view of the default configuration: step 2, angle 45, step multiplier
/// 1.5.
pub open spec fn spec_default_config() -> SpecConfig {
    SpecConfig {
        step: SpecDecimal { negative: false, int_digits: seq!['2'], frac_digits: seq![] },
        angle: SpecDecimal { negative: false, int_digits: seq!['4', '5'], frac_digits: seq![] },
        step_multiplier: SpecDecimal {
            negative: false,
            int_digits: seq!['1'],
            frac_digits: seq!['5'],
        },
    }
}

impl Default for RendererConfig {
    /// The configuration used when the source text overrides nothing.
    fn default() -> (r: RendererConfig)
        ensures
            r.deep_view() == spec_default_config(),
    {
        let r = RendererConfig {
            step: Decimal::new(false, vec!['2'], Vec::new()),
            angle: Decimal::new(false, vec!['4', '5'], Vec::new()),
            step_multiplier: Decimal::new(false, vec!['1'], vec!['5']),
        };
        proof {
            assert(r.step.deep_view().int_digits =~= seq!['2']);
            assert(r.step.deep_view().frac_digits =~= Seq::<char>::empty());
            assert(r.angle.deep_view().int_digits =~= seq!['4', '5']);
            assert(r.angle.deep_view().frac_digits =~= Seq::<char>::empty());
            assert(r.step_multiplier.deep_view().int_digits =~= seq!['1']);
            assert(r.step_multiplier.deep_view().frac_digits =~= seq!['5']);
        }
        r
    }
}

/// The view of a [`RenderConfigItem`].
pub ghost enum SpecConfigItem {
    /// Override the step length.
    Step(SpecDecimal),
    /// Override the turn angle.
    Angle(SpecDecimal),
    /// Override the step multiplier.
    StepMultiplier(SpecDecimal),
}

/// One tagged configuration update, as parsed from a `key = value` item.
#[derive(Debug)]
pub enum RenderConfigItem {
    /// Override the step length.
    Step(Decimal),
    /// Override the turn angle.
    Angle(Decimal),
    /// Override the step multiplier.
    StepMultiplier(Decimal),
}

impl DeepView for RenderConfigItem {
    type V = SpecConfigItem;

    open spec fn deep_view(&self) -> SpecConfigItem {
        match self {
            RenderConfigItem::Step(d) => SpecConfigItem::Step(d.deep_view()),
            RenderConfigItem::Angle(d) => SpecConfigItem::Angle(d.deep_view()),
            RenderConfigItem::StepMultiplier(d) => SpecConfigItem::StepMultiplier(d.deep_view()),
        }
    }
}

/// The field that `item` overrides is replaced; the others are kept.
pub open spec fn spec_apply_item(c: SpecConfig, item: SpecConfigItem) -> SpecConfig {
    match item {
        SpecConfigItem::Step(d) => SpecConfig { step: d, ..c },
        SpecConfigItem::Angle(d) => SpecConfig { angle: d, ..c },
        SpecConfigItem::StepMultiplier(d) => SpecConfig { step_multiplier: d, ..c },
    }
}

/// Applies `items` to `c` in order, later overrides winning.
pub open spec fn spec_apply_items(c: SpecConfig, items: Seq<SpecConfigItem>) -> SpecConfig
    decreases items.len(),
{
    if items.len() == 0 {
        c
    } else {
        spec_apply_item(spec_apply_items(c, items.drop_last()), items.last())
    }
}

impl RenderConfigItem {
    /// Overwrites the one field of `config` that this item addresses.
    pub fn set(&self, config: &mut RendererConfig)
        ensures
            final(config).deep_view() == spec_apply_item(old(config).deep_view(), self.deep_view()),
    {
        match self {
            RenderConfigItem::Step(step) => config.step = step.duplicate(),
            RenderConfigItem::Angle(angle) => config.angle = angle.duplicate(),
            RenderConfigItem::StepMultiplier(mul) => config.step_multiplier = mul.duplicate(),
        }
    }
}

/// The view of an [`LSystemRules`]: the rules in order of appearance.
pub type SpecRules = Seq<SpecRule>;

/// The ordered rule set, exactly as written in the source text: no
/// deduplication, no referential validation.
#[derive(Debug, PartialEq)]
pub struct LSystemRules {
    /// The rules, in order of appearance.
    pub rules: Vec<Rule>,
}

impl DeepView for LSystemRules {
    type V = SpecRules;

    open spec fn deep_view(&self) -> SpecRules {
        self.rules.deep_view()
    }
}

impl LSystemRules {
    /// The rule set holding exactly `rules`, in their order.
    pub fn from_rules(rules: Vec<Rule>) -> (r: LSystemRules)
        ensures
            r.rules == rules,
    {
        LSystemRules { rules }
    }
}

/// The view of an [`LSystem`].
pub ghost struct SpecLSystem {
    /// The rules, in order of appearance.
    pub rules: SpecRules,
    /// The rendering parameters.
    pub render_config: SpecConfig,
}

/// The parsed L-system model: the rule set paired with the renderer
/// configuration. It is the sole output artifact of a parse.
#[derive(Debug)]
pub struct LSystem {
    /// The rewrite rules.
    pub rules: LSystemRules,
    /// The rendering parameters.
    pub render_config: RendererConfig,
}

impl DeepView for LSystem {
    type V = SpecLSystem;

    open spec fn deep_view(&self) -> SpecLSystem {
        SpecLSystem {
            rules: self.rules.deep_view(),
            render_config: self.render_config.deep_view(),
        }
    }
}

} // verus!
