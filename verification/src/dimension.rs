use vstd::prelude::*;

verus! {

/// One axis of a player's reputation.
#[derive(Clone, Copy, Debug, PartialEq, Eq, Structural)]
pub enum Dimension {
    Helpfulness,
    Creativity,
    Reliability,
    Generosity,
    Teaching,
    Conservation,
}

/// Number of reputation dimensions.
pub const DIMENSION_COUNT: usize = 6;

/// The dimensions in their canonical order (the order in which a score lists them).
pub open spec fn dimension_order() -> Seq<Dimension> {
    seq![
        Dimension::Helpfulness,
        Dimension::Creativity,
        Dimension::Reliability,
        Dimension::Generosity,
        Dimension::Teaching,
        Dimension::Conservation,
    ]
}

impl Dimension {
    /// Position of the dimension in the canonical order.
    pub open spec fn position(self) -> int {
        match self {
            Dimension::Helpfulness => 0,
            Dimension::Creativity => 1,
            Dimension::Reliability => 2,
            Dimension::Generosity => 3,
            Dimension::Teaching => 4,
            Dimension::Conservation => 5,
        }
    }

    /// The name under which the dimension is reported.
    pub open spec fn spec_name(self) -> Seq<char> {
        match self {
            Dimension::Helpfulness => "helpfulness"@,
            Dimension::Creativity => "creativity"@,
            Dimension::Reliability => "reliability"@,
            Dimension::Generosity => "generosity"@,
            Dimension::Teaching => "teaching"@,
            Dimension::Conservation => "conservation"@,
        }
    }

    /// Share of the dimension in the overall score, in hundredths.
    pub open spec fn spec_weight(self) -> nat {
        match self {
            Dimension::Helpfulness => 20,
            Dimension::Reliability => 20,
            _ => 15,
        }
    }

    /// Share of the dimension in the overall score, in hundredths:
    /// reliability and helpfulness matter a bit more than the rest.
    pub fn overall_weight(&self) -> (w: u32)
        ensures
            w == self.spec_weight(),
    {
        match self {
            Dimension::Helpfulness => 20,
            Dimension::Reliability => 20,
            _ => 15,
        }
    }

    /// The dimension at position `i` of the canonical order.
    pub fn from_index(i: usize) -> (d: Dimension)
        requires
            i < DIMENSION_COUNT,
        ensures
            d == dimension_order()[i as int],
            d.position() == i,
    {
        match i {
            0 => Dimension::Helpfulness,
            1 => Dimension::Creativity,
            2 => Dimension::Reliability,
            3 => Dimension::Generosity,
            4 => Dimension::Teaching,
            _ => Dimension::Conservation,
        }
    }

    /// Position of the dimension in the canonical order.
    pub fn index(&self) -> (i: usize)
        ensures
            i == self.position(),
            i < DIMENSION_COUNT,
    {
        match self {
            Dimension::Helpfulness => 0,
            Dimension::Creativity => 1,
            Dimension::Reliability => 2,
            Dimension::Generosity => 3,
            Dimension::Teaching => 4,
            Dimension::Conservation => 5,
        }
    }

    /// The name under which the dimension is reported.
    pub fn name(&self) -> (s: String)
        ensures
            s@ == self.spec_name(),
    {
        match self {
            Dimension::Helpfulness => "helpfulness".to_owned(),
            Dimension::Creativity => "creativity".to_owned(),
            Dimension::Reliability => "reliability".to_owned(),
            Dimension::Generosity => "generosity".to_owned(),
            Dimension::Teaching => "teaching".to_owned(),
            Dimension::Conservation => "conservation".to_owned(),
        }
    }
}

/// The canonical order lists every dimension exactly once, each at its own position.
pub proof fn lemma_order_matches_position(d: Dimension)
    ensures
        dimension_order().len() == DIMENSION_COUNT,
        0 <= d.position() < DIMENSION_COUNT,
        dimension_order()[d.position()] == d,
{
}

/// The weights of the overall score add up to one whole, and helpfulness and
/// reliability weigh more than any other dimension.
pub proof fn lemma_weights(d: Dimension)
    ensures
        Dimension::Helpfulness.spec_weight() + Dimension::Creativity.spec_weight()
            + Dimension::Reliability.spec_weight() + Dimension::Generosity.spec_weight()
            + Dimension::Teaching.spec_weight() + Dimension::Conservation.spec_weight() == 100,
        d != Dimension::Helpfulness && d != Dimension::Reliability ==> d.spec_weight()
            < Dimension::Helpfulness.spec_weight() && d.spec_weight()
            < Dimension::Reliability.spec_weight(),
{
}

/// Helpfulness and reliability, the dimensions that matter a bit more.
pub open spec fn is_favoured(d: Dimension) -> bool {
    d == Dimension::Helpfulness || d == Dimension::Reliability
}

/// How the overall score is shared out: helpfulness and reliability weigh a
/// fifth each, and every other dimension (creativity, generosity, teaching,
/// conservation) weighs the same, which makes fifteen hundredths each.
pub proof fn lemma_weight_shares(d: Dimension, e: Dimension)
    ensures
        is_favoured(d) ==> d.spec_weight() == 20,
        !is_favoured(d) && !is_favoured(e) ==> d.spec_weight() == e.spec_weight(),
        !is_favoured(d) ==> d.spec_weight() == 15,
        Dimension::Creativity.spec_weight() == 15,
        Dimension::Generosity.spec_weight() == 15,
        Dimension::Teaching.spec_weight() == 15,
        Dimension::Conservation.spec_weight() == 15,
{
}

/// The overall score, in hundredths, of values given in canonical order: each
/// value times the weight of its dimension, added up.
pub open spec fn weighted_total(values: Seq<int>) -> int
    decreases values.len(),
{
    if values.len() == 0 {
        0
    } else {
        weighted_total(values.drop_last()) + dimension_order()[values.len() - 1].spec_weight()
            * values.last()
    }
}

/// A score with value `v` on dimension `d` and zero everywhere else.
pub open spec fn single(d: Dimension, v: int) -> Seq<int> {
    Seq::new(DIMENSION_COUNT as nat, |i: int| if i == d.position() { v } else { 0 })
}

/// The overall score of a score that holds `v` on one dimension only is `v`
/// times a fifth for helpfulness and reliability, and `v` times fifteen
/// hundredths for any other dimension.
pub proof fn lemma_single_dimension_overall(d: Dimension, v: int)
    ensures
        weighted_total(single(d, v)) == v * (if is_favoured(d) {
            20int
        } else {
            15int
        }),
{
    let s = single(d, v);
    reveal_with_fuel(weighted_total, 7);
    assert(s.drop_last().drop_last().drop_last().drop_last().drop_last().drop_last() =~= Seq::<
        int,
    >::empty());
    assert(s.drop_last().last() == s[4]);
    assert(s.drop_last().drop_last().last() == s[3]);
    assert(s.drop_last().drop_last().drop_last().last() == s[2]);
    assert(s.drop_last().drop_last().drop_last().drop_last().last() == s[1]);
    assert(s.drop_last().drop_last().drop_last().drop_last().drop_last().last() == s[0]);
}

/// Distinct dimensions are reported under distinct names.
pub proof fn lemma_names_distinct(a: Dimension, b: Dimension)
    requires
        a != b,
    ensures
        a.spec_name() != b.spec_name(),
{
    reveal_strlit("helpfulness");
    reveal_strlit("creativity");
    reveal_strlit("reliability");
    reveal_strlit("generosity");
    reveal_strlit("teaching");
    reveal_strlit("conservation");
    assert(a.spec_name()[0] != b.spec_name()[0] || a.spec_name().len() != b.spec_name().len()
        || a.spec_name()[1] != b.spec_name()[1]);
}

} // verus!
