//! Peer endorsements: one player vouching for a trait of another.

use vstd::prelude::*;

verus! {

/// Bit pattern of the 64-bit float `1.0`, the weight that `endorse` gives.
pub const UNIT_WEIGHT_BITS: u64 = 0x3FF0_0000_0000_0000;

/// A peer endorsement: `from` vouches for the `trait_name` of `to` at `tick`.
/// Its weight is a 64-bit float that no rule of the log reads; it is held as
/// that float's bit pattern, so it comes back exactly as it was given.
#[derive(Debug)]
pub struct Endorsement {
    pub from: String,
    pub to: String,
    pub trait_name: String,
    pub tick: u64,
    pub weight_bits: u64,
}

/// The contents of an endorsement.
pub struct EndorsementView {
    pub from: Seq<char>,
    pub to: Seq<char>,
    pub trait_name: Seq<char>,
    pub tick: u64,
    pub weight_bits: u64,
}

/// The 64-bit float with bit pattern `b` is NaN: every exponent bit is set
/// and the fraction is not zero.
pub open spec fn bits_are_nan(b: u64) -> bool {
    b & 0x7FF0_0000_0000_0000u64 == 0x7FF0_0000_0000_0000u64 && b & 0x000F_FFFF_FFFF_FFFFu64 != 0
}

/// Two 64-bit floats, given by their bit patterns, compare equal: neither is
/// NaN, and they have the same bits or are both zeros (of either sign).
pub open spec fn float_bits_equal(a: u64, b: u64) -> bool {
    !bits_are_nan(a) && !bits_are_nan(b) && (a == b || (a | b) & 0x7FFF_FFFF_FFFF_FFFFu64 == 0)
}

/// Whether two weights, given by their bit patterns, compare equal as floats.
pub fn weights_equal(a: u64, b: u64) -> (r: bool)
    ensures
        r == float_bits_equal(a, b),
{
    let a_nan = a & 0x7FF0_0000_0000_0000u64 == 0x7FF0_0000_0000_0000u64 && a
        & 0x000F_FFFF_FFFF_FFFFu64 != 0;
    let b_nan = b & 0x7FF0_0000_0000_0000u64 == 0x7FF0_0000_0000_0000u64 && b
        & 0x000F_FFFF_FFFF_FFFFu64 != 0;
    !a_nan && !b_nan && (a == b || (a | b) & 0x7FFF_FFFF_FFFF_FFFFu64 == 0)
}

impl View for Endorsement {
    type V = EndorsementView;

    open spec fn view(&self) -> EndorsementView {
        EndorsementView {
            from: self.from@,
            to: self.to@,
            trait_name: self.trait_name@,
            tick: self.tick,
            weight_bits: self.weight_bits,
        }
    }
}

impl Clone for Endorsement {
    fn clone(&self) -> (c: Self)
        ensures
            c@ == self@,
    {
        Endorsement {
            from: self.from.clone(),
            to: self.to.clone(),
            trait_name: self.trait_name.clone(),
            tick: self.tick,
            weight_bits: self.weight_bits,
        }
    }
}

impl Clone for EndorsementLog {
    fn clone(&self) -> (c: Self)
        ensures
            c@ == self@,
    {
        let endorsements = self.endorsements.clone();
        proof {
            assert forall|i: int| 0 <= i < endorsements@.len() implies endorsements@[i]@ == self.endorsements@[i]@ by {
                assert(cloned(self.endorsements@[i], endorsements@[i]));
            }
            assert(endorsements@.map_values(|e: Endorsement| e@) =~= self@);
        }
        EndorsementLog { endorsements }
    }
}

impl PartialEq for Endorsement {
    fn eq(&self, other: &Self) -> (r: bool) {
        self.from == other.from && self.to == other.to && self.trait_name == other.trait_name
            && self.tick == other.tick && weights_equal(self.weight_bits, other.weight_bits)
    }
}

impl vstd::std_specs::cmp::PartialEqSpecImpl for Endorsement {
    open spec fn obeys_eq_spec() -> bool {
        true
    }

    open spec fn eq_spec(&self, other: &Self) -> bool {
        &&& self.from@ == other.from@
        &&& self.to@ == other.to@
        &&& self.trait_name@ == other.trait_name@
        &&& self.tick == other.tick
        &&& float_bits_equal(self.weight_bits, other.weight_bits)
    }
}

/// Log of all peer endorsements, oldest first.
#[derive(Debug)]
pub struct EndorsementLog {
    pub endorsements: Vec<Endorsement>,
}

impl View for EndorsementLog {
    type V = Seq<EndorsementView>;

    open spec fn view(&self) -> Seq<EndorsementView> {
        self.endorsements@.map_values(|e: Endorsement| e@)
    }
}

/// The contents of a list of borrowed endorsements.
pub open spec fn ref_views(s: Seq<&Endorsement>) -> Seq<EndorsementView> {
    s.map_values(|e: &Endorsement| e@)
}

/// The endorsements of `log` that target `player`, in log order.
pub open spec fn received(log: Seq<EndorsementView>, player: Seq<char>) -> Seq<EndorsementView>
    decreases log.len(),
{
    if log.len() == 0 {
        Seq::empty()
    } else {
        let earlier = received(log.drop_last(), player);
        if log.last().to == player {
            earlier.push(log.last())
        } else {
            earlier
        }
    }
}

/// How many of the endorsements `s` vouch for the trait `t`.
pub open spec fn count_trait(s: Seq<EndorsementView>, t: Seq<char>) -> nat
    decreases s.len(),
{
    if s.len() == 0 {
        0
    } else {
        count_trait(s.drop_last(), t) + if s.last().trait_name == t {
            1nat
        } else {
            0nat
        }
    }
}

/// `t` is a most-endorsed trait among `s`: some endorsement in `s` vouches for
/// it and no trait is vouched for more often.
pub open spec fn is_most_endorsed(s: Seq<EndorsementView>, t: Seq<char>) -> bool {
    &&& count_trait(s, t) > 0
    &&& forall|u: Seq<char>| #[trigger] count_trait(s, u) <= count_trait(s, t)
}

/// Among the most-endorsed traits of `s`, `t` is the one whose first
/// endorsement comes earliest: some endorsement vouches for `t`, and every
/// endorsement before it vouches for a trait endorsed less often than `t`.
pub open spec fn endorsed_first_among_most(s: Seq<EndorsementView>, t: Seq<char>) -> bool {
    exists|i: int|
        0 <= i < s.len() && (#[trigger] s[i]).trait_name == t && forall|j: int|
            0 <= j < i ==> count_trait(s, (#[trigger] s[j]).trait_name) < count_trait(s, t)
}

/// A trait is counted only if some endorsement vouches for it.
pub proof fn lemma_counted_trait_occurs(s: Seq<EndorsementView>, t: Seq<char>)
    requires
        count_trait(s, t) > 0,
    ensures
        exists|i: int| 0 <= i < s.len() && (#[trigger] s[i]).trait_name == t,
    decreases s.len(),
{
    if s.last().trait_name == t {
        assert(s[s.len() - 1].trait_name == t);
    } else {
        lemma_counted_trait_occurs(s.drop_last(), t);
        let i = choose|i: int| 0 <= i < s.drop_last().len() && (#[trigger] s.drop_last()[i]).trait_name == t;
        assert(s[i] == s.drop_last()[i]);
    }
}

/// Everything `received` returns targets the player.
pub proof fn lemma_received_targets(log: Seq<EndorsementView>, player: Seq<char>, i: int)
    requires
        0 <= i < received(log, player).len(),
    ensures
        received(log, player)[i].to == player,
        received(log, player).len() <= log.len(),
    decreases log.len(),
{
    if log.len() > 0 {
        let earlier = received(log.drop_last(), player);
        if i < earlier.len() {
            lemma_received_targets(log.drop_last(), player, i);
        } else {
            lemma_received_len(log.drop_last(), player);
        }
    }
}

proof fn lemma_received_len(log: Seq<EndorsementView>, player: Seq<char>)
    ensures
        received(log, player).len() <= log.len(),
    decreases log.len(),
{
    if log.len() > 0 {
        lemma_received_len(log.drop_last(), player);
    }
}

/// Endorsing adds one endorsement for the target, after all earlier ones, and
/// leaves what every other player received unchanged.
pub proof fn lemma_endorse_appends(log: Seq<EndorsementView>, e: EndorsementView, player: Seq<char>)
    ensures
        received(log.push(e), player) == if e.to == player {
            received(log, player).push(e)
        } else {
            received(log, player)
        },
        e.to == player ==> received(log.push(e), player).len() == received(log, player).len() + 1,
        e.to != player ==> received(log.push(e), player).len() == received(log, player).len(),
{
    assert(log.push(e).drop_last() =~= log);
}

/// A fresh log holds no endorsement for anyone.
pub proof fn lemma_empty_log(player: Seq<char>)
    ensures
        received(Seq::empty(), player).len() == 0,
{
}

/// Counting one more endorsement.
proof fn lemma_count_push(s: Seq<EndorsementView>, e: EndorsementView, t: Seq<char>)
    ensures
        count_trait(s.push(e), t) == count_trait(s, t) + if e.trait_name == t {
            1nat
        } else {
            0nat
        },
{
    assert(s.push(e).drop_last() =~= s);
}

/// How many endorsements in `list` vouch for `t`.
fn count_in(list: &Vec<&Endorsement>, t: &String) -> (c: usize)
    ensures
        c == count_trait(ref_views(list@), t@),
{
    let mut c: usize = 0;
    let mut i: usize = 0;
    while i < list.len()
        invariant
            i <= list.len(),
            c == count_trait(ref_views(list@.take(i as int)), t@),
            c <= i,
        decreases list.len() - i,
    {
        proof {
            assert(ref_views(list@.take(i + 1)) =~= ref_views(list@.take(i as int)).push(
                list@[i as int]@,
            ));
            lemma_count_push(ref_views(list@.take(i as int)), list@[i as int]@, t@);
        }
        if list[i].trait_name == *t {
            c = c + 1;
        }
        i = i + 1;
    }
    proof {
        assert(list@.take(list.len() as int) =~= list@);
    }
    c
}

impl Default for EndorsementLog {
    fn default() -> (log: Self)
        ensures
            log@ == Seq::<EndorsementView>::empty(),
    {
        EndorsementLog { endorsements: Vec::new() }
    }
}

impl EndorsementLog {
    /// Create a new empty endorsement log.
    pub fn new() -> (log: Self)
        ensures
            log@ == Seq::<EndorsementView>::empty(),
    {
        let log = EndorsementLog { endorsements: Vec::new() };
        assert(log@ =~= Seq::<EndorsementView>::empty());
        log
    }

    /// Add an endorsement, with weight `1.0`.
    pub fn endorse(&mut self, from: &str, to: &str, trait_name: &str, tick: u64)
        ensures
            final(self)@ == old(self)@.push(
                EndorsementView {
                    from: from@,
                    to: to@,
                    trait_name: trait_name@,
                    tick,
                    weight_bits: UNIT_WEIGHT_BITS,
                },
            ),
    {
        let e = Endorsement {
            from: from.to_owned(),
            to: to.to_owned(),
            trait_name: trait_name.to_owned(),
            tick,
            weight_bits: UNIT_WEIGHT_BITS,
        };
        self.endorsements.push(e);
        assert(self@ =~= old(self)@.push(
            EndorsementView {
                    from: from@,
                    to: to@,
                    trait_name: trait_name@,
                    tick,
                    weight_bits: UNIT_WEIGHT_BITS,
                },
        ));
    }

    /// Get all endorsements targeting a player, in log order.
    pub fn endorsements_for(&self, player: &str) -> (found: Vec<&Endorsement>)
        ensures
            ref_views(found@) == received(self@, player@),
    {
        let p = player.to_owned();
        let mut found: Vec<&Endorsement> = Vec::new();
        let mut i: usize = 0;
        while i < self.endorsements.len()
            invariant
                i <= self.endorsements.len(),
                p@ == player@,
                ref_views(found@) == received(self@.take(i as int), player@),
            decreases self.endorsements.len() - i,
        {
            let e = &self.endorsements[i];
            proof {
                assert(self@.take(i + 1).drop_last() =~= self@.take(i as int));
                assert(self@.take(i + 1).last() == e@);
            }
            if e.to == p {
                found.push(e);
                assert(ref_views(found@) =~= received(self@.take(i as int), player@).push(e@));
            }
            i = i + 1;
        }
        proof {
            assert(self@.take(self.endorsements.len() as int) =~= self@);
        }
        found
    }

    /// Count of endorsements for a player.
    pub fn endorsement_count(&self, player: &str) -> (n: usize)
        ensures
            n == received(self@, player@).len(),
    {
        let found = self.endorsements_for(player);
        found.len()
    }

    /// The most-endorsed trait for a player, or `None` if no endorsements.
    /// Among equally endorsed traits, the one endorsed first wins.
    pub fn most_endorsed_trait(&self, player: &str) -> (best: Option<String>)
        ensures
            best is None <==> received(self@, player@).len() == 0,
            best matches Some(t) ==> is_most_endorsed(received(self@, player@), t@),
            best matches Some(t) ==> endorsed_first_among_most(received(self@, player@), t@),
    {
        let mine = self.endorsements_for(player);
        let ghost s = received(self@, player@);
        if mine.len() == 0 {
            return None;
        }
        assert(ref_views(mine@)[0] == mine@[0]@);
        let mut best: usize = 0;
        let mut best_count = count_in(&mine, &mine[0].trait_name);
        let mut i: usize = 1;
        while i < mine.len()
            invariant
                s == ref_views(mine@),
                1 <= i <= mine.len(),
                best < i,
                best_count == count_trait(s, s[best as int].trait_name),
                forall|j: int| 0 <= j < i ==> count_trait(s, #[trigger] s[j].trait_name) <= best_count,
                forall|j: int| 0 <= j < best ==> count_trait(s, #[trigger] s[j].trait_name) < best_count,
            decreases mine.len() - i,
        {
            assert(s[i as int] == mine@[i as int]@);
            let c = count_in(&mine, &mine[i].trait_name);
            if c > best_count {
                best = i;
                best_count = c;
            }
            i = i + 1;
        }
        let t = mine[best].trait_name.clone();
        proof {
            assert(s[best as int] == mine@[best as int]@);
            assert(t@ == s[best as int].trait_name);
            assert(count_trait(s, t@) > 0) by {
                lemma_count_positive_at(s, best as int);
            }
            assert forall|u: Seq<char>| #[trigger] count_trait(s, u) <= count_trait(s, t@) by {
                if count_trait(s, u) > 0 {
                    lemma_counted_trait_occurs(s, u);
                    let k = choose|k: int| 0 <= k < s.len() && (#[trigger] s[k]).trait_name == u;
                    assert(count_trait(s, s[k].trait_name) <= best_count);
                }
            }
        }
        Some(t)
    }
}

/// The trait of any endorsement in `s` is counted at least once.
proof fn lemma_count_positive_at(s: Seq<EndorsementView>, i: int)
    requires
        0 <= i < s.len(),
    ensures
        count_trait(s, s[i].trait_name) > 0,
    decreases s.len(),
{
    if i < s.len() - 1 {
        lemma_count_positive_at(s.drop_last(), i);
        assert(s.drop_last()[i] == s[i]);
    }
}

} // verus!
