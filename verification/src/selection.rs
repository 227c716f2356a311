//! The natural selection between tournaments: which players are kept, which
//! are replaced by a copy of a better one and mutated, and which by a new
//! random player. The random coin flips and the comparisons of ratings are
//! made outside and handed in; players are listed best first.

use vstd::prelude::*;

verus! {

/// What happens to the player at one position.
#[derive(Debug, Clone, Copy, PartialEq, Eq, Structural)]
pub enum SelectionStep {
    /// The player stays as it is.
    Keep,
    /// The player is mutated in place.
    Evolve,
    /// The player becomes a copy of the player at the given position (as that
    /// player is at this point of the plan), which is then mutated.
    CloneAndEvolve(usize),
    /// The player becomes a new random player, which is not mutated.
    NewRandom,
}

/// The number of `true` in `s`.
pub open spec fn count_true(s: Seq<bool>) -> int
    decreases s.len(),
{
    if s.len() == 0 {
        0
    } else {
        count_true(s.drop_last()) + if s.last() { 1int } else { 0int }
    }
}

/// The position of the first `true` in `s` (its length when there is none).
pub open spec fn first_true(s: Seq<bool>) -> int
    decreases s.len(),
{
    if s.len() == 0 {
        0
    } else if s[0] {
        0
    } else {
        1 + first_true(s.drop_first())
    }
}

proof fn lemma_first_true(s: Seq<bool>)
    ensures
        0 <= first_true(s) <= s.len(),
        forall|j: int| 0 <= j < first_true(s) ==> !s[j],
        first_true(s) < s.len() ==> s[first_true(s)],
        (exists|j: int| 0 <= j < s.len() && s[j]) ==> first_true(s) < s.len(),
    decreases s.len(),
{
    if s.len() > 0 && !s[0] {
        lemma_first_true(s.drop_first());
        assert forall|j: int| 0 <= j < first_true(s) implies !s[j] by {
            if j > 0 {
                assert(s[j] == s.drop_first()[j - 1]);
            }
        }
        if exists|j: int| 0 <= j < s.len() && s[j] {
            let j = choose|j: int| 0 <= j < s.len() && s[j];
            assert(s.drop_first()[j - 1]);
        }
    }
}

/// The step for the player at position `i` when networks are selected: players
/// that are not networks, and the networks ranked above the `keep`-th, stay;
/// from the `keep`-th network on, each network becomes a copy of the player
/// `keep` positions above it if that one is a network, and otherwise (as the
/// coin says) a new random network or a copy of the best network.
pub open spec fn spec_nn_step(is_nn: Seq<bool>, keep: int, coin: bool, i: int) -> SelectionStep {
    if !is_nn[i] || count_true(is_nn.subrange(0, i + 1)) < keep {
        SelectionStep::Keep
    } else if is_nn[i - keep] {
        SelectionStep::CloneAndEvolve((i - keep) as usize)
    } else if coin {
        SelectionStep::NewRandom
    } else {
        SelectionStep::CloneAndEvolve(first_true(is_nn) as usize)
    }
}

/// Whether no network from the `keep`-th on lies in the first `keep`
/// positions, so that the player `keep` positions above it exists.
pub open spec fn copies_exist(is_nn: Seq<bool>, keep: int) -> bool {
    forall|i: int| 0 <= i < is_nn.len() && is_nn[i] && count_true(is_nn.subrange(0, i + 1)) >= keep ==> i >= keep
}

/// The selection of networks: the step of each position (see `spec_nn_step`),
/// `coins[i]` being the coin flipped for position `i`. There must be a network.
pub fn nn_selection_plan(is_nn: &[bool], keep: usize, coins: &[bool]) -> (r: Vec<SelectionStep>)
    requires
        coins@.len() == is_nn@.len(),
        exists|j: int| 0 <= j < is_nn@.len() && is_nn@[j],
        copies_exist(is_nn@, keep as int),
    ensures
        r@.len() == is_nn@.len(),
        forall|i: int| 0 <= i < r@.len() ==> #[trigger] r@[i] == spec_nn_step(is_nn@, keep as int, coins@[i], i),
{
    let n = is_nn.len();
    let best = first_nn(is_nn);
    let mut r: Vec<SelectionStep> = Vec::new();
    let mut nns_i: usize = 0;
    let mut i: usize = 0;
    while i < n
        invariant
            n == is_nn@.len(),
            coins@.len() == n,
            i <= n,
            best == first_true(is_nn@),
            copies_exist(is_nn@, keep as int),
            nns_i == count_true(is_nn@.subrange(0, i as int)),
            nns_i <= i,
            r@.len() == i,
            forall|j: int| 0 <= j < i ==> #[trigger] r@[j] == spec_nn_step(is_nn@, keep as int, coins@[j], j),
        decreases n - i,
    {
        proof {
            assert(is_nn@.subrange(0, i + 1).drop_last() =~= is_nn@.subrange(0, i as int));
        }
        if !is_nn[i] {
            r.push(SelectionStep::Keep);
        } else {
            nns_i = nns_i + 1;
            if nns_i < keep {
                r.push(SelectionStep::Keep);
            } else {
                let from = i - keep;
                if is_nn[from] {
                    r.push(SelectionStep::CloneAndEvolve(from));
                } else if coins[i] {
                    r.push(SelectionStep::NewRandom);
                } else {
                    r.push(SelectionStep::CloneAndEvolve(best));
                }
            }
        }
        i = i + 1;
    }
    r
}

fn first_nn(is_nn: &[bool]) -> (r: usize)
    requires
        exists|j: int| 0 <= j < is_nn@.len() && is_nn@[j],
    ensures
        r == first_true(is_nn@),
        r < is_nn@.len(),
        is_nn@[r as int],
{
    proof { lemma_first_true(is_nn@); }
    let mut i: usize = 0;
    while i < is_nn.len() && !is_nn[i]
        invariant
            i <= first_true(is_nn@),
            first_true(is_nn@) < is_nn@.len(),
            is_nn@[first_true(is_nn@)],
        decreases is_nn@.len() - i,
    {
        i = i + 1;
    }
    i
}

/// The network renewed after the selection: the last network at a position
/// from `keep` on, if any.
pub fn last_nn_to_renew(is_nn: &[bool], keep: usize) -> (r: Option<usize>)
    ensures
        match r {
            Some(i) => keep <= i < is_nn@.len() && is_nn@[i as int]
                && forall|j: int| i < j < is_nn@.len() ==> !is_nn@[j],
            None => forall|j: int| keep <= j < is_nn@.len() ==> !is_nn@[j],
        },
{
    let mut i: usize = is_nn.len();
    while i > keep
        invariant
            i <= is_nn@.len(),
            forall|j: int| i <= j < is_nn@.len() ==> !is_nn@[j],
        decreases i,
    {
        i = i - 1;
        if is_nn[i] {
            return Some(i);
        }
    }
    None
}

/// The step for the player at position `i` when the mixes of one kind are
/// selected: other players and the best mix stay; a mix rated below the
/// starting rating becomes (as the coin says) a new random mix, or a mutated
/// copy of the best mix; any other mix is mutated.
pub open spec fn spec_mix_step(is_kind: Seq<bool>, below_default: bool, coin: bool, i: int) -> SelectionStep {
    if !is_kind[i] || i == first_true(is_kind) {
        SelectionStep::Keep
    } else if below_default {
        if coin {
            SelectionStep::NewRandom
        } else {
            SelectionStep::CloneAndEvolve(first_true(is_kind) as usize)
        }
    } else {
        SelectionStep::Evolve
    }
}

/// The selection of the mixes of one kind: the step of each position (see
/// `spec_mix_step`). There must be a mix of the kind.
pub fn mix_selection_plan(is_kind: &[bool], below_default: &[bool], coins: &[bool]) -> (r: Vec<SelectionStep>)
    requires
        below_default@.len() == is_kind@.len(),
        coins@.len() == is_kind@.len(),
        exists|j: int| 0 <= j < is_kind@.len() && is_kind@[j],
    ensures
        r@.len() == is_kind@.len(),
        forall|i: int| 0 <= i < r@.len() ==> #[trigger] r@[i] == spec_mix_step(is_kind@, below_default@[i], coins@[i], i),
{
    let n = is_kind.len();
    let best = first_nn(is_kind);
    let mut r: Vec<SelectionStep> = Vec::new();
    let mut i: usize = 0;
    while i < n
        invariant
            n == is_kind@.len(),
            below_default@.len() == n,
            coins@.len() == n,
            i <= n,
            best == first_true(is_kind@),
            r@.len() == i,
            forall|j: int| 0 <= j < i ==> #[trigger] r@[j] == spec_mix_step(is_kind@, below_default@[j], coins@[j], j),
        decreases n - i,
    {
        if !is_kind[i] || i == best {
            r.push(SelectionStep::Keep);
        } else if below_default[i] {
            if coins[i] {
                r.push(SelectionStep::NewRandom);
            } else {
                r.push(SelectionStep::CloneAndEvolve(best));
            }
        } else {
            r.push(SelectionStep::Evolve);
        }
        i = i + 1;
    }
    r
}

/// The selection of networks only replaces networks, and only by networks:
/// every other player is kept, and every copy is taken from a network at the
/// same or a better position.
pub proof fn lemma_nn_selection_copies_networks(is_nn: Seq<bool>, keep: int, coin: bool, i: int)
    requires
        0 <= keep,
        0 <= i < is_nn.len(),
        is_nn.len() <= usize::MAX,
        exists|j: int| 0 <= j < is_nn.len() && is_nn[j],
        copies_exist(is_nn, keep),
    ensures
        !is_nn[i] ==> spec_nn_step(is_nn, keep, coin, i) == SelectionStep::Keep,
        spec_nn_step(is_nn, keep, coin, i) != SelectionStep::Evolve,
        spec_nn_step(is_nn, keep, coin, i) matches SelectionStep::CloneAndEvolve(j) ==> j <= i && is_nn[j as int],
{
    lemma_first_true(is_nn);
    if is_nn[i] {
        assert(first_true(is_nn) <= i);
    }
}

/// The selection of mixes of one kind only touches mixes of that kind, keeps
/// the best of them, and copies only from it.
pub proof fn lemma_mix_selection_keeps_best(is_kind: Seq<bool>, below_default: bool, coin: bool, i: int)
    requires
        0 <= i < is_kind.len(),
        is_kind.len() <= usize::MAX,
        exists|j: int| 0 <= j < is_kind.len() && is_kind[j],
    ensures
        (!is_kind[i] || i == first_true(is_kind)) ==> spec_mix_step(is_kind, below_default, coin, i) == SelectionStep::Keep,
        spec_mix_step(is_kind, below_default, coin, i) matches SelectionStep::CloneAndEvolve(j) ==> j < i && is_kind[j as int],
{
    lemma_first_true(is_kind);
    if is_kind[i] {
        assert(first_true(is_kind) <= i);
    }
}


/// Counting the `true` of a sequence: none in the empty sequence, and one more
/// for each `true` appended.
pub proof fn lemma_count_true_counts(s: Seq<bool>, b: bool)
    ensures
        count_true(Seq::<bool>::empty()) == 0,
        count_true(s.push(b)) == count_true(s) + if b { 1int } else { 0int },
        0 <= count_true(s) <= s.len(),
    decreases s.len(),
{
    assert(s.push(b).drop_last() =~= s);
    if s.len() > 0 {
        lemma_count_true_counts(s.drop_last(), b);
    }
}

/// The networks are selected by their rank among the networks, whatever their
/// positions among all players: a network at position `i` that has fewer than
/// `keep` networks up to and including it stays as it is, and every other
/// network is replaced: by a mutated copy of the player `keep` positions above
/// it when that player is a network, and otherwise by a new random network
/// when the coin says so, or else by a mutated copy of the best network.
pub proof fn lemma_nn_selection_keeps_top_ranked(is_nn: Seq<bool>, keep: int, coin: bool, i: int)
    requires
        0 <= keep,
        0 <= i < is_nn.len(),
        is_nn.len() <= usize::MAX,
        is_nn[i],
        copies_exist(is_nn, keep),
    ensures
        spec_nn_step(is_nn, keep, coin, i) == SelectionStep::Keep
            <==> count_true(is_nn.subrange(0, i + 1)) < keep,
        spec_nn_step(is_nn, keep, coin, i) != SelectionStep::Evolve,
        spec_nn_step(is_nn, keep, coin, i) == SelectionStep::NewRandom ==> coin && i >= keep && !is_nn[i - keep],
        spec_nn_step(is_nn, keep, coin, i) matches SelectionStep::CloneAndEvolve(j) ==> {
            ||| (i >= keep && is_nn[i - keep] && j == i - keep)
            ||| (i >= keep && !is_nn[i - keep] && !coin && is_nn[j as int]
                && forall|k: int| 0 <= k < j ==> !is_nn[k])
        },
{
    lemma_first_true(is_nn);
    assert(first_true(is_nn) <= i);
}

} // verus!
