use vstd::prelude::*;
use vstd::multiset::Multiset;
use crate::civ::Civ;
use crate::rng::{RandomSource, SystemRng};

verus! {

/// The one failure of allocation: the pool holds fewer records than the
/// requested `players × picks` draws need.
#[derive(Debug, Clone, Copy, PartialEq, Eq, Structural)]
pub enum AllocError {
    InsufficientPool,
}

impl AllocError {
    /// The message the program prints for this error.
    pub fn message(&self) -> (r: &'static str)
        ensures
            r@ == "Not enough civs to choose from"@,
    {
        "Not enough civs to choose from"
    }
}

/// The multiset of all records dealt over a sequence of hands.
pub open spec fn dealt(hands: Seq<Vec<Civ>>) -> Multiset<Civ>
    decreases hands.len(),
{
    if hands.len() == 0 {
        Multiset::empty()
    } else {
        hands[0]@.to_multiset().add(dealt(hands.drop_first()))
    }
}

/// What a successful allocation guarantees: one hand per player, every
/// hand of the requested size, and the dealt records together with the
/// leftover pool make up exactly the original pool.
pub open spec fn allocation_ok(
    orig: Seq<Civ>,
    rest: Seq<Civ>,
    hands: Seq<Vec<Civ>>,
    players: int,
    picks: int,
) -> bool {
    &&& hands.len() == players
    &&& forall|i: int| 0 <= i < players ==> (#[trigger] hands[i])@.len() == picks
    &&& dealt(hands).add(rest.to_multiset()) == orig.to_multiset()
    &&& rest.len() == orig.len() - players * picks
}

/// Hands that are all empty have dealt nothing.
proof fn lemma_dealt_all_empty(hands: Seq<Vec<Civ>>)
    requires
        forall|j: int| 0 <= j < hands.len() ==> (#[trigger] hands[j])@.len() == 0,
    ensures
        dealt(hands) == Multiset::<Civ>::empty(),
    decreases hands.len(),
{
    broadcast use vstd::seq_lib::group_to_multiset_ensures;

    if hands.len() > 0 {
        assert forall|j: int| 0 <= j < hands.drop_first().len() implies (#[trigger] hands.drop_first()[j])@.len()
            == 0 by {
            assert(hands.drop_first()[j] == hands[j + 1]);
        }
        lemma_dealt_all_empty(hands.drop_first());
        assert(hands[0]@.to_multiset().len() == 0);
        assert(dealt(hands) =~= Multiset::<Civ>::empty());
    } else {
        assert(dealt(hands) =~= Multiset::<Civ>::empty());
    }
}

/// Pushing one record onto hand `i` adds exactly that record to the
/// multiset of dealt records.
proof fn lemma_dealt_push(before: Seq<Vec<Civ>>, after: Seq<Vec<Civ>>, i: int, x: Civ)
    requires
        0 <= i < before.len(),
        after.len() == before.len(),
        after[i]@ == before[i]@.push(x),
        forall|j: int| 0 <= j < before.len() && j != i ==> after[j] == before[j],
    ensures
        dealt(after) == dealt(before).insert(x),
    decreases before.len(),
{
    broadcast use vstd::seq_lib::group_to_multiset_ensures;

    if i == 0 {
        assert(after.drop_first() =~= before.drop_first());
        assert(after[0]@.to_multiset() =~= before[0]@.to_multiset().insert(x));
        assert(dealt(after) =~= dealt(before).insert(x));
    } else {
        assert forall|j: int|
            0 <= j < before.drop_first().len() && j != i - 1 implies #[trigger] after.drop_first()[j]
            == before.drop_first()[j] by {
            assert(after.drop_first()[j] == after[j + 1]);
            assert(before.drop_first()[j] == before[j + 1]);
        }
        assert(after.drop_first()[i - 1]@ == before.drop_first()[i - 1]@.push(x));
        lemma_dealt_push(before.drop_first(), after.drop_first(), i - 1, x);
        assert(after[0] == before[0]);
        assert(dealt(after) =~= dealt(before).insert(x));
    }
}

/// Deal `picks` records to each of `players` players, drawing uniformly
/// at random from `civs` without replacement: `picks` rounds, the players
/// served in order within every round, the drawn record removed from the
/// pool at once. When the pool is too small the call fails before any
/// draw and leaves the pool untouched.
pub fn choose_civs_with<R: RandomSource>(
    rng: &mut R,
    civs: &mut Vec<Civ>,
    players: usize,
    picks: usize,
) -> (r: Result<Vec<Vec<Civ>>, AllocError>)
    ensures
        players * picks > old(civs)@.len() ==> (r matches Err(e) && e
            == AllocError::InsufficientPool && final(civs)@ == old(civs)@),
        players * picks <= old(civs)@.len() ==> (r matches Ok(hands) && allocation_ok(
            old(civs)@,
            final(civs)@,
            hands@,
            players as int,
            picks as int,
        )),
{
    broadcast use vstd::seq_lib::group_to_multiset_ensures;

    let pool_len = civs.len();
    match players.checked_mul(picks) {
        None => {
            return Err(AllocError::InsufficientPool);
        },
        Some(need) => {
            if need > pool_len {
                return Err(AllocError::InsufficientPool);
            }
        },
    }
    let ghost orig: Seq<Civ> = civs@;
    let mut hands: Vec<Vec<Civ>> = Vec::new();
    let mut i: usize = 0;
    while i < players
        invariant
            i <= players,
            hands@.len() == i,
            forall|j: int| 0 <= j < i ==> (#[trigger] hands@[j])@.len() == 0,
        decreases players - i,
    {
        hands.push(Vec::new());
        i = i + 1;
    }
    proof {
        lemma_dealt_all_empty(hands@);
        assert(dealt(hands@).add(civs@.to_multiset()) =~= civs@.to_multiset());
    }
    let mut round: usize = 0;
    while round < picks
        invariant
            round <= picks,
            hands@.len() == players,
            players * picks <= orig.len(),
            orig.len() <= usize::MAX,
            forall|j: int| 0 <= j < players ==> (#[trigger] hands@[j])@.len() == round,
            civs@.len() == orig.len() - players * round,
            dealt(hands@).add(civs@.to_multiset()) == orig.to_multiset(),
        decreases picks - round,
    {
        let mut player: usize = 0;
        while player < players
            invariant
                player <= players,
                round < picks,
                hands@.len() == players,
                players * picks <= orig.len(),
                orig.len() <= usize::MAX,
                forall|j: int| 0 <= j < player ==> (#[trigger] hands@[j])@.len() == round + 1,
                forall|j: int| player <= j < players ==> (#[trigger] hands@[j])@.len() == round,
                civs@.len() == orig.len() - players * round - player,
                dealt(hands@).add(civs@.to_multiset()) == orig.to_multiset(),
            decreases players - player,
        {
            proof {
                assert((players as int) * (round as int) + (player as int) < (players as int) * (
                picks as int)) by (nonlinear_arith)
                    requires
                        0 <= (round as int) < (picks as int),
                        0 <= (player as int) < (players as int),
                ;
            }
            let index = rng.pick(civs.len());
            let ghost pool_before: Seq<Civ> = civs@;
            let civ = civs.remove(index);
            let ghost hands_before: Seq<Vec<Civ>> = hands@;
            let ghost drawn: Civ = civ;
            hands[player].push(civ);
            proof {
                broadcast use vstd::seq_lib::group_to_multiset_ensures;

                assert(hands@[player as int]@ == hands_before[player as int]@.push(drawn));
                lemma_dealt_push(hands_before, hands@, player as int, drawn);
                assert(drawn == pool_before[index as int]);
                assert(civs@ == pool_before.remove(index as int));
                assert(pool_before.remove(index as int).to_multiset() =~= pool_before.to_multiset()
                    .remove(pool_before[index as int]));
                assert(pool_before.to_multiset().count(drawn) > 0) by {
                    assert(pool_before[index as int] == drawn);
                    assert(pool_before.contains(drawn));
                }
                assert(dealt(hands@).add(civs@.to_multiset()) =~= dealt(hands_before).add(
                    pool_before.to_multiset(),
                ));
            }
            player = player + 1;
        }
        proof {
            assert((players as int) * ((round + 1) as int) == (players as int) * (round as int) + (
            players as int)) by (nonlinear_arith);
        }
        round = round + 1;
    }
    Ok(hands)
}

/// Deal from the process-wide system generator: the production entry to
/// the allocator, with the same guarantees as `choose_civs_with`.
pub fn choose_civs(civs: &mut Vec<Civ>, players: usize, picks: usize) -> (r: Result<
    Vec<Vec<Civ>>,
    AllocError,
>)
    ensures
        players * picks > old(civs)@.len() ==> (r matches Err(e) && e
            == AllocError::InsufficientPool && final(civs)@ == old(civs)@),
        players * picks <= old(civs)@.len() ==> (r matches Ok(hands) && allocation_ok(
            old(civs)@,
            final(civs)@,
            hands@,
            players as int,
            picks as int,
        )),
{
    let mut rng = SystemRng;
    choose_civs_with(&mut rng, civs, players, picks)
}

/// Law: a successful allocation never deals more copies of a record than
/// the pool held; in particular, over a pool without duplicates every
/// record is dealt at most once, so no two players (and no player twice)
/// receive the same record.
pub proof fn lemma_allocation_unique(
    orig: Seq<Civ>,
    rest: Seq<Civ>,
    hands: Seq<Vec<Civ>>,
    players: int,
    picks: int,
)
    requires
        allocation_ok(orig, rest, hands, players, picks),
    ensures
        dealt(hands).subset_of(orig.to_multiset()),
        orig.no_duplicates() ==> forall|x: Civ| dealt(hands).count(x) <= 1,
{
    assert forall|x: Civ| dealt(hands).count(x) <= orig.to_multiset().count(x) by {
        assert(dealt(hands).count(x) + rest.to_multiset().count(x) == orig.to_multiset().count(x));
    }
    if orig.no_duplicates() {
        orig.lemma_multiset_has_no_duplicates();
        assert forall|x: Civ| dealt(hands).count(x) <= 1 by {
            if orig.to_multiset().count(x) > 0 {
                assert(orig.to_multiset().contains(x));
            }
        }
    }
}

} // verus!
