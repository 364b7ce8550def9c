//! The proof of resource that a section asks of a peer before it lets it in.

use vstd::prelude::*;
use resource_proof::{ResourceProof, ResourceProver};

verus! {

/// The data that a peer has to show for a challenge: the nonce, repeated until there are
/// `size` bytes; nothing where the nonce is empty.
pub open spec fn spec_proof_data(nonce: Seq<u8>, size: int) -> Seq<u8> {
    if nonce.len() == 0 {
        Seq::empty()
    } else {
        Seq::new(size as nat, |i: int| nonce[i % (nonce.len() as int)])
    }
}

/// `resource_proof::ResourceProver`, the search for the solution of one challenge, as the
/// verifier is to see it: a value that is known only by what the functions below say of it.
#[verifier::external_type_specification]
#[verifier::external_body]
pub struct ExResourceProver(ResourceProver);

/// Whether the data, with `count` zero bytes put before it, has a hash that begins with at
/// least `difficulty` zero bits: what `resource_proof::ResourceProver::try_step` tests.
pub uninterp spec fn proof_solves(data: Seq<u8>, difficulty: u8, count: u64) -> bool;

/// What a prover holds: the data that it was made for, the difficulty, and how many zero
/// bytes it has put before the data so far.
pub uninterp spec fn prover_state(prover: ResourceProver) -> (Seq<u8>, u8, u64);

/// The solution of a challenge as far as `limit` tries find it: the least number of zero
/// bytes below `limit` that, put before the data, solve it.
pub open spec fn spec_solution(data: Seq<u8>, difficulty: u8, limit: nat) -> Option<u64>
    decreases limit,
{
    if limit == 0 {
        None
    } else {
        match spec_solution(data, difficulty, (limit - 1) as nat) {
            Some(count) => Some(count),
            None => if proof_solves(data, difficulty, (limit - 1) as u64) {
                Some((limit - 1) as u64)
            } else {
                None
            },
        }
    }
}

/// How many tries a search may make: as many as the budget allows, and no more than there
/// is room for zero bytes before data of the given length.
pub open spec fn spec_tries(len: nat, budget: u64) -> nat {
    if len >= isize::MAX {
        0
    } else if budget <= isize::MAX - len {
        budget as nat
    } else {
        (isize::MAX - len) as nat
    }
}

/// A number that solves the challenge, and below which none does, is the solution that any
/// greater number of tries finds.
pub proof fn lemma_solution_found(data: Seq<u8>, difficulty: u8, count: u64, limit: nat)
    requires
        count < limit,
        spec_solution(data, difficulty, count as nat) is None,
        proof_solves(data, difficulty, count),
    ensures
        spec_solution(data, difficulty, limit) == Some(count),
    decreases limit,
{
    if limit > count + 1 {
        lemma_solution_found(data, difficulty, count, (limit - 1) as nat);
    }
}

/// Calls `resource_proof::ResourceProof::create_proof_data`, which repeats the nonce until
/// there are `size` bytes. Sizes that no allocation can serve are left out.
#[verifier::external_body]
pub(crate) fn create_proof_data(size: usize, difficulty: u8, nonce: &[u8]) -> (data: Vec<u8>)
    requires
        size <= isize::MAX,
    ensures
        data@ == spec_proof_data(nonce@, size as int),
{
    ResourceProof::new(size, difficulty).create_proof_data(nonce).into_iter().collect()
}

/// Calls `resource_proof::ResourceProof::create_prover`: a prover for the data that has put
/// no zero byte before it yet.
#[verifier::external_body]
pub(crate) fn prover_new(size: usize, difficulty: u8, data: &Vec<u8>) -> (prover: ResourceProver)
    ensures
        prover_state(prover) == (data@, difficulty, 0u64),
{
    ResourceProof::new(size, difficulty).create_prover(data.iter().cloned().collect())
}

/// Calls `resource_proof::ResourceProver::try_step`. Where the data as the prover holds it
/// solves the challenge, the number of zero bytes before it comes back and the prover stays
/// as it is; else the prover puts one more zero byte before the data. There must be room
/// for that byte.
#[verifier::external_body]
pub(crate) fn prover_try_step(prover: &mut ResourceProver) -> (r: Option<u64>)
    requires
        prover_state(*old(prover)).0.len() + prover_state(*old(prover)).2 < isize::MAX,
    ensures
        ({
            let (data, difficulty, count) = prover_state(*old(prover));
            match r {
                Some(found) => found == count && proof_solves(data, difficulty, count)
                    && *final(prover) == *old(prover),
                None => !proof_solves(data, difficulty, count) && prover_state(*final(prover)) == (
                    data,
                    difficulty,
                    (count + 1) as u64,
                ),
            }
        }),
{
    prover.try_step()
}

/// Searches for the solution of a challenge: the least number of zero bytes that, put before
/// the data, give a hash with `difficulty` zero bits at its start. The search makes at most
/// `budget` tries, and no more than there is room for zero bytes.
pub fn solve_within(size: usize, difficulty: u8, data: &Vec<u8>, budget: u64) -> (solution: Option<
    u64,
>)
    ensures
        solution == spec_solution(data@, difficulty, spec_tries(data@.len(), budget)),
{
    let most: u64 = isize::MAX as u64;
    let len: u64 = data.len() as u64;
    let limit: u64 = if len >= most {
        0
    } else if budget <= most - len {
        budget
    } else {
        most - len
    };
    let mut prover = prover_new(size, difficulty, data);
    let mut tries: u64 = 0;
    while tries < limit
        invariant
            tries <= limit,
            limit == spec_tries(data@.len(), budget),
            limit > 0 ==> limit + data@.len() <= isize::MAX,
            prover_state(prover) == (data@, difficulty, tries),
            spec_solution(data@, difficulty, tries as nat) is None,
        decreases limit - tries,
    {
        match prover_try_step(&mut prover) {
            Some(found) => {
                proof {
                    lemma_solution_found(data@, difficulty, tries, limit as nat);
                }
                return Some(found);
            },
            None => {},
        }
        tries += 1;
    }
    None
}

} // verus!
