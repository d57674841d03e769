use vstd::prelude::*;
use rand::{Rng, SeedableRng};

verus! {

#[verifier::external_type_specification]
#[verifier::external_body]
pub struct ExSmallRng(rand::rngs::SmallRng);

/// Seed material for one admission draw: the round id and the request id added
/// position by position, each sum wrapping at 256, over the first sixteen positions.
pub open spec fn seed_material(round_id: Seq<u8>, tx_id: Seq<u8>) -> Seq<u8> {
    Seq::new(16, |i: int| ((round_id[i] + tx_id[i]) % 256) as u8)
}

/// Combines a round id and a request id into the seed of the admission draw.
pub fn derive_seed(round_id: &[u8; 32], tx_id: &[u8; 32]) -> (seed: [u8; 16])
    ensures
        seed@ == seed_material(round_id@, tx_id@),
{
    let mut seed: [u8; 16] = [0u8; 16];
    let mut i: usize = 0;
    while i < 16
        invariant
            0 <= i <= 16,
            seed@.len() == 16,
            round_id@.len() == 32,
            tx_id@.len() == 32,
            forall|j: int| 0 <= j < i ==> seed@[j] == ((round_id@[j] + tx_id@[j]) % 256) as u8,
        decreases 16 - i,
    {
        seed[i] = round_id[i].wrapping_add(tx_id[i]);
        i = i + 1;
    }
    assert(seed@ =~= seed_material(round_id@, tx_id@));
    seed
}

/// Relies on rand's `SeedableRng::from_seed` for `SmallRng`: a generator built from
/// the seed alone. Nothing is stated of its state, which rand leaves platform-dependent.
#[verifier::external_body]
fn seeded_rng(seed: [u8; 16]) -> rand::rngs::SmallRng {
    rand::rngs::SmallRng::from_seed(seed)
}

/// Number of outcomes of the admission draw: it falls in `[0, DRAW_RANGE)`.
pub const DRAW_RANGE: u32 = 100;

/// Relies on rand's `Rng::gen_range(low, high)`, which returns a value in
/// `[low, high)` and panics when `low >= high`.
#[verifier::external_body]
fn gen_range_u32(rng: &mut rand::rngs::SmallRng, low: u32, high: u32) -> (r: u32)
    requires
        low < high,
    ensures
        low <= r < high,
{
    rng.gen_range(low, high)
}

/// The admission draw for one play: a value in `[0, DRAW_RANGE)` from a generator
/// seeded with the combined round and request ids.
pub fn admission_draw(round_id: &[u8; 32], tx_id: &[u8; 32]) -> (r: u32)
    ensures
        r < DRAW_RANGE,
{
    let seed = derive_seed(round_id, tx_id);
    let mut rng = seeded_rng(seed);
    gen_range_u32(&mut rng, 0, DRAW_RANGE)
}

} // verus!
