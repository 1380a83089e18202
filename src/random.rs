use vstd::prelude::*;
use rand::Rng;
use rand::SeedableRng;
use rand_chacha::ChaCha8Rng;
use rand_distr::Distribution;
use rand_distr::Uniform;

verus! {

/// The value drawn uniformly from `[lo, hi]` by a ChaCha8 stream seeded
/// with `seed` and standing at word `pos`, and the word the stream stands
/// at afterwards.
pub uninterp spec fn uniform_draw(seed: u64, pos: u128, lo: i64, hi: i64) -> (i64, u128);

/// The outcome of a `num`-in-`den` chance drawn by a ChaCha8 stream seeded
/// with `seed` and standing at word `pos`, and the word the stream stands
/// at afterwards.
pub uninterp spec fn ratio_draw(seed: u64, pos: u128, num: u32, den: u32) -> (bool, u128);

/// Relies on `rand_distr::Uniform::new_inclusive(lo, hi).sample` over
/// `rand_chacha::ChaCha8Rng` (seeded by `seed_from_u64`, moved to word
/// `pos` by `set_word_pos`, read back by `get_word_pos`): the value lies in
/// `[lo, hi]`, and the outcome depends on the arguments alone.
#[verifier::external_body]
fn sample_uniform(seed: u64, pos: u128, lo: i64, hi: i64) -> (r: (i64, u128))
    requires
        lo <= hi,
    ensures
        r == uniform_draw(seed, pos, lo, hi),
        lo <= r.0 <= hi,
{
    let mut rng = ChaCha8Rng::seed_from_u64(seed);
    rng.set_word_pos(pos);
    let v = Uniform::new_inclusive(lo, hi).sample(&mut rng);
    (v, rng.get_word_pos())
}

/// Relies on `rand::Rng::gen_ratio(num, den)` over `rand_chacha::ChaCha8Rng`
/// (seeded by `seed_from_u64`, moved to word `pos` by `set_word_pos`, read
/// back by `get_word_pos`): the outcome depends on the arguments alone,
/// is always `false` for a zero numerator and always `true` when the
/// numerator equals the denominator.
#[verifier::external_body]
fn sample_ratio(seed: u64, pos: u128, num: u32, den: u32) -> (r: (bool, u128))
    requires
        0 < den,
        num <= den,
    ensures
        r == ratio_draw(seed, pos, num, den),
        num == 0 ==> !r.0,
        num == den ==> r.0,
{
    let mut rng = ChaCha8Rng::seed_from_u64(seed);
    rng.set_word_pos(pos);
    let v = rng.gen_ratio(num, den);
    (v, rng.get_word_pos())
}

/// A reproducible random stream: a seed and the word the stream has
/// reached. Every draw is a function of the two, so equal streams give
/// equal draws.
#[derive(PartialEq, Eq, Structural, Clone, Copy, Debug)]
pub struct RandomStream {
    pub seed: u64,
    pub pos: u128,
}

impl RandomStream {
    pub fn new(seed: u64) -> (r: RandomStream)
        ensures
            r == (RandomStream { seed, pos: 0 }),
    {
        RandomStream { seed, pos: 0 }
    }

    /// Draws an integer uniformly from `[lo, hi]`.
    pub fn uniform(&mut self, lo: i64, hi: i64) -> (v: i64)
        requires
            lo <= hi,
        ensures
            lo <= v <= hi,
            (v, final(self).pos) == uniform_draw(old(self).seed, old(self).pos, lo, hi),
            final(self).seed == old(self).seed,
    {
        let (v, pos) = sample_uniform(self.seed, self.pos, lo, hi);
        self.pos = pos;
        v
    }

    /// Draws `true` with a chance of `num` in `den`.
    pub fn chance(&mut self, num: u32, den: u32) -> (v: bool)
        requires
            0 < den,
            num <= den,
        ensures
            (v, final(self).pos) == ratio_draw(old(self).seed, old(self).pos, num, den),
            final(self).seed == old(self).seed,
            num == 0 ==> !v,
            num == den ==> v,
    {
        let (v, pos) = sample_ratio(self.seed, self.pos, num, den);
        self.pos = pos;
        v
    }
}

} // verus!
