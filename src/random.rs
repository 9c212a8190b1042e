use vstd::prelude::*;

verus! {

/// What the host provides: the identity of this module and a source of
/// randomness keyed by a subject.
pub trait Config {
    /// The identity of this module.
    spec fn id_view(&self) -> [u8; 8];

    /// The hash that the source gives for `subject`.
    spec fn random_view(&self, subject: Seq<u8>) -> Seq<u8>;

    /// The identity of this module; it keys every draw.
    fn pallet_id(&self) -> (r: [u8; 8])
        ensures
            r == self.id_view(),
    ;

    /// A random hash for `subject`.
    fn random(&self, subject: &Vec<u8>) -> (r: [u8; 32])
        ensures
            r@ == self.random_view(subject@),
    ;
}

/// Number of attempts at an unbiased draw for one score.
pub const MAX_TRIALS: u32 = 10;

/// Scores are drawn from `0..MAX_SCORE`.
pub const MAX_SCORE: u32 = 9;

/// The four bytes of `x`, least significant first.
pub open spec fn le_bytes(x: u32) -> Seq<u8> {
    seq![
        (x % 256) as u8,
        ((x / 256) % 256) as u8,
        ((x / 65536) % 256) as u8,
        ((x / 16777216) % 256) as u8,
    ]
}

/// The integer whose four bytes, least significant first, open `b`.
pub open spec fn le_value(b: Seq<u8>) -> int {
    b[0] + 256 * b[1] + 65536 * b[2] + 16777216 * b[3]
}

/// The subject of a draw: the module identity followed by the seed,
/// each in its fixed-width little-endian encoding.
pub fn encode_subject(pallet_id: [u8; 8], seed: u32) -> (r: Vec<u8>)
    ensures
        r@ == pallet_id@ + le_bytes(seed),
{
    let mut r: Vec<u8> = Vec::new();
    let mut i: usize = 0;
    while i < 8
        invariant
            i <= 8,
            pallet_id@.len() == 8,
            r@ == pallet_id@.subrange(0, i as int),
        decreases 8 - i,
    {
        r.push(pallet_id[i]);
        i = i + 1;
        assert(r@ =~= pallet_id@.subrange(0, i as int));
    }
    r.push((seed % 256) as u8);
    r.push(((seed / 256) % 256) as u8);
    r.push(((seed / 65536) % 256) as u8);
    r.push(((seed / 16777216) % 256) as u8);
    assert(r@ =~= pallet_id@ + le_bytes(seed));
    r
}

/// Reads a `u32` from the first four bytes of a hash, least significant first.
pub fn decode_u32(hash: &[u8; 32]) -> (r: u32)
    ensures
        r == le_value(hash@),
{
    let b0 = hash[0] as u32;
    let b1 = hash[1] as u32;
    let b2 = hash[2] as u32;
    let b3 = hash[3] as u32;
    b0 + 256 * b1 + 65536 * b2 + 16777216 * b3
}

/// The raw number drawn for `seed`: the first four bytes, least significant
/// first, of the hash of the module identity followed by the seed.
pub open spec fn draw_of<T: Config>(cfg: &T, seed: u32) -> u32 {
    le_value(cfg.random_view(cfg.id_view()@ + le_bytes(seed))) as u32
}

/// The `MAX_TRIALS` draws for the seeds `seed_diff`, `seed_diff + 1`, ...
pub open spec fn draws_from<T: Config>(cfg: &T, seed_diff: u32) -> Seq<u32> {
    Seq::new(MAX_TRIALS as nat, |k: int| draw_of(cfg, (seed_diff + k) as u32))
}

/// The score for `seed_diff`: the first unbiased of its draws, or the last
/// one, reduced modulo `MAX_SCORE`.
pub open spec fn score_of<T: Config>(cfg: &T, seed_diff: u32) -> u32 {
    chosen_draw(draws_from(cfg, seed_diff)) % MAX_SCORE
}

/// Draws a raw number for `seed` from the host's randomness.
pub fn generate_random_number<T: Config>(cfg: &T, seed: u32) -> (r: u32)
    ensures
        r == draw_of(cfg, seed),
{
    let subject = encode_subject(cfg.pallet_id(), seed);
    let hash = cfg.random(&subject);
    decode_u32(&hash)
}

/// A draw is kept only below the largest multiple of `MAX_SCORE` that fits,
/// so that reducing it modulo `MAX_SCORE` favours no score.
pub open spec fn is_unbiased(x: u32) -> bool {
    x < u32::MAX - u32::MAX % MAX_SCORE
}

/// The draw that a score is made from: the first unbiased one, or the last.
pub open spec fn chosen_draw(draws: Seq<u32>) -> u32
    decreases draws.len(),
{
    if draws.len() <= 1 || is_unbiased(draws[0]) {
        draws[0]
    } else {
        chosen_draw(draws.drop_first())
    }
}

/// The score made from a sequence of draws: the first unbiased draw, or the
/// last one where none is, reduced modulo `MAX_SCORE`.
pub fn score_from_draws(draws: &Vec<u32>) -> (r: u32)
    requires
        draws@.len() >= 1,
    ensures
        r == chosen_draw(draws@) % MAX_SCORE,
        r < MAX_SCORE,
{
    let mut i: usize = 0;
    assert(draws@.subrange(0, draws@.len() as int) =~= draws@);
    while i < draws.len() - 1 && !(draws[i] < u32::MAX - u32::MAX % MAX_SCORE)
        invariant
            i < draws@.len(),
            chosen_draw(draws@.subrange(i as int, draws@.len() as int)) == chosen_draw(draws@),
        decreases draws@.len() - i,
    {
        proof {
            let s = draws@.subrange(i as int, draws@.len() as int);
            assert(s.drop_first() =~= draws@.subrange(i + 1, draws@.len() as int));
        }
        i = i + 1;
    }
    proof {
        let s = draws@.subrange(i as int, draws@.len() as int);
        assert(s[0] == draws@[i as int]);
    }
    draws[i] % MAX_SCORE
}

/// Stopping at the first unbiased draw, or after the last one, chooses the
/// same draw as looking at all of them.
pub proof fn lemma_chosen_draw_prefix(s: Seq<u32>, n: int)
    requires
        1 <= n <= s.len(),
        forall|i: int| 0 <= i < n - 1 ==> !is_unbiased(#[trigger] s[i]),
        n == s.len() || is_unbiased(s[n - 1]),
    ensures
        chosen_draw(s.take(n)) == chosen_draw(s),
    decreases n,
{
    if n > 1 {
        assert(!is_unbiased(s[0]));
        assert(s.take(n).drop_first() =~= s.drop_first().take(n - 1));
        assert forall|i: int| 0 <= i < n - 2 implies !is_unbiased(#[trigger] s.drop_first()[i]) by {
            assert(s.drop_first()[i] == s[i + 1]);
        }
        lemma_chosen_draw_prefix(s.drop_first(), n - 1);
    }
}

/// Draws with the seeds `seed_diff`, `seed_diff + 1`, ... until a draw is
/// unbiased or `MAX_TRIALS` draws were made, and returns the score with the
/// draws made.
pub fn draw_score<T: Config>(cfg: &T, seed_diff: u32) -> (r: (u32, Vec<u32>))
    requires
        seed_diff + (MAX_TRIALS - 1) <= u32::MAX,
    ensures
        1 <= r.1@.len() <= MAX_TRIALS,
        r.1@ == draws_from(cfg, seed_diff).take(r.1@.len() as int),
        forall|i: int| 0 <= i < r.1@.len() - 1 ==> !is_unbiased(#[trigger] r.1@[i]),
        r.1@.len() < MAX_TRIALS ==> is_unbiased(r.1@[r.1@.len() - 1]),
        r.0 == chosen_draw(r.1@) % MAX_SCORE,
        r.0 == score_of(cfg, seed_diff),
        r.0 < MAX_SCORE,
{
    let ghost all = draws_from(cfg, seed_diff);
    let mut draws: Vec<u32> = Vec::new();
    draws.push(generate_random_number(cfg, seed_diff));
    assert(draws@ =~= all.take(1));
    let mut i: u32 = 1;
    while i < MAX_TRIALS && !(draws[draws.len() - 1] < u32::MAX - u32::MAX % MAX_SCORE)
        invariant
            1 <= i <= MAX_TRIALS,
            draws@.len() == i,
            seed_diff + (MAX_TRIALS - 1) <= u32::MAX,
            all == draws_from(cfg, seed_diff),
            draws@ == all.take(i as int),
            forall|k: int| 0 <= k < draws@.len() - 1 ==> !is_unbiased(#[trigger] draws@[k]),
        decreases MAX_TRIALS - i,
    {
        draws.push(generate_random_number(cfg, seed_diff + i));
        i = i + 1;
        assert(draws@ =~= all.take(i as int));
    }
    let score = score_from_draws(&draws);
    proof {
        assert forall|k: int| 0 <= k < i - 1 implies !is_unbiased(#[trigger] all[k]) by {
            assert(all[k] == draws@[k]);
        }
        assert(all[i - 1] == draws@[i - 1]);
        lemma_chosen_draw_prefix(all, i as int);
    }
    (score, draws)
}

/// Draws a score in `0..MAX_SCORE` for `seed_diff`, rejecting biased draws
/// as `draw_score` does.
pub fn generate_random_score<T: Config>(cfg: &T, seed_diff: u32) -> (r: u32)
    requires
        seed_diff + (MAX_TRIALS - 1) <= u32::MAX,
    ensures
        r == score_of(cfg, seed_diff),
        r < MAX_SCORE,
{
    draw_score(cfg, seed_diff).0
}

/// A randomness source that answers seed `i` with `draws[i]` and any other
/// seed with `otherwise`, so that runs can be replayed with a fixed sequence.
pub struct FixedDraws {
    pub id: [u8; 8],
    pub draws: Vec<u32>,
    pub otherwise: u32,
}

/// The number that a fixed sequence gives for a subject: the seed is read
/// from the four bytes after the module identity.
pub open spec fn fixed_value(draws: Seq<u32>, otherwise: u32, subject: Seq<u8>) -> u32 {
    if subject.len() >= 12 {
        let seed = le_value(subject.subrange(8, 12));
        if seed < draws.len() {
            draws[seed]
        } else {
            otherwise
        }
    } else {
        otherwise
    }
}

/// A hash that opens with the four bytes of `x`, least significant first,
/// and is zero after them.
pub open spec fn hash_of_value(x: u32) -> Seq<u8> {
    le_bytes(x) + Seq::new(28, |i: int| 0u8)
}

impl Config for FixedDraws {
    open spec fn id_view(&self) -> [u8; 8] {
        self.id
    }

    open spec fn random_view(&self, subject: Seq<u8>) -> Seq<u8> {
        hash_of_value(fixed_value(self.draws@, self.otherwise, subject))
    }

    fn pallet_id(&self) -> (r: [u8; 8]) {
        self.id
    }

    fn random(&self, subject: &Vec<u8>) -> (r: [u8; 32]) {
        let mut v = self.otherwise;
        if subject.len() >= 12 {
            let seed = subject[8] as u64 + 256 * (subject[9] as u64) + 65536 * (subject[10] as u64)
                + 16777216 * (subject[11] as u64);
            assert(seed == le_value(subject@.subrange(8, 12)));
            if seed < self.draws.len() as u64 {
                v = self.draws[seed as usize];
            }
        }
        let r = [
            (v % 256) as u8,
            ((v / 256) % 256) as u8,
            ((v / 65536) % 256) as u8,
            ((v / 16777216) % 256) as u8,
            0, 0, 0, 0, 0, 0, 0, 0, 0, 0, 0, 0, 0, 0, 0, 0, 0, 0, 0, 0, 0, 0, 0, 0, 0, 0, 0, 0,
        ];
        assert(r@ =~= hash_of_value(v));
        r
    }
}

} // verus!
