//! Deterministic noise: the word stream behind the Gaussian samples and the seed
//! of each tile.

use vstd::prelude::*;

verus! {

/// Increment of the generator state.
pub const GOLDEN: u64 = 0x9E37_79B9_7F4A_7C15;

/// First mixing multiplier.
pub const MIX_1: u64 = 0xBF58_476D_1CE4_E5B9;

/// Second mixing multiplier.
pub const MIX_2: u64 = 0x94D0_49BB_1331_11EB;

/// Multiplier that spreads tile numbers over the seed space.
pub const TILE_SPREAD: u64 = 0x1000_0001;

/// Set apart from the initial latents' stream (whose twist is zero).
pub const LOW_RES_TWIST: u64 = 0xA5A5_A5A5;

/// The output word for a generator state.
pub open spec fn mixed(state: u64) -> u64 {
    let a = (state ^ (state >> 30)).wrapping_mul(MIX_1);
    let b = (a ^ (a >> 27)).wrapping_mul(MIX_2);
    b ^ (b >> 31)
}

/// The generator state after `n` steps from `seed`.
pub open spec fn state_after(seed: u64, n: nat) -> u64
    decreases n,
{
    if n == 0 {
        seed
    } else {
        state_after(seed, (n - 1) as nat).wrapping_add(GOLDEN)
    }
}

/// The `i`-th word of the stream that starts at `seed`.
pub open spec fn stream_word(seed: u64, i: nat) -> u64 {
    mixed(state_after(seed, i + 1))
}

/// Advances a splitmix64 generator and returns its next word.
pub fn splitmix64(state: &mut u64) -> (word: u64)
    ensures
        *final(state) == old(state).wrapping_add(GOLDEN),
        word == mixed(*final(state)),
{
    *state = state.wrapping_add(GOLDEN);
    let mut z: u64 = *state;
    z = (z ^ (z >> 30)).wrapping_mul(MIX_1);
    z = (z ^ (z >> 27)).wrapping_mul(MIX_2);
    z ^ (z >> 31)
}

/// The bits of a word that a draw takes, its 53 highest.
pub open spec fn drawn(word: u64) -> u64 {
    word >> 11
}

/// The top 53 bits of a word: the numerator of a uniform draw over 2^53.
pub fn top_bits(word: u64) -> (bits: u64)
    ensures
        bits == drawn(word),
        bits < 0x20_0000_0000_0000,
{
    assert(word >> 11 < 0x20_0000_0000_0000) by (bit_vector);
    word >> 11
}

/// `value` is sample `i` of the stream that starts at `seed`: what `first` (for an
/// even `i`) or `second` makes of the pair of draws that it comes from.
pub open spec fn is_sample<T, F: Fn(u64, u64) -> T, G: Fn(u64, u64) -> T>(
    seed: u64,
    i: int,
    value: T,
    first: F,
    second: G,
) -> bool {
    let a = drawn(stream_word(seed, (i - i % 2) as nat));
    let b = drawn(stream_word(seed, (i - i % 2 + 1) as nat));
    if i % 2 == 0 {
        call_ensures(first, (a, b), value)
    } else {
        call_ensures(second, (a, b), value)
    }
}

/// `samples` are the first `n` samples of the stream that starts at `seed`.
pub open spec fn are_samples<T, F: Fn(u64, u64) -> T, G: Fn(u64, u64) -> T>(
    seed: u64,
    n: int,
    samples: Seq<T>,
    first: F,
    second: G,
) -> bool {
    &&& samples.len() == n
    &&& forall|i: int|
        #![trigger samples[i]]
        0 <= i < n ==> is_sample(seed, i, samples[i], first, second)
}

/// `n` samples, two from each pair of uniform draws: `first` and `second` turn
/// the pair's two 53-bit numerators into the samples. The second sample of the
/// last pair is dropped where `n` is odd.
pub fn paired_samples<T, F: Fn(u64, u64) -> T, G: Fn(u64, u64) -> T>(
    seed: u64,
    n: usize,
    first: &F,
    second: &G,
) -> (samples: Vec<T>)
    requires
        forall|a: u64, b: u64|
            a < 0x20_0000_0000_0000 && b < 0x20_0000_0000_0000 ==> call_requires(*first, (a, b))
                && call_requires(*second, (a, b)),
    ensures
        are_samples(seed, n as int, samples@, *first, *second),
{
    let mut state: u64 = seed;
    let mut samples: Vec<T> = Vec::new();
    while samples.len() < n
        invariant
            samples@.len() <= n,
            samples@.len() < n ==> samples@.len() % 2 == 0 && state == state_after(
                seed,
                samples@.len(),
            ),
            forall|a: u64, b: u64|
                a < 0x20_0000_0000_0000 && b < 0x20_0000_0000_0000 ==> call_requires(
                    *first,
                    (a, b),
                ) && call_requires(*second, (a, b)),
            are_samples(seed, samples@.len() as int, samples@, *first, *second),
        decreases n - samples@.len(),
    {
        let ghost k = samples@.len();
        let a: u64 = top_bits(splitmix64(&mut state));
        let b: u64 = top_bits(splitmix64(&mut state));
        proof {
            assert(state_after(seed, k + 1) == state_after(seed, k).wrapping_add(GOLDEN));
            assert(state_after(seed, k + 2) == state_after(seed, k + 1).wrapping_add(GOLDEN));
        }
        samples.push(first(a, b));
        if samples.len() < n {
            samples.push(second(a, b));
        }
    }
    samples
}

/// Fewer samples of a stream are the beginning of more of them, and as many samples
/// of it are the same samples, for an odd number too.
pub proof fn law_samples_are_a_prefix<T, F: Fn(u64, u64) -> T, G: Fn(u64, u64) -> T>(
    seed: u64,
    n: usize,
    m: usize,
    few: Seq<T>,
    many: Seq<T>,
    first: F,
    second: G,
)
    requires
        n <= m,
        crate::pixels::decided2::<u64, u64, T, F>(first),
        crate::pixels::decided2::<u64, u64, T, G>(second),
        are_samples(seed, n as int, few, first, second),
        are_samples(seed, m as int, many, first, second),
    ensures
        few.len() == n,
        few == many.take(n as int),
{
    assert forall|i: int| 0 <= i < n implies few[i] == many[i] by {
        assert(is_sample(seed, i, few[i], first, second));
        assert(is_sample(seed, i, many[i], first, second));
    }
    assert(few =~= many.take(n as int));
}

/// The seed of tile `index`'s noise, for the stream told apart by `twist`.
pub open spec fn tile_seed_value(seed: u64, index: u64, twist: u64) -> u64 {
    seed ^ index.wrapping_mul(TILE_SPREAD) ^ twist
}

/// The seed of tile `index`'s noise, for the stream told apart by `twist`.
///
/// It depends on the tile's place in the whole plan alone, so a tile gets the same
/// noise however the tiles are grouped into batches.
pub fn tile_seed(seed: u64, index: u64, twist: u64) -> (s: u64)
    ensures
        s == tile_seed_value(seed, index, twist),
{
    seed ^ index.wrapping_mul(TILE_SPREAD) ^ twist
}

/// No two tiles of a run share a noise seed within one stream.
pub proof fn law_tile_seeds_distinct(seed: u64, i: u64, j: u64, twist: u64)
    requires
        i != j,
    ensures
        tile_seed_value(seed, i, twist) != tile_seed_value(seed, j, twist),
{
    lemma_spread_injective(i, j);
    let a = i.wrapping_mul(TILE_SPREAD);
    let b = j.wrapping_mul(TILE_SPREAD);
    assert(a != b ==> seed ^ a ^ twist != seed ^ b ^ twist) by (bit_vector);
}

/// The initial latents and the low-resolution noise of a tile come from
/// different seeds.
pub proof fn law_streams_distinct(seed: u64, i: u64)
    ensures
        tile_seed_value(seed, i, 0) != tile_seed_value(seed, i, LOW_RES_TWIST),
{
    let a = i.wrapping_mul(TILE_SPREAD);
    assert(seed ^ a ^ 0u64 != seed ^ a ^ 0xA5A5_A5A5u64) by (bit_vector);
}

/// Multiplying by the odd spread factor, modulo 2^64, loses nothing: the factor has
/// an inverse, `2^56 - 2^28 + 1`.
proof fn lemma_spread_injective(i: u64, j: u64)
    requires
        i != j,
    ensures
        i.wrapping_mul(TILE_SPREAD) != j.wrapping_mul(TILE_SPREAD),
{
    let (a, b) = (i * 0x1000_0001, j * 0x1000_0001);
    if a % 0x1_0000_0000_0000_0000 == b % 0x1_0000_0000_0000_0000 {
        vstd::arithmetic::div_mod::lemma_fundamental_div_mod(a, 0x1_0000_0000_0000_0000);
        vstd::arithmetic::div_mod::lemma_fundamental_div_mod(b, 0x1_0000_0000_0000_0000);
        let d = i - j;
        let q = a / 0x1_0000_0000_0000_0000 - b / 0x1_0000_0000_0000_0000;
        lemma_spread_multiple(d, q);
    }
}

/// No difference of two words becomes a multiple of 2^64 when it is spread, except
/// zero.
proof fn lemma_spread_multiple(d: int, q: int)
    requires
        -0x1_0000_0000_0000_0000 < d < 0x1_0000_0000_0000_0000,
        d * 0x1000_0001 == 0x1_0000_0000_0000_0000 * q,
    ensures
        d == 0,
{
    let t = 0xff_ffff_f000_0001 * q - 0x10_0000 * d;
    assert(d == 0x1_0000_0000_0000_0000 * t);
}

/// The generator's states lie evenly spaced: after `n` steps it has gone `n` increments
/// up from the seed, around the 64-bit circle.
pub proof fn law_states_are_evenly_spaced(seed: u64, n: nat)
    ensures
        state_after(seed, n) as int == (seed + n * 0x9E37_79B9_7F4A_7C15) % 0x1_0000_0000_0000_0000,
    decreases n,
{
    if n > 0 {
        let m = (n - 1) as nat;
        law_states_are_evenly_spaced(seed, m);
        let (a, g) = (seed + m * 0x9E37_79B9_7F4A_7C15, 0x9E37_79B9_7F4A_7C15int);
        assert(seed + n * 0x9E37_79B9_7F4A_7C15 == a + g);
        vstd::arithmetic::div_mod::lemma_add_mod_noop(a, g, 0x1_0000_0000_0000_0000);
        vstd::arithmetic::div_mod::lemma_small_mod(
            0x9E37_79B9_7F4A_7C15nat,
            0x1_0000_0000_0000_0000nat,
        );
    }
}

/// A stream begins with the word of the state one increment above its seed, and one that
/// starts an increment later is the same stream without its first word.
pub proof fn law_streams_are_shifted(seed: u64, i: nat)
    ensures
        stream_word(seed, 0) == mixed(seed.wrapping_add(GOLDEN)),
        stream_word(seed.wrapping_add(GOLDEN), i) == stream_word(seed, i + 1),
{
    reveal_with_fuel(state_after, 2);
    lemma_state_shifts(seed, i + 1);
}

/// A generator that starts one increment later is one step ahead.
proof fn lemma_state_shifts(seed: u64, n: nat)
    ensures
        state_after(seed.wrapping_add(GOLDEN), n) == state_after(seed, n + 1),
    decreases n,
{
    if n > 0 {
        lemma_state_shifts(seed, (n - 1) as nat);
    } else {
        reveal_with_fuel(state_after, 2);
    }
}

/// Samples come in pairs: samples `2 * k` and `2 * k + 1` are made of the same two words
/// of the stream, words `2 * k` and `2 * k + 1`, the one by `first`, the other by
/// `second`.
pub proof fn law_samples_come_in_pairs<T, F: Fn(u64, u64) -> T, G: Fn(u64, u64) -> T>(
    seed: u64,
    k: nat,
    value: T,
    first: F,
    second: G,
)
    ensures
        ({
            let a = drawn(stream_word(seed, 2 * k));
            let b = drawn(stream_word(seed, 2 * k + 1));
            &&& is_sample(seed, 2 * k as int, value, first, second) <==> call_ensures(
                first,
                (a, b),
                value,
            )
            &&& is_sample(seed, 2 * k as int + 1, value, first, second) <==> call_ensures(
                second,
                (a, b),
                value,
            )
        }),
{
    let (i, j) = (2 * k as int, 2 * k as int + 1);
    assert(i % 2 == 0 && j % 2 == 1);
    assert(i - i % 2 == 2 * k && j - j % 2 == 2 * k);
}

/// A draw keeps the 53 highest bits of its word: the word is the draw times 2^11, and
/// less than 2^11 more.
pub proof fn law_draws_keep_the_highest_bits(word: u64)
    ensures
        drawn(word) * 2048 <= word < drawn(word) * 2048 + 2048,
{
    assert(word >> 11 == word / 2048) by (bit_vector);
}

/// The first tile draws its latents from the seed of the run itself; a twist comes on
/// top of whatever the tile's number gives, and so does the seed.
pub proof fn law_tile_seeds_are_layered(seed: u64, index: u64, twist: u64)
    ensures
        tile_seed_value(seed, 0, 0) == seed,
        tile_seed_value(seed, index, twist) == tile_seed_value(seed, index, 0) ^ twist,
        tile_seed_value(seed, index, twist) == seed ^ tile_seed_value(0, index, twist),
        tile_seed_value(0, index, 0) as int == (index * 0x1000_0001) % 0x1_0000_0000_0000_0000,
{
    let a = index.wrapping_mul(TILE_SPREAD);
    assert(0u64.wrapping_mul(TILE_SPREAD) == 0);
    assert(0u64 ^ a ^ 0u64 == a) by (bit_vector);
    assert(seed ^ 0u64 ^ 0u64 == seed) by (bit_vector);
    assert(seed ^ a ^ twist == (seed ^ a ^ 0u64) ^ twist) by (bit_vector);
    assert(seed ^ a ^ twist == seed ^ (0u64 ^ a ^ twist)) by (bit_vector);
}

/// A tile's number is spread over the seed twice: into its lowest bits, and again 28
/// bits higher up.
pub proof fn law_tile_numbers_are_spread(seed: u64, index: u64)
    requires
        index < 0x1000_0000,
    ensures
        tile_seed_value(seed, index, 0) == seed ^ (index | (index << 28)),
{
    let a = index.wrapping_mul(TILE_SPREAD);
    assert(a == index * 0x1000_0001);
    assert(a == (index | (index << 28))) by (bit_vector)
        requires
            index < 0x1000_0000,
            a == index * 0x1000_0001,
    ;
    assert(seed ^ a ^ 0u64 == seed ^ a) by (bit_vector);
}

/// The state that a word came of: the generator's steps undone, the last first.
pub open spec fn unmixed(word: u64) -> u64 {
    let b = (word ^ (word >> 31) ^ (word >> 62)).wrapping_mul(0x3196_42B2_D24D_8EC3);
    let a = (b ^ (b >> 27) ^ (b >> 54)).wrapping_mul(0x96DE_1B17_3F11_9089);
    a ^ (a >> 30) ^ (a >> 60)
}

/// The generator never forgets: a word tells the state that it came of.
pub proof fn law_words_tell_their_state(state: u64)
    ensures
        unmixed(mixed(state)) == state,
{
    let a1 = state ^ (state >> 30);
    let a2 = a1.wrapping_mul(MIX_1);
    let a3 = a2 ^ (a2 >> 27);
    let a4 = a3.wrapping_mul(MIX_2);
    let word = a4 ^ (a4 >> 31);
    assert(a4 == word ^ (word >> 31) ^ (word >> 62)) by (bit_vector)
        requires
            word == a4 ^ (a4 >> 31),
    ;
    lemma_factor_undone(a3, MIX_2, 0x3196_42B2_D24D_8EC3);
    assert(a2 == a3 ^ (a3 >> 27) ^ (a3 >> 54)) by (bit_vector)
        requires
            a3 == a2 ^ (a2 >> 27),
    ;
    lemma_factor_undone(a1, MIX_1, 0x96DE_1B17_3F11_9089);
    assert(state == a1 ^ (a1 >> 30) ^ (a1 >> 60)) by (bit_vector)
        requires
            a1 == state ^ (state >> 30),
    ;
}

/// So different states give different words, and a word comes again no sooner than its
/// state does.
pub proof fn law_words_tell_states_apart(a: u64, b: u64)
    requires
        a != b,
    ensures
        mixed(a) != mixed(b),
{
    law_words_tell_their_state(a);
    law_words_tell_their_state(b);
}

/// Multiplying by a factor and then by its inverse modulo 2^64 changes nothing.
proof fn lemma_factor_undone(a: u64, factor: u64, inverse: u64)
    requires
        (factor * inverse) % 0x1_0000_0000_0000_0000 == 1,
    ensures
        a.wrapping_mul(factor).wrapping_mul(inverse) == a,
{
    let m = 0x1_0000_0000_0000_0000int;
    lemma_unmixed(a as int, factor as int, inverse as int, m);
    vstd::arithmetic::div_mod::lemma_small_mod(a as nat, m as nat);
}

/// Multiplying by the inverse takes the factor back.
proof fn lemma_unmixed(a: int, factor: int, inverse: int, m: int)
    requires
        m > 0,
        (factor * inverse) % m == 1,
    ensures
        (((a * factor) % m) * inverse) % m == a % m,
{
    vstd::arithmetic::div_mod::lemma_mul_mod_noop_left(a * factor, inverse, m);
    assert((a * factor) * inverse == a * (factor * inverse)) by (nonlinear_arith);
    vstd::arithmetic::div_mod::lemma_mul_mod_noop_right(a, factor * inverse, m);
    assert(a * 1 == a);
}

} // verus!
