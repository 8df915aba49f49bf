use vstd::prelude::*;

verus! {

/// Reduces an integer modulo 2^32, as `u32` arithmetic wraps.
pub open spec fn wrap32(x: int) -> u32 {
    (x % 0x1_0000_0000) as u32
}

/// The PCG-style integer hash that advances a per-pixel seed.
pub open spec fn pcg_value(input: u32) -> u32 {
    let state = wrap32(input * 747796405 + 2891336453);
    let word = wrap32(((state >> ((state >> 28u32) + 4u32)) ^ state) * 277803737);
    (word >> 22u32) ^ word
}

/// Hashes `input` with the PCG permutation, all arithmetic modulo 2^32.
pub fn pcg_hash(input: u32) -> (r: u32)
    ensures
        r == pcg_value(input),
{
    let product = input.wrapping_mul(747796405u32);
    let state = product.wrapping_add(2891336453u32);
    proof {
        let m = input as int * 747796405;
        assert(product as int == m % 0x1_0000_0000);
        assert(state as int == (product as int + 2891336453) % 0x1_0000_0000);
        vstd::arithmetic::div_mod::lemma_add_mod_noop(m, 2891336453, 0x1_0000_0000);
        assert(state == wrap32(m + 2891336453));
        assert((state >> 28u32) < 16u32) by (bit_vector);
    }
    let word = ((state >> ((state >> 28u32) + 4u32)) ^ state).wrapping_mul(277803737u32);
    (word >> 22u32) ^ word
}


/// Number of dimensions of the low-discrepancy sequence.
pub const LDS_MAX_DIMENSIONS: usize = 32;

/// Fractional parts of the square roots of the first primes, in 32-bit
/// fixed point: the generator of each dimension of the sequence.
pub const LDS_PRIMES: [u32; 32] = [
    0x6a09e667u32, 0xbb67ae84u32, 0x3c6ef372u32, 0xa54ff539u32, 0x510e527fu32, 0x9b05688au32,
    0x1f83d9abu32, 0x5be0cd18u32, 0xcbbb9d5cu32, 0x629a2929u32, 0x91590159u32, 0x452fecd8u32,
    0x67332667u32, 0x8eb44a86u32, 0xdb0c2e0bu32, 0x47b5481du32, 0xae5f9155u32, 0xcf6c85d1u32,
    0x2f73477du32, 0x6d1826cau32, 0x8b43d455u32, 0xe360b595u32, 0x1c456002u32, 0x6f196330u32,
    0xd94ebeafu32, 0x9cc4a611u32, 0x261dc1f2u32, 0x5815a7bdu32, 0x70b7ed67u32, 0xa1513c68u32,
    0x44f93634u32, 0x720dcdfcu32,
];

/// Point `n` (shifted by `offset`) of the additive recurrence in
/// `dimension`, as a 32-bit fraction of one.
pub open spec fn lds_value(n: u32, dimension: int, offset: u32) -> u32 {
    wrap32(LDS_PRIMES@[dimension] * wrap32(n + offset))
}

/// Point `n + offset` of the low-discrepancy sequence in `dimension`, as a
/// fixed-point fraction: the uniform number in [0, 1) is the result divided
/// by 2^32.
pub fn lds_bits(n: u32, dimension: usize, offset: u32) -> (r: u32)
    requires
        dimension < LDS_MAX_DIMENSIONS,
    ensures
        r == lds_value(n, dimension as int, offset),
{
    let shifted = n.wrapping_add(offset);
    proof {
        assert(shifted == wrap32(n + offset));
    }
    LDS_PRIMES[dimension].wrapping_mul(shifted)
}

/// The per-pixel random state kept between samples: which sample of the
/// pixel's stream comes next, and the seed that offsets the stream.
#[derive(Clone, Copy, Debug, PartialEq, Eq, Structural)]
pub struct RngSeed {
    pub index: u32,
    pub seed: u32,
}

/// The random stream of one sample: each request takes the next dimension
/// of the low-discrepancy sequence at the sample's index, so the numbers of
/// one sample are stratified against those of the others.
pub struct RngState {
    state: RngSeed,
    dimension: usize,
}

impl RngState {
    pub closed spec fn seed_view(&self) -> RngSeed {
        self.state
    }

    /// Dimensions taken so far.
    pub closed spec fn dimensions_used(&self) -> nat {
        self.dimension as nat
    }

    pub fn new(state: RngSeed) -> (r: Self)
        ensures
            r.seed_view() == state,
            r.dimensions_used() == 0,
    {
        RngState { state, dimension: 0 }
    }

    /// Dimensions taken so far.
    pub fn dimension(&self) -> (r: usize)
        ensures
            r == self.dimensions_used(),
    {
        self.dimension
    }

    /// The state the pixel keeps for its next sample: the next index of the
    /// same seeded stream.
    pub fn next_state(&self) -> (r: RngSeed)
        ensures
            r == (RngSeed { index: wrap32(self.seed_view().index + 1), seed: self.seed_view().seed }),
    {
        RngSeed { index: self.state.index.wrapping_add(1), seed: self.state.seed }
    }

    /// The next number of the sample, as a 32-bit fraction of one: the next
    /// dimension of the sequence at the sample's index, offset by the seed.
    pub fn gen_r1_bits(&mut self) -> (r: u32)
        requires
            old(self).dimensions_used() + 1 < LDS_MAX_DIMENSIONS,
        ensures
            final(self).seed_view() == old(self).seed_view(),
            final(self).dimensions_used() == old(self).dimensions_used() + 1,
            r == lds_value(
                old(self).seed_view().index,
                final(self).dimensions_used() as int,
                old(self).seed_view().seed,
            ),
    {
        self.dimension = self.dimension + 1;
        lds_bits(self.state.index, self.dimension, self.state.seed)
    }
}

/// Seeds for a `width` x `height` frame from a blue-noise texture tiled
/// over it: pixel `(x, y)` starts at index 0 with the texel at
/// `(x mod texture_width, y mod texture_height)` as its seed.
pub fn blue_noise_seeds(
    width: u32,
    height: u32,
    texture: &Vec<u32>,
    texture_width: u32,
    texture_height: u32,
) -> (r: Vec<RngSeed>)
    requires
        texture_width > 0,
        texture_height > 0,
        texture@.len() == texture_width * texture_height,
        width * height <= usize::MAX,
    ensures
        r@.len() == width * height,
        forall|x: int, y: int|
            0 <= x < width && 0 <= y < height ==> #[trigger] r@[y * width + x] == (RngSeed {
                index: 0,
                seed: texture@[(y as int % texture_height as int) * texture_width + x % texture_width as int],
            }),
{
    let texture_len = texture.len();
    let mut seeds: Vec<RngSeed> = Vec::new();
    let mut y: u32 = 0;
    while y < height
        invariant
            y <= height,
            texture_len == texture@.len(),
            texture_width > 0,
            texture_height > 0,
            texture@.len() == texture_width * texture_height,
            width * height <= usize::MAX,
            seeds@.len() == y * width,
            forall|px: int, py: int|
                0 <= px < width && 0 <= py < y ==> #[trigger] seeds@[py * width + px] == (RngSeed {
                    index: 0,
                    seed: texture@[(py % texture_height as int) * texture_width + px
                        % texture_width as int],
                }),
        decreases height - y,
    {
        proof {
            let a = y as int % texture_height as int;
            assert(a * texture_width < texture_width * texture_height) by (nonlinear_arith)
                requires
                    0 <= a < texture_height,
                    texture_width > 0,
            ;
        }
        let row = (y % texture_height) as usize * texture_width as usize;
        let mut x: u32 = 0;
        proof {
            assert(y * width + width <= width * height) by (nonlinear_arith)
                requires
                    y < height,
            ;
        }
        while x < width
            invariant
                y < height,
                texture_len == texture@.len(),
                x <= width,
                texture_width > 0,
                texture_height > 0,
                texture@.len() == texture_width * texture_height,
                row == (y as int % texture_height as int) * texture_width,
                y * width + width <= width * height <= usize::MAX,
                seeds@.len() == y * width + x,
                forall|px: int, py: int|
                    0 <= px < width && 0 <= py < y ==> #[trigger] seeds@[py * width + px] == (RngSeed {
                        index: 0,
                        seed: texture@[(py % texture_height as int) * texture_width + px
                            % texture_width as int],
                    }),
                forall|px: int|
                    0 <= px < x ==> #[trigger] seeds@[y * width + px] == (RngSeed {
                        index: 0,
                        seed: texture@[(y as int % texture_height as int) * texture_width + px
                            % texture_width as int],
                    }),
            decreases width - x,
        {
            let column = (x % texture_width) as usize;
            proof {
                let a = y as int % texture_height as int;
                let b = x as int % texture_width as int;
                assert(a * texture_width + b < texture_width * texture_height) by (nonlinear_arith)
                    requires
                        0 <= a < texture_height,
                        0 <= b < texture_width,
                ;
            }
            seeds.push(RngSeed { index: 0, seed: texture[row + column] });
            proof {
                assert forall|px: int, py: int|
                    0 <= px < width && 0 <= py < y implies #[trigger] seeds@[py * width + px] == (
                    RngSeed {
                        index: 0,
                        seed: texture@[(py % texture_height as int) * texture_width + px
                            % texture_width as int],
                    }) by {
                    assert(py * width + px < y * width) by (nonlinear_arith)
                        requires
                            py < y,
                            px < width,
                    ;
                }
            }
            x = x + 1;
        }
        proof {
            assert(seeds@.len() == (y + 1) * width) by (nonlinear_arith)
                requires
                    seeds@.len() == y * width + width,
            ;
        }
        y = y + 1;
    }
    proof {
        assert(height * width == width * height) by (nonlinear_arith);
    }
    seeds
}

/// Seeds from one uniformly drawn number per pixel: pixel `i` starts its
/// stream at index `values[i]` with seed 0.
pub fn uniform_seeds(values: &Vec<u32>) -> (r: Vec<RngSeed>)
    ensures
        r@.len() == values@.len(),
        forall|i: int| 0 <= i < values@.len() ==> #[trigger] r@[i] == (RngSeed { index: values@[i], seed: 0 }),
{
    let mut seeds: Vec<RngSeed> = Vec::new();
    let mut i: usize = 0;
    while i < values.len()
        invariant
            i <= values@.len(),
            seeds@.len() == i,
            forall|k: int| 0 <= k < i ==> #[trigger] seeds@[k] == (RngSeed { index: values@[k], seed: 0 }),
        decreases values@.len() - i,
    {
        seeds.push(RngSeed { index: values[i], seed: 0 });
        i = i + 1;
    }
    seeds
}

/// Relies on rand::random::<u32>, which draws from the thread-local
/// generator: any `u32` may come back.
#[verifier::external_body]
fn random_u32() -> (r: u32) {
    rand::random::<u32>()
}

/// Uniform seeds for `count` pixels, each stream starting at a freshly
/// drawn random index with seed 0.
pub fn draw_uniform_seeds(count: usize) -> (r: Vec<RngSeed>)
    ensures
        r@.len() == count,
        forall|i: int| 0 <= i < count ==> (#[trigger] r@[i]).seed == 0,
{
    let mut values: Vec<u32> = Vec::new();
    let mut i: usize = 0;
    while i < count
        invariant
            i <= count,
            values@.len() == i,
        decreases count - i,
    {
        values.push(random_u32());
        i = i + 1;
    }
    uniform_seeds(&values)
}

} // verus!
