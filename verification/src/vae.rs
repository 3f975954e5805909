//! Geometry of the autoencoders: how their blocks chain and by how much they scale.

use vstd::prelude::*;

verus! {

/// Geometry of an autoencoder.
#[derive(Clone, Debug)]
pub struct VaeConfig {
    /// Channels of the latent.
    pub latent_channels: usize,
    /// Channels of the picture.
    pub out_channels: usize,
    /// Block widths in encoder order; the decoder walks them backwards.
    pub block_out_channels: Vec<usize>,
    /// Residual blocks per encoder block; a decoder block has one more.
    pub layers_per_block: usize,
}

impl Default for VaeConfig {
    /// The x4 upscaler's autoencoder.
    fn default() -> (config: Self)
        ensures
            config.latent_channels == 4,
            config.out_channels == 3,
            config.block_out_channels@ == seq![128usize, 256, 512],
            config.layers_per_block == 2,
    {
        let mut widths: Vec<usize> = Vec::new();
        widths.push(128);
        widths.push(256);
        widths.push(512);
        assert(widths@ =~= seq![128usize, 256, 512]);
        VaeConfig {
            latent_channels: 4,
            out_channels: 3,
            block_out_channels: widths,
            layers_per_block: 2,
        }
    }
}

/// One block: the channels of its residual blocks, and whether it then doubles
/// (in a decoder) or halves (in an encoder) both sides.
pub struct BlockPlan {
    pub resnets: Vec<(usize, usize)>,
    pub resample: bool,
}

impl BlockPlan {
    /// The block takes `from` to `to` channels in its first residual block and
    /// keeps them in the others.
    pub open spec fn takes(&self, from: usize, to: usize, count: int) -> bool {
        &&& self.resnets@.len() == count
        &&& forall|j: int|
            0 <= j < count ==> #[trigger] self.resnets@[j] == if j == 0 {
                (from, to)
            } else {
                (to, to)
            }
    }
}

/// Builds one block.
fn block(from: usize, to: usize, count: usize, resample: bool) -> (b: BlockPlan)
    ensures
        b.takes(from, to, count as int),
        b.resample == resample,
{
    let mut resnets: Vec<(usize, usize)> = Vec::new();
    let mut j: usize = 0;
    while j < count
        invariant
            j <= count,
            resnets@.len() == j,
            forall|k: int|
                0 <= k < j ==> #[trigger] resnets@[k] == if k == 0 {
                    (from, to)
                } else {
                    (to, to)
                },
        decreases count - j,
    {
        resnets.push(if j == 0 { (from, to) } else { (to, to) });
        j = j + 1;
    }
    BlockPlan { resnets, resample }
}

/// The blocks of the given widths, in the order in which they run: each takes the
/// width before it (the first its own) to its own, and all but the last resample.
pub open spec fn chained(blocks: Seq<BlockPlan>, widths: Seq<usize>, count: int) -> bool {
    &&& blocks.len() == widths.len()
    &&& forall|i: int|
        #![trigger blocks[i]]
        0 <= i < blocks.len() ==> {
            &&& blocks[i].takes(if i == 0 { widths[0] } else { widths[i - 1] }, widths[i], count)
            &&& blocks[i].resample == (i != widths.len() - 1)
        }
}

/// Builds the blocks of the given widths, in the order in which they run.
fn chain(widths: &Vec<usize>, count: usize) -> (blocks: Vec<BlockPlan>)
    requires
        widths@.len() >= 1,
    ensures
        chained(blocks@, widths@, count as int),
{
    let mut blocks: Vec<BlockPlan> = Vec::new();
    let mut prev: usize = widths[0];
    let mut i: usize = 0;
    while i < widths.len()
        invariant
            1 <= widths@.len(),
            i <= widths@.len(),
            prev == (if i == 0 { widths@[0] } else { widths@[i - 1] }),
            blocks@.len() == i,
            forall|k: int|
                #![trigger blocks@[k]]
                0 <= k < i ==> {
                    &&& blocks@[k].takes(
                        if k == 0 { widths@[0] } else { widths@[k - 1] },
                        widths@[k],
                        count as int,
                    )
                    &&& blocks@[k].resample == (k != widths@.len() - 1)
                },
        decreases widths@.len() - i,
    {
        let width: usize = widths[i];
        blocks.push(block(prev, width, count, i != widths.len() - 1));
        prev = width;
        i = i + 1;
    }
    blocks
}

/// A chain of blocks between two convolutions.
pub struct VaePlan {
    /// Channels that come in.
    pub input: usize,
    /// Channels before the first block (and in the middle, where there is one).
    pub first: usize,
    pub blocks: Vec<BlockPlan>,
    /// Channels after the last block.
    pub last: usize,
    /// Channels that go out.
    pub output: usize,
}

impl VaeConfig {
    /// The plan is that of the decoder.
    pub open spec fn decodes(&self, plan: VaePlan) -> bool {
        &&& plan.input == self.latent_channels
        &&& plan.first == self.block_out_channels@.last()
        &&& chained(
            plan.blocks@,
            self.block_out_channels@.reverse(),
            self.layers_per_block + 1,
        )
        &&& plan.last == self.block_out_channels@[0]
        &&& plan.output == self.out_channels
    }

    /// The plan is that of the encoder.
    pub open spec fn encodes(&self, plan: VaePlan) -> bool {
        &&& plan.input == self.out_channels
        &&& plan.first == self.block_out_channels@[0]
        &&& chained(plan.blocks@, self.block_out_channels@, self.layers_per_block as int)
        &&& plan.last == self.block_out_channels@.last()
        &&& plan.output == 2 * self.latent_channels
    }
}

impl VaeConfig {
    /// Plans the decoder: from the latent, the widths backwards, one more residual
    /// block each, to the picture.
    pub fn decoder(&self) -> (plan: VaePlan)
        requires
            self.block_out_channels@.len() >= 1,
            self.layers_per_block < usize::MAX,
        ensures
            self.decodes(plan),
    {
        let n: usize = self.block_out_channels.len();
        let mut widths: Vec<usize> = Vec::new();
        let mut i: usize = 0;
        while i < n
            invariant
                i <= n == self.block_out_channels@.len(),
                widths@.len() == i,
                forall|k: int|
                    0 <= k < i ==> #[trigger] widths@[k] == self.block_out_channels@[n - 1 - k],
            decreases n - i,
        {
            widths.push(self.block_out_channels[n - 1 - i]);
            i = i + 1;
        }
        assert(widths@ =~= self.block_out_channels@.reverse());
        let blocks: Vec<BlockPlan> = chain(&widths, self.layers_per_block + 1);
        VaePlan {
            input: self.latent_channels,
            first: widths[0],
            blocks,
            last: widths[n - 1],
            output: self.out_channels,
        }
    }

    /// Plans the encoder: from the picture, the widths forwards, to the mean and
    /// variance of each latent channel.
    pub fn encoder(&self) -> (plan: VaePlan)
        requires
            self.block_out_channels@.len() >= 1,
            2 * self.latent_channels <= usize::MAX,
        ensures
            self.encodes(plan),
    {
        let n: usize = self.block_out_channels.len();
        let blocks: Vec<BlockPlan> = chain(&self.block_out_channels, self.layers_per_block);
        VaePlan {
            input: self.out_channels,
            first: self.block_out_channels[0],
            blocks,
            last: self.block_out_channels[n - 1],
            output: 2 * self.latent_channels,
        }
    }
}

/// An autoencoder with a four-channel latent, RGB pictures and two residual blocks
/// per encoder block.
fn with_widths(widths: Vec<usize>) -> (config: VaeConfig)
    ensures
        config.latent_channels == 4,
        config.out_channels == 3,
        config.block_out_channels@ == widths@,
        config.layers_per_block == 2,
{
    VaeConfig {
        latent_channels: 4,
        out_channels: 3,
        block_out_channels: widths,
        layers_per_block: 2,
    }
}

/// The SD2.1 autoencoder, of which the flow-matching model uses the encoder.
pub fn sd21_config() -> (config: VaeConfig)
    ensures
        config.latent_channels == 4,
        config.out_channels == 3,
        config.block_out_channels@ == seq![128usize, 256, 512, 512],
        config.layers_per_block == 2,
{
    let mut widths: Vec<usize> = Vec::new();
    widths.push(128);
    widths.push(256);
    widths.push(512);
    widths.push(512);
    assert(widths@ =~= seq![128usize, 256, 512, 512]);
    with_widths(widths)
}

/// The distilled SD2.1 autoencoder, of which the flow-matching model uses the
/// decoder.
pub fn light_config() -> (config: VaeConfig)
    ensures
        config.latent_channels == 4,
        config.out_channels == 3,
        config.block_out_channels@ == seq![128usize, 128, 256, 256],
        config.layers_per_block == 2,
{
    let mut widths: Vec<usize> = Vec::new();
    widths.push(128);
    widths.push(128);
    widths.push(256);
    widths.push(256);
    assert(widths@ =~= seq![128usize, 128, 256, 256]);
    with_widths(widths)
}

/// The one-step model's 4x autoencoder.
pub fn d4_config() -> (config: VaeConfig)
    ensures
        config.latent_channels == 4,
        config.out_channels == 3,
        config.block_out_channels@ == seq![128usize, 256, 256],
        config.layers_per_block == 2,
{
    let mut widths: Vec<usize> = Vec::new();
    widths.push(128);
    widths.push(256);
    widths.push(256);
    assert(widths@ =~= seq![128usize, 256, 256]);
    with_widths(widths)
}

/// A side of length `side` after the first `n` blocks of a decoder, each of which
/// may double it.
pub open spec fn grown(blocks: Seq<BlockPlan>, n: nat, side: int) -> int
    decreases n,
{
    if n == 0 {
        side
    } else if blocks[n - 1].resample {
        2 * grown(blocks, (n - 1) as nat, side)
    } else {
        grown(blocks, (n - 1) as nat, side)
    }
}

/// A side of length `side` after the first `n` blocks of an encoder, each of which
/// may halve it.
pub open spec fn shrunk(blocks: Seq<BlockPlan>, n: nat, side: int) -> int
    decreases n,
{
    if n == 0 {
        side
    } else if blocks[n - 1].resample {
        shrunk(blocks, (n - 1) as nat, side) / 2
    } else {
        shrunk(blocks, (n - 1) as nat, side)
    }
}

/// The channels that leave the first `n` blocks, or nothing where a residual block
/// meets channels that it was not planned for.
pub open spec fn passes(blocks: Seq<BlockPlan>, n: nat, start: usize) -> Option<usize>
    decreases n,
{
    if n == 0 {
        Some(start)
    } else {
        match passes(blocks, (n - 1) as nat, start) {
            Some(c) => resnets_pass(
                blocks[n - 1].resnets@,
                blocks[n - 1].resnets@.len(),
                c,
            ),
            None => None,
        }
    }
}

/// The same through the first `n` residual blocks of one block.
pub open spec fn resnets_pass(resnets: Seq<(usize, usize)>, n: nat, start: usize) -> Option<usize>
    decreases n,
{
    if n == 0 {
        Some(start)
    } else {
        match resnets_pass(resnets, (n - 1) as nat, start) {
            Some(c) => if c == resnets[n - 1].0 {
                Some(resnets[n - 1].1)
            } else {
                None
            },
            None => None,
        }
    }
}

/// A block that takes one width to another does so.
proof fn lemma_block_passes(b: BlockPlan, from: usize, to: usize, count: int, n: nat)
    requires
        b.takes(from, to, count),
        1 <= n <= count,
    ensures
        resnets_pass(b.resnets@, n, from) == Some(to),
    decreases n,
{
    reveal_with_fuel(resnets_pass, 2);
    if n > 1 {
        lemma_block_passes(b, from, to, count, (n - 1) as nat);
    }
    let entry = b.resnets@[n - 1];
}

/// A chain passes its widths on.
proof fn lemma_chain_passes(blocks: Seq<BlockPlan>, widths: Seq<usize>, count: int, n: nat)
    requires
        chained(blocks, widths, count),
        count >= 1,
        1 <= n <= widths.len(),
    ensures
        passes(blocks, n, widths[0]) == Some(widths[n - 1]),
    decreases n,
{
    reveal_with_fuel(passes, 2);
    if n > 1 {
        lemma_chain_passes(blocks, widths, count, (n - 1) as nat);
    }
    let b = blocks[n - 1];
    let from = if n == 1 { widths[0] } else { widths[n - 2] };
    lemma_block_passes(b, from, widths[n - 1], count, count as nat);
}

/// All but the last block of a chain double the side.
proof fn lemma_chain_grows(
    blocks: Seq<BlockPlan>,
    widths: Seq<usize>,
    count: int,
    n: nat,
    side: int,
)
    requires
        chained(blocks, widths, count),
        n <= widths.len(),
    ensures
        n < widths.len() ==> grown(blocks, n, side) == side * vstd::arithmetic::power2::pow2(n),
        n >= 1 && n == widths.len() ==> grown(blocks, n, side) == side
            * vstd::arithmetic::power2::pow2((n - 1) as nat),
    decreases n,
{
    vstd::arithmetic::power2::lemma_pow2(0);
    if n == 0 {
        vstd::arithmetic::power2::lemma2_to64();
        assert(side * 1 == side);
    } else {
        lemma_chain_grows(blocks, widths, count, (n - 1) as nat, side);
        let b = blocks[n - 1];
        if n < widths.len() {
            vstd::arithmetic::power2::lemma_pow2_unfold(n);
            let p = vstd::arithmetic::power2::pow2((n - 1) as nat);
            assert(2 * (side * p) == side * (2 * p)) by (nonlinear_arith);
        }
    }
}

/// All but the last block of a chain halve the side; a side that starts as a
/// multiple of the whole factor is never rounded.
proof fn lemma_chain_shrinks(
    blocks: Seq<BlockPlan>,
    widths: Seq<usize>,
    count: int,
    n: nat,
    side: int,
    k: nat,
)
    requires
        chained(blocks, widths, count),
        n <= widths.len(),
        n < widths.len() ==> k >= n,
        n == widths.len() ==> k + 1 >= n,
    ensures
        n < widths.len() ==> shrunk(blocks, n, side * vstd::arithmetic::power2::pow2(k)) == side
            * vstd::arithmetic::power2::pow2((k - n) as nat),
        n >= 1 && n == widths.len() ==> shrunk(
            blocks,
            n,
            side * vstd::arithmetic::power2::pow2(k),
        ) == side * vstd::arithmetic::power2::pow2((k + 1 - n) as nat),
    decreases n,
{
    if n > 0 {
        lemma_chain_shrinks(blocks, widths, count, (n - 1) as nat, side, k);
        let b = blocks[n - 1];
        if n < widths.len() {
            let m = (k - n) as nat;
            vstd::arithmetic::power2::lemma_pow2_unfold((m + 1) as nat);
            let p = vstd::arithmetic::power2::pow2(m);
            assert((side * (2 * p)) == 2 * (side * p)) by (nonlinear_arith);
        }
    }
}

/// A decoder of `n` widths passes its channels from block to block and enlarges
/// both sides by two to the power `n - 1`.
pub proof fn law_decoder_scales(blocks: Seq<BlockPlan>, widths: Seq<usize>, count: nat, side: int)
    requires
        widths.len() >= 1,
        count >= 1,
        chained(blocks, widths, count as int),
    ensures
        passes(blocks, blocks.len(), widths[0]) == Some(widths.last()),
        grown(blocks, blocks.len(), side) == side * vstd::arithmetic::power2::pow2(
            (widths.len() - 1) as nat,
        ),
{
    lemma_chain_passes(blocks, widths, count as int, widths.len());
    lemma_chain_grows(blocks, widths, count as int, widths.len(), side);
}

/// An encoder of `n` widths undoes what a decoder of `n` widths does to the sides:
/// it brings a side that was enlarged by two to the power `n - 1` back.
pub proof fn law_encoder_undoes_decoder(
    down: Seq<BlockPlan>,
    up: Seq<BlockPlan>,
    down_widths: Seq<usize>,
    up_widths: Seq<usize>,
    down_count: nat,
    up_count: nat,
    side: int,
)
    requires
        up_widths.len() == down_widths.len() >= 1,
        down_count >= 1,
        up_count >= 1,
        chained(down, down_widths, down_count as int),
        chained(up, up_widths, up_count as int),
    ensures
        shrunk(down, down.len(), grown(up, up.len(), side)) == side,
{
    let n = up_widths.len();
    lemma_chain_grows(up, up_widths, up_count as int, n, side);
    lemma_chain_shrinks(down, down_widths, down_count as int, n, side, (n - 1) as nat);
    vstd::arithmetic::power2::lemma2_to64();
    assert(side * 1 == side);
}

/// The blocks of a chain are of one make: each has the same number of residual blocks,
/// the first of which takes the channels of the block before to the block's own, and the
/// others keep them. The first block of a chain begins with its own channels, and every
/// block but the last resamples.
pub proof fn law_blocks_are_of_one_make(
    blocks: Seq<BlockPlan>,
    widths: Seq<usize>,
    count: nat,
    i: int,
    j: int,
)
    requires
        chained(blocks, widths, count as int),
        0 <= i < widths.len(),
        0 <= j < count,
    ensures
        blocks.len() == widths.len(),
        blocks[i].resnets@.len() == count,
        blocks[i].resnets@[j].1 == widths[i],
        j > 0 ==> blocks[i].resnets@[j].0 == widths[i],
        j == 0 && i > 0 ==> blocks[i].resnets@[0].0 == widths[i - 1],
        j == 0 && i == 0 ==> blocks[0].resnets@[0].0 == widths[0],
        blocks[i].resample <==> i + 1 < widths.len(),
{
    let b = blocks[i];
    let entry = b.resnets@[j];
}

/// A side is doubled, or halved, once for every block passed, but for the last, which
/// leaves it alone.
pub proof fn law_sides_change_block_by_block(
    blocks: Seq<BlockPlan>,
    widths: Seq<usize>,
    count: nat,
    n: nat,
    side: int,
)
    requires
        chained(blocks, widths, count as int),
        1 <= n <= widths.len(),
    ensures
        n < widths.len() ==> grown(blocks, n, side) == 2 * grown(blocks, (n - 1) as nat, side)
            && shrunk(blocks, n, side) == shrunk(blocks, (n - 1) as nat, side) / 2,
        n == widths.len() ==> grown(blocks, n, side) == grown(blocks, (n - 1) as nat, side)
            && shrunk(blocks, n, side) == shrunk(blocks, (n - 1) as nat, side),
        grown(blocks, 0, side) == side,
        shrunk(blocks, 0, side) == side,
{
    let b = blocks[n - 1];
}

/// The decoder goes the encoder's way back: what goes into the one comes out of the
/// other, each begins with the channels that the other ends with, block by block they
/// have the same channels in the opposite order, the decoder with one residual block more
/// in each; and decoding a latent, then encoding the picture, leads back to its sides. The
/// encoder gives two channels for each of the latent's.
pub proof fn law_decoder_goes_the_way_back(
    config: VaeConfig,
    down: VaePlan,
    up: VaePlan,
    i: int,
    side: int,
)
    requires
        config.encodes(down),
        config.decodes(up),
        config.block_out_channels@.len() >= 1,
        config.layers_per_block >= 1,
        0 <= i < config.block_out_channels@.len(),
    ensures
        ({
            let n = config.block_out_channels@.len() as int;
            let (d, u) = (down.blocks@[i], up.blocks@[n - 1 - i]);
            &&& down.input == up.output == config.out_channels
            &&& down.output == 2 * up.input == 2 * config.latent_channels
            &&& down.first == up.last == config.block_out_channels@[0]
            &&& down.last == up.first == config.block_out_channels@[n - 1]
            &&& down.blocks@.len() == up.blocks@.len() == n
            &&& d.resnets@.len() == config.layers_per_block
            &&& u.resnets@.len() == config.layers_per_block + 1
            &&& d.resnets@.last().1 == u.resnets@.last().1 == config.block_out_channels@[i]
            &&& passes(down.blocks@, n as nat, down.first) == Some(down.last)
            &&& passes(up.blocks@, n as nat, up.first) == Some(up.last)
            &&& shrunk(down.blocks@, n as nat, grown(up.blocks@, n as nat, side)) == side
        }),
{
    let widths = config.block_out_channels@;
    let back = widths.reverse();
    let n = widths.len() as int;
    let (few, many) = (config.layers_per_block as nat, (config.layers_per_block + 1) as nat);
    law_decoder_scales(down.blocks@, widths, few, side);
    law_decoder_scales(up.blocks@, back, many, side);
    law_encoder_undoes_decoder(down.blocks@, up.blocks@, widths, back, few, many, side);
    law_blocks_are_of_one_make(down.blocks@, widths, few, i, few - 1);
    law_blocks_are_of_one_make(up.blocks@, back, many, n - 1 - i, many - 1);
}

} // verus!
