//! The denoising UNet as a straight-line program.
//!
//! The network is planned stage by stage and flattened into a list of layers with
//! explicit skip saves and joins. Whoever runs it walks the list, so that the
//! wiring (which layer follows which, and which skip meets which layer) is decided
//! here.

use vstd::prelude::*;

use crate::text::decimal;
use crate::text::joined;

verus! {

/// The part of the network that a layer belongs to.
#[derive(Clone, Copy, Debug, PartialEq, Eq, Structural)]
pub enum Part {
    Down(usize),
    Mid,
    Up(usize),
}

/// One step of the network's forward pass.
#[derive(Clone, Copy, Debug, PartialEq, Eq, Structural)]
pub enum UnetOp {
    /// The first convolution.
    ConvIn { from: usize, to: usize },
    /// A residual block.
    Resnet { at: Part, index: usize, from: usize, to: usize },
    /// A transformer block; with `only_cross` its first attention looks at the
    /// context too.
    Attend { at: Part, index: usize, channels: usize, only_cross: bool },
    /// A strided convolution that halves both sides, rounding up.
    Downsample { stage: usize, channels: usize },
    /// Doubles both sides.
    Upsample { stage: usize, channels: usize },
    /// Puts the current state on the skip stack.
    SaveSkip,
    /// Takes the newest skip off the stack and appends its channels.
    JoinSkip,
    /// The closing normalization and convolution.
    ConvOut { from: usize, to: usize },
}

/// The layers of one stage.
pub struct StagePlan {
    /// Input and output channels of each residual block.
    pub resnets: Vec<(usize, usize)>,
    /// How many of the residual blocks are followed by a transformer.
    pub attentions: usize,
    /// Channels of the transformers and of the resampling layer.
    pub channels: usize,
    /// Whether the transformers' first attention looks at the context.
    pub only_cross: bool,
    /// Whether the stage ends by resampling.
    pub resample: bool,
}

/// A [`StagePlan`] as a value.
#[verifier::ext_equal]
pub struct Stage {
    pub resnets: Seq<(usize, usize)>,
    pub attentions: usize,
    pub channels: usize,
    pub only_cross: bool,
    pub resample: bool,
}

impl View for StagePlan {
    type V = Stage;

    open spec fn view(&self) -> Stage {
        Stage {
            resnets: self.resnets@,
            attentions: self.attentions,
            channels: self.channels,
            only_cross: self.only_cross,
            resample: self.resample,
        }
    }
}

/// The layers of a down stage, up to and without the `n`-th residual block: each
/// block, its transformer if it has one, and a skip save.
pub open spec fn down_layers(stage: usize, st: Stage, n: nat) -> Seq<UnetOp>
    decreases n,
{
    if n == 0 {
        Seq::empty()
    } else {
        down_layers(stage, st, (n - 1) as nat) + layer(Part::Down(stage), st, n - 1)
            + seq![UnetOp::SaveSkip]
    }
}

/// The `j`-th residual block of a stage and its transformer if it has one.
pub open spec fn layer(at: Part, st: Stage, j: int) -> Seq<UnetOp> {
    let resnet = UnetOp::Resnet {
        at,
        index: j as usize,
        from: st.resnets[j].0,
        to: st.resnets[j].1,
    };
    let attend = UnetOp::Attend {
        at,
        index: j as usize,
        channels: st.channels,
        only_cross: st.only_cross,
    };
    if j < st.attentions {
        seq![resnet, attend]
    } else {
        seq![resnet]
    }
}

/// A down stage.
pub open spec fn down_stage(stage: usize, st: Stage) -> Seq<UnetOp> {
    down_layers(stage, st, st.resnets.len()) + if st.resample {
        seq![UnetOp::Downsample { stage, channels: st.channels }, UnetOp::SaveSkip]
    } else {
        Seq::empty()
    }
}

/// The first `n` down stages.
pub open spec fn down_path(stages: Seq<Stage>, n: nat) -> Seq<UnetOp>
    decreases n,
{
    if n == 0 {
        Seq::empty()
    } else {
        down_path(stages, (n - 1) as nat) + down_stage((n - 1) as usize, stages[n - 1])
    }
}

/// The middle: a residual block, a transformer, a residual block.
pub open spec fn mid_stage(st: Stage) -> Seq<UnetOp> {
    seq![
        UnetOp::Resnet {
            at: Part::Mid,
            index: 0,
            from: st.resnets[0].0,
            to: st.resnets[0].1,
        },
        UnetOp::Attend {
            at: Part::Mid,
            index: 0,
            channels: st.channels,
            only_cross: st.only_cross,
        },
        UnetOp::Resnet {
            at: Part::Mid,
            index: 1,
            from: st.resnets[1].0,
            to: st.resnets[1].1,
        },
    ]
}

/// The layers of an up stage, up to and without the `n`-th residual block: a skip
/// join, the block, its transformer if it has one.
pub open spec fn up_layers(stage: usize, st: Stage, n: nat) -> Seq<UnetOp>
    decreases n,
{
    if n == 0 {
        Seq::empty()
    } else {
        up_layers(stage, st, (n - 1) as nat) + seq![UnetOp::JoinSkip] + layer(
            Part::Up(stage),
            st,
            n - 1,
        )
    }
}

/// An up stage.
pub open spec fn up_stage(stage: usize, st: Stage) -> Seq<UnetOp> {
    up_layers(stage, st, st.resnets.len()) + if st.resample {
        seq![UnetOp::Upsample { stage, channels: st.channels }]
    } else {
        Seq::empty()
    }
}

/// The first `n` up stages.
pub open spec fn up_path(stages: Seq<Stage>, n: nat) -> Seq<UnetOp>
    decreases n,
{
    if n == 0 {
        Seq::empty()
    } else {
        up_path(stages, (n - 1) as nat) + up_stage((n - 1) as usize, stages[n - 1])
    }
}

/// A whole network.
pub struct UnetPlan {
    /// Channels of the input.
    pub input: usize,
    /// Channels after the first and before the last convolution.
    pub base: usize,
    pub down: Vec<StagePlan>,
    pub mid: StagePlan,
    pub up: Vec<StagePlan>,
    /// Channels of the output.
    pub output: usize,
}

/// A [`UnetPlan`] as a value.
#[verifier::ext_equal]
pub struct Network {
    pub input: usize,
    pub base: usize,
    pub down: Seq<Stage>,
    pub mid: Stage,
    pub up: Seq<Stage>,
    pub output: usize,
}

/// Stages as values.
pub open spec fn stages_view(stages: Seq<StagePlan>) -> Seq<Stage> {
    Seq::new(stages.len(), |i: int| stages[i]@)
}

impl View for UnetPlan {
    type V = Network;

    open spec fn view(&self) -> Network {
        Network {
            input: self.input,
            base: self.base,
            down: stages_view(self.down@),
            mid: self.mid@,
            up: stages_view(self.up@),
            output: self.output,
        }
    }
}

/// The forward pass of a network.
pub open spec fn program_of(net: Network) -> Seq<UnetOp> {
    seq![UnetOp::ConvIn { from: net.input, to: net.base }, UnetOp::SaveSkip] + down_path(
        net.down,
        net.down.len(),
    ) + mid_stage(net.mid) + up_path(net.up, net.up.len()) + seq![
        UnetOp::ConvOut { from: net.base, to: net.output },
    ]
}

/// Appends the `j`-th residual block of a stage, and its transformer.
fn push_layer(ops: &mut Vec<UnetOp>, at: Part, st: &StagePlan, j: usize)
    requires
        j < st.resnets@.len(),
    ensures
        final(ops)@ == old(ops)@ + layer(at, st@, j as int),
{
    let (from, to) = st.resnets[j];
    ops.push(UnetOp::Resnet { at, index: j, from, to });
    if j < st.attentions {
        ops.push(
            UnetOp::Attend { at, index: j, channels: st.channels, only_cross: st.only_cross },
        );
    }
    assert(ops@ =~= old(ops)@ + layer(at, st@, j as int));
}

/// Appends a down stage.
fn push_down(ops: &mut Vec<UnetOp>, stage: usize, st: &StagePlan)
    ensures
        final(ops)@ == old(ops)@ + down_stage(stage, st@),
{
    let ghost before = ops@;
    let mut j: usize = 0;
    assert(ops@ =~= before + down_layers(stage, st@, 0));
    while j < st.resnets.len()
        invariant
            j <= st.resnets@.len(),
            ops@ == before + down_layers(stage, st@, j as nat),
        decreases st.resnets@.len() - j,
    {
        push_layer(ops, Part::Down(stage), st, j);
        ops.push(UnetOp::SaveSkip);
        j = j + 1;
        assert(ops@ =~= before + down_layers(stage, st@, j as nat));
    }
    if st.resample {
        ops.push(UnetOp::Downsample { stage, channels: st.channels });
        ops.push(UnetOp::SaveSkip);
    }
    assert(ops@ =~= before + down_stage(stage, st@));
}

/// Appends an up stage.
fn push_up(ops: &mut Vec<UnetOp>, stage: usize, st: &StagePlan)
    ensures
        final(ops)@ == old(ops)@ + up_stage(stage, st@),
{
    let ghost before = ops@;
    let mut j: usize = 0;
    assert(ops@ =~= before + up_layers(stage, st@, 0));
    while j < st.resnets.len()
        invariant
            j <= st.resnets@.len(),
            ops@ == before + up_layers(stage, st@, j as nat),
        decreases st.resnets@.len() - j,
    {
        ops.push(UnetOp::JoinSkip);
        push_layer(ops, Part::Up(stage), st, j);
        j = j + 1;
        assert(ops@ =~= before + up_layers(stage, st@, j as nat));
    }
    if st.resample {
        ops.push(UnetOp::Upsample { stage, channels: st.channels });
    }
    assert(ops@ =~= before + up_stage(stage, st@));
}

impl UnetPlan {
    /// The forward pass as a list of steps.
    pub fn program(&self) -> (ops: Vec<UnetOp>)
        requires
            self.mid.resnets@.len() >= 2,
        ensures
            ops@ == program_of(self@),
    {
        let mut ops: Vec<UnetOp> = Vec::new();
        ops.push(UnetOp::ConvIn { from: self.input, to: self.base });
        ops.push(UnetOp::SaveSkip);
        let ghost net = self@;
        let ghost head = ops@;
        assert(head =~= seq![
            UnetOp::ConvIn { from: net.input, to: net.base },
            UnetOp::SaveSkip,
        ]);
        assert(ops@ =~= head + down_path(net.down, 0));
        let mut i: usize = 0;
        while i < self.down.len()
            invariant
                i <= self.down@.len(),
                net == self@,
                ops@ == head + down_path(net.down, i as nat),
            decreases self.down@.len() - i,
        {
            push_down(&mut ops, i, &self.down[i]);
            i = i + 1;
            assert(ops@ =~= head + down_path(net.down, i as nat));
        }
        let (from, to) = self.mid.resnets[0];
        ops.push(UnetOp::Resnet { at: Part::Mid, index: 0, from, to });
        ops.push(
            UnetOp::Attend {
                at: Part::Mid,
                index: 0,
                channels: self.mid.channels,
                only_cross: self.mid.only_cross,
            },
        );
        let (from, to) = self.mid.resnets[1];
        ops.push(UnetOp::Resnet { at: Part::Mid, index: 1, from, to });
        let ghost mid = head + down_path(net.down, net.down.len()) + mid_stage(net.mid);
        assert(ops@ =~= mid + up_path(net.up, 0));
        let mut i: usize = 0;
        while i < self.up.len()
            invariant
                i <= self.up@.len(),
                net == self@,
                ops@ == mid + up_path(net.up, i as nat),
            decreases self.up@.len() - i,
        {
            push_up(&mut ops, i, &self.up[i]);
            i = i + 1;
            assert(ops@ =~= mid + up_path(net.up, i as nat));
        }
        ops.push(UnetOp::ConvOut { from: self.base, to: self.output });
        assert(ops@ =~= program_of(net));
        ops
    }
}

/// A stage of the x4 upscaler's network, as a value.
pub open spec fn stage(
    resnets: Seq<(usize, usize)>,
    attentions: usize,
    channels: usize,
    only_cross: bool,
    resample: bool,
) -> Stage {
    Stage { resnets, attentions, channels, only_cross, resample }
}

/// The network of the x4 upscaler: seven input channels (latent and low-resolution
/// image), four output channels, widths 256, 512, 512 and 1024.
pub open spec fn x4_network() -> Network {
    Network {
        input: 7,
        base: 256,
        down: seq![
            stage(seq![(256, 256), (256, 256)], 0, 256, false, true),
            stage(seq![(256, 512), (512, 512)], 2, 512, true, true),
            stage(seq![(512, 512), (512, 512)], 2, 512, true, true),
            stage(seq![(512, 1024), (1024, 1024)], 2, 1024, false, false),
        ],
        mid: stage(seq![(1024, 1024), (1024, 1024)], 1, 1024, false, false),
        up: seq![
            stage(seq![(2048, 1024), (2048, 1024), (1536, 1024)], 3, 1024, false, true),
            stage(seq![(1536, 512), (1024, 512), (1024, 512)], 3, 512, true, true),
            stage(seq![(1024, 512), (1024, 512), (768, 512)], 3, 512, true, true),
            stage(seq![(768, 256), (512, 256), (512, 256)], 0, 256, false, false),
        ],
        output: 4,
    }
}

/// A stage with two residual blocks.
fn two(
    a: (usize, usize),
    b: (usize, usize),
    attentions: usize,
    channels: usize,
    only_cross: bool,
    resample: bool,
) -> (st: StagePlan)
    ensures
        st@ == stage(seq![a, b], attentions, channels, only_cross, resample),
{
    let mut resnets: Vec<(usize, usize)> = Vec::new();
    resnets.push(a);
    resnets.push(b);
    assert(resnets@ =~= seq![a, b]);
    StagePlan { resnets, attentions, channels, only_cross, resample }
}

/// A stage with three residual blocks.
fn three(
    a: (usize, usize),
    b: (usize, usize),
    c: (usize, usize),
    attentions: usize,
    channels: usize,
    only_cross: bool,
    resample: bool,
) -> (st: StagePlan)
    ensures
        st@ == stage(seq![a, b, c], attentions, channels, only_cross, resample),
{
    let mut resnets: Vec<(usize, usize)> = Vec::new();
    resnets.push(a);
    resnets.push(b);
    resnets.push(c);
    assert(resnets@ =~= seq![a, b, c]);
    StagePlan { resnets, attentions, channels, only_cross, resample }
}

/// Plans the network of the x4 upscaler.
pub fn x4_unet() -> (plan: UnetPlan)
    ensures
        plan@ == x4_network(),
{
    let mut down: Vec<StagePlan> = Vec::new();
    down.push(two((256, 256), (256, 256), 0, 256, false, true));
    down.push(two((256, 512), (512, 512), 2, 512, true, true));
    down.push(two((512, 512), (512, 512), 2, 512, true, true));
    down.push(two((512, 1024), (1024, 1024), 2, 1024, false, false));
    let mid: StagePlan = two((1024, 1024), (1024, 1024), 1, 1024, false, false);
    let mut up: Vec<StagePlan> = Vec::new();
    up.push(three((2048, 1024), (2048, 1024), (1536, 1024), 3, 1024, false, true));
    up.push(three((1536, 512), (1024, 512), (1024, 512), 3, 512, true, true));
    up.push(three((1024, 512), (1024, 512), (768, 512), 3, 512, true, true));
    up.push(three((768, 256), (512, 256), (512, 256), 0, 256, false, false));
    assert(stages_view(down@) =~= x4_network().down);
    assert(stages_view(up@) =~= x4_network().up);
    UnetPlan { input: 7, base: 256, down, mid, up, output: 4 }
}

/// What flows through the network: the state's channels and sides, and the same of
/// every saved skip, the newest last.
#[verifier::ext_equal]
pub struct Flow {
    pub ch: int,
    pub h: int,
    pub w: int,
    pub skips: Seq<(int, int, int)>,
}

/// One step's effect on the shapes; nothing where the shapes do not meet.
pub open spec fn step_shape(op: UnetOp, f: Flow) -> Option<Flow> {
    match op {
        UnetOp::ConvIn { from, to } | UnetOp::ConvOut { from, to } | UnetOp::Resnet {
            from,
            to,
            ..
        } => if f.ch == from {
            Some(Flow { ch: to as int, ..f })
        } else {
            None
        },
        UnetOp::Attend { channels, .. } => if f.ch == channels {
            Some(f)
        } else {
            None
        },
        UnetOp::Downsample { channels, .. } => if f.ch == channels {
            Some(Flow { h: (f.h + 1) / 2, w: (f.w + 1) / 2, ..f })
        } else {
            None
        },
        UnetOp::Upsample { channels, .. } => if f.ch == channels {
            Some(Flow { h: 2 * f.h, w: 2 * f.w, ..f })
        } else {
            None
        },
        UnetOp::SaveSkip => Some(Flow { skips: f.skips.push((f.ch, f.h, f.w)), ..f }),
        UnetOp::JoinSkip => if f.skips.len() > 0 && f.skips.last().1 == f.h && f.skips.last().2
            == f.w {
            Some(Flow { ch: f.ch + f.skips.last().0, skips: f.skips.drop_last(), ..f })
        } else {
            None
        },
    }
}

/// The effect of a list of steps on the shapes.
pub open spec fn run_shape(ops: Seq<UnetOp>, f: Flow) -> Option<Flow>
    decreases ops.len(),
{
    if ops.len() == 0 {
        Some(f)
    } else {
        match step_shape(ops[0], f) {
            Some(g) => run_shape(ops.drop_first(), g),
            None => None,
        }
    }
}

/// Running two lists one after the other is running their concatenation.
proof fn lemma_run_concat(a: Seq<UnetOp>, b: Seq<UnetOp>, f: Flow)
    ensures
        run_shape(a + b, f) == match run_shape(a, f) {
            Some(g) => run_shape(b, g),
            None => None,
        },
    decreases a.len(),
{
    if a.len() == 0 {
        assert(a + b =~= b);
    } else {
        assert((a + b).drop_first() =~= a.drop_first() + b);
        match step_shape(a[0], f) {
            Some(g) => lemma_run_concat(a.drop_first(), b, g),
            None => {},
        }
    }
}

/// A single step.
proof fn lemma_run_one(op: UnetOp, f: Flow)
    ensures
        run_shape(seq![op], f) == step_shape(op, f),
{
    assert(seq![op].drop_first() =~= Seq::<UnetOp>::empty());
    reveal_with_fuel(run_shape, 2);
}

/// A residual block with its transformer, where the channels meet.
proof fn lemma_run_layer(at: Part, st: Stage, j: int, f: Flow)
    requires
        f.ch == st.resnets[j].0,
        j < st.attentions ==> st.channels == st.resnets[j].1,
    ensures
        run_shape(layer(at, st, j), f) == Some(Flow { ch: st.resnets[j].1 as int, ..f }),
{
    let ops = layer(at, st, j);
    let g = Flow { ch: st.resnets[j].1 as int, ..f };
    lemma_run_one(ops[0], f);
    if j < st.attentions {
        lemma_run_one(ops[1], g);
        assert(ops =~= seq![ops[0]] + seq![ops[1]]);
        lemma_run_concat(seq![ops[0]], seq![ops[1]], f);
    } else {
        assert(ops =~= seq![ops[0]]);
    }
}

/// The shape that is saved as a skip.
spec fn as_skip(ch: usize, f: Flow) -> (int, int, int) {
    (ch as int, f.h, f.w)
}

/// A down stage of two blocks whose channels meet saves a skip after each block and
/// after resampling.
proof fn lemma_down_stage(i: usize, st: Stage, f: Flow)
    requires
        st.resnets.len() == 2,
        f.ch == st.resnets[0].0,
        st.resnets[0].1 == st.resnets[1].0,
        st.attentions >= 1 ==> st.channels == st.resnets[0].1,
        st.attentions >= 2 ==> st.channels == st.resnets[1].1,
        st.resample ==> st.channels == st.resnets[1].1,
    ensures
        run_shape(down_stage(i, st), f) == Some(after_down(st, f)),
{
    reveal_with_fuel(down_layers, 3);
    let (r0, r1) = (st.resnets[0], st.resnets[1]);
    let at = Part::Down(i);
    let save = seq![UnetOp::SaveSkip];
    let none = Seq::<UnetOp>::empty();
    let f0 = Flow { ch: r0.1 as int, ..f };
    let f1 = Flow { skips: f.skips.push(as_skip(r0.1, f)), ..f0 };
    let f2 = Flow { ch: r1.1 as int, ..f1 };
    let f3 = Flow { skips: f1.skips.push(as_skip(r1.1, f)), ..f2 };
    lemma_run_layer(at, st, 0, f);
    lemma_run_one(UnetOp::SaveSkip, f0);
    lemma_run_layer(at, st, 1, f1);
    lemma_run_one(UnetOp::SaveSkip, f2);
    lemma_run_concat(none, layer(at, st, 0), f);
    lemma_run_concat(none + layer(at, st, 0), save, f);
    let one = down_layers(i, st, 1);
    assert(one == none + layer(at, st, 0) + save);
    lemma_run_concat(one, layer(at, st, 1), f);
    lemma_run_concat(one + layer(at, st, 1), save, f);
    let two = down_layers(i, st, 2);
    assert(two == one + layer(at, st, 1) + save);
    if st.resample {
        let down = UnetOp::Downsample { stage: i, channels: st.channels };
        let f4 = Flow { h: (f.h + 1) / 2, w: (f.w + 1) / 2, ..f3 };
        lemma_run_one(down, f3);
        lemma_run_one(UnetOp::SaveSkip, f4);
        lemma_run_concat(seq![down], save, f3);
        assert(seq![down, UnetOp::SaveSkip] =~= seq![down] + save);
        lemma_run_concat(two, seq![down, UnetOp::SaveSkip], f);
    } else {
        lemma_run_concat(two, none, f);
    }
}

/// The state after a down stage of two blocks.
spec fn after_down(st: Stage, f: Flow) -> Flow {
    let saved = f.skips.push(as_skip(st.resnets[0].1, f)).push(as_skip(st.resnets[1].1, f));
    if st.resample {
        let (h, w) = ((f.h + 1) / 2, (f.w + 1) / 2);
        Flow { ch: st.resnets[1].1 as int, h, w, skips: saved.push((st.resnets[1].1 as int, h, w)) }
    } else {
        Flow { ch: st.resnets[1].1 as int, skips: saved, ..f }
    }
}

/// An up stage of three blocks takes three skips of its own size off the stack.
proof fn lemma_up_stage(i: usize, st: Stage, f: Flow)
    requires
        st.resnets.len() == 3,
        f.skips.len() >= 3,
        forall|k: int| 1 <= k <= 3 ==> (#[trigger] f.skips[f.skips.len() - k]).1 == f.h,
        forall|k: int| 1 <= k <= 3 ==> (#[trigger] f.skips[f.skips.len() - k]).2 == f.w,
        st.resnets[0].0 == f.ch + f.skips[f.skips.len() - 1].0,
        st.resnets[1].0 == st.resnets[0].1 + f.skips[f.skips.len() - 2].0,
        st.resnets[2].0 == st.resnets[1].1 + f.skips[f.skips.len() - 3].0,
        forall|k: int|
            0 <= k < 3 && k < st.attentions ==> (#[trigger] st.resnets[k]).1 == st.channels,
        st.resample ==> st.channels == st.resnets[2].1,
    ensures
        run_shape(up_stage(i, st), f) == Some(after_up(st, f)),
{
    reveal_with_fuel(up_layers, 4);
    let at = Part::Up(i);
    let join = seq![UnetOp::JoinSkip];
    let none = Seq::<UnetOp>::empty();
    let n = f.skips.len() as int;
    let k0 = f.skips.drop_last();
    let k1 = k0.drop_last();
    let k2 = k1.drop_last();
    assert(k0.last() == f.skips[n - 2]);
    assert(k1.last() == f.skips[n - 3]);
    let j0 = Flow { ch: st.resnets[0].0 as int, skips: k0, ..f };
    let f0 = Flow { ch: st.resnets[0].1 as int, ..j0 };
    let j1 = Flow { ch: st.resnets[1].0 as int, skips: k1, ..f };
    let f1 = Flow { ch: st.resnets[1].1 as int, ..j1 };
    let j2 = Flow { ch: st.resnets[2].0 as int, skips: k2, ..f };
    let f2 = Flow { ch: st.resnets[2].1 as int, ..j2 };
    lemma_run_one(UnetOp::JoinSkip, f);
    lemma_run_layer(at, st, 0, j0);
    lemma_run_one(UnetOp::JoinSkip, f0);
    lemma_run_layer(at, st, 1, j1);
    lemma_run_one(UnetOp::JoinSkip, f1);
    lemma_run_layer(at, st, 2, j2);
    lemma_run_concat(none, join, f);
    lemma_run_concat(none + join, layer(at, st, 0), f);
    let one = up_layers(i, st, 1);
    assert(one == none + join + layer(at, st, 0));
    lemma_run_concat(one, join, f);
    lemma_run_concat(one + join, layer(at, st, 1), f);
    let two = up_layers(i, st, 2);
    assert(two == one + join + layer(at, st, 1));
    lemma_run_concat(two, join, f);
    lemma_run_concat(two + join, layer(at, st, 2), f);
    let three = up_layers(i, st, 3);
    assert(three == two + join + layer(at, st, 2));
    if st.resample {
        let up = UnetOp::Upsample { stage: i, channels: st.channels };
        lemma_run_one(up, f2);
        lemma_run_concat(three, seq![up], f);
    } else {
        lemma_run_concat(three, none, f);
    }
    assert(k2 =~= f.skips.take(n - 3));
}

/// The state after an up stage of three blocks.
spec fn after_up(st: Stage, f: Flow) -> Flow {
    let g = Flow {
        ch: st.resnets[2].1 as int,
        skips: f.skips.take(f.skips.len() - 3),
        ..f
    };
    if st.resample {
        Flow { h: 2 * f.h, w: 2 * f.w, ..g }
    } else {
        g
    }
}

/// An up stage stops where the newest skip is of another size.
proof fn lemma_up_mismatch(i: usize, st: Stage, f: Flow)
    requires
        st.resnets.len() == 3,
        f.skips.len() >= 1,
        f.skips.last().1 != f.h || f.skips.last().2 != f.w,
    ensures
        run_shape(up_stage(i, st), f) is None,
{
    reveal_with_fuel(up_layers, 4);
    let at = Part::Up(i);
    let join = seq![UnetOp::JoinSkip];
    let none = Seq::<UnetOp>::empty();
    lemma_run_one(UnetOp::JoinSkip, f);
    lemma_run_concat(none, join, f);
    lemma_run_concat(none + join, layer(at, st, 0), f);
    let one = up_layers(i, st, 1);
    assert(one == none + join + layer(at, st, 0));
    lemma_run_concat(one, join, f);
    lemma_run_concat(one + join, layer(at, st, 1), f);
    let two = up_layers(i, st, 2);
    assert(two == one + join + layer(at, st, 1));
    lemma_run_concat(two, join, f);
    lemma_run_concat(two + join, layer(at, st, 2), f);
    let three = up_layers(i, st, 3);
    assert(three == two + join + layer(at, st, 2));
    if st.resample {
        let up = UnetOp::Upsample { stage: i, channels: st.channels };
        lemma_run_concat(three, seq![up], f);
    } else {
        lemma_run_concat(three, none, f);
    }
}

/// What the x4 network's down path leaves: the deepest state, and the twelve skips.
spec fn x4_deep(h: int, w: int) -> Flow {
    let (h1, w1) = ((h + 1) / 2, (w + 1) / 2);
    let (h2, w2) = ((h1 + 1) / 2, (w1 + 1) / 2);
    let (h3, w3) = ((h2 + 1) / 2, (w2 + 1) / 2);
    Flow {
        ch: 1024,
        h: h3,
        w: w3,
        skips: seq![
            (256, h, w),
            (256, h, w),
            (256, h, w),
            (256, h1, w1),
            (512, h1, w1),
            (512, h1, w1),
            (512, h2, w2),
            (512, h2, w2),
            (512, h2, w2),
            (512, h3, w3),
            (1024, h3, w3),
            (1024, h3, w3),
        ],
    }
}

/// The down path of the x4 network.
proof fn lemma_x4_down(h: int, w: int)
    ensures
        run_shape(
            down_path(x4_network().down, 4),
            Flow { ch: 256, h, w, skips: seq![(256int, h, w)] },
        ) == Some(x4_deep(h, w)),
{
    let stages = x4_network().down;
    let f = Flow { ch: 256, h, w, skips: seq![(256int, h, w)] };
    reveal_with_fuel(down_path, 5);
    let none = Seq::<UnetOp>::empty();
    let g0 = after_down(stages[0], f);
    let g1 = after_down(stages[1], g0);
    let g2 = after_down(stages[2], g1);
    let g3 = after_down(stages[3], g2);
    lemma_down_stage(0, stages[0], f);
    lemma_down_stage(1, stages[1], g0);
    lemma_down_stage(2, stages[2], g1);
    lemma_down_stage(3, stages[3], g2);
    lemma_run_concat(none, down_stage(0, stages[0]), f);
    let p1 = down_path(stages, 1);
    assert(p1 == none + down_stage(0, stages[0]));
    lemma_run_concat(p1, down_stage(1, stages[1]), f);
    let p2 = down_path(stages, 2);
    assert(p2 == p1 + down_stage(1, stages[1]));
    lemma_run_concat(p2, down_stage(2, stages[2]), f);
    let p3 = down_path(stages, 3);
    assert(p3 == p2 + down_stage(2, stages[2]));
    lemma_run_concat(p3, down_stage(3, stages[3]), f);
    assert(down_path(stages, 4) == p3 + down_stage(3, stages[3]));
    assert(g3.skips =~= x4_deep(h, w).skips);
    assert(g3 =~= x4_deep(h, w));
}

/// The middle of the x4 network changes no shape.
proof fn lemma_x4_mid(f: Flow)
    requires
        f.ch == 1024,
    ensures
        run_shape(mid_stage(x4_network().mid), f) == Some(f),
{
    let ops = mid_stage(x4_network().mid);
    lemma_run_one(ops[0], f);
    lemma_run_one(ops[1], f);
    lemma_run_one(ops[2], f);
    lemma_run_concat(seq![ops[0]], seq![ops[1]], f);
    lemma_run_concat(seq![ops[0]] + seq![ops[1]], seq![ops[2]], f);
    assert(ops =~= seq![ops[0]] + seq![ops[1]] + seq![ops[2]]);
}

/// The state on the x4 network's way up, before stage `i`, where every side met.
spec fn x4_rising(h: int, w: int, i: int) -> Flow {
    let (h1, w1) = ((h + 1) / 2, (w + 1) / 2);
    let (h2, w2) = ((h1 + 1) / 2, (w1 + 1) / 2);
    let skips = x4_deep(h, w).skips.take(12 - 3 * i);
    if i == 1 {
        Flow { ch: 1024, h: 2 * ((h2 + 1) / 2), w: 2 * ((w2 + 1) / 2), skips }
    } else if i == 2 {
        Flow { ch: 512, h: 2 * h2, w: 2 * w2, skips }
    } else if i == 3 {
        Flow { ch: 512, h: 2 * h1, w: 2 * w1, skips }
    } else {
        Flow { ch: 256, h, w, skips }
    }
}

/// The first up stage always goes through.
proof fn lemma_x4_up0(h: int, w: int)
    ensures
        run_shape(up_stage(0, x4_network().up[0]), x4_deep(h, w)) == Some(x4_rising(h, w, 1)),
{
    let f = x4_deep(h, w);
    assert(f.skips[11] == f.skips[f.skips.len() - 1]);
    assert(f.skips[10] == f.skips[f.skips.len() - 2]);
    assert(f.skips[9] == f.skips[f.skips.len() - 3]);
    lemma_up_stage(0, x4_network().up[0], f);
}

/// The later up stages go through where their skips are of their own size.
proof fn lemma_x4_up_next(h: int, w: int, i: int)
    requires
        1 <= i <= 3,
    ensures
        ({
            let f = x4_rising(h, w, i);
            let last = x4_deep(h, w).skips[11 - 3 * i];
            let met = last.1 == f.h && last.2 == f.w;
            let r = run_shape(up_stage(i as usize, x4_network().up[i]), f);
            &&& met ==> r == Some(x4_rising(h, w, i + 1))
            &&& !met ==> r is None
        }),
{
    let f = x4_rising(h, w, i);
    let all = x4_deep(h, w).skips;
    let n = 12 - 3 * i;
    let st = x4_network().up[i];
    assert(f.skips[n - 1] == all[n - 1]);
    assert(f.skips[n - 2] == all[n - 2]);
    assert(f.skips[n - 3] == all[n - 3]);
    if all[n - 1].1 == f.h && all[n - 1].2 == f.w {
        lemma_up_stage(i as usize, st, f);
        assert(f.skips.take(n - 3) =~= all.take(n - 3));
    } else {
        lemma_up_mismatch(i as usize, st, f);
    }
}

/// The up path of the x4 network: it goes through exactly where both sides were
/// halved three times without rounding.
proof fn lemma_x4_up(h: int, w: int)
    requires
        h >= 1,
        w >= 1,
    ensures
        h % 8 == 0 && w % 8 == 0 ==> run_shape(up_path(x4_network().up, 4), x4_deep(h, w))
            == Some(Flow { ch: 256, h, w, skips: Seq::empty() }),
        !(h % 8 == 0 && w % 8 == 0) ==> run_shape(
            up_path(x4_network().up, 4),
            x4_deep(h, w),
        ) is None,
{
    let stages = x4_network().up;
    let f = x4_deep(h, w);
    let none = Seq::<UnetOp>::empty();
    let p1 = up_path(stages, 1);
    let p2 = up_path(stages, 2);
    let p3 = up_path(stages, 3);
    let p4 = up_path(stages, 4);
    assert(p1 == none + up_stage(0, stages[0])) by {
        reveal_with_fuel(up_path, 2);
    }
    assert(p2 == p1 + up_stage(1, stages[1]));
    assert(p3 == p2 + up_stage(2, stages[2]));
    assert(p4 == p3 + up_stage(3, stages[3]));
    lemma_run_concat(none, up_stage(0, stages[0]), f);
    lemma_run_concat(p1, up_stage(1, stages[1]), f);
    lemma_run_concat(p2, up_stage(2, stages[2]), f);
    lemma_run_concat(p3, up_stage(3, stages[3]), f);
    lemma_x4_up0(h, w);
    lemma_x4_up_next(h, w, 1);
    lemma_x4_up_next(h, w, 2);
    lemma_x4_up_next(h, w, 3);
    assert(x4_rising(h, w, 4).skips =~= Seq::empty());
}

/// The x4 network's wiring is sound: fed seven channels whose sides are multiples
/// of eight, every layer finds the channels it was planned for, every saved skip is
/// joined once by a layer of its own size, and four channels of the same sides come
/// out. On other sides the skips do not meet.
pub proof fn law_x4_wiring(h: int, w: int)
    requires
        h >= 1,
        w >= 1,
    ensures
        h % 8 == 0 && w % 8 == 0 ==> run_shape(
            program_of(x4_network()),
            Flow { ch: 7, h, w, skips: Seq::empty() },
        ) == Some(Flow { ch: 4, h, w, skips: Seq::empty() }),
        !(h % 8 == 0 && w % 8 == 0) ==> run_shape(
            program_of(x4_network()),
            Flow { ch: 7, h, w, skips: Seq::empty() },
        ) is None,
{
    let net = x4_network();
    let f = Flow { ch: 7, h, w, skips: Seq::<(int, int, int)>::empty() };
    let conv_in = UnetOp::ConvIn { from: net.input, to: net.base };
    let conv_out = UnetOp::ConvOut { from: net.base, to: net.output };
    let head = seq![conv_in, UnetOp::SaveSkip];
    let down = down_path(net.down, 4);
    let mid = mid_stage(net.mid);
    let up = up_path(net.up, 4);
    let g = Flow { ch: 256, h, w, skips: seq![(256int, h, w)] };
    lemma_run_one(conv_in, f);
    lemma_run_one(UnetOp::SaveSkip, Flow { ch: 256, ..f });
    lemma_run_concat(seq![conv_in], seq![UnetOp::SaveSkip], f);
    assert(head =~= seq![conv_in] + seq![UnetOp::SaveSkip]);
    assert(f.skips.push((256int, h, w)) =~= g.skips);
    assert(run_shape(head, f) == Some(g));
    lemma_x4_down(h, w);
    lemma_x4_mid(x4_deep(h, w));
    lemma_x4_up(h, w);
    lemma_run_concat(head, down, f);
    lemma_run_concat(head + down, mid, f);
    lemma_run_concat(head + down + mid, up, f);
    lemma_run_concat(head + down + mid + up, seq![conv_out], f);
    lemma_run_one(conv_out, Flow { ch: 256, ..f });
    assert(program_of(net) == head + down + mid + up + seq![conv_out]);
}

/// Transformer and residual block belong together at position `i`: a transformer
/// follows the block of its own part, number and channels; every block of 512 channels
/// or more is followed by one, but for the second of the middle; and a transformer
/// attends to nothing but the context exactly where it has 512 channels.
spec fn attends_right(ops: Seq<UnetOp>, i: int) -> bool {
    match ops[i] {
        UnetOp::Attend { at, index, channels, only_cross } => {
            &&& channels == 512 || channels == 1024
            &&& only_cross <==> channels == 512
            &&& !(at is Mid && index == 1)
            &&& i >= 1
            &&& ops[i - 1] matches UnetOp::Resnet { at: a, index: n, to, .. } && a == at && n
                == index && to == channels
        },
        UnetOp::Resnet { at, index, to, .. } => to >= 512 && !(at is Mid && index == 1) ==> {
            &&& i + 1 < ops.len()
            &&& ops[i + 1] matches UnetOp::Attend { at: a, index: n, channels, .. } && a == at && n
                == index && channels == to
        },
        _ => true,
    }
}

/// The same at every position.
spec fn attends_throughout(ops: Seq<UnetOp>) -> bool {
    forall|i: int| 0 <= i < ops.len() ==> #[trigger] attends_right(ops, i)
}

/// Lists in which transformers and blocks belong together can be put one behind the
/// other.
proof fn lemma_attends_concat(a: Seq<UnetOp>, b: Seq<UnetOp>)
    requires
        attends_throughout(a),
        attends_throughout(b),
    ensures
        attends_throughout(a + b),
{
    assert forall|i: int| 0 <= i < (a + b).len() implies #[trigger] attends_right(a + b, i) by {
        if i < a.len() {
            assert(attends_right(a, i));
        } else {
            assert(attends_right(b, i - a.len()));
        }
    }
}

/// What the blocks and transformers of a stage have to be.
spec fn stage_attends(st: Stage) -> bool {
    forall|j: int|
        0 <= j < st.resnets.len() ==> {
            &&& j < st.attentions <==> (#[trigger] st.resnets[j]).1 >= 512
            &&& j < st.attentions ==> st.channels == st.resnets[j].1 && (st.channels == 512
                || st.channels == 1024) && (st.only_cross <==> st.channels == 512)
        }
}

/// A block of such a stage.
proof fn lemma_attends_layer(at: Part, st: Stage, j: int)
    requires
        stage_attends(st),
        !(at is Mid),
        0 <= j < st.resnets.len(),
    ensures
        attends_throughout(layer(at, st, j)),
{
    let r = st.resnets[j];
    let ops = layer(at, st, j);
    assert forall|i: int| 0 <= i < ops.len() implies #[trigger] attends_right(ops, i) by {
        assert(i == 0 || i == 1);
    }
}

/// The first blocks of such a down stage.
proof fn lemma_attends_down(stage: usize, st: Stage, n: nat)
    requires
        stage_attends(st),
        n <= st.resnets.len(),
    ensures
        attends_throughout(down_layers(stage, st, n)),
    decreases n,
{
    if n > 0 {
        let m = (n - 1) as nat;
        let save = seq![UnetOp::SaveSkip];
        lemma_attends_down(stage, st, m);
        lemma_attends_layer(Part::Down(stage), st, n - 1);
        lemma_attends_concat(down_layers(stage, st, m), layer(Part::Down(stage), st, n - 1));
        lemma_attends_concat(
            down_layers(stage, st, m) + layer(Part::Down(stage), st, n - 1),
            save,
        );
    }
}

/// The first blocks of such an up stage.
proof fn lemma_attends_up(stage: usize, st: Stage, n: nat)
    requires
        stage_attends(st),
        n <= st.resnets.len(),
    ensures
        attends_throughout(up_layers(stage, st, n)),
    decreases n,
{
    if n > 0 {
        let m = (n - 1) as nat;
        let join = seq![UnetOp::JoinSkip];
        lemma_attends_up(stage, st, m);
        lemma_attends_layer(Part::Up(stage), st, n - 1);
        lemma_attends_concat(up_layers(stage, st, m), join);
        lemma_attends_concat(
            up_layers(stage, st, m) + join,
            layer(Part::Up(stage), st, n - 1),
        );
    }
}

/// The first of such down stages and of such up stages.
proof fn lemma_attends_paths(stages: Seq<Stage>, n: nat)
    requires
        n <= stages.len(),
        forall|i: int| 0 <= i < stages.len() ==> stage_attends(#[trigger] stages[i]),
    ensures
        attends_throughout(down_path(stages, n)),
        attends_throughout(up_path(stages, n)),
    decreases n,
{
    if n > 0 {
        let m = (n - 1) as nat;
        let st = stages[n - 1];
        let at = (n - 1) as usize;
        lemma_attends_paths(stages, m);
        lemma_attends_down(at, st, st.resnets.len());
        lemma_attends_up(at, st, st.resnets.len());
        let down = if st.resample {
            seq![UnetOp::Downsample { stage: at, channels: st.channels }, UnetOp::SaveSkip]
        } else {
            Seq::empty()
        };
        let up = if st.resample {
            seq![UnetOp::Upsample { stage: at, channels: st.channels }]
        } else {
            Seq::empty()
        };
        assert(attends_throughout(down));
        assert(attends_throughout(up));
        lemma_attends_concat(down_layers(at, st, st.resnets.len()), down);
        lemma_attends_concat(up_layers(at, st, st.resnets.len()), up);
        lemma_attends_concat(down_path(stages, m), down_stage(at, st));
        lemma_attends_concat(up_path(stages, m), up_stage(at, st));
    }
}

/// The x4 network attends where its checkpoint does: its blocks of 512 channels or more
/// each have a transformer behind them, and no others do; and those of 512 channels,
/// and no others, look at nothing but the context.
pub proof fn law_x4_attention(i: int)
    requires
        0 <= i < program_of(x4_network()).len(),
    ensures
        ({
            let ops = program_of(x4_network());
            &&& ops[i] matches UnetOp::Attend { channels, only_cross, .. } ==> {
                &&& channels == 512 || channels == 1024
                &&& only_cross <==> channels == 512
                &&& i >= 1 && ops[i - 1] is Resnet
            }
            &&& ops[i] matches UnetOp::Resnet { at, index, to, .. } ==> {
                &&& to >= 512 && !(at is Mid && index == 1) ==> i + 1 < ops.len() && ops[i + 1]
                    == (UnetOp::Attend { at, index, channels: to, only_cross: to == 512 })
                &&& to < 512 || (at is Mid && index == 1) ==> i + 1 < ops.len() && !(ops[i
                    + 1] is Attend)
            }
        }),
{
    let net = x4_network();
    let ops = program_of(net);
    let head = seq![UnetOp::ConvIn { from: net.input, to: net.base }, UnetOp::SaveSkip];
    let tail = seq![UnetOp::ConvOut { from: net.base, to: net.output }];
    let (down, up) = (down_path(net.down, 4), up_path(net.up, 4));
    let mid = mid_stage(net.mid);
    assert(attends_throughout(head));
    assert(attends_throughout(tail));
    assert(attends_throughout(mid)) by {
        assert forall|k: int| 0 <= k < mid.len() implies #[trigger] attends_right(mid, k) by {
            assert(k == 0 || k == 1 || k == 2);
        }
    }
    lemma_attends_paths(net.down, 4);
    lemma_attends_paths(net.up, 4);
    lemma_attends_concat(head, down);
    lemma_attends_concat(head + down, mid);
    lemma_attends_concat(head + down + mid, up);
    lemma_attends_concat(head + down + mid + up, tail);
    assert(ops == head + down + mid + up + tail);
    assert(attends_right(ops, i));
    assert(ops.last() is ConvOut);
    if i + 1 < ops.len() {
        assert(attends_right(ops, i + 1));
    }
}

/// The x4 network's way up mirrors its way down: as many stages, of the same channels
/// in the opposite order, attending alike, with one block more in each; and every block
/// of a stage leads to the stage's channels. Going down, all
/// stages but the last halve the sides; going up, all but the last double them. The
/// first stage has 256 channels, the second and the third twice as many, the fourth twice
/// as many again.
pub proof fn law_x4_stages_mirror(i: int)
    requires
        0 <= i < 4,
    ensures
        ({
            let net = x4_network();
            let (d, u) = (net.down[i], net.up[3 - i]);
            &&& net.down.len() == 4
            &&& net.up.len() == 4
            &&& d.channels == u.channels
            &&& d.only_cross == u.only_cross
            &&& d.resnets.len() == 2
            &&& u.resnets.len() == 3
            &&& d.attentions == 0 || d.attentions == d.resnets.len()
            &&& u.attentions == 0 || u.attentions == u.resnets.len()
            &&& d.attentions == 0 <==> u.attentions == 0
            &&& d.resample <==> i < 3
            &&& u.resample <==> i > 0
            &&& forall|j: int| 0 <= j < 2 ==> (#[trigger] d.resnets[j]).1 == d.channels
            &&& forall|j: int| 0 <= j < 3 ==> (#[trigger] u.resnets[j]).1 == u.channels
            &&& net.mid.channels == net.down[3].channels
            &&& net.mid.only_cross == net.down[3].only_cross
            &&& net.base == net.down[0].channels == 256
            &&& net.down[1].channels == 2 * net.down[0].channels
            &&& net.down[2].channels == net.down[1].channels
            &&& net.down[3].channels == 2 * net.down[2].channels
        }),
{
}

/// The layer is one that the network plans, where its name says.
pub open spec fn is_planned(net: Network, op: UnetOp) -> bool {
    match op {
        UnetOp::ConvIn { from, to } => from == net.input && to == net.base,
        UnetOp::ConvOut { from, to } => from == net.base && to == net.output,
        UnetOp::Resnet { at, index, from, to } => part_stage(net, at) matches Some(st) && index
            < st.resnets.len() && st.resnets[index as int] == (from, to),
        UnetOp::Attend { at, index, channels, only_cross } => part_stage(net, at) matches Some(st)
            && index < st.resnets.len() && (at is Mid && index == 0 || index < st.attentions)
            && channels == st.channels && only_cross == st.only_cross,
        UnetOp::Downsample { stage, channels } => stage < net.down.len()
            && net.down[stage as int].resample && channels == net.down[stage as int].channels,
        UnetOp::Upsample { stage, channels } => stage < net.up.len()
            && net.up[stage as int].resample && channels == net.up[stage as int].channels,
        UnetOp::SaveSkip | UnetOp::JoinSkip => true,
    }
}

/// The stage of a part of the network, if it has the part.
pub open spec fn part_stage(net: Network, at: Part) -> Option<Stage> {
    match at {
        Part::Down(i) => if i < net.down.len() {
            Some(net.down[i as int])
        } else {
            None
        },
        Part::Mid => Some(net.mid),
        Part::Up(i) => if i < net.up.len() {
            Some(net.up[i as int])
        } else {
            None
        },
    }
}

/// The numbers of stages and blocks are those of a machine.
pub open spec fn can_number(net: Network) -> bool {
    &&& net.down.len() <= usize::MAX
    &&& net.up.len() <= usize::MAX
    &&& net.mid.resnets.len() == 2
    &&& forall|i: int| 0 <= i < net.down.len() ==> (#[trigger] net.down[i]).resnets.len() <= usize::MAX
    &&& forall|i: int| 0 <= i < net.up.len() ==> (#[trigger] net.up[i]).resnets.len() <= usize::MAX
}

/// All of a list is planned.
spec fn all_planned(net: Network, ops: Seq<UnetOp>) -> bool {
    forall|i: int| 0 <= i < ops.len() ==> is_planned(net, #[trigger] ops[i])
}

/// A block and its transformer are planned.
proof fn lemma_layer_planned(net: Network, at: Part, st: Stage, j: int)
    requires
        part_stage(net, at) == Some(st),
        0 <= j < st.resnets.len() <= usize::MAX,
    ensures
        all_planned(net, layer(at, st, j)),
{
}

/// Lists that are planned can be put one behind the other.
proof fn lemma_planned_concat(net: Network, a: Seq<UnetOp>, b: Seq<UnetOp>)
    requires
        all_planned(net, a),
        all_planned(net, b),
    ensures
        all_planned(net, a + b),
{
    assert forall|i: int| 0 <= i < (a + b).len() implies is_planned(net, #[trigger] (a + b)[i]) by {
        if i < a.len() {
            assert((a + b)[i] == a[i]);
        } else {
            assert((a + b)[i] == b[i - a.len()]);
        }
    }
}

/// The layers of a down stage are planned, and run through every block of it.
proof fn lemma_down_planned(net: Network, s: int, n: nat, j: int)
    requires
        can_number(net),
        0 <= s < net.down.len(),
        n <= net.down[s].resnets.len(),
    ensures
        all_planned(net, down_layers(s as usize, net.down[s], n)),
        0 <= j < n ==> runs_through(
            down_layers(s as usize, net.down[s], n),
            layer(Part::Down(s as usize), net.down[s], j) + seq![UnetOp::SaveSkip],
        ),
    decreases n,
{
    if n > 0 {
        let m = (n - 1) as nat;
        let (st, at) = (net.down[s], Part::Down(s as usize));
        let (before, own) = (down_layers(s as usize, st, m), layer(at, st, n - 1));
        let save = seq![UnetOp::SaveSkip];
        lemma_down_planned(net, s, m, j);
        lemma_layer_planned(net, at, st, n - 1);
        lemma_planned_concat(net, own, save);
        lemma_planned_concat(net, before, own + save);
        assert(before + own + save =~= before + (own + save));
        lemma_runs_itself(own + save);
        lemma_runs_on(before, own + save, layer(at, st, j) + save);
    }
}

/// The layers of an up stage are planned, and run through every block of it.
proof fn lemma_up_planned(net: Network, s: int, n: nat, j: int)
    requires
        can_number(net),
        0 <= s < net.up.len(),
        n <= net.up[s].resnets.len(),
    ensures
        all_planned(net, up_layers(s as usize, net.up[s], n)),
        0 <= j < n ==> runs_through(
            up_layers(s as usize, net.up[s], n),
            seq![UnetOp::JoinSkip] + layer(Part::Up(s as usize), net.up[s], j),
        ),
    decreases n,
{
    if n > 0 {
        let m = (n - 1) as nat;
        let (st, at) = (net.up[s], Part::Up(s as usize));
        let (before, own) = (up_layers(s as usize, st, m), layer(at, st, n - 1));
        let join = seq![UnetOp::JoinSkip];
        lemma_up_planned(net, s, m, j);
        lemma_layer_planned(net, at, st, n - 1);
        lemma_planned_concat(net, join, own);
        lemma_planned_concat(net, before, join + own);
        assert(before + join + own =~= before + (join + own));
        lemma_runs_itself(join + own);
        lemma_runs_on(before, join + own, join + layer(at, st, j));
    }
}

/// The steps of `piece` stand one behind the other from position `i` on.
pub open spec fn runs_at(ops: Seq<UnetOp>, piece: Seq<UnetOp>, i: int) -> bool {
    0 <= i && i + piece.len() <= ops.len() && ops.subrange(i, i + piece.len()) == piece
}

/// The steps of `piece` stand one behind the other somewhere.
pub open spec fn runs_through(ops: Seq<UnetOp>, piece: Seq<UnetOp>) -> bool {
    exists|i: int| #[trigger] runs_at(ops, piece, i)
}

/// A list runs through what a list that it begins or ends with runs through.
proof fn lemma_runs_on(a: Seq<UnetOp>, b: Seq<UnetOp>, piece: Seq<UnetOp>)
    ensures
        runs_through(a, piece) ==> runs_through(a + b, piece),
        runs_through(b, piece) ==> runs_through(a + b, piece),
{
    let n = piece.len() as int;
    if runs_through(a, piece) {
        let i = choose|i: int| #[trigger] runs_at(a, piece, i);
        assert((a + b).subrange(i, i + n) =~= a.subrange(i, i + n));
        assert(runs_at(a + b, piece, i));
    }
    if runs_through(b, piece) {
        let i = choose|i: int| #[trigger] runs_at(b, piece, i);
        let k = a.len() + i;
        assert((a + b).subrange(k, k + n) =~= b.subrange(i, i + n));
        assert(runs_at(a + b, piece, k));
    }
}

/// A list runs through itself.
proof fn lemma_runs_itself(a: Seq<UnetOp>)
    ensures
        runs_through(a, a),
{
    assert(a.subrange(0, a.len() as int) =~= a);
    assert(runs_at(a, a, 0));
}

/// The resampling layers behind a down stage's blocks.
spec fn down_tail(at: usize, st: Stage) -> Seq<UnetOp> {
    if st.resample {
        seq![UnetOp::Downsample { stage: at, channels: st.channels }, UnetOp::SaveSkip]
    } else {
        Seq::empty()
    }
}

/// The resampling layer behind an up stage's blocks.
spec fn up_tail(at: usize, st: Stage) -> Seq<UnetOp> {
    if st.resample {
        seq![UnetOp::Upsample { stage: at, channels: st.channels }]
    } else {
        Seq::empty()
    }
}

/// The way down is planned, and runs through what each of its stages runs through.
proof fn lemma_down_path_planned(net: Network, n: nat, s: int, piece: Seq<UnetOp>)
    requires
        can_number(net),
        n <= net.down.len(),
    ensures
        all_planned(net, down_path(net.down, n)),
        0 <= s < n && runs_through(down_stage(s as usize, net.down[s]), piece) ==> runs_through(
            down_path(net.down, n),
            piece,
        ),
    decreases n,
{
    if n > 0 {
        let m = (n - 1) as nat;
        let (st, at) = (net.down[n - 1], m as usize);
        let (path, blocks) = (down_path(net.down, m), down_layers(at, st, st.resnets.len()));
        let tail = down_tail(at, st);
        lemma_down_path_planned(net, m, s, piece);
        lemma_down_planned(net, n - 1, st.resnets.len(), 0);
        assert(all_planned(net, tail));
        lemma_planned_concat(net, blocks, tail);
        lemma_planned_concat(net, path, blocks + tail);
        assert(down_stage(at, st) == blocks + tail);
        lemma_runs_on(path, blocks + tail, piece);
    }
}

/// The way up is planned, and runs through what each of its stages runs through.
proof fn lemma_up_path_planned(net: Network, n: nat, s: int, piece: Seq<UnetOp>)
    requires
        can_number(net),
        n <= net.up.len(),
    ensures
        all_planned(net, up_path(net.up, n)),
        0 <= s < n && runs_through(up_stage(s as usize, net.up[s]), piece) ==> runs_through(
            up_path(net.up, n),
            piece,
        ),
    decreases n,
{
    if n > 0 {
        let m = (n - 1) as nat;
        let (st, at) = (net.up[n - 1], m as usize);
        let (path, blocks) = (up_path(net.up, m), up_layers(at, st, st.resnets.len()));
        let tail = up_tail(at, st);
        lemma_up_path_planned(net, m, s, piece);
        lemma_up_planned(net, n - 1, st.resnets.len(), 0);
        assert(all_planned(net, tail));
        lemma_planned_concat(net, blocks, tail);
        lemma_planned_concat(net, path, blocks + tail);
        assert(up_stage(at, st) == blocks + tail);
        lemma_runs_on(path, blocks + tail, piece);
    }
}

/// The forward pass of any network is made of what the network plans: every layer in it
/// is the one that its part and number name.
pub proof fn law_program_follows_the_plan(net: Network, i: int)
    requires
        can_number(net),
        0 <= i < program_of(net).len(),
    ensures
        is_planned(net, program_of(net)[i]),
{
    let head = seq![UnetOp::ConvIn { from: net.input, to: net.base }, UnetOp::SaveSkip];
    let tail = seq![UnetOp::ConvOut { from: net.base, to: net.output }];
    let (down, mid) = (down_path(net.down, net.down.len()), mid_stage(net.mid));
    let up = up_path(net.up, net.up.len());
    lemma_down_path_planned(net, net.down.len(), 0, head);
    lemma_up_path_planned(net, net.up.len(), 0, head);
    assert(all_planned(net, head));
    assert(all_planned(net, mid));
    assert(all_planned(net, tail));
    lemma_planned_concat(net, head, down);
    lemma_planned_concat(net, head + down, mid);
    lemma_planned_concat(net, head + down + mid, up);
    lemma_planned_concat(net, head + down + mid + up, tail);
}

/// The forward pass runs through what its three parts run through.
proof fn lemma_program_runs(net: Network, piece: Seq<UnetOp>)
    ensures
        runs_through(down_path(net.down, net.down.len()), piece) ==> runs_through(
            program_of(net),
            piece,
        ),
        runs_through(mid_stage(net.mid), piece) ==> runs_through(program_of(net), piece),
        runs_through(up_path(net.up, net.up.len()), piece) ==> runs_through(program_of(net), piece),
{
    let head = seq![UnetOp::ConvIn { from: net.input, to: net.base }, UnetOp::SaveSkip];
    let tail = seq![UnetOp::ConvOut { from: net.base, to: net.output }];
    let (down, mid) = (down_path(net.down, net.down.len()), mid_stage(net.mid));
    let up = up_path(net.up, net.up.len());
    lemma_runs_on(head, down, piece);
    lemma_runs_on(head + down, mid, piece);
    lemma_runs_on(head + down + mid, up, piece);
    lemma_runs_on(head + down + mid + up, tail, piece);
}

/// No planned block is left out of the way down: each is followed by its transformer if
/// it has one, and then by a skip save.
pub proof fn law_way_down_runs_every_block(net: Network, s: usize, j: int)
    requires
        can_number(net),
        s < net.down.len(),
        0 <= j < net.down[s as int].resnets.len(),
    ensures
        ({
            let st = net.down[s as int];
            let at = Part::Down(s);
            let index = j as usize;
            let block = UnetOp::Resnet { at, index, from: st.resnets[j].0, to: st.resnets[j].1 };
            let attend = UnetOp::Attend {
                at,
                index,
                channels: st.channels,
                only_cross: st.only_cross,
            };
            &&& j < st.attentions ==> runs_through(
                program_of(net),
                seq![block, attend, UnetOp::SaveSkip],
            )
            &&& j >= st.attentions ==> runs_through(
                program_of(net),
                seq![block, UnetOp::SaveSkip],
            )
        }),
{
    let st = net.down[s as int];
    let at = Part::Down(s);
    let save = seq![UnetOp::SaveSkip];
    let (blocks, tail) = (down_layers(s, st, st.resnets.len()), down_tail(s, st));
    let piece = layer(at, st, j) + save;
    lemma_down_planned(net, s as int, st.resnets.len(), j);
    lemma_runs_on(blocks, tail, piece);
    lemma_down_path_planned(net, net.down.len(), s as int, piece);
    lemma_program_runs(net, piece);
    let index = j as usize;
    let block = UnetOp::Resnet { at, index, from: st.resnets[j].0, to: st.resnets[j].1 };
    let attend = UnetOp::Attend { at, index, channels: st.channels, only_cross: st.only_cross };
    if j < st.attentions {
        assert(piece =~= seq![block, attend, UnetOp::SaveSkip]);
    } else {
        assert(piece =~= seq![block, UnetOp::SaveSkip]);
    }
}

/// No planned block is left out of the way up: each stands behind a skip join, and is
/// followed by its transformer if it has one.
pub proof fn law_way_up_runs_every_block(net: Network, s: usize, j: int)
    requires
        can_number(net),
        s < net.up.len(),
        0 <= j < net.up[s as int].resnets.len(),
    ensures
        ({
            let st = net.up[s as int];
            let at = Part::Up(s);
            let index = j as usize;
            let block = UnetOp::Resnet { at, index, from: st.resnets[j].0, to: st.resnets[j].1 };
            let attend = UnetOp::Attend {
                at,
                index,
                channels: st.channels,
                only_cross: st.only_cross,
            };
            &&& j < st.attentions ==> runs_through(
                program_of(net),
                seq![UnetOp::JoinSkip, block, attend],
            )
            &&& j >= st.attentions ==> runs_through(
                program_of(net),
                seq![UnetOp::JoinSkip, block],
            )
        }),
{
    let st = net.up[s as int];
    let at = Part::Up(s);
    let join = seq![UnetOp::JoinSkip];
    let (blocks, tail) = (up_layers(s, st, st.resnets.len()), up_tail(s, st));
    let piece = join + layer(at, st, j);
    lemma_up_planned(net, s as int, st.resnets.len(), j);
    lemma_runs_on(blocks, tail, piece);
    lemma_up_path_planned(net, net.up.len(), s as int, piece);
    lemma_program_runs(net, piece);
    let index = j as usize;
    let block = UnetOp::Resnet { at, index, from: st.resnets[j].0, to: st.resnets[j].1 };
    let attend = UnetOp::Attend { at, index, channels: st.channels, only_cross: st.only_cross };
    if j < st.attentions {
        assert(piece =~= seq![UnetOp::JoinSkip, block, attend]);
    } else {
        assert(piece =~= seq![UnetOp::JoinSkip, block]);
    }
}

/// Every stage that is planned to resample does: on the way down it halves the sides and
/// saves a skip of what is left, on the way up it doubles them.
pub proof fn law_planned_stages_resample(net: Network, s: usize)
    requires
        can_number(net),
    ensures
        s < net.down.len() && net.down[s as int].resample ==> runs_through(
            program_of(net),
            seq![
                UnetOp::Downsample { stage: s, channels: net.down[s as int].channels },
                UnetOp::SaveSkip,
            ],
        ),
        s < net.up.len() && net.up[s as int].resample ==> runs_through(
            program_of(net),
            seq![UnetOp::Upsample { stage: s, channels: net.up[s as int].channels }],
        ),
{
    if s < net.down.len() && net.down[s as int].resample {
        let st = net.down[s as int];
        let tail = down_tail(s, st);
        lemma_runs_itself(tail);
        lemma_runs_on(down_layers(s, st, st.resnets.len()), tail, tail);
        lemma_down_path_planned(net, net.down.len(), s as int, tail);
        lemma_program_runs(net, tail);
    }
    if s < net.up.len() && net.up[s as int].resample {
        let st = net.up[s as int];
        let tail = up_tail(s, st);
        lemma_runs_itself(tail);
        lemma_runs_on(up_layers(s, st, st.resnets.len()), tail, tail);
        lemma_up_path_planned(net, net.up.len(), s as int, tail);
        lemma_program_runs(net, tail);
    }
}

/// The middle is run too: a block, its transformer, and the other block.
pub proof fn law_middle_is_run(net: Network)
    ensures
        ({
            let st = net.mid;
            let at = Part::Mid;
            runs_through(
                program_of(net),
                seq![
                    UnetOp::Resnet { at, index: 0, from: st.resnets[0].0, to: st.resnets[0].1 },
                    UnetOp::Attend {
                        at,
                        index: 0,
                        channels: st.channels,
                        only_cross: st.only_cross,
                    },
                    UnetOp::Resnet { at, index: 1, from: st.resnets[1].0, to: st.resnets[1].1 },
                ],
            )
        }),
{
    lemma_runs_itself(mid_stage(net.mid));
    lemma_program_runs(net, mid_stage(net.mid));
}

/// The name of the layer's weights in the checkpoint; skips have none.
pub open spec fn path_of(op: UnetOp) -> Seq<char> {
    match op {
        UnetOp::ConvIn { .. } => "conv_in"@,
        UnetOp::ConvOut { .. } => "conv_out"@,
        UnetOp::Resnet { at, index, .. } => part_path(at) + ".resnets."@
            + crate::text::decimal_digits(index as nat),
        UnetOp::Attend { at, index, .. } => part_path(at) + ".attentions."@
            + crate::text::decimal_digits(index as nat),
        UnetOp::Downsample { stage, .. } => part_path(Part::Down(stage)) + ".downsamplers.0"@,
        UnetOp::Upsample { stage, .. } => part_path(Part::Up(stage)) + ".upsamplers.0"@,
        UnetOp::SaveSkip | UnetOp::JoinSkip => Seq::empty(),
    }
}

/// The name of a part in the checkpoint.
pub open spec fn part_path(at: Part) -> Seq<char> {
    match at {
        Part::Down(i) => "down_blocks."@ + crate::text::decimal_digits(i as nat),
        Part::Mid => "mid_block"@,
        Part::Up(i) => "up_blocks."@ + crate::text::decimal_digits(i as nat),
    }
}

impl Part {
    /// The name of the part in the checkpoint.
    pub fn path(&self) -> (text: String)
        ensures
            text@ == part_path(*self),
    {
        match *self {
            Part::Down(i) => {
                let digits: String = decimal(i as u64);
                joined("down_blocks.", digits.as_str())
            },
            Part::Mid => "mid_block".to_owned(),
            Part::Up(i) => {
                let digits: String = decimal(i as u64);
                joined("up_blocks.", digits.as_str())
            },
        }
    }
}

impl UnetOp {
    /// The name of the layer's weights in the checkpoint; empty for skips.
    pub fn path(&self) -> (text: String)
        ensures
            text@ == path_of(*self),
    {
        match *self {
            UnetOp::ConvIn { .. } => "conv_in".to_owned(),
            UnetOp::ConvOut { .. } => "conv_out".to_owned(),
            UnetOp::Resnet { at, index, .. } => {
                let mut text: String = at.path();
                text.append(".resnets.");
                let digits: String = decimal(index as u64);
                text.append(digits.as_str());
                text
            },
            UnetOp::Attend { at, index, .. } => {
                let mut text: String = at.path();
                text.append(".attentions.");
                let digits: String = decimal(index as u64);
                text.append(digits.as_str());
                text
            },
            UnetOp::Downsample { stage, .. } => {
                let mut text: String = Part::Down(stage).path();
                text.append(".downsamplers.0");
                text
            },
            UnetOp::Upsample { stage, .. } => {
                let mut text: String = Part::Up(stage).path();
                text.append(".upsamplers.0");
                text
            },
            UnetOp::SaveSkip | UnetOp::JoinSkip => String::new(),
        }
    }
}

/// Digits end where a dot follows them.
proof fn lemma_digits_end(a: Seq<char>, x: Seq<char>, b: Seq<char>, y: Seq<char>)
    requires
        crate::text::all_digits(a),
        crate::text::all_digits(b),
        x.len() > 0,
        y.len() > 0,
        x[0] == '.',
        y[0] == '.',
        a + x == b + y,
    ensures
        a == b,
        x == y,
{
    let (p, q) = (a + x, b + y);
    assert(p[a.len() as int] == x[0]);
    assert(q[b.len() as int] == y[0]);
    if a.len() < b.len() {
        assert(q[a.len() as int] == b[a.len() as int]);
        assert(crate::text::is_digit(b[a.len() as int]));
    }
    if b.len() < a.len() {
        assert(p[b.len() as int] == a[b.len() as int]);
        assert(crate::text::is_digit(a[b.len() as int]));
    }
    assert(a =~= p.take(a.len() as int));
    assert(b =~= q.take(b.len() as int));
    assert(x =~= p.skip(a.len() as int));
    assert(y =~= q.skip(b.len() as int));
}

/// What follows the same beginning in equal texts is equal.
proof fn lemma_skip_prefix(prefix: Seq<char>, a: Seq<char>, b: Seq<char>)
    requires
        prefix + a == prefix + b,
    ensures
        a == b,
{
    let (p, q) = (prefix + a, prefix + b);
    assert(p.len() == prefix.len() + a.len());
    assert(q.len() == prefix.len() + b.len());
    assert(a =~= p.skip(prefix.len() as int));
    assert(b =~= q.skip(prefix.len() as int));
}

/// What of a layer's name follows its part: the kind and the number in the part.
spec fn behind_part(op: UnetOp) -> Seq<char> {
    match op {
        UnetOp::Resnet { index, .. } => ".resnets."@ + crate::text::decimal_digits(index as nat),
        UnetOp::Attend { index, .. } => ".attentions."@ + crate::text::decimal_digits(index as nat),
        UnetOp::Downsample { .. } => ".downsamplers.0"@,
        UnetOp::Upsample { .. } => ".upsamplers.0"@,
        _ => Seq::empty(),
    }
}

/// The part that a layer belongs to, if it belongs to one.
pub open spec fn part_of(op: UnetOp) -> Option<Part> {
    match op {
        UnetOp::Resnet { at, .. } => Some(at),
        UnetOp::Attend { at, .. } => Some(at),
        UnetOp::Downsample { stage, .. } => Some(Part::Down(stage)),
        UnetOp::Upsample { stage, .. } => Some(Part::Up(stage)),
        _ => None,
    }
}

/// A layer's name is that of its part and what follows.
proof fn lemma_path_splits(op: UnetOp)
    requires
        part_of(op) is Some,
    ensures
        path_of(op) == part_path(part_of(op)->0) + behind_part(op),
        behind_part(op).len() > 2,
        behind_part(op)[0] == '.',
        behind_part(op)[1] == match op {
            UnetOp::Resnet { .. } => 'r',
            UnetOp::Attend { .. } => 'a',
            UnetOp::Downsample { .. } => 'd',
            _ => 'u',
        },
{
    reveal_strlit(".resnets.");
    reveal_strlit(".attentions.");
    reveal_strlit(".downsamplers.0");
    reveal_strlit(".upsamplers.0");
    assert(path_of(op) =~= part_path(part_of(op)->0) + behind_part(op));
}

/// Parts are told apart by their names, whatever follows.
proof fn lemma_parts_apart(a: Part, x: Seq<char>, b: Part, y: Seq<char>)
    requires
        x.len() > 0,
        y.len() > 0,
        x[0] == '.',
        y[0] == '.',
        part_path(a) + x == part_path(b) + y,
    ensures
        a == b,
        x == y,
{
    reveal_strlit("down_blocks.");
    reveal_strlit("mid_block");
    reveal_strlit("up_blocks.");
    let (p, q) = (part_path(a) + x, part_path(b) + y);
    assert(p[0] == part_path(a)[0] && q[0] == part_path(b)[0]);
    match (a, b) {
        (Part::Down(i), Part::Down(j)) => {
            let (d, e) = (
                crate::text::decimal_digits(i as nat),
                crate::text::decimal_digits(j as nat),
            );
            crate::text::law_decimal_reads_back(i as nat);
            crate::text::law_decimal_reads_back(j as nat);
            assert(p =~= "down_blocks."@ + (d + x));
            assert(q =~= "down_blocks."@ + (e + y));
            lemma_skip_prefix("down_blocks."@, d + x, e + y);
            lemma_digits_end(d, x, e, y);
        },
        (Part::Up(i), Part::Up(j)) => {
            let (d, e) = (
                crate::text::decimal_digits(i as nat),
                crate::text::decimal_digits(j as nat),
            );
            crate::text::law_decimal_reads_back(i as nat);
            crate::text::law_decimal_reads_back(j as nat);
            assert(p =~= "up_blocks."@ + (d + x));
            assert(q =~= "up_blocks."@ + (e + y));
            lemma_skip_prefix("up_blocks."@, d + x, e + y);
            lemma_digits_end(d, x, e, y);
        },
        (Part::Mid, Part::Mid) => {
            lemma_skip_prefix("mid_block"@, x, y);
        },
        _ => {
            assert("down_blocks."@[0] == 'd' && "mid_block"@[0] == 'm' && "up_blocks."@[0] == 'u');
        },
    }
}

/// Every layer has weights of its own: two layers of the same name are of the same kind,
/// in the same part, and have the same number there.
pub proof fn law_layers_have_names_of_their_own(a: UnetOp, b: UnetOp)
    requires
        !(a is SaveSkip || a is JoinSkip || b is SaveSkip || b is JoinSkip),
        path_of(a) == path_of(b),
    ensures
        part_of(a) == part_of(b),
        match (a, b) {
            (UnetOp::ConvIn { .. }, UnetOp::ConvIn { .. }) => true,
            (UnetOp::ConvOut { .. }, UnetOp::ConvOut { .. }) => true,
            (UnetOp::Resnet { index: i, .. }, UnetOp::Resnet { index: j, .. }) => i == j,
            (UnetOp::Attend { index: i, .. }, UnetOp::Attend { index: j, .. }) => i == j,
            (UnetOp::Downsample { .. }, UnetOp::Downsample { .. }) => true,
            (UnetOp::Upsample { .. }, UnetOp::Upsample { .. }) => true,
            _ => false,
        },
{
    reveal_strlit("conv_in");
    reveal_strlit("conv_out");
    reveal_strlit("down_blocks.");
    reveal_strlit("mid_block");
    reveal_strlit("up_blocks.");
    assert("conv_in"@[0] == 'c' && "conv_out"@[0] == 'c' && "conv_in"@.len() != "conv_out"@.len());
    if part_of(a) is Some {
        lemma_path_splits(a);
        assert(path_of(a)[0] == part_path(part_of(a)->0)[0]);
    }
    if part_of(b) is Some {
        lemma_path_splits(b);
        assert(path_of(b)[0] == part_path(part_of(b)->0)[0]);
    }
    if part_of(a) is Some && part_of(b) is Some {
        let (x, y) = (behind_part(a), behind_part(b));
        lemma_parts_apart(part_of(a)->0, x, part_of(b)->0, y);
        assert(x[1] == y[1]);
        match (a, b) {
            (UnetOp::Resnet { index: i, .. }, UnetOp::Resnet { index: j, .. }) => {
                let (d, e) = (
                    crate::text::decimal_digits(i as nat),
                    crate::text::decimal_digits(j as nat),
                );
                lemma_skip_prefix(".resnets."@, d, e);
                if i != j {
                    crate::text::law_decimals_are_told_apart(i as nat, j as nat);
                }
            },
            (UnetOp::Attend { index: i, .. }, UnetOp::Attend { index: j, .. }) => {
                let (d, e) = (
                    crate::text::decimal_digits(i as nat),
                    crate::text::decimal_digits(j as nat),
                );
                lemma_skip_prefix(".attentions."@, d, e);
                if i != j {
                    crate::text::law_decimals_are_told_apart(i as nat, j as nat);
                }
            },
            _ => {},
        }
    }
}

/// Layers are named as the checkpoint names them: by the direction and number of their
/// stage, or the middle, then by their kind and number there.
pub proof fn law_layers_are_named_as_in_the_checkpoint(op: UnetOp, i: usize)
    ensures
        part_path(Part::Down(i)) == "down_blocks."@ + crate::text::decimal_digits(i as nat),
        part_path(Part::Up(i)) == "up_blocks."@ + crate::text::decimal_digits(i as nat),
        part_path(Part::Mid) == "mid_block"@,
        op matches UnetOp::Resnet { at, index, .. } ==> path_of(op) == part_path(at) + ".resnets."@
            + crate::text::decimal_digits(index as nat),
        op matches UnetOp::Attend { at, index, .. } ==> path_of(op) == part_path(at)
            + ".attentions."@ + crate::text::decimal_digits(index as nat),
        op matches UnetOp::Downsample { stage, .. } ==> path_of(op) == part_path(Part::Down(stage))
            + ".downsamplers.0"@,
        op matches UnetOp::Upsample { stage, .. } ==> path_of(op) == part_path(Part::Up(stage))
            + ".upsamplers.0"@,
        op is ConvIn ==> path_of(op) == "conv_in"@,
        op is ConvOut ==> path_of(op) == "conv_out"@,
        op is SaveSkip || op is JoinSkip ==> path_of(op).len() == 0,
{
}

} // verus!
