use vstd::prelude::*;

verus! {

/// Distance a point moves along one axis for one asserted intent, per tick.
pub const SQUARE_SPEED: u16 = 3;

/// Number of distinct coordinate values: coordinates wrap around this bound.
pub open spec fn coord_range() -> int {
    0x1_0000
}

/// A set of directional intents: `w` forward (up), `s` backward (down),
/// `a` left, `d` right.
#[derive(Clone, Copy, Debug, PartialEq, Eq, Structural)]
pub struct KeyCommand {
    pub w: bool,
    pub s: bool,
    pub a: bool,
    pub d: bool,
}

impl KeyCommand {
    pub fn new(w: bool, s: bool, a: bool, d: bool) -> (r: KeyCommand)
        ensures
            r == (KeyCommand { w, s, a, d }),
    {
        KeyCommand { w, s, a, d }
    }

    /// The intent-wise OR of two commands.
    pub open spec fn spec_merge(self, other: KeyCommand) -> KeyCommand {
        KeyCommand {
            w: self.w || other.w,
            s: self.s || other.s,
            a: self.a || other.a,
            d: self.d || other.d,
        }
    }

    /// Asserts every intent that is held in `w`, `s`, `a`, `d`; never clears one.
    pub fn merge(&mut self, w: bool, s: bool, a: bool, d: bool)
        ensures
            *final(self) == old(self).spec_merge(KeyCommand { w, s, a, d }),
    {
        if w {
            self.w = true;
        }
        if s {
            self.s = true;
        }
        if a {
            self.a = true;
        }
        if d {
            self.d = true;
        }
    }
}

/// The pending command of one accumulation window, if any sample was taken in it.
pub struct CommandAccumulator {
    pending: Option<KeyCommand>,
}

impl View for CommandAccumulator {
    type V = Option<KeyCommand>;

    closed spec fn view(&self) -> Option<KeyCommand> {
        self.pending
    }
}

/// What the pending command becomes after one more sample of `w`, `s`, `a`, `d`.
pub open spec fn after_sample(p: Option<KeyCommand>, w: bool, s: bool, a: bool, d: bool) -> Option<
    KeyCommand,
> {
    match p {
        Some(c) => Some(c.spec_merge(KeyCommand { w, s, a, d })),
        None => Some(KeyCommand { w, s, a, d }),
    }
}

impl CommandAccumulator {
    pub fn new() -> (r: CommandAccumulator)
        ensures
            r@ is None,
    {
        CommandAccumulator { pending: None }
    }

    /// Merges one frame's held keys into the pending command, opening a new
    /// window with exactly these keys when none is pending.
    pub fn sample(&mut self, w: bool, s: bool, a: bool, d: bool)
        ensures
            final(self)@ == after_sample(old(self)@, w, s, a, d),
    {
        match &mut self.pending {
            Some(c) => c.merge(w, s, a, d),
            None => {
                self.pending = Some(KeyCommand::new(w, s, a, d));
            },
        }
    }

    /// Removes and returns the pending command, closing the window.
    pub fn take(&mut self) -> (r: Option<KeyCommand>)
        ensures
            r == old(self)@,
            final(self)@ is None,
    {
        self.pending.take()
    }

    pub fn peek(&self) -> (r: Option<KeyCommand>)
        ensures
            r == self@,
    {
        self.pending
    }

    pub fn is_pending(&self) -> (r: bool)
        ensures
            r == self@ is Some,
    {
        self.pending.is_some()
    }
}

/// The pending command after sampling each of `samples` in turn, starting from `p`.
pub open spec fn sample_all(p: Option<KeyCommand>, samples: Seq<KeyCommand>) -> Option<KeyCommand>
    decreases samples.len(),
{
    if samples.len() == 0 {
        p
    } else {
        let c = samples.last();
        after_sample(sample_all(p, samples.drop_last()), c.w, c.s, c.a, c.d)
    }
}

/// Within one accumulation window (begun with no pending command), each intent
/// of the pending command is the logical OR of that intent over all samples.
pub proof fn lemma_window_is_or(samples: Seq<KeyCommand>)
    requires
        samples.len() > 0,
    ensures
        sample_all(None, samples) is Some,
        sample_all(None, samples)->Some_0.w == exists|i: int| 0 <= i < samples.len() && #[trigger] samples[i].w,
        sample_all(None, samples)->Some_0.s == exists|i: int| 0 <= i < samples.len() && #[trigger] samples[i].s,
        sample_all(None, samples)->Some_0.a == exists|i: int| 0 <= i < samples.len() && #[trigger] samples[i].a,
        sample_all(None, samples)->Some_0.d == exists|i: int| 0 <= i < samples.len() && #[trigger] samples[i].d,
    decreases samples.len(),
{
    let pre = samples.drop_last();
    let n = samples.len() - 1;
    if pre.len() > 0 {
        lemma_window_is_or(pre);
    }
    assert forall|i: int| 0 <= i < n implies #[trigger] samples[i] == pre[i] by {}
    if pre.len() > 0 {
        let c = sample_all(None, pre)->Some_0;
        if c.w {
            let i = choose|i: int| 0 <= i < pre.len() && #[trigger] pre[i].w;
            assert(samples[i].w);
        }
        if c.s {
            let i = choose|i: int| 0 <= i < pre.len() && #[trigger] pre[i].s;
            assert(samples[i].s);
        }
        if c.a {
            let i = choose|i: int| 0 <= i < pre.len() && #[trigger] pre[i].a;
            assert(samples[i].a);
        }
        if c.d {
            let i = choose|i: int| 0 <= i < pre.len() && #[trigger] pre[i].d;
            assert(samples[i].d);
        }
    }
}

/// Sampling the same keys twice in a row leaves what sampling them once left,
/// and no sample clears an intent that is already asserted.
pub proof fn lemma_sample_idempotent_monotone(p: Option<KeyCommand>, w: bool, s: bool, a: bool, d: bool)
    ensures
        after_sample(after_sample(p, w, s, a, d), w, s, a, d) == after_sample(p, w, s, a, d),
        p matches Some(c) ==> {
            let c2 = after_sample(p, w, s, a, d)->Some_0;
            (c.w ==> c2.w) && (c.s ==> c2.s) && (c.a ==> c2.a) && (c.d ==> c2.d)
        },
{
}

/// A coordinate after one tick: moved back by one step if `dec`, forward by
/// one step if `inc`, wrapping at the coordinate range. Both or neither leave it.
pub open spec fn shifted(c: u16, dec: bool, inc: bool) -> u16 {
    ((c as int - (if dec {
        SQUARE_SPEED as int
    } else {
        0
    }) + (if inc {
        SQUARE_SPEED as int
    } else {
        0
    })) % coord_range()) as u16
}

pub fn shift(c: u16, dec: bool, inc: bool) -> (r: u16)
    ensures
        r == shifted(c, dec, inc),
{
    let mut v: u32 = c as u32 + 0x1_0000;
    if inc {
        v = v + SQUARE_SPEED as u32;
    }
    if dec {
        v = v - SQUARE_SPEED as u32;
    }
    assert(v as int % coord_range() == (c as int - (if dec {
        SQUARE_SPEED as int
    } else {
        0
    }) + (if inc {
        SQUARE_SPEED as int
    } else {
        0
    })) % coord_range());
    (v % 0x1_0000) as u16
}

} // verus!
