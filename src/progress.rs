use vstd::prelude::*;

verus! {

/// What the render loop does at the end of a tick.
#[derive(Clone, Copy, Debug, PartialEq, Eq, Structural)]
pub struct TickOutcome {
    /// Publish the accumulator, divided by `divisor`, as the new frame.
    pub publish: bool,
    /// Number of samples the published frame averages.
    pub divisor: u32,
    /// Run the denoiser on the published frame.
    pub denoise: bool,
}

/// Bookkeeping of progressive accumulation: how many samples the
/// accumulator holds and, as a ghost record, under which configuration
/// each of them was drawn. A configuration is named by its epoch: the
/// number of flushes before it was uploaded.
pub struct Accumulation {
    samples: u32,
    epoch: Ghost<nat>,
    drawn: Ghost<Seq<nat>>,
}

impl Accumulation {
    /// Samples held by the accumulator.
    pub closed spec fn sample_count(&self) -> nat {
        self.samples as nat
    }

    /// Epoch of the configuration the kernel currently draws under.
    pub closed spec fn epoch(&self) -> nat {
        self.epoch@
    }

    /// Epoch under which each accumulated sample was drawn.
    pub closed spec fn drawn(&self) -> Seq<nat> {
        self.drawn@
    }

    /// The accumulator holds exactly its counted samples, all drawn under
    /// the configuration in use.
    pub closed spec fn wf(&self) -> bool {
        &&& self.drawn@.len() == self.samples
        &&& forall|i: int| 0 <= i < self.drawn@.len() ==> #[trigger] self.drawn@[i] == self.epoch@
    }

    /// Starts a render whose accumulator already holds `restored` samples
    /// drawn under the current configuration (a resumed render), or none.
    pub fn new(restored: u32) -> (r: Self)
        ensures
            r.wf(),
            r.sample_count() == restored,
            r.epoch() == 0,
    {
        let ghost drawn = Seq::new(restored as nat, |i: int| 0nat);
        Accumulation { samples: restored, epoch: Ghost(0nat), drawn: Ghost(drawn) }
    }

    /// Samples held by the accumulator.
    pub fn samples(&self) -> (r: u32)
        ensures
            r == self.sample_count(),
    {
        self.samples
    }

    /// Records that `n` more samples, drawn under the configuration in use,
    /// were added to the accumulator.
    pub fn add_samples(&mut self, n: u32)
        requires
            old(self).wf(),
            old(self).sample_count() + n <= u32::MAX,
        ensures
            final(self).wf(),
            final(self).sample_count() == old(self).sample_count() + n,
            final(self).epoch() == old(self).epoch(),
            final(self).drawn() == old(self).drawn() + Seq::new(n as nat, |i: int| old(self).epoch()),
    {
        self.samples = self.samples + n;
        proof {
            let e = self.epoch@;
            self.drawn@ = self.drawn@ + Seq::new(n as nat, |i: int| e);
        }
    }

    /// Starts a tick. On a flush (the configuration or the scene changed)
    /// the accumulator is cleared and the new configuration is uploaded
    /// before any sample of the tick is drawn, so the samples that follow
    /// are all drawn under it. The result tells the loop to clear its
    /// buffers, re-upload the configuration and the seeds.
    pub fn begin_tick(&mut self, flush: bool) -> (reset: bool)
        requires
            old(self).wf(),
        ensures
            final(self).wf(),
            reset == flush,
            flush ==> final(self).sample_count() == 0 && final(self).drawn() == Seq::<nat>::empty()
                && final(self).epoch() == old(self).epoch() + 1,
            !flush ==> *final(self) == *old(self),
    {
        if flush {
            self.samples = 0;
            proof {
                self.epoch@ = self.epoch@ + 1;
                self.drawn@ = Seq::empty();
            }
        }
        flush
    }

    /// Ends a tick: publishes the accumulator averaged over its samples, if
    /// it holds any, denoised when that is enabled and the tick did not
    /// flush. The published frame is made of the samples `drawn()` records.
    pub fn finish_tick(&self, flushed: bool, denoise_enabled: bool) -> (r: TickOutcome)
        requires
            self.wf(),
        ensures
            r == (TickOutcome {
                publish: self.sample_count() > 0,
                divisor: self.sample_count() as u32,
                denoise: denoise_enabled && !flushed && self.sample_count() > 0,
            }),
    {
        TickOutcome {
            publish: self.samples > 0,
            divisor: self.samples,
            denoise: denoise_enabled && !flushed && self.samples > 0,
        }
    }
}

/// Whether the tick must end in a flush: the user is moving the camera or
/// has edited the configuration or the scene.
pub fn flush_requested(interacting: bool, dirty: bool) -> (r: bool)
    ensures
        r == (interacting || dirty),
{
    interacting || dirty
}

/// Whether another sample of the tick's batch is dispatched, `issued`
/// having been dispatched already: a batch has `sync_rate` samples, but a
/// tick that flushed stops after its first, to show the change at once.
pub fn dispatch_more(issued: u32, sync_rate: u32, flush: bool) -> (r: bool)
    ensures
        r == (issued < sync_rate && !(flush && issued >= 1)),
{
    issued < sync_rate && !(flush && issued >= 1)
}

/// Publishing never averages across configurations. `before` is the state
/// when a tick sees a change; `flushed` follows `begin_tick(true)`, and
/// `refilled` follows the samples added after it up to the first tick end
/// that publishes (`added` of them, at least one). That first frame
/// averages exactly those samples, all drawn under the configuration
/// uploaded by the flush, none under any configuration of the samples held
/// before.
pub proof fn lemma_flush_isolates_frames(
    before: Accumulation,
    flushed: Accumulation,
    refilled: Accumulation,
    added: u32,
)
    requires
        before.wf(),
        flushed.wf(),
        refilled.wf(),
        added >= 1,
        flushed.sample_count() == 0,
        flushed.drawn() == Seq::<nat>::empty(),
        flushed.epoch() == before.epoch() + 1,
        refilled.epoch() == flushed.epoch(),
        refilled.drawn() == flushed.drawn() + Seq::new(added as nat, |i: int| flushed.epoch()),
    ensures
        refilled.sample_count() == added,
        forall|i: int| 0 <= i < refilled.drawn().len() ==> #[trigger] refilled.drawn()[i] == before.epoch() + 1,
        forall|i: int, k: int|
            0 <= i < before.drawn().len() && 0 <= k < refilled.drawn().len() ==> #[trigger] before.drawn()[i]
                != #[trigger] refilled.drawn()[k],
{
    assert forall|i: int, k: int|
        0 <= i < before.drawn().len() && 0 <= k < refilled.drawn().len() implies #[trigger] before.drawn()[i]
        != #[trigger] refilled.drawn()[k] by {
        assert(before.drawn()[i] == before.epoch());
    }
}

} // verus!
