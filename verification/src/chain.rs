//! A cascade of filter sections: every sample passes through every section,
//! in the order in which the sections were added.
use crate::biquad::{bandpass, biquad_next, biquad_output, highpass, lowpass, notch, Biquad};
use crate::bits::{bit_is_set, is_bit_set};
use vstd::prelude::*;

verus! {

/// Quality of the rumble highpass and of the anti-alias lowpass, in
/// millionths.
pub const BUTTERWORTH_Q: u32 = 707_000;

/// Quality of the mains-hum notches, in millionths.
pub const NOTCH_Q: u32 = 30_000_000;

/// Quality of a string's bandpass, in millionths.
pub const STRING_Q: u32 = 1_000_000;

/// The output of the last of `stages` for the input `x` to the first.
pub open spec fn chain_output(stages: Seq<Biquad>, x: int) -> int
    decreases stages.len(),
{
    if stages.len() == 0 {
        x
    } else {
        biquad_output(stages.last(), chain_output(stages.drop_last(), x))
    }
}

/// The sections after the sample `x`: each has taken the output of the
/// sections before it.
pub open spec fn chain_next(stages: Seq<Biquad>, x: i32) -> Seq<Biquad> {
    Seq::new(
        stages.len(),
        |i: int| biquad_next(stages[i], chain_output(stages.take(i), x as int) as i32),
    )
}

/// The sections after all of `samples`, in order.
pub open spec fn chain_after(stages: Seq<Biquad>, samples: Seq<i32>) -> Seq<Biquad>
    decreases samples.len(),
{
    if samples.len() == 0 {
        stages
    } else {
        chain_next(chain_after(stages, samples.drop_last()), samples.last())
    }
}

/// What the cascade, starting from `stages`, makes of `samples`.
pub open spec fn filtered(stages: Seq<Biquad>, samples: Seq<i32>) -> Seq<i32> {
    Seq::new(
        samples.len(),
        |i: int| chain_output(chain_after(stages, samples.take(i)), samples[i] as int) as i32,
    )
}

/// The section `f` when `on`, else no section.
pub open spec fn stage_if(on: bool, f: Biquad) -> Seq<Biquad> {
    if on {
        seq![f]
    } else {
        Seq::<Biquad>::empty()
    }
}

/// The sections that the bits of `mask` select, in this order: bit 0 a
/// highpass at 70 Hz; bits 1 to 4 notches at 50, 60, 100 and 120 Hz; bit 5
/// a lowpass at 5 kHz.
pub open spec fn masked_stages(fs: int, mask: usize) -> Seq<Biquad> {
    stage_if(bit_is_set(mask, 0), highpass(fs, 70_000, BUTTERWORTH_Q as int)) + stage_if(
        bit_is_set(mask, 1),
        notch(fs, 50_000, NOTCH_Q as int),
    ) + stage_if(bit_is_set(mask, 2), notch(fs, 60_000, NOTCH_Q as int)) + stage_if(
        bit_is_set(mask, 3),
        notch(fs, 100_000, NOTCH_Q as int),
    ) + stage_if(bit_is_set(mask, 4), notch(fs, 120_000, NOTCH_Q as int)) + stage_if(
        bit_is_set(mask, 5),
        lowpass(fs, 5_000_000, BUTTERWORTH_Q as int),
    )
}

/// A cascade without sections hands every sample on unchanged.
pub proof fn lemma_empty_chain(samples: Seq<i32>)
    ensures
        filtered(Seq::<Biquad>::empty(), samples) == samples,
{
    assert forall|i: int| 0 <= i < samples.len() implies filtered(
        Seq::<Biquad>::empty(),
        samples,
    )[i] == samples[i] by {
        lemma_empty_stays(samples.take(i));
    }
    assert(filtered(Seq::<Biquad>::empty(), samples) =~= samples);
}

proof fn lemma_empty_stays(samples: Seq<i32>)
    ensures
        chain_after(Seq::<Biquad>::empty(), samples) == Seq::<Biquad>::empty(),
    decreases samples.len(),
{
    if samples.len() > 0 {
        lemma_empty_stays(samples.drop_last());
        assert(chain_next(Seq::<Biquad>::empty(), samples.last()) =~= Seq::<Biquad>::empty());
    }
}

/// A cascade of filter sections.
pub struct FilterChain {
    stages: Vec<Biquad>,
}

impl View for FilterChain {
    type V = Seq<Biquad>;

    closed spec fn view(&self) -> Seq<Biquad> {
        self.stages@
    }
}

impl FilterChain {
    /// The cascade that `mask` selects for the sample rate `fs` hertz.
    pub fn new(fs: u32, mask: usize) -> (chain: Self)
        requires
            fs > 0,
        ensures
            chain@ == masked_stages(fs as int, mask),
    {
        let mut stages: Vec<Biquad> = Vec::new();
        if is_bit_set(mask, 0) {
            stages.push(Biquad::new_highpass(fs, 70_000, BUTTERWORTH_Q));
        }
        if is_bit_set(mask, 1) {
            stages.push(Biquad::new_notch(fs, 50_000, NOTCH_Q));
        }
        if is_bit_set(mask, 2) {
            stages.push(Biquad::new_notch(fs, 60_000, NOTCH_Q));
        }
        if is_bit_set(mask, 3) {
            stages.push(Biquad::new_notch(fs, 100_000, NOTCH_Q));
        }
        if is_bit_set(mask, 4) {
            stages.push(Biquad::new_notch(fs, 120_000, NOTCH_Q));
        }
        if is_bit_set(mask, 5) {
            stages.push(Biquad::new_lowpass(fs, 5_000_000, BUTTERWORTH_Q));
        }
        assert(stages@ =~= masked_stages(fs as int, mask));
        FilterChain { stages }
    }

    /// Appends a bandpass around `fc` millihertz.
    pub fn push_bandpass(&mut self, fs: u32, fc: u32)
        requires
            fs > 0,
        ensures
            final(self)@ == old(self)@.push(bandpass(fs as int, fc as int, STRING_Q as int)),
    {
        self.stages.push(Biquad::new_bandpass(fs, fc, STRING_Q));
    }

    /// The number of sections.
    pub fn len(&self) -> (n: usize)
        ensures
            n == self@.len(),
    {
        self.stages.len()
    }

    /// Takes one sample through every section in order.
    pub fn process(&mut self, x: i32) -> (y: i32)
        ensures
            y == chain_output(old(self)@, x as int),
            final(self)@ == chain_next(old(self)@, x),
    {
        let ghost before = self.stages@;
        let n: usize = self.stages.len();
        let mut cur: i32 = x;
        let mut i: usize = 0;
        while i < n
            invariant
                i <= n,
                n == before.len(),
                self.stages@.len() == n,
                cur == chain_output(before.take(i as int), x as int),
                forall|j: int|
                    0 <= j < i ==> self.stages@[j] == biquad_next(
                        before[j],
                        chain_output(before.take(j), x as int) as i32,
                    ),
                forall|j: int| i <= j < n ==> self.stages@[j] == before[j],
            decreases n - i,
        {
            let mut f: Biquad = self.stages[i];
            let y: i32 = f.process(cur);
            self.stages.set(i, f);
            proof {
                let next = before.take(i as int + 1);
                assert(next.drop_last() =~= before.take(i as int));
                assert(next.last() == before[i as int]);
            }
            cur = y;
            i = i + 1;
        }
        proof {
            assert(before.take(n as int) =~= before);
            assert(self.stages@ =~= chain_next(before, x));
        }
        cur
    }

    /// Takes every sample of `samples` through the cascade, in place.
    pub fn process_buffer(&mut self, samples: &mut Vec<i32>)
        ensures
            final(samples)@ == filtered(old(self)@, old(samples)@),
            final(self)@ == chain_after(old(self)@, old(samples)@),
    {
        let ghost stages = self.stages@;
        let ghost input = samples@;
        let n: usize = samples.len();
        let mut i: usize = 0;
        while i < n
            invariant
                i <= n,
                n == input.len(),
                samples@.len() == n,
                self@ == chain_after(stages, input.take(i as int)),
                forall|j: int| 0 <= j < i ==> samples@[j] == filtered(stages, input)[j],
                forall|j: int| i <= j < n ==> samples@[j] == input[j],
            decreases n - i,
        {
            let y: i32 = self.process(samples[i]);
            samples.set(i, y);
            proof {
                let next = input.take(i as int + 1);
                assert(next.drop_last() =~= input.take(i as int));
                assert(next.last() == input[i as int]);
            }
            i = i + 1;
        }
        proof {
            assert(input.take(n as int) =~= input);
            assert(samples@ =~= filtered(stages, input));
        }
    }
}

} // verus!
