use vstd::prelude::*;

verus! {

/// Sample `i` of `buf`, or `silence` past its end.
pub open spec fn sample_or<T>(buf: Seq<T>, i: int, silence: T) -> T {
    if i < buf.len() {
        buf[i]
    } else {
        silence
    }
}

/// `mixed` is a possible result of mixing `mic` and `sys` sample by sample:
/// it is as long as the longer of them, and sample `i` is an answer of
/// `combine` on the two samples at `i`, the shorter buffer padded with
/// `silence`.
pub open spec fn mixed_from<T, F: Fn(T, T) -> T>(
    mic: Seq<T>,
    sys: Seq<T>,
    silence: T,
    combine: F,
    mixed: Seq<T>,
) -> bool {
    &&& mixed.len() == if mic.len() >= sys.len() { mic.len() } else { sys.len() }
    &&& forall|i: int|
        0 <= i < mixed.len() ==> call_ensures(
            combine,
            (sample_or(mic, i, silence), sample_or(sys, i, silence)),
            #[trigger] mixed[i],
        )
}

/// Mixing does not depend on which buffer is which when `combine` does not
/// depend on the order of its two samples: a mix of `mic` and `sys` is also
/// a mix of `sys` and `mic`.
pub proof fn lemma_mix_symmetric<T, F: Fn(T, T) -> T>(
    mic: Seq<T>,
    sys: Seq<T>,
    silence: T,
    combine: F,
    mixed: Seq<T>,
)
    requires
        forall|a: T, b: T, r: T| #[trigger] call_ensures(combine, (a, b), r) ==> call_ensures(combine, (b, a), r),
        mixed_from(mic, sys, silence, combine, mixed),
    ensures
        mixed_from(sys, mic, silence, combine, mixed),
{
    assert forall|i: int| 0 <= i < mixed.len() implies call_ensures(
        combine,
        (sample_or(sys, i, silence), sample_or(mic, i, silence)),
        #[trigger] mixed[i],
    ) by {
        assert(call_ensures(combine, (sample_or(mic, i, silence), sample_or(sys, i, silence)), mixed[i]));
    }
}

/// Mixes the microphone and system buffers into one and empties both.
///
/// When one buffer is empty the other is handed out as it is; otherwise
/// the samples are combined pairwise by `combine`, the shorter buffer padded
/// with `silence`.
pub fn mix_buffers<T: Copy, F: Fn(T, T) -> T>(
    mic: &mut Vec<T>,
    sys: &mut Vec<T>,
    silence: T,
    combine: F,
) -> (mixed: Vec<T>)
    requires
        forall|a: T, b: T| call_requires(combine, (a, b)),
    ensures
        final(mic)@.len() == 0,
        final(sys)@.len() == 0,
        old(sys)@.len() == 0 ==> mixed@ == old(mic)@,
        old(sys)@.len() != 0 && old(mic)@.len() == 0 ==> mixed@ == old(sys)@,
        old(sys)@.len() != 0 && old(mic)@.len() != 0 ==> mixed_from(
            old(mic)@,
            old(sys)@,
            silence,
            combine,
            mixed@,
        ),
{
    if sys.len() == 0 {
        let mut taken: Vec<T> = Vec::new();
        std::mem::swap(&mut taken, mic);
        return taken;
    }
    if mic.len() == 0 {
        let mut taken: Vec<T> = Vec::new();
        std::mem::swap(&mut taken, sys);
        return taken;
    }
    let len = if mic.len() >= sys.len() {
        mic.len()
    } else {
        sys.len()
    };
    let mut mixed: Vec<T> = Vec::new();
    let mut i: usize = 0;
    while i < len
        invariant
            len == if mic@.len() >= sys@.len() { mic@.len() } else { sys@.len() },
            i <= len,
            mic@ == old(mic)@,
            sys@ == old(sys)@,
            mixed@.len() == i,
            forall|a: T, b: T| call_requires(combine, (a, b)),
            forall|j: int|
                0 <= j < i ==> call_ensures(
                    combine,
                    (sample_or(mic@, j, silence), sample_or(sys@, j, silence)),
                    #[trigger] mixed@[j],
                ),
        decreases len - i,
    {
        let m = if i < mic.len() {
            mic[i]
        } else {
            silence
        };
        let s = if i < sys.len() {
            sys[i]
        } else {
            silence
        };
        let v = combine(m, s);
        mixed.push(v);
        i = i + 1;
    }
    mic.clear();
    sys.clear();
    mixed
}

/// The buffers of the mixer between the microphone and system audio
/// streams and the speech detector.
pub struct Mixer<T> {
    mic: Vec<T>,
    sys: Vec<T>,
}

impl<T: Copy> Mixer<T> {
    /// Samples waiting from the microphone.
    pub closed spec fn mic_buffer(&self) -> Seq<T> {
        self.mic@
    }

    /// Samples waiting from the system audio.
    pub closed spec fn sys_buffer(&self) -> Seq<T> {
        self.sys@
    }

    /// A mixer with nothing buffered.
    pub fn new() -> (r: Self)
        ensures
            r.mic_buffer().len() == 0,
            r.sys_buffer().len() == 0,
    {
        Mixer { mic: Vec::new(), sys: Vec::new() }
    }

    /// Adds samples that came from the microphone.
    pub fn push_mic(&mut self, samples: Vec<T>)
        ensures
            final(self).mic_buffer() == old(self).mic_buffer() + samples@,
            final(self).sys_buffer() == old(self).sys_buffer(),
    {
        let mut samples = samples;
        self.mic.append(&mut samples);
    }

    /// Adds samples that came from the system audio.
    pub fn push_sys(&mut self, samples: Vec<T>)
        ensures
            final(self).sys_buffer() == old(self).sys_buffer() + samples@,
            final(self).mic_buffer() == old(self).mic_buffer(),
    {
        let mut samples = samples;
        self.sys.append(&mut samples);
    }

    /// Whether nothing is buffered.
    pub fn is_drained(&self) -> (r: bool)
        ensures
            r == (self.mic_buffer().len() == 0 && self.sys_buffer().len() == 0),
    {
        self.mic.len() == 0 && self.sys.len() == 0
    }

    /// Mixes what is buffered, if anything, into samples to send on; the
    /// buffers are empty afterwards. Gives `None` when nothing was buffered.
    pub fn mix<F: Fn(T, T) -> T>(&mut self, silence: T, combine: F) -> (r: Option<Vec<T>>)
        requires
            forall|a: T, b: T| call_requires(combine, (a, b)),
        ensures
            final(self).mic_buffer().len() == 0,
            final(self).sys_buffer().len() == 0,
            old(self).mic_buffer().len() == 0 && old(self).sys_buffer().len() == 0 ==> r is None,
            old(self).sys_buffer().len() == 0 && old(self).mic_buffer().len() != 0 ==> (r matches Some(
                v,
            ) && v@ == old(self).mic_buffer()),
            old(self).sys_buffer().len() != 0 && old(self).mic_buffer().len() == 0 ==> (r matches Some(
                v,
            ) && v@ == old(self).sys_buffer()),
            old(self).sys_buffer().len() != 0 && old(self).mic_buffer().len() != 0 ==> (r matches Some(
                v,
            ) && mixed_from(old(self).mic_buffer(), old(self).sys_buffer(), silence, combine, v@)),
    {
        if self.mic.len() == 0 && self.sys.len() == 0 {
            return None;
        }
        let mut mic: Vec<T> = Vec::new();
        let mut sys: Vec<T> = Vec::new();
        std::mem::swap(&mut mic, &mut self.mic);
        std::mem::swap(&mut sys, &mut self.sys);
        let mixed = mix_buffers(&mut mic, &mut sys, silence, combine);
        if mixed.len() == 0 {
            return None;
        }
        Some(mixed)
    }
}

} // verus!
