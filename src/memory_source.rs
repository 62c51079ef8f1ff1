use vstd::prelude::*;

verus! {

/// Decoded audio samples held in memory, played back from the start.
pub struct MemorySource {
    data: Vec<i16>,
    channels: u16,
    sample_rate: u32,
    current_playback_location: usize,
}

impl MemorySource {
    /// The samples still to be played.
    pub closed spec fn remaining(&self) -> Seq<i16> {
        self.data@.subrange(self.current_playback_location as int, self.data@.len() as int)
    }

    /// All samples, played or not.
    pub closed spec fn samples(&self) -> Seq<i16> {
        self.data@
    }

    pub closed spec fn spec_channels(&self) -> u16 {
        self.channels
    }

    pub closed spec fn spec_sample_rate(&self) -> u32 {
        self.sample_rate
    }

    pub closed spec fn wf(&self) -> bool {
        self.current_playback_location <= self.data@.len()
    }

    pub fn new(data: Vec<i16>, channels: u16, sample_rate: u32) -> (r: MemorySource)
        ensures
            r.wf(),
            r.samples() == data@,
            r.remaining() == data@,
            r.spec_channels() == channels,
            r.spec_sample_rate() == sample_rate,
    {
        let r = MemorySource { data, channels, sample_rate, current_playback_location: 0 };
        assert(r.remaining() =~= r.data@);
        r
    }

    /// The next sample, or `None` once every sample has been played.
    pub fn next(&mut self) -> (r: Option<i16>)
        requires
            old(self).wf(),
        ensures
            final(self).wf(),
            final(self).samples() == old(self).samples(),
            final(self).spec_channels() == old(self).spec_channels(),
            final(self).spec_sample_rate() == old(self).spec_sample_rate(),
            old(self).remaining().len() == 0 ==> r is None && final(self).remaining() == old(
                self,
            ).remaining(),
            old(self).remaining().len() > 0 ==> r == Some(old(self).remaining()[0])
                && final(self).remaining() == old(self).remaining().drop_first(),
    {
        if self.current_playback_location < self.data.len() {
            let sample = self.data[self.current_playback_location];
            self.current_playback_location += 1;
            Some(sample)
        } else {
            None
        }
    }

    /// Bounds on the number of samples: the total held, for both.
    pub fn size_hint(&self) -> (r: (usize, Option<usize>))
        ensures
            r == (self.samples().len() as usize, Some(self.samples().len() as usize)),
    {
        (self.data.len(), Some(self.data.len()))
    }

    /// The length of the current frame, which for samples in memory lasts until
    /// the end: always `None`.
    pub fn current_frame_len(&self) -> (r: Option<usize>)
        ensures
            r is None,
    {
        None
    }

    pub fn channels(&self) -> (r: u16)
        ensures
            r == self.spec_channels(),
    {
        self.channels
    }

    pub fn sample_rate(&self) -> (r: u32)
        ensures
            r == self.spec_sample_rate(),
    {
        self.sample_rate
    }
}

} // verus!
