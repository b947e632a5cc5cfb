use vstd::prelude::*;

use crate::voice::encoding;

verus! {

/// The samples in a frame: 20 ms at 48 kHz.
pub const FRAME_SAMPLES: usize = 960;

/// The channels of sound that is played back.
pub const OUT_CHANNELS: usize = 2;

/// The signed number in two bytes, the low one first.
pub open spec fn sample_value(low: u8, high: u8) -> int {
    let n = low as int + 256 * high as int;
    if n < 32768 {
        n
    } else {
        n - 65536
    }
}

/// The samples in a run of bytes; an odd byte at the end does not count.
pub open spec fn samples_in(bytes: Seq<u8>) -> Seq<i16> {
    Seq::new(
        (bytes.len() / 2) as nat,
        |i: int| sample_value(bytes[2 * i], bytes[2 * i + 1]) as i16,
    )
}

fn sample(low: u8, high: u8) -> (r: i16)
    ensures
        r as int == sample_value(low, high),
{
    let n: i32 = low as i32 + 256 * (high as i32);
    if n < 32768 {
        n as i16
    } else {
        (n - 65536) as i16
    }
}

/// The samples of a frame from the microphone; anything but one whole frame is
/// dropped.
pub fn frame_samples(bytes: &[u8]) -> (r: Option<Vec<i16>>)
    ensures
        match r {
            Some(samples) => samples_in(bytes@).len() == FRAME_SAMPLES && samples@ == samples_in(
                bytes@,
            ),
            None => samples_in(bytes@).len() != FRAME_SAMPLES,
        },
{
    let count: usize = bytes.len() / 2;
    if count != FRAME_SAMPLES {
        return None;
    }
    let mut samples: Vec<i16> = Vec::new();
    let mut i: usize = 0;
    while i < count
        invariant
            i <= count,
            count == bytes@.len() / 2,
            count == FRAME_SAMPLES,
            samples@ =~= samples_in(bytes@).take(i as int),
        decreases count - i,
    {
        let s: i16 = sample(bytes[2 * i], bytes[2 * i + 1]);
        samples.push(s);
        i += 1;
    }
    assert(samples_in(bytes@).take(count as int) =~= samples_in(bytes@));
    Some(samples)
}

/// The two bytes of a sample, the low one first.
pub open spec fn sample_bytes(sample: i16) -> (u8, u8) {
    let n = if sample < 0 {
        sample + 65536
    } else {
        sample as int
    };
    ((n % 256) as u8, (n / 256) as u8)
}

/// The bytes of several samples.
pub open spec fn pcm_bytes(samples: Seq<i16>) -> Seq<u8>
    decreases samples.len(),
{
    if samples.len() == 0 {
        Seq::empty()
    } else {
        let (low, high) = sample_bytes(samples.last());
        pcm_bytes(samples.drop_last()).push(low).push(high)
    }
}

fn write_pcm(samples: &Vec<i16>) -> (r: Vec<u8>)
    ensures
        r@ == pcm_bytes(samples@),
        r@.len() == 2 * samples@.len(),
{
    let mut r: Vec<u8> = Vec::new();
    let mut i: usize = 0;
    while i < samples.len()
        invariant
            i <= samples.len(),
            r@ == pcm_bytes(samples@.take(i as int)),
            r@.len() == 2 * i,
        decreases samples.len() - i,
    {
        assert(samples@.take(i + 1).drop_last() =~= samples@.take(i as int));
        let s: i32 = samples[i] as i32;
        let n: i32 = if s < 0 {
            s + 65536
        } else {
            s
        };
        r.push((n % 256) as u8);
        r.push((n / 256) as u8);
        i += 1;
    }
    assert(samples@.take(samples@.len() as int) =~= samples@);
    r
}

/// Sound to play back as it is handed on.
pub fn pcm_text(samples: &Vec<i16>) -> (r: String)
    requires
        samples@.len() <= usize::MAX / 8,
    ensures
        r@ == encoding::base64_text(pcm_bytes(samples@)),
{
    let bytes = write_pcm(samples);
    encoding::encode_base64(bytes.as_slice())
}

proof fn lemma_pcm_bytes(samples: Seq<i16>, i: int)
    requires
        0 <= i < samples.len(),
    ensures
        pcm_bytes(samples).len() == 2 * samples.len(),
        pcm_bytes(samples)[2 * i] == sample_bytes(samples[i]).0,
        pcm_bytes(samples)[2 * i + 1] == sample_bytes(samples[i]).1,
    decreases samples.len(),
{
    reveal_with_fuel(pcm_bytes, 2);
    let before = samples.drop_last();
    if before.len() > 0 {
        lemma_pcm_bytes(before, if i < before.len() {
            i
        } else {
            0
        });
    }
}

/// Samples read back from their bytes as they were.
pub proof fn law_samples_read_back(samples: Seq<i16>)
    ensures
        samples_in(pcm_bytes(samples)) == samples,
{
    if samples.len() > 0 {
        lemma_pcm_bytes(samples, 0);
    }
    let bytes = pcm_bytes(samples);
    assert(samples_in(bytes).len() == samples.len());
    assert forall|i: int| 0 <= i < samples.len() implies samples_in(bytes)[i] == samples[i] by {
        lemma_pcm_bytes(samples, i);
    }
    assert(samples_in(bytes) =~= samples);
}

/// Where voice goes.
pub enum VoiceTarget {
    /// To the own channel.
    Channel,
    /// To these alone.
    Whisper { channels: Vec<u64>, clients: Vec<u16> },
}

/// The channels and clients that are whispered to, if any.
pub struct WhisperList {
    pub channels: Vec<u64>,
    pub clients: Vec<u16>,
}

impl WhisperList {
    pub fn new() -> (r: WhisperList)
        ensures
            r.channels@ == Seq::<u64>::empty(),
            r.clients@ == Seq::<u16>::empty(),
    {
        WhisperList { channels: Vec::new(), clients: Vec::new() }
    }

    /// Where voice goes: to those on the list, to the own channel where it is
    /// empty.
    pub fn target(&self) -> (r: VoiceTarget)
        ensures
            match r {
                VoiceTarget::Channel => self.channels@.len() == 0 && self.clients@.len() == 0,
                VoiceTarget::Whisper { channels, clients } => (self.channels@.len() > 0
                    || self.clients@.len() > 0) && channels@ == self.channels@ && clients@
                    == self.clients@,
            },
            r is Channel <==> self.channels@.len() + self.clients@.len() == 0,
    {
        if self.channels.len() == 0 && self.clients.len() == 0 {
            VoiceTarget::Channel
        } else {
            let channels = self.channels.clone();
            let clients = self.clients.clone();
            assert(channels@ =~= self.channels@);
            assert(clients@ =~= self.clients@);
            VoiceTarget::Whisper { channels, clients }
        }
    }
}

/// The clients that are talking, each once.
pub struct Talkers {
    pub clients: Vec<u16>,
}

impl Talkers {
    pub open spec fn well_formed(self) -> bool {
        self.clients@.no_duplicates()
    }

    pub fn new() -> (r: Talkers)
        ensures
            r.well_formed(),
            r.clients@ == Seq::<u16>::empty(),
    {
        Talkers { clients: Vec::new() }
    }

    fn place(&self, client: u16) -> (r: Option<usize>)
        ensures
            match r {
                Some(i) => i < self.clients.len() && self.clients@[i as int] == client,
                None => !self.clients@.contains(client),
            },
    {
        let mut i: usize = 0;
        while i < self.clients.len()
            invariant
                i <= self.clients.len(),
                forall|j: int| 0 <= j < i ==> self.clients@[j] != client,
            decreases self.clients.len() - i,
        {
            if self.clients[i] == client {
                return Some(i);
            }
            i += 1;
        }
        None
    }

    /// Notes that a client talks, and says whether that is new.
    pub fn start(&mut self, client: u16) -> (r: bool)
        requires
            old(self).well_formed(),
        ensures
            final(self).well_formed(),
            r == !old(self).clients@.contains(client),
            forall|c: u16| #[trigger]
                final(self).clients@.contains(c) <==> old(self).clients@.contains(c) || c == client,
    {
        let ghost before = self.clients@;
        match self.place(client) {
            Some(i) => {
                assert(before[i as int] == client);
                false
            },
            None => {
                self.clients.push(client);
                proof {
                    assert forall|c: u16| #[trigger]
                        self.clients@.contains(c) <==> before.contains(c) || c == client by {
                        crate::text::list::lemma_push_contains(before, client, c);
                    }
                }
                true
            },
        }
    }

    /// Notes that clients fell silent, and says whether any of them talked.
    pub fn stop(&mut self, silent: &Vec<u16>) -> (r: bool)
        requires
            old(self).well_formed(),
        ensures
            final(self).well_formed(),
            r == exists|c: u16| #[trigger] old(self).clients@.contains(c) && silent@.contains(c),
            forall|c: u16| #[trigger]
                final(self).clients@.contains(c) <==> old(self).clients@.contains(c)
                    && !silent@.contains(c),
    {
        let ghost before = self.clients@;
        let mut changed: bool = false;
        let mut k: usize = 0;
        while k < silent.len()
            invariant
                k <= silent.len(),
                self.well_formed(),
                changed == exists|c: u16| #[trigger]
                    before.contains(c) && silent@.take(k as int).contains(c),
                forall|c: u16| #[trigger]
                    self.clients@.contains(c) <==> before.contains(c) && !silent@.take(
                        k as int,
                    ).contains(c),
            decreases silent.len() - k,
        {
            let client: u16 = silent[k];
            let ghost now = self.clients@;
            let ghost old_part = silent@.take(k as int);
            let ghost part = silent@.take(k + 1);
            let ghost was = changed;
            assert(part =~= old_part.push(client));
            assert forall|c: u16| #[trigger] part.contains(c) <==> old_part.contains(c) || c
                == client by {
                crate::text::list::lemma_push_contains(old_part, client, c);
            }
            match self.place(client) {
                Some(i) => {
                    assert(now.contains(client)) by {
                        assert(now[i as int] == client);
                    }
                    self.clients.remove(i);
                    changed = true;
                    let ghost after = self.clients@;
                    assert(before.contains(client) && part.contains(client));
                    assert forall|c: u16| #[trigger] after.contains(c) <==> now.contains(c) && c
                        != client by {
                        if after.contains(c) {
                            let j = choose|j: int| 0 <= j < after.len() && after[j] == c;
                            if j < i {
                                assert(now[j] == c);
                            } else {
                                assert(now[j + 1] == c);
                            }
                        }
                        if now.contains(c) && c != client {
                            let j = choose|j: int| 0 <= j < now.len() && now[j] == c;
                            if j < i {
                                assert(after[j] == c);
                            } else {
                                assert(after[j - 1] == c);
                            }
                        }
                    }
                },
                None => {
                    proof {
                        if was {
                            let c = choose|c: u16| #[trigger]
                                before.contains(c) && old_part.contains(c);
                            assert(before.contains(c) && part.contains(c));
                        } else {
                            assert forall|c: u16| #[trigger]
                                before.contains(c) implies !part.contains(c) by {
                                if c == client {
                                    assert(!self.clients@.contains(c));
                                    assert(old_part.contains(c));
                                }
                            }
                        }
                    }
                },
            }
            k += 1;
        }
        assert(silent@.take(silent@.len() as int) =~= silent@);
        changed
    }

    /// The clients to report.
    pub fn list(&self) -> (r: Vec<u16>)
        ensures
            r@ == self.clients@,
    {
        let r = self.clients.clone();
        assert(r@ =~= self.clients@);
        r
    }
}

/// A sample is its two bytes, the low one first, as a signed number.
pub proof fn law_sample_is_its_bytes(low: u8, high: u8)
    ensures
        (sample_value(low, high) - (low + 256 * high)) % 65536 == 0,
        -32768 <= sample_value(low, high) <= 32767,
        samples_in(seq![low, high]) == seq![sample_value(low, high) as i16],
{
    assert(samples_in(seq![low, high]) =~= seq![sample_value(low, high) as i16]);
}

/// Twenty milliseconds at 48 kHz make a frame: 960 samples, two bytes each; an
/// odd byte behind them does not count.
pub proof fn law_frame_is_twenty_milliseconds(bytes: Seq<u8>)
    ensures
        FRAME_SAMPLES * 50 == 48000,
        samples_in(bytes).len() == FRAME_SAMPLES <==> bytes.len() == 1920 || bytes.len() == 1921,
{
}

/// Samples follow one another as their bytes do.
pub proof fn law_samples_follow_their_bytes(bytes: Seq<u8>, i: int)
    requires
        0 <= i < samples_in(bytes).len(),
    ensures
        samples_in(bytes)[i] == sample_value(bytes[i + i], bytes[i + i + 1]),
        samples_in(bytes).len() == bytes.len() / 2,
{
}

} // verus!
