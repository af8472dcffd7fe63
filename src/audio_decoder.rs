use vstd::prelude::*;

verus! {

/// Decoded audio: interleaved signed 16-bit samples, the sample rate in Hz, the channel
/// count, and the bit pattern of the duration in seconds (an `f64`).
pub struct DecodedAudio {
    pub samples_i16: Vec<i16>,
    pub sample_rate: u32,
    pub channels: u32,
    pub duration_bits: u64,
}

/// One decoded packet: a plane of samples per channel, in the decoder's sample format.
/// Floating-point formats are converted to 16-bit before they reach the library.
pub enum SampleBuffer {
    /// Planes of unsigned 8-bit, biased to the signed range and shifted left 8.
    U8(Vec<Vec<u8>>),
    /// Planes of signed 8-bit, shifted left 8.
    S8(Vec<Vec<i8>>),
    /// Planes of unsigned 16-bit, biased to the signed range.
    U16(Vec<Vec<u16>>),
    /// Planes of signed 16-bit, copied.
    S16(Vec<Vec<i16>>),
    /// Planes of unsigned 24-bit (held in a `u32` below 2^24), shifted right 8 and biased.
    U24(Vec<Vec<u32>>),
    /// Planes of signed 24-bit (held in an `i32` within 2^23 of zero), shifted right 8 (rounding down).
    S24(Vec<Vec<i32>>),
    /// Planes of unsigned 32-bit, shifted right 16 and biased.
    U32(Vec<Vec<u32>>),
    /// Planes of signed 32-bit, shifted right 16 (rounding down).
    S32(Vec<Vec<i32>>),
}

/// One unsigned 8-bit, biased to the signed range and shifted left 8 sample as a signed 16-bit sample.
pub open spec fn u8_to_i16(v: u8) -> int {
    (v - 128) * 256
}

/// One signed 8-bit, shifted left 8 sample as a signed 16-bit sample.
pub open spec fn s8_to_i16(v: i8) -> int {
    v * 256
}

/// One unsigned 16-bit, biased to the signed range sample as a signed 16-bit sample.
pub open spec fn u16_to_i16(v: u16) -> int {
    v - 32768
}

/// One signed 16-bit, copied sample as a signed 16-bit sample.
pub open spec fn s16_to_i16(v: i16) -> int {
    v as int
}

/// One unsigned 24-bit (held in a `u32` below 2^24), shifted right 8 and biased sample as a signed 16-bit sample.
pub open spec fn u24_to_i16(v: u32) -> int {
    v / 256 - 32768
}

/// One signed 24-bit (held in an `i32` within 2^23 of zero), shifted right 8 (rounding down) sample as a signed 16-bit sample.
pub open spec fn s24_to_i16(v: i32) -> int {
    v / 256
}

/// One unsigned 32-bit, shifted right 16 and biased sample as a signed 16-bit sample.
pub open spec fn u32_to_i16(v: u32) -> int {
    v / 65536 - 32768
}

/// One signed 32-bit, shifted right 16 (rounding down) sample as a signed 16-bit sample.
pub open spec fn s32_to_i16(v: i32) -> int {
    v / 65536
}

fn convert_u8(plane: &Vec<u8>) -> (r: Vec<i16>)
    ensures
        r@.len() == plane@.len(),
        forall|f: int| 0 <= f < r@.len() ==> r@[f] as int == u8_to_i16(#[trigger] plane@[f]),
{
    let mut r: Vec<i16> = Vec::new();
    let mut i: usize = 0;
    while i < plane.len()
        invariant
            i <= plane@.len(),
            r@.len() == i,
            forall|f: int| 0 <= f < i ==> r@[f] as int == u8_to_i16(#[trigger] plane@[f]),
        decreases plane@.len() - i,
    {
        let v = plane[i];
        r.push(((v as i16) - 128) * 256);
        i = i + 1;
    }
    r
}

fn convert_s8(plane: &Vec<i8>) -> (r: Vec<i16>)
    ensures
        r@.len() == plane@.len(),
        forall|f: int| 0 <= f < r@.len() ==> r@[f] as int == s8_to_i16(#[trigger] plane@[f]),
{
    let mut r: Vec<i16> = Vec::new();
    let mut i: usize = 0;
    while i < plane.len()
        invariant
            i <= plane@.len(),
            r@.len() == i,
            forall|f: int| 0 <= f < i ==> r@[f] as int == s8_to_i16(#[trigger] plane@[f]),
        decreases plane@.len() - i,
    {
        let v = plane[i];
        r.push((v as i16) * 256);
        i = i + 1;
    }
    r
}

fn convert_u16(plane: &Vec<u16>) -> (r: Vec<i16>)
    ensures
        r@.len() == plane@.len(),
        forall|f: int| 0 <= f < r@.len() ==> r@[f] as int == u16_to_i16(#[trigger] plane@[f]),
{
    let mut r: Vec<i16> = Vec::new();
    let mut i: usize = 0;
    while i < plane.len()
        invariant
            i <= plane@.len(),
            r@.len() == i,
            forall|f: int| 0 <= f < i ==> r@[f] as int == u16_to_i16(#[trigger] plane@[f]),
        decreases plane@.len() - i,
    {
        let v = plane[i];
        r.push((v as i32 - 32768) as i16);
        i = i + 1;
    }
    r
}

fn convert_s16(plane: &Vec<i16>) -> (r: Vec<i16>)
    ensures
        r@.len() == plane@.len(),
        forall|f: int| 0 <= f < r@.len() ==> r@[f] as int == s16_to_i16(#[trigger] plane@[f]),
{
    let mut r: Vec<i16> = Vec::new();
    let mut i: usize = 0;
    while i < plane.len()
        invariant
            i <= plane@.len(),
            r@.len() == i,
            forall|f: int| 0 <= f < i ==> r@[f] as int == s16_to_i16(#[trigger] plane@[f]),
        decreases plane@.len() - i,
    {
        let v = plane[i];
        r.push(v);
        i = i + 1;
    }
    r
}

fn convert_u24(plane: &Vec<u32>) -> (r: Vec<i16>)
    requires
        forall|f: int| 0 <= f < plane@.len() ==> #[trigger] plane@[f] < 0x100_0000,
    ensures
        r@.len() == plane@.len(),
        forall|f: int| 0 <= f < r@.len() ==> r@[f] as int == u24_to_i16(#[trigger] plane@[f]),
{
    let mut r: Vec<i16> = Vec::new();
    let mut i: usize = 0;
    while i < plane.len()
        invariant
            i <= plane@.len(),
            r@.len() == i,
            forall|f: int| 0 <= f < i ==> r@[f] as int == u24_to_i16(#[trigger] plane@[f]),
            forall|f: int| 0 <= f < plane@.len() ==> #[trigger] plane@[f] < 0x100_0000,
        decreases plane@.len() - i,
    {
        let v = plane[i];
        r.push(((v / 256) as i32 - 32768) as i16);
        i = i + 1;
    }
    r
}

fn convert_s24(plane: &Vec<i32>) -> (r: Vec<i16>)
    requires
        forall|f: int| 0 <= f < plane@.len() ==> -0x80_0000 <= #[trigger] plane@[f] < 0x80_0000,
    ensures
        r@.len() == plane@.len(),
        forall|f: int| 0 <= f < r@.len() ==> r@[f] as int == s24_to_i16(#[trigger] plane@[f]),
{
    let mut r: Vec<i16> = Vec::new();
    let mut i: usize = 0;
    while i < plane.len()
        invariant
            i <= plane@.len(),
            r@.len() == i,
            forall|f: int| 0 <= f < i ==> r@[f] as int == s24_to_i16(#[trigger] plane@[f]),
            forall|f: int| 0 <= f < plane@.len() ==> -0x80_0000 <= #[trigger] plane@[f] < 0x80_0000,
        decreases plane@.len() - i,
    {
        let v = plane[i];
        r.push((((v as i64 + 0x80_0000) as u64 / 256) as i64 - 32768) as i16);
        i = i + 1;
    }
    r
}

fn convert_u32(plane: &Vec<u32>) -> (r: Vec<i16>)
    ensures
        r@.len() == plane@.len(),
        forall|f: int| 0 <= f < r@.len() ==> r@[f] as int == u32_to_i16(#[trigger] plane@[f]),
{
    let mut r: Vec<i16> = Vec::new();
    let mut i: usize = 0;
    while i < plane.len()
        invariant
            i <= plane@.len(),
            r@.len() == i,
            forall|f: int| 0 <= f < i ==> r@[f] as int == u32_to_i16(#[trigger] plane@[f]),
        decreases plane@.len() - i,
    {
        let v = plane[i];
        r.push(((v / 65536) as i32 - 32768) as i16);
        i = i + 1;
    }
    r
}

fn convert_s32(plane: &Vec<i32>) -> (r: Vec<i16>)
    ensures
        r@.len() == plane@.len(),
        forall|f: int| 0 <= f < r@.len() ==> r@[f] as int == s32_to_i16(#[trigger] plane@[f]),
{
    let mut r: Vec<i16> = Vec::new();
    let mut i: usize = 0;
    while i < plane.len()
        invariant
            i <= plane@.len(),
            r@.len() == i,
            forall|f: int| 0 <= f < i ==> r@[f] as int == s32_to_i16(#[trigger] plane@[f]),
        decreases plane@.len() - i,
    {
        let v = plane[i];
        r.push((((v as i64 + 0x8000_0000) as u64 / 65536) as i64 - 32768) as i16);
        i = i + 1;
    }
    r
}

impl SampleBuffer {
    /// Channels in the packet.
    pub open spec fn channel_count(&self) -> nat {
        match self {
            SampleBuffer::U8(p) => p@.len(),
            SampleBuffer::S8(p) => p@.len(),
            SampleBuffer::U16(p) => p@.len(),
            SampleBuffer::S16(p) => p@.len(),
            SampleBuffer::U24(p) => p@.len(),
            SampleBuffer::S24(p) => p@.len(),
            SampleBuffer::U32(p) => p@.len(),
            SampleBuffer::S32(p) => p@.len(),
        }
    }

    /// Length of channel `c`'s plane.
    pub open spec fn plane_len(&self, c: int) -> nat {
        match self {
            SampleBuffer::U8(p) => p@[c]@.len(),
            SampleBuffer::S8(p) => p@[c]@.len(),
            SampleBuffer::U16(p) => p@[c]@.len(),
            SampleBuffer::S16(p) => p@[c]@.len(),
            SampleBuffer::U24(p) => p@[c]@.len(),
            SampleBuffer::S24(p) => p@[c]@.len(),
            SampleBuffer::U32(p) => p@[c]@.len(),
            SampleBuffer::S32(p) => p@[c]@.len(),
        }
    }

    /// Frames in the packet: the length of the first plane.
    pub open spec fn frame_count(&self) -> nat {
        if self.channel_count() == 0 {
            0
        } else {
            self.plane_len(0)
        }
    }

    /// Every plane has the same length, and 24-bit samples are within 24 bits.
    pub open spec fn wf(&self) -> bool {
        &&& forall|c: int| 0 <= c < self.channel_count() ==> #[trigger] self.plane_len(c) == self.frame_count()
        &&& match self {
            SampleBuffer::U24(p) => forall|c: int, f: int|
                0 <= c < p@.len() && 0 <= f < p@[c]@.len() ==> #[trigger] p@[c]@[f] < 0x100_0000,
            SampleBuffer::S24(p) => forall|c: int, f: int|
                0 <= c < p@.len() && 0 <= f < p@[c]@.len() ==> -0x80_0000 <= #[trigger] p@[c]@[f] < 0x80_0000,
            _ => true,
        }
    }

    /// Sample `f` of channel `c` as a signed 16-bit value, by the rule of its format.
    pub open spec fn sample_i16(&self, c: int, f: int) -> int {
        match self {
            SampleBuffer::U8(p) => u8_to_i16(p@[c]@[f]),
            SampleBuffer::S8(p) => s8_to_i16(p@[c]@[f]),
            SampleBuffer::U16(p) => u16_to_i16(p@[c]@[f]),
            SampleBuffer::S16(p) => s16_to_i16(p@[c]@[f]),
            SampleBuffer::U24(p) => u24_to_i16(p@[c]@[f]),
            SampleBuffer::S24(p) => s24_to_i16(p@[c]@[f]),
            SampleBuffer::U32(p) => u32_to_i16(p@[c]@[f]),
            SampleBuffer::S32(p) => s32_to_i16(p@[c]@[f]),
        }
    }
}

/// Whether all planes have the length of the first.
fn planes_even<T>(p: &Vec<Vec<T>>) -> (r: bool)
    ensures
        r == forall|c: int| 0 <= c < p@.len() ==> #[trigger] p@[c]@.len() == p@[0]@.len(),
{
    let mut c: usize = 0;
    while c < p.len()
        invariant
            c <= p@.len(),
            forall|j: int| 0 <= j < c ==> #[trigger] p@[j]@.len() == p@[0]@.len(),
        decreases p@.len() - c,
    {
        if p[c].len() != p[0].len() {
            return false;
        }
        c = c + 1;
    }
    true
}

fn u24_in_range(p: &Vec<Vec<u32>>) -> (r: bool)
    ensures
        r == forall|c: int, f: int| 0 <= c < p@.len() && 0 <= f < p@[c]@.len() ==> #[trigger] p@[c]@[f] < 0x100_0000,
{
    let mut c: usize = 0;
    while c < p.len()
        invariant
            c <= p@.len(),
            forall|c2: int, f: int| 0 <= c2 < c && 0 <= f < p@[c2]@.len() ==> #[trigger] p@[c2]@[f] < 0x100_0000,
        decreases p@.len() - c,
    {
        let mut f: usize = 0;
        while f < p[c].len()
            invariant
                c < p@.len(),
                f <= p@[c as int]@.len(),
                forall|c2: int, f2: int| 0 <= c2 < c && 0 <= f2 < p@[c2]@.len() ==> #[trigger] p@[c2]@[f2] < 0x100_0000,
                forall|f2: int| 0 <= f2 < f ==> #[trigger] p@[c as int]@[f2] < 0x100_0000,
            decreases p@[c as int]@.len() - f,
        {
            if p[c][f] >= 0x100_0000 {
                return false;
            }
            f = f + 1;
        }
        c = c + 1;
    }
    true
}

fn s24_in_range(p: &Vec<Vec<i32>>) -> (r: bool)
    ensures
        r == forall|c: int, f: int|
            0 <= c < p@.len() && 0 <= f < p@[c]@.len() ==> -0x80_0000 <= #[trigger] p@[c]@[f] < 0x80_0000,
{
    let mut c: usize = 0;
    while c < p.len()
        invariant
            c <= p@.len(),
            forall|c2: int, f: int|
                0 <= c2 < c && 0 <= f < p@[c2]@.len() ==> -0x80_0000 <= #[trigger] p@[c2]@[f] < 0x80_0000,
        decreases p@.len() - c,
    {
        let mut f: usize = 0;
        while f < p[c].len()
            invariant
                c < p@.len(),
                f <= p@[c as int]@.len(),
                forall|c2: int, f2: int|
                    0 <= c2 < c && 0 <= f2 < p@[c2]@.len() ==> -0x80_0000 <= #[trigger] p@[c2]@[f2] < 0x80_0000,
                forall|f2: int| 0 <= f2 < f ==> -0x80_0000 <= #[trigger] p@[c as int]@[f2] < 0x80_0000,
            decreases p@[c as int]@.len() - f,
        {
            let v = p[c][f];
            if v < -0x80_0000 || v >= 0x80_0000 {
                return false;
            }
            f = f + 1;
        }
        c = c + 1;
    }
    true
}

impl SampleBuffer {
    /// Whether the packet is well formed (`wf`): the test a caller makes before
    /// `convert_to_i16`.
    pub fn is_wf(&self) -> (r: bool)
        ensures
            r == self.wf(),
    {
        match self {
            SampleBuffer::U8(p) => {
                let even = planes_even(p);
                proof {
                    assert(self.channel_count() == p@.len());
                    if even {
                        assert forall|c: int| 0 <= c < self.channel_count() implies #[trigger] self.plane_len(c)
                            == self.frame_count() by {
                            assert(p@[c]@.len() == p@[0]@.len());
                        }
                    } else {
                        let c = choose|c: int| 0 <= c < p@.len() && #[trigger] p@[c]@.len() != p@[0]@.len();
                        assert(self.plane_len(c) != self.frame_count());
                    }
                }
                even
            },
            SampleBuffer::S8(p) => {
                let even = planes_even(p);
                proof {
                    assert(self.channel_count() == p@.len());
                    if even {
                        assert forall|c: int| 0 <= c < self.channel_count() implies #[trigger] self.plane_len(c)
                            == self.frame_count() by {
                            assert(p@[c]@.len() == p@[0]@.len());
                        }
                    } else {
                        let c = choose|c: int| 0 <= c < p@.len() && #[trigger] p@[c]@.len() != p@[0]@.len();
                        assert(self.plane_len(c) != self.frame_count());
                    }
                }
                even
            },
            SampleBuffer::U16(p) => {
                let even = planes_even(p);
                proof {
                    assert(self.channel_count() == p@.len());
                    if even {
                        assert forall|c: int| 0 <= c < self.channel_count() implies #[trigger] self.plane_len(c)
                            == self.frame_count() by {
                            assert(p@[c]@.len() == p@[0]@.len());
                        }
                    } else {
                        let c = choose|c: int| 0 <= c < p@.len() && #[trigger] p@[c]@.len() != p@[0]@.len();
                        assert(self.plane_len(c) != self.frame_count());
                    }
                }
                even
            },
            SampleBuffer::S16(p) => {
                let even = planes_even(p);
                proof {
                    assert(self.channel_count() == p@.len());
                    if even {
                        assert forall|c: int| 0 <= c < self.channel_count() implies #[trigger] self.plane_len(c)
                            == self.frame_count() by {
                            assert(p@[c]@.len() == p@[0]@.len());
                        }
                    } else {
                        let c = choose|c: int| 0 <= c < p@.len() && #[trigger] p@[c]@.len() != p@[0]@.len();
                        assert(self.plane_len(c) != self.frame_count());
                    }
                }
                even
            },
            SampleBuffer::U24(p) => {
                let even = planes_even(p);
                proof {
                    assert(self.channel_count() == p@.len());
                    if even {
                        assert forall|c: int| 0 <= c < self.channel_count() implies #[trigger] self.plane_len(c)
                            == self.frame_count() by {
                            assert(p@[c]@.len() == p@[0]@.len());
                        }
                    } else {
                        let c = choose|c: int| 0 <= c < p@.len() && #[trigger] p@[c]@.len() != p@[0]@.len();
                        assert(self.plane_len(c) != self.frame_count());
                    }
                }
                even && u24_in_range(p)
            },
            SampleBuffer::S24(p) => {
                let even = planes_even(p);
                proof {
                    assert(self.channel_count() == p@.len());
                    if even {
                        assert forall|c: int| 0 <= c < self.channel_count() implies #[trigger] self.plane_len(c)
                            == self.frame_count() by {
                            assert(p@[c]@.len() == p@[0]@.len());
                        }
                    } else {
                        let c = choose|c: int| 0 <= c < p@.len() && #[trigger] p@[c]@.len() != p@[0]@.len();
                        assert(self.plane_len(c) != self.frame_count());
                    }
                }
                even && s24_in_range(p)
            },
            SampleBuffer::U32(p) => {
                let even = planes_even(p);
                proof {
                    assert(self.channel_count() == p@.len());
                    if even {
                        assert forall|c: int| 0 <= c < self.channel_count() implies #[trigger] self.plane_len(c)
                            == self.frame_count() by {
                            assert(p@[c]@.len() == p@[0]@.len());
                        }
                    } else {
                        let c = choose|c: int| 0 <= c < p@.len() && #[trigger] p@[c]@.len() != p@[0]@.len();
                        assert(self.plane_len(c) != self.frame_count());
                    }
                }
                even
            },
            SampleBuffer::S32(p) => {
                let even = planes_even(p);
                proof {
                    assert(self.channel_count() == p@.len());
                    if even {
                        assert forall|c: int| 0 <= c < self.channel_count() implies #[trigger] self.plane_len(c)
                            == self.frame_count() by {
                            assert(p@[c]@.len() == p@[0]@.len());
                        }
                    } else {
                        let c = choose|c: int| 0 <= c < p@.len() && #[trigger] p@[c]@.len() != p@[0]@.len();
                        assert(self.plane_len(c) != self.frame_count());
                    }
                }
                even
            },
        }
    }

    /// The number of samples the packet holds once interleaved: frames times channels,
    /// `None` where that does not fit in a `usize`.
    pub fn sample_count(&self) -> (r: Option<usize>)
        ensures
            r is Some <==> self.frame_count() * self.channel_count() <= usize::MAX,
            r is Some ==> r->0 == self.frame_count() * self.channel_count(),
    {
        let (ch, frames) = match self {
            SampleBuffer::U8(p) => (p.len(), if p.len() == 0 { 0 } else { p[0].len() }),
            SampleBuffer::S8(p) => (p.len(), if p.len() == 0 { 0 } else { p[0].len() }),
            SampleBuffer::U16(p) => (p.len(), if p.len() == 0 { 0 } else { p[0].len() }),
            SampleBuffer::S16(p) => (p.len(), if p.len() == 0 { 0 } else { p[0].len() }),
            SampleBuffer::U24(p) => (p.len(), if p.len() == 0 { 0 } else { p[0].len() }),
            SampleBuffer::S24(p) => (p.len(), if p.len() == 0 { 0 } else { p[0].len() }),
            SampleBuffer::U32(p) => (p.len(), if p.len() == 0 { 0 } else { p[0].len() }),
            SampleBuffer::S32(p) => (p.len(), if p.len() == 0 { 0 } else { p[0].len() }),
        };
        frames.checked_mul(ch)
    }
}

/// Every plane of `buffer` converted to signed 16-bit samples.
fn converted_planes(buffer: &SampleBuffer) -> (r: Vec<Vec<i16>>)
    requires
        buffer.wf(),
    ensures
        r@.len() == buffer.channel_count(),
        forall|c: int| 0 <= c < r@.len() ==> (#[trigger] r@[c])@.len() == buffer.plane_len(c),
        forall|c: int, f: int|
            0 <= c < r@.len() && 0 <= f < r@[c]@.len() ==> (#[trigger] r@[c]@[f]) as int == buffer.sample_i16(c, f),
{
    let mut r: Vec<Vec<i16>> = Vec::new();
    let mut c: usize = 0;
    let n = match buffer {
        SampleBuffer::U8(p) => p.len(),
        SampleBuffer::S8(p) => p.len(),
        SampleBuffer::U16(p) => p.len(),
        SampleBuffer::S16(p) => p.len(),
        SampleBuffer::U24(p) => p.len(),
        SampleBuffer::S24(p) => p.len(),
        SampleBuffer::U32(p) => p.len(),
        SampleBuffer::S32(p) => p.len(),
    };
    while c < n
        invariant
            buffer.wf(),
            n == buffer.channel_count(),
            c <= n,
            r@.len() == c,
            forall|c2: int| 0 <= c2 < c ==> (#[trigger] r@[c2])@.len() == buffer.plane_len(c2),
            forall|c2: int, f: int|
                0 <= c2 < c && 0 <= f < r@[c2]@.len() ==> (#[trigger] r@[c2]@[f]) as int == buffer.sample_i16(c2, f),
        decreases n - c,
    {
        let plane = match buffer {
            SampleBuffer::U8(p) => convert_u8(&p[c]),
            SampleBuffer::S8(p) => convert_s8(&p[c]),
            SampleBuffer::U16(p) => convert_u16(&p[c]),
            SampleBuffer::S16(p) => convert_s16(&p[c]),
            SampleBuffer::U24(p) => convert_u24(&p[c]),
            SampleBuffer::S24(p) => convert_s24(&p[c]),
            SampleBuffer::U32(p) => convert_u32(&p[c]),
            SampleBuffer::S32(p) => convert_s32(&p[c]),
        };
        r.push(plane);
        c = c + 1;
    }
    r
}

proof fn lemma_slot_below(f2: int, c2: int, f: int, ch: int)
    requires
        0 <= f2 < f,
        0 <= c2 < ch,
    ensures
        f2 * ch + c2 < f * ch,
        0 <= f2 * ch + c2,
{
    assert(f2 * ch + c2 < f * ch) by (nonlinear_arith)
        requires
            0 <= f2 < f,
            0 <= c2 < ch,
    ;
    assert(0 <= f2 * ch) by (nonlinear_arith)
        requires
            0 <= f2,
            0 <= ch,
    ;
}

/// Appends a decoded packet to `output`, frame by frame with the channels of each frame in
/// order, each sample converted to signed 16-bit by the rule of its format.
pub fn convert_to_i16(buffer: &SampleBuffer, output: &mut Vec<i16>)
    requires
        buffer.wf(),
        old(output)@.len() + buffer.frame_count() * buffer.channel_count() <= usize::MAX,
    ensures
        final(output)@.len() == old(output)@.len() + buffer.frame_count() * buffer.channel_count(),
        final(output)@.subrange(0, old(output)@.len() as int) == old(output)@,
        forall|f: int, c: int|
            0 <= f < buffer.frame_count() && 0 <= c < buffer.channel_count() ==> (#[trigger] final(output)@[old(
                output,
            )@.len() + f * buffer.channel_count() + c]) as int == buffer.sample_i16(c, f),
{
    let planes = converted_planes(buffer);
    let ch = planes.len();
    let frames = if ch == 0 { 0 } else { planes[0].len() };
    let ghost base = output@.len() as int;
    let ghost chi = ch as int;
    let mut f: usize = 0;
    while f < frames
        invariant
            buffer.wf(),
            ch == buffer.channel_count(),
            chi == ch,
            frames == buffer.frame_count(),
            planes@.len() == ch,
            forall|c: int| 0 <= c < ch ==> (#[trigger] planes@[c])@.len() == frames,
            forall|c: int, f2: int|
                0 <= c < ch && 0 <= f2 < planes@[c]@.len() ==> (#[trigger] planes@[c]@[f2]) as int == buffer.sample_i16(c, f2),
            f <= frames,
            base + frames * chi <= usize::MAX,
            base == old(output)@.len(),
            output@.len() == base + f * chi,
            output@.subrange(0, base) == old(output)@,
            forall|f2: int, c2: int|
                0 <= f2 < f && 0 <= c2 < ch ==> (#[trigger] output@[base + f2 * chi + c2]) as int == buffer.sample_i16(c2, f2),
        decreases frames - f,
    {
        let mut c: usize = 0;
        while c < ch
            invariant
                ch == buffer.channel_count(),
                chi == ch,
                planes@.len() == ch,
                forall|c3: int| 0 <= c3 < ch ==> (#[trigger] planes@[c3])@.len() == frames,
                forall|c3: int, f3: int|
                    0 <= c3 < ch && 0 <= f3 < planes@[c3]@.len() ==> (#[trigger] planes@[c3]@[f3]) as int == buffer.sample_i16(c3, f3),
                f < frames,
                c <= ch,
                base + frames * chi <= usize::MAX,
                base == old(output)@.len(),
                output@.len() == base + f * chi + c,
                output@.subrange(0, base) == old(output)@,
                forall|f2: int, c2: int|
                    0 <= f2 < f && 0 <= c2 < ch ==> (#[trigger] output@[base + f2 * chi + c2]) as int == buffer.sample_i16(c2, f2),
                forall|c2: int| 0 <= c2 < c ==> (#[trigger] output@[base + f * chi + c2]) as int == buffer.sample_i16(c2, f as int),
            decreases ch - c,
        {
            proof {
                assert((f + 1) * chi <= frames * chi) by (nonlinear_arith)
                    requires
                        f + 1 <= frames,
                        0 <= chi,
                ;
                assert(f * chi + c < (f + 1) * chi) by (nonlinear_arith)
                    requires
                        c < chi,
                ;
                assert(0 <= f * chi) by (nonlinear_arith)
                    requires
                        0 <= f,
                        0 <= chi,
                ;
            }
            let ghost before = output@;
            let x = planes[c][f];
            output.push(x);
            proof {
                assert(before.len() == base + f * chi + c);
                assert(output@ == before.push(x));
                assert(base <= before.len());
                assert(output@.subrange(0, base) =~= before.subrange(0, base));
                assert forall|f2: int, c2: int| 0 <= f2 < f && 0 <= c2 < ch implies (#[trigger] output@[base + f2 * chi + c2]) as int == buffer.sample_i16(c2, f2) by {
                    lemma_slot_below(f2, c2, f as int, chi);
                    assert(output@[base + f2 * chi + c2] == before[base + f2 * chi + c2]);
                }
            }
            c = c + 1;
        }
        proof {
            assert((f + 1) * chi == f * chi + chi) by (nonlinear_arith);
            assert forall|f2: int, c2: int| 0 <= f2 < f + 1 && 0 <= c2 < ch implies (#[trigger] output@[base + f2 * chi + c2]) as int == buffer.sample_i16(c2, f2) by {
                if f2 == f {
                }
            }
        }
        f = f + 1;
    }
    proof {
        assert(output@.len() == base + frames * chi);
    }
}

/// Rate of the mono stream that the feature extractor reads.
pub const ANALYSIS_RATE: u32 = 22050;

/// Frames of mono audio that `n_samples` interleaved samples of `channels` channels give:
/// one per frame, a partial last frame counting as one. No channels counts as one.
pub fn mono_len(n_samples: usize, channels: u32) -> (r: usize)
    ensures
        channels <= 1 ==> r == n_samples,
        channels > 1 ==> r == (n_samples + channels - 1) / (channels as int),
{
    if channels <= 1 {
        n_samples
    } else {
        let ch = channels as usize;
        let whole = n_samples / ch;
        let rem = n_samples % ch;
        proof {
            let n = n_samples as int;
            let c = ch as int;
            assert(n == whole * c + rem) by (nonlinear_arith)
                requires
                    whole == n / c,
                    rem == n % c,
                    c > 0,
            ;
            assert(whole * 2 <= n) by (nonlinear_arith)
                requires
                    n == whole * c + rem,
                    c >= 2,
                    whole >= 0,
                    rem >= 0,
            ;
            if rem == 0 {
                vstd::arithmetic::div_mod::lemma_fundamental_div_mod_converse(n + c - 1, c, whole as int, c - 1);
            } else {
                assert((whole + 1) * c == whole * c + c) by (nonlinear_arith);
                vstd::arithmetic::div_mod::lemma_fundamental_div_mod_converse(n + c - 1, c, whole + 1, rem - 1);
            }
        }
        if rem == 0 {
            whole
        } else {
            whole + 1
        }
    }
}

/// Length of `mono_len` samples at `sample_rate` Hz once resampled to 22050 Hz:
/// `floor(mono_len * 22050 / sample_rate)` (no samples for a rate of zero), saturated
/// at `usize::MAX`.
pub fn resampled_len(mono_len: usize, sample_rate: u32) -> (r: usize)
    ensures
        sample_rate == 0 ==> r == 0,
        sample_rate > 0 && mono_len * ANALYSIS_RATE / (sample_rate as int) <= usize::MAX ==> r == mono_len
            * ANALYSIS_RATE / (sample_rate as int),
        sample_rate > 0 && mono_len * ANALYSIS_RATE / (sample_rate as int) > usize::MAX ==> r == usize::MAX,
        sample_rate == ANALYSIS_RATE ==> r == mono_len,
{
    if sample_rate == 0 {
        return 0;
    }
    let wide = (mono_len as u128) * (ANALYSIS_RATE as u128) / (sample_rate as u128);
    if sample_rate == ANALYSIS_RATE {
        assert((mono_len as int) * 22050 / 22050 == mono_len as int) by (nonlinear_arith);
    }
    if wide > usize::MAX as u128 {
        usize::MAX
    } else {
        wide as usize
    }
}

/// Where output sample `i` of the 22050 Hz stream falls in the source at `sample_rate`
/// Hz: the source index `floor(i * sample_rate / 22050)` and the remainder, the fraction of
/// the way to the next source sample in units of 1/22050.
pub fn source_position(i: usize, sample_rate: u32) -> (r: (u128, u32))
    ensures
        r.0 == i * sample_rate / (ANALYSIS_RATE as int),
        r.1 == i * sample_rate % (ANALYSIS_RATE as int),
        r.1 < ANALYSIS_RATE,
{
    let a = i as u64;
    assert((a as int) * (sample_rate as int) < 0x1_0000_0000_0000_0000_0000_0000) by (nonlinear_arith)
        requires
            a < 0x1_0000_0000_0000_0000,
            sample_rate < 0x1_0000_0000,
    ;
    let wide = (a as u128) * (sample_rate as u128);
    let q = wide / (ANALYSIS_RATE as u128);
    let rem = wide % (ANALYSIS_RATE as u128);
    (q, rem as u32)
}

impl DecodedAudio {
    /// Length of the mono 22050 Hz stream derived from this audio.
    pub fn mono_22050_len(&self) -> (r: usize)
        ensures
            r == spec_mono_22050_len(self.samples_i16@.len() as int, self.channels, self.sample_rate),
    {
        resampled_len(mono_len(self.samples_i16.len(), self.channels), self.sample_rate)
    }
}

/// `floor(mono_len * 22050 / sample_rate)` for the mono length of `n_samples` interleaved
/// samples, saturated at `usize::MAX`.
pub open spec fn spec_mono_22050_len(n_samples: int, channels: u32, sample_rate: u32) -> int {
    let mono = if channels <= 1 {
        n_samples
    } else {
        (n_samples + channels - 1) / (channels as int)
    };
    if sample_rate == 0 {
        0
    } else if mono * ANALYSIS_RATE / (sample_rate as int) > usize::MAX {
        usize::MAX as int
    } else {
        mono * ANALYSIS_RATE / (sample_rate as int)
    }
}

/// What reading the next packet of a container gave.
#[derive(Debug, PartialEq, Eq, Structural)]
pub enum ReadOutcome {
    /// A packet of the track with this id.
    Packet(u32),
    /// The stream ended.
    EndOfStream,
    /// Reading failed otherwise.
    ReadError,
}

/// What decoding a packet gave.
#[derive(Debug, PartialEq, Eq, Structural)]
pub enum DecodeOutcome {
    Decoded,
    /// The packet is malformed; the stream is otherwise sound.
    BadPacket,
    /// Decoding failed otherwise.
    Failed,
}

/// What the decode loop does next.
#[derive(Debug, PartialEq, Eq, Structural)]
pub enum PacketStep {
    /// Decode the packet (or, after decoding, convert its samples).
    Take,
    /// Go on with the next packet.
    Skip,
    /// The stream is done.
    Stop,
    /// Give up with an error.
    Fail,
}

/// The step after reading: packets of other tracks are skipped, the end of the stream
/// stops the loop, any other read error fails it.
pub fn after_read(read: ReadOutcome, track_id: u32) -> (r: PacketStep)
    ensures
        read == ReadOutcome::EndOfStream ==> r == PacketStep::Stop,
        read == ReadOutcome::ReadError ==> r == PacketStep::Fail,
        read == ReadOutcome::Packet(track_id) ==> r == PacketStep::Take,
        forall|t: u32| t != track_id && read == ReadOutcome::Packet(t) ==> r == PacketStep::Skip,
{
    match read {
        ReadOutcome::Packet(t) => if t == track_id {
            PacketStep::Take
        } else {
            PacketStep::Skip
        },
        ReadOutcome::EndOfStream => PacketStep::Stop,
        ReadOutcome::ReadError => PacketStep::Fail,
    }
}

/// The step after decoding: a single malformed packet is skipped, not fatal.
pub fn after_decode(decoded: DecodeOutcome) -> (r: PacketStep)
    ensures
        decoded == DecodeOutcome::Decoded ==> r == PacketStep::Take,
        decoded == DecodeOutcome::BadPacket ==> r == PacketStep::Skip,
        decoded == DecodeOutcome::Failed ==> r == PacketStep::Fail,
{
    match decoded {
        DecodeOutcome::Decoded => PacketStep::Take,
        DecodeOutcome::BadPacket => PacketStep::Skip,
        DecodeOutcome::Failed => PacketStep::Fail,
    }
}

/// The first audio track: the first position whose codec is not the null codec.
pub fn first_audio_track(null_codec: &Vec<bool>) -> (r: Option<usize>)
    ensures
        r is None <==> forall|i: int| 0 <= i < null_codec@.len() ==> null_codec@[i],
        r is Some ==> r->0 < null_codec@.len() && !null_codec@[r->0 as int] && forall|i: int|
            0 <= i < r->0 ==> null_codec@[i],
{
    let mut i: usize = 0;
    while i < null_codec.len()
        invariant
            i <= null_codec@.len(),
            forall|j: int| 0 <= j < i ==> null_codec@[j],
        decreases null_codec@.len() - i,
    {
        if !null_codec[i] {
            return Some(i);
        }
        i = i + 1;
    }
    None
}

} // verus!
