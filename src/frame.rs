use vstd::prelude::*;

verus! {

/// The wall clock is carried through a reading as an opaque value: nothing in
/// the decoder looks inside it.
#[verifier::external_type_specification]
#[verifier::external_body]
pub struct ExSystemTime(std::time::SystemTime);

/// Relies on `SystemTime::now`: the current wall-clock instant. Nothing is
/// promised about which instant that is.
pub assume_specification[ std::time::SystemTime::now ]() -> std::time::SystemTime;

/// Length of one frame on the wire.
pub const FRAME_LEN: usize = 56;

/// Length of the synchronization marker at the start of every frame.
pub const SYNC_LEN: usize = 5;

/// Bit pattern of the quiet NaN that stands for a channel with a sensor error
/// (the bits of `f32::NAN`).
pub const NAN_BITS: u32 = 0x7fc0_0000;

/// Offsets of the fields inside a frame.
pub const CURRENT_VALUES_AT: usize = 5;
pub const CURRENT_FLAGS_AT: usize = 21;
pub const HELD_VALUES_AT: usize = 25;
pub const HELD_FLAGS_AT: usize = 41;
pub const METER_AT: usize = 45;
pub const HOLD_TYPE_AT: usize = 53;

/// The marker `AA 55 00 34 01` that opens every frame.
pub open spec fn sync_marker() -> Seq<u8> {
    seq![0xaau8, 0x55u8, 0x00u8, 0x34u8, 0x01u8]
}

/// Which of the device's latched values the held channels carry.
#[derive(Debug, Clone, Copy, PartialEq, Eq, Structural)]
pub enum HoldType {
    Current,
    Maximum,
    Minimum,
    Average,
}

/// The hold type that a code byte stands for, if any.
pub open spec fn hold_type_of(code: u8) -> Option<HoldType> {
    if code == 0 {
        Some(HoldType::Current)
    } else if code == 1 {
        Some(HoldType::Maximum)
    } else if code == 2 {
        Some(HoldType::Minimum)
    } else if code == 3 {
        Some(HoldType::Average)
    } else {
        None
    }
}

impl TryFrom<u8> for HoldType {
    type Error = ();

    fn try_from(value: u8) -> (r: Result<HoldType, ()>)
        ensures
            r == (match hold_type_of(value) {
                Some(h) => Ok(h),
                None => Err(()),
            }),
    {
        match value {
            0 => Ok(HoldType::Current),
            1 => Ok(HoldType::Maximum),
            2 => Ok(HoldType::Minimum),
            3 => Ok(HoldType::Average),
            _ => Err(()),
        }
    }
}

impl vstd::std_specs::convert::TryFromSpecImpl<u8> for HoldType {
    open spec fn obeys_try_from_spec() -> bool {
        true
    }

    open spec fn try_from_spec(value: u8) -> Result<HoldType, ()> {
        match hold_type_of(value) {
            Some(h) => Ok(h),
            None => Err(()),
        }
    }
}

/// Why a buffer is not a frame.
#[derive(Debug, Clone, Copy, PartialEq, Eq, Structural)]
pub enum DecodeError {
    WrongSize,
    BadSync,
    InvalidHoldType,
    IncompleteParse,
}

impl DecodeError {
    /// A short human-readable description of the error.
    pub fn message(&self) -> (r: &'static str)
        ensures
            *self == DecodeError::BadSync ==> r@ == "Bad sync header"@,
            *self == DecodeError::InvalidHoldType ==> r@ == "Invalid HoldType"@,
            *self == DecodeError::WrongSize ==> r@ == "Incorrect buffer size"@,
            *self == DecodeError::IncompleteParse ==> r@ == "Failed to parse all bytes"@,
    {
        match self {
            DecodeError::WrongSize => "Incorrect buffer size",
            DecodeError::BadSync => "Bad sync header",
            DecodeError::InvalidHoldType => "Invalid HoldType",
            DecodeError::IncompleteParse => "Failed to parse all bytes",
        }
    }
}

/// Little-endian unsigned value of the two bytes at `at`.
pub open spec fn le_u16(b: Seq<u8>, at: int) -> u16 {
    (b[at] as int + 256 * b[at + 1]) as u16
}

/// Little-endian unsigned value of the four bytes at `at`.
pub open spec fn le_u32(b: Seq<u8>, at: int) -> u32 {
    (b[at] as int + 256 * b[at + 1] + 65536 * b[at + 2] + 16777216 * b[at + 3]) as u32
}

/// The bits of one channel's temperature: the transmitted value, unless the
/// channel's error flag is set, in which case the NaN sentinel.
pub open spec fn channel_bits(b: Seq<u8>, value_at: int, flag_at: int) -> u32 {
    if b[flag_at] != 0 {
        NAN_BITS
    } else {
        le_u32(b, value_at)
    }
}

/// The error that decoding `b` ends in, or `None` when `b` is a valid frame.
pub open spec fn frame_error(b: Seq<u8>) -> Option<DecodeError> {
    if b.len() != FRAME_LEN {
        Some(DecodeError::WrongSize)
    } else if b.subrange(0, SYNC_LEN as int) != sync_marker() {
        Some(DecodeError::BadSync)
    } else if hold_type_of(b[HOLD_TYPE_AT as int]) is None {
        Some(DecodeError::InvalidHoldType)
    } else {
        None
    }
}

/// One decoded measurement frame. Temperatures are held as the bit patterns
/// of IEEE-754 single-precision values in degrees Celsius; a channel whose
/// sensor reported an error holds `NAN_BITS`.
#[derive(Debug, Clone, Copy)]
pub struct Reading {
    pub timestamp: std::time::SystemTime,
    pub current_temps_c: [u32; 4],
    pub held_temps_c: [u32; 4],
    pub hold_type: HoldType,
    pub meter_temp_c: u32,
}

/// `r` holds exactly what the valid frame `b` encodes.
pub open spec fn decodes_to(b: Seq<u8>, r: Reading) -> bool {
    &&& forall|i: int|
        0 <= i < 4 ==> #[trigger] r.current_temps_c@[i] == channel_bits(
            b,
            CURRENT_VALUES_AT + 4 * i,
            CURRENT_FLAGS_AT + i,
        )
    &&& forall|i: int|
        0 <= i < 4 ==> #[trigger] r.held_temps_c@[i] == channel_bits(
            b,
            HELD_VALUES_AT + 4 * i,
            HELD_FLAGS_AT + i,
        )
    &&& r.meter_temp_c == le_u32(b, METER_AT as int)
    &&& hold_type_of(b[HOLD_TYPE_AT as int]) == Some(r.hold_type)
}

/// What decoding `b` at the instant `t` yields: the error of `frame_error`, or
/// a reading that holds exactly the frame's fields and `t`.
pub open spec fn decode_outcome(b: Seq<u8>, t: std::time::SystemTime, r: Result<Reading, DecodeError>) -> bool {
    match r {
        Ok(reading) => frame_error(b) is None && decodes_to(b, reading) && reading.timestamp == t,
        Err(e) => frame_error(b) == Some(e),
    }
}

/// A buffer of frame length whose first five bytes are not the marker is
/// rejected as out of sync, whatever the other bytes hold.
pub proof fn lemma_bad_sync(b: Seq<u8>)
    requires
        b.len() == FRAME_LEN,
        b.subrange(0, SYNC_LEN as int) != sync_marker(),
    ensures
        frame_error(b) == Some(DecodeError::BadSync),
{
}

/// A buffer of any length other than a frame's is rejected for its size.
pub proof fn lemma_wrong_size(b: Seq<u8>)
    requires
        b.len() != FRAME_LEN,
    ensures
        frame_error(b) == Some(DecodeError::WrongSize),
{
}

/// In a decoded frame, a channel whose error flag is set holds the NaN
/// sentinel, whatever value bytes preceded the flag; a channel whose flag is
/// clear holds exactly the little-endian bits of its four value bytes. This
/// holds of the current and of the held channels alike.
pub proof fn lemma_channel_flags(b: Seq<u8>, r: Reading, i: int)
    requires
        frame_error(b) is None,
        decodes_to(b, r),
        0 <= i < 4,
    ensures
        b[CURRENT_FLAGS_AT + i] != 0 ==> r.current_temps_c@[i] == NAN_BITS,
        b[CURRENT_FLAGS_AT + i] == 0 ==> r.current_temps_c@[i] == le_u32(b, CURRENT_VALUES_AT + 4 * i),
        b[HELD_FLAGS_AT + i] != 0 ==> r.held_temps_c@[i] == NAN_BITS,
        b[HELD_FLAGS_AT + i] == 0 ==> r.held_temps_c@[i] == le_u32(b, HELD_VALUES_AT + 4 * i),
{
    assert(r.current_temps_c@[i] == channel_bits(b, CURRENT_VALUES_AT + 4 * i, CURRENT_FLAGS_AT + i));
    assert(r.held_temps_c@[i] == channel_bits(b, HELD_VALUES_AT + 4 * i, HELD_FLAGS_AT + i));
}

/// The hold-type codes 0, 1, 2 and 3 stand for Current, Maximum, Minimum and
/// Average; a frame with any other code is rejected for its hold type.
pub proof fn lemma_hold_codes(b: Seq<u8>)
    requires
        b.len() == FRAME_LEN,
        b.subrange(0, SYNC_LEN as int) == sync_marker(),
    ensures
        hold_type_of(0) == Some(HoldType::Current),
        hold_type_of(1) == Some(HoldType::Maximum),
        hold_type_of(2) == Some(HoldType::Minimum),
        hold_type_of(3) == Some(HoldType::Average),
        b[HOLD_TYPE_AT as int] > 3 <==> frame_error(b) == Some(DecodeError::InvalidHoldType),
        b[HOLD_TYPE_AT as int] <= 3 <==> frame_error(b) is None,
{
}

impl Reading {
    pub const N_BYTES: usize = 56;
    pub const N_SYNC_BYTES: usize = 5;
    pub const SYNC: [u8; 5] = [0xaa, 0x55, 0x00, 0x34, 0x01];

    /// Reads one byte at `*offset` and moves the cursor past it.
    fn unpack_u8(buf: &[u8], offset: &mut usize) -> (r: Result<u8, DecodeError>)
        ensures
            *old(offset) + 1 <= buf@.len() ==> r == Ok::<u8, DecodeError>(buf@[*old(offset) as int])
                && *final(offset) == *old(offset) + 1,
            *old(offset) + 1 > buf@.len() ==> r == Err::<u8, DecodeError>(
                DecodeError::IncompleteParse,
            ) && *final(offset) == *old(offset),
    {
        if *offset >= buf.len() {
            return Err(DecodeError::IncompleteParse);
        }
        let value = buf[*offset];
        *offset = *offset + 1;
        Ok(value)
    }

    /// Reads a little-endian `u16` at `*offset` and moves the cursor past it.
    fn unpack_u16(buf: &[u8], offset: &mut usize) -> (r: Result<u16, DecodeError>)
        ensures
            *old(offset) + 2 <= buf@.len() ==> r == Ok::<u16, DecodeError>(
                le_u16(buf@, *old(offset) as int),
            ) && *final(offset) == *old(offset) + 2,
            *old(offset) + 2 > buf@.len() ==> r == Err::<u16, DecodeError>(
                DecodeError::IncompleteParse,
            ) && *final(offset) == *old(offset),
    {
        if buf.len() < 2 || *offset > buf.len() - 2 {
            return Err(DecodeError::IncompleteParse);
        }
        let o = *offset;
        let value: u16 = buf[o] as u16 + 256 * (buf[o + 1] as u16);
        *offset = o + 2;
        Ok(value)
    }

    /// Reads a little-endian `u32` at `*offset` and moves the cursor past it.
    fn unpack_u32(buf: &[u8], offset: &mut usize) -> (r: Result<u32, DecodeError>)
        ensures
            *old(offset) + 4 <= buf@.len() ==> r == Ok::<u32, DecodeError>(
                le_u32(buf@, *old(offset) as int),
            ) && *final(offset) == *old(offset) + 4,
            *old(offset) + 4 > buf@.len() ==> r == Err::<u32, DecodeError>(
                DecodeError::IncompleteParse,
            ) && *final(offset) == *old(offset),
    {
        if buf.len() < 4 || *offset > buf.len() - 4 {
            return Err(DecodeError::IncompleteParse);
        }
        let o = *offset;
        let value: u32 = buf[o] as u32 + 256 * (buf[o + 1] as u32) + 65536 * (buf[o + 2] as u32)
            + 16777216 * (buf[o + 3] as u32);
        *offset = o + 4;
        Ok(value)
    }

    /// Reads the bit pattern of a little-endian `f32` at `*offset` and moves
    /// the cursor past it.
    fn unpack_f32(buf: &[u8], offset: &mut usize) -> (r: Result<u32, DecodeError>)
        ensures
            *old(offset) + 4 <= buf@.len() ==> r == Ok::<u32, DecodeError>(
                le_u32(buf@, *old(offset) as int),
            ) && *final(offset) == *old(offset) + 4,
            *old(offset) + 4 > buf@.len() ==> r == Err::<u32, DecodeError>(
                DecodeError::IncompleteParse,
            ) && *final(offset) == *old(offset),
    {
        Self::unpack_u32(buf, offset)
    }

    /// Reads four channel values followed by their four error flags at
    /// `*offset`, replacing the value of each flagged channel by the sentinel.
    fn unpack_channels(buf: &[u8], offset: &mut usize) -> (r: Result<[u32; 4], DecodeError>)
        requires
            *old(offset) + 20 <= buf@.len(),
        ensures
            *final(offset) == *old(offset) + 20,
            r matches Ok(values) && forall|i: int|
                0 <= i < 4 ==> #[trigger] values@[i] == channel_bits(
                    buf@,
                    *old(offset) + 4 * i,
                    *old(offset) + 16 + i,
                ),
    {
        let start: Ghost<int> = Ghost(*offset as int);
        let mut values: [u32; 4] = [0; 4];
        let mut k: usize = 0;
        while k < 4
            invariant
                k <= 4,
                start@ + 20 <= buf@.len(),
                *offset == start@ + 4 * k,
                forall|j: int| 0 <= j < k ==> #[trigger] values@[j] == le_u32(buf@, start@ + 4 * j),
            decreases 4 - k,
        {
            match Self::unpack_f32(buf, offset) {
                Ok(v) => values[k] = v,
                Err(e) => return Err(e),
            }
            k = k + 1;
        }
        let mut k: usize = 0;
        while k < 4
            invariant
                k <= 4,
                start@ + 20 <= buf@.len(),
                *offset == start@ + 16 + k,
                forall|j: int|
                    0 <= j < k ==> #[trigger] values@[j] == channel_bits(buf@, start@ + 4 * j, start@ + 16 + j),
                forall|j: int| k <= j < 4 ==> #[trigger] values@[j] == le_u32(buf@, start@ + 4 * j),
            decreases 4 - k,
        {
            match Self::unpack_u8(buf, offset) {
                Ok(flag) => {
                    if flag != 0 {
                        values[k] = NAN_BITS;
                    }
                },
                Err(e) => return Err(e),
            }
            k = k + 1;
        }
        Ok(values)
    }

    /// Whether the first five bytes of `buf` are the synchronization marker.
    pub(crate) fn starts_with_sync(buf: &[u8]) -> (r: bool)
        requires
            buf@.len() >= SYNC_LEN,
        ensures
            r == (buf@.subrange(0, SYNC_LEN as int) == sync_marker()),
    {
        let r = buf[0] == 0xaa && buf[1] == 0x55 && buf[2] == 0x00 && buf[3] == 0x34 && buf[4]
            == 0x01;
        if r {
            assert(buf@.subrange(0, SYNC_LEN as int) =~= sync_marker());
        } else {
            assert(buf@.subrange(0, SYNC_LEN as int) != sync_marker()) by {
                if buf@.subrange(0, SYNC_LEN as int) == sync_marker() {
                    assert(buf@.subrange(0, SYNC_LEN as int)[0] == buf@[0]);
                    assert(buf@.subrange(0, SYNC_LEN as int)[1] == buf@[1]);
                    assert(buf@.subrange(0, SYNC_LEN as int)[2] == buf@[2]);
                    assert(buf@.subrange(0, SYNC_LEN as int)[3] == buf@[3]);
                    assert(buf@.subrange(0, SYNC_LEN as int)[4] == buf@[4]);
                }
            }
        }
        r
    }

    /// Decodes the frame `buf`, stamping the reading with `timestamp`.
    pub fn parse_at(buf: &[u8], timestamp: std::time::SystemTime) -> (r: Result<Reading, DecodeError>)
        ensures
            decode_outcome(buf@, timestamp, r),
    {
        if buf.len() != Self::N_BYTES {
            return Err(DecodeError::WrongSize);
        }
        if !Self::starts_with_sync(buf) {
            return Err(DecodeError::BadSync);
        }
        let mut offset: usize = Self::N_SYNC_BYTES;
        let current_temps_c = match Self::unpack_channels(buf, &mut offset) {
            Ok(v) => v,
            Err(e) => return Err(e),
        };
        let held_temps_c = match Self::unpack_channels(buf, &mut offset) {
            Ok(v) => v,
            Err(e) => return Err(e),
        };
        let meter_temp_c = match Self::unpack_f32(buf, &mut offset) {
            Ok(v) => v,
            Err(e) => return Err(e),
        };
        match Self::unpack_u32(buf, &mut offset) {
            Ok(_unknown) => {},
            Err(e) => return Err(e),
        }
        let hold_type_raw = match Self::unpack_u8(buf, &mut offset) {
            Ok(v) => v,
            Err(e) => return Err(e),
        };
        let hold_type = match HoldType::try_from(hold_type_raw) {
            Ok(h) => h,
            Err(()) => return Err(DecodeError::InvalidHoldType),
        };
        match Self::unpack_u16(buf, &mut offset) {
            Ok(_trailer) => {},
            Err(e) => return Err(e),
        }
        if offset == Self::N_BYTES {
            Ok(Reading { timestamp, current_temps_c, held_temps_c, hold_type, meter_temp_c })
        } else {
            Err(DecodeError::IncompleteParse)
        }
    }

    /// Decodes the frame `buf`, stamping the reading with the current time.
    pub fn parse(buf: &[u8]) -> (r: Result<Reading, DecodeError>)
        ensures
            match r {
                Ok(reading) => frame_error(buf@) is None && decodes_to(buf@, reading),
                Err(e) => frame_error(buf@) == Some(e),
            },
    {
        let timestamp = std::time::SystemTime::now();
        Self::parse_at(buf, timestamp)
    }
}

} // verus!
