//! One measurement: a unix timestamp with temperature and humidity in tenths.
use vstd::bytes::{spec_u32_from_le_bytes, spec_u32_to_le_bytes, u32_from_le_bytes, u32_to_le_bytes};
use vstd::prelude::*;

verus! {

/// A fixed six-byte measurement: timestamp in seconds, temperature in tenths of a
/// degree Celsius, humidity in tenths of a percent.
#[derive(Debug, Clone, Copy, PartialEq, Eq, Structural)]
pub struct InfoSlot {
    pub timestamp: u32,
    pub temperature: i8,
    pub humidity: u8,
}

/// Length of the serialized form of a measurement.
pub const SLOT_SIZE: usize = 6;

/// The six bytes of a measurement: little-endian timestamp, temperature, humidity.
pub open spec fn slot_image(s: InfoSlot) -> Seq<u8> {
    spec_u32_to_le_bytes(s.timestamp) + seq![s.temperature as u8, s.humidity]
}

/// The measurement that six bytes stand for.
pub open spec fn slot_of_bytes(b: Seq<u8>) -> InfoSlot {
    InfoSlot {
        timestamp: spec_u32_from_le_bytes(b.subrange(0, 4)),
        temperature: b[4] as i8,
        humidity: b[5],
    }
}

/// Reading back the image of a measurement gives the measurement.
pub proof fn lemma_slot_round_trip(s: InfoSlot)
    ensures
        slot_image(s).len() == SLOT_SIZE,
        slot_of_bytes(slot_image(s)) == s,
{
    vstd::bytes::lemma_auto_spec_u32_to_from_le_bytes();
    let b = slot_image(s);
    assert(b.subrange(0, 4) =~= spec_u32_to_le_bytes(s.timestamp));
    let t = s.temperature;
    assert((t as u8) as i8 == t) by (bit_vector);
}

impl InfoSlot {
    pub fn new(timestamp: u32, temperature_tenths: i8, humidity_tenths: u8) -> (r: Self)
        ensures
            r.timestamp == timestamp,
            r.temperature == temperature_tenths,
            r.humidity == humidity_tenths,
    {
        InfoSlot { timestamp, temperature: temperature_tenths, humidity: humidity_tenths }
    }

    pub fn get_unix_time(&self) -> (r: u32)
        ensures
            r == self.timestamp,
    {
        self.timestamp
    }

    pub fn temperature_raw(&self) -> (r: i8)
        ensures
            r == self.temperature,
    {
        self.temperature
    }

    pub fn humidity_raw(&self) -> (r: u8)
        ensures
            r == self.humidity,
    {
        self.humidity
    }

    pub fn timestamp_raw(&self) -> (r: u32)
        ensures
            r == self.timestamp,
    {
        self.timestamp
    }

    pub fn set_unix_time(&mut self, timestamp: u32)
        ensures
            *final(self) == (InfoSlot { timestamp, ..*old(self) }),
    {
        self.timestamp = timestamp;
    }

    /// Serializes the measurement into its six-byte form.
    pub fn as_bytes(&self) -> (r: [u8; SLOT_SIZE])
        ensures
            r@ == slot_image(*self),
    {
        let ts = u32_to_le_bytes(self.timestamp);
        proof {
            vstd::bytes::lemma_auto_spec_u32_to_from_le_bytes();
        }
        let r = [ts[0], ts[1], ts[2], ts[3], self.temperature as u8, self.humidity];
        assert(r@ =~= slot_image(*self));
        r
    }

    /// Rebuilds a measurement from its six-byte form.
    pub fn from_bytes(bytes: [u8; SLOT_SIZE]) -> (r: Self)
        ensures
            r == slot_of_bytes(bytes@),
    {
        let ts_bytes = [bytes[0], bytes[1], bytes[2], bytes[3]];
        let timestamp = u32_from_le_bytes(&ts_bytes);
        assert(ts_bytes@ =~= bytes@.subrange(0, 4));
        InfoSlot { timestamp, temperature: bytes[4] as i8, humidity: bytes[5] }
    }
}

} // verus!
