//! A durable ring-buffered log of sensor measurements over fixed byte regions:
//! CRC-checked fixed-size records, redundant generation-versioned metadata and a
//! two-phase recovery protocol, with the small helpers of the sensor node around it.

pub mod calculate;
pub mod circular_queue;
pub mod crc;
pub mod crc_laws;
pub mod flash;
pub mod meta;
pub mod ntp;
pub mod pins;
pub mod record;
pub mod recovery;
pub mod ring;
pub mod slot;
pub mod storage;
pub mod time_db;
