use sensor_log::calculate::quick_align;
use sensor_log::flash::{
    check_access, check_reset, count_magic_bytes, flash_capacity, magic_as_bytes, plan_open,
    FlashError, FlashHEADER, OpenPlan,
};
use sensor_log::ntp::{next_sync_step, NtpConfig, SyncStatus, SyncStep};
use sensor_log::pins::{default_pin_config, validate_config, PinConfig};
use sensor_log::time_db::{database_size, size_mismatch, slot_size_for};

#[test]
fn quick_align_rounds_up() {
    assert_eq!(quick_align(0, 4096), 0);
    assert_eq!(quick_align(1, 4096), 4096);
    assert_eq!(quick_align(4096, 4096), 4096);
    assert_eq!(quick_align(4097, 4096), 8192);
    assert_eq!(quick_align(10, 3), 12);
    assert_eq!(quick_align(9, 3), 9);
    assert_eq!(quick_align(7, 0), 7);
    assert_eq!(quick_align(usize::MAX - 2, 3), usize::MAX);
    assert_eq!(quick_align(usize::MAX, 1), usize::MAX);
}

#[test]
fn flash_header_fields() {
    let h = FlashHEADER::new(8192, 4096);
    assert!(h.is_valid());
    assert_eq!(h.get_size(), 8192);
    assert_eq!(h.get_sector_size(), 4096);
    assert_eq!(count_magic_bytes(), 12);
    assert_eq!(&magic_as_bytes(), b"CUSTOM_FLASH");
    let bytes = h.to_bytes().unwrap();
    assert_eq!(bytes.len(), 20);
    let back = FlashHEADER::from_bytes(&bytes).unwrap();
    assert!(back.is_valid());
    assert_eq!(back.get_size(), 8192);
    assert_eq!(back.get_sector_size(), 4096);
    let mut bad = bytes.clone();
    bad[0] = b'X';
    assert!(!FlashHEADER::from_bytes(&bad).unwrap().is_valid());
    assert!(FlashHEADER::from_bytes(&bytes[..19]).is_none());
}

#[test]
fn flash_open_plan() {
    let valid = FlashHEADER::new(12288, 4096);
    assert_eq!(plan_open(&valid, 0, 4096, false), Err(FlashError::Unknown(-1)));
    assert_eq!(plan_open(&valid, 5000, 4096, false), Ok(OpenPlan::Keep(12288)));
    assert_eq!(plan_open(&valid, 5000, 4096, true), Ok(OpenPlan::Reset(12288)));
    let mut raw = valid.to_bytes().unwrap();
    raw[3] = 0;
    let invalid = FlashHEADER::from_bytes(&raw).unwrap();
    assert_eq!(plan_open(&invalid, 4096, 4096, false), Ok(OpenPlan::Reset(8192)));
}

#[test]
fn flash_reset_and_access_checks() {
    assert_eq!(check_reset(0, 4096), Err(FlashError::Unknown(-1)));
    assert_eq!(check_reset(5000, 4096), Err(FlashError::NotAligned(5000, 4096)));
    assert_eq!(check_reset(8192, 4096), Ok(()));
    assert_eq!(check_access(0, 16, 8192, 4096), Ok(4096));
    assert_eq!(check_access(4080, 16, 8192, 4096), Ok(8176));
    assert_eq!(check_access(4081, 16, 8192, 4096), Err(FlashError::OutOfBounds(4081, 16, 8192)));
    assert_eq!(
        check_access(usize::MAX, 1, 8192, 4096),
        Err(FlashError::OutOfBounds(usize::MAX, 1, 8192))
    );
    assert_eq!(flash_capacity(8192, 4096), 4096);
}

#[test]
fn pin_config_validation() {
    assert_eq!(validate_config(&default_pin_config()), Ok(()));
    let dup = PinConfig { temperature_sensor: 5, spi_sck: 2, spi_mosi: 5, spi_cs: 18, spi_dc: 12 };
    let err = validate_config(&dup).unwrap_err();
    assert!(err.contains('5'));
    let invalid = PinConfig { temperature_sensor: 5, spi_sck: 2, spi_mosi: 0, spi_cs: 20, spi_dc: 12 };
    let err = validate_config(&invalid).unwrap_err();
    assert!(err.contains("20"));
    let both = PinConfig { temperature_sensor: 30, spi_sck: 30, spi_mosi: 0, spi_cs: 1, spi_dc: 2 };
    assert!(validate_config(&both).unwrap_err().ends_with(" is used more than once"));
    assert!(validate_config(&invalid).unwrap_err().ends_with(" is not a usable GPIO"));
    let edge = PinConfig { temperature_sensor: 21, spi_sck: 19, spi_mosi: 0, spi_cs: 1, spi_dc: 2 };
    assert_eq!(validate_config(&edge), Ok(()));
}

#[test]
fn ntp_builders() {
    let c = NtpConfig::new();
    assert_eq!(c.servers, vec!["pool.ntp.org", "time.google.com", "time.cloudflare.com"]);
    assert_eq!(c.timeout_secs, 30);
    assert!(c.wait_for_sync);
    let d = NtpConfig::default();
    assert_eq!(d.servers, c.servers);
    assert_eq!(d.timeout_secs, 30);
    let c = c.china_servers().timeout(10).wait_for_sync(false);
    assert_eq!(c.servers.len(), 4);
    assert_eq!(c.servers[0], "ntp.aliyun.com");
    assert_eq!(c.timeout_secs, 10);
    assert!(!c.wait_for_sync);
}

#[test]
fn ntp_sync_steps() {
    assert_eq!(next_sync_step(SyncStatus::Completed, 99_999, 1), SyncStep::Synced);
    assert_eq!(next_sync_step(SyncStatus::InProgress, 30_000, 30), SyncStep::Poll);
    assert_eq!(next_sync_step(SyncStatus::InProgress, 30_001, 30), SyncStep::TimedOut);
    assert_eq!(next_sync_step(SyncStatus::Reset, 0, 0), SyncStep::Poll);
    assert_eq!(next_sync_step(SyncStatus::Reset, u64::MAX, u64::MAX), SyncStep::Poll);
}

#[test]
fn database_sizing() {
    assert_eq!(slot_size_for(4), 8);
    assert_eq!(slot_size_for(6), 8);
    assert_eq!(slot_size_for(7), 8);
    assert_eq!(slot_size_for(8), 12);
    // 20480 entries of 8 bytes, a fifth more, rounded to 4096.
    assert_eq!(database_size(4096 * 5, 8), 196608);
    assert_eq!(database_size(10, 8), 4096);
    let h = FlashHEADER::new(196608 + 4096, 4096);
    assert!(!size_mismatch(Some(&h), 196608));
    assert!(size_mismatch(Some(&h), 4096));
    assert!(size_mismatch(None, 4096));
    let odd = FlashHEADER::new(100, 4096);
    assert!(size_mismatch(Some(&odd), 0));
}
