//! Time synchronisation settings, and the decision taken at each poll of the
//! synchronisation status.
use vstd::prelude::*;

verus! {

/// Servers to synchronise from, how long to wait, and whether to wait at all.
pub struct NtpConfig {
    /// Server host names, the first one preferred.
    pub servers: Vec<String>,
    /// How long to wait for synchronisation, in seconds.
    pub timeout_secs: u64,
    /// Whether to block until synchronisation completes or times out.
    pub wait_for_sync: bool,
}

/// The status that the time service reports.
#[derive(Debug, Clone, Copy, PartialEq, Eq, Structural)]
pub enum SyncStatus {
    Reset,
    InProgress,
    Completed,
}

/// What to do after a poll of the status.
#[derive(Debug, Clone, Copy, PartialEq, Eq, Structural)]
pub enum SyncStep {
    /// The clock is synchronised: stop waiting.
    Synced,
    /// The wait has run past its timeout: stop waiting, synchronisation goes on in the
    /// background.
    TimedOut,
    /// Sleep and poll again.
    Poll,
}

/// The decision after a poll: done once synchronised, given up once the elapsed time
/// exceeds the timeout, otherwise poll again.
pub fn next_sync_step(status: SyncStatus, elapsed_millis: u64, timeout_secs: u64) -> (r: SyncStep)
    ensures
        status == SyncStatus::Completed ==> r == SyncStep::Synced,
        status != SyncStatus::Completed && elapsed_millis > timeout_secs * 1000 ==> r
            == SyncStep::TimedOut,
        status != SyncStatus::Completed && elapsed_millis <= timeout_secs * 1000 ==> r
            == SyncStep::Poll,
{
    match status {
        SyncStatus::Completed => SyncStep::Synced,
        _ => {
            if (elapsed_millis as u128) > (timeout_secs as u128) * 1000 {
                SyncStep::TimedOut
            } else {
                SyncStep::Poll
            }
        },
    }
}

impl Default for NtpConfig {
    fn default() -> (r: Self)
        ensures
            r.servers@.len() == 3,
            r.timeout_secs == 30,
            r.wait_for_sync,
    {
        NtpConfig::new()
    }
}

impl NtpConfig {
    /// Three global servers, a 30 second timeout, waiting for synchronisation.
    pub fn new() -> (r: Self)
        ensures
            r.servers@.len() == 3,
            r.servers@[0]@ == "pool.ntp.org"@,
            r.servers@[1]@ == "time.google.com"@,
            r.servers@[2]@ == "time.cloudflare.com"@,
            r.timeout_secs == 30,
            r.wait_for_sync,
    {
        let mut servers: Vec<String> = Vec::new();
        servers.push("pool.ntp.org".to_owned());
        servers.push("time.google.com".to_owned());
        servers.push("time.cloudflare.com".to_owned());
        NtpConfig { servers, timeout_secs: 30, wait_for_sync: true }
    }

    /// Replaces the servers by four servers in China.
    pub fn china_servers(self) -> (r: Self)
        ensures
            r.servers@.len() == 4,
            r.servers@[0]@ == "ntp.aliyun.com"@,
            r.servers@[1]@ == "ntp1.aliyun.com"@,
            r.servers@[2]@ == "time.pool.aliyun.com"@,
            r.servers@[3]@ == "cn.ntp.org.cn"@,
            r.timeout_secs == self.timeout_secs,
            r.wait_for_sync == self.wait_for_sync,
    {
        let mut servers: Vec<String> = Vec::new();
        servers.push("ntp.aliyun.com".to_owned());
        servers.push("ntp1.aliyun.com".to_owned());
        servers.push("time.pool.aliyun.com".to_owned());
        servers.push("cn.ntp.org.cn".to_owned());
        NtpConfig { servers, timeout_secs: self.timeout_secs, wait_for_sync: self.wait_for_sync }
    }

    /// Sets the timeout, in seconds.
    pub fn timeout(self, secs: u64) -> (r: Self)
        ensures
            r.servers == self.servers,
            r.timeout_secs == secs,
            r.wait_for_sync == self.wait_for_sync,
    {
        NtpConfig { servers: self.servers, timeout_secs: secs, wait_for_sync: self.wait_for_sync }
    }

    /// Sets whether to wait for synchronisation.
    pub fn wait_for_sync(self, wait: bool) -> (r: Self)
        ensures
            r.servers == self.servers,
            r.timeout_secs == self.timeout_secs,
            r.wait_for_sync == wait,
    {
        NtpConfig { servers: self.servers, timeout_secs: self.timeout_secs, wait_for_sync: wait }
    }
}

} // verus!
