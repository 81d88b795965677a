//! What the agent computes from the operating system's figures.
//!
//! The figures themselves are read by the caller and handed in as plain
//! numbers. Sizes arrive in bytes and leave in the units of the report: KiB
//! for memory and swap, MiB for disk.
use crate::error::AgentError;
use crate::numeral::{is_numeral, Numeral};
use vstd::prelude::*;
use vstd::string::*;

verus! {

/// Seconds between the two counter readings from which the network rates are
/// taken. With one second between them, the difference of two readings is a
/// rate in bytes per second.
pub const SAMPLE_WINDOW_SECS: u64 = 1;

/// Seconds after which a reachability probe is given up.
pub const PROBE_TIMEOUT_SECS: u64 = 2;

/// Seconds since the machine was started, from the start and the present,
/// both in seconds since the epoch. A start that lies in the future is an
/// error.
pub fn get_uptime(boot_time: u64, now: u64) -> (uptime: Result<u64, AgentError>)
    ensures
        match uptime {
            Ok(seconds) => boot_time <= now && seconds == now - boot_time,
            Err(error) => boot_time > now && (error matches AgentError::Metric { detail }
                && detail@ == "boot time is later than the present"@),
        },
{
    if boot_time <= now {
        Ok(now - boot_time)
    } else {
        Err(AgentError::Metric { detail: "boot time is later than the present".to_owned() })
    }
}

/// Admits the one-minute load average as the caller rendered it: it is kept
/// as it is if it is a number, and an error if it is not.
pub fn get_load(rendered: &[u8]) -> (load: Result<Numeral, AgentError>)
    ensures
        load is Ok <==> is_numeral(rendered@),
        load matches Ok(numeral) ==> numeral@ == rendered@,
        load matches Err(error) ==> (error matches AgentError::Metric { detail } && detail@
            == "load average is not a number"@),
{
    match Numeral::parse(rendered) {
        Some(numeral) => Ok(numeral),
        None => Err(AgentError::Metric { detail: "load average is not a number".to_owned() }),
    }
}

/// Admits the processor's busy share in percent as the caller rendered it.
pub fn get_cpu(rendered: &[u8]) -> (cpu: Result<Numeral, AgentError>)
    ensures
        cpu is Ok <==> is_numeral(rendered@),
        cpu matches Ok(numeral) ==> numeral@ == rendered@,
        cpu matches Err(error) ==> (error matches AgentError::Metric { detail } && detail@
            == "processor share is not a number"@),
{
    match Numeral::parse(rendered) {
        Some(numeral) => Ok(numeral),
        None => Err(AgentError::Metric { detail: "processor share is not a number".to_owned() }),
    }
}

/// Memory in KiB as (total, used, swap total, swap used), from the same four
/// figures in bytes. Every reading is answered. Each figure is rounded down
/// to whole KiB, so what is used stays within the total wherever it was
/// within it in bytes.
pub fn get_memory(total: u64, used: u64, swap_total: u64, swap_used: u64) -> (memory: (
    u64,
    u64,
    u64,
    u64,
))
    ensures
        memory.0 == total / 1024,
        memory.1 == used / 1024,
        memory.2 == swap_total / 1024,
        memory.3 == swap_used / 1024,
        used <= total ==> memory.1 <= memory.0,
        swap_used <= swap_total ==> memory.3 <= memory.2,
{
    (total / 1024, used / 1024, swap_total / 1024, swap_used / 1024)
}

/// Disk space in MiB as (total, used), from the same in bytes.
pub fn get_hdd(total: u64, used: u64) -> (hdd: (u64, u64))
    ensures
        hdd.0 == total / 1024 / 1024,
        hdd.1 == used / 1024 / 1024,
{
    (total / 1024 / 1024, used / 1024 / 1024)
}

/// The interfaces' byte counters at one instant, summed over all of them.
#[derive(Clone, Copy, Debug, PartialEq, Eq, Structural)]
pub struct NetCounters {
    pub bytes_recv: u64,
    pub bytes_sent: u64,
}

/// How far a counter went up from `before` to `after`. A counter that went
/// down was reset in between, and counts as not having moved.
pub open spec fn rise(before: u64, after: u64) -> nat {
    if after >= before {
        (after - before) as nat
    } else {
        0
    }
}

/// The network sampler. It remembers the counters it saw last.
#[derive(Debug, PartialEq, Eq)]
pub struct Network {
    last: Option<NetCounters>,
}

impl View for Network {
    type V = Option<NetCounters>;

    closed spec fn view(&self) -> Option<NetCounters> {
        self.last
    }
}

impl Network {
    /// A sampler that has seen no counters yet.
    pub fn new() -> (network: Network)
        ensures
            network@ is None,
    {
        Network { last: None }
    }

    /// The counters seen last, if any were.
    pub fn last(&self) -> (last: Option<NetCounters>)
        ensures
            last == self@,
    {
        self.last
    }

    /// Receive and transmit rates in bytes per second, from two readings
    /// taken [`SAMPLE_WINDOW_SECS`] apart. A counter that went down yields 0.
    pub fn get_speed(&mut self, before: NetCounters, after: NetCounters) -> (speed: (u64, u64))
        ensures
            speed.0 == rise(before.bytes_recv, after.bytes_recv),
            speed.1 == rise(before.bytes_sent, after.bytes_sent),
            speed.0 <= after.bytes_recv,
            speed.1 <= after.bytes_sent,
            final(self)@ == Some(after),
    {
        let rx: u64 = if after.bytes_recv >= before.bytes_recv {
            after.bytes_recv - before.bytes_recv
        } else {
            0
        };
        let tx: u64 = if after.bytes_sent >= before.bytes_sent {
            after.bytes_sent - before.bytes_sent
        } else {
            0
        };
        self.last = Some(after);
        (rx, tx)
    }

    /// Bytes received and sent since the counters began, from one reading.
    pub fn get_traffic(&mut self, reading: NetCounters) -> (traffic: (u64, u64))
        ensures
            traffic.0 == reading.bytes_recv,
            traffic.1 == reading.bytes_sent,
            final(self)@ == Some(reading),
    {
        self.last = Some(reading);
        (reading.bytes_recv, reading.bytes_sent)
    }
}

/// The address to probe for reachability over the given version of IP.
/// Versions other than 4 and 6 have none.
pub open spec fn probe_target(ip_version: u8) -> Option<Seq<char>> {
    if ip_version == 4 {
        Some("http://ipv4.google.com"@)
    } else if ip_version == 6 {
        Some("http://ipv6.google.com"@)
    } else {
        None
    }
}

/// The address to probe for reachability over the given version of IP.
pub fn probe_url(ip_version: u8) -> (url: Option<&'static str>)
    ensures
        url is Some <==> probe_target(ip_version) is Some,
        url matches Some(text) ==> Some(text@) == probe_target(ip_version),
{
    if ip_version == 4 {
        Some("http://ipv4.google.com")
    } else if ip_version == 6 {
        Some("http://ipv6.google.com")
    } else {
        None
    }
}

/// Whether the network is reachable over the given version of IP, from
/// whether the probe of [`probe_url`] was answered in time. A version that
/// has no probe is not reachable.
pub fn get_network(ip_version: u8, answered: bool) -> (online: bool)
    ensures
        online == (probe_target(ip_version) is Some && answered),
{
    (ip_version == 4 || ip_version == 6) && answered
}

} // verus!
