//! Default settings of the tool.

use vstd::prelude::*;

verus! {

/// Static address of the adapter while a router is flashed; also the gateway that DHCP announces.
pub const STATIC_IP: &'static str = "192.168.31.1";

/// Mask of the static address.
pub const STATIC_MASK: &'static str = "255.255.255.0";

/// First address of the DHCP pool.
pub const POOL_START: &'static str = "192.168.31.100";

/// `STATIC_IP` as a number.
pub const STATIC_IP_VALUE: u32 = 0xC0A8_1F01;

/// `POOL_START` as a number.
pub const POOL_START_VALUE: u32 = 0xC0A8_1F64;

/// Number of addresses in the pool.
pub const POOL_SIZE: u32 = 100;

/// Lease time in seconds: two days.
pub const LEASE_SECONDS: u32 = 2 * 24 * 3600;

/// UDP port of a DHCP server.
pub const DHCP_SERVER_PORT: u16 = 67;

/// UDP port of a DHCP client.
pub const DHCP_CLIENT_PORT: u16 = 68;

/// UDP port of a TFTP server.
pub const TFTP_PORT: u16 = 69;

/// Seconds a TFTP session waits for a packet unless the client asks otherwise.
pub const TFTP_DEFAULT_TIMEOUT_SECONDS: u32 = 5;

/// Timeouts in a row after which a TFTP session is given up.
pub const TFTP_MAX_RETRIES: u32 = 5;

/// Address of the cloud list of firmware images.
pub const API_URL: &'static str = "http://api.miwifi.com/data/tffp_rom_link_info";

/// Name under which the tool asks for pages.
pub const USER_AGENT: &'static str = "Mozilla/5.0 MiWiFiRepairTool/2.0";

/// Seconds without a request after which the user is warned.
pub const IDLE_WARN_SECS: u64 = 45;

/// Seconds between repeated warnings.
pub const IDLE_REPEAT_SECS: u64 = 30;

/// Seconds without a request after which a session stops by itself.
pub const IDLE_AUTO_STOP_SECS: u64 = 300;

/// Log lines shown in the status view.
pub const LOG_SHOW_LINES: usize = 12;

/// Log lines kept for the views.
pub const LOG_KEEP_LINES: usize = 200;

/// The settings: a server at 192.168.31.1 with a hundred addresses from 192.168.31.100 on for two days
/// each, and a warning after 45 seconds of silence, another every 30 and a stop after 300.
pub proof fn lemma_settings()
    ensures
        STATIC_IP_VALUE == ((192 * 256 + 168) * 256 + 31) * 256 + 1,
        POOL_START_VALUE == ((192 * 256 + 168) * 256 + 31) * 256 + 100,
        POOL_SIZE == 100,
        LEASE_SECONDS == 172800,
        DHCP_SERVER_PORT == 67,
        DHCP_CLIENT_PORT == 68,
        TFTP_PORT == 69,
        TFTP_DEFAULT_TIMEOUT_SECONDS == 5,
        TFTP_MAX_RETRIES == 5,
        IDLE_WARN_SECS == 45,
        IDLE_REPEAT_SECS == 30,
        IDLE_AUTO_STOP_SECS == 300,
        LOG_SHOW_LINES == 12,
        LOG_KEEP_LINES == 200,
{
}

} // verus!
