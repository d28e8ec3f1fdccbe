//! Verified core of a repair tool for MiWiFi routers.

pub mod bytes;
pub mod config;
pub mod console;
pub mod dhcp;
pub mod dhcp_duties;
pub mod dhcp_laws;
pub mod dhcp_wire;
pub mod elevated;
pub mod elevated_laws;
pub mod helper;
pub mod lease_table;
pub mod leases;
pub mod lifecycle;
pub mod lifecycle_laws;
pub mod listing;
pub mod log;
pub mod menu;
pub mod menu_laws;
pub mod net;
pub mod nic;
pub mod nic_laws;
pub mod paths;
pub mod probe;
pub mod rom;
pub mod selftest;
pub mod selftest_laws;
pub mod session;
pub mod session_laws;
pub mod status;
pub mod status_laws;
pub mod stopping;
pub mod system;
pub mod text;
pub mod text_laws;
pub mod tftp;
pub mod tftp_duties;
pub mod tftp_laws;
pub mod tftp_wire;
pub mod wide;
