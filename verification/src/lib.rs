//! A guard for a home network: finds strangers' devices, floods and attacks, and bans
//! where they come from.
//!
//! The library decides; it does no input or output of its own. Clocks, files, the
//! network, the firewall and the database are the caller's: it hands in what they say and
//! carries out what comes back. Time on the monotonic clock is in nanoseconds; what the
//! wall clock shows is a [`clock::WallClock`].

// Addresses and networks.
pub mod addr;
pub mod arp;
pub mod network;
pub mod ranges;

// Floods.
pub mod antiflood;
pub mod bans;
pub mod ddos;
pub mod ddos_laws;
pub mod firewall;
pub mod flood_laws;
pub mod packet;
pub mod timeline;
pub mod window;

// Devices.
pub mod ban_manager;
pub mod detector;
pub mod kayoli;
pub mod metrics;
pub mod rate_limiter;
pub mod scan;
pub mod store;
pub mod training;

// Keys, consoles, settings.
pub mod commands;
pub mod config;
pub mod console_manager;
pub mod journal;
pub mod key_system;
pub mod perimeter;

// What the others rest on.
pub mod clock;
pub mod dash;
pub mod order;
pub mod table;
pub mod tally;
pub mod text;
pub mod words;
