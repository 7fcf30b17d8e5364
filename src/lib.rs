//! Host-side access to Solo 2 security keys over smartcard (APDU) and
//! USB-HID (CTAPHID) channels: framing, a uniform transport, device identity
//! and the firmware update procedure.
pub mod apdu;
pub mod apps;
pub mod device;
pub mod error;
pub mod firmware;
pub mod hexcode;
pub mod pki;
pub mod transport;
pub mod text;
pub mod update;
pub mod uuid;
