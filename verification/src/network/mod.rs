//! Network egress of the gateway: which provider carries the traffic, which
//! profile it uses, and how a switch from one to another is carried out.

pub mod address;
pub mod discovery;
pub mod overlay;
pub mod profile;
pub mod provider;
pub mod rotation;
pub mod selection;
pub mod settings;
pub mod shuffle;
pub mod stack;
pub mod state;
pub mod status;
pub mod wireguard;
