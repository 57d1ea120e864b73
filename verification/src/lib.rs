//! Alarm synchronisation for a small networked timer: the alarm state machine,
//! the nine-byte command frame, the relay and follower connection logic, and
//! the stored WiFi credential record.

pub mod alarm;
pub mod bounded;
pub mod credentials;
pub mod follower;
pub mod network;
pub mod provisioning;
pub mod relay;
