//! Verified core of the DahuangDog system watchdog: text normalisation,
//! credential checks, anomaly detection, action confirmation, application
//! grouping, storage scanning and security assessment.
#![allow(unused_imports)]

pub mod actions;
pub mod ai;
pub mod baseline;
pub mod detector;
pub mod grouping;
pub mod hardware;
pub mod health;
pub mod ids;
pub mod keyed;
pub mod lifecycle;
pub mod maintenance;
pub mod network;
pub mod notify;
pub mod order;
pub mod process;
pub mod security;
pub mod settings;
pub mod storage_scan;
pub mod text;
pub mod types;
pub mod usage;
pub mod version_info;
