//! Admission control and identifier resolution for outgoing Lightning payments.
//!
//! The library decides *what* to pay (turning an LNURL, a lightning address, a
//! BOLT12 offer or a BIP353 DNS record into a concrete invoice) and *whether* the
//! payment fits a rolling spending budget. Network and daemon access live with the
//! caller; every decision between those calls is made here.
pub mod budget;
pub mod config;
pub mod fee;
pub mod gateway;
pub mod json;
pub mod lnurl;
pub mod offer;
pub mod period;
pub mod resolve;
pub mod text;
pub mod version;
