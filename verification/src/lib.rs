//! Client library for Tigron's SOAP SMS API.
//!
//! The library renders the SOAP request envelopes, reads the key/value
//! pairs out of response bodies, and drives the two-step send flow
//! (`user.info`, then `sms.send_sms`). Performing the HTTP POSTs is
//! left to the caller's transport.

pub mod tokens;
pub mod reader;
pub mod client;
pub mod facade;
