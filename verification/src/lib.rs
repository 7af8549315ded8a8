//! Resolves an HTTP request's host into a redirect destination that the
//! domain owner publishes as a DNS TXT record.
//!
//! A TXT record payload such as `v=1; target=https://example.com` is decoded
//! by [`redirector::Redirect::parse`] into a redirect configuration; the
//! selection policy in [`redirector::resolve_records`] picks one
//! configuration out of the payloads that a DNS lookup returned; and
//! [`redirector::Redirect::target_from`] computes the destination URL for a
//! request path. The DNS transport and the HTTP server around this library
//! are unverified collaborators: they hand in the raw TXT payloads and carry
//! the computed destination out.

pub mod grammar;
pub mod redirector;
pub mod target;
