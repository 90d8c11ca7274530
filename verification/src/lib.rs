//! Verified core of a small certificate-authority web portal: one-time
//! passwords kept in a line-based store, certificate signing requests checked
//! against the requester's e-mail, JSON Web Tokens for the session, and the
//! decisions that the portal's pages take.

pub mod text;
pub mod otp;
pub mod csr;
pub mod jwt;
pub mod mail;
pub mod reply;
