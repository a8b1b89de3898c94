//! The dashboard's request policies: run and restore bookkeeping, the
//! parsing of route paths and query strings, and the SMB share setup
//! decisions. The HTTP server, the event store and the Windows calls
//! stay with the caller.

pub mod models;
pub mod restore;
pub mod routes;
pub mod runs;
pub mod smb;
