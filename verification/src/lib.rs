//! A two-phase software-licensing protocol: a client obtains a machine-bound
//! activation token, derives a short checksum key from it for out-of-band
//! verification, and then obtains and verifies a license artifact bound to the
//! same machine identity.

pub mod ambient;
pub mod b64;
pub mod checksum;
pub mod cipher;
pub mod envelope;
pub mod errors;
pub mod liclient;
pub mod licore;
pub mod text;

pub use errors::LiError;
pub use liclient::LiClient;
pub use licore::LiCoreV1;
