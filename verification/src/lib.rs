//! A boot-time PIN gate: prompt for a PIN, derive a memory-hard measurement of
//! it, extend that into a TPM PCR, then start the next boot loader.

pub mod boot;
pub mod bootentry;
pub mod bootorder;
pub mod bytes;
pub mod devpath;
pub mod flow;
pub mod input;
pub mod loader;
pub mod log;
pub mod measure;
pub mod nvram;
pub mod pcr;
pub mod prompt;
pub mod scrub;
pub mod smbios;
pub mod status;
pub mod steps;
pub mod text;
pub mod tpm;
pub mod ucs2;
