//! The command line of the gateway.
use vstd::prelude::*;
use vstd::string::StringExecFns;
use vstd::utf8::encode_utf8;

use crate::bootstrap::{BootstrapConfig, TlsOptions};
use crate::hex::{decode_hex_bytes, unhex, HexError};
use crate::identity::PubKey;
use crate::text::{dec, dec_string};

verus! {

/// How log lines are written.
#[derive(Debug, Clone, Copy, PartialEq, Eq, Structural)]
pub enum LogFormat {
    /// For people.
    Text,
    /// For programs: one object on each line.
    Json,
}

/// The options of the command line.
#[derive(Debug, Clone)]
pub struct Cli {
    pub addr: String,
    pub storage: String,
    pub catalog: Option<String>,
    pub whitelist: Option<String>,
    pub admin_pubkey: Option<PubKey>,
    pub seed_photo: Option<String>,
    pub no_seed: bool,
    pub metrics_listen: Option<String>,
    pub log: String,
    pub log_format: LogFormat,
    pub tls: bool,
    pub mtls: bool,
    pub tls_cert: Option<String>,
    pub tls_key: Option<String>,
    pub tls_ca_cert: Option<String>,
}

impl Cli {
    /// What the gateway needs to know to start. A certificate of the client is asked for over
    /// an encrypted connection only, so that asking for it switches encryption on. The search
    /// by meaning and the history of versions have no option, and stay off.
    pub fn bootstrap_config(self) -> (r: BootstrapConfig)
        ensures
            r == (BootstrapConfig {
                storage: self.storage,
                catalog: self.catalog,
                whitelist: self.whitelist,
                admin_pubkey: self.admin_pubkey,
                seed_photo: self.seed_photo,
                no_seed: self.no_seed,
                tls: TlsOptions {
                    enabled: self.tls || self.mtls,
                    mtls: self.mtls,
                    cert_path: self.tls_cert,
                    key_path: self.tls_key,
                    ca_path: self.tls_ca_cert,
                },
                enable_embed: false,
                enable_versions: false,
            }),
    {
        BootstrapConfig {
            storage: self.storage,
            catalog: self.catalog,
            whitelist: self.whitelist,
            admin_pubkey: self.admin_pubkey,
            seed_photo: self.seed_photo,
            no_seed: self.no_seed,
            tls: TlsOptions {
                enabled: self.tls || self.mtls,
                mtls: self.mtls,
                cert_path: self.tls_cert,
                key_path: self.tls_key,
                ca_path: self.tls_ca_cert,
            },
            enable_embed: false,
            enable_versions: false,
        }
    }
}

/// The key that an option gives, or what is wrong with it.
pub fn parse_pubkey_hex(s: &str) -> (r: Result<PubKey, String>)
    ensures
        ({
            let b = encode_utf8(s@);
            if b.len() != 64 {
                r matches Err(e) && e@ == "admin pubkey must be 64 hex chars"@
            } else {
                match unhex(b) {
                    Ok(k) => r matches Ok(p) && p@ == k,
                    Err(HexError::BadByte(i)) => r matches Err(e) && e@ == "bad hex at byte "@ + dec(
                        (i / 2) as nat,
                    ) + ": invalid digit found in string"@,
                    Err(_) => false,
                }
            }
        }),
{
    if s.as_bytes().len() != 64 {
        return Err(String::from_str("admin pubkey must be 64 hex chars"));
    }
    match decode_hex_bytes(s) {
        Ok(v) => {
            proof {
                assert(v@.len() == 32);
            }
            let k: PubKey = crate::bytes::copy32(v.as_slice(), 0);
            assert(k@ =~= v@);
            Ok(k)
        },
        Err(HexError::BadByte(i)) => Err(
            String::from_str("bad hex at byte ").concat(dec_string((i / 2) as u64).as_str()).concat(
                ": invalid digit found in string",
            ),
        ),
        Err(_) => Err(String::new()),
    }
}

} // verus!
