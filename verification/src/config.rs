//! Runtime configuration.
//!
//! The configuration is constructed once at process start and passed by
//! reference into the subsystems that need it; nothing here reads ambient
//! global state. Loading it from disk is the caller's work — the default
//! values and the reading of the log-size cap are pinned down here.

use vstd::prelude::*;

verus! {

/// What the orchestrator can be configured with.
#[derive(Debug)]
pub struct Config {
    /// How many build jobs may run at once.
    pub jobs: usize,
    /// The profile a run targets when none is named.
    pub default_profile: String,
    /// The least severe log level that is recorded.
    pub log_level: String,
    /// The log file's size cap, as a human-readable size.
    pub log_max_size: String,
    /// Whether built binaries are stripped.
    pub strip: bool,
}

/// Relies on `num_cpus::get`: the number of available CPUs of the current
/// system, always at least 1.
#[verifier::external_body]
fn cpu_count() -> (n: usize)
    ensures
        n >= 1,
{
    num_cpus::get()
}

impl core::default::Default for Config {
    /// The configuration a run falls back to: one job per CPU, the stock
    /// profile, everything logged, a 10 MB log cap, stripped binaries.
    fn default() -> (c: Config)
        ensures
            c.jobs >= 1,
            c.default_profile@ == "x86_64-glibc-tox-stage2"@,
            c.log_level@ == "trace"@,
            c.log_max_size@ == "10 MB"@,
            c.strip == true,
    {
        Config {
            jobs: cpu_count(),
            default_profile: "x86_64-glibc-tox-stage2".to_owned(),
            log_level: "trace".to_owned(),
            log_max_size: "10 MB".to_owned(),
            strip: true,
        }
    }
}

/// The byte count that a size string (`"10 MB"`, `"3 KiB"`, a bare number)
/// denotes, as `size::Size::from_str` reads it — a function of the text
/// alone; a negative count comes back as its 64-bit two's-complement cast.
pub uninterp spec fn parsed_size_bytes(s: Seq<char>) -> Option<u64>;

/// Relies on `size::Size::from_str`: on ASCII input the parsed byte count
/// depends on the text alone and parsing returns without panicking. Only
/// ASCII is admitted: the parser splits the text at one past the last
/// non-alphabetic character, and with a multi-byte character there that
/// split can land inside it and panic.
#[verifier::external_body]
fn parse_size(s: &str) -> (r: Option<u64>)
    requires
        s.is_ascii(),
    ensures
        r == parsed_size_bytes(s@),
{
    match size::Size::from_str(s) {
        Ok(sz) => Some(sz.bytes() as u64),
        Err(_) => None,
    }
}

/// The log cap's last fallback, in bytes.
pub const FALLBACK_MAX_LOG_SIZE: u64 = 10 * 1024 * 1024;

/// The log file's size cap in bytes: the configured value if it is ASCII and
/// parses as a size, else the default configuration's `"10 MB"` if that
/// parses, else [`FALLBACK_MAX_LOG_SIZE`].
pub fn get_max_log_size(config: &Config) -> (r: u64)
    ensures
        ({
            let cap = config.log_max_size@;
            let configured = if vstd::utf8::is_ascii_chars(cap) {
                parsed_size_bytes(cap)
            } else {
                Option::<u64>::None
            };
            match configured {
                Some(n) => r == n,
                None => {
                    let stock = if vstd::utf8::is_ascii_chars("10 MB"@) {
                        parsed_size_bytes("10 MB"@)
                    } else {
                        Option::<u64>::None
                    };
                    match stock {
                        Some(m) => r == m,
                        None => r == FALLBACK_MAX_LOG_SIZE,
                    }
                },
            }
        }),
{
    if config.log_max_size.as_str().is_ascii() {
        if let Some(n) = parse_size(config.log_max_size.as_str()) {
            return n;
        }
    }
    if "10 MB".is_ascii() {
        if let Some(m) = parse_size("10 MB") {
            return m;
        }
    }
    FALLBACK_MAX_LOG_SIZE
}

} // verus!
