//! The validated runtime configuration: the listen address, the shard count,
//! the scrape interval, and the upstream sources.

use vstd::prelude::*;
use vstd::string::StringExecFns;

use crate::text::{str_to_string, usize_to_string};

verus! {

/// One upstream metrics source.
pub struct SourceConfig {
    /// The URL to scrape.
    pub url: String,
    /// Per-source fetch deadline, in seconds.
    pub timeout_secs: u64,
    /// Extra HTTP request headers, in file order.
    pub headers: Vec<(String, String)>,
    /// Extra labels to attach to every time series scraped from this source.
    /// Included in the consistent-hashing key, so they affect shard
    /// assignment.
    pub extra_labels: Vec<(String, String)>,
}

/// The whole configuration.
pub struct AppConfig {
    pub listen: String,
    pub num_shards: u32,
    pub scrape_interval_secs: u64,
    pub sources: Vec<SourceConfig>,
}

/// The timeout a source gets when the file names none.
pub fn default_timeout() -> (r: u64)
    ensures
        r == 30,
{
    30
}

/// A character that may start a label name: a letter or `_`.
pub open spec fn is_name_start(c: char) -> bool {
    ||| ('a' as int) <= (c as int) <= ('z' as int)
    ||| ('A' as int) <= (c as int) <= ('Z' as int)
    ||| c == '_'
}

/// A character that may continue a label name: a letter, a digit, or `_`.
pub open spec fn is_name_char(c: char) -> bool {
    is_name_start(c) || ('0' as int) <= (c as int) <= ('9' as int)
}

/// A legal Prometheus label name: `[a-zA-Z_][a-zA-Z0-9_]*`.
pub open spec fn spec_valid_label_name(s: Seq<char>) -> bool {
    &&& s.len() > 0
    &&& is_name_start(s[0])
    &&& forall|i: int| 1 <= i < s.len() ==> is_name_char(#[trigger] s[i])
}

/// Validates that a string is a legal Prometheus label name.
pub fn is_valid_label_name(s: &str) -> (r: bool)
    ensures
        r == spec_valid_label_name(s@),
{
    let n = s.unicode_len();
    if n == 0 {
        return false;
    }
    let c0 = s.get_char(0);
    let start_ok = (('a' as u32) <= (c0 as u32) && (c0 as u32) <= ('z' as u32)) || (('A' as u32)
        <= (c0 as u32) && (c0 as u32) <= ('Z' as u32)) || c0 == '_';
    if !start_ok {
        return false;
    }
    let mut i: usize = 1;
    while i < n
        invariant
            1 <= i <= n,
            n == s@.len(),
            forall|t: int| 1 <= t < i ==> is_name_char(#[trigger] s@[t]),
        decreases n - i,
    {
        let c = s.get_char(i);
        let ok = (('a' as u32) <= (c as u32) && (c as u32) <= ('z' as u32)) || (('A' as u32) <= (
        c as u32) && (c as u32) <= ('Z' as u32)) || (('0' as u32) <= (c as u32) && (c as u32)
            <= ('9' as u32)) || c == '_';
        if !ok {
            return false;
        }
        i = i + 1;
    }
    true
}

/// A source in a shape the proxy can run with.
pub open spec fn spec_source_valid(s: SourceConfig) -> bool {
    &&& s.url@.len() > 0
    &&& s.timeout_secs > 0
    &&& forall|j: int|
        0 <= j < s.extra_labels@.len() ==> spec_valid_label_name(
            (#[trigger] s.extra_labels@[j]).0@,
        )
}

/// A configuration the proxy can run with: a positive shard count, a
/// positive scrape interval, and at least one source, each with a nonempty
/// URL, a positive timeout, and legal extra-label names.
pub open spec fn spec_config_valid(c: &AppConfig) -> bool {
    &&& c.num_shards > 0
    &&& c.scrape_interval_secs > 0
    &&& c.sources@.len() > 0
    &&& forall|i: int| 0 <= i < c.sources@.len() ==> spec_source_valid(#[trigger] c.sources@[i])
}

impl AppConfig {
    /// Checks the configuration; returns `Ok` exactly when every condition
    /// of `spec_config_valid` holds, and a human-readable message otherwise.
    pub fn validate(&self) -> (r: Result<(), String>)
        ensures
            r is Ok <==> spec_config_valid(self),
    {
        if self.num_shards == 0 {
            return Err(str_to_string("num_shards must be greater than 0"));
        }
        if self.sources.len() == 0 {
            return Err(str_to_string("at least one source is required"));
        }
        if self.scrape_interval_secs == 0 {
            return Err(str_to_string("scrape_interval_secs must be greater than 0"));
        }
        let ns = self.sources.len();
        let mut i: usize = 0;
        while i < ns
            invariant
                0 <= i <= ns,
                ns == self.sources@.len(),
                forall|t: int| 0 <= t < i ==> spec_source_valid(#[trigger] self.sources@[t]),
            decreases ns - i,
        {
            let src = &self.sources[i];
            if src.url.as_str().unicode_len() == 0 {
                let mut msg = str_to_string("source[");
                msg.append(usize_to_string(i).as_str());
                msg.append("] url must not be empty");
                return Err(msg);
            }
            if src.timeout_secs == 0 {
                let mut msg = str_to_string("source[");
                msg.append(usize_to_string(i).as_str());
                msg.append("] timeout_secs must be greater than 0");
                return Err(msg);
            }
            let nl = src.extra_labels.len();
            let mut j: usize = 0;
            while j < nl
                invariant
                    0 <= j <= nl,
                    i < ns,
                    ns == self.sources@.len(),
                    nl == src.extra_labels@.len(),
                    src == &self.sources[i as int],
                    forall|t: int|
                        0 <= t < j ==> spec_valid_label_name(
                            (#[trigger] src.extra_labels@[t]).0@,
                        ),
                decreases nl - j,
            {
                if !is_valid_label_name(src.extra_labels[j].0.as_str()) {
                    proof {
                        assert(!spec_source_valid(self.sources@[i as int]));
                    }
                    let mut msg = str_to_string("source[");
                    msg.append(usize_to_string(i).as_str());
                    msg.append("] extra_labels: ");
                    msg.append(src.extra_labels[j].0.as_str());
                    msg.append(
                        " is not a valid Prometheus label name (must match [a-zA-Z_][a-zA-Z0-9_]*)",
                    );
                    return Err(msg);
                }
                j = j + 1;
            }
            i = i + 1;
        }
        Ok(())
    }
}

} // verus!
