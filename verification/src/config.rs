//! A node's configuration and the checks that it must pass at startup.

use crate::encoding::utf8;
use crate::types::text_views;
use vstd::prelude::*;

verus! {

/// Seconds by which a genesis timestamp may lie in the future.
pub const MAX_GENESIS_AHEAD_SECS: u64 = 300;

/// Seconds by which a configured genesis timestamp may lie in the past: one
/// year of 365 days.
pub const MAX_GENESIS_AGE_SECS: u64 = 31_536_000;

/// What a node is started with.
#[derive(Debug)]
pub struct Config {
    /// `host:port` on which the node listens for peers.
    pub listen_addr: String,
    pub rpc_addr: String,
    /// `host:port` of the nodes to contact first.
    pub bootstrap_nodes: Vec<String>,
    pub storage_path: String,
    /// Seconds since the Unix epoch; 0 stands for the time of startup.
    pub genesis_timestamp: u64,
    /// Initial balances by address.
    pub genesis: Vec<(String, u64)>,
    /// Stakes by validator address.
    pub validators: Vec<(String, u64)>,
}

/// Why a configuration is refused.
#[derive(Debug, Clone, Copy, PartialEq, Eq)]
pub enum ConfigError {
    /// The bootstrap node at this index has no colon.
    BootstrapWithoutPort(usize),
    /// The genesis timestamp is more than five minutes ahead.
    GenesisInFuture,
    /// The genesis timestamp is more than a year old.
    GenesisTooOld,
    /// No validator is configured.
    NoValidators,
}

/// Where data is kept unless the configuration says otherwise.
pub fn default_storage_path() -> (r: String)
    ensures
        r@ == "./chain_data"@,
{
    "./chain_data".to_owned()
}

/// Whether a text holds a colon.
pub open spec fn has_colon(text: Seq<char>) -> bool {
    utf8(text).contains(58u8)
}

/// Index of the first bootstrap node without a colon, or their number if
/// all have one.
pub open spec fn first_without_colon(nodes: Seq<Seq<char>>) -> int
    decreases nodes.len(),
{
    if nodes.len() == 0 {
        0
    } else if !has_colon(nodes[0]) {
        0
    } else {
        1 + first_without_colon(nodes.drop_first())
    }
}

/// The verdict on a genesis timestamp at `now`: 0 always passes; any other
/// must be at most five minutes ahead and at most a year old.
pub open spec fn genesis_verdict(genesis_timestamp: u64, now: u64) -> Option<ConfigError> {
    if genesis_timestamp == 0 {
        None
    } else if genesis_timestamp > now + 300 {
        Some(ConfigError::GenesisInFuture)
    } else if genesis_timestamp + 31_536_000 < now {
        Some(ConfigError::GenesisTooOld)
    } else {
        None
    }
}

/// The verdict on a configuration at `now`: the first of its faults, taking
/// bootstrap nodes, then the genesis timestamp, then the validators.
pub open spec fn config_verdict(
    bootstrap_nodes: Seq<Seq<char>>,
    genesis_timestamp: u64,
    validators: int,
    now: u64,
) -> Option<ConfigError> {
    if first_without_colon(bootstrap_nodes) < bootstrap_nodes.len() {
        Some(ConfigError::BootstrapWithoutPort(first_without_colon(bootstrap_nodes) as usize))
    } else if genesis_verdict(genesis_timestamp, now) is Some {
        genesis_verdict(genesis_timestamp, now)
    } else if validators == 0 {
        Some(ConfigError::NoValidators)
    } else {
        None
    }
}

/// The genesis timestamp that a node starts with: the configured one, or
/// `now` where that is 0.
pub open spec fn effective_genesis(genesis_timestamp: u64, now: u64) -> u64 {
    if genesis_timestamp == 0 {
        now
    } else {
        genesis_timestamp
    }
}

/// Whether a text holds a colon.
pub fn contains_colon(text: &str) -> (r: bool)
    ensures
        r == has_colon(text@),
{
    let bytes = text.as_bytes();
    let mut i: usize = 0;
    while i < bytes.len()
        invariant
            i <= bytes.len(),
            bytes@ == utf8(text@),
            forall|j: int| 0 <= j < i ==> bytes@[j] != 58u8,
        decreases bytes.len() - i,
    {
        if bytes[i] == 58u8 {
            assert(bytes@[i as int] == 58u8);
            return true;
        }
        i = i + 1;
    }
    false
}

/// Checks a genesis timestamp at `now`.
pub fn validate_genesis_timestamp(genesis_timestamp: u64, now: u64) -> (r: Result<(), ConfigError>)
    ensures
        match r {
            Ok(_) => genesis_verdict(genesis_timestamp, now) is None,
            Err(e) => genesis_verdict(genesis_timestamp, now) == Some(e),
        },
{
    if genesis_timestamp == 0 {
        return Ok(());
    }
    if genesis_timestamp > now && genesis_timestamp - now > MAX_GENESIS_AHEAD_SECS {
        return Err(ConfigError::GenesisInFuture);
    }
    if now > genesis_timestamp && now - genesis_timestamp > MAX_GENESIS_AGE_SECS {
        return Err(ConfigError::GenesisTooOld);
    }
    Ok(())
}

impl Config {
    /// Checks the configuration at `now`, in seconds since the Unix epoch.
    pub fn validate(&self, now: u64) -> (r: Result<(), ConfigError>)
        ensures
            match r {
                Ok(_) => config_verdict(
                    text_views(self.bootstrap_nodes@),
                    self.genesis_timestamp,
                    self.validators@.len() as int,
                    now,
                ) is None,
                Err(e) => config_verdict(
                    text_views(self.bootstrap_nodes@),
                    self.genesis_timestamp,
                    self.validators@.len() as int,
                    now,
                ) == Some(e),
            },
    {
        let ghost nodes = text_views(self.bootstrap_nodes@);
        let mut i: usize = 0;
        assert(nodes.skip(0) =~= nodes);
        while i < self.bootstrap_nodes.len()
            invariant
                i <= self.bootstrap_nodes.len(),
                nodes == text_views(self.bootstrap_nodes@),
                first_without_colon(nodes) == i + first_without_colon(nodes.skip(i as int)),
            decreases self.bootstrap_nodes.len() - i,
        {
            proof {
                assert(nodes.skip(i as int)[0] == nodes[i as int]);
                assert(nodes.skip(i as int).drop_first() =~= nodes.skip(i + 1));
            }
            if !contains_colon(self.bootstrap_nodes[i].as_str()) {
                return Err(ConfigError::BootstrapWithoutPort(i));
            }
            i = i + 1;
        }
        match validate_genesis_timestamp(self.genesis_timestamp, now) {
            Err(e) => {
                return Err(e);
            },
            Ok(_) => {},
        }
        if self.validators.len() == 0 {
            return Err(ConfigError::NoValidators);
        }
        Ok(())
    }

    /// The genesis timestamp that the node starts with at `now`.
    pub fn genesis_at(&self, now: u64) -> (r: u64)
        ensures
            r == effective_genesis(self.genesis_timestamp, now),
    {
        if self.genesis_timestamp == 0 {
            now
        } else {
            self.genesis_timestamp
        }
    }
}

} // verus!
