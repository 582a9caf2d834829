//! Validated configuration: the tokens to price and, for each, the pools
//! to read. A configuration is checked before any aggregation starts, so
//! an unknown protocol tag or a malformed address is rejected up front and
//! never discovered mid-run.

use vstd::prelude::*;

use crate::address::{is_valid_address, spec_valid_address};

verus! {

broadcast use vstd::string::group_string_axioms;

/// The closed set of supported pool families, resolved from the textual
/// protocol tag at validation time.
#[derive(Clone, Copy, Debug, PartialEq, Eq, Structural)]
pub enum Protocol {
    ConstantProductV2,
    ConstantProductV2Fork,
    ConcentratedLiquidityV3,
}

/// Everything that can be wrong with a configuration. Fatal at startup;
/// a validated configuration never fails mid-aggregation.
#[derive(Clone, Copy, Debug, PartialEq, Eq, Structural)]
pub enum ConfigError {
    UnknownBackend,
    UnsupportedBackend,
    MissingRpcUrl,
    EmptyTokens,
    DuplicateToken,
    InvalidTokenAddress,
    EmptyPools,
    InvalidPoolAddress,
    MissingProtocol,
    UnknownProtocol,
}

pub struct PoolConfig {
    pub name: String,
    pub address: String,
    pub protocol: String,
}

pub struct TokenConfig {
    pub name: String,
    pub token: String,
    pub pools: Vec<PoolConfig>,
}

pub struct Config {
    pub backend: String,
    pub rpc_url: Option<String>,
    pub tokens: Vec<TokenConfig>,
}

pub open spec fn spec_known_protocol(p: Seq<char>) -> bool {
    p == "uniswap_v2"@ || p == "sushiswap"@ || p == "uniswap_v3"@
}

pub open spec fn spec_pool_valid(p: PoolConfig) -> bool {
    spec_valid_address(p.address@) && spec_known_protocol(p.protocol@)
}

pub open spec fn spec_token_valid(t: TokenConfig) -> bool {
    &&& spec_valid_address(t.token@)
    &&& t.pools@.len() > 0
    &&& forall|k: int| 0 <= k < t.pools@.len() ==> spec_pool_valid(#[trigger] t.pools@[k])
}

pub open spec fn spec_no_duplicates(ts: Seq<TokenConfig>) -> bool {
    forall|i: int, j: int| 0 <= i < j < ts.len() ==> (#[trigger] ts[i]).token@ != (#[trigger] ts[j]).token@
}

pub open spec fn spec_config_valid(c: Config) -> bool {
    &&& c.backend@ == "rpc"@
    &&& c.rpc_url is Some
    &&& c.tokens@.len() > 0
    &&& spec_no_duplicates(c.tokens@)
    &&& forall|i: int| 0 <= i < c.tokens@.len() ==> spec_token_valid(#[trigger] c.tokens@[i])
}

/// Resolve a textual protocol tag to its adapter family; `None` exactly for
/// unknown tags.
pub fn protocol_of(tag: &String) -> (r: Option<Protocol>)
    ensures
        r is Some <==> spec_known_protocol(tag@),
        r == Some(Protocol::ConstantProductV2) <==> tag@ == "uniswap_v2"@,
        r == Some(Protocol::ConstantProductV2Fork) <==> tag@ == "sushiswap"@,
        r == Some(Protocol::ConcentratedLiquidityV3) <==> tag@ == "uniswap_v3"@,
{
    proof {
        reveal_strlit("uniswap_v2");
        reveal_strlit("sushiswap");
        reveal_strlit("uniswap_v3");
        assert("uniswap_v2"@.len() == 10);
        assert("sushiswap"@.len() == 9);
        assert("uniswap_v3"@.len() == 10);
        assert("uniswap_v2"@[9] == '2');
        assert("uniswap_v3"@[9] == '3');
        assert("uniswap_v2"@ != "sushiswap"@);
        assert("uniswap_v3"@ != "sushiswap"@);
        assert("uniswap_v2"@ != "uniswap_v3"@);
    }
    let v2 = "uniswap_v2".to_owned();
    let fork = "sushiswap".to_owned();
    let v3 = "uniswap_v3".to_owned();
    if *tag == v2 {
        Some(Protocol::ConstantProductV2)
    } else if *tag == fork {
        Some(Protocol::ConstantProductV2Fork)
    } else if *tag == v3 {
        Some(Protocol::ConcentratedLiquidityV3)
    } else {
        None
    }
}

impl Config {
    /// Check the whole configuration before any aggregation starts.
    ///
    /// Succeeds exactly on valid configurations: an `rpc` backend with a
    /// URL, a non-empty token list without duplicate token addresses, and
    /// for every token a well-formed address and a non-empty pool list
    /// whose pools have well-formed addresses and known protocol tags.
    #[verifier::loop_isolation(false)]
    pub fn validate(&self) -> (r: Result<(), ConfigError>)
        ensures
            r is Ok <==> spec_config_valid(*self),
            r == Err::<(), ConfigError>(ConfigError::UnknownBackend) <==> (self.backend@ != "rpc"@
                && self.backend@ != "substreams"@),
            r == Err::<(), ConfigError>(ConfigError::UnsupportedBackend) <==> self.backend@
                == "substreams"@,
            r == Err::<(), ConfigError>(ConfigError::MissingRpcUrl) <==> (self.backend@ == "rpc"@
                && self.rpc_url is None),
            r == Err::<(), ConfigError>(ConfigError::EmptyTokens) <==> (self.backend@ == "rpc"@
                && self.rpc_url is Some && self.tokens@.len() == 0),
            r == Err::<(), ConfigError>(ConfigError::DuplicateToken) ==> !spec_no_duplicates(
                self.tokens@,
            ),
            r == Err::<(), ConfigError>(ConfigError::InvalidTokenAddress) ==> (exists|i: int|
                0 <= i < self.tokens@.len() && !spec_valid_address(
                    (#[trigger] self.tokens@[i]).token@,
                )),
            r == Err::<(), ConfigError>(ConfigError::EmptyPools) ==> (exists|i: int|
                0 <= i < self.tokens@.len() && (#[trigger] self.tokens@[i]).pools@.len() == 0),
            r == Err::<(), ConfigError>(ConfigError::InvalidPoolAddress) ==> (exists|i: int, k: int|
                0 <= i < self.tokens@.len() && 0 <= k < (#[trigger] self.tokens@[i]).pools@.len()
                    && !spec_valid_address((#[trigger] self.tokens@[i].pools@[k]).address@)),
            r == Err::<(), ConfigError>(ConfigError::MissingProtocol) ==> (exists|i: int, k: int|
                0 <= i < self.tokens@.len() && 0 <= k < (#[trigger] self.tokens@[i]).pools@.len()
                    && (#[trigger] self.tokens@[i].pools@[k]).protocol@.len() == 0),
            r == Err::<(), ConfigError>(ConfigError::UnknownProtocol) ==> (exists|i: int, k: int|
                0 <= i < self.tokens@.len() && 0 <= k < (#[trigger] self.tokens@[i]).pools@.len()
                    && !spec_known_protocol((#[trigger] self.tokens@[i].pools@[k]).protocol@)),
    {
        proof {
            reveal_strlit("rpc");
            reveal_strlit("substreams");
            assert("rpc"@.len() == 3);
            assert("substreams"@.len() == 10);
            assert("rpc"@ != "substreams"@);
            reveal_strlit("uniswap_v2");
            reveal_strlit("sushiswap");
            reveal_strlit("uniswap_v3");
            assert("uniswap_v2"@.len() == 10);
            assert("sushiswap"@.len() == 9);
            assert("uniswap_v3"@.len() == 10);
        }
        let rpc = "rpc".to_owned();
        let substreams = "substreams".to_owned();
        if self.backend == rpc {
            if self.rpc_url.is_none() {
                return Err(ConfigError::MissingRpcUrl);
            }
        } else if self.backend == substreams {
            return Err(ConfigError::UnsupportedBackend);
        } else {
            return Err(ConfigError::UnknownBackend);
        }
        if self.tokens.len() == 0 {
            return Err(ConfigError::EmptyTokens);
        }
        let mut i: usize = 0;
        while i < self.tokens.len()
            invariant
                i <= self.tokens@.len(),
                forall|a: int, b: int|
                    0 <= a < b < i ==> (#[trigger] self.tokens@[a]).token@ != (
                    #[trigger] self.tokens@[b]).token@,
                forall|a: int| 0 <= a < i ==> spec_token_valid(#[trigger] self.tokens@[a]),
            decreases self.tokens@.len() - i,
        {
            let token = &self.tokens[i];
            let mut j: usize = 0;
            while j < i
                invariant
                    j <= i < self.tokens@.len(),
                    forall|a: int|
                        0 <= a < j ==> (#[trigger] self.tokens@[a]).token@ != self.tokens@[i as int].token@,
                decreases i - j,
            {
                if self.tokens[j].token == self.tokens[i].token {
                    assert(!spec_no_duplicates(self.tokens@)) by {
                        assert(self.tokens@[j as int].token@ == self.tokens@[i as int].token@);
                    }
                    return Err(ConfigError::DuplicateToken);
                }
                j = j + 1;
            }
            if !is_valid_address(token.token.as_str()) {
                assert(!spec_token_valid(self.tokens@[i as int]));
                return Err(ConfigError::InvalidTokenAddress);
            }
            if token.pools.len() == 0 {
                assert(!spec_token_valid(self.tokens@[i as int]));
                return Err(ConfigError::EmptyPools);
            }
            let mut k: usize = 0;
            while k < token.pools.len()
                invariant
                    k <= token.pools@.len(),
                    forall|a: int| 0 <= a < k ==> spec_pool_valid(#[trigger] token.pools@[a]),
                decreases token.pools@.len() - k,
            {
                let pool = &token.pools[k];
                if !is_valid_address(pool.address.as_str()) {
                    assert(!spec_valid_address(self.tokens@[i as int].pools@[k as int].address@));
                    assert(!spec_token_valid(self.tokens@[i as int]));
                    return Err(ConfigError::InvalidPoolAddress);
                }
                if pool.protocol.as_str().is_empty() {
                    assert(self.tokens@[i as int].pools@[k as int].protocol@.len() == 0);
                    assert(!spec_known_protocol(pool.protocol@));
                    assert(!spec_token_valid(self.tokens@[i as int]));
                    return Err(ConfigError::MissingProtocol);
                }
                if protocol_of(&pool.protocol).is_none() {
                    assert(!spec_known_protocol(self.tokens@[i as int].pools@[k as int].protocol@));
                    assert(!spec_token_valid(self.tokens@[i as int]));
                    return Err(ConfigError::UnknownProtocol);
                }
                k = k + 1;
            }
            i = i + 1;
        }
        Ok(())
    }
}

} // verus!
