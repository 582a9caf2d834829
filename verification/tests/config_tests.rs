use price_aggregator::address::is_valid_address;
use price_aggregator::config::{protocol_of, Config, ConfigError, PoolConfig, Protocol, TokenConfig};

fn pool(address: &str, protocol: &str) -> PoolConfig {
    PoolConfig {
        name: "pool".to_owned(),
        address: address.to_owned(),
        protocol: protocol.to_owned(),
    }
}

fn token(addr: &str, pools: Vec<PoolConfig>) -> TokenConfig {
    TokenConfig { name: "token".to_owned(), token: addr.to_owned(), pools }
}

const TOKEN_A: &str = "0x1111111111111111111111111111111111111111";
const TOKEN_B: &str = "0x2222222222222222222222222222222222222222";
const POOL_ADDR: &str = "0xabcDEF0123456789abcdef0123456789ABCDEF01";

fn valid_config() -> Config {
    Config {
        backend: "rpc".to_owned(),
        rpc_url: Some("http://localhost:8545".to_owned()),
        tokens: vec![
            token(TOKEN_A, vec![pool(POOL_ADDR, "uniswap_v2"), pool(POOL_ADDR, "uniswap_v3")]),
            token(TOKEN_B, vec![pool(POOL_ADDR, "sushiswap")]),
        ],
    }
}

#[test]
fn valid_configuration_passes() {
    assert_eq!(valid_config().validate(), Ok(()));
}

#[test]
fn missing_rpc_url() {
    let mut c = valid_config();
    c.rpc_url = None;
    assert_eq!(c.validate(), Err(ConfigError::MissingRpcUrl));
}

#[test]
fn unsupported_backend() {
    let mut c = valid_config();
    c.backend = "substreams".to_owned();
    assert_eq!(c.validate(), Err(ConfigError::UnsupportedBackend));
}

#[test]
fn unknown_backend() {
    let mut c = valid_config();
    c.backend = "carrier-pigeon".to_owned();
    assert_eq!(c.validate(), Err(ConfigError::UnknownBackend));
}

#[test]
fn empty_token_list() {
    let mut c = valid_config();
    c.tokens = Vec::new();
    assert_eq!(c.validate(), Err(ConfigError::EmptyTokens));
}

#[test]
fn duplicate_token() {
    let mut c = valid_config();
    c.tokens = vec![
        token(TOKEN_A, vec![pool(POOL_ADDR, "uniswap_v2")]),
        token(TOKEN_A, vec![pool(POOL_ADDR, "uniswap_v3")]),
    ];
    assert_eq!(c.validate(), Err(ConfigError::DuplicateToken));
}

#[test]
fn empty_pool_list() {
    let mut c = valid_config();
    c.tokens = vec![token(TOKEN_A, Vec::new())];
    assert_eq!(c.validate(), Err(ConfigError::EmptyPools));
}

#[test]
fn malformed_pool_address() {
    let mut c = valid_config();
    c.tokens = vec![token(TOKEN_A, vec![pool("0x123", "uniswap_v2")])];
    assert_eq!(c.validate(), Err(ConfigError::InvalidPoolAddress));
}

#[test]
fn malformed_token_address() {
    let mut c = valid_config();
    c.tokens = vec![token("not-an-address", vec![pool(POOL_ADDR, "uniswap_v2")])];
    assert_eq!(c.validate(), Err(ConfigError::InvalidTokenAddress));
}

#[test]
fn missing_protocol() {
    let mut c = valid_config();
    c.tokens = vec![token(TOKEN_A, vec![pool(POOL_ADDR, "")])];
    assert_eq!(c.validate(), Err(ConfigError::MissingProtocol));
}

#[test]
fn unknown_protocol() {
    let mut c = valid_config();
    c.tokens = vec![token(TOKEN_A, vec![pool(POOL_ADDR, "balancer")])];
    assert_eq!(c.validate(), Err(ConfigError::UnknownProtocol));
}

#[test]
fn protocol_tags() {
    assert_eq!(protocol_of(&"uniswap_v2".to_owned()), Some(Protocol::ConstantProductV2));
    assert_eq!(protocol_of(&"sushiswap".to_owned()), Some(Protocol::ConstantProductV2Fork));
    assert_eq!(protocol_of(&"uniswap_v3".to_owned()), Some(Protocol::ConcentratedLiquidityV3));
    assert_eq!(protocol_of(&"curve".to_owned()), None);
}

#[test]
fn address_wellformedness() {
    assert!(is_valid_address(TOKEN_A));
    assert!(is_valid_address(POOL_ADDR));
    assert!(!is_valid_address("0x123"));
    assert!(!is_valid_address("1x1111111111111111111111111111111111111111"));
    assert!(!is_valid_address("0xZZ11111111111111111111111111111111111111"));
    assert!(!is_valid_address(""));
}
