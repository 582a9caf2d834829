//! Shared pool-level types: the normalized quote one adapter call yields,
//! the recoverable per-pool errors, and the counter-asset decimal resolver.

use vstd::prelude::*;

use crate::address::Address;
use crate::rational::Rat;

verus! {

/// Why a single pool failed to yield a quote. Every variant is recoverable:
/// the aggregator drops the pool and goes on.
#[derive(Clone, Copy, Debug, PartialEq, Eq, Structural)]
pub enum PoolError {
    /// An on-chain read failed (transport or contract error).
    Rpc,
    /// Neither pool token slot holds the requested token.
    TokenNotInPool,
    /// An on-chain quantity that must be positive to define a price was zero.
    ZeroReserve,
    /// An exact intermediate did not fit in 128-bit components.
    NumericOverflow,
}

/// The normalized result of one adapter call: a positive price of the
/// requested token in counter-asset units, and the pool's non-negative
/// value in the same units.
#[derive(Clone, Copy, Debug, PartialEq, Eq, Structural)]
pub struct Quote {
    pub price: Rat,
    pub value: Rat,
}

impl Quote {
    pub open spec fn wf(self) -> bool {
        self.price.wf() && self.price.num >= 1 && self.value.wf()
    }
}

/// The fixed-point scale of the requested-token side: 10^18.
pub open spec fn spec_token_scale() -> int {
    1_000_000_000_000_000_000
}

pub open spec fn spec_usdt() -> Seq<u8> {
    seq![
        0xdau8,
        0xc1u8,
        0x7fu8,
        0x95u8,
        0x8du8,
        0x2eu8,
        0xe5u8,
        0x23u8,
        0xa2u8,
        0x20u8,
        0x62u8,
        0x06u8,
        0x99u8,
        0x45u8,
        0x97u8,
        0xc1u8,
        0x3du8,
        0x83u8,
        0x1eu8,
        0xc7u8,
    ]
}

pub open spec fn spec_usdc() -> Seq<u8> {
    seq![
        0xa0u8,
        0xb8u8,
        0x69u8,
        0x91u8,
        0xc6u8,
        0x21u8,
        0x8bu8,
        0x36u8,
        0xc1u8,
        0xd1u8,
        0x9du8,
        0x4au8,
        0x2eu8,
        0x9eu8,
        0xb0u8,
        0xceu8,
        0x36u8,
        0x06u8,
        0xebu8,
        0x48u8,
    ]
}

/// The fixed-point scale of a counter asset: six decimals for the two
/// six-decimal stablecoins, and an 18-decimal assumption for everything
/// else (a deliberate simplification: an unrecognized low-decimal asset
/// silently gets the default and skews the price).
pub open spec fn spec_stable_scale(a: Seq<u8>) -> int {
    if a == spec_usdt() || a == spec_usdc() {
        1_000_000
    } else {
        spec_token_scale()
    }
}

/// 10^n as an unbounded integer.
pub open spec fn spec_pow10(n: nat) -> int
    decreases n,
{
    if n == 0 {
        1
    } else {
        10 * spec_pow10((n - 1) as nat)
    }
}

pub proof fn lemma_pow10_pos(n: nat)
    ensures
        spec_pow10(n) >= 1,
    decreases n,
{
    if n > 0 {
        lemma_pow10_pos((n - 1) as nat);
    }
}

pub proof fn lemma_pow10_mono(a: nat, b: nat)
    requires
        a <= b,
    ensures
        spec_pow10(a) <= spec_pow10(b),
    decreases b,
{
    if a < b {
        lemma_pow10_mono(a, (b - 1) as nat);
        lemma_pow10_pos((b - 1) as nat);
    }
}

/// 10^n in a `u128`, or `None` when it does not fit.
pub fn pow10(n: u8) -> (r: Option<u128>)
    ensures
        r is Some ==> r->Some_0 as int == spec_pow10(n as nat) && r->Some_0 >= 1,
        r is None ==> spec_pow10(n as nat) > u128::MAX,
{
    let mut acc: u128 = 1;
    let mut i: u8 = 0;
    while i < n
        invariant
            i <= n,
            acc as int == spec_pow10(i as nat),
            acc >= 1,
        decreases n - i,
    {
        acc = match acc.checked_mul(10) {
            Some(v) => v,
            None => {
                proof {
                    lemma_pow10_mono((i + 1) as nat, n as nat);
                }
                return None;
            },
        };
        i = i + 1;
    }
    Some(acc)
}

fn usdt_address() -> (r: Address)
    ensures
        r.bytes@ == spec_usdt(),
{
    let bytes: Vec<u8> = vec![
        0xdau8,
        0xc1u8,
        0x7fu8,
        0x95u8,
        0x8du8,
        0x2eu8,
        0xe5u8,
        0x23u8,
        0xa2u8,
        0x20u8,
        0x62u8,
        0x06u8,
        0x99u8,
        0x45u8,
        0x97u8,
        0xc1u8,
        0x3du8,
        0x83u8,
        0x1eu8,
        0xc7u8,
    ];
    proof {
        assert(bytes@ =~= spec_usdt());
    }
    Address { bytes }
}

fn usdc_address() -> (r: Address)
    ensures
        r.bytes@ == spec_usdc(),
{
    let bytes: Vec<u8> = vec![
        0xa0u8,
        0xb8u8,
        0x69u8,
        0x91u8,
        0xc6u8,
        0x21u8,
        0x8bu8,
        0x36u8,
        0xc1u8,
        0xd1u8,
        0x9du8,
        0x4au8,
        0x2eu8,
        0x9eu8,
        0xb0u8,
        0xceu8,
        0x36u8,
        0x06u8,
        0xebu8,
        0x48u8,
    ];
    proof {
        assert(bytes@ =~= spec_usdc());
    }
    Address { bytes }
}

/// Fixed-point scale of a counter asset. Total: an unrecognized address
/// gets the 18-decimal default.
pub fn decimals_for_stablecoin(stablecoin: &Address) -> (r: u64)
    ensures
        r as int == spec_stable_scale(stablecoin.bytes@),
        r >= 1,
{
    let usdt = usdt_address();
    let usdc = usdc_address();
    if stablecoin.matches(&usdt) || stablecoin.matches(&usdc) {
        1_000_000
    } else {
        1_000_000_000_000_000_000
    }
}

} // verus!
