//! Typed handle on the deployed arbitrage contract.
//!
//! Each method of [`BlindArb`] builds the typed description of one contract
//! call; the container structs hold exactly the arguments that call carries
//! on chain. Encoding those values into calldata and submitting them is the
//! contract machinery's job outside the library; the logic here only decides
//! which call to make and with which arguments.

use vstd::prelude::*;

use crate::primitives::Address;

verus! {

/// The contract ABI encoding of the arbitrage user data: the orientation
/// flag, the two pool addresses, the input size and the profit share, as
/// one tuple. A function of its arguments alone.
pub uninterp spec fn user_data_encoding(
    is_weth_token0: bool,
    v2_pool: Seq<u8>,
    v3_pool: Seq<u8>,
    size: u128,
    payment_percentage: u128,
) -> Seq<u8>;

/// Relies on the contract ABI encoder of the chain library
/// (`ethers::core::abi::encode`): it maps the user-data tuple to its ABI
/// bytes, a pure function of the tuple's values.
#[verifier::external_body]
fn abi_encode_user_data(
    is_weth_token0: bool,
    v2_pool: &Address,
    v3_pool: &Address,
    size: u128,
    payment_percentage: u128,
) -> (r: Vec<u8>)
    requires
        v2_pool.wf(),
        v3_pool.wf(),
    ensures
        r@ == user_data_encoding(is_weth_token0, v2_pool@, v3_pool@, size, payment_percentage),
{
    let token = ethers::core::abi::Token::Tuple(vec![
        ethers::core::abi::Token::Bool(is_weth_token0),
        ethers::core::abi::Token::Address(ethers::types::H160::from_slice(&v2_pool.bytes)),
        ethers::core::abi::Token::Address(ethers::types::H160::from_slice(&v3_pool.bytes)),
        ethers::core::abi::Token::Uint(ethers::types::U256::from(size)),
        ethers::core::abi::Token::Uint(ethers::types::U256::from(payment_percentage)),
    ]);
    ethers::core::abi::encode(&[token])
}

/// Builds the user data of one flash-loan rung: the orientation flag picks
/// which of the two mutually exclusive call shapes the contract executes,
/// and the rest carries the pools, the borrowed size and the profit share.
pub fn flash_loan_user_data(
    is_weth_token0: bool,
    v2_pool: &Address,
    v3_pool: &Address,
    size: u128,
    payment_percentage: u128,
) -> (r: Vec<u8>)
    requires
        v2_pool.wf(),
        v3_pool.wf(),
    ensures
        r@ == user_data_encoding(is_weth_token0, v2_pool@, v3_pool@, size, payment_percentage),
{
    abi_encode_user_data(is_weth_token0, v2_pool, v3_pool, size, payment_percentage)
}

/// Reserve data of one pool, as the arbitrage contract reads it.
#[derive(Clone, Debug, PartialEq, Eq)]
pub struct PairReserves {
    /// Reserve of the pool's first token.
    pub reserve_0: u128,
    /// Reserve of the pool's second token.
    pub reserve_1: u128,
    /// Quoted price of the pair.
    pub price: u128,
    /// Whether the base asset is the pool's first token.
    pub is_weth_zero: bool,
}

/// Arguments of the contract's `WETH_ADDRESS` accessor.
#[derive(Clone, Debug, PartialEq, Eq)]
pub struct WethAddressCall;

/// Arguments of the contract's `call` passthrough.
#[derive(Clone, Debug, PartialEq, Eq)]
pub struct CallCall {
    /// Recipient of the inner call.
    pub to: Address,
    /// Value forwarded with the call.
    pub value: u128,
    /// Calldata forwarded with the call.
    pub data: Vec<u8>,
}

/// Arguments of the contract's `executeArbitrage` entry point.
#[derive(Clone, Debug, PartialEq, Eq)]
pub struct ExecuteArbitrageCall {
    /// The pool traded through first.
    pub first_pair_address: Address,
    /// The pool traded through second.
    pub second_pair_address: Address,
    /// Share of the profit paid to the block producer.
    pub percentage_to_pay_to_coinbase: u128,
}

/// Arguments of the contract's `getAmountIn` helper.
#[derive(Clone, Debug, PartialEq, Eq)]
pub struct GetAmountInCall {
    /// Reserves of the first pool.
    pub first_pair_data: PairReserves,
    /// Reserves of the second pool.
    pub second_pair_data: PairReserves,
}

/// Arguments of the contract's `getDenominator` helper.
#[derive(Clone, Debug, PartialEq, Eq)]
pub struct GetDenominatorCall {
    /// Reserves of the first pool.
    pub first_pair_data: PairReserves,
    /// Reserves of the second pool.
    pub second_pair_data: PairReserves,
}

/// Arguments of the contract's `getNumerator` helper.
#[derive(Clone, Debug, PartialEq, Eq)]
pub struct GetNumeratorCall {
    /// Reserves of the first pool.
    pub first_pair_data: PairReserves,
    /// Reserves of the second pool.
    pub second_pair_data: PairReserves,
}

/// Arguments of the contract's `owner` accessor.
#[derive(Clone, Debug, PartialEq, Eq)]
pub struct OwnerCall;

/// Arguments of the contract's `renounceOwnership` call.
#[derive(Clone, Debug, PartialEq, Eq)]
pub struct RenounceOwnershipCall;

/// Arguments of the contract's `transferOwnership` call.
#[derive(Clone, Debug, PartialEq, Eq)]
pub struct TransferOwnershipCall {
    /// The owner the contract is handed to.
    pub new_owner: Address,
}

/// Arguments of the contract's `withdrawETHToOwner` call.
#[derive(Clone, Debug, PartialEq, Eq)]
pub struct WithdrawETHToOwnerCall;

/// Arguments of the contract's `withdrawWETHToOwner` call.
#[derive(Clone, Debug, PartialEq, Eq)]
pub struct WithdrawWETHToOwnerCall;

/// Any call the arbitrage contract accepts.
#[derive(Clone, Debug, PartialEq, Eq)]
pub enum BlindArbCalls {
    /// The `WETH_ADDRESS` accessor.
    WethAddress(WethAddressCall),
    /// The `call` passthrough.
    Call(CallCall),
    /// The `executeArbitrage` entry point.
    ExecuteArbitrage(ExecuteArbitrageCall),
    /// The `getAmountIn` helper.
    GetAmountIn(GetAmountInCall),
    /// The `getDenominator` helper.
    GetDenominator(GetDenominatorCall),
    /// The `getNumerator` helper.
    GetNumerator(GetNumeratorCall),
    /// The `owner` accessor.
    Owner(OwnerCall),
    /// The `renounceOwnership` call.
    RenounceOwnership(RenounceOwnershipCall),
    /// The `transferOwnership` call.
    TransferOwnership(TransferOwnershipCall),
    /// The `withdrawETHToOwner` call.
    WithdrawETHToOwner(WithdrawETHToOwnerCall),
    /// The `withdrawWETHToOwner` call.
    WithdrawWETHToOwner(WithdrawWETHToOwnerCall),
}

/// The return value of the `WETH_ADDRESS` accessor.
#[derive(Clone, Debug, PartialEq, Eq)]
pub struct WethAddressReturn(pub Address);

/// The return value of the `getAmountIn` helper.
#[derive(Clone, Debug, PartialEq, Eq)]
pub struct GetAmountInReturn(pub u128);

/// The return value of the `getDenominator` helper.
#[derive(Clone, Debug, PartialEq, Eq)]
pub struct GetDenominatorReturn(pub u128);

/// The return value of the `getNumerator` helper.
#[derive(Clone, Debug, PartialEq, Eq)]
pub struct GetNumeratorReturn(pub u128);

/// The return value of the `owner` accessor.
#[derive(Clone, Debug, PartialEq, Eq)]
pub struct OwnerReturn(pub Address);

/// The contract's `OwnershipTransferred` event.
#[derive(Clone, Debug, PartialEq, Eq)]
pub struct OwnershipTransferredFilter {
    /// The owner before the transfer.
    pub previous_owner: Address,
    /// The owner after the transfer.
    pub new_owner: Address,
}

/// A subscription filter for the contract's events.
#[derive(Clone, Debug, PartialEq, Eq)]
pub struct BlindArbEventFilter {
    /// The contract whose events are watched.
    pub contract: Address,
}

/// A handle on one deployed arbitrage contract.
#[derive(Clone, Debug, PartialEq, Eq)]
pub struct BlindArb {
    /// The address the contract is deployed at.
    pub address: Address,
}

impl BlindArb {
    /// Binds a handle to the contract deployed at `address`.
    pub fn new(address: Address) -> (r: Self)
        ensures
            r.address@ == address@,
    {
        BlindArb { address }
    }

    /// Builds the `WETH_ADDRESS` accessor call.
    pub fn weth_address(&self) -> (c: WethAddressCall)
        ensures
            c == WethAddressCall,
    {
        WethAddressCall
    }

    /// Builds a `call` passthrough with the given recipient, value and data.
    pub fn call(&self, to: Address, value: u128, data: Vec<u8>) -> (c: CallCall)
        ensures
            c.to@ == to@,
            c.value == value,
            c.data@ == data@,
    {
        CallCall { to, value, data }
    }

    /// Builds an `executeArbitrage` call across the two pools.
    pub fn execute_arbitrage(
        &self,
        first_pair_address: Address,
        second_pair_address: Address,
        percentage_to_pay_to_coinbase: u128,
    ) -> (c: ExecuteArbitrageCall)
        ensures
            c.first_pair_address@ == first_pair_address@,
            c.second_pair_address@ == second_pair_address@,
            c.percentage_to_pay_to_coinbase == percentage_to_pay_to_coinbase,
    {
        ExecuteArbitrageCall {
            first_pair_address,
            second_pair_address,
            percentage_to_pay_to_coinbase,
        }
    }

    /// Builds a `getAmountIn` helper call.
    pub fn get_amount_in(
        &self,
        first_pair_data: PairReserves,
        second_pair_data: PairReserves,
    ) -> (c: GetAmountInCall)
        ensures
            c.first_pair_data == first_pair_data,
            c.second_pair_data == second_pair_data,
    {
        GetAmountInCall { first_pair_data, second_pair_data }
    }

    /// Builds a `getDenominator` helper call.
    pub fn get_denominator(
        &self,
        first_pair_data: PairReserves,
        second_pair_data: PairReserves,
    ) -> (c: GetDenominatorCall)
        ensures
            c.first_pair_data == first_pair_data,
            c.second_pair_data == second_pair_data,
    {
        GetDenominatorCall { first_pair_data, second_pair_data }
    }

    /// Builds a `getNumerator` helper call.
    pub fn get_numerator(
        &self,
        first_pair_data: PairReserves,
        second_pair_data: PairReserves,
    ) -> (c: GetNumeratorCall)
        ensures
            c.first_pair_data == first_pair_data,
            c.second_pair_data == second_pair_data,
    {
        GetNumeratorCall { first_pair_data, second_pair_data }
    }

    /// Builds the `owner` accessor call.
    pub fn owner(&self) -> (c: OwnerCall)
        ensures
            c == OwnerCall,
    {
        OwnerCall
    }

    /// Builds the `renounceOwnership` call.
    pub fn renounce_ownership(&self) -> (c: RenounceOwnershipCall)
        ensures
            c == RenounceOwnershipCall,
    {
        RenounceOwnershipCall
    }

    /// Builds the `transferOwnership` call.
    pub fn transfer_ownership(&self, new_owner: Address) -> (c: TransferOwnershipCall)
        ensures
            c.new_owner@ == new_owner@,
    {
        TransferOwnershipCall { new_owner }
    }

    /// Builds the `withdrawETHToOwner` call.
    pub fn withdraw_eth_to_owner(&self) -> (c: WithdrawETHToOwnerCall)
        ensures
            c == WithdrawETHToOwnerCall,
    {
        WithdrawETHToOwnerCall
    }

    /// Builds the `withdrawWETHToOwner` call.
    pub fn withdraw_weth_to_owner(&self) -> (c: WithdrawWETHToOwnerCall)
        ensures
            c == WithdrawWETHToOwnerCall,
    {
        WithdrawWETHToOwnerCall
    }

    /// Builds a filter for the contract's `OwnershipTransferred` events.
    pub fn ownership_transferred_filter(&self) -> (f: BlindArbEventFilter)
        ensures
            f.contract@ == self.address@,
    {
        BlindArbEventFilter { contract: self.address.clone() }
    }

    /// Builds a filter for all of the contract's events.
    pub fn events(&self) -> (f: BlindArbEventFilter)
        ensures
            f.contract@ == self.address@,
    {
        BlindArbEventFilter { contract: self.address.clone() }
    }
}

} // verus!
