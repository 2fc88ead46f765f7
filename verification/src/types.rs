//! Bundle-submission data model.
//!
//! These are the values the searcher sends to a relay: a bundle request with
//! its inclusion window, its transaction body, an optional refund split and
//! optional privacy preferences. Each type carries a mathematical view so
//! that the wire codec and the strategy can state exact contracts over it.

use vstd::prelude::*;

use crate::primitives::Address;
use crate::primitives::TxHash;

verus! {

/// The protocol revision spoken to the relay.
#[derive(Clone, Copy, Debug, PartialEq, Eq, Structural)]
pub enum ProtocolVersion {
    /// The beta revision, named `beta-1` on the wire.
    Beta1,
    /// The 0.1 revision, named `v0.1` on the wire.
    V0_1,
}

impl Default for ProtocolVersion {
    /// The default revision is `beta-1`.
    fn default() -> (r: Self)
        ensures
            r == ProtocolVersion::Beta1,
    {
        ProtocolVersion::Beta1
    }
}

/// The block window a bundle is valid for.
#[derive(Clone, Copy, Debug, PartialEq, Eq)]
pub struct Inclusion {
    /// First block the bundle may be included in.
    pub block: u64,
    /// Last such block, if bounded.
    pub max_block: Option<u64>,
}

/// One element of a bundle body: a referenced transaction or a signed one.
#[derive(Debug, PartialEq, Eq)]
pub enum BundleTx {
    /// The hash of the transaction being backrun, referenced not resubmitted.
    TxHash {
        /// Hash of the referenced transaction.
        hash: TxHash,
    },
    /// A new signed transaction carried in full.
    Tx {
        /// Signed transaction bytes.
        tx: Vec<u8>,
        /// Whether the bundle stays valid if this transaction reverts.
        can_revert: bool,
    },
}

/// Mathematical value of a [`BundleTx`].
pub ghost enum BundleTxV {
    /// A referenced transaction hash.
    TxHash { hash: Seq<u8> },
    /// A signed transaction with its revert flag.
    Tx { tx: Seq<u8>, can_revert: bool },
}

impl View for BundleTx {
    type V = BundleTxV;

    open spec fn view(&self) -> BundleTxV {
        match self {
            BundleTx::TxHash { hash } => BundleTxV::TxHash { hash: hash@ },
            BundleTx::Tx { tx, can_revert } => BundleTxV::Tx { tx: tx@, can_revert: *can_revert },
        }
    }
}

impl Clone for BundleTx {
    /// A clone carries the same value.
    fn clone(&self) -> (r: Self)
        ensures
            r@ == self@,
    {
        match self {
            BundleTx::TxHash { hash } => BundleTx::TxHash { hash: hash.clone() },
            BundleTx::Tx { tx, can_revert } => BundleTx::Tx {
                tx: crate::primitives::clone_bytes(tx),
                can_revert: *can_revert,
            },
        }
    }
}

impl BundleTxV {
    /// A body element is well formed when a referenced hash is 32 bytes.
    pub open spec fn wf(self) -> bool {
        match self {
            BundleTxV::TxHash { hash } => hash.len() == 32,
            BundleTxV::Tx { .. } => true,
        }
    }
}

/// Minimum share of a bundle's earnings to redistribute, per body element.
#[derive(Clone, Copy, Debug, PartialEq, Eq, Structural)]
pub struct Refund {
    /// Index of the transaction in the bundle body.
    pub body_idx: u64,
    /// Minimum percent of the bundle's earnings to redistribute.
    pub percent: u64,
}

/// One recipient of the refund split.
#[derive(Debug, PartialEq, Eq)]
pub struct RefundConfig {
    /// The address to refund.
    pub address: Address,
    /// Percent of the overall refund sent to that address.
    pub percent: u64,
}

impl Clone for RefundConfig {
    /// A clone carries the same value.
    fn clone(&self) -> (r: Self)
        ensures
            r@ == self@,
    {
        RefundConfig { address: self.address.clone(), percent: self.percent }
    }
}

/// Mathematical value of a [`RefundConfig`].
pub ghost struct RefundConfigV {
    /// Refund recipient address bytes.
    pub address: Seq<u8>,
    /// Percent of the overall refund.
    pub percent: u64,
}

impl View for RefundConfig {
    type V = RefundConfigV;

    open spec fn view(&self) -> RefundConfigV {
        RefundConfigV { address: self.address@, percent: self.percent }
    }
}

/// Conditions a builder must honour for the bundle to be included.
#[derive(Debug, PartialEq, Eq)]
pub struct Validity {
    /// Minimum refund shares per body element.
    pub refund: Option<Vec<Refund>>,
    /// How the overall refund is split between addresses.
    pub refund_config: Option<Vec<RefundConfig>>,
}

impl Clone for Validity {
    /// A clone carries the same value.
    fn clone(&self) -> (r: Self)
        ensures
            r@ == self@,
    {
        let refund = match &self.refund {
            Some(r) => Some(clone_refunds(r)),
            None => None,
        };
        let refund_config = match &self.refund_config {
            Some(c) => Some(clone_configs(c)),
            None => None,
        };
        Validity { refund, refund_config }
    }
}

/// Copies a refund list.
fn clone_refunds(rs: &Vec<Refund>) -> (r: Vec<Refund>)
    ensures
        r@ == rs@,
{
    let n = rs.len();
    let mut r: Vec<Refund> = Vec::new();
    let mut i: usize = 0;
    while i < n
        invariant
            n == rs@.len(),
            i <= n,
            r@ == rs@.take(i as int),
        decreases n - i,
    {
        r.push(rs[i]);
        assert(rs@.take(i + 1 as int) =~= rs@.take(i as int).push(rs@[i as int]));
        i += 1;
    }
    assert(rs@.take(n as int) =~= rs@);
    r
}

/// Copies a refund-recipient list.
fn clone_configs(cs: &Vec<RefundConfig>) -> (r: Vec<RefundConfig>)
    ensures
        r@.map_values(|c: RefundConfig| c@) == cs@.map_values(|c: RefundConfig| c@),
        r@.len() == cs@.len(),
{
    let n = cs.len();
    let mut r: Vec<RefundConfig> = Vec::new();
    let mut i: usize = 0;
    while i < n
        invariant
            n == cs@.len(),
            i <= n,
            r@.len() == i,
            r@.map_values(|c: RefundConfig| c@) == cs@.map_values(|c: RefundConfig| c@).take(
                i as int,
            ),
        decreases n - i,
    {
        r.push(cs[i].clone());
        proof {
            assert(r@.map_values(|c: RefundConfig| c@) =~= cs@.map_values(
                |c: RefundConfig| c@,
            ).take(i + 1 as int));
        }
        i += 1;
    }
    proof {
        assert(cs@.map_values(|c: RefundConfig| c@).take(n as int) =~= cs@.map_values(
            |c: RefundConfig| c@,
        ));
    }
    r
}

/// Mathematical value of a [`Validity`].
pub ghost struct ValidityV {
    /// Minimum refund shares per body element.
    pub refund: Option<Seq<Refund>>,
    /// Refund split between addresses.
    pub refund_config: Option<Seq<RefundConfigV>>,
}

impl View for Validity {
    type V = ValidityV;

    open spec fn view(&self) -> ValidityV {
        ValidityV {
            refund: match &self.refund {
                Some(r) => Some(r@),
                None => None,
            },
            refund_config: match &self.refund_config {
                Some(rc) => Some(rc@.map_values(|c: RefundConfig| c@)),
                None => None,
            },
        }
    }
}

/// Which facts about a bundle may be shared with builders.
#[derive(Clone, Copy, Debug, PartialEq, Eq, Structural, Default)]
pub struct PrivacyHint {
    /// Share the calldata of the bundle's transactions.
    pub calldata: bool,
    /// Share the contract addresses called.
    pub contract_address: bool,
    /// Share the logs produced.
    pub logs: bool,
    /// Share the function selectors called.
    pub function_selector: bool,
    /// Share the transaction hashes.
    pub hash: bool,
    /// Share the bundle hash.
    pub tx_hash: bool,
}

impl PrivacyHint {
    /// Enables sharing of calldata.
    pub fn with_calldata(self) -> (r: Self)
        ensures
            r == (PrivacyHint { calldata: true, ..self }),
    {
        PrivacyHint { calldata: true, ..self }
    }

    /// Enables sharing of contract addresses.
    pub fn with_contract_address(self) -> (r: Self)
        ensures
            r == (PrivacyHint { contract_address: true, ..self }),
    {
        PrivacyHint { contract_address: true, ..self }
    }

    /// Enables sharing of logs.
    pub fn with_logs(self) -> (r: Self)
        ensures
            r == (PrivacyHint { logs: true, ..self }),
    {
        PrivacyHint { logs: true, ..self }
    }

    /// Enables sharing of function selectors.
    pub fn with_function_selector(self) -> (r: Self)
        ensures
            r == (PrivacyHint { function_selector: true, ..self }),
    {
        PrivacyHint { function_selector: true, ..self }
    }

    /// Enables sharing of transaction hashes.
    pub fn with_hash(self) -> (r: Self)
        ensures
            r == (PrivacyHint { hash: true, ..self }),
    {
        PrivacyHint { hash: true, ..self }
    }

    /// Enables sharing of the bundle hash.
    pub fn with_tx_hash(self) -> (r: Self)
        ensures
            r == (PrivacyHint { tx_hash: true, ..self }),
    {
        PrivacyHint { tx_hash: true, ..self }
    }

    /// Whether calldata may be shared.
    pub fn has_calldata(&self) -> (r: bool)
        ensures
            r == self.calldata,
    {
        self.calldata
    }

    /// Whether contract addresses may be shared.
    pub fn has_contract_address(&self) -> (r: bool)
        ensures
            r == self.contract_address,
    {
        self.contract_address
    }

    /// Whether logs may be shared.
    pub fn has_logs(&self) -> (r: bool)
        ensures
            r == self.logs,
    {
        self.logs
    }

    /// Whether function selectors may be shared.
    pub fn has_function_selector(&self) -> (r: bool)
        ensures
            r == self.function_selector,
    {
        self.function_selector
    }

    /// Whether transaction hashes may be shared.
    pub fn has_hash(&self) -> (r: bool)
        ensures
            r == self.hash,
    {
        self.hash
    }

    /// Whether the bundle hash may be shared.
    pub fn has_tx_hash(&self) -> (r: bool)
        ensures
            r == self.tx_hash,
    {
        self.tx_hash
    }

    /// How many hint flags are set.
    pub open spec fn spec_num_hints(self) -> int {
        (if self.calldata { 1int } else { 0 }) + (if self.contract_address { 1int } else { 0 })
            + (if self.logs { 1int } else { 0 }) + (if self.function_selector { 1int } else { 0 })
            + (if self.hash { 1int } else { 0 }) + (if self.tx_hash { 1int } else { 0 })
    }

    /// Counts the hint flags that are set.
    pub fn num_hints(&self) -> (r: usize)
        ensures
            r == self.spec_num_hints(),
    {
        let mut num_hints: usize = 0;
        if self.calldata {
            num_hints += 1;
        }
        if self.contract_address {
            num_hints += 1;
        }
        if self.logs {
            num_hints += 1;
        }
        if self.function_selector {
            num_hints += 1;
        }
        if self.hash {
            num_hints += 1;
        }
        if self.tx_hash {
            num_hints += 1;
        }
        num_hints
    }
}

/// Privacy preferences attached to a bundle.
#[derive(Debug, PartialEq, Eq)]
pub struct Privacy {
    /// Which facts about the bundle may be shared.
    pub hints: Option<PrivacyHint>,
    /// Builders allowed to see the bundle.
    pub builders: Option<Vec<Address>>,
}

impl Clone for Privacy {
    /// A clone carries the same value.
    fn clone(&self) -> (r: Self)
        ensures
            r@ == self@,
    {
        let builders = match &self.builders {
            Some(bs) => Some(clone_addresses(bs)),
            None => None,
        };
        Privacy { hints: self.hints, builders }
    }
}

/// Copies an address list.
fn clone_addresses(bs: &Vec<Address>) -> (r: Vec<Address>)
    ensures
        r@.map_values(|a: Address| a@) == bs@.map_values(|a: Address| a@),
        r@.len() == bs@.len(),
{
    let n = bs.len();
    let mut r: Vec<Address> = Vec::new();
    let mut i: usize = 0;
    while i < n
        invariant
            n == bs@.len(),
            i <= n,
            r@.len() == i,
            r@.map_values(|a: Address| a@) == bs@.map_values(|a: Address| a@).take(i as int),
        decreases n - i,
    {
        r.push(bs[i].clone());
        proof {
            assert(r@.map_values(|a: Address| a@) =~= bs@.map_values(|a: Address| a@).take(
                i + 1 as int,
            ));
        }
        i += 1;
    }
    proof {
        assert(bs@.map_values(|a: Address| a@).take(n as int) =~= bs@.map_values(
            |a: Address| a@,
        ));
    }
    r
}

/// Mathematical value of a [`Privacy`].
pub ghost struct PrivacyV {
    /// Which facts about the bundle may be shared.
    pub hints: Option<PrivacyHint>,
    /// Allowed builder addresses.
    pub builders: Option<Seq<Seq<u8>>>,
}

impl View for Privacy {
    type V = PrivacyV;

    open spec fn view(&self) -> PrivacyV {
        PrivacyV {
            hints: self.hints,
            builders: match &self.builders {
                Some(bs) => Some(bs@.map_values(|a: Address| a@)),
                None => None,
            },
        }
    }
}

/// A bundle of transactions offered to a relay for inclusion.
#[derive(Debug, PartialEq, Eq)]
pub struct BundleRequest {
    /// Protocol revision to speak.
    pub version: ProtocolVersion,
    /// Block window the bundle is valid for.
    pub inclusion: Inclusion,
    /// Ordered transactions of the bundle.
    pub body: Vec<BundleTx>,
    /// Refund conditions, if any.
    pub validity: Option<Validity>,
    /// Privacy preferences, if any.
    pub privacy: Option<Privacy>,
}

impl Clone for BundleRequest {
    /// A clone carries the same value.
    fn clone(&self) -> (r: Self)
        ensures
            r@ == self@,
    {
        let mut body: Vec<BundleTx> = Vec::new();
        let n = self.body.len();
        let mut i: usize = 0;
        while i < n
            invariant
                n == self.body@.len(),
                i <= n,
                body@.len() == i,
                body@.map_values(|t: BundleTx| t@) == self.body@.map_values(
                    |t: BundleTx| t@,
                ).take(i as int),
            decreases n - i,
        {
            body.push(self.body[i].clone());
            proof {
                assert(body@.map_values(|t: BundleTx| t@) =~= self.body@.map_values(
                    |t: BundleTx| t@,
                ).take(i + 1 as int));
            }
            i += 1;
        }
        proof {
            assert(self.body@.map_values(|t: BundleTx| t@).take(n as int)
                =~= self.body@.map_values(|t: BundleTx| t@));
        }
        let validity = match &self.validity {
            Some(v) => Some(v.clone()),
            None => None,
        };
        let privacy = match &self.privacy {
            Some(p) => Some(p.clone()),
            None => None,
        };
        BundleRequest { version: self.version, inclusion: self.inclusion, body, validity, privacy }
    }
}

/// Mathematical value of a [`BundleRequest`].
pub ghost struct BundleRequestV {
    /// Protocol revision.
    pub version: ProtocolVersion,
    /// First block of the inclusion window.
    pub block: u64,
    /// Last block of the inclusion window, if bounded.
    pub max_block: Option<u64>,
    /// Ordered body elements.
    pub body: Seq<BundleTxV>,
    /// Refund conditions.
    pub validity: Option<ValidityV>,
    /// Privacy preferences.
    pub privacy: Option<PrivacyV>,
}

impl View for BundleRequest {
    type V = BundleRequestV;

    open spec fn view(&self) -> BundleRequestV {
        BundleRequestV {
            version: self.version,
            block: self.inclusion.block,
            max_block: self.inclusion.max_block,
            body: self.body@.map_values(|t: BundleTx| t@),
            validity: match &self.validity {
                Some(v) => Some(v@),
                None => None,
            },
            privacy: match &self.privacy {
                Some(p) => Some(p@),
                None => None,
            },
        }
    }
}

impl BundleRequestV {
    /// A bundle is well formed when every referenced hash and address has
    /// its exact byte length.
    pub open spec fn wf(self) -> bool {
        &&& forall|i: int| 0 <= i < self.body.len() ==> self.body[i].wf()
        &&& match self.validity {
            Some(v) => match v.refund_config {
                Some(rc) => forall|i: int| 0 <= i < rc.len() ==> rc[i].address.len() == 20,
                None => true,
            },
            None => true,
        }
        &&& match self.privacy {
            Some(p) => match p.builders {
                Some(bs) => forall|i: int| 0 <= i < bs.len() ==> bs[i].len() == 20,
                None => true,
            },
            None => true,
        }
    }
}

/// Address receiving the default refund split.
pub open spec fn spec_refund_address() -> Seq<u8> {
    seq![
        0u8, 0, 0, 0, 0, 0, 0, 0, 0, 0, 0, 0, 0, 0, 0, 0, 0, 0, 0, 0x40,
    ]
}

/// Builder addresses trusted with bundle details by default.
pub open spec fn spec_default_builders() -> Seq<Seq<u8>> {
    seq![
        // rsync builder
        seq![
            0x1fu8, 0x90, 0x90, 0xaa, 0xe2, 0x8b, 0x8a, 0x3d, 0xce, 0xad, 0xf2, 0x81, 0xb0, 0xf1,
            0x28, 0x28, 0xe6, 0x76, 0xc3, 0x26,
        ],
        // builder0x69
        seq![
            0x69u8, 0x0b, 0x9a, 0x9e, 0x9a, 0xa1, 0xc9, 0xdb, 0x99, 0x1c, 0x77, 0x21, 0xa9, 0x2d,
            0x35, 0x1d, 0xb4, 0xfa, 0xc9, 0x90,
        ],
        // beaverbuild
        seq![
            0x95u8, 0x22, 0x22, 0x90, 0xdd, 0x72, 0x78, 0xaa, 0x3d, 0xdd, 0x38, 0x9c, 0xc1, 0xe1,
            0xd1, 0x65, 0xcc, 0x4b, 0xaf, 0xe5,
        ],
        // flashbots builder
        seq![
            0xdau8, 0xfe, 0xa4, 0x92, 0xd9, 0xc6, 0x73, 0x3a, 0xe3, 0xd5, 0x6b, 0x7e, 0xd1, 0xad,
            0xb6, 0x06, 0x92, 0xc9, 0x8b, 0xc5,
        ],
        // titan builder
        seq![
            0x48u8, 0x38, 0xb1, 0x06, 0xfc, 0xe9, 0x64, 0x7b, 0xdf, 0x1e, 0x78, 0x77, 0xbf, 0x73,
            0xce, 0x8b, 0x0b, 0xad, 0x5f, 0x97,
        ],
    ]
}

/// The refund split every new bundle carries: 30 percent to one address.
pub open spec fn spec_default_validity() -> ValidityV {
    ValidityV {
        refund: None,
        refund_config: Some(
            seq![RefundConfigV { address: spec_refund_address(), percent: 30 }],
        ),
    }
}

/// The privacy preferences every new bundle carries: no hints, the default
/// builder allow-list.
pub open spec fn spec_default_privacy() -> PrivacyV {
    PrivacyV {
        hints: Some(
            PrivacyHint {
                calldata: false,
                contract_address: false,
                logs: false,
                function_selector: false,
                hash: false,
                tx_hash: false,
            },
        ),
        builders: Some(spec_default_builders()),
    }
}

/// Builds the default refund recipient.
fn refund_address() -> (r: Address)
    ensures
        r@ == spec_refund_address(),
        r.wf(),
{
    let bytes: Vec<u8> = vec![0u8, 0, 0, 0, 0, 0, 0, 0, 0, 0, 0, 0, 0, 0, 0, 0, 0, 0, 0, 0x40];
    assert(bytes@ =~= spec_refund_address());
    Address::from_bytes(bytes)
}

/// Builds the default builder allow-list.
fn default_builders() -> (r: Vec<Address>)
    ensures
        r@.map_values(|a: Address| a@) =~= spec_default_builders(),
{
    let b0: Vec<u8> = vec![
        0x1fu8, 0x90, 0x90, 0xaa, 0xe2, 0x8b, 0x8a, 0x3d, 0xce, 0xad, 0xf2, 0x81, 0xb0, 0xf1,
        0x28, 0x28, 0xe6, 0x76, 0xc3, 0x26,
    ];
    let b1: Vec<u8> = vec![
        0x69u8, 0x0b, 0x9a, 0x9e, 0x9a, 0xa1, 0xc9, 0xdb, 0x99, 0x1c, 0x77, 0x21, 0xa9, 0x2d,
        0x35, 0x1d, 0xb4, 0xfa, 0xc9, 0x90,
    ];
    let b2: Vec<u8> = vec![
        0x95u8, 0x22, 0x22, 0x90, 0xdd, 0x72, 0x78, 0xaa, 0x3d, 0xdd, 0x38, 0x9c, 0xc1, 0xe1,
        0xd1, 0x65, 0xcc, 0x4b, 0xaf, 0xe5,
    ];
    let b3: Vec<u8> = vec![
        0xdau8, 0xfe, 0xa4, 0x92, 0xd9, 0xc6, 0x73, 0x3a, 0xe3, 0xd5, 0x6b, 0x7e, 0xd1, 0xad,
        0xb6, 0x06, 0x92, 0xc9, 0x8b, 0xc5,
    ];
    let b4: Vec<u8> = vec![
        0x48u8, 0x38, 0xb1, 0x06, 0xfc, 0xe9, 0x64, 0x7b, 0xdf, 0x1e, 0x78, 0x77, 0xbf, 0x73,
        0xce, 0x8b, 0x0b, 0xad, 0x5f, 0x97,
    ];
    let mut r: Vec<Address> = Vec::new();
    r.push(Address::from_bytes(b0));
    r.push(Address::from_bytes(b1));
    r.push(Address::from_bytes(b2));
    r.push(Address::from_bytes(b3));
    r.push(Address::from_bytes(b4));
    assert(r@.map_values(|a: Address| a@) =~= spec_default_builders());
    r
}

impl BundleRequest {
    /// Creates a bundle request for the given window, revision and body,
    /// carrying the default refund split and privacy preferences.
    pub fn new(
        block_num: u64,
        max_block: Option<u64>,
        version: ProtocolVersion,
        transactions: Vec<BundleTx>,
    ) -> (r: Self)
        ensures
            r@.version == version,
            r@.block == block_num,
            r@.max_block == max_block,
            r@.body == transactions@.map_values(|t: BundleTx| t@),
            r@.validity == Some(spec_default_validity()),
            r@.privacy == Some(spec_default_privacy()),
    {
        let refund_config = vec![RefundConfig { address: refund_address(), percent: 30 }];
        let r = Self {
            version,
            inclusion: Inclusion { block: block_num, max_block },
            body: transactions,
            validity: Some(Validity { refund: None, refund_config: Some(refund_config) }),
            privacy: Some(
                Privacy {
                    hints: Some(
                        PrivacyHint {
                            calldata: false,
                            contract_address: false,
                            logs: false,
                            function_selector: false,
                            hash: false,
                            tx_hash: false,
                        },
                    ),
                    builders: Some(default_builders()),
                },
            ),
        };
        proof {
            assert(r@.validity->Some_0.refund_config->Some_0 =~= spec_default_validity()
                .refund_config->Some_0);
        }
        r
    }

    /// Creates a bundle request valid from `block_num` for the next 30
    /// blocks, at the default protocol revision.
    pub fn make_simple(block_num: u64, transactions: Vec<BundleTx>) -> (r: Self)
        ensures
            r@.version == ProtocolVersion::Beta1,
            r@.block == block_num,
            r@.max_block == Some(
                if block_num + 30 <= u64::MAX { (block_num + 30) as u64 } else { u64::MAX },
            ),
            r@.body == transactions@.map_values(|t: BundleTx| t@),
            r@.validity == Some(spec_default_validity()),
            r@.privacy == Some(spec_default_privacy()),
    {
        let max_block = if block_num <= u64::MAX - 30 {
            block_num + 30
        } else {
            u64::MAX
        };
        Self::new(block_num, Some(max_block), ProtocolVersion::Beta1, transactions)
    }
}

/// A relay's answer to a bundle submission.
#[derive(Clone, Debug, PartialEq, Eq)]
pub struct SendBundleResponse {
    /// Hash of the bundle bodies, as computed by the relay.
    pub bundle_hash: TxHash,
}

impl View for SendBundleResponse {
    type V = Seq<u8>;

    open spec fn view(&self) -> Seq<u8> {
        self.bundle_hash@
    }
}

} // verus!
