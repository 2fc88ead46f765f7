//! Relay wire protocol: the JSON form of a bundle request.
//!
//! A bundle travels as one JSON object: `version` (a revision tag),
//! `inclusion.block` / `inclusion.maxBlock` (hex quantities), `body` (an
//! array of `{hash}` or `{tx, canRevert}` elements), then optional
//! `validity.refund` / `validity.refundConfig` and `privacy.hints` /
//! `privacy.builders`. The encoder prints the canonical compact form; the
//! parser reads it back, tolerating whitespace between tokens, and the
//! lemmas here prove that parsing inverts printing.

use vstd::prelude::*;

use crate::hexnum::QUOTE;
use crate::hexnum::is_dec;
use crate::hexnum::hex_val;
use crate::hexnum::is_hex;
use crate::hexnum::is_ws;
use crate::hexnum::lemma_dec_u64_value;
use crate::hexnum::lemma_hex_bytes_all_hex;
use crate::hexnum::lemma_hex_u64_value;
use crate::hexnum::lemma_scan_dec_digits;
use crate::hexnum::lemma_scan_hex_bytes;
use crate::hexnum::lemma_scan_hex_digits;
use crate::hexnum::spec_dec_u64;
use crate::hexnum::spec_hex_bytes;
use crate::hexnum::spec_hex_u64;
use crate::hexnum::spec_scan_dec;
use crate::hexnum::spec_scan_hex;
use crate::hexnum::spec_scan_hex_bytes;
use crate::hexnum::spec_skip_ws;
use crate::types::BundleRequestV;
use crate::types::BundleTxV;
use crate::types::PrivacyHint;
use crate::types::PrivacyV;
use crate::types::ProtocolVersion;
use crate::types::Refund;
use crate::types::RefundConfigV;
use crate::types::ValidityV;

use vstd::string::StrSliceExecFns;

verus! {

/// Opening brace byte.
pub const LBRACE: u8 = 123;

/// Closing brace byte.
pub const RBRACE: u8 = 125;

/// Opening bracket byte.
pub const LBRACK: u8 = 91;

/// Closing bracket byte.
pub const RBRACK: u8 = 93;

/// Comma byte.
pub const COMMA: u8 = 44;

/// Colon byte.
pub const COLON: u8 = 58;

/// Byte of the digit zero.
pub const DIGIT_ZERO: u8 = 48;

/// Byte of the letter `x`.
pub const LOWER_X: u8 = 120;

/// The bytes of an ASCII string literal.
pub open spec fn lit(s: &str) -> Seq<u8> {
    Seq::new(s@.len(), |i: int| s@[i] as u8)
}

/// A quoted JSON object key.
pub open spec fn key(s: &str) -> Seq<u8> {
    seq![QUOTE] + lit(s) + seq![QUOTE]
}

/// Succeeds when `l` sits at position `i` of `s`, returning the position
/// just past it.
pub open spec fn spec_expect(s: Seq<u8>, i: int, l: Seq<u8>) -> Option<int> {
    if 0 <= i && i + l.len() <= s.len() && s.subrange(i, i + l.len() as int) == l {
        Some(i + l.len() as int)
    } else {
        None
    }
}

/// Expects a single structural byte, skipping leading whitespace.
pub open spec fn spec_tok(s: Seq<u8>, i: int, b: u8) -> Option<int> {
    spec_expect(s, spec_skip_ws(s, i), seq![b])
}

/// Expects a quoted key, skipping leading whitespace.
pub open spec fn spec_expect_key(s: Seq<u8>, i: int, l: Seq<u8>) -> Option<int> {
    spec_expect(s, spec_skip_ws(s, i), seq![QUOTE] + l + seq![QUOTE])
}

/// Expects a quoted key followed by a colon.
pub open spec fn spec_key_colon(s: Seq<u8>, i: int, l: Seq<u8>) -> Option<int> {
    match spec_expect_key(s, i, l) {
        Some(j) => spec_tok(s, j, COLON),
        None => None,
    }
}

/// The bytes under a region equal to `e` can be read off index by index.
pub proof fn lemma_region_index(s: Seq<u8>, i: int, e: Seq<u8>)
    requires
        0 <= i,
        i + e.len() <= s.len(),
        s.subrange(i, i + e.len() as int) == e,
    ensures
        forall|j: int| i <= j < i + e.len() ==> #[trigger] s[j] == e[j - i],
{
    assert forall|j: int| i <= j < i + e.len() implies #[trigger] s[j] == e[j - i] by {
        assert(s.subrange(i, i + e.len() as int)[j - i] == s[j]);
    }
}

/// A sub-region of a known region is the matching part of it.
pub proof fn lemma_region_sub(s: Seq<u8>, i: int, e: Seq<u8>, a: int, b: int)
    requires
        0 <= i,
        i + e.len() <= s.len(),
        s.subrange(i, i + e.len() as int) == e,
        0 <= a <= b <= e.len(),
    ensures
        s.subrange(i + a, i + b) == e.subrange(a, b),
{
    lemma_region_index(s, i, e);
    assert(s.subrange(i + a, i + b) =~= e.subrange(a, b));
}

/// A region holding `l` is found by `spec_expect`.
pub proof fn lemma_expect_region(s: Seq<u8>, i: int, l: Seq<u8>)
    requires
        0 <= i,
        i + l.len() <= s.len(),
        s.subrange(i, i + l.len() as int) == l,
    ensures
        spec_expect(s, i, l) == Some(i + l.len() as int),
{
}

/// Skipping whitespace at a significant byte stays put.
pub proof fn lemma_skip_ws_noop(s: Seq<u8>, i: int)
    requires
        0 <= i < s.len() ==> !is_ws(s[i]),
    ensures
        spec_skip_ws(s, i) == i,
{
}

// ---------------------------------------------------------------------------
// Scalar values
// ---------------------------------------------------------------------------

/// Encoded hex quantity: `"0x1"` style, minimal lowercase digits.
pub open spec fn spec_enc_quantity(n: u64) -> Seq<u8> {
    seq![QUOTE, DIGIT_ZERO, LOWER_X] + spec_hex_u64(n as nat) + seq![QUOTE]
}

/// Parses a quoted minimal-hex quantity.
pub open spec fn spec_parse_quantity(s: Seq<u8>, i: int) -> Option<(u64, int)> {
    match spec_expect(s, spec_skip_ws(s, i), seq![QUOTE, DIGIT_ZERO, LOWER_X]) {
        Some(j) => match spec_scan_hex(s, j, 0) {
            Some((v, k)) => if k > j {
                match spec_expect(s, k, seq![QUOTE]) {
                    Some(m) => Some((v, m)),
                    None => None,
                }
            } else {
                None
            },
            None => None,
        },
        None => None,
    }
}

/// Parsing an encoded quantity yields the quantity back.
pub proof fn lemma_parse_quantity(s: Seq<u8>, i: int, n: u64)
    requires
        0 <= i,
        i + spec_enc_quantity(n).len() <= s.len(),
        s.subrange(i, i + spec_enc_quantity(n).len() as int) == spec_enc_quantity(n),
    ensures
        spec_parse_quantity(s, i) == Some((n, i + spec_enc_quantity(n).len() as int)),
{
    let e = spec_enc_quantity(n);
    let ds = spec_hex_u64(n as nat);
    lemma_hex_u64_value(n as nat);
    lemma_region_index(s, i, e);
    assert(s[i] == QUOTE);
    lemma_skip_ws_noop(s, i);
    lemma_region_sub(s, i, e, 0, 3);
    assert(e.subrange(0, 3) =~= seq![QUOTE, DIGIT_ZERO, LOWER_X]);
    assert(spec_expect(s, i, seq![QUOTE, DIGIT_ZERO, LOWER_X]) == Some(i + 3));
    lemma_region_sub(s, i, e, 3, 3 + ds.len() as int);
    assert(e.subrange(3, 3 + ds.len() as int) =~= ds);
    assert(s[i + 3 + ds.len()] == QUOTE);
    assert(!is_hex(QUOTE));
    lemma_scan_hex_digits(s, i + 3, 0, ds);
    assert(spec_scan_hex(s, i + 3, 0) == Some((n, i + 3 + ds.len() as int)));
    let k = i + 3 + ds.len() as int;
    assert(s.subrange(k, k + 1) =~= seq![QUOTE]);
    assert(spec_expect(s, k, seq![QUOTE]) == Some(k + 1));
}

/// Encoded byte string: `"0x"` followed by two hex digits per byte.
pub open spec fn spec_enc_hex_data(bs: Seq<u8>) -> Seq<u8> {
    seq![QUOTE, DIGIT_ZERO, LOWER_X] + spec_hex_bytes(bs) + seq![QUOTE]
}

/// Parses a quoted hex byte string.
pub open spec fn spec_parse_hex_data(s: Seq<u8>, i: int) -> Option<(Seq<u8>, int)> {
    match spec_expect(s, spec_skip_ws(s, i), seq![QUOTE, DIGIT_ZERO, LOWER_X]) {
        Some(j) => match spec_scan_hex_bytes(s, j, Seq::empty()) {
            Some((bs, k)) => match spec_expect(s, k, seq![QUOTE]) {
                Some(m) => Some((bs, m)),
                None => None,
            },
            None => None,
        },
        None => None,
    }
}

/// Parsing an encoded byte string yields the bytes back.
pub proof fn lemma_parse_hex_data(s: Seq<u8>, i: int, bs: Seq<u8>)
    requires
        0 <= i,
        i + spec_enc_hex_data(bs).len() <= s.len(),
        s.subrange(i, i + spec_enc_hex_data(bs).len() as int) == spec_enc_hex_data(bs),
    ensures
        spec_parse_hex_data(s, i) == Some((bs, i + spec_enc_hex_data(bs).len() as int)),
{
    let e = spec_enc_hex_data(bs);
    let ds = spec_hex_bytes(bs);
    lemma_hex_bytes_all_hex(bs);
    lemma_region_index(s, i, e);
    assert(s[i] == QUOTE);
    lemma_skip_ws_noop(s, i);
    lemma_region_sub(s, i, e, 0, 3);
    assert(e.subrange(0, 3) =~= seq![QUOTE, DIGIT_ZERO, LOWER_X]);
    assert(spec_expect(s, i, seq![QUOTE, DIGIT_ZERO, LOWER_X]) == Some(i + 3));
    lemma_region_sub(s, i, e, 3, 3 + ds.len() as int);
    assert(e.subrange(3, 3 + ds.len() as int) =~= ds);
    assert(s[i + 3 + ds.len()] == QUOTE);
    assert(!is_hex(QUOTE));
    lemma_scan_hex_bytes(s, i + 3, Seq::empty(), bs);
    assert(Seq::<u8>::empty() + bs =~= bs);
    let k = i + 3 + ds.len() as int;
    assert(s.subrange(k, k + 1) =~= seq![QUOTE]);
    assert(spec_expect(s, k, seq![QUOTE]) == Some(k + 1));
}

/// Encoded boolean: the bare words `true` or `false`.
pub open spec fn spec_enc_bool(b: bool) -> Seq<u8> {
    if b {
        lit("true")
    } else {
        lit("false")
    }
}

/// Parses a bare boolean word.
pub open spec fn spec_parse_bool(s: Seq<u8>, i: int) -> Option<(bool, int)> {
    let j = spec_skip_ws(s, i);
    match spec_expect(s, j, lit("true")) {
        Some(k) => Some((true, k)),
        None => match spec_expect(s, j, lit("false")) {
            Some(k) => Some((false, k)),
            None => None,
        },
    }
}

/// Parsing an encoded boolean yields the boolean back.
pub proof fn lemma_parse_bool(s: Seq<u8>, i: int, b: bool)
    requires
        0 <= i,
        i + spec_enc_bool(b).len() <= s.len(),
        s.subrange(i, i + spec_enc_bool(b).len() as int) == spec_enc_bool(b),
    ensures
        spec_parse_bool(s, i) == Some((b, i + spec_enc_bool(b).len() as int)),
{
    reveal_strlit("true");
    reveal_strlit("false");
    let e = spec_enc_bool(b);
    lemma_region_index(s, i, e);
    assert(!is_ws(s[i]));
    lemma_skip_ws_noop(s, i);
    if b {
        lemma_expect_region(s, i, lit("true"));
    } else {
        assert(s[i] == 'f' as u8);
        assert(lit("true")[0] == 't' as u8);
        assert(spec_expect(s, i, lit("true")) is None) by {
            if spec_expect(s, i, lit("true")) is Some {
                assert(s.subrange(i, i + 4)[0] == s[i]);
            }
        }
        lemma_expect_region(s, i, lit("false"));
    }
}

/// Encoded protocol revision: a quoted tag.
pub open spec fn spec_enc_version(v: ProtocolVersion) -> Seq<u8> {
    match v {
        ProtocolVersion::Beta1 => seq![QUOTE] + lit("beta-1") + seq![QUOTE],
        ProtocolVersion::V0_1 => seq![QUOTE] + lit("v0.1") + seq![QUOTE],
    }
}

/// Parses a quoted protocol revision tag.
pub open spec fn spec_parse_version(s: Seq<u8>, i: int) -> Option<(ProtocolVersion, int)> {
    let j = spec_skip_ws(s, i);
    match spec_expect(s, j, seq![QUOTE] + lit("beta-1") + seq![QUOTE]) {
        Some(k) => Some((ProtocolVersion::Beta1, k)),
        None => match spec_expect(s, j, seq![QUOTE] + lit("v0.1") + seq![QUOTE]) {
            Some(k) => Some((ProtocolVersion::V0_1, k)),
            None => None,
        },
    }
}

/// Parsing an encoded revision yields the revision back.
pub proof fn lemma_parse_version(s: Seq<u8>, i: int, v: ProtocolVersion)
    requires
        0 <= i,
        i + spec_enc_version(v).len() <= s.len(),
        s.subrange(i, i + spec_enc_version(v).len() as int) == spec_enc_version(v),
    ensures
        spec_parse_version(s, i) == Some((v, i + spec_enc_version(v).len() as int)),
{
    reveal_strlit("beta-1");
    reveal_strlit("v0.1");
    let e = spec_enc_version(v);
    lemma_region_index(s, i, e);
    assert(s[i] == QUOTE);
    lemma_skip_ws_noop(s, i);
    match v {
        ProtocolVersion::Beta1 => {
            lemma_expect_region(s, i, seq![QUOTE] + lit("beta-1") + seq![QUOTE]);
        },
        ProtocolVersion::V0_1 => {
            assert(s[i + 1] == 'v' as u8);
            assert((seq![QUOTE] + lit("beta-1") + seq![QUOTE])[1] == 'b' as u8);
            assert(spec_expect(s, i, seq![QUOTE] + lit("beta-1") + seq![QUOTE]) is None) by {
                if spec_expect(s, i, seq![QUOTE] + lit("beta-1") + seq![QUOTE]) is Some {
                    assert(s.subrange(i, i + 8)[1] == s[i + 1]);
                }
            }
            lemma_expect_region(s, i, seq![QUOTE] + lit("v0.1") + seq![QUOTE]);
        },
    }
}

/// Encoded bare decimal number.
pub open spec fn spec_enc_dec(n: u64) -> Seq<u8> {
    spec_dec_u64(n as nat)
}

/// Parses a bare decimal number.
pub open spec fn spec_parse_dec(s: Seq<u8>, i: int) -> Option<(u64, int)> {
    let j = spec_skip_ws(s, i);
    match spec_scan_dec(s, j, 0) {
        Some((v, k)) => if k > j {
            Some((v, k))
        } else {
            None
        },
        None => None,
    }
}

/// Parsing an encoded decimal, followed by a non-digit, yields it back.
pub proof fn lemma_parse_dec(s: Seq<u8>, i: int, n: u64)
    requires
        0 <= i,
        i + spec_enc_dec(n).len() <= s.len(),
        s.subrange(i, i + spec_enc_dec(n).len() as int) == spec_enc_dec(n),
        i + spec_enc_dec(n).len() == s.len() || !is_dec(s[i + spec_enc_dec(n).len()]),
    ensures
        spec_parse_dec(s, i) == Some((n, i + spec_enc_dec(n).len() as int)),
{
    let ds = spec_dec_u64(n as nat);
    lemma_dec_u64_value(n as nat);
    lemma_region_index(s, i, ds);
    assert(is_dec(ds[0]));
    assert(!is_ws(s[i]));
    lemma_skip_ws_noop(s, i);
    lemma_scan_dec_digits(s, i, 0, ds);
}

/// One byte of a known region can be read off directly.
pub proof fn lemma_region_byte(s: Seq<u8>, i: int, e: Seq<u8>, k: int)
    requires
        0 <= i,
        i + e.len() <= s.len(),
        s.subrange(i, i + e.len() as int) == e,
        0 <= k < e.len(),
    ensures
        s[i + k] == e[k],
{
    assert(s.subrange(i, i + e.len() as int)[k] == s[i + k]);
}

/// A structural byte sitting at `i` is taken as a token.
pub proof fn lemma_tok_at(s: Seq<u8>, i: int, b: u8)
    requires
        0 <= i < s.len(),
        s[i] == b,
        !is_ws(b),
    ensures
        spec_tok(s, i, b) == Some(i + 1),
{
    lemma_skip_ws_noop(s, i);
    assert(s.subrange(i, i + 1) =~= seq![b]);
}

/// A different significant byte at `i` makes the token expectation fail.
pub proof fn lemma_tok_misses(s: Seq<u8>, i: int, b: u8, c: u8)
    requires
        0 <= i < s.len(),
        s[i] == c,
        !is_ws(c),
        c != b,
    ensures
        spec_tok(s, i, b) is None,
{
    lemma_skip_ws_noop(s, i);
    lemma_expect_fails_at(s, i, seq![b], 0);
}

/// A quoted key followed by a colon is consumed as a whole.
pub proof fn lemma_key_colon_at(s: Seq<u8>, i: int, l: Seq<u8>)
    requires
        0 <= i,
        i + l.len() + 3 <= s.len(),
        s.subrange(i, i + l.len() + 2) == seq![QUOTE] + l + seq![QUOTE],
        s[i + l.len() + 2] == COLON,
    ensures
        spec_key_colon(s, i, l) == Some(i + l.len() + 3),
{
    lemma_region_byte(s, i, seq![QUOTE] + l + seq![QUOTE], 0);
    lemma_skip_ws_noop(s, i);
    lemma_expect_region(s, i, seq![QUOTE] + l + seq![QUOTE]);
    lemma_tok_at(s, i + l.len() as int + 2, COLON);
}

/// An expectation fails when some byte of the region differs.
pub proof fn lemma_expect_fails_at(s: Seq<u8>, i: int, l: Seq<u8>, k: int)
    requires
        0 <= i,
        0 <= k < l.len(),
        i + k < s.len(),
        s[i + k] != l[k],
    ensures
        spec_expect(s, i, l) is None,
{
    if spec_expect(s, i, l) is Some {
        assert(s.subrange(i, i + l.len() as int)[k] == s[i + k]);
    }
}

// ---------------------------------------------------------------------------
// Body elements
// ---------------------------------------------------------------------------

/// Encoded body element: `{"hash":...}` or `{"tx":...,"canRevert":...}`.
pub open spec fn spec_enc_tx(t: BundleTxV) -> Seq<u8> {
    match t {
        BundleTxV::TxHash { hash } => seq![LBRACE] + key("hash") + seq![COLON]
            + spec_enc_hex_data(hash) + seq![RBRACE],
        BundleTxV::Tx { tx, can_revert } => seq![LBRACE] + key("tx") + seq![COLON]
            + spec_enc_hex_data(tx) + seq![COMMA] + key("canRevert") + seq![COLON]
            + spec_enc_bool(can_revert) + seq![RBRACE],
    }
}

/// Parses one body element; the two forms are told apart by their first key.
pub open spec fn spec_parse_tx(s: Seq<u8>, i: int) -> Option<(BundleTxV, int)> {
    match spec_tok(s, i, LBRACE) {
        Some(j) => match spec_key_colon(s, j, lit("hash")) {
            Some(k) => match spec_parse_hex_data(s, k) {
                Some((h, m)) => if h.len() == 32 {
                    match spec_tok(s, m, RBRACE) {
                        Some(p) => Some((BundleTxV::TxHash { hash: h }, p)),
                        None => None,
                    }
                } else {
                    None
                },
                None => None,
            },
            None => match spec_key_colon(s, j, lit("tx")) {
                Some(k) => match spec_parse_hex_data(s, k) {
                    Some((tx, m)) => match spec_tok(s, m, COMMA) {
                        Some(p) => match spec_key_colon(s, p, lit("canRevert")) {
                            Some(q) => match spec_parse_bool(s, q) {
                                Some((b, r)) => match spec_tok(s, r, RBRACE) {
                                    Some(z) => Some((BundleTxV::Tx { tx, can_revert: b }, z)),
                                    None => None,
                                },
                                None => None,
                            },
                            None => None,
                        },
                        None => None,
                    },
                    None => None,
                },
                None => None,
            },
        },
        None => None,
    }
}

/// Parsing an encoded body element yields the element back.
#[verifier::rlimit(100)]
pub proof fn lemma_parse_tx(s: Seq<u8>, i: int, t: BundleTxV)
    requires
        0 <= i,
        t.wf(),
        i + spec_enc_tx(t).len() <= s.len(),
        s.subrange(i, i + spec_enc_tx(t).len() as int) == spec_enc_tx(t),
    ensures
        spec_parse_tx(s, i) == Some((t, i + spec_enc_tx(t).len() as int)),
{
    reveal_strlit("hash");
    reveal_strlit("tx");
    reveal_strlit("canRevert");
    let e = spec_enc_tx(t);
    lemma_region_byte(s, i, e, 0);
    assert(e[0] == LBRACE);
    lemma_tok_at(s, i, LBRACE);
    let j = i + 1;
    match t {
        BundleTxV::TxHash { hash } => {
            let kh = key("hash");
            lemma_region_sub(s, i, e, 1, 1 + kh.len() as int);
            assert(e.subrange(1, 1 + kh.len() as int) =~= kh);
            lemma_region_byte(s, i, e, 1 + kh.len() as int);
            assert(e[1 + kh.len() as int] == COLON);
            lemma_key_colon_at(s, j, lit("hash"));
            let k = j + kh.len() as int + 1;
            let eh = spec_enc_hex_data(hash);
            lemma_region_sub(s, i, e, k - i, k - i + eh.len() as int);
            assert(e.subrange(k - i, k - i + eh.len() as int) =~= eh);
            lemma_parse_hex_data(s, k, hash);
            let m = k + eh.len() as int;
            lemma_region_byte(s, i, e, m - i);
            assert(e[m - i] == RBRACE);
            lemma_tok_at(s, m, RBRACE);
            assert(m + 1 == i + e.len());
        },
        BundleTxV::Tx { tx, can_revert } => {
            // The `hash` key is refused: the byte after the opening quote is `t`.
            lemma_region_byte(s, i, e, 1);
            lemma_region_byte(s, i, e, 2);
            assert(e[1] == QUOTE);
            assert(e[2] == 't' as u8);
            lemma_skip_ws_noop(s, j);
            lemma_expect_fails_at(s, j, seq![QUOTE] + lit("hash") + seq![QUOTE], 1);
            let kt = key("tx");
            lemma_region_sub(s, i, e, 1, 1 + kt.len() as int);
            assert(e.subrange(1, 1 + kt.len() as int) =~= kt);
            lemma_region_byte(s, i, e, 1 + kt.len() as int);
            assert(e[1 + kt.len() as int] == COLON);
            lemma_key_colon_at(s, j, lit("tx"));
            let k = j + kt.len() as int + 1;
            let ed = spec_enc_hex_data(tx);
            lemma_region_sub(s, i, e, k - i, k - i + ed.len() as int);
            assert(e.subrange(k - i, k - i + ed.len() as int) =~= ed);
            lemma_parse_hex_data(s, k, tx);
            let m = k + ed.len() as int;
            lemma_region_byte(s, i, e, m - i);
            assert(e[m - i] == COMMA);
            lemma_tok_at(s, m, COMMA);
            let p = m + 1;
            let kc = key("canRevert");
            lemma_region_sub(s, i, e, p - i, p - i + kc.len() as int);
            assert(e.subrange(p - i, p - i + kc.len() as int) =~= kc);
            lemma_region_byte(s, i, e, p - i + kc.len() as int);
            assert(e[p - i + kc.len() as int] == COLON);
            lemma_key_colon_at(s, p, lit("canRevert"));
            let q = p + kc.len() as int + 1;
            let eb = spec_enc_bool(can_revert);
            lemma_region_sub(s, i, e, q - i, q - i + eb.len() as int);
            assert(e.subrange(q - i, q - i + eb.len() as int) =~= eb);
            lemma_parse_bool(s, q, can_revert);
            let r = q + eb.len() as int;
            lemma_region_byte(s, i, e, r - i);
            assert(e[r - i] == RBRACE);
            lemma_tok_at(s, r, RBRACE);
            assert(r + 1 == i + e.len());
        },
    }
}

// ---------------------------------------------------------------------------
// The bundle body list
// ---------------------------------------------------------------------------

/// Encoded tail of a body list: `,elem` repeated, then `]`.
pub open spec fn spec_enc_body_rest(ts: Seq<BundleTxV>) -> Seq<u8>
    decreases ts.len(),
{
    if ts.len() == 0 {
        seq![RBRACK]
    } else {
        seq![COMMA] + spec_enc_tx(ts[0]) + spec_enc_body_rest(ts.drop_first())
    }
}

/// Encoded body list: `[elem,elem,...]`.
pub open spec fn spec_enc_body(ts: Seq<BundleTxV>) -> Seq<u8> {
    if ts.len() == 0 {
        seq![LBRACK, RBRACK]
    } else {
        seq![LBRACK] + spec_enc_tx(ts[0]) + spec_enc_body_rest(ts.drop_first())
    }
}

/// Parses the tail of a body list after at least one element.
pub open spec fn spec_parse_body_rest(s: Seq<u8>, i: int, acc: Seq<BundleTxV>) -> Option<
    (Seq<BundleTxV>, int),
>
    decreases s.len() - i,
{
    match spec_tok(s, i, RBRACK) {
        Some(j) => Some((acc, j)),
        None => match spec_tok(s, i, COMMA) {
            Some(j) => match spec_parse_tx(s, j) {
                Some((t, k)) => if i < k <= s.len() {
                    spec_parse_body_rest(s, k, acc.push(t))
                } else {
                    None
                },
                None => None,
            },
            None => None,
        },
    }
}

/// Parses a body list.
pub open spec fn spec_parse_body(s: Seq<u8>, i: int) -> Option<(Seq<BundleTxV>, int)> {
    match spec_tok(s, i, LBRACK) {
        Some(j) => match spec_tok(s, j, RBRACK) {
            Some(k) => Some((Seq::empty(), k)),
            None => match spec_parse_tx(s, j) {
                Some((t, k)) => if j < k <= s.len() {
                    spec_parse_body_rest(s, k, seq![t])
                } else {
                    None
                },
                None => None,
            },
        },
        None => None,
    }
}

/// Parsing an encoded body tail appends the elements to the accumulator.
#[verifier::rlimit(100)]
pub proof fn lemma_parse_body_rest(s: Seq<u8>, i: int, acc: Seq<BundleTxV>, ts: Seq<BundleTxV>)
    requires
        0 <= i,
        forall|k: int| 0 <= k < ts.len() ==> (#[trigger] ts[k]).wf(),
        i + spec_enc_body_rest(ts).len() <= s.len(),
        s.subrange(i, i + spec_enc_body_rest(ts).len() as int) == spec_enc_body_rest(ts),
    ensures
        spec_parse_body_rest(s, i, acc) == Some(
            (acc + ts, i + spec_enc_body_rest(ts).len() as int),
        ),
    decreases ts.len(),
{
    let e = spec_enc_body_rest(ts);
    if ts.len() == 0 {
        lemma_region_byte(s, i, e, 0);
        assert(e[0] == RBRACK);
        lemma_tok_at(s, i, RBRACK);
        assert(acc + ts =~= acc);
    } else {
        lemma_region_byte(s, i, e, 0);
        assert(e[0] == COMMA);
        lemma_tok_misses(s, i, RBRACK, COMMA);
        lemma_tok_at(s, i, COMMA);
        let et = spec_enc_tx(ts[0]);
        lemma_region_sub(s, i, e, 1, 1 + et.len() as int);
        assert(e.subrange(1, 1 + et.len() as int) =~= et);
        assert(ts[0].wf());
        lemma_parse_tx(s, i + 1, ts[0]);
        let k = i + 1 + et.len() as int;
        let er = spec_enc_body_rest(ts.drop_first());
        lemma_region_sub(s, i, e, k - i, k - i + er.len() as int);
        assert(e.subrange(k - i, k - i + er.len() as int) =~= er);
        assert(forall|m: int|
            0 <= m < ts.drop_first().len() ==> (#[trigger] ts.drop_first()[m]).wf()) by {
            assert(forall|m: int|
                0 <= m < ts.drop_first().len() ==> ts.drop_first()[m] == ts[m + 1]);
        }
        lemma_parse_body_rest(s, k, acc.push(ts[0]), ts.drop_first());
        assert(acc.push(ts[0]) + ts.drop_first() =~= acc + ts);
    }
}

/// Parsing an encoded body yields the elements back.
#[verifier::rlimit(100)]
pub proof fn lemma_parse_body(s: Seq<u8>, i: int, ts: Seq<BundleTxV>)
    requires
        0 <= i,
        forall|k: int| 0 <= k < ts.len() ==> (#[trigger] ts[k]).wf(),
        i + spec_enc_body(ts).len() <= s.len(),
        s.subrange(i, i + spec_enc_body(ts).len() as int) == spec_enc_body(ts),
    ensures
        spec_parse_body(s, i) == Some((ts, i + spec_enc_body(ts).len() as int)),
{
    let e = spec_enc_body(ts);
    lemma_region_byte(s, i, e, 0);
    assert(e[0] == LBRACK);
    lemma_tok_at(s, i, LBRACK);
    let j = i + 1;
    if ts.len() == 0 {
        lemma_region_byte(s, i, e, 1);
        assert(e[1] == RBRACK);
        lemma_tok_at(s, j, RBRACK);
    } else {
        let et = spec_enc_tx(ts[0]);
        lemma_region_byte(s, i, e, 1);
        assert(e[1] == et[0]);
        assert(et[0] == LBRACE);
        lemma_tok_misses(s, j, RBRACK, LBRACE);
        lemma_region_sub(s, i, e, 1, 1 + et.len() as int);
        assert(e.subrange(1, 1 + et.len() as int) =~= et);
        assert(ts[0].wf());
        lemma_parse_tx(s, j, ts[0]);
        let k = j + et.len() as int;
        let er = spec_enc_body_rest(ts.drop_first());
        lemma_region_sub(s, i, e, k - i, k - i + er.len() as int);
        assert(e.subrange(k - i, k - i + er.len() as int) =~= er);
        assert(forall|m: int|
            0 <= m < ts.drop_first().len() ==> (#[trigger] ts.drop_first()[m]).wf()) by {
            assert(forall|m: int|
                0 <= m < ts.drop_first().len() ==> ts.drop_first()[m] == ts[m + 1]);
        }
        lemma_parse_body_rest(s, k, seq![ts[0]], ts.drop_first());
        assert(seq![ts[0]] + ts.drop_first() =~= ts);
    }
}


// ---------------------------------------------------------------------------
// Refund shares
// ---------------------------------------------------------------------------

/// Encoded refund share: `{"bodyIdx":N,"percent":M}`.
pub open spec fn spec_enc_refund(r: Refund) -> Seq<u8> {
    seq![LBRACE] + key("bodyIdx") + seq![COLON] + spec_enc_dec(r.body_idx) + seq![COMMA] + key(
        "percent",
    ) + seq![COLON] + spec_enc_dec(r.percent) + seq![RBRACE]
}

/// Parses one refund share.
pub open spec fn spec_parse_refund(s: Seq<u8>, i: int) -> Option<(Refund, int)> {
    match spec_tok(s, i, LBRACE) {
        Some(j) => match spec_key_colon(s, j, lit("bodyIdx")) {
            Some(k) => match spec_parse_dec(s, k) {
                Some((b, m)) => match spec_tok(s, m, COMMA) {
                    Some(p) => match spec_key_colon(s, p, lit("percent")) {
                        Some(q) => match spec_parse_dec(s, q) {
                            Some((c, r)) => match spec_tok(s, r, RBRACE) {
                                Some(z) => Some((Refund { body_idx: b, percent: c }, z)),
                                None => None,
                            },
                            None => None,
                        },
                        None => None,
                    },
                    None => None,
                },
                None => None,
            },
            None => None,
        },
        None => None,
    }
}

/// Parsing an encoded refund share yields it back.
#[verifier::rlimit(100)]
pub proof fn lemma_parse_refund(s: Seq<u8>, i: int, r: Refund)
    requires
        0 <= i,
        i + spec_enc_refund(r).len() <= s.len(),
        s.subrange(i, i + spec_enc_refund(r).len() as int) == spec_enc_refund(r),
    ensures
        spec_parse_refund(s, i) == Some((r, i + spec_enc_refund(r).len() as int)),
{
    reveal_strlit("bodyIdx");
    reveal_strlit("percent");
    let e = spec_enc_refund(r);
    lemma_region_byte(s, i, e, 0);
    assert(e[0] == LBRACE);
    lemma_tok_at(s, i, LBRACE);
    let j = i + 1;
    let kb = key("bodyIdx");
    lemma_region_sub(s, i, e, 1, 1 + kb.len() as int);
    assert(e.subrange(1, 1 + kb.len() as int) =~= kb);
    lemma_region_byte(s, i, e, 1 + kb.len() as int);
    assert(e[1 + kb.len() as int] == COLON);
    lemma_key_colon_at(s, j, lit("bodyIdx"));
    let k = j + kb.len() as int + 1;
    let d1 = spec_enc_dec(r.body_idx);
    lemma_region_sub(s, i, e, k - i, k - i + d1.len() as int);
    assert(e.subrange(k - i, k - i + d1.len() as int) =~= d1);
    let m = k + d1.len() as int;
    lemma_region_byte(s, i, e, m - i);
    assert(e[m - i] == COMMA);
    lemma_parse_dec(s, k, r.body_idx);
    lemma_tok_at(s, m, COMMA);
    let p = m + 1;
    let kp = key("percent");
    lemma_region_sub(s, i, e, p - i, p - i + kp.len() as int);
    assert(e.subrange(p - i, p - i + kp.len() as int) =~= kp);
    lemma_region_byte(s, i, e, p - i + kp.len() as int);
    assert(e[p - i + kp.len() as int] == COLON);
    lemma_key_colon_at(s, p, lit("percent"));
    let q = p + kp.len() as int + 1;
    let d2 = spec_enc_dec(r.percent);
    lemma_region_sub(s, i, e, q - i, q - i + d2.len() as int);
    assert(e.subrange(q - i, q - i + d2.len() as int) =~= d2);
    let z = q + d2.len() as int;
    lemma_region_byte(s, i, e, z - i);
    assert(e[z - i] == RBRACE);
    lemma_parse_dec(s, q, r.percent);
    lemma_tok_at(s, z, RBRACE);
    assert(z + 1 == i + e.len());
}

/// Encoded tail of a refund list.
pub open spec fn spec_enc_refunds_rest(rs: Seq<Refund>) -> Seq<u8>
    decreases rs.len(),
{
    if rs.len() == 0 {
        seq![RBRACK]
    } else {
        seq![COMMA] + spec_enc_refund(rs[0]) + spec_enc_refunds_rest(rs.drop_first())
    }
}

/// Encoded refund list.
pub open spec fn spec_enc_refunds(rs: Seq<Refund>) -> Seq<u8> {
    if rs.len() == 0 {
        seq![LBRACK, RBRACK]
    } else {
        seq![LBRACK] + spec_enc_refund(rs[0]) + spec_enc_refunds_rest(rs.drop_first())
    }
}

/// Parses the tail of a refund list.
pub open spec fn spec_parse_refunds_rest(s: Seq<u8>, i: int, acc: Seq<Refund>) -> Option<
    (Seq<Refund>, int),
>
    decreases s.len() - i,
{
    match spec_tok(s, i, RBRACK) {
        Some(j) => Some((acc, j)),
        None => match spec_tok(s, i, COMMA) {
            Some(j) => match spec_parse_refund(s, j) {
                Some((t, k)) => if i < k <= s.len() {
                    spec_parse_refunds_rest(s, k, acc.push(t))
                } else {
                    None
                },
                None => None,
            },
            None => None,
        },
    }
}

/// Parses a refund list.
pub open spec fn spec_parse_refunds(s: Seq<u8>, i: int) -> Option<(Seq<Refund>, int)> {
    match spec_tok(s, i, LBRACK) {
        Some(j) => match spec_tok(s, j, RBRACK) {
            Some(k) => Some((Seq::empty(), k)),
            None => match spec_parse_refund(s, j) {
                Some((t, k)) => if j < k <= s.len() {
                    spec_parse_refunds_rest(s, k, seq![t])
                } else {
                    None
                },
                None => None,
            },
        },
        None => None,
    }
}

/// Parsing an encoded refund-list tail appends the shares.
#[verifier::rlimit(100)]
pub proof fn lemma_parse_refunds_rest(s: Seq<u8>, i: int, acc: Seq<Refund>, rs: Seq<Refund>)
    requires
        0 <= i,
        i + spec_enc_refunds_rest(rs).len() <= s.len(),
        s.subrange(i, i + spec_enc_refunds_rest(rs).len() as int) == spec_enc_refunds_rest(rs),
    ensures
        spec_parse_refunds_rest(s, i, acc) == Some(
            (acc + rs, i + spec_enc_refunds_rest(rs).len() as int),
        ),
    decreases rs.len(),
{
    let e = spec_enc_refunds_rest(rs);
    if rs.len() == 0 {
        lemma_region_byte(s, i, e, 0);
        assert(e[0] == RBRACK);
        lemma_tok_at(s, i, RBRACK);
        assert(acc + rs =~= acc);
    } else {
        lemma_region_byte(s, i, e, 0);
        assert(e[0] == COMMA);
        lemma_tok_misses(s, i, RBRACK, COMMA);
        lemma_tok_at(s, i, COMMA);
        let et = spec_enc_refund(rs[0]);
        lemma_region_sub(s, i, e, 1, 1 + et.len() as int);
        assert(e.subrange(1, 1 + et.len() as int) =~= et);
        lemma_parse_refund(s, i + 1, rs[0]);
        let k = i + 1 + et.len() as int;
        let er = spec_enc_refunds_rest(rs.drop_first());
        lemma_region_sub(s, i, e, k - i, k - i + er.len() as int);
        assert(e.subrange(k - i, k - i + er.len() as int) =~= er);
        lemma_parse_refunds_rest(s, k, acc.push(rs[0]), rs.drop_first());
        assert(acc.push(rs[0]) + rs.drop_first() =~= acc + rs);
    }
}

/// Parsing an encoded refund list yields the shares back.
#[verifier::rlimit(100)]
pub proof fn lemma_parse_refunds(s: Seq<u8>, i: int, rs: Seq<Refund>)
    requires
        0 <= i,
        i + spec_enc_refunds(rs).len() <= s.len(),
        s.subrange(i, i + spec_enc_refunds(rs).len() as int) == spec_enc_refunds(rs),
    ensures
        spec_parse_refunds(s, i) == Some((rs, i + spec_enc_refunds(rs).len() as int)),
{
    let e = spec_enc_refunds(rs);
    lemma_region_byte(s, i, e, 0);
    assert(e[0] == LBRACK);
    lemma_tok_at(s, i, LBRACK);
    let j = i + 1;
    if rs.len() == 0 {
        lemma_region_byte(s, i, e, 1);
        assert(e[1] == RBRACK);
        lemma_tok_at(s, j, RBRACK);
    } else {
        let et = spec_enc_refund(rs[0]);
        lemma_region_byte(s, i, e, 1);
        assert(e[1] == et[0]);
        assert(et[0] == LBRACE);
        lemma_tok_misses(s, j, RBRACK, LBRACE);
        lemma_region_sub(s, i, e, 1, 1 + et.len() as int);
        assert(e.subrange(1, 1 + et.len() as int) =~= et);
        lemma_parse_refund(s, j, rs[0]);
        let k = j + et.len() as int;
        let er = spec_enc_refunds_rest(rs.drop_first());
        lemma_region_sub(s, i, e, k - i, k - i + er.len() as int);
        assert(e.subrange(k - i, k - i + er.len() as int) =~= er);
        lemma_parse_refunds_rest(s, k, seq![rs[0]], rs.drop_first());
        assert(seq![rs[0]] + rs.drop_first() =~= rs);
    }
}

// ---------------------------------------------------------------------------
// Refund recipients
// ---------------------------------------------------------------------------

/// Encoded refund recipient: `{"address":"0x..","percent":N}`.
pub open spec fn spec_enc_config(c: RefundConfigV) -> Seq<u8> {
    seq![LBRACE] + key("address") + seq![COLON] + spec_enc_hex_data(c.address) + seq![COMMA]
        + key("percent") + seq![COLON] + spec_enc_dec(c.percent) + seq![RBRACE]
}

/// Parses one refund recipient.
pub open spec fn spec_parse_config(s: Seq<u8>, i: int) -> Option<(RefundConfigV, int)> {
    match spec_tok(s, i, LBRACE) {
        Some(j) => match spec_key_colon(s, j, lit("address")) {
            Some(k) => match spec_parse_hex_data(s, k) {
                Some((a, m)) => if a.len() == 20 {
                    match spec_tok(s, m, COMMA) {
                        Some(p) => match spec_key_colon(s, p, lit("percent")) {
                            Some(q) => match spec_parse_dec(s, q) {
                                Some((c, r)) => match spec_tok(s, r, RBRACE) {
                                    Some(z) => Some(
                                        (RefundConfigV { address: a, percent: c }, z),
                                    ),
                                    None => None,
                                },
                                None => None,
                            },
                            None => None,
                        },
                        None => None,
                    }
                } else {
                    None
                },
                None => None,
            },
            None => None,
        },
        None => None,
    }
}

/// Parsing an encoded refund recipient yields it back.
#[verifier::rlimit(100)]
pub proof fn lemma_parse_config(s: Seq<u8>, i: int, c: RefundConfigV)
    requires
        0 <= i,
        c.address.len() == 20,
        i + spec_enc_config(c).len() <= s.len(),
        s.subrange(i, i + spec_enc_config(c).len() as int) == spec_enc_config(c),
    ensures
        spec_parse_config(s, i) == Some((c, i + spec_enc_config(c).len() as int)),
{
    reveal_strlit("address");
    reveal_strlit("percent");
    let e = spec_enc_config(c);
    lemma_region_byte(s, i, e, 0);
    assert(e[0] == LBRACE);
    lemma_tok_at(s, i, LBRACE);
    let j = i + 1;
    let ka = key("address");
    lemma_region_sub(s, i, e, 1, 1 + ka.len() as int);
    assert(e.subrange(1, 1 + ka.len() as int) =~= ka);
    lemma_region_byte(s, i, e, 1 + ka.len() as int);
    assert(e[1 + ka.len() as int] == COLON);
    lemma_key_colon_at(s, j, lit("address"));
    let k = j + ka.len() as int + 1;
    let eh = spec_enc_hex_data(c.address);
    lemma_region_sub(s, i, e, k - i, k - i + eh.len() as int);
    assert(e.subrange(k - i, k - i + eh.len() as int) =~= eh);
    lemma_parse_hex_data(s, k, c.address);
    let m = k + eh.len() as int;
    lemma_region_byte(s, i, e, m - i);
    assert(e[m - i] == COMMA);
    lemma_tok_at(s, m, COMMA);
    let p = m + 1;
    let kp = key("percent");
    lemma_region_sub(s, i, e, p - i, p - i + kp.len() as int);
    assert(e.subrange(p - i, p - i + kp.len() as int) =~= kp);
    lemma_region_byte(s, i, e, p - i + kp.len() as int);
    assert(e[p - i + kp.len() as int] == COLON);
    lemma_key_colon_at(s, p, lit("percent"));
    let q = p + kp.len() as int + 1;
    let d2 = spec_enc_dec(c.percent);
    lemma_region_sub(s, i, e, q - i, q - i + d2.len() as int);
    assert(e.subrange(q - i, q - i + d2.len() as int) =~= d2);
    let z = q + d2.len() as int;
    lemma_region_byte(s, i, e, z - i);
    assert(e[z - i] == RBRACE);
    lemma_parse_dec(s, q, c.percent);
    lemma_tok_at(s, z, RBRACE);
    assert(z + 1 == i + e.len());
}

/// Encoded tail of a refund-recipient list.
pub open spec fn spec_enc_configs_rest(cs: Seq<RefundConfigV>) -> Seq<u8>
    decreases cs.len(),
{
    if cs.len() == 0 {
        seq![RBRACK]
    } else {
        seq![COMMA] + spec_enc_config(cs[0]) + spec_enc_configs_rest(cs.drop_first())
    }
}

/// Encoded refund-recipient list.
pub open spec fn spec_enc_configs(cs: Seq<RefundConfigV>) -> Seq<u8> {
    if cs.len() == 0 {
        seq![LBRACK, RBRACK]
    } else {
        seq![LBRACK] + spec_enc_config(cs[0]) + spec_enc_configs_rest(cs.drop_first())
    }
}

/// Parses the tail of a refund-recipient list.
pub open spec fn spec_parse_configs_rest(s: Seq<u8>, i: int, acc: Seq<RefundConfigV>) -> Option<
    (Seq<RefundConfigV>, int),
>
    decreases s.len() - i,
{
    match spec_tok(s, i, RBRACK) {
        Some(j) => Some((acc, j)),
        None => match spec_tok(s, i, COMMA) {
            Some(j) => match spec_parse_config(s, j) {
                Some((t, k)) => if i < k <= s.len() {
                    spec_parse_configs_rest(s, k, acc.push(t))
                } else {
                    None
                },
                None => None,
            },
            None => None,
        },
    }
}

/// Parses a refund-recipient list.
pub open spec fn spec_parse_configs(s: Seq<u8>, i: int) -> Option<(Seq<RefundConfigV>, int)> {
    match spec_tok(s, i, LBRACK) {
        Some(j) => match spec_tok(s, j, RBRACK) {
            Some(k) => Some((Seq::empty(), k)),
            None => match spec_parse_config(s, j) {
                Some((t, k)) => if j < k <= s.len() {
                    spec_parse_configs_rest(s, k, seq![t])
                } else {
                    None
                },
                None => None,
            },
        },
        None => None,
    }
}

/// Parsing an encoded refund-recipient tail appends the recipients.
#[verifier::rlimit(100)]
pub proof fn lemma_parse_configs_rest(
    s: Seq<u8>,
    i: int,
    acc: Seq<RefundConfigV>,
    cs: Seq<RefundConfigV>,
)
    requires
        0 <= i,
        forall|k: int| 0 <= k < cs.len() ==> (#[trigger] cs[k]).address.len() == 20,
        i + spec_enc_configs_rest(cs).len() <= s.len(),
        s.subrange(i, i + spec_enc_configs_rest(cs).len() as int) == spec_enc_configs_rest(cs),
    ensures
        spec_parse_configs_rest(s, i, acc) == Some(
            (acc + cs, i + spec_enc_configs_rest(cs).len() as int),
        ),
    decreases cs.len(),
{
    let e = spec_enc_configs_rest(cs);
    if cs.len() == 0 {
        lemma_region_byte(s, i, e, 0);
        assert(e[0] == RBRACK);
        lemma_tok_at(s, i, RBRACK);
        assert(acc + cs =~= acc);
    } else {
        lemma_region_byte(s, i, e, 0);
        assert(e[0] == COMMA);
        lemma_tok_misses(s, i, RBRACK, COMMA);
        lemma_tok_at(s, i, COMMA);
        let et = spec_enc_config(cs[0]);
        lemma_region_sub(s, i, e, 1, 1 + et.len() as int);
        assert(e.subrange(1, 1 + et.len() as int) =~= et);
        lemma_parse_config(s, i + 1, cs[0]);
        let k = i + 1 + et.len() as int;
        let er = spec_enc_configs_rest(cs.drop_first());
        lemma_region_sub(s, i, e, k - i, k - i + er.len() as int);
        assert(e.subrange(k - i, k - i + er.len() as int) =~= er);
        assert(forall|m: int|
            0 <= m < cs.drop_first().len() ==> (#[trigger] cs.drop_first()[m]).address.len()
                == 20) by {
            assert(forall|m: int|
                0 <= m < cs.drop_first().len() ==> cs.drop_first()[m] == cs[m + 1]);
        }
        lemma_parse_configs_rest(s, k, acc.push(cs[0]), cs.drop_first());
        assert(acc.push(cs[0]) + cs.drop_first() =~= acc + cs);
    }
}

/// Parsing an encoded refund-recipient list yields the recipients back.
#[verifier::rlimit(100)]
pub proof fn lemma_parse_configs(s: Seq<u8>, i: int, cs: Seq<RefundConfigV>)
    requires
        0 <= i,
        forall|k: int| 0 <= k < cs.len() ==> (#[trigger] cs[k]).address.len() == 20,
        i + spec_enc_configs(cs).len() <= s.len(),
        s.subrange(i, i + spec_enc_configs(cs).len() as int) == spec_enc_configs(cs),
    ensures
        spec_parse_configs(s, i) == Some((cs, i + spec_enc_configs(cs).len() as int)),
{
    let e = spec_enc_configs(cs);
    lemma_region_byte(s, i, e, 0);
    assert(e[0] == LBRACK);
    lemma_tok_at(s, i, LBRACK);
    let j = i + 1;
    if cs.len() == 0 {
        lemma_region_byte(s, i, e, 1);
        assert(e[1] == RBRACK);
        lemma_tok_at(s, j, RBRACK);
    } else {
        let et = spec_enc_config(cs[0]);
        lemma_region_byte(s, i, e, 1);
        assert(e[1] == et[0]);
        assert(et[0] == LBRACE);
        lemma_tok_misses(s, j, RBRACK, LBRACE);
        lemma_region_sub(s, i, e, 1, 1 + et.len() as int);
        assert(e.subrange(1, 1 + et.len() as int) =~= et);
        lemma_parse_config(s, j, cs[0]);
        let k = j + et.len() as int;
        let er = spec_enc_configs_rest(cs.drop_first());
        lemma_region_sub(s, i, e, k - i, k - i + er.len() as int);
        assert(e.subrange(k - i, k - i + er.len() as int) =~= er);
        assert(forall|m: int|
            0 <= m < cs.drop_first().len() ==> (#[trigger] cs.drop_first()[m]).address.len()
                == 20) by {
            assert(forall|m: int|
                0 <= m < cs.drop_first().len() ==> cs.drop_first()[m] == cs[m + 1]);
        }
        lemma_parse_configs_rest(s, k, seq![cs[0]], cs.drop_first());
        assert(seq![cs[0]] + cs.drop_first() =~= cs);
    }
}

// ---------------------------------------------------------------------------
// Builder allow-lists
// ---------------------------------------------------------------------------

/// Encoded tail of a builder list: quoted addresses.
pub open spec fn spec_enc_builders_rest(bs: Seq<Seq<u8>>) -> Seq<u8>
    decreases bs.len(),
{
    if bs.len() == 0 {
        seq![RBRACK]
    } else {
        seq![COMMA] + spec_enc_hex_data(bs[0]) + spec_enc_builders_rest(bs.drop_first())
    }
}

/// Encoded builder list.
pub open spec fn spec_enc_builders(bs: Seq<Seq<u8>>) -> Seq<u8> {
    if bs.len() == 0 {
        seq![LBRACK, RBRACK]
    } else {
        seq![LBRACK] + spec_enc_hex_data(bs[0]) + spec_enc_builders_rest(bs.drop_first())
    }
}

/// Parses a builder address: a quoted 20-byte hex string.
pub open spec fn spec_parse_builder(s: Seq<u8>, i: int) -> Option<(Seq<u8>, int)> {
    match spec_parse_hex_data(s, i) {
        Some((a, j)) => if a.len() == 20 {
            Some((a, j))
        } else {
            None
        },
        None => None,
    }
}

/// Parses the tail of a builder list.
pub open spec fn spec_parse_builders_rest(s: Seq<u8>, i: int, acc: Seq<Seq<u8>>) -> Option<
    (Seq<Seq<u8>>, int),
>
    decreases s.len() - i,
{
    match spec_tok(s, i, RBRACK) {
        Some(j) => Some((acc, j)),
        None => match spec_tok(s, i, COMMA) {
            Some(j) => match spec_parse_builder(s, j) {
                Some((t, k)) => if i < k <= s.len() {
                    spec_parse_builders_rest(s, k, acc.push(t))
                } else {
                    None
                },
                None => None,
            },
            None => None,
        },
    }
}

/// Parses a builder list.
pub open spec fn spec_parse_builders(s: Seq<u8>, i: int) -> Option<(Seq<Seq<u8>>, int)> {
    match spec_tok(s, i, LBRACK) {
        Some(j) => match spec_tok(s, j, RBRACK) {
            Some(k) => Some((Seq::empty(), k)),
            None => match spec_parse_builder(s, j) {
                Some((t, k)) => if j < k <= s.len() {
                    spec_parse_builders_rest(s, k, seq![t])
                } else {
                    None
                },
                None => None,
            },
        },
        None => None,
    }
}

/// Parsing an encoded builder-list tail appends the addresses.
#[verifier::rlimit(100)]
pub proof fn lemma_parse_builders_rest(s: Seq<u8>, i: int, acc: Seq<Seq<u8>>, bs: Seq<Seq<u8>>)
    requires
        0 <= i,
        forall|k: int| 0 <= k < bs.len() ==> (#[trigger] bs[k]).len() == 20,
        i + spec_enc_builders_rest(bs).len() <= s.len(),
        s.subrange(i, i + spec_enc_builders_rest(bs).len() as int) == spec_enc_builders_rest(bs),
    ensures
        spec_parse_builders_rest(s, i, acc) == Some(
            (acc + bs, i + spec_enc_builders_rest(bs).len() as int),
        ),
    decreases bs.len(),
{
    let e = spec_enc_builders_rest(bs);
    if bs.len() == 0 {
        lemma_region_byte(s, i, e, 0);
        assert(e[0] == RBRACK);
        lemma_tok_at(s, i, RBRACK);
        assert(acc + bs =~= acc);
    } else {
        lemma_region_byte(s, i, e, 0);
        assert(e[0] == COMMA);
        lemma_tok_misses(s, i, RBRACK, COMMA);
        lemma_tok_at(s, i, COMMA);
        let et = spec_enc_hex_data(bs[0]);
        lemma_region_sub(s, i, e, 1, 1 + et.len() as int);
        assert(e.subrange(1, 1 + et.len() as int) =~= et);
        lemma_parse_hex_data(s, i + 1, bs[0]);
        let k = i + 1 + et.len() as int;
        let er = spec_enc_builders_rest(bs.drop_first());
        lemma_region_sub(s, i, e, k - i, k - i + er.len() as int);
        assert(e.subrange(k - i, k - i + er.len() as int) =~= er);
        assert(forall|m: int|
            0 <= m < bs.drop_first().len() ==> (#[trigger] bs.drop_first()[m]).len() == 20) by {
            assert(forall|m: int|
                0 <= m < bs.drop_first().len() ==> bs.drop_first()[m] == bs[m + 1]);
        }
        lemma_parse_builders_rest(s, k, acc.push(bs[0]), bs.drop_first());
        assert(acc.push(bs[0]) + bs.drop_first() =~= acc + bs);
    }
}

/// Parsing an encoded builder list yields the addresses back.
#[verifier::rlimit(100)]
pub proof fn lemma_parse_builders(s: Seq<u8>, i: int, bs: Seq<Seq<u8>>)
    requires
        0 <= i,
        forall|k: int| 0 <= k < bs.len() ==> (#[trigger] bs[k]).len() == 20,
        i + spec_enc_builders(bs).len() <= s.len(),
        s.subrange(i, i + spec_enc_builders(bs).len() as int) == spec_enc_builders(bs),
    ensures
        spec_parse_builders(s, i) == Some((bs, i + spec_enc_builders(bs).len() as int)),
{
    let e = spec_enc_builders(bs);
    lemma_region_byte(s, i, e, 0);
    assert(e[0] == LBRACK);
    lemma_tok_at(s, i, LBRACK);
    let j = i + 1;
    if bs.len() == 0 {
        lemma_region_byte(s, i, e, 1);
        assert(e[1] == RBRACK);
        lemma_tok_at(s, j, RBRACK);
    } else {
        let et = spec_enc_hex_data(bs[0]);
        lemma_region_byte(s, i, e, 1);
        assert(e[1] == et[0]);
        assert(et[0] == QUOTE);
        lemma_tok_misses(s, j, RBRACK, QUOTE);
        lemma_region_sub(s, i, e, 1, 1 + et.len() as int);
        assert(e.subrange(1, 1 + et.len() as int) =~= et);
        lemma_parse_hex_data(s, j, bs[0]);
        let k = j + et.len() as int;
        let er = spec_enc_builders_rest(bs.drop_first());
        lemma_region_sub(s, i, e, k - i, k - i + er.len() as int);
        assert(e.subrange(k - i, k - i + er.len() as int) =~= er);
        assert(forall|m: int|
            0 <= m < bs.drop_first().len() ==> (#[trigger] bs.drop_first()[m]).len() == 20) by {
            assert(forall|m: int|
                0 <= m < bs.drop_first().len() ==> bs.drop_first()[m] == bs[m + 1]);
        }
        lemma_parse_builders_rest(s, k, seq![bs[0]], bs.drop_first());
        assert(seq![bs[0]] + bs.drop_first() =~= bs);
    }
}


// ---------------------------------------------------------------------------
// Privacy hint tags
// ---------------------------------------------------------------------------

/// One privacy hint tag.
#[derive(Clone, Copy, Debug, PartialEq, Eq)]
pub enum HintTag {
    /// The `calldata` tag.
    Calldata,
    /// The `contract_address` tag.
    ContractAddress,
    /// The `logs` tag.
    Logs,
    /// The `function_selector` tag.
    FunctionSelector,
    /// The `hash` tag.
    Hash,
    /// The `tx_hash` tag.
    TxHash,
}

/// The quoted wire form of one tag.
pub open spec fn tag_lit(t: HintTag) -> Seq<u8> {
    match t {
        HintTag::Calldata => seq![QUOTE] + lit("calldata") + seq![QUOTE],
        HintTag::ContractAddress => seq![QUOTE] + lit("contract_address") + seq![QUOTE],
        HintTag::Logs => seq![QUOTE] + lit("logs") + seq![QUOTE],
        HintTag::FunctionSelector => seq![QUOTE] + lit("function_selector") + seq![QUOTE],
        HintTag::Hash => seq![QUOTE] + lit("hash") + seq![QUOTE],
        HintTag::TxHash => seq![QUOTE] + lit("tx_hash") + seq![QUOTE],
    }
}

/// Sets the flag a tag names.
pub open spec fn apply_tag(h: PrivacyHint, t: HintTag) -> PrivacyHint {
    match t {
        HintTag::Calldata => PrivacyHint { calldata: true, ..h },
        HintTag::ContractAddress => PrivacyHint { contract_address: true, ..h },
        HintTag::Logs => PrivacyHint { logs: true, ..h },
        HintTag::FunctionSelector => PrivacyHint { function_selector: true, ..h },
        HintTag::Hash => PrivacyHint { hash: true, ..h },
        HintTag::TxHash => PrivacyHint { tx_hash: true, ..h },
    }
}

/// Applies a list of tags left to right.
pub open spec fn apply_tags(h: PrivacyHint, ts: Seq<HintTag>) -> PrivacyHint
    decreases ts.len(),
{
    if ts.len() == 0 {
        h
    } else {
        apply_tags(apply_tag(h, ts[0]), ts.drop_first())
    }
}

/// The tags of a hint set, in the fixed wire order.
pub open spec fn hint_tags(h: PrivacyHint) -> Seq<HintTag> {
    (if h.calldata {
        seq![HintTag::Calldata]
    } else {
        Seq::empty()
    }) + (if h.contract_address {
        seq![HintTag::ContractAddress]
    } else {
        Seq::empty()
    }) + (if h.logs {
        seq![HintTag::Logs]
    } else {
        Seq::empty()
    }) + (if h.function_selector {
        seq![HintTag::FunctionSelector]
    } else {
        Seq::empty()
    }) + (if h.hash {
        seq![HintTag::Hash]
    } else {
        Seq::empty()
    }) + (if h.tx_hash {
        seq![HintTag::TxHash]
    } else {
        Seq::empty()
    })
}

/// Applying concatenated tag lists applies them in turn.
pub proof fn lemma_apply_tags_concat(h: PrivacyHint, a: Seq<HintTag>, b: Seq<HintTag>)
    ensures
        apply_tags(h, a + b) == apply_tags(apply_tags(h, a), b),
    decreases a.len(),
{
    if a.len() == 0 {
        assert(a + b =~= b);
    } else {
        assert((a + b).drop_first() =~= a.drop_first() + b);
        assert((a + b)[0] == a[0]);
        lemma_apply_tags_concat(apply_tag(h, a[0]), a.drop_first(), b);
    }
}

/// Applying one tag as a singleton list applies the tag.
pub proof fn lemma_apply_tags_singleton(h: PrivacyHint, t: HintTag)
    ensures
        apply_tags(h, seq![t]) == apply_tag(h, t),
{
    assert(seq![t].drop_first() =~= Seq::<HintTag>::empty());
    assert(apply_tags(apply_tag(h, t), Seq::<HintTag>::empty()) == apply_tag(h, t));
}

/// Replaying the tags of a hint set onto an empty set rebuilds it.
pub proof fn lemma_hint_tags_apply(h: PrivacyHint)
    ensures
        apply_tags(
            PrivacyHint {
                calldata: false,
                contract_address: false,
                logs: false,
                function_selector: false,
                hash: false,
                tx_hash: false,
            },
            hint_tags(h),
        ) == h,
{
    let h0 = PrivacyHint {
        calldata: false,
        contract_address: false,
        logs: false,
        function_selector: false,
        hash: false,
        tx_hash: false,
    };
    let c0 = if h.calldata { seq![HintTag::Calldata] } else { Seq::<HintTag>::empty() };
    let c1 = if h.contract_address {
        seq![HintTag::ContractAddress]
    } else {
        Seq::<HintTag>::empty()
    };
    let c2 = if h.logs { seq![HintTag::Logs] } else { Seq::<HintTag>::empty() };
    let c3 = if h.function_selector {
        seq![HintTag::FunctionSelector]
    } else {
        Seq::<HintTag>::empty()
    };
    let c4 = if h.hash { seq![HintTag::Hash] } else { Seq::<HintTag>::empty() };
    let c5 = if h.tx_hash { seq![HintTag::TxHash] } else { Seq::<HintTag>::empty() };
    lemma_apply_tags_concat(h0, c0 + c1 + c2 + c3 + c4, c5);
    lemma_apply_tags_concat(h0, c0 + c1 + c2 + c3, c4);
    lemma_apply_tags_concat(h0, c0 + c1 + c2, c3);
    lemma_apply_tags_concat(h0, c0 + c1, c2);
    lemma_apply_tags_concat(h0, c0, c1);
    let h1 = apply_tags(h0, c0);
    let h2 = apply_tags(h1, c1);
    let h3 = apply_tags(h2, c2);
    let h4 = apply_tags(h3, c3);
    let h5 = apply_tags(h4, c4);
    if h.calldata {
        lemma_apply_tags_singleton(h0, HintTag::Calldata);
    }
    if h.contract_address {
        lemma_apply_tags_singleton(h1, HintTag::ContractAddress);
    }
    if h.logs {
        lemma_apply_tags_singleton(h2, HintTag::Logs);
    }
    if h.function_selector {
        lemma_apply_tags_singleton(h3, HintTag::FunctionSelector);
    }
    if h.hash {
        lemma_apply_tags_singleton(h4, HintTag::Hash);
    }
    if h.tx_hash {
        lemma_apply_tags_singleton(h5, HintTag::TxHash);
    }
}

/// Parses one tag, setting its flag on the accumulator.
pub open spec fn spec_parse_tag(s: Seq<u8>, i: int, acc: PrivacyHint) -> Option<
    (PrivacyHint, int),
> {
    let j = spec_skip_ws(s, i);
    match spec_expect(s, j, tag_lit(HintTag::Calldata)) {
        Some(k) => Some((apply_tag(acc, HintTag::Calldata), k)),
        None => match spec_expect(s, j, tag_lit(HintTag::ContractAddress)) {
            Some(k) => Some((apply_tag(acc, HintTag::ContractAddress), k)),
            None => match spec_expect(s, j, tag_lit(HintTag::Logs)) {
                Some(k) => Some((apply_tag(acc, HintTag::Logs), k)),
                None => match spec_expect(s, j, tag_lit(HintTag::FunctionSelector)) {
                    Some(k) => Some((apply_tag(acc, HintTag::FunctionSelector), k)),
                    None => match spec_expect(s, j, tag_lit(HintTag::Hash)) {
                        Some(k) => Some((apply_tag(acc, HintTag::Hash), k)),
                        None => match spec_expect(s, j, tag_lit(HintTag::TxHash)) {
                            Some(k) => Some((apply_tag(acc, HintTag::TxHash), k)),
                            None => None,
                        },
                    },
                },
            },
        },
    }
}

/// Parsing an encoded tag sets exactly its flag.
#[verifier::rlimit(100)]
pub proof fn lemma_parse_tag(s: Seq<u8>, i: int, acc: PrivacyHint, t: HintTag)
    requires
        0 <= i,
        i + tag_lit(t).len() <= s.len(),
        s.subrange(i, i + tag_lit(t).len() as int) == tag_lit(t),
    ensures
        spec_parse_tag(s, i, acc) == Some((apply_tag(acc, t), i + tag_lit(t).len() as int)),
{
    reveal_strlit("calldata");
    reveal_strlit("contract_address");
    reveal_strlit("logs");
    reveal_strlit("function_selector");
    reveal_strlit("hash");
    reveal_strlit("tx_hash");
    let e = tag_lit(t);
    lemma_region_byte(s, i, e, 0);
    assert(e[0] == QUOTE);
    lemma_skip_ws_noop(s, i);
    lemma_region_byte(s, i, e, 1);
    match t {
        HintTag::Calldata => {
            lemma_expect_region(s, i, tag_lit(HintTag::Calldata));
        },
        HintTag::ContractAddress => {
            lemma_region_byte(s, i, e, 2);
            assert(e[1] == 'c' as u8 && e[2] == 'o' as u8);
            lemma_expect_fails_at(s, i, tag_lit(HintTag::Calldata), 2);
            lemma_expect_region(s, i, tag_lit(HintTag::ContractAddress));
        },
        HintTag::Logs => {
            assert(e[1] == 'l' as u8);
            lemma_expect_fails_at(s, i, tag_lit(HintTag::Calldata), 1);
            lemma_expect_fails_at(s, i, tag_lit(HintTag::ContractAddress), 1);
            lemma_expect_region(s, i, tag_lit(HintTag::Logs));
        },
        HintTag::FunctionSelector => {
            assert(e[1] == 'f' as u8);
            lemma_expect_fails_at(s, i, tag_lit(HintTag::Calldata), 1);
            lemma_expect_fails_at(s, i, tag_lit(HintTag::ContractAddress), 1);
            lemma_expect_fails_at(s, i, tag_lit(HintTag::Logs), 1);
            lemma_expect_region(s, i, tag_lit(HintTag::FunctionSelector));
        },
        HintTag::Hash => {
            assert(e[1] == 'h' as u8);
            lemma_expect_fails_at(s, i, tag_lit(HintTag::Calldata), 1);
            lemma_expect_fails_at(s, i, tag_lit(HintTag::ContractAddress), 1);
            lemma_expect_fails_at(s, i, tag_lit(HintTag::Logs), 1);
            lemma_expect_fails_at(s, i, tag_lit(HintTag::FunctionSelector), 1);
            lemma_expect_region(s, i, tag_lit(HintTag::Hash));
        },
        HintTag::TxHash => {
            assert(e[1] == 't' as u8);
            lemma_expect_fails_at(s, i, tag_lit(HintTag::Calldata), 1);
            lemma_expect_fails_at(s, i, tag_lit(HintTag::ContractAddress), 1);
            lemma_expect_fails_at(s, i, tag_lit(HintTag::Logs), 1);
            lemma_expect_fails_at(s, i, tag_lit(HintTag::FunctionSelector), 1);
            lemma_expect_fails_at(s, i, tag_lit(HintTag::Hash), 1);
            lemma_expect_region(s, i, tag_lit(HintTag::TxHash));
        },
    }
}

/// Encoded tail of a tag list.
pub open spec fn spec_enc_tags_rest(ts: Seq<HintTag>) -> Seq<u8>
    decreases ts.len(),
{
    if ts.len() == 0 {
        seq![RBRACK]
    } else {
        seq![COMMA] + tag_lit(ts[0]) + spec_enc_tags_rest(ts.drop_first())
    }
}

/// Encoded tag list of a hint set, in the fixed wire order.
pub open spec fn spec_enc_hints(h: PrivacyHint) -> Seq<u8> {
    let ts = hint_tags(h);
    if ts.len() == 0 {
        seq![LBRACK, RBRACK]
    } else {
        seq![LBRACK] + tag_lit(ts[0]) + spec_enc_tags_rest(ts.drop_first())
    }
}

/// Parses the tail of a tag list.
pub open spec fn spec_parse_tags_rest(s: Seq<u8>, i: int, acc: PrivacyHint) -> Option<
    (PrivacyHint, int),
>
    decreases s.len() - i,
{
    match spec_tok(s, i, RBRACK) {
        Some(j) => Some((acc, j)),
        None => match spec_tok(s, i, COMMA) {
            Some(j) => match spec_parse_tag(s, j, acc) {
                Some((t, k)) => if i < k <= s.len() {
                    spec_parse_tags_rest(s, k, t)
                } else {
                    None
                },
                None => None,
            },
            None => None,
        },
    }
}

/// Parses a tag list into a hint set.
pub open spec fn spec_parse_hints(s: Seq<u8>, i: int) -> Option<(PrivacyHint, int)> {
    let h0 = PrivacyHint {
        calldata: false,
        contract_address: false,
        logs: false,
        function_selector: false,
        hash: false,
        tx_hash: false,
    };
    match spec_tok(s, i, LBRACK) {
        Some(j) => match spec_tok(s, j, RBRACK) {
            Some(k) => Some((h0, k)),
            None => match spec_parse_tag(s, j, h0) {
                Some((t, k)) => if j < k <= s.len() {
                    spec_parse_tags_rest(s, k, t)
                } else {
                    None
                },
                None => None,
            },
        },
        None => None,
    }
}

/// Parsing an encoded tag tail applies the remaining tags.
#[verifier::rlimit(100)]
pub proof fn lemma_parse_tags_rest(s: Seq<u8>, i: int, acc: PrivacyHint, ts: Seq<HintTag>)
    requires
        0 <= i,
        i + spec_enc_tags_rest(ts).len() <= s.len(),
        s.subrange(i, i + spec_enc_tags_rest(ts).len() as int) == spec_enc_tags_rest(ts),
    ensures
        spec_parse_tags_rest(s, i, acc) == Some(
            (apply_tags(acc, ts), i + spec_enc_tags_rest(ts).len() as int),
        ),
    decreases ts.len(),
{
    let e = spec_enc_tags_rest(ts);
    if ts.len() == 0 {
        lemma_region_byte(s, i, e, 0);
        assert(e[0] == RBRACK);
        lemma_tok_at(s, i, RBRACK);
    } else {
        lemma_region_byte(s, i, e, 0);
        assert(e[0] == COMMA);
        lemma_tok_misses(s, i, RBRACK, COMMA);
        lemma_tok_at(s, i, COMMA);
        let et = tag_lit(ts[0]);
        lemma_region_sub(s, i, e, 1, 1 + et.len() as int);
        assert(e.subrange(1, 1 + et.len() as int) =~= et);
        lemma_parse_tag(s, i + 1, acc, ts[0]);
        let k = i + 1 + et.len() as int;
        let er = spec_enc_tags_rest(ts.drop_first());
        lemma_region_sub(s, i, e, k - i, k - i + er.len() as int);
        assert(e.subrange(k - i, k - i + er.len() as int) =~= er);
        lemma_parse_tags_rest(s, k, apply_tag(acc, ts[0]), ts.drop_first());
    }
}

/// Parsing an encoded hint set yields the hint set back.
#[verifier::rlimit(100)]
pub proof fn lemma_parse_hints(s: Seq<u8>, i: int, h: PrivacyHint)
    requires
        0 <= i,
        i + spec_enc_hints(h).len() <= s.len(),
        s.subrange(i, i + spec_enc_hints(h).len() as int) == spec_enc_hints(h),
    ensures
        spec_parse_hints(s, i) == Some((h, i + spec_enc_hints(h).len() as int)),
{
    let h0 = PrivacyHint {
        calldata: false,
        contract_address: false,
        logs: false,
        function_selector: false,
        hash: false,
        tx_hash: false,
    };
    let e = spec_enc_hints(h);
    let ts = hint_tags(h);
    lemma_hint_tags_apply(h);
    lemma_region_byte(s, i, e, 0);
    assert(e[0] == LBRACK);
    lemma_tok_at(s, i, LBRACK);
    let j = i + 1;
    if ts.len() == 0 {
        lemma_region_byte(s, i, e, 1);
        assert(e[1] == RBRACK);
        lemma_tok_at(s, j, RBRACK);
        assert(h == h0);
    } else {
        let et = tag_lit(ts[0]);
        lemma_region_byte(s, i, e, 1);
        assert(e[1] == et[0]);
        assert(et[0] == QUOTE);
        lemma_tok_misses(s, j, RBRACK, QUOTE);
        lemma_region_sub(s, i, e, 1, 1 + et.len() as int);
        assert(e.subrange(1, 1 + et.len() as int) =~= et);
        lemma_parse_tag(s, j, h0, ts[0]);
        let k = j + et.len() as int;
        let er = spec_enc_tags_rest(ts.drop_first());
        lemma_region_sub(s, i, e, k - i, k - i + er.len() as int);
        assert(e.subrange(k - i, k - i + er.len() as int) =~= er);
        lemma_parse_tags_rest(s, k, apply_tag(h0, ts[0]), ts.drop_first());
        assert(apply_tags(h0, ts) == apply_tags(apply_tag(h0, ts[0]), ts.drop_first()));
    }
}


// ---------------------------------------------------------------------------
// Inclusion window
// ---------------------------------------------------------------------------

/// Encoded inclusion window: `{"block":...,"maxBlock":...}`.
pub open spec fn spec_enc_incl(block: u64, max_block: Option<u64>) -> Seq<u8> {
    seq![LBRACE] + key("block") + seq![COLON] + spec_enc_quantity(block) + (match max_block {
        Some(m) => seq![COMMA] + key("maxBlock") + seq![COLON] + spec_enc_quantity(m),
        None => Seq::empty(),
    }) + seq![RBRACE]
}

/// Parses an inclusion window.
pub open spec fn spec_parse_incl(s: Seq<u8>, i: int) -> Option<((u64, Option<u64>), int)> {
    match spec_tok(s, i, LBRACE) {
        Some(j) => match spec_key_colon(s, j, lit("block")) {
            Some(k) => match spec_parse_quantity(s, k) {
                Some((b, m)) => match spec_tok(s, m, RBRACE) {
                    Some(z) => Some(((b, None), z)),
                    None => match spec_tok(s, m, COMMA) {
                        Some(p) => match spec_key_colon(s, p, lit("maxBlock")) {
                            Some(q) => match spec_parse_quantity(s, q) {
                                Some((mb, r)) => match spec_tok(s, r, RBRACE) {
                                    Some(z) => Some(((b, Some(mb)), z)),
                                    None => None,
                                },
                                None => None,
                            },
                            None => None,
                        },
                        None => None,
                    },
                },
                None => None,
            },
            None => None,
        },
        None => None,
    }
}

/// Parsing an encoded inclusion window yields it back.
#[verifier::rlimit(100)]
pub proof fn lemma_parse_incl(s: Seq<u8>, i: int, block: u64, max_block: Option<u64>)
    requires
        0 <= i,
        i + spec_enc_incl(block, max_block).len() <= s.len(),
        s.subrange(i, i + spec_enc_incl(block, max_block).len() as int) == spec_enc_incl(
            block,
            max_block,
        ),
    ensures
        spec_parse_incl(s, i) == Some(
            ((block, max_block), i + spec_enc_incl(block, max_block).len() as int),
        ),
{
    reveal_strlit("block");
    reveal_strlit("maxBlock");
    let e = spec_enc_incl(block, max_block);
    lemma_region_byte(s, i, e, 0);
    assert(e[0] == LBRACE);
    lemma_tok_at(s, i, LBRACE);
    let j = i + 1;
    let kb = key("block");
    lemma_region_sub(s, i, e, 1, 1 + kb.len() as int);
    assert(e.subrange(1, 1 + kb.len() as int) =~= kb);
    lemma_region_byte(s, i, e, 1 + kb.len() as int);
    assert(e[1 + kb.len() as int] == COLON);
    lemma_key_colon_at(s, j, lit("block"));
    let k = j + kb.len() as int + 1;
    let eq = spec_enc_quantity(block);
    lemma_region_sub(s, i, e, k - i, k - i + eq.len() as int);
    assert(e.subrange(k - i, k - i + eq.len() as int) =~= eq);
    lemma_parse_quantity(s, k, block);
    let m = k + eq.len() as int;
    match max_block {
        None => {
            lemma_region_byte(s, i, e, m - i);
            assert(e[m - i] == RBRACE);
            lemma_tok_at(s, m, RBRACE);
            assert(m + 1 == i + e.len());
        },
        Some(mb) => {
            lemma_region_byte(s, i, e, m - i);
            assert(e[m - i] == COMMA);
            lemma_tok_misses(s, m, RBRACE, COMMA);
            lemma_tok_at(s, m, COMMA);
            let p = m + 1;
            let km = key("maxBlock");
            lemma_region_sub(s, i, e, p - i, p - i + km.len() as int);
            assert(e.subrange(p - i, p - i + km.len() as int) =~= km);
            lemma_region_byte(s, i, e, p - i + km.len() as int);
            assert(e[p - i + km.len() as int] == COLON);
            lemma_key_colon_at(s, p, lit("maxBlock"));
            let q = p + km.len() as int + 1;
            let eq2 = spec_enc_quantity(mb);
            lemma_region_sub(s, i, e, q - i, q - i + eq2.len() as int);
            assert(e.subrange(q - i, q - i + eq2.len() as int) =~= eq2);
            lemma_parse_quantity(s, q, mb);
            let r = q + eq2.len() as int;
            lemma_region_byte(s, i, e, r - i);
            assert(e[r - i] == RBRACE);
            lemma_tok_at(s, r, RBRACE);
            assert(r + 1 == i + e.len());
        },
    }
}

// ---------------------------------------------------------------------------
// Validity object
// ---------------------------------------------------------------------------

/// Encoded validity conditions.
#[verifier::opaque]
pub open spec fn spec_enc_validity(v: ValidityV) -> Seq<u8> {
    match (v.refund, v.refund_config) {
        (None, None) => seq![LBRACE, RBRACE],
        (Some(r), None) => seq![LBRACE] + key("refund") + seq![COLON] + spec_enc_refunds(r)
            + seq![RBRACE],
        (Some(r), Some(c)) => seq![LBRACE] + key("refund") + seq![COLON] + spec_enc_refunds(r)
            + seq![COMMA] + key("refundConfig") + seq![COLON] + spec_enc_configs(c)
            + seq![RBRACE],
        (None, Some(c)) => seq![LBRACE] + key("refundConfig") + seq![COLON] + spec_enc_configs(c)
            + seq![RBRACE],
    }
}

/// Parses validity conditions.
pub open spec fn spec_parse_validity(s: Seq<u8>, i: int) -> Option<(ValidityV, int)> {
    match spec_tok(s, i, LBRACE) {
        Some(j) => match spec_tok(s, j, RBRACE) {
            Some(z) => Some((ValidityV { refund: None, refund_config: None }, z)),
            None => match spec_key_colon(s, j, lit("refund")) {
                Some(k) => match spec_parse_refunds(s, k) {
                    Some((r, m)) => match spec_tok(s, m, RBRACE) {
                        Some(z) => Some(
                            (ValidityV { refund: Some(r), refund_config: None }, z),
                        ),
                        None => match spec_tok(s, m, COMMA) {
                            Some(p) => match spec_key_colon(s, p, lit("refundConfig")) {
                                Some(q) => match spec_parse_configs(s, q) {
                                    Some((c, r2)) => match spec_tok(s, r2, RBRACE) {
                                        Some(z) => Some(
                                            (
                                                ValidityV {
                                                    refund: Some(r),
                                                    refund_config: Some(c),
                                                },
                                                z,
                                            ),
                                        ),
                                        None => None,
                                    },
                                    None => None,
                                },
                                None => None,
                            },
                            None => None,
                        },
                    },
                    None => None,
                },
                None => match spec_key_colon(s, j, lit("refundConfig")) {
                    Some(k) => match spec_parse_configs(s, k) {
                        Some((c, m)) => match spec_tok(s, m, RBRACE) {
                            Some(z) => Some(
                                (ValidityV { refund: None, refund_config: Some(c) }, z),
                            ),
                            None => None,
                        },
                        None => None,
                    },
                    None => None,
                },
            },
        },
        None => None,
    }
}

/// One case of [`lemma_parse_validity`].
#[verifier::rlimit(100)]
proof fn lemma_parse_validity_none_none(s: Seq<u8>, i: int, v: ValidityV)
    requires
        0 <= i,
        v.refund is None && v.refund_config is None,
        
        i + spec_enc_validity(v).len() <= s.len(),
        s.subrange(i, i + spec_enc_validity(v).len() as int) == spec_enc_validity(v),
    ensures
        spec_parse_validity(s, i) == Some((v, i + spec_enc_validity(v).len() as int)),
{
    reveal(spec_enc_validity);
    reveal_strlit("refund");
    reveal_strlit("refundConfig");
    let e = spec_enc_validity(v);
    lemma_region_byte(s, i, e, 0);
    assert(e[0] == LBRACE);
    lemma_tok_at(s, i, LBRACE);
    let j = i + 1;

            lemma_region_byte(s, i, e, 1);
            assert(e[1] == RBRACE);
            lemma_tok_at(s, j, RBRACE);
        }

/// One case of [`lemma_parse_validity`].
#[verifier::rlimit(100)]
proof fn lemma_parse_validity_refund_only(s: Seq<u8>, i: int, v: ValidityV)
    requires
        0 <= i,
        v.refund is Some && v.refund_config is None,
        
        i + spec_enc_validity(v).len() <= s.len(),
        s.subrange(i, i + spec_enc_validity(v).len() as int) == spec_enc_validity(v),
    ensures
        spec_parse_validity(s, i) == Some((v, i + spec_enc_validity(v).len() as int)),
{
    reveal(spec_enc_validity);
    reveal_strlit("refund");
    reveal_strlit("refundConfig");
    let e = spec_enc_validity(v);
    lemma_region_byte(s, i, e, 0);
    assert(e[0] == LBRACE);
    lemma_tok_at(s, i, LBRACE);
    let j = i + 1;
    let r = v.refund->Some_0;

            let kr = key("refund");
            lemma_region_byte(s, i, e, 1);
            assert(e[1] == QUOTE);
            lemma_tok_misses(s, j, RBRACE, QUOTE);
            lemma_region_sub(s, i, e, 1, 1 + kr.len() as int);
            assert(e.subrange(1, 1 + kr.len() as int) =~= kr);
            lemma_region_byte(s, i, e, 1 + kr.len() as int);
            assert(e[1 + kr.len() as int] == COLON);
            lemma_key_colon_at(s, j, lit("refund"));
            let k = j + kr.len() as int + 1;
            let er = spec_enc_refunds(r);
            lemma_region_sub(s, i, e, k - i, k - i + er.len() as int);
            assert(e.subrange(k - i, k - i + er.len() as int) =~= er);
            lemma_parse_refunds(s, k, r);
            let m = k + er.len() as int;
            lemma_region_byte(s, i, e, m - i);
            assert(e[m - i] == RBRACE);
            lemma_tok_at(s, m, RBRACE);
            assert(m + 1 == i + e.len());
        }

/// One case of [`lemma_parse_validity`].
#[verifier::rlimit(100)]
proof fn lemma_parse_validity_both(s: Seq<u8>, i: int, v: ValidityV)
    requires
        0 <= i,
        v.refund is Some && v.refund_config is Some,
        match v.refund_config {
            Some(cs) => forall|k: int| 0 <= k < cs.len() ==> (#[trigger] cs[k]).address.len()
                == 20,
            None => true,
        },
        
        i + spec_enc_validity(v).len() <= s.len(),
        s.subrange(i, i + spec_enc_validity(v).len() as int) == spec_enc_validity(v),
    ensures
        spec_parse_validity(s, i) == Some((v, i + spec_enc_validity(v).len() as int)),
{
    reveal(spec_enc_validity);
    reveal_strlit("refund");
    reveal_strlit("refundConfig");
    let e = spec_enc_validity(v);
    lemma_region_byte(s, i, e, 0);
    assert(e[0] == LBRACE);
    lemma_tok_at(s, i, LBRACE);
    let j = i + 1;
    let r = v.refund->Some_0;
    let c = v.refund_config->Some_0;

            let kr = key("refund");
            lemma_region_byte(s, i, e, 1);
            assert(e[1] == QUOTE);
            lemma_tok_misses(s, j, RBRACE, QUOTE);
            lemma_region_sub(s, i, e, 1, 1 + kr.len() as int);
            assert(e.subrange(1, 1 + kr.len() as int) =~= kr);
            lemma_region_byte(s, i, e, 1 + kr.len() as int);
            assert(e[1 + kr.len() as int] == COLON);
            lemma_key_colon_at(s, j, lit("refund"));
            let k = j + kr.len() as int + 1;
            let er = spec_enc_refunds(r);
            lemma_region_sub(s, i, e, k - i, k - i + er.len() as int);
            assert(e.subrange(k - i, k - i + er.len() as int) =~= er);
            lemma_parse_refunds(s, k, r);
            let m = k + er.len() as int;
            lemma_region_byte(s, i, e, m - i);
            assert(e[m - i] == COMMA);
            lemma_tok_misses(s, m, RBRACE, COMMA);
            lemma_tok_at(s, m, COMMA);
            let p = m + 1;
            let kc = key("refundConfig");
            lemma_region_sub(s, i, e, p - i, p - i + kc.len() as int);
            assert(e.subrange(p - i, p - i + kc.len() as int) =~= kc);
            lemma_region_byte(s, i, e, p - i + kc.len() as int);
            assert(e[p - i + kc.len() as int] == COLON);
            lemma_key_colon_at(s, p, lit("refundConfig"));
            let q = p + kc.len() as int + 1;
            let ec = spec_enc_configs(c);
            lemma_region_sub(s, i, e, q - i, q - i + ec.len() as int);
            assert(e.subrange(q - i, q - i + ec.len() as int) =~= ec);
            lemma_parse_configs(s, q, c);
            let r2 = q + ec.len() as int;
            lemma_region_byte(s, i, e, r2 - i);
            assert(e[r2 - i] == RBRACE);
            lemma_tok_at(s, r2, RBRACE);
            assert(r2 + 1 == i + e.len());
        }

/// One case of [`lemma_parse_validity`].
#[verifier::rlimit(100)]
proof fn lemma_parse_validity_config_only(s: Seq<u8>, i: int, v: ValidityV)
    requires
        0 <= i,
        v.refund is None && v.refund_config is Some,
        match v.refund_config {
            Some(cs) => forall|k: int| 0 <= k < cs.len() ==> (#[trigger] cs[k]).address.len()
                == 20,
            None => true,
        },
        
        i + spec_enc_validity(v).len() <= s.len(),
        s.subrange(i, i + spec_enc_validity(v).len() as int) == spec_enc_validity(v),
    ensures
        spec_parse_validity(s, i) == Some((v, i + spec_enc_validity(v).len() as int)),
{
    reveal(spec_enc_validity);
    reveal_strlit("refund");
    reveal_strlit("refundConfig");
    let e = spec_enc_validity(v);
    lemma_region_byte(s, i, e, 0);
    assert(e[0] == LBRACE);
    lemma_tok_at(s, i, LBRACE);
    let j = i + 1;
    let c = v.refund_config->Some_0;

            let kc = key("refundConfig");
            lemma_region_byte(s, i, e, 1);
            assert(e[1] == QUOTE);
            lemma_tok_misses(s, j, RBRACE, QUOTE);
            // The shorter `refund` key is refused: where it expects its
            // closing quote, the longer key has a capital `C`.
            lemma_region_byte(s, i, e, 8);
            assert(e[8] == 'C' as u8);
            assert((seq![QUOTE] + lit("refund") + seq![QUOTE])[7] == QUOTE);
            lemma_expect_fails_at(s, j, seq![QUOTE] + lit("refund") + seq![QUOTE], 7);
            lemma_skip_ws_noop(s, j);
            lemma_region_sub(s, i, e, 1, 1 + kc.len() as int);
            assert(e.subrange(1, 1 + kc.len() as int) =~= kc);
            lemma_region_byte(s, i, e, 1 + kc.len() as int);
            assert(e[1 + kc.len() as int] == COLON);
            lemma_key_colon_at(s, j, lit("refundConfig"));
            let k = j + kc.len() as int + 1;
            let ec = spec_enc_configs(c);
            lemma_region_sub(s, i, e, k - i, k - i + ec.len() as int);
            assert(e.subrange(k - i, k - i + ec.len() as int) =~= ec);
            lemma_parse_configs(s, k, c);
            let m = k + ec.len() as int;
            lemma_region_byte(s, i, e, m - i);
            assert(e[m - i] == RBRACE);
            lemma_tok_at(s, m, RBRACE);
            assert(m + 1 == i + e.len());
        }

/// Parsing encoded validity conditions yields them back.
pub proof fn lemma_parse_validity(s: Seq<u8>, i: int, v: ValidityV)
    requires
        0 <= i,
        match v.refund_config {
            Some(cs) => forall|k: int| 0 <= k < cs.len() ==> (#[trigger] cs[k]).address.len()
                == 20,
            None => true,
        },
        i + spec_enc_validity(v).len() <= s.len(),
        s.subrange(i, i + spec_enc_validity(v).len() as int) == spec_enc_validity(v),
    ensures
        spec_parse_validity(s, i) == Some((v, i + spec_enc_validity(v).len() as int)),
{
    match (v.refund, v.refund_config) {
        (None, None) => lemma_parse_validity_none_none(s, i, v),
        (Some(r), None) => lemma_parse_validity_refund_only(s, i, v),
        (Some(r), Some(c)) => lemma_parse_validity_both(s, i, v),
        (None, Some(c)) => lemma_parse_validity_config_only(s, i, v),
    }
}

// ---------------------------------------------------------------------------
// Privacy object
// ---------------------------------------------------------------------------

/// Encoded privacy preferences.
#[verifier::opaque]
pub open spec fn spec_enc_privacy(p: PrivacyV) -> Seq<u8> {
    match (p.hints, p.builders) {
        (None, None) => seq![LBRACE, RBRACE],
        (Some(h), None) => seq![LBRACE] + key("hints") + seq![COLON] + spec_enc_hints(h)
            + seq![RBRACE],
        (Some(h), Some(b)) => seq![LBRACE] + key("hints") + seq![COLON] + spec_enc_hints(h)
            + seq![COMMA] + key("builders") + seq![COLON] + spec_enc_builders(b) + seq![RBRACE],
        (None, Some(b)) => seq![LBRACE] + key("builders") + seq![COLON] + spec_enc_builders(b)
            + seq![RBRACE],
    }
}

/// Parses privacy preferences.
pub open spec fn spec_parse_privacy(s: Seq<u8>, i: int) -> Option<(PrivacyV, int)> {
    match spec_tok(s, i, LBRACE) {
        Some(j) => match spec_tok(s, j, RBRACE) {
            Some(z) => Some((PrivacyV { hints: None, builders: None }, z)),
            None => match spec_key_colon(s, j, lit("hints")) {
                Some(k) => match spec_parse_hints(s, k) {
                    Some((h, m)) => match spec_tok(s, m, RBRACE) {
                        Some(z) => Some((PrivacyV { hints: Some(h), builders: None }, z)),
                        None => match spec_tok(s, m, COMMA) {
                            Some(p) => match spec_key_colon(s, p, lit("builders")) {
                                Some(q) => match spec_parse_builders(s, q) {
                                    Some((b, r2)) => match spec_tok(s, r2, RBRACE) {
                                        Some(z) => Some(
                                            (
                                                PrivacyV {
                                                    hints: Some(h),
                                                    builders: Some(b),
                                                },
                                                z,
                                            ),
                                        ),
                                        None => None,
                                    },
                                    None => None,
                                },
                                None => None,
                            },
                            None => None,
                        },
                    },
                    None => None,
                },
                None => match spec_key_colon(s, j, lit("builders")) {
                    Some(k) => match spec_parse_builders(s, k) {
                        Some((b, m)) => match spec_tok(s, m, RBRACE) {
                            Some(z) => Some(
                                (PrivacyV { hints: None, builders: Some(b) }, z),
                            ),
                            None => None,
                        },
                        None => None,
                    },
                    None => None,
                },
            },
        },
        None => None,
    }
}

/// One case of [`lemma_parse_privacy`].
#[verifier::rlimit(100)]
proof fn lemma_parse_privacy_none_none(s: Seq<u8>, i: int, p: PrivacyV)
    requires
        0 <= i,
        p.hints is None && p.builders is None,
        
        i + spec_enc_privacy(p).len() <= s.len(),
        s.subrange(i, i + spec_enc_privacy(p).len() as int) == spec_enc_privacy(p),
    ensures
        spec_parse_privacy(s, i) == Some((p, i + spec_enc_privacy(p).len() as int)),
{
    reveal(spec_enc_privacy);
    reveal_strlit("hints");
    reveal_strlit("builders");
    let e = spec_enc_privacy(p);
    lemma_region_byte(s, i, e, 0);
    assert(e[0] == LBRACE);
    lemma_tok_at(s, i, LBRACE);
    let j = i + 1;

            lemma_region_byte(s, i, e, 1);
            assert(e[1] == RBRACE);
            lemma_tok_at(s, j, RBRACE);
        }

/// One case of [`lemma_parse_privacy`].
#[verifier::rlimit(100)]
proof fn lemma_parse_privacy_hints_only(s: Seq<u8>, i: int, p: PrivacyV)
    requires
        0 <= i,
        p.hints is Some && p.builders is None,
        
        i + spec_enc_privacy(p).len() <= s.len(),
        s.subrange(i, i + spec_enc_privacy(p).len() as int) == spec_enc_privacy(p),
    ensures
        spec_parse_privacy(s, i) == Some((p, i + spec_enc_privacy(p).len() as int)),
{
    reveal(spec_enc_privacy);
    reveal_strlit("hints");
    reveal_strlit("builders");
    let e = spec_enc_privacy(p);
    lemma_region_byte(s, i, e, 0);
    assert(e[0] == LBRACE);
    lemma_tok_at(s, i, LBRACE);
    let j = i + 1;
    let h = p.hints->Some_0;

            let kh = key("hints");
            lemma_region_byte(s, i, e, 1);
            assert(e[1] == QUOTE);
            lemma_tok_misses(s, j, RBRACE, QUOTE);
            lemma_region_sub(s, i, e, 1, 1 + kh.len() as int);
            assert(e.subrange(1, 1 + kh.len() as int) =~= kh);
            lemma_region_byte(s, i, e, 1 + kh.len() as int);
            assert(e[1 + kh.len() as int] == COLON);
            lemma_key_colon_at(s, j, lit("hints"));
            let k = j + kh.len() as int + 1;
            let eh = spec_enc_hints(h);
            lemma_region_sub(s, i, e, k - i, k - i + eh.len() as int);
            assert(e.subrange(k - i, k - i + eh.len() as int) =~= eh);
            lemma_parse_hints(s, k, h);
            let m = k + eh.len() as int;
            lemma_region_byte(s, i, e, m - i);
            assert(e[m - i] == RBRACE);
            lemma_tok_at(s, m, RBRACE);
            assert(m + 1 == i + e.len());
        }

/// One case of [`lemma_parse_privacy`].
#[verifier::rlimit(100)]
proof fn lemma_parse_privacy_both(s: Seq<u8>, i: int, p: PrivacyV)
    requires
        0 <= i,
        p.hints is Some && p.builders is Some,
        match p.builders {
            Some(bs) => forall|k: int| 0 <= k < bs.len() ==> (#[trigger] bs[k]).len() == 20,
            None => true,
        },
        
        i + spec_enc_privacy(p).len() <= s.len(),
        s.subrange(i, i + spec_enc_privacy(p).len() as int) == spec_enc_privacy(p),
    ensures
        spec_parse_privacy(s, i) == Some((p, i + spec_enc_privacy(p).len() as int)),
{
    reveal(spec_enc_privacy);
    reveal_strlit("hints");
    reveal_strlit("builders");
    let e = spec_enc_privacy(p);
    lemma_region_byte(s, i, e, 0);
    assert(e[0] == LBRACE);
    lemma_tok_at(s, i, LBRACE);
    let j = i + 1;
    let h = p.hints->Some_0;
    let b = p.builders->Some_0;

            let kh = key("hints");
            lemma_region_byte(s, i, e, 1);
            assert(e[1] == QUOTE);
            lemma_tok_misses(s, j, RBRACE, QUOTE);
            lemma_region_sub(s, i, e, 1, 1 + kh.len() as int);
            assert(e.subrange(1, 1 + kh.len() as int) =~= kh);
            lemma_region_byte(s, i, e, 1 + kh.len() as int);
            assert(e[1 + kh.len() as int] == COLON);
            lemma_key_colon_at(s, j, lit("hints"));
            let k = j + kh.len() as int + 1;
            let eh = spec_enc_hints(h);
            lemma_region_sub(s, i, e, k - i, k - i + eh.len() as int);
            assert(e.subrange(k - i, k - i + eh.len() as int) =~= eh);
            lemma_parse_hints(s, k, h);
            let m = k + eh.len() as int;
            lemma_region_byte(s, i, e, m - i);
            assert(e[m - i] == COMMA);
            lemma_tok_misses(s, m, RBRACE, COMMA);
            lemma_tok_at(s, m, COMMA);
            let p2 = m + 1;
            let kb = key("builders");
            lemma_region_sub(s, i, e, p2 - i, p2 - i + kb.len() as int);
            assert(e.subrange(p2 - i, p2 - i + kb.len() as int) =~= kb);
            lemma_region_byte(s, i, e, p2 - i + kb.len() as int);
            assert(e[p2 - i + kb.len() as int] == COLON);
            lemma_key_colon_at(s, p2, lit("builders"));
            let q = p2 + kb.len() as int + 1;
            let eb = spec_enc_builders(b);
            lemma_region_sub(s, i, e, q - i, q - i + eb.len() as int);
            assert(e.subrange(q - i, q - i + eb.len() as int) =~= eb);
            lemma_parse_builders(s, q, b);
            let r2 = q + eb.len() as int;
            lemma_region_byte(s, i, e, r2 - i);
            assert(e[r2 - i] == RBRACE);
            lemma_tok_at(s, r2, RBRACE);
            assert(r2 + 1 == i + e.len());
        }

/// One case of [`lemma_parse_privacy`].
#[verifier::rlimit(100)]
proof fn lemma_parse_privacy_builders_only(s: Seq<u8>, i: int, p: PrivacyV)
    requires
        0 <= i,
        p.hints is None && p.builders is Some,
        match p.builders {
            Some(bs) => forall|k: int| 0 <= k < bs.len() ==> (#[trigger] bs[k]).len() == 20,
            None => true,
        },
        
        i + spec_enc_privacy(p).len() <= s.len(),
        s.subrange(i, i + spec_enc_privacy(p).len() as int) == spec_enc_privacy(p),
    ensures
        spec_parse_privacy(s, i) == Some((p, i + spec_enc_privacy(p).len() as int)),
{
    reveal(spec_enc_privacy);
    reveal_strlit("hints");
    reveal_strlit("builders");
    let e = spec_enc_privacy(p);
    lemma_region_byte(s, i, e, 0);
    assert(e[0] == LBRACE);
    lemma_tok_at(s, i, LBRACE);
    let j = i + 1;
    let b = p.builders->Some_0;

            let kb = key("builders");
            lemma_region_byte(s, i, e, 1);
            assert(e[1] == QUOTE);
            lemma_tok_misses(s, j, RBRACE, QUOTE);
            // The `hints` key is refused: the byte after the quote is `b`.
            lemma_region_byte(s, i, e, 2);
            assert(e[2] == 'b' as u8);
            assert((seq![QUOTE] + lit("hints") + seq![QUOTE])[1] == 'h' as u8);
            lemma_expect_fails_at(s, j, seq![QUOTE] + lit("hints") + seq![QUOTE], 1);
            lemma_skip_ws_noop(s, j);
            lemma_region_sub(s, i, e, 1, 1 + kb.len() as int);
            assert(e.subrange(1, 1 + kb.len() as int) =~= kb);
            lemma_region_byte(s, i, e, 1 + kb.len() as int);
            assert(e[1 + kb.len() as int] == COLON);
            lemma_key_colon_at(s, j, lit("builders"));
            let k = j + kb.len() as int + 1;
            let eb = spec_enc_builders(b);
            lemma_region_sub(s, i, e, k - i, k - i + eb.len() as int);
            assert(e.subrange(k - i, k - i + eb.len() as int) =~= eb);
            lemma_parse_builders(s, k, b);
            let m = k + eb.len() as int;
            lemma_region_byte(s, i, e, m - i);
            assert(e[m - i] == RBRACE);
            lemma_tok_at(s, m, RBRACE);
            assert(m + 1 == i + e.len());
        }

/// Parsing encoded privacy preferences yields them back.
pub proof fn lemma_parse_privacy(s: Seq<u8>, i: int, p: PrivacyV)
    requires
        0 <= i,
        match p.builders {
            Some(bs) => forall|k: int| 0 <= k < bs.len() ==> (#[trigger] bs[k]).len() == 20,
            None => true,
        },
        i + spec_enc_privacy(p).len() <= s.len(),
        s.subrange(i, i + spec_enc_privacy(p).len() as int) == spec_enc_privacy(p),
    ensures
        spec_parse_privacy(s, i) == Some((p, i + spec_enc_privacy(p).len() as int)),
{
    match (p.hints, p.builders) {
        (None, None) => lemma_parse_privacy_none_none(s, i, p),
        (Some(h), None) => lemma_parse_privacy_hints_only(s, i, p),
        (Some(h), Some(b)) => lemma_parse_privacy_both(s, i, p),
        (None, Some(b)) => lemma_parse_privacy_builders_only(s, i, p),
    }
}


// ---------------------------------------------------------------------------
// Whole bundles
// ---------------------------------------------------------------------------

/// Encoded optional trailer of a bundle: validity, privacy, closing brace.
pub open spec fn spec_enc_trailer(v: Option<ValidityV>, p: Option<PrivacyV>) -> Seq<u8> {
    (match v {
        Some(vv) => seq![COMMA] + key("validity") + seq![COLON] + spec_enc_validity(vv),
        None => Seq::empty(),
    }) + (match p {
        Some(pv) => seq![COMMA] + key("privacy") + seq![COLON] + spec_enc_privacy(pv),
        None => Seq::empty(),
    }) + seq![RBRACE]
}

/// Parses the optional trailer of a bundle.
pub open spec fn spec_parse_trailer(s: Seq<u8>, i: int) -> Option<
    ((Option<ValidityV>, Option<PrivacyV>), int),
> {
    match spec_tok(s, i, RBRACE) {
        Some(z) => Some(((None, None), z)),
        None => match spec_tok(s, i, COMMA) {
            Some(j) => match spec_key_colon(s, j, lit("validity")) {
                Some(k) => match spec_parse_validity(s, k) {
                    Some((vv, m)) => match spec_tok(s, m, RBRACE) {
                        Some(z) => Some(((Some(vv), None), z)),
                        None => match spec_tok(s, m, COMMA) {
                            Some(p) => match spec_key_colon(s, p, lit("privacy")) {
                                Some(q) => match spec_parse_privacy(s, q) {
                                    Some((pv, r)) => match spec_tok(s, r, RBRACE) {
                                        Some(z) => Some(((Some(vv), Some(pv)), z)),
                                        None => None,
                                    },
                                    None => None,
                                },
                                None => None,
                            },
                            None => None,
                        },
                    },
                    None => None,
                },
                None => match spec_key_colon(s, j, lit("privacy")) {
                    Some(k) => match spec_parse_privacy(s, k) {
                        Some((pv, m)) => match spec_tok(s, m, RBRACE) {
                            Some(z) => Some(((None, Some(pv)), z)),
                            None => None,
                        },
                        None => None,
                    },
                    None => None,
                },
            },
            None => None,
        },
    }
}

/// Well-formedness of the optional parts, as the codec needs it.
pub open spec fn trailer_wf(v: Option<ValidityV>, p: Option<PrivacyV>) -> bool {
    &&& match v {
        Some(vv) => match vv.refund_config {
            Some(cs) => forall|k: int| 0 <= k < cs.len() ==> (#[trigger] cs[k]).address.len()
                == 20,
            None => true,
        },
        None => true,
    }
    &&& match p {
        Some(pv) => match pv.builders {
            Some(bs) => forall|k: int| 0 <= k < bs.len() ==> (#[trigger] bs[k]).len() == 20,
            None => true,
        },
        None => true,
    }
}

/// One case of [`lemma_parse_trailer`]: neither part present.
#[verifier::rlimit(100)]
proof fn lemma_parse_trailer_none_none(s: Seq<u8>, i: int)
    requires
        0 <= i,
        i + 1 <= s.len(),
        s.subrange(i, i + 1) == spec_enc_trailer(None, None),
    ensures
        spec_parse_trailer(s, i) == Some(((None::<ValidityV>, None::<PrivacyV>), i + 1)),
{
    let e = spec_enc_trailer(None, None);
    assert(e =~= seq![RBRACE]);
    lemma_region_byte(s, i, e, 0);
    lemma_tok_at(s, i, RBRACE);
}

/// One case of [`lemma_parse_trailer`]: only validity present.
#[verifier::rlimit(100)]
proof fn lemma_parse_trailer_validity_only(s: Seq<u8>, i: int, vv: ValidityV)
    requires
        0 <= i,
        trailer_wf(Some(vv), None),
        i + spec_enc_trailer(Some(vv), None).len() <= s.len(),
        s.subrange(i, i + spec_enc_trailer(Some(vv), None).len() as int) == spec_enc_trailer(
            Some(vv),
            None,
        ),
    ensures
        spec_parse_trailer(s, i) == Some(
            ((Some(vv), None::<PrivacyV>), i + spec_enc_trailer(Some(vv), None).len() as int),
        ),
{
    reveal_strlit("validity");
    let e = spec_enc_trailer(Some(vv), None);
    lemma_region_byte(s, i, e, 0);
    assert(e[0] == COMMA);
    lemma_tok_misses(s, i, RBRACE, COMMA);
    lemma_tok_at(s, i, COMMA);
    let j = i + 1;
    let kv = key("validity");
    lemma_region_sub(s, i, e, 1, 1 + kv.len() as int);
    assert(e.subrange(1, 1 + kv.len() as int) =~= kv);
    lemma_region_byte(s, i, e, 1 + kv.len() as int);
    assert(e[1 + kv.len() as int] == COLON);
    lemma_key_colon_at(s, j, lit("validity"));
    let k = j + kv.len() as int + 1;
    let ev = spec_enc_validity(vv);
    lemma_region_sub(s, i, e, k - i, k - i + ev.len() as int);
    assert(e.subrange(k - i, k - i + ev.len() as int) =~= ev);
    lemma_parse_validity(s, k, vv);
    let m = k + ev.len() as int;
    lemma_region_byte(s, i, e, m - i);
    assert(e[m - i] == RBRACE);
    lemma_tok_at(s, m, RBRACE);
    assert(m + 1 == i + e.len());
}

/// One case of [`lemma_parse_trailer`]: both parts present.
#[verifier::rlimit(100)]
proof fn lemma_parse_trailer_both(s: Seq<u8>, i: int, vv: ValidityV, pv: PrivacyV)
    requires
        0 <= i,
        trailer_wf(Some(vv), Some(pv)),
        i + spec_enc_trailer(Some(vv), Some(pv)).len() <= s.len(),
        s.subrange(i, i + spec_enc_trailer(Some(vv), Some(pv)).len() as int) == spec_enc_trailer(
            Some(vv),
            Some(pv),
        ),
    ensures
        spec_parse_trailer(s, i) == Some(
            ((Some(vv), Some(pv)), i + spec_enc_trailer(Some(vv), Some(pv)).len() as int),
        ),
{
    reveal_strlit("validity");
    reveal_strlit("privacy");
    let e = spec_enc_trailer(Some(vv), Some(pv));
    lemma_region_byte(s, i, e, 0);
    assert(e[0] == COMMA);
    lemma_tok_misses(s, i, RBRACE, COMMA);
    lemma_tok_at(s, i, COMMA);
    let j = i + 1;
    let kv = key("validity");
    lemma_region_sub(s, i, e, 1, 1 + kv.len() as int);
    assert(e.subrange(1, 1 + kv.len() as int) =~= kv);
    lemma_region_byte(s, i, e, 1 + kv.len() as int);
    assert(e[1 + kv.len() as int] == COLON);
    lemma_key_colon_at(s, j, lit("validity"));
    let k = j + kv.len() as int + 1;
    let ev = spec_enc_validity(vv);
    lemma_region_sub(s, i, e, k - i, k - i + ev.len() as int);
    assert(e.subrange(k - i, k - i + ev.len() as int) =~= ev);
    lemma_parse_validity(s, k, vv);
    let m = k + ev.len() as int;
    lemma_region_byte(s, i, e, m - i);
    assert(e[m - i] == COMMA);
    lemma_tok_misses(s, m, RBRACE, COMMA);
    lemma_tok_at(s, m, COMMA);
    let p = m + 1;
    let kp = key("privacy");
    lemma_region_sub(s, i, e, p - i, p - i + kp.len() as int);
    assert(e.subrange(p - i, p - i + kp.len() as int) =~= kp);
    lemma_region_byte(s, i, e, p - i + kp.len() as int);
    assert(e[p - i + kp.len() as int] == COLON);
    lemma_key_colon_at(s, p, lit("privacy"));
    let q = p + kp.len() as int + 1;
    let ep = spec_enc_privacy(pv);
    lemma_region_sub(s, i, e, q - i, q - i + ep.len() as int);
    assert(e.subrange(q - i, q - i + ep.len() as int) =~= ep);
    lemma_parse_privacy(s, q, pv);
    let r = q + ep.len() as int;
    lemma_region_byte(s, i, e, r - i);
    assert(e[r - i] == RBRACE);
    lemma_tok_at(s, r, RBRACE);
    assert(r + 1 == i + e.len());
}

/// One case of [`lemma_parse_trailer`]: only privacy present.
#[verifier::rlimit(100)]
proof fn lemma_parse_trailer_privacy_only(s: Seq<u8>, i: int, pv: PrivacyV)
    requires
        0 <= i,
        trailer_wf(None, Some(pv)),
        i + spec_enc_trailer(None, Some(pv)).len() <= s.len(),
        s.subrange(i, i + spec_enc_trailer(None, Some(pv)).len() as int) == spec_enc_trailer(
            None,
            Some(pv),
        ),
    ensures
        spec_parse_trailer(s, i) == Some(
            ((None::<ValidityV>, Some(pv)), i + spec_enc_trailer(None, Some(pv)).len() as int),
        ),
{
    reveal_strlit("validity");
    reveal_strlit("privacy");
    let e = spec_enc_trailer(None, Some(pv));
    lemma_region_byte(s, i, e, 0);
    assert(e[0] == COMMA);
    lemma_tok_misses(s, i, RBRACE, COMMA);
    lemma_tok_at(s, i, COMMA);
    let j = i + 1;
    // The `validity` key is refused: the byte after the quote is `p`.
    lemma_region_byte(s, i, e, 1);
    lemma_region_byte(s, i, e, 2);
    assert(e[1] == QUOTE);
    assert(e[2] == 'p' as u8);
    assert((seq![QUOTE] + lit("validity") + seq![QUOTE])[1] == 'v' as u8);
    lemma_skip_ws_noop(s, j);
    lemma_expect_fails_at(s, j, seq![QUOTE] + lit("validity") + seq![QUOTE], 1);
    let kp = key("privacy");
    lemma_region_sub(s, i, e, 1, 1 + kp.len() as int);
    assert(e.subrange(1, 1 + kp.len() as int) =~= kp);
    lemma_region_byte(s, i, e, 1 + kp.len() as int);
    assert(e[1 + kp.len() as int] == COLON);
    lemma_key_colon_at(s, j, lit("privacy"));
    let k = j + kp.len() as int + 1;
    let ep = spec_enc_privacy(pv);
    lemma_region_sub(s, i, e, k - i, k - i + ep.len() as int);
    assert(e.subrange(k - i, k - i + ep.len() as int) =~= ep);
    lemma_parse_privacy(s, k, pv);
    let m = k + ep.len() as int;
    lemma_region_byte(s, i, e, m - i);
    assert(e[m - i] == RBRACE);
    lemma_tok_at(s, m, RBRACE);
    assert(m + 1 == i + e.len());
}

/// Parsing an encoded trailer yields the optional parts back.
pub proof fn lemma_parse_trailer(s: Seq<u8>, i: int, v: Option<ValidityV>, p: Option<PrivacyV>)
    requires
        0 <= i,
        trailer_wf(v, p),
        i + spec_enc_trailer(v, p).len() <= s.len(),
        s.subrange(i, i + spec_enc_trailer(v, p).len() as int) == spec_enc_trailer(v, p),
    ensures
        spec_parse_trailer(s, i) == Some(((v, p), i + spec_enc_trailer(v, p).len() as int)),
{
    match (v, p) {
        (None, None) => {
            assert(spec_enc_trailer(None, None) =~= seq![RBRACE]);
            lemma_parse_trailer_none_none(s, i);
        },
        (Some(vv), None) => lemma_parse_trailer_validity_only(s, i, vv),
        (Some(vv), Some(pv)) => lemma_parse_trailer_both(s, i, vv, pv),
        (None, Some(pv)) => lemma_parse_trailer_privacy_only(s, i, pv),
    }
}

/// Encoded head of a bundle request: everything up to the body's value.
pub open spec fn spec_enc_bundle_head(b: BundleRequestV) -> Seq<u8> {
    seq![LBRACE] + key("version") + seq![COLON] + spec_enc_version(b.version) + seq![COMMA]
        + key("inclusion") + seq![COLON] + spec_enc_incl(b.block, b.max_block) + seq![COMMA]
        + key("body") + seq![COLON]
}

/// Encoded bundle request: the canonical compact JSON object.
#[verifier::opaque]
pub open spec fn spec_enc_bundle(b: BundleRequestV) -> Seq<u8> {
    spec_enc_bundle_head(b) + spec_enc_body(b.body) + spec_enc_trailer(b.validity, b.privacy)
}

/// Parses the head of a bundle request, through the `body` key.
pub open spec fn spec_parse_bundle_head(s: Seq<u8>, i: int) -> Option<
    ((ProtocolVersion, u64, Option<u64>), int),
> {
    match spec_tok(s, i, LBRACE) {
        Some(j) => match spec_key_colon(s, j, lit("version")) {
            Some(k) => match spec_parse_version(s, k) {
                Some((ver, m)) => match spec_tok(s, m, COMMA) {
                    Some(p) => match spec_key_colon(s, p, lit("inclusion")) {
                        Some(q) => match spec_parse_incl(s, q) {
                            Some(((blk, mblk), r)) => match spec_tok(s, r, COMMA) {
                                Some(t) => match spec_key_colon(s, t, lit("body")) {
                                    Some(u) => Some(((ver, blk, mblk), u)),
                                    None => None,
                                },
                                None => None,
                            },
                            None => None,
                        },
                        None => None,
                    },
                    None => None,
                },
                None => None,
            },
            None => None,
        },
        None => None,
    }
}

/// Parses one bundle request.
#[verifier::opaque]
pub open spec fn spec_parse_bundle(s: Seq<u8>, i: int) -> Option<(BundleRequestV, int)> {
    match spec_parse_bundle_head(s, i) {
        Some(((ver, blk, mblk), u)) => match spec_parse_body(s, u) {
            Some((body, w)) => match spec_parse_trailer(s, w) {
                Some(((vv, pv), z)) => Some(
                    (
                        BundleRequestV {
                            version: ver,
                            block: blk,
                            max_block: mblk,
                            body: body,
                            validity: vv,
                            privacy: pv,
                        },
                        z,
                    ),
                ),
                None => None,
            },
            None => None,
        },
        None => None,
    }
}

/// Well-formedness of a bundle view, as the codec needs it.
pub open spec fn bundle_wf(b: BundleRequestV) -> bool {
    &&& forall|k: int| 0 <= k < b.body.len() ==> (#[trigger] b.body[k]).wf()
    &&& trailer_wf(b.validity, b.privacy)
}

/// Parsing an encoded bundle head yields its fields back.
#[verifier::rlimit(100)]
pub proof fn lemma_parse_bundle_head(s: Seq<u8>, i: int, b: BundleRequestV)
    requires
        0 <= i,
        i + spec_enc_bundle_head(b).len() <= s.len(),
        s.subrange(i, i + spec_enc_bundle_head(b).len() as int) == spec_enc_bundle_head(b),
    ensures
        spec_parse_bundle_head(s, i) == Some(
            (
                (b.version, b.block, b.max_block),
                i + spec_enc_bundle_head(b).len() as int,
            ),
        ),
{
    reveal_strlit("version");
    reveal_strlit("inclusion");
    reveal_strlit("body");
    let e = spec_enc_bundle_head(b);
    lemma_region_byte(s, i, e, 0);
    assert(e[0] == LBRACE);
    lemma_tok_at(s, i, LBRACE);
    let j = i + 1;
    let kv = key("version");
    lemma_region_sub(s, i, e, 1, 1 + kv.len() as int);
    assert(e.subrange(1, 1 + kv.len() as int) =~= kv);
    lemma_region_byte(s, i, e, 1 + kv.len() as int);
    assert(e[1 + kv.len() as int] == COLON);
    lemma_key_colon_at(s, j, lit("version"));
    let k = j + kv.len() as int + 1;
    let ev = spec_enc_version(b.version);
    lemma_region_sub(s, i, e, k - i, k - i + ev.len() as int);
    assert(e.subrange(k - i, k - i + ev.len() as int) =~= ev);
    lemma_parse_version(s, k, b.version);
    let m = k + ev.len() as int;
    lemma_region_byte(s, i, e, m - i);
    assert(e[m - i] == COMMA);
    lemma_tok_at(s, m, COMMA);
    let p = m + 1;
    let ki = key("inclusion");
    lemma_region_sub(s, i, e, p - i, p - i + ki.len() as int);
    assert(e.subrange(p - i, p - i + ki.len() as int) =~= ki);
    lemma_region_byte(s, i, e, p - i + ki.len() as int);
    assert(e[p - i + ki.len() as int] == COLON);
    lemma_key_colon_at(s, p, lit("inclusion"));
    let q = p + ki.len() as int + 1;
    let ei = spec_enc_incl(b.block, b.max_block);
    lemma_region_sub(s, i, e, q - i, q - i + ei.len() as int);
    assert(e.subrange(q - i, q - i + ei.len() as int) =~= ei);
    lemma_parse_incl(s, q, b.block, b.max_block);
    let r = q + ei.len() as int;
    lemma_region_byte(s, i, e, r - i);
    assert(e[r - i] == COMMA);
    lemma_tok_at(s, r, COMMA);
    let t = r + 1;
    let kb = key("body");
    lemma_region_sub(s, i, e, t - i, t - i + kb.len() as int);
    assert(e.subrange(t - i, t - i + kb.len() as int) =~= kb);
    lemma_region_byte(s, i, e, t - i + kb.len() as int);
    assert(e[t - i + kb.len() as int] == COLON);
    lemma_key_colon_at(s, t, lit("body"));
    assert(t + kb.len() + 1 == i + e.len());
}

/// Parsing an encoded bundle request yields it back.
#[verifier::rlimit(100)]
pub proof fn lemma_parse_bundle(s: Seq<u8>, i: int, b: BundleRequestV)
    requires
        0 <= i,
        bundle_wf(b),
        i + spec_enc_bundle(b).len() <= s.len(),
        s.subrange(i, i + spec_enc_bundle(b).len() as int) == spec_enc_bundle(b),
    ensures
        spec_parse_bundle(s, i) == Some((b, i + spec_enc_bundle(b).len() as int)),
{
    reveal(spec_enc_bundle);
    reveal(spec_parse_bundle);
    let e = spec_enc_bundle(b);
    let eh = spec_enc_bundle_head(b);
    let eb = spec_enc_body(b.body);
    let et = spec_enc_trailer(b.validity, b.privacy);
    lemma_region_sub(s, i, e, 0, eh.len() as int);
    assert(e.subrange(0, eh.len() as int) =~= eh);
    lemma_parse_bundle_head(s, i, b);
    let u = i + eh.len() as int;
    lemma_region_sub(s, i, e, u - i, u - i + eb.len() as int);
    assert(e.subrange(u - i, u - i + eb.len() as int) =~= eb);
    lemma_parse_body(s, u, b.body);
    let w = u + eb.len() as int;
    lemma_region_sub(s, i, e, w - i, w - i + et.len() as int);
    assert(e.subrange(w - i, w - i + et.len() as int) =~= et);
    lemma_parse_trailer(s, w, b.validity, b.privacy);
    assert(w + et.len() == i + e.len());
}

// ---------------------------------------------------------------------------
// The top-level bundle list
// ---------------------------------------------------------------------------

/// Encoded tail of a bundle list.
pub open spec fn spec_enc_bundles_rest(bs: Seq<BundleRequestV>) -> Seq<u8>
    decreases bs.len(),
{
    if bs.len() == 0 {
        seq![RBRACK]
    } else {
        seq![COMMA] + spec_enc_bundle(bs[0]) + spec_enc_bundles_rest(bs.drop_first())
    }
}

/// Encoded bundle list, as submitted in a request's parameters.
pub open spec fn spec_enc_bundles(bs: Seq<BundleRequestV>) -> Seq<u8> {
    if bs.len() == 0 {
        seq![LBRACK, RBRACK]
    } else {
        seq![LBRACK] + spec_enc_bundle(bs[0]) + spec_enc_bundles_rest(bs.drop_first())
    }
}

/// Parses the tail of a bundle list.
pub open spec fn spec_parse_bundles_rest(s: Seq<u8>, i: int, acc: Seq<BundleRequestV>) -> Option<
    (Seq<BundleRequestV>, int),
>
    decreases s.len() - i,
{
    match spec_tok(s, i, RBRACK) {
        Some(j) => Some((acc, j)),
        None => match spec_tok(s, i, COMMA) {
            Some(j) => match spec_parse_bundle(s, j) {
                Some((t, k)) => if i < k <= s.len() {
                    spec_parse_bundles_rest(s, k, acc.push(t))
                } else {
                    None
                },
                None => None,
            },
            None => None,
        },
    }
}

/// Parses a bundle list.
pub open spec fn spec_parse_bundles(s: Seq<u8>, i: int) -> Option<(Seq<BundleRequestV>, int)> {
    match spec_tok(s, i, LBRACK) {
        Some(j) => match spec_tok(s, j, RBRACK) {
            Some(k) => Some((Seq::empty(), k)),
            None => match spec_parse_bundle(s, j) {
                Some((t, k)) => if j < k <= s.len() {
                    spec_parse_bundles_rest(s, k, seq![t])
                } else {
                    None
                },
                None => None,
            },
        },
        None => None,
    }
}

/// Parsing an encoded bundle-list tail appends the bundles.
#[verifier::rlimit(100)]
pub proof fn lemma_parse_bundles_rest(
    s: Seq<u8>,
    i: int,
    acc: Seq<BundleRequestV>,
    bs: Seq<BundleRequestV>,
)
    requires
        0 <= i,
        forall|k: int| 0 <= k < bs.len() ==> bundle_wf(#[trigger] bs[k]),
        i + spec_enc_bundles_rest(bs).len() <= s.len(),
        s.subrange(i, i + spec_enc_bundles_rest(bs).len() as int) == spec_enc_bundles_rest(bs),
    ensures
        spec_parse_bundles_rest(s, i, acc) == Some(
            (acc + bs, i + spec_enc_bundles_rest(bs).len() as int),
        ),
    decreases bs.len(),
{
    let e = spec_enc_bundles_rest(bs);
    if bs.len() == 0 {
        lemma_region_byte(s, i, e, 0);
        assert(e[0] == RBRACK);
        lemma_tok_at(s, i, RBRACK);
        assert(acc + bs =~= acc);
    } else {
        lemma_region_byte(s, i, e, 0);
        assert(e[0] == COMMA);
        lemma_tok_misses(s, i, RBRACK, COMMA);
        lemma_tok_at(s, i, COMMA);
        let et = spec_enc_bundle(bs[0]);
        lemma_region_sub(s, i, e, 1, 1 + et.len() as int);
        assert(e.subrange(1, 1 + et.len() as int) =~= et);
        assert(bundle_wf(bs[0]));
        lemma_parse_bundle(s, i + 1, bs[0]);
        let k = i + 1 + et.len() as int;
        let er = spec_enc_bundles_rest(bs.drop_first());
        lemma_region_sub(s, i, e, k - i, k - i + er.len() as int);
        assert(e.subrange(k - i, k - i + er.len() as int) =~= er);
        assert(forall|m: int|
            0 <= m < bs.drop_first().len() ==> bundle_wf(#[trigger] bs.drop_first()[m])) by {
            assert(forall|m: int|
                0 <= m < bs.drop_first().len() ==> bs.drop_first()[m] == bs[m + 1]);
        }
        lemma_parse_bundles_rest(s, k, acc.push(bs[0]), bs.drop_first());
        assert(acc.push(bs[0]) + bs.drop_first() =~= acc + bs);
    }
}

/// An encoded bundle starts with an opening brace.
proof fn lemma_enc_bundle_first(b: BundleRequestV)
    ensures
        spec_enc_bundle(b).len() >= 1,
        spec_enc_bundle(b)[0] == LBRACE,
{
    reveal(spec_enc_bundle);
    assert(spec_enc_bundle_head(b)[0] == LBRACE);
}

/// The non-empty case of [`lemma_parse_bundles`].
#[verifier::rlimit(100)]
proof fn lemma_parse_bundles_nonempty(s: Seq<u8>, i: int, bs: Seq<BundleRequestV>)
    requires
        0 <= i,
        bs.len() > 0,
        forall|k: int| 0 <= k < bs.len() ==> bundle_wf(#[trigger] bs[k]),
        i + spec_enc_bundles(bs).len() <= s.len(),
        s.subrange(i, i + spec_enc_bundles(bs).len() as int) == spec_enc_bundles(bs),
    ensures
        spec_parse_bundles(s, i) == Some((bs, i + spec_enc_bundles(bs).len() as int)),
{
    let e = spec_enc_bundles(bs);
    lemma_region_byte(s, i, e, 0);
    assert(e[0] == LBRACK);
    lemma_tok_at(s, i, LBRACK);
    let j = i + 1;
    let et = spec_enc_bundle(bs[0]);
    lemma_enc_bundle_first(bs[0]);
    lemma_region_byte(s, i, e, 1);
    assert(e[1] == et[0]);
    lemma_tok_misses(s, j, RBRACK, LBRACE);
    lemma_region_sub(s, i, e, 1, 1 + et.len() as int);
    assert(e.subrange(1, 1 + et.len() as int) =~= et);
    assert(bundle_wf(bs[0]));
    lemma_parse_bundle(s, j, bs[0]);
    let k = j + et.len() as int;
    let er = spec_enc_bundles_rest(bs.drop_first());
    lemma_region_sub(s, i, e, k - i, k - i + er.len() as int);
    assert(e.subrange(k - i, k - i + er.len() as int) =~= er);
    assert(forall|m: int|
        0 <= m < bs.drop_first().len() ==> bundle_wf(#[trigger] bs.drop_first()[m])) by {
        assert(forall|m: int|
            0 <= m < bs.drop_first().len() ==> bs.drop_first()[m] == bs[m + 1]);
    }
    lemma_parse_bundles_rest(s, k, seq![bs[0]], bs.drop_first());
    assert(seq![bs[0]] + bs.drop_first() =~= bs);
}

/// Parsing an encoded bundle list yields the bundles back.
#[verifier::rlimit(100)]
pub proof fn lemma_parse_bundles(s: Seq<u8>, i: int, bs: Seq<BundleRequestV>)
    requires
        0 <= i,
        forall|k: int| 0 <= k < bs.len() ==> bundle_wf(#[trigger] bs[k]),
        i + spec_enc_bundles(bs).len() <= s.len(),
        s.subrange(i, i + spec_enc_bundles(bs).len() as int) == spec_enc_bundles(bs),
    ensures
        spec_parse_bundles(s, i) == Some((bs, i + spec_enc_bundles(bs).len() as int)),
{
    if bs.len() == 0 {
        let e = spec_enc_bundles(bs);
        lemma_region_byte(s, i, e, 0);
        assert(e[0] == LBRACK);
        lemma_tok_at(s, i, LBRACK);
        lemma_region_byte(s, i, e, 1);
        assert(e[1] == RBRACK);
        lemma_tok_at(s, i + 1, RBRACK);
    } else {
        lemma_parse_bundles_nonempty(s, i, bs);
    }
}

/// The round trip of the wire codec: a well-formed bundle request,
/// serialized and deserialized, comes back field for field; so does a whole
/// list of them, as one is submitted.
/// A whole sequence is its own full sub-range.
proof fn lemma_subrange_all(s: Seq<u8>)
    ensures
        s.subrange(0, s.len() as int) == s,
{
    assert(s.subrange(0, s.len() as int) =~= s);
}

#[verifier::rlimit(100)]
pub proof fn lemma_bundle_round_trip(b: BundleRequestV)
    requires
        bundle_wf(b),
    ensures
        spec_parse_bundle(spec_enc_bundle(b), 0) == Some(
            (b, spec_enc_bundle(b).len() as int),
        ),
{
    lemma_subrange_all(spec_enc_bundle(b));
    lemma_parse_bundle(spec_enc_bundle(b), 0, b);
}


// ---------------------------------------------------------------------------
// The executable encoder
// ---------------------------------------------------------------------------

/// Appends the bytes of an ASCII literal.
fn push_lit(out: &mut Vec<u8>, s: &str)
    ensures
        final(out)@ == old(out)@ + lit(s),
{
    let n = s.unicode_len();
    let mut i: usize = 0;
    while i < n
        invariant
            n == s@.len(),
            i <= n,
            out@ == old(out)@ + lit(s).take(i as int),
        decreases n - i,
    {
        let c = s.get_char(i);
        out.push(c as u8);
        assert(lit(s).take(i + 1 as int) =~= lit(s).take(i as int).push(c as u8));
        i += 1;
    }
    assert(lit(s).take(n as int) =~= lit(s));
}

/// Appends a quoted key and its colon.
fn push_key_colon(out: &mut Vec<u8>, s: &str)
    ensures
        final(out)@ == old(out)@ + key(s) + seq![COLON],
{
    out.push(QUOTE);
    push_lit(out, s);
    out.push(QUOTE);
    out.push(COLON);
    assert(out@ =~= old(out)@ + key(s) + seq![COLON]);
}

/// The lowercase hex digit byte for a value below 16.
fn hex_digit_of(v: u8) -> (r: u8)
    requires
        v < 16,
    ensures
        r == crate::hexnum::hex_digit(v as int),
{
    if v < 10 {
        48 + v
    } else {
        87 + v
    }
}

/// Appends the minimal hex digits of `n`.
fn push_hex_u64(out: &mut Vec<u8>, n: u64)
    ensures
        final(out)@ == old(out)@ + spec_hex_u64(n as nat),
    decreases n,
{
    if n < 16 {
        let d = hex_digit_of(n as u8);
        out.push(d);
        assert(out@ =~= old(out)@ + spec_hex_u64(n as nat));
    } else {
        push_hex_u64(out, n / 16);
        let d = hex_digit_of((n % 16) as u8);
        out.push(d);
        assert(out@ =~= old(out)@ + spec_hex_u64(n as nat));
    }
}

/// Appends the decimal digits of `n`.
fn push_dec_u64(out: &mut Vec<u8>, n: u64)
    ensures
        final(out)@ == old(out)@ + spec_dec_u64(n as nat),
    decreases n,
{
    if n < 10 {
        out.push(48 + (n as u8));
        assert(out@ =~= old(out)@ + spec_dec_u64(n as nat));
    } else {
        push_dec_u64(out, n / 10);
        out.push(48 + ((n % 10) as u8));
        assert(out@ =~= old(out)@ + spec_dec_u64(n as nat));
    }
}

/// Appends two hex digits per byte of `bs`.
fn push_hex_bytes(out: &mut Vec<u8>, bs: &Vec<u8>)
    ensures
        final(out)@ == old(out)@ + spec_hex_bytes(bs@),
{
    let n = bs.len();
    let mut i: usize = 0;
    while i < n
        invariant
            n == bs@.len(),
            i <= n,
            out@ == old(out)@ + spec_hex_bytes(bs@.take(i as int)),
        decreases n - i,
    {
        let b = bs[i];
        let d0 = hex_digit_of(b / 16);
        let d1 = hex_digit_of(b % 16);
        out.push(d0);
        out.push(d1);
        proof {
            crate::hexnum::lemma_hex_bytes_push(bs@.take(i as int), b);
            assert(bs@.take(i + 1 as int) =~= bs@.take(i as int).push(b));
        }
        assert(out@ =~= old(out)@ + spec_hex_bytes(bs@.take(i + 1 as int)));
        i += 1;
    }
    assert(bs@.take(n as int) =~= bs@);
}

/// Appends an encoded hex quantity.
fn enc_quantity_into(out: &mut Vec<u8>, n: u64)
    ensures
        final(out)@ == old(out)@ + spec_enc_quantity(n),
{
    out.push(QUOTE);
    out.push(DIGIT_ZERO);
    out.push(LOWER_X);
    push_hex_u64(out, n);
    out.push(QUOTE);
    assert(out@ =~= old(out)@ + spec_enc_quantity(n));
}

/// Appends an encoded hex byte string.
fn enc_hex_data_into(out: &mut Vec<u8>, bs: &Vec<u8>)
    ensures
        final(out)@ == old(out)@ + spec_enc_hex_data(bs@),
{
    out.push(QUOTE);
    out.push(DIGIT_ZERO);
    out.push(LOWER_X);
    push_hex_bytes(out, bs);
    out.push(QUOTE);
    assert(out@ =~= old(out)@ + spec_enc_hex_data(bs@));
}

/// Appends an encoded boolean.
fn enc_bool_into(out: &mut Vec<u8>, b: bool)
    ensures
        final(out)@ == old(out)@ + spec_enc_bool(b),
{
    if b {
        push_lit(out, "true");
    } else {
        push_lit(out, "false");
    }
}

/// Appends an encoded protocol revision.
fn enc_version_into(out: &mut Vec<u8>, v: &ProtocolVersion)
    ensures
        final(out)@ == old(out)@ + spec_enc_version(*v),
{
    out.push(QUOTE);
    match v {
        ProtocolVersion::Beta1 => push_lit(out, "beta-1"),
        ProtocolVersion::V0_1 => push_lit(out, "v0.1"),
    }
    out.push(QUOTE);
    assert(out@ =~= old(out)@ + spec_enc_version(*v));
}

/// Appends one encoded body element.
fn enc_tx_into(out: &mut Vec<u8>, t: &crate::types::BundleTx)
    ensures
        final(out)@ == old(out)@ + spec_enc_tx(t@),
{
    match t {
        crate::types::BundleTx::TxHash { hash } => {
            out.push(LBRACE);
            push_key_colon(out, "hash");
            enc_hex_data_into(out, &hash.bytes);
            out.push(RBRACE);
            assert(out@ =~= old(out)@ + spec_enc_tx(t@));
        },
        crate::types::BundleTx::Tx { tx, can_revert } => {
            out.push(LBRACE);
            push_key_colon(out, "tx");
            enc_hex_data_into(out, tx);
            out.push(COMMA);
            push_key_colon(out, "canRevert");
            enc_bool_into(out, *can_revert);
            out.push(RBRACE);
            assert(out@ =~= old(out)@ + spec_enc_tx(t@));
        },
    }
}

/// Appends the tail of an encoded body, from element `i` on.
fn enc_body_rest_into(out: &mut Vec<u8>, ts: &Vec<crate::types::BundleTx>, i: usize)
    requires
        1 <= i <= ts@.len(),
    ensures
        final(out)@ == old(out)@ + spec_enc_body_rest(
            ts@.map_values(|t: crate::types::BundleTx| t@).skip(i as int),
        ),
    decreases ts@.len() - i,
{
    let ghost v = ts@.map_values(|t: crate::types::BundleTx| t@);
    if i == ts.len() {
        out.push(RBRACK);
        assert(v.skip(i as int) =~= Seq::<BundleTxV>::empty());
        assert(out@ =~= old(out)@ + spec_enc_body_rest(v.skip(i as int)));
    } else {
        out.push(COMMA);
        enc_tx_into(out, &ts[i]);
        enc_body_rest_into(out, ts, i + 1);
        proof {
            assert(v.skip(i as int)[0] == v[i as int]);
            assert(v.skip(i as int).drop_first() =~= v.skip(i + 1 as int));
        }
        assert(out@ =~= old(out)@ + spec_enc_body_rest(v.skip(i as int)));
    }
}

/// Appends an encoded body.
fn enc_body_into(out: &mut Vec<u8>, ts: &Vec<crate::types::BundleTx>)
    ensures
        final(out)@ == old(out)@ + spec_enc_body(ts@.map_values(|t: crate::types::BundleTx| t@)),
{
    let ghost v = ts@.map_values(|t: crate::types::BundleTx| t@);
    if ts.len() == 0 {
        out.push(LBRACK);
        out.push(RBRACK);
        assert(out@ =~= old(out)@ + spec_enc_body(v));
    } else {
        out.push(LBRACK);
        enc_tx_into(out, &ts[0]);
        enc_body_rest_into(out, ts, 1);
        proof {
            assert(v.drop_first() =~= v.skip(1));
        }
        assert(out@ =~= old(out)@ + spec_enc_body(v));
    }
}

/// Appends one encoded refund share.
fn enc_refund_into(out: &mut Vec<u8>, r: &Refund)
    ensures
        final(out)@ == old(out)@ + spec_enc_refund(*r),
{
    out.push(LBRACE);
    push_key_colon(out, "bodyIdx");
    push_dec_u64(out, r.body_idx);
    out.push(COMMA);
    push_key_colon(out, "percent");
    push_dec_u64(out, r.percent);
    out.push(RBRACE);
    assert(out@ =~= old(out)@ + spec_enc_refund(*r));
}

/// Appends the tail of an encoded refund list, from element `i` on.
fn enc_refunds_rest_into(out: &mut Vec<u8>, rs: &Vec<Refund>, i: usize)
    requires
        1 <= i <= rs@.len(),
    ensures
        final(out)@ == old(out)@ + spec_enc_refunds_rest(rs@.skip(i as int)),
    decreases rs@.len() - i,
{
    if i == rs.len() {
        out.push(RBRACK);
        assert(rs@.skip(i as int) =~= Seq::<Refund>::empty());
        assert(out@ =~= old(out)@ + spec_enc_refunds_rest(rs@.skip(i as int)));
    } else {
        out.push(COMMA);
        enc_refund_into(out, &rs[i]);
        enc_refunds_rest_into(out, rs, i + 1);
        proof {
            assert(rs@.skip(i as int)[0] == rs@[i as int]);
            assert(rs@.skip(i as int).drop_first() =~= rs@.skip(i + 1 as int));
        }
        assert(out@ =~= old(out)@ + spec_enc_refunds_rest(rs@.skip(i as int)));
    }
}

/// Appends an encoded refund list.
fn enc_refunds_into(out: &mut Vec<u8>, rs: &Vec<Refund>)
    ensures
        final(out)@ == old(out)@ + spec_enc_refunds(rs@),
{
    if rs.len() == 0 {
        out.push(LBRACK);
        out.push(RBRACK);
        assert(out@ =~= old(out)@ + spec_enc_refunds(rs@));
    } else {
        out.push(LBRACK);
        enc_refund_into(out, &rs[0]);
        enc_refunds_rest_into(out, rs, 1);
        proof {
            assert(rs@.drop_first() =~= rs@.skip(1));
        }
        assert(out@ =~= old(out)@ + spec_enc_refunds(rs@));
    }
}

/// Appends one encoded refund recipient.
fn enc_config_into(out: &mut Vec<u8>, c: &crate::types::RefundConfig)
    ensures
        final(out)@ == old(out)@ + spec_enc_config(c@),
{
    out.push(LBRACE);
    push_key_colon(out, "address");
    enc_hex_data_into(out, &c.address.bytes);
    out.push(COMMA);
    push_key_colon(out, "percent");
    push_dec_u64(out, c.percent);
    out.push(RBRACE);
    assert(out@ =~= old(out)@ + spec_enc_config(c@));
}

/// Appends the tail of an encoded refund-recipient list.
fn enc_configs_rest_into(out: &mut Vec<u8>, cs: &Vec<crate::types::RefundConfig>, i: usize)
    requires
        1 <= i <= cs@.len(),
    ensures
        final(out)@ == old(out)@ + spec_enc_configs_rest(
            cs@.map_values(|c: crate::types::RefundConfig| c@).skip(i as int),
        ),
    decreases cs@.len() - i,
{
    let ghost v = cs@.map_values(|c: crate::types::RefundConfig| c@);
    if i == cs.len() {
        out.push(RBRACK);
        assert(v.skip(i as int) =~= Seq::<RefundConfigV>::empty());
        assert(out@ =~= old(out)@ + spec_enc_configs_rest(v.skip(i as int)));
    } else {
        out.push(COMMA);
        enc_config_into(out, &cs[i]);
        enc_configs_rest_into(out, cs, i + 1);
        proof {
            assert(v.skip(i as int)[0] == v[i as int]);
            assert(v.skip(i as int).drop_first() =~= v.skip(i + 1 as int));
        }
        assert(out@ =~= old(out)@ + spec_enc_configs_rest(v.skip(i as int)));
    }
}

/// Appends an encoded refund-recipient list.
fn enc_configs_into(out: &mut Vec<u8>, cs: &Vec<crate::types::RefundConfig>)
    ensures
        final(out)@ == old(out)@ + spec_enc_configs(
            cs@.map_values(|c: crate::types::RefundConfig| c@),
        ),
{
    let ghost v = cs@.map_values(|c: crate::types::RefundConfig| c@);
    if cs.len() == 0 {
        out.push(LBRACK);
        out.push(RBRACK);
        assert(out@ =~= old(out)@ + spec_enc_configs(v));
    } else {
        out.push(LBRACK);
        enc_config_into(out, &cs[0]);
        enc_configs_rest_into(out, cs, 1);
        proof {
            assert(v.drop_first() =~= v.skip(1));
        }
        assert(out@ =~= old(out)@ + spec_enc_configs(v));
    }
}

/// Appends the tail of an encoded builder list.
fn enc_builders_rest_into(out: &mut Vec<u8>, bs: &Vec<crate::primitives::Address>, i: usize)
    requires
        1 <= i <= bs@.len(),
    ensures
        final(out)@ == old(out)@ + spec_enc_builders_rest(
            bs@.map_values(|a: crate::primitives::Address| a@).skip(i as int),
        ),
    decreases bs@.len() - i,
{
    let ghost v = bs@.map_values(|a: crate::primitives::Address| a@);
    if i == bs.len() {
        out.push(RBRACK);
        assert(v.skip(i as int) =~= Seq::<Seq<u8>>::empty());
        assert(out@ =~= old(out)@ + spec_enc_builders_rest(v.skip(i as int)));
    } else {
        out.push(COMMA);
        enc_hex_data_into(out, &bs[i].bytes);
        enc_builders_rest_into(out, bs, i + 1);
        proof {
            assert(v.skip(i as int)[0] == v[i as int]);
            assert(v.skip(i as int).drop_first() =~= v.skip(i + 1 as int));
        }
        assert(out@ =~= old(out)@ + spec_enc_builders_rest(v.skip(i as int)));
    }
}

/// Appends an encoded builder list.
fn enc_builders_into(out: &mut Vec<u8>, bs: &Vec<crate::primitives::Address>)
    ensures
        final(out)@ == old(out)@ + spec_enc_builders(
            bs@.map_values(|a: crate::primitives::Address| a@),
        ),
{
    let ghost v = bs@.map_values(|a: crate::primitives::Address| a@);
    if bs.len() == 0 {
        out.push(LBRACK);
        out.push(RBRACK);
        assert(out@ =~= old(out)@ + spec_enc_builders(v));
    } else {
        out.push(LBRACK);
        enc_hex_data_into(out, &bs[0].bytes);
        enc_builders_rest_into(out, bs, 1);
        proof {
            assert(v.drop_first() =~= v.skip(1));
        }
        assert(out@ =~= old(out)@ + spec_enc_builders(v));
    }
}

/// Appends the wire form of one tag.
fn enc_tag_into(out: &mut Vec<u8>, t: &HintTag)
    ensures
        final(out)@ == old(out)@ + tag_lit(*t),
{
    out.push(QUOTE);
    match t {
        HintTag::Calldata => push_lit(out, "calldata"),
        HintTag::ContractAddress => push_lit(out, "contract_address"),
        HintTag::Logs => push_lit(out, "logs"),
        HintTag::FunctionSelector => push_lit(out, "function_selector"),
        HintTag::Hash => push_lit(out, "hash"),
        HintTag::TxHash => push_lit(out, "tx_hash"),
    }
    out.push(QUOTE);
    assert(out@ =~= old(out)@ + tag_lit(*t));
}

/// Collects the tags of a hint set in the fixed wire order.
fn tags_of(h: &PrivacyHint) -> (r: Vec<HintTag>)
    ensures
        r@ == hint_tags(*h),
{
    let mut r: Vec<HintTag> = Vec::new();
    if h.calldata {
        r.push(HintTag::Calldata);
    }
    if h.contract_address {
        r.push(HintTag::ContractAddress);
    }
    if h.logs {
        r.push(HintTag::Logs);
    }
    if h.function_selector {
        r.push(HintTag::FunctionSelector);
    }
    if h.hash {
        r.push(HintTag::Hash);
    }
    if h.tx_hash {
        r.push(HintTag::TxHash);
    }
    assert(r@ =~= hint_tags(*h));
    r
}

/// Appends the tail of an encoded tag list.
fn enc_tags_rest_into(out: &mut Vec<u8>, ts: &Vec<HintTag>, i: usize)
    requires
        1 <= i <= ts@.len(),
    ensures
        final(out)@ == old(out)@ + spec_enc_tags_rest(ts@.skip(i as int)),
    decreases ts@.len() - i,
{
    if i == ts.len() {
        out.push(RBRACK);
        assert(ts@.skip(i as int) =~= Seq::<HintTag>::empty());
        assert(out@ =~= old(out)@ + spec_enc_tags_rest(ts@.skip(i as int)));
    } else {
        out.push(COMMA);
        enc_tag_into(out, &ts[i]);
        enc_tags_rest_into(out, ts, i + 1);
        proof {
            assert(ts@.skip(i as int)[0] == ts@[i as int]);
            assert(ts@.skip(i as int).drop_first() =~= ts@.skip(i + 1 as int));
        }
        assert(out@ =~= old(out)@ + spec_enc_tags_rest(ts@.skip(i as int)));
    }
}

/// Appends an encoded hint set.
fn enc_hints_into(out: &mut Vec<u8>, h: &PrivacyHint)
    ensures
        final(out)@ == old(out)@ + spec_enc_hints(*h),
{
    let ts = tags_of(h);
    if ts.len() == 0 {
        out.push(LBRACK);
        out.push(RBRACK);
        assert(out@ =~= old(out)@ + spec_enc_hints(*h));
    } else {
        out.push(LBRACK);
        enc_tag_into(out, &ts[0]);
        enc_tags_rest_into(out, &ts, 1);
        proof {
            assert(ts@.drop_first() =~= ts@.skip(1));
        }
        assert(out@ =~= old(out)@ + spec_enc_hints(*h));
    }
}

/// Appends encoded validity conditions.
#[verifier::rlimit(100)]
fn enc_validity_into(out: &mut Vec<u8>, v: &crate::types::Validity)
    ensures
        final(out)@ == old(out)@ + spec_enc_validity(v@),
{
    out.push(LBRACE);
    match (&v.refund, &v.refund_config) {
        (None, None) => {},
        (Some(r), None) => {
            push_key_colon(out, "refund");
            enc_refunds_into(out, r);
        },
        (Some(r), Some(c)) => {
            push_key_colon(out, "refund");
            enc_refunds_into(out, r);
            out.push(COMMA);
            push_key_colon(out, "refundConfig");
            enc_configs_into(out, c);
        },
        (None, Some(c)) => {
            push_key_colon(out, "refundConfig");
            enc_configs_into(out, c);
        },
    }
    out.push(RBRACE);
    proof {
        reveal(spec_enc_validity);
    }
    assert(out@ =~= old(out)@ + spec_enc_validity(v@));
}

/// Appends encoded privacy preferences.
#[verifier::rlimit(100)]
fn enc_privacy_into(out: &mut Vec<u8>, p: &crate::types::Privacy)
    ensures
        final(out)@ == old(out)@ + spec_enc_privacy(p@),
{
    out.push(LBRACE);
    match (&p.hints, &p.builders) {
        (None, None) => {},
        (Some(h), None) => {
            push_key_colon(out, "hints");
            enc_hints_into(out, h);
        },
        (Some(h), Some(b)) => {
            push_key_colon(out, "hints");
            enc_hints_into(out, h);
            out.push(COMMA);
            push_key_colon(out, "builders");
            enc_builders_into(out, b);
        },
        (None, Some(b)) => {
            push_key_colon(out, "builders");
            enc_builders_into(out, b);
        },
    }
    out.push(RBRACE);
    proof {
        reveal(spec_enc_privacy);
    }
    assert(out@ =~= old(out)@ + spec_enc_privacy(p@));
}

/// Appends an encoded inclusion window.
fn enc_incl_into(out: &mut Vec<u8>, block: u64, max_block: &Option<u64>)
    ensures
        final(out)@ == old(out)@ + spec_enc_incl(block, *max_block),
{
    out.push(LBRACE);
    push_key_colon(out, "block");
    enc_quantity_into(out, block);
    match max_block {
        Some(m) => {
            out.push(COMMA);
            push_key_colon(out, "maxBlock");
            enc_quantity_into(out, *m);
        },
        None => {},
    }
    out.push(RBRACE);
    assert(out@ =~= old(out)@ + spec_enc_incl(block, *max_block));
}

/// Appends an encoded trailer: the optional parts and the closing brace.
fn enc_trailer_into(
    out: &mut Vec<u8>,
    v: &Option<crate::types::Validity>,
    p: &Option<crate::types::Privacy>,
)
    ensures
        final(out)@ == old(out)@ + spec_enc_trailer(
            match v {
                Some(vv) => Some(vv@),
                None => None,
            },
            match p {
                Some(pv) => Some(pv@),
                None => None,
            },
        ),
{
    match v {
        Some(vv) => {
            out.push(COMMA);
            push_key_colon(out, "validity");
            enc_validity_into(out, vv);
        },
        None => {},
    }
    match p {
        Some(pv) => {
            out.push(COMMA);
            push_key_colon(out, "privacy");
            enc_privacy_into(out, pv);
        },
        None => {},
    }
    out.push(RBRACE);
    assert(out@ =~= old(out)@ + spec_enc_trailer(
        match v {
            Some(vv) => Some(vv@),
            None => None,
        },
        match p {
            Some(pv) => Some(pv@),
            None => None,
        },
    ));
}

/// Serializes one bundle request into its canonical wire bytes.
pub fn encode_bundle(b: &crate::types::BundleRequest) -> (r: Vec<u8>)
    ensures
        r@ == spec_enc_bundle(b@),
{
    let mut out: Vec<u8> = Vec::new();
    out.push(LBRACE);
    push_key_colon(&mut out, "version");
    enc_version_into(&mut out, &b.version);
    out.push(COMMA);
    push_key_colon(&mut out, "inclusion");
    enc_incl_into(&mut out, b.inclusion.block, &b.inclusion.max_block);
    out.push(COMMA);
    push_key_colon(&mut out, "body");
    assert(out@ =~= spec_enc_bundle_head(b@));
    enc_body_into(&mut out, &b.body);
    assert(out@ == spec_enc_bundle_head(b@) + spec_enc_body(b@.body));
    enc_trailer_into(&mut out, &b.validity, &b.privacy);
    proof {
        reveal(spec_enc_bundle);
    }
    assert(out@ == spec_enc_bundle(b@));
    out
}

/// Serializes a list of bundle requests, from element `i` on.
fn encode_bundles_rest(out: &mut Vec<u8>, bs: &Vec<crate::types::BundleRequest>, i: usize)
    requires
        1 <= i <= bs@.len(),
    ensures
        final(out)@ == old(out)@ + spec_enc_bundles_rest(
            bs@.map_values(|b: crate::types::BundleRequest| b@).skip(i as int),
        ),
    decreases bs@.len() - i,
{
    let ghost v = bs@.map_values(|b: crate::types::BundleRequest| b@);
    if i == bs.len() {
        out.push(RBRACK);
        assert(v.skip(i as int) =~= Seq::<BundleRequestV>::empty());
        assert(out@ =~= old(out)@ + spec_enc_bundles_rest(v.skip(i as int)));
    } else {
        out.push(COMMA);
        let eb = encode_bundle(&bs[i]);
        push_all(out, &eb);
        encode_bundles_rest(out, bs, i + 1);
        proof {
            assert(v.skip(i as int)[0] == v[i as int]);
            assert(v.skip(i as int).drop_first() =~= v.skip(i + 1 as int));
        }
        assert(out@ =~= old(out)@ + spec_enc_bundles_rest(v.skip(i as int)));
    }
}

/// Appends all bytes of another buffer.
fn push_all(out: &mut Vec<u8>, other: &Vec<u8>)
    ensures
        final(out)@ == old(out)@ + other@,
{
    let n = other.len();
    let mut i: usize = 0;
    while i < n
        invariant
            n == other@.len(),
            i <= n,
            out@ == old(out)@ + other@.take(i as int),
        decreases n - i,
    {
        out.push(other[i]);
        assert(other@.take(i + 1 as int) =~= other@.take(i as int).push(other@[i as int]));
        i += 1;
    }
    assert(other@.take(n as int) =~= other@);
}

/// Serializes a list of bundle requests, as one is submitted.
pub fn encode_bundles(bs: &Vec<crate::types::BundleRequest>) -> (r: Vec<u8>)
    ensures
        r@ == spec_enc_bundles(bs@.map_values(|b: crate::types::BundleRequest| b@)),
{
    let ghost v = bs@.map_values(|b: crate::types::BundleRequest| b@);
    let mut out: Vec<u8> = Vec::new();
    if bs.len() == 0 {
        out.push(LBRACK);
        out.push(RBRACK);
        assert(out@ =~= spec_enc_bundles(v));
    } else {
        out.push(LBRACK);
        let eb = encode_bundle(&bs[0]);
        push_all(&mut out, &eb);
        encode_bundles_rest(&mut out, bs, 1);
        proof {
            assert(v.drop_first() =~= v.skip(1));
        }
        assert(out@ =~= spec_enc_bundles(v));
    }
    out
}

/// Serializes a hint set to its wire array of tags, in the fixed order.
pub fn encode_privacy_hints(h: &PrivacyHint) -> (r: Vec<u8>)
    ensures
        r@ == spec_enc_hints(*h),
{
    let mut out: Vec<u8> = Vec::new();
    enc_hints_into(&mut out, h);
    assert(out@ =~= spec_enc_hints(*h));
    out
}


// ---------------------------------------------------------------------------
// The executable parser
// ---------------------------------------------------------------------------

/// Whether a byte is wire whitespace.
fn ws_at(b: u8) -> (r: bool)
    ensures
        r == is_ws(b),
{
    b == 32 || b == 9 || b == 10 || b == 13
}

/// Skips whitespace from `i`.
fn skip_ws(s: &Vec<u8>, i: usize) -> (r: usize)
    requires
        i <= s@.len(),
    ensures
        r as int == spec_skip_ws(s@, i as int),
        i <= r <= s@.len(),
{
    let mut cur = i;
    loop
        invariant
            i <= cur <= s@.len(),
            spec_skip_ws(s@, i as int) == spec_skip_ws(s@, cur as int),
        decreases s@.len() - cur,
    {
        if cur < s.len() && ws_at(s[cur]) {
            cur += 1;
        } else {
            proof {
                lemma_skip_ws_noop(s@, cur as int);
            }
            return cur;
        }
    }
}

/// Expects the bytes of `l` at exactly position `i`.
fn lit_at(s: &Vec<u8>, i: usize, l: &str) -> (r: Option<usize>)
    requires
        i <= s@.len(),
    ensures
        spec_expect(s@, i as int, lit(l)) == (match r {
            Some(p) => Some(p as int),
            None => None::<int>,
        }),
        r is Some ==> r->Some_0 == i + l@.len() && r->Some_0 <= s@.len(),
{
    let n = l.unicode_len();
    if s.len() - i < n {
        assert(spec_expect(s@, i as int, lit(l)) is None);
        return None;
    }
    let slen = s.len();
    let mut k: usize = 0;
    let mut p: usize = i;
    while k < n
        invariant
            slen == s@.len(),
            i + n <= slen,
            n == l@.len(),
            k <= n,
            p == i + k,
            forall|m: int| 0 <= m < k ==> s@[i + m] == lit(l)[m],
        decreases n - k,
    {
        let c = l.get_char(k);
        if s[p] != (#[verifier::truncate] (c as u8)) {
            proof {
                lemma_expect_fails_at(s@, i as int, lit(l), k as int);
            }
            return None;
        }
        k += 1;
        p += 1;
    }
    proof {
        assert(s@.subrange(i as int, i + n as int) =~= lit(l));
    }
    Some(i + n)
}

/// Expects a quoted word at exactly position `i`.
fn quoted_at(s: &Vec<u8>, i: usize, l: &str) -> (r: Option<usize>)
    requires
        i <= s@.len(),
    ensures
        spec_expect(s@, i as int, seq![QUOTE] + lit(l) + seq![QUOTE]) == (match r {
            Some(p) => Some(p as int),
            None => None::<int>,
        }),
        r is Some ==> r->Some_0 <= s@.len(),
{
    let ghost e = seq![QUOTE] + lit(l) + seq![QUOTE];
    if i == s.len() || s[i] != QUOTE {
        proof {
            if spec_expect(s@, i as int, e) is Some {
                assert(s@.subrange(i as int, i + e.len() as int)[0] == s@[i as int]);
            }
        }
        return None;
    }
    match lit_at(s, i + 1, l) {
        Some(k) => {
            if k < s.len() && s[k] == QUOTE {
                proof {
                    assert(s@.subrange(i as int, k + 1 as int) =~= e) by {
                        assert(s@.subrange(i + 1 as int, k as int) =~= lit(l));
                    }
                }
                Some(k + 1)
            } else {
                proof {
                    if spec_expect(s@, i as int, e) is Some {
                        assert(s@.subrange(i as int, i + e.len() as int)[e.len() - 1] == s@[i
                            + e.len() - 1]);
                    }
                }
                None
            }
        },
        None => {
            proof {
                if spec_expect(s@, i as int, e) is Some {
                    lemma_region_sub(s@, i as int, e, 1, 1 + lit(l).len() as int);
                    assert(e.subrange(1, 1 + lit(l).len() as int) =~= lit(l));
                }
            }
            None
        },
    }
}

/// Takes a structural byte as a token, skipping leading whitespace.
fn tok(s: &Vec<u8>, i: usize, b: u8) -> (r: Option<usize>)
    requires
        i <= s@.len(),
        !is_ws(b),
    ensures
        spec_tok(s@, i as int, b) == (match r {
            Some(p) => Some(p as int),
            None => None::<int>,
        }),
        r is Some ==> r->Some_0 <= s@.len(),
{
    let j = skip_ws(s, i);
    if j < s.len() && s[j] == b {
        proof {
            assert(s@.subrange(j as int, j + 1 as int) =~= seq![b]);
        }
        Some(j + 1)
    } else {
        proof {
            if spec_expect(s@, j as int, seq![b]) is Some {
                assert(s@.subrange(j as int, j + 1 as int)[0] == s@[j as int]);
            }
        }
        None
    }
}

/// Takes a quoted key and its colon, skipping leading whitespace.
fn key_colon(s: &Vec<u8>, i: usize, l: &str) -> (r: Option<usize>)
    requires
        i <= s@.len(),
    ensures
        spec_key_colon(s@, i as int, lit(l)) == (match r {
            Some(p) => Some(p as int),
            None => None::<int>,
        }),
        r is Some ==> r->Some_0 <= s@.len(),
{
    let j = skip_ws(s, i);
    match quoted_at(s, j, l) {
        Some(k) => tok(s, k, COLON),
        None => None,
    }
}

/// Whether a byte is a lowercase hex digit.
fn hex_at(b: u8) -> (r: bool)
    ensures
        r == is_hex(b),
{
    (48 <= b && b <= 57) || (97 <= b && b <= 102)
}

/// The value of a lowercase hex digit byte.
fn hex_val_at(b: u8) -> (r: u8)
    requires
        is_hex(b),
    ensures
        r as int == hex_val(b),
{
    if b <= 57 {
        b - 48
    } else {
        b - 87
    }
}

/// Scans hex digits into a `u64`.
fn scan_hex_u64(s: &Vec<u8>, i: usize) -> (r: Option<(u64, usize)>)
    requires
        i <= s@.len(),
    ensures
        spec_scan_hex(s@, i as int, 0) == (match r {
            Some((v, p)) => Some((v, p as int)),
            None => None::<(u64, int)>,
        }),
        r is Some ==> i <= r->Some_0.1 <= s@.len(),
{
    let mut cur = i;
    let mut acc: u64 = 0;
    loop
        invariant
            i <= cur <= s@.len(),
            spec_scan_hex(s@, i as int, 0) == spec_scan_hex(s@, cur as int, acc),
        decreases s@.len() - cur,
    {
        if cur < s.len() && hex_at(s[cur]) {
            let v = hex_val_at(s[cur]);
            if (acc as u128) * 16 + (v as u128) <= u64::MAX as u128 {
                acc = acc * 16 + (v as u64);
                cur += 1;
            } else {
                return None;
            }
        } else {
            return Some((acc, cur));
        }
    }
}

/// Scans decimal digits into a `u64`.
fn scan_dec_u64(s: &Vec<u8>, i: usize) -> (r: Option<(u64, usize)>)
    requires
        i <= s@.len(),
    ensures
        spec_scan_dec(s@, i as int, 0) == (match r {
            Some((v, p)) => Some((v, p as int)),
            None => None::<(u64, int)>,
        }),
        r is Some ==> i <= r->Some_0.1 <= s@.len(),
{
    let mut cur = i;
    let mut acc: u64 = 0;
    loop
        invariant
            i <= cur <= s@.len(),
            spec_scan_dec(s@, i as int, 0) == spec_scan_dec(s@, cur as int, acc),
        decreases s@.len() - cur,
    {
        if cur < s.len() && 48 <= s[cur] && s[cur] <= 57 {
            let v = s[cur] - 48;
            if (acc as u128) * 10 + (v as u128) <= u64::MAX as u128 {
                acc = acc * 10 + (v as u64);
                cur += 1;
            } else {
                return None;
            }
        } else {
            return Some((acc, cur));
        }
    }
}

/// Scans pairs of hex digits into bytes.
fn scan_hex_bytes(s: &Vec<u8>, i: usize) -> (r: Option<(Vec<u8>, usize)>)
    requires
        i <= s@.len(),
    ensures
        spec_scan_hex_bytes(s@, i as int, Seq::empty()) == (match r {
            Some((bs, p)) => Some((bs@, p as int)),
            None => None::<(Seq<u8>, int)>,
        }),
        r is Some ==> i <= r->Some_0.1 <= s@.len(),
{
    let mut cur = i;
    let mut acc: Vec<u8> = Vec::new();
    loop
        invariant
            i <= cur <= s@.len(),
            spec_scan_hex_bytes(s@, i as int, Seq::empty()) == spec_scan_hex_bytes(
                s@,
                cur as int,
                acc@,
            ),
        decreases s@.len() - cur,
    {
        if cur < s.len() && hex_at(s[cur]) {
            if cur + 1 < s.len() && hex_at(s[cur + 1]) {
                let v0 = hex_val_at(s[cur]);
                let v1 = hex_val_at(s[cur + 1]);
                acc.push(v0 * 16 + v1);
                cur += 2;
            } else {
                return None;
            }
        } else {
            return Some((acc, cur));
        }
    }
}

/// Parses a quoted minimal-hex quantity.
fn parse_quantity(s: &Vec<u8>, i: usize) -> (r: Option<(u64, usize)>)
    requires
        i <= s@.len(),
    ensures
        spec_parse_quantity(s@, i as int) == (match r {
            Some((v, p)) => Some((v, p as int)),
            None => None::<(u64, int)>,
        }),
        r is Some ==> r->Some_0.1 <= s@.len(),
{
    let j = skip_ws(s, i);
    let jj = if j < s.len() && s[j] == QUOTE && s.len() - j > 2 && s[j + 1] == DIGIT_ZERO && s[j
        + 2] == LOWER_X {
        proof {
            assert(s@.subrange(j as int, j + 3 as int) =~= seq![QUOTE, DIGIT_ZERO, LOWER_X]);
        }
        j + 3
    } else {
        proof {
            if spec_expect(s@, j as int, seq![QUOTE, DIGIT_ZERO, LOWER_X]) is Some {
                assert(s@.subrange(j as int, j + 3 as int)[0] == s@[j as int]);
                assert(s@.subrange(j as int, j + 3 as int)[1] == s@[j + 1]);
                assert(s@.subrange(j as int, j + 3 as int)[2] == s@[j + 2]);
            }
        }
        return None;
    };
    match scan_hex_u64(s, jj) {
        Some((v, k)) => {
            if k > jj && k < s.len() && s[k] == QUOTE {
                proof {
                    assert(s@.subrange(k as int, k + 1 as int) =~= seq![QUOTE]);
                }
                Some((v, k + 1))
            } else {
                proof {
                    if k > jj && spec_expect(s@, k as int, seq![QUOTE]) is Some {
                        assert(s@.subrange(k as int, k + 1 as int)[0] == s@[k as int]);
                    }
                }
                None
            }
        },
        None => None,
    }
}

/// Parses a quoted hex byte string.
fn parse_hex_data(s: &Vec<u8>, i: usize) -> (r: Option<(Vec<u8>, usize)>)
    requires
        i <= s@.len(),
    ensures
        spec_parse_hex_data(s@, i as int) == (match r {
            Some((bs, p)) => Some((bs@, p as int)),
            None => None::<(Seq<u8>, int)>,
        }),
        r is Some ==> r->Some_0.1 <= s@.len(),
{
    let j = skip_ws(s, i);
    let jj = if j < s.len() && s[j] == QUOTE && s.len() - j > 2 && s[j + 1] == DIGIT_ZERO && s[j
        + 2] == LOWER_X {
        proof {
            assert(s@.subrange(j as int, j + 3 as int) =~= seq![QUOTE, DIGIT_ZERO, LOWER_X]);
        }
        j + 3
    } else {
        proof {
            if spec_expect(s@, j as int, seq![QUOTE, DIGIT_ZERO, LOWER_X]) is Some {
                assert(s@.subrange(j as int, j + 3 as int)[0] == s@[j as int]);
                assert(s@.subrange(j as int, j + 3 as int)[1] == s@[j + 1]);
                assert(s@.subrange(j as int, j + 3 as int)[2] == s@[j + 2]);
            }
        }
        return None;
    };
    match scan_hex_bytes(s, jj) {
        Some((bs, k)) => {
            if k < s.len() && s[k] == QUOTE {
                proof {
                    assert(s@.subrange(k as int, k + 1 as int) =~= seq![QUOTE]);
                }
                Some((bs, k + 1))
            } else {
                proof {
                    if spec_expect(s@, k as int, seq![QUOTE]) is Some {
                        assert(s@.subrange(k as int, k + 1 as int)[0] == s@[k as int]);
                    }
                }
                None
            }
        },
        None => None,
    }
}

/// Parses a bare boolean word.
fn parse_bool(s: &Vec<u8>, i: usize) -> (r: Option<(bool, usize)>)
    requires
        i <= s@.len(),
    ensures
        spec_parse_bool(s@, i as int) == (match r {
            Some((b, p)) => Some((b, p as int)),
            None => None::<(bool, int)>,
        }),
        r is Some ==> r->Some_0.1 <= s@.len(),
{
    let j = skip_ws(s, i);
    match lit_at(s, j, "true") {
        Some(k) => Some((true, k)),
        None => match lit_at(s, j, "false") {
            Some(k) => Some((false, k)),
            None => None,
        },
    }
}

/// Parses a quoted protocol revision tag.
fn parse_version(s: &Vec<u8>, i: usize) -> (r: Option<(ProtocolVersion, usize)>)
    requires
        i <= s@.len(),
    ensures
        spec_parse_version(s@, i as int) == (match r {
            Some((v, p)) => Some((v, p as int)),
            None => None::<(ProtocolVersion, int)>,
        }),
        r is Some ==> r->Some_0.1 <= s@.len(),
{
    let j = skip_ws(s, i);
    match quoted_at(s, j, "beta-1") {
        Some(k) => Some((ProtocolVersion::Beta1, k)),
        None => match quoted_at(s, j, "v0.1") {
            Some(k) => Some((ProtocolVersion::V0_1, k)),
            None => None,
        },
    }
}

/// Parses a bare decimal number.
fn parse_dec(s: &Vec<u8>, i: usize) -> (r: Option<(u64, usize)>)
    requires
        i <= s@.len(),
    ensures
        spec_parse_dec(s@, i as int) == (match r {
            Some((v, p)) => Some((v, p as int)),
            None => None::<(u64, int)>,
        }),
        r is Some ==> r->Some_0.1 <= s@.len(),
{
    let j = skip_ws(s, i);
    match scan_dec_u64(s, j) {
        Some((v, k)) => {
            if k > j {
                Some((v, k))
            } else {
                None
            }
        },
        None => None,
    }
}


/// Parses one body element.
fn parse_tx(s: &Vec<u8>, i: usize) -> (r: Option<(crate::types::BundleTx, usize)>)
    requires
        i <= s@.len(),
    ensures
        spec_parse_tx(s@, i as int) == (match r {
            Some((t, p)) => Some((t@, p as int)),
            None => None::<(BundleTxV, int)>,
        }),
        r is Some ==> r->Some_0.1 <= s@.len(),
{
    let j = match tok(s, i, LBRACE) {
        Some(j) => j,
        None => {
            return None;
        },
    };
    match key_colon(s, j, "hash") {
        Some(k) => {
            match parse_hex_data(s, k) {
                Some((h, m)) => {
                    if h.len() == 32 {
                        match tok(s, m, RBRACE) {
                            Some(p) => Some(
                                (
                                    crate::types::BundleTx::TxHash {
                                        hash: crate::primitives::TxHash::from_bytes(h),
                                    },
                                    p,
                                ),
                            ),
                            None => None,
                        }
                    } else {
                        None
                    }
                },
                None => None,
            }
        },
        None => {
            match key_colon(s, j, "tx") {
                Some(k) => match parse_hex_data(s, k) {
                    Some((tx, m)) => match tok(s, m, COMMA) {
                        Some(p) => match key_colon(s, p, "canRevert") {
                            Some(q) => match parse_bool(s, q) {
                                Some((b, r2)) => match tok(s, r2, RBRACE) {
                                    Some(z) => Some(
                                        (
                                            crate::types::BundleTx::Tx {
                                                tx,
                                                can_revert: b,
                                            },
                                            z,
                                        ),
                                    ),
                                    None => None,
                                },
                                None => None,
                            },
                            None => None,
                        },
                        None => None,
                    },
                    None => None,
                },
                None => None,
            }
        },
    }
}

/// Parses the tail of a body list.
fn parse_body_rest(s: &Vec<u8>, i: usize, acc: Vec<crate::types::BundleTx>) -> (r: Option<
    (Vec<crate::types::BundleTx>, usize),
>)
    requires
        i <= s@.len(),
    ensures
        spec_parse_body_rest(
            s@,
            i as int,
            acc@.map_values(|t: crate::types::BundleTx| t@),
        ) == (match r {
            Some((ts, p)) => Some((ts@.map_values(|t: crate::types::BundleTx| t@), p as int)),
            None => None::<(Seq<BundleTxV>, int)>,
        }),
        r is Some ==> r->Some_0.1 <= s@.len(),
    decreases s@.len() - i,
{
    match tok(s, i, RBRACK) {
        Some(j) => Some((acc, j)),
        None => match tok(s, i, COMMA) {
            Some(j) => match parse_tx(s, j) {
                Some((t, k)) => {
                    if i < k {
                        let mut acc2 = acc;
                        acc2.push(t);
                        proof {
                            assert(acc2@.map_values(|t: crate::types::BundleTx| t@)
                                =~= acc@.map_values(|t: crate::types::BundleTx| t@).push(t@));
                        }
                        parse_body_rest(s, k, acc2)
                    } else {
                        None
                    }
                },
                None => None,
            },
            None => None,
        },
    }
}

/// Parses a body list.
fn parse_body(s: &Vec<u8>, i: usize) -> (r: Option<(Vec<crate::types::BundleTx>, usize)>)
    requires
        i <= s@.len(),
    ensures
        spec_parse_body(s@, i as int) == (match r {
            Some((ts, p)) => Some((ts@.map_values(|t: crate::types::BundleTx| t@), p as int)),
            None => None::<(Seq<BundleTxV>, int)>,
        }),
        r is Some ==> r->Some_0.1 <= s@.len(),
{
    let j = match tok(s, i, LBRACK) {
        Some(j) => j,
        None => {
            return None;
        },
    };
    match tok(s, j, RBRACK) {
        Some(k) => {
            let empty: Vec<crate::types::BundleTx> = Vec::new();
            proof {
                assert(empty@.map_values(|t: crate::types::BundleTx| t@) =~= Seq::<
                    BundleTxV,
                >::empty());
            }
            Some((empty, k))
        },
        None => match parse_tx(s, j) {
            Some((t, k)) => {
                if j < k {
                    let mut acc: Vec<crate::types::BundleTx> = Vec::new();
                    acc.push(t);
                    proof {
                        assert(acc@.map_values(|t: crate::types::BundleTx| t@) =~= seq![t@]);
                    }
                    parse_body_rest(s, k, acc)
                } else {
                    None
                }
            },
            None => None,
        },
    }
}

/// Parses one refund share.
fn parse_refund(s: &Vec<u8>, i: usize) -> (r: Option<(Refund, usize)>)
    requires
        i <= s@.len(),
    ensures
        spec_parse_refund(s@, i as int) == (match r {
            Some((t, p)) => Some((t, p as int)),
            None => None::<(Refund, int)>,
        }),
        r is Some ==> r->Some_0.1 <= s@.len(),
{
    let j = match tok(s, i, LBRACE) {
        Some(j) => j,
        None => {
            return None;
        },
    };
    match key_colon(s, j, "bodyIdx") {
        Some(k) => match parse_dec(s, k) {
            Some((b, m)) => match tok(s, m, COMMA) {
                Some(p) => match key_colon(s, p, "percent") {
                    Some(q) => match parse_dec(s, q) {
                        Some((c, r2)) => match tok(s, r2, RBRACE) {
                            Some(z) => Some((Refund { body_idx: b, percent: c }, z)),
                            None => None,
                        },
                        None => None,
                    },
                    None => None,
                },
                None => None,
            },
            None => None,
        },
        None => None,
    }
}

/// Parses the tail of a refund list.
fn parse_refunds_rest(s: &Vec<u8>, i: usize, acc: Vec<Refund>) -> (r: Option<
    (Vec<Refund>, usize),
>)
    requires
        i <= s@.len(),
    ensures
        spec_parse_refunds_rest(s@, i as int, acc@) == (match r {
            Some((ts, p)) => Some((ts@, p as int)),
            None => None::<(Seq<Refund>, int)>,
        }),
        r is Some ==> r->Some_0.1 <= s@.len(),
    decreases s@.len() - i,
{
    match tok(s, i, RBRACK) {
        Some(j) => Some((acc, j)),
        None => match tok(s, i, COMMA) {
            Some(j) => match parse_refund(s, j) {
                Some((t, k)) => {
                    if i < k {
                        let mut acc2 = acc;
                        acc2.push(t);
                        parse_refunds_rest(s, k, acc2)
                    } else {
                        None
                    }
                },
                None => None,
            },
            None => None,
        },
    }
}

/// Parses a refund list.
fn parse_refunds(s: &Vec<u8>, i: usize) -> (r: Option<(Vec<Refund>, usize)>)
    requires
        i <= s@.len(),
    ensures
        spec_parse_refunds(s@, i as int) == (match r {
            Some((ts, p)) => Some((ts@, p as int)),
            None => None::<(Seq<Refund>, int)>,
        }),
        r is Some ==> r->Some_0.1 <= s@.len(),
{
    let j = match tok(s, i, LBRACK) {
        Some(j) => j,
        None => {
            return None;
        },
    };
    match tok(s, j, RBRACK) {
        Some(k) => {
            let empty: Vec<Refund> = Vec::new();
            proof {
                assert(empty@ =~= Seq::<Refund>::empty());
            }
            Some((empty, k))
        },
        None => match parse_refund(s, j) {
            Some((t, k)) => {
                if j < k {
                    let mut acc: Vec<Refund> = Vec::new();
                    acc.push(t);
                    proof {
                        assert(acc@ =~= seq![t]);
                    }
                    parse_refunds_rest(s, k, acc)
                } else {
                    None
                }
            },
            None => None,
        },
    }
}

/// Parses one refund recipient.
fn parse_config(s: &Vec<u8>, i: usize) -> (r: Option<(crate::types::RefundConfig, usize)>)
    requires
        i <= s@.len(),
    ensures
        spec_parse_config(s@, i as int) == (match r {
            Some((t, p)) => Some((t@, p as int)),
            None => None::<(RefundConfigV, int)>,
        }),
        r is Some ==> r->Some_0.1 <= s@.len(),
{
    let j = match tok(s, i, LBRACE) {
        Some(j) => j,
        None => {
            return None;
        },
    };
    match key_colon(s, j, "address") {
        Some(k) => match parse_hex_data(s, k) {
            Some((a, m)) => {
                if a.len() == 20 {
                    match tok(s, m, COMMA) {
                        Some(p) => match key_colon(s, p, "percent") {
                            Some(q) => match parse_dec(s, q) {
                                Some((c, r2)) => match tok(s, r2, RBRACE) {
                                    Some(z) => Some(
                                        (
                                            crate::types::RefundConfig {
                                                address: crate::primitives::Address::from_bytes(
                                                    a,
                                                ),
                                                percent: c,
                                            },
                                            z,
                                        ),
                                    ),
                                    None => None,
                                },
                                None => None,
                            },
                            None => None,
                        },
                        None => None,
                    }
                } else {
                    None
                }
            },
            None => None,
        },
        None => None,
    }
}

/// Parses the tail of a refund-recipient list.
fn parse_configs_rest(s: &Vec<u8>, i: usize, acc: Vec<crate::types::RefundConfig>) -> (r: Option<
    (Vec<crate::types::RefundConfig>, usize),
>)
    requires
        i <= s@.len(),
    ensures
        spec_parse_configs_rest(
            s@,
            i as int,
            acc@.map_values(|c: crate::types::RefundConfig| c@),
        ) == (match r {
            Some((ts, p)) => Some(
                (ts@.map_values(|c: crate::types::RefundConfig| c@), p as int),
            ),
            None => None::<(Seq<RefundConfigV>, int)>,
        }),
        r is Some ==> r->Some_0.1 <= s@.len(),
    decreases s@.len() - i,
{
    match tok(s, i, RBRACK) {
        Some(j) => Some((acc, j)),
        None => match tok(s, i, COMMA) {
            Some(j) => match parse_config(s, j) {
                Some((t, k)) => {
                    if i < k {
                        let mut acc2 = acc;
                        acc2.push(t);
                        proof {
                            assert(acc2@.map_values(|c: crate::types::RefundConfig| c@)
                                =~= acc@.map_values(|c: crate::types::RefundConfig| c@).push(
                                t@,
                            ));
                        }
                        parse_configs_rest(s, k, acc2)
                    } else {
                        None
                    }
                },
                None => None,
            },
            None => None,
        },
    }
}

/// Parses a refund-recipient list.
fn parse_configs(s: &Vec<u8>, i: usize) -> (r: Option<(Vec<crate::types::RefundConfig>, usize)>)
    requires
        i <= s@.len(),
    ensures
        spec_parse_configs(s@, i as int) == (match r {
            Some((ts, p)) => Some(
                (ts@.map_values(|c: crate::types::RefundConfig| c@), p as int),
            ),
            None => None::<(Seq<RefundConfigV>, int)>,
        }),
        r is Some ==> r->Some_0.1 <= s@.len(),
{
    let j = match tok(s, i, LBRACK) {
        Some(j) => j,
        None => {
            return None;
        },
    };
    match tok(s, j, RBRACK) {
        Some(k) => {
            let empty: Vec<crate::types::RefundConfig> = Vec::new();
            proof {
                assert(empty@.map_values(|c: crate::types::RefundConfig| c@) =~= Seq::<
                    RefundConfigV,
                >::empty());
            }
            Some((empty, k))
        },
        None => match parse_config(s, j) {
            Some((t, k)) => {
                if j < k {
                    let mut acc: Vec<crate::types::RefundConfig> = Vec::new();
                    acc.push(t);
                    proof {
                        assert(acc@.map_values(|c: crate::types::RefundConfig| c@) =~= seq![t@]);
                    }
                    parse_configs_rest(s, k, acc)
                } else {
                    None
                }
            },
            None => None,
        },
    }
}

/// Parses a builder address.
fn parse_builder(s: &Vec<u8>, i: usize) -> (r: Option<(crate::primitives::Address, usize)>)
    requires
        i <= s@.len(),
    ensures
        spec_parse_builder(s@, i as int) == (match r {
            Some((a, p)) => Some((a@, p as int)),
            None => None::<(Seq<u8>, int)>,
        }),
        r is Some ==> r->Some_0.1 <= s@.len(),
{
    match parse_hex_data(s, i) {
        Some((a, j)) => {
            if a.len() == 20 {
                Some((crate::primitives::Address::from_bytes(a), j))
            } else {
                None
            }
        },
        None => None,
    }
}

/// Parses the tail of a builder list.
fn parse_builders_rest(s: &Vec<u8>, i: usize, acc: Vec<crate::primitives::Address>) -> (r: Option<
    (Vec<crate::primitives::Address>, usize),
>)
    requires
        i <= s@.len(),
    ensures
        spec_parse_builders_rest(
            s@,
            i as int,
            acc@.map_values(|a: crate::primitives::Address| a@),
        ) == (match r {
            Some((ts, p)) => Some(
                (ts@.map_values(|a: crate::primitives::Address| a@), p as int),
            ),
            None => None::<(Seq<Seq<u8>>, int)>,
        }),
        r is Some ==> r->Some_0.1 <= s@.len(),
    decreases s@.len() - i,
{
    match tok(s, i, RBRACK) {
        Some(j) => Some((acc, j)),
        None => match tok(s, i, COMMA) {
            Some(j) => match parse_builder(s, j) {
                Some((t, k)) => {
                    if i < k {
                        let mut acc2 = acc;
                        acc2.push(t);
                        proof {
                            assert(acc2@.map_values(|a: crate::primitives::Address| a@)
                                =~= acc@.map_values(|a: crate::primitives::Address| a@).push(
                                t@,
                            ));
                        }
                        parse_builders_rest(s, k, acc2)
                    } else {
                        None
                    }
                },
                None => None,
            },
            None => None,
        },
    }
}

/// Parses a builder list.
fn parse_builders(s: &Vec<u8>, i: usize) -> (r: Option<
    (Vec<crate::primitives::Address>, usize),
>)
    requires
        i <= s@.len(),
    ensures
        spec_parse_builders(s@, i as int) == (match r {
            Some((ts, p)) => Some(
                (ts@.map_values(|a: crate::primitives::Address| a@), p as int),
            ),
            None => None::<(Seq<Seq<u8>>, int)>,
        }),
        r is Some ==> r->Some_0.1 <= s@.len(),
{
    let j = match tok(s, i, LBRACK) {
        Some(j) => j,
        None => {
            return None;
        },
    };
    match tok(s, j, RBRACK) {
        Some(k) => {
            let empty: Vec<crate::primitives::Address> = Vec::new();
            proof {
                assert(empty@.map_values(|a: crate::primitives::Address| a@) =~= Seq::<
                    Seq<u8>,
                >::empty());
            }
            Some((empty, k))
        },
        None => match parse_builder(s, j) {
            Some((t, k)) => {
                if j < k {
                    let mut acc: Vec<crate::primitives::Address> = Vec::new();
                    acc.push(t);
                    proof {
                        assert(acc@.map_values(|a: crate::primitives::Address| a@) =~= seq![t@]);
                    }
                    parse_builders_rest(s, k, acc)
                } else {
                    None
                }
            },
            None => None,
        },
    }
}

/// Parses one tag, setting its flag on the accumulator.
fn parse_tag(s: &Vec<u8>, i: usize, acc: PrivacyHint) -> (r: Option<(PrivacyHint, usize)>)
    requires
        i <= s@.len(),
    ensures
        spec_parse_tag(s@, i as int, acc) == (match r {
            Some((h, p)) => Some((h, p as int)),
            None => None::<(PrivacyHint, int)>,
        }),
        r is Some ==> r->Some_0.1 <= s@.len(),
{
    let j = skip_ws(s, i);
    match quoted_at(s, j, "calldata") {
        Some(k) => Some((acc.with_calldata(), k)),
        None => match quoted_at(s, j, "contract_address") {
            Some(k) => Some((acc.with_contract_address(), k)),
            None => match quoted_at(s, j, "logs") {
                Some(k) => Some((acc.with_logs(), k)),
                None => match quoted_at(s, j, "function_selector") {
                    Some(k) => Some((acc.with_function_selector(), k)),
                    None => match quoted_at(s, j, "hash") {
                        Some(k) => Some((acc.with_hash(), k)),
                        None => match quoted_at(s, j, "tx_hash") {
                            Some(k) => Some((acc.with_tx_hash(), k)),
                            None => None,
                        },
                    },
                },
            },
        },
    }
}

/// Parses the tail of a tag list.
fn parse_tags_rest(s: &Vec<u8>, i: usize, acc: PrivacyHint) -> (r: Option<(PrivacyHint, usize)>)
    requires
        i <= s@.len(),
    ensures
        spec_parse_tags_rest(s@, i as int, acc) == (match r {
            Some((h, p)) => Some((h, p as int)),
            None => None::<(PrivacyHint, int)>,
        }),
        r is Some ==> r->Some_0.1 <= s@.len(),
    decreases s@.len() - i,
{
    match tok(s, i, RBRACK) {
        Some(j) => Some((acc, j)),
        None => match tok(s, i, COMMA) {
            Some(j) => match parse_tag(s, j, acc) {
                Some((t, k)) => {
                    if i < k {
                        parse_tags_rest(s, k, t)
                    } else {
                        None
                    }
                },
                None => None,
            },
            None => None,
        },
    }
}

/// Parses a tag list into a hint set.
fn parse_hints(s: &Vec<u8>, i: usize) -> (r: Option<(PrivacyHint, usize)>)
    requires
        i <= s@.len(),
    ensures
        spec_parse_hints(s@, i as int) == (match r {
            Some((h, p)) => Some((h, p as int)),
            None => None::<(PrivacyHint, int)>,
        }),
        r is Some ==> r->Some_0.1 <= s@.len(),
{
    let h0 = PrivacyHint {
        calldata: false,
        contract_address: false,
        logs: false,
        function_selector: false,
        hash: false,
        tx_hash: false,
    };
    let j = match tok(s, i, LBRACK) {
        Some(j) => j,
        None => {
            return None;
        },
    };
    match tok(s, j, RBRACK) {
        Some(k) => Some((h0, k)),
        None => match parse_tag(s, j, h0) {
            Some((t, k)) => {
                if j < k {
                    parse_tags_rest(s, k, t)
                } else {
                    None
                }
            },
            None => None,
        },
    }
}


/// Parses an inclusion window.
fn parse_incl(s: &Vec<u8>, i: usize) -> (r: Option<((u64, Option<u64>), usize)>)
    requires
        i <= s@.len(),
    ensures
        spec_parse_incl(s@, i as int) == (match r {
            Some(((b, m), p)) => Some(((b, m), p as int)),
            None => None::<((u64, Option<u64>), int)>,
        }),
        r is Some ==> r->Some_0.1 <= s@.len(),
{
    let j = match tok(s, i, LBRACE) {
        Some(j) => j,
        None => {
            return None;
        },
    };
    match key_colon(s, j, "block") {
        Some(k) => match parse_quantity(s, k) {
            Some((b, m)) => match tok(s, m, RBRACE) {
                Some(z) => Some(((b, None), z)),
                None => match tok(s, m, COMMA) {
                    Some(p) => match key_colon(s, p, "maxBlock") {
                        Some(q) => match parse_quantity(s, q) {
                            Some((mb, r2)) => match tok(s, r2, RBRACE) {
                                Some(z) => Some(((b, Some(mb)), z)),
                                None => None,
                            },
                            None => None,
                        },
                        None => None,
                    },
                    None => None,
                },
            },
            None => None,
        },
        None => None,
    }
}

/// Parses validity conditions.
fn parse_validity(s: &Vec<u8>, i: usize) -> (r: Option<(crate::types::Validity, usize)>)
    requires
        i <= s@.len(),
    ensures
        spec_parse_validity(s@, i as int) == (match r {
            Some((v, p)) => Some((v@, p as int)),
            None => None::<(ValidityV, int)>,
        }),
        r is Some ==> r->Some_0.1 <= s@.len(),
{
    let j = match tok(s, i, LBRACE) {
        Some(j) => j,
        None => {
            return None;
        },
    };
    match tok(s, j, RBRACE) {
        Some(z) => Some((crate::types::Validity { refund: None, refund_config: None }, z)),
        None => match key_colon(s, j, "refund") {
            Some(k) => match parse_refunds(s, k) {
                Some((r2, m)) => match tok(s, m, RBRACE) {
                    Some(z) => Some(
                        (
                            crate::types::Validity {
                                refund: Some(r2),
                                refund_config: None,
                            },
                            z,
                        ),
                    ),
                    None => match tok(s, m, COMMA) {
                        Some(p) => match key_colon(s, p, "refundConfig") {
                            Some(q) => match parse_configs(s, q) {
                                Some((c, r3)) => match tok(s, r3, RBRACE) {
                                    Some(z) => Some(
                                        (
                                            crate::types::Validity {
                                                refund: Some(r2),
                                                refund_config: Some(c),
                                            },
                                            z,
                                        ),
                                    ),
                                    None => None,
                                },
                                None => None,
                            },
                            None => None,
                        },
                        None => None,
                    },
                },
                None => None,
            },
            None => match key_colon(s, j, "refundConfig") {
                Some(k) => match parse_configs(s, k) {
                    Some((c, m)) => match tok(s, m, RBRACE) {
                        Some(z) => Some(
                            (
                                crate::types::Validity {
                                    refund: None,
                                    refund_config: Some(c),
                                },
                                z,
                            ),
                        ),
                        None => None,
                    },
                    None => None,
                },
                None => None,
            },
        },
    }
}

/// Parses privacy preferences.
fn parse_privacy(s: &Vec<u8>, i: usize) -> (r: Option<(crate::types::Privacy, usize)>)
    requires
        i <= s@.len(),
    ensures
        spec_parse_privacy(s@, i as int) == (match r {
            Some((v, p)) => Some((v@, p as int)),
            None => None::<(PrivacyV, int)>,
        }),
        r is Some ==> r->Some_0.1 <= s@.len(),
{
    let j = match tok(s, i, LBRACE) {
        Some(j) => j,
        None => {
            return None;
        },
    };
    match tok(s, j, RBRACE) {
        Some(z) => Some((crate::types::Privacy { hints: None, builders: None }, z)),
        None => match key_colon(s, j, "hints") {
            Some(k) => match parse_hints(s, k) {
                Some((h, m)) => match tok(s, m, RBRACE) {
                    Some(z) => Some(
                        (crate::types::Privacy { hints: Some(h), builders: None }, z),
                    ),
                    None => match tok(s, m, COMMA) {
                        Some(p) => match key_colon(s, p, "builders") {
                            Some(q) => match parse_builders(s, q) {
                                Some((b, r3)) => match tok(s, r3, RBRACE) {
                                    Some(z) => Some(
                                        (
                                            crate::types::Privacy {
                                                hints: Some(h),
                                                builders: Some(b),
                                            },
                                            z,
                                        ),
                                    ),
                                    None => None,
                                },
                                None => None,
                            },
                            None => None,
                        },
                        None => None,
                    },
                },
                None => None,
            },
            None => match key_colon(s, j, "builders") {
                Some(k) => match parse_builders(s, k) {
                    Some((b, m)) => match tok(s, m, RBRACE) {
                        Some(z) => Some(
                            (crate::types::Privacy { hints: None, builders: Some(b) }, z),
                        ),
                        None => None,
                    },
                    None => None,
                },
                None => None,
            },
        },
    }
}

/// Parses the optional trailer of a bundle.
fn parse_trailer(s: &Vec<u8>, i: usize) -> (r: Option<
    ((Option<crate::types::Validity>, Option<crate::types::Privacy>), usize),
>)
    requires
        i <= s@.len(),
    ensures
        spec_parse_trailer(s@, i as int) == (match r {
            Some(((v, p), z)) => Some(
                (
                    (
                        match v {
                            Some(vv) => Some(vv@),
                            None => None,
                        },
                        match p {
                            Some(pv) => Some(pv@),
                            None => None,
                        },
                    ),
                    z as int,
                ),
            ),
            None => None::<((Option<ValidityV>, Option<PrivacyV>), int)>,
        }),
        r is Some ==> r->Some_0.1 <= s@.len(),
{
    match tok(s, i, RBRACE) {
        Some(z) => Some(((None, None), z)),
        None => match tok(s, i, COMMA) {
            Some(j) => match key_colon(s, j, "validity") {
                Some(k) => match parse_validity(s, k) {
                    Some((vv, m)) => match tok(s, m, RBRACE) {
                        Some(z) => Some(((Some(vv), None), z)),
                        None => match tok(s, m, COMMA) {
                            Some(p) => match key_colon(s, p, "privacy") {
                                Some(q) => match parse_privacy(s, q) {
                                    Some((pv, r2)) => match tok(s, r2, RBRACE) {
                                        Some(z) => Some(((Some(vv), Some(pv)), z)),
                                        None => None,
                                    },
                                    None => None,
                                },
                                None => None,
                            },
                            None => None,
                        },
                    },
                    None => None,
                },
                None => match key_colon(s, j, "privacy") {
                    Some(k) => match parse_privacy(s, k) {
                        Some((pv, m)) => match tok(s, m, RBRACE) {
                            Some(z) => Some(((None, Some(pv)), z)),
                            None => None,
                        },
                        None => None,
                    },
                    None => None,
                },
            },
            None => None,
        },
    }
}

/// Parses the head of a bundle request.
fn parse_bundle_head(s: &Vec<u8>, i: usize) -> (r: Option<
    ((ProtocolVersion, u64, Option<u64>), usize),
>)
    requires
        i <= s@.len(),
    ensures
        spec_parse_bundle_head(s@, i as int) == (match r {
            Some(((ver, b, m), p)) => Some(((ver, b, m), p as int)),
            None => None::<((ProtocolVersion, u64, Option<u64>), int)>,
        }),
        r is Some ==> r->Some_0.1 <= s@.len(),
{
    let j = match tok(s, i, LBRACE) {
        Some(j) => j,
        None => {
            return None;
        },
    };
    match key_colon(s, j, "version") {
        Some(k) => match parse_version(s, k) {
            Some((ver, m)) => match tok(s, m, COMMA) {
                Some(p) => match key_colon(s, p, "inclusion") {
                    Some(q) => match parse_incl(s, q) {
                        Some(((blk, mblk), r2)) => match tok(s, r2, COMMA) {
                            Some(t) => match key_colon(s, t, "body") {
                                Some(u) => Some(((ver, blk, mblk), u)),
                                None => None,
                            },
                            None => None,
                        },
                        None => None,
                    },
                    None => None,
                },
                None => None,
            },
            None => None,
        },
        None => None,
    }
}

/// Parses one bundle request.
fn parse_bundle(s: &Vec<u8>, i: usize) -> (r: Option<(crate::types::BundleRequest, usize)>)
    requires
        i <= s@.len(),
    ensures
        spec_parse_bundle(s@, i as int) == (match r {
            Some((b, p)) => Some((b@, p as int)),
            None => None::<(BundleRequestV, int)>,
        }),
        r is Some ==> r->Some_0.1 <= s@.len(),
{
    proof {
        reveal(spec_parse_bundle);
    }
    match parse_bundle_head(s, i) {
        Some(((ver, blk, mblk), u)) => match parse_body(s, u) {
            Some((body, w)) => match parse_trailer(s, w) {
                Some(((vv, pv), z)) => Some(
                    (
                        crate::types::BundleRequest {
                            version: ver,
                            inclusion: crate::types::Inclusion { block: blk, max_block: mblk },
                            body,
                            validity: vv,
                            privacy: pv,
                        },
                        z,
                    ),
                ),
                None => None,
            },
            None => None,
        },
        None => None,
    }
}

/// Parses the tail of a bundle list.
fn parse_bundles_rest(s: &Vec<u8>, i: usize, acc: Vec<crate::types::BundleRequest>) -> (r: Option<
    (Vec<crate::types::BundleRequest>, usize),
>)
    requires
        i <= s@.len(),
    ensures
        spec_parse_bundles_rest(
            s@,
            i as int,
            acc@.map_values(|b: crate::types::BundleRequest| b@),
        ) == (match r {
            Some((ts, p)) => Some(
                (ts@.map_values(|b: crate::types::BundleRequest| b@), p as int),
            ),
            None => None::<(Seq<BundleRequestV>, int)>,
        }),
        r is Some ==> r->Some_0.1 <= s@.len(),
    decreases s@.len() - i,
{
    match tok(s, i, RBRACK) {
        Some(j) => Some((acc, j)),
        None => match tok(s, i, COMMA) {
            Some(j) => match parse_bundle(s, j) {
                Some((t, k)) => {
                    if i < k {
                        let mut acc2 = acc;
                        acc2.push(t);
                        proof {
                            assert(acc2@.map_values(|b: crate::types::BundleRequest| b@)
                                =~= acc@.map_values(|b: crate::types::BundleRequest| b@).push(
                                t@,
                            ));
                        }
                        parse_bundles_rest(s, k, acc2)
                    } else {
                        None
                    }
                },
                None => None,
            },
            None => None,
        },
    }
}

/// Parses a bundle list.
fn parse_bundles(s: &Vec<u8>, i: usize) -> (r: Option<
    (Vec<crate::types::BundleRequest>, usize),
>)
    requires
        i <= s@.len(),
    ensures
        spec_parse_bundles(s@, i as int) == (match r {
            Some((ts, p)) => Some(
                (ts@.map_values(|b: crate::types::BundleRequest| b@), p as int),
            ),
            None => None::<(Seq<BundleRequestV>, int)>,
        }),
        r is Some ==> r->Some_0.1 <= s@.len(),
{
    let j = match tok(s, i, LBRACK) {
        Some(j) => j,
        None => {
            return None;
        },
    };
    match tok(s, j, RBRACK) {
        Some(k) => {
            let empty: Vec<crate::types::BundleRequest> = Vec::new();
            proof {
                assert(empty@.map_values(|b: crate::types::BundleRequest| b@) =~= Seq::<
                    BundleRequestV,
                >::empty());
            }
            Some((empty, k))
        },
        None => match parse_bundle(s, j) {
            Some((t, k)) => {
                if j < k {
                    let mut acc: Vec<crate::types::BundleRequest> = Vec::new();
                    acc.push(t);
                    proof {
                        assert(acc@.map_values(|b: crate::types::BundleRequest| b@) =~= seq![t@]);
                    }
                    parse_bundles_rest(s, k, acc)
                } else {
                    None
                }
            },
            None => None,
        },
    }
}

/// The value a byte string decodes to as one bundle request: the bundle,
/// provided only trailing whitespace follows it.
pub open spec fn spec_decode_bundle(s: Seq<u8>) -> Option<BundleRequestV> {
    match spec_parse_bundle(s, 0) {
        Some((b, p)) => if spec_skip_ws(s, p) == s.len() {
            Some(b)
        } else {
            None
        },
        None => None,
    }
}

/// Deserializes one bundle request from its wire bytes.
pub fn decode_bundle(s: &Vec<u8>) -> (r: Option<crate::types::BundleRequest>)
    ensures
        spec_decode_bundle(s@) == (match r {
            Some(b) => Some(b@),
            None => None::<BundleRequestV>,
        }),
{
    match parse_bundle(s, 0) {
        Some((b, p)) => {
            let q = skip_ws(s, p);
            if q == s.len() {
                Some(b)
            } else {
                None
            }
        },
        None => None,
    }
}

/// The value a byte string decodes to as a bundle list.
pub open spec fn spec_decode_bundles(s: Seq<u8>) -> Option<Seq<BundleRequestV>> {
    match spec_parse_bundles(s, 0) {
        Some((bs, p)) => if spec_skip_ws(s, p) == s.len() {
            Some(bs)
        } else {
            None
        },
        None => None,
    }
}

/// Deserializes a bundle list from its wire bytes.
pub fn decode_bundles(s: &Vec<u8>) -> (r: Option<Vec<crate::types::BundleRequest>>)
    ensures
        spec_decode_bundles(s@) == (match r {
            Some(bs) => Some(bs@.map_values(|b: crate::types::BundleRequest| b@)),
            None => None::<Seq<BundleRequestV>>,
        }),
{
    match parse_bundles(s, 0) {
        Some((bs, p)) => {
            let q = skip_ws(s, p);
            if q == s.len() {
                Some(bs)
            } else {
                None
            }
        },
        None => None,
    }
}

/// The hint set a byte string decodes to.
pub open spec fn spec_decode_privacy_hints(s: Seq<u8>) -> Option<PrivacyHint> {
    match spec_parse_hints(s, 0) {
        Some((h, p)) => if spec_skip_ws(s, p) == s.len() {
            Some(h)
        } else {
            None
        },
        None => None,
    }
}

/// Deserializes a hint set from its wire array of tags.
pub fn decode_privacy_hints(s: &Vec<u8>) -> (r: Option<PrivacyHint>)
    ensures
        spec_decode_privacy_hints(s@) == r,
{
    match parse_hints(s, 0) {
        Some((h, p)) => {
            let q = skip_ws(s, p);
            if q == s.len() {
                Some(h)
            } else {
                None
            }
        },
        None => None,
    }
}

/// Round trip of a single bundle through the byte decoder: decoding the
/// encoder's output gives the bundle back, field for field.
pub proof fn lemma_decode_encode_bundle(b: BundleRequestV)
    requires
        bundle_wf(b),
    ensures
        spec_decode_bundle(spec_enc_bundle(b)) == Some(b),
{
    lemma_bundle_round_trip(b);
    lemma_skip_ws_noop(spec_enc_bundle(b), spec_enc_bundle(b).len() as int);
}

/// Round trip of a bundle list: decoding the encoder's output gives the
/// same bundles, in the same order.
pub proof fn lemma_decode_encode_bundles(bs: Seq<BundleRequestV>)
    requires
        forall|k: int| 0 <= k < bs.len() ==> bundle_wf(#[trigger] bs[k]),
    ensures
        spec_decode_bundles(spec_enc_bundles(bs)) == Some(bs),
{
    lemma_subrange_all(spec_enc_bundles(bs));
    lemma_parse_bundles(spec_enc_bundles(bs), 0, bs);
    lemma_skip_ws_noop(spec_enc_bundles(bs), spec_enc_bundles(bs).len() as int);
}

/// Round trip of the privacy hints: the tag array an encoder writes, in its
/// fixed order, decodes back to the same hint set.
pub proof fn lemma_privacy_hints_round_trip(h: PrivacyHint)
    ensures
        spec_decode_privacy_hints(spec_enc_hints(h)) == Some(h),
{
    lemma_subrange_all(spec_enc_hints(h));
    lemma_parse_hints(spec_enc_hints(h), 0, h);
    lemma_skip_ws_noop(spec_enc_hints(h), spec_enc_hints(h).len() as int);
}


// ---------------------------------------------------------------------------
// The bundle-submission call
// ---------------------------------------------------------------------------

/// Encoded submission request: one remote call carrying one bundle as its
/// single positional parameter.
pub open spec fn spec_enc_rpc_request(id: u64, b: BundleRequestV) -> Seq<u8> {
    seq![LBRACE] + key("jsonrpc") + seq![COLON] + seq![QUOTE] + lit("2.0") + seq![QUOTE]
        + seq![COMMA] + key("id") + seq![COLON] + spec_enc_dec(id) + seq![COMMA] + key("method")
        + seq![COLON] + seq![QUOTE] + lit("mev_sendBundle") + seq![QUOTE] + seq![COMMA] + key(
        "params",
    ) + seq![COLON] + seq![LBRACK] + spec_enc_bundle(b) + seq![RBRACK] + seq![RBRACE]
}

/// Serializes the submission request for one bundle.
pub fn encode_send_bundle_request(bundle: &crate::types::BundleRequest, id: u64) -> (r: Vec<u8>)
    ensures
        r@ == spec_enc_rpc_request(id, bundle@),
{
    let mut out: Vec<u8> = Vec::new();
    out.push(LBRACE);
    push_key_colon(&mut out, "jsonrpc");
    out.push(QUOTE);
    push_lit(&mut out, "2.0");
    out.push(QUOTE);
    out.push(COMMA);
    push_key_colon(&mut out, "id");
    push_dec_u64(&mut out, id);
    out.push(COMMA);
    push_key_colon(&mut out, "method");
    out.push(QUOTE);
    push_lit(&mut out, "mev_sendBundle");
    out.push(QUOTE);
    out.push(COMMA);
    push_key_colon(&mut out, "params");
    out.push(LBRACK);
    let eb = encode_bundle(bundle);
    push_all(&mut out, &eb);
    out.push(RBRACK);
    out.push(RBRACE);
    assert(out@ =~= spec_enc_rpc_request(id, bundle@));
    out
}

/// Parses a relay's answer to a submission: the canonical success form,
/// carrying the bundle hash.
pub open spec fn spec_parse_rpc_response(s: Seq<u8>, i: int) -> Option<((u64, Seq<u8>), int)> {
    match spec_tok(s, i, LBRACE) {
        Some(j) => match spec_key_colon(s, j, lit("jsonrpc")) {
            Some(k) => match spec_expect(
                s,
                spec_skip_ws(s, k),
                seq![QUOTE] + lit("2.0") + seq![QUOTE],
            ) {
                Some(m) => match spec_tok(s, m, COMMA) {
                    Some(p) => match spec_key_colon(s, p, lit("id")) {
                        Some(q) => match spec_parse_dec(s, q) {
                            Some((id, r)) => match spec_tok(s, r, COMMA) {
                                Some(t) => match spec_key_colon(s, t, lit("result")) {
                                    Some(u) => match spec_tok(s, u, LBRACE) {
                                        Some(v) => match spec_key_colon(
                                            s,
                                            v,
                                            lit("bundleHash"),
                                        ) {
                                            Some(w) => match spec_parse_hex_data(s, w) {
                                                Some((h, x)) => if h.len() == 32 {
                                                    match spec_tok(s, x, RBRACE) {
                                                        Some(y) => match spec_tok(
                                                            s,
                                                            y,
                                                            RBRACE,
                                                        ) {
                                                            Some(z) => Some(((id, h), z)),
                                                            None => None,
                                                        },
                                                        None => None,
                                                    }
                                                } else {
                                                    None
                                                },
                                                None => None,
                                            },
                                            None => None,
                                        },
                                        None => None,
                                    },
                                    None => None,
                                },
                                None => None,
                            },
                            None => None,
                        },
                        None => None,
                    },
                    None => None,
                },
                None => None,
            },
            None => None,
        },
        None => None,
    }
}

/// The value a byte string decodes to as a submission answer.
pub open spec fn spec_decode_rpc_response(s: Seq<u8>) -> Option<(u64, Seq<u8>)> {
    match spec_parse_rpc_response(s, 0) {
        Some((v, p)) => if spec_skip_ws(s, p) == s.len() {
            Some(v)
        } else {
            None
        },
        None => None,
    }
}

/// Deserializes a relay's answer: the request id it echoes and the bundle
/// hash it reports.
pub fn decode_send_bundle_response(s: &Vec<u8>) -> (r: Option<(u64, crate::primitives::TxHash)>)
    ensures
        spec_decode_rpc_response(s@) == (match r {
            Some((id, h)) => Some((id, h@)),
            None => None::<(u64, Seq<u8>)>,
        }),
{
    let j = match tok(s, 0, LBRACE) {
        Some(j) => j,
        None => {
            return None;
        },
    };
    let k = match key_colon(s, j, "jsonrpc") {
        Some(k) => k,
        None => {
            return None;
        },
    };
    let m = {
        let kw = skip_ws(s, k);
        match quoted_at(s, kw, "2.0") {
            Some(m) => m,
            None => {
                return None;
            },
        }
    };
    match tok(s, m, COMMA) {
        Some(p) => match key_colon(s, p, "id") {
            Some(q) => match parse_dec(s, q) {
                Some((id, r2)) => match tok(s, r2, COMMA) {
                    Some(t) => match key_colon(s, t, "result") {
                        Some(u) => match tok(s, u, LBRACE) {
                            Some(v) => match key_colon(s, v, "bundleHash") {
                                Some(w) => match parse_hex_data(s, w) {
                                    Some((h, x)) => {
                                        if h.len() == 32 {
                                            match tok(s, x, RBRACE) {
                                                Some(y) => match tok(s, y, RBRACE) {
                                                    Some(z) => {
                                                        let q2 = skip_ws(s, z);
                                                        if q2 == s.len() {
                                                            Some(
                                                                (
                                                                    id,
                                                                    crate::primitives::TxHash::from_bytes(
                                                                        h,
                                                                    ),
                                                                ),
                                                            )
                                                        } else {
                                                            None
                                                        }
                                                    },
                                                    None => None,
                                                },
                                                None => None,
                                            }
                                        } else {
                                            None
                                        }
                                    },
                                    None => None,
                                },
                                None => None,
                            },
                            None => None,
                        },
                        None => None,
                    },
                    None => None,
                },
                None => None,
            },
            None => None,
        },
        None => None,
    }
}

} // verus!
