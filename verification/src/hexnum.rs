//! Hex and decimal digits on the wire.
//!
//! Quantities travel as minimal lowercase hex (`0x1`), byte strings as pairs
//! of hex digits, refund percentages as decimal numbers. This module defines
//! the digit alphabets, the scanners that read them back, and the lemmas
//! showing that scanning inverts printing.

use vstd::prelude::*;

verus! {

/// The double-quote byte, which terminates every scanned value.
pub const QUOTE: u8 = 34;

/// Whether a byte is insignificant whitespace between wire tokens.
pub open spec fn is_ws(b: u8) -> bool {
    b == 32 || b == 9 || b == 10 || b == 13
}

/// The lowercase hex digit for a value below 16.
pub open spec fn hex_digit(v: int) -> u8 {
    if v < 10 {
        (48 + v) as u8
    } else {
        (87 + v) as u8
    }
}

/// Whether a byte is a lowercase hex digit.
pub open spec fn is_hex(b: u8) -> bool {
    (48 <= b <= 57) || (97 <= b <= 102)
}

/// The value of a lowercase hex digit byte.
pub open spec fn hex_val(b: u8) -> int {
    if 48 <= b <= 57 {
        b - 48
    } else {
        b - 87
    }
}

/// Whether a byte is a decimal digit.
pub open spec fn is_dec(b: u8) -> bool {
    48 <= b <= 57
}

/// Printing a hex digit and reading it back is the identity, and the digit
/// is neither whitespace nor a quote.
pub proof fn lemma_hex_digit(v: int)
    requires
        0 <= v < 16,
    ensures
        is_hex(hex_digit(v)),
        hex_val(hex_digit(v)) == v,
        !is_ws(hex_digit(v)),
        hex_digit(v) != QUOTE,
        !is_dec(hex_digit(v)) ==> v >= 10,
{
}

/// Minimal lowercase hex digits of `n`, most significant first.
pub open spec fn spec_hex_u64(n: nat) -> Seq<u8>
    decreases n,
{
    if n < 16 {
        seq![hex_digit(n as int)]
    } else {
        spec_hex_u64(n / 16).push(hex_digit((n % 16) as int))
    }
}

/// Decimal digits of `n`, most significant first.
pub open spec fn spec_dec_u64(n: nat) -> Seq<u8>
    decreases n,
{
    if n < 10 {
        seq![(48 + n) as u8]
    } else {
        spec_dec_u64(n / 10).push((48 + (n % 10)) as u8)
    }
}

/// Hex digits of a byte string: two lowercase digits per byte.
pub open spec fn spec_hex_bytes(bs: Seq<u8>) -> Seq<u8>
    decreases bs.len(),
{
    if bs.len() == 0 {
        Seq::empty()
    } else {
        seq![
            hex_digit(bs[0] as int / 16),
            hex_digit(bs[0] as int % 16),
        ] + spec_hex_bytes(bs.drop_first())
    }
}

/// Appending one byte appends its two digits.
pub proof fn lemma_hex_bytes_push(bs: Seq<u8>, b: u8)
    ensures
        spec_hex_bytes(bs.push(b)) == spec_hex_bytes(bs) + seq![
            hex_digit(b as int / 16),
            hex_digit(b as int % 16),
        ],
    decreases bs.len(),
{
    if bs.len() == 0 {
        assert(bs.push(b).drop_first() =~= Seq::<u8>::empty());
        assert(spec_hex_bytes(Seq::<u8>::empty()) == Seq::<u8>::empty());
        assert(spec_hex_bytes(bs.push(b)) =~= spec_hex_bytes(bs) + seq![
            hex_digit(b as int / 16),
            hex_digit(b as int % 16),
        ]);
    } else {
        assert(bs.push(b).drop_first() =~= bs.drop_first().push(b));
        lemma_hex_bytes_push(bs.drop_first(), b);
        assert(spec_hex_bytes(bs.push(b)) =~= spec_hex_bytes(bs) + seq![
            hex_digit(b as int / 16),
            hex_digit(b as int % 16),
        ]);
    }
}

/// Every byte of a hex byte string is a hex digit.
pub proof fn lemma_hex_bytes_all_hex(bs: Seq<u8>)
    ensures
        spec_hex_bytes(bs).len() == 2 * bs.len(),
        forall|i: int|
            0 <= i < spec_hex_bytes(bs).len() ==> #[trigger] is_hex(spec_hex_bytes(bs)[i]),
    decreases bs.len(),
{
    if bs.len() > 0 {
        lemma_hex_digit(bs[0] as int / 16);
        lemma_hex_digit(bs[0] as int % 16);
        lemma_hex_bytes_all_hex(bs.drop_first());
    }
}

/// The value accumulated by a left-to-right hex scan over digit bytes.
pub open spec fn hex_value(acc: nat, ds: Seq<u8>) -> nat
    decreases ds.len(),
{
    if ds.len() == 0 {
        acc
    } else {
        hex_value(acc * 16 + hex_val(ds[0]) as nat, ds.drop_first())
    }
}

/// The value accumulated by a left-to-right decimal scan over digit bytes.
pub open spec fn dec_value(acc: nat, ds: Seq<u8>) -> nat
    decreases ds.len(),
{
    if ds.len() == 0 {
        acc
    } else {
        dec_value(acc * 10 + (ds[0] - 48) as nat, ds.drop_first())
    }
}

/// A scan never decreases its accumulator.
pub proof fn lemma_hex_value_monotone(acc: nat, ds: Seq<u8>)
    requires
        forall|i: int| 0 <= i < ds.len() ==> #[trigger] is_hex(ds[i]),
    ensures
        hex_value(acc, ds) >= acc,
    decreases ds.len(),
{
    if ds.len() > 0 {
        assert(is_hex(ds[0]));
        lemma_hex_value_monotone(acc * 16 + hex_val(ds[0]) as nat, ds.drop_first());
    }
}

/// A decimal scan never decreases its accumulator.
pub proof fn lemma_dec_value_monotone(acc: nat, ds: Seq<u8>)
    requires
        forall|i: int| 0 <= i < ds.len() ==> #[trigger] is_dec(ds[i]),
    ensures
        dec_value(acc, ds) >= acc,
    decreases ds.len(),
{
    if ds.len() > 0 {
        lemma_dec_value_monotone(acc * 10 + (ds[0] - 48) as nat, ds.drop_first());
    }
}

/// Scanning digits appended with one more digit multiplies and adds.
pub proof fn lemma_hex_value_push(acc: nat, ds: Seq<u8>, d: u8)
    ensures
        hex_value(acc, ds.push(d)) == hex_value(acc, ds) * 16 + hex_val(d) as nat,
    decreases ds.len(),
{
    if ds.len() == 0 {
        assert(ds.push(d).drop_first() =~= Seq::<u8>::empty());
        assert(ds.push(d)[0] == d);
        assert(hex_value(acc * 16 + hex_val(d) as nat, Seq::<u8>::empty()) == acc * 16 + hex_val(
            d,
        ) as nat);
        assert(hex_value(acc, Seq::<u8>::empty()) == acc);
    } else {
        assert(ds.push(d).drop_first() =~= ds.drop_first().push(d));
        assert(ds.push(d)[0] == ds[0]);
        lemma_hex_value_push(acc * 16 + hex_val(ds[0]) as nat, ds.drop_first(), d);
    }
}

/// Scanning digits appended with one more decimal digit multiplies and adds.
pub proof fn lemma_dec_value_push(acc: nat, ds: Seq<u8>, d: u8)
    ensures
        dec_value(acc, ds.push(d)) == dec_value(acc, ds) * 10 + (d - 48) as nat,
    decreases ds.len(),
{
    if ds.len() == 0 {
        assert(ds.push(d).drop_first() =~= Seq::<u8>::empty());
        assert(ds.push(d)[0] == d);
        assert(dec_value(acc * 10 + (d - 48) as nat, Seq::<u8>::empty()) == acc * 10 + (d
            - 48) as nat);
        assert(dec_value(acc, Seq::<u8>::empty()) == acc);
    } else {
        assert(ds.push(d).drop_first() =~= ds.drop_first().push(d));
        assert(ds.push(d)[0] == ds[0]);
        lemma_dec_value_push(acc * 10 + (ds[0] - 48) as nat, ds.drop_first(), d);
    }
}

/// The printed hex digits of `n` scan back to `n`, contain at least one
/// digit, and contain only hex digits.
pub proof fn lemma_hex_u64_value(n: nat)
    ensures
        hex_value(0, spec_hex_u64(n)) == n,
        spec_hex_u64(n).len() >= 1,
        forall|i: int|
            0 <= i < spec_hex_u64(n).len() ==> #[trigger] is_hex(spec_hex_u64(n)[i]),
    decreases n,
{
    if n < 16 {
        lemma_hex_digit(n as int);
        let ds = seq![hex_digit(n as int)];
        assert(ds.drop_first() =~= Seq::<u8>::empty());
        assert(hex_value(0, ds) == hex_value(0 * 16 + hex_val(ds[0]) as nat, ds.drop_first()));
        assert(hex_value(n, Seq::<u8>::empty()) == n);
    } else {
        lemma_hex_u64_value(n / 16);
        lemma_hex_digit((n % 16) as int);
        lemma_hex_value_push(0, spec_hex_u64(n / 16), hex_digit((n % 16) as int));
        assert(forall|i: int|
            0 <= i < spec_hex_u64(n).len() ==> #[trigger] is_hex(spec_hex_u64(n)[i])) by {
            assert(forall|i: int|
                0 <= i < spec_hex_u64(n / 16).len() ==> spec_hex_u64(n)[i] == spec_hex_u64(
                    n / 16,
                )[i]);
        }
    }
}

/// The printed decimal digits of `n` scan back to `n`.
pub proof fn lemma_dec_u64_value(n: nat)
    ensures
        dec_value(0, spec_dec_u64(n)) == n,
        spec_dec_u64(n).len() >= 1,
        forall|i: int|
            0 <= i < spec_dec_u64(n).len() ==> #[trigger] is_dec(spec_dec_u64(n)[i]),
    decreases n,
{
    if n < 10 {
        let ds = seq![(48 + n) as u8];
        assert(ds.drop_first() =~= Seq::<u8>::empty());
        assert(dec_value(0, ds) == dec_value(0 * 10 + (ds[0] - 48) as nat, ds.drop_first()));
        assert(dec_value(n, Seq::<u8>::empty()) == n);
    } else {
        lemma_dec_u64_value(n / 10);
        lemma_dec_value_push(0, spec_dec_u64(n / 10), (48 + (n % 10)) as u8);
        assert(forall|i: int|
            0 <= i < spec_dec_u64(n).len() ==> #[trigger] is_dec(spec_dec_u64(n)[i])) by {
            assert(forall|i: int|
                0 <= i < spec_dec_u64(n / 10).len() ==> spec_dec_u64(n)[i] == spec_dec_u64(
                    n / 10,
                )[i]);
        }
    }
}

/// Skips whitespace from `i`, returning the first significant position.
pub open spec fn spec_skip_ws(s: Seq<u8>, i: int) -> int
    decreases s.len() - i,
{
    if 0 <= i < s.len() && is_ws(s[i]) {
        spec_skip_ws(s, i + 1)
    } else {
        i
    }
}

/// Skipping whitespace stays within bounds.
pub proof fn lemma_skip_ws_bounds(s: Seq<u8>, i: int)
    requires
        0 <= i <= s.len(),
    ensures
        i <= spec_skip_ws(s, i) <= s.len(),
    decreases s.len() - i,
{
    if i < s.len() && is_ws(s[i]) {
        lemma_skip_ws_bounds(s, i + 1);
    }
}

/// Scans lowercase hex digits from `i`, accumulating into a `u64`; fails on
/// overflow, stops at the first non-digit.
pub open spec fn spec_scan_hex(s: Seq<u8>, i: int, acc: u64) -> Option<(u64, int)>
    decreases s.len() - i,
{
    if 0 <= i < s.len() && is_hex(s[i]) {
        if acc as nat * 16 + hex_val(s[i]) as nat <= u64::MAX as nat {
            spec_scan_hex(s, i + 1, (acc * 16 + hex_val(s[i])) as u64)
        } else {
            None
        }
    } else {
        Some((acc, i))
    }
}

/// Scans decimal digits from `i`, accumulating into a `u64`.
pub open spec fn spec_scan_dec(s: Seq<u8>, i: int, acc: u64) -> Option<(u64, int)>
    decreases s.len() - i,
{
    if 0 <= i < s.len() && is_dec(s[i]) {
        if acc as nat * 10 + (s[i] - 48) as nat <= u64::MAX as nat {
            spec_scan_dec(s, i + 1, (acc * 10 + (s[i] - 48)) as u64)
        } else {
            None
        }
    } else {
        Some((acc, i))
    }
}

/// Scans pairs of hex digits into bytes, stopping at the first non-digit;
/// fails on an odd number of digits.
pub open spec fn spec_scan_hex_bytes(s: Seq<u8>, i: int, acc: Seq<u8>) -> Option<(Seq<u8>, int)>
    decreases s.len() - i,
{
    if 0 <= i < s.len() && is_hex(s[i]) {
        if i + 1 < s.len() && is_hex(s[i + 1]) {
            spec_scan_hex_bytes(
                s,
                i + 2,
                acc.push((hex_val(s[i]) * 16 + hex_val(s[i + 1])) as u8),
            )
        } else {
            None
        }
    } else {
        Some((acc, i))
    }
}

/// A scan over a region known to hold the digits of `n`, followed by a
/// non-digit, returns exactly `n` and stops right after the digits.
pub proof fn lemma_scan_hex_digits(s: Seq<u8>, i: int, acc: u64, ds: Seq<u8>)
    requires
        0 <= i,
        i + ds.len() <= s.len(),
        s.subrange(i, i + ds.len() as int) == ds,
        forall|k: int| 0 <= k < ds.len() ==> #[trigger] is_hex(ds[k]),
        i + ds.len() == s.len() || !is_hex(s[i + ds.len()]),
        hex_value(acc as nat, ds) <= u64::MAX as nat,
    ensures
        spec_scan_hex(s, i, acc) == Some(
            (hex_value(acc as nat, ds) as u64, i + ds.len() as int),
        ),
    decreases ds.len(),
{
    if ds.len() == 0 {
        if i < s.len() {
            assert(!is_hex(s[i]));
        }
    } else {
        assert(s[i] == ds[0]);
        assert(is_hex(ds[0]));
        lemma_hex_value_monotone(acc as nat * 16 + hex_val(ds[0]) as nat, ds.drop_first());
        assert(forall|k: int|
            0 <= k < ds.drop_first().len() ==> #[trigger] is_hex(ds.drop_first()[k])) by {
            assert(forall|k: int|
                0 <= k < ds.drop_first().len() ==> ds.drop_first()[k] == ds[k + 1]);
        }
        assert(s.subrange(i + 1, i + ds.len() as int) =~= ds.drop_first());
        lemma_scan_hex_digits(s, i + 1, (acc * 16 + hex_val(ds[0])) as u64, ds.drop_first());
    }
}

/// The decimal counterpart of [`lemma_scan_hex_digits`].
pub proof fn lemma_scan_dec_digits(s: Seq<u8>, i: int, acc: u64, ds: Seq<u8>)
    requires
        0 <= i,
        i + ds.len() <= s.len(),
        s.subrange(i, i + ds.len() as int) == ds,
        forall|k: int| 0 <= k < ds.len() ==> #[trigger] is_dec(ds[k]),
        i + ds.len() == s.len() || !is_dec(s[i + ds.len()]),
        dec_value(acc as nat, ds) <= u64::MAX as nat,
    ensures
        spec_scan_dec(s, i, acc) == Some(
            (dec_value(acc as nat, ds) as u64, i + ds.len() as int),
        ),
    decreases ds.len(),
{
    if ds.len() == 0 {
        if i < s.len() {
            assert(!is_dec(s[i]));
        }
    } else {
        assert(s[i] == ds[0]);
        lemma_dec_value_monotone(acc as nat * 10 + (ds[0] - 48) as nat, ds.drop_first());
        assert(forall|k: int|
            0 <= k < ds.drop_first().len() ==> #[trigger] is_dec(ds.drop_first()[k])) by {
            assert(forall|k: int|
                0 <= k < ds.drop_first().len() ==> ds.drop_first()[k] == ds[k + 1]);
        }
        assert(s.subrange(i + 1, i + ds.len() as int) =~= ds.drop_first());
        lemma_scan_dec_digits(s, i + 1, (acc * 10 + (ds[0] - 48)) as u64, ds.drop_first());
    }
}

/// A byte scan over a region known to hold the hex digits of `bs`, followed
/// by a non-digit, returns exactly `acc ++ bs`.
pub proof fn lemma_scan_hex_bytes(s: Seq<u8>, i: int, acc: Seq<u8>, bs: Seq<u8>)
    requires
        0 <= i,
        i + spec_hex_bytes(bs).len() <= s.len(),
        s.subrange(i, i + spec_hex_bytes(bs).len() as int) == spec_hex_bytes(bs),
        i + spec_hex_bytes(bs).len() == s.len() || !is_hex(s[i + spec_hex_bytes(bs).len()]),
    ensures
        spec_scan_hex_bytes(s, i, acc) == Some(
            (acc + bs, i + spec_hex_bytes(bs).len() as int),
        ),
    decreases bs.len(),
{
    lemma_hex_bytes_all_hex(bs);
    if bs.len() == 0 {
        assert(acc + bs =~= acc);
        if i < s.len() {
            assert(!is_hex(s[i]));
        }
    } else {
        let d0 = hex_digit(bs[0] as int / 16);
        let d1 = hex_digit(bs[0] as int % 16);
        lemma_hex_digit(bs[0] as int / 16);
        lemma_hex_digit(bs[0] as int % 16);
        assert(s[i] == d0 && s[i + 1] == d1) by {
            assert(spec_hex_bytes(bs)[0] == d0 && spec_hex_bytes(bs)[1] == d1);
        }
        assert(hex_val(d0) * 16 + hex_val(d1) == bs[0]);
        assert(s.subrange(i + 2, i + spec_hex_bytes(bs).len() as int) =~= spec_hex_bytes(
            bs.drop_first(),
        )) by {
            assert(forall|k: int|
                0 <= k < spec_hex_bytes(bs.drop_first()).len() ==> spec_hex_bytes(bs)[k + 2]
                    == spec_hex_bytes(bs.drop_first())[k]);
            lemma_hex_bytes_all_hex(bs.drop_first());
        }
        lemma_scan_hex_bytes(s, i + 2, acc.push(bs[0]), bs.drop_first());
        assert(acc.push(bs[0]) + bs.drop_first() =~= acc + bs);
    }
}

} // verus!
