//! Positional numeral strings: the value of a digit sequence in a given base,
//! and the shortest digit string of a value. Base-58 text and the byte strings
//! it decodes to are both numerals in this sense, so the conversion facts live
//! here once, for any base.

use vstd::prelude::*;

verus! {

use vstd::arithmetic::div_mod::lemma_div_decreases;
use vstd::arithmetic::div_mod::lemma_div_pos_is_pos;
use vstd::arithmetic::div_mod::lemma_fundamental_div_mod;
use vstd::arithmetic::div_mod::lemma_fundamental_div_mod_converse_div;
use vstd::arithmetic::div_mod::lemma_fundamental_div_mod_converse_mod;
use vstd::arithmetic::mul::lemma_mul_inequality;
use vstd::arithmetic::mul::lemma_mul_is_distributive_add;
use vstd::arithmetic::mul::lemma_mul_is_associative;
use vstd::arithmetic::mul::lemma_mul_nonnegative;
use vstd::arithmetic::power::lemma_pow_positive;
use vstd::arithmetic::power::pow;

/// Every digit of `ds` lies below `base`.
pub open spec fn digits_in_range(base: int, ds: Seq<u8>) -> bool {
    forall|i: int| 0 <= i < ds.len() ==> (#[trigger] ds[i]) < base
}

/// Value of a big-endian digit string: the first digit is the most significant.
pub open spec fn be_val(base: int, ds: Seq<u8>) -> int
    decreases ds.len(),
{
    if ds.len() == 0 {
        0
    } else {
        be_val(base, ds.drop_last()) * base + ds.last()
    }
}

/// Value of a little-endian digit string: the first digit is the least significant.
pub open spec fn le_val(base: int, ds: Seq<u8>) -> int
    decreases ds.len(),
{
    if ds.len() == 0 {
        0
    } else {
        ds.first() + base * le_val(base, ds.drop_first())
    }
}

/// The shortest big-endian digit string of `v`: empty for zero, and with a
/// nonzero leading digit otherwise.
pub open spec fn min_digits(base: int, v: int) -> Seq<u8>
    decreases v via min_digits_decreases
{
    if base < 2 || v <= 0 {
        Seq::empty()
    } else {
        min_digits(base, v / base).push((v % base) as u8)
    }
}

#[via_fn]
proof fn min_digits_decreases(base: int, v: int) {
    if !(base < 2 || v <= 0) {
        lemma_div_pos_is_pos(v, base);
        lemma_div_decreases(v, base);
    }
}

/// A string of `n` zero digits.
pub open spec fn zero_bytes(n: int) -> Seq<u8> {
    Seq::new(n as nat, |i: int| 0u8)
}

/// A little-endian digit string is canonical when it carries no useless
/// high-order zero, that is, when it is empty or its last digit is nonzero.
pub open spec fn canonical_le(base: int, ds: Seq<u8>) -> bool {
    digits_in_range(base, ds) && (ds.len() == 0 || ds.last() != 0)
}

pub proof fn lemma_be_val_nonneg(base: int, ds: Seq<u8>)
    requires
        base >= 0,
    ensures
        be_val(base, ds) >= 0,
    decreases ds.len(),
{
    if ds.len() > 0 {
        lemma_be_val_nonneg(base, ds.drop_last());
        lemma_mul_nonnegative(be_val(base, ds.drop_last()), base);
    }
}

pub proof fn lemma_le_val_nonneg(base: int, ds: Seq<u8>)
    requires
        base >= 0,
    ensures
        le_val(base, ds) >= 0,
    decreases ds.len(),
{
    if ds.len() > 0 {
        lemma_le_val_nonneg(base, ds.drop_first());
        lemma_mul_nonnegative(base, le_val(base, ds.drop_first()));
    }
}

/// Extending a big-endian prefix by one digit multiplies its value by the base.
pub proof fn lemma_be_val_take_succ(base: int, ds: Seq<u8>, j: int)
    requires
        0 <= j < ds.len(),
    ensures
        be_val(base, ds.take(j + 1)) == be_val(base, ds.take(j)) * base + ds[j],
{
    assert(ds.take(j + 1).drop_last() =~= ds.take(j));
    assert(ds.take(j + 1).last() == ds[j]);
}

/// Appending a high-order digit to a little-endian string adds its weighted value.
pub proof fn lemma_le_val_push(base: int, ds: Seq<u8>, x: u8)
    ensures
        le_val(base, ds.push(x)) == le_val(base, ds) + pow(base, ds.len()) * x,
    decreases ds.len(),
{
    reveal(pow);
    if ds.len() == 0 {
        assert(ds.push(x).drop_first() =~= Seq::<u8>::empty());
        assert(le_val(base, Seq::<u8>::empty()) == 0);
        assert(ds.push(x).first() == x);
        assert(le_val(base, ds.push(x)) == x + base * 0);
    } else {
        assert(ds.push(x).first() == ds.first());
        assert(ds.push(x).drop_first() =~= ds.drop_first().push(x));
        lemma_le_val_push(base, ds.drop_first(), x);
        let w = le_val(base, ds.drop_first());
        let p = pow(base, (ds.len() - 1) as nat);
        assert(pow(base, ds.len() as nat) == base * p);
        lemma_mul_is_distributive_add(base, w, p * (x as int));
        lemma_mul_is_associative(base, p, x as int);
    }
}

pub proof fn lemma_le_val_take_succ(base: int, ds: Seq<u8>, j: int)
    requires
        0 <= j < ds.len(),
    ensures
        le_val(base, ds.take(j + 1)) == le_val(base, ds.take(j)) + pow(base, j as nat) * ds[j],
{
    assert(ds.take(j + 1) =~= ds.take(j).push(ds[j]));
    lemma_le_val_push(base, ds.take(j), ds[j]);
}

pub proof fn lemma_le_val_skip_succ(base: int, ds: Seq<u8>, j: int)
    requires
        0 <= j < ds.len(),
    ensures
        le_val(base, ds.skip(j)) == ds[j] + base * le_val(base, ds.skip(j + 1)),
{
    assert(ds.skip(j).first() == ds[j]);
    assert(ds.skip(j).drop_first() =~= ds.skip(j + 1));
}

/// A little-endian string of `n` digits is worth less than `base^n`.
pub proof fn lemma_le_val_upper(base: int, ds: Seq<u8>)
    requires
        base >= 2,
        digits_in_range(base, ds),
    ensures
        le_val(base, ds) < pow(base, ds.len() as nat),
    decreases ds.len(),
{
    reveal(pow);
    if ds.len() == 0 {
    } else {
        let rest = ds.drop_first();
        assert(digits_in_range(base, rest)) by {
            assert(forall|i: int| 0 <= i < rest.len() ==> rest[i] == ds[i + 1]);
        }
        lemma_le_val_upper(base, rest);
        lemma_le_val_nonneg(base, rest);
        let w = le_val(base, rest);
        let p = pow(base, (ds.len() - 1) as nat);
        assert(pow(base, ds.len() as nat) == base * p);
        lemma_mul_inequality(w, p - 1, base);
        assert(w * base == base * w) by {
            vstd::arithmetic::mul::lemma_mul_is_commutative(w, base);
        }
        assert((p - 1) * base == base * p - base) by (nonlinear_arith);
        assert(le_val(base, ds) == ds.first() + base * w);
        assert(base * w <= base * p - base);
        assert(ds.first() < base);
    }
}

/// The value of a little-endian string, split at its high-order digit.
pub proof fn lemma_le_val_last(base: int, ds: Seq<u8>)
    requires
        ds.len() > 0,
    ensures
        le_val(base, ds) == le_val(base, ds.drop_last()) + pow(
            base,
            (ds.len() - 1) as nat,
        ) * ds.last(),
{
    assert(ds =~= ds.drop_last().push(ds.last()));
    lemma_le_val_push(base, ds.drop_last(), ds.last());
}

/// A canonical nonempty little-endian string reaches the weight of its last digit.
pub proof fn lemma_canonical_le_lower(base: int, ds: Seq<u8>)
    requires
        base >= 2,
        canonical_le(base, ds),
        ds.len() > 0,
    ensures
        le_val(base, ds) >= pow(base, (ds.len() - 1) as nat),
{
    lemma_le_val_last(base, ds);
    assert(digits_in_range(base, ds.drop_last())) by {
        assert(forall|i: int| 0 <= i < ds.len() - 1 ==> ds.drop_last()[i] == ds[i]);
    }
    lemma_le_val_nonneg(base, ds.drop_last());
    let p = pow(base, (ds.len() - 1) as nat);
    lemma_pow_positive(base, (ds.len() - 1) as nat);
    lemma_mul_inequality(1, ds.last() as int, p);
    assert(p * 1 == p);
    assert(p * ds.last() >= p * 1) by {
        lemma_mul_inequality(1, ds.last() as int, p);
        vstd::arithmetic::mul::lemma_mul_is_commutative(p, ds.last() as int);
        vstd::arithmetic::mul::lemma_mul_is_commutative(p, 1);
    }
}

/// A value large enough for its length forces the last digit to be nonzero.
pub proof fn lemma_le_val_lower_canonical(base: int, ds: Seq<u8>)
    requires
        base >= 2,
        digits_in_range(base, ds),
        ds.len() == 0 || le_val(base, ds) >= pow(base, (ds.len() - 1) as nat),
    ensures
        canonical_le(base, ds),
{
    if ds.len() > 0 && ds.last() == 0 {
        lemma_le_val_last(base, ds);
        assert(pow(base, (ds.len() - 1) as nat) * (ds.last() as int) == 0) by {
            vstd::arithmetic::mul::lemma_mul_basics(pow(base, (ds.len() - 1) as nat));
        }
        assert(digits_in_range(base, ds.drop_last())) by {
            assert(forall|i: int| 0 <= i < ds.len() - 1 ==> ds.drop_last()[i] == ds[i]);
        }
        lemma_le_val_upper(base, ds.drop_last());
        assert(false);
    }
}

/// The shortest digit string of `v` has the stated digits, value and shape.
pub proof fn lemma_min_digits_props(base: int, v: int)
    requires
        2 <= base <= 256,
        v >= 0,
    ensures
        digits_in_range(base, min_digits(base, v)),
        be_val(base, min_digits(base, v)) == v,
        v > 0 ==> min_digits(base, v).len() > 0 && min_digits(base, v).first() != 0,
        v == 0 ==> min_digits(base, v).len() == 0,
    decreases v,
{
    if v > 0 {
        let q = v / base;
        let r = v % base;
        lemma_fundamental_div_mod(v, base);
        lemma_div_pos_is_pos(v, base);
        lemma_div_decreases(v, base);
        lemma_min_digits_props(base, q);
        let m = min_digits(base, q);
        assert(min_digits(base, v) == m.push((r as u8)));
        assert(m.push((r as u8)).drop_last() =~= m);
        assert(be_val(base, m.push((r as u8))) == q * base + r);
        if q == 0 {
            assert(m.push((r as u8)).first() == r as u8);
            assert(r == v);
        } else {
            assert(m.push((r as u8)).first() == m.first());
        }
        assert(digits_in_range(base, m.push((r as u8)))) by {
            assert(forall|i: int| 0 <= i < m.len() ==> m.push((r as u8))[i] == m[i]);
        }
    }
}

/// The shortest digit string of the value of a canonical little-endian string
/// is that string read in big-endian order.
pub proof fn lemma_min_digits_of_canonical(base: int, ds: Seq<u8>)
    requires
        2 <= base <= 256,
        canonical_le(base, ds),
    ensures
        min_digits(base, le_val(base, ds)) == ds.reverse(),
    decreases ds.len(),
{
    if ds.len() == 0 {
        assert(min_digits(base, 0) =~= ds.reverse());
    } else {
        let d0 = ds.first();
        let rest = ds.drop_first();
        let w = le_val(base, rest);
        let v = le_val(base, ds);
        assert(digits_in_range(base, rest)) by {
            assert(forall|i: int| 0 <= i < rest.len() ==> rest[i] == ds[i + 1]);
        }
        lemma_le_val_nonneg(base, rest);
        assert(v == w * base + d0) by {
            vstd::arithmetic::mul::lemma_mul_is_commutative(base, w);
        }
        lemma_fundamental_div_mod_converse_div(v, base, w, d0 as int);
        lemma_fundamental_div_mod_converse_mod(v, base, w, d0 as int);
        lemma_canonical_le_lower(base, ds);
        lemma_pow_positive(base, (ds.len() - 1) as nat);
        assert(v > 0);
        assert(min_digits(base, v) == min_digits(base, w).push(d0));
        if ds.len() == 1 {
            assert(rest =~= Seq::<u8>::empty());
            assert(min_digits(base, v) =~= ds.reverse());
        } else {
            assert(rest.last() == ds.last());
            lemma_min_digits_of_canonical(base, rest);
            assert(min_digits(base, v) == rest.reverse().push(d0));
            assert(rest.reverse().push(d0) =~= ds.reverse());
        }
    }
}

/// Splitting a big-endian string: the prefix is weighted by the length of the suffix.
pub proof fn lemma_be_val_concat(base: int, p: Seq<u8>, t: Seq<u8>)
    ensures
        be_val(base, p + t) == be_val(base, p) * pow(base, t.len() as nat) + be_val(base, t),
    decreases t.len(),
{
    reveal(pow);
    if t.len() == 0 {
        assert(p + t =~= p);
        assert(be_val(base, p) * pow(base, 0) == be_val(base, p)) by {
            vstd::arithmetic::mul::lemma_mul_basics(be_val(base, p));
        }
    } else {
        assert((p + t).drop_last() =~= p + t.drop_last());
        assert((p + t).last() == t.last());
        lemma_be_val_concat(base, p, t.drop_last());
        let a = be_val(base, p);
        let pw = pow(base, (t.len() - 1) as nat);
        assert(pow(base, t.len() as nat) == base * pw);
        assert((a * pw + be_val(base, t.drop_last())) * base == a * pw * base + be_val(
            base,
            t.drop_last(),
        ) * base) by {
            vstd::arithmetic::mul::lemma_mul_is_distributive_add_other_way(
                base,
                a * pw,
                be_val(base, t.drop_last()),
            );
        }
        assert(a * pw * base == a * (base * pw)) by {
            lemma_mul_is_associative(a, pw, base);
            vstd::arithmetic::mul::lemma_mul_is_commutative(pw, base);
        }
    }
}

/// Reading a digit string in the other order preserves its value.
pub proof fn lemma_le_val_reverse(base: int, ds: Seq<u8>)
    ensures
        le_val(base, ds.reverse()) == be_val(base, ds),
    decreases ds.len(),
{
    if ds.len() == 0 {
        assert(ds.reverse() =~= Seq::<u8>::empty());
    } else {
        assert(ds.reverse().first() == ds.last());
        assert(ds.reverse().drop_first() =~= ds.drop_last().reverse());
        lemma_le_val_reverse(base, ds.drop_last());
        vstd::arithmetic::mul::lemma_mul_is_commutative(base, be_val(base, ds.drop_last()));
    }
}

/// A big-endian prefix of a digit string is worth at most the whole string.
pub proof fn lemma_be_val_prefix_le(base: int, ds: Seq<u8>, k: int)
    requires
        base >= 1,
        0 <= k <= ds.len(),
    ensures
        be_val(base, ds.take(k)) <= be_val(base, ds),
{
    assert(ds =~= ds.take(k) + ds.skip(k));
    lemma_be_val_concat(base, ds.take(k), ds.skip(k));
    lemma_be_val_nonneg(base, ds.skip(k));
    lemma_be_val_nonneg(base, ds.take(k));
    lemma_pow_positive(base, (ds.len() - k) as nat);
    let a = be_val(base, ds.take(k));
    let p = pow(base, (ds.len() - k) as nat);
    assert(a * p >= a) by (nonlinear_arith)
        requires
            a >= 0,
            p >= 1,
    ;
}

/// A string of zero digits is worth nothing.
pub proof fn lemma_be_val_zeros(base: int, ds: Seq<u8>)
    requires
        forall|i: int| 0 <= i < ds.len() ==> ds[i] == 0,
    ensures
        be_val(base, ds) == 0,
    decreases ds.len(),
{
    if ds.len() > 0 {
        assert(forall|i: int| 0 <= i < ds.len() - 1 ==> ds.drop_last()[i] == ds[i]);
        lemma_be_val_zeros(base, ds.drop_last());
    }
}

} // verus!
