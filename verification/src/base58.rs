//! The base-58 text encoding of byte strings: the alphabet of 58 digit
//! characters, a leading `1` for each leading zero byte, and the remaining
//! bytes read as one big-endian number written in base 58.

use vstd::prelude::*;

verus! {

use crate::digits::be_val;
use crate::digits::canonical_le;
use crate::digits::digits_in_range;
use crate::digits::le_val;
use crate::digits::lemma_be_val_concat;
use crate::digits::lemma_be_val_nonneg;
use crate::digits::lemma_be_val_take_succ;
use crate::digits::lemma_be_val_zeros;
use crate::digits::lemma_canonical_le_lower;
use crate::digits::lemma_le_val_lower_canonical;
use crate::digits::lemma_le_val_push;
use crate::digits::lemma_le_val_reverse;
use crate::digits::lemma_le_val_skip_succ;
use crate::digits::lemma_le_val_take_succ;
use crate::digits::lemma_min_digits_of_canonical;
use crate::digits::lemma_min_digits_props;
use crate::digits::min_digits;
use crate::digits::zero_bytes;
use vstd::arithmetic::div_mod::lemma_div_decreases;
use vstd::arithmetic::div_mod::lemma_div_is_ordered;
use vstd::arithmetic::div_mod::lemma_fundamental_div_mod;
use vstd::arithmetic::power::lemma_pow_positive;
use vstd::arithmetic::power::pow;
use vstd::pervasive::VecAdditionalExecFns;
use vstd::string::StrSliceExecFns;

/// The value of a character as a base-58 digit, or -1 when the character is
/// not in the alphabet. The alphabet is the 58 ASCII digits and letters
/// without `0`, `O`, `I` and `l`.
pub open spec fn b58_digit(c: char) -> int {
    let v = c as int;
    if 49 <= v && v <= 57 {
        v - 49
    } else if 65 <= v && v <= 72 {
        v - 56
    } else if 74 <= v && v <= 78 {
        v - 57
    } else if 80 <= v && v <= 90 {
        v - 58
    } else if 97 <= v && v <= 107 {
        v - 64
    } else if 109 <= v && v <= 122 {
        v - 65
    } else {
        -1
    }
}

pub open spec fn is_b58_char(c: char) -> bool {
    b58_digit(c) >= 0
}

/// The alphabet character of a base-58 digit value.
pub open spec fn b58_char(d: int) -> char {
    if d == 0 {
        '1'
    } else if d == 1 {
        '2'
    } else if d == 2 {
        '3'
    } else if d == 3 {
        '4'
    } else if d == 4 {
        '5'
    } else if d == 5 {
        '6'
    } else if d == 6 {
        '7'
    } else if d == 7 {
        '8'
    } else if d == 8 {
        '9'
    } else if d == 9 {
        'A'
    } else if d == 10 {
        'B'
    } else if d == 11 {
        'C'
    } else if d == 12 {
        'D'
    } else if d == 13 {
        'E'
    } else if d == 14 {
        'F'
    } else if d == 15 {
        'G'
    } else if d == 16 {
        'H'
    } else if d == 17 {
        'J'
    } else if d == 18 {
        'K'
    } else if d == 19 {
        'L'
    } else if d == 20 {
        'M'
    } else if d == 21 {
        'N'
    } else if d == 22 {
        'P'
    } else if d == 23 {
        'Q'
    } else if d == 24 {
        'R'
    } else if d == 25 {
        'S'
    } else if d == 26 {
        'T'
    } else if d == 27 {
        'U'
    } else if d == 28 {
        'V'
    } else if d == 29 {
        'W'
    } else if d == 30 {
        'X'
    } else if d == 31 {
        'Y'
    } else if d == 32 {
        'Z'
    } else if d == 33 {
        'a'
    } else if d == 34 {
        'b'
    } else if d == 35 {
        'c'
    } else if d == 36 {
        'd'
    } else if d == 37 {
        'e'
    } else if d == 38 {
        'f'
    } else if d == 39 {
        'g'
    } else if d == 40 {
        'h'
    } else if d == 41 {
        'i'
    } else if d == 42 {
        'j'
    } else if d == 43 {
        'k'
    } else if d == 44 {
        'm'
    } else if d == 45 {
        'n'
    } else if d == 46 {
        'o'
    } else if d == 47 {
        'p'
    } else if d == 48 {
        'q'
    } else if d == 49 {
        'r'
    } else if d == 50 {
        's'
    } else if d == 51 {
        't'
    } else if d == 52 {
        'u'
    } else if d == 53 {
        'v'
    } else if d == 54 {
        'w'
    } else if d == 55 {
        'x'
    } else if d == 56 {
        'y'
    } else {
        'z'
    }
}

/// Digit values and alphabet characters invert each other.
pub proof fn lemma_b58_digit_of_char(d: int)
    requires
        0 <= d < 58,
    ensures
        b58_digit(b58_char(d)) == d,
{
}

pub open spec fn chars_valid(s: Seq<char>) -> bool {
    forall|i: int| 0 <= i < s.len() ==> is_b58_char(#[trigger] s[i])
}

/// The digit values of a character string, as bytes.
pub open spec fn char_digits(s: Seq<char>) -> Seq<u8> {
    s.map_values(|c: char| b58_digit(c) as u8)
}

/// The number a base-58 string stands for.
pub open spec fn b58_val(s: Seq<char>) -> int {
    be_val(58, char_digits(s))
}

/// How many `1` characters the string starts with.
pub open spec fn leading_ones(s: Seq<char>) -> int
    decreases s.len(),
{
    if s.len() == 0 || s[0] != '1' {
        0
    } else {
        1 + leading_ones(s.drop_first())
    }
}

/// How many zero bytes the byte string starts with.
pub open spec fn leading_zero_bytes(b: Seq<u8>) -> int
    decreases b.len(),
{
    if b.len() == 0 || b[0] != 0 {
        0
    } else {
        1 + leading_zero_bytes(b.drop_first())
    }
}

pub open spec fn one_chars(n: int) -> Seq<char> {
    Seq::new(n as nat, |i: int| '1')
}

/// What a base-58 string decodes to: one zero byte for each leading `1`, then
/// the big-endian bytes of its value; or nothing, when some character is not
/// in the alphabet.
pub open spec fn decode_spec(s: Seq<char>) -> Option<Seq<u8>> {
    if chars_valid(s) {
        Some(zero_bytes(leading_ones(s)) + min_digits(256, b58_val(s)))
    } else {
        None
    }
}

/// What a byte string encodes to: one `1` for each leading zero byte, then
/// the base-58 digits of its value, most significant first.
pub open spec fn encode_spec(b: Seq<u8>) -> Seq<char> {
    one_chars(leading_zero_bytes(b)) + min_digits(58, be_val(256, b)).map_values(
        |d: u8| b58_char(d as int),
    )
}

proof fn lemma_leading_ones_from_prefix(s: Seq<char>, k: int)
    requires
        0 <= k <= s.len(),
        forall|j: int| 0 <= j < k ==> s[j] == '1',
        k == s.len() || s[k] != '1',
    ensures
        leading_ones(s) == k,
    decreases s.len(),
{
    if k == 0 {
    } else {
        assert(s[0] == '1');
        let rest = s.drop_first();
        assert(forall|j: int| 0 <= j < k - 1 ==> rest[j] == s[j + 1]);
        if k - 1 < rest.len() {
            assert(rest[k - 1] == s[k]);
        }
        lemma_leading_ones_from_prefix(rest, k - 1);
    }
}

proof fn lemma_leading_zero_bytes_from_prefix(b: Seq<u8>, k: int)
    requires
        0 <= k <= b.len(),
        forall|j: int| 0 <= j < k ==> b[j] == 0,
        k == b.len() || b[k] != 0,
    ensures
        leading_zero_bytes(b) == k,
    decreases b.len(),
{
    if k == 0 {
    } else {
        assert(b[0] == 0);
        let rest = b.drop_first();
        assert(forall|j: int| 0 <= j < k - 1 ==> rest[j] == b[j + 1]);
        if k - 1 < rest.len() {
            assert(rest[k - 1] == b[k]);
        }
        lemma_leading_zero_bytes_from_prefix(rest, k - 1);
    }
}

/// One step of big-endian evaluation over the digit values of a string.
proof fn lemma_b58_val_take_succ(s: Seq<char>, i: int)
    requires
        0 <= i < s.len(),
        is_b58_char(s[i]),
    ensures
        b58_val(s.take(i + 1)) == b58_val(s.take(i)) * 58 + b58_digit(s[i]),
{
    assert(char_digits(s.take(i + 1)).drop_last() =~= char_digits(s.take(i)));
    assert(char_digits(s.take(i + 1)).last() == (b58_digit(s[i]) as u8));
}

/// Multiplies the little-endian digit cells by `mult` and adds `d`, carrying.
/// The cells are digits in base `cell`, kept canonical.
#[verifier::rlimit(80)]
fn scale_and_add(num: &mut Vec<u8>, cell: u32, mult: u32, d: u32)
    requires
        2 <= cell <= 256,
        1 <= mult <= 256,
        d < mult || d < cell,
        canonical_le(cell as int, old(num)@),
    ensures
        canonical_le(cell as int, final(num)@),
        le_val(cell as int, final(num)@) == le_val(cell as int, old(num)@) * (mult as int) + d,
{
    let ghost orig = num@;
    let ghost base = cell as int;
    let ghost target = le_val(base, orig) * (mult as int) + d;
    let mut carry: u32 = d;
    let mut j: usize = 0;
    let len = num.len();
    proof {
        reveal(pow);
        assert(num@.take(0int) =~= Seq::<u8>::empty());
        assert(num@.skip(0int) =~= orig.skip(0int));
        assert(le_val(base, Seq::<u8>::empty()) == 0);
        assert(orig.skip(0int) =~= orig);
    }
    while j < len
        invariant
            2 <= cell <= 256,
            1 <= mult <= 256,
            base == cell as int,
            len == num@.len(),
            num@.len() == orig.len(),
            0 <= j <= len,
            carry <= mult + cell,
            digits_in_range(base, num@),
            num@.skip(j as int) == orig.skip(j as int),
            le_val(base, num@.take(j as int)) + pow(base, j as nat) * ((carry as int) + (
            mult as int) * le_val(base, orig.skip(j as int))) == target,
        decreases len - j,
    {
        let ghost pre = num@;
        let ghost carry0 = carry as int;
        proof {
            assert(pre.skip(j as int)[0] == orig.skip(j as int)[0]);
            assert(pre[j as int] == orig[j as int]);
        }
        let b = num[j];
        let bw = b as u32;
        proof {
            assert((bw as int) * (mult as int) <= 255 * 256) by (nonlinear_arith)
                requires
                    bw < 256,
                    mult <= 256,
            ;
        }
        let t: u32 = carry + bw * mult;
        num.set(j, (t % cell) as u8);
        carry = t / cell;
        proof {
            reveal(pow);
            let ji = j as int;
            let ti = t as int;
            let w1 = le_val(base, orig.skip(ji + 1));
            lemma_le_val_skip_succ(base, orig, ji);
            lemma_fundamental_div_mod(ti, base);
            assert(num@.take(ji) =~= pre.take(ji));
            assert forall|u: int| 0 <= u < num@.len() - (ji + 1) implies #[trigger] (num@.skip(
                ji + 1,
            )[u]) == orig.skip(ji + 1)[u] by {
                assert(num@.skip(ji + 1)[u] == pre[ji + 1 + u]);
                assert(pre.skip(ji)[u + 1] == pre[ji + 1 + u]);
                assert(orig.skip(ji)[u + 1] == orig[ji + 1 + u]);
                assert(orig.skip(ji + 1)[u] == orig[ji + 1 + u]);
            }
            assert(num@.skip(ji + 1) =~= orig.skip(ji + 1));
            assert(num@[ji] == ((t % cell) as u8));
            lemma_le_val_take_succ(base, num@, ji);
            let p = pow(base, j as nat);
            lemma_pow_positive(base, j as nat);
            assert(pow(base, (j + 1) as nat) == base * p);
            assert(le_val(base, num@.take(ji + 1)) + (base * p) * ((ti / base) + (mult as int)
                * w1) == le_val(base, pre.take(ji)) + p * (carry0 + (mult as int) * (orig[ji]
                + base * w1))) by (nonlinear_arith)
                requires
                    ti == carry0 + (orig[ji] as int) * (mult as int),
                    ti == base * (ti / base) + ti % base,
                    le_val(base, num@.take(ji + 1)) == le_val(base, pre.take(ji)) + p * (ti
                        % base),
            ;
            assert(carry <= mult + cell) by {
                let mi = mult as int;
                assert(ti <= base * (1 + mi)) by (nonlinear_arith)
                    requires
                        ti == carry0 + (orig[ji] as int) * mi,
                        carry0 <= mi + base,
                        0 <= orig[ji] as int <= base - 1,
                        mi >= 1,
                        base >= 2,
                ;
                lemma_div_is_ordered(ti, base * (1 + mi), base);
                vstd::arithmetic::div_mod::lemma_div_multiples_vanish(1 + mi, base);
            }
        }
        j = j + 1;
    }
    proof {
        reveal(pow);
        assert(num@.take(len as int) =~= num@);
        assert(orig.skip(len as int) =~= Seq::<u8>::empty());
        assert(le_val(base, Seq::<u8>::empty()) == 0);
        assert(le_val(base, num@) + pow(base, len as nat) * (carry as int) == target) by {
            assert(pow(base, len as nat) * ((carry as int) + (mult as int) * 0) == pow(
                base,
                len as nat,
            ) * (carry as int)) by (nonlinear_arith);
        }
        if carry == 0 {
            assert(le_val(base, num@) == target) by (nonlinear_arith)
                requires
                    le_val(base, num@) + pow(base, len as nat) * 0int == target,
            ;
            if orig.len() > 0 {
                lemma_canonical_le_lower(base, orig);
                let q = pow(base, (orig.len() - 1) as nat);
                lemma_pow_positive(base, (orig.len() - 1) as nat);
                assert(target >= q) by (nonlinear_arith)
                    requires
                        target == le_val(base, orig) * (mult as int) + d,
                        le_val(base, orig) >= q,
                        q > 0,
                        mult >= 1,
                        d >= 0,
                ;
                lemma_le_val_lower_canonical(base, num@);
            } else {
                assert(orig.len() == 0);
                assert(le_val(base, orig) == 0);
                assert(num@.len() == 0);
            }
        }
    }
    while carry > 0
        invariant
            2 <= cell <= 256,
            base == cell as int,
            digits_in_range(base, num@),
            le_val(base, num@) + pow(base, num@.len() as nat) * (carry as int) == target,
            carry == 0 ==> canonical_le(base, num@),
        decreases carry,
    {
        let ghost pre = num@;
        let ghost carry0 = carry as int;
        let x = (carry % cell) as u8;
        num.push(x);
        carry = carry / cell;
        proof {
            reveal(pow);
            lemma_le_val_push(base, pre, x);
            lemma_fundamental_div_mod(carry0, base);
            let p = pow(base, pre.len() as nat);
            lemma_pow_positive(base, pre.len() as nat);
            assert(pow(base, (pre.len() + 1) as nat) == base * p);
            assert(le_val(base, pre) + p * (carry0 % base) + (base * p) * (carry0 / base)
                == le_val(base, pre) + p * carry0) by (nonlinear_arith)
                requires
                    carry0 == base * (carry0 / base) + carry0 % base,
            ;
            lemma_div_decreases(carry0, base);
            if carry == 0 {
                assert(carry0 < base) by {
                    if carry0 >= base {
                        lemma_div_is_ordered(base, carry0, base);
                        vstd::arithmetic::div_mod::lemma_div_by_self(base);
                    }
                }
                vstd::arithmetic::div_mod::lemma_small_mod(carry0 as nat, base as nat);
                assert(x == carry0);
                assert(x != 0);
                assert(num@.last() == x);
            }
        }
    }
    proof {
        assert(le_val(base, num@) == target) by (nonlinear_arith)
            requires
                le_val(base, num@) + pow(base, num@.len() as nat) * 0int == target,
        ;
    }
}

/// The base-58 digit value of a character, or nothing when the character is
/// not in the alphabet.
pub fn digit_of_char(c: char) -> (r: Option<u8>)
    ensures
        match r {
            Some(d) => b58_digit(c) == d as int && d < 58,
            None => b58_digit(c) == -1,
        },
{
    let v = c as u32;
    if 49 <= v && v <= 57 {
        Some((v - 49) as u8)
    } else if 65 <= v && v <= 72 {
        Some((v - 56) as u8)
    } else if 74 <= v && v <= 78 {
        Some((v - 57) as u8)
    } else if 80 <= v && v <= 90 {
        Some((v - 58) as u8)
    } else if 97 <= v && v <= 107 {
        Some((v - 64) as u8)
    } else if 109 <= v && v <= 122 {
        Some((v - 65) as u8)
    } else {
        None
    }
}

/// The alphabet character of a digit value.
pub fn char_of_digit(d: u8) -> (r: char)
    requires
        d < 58,
    ensures
        r == b58_char(d as int),
{
    if d == 0 {
        '1'
    } else if d == 1 {
        '2'
    } else if d == 2 {
        '3'
    } else if d == 3 {
        '4'
    } else if d == 4 {
        '5'
    } else if d == 5 {
        '6'
    } else if d == 6 {
        '7'
    } else if d == 7 {
        '8'
    } else if d == 8 {
        '9'
    } else if d == 9 {
        'A'
    } else if d == 10 {
        'B'
    } else if d == 11 {
        'C'
    } else if d == 12 {
        'D'
    } else if d == 13 {
        'E'
    } else if d == 14 {
        'F'
    } else if d == 15 {
        'G'
    } else if d == 16 {
        'H'
    } else if d == 17 {
        'J'
    } else if d == 18 {
        'K'
    } else if d == 19 {
        'L'
    } else if d == 20 {
        'M'
    } else if d == 21 {
        'N'
    } else if d == 22 {
        'P'
    } else if d == 23 {
        'Q'
    } else if d == 24 {
        'R'
    } else if d == 25 {
        'S'
    } else if d == 26 {
        'T'
    } else if d == 27 {
        'U'
    } else if d == 28 {
        'V'
    } else if d == 29 {
        'W'
    } else if d == 30 {
        'X'
    } else if d == 31 {
        'Y'
    } else if d == 32 {
        'Z'
    } else if d == 33 {
        'a'
    } else if d == 34 {
        'b'
    } else if d == 35 {
        'c'
    } else if d == 36 {
        'd'
    } else if d == 37 {
        'e'
    } else if d == 38 {
        'f'
    } else if d == 39 {
        'g'
    } else if d == 40 {
        'h'
    } else if d == 41 {
        'i'
    } else if d == 42 {
        'j'
    } else if d == 43 {
        'k'
    } else if d == 44 {
        'm'
    } else if d == 45 {
        'n'
    } else if d == 46 {
        'o'
    } else if d == 47 {
        'p'
    } else if d == 48 {
        'q'
    } else if d == 49 {
        'r'
    } else if d == 50 {
        's'
    } else if d == 51 {
        't'
    } else if d == 52 {
        'u'
    } else if d == 53 {
        'v'
    } else if d == 54 {
        'w'
    } else if d == 55 {
        'x'
    } else if d == 56 {
        'y'
    } else {
        'z'
    }
}

/// Relies on String::push of std: it appends exactly the one character.
#[verifier::external_body]
fn push_char(s: &mut String, c: char)
    ensures
        final(s)@ == old(s)@ + seq![c],
{
    s.push(c);
}

/// Decode a base-58 string to the bytes it stands for, or nothing when some
/// character is not in the alphabet.
pub fn decode(s: &str) -> (r: Option<Vec<u8>>)
    ensures
        match r {
            Some(b) => decode_spec(s@) == Some(b@),
            None => decode_spec(s@) is None,
        },
{
    let n = s.unicode_len();
    let mut ones: usize = 0;
    while ones < n && s.get_char(ones) == '1'
        invariant
            n == s@.len(),
            0 <= ones <= n,
            forall|j: int| 0 <= j < ones ==> s@[j] == '1',
        decreases n - ones,
    {
        ones = ones + 1;
    }
    proof {
        lemma_leading_ones_from_prefix(s@, ones as int);
    }
    let mut num: Vec<u8> = Vec::new();
    let mut i: usize = 0;
    proof {
        assert(num@.len() == 0);
        assert(s@.take(0int) =~= Seq::<char>::empty());
        assert(char_digits(Seq::<char>::empty()) =~= Seq::<u8>::empty());
    }
    while i < n
        invariant
            n == s@.len(),
            0 <= i <= n,
            forall|j: int| 0 <= j < i ==> is_b58_char(#[trigger] s@[j]),
            canonical_le(256, num@),
            le_val(256, num@) == b58_val(s@.take(i as int)),
        decreases n - i,
    {
        let c = s.get_char(i);
        let d = match digit_of_char(c) {
            Some(d) => d,
            None => {
                proof {
                    assert(!is_b58_char(s@[i as int]));
                }
                return None;
            },
        };
        scale_and_add(&mut num, 256, 58, d as u32);
        proof {
            lemma_b58_val_take_succ(s@, i as int);
        }
        i = i + 1;
    }
    proof {
        assert(s@.take(n as int) =~= s@);
    }
    let mut out: Vec<u8> = Vec::new();
    let mut k: usize = 0;
    while k < ones
        invariant
            0 <= k <= ones,
            out@.len() == k,
            forall|t: int| 0 <= t < k ==> out@[t] == 0u8,
        decreases ones - k,
    {
        out.push(0u8);
        k = k + 1;
    }
    let mut m: usize = num.len();
    while m > 0
        invariant
            0 <= m <= num@.len(),
            out@.len() == ones + (num@.len() - m),
            forall|t: int| 0 <= t < ones ==> out@[t] == 0u8,
            forall|t: int| ones <= t < out@.len() ==> out@[t] == num@[num@.len() - 1 - (t
                - ones)],
        decreases m,
    {
        m = m - 1;
        let x = num[m];
        out.push(x);
    }
    proof {
        lemma_min_digits_of_canonical(256, num@);
        assert(out@ =~= zero_bytes(leading_ones(s@)) + num@.reverse());
        assert(decode_spec(s@) == Some(out@));
    }
    Some(out)
}

/// Encode bytes as base-58 text.
pub fn encode(bytes: &[u8]) -> (r: String)
    ensures
        r@ == encode_spec(bytes@),
{
    let n = bytes.len();
    let mut zeros: usize = 0;
    while zeros < n && bytes[zeros] == 0
        invariant
            n == bytes@.len(),
            0 <= zeros <= n,
            forall|j: int| 0 <= j < zeros ==> bytes@[j] == 0,
        decreases n - zeros,
    {
        zeros = zeros + 1;
    }
    proof {
        lemma_leading_zero_bytes_from_prefix(bytes@, zeros as int);
    }
    let mut digs: Vec<u8> = Vec::new();
    let mut i: usize = 0;
    proof {
        assert(bytes@.take(0int) =~= Seq::<u8>::empty());
    }
    while i < n
        invariant
            n == bytes@.len(),
            0 <= i <= n,
            canonical_le(58, digs@),
            le_val(58, digs@) == be_val(256, bytes@.take(i as int)),
        decreases n - i,
    {
        let b = bytes[i];
        scale_and_add(&mut digs, 58, 256, b as u32);
        proof {
            lemma_be_val_take_succ(256, bytes@, i as int);
        }
        i = i + 1;
    }
    proof {
        assert(bytes@.take(n as int) =~= bytes@);
    }
    let mut out = String::new();
    let mut k: usize = 0;
    while k < zeros
        invariant
            0 <= k <= zeros,
            out@.len() == k,
            forall|t: int| 0 <= t < k ==> out@[t] == '1',
        decreases zeros - k,
    {
        push_char(&mut out, '1');
        k = k + 1;
    }
    let mut m: usize = digs.len();
    while m > 0
        invariant
            0 <= m <= digs@.len(),
            digits_in_range(58, digs@),
            out@.len() == zeros + (digs@.len() - m),
            forall|t: int| 0 <= t < zeros ==> out@[t] == '1',
            forall|t: int| zeros <= t < out@.len() ==> out@[t] == b58_char(
                digs@[digs@.len() - 1 - (t - zeros)] as int,
            ),
        decreases m,
    {
        m = m - 1;
        let x = digs[m];
        let ch = char_of_digit(x);
        push_char(&mut out, ch);
    }
    proof {
        lemma_min_digits_of_canonical(58, digs@);
        assert(out@ =~= encode_spec(bytes@));
    }
    out
}

/// Every byte string comes back unchanged from its own encoding: decoding
/// the base-58 text of `b` yields exactly `b`.
pub proof fn lemma_decode_of_encode(b: Seq<u8>)
    ensures
        decode_spec(encode_spec(b)) == Some(b),
{
    let z = leading_zero_bytes(b);
    let v = be_val(256, b);
    lemma_be_val_nonneg(256, b);
    lemma_leading_zero_bytes_facts(b);
    lemma_min_digits_props(58, v);
    let ds = min_digits(58, v);
    let cs = ds.map_values(|d: u8| b58_char(d as int));
    let s = one_chars(z) + cs;
    assert(s == encode_spec(b));
    assert forall|t: int| 0 <= t < s.len() implies is_b58_char(#[trigger] s[t]) by {
        if t < z {
            assert(s[t] == '1');
        } else {
            assert(s[t] == b58_char(ds[t - z] as int));
            lemma_b58_digit_of_char(ds[t - z] as int);
        }
    }
    assert(chars_valid(s));
    if v > 0 {
        assert(ds[0] != 0);
        lemma_b58_digit_of_char(ds[0] as int);
        assert(s[z] == b58_char(ds[0] as int));
        assert(b58_digit('1') == 0);
        assert(s[z] != '1');
    }
    lemma_leading_ones_from_prefix(s, z);
    assert(char_digits(s) =~= zero_bytes(z) + ds) by {
        assert forall|t: int| 0 <= t < s.len() implies char_digits(s)[t] == (zero_bytes(z)
            + ds)[t] by {
            if t < z {
                assert(s[t] == '1');
                assert(b58_digit('1') == 0);
            } else {
                assert(s[t] == b58_char(ds[t - z] as int));
                lemma_b58_digit_of_char(ds[t - z] as int);
            }
        }
    }
    lemma_be_val_concat(58, zero_bytes(z), ds);
    lemma_be_val_zeros(58, zero_bytes(z));
    assert(b58_val(s) == 0 * pow(58, ds.len() as nat) + v) by {
        assert(be_val(58, char_digits(s)) == be_val(58, zero_bytes(z) + ds));
    }
    assert(b58_val(s) == v) by (nonlinear_arith)
        requires
            b58_val(s) == 0 * pow(58, ds.len() as nat) + v,
    ;
    lemma_zero_prefix_reconstruct(b);
    assert(decode_spec(s) == Some(zero_bytes(leading_ones(s)) + min_digits(256, b58_val(s))));
    assert(decode_spec(s) == Some(b));
}

proof fn lemma_leading_zero_bytes_facts(b: Seq<u8>)
    ensures
        0 <= leading_zero_bytes(b) <= b.len(),
        forall|j: int| 0 <= j < leading_zero_bytes(b) ==> b[j] == 0,
        leading_zero_bytes(b) < b.len() ==> b[leading_zero_bytes(b)] != 0,
    decreases b.len(),
{
    if b.len() == 0 || b[0] != 0 {
    } else {
        let rest = b.drop_first();
        lemma_leading_zero_bytes_facts(rest);
        assert(leading_zero_bytes(b) == 1 + leading_zero_bytes(rest));
        assert forall|j: int| 0 <= j < leading_zero_bytes(b) implies b[j] == 0 by {
            if j > 0 {
                assert(b[j] == rest[j - 1]);
            }
        }
        if leading_zero_bytes(b) < b.len() {
            assert(b[leading_zero_bytes(b)] == rest[leading_zero_bytes(rest)]);
        }
    }
}

/// A byte string is its leading zeros followed by the shortest digits of its
/// value.
proof fn lemma_zero_prefix_reconstruct(b: Seq<u8>)
    ensures
        zero_bytes(leading_zero_bytes(b)) + min_digits(256, be_val(256, b)) == b,
    decreases b.len(),
{
    lemma_leading_zero_bytes_facts(b);
    if b.len() == 0 {
        assert(be_val(256, b) == 0);
        assert(zero_bytes(0) + min_digits(256, 0) =~= b);
    } else if b[0] == 0 {
        let rest = b.drop_first();
        lemma_leading_zero_bytes_facts(rest);
        assert(b =~= seq![0u8] + rest);
        lemma_be_val_concat(256, seq![0u8], rest);
        assert(be_val(256, seq![0u8]) == 0) by {
            assert(seq![0u8].drop_last() =~= Seq::<u8>::empty());
            assert(be_val(256, Seq::<u8>::empty()) == 0);
        }
        assert(be_val(256, b) == be_val(256, rest)) by (nonlinear_arith)
            requires
                be_val(256, b) == 0 * pow(256, rest.len() as nat) + be_val(256, rest),
        ;
        lemma_zero_prefix_reconstruct(rest);
        assert(zero_bytes(leading_zero_bytes(b)) + min_digits(256, be_val(256, b)) =~= b) by {
            assert(zero_bytes(leading_zero_bytes(rest)) + min_digits(256, be_val(256, rest))
                == rest);
            assert(leading_zero_bytes(b) == 1 + leading_zero_bytes(rest));
        }
    } else {
        assert(leading_zero_bytes(b) == 0);
        let r = b.reverse();
        lemma_le_val_reverse(256, b);
        assert(r.last() == b[0]);
        assert(canonical_le(256, r));
        lemma_min_digits_of_canonical(256, r);
        assert(r.reverse() =~= b);
        assert(zero_bytes(0) + min_digits(256, be_val(256, b)) =~= b);
    }
}

} // verus!
