//! Argument resolution: the four required flags, and the amount parsed as an
//! unsigned 64-bit decimal number.

use vstd::prelude::*;

verus! {

use crate::digits::be_val;
use crate::digits::lemma_be_val_prefix_le;
use crate::error::CliError;
use crate::error::Flag;
use vstd::string::StrSliceExecFns;

/// The value of a character as a decimal digit, or -1.
pub open spec fn dec_digit(c: char) -> int {
    let v = c as int;
    if 48 <= v && v <= 57 {
        v - 48
    } else {
        -1
    }
}

pub open spec fn is_dec_digit(c: char) -> bool {
    dec_digit(c) >= 0
}

/// The digit values of a character string, as bytes.
pub open spec fn dec_digits(s: Seq<char>) -> Seq<u8> {
    s.map_values(|c: char| dec_digit(c) as u8)
}

/// Whether the string is a plain decimal numeral: nonempty and digits only.
pub open spec fn dec_numeral(s: Seq<char>) -> bool {
    s.len() > 0 && forall|i: int| 0 <= i < s.len() ==> is_dec_digit(#[trigger] s[i])
}

/// The number the numeral stands for.
pub open spec fn dec_val(s: Seq<char>) -> int {
    be_val(10, dec_digits(s))
}

/// What parsing an amount yields: the value when the text is a decimal
/// numeral that fits in 64 bits, nothing otherwise.
pub open spec fn amount_spec(s: Seq<char>) -> Option<u64> {
    if dec_numeral(s) && dec_val(s) <= u64::MAX {
        Some(dec_val(s) as u64)
    } else {
        None
    }
}

proof fn lemma_dec_val_take_succ(s: Seq<char>, i: int)
    requires
        0 <= i < s.len(),
        is_dec_digit(s[i]),
    ensures
        dec_val(s.take(i + 1)) == dec_val(s.take(i)) * 10 + dec_digit(s[i]),
{
    assert(dec_digits(s.take(i + 1)).drop_last() =~= dec_digits(s.take(i)));
    assert(dec_digits(s.take(i + 1)).last() == (dec_digit(s[i]) as u8));
}

/// Parse an unsigned 64-bit decimal amount.
pub fn parse_amount(s: &str) -> (r: Option<u64>)
    ensures
        r == amount_spec(s@),
{
    let n = s.unicode_len();
    if n == 0 {
        return None;
    }
    let mut acc: u64 = 0;
    let mut i: usize = 0;
    proof {
        assert(s@.take(0int) =~= Seq::<char>::empty());
        assert(dec_digits(Seq::<char>::empty()) =~= Seq::<u8>::empty());
        assert(be_val(10, Seq::<u8>::empty()) == 0);
    }
    while i < n
        invariant
            n == s@.len(),
            0 <= i <= n,
            forall|j: int| 0 <= j < i ==> is_dec_digit(#[trigger] s@[j]),
            acc as int == dec_val(s@.take(i as int)),
        decreases n - i,
    {
        let c = s.get_char(i);
        let v = c as u32;
        if v < 48 || v > 57 {
            proof {
                assert(!is_dec_digit(s@[i as int]));
            }
            return None;
        }
        let d = (v - 48) as u64;
        let wide: u128 = (acc as u128) * 10 + (d as u128);
        proof {
            lemma_dec_val_take_succ(s@, i as int);
        }
        if wide > u64::MAX as u128 {
            proof {
                assert(dec_digits(s@.take(i as int + 1)) =~= dec_digits(s@).take(i as int + 1));
                lemma_be_val_prefix_le(10, dec_digits(s@), i as int + 1);
                assert(dec_val(s@) > u64::MAX);
            }
            return None;
        }
        acc = wide as u64;
        i = i + 1;
    }
    proof {
        assert(s@.take(n as int) =~= s@);
    }
    Some(acc)
}

/// The four resolved arguments of a run.
pub struct Args {
    pub to1: String,
    pub to2: String,
    pub from: String,
    pub amount: u64,
}

pub open spec fn opt_view(o: Option<String>) -> Option<Seq<char>> {
    match o {
        Some(s) => Some(s@),
        None => None,
    }
}

/// Which error argument resolution yields, if any: a missing flag first, in
/// the order the flags are read, then a malformed amount.
pub open spec fn resolve_error(
    to1: Option<Seq<char>>,
    to2: Option<Seq<char>>,
    from: Option<Seq<char>>,
    amount: Option<Seq<char>>,
) -> Option<CliError> {
    if to1 is None {
        Some(CliError::MissingFlag(Flag::To1))
    } else if to2 is None {
        Some(CliError::MissingFlag(Flag::To2))
    } else if from is None {
        Some(CliError::MissingFlag(Flag::From))
    } else if amount is None {
        Some(CliError::MissingFlag(Flag::Amount))
    } else if amount_spec(amount.unwrap()) is None {
        Some(CliError::AmountNotNumeric)
    } else {
        None
    }
}

/// Collect the four required values. All must be present and the amount must
/// parse; the first failure, in flag order, is reported.
pub fn resolve_args(
    to1: Option<String>,
    to2: Option<String>,
    from: Option<String>,
    amount: Option<String>,
) -> (r: Result<Args, CliError>)
    ensures
        match r {
            Ok(a) => {
                &&& resolve_error(opt_view(to1), opt_view(to2), opt_view(from), opt_view(amount))
                    is None
                &&& to1 matches Some(t1) && a.to1@ == t1@
                &&& to2 matches Some(t2) && a.to2@ == t2@
                &&& from matches Some(f) && a.from@ == f@
                &&& amount matches Some(am) && Some(a.amount) == amount_spec(am@)
            },
            Err(e) => Some(e) == resolve_error(
                opt_view(to1),
                opt_view(to2),
                opt_view(from),
                opt_view(amount),
            ),
        },
{
    let to1 = match to1 {
        Some(t) => t,
        None => {
            return Err(CliError::MissingFlag(Flag::To1));
        },
    };
    let to2 = match to2 {
        Some(t) => t,
        None => {
            return Err(CliError::MissingFlag(Flag::To2));
        },
    };
    let from = match from {
        Some(f) => f,
        None => {
            return Err(CliError::MissingFlag(Flag::From));
        },
    };
    let amount = match amount {
        Some(a) => a,
        None => {
            return Err(CliError::MissingFlag(Flag::Amount));
        },
    };
    let lamports = match parse_amount(amount.as_str()) {
        Some(v) => v,
        None => {
            return Err(CliError::AmountNotNumeric);
        },
    };
    Ok(Args { to1, to2, from, amount: lamports })
}

/// Omitting any one of the four required flags is rejected at resolution,
/// with that flag's missing-argument error, whatever the other values hold.
pub proof fn lemma_missing_flag_rejected(
    to1: Option<Seq<char>>,
    to2: Option<Seq<char>>,
    from: Option<Seq<char>>,
    amount: Option<Seq<char>>,
)
    requires
        to1 is None || to2 is None || from is None || amount is None,
    ensures
        resolve_error(to1, to2, from, amount) matches Some(CliError::MissingFlag(_)),
{
}

/// A non-numeric amount is rejected at resolution with a parse error, whatever
/// the sender key holds: the key plays no part in the decision.
pub proof fn lemma_bad_amount_rejected(
    to1: Seq<char>,
    to2: Seq<char>,
    from: Seq<char>,
    amount: Seq<char>,
)
    requires
        amount_spec(amount) is None,
    ensures
        resolve_error(Some(to1), Some(to2), Some(from), Some(amount)) == Some(
            CliError::AmountNotNumeric,
        ),
{
}

} // verus!
