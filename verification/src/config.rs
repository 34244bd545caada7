//! Resolving the run configuration from raw flag values.
//!
//! Every numeric flag arrives as raw bytes; an invalid number is a
//! fatal configuration error reported before any training work. Counts
//! are decimal digit runs; the learning rate is a digit run with an
//! optional fractional part, kept as the exact fraction it spells.
//! Absent flags take the documented defaults: 50 epochs, batch size 10,
//! rate one half.

use vstd::prelude::*;

use vstd::arithmetic::div_mod::lemma_fundamental_div_mod;
use vstd::arithmetic::mul::lemma_mul_inequality;
use vstd::slice::slice_subrange;
use vstd::slice::slice_to_vec;

use crate::frac::Frac;
use crate::CoreError;

verus! {

/// ASCII decimal digit.
pub open spec fn is_digit(b: u8) -> bool {
    48 <= b <= 57
}

/// Every byte is a decimal digit.
pub open spec fn all_digits(s: Seq<u8>) -> bool {
    forall|i: int| 0 <= i < s.len() ==> is_digit(#[trigger] s[i])
}

/// The number a run of decimal digits spells.
pub open spec fn digits_value(s: Seq<u8>) -> int
    decreases s.len(),
{
    if s.len() == 0 {
        0
    } else {
        digits_value(s.drop_last()) * 10 + (s.last() - 48)
    }
}

proof fn lemma_digits_value_nonneg(s: Seq<u8>)
    requires
        all_digits(s),
    ensures
        digits_value(s) >= 0,
    decreases s.len(),
{
    if s.len() > 0 {
        assert(all_digits(s.drop_last()));
        lemma_digits_value_nonneg(s.drop_last());
    }
}

/// A digit run's value only grows as more digits follow.
proof fn lemma_digits_prefix_le(s: Seq<u8>, k: int)
    requires
        all_digits(s),
        0 <= k <= s.len(),
    ensures
        digits_value(s.take(k)) <= digits_value(s),
    decreases s.len(),
{
    assert(all_digits(s.take(k)));
    if k == s.len() {
        assert(s.take(k) =~= s);
    } else {
        let d = s.drop_last();
        assert(all_digits(d));
        assert(s.take(k) =~= d.take(k));
        lemma_digits_prefix_le(d, k);
        lemma_digits_value_nonneg(d);
    }
}

/// Parse a run of decimal digits. Succeeds exactly on a nonempty
/// all-digit run whose value fits.
pub fn parse_u64(s: &Vec<u8>) -> (r: Option<u64>)
    ensures
        match r {
            Some(v) => s@.len() >= 1 && all_digits(s@) && v == digits_value(s@),
            None => s@.len() == 0 || !all_digits(s@) || digits_value(s@) > u64::MAX,
        },
{
    let n = s.len();
    if n == 0 {
        return None;
    }
    let mut acc: u64 = 0;
    let mut i: usize = 0;
    while i < n
        invariant
            i <= n,
            n == s@.len(),
            all_digits(s@.take(i as int)),
            acc == digits_value(s@.take(i as int)),
        decreases n - i,
    {
        let b = s[i];
        if !(48 <= b && b <= 57) {
            proof {
                assert(!is_digit(s@[i as int]));
            }
            return None;
        }
        let d = (b - 48) as u64;
        let room = u64::MAX - d;
        proof {
            lemma_fundamental_div_mod(room as int, 10);
            assert(s@.take(i as int + 1).drop_last() =~= s@.take(i as int));
            assert(s@.take(i as int + 1).last() == s@[i as int]);
        }
        if acc > room / 10 {
            proof {
                assert(digits_value(s@.take(i as int + 1)) > u64::MAX);
                if all_digits(s@) {
                    lemma_digits_prefix_le(s@, i as int + 1);
                }
            }
            return None;
        }
        acc = acc * 10 + d;
        i = i + 1;
    }
    proof {
        assert(s@.take(n as int) =~= s@);
    }
    Some(acc)
}

/// Index of the first dot, or the length when there is none.
pub open spec fn split_pos(s: Seq<u8>) -> int
    decreases s.len(),
{
    if s.len() == 0 {
        0
    } else if s[0] == 46 {
        0
    } else {
        1 + split_pos(s.drop_first())
    }
}

proof fn lemma_split_pos_first(s: Seq<u8>, i: int)
    requires
        0 <= i <= s.len(),
        forall|t: int| 0 <= t < i ==> (#[trigger] s[t]) != 46,
        i < s.len() ==> s[i] == 46,
    ensures
        split_pos(s) == i,
    decreases s.len(),
{
    if s.len() > 0 && i > 0 {
        lemma_split_pos_first(s.drop_first(), i - 1);
    }
}

/// `10^k`.
pub open spec fn pow10(k: int) -> int
    decreases k,
{
    if k <= 0 {
        1
    } else {
        10 * pow10(k - 1)
    }
}

proof fn lemma_pow10_bounds(a: int, b: int)
    requires
        0 <= a <= b,
    ensures
        1 <= pow10(a) <= pow10(b),
    decreases b,
{
    if b > 0 {
        if a == b {
            lemma_pow10_bounds(a - 1, b - 1);
        } else {
            lemma_pow10_bounds(a, b - 1);
        }
    }
}

/// The flag spells a decimal number: a nonempty digit run, optionally
/// followed by a dot and a nonempty digit run.
pub open spec fn decimal_shape(s: Seq<u8>) -> bool {
    let p = split_pos(s);
    &&& p >= 1
    &&& all_digits(s.take(p))
    &&& (p < s.len() ==> p + 2 <= s.len() && all_digits(s.subrange(p + 1, s.len() as int)))
}

/// Numerator of the exact value the flag spells.
pub open spec fn decimal_num(s: Seq<u8>) -> int {
    let p = split_pos(s);
    if p == s.len() {
        digits_value(s)
    } else {
        digits_value(s.take(p)) * pow10(s.len() - p - 1) + digits_value(
            s.subrange(p + 1, s.len() as int),
        )
    }
}

/// Denominator of the exact value the flag spells: one followed by a
/// zero per fractional digit.
pub open spec fn decimal_den(s: Seq<u8>) -> int {
    let p = split_pos(s);
    if p == s.len() {
        1
    } else {
        pow10(s.len() - p - 1)
    }
}

/// Parse a decimal flag into the exact fraction it spells. Succeeds
/// exactly on a well-shaped number both of whose exact numerator and
/// denominator fit.
pub fn parse_decimal(s: &Vec<u8>) -> (r: Option<Frac>)
    ensures
        match r {
            Some(f) => {
                &&& decimal_shape(s@)
                &&& f.num == decimal_num(s@)
                &&& f.den == decimal_den(s@)
                &&& f.wf()
            },
            None => !decimal_shape(s@) || decimal_num(s@) > u64::MAX || decimal_den(s@)
                > u64::MAX,
        },
{
    let n = s.len();
    let mut p: usize = 0;
    while p < n && s[p] != 46
        invariant
            p <= n,
            n == s@.len(),
            forall|t: int| 0 <= t < p ==> (#[trigger] s@[t]) != 46,
        decreases n - p,
    {
        p = p + 1;
    }
    proof {
        lemma_split_pos_first(s@, p as int);
    }
    let int_part = slice_to_vec(slice_subrange(s.as_slice(), 0, p));
    proof {
        assert(int_part@ == s@.subrange(0, p as int));
        assert(s@.subrange(0, p as int) =~= s@.take(p as int));
    }
    let int_val = match parse_u64(&int_part) {
        Some(v) => v,
        None => {
            proof {
                if decimal_shape(s@) {
                    // the whole value is at least the integer part times
                    // the denominator, so it cannot fit either
                    let fl = s@.len() - p - 1;
                    if p as int == s@.len() {
                        assert(s@.take(p as int) =~= s@);
                    }
                    if (p as int) < s@.len() {
                        lemma_pow10_bounds(0, fl);
                        lemma_digits_value_nonneg(s@.subrange(p as int + 1, s@.len() as int));
                        lemma_mul_inequality(
                            1,
                            pow10(fl),
                            digits_value(s@.take(p as int)),
                        );
                        assert(digits_value(s@.take(p as int)) * pow10(fl) >= digits_value(
                            s@.take(p as int),
                        ) * 1) by (nonlinear_arith)
                            requires
                                pow10(fl) >= 1,
                                digits_value(s@.take(p as int)) >= 0,
                        ;
                    }
                }
            }
            return None;
        },
    };
    if p == n {
        return Some(Frac { num: int_val, den: 1 });
    }
    if n - p < 2 {
        return None;
    }
    let frac_part = slice_to_vec(slice_subrange(s.as_slice(), p + 1, n));
    let frac_val = match parse_u64(&frac_part) {
        Some(v) => v,
        None => {
            proof {
                if decimal_shape(s@) {
                    lemma_digits_value_nonneg(s@.take(p as int));
                    lemma_pow10_bounds(0, s@.len() - p - 1);
                    assert(digits_value(s@.take(p as int)) * pow10(s@.len() - p - 1) >= 0)
                        by (nonlinear_arith)
                        requires
                            pow10(s@.len() - p - 1) >= 1,
                            digits_value(s@.take(p as int)) >= 0,
                    ;
                }
            }
            return None;
        },
    };
    let fl = n - p - 1;
    let mut den: u64 = 1;
    let mut k: usize = 0;
    while k < fl
        invariant
            k <= fl,
            fl == s@.len() - p - 1,
            p == split_pos(s@),
            den == pow10(k as int),
            den >= 1,
        decreases fl - k,
    {
        if den > u64::MAX / 10 {
            proof {
                lemma_fundamental_div_mod(u64::MAX as int, 10);
                lemma_pow10_bounds(k as int + 1, fl as int);
            }
            return None;
        }
        den = den * 10;
        k = k + 1;
    }
    // num = int_val * den + frac_val, each step checked
    proof {
        lemma_fundamental_div_mod(u64::MAX as int, den as int);
    }
    if int_val > u64::MAX / den {
        proof {
            assert((u64::MAX as int / den as int + 1) * den as int == u64::MAX as int
                / den as int * den as int + den as int) by (nonlinear_arith);
            lemma_mul_inequality(u64::MAX as int / den as int + 1, int_val as int, den as int);
        }
        return None;
    }
    proof {
        lemma_mul_inequality(int_val as int, u64::MAX as int / den as int, den as int);
    }
    let hi = int_val * den;
    if frac_val > u64::MAX - hi {
        return None;
    }
    Some(Frac { num: hi + frac_val, den })
}

/// The resolved, validated run configuration.
#[derive(Clone, Copy, Debug, PartialEq, Eq, Structural)]
pub struct TrainConfig {
    pub verbose: bool,
    pub save: bool,
    pub adaptive: bool,
    pub epochs: usize,
    pub batch_size: usize,
    pub rate: Frac,
}

/// Every given flag parses, the counts are positive, the batch fits the
/// training set, and the rate is positive.
pub open spec fn config_ok(
    epochs_arg: Option<Seq<u8>>,
    batch_arg: Option<Seq<u8>>,
    rate_arg: Option<Seq<u8>>,
    train_size: int,
) -> bool {
    &&& (match epochs_arg {
        None => true,
        Some(s) => s.len() >= 1 && all_digits(s) && 1 <= digits_value(s) <= usize::MAX,
    })
    &&& (match batch_arg {
        None => 10 <= train_size,
        Some(s) => s.len() >= 1 && all_digits(s) && 1 <= digits_value(s) <= train_size,
    })
    &&& (match rate_arg {
        None => true,
        Some(s) => decimal_shape(s) && 1 <= decimal_num(s) <= u64::MAX && decimal_den(s)
            <= u64::MAX,
    })
}

/// Resolve the run configuration. Absent flags default to 50 epochs,
/// batch size 10 and rate one half; any invalid flag is a fatal
/// configuration error before training starts, as is a batch size
/// exceeding the training set.
pub fn resolve_config(
    verbose: bool,
    save: bool,
    adaptive: bool,
    epochs_arg: Option<&Vec<u8>>,
    batch_arg: Option<&Vec<u8>>,
    rate_arg: Option<&Vec<u8>>,
    train_size: usize,
) -> (r: Result<TrainConfig, CoreError>)
    ensures
        match r {
            Ok(cfg) => {
                &&& config_ok(
                    match epochs_arg {
                        None => None,
                        Some(s) => Some(s@),
                    },
                    match batch_arg {
                        None => None,
                        Some(s) => Some(s@),
                    },
                    match rate_arg {
                        None => None,
                        Some(s) => Some(s@),
                    },
                    train_size as int,
                )
                &&& cfg.verbose == verbose
                &&& cfg.save == save
                &&& cfg.adaptive == adaptive
                &&& (match epochs_arg {
                    None => cfg.epochs == 50,
                    Some(s) => cfg.epochs == digits_value(s@),
                })
                &&& (match batch_arg {
                    None => cfg.batch_size == 10,
                    Some(s) => cfg.batch_size == digits_value(s@),
                })
                &&& (match rate_arg {
                    None => cfg.rate == (Frac { num: 1, den: 2 }),
                    Some(s) => cfg.rate.num == decimal_num(s@) && cfg.rate.den == decimal_den(s@),
                })
                &&& cfg.epochs >= 1
                &&& 1 <= cfg.batch_size <= train_size
                &&& cfg.rate.wf()
                &&& cfg.rate.num >= 1
            },
            Err(e) => {
                &&& !config_ok(
                    match epochs_arg {
                        None => None,
                        Some(s) => Some(s@),
                    },
                    match batch_arg {
                        None => None,
                        Some(s) => Some(s@),
                    },
                    match rate_arg {
                        None => None,
                        Some(s) => Some(s@),
                    },
                    train_size as int,
                )
                &&& (e == CoreError::InvalidNumber || e == CoreError::SizeMismatch)
            },
        },
{
    let epochs: usize = match epochs_arg {
        None => 50,
        Some(s) => match parse_u64(s) {
            Some(v) => {
                if v == 0 || v > usize::MAX as u64 {
                    return Err(CoreError::InvalidNumber);
                }
                v as usize
            },
            None => {
                return Err(CoreError::InvalidNumber);
            },
        },
    };
    let batch_size: usize = match batch_arg {
        None => 10,
        Some(s) => match parse_u64(s) {
            Some(v) => {
                if v == 0 {
                    return Err(CoreError::InvalidNumber);
                }
                if v > usize::MAX as u64 || v as usize > train_size {
                    return Err(CoreError::SizeMismatch);
                }
                v as usize
            },
            None => {
                return Err(CoreError::InvalidNumber);
            },
        },
    };
    if batch_arg.is_none() && train_size < 10 {
        return Err(CoreError::SizeMismatch);
    }
    let rate: Frac = match rate_arg {
        None => Frac { num: 1, den: 2 },
        Some(s) => match parse_decimal(s) {
            Some(f) => {
                if f.num == 0 {
                    return Err(CoreError::InvalidNumber);
                }
                f
            },
            None => {
                return Err(CoreError::InvalidNumber);
            },
        },
    };
    Ok(TrainConfig { verbose, save, adaptive, epochs, batch_size, rate })
}

} // verus!
