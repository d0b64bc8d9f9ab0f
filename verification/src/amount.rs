use vstd::prelude::*;
use crate::util::{
    all_digits, digits_val, find_byte, lemma_digits_val_bound, lemma_find_byte, parse_uint, pow10,
    scan_byte, spec_parse_uint, B_DOT,
};

verus! {

/// A monetary value held exactly, as a count of ten-thousandths
/// (the smallest unit of the four-decimal input format).
#[derive(Clone, Copy, PartialEq, Eq, Structural, Debug)]
pub struct Amount {
    pub units: u64,
}

/// Largest integer part whose scaling by ten thousand fits in `u64`.
pub const MAX_WHOLE: u64 = 1844674407370955;

/// Value in ten-thousandths denoted by a decimal field: digits, at most one
/// dot, at most four fractional digits, at least one digit in all.
pub open spec fn spec_parse_amount(s: Seq<u8>) -> Option<nat> {
    let d = find_byte(s, B_DOT);
    if d == -1 {
        if s.len() > 0 && all_digits(s) {
            Some(digits_val(s) * 10000)
        } else {
            None
        }
    } else {
        let ip = s.take(d);
        let fp = s.skip(d + 1);
        if all_digits(ip) && all_digits(fp) && fp.len() <= 4 && ip.len() + fp.len() > 0 {
            Some(digits_val(ip) * 10000 + digits_val(fp) * pow10((4 - fp.len()) as nat))
        } else {
            None
        }
    }
}

/// Same, restricted to values that fit the `Amount` representation.
pub open spec fn spec_parse_amount_units(s: Seq<u8>) -> Option<u64> {
    match spec_parse_amount(s) {
        Option::Some(v) => if v <= u64::MAX {
            Some(v as u64)
        } else {
            None
        },
        Option::None => None,
    }
}

pub proof fn lemma_pow10_vals()
    ensures
        pow10(0) == 1,
        pow10(1) == 10,
        pow10(2) == 100,
        pow10(3) == 1000,
        pow10(4) == 10000,
{
    assert(pow10(0) == 1);
    assert(pow10(1) == 10);
    assert(pow10(2) == 100);
    assert(pow10(3) == 1000);
    assert(pow10(4) == 10000);
}

fn pow10_small(k: usize) -> (r: u64)
    requires
        k <= 4,
    ensures
        r == pow10(k as nat),
        1 <= r <= 10000,
{
    proof {
        lemma_pow10_vals();
    }
    match k {
        0 => 1,
        1 => 10,
        2 => 100,
        3 => 1000,
        _ => 10000,
    }
}

/// Parses a decimal amount field; `None` when the field is not a valid
/// non-negative decimal with at most four fractional digits, or does not fit.
pub fn parse_amount(s: &[u8]) -> (r: Option<Amount>)
    ensures
        match spec_parse_amount_units(s@) {
            Option::Some(u) => r == Some(Amount { units: u }),
            Option::None => r is None,
        },
{
    proof {
        assert(s@.skip(0) =~= s@);
    }
    match scan_byte(s, 0, B_DOT) {
        Option::None => {
            match parse_uint(s) {
                Option::None => {
                    proof {
                        if spec_parse_uint(s@) is Some {
                            let v = spec_parse_uint(s@)->Some_0;
                            assert(v > u64::MAX);
                            assert(v * 10000 >= v);
                        }
                    }
                    None
                },
                Option::Some(u) => {
                    if u > MAX_WHOLE {
                        proof {
                            assert(u >= MAX_WHOLE + 1);
                            assert(u * 10000 >= (MAX_WHOLE + 1) * 10000);
                        }
                        None
                    } else {
                        proof {
                            assert(u * 10000 <= MAX_WHOLE * 10000) by (nonlinear_arith)
                                requires
                                    u <= MAX_WHOLE,
                            ;
                        }
                        Some(Amount { units: u * 10000 })
                    }
                },
            }
        },
        Option::Some(d) => {
            let n: usize = s.len();
            let ip: &[u8] = vstd::slice::slice_subrange(s, 0, d);
            let fp: &[u8] = vstd::slice::slice_subrange(s, d + 1, n);
            proof {
                assert(ip@ =~= s@.take(d as int));
                assert(fp@ =~= s@.skip(d + 1));
            }
            if ip.len() == 0 && fp.len() == 0 {
                return None;
            }
            if fp.len() > 4 {
                return None;
            }
            let ipv: u64 = if ip.len() == 0 {
                0
            } else {
                match parse_uint(ip) {
                    Option::None => {
                        proof {
                            if spec_parse_uint(ip@) is Some {
                                let v = spec_parse_uint(ip@)->Some_0;
                                assert(v > u64::MAX);
                                assert(v * 10000 >= v);
                            }
                        }
                        return None;
                    },
                    Option::Some(v) => v,
                }
            };
            let fpv: u64 = if fp.len() == 0 {
                0
            } else {
                match parse_uint(fp) {
                    Option::None => {
                        proof {
                            if all_digits(fp@) {
                                lemma_digits_val_bound(fp@);
                                lemma_pow10_vals();
                                crate::util::lemma_pow10_le(fp@.len(), 4);
                            }
                        }
                        return None;
                    },
                    Option::Some(v) => v,
                }
            };
            proof {
                lemma_digits_val_bound(fp@);
                lemma_pow10_vals();
                crate::util::lemma_pow10_le(fp@.len(), 4);
            }
            let scale: u64 = pow10_small(4 - fp.len());
            proof {
                crate::util::lemma_pow10_adds(fp@.len(), (4 - fp@.len()) as nat);
                assert(fpv * scale <= 9999) by (nonlinear_arith)
                    requires
                        fpv < pow10(fp@.len()),
                        scale == pow10((4 - fp@.len()) as nat),
                        pow10(fp@.len()) * pow10((4 - fp@.len()) as nat) == 10000,
                        scale >= 1,
                ;
            }
            if ipv > MAX_WHOLE {
                proof {
                    assert(ipv >= MAX_WHOLE + 1);
                    assert(ipv * 10000 >= (MAX_WHOLE + 1) * 10000);
                }
                return None;
            }
            proof {
                assert(ipv * 10000 <= MAX_WHOLE * 10000) by (nonlinear_arith)
                    requires
                        ipv <= MAX_WHOLE,
                ;
            }
            let hi: u64 = ipv * 10000;
            let frac: u64 = fpv * scale;
            if hi > u64::MAX - frac {
                return None;
            }
            Some(Amount { units: hi + frac })
        },
    }
}

} // verus!
