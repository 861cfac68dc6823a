//! Size resolver: converts a human-readable size expression such as
//! `"256M"` or `"3GB"` into an exact byte count. Unit multipliers are
//! binary (1024-based).

use vstd::prelude::*;

use crate::Error;

verus! {

/// Whether `c` is a decimal digit.
pub open spec fn is_digit(c: char) -> bool {
    '0' as u32 <= c as u32 && c as u32 <= '9' as u32
}

/// The value of a decimal digit.
pub open spec fn digit_val(c: char) -> nat
    recommends
        is_digit(c),
{
    (c as u32 - '0' as u32) as nat
}

/// The value of a sequence of decimal digits, most significant first.
pub open spec fn digits_val(s: Seq<char>) -> nat
    decreases s.len(),
{
    if s.len() == 0 {
        0
    } else {
        digits_val(s.drop_last()) * 10 + digit_val(s.last())
    }
}

/// Whether every character of `s` is a decimal digit.
pub open spec fn all_digits(s: Seq<char>) -> bool {
    forall|i: int| 0 <= i < s.len() ==> is_digit(s[i])
}

/// Whether `c` is the optional trailing byte marker `B`, either case.
pub open spec fn is_b(c: char) -> bool {
    c == 'B' || c == 'b'
}

/// The power of 1024 that a unit letter denotes, if `c` is one,
/// either case: `K`, `M`, `G` or `T`.
pub open spec fn unit_exp(c: char) -> Option<nat> {
    if c == 'K' || c == 'k' {
        Some(1 as nat)
    } else if c == 'M' || c == 'm' {
        Some(2 as nat)
    } else if c == 'G' || c == 'g' {
        Some(3 as nat)
    } else if c == 'T' || c == 't' {
        Some(4 as nat)
    } else {
        None
    }
}

/// `s` with at most one trailing `B` stripped.
pub open spec fn strip_b(s: Seq<char>) -> Seq<char> {
    if s.len() > 0 && is_b(s.last()) {
        s.drop_last()
    } else {
        s
    }
}

/// The numeric prefix of `s`: what remains after stripping at most one
/// trailing `B` and then at most one unit letter.
pub open spec fn number_part(s: Seq<char>) -> Seq<char> {
    let t = strip_b(s);
    if t.len() > 0 && unit_exp(t.last()) is Some {
        t.drop_last()
    } else {
        t
    }
}

/// The power of 1024 denoted by the suffix of `s`: 0 when no unit letter
/// is present.
pub open spec fn exp_part(s: Seq<char>) -> nat {
    let t = strip_b(s);
    if t.len() > 0 && unit_exp(t.last()) is Some {
        unit_exp(t.last()).unwrap()
    } else {
        0
    }
}

/// 1024 raised to the power `e`, for the exponents a unit letter can denote.
pub open spec fn multiplier(e: nat) -> nat {
    if e == 0 {
        1
    } else if e == 1 {
        1024
    } else if e == 2 {
        1048576
    } else if e == 3 {
        1073741824
    } else {
        1099511627776
    }
}

/// Whether `s` is a well-formed size expression: a nonempty run of digits
/// followed by the optional suffix.
pub open spec fn size_well_formed(s: Seq<char>) -> bool {
    number_part(s).len() > 0 && all_digits(number_part(s))
}

/// The byte count a well-formed size expression denotes.
pub open spec fn size_value(s: Seq<char>) -> nat
    recommends
        size_well_formed(s),
{
    digits_val(number_part(s)) * multiplier(exp_part(s))
}

/// Parse a size expression: decimal digits followed by an optional unit
/// suffix (`K`/`KB`, `M`/`MB`, `G`/`GB`, `T`/`TB`, case-insensitive; no
/// suffix means raw bytes), yielding the byte count with binary (1024-based)
/// unit multipliers.
pub fn parse_size(size: &str) -> (r: Result<u128, Error>)
    ensures
        !size_well_formed(size@) ==> r == Err::<u128, Error>(Error::InvalidSizeFormat),
        size_well_formed(size@) && size_value(size@) > u128::MAX ==> r == Err::<u128, Error>(
            Error::SizeOverflow,
        ),
        size_well_formed(size@) && size_value(size@) <= u128::MAX ==> r == Ok::<u128, Error>(
            size_value(size@) as u128,
        ),
{
    let n = size.unicode_len();
    let mut end = n;

    // Strip at most one trailing byte marker `B`.
    if end > 0 {
        let c = size.get_char(end - 1);
        if c == 'B' || c == 'b' {
            end = end - 1;
        }
    }
    proof {
        assert(size@.subrange(0, end as int) =~= strip_b(size@));
    }

    // Strip at most one unit letter and record its power of 1024.
    let mut exp: u32 = 0;
    if end > 0 {
        let c = size.get_char(end - 1);
        if c == 'K' || c == 'k' {
            exp = 1;
            end = end - 1;
        } else if c == 'M' || c == 'm' {
            exp = 2;
            end = end - 1;
        } else if c == 'G' || c == 'g' {
            exp = 3;
            end = end - 1;
        } else if c == 'T' || c == 't' {
            exp = 4;
            end = end - 1;
        }
    }
    proof {
        assert(size@.subrange(0, end as int) =~= number_part(size@));
        assert(exp as nat == exp_part(size@));
    }

    if end == 0 {
        return Err(Error::InvalidSizeFormat);
    }

    // Accumulate the digit run; once the accumulator would overflow, keep
    // scanning so that a malformed character is still reported as such.
    let mut acc: u128 = 0;
    let mut overflow: bool = false;
    let mut i: usize = 0;
    while i < end
        invariant
            0 < end <= size@.len(),
            i <= end,
            size@.subrange(0, end as int) == number_part(size@),
            all_digits(size@.subrange(0, i as int)),
            !overflow ==> acc as nat == digits_val(size@.subrange(0, i as int)),
            overflow ==> digits_val(size@.subrange(0, i as int)) > u128::MAX,
        decreases end - i,
    {
        let c = size.get_char(i);
        let u = c as u32;
        if u < 48 || u > 57 {
            proof {
                assert(number_part(size@)[i as int] == c);
                assert(!is_digit(c));
            }
            return Err(Error::InvalidSizeFormat);
        }
        let d = (u - 48) as u128;
        proof {
            let prev = size@.subrange(0, i as int);
            let cur = size@.subrange(0, i + 1);
            assert(cur.drop_last() =~= prev);
            assert(cur.last() == c);
            assert(digits_val(cur) == digits_val(prev) * 10 + digit_val(c));
            assert(d as nat == digit_val(c));
        }
        if !overflow {
            match acc.checked_mul(10) {
                Some(t) => {
                    match t.checked_add(d) {
                        Some(v) => {
                            acc = v;
                        },
                        None => {
                            overflow = true;
                        },
                    }
                },
                None => {
                    overflow = true;
                },
            }
        } else {
            proof {
                let prev = size@.subrange(0, i as int);
                let cur = size@.subrange(0, i + 1);
                assert(digits_val(prev) <= digits_val(prev) * 10 + digit_val(c));
            }
        }
        proof {
            assert(size@.subrange(0, i + 1).drop_last() =~= size@.subrange(0, i as int));
        }
        i = i + 1;
    }
    proof {
        assert(size@.subrange(0, i as int) =~= number_part(size@));
        assert(size_well_formed(size@));
    }

    let mult: u128 = if exp == 0 {
        1
    } else if exp == 1 {
        1024
    } else if exp == 2 {
        1048576
    } else if exp == 3 {
        1073741824
    } else {
        1099511627776
    };
    proof {
        assert(mult as nat == multiplier(exp_part(size@)));
    }

    if overflow {
        proof {
            let num = number_part(size@);
            assert(digits_val(num) > u128::MAX);
            assert(digits_val(num) <= digits_val(num) * (mult as nat)) by (nonlinear_arith)
                requires
                    mult >= 1,
            ;
        }
        return Err(Error::SizeOverflow);
    }

    match acc.checked_mul(mult) {
        Some(v) => Ok(v),
        None => Err(Error::SizeOverflow),
    }
}

} // verus!
