//! Decimal rendering and parsing of the integers that appear in tool
//! output: exit codes, block counts, file counts, HTTP status codes.

use vstd::prelude::*;

verus! {

/// Decimal digits of `n`, most significant first, no sign, no padding.
pub open spec fn dec_digits(n: nat) -> Seq<u8>
    decreases n,
{
    if n < 10 {
        seq![(48 + n) as u8]
    } else {
        dec_digits(n / 10) + seq![(48 + n % 10) as u8]
    }
}

/// Decimal form of a signed value: a minus sign for negatives, then digits.
pub open spec fn dec_int(v: int) -> Seq<u8> {
    if v < 0 {
        seq![45u8] + dec_digits((-v) as nat)
    } else {
        dec_digits(v as nat)
    }
}

/// Render `n` in decimal.
pub fn fmt_u64(n: u64) -> (r: Vec<u8>)
    ensures
        r@ == dec_digits(n as nat),
    decreases n,
{
    if n < 10 {
        let mut v: Vec<u8> = Vec::new();
        v.push((48 + n) as u8);
        proof {
            assert(v@ =~= dec_digits(n as nat));
        }
        v
    } else {
        let mut v = fmt_u64(n / 10);
        v.push((48 + n % 10) as u8);
        proof {
            assert(v@ =~= dec_digits((n / 10) as nat) + seq![(48 + n % 10) as u8]);
        }
        v
    }
}

/// Render `v` in decimal, with a leading minus sign when negative.
pub fn fmt_i32(v: i32) -> (r: Vec<u8>)
    ensures
        r@ == dec_int(v as int),
{
    if v < 0 {
        let m: u64 = (-(v as i64)) as u64;
        let mut out: Vec<u8> = Vec::new();
        out.push(45);
        let digits = fmt_u64(m);
        crate::text::push_all(&mut out, digits.as_slice());
        proof {
            assert(out@ =~= dec_int(v as int));
        }
        out
    } else {
        fmt_u64(v as u64)
    }
}

/// Every byte is an ASCII digit.
pub open spec fn all_digits(s: Seq<u8>) -> bool {
    forall|i: int| 0 <= i < s.len() ==> 48 <= #[trigger] s[i] <= 57
}

/// The value of a digit string, read left to right.
pub open spec fn digits_val(s: Seq<u8>) -> int
    decreases s.len(),
{
    if s.len() == 0 {
        0
    } else {
        digits_val(s.take(s.len() - 1)) * 10 + (s[s.len() - 1] - 48)
    }
}

/// What `str::parse::<i32>` accepts: an optional sign, one or more digits,
/// and a value within the range of the type.
pub open spec fn parse_i32_spec(s: Seq<u8>) -> Option<i32> {
    let signed = s.len() > 0 && (s[0] == 43 || s[0] == 45);
    let ds = if signed {
        s.skip(1)
    } else {
        s
    };
    if ds.len() == 0 || !all_digits(ds) {
        None
    } else {
        let m = digits_val(ds);
        let v = if s.len() > 0 && s[0] == 45 {
            -m
        } else {
            m
        };
        if i32::MIN <= v <= i32::MAX {
            Some(v as i32)
        } else {
            None
        }
    }
}

proof fn lemma_digits_val_nonneg(s: Seq<u8>)
    requires
        all_digits(s),
    ensures
        digits_val(s) >= 0,
    decreases s.len(),
{
    if s.len() > 0 {
        assert(all_digits(s.take(s.len() - 1))) by {
            assert(forall|i: int|
                0 <= i < s.len() - 1 ==> s.take(s.len() - 1)[i] == s[i]);
        }
        lemma_digits_val_nonneg(s.take(s.len() - 1));
    }
}

/// Parse a decimal integer as `str::parse::<i32>` would: an optional
/// sign, then digits; anything else, or a value out of range, is `None`.
pub fn parse_i32(s: &[u8]) -> (r: Option<i32>)
    ensures
        r == parse_i32_spec(s@),
{
    let ghost signed = s@.len() > 0 && (s@[0] == 43 || s@[0] == 45);
    let start: usize = if s.len() > 0 && (s[0] == 43 || s[0] == 45) {
        1
    } else {
        0
    };
    let ghost ds = if signed {
        s@.skip(1)
    } else {
        s@
    };
    proof {
        assert(ds =~= s@.skip(start as int));
    }
    if s.len() == start {
        return None;
    }
    let n = s.len();
    let mut acc: u64 = 0;
    let mut big = false;
    let mut i: usize = start;
    while i < n
        invariant
            start <= i <= n == s@.len(),
            start <= 1,
            signed == (s@.len() > 0 && (s@[0] == 43 || s@[0] == 45)),
            ds == (if signed {
                s@.skip(1)
            } else {
                s@
            }),
            start == (if signed {
                1usize
            } else {
                0usize
            }),
            ds == s@.skip(start as int),
            forall|k: int| 0 <= k < i - start ==> 48 <= #[trigger] ds[k] <= 57,
            !big ==> acc == digits_val(ds.take(i - start)) && acc <= 0xffff_ffff,
            big ==> digits_val(ds.take(i - start)) > 0xffff_ffff,
            big ==> all_digits(ds.take(i - start)),
        decreases n - i,
    {
        let b = s[i];
        if b < 48 || b > 57 {
            proof {
                assert(ds[i - start] == s@[i as int]);
                assert(!all_digits(ds));
            }
            return None;
        }
        proof {
            assert(ds[i - start] == s@[i as int]);
            let p = ds.take(i - start + 1);
            assert(p.take(i - start) =~= ds.take(i - start));
            assert(digits_val(p) == digits_val(ds.take(i - start)) * 10 + (ds[i - start] - 48));
            if big {
                assert(forall|k: int| 0 <= k < p.len() ==> 48 <= #[trigger] p[k] <= 57);
                lemma_digits_val_nonneg(p.take(i - start));
            }
        }
        if big {
        } else if acc > 0xffff_ffff / 10 || (acc == 0xffff_ffff / 10 && ((b - 48) as u64) > 0xffff_ffffu64 % 10) {
            big = true;
            proof {
                let p = ds.take(i - start + 1);
                assert(digits_val(p) > 0xffff_ffff);
                assert(forall|k: int| 0 <= k < p.len() ==> 48 <= #[trigger] p[k] <= 57);
            }
        } else {
            acc = acc * 10 + ((b - 48) as u64);
        }
        i = i + 1;
    }
    proof {
        assert(ds.take(n - start) =~= ds);
        assert(all_digits(ds));
    }
    let negative = start == 1 && s[0] == 45;
    if big {
        proof {
            assert(digits_val(ds) > 0xffff_ffff);
        }
        return None;
    }
    if negative {
        if acc > 2147483648 {
            return None;
        }
        if acc == 2147483648 {
            return Some(i32::MIN);
        }
        return Some(-(acc as i32));
    }
    if acc > 2147483647 {
        return None;
    }
    Some(acc as i32)
}

} // verus!
