//! Verified clock arithmetic over UTC-millisecond timestamps.

use vstd::prelude::*;
use vstd::arithmetic::div_mod::{
    lemma_fundamental_div_mod, lemma_mod_division_less_than_divisor,
};
use crate::types::MAX_ABS_TIMESTAMP;

verus! {

pub const MILLIS_PER_DAY: i64 = 86_400_000;

pub const MILLIS_PER_MINUTE: i64 = 60_000;

/// Minute of the day (0 to 1439) of a UTC-millisecond instant,
/// by Euclidean arithmetic so that instants before 1970 work too.
pub open spec fn minute_of_day_spec(ts: int) -> int {
    (ts % (MILLIS_PER_DAY as int)) / (MILLIS_PER_MINUTE as int)
}

/// Lower bound of the bucket of width `interval` that `ts` falls in.
pub open spec fn bucket_start_spec(ts: int, interval: int) -> int {
    (ts / interval) * interval
}

pub fn minute_of_day(ts: i64) -> (m: u32)
    ensures
        m == minute_of_day_spec(ts as int),
        m < 1440,
{
    proof {
        lemma_mod_division_less_than_divisor(ts as int, MILLIS_PER_DAY as int);
    }
    let r: i64 = match ts.checked_rem_euclid(MILLIS_PER_DAY) {
        Some(x) => x,
        None => 0,
    };
    assert(r == ts as int % (MILLIS_PER_DAY as int));
    assert(0 <= r < MILLIS_PER_DAY);
    let m: i64 = match r.checked_div_euclid(MILLIS_PER_MINUTE) {
        Some(x) => x,
        None => 0,
    };
    assert(0 <= m < 1440) by {
        assert(m == r as int / (MILLIS_PER_MINUTE as int));
        assert(r as int / (MILLIS_PER_MINUTE as int) * (MILLIS_PER_MINUTE as int) <= r as int)
            by {
            lemma_fundamental_div_mod(r as int, MILLIS_PER_MINUTE as int);
            lemma_mod_division_less_than_divisor(r as int, MILLIS_PER_MINUTE as int);
        }
    }
    m as u32
}

pub fn bucket_start(ts: i64, interval: i64) -> (b: i64)
    requires
        1 <= interval <= MAX_ABS_TIMESTAMP,
        -MAX_ABS_TIMESTAMP <= ts <= MAX_ABS_TIMESTAMP,
    ensures
        b == bucket_start_spec(ts as int, interval as int),
        ts - interval < b <= ts,
        b as int % (interval as int) == 0,
{
    proof {
        lemma_fundamental_div_mod(ts as int, interval as int);
        lemma_mod_division_less_than_divisor(ts as int, interval as int);
        let qq = ts as int / (interval as int);
        let rr = ts as int % (interval as int);
        assert(ts as int == interval as int * qq + rr);
        assert(0 <= rr < interval as int);
        assert(-MAX_ABS_TIMESTAMP <= qq <= MAX_ABS_TIMESTAMP) by (nonlinear_arith)
            requires
                ts as int == interval as int * qq + rr,
                0 <= rr < interval as int,
                1 <= interval as int,
                -MAX_ABS_TIMESTAMP <= ts as int <= MAX_ABS_TIMESTAMP,
        {
        }
    }
    let q: i64 = match ts.checked_div_euclid(interval) {
        Some(x) => x,
        None => 0,
    };
    assert(q == ts as int / (interval as int));
    assert(q * interval == ts - ts as int % (interval as int)) by {
        lemma_fundamental_div_mod(ts as int, interval as int);
        assert(ts as int == interval as int * (ts as int / (interval as int)) + ts as int % (
        interval as int));
        vstd::arithmetic::mul::lemma_mul_is_commutative(
            ts as int / (interval as int),
            interval as int,
        );
    }
    let b: i64 = q * interval;
    assert(b as int % (interval as int) == 0) by {
        vstd::arithmetic::div_mod::lemma_mod_multiples_basic(q as int, interval as int);
    }
    b
}

} // verus!
