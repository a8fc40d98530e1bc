//! When two servers go by one name.
//!
//! A name is made of digits that are each four bits of a number, and the numbers
//! follow each other by a multiplication and an addition. Two such rows of
//! numbers that show the same digits are apart by less than the bits below the
//! digits in every place, and what lies between them is multiplied from place to
//! place by the same factor. There are short sums of such differences that are
//! multiples of the modulus whatever the first of them is. A sum that is short
//! is then nothing, and enough of them leave nothing between the two rows.

use vstd::prelude::*;

use super::{digits_of, first_seed, name_of, next_seed, seed_at};
use crate::json::hex_digit;

verus! {

/// What the digits of a name depend on: a seed, as far as this.
pub const NAMES: u64 = 0x20_0000_0000;

/// The bits of a seed below a digit.
const BELOW: u64 = 0x2_0000_0000;

/// What the multiplication comes to, as far as the digits depend on it.
const FACTOR: u64 = 57119440685;

/// How far two rows of seeds are apart in a place, as far as the digits depend
/// on it.
spec fn apart(x: u64, y: u64, i: int) -> int {
    seed_at(x, (i + 1) as nat) % NAMES - seed_at(y, (i + 1) as nat) % NAMES
}

/// Whether two rows of seeds are apart by less than the bits below a digit.
spec fn close(x: u64, y: u64, i: int) -> bool {
    -BELOW < apart(x, y, i) < BELOW
}

/// A seed follows another by a multiplication and an addition, as far as the
/// digits depend on it.
proof fn lemma_next(a: u64, b: u64) -> (k: int)
    ensures
        next_seed(a) % NAMES - next_seed(b) % NAMES == FACTOR * (a % NAMES - b % NAMES)
            + NAMES * k,
{
    let wide: int = 0x1_0000_0000_0000_0000;
    let full: int = 6364136223846793005;
    let pa = a * full + 1442695040888963407;
    let pb = b * full + 1442695040888963407;
    let na = next_seed(a) as int;
    let nb = next_seed(b) as int;
    assert(pa == wide * (pa / wide) + na);
    assert(pb == wide * (pb / wide) + nb);
    assert(na == NAMES * (na / NAMES as int) + na % NAMES as int);
    assert(nb == NAMES * (nb / NAMES as int) + nb % NAMES as int);
    let ma = a as int / NAMES as int;
    let mb = b as int / NAMES as int;
    assert(a == NAMES * ma + a % NAMES);
    assert(b == NAMES * mb + b % NAMES);
    let k = full * (ma - mb) + 46305185 * (a % NAMES - b % NAMES) - 134217728 * (pa / wide
        - pb / wide) - (na
        / NAMES as int - nb / NAMES as int);
    k
}

/// How far two rows are apart in a place follows from how far they are apart in
/// an earlier one: a multiple of it, as far as the digits depend on it.
proof fn lemma_further(x: u64, y: u64, n: int, i: int, b: int, k: int, c: int,
    over: int) -> (r: int)
    requires
        0 <= n,
        0 <= i,
        apart(x, y, n + i) == b * apart(x, y, n) + NAMES * k,
        FACTOR * b == NAMES * over + c,
    ensures
        apart(x, y, n + i + 1) == c * apart(x, y, n) + NAMES * r,
{
    let step = lemma_next(seed_at(x, (n + i + 1) as nat), seed_at(y, (n + i + 1) as nat));
    let d = apart(x, y, n);
    let r = FACTOR * k + over * d + step;
    assert(FACTOR * (b * d + NAMES * k) == (FACTOR * b) * d + NAMES * (FACTOR * k))
        by (nonlinear_arith);
    assert((NAMES * over + c) * d == NAMES * (over * d) + c * d) by (nonlinear_arith);
    r
}

/// The first of the sums is nothing where what it adds up is small.
proof fn lemma_first_sum(
    d0: int,
    d2: int,
    d4: int,
    d6: int,
    d7: int,
    d8: int,
    d9: int,
    d10: int,
    d12: int,
    d13: int,
    d15: int,
    k2: int,
    k4: int,
    k6: int,
    k7: int,
    k8: int,
    k9: int,
    k10: int,
    k12: int,
    k13: int,
    k15: int,
)
    requires
        d2 == 8616127977 * d0 + NAMES * k2,
        d4 == 15341895185 * d0 + NAMES * k4,
        d6 == 69010946681 * d0 + NAMES * k6,
        d7 == 19863670341 * d0 + NAMES * k7,
        d8 == 134087785761 * d0 + NAMES * k8,
        d9 == 71420616141 * d0 + NAMES * k9,
        d10 == 131266965513 * d0 + NAMES * k10,
        d12 == 845516081 * d0 + NAMES * k12,
        d13 == 51378790557 * d0 + NAMES * k13,
        d15 == 50790189029 * d0 + NAMES * k15,
        -BELOW < d0 < BELOW,
        -BELOW < d2 < BELOW,
        -BELOW < d4 < BELOW,
        -BELOW < d6 < BELOW,
        -BELOW < d7 < BELOW,
        -BELOW < d8 < BELOW,
        -BELOW < d9 < BELOW,
        -BELOW < d10 < BELOW,
        -BELOW < d12 < BELOW,
        -BELOW < d13 < BELOW,
        -BELOW < d15 < BELOW,
    ensures
        2 * d0 + d2 - d4 - d6 + d7 - d8 + d9 + d10 + 4 * d12 - 2 * d13 - d15 == 0,
{
    let w = -1 * d0 + k2 - k4 - k6 + k7 - k8 + k9 + k10 + 4 * k12 - 2 * k13 - k15;
    assert(2 * d0 + d2 - d4 - d6 + d7 - d8 + d9 + d10 + 4 * d12 - 2 * d13 - d15 == NAMES * w);
}

proof fn lemma_first(x: u64, y: u64, n: int)
    requires
        0 <= n,
        forall|i: int| n <= i < n + 16 ==> #[trigger] close(x, y, i),
    ensures
        2 * apart(x, y, n) + apart(x, y, n + 2) - apart(x, y, n + 4) - apart(x, y, n + 6)
            + apart(x, y, n + 7) - apart(x, y, n + 8) + apart(x, y, n + 9) + apart(x, y, n
            + 10) + 4 * apart(x, y, n + 12) - 2 * apart(x, y, n + 13) - apart(x, y, n + 15) == 0,
{
    let k1 = lemma_further(x, y, n, 0, 1, 0, 57119440685, 0);
    let k2 = lemma_further(x, y, n, 1, 57119440685, k1, 8616127977, 23738761259);
    let k3 = lemma_further(x, y, n, 2, 8616127977, k2, 98551802101, 3580850977);
    let k4 = lemma_further(x, y, n, 3, 98551802101, k3, 15341895185, 40957993875);
    let k5 = lemma_further(x, y, n, 4, 15341895185, k4, 113117943805, 6376070610);
    let k6 = lemma_further(x, y, n, 5, 113117943805, k5, 69010946681, 47011662402);
    let k7 = lemma_further(x, y, n, 6, 69010946681, k6, 19863670341, 28680854852);
    let k8 = lemma_further(x, y, n, 7, 19863670341, k7, 134087785761, 8255314167);
    let k9 = lemma_further(x, y, n, 8, 134087785761, k8, 71420616141, 55726699977);
    let k10 = lemma_further(x, y, n, 9, 71420616141, k9, 131266965513, 29682310176);
    let k11 = lemma_further(x, y, n, 10, 131266965513, k10, 103343564949, 54554370948);
    let k12 = lemma_further(x, y, n, 11, 103343564949, k11, 845516081, 42949443947);
    let k13 = lemma_further(x, y, n, 12, 845516081, k12, 51378790557, 351395324);
    let k14 = lemma_further(x, y, n, 13, 51378790557, k13, 23860780697, 21352954934);
    let k15 = lemma_further(x, y, n, 14, 23860780697, k14, 50790189029, 9916507753);
    assert(close(x, y, n));
    assert(close(x, y, n + 2));
    assert(close(x, y, n + 4));
    assert(close(x, y, n + 6));
    assert(close(x, y, n + 7));
    assert(close(x, y, n + 8));
    assert(close(x, y, n + 9));
    assert(close(x, y, n + 10));
    assert(close(x, y, n + 12));
    assert(close(x, y, n + 13));
    assert(close(x, y, n + 15));
    lemma_first_sum(
        apart(x, y, n),
        apart(x, y, n + 2),
        apart(x, y, n + 4),
        apart(x, y, n + 6),
        apart(x, y, n + 7),
        apart(x, y, n + 8),
        apart(x, y, n + 9),
        apart(x, y, n + 10),
        apart(x, y, n + 12),
        apart(x, y, n + 13),
        apart(x, y, n + 15),
        k2,
        k4,
        k6,
        k7,
        k8,
        k9,
        k10,
        k12,
        k13,
        k15,
    );
}

/// The second of the sums is nothing where what it adds up is small.
proof fn lemma_second_sum(
    d0: int,
    d2: int,
    d5: int,
    d8: int,
    d9: int,
    d12: int,
    d14: int,
    d15: int,
    d16: int,
    d17: int,
    d18: int,
    k2: int,
    k5: int,
    k8: int,
    k9: int,
    k12: int,
    k14: int,
    k15: int,
    k16: int,
    k17: int,
    k18: int,
)
    requires
        d2 == 8616127977 * d0 + NAMES * k2,
        d5 == 113117943805 * d0 + NAMES * k5,
        d8 == 134087785761 * d0 + NAMES * k8,
        d9 == 71420616141 * d0 + NAMES * k9,
        d12 == 845516081 * d0 + NAMES * k12,
        d14 == 23860780697 * d0 + NAMES * k14,
        d15 == 50790189029 * d0 + NAMES * k15,
        d16 == 122563509825 * d0 + NAMES * k16,
        d17 == 5119848557 * d0 + NAMES * k17,
        d18 == 119679751721 * d0 + NAMES * k18,
        -BELOW < d0 < BELOW,
        -BELOW < d2 < BELOW,
        -BELOW < d5 < BELOW,
        -BELOW < d8 < BELOW,
        -BELOW < d9 < BELOW,
        -BELOW < d12 < BELOW,
        -BELOW < d14 < BELOW,
        -BELOW < d15 < BELOW,
        -BELOW < d16 < BELOW,
        -BELOW < d17 < BELOW,
        -BELOW < d18 < BELOW,
    ensures
        d0 - d2 - d5 + d8 - d9 + 2 * d12 + d14 + d15 + d16 + 3 * d17 + d18 == 0,
{
    let w = 2 * d0 - k2 - k5 + k8 - k9 + 2 * k12 + k14 + k15 + k16 + 3 * k17 + k18;
    assert(d0 - d2 - d5 + d8 - d9 + 2 * d12 + d14 + d15 + d16 + 3 * d17 + d18 == NAMES * w);
}

proof fn lemma_second(x: u64, y: u64, n: int)
    requires
        0 <= n,
        forall|i: int| n <= i < n + 19 ==> #[trigger] close(x, y, i),
    ensures
        apart(x, y, n) - apart(x, y, n + 2) - apart(x, y, n + 5) + apart(x, y, n + 8) - apart(x,
            y, n + 9) + 2 * apart(x, y, n + 12) + apart(x, y, n + 14) + apart(x, y, n + 15)
            + apart(x, y, n + 16) + 3 * apart(x, y, n + 17) + apart(x, y, n + 18) == 0,
{
    let k1 = lemma_further(x, y, n, 0, 1, 0, 57119440685, 0);
    let k2 = lemma_further(x, y, n, 1, 57119440685, k1, 8616127977, 23738761259);
    let k3 = lemma_further(x, y, n, 2, 8616127977, k2, 98551802101, 3580850977);
    let k4 = lemma_further(x, y, n, 3, 98551802101, k3, 15341895185, 40957993875);
    let k5 = lemma_further(x, y, n, 4, 15341895185, k4, 113117943805, 6376070610);
    let k6 = lemma_further(x, y, n, 5, 113117943805, k5, 69010946681, 47011662402);
    let k7 = lemma_further(x, y, n, 6, 69010946681, k6, 19863670341, 28680854852);
    let k8 = lemma_further(x, y, n, 7, 19863670341, k7, 134087785761, 8255314167);
    let k9 = lemma_further(x, y, n, 8, 134087785761, k8, 71420616141, 55726699977);
    let k10 = lemma_further(x, y, n, 9, 71420616141, k9, 131266965513, 29682310176);
    let k11 = lemma_further(x, y, n, 10, 131266965513, k10, 103343564949, 54554370948);
    let k12 = lemma_further(x, y, n, 11, 103343564949, k11, 845516081, 42949443947);
    let k13 = lemma_further(x, y, n, 12, 845516081, k12, 51378790557, 351395324);
    let k14 = lemma_further(x, y, n, 13, 51378790557, k13, 23860780697, 21352954934);
    let k15 = lemma_further(x, y, n, 14, 23860780697, k14, 50790189029, 9916507753);
    let k16 = lemma_further(x, y, n, 15, 50790189029, k15, 122563509825, 21108332945);
    let k17 = lemma_further(x, y, n, 16, 122563509825, k16, 5119848557, 50937226694);
    let k18 = lemma_further(x, y, n, 17, 5119848557, k17, 119679751721, 2127802042);
    assert(close(x, y, n));
    assert(close(x, y, n + 2));
    assert(close(x, y, n + 5));
    assert(close(x, y, n + 8));
    assert(close(x, y, n + 9));
    assert(close(x, y, n + 12));
    assert(close(x, y, n + 14));
    assert(close(x, y, n + 15));
    assert(close(x, y, n + 16));
    assert(close(x, y, n + 17));
    assert(close(x, y, n + 18));
    lemma_second_sum(
        apart(x, y, n),
        apart(x, y, n + 2),
        apart(x, y, n + 5),
        apart(x, y, n + 8),
        apart(x, y, n + 9),
        apart(x, y, n + 12),
        apart(x, y, n + 14),
        apart(x, y, n + 15),
        apart(x, y, n + 16),
        apart(x, y, n + 17),
        apart(x, y, n + 18),
        k2,
        k5,
        k8,
        k9,
        k12,
        k14,
        k15,
        k16,
        k17,
        k18,
    );
}

/// The third of the sums is nothing where what it adds up is small.
proof fn lemma_third_sum(
    d0: int,
    d3: int,
    d4: int,
    d10: int,
    d11: int,
    d12: int,
    d13: int,
    d15: int,
    d16: int,
    d18: int,
    d19: int,
    k3: int,
    k4: int,
    k10: int,
    k11: int,
    k12: int,
    k13: int,
    k15: int,
    k16: int,
    k18: int,
    k19: int,
)
    requires
        d3 == 98551802101 * d0 + NAMES * k3,
        d4 == 15341895185 * d0 + NAMES * k4,
        d10 == 131266965513 * d0 + NAMES * k10,
        d11 == 103343564949 * d0 + NAMES * k11,
        d12 == 845516081 * d0 + NAMES * k12,
        d13 == 51378790557 * d0 + NAMES * k13,
        d15 == 50790189029 * d0 + NAMES * k15,
        d16 == 122563509825 * d0 + NAMES * k16,
        d18 == 119679751721 * d0 + NAMES * k18,
        d19 == 79775087669 * d0 + NAMES * k19,
        -BELOW < d0 < BELOW,
        -BELOW < d3 < BELOW,
        -BELOW < d4 < BELOW,
        -BELOW < d10 < BELOW,
        -BELOW < d11 < BELOW,
        -BELOW < d12 < BELOW,
        -BELOW < d13 < BELOW,
        -BELOW < d15 < BELOW,
        -BELOW < d16 < BELOW,
        -BELOW < d18 < BELOW,
        -BELOW < d19 < BELOW,
    ensures
        d0 - d3 - d4 - 2 * d10 - 2 * d11 + d12 + d13 + d15 + 2 * d16 - d18 + d19 == 0,
{
    let w = -2 * d0 - k3 - k4 - 2 * k10 - 2 * k11 + k12 + k13 + k15 + 2 * k16 - k18 + k19;
    assert(d0 - d3 - d4 - 2 * d10 - 2 * d11 + d12 + d13 + d15 + 2 * d16 - d18 + d19 == NAMES * w);
}

proof fn lemma_third(x: u64, y: u64, n: int)
    requires
        0 <= n,
        forall|i: int| n <= i < n + 20 ==> #[trigger] close(x, y, i),
    ensures
        apart(x, y, n) - apart(x, y, n + 3) - apart(x, y, n + 4) - 2 * apart(x, y, n + 10)
            - 2 * apart(x, y, n + 11) + apart(x, y, n + 12) + apart(x, y, n + 13) + apart(x, y,
            n + 15) + 2 * apart(x, y, n + 16) - apart(x, y, n + 18) + apart(x, y, n + 19) == 0,
{
    let k1 = lemma_further(x, y, n, 0, 1, 0, 57119440685, 0);
    let k2 = lemma_further(x, y, n, 1, 57119440685, k1, 8616127977, 23738761259);
    let k3 = lemma_further(x, y, n, 2, 8616127977, k2, 98551802101, 3580850977);
    let k4 = lemma_further(x, y, n, 3, 98551802101, k3, 15341895185, 40957993875);
    let k5 = lemma_further(x, y, n, 4, 15341895185, k4, 113117943805, 6376070610);
    let k6 = lemma_further(x, y, n, 5, 113117943805, k5, 69010946681, 47011662402);
    let k7 = lemma_further(x, y, n, 6, 69010946681, k6, 19863670341, 28680854852);
    let k8 = lemma_further(x, y, n, 7, 19863670341, k7, 134087785761, 8255314167);
    let k9 = lemma_further(x, y, n, 8, 134087785761, k8, 71420616141, 55726699977);
    let k10 = lemma_further(x, y, n, 9, 71420616141, k9, 131266965513, 29682310176);
    let k11 = lemma_further(x, y, n, 10, 131266965513, k10, 103343564949, 54554370948);
    let k12 = lemma_further(x, y, n, 11, 103343564949, k11, 845516081, 42949443947);
    let k13 = lemma_further(x, y, n, 12, 845516081, k12, 51378790557, 351395324);
    let k14 = lemma_further(x, y, n, 13, 51378790557, k13, 23860780697, 21352954934);
    let k15 = lemma_further(x, y, n, 14, 23860780697, k14, 50790189029, 9916507753);
    let k16 = lemma_further(x, y, n, 15, 50790189029, k15, 122563509825, 21108332945);
    let k17 = lemma_further(x, y, n, 16, 122563509825, k16, 5119848557, 50937226694);
    let k18 = lemma_further(x, y, n, 17, 5119848557, k17, 119679751721, 2127802042);
    let k19 = lemma_further(x, y, n, 18, 119679751721, k18, 79775087669, 49738740778);
    assert(close(x, y, n));
    assert(close(x, y, n + 3));
    assert(close(x, y, n + 4));
    assert(close(x, y, n + 10));
    assert(close(x, y, n + 11));
    assert(close(x, y, n + 12));
    assert(close(x, y, n + 13));
    assert(close(x, y, n + 15));
    assert(close(x, y, n + 16));
    assert(close(x, y, n + 18));
    assert(close(x, y, n + 19));
    lemma_third_sum(
        apart(x, y, n),
        apart(x, y, n + 3),
        apart(x, y, n + 4),
        apart(x, y, n + 10),
        apart(x, y, n + 11),
        apart(x, y, n + 12),
        apart(x, y, n + 13),
        apart(x, y, n + 15),
        apart(x, y, n + 16),
        apart(x, y, n + 18),
        apart(x, y, n + 19),
        k3,
        k4,
        k10,
        k11,
        k12,
        k13,
        k15,
        k16,
        k18,
        k19,
    );
}

/// Rows of seeds that are close in every place are the same, as far as the digits
/// depend on it.
proof fn lemma_close(x: u64, y: u64)
    requires
        forall|i: int| 0 <= i < 32 ==> #[trigger] close(x, y, i),
    ensures
        apart(x, y, 0) == 0,
{
    lemma_first(x, y, 0);
    lemma_first(x, y, 1);
    lemma_first(x, y, 2);
    lemma_first(x, y, 3);
    lemma_first(x, y, 4);
    lemma_first(x, y, 5);
    lemma_first(x, y, 6);
    lemma_first(x, y, 7);
    lemma_first(x, y, 8);
    lemma_first(x, y, 9);
    lemma_first(x, y, 10);
    lemma_second(x, y, 0);
    lemma_second(x, y, 1);
    lemma_second(x, y, 2);
    lemma_second(x, y, 3);
    lemma_second(x, y, 4);
    lemma_second(x, y, 5);
    lemma_second(x, y, 6);
    lemma_second(x, y, 7);
    lemma_third(x, y, 0);
    lemma_third(x, y, 1);
    lemma_third(x, y, 2);
    lemma_third(x, y, 3);
    lemma_third(x, y, 4);
    lemma_third(x, y, 5);
    lemma_third(x, y, 6);
    let d0 = apart(x, y, 0);
    let d1 = apart(x, y, 1);
    let d2 = apart(x, y, 2);
    let d3 = apart(x, y, 3);
    let d4 = apart(x, y, 4);
    let d5 = apart(x, y, 5);
    let d6 = apart(x, y, 6);
    let d7 = apart(x, y, 7);
    let d8 = apart(x, y, 8);
    let d9 = apart(x, y, 9);
    let d10 = apart(x, y, 10);
    let d11 = apart(x, y, 11);
    let d12 = apart(x, y, 12);
    let d13 = apart(x, y, 13);
    let d14 = apart(x, y, 14);
    let d15 = apart(x, y, 15);
    let d16 = apart(x, y, 16);
    let d17 = apart(x, y, 17);
    let d18 = apart(x, y, 18);
    let d19 = apart(x, y, 19);
    let d20 = apart(x, y, 20);
    let d21 = apart(x, y, 21);
    let d22 = apart(x, y, 22);
    let d23 = apart(x, y, 23);
    let d24 = apart(x, y, 24);
    let d25 = apart(x, y, 25);
    assert(2 * d0 + d2 - d4 - d6 + d7 - d8 + d9 + d10 + 4 * d12 - 2 * d13 - d15 == 0);
    assert(2 * d1 + d3 - d5 - d7 + d8 - d9 + d10 + d11 + 4 * d13 - 2 * d14 - d16 == 0);
    assert(2 * d2 + d4 - d6 - d8 + d9 - d10 + d11 + d12 + 4 * d14 - 2 * d15 - d17 == 0);
    assert(2 * d3 + d5 - d7 - d9 + d10 - d11 + d12 + d13 + 4 * d15 - 2 * d16 - d18 == 0);
    assert(2 * d4 + d6 - d8 - d10 + d11 - d12 + d13 + d14 + 4 * d16 - 2 * d17 - d19 == 0);
    assert(2 * d5 + d7 - d9 - d11 + d12 - d13 + d14 + d15 + 4 * d17 - 2 * d18 - d20 == 0);
    assert(2 * d6 + d8 - d10 - d12 + d13 - d14 + d15 + d16 + 4 * d18 - 2 * d19 - d21 == 0);
    assert(2 * d7 + d9 - d11 - d13 + d14 - d15 + d16 + d17 + 4 * d19 - 2 * d20 - d22 == 0);
    assert(2 * d8 + d10 - d12 - d14 + d15 - d16 + d17 + d18 + 4 * d20 - 2 * d21 - d23 == 0);
    assert(2 * d9 + d11 - d13 - d15 + d16 - d17 + d18 + d19 + 4 * d21 - 2 * d22 - d24 == 0);
    assert(2 * d10 + d12 - d14 - d16 + d17 - d18 + d19 + d20 + 4 * d22 - 2 * d23 - d25 == 0);
    assert(d0 - d2 - d5 + d8 - d9 + 2 * d12 + d14 + d15 + d16 + 3 * d17 + d18 == 0);
    assert(d1 - d3 - d6 + d9 - d10 + 2 * d13 + d15 + d16 + d17 + 3 * d18 + d19 == 0);
    assert(d2 - d4 - d7 + d10 - d11 + 2 * d14 + d16 + d17 + d18 + 3 * d19 + d20 == 0);
    assert(d3 - d5 - d8 + d11 - d12 + 2 * d15 + d17 + d18 + d19 + 3 * d20 + d21 == 0);
    assert(d4 - d6 - d9 + d12 - d13 + 2 * d16 + d18 + d19 + d20 + 3 * d21 + d22 == 0);
    assert(d5 - d7 - d10 + d13 - d14 + 2 * d17 + d19 + d20 + d21 + 3 * d22 + d23 == 0);
    assert(d6 - d8 - d11 + d14 - d15 + 2 * d18 + d20 + d21 + d22 + 3 * d23 + d24 == 0);
    assert(d7 - d9 - d12 + d15 - d16 + 2 * d19 + d21 + d22 + d23 + 3 * d24 + d25 == 0);
    assert(d0 - d3 - d4 - 2 * d10 - 2 * d11 + d12 + d13 + d15 + 2 * d16 - d18 + d19 == 0);
    assert(d1 - d4 - d5 - 2 * d11 - 2 * d12 + d13 + d14 + d16 + 2 * d17 - d19 + d20 == 0);
    assert(d2 - d5 - d6 - 2 * d12 - 2 * d13 + d14 + d15 + d17 + 2 * d18 - d20 + d21 == 0);
    assert(d3 - d6 - d7 - 2 * d13 - 2 * d14 + d15 + d16 + d18 + 2 * d19 - d21 + d22 == 0);
    assert(d4 - d7 - d8 - 2 * d14 - 2 * d15 + d16 + d17 + d19 + 2 * d20 - d22 + d23 == 0);
    assert(d5 - d8 - d9 - 2 * d15 - 2 * d16 + d17 + d18 + d20 + 2 * d21 - d23 + d24 == 0);
    assert(d6 - d9 - d10 - 2 * d16 - 2 * d17 + d18 + d19 + d21 + 2 * d22 - d24 + d25 == 0);
    lemma_nothing_between(d0, d1, d2, d3, d4, d5, d6, d7, d8, d9, d10, d11, d12, d13, d14, d15,
        d16, d17, d18, d19, d20, d21, d22, d23, d24, d25);
}

/// The sums leave nothing.
proof fn lemma_nothing_between(
    d0: int,
    d1: int,
    d2: int,
    d3: int,
    d4: int,
    d5: int,
    d6: int,
    d7: int,
    d8: int,
    d9: int,
    d10: int,
    d11: int,
    d12: int,
    d13: int,
    d14: int,
    d15: int,
    d16: int,
    d17: int,
    d18: int,
    d19: int,
    d20: int,
    d21: int,
    d22: int,
    d23: int,
    d24: int,
    d25: int,
)
    requires
        2 * d0 + d2 - d4 - d6 + d7 - d8 + d9 + d10 + 4 * d12 - 2 * d13 - d15 == 0,
        2 * d1 + d3 - d5 - d7 + d8 - d9 + d10 + d11 + 4 * d13 - 2 * d14 - d16 == 0,
        2 * d2 + d4 - d6 - d8 + d9 - d10 + d11 + d12 + 4 * d14 - 2 * d15 - d17 == 0,
        2 * d3 + d5 - d7 - d9 + d10 - d11 + d12 + d13 + 4 * d15 - 2 * d16 - d18 == 0,
        2 * d4 + d6 - d8 - d10 + d11 - d12 + d13 + d14 + 4 * d16 - 2 * d17 - d19 == 0,
        2 * d5 + d7 - d9 - d11 + d12 - d13 + d14 + d15 + 4 * d17 - 2 * d18 - d20 == 0,
        2 * d6 + d8 - d10 - d12 + d13 - d14 + d15 + d16 + 4 * d18 - 2 * d19 - d21 == 0,
        2 * d7 + d9 - d11 - d13 + d14 - d15 + d16 + d17 + 4 * d19 - 2 * d20 - d22 == 0,
        2 * d8 + d10 - d12 - d14 + d15 - d16 + d17 + d18 + 4 * d20 - 2 * d21 - d23 == 0,
        2 * d9 + d11 - d13 - d15 + d16 - d17 + d18 + d19 + 4 * d21 - 2 * d22 - d24 == 0,
        2 * d10 + d12 - d14 - d16 + d17 - d18 + d19 + d20 + 4 * d22 - 2 * d23 - d25 == 0,
        d0 - d2 - d5 + d8 - d9 + 2 * d12 + d14 + d15 + d16 + 3 * d17 + d18 == 0,
        d1 - d3 - d6 + d9 - d10 + 2 * d13 + d15 + d16 + d17 + 3 * d18 + d19 == 0,
        d2 - d4 - d7 + d10 - d11 + 2 * d14 + d16 + d17 + d18 + 3 * d19 + d20 == 0,
        d3 - d5 - d8 + d11 - d12 + 2 * d15 + d17 + d18 + d19 + 3 * d20 + d21 == 0,
        d4 - d6 - d9 + d12 - d13 + 2 * d16 + d18 + d19 + d20 + 3 * d21 + d22 == 0,
        d5 - d7 - d10 + d13 - d14 + 2 * d17 + d19 + d20 + d21 + 3 * d22 + d23 == 0,
        d6 - d8 - d11 + d14 - d15 + 2 * d18 + d20 + d21 + d22 + 3 * d23 + d24 == 0,
        d7 - d9 - d12 + d15 - d16 + 2 * d19 + d21 + d22 + d23 + 3 * d24 + d25 == 0,
        d0 - d3 - d4 - 2 * d10 - 2 * d11 + d12 + d13 + d15 + 2 * d16 - d18 + d19 == 0,
        d1 - d4 - d5 - 2 * d11 - 2 * d12 + d13 + d14 + d16 + 2 * d17 - d19 + d20 == 0,
        d2 - d5 - d6 - 2 * d12 - 2 * d13 + d14 + d15 + d17 + 2 * d18 - d20 + d21 == 0,
        d3 - d6 - d7 - 2 * d13 - 2 * d14 + d15 + d16 + d18 + 2 * d19 - d21 + d22 == 0,
        d4 - d7 - d8 - 2 * d14 - 2 * d15 + d16 + d17 + d19 + 2 * d20 - d22 + d23 == 0,
        d5 - d8 - d9 - 2 * d15 - 2 * d16 + d17 + d18 + d20 + 2 * d21 - d23 + d24 == 0,
        d6 - d9 - d10 - 2 * d16 - 2 * d17 + d18 + d19 + d21 + 2 * d22 - d24 + d25 == 0,
    ensures
        d0 == 0,
{
}

// ---- names ---------------------------------------------------------------------

/// A seed as far as the digits depend on it: a digit, and the bits below it.
proof fn lemma_parts(s: u64)
    ensures
        s % NAMES == BELOW * ((s as int / 0x2_0000_0000) % 16) + s % BELOW,
        0 <= (s as int / 0x2_0000_0000) % 16 < 16,
{
    let q = s as int / 0x2_0000_0000;
    assert(s == BELOW * q + s % BELOW);
    assert(q == 16 * (q / 16) + q % 16);
    let low = BELOW * (q % 16) + s % BELOW;
    assert(s == NAMES * (q / 16) + low);
    vstd::arithmetic::div_mod::lemma_fundamental_div_mod_converse(
        s as int,
        NAMES as int,
        q / 16,
        low,
    );
}

/// Seeds that agree as far as the digits depend on them have followers that do.
proof fn lemma_agree(x: u64, y: u64, n: nat)
    requires
        x % NAMES == y % NAMES,
    ensures
        seed_at(x, n) % NAMES == seed_at(y, n) % NAMES,
    decreases n,
{
    if n > 0 {
        lemma_agree(x, y, (n - 1) as nat);
        let k = lemma_next(seed_at(x, (n - 1) as nat), seed_at(y, (n - 1) as nat));
        assert(seed_at(x, n) % NAMES - seed_at(y, n) % NAMES == NAMES * k);
    }
}

proof fn lemma_digits_differ(a: int, b: int)
    requires
        0 <= a < 16,
        0 <= b < 16,
        hex_digit(a) == hex_digit(b),
    ensures
        a == b,
{
    assert(hex_digit(a) as int == if a < 10 {
        48 + a
    } else {
        87 + a
    });
    assert(hex_digit(b) as int == if b < 10 {
        48 + b
    } else {
        87 + b
    });
}

/// A name holds its digits.
proof fn lemma_name(a: Seq<char>, b: Seq<char>)
    requires
        a.len() == 32,
        b.len() == 32,
        name_of(a) == name_of(b),
    ensures
        a == b,
{
    reveal_strlit("-");
    let m = name_of(a);
    let n = name_of(b);
    assert forall|i: int| 0 <= i < 32 implies a[i] == b[i] by {
        let at = if i < 8 {
            i
        } else if i < 12 {
            i + 1
        } else if i < 16 {
            i + 2
        } else if i < 20 {
            i + 3
        } else {
            i + 4
        };
        assert(m[at] == a[i]);
        assert(n[at] == b[i]);
    }
    assert(a =~= b);
}

/// Two seeds give one name exactly where they agree in the bits that the digits
/// depend on: those below two to the thirty-seventh.
pub proof fn law_names_are_the_same_only_where_their_seeds_agree(x: u64, y: u64)
    ensures
        name_of(digits_of(x)) == name_of(digits_of(y)) <==> x % NAMES == y % NAMES,
{
    if name_of(digits_of(x)) == name_of(digits_of(y)) {
        lemma_name(digits_of(x), digits_of(y));
        assert forall|i: int| 0 <= i < 32 implies #[trigger] close(x, y, i) by {
            let a = seed_at(x, (i + 1) as nat);
            let b = seed_at(y, (i + 1) as nat);
            lemma_parts(a);
            lemma_parts(b);
            assert(digits_of(x)[i] == digits_of(y)[i]);
            lemma_digits_differ(
                (a as int / 0x2_0000_0000) % 16,
                (b as int / 0x2_0000_0000) % 16,
            );
        }
        lemma_close(x, y);
        let k = lemma_next(seed_at(x, 0), seed_at(y, 0));
        assert(seed_at(x, 1) == next_seed(seed_at(x, 0)));
        assert(seed_at(y, 1) == next_seed(seed_at(y, 0)));
        let e = x % NAMES - y % NAMES;
        assert(FACTOR * e + NAMES * k == 0);
        assert(e == NAMES * (-12847814767 * e - 30913996965 * k));
    }
    if x % NAMES == y % NAMES {
        assert forall|i: int| 0 <= i < 32 implies digits_of(x)[i] == digits_of(y)[i] by {
            let a = seed_at(x, (i + 1) as nat);
            let b = seed_at(y, (i + 1) as nat);
            lemma_agree(x, y, (i + 1) as nat);
            lemma_parts(a);
            lemma_parts(b);
        }
        assert(digits_of(x) =~= digits_of(y));
    }
}

/// Two names asked for in one process while the clock does not move differ, as
/// long as fewer than two to the thirty-seventh were asked for in between.
pub proof fn law_names_asked_for_at_one_time_differ(now: u64, pid: u32, a: u64, b: u64)
    requires
        a % NAMES != b % NAMES,
    ensures
        name_of(digits_of(first_seed(now, pid, a))) != name_of(
            digits_of(first_seed(now, pid, b)),
        ),
{
    law_names_are_the_same_only_where_their_seeds_agree(
        first_seed(now, pid, a),
        first_seed(now, pid, b),
    );
    let wide: int = 0x1_0000_0000_0000_0000;
    let full: int = 0x9E37_79B9_7F4A_7C15;
    let rest = now ^ ((pid as u64) << 32u64);
    let pa = a * full;
    let pb = b * full;
    let sa = (pa % wide) as u64;
    let sb = (pb % wide) as u64;
    assert(first_seed(now, pid, a) == rest ^ sa);
    assert(first_seed(now, pid, b) == rest ^ sb);
    assert((rest ^ sa) % 0x20_0000_0000 == (rest ^ sb) % 0x20_0000_0000 ==> sa % 0x20_0000_0000 == sb
        % 0x20_0000_0000) by (bit_vector);
    if sa % NAMES == sb % NAMES {
        assert(pa == wide * (pa / wide) + sa);
        assert(pb == wide * (pb / wide) + sb);
        let m = 134217728 * (pa / wide - pb / wide) + (sa as int / NAMES as int
            - sb as int / NAMES as int);
        assert(sa == NAMES * (sa as int / NAMES as int) + sa % NAMES);
        assert(sb == NAMES * (sb as int / NAMES as int) + sb % NAMES);
        assert(full * (a - b) == NAMES * m);
        let w = 6865515325 * m - 569502170459731317 * (a - b);
        assert(a - b == NAMES * w);
        vstd::arithmetic::div_mod::lemma_mod_multiples_vanish(w, b as int, NAMES as int);
        assert(a % NAMES == b % NAMES);
    }
}

} // verus!
