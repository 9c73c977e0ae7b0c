//! Binomial coefficients by Pascal's triangle.
//!
//! A Bezier curve of `n` anchor points is evaluated with the Bernstein
//! weights `C(n-1, k)`, so the curve code asks for binomial coefficients of
//! small arguments over and over.  The executable function below builds
//! Pascal's triangle row by row and is proved to return exactly the
//! mathematical coefficient.

use vstd::arithmetic::power2::{
    lemma2_to64, lemma_pow2_pos, lemma_pow2_strictly_increases, lemma_pow2_unfold, pow2,
};
use vstd::prelude::*;

verus! {

/// The binomial coefficient `C(n, k)`, defined by the Pascal recurrence.
pub open spec fn bin(n: nat, k: nat) -> nat
    decreases n,
{
    if k == 0 {
        1
    } else if k >= n {
        if k == n {
            1
        } else {
            0
        }
    } else {
        bin((n - 1) as nat, (k - 1) as nat) + bin((n - 1) as nat, k)
    }
}

/// Every entry of row `n` of Pascal's triangle is at most `2^(n-1)`:
/// an interior entry is the sum of two entries of the previous row.
pub proof fn lemma_bin_bound(n: nat, k: nat)
    requires
        n >= 1,
    ensures
        bin(n, k) <= pow2((n - 1) as nat),
    decreases n,
{
    lemma_pow2_pos((n - 1) as nat);
    if n > 1 && 0 < k < n {
        lemma_bin_bound((n - 1) as nat, (k - 1) as nat);
        lemma_bin_bound((n - 1) as nat, k);
        lemma_pow2_unfold((n - 1) as nat);
    }
}

/// Compute `C(n, k)` with Pascal's triangle, as the curve code uses it.
///
/// The bound `n <= 32` keeps every triangle entry below `2^31`, so the
/// additions cannot overflow `u32`.
pub fn binomial(n: usize, k: usize) -> (r: u32)
    requires
        k <= n,
        n <= 32,
    ensures
        r == bin(n as nat, k as nat),
{
    let mut triangle: Vec<Vec<u32>> = Vec::new();
    let mut i: usize = 0;
    while i <= n
        invariant
            i <= n + 1,
            n <= 32,
            triangle@.len() == i,
            forall|r: int| 0 <= r < i ==> #[trigger] triangle@[r]@.len() == r + 1,
            forall|r: int, c: int|
                0 <= r < i && 0 <= c <= r ==> #[trigger] triangle@[r]@[c] == bin(
                    r as nat,
                    c as nat,
                ),
        decreases n + 1 - i,
    {
        let mut row: Vec<u32> = Vec::new();
        let mut j: usize = 0;
        while j <= i
            invariant
                j <= i + 1,
                i <= n <= 32,
                triangle@.len() == i,
                row@.len() == j,
                forall|r: int| 0 <= r < i ==> #[trigger] triangle@[r]@.len() == r + 1,
                forall|r: int, c: int|
                    0 <= r < i && 0 <= c <= r ==> #[trigger] triangle@[r]@[c] == bin(
                        r as nat,
                        c as nat,
                    ),
                forall|c: int| 0 <= c < j ==> #[trigger] row@[c] == bin(i as nat, c as nat),
            decreases i + 1 - j,
        {
            let entry: u32 = if j == 0 || j == i {
                1
            } else {
                proof {
                    lemma_bin_bound(i as nat, j as nat);
                    if i < 32 {
                        lemma_pow2_strictly_increases((i - 1) as nat, 31);
                    }
                    lemma2_to64();
                }
                triangle[i - 1][j - 1] + triangle[i - 1][j]
            };
            row.push(entry);
            j = j + 1;
        }
        triangle.push(row);
        i = i + 1;
    }
    triangle[n][k]
}

} // verus!
