//! The palette color nearest to a color given by its channels.
use vstd::prelude::*;
use crate::screen::{col_index, Col};

verus! {

/// A color by its red, green, blue and opacity channels.
#[derive(PartialEq, Eq, Structural, Clone, Copy, Debug)]
pub struct Rgba {
    pub r: u8,
    pub g: u8,
    pub b: u8,
    pub a: u8,
}

/// The integer square root of `n`: the greatest `r` with `r * r <= n`.
pub open spec fn isqrt_spec(n: nat) -> nat
    decreases n,
{
    if n == 0 {
        0
    } else {
        let r = isqrt_spec((n - 1) as nat);
        if (r + 1) * (r + 1) <= n {
            r + 1
        } else {
            r
        }
    }
}

/// `isqrt_spec(n)` is the root of `n` rounded down.
pub proof fn lemma_isqrt(n: nat)
    ensures
        isqrt_spec(n) * isqrt_spec(n) <= n < (isqrt_spec(n) + 1) * (isqrt_spec(n) + 1),
    decreases n,
{
    if n == 0 {
        let q = isqrt_spec(n);
        assert(q == 0);
        assert(q * q <= n < (q + 1) * (q + 1)) by (nonlinear_arith)
            requires
                q == 0,
                n == 0,
        ;
    } else {
        lemma_isqrt((n - 1) as nat);
        let r = isqrt_spec((n - 1) as nat);
        let q = isqrt_spec(n);
        if (r + 1) * (r + 1) <= n {
            assert(q == r + 1);
            assert(q * q <= n < (q + 1) * (q + 1)) by (nonlinear_arith)
                requires
                    q == r + 1,
                    (r + 1) * (r + 1) <= n,
                    n - 1 < (r + 1) * (r + 1),
            ;
        } else {
            assert(q == r);
            assert(q * q <= n < (q + 1) * (q + 1)) by (nonlinear_arith)
                requires
                    q == r,
                    r * r <= n - 1,
                    n < (r + 1) * (r + 1),
            ;
        }
    }
}

/// A number has one root rounded down.
proof fn lemma_root_unique(n: nat, a: nat, b: nat)
    requires
        a * a <= n < (a + 1) * (a + 1),
        b * b <= n < (b + 1) * (b + 1),
    ensures
        a == b,
{
    if a < b {
        assert((a + 1) * (a + 1) <= b * b) by (nonlinear_arith)
            requires
                a + 1 <= b,
        ;
    }
    if b < a {
        assert((b + 1) * (b + 1) <= a * a) by (nonlinear_arith)
            requires
                b + 1 <= a,
        ;
    }
}

/// The root of `n` rounded down.
fn isqrt(n: u32) -> (r: u32)
    requires
        n <= 195075,
    ensures
        r == isqrt_spec(n as nat),
{
    let mut r: u32 = 0;
    loop
        invariant
            n <= 195075,
            r * r <= n,
            r <= 442,
        ensures
            r * r <= n < (r + 1) * (r + 1),
        decreases 443 - r,
    {
        let s: u32 = r + 1;
        assert(s * s <= 443 * 443) by (nonlinear_arith)
            requires
                s <= 443,
        ;
        if s * s > n {
            break;
        }
        assert(s <= 442) by (nonlinear_arith)
            requires
                s * s <= n,
                n <= 195075,
        ;
        r = s;
    }
    proof {
        lemma_isqrt(n as nat);
        lemma_root_unique(n as nat, r as nat, isqrt_spec(n as nat));
    }
    r
}

/// The squared distance between two colors by their red, green and blue
/// channels.
pub open spec fn square_distance(c: Rgba, p: Rgba) -> nat {
    ((c.r - p.r) * (c.r - p.r) + (c.g - p.g) * (c.g - p.g) + (c.b - p.b) * (c.b - p.b)) as nat
}

/// The distance between two colors, rounded down.
pub open spec fn distance(c: Rgba, p: Rgba) -> nat {
    isqrt_spec(square_distance(c, p))
}

/// Whether position `i` of `palette` holds the color nearest to `c`, the
/// first of those where several are as near.
pub open spec fn nearest(c: Rgba, palette: Seq<Rgba>, i: int) -> bool {
    &&& 0 <= i < 20
    &&& forall|j: int| 0 <= j < i ==> distance(c, palette[j]) > distance(c, palette[i])
    &&& forall|j: int| i < j < 20 ==> distance(c, palette[j]) >= distance(c, palette[i])
}

/// The squared distance of `c` from `p`.
fn square_distance_of(c: Rgba, p: Rgba) -> (r: u32)
    ensures
        r == square_distance(c, p),
        r <= 195075,
{
    let dr: i32 = c.r as i32 - p.r as i32;
    let dg: i32 = c.g as i32 - p.g as i32;
    let db: i32 = c.b as i32 - p.b as i32;
    assert(dr * dr <= 65025 && dg * dg <= 65025 && db * db <= 65025) by (nonlinear_arith)
        requires
            -255 <= dr <= 255,
            -255 <= dg <= 255,
            -255 <= db <= 255,
    ;
    assert(0 <= dr * dr && 0 <= dg * dg && 0 <= db * db) by (nonlinear_arith);
    (dr * dr + dg * dg + db * db) as u32
}

impl Col {
    /// The color of the palette nearest to `c`, where `palette` holds the
    /// colors of palette positions 0 to 19 in order; `Empty` for a color
    /// less than half opaque.
    pub fn from_color(c: Rgba, palette: &[Rgba]) -> (r: Self)
        requires
            palette@.len() == 20,
        ensures
            c.a < 128 ==> r == Col::Empty,
            c.a >= 128 ==> nearest(c, palette@, col_index(r)),
    {
        if c.a < 128 {
            return Col::Empty;
        }
        let mut min_c = Col::Empty;
        let mut min: u32 = 100000;
        let mut i: i8 = 0;
        while i < 20
            invariant
                palette@.len() == 20,
                0 <= i <= 20,
                i == 0 ==> min == 100000,
                i > 0 ==> {
                    &&& 0 <= col_index(min_c) < i
                    &&& min == distance(c, palette@[col_index(min_c)])
                    &&& forall|j: int| 0 <= j < col_index(min_c) ==> distance(c, palette@[j]) > min
                    &&& forall|j: int| col_index(min_c) < j < i ==> distance(c, palette@[j]) >= min
                },
            decreases 20 - i,
        {
            let d = isqrt(square_distance_of(c, palette[i as usize]));
            proof {
                lemma_isqrt(square_distance(c, palette@[i as int]));
                assert(d <= 442) by (nonlinear_arith)
                    requires
                        d * d <= 195075,
                ;
            }
            if d < min {
                min_c = Col::from_index(i);
                min = d;
            }
            i += 1;
        }
        min_c
    }
}

} // verus!
