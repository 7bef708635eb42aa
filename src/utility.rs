use rand::Rng;
use vstd::prelude::*;

use crate::offset::Offset;

verus! {

/// Relies on `rand::Rng::gen_range` over an inclusive range on the
/// thread-local generator: the value drawn lies in the range.
#[verifier::external_body]
fn random_between(low: i64, high: i64) -> (r: i64)
    requires
        low <= high,
    ensures
        low <= r <= high,
{
    rand::thread_rng().gen_range(low..=high)
}

/// Relies on `fastrand::bool`: a coin flip, nothing is known of the side.
#[verifier::external_body]
pub(crate) fn random_bool() -> bool {
    fastrand::bool()
}

/// Relies on `fastrand::usize` over `0..n`: the value lies below `n`.
#[verifier::external_body]
pub(crate) fn random_index(n: usize) -> (r: usize)
    requires
        n > 0,
    ensures
        r < n,
{
    fastrand::usize(0..n)
}

/// Relies on `fastrand::shuffle`: the slice is only reordered.
#[verifier::external_body]
pub(crate) fn shuffle(v: &mut Vec<usize>)
    ensures
        final(v)@.len() == old(v)@.len(),
        final(v)@.to_multiset() == old(v)@.to_multiset(),
{
    fastrand::shuffle(v.as_mut_slice())
}

/// Returns a random value within `radius` of `middle`, both ends included.
pub fn get_value_around(middle: i64, radius: i64) -> (r: i64)
    requires
        radius >= 0,
        i64::MIN <= middle - radius,
        middle + radius <= i64::MAX,
    ensures
        middle - radius <= r <= middle + radius,
{
    random_between(middle - radius, middle + radius)
}

/// The positions `(x, y)` with `cx - size/2 <= x < cx + size/2` and
/// `cy - size/2 <= y < cy + size/2`, column by column.
pub open spec fn square(center: Offset, size: u32) -> Seq<Offset> {
    let h = (size / 2) as int;
    Seq::new(
        (4 * h * h) as nat,
        |k: int| Offset::new_spec((center.x - h + k / (2 * h)) as i32, (center.y - h + k % (2 * h)) as i32),
    )
}

/// Offsets of a square of side `size` (rounded down to even) around `center`.
pub fn get_offsets_for_square(center: &Offset, size: u32) -> (r: Vec<Offset>)
    requires
        i32::MIN <= center.x - size / 2,
        center.x + size / 2 <= i32::MAX,
        i32::MIN <= center.y - size / 2,
        center.y + size / 2 <= i32::MAX,
    ensures
        r@ == square(*center, size),
{
    let half: i64 = (size / 2) as i64;
    let side: i64 = 2 * half;
    let ghost h = half as int;
    let mut offsets: Vec<Offset> = Vec::new();
    let mut i: i64 = 0;
    while i < side
        invariant
            h == size / 2,
            half == h,
            side == 2 * h,
            0 <= h <= 0x8000_0000,
            0 <= i <= side,
            i32::MIN <= center.x - h,
            center.x + h <= i32::MAX,
            i32::MIN <= center.y - h,
            center.y + h <= i32::MAX,
            offsets@.len() == i * side,
            forall|k: int|
                0 <= k < i * side ==> #[trigger] offsets@[k] == Offset::new_spec(
                    (center.x - h + k / (side as int)) as i32,
                    (center.y - h + k % (side as int)) as i32,
                ),
        decreases side - i,
    {
        let mut j: i64 = 0;
        while j < side
            invariant
                h == size / 2,
                half == h,
                side == 2 * h,
                0 <= h <= 0x8000_0000,
                0 <= i < side,
                0 <= j <= side,
                i32::MIN <= center.x - h,
                center.x + h <= i32::MAX,
                i32::MIN <= center.y - h,
                center.y + h <= i32::MAX,
                offsets@.len() == i * side + j,
                forall|k: int|
                    0 <= k < i * side + j ==> #[trigger] offsets@[k] == Offset::new_spec(
                        (center.x - h + k / (side as int)) as i32,
                        (center.y - h + k % (side as int)) as i32,
                    ),
            decreases side - j,
        {
            proof {
                let k = i * side + j;
                let sd = side as int;
                assert(k / sd == i as int && k % sd == j as int) by (nonlinear_arith)
                    requires
                        k == i * sd + j,
                        0 <= j < sd,
                        0 <= i,
                ;
                assert(0 <= (i + 1) * side <= side * side) by (nonlinear_arith)
                    requires
                        0 <= i < side,
                        0 <= side,
                ;
            }
            offsets.push(Offset::new((center.x as i64 - half + i) as i32, (center.y as i64 - half + j) as i32));
            j = j + 1;
        }
        proof {
            assert((i + 1) * side == i * side + side) by (nonlinear_arith);
        }
        i = i + 1;
    }
    proof {
        assert(i * side == 4 * h * h) by (nonlinear_arith)
            requires
                i == side,
                side == 2 * h,
        ;
    }
    offsets
}

} // verus!
