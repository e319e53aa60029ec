//! Packet identifiers and the arithmetic on them.
//!
//! An identifier is a 16-bit counter that wraps on overflow, so two
//! identifiers are never compared as plain integers: the distance between
//! them is the signed value of least magnitude that leads from one to the
//! other modulo 65536.

use vstd::prelude::*;

verus! {

/// Identifier of a packet, assigned by its sender.
#[derive(Clone, Copy, Debug, PartialEq, Eq, Hash, Structural)]
pub struct PacketId(pub u16);

/// The identifier that the integer `x` stands for: `x` modulo 65536.
pub open spec fn wrap_id(x: int) -> u16 {
    (x % 65536) as u16
}

/// The signed distance that leads from `b` to `a`: the one value `d` in
/// `[-32768, 32767]` with `b + d` congruent to `a` modulo 65536.
pub open spec fn spec_circular_diff(a: u16, b: u16) -> int {
    let d = (a - b) % 65536;
    if d < 32768 {
        d
    } else {
        d - 65536
    }
}

impl PacketId {
    /// The signed circular distance that leads from `other` to `self`.
    ///
    /// It is positive where `self` is ahead of `other`, negative where it is
    /// behind, and in `[-32768, 32767]` either way.
    pub fn circular_diff(self, other: PacketId) -> (d: i16)
        ensures
            d == spec_circular_diff(self.0, other.0),
    {
        let w: u16 = self.0.wrapping_sub(other.0);
        if w < 32768 {
            w as i16
        } else {
            (w as i32 - 65536) as i16
        }
    }

    /// The identifier that follows `self`: `self + 1` modulo 65536.
    pub fn increment(self) -> (next: PacketId)
        ensures
            next.0 == wrap_id(self.0 + 1),
    {
        PacketId(self.0.wrapping_add(1))
    }

    /// The identifier `distance` steps behind `self`, modulo 65536.
    pub fn preceding(self, distance: u16) -> (id: PacketId)
        ensures
            id.0 == wrap_id(self.0 - distance),
    {
        PacketId(self.0.wrapping_sub(distance))
    }
}

/// The circular distance is the one value in range that leads from `b` to
/// `a`.
pub proof fn lemma_circular_diff_leads_back(a: u16, b: u16)
    ensures
        -32768 <= spec_circular_diff(a, b) <= 32767,
        wrap_id(b + spec_circular_diff(a, b)) == a,
{
}

/// Going `k` steps from `a`, for any `k` in `[-32768, 32767]`, and taking
/// the circular distance back to `a` gives `k` again.
pub proof fn lemma_circular_diff_round_trip(a: u16, k: int)
    requires
        -32768 <= k <= 32767,
    ensures
        spec_circular_diff(wrap_id(a + k), a) == k,
{
}

/// The distance from `a` to `b` is the negative of the distance from `b` to
/// `a`, except at half the identifier space, where both are -32768.
pub proof fn lemma_circular_diff_antisymmetric(a: u16, b: u16)
    ensures
        spec_circular_diff(a, b) != -32768 ==> spec_circular_diff(b, a) == -spec_circular_diff(
            a,
            b,
        ),
        spec_circular_diff(a, b) == -32768 ==> spec_circular_diff(b, a) == -32768,
        spec_circular_diff(a, b) == 0 <==> a == b,
{
}

} // verus!
