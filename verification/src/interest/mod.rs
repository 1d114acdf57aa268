//! Level-of-detail tiers for spatial interest management.
use vstd::prelude::*;

pub mod visible_set;

verus! {

/// Distance band of an entity relative to a client.
#[derive(Debug, Clone, Copy, PartialEq, Eq, PartialOrd, Ord, Hash, Structural)]
pub enum LodTier {
    /// 0–30m: full fidelity, every tick
    Full,
    /// 30–70m: high fidelity, every 2 ticks
    High,
    /// 70–100m: medium fidelity, every 4 ticks
    Medium,
    /// 100–150m: low fidelity, every 8 ticks
    Low,
}

pub open spec fn tier_divisor(t: LodTier) -> u64 {
    match t {
        LodTier::Full => 1,
        LodTier::High => 2,
        LodTier::Medium => 4,
        LodTier::Low => 8,
    }
}

pub open spec fn tier_mask(t: LodTier) -> u8 {
    match t {
        LodTier::Full => 0xFF,
        LodTier::High => 0x0F,
        LodTier::Medium => 0x03,
        LodTier::Low => 0x01,
    }
}

impl LodTier {
    /// Ticks between updates at this tier.
    pub fn tick_divisor(self) -> (d: u64)
        ensures
            d == tier_divisor(self),
    {
        match self {
            LodTier::Full => 1,
            LodTier::High => 2,
            LodTier::Medium => 4,
            LodTier::Low => 8,
        }
    }

    /// Field groups replicated at this tier.
    pub fn field_group_mask(self) -> (m: u8)
        ensures
            m == tier_mask(self),
    {
        match self {
            LodTier::Full => 0xFF,
            LodTier::High => 0x0F,
            LodTier::Medium => 0x03,
            LodTier::Low => 0x01,
        }
    }

    /// Whether an entity at this tier is sent on `tick`.
    pub fn sends_on(self, tick: u64) -> (b: bool)
        ensures
            b == (tick % tier_divisor(self) == 0),
    {
        tick % self.tick_divisor() == 0
    }
}

/// Update rates by distance: the nearest tier is sent every tick, and each farther tier
/// is sent exactly half as often as the next nearer one (every 1, 2, 4, 8 ticks); so a
/// farther tier is sent on a tick only when every nearer tier is.
pub proof fn law_tier_rates(tick: u64)
    ensures
        tier_divisor(LodTier::Full) == 1,
        tier_divisor(LodTier::High) == 2 * tier_divisor(LodTier::Full),
        tier_divisor(LodTier::Medium) == 2 * tier_divisor(LodTier::High),
        tier_divisor(LodTier::Low) == 2 * tier_divisor(LodTier::Medium),
        tick % tier_divisor(LodTier::Low) == 0 ==> tick % tier_divisor(LodTier::Medium) == 0,
        tick % tier_divisor(LodTier::Medium) == 0 ==> tick % tier_divisor(LodTier::High) == 0,
{
    assert(tick % 8 == 0 ==> tick % 4 == 0) by (nonlinear_arith);
    assert(tick % 4 == 0 ==> tick % 2 == 0) by (nonlinear_arith);
}

/// Farther tiers update less often and replicate a subset of the nearer tiers' field groups.
pub proof fn law_tiers_nest(a: LodTier, b: LodTier)
    ensures
        tier_divisor(a) <= tier_divisor(b) ==> tier_mask(b) & tier_mask(a) == tier_mask(b),
        tier_divisor(a) <= tier_divisor(b) ==> tier_divisor(b) % tier_divisor(a) == 0,
{
    assert(0xFFu8 & 0x0Fu8 == 0x0Fu8) by (bit_vector);
    assert(0xFFu8 & 0x03u8 == 0x03u8) by (bit_vector);
    assert(0xFFu8 & 0x01u8 == 0x01u8) by (bit_vector);
    assert(0x0Fu8 & 0x03u8 == 0x03u8) by (bit_vector);
    assert(0x0Fu8 & 0x01u8 == 0x01u8) by (bit_vector);
    assert(0x03u8 & 0x01u8 == 0x01u8) by (bit_vector);
    assert(0x0Fu8 & 0xFFu8 == 0x0Fu8) by (bit_vector);
    assert(0x03u8 & 0xFFu8 == 0x03u8) by (bit_vector);
    assert(0x01u8 & 0xFFu8 == 0x01u8) by (bit_vector);
    assert(0x03u8 & 0x0Fu8 == 0x03u8) by (bit_vector);
    assert(0x01u8 & 0x0Fu8 == 0x01u8) by (bit_vector);
    assert(0x01u8 & 0x03u8 == 0x01u8) by (bit_vector);
    assert(0xFFu8 & 0xFFu8 == 0xFFu8) by (bit_vector);
    assert(0x0Fu8 & 0x0Fu8 == 0x0Fu8) by (bit_vector);
    assert(0x03u8 & 0x03u8 == 0x03u8) by (bit_vector);
    assert(0x01u8 & 0x01u8 == 0x01u8) by (bit_vector);
}

} // verus!
