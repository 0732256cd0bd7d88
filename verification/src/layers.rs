//! Channel bitmask in the style of three.js `Layers`: an object is visible to a
//! camera when their masks share at least one enabled channel.
use vstd::prelude::*;

verus! {

/// The single-channel mask `1 << (channel & 31)`.
pub open spec fn channel_bit(channel: u8) -> u32 {
    (1u32 << ((channel & 31u8) as u32)) as u32
}

proof fn lemma_low5_lt_32(channel: u8)
    ensures
        channel & 31u8 < 32u8,
{
    assert(channel & 31u8 < 32u8) by (bit_vector);
}

/// Computes the single-channel mask of `channel`.
fn channel_mask(channel: u8) -> (m: u32)
    ensures
        m == channel_bit(channel),
{
    proof {
        lemma_low5_lt_32(channel);
    }
    let c: u8 = channel & 31;
    1u32 << (c as u32)
}

/// A 32-channel visibility bitmask; channel 0 is enabled by default.
#[derive(Debug, Clone, Copy, PartialEq, Eq)]
pub struct Layers {
    pub mask: u32,
}

impl Layers {
    /// Whether `channel` (taken modulo 32) is enabled in this mask.
    pub open spec fn enabled(self, channel: u8) -> bool {
        self.mask & channel_bit(channel) != 0
    }

    /// Channel 0 only.
    pub fn new() -> (l: Self)
        ensures
            l.mask == 1,
    {
        Layers { mask: 1 }
    }

    /// A mask given verbatim.
    pub fn with_mask(mask: u32) -> (l: Self)
        ensures
            l.mask == mask,
    {
        Layers { mask }
    }

    /// Enable exactly `channel` (all others off).
    pub fn set(&mut self, channel: u8) -> (r: &mut Self)
        ensures
            r.mask == channel_bit(channel),
            *final(self) == *final(r),
    {
        self.mask = channel_mask(channel);
        self
    }

    /// Enable `channel`, keeping the others.
    pub fn enable(&mut self, channel: u8) -> (r: &mut Self)
        ensures
            r.mask == old(self).mask | channel_bit(channel),
            *final(self) == *final(r),
    {
        self.mask = self.mask | channel_mask(channel);
        self
    }

    /// Enable every channel.
    pub fn enable_all(&mut self) -> (r: &mut Self)
        ensures
            r.mask == u32::MAX,
            *final(self) == *final(r),
    {
        self.mask = u32::MAX;
        self
    }

    /// Disable `channel`, keeping the others.
    pub fn disable(&mut self, channel: u8) -> (r: &mut Self)
        ensures
            r.mask == old(self).mask & !channel_bit(channel),
            *final(self) == *final(r),
    {
        self.mask = self.mask & !channel_mask(channel);
        self
    }

    /// Disable every channel.
    pub fn disable_all(&mut self) -> (r: &mut Self)
        ensures
            r.mask == 0,
            *final(self) == *final(r),
    {
        self.mask = 0;
        self
    }

    /// Flip `channel`.
    pub fn toggle(&mut self, channel: u8) -> (r: &mut Self)
        ensures
            r.mask == old(self).mask ^ channel_bit(channel),
            *final(self) == *final(r),
    {
        self.mask = self.mask ^ channel_mask(channel);
        self
    }

    /// Whether the two masks share an enabled channel.
    pub fn test(&self, other: &Self) -> (b: bool)
        ensures
            b == (self.mask & other.mask != 0),
    {
        (self.mask & other.mask) != 0
    }

    /// Whether `channel` is enabled.
    pub fn is_enabled(&self, channel: u8) -> (b: bool)
        ensures
            b == self.enabled(channel),
    {
        (self.mask & channel_mask(channel)) != 0
    }
}

impl Default for Layers {
    fn default() -> (l: Self)
        ensures
            l.mask == 1,
    {
        Layers { mask: 1 }
    }
}

proof fn lemma_bit_facts(mask: u32, c: u8, d: u8)
    ensures
        (mask | channel_bit(c)) & channel_bit(c) != 0,
        (mask & !channel_bit(c)) & channel_bit(c) == 0,
        (mask ^ channel_bit(c)) ^ channel_bit(c) == mask,
        (c & 31u8) != (d & 31u8) ==> channel_bit(c) & channel_bit(d) == 0,
        (c & 31u8) == (d & 31u8) ==> channel_bit(c) == channel_bit(d),
        (c & 31u8) != (d & 31u8) ==> ((mask | channel_bit(c)) & channel_bit(d) == mask
            & channel_bit(d)),
        (c & 31u8) != (d & 31u8) ==> ((mask & !channel_bit(c)) & channel_bit(d) == mask
            & channel_bit(d)),
        (c & 31u8) != (d & 31u8) ==> ((mask ^ channel_bit(c)) & channel_bit(d) == mask
            & channel_bit(d)),
        channel_bit(c) & channel_bit(c) != 0,
        u32::MAX & channel_bit(c) != 0,
        0u32 & channel_bit(c) == 0,
{
    assert((mask | channel_bit(c)) & channel_bit(c) != 0
        && (mask & !channel_bit(c)) & channel_bit(c) == 0
        && (mask ^ channel_bit(c)) ^ channel_bit(c) == mask
        && ((c & 31u8) != (d & 31u8) ==> channel_bit(c) & channel_bit(d) == 0)
        && ((c & 31u8) == (d & 31u8) ==> channel_bit(c) == channel_bit(d))
        && ((c & 31u8) != (d & 31u8) ==> ((mask | channel_bit(c)) & channel_bit(d) == mask
        & channel_bit(d)))
        && ((c & 31u8) != (d & 31u8) ==> ((mask & !channel_bit(c)) & channel_bit(d) == mask
        & channel_bit(d)))
        && ((c & 31u8) != (d & 31u8) ==> ((mask ^ channel_bit(c)) & channel_bit(d) == mask
        & channel_bit(d)))
        && channel_bit(c) & channel_bit(c) != 0
        && u32::MAX & channel_bit(c) != 0
        && 0u32 & channel_bit(c) == 0) by (bit_vector);
}

/// After enabling a channel it is enabled, and every channel that differs
/// from it modulo 32 keeps its previous state.
pub proof fn law_enable_sets_only_that_channel(l: Layers, c: u8, d: u8)
    ensures
        (Layers { mask: l.mask | channel_bit(c) }).enabled(c),
        (c & 31u8) != (d & 31u8) ==> (Layers { mask: l.mask | channel_bit(c) }).enabled(d)
            == l.enabled(d),
{
    lemma_bit_facts(l.mask, c, d);
}

/// After disabling a channel it is disabled, and every channel that differs
/// from it modulo 32 keeps its previous state.
pub proof fn law_disable_clears_only_that_channel(l: Layers, c: u8, d: u8)
    ensures
        !(Layers { mask: l.mask & !channel_bit(c) }).enabled(c),
        (c & 31u8) != (d & 31u8) ==> (Layers { mask: l.mask & !channel_bit(c) }).enabled(d)
            == l.enabled(d),
{
    lemma_bit_facts(l.mask, c, d);
}

/// Toggling the same channel twice restores the mask; toggling one channel
/// leaves every other channel (modulo 32) unchanged.
pub proof fn law_toggle_involution(l: Layers, c: u8, d: u8)
    ensures
        (l.mask ^ channel_bit(c)) ^ channel_bit(c) == l.mask,
        (c & 31u8) != (d & 31u8) ==> (Layers { mask: l.mask ^ channel_bit(c) }).enabled(d)
            == l.enabled(d),
{
    lemma_bit_facts(l.mask, c, d);
}

/// After `set(c)` exactly the channels congruent to `c` modulo 32 are enabled.
pub proof fn law_set_enables_exactly_one(c: u8, d: u8)
    ensures
        (Layers { mask: channel_bit(c) }).enabled(d) <==> (c & 31u8) == (d & 31u8),
{
    lemma_bit_facts(0, c, d);
}

/// `enable_all` enables every channel; `disable_all` disables every channel.
pub proof fn law_all_and_none(c: u8)
    ensures
        (Layers { mask: u32::MAX }).enabled(c),
        !(Layers { mask: 0 }).enabled(c),
{
    lemma_bit_facts(0, c, c);
}

/// `test` is symmetric.
pub proof fn law_test_symmetric(a: Layers, b: Layers)
    ensures
        (a.mask & b.mask != 0) == (b.mask & a.mask != 0),
{
    let x = a.mask;
    let y = b.mask;
    assert(x & y == y & x) by (bit_vector);
}

} // verus!
