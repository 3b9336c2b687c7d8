use vstd::prelude::*;

verus! {

/// A bit mask identifying groups for interaction.
///
/// Each of the 32 bits names one group. Every gameplay system filters its
/// pairs by two masks per entity: the groups the entity belongs to
/// (memberships) and the groups it looks for (filters). One side reaches
/// the other when its mask shares a bit with the other side's mask.
#[derive(Copy, Clone, Debug, PartialEq, Eq, Hash, Structural)]
pub struct Group {
    pub bits: u32,
}

impl View for Group {
    type V = u32;

    open spec fn view(&self) -> u32 {
        self.bits
    }
}

impl Group {
    /// None of the groups.
    pub fn none() -> (g: Group)
        ensures
            g@ == 0,
    {
        Group { bits: 0 }
    }

    /// All of the groups.
    pub fn all() -> (g: Group)
        ensures
            g@ == 0xffff_ffffu32,
    {
        Group { bits: 0xffff_ffff }
    }

    /// The group n°1.
    pub fn player() -> (g: Group)
        ensures
            g@ == 0x01,
    {
        Group { bits: 0x01 }
    }

    /// The group n°2.
    pub fn ally() -> (g: Group)
        ensures
            g@ == 0x02,
    {
        Group { bits: 0x02 }
    }

    /// The group n°3.
    pub fn npc() -> (g: Group)
        ensures
            g@ == 0x04,
    {
        Group { bits: 0x04 }
    }

    /// The group n°4.
    pub fn enemy() -> (g: Group)
        ensures
            g@ == 0x08,
    {
        Group { bits: 0x08 }
    }

    /// The group n°5.
    pub fn weapon() -> (g: Group)
        ensures
            g@ == 0x10,
    {
        Group { bits: 0x10 }
    }

    /// The group n°6.
    pub fn projectile() -> (g: Group)
        ensures
            g@ == 0x20,
    {
        Group { bits: 0x20 }
    }

    /// The group n°7.
    pub fn structure() -> (g: Group)
        ensures
            g@ == 0x40,
    {
        Group { bits: 0x40 }
    }

    /// The group n°`n`, for `n` from 1 to 32: the mask with only bit `n - 1` set.
    pub fn numbered(n: u32) -> (g: Group)
        requires
            1 <= n <= 32,
        ensures
            g@ == 1u32 << ((n - 1) as u32),
    {
        Group { bits: 1u32 << (n - 1) }
    }

    /// The raw bits of the mask.
    pub fn bits(&self) -> (b: u32)
        ensures
            b == self@,
    {
        self.bits
    }

    /// The mask with exactly the given bits. Every bit names a group, so no
    /// bit is ever dropped.
    pub fn from_bits_retain(bits: u32) -> (g: Group)
        ensures
            g@ == bits,
    {
        Group { bits }
    }

    /// Whether the mask holds no group.
    pub open spec fn spec_is_empty(&self) -> bool {
        self@ == 0
    }

    /// Whether the mask holds no group.
    #[verifier::when_used_as_spec(spec_is_empty)]
    pub fn is_empty(&self) -> (b: bool)
        ensures
            b == self.spec_is_empty(),
    {
        self.bits == 0
    }

    /// Whether the mask holds every group.
    pub open spec fn spec_is_all(&self) -> bool {
        self@ == 0xffff_ffffu32
    }

    /// Whether the mask holds every group.
    #[verifier::when_used_as_spec(spec_is_all)]
    pub fn is_all(&self) -> (b: bool)
        ensures
            b == self.spec_is_all(),
    {
        self.bits == 0xffff_ffff
    }

    /// Whether the two masks share at least one group.
    pub open spec fn spec_intersects(&self, other: Group) -> bool {
        self@ & other@ != 0
    }

    /// Whether the two masks share at least one group.
    #[verifier::when_used_as_spec(spec_intersects)]
    pub fn intersects(&self, other: Group) -> (b: bool)
        ensures
            b == self.spec_intersects(other),
    {
        (self.bits & other.bits) != 0
    }

    /// Whether every group of `other` is also in this mask.
    pub open spec fn spec_contains(&self, other: Group) -> bool {
        self@ & other@ == other@
    }

    /// Whether every group of `other` is also in this mask.
    #[verifier::when_used_as_spec(spec_contains)]
    pub fn contains(&self, other: Group) -> (b: bool)
        ensures
            b == self.spec_contains(other),
    {
        (self.bits & other.bits) == other.bits
    }

    /// The groups that are in either mask.
    pub fn union(self, other: Group) -> (g: Group)
        ensures
            g@ == self@ | other@,
    {
        Group { bits: self.bits | other.bits }
    }

    /// The groups that are in both masks.
    pub fn intersection(self, other: Group) -> (g: Group)
        ensures
            g@ == self@ & other@,
    {
        Group { bits: self.bits & other.bits }
    }

    /// The groups of this mask that are not in `other`.
    pub fn difference(self, other: Group) -> (g: Group)
        ensures
            g@ == self@ & !other@,
    {
        Group { bits: self.bits & !other.bits }
    }

    /// The groups that are not in this mask.
    pub fn complement(self) -> (g: Group)
        ensures
            g@ == !self@,
    {
        Group { bits: !self.bits }
    }
}

impl core::ops::BitAnd for Group {
    type Output = Group;

    fn bitand(self, rhs: Group) -> (g: Group) {
        Group { bits: self.bits & rhs.bits }
    }
}

impl vstd::std_specs::ops::BitAndSpecImpl for Group {
    open spec fn obeys_bitand_spec() -> bool {
        true
    }

    open spec fn bitand_req(self, rhs: Group) -> bool {
        true
    }

    open spec fn bitand_spec(self, rhs: Group) -> Group {
        Group { bits: self.bits & rhs.bits }
    }
}

impl core::ops::BitOr for Group {
    type Output = Group;

    fn bitor(self, rhs: Group) -> (g: Group) {
        Group { bits: self.bits | rhs.bits }
    }
}

impl vstd::std_specs::ops::BitOrSpecImpl for Group {
    open spec fn obeys_bitor_spec() -> bool {
        true
    }

    open spec fn bitor_req(self, rhs: Group) -> bool {
        true
    }

    open spec fn bitor_spec(self, rhs: Group) -> Group {
        Group { bits: self.bits | rhs.bits }
    }
}

impl Default for Group {
    /// A mask starts out holding every group.
    fn default() -> (g: Group)
        ensures
            g@ == 0xffff_ffffu32,
    {
        Group { bits: 0xffff_ffff }
    }
}

/// Sharing a group is mutual: if one mask intersects another, the other
/// intersects it.
pub proof fn lemma_intersects_symmetric(a: Group, b: Group)
    ensures
        a.intersects(b) == b.intersects(a),
{
    let x = a@;
    let y = b@;
    assert(x & y == y & x) by (bit_vector);
}

/// The empty mask shares no group with any mask, and the full mask shares a
/// group with every mask but the empty one.
pub proof fn lemma_intersects_extremes(a: Group, none: Group, all: Group)
    requires
        none@ == 0,
        all@ == 0xffff_ffffu32,
    ensures
        !a.intersects(none),
        !none.intersects(a),
        a.intersects(all) == !a.is_empty(),
{
    let x = a@;
    assert(x & 0u32 == 0u32) by (bit_vector);
    assert(0u32 & x == 0u32) by (bit_vector);
    assert(x & 0xffff_ffffu32 == x) by (bit_vector);
}

} // verus!
