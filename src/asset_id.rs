use vstd::prelude::*;
use vstd::utf8::encode_utf8;

verus! {

/// Largest value that either component of an identifier may take.
pub const COMPONENT_MAX: u16 = 999;

/// A catalog identifier: a primary and a secondary component, each in
/// `0..=999`, written as `ppp-sss` with both parts padded to three digits.
///
/// Identifiers are ordered by the primary component first, then by the
/// secondary one.
#[derive(Clone, Copy, Debug, PartialEq, Eq, Structural, PartialOrd, Ord)]
pub struct AssetId(pub u16, pub u16);

/// The three ASCII digits of `n`, most significant first, padded with zeros.
pub open spec fn digits3(n: int) -> Seq<u8> {
    seq![(48 + n / 100) as u8, (48 + n / 10 % 10) as u8, (48 + n % 10) as u8]
}

/// Relies on std's formatting: the `{:03}` specifier writes an integer below
/// 1000 as exactly three decimal digits, padded on the left with zeros.
#[verifier::external_body]
fn format_pair(a: u16, b: u16) -> (r: String)
    requires
        a <= COMPONENT_MAX,
        b <= COMPONENT_MAX,
    ensures
        encode_utf8(r@) == digits3(a as int) + seq![45u8] + digits3(b as int),
{
    format!("{:03}-{:03}", a, b)
}

impl AssetId {
    /// Both components are within `0..=999`.
    pub open spec fn wf(self) -> bool {
        self.0 <= COMPONENT_MAX && self.1 <= COMPONENT_MAX
    }

    /// The position of a valid identifier in the total order.
    pub open spec fn ordinal(self) -> int {
        self.0 as int * 1000 + self.1 as int
    }

    /// The valid identifier at position `n` of the total order.
    pub open spec fn from_ordinal(n: int) -> AssetId {
        AssetId((n / 1000) as u16, (n % 1000) as u16)
    }

    /// The greatest identifier, which has no successor.
    pub open spec fn is_last(self) -> bool {
        self.0 == COMPONENT_MAX && self.1 == COMPONENT_MAX
    }

    /// Strict order: primary component first, secondary component second.
    pub open spec fn precedes(self, other: AssetId) -> bool {
        self.0 < other.0 || (self.0 == other.0 && self.1 < other.1)
    }

    /// The canonical text, as bytes: `ppp-sss`.
    pub open spec fn text(self) -> Seq<u8> {
        digits3(self.0 as int) + seq![45u8] + digits3(self.1 as int)
    }

    /// Builds an identifier, or `None` when a component is above 999.
    pub fn new(primary: u16, secondary: u16) -> (r: Option<AssetId>)
        ensures
            r == (if primary <= COMPONENT_MAX && secondary <= COMPONENT_MAX {
                Some(AssetId(primary, secondary))
            } else {
                None::<AssetId>
            }),
    {
        if primary <= COMPONENT_MAX && secondary <= COMPONENT_MAX {
            Some(AssetId(primary, secondary))
        } else {
            None
        }
    }

    /// Advances to the next identifier: the secondary component goes up by
    /// one, and from 999 it wraps to 0 and carries into the primary one.
    /// The greatest identifier has no successor and may not be advanced.
    pub fn increment(&mut self)
        requires
            old(self).wf(),
            !old(self).is_last(),
        ensures
            final(self).wf(),
            *final(self) == (if old(self).1 < COMPONENT_MAX {
                AssetId(old(self).0, (old(self).1 + 1) as u16)
            } else {
                AssetId((old(self).0 + 1) as u16, 0)
            }),
            final(self).ordinal() == old(self).ordinal() + 1,
    {
        if self.1 < COMPONENT_MAX {
            self.1 = self.1 + 1;
        } else {
            self.1 = 0;
            self.0 = self.0 + 1;
        }
    }

    /// Whether `self` comes strictly before `other`.
    pub fn is_before(&self, other: &AssetId) -> (r: bool)
        ensures
            r == self.precedes(*other),
    {
        self.0 < other.0 || (self.0 == other.0 && self.1 < other.1)
    }

    /// The canonical text form, `ppp-sss`.
    pub fn to_string(&self) -> (r: String)
        requires
            self.wf(),
        ensures
            encode_utf8(r@) == self.text(),
    {
        format_pair(self.0, self.1)
    }
}

/// On valid identifiers the component order is the order of ordinals.
pub proof fn lemma_precedes_ordinal(a: AssetId, b: AssetId)
    requires
        a.wf(),
        b.wf(),
    ensures
        a.precedes(b) <==> a.ordinal() < b.ordinal(),
        a == b <==> a.ordinal() == b.ordinal(),
{
    let (a0, a1, b0, b1) = (a.0 as int, a.1 as int, b.0 as int, b.1 as int);
    assert(a0 < b0 ==> a0 * 1000 + a1 < b0 * 1000 + b1) by (nonlinear_arith)
        requires a1 < 1000, b1 >= 0;
    assert(b0 < a0 ==> b0 * 1000 + b1 < a0 * 1000 + a1) by (nonlinear_arith)
        requires b1 < 1000, a1 >= 0;
}

/// A valid identifier is recovered from its ordinal.
pub proof fn lemma_ordinal_round_trip(a: AssetId)
    requires
        a.wf(),
    ensures
        AssetId::from_ordinal(a.ordinal()) == a,
        0 <= a.ordinal() < 1000 * 1000,
{
    let n = a.ordinal();
    assert(n / 1000 == a.0 as int && n % 1000 == a.1 as int) by (nonlinear_arith)
        requires n == a.0 as int * 1000 + a.1 as int, 0 <= a.1 < 1000, 0 <= a.0;
}

/// Every ordinal below a million names a valid identifier.
pub proof fn lemma_from_ordinal_wf(n: int)
    requires
        0 <= n < 1000 * 1000,
    ensures
        AssetId::from_ordinal(n).wf(),
        AssetId::from_ordinal(n).ordinal() == n,
{
    assert(0 <= n / 1000 < 1000 && 0 <= n % 1000 < 1000 && (n / 1000) * 1000 + n % 1000 == n)
        by (nonlinear_arith)
        requires 0 <= n < 1000 * 1000;
}

} // verus!
