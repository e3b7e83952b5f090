//! The catalog of icon types that an ICNS container can hold.

use crate::error::IcnsError;
use vstd::prelude::*;
use vstd::string::StringSliceAdditionalSpecFns;

verus! {

/// OSType is an enum of various icon types that can exist inside an icns
/// container. This enum only contains the high resolution variants that we care
/// about.
#[derive(Clone, Copy, Debug, PartialEq, Eq, Structural)]
pub enum OSType {
    IC10,
    IC14,
    IC13,
    IC07,
    IC12,
    IC11,
}

/// Every icon type, largest first. The order is part of the format: targets
/// are generated and written in it.
pub open spec fn catalog() -> Seq<OSType> {
    seq![OSType::IC10, OSType::IC14, OSType::IC13, OSType::IC07, OSType::IC12, OSType::IC11]
}

/// The icon type that a four-byte tag names, if any.
pub open spec fn tag_kind(tag: Seq<u8>) -> Option<OSType> {
    if tag == OSType::IC10.spec_tag() {
        Some(OSType::IC10)
    } else if tag == OSType::IC14.spec_tag() {
        Some(OSType::IC14)
    } else if tag == OSType::IC13.spec_tag() {
        Some(OSType::IC13)
    } else if tag == OSType::IC07.spec_tag() {
        Some(OSType::IC07)
    } else if tag == OSType::IC12.spec_tag() {
        Some(OSType::IC12)
    } else if tag == OSType::IC11.spec_tag() {
        Some(OSType::IC11)
    } else {
        None
    }
}

/// The first icon type of the catalog that is no larger than `d` pixels, and
/// the smallest type where `d` is below all of them.
pub open spec fn spec_nearest(d: u32) -> OSType {
    if d >= 1024 {
        OSType::IC10
    } else if d >= 512 {
        OSType::IC14
    } else if d >= 256 {
        OSType::IC13
    } else if d >= 128 {
        OSType::IC07
    } else if d >= 64 {
        OSType::IC12
    } else {
        OSType::IC11
    }
}

/// Whether two byte strings hold the same bytes.
pub fn same_bytes(a: &[u8], b: &[u8]) -> (same: bool)
    ensures
        same == (a@ == b@),
{
    if a.len() != b.len() {
        return false;
    }
    let mut i: usize = 0;
    while i < a.len()
        invariant
            a@.len() == b@.len(),
            i <= a@.len(),
            a@.subrange(0, i as int) == b@.subrange(0, i as int),
        decreases a@.len() - i,
    {
        if a[i] != b[i] {
            return false;
        }
        i += 1;
    }
    assert(a@ == a@.subrange(0, a@.len() as int));
    assert(b@ == b@.subrange(0, b@.len() as int));
    true
}

impl OSType {
    /// Side length in pixels.
    pub open spec fn spec_size(self) -> u32 {
        match self {
            OSType::IC10 => 1024,
            OSType::IC14 => 512,
            OSType::IC13 => 256,
            OSType::IC07 => 128,
            OSType::IC12 => 64,
            OSType::IC11 => 32,
        }
    }

    /// The four ASCII bytes that introduce an entry of this type.
    pub open spec fn spec_tag(self) -> Seq<u8> {
        match self {
            OSType::IC10 => seq![0x69u8, 0x63u8, 0x31u8, 0x30u8],
            OSType::IC14 => seq![0x69u8, 0x63u8, 0x31u8, 0x34u8],
            OSType::IC13 => seq![0x69u8, 0x63u8, 0x31u8, 0x33u8],
            OSType::IC07 => seq![0x69u8, 0x63u8, 0x30u8, 0x37u8],
            OSType::IC12 => seq![0x69u8, 0x63u8, 0x31u8, 0x32u8],
            OSType::IC11 => seq![0x69u8, 0x63u8, 0x31u8, 0x31u8],
        }
    }

    /// The tag as text.
    pub open spec fn spec_header(self) -> Seq<char> {
        match self {
            OSType::IC10 => seq!['i', 'c', '1', '0'],
            OSType::IC14 => seq!['i', 'c', '1', '4'],
            OSType::IC13 => seq!['i', 'c', '1', '3'],
            OSType::IC07 => seq!['i', 'c', '0', '7'],
            OSType::IC12 => seq!['i', 'c', '1', '2'],
            OSType::IC11 => seq!['i', 'c', '1', '1'],
        }
    }

    /// Position in the catalog.
    pub open spec fn index(self) -> int {
        match self {
            OSType::IC10 => 0,
            OSType::IC14 => 1,
            OSType::IC13 => 2,
            OSType::IC07 => 3,
            OSType::IC12 => 4,
            OSType::IC11 => 5,
        }
    }

    /// Returns the largest OSType for the given dimension.
    pub fn nearest(d: u32) -> (kind: OSType)
        ensures
            kind == spec_nearest(d),
            kind.spec_size() <= d || (kind == OSType::IC11 && d < 32),
            forall|k: OSType| k.spec_size() <= d ==> k.spec_size() <= kind.spec_size(),
    {
        let variants = OSType::variants();
        let mut i: usize = 0;
        while i < variants.len()
            invariant
                variants@ == catalog(),
                i <= variants.len(),
                forall|j: int| 0 <= j < i ==> d < catalog()[j].spec_size(),
            decreases variants.len() - i,
        {
            let variant = variants[i];
            if d >= variant.size() {
                return variant;
            }
            i += 1;
        }
        OSType::IC11
    }

    /// Get a list of all OSType variants.
    pub fn variants() -> (all: Vec<OSType>)
        ensures
            all@ == catalog(),
    {
        let mut all: Vec<OSType> = Vec::new();
        all.push(OSType::IC10);
        all.push(OSType::IC14);
        all.push(OSType::IC13);
        all.push(OSType::IC07);
        all.push(OSType::IC12);
        all.push(OSType::IC11);
        all
    }

    /// Size in pixels.
    pub fn size(&self) -> (px: u32)
        ensures
            px == self.spec_size(),
    {
        match self {
            OSType::IC10 => 1024,
            OSType::IC14 => 512,
            OSType::IC13 => 256,
            OSType::IC07 => 128,
            OSType::IC12 => 64,
            OSType::IC11 => 32,
        }
    }

    /// 4 byte header corresponding to the OSType.
    pub fn header(&self) -> (text: &'static str)
        ensures
            text@ == self.spec_header(),
            text.spec_bytes() == self.spec_tag(),
    {
        proof {
            reveal_strlit("ic10");
            reveal_strlit("ic14");
            reveal_strlit("ic13");
            reveal_strlit("ic07");
            reveal_strlit("ic12");
            reveal_strlit("ic11");
        }
        let text = match self {
            OSType::IC10 => "ic10",
            OSType::IC14 => "ic14",
            OSType::IC13 => "ic13",
            OSType::IC07 => "ic07",
            OSType::IC12 => "ic12",
            OSType::IC11 => "ic11",
        };
        proof {
            vstd::string::is_ascii_spec_bytes(text);
            assert(text.spec_bytes() =~= self.spec_tag());
        }
        text
    }

    /// The icon type that `tag` names: an exact match against the six tags of
    /// the catalog, and `UnrecognizedTag` for any other bytes.
    pub fn parse(tag: &[u8]) -> (found: Result<OSType, IcnsError>)
        ensures
            found == match tag_kind(tag@) {
                Some(kind) => Ok::<OSType, IcnsError>(kind),
                None => Err(IcnsError::UnrecognizedTag),
            },
    {
        let variants = OSType::variants();
        let mut i: usize = 0;
        while i < variants.len()
            invariant
                variants@ == catalog(),
                i <= variants.len(),
                forall|j: int| 0 <= j < i ==> tag@ != catalog()[j].spec_tag(),
            decreases variants.len() - i,
        {
            let variant = variants[i];
            if same_bytes(tag, variant.header().as_bytes()) {
                proof {
                    lemma_tags_are_unique();
                }
                return Ok(variant);
            }
            i += 1;
        }
        proof {
            lemma_catalog_is_complete();
            assert(forall|k: OSType| tag@ != catalog()[k.index()].spec_tag());
        }
        Err(IcnsError::UnrecognizedTag)
    }

    /// Get a list of all variants equal to or smaller than the current one.
    pub fn smaller_variants(&self) -> (list: Vec<OSType>)
        ensures
            list@ == catalog().skip(self.index()),
            list@.len() > 0 && list@[0] == *self,
            forall|other: OSType| list@.contains(other) <==> other.spec_size() <= self.spec_size(),
    {
        let variants = OSType::variants();
        let mut ii: usize = 0;
        while ii < variants.len()
            invariant
                variants@ == catalog(),
                ii <= variants.len(),
                forall|j: int| 0 <= j < ii ==> catalog()[j].spec_size() > self.spec_size(),
            decreases variants.len() - ii,
        {
            if variants[ii].size() <= self.size() {
                let mut list: Vec<OSType> = Vec::new();
                let mut k: usize = ii;
                while k < variants.len()
                    invariant
                        variants@ == catalog(),
                        ii <= k <= variants.len(),
                        list@ == catalog().subrange(ii as int, k as int),
                    decreases variants.len() - k,
                {
                    list.push(variants[k]);
                    k += 1;
                }
                proof {
                    assert forall|other: OSType|
                        list@.contains(other) <==> other.spec_size() <= self.spec_size() by {
                        lemma_smaller_variants_are_the_smaller_sizes(*self, other);
                    }
                    lemma_smaller_variants_are_the_smaller_sizes(*self, *self);
                }
                return list;
            }
            ii += 1;
        }
        variants
    }
}

/// Text parses to the icon type whose tag it spells.
impl core::str::FromStr for OSType {
    type Err = IcnsError;

    fn from_str(s: &str) -> (found: Result<OSType, IcnsError>)
        ensures
            found == match tag_kind(s.spec_bytes()) {
                Some(kind) => Ok::<OSType, IcnsError>(kind),
                None => Err(IcnsError::UnrecognizedTag),
            },
    {
        OSType::parse(s.as_bytes())
    }
}

/// Every icon type stands in the catalog, at its own index and nowhere else.
pub proof fn lemma_catalog_is_complete()
    ensures
        catalog().len() == 6,
        forall|k: OSType| 0 <= #[trigger] k.index() < 6 && catalog()[k.index()] == k,
        forall|i: int| 0 <= i < 6 ==> (#[trigger] catalog()[i]).index() == i,
{
}

/// No two icon types share a tag, and a tag names the type that carries it.
pub proof fn lemma_tags_are_unique()
    ensures
        forall|a: OSType, b: OSType| #[trigger] a.spec_tag() == #[trigger] b.spec_tag() ==> a == b,
        forall|k: OSType| #[trigger] tag_kind(k.spec_tag()) == Some(k),
        forall|k: OSType| (#[trigger] k.spec_tag()).len() == 4,
{
}

/// Pixel sizes fall strictly along the catalog, so no two icon types share a
/// size and an earlier type is always the larger one.
pub proof fn lemma_sizes_descend()
    ensures
        forall|a: OSType, b: OSType|
            a.index() < b.index() <==> #[trigger] a.spec_size() > #[trigger] b.spec_size(),
        forall|a: OSType, b: OSType| #[trigger] a.spec_size() == #[trigger] b.spec_size() ==> a == b,
{
}

/// The icon types from `kind` to the end of the catalog are exactly those that
/// are no larger than `kind`.
pub proof fn lemma_smaller_variants_are_the_smaller_sizes(kind: OSType, other: OSType)
    ensures
        catalog().skip(kind.index()).contains(other) <==> other.spec_size() <= kind.spec_size(),
        catalog().skip(kind.index()).len() == 6 - kind.index(),
        catalog().skip(kind.index())[0] == kind,
{
    let rest = catalog().skip(kind.index());
    lemma_catalog_is_complete();
    lemma_sizes_descend();
    if other.spec_size() <= kind.spec_size() {
        assert(rest[other.index() - kind.index()] == other);
    }
}

} // verus!
