//! Packing one source image, at every resolution it can fill, into a container.

use crate::codec::{png_encode, png_encoded, resizable, resize_square};
use crate::endian::{be_bytes, write_u32};
use crate::error::IcnsError;
use crate::framing::{
    container_bytes, entry_bytes, magic, write_entry, ICONSET_MAGIC, MAX_PAYLOAD,
};
use crate::os_type::{catalog, spec_nearest, OSType};
use crate::raster::{Raster, RasterImage};
use rayon::iter::{IntoParallelIterator, ParallelIterator};
use vstd::pervasive::unreached;
use vstd::prelude::*;
use vstd::string::StringSliceAdditionalSpecFns;

verus! {

/// One image of an icon set, as plain values.
pub struct IconView {
    pub kind: OSType,
    pub image: Raster,
}

/// The compressed payload of an icon, or `None` where the codec refuses it.
pub open spec fn icon_payload(icon: IconView) -> Option<Seq<u8>> {
    png_encoded(icon.image.pixels, icon.image.width, icon.image.height)
}

/// The entry of an icon, or `None` where the codec refuses the image or the
/// entry is too long for its 32-bit size field.
pub open spec fn icon_entry(icon: IconView) -> Option<Seq<u8>> {
    match icon_payload(icon) {
        Some(payload) => if payload.len() + 8 <= u32::MAX {
            Some(entry_bytes(icon.kind.spec_tag(), payload))
        } else {
            None
        },
        None => None,
    }
}

/// `head` in front of what `tail` holds, and the failure of `tail` unchanged.
pub open spec fn joined(head: Seq<u8>, tail: Result<Seq<u8>, IcnsError>) -> Result<
    Seq<u8>,
    IcnsError,
> {
    match tail {
        Ok(rest) => Ok(head + rest),
        Err(e) => Err(e),
    }
}

/// The entries of `icons`, in their order, for a container that already holds
/// `used` bytes. The first icon that has no payload, or whose entry would take
/// the container past what its 32-bit size field can say, fails the whole set
/// with that icon's type.
pub open spec fn framed(icons: Seq<IconView>, used: int) -> Result<Seq<u8>, IcnsError>
    decreases icons.len(),
{
    if icons.len() == 0 {
        Ok(Seq::empty())
    } else {
        match icon_payload(icons[0]) {
            Some(payload) => if used + 8 + payload.len() <= u32::MAX {
                match framed(icons.drop_first(), used + 8 + payload.len()) {
                    Ok(rest) => Ok(entry_bytes(icons[0].kind.spec_tag(), payload) + rest),
                    Err(e) => Err(e),
                }
            } else {
                Err(IcnsError::EncodeFailure(icons[0].kind))
            },
            None => Err(IcnsError::EncodeFailure(icons[0].kind)),
        }
    }
}

/// The container that holds `icons`, or the failure of the first icon that
/// cannot be framed.
pub open spec fn container_of(icons: Seq<IconView>) -> Result<Seq<u8>, IcnsError> {
    match framed(icons, 8) {
        Ok(body) => Ok(container_bytes(body)),
        Err(e) => Err(e),
    }
}

/// What writing the container of `icons` does to a writer that held `before`:
/// the container is appended, or the set cannot be framed and nothing is.
pub open spec fn written(
    icons: Seq<IconView>,
    before: Seq<u8>,
    after: Seq<u8>,
    res: Result<(), IcnsError>,
) -> bool {
    match container_of(icons) {
        Ok(container) => res is Ok && after == before + container,
        Err(e) => res == Err::<(), IcnsError>(e) && after == before,
    }
}

/// The icon types that a source image of `width` by `height` pixels is
/// rendered at: the nearest type for its longer side, and every smaller one.
pub open spec fn targets(width: u32, height: u32) -> Seq<OSType> {
    catalog().skip(spec_nearest(if width >= height { width } else { height }).index())
}

/// `icons` is a rendering of a source image of `width` by `height` pixels:
/// one square image for each target, in catalog order, of the target's size.
pub open spec fn rendering(width: u32, height: u32, icons: Seq<IconView>) -> bool {
    &&& icons.len() == targets(width, height).len()
    &&& forall|i: int| 0 <= i < icons.len() ==> sized_as(#[trigger] icons[i], targets(width, height)[i])
}

/// `icon` is an image for `kind`: square, of the side that `kind` asks for.
pub open spec fn sized_as(icon: IconView, kind: OSType) -> bool {
    &&& icon.kind == kind
    &&& icon.image.width == kind.spec_size()
    &&& icon.image.height == kind.spec_size()
    &&& icon.image.wf()
}

/// Whether `source` can be rendered: the resampler can scale it to its
/// nearest icon type, and with that to every smaller one.
pub open spec fn renderable(source: Raster) -> bool {
    resizable(source, targets(source.width, source.height)[0].spec_size())
}

/// Icon encodes a single icon.
struct Icon {
    kind: OSType,
    image: RasterImage,
}

impl View for Icon {
    type V = IconView;

    closed spec fn view(&self) -> IconView {
        IconView { kind: self.kind, image: self.image@ }
    }
}

impl Icon {
    /// Scales `img` to the square that `kind` asks for.
    fn render(img: &RasterImage, kind: OSType) -> (icon: Icon)
        requires
            resizable(img@, kind.spec_size()),
        ensures
            sized_as(icon@, kind),
    {
        let size: u32 = kind.size();
        match resize_square(img, size) {
            Some(image) => Icon { kind, image },
            None => unreached(),
        }
    }

    /// Write the encoded icon to writer `wr`: its tag, the entry's size and the
    /// compressed image. Nothing is written where this fails.
    fn write_to(self, wr: &mut Vec<u8>) -> (res: Result<(), IcnsError>)
        ensures
            match icon_entry(self@) {
                Some(entry) => res is Ok && final(wr)@ == old(wr)@ + entry,
                None => res == Err::<(), IcnsError>(IcnsError::EncodeFailure(self@.kind))
                    && final(wr)@ == old(wr)@,
            },
    {
        // Pre-buffer the png image so we can calculate size total.
        let (width, height) = (self.image.width(), self.image.height());
        let kind = self.kind;
        let raw = self.image.into_vec();
        match png_encode(raw.as_slice(), width, height) {
            Ok(buffer) => {
                if buffer.len() > MAX_PAYLOAD {
                    return Err(IcnsError::EncodeFailure(kind));
                }
                write_entry(kind.header().as_bytes(), buffer.as_slice(), wr);
                Ok(())
            },
            Err(_) => Err(IcnsError::EncodeFailure(kind)),
        }
    }
}

/// Scales `img` to each of `kinds` on the worker threads of rayon:
/// `into_par_iter`, `map` and `collect` into a `Vec`. Trusted: the result
/// holds one icon for each kind, in the order of `kinds`, and each is what
/// `Icon::render` promises for that kind.
#[verifier::external_body]
fn render_all(img: &RasterImage, kinds: Vec<OSType>) -> (icons: Vec<Icon>)
    requires
        forall|i: int| 0 <= i < kinds@.len() ==> resizable(img@, (#[trigger] kinds@[i]).spec_size()),
    ensures
        icons@.len() == kinds@.len(),
        forall|i: int| 0 <= i < icons@.len() ==> sized_as((#[trigger] icons@[i])@, kinds@[i]),
{
    kinds.into_par_iter().map(|v| Icon::render(img, v)).collect()
}

/// IconSet encodes a vector of icons.
pub struct IconSet {
    icons: Vec<Icon>,
}

impl View for IconSet {
    type V = Seq<IconView>;

    closed spec fn view(&self) -> Seq<IconView> {
        Seq::new(self.icons@.len(), |i: int| self.icons@[i]@)
    }
}

impl IconSet {
    /// Create an IconSet from the provided image.
    /// If width != height, the image will be resized using the largest side
    /// without preserving the aspect ratio.
    pub fn from(img: &RasterImage) -> (set: IconSet)
        requires
            renderable(img@),
        ensures
            rendering(img@.width, img@.height, set@),
    {
        let (width, height) = img.dimensions();
        let side: u32 = if width >= height { width } else { height };
        let kind = OSType::nearest(side);
        let kinds = kind.smaller_variants();
        proof {
            crate::os_type::lemma_sizes_descend();
            crate::os_type::lemma_catalog_is_complete();
            assert forall|i: int| 0 <= i < kinds@.len() implies resizable(
                img@,
                (#[trigger] kinds@[i]).spec_size(),
            ) by {
                assert(kinds@[i] == catalog()[i + kind.index()]);
                assert(kinds@[i].index() == i + kind.index());
                assert(kinds@[0] == kind);
                assert(4 * img@.width * kinds@[i].spec_size() <= 4 * img@.width * kind.spec_size())
                    by (nonlinear_arith)
                    requires
                        kinds@[i].spec_size() <= kind.spec_size(),
                        img@.width >= 0,
                ;
            }
        }
        let icons = render_all(img, kinds);
        let set = IconSet { icons };
        assert(set@.len() == targets(img@.width, img@.height).len());
        set
    }

    /// How many icons the set holds.
    pub fn len(&self) -> (n: usize)
        ensures
            n == self@.len(),
    {
        self.icons.len()
    }

    /// Write the encoded iconset to writer `wr`: the magic, the size of the
    /// container and the entries, in the order of the set. Nothing is written
    /// where an icon cannot be framed.
    pub fn write_to(self, wr: &mut Vec<u8>) -> (res: Result<(), IcnsError>)
        ensures
            written(self@, old(wr)@, final(wr)@, res),
    {
        // Pre-buffer the encoded icons so we can calculate the final size.
        let ghost all = self@;
        let ghost held = self.icons@;
        let mut buffer: Vec<u8> = Vec::new();
        proof {
            assert(all.skip(0) == all);
            match framed(all, 8) {
                Ok(body) => {
                    assert(buffer@ + body == body);
                },
                Err(_) => {},
            }
        }
        for icon in it: self.icons
            invariant
                it.seq() == held,
                all == self@,
                all.len() == held.len(),
                forall|i: int| 0 <= i < held.len() ==> (#[trigger] held[i])@ == all[i],
                buffer@.len() + 8 <= u32::MAX,
                *wr == *old(wr),
                framed(all, 8) == joined(
                    buffer@,
                    framed(all.skip(it.index() as int), 8 + buffer@.len() as int),
                ),
        {
            let kind = icon.kind;
            let ghost done = it.index() as int;
            let ghost rest = all.skip(done);
            assert(rest[0] == all[done]);
            assert(rest.drop_first() == all.skip(done + 1));
            let ghost before = buffer@;
            assert(icon@ == rest[0]);
            match icon.write_to(&mut buffer) {
                Ok(()) => {},
                Err(e) => {
                    return Err(e);
                },
            }
            if buffer.len() > MAX_PAYLOAD {
                return Err(IcnsError::EncodeFailure(kind));
            }
            proof {
                let payload = icon_payload(rest[0])->Some_0;
                let entry = entry_bytes(rest[0].kind.spec_tag(), payload);
                crate::os_type::lemma_tags_are_unique();
                crate::endian::lemma_be_value_of_bytes((payload.len() + 8) as u32);
                assert(entry.len() == 8 + payload.len());
                match framed(all.skip(done + 1), 8 + buffer@.len() as int) {
                    Ok(tail) => {
                        assert(before + (entry + tail) == (before + entry) + tail);
                    },
                    Err(_) => {},
                }
            }
        }
        let ghost done = all.len() as int;
        assert(all.skip(done as int).len() == 0);
        assert(buffer@ + Seq::<u8>::empty() == buffer@);
        // Write the 4-byte magic bytes to identify this as an icns image.
        proof {
            reveal_strlit("icns");
            vstd::string::is_ascii_spec_bytes(ICONSET_MAGIC);
            assert(ICONSET_MAGIC.spec_bytes() == magic());
        }
        wr.extend_from_slice(ICONSET_MAGIC.as_bytes());
        // Write the 4-byte container size in bytes.
        let size: u32 = (buffer.len() + 8) as u32;
        let field = write_u32(size);
        wr.extend_from_slice(field.as_slice());
        // Write the encoded icons.
        wr.extend_from_slice(buffer.as_slice());
        assert(wr@ == old(wr)@ + container_bytes(buffer@));
        Ok(())
    }
}

/// Encoder encodes icns image into the provided writer.
pub struct Encoder {
    w: Vec<u8>,
}

impl View for Encoder {
    type V = Seq<u8>;

    closed spec fn view(&self) -> Seq<u8> {
        self.w@
    }
}

impl Encoder {
    /// Create a new encoder that writes to `w`.
    pub fn new(w: Vec<u8>) -> (encoder: Encoder)
        ensures
            encoder@ == w@,
    {
        Encoder { w }
    }

    /// Encode an icns into the writer, using the source image.
    ///
    /// The image is scaled to its nearest icon type and to every smaller one,
    /// each scaled image is compressed and framed, and the container is
    /// appended to the writer. On failure the writer is left as it was. An
    /// image that cannot be scaled (it has no pixels, or is too wide for this
    /// machine) fails at its nearest icon type.
    pub fn encode(&mut self, img: &RasterImage) -> (res: Result<(), IcnsError>)
        ensures
            !renderable(img@) ==> final(self)@ == old(self)@ && res == Err::<(), IcnsError>(
                IcnsError::EncodeFailure(targets(img@.width, img@.height)[0]),
            ),
            renderable(img@) ==> exists|icons: Seq<IconView>|
                #[trigger] rendering(img@.width, img@.height, icons) && written(
                    icons,
                    old(self)@,
                    final(self)@,
                    res,
                ),
    {
        let (width, height) = img.dimensions();
        let side: u32 = if width >= height { width } else { height };
        let kind = OSType::nearest(side);
        proof {
            crate::os_type::lemma_catalog_is_complete();
            assert(targets(img@.width, img@.height)[0] == kind);
        }
        let size: u64 = kind.size() as u64;
        let row: u64 = width as u64 * 4;
        assert(row * size <= 0x3_ffff_fffc * 1024) by (nonlinear_arith)
            requires
                0 <= row <= 0x3_ffff_fffc,
                0 <= size <= 1024,
        ;
        if width == 0 || height == 0 || row * size > isize::MAX as u64 {
            return Err(IcnsError::EncodeFailure(kind));
        }
        let set = IconSet::from(img);
        let ghost icons = set@;
        let res = set.write_to(&mut self.w);
        assert(rendering(img@.width, img@.height, icons));
        res
    }

    /// What has been written so far.
    pub fn get_ref(&self) -> (w: &Vec<u8>)
        ensures
            w@ == self@,
    {
        &self.w
    }

    /// Gives up the encoder for its writer.
    pub fn into_inner(self) -> (w: Vec<u8>)
        ensures
            w@ == self@,
    {
        self.w
    }
}

} // verus!
