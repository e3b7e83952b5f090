//! Reading a container: walking its entries, choosing the largest image and
//! handing its payload to the codec.

use crate::codec::{decoded_image, load_from_memory};
use crate::endian::be_value;
use crate::error::IcnsError;
use crate::framing::{magic, read_entry_header, ICONSET_MAGIC};
use crate::os_type::{same_bytes, tag_kind, OSType};
use crate::raster::{Raster, RasterImage};
use vstd::prelude::*;
use vstd::slice::{slice_subrange, slice_to_vec};
use vstd::string::StringSliceAdditionalSpecFns;

verus! {

/// The tag of the table of contents, `TOC `.
pub open spec fn toc_tag() -> Seq<u8> {
    seq![0x54u8, 0x4fu8, 0x43u8, 0x20u8]
}

/// The tag of the version marker, `icnV`.
pub open spec fn version_tag() -> Seq<u8> {
    seq![0x69u8, 0x63u8, 0x6eu8, 0x56u8]
}

/// An image entry found in a container, as plain values.
pub struct Candidate {
    pub kind: OSType,
    pub payload: Seq<u8>,
}

/// IconReader associates os_type with icon data.
pub struct IconReader {
    pub os_type: OSType,
    pub data: Vec<u8>,
}

impl View for IconReader {
    type V = Candidate;

    open spec fn view(&self) -> Candidate {
        Candidate { kind: self.os_type, payload: self.data@ }
    }
}

/// The candidates that a list of readers stands for.
pub open spec fn candidates(icons: Seq<IconReader>) -> Seq<Candidate> {
    Seq::new(icons.len(), |i: int| icons[i]@)
}

/// Where the entry that starts at `pos` ends, by its declared size. `None`
/// where the stream ends inside the header, where the size is below the eight
/// bytes of the header itself, or where the stream ends before the entry does.
pub open spec fn entry_end(s: Seq<u8>, pos: int) -> Option<int> {
    if s.len() - pos < 8 {
        None
    } else {
        let size = be_value(s.subrange(pos + 4, pos + 8));
        if size < 8 || pos + size > s.len() {
            None
        } else {
            Some(pos + size)
        }
    }
}

/// `first` in front of what `rest` holds, and the failure of `rest` unchanged.
pub open spec fn found(first: Seq<Candidate>, rest: Result<Seq<Candidate>, IcnsError>) -> Result<
    Seq<Candidate>,
    IcnsError,
> {
    match rest {
        Ok(more) => Ok(first + more),
        Err(e) => Err(e),
    }
}

/// The image entries of `s` from `pos` on, in stream order.
///
/// The stream is read tag by tag. A table of contents is skipped by its
/// declared size. A version marker and an unknown tag take four bytes and the
/// walk goes on behind them. An entry of a known icon type is skipped where its
/// payload is empty and recorded otherwise. A stream that ends inside a tag, a
/// size field or a payload is truncated.
pub open spec fn walk(s: Seq<u8>, pos: int) -> Result<Seq<Candidate>, IcnsError>
    decreases s.len() - pos,
{
    if pos >= s.len() {
        Ok(Seq::empty())
    } else if s.len() - pos < 4 {
        Err(IcnsError::TruncatedStream)
    } else {
        let tag = s.subrange(pos, pos + 4);
        if tag == toc_tag() {
            match entry_end(s, pos) {
                Some(end) => walk(s, end),
                None => Err(IcnsError::TruncatedStream),
            }
        } else if tag == version_tag() {
            walk(s, pos + 4)
        } else {
            match tag_kind(tag) {
                Some(kind) => match entry_end(s, pos) {
                    Some(end) => if end == pos + 8 {
                        walk(s, end)
                    } else {
                        found(
                            seq![Candidate { kind, payload: s.subrange(pos + 8, end) }],
                            walk(s, end),
                        )
                    },
                    None => Err(IcnsError::TruncatedStream),
                },
                None => walk(s, pos + 4),
            }
        }
    }
}

/// The image entries of a whole stream: the magic must open it, the container
/// size follows and is read past, and the entries are walked to the end.
pub open spec fn entries_of(s: Seq<u8>) -> Result<Seq<Candidate>, IcnsError> {
    if s.len() < 4 {
        Err(IcnsError::TruncatedStream)
    } else if s.subrange(0, 4) != magic() {
        Err(IcnsError::BadMagic)
    } else if s.len() < 8 {
        Err(IcnsError::TruncatedStream)
    } else {
        walk(s, 8)
    }
}

/// `i` is the first position of `c` whose icon type is the largest in `c`.
pub open spec fn first_largest(c: Seq<Candidate>, i: int) -> bool {
    &&& 0 <= i < c.len()
    &&& forall|j: int| 0 <= j < c.len() ==> (#[trigger] c[j]).kind.spec_size() <= c[i].kind.spec_size()
    &&& forall|j: int| 0 <= j < i ==> (#[trigger] c[j]).kind.spec_size() < c[i].kind.spec_size()
}

/// The candidate that decoding chooses: the largest, and of equals the first.
pub open spec fn largest_of(c: Seq<Candidate>) -> Candidate {
    c[choose|i: int| first_largest(c, i)]
}

/// The entry that decoding a stream settles on, or why it settles on none.
pub open spec fn selected(s: Seq<u8>) -> Result<Candidate, IcnsError> {
    match entries_of(s) {
        Ok(c) => if c.len() == 0 {
            Err(IcnsError::NoIconsFound)
        } else {
            Ok(largest_of(c))
        },
        Err(e) => Err(e),
    }
}

/// What the codec makes of the chosen entry: its image, or a decode failure
/// that names the entry's icon type.
pub open spec fn unpacked(chosen: Candidate) -> Result<Raster, IcnsError> {
    match decoded_image(chosen.payload) {
        Some(img) => Ok(img),
        None => Err(IcnsError::DecodeFailure(chosen.kind)),
    }
}

/// What decoding a stream gives.
pub open spec fn decode_outcome(s: Seq<u8>) -> Result<Raster, IcnsError> {
    match selected(s) {
        Ok(chosen) => unpacked(chosen),
        Err(e) => Err(e),
    }
}

/// How many bytes of a stream decoding reads: the magic alone where it is
/// wrong, and otherwise the stream to its end.
pub open spec fn consumed(s: Seq<u8>) -> int {
    if s.len() >= 4 && s.subrange(0, 4) != magic() {
        4
    } else {
        s.len() as int
    }
}

/// A walk fails in one way only: the stream is truncated.
pub proof fn lemma_walk_fails_truncated(s: Seq<u8>, pos: int)
    ensures
        walk(s, pos) is Err ==> walk(s, pos) == Err::<Seq<Candidate>, IcnsError>(
            IcnsError::TruncatedStream,
        ),
    decreases s.len() - pos,
{
    if pos < s.len() && s.len() - pos >= 4 {
        let tag = s.subrange(pos, pos + 4);
        lemma_walk_fails_truncated(s, pos + 4);
        match entry_end(s, pos) {
            Some(end) => {
                lemma_walk_fails_truncated(s, end);
            },
            None => {},
        }
    }
}

/// At most one position is the first largest.
pub proof fn lemma_first_largest_is_unique(c: Seq<Candidate>, i: int, j: int)
    requires
        first_largest(c, i),
        first_largest(c, j),
    ensures
        i == j,
        largest_of(c) == c[i],
{
    let k = choose|k: int| first_largest(c, k);
    if i < k {
        assert(c[i].kind.spec_size() < c[k].kind.spec_size());
    }
    if k < i {
        assert(c[k].kind.spec_size() < c[i].kind.spec_size());
    }
    if i < j {
        assert(c[i].kind.spec_size() < c[j].kind.spec_size());
    }
    if j < i {
        assert(c[j].kind.spec_size() < c[i].kind.spec_size());
    }
}

fn toc_bytes() -> (tag: &'static [u8])
    ensures
        tag@ == toc_tag(),
{
    let text = "TOC ";
    proof {
        reveal_strlit("TOC ");
        vstd::string::is_ascii_spec_bytes(text);
        assert(text.spec_bytes() == toc_tag());
    }
    text.as_bytes()
}

fn version_bytes() -> (tag: &'static [u8])
    ensures
        tag@ == version_tag(),
{
    let text = "icnV";
    proof {
        reveal_strlit("icnV");
        vstd::string::is_ascii_spec_bytes(text);
        assert(text.spec_bytes() == version_tag());
    }
    text.as_bytes()
}

/// Reads the header of the entry that starts at `pos` and gives the position
/// behind the entry.
fn read_entry_end(input: &[u8], pos: usize) -> (end: Result<usize, IcnsError>)
    requires
        pos <= input@.len(),
    ensures
        match entry_end(input@, pos as int) {
            Some(e) => end == Ok::<usize, IcnsError>(e as usize) && pos + 8 <= e <= input@.len(),
            None => end == Err::<usize, IcnsError>(IcnsError::TruncatedStream),
        },
{
    let rest = slice_subrange(input, pos, input.len());
    match read_entry_header(rest) {
        Ok((_, size)) => {
            assert(rest@.subrange(4, 8) == input@.subrange(pos + 4, pos + 8));
            if size < 8 || size as usize > rest.len() {
                Err(IcnsError::TruncatedStream)
            } else {
                Ok(pos + size as usize)
            }
        },
        Err(e) => Err(e),
    }
}

/// Walks a whole stream and collects its image entries, in stream order.
pub fn read_icons(input: &[u8]) -> (res: Result<Vec<IconReader>, IcnsError>)
    ensures
        match entries_of(input@) {
            Ok(c) => res is Ok && candidates(res->Ok_0@) == c,
            Err(e) => res == Err::<Vec<IconReader>, IcnsError>(e),
        },
{
    let n: usize = input.len();
    if n < 4 {
        return Err(IcnsError::TruncatedStream);
    }
    // Check the header.
    proof {
        reveal_strlit("icns");
        vstd::string::is_ascii_spec_bytes(ICONSET_MAGIC);
        assert(ICONSET_MAGIC.spec_bytes() == magic());
    }
    if !same_bytes(slice_subrange(input, 0, 4), ICONSET_MAGIC.as_bytes()) {
        return Err(IcnsError::BadMagic);
    }
    // The container size is read past; nothing is checked against it.
    if n < 8 {
        return Err(IcnsError::TruncatedStream);
    }
    let mut icons: Vec<IconReader> = Vec::new();
    let mut pos: usize = 8;
    proof {
        match walk(input@, 8) {
            Ok(more) => {
                assert(candidates(icons@) + more == more);
            },
            Err(_) => {},
        }
    }
    while pos < n
        invariant
            n == input@.len(),
            8 <= pos <= n,
            entries_of(input@) == walk(input@, 8),
            walk(input@, 8) == found(candidates(icons@), walk(input@, pos as int)),
        decreases n - pos,
    {
        if n - pos < 4 {
            return Err(IcnsError::TruncatedStream);
        }
        let tag = slice_subrange(input, pos, pos + 4);
        if same_bytes(tag, toc_bytes()) {
            // Advance the reader to skip over the TOC.
            match read_entry_end(input, pos) {
                Ok(end) => {
                    pos = end;
                },
                Err(e) => {
                    return Err(e);
                },
            }
        } else if same_bytes(tag, version_bytes()) {
            pos = pos + 4;
        } else {
            match OSType::parse(tag) {
                Ok(os_type) => {
                    match read_entry_end(input, pos) {
                        Ok(end) => {
                            if end > pos + 8 {
                                let data = slice_to_vec(slice_subrange(input, pos + 8, end));
                                let ghost before = candidates(icons@);
                                icons.push(IconReader { os_type, data });
                                proof {
                                    let one = seq![
                                        Candidate {
                                            kind: os_type,
                                            payload: input@.subrange(pos + 8, end as int),
                                        },
                                    ];
                                    assert(candidates(icons@) == before + one);
                                    match walk(input@, end as int) {
                                        Ok(more) => {
                                            assert(before + (one + more) == (before + one) + more);
                                        },
                                        Err(_) => {},
                                    }
                                }
                            }
                            pos = end;
                        },
                        Err(e) => {
                            return Err(e);
                        },
                    }
                },
                Err(_) => {
                    pos = pos + 4;
                },
            }
        }
    }
    assert(candidates(icons@) + Seq::<Candidate>::empty() == candidates(icons@));
    Ok(icons)
}

/// Picks the reader of the largest icon type, and of equals the first.
pub fn largest(icons: Vec<IconReader>) -> (best: Option<IconReader>)
    ensures
        icons@.len() == 0 <==> best is None,
        best is Some ==> best->Some_0@ == largest_of(candidates(icons@)),
        best is Some ==> exists|i: int|
            first_largest(candidates(icons@), i) && best->Some_0 == icons@[i],
{
    let ghost all = icons@;
    let mut best: Option<IconReader> = None;
    let ghost mut at: int = 0;
    for next in it: icons
        invariant
            it.seq() == all,
            all == icons@,
            best is None <==> it.index() == 0,
            best is Some ==> first_largest(candidates(all.take(it.index() as int)), at)
                && best->Some_0 == all[at],
    {
        let ghost seen = candidates(all.take(it.index() as int));
        let ghost now = candidates(all.take(it.index() + 1));
        assert(forall|j: int| 0 <= j < seen.len() ==> now[j] == seen[j]);
        let replace = match &best {
            Some(l) => next.os_type.size() > l.os_type.size(),
            None => true,
        };
        if replace {
            best = Some(next);
            proof {
                at = it.index() as int;
            }
        }
        assert(first_largest(now, at));
    }
    proof {
        assert(all.take(all.len() as int) == all);
        if best is Some {
            lemma_first_largest_is_unique(candidates(all), at, at);
        }
    }
    best
}

/// Settles a decode on what the codec made of the chosen payload: the image,
/// or a decode failure that names the entry's icon type.
pub fn decoded(kind: OSType, loaded: Result<RasterImage, image::ImageError>) -> (res: Result<
    RasterImage,
    IcnsError,
>)
    ensures
        match loaded {
            Ok(img) => res == Ok::<RasterImage, IcnsError>(img),
            Err(_) => res == Err::<RasterImage, IcnsError>(IcnsError::DecodeFailure(kind)),
        },
{
    match loaded {
        Ok(img) => Ok(img),
        Err(_) => Err(IcnsError::DecodeFailure(kind)),
    }
}

/// Decoder decodes the largest image from an icns image.
pub struct Decoder<'a> {
    r: &'a [u8],
}

impl<'a> View for Decoder<'a> {
    type V = Seq<u8>;

    /// The bytes that have not been read yet.
    closed spec fn view(&self) -> Seq<u8> {
        self.r@
    }
}

impl<'a> Decoder<'a> {
    /// Create a new Decoder that reads from `r`.
    pub fn new(r: &'a [u8]) -> (decoder: Decoder<'a>)
        ensures
            decoder@ == r@,
    {
        Decoder { r }
    }

    /// How many bytes have not been read yet.
    pub fn remaining(&self) -> (n: usize)
        ensures
            n == self@.len(),
    {
        self.r.len()
    }

    /// Decode icns from reader into image buffer.
    /// Picks the largest image in the icns container.
    ///
    /// ICNS is a container format that generally contains differently sized
    /// png images, and some other bits and pieces like a table of contents.
    ///
    /// Each image is preceded by an 8 byte header containing 2 data points:
    /// 1. 4 byte ascii ID indicating the OS_Type.
    /// 2. 4 byte unsigned integer (u32) that contains the size of the png
    ///  content including the header.
    ///
    /// Once we've parsed out all the icon data, we return the largest available
    /// image. A wrong magic stops the reader behind its four bytes; any other
    /// outcome leaves the reader at the end of the stream.
    pub fn decode(&mut self) -> (res: Result<RasterImage, IcnsError>)
        ensures
            match decode_outcome(old(self)@) {
                Ok(img) => res is Ok && res->Ok_0@ == img,
                Err(e) => res == Err::<RasterImage, IcnsError>(e),
            },
            res is Ok ==> res->Ok_0@.wf(),
            final(self)@ == old(self)@.skip(consumed(old(self)@)),
    {
        let input = self.r;
        let n: usize = input.len();
        let icons = match read_icons(input) {
            Ok(icons) => {
                self.r = slice_subrange(input, n, n);
                icons
            },
            Err(e) => {
                proof {
                    lemma_walk_fails_truncated(input@, 8);
                }
                match e {
                    IcnsError::BadMagic => {
                        self.r = slice_subrange(input, 4, n);
                    },
                    _ => {
                        self.r = slice_subrange(input, n, n);
                    },
                }
                return Err(e);
            },
        };
        match largest(icons) {
            Some(icon) => decoded(icon.os_type, load_from_memory(icon.data.as_slice())),
            None => Err(IcnsError::NoIconsFound),
        }
    }
}

} // verus!
