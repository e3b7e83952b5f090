//! What holds between writing a container and reading it back.

use crate::codec::decoded_image;
use crate::decode::{
    consumed, decode_outcome, entries_of, entry_end, first_largest, found,
    lemma_first_largest_is_unique, lemma_walk_fails_truncated, selected, toc_tag, unpacked,
    version_tag, walk, Candidate,
};
use crate::encode::{container_of, framed, icon_payload, rendering, targets, IconView};
use crate::endian::{be_bytes, lemma_be_value_of_bytes};
use crate::error::IcnsError;
use crate::framing::{container_bytes, entry_bytes, magic};
use crate::os_type::{
    catalog, lemma_catalog_is_complete, lemma_sizes_descend, lemma_tags_are_unique, spec_nearest,
    tag_kind, OSType,
};
use crate::raster::Raster;
use vstd::prelude::*;

verus! {

/// The entries of `entries`, framed one behind the other.
pub open spec fn body_of(entries: Seq<Candidate>) -> Seq<u8>
    decreases entries.len(),
{
    if entries.len() == 0 {
        Seq::empty()
    } else {
        entry_bytes(entries[0].kind.spec_tag(), entries[0].payload) + body_of(
            entries.drop_first(),
        )
    }
}

/// The entries of `entries` that carry a payload, in their order.
pub open spec fn with_payload(entries: Seq<Candidate>) -> Seq<Candidate>
    decreases entries.len(),
{
    if entries.len() == 0 {
        Seq::empty()
    } else if entries[0].payload.len() == 0 {
        with_payload(entries.drop_first())
    } else {
        seq![entries[0]] + with_payload(entries.drop_first())
    }
}

/// Every entry fits the 32-bit size field of its header.
pub open spec fn all_fit(entries: Seq<Candidate>) -> bool {
    forall|i: int| 0 <= i < entries.len() ==> (#[trigger] entries[i]).payload.len() + 8 <= u32::MAX
}

/// What an icon set puts into its container: for each icon its type and its
/// compressed payload.
pub open spec fn packed(icons: Seq<IconView>) -> Seq<Candidate> {
    Seq::new(
        icons.len(),
        |i: int| Candidate { kind: icons[i].kind, payload: icon_payload(icons[i])->Some_0 },
    )
}

/// Passing over what was framed: a walk that comes to entries of known icon
/// types, framed one behind the other, finds exactly those that carry a
/// payload, in the order in which they were written, and goes on behind the
/// last of them. What stands before the entries and what follows them is of no
/// account.
pub proof fn lemma_walk_passes_entries(prefix: Seq<u8>, entries: Seq<Candidate>, suffix: Seq<u8>)
    requires
        all_fit(entries),
    ensures
        walk(prefix + body_of(entries) + suffix, prefix.len() as int) == found(
            with_payload(entries),
            walk(
                prefix + body_of(entries) + suffix,
                prefix.len() as int + body_of(entries).len() as int,
            ),
        ),
    decreases entries.len(),
{
    let s = prefix + body_of(entries) + suffix;
    let pos = prefix.len() as int;
    if entries.len() == 0 {
        match walk(s, pos) {
            Ok(more) => {
                assert(Seq::<Candidate>::empty() + more == more);
            },
            Err(_) => {},
        }
    } else {
        let first = entries[0];
        let rest = entries.drop_first();
        let tag = first.kind.spec_tag();
        let size = (first.payload.len() + 8) as u32;
        let entry = entry_bytes(tag, first.payload);
        lemma_tags_are_unique();
        lemma_be_value_of_bytes(size);
        assert(entry.len() == first.payload.len() + 8);
        assert(s == (prefix + entry) + body_of(rest) + suffix);
        assert(s.subrange(pos, pos + 4) == tag);
        assert(s.subrange(pos + 4, pos + 8) == be_bytes(size));
        assert(s.subrange(pos + 8, pos + size) == first.payload);
        assert(tag[3] != toc_tag()[3]);
        assert(tag[3] != version_tag()[3]);
        assert(entry_end(s, pos) == Some(pos + size));
        assert(all_fit(rest)) by {
            assert forall|i: int| 0 <= i < rest.len() implies (#[trigger] rest[i]).payload.len()
                + 8 <= u32::MAX by {
                assert(rest[i] == entries[i + 1]);
            }
        }
        lemma_walk_passes_entries(prefix + entry, rest, suffix);
        assert((prefix + entry).len() == pos + size);
        let behind = walk(s, pos + body_of(entries).len() as int);
        if first.payload.len() > 0 {
            assert(seq![Candidate { kind: first.kind, payload: first.payload }] == seq![first]);
            match behind {
                Ok(more) => {
                    assert(seq![first] + (with_payload(rest) + more) == (seq![first]
                        + with_payload(rest)) + more);
                },
                Err(_) => {},
            }
        }
    }
}

/// Reading back what was framed: where nothing follows the entries, the walk
/// finds the entries that carry a payload and nothing else.
pub proof fn lemma_walk_reads_back(prefix: Seq<u8>, entries: Seq<Candidate>)
    requires
        all_fit(entries),
    ensures
        walk(prefix + body_of(entries), prefix.len() as int) == Ok::<Seq<Candidate>, IcnsError>(
            with_payload(entries),
        ),
{
    let s = prefix + body_of(entries);
    lemma_walk_passes_entries(prefix, entries, Seq::empty());
    assert(s + Seq::<u8>::empty() == s);
    assert(with_payload(entries) + Seq::<Candidate>::empty() == with_payload(entries));
}

/// Reading back a whole container: its image entries are the framed entries
/// that carry a payload.
pub proof fn lemma_container_reads_back(entries: Seq<Candidate>)
    requires
        all_fit(entries),
    ensures
        entries_of(container_bytes(body_of(entries))) == Ok::<Seq<Candidate>, IcnsError>(
            with_payload(entries),
        ),
{
    let body = body_of(entries);
    let prefix = magic() + be_bytes((body.len() + 8) as u32);
    let s = container_bytes(body);
    assert(s == prefix + body);
    assert(prefix.len() == 8);
    assert(s.subrange(0, 4) == magic());
    lemma_walk_reads_back(prefix, entries);
}

/// Entries without a payload are passed over: a container that holds nothing
/// but such entries, however many and of whatever icon types, decodes to
/// `NoIconsFound`.
pub proof fn lemma_empty_entries_hold_no_icon(entries: Seq<Candidate>)
    requires
        forall|i: int| 0 <= i < entries.len() ==> (#[trigger] entries[i]).payload.len() == 0,
    ensures
        entries_of(container_bytes(body_of(entries))) == Ok::<Seq<Candidate>, IcnsError>(
            Seq::empty(),
        ),
        decode_outcome(container_bytes(body_of(entries))) == Err::<Raster, IcnsError>(
            IcnsError::NoIconsFound,
        ),
{
    lemma_container_reads_back(entries);
    lemma_nothing_with_payload(entries);
}

proof fn lemma_nothing_with_payload(entries: Seq<Candidate>)
    requires
        forall|i: int| 0 <= i < entries.len() ==> (#[trigger] entries[i]).payload.len() == 0,
    ensures
        with_payload(entries) == Seq::<Candidate>::empty(),
    decreases entries.len(),
{
    if entries.len() > 0 {
        let rest = entries.drop_first();
        assert forall|i: int| 0 <= i < rest.len() implies (#[trigger] rest[i]).payload.len()
            == 0 by {
            assert(rest[i] == entries[i + 1]);
        }
        lemma_nothing_with_payload(rest);
    }
}

/// A wrong magic, and nothing else, fails a decode with `BadMagic`; the
/// decoder has then read the four bytes of the magic and no more.
pub proof fn lemma_bad_magic(s: Seq<u8>)
    ensures
        decode_outcome(s) == Err::<Raster, IcnsError>(IcnsError::BadMagic) <==> s.len()
            >= 4 && s.subrange(0, 4) != magic(),
        s.len() >= 4 && s.subrange(0, 4) != magic() ==> consumed(s) == 4,
{
    lemma_walk_fails_truncated(s, 8);
}

/// A payload that is cut short fails the decode. Let a container hold entries
/// of known icon types and behind them the header of one more, which declares
/// `size` bytes for the entry; if fewer bytes than the declared payload follow,
/// the stream is truncated, whatever the entries before it hold.
pub proof fn lemma_truncated_payload(
    entries: Seq<Candidate>,
    kind: OSType,
    size: u32,
    partial: Seq<u8>,
)
    requires
        all_fit(entries),
        8 + partial.len() < size,
    ensures
        decode_outcome(
            container_bytes(body_of(entries)) + kind.spec_tag() + be_bytes(size) + partial,
        ) == Err::<Raster, IcnsError>(IcnsError::TruncatedStream),
{
    let body = body_of(entries);
    let prefix = magic() + be_bytes((body.len() + 8) as u32);
    let suffix = kind.spec_tag() + be_bytes(size) + partial;
    let s = container_bytes(body) + kind.spec_tag() + be_bytes(size) + partial;
    let pos = 8 + body.len() as int;
    lemma_tags_are_unique();
    lemma_be_value_of_bytes(size);
    assert(s == prefix + body + suffix);
    assert(prefix.len() == 8);
    assert(s.subrange(0, 4) == magic());
    lemma_walk_passes_entries(prefix, entries, suffix);
    assert(s.subrange(pos, pos + 4) == kind.spec_tag());
    assert(s.subrange(pos + 4, pos + 8) == be_bytes(size));
    assert(kind.spec_tag()[3] != toc_tag()[3]);
    assert(kind.spec_tag()[3] != version_tag()[3]);
    assert(entry_end(s, pos) is None);
    assert(walk(s, pos) == Err::<Seq<Candidate>, IcnsError>(IcnsError::TruncatedStream));
}

/// The middle part of three parts stands where the first part ends.
proof fn lemma_middle_part(a: Seq<u8>, b: Seq<u8>, c: Seq<u8>)
    ensures
        (a + b + c).subrange(a.len() as int, a.len() as int + b.len() as int) == b,
        (a + b + c).len() == a.len() + b.len() + c.len(),
{
}

/// A word that is no tag of the format takes four bytes of a walk.
proof fn lemma_walk_skips_word(s: Seq<u8>, pos: int)
    requires
        0 <= pos,
        pos + 4 <= s.len(),
        s.subrange(pos, pos + 4) != toc_tag(),
        tag_kind(s.subrange(pos, pos + 4)) is None,
    ensures
        walk(s, pos) == walk(s, pos + 4),
{
}

/// The size field of an entry without payload is no tag of the format.
proof fn lemma_size_word_names_nothing()
    ensures
        be_bytes(8u32).len() == 4,
        be_bytes(8u32) != toc_tag(),
        tag_kind(be_bytes(8u32)) is None,
{
    let field = be_bytes(8u32);
    assert(field[0] == 0u8);
    assert(toc_tag()[0] != 0u8);
    assert forall|k: OSType| field != #[trigger] k.spec_tag() by {
        assert(k.spec_tag()[0] != 0u8);
    }
}

/// Unknown entries are passed over. Let a container hold entries of known icon
/// types, then an entry with no payload under a tag that names no icon type
/// and no table of contents, then more entries of known icon types. Reading it
/// finds what the entries before and after the unknown one carry, as if the
/// unknown one were not there.
pub proof fn lemma_unknown_entry_is_passed_over(
    before: Seq<Candidate>,
    tag: Seq<u8>,
    after: Seq<Candidate>,
)
    requires
        all_fit(before),
        all_fit(after),
        tag.len() == 4,
        tag != toc_tag(),
        tag_kind(tag) is None,
    ensures
        entries_of(
            container_bytes(body_of(before) + entry_bytes(tag, Seq::empty()) + body_of(after)),
        ) == Ok::<Seq<Candidate>, IcnsError>(with_payload(before) + with_payload(after)),
{
    let field = be_bytes(8u32);
    let body = body_of(before) + entry_bytes(tag, Seq::empty()) + body_of(after);
    let prefix = magic() + be_bytes((body.len() + 8) as u32);
    let s = container_bytes(body);
    let head = prefix + body_of(before);
    let pos = head.len() as int;
    lemma_size_word_names_nothing();
    assert(entry_bytes(tag, Seq::empty()) == tag + field);
    assert(s == head + (tag + field + body_of(after)));
    assert(s == head + tag + (field + body_of(after)));
    assert(s == (head + tag) + field + body_of(after));
    assert(s == (head + tag + field) + body_of(after));
    assert(s.subrange(0, 4) == magic() && s.len() >= 8 && prefix.len() == 8);
    let first_part = walk(s, 8);
    let second_part = walk(s, pos);
    assert(first_part == found(with_payload(before), second_part)) by {
        lemma_walk_passes_entries(prefix, before, tag + field + body_of(after));
    }
    assert(second_part == walk(s, pos + 4)) by {
        lemma_middle_part(head, tag, field + body_of(after));
        lemma_walk_skips_word(s, pos);
    }
    assert(walk(s, pos + 4) == walk(s, pos + 8)) by {
        lemma_middle_part(head + tag, field, body_of(after));
        lemma_walk_skips_word(s, pos + 4);
    }
    assert(walk(s, pos + 8) == Ok::<Seq<Candidate>, IcnsError>(with_payload(after))) by {
        lemma_walk_reads_back(head + tag + field, after);
    }
}

/// Two entries with a payload are both kept.
proof fn lemma_pair_is_kept(first: Candidate, second: Candidate)
    requires
        first.payload.len() > 0,
        second.payload.len() > 0,
    ensures
        with_payload(seq![first, second]) == seq![first, second],
{
    let entries = seq![first, second];
    assert(entries.drop_first() == seq![second]);
    assert(seq![second].drop_first() == Seq::<Candidate>::empty());
    assert(with_payload(Seq::<Candidate>::empty()) == Seq::<Candidate>::empty());
    assert(with_payload(seq![second]) == seq![second]);
    assert(seq![first] + seq![second] == entries);
}

/// The largest entry wins, wherever it stands. A container that holds two
/// entries with a payload decodes to the one of the larger icon type, in
/// either order; of two of the same type it decodes to the first.
pub proof fn lemma_largest_wins(first: Candidate, second: Candidate)
    requires
        0 < first.payload.len() <= u32::MAX - 8,
        0 < second.payload.len() <= u32::MAX - 8,
    ensures
        selected(container_bytes(body_of(seq![first, second]))) == Ok::<Candidate, IcnsError>(
            if second.kind.spec_size() > first.kind.spec_size() {
                second
            } else {
                first
            },
        ),
{
    let entries = seq![first, second];
    let at: int = if second.kind.spec_size() > first.kind.spec_size() {
        1
    } else {
        0
    };
    assert(entries_of(container_bytes(body_of(entries))) == Ok::<Seq<Candidate>, IcnsError>(
        entries,
    )) by {
        lemma_container_reads_back(entries);
        lemma_pair_is_kept(first, second);
    }
    assert(first_largest(entries, at));
    lemma_first_largest_is_unique(entries, at, at);
}

/// Whatever was kept of `entries` stood in `entries`, and a first entry with a
/// payload is kept first.
proof fn lemma_kept_entries(entries: Seq<Candidate>)
    ensures
        forall|j: int|
            0 <= j < with_payload(entries).len() ==> entries.contains(
                #[trigger] with_payload(entries)[j],
            ),
        entries.len() > 0 && entries[0].payload.len() > 0 ==> with_payload(entries).len() > 0
            && with_payload(entries)[0] == entries[0],
    decreases entries.len(),
{
    if entries.len() > 0 {
        let rest = entries.drop_first();
        lemma_kept_entries(rest);
        let kept = with_payload(entries);
        assert forall|j: int| 0 <= j < kept.len() implies entries.contains(#[trigger] kept[j]) by {
            if entries[0].payload.len() > 0 && j == 0 {
                assert(kept[0] == entries[0]);
            } else {
                let k = if entries[0].payload.len() > 0 {
                    j - 1
                } else {
                    j
                };
                assert(kept[j] == with_payload(rest)[k]);
                let at = choose|at: int| 0 <= at < rest.len() && rest[at] == with_payload(rest)[k];
                assert(entries[at + 1] == kept[j]);
            }
        }
    }
}

/// An icon set that can be framed is framed as the entries of its payloads.
proof fn lemma_framed_is_body(icons: Seq<IconView>, used: int)
    requires
        used >= 8,
        framed(icons, used) is Ok,
    ensures
        all_fit(packed(icons)),
        framed(icons, used) == Ok::<Seq<u8>, IcnsError>(body_of(packed(icons))),
        forall|i: int| 0 <= i < icons.len() ==> icon_payload(#[trigger] icons[i]) is Some,
    decreases icons.len(),
{
    if icons.len() > 0 {
        let payload = icon_payload(icons[0])->Some_0;
        let rest = icons.drop_first();
        lemma_framed_is_body(rest, used + 8 + payload.len());
        assert(packed(icons).drop_first() == packed(rest));
        assert forall|i: int| 0 <= i < icons.len() implies icon_payload(#[trigger] icons[i])
            is Some by {
            if i > 0 {
                assert(icons[i] == rest[i - 1]);
            }
        }
        assert forall|i: int| 0 <= i < packed(icons).len() implies (#[trigger] packed(
            icons,
        )[i]).payload.len() + 8 <= u32::MAX by {
            if i > 0 {
                assert(packed(icons)[i] == packed(rest)[i - 1]);
            }
        }
    }
}

/// Round trip. Let `icons` be a rendering of a source image of `width` by
/// `height` pixels, and let it encode to a container. Then decoding that
/// container settles on the entry of the nearest icon type of the source, with
/// the payload that was framed for it, and gives what the codec reads out of
/// that payload. Where the codec reads the payload back as the image that it
/// compressed, the decoded image is the source as it was scaled to the nearest
/// icon type: a square of that type's side, with the same samples.
///
/// The payload of the nearest type must not be empty; a decoder passes over an
/// empty one.
pub proof fn lemma_round_trip(width: u32, height: u32, icons: Seq<IconView>)
    requires
        rendering(width, height, icons),
        container_of(icons) is Ok,
        icon_payload(icons[0])->Some_0.len() > 0,
    ensures
        selected(container_of(icons)->Ok_0) == Ok::<Candidate, IcnsError>(
            Candidate { kind: targets(width, height)[0], payload: icon_payload(icons[0])->Some_0 },
        ),
        decode_outcome(container_of(icons)->Ok_0) == unpacked(
            Candidate { kind: targets(width, height)[0], payload: icon_payload(icons[0])->Some_0 },
        ),
        decoded_image(icon_payload(icons[0])->Some_0) == Some(icons[0].image) ==> decode_outcome(
            container_of(icons)->Ok_0,
        ) == Ok::<Raster, IcnsError>(icons[0].image),
        icons[0].image.width == targets(width, height)[0].spec_size(),
        icons[0].image.height == targets(width, height)[0].spec_size(),
        targets(width, height)[0] == spec_nearest(if width >= height { width } else { height }),
{
    let kinds = targets(width, height);
    let entries = packed(icons);
    let kept = with_payload(entries);
    lemma_catalog_is_complete();
    lemma_sizes_descend();
    lemma_framed_is_body(icons, 8);
    lemma_container_reads_back(entries);
    lemma_kept_entries(entries);
    assert(kinds.len() > 0);
    assert(entries[0].kind == kinds[0]);
    assert(first_largest(kept, 0)) by {
        assert forall|j: int| 0 <= j < kept.len() implies (#[trigger] kept[j]).kind.spec_size()
            <= kept[0].kind.spec_size() by {
            let at = choose|at: int| 0 <= at < entries.len() && entries[at] == kept[j];
            assert(entries[at].kind == icons[at].kind);
            assert(icons[at].kind == kinds[at]);
            assert(kinds[at] == catalog()[at + kinds[0].index()]);
        }
    }
    lemma_first_largest_is_unique(kept, 0, 0);
}

} // verus!
