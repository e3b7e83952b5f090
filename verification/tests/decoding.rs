use icns::decode::decoded;
use icns::framing::write_entry;
use icns::{Decoder, IcnsError, OSType, RasterImage};

fn container(body: &[u8]) -> Vec<u8> {
    let mut out = b"icns".to_vec();
    out.extend_from_slice(&((body.len() + 8) as u32).to_be_bytes());
    out.extend_from_slice(body);
    out
}

fn entry(tag: &[u8], payload: &[u8]) -> Vec<u8> {
    let mut out = Vec::new();
    write_entry(tag, payload, &mut out);
    out
}

fn pixels(side: u32, shade: u8) -> Vec<u8> {
    let mut out = Vec::new();
    for i in 0..side * side {
        out.extend_from_slice(&[shade, (i % 251) as u8, (i / 251 % 251) as u8, 255]);
    }
    out
}

fn png(side: u32, shade: u8) -> Vec<u8> {
    let mut out = Vec::new();
    image::codecs::png::PngEncoder::new(&mut out)
        .encode(&pixels(side, shade), side, side, image::ColorType::Rgba8)
        .unwrap();
    out
}

fn decode(input: &[u8]) -> Result<(u32, u32, Vec<u8>), IcnsError> {
    Decoder::new(input).decode().map(|img| (img.width(), img.height(), img.into_vec()))
}

#[test]
fn the_larger_image_wins_when_it_comes_last() {
    let mut body = entry(b"ic11", &png(32, 1));
    body.extend(entry(b"ic10", &png(1024, 2)));
    assert_eq!(decode(&container(&body)), Ok((1024, 1024, pixels(1024, 2))));
}

#[test]
fn the_larger_image_wins_when_it_comes_first() {
    let mut body = entry(b"ic10", &png(1024, 2));
    body.extend(entry(b"ic11", &png(32, 1)));
    assert_eq!(decode(&container(&body)), Ok((1024, 1024, pixels(1024, 2))));
}

#[test]
fn of_two_images_of_one_type_the_first_is_decoded() {
    let mut body = entry(b"ic12", &png(64, 5));
    body.extend(entry(b"ic12", &png(64, 6)));
    assert_eq!(decode(&container(&body)), Ok((64, 64, pixels(64, 5))));
}

#[test]
fn a_wrong_magic_fails_with_bad_magic() {
    assert_eq!(decode(b"icnz\0\0\0\x08"), Err(IcnsError::BadMagic));
    assert_eq!(decode(b"\0\0\0\0"), Err(IcnsError::BadMagic));
    let mut input = container(&entry(b"ic11", &png(32, 1)));
    input[3] = b'S';
    assert_eq!(decode(&input), Err(IcnsError::BadMagic));
}

#[test]
fn a_wrong_magic_stops_the_reader_behind_four_bytes() {
    let input = b"PNG!\0\0\0\x08ic11\0\0\0\x08";
    let mut decoder = Decoder::new(&input[..]);
    assert_eq!(decoder.remaining(), 16);
    assert!(matches!(decoder.decode(), Err(IcnsError::BadMagic)));
    assert_eq!(decoder.remaining(), 12);
}

#[test]
fn a_wrong_magic_of_exactly_four_bytes_is_read_whole() {
    let mut decoder = Decoder::new(&b"abcd"[..]);
    assert!(matches!(decoder.decode(), Err(IcnsError::BadMagic)));
    assert_eq!(decoder.remaining(), 0);
}

#[test]
fn a_decode_reads_the_stream_to_its_end() {
    let input = container(&entry(b"ic11", &png(32, 1)));
    let mut decoder = Decoder::new(&input);
    assert_eq!(decoder.remaining(), input.len());
    assert!(decoder.decode().is_ok());
    assert_eq!(decoder.remaining(), 0);
}

#[test]
fn a_failed_decode_reads_the_stream_to_its_end() {
    let mut decoder = Decoder::new(&b"icns\0\0\0\x10ic1"[..]);
    assert!(matches!(decoder.decode(), Err(IcnsError::TruncatedStream)));
    assert_eq!(decoder.remaining(), 0);
    let input = container(&[]);
    let mut decoder = Decoder::new(&input);
    assert!(matches!(decoder.decode(), Err(IcnsError::NoIconsFound)));
    assert_eq!(decoder.remaining(), 0);
}

#[test]
fn a_second_decode_finds_the_stream_spent() {
    let input = container(&entry(b"ic11", &png(32, 1)));
    let mut decoder = Decoder::new(&input);
    assert!(decoder.decode().is_ok());
    assert!(matches!(decoder.decode(), Err(IcnsError::TruncatedStream)));
}

#[test]
fn a_short_stream_is_truncated() {
    assert_eq!(decode(b""), Err(IcnsError::TruncatedStream));
    assert_eq!(decode(b"ic"), Err(IcnsError::TruncatedStream));
    assert_eq!(decode(b"icns"), Err(IcnsError::TruncatedStream));
    assert_eq!(decode(b"icns\0\0"), Err(IcnsError::TruncatedStream));
}

#[test]
fn only_empty_entries_give_no_icons_found() {
    let mut body = entry(b"ic10", &[]);
    body.extend(entry(b"ic11", &[]));
    body.extend(entry(b"ic12", &[]));
    assert_eq!(decode(&container(&body)), Err(IcnsError::NoIconsFound));
    assert_eq!(decode(&container(&entry(b"ic07", &[]))), Err(IcnsError::NoIconsFound));
}

#[test]
fn a_container_without_entries_gives_no_icons_found() {
    assert_eq!(decode(&container(&[])), Err(IcnsError::NoIconsFound));
}

#[test]
fn an_empty_entry_of_a_larger_type_does_not_hide_an_image() {
    let mut body = entry(b"ic10", &[]);
    body.extend(entry(b"ic11", &png(32, 3)));
    assert_eq!(decode(&container(&body)), Ok((32, 32, pixels(32, 3))));
}

#[test]
fn an_unknown_entry_before_the_image_is_tolerated() {
    let mut body = entry(b"zzzz", &[]);
    body.extend(entry(b"ic12", &png(64, 4)));
    assert_eq!(decode(&container(&body)), Ok((64, 64, pixels(64, 4))));
}

#[test]
fn an_unknown_entry_after_the_image_is_tolerated() {
    let mut body = entry(b"ic12", &png(64, 4));
    body.extend(entry(b"zzzz", &[]));
    assert_eq!(decode(&container(&body)), Ok((64, 64, pixels(64, 4))));
}

#[test]
fn a_table_of_contents_and_a_version_marker_are_tolerated() {
    let mut body = entry(b"TOC ", b"ic12\0\0\x10\0");
    body.extend(entry(b"icnV", &[0x42, 0xfc, 0, 0]));
    body.extend(entry(b"ic12", &png(64, 4)));
    assert_eq!(decode(&container(&body)), Ok((64, 64, pixels(64, 4))));
}

#[test]
fn a_payload_cut_short_is_truncated() {
    let mut body = b"ic12".to_vec();
    body.extend_from_slice(&1000u32.to_be_bytes());
    body.extend_from_slice(&png(64, 4)[..10]);
    assert_eq!(decode(&container(&body)), Err(IcnsError::TruncatedStream));
}

#[test]
fn a_cut_container_is_truncated() {
    let full = container(&entry(b"ic12", &png(64, 4)));
    for cut in [1, 2, 3, 5, 9, full.len() - 8 - 1] {
        assert_eq!(decode(&full[..full.len() - cut]), Err(IcnsError::TruncatedStream));
    }
}

#[test]
fn a_payload_that_is_no_image_fails_with_its_type() {
    let body = entry(b"ic12", b"this is not a png");
    assert_eq!(decode(&container(&body)), Err(IcnsError::DecodeFailure(OSType::IC12)));
}

#[test]
fn a_broken_largest_image_fails_the_decode() {
    let mut body = entry(b"ic11", &png(32, 1));
    let mut broken = png(64, 2);
    broken.truncate(40);
    body.extend(entry(b"ic14", &broken));
    assert_eq!(decode(&container(&body)), Err(IcnsError::DecodeFailure(OSType::IC14)));
}

#[test]
fn a_broken_smaller_image_is_never_looked_at() {
    let mut body = entry(b"ic11", b"junk");
    body.extend(entry(b"ic14", &png(512, 2)));
    assert_eq!(decode(&container(&body)), Ok((512, 512, pixels(512, 2))));
}

#[test]
fn an_image_is_decoded_at_its_own_dimensions() {
    let body = entry(b"ic10", &png(32, 8));
    assert_eq!(decode(&container(&body)), Ok((32, 32, pixels(32, 8))));
}

#[test]
fn an_image_without_alpha_is_decoded_to_rgba() {
    let rgb: Vec<u8> = (0..32 * 32 * 3).map(|i| (i % 200) as u8).collect();
    let mut payload = Vec::new();
    image::codecs::png::PngEncoder::new(&mut payload)
        .encode(&rgb, 32, 32, image::ColorType::Rgb8)
        .unwrap();
    let (w, h, raw) = decode(&container(&entry(b"ic11", &payload))).unwrap();
    assert_eq!((w, h), (32, 32));
    assert_eq!(raw.len(), 32 * 32 * 4);
    for (i, px) in raw.chunks(4).enumerate() {
        assert_eq!(&px[..3], &rgb[3 * i..3 * i + 3]);
        assert_eq!(px[3], 255);
    }
}

#[test]
fn a_loaded_image_is_handed_on() {
    let img = RasterImage::new(1, 1, vec![1, 2, 3, 4]).unwrap();
    let res = decoded(OSType::IC11, Ok(img)).unwrap();
    assert_eq!(res.dimensions(), (1, 1));
    assert_eq!(res.into_vec(), vec![1, 2, 3, 4]);
}

#[test]
fn a_codec_error_becomes_a_decode_failure() {
    let err = image::load_from_memory(b"junk").unwrap_err();
    assert!(matches!(
        decoded(OSType::IC13, Err(err)),
        Err(IcnsError::DecodeFailure(OSType::IC13))
    ));
}
