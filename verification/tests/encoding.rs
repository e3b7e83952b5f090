use icns::decode::read_icons;
use icns::encode::IconSet;
use icns::{Decoder, Encoder, IcnsError, OSType, RasterImage};
use image::imageops::{resize, FilterType};

fn describe(e: IcnsError) -> String {
    format!("{:?}", e)
}

fn gradient(width: u32, height: u32) -> image::RgbaImage {
    let mut img = image::RgbaImage::new(width, height);
    for (x, y, px) in img.enumerate_pixels_mut() {
        *px = image::Rgba([(x % 256) as u8, (y % 256) as u8, ((x + y) % 256) as u8, 255]);
    }
    img
}

fn raster(img: &image::RgbaImage) -> RasterImage {
    RasterImage::new(img.width(), img.height(), img.as_raw().clone()).unwrap()
}

fn png(img: &image::RgbaImage) -> Vec<u8> {
    let mut out = Vec::new();
    image::codecs::png::PngEncoder::new(&mut out)
        .encode(img.as_raw(), img.width(), img.height(), image::ColorType::Rgba8)
        .unwrap();
    out
}

fn encode(img: &image::RgbaImage) -> Result<Vec<u8>, IcnsError> {
    let mut encoder = Encoder::new(Vec::new());
    encoder.encode(&raster(img))?;
    Ok(encoder.into_inner())
}

fn expected_container(img: &image::RgbaImage, kinds: &[OSType]) -> Vec<u8> {
    let mut body = Vec::new();
    for kind in kinds {
        let payload = png(&resize(img, kind.size(), kind.size(), FilterType::Lanczos3));
        body.extend_from_slice(kind.header().as_bytes());
        body.extend_from_slice(&((payload.len() + 8) as u32).to_be_bytes());
        body.extend_from_slice(&payload);
    }
    let mut out = b"icns".to_vec();
    out.extend_from_slice(&((body.len() + 8) as u32).to_be_bytes());
    out.extend_from_slice(&body);
    out
}

#[test]
fn codec_symmetry() -> Result<(), Box<dyn std::error::Error>> {
    let input_img = image::RgbaImage::new(64, 64);
    let mut encoder = Encoder::new(Vec::new());
    encoder
        .encode(&raster(&input_img))
        .map_err(|e| format!("encoding icns: {}", describe(e)))?;
    let icns_buffer: Vec<u8> = encoder.into_inner();
    let got_img = Decoder::new(icns_buffer.as_slice())
        .decode()
        .map_err(|e| format!("decoding icns: {}", describe(e)))?;
    let (l, r) = (input_img.dimensions(), got_img.dimensions());
    assert_eq!(l, r, "dimension mismatch: {:?} != {:?}", l, r);
    assert_eq!(input_img.into_vec(), got_img.into_vec(), "buffer mismatch");
    Ok(())
}

#[test]
fn a_container_is_magic_size_and_entries_in_catalog_order() {
    let img = gradient(64, 64);
    let out = encode(&img).unwrap();
    assert_eq!(out, expected_container(&img, &[OSType::IC12, OSType::IC11]));
}

#[test]
fn the_container_size_is_the_length_of_the_output() {
    let out = encode(&gradient(130, 130)).unwrap();
    assert_eq!(&out[..4], b"icns");
    assert_eq!(u32::from_be_bytes([out[4], out[5], out[6], out[7]]) as usize, out.len());
}

#[test]
fn every_entry_size_is_payload_plus_header() {
    let out = encode(&gradient(256, 256)).unwrap();
    let mut pos = 8;
    let mut tags = Vec::new();
    while pos < out.len() {
        let size = u32::from_be_bytes([out[pos + 4], out[pos + 5], out[pos + 6], out[pos + 7]]);
        assert!(size > 8);
        assert_eq!(&out[pos + 8..pos + 16], b"\x89PNG\r\n\x1a\n");
        tags.push(out[pos..pos + 4].to_vec());
        pos += size as usize;
    }
    assert_eq!(pos, out.len());
    assert_eq!(tags, vec![b"ic13".to_vec(), b"ic07".to_vec(), b"ic12".to_vec(), b"ic11".to_vec()]);
}

#[test]
fn the_entries_hold_the_resized_images() {
    let img = gradient(200, 200);
    let out = encode(&img).unwrap();
    let icons = read_icons(&out).unwrap();
    let kinds: Vec<OSType> = icons.iter().map(|i| i.os_type).collect();
    assert_eq!(kinds, vec![OSType::IC07, OSType::IC12, OSType::IC11]);
    for icon in icons {
        let side = icon.os_type.size();
        let loaded = image::load_from_memory(&icon.data).unwrap().into_rgba8();
        assert_eq!(loaded.dimensions(), (side, side));
        assert_eq!(loaded, resize(&img, side, side, FilterType::Lanczos3));
    }
}

#[test]
fn a_round_trip_gives_the_image_resized_to_the_nearest_type() {
    for side in [32u32, 33, 64, 100, 128, 300] {
        let img = gradient(side, side);
        let out = encode(&img).unwrap();
        let got = Decoder::new(&out).decode().unwrap();
        let nearest = OSType::nearest(side).size();
        assert_eq!(got.dimensions(), (nearest, nearest));
        let want = resize(&img, nearest, nearest, FilterType::Lanczos3);
        assert_eq!(got.into_vec(), want.into_raw());
    }
}

#[test]
fn a_round_trip_of_the_largest_type() {
    let img = gradient(1024, 1024);
    let out = encode(&img).unwrap();
    let kinds: Vec<OSType> = read_icons(&out).unwrap().iter().map(|i| i.os_type).collect();
    assert_eq!(kinds, OSType::variants());
    let got = Decoder::new(&out).decode().unwrap();
    assert_eq!(got.dimensions(), (1024, 1024));
    assert_eq!(got.into_vec(), resize(&img, 1024, 1024, FilterType::Lanczos3).into_raw());
}

#[test]
fn a_small_image_is_scaled_up_to_the_smallest_type() {
    let img = gradient(5, 5);
    let out = encode(&img).unwrap();
    assert_eq!(out, expected_container(&img, &[OSType::IC11]));
    assert_eq!(Decoder::new(&out).decode().unwrap().dimensions(), (32, 32));
}

#[test]
fn a_wide_image_is_made_square_by_its_longer_side() {
    let img = gradient(100, 40);
    let out = encode(&img).unwrap();
    assert_eq!(out, expected_container(&img, &[OSType::IC12, OSType::IC11]));
    assert_eq!(Decoder::new(&out).decode().unwrap().dimensions(), (64, 64));
}

#[test]
fn a_tall_image_is_made_square_by_its_longer_side() {
    let img = gradient(20, 600);
    let out = encode(&img).unwrap();
    let kinds: Vec<OSType> = read_icons(&out).unwrap().iter().map(|i| i.os_type).collect();
    assert_eq!(kinds, vec![OSType::IC14, OSType::IC13, OSType::IC07, OSType::IC12, OSType::IC11]);
    assert_eq!(Decoder::new(&out).decode().unwrap().dimensions(), (512, 512));
}

#[test]
fn the_output_is_appended_to_the_writer() {
    let img = gradient(40, 40);
    let mut encoder = Encoder::new(vec![1, 2, 3]);
    encoder.encode(&raster(&img)).unwrap();
    assert_eq!(&encoder.get_ref()[..3], &[1, 2, 3]);
    assert_eq!(&encoder.get_ref()[3..], encode(&img).unwrap().as_slice());
}

#[test]
fn an_image_without_pixels_fails_at_its_nearest_type() {
    let empty = RasterImage::new(0, 0, vec![]).unwrap();
    let mut encoder = Encoder::new(vec![7]);
    assert_eq!(encoder.encode(&empty), Err(IcnsError::EncodeFailure(OSType::IC11)));
    assert_eq!(encoder.into_inner(), vec![7]);
    let flat = RasterImage::new(700, 0, vec![]).unwrap();
    let mut encoder = Encoder::new(Vec::new());
    assert_eq!(encoder.encode(&flat), Err(IcnsError::EncodeFailure(OSType::IC14)));
    assert!(encoder.into_inner().is_empty());
    let thin = RasterImage::new(0, 2000, vec![]).unwrap();
    let mut encoder = Encoder::new(Vec::new());
    assert_eq!(encoder.encode(&thin), Err(IcnsError::EncodeFailure(OSType::IC10)));
}

#[test]
fn an_encoder_can_be_used_twice() {
    let img = gradient(32, 32);
    let mut encoder = Encoder::new(Vec::new());
    encoder.encode(&raster(&img)).unwrap();
    encoder.encode(&raster(&img)).unwrap();
    let once = encode(&img).unwrap();
    assert_eq!(encoder.into_inner(), [once.clone(), once].concat());
}

#[test]
fn an_icon_set_holds_one_icon_for_each_target() {
    assert_eq!(IconSet::from(&raster(&gradient(1024, 10))).len(), 6);
    assert_eq!(IconSet::from(&raster(&gradient(256, 256))).len(), 4);
    assert_eq!(IconSet::from(&raster(&gradient(1, 1))).len(), 1);
}

#[test]
fn an_icon_set_writes_what_the_encoder_writes() {
    let img = gradient(70, 90);
    let mut out = vec![5, 6];
    IconSet::from(&raster(&img)).write_to(&mut out).unwrap();
    assert_eq!(&out[..2], &[5, 6]);
    assert_eq!(&out[2..], encode(&img).unwrap().as_slice());
}

#[test]
fn a_raster_image_needs_four_bytes_for_each_pixel() {
    assert!(RasterImage::new(2, 3, vec![0; 24]).is_some());
    assert!(RasterImage::new(2, 3, vec![0; 23]).is_none());
    assert!(RasterImage::new(2, 3, vec![0; 25]).is_none());
    assert!(RasterImage::new(0, 3, vec![]).is_some());
    assert!(RasterImage::new(0, 3, vec![0; 4]).is_none());
    assert!(RasterImage::new(u32::MAX, u32::MAX, vec![0; 4]).is_none());
}

#[test]
fn a_raster_image_gives_back_what_it_was_made_of() {
    let raw: Vec<u8> = (0..24).collect();
    let img = RasterImage::new(3, 2, raw.clone()).unwrap();
    assert_eq!(img.width(), 3);
    assert_eq!(img.height(), 2);
    assert_eq!(img.dimensions(), (3, 2));
    assert_eq!(img.as_raw(), &raw);
    assert_eq!(img.clone().into_vec(), raw);
    assert_eq!(img.into_vec(), raw);
}
