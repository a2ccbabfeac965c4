use isg::color::ColorEncoder;
use isg::compression::CompressionEncoder;
use isg::encoding::{ECCLevel, EncodedData, Encoder, EncodingStrategy};
use isg::frame::Frame;
use isg::pixel::PixelEncoder;
use isg::qr::QREncoder;
use isg::Error;

fn png_of(width: u32, height: u32, rgba: Vec<u8>) -> Vec<u8> {
    let image = image::RgbaImage::from_raw(width, height, rgba).unwrap();
    let mut png = Vec::new();
    image.write_to(&mut std::io::Cursor::new(&mut png), image::ImageOutputFormat::Png).unwrap();
    png
}

fn artifact(frame_count: u32, original_size: u64, blobs: &[Vec<u8>]) -> EncodedData {
    let mut bytes = frame_count.to_le_bytes().to_vec();
    bytes.extend_from_slice(&original_size.to_le_bytes());
    for blob in blobs {
        bytes.extend_from_slice(&(blob.len() as u32).to_le_bytes());
        bytes.extend_from_slice(blob);
    }
    EncodedData::from_bytes(bytes)
}

fn small() -> PixelEncoder {
    PixelEncoder::new().with_resolution(16, 8).with_block_size(4)
}

fn sample(len: usize) -> Vec<u8> {
    (0..len).map(|i| (i * 131 + 17) as u8).collect()
}

#[test]
fn test_pixel_encoder_roundtrip() {
    let encoder = PixelEncoder::new();
    let data = b"Hello, ISG World! This is a test of the pixel encoder.";

    let encoded = encoder.encode(data).unwrap();
    println!("Encoded {} bytes to {} bytes", data.len(), encoded.data.len());

    let decoded = encoder.decode(&encoded).unwrap();

    assert_eq!(data.as_slice(), decoded.as_slice());
}

#[test]
fn test_small_block_size() {
    let encoder = PixelEncoder::new().with_block_size(2);
    let data = b"Small blocks!";

    let encoded = encoder.encode(data).unwrap();
    let decoded = encoder.decode(&encoded).unwrap();

    assert_eq!(data.as_slice(), decoded.as_slice());
}

#[test]
fn test_large_block_size() {
    let encoder = PixelEncoder::new().with_block_size(10);
    let data = b"Large blocks make fewer pixels but less detail.";

    let encoded = encoder.encode(data).unwrap();
    let decoded = encoder.decode(&encoded).unwrap();

    assert_eq!(data.as_slice(), decoded.as_slice());
}

#[test]
fn pixel_defaults_and_builders() {
    let encoder = PixelEncoder::new();
    assert_eq!(encoder.block_size, 4);
    assert_eq!(encoder.resolution, (1920, 1080));
    assert_eq!(encoder.fps, 30);
    assert_eq!(encoder.threshold, 128);
    assert_eq!(encoder.bits_per_frame(), 480 * 270);
    let other = encoder.with_block_size(8).with_resolution(64, 32).with_fps(60);
    assert_eq!(other.block_size, 8);
    assert_eq!(other.resolution, (64, 32));
    assert_eq!(other.fps, 60);
    assert_eq!(other.threshold, 128);
    assert_eq!(other.bits_per_frame(), 32);
    assert!(other.is_usable());
    assert_eq!(PixelEncoder::default().resolution, (1920, 1080));
}

#[test]
fn pixel_roundtrip_of_the_empty_string() {
    let encoder = small();
    let encoded = encoder.encode(&[]).unwrap();
    assert_eq!(encoded.data, vec![0, 0, 0, 0, 0, 0, 0, 0, 0, 0, 0, 0]);
    assert_eq!(encoder.decode(&encoded).unwrap(), Vec::<u8>::new());
}

#[test]
fn pixel_roundtrip_of_a_single_byte() {
    for byte in [0u8, 1, 0x80, 0xa5, 0xff] {
        let encoder = small();
        let encoded = encoder.encode(&[byte]).unwrap();
        assert_eq!(&encoded.data[..4], &[1, 0, 0, 0]);
        assert_eq!(&encoded.data[4..12], &[1, 0, 0, 0, 0, 0, 0, 0]);
        assert_eq!(encoder.decode(&encoded).unwrap(), vec![byte]);
    }
}

#[test]
fn pixel_roundtrip_where_frames_do_not_end_on_bytes() {
    let encoder = PixelEncoder::new().with_resolution(12, 4).with_block_size(4);
    assert_eq!(encoder.bits_per_frame(), 3);
    let data = sample(5);
    let encoded = encoder.encode(&data).unwrap();
    assert_eq!(&encoded.data[..4], &[14, 0, 0, 0]);
    assert_eq!(encoder.decode(&encoded).unwrap(), data);
}

#[test]
fn pixel_roundtrip_with_a_margin() {
    let encoder = PixelEncoder::new().with_resolution(10, 11).with_block_size(4);
    assert_eq!(encoder.bits_per_frame(), 4);
    let data = sample(9);
    let encoded = encoder.encode(&data).unwrap();
    assert_eq!(encoder.decode(&encoded).unwrap(), data);
}

#[test]
fn pixel_roundtrip_of_a_mebibyte() {
    let encoder = PixelEncoder::new().with_block_size(1);
    let data = sample(1 << 20);
    let encoded = encoder.encode(&data).unwrap();
    assert_eq!(&encoded.data[..4], &[5, 0, 0, 0]);
    assert_eq!(encoder.decode(&encoded).unwrap(), data);
}

#[test]
fn pixel_roundtrip_over_several_default_frames() {
    let encoder = PixelEncoder::new();
    let data = sample(40_000);
    let encoded = encoder.encode(&data).unwrap();
    assert_eq!(&encoded.data[..4], &[3, 0, 0, 0]);
    assert_eq!(encoded.metadata.original_size, 40_000);
    assert_eq!(encoded.metadata.encoded_size, encoded.data.len());
    assert_eq!(encoded.format, "png_sequence");
    assert_eq!(encoded.metadata.strategy, "pixel");
    assert_eq!(encoder.decode(&encoded).unwrap(), data);
}

#[test]
fn frames_are_black_for_ones_and_white_for_zeros() {
    let encoder = small();
    let frame = encoder.create_frame(&[0b1010_0001], 0);
    assert_eq!(frame.width, 16);
    assert_eq!(frame.height, 8);
    assert_eq!(frame.pixels.len(), 4 * 16 * 8);
    let bits = [true, false, true, false, false, false, false, true];
    for y in 0..8usize {
        for x in 0..16usize {
            let bit = bits[(y / 4) * 4 + x / 4];
            let shade = if bit { 0 } else { 255 };
            let p = 4 * (y * 16 + x);
            assert_eq!(&frame.pixels[p..p + 4], &[shade, shade, shade, 255]);
        }
    }
    assert_eq!(encoder.read_frame(&frame), bits.to_vec());
    let padding = encoder.create_frame(&[0b1010_0001], 1);
    assert!(padding.pixels.chunks(4).all(|p| p == [255, 255, 255, 255]));
}

#[test]
fn the_margin_of_a_frame_is_transparent_black() {
    let encoder = PixelEncoder::new().with_resolution(5, 4).with_block_size(4);
    let frame = encoder.create_frame(&[0x00], 0);
    for y in 0..4usize {
        for x in 0..5usize {
            let p = 4 * (y * 5 + x);
            let expected = if x < 4 { [255, 255, 255, 255] } else { [0, 0, 0, 0] };
            assert_eq!(&frame.pixels[p..p + 4], &expected);
        }
    }
}

#[test]
fn encode_to_frames_renders_every_frame() {
    let encoder = small();
    let data = [0xffu8, 0x00, 0x0f];
    let frames = encoder.encode_to_frames(&data).unwrap();
    assert_eq!(frames.len(), 3);
    for (f, frame) in frames.iter().enumerate() {
        assert_eq!(frame.pixels, encoder.create_frame(&data, f as u32).pixels);
    }
    assert_eq!(encoder.decode_from_frames(&frames, 3).unwrap(), data.to_vec());
    assert_eq!(encoder.decode_from_frames(&frames, 2).unwrap(), data[..2].to_vec());
    assert_eq!(encoder.decode_from_frames(&frames, 4).unwrap_err(), Error::CodecTruncated);
    let stranger = vec![Frame { width: 8, height: 8, pixels: vec![0; 256] }];
    assert_eq!(encoder.decode_from_frames(&stranger, 1).unwrap_err(), Error::CodecFormat);
    let broken = vec![Frame { width: 16, height: 8, pixels: vec![0; 10] }];
    assert_eq!(encoder.decode_from_frames(&broken, 1).unwrap_err(), Error::CodecFormat);
}

#[test]
fn handcrafted_artifact_roundtrips() {
    let encoder = small();
    let data = [0b1100_0101u8];
    let frame = encoder.create_frame(&data, 0);
    let png = png_of(16, 8, frame.pixels);
    let crafted = artifact(1, 1, &[png.clone()]);
    assert_eq!(encoder.decode(&crafted).unwrap(), data.to_vec());
    assert_eq!(encoder.encode(&data).unwrap().data, crafted.data);

    let mut overrun = crafted.data.clone();
    let longer = (png.len() as u32 + 1).to_le_bytes();
    overrun[12..16].copy_from_slice(&longer);
    assert_eq!(
        encoder.decode(&EncodedData::from_bytes(overrun)).unwrap_err(),
        Error::CodecTruncated
    );
}

#[test]
fn decode_reports_truncation() {
    let encoder = small();
    let whole = encoder.encode(&[1, 2, 3]).unwrap().data;
    for cut in [0usize, 5, 11, 13, 15, 16, whole.len() - 1] {
        let part = EncodedData::from_bytes(whole[..cut].to_vec());
        assert_eq!(encoder.decode(&part).unwrap_err(), Error::CodecTruncated);
    }
    let header_only = EncodedData::from_bytes(whole[..12].to_vec());
    assert_eq!(encoder.decode(&header_only).unwrap_err(), Error::CodecTruncated);
    let mut more_frames = whole.clone();
    more_frames[0] = 4;
    assert_eq!(
        encoder.decode(&EncodedData::from_bytes(more_frames)).unwrap_err(),
        Error::CodecTruncated
    );
    let mut larger = whole.clone();
    larger[4] = 4;
    assert_eq!(
        encoder.decode(&EncodedData::from_bytes(larger)).unwrap_err(),
        Error::CodecTruncated
    );
    let mut shorter = whole.clone();
    shorter[4] = 2;
    assert_eq!(encoder.decode(&EncodedData::from_bytes(shorter)).unwrap(), vec![1, 2]);
    let mut trailing = whole;
    trailing.extend_from_slice(b"ignored");
    assert_eq!(encoder.decode(&EncodedData::from_bytes(trailing)).unwrap(), vec![1, 2, 3]);
}

#[test]
fn decode_reports_what_is_no_frame() {
    let encoder = small();
    let garbage = artifact(1, 1, &[b"not a png".to_vec()]);
    assert_eq!(encoder.decode(&garbage).unwrap_err(), Error::CodecFormat);
    let empty = artifact(1, 1, &[Vec::new()]);
    assert_eq!(encoder.decode(&empty).unwrap_err(), Error::CodecFormat);
    let stranger = artifact(1, 1, &[png_of(8, 8, vec![0; 256])]);
    assert_eq!(encoder.decode(&stranger).unwrap_err(), Error::CodecFormat);
    let turned = artifact(1, 1, &[png_of(8, 16, vec![0; 512])]);
    assert_eq!(encoder.decode(&turned).unwrap_err(), Error::CodecFormat);
}

#[test]
fn decoding_averages_against_the_threshold() {
    let encoder = small();
    let grey = |value: u8| {
        let mut rgba = Vec::new();
        for _ in 0..16 * 8 {
            rgba.extend_from_slice(&[value, value, value, 255]);
        }
        artifact(1, 1, &[png_of(16, 8, rgba)])
    };
    assert_eq!(encoder.decode(&grey(0)).unwrap(), vec![0xff]);
    assert_eq!(encoder.decode(&grey(127)).unwrap(), vec![0xff]);
    assert_eq!(encoder.decode(&grey(128)).unwrap(), vec![0x00]);
    assert_eq!(encoder.decode(&grey(255)).unwrap(), vec![0x00]);

    let mut mixed = Vec::new();
    for y in 0..8 {
        for x in 0..16 {
            let dark = x < 4 && y < 4 && (x + y) % 2 == 0;
            let value = if dark { 0 } else { 254 };
            mixed.extend_from_slice(&[value, value, value, 255]);
        }
    }
    let half = artifact(1, 1, &[png_of(16, 8, mixed)]);
    assert_eq!(encoder.decode(&half).unwrap(), vec![0x80]);
    let stricter = PixelEncoder { threshold: 127, ..small() };
    assert_eq!(stricter.decode(&half).unwrap(), vec![0x00]);

    let mut tinted = Vec::new();
    for _ in 0..16 * 8 {
        tinted.extend_from_slice(&[255, 0, 126, 0]);
    }
    let colour = artifact(1, 1, &[png_of(16, 8, tinted)]);
    assert_eq!(encoder.decode(&colour).unwrap(), vec![0xff]);
}

#[test]
fn a_threshold_of_zero_reads_no_ones() {
    let blind = PixelEncoder { threshold: 0, ..small() };
    let encoded = blind.encode(&[0xff, 0x0f]).unwrap();
    assert_eq!(blind.decode(&encoded).unwrap(), vec![0, 0]);
    let keen = PixelEncoder { threshold: 1, ..small() };
    assert_eq!(keen.decode(&encoded).unwrap(), vec![0xff, 0x0f]);
    let lax = PixelEncoder { threshold: 255, ..small() };
    assert_eq!(lax.decode(&encoded).unwrap(), vec![0xff, 0x0f]);
}

#[test]
fn an_unusable_pixel_codec_is_a_configuration_error() {
    let data = EncodedData::from_bytes(vec![0; 12]);
    for encoder in [
        PixelEncoder::new().with_block_size(0),
        PixelEncoder::new().with_block_size(2000),
        PixelEncoder::new().with_resolution(0, 0),
        PixelEncoder::new().with_resolution(100, 3),
    ] {
        assert!(!encoder.is_usable());
        assert_eq!(encoder.bits_per_frame(), 0);
        assert_eq!(encoder.encode(b"x").unwrap_err(), Error::Config);
        assert_eq!(encoder.decode(&data).unwrap_err(), Error::Config);
        assert_eq!(encoder.encode_to_frames(b"x").unwrap_err(), Error::Config);
        assert_eq!(encoder.decode_from_frames(&Vec::new(), 0).unwrap_err(), Error::Config);
        assert_eq!(encoder.estimate_size(10), 0);
    }
}

#[test]
fn pixel_strategy_and_estimate() {
    let encoder = PixelEncoder::new();
    match encoder.strategy() {
        EncodingStrategy::PixelEncoding { block_size, fps, resolution } => {
            assert_eq!(block_size, 4);
            assert_eq!(fps, 30);
            assert_eq!(resolution, (1920, 1080));
        }
        _ => panic!("Wrong variant"),
    }
    assert_eq!(encoder.estimate_size(0), 12);
    assert_eq!(encoder.estimate_size(1000), 12_441_616);
    assert_eq!(encoder.estimate_size(16_200), 12_441_616);
    assert_eq!(encoder.estimate_size(16_201), 24_883_220);
    assert_eq!(small().estimate_size(3), 3 * 768 + 12 + 12);
    assert_eq!(encoder.estimate_size(usize::MAX), usize::MAX);
}

#[test]
fn test_qr_encoding() {
    let encoder = QREncoder::new();
    let data = b"Hello, QR Code World!";

    let encoded = encoder.encode(data).unwrap();
    assert!(encoded.data.len() > 0);
}

#[test]
fn qr_artifact_is_a_container_of_barcodes() {
    let encoder = QREncoder::new();
    let data = b"Hello, QR Code World!";
    let encoded = encoder.encode(data).unwrap();
    assert_eq!(&encoded.data[..4], &[1, 0, 0, 0]);
    assert_eq!(&encoded.data[4..12], &[21, 0, 0, 0, 0, 0, 0, 0]);
    let size = u32::from_le_bytes(encoded.data[12..16].try_into().unwrap()) as usize;
    assert_eq!(encoded.data.len(), 16 + size);
    let image = image::load_from_memory_with_format(&encoded.data[16..], image::ImageFormat::Png)
        .unwrap()
        .to_rgba8();
    assert!(image.width() >= 512 && image.height() >= 512);
    let code = qrcode::QrCode::new(data).unwrap();
    let reference = code.render::<image::Luma<u8>>().min_dimensions(512, 512).build();
    assert_eq!((image.width(), image.height()), (reference.width(), reference.height()));
    for (x, y, pixel) in image.enumerate_pixels() {
        let grey = reference.get_pixel(x, y)[0];
        assert_eq!(pixel.0, [grey, grey, grey, 255]);
    }
    assert_eq!(encoded.format, "qr_sequence");
    assert_eq!(encoded.metadata.strategy, "qr");
    assert_eq!(encoded.metadata.original_size, 21);
}

#[test]
fn qr_splits_into_chunks() {
    let encoder = QREncoder { max_bytes_per_qr: 10, ecc_level: ECCLevel::High };
    let data = sample(25);
    let encoded = encoder.encode(&data).unwrap();
    assert_eq!(&encoded.data[..4], &[3, 0, 0, 0]);
    let frame = encoder.encode_chunk(&data[20..]).unwrap();
    assert!(frame.width >= 512 && frame.height >= 512);
    assert_eq!(frame.pixels.len(), 4 * (frame.width * frame.height) as usize);
    let last = png_of(frame.width, frame.height, frame.pixels);
    assert_eq!(&encoded.data[encoded.data.len() - last.len()..], &last[..]);
    let low = QREncoder { max_bytes_per_qr: 10, ecc_level: ECCLevel::Low };
    assert_ne!(low.encode(&data).unwrap().data, encoded.data);
    assert_eq!(QREncoder::new().encode(&[]).unwrap().data, vec![0; 12]);
    assert_eq!(QREncoder::new().with_ecc_level(ECCLevel::Quartile).ecc_level, ECCLevel::Quartile);
}

#[test]
fn qr_failures() {
    let none = QREncoder { max_bytes_per_qr: 0, ecc_level: ECCLevel::Medium };
    assert_eq!(none.encode(b"x").unwrap_err(), Error::Config);
    let greedy = QREncoder { max_bytes_per_qr: 5000, ecc_level: ECCLevel::Medium };
    assert_eq!(greedy.encode(&sample(4000)).unwrap_err(), Error::CodecFormat);
    assert!(greedy.encode_chunk(&sample(4000)).is_none());
    let encoder = QREncoder::new();
    let encoded = encoder.encode(b"x").unwrap();
    assert_eq!(encoder.decode(&encoded).unwrap_err(), Error::CodecUnimplemented);
}

#[test]
fn qr_strategy_and_estimate() {
    let encoder = QREncoder::default();
    assert_eq!(encoder.max_bytes_per_qr, 2000);
    assert_eq!(encoder.ecc_level, ECCLevel::Medium);
    match encoder.strategy() {
        EncodingStrategy::QREncoding { version, ecc_level } => {
            assert_eq!(version, 40);
            assert_eq!(ecc_level, ECCLevel::Medium);
        }
        _ => panic!("Wrong variant"),
    }
    assert_eq!(encoder.estimate_size(0), 0);
    assert_eq!(encoder.estimate_size(1), 1_048_576);
    assert_eq!(encoder.estimate_size(2000), 1_048_576);
    assert_eq!(encoder.estimate_size(2001), 2_097_152);
    assert_eq!(encoder.estimate_size(usize::MAX), usize::MAX);
}

#[test]
fn the_colour_codec_is_unimplemented() {
    let encoder = ColorEncoder::default();
    assert_eq!(encoder.encode(b"x").unwrap_err(), Error::CodecUnimplemented);
    let data = EncodedData::from_bytes(vec![1]);
    assert_eq!(encoder.decode(&data).unwrap_err(), Error::CodecUnimplemented);
    assert!(matches!(ColorEncoder::new().strategy(), EncodingStrategy::ColorEncoding { .. }));
    assert_eq!(encoder.estimate_size(77), 77);
}

#[test]
fn test_zstd_roundtrip() {
    let encoder = CompressionEncoder::zstd(3);
    let data = b"Hello, ISG! ".repeat(100); // Compressible data

    let encoded = encoder.encode(&data).unwrap();
    println!("Zstd: {} bytes -> {} bytes", data.len(), encoded.data.len());

    let decoded = encoder.decode(&encoded).unwrap();
    assert_eq!(data.as_slice(), decoded.as_slice());
}

#[test]
fn test_gzip_roundtrip() {
    let encoder = CompressionEncoder::gzip(6);
    let data = b"Test data for gzip compression!".repeat(50);

    let encoded = encoder.encode(&data).unwrap();
    let decoded = encoder.decode(&encoded).unwrap();

    assert_eq!(data.as_slice(), decoded.as_slice());
}

#[test]
fn test_no_compression() {
    let encoder = CompressionEncoder::none();
    let data = b"No compression applied";

    let encoded = encoder.encode(data).unwrap();
    assert_eq!(encoded.data.len(), data.len());

    let decoded = encoder.decode(&encoded).unwrap();
    assert_eq!(data.as_slice(), decoded.as_slice());
}

#[test]
fn compression_compresses() {
    let data = b"Hello, ISG! ".repeat(100);
    for encoder in [
        CompressionEncoder::zstd(3),
        CompressionEncoder::gzip(6),
        CompressionEncoder::brotli(5),
        CompressionEncoder::default(),
    ] {
        let packed = encoder.compress(&data).unwrap();
        assert!(packed.len() < data.len() / 4);
        assert_eq!(encoder.decompress(&packed).unwrap(), data);
        assert_eq!(encoder.compress(&data).unwrap(), packed);
    }
    assert_eq!(CompressionEncoder::none().compress(&data).unwrap(), data);
    assert_eq!(CompressionEncoder::zstd(3).compress(&data).unwrap(), zstd::encode_all(&data[..], 3).unwrap());
    let encoded = CompressionEncoder::gzip(1).encode(&data).unwrap();
    assert_eq!(encoded.format, "compressed");
    assert_eq!(encoded.metadata.strategy, "compression");
    assert_eq!(encoded.metadata.original_size, data.len());
    assert_eq!(encoded.metadata.encoded_size, encoded.data.len());
}

#[test]
fn compression_failures() {
    assert_eq!(CompressionEncoder::gzip(10).compress(b"x").unwrap_err(), Error::Config);
    assert_eq!(CompressionEncoder::brotli(12).compress(b"x").unwrap_err(), Error::Config);
    assert!(CompressionEncoder::gzip(9).compress(b"x").is_ok());
    assert!(CompressionEncoder::brotli(11).compress(b"x").is_ok());
    let garbage = b"certainly not compressed";
    assert_eq!(CompressionEncoder::zstd(3).decompress(garbage).unwrap_err(), Error::CodecDecode);
    assert_eq!(CompressionEncoder::gzip(6).decompress(garbage).unwrap_err(), Error::CodecDecode);
    assert_eq!(CompressionEncoder::brotli(5).decompress(garbage).unwrap_err(), Error::CodecDecode);
    assert_eq!(CompressionEncoder::none().decompress(garbage).unwrap(), garbage.to_vec());
}

#[test]
fn compression_strategy_and_estimate() {
    assert_eq!(CompressionEncoder::zstd(3).estimate_size(1000), 333);
    assert_eq!(CompressionEncoder::gzip(6).estimate_size(1000), 500);
    assert_eq!(CompressionEncoder::brotli(5).estimate_size(1000), 333);
    assert_eq!(CompressionEncoder::none().estimate_size(1000), 1000);
    assert!(matches!(
        CompressionEncoder::gzip(6).strategy(),
        EncodingStrategy::RawCompressed { .. }
    ));
}

#[test]
fn bits_are_read_most_significant_first() {
    let data = [0b1000_0001u8, 0b0100_0000];
    let bits: Vec<bool> = (0..20).map(|i| isg::bits::get_bit(&data, i)).collect();
    let mut expected = vec![false; 20];
    expected[0] = true;
    expected[7] = true;
    expected[9] = true;
    assert_eq!(bits, expected);
    assert_eq!(isg::bits::pack_bits(&bits, 3), vec![0b1000_0001, 0b0100_0000, 0]);
    assert_eq!(isg::bits::pack_bits(&bits, 1), vec![0b1000_0001]);
    let odd = vec![true, true, true];
    assert_eq!(isg::bits::pack_bits(&odd, 1), vec![0b1110_0000]);
    assert_eq!(isg::bits::pack_bits(&odd, 0), Vec::<u8>::new());
    assert!(!isg::bits::get_bit(&data, u128::MAX));
}

#[test]
fn a_large_frame_decodes_as_it_was_encoded() {
    let encoder = PixelEncoder::new().with_resolution(4096, 4096).with_block_size(64).with_fps(1);
    let data = sample(512);
    let encoded = encoder.encode(&data).unwrap();
    assert_eq!(&encoded.data[..4], &[1, 0, 0, 0]);
    assert_eq!(encoder.decode(&encoded).unwrap(), data);
}
