use std::io::{Read, Write};

use bw_img::file::compress::{compress_imgs, decompress_all, decompress_imgs, DecompressIter};
use bw_img::file::{
    decode_header, encode_file, parse_body, parse_file, parse_header, write_header, ByteSource,
};
use bw_img::img::BWImageSize;
use bw_img::{BWDataErr, BWError, BWImage, HeaderError, ImageData, IoFault, NormalImage};

fn rgba_of(pattern: &[&str]) -> (Vec<u8>, u32, u32) {
    let height = pattern.len() as u32;
    let width = pattern[0].len() as u32;
    let mut data = Vec::new();
    for row in pattern {
        for c in row.chars() {
            let v = if c == '#' { 255 } else { 0 };
            data.extend_from_slice(&[v, v, v, 255]);
        }
    }
    (data, width, height)
}

fn image_of(pattern: &[&str]) -> BWImage {
    let (data, width, height) = rgba_of(pattern);
    NormalImage::new(&data, width, height).parse_bw_image().unwrap()
}

fn sample(width: u32, height: u32, seed: u8) -> BWImage {
    let size = BWImageSize { width, height };
    let len = size.get_padded_bytes_len() as usize;
    let pixels = (0..len).map(|i| (i as u8).wrapping_mul(37).wrapping_add(seed)).collect();
    BWImage { size, pixels }
}

fn frame(img: &BWImage) -> Vec<u8> {
    let mut out = Vec::new();
    img.encode_as_file(&mut out).unwrap();
    out
}

fn zlib(raw: &[u8]) -> Vec<u8> {
    let mut e = flate2::write::ZlibEncoder::new(Vec::new(), flate2::Compression::default());
    e.write_all(raw).unwrap();
    e.finish().unwrap()
}

fn unzlib(compressed: &[u8]) -> Vec<u8> {
    let mut out = Vec::new();
    flate2::read::ZlibDecoder::new(compressed).read_to_end(&mut out).unwrap();
    out
}

#[test]
fn encode_and_parse() {
    let mut buffer = Vec::new();
    BWImage { size: BWImageSize { width: 1, height: 1 }, pixels: vec![0] }
        .encode_as_file(&mut buffer)
        .unwrap();

    let mut source = ByteSource::new(buffer);
    let (img, _) = BWImage::parse_file(&mut source).unwrap().unwrap();
    assert_eq!(img.size, BWImageSize { width: 1, height: 1 });
    assert_eq!(img.pixels, vec![0]);
}

#[test]
fn compress_and_decompress() {
    let imgs = [
        image_of(&["#..#..#..#", ".#..#..#..", "..#..#..#.", "##########", ".........."]),
        image_of(&["################", "#..............#", "################"]),
    ];
    let mut buf = Vec::new();
    println!("img height: {}, width {}", imgs[0].size.height, imgs[0].size.width);
    println!("width after divided: {}", imgs[0].pixels.len() * 8 / imgs[0].size.height as usize);
    assert_eq!(imgs[0].size.get_padded_bytes_len(), imgs[0].pixels.len() as u64);
    assert_eq!(imgs[1].size.get_padded_bytes_len(), imgs[1].pixels.len() as u64);

    compress_imgs(&imgs, &mut buf).unwrap();
    let mut it = decompress_imgs(&buf);
    let mut decoded = Vec::new();
    while let Some(img) = it.next() {
        decoded.push(img.unwrap());
    }
    assert_eq!(decoded.len(), 2);
    assert_eq!(decoded[0].size, imgs[0].size);
    assert_eq!(decoded[0].pixels, imgs[0].pixels);
    assert_eq!(decoded[1].size, imgs[1].size);
    assert_eq!(decoded[1].pixels, imgs[1].pixels);
}

#[test]
fn one_pixel_image_has_the_documented_bytes() {
    let img = BWImage { size: BWImageSize { width: 1, height: 1 }, pixels: vec![0] };
    let bytes = frame(&img);
    assert_eq!(
        bytes,
        vec![
            0x42, 0x57, 0x49, 0x4D, 0x01, 0x00, 0x00, 0x00, 0x01, 0x00, 0x00, 0x00, 0x01, 0x00,
            0x00, 0x00, 0x00
        ]
    );
    let mut source = ByteSource::new(bytes);
    let (decoded, len) = parse_file(&mut source).unwrap().unwrap();
    assert_eq!(decoded.size, BWImageSize { width: 1, height: 1 });
    assert_eq!(decoded.pixels, vec![0]);
    assert_eq!(len, 17);
    assert_eq!(source.remaining(), 0);
}

#[test]
fn header_is_little_endian() {
    let mut out = vec![9u8];
    write_header(&mut out, &BWImageSize { width: 0x0102_0304, height: 0xA0B0_C0D0 });
    assert_eq!(
        out,
        vec![
            9, 0x42, 0x57, 0x49, 0x4D, 1, 0, 0, 0, 0x04, 0x03, 0x02, 0x01, 0xD0, 0xC0, 0xB0, 0xA0
        ]
    );
    let size = decode_header(&out[1..]).unwrap();
    assert_eq!(size, BWImageSize { width: 0x0102_0304, height: 0xA0B0_C0D0 });
}

#[test]
fn round_trip_of_many_sizes() {
    let sizes =
        [(1, 1), (7, 3), (8, 2), (9, 5), (16, 1), (17, 4), (100, 3), (0, 0), (0, 5), (5, 0)];
    for (width, height) in sizes {
        let img = sample(width, height, 11);
        let bytes = frame(&img);
        assert_eq!(bytes.len() as u64, 16 + img.size.get_padded_bytes_len());
        let mut source = ByteSource::new(bytes);
        let (decoded, len) = parse_file(&mut source).unwrap().unwrap();
        assert_eq!(decoded.size, img.size);
        assert_eq!(decoded.pixels, img.pixels);
        assert_eq!(len, 16 + img.size.get_padded_bytes_len());
        assert!(parse_file(&mut source).unwrap().is_none());
    }
}

#[test]
fn wrong_magic_is_rejected() {
    let mut bytes = frame(&sample(8, 2, 1));
    bytes[0] = b'X';
    let mut source = ByteSource::new(bytes.clone());
    assert_eq!(
        parse_header(&mut source),
        Err(BWError::FileHeader(HeaderError::BadMagic(b'X', b'W', b'I', b'M')))
    );
    assert_eq!(source.remaining(), 2);
    let mut source = ByteSource::new(bytes);
    assert_eq!(
        parse_file(&mut source).unwrap_err(),
        BWError::FileHeader(HeaderError::BadMagic(b'X', b'W', b'I', b'M'))
    );
    let mut lower = frame(&sample(8, 2, 1));
    lower[3] = b'm';
    assert_eq!(decode_header(&lower[..16]), Err(HeaderError::BadMagic(b'B', b'W', b'I', b'm')));
}

#[test]
fn wrong_version_is_rejected() {
    let mut bytes = frame(&sample(8, 2, 1));
    bytes[4] = 2;
    let mut source = ByteSource::new(bytes.clone());
    assert_eq!(parse_header(&mut source), Err(BWError::FileHeader(HeaderError::BadVersion(2))));
    bytes[4] = 1;
    bytes[7] = 1;
    let mut source = ByteSource::new(bytes.clone());
    assert_eq!(
        parse_header(&mut source),
        Err(BWError::FileHeader(HeaderError::BadVersion(0x0100_0001)))
    );
    bytes[4] = 0;
    bytes[7] = 0;
    let mut source = ByteSource::new(bytes);
    assert_eq!(parse_header(&mut source), Err(BWError::FileHeader(HeaderError::BadVersion(0))));
}

#[test]
fn empty_input_is_the_end_and_a_short_header_is_an_error() {
    let mut source = ByteSource::new(Vec::new());
    assert_eq!(parse_header(&mut source), Ok(None));
    let mut source = ByteSource::new(Vec::new());
    assert!(parse_file(&mut source).unwrap().is_none());

    let full = frame(&sample(8, 2, 1));
    for n in 1..16 {
        let mut source = ByteSource::new(full[..n].to_vec());
        assert_eq!(
            parse_header(&mut source),
            Err(BWError::FileHeader(HeaderError::Truncated(n)))
        );
        assert_eq!(source.remaining(), 0);
        let mut source = ByteSource::new(full[..n].to_vec());
        assert_eq!(
            parse_file(&mut source).unwrap_err(),
            BWError::FileHeader(HeaderError::Truncated(n))
        );
    }
    let mut source = ByteSource::new(full[..16].to_vec());
    assert_eq!(parse_header(&mut source), Ok(Some(BWImageSize { width: 8, height: 2 })));
}

#[test]
fn a_failing_source_passes_its_failure_on() {
    let full = frame(&sample(8, 2, 1));
    let mut source = ByteSource::failing(Vec::new(), IoFault::InvalidInput);
    assert_eq!(parse_header(&mut source), Err(BWError::Io(IoFault::InvalidInput)));
    let mut source = ByteSource::failing(full[..5].to_vec(), IoFault::UnexpectedEof);
    assert_eq!(parse_header(&mut source), Err(BWError::Io(IoFault::UnexpectedEof)));
    let mut source = ByteSource::failing(full[..17].to_vec(), IoFault::Other);
    assert_eq!(parse_file(&mut source).unwrap_err(), BWError::Io(IoFault::Other));
    let mut source = ByteSource::failing(full.clone(), IoFault::InvalidData);
    let (img, len) = parse_file(&mut source).unwrap().unwrap();
    assert_eq!(img.pixels, sample(8, 2, 1).pixels);
    assert_eq!(len, 18);
    assert_eq!(source.fault(), Some(IoFault::InvalidData));
    assert_eq!(parse_file(&mut source).unwrap_err(), BWError::Io(IoFault::InvalidData));
}

#[test]
fn a_short_body_is_an_io_error() {
    let full = frame(&sample(16, 3, 5));
    let mut source = ByteSource::new(full[..full.len() - 1].to_vec());
    assert_eq!(parse_file(&mut source).unwrap_err(), BWError::Io(IoFault::UnexpectedEof));
    assert_eq!(source.remaining(), 0);

    let mut source = ByteSource::new(vec![1, 2, 3, 4, 5, 6, 7]);
    let img = parse_body(&mut source, BWImageSize { width: 9, height: 3 }).unwrap();
    assert_eq!(img.pixels, vec![1, 2, 3, 4, 5, 6]);
    assert_eq!(source.remaining(), 1);
    let mut source = ByteSource::new(vec![1, 2, 3, 4, 5]);
    assert_eq!(
        parse_body(&mut source, BWImageSize { width: 9, height: 3 }).unwrap_err(),
        BWError::Io(IoFault::UnexpectedEof)
    );
}

#[test]
fn read_exact_takes_bytes_in_order() {
    let mut source = ByteSource::new(vec![1, 2, 3, 4, 5]);
    assert_eq!(source.read_exact(2), Ok(vec![1, 2]));
    assert_eq!(source.read_exact(0), Ok(vec![]));
    assert_eq!(source.remaining(), 3);
    assert_eq!(source.read_exact(4), Err(IoFault::UnexpectedEof));
    assert_eq!(source.remaining(), 0);
    let mut source = ByteSource::failing(vec![1, 2, 3], IoFault::Other);
    assert_eq!(source.read_exact(3), Ok(vec![1, 2, 3]));
    assert_eq!(source.read_exact(1), Err(IoFault::Other));
}

#[test]
fn a_buffer_of_the_wrong_length_is_not_encoded() {
    let img = BWImage { size: BWImageSize { width: 9, height: 2 }, pixels: vec![0, 0, 0] };
    assert!(!img.is_well_formed());
    let mut out = vec![7u8];
    assert_eq!(
        encode_file(&mut out, &img),
        Err(BWError::BWDataErr(BWDataErr::WrongSize(9, 2, 3)))
    );
    assert_eq!(out, vec![7u8]);
    let good = BWImage { size: BWImageSize { width: 9, height: 2 }, pixels: vec![0, 0, 0, 0] };
    assert!(good.is_well_formed());
    assert_eq!(encode_file(&mut out, &good), Ok(()));
    assert_eq!(out.len(), 1 + 16 + 4);
}

#[test]
fn plain_stream_of_three_images() {
    let imgs = [sample(8, 2, 1), sample(13, 3, 2), sample(1, 1, 3)];
    let mut stream = Vec::new();
    for img in &imgs {
        encode_file(&mut stream, img).unwrap();
    }
    let mut source = ByteSource::new(stream);
    for img in &imgs {
        let (decoded, len) = parse_file(&mut source).unwrap().unwrap();
        assert_eq!(decoded.size, img.size);
        assert_eq!(decoded.pixels, img.pixels);
        assert_eq!(len as usize, 16 + img.pixels.len());
    }
    assert!(parse_file(&mut source).unwrap().is_none());
}

#[test]
fn compressed_stream_of_three_images() {
    let imgs = [sample(8, 2, 1), sample(13, 3, 2), sample(1, 1, 3)];
    let mut compressed = vec![0xAAu8, 0xBB];
    compress_imgs(&imgs, &mut compressed).unwrap();
    assert_eq!(&compressed[..2], &[0xAA, 0xBB]);

    let mut raw = Vec::new();
    for img in &imgs {
        encode_file(&mut raw, img).unwrap();
    }
    assert_ne!(&compressed[2..], &raw[..]);
    assert_eq!(unzlib(&compressed[2..]), raw);

    let mut it = decompress_imgs(&compressed[2..]);
    for img in &imgs {
        let decoded = it.next().unwrap().unwrap();
        assert_eq!(decoded.size, img.size);
        assert_eq!(decoded.pixels, img.pixels);
    }
    assert!(it.next().is_none());
    assert!(it.next().is_none());
}

#[test]
fn large_images_are_inflated_in_pieces() {
    let imgs = [sample(1024, 512, 7), sample(3, 1, 1), sample(2000, 300, 9), sample(8, 8, 2)];
    assert_eq!(imgs[0].pixels.len(), 65536);
    let mut compressed = Vec::new();
    compress_imgs(&imgs, &mut compressed).unwrap();
    let mut it = decompress_imgs(&compressed);
    for img in &imgs {
        let decoded = it.next().unwrap().unwrap();
        assert_eq!(decoded.size, img.size);
        assert_eq!(decoded.pixels, img.pixels);
    }
    assert!(it.next().is_none());

    let mut raw = Vec::new();
    for img in &imgs {
        encode_file(&mut raw, img).unwrap();
    }
    let mut it = decompress_imgs(&zlib(&raw[..raw.len() - 1]));
    for img in &imgs[..3] {
        assert_eq!(it.next().unwrap().unwrap().pixels, img.pixels);
    }
    let before: u64 = imgs[..3].iter().map(|img| 16 + img.pixels.len() as u64).sum();
    assert_eq!(
        it.next().unwrap().unwrap_err(),
        BWError::Compression(3, Box::new(BWError::Io(IoFault::UnexpectedEof)), before)
    );
    assert!(it.next().is_none());
}

#[test]
fn a_failed_reader_is_reported_where_the_bytes_run_out() {
    let imgs = [sample(8, 2, 1), sample(64, 64, 2), sample(64, 64, 3)];
    let mut compressed = Vec::new();
    compress_imgs(&imgs, &mut compressed).unwrap();

    let cut = &compressed[..compressed.len() - 4];
    let mut it = DecompressIter::failing(cut, IoFault::Other);
    let mut seen = 0;
    let failure = loop {
        match it.next() {
            Some(Ok(img)) => {
                assert_eq!(img.pixels, imgs[seen].pixels);
                seen += 1;
            }
            Some(Err(e)) => break e,
            None => panic!("a cut stream must not end cleanly"),
        }
    };
    let before: u64 = imgs[..seen].iter().map(|img| 16 + img.pixels.len() as u64).sum();
    assert_eq!(failure, BWError::Compression(seen, Box::new(BWError::Io(IoFault::Other)), before));

    let mut it = DecompressIter::failing(&compressed, IoFault::Other);
    for img in &imgs {
        assert_eq!(it.next().unwrap().unwrap().pixels, img.pixels);
    }
    assert!(it.next().is_none());

    let mut it = DecompressIter::failing(&[], IoFault::InvalidData);
    assert_eq!(
        it.next().unwrap().unwrap_err(),
        BWError::Compression(0, Box::new(BWError::Io(IoFault::InvalidData)), 0)
    );
}

#[test]
fn all_images_are_decoded_at_once() {
    let imgs = [sample(8, 2, 1), sample(13, 3, 2), sample(1024, 512, 3), sample(1, 1, 4)];
    let mut compressed = Vec::new();
    compress_imgs(&imgs, &mut compressed).unwrap();
    let decoded = decompress_all(&compressed).unwrap();
    assert_eq!(decoded.len(), 4);
    for (decoded, img) in decoded.iter().zip(&imgs) {
        assert_eq!(decoded.size, img.size);
        assert_eq!(decoded.pixels, img.pixels);
    }

    let mut raw = Vec::new();
    for img in &imgs {
        encode_file(&mut raw, img).unwrap();
    }
    assert_ne!(compressed, raw);
    assert_eq!(decompress_all(&zlib(&raw)).unwrap().len(), 4);
    assert_eq!(decompress_all(&zlib(&[])).unwrap().len(), 0);

    let second = 16 + imgs[0].pixels.len();
    raw[second + 4] = 9;
    assert_eq!(
        decompress_all(&zlib(&raw)).unwrap_err(),
        BWError::Compression(
            1,
            Box::new(BWError::FileHeader(HeaderError::BadVersion(9))),
            second as u64
        )
    );
    assert_eq!(
        decompress_all(&raw).unwrap_err(),
        BWError::Compression(0, Box::new(BWError::Io(IoFault::InvalidInput)), 0)
    );
    assert!(matches!(
        decompress_all(&compressed[..compressed.len() / 2]),
        Err(BWError::Compression(_, cause, _)) if matches!(*cause, BWError::Io(_))
    ));
}

#[test]
fn compressing_no_image_gives_an_empty_stream() {
    let mut compressed = Vec::new();
    compress_imgs(&[], &mut compressed).unwrap();
    assert!(!compressed.is_empty());
    assert_eq!(unzlib(&compressed), Vec::<u8>::new());
    let mut it = decompress_imgs(&compressed);
    assert!(it.next().is_none());
}

#[test]
fn compressing_stops_at_a_malformed_image() {
    let bad = BWImage { size: BWImageSize { width: 8, height: 2 }, pixels: vec![1] };
    let imgs = [sample(8, 2, 1), bad, sample(1, 1, 3)];
    let mut out = vec![1u8, 2, 3];
    assert_eq!(
        compress_imgs(&imgs, &mut out),
        Err(BWError::BWDataErr(BWDataErr::WrongSize(8, 2, 1)))
    );
    assert_eq!(out, vec![1u8, 2, 3]);
}

#[test]
fn a_corrupt_header_is_reported_with_index_and_offset() {
    let imgs = [sample(8, 2, 1), sample(13, 3, 2), sample(1, 1, 3)];
    let mut raw = Vec::new();
    for img in &imgs {
        encode_file(&mut raw, img).unwrap();
    }
    let first_len = 16 + imgs[0].pixels.len();
    raw[first_len + 1] = b'?';

    let compressed = zlib(&raw);
    let mut it = decompress_imgs(&compressed);
    let first = it.next().unwrap().unwrap();
    assert_eq!(first.pixels, imgs[0].pixels);
    assert_eq!(
        it.next().unwrap().unwrap_err(),
        BWError::Compression(
            1,
            Box::new(BWError::FileHeader(HeaderError::BadMagic(b'B', b'?', b'I', b'M'))),
            first_len as u64
        )
    );
}

#[test]
fn a_truncated_frame_in_a_stream_is_reported_with_index_and_offset() {
    let imgs = [sample(8, 2, 1), sample(13, 3, 2)];
    let mut raw = Vec::new();
    for img in &imgs {
        encode_file(&mut raw, img).unwrap();
    }
    let first_len = (16 + imgs[0].pixels.len()) as u64;

    let compressed = zlib(&raw[..raw.len() - 2]);
    let mut it = decompress_imgs(&compressed);
    assert!(it.next().unwrap().is_ok());
    assert_eq!(
        it.next().unwrap().unwrap_err(),
        BWError::Compression(1, Box::new(BWError::Io(IoFault::UnexpectedEof)), first_len)
    );
    assert!(it.next().is_none());

    let compressed = zlib(&raw[..first_len as usize + 5]);
    let mut it = decompress_imgs(&compressed);
    assert!(it.next().unwrap().is_ok());
    assert_eq!(
        it.next().unwrap().unwrap_err(),
        BWError::Compression(1, Box::new(BWError::FileHeader(HeaderError::Truncated(5))), first_len)
    );
}

#[test]
fn a_broken_zlib_stream_is_an_io_error_at_the_image_it_hits() {
    let imgs = [sample(8, 2, 1), sample(64, 64, 2)];
    let mut compressed = Vec::new();
    compress_imgs(&imgs, &mut compressed).unwrap();

    let mut it = decompress_imgs(&compressed[..compressed.len() / 2]);
    let mut seen = 0;
    let failure = loop {
        match it.next() {
            Some(Ok(_)) => seen += 1,
            Some(Err(e)) => break e,
            None => panic!("a cut stream must not end cleanly"),
        }
    };
    assert!(seen <= 1);
    match failure {
        BWError::Compression(index, cause, offset) => {
            assert_eq!(index, seen);
            assert_eq!(offset, if seen == 0 { 0 } else { 18 });
            assert!(matches!(*cause, BWError::Io(_)));
        }
        other => panic!("unexpected failure {:?}", other),
    }

    let mut it = decompress_imgs(b"certainly no zlib stream");
    assert!(matches!(
        it.next(),
        Some(Err(BWError::Compression(0, cause, 0))) if matches!(*cause, BWError::Io(_))
    ));
}
