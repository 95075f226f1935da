use gif_sauce::bytes::ByteReader;
use gif_sauce::codec::{is_encodable, lzw_decode, lzw_encode};
use gif_sauce::packed::color_table_len;
use gif_sauce::parse::{
    parse, parse_gif, read_application_extension, read_color_table, read_comment_extension,
    read_gif_header, read_graphics_control_extension, read_image_descriptor,
    read_logical_screen_descriptor, read_lzw_data, read_plain_text_extension, Parsed,
};
use gif_sauce::write::reassemble_gif;
use gif_sauce::{
    ApplicationExtension, ColorTable, CommentExtension, Gif, GifError, GifHeader,
    GraphicsControlExtension, ImageDescriptor, LogicalScreenDescriptor, PlainTextExtension, Rgb,
};

/// A 1x1 image with a two-entry global table and one pixel of index 0.
fn minimal_gif() -> Vec<u8> {
    vec![
        0x47, 0x49, 0x46, 0x38, 0x39, 0x61, // GIF89a
        0x01, 0x00, 0x01, 0x00, 0x80, 0x00, 0x00, // screen descriptor
        0x00, 0x00, 0x00, 0xFF, 0xFF, 0xFF, // global color table
        0x2C, 0x00, 0x00, 0x00, 0x00, 0x01, 0x00, 0x01, 0x00, 0x00, // image descriptor
        0x02, // minimum code size
        0x02, 0x44, 0x01, // clear, 0, end
        0x00, // terminator
        0x3B, // trailer
    ]
}

fn sample_gif(pixels: Vec<u8>, min: u8) -> Gif {
    Gif {
        header: GifHeader { signature: b"GIF".to_vec(), version: b"89a".to_vec() },
        logical_screen_descriptor: LogicalScreenDescriptor {
            width: 4,
            height: 300,
            packed_field: 0x81,
            background_color_index: 1,
            pixel_aspect_ratio: 0,
        },
        global_color_table: Some(ColorTable {
            colors: (0..4u8).map(|i| Rgb { red: i, green: 2 * i, blue: 3 * i }).collect(),
        }),
        graphics_control_extension: Some(GraphicsControlExtension {
            packed_field: 0x05,
            delay_time: 0x1234,
            transparent_color_index: 3,
        }),
        comment_extensions: vec![CommentExtension { comments: vec!["hello".to_string()] }],
        application_extensions: vec![ApplicationExtension {
            identifier: b"NETSCAPE".to_vec(),
            authentication_code: b"2.0".to_vec(),
            data: (0..300u32).map(|i| (i % 251) as u8).collect(),
        }],
        plain_text_extensions: vec![],
        image_descriptors: vec![ImageDescriptor {
            left: 0,
            top: 0,
            width: 4,
            height: (pixels.len() / 4) as u16,
            packed_field: 0,
            local_color_table: None,
            lzw_minimum_code_size: min,
            image_data: pixels,
        }],
    }
}

#[test]
fn minimal_gif_parses_and_round_trips() {
    let bytes = minimal_gif();
    let g = parse_gif(&bytes).unwrap();
    assert_eq!(g.header.signature, b"GIF".to_vec());
    assert_eq!(g.header.version, b"89a".to_vec());
    assert_eq!(g.logical_screen_descriptor.width, 1);
    assert_eq!(g.logical_screen_descriptor.height, 1);
    assert_eq!(g.global_color_table.as_ref().unwrap().colors.len(), 2);
    assert_eq!(
        g.global_color_table.as_ref().unwrap().colors[1],
        Rgb { red: 0xFF, green: 0xFF, blue: 0xFF }
    );
    assert_eq!(g.image_descriptors.len(), 1);
    assert_eq!(g.image_descriptors[0].image_data, vec![0]);
    assert_eq!(g.image_descriptors[0].lzw_minimum_code_size, 2);
    assert_eq!(reassemble_gif(&g).unwrap(), bytes);
}

#[test]
fn truncated_image_data_keeps_what_was_decoded() {
    let bytes = minimal_gif();
    // The sub-block announces two bytes; only the first is there.
    let g = parse_gif(&bytes[..32]).unwrap();
    assert_eq!(g.image_descriptors.len(), 1);
    assert_eq!(g.image_descriptors[0].image_data, vec![0]);
    // Cut right after the sub-block's length byte.
    let g = parse_gif(&bytes[..31]).unwrap();
    assert_eq!(g.image_descriptors.len(), 1);
    assert!(g.image_descriptors[0].image_data.is_empty());
}

#[test]
fn input_ending_between_blocks_is_accepted() {
    let bytes = minimal_gif();
    let g = parse_gif(&bytes[..bytes.len() - 1]).unwrap();
    assert_eq!(g.image_descriptors.len(), 1);
    let g = parse_gif(&bytes[..19]).unwrap();
    assert!(g.image_descriptors.is_empty());
}

#[test]
fn malformed_signature_is_rejected() {
    let mut bytes = minimal_gif();
    bytes[2] = b'X';
    assert_eq!(parse_gif(&bytes), Err(GifError::InvalidSignature));
    let mut reader = ByteReader::new(b"GIX89a");
    assert_eq!(read_gif_header(&mut reader), Err(GifError::InvalidSignature));
}

#[test]
fn short_inputs_end_unexpectedly() {
    assert_eq!(parse_gif(b"GIF"), Err(GifError::UnexpectedEof));
    assert_eq!(parse_gif(b"GIF89a\x01\x00"), Err(GifError::UnexpectedEof));
    let bytes = minimal_gif();
    assert_eq!(parse_gif(&bytes[..15]), Err(GifError::UnexpectedEof));
}

#[test]
fn graphics_control_extension_with_wrong_size_is_rejected() {
    let mut reader = ByteReader::new(&[3, 0, 0, 0, 0, 0]);
    assert_eq!(read_graphics_control_extension(&mut reader), Err(GifError::InvalidBlockSize));
    let mut bytes = minimal_gif();
    bytes.truncate(19);
    bytes.extend_from_slice(&[0x21, 0xF9, 0x05, 0, 0, 0, 0, 0, 0, 0x3B]);
    assert_eq!(parse_gif(&bytes), Err(GifError::InvalidBlockSize));
}

#[test]
fn graphics_control_extension_fields() {
    let mut reader = ByteReader::new(&[4, 0x09, 0x34, 0x12, 7, 0]);
    let g = read_graphics_control_extension(&mut reader).unwrap();
    assert_eq!(g.packed_field, 0x09);
    assert_eq!(g.delay_time, 0x1234);
    assert_eq!(g.transparent_color_index, 7);
    assert_eq!(g.disposal_method(), 2);
    assert!(g.has_transparency());
    assert!(!g.user_input());
    assert_eq!(reader.track_position(), 6);
}

#[test]
fn clear_then_end_decodes_to_nothing() {
    // Codes 4 then 5, three bits each.
    assert_eq!(lzw_decode(&[0x2C], 2), Ok(vec![]));
    // Codes 256 then 257, nine bits each.
    assert_eq!(lzw_decode(&[0x00, 0x03, 0x02], 8), Ok(vec![]));
}

#[test]
fn code_without_entry_or_previous_code_is_invalid() {
    // Code 7 right at the start, three bits wide.
    assert_eq!(lzw_decode(&[0x07], 2), Err(GifError::InvalidCode));
}

#[test]
fn oversized_code_size_is_refused() {
    assert_eq!(lzw_decode(&[0x00], 12), Err(GifError::UnsupportedCodeSize));
    assert_eq!(lzw_encode(&[0], 12), Err(GifError::UnsupportedCodeSize));
    assert_eq!(lzw_encode(&[4], 2), Err(GifError::UnsupportedCodeSize));
    assert!(!is_encodable(&[4], 2));
    assert!(is_encodable(&[3], 2));
    let g = sample_gif(vec![0, 1, 9, 2], 2);
    assert_eq!(reassemble_gif(&g), Err(GifError::UnsupportedCodeSize));
}

#[test]
fn self_referencing_code_is_decoded() {
    // Minimum code size 2: clear (4), 1, then 6, the code about to be
    // assigned, which stands for 1 1; then end (5). All three bits wide.
    let codes: [(u32, u32); 4] = [(4, 3), (1, 3), (6, 3), (5, 3)];
    let mut acc: u32 = 0;
    let mut n = 0;
    for (c, w) in codes {
        acc |= c << n;
        n += w;
    }
    let stream = vec![(acc & 0xFF) as u8, (acc >> 8) as u8];
    assert_eq!(lzw_decode(&stream, 2), Ok(vec![1, 1, 1]));
}

#[test]
fn encoder_output_is_the_gif_code_stream() {
    assert_eq!(lzw_encode(&[0], 2), Ok(vec![0x44, 0x01]));
}

#[test]
fn lzw_round_trip_for_every_code_size() {
    for k in 2u8..=8 {
        let modulus: u32 = 1 << k;
        let pixels: Vec<u8> =
            (0..5000u32).map(|i| ((i * 7 + i / 13) % modulus) as u8).collect();
        let encoded = lzw_encode(&pixels, k).unwrap();
        assert_eq!(lzw_decode(&encoded, k), Ok(pixels.clone()), "code size {}", k);
        let uniform = vec![(modulus - 1) as u8; 3000];
        let encoded = lzw_encode(&uniform, k).unwrap();
        assert_eq!(lzw_decode(&encoded, k), Ok(uniform), "code size {}", k);
    }
    assert_eq!(lzw_decode(&lzw_encode(&[], 2).unwrap(), 2), Ok(vec![]));
}

#[test]
fn serialized_gif_reparses_and_reserializes_identically() {
    let pixels: Vec<u8> = (0..1200u32).map(|i| (i % 3) as u8).collect();
    let g = sample_gif(pixels.clone(), 2);
    let bytes = reassemble_gif(&g).unwrap();
    let parsed = parse_gif(&bytes).unwrap();
    assert_eq!(parsed.image_descriptors[0].image_data, pixels);
    assert_eq!(parsed.application_extensions, g.application_extensions);
    assert_eq!(parsed.graphics_control_extension, g.graphics_control_extension);
    assert_eq!(reassemble_gif(&parsed).unwrap(), bytes);
}

#[test]
fn color_table_length_follows_the_exponent() {
    for e in 0u8..8 {
        assert_eq!(color_table_len(0x80 | e), 1usize << (e + 1));
        assert_eq!(color_table_len(0x80 | 0x70 | e), 1usize << (e + 1));
        assert_eq!(color_table_len(e), 0);
    }
    let d = LogicalScreenDescriptor {
        width: 1,
        height: 1,
        packed_field: 0xF2,
        background_color_index: 0,
        pixel_aspect_ratio: 0,
    };
    assert!(d.has_global_color_table());
    assert_eq!(d.global_color_table_len(), 8);
    assert_eq!(d.color_resolution(), 7);
    assert!(!d.is_sorted());
}

#[test]
fn image_descriptor_flags() {
    let img = ImageDescriptor {
        left: 0,
        top: 0,
        width: 1,
        height: 1,
        packed_field: 0xE1,
        local_color_table: None,
        lzw_minimum_code_size: 2,
        image_data: vec![],
    };
    assert!(img.has_local_color_table());
    assert_eq!(img.local_color_table_len(), 4);
    assert!(img.is_interlaced());
    assert!(img.is_sorted());
}

#[test]
fn screen_descriptor_and_color_table_fields() {
    let mut reader = ByteReader::new(&[0x34, 0x12, 0x02, 0x01, 0x91, 5, 49, 1, 2, 3, 4, 5, 6]);
    let d = read_logical_screen_descriptor(&mut reader).unwrap();
    assert_eq!(d.width, 0x1234);
    assert_eq!(d.height, 0x0102);
    assert_eq!(d.packed_field, 0x91);
    assert_eq!(d.background_color_index, 5);
    assert_eq!(d.pixel_aspect_ratio, 49);
    let t = read_color_table(&mut reader, 2).unwrap();
    assert_eq!(
        t.colors,
        vec![Rgb { red: 1, green: 2, blue: 3 }, Rgb { red: 4, green: 5, blue: 6 }]
    );
    assert_eq!(read_color_table(&mut reader, 1), Err(GifError::UnexpectedEof));
}

#[test]
fn comment_keeps_its_sub_blocks() {
    let mut reader = ByteReader::new(&[2, b'h', b'i', 3, b'y', b'o', b'u', 0]);
    let c = read_comment_extension(&mut reader).unwrap();
    assert_eq!(c.comments, vec!["hi".to_string(), "you".to_string()]);
    let mut reader = ByteReader::new(&[2, b'h', b'i', 3, b'y']);
    assert_eq!(read_comment_extension(&mut reader), Err(GifError::UnexpectedEof));
}

#[test]
fn application_extension_fields() {
    let mut bytes = vec![11];
    bytes.extend_from_slice(b"NETSCAPE2.0");
    bytes.extend_from_slice(&[3, 1, 0, 0, 0]);
    let mut reader = ByteReader::new(&bytes);
    let a = read_application_extension(&mut reader).unwrap();
    assert_eq!(a.identifier, b"NETSCAPE".to_vec());
    assert_eq!(a.authentication_code, b"2.0".to_vec());
    assert_eq!(a.data, vec![1, 0, 0]);
    bytes[0] = 10;
    let mut reader = ByteReader::new(&bytes);
    assert_eq!(read_application_extension(&mut reader), Err(GifError::InvalidBlockSize));
}

#[test]
fn plain_text_extension_fields_and_variant() {
    let body = [12, 1, 0, 2, 0, 3, 0, 4, 0, 5, 6, 7, 8, 2, b'o', b'k', 1, b'!', 0];
    let mut reader = ByteReader::new(&body);
    let t = read_plain_text_extension(&mut reader).unwrap();
    assert_eq!(t.block_size, 12);
    assert_eq!(t.text_grid_left_position, 1);
    assert_eq!(t.text_grid_top_position, 2);
    assert_eq!(t.text_grid_width, 3);
    assert_eq!(t.text_grid_height, 4);
    assert_eq!(t.character_cell_width, 5);
    assert_eq!(t.character_cell_height, 6);
    assert_eq!(t.text_foreground_color_index, 7);
    assert_eq!(t.text_background_color_index, 8);
    assert_eq!(t.plain_text_data, b"ok!".to_vec());

    let mut bytes = minimal_gif();
    bytes.pop();
    bytes.extend_from_slice(&[0x21, 0x01]);
    bytes.extend_from_slice(&body);
    bytes.push(0x3B);
    match parse(&bytes).unwrap() {
        Parsed::WithPlainText(g) => assert_eq!(g.plain_text_extensions, vec![t]),
        Parsed::Document(_) => panic!("plain text extension not reported"),
    }
    match parse(&minimal_gif()).unwrap() {
        Parsed::Document(g) => assert_eq!(g.image_descriptors.len(), 1),
        Parsed::WithPlainText(_) => panic!("no plain text extension there"),
    }
}

#[test]
fn plain_text_extensions_are_written_as_one() {
    let mut g = sample_gif(vec![0, 1, 2, 3], 2);
    let text = |data: &[u8]| PlainTextExtension {
        block_size: 12,
        text_grid_left_position: 0,
        text_grid_top_position: 0,
        text_grid_width: 0,
        text_grid_height: 0,
        character_cell_width: 0,
        character_cell_height: 0,
        text_foreground_color_index: 0,
        text_background_color_index: 0,
        plain_text_data: data.to_vec(),
    };
    g.plain_text_extensions = vec![text(b"abc"), text(b"de")];
    let bytes = reassemble_gif(&g).unwrap();
    let parsed = parse_gif(&bytes).unwrap();
    assert_eq!(parsed.plain_text_extensions, vec![text(b"abcde")]);
}

#[test]
fn unknown_extension_is_skipped_and_unknown_block_rejected() {
    let mut bytes = minimal_gif();
    bytes.truncate(19);
    bytes.extend_from_slice(&[0x21, 0x77, 2, 9, 9, 0]);
    bytes.extend_from_slice(&minimal_gif()[19..]);
    let g = parse_gif(&bytes).unwrap();
    assert_eq!(g.image_descriptors.len(), 1);
    assert!(g.comment_extensions.is_empty());

    let mut bytes = minimal_gif();
    bytes.truncate(19);
    bytes.push(0x00);
    assert_eq!(parse_gif(&bytes), Err(GifError::UnknownBlock));
}

#[test]
fn image_descriptor_needs_its_separator() {
    let mut reader = ByteReader::new(&[0x2B, 0, 0]);
    assert_eq!(read_image_descriptor(&mut reader), Err(GifError::InvalidSeparator));
    let bytes = minimal_gif();
    let mut reader = ByteReader::new(&bytes[19..]);
    let img = read_image_descriptor(&mut reader).unwrap();
    assert_eq!((img.left, img.top, img.width, img.height), (0, 0, 1, 1));
    assert!(img.local_color_table.is_none());
    assert_eq!(reader.track_position(), 15);
}

#[test]
fn lzw_data_reads_sub_blocks_leniently() {
    let mut reader = ByteReader::new(&[0x01, 0x44, 0x01, 0x01, 0x00]);
    assert_eq!(read_lzw_data(&mut reader, 2), Ok(vec![0]));
    assert_eq!(reader.track_position(), 5);
}

#[test]
fn comments_are_rejoined_when_written() {
    let mut g = sample_gif(vec![0, 1, 2, 3], 2);
    g.comment_extensions =
        vec![CommentExtension { comments: vec!["ab".to_string(), "c\u{e9}".to_string()] }];
    let bytes = reassemble_gif(&g).unwrap();
    let tail: Vec<u8> = vec![0x21, 0xFE, 5, b'a', b'b', b'c', 0xC3, 0xA9, 0];
    assert!(bytes.windows(tail.len()).any(|w| w == &tail[..]));
    let parsed = parse_gif(&bytes).unwrap();
    assert_eq!(parsed.comment_extensions[0].comments, vec!["abc\u{e9}".to_string()]);
}

#[test]
fn comment_text_is_decoded_lossily() {
    let mut reader = ByteReader::new(&[1, 0xFF, 2, 0xC3, 0xA9, 0]);
    let c = read_comment_extension(&mut reader).unwrap();
    assert_eq!(c.comments, vec!["\u{FFFD}".to_string(), "\u{e9}".to_string()]);
    assert_eq!(reader.track_position(), 6);
}

#[test]
fn image_descriptor_error_positions() {
    let mut reader = ByteReader::new(&[]);
    assert_eq!(read_image_descriptor(&mut reader), Err(GifError::UnexpectedEof));
    assert_eq!(reader.track_position(), 0);
    let mut reader = ByteReader::new(&[0x2B, 0, 0]);
    assert_eq!(read_image_descriptor(&mut reader), Err(GifError::InvalidSeparator));
    assert_eq!(reader.track_position(), 1);
    let mut reader = ByteReader::new(&[0x2C, 0, 0, 0]);
    assert_eq!(read_image_descriptor(&mut reader), Err(GifError::UnexpectedEof));
    assert_eq!(reader.track_position(), 1);
    // A local table of two entries is announced but missing.
    let mut reader = ByteReader::new(&[0x2C, 0, 0, 0, 0, 1, 0, 1, 0, 0x80, 1, 2, 3]);
    assert_eq!(read_image_descriptor(&mut reader), Err(GifError::UnexpectedEof));
    assert_eq!(reader.track_position(), 10);
    // Code 7 first: no entry and no previous code.
    let mut reader = ByteReader::new(&[0x2C, 0, 0, 0, 0, 1, 0, 1, 0, 0, 2, 1, 0x07, 0]);
    assert_eq!(read_image_descriptor(&mut reader), Err(GifError::InvalidCode));
    assert_eq!(reader.track_position(), 14);
}

#[test]
fn truncated_lzw_data_decodes_to_a_prefix() {
    let pixels: Vec<u8> = (0..600u32).map(|i| (i % 4) as u8).collect();
    let code = lzw_encode(&pixels, 2).unwrap();
    let mut stream = Vec::new();
    for chunk in code.chunks(255) {
        stream.push(chunk.len() as u8);
        stream.extend_from_slice(chunk);
    }
    stream.push(0);
    let mut reader = ByteReader::new(&stream);
    assert_eq!(read_lzw_data(&mut reader, 2), Ok(pixels.clone()));
    for j in 0..stream.len() {
        let mut reader = ByteReader::new(&stream[..j]);
        let part = read_lzw_data(&mut reader, 2).unwrap();
        assert!(part.len() <= pixels.len());
        assert_eq!(&pixels[..part.len()], &part[..]);
    }
}
