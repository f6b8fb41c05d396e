use gbtile::color::RGB;
use gbtile::emit::{
    format_tile, name_from_stem, render_tile, variable_name, write_tile_gbdk, write_tile_rgbds,
    OutputType,
};
use gbtile::image::{decode_image, ColorType, DecodedImage, ImageInfo, QuantizationPolicy};
use gbtile::tile::{encode_tile, unpack_pixel, EncodedTile};

fn grey_image(name: &str, width: u32, height: u32, levels: Vec<u8>) -> DecodedImage {
    let info = ImageInfo { width, height, color_type: ColorType::Grayscale };
    assert!(info.matches_buffer(&levels));
    decode_image(name, info, levels, QuantizationPolicy::Luminance).unwrap()
}

fn tile(name: &str, data: Vec<u8>) -> EncodedTile {
    EncodedTile { input_filename: name.to_string(), tile_data: data }
}

/// The grey level that gets the palette index `index` under the luminance policy.
fn level(index: u8) -> u8 {
    [255, 160, 96, 0][index as usize]
}

#[test]
fn black_image_packs_to_ff() {
    let decoded = grey_image("black.png", 8, 8, vec![0; 64]);
    assert_eq!(decoded.color_numbers.len(), 1);
    for pixel in decoded.image_data.iter() {
        assert_eq!(*pixel, RGB { r: 0, g: 0, b: 0 });
        assert_eq!(decoded.lookup_color(pixel), 3);
    }
    let encoded = encode_tile(decoded);
    assert_eq!(encoded.tile_data, vec![0xFF; 16]);
    assert_eq!(encoded.input_filename, "black.png");
}

#[test]
fn white_image_packs_to_00() {
    let decoded = grey_image("white.png", 8, 8, vec![255; 64]);
    for pixel in decoded.image_data.iter() {
        assert_eq!(decoded.lookup_color(pixel), 0);
    }
    let encoded = encode_tile(decoded);
    assert_eq!(encoded.tile_data, vec![0x00; 16]);
}

#[test]
fn left_block_comes_before_right_block() {
    let mut levels = Vec::new();
    for _y in 0..8 {
        levels.extend_from_slice(&[0; 8]);
        levels.extend_from_slice(&[255; 8]);
    }
    let encoded = encode_tile(grey_image("two.png", 16, 8, levels));
    let mut expected = vec![0xFF; 16];
    expected.extend_from_slice(&[0x00; 16]);
    assert_eq!(encoded.tile_data, expected);
}

#[test]
fn blocks_are_taken_row_by_row() {
    let mut levels = Vec::new();
    for y in 0..16 {
        for x in 0..16 {
            levels.push(level(((y / 8) * 2 + x / 8) as u8));
        }
    }
    let encoded = encode_tile(grey_image("four.png", 16, 16, levels));
    let mut expected = Vec::new();
    for _ in 0..8 {
        expected.extend_from_slice(&[0x00, 0x00]);
    }
    for _ in 0..8 {
        expected.extend_from_slice(&[0xFF, 0x00]);
    }
    for _ in 0..8 {
        expected.extend_from_slice(&[0x00, 0xFF]);
    }
    for _ in 0..8 {
        expected.extend_from_slice(&[0xFF, 0xFF]);
    }
    assert_eq!(encoded.tile_data, expected);
}

#[test]
fn leftmost_pixel_takes_the_highest_bit() {
    let mut levels = vec![255u8; 64];
    levels[0] = level(1);
    levels[8 + 7] = level(2);
    levels[16 + 1] = level(3);
    let encoded = encode_tile(grey_image("bits.png", 8, 8, levels));
    assert_eq!(&encoded.tile_data[0..6], &[0x80, 0x00, 0x00, 0x01, 0x40, 0x40]);
    assert_eq!(&encoded.tile_data[6..], &[0u8; 10]);
}

#[test]
fn a_row_of_all_four_indices_packs_to_its_two_planes() {
    let mut levels = vec![255u8; 64];
    for (x, index) in [0u8, 1, 2, 3, 3, 2, 1, 0].iter().enumerate() {
        levels[x] = level(*index);
    }
    let encoded = encode_tile(grey_image("row.png", 8, 8, levels));
    assert_eq!(encoded.tile_data[0], 0b0101_1010);
    assert_eq!(encoded.tile_data[1], 0b0011_1100);
}

#[test]
fn packed_length_is_a_quarter_of_the_pixel_count() {
    for (width, height) in [(8u32, 8u32), (16, 8), (8, 24), (32, 16), (0, 8), (8, 0)] {
        let encoded =
            encode_tile(grey_image("len.png", width, height, vec![0; (width * height) as usize]));
        assert_eq!(encoded.tile_data.len() as u32, width * height / 4);
    }
}

#[test]
fn pixels_beyond_the_last_whole_block_are_left_out() {
    let mut levels = Vec::new();
    for y in 0..9 {
        for x in 0..10 {
            levels.push(if x < 8 && y < 8 { 0 } else { 255 });
        }
    }
    let encoded = encode_tile(grey_image("ragged.png", 10, 9, levels));
    assert_eq!(encoded.tile_data, vec![0xFF; 16]);
    let small = encode_tile(grey_image("small.png", 7, 7, vec![0; 49]));
    assert!(small.tile_data.is_empty());
}

#[test]
fn unpack_pixel_reads_both_planes() {
    assert_eq!(unpack_pixel(0x80, 0x00, 0), 1);
    assert_eq!(unpack_pixel(0x00, 0x80, 0), 2);
    assert_eq!(unpack_pixel(0x80, 0x80, 0), 3);
    assert_eq!(unpack_pixel(0x01, 0x01, 7), 3);
    assert_eq!(unpack_pixel(0x01, 0x01, 6), 0);
    assert_eq!(unpack_pixel(0b0101_1010, 0b0011_1100, 3), 3);
    assert_eq!(unpack_pixel(0b0101_1010, 0b0011_1100, 2), 2);
}

#[test]
fn unpacking_gives_back_every_palette_index() {
    let (width, height) = (24usize, 16usize);
    let mut indices = Vec::new();
    let mut levels = Vec::new();
    for y in 0..height {
        for x in 0..width {
            let index = ((x * 7 + y * 3 + x * y) % 4) as u8;
            indices.push(index);
            levels.push(level(index));
        }
    }
    let encoded = encode_tile(grey_image("trip.png", width as u32, height as u32, levels));
    assert_eq!(encoded.tile_data.len(), width * height / 4);
    for y in 0..height {
        for x in 0..width {
            let at = ((y / 8) * (width / 8) + x / 8) * 16 + (y % 8) * 2;
            let got = unpack_pixel(encoded.tile_data[at], encoded.tile_data[at + 1], (x % 8) as u8);
            assert_eq!(got, indices[y * width + x]);
        }
    }
}

#[test]
fn header_format_of_one_tile() {
    let data: Vec<u8> = (0..16u8).map(|i| i * 17).collect();
    let text = write_tile_gbdk("foo", &tile("foo.png", data));
    assert_eq!(
        text,
        "unsigned char foo[] = {\n    0x00,0x11,0x22,0x33,0x44,0x55,0x66,0x77,0x88,0x99,0xAA,0xBB,0xCC,0xDD,0xEE,0xFF\n};\n"
    );
}

#[test]
fn header_format_breaks_lines_after_16_bytes() {
    let data: Vec<u8> = (0..33u8).collect();
    let text = write_tile_gbdk("t", &tile("t.png", data));
    assert_eq!(
        text,
        "unsigned char t[] = {\n    0x00,0x01,0x02,0x03,0x04,0x05,0x06,0x07,0x08,0x09,0x0A,0x0B,0x0C,0x0D,0x0E,0x0F,\n    0x10,0x11,0x12,0x13,0x14,0x15,0x16,0x17,0x18,0x19,0x1A,0x1B,0x1C,0x1D,0x1E,0x1F,\n    0x20\n};\n"
    );
}

#[test]
fn header_format_of_no_bytes() {
    assert_eq!(write_tile_gbdk("e", &tile("e.png", vec![])), "unsigned char e[] = {\n\n};\n");
}

#[test]
fn header_format_matches_std_formatting() {
    let data: Vec<u8> = (0..=255u8).collect();
    let mut lines = Vec::new();
    for line in data.chunks(16) {
        let bytes: Vec<String> = line.iter().map(|b| format!("{:#04X}", b)).collect();
        lines.push(format!("    {}", bytes.join(",")));
    }
    let expected = format!("unsigned char all[] = {{\n{}\n}};\n", lines.join(",\n"));
    assert_eq!(write_tile_gbdk("all", &tile("all.png", data)), expected);
}

#[test]
fn assembly_format_of_one_tile() {
    let data: Vec<u8> = (0..16u8).map(|i| i * 17).collect();
    let text = write_tile_rgbds("foo", &tile("foo.png", data));
    assert_eq!(
        text,
        "SECTION \"Tiles for 'foo'\", ROM0\n\nEXPORT foo, foo_end\n\nfoo:\n    db $00,$11,$22,$33,$44,$55,$66,$77,$88,$99,$aa,$bb,$cc,$dd,$ee,$ff\nfoo_end:\n"
    );
}

#[test]
fn assembly_format_breaks_lines_after_16_bytes() {
    let data: Vec<u8> = (0..18u8).map(|i| 255 - i).collect();
    let text = write_tile_rgbds("x", &tile("x.png", data));
    assert_eq!(
        text,
        "SECTION \"Tiles for 'x'\", ROM0\n\nEXPORT x, x_end\n\nx:\n    db $ff,$fe,$fd,$fc,$fb,$fa,$f9,$f8,$f7,$f6,$f5,$f4,$f3,$f2,$f1,$f0,\n    db $ef,$ee\nx_end:\n"
    );
}

#[test]
fn assembly_format_matches_std_formatting() {
    let data: Vec<u8> = (0..=255u8).rev().collect();
    let mut lines = Vec::new();
    for line in data.chunks(16) {
        let bytes: Vec<String> = line.iter().map(|b| format!("${:02x}", b)).collect();
        lines.push(format!("    db {}", bytes.join(",")));
    }
    let expected = format!(
        "SECTION \"Tiles for 'all'\", ROM0\n\nEXPORT all, all_end\n\nall:\n{}\nall_end:\n",
        lines.join(",\n")
    );
    assert_eq!(write_tile_rgbds("all", &tile("all.png", data)), expected);
}

#[test]
fn render_tile_follows_the_output_type() {
    let t = tile("n.png", vec![1, 2]);
    assert_eq!(render_tile("n", &t, OutputType::Gbdk), write_tile_gbdk("n", &t));
    assert_eq!(render_tile("n", &t, OutputType::Rgbds), write_tile_rgbds("n", &t));
    assert_eq!(render_tile("n", &t, OutputType::Gbdk), "unsigned char n[] = {\n    0x01,0x02\n};\n");
}

#[test]
fn output_type_defaults_to_the_header_format() {
    assert_eq!(OutputType::from_name(Some("gbdk")), OutputType::Gbdk);
    assert_eq!(OutputType::from_name(Some("rgbds")), OutputType::Rgbds);
    assert_eq!(OutputType::from_name(Some("RGBDS")), OutputType::Gbdk);
    assert_eq!(OutputType::from_name(Some("")), OutputType::Gbdk);
    assert_eq!(OutputType::from_name(None), OutputType::Gbdk);
}

#[test]
fn variable_name_is_the_file_name_without_directory_and_extension() {
    assert_eq!(variable_name("foo.png").unwrap(), "foo");
    assert_eq!(variable_name("some/dir/sprites.tiles.png").unwrap(), "sprites.tiles");
    assert_eq!(variable_name("plain").unwrap(), "plain");
}

#[test]
fn variable_name_refuses_a_path_without_a_file_name() {
    assert_eq!(variable_name("").unwrap_err().path, "");
    assert_eq!(variable_name("dir/..").unwrap_err().path, "dir/..");
}

#[test]
fn name_from_stem_hands_the_stem_on() {
    assert_eq!(name_from_stem(Some("a".to_string()), "a.png").unwrap(), "a");
    assert_eq!(name_from_stem(None, "..").unwrap_err().path, "..");
}

#[test]
fn format_tile_names_the_tiles_after_their_file() {
    let t = tile("art/hero.png", vec![0xAB]);
    assert_eq!(
        format_tile(&t, OutputType::Gbdk).unwrap(),
        "unsigned char hero[] = {\n    0xAB\n};\n"
    );
    assert_eq!(
        format_tile(&t, OutputType::Rgbds).unwrap(),
        "SECTION \"Tiles for 'hero'\", ROM0\n\nEXPORT hero, hero_end\n\nhero:\n    db $ab\nhero_end:\n"
    );
    assert_eq!(format_tile(&tile("..", vec![1]), OutputType::Gbdk).unwrap_err().path, "..");
}

#[test]
fn whole_pipeline_from_samples_to_text() {
    let mut samples = Vec::new();
    for y in 0..8u8 {
        for x in 0..8u8 {
            let v = if (x + y) % 2 == 0 { 250 } else { 5 };
            samples.extend_from_slice(&[v, v, v, 255]);
        }
    }
    let info = ImageInfo { width: 8, height: 8, color_type: ColorType::RGBA };
    let decoded =
        decode_image("check.png", info, samples, QuantizationPolicy::StrictLuminance).unwrap();
    let encoded = encode_tile(decoded);
    let text = format_tile(&encoded, OutputType::Gbdk).unwrap();
    assert_eq!(
        text,
        "unsigned char check[] = {\n    0x55,0x55,0xAA,0xAA,0x55,0x55,0xAA,0xAA,0x55,0x55,0xAA,0xAA,0x55,0x55,0xAA,0xAA\n};\n"
    );
}

#[test]
fn variable_name_is_a_part_of_the_path_and_not_empty() {
    for path in ["foo.png", "some/dir/sprites.tiles.png", "plain", ".hidden", "a/b.c/d.e.f", "x."] {
        let name = variable_name(path).unwrap();
        assert!(!name.is_empty());
        assert!(path.contains(name.as_str()));
    }
    assert_eq!(variable_name(".hidden").unwrap(), ".hidden");
    assert_eq!(variable_name("a/b.c/d.e.f").unwrap(), "d.e");
    assert_eq!(variable_name("x.").unwrap(), "x");
}
