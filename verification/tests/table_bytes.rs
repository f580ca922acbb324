use font_core::composite::{parse_composite_components, patch_composite_glyph_offsets};
use font_core::error::FontError;
use font_core::hmtx::{calculate_x_avg_char_width, extend_hmtx, get_hmtx_lsb};
use font_core::loca::{parse_loca_offsets, rebuild_glyf_with_patch};
use font_core::outline::{
    encode_glyph_outlines_binary, extract_glyph_outlines, get_glyph_outlines_binary, CharMapping,
    DrawnGlyph, GlyphOutline, OutlineSet,
};
use font_core::outline_data::{CompositeOffsetUpdate, GlyphBounds};
use font_core::table_view::{loca_entries, table_kind, LocaEntry, TableKind};

fn update(x: f32, y: f32) -> CompositeOffsetUpdate {
    CompositeOffsetUpdate { x_offset: x.to_bits(), y_offset: y.to_bits() }
}

#[test]
fn loca_offsets_are_read_in_both_formats() {
    let short = [0u8, 0, 0, 5, 0xFF, 0xFF, 0x12];
    assert_eq!(parse_loca_offsets(&short, 5, false), vec![0, 10, 131070, 0, 0]);
    let long = [0u8, 0, 0, 0, 0, 0, 1, 4, 0xFF, 0xFF, 0xFF, 0xFF, 9, 9];
    assert_eq!(parse_loca_offsets(&long, 4, true), vec![0, 260, 0xFFFF_FFFF, 0]);
    assert_eq!(parse_loca_offsets(&[], 2, true), vec![0, 0]);
    assert!(parse_loca_offsets(&long, 0, true).is_empty());
}

#[test]
fn rebuild_replaces_one_glyph_and_pads_each() {
    // three glyphs: 5 bytes, none, 2 bytes
    let glyf = [1u8, 2, 3, 4, 5, 9, 9];
    let offsets = [0u32, 5, 5, 7];
    let (new_glyf, new_loca) =
        rebuild_glyf_with_patch(&glyf, &offsets, 1, &[7, 7, 7], false, 3).unwrap();
    assert_eq!(
        new_glyf,
        vec![1, 2, 3, 4, 5, 0, 0, 0, 7, 7, 7, 0, 9, 9, 0, 0]
    );
    // offsets 0, 8, 12, 16, halved
    assert_eq!(new_loca, vec![0, 0, 0, 4, 0, 6, 0, 8]);
    let (_, long_loca) =
        rebuild_glyf_with_patch(&glyf, &offsets, 1, &[7, 7, 7], true, 3).unwrap();
    assert_eq!(
        long_loca,
        vec![0, 0, 0, 0, 0, 0, 0, 8, 0, 0, 0, 12, 0, 0, 0, 16]
    );
}

#[test]
fn rebuild_adds_empty_glyphs_up_to_a_new_one() {
    let glyf = [1u8, 2, 3, 4];
    let offsets = [0u32, 4];
    let (new_glyf, new_loca) =
        rebuild_glyf_with_patch(&glyf, &offsets, 3, &[8, 8], true, 4).unwrap();
    assert_eq!(new_glyf, vec![1, 2, 3, 4, 8, 8, 0, 0]);
    assert_eq!(
        new_loca,
        vec![0, 0, 0, 0, 0, 0, 0, 4, 0, 0, 0, 4, 0, 0, 0, 4, 0, 0, 0, 8]
    );
}

#[test]
fn rebuild_passes_over_offsets_that_leave_the_table() {
    let glyf = [1u8, 2, 3, 4];
    // glyph 0 runs backwards, glyph 1 leaves the table
    let offsets = [4u32, 0, 400];
    let (new_glyf, new_loca) =
        rebuild_glyf_with_patch(&glyf, &offsets, 9, &[1], true, 2).unwrap();
    assert!(new_glyf.is_empty());
    assert_eq!(new_loca, vec![0; 12]);
}

#[test]
fn rebuilt_offsets_are_multiples_of_four_and_never_fall() {
    let glyf: Vec<u8> = (0..50u8).collect();
    let offsets = [0u32, 3, 3, 10, 27, 50];
    let (_, loca) = rebuild_glyf_with_patch(&glyf, &offsets, 2, &[1, 2, 3, 4, 5], true, 8).unwrap();
    let read = parse_loca_offsets(&loca, 9, true);
    // lengths 3, 0, 5 (the new glyph), 17, 23, then three empty glyphs
    assert_eq!(read, vec![0, 4, 4, 12, 32, 56, 56, 56, 56]);
    for pair in read.windows(2) {
        assert!(pair[0] <= pair[1]);
    }
    for offset in read {
        assert_eq!(offset % 4, 0);
    }
}

#[test]
fn short_loca_overflows_beyond_0x1fffe() {
    let big = vec![0u8; 0x1_FFFC];
    let offsets = [0u32, 0x1_FFFC];
    // 0x1FFFC bytes fit
    assert!(rebuild_glyf_with_patch(&big, &offsets, 1, &[], false, 1).is_ok());
    // one more glyph of four bytes makes 0x20000
    let r = rebuild_glyf_with_patch(&big, &offsets, 1, &[1, 2, 3, 4], false, 2);
    assert_eq!(r, Err(FontError::LocaOverflow));
    // the long format takes it
    assert!(rebuild_glyf_with_patch(&big, &offsets, 1, &[1, 2, 3, 4], true, 2).is_ok());
}

#[test]
fn hmtx_grows_by_two_bytes_for_each_new_glyph() {
    let hmtx = [1u8, 244, 0, 10, 0, 20];
    assert_eq!(extend_hmtx(&hmtx, 2, 4, 1, 500), vec![1, 244, 0, 10, 0, 20, 0, 0, 0, 0]);
    assert_eq!(extend_hmtx(&hmtx, 2, 2, 1, 500), hmtx.to_vec());
    assert_eq!(extend_hmtx(&hmtx, 5, 2, 1, 500), hmtx.to_vec());
}

#[test]
fn left_side_bearing_is_read_from_both_parts_of_hmtx() {
    // two long entries, then two bearings
    let hmtx = [1u8, 244, 0, 10, 2, 88, 0xFF, 0xF6, 0, 7, 0x80, 0];
    assert_eq!(get_hmtx_lsb(&hmtx, 2, 0), 10);
    assert_eq!(get_hmtx_lsb(&hmtx, 2, 1), -10);
    assert_eq!(get_hmtx_lsb(&hmtx, 2, 2), 7);
    assert_eq!(get_hmtx_lsb(&hmtx, 2, 3), -32768);
    assert_eq!(get_hmtx_lsb(&hmtx, 2, 4), 0);
    assert_eq!(get_hmtx_lsb(&hmtx, 2, u32::MAX), 0);
    assert_eq!(get_hmtx_lsb(&[], 0, 0), 0);
}

#[test]
fn average_width_is_the_mean_towards_zero() {
    assert_eq!(calculate_x_avg_char_width(&[]), 0);
    assert_eq!(calculate_x_avg_char_width(&[None, None]), 0);
    assert_eq!(calculate_x_avg_char_width(&[Some(500), None, Some(601)]), 550);
    assert_eq!(calculate_x_avg_char_width(&[Some(-3), Some(-4)]), -3);
    assert_eq!(calculate_x_avg_char_width(&[Some(1000), Some(2000), Some(3001)]), 2000);
    // a mean beyond 16 bits keeps its low bits
    assert_eq!(calculate_x_avg_char_width(&[Some(40000)]), 40000u16 as i16);
    assert_eq!(calculate_x_avg_char_width(&[Some(i32::MAX); 3]), -1);
}

#[test]
fn components_are_read_in_both_widths() {
    let data = [
        0x00u8, 0x23, 0, 10, 0, 200, 0xFE, 0xD4, // words, xy, more: glyph 10 at (200, -300)
        0x00, 0x2A, 0, 11, 12, 0xF9, 0x40, 0x00, // bytes, xy, scale, more: glyph 11 at (12, -7)
        0x00, 0x00, 0, 12, 5, 6, // bytes, point numbers: glyph 12 at (0, 0)
        0xAA, 0xBB,
    ];
    let components = parse_composite_components(&data).unwrap();
    assert_eq!(components.len(), 3);
    assert_eq!(components[0].glyph_id, 10);
    assert_eq!(f32::from_bits(components[0].x_offset), 200.0);
    assert_eq!(f32::from_bits(components[0].y_offset), -300.0);
    assert_eq!(components[1].glyph_id, 11);
    assert_eq!(f32::from_bits(components[1].x_offset), 12.0);
    assert_eq!(f32::from_bits(components[1].y_offset), -7.0);
    assert_eq!(components[2].glyph_id, 12);
    assert_eq!(components[2].x_offset, 0.0f32.to_bits());
    assert_eq!(components[2].y_offset, 0.0f32.to_bits());
    assert!(components.iter().all(|c| c.outline.is_none()));
}

#[test]
fn components_that_are_cut_short_are_refused() {
    let refused = Some(FontError::MalformedComposite);
    // no component where one is due
    assert_eq!(parse_composite_components(&[]).err(), refused);
    // the flags and the glyph are cut short
    assert_eq!(parse_composite_components(&[0, 0x22, 0]).err(), refused);
    // the arguments are cut short
    assert_eq!(parse_composite_components(&[0, 1, 0, 10, 0]).err(), refused);
    assert_eq!(parse_composite_components(&[0, 0x23, 0, 10, 0, 200, 0xFE]).err(), refused);
    // the transform is cut short
    assert_eq!(parse_composite_components(&[0, 0x82, 0, 9, 1, 2, 0x40, 0]).err(), refused);
    // a second component is announced and one stray byte stands in its place
    assert_eq!(parse_composite_components(&[0, 0x22, 0, 9, 1, 2, 0xEE]).err(), refused);
    assert_eq!(parse_composite_components(&[0, 0x22, 0, 9, 1, 2]).err(), refused);
    // whole: the same component without an announcement, and what follows it is not read
    let whole = parse_composite_components(&[0, 0x02, 0, 9, 1, 2, 0xEE]).unwrap();
    assert_eq!(whole.len(), 1);
    assert_eq!(whole[0].glyph_id, 9);
    let whole = parse_composite_components(&[0, 0x82, 0, 9, 1, 2, 1, 2, 3, 4, 5, 6, 7, 8]).unwrap();
    assert_eq!(whole.len(), 1);
}

#[test]
fn patch_widens_the_arguments_where_the_offset_needs_it() {
    // header, then one component (id=10, x=12, y=-7) in bytes
    let glyph = [
        0xFFu8, 0xFF, 0, 1, 0, 2, 0, 3, 0, 4, //
        0x00, 0x02, 0, 10, 12, 0xF9, //
    ];
    let patched = patch_composite_glyph_offsets(&glyph, &[update(200.0, -300.0)]).unwrap();
    assert_eq!(
        patched,
        vec![
            0xFF, 0xFF, 0, 1, 0, 2, 0, 3, 0, 4, //
            0x00, 0x03, 0, 10, 0, 200, 0xFE, 0xD4,
        ]
    );
    let components = parse_composite_components(&patched[10..]).unwrap();
    assert_eq!(components.len(), 1);
    assert_eq!(components[0].glyph_id, 10);
    assert_eq!(f32::from_bits(components[0].x_offset), 200.0);
    assert_eq!(f32::from_bits(components[0].y_offset), -300.0);
}

#[test]
fn patch_narrows_the_arguments_where_the_offset_allows_it() {
    let glyph = [
        0u8, 0, 0, 0, 0, 0, 0, 0, 0, 0, //
        0x00, 0x2B, 0, 10, 0, 200, 0xFE, 0xD4, 0x40, 0x00, // words, xy, scale, more
        0x01, 0x01, 0, 11, 0, 1, 0, 2, // words, point numbers, instructions follow
        0xDE, 0xAD,
    ];
    let patched =
        patch_composite_glyph_offsets(&glyph, &[update(-128.0, 126.6), update(1.0, 127.4)])
            .unwrap();
    assert_eq!(
        patched,
        vec![
            0, 0, 0, 0, 0, 0, 0, 0, 0, 0, //
            0x00, 0x2A, 0, 10, 0x80, 127, 0x40, 0x00, // bytes now: (-128, 127)
            0x01, 0x03, 0, 11, 0, 1, 0, 127, // 127.4 lies outside, so words: (1, 127)
            0xDE, 0xAD,
        ]
    );
}

#[test]
fn patch_keeps_the_offset_of_a_component_without_an_update() {
    let glyph = [
        0u8, 0, 0, 0, 0, 0, 0, 0, 0, 0, //
        0x00, 0x22, 0, 10, 1, 2, //
        0x00, 0x23, 0, 11, 3, 0xE8, 0xFC, 0x18, // (1000, -1000)
        0x00, 0x00, 0, 12, 9, 9, // point numbers
    ];
    let patched = patch_composite_glyph_offsets(&glyph, &[update(5.0, 6.0)]).unwrap();
    assert_eq!(
        patched,
        vec![
            0, 0, 0, 0, 0, 0, 0, 0, 0, 0, //
            0x00, 0x22, 0, 10, 5, 6, //
            0x00, 0x23, 0, 11, 3, 0xE8, 0xFC, 0x18, //
            0x00, 0x02, 0, 12, 0, 0, // now an offset of (0, 0)
        ]
    );
}

#[test]
fn patch_with_the_offsets_that_are_there_changes_nothing() {
    let glyph = vec![
        0xFFu8, 0xFF, 0, 1, 0, 2, 0, 3, 0, 4, //
        0x00, 0xA2, 0, 10, 12, 0xF9, 1, 2, 3, 4, 5, 6, 7, 8, // two by two
        0x01, 0x03, 0, 11, 0, 200, 0xFE, 0xD4, //
        1, 2, 3,
    ];
    let components = parse_composite_components(&glyph[10..]).unwrap();
    let updates: Vec<CompositeOffsetUpdate> = components
        .iter()
        .map(|c| CompositeOffsetUpdate { x_offset: c.x_offset, y_offset: c.y_offset })
        .collect();
    assert_eq!(patch_composite_glyph_offsets(&glyph, &updates).unwrap(), glyph);
}

#[test]
fn patch_fails_on_a_glyph_that_is_cut_short() {
    assert_eq!(
        patch_composite_glyph_offsets(&[0; 9], &[]),
        Err(FontError::MalformedComposite)
    );
    // the arguments are cut short
    let glyph = [0u8, 0, 0, 0, 0, 0, 0, 0, 0, 0, 0x00, 0x03, 0, 10, 0, 200, 0xFE];
    assert_eq!(
        patch_composite_glyph_offsets(&glyph, &[update(1.0, 1.0)]),
        Err(FontError::MalformedComposite)
    );
    // the transform is cut short
    let glyph = [0u8, 0, 0, 0, 0, 0, 0, 0, 0, 0, 0x00, 0x0A, 0, 10, 1, 2, 0x40];
    assert_eq!(
        patch_composite_glyph_offsets(&glyph, &[]),
        Err(FontError::MalformedComposite)
    );
    // a header alone lacks the component that is due
    assert_eq!(
        patch_composite_glyph_offsets(&[7; 10], &[]),
        Err(FontError::MalformedComposite)
    );
    // a second component is announced and one stray byte stands in its place
    let glyph = [0u8, 0, 0, 0, 0, 0, 0, 0, 0, 0, 0x00, 0x22, 0, 10, 1, 2, 0xEE];
    assert_eq!(glyph.len(), 17);
    assert_eq!(
        patch_composite_glyph_offsets(&glyph, &[update(1.0, 1.0)]),
        Err(FontError::MalformedComposite)
    );
}

#[test]
fn patch_takes_what_is_no_number_as_zero_in_words() {
    let glyph = [0u8, 0, 0, 0, 0, 0, 0, 0, 0, 0, 0x00, 0x02, 0, 10, 1, 2];
    let patched = patch_composite_glyph_offsets(&glyph, &[update(f32::NAN, 3.0)]).unwrap();
    assert_eq!(&patched[10..], &[0x00, 0x03, 0, 10, 0, 0, 0, 3]);
}

fn outline(glyph_id: u32, name: Option<&str>, path: &str, bounds: bool) -> GlyphOutline {
    GlyphOutline {
        glyph_id,
        glyph_name: name.map(|n| n.to_string()),
        svg_path: path.to_string(),
        advance_width: 500.0f32.to_bits(),
        bounds: if bounds {
            Some(GlyphBounds {
                x_min: 1.0f32.to_bits(),
                y_min: (-2.0f32).to_bits(),
                x_max: 3.5f32.to_bits(),
                y_max: 4.0f32.to_bits(),
            })
        } else {
            None
        },
    }
}

#[test]
fn outline_stream_is_exact() {
    let outlines = vec![outline(7, Some("U+0041"), "M1 -2 Z", true), outline(9, None, "Z", false)];
    let bytes = encode_glyph_outlines_binary(&outlines, 300, 1000);
    let mut expected: Vec<u8> = Vec::new();
    expected.extend_from_slice(&300u32.to_le_bytes());
    expected.extend_from_slice(&2u32.to_le_bytes());
    expected.extend_from_slice(&1000u16.to_le_bytes());
    expected.extend_from_slice(&7u32.to_le_bytes());
    expected.extend_from_slice(&500.0f32.to_le_bytes());
    expected.push(1);
    expected.extend_from_slice(&1.0f32.to_le_bytes());
    expected.extend_from_slice(&(-2.0f32).to_le_bytes());
    expected.extend_from_slice(&3.5f32.to_le_bytes());
    expected.extend_from_slice(&4.0f32.to_le_bytes());
    expected.extend_from_slice(&6u16.to_le_bytes());
    expected.extend_from_slice(b"U+0041");
    expected.extend_from_slice(&7u32.to_le_bytes());
    expected.extend_from_slice(b"M1 -2 Z");
    expected.extend_from_slice(&9u32.to_le_bytes());
    expected.extend_from_slice(&500.0f32.to_le_bytes());
    expected.push(0);
    expected.extend_from_slice(&0u16.to_le_bytes());
    expected.extend_from_slice(&1u32.to_le_bytes());
    expected.extend_from_slice(b"Z");
    assert_eq!(bytes, expected);
}

fn set_of(n: u32) -> OutlineSet {
    OutlineSet {
        outlines: (0..n).map(|i| outline(i * 2, None, "M0 0 Z", false)).collect(),
        units_per_em: 2048,
        num_glyphs: 1234,
    }
}

fn header_of(bytes: &[u8]) -> (u32, u32, u16) {
    (
        u32::from_le_bytes([bytes[0], bytes[1], bytes[2], bytes[3]]),
        u32::from_le_bytes([bytes[4], bytes[5], bytes[6], bytes[7]]),
        u16::from_le_bytes([bytes[8], bytes[9]]),
    )
}

#[test]
fn pages_hold_every_outline_once() {
    let set = set_of(10);
    for limit in 1u32..=12 {
        let mut offset = 0u32;
        let mut held = 0u32;
        while offset < 10 {
            let page = get_glyph_outlines_binary(&set, offset, limit);
            let (total, batch, upem) = header_of(&page);
            assert_eq!(total, 1234);
            assert_eq!(upem, 2048);
            held += batch;
            offset += limit;
        }
        assert_eq!(held, 10);
    }
}

#[test]
fn a_page_beyond_the_outlines_is_empty() {
    let set = set_of(3);
    for (offset, limit) in [(3u32, 5u32), (100, 1), (u32::MAX, u32::MAX), (0, 0), (2, 0)] {
        let page = get_glyph_outlines_binary(&set, offset, limit);
        assert_eq!(page.len(), 10);
        assert_eq!(header_of(&page), (1234, 0, 2048));
    }
    let page = get_glyph_outlines_binary(&set, 2, u32::MAX);
    assert_eq!(header_of(&page), (1234, 1, 2048));
    // the one outline of that page is the third one
    assert_eq!(&page[10..14], &4u32.to_le_bytes());
}

#[test]
fn outlines_are_gathered_in_order_and_named_after_the_first_code_point() {
    let bounds = GlyphBounds { x_min: 0, y_min: 0, x_max: 0, y_max: 0 };
    let drawn = vec![
        DrawnGlyph { glyph_id: 0, svg_path: String::new(), advance_width: 1, bounds },
        DrawnGlyph { glyph_id: 3, svg_path: "M0 0 ".to_string(), advance_width: 2, bounds },
        DrawnGlyph { glyph_id: 4, svg_path: "Z".to_string(), advance_width: 3, bounds },
        DrawnGlyph { glyph_id: 9, svg_path: "L1 1 ".to_string(), advance_width: 4, bounds },
    ];
    let mappings = vec![
        CharMapping { code_point: 0x62, glyph_id: 4 },
        CharMapping { code_point: 0x41, glyph_id: 3 },
        CharMapping { code_point: 0x61, glyph_id: 3 },
        CharMapping { code_point: 0x1F600, glyph_id: 0 },
        CharMapping { code_point: 0x42, glyph_id: 4 },
    ];
    let outlines = extract_glyph_outlines(&drawn, &mappings);
    assert_eq!(outlines.len(), 3);
    assert_eq!(outlines[0].glyph_id, 3);
    assert_eq!(outlines[0].glyph_name.as_deref(), Some("U+0041"));
    assert_eq!(outlines[0].svg_path, "M0 0 ");
    assert_eq!(outlines[0].advance_width, 2);
    assert_eq!(outlines[0].bounds, Some(bounds));
    assert_eq!(outlines[1].glyph_id, 4);
    assert_eq!(outlines[1].glyph_name.as_deref(), Some("U+0062"));
    assert_eq!(outlines[2].glyph_id, 9);
    assert_eq!(outlines[2].glyph_name, None);
}

#[test]
fn loca_entries_carry_the_length_of_each_glyph() {
    let entries = loca_entries(&[0, 12, 12, 8, 40]);
    assert_eq!(
        entries,
        vec![
            LocaEntry { glyph_id: 0, offset: 0, length: 12 },
            LocaEntry { glyph_id: 1, offset: 12, length: 0 },
            LocaEntry { glyph_id: 2, offset: 12, length: 0 },
            LocaEntry { glyph_id: 3, offset: 8, length: 32 },
            LocaEntry { glyph_id: 4, offset: 40, length: 0 },
        ]
    );
    assert!(loca_entries(&[]).is_empty());
}

#[test]
fn table_names_ask_for_their_views() {
    assert_eq!(table_kind("head"), Some(TableKind::Head));
    assert_eq!(table_kind("name"), Some(TableKind::Name));
    assert_eq!(table_kind("maxp"), Some(TableKind::Maxp));
    assert_eq!(table_kind("hhea"), Some(TableKind::Hhea));
    assert_eq!(table_kind("post"), Some(TableKind::Post));
    assert_eq!(table_kind("OS/2"), Some(TableKind::Os2));
    assert_eq!(table_kind("loca"), Some(TableKind::Loca));
    assert_eq!(table_kind("glyf"), Some(TableKind::Other { tag: 0x676C7966 }));
    assert_eq!(table_kind("GSUBxyz"), Some(TableKind::Other { tag: 0x47535542 }));
    assert_eq!(table_kind("os2"), None);
    assert_eq!(table_kind(""), None);
    assert_eq!(table_kind("Head"), Some(TableKind::Other { tag: 0x48656164 }));
}
