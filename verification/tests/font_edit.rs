use font_core::editor::{
    check_outline_table, plan_composite_update, plan_glyph_save, read_outline_tables,
    save_glyph_outline, update_composite_offsets, update_x_avg_char_width, SaveGlyphOutlineArgs,
};
use font_core::error::{FontError, PathFault};
use font_core::glyph_view::{
    build_glyph_outline_data_recursive, get_composite_info, get_glyph_outline_data,
    glyphs_to_draw, GlyphDrawing,
};
use font_core::headers::{
    update_head_table, update_hhea_table, update_maxp_table, HeadTableUpdate, HheaTableUpdate,
    MaxpTableUpdate,
};
use font_core::metadata::{check_font_hinting, parse_font};
use font_core::names::{update_name_table, NameTableUpdate};
use font_core::outline::{get_glyph_outlines_binary, outline_set, GlyphOutline};
use font_core::outline_data::{CompositeOffsetUpdate, OutlineCommand, Point};
use font_core::path::tokenize_svg_path;
use font_core::sfnt::{check_font, compose_font, RawTable};
use font_core::table_view::{get_table_content, TableView};
use skrifa::instance::{LocationRef, Size};
use skrifa::outline::{DrawSettings, OutlinePen};
use skrifa::raw::types::Tag;
use skrifa::raw::TableProvider;
use skrifa::{FontRef, GlyphId, MetadataProvider};
use write_fonts::tables::name::{Name, NameRecord};
use write_fonts::types::NameId;
use write_fonts::FontBuilder;

fn head_table(units_per_em: u16, long_loca: bool) -> Vec<u8> {
    let mut t = vec![0u8; 54];
    t[0..4].copy_from_slice(&[0, 1, 0, 0]);
    // revision 2.5: 0x0002_8000
    t[4..8].copy_from_slice(&[0, 2, 0x80, 0]);
    t[12..16].copy_from_slice(&0x5F0F_3CF5u32.to_be_bytes());
    t[16..18].copy_from_slice(&0x000Bu16.to_be_bytes());
    t[18..20].copy_from_slice(&units_per_em.to_be_bytes());
    t[20..28].copy_from_slice(&1234i64.to_be_bytes());
    t[28..36].copy_from_slice(&5678i64.to_be_bytes());
    t[36..38].copy_from_slice(&(-10i16).to_be_bytes());
    t[38..40].copy_from_slice(&(-20i16).to_be_bytes());
    t[40..42].copy_from_slice(&30i16.to_be_bytes());
    t[42..44].copy_from_slice(&40i16.to_be_bytes());
    t[46..48].copy_from_slice(&8u16.to_be_bytes());
    t[48..50].copy_from_slice(&2i16.to_be_bytes());
    t[50..52].copy_from_slice(&(long_loca as i16).to_be_bytes());
    t
}

fn hhea_table(number_of_h_metrics: u16) -> Vec<u8> {
    let mut t = vec![0u8; 36];
    t[0..4].copy_from_slice(&[0, 1, 0, 0]);
    t[4..6].copy_from_slice(&800i16.to_be_bytes());
    t[6..8].copy_from_slice(&(-200i16).to_be_bytes());
    t[8..10].copy_from_slice(&90i16.to_be_bytes());
    t[10..12].copy_from_slice(&600u16.to_be_bytes());
    t[18..20].copy_from_slice(&1i16.to_be_bytes());
    t[34..36].copy_from_slice(&number_of_h_metrics.to_be_bytes());
    t
}

fn maxp_table(num_glyphs: u16) -> Vec<u8> {
    let mut t = vec![0u8; 32];
    t[0..4].copy_from_slice(&[0, 1, 0, 0]);
    t[4..6].copy_from_slice(&num_glyphs.to_be_bytes());
    // room for points, contours and components
    t[6..8].copy_from_slice(&64u16.to_be_bytes());
    t[8..10].copy_from_slice(&8u16.to_be_bytes());
    t[10..12].copy_from_slice(&64u16.to_be_bytes());
    t[12..14].copy_from_slice(&8u16.to_be_bytes());
    t[14..16].copy_from_slice(&2u16.to_be_bytes());
    t[28..30].copy_from_slice(&4u16.to_be_bytes());
    t[30..32].copy_from_slice(&8u16.to_be_bytes());
    t
}

/// Metrics with a left side bearing of 0 for every glyph, so that a glyph
/// whose smallest x is 0 is drawn where its record puts it.
fn hmtx_table(num_glyphs: u16, number_of_h_metrics: u16) -> Vec<u8> {
    hmtx_with(num_glyphs, number_of_h_metrics, |_| 0)
}

fn hmtx_with(num_glyphs: u16, number_of_h_metrics: u16, lsb: fn(u16) -> i16) -> Vec<u8> {
    let mut t = Vec::new();
    for g in 0..number_of_h_metrics {
        t.extend_from_slice(&(500 + g).to_be_bytes());
        t.extend_from_slice(&lsb(g).to_be_bytes());
    }
    for g in number_of_h_metrics..num_glyphs {
        t.extend_from_slice(&lsb(g).to_be_bytes());
    }
    t
}

fn os2_table() -> Vec<u8> {
    let mut t = vec![0u8; 78];
    t[2..4].copy_from_slice(&432i16.to_be_bytes());
    t[4..6].copy_from_slice(&400u16.to_be_bytes());
    t[6..8].copy_from_slice(&5u16.to_be_bytes());
    t
}

fn post_table() -> Vec<u8> {
    let mut t = vec![0u8; 32];
    t[0..4].copy_from_slice(&[0, 3, 0, 0]);
    t[8..10].copy_from_slice(&(-75i16).to_be_bytes());
    t[10..12].copy_from_slice(&50i16.to_be_bytes());
    t
}

fn name_record(platform: u16, encoding: u16, language: u16, id: u16, text: &str) -> NameRecord {
    NameRecord::new(platform, encoding, language, NameId::new(id), text.to_string().into())
}

fn name_table(records: Vec<NameRecord>) -> Vec<u8> {
    write_fonts::dump_table(&Name::new(records)).unwrap()
}

fn default_names() -> Vec<u8> {
    name_table(vec![
        name_record(3, 1, 0x409, 1, "Old"),
        name_record(3, 1, 0x409, 2, "Regular"),
    ])
}

fn triangle() -> Vec<u8> {
    vec![
        0, 1, 0, 0, 0, 0, 0, 50, 0, 60, 0, 2, 0, 0, 1, 1, 1, 0, 0, 0, 50, 0, 0, 0, 0, 0, 0, 0, 60,
    ]
}

/// A composite glyph with byte offsets.
fn composite(components: &[(u16, i8, i8)]) -> Vec<u8> {
    let mut g = vec![0xFF, 0xFF, 0, 0, 0, 0, 0, 0, 0, 0];
    for (i, (glyph, x, y)) in components.iter().enumerate() {
        let more = if i + 1 < components.len() { 0x20 } else { 0 };
        g.extend_from_slice(&[0x00, 0x02 | more]);
        g.extend_from_slice(&glyph.to_be_bytes());
        g.push(*x as u8);
        g.push(*y as u8);
    }
    g
}

fn glyf_and_loca(glyphs: &[Vec<u8>], long_loca: bool) -> (Vec<u8>, Vec<u8>) {
    let mut glyf = Vec::new();
    let mut loca = Vec::new();
    let push = |offset: usize, loca: &mut Vec<u8>| {
        if long_loca {
            loca.extend_from_slice(&(offset as u32).to_be_bytes());
        } else {
            loca.extend_from_slice(&((offset / 2) as u16).to_be_bytes());
        }
    };
    for g in glyphs {
        push(glyf.len(), &mut loca);
        glyf.extend_from_slice(g);
        while glyf.len() % 4 != 0 {
            glyf.push(0);
        }
    }
    push(glyf.len(), &mut loca);
    (glyf, loca)
}

fn tag(name: &[u8; 4]) -> Tag {
    Tag::new(name)
}

fn font_with(glyphs: &[Vec<u8>], long_loca: bool, names: Vec<u8>, extra: &[(&[u8; 4], Vec<u8>)]) -> Vec<u8> {
    let n = glyphs.len() as u16;
    let h = n.min(3).max(1);
    let (glyf, loca) = glyf_and_loca(glyphs, long_loca);
    let mut builder = FontBuilder::new();
    builder.add_raw(tag(b"head"), head_table(1000, long_loca));
    builder.add_raw(tag(b"hhea"), hhea_table(h));
    builder.add_raw(tag(b"maxp"), maxp_table(n));
    builder.add_raw(tag(b"hmtx"), hmtx_table(n, h));
    builder.add_raw(tag(b"OS/2"), os2_table());
    builder.add_raw(tag(b"post"), post_table());
    builder.add_raw(tag(b"name"), names);
    builder.add_raw(tag(b"glyf"), glyf);
    builder.add_raw(tag(b"loca"), loca);
    for (name, data) in extra {
        builder.add_raw(tag(name), data.clone());
    }
    builder.build()
}

fn font_of(glyphs: &[Vec<u8>]) -> Vec<u8> {
    font_with(glyphs, false, default_names(), &[])
}

fn numbers_of(path: &str) -> Vec<Option<u32>> {
    tokenize_svg_path(path)
        .into_iter()
        .map(|text| text.parse::<f32>().ok().map(f32::to_bits))
        .collect()
}

fn args(glyph_id: u32, path: &str, table: &str) -> SaveGlyphOutlineArgs {
    SaveGlyphOutlineArgs {
        glyph_id,
        svg_path: path.to_string(),
        table_name: table.to_string(),
    }
}

fn table(font: &[u8], name: &[u8; 4]) -> Option<Vec<u8>> {
    FontRef::new(font)
        .unwrap()
        .table_data(tag(name))
        .map(|d| d.as_bytes().to_vec())
}

struct Recorder {
    commands: Vec<OutlineCommand>,
}

fn pt(x: f32, y: f32) -> Point {
    Point { x: x.to_bits(), y: y.to_bits() }
}

impl OutlinePen for Recorder {
    fn move_to(&mut self, x: f32, y: f32) {
        self.commands.push(OutlineCommand::M { point: pt(x, y) });
    }
    fn line_to(&mut self, x: f32, y: f32) {
        self.commands.push(OutlineCommand::L { point: pt(x, y) });
    }
    fn quad_to(&mut self, cx0: f32, cy0: f32, x: f32, y: f32) {
        self.commands.push(OutlineCommand::Q { ctrl: pt(cx0, cy0), point: pt(x, y) });
    }
    fn curve_to(&mut self, cx0: f32, cy0: f32, cx1: f32, cy1: f32, x: f32, y: f32) {
        self.commands.push(OutlineCommand::C {
            ctrl1: pt(cx0, cy0),
            ctrl2: pt(cx1, cy1),
            point: pt(x, y),
        });
    }
    fn close(&mut self) {
        self.commands.push(OutlineCommand::Z);
    }
}

/// Draws a glyph as the host does.
fn drawing(font: &[u8], glyph_id: u32) -> GlyphDrawing {
    let f = FontRef::new(font).unwrap();
    let advance_width = f
        .glyph_metrics(Size::unscaled(), LocationRef::default())
        .advance_width(GlyphId::new(glyph_id))
        .map(f32::to_bits);
    let commands = f.outline_glyphs().get(GlyphId::new(glyph_id)).map(|glyph| {
        let mut pen = Recorder { commands: Vec::new() };
        let settings = DrawSettings::unhinted(Size::unscaled(), LocationRef::default());
        let _ = glyph.draw(settings, &mut pen);
        pen.commands
    });
    GlyphDrawing { glyph_id, advance_width, commands }
}

#[test]
fn metadata_tells_names_version_glyphs_and_tables() {
    let font = font_of(&[triangle(), vec![], triangle()]);
    let m = parse_font("test.ttf", "/fonts/test.ttf", &font).unwrap();
    assert_eq!(m.file_name, "test.ttf");
    assert_eq!(m.file_path, "/fonts/test.ttf");
    assert_eq!(m.family_name, "Old");
    assert_eq!(m.style_name, "Regular");
    assert_eq!(m.version, "2.32768");
    assert_eq!(m.num_glyphs, 3);
    let mut tables = m.available_tables.clone();
    tables.sort();
    assert_eq!(
        tables,
        vec!["OS/2", "glyf", "head", "hhea", "hmtx", "loca", "maxp", "name", "post"]
    );
    // the order is that of the directory
    let f = FontRef::new(&font).unwrap();
    let directory: Vec<String> = f
        .table_directory()
        .table_records()
        .iter()
        .map(|r| format!("{}", r.tag()))
        .collect();
    assert_eq!(m.available_tables, directory);
}

#[test]
fn metadata_fills_in_what_the_font_does_not_say() {
    let mut builder = FontBuilder::new();
    builder.add_raw(tag(b"glyf"), vec![1u8, 2, 3]);
    let font = builder.build();
    let m = parse_font("a", "b", &font).unwrap();
    assert_eq!(m.family_name, "Unknown");
    assert_eq!(m.style_name, "Regular");
    assert_eq!(m.version, "Unknown");
    assert_eq!(m.num_glyphs, 0);
    assert_eq!(m.available_tables, vec!["glyf"]);
    assert_eq!(parse_font("a", "b", &[1, 2, 3]), Err(FontError::MalformedFont));
    assert_eq!(parse_font("a", "b", &[]), Err(FontError::MalformedFont));
}

#[test]
fn metadata_shows_a_negative_revision_with_its_sign() {
    let mut head = head_table(1000, false);
    head[4..8].copy_from_slice(&[0xFF, 0xFE, 0x00, 0x07]);
    let mut builder = FontBuilder::new();
    builder.add_raw(tag(b"head"), head);
    let font = builder.build();
    assert_eq!(parse_font("a", "b", &font).unwrap().version, "-2.7");
}

#[test]
fn hinting_is_told_by_the_tables() {
    let plain = font_of(&[triangle()]);
    let info = check_font_hinting(&plain).unwrap();
    assert!(!info.is_hinted);
    assert_eq!(info.hint_format, None);

    let hinted = font_with(&[triangle()], false, default_names(), &[(b"prep", vec![0xB0, 1])]);
    let info = check_font_hinting(&hinted).unwrap();
    assert!(info.is_hinted);
    assert_eq!(info.hint_format.as_deref(), Some("truetype"));

    // an empty program is no hinting
    let empty = font_with(&[triangle()], false, default_names(), &[(b"fpgm", vec![])]);
    assert!(!check_font_hinting(&empty).unwrap().is_hinted);

    let cff = font_with(&[triangle()], false, default_names(), &[(b"CFF ", vec![])]);
    let info = check_font_hinting(&cff).unwrap();
    assert!(info.is_hinted);
    assert_eq!(info.hint_format.as_deref(), Some("cff"));

    let both = font_with(
        &[triangle()],
        false,
        default_names(),
        &[(b"CFF ", vec![1]), (b"cvt ", vec![0, 1])],
    );
    assert_eq!(check_font_hinting(&both).unwrap().hint_format.as_deref(), Some("truetype"));

    let info = check_font_hinting(&[]).unwrap();
    assert!(!info.is_hinted);
    assert_eq!(check_font_hinting(&[0; 40]), Err(FontError::MalformedFont));
}

#[test]
fn tables_are_shown_by_their_fields() {
    let font = font_of(&[triangle(), vec![], triangle()]);
    match get_table_content(&font, "head").unwrap() {
        TableView::Head(h) => {
            assert_eq!((h.version_major, h.version_minor), (1, 0));
            assert_eq!(h.font_revision, 0x0002_8000);
            assert_eq!(h.magic_number, 0x5F0F_3CF5);
            assert_eq!(h.flags, 0x000B);
            assert_eq!(h.units_per_em, 1000);
            assert_eq!(h.created, 1234);
            assert_eq!(h.modified, 5678);
            assert_eq!((h.x_min, h.y_min, h.x_max, h.y_max), (-10, -20, 30, 40));
            assert_eq!(h.lowest_rec_ppem, 8);
            assert_eq!(h.font_direction_hint, 2);
            assert_eq!(h.index_to_loc_format, 0);
            assert_eq!(h.glyph_data_format, 0);
            // as skrifa reads them
            let f = FontRef::new(&font).unwrap();
            let head = f.head().unwrap();
            assert_eq!(h.checksum_adjustment, head.checksum_adjustment());
            assert_eq!(h.flags, head.flags().bits());
            assert_eq!(h.mac_style, head.mac_style().bits());
            assert_eq!(h.font_revision, head.font_revision().to_bits());
            assert_eq!(h.created, head.created().as_secs());
        }
        other => panic!("head shown as {:?}", other),
    }
    match get_table_content(&font, "hhea").unwrap() {
        TableView::Hhea(h) => {
            assert_eq!(h.ascender, 800);
            assert_eq!(h.descender, -200);
            assert_eq!(h.line_gap, 90);
            assert_eq!(h.advance_width_max, 600);
            assert_eq!(h.caret_slope_rise, 1);
            assert_eq!(h.number_of_hmetrics, 3);
        }
        other => panic!("hhea shown as {:?}", other),
    }
    match get_table_content(&font, "maxp").unwrap() {
        TableView::Maxp(m) => {
            assert_eq!(m.version, 0x0001_0000);
            assert_eq!(m.num_glyphs, 3);
        }
        other => panic!("maxp shown as {:?}", other),
    }
    match get_table_content(&font, "post").unwrap() {
        TableView::Post(p) => {
            assert_eq!(p.version, 0x0003_0000);
            assert_eq!(p.italic_angle, 0);
            assert_eq!(p.underline_position, -75);
            assert_eq!(p.underline_thickness, 50);
            assert_eq!(p.is_fixed_pitch, 0);
        }
        other => panic!("post shown as {:?}", other),
    }
    match get_table_content(&font, "OS/2").unwrap() {
        TableView::Os2(o) => {
            assert_eq!(o.version, 0);
            assert_eq!(o.x_avg_char_width, 432);
            assert_eq!(o.us_weight_class, 400);
            assert_eq!(o.us_width_class, 5);
            assert_eq!(o.sx_height, None);
            assert_eq!(o.s_cap_height, None);
            let f = FontRef::new(&font).unwrap();
            assert_eq!(f.os2().unwrap().sx_height(), None);
        }
        other => panic!("OS/2 shown as {:?}", other),
    }
    match get_table_content(&font, "name").unwrap() {
        TableView::Name(records) => {
            assert_eq!(records.len(), 2);
            assert_eq!(records[0].name_id, 1);
            assert_eq!(records[0].platform_id, 3);
            assert_eq!(records[0].text.as_deref(), Some("Old"));
            assert_eq!(records[1].text.as_deref(), Some("Regular"));
        }
        other => panic!("name shown as {:?}", other),
    }
    match get_table_content(&font, "loca").unwrap() {
        TableView::Loca(l) => {
            assert!(!l.is_long);
            assert_eq!(l.num_glyphs, 3);
            let shown: Vec<(u32, u32, u32)> =
                l.entries.iter().map(|e| (e.glyph_id, e.offset, e.length)).collect();
            assert_eq!(shown, vec![(0, 0, 32), (1, 32, 0), (2, 32, 32), (3, 64, 0)]);
        }
        other => panic!("loca shown as {:?}", other),
    }
    assert_eq!(
        get_table_content(&font, "glyf").unwrap(),
        TableView::Raw { tag: 0x676C7966, size_bytes: 64 }
    );
    assert_eq!(
        get_table_content(&font, "GSUB"),
        Err(FontError::TableMissing { tag: 0x47535542 })
    );
    assert_eq!(get_table_content(&font, "os2"), Err(FontError::InvalidTableName));
    assert_eq!(get_table_content(&[1, 2], "head"), Err(FontError::MalformedFont));
}

#[test]
fn version_two_of_os2_shows_its_heights() {
    let mut os2 = os2_table();
    os2[0..2].copy_from_slice(&2u16.to_be_bytes());
    os2.extend_from_slice(&[0; 8]);
    os2.extend_from_slice(&480i16.to_be_bytes());
    // the table ends in the middle of sCapHeight
    os2.push(2);
    let font = font_with(&[triangle()], false, default_names(), &[(b"OS/2", os2)]);
    match get_table_content(&font, "OS/2").unwrap() {
        TableView::Os2(o) => {
            assert_eq!(o.version, 2);
            assert_eq!(o.sx_height, Some(480));
            assert_eq!(o.s_cap_height, None);
            let f = FontRef::new(&font).unwrap();
            let read = f.os2().unwrap();
            assert_eq!(read.sx_height(), Some(480));
            assert_eq!(read.s_cap_height(), None);
        }
        other => panic!("OS/2 shown as {:?}", other),
    }
}

#[test]
fn a_short_table_is_malformed() {
    let mut builder = FontBuilder::new();
    builder.add_raw(tag(b"head"), vec![0u8; 53]);
    builder.add_raw(tag(b"maxp"), vec![0u8; 5]);
    let font = builder.build();
    assert_eq!(
        get_table_content(&font, "head"),
        Err(FontError::MalformedTable { tag: 0x68656164 })
    );
    assert_eq!(
        get_table_content(&font, "maxp"),
        Err(FontError::MalformedTable { tag: 0x6D617870 })
    );
    assert!(FontRef::new(&font).unwrap().head().is_err());
    assert!(FontRef::new(&font).unwrap().maxp().is_err());
}

#[test]
fn first_page_starts_with_glyph_count_and_units_per_em() {
    let font = font_of(&[triangle(), vec![], triangle()]);
    let outlines = vec![GlyphOutline {
        glyph_id: 0,
        glyph_name: None,
        svg_path: "M0 0 Z".to_string(),
        advance_width: 500.0f32.to_bits(),
        bounds: None,
    }];
    let set = outline_set(&font, outlines).unwrap();
    assert_eq!(set.units_per_em, 1000);
    assert_eq!(set.num_glyphs, 3);
    let bytes = get_glyph_outlines_binary(&set, 0, 1);
    assert_eq!(&bytes[0..4], &3u32.to_le_bytes());
    assert_eq!(&bytes[4..8], &1u32.to_le_bytes());
    assert_eq!(&bytes[8..10], &1000u16.to_le_bytes());
    assert_eq!(outline_set(&[9; 20], Vec::new()).err(), Some(FontError::MalformedFont));
}

#[test]
fn saving_a_new_glyph_grows_the_font() {
    let mut glyphs = vec![Vec::new(); 100];
    glyphs[5] = triangle();
    let font = font_of(&glyphs);
    let old_hmtx = table(&font, b"hmtx").unwrap();
    let path = "M0 0 L100 0 L100 -200 Z";
    let saved = save_glyph_outline(&font, &args(100, path, "glyf"), &numbers_of(path)).unwrap();
    assert!(saved.is_new_glyph);
    assert_eq!(saved.num_glyphs, 101);

    let f = FontRef::new(&saved.font).unwrap();
    assert_eq!(f.maxp().unwrap().num_glyphs(), 101);
    match get_table_content(&saved.font, "loca").unwrap() {
        TableView::Loca(l) => {
            assert_eq!(l.entries.len(), 102);
            for pair in l.entries.windows(2) {
                assert!(pair[0].offset <= pair[1].offset);
            }
            for e in &l.entries {
                assert_eq!(e.offset % 4, 0);
            }
            assert_eq!(l.entries[5].length, 32);
            assert_eq!(l.entries[100].length, 32);
        }
        other => panic!("loca shown as {:?}", other),
    }
    let new_hmtx = table(&saved.font, b"hmtx").unwrap();
    assert_eq!(new_hmtx.len(), old_hmtx.len() + 2);
    assert_eq!(&new_hmtx[..old_hmtx.len()], &old_hmtx[..]);

    let drawn = drawing(&saved.font, 100);
    assert_eq!(
        drawn.commands.unwrap(),
        vec![
            OutlineCommand::M { point: pt(0.0, 0.0) },
            OutlineCommand::L { point: pt(100.0, 0.0) },
            OutlineCommand::L { point: pt(100.0, 200.0) },
            OutlineCommand::Z,
        ]
    );
    // the old glyph is as it was
    assert_eq!(drawing(&saved.font, 5).commands, drawing(&font, 5).commands);
    // every other table is carried over, and OS/2 but for the mean width
    for name in [b"hhea", b"name", b"post"] {
        assert_eq!(table(&saved.font, name), table(&font, name));
    }
    let (new_os2, old_os2) = (table(&saved.font, b"OS/2").unwrap(), table(&font, b"OS/2").unwrap());
    assert_eq!(new_os2[4..], old_os2[4..]);
    assert_eq!(new_os2[..2], old_os2[..2]);
}

#[test]
fn saving_far_beyond_the_glyphs_fills_in_empty_ones() {
    let font = font_of(&[triangle(), triangle()]);
    let path = "M1 1 L2 2 L3 1";
    let saved = save_glyph_outline(&font, &args(7, path, " glyf\n"), &numbers_of(path)).unwrap();
    assert_eq!(saved.num_glyphs, 8);
    let f = FontRef::new(&saved.font).unwrap();
    assert_eq!(f.maxp().unwrap().num_glyphs(), 8);
    assert_eq!(table(&saved.font, b"hmtx").unwrap().len(), table(&font, b"hmtx").unwrap().len() + 12);
    for g in 2..7 {
        assert_eq!(drawing(&saved.font, g).commands, Some(Vec::new()));
    }
    assert_eq!(drawing(&saved.font, 7).commands.unwrap().len(), 4);
}

#[test]
fn saving_an_old_glyph_replaces_it() {
    let font = font_of(&[triangle(), triangle(), triangle()]);
    let path = "M0 0 Q50 -100 100 0 Z";
    let saved = save_glyph_outline(&font, &args(1, path, "glyf"), &numbers_of(path)).unwrap();
    assert!(!saved.is_new_glyph);
    assert_eq!(saved.num_glyphs, 3);
    assert_eq!(table(&saved.font, b"maxp"), table(&font, b"maxp"));
    assert_eq!(table(&saved.font, b"hmtx"), table(&font, b"hmtx"));
    assert_eq!(
        drawing(&saved.font, 1).commands.unwrap(),
        vec![
            OutlineCommand::M { point: pt(0.0, 0.0) },
            OutlineCommand::Q { ctrl: pt(50.0, 100.0), point: pt(100.0, 0.0) },
            OutlineCommand::Z,
        ]
    );
    assert_eq!(drawing(&saved.font, 0).commands, drawing(&font, 0).commands);
    assert_eq!(drawing(&saved.font, 2).commands, drawing(&font, 2).commands);
}

#[test]
fn saved_points_and_flags_match_the_commands() {
    let font = font_of(&[triangle()]);
    // two contours; halves round away from zero. The smallest x is 0, as the
    // left side bearing of the glyph is: skrifa draws a glyph shifted by the
    // difference of the two.
    let path = "M0.4 -0.5 L10 -20 Q30 -40.5 50 -60 Z M5 5 L6 6 L7 5 Z";
    let saved = save_glyph_outline(&font, &args(0, path, "glyf"), &numbers_of(path)).unwrap();
    assert_eq!(
        drawing(&saved.font, 0).commands.unwrap(),
        vec![
            OutlineCommand::M { point: pt(0.0, 1.0) },
            OutlineCommand::L { point: pt(10.0, 20.0) },
            OutlineCommand::Q { ctrl: pt(30.0, 41.0), point: pt(50.0, 60.0) },
            OutlineCommand::Z,
            OutlineCommand::M { point: pt(5.0, -5.0) },
            OutlineCommand::L { point: pt(6.0, -6.0) },
            OutlineCommand::L { point: pt(7.0, -5.0) },
            OutlineCommand::Z,
        ]
    );
}

#[test]
fn saving_refuses_what_it_cannot_save() {
    let font = font_of(&vec![triangle(); 6]);
    let cubic = "M0 0 C25 -100 75 -100 100 0 Z";
    assert_eq!(
        save_glyph_outline(&font, &args(5, cubic, "glyf"), &numbers_of(cubic)),
        Err(FontError::CubicInGlyfTable)
    );
    let path = "M0 0 L1 1";
    assert_eq!(
        save_glyph_outline(&font, &args(5, path, "CFF "), &numbers_of(path)),
        Err(FontError::UnsupportedOutlineTable { table: "CFF".to_string() })
    );
    assert_eq!(
        save_glyph_outline(&font, &args(5, path, ""), &numbers_of(path)),
        Err(FontError::UnsupportedOutlineTable { table: String::new() })
    );
    assert_eq!(
        save_glyph_outline(&[1, 2, 3], &args(5, path, "glyf"), &numbers_of(path)),
        Err(FontError::MalformedFont)
    );
    assert_eq!(
        save_glyph_outline(&font, &args(5, "M0", "glyf"), &numbers_of("M0")),
        Err(FontError::BadPath { fault: PathFault::UnexpectedEnd })
    );
    assert_eq!(
        save_glyph_outline(&font, &args(65535, path, "glyf"), &numbers_of(path)),
        Err(FontError::GlyphIdOverflow { glyph_id: 65535 })
    );
    assert_eq!(
        save_glyph_outline(&font, &args(u32::MAX, path, "glyf"), &numbers_of(path)),
        Err(FontError::GlyphIdOverflow { glyph_id: u32::MAX })
    );
    assert!(save_glyph_outline(&font, &args(65534, path, "glyf"), &numbers_of(path)).is_ok());
}

#[test]
fn saving_reads_the_tokens_of_the_path_itself() {
    let font = font_of(&vec![triangle(); 2]);
    let path = "M0 0 L8 0 L8 -8 Z";
    let numbers = numbers_of(path);
    assert_eq!(numbers.len(), 10);
    assert_eq!(
        save_glyph_outline(&font, &args(1, path, "glyf"), &numbers[..5]),
        Err(FontError::BadPath { fault: PathFault::BadNumber { token: 5 } })
    );
    assert_eq!(
        save_glyph_outline(&font, &args(1, path, "glyf"), &[]),
        Err(FontError::BadPath { fault: PathFault::BadNumber { token: 1 } })
    );
    let mut longer = numbers.clone();
    longer.push(Some(7.0f32.to_bits()));
    assert_eq!(
        save_glyph_outline(&font, &args(1, path, "glyf"), &longer),
        save_glyph_outline(&font, &args(1, path, "glyf"), &numbers)
    );
    assert!(save_glyph_outline(&font, &args(1, path, "glyf"), &numbers).is_ok());
}

#[test]
fn saving_needs_the_tables_of_the_outlines() {
    let path = "M0 0 L1 1";
    let mut builder = FontBuilder::new();
    builder.add_raw(tag(b"head"), head_table(1000, false));
    let font = builder.build();
    assert_eq!(
        save_glyph_outline(&font, &args(0, path, "glyf"), &numbers_of(path)),
        Err(FontError::TableMissing { tag: 0x6D617870 })
    );
    builder = FontBuilder::new();
    builder.add_raw(tag(b"head"), head_table(1000, false));
    builder.add_raw(tag(b"maxp"), maxp_table(1));
    builder.add_raw(tag(b"loca"), vec![0, 0, 0, 0]);
    builder.add_raw(tag(b"glyf"), vec![]);
    let font = builder.build();
    assert_eq!(
        save_glyph_outline(&font, &args(0, path, "glyf"), &numbers_of(path)),
        Err(FontError::TableMissing { tag: 0x68686561 })
    );
    builder.add_raw(tag(b"head"), head_table(1000, false));
    builder.add_raw(tag(b"maxp"), maxp_table(1));
    builder.add_raw(tag(b"loca"), vec![0, 0, 0, 0]);
    builder.add_raw(tag(b"glyf"), vec![]);
    builder.add_raw(tag(b"hhea"), hhea_table(1));
    let font = builder.build();
    // an old glyph can be saved without hmtx, a new one cannot
    let saved = save_glyph_outline(&font, &args(0, path, "glyf"), &numbers_of(path)).unwrap();
    assert_eq!(table(&saved.font, b"hmtx"), Some(Vec::new()));
    assert_eq!(
        save_glyph_outline(&font, &args(1, path, "glyf"), &numbers_of(path)),
        Err(FontError::TableMissing { tag: 0x686D7478 })
    );
}

#[test]
fn short_loca_overflow_stops_the_save() {
    // one glyph of 0x1FFF8 bytes: the new glyph would start beyond 0x1FFFE
    let mut glyphs = vec![vec![0u8; 0x1_FFF8], triangle()];
    glyphs[0][1] = 0;
    let font = font_of(&glyphs);
    let path = "M0 0 L1 1 L2 0";
    assert_eq!(
        save_glyph_outline(&font, &args(2, path, "glyf"), &numbers_of(path)),
        Err(FontError::LocaOverflow)
    );
    let long = font_with(&glyphs, true, default_names(), &[]);
    assert!(save_glyph_outline(&long, &args(2, path, "glyf"), &numbers_of(path)).is_ok());
}

#[test]
fn average_width_follows_the_new_glyphs() {
    let font = font_of(&[triangle(), triangle()]);
    let updated = update_x_avg_char_width(&font, &[Some(500), Some(501), None, Some(700)]).unwrap();
    let f = FontRef::new(&updated).unwrap();
    assert_eq!(f.os2().unwrap().x_avg_char_width(), 567);
    assert_eq!(f.os2().unwrap().us_weight_class(), 400);
    for name in [b"head", b"hhea", b"name", b"glyf", b"loca", b"hmtx", b"maxp"] {
        if name != b"head" {
            assert_eq!(table(&updated, name), table(&font, name));
        }
    }
    // a font without OS/2 stays as it is
    let mut builder = FontBuilder::new();
    builder.add_raw(tag(b"maxp"), maxp_table(1));
    let bare = builder.build();
    assert_eq!(update_x_avg_char_width(&bare, &[Some(1)]).unwrap(), bare);
    assert_eq!(update_x_avg_char_width(&[], &[]), Err(FontError::MalformedFont));
}

#[test]
fn composite_offsets_are_moved() {
    let mut glyphs = vec![triangle(); 66];
    glyphs[65] = composite(&[(10, 12, -7)]);
    let font = font_of(&glyphs);
    let tables = read_outline_tables(&font).unwrap();
    let (is_composite, components) = get_composite_info(&tables, 65).unwrap();
    assert!(is_composite);
    assert_eq!(components.len(), 1);
    assert_eq!(components[0].glyph_id, 10);
    assert_eq!(f32::from_bits(components[0].x_offset), 12.0);
    assert_eq!(f32::from_bits(components[0].y_offset), -7.0);

    let update = CompositeOffsetUpdate {
        x_offset: 200.0f32.to_bits(),
        y_offset: (-300.0f32).to_bits(),
    };
    let updated = update_composite_offsets(&font, 65, vec![update]).unwrap();
    let tables = read_outline_tables(&updated).unwrap();
    let (is_composite, components) = get_composite_info(&tables, 65).unwrap();
    assert!(is_composite);
    assert_eq!(components.len(), 1);
    assert_eq!(components[0].glyph_id, 10);
    assert_eq!(f32::from_bits(components[0].x_offset), 200.0);
    assert_eq!(f32::from_bits(components[0].y_offset), -300.0);

    // the flags of the first component: words and an offset
    let glyf = table(&updated, b"glyf").unwrap();
    let loca = table(&updated, b"loca").unwrap();
    let start = 2 * u16::from_be_bytes([loca[130], loca[131]]) as usize;
    let flags = u16::from_be_bytes([glyf[start + 10], glyf[start + 11]]);
    assert_eq!(flags & 0x0001, 0x0001);
    assert_eq!(flags & 0x0002, 0x0002);
    // skrifa sees the new place
    let f = FontRef::new(&updated).unwrap();
    let moved = drawing(&updated, 65).commands.unwrap();
    assert_eq!(moved[0], OutlineCommand::M { point: pt(200.0, -300.0) });
    assert_eq!(f.maxp().unwrap().num_glyphs(), 66);
    for g in [0u32, 10, 64] {
        assert_eq!(drawing(&updated, g).commands, drawing(&font, g).commands);
    }
}

#[test]
fn composite_update_fails_where_there_is_no_such_glyph() {
    let glyphs = vec![triangle(), Vec::new(), composite(&[(0, 1, 1)])];
    let font = font_of(&glyphs);
    assert_eq!(
        update_composite_offsets(&font, 3, vec![]),
        Err(FontError::GlyphNotFound { glyph_id: 3 })
    );
    assert_eq!(
        update_composite_offsets(&font, 1, vec![]),
        Err(FontError::GlyphNotFound { glyph_id: 1 })
    );
    assert_eq!(update_composite_offsets(&[7; 30], 0, vec![]), Err(FontError::MalformedFont));
    let tables = read_outline_tables(&font).unwrap();
    assert!(plan_composite_update(&tables, 2, &[]).is_ok());
    assert!(plan_glyph_save(&tables, 1, &[]).is_ok());
}

#[test]
fn components_are_resolved_five_levels_deep() {
    // glyph 1 is made of glyph 2, glyph 2 of glyph 3, up to glyph 6 of glyph 7
    let mut glyphs = vec![triangle()];
    for g in 1u16..=6 {
        glyphs.push(composite(&[(g + 1, 1, 2)]));
    }
    glyphs.push(triangle());
    let font = font_of(&glyphs);
    let tables = read_outline_tables(&font).unwrap();
    let mut asked = glyphs_to_draw(&tables, 1);
    asked.sort();
    asked.dedup();
    assert_eq!(asked, vec![1, 2, 3, 4, 5, 6]);
    let drawings: Vec<GlyphDrawing> = (0..8).map(|g| drawing(&font, g)).collect();
    let view = get_glyph_outline_data(&tables, &drawings, 1).unwrap();
    let mut level = &view;
    for depth in 0..5 {
        assert!(level.is_composite, "depth {}", depth);
        assert!(level.contours.is_empty());
        assert_eq!(level.bounds, None);
        assert_eq!(level.glyph_id, depth + 1);
        assert_eq!(level.component_glyph_ids, vec![depth + 2]);
        assert_eq!(level.components.len(), 1);
        assert_eq!(f32::from_bits(level.components[0].x_offset), 1.0);
        assert_eq!(f32::from_bits(level.components[0].y_offset), 2.0);
        level = level.components[0].outline.as_ref().unwrap();
    }
    // nesting level 5 is glyph 6, and its component is left unresolved
    assert_eq!(level.glyph_id, 6);
    assert!(level.is_composite);
    assert_eq!(level.components[0].glyph_id, 7);
    assert!(level.components[0].outline.is_none());
    assert_eq!(
        build_glyph_outline_data_recursive(&tables, &drawings, 7, 6).err(),
        Some(FontError::GlyphNotFound { glyph_id: 7 })
    );
    assert!(build_glyph_outline_data_recursive(&tables, &drawings, 7, 5).is_ok());
}

#[test]
fn a_simple_glyph_has_contours_metrics_and_bounds() {
    let two = {
        let mut g = vec![0u8, 2, 0, 0, 0, 0, 0, 50, 0, 60, 0, 2, 0, 4, 0, 0];
        g.extend_from_slice(&[1, 1, 1, 1, 1]);
        for d in [0i16, 50, 0, -40, 5] {
            g.extend_from_slice(&d.to_be_bytes());
        }
        for d in [0i16, 0, 60, -50, 5] {
            g.extend_from_slice(&d.to_be_bytes());
        }
        g
    };
    let glyphs = [triangle(), two, triangle(), triangle(), triangle()];
    // bearings: 0 for glyph 1, whose smallest x is 0, and -4 for glyph 4
    let hmtx = hmtx_with(5, 3, |g| if g == 4 { -4 } else { 0 });
    let font = font_with(&glyphs, false, default_names(), &[(b"hmtx", hmtx)]);
    let tables = read_outline_tables(&font).unwrap();
    let drawings = vec![drawing(&font, 1), drawing(&font, 4)];
    let view = get_glyph_outline_data(&tables, &drawings, 1).unwrap();
    assert_eq!(view.glyph_id, 1);
    assert!(!view.is_composite);
    assert!(view.components.is_empty());
    assert!(view.component_glyph_ids.is_empty());
    assert_eq!(f32::from_bits(view.advance_width), 501.0);
    assert_eq!(f32::from_bits(view.lsb), 0.0);
    assert_eq!(view.contours.len(), 2);
    assert_eq!(
        view.contours[0].commands,
        vec![
            OutlineCommand::M { point: pt(0.0, 0.0) },
            OutlineCommand::L { point: pt(50.0, 0.0) },
            OutlineCommand::L { point: pt(50.0, 60.0) },
            OutlineCommand::Z,
        ]
    );
    assert_eq!(view.contours[1].commands[0], OutlineCommand::M { point: pt(10.0, 10.0) });
    let b = view.bounds.unwrap();
    assert_eq!(
        (f32::from_bits(b.x_min), f32::from_bits(b.y_min), f32::from_bits(b.x_max), f32::from_bits(b.y_max)),
        (0.0, 0.0, 50.0, 60.0)
    );
    // glyph 4 lies behind the long metrics
    let view = get_glyph_outline_data(&tables, &drawings, 4).unwrap();
    assert_eq!(f32::from_bits(view.lsb), -4.0);
    assert_eq!(f32::from_bits(view.advance_width), 502.0);
    // a glyph that was not drawn has no view
    assert_eq!(
        get_glyph_outline_data(&tables, &drawings, 2).err(),
        Some(FontError::GlyphNotFound { glyph_id: 2 })
    );
    let missing = vec![GlyphDrawing { glyph_id: 9, advance_width: None, commands: None }];
    assert!(get_glyph_outline_data(&tables, &missing, 9).is_err());
}

#[test]
fn a_name_edit_keeps_the_other_records() {
    let font = font_of(&[triangle()]);
    let update = NameTableUpdate { name_id: 1, platform_id: 3, value: "New".to_string() };
    let updated = update_name_table(&font, &update).unwrap();
    match get_table_content(&updated, "name").unwrap() {
        TableView::Name(records) => {
            assert_eq!(records.len(), 2);
            assert_eq!(
                (records[0].platform_id, records[0].encoding_id, records[0].language_id, records[0].name_id),
                (3, 1, 0x409, 1)
            );
            assert_eq!(records[0].text.as_deref(), Some("New"));
            assert_eq!(
                (records[1].platform_id, records[1].encoding_id, records[1].language_id, records[1].name_id),
                (3, 1, 0x409, 2)
            );
            assert_eq!(records[1].text.as_deref(), Some("Regular"));
        }
        other => panic!("name shown as {:?}", other),
    }
    assert_eq!(parse_font("a", "b", &updated).unwrap().family_name, "New");
    for name in [b"hhea", b"glyf", b"loca", b"hmtx", b"maxp", b"OS/2", b"post"] {
        assert_eq!(table(&updated, name), table(&font, name));
    }
}

#[test]
fn a_name_edit_sets_every_record_that_it_names() {
    let names = name_table(vec![
        name_record(1, 0, 0, 1, "Mac \u{a9}"),
        name_record(3, 1, 0x407, 1, "Alt"),
        name_record(3, 1, 0x409, 1, "Old"),
        name_record(3, 1, 0x409, 2, "Regular"),
    ]);
    let font = font_with(&[triangle()], false, names, &[]);
    let update = NameTableUpdate { name_id: 1, platform_id: 3, value: "N\u{1F600}".to_string() };
    let updated = update_name_table(&font, &update).unwrap();
    match get_table_content(&updated, "name").unwrap() {
        TableView::Name(records) => {
            let texts: Vec<&str> = records.iter().map(|r| r.text.as_deref().unwrap()).collect();
            assert_eq!(texts, vec!["Mac \u{a9}", "N\u{1F600}", "N\u{1F600}", "Regular"]);
        }
        other => panic!("name shown as {:?}", other),
    }
    // a Mac record takes what Mac OS Roman has, and nothing else
    let update = NameTableUpdate { name_id: 1, platform_id: 1, value: "caf\u{e9}".to_string() };
    let updated = update_name_table(&font, &update).unwrap();
    assert_eq!(parse_font("a", "b", &updated).unwrap().family_name, "caf\u{e9}");
    let update = NameTableUpdate { name_id: 1, platform_id: 1, value: "\u{1F600}".to_string() };
    assert_eq!(
        update_name_table(&font, &update),
        Err(FontError::MalformedTable { tag: 0x6E616D65 })
    );
}

#[test]
fn a_name_edit_fails_where_no_record_matches() {
    let font = font_of(&[triangle()]);
    let update = NameTableUpdate { name_id: 4, platform_id: 3, value: "x".to_string() };
    assert_eq!(
        update_name_table(&font, &update),
        Err(FontError::NoMatchingNameRecord { name_id: 4, platform_id: 3 })
    );
    let update = NameTableUpdate { name_id: 1, platform_id: 1, value: "x".to_string() };
    assert_eq!(
        update_name_table(&font, &update),
        Err(FontError::NoMatchingNameRecord { name_id: 1, platform_id: 1 })
    );
    let mut builder = FontBuilder::new();
    builder.add_raw(tag(b"head"), head_table(1000, false));
    let bare = builder.build();
    assert_eq!(
        update_name_table(&bare, &update),
        Err(FontError::TableMissing { tag: 0x6E616D65 })
    );
    // a value that is too long for the 16 bits of its length
    let long = NameTableUpdate { name_id: 1, platform_id: 3, value: "x".repeat(40000) };
    assert_eq!(
        update_name_table(&font, &long),
        Err(FontError::MalformedTable { tag: 0x6E616D65 })
    );
    let fits = NameTableUpdate { name_id: 1, platform_id: 3, value: "x".repeat(20000) };
    assert!(update_name_table(&font, &fits).is_ok());
}

#[test]
fn header_tables_are_edited_field_by_field() {
    let font = font_of(&[triangle(), triangle()]);
    let head = HeadTableUpdate {
        font_revision: 0x0003_4000,
        flags: 0xFFFF,
        units_per_em: 2048,
        created: -5,
        modified: 99,
        x_min: -1,
        y_min: -2,
        x_max: 3,
        y_max: 4,
        mac_style: 0xFFFF,
        lowest_rec_ppem: 9,
        font_direction_hint: -1,
        index_to_loc_format: 0,
    };
    let updated = update_head_table(&font, &head).unwrap();
    match get_table_content(&updated, "head").unwrap() {
        TableView::Head(h) => {
            assert_eq!(h.font_revision, 0x0003_4000);
            assert_eq!(h.flags, 0x781F);
            assert_eq!(h.units_per_em, 2048);
            assert_eq!(h.created, -5);
            assert_eq!(h.modified, 99);
            assert_eq!((h.x_min, h.y_min, h.x_max, h.y_max), (-1, -2, 3, 4));
            assert_eq!(h.mac_style, 0x7F);
            assert_eq!(h.lowest_rec_ppem, 9);
            assert_eq!(h.font_direction_hint, -1);
            assert_eq!(h.index_to_loc_format, 0);
            assert_eq!(h.magic_number, 0x5F0F_3CF5);
        }
        other => panic!("head shown as {:?}", other),
    }
    assert_eq!(table(&updated, b"glyf"), table(&font, b"glyf"));

    let hhea = HheaTableUpdate {
        ascender: 900,
        descender: -300,
        line_gap: 10,
        caret_slope_rise: 2,
        caret_slope_run: 1,
        caret_offset: -3,
    };
    let updated = update_hhea_table(&font, &hhea).unwrap();
    match get_table_content(&updated, "hhea").unwrap() {
        TableView::Hhea(h) => {
            assert_eq!(h.ascender, 900);
            assert_eq!(h.descender, -300);
            assert_eq!(h.line_gap, 10);
            assert_eq!(h.caret_slope_rise, 2);
            assert_eq!(h.caret_slope_run, 1);
            assert_eq!(h.caret_offset, -3);
            assert_eq!(h.advance_width_max, 600);
            assert_eq!(h.number_of_hmetrics, 2);
        }
        other => panic!("hhea shown as {:?}", other),
    }

    let updated = update_maxp_table(&font, &MaxpTableUpdate { num_glyphs: 77 }).unwrap();
    assert_eq!(parse_font("a", "b", &updated).unwrap().num_glyphs, 77);
    assert_eq!(table(&updated, b"maxp").unwrap().len(), 32);

    assert_eq!(update_head_table(&[1], &head), Err(FontError::MalformedFont));
    let mut builder = FontBuilder::new();
    builder.add_raw(tag(b"head"), vec![0u8; 20]);
    let bad = builder.build();
    assert_eq!(
        update_head_table(&bad, &head),
        Err(FontError::MalformedTable { tag: 0x68656164 })
    );
    assert_eq!(
        update_hhea_table(&bad, &hhea),
        Err(FontError::TableMissing { tag: 0x68686561 })
    );
}

#[test]
fn a_font_is_put_together_from_new_and_old_tables() {
    let font = font_of(&[triangle()]);
    let given = vec![
        RawTable { tag: 0x54455354, data: vec![1, 2, 3] },
        RawTable { tag: 0x706F7374, data: vec![9; 5] },
    ];
    let composed = compose_font(&font, &given).unwrap();
    assert_eq!(table(&composed, b"TEST"), Some(vec![1, 2, 3]));
    assert_eq!(table(&composed, b"post"), Some(vec![9; 5]));
    assert_eq!(table(&composed, b"glyf"), table(&font, b"glyf"));
    assert_eq!(table(&composed, b"name"), table(&font, b"name"));
    assert_eq!(compose_font(&[0; 12], &given), Err(FontError::MalformedFont));
}

#[test]
fn a_table_that_leaves_the_file_makes_the_font_malformed() {
    let whole = font_of(&[triangle()]);
    let cut = &whole[..whole.len() - 4];
    assert!(FontRef::new(cut).is_ok());
    assert!(check_font(&whole));
    assert!(!check_font(cut));
    assert!(parse_font("a.ttf", "/a.ttf", &whole).is_ok());
    assert_eq!(parse_font("a.ttf", "/a.ttf", cut).err(), Some(FontError::MalformedFont));
    assert_eq!(check_font_hinting(cut).err(), Some(FontError::MalformedFont));
    assert_eq!(get_table_content(cut, "head").err(), Some(FontError::MalformedFont));
    assert_eq!(read_outline_tables(cut).err(), Some(FontError::MalformedFont));
    assert_eq!(outline_set(cut, Vec::new()).err(), Some(FontError::MalformedFont));
    assert_eq!(compose_font(cut, &Vec::new()), Err(FontError::MalformedFont));
    assert_eq!(
        update_maxp_table(cut, &MaxpTableUpdate { num_glyphs: 3 }),
        Err(FontError::MalformedFont)
    );
}

#[test]
fn a_directory_that_is_cut_off_makes_the_font_malformed() {
    let whole = font_of(&[triangle()]);
    let cut = &whole[..20];
    assert!(FontRef::new(cut).is_ok());
    assert!(!check_font(cut));
    assert!(!check_font(&[]));
    assert_eq!(parse_font("a.ttf", "/a.ttf", cut).err(), Some(FontError::MalformedFont));
    assert_eq!(get_table_content(cut, "head").err(), Some(FontError::MalformedFont));
    assert_eq!(compose_font(cut, &Vec::new()), Err(FontError::MalformedFont));
    assert_eq!(compose_font(&whole[..11], &Vec::new()), Err(FontError::MalformedFont));
}

#[test]
fn rewritten_header_tables_are_laid_down_field_by_field() {
    let mut old_head = head_table(1000, true);
    old_head[0..4].copy_from_slice(&[0, 2, 0, 7]);
    old_head[8..12].copy_from_slice(&[1, 2, 3, 4]);
    old_head[12..16].copy_from_slice(&0x1234_5678u32.to_be_bytes());
    old_head[16..18].copy_from_slice(&0xFFFFu16.to_be_bytes());
    old_head[44..46].copy_from_slice(&0xFFFFu16.to_be_bytes());
    old_head[52..54].copy_from_slice(&5i16.to_be_bytes());
    old_head.extend_from_slice(&[9, 9]);
    let mut old_hhea = hhea_table(3);
    old_hhea[0..4].copy_from_slice(&[0, 2, 0, 7]);
    old_hhea[12..14].copy_from_slice(&(-11i16).to_be_bytes());
    old_hhea[14..16].copy_from_slice(&(-12i16).to_be_bytes());
    old_hhea[16..18].copy_from_slice(&613i16.to_be_bytes());
    for b in &mut old_hhea[24..34] {
        *b = 0xEE;
    }
    old_hhea.extend_from_slice(&[9, 9, 9]);
    let mut builder = FontBuilder::new();
    builder.add_raw(tag(b"head"), old_head.clone());
    builder.add_raw(tag(b"hhea"), old_hhea.clone());
    let font = builder.build();

    let u = HeadTableUpdate {
        font_revision: -0x0001_8000,
        flags: 0x8421,
        units_per_em: 2048,
        created: -0x1_0000_0001,
        modified: 0x0102_0304_0506_0708,
        x_min: -32768,
        y_min: -2,
        x_max: 32767,
        y_max: 4,
        mac_style: 0x0181,
        lowest_rec_ppem: 0xFFFE,
        font_direction_hint: -2,
        index_to_loc_format: 1,
    };
    let updated = update_head_table(&font, &u).unwrap();
    let new_head = table(&updated, b"head").unwrap();
    let mut expected = vec![0u8, 1, 0, 0];
    expected.extend_from_slice(&u.font_revision.to_be_bytes());
    expected.extend_from_slice(&[0; 4]);
    expected.extend_from_slice(&0x1234_5678u32.to_be_bytes());
    expected.extend_from_slice(&0x0001u16.to_be_bytes());
    expected.extend_from_slice(&u.units_per_em.to_be_bytes());
    expected.extend_from_slice(&u.created.to_be_bytes());
    expected.extend_from_slice(&u.modified.to_be_bytes());
    expected.extend_from_slice(&u.x_min.to_be_bytes());
    expected.extend_from_slice(&u.y_min.to_be_bytes());
    expected.extend_from_slice(&u.x_max.to_be_bytes());
    expected.extend_from_slice(&u.y_max.to_be_bytes());
    expected.extend_from_slice(&0x0001u16.to_be_bytes());
    expected.extend_from_slice(&u.lowest_rec_ppem.to_be_bytes());
    expected.extend_from_slice(&u.font_direction_hint.to_be_bytes());
    expected.extend_from_slice(&u.index_to_loc_format.to_be_bytes());
    expected.extend_from_slice(&[0, 0]);
    assert_eq!(new_head.len(), 54);
    assert_eq!(new_head[..8], expected[..8]);
    assert_eq!(new_head[12..], expected[12..]);
    assert_eq!(table(&updated, b"hhea"), Some(old_hhea.clone()));

    let h = HheaTableUpdate {
        ascender: -32768,
        descender: 32767,
        line_gap: -1,
        caret_slope_rise: 258,
        caret_slope_run: -258,
        caret_offset: 7,
    };
    let updated = update_hhea_table(&font, &h).unwrap();
    let mut expected = vec![0u8, 1, 0, 0];
    expected.extend_from_slice(&h.ascender.to_be_bytes());
    expected.extend_from_slice(&h.descender.to_be_bytes());
    expected.extend_from_slice(&h.line_gap.to_be_bytes());
    expected.extend_from_slice(&old_hhea[10..18]);
    expected.extend_from_slice(&h.caret_slope_rise.to_be_bytes());
    expected.extend_from_slice(&h.caret_slope_run.to_be_bytes());
    expected.extend_from_slice(&h.caret_offset.to_be_bytes());
    expected.extend_from_slice(&[0; 10]);
    expected.extend_from_slice(&old_hhea[34..36]);
    assert_eq!(table(&updated, b"hhea"), Some(expected));
    let kept = table(&updated, b"head").unwrap();
    assert_eq!(kept.len(), old_head.len());
    assert_eq!(kept[..8], old_head[..8]);
    assert_eq!(kept[12..], old_head[12..]);
}

#[test]
fn the_mean_width_stands_behind_the_version_of_os2() {
    let font = font_of(&[triangle(), triangle()]);
    let updated = update_x_avg_char_width(&font, &[Some(-7), Some(-8), Some(-9)]).unwrap();
    let os2 = table(&updated, b"OS/2").unwrap();
    assert!(os2.len() >= 78);
    assert_eq!(os2[2..4], (-8i16).to_be_bytes());
    assert_eq!(os2[4..6], 400u16.to_be_bytes());
}

fn font_with_maxp(maxp: Vec<u8>) -> Vec<u8> {
    let mut builder = FontBuilder::new();
    builder.add_raw(tag(b"maxp"), maxp);
    builder.build()
}

fn rewritten_maxp(maxp: Vec<u8>, num_glyphs: u16) -> Result<Vec<u8>, FontError> {
    let font = font_with_maxp(maxp);
    update_maxp_table(&font, &MaxpTableUpdate { num_glyphs })
        .map(|file| table(&file, b"maxp").unwrap())
}

#[test]
fn maxp_is_rewritten_by_its_version() {
    let full: Vec<u8> = (0..32u8).map(|b| b.wrapping_mul(7).wrapping_add(3)).collect();
    let with_version = |version: [u8; 4], len: usize| {
        let mut t = full.clone();
        t.extend_from_slice(&[0xAA; 10]);
        t[0..4].copy_from_slice(&version);
        t.truncate(len);
        t
    };
    let mut whole = vec![0u8, 1, 0, 0, 0x12, 0x34];
    whole.extend_from_slice(&full[6..32]);
    let short = vec![0u8, 0, 0x50, 0, 0x12, 0x34];
    let refused = Err(FontError::MalformedTable { tag: 0x6D617870 });

    assert_eq!(rewritten_maxp(with_version([0, 1, 0, 0], 32), 0x1234), Ok(whole.clone()));
    assert_eq!(rewritten_maxp(with_version([0, 1, 0, 0], 42), 0x1234), Ok(whole.clone()));
    assert_eq!(rewritten_maxp(with_version([0, 1, 0x10, 0], 32), 0x1234), Ok(whole.clone()));
    assert_eq!(rewritten_maxp(with_version([0, 1, 0xFF, 0xFF], 33), 0x1234), Ok(whole.clone()));

    assert_eq!(rewritten_maxp(with_version([0, 1, 0, 0], 31), 0x1234), refused);
    assert_eq!(rewritten_maxp(with_version([0, 1, 0, 0], 20), 0x1234), refused);
    assert_eq!(rewritten_maxp(with_version([0, 1, 0, 0], 8), 0x1234), refused);

    assert_eq!(rewritten_maxp(with_version([0, 1, 0, 0], 7), 0x1234), Ok(short.clone()));
    assert_eq!(rewritten_maxp(with_version([0, 1, 0, 0], 6), 0x1234), Ok(short.clone()));
    assert_eq!(rewritten_maxp(with_version([0, 0, 0x50, 0], 6), 0x1234), Ok(short.clone()));
    assert_eq!(rewritten_maxp(with_version([0, 0, 0x50, 0], 32), 0x1234), Ok(short.clone()));
    assert_eq!(rewritten_maxp(with_version([0, 2, 0, 0], 32), 0x1234), Ok(short.clone()));
    assert_eq!(rewritten_maxp(with_version([1, 1, 0, 0], 32), 0x1234), Ok(short.clone()));
    assert_eq!(rewritten_maxp(with_version([0, 0, 0, 0], 9), 0x1234), Ok(short.clone()));

    assert_eq!(rewritten_maxp(with_version([0, 1, 0, 0], 5), 0x1234), refused);
}

#[test]
fn outlines_are_saved_to_glyf_only() {
    assert_eq!(check_outline_table("glyf"), Ok(()));
    assert_eq!(check_outline_table(" \tglyf\r\n"), Ok(()));
    assert_eq!(
        check_outline_table("  CFF2 "),
        Err(FontError::UnsupportedOutlineTable { table: "CFF2".to_string() })
    );
    assert_eq!(
        check_outline_table("Glyf"),
        Err(FontError::UnsupportedOutlineTable { table: "Glyf".to_string() })
    );
    assert_eq!(
        check_outline_table("gl yf"),
        Err(FontError::UnsupportedOutlineTable { table: "gl yf".to_string() })
    );
    assert_eq!(
        check_outline_table(""),
        Err(FontError::UnsupportedOutlineTable { table: String::new() })
    );
}

#[test]
fn a_composite_record_that_is_cut_short_is_refused() {
    // glyph 2 announces a second component that is not there; glyph 1 is made of glyph 2
    let mut cut = composite(&[(0, 1, 2)]);
    cut[11] |= 0x20;
    let glyphs = vec![triangle(), composite(&[(2, 3, 4)]), cut];
    let font = font_of(&glyphs);
    let tables = read_outline_tables(&font).unwrap();
    assert_eq!(get_composite_info(&tables, 2).err(), Some(FontError::MalformedComposite));
    assert_eq!(get_composite_info(&tables, 0).unwrap().0, false);
    assert_eq!(get_composite_info(&tables, 1).unwrap().1.len(), 1);

    let f = FontRef::new(&font).unwrap();
    let drawings: Vec<GlyphDrawing> = (0..3).map(|g| drawing(&font, g)).collect();
    assert!(f.outline_glyphs().get(GlyphId::new(2)).is_some());
    assert_eq!(
        get_glyph_outline_data(&tables, &drawings, 2).err(),
        Some(FontError::MalformedComposite)
    );
    // one level up, the component is left without an outline
    let view = get_glyph_outline_data(&tables, &drawings, 1).unwrap();
    assert!(view.is_composite);
    assert_eq!(view.components.len(), 1);
    assert_eq!(view.components[0].glyph_id, 2);
    assert!(view.components[0].outline.is_none());
    assert_eq!(glyphs_to_draw(&tables, 1), vec![1, 2]);
    assert_eq!(
        update_composite_offsets(&font, 2, Vec::new()),
        Err(FontError::MalformedComposite)
    );
}

#[test]
fn saving_a_new_glyph_brings_the_mean_width_up_to_date() {
    let font = font_of(&[triangle(), triangle()]);
    assert_eq!(FontRef::new(&font).unwrap().os2().unwrap().x_avg_char_width(), 432);
    let path = "M0 0 L8 0 L8 -8 Z";
    // the font grows to four glyphs
    let saved = save_glyph_outline(&font, &args(3, path, "glyf"), &numbers_of(path)).unwrap();
    assert!(saved.is_new_glyph);
    let f = FontRef::new(&saved.font).unwrap();
    let metrics = f.glyph_metrics(Size::unscaled(), LocationRef::default());
    let widths: Vec<i32> =
        (0..4).map(|g| metrics.advance_width(GlyphId::new(g)).unwrap() as i32).collect();
    let mean = widths.iter().sum::<i32>() / 4;
    assert_eq!(f.os2().unwrap().x_avg_char_width() as i32, mean);
    assert_ne!(mean, 432);
    assert_eq!(f.os2().unwrap().us_weight_class(), 400);
    // saved over a glyph that is there, the table stays as it is
    let saved = save_glyph_outline(&font, &args(1, path, "glyf"), &numbers_of(path)).unwrap();
    assert!(!saved.is_new_glyph);
    assert_eq!(table(&saved.font, b"OS/2"), table(&font, b"OS/2"));
    assert_eq!(table(&saved.font, b"maxp"), table(&font, b"maxp"));
    assert_eq!(table(&saved.font, b"hmtx"), table(&font, b"hmtx"));
}

fn handmade_font(version: u32, records: &[(&[u8; 4], u32, u32)], len: usize) -> Vec<u8> {
    let mut f = Vec::new();
    f.extend_from_slice(&version.to_be_bytes());
    f.extend_from_slice(&(records.len() as u16).to_be_bytes());
    f.extend_from_slice(&[0; 6]);
    for (name, offset, length) in records {
        f.extend_from_slice(*name);
        f.extend_from_slice(&[0; 4]);
        f.extend_from_slice(&offset.to_be_bytes());
        f.extend_from_slice(&length.to_be_bytes());
    }
    while f.len() < len {
        f.push(f.len() as u8);
    }
    f
}

#[test]
fn a_table_is_found_by_the_first_record_with_its_tag() {
    // not sorted, and one tag twice
    let records: [(&[u8; 4], u32, u32); 3] = [(b"BBBB", 60, 3), (b"AAAA", 64, 2), (b"BBBB", 68, 5)];
    let font = handmade_font(0x0001_0000, &records, 80);
    assert!(check_font(&font));
    assert_eq!(
        get_table_content(&font, "BBBB"),
        Ok(TableView::Raw { tag: 0x42424242, size_bytes: 3 })
    );
    assert_eq!(
        get_table_content(&font, "AAAA"),
        Ok(TableView::Raw { tag: 0x41414141, size_bytes: 2 })
    );
    assert_eq!(
        get_table_content(&font, "CCCC"),
        Err(FontError::TableMissing { tag: 0x43434343 })
    );
    let tags = parse_font("a", "b", &font).unwrap().available_tables;
    assert_eq!(tags, vec!["BBBB", "AAAA", "BBBB"]);
    let composed = compose_font(&font, &Vec::new()).unwrap();
    assert_eq!(table(&composed, b"BBBB"), Some(vec![60, 61, 62]));
    assert_eq!(table(&composed, b"AAAA"), Some(vec![64, 65]));

    // the three versions of a font, and no other
    for version in [0x0001_0000u32, 0x7472_7565, 0x4F54_544F] {
        assert!(check_font(&handmade_font(version, &[(b"AAAA", 28, 4)], 32)));
    }
    assert!(!check_font(&handmade_font(0x0002_0000, &[(b"AAAA", 28, 4)], 32)));
    assert!(!check_font(&handmade_font(0x7474_6366, &[(b"AAAA", 28, 4)], 32)));
    // a table may end with the file, and may be empty there
    assert!(check_font(&handmade_font(0x0001_0000, &[(b"AAAA", 32, 0)], 32)));
    assert!(!check_font(&handmade_font(0x0001_0000, &[(b"AAAA", 28, 5)], 32)));
    assert!(!check_font(&handmade_font(0x0001_0000, &[(b"AAAA", 33, 0)], 32)));
    // an offset of 0 points nowhere
    assert!(!check_font(&handmade_font(0x0001_0000, &[(b"AAAA", 0, 4)], 32)));
    // a font without tables
    assert!(check_font(&handmade_font(0x0001_0000, &[], 12)));
}

#[test]
fn advance_widths_are_read_glyph_by_glyph() {
    let font = font_of(&[triangle(), triangle(), triangle()]);
    let f = FontRef::new(&font).unwrap();
    let metrics = f.glyph_metrics(Size::unscaled(), LocationRef::default());
    let expected: Vec<Option<i32>> =
        (0..5).map(|g| metrics.advance_width(GlyphId::new(g)).map(|w| w as i32)).collect();
    assert_eq!(font_core::hmtx::read_advance_widths(&font, 5), expected);
    assert_eq!(expected[0], Some(500));
    assert!(expected[2].is_some());
    assert_eq!(expected[3], None);
    assert_eq!(font_core::hmtx::read_advance_widths(&font, 0), Vec::new());
    assert_eq!(font_core::hmtx::read_advance_widths(&[1, 2, 3], 2), vec![None, None]);
}
