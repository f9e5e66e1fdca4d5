use font8x8::UnicodeFonts;
use ranger::node::{NodeData, NodeType};
use ranger::text::{glyph_squares, layout_text, vector_glyph_index};
use ranger::visit::RenderOp;
use ranger::world::GlobalData;

#[test]
fn glyph_squares_follow_rows_then_bits() {
    let glyph = [0b0000_0001, 0b1000_0000, 0, 0, 0, 0, 0, 0b0000_0011];
    let squares = glyph_squares(&glyph, 10, 20, 2);
    assert_eq!(squares, vec![(10, 20), (24, 22), (10, 34), (12, 34)]);
    assert_eq!(glyph_squares(&[0u8; 8], 0, 0, 3), Vec::<(i32, i32)>::new());
}

#[test]
fn text_uses_the_basic_font() {
    let a = font8x8::BASIC_FONTS.get('A').unwrap();
    let layout = layout_text(5, 7, &vec!['A'], 2, 1);
    assert_eq!(layout.squares, glyph_squares(&a, 5, 7, 2));
    assert!(!layout.squares.is_empty());
    assert_eq!(layout.side, 1);
}

#[test]
fn text_advances_eight_cells_per_character() {
    let b = font8x8::BASIC_FONTS.get('B').unwrap();
    let layout = layout_text(0, 0, &vec![' ', 'B'], 3, 0);
    assert_eq!(layout.squares, glyph_squares(&b, 24, 0, 3));
    assert_eq!(layout.side, 3);
}

#[test]
fn characters_outside_the_basic_set_draw_nothing() {
    let layout = layout_text(0, 0, &vec!['\u{e9}', '\u{3bb}'], 2, 0);
    assert!(layout.squares.is_empty());
    let a = font8x8::BASIC_FONTS.get('A').unwrap();
    let layout = layout_text(0, 0, &vec!['\u{e9}', 'A'], 2, 0);
    assert_eq!(layout.squares, glyph_squares(&a, 16, 0, 2));
}

#[test]
fn square_side_by_scale_and_fill() {
    assert_eq!(layout_text(0, 0, &vec![], 1, 5).side, 1);
    assert_eq!(layout_text(0, 0, &vec![], 5, 2).side, 3);
    assert_eq!(layout_text(0, 0, &vec![], 4, 9).side, 4);
    assert_eq!(layout_text(0, 0, &vec![], 0, 0).side, 0);
}

#[test]
fn vector_font_slots() {
    assert_eq!(vector_glyph_index('A'), 0);
    assert_eq!(vector_glyph_index('Z'), 25);
    assert_eq!(vector_glyph_index('0'), 26);
    assert_eq!(vector_glyph_index('9'), 35);
    assert_eq!(vector_glyph_index('='), 36);
    assert_eq!(vector_glyph_index('-'), 43);
    assert_eq!(vector_glyph_index(' '), 44);
    assert_eq!(vector_glyph_index('a'), 0);
}

#[test]
fn render_plans_nest_their_saves() {
    let mut g = GlobalData::new();
    let scene = g.create_node(NodeData::group(0, String::from("s"), NodeType::Scene, 0), false);
    let mut parent = scene;
    for i in 0..6 {
        let kind = if i % 2 == 0 { NodeType::Group } else { NodeType::Node };
        parent = g.create_node(NodeData::group(0, String::from("n"), kind, parent), true);
        g.create_node(NodeData::leaf(0, String::from("l"), NodeType::Node, parent), true);
    }
    let ops = g.visit(scene);
    let mut depth: i64 = 0;
    for op in &ops {
        match op {
            RenderOp::Save => depth += 1,
            RenderOp::Restore => depth -= 1,
            _ => {}
        }
        assert!(depth >= 0);
    }
    assert_eq!(depth, 0);
}
