use font_core::error::{FontError, PathFault};
use font_core::path::{
    number_tokens, parse_svg_path_cmds, tokenize_svg_path, PathToken, SvgCmd,
};

fn tokens_of(path: &str) -> Vec<PathToken> {
    let words = tokenize_svg_path(path);
    let numbers: Vec<Option<u32>> =
        words.iter().map(|text| text.parse::<f32>().ok().map(f32::to_bits)).collect();
    number_tokens(&words, &numbers)
}

fn bits(v: f32) -> u32 {
    v.to_bits()
}

#[test]
fn test_parse_svg_path_cmds_empty() {
    let result = parse_svg_path_cmds(&tokens_of(""));
    assert!(result.is_ok());
    assert!(result.unwrap().is_empty());
}

#[test]
fn test_parse_svg_path_cmds_move_to() {
    let result = parse_svg_path_cmds(&tokens_of("M 100 200"));
    assert!(result.is_ok());
    let cmds = result.unwrap();
    assert_eq!(cmds.len(), 1);
    assert!(cmds[0] == SvgCmd::MoveTo(bits(100.0), bits(-200.0)));
}

#[test]
fn test_parse_svg_path_cmds_line_to() {
    let result = parse_svg_path_cmds(&tokens_of("M 0 0 L 100 0"));
    assert!(result.is_ok());
    let cmds = result.unwrap();
    assert_eq!(cmds.len(), 2);
    match cmds[0] {
        SvgCmd::MoveTo(x, y) => {
            assert!(f32::from_bits(x) == 0.0);
            assert!(f32::from_bits(y) == 0.0);
        }
        _ => panic!("Expected MoveTo"),
    }
    match cmds[1] {
        SvgCmd::LineTo(x, y) => {
            assert!(f32::from_bits(x) == 100.0);
            assert!(f32::from_bits(y) == 0.0);
        }
        _ => panic!("Expected LineTo"),
    }
}

#[test]
fn test_parse_svg_path_cmds_quad_to() {
    let result = parse_svg_path_cmds(&tokens_of("M 0 0 Q 50 100 100 0"));
    assert!(result.is_ok());
    let cmds = result.unwrap();
    assert_eq!(cmds.len(), 2);
    if let SvgCmd::QuadTo(cx, cy, x, y) = &cmds[1] {
        assert_eq!(f32::from_bits(*cx), 50.0);
        assert_eq!(f32::from_bits(*cy), -100.0);
        assert_eq!(f32::from_bits(*x), 100.0);
        assert_eq!(f32::from_bits(*y), 0.0);
    } else {
        panic!("Expected QuadTo");
    }
}

#[test]
fn test_parse_svg_path_cmds_curve_to() {
    let result = parse_svg_path_cmds(&tokens_of("M 0 0 C 25 100 75 100 100 0"));
    assert!(result.is_ok());
    let cmds = result.unwrap();
    assert_eq!(cmds.len(), 2);
    if let SvgCmd::CurveTo(cx1, cy1, cx2, cy2, x, y) = &cmds[1] {
        assert_eq!(f32::from_bits(*cx1), 25.0);
        assert_eq!(f32::from_bits(*cy1), -100.0);
        assert_eq!(f32::from_bits(*cx2), 75.0);
        assert_eq!(f32::from_bits(*cy2), -100.0);
        assert_eq!(f32::from_bits(*x), 100.0);
        assert_eq!(f32::from_bits(*y), 0.0);
    } else {
        panic!("Expected CurveTo");
    }
}

#[test]
fn test_parse_svg_path_cmds_close() {
    let result = parse_svg_path_cmds(&tokens_of("M 0 0 L 100 0 Z"));
    assert!(result.is_ok());
    let cmds = result.unwrap();
    assert_eq!(cmds.len(), 3);
    assert!(matches!(cmds[2], SvgCmd::Close));
}

#[test]
fn test_parse_svg_path_cmds_y_negation() {
    let result = parse_svg_path_cmds(&tokens_of("M 0 -100"));
    assert!(result.is_ok());
    let cmds = result.unwrap();
    if let SvgCmd::MoveTo(_, y) = &cmds[0] {
        assert_eq!(f32::from_bits(*y), 100.0);
    } else {
        panic!("Expected MoveTo");
    }
}

#[test]
fn parse_fails_on_a_path_that_ends_early() {
    let result = parse_svg_path_cmds(&tokens_of("M 0 0 L 100"));
    assert_eq!(
        result,
        Err(FontError::BadPath { fault: PathFault::UnexpectedEnd })
    );
    let result = parse_svg_path_cmds(&tokens_of("Q 1 2 3"));
    assert_eq!(
        result,
        Err(FontError::BadPath { fault: PathFault::UnexpectedEnd })
    );
}

#[test]
fn parse_fails_on_a_token_that_is_no_number() {
    // "1.2.3" is one token and spells no number; it is token 2
    let result = parse_svg_path_cmds(&tokens_of("M 5 1.2.3"));
    assert_eq!(
        result,
        Err(FontError::BadPath { fault: PathFault::BadNumber { token: 2 } })
    );
    // a command letter where a number is due
    let result = parse_svg_path_cmds(&tokens_of("M 5 L 1 2"));
    assert_eq!(
        result,
        Err(FontError::BadPath { fault: PathFault::BadNumber { token: 2 } })
    );
}

#[test]
fn parse_passes_over_numbers_without_a_command() {
    let cmds = parse_svg_path_cmds(&tokens_of("7 8 M 1 2 3 4 z")).unwrap();
    assert_eq!(
        cmds,
        vec![SvgCmd::MoveTo(bits(1.0), bits(-2.0)), SvgCmd::Close]
    );
}

#[test]
fn parse_takes_lower_case_letters_as_the_same_commands() {
    let cmds = parse_svg_path_cmds(&tokens_of("m 1 2 l 3 4 q 5 6 7 8 c 1 2 3 4 5 6 z")).unwrap();
    assert_eq!(
        cmds,
        vec![
            SvgCmd::MoveTo(bits(1.0), bits(-2.0)),
            SvgCmd::LineTo(bits(3.0), bits(-4.0)),
            SvgCmd::QuadTo(bits(5.0), bits(-6.0), bits(7.0), bits(-8.0)),
            SvgCmd::CurveTo(bits(1.0), bits(-2.0), bits(3.0), bits(-4.0), bits(5.0), bits(-6.0)),
            SvgCmd::Close,
        ]
    );
}

#[test]
fn flipping_y_twice_restores_the_sign() {
    // the walker writes y negated; parsing negates again
    for y in [0.0f32, -0.0, 1.5, -1.5, 200.0, -32768.0, f32::MAX, f32::MIN_POSITIVE] {
        let written = format!("M {} {}", 3.0f32, -y);
        let cmds = parse_svg_path_cmds(&tokens_of(&written)).unwrap();
        match cmds[0] {
            SvgCmd::MoveTo(px, py) => {
                assert_eq!(px, bits(3.0));
                assert_eq!(py, bits(y), "y = {}", y);
            }
            _ => panic!("Expected MoveTo"),
        }
    }
}

#[test]
fn tokenizer_drops_a_sign_that_stands_alone() {
    assert_eq!(tokenize_svg_path("M - 5 + 6"), vec!["M", "5", "6"]);
    assert_eq!(tokenize_svg_path("-e5"), vec!["5"]);
    assert_eq!(tokenize_svg_path("-.5e-3+2"), vec!["-.5e-3", "+2"]);
    assert_eq!(tokenize_svg_path("1e5e-3.2x9"), vec!["1e5e-3.2", "9"]);
    assert_eq!(tokenize_svg_path("M1-2L3,4\u{e9}Z"), vec!["M", "1", "-2", "L", "3", "4", "Z"]);
}

#[test]
fn tokens_take_the_numbers_at_their_places() {
    let words = vec!["M".to_string(), "1".to_string(), "2".to_string()];
    let one = Some(bits(1.0));
    let two = Some(bits(2.0));
    assert_eq!(
        number_tokens(&words, &[None, one, two]),
        vec![
            PathToken { text: "M".to_string(), number: None },
            PathToken { text: "1".to_string(), number: one },
            PathToken { text: "2".to_string(), number: two },
        ]
    );
    assert_eq!(
        number_tokens(&words, &[None, one]),
        vec![
            PathToken { text: "M".to_string(), number: None },
            PathToken { text: "1".to_string(), number: one },
            PathToken { text: "2".to_string(), number: None },
        ]
    );
    assert_eq!(number_tokens(&words, &[None, one, two, one]).len(), 3);
    assert!(number_tokens(&Vec::new(), &[one]).is_empty());
}
