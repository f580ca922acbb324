use font_core::path::tokenize_svg_path;

#[test]
fn test_tokenize_svg_path_empty() {
    let tokens = tokenize_svg_path("");
    assert!(tokens.is_empty());
}

#[test]
fn test_tokenize_svg_path_whitespace_only() {
    let tokens = tokenize_svg_path("   \t\n  ");
    assert!(tokens.is_empty());
}

#[test]
fn test_tokenize_svg_path_single_move() {
    let tokens = tokenize_svg_path("M 100 200");
    assert_eq!(tokens, vec!["M", "100", "200"]);
}

#[test]
fn test_tokenize_svg_path_move_line() {
    let tokens = tokenize_svg_path("M 0 0 L 100 0");
    assert_eq!(tokens, vec!["M", "0", "0", "L", "100", "0"]);
}

#[test]
fn test_tokenize_svg_path_negative_numbers() {
    let tokens = tokenize_svg_path("M -100 -200 L 50 -50");
    assert_eq!(tokens, vec!["M", "-100", "-200", "L", "50", "-50"]);
}

#[test]
fn test_tokenize_svg_path_decimals() {
    let tokens = tokenize_svg_path("M 10.5 20.75 L 30.25 40.5");
    assert_eq!(tokens, vec!["M", "10.5", "20.75", "L", "30.25", "40.5"]);
}

#[test]
fn test_tokenize_svg_path_scientific_notation() {
    let tokens = tokenize_svg_path("M 1e2 2E-1 L 3e+1 4E0");
    assert_eq!(tokens, vec!["M", "1e2", "2E-1", "L", "3e+1", "4E0"]);
}

#[test]
fn test_tokenize_svg_path_comma_separator() {
    let tokens = tokenize_svg_path("M 0,0 L 100,0");
    assert_eq!(tokens, vec!["M", "0", "0", "L", "100", "0"]);
}

#[test]
fn test_tokenize_svg_path_quadratic() {
    let tokens = tokenize_svg_path("M 0 0 Q 50 100 100 0");
    assert_eq!(tokens, vec!["M", "0", "0", "Q", "50", "100", "100", "0"]);
}

#[test]
fn test_tokenize_svg_path_cubic() {
    let tokens = tokenize_svg_path("M 0 0 C 25 100 75 100 100 0");
    assert_eq!(
        tokens,
        vec!["M", "0", "0", "C", "25", "100", "75", "100", "100", "0"]
    );
}

#[test]
fn test_tokenize_svg_path_close() {
    let tokens = tokenize_svg_path("M 0 0 L 100 0 Z");
    assert_eq!(tokens, vec!["M", "0", "0", "L", "100", "0", "Z"]);
}

#[test]
fn test_tokenize_svg_path_lowercase() {
    let tokens = tokenize_svg_path("m 100 200 l 300 400 z");
    assert_eq!(tokens, vec!["m", "100", "200", "l", "300", "400", "z"]);
}
