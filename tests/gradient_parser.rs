use icon_engine::gradient_parser::parse_gradient;
use icon_engine::IconEngineError;

#[test]
fn parse_valid_gradient_succeeds() {
    let grad_str = "linear-gradient(90deg, #ff0000, #00ff00)";
    let result = parse_gradient(grad_str).unwrap();
    assert_eq!(result.angle, 90);
    assert_eq!(result.start_color, "#ff0000");
    assert_eq!(result.stop_color, "#00ff00");
}

#[test]
fn parse_valid_gradient_with_whitespace_succeeds() {
    let grad_str = "  linear-gradient( 45deg ,  #111111, #222222 )  ";
    let result = parse_gradient(grad_str).unwrap();
    assert_eq!(result.angle, 45);
    assert_eq!(result.start_color, "#111111");
    assert_eq!(result.stop_color, "#222222");
}

#[test]
fn parse_invalid_prefix_fails() {
    assert!(parse_gradient("grad(45deg, #ff0000, #0000ff)").is_err());
}

#[test]
fn parse_wrong_number_of_args_fails() {
    assert!(parse_gradient("linear-gradient(45deg, #ff0000)").is_err());
}

#[test]
fn parse_missing_deg_fails() {
    assert!(parse_gradient("linear-gradient(45, #ff0000, #0000ff)").is_err());
}

#[test]
fn parse_invalid_color_format_fails() {
    assert!(parse_gradient("linear-gradient(45deg, red, #0000ff)").is_err());
}

fn is_invalid_input(r: Result<icon_engine::Gradient, IconEngineError>) -> bool {
    matches!(r, Err(IconEngineError::InvalidInput(_)))
}

#[test]
fn missing_deg_without_spaces_is_invalid_input() {
    assert!(is_invalid_input(parse_gradient("linear-gradient(45,#ff0000,#0000ff)")));
}

#[test]
fn whitespace_is_tolerated_identically() {
    let a = parse_gradient("linear-gradient(90deg, #ff0000, #00ff00)").unwrap();
    let b = parse_gradient("\t linear-gradient(  90deg,#ff0000 ,\n#00ff00\t)\n").unwrap();
    assert_eq!(a, b);
}

#[test]
fn each_malformed_descriptor_is_invalid_input() {
    assert!(is_invalid_input(parse_gradient("grad(45deg, #ff0000, #0000ff)")));
    assert!(is_invalid_input(parse_gradient("linear-gradient(45deg, #ff0000")));
    assert!(is_invalid_input(parse_gradient("linear-gradient(45deg, #ff0000)")));
    assert!(is_invalid_input(parse_gradient("linear-gradient(45deg, #a, #b, #c)")));
    assert!(is_invalid_input(parse_gradient("linear-gradient(abcdeg, #ff0000, #0000ff)")));
    assert!(is_invalid_input(parse_gradient("linear-gradient(-5deg, #ff0000, #0000ff)")));
    assert!(is_invalid_input(parse_gradient("linear-gradient(65536deg, #ff0000, #0000ff)")));
    assert!(is_invalid_input(parse_gradient("linear-gradient(deg, #ff0000, #0000ff)")));
    assert!(is_invalid_input(parse_gradient("linear-gradient(45deg, #ff0000, blue)")));
    assert!(is_invalid_input(parse_gradient("linear-gradient()")));
    assert!(is_invalid_input(parse_gradient("")));
}

#[test]
fn angle_edge_values_parse() {
    assert_eq!(parse_gradient("linear-gradient(65535deg, #a, #b)").unwrap().angle, 65535);
    assert_eq!(parse_gradient("linear-gradient(+7deg, #a, #b)").unwrap().angle, 7);
    assert_eq!(parse_gradient("linear-gradient(0090deg, #a, #b)").unwrap().angle, 90);
    let g = parse_gradient("linear-gradient(0deg, #, #)").unwrap();
    assert_eq!(g.angle, 0);
    assert_eq!(g.start_color, "#");
    assert_eq!(g.stop_color, "#");
}

#[test]
fn colors_are_kept_as_written() {
    let g = parse_gradient("linear-gradient(10deg, #FfAa00, #xyz)").unwrap();
    assert_eq!(g.start_color, "#FfAa00");
    assert_eq!(g.stop_color, "#xyz");
}
