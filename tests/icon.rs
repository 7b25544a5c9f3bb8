use icon_engine::style_generator::{
    create_glassmorphism_style_str, create_gradient_def_str, create_neumorphism_style_str,
    create_styled_base_str,
};
use icon_engine::svg_processor::{calculate_transform, compute_transform, parse_svg, Ratio, ViewBox};
use icon_engine::{generate_icon, CustomStyles, Decimal, Gradient, IconEngineError, StylePreset};

const TEST_SVG: &str = r##"<svg viewBox="0 0 24 24"><path d="M12 2L2 22h20L12 2z"></path></svg>"##;

fn whole(n: i64) -> Decimal {
    Decimal { units: n, places: 0 }
}

fn gradient(angle: u16, a: &str, b: &str) -> Gradient {
    Gradient { angle, start_color: a.to_string(), stop_color: b.to_string() }
}

#[test]
fn test_neumorphism_style_generation() {
    let styles = CustomStyles::default();
    let result = generate_icon(TEST_SVG, StylePreset::Neumorphism, &styles);
    assert!(result.is_ok());
    let svg_output = result.unwrap();

    assert!(svg_output.contains("<defs>"));
    assert!(svg_output.contains("id=\"neumorphism-shadow\""));
    assert!(svg_output.contains("filter=\"url(#neumorphism-shadow)\""));
    assert!(svg_output.contains("fill=\"#333333\""));
    assert!(svg_output.contains("d=\"M12 2L2 22h20L12 2z\""));
}

#[test]
fn test_glassmorphism_style_generation() {
    let styles = CustomStyles::default();
    let result = generate_icon(TEST_SVG, StylePreset::Glassmorphism, &styles);
    assert!(result.is_ok());
    let svg_output = result.unwrap();

    assert!(svg_output.contains("fill-opacity=\"0.2\""));
    assert!(svg_output.contains("stroke=\"rgba(255,255,255,0.3)\""));
}

#[test]
fn test_gradient_generation() {
    let mut styles = CustomStyles::default();
    styles.gradient = Some(Gradient {
        angle: 90,
        start_color: "#ff0000".to_string(),
        stop_color: "#00ff00".to_string(),
    });

    let result = generate_icon(TEST_SVG, StylePreset::Neumorphism, &styles);
    assert!(result.is_ok());
    let svg_output = result.unwrap();

    assert!(svg_output.contains("<linearGradient id=\"base-gradient\""));
    assert!(svg_output.contains("stop-color=\"#ff0000\""));
    assert!(svg_output.contains("fill=\"url(#base-gradient)\""));
}

#[test]
fn end_to_end_neumorphism_document() {
    let mut styles = CustomStyles::default();
    styles.icon_color = "#fafafa".to_string();
    let out = generate_icon(TEST_SVG, StylePreset::Neumorphism, &styles).unwrap();
    let expected = [
        r##"<svg width="128" height="128" viewBox="0 0 128 128" xmlns="http://www.w3.org/2000/svg">"##,
        r##"<defs><filter id="neumorphism-shadow">"##,
        r##"<feDropShadow dx="5.12" dy="5.12" stdDeviation="6.144" flood-color="rgba(0,0,0,0.12)"/>"##,
        r##"<feDropShadow dx="-5.12" dy="-5.12" stdDeviation="6.144" flood-color="rgba(255,255,255,0.7)"/>"##,
        r##"</filter></defs>"##,
        r##"<rect width="128" height="128" rx="25" ry="25" fill="#e0e0e0" filter="url(#neumorphism-shadow)"/>"##,
        r##"<g transform="translate(16, 16) scale(4)"><path d="M12 2L2 22h20L12 2z" fill="#fafafa"/></g></svg>"##,
    ]
    .concat();
    assert_eq!(out, expected);
    assert!(out.contains("scale(4)"));
    assert_eq!(out.matches("<path ").count(), 1);
}

#[test]
fn oversized_padding_gives_the_sentinel_transform() {
    for side in [1i64, 24, 1000] {
        let vb = ViewBox { width: whole(side), height: whole(side) };
        let mut styles = CustomStyles::default();
        styles.padding = 64;
        assert_eq!(calculate_transform(vb, &styles), "translate(0, 0) scale(0)");
        styles.padding = 100;
        assert_eq!(calculate_transform(vb, &styles), "translate(0, 0) scale(0)");
    }
}

#[test]
fn transform_fits_the_tighter_side_and_centres() {
    let vb = ViewBox { width: whole(48), height: whole(24) };
    let styles = CustomStyles::default();
    // 96 / 48 = 2 wins over 96 / 24 = 4; the height is centred: 16 + (96 - 48) / 2.
    assert_eq!(calculate_transform(vb, &styles), "translate(16, 40) scale(2)");
    let t = compute_transform(vb, &styles);
    assert_eq!(t.scale.num * 1, t.scale.den * 2);
    let mut wide = CustomStyles::default();
    wide.width = 200;
    wide.height = 100;
    wide.padding = 10;
    let square = ViewBox { width: whole(10), height: whole(10) };
    // targets 180 x 80: scale 8, x centred at 10 + (180 - 80) / 2 = 60.
    assert_eq!(calculate_transform(square, &wide), "translate(60, 10) scale(8)");
}

#[test]
fn transform_with_fractional_box_and_repeating_scale() {
    let vb = ViewBox { width: Decimal { units: 245, places: 1 }, height: whole(24) };
    let styles = CustomStyles::default();
    // 96 / 24.5 = 3.918367..., the y translation 16 + (96 - 24 * 3.918367...) / 2 = 16.979591...
    assert_eq!(calculate_transform(vb, &styles), "translate(16, 16.979592) scale(3.918367)");
    let t = compute_transform(vb, &styles);
    assert_eq!(t.scale, Ratio { num: 960, den: 245 });
}

#[test]
fn non_numeric_view_box_tokens_are_skipped() {
    let icon = parse_svg(r##"<svg viewBox="0 x 0 24 24"><path d="M1 1"/></svg>"##).unwrap();
    assert_eq!(icon.viewbox.width, whole(24));
    assert_eq!(icon.viewbox.height, whole(24));
}

#[test]
fn parse_svg_reads_path_and_box() {
    let icon = parse_svg(r##"<svg xmlns="http://www.w3.org/2000/svg" viewBox="5 5 24.5 12"><g><rect/><path/><path d="M0 0h1"/><path d="M9 9"/></g></svg>"##).unwrap();
    assert_eq!(icon.path_data, "M0 0h1");
    assert_eq!(icon.viewbox.width, Decimal { units: 245, places: 1 });
    assert_eq!(icon.viewbox.height, whole(12));
}

fn is_parse_error(r: Result<icon_engine::svg_processor::SvgIcon, IconEngineError>) -> bool {
    matches!(r, Err(IconEngineError::SvgParsingError(_)))
}

#[test]
fn parse_svg_rejects_malformed_icons() {
    assert!(is_parse_error(parse_svg(r##"<svgx viewBox="0 0 24 24"><path d="M0 0"/></svgx>"##)));
    assert!(is_parse_error(parse_svg(r##"<svg><path d="M0 0"/></svg>"##)));
    assert!(is_parse_error(parse_svg(r##"<svg viewBox="0 0 24"><path d="M0 0"/></svg>"##)));
    assert!(is_parse_error(parse_svg(r##"<svg viewBox="0 0 24 x"><path d="M0 0"/></svg>"##)));
    assert!(is_parse_error(parse_svg(r##"<svg viewBox="0 0 24 24 1"><path d="M0 0"/></svg>"##)));
    assert!(is_parse_error(parse_svg(r##"<svg viewBox="0 0 0 24"><path d="M0 0"/></svg>"##)));
    assert!(is_parse_error(parse_svg(r##"<svg viewBox="0 0 24 24"><path/></svg>"##)));
    assert!(is_parse_error(parse_svg(r##"<svg viewBox="0 0 24 24"><g/></svg>"##)));
    assert!(is_parse_error(parse_svg("<svg viewBox='0 0 24 24'><path d='M0 0'>")));
    assert!(is_parse_error(parse_svg("not markup at all")));
}

#[test]
fn generate_icon_reports_parse_errors() {
    let styles = CustomStyles::default();
    let r = generate_icon("<svg/>", StylePreset::Glassmorphism, &styles);
    assert!(matches!(r, Err(IconEngineError::SvgParsingError(_))));
}

#[test]
fn gradient_vector_for_some_angles() {
    assert_eq!(
        create_gradient_def_str(&gradient(90, "#ff0000", "#00ff00")),
        r##"<linearGradient id="base-gradient" x1="0.0%" y1="50.0%" x2="100.0%" y2="50.0%"><stop offset="0%" stop-color="#ff0000"/><stop offset="100%" stop-color="#00ff00"/></linearGradient>"##
    );
    let g45 = create_gradient_def_str(&gradient(45, "#a", "#b"));
    assert!(g45.contains(r##"x1="14.6%" y1="85.4%" x2="85.4%" y2="14.6%""##));
    let g0 = create_gradient_def_str(&gradient(0, "#a", "#b"));
    assert!(g0.contains(r##"x1="50.0%" y1="100.0%" x2="50.0%" y2="0.0%""##));
    let g180 = create_gradient_def_str(&gradient(180, "#a", "#b"));
    assert!(g180.contains(r##"x1="50.0%" y1="0.0%" x2="50.0%" y2="100.0%""##));
    let g450 = create_gradient_def_str(&gradient(450, "#a", "#b"));
    assert!(g450.contains(r##"x1="0.0%" y1="50.0%" x2="100.0%" y2="50.0%""##));
    let g30 = create_gradient_def_str(&gradient(30, "#a", "#b"));
    assert!(g30.contains(r##"x1="25.0%" y1="93.3%" x2="75.0%" y2="6.7%""##));
}

#[test]
fn neumorphism_layers_mirror_each_other() {
    let mut styles = CustomStyles::default();
    styles.width = 50;
    let (attrs, def) = create_neumorphism_style_str(&styles);
    assert_eq!(attrs, r##" filter="url(#neumorphism-shadow)""##);
    let def = def.unwrap();
    assert!(def.contains(r##"dx="2" dy="2" stdDeviation="2.4""##));
    assert!(def.contains(r##"dx="-2" dy="-2" stdDeviation="2.4""##));
}

#[test]
fn glass_presets_differ_in_opacity_and_blur() {
    let (a, d) = create_glassmorphism_style_str(StylePreset::Glassmorphism);
    assert_eq!(a, r##" fill-opacity="0.2" stroke="rgba(255,255,255,0.3)" stroke-width="1""##);
    assert_eq!(d.unwrap(), r##"<filter id="glass-blur"><feGaussianBlur stdDeviation="5"/></filter>"##);
    let (a, d) = create_glassmorphism_style_str(StylePreset::FrostedGlass);
    assert_eq!(a, r##" fill-opacity="0.1" stroke="rgba(255,255,255,0.3)" stroke-width="1""##);
    assert_eq!(d.unwrap(), r##"<filter id="glass-blur"><feGaussianBlur stdDeviation="12"/></filter>"##);
}

#[test]
fn glass_output_has_no_neumorphism_filter() {
    let styles = CustomStyles::default();
    for preset in [StylePreset::Glassmorphism, StylePreset::FrostedGlass] {
        let out = generate_icon(TEST_SVG, preset, &styles).unwrap();
        assert!(!out.contains("neumorphism-shadow"));
        assert!(out.contains("fill-opacity="));
        assert!(out.contains(r##"stroke="rgba(255,255,255,0.3)" stroke-width="1""##));
        assert!(out.contains(r##"fill="white""##));
    }
}

#[test]
fn gradient_fill_wins_for_every_preset() {
    let mut styles = CustomStyles::default();
    styles.gradient = Some(gradient(45, "#111111", "#222222"));
    for preset in [StylePreset::Neumorphism, StylePreset::Glassmorphism, StylePreset::FrostedGlass] {
        let (defs, rect) = create_styled_base_str(&styles, preset);
        assert!(rect.contains(r##" fill="url(#base-gradient)""##));
        assert!(defs.starts_with("<defs><linearGradient"));
        assert!(defs.ends_with("</filter></defs>"));
    }
}

#[test]
fn corner_radius_and_size_are_written_out() {
    let mut styles = CustomStyles::default();
    styles.width = 64;
    styles.height = 32;
    styles.corner_radius = Decimal { units: 1250, places: 2 };
    let (_, rect) = create_styled_base_str(&styles, StylePreset::FrostedGlass);
    assert!(rect.starts_with(r##"<rect width="64" height="32" rx="12.5" ry="12.5" fill="white""##));
    styles.corner_radius = Decimal { units: -3, places: 1 };
    let (_, rect) = create_styled_base_str(&styles, StylePreset::FrostedGlass);
    assert!(rect.contains(r##"rx="-0.3" ry="-0.3""##));
}

fn view_box_of(vb: &str) -> Result<ViewBox, IconEngineError> {
    parse_svg(&format!(r##"<svg viewBox="{}"><path d="M0"/></svg>"##, vb)).map(|i| i.viewbox)
}

fn message_of(r: Result<ViewBox, IconEngineError>) -> String {
    match r {
        Err(IconEngineError::SvgParsingError(m)) => m,
        other => panic!("expected a parsing error, got {:?}", other),
    }
}

#[test]
fn view_box_numbers_in_exponent_form_count() {
    let vb = view_box_of("0 0 1e1 24").unwrap();
    assert_eq!(vb.width, whole(10));
    assert_eq!(vb.height, whole(24));
    let vb = view_box_of("0 0 2.5E-1 +3e+0").unwrap();
    assert_eq!(vb.width, Decimal { units: 25, places: 2 });
    assert_eq!(vb.height, whole(3));
    let vb = view_box_of("-1.5e3 .5 1. 0.75").unwrap();
    assert_eq!(vb.width, whole(1));
    assert_eq!(vb.height, Decimal { units: 75, places: 2 });
}

#[test]
fn long_view_box_numbers_count() {
    let vb = view_box_of("1234567890 0.000000000001 24.0000000000 0024").unwrap();
    assert_eq!(vb.width, whole(24));
    assert_eq!(vb.height, whole(24));
    let vb = view_box_of("0 0 120000e-4 2400000000e-8").unwrap();
    assert_eq!(vb.width, Decimal { units: 12, places: 0 });
    assert_eq!(vb.height, whole(24));
}

#[test]
fn tokens_that_are_not_numbers_drop_out() {
    for vb in ["0 0 24 e5", "0 0 24 1e", "0 0 24 1e+", "0 0 24 .", "0 0 24 --1", "0 0 24 1.2.3", "0 0 24 inf"] {
        assert_eq!(
            message_of(view_box_of(vb)),
            "viewBox attribute has invalid format. Expected 4 numbers."
        );
    }
}

#[test]
fn sides_outside_the_supported_size_are_refused_by_name() {
    let limit = "viewBox width and height must be positive, below 10^9 and with at most 9 decimal places";
    for vb in ["0 0 1234567890 24", "0 0 24 1e9", "0 0 1e-10 24", "0 0 0 24", "0 0 24 -3", "0 0 0.0000000001 1"] {
        assert_eq!(message_of(view_box_of(vb)), limit);
    }
    assert_eq!(message_of(view_box_of("0 0 24 0000000000000000000000000000001")), limit);
    assert_eq!(view_box_of("0 0 999999999 0.000000001").unwrap().height, Decimal { units: 1, places: 9 });
}

#[test]
fn parse_errors_carry_their_description() {
    assert_eq!(message_of(view_box_of("0 0 24")), "viewBox attribute has invalid format. Expected 4 numbers.");
    let r = parse_svg(r##"<svgx viewBox="0 0 24 24"><path d="M0"/></svgx>"##);
    assert!(matches!(r, Err(IconEngineError::SvgParsingError(m)) if m == "Root element is not <svg>"));
    let r = parse_svg("<svg><path d='M0'/></svg>");
    assert!(matches!(r, Err(IconEngineError::SvgParsingError(m)) if m == "SVG does not have a viewBox attribute"));
    let r = parse_svg("<svg viewBox='0 0 1 1'><g/></svg>");
    assert!(matches!(r, Err(IconEngineError::SvgParsingError(m)) if m == "No <path> element with a 'd' attribute found"));
}

#[test]
fn generate_icon_passes_on_the_parse_error() {
    let styles = CustomStyles::default();
    for source in ["<svg/>", "<svg viewBox='0 0 1'><path d='M0'/></svg>", "not markup", "<svg viewBox='0 0 1 1'>"] {
        let expected = match parse_svg(source) {
            Err(IconEngineError::SvgParsingError(m)) => m,
            _ => panic!("expected a parsing error"),
        };
        assert!(!expected.is_empty());
        match generate_icon(source, StylePreset::FrostedGlass, &styles) {
            Err(IconEngineError::SvgParsingError(m)) => assert_eq!(m, expected),
            other => panic!("expected the parsing error, got {:?}", other),
        }
    }
}
