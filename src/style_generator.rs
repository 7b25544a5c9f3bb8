use vstd::prelude::*;
use vstd::string::*;

use crate::text::{decimal_text, digit_char, digits, push_decimal, push_digits};
use crate::{CustomStyles, Gradient, StylePreset};

verus! {

/// `sin(d°)` in millionths, rounded, for `d` in `0..=90`.
pub open spec fn quarter_sine(d: u16) -> int {
    match d {
        0 => 0,
        1 => 17452,
        2 => 34899,
        3 => 52336,
        4 => 69756,
        5 => 87156,
        6 => 104528,
        7 => 121869,
        8 => 139173,
        9 => 156434,
        10 => 173648,
        11 => 190809,
        12 => 207912,
        13 => 224951,
        14 => 241922,
        15 => 258819,
        16 => 275637,
        17 => 292372,
        18 => 309017,
        19 => 325568,
        20 => 342020,
        21 => 358368,
        22 => 374607,
        23 => 390731,
        24 => 406737,
        25 => 422618,
        26 => 438371,
        27 => 453990,
        28 => 469472,
        29 => 484810,
        30 => 500000,
        31 => 515038,
        32 => 529919,
        33 => 544639,
        34 => 559193,
        35 => 573576,
        36 => 587785,
        37 => 601815,
        38 => 615661,
        39 => 629320,
        40 => 642788,
        41 => 656059,
        42 => 669131,
        43 => 681998,
        44 => 694658,
        45 => 707107,
        46 => 719340,
        47 => 731354,
        48 => 743145,
        49 => 754710,
        50 => 766044,
        51 => 777146,
        52 => 788011,
        53 => 798636,
        54 => 809017,
        55 => 819152,
        56 => 829038,
        57 => 838671,
        58 => 848048,
        59 => 857167,
        60 => 866025,
        61 => 874620,
        62 => 882948,
        63 => 891007,
        64 => 898794,
        65 => 906308,
        66 => 913545,
        67 => 920505,
        68 => 927184,
        69 => 933580,
        70 => 939693,
        71 => 945519,
        72 => 951057,
        73 => 956305,
        74 => 961262,
        75 => 965926,
        76 => 970296,
        77 => 974370,
        78 => 978148,
        79 => 981627,
        80 => 984808,
        81 => 987688,
        82 => 990268,
        83 => 992546,
        84 => 994522,
        85 => 996195,
        86 => 997564,
        87 => 998630,
        88 => 999391,
        89 => 999848,
        _ => 1000000,
    }
}

fn quarter_sine_exec(d: u16) -> (r: i64)
    requires
        d <= 90,
    ensures
        r == quarter_sine(d),
        0 <= r <= 1_000_000,
{
    match d {
        0 => 0,
        1 => 17452,
        2 => 34899,
        3 => 52336,
        4 => 69756,
        5 => 87156,
        6 => 104528,
        7 => 121869,
        8 => 139173,
        9 => 156434,
        10 => 173648,
        11 => 190809,
        12 => 207912,
        13 => 224951,
        14 => 241922,
        15 => 258819,
        16 => 275637,
        17 => 292372,
        18 => 309017,
        19 => 325568,
        20 => 342020,
        21 => 358368,
        22 => 374607,
        23 => 390731,
        24 => 406737,
        25 => 422618,
        26 => 438371,
        27 => 453990,
        28 => 469472,
        29 => 484810,
        30 => 500000,
        31 => 515038,
        32 => 529919,
        33 => 544639,
        34 => 559193,
        35 => 573576,
        36 => 587785,
        37 => 601815,
        38 => 615661,
        39 => 629320,
        40 => 642788,
        41 => 656059,
        42 => 669131,
        43 => 681998,
        44 => 694658,
        45 => 707107,
        46 => 719340,
        47 => 731354,
        48 => 743145,
        49 => 754710,
        50 => 766044,
        51 => 777146,
        52 => 788011,
        53 => 798636,
        54 => 809017,
        55 => 819152,
        56 => 829038,
        57 => 838671,
        58 => 848048,
        59 => 857167,
        60 => 866025,
        61 => 874620,
        62 => 882948,
        63 => 891007,
        64 => 898794,
        65 => 906308,
        66 => 913545,
        67 => 920505,
        68 => 927184,
        69 => 933580,
        70 => 939693,
        71 => 945519,
        72 => 951057,
        73 => 956305,
        74 => 961262,
        75 => 965926,
        76 => 970296,
        77 => 974370,
        78 => 978148,
        79 => 981627,
        80 => 984808,
        81 => 987688,
        82 => 990268,
        83 => 992546,
        84 => 994522,
        85 => 996195,
        86 => 997564,
        87 => 998630,
        88 => 999391,
        89 => 999848,
        _ => 1000000,
    }
}

/// `sin(a°)` in millionths.
pub open spec fn sine_micro(a: u16) -> int {
    let r = (a % 360) as u16;
    if r <= 90 {
        quarter_sine(r)
    } else if r <= 180 {
        quarter_sine((180 - r) as u16)
    } else if r <= 270 {
        -quarter_sine((r - 180) as u16)
    } else {
        -quarter_sine((360 - r) as u16)
    }
}

/// `cos(a°)` in millionths.
pub open spec fn cosine_micro(a: u16) -> int {
    let r = (a % 360) as u16;
    if r <= 90 {
        quarter_sine((90 - r) as u16)
    } else if r <= 180 {
        -quarter_sine((r - 90) as u16)
    } else if r <= 270 {
        -quarter_sine((270 - r) as u16)
    } else {
        quarter_sine((r - 270) as u16)
    }
}

fn sine_cosine(a: u16) -> (r: (i64, i64))
    ensures
        r.0 == sine_micro(a),
        r.1 == cosine_micro(a),
        -1_000_000 <= r.0 <= 1_000_000,
        -1_000_000 <= r.1 <= 1_000_000,
{
    let r = a % 360;
    if r <= 90 {
        (quarter_sine_exec(r), quarter_sine_exec(90 - r))
    } else if r <= 180 {
        (quarter_sine_exec(180 - r), -quarter_sine_exec(r - 90))
    } else if r <= 270 {
        (-quarter_sine_exec(r - 180), -quarter_sine_exec(270 - r))
    } else {
        (-quarter_sine_exec(360 - r), quarter_sine_exec(r - 270))
    }
}

/// `50 + 50·m/10^6` percent, in tenths of a percent, rounded half up.
pub open spec fn half_plus(m: int) -> nat {
    ((500_000_000 + 500 * m + 500_000) / 1_000_000) as nat
}

fn half_plus_exec(m: i64) -> (r: u128)
    requires
        -1_000_000 <= m <= 1_000_000,
    ensures
        r == half_plus(m as int),
        r <= 1000,
{
    ((500_000_000 + 500 * m + 500_000) / 1_000_000) as u128
}

/// A value in tenths written with exactly one decimal place.
pub open spec fn fixed1_text(t: nat) -> Seq<char> {
    digits(t / 10) + seq!['.', digit_char(t % 10)]
}

fn push_fixed1(out: &mut String, t: u128)
    ensures
        final(out)@ == old(out)@ + fixed1_text(t as nat),
{
    push_digits(out, t / 10);
    let ghost mid = out@;
    out.append(".");
    push_digits(out, t % 10);
    proof {
        reveal_strlit(".");
        reveal_with_fuel(digits, 2);
        assert(out@ =~= old(out)@ + fixed1_text(t as nat));
    }
}

/// The gradient's start point and end point, in tenths of a percent: the
/// direction `angle − 90°` on a circle of radius 50% around the centre.
pub open spec fn gradient_vector(angle: u16) -> (nat, nat, nat, nat) {
    let s = sine_micro(angle);
    let c = cosine_micro(angle);
    (half_plus(-s), half_plus(c), half_plus(s), half_plus(-c))
}

/// The `linearGradient` definition for a gradient.
pub open spec fn gradient_def_text(angle: u16, start: Seq<char>, stop: Seq<char>) -> Seq<char> {
    let v = gradient_vector(angle);
    "<linearGradient id=\"base-gradient\" x1=\""@ + fixed1_text(v.0) + "%\" y1=\""@ + fixed1_text(v.1)
        + "%\" x2=\""@ + fixed1_text(v.2) + "%\" y2=\""@ + fixed1_text(v.3)
        + "%\"><stop offset=\"0%\" stop-color=\""@ + start
        + "\"/><stop offset=\"100%\" stop-color=\""@ + stop + "\"/></linearGradient>"@
}

/// Builds the `linearGradient` definition that the base shape's fill refers to.
pub fn create_gradient_def_str(gradient: &Gradient) -> (r: String)
    ensures
        r@ == gradient_def_text(gradient.angle, gradient.start_color@, gradient.stop_color@),
{
    let (s, c) = sine_cosine(gradient.angle);
    let x1 = half_plus_exec(-s);
    let y1 = half_plus_exec(c);
    let x2 = half_plus_exec(s);
    let y2 = half_plus_exec(-c);
    let mut out = String::new();
    out.append("<linearGradient id=\"base-gradient\" x1=\"");
    push_fixed1(&mut out, x1);
    out.append("%\" y1=\"");
    push_fixed1(&mut out, y1);
    out.append("%\" x2=\"");
    push_fixed1(&mut out, x2);
    out.append("%\" y2=\"");
    push_fixed1(&mut out, y2);
    out.append("%\"><stop offset=\"0%\" stop-color=\"");
    out.append(gradient.start_color.as_str());
    out.append("\"/><stop offset=\"100%\" stop-color=\"");
    out.append(gradient.stop_color.as_str());
    out.append("\"/></linearGradient>");
    proof {
        assert(out@ =~= gradient_def_text(
            gradient.angle,
            gradient.start_color@,
            gradient.stop_color@,
        ));
    }
    out
}

/// The shadow filter of the neumorphism preset for a base `width` wide: a
/// dark layer at `(+d, +d)` and a light one at `(−d, −d)`, `d = width / 25`,
/// both blurred by `1.2·d`.
pub open spec fn neumorphism_filter_text(width: u32) -> Seq<char> {
    let d = decimal_text(false, (width * 4) as nat, 2);
    let nd = decimal_text(true, (width * 4) as nat, 2);
    let blur = decimal_text(false, (width * 48) as nat, 3);
    "<filter id=\"neumorphism-shadow\"><feDropShadow dx=\""@ + d + "\" dy=\""@ + d
        + "\" stdDeviation=\""@ + blur
        + "\" flood-color=\"rgba(0,0,0,0.12)\"/><feDropShadow dx=\""@ + nd + "\" dy=\""@ + nd
        + "\" stdDeviation=\""@ + blur + "\" flood-color=\"rgba(255,255,255,0.7)\"/></filter>"@
}

pub open spec fn neumorphism_attrs_text() -> Seq<char> {
    " filter=\"url(#neumorphism-shadow)\""@
}

/// The neumorphism preset: the attribute that applies its filter, and the
/// filter's definition.
pub fn create_neumorphism_style_str(styles: &CustomStyles) -> (r: (String, Option<String>))
    ensures
        r.0@ == neumorphism_attrs_text(),
        r.1 is Some,
        r.1->Some_0@ == neumorphism_filter_text(styles.width),
{
    let d = styles.width as u128 * 4;
    let blur = styles.width as u128 * 48;
    let mut f = String::new();
    f.append("<filter id=\"neumorphism-shadow\"><feDropShadow dx=\"");
    push_decimal(&mut f, false, d, 2);
    f.append("\" dy=\"");
    push_decimal(&mut f, false, d, 2);
    f.append("\" stdDeviation=\"");
    push_decimal(&mut f, false, blur, 3);
    f.append("\" flood-color=\"rgba(0,0,0,0.12)\"/><feDropShadow dx=\"");
    push_decimal(&mut f, true, d, 2);
    f.append("\" dy=\"");
    push_decimal(&mut f, true, d, 2);
    f.append("\" stdDeviation=\"");
    push_decimal(&mut f, false, blur, 3);
    f.append("\" flood-color=\"rgba(255,255,255,0.7)\"/></filter>");
    proof {
        assert(f@ =~= neumorphism_filter_text(styles.width));
    }
    (String::from_str(" filter=\"url(#neumorphism-shadow)\""), Some(f))
}

/// The fill opacity of a glass preset.
pub open spec fn glass_opacity_text(preset: StylePreset) -> Seq<char> {
    match preset {
        StylePreset::FrostedGlass => "0.1"@,
        _ => "0.2"@,
    }
}

/// The blur deviation of a glass preset.
pub open spec fn glass_blur_text(preset: StylePreset) -> Seq<char> {
    match preset {
        StylePreset::FrostedGlass => "12"@,
        _ => "5"@,
    }
}

pub open spec fn glass_attrs_text(preset: StylePreset) -> Seq<char> {
    " fill-opacity=\""@ + glass_opacity_text(preset)
        + "\" stroke=\"rgba(255,255,255,0.3)\" stroke-width=\"1\""@
}

pub open spec fn glass_filter_text(preset: StylePreset) -> Seq<char> {
    "<filter id=\"glass-blur\"><feGaussianBlur stdDeviation=\""@ + glass_blur_text(preset)
        + "\"/></filter>"@
}

/// The glass presets: translucent fill and a light stroke on the shape, and a
/// blur filter in the definitions.
pub fn create_glassmorphism_style_str(preset: StylePreset) -> (r: (String, Option<String>))
    ensures
        r.0@ == glass_attrs_text(preset),
        r.1 is Some,
        r.1->Some_0@ == glass_filter_text(preset),
{
    let (blur, opacity) = match preset {
        StylePreset::FrostedGlass => ("12", "0.1"),
        _ => ("5", "0.2"),
    };
    let mut attrs = String::from_str(" fill-opacity=\"");
    attrs.append(opacity);
    attrs.append("\" stroke=\"rgba(255,255,255,0.3)\" stroke-width=\"1\"");
    let mut filter = String::from_str("<filter id=\"glass-blur\"><feGaussianBlur stdDeviation=\"");
    filter.append(blur);
    filter.append("\"/></filter>");
    proof {
        assert(attrs@ =~= glass_attrs_text(preset));
        assert(filter@ =~= glass_filter_text(preset));
    }
    (attrs, Some(filter))
}

/// The fill of the base shape: the gradient where one is configured, else
/// the preset's default colour.
pub open spec fn fill_text(styles: CustomStyles, preset: StylePreset) -> Seq<char> {
    if styles.gradient is Some {
        " fill=\"url(#base-gradient)\""@
    } else if preset == StylePreset::Neumorphism {
        " fill=\"#e0e0e0\""@
    } else {
        " fill=\"white\""@
    }
}

pub open spec fn effect_attrs_text(styles: CustomStyles, preset: StylePreset) -> Seq<char> {
    if preset == StylePreset::Neumorphism {
        neumorphism_attrs_text()
    } else {
        glass_attrs_text(preset)
    }
}

pub open spec fn effect_def_text(styles: CustomStyles, preset: StylePreset) -> Seq<char> {
    if preset == StylePreset::Neumorphism {
        neumorphism_filter_text(styles.width)
    } else {
        glass_filter_text(preset)
    }
}

/// The definitions: the gradient's first, then the preset's effect, wrapped
/// in one `defs` element, or nothing where there are none.
pub open spec fn defs_text(styles: CustomStyles, preset: StylePreset) -> Seq<char> {
    let inner = match styles.gradient {
        Some(g) => gradient_def_text(g.angle, g.start_color@, g.stop_color@),
        None => Seq::empty(),
    } + effect_def_text(styles, preset);
    if inner.len() == 0 {
        Seq::empty()
    } else {
        "<defs>"@ + inner + "</defs>"@
    }
}

/// The base shape: a rounded rectangle of the configured size.
pub open spec fn rect_text(styles: CustomStyles, preset: StylePreset) -> Seq<char> {
    "<rect width=\""@ + digits(styles.width as nat) + "\" height=\""@ + digits(
        styles.height as nat,
    ) + "\" rx=\""@ + styles.corner_radius.text() + "\" ry=\""@ + styles.corner_radius.text()
        + "\""@ + fill_text(styles, preset) + effect_attrs_text(styles, preset) + "/>"@
}

/// Builds the definitions and the base shape for a configuration and preset.
pub fn create_styled_base_str(styles: &CustomStyles, preset: StylePreset) -> (r: (String, String))
    requires
        styles.wf(),
    ensures
        r.0@ == defs_text(*styles, preset),
        r.1@ == rect_text(*styles, preset),
{
    let mut defs = String::new();
    let mut rect = String::from_str("<rect width=\"");
    push_digits(&mut rect, styles.width as u128);
    rect.append("\" height=\"");
    push_digits(&mut rect, styles.height as u128);
    rect.append("\" rx=\"");
    styles.corner_radius.push_text(&mut rect);
    rect.append("\" ry=\"");
    styles.corner_radius.push_text(&mut rect);
    rect.append("\"");
    match &styles.gradient {
        Some(g) => {
            let def = create_gradient_def_str(g);
            defs.append(def.as_str());
            rect.append(" fill=\"url(#base-gradient)\"");
        },
        None => {
            if preset == StylePreset::Neumorphism {
                rect.append(" fill=\"#e0e0e0\"");
            } else {
                rect.append(" fill=\"white\"");
            }
        },
    }
    let (attrs, def) = match preset {
        StylePreset::Neumorphism => create_neumorphism_style_str(styles),
        _ => create_glassmorphism_style_str(preset),
    };
    rect.append(attrs.as_str());
    match def {
        Some(d) => defs.append(d.as_str()),
        None => {},
    }
    rect.append("/>");
    proof {
        assert(rect@ =~= rect_text(*styles, preset));
    }
    if defs.as_str().unicode_len() == 0 {
        proof {
            assert(defs_text(*styles, preset) =~= Seq::<char>::empty());
        }
        (defs, rect)
    } else {
        let mut wrapped = String::from_str("<defs>");
        wrapped.append(defs.as_str());
        wrapped.append("</defs>");
        (wrapped, rect)
    }
}

} // verus!
