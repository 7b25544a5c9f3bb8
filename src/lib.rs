pub mod gradient_parser;
pub mod text;
pub mod laws;
pub mod style_generator;
pub mod svg_processor;

use vstd::prelude::*;
use vstd::string::*;

use crate::style_generator::{create_styled_base_str, defs_text, rect_text};
use crate::svg_processor::{
    calculate_transform, fit_transform, icon_of, parse_svg, svg_outcome, transform_text, ViewBox,
};
use crate::text::{decimal_text, digits, push_decimal, push_digits};

verus! {

/// What can go wrong while generating an icon.
#[derive(Debug, Clone)]
pub enum IconEngineError {
    /// The source markup is malformed or lacks what an icon needs.
    SvgParsingError(String),
    /// A configuration value, such as a gradient descriptor, is malformed.
    InvalidInput(String),
    /// Reserved.
    Unknown,
}

/// Which decorative treatment the base shape receives.
#[derive(Debug, Clone, Copy, PartialEq, Eq, Structural)]
pub enum StylePreset {
    Neumorphism,
    Glassmorphism,
    FrostedGlass,
}

/// A two-stop linear gradient: an angle in degrees and two colours.
#[derive(Debug, Clone, PartialEq, Eq)]
pub struct Gradient {
    pub angle: u16,
    pub start_color: String,
    pub stop_color: String,
}

/// A decimal number: `units / 10^places`.
#[derive(Debug, Clone, Copy, PartialEq, Eq, Structural)]
pub struct Decimal {
    pub units: i64,
    pub places: u32,
}

impl Decimal {
    /// At most thirty places, so that `10^places` stays within the 128-bit
    /// arithmetic that renders the number.
    pub open spec fn wf(&self) -> bool {
        self.places <= 30
    }

    /// The shortest decimal text of the number.
    pub open spec fn text(&self) -> Seq<char> {
        decimal_text(self.units < 0, (if self.units < 0 { -(self.units as int) } else { self.units as int }) as nat,
            self.places as nat)
    }

    /// Appends the number's text.
    pub fn push_text(&self, out: &mut String)
        requires
            self.wf(),
        ensures
            final(out)@ == old(out)@ + self.text(),
    {
        let neg = self.units < 0;
        let mag: u128 = if neg {
            (-(self.units as i128)) as u128
        } else {
            self.units as u128
        };
        push_decimal(out, neg, mag, self.places);
    }
}

/// Everything about the generated icon that a user can configure.
#[derive(Debug, Clone)]
pub struct CustomStyles {
    pub width: u32,
    pub height: u32,
    pub corner_radius: Decimal,
    pub padding: u32,
    pub icon_color: String,
    pub gradient: Option<Gradient>,
}

impl CustomStyles {
    /// The corner radius can be rendered.
    pub open spec fn wf(&self) -> bool {
        self.corner_radius.wf()
    }
}

impl Default for CustomStyles {
    /// A 128 by 128 base with corner radius 25, padding 16, a `#333333`
    /// icon and no gradient.
    fn default() -> (r: Self)
        ensures
            r.width == 128,
            r.height == 128,
            r.corner_radius == (Decimal { units: 25, places: 0 }),
            r.padding == 16,
            r.icon_color@ == "#333333"@,
            r.gradient is None,
    {
        CustomStyles {
            width: 128,
            height: 128,
            corner_radius: Decimal { units: 25, places: 0 },
            padding: 16,
            icon_color: String::from_str("#333333"),
            gradient: None,
        }
    }
}

/// The generated document for a source path and view box.
pub open spec fn icon_text(
    path: Seq<char>,
    vb: ViewBox,
    styles: CustomStyles,
    preset: StylePreset,
) -> Seq<char> {
    let w = digits(styles.width as nat);
    let h = digits(styles.height as nat);
    "<svg width=\""@ + w + "\" height=\""@ + h + "\" viewBox=\"0 0 "@ + w + " "@ + h
        + "\" xmlns=\"http://www.w3.org/2000/svg\">"@ + defs_text(styles, preset) + rect_text(
        styles,
        preset,
    ) + "<g transform=\""@ + transform_text(
        fit_transform(vb, styles.width, styles.height, styles.padding),
    ) + path_element_text(path, styles.icon_color@)
}

/// The icon's path element and the closing tags after it.
pub open spec fn path_element_text(path: Seq<char>, color: Seq<char>) -> Seq<char> {
    "\"><path d=\""@ + path + "\" fill=\""@ + color + "\"/></g></svg>"@
}

/// The document generated from source markup, or `None` where the markup
/// does not describe an icon.
pub open spec fn generated_icon(
    source: Seq<char>,
    preset: StylePreset,
    styles: CustomStyles,
) -> Option<Seq<char>> {
    match icon_of(source) {
        Some((d, vb)) => Some(icon_text(d, vb, styles, preset)),
        None => None,
    }
}

/// Restyles a source icon: a base shape for the preset, with the icon's path
/// scaled and centred inside it.
pub fn generate_icon(icon_data: &str, style_preset: StylePreset, styles: &CustomStyles) -> (r:
    Result<String, IconEngineError>)
    requires
        styles.wf(),
    ensures
        match svg_outcome(icon_data@) {
            Ok((d, vb)) => r is Ok && r->Ok_0@ == icon_text(d, vb, *styles, style_preset),
            Err(m) => r is Err && r->Err_0 is SvgParsingError && r->Err_0->SvgParsingError_0@ == m,
        },
        r is Ok <==> generated_icon(icon_data@, style_preset, *styles) is Some,
        r is Ok ==> r->Ok_0@ == generated_icon(icon_data@, style_preset, *styles)->Some_0,
{
    let icon = match parse_svg(icon_data) {
        Ok(icon) => icon,
        Err(e) => {
            return Err(e);
        },
    };
    let transform = calculate_transform(icon.viewbox, styles);
    let (defs, rect) = create_styled_base_str(styles, style_preset);
    let mut out = String::from_str("<svg width=\"");
    push_digits(&mut out, styles.width as u128);
    out.append("\" height=\"");
    push_digits(&mut out, styles.height as u128);
    out.append("\" viewBox=\"0 0 ");
    push_digits(&mut out, styles.width as u128);
    out.append(" ");
    push_digits(&mut out, styles.height as u128);
    out.append("\" xmlns=\"http://www.w3.org/2000/svg\">");
    out.append(defs.as_str());
    out.append(rect.as_str());
    out.append("<g transform=\"");
    out.append(transform.as_str());
    out.append("\"><path d=\"");
    out.append(icon.path_data.as_str());
    out.append("\" fill=\"");
    out.append(styles.icon_color.as_str());
    out.append("\"/></g></svg>");
    proof {
        assert(out@ =~= icon_text(icon.path_data@, icon.viewbox, *styles, style_preset));
    }
    Ok(out)
}

} // verus!
