use vstd::prelude::*;

use crate::style_generator::{
    defs_text, effect_attrs_text, effect_def_text, fill_text, glass_attrs_text, glass_filter_text,
    gradient_def_text, neumorphism_attrs_text, neumorphism_filter_text, rect_text,
};
use crate::svg_processor::icon_of;
use crate::gradient_parser::{
    gradient_body, gradient_of, gradient_prefix, is_ws, lemma_split_at_comma, lemma_split_no_comma,
    split_commas, trim, trim_end, trim_start,
};
use crate::text::decimal_text;
use crate::{generated_icon, path_element_text, CustomStyles, StylePreset};

verus! {

/// A negated decimal is the same text as the positive one behind a minus
/// sign, so the two shadow layers' offsets have equal magnitude and opposite
/// signs.
pub proof fn lemma_negated_text(u: nat, p: nat)
    requires
        u > 0,
    ensures
        decimal_text(true, u, p) == seq!['-'] + decimal_text(false, u, p),
    decreases p,
{
    if p > 0 && u % 10 == 0 {
        lemma_negated_text(u / 10, (p - 1) as nat);
    } else {
        assert(decimal_text(true, u, p) =~= seq!['-'] + decimal_text(false, u, p));
    }
}

/// The generated document closes with one path element that carries the
/// source path data exactly as written, filled with the configured colour.
pub proof fn lemma_path_copied(source: Seq<char>, preset: StylePreset, styles: CustomStyles)
    requires
        generated_icon(source, preset, styles) is Some,
    ensures
        exists|head: Seq<char>|
            generated_icon(source, preset, styles)->Some_0 == head + path_element_text(
                #[trigger] icon_of(source)->Some_0.0,
                styles.icon_color@,
            ),
{
    let d = icon_of(source)->Some_0.0;
    let out = generated_icon(source, preset, styles)->Some_0;
    let tail = path_element_text(d, styles.icon_color@);
    let head = out.subrange(0, out.len() - tail.len());
    assert(out =~= head + tail);
}

/// The neumorphism preset puts its shadow filter, two mirrored layers, in the
/// definitions and applies it to the base shape; the glass presets instead
/// give the shape a translucent fill and the fixed stroke, and define only
/// their blur.
pub proof fn lemma_preset_effects(styles: CustomStyles, preset: StylePreset)
    ensures
        ({
            let g = match styles.gradient {
                Some(g) => gradient_def_text(g.angle, g.start_color@, g.stop_color@),
                None => Seq::empty(),
            };
            let effect = if preset == StylePreset::Neumorphism {
                neumorphism_filter_text(styles.width)
            } else {
                glass_filter_text(preset)
            };
            defs_text(styles, preset) == "<defs>"@ + g + effect + "</defs>"@
        }),
        preset == StylePreset::Neumorphism ==> effect_attrs_text(styles, preset)
            == neumorphism_attrs_text(),
        preset != StylePreset::Neumorphism ==> effect_attrs_text(styles, preset)
            == glass_attrs_text(preset),
        styles.width > 0 ==> decimal_text(true, (styles.width * 4) as nat, 2) == seq!['-']
            + decimal_text(false, (styles.width * 4) as nat, 2),
{
    let g = match styles.gradient {
        Some(g) => gradient_def_text(g.angle, g.start_color@, g.stop_color@),
        None => Seq::<char>::empty(),
    };
    let inner = g + effect_def_text(styles, preset);
    assert(inner.len() > 0) by {
        reveal_strlit("\"/></filter>");
        reveal_strlit("\" flood-color=\"rgba(255,255,255,0.7)\"/></filter>");
    }
    if styles.width > 0 {
        lemma_negated_text((styles.width * 4) as nat, 2);
    }
}

/// A configured gradient always fills the base shape and comes first in the
/// definitions, whatever the preset.
pub proof fn lemma_gradient_fill_wins(styles: CustomStyles, preset: StylePreset)
    requires
        styles.gradient is Some,
    ensures
        fill_text(styles, preset) == " fill=\"url(#base-gradient)\""@,
        ({
            let g = styles.gradient->Some_0;
            let def = gradient_def_text(g.angle, g.start_color@, g.stop_color@);
            defs_text(styles, preset).subrange(0, 6 + def.len() as int) == "<defs>"@ + def
        }),
        ({
            let r = rect_text(styles, preset);
            exists|head: Seq<char>, tail: Seq<char>|
                r == head + " fill=\"url(#base-gradient)\""@ + tail
        }),
{
    lemma_preset_effects(styles, preset);
    let g = styles.gradient->Some_0;
    let def = gradient_def_text(g.angle, g.start_color@, g.stop_color@);
    reveal_strlit("<defs>");
    let effect = effect_def_text(styles, preset);
    let d = defs_text(styles, preset);
    assert(d =~= "<defs>"@ + def + effect + "</defs>"@);
    assert(d.subrange(0, 6 + def.len() as int) =~= "<defs>"@ + def);
    let r = rect_text(styles, preset);
    let w = crate::text::digits(styles.width as nat);
    let h = crate::text::digits(styles.height as nat);
    let head = "<rect width=\""@ + w + "\" height=\""@ + h + "\" rx=\""@
        + styles.corner_radius.text() + "\" ry=\""@ + styles.corner_radius.text() + "\""@;
    let tail = effect_attrs_text(styles, preset) + "/>"@;
    assert(r =~= head + " fill=\"url(#base-gradient)\""@ + tail);
}

pub open spec fn all_ws(s: Seq<char>) -> bool {
    forall|i: int| 0 <= i < s.len() ==> is_ws(#[trigger] s[i])
}

proof fn lemma_trim_start_skips(x: Seq<char>, s: Seq<char>)
    requires
        all_ws(x),
    ensures
        trim_start(x + s) == trim_start(s),
    decreases x.len(),
{
    if x.len() > 0 {
        assert((x + s)[0] == x[0]);
        assert((x + s).drop_first() =~= x.drop_first() + s);
        assert(all_ws(x.drop_first())) by {
            assert forall|i: int| 0 <= i < x.drop_first().len() implies is_ws(
                #[trigger] x.drop_first()[i],
            ) by {
                assert(x.drop_first()[i] == x[i + 1]);
            }
        }
        lemma_trim_start_skips(x.drop_first(), s);
    } else {
        assert(x + s =~= s);
    }
}

proof fn lemma_trim_end_skips(s: Seq<char>, y: Seq<char>)
    requires
        all_ws(y),
    ensures
        trim_end(s + y) == trim_end(s),
    decreases y.len(),
{
    if y.len() > 0 {
        assert((s + y).last() == y.last());
        assert((s + y).drop_last() =~= s + y.drop_last());
        assert(all_ws(y.drop_last())) by {
            assert forall|i: int| 0 <= i < y.drop_last().len() implies is_ws(
                #[trigger] y.drop_last()[i],
            ) by {
                assert(y.drop_last()[i] == y[i]);
            }
        }
        lemma_trim_end_skips(s, y.drop_last());
    } else {
        assert(s + y =~= s);
    }
}

proof fn lemma_trim_start_of_ws(y: Seq<char>)
    requires
        all_ws(y),
    ensures
        trim_start(y).len() == 0,
    decreases y.len(),
{
    if y.len() > 0 {
        assert(all_ws(y.drop_first())) by {
            assert forall|i: int| 0 <= i < y.drop_first().len() implies is_ws(
                #[trigger] y.drop_first()[i],
            ) by {
                assert(y.drop_first()[i] == y[i + 1]);
            }
        }
        lemma_trim_start_of_ws(y.drop_first());
    }
}

proof fn lemma_trim_start_append(s: Seq<char>, y: Seq<char>)
    requires
        all_ws(y),
    ensures
        trim_start(s).len() > 0 ==> trim_start(s + y) == trim_start(s) + y,
        trim_start(s).len() == 0 ==> trim_start(s + y).len() == 0,
    decreases s.len(),
{
    if s.len() == 0 {
        assert(s + y =~= y);
        lemma_trim_start_of_ws(y);
    } else {
        assert((s + y)[0] == s[0]);
        if is_ws(s[0]) {
            assert((s + y).drop_first() =~= s.drop_first() + y);
            lemma_trim_start_append(s.drop_first(), y);
        }
    }
}

/// Whitespace around a string does not survive trimming.
proof fn lemma_trim_ignores(x: Seq<char>, s: Seq<char>, y: Seq<char>)
    requires
        all_ws(x),
        all_ws(y),
    ensures
        trim(x + s + y) == trim(s),
{
    assert(x + s + y =~= x + (s + y));
    lemma_trim_start_skips(x, s + y);
    lemma_trim_start_append(s, y);
    if trim_start(s).len() > 0 {
        lemma_trim_end_skips(trim_start(s), y);
    }
}

pub open spec fn no_comma(s: Seq<char>) -> bool {
    forall|i: int| 0 <= i < s.len() ==> s[i] != ','
}

/// `linear-gradient(` `p0` `,` `p1` `,` `p2` `)`.
pub open spec fn descriptor(p0: Seq<char>, p1: Seq<char>, p2: Seq<char>) -> Seq<char> {
    gradient_prefix() + p0 + seq![','] + p1 + seq![','] + p2 + seq![')']
}

proof fn lemma_descriptor_parts(p0: Seq<char>, p1: Seq<char>, p2: Seq<char>)
    requires
        no_comma(p0),
        no_comma(p1),
        no_comma(p2),
    ensures
        gradient_body(descriptor(p0, p1, p2)) == Some(p0 + seq![','] + p1 + seq![','] + p2),
        split_commas(p0 + seq![','] + p1 + seq![','] + p2) == seq![p0, p1, p2],
{
    let d = descriptor(p0, p1, p2);
    assert(d[0] == 'l');
    assert(d.last() == ')');
    assert(trim_start(d) == d);
    assert(trim_end(d) == d);
    assert(d.subrange(0, 16) =~= gradient_prefix());
    let body = p0 + seq![','] + p1 + seq![','] + p2;
    assert(d.subrange(16, d.len() - 1) =~= body);
    let rest = p1 + seq![','] + p2;
    assert(body[p0.len() as int] == ',');
    lemma_split_at_comma(body, p0.len() as int);
    assert(body.subrange(0, p0.len() as int) =~= p0);
    assert(body.subrange(p0.len() as int + 1, body.len() as int) =~= rest);
    assert(rest[p1.len() as int] == ',');
    lemma_split_at_comma(rest, p1.len() as int);
    assert(rest.subrange(0, p1.len() as int) =~= p1);
    assert(rest.subrange(p1.len() as int + 1, rest.len() as int) =~= p2);
    lemma_split_no_comma(p2);
    assert(split_commas(body) =~= seq![p0, p1, p2]);
}

/// Whitespace inside the parentheses, before and after each of the three
/// parts, changes nothing: the descriptor parses to the same gradient, or
/// fails alike.
pub proof fn lemma_inner_whitespace_ignored(
    a: Seq<char>,
    b: Seq<char>,
    c: Seq<char>,
    w: Seq<Seq<char>>,
)
    requires
        no_comma(a),
        no_comma(b),
        no_comma(c),
        w.len() == 6,
        forall|i: int| 0 <= i < 6 ==> all_ws(#[trigger] w[i]),
    ensures
        gradient_of(descriptor(w[0] + a + w[1], w[2] + b + w[3], w[4] + c + w[5])) == gradient_of(
            descriptor(a, b, c),
        ),
{
    assert(all_ws(w[0]) && all_ws(w[1]) && all_ws(w[2]) && all_ws(w[3]) && all_ws(w[4])
        && all_ws(w[5]));
    let q0 = w[0] + a + w[1];
    let q1 = w[2] + b + w[3];
    let q2 = w[4] + c + w[5];
    assert forall|x: Seq<char>, s: Seq<char>, y: Seq<char>|
        all_ws(x) && all_ws(y) && no_comma(s) implies #[trigger] no_comma(x + s + y) by {
        assert forall|i: int| 0 <= i < (x + s + y).len() implies (x + s + y)[i] != ',' by {
            if i < x.len() {
                assert((x + s + y)[i] == x[i]);
                assert(is_ws(x[i]));
            } else if i < x.len() + s.len() {
                assert((x + s + y)[i] == s[i - x.len()]);
            } else {
                assert((x + s + y)[i] == y[i - x.len() - s.len()]);
                assert(is_ws(y[i - x.len() - s.len()]));
            }
        }
    }
    assert(no_comma(q0) && no_comma(q1) && no_comma(q2));
    lemma_descriptor_parts(q0, q1, q2);
    lemma_descriptor_parts(a, b, c);
    lemma_trim_ignores(w[0], a, w[1]);
    lemma_trim_ignores(w[2], b, w[3]);
    lemma_trim_ignores(w[4], c, w[5]);
}

/// Whitespace before and after a gradient descriptor changes nothing: it
/// parses to the same gradient, or fails alike.
pub proof fn lemma_outer_whitespace_ignored(x: Seq<char>, s: Seq<char>, y: Seq<char>)
    requires
        all_ws(x),
        all_ws(y),
    ensures
        gradient_of(x + s + y) == gradient_of(s),
{
    lemma_trim_ignores(x, s, y);
}

} // verus!
