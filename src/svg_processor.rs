use vstd::prelude::*;
use vstd::string::*;

use crate::gradient_parser::{all_digits, char_is_ws, digits_value, is_digit, is_ws};
use crate::text::{pow10, push_ratio, ratio_text};
use crate::{CustomStyles, Decimal, IconEngineError};

verus! {

/// A node of a parsed document, reduced to what icon extraction reads: its
/// local tag name and its attributes as (local name, value) pairs, in order.
/// Nodes that are not elements have an empty tag name and no attributes.
#[derive(Debug, Clone)]
pub struct XmlNode {
    pub tag: String,
    pub attributes: Vec<(String, String)>,
}

pub type XmlNodeView = (Seq<char>, Seq<(Seq<char>, Seq<char>)>);

impl XmlNode {
    pub open spec fn view(&self) -> XmlNodeView {
        (self.tag@, self.attributes@.map_values(|p: (String, String)| (p.0@, p.1@)))
    }
}

/// The nodes of the document that `text` holds, the root element and then
/// every node below it in document order; or, where `text` is not a
/// well-formed document, the parser's description of the fault.
pub uninterp spec fn xml_nodes_of(text: Seq<char>) -> Result<Seq<XmlNodeView>, Seq<char>>;

/// Relies on `roxmltree::Document::parse` to parse the text, and on
/// `Node::descendants` (the node itself, then its descendants in document
/// order), `Node::tag_name` and `Node::attributes` to read the root element
/// and everything under it. The root element is always there. A fault is
/// described by the parser error's `Display` text.
#[verifier::external_body]
fn parse_xml_nodes(text: &str) -> (r: Result<Vec<XmlNode>, String>)
    ensures
        match xml_nodes_of(text@) {
            Err(m) => r is Err && r->Err_0@ == m,
            Ok(ns) => r is Ok && r->Ok_0.len() == ns.len() && r->Ok_0.len() >= 1 && forall|i: int|
                0 <= i < ns.len() ==> (#[trigger] r->Ok_0[i]).view() == ns[i],
        },
{
    match roxmltree::Document::parse(text) {
        Ok(doc) => Ok(
            doc.root_element().descendants().map(
                |n| XmlNode {
                    tag: n.tag_name().name().to_string(),
                    attributes: n.attributes().map(
                        |a| (a.name().to_string(), a.value().to_string()),
                    ).collect(),
                },
            ).collect(),
        ),
        Err(e) => Err(e.to_string()),
    }
}

/// The value of the first attribute named `name`.
pub open spec fn find_attr(attrs: Seq<(Seq<char>, Seq<char>)>, name: Seq<char>) -> Option<
    Seq<char>,
>
    decreases attrs.len(),
{
    if attrs.len() == 0 {
        None
    } else if attrs[0].0 == name {
        Some(attrs[0].1)
    } else {
        find_attr(attrs.drop_first(), name)
    }
}

/// The `d` of the first node, from `from` on, that is a `path` with a `d`.
pub open spec fn first_path_from(ns: Seq<XmlNodeView>, from: int) -> Option<Seq<char>>
    decreases ns.len() - from,
{
    if from < 0 || from >= ns.len() {
        None
    } else if ns[from].0 == "path"@ && find_attr(ns[from].1, "d"@) is Some {
        find_attr(ns[from].1, "d"@)
    } else {
        first_path_from(ns, from + 1)
    }
}

/// The pieces of `s` between whitespace characters, empty ones included.
pub open spec fn ws_split(s: Seq<char>) -> Seq<Seq<char>>
    decreases s.len(),
{
    if s.len() == 0 {
        seq![Seq::<char>::empty()]
    } else {
        let rest = ws_split(s.drop_last());
        if is_ws(s.last()) {
            rest.push(Seq::empty())
        } else {
            rest.update(rest.len() - 1, rest.last().push(s.last()))
        }
    }
}

/// How many decimal digits `b` starts with.
pub open spec fn lead_digits(b: Seq<char>) -> nat
    decreases b.len(),
{
    if b.len() > 0 && is_digit(b[0]) {
        1 + lead_digits(b.drop_first())
    } else {
        0
    }
}

/// The parts of a token written as `f32::from_str` reads a finite number:
/// an optional sign, integer digits, optionally a point and fraction digits
/// (at least one digit in all), and optionally `e` or `E`, an optional sign
/// and one or more exponent digits. Gives the sign, the integer digits, the
/// fraction digits, the exponent's sign and the exponent digits.
#[verifier::opaque]
pub open spec fn number_parts(w: Seq<char>) -> Option<
    (bool, Seq<char>, Seq<char>, bool, Seq<char>),
> {
    let signed = w.len() > 0 && (w[0] == '+' || w[0] == '-');
    let neg = w.len() > 0 && w[0] == '-';
    let b = if signed {
        w.drop_first()
    } else {
        w
    };
    let k = lead_digits(b);
    let ip = b.subrange(0, k as int);
    let r1 = b.subrange(k as int, b.len() as int);
    let dotted = r1.len() > 0 && r1[0] == '.';
    let r1b = if dotted {
        r1.drop_first()
    } else {
        r1
    };
    let k2 = if dotted {
        lead_digits(r1b)
    } else {
        0
    };
    let fp = r1b.subrange(0, k2 as int);
    let r2 = r1b.subrange(k2 as int, r1b.len() as int);
    if ip.len() + fp.len() == 0 {
        None
    } else if r2.len() == 0 {
        Some((neg, ip, fp, false, Seq::empty()))
    } else if r2[0] == 'e' || r2[0] == 'E' {
        let r3 = r2.drop_first();
        let eneg = r3.len() > 0 && r3[0] == '-';
        let ed = if r3.len() > 0 && (r3[0] == '+' || r3[0] == '-') {
            r3.drop_first()
        } else {
            r3
        };
        if ed.len() > 0 && all_digits(ed) {
            Some((neg, ip, fp, eneg, ed))
        } else {
            None
        }
    } else {
        None
    }
}

/// The pieces that are numbers, in order.
pub open spec fn number_tokens(ps: Seq<Seq<char>>) -> Seq<Seq<char>>
    decreases ps.len(),
{
    if ps.len() == 0 {
        Seq::empty()
    } else {
        number_tokens(ps.drop_last()) + if number_parts(ps.last()) is Some {
            seq![ps.last()]
        } else {
            Seq::empty()
        }
    }
}

/// The numbers of a `viewBox` value: its whitespace-separated tokens that
/// are numbers. Other tokens drop out.
pub open spec fn view_box_numbers(s: Seq<char>) -> Seq<Seq<char>> {
    number_tokens(ws_split(s))
}

/// `u / 10^p` with the trailing zeros of `u` taken off against `p`.
pub open spec fn reduced(u: nat, p: nat) -> (nat, nat)
    decreases p,
{
    if p > 0 && u % 10 == 0 {
        reduced(u / 10, (p - 1) as nat)
    } else {
        (u, p)
    }
}

/// The size a view box side stands for, as `units / 10^places` with the
/// fewest places. The size is supported where the token has at most thirty
/// characters, the number is positive, and it is `units / 10^places` with
/// `units` below 10^9 and at most nine places; otherwise `None`.
pub open spec fn side_of(w: Seq<char>) -> Option<Decimal> {
    if w.len() > 30 {
        None
    } else {
        match number_parts(w) {
            None => None,
            Some((neg, ip, fp, eneg, ed)) => {
                let m = digits_value(ip + fp);
                let x = digits_value(ed) as int;
                let e = (if eneg {
                    -x
                } else {
                    x
                }) - fp.len();
                if neg {
                    None
                } else {
                    side_from(m, e)
                }
            },
        }
    }
}

/// The size `m · 10^e`, where it is positive, below 10^9 and has at most
/// nine decimal places.
pub open spec fn side_from(m: nat, e: int) -> Option<Decimal> {
    if m == 0 {
        None
    } else if e >= 0 {
        let u = m * pow10(e as nat);
        if u < 1_000_000_000 {
            Some(Decimal { units: u as i64, places: 0 })
        } else {
            None
        }
    } else {
        let up = reduced(m, (-e) as nat);
        if up.0 < 1_000_000_000 && up.1 <= 9 {
            Some(Decimal { units: up.0 as i64, places: up.1 as u32 })
        } else {
            None
        }
    }
}

/// The width and height of a source icon's view box.
#[derive(Debug, Clone, Copy, PartialEq, Eq, Structural)]
pub struct ViewBox {
    pub width: Decimal,
    pub height: Decimal,
}

impl ViewBox {
    /// Both sides positive and within the supported size.
    pub open spec fn wf(&self) -> bool {
        &&& 0 < self.width.units < 1_000_000_000
        &&& self.width.places <= 9
        &&& 0 < self.height.units < 1_000_000_000
        &&& self.height.places <= 9
    }
}

/// The path data and view box of a source icon.
#[derive(Debug, Clone)]
pub struct SvgIcon {
    pub path_data: String,
    pub viewbox: ViewBox,
}

/// The icon that the nodes of a document describe: an `svg` root with a
/// `viewBox` of exactly four numbers whose last two are supported sizes,
/// and a `path` with a `d` somewhere in the document. Otherwise the
/// description of what is wrong.
pub open spec fn icon_of_nodes(ns: Seq<XmlNodeView>) -> Result<(Seq<char>, ViewBox), Seq<char>> {
    if ns.len() == 0 {
        Err("Document has no root element"@)
    } else if ns[0].0 != "svg"@ {
        Err("Root element is not <svg>"@)
    } else {
        match find_attr(ns[0].1, "viewBox"@) {
            None => Err("SVG does not have a viewBox attribute"@),
            Some(vb) => {
                let nums = view_box_numbers(vb);
                if nums.len() != 4 {
                    Err("viewBox attribute has invalid format. Expected 4 numbers."@)
                } else {
                    match (side_of(nums[2]), side_of(nums[3])) {
                        (Some(w), Some(h)) => match first_path_from(ns, 0) {
                            None => Err("No <path> element with a 'd' attribute found"@),
                            Some(d) => Ok((d, ViewBox { width: w, height: h })),
                        },
                        _ => Err(
                            "viewBox width and height must be positive, below 10^9 and with at most 9 decimal places"@,
                        ),
                    }
                }
            },
        }
    }
}

/// What reading the markup `text` gives: the icon, or the description of
/// what is wrong with the markup.
pub open spec fn svg_outcome(text: Seq<char>) -> Result<(Seq<char>, ViewBox), Seq<char>> {
    match xml_nodes_of(text) {
        Err(m) => Err(m),
        Ok(ns) => icon_of_nodes(ns),
    }
}

/// The icon that the markup `text` describes, if any.
pub open spec fn icon_of(text: Seq<char>) -> Option<(Seq<char>, ViewBox)> {
    match svg_outcome(text) {
        Ok(x) => Some(x),
        Err(_) => None,
    }
}

/// Whether two strings are equal.
fn str_eq(a: &str, b: &str) -> (r: bool)
    ensures
        r == (a@ == b@),
{
    let n = a.unicode_len();
    if n != b.unicode_len() {
        return false;
    }
    let mut i: usize = 0;
    while i < n
        invariant
            i <= n == a@.len() == b@.len(),
            a@.subrange(0, i as int) == b@.subrange(0, i as int),
        decreases n - i,
    {
        if a.get_char(i) != b.get_char(i) {
            return false;
        }
        proof {
            assert(a@.subrange(0, i + 1) =~= b@.subrange(0, i + 1)) by {
                assert(a@.subrange(0, i + 1) =~= a@.subrange(0, i as int).push(a@[i as int]));
                assert(b@.subrange(0, i + 1) =~= b@.subrange(0, i as int).push(b@[i as int]));
            }
        }
        i = i + 1;
    }
    proof {
        assert(a@ =~= a@.subrange(0, n as int));
        assert(b@ =~= b@.subrange(0, n as int));
    }
    true
}

fn attr_of(node: &XmlNode, name: &str) -> (r: Option<String>)
    ensures
        match find_attr(node.view().1, name@) {
            None => r is None,
            Some(v) => r is Some && r->Some_0@ == v,
        },
{
    let ghost attrs = node.view().1;
    let mut i: usize = 0;
    proof {
        assert(attrs.subrange(0, attrs.len() as int) =~= attrs);
    }
    while i < node.attributes.len()
        invariant
            i <= node.attributes.len(),
            attrs == node.view().1,
            find_attr(attrs, name@) == find_attr(attrs.subrange(i as int, attrs.len() as int), name@),
        decreases node.attributes.len() - i,
    {
        let ghost rest = attrs.subrange(i as int, attrs.len() as int);
        proof {
            assert(rest.drop_first() =~= attrs.subrange(i + 1, attrs.len() as int));
            assert(rest[0] == attrs[i as int]);
            assert(attrs[i as int] == (node.attributes@[i as int].0@, node.attributes@[i as int].1@));
        }
        if str_eq(node.attributes[i].0.as_str(), name) {
            return Some(node.attributes[i].1.clone());
        }
        i = i + 1;
    }
    None
}

fn is_path_with_d(node: &XmlNode) -> (r: Option<String>)
    ensures
        (node.view().0 == "path"@ && find_attr(node.view().1, "d"@) is Some) ==> r is Some
            && r->Some_0@ == find_attr(node.view().1, "d"@)->Some_0,
        !(node.view().0 == "path"@ && find_attr(node.view().1, "d"@) is Some) ==> r is None,
{
    if str_eq(node.tag.as_str(), "path") {
        attr_of(node, "d")
    } else {
        None
    }
}

proof fn lemma_ws_split_step(s: Seq<char>, i: int)
    requires
        0 <= i < s.len(),
    ensures
        ws_split(s.subrange(0, i + 1)) == (if is_ws(s[i]) {
            ws_split(s.subrange(0, i)).push(Seq::empty())
        } else {
            let r = ws_split(s.subrange(0, i));
            r.update(r.len() - 1, r.last().push(s[i]))
        }),
{
    assert(s.subrange(0, i + 1).drop_last() =~= s.subrange(0, i));
}

proof fn lemma_lead_digits(b: Seq<char>, k: int)
    requires
        0 <= k <= b.len(),
        forall|j: int| 0 <= j < k ==> is_digit(#[trigger] b[j]),
        k == b.len() || !is_digit(b[k]),
    ensures
        lead_digits(b) == k,
    decreases k,
{
    if k > 0 {
        let t = b.drop_first();
        assert forall|j: int| 0 <= j < k - 1 implies is_digit(#[trigger] t[j]) by {
            assert(t[j] == b[j + 1]);
        }
        lemma_lead_digits(t, k - 1);
    }
}

proof fn lemma_digits_value_push(s: Seq<char>, c: char)
    ensures
        digits_value(s.push(c)) == digits_value(s) * 10 + (c as nat - '0' as nat) as nat,
{
    assert(s.push(c).drop_last() =~= s);
}

/// The value of the digits `s@[i0..i1]` followed by the digits `s@[f0..f1]`.
fn digits_u128(s: &str, i0: usize, i1: usize, f0: usize, f1: usize) -> (r: u128)
    requires
        i0 <= i1 <= s@.len(),
        f0 <= f1 <= s@.len(),
        (i1 - i0) + (f1 - f0) <= 30,
        all_digits(s@.subrange(i0 as int, i1 as int) + s@.subrange(f0 as int, f1 as int)),
    ensures
        r == digits_value(s@.subrange(i0 as int, i1 as int) + s@.subrange(f0 as int, f1 as int)),
        r < pow10(((i1 - i0) + (f1 - f0)) as nat),
{
    let _n = s.unicode_len();
    let ghost all = s@.subrange(i0 as int, i1 as int) + s@.subrange(f0 as int, f1 as int);
    let ilen = i1 - i0;
    let total = ilen + (f1 - f0);
    let mut v: u128 = 0;
    let mut j: usize = 0;
    proof {
        assert(all.subrange(0, 0) =~= Seq::<char>::empty());
        reveal_with_fuel(pow10, 31);
        assert(pow10(30) == 1_000_000_000_000_000_000_000_000_000_000);
    }
    while j < total
        invariant
            j <= total <= 30,
            total == all.len(),
            ilen == i1 - i0,
            i0 <= i1 <= s@.len() == _n,
            f0 <= f1 <= s@.len(),
            total == ilen + (f1 - f0),
            all == s@.subrange(i0 as int, i1 as int) + s@.subrange(f0 as int, f1 as int),
            all_digits(all),
            v == digits_value(all.subrange(0, j as int)),
            v < pow10(j as nat),
            pow10(30) == 1_000_000_000_000_000_000_000_000_000_000,
        decreases total - j,
    {
        let c = if j < ilen {
            s.get_char(i0 + j)
        } else {
            s.get_char(f0 + (j - ilen))
        };
        proof {
            assert(all[j as int] == c);
            assert(is_digit(all[j as int]));
            assert(all.subrange(0, j + 1) =~= all.subrange(0, j as int).push(c));
            lemma_digits_value_push(all.subrange(0, j as int), c);
            crate::text::lemma_pow10_mono((j + 1) as nat, 30);
        }
        v = v * 10 + (c as u128 - '0' as u128);
        j = j + 1;
    }
    proof {
        assert(all.subrange(0, total as int) =~= all);
    }
    v
}

/// The end of the run of digits that starts at `from`.
fn scan_digits(s: &str, from: usize, hi: usize) -> (r: usize)
    requires
        from <= hi <= s@.len(),
    ensures
        from <= r <= hi,
        lead_digits(s@.subrange(from as int, hi as int)) == r - from,
        all_digits(s@.subrange(from as int, r as int)),
        r < hi ==> !is_digit(s@[r as int]),
{
    let mut k = from;
    while k < hi && '0' <= s.get_char(k) && s.get_char(k) <= '9'
        invariant
            from <= k <= hi <= s@.len(),
            forall|j: int| from <= j < k ==> is_digit(#[trigger] s@[j]),
        decreases hi - k,
    {
        k = k + 1;
    }
    let ghost b = s@.subrange(from as int, hi as int);
    proof {
        assert forall|j: int| 0 <= j < k - from implies is_digit(#[trigger] b[j]) by {
            assert(b[j] == s@[from + j]);
        }
        if k < hi {
            assert(b[k - from] == s@[k as int]);
        }
        lemma_lead_digits(b, k - from);
        let d = s@.subrange(from as int, k as int);
        assert forall|j: int| 0 <= j < d.len() implies is_digit(#[trigger] d[j]) by {
            assert(d[j] == s@[from + j]);
        }
    }
    k
}

/// Where the parts of a number stand in a string.
struct NumberSpan {
    neg: bool,
    i0: usize,
    i1: usize,
    f0: usize,
    f1: usize,
    eneg: bool,
    e0: usize,
    e1: usize,
}

spec fn span_holds(
    s: Seq<char>,
    lo: int,
    hi: int,
    t: NumberSpan,
    parts: (bool, Seq<char>, Seq<char>, bool, Seq<char>),
) -> bool {
    &&& lo <= t.i0 <= t.i1 <= t.f0 <= t.f1 <= t.e0 <= t.e1 <= hi
    &&& t.neg == parts.0
    &&& s.subrange(t.i0 as int, t.i1 as int) == parts.1
    &&& s.subrange(t.f0 as int, t.f1 as int) == parts.2
    &&& t.eneg == parts.3
    &&& s.subrange(t.e0 as int, t.e1 as int) == parts.4
}

/// Finds the parts of the number that `s@[lo..hi]` spells, if it is one.
#[verifier::rlimit(60)]
fn read_number(s: &str, lo: usize, hi: usize) -> (r: Option<NumberSpan>)
    requires
        lo <= hi <= s@.len(),
    ensures
        match number_parts(s@.subrange(lo as int, hi as int)) {
            None => r is None,
            Some(parts) => r is Some && span_holds(s@, lo as int, hi as int, r->Some_0, parts),
        },
        r is Some ==> all_digits(s@.subrange(r->Some_0.i0 as int, r->Some_0.i1 as int))
            && all_digits(s@.subrange(r->Some_0.f0 as int, r->Some_0.f1 as int))
            && all_digits(s@.subrange(r->Some_0.e0 as int, r->Some_0.e1 as int)),
{
    reveal(number_parts);
    let ghost w = s@.subrange(lo as int, hi as int);
    let neg = lo < hi && s.get_char(lo) == '-';
    let signed = lo < hi && (s.get_char(lo) == '+' || s.get_char(lo) == '-');
    let b0 = if signed {
        lo + 1
    } else {
        lo
    };
    let ghost b = s@.subrange(b0 as int, hi as int);
    proof {
        if lo < hi {
            assert(w[0] == s@[lo as int]);
        }
        if signed {
            assert(b =~= w.drop_first());
        } else {
            assert(b =~= w);
        }
    }
    let i1 = scan_digits(s, b0, hi);
    let ghost r1 = s@.subrange(i1 as int, hi as int);
    proof {
        assert(b.subrange(0, i1 - b0) =~= s@.subrange(b0 as int, i1 as int));
        assert(b.subrange(i1 - b0, b.len() as int) =~= r1);
    }
    let dotted = i1 < hi && s.get_char(i1) == '.';
    let f0 = if dotted {
        i1 + 1
    } else {
        i1
    };
    proof {
        if i1 < hi {
            assert(r1[0] == s@[i1 as int]);
        }
        if dotted {
            assert(r1.drop_first() =~= s@.subrange(f0 as int, hi as int));
        }
    }
    let f1 = if dotted {
        scan_digits(s, f0, hi)
    } else {
        f0
    };
    let ghost r2 = s@.subrange(f1 as int, hi as int);
    proof {
        let r1b = s@.subrange(f0 as int, hi as int);
        assert(r1b.subrange(0, f1 - f0) =~= s@.subrange(f0 as int, f1 as int));
        assert(r1b.subrange(f1 - f0, r1b.len() as int) =~= r2);
        if !dotted {
            assert(s@.subrange(f0 as int, f1 as int) =~= Seq::<char>::empty());
        }
    }
    if (i1 - b0) + (f1 - f0) == 0 {
        return None;
    }
    if f1 == hi {
        proof {
            assert(r2 =~= Seq::<char>::empty());
            assert(s@.subrange(hi as int, hi as int) =~= Seq::<char>::empty());
        }
        return Some(
            NumberSpan { neg, i0: b0, i1, f0, f1, eneg: false, e0: hi, e1: hi },
        );
    }
    let c = s.get_char(f1);
    proof {
        assert(r2[0] == c);
    }
    if c != 'e' && c != 'E' {
        return None;
    }
    let g = f1 + 1;
    let ghost r3 = s@.subrange(g as int, hi as int);
    proof {
        assert(r2.drop_first() =~= r3);
        if g < hi {
            assert(r3[0] == s@[g as int]);
        }
    }
    let eneg = g < hi && s.get_char(g) == '-';
    let esigned = g < hi && (s.get_char(g) == '+' || s.get_char(g) == '-');
    let e0 = if esigned {
        g + 1
    } else {
        g
    };
    proof {
        if esigned {
            assert(r3.drop_first() =~= s@.subrange(e0 as int, hi as int));
        } else {
            assert(r3 =~= s@.subrange(e0 as int, hi as int));
        }
    }
    let e1 = scan_digits(s, e0, hi);
    let ghost ed = s@.subrange(e0 as int, hi as int);
    if e1 < hi || e0 == hi {
        proof {
            if e1 < hi {
                assert(ed[e1 - e0] == s@[e1 as int]);
                assert(!all_digits(ed));
            }
        }
        return None;
    }
    Some(NumberSpan { neg, i0: b0, i1, f0, f1, eneg, e0, e1 })
}

/// The supported size that the token `s@[lo..hi]` stands for, if any.
fn side_of_token(s: &str, lo: usize, hi: usize) -> (r: Option<Decimal>)
    requires
        lo <= hi <= s@.len(),
    ensures
        r == side_of(s@.subrange(lo as int, hi as int)),
        r is Some ==> 0 < r->Some_0.units < 1_000_000_000 && r->Some_0.places <= 9,
{
    if hi - lo > 30 {
        return None;
    }
    let t = match read_number(s, lo, hi) {
        None => {
            return None;
        },
        Some(t) => t,
    };
    proof {
        let ip = s@.subrange(t.i0 as int, t.i1 as int);
        let fp = s@.subrange(t.f0 as int, t.f1 as int);
        lemma_all_digits_concat(ip, fp);
        let ed = s@.subrange(t.e0 as int, t.e1 as int);
        assert(ed + s@.subrange(t.e1 as int, t.e1 as int) =~= ed);
    }
    let m = digits_u128(s, t.i0, t.i1, t.f0, t.f1);
    let x = digits_u128(s, t.e0, t.e1, t.e1, t.e1);
    proof {
        lemma_pow10_30();
        crate::text::lemma_pow10_mono(((t.i1 - t.i0) + (t.f1 - t.f0)) as nat, 30);
        crate::text::lemma_pow10_mono(((t.e1 - t.e0) + 0) as nat, 30);
    }
    let fl = (t.f1 - t.f0) as i128;
    let e: i128 = (if t.eneg {
        -(x as i128)
    } else {
        x as i128
    }) - fl;
    if t.neg {
        return None;
    }
    side_value(m, e)
}

proof fn lemma_pow10_30()
    ensures
        pow10(30) == 1_000_000_000_000_000_000_000_000_000_000,
{
    reveal_with_fuel(pow10, 31);
}

proof fn lemma_all_digits_concat(a: Seq<char>, b: Seq<char>)
    requires
        all_digits(a),
        all_digits(b),
    ensures
        all_digits(a + b),
{
    assert forall|j: int| 0 <= j < (a + b).len() implies is_digit(#[trigger] (a + b)[j]) by {
        if j < a.len() {
            assert((a + b)[j] == a[j]);
        } else {
            assert((a + b)[j] == b[j - a.len()]);
        }
    }
}

fn side_value(m: u128, e: i128) -> (r: Option<Decimal>)
    requires
        m < 1_000_000_000_000_000_000_000_000_000_000,
        e > -2_000_000_000_000_000_000_000_000_000_000,
    ensures
        r == side_from(m as nat, e as int),
        r is Some ==> 0 < r->Some_0.units < 1_000_000_000 && r->Some_0.places <= 9,
{
    if m == 0 {
        return None;
    }
    if e >= 0 {
        if e > 9 || m >= 1_000_000_000 {
            proof {
                crate::text::lemma_pow10_pos(e as nat);
                if e > 9 {
                    crate::text::lemma_pow10_mono(10, e as nat);
                    reveal_with_fuel(pow10, 11);
                }
                let pw = pow10(e as nat);
                assert(m * pw >= 1_000_000_000) by (nonlinear_arith)
                    requires
                        m >= 1,
                        pw >= 1,
                        m >= 1_000_000_000 || pw >= 10_000_000_000,
                ;
            }
            return None;
        }
        let pw = crate::text::pow10_u128(e as u32);
        proof {
            crate::text::lemma_pow10_mono(e as nat, 9);
            reveal_with_fuel(pow10, 10);
            assert(m * pw <= 1_000_000_000 * 1_000_000_000) by (nonlinear_arith)
                requires
                    m < 1_000_000_000,
                    pw <= 1_000_000_000,
            ;
        }
        let u = m * pw;
        proof {
            crate::text::lemma_pow10_pos(e as nat);
            assert(u >= 1) by (nonlinear_arith)
                requires
                    u == m * pw,
                    m >= 1,
                    pw >= 1,
            ;
        }
        if u < 1_000_000_000 {
            Some(Decimal { units: u as i64, places: 0 })
        } else {
            None
        }
    } else {
        let mut u = m;
        let mut p: u128 = (-e) as u128;
        while p > 0 && u % 10 == 0
            invariant
                0 < u <= m,
                reduced(m as nat, (-e) as nat) == reduced(u as nat, p as nat),
            decreases p,
        {
            u = u / 10;
            p = p - 1;
        }
        if u < 1_000_000_000 && p <= 9 {
            Some(Decimal { units: u as i64, places: p as u32 })
        } else {
            None
        }
    }
}

proof fn lemma_number_tokens_push(done: Seq<Seq<char>>, p: Seq<char>)
    ensures
        number_tokens(done.push(p)) == number_tokens(done) + if number_parts(p) is Some {
            seq![p]
        } else {
            Seq::<Seq<char>>::empty()
        },
{
    assert(done.push(p).drop_last() =~= done);
}

/// Where the number tokens of `s` stand, in order.
fn view_box_tokens(s: &str) -> (r: Vec<(usize, usize)>)
    ensures
        r@.len() == view_box_numbers(s@).len(),
        forall|k: int|
            0 <= k < r@.len() ==> (#[trigger] r@[k]).0 <= r@[k].1 <= s@.len() && s@.subrange(
                r@[k].0 as int,
                r@[k].1 as int,
            ) == view_box_numbers(s@)[k],
{
    let n = s.unicode_len();
    let mut toks: Vec<(usize, usize)> = Vec::new();
    let mut start: usize = 0;
    let mut i: usize = 0;
    let ghost mut done: Seq<Seq<char>> = Seq::empty();
    proof {
        assert(s@.subrange(0, 0) =~= Seq::<char>::empty());
        assert(ws_split(s@.subrange(0, 0)) =~= done.push(s@.subrange(0, 0)));
    }
    while i < n
        invariant
            start <= i <= n == s@.len(),
            ws_split(s@.subrange(0, i as int)) == done.push(s@.subrange(start as int, i as int)),
            toks@.len() == number_tokens(done).len(),
            forall|k: int|
                0 <= k < toks@.len() ==> (#[trigger] toks@[k]).0 <= toks@[k].1 <= s@.len()
                    && s@.subrange(toks@[k].0 as int, toks@[k].1 as int) == number_tokens(done)[k],
        decreases n - i,
    {
        proof {
            lemma_ws_split_step(s@, i as int);
        }
        if char_is_ws(s.get_char(i)) {
            let is_num = read_number(s, start, i).is_some();
            let ghost p = s@.subrange(start as int, i as int);
            proof {
                lemma_number_tokens_push(done, p);
                assert(s@.subrange(i + 1, i + 1) =~= Seq::<char>::empty());
            }
            if is_num {
                toks.push((start, i));
            }
            proof {
                done = done.push(p);
            }
            start = i + 1;
        } else {
            proof {
                assert(s@.subrange(start as int, i + 1) =~= s@.subrange(start as int, i as int).push(
                    s@[i as int],
                ));
                assert(ws_split(s@.subrange(0, i + 1)) =~= done.push(
                    s@.subrange(start as int, i + 1),
                ));
            }
        }
        i = i + 1;
    }
    let is_num = read_number(s, start, n).is_some();
    proof {
        let p = s@.subrange(start as int, n as int);
        assert(s@.subrange(0, n as int) =~= s@);
        lemma_number_tokens_push(done, p);
    }
    if is_num {
        toks.push((start, n));
    }
    toks
}

fn parse_error(msg: &str) -> (r: IconEngineError)
    ensures
        r is SvgParsingError && r->SvgParsingError_0@ == msg@,
{
    IconEngineError::SvgParsingError(String::from_str(msg))
}

/// The views of a document's nodes.
pub open spec fn nodes_view(nodes: Seq<XmlNode>) -> Seq<XmlNodeView> {
    nodes.map_values(|n: XmlNode| n.view())
}

/// Reads an icon from the nodes of a parsed document: the `d` of the first
/// `path` that has one, and the width and height of the root's view box.
/// The origin of the view box is not kept.
pub fn icon_from_nodes(nodes: &Vec<XmlNode>) -> (r: Result<SvgIcon, IconEngineError>)
    ensures
        match icon_of_nodes(nodes_view(nodes@)) {
            Ok((d, vb)) => r is Ok && r->Ok_0.path_data@ == d && r->Ok_0.viewbox == vb,
            Err(m) => r is Err && r->Err_0 is SvgParsingError && r->Err_0->SvgParsingError_0@ == m,
        },
        r is Ok ==> r->Ok_0.viewbox.wf(),
{
    let ghost ns = nodes_view(nodes@);
    if nodes.len() == 0 {
        return Err(parse_error("Document has no root element"));
    }
    let root = &nodes[0];
    proof {
        assert(ns[0] == root.view());
    }
    if !str_eq(root.tag.as_str(), "svg") {
        return Err(parse_error("Root element is not <svg>"));
    }
    let vb = match attr_of(root, "viewBox") {
        Some(v) => v,
        None => {
            return Err(parse_error("SVG does not have a viewBox attribute"));
        },
    };
    let toks = view_box_tokens(vb.as_str());
    if toks.len() != 4 {
        return Err(parse_error("viewBox attribute has invalid format. Expected 4 numbers."));
    }
    let w = side_of_token(vb.as_str(), toks[2].0, toks[2].1);
    let h = side_of_token(vb.as_str(), toks[3].0, toks[3].1);
    proof {
        assert(toks@[2] == toks[2]);
        assert(toks@[3] == toks[3]);
    }
    let (width, height) = match (w, h) {
        (Some(w), Some(h)) => (w, h),
        _ => {
            return Err(
                parse_error(
                    "viewBox width and height must be positive, below 10^9 and with at most 9 decimal places",
                ),
            );
        },
    };
    let viewbox = ViewBox { width, height };
    proof {
        assert(icon_of_nodes(ns) == match first_path_from(ns, 0) {
            None => Err("No <path> element with a 'd' attribute found"@),
            Some(d) => Ok((d, viewbox)),
        });
    }
    let mut i: usize = 0;
    while i < nodes.len()
        invariant
            i <= nodes.len() == ns.len(),
            ns == nodes_view(nodes@),
            viewbox.wf(),
            icon_of_nodes(ns) == match first_path_from(ns, 0) {
                None => Err("No <path> element with a 'd' attribute found"@),
                Some(d) => Ok((d, viewbox)),
            },
            first_path_from(ns, 0) == first_path_from(ns, i as int),
        decreases nodes.len() - i,
    {
        proof {
            assert(ns[i as int] == nodes@[i as int].view());
        }
        match is_path_with_d(&nodes[i]) {
            Some(d) => {
                return Ok(SvgIcon { path_data: d, viewbox });
            },
            None => {},
        }
        i = i + 1;
    }
    Err(parse_error("No <path> element with a 'd' attribute found"))
}

/// Reads a source icon from markup: the `d` of its first `path` that has
/// one, and the width and height of its view box.
pub fn parse_svg(svg_data: &str) -> (r: Result<SvgIcon, IconEngineError>)
    ensures
        match svg_outcome(svg_data@) {
            Ok((d, vb)) => r is Ok && r->Ok_0.path_data@ == d && r->Ok_0.viewbox == vb,
            Err(m) => r is Err && r->Err_0 is SvgParsingError && r->Err_0->SvgParsingError_0@ == m,
        },
        r is Ok ==> r->Ok_0.viewbox.wf(),
{
    match parse_xml_nodes(svg_data) {
        Ok(nodes) => {
            proof {
                assert(nodes_view(nodes@) =~= xml_nodes_of(svg_data@)->Ok_0);
            }
            icon_from_nodes(&nodes)
        },
        Err(e) => Err(IconEngineError::SvgParsingError(e)),
    }
}

/// A non-negative rational number, `num / den`.
#[derive(Debug, Clone, Copy, PartialEq, Eq, Structural)]
pub struct Ratio {
    pub num: u128,
    pub den: u128,
}

/// Where the icon goes: translated by `(translate_x, translate_y)`, then
/// scaled by `scale`.
#[derive(Debug, Clone, Copy, PartialEq, Eq, Structural)]
pub struct Transform {
    pub translate_x: Ratio,
    pub translate_y: Ratio,
    pub scale: Ratio,
}

/// The transform that collapses the icon to a point.
pub open spec fn sentinel() -> Transform {
    Transform {
        translate_x: Ratio { num: 0, den: 1 },
        translate_y: Ratio { num: 0, den: 1 },
        scale: Ratio { num: 0, den: 1 },
    }
}

/// The transform that fits a view box into the padded area of a base
/// `width` by `height`, keeping its aspect ratio and centring it. A view box
/// side `w` is `units / 10^places`, so `target / w` is `target·10^places /
/// units`.
pub open spec fn fit_transform(vb: ViewBox, width: u32, height: u32, padding: u32) -> Transform {
    let tw = width - 2 * padding;
    let th = height - 2 * padding;
    if tw <= 0 || th <= 0 {
        sentinel()
    } else {
        let a = vb.width.units as int;
        let p = pow10(vb.width.places as nat) as int;
        let b = vb.height.units as int;
        let q = pow10(vb.height.places as nat) as int;
        let (n, d) = if tw * p * b <= th * q * a {
            (tw * p, a)
        } else {
            (th * q, b)
        };
        Transform {
            translate_x: Ratio {
                num: (2 * padding * p * d + tw * p * d - a * n) as u128,
                den: (2 * p * d) as u128,
            },
            translate_y: Ratio {
                num: (2 * padding * q * d + th * q * d - b * n) as u128,
                den: (2 * q * d) as u128,
            },
            scale: Ratio { num: n as u128, den: d as u128 },
        }
    }
}

/// Where the padded area is not empty: the scale is the smaller of
/// `target_w / w` and `target_h / h` (it is at most each and equal to one),
/// and each translation is `padding + (target − side·scale) / 2`, which
/// centres the scaled content on that axis.
pub open spec fn fits_and_centres(vb: ViewBox, width: u32, height: u32, padding: u32, t: Transform) -> bool {
    let tw = width - 2 * padding;
    let th = height - 2 * padding;
    let a = vb.width.units as int;
    let p = pow10(vb.width.places as nat) as int;
    let b = vb.height.units as int;
    let q = pow10(vb.height.places as nat) as int;
    let sn = t.scale.num as int;
    let sd = t.scale.den as int;
    &&& sd > 0
    &&& sn * a <= tw * p * sd
    &&& sn * b <= th * q * sd
    &&& (sn * a == tw * p * sd || sn * b == th * q * sd)
    &&& t.translate_x.num * (2 * p * sd) == t.translate_x.den * (2 * padding * p * sd + tw * p * sd
        - a * sn)
    &&& t.translate_y.num * (2 * q * sd) == t.translate_y.den * (2 * padding * q * sd + th * q * sd
        - b * sn)
}

/// Computes the transform that places an icon inside the padded base.
pub fn compute_transform(viewbox: ViewBox, styles: &CustomStyles) -> (r: Transform)
    requires
        viewbox.wf(),
    ensures
        r == fit_transform(viewbox, styles.width, styles.height, styles.padding),
        r.translate_x.den > 0 && r.translate_y.den > 0 && r.scale.den > 0,
        r.translate_x.num <= 100_000_000_000_000_000_000_000_000_000,
        r.translate_y.num <= 100_000_000_000_000_000_000_000_000_000,
        r.scale.num <= 100_000_000_000_000_000_000_000_000_000,
        styles.width - 2 * styles.padding > 0 && styles.height - 2 * styles.padding > 0
            ==> fits_and_centres(viewbox, styles.width, styles.height, styles.padding, r),
        styles.width - 2 * styles.padding <= 0 || styles.height - 2 * styles.padding <= 0 ==> r
            == sentinel(),
{
    let tw: i64 = styles.width as i64 - 2 * styles.padding as i64;
    let th: i64 = styles.height as i64 - 2 * styles.padding as i64;
    if tw <= 0 || th <= 0 {
        return Transform {
            translate_x: Ratio { num: 0, den: 1 },
            translate_y: Ratio { num: 0, den: 1 },
            scale: Ratio { num: 0, den: 1 },
        };
    }
    let ghost pw = pow10(viewbox.width.places as nat);
    let ghost ph = pow10(viewbox.height.places as nat);
    proof {
        crate::text::lemma_pow10_mono(viewbox.width.places as nat, 9);
        crate::text::lemma_pow10_mono(viewbox.height.places as nat, 9);
        crate::text::lemma_pow10_pos(viewbox.width.places as nat);
        crate::text::lemma_pow10_pos(viewbox.height.places as nat);
        reveal_with_fuel(pow10, 10);
    }
    let p = crate::text::pow10_u128(viewbox.width.places);
    let q = crate::text::pow10_u128(viewbox.height.places);
    let a = viewbox.width.units as u128;
    let b = viewbox.height.units as u128;
    let twu = tw as u128;
    let thu = th as u128;
    let pad = styles.padding as u128;
    proof {
        assert(twu * p <= 10_000_000_000 * 1_000_000_000) by (nonlinear_arith)
            requires
                twu <= 10_000_000_000,
                p <= 1_000_000_000,
        ;
        assert(thu * q <= 10_000_000_000 * 1_000_000_000) by (nonlinear_arith)
            requires
                thu <= 10_000_000_000,
                q <= 1_000_000_000,
        ;
        assert(twu * p * b <= 10_000_000_000 * 1_000_000_000 * 1_000_000_000) by (
        nonlinear_arith)
            requires
                twu * p <= 10_000_000_000 * 1_000_000_000,
                b <= 1_000_000_000,
        ;
        assert(thu * q * a <= 10_000_000_000 * 1_000_000_000 * 1_000_000_000) by (
        nonlinear_arith)
            requires
                thu * q <= 10_000_000_000 * 1_000_000_000,
                a <= 1_000_000_000,
        ;
    }
    let (n, d) = if twu * p * b <= thu * q * a {
        (twu * p, a)
    } else {
        (thu * q, b)
    };
    proof {
        assert(n <= 10_000_000_000 * 1_000_000_000);
        assert(0 < d <= 1_000_000_000);
        assert(pad * p * d <= 10_000_000_000 * 1_000_000_000 * 1_000_000_000) by (
        nonlinear_arith)
            requires
                pad <= 10_000_000_000,
                p <= 1_000_000_000,
                d <= 1_000_000_000,
        ;
        assert(pad * q * d <= 10_000_000_000 * 1_000_000_000 * 1_000_000_000) by (
        nonlinear_arith)
            requires
                pad <= 10_000_000_000,
                q <= 1_000_000_000,
                d <= 1_000_000_000,
        ;
        assert(twu * p * d <= 10_000_000_000 * 1_000_000_000 * 1_000_000_000) by (
        nonlinear_arith)
            requires
                twu * p <= 10_000_000_000 * 1_000_000_000,
                d <= 1_000_000_000,
        ;
        assert(thu * q * d <= 10_000_000_000 * 1_000_000_000 * 1_000_000_000) by (
        nonlinear_arith)
            requires
                thu * q <= 10_000_000_000 * 1_000_000_000,
                d <= 1_000_000_000,
        ;
        assert(a * n <= twu * p * d) by (nonlinear_arith)
            requires
                (n == twu * p && d == a) || (n == thu * q && d == b && twu * p * b > thu * q * a),
        ;
        assert(b * n <= thu * q * d) by (nonlinear_arith)
            requires
                (n == twu * p && d == a && twu * p * b <= thu * q * a) || (n == thu * q && d == b),
        ;
        assert(2 * p * d > 0) by (nonlinear_arith)
            requires
                p > 0,
                d > 0,
        ;
        assert(2 * q * d > 0) by (nonlinear_arith)
            requires
                q > 0,
                d > 0,
        ;
    }
    proof {
        assert(pad * p <= 10_000_000_000 * 1_000_000_000 && pad * q <= 10_000_000_000
            * 1_000_000_000 && p * d <= 1_000_000_000 * 1_000_000_000 && q * d <= 1_000_000_000
            * 1_000_000_000) by (nonlinear_arith)
            requires
                pad <= 10_000_000_000,
                p <= 1_000_000_000,
                q <= 1_000_000_000,
                d <= 1_000_000_000,
        ;
    }
    let xpad = pad * p * d;
    let ypad = pad * q * d;
    let xfull = twu * p * d;
    let yfull = thu * q * d;
    let xused = a * n;
    let yused = b * n;
    let pd = p * d;
    let qd = q * d;
    proof {
        assert(2 * pad * p * d == 2 * xpad && 2 * pad * q * d == 2 * ypad && 2 * p * d == 2 * pd
            && 2 * q * d == 2 * qd) by (nonlinear_arith)
            requires
                xpad == pad * p * d,
                ypad == pad * q * d,
                pd == p * d,
                qd == q * d,
        ;
    }
    let txn = 2 * xpad + xfull - xused;
    let tyn = 2 * ypad + yfull - yused;
    proof {
        assert(n * a <= twu * p * d && n * b <= thu * q * d && (n * a == twu * p * d || n * b
            == thu * q * d)) by (nonlinear_arith)
            requires
                (n == twu * p && d == a && twu * p * b <= thu * q * a) || (n == thu * q && d == b
                    && twu * p * b > thu * q * a),
        ;
        assert(txn * (2 * p * d) == (2 * pd) * (2 * pad * p * d + twu * p * d - a * n)) by (
        nonlinear_arith)
            requires
                txn == 2 * xpad + xfull - xused,
                xpad == pad * p * d,
                xfull == twu * p * d,
                xused == a * n,
                pd == p * d,
        ;
        assert(tyn * (2 * q * d) == (2 * qd) * (2 * pad * q * d + thu * q * d - b * n)) by (
        nonlinear_arith)
            requires
                tyn == 2 * ypad + yfull - yused,
                ypad == pad * q * d,
                yfull == thu * q * d,
                yused == b * n,
                qd == q * d,
        ;
    }
    Transform {
        translate_x: Ratio { num: txn, den: 2 * pd },
        translate_y: Ratio { num: tyn, den: 2 * qd },
        scale: Ratio { num: n, den: d },
    }
}

/// A transform as the value of a `transform` attribute.
pub open spec fn transform_text(t: Transform) -> Seq<char> {
    "translate("@ + ratio_text(t.translate_x.num as nat, t.translate_x.den as nat) + ", "@
        + ratio_text(t.translate_y.num as nat, t.translate_y.den as nat) + ") scale("@
        + ratio_text(t.scale.num as nat, t.scale.den as nat) + ")"@
}

/// The `transform` attribute value that scales and centres the icon in the
/// padded area of the base.
pub fn calculate_transform(viewbox: ViewBox, styles: &CustomStyles) -> (r: String)
    requires
        viewbox.wf(),
    ensures
        r@ == transform_text(fit_transform(viewbox, styles.width, styles.height, styles.padding)),
        styles.width - 2 * styles.padding <= 0 || styles.height - 2 * styles.padding <= 0 ==> r@
            == "translate("@ + seq!['0'] + ", "@ + seq!['0'] + ") scale("@ + seq!['0'] + ")"@,
{
    let t = compute_transform(viewbox, styles);
    let mut out = String::from_str("translate(");
    push_ratio(&mut out, t.translate_x.num, t.translate_x.den);
    out.append(", ");
    push_ratio(&mut out, t.translate_y.num, t.translate_y.den);
    out.append(") scale(");
    push_ratio(&mut out, t.scale.num, t.scale.den);
    out.append(")");
    proof {
        assert(out@ =~= transform_text(t));
        reveal_with_fuel(crate::text::decimal_text, 7);
        assert(ratio_text(0, 1) == seq!['0']) by {
            assert((0nat * 1_000_000nat + 1nat / 2nat) / 1nat == 0nat);
            reveal_with_fuel(crate::text::decimal_text, 7);
        }
    }
    out
}

} // verus!
