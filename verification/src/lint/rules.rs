use vstd::prelude::*;

use crate::ir::node::{IrNode, IrNodeData};
use crate::ir::style::{color_hex, Color, CornerRadius, Fill, Padding, Stroke};
use crate::ir::{IrDocument, IrTokenGroup, IrTokenValue};
use crate::lint::report::{LintReport, Violation, ViolationV, violations_view};
use crate::number::{decimal_chars, dist, Decimal};
use crate::text::{chars_of, copy_string, owned, push_str, str_eq, string_of, to_uppercase, uppercase_of};

verus! {

// ---------------------------------------------------------------------------
// Text helpers
// ---------------------------------------------------------------------------

/// An ASCII letter in upper case; other characters unchanged.
pub open spec fn upper_char(c: char) -> char {
    if 'a' <= c && c <= 'z' { ((c as int) - 32) as char } else { c }
}

pub open spec fn upper(s: Seq<char>) -> Seq<char> {
    s.map_values(|c: char| upper_char(c))
}

/// Whether `needle` occurs in `hay`.
pub open spec fn contains_text(hay: Seq<char>, needle: Seq<char>) -> bool {
    exists|i: int| 0 <= i && i + needle.len() <= hay.len() && #[trigger] hay.subrange(i, i + needle.len()) == needle
}

pub fn contains(hay: &str, needle: &str) -> (b: bool)
    ensures
        b == contains_text(hay@, needle@),
{
    let h = chars_of(hay);
    let n = chars_of(needle);
    if n.len() > h.len() {
        return false;
    }
    let mut i: usize = 0;
    while i <= h.len() - n.len()
        invariant
            h@ == hay@,
            n@ == needle@,
            n.len() <= h.len(),
            forall|k: int| 0 <= k < i ==> #[trigger] hay@.subrange(k, k + needle@.len()) != needle@,
        decreases h.len() - i,
    {
        let mut j: usize = 0;
        let mut same = true;
        while j < n.len()
            invariant
                i + n.len() <= h.len(),
                j <= n.len(),
                h@ == hay@,
                n@ == needle@,
                same == (forall|k: int| 0 <= k < j ==> h@[i + k] == n@[k]),
            decreases n.len() - j,
        {
            if h[i + j] != n[j] {
                same = false;
            }
            j = j + 1;
        }
        if same {
            proof {
                assert(hay@.subrange(i as int, i + needle@.len()) =~= needle@);
            }
            return true;
        }
        proof {
            let k = choose|k: int| 0 <= k < n.len() && h@[i + k] != n@[k];
            assert(hay@.subrange(i as int, i + needle@.len())[k] != needle@[k]);
        }
        i = i + 1;
    }
    proof {
        assert forall|k: int| 0 <= k && k + needle@.len() <= hay@.len() implies #[trigger] hay@.subrange(
            k,
            k + needle@.len(),
        ) != needle@ by {
            assert(k < i);
        }
    }
    false
}

// ---------------------------------------------------------------------------
// The token scales the lint checks against
// ---------------------------------------------------------------------------

/// The colors of the groups whose name holds "color", in upper case.
pub open spec fn group_colors(entries: Seq<crate::ir::IrTokenEntry>) -> Seq<Seq<char>>
    decreases entries.len(),
{
    if entries.len() == 0 {
        Seq::empty()
    } else {
        let rest = group_colors(entries.drop_last());
        match entries.last().value {
            IrTokenValue::Color(c) => rest.push(uppercase_of(c@)),
            _ => rest,
        }
    }
}

pub open spec fn token_colors(groups: Seq<IrTokenGroup>) -> Seq<Seq<char>>
    decreases groups.len(),
{
    if groups.len() == 0 {
        Seq::empty()
    } else {
        let g = groups.last();
        token_colors(groups.drop_last()) + if contains_text(g.name@, "color"@) {
            group_colors(g.entries@)
        } else {
            Seq::empty()
        }
    }
}

/// The numbers of an array token.
pub open spec fn array_numbers(items: Seq<IrTokenValue>) -> Seq<Decimal>
    decreases items.len(),
{
    if items.len() == 0 {
        Seq::empty()
    } else {
        let rest = array_numbers(items.drop_last());
        match items.last() {
            IrTokenValue::Number(n) => rest.push(n),
            _ => rest,
        }
    }
}

pub open spec fn entry_numbers(entries: Seq<crate::ir::IrTokenEntry>) -> Seq<Decimal>
    decreases entries.len(),
{
    if entries.len() == 0 {
        Seq::empty()
    } else {
        let rest = entry_numbers(entries.drop_last());
        match entries.last().value {
            IrTokenValue::Number(n) => rest.push(n),
            IrTokenValue::Array(items) => rest + array_numbers(items@),
            _ => rest,
        }
    }
}

/// The numbers of the groups named exactly `name`: single numbers, and the
/// numbers of number arrays.
pub open spec fn token_numbers(groups: Seq<IrTokenGroup>, name: Seq<char>) -> Seq<Decimal>
    decreases groups.len(),
{
    if groups.len() == 0 {
        Seq::empty()
    } else {
        let g = groups.last();
        token_numbers(groups.drop_last(), name) + if g.name@ == name {
            entry_numbers(g.entries@)
        } else {
            Seq::empty()
        }
    }
}

/// The value of the first `size` key of an object token, if it is a number.
pub open spec fn object_size(pairs: Seq<(String, IrTokenValue)>) -> Option<Decimal>
    decreases pairs.len(),
{
    if pairs.len() == 0 {
        None
    } else if pairs[0].0@ == "size"@ {
        match pairs[0].1 {
            IrTokenValue::Number(n) => Some(n),
            _ => None,
        }
    } else {
        object_size(pairs.drop_first())
    }
}

pub open spec fn entry_sizes(entries: Seq<crate::ir::IrTokenEntry>) -> Seq<Decimal>
    decreases entries.len(),
{
    if entries.len() == 0 {
        Seq::empty()
    } else {
        let rest = entry_sizes(entries.drop_last());
        match entries.last().value {
            IrTokenValue::Object(pairs) => match object_size(pairs@) {
                Some(n) => rest.push(n),
                None => rest,
            },
            _ => rest,
        }
    }
}

/// The font sizes of the typography tokens (groups whose name holds "typo").
pub open spec fn token_font_sizes(groups: Seq<IrTokenGroup>) -> Seq<Decimal>
    decreases groups.len(),
{
    if groups.len() == 0 {
        Seq::empty()
    } else {
        let g = groups.last();
        token_font_sizes(groups.drop_last()) + if contains_text(g.name@, "typo"@) {
            entry_sizes(g.entries@)
        } else {
            Seq::empty()
        }
    }
}

// ---------------------------------------------------------------------------
// The checks
// ---------------------------------------------------------------------------

/// The first number of a non-empty scale that is nearest to `val`.
pub open spec fn nearest(val: Decimal, scale: Seq<Decimal>) -> Decimal
    decreases scale.len(),
{
    if scale.len() <= 1 {
        scale[0]
    } else {
        let b = nearest(val, scale.drop_last());
        if dist(scale.last(), val) < dist(b, val) { scale.last() } else { b }
    }
}

/// The scale value nearest to `val`, or `val` itself for an empty scale.
pub open spec fn closest(val: Decimal, scale: Seq<Decimal>) -> Decimal {
    if scale.len() == 0 { val } else { nearest(val, scale) }
}

pub open spec fn px(d: Decimal) -> Seq<char> {
    decimal_chars(d) + "px"@
}

/// The scales the lint checks values against.
pub ghost struct Scales {
    pub colors: Seq<Seq<char>>,
    pub spacings: Seq<Decimal>,
    pub radii: Seq<Decimal>,
    pub font_sizes: Seq<Decimal>,
}

pub open spec fn scales_of(tokens: Seq<IrTokenGroup>) -> Scales {
    Scales {
        colors: token_colors(tokens),
        spacings: token_numbers(tokens, "spacing"@),
        radii: token_numbers(tokens, "radius"@),
        font_sizes: token_font_sizes(tokens),
    }
}

pub open spec fn violation(file: Seq<char>, node: Seq<char>, rule: Seq<char>, value: Seq<char>, message: Seq<char>, suggestion: Option<Seq<char>>) -> ViolationV {
    ViolationV { file, node, rule, value, message, suggestion }
}

/// A color outside the token colors: `what` names the property.
pub open spec fn color_check(c: Color, what: Seq<char>, suggest: bool, file: Seq<char>, node: Seq<char>, colors: Seq<Seq<char>>) -> Seq<ViolationV> {
    let hex = uppercase_of(color_hex(c));
    if colors.len() == 0 || colors.contains(hex) {
        Seq::empty()
    } else if suggest {
        seq![violation(file, node, "color-from-token"@, hex, what + " color "@ + hex + " is not in token colors"@, Some("use "@ + colors[0]))]
    } else {
        seq![violation(file, node, "color-from-token"@, hex, "stroke color not in token colors"@, None)]
    }
}

pub open spec fn fill_check(fill: Option<Fill>, file: Seq<char>, node: Seq<char>, colors: Seq<Seq<char>>) -> Seq<ViolationV> {
    match fill {
        Some(Fill::Solid { color }) => color_check(color, "fill"@, true, file, node, colors),
        _ => Seq::empty(),
    }
}

pub open spec fn text_color_check(color: Option<Color>, file: Seq<char>, node: Seq<char>, colors: Seq<Seq<char>>) -> Seq<ViolationV> {
    match color {
        Some(c) => color_check(c, "text"@, true, file, node, colors),
        None => Seq::empty(),
    }
}

pub open spec fn stroke_check(stroke: Option<Stroke>, file: Seq<char>, node: Seq<char>, colors: Seq<Seq<char>>) -> Seq<ViolationV> {
    match stroke {
        Some(s) => color_check(s.color, Seq::empty(), false, file, node, colors),
        None => Seq::empty(),
    }
}

/// The first positive value that is not on the scale.
pub open spec fn first_off_scale(vals: Seq<Decimal>, scale: Seq<Decimal>) -> Option<Decimal>
    decreases vals.len(),
{
    if vals.len() == 0 {
        None
    } else if vals[0].mant() > 0 && !scale.contains(vals[0]) {
        Some(vals[0])
    } else {
        first_off_scale(vals.drop_first(), scale)
    }
}

/// A number off its scale: one violation at most per property.
pub open spec fn number_check(v: Option<Decimal>, rule: Seq<char>, what: Seq<char>, tail: Seq<char>, file: Seq<char>, node: Seq<char>, scale: Seq<Decimal>) -> Seq<ViolationV> {
    match v {
        Some(n) => if scale.len() > 0 {
            seq![violation(file, node, rule, px(n), what + " "@ + px(n) + tail, Some("use "@ + px(closest(n, scale))))]
        } else {
            Seq::empty()
        },
        None => Seq::empty(),
    }
}

pub open spec fn padding_check(p: Option<Padding>, file: Seq<char>, node: Seq<char>, spacings: Seq<Decimal>) -> Seq<ViolationV> {
    match p {
        Some(Padding(vals)) => number_check(first_off_scale(vals@, spacings), "spacing-from-token"@, "padding"@, " is not on spacing scale"@, file, node, spacings),
        None => Seq::empty(),
    }
}

pub open spec fn radius_check(r: Option<CornerRadius>, file: Seq<char>, node: Seq<char>, radii: Seq<Decimal>) -> Seq<ViolationV> {
    match r {
        Some(CornerRadius(vals)) => number_check(first_off_scale(vals@, radii), "radius-from-token"@, "radius"@, " is not in token radius"@, file, node, radii),
        None => Seq::empty(),
    }
}

/// A single value: off the scale when positive and not on it.
pub open spec fn single_off(v: Option<Decimal>, scale: Seq<Decimal>) -> Option<Decimal> {
    match v {
        Some(n) => if n.mant() > 0 && !scale.contains(n) { Some(n) } else { None },
        None => None,
    }
}

/// The violations of a frame's own properties.
pub open spec fn frame_violations(f: crate::ir::node::FrameData, file: Seq<char>, id: Seq<char>, s: Scales) -> Seq<ViolationV> {
    let gap = match f.layout {
        Some(l) => number_check(single_off(l.gap, s.spacings), "spacing-from-token"@, "gap"@, " is not on spacing scale"@, file, id, s.spacings),
        None => Seq::empty(),
    };
    fill_check(f.visual.fill, file, id, s.colors) + stroke_check(f.visual.stroke, file, id, s.colors)
        + padding_check(f.padding, file, id, s.spacings) + radius_check(f.visual.corner_radius, file, id, s.radii) + gap
}

/// The violations of a text's own properties.
pub open spec fn text_violations(t: crate::ir::node::TextData, file: Seq<char>, id: Seq<char>, s: Scales) -> Seq<ViolationV> {
    text_color_check(t.color, file, id, s.colors) + number_check(
        single_off(t.font_size, s.font_sizes),
        "font-size-from-token"@,
        "font-size"@,
        " has no typography token"@,
        file,
        id,
        s.font_sizes,
    )
}

/// The violations of one node's own properties.
pub open spec fn own_violations(n: IrNode, file: Seq<char>, s: Scales) -> Seq<ViolationV> {
    let id = n.id@;
    match n.data {
        IrNodeData::Frame(f) => frame_violations(f, file, id, s),
        IrNodeData::Text(t) => text_violations(t, file, id, s),
        IrNodeData::Image(img) => radius_check(img.corner_radius, file, id, s.radii),
        IrNodeData::Shape(sh) => fill_check(sh.visual.fill, file, id, s.colors) + radius_check(sh.visual.corner_radius, file, id, s.radii),
    }
}

/// The violations of a list of node trees, each node before its children.
pub open spec fn forest_violations(nodes: Seq<IrNode>, file: Seq<char>, s: Scales) -> Seq<ViolationV>
    decreases nodes,
{
    if nodes.len() == 0 {
        Seq::empty()
    } else {
        let n = nodes.last();
        proof {
            assert(decreases_to!(nodes => nodes[nodes.len() - 1]));
            assert(decreases_to!(n => n.children));
            assert(decreases_to!(n.children => n.children@));
        }
        forest_violations(nodes.drop_last(), file, s) + own_violations(n, file, s) + forest_violations(n.children@, file, s)
    }
}

pub open spec fn pages_violations(pages: Seq<crate::ir::IrPage>, file: Seq<char>, s: Scales) -> Seq<ViolationV>
    decreases pages.len(),
{
    if pages.len() == 0 {
        Seq::empty()
    } else {
        pages_violations(pages.drop_last(), file, s) + forest_violations(pages.last().nodes@, file, s)
    }
}

/// The violations of a document: none when no token scale is defined.
pub open spec fn lint_spec(ir: IrDocument, file: Seq<char>) -> Seq<ViolationV> {
    let s = scales_of(ir.tokens@);
    if s.colors.len() == 0 && s.spacings.len() == 0 && s.radii.len() == 0 && s.font_sizes.len() == 0 {
        Seq::empty()
    } else {
        forest_violations(ir.nodes@, file, s) + pages_violations(ir.pages@, file, s)
    }
}

pub open spec fn strings_view(v: Seq<String>) -> Seq<Seq<char>> {
    v.map_values(|s: String| s@)
}

// ---------------------------------------------------------------------------
// Collecting the scales
// ---------------------------------------------------------------------------

fn collect_colors(tokens: &[IrTokenGroup]) -> (r: Vec<String>)
    ensures
        strings_view(r@) == token_colors(tokens@),
{
    let mut out: Vec<String> = Vec::new();
    let mut gi: usize = 0;
    while gi < tokens.len()
        invariant
            gi <= tokens.len(),
            strings_view(out@) == token_colors(tokens@.subrange(0, gi as int)),
        decreases tokens.len() - gi,
    {
        let g = &tokens[gi];
        proof {
            let sub = tokens@.subrange(0, gi + 1);
            assert(sub.drop_last() =~= tokens@.subrange(0, gi as int));
            assert(sub.last() == *g);
        }
        if contains(g.name.as_str(), "color") {
            let ghost before = strings_view(out@);
            let mut ei: usize = 0;
            while ei < g.entries.len()
                invariant
                    ei <= g.entries.len(),
                    strings_view(out@) == before + group_colors(g.entries@.subrange(0, ei as int)),
                decreases g.entries.len() - ei,
            {
                let ghost prev = out@;
                let ghost sub = g.entries@.subrange(0, ei + 1);
                proof {
                    assert(sub.drop_last() =~= g.entries@.subrange(0, ei as int));
                    assert(sub.last() == g.entries@[ei as int]);
                }
                match &g.entries[ei].value {
                    IrTokenValue::Color(c) => {
                        let u = to_uppercase(c.as_str());
                        out.push(u);
                        proof {
                            assert(strings_view(out@) =~= strings_view(prev).push(u@));
                        }
                    },
                    _ => {},
                }
                proof {
                    assert(strings_view(out@) =~= before + group_colors(sub));
                }
                ei = ei + 1;
            }
            proof {
                assert(g.entries@.subrange(0, g.entries@.len() as int) =~= g.entries@);
            }
        }
        proof {
            assert(strings_view(out@) =~= token_colors(tokens@.subrange(0, gi + 1)));
        }
        gi = gi + 1;
    }
    proof {
        assert(tokens@.subrange(0, tokens@.len() as int) =~= tokens@);
    }
    out
}

fn entry_numbers_exec(entries: &Vec<crate::ir::IrTokenEntry>, out: &mut Vec<Decimal>)
    ensures
        final(out)@ == old(out)@ + entry_numbers(entries@),
{
    let ghost start = out@;
    let mut ei: usize = 0;
    while ei < entries.len()
        invariant
            ei <= entries.len(),
            out@ == start + entry_numbers(entries@.subrange(0, ei as int)),
        decreases entries.len() - ei,
    {
        let ghost prev = out@;
        match &entries[ei].value {
            IrTokenValue::Number(n) => {
                out.push(*n);
            },
            IrTokenValue::Array(items) => {
                let mut k: usize = 0;
                while k < items.len()
                    invariant
                        k <= items.len(),
                        out@ == prev + array_numbers(items@.subrange(0, k as int)),
                    decreases items.len() - k,
                {
                    let ghost p2 = out@;
                    match &items[k] {
                        IrTokenValue::Number(n) => {
                            out.push(*n);
                        },
                        _ => {},
                    }
                    proof {
                        let sub = items@.subrange(0, k + 1);
                        assert(sub.drop_last() =~= items@.subrange(0, k as int));
                        assert(out@ =~= prev + array_numbers(sub));
                    }
                    k = k + 1;
                }
                proof {
                    assert(items@.subrange(0, items@.len() as int) =~= items@);
                }
            },
            _ => {},
        }
        proof {
            let sub = entries@.subrange(0, ei + 1);
            assert(sub.drop_last() =~= entries@.subrange(0, ei as int));
            assert(out@ =~= start + entry_numbers(sub));
        }
        ei = ei + 1;
    }
    proof {
        assert(entries@.subrange(0, entries@.len() as int) =~= entries@);
    }
}

fn collect_numbers(tokens: &[IrTokenGroup], name: &str) -> (r: Vec<Decimal>)
    ensures
        r@ == token_numbers(tokens@, name@),
{
    let mut out: Vec<Decimal> = Vec::new();
    let mut gi: usize = 0;
    while gi < tokens.len()
        invariant
            gi <= tokens.len(),
            out@ == token_numbers(tokens@.subrange(0, gi as int), name@),
        decreases tokens.len() - gi,
    {
        let g = &tokens[gi];
        proof {
            let sub = tokens@.subrange(0, gi + 1);
            assert(sub.drop_last() =~= tokens@.subrange(0, gi as int));
            assert(sub.last() == *g);
        }
        if str_eq(g.name.as_str(), name) {
            entry_numbers_exec(&g.entries, &mut out);
        }
        proof {
            assert(out@ =~= token_numbers(tokens@.subrange(0, gi + 1), name@));
        }
        gi = gi + 1;
    }
    proof {
        assert(tokens@.subrange(0, tokens@.len() as int) =~= tokens@);
    }
    out
}

fn object_size_exec(pairs: &Vec<(String, IrTokenValue)>) -> (r: Option<Decimal>)
    ensures
        r == object_size(pairs@),
{
    let mut i: usize = 0;
    proof {
        assert(pairs@.subrange(0, pairs@.len() as int) =~= pairs@);
    }
    while i < pairs.len()
        invariant
            i <= pairs.len(),
            object_size(pairs@) == object_size(pairs@.subrange(i as int, pairs@.len() as int)),
        decreases pairs.len() - i,
    {
        proof {
            let sub = pairs@.subrange(i as int, pairs@.len() as int);
            assert(sub.drop_first() =~= pairs@.subrange(i + 1, pairs@.len() as int));
            assert(sub[0] == pairs@[i as int]);
        }
        if str_eq(pairs[i].0.as_str(), "size") {
            return match &pairs[i].1 {
                IrTokenValue::Number(n) => Some(*n),
                _ => None,
            };
        }
        i = i + 1;
    }
    None
}

fn collect_font_sizes(tokens: &[IrTokenGroup]) -> (r: Vec<Decimal>)
    ensures
        r@ == token_font_sizes(tokens@),
{
    let mut out: Vec<Decimal> = Vec::new();
    let mut gi: usize = 0;
    while gi < tokens.len()
        invariant
            gi <= tokens.len(),
            out@ == token_font_sizes(tokens@.subrange(0, gi as int)),
        decreases tokens.len() - gi,
    {
        let g = &tokens[gi];
        proof {
            let sub = tokens@.subrange(0, gi + 1);
            assert(sub.drop_last() =~= tokens@.subrange(0, gi as int));
            assert(sub.last() == *g);
        }
        if contains(g.name.as_str(), "typo") {
            let ghost before = out@;
            let mut ei: usize = 0;
            while ei < g.entries.len()
                invariant
                    ei <= g.entries.len(),
                    out@ == before + entry_sizes(g.entries@.subrange(0, ei as int)),
                decreases g.entries.len() - ei,
            {
                match &g.entries[ei].value {
                    IrTokenValue::Object(pairs) => match object_size_exec(pairs) {
                        Some(n) => {
                            out.push(n);
                        },
                        None => {},
                    },
                    _ => {},
                }
                proof {
                    let sub = g.entries@.subrange(0, ei + 1);
                    assert(sub.drop_last() =~= g.entries@.subrange(0, ei as int));
                    assert(out@ =~= before + entry_sizes(sub));
                }
                ei = ei + 1;
            }
            proof {
                assert(g.entries@.subrange(0, g.entries@.len() as int) =~= g.entries@);
            }
        }
        proof {
            assert(out@ =~= token_font_sizes(tokens@.subrange(0, gi + 1)));
        }
        gi = gi + 1;
    }
    proof {
        assert(tokens@.subrange(0, tokens@.len() as int) =~= tokens@);
    }
    out
}

// ---------------------------------------------------------------------------
// Helpers
// ---------------------------------------------------------------------------

/// The scale value nearest to `val` (the first of equally near ones), or
/// `val` for an empty scale.
pub fn closest_num(val: Decimal, scale: &[Decimal]) -> (r: Decimal)
    ensures
        r == closest(val, scale@),
{
    if scale.len() == 0 {
        return val;
    }
    let mut best = scale[0];
    let mut i: usize = 1;
    proof {
        assert(scale@.subrange(0, 1).len() == 1);
    }
    while i < scale.len()
        invariant
            1 <= i <= scale.len(),
            best == nearest(val, scale@.subrange(0, i as int)),
        decreases scale.len() - i,
    {
        let c = scale[i];
        proof {
            let sub = scale@.subrange(0, i + 1);
            assert(sub.drop_last() =~= scale@.subrange(0, i as int));
            assert(sub.last() == c);
        }
        if c.distance(&val) < best.distance(&val) {
            best = c;
        }
        i = i + 1;
    }
    proof {
        assert(scale@.subrange(0, scale@.len() as int) =~= scale@);
    }
    best
}

/// The first option, if any.
pub fn find_closest_str(target: &str, options: &[String]) -> (r: Option<String>)
    ensures
        options@.len() == 0 ==> r is None,
        options@.len() > 0 ==> (r matches Some(s) && s@ == options@[0]@),
{
    if options.len() == 0 {
        None
    } else {
        Some(copy_string(&options[0]))
    }
}

fn has_color(colors: &[String], hex: &String) -> (b: bool)
    ensures
        b == strings_view(colors@).contains(hex@),
{
    let mut i: usize = 0;
    while i < colors.len()
        invariant
            i <= colors.len(),
            forall|k: int| 0 <= k < i ==> colors@[k]@ != hex@,
        decreases colors.len() - i,
    {
        if colors[i] == *hex {
            proof {
                assert(strings_view(colors@)[i as int] == hex@);
            }
            return true;
        }
        i = i + 1;
    }
    proof {
        if strings_view(colors@).contains(hex@) {
            let k = choose|k: int| 0 <= k < strings_view(colors@).len() && strings_view(colors@)[k] == hex@;
            assert(colors@[k]@ == hex@);
        }
    }
    false
}

fn has_num(scale: &[Decimal], v: &Decimal) -> (b: bool)
    ensures
        b == scale@.contains(*v),
{
    let mut i: usize = 0;
    while i < scale.len()
        invariant
            i <= scale.len(),
            forall|k: int| 0 <= k < i ==> scale@[k] != *v,
        decreases scale.len() - i,
    {
        if scale[i] == *v {
            return true;
        }
        i = i + 1;
    }
    false
}

fn push_px(s: &mut String, d: &Decimal)
    ensures
        final(s)@ == old(s)@ + px(*d),
{
    d.push_text(s);
    push_str(s, "px");
    proof {
        assert(final(s)@ =~= old(s)@ + px(*d));
    }
}

fn px_string(d: &Decimal) -> (s: String)
    ensures
        s@ == px(*d),
{
    let mut s = String::new();
    push_px(&mut s, d);
    proof {
        assert(s@ =~= px(*d));
    }
    s
}

// ---------------------------------------------------------------------------
// The checks, run
// ---------------------------------------------------------------------------

/// The scales of a document's tokens.
pub struct LintScales {
    pub colors: Vec<String>,
    pub spacings: Vec<Decimal>,
    pub radii: Vec<Decimal>,
    pub font_sizes: Vec<Decimal>,
}

impl View for LintScales {
    type V = Scales;

    open spec fn view(&self) -> Scales {
        Scales {
            colors: strings_view(self.colors@),
            spacings: self.spacings@,
            radii: self.radii@,
            font_sizes: self.font_sizes@,
        }
    }
}

fn new_violation(file: &str, node: &str, rule: &str, value: String, message: String, suggestion: Option<String>) -> (v: Violation)
    ensures
        v@ == violation(file@, node@, rule@, value@, message@, crate::error::opt_string_view(suggestion)),
{
    Violation { file: owned(file), node: owned(node), rule: owned(rule), value, message, suggestion }
}

fn check_color(c: &Color, what: &str, suggest: bool, node_id: &str, file: &str, colors: &[String], report: &mut LintReport)
    ensures
        violations_view(final(report).violations@) == violations_view(old(report).violations@) + color_check(
            *c,
            what@,
            suggest,
            file@,
            node_id@,
            strings_view(colors@),
        ),
{
    let ghost before = old(report).violations@;
    if colors.len() == 0 {
        return;
    }
    let hex0 = c.to_hex();
    let hex = to_uppercase(hex0.as_str());
    if has_color(colors, &hex) {
        return;
    }
    let v = if suggest {
        let mut msg = String::new();
        push_str(&mut msg, what);
        push_str(&mut msg, " color ");
        push_str(&mut msg, hex.as_str());
        push_str(&mut msg, " is not in token colors");
        let sug = match find_closest_str(hex.as_str(), colors) {
            Some(c) => {
                let mut t = String::new();
                push_str(&mut t, "use ");
                push_str(&mut t, c.as_str());
                Some(t)
            },
            None => None,
        };
        new_violation(file, node_id, "color-from-token", hex, msg, sug)
    } else {
        let mut msg = String::new();
        push_str(&mut msg, "stroke color not in token colors");
        new_violation(file, node_id, "color-from-token", hex, msg, None)
    };
    report.add(v);
    proof {
        assert(violations_view(report.violations@) =~= violations_view(before).push(v@));
    }
}

fn check_number(off: Option<Decimal>, rule: &str, what: &str, tail: &str, node_id: &str, file: &str, scale: &[Decimal], report: &mut LintReport)
    ensures
        violations_view(final(report).violations@) == violations_view(old(report).violations@) + number_check(
            off,
            rule@,
            what@,
            tail@,
            file@,
            node_id@,
            scale@,
        ),
{
    let ghost before = old(report).violations@;
    match off {
        Some(n) => {
            if scale.len() > 0 {
                let value = px_string(&n);
                let mut msg = String::new();
                push_str(&mut msg, what);
                push_str(&mut msg, " ");
                push_px(&mut msg, &n);
                push_str(&mut msg, tail);
                let mut sug = String::new();
                push_str(&mut sug, "use ");
                let c = closest_num(n, scale);
                push_px(&mut sug, &c);
                let v = new_violation(file, node_id, rule, value, msg, Some(sug));
                report.add(v);
                proof {
                    assert(violations_view(report.violations@) =~= violations_view(before).push(v@));
                }
            } else {
                proof {
                    assert(violations_view(report.violations@) =~= violations_view(before));
                }
            }
        },
        None => {
            proof {
                assert(violations_view(report.violations@) =~= violations_view(before));
            }
        },
    }
}

fn first_off(vals: &[Decimal; 4], scale: &[Decimal]) -> (r: Option<Decimal>)
    ensures
        r == first_off_scale(vals@, scale@),
{
    let mut i: usize = 0;
    proof {
        assert(vals@.subrange(0, 4) =~= vals@);
    }
    while i < 4
        invariant
            i <= 4,
            vals@.len() == 4,
            first_off_scale(vals@, scale@) == first_off_scale(vals@.subrange(i as int, 4), scale@),
        decreases 4 - i,
    {
        let v = vals[i];
        proof {
            let sub = vals@.subrange(i as int, 4);
            assert(sub.drop_first() =~= vals@.subrange(i + 1, 4));
            assert(sub[0] == v);
        }
        if v.is_positive() && !has_num(scale, &v) {
            return Some(v);
        }
        i = i + 1;
    }
    proof {
        assert(vals@.subrange(4, 4).len() == 0);
    }
    None
}

fn single_off_exec(v: Option<Decimal>, scale: &[Decimal]) -> (r: Option<Decimal>)
    ensures
        r == single_off(v, scale@),
{
    match v {
        Some(n) => if n.is_positive() && !has_num(scale, &n) {
            Some(n)
        } else {
            None
        },
        None => None,
    }
}

fn check_fill(fill: &Option<Fill>, node_id: &str, file: &str, colors: &[String], report: &mut LintReport)
    ensures
        violations_view(final(report).violations@) == violations_view(old(report).violations@) + fill_check(
            *fill,
            file@,
            node_id@,
            strings_view(colors@),
        ),
{
    match fill {
        Some(Fill::Solid { color }) => check_color(color, "fill", true, node_id, file, colors, report),
        _ => {
            proof {
                assert(violations_view(report.violations@) =~= violations_view(old(report).violations@) + fill_check(
                    *fill,
                    file@,
                    node_id@,
                    strings_view(colors@),
                ));
            }
        },
    }
}

fn check_text_color(color: &Option<Color>, node_id: &str, file: &str, colors: &[String], report: &mut LintReport)
    ensures
        violations_view(final(report).violations@) == violations_view(old(report).violations@) + text_color_check(
            *color,
            file@,
            node_id@,
            strings_view(colors@),
        ),
{
    match color {
        Some(c) => check_color(c, "text", true, node_id, file, colors, report),
        None => {
            proof {
                assert(violations_view(report.violations@) =~= violations_view(old(report).violations@));
            }
        },
    }
}

fn check_stroke_color(stroke: &Option<Stroke>, node_id: &str, file: &str, colors: &[String], report: &mut LintReport)
    ensures
        violations_view(final(report).violations@) == violations_view(old(report).violations@) + stroke_check(
            *stroke,
            file@,
            node_id@,
            strings_view(colors@),
        ),
{
    match stroke {
        Some(s) => {
            check_color(&s.color, "", false, node_id, file, colors, report);
            proof {
                reveal_strlit("");
            }
        },
        None => {
            proof {
                assert(violations_view(report.violations@) =~= violations_view(old(report).violations@));
            }
        },
    }
}

fn check_padding(padding: &Option<Padding>, node_id: &str, file: &str, spacings: &[Decimal], report: &mut LintReport)
    ensures
        violations_view(final(report).violations@) == violations_view(old(report).violations@) + padding_check(
            *padding,
            file@,
            node_id@,
            spacings@,
        ),
{
    match padding {
        Some(p) => check_number(first_off(&p.0, spacings), "spacing-from-token", "padding", " is not on spacing scale", node_id, file, spacings, report),
        None => {
            proof {
                assert(violations_view(report.violations@) =~= violations_view(old(report).violations@));
            }
        },
    }
}

fn check_radius(cr: &Option<CornerRadius>, node_id: &str, file: &str, radii: &[Decimal], report: &mut LintReport)
    ensures
        violations_view(final(report).violations@) == violations_view(old(report).violations@) + radius_check(
            *cr,
            file@,
            node_id@,
            radii@,
        ),
{
    match cr {
        Some(r) => check_number(first_off(&r.0, radii), "radius-from-token", "radius", " is not in token radius", node_id, file, radii, report),
        None => {
            proof {
                assert(violations_view(report.violations@) =~= violations_view(old(report).violations@));
            }
        },
    }
}

fn check_gap(layout: &Option<crate::ir::style::Layout>, node_id: &str, file: &str, spacings: &[Decimal], report: &mut LintReport)
    ensures
        violations_view(final(report).violations@) == violations_view(old(report).violations@) + match *layout {
            Some(l) => number_check(single_off(l.gap, spacings@), "spacing-from-token"@, "gap"@, " is not on spacing scale"@, file@, node_id@, spacings@),
            None => Seq::empty(),
        },
{
    match layout {
        Some(l) => check_number(single_off_exec(l.gap, spacings), "spacing-from-token", "gap", " is not on spacing scale", node_id, file, spacings, report),
        None => {
            proof {
                assert(violations_view(report.violations@) =~= violations_view(old(report).violations@));
            }
        },
    }
}

fn check_frame(f: &crate::ir::node::FrameData, id: &str, file: &str, sc: &LintScales, report: &mut LintReport)
    ensures
        violations_view(final(report).violations@) == violations_view(old(report).violations@) + frame_violations(
            *f,
            file@,
            id@,
            sc@,
        ),
{
    let ghost before = violations_view(old(report).violations@);
    let colors = sc.colors.as_slice();
    check_fill(&f.visual.fill, id, file, colors, report);
    check_stroke_color(&f.visual.stroke, id, file, colors, report);
    check_padding(&f.padding, id, file, sc.spacings.as_slice(), report);
    check_radius(&f.visual.corner_radius, id, file, sc.radii.as_slice(), report);
    check_gap(&f.layout, id, file, sc.spacings.as_slice(), report);
    proof {
        assert(violations_view(report.violations@) =~= before + frame_violations(*f, file@, id@, sc@));
    }
}

fn check_text(t: &crate::ir::node::TextData, id: &str, file: &str, sc: &LintScales, report: &mut LintReport)
    ensures
        violations_view(final(report).violations@) == violations_view(old(report).violations@) + text_violations(
            *t,
            file@,
            id@,
            sc@,
        ),
{
    let ghost before = violations_view(old(report).violations@);
    check_text_color(&t.color, id, file, sc.colors.as_slice(), report);
    check_number(single_off_exec(t.font_size, sc.font_sizes.as_slice()), "font-size-from-token", "font-size", " has no typography token", id, file, sc.font_sizes.as_slice(), report);
    proof {
        assert(violations_view(report.violations@) =~= before + text_violations(*t, file@, id@, sc@));
    }
}

fn check_own(node: &IrNode, file: &str, sc: &LintScales, report: &mut LintReport)
    ensures
        violations_view(final(report).violations@) == violations_view(old(report).violations@) + own_violations(
            *node,
            file@,
            sc@,
        ),
{
    let ghost before = violations_view(old(report).violations@);
    let id = node.id.as_str();
    match &node.data {
        IrNodeData::Frame(f) => check_frame(f, id, file, sc, report),
        IrNodeData::Text(t) => check_text(t, id, file, sc, report),
        IrNodeData::Image(img) => {
            check_radius(&img.corner_radius, id, file, sc.radii.as_slice(), report);
        },
        IrNodeData::Shape(s) => {
            check_fill(&s.visual.fill, id, file, sc.colors.as_slice(), report);
            check_radius(&s.visual.corner_radius, id, file, sc.radii.as_slice(), report);
            proof {
                assert(violations_view(report.violations@) =~= before + own_violations(*node, file@, sc@));
            }
        },
    }
}

fn check_forest(nodes: &Vec<IrNode>, file: &str, sc: &LintScales, report: &mut LintReport)
    ensures
        violations_view(final(report).violations@) == violations_view(old(report).violations@) + forest_violations(
            nodes@,
            file@,
            sc@,
        ),
    decreases nodes@,
{
    let ghost start = violations_view(old(report).violations@);
    let mut i: usize = 0;
    while i < nodes.len()
        invariant
            i <= nodes.len(),
            violations_view(report.violations@) == start + forest_violations(nodes@.subrange(0, i as int), file@, sc@),
        decreases nodes.len() - i,
    {
        let node = &nodes[i];
        let ghost sub = nodes@.subrange(0, i + 1);
        proof {
            assert(sub.drop_last() =~= nodes@.subrange(0, i as int));
            assert(sub.last() == *node);
        }
        check_own(node, file, sc, report);
        proof {
            assert(decreases_to!(nodes@ => nodes@[i as int]));
        }
        check_forest(&node.children, file, sc, report);
        proof {
            assert(violations_view(report.violations@) =~= start + forest_violations(sub, file@, sc@));
        }
        i = i + 1;
    }
    proof {
        assert(nodes@.subrange(0, nodes@.len() as int) =~= nodes@);
    }
}

/// Lint an IR document: check that design values use defined tokens.
pub fn lint_document(ir: &IrDocument, source_file: &str) -> (report: LintReport)
    ensures
        violations_view(report.violations@) == lint_spec(*ir, source_file@),
{
    let mut report = LintReport::new();
    let sc = LintScales {
        colors: collect_colors(ir.tokens.as_slice()),
        spacings: collect_numbers(ir.tokens.as_slice(), "spacing"),
        radii: collect_numbers(ir.tokens.as_slice(), "radius"),
        font_sizes: collect_font_sizes(ir.tokens.as_slice()),
    };
    if sc.colors.len() == 0 && sc.spacings.len() == 0 && sc.radii.len() == 0 && sc.font_sizes.len() == 0 {
        proof {
            assert(violations_view(report.violations@) =~= Seq::<ViolationV>::empty());
        }
        return report;
    }
    proof {
        assert(violations_view(report.violations@) =~= Seq::<ViolationV>::empty());
    }
    check_forest(&ir.nodes, source_file, &sc, &mut report);
    let ghost after_nodes = violations_view(report.violations@);
    let mut pi: usize = 0;
    while pi < ir.pages.len()
        invariant
            pi <= ir.pages.len(),
            sc@ == scales_of(ir.tokens@),
            violations_view(report.violations@) == after_nodes + pages_violations(ir.pages@.subrange(0, pi as int), source_file@, sc@),
        decreases ir.pages.len() - pi,
    {
        let ghost sub = ir.pages@.subrange(0, pi + 1);
        proof {
            assert(sub.drop_last() =~= ir.pages@.subrange(0, pi as int));
            assert(sub.last() == ir.pages@[pi as int]);
        }
        check_forest(&ir.pages[pi].nodes, source_file, &sc, &mut report);
        proof {
            assert(violations_view(report.violations@) =~= after_nodes + pages_violations(sub, source_file@, sc@));
        }
        pi = pi + 1;
    }
    proof {
        assert(ir.pages@.subrange(0, ir.pages@.len() as int) =~= ir.pages@);
    }
    report
}

/// A document without any token scale gets no violation.
pub proof fn law_no_tokens_no_violations(ir: IrDocument, file: Seq<char>)
    requires
        ir.tokens@.len() == 0,
    ensures
        lint_spec(ir, file).len() == 0,
{
    reveal_with_fuel(token_colors, 1);
    reveal_with_fuel(token_numbers, 1);
    reveal_with_fuel(token_font_sizes, 1);
}

} // verus!
