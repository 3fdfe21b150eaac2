use vstd::prelude::*;

use crate::ir::{IrTokenEntry, IrTokenGroup, IrTokenValue};
use crate::number::{decimal_chars, trunc, Decimal};
use crate::text::{int_chars, push_int, push_str};

verus! {

/// A CSS length in pixels: the number, then "px".
pub open spec fn px(d: Decimal) -> Seq<char> {
    decimal_chars(d) + "px"@
}

/// A shadow `[x, y, blur, color]` as a CSS `box-shadow` value: the offsets
/// and the blur truncated to whole pixels.
pub open spec fn shadow_css(arr: Seq<IrTokenValue>) -> Option<Seq<char>> {
    match (arr[0], arr[1], arr[2], arr[3]) {
        (IrTokenValue::Number(x), IrTokenValue::Number(y), IrTokenValue::Number(b), IrTokenValue::Color(c)) => Some(
            int_chars(trunc(x)) + "px "@ + int_chars(trunc(y)) + "px "@ + int_chars(trunc(b)) + "px "@ + c@,
        ),
        _ => None,
    }
}

/// The CSS value of a design token, if it has one.
pub open spec fn token_css(v: IrTokenValue) -> Option<Seq<char>> {
    match v {
        IrTokenValue::Number(d) => Some(px(d)),
        IrTokenValue::Color(c) => Some(c@),
        IrTokenValue::String(s) => Some(s@),
        IrTokenValue::Bool(b) => Some(if b { "true"@ } else { "false"@ }),
        IrTokenValue::Array(arr) => if arr@.len() == 4 { shadow_css(arr@) } else { None },
        IrTokenValue::Object(_) => None,
    }
}

/// The custom-property lines of a group's entries, each after a line break.
pub open spec fn entries_css(group: Seq<char>, entries: Seq<IrTokenEntry>) -> Seq<char>
    decreases entries.len(),
{
    if entries.len() == 0 {
        Seq::empty()
    } else {
        let e = entries.last();
        let line = match token_css(e.value) {
            Some(v) => "\n  --"@ + group + "-"@ + e.key@ + ": "@ + v + ";"@,
            None => Seq::empty(),
        };
        entries_css(group, entries.drop_last()) + line
    }
}

pub open spec fn groups_css(groups: Seq<IrTokenGroup>) -> Seq<char>
    decreases groups.len(),
{
    if groups.len() == 0 {
        Seq::empty()
    } else {
        groups_css(groups.drop_last()) + entries_css(groups.last().name@, groups.last().entries@)
    }
}

/// The CSS custom properties of all the token groups, in a `:root` block.
pub open spec fn css_text(groups: Seq<IrTokenGroup>) -> Seq<char> {
    ":root {"@ + groups_css(groups) + "\n}"@
}

/// Convert a shadow array [x, y, blur, color] to CSS box-shadow value.
fn shadow_array_to_css(arr: &[IrTokenValue]) -> (r: Option<String>)
    requires
        arr@.len() == 4,
    ensures
        match r {
            Some(s) => shadow_css(arr@) == Some(s@),
            None => shadow_css(arr@) is None,
        },
{
    let x = match &arr[0] {
        IrTokenValue::Number(n) => *n,
        _ => return None,
    };
    let y = match &arr[1] {
        IrTokenValue::Number(n) => *n,
        _ => return None,
    };
    let blur = match &arr[2] {
        IrTokenValue::Number(n) => *n,
        _ => return None,
    };
    let color = match &arr[3] {
        IrTokenValue::Color(c) => c,
        _ => return None,
    };
    let mut s = String::new();
    push_int(&mut s, x.truncate());
    push_str(&mut s, "px ");
    push_int(&mut s, y.truncate());
    push_str(&mut s, "px ");
    push_int(&mut s, blur.truncate());
    push_str(&mut s, "px ");
    push_str(&mut s, color.as_str());
    proof {
        assert(s@ =~= shadow_css(arr@)->0);
    }
    Some(s)
}

/// Convert an IR token value to a CSS value string.
fn token_value_to_css(val: &IrTokenValue) -> (r: Option<String>)
    ensures
        match r {
            Some(s) => token_css(*val) == Some(s@),
            None => token_css(*val) is None,
        },
{
    match val {
        IrTokenValue::Number(n) => {
            let mut s = n.to_text();
            push_str(&mut s, "px");
            Some(s)
        },
        IrTokenValue::Color(c) => Some(c.clone()),
        IrTokenValue::String(s) => Some(s.clone()),
        IrTokenValue::Bool(b) => {
            let mut s = String::new();
            if *b {
                push_str(&mut s, "true");
            } else {
                push_str(&mut s, "false");
            }
            Some(s)
        },
        IrTokenValue::Array(arr) => {
            if arr.len() == 4 {
                shadow_array_to_css(arr.as_slice())
            } else {
                None
            }
        },
        IrTokenValue::Object(_) => None,
    }
}

/// Build CSS custom properties string from token groups.
pub fn generate_css(groups: &[IrTokenGroup]) -> (css: String)
    ensures
        css@ == css_text(groups@),
{
    let mut s = String::new();
    push_str(&mut s, ":root {");
    let ghost head = s@;
    let mut gi: usize = 0;
    while gi < groups.len()
        invariant
            gi <= groups.len(),
            head == ":root {"@,
            s@ == head + groups_css(groups@.subrange(0, gi as int)),
        decreases groups.len() - gi,
    {
        let group = &groups[gi];
        let ghost before = s@;
        let mut ei: usize = 0;
        while ei < group.entries.len()
            invariant
                gi < groups.len(),
                group == &groups@[gi as int],
                ei <= group.entries.len(),
                    s@ == before + entries_css(group.name@, group.entries@.subrange(0, ei as int)),
            decreases group.entries.len() - ei,
        {
            let entry = &group.entries[ei];
            proof {
                let sub = group.entries@.subrange(0, ei + 1);
                assert(sub.drop_last() =~= group.entries@.subrange(0, ei as int));
            }
            let ghost mid = s@;
            match token_value_to_css(&entry.value) {
                Some(v) => {
                    push_str(&mut s, "\n  --");
                    push_str(&mut s, group.name.as_str());
                    push_str(&mut s, "-");
                    push_str(&mut s, entry.key.as_str());
                    push_str(&mut s, ": ");
                    push_str(&mut s, v.as_str());
                    push_str(&mut s, ";");
                },
                None => {},
            }
            proof {
                let sub = group.entries@.subrange(0, ei + 1);
                assert(sub.last() == *entry);
                assert(s@ =~= before + entries_css(group.name@, sub));
            }
            ei = ei + 1;
        }
        proof {
            assert(group.entries@.subrange(0, group.entries@.len() as int) =~= group.entries@);
            let sub = groups@.subrange(0, gi + 1);
            assert(sub.drop_last() =~= groups@.subrange(0, gi as int));
            assert(sub.last() == *group);
            assert(s@ =~= head + groups_css(sub));
        }
        gi = gi + 1;
    }
    push_str(&mut s, "\n}");
    proof {
        assert(groups@.subrange(0, groups@.len() as int) =~= groups@);
        assert(s@ =~= css_text(groups@));
    }
    s
}

// ---------------------------------------------------------------------------
// What the token CSS lists
// ---------------------------------------------------------------------------

/// The custom-property line of one token of a group.
pub open spec fn token_line(group: Seq<char>, key: Seq<char>, value: Seq<char>) -> Seq<char> {
    "\n  --"@ + group + "-"@ + key + ": "@ + value + ";"@
}

/// The lines of two runs of entries of a group are those of the first run
/// followed by those of the second.
pub proof fn law_entry_lines_concatenate(group: Seq<char>, e1: Seq<IrTokenEntry>, e2: Seq<IrTokenEntry>)
    ensures
        entries_css(group, e1 + e2) == entries_css(group, e1) + entries_css(group, e2),
    decreases e2.len(),
{
    if e2.len() == 0 {
        assert(e1 + e2 =~= e1);
    } else {
        assert((e1 + e2).drop_last() =~= e1 + e2.drop_last());
        assert((e1 + e2).last() == e2.last());
        law_entry_lines_concatenate(group, e1, e2.drop_last());
        assert(entries_css(group, e1 + e2) =~= entries_css(group, e1) + entries_css(group, e2));
    }
}

/// The lines of two runs of token groups are those of the first run
/// followed by those of the second: no group is dropped or reordered.
pub proof fn law_group_lines_concatenate(g1: Seq<IrTokenGroup>, g2: Seq<IrTokenGroup>)
    ensures
        groups_css(g1 + g2) == groups_css(g1) + groups_css(g2),
    decreases g2.len(),
{
    if g2.len() == 0 {
        assert(g1 + g2 =~= g1);
    } else {
        assert((g1 + g2).drop_last() =~= g1 + g2.drop_last());
        assert((g1 + g2).last() == g2.last());
        law_group_lines_concatenate(g1, g2.drop_last());
        assert(groups_css(g1 + g2) =~= groups_css(g1) + groups_css(g2));
    }
}

/// Every token that has a CSS value gets its custom property: the CSS holds
/// the line `--GROUP-KEY: VALUE;` of the `j`th entry of the `i`th group.
pub proof fn law_css_lists_every_token(groups: Seq<IrTokenGroup>, i: int, j: int, value: Seq<char>)
    requires
        0 <= i < groups.len(),
        0 <= j < groups[i].entries@.len(),
        token_css(groups[i].entries@[j].value) == Some(value),
    ensures
        exists|pre: Seq<char>, post: Seq<char>|
            css_text(groups) == pre + token_line(groups[i].name@, groups[i].entries@[j].key@, value) + post,
{
    let g = groups[i];
    let es = g.entries@;
    let e = es[j];
    let line = token_line(g.name@, e.key@, value);
    let e1 = es.subrange(0, j);
    let e2 = es.subrange(j + 1, es.len() as int);
    assert(es =~= e1 + seq![e] + e2);
    law_entry_lines_concatenate(g.name@, e1 + seq![e], e2);
    law_entry_lines_concatenate(g.name@, e1, seq![e]);
    assert(seq![e].drop_last() =~= Seq::<IrTokenEntry>::empty());
    assert(entries_css(g.name@, Seq::<IrTokenEntry>::empty()) == Seq::<char>::empty());
    assert(seq![e].last() == e);
    assert(entries_css(g.name@, seq![e]) =~= line);
    let g1 = groups.subrange(0, i);
    let g2 = groups.subrange(i + 1, groups.len() as int);
    assert(groups =~= g1 + seq![g] + g2);
    law_group_lines_concatenate(g1 + seq![g], g2);
    law_group_lines_concatenate(g1, seq![g]);
    assert(seq![g].drop_last() =~= Seq::<IrTokenGroup>::empty());
    assert(groups_css(Seq::<IrTokenGroup>::empty()) == Seq::<char>::empty());
    assert(seq![g].last() == g);
    assert(groups_css(seq![g]) =~= entries_css(g.name@, es));
    let pre = ":root {"@ + groups_css(g1) + entries_css(g.name@, e1);
    let post = entries_css(g.name@, e2) + groups_css(g2) + "\n}"@;
    assert(css_text(groups) =~= pre + line + post);
}

} // verus!
