use vstd::prelude::*;

use crate::ir::extra::lower_char;
use crate::ir::IrDocument;
use crate::lint::rules::upper_char;
use crate::ir::extra::lower;
use crate::text::{char_to_uppercase, char_uppercase_of, chars_of, is_ascii_text, lowercase_of, push_str, string_of, to_lowercase};
use super::html::{generate_html, html_spec};
use super::tokens::{css_text, generate_css};

verus! {

// ---------------------------------------------------------------------------
// A React component of a design
// ---------------------------------------------------------------------------

/// Whether `needle` stands in `hay` at `i`.
pub open spec fn is_at(hay: Seq<char>, needle: Seq<char>, i: int) -> bool {
    0 <= i && i + needle.len() <= hay.len() && hay.subrange(i, i + needle.len()) == needle
}

/// The first place from `i` on where `needle` stands in `hay`.
pub open spec fn find_from(hay: Seq<char>, needle: Seq<char>, i: int) -> Option<int>
    decreases hay.len() + 1 - i,
{
    if i < 0 || i + needle.len() > hay.len() {
        None
    } else if is_at(hay, needle, i) {
        Some(i)
    } else {
        find_from(hay, needle, i + 1)
    }
}

/// Where the body of a page starts: past `<body>` and its line break.
pub open spec fn body_start(h: Seq<char>) -> int {
    match find_from(h, "<body>"@, 0) {
        Some(i) => i + 7,
        None => 0,
    }
}

/// Where the body of a page ends: at `</body>`.
pub open spec fn body_end(h: Seq<char>) -> int {
    match find_from(h, "</body>"@, 0) {
        Some(i) => i,
        None => h.len() as int,
    }
}

/// Whether the body of a design's page can be cut out: it starts before it
/// ends. A canvas name or a token that holds `</body>` can break this.
pub open spec fn react_ok(ir: IrDocument) -> bool {
    let h = html_spec(ir);
    body_start(h) <= body_end(h) <= h.len()
}

/// A word separator of a component name.
pub open spec fn is_sep(c: char) -> bool {
    c == '-' || c == '_' || c == ' '
}

/// The PascalCase form of the first characters, for a name of ASCII
/// characters, and whether a word starts at the next one.
pub open spec fn pascal_fold(s: Seq<char>) -> (Seq<char>, bool)
    decreases s.len(),
{
    if s.len() == 0 {
        (Seq::empty(), true)
    } else {
        let (out, start) = pascal_fold(s.drop_last());
        let c = s.last();
        if is_sep(c) {
            (out, true)
        } else if start {
            (out.push(upper_char(c)), false)
        } else {
            (out.push(lower_char(c)), false)
        }
    }
}

/// The words read so far, and the word being read: the runs of characters
/// between `-`, `_` and spaces.
pub open spec fn words_fold(s: Seq<char>) -> (Seq<Seq<char>>, Seq<char>)
    decreases s.len(),
{
    if s.len() == 0 {
        (Seq::empty(), Seq::empty())
    } else {
        let (ws, cur) = words_fold(s.drop_last());
        let c = s.last();
        if is_sep(c) {
            if cur.len() > 0 {
                (ws.push(cur), Seq::empty())
            } else {
                (ws, Seq::empty())
            }
        } else {
            (ws, cur.push(c))
        }
    }
}

/// The words of a name, empty ones left out.
pub open spec fn words_of(s: Seq<char>) -> Seq<Seq<char>> {
    let (ws, cur) = words_fold(s);
    if cur.len() > 0 {
        ws.push(cur)
    } else {
        ws
    }
}

/// A word with its first character in upper case and the rest in lower
/// case, in Unicode.
pub open spec fn word_pascal(w: Seq<char>) -> Seq<char> {
    char_uppercase_of(w[0]) + lowercase_of(w.subrange(1, w.len() as int))
}

/// A word of ASCII characters with its first letter in upper case and the
/// rest in lower case.
pub open spec fn ascii_word(w: Seq<char>) -> Seq<char> {
    if w.len() == 0 {
        Seq::empty()
    } else {
        seq![upper_char(w[0])] + lower(w.subrange(1, w.len() as int))
    }
}

pub open spec fn join_words(ws: Seq<Seq<char>>) -> Seq<char>
    decreases ws.len(),
{
    if ws.len() == 0 {
        Seq::empty()
    } else {
        join_words(ws.drop_last()) + word_pascal(ws.last())
    }
}

/// A name in PascalCase: the words between `-`, `_` and spaces, each with
/// its first character in upper case and the rest in lower case.
pub open spec fn pascal_spec(s: Seq<char>) -> Seq<char> {
    join_words(words_of(s))
}

/// The component that wraps the body of the page.
pub open spec fn component_spec(ir: IrDocument) -> Seq<char> {
    let h = html_spec(ir);
    "import './tokens.css';\n\nexport function "@ + pascal_spec(ir.canvas.name@) + "() {\n  return (\n    <>\n"@
        + h.subrange(body_start(h), body_end(h)) + "    </>\n  );\n}\n"@
}

/// One word in PascalCase.
fn word_text(w: &Vec<char>) -> (r: String)
    requires
        w.len() > 0,
    ensures
        r@ == word_pascal(w@),
        is_ascii_text(w@) ==> r@ == ascii_word(w@),
{
    let mut r = char_to_uppercase(w[0]);
    let mut rest: Vec<char> = Vec::new();
    let mut i: usize = 1;
    while i < w.len()
        invariant
            1 <= i <= w.len(),
            rest@ =~= w@.subrange(1, i as int),
        decreases w.len() - i,
    {
        rest.push(w[i]);
        i = i + 1;
    }
    let rs = string_of(&rest);
    let low = to_lowercase(rs.as_str());
    push_str(&mut r, low.as_str());
    proof {
        if is_ascii_text(w@) {
            assert((w@[0] as u32) < 128);
            assert(is_ascii_text(rest@)) by {
                assert forall|k: int| 0 <= k < rest@.len() implies (#[trigger] rest@[k] as u32) < 128 by {
                    assert(rest@[k] == w@[k + 1]);
                }
            }
        }
    }
    r
}

pub fn pascal_case(s: &str) -> (r: String)
    ensures
        r@ == pascal_spec(s@),
        is_ascii_text(s@) ==> r@ == pascal_fold(s@).0,
{
    let cs = chars_of(s);
    let mut out = String::new();
    let mut cur: Vec<char> = Vec::new();
    let ghost mut ws: Seq<Seq<char>> = Seq::empty();
    let mut i: usize = 0;
    while i < cs.len()
        invariant
            i <= cs.len(),
            cs@ == s@,
            words_fold(cs@.subrange(0, i as int)) == (ws, cur@),
            out@ == join_words(ws),
            is_ascii_text(cs@.subrange(0, i as int)) ==> is_ascii_text(cur@) && out@ + ascii_word(cur@) == pascal_fold(
                cs@.subrange(0, i as int),
            ).0 && pascal_fold(cs@.subrange(0, i as int)).1 == (cur@.len() == 0),
        decreases cs.len() - i,
    {
        let c = cs[i];
        let ghost pre = cs@.subrange(0, i as int);
        let ghost nxt = cs@.subrange(0, i + 1);
        proof {
            assert(nxt.drop_last() =~= pre);
            assert(nxt.last() == c);
            if is_ascii_text(nxt) {
                assert forall|k: int| 0 <= k < pre.len() implies (#[trigger] pre[k] as u32) < 128 by {
                    assert(pre[k] == nxt[k]);
                }
                assert((nxt[i as int] as u32) < 128);
            }
        }
        if c == '-' || c == '_' || c == ' ' {
            if cur.len() > 0 {
                let w = word_text(&cur);
                push_str(&mut out, w.as_str());
                proof {
                    assert(ws.push(cur@).drop_last() =~= ws);
                    ws = ws.push(cur@);
                }
                cur = Vec::new();
                proof {
                    assert(ascii_word(cur@) =~= Seq::<char>::empty());
                    assert(out@ + ascii_word(cur@) =~= out@);
                }
            } else {
                proof {
                    assert(out@ + ascii_word(cur@) =~= out@);
                }
            }
        } else {
            let ghost c0 = cur@;
            cur.push(c);
            proof {
                if is_ascii_text(nxt) {
                    assert(is_ascii_text(cur@)) by {
                        assert forall|k: int| 0 <= k < cur@.len() implies (#[trigger] cur@[k] as u32) < 128 by {
                            if k < c0.len() {
                                assert(cur@[k] == c0[k]);
                            }
                        }
                    }
                    if c0.len() == 0 {
                        assert(ascii_word(cur@) =~= seq![upper_char(c)] + lower(Seq::<char>::empty()));
                    } else {
                        assert(cur@.subrange(1, cur@.len() as int) =~= c0.subrange(1, c0.len() as int).push(c));
                        assert(lower(c0.subrange(1, c0.len() as int).push(c)) =~= lower(c0.subrange(1, c0.len() as int)).push(lower_char(c)));
                        assert(ascii_word(cur@) =~= ascii_word(c0).push(lower_char(c)));
                    }
                }
            }
        }
        i = i + 1;
    }
    proof {
        assert(cs@.subrange(0, cs.len() as int) =~= cs@);
    }
    if cur.len() > 0 {
        let w = word_text(&cur);
        push_str(&mut out, w.as_str());
        proof {
            assert(ws.push(cur@).drop_last() =~= ws);
        }
    } else {
        proof {
            assert(out@ + ascii_word(cur@) =~= out@);
        }
    }
    out
}

/// The first place where `needle` stands in `hay`.
fn find(hay: &Vec<char>, needle: &Vec<char>) -> (r: Option<usize>)
    ensures
        match r {
            Some(i) => find_from(hay@, needle@, 0) == Some(i as int) && i + needle.len() <= hay.len(),
            None => find_from(hay@, needle@, 0) is None,
        },
{
    let mut i: usize = 0;
    if needle.len() > hay.len() {
        return None;
    }
    while i <= hay.len() - needle.len()
        invariant
            needle.len() <= hay.len(),
            i <= hay.len() - needle.len() + 1,
            find_from(hay@, needle@, 0) == find_from(hay@, needle@, i as int),
        decreases hay.len() - i,
    {
        let mut j: usize = 0;
        let mut same = true;
        while j < needle.len()
            invariant
                j <= needle.len(),
                i + needle.len() <= hay.len(),
                same == (forall|k: int| 0 <= k < j ==> hay@[i + k] == needle@[k]),
            decreases needle.len() - j,
        {
            if hay[i + j] != needle[j] {
                same = false;
            }
            j = j + 1;
        }
        proof {
            if same {
                assert(hay@.subrange(i as int, i + needle.len()) =~= needle@);
            } else {
                let k = choose|k: int| 0 <= k < needle.len() && hay@[i + k] != needle@[k];
                assert(hay@.subrange(i as int, i + needle.len())[k] != needle@[k]);
            }
        }
        if same {
            return Some(i);
        }
        i = i + 1;
    }
    None
}

/// Whether the component of a design can be made: the body of its page can
/// be cut out.
pub fn can_generate_react(ir: &IrDocument) -> (b: bool)
    ensures
        b == react_ok(*ir),
{
    let html = generate_html(ir);
    let hs = chars_of(html.as_str());
    let open = chars_of("<body>");
    let close = chars_of("</body>");
    proof {
        reveal_strlit("<body>");
        reveal_strlit("</body>");
    }
    let start: usize = match find(&hs, &open) {
        Some(i) => {
            if hs.len() - i < 7 {
                return false;
            }
            i + 7
        },
        None => 0,
    };
    let end = match find(&hs, &close) {
        Some(i) => i,
        None => hs.len(),
    };
    start <= end && end <= hs.len()
}

/// Generate React component + tokens CSS from IR.
pub fn generate_react(ir: &IrDocument) -> (r: (String, String))
    requires
        react_ok(*ir),
    ensures
        r.0@ == component_spec(*ir),
        r.1@ == css_text(ir.tokens@),
{
    let tokens_css = generate_css(ir.tokens.as_slice());
    let html = generate_html(ir);
    let hs = chars_of(html.as_str());
    let open = chars_of("<body>");
    let close = chars_of("</body>");
    proof {
        reveal_strlit("<body>");
        reveal_strlit("</body>");
    }
    // Wrap HTML body content into a React component
    let body_start: usize = match find(&hs, &open) {
        Some(i) => i + 7,
        None => 0,
    };
    let body_end = match find(&hs, &close) {
        Some(i) => i,
        None => hs.len(),
    };
    let mut body: Vec<char> = Vec::new();
    let mut k = body_start;
    while k < body_end
        invariant
            body_start <= k <= body_end <= hs.len(),
            body@ == hs@.subrange(body_start as int, k as int),
        decreases body_end - k,
    {
        body.push(hs[k]);
        proof {
            assert(body@ =~= hs@.subrange(body_start as int, k + 1));
        }
        k = k + 1;
    }
    let name = pascal_case(ir.canvas.name.as_str());
    let mut component = String::new();
    push_str(&mut component, "import './tokens.css';\n\nexport function ");
    push_str(&mut component, name.as_str());
    push_str(&mut component, "() {\n  return (\n    <>\n");
    let b = string_of(&body);
    push_str(&mut component, b.as_str());
    push_str(&mut component, "    </>\n  );\n}\n");
    proof {
        assert(component@ =~= component_spec(*ir));
    }
    (component, tokens_css)
}

} // verus!
