use vstd::prelude::*;

use crate::lexer::{
    dots_end, digit_end, digit_val, fold_digits, lemma_fold_concat, hex_end, ident_end, is_digit, is_hex, is_ident_char,
    is_ident_start, lemma_line_end, lemma_scan_advances, lemma_skip_blank, lex_spec, line_end, scan_spec, skip_blank,
    string_body, Pos,
};
use crate::text::{digit_char, fixed_digits, int_chars, nat_digits};
use crate::number::{decimal_chars, decimal_of, lemma_decimal_of, lemma_decimal_same, lemma_pow10_pos, parts_wf, pow10, Decimal};
use crate::formatter::float_text;
use crate::ast::Expr;
use crate::ast::{AssetV, AttrV, CanvasV, ComponentV, IncludeV, ParamV, LetV, NodeKind, NodeV, PageV, ProgramV, TokenBlockV, TokenEntryV};
use crate::parser::grammar::{
    asset_spec, decl_spec, empty_program, entries_spec, expr_spec, include_spec, let_spec, list_spec, object_spec, parse_spec,
    program_spec, skip_comma, arg_key, use_args_spec, use_spec, token_block_spec, attr_spec, params_spec, component_spec, attrs_spec, body_spec, canvas_spec, expect_spec, ident_spec,
    is_node_start, node_kind_of, node_spec, page_nodes_spec, page_spec, string_spec,
};
use crate::pipeline::parse_source_spec;
use crate::lexer::tokenize_spec;
use crate::formatter::{
    asset_text, attr_lines, decl_texts, fmt_expr_spec, fmt_list, fmt_node_spec, fmt_nodes_spec, fmt_pairs, format_spec,
    include_text, inline_attrs, inline_len, is_inline, join_decls, kind_word, let_text, node_head, page_text, token_text,
    canvas_text, component_text, params_text, use_args_text, use_arg_text, is_positional,
};
use crate::token::{keyword_of, Kind, TokenV};

verus! {

// ---------------------------------------------------------------------------
// What the lexer reads back of written text
// ---------------------------------------------------------------------------

pub open spec fn kinds(ts: Seq<TokenV>) -> Seq<Kind> {
    ts.map_values(|t: TokenV| t.kind)
}

/// The kinds of the tokens from `st` on, or `None` on a lexical error.
pub open spec fn lex_kinds(src: Seq<char>, st: Pos) -> Option<Seq<Kind>> {
    match lex_spec(src, st) {
        Ok(ts) => Some(kinds(ts)),
        Err(_) => None,
    }
}

proof fn lemma_digit_char(d: int)
    requires
        0 <= d < 10,
    ensures
        is_digit(digit_char(d)),
        digit_val(digit_char(d)) == d,
        is_ident_char(digit_char(d)),
        !is_ident_start(digit_char(d)),
{
    assert(((d + 48) as u8) as int == d + 48);
}

proof fn lemma_nat_digits(n: nat)
    ensures
        nat_digits(n).len() > 0,
        forall|k: int| 0 <= k < nat_digits(n).len() ==> is_digit(#[trigger] nat_digits(n)[k]),
        fold_digits(0, nat_digits(n)) == n,
    decreases n,
{
    if n < 10 {
        lemma_digit_char(n as int);
        let ds = nat_digits(n);
        assert(ds.drop_last() =~= Seq::<char>::empty());
        assert(fold_digits(0, ds.drop_last()) == 0);
        assert(fold_digits(0, ds) == fold_digits(0, ds.drop_last()) * 10 + digit_val(ds.last()));
    } else {
        lemma_nat_digits(n / 10);
        lemma_digit_char((n % 10) as int);
        let ds = nat_digits(n);
        assert(ds.drop_last() =~= nat_digits(n / 10));
        assert(ds.last() == digit_char((n % 10) as int));
        assert(fold_digits(0, ds) == fold_digits(0, ds.drop_last()) * 10 + digit_val(ds.last()));
        assert((n / 10) * 10 + n % 10 == n);
        assert forall|k: int| 0 <= k < ds.len() implies is_digit(#[trigger] ds[k]) by {
            if k < ds.len() - 1 {
                assert(ds[k] == nat_digits(n / 10)[k]);
            }
        }
    }
}

/// `k` in front of the kinds `r`.
pub open spec fn cons(k: Kind, r: Option<Seq<Kind>>) -> Option<Seq<Kind>> {
    match r {
        Some(ks) => Some(seq![k] + ks),
        None => None,
    }
}

proof fn lemma_skip_pos(src: Seq<char>, a: Pos, b: Pos)
    requires
        a.pos == b.pos,
    ensures
        skip_blank(src, a).pos == skip_blank(src, b).pos,
    decreases src.len() - a.pos,
{
    if 0 <= a.pos < src.len() {
        let c = src[a.pos];
        if c == ' ' || c == '\t' || c == '\r' {
            lemma_skip_pos(
                src,
                Pos { pos: a.pos + 1, line: a.line, col: a.col + 1 },
                Pos { pos: b.pos + 1, line: b.line, col: b.col + 1 },
            );
        } else if c == '\n' {
            lemma_skip_pos(src, Pos { pos: a.pos + 1, line: a.line + 1, col: 1 }, Pos { pos: b.pos + 1, line: b.line + 1, col: 1 });
        } else if c == '/' && a.pos + 1 < src.len() && src[a.pos + 1] == '/' {
            let e = line_end(src, a.pos + 1);
            lemma_line_end(src, a.pos + 1);
            lemma_skip_pos(
                src,
                Pos { pos: e, line: a.line, col: a.col + (e - a.pos) },
                Pos { pos: e, line: b.line, col: b.col + (e - b.pos) },
            );
        }
    }
}

proof fn lemma_body_pos(src: Seq<char>, i: int, l1: int, c1: int, l2: int, c2: int, acc: Seq<char>)
    ensures
        match (string_body(src, i, l1, c1, acc), string_body(src, i, l2, c2, acc)) {
            (Some((e1, _, _, v1)), Some((e2, _, _, v2))) => e1 == e2 && v1 == v2,
            (None, None) => true,
            _ => false,
        },
    decreases src.len() - i,
{
    if i < 0 || i >= src.len() {
    } else if src[i] == '"' {
    } else {
        let ch = src[i];
        let la = if ch == '\n' { l1 + 1 } else { l1 };
        let ca = if ch == '\n' { 1 } else { c1 + 1 };
        let lb = if ch == '\n' { l2 + 1 } else { l2 };
        let cb = if ch == '\n' { 1 } else { c2 + 1 };
        if ch == '\\' && i + 1 < src.len() {
            lemma_body_pos(src, i + 2, la, ca + 1, lb, cb + 1, acc + crate::lexer::unescape(src[i + 1]));
        } else {
            lemma_body_pos(src, i + 1, la, ca, lb, cb, acc.push(ch));
        }
    }
}

proof fn lemma_scan_pos(src: Seq<char>, a: Pos, b: Pos)
    requires
        a.pos == b.pos,
        0 <= a.pos < src.len(),
    ensures
        scan_spec(src, a) is Ok <==> scan_spec(src, b) is Ok,
        scan_spec(src, a) is Ok ==> scan_spec(src, a)->Ok_0.0.kind == scan_spec(src, b)->Ok_0.0.kind
            && scan_spec(src, a)->Ok_0.1.pos == scan_spec(src, b)->Ok_0.1.pos,
{
    let p = a.pos;
    if src[p] == '"' {
        lemma_body_pos(src, p + 1, a.line, a.col + 1, b.line, b.col + 1, Seq::empty());
    }
}

proof fn lemma_kinds_cons(t: TokenV, rest: Seq<TokenV>)
    ensures
        kinds(seq![t] + rest) == seq![t.kind] + kinds(rest),
{
    assert(kinds(seq![t] + rest) =~= seq![t.kind] + kinds(rest));
}

/// The kinds that the lexer reads depend on the position only, not on the
/// line and column it counts.
#[verifier::rlimit(40)]
#[verifier::spinoff_prover]
proof fn lemma_lex_pos(src: Seq<char>, a: Pos, b: Pos)
    requires
        a.pos == b.pos,
    ensures
        lex_kinds(src, a) == lex_kinds(src, b),
    decreases src.len() - a.pos,
{
    if a.pos < 0 || a.pos > src.len() {
    } else {
        let s1a = skip_blank(src, a);
        let s1b = skip_blank(src, b);
        lemma_skip_blank(src, a);
        lemma_skip_pos(src, a, b);
        if s1a.pos >= src.len() {
            let ta = seq![TokenV { kind: Kind::Eof, span: crate::lexer::mk_span(s1a.pos, s1a.pos, s1a.line, s1a.col) }];
            let tb = seq![TokenV { kind: Kind::Eof, span: crate::lexer::mk_span(s1b.pos, s1b.pos, s1b.line, s1b.col) }];
            assert(kinds(ta) =~= seq![Kind::Eof]);
            assert(kinds(tb) =~= seq![Kind::Eof]);
        } else {
            lemma_scan_pos(src, s1a, s1b);
            lemma_scan_advances(src, s1a);
            match scan_spec(src, s1a) {
                Err(_) => {},
                Ok((ta, s2a)) => {
                    let (tb, s2b) = scan_spec(src, s1b)->Ok_0;
                    lemma_lex_pos(src, s2a, s2b);
                    match lex_spec(src, s2a) {
                        Ok(ra) => {
                            let rb = lex_spec(src, s2b)->Ok_0;
                            lemma_kinds_cons(ta, ra);
                            lemma_kinds_cons(tb, rb);
                        },
                        Err(_) => {},
                    }
                },
            }
        }
    }
}

/// A blank or a line break is skipped.
#[verifier::rlimit(40)]
#[verifier::spinoff_prover]
proof fn lemma_lex_blank(src: Seq<char>, st: Pos, next: Pos)
    requires
        0 <= st.pos < src.len(),
        src[st.pos] == ' ' || src[st.pos] == '\n',
        next.pos == st.pos + 1,
    ensures
        lex_kinds(src, st) == lex_kinds(src, next),
{
    let st1 = if src[st.pos] == ' ' {
        Pos { pos: st.pos + 1, line: st.line, col: st.col + 1 }
    } else {
        Pos { pos: st.pos + 1, line: st.line + 1, col: 1 }
    };
    assert(skip_blank(src, st) == skip_blank(src, st1));
    assert(lex_spec(src, st) == lex_spec(src, st1));
    lemma_lex_pos(src, st1, next);
}

/// A token that starts at `st` comes first.
#[verifier::rlimit(40)]
#[verifier::spinoff_prover]
proof fn lemma_lex_tok(src: Seq<char>, st: Pos)
    requires
        0 <= st.pos < src.len(),
        src[st.pos] != ' ' && src[st.pos] != '\t' && src[st.pos] != '\r' && src[st.pos] != '\n',
        src[st.pos] != '/',
        scan_spec(src, st) is Ok,
    ensures
        lex_kinds(src, st) == cons(scan_spec(src, st)->Ok_0.0.kind, lex_kinds(src, scan_spec(src, st)->Ok_0.1)),
{
    assert(skip_blank(src, st) == st);
    let (t, s2) = scan_spec(src, st)->Ok_0;
    match lex_spec(src, s2) {
        Ok(r) => lemma_kinds_cons(t, r),
        Err(_) => {},
    }
}

proof fn lemma_ident_end_at(src: Seq<char>, i: int, e: int)
    requires
        0 <= i <= e < src.len(),
        forall|k: int| i <= k < e ==> is_ident_char(#[trigger] src[k]),
        !is_ident_char(src[e]),
    ensures
        ident_end(src, i) == e,
    decreases e - i,
{
    if i < e {
        lemma_ident_end_at(src, i + 1, e);
    }
}

proof fn lemma_digit_end_at(src: Seq<char>, i: int, e: int)
    requires
        0 <= i <= e < src.len(),
        forall|k: int| i <= k < e ==> is_digit(#[trigger] src[k]),
        !is_digit(src[e]),
    ensures
        digit_end(src, i) == e,
    decreases e - i,
{
    if i < e {
        lemma_digit_end_at(src, i + 1, e);
    }
}

proof fn lemma_hex_end_at(src: Seq<char>, i: int, e: int)
    requires
        0 <= i <= e < src.len(),
        forall|k: int| i <= k < e ==> is_hex(#[trigger] src[k]),
        !is_hex(src[e]),
    ensures
        hex_end(src, i) == e,
    decreases e - i,
{
    if i < e {
        lemma_hex_end_at(src, i + 1, e);
    }
}

/// A name: a letter or `_`, then letters, digits, `_` and `-`.
pub open spec fn is_name(w: Seq<char>) -> bool {
    &&& w.len() > 0
    &&& is_ident_start(w[0])
    &&& forall|k: int| 0 <= k < w.len() ==> is_ident_char(#[trigger] w[k])
}

/// The kind of token a word is read as.
pub open spec fn word_kind(w: Seq<char>) -> Kind {
    match keyword_of(w) {
        Some(k) => k,
        None => Kind::Ident(w),
    }
}

/// A word followed by a character that cannot continue it.
proof fn lemma_scan_word(src: Seq<char>, st: Pos, w: Seq<char>)
    requires
        0 <= st.pos,
        st.pos + w.len() < src.len(),
        src.subrange(st.pos, st.pos + w.len()) == w,
        is_name(w),
        !is_ident_char(src[st.pos + w.len()]),
        src[st.pos + w.len()] != '.',
    ensures
        scan_spec(src, st) is Ok,
        scan_spec(src, st)->Ok_0.0.kind == word_kind(w),
        scan_spec(src, st)->Ok_0.1.pos == st.pos + w.len(),
{
    let p = st.pos;
    let e = p + w.len();
    assert forall|k: int| p <= k < e implies is_ident_char(#[trigger] src[k]) by {
        assert(src[k] == w[k - p]);
    }
    lemma_ident_end_at(src, p, e);
    assert(src[p] == w[0]);
    assert(dots_end(src, e) == e);
}

/// The text of an integer followed by a character that cannot continue a
/// number.
proof fn lemma_scan_int(src: Seq<char>, st: Pos, n: int)
    requires
        i64::MIN <= n <= i64::MAX,
        0 <= st.pos,
        st.pos + int_chars(n).len() < src.len(),
        src.subrange(st.pos, st.pos + int_chars(n).len()) == int_chars(n),
        !is_digit(src[st.pos + int_chars(n).len()]),
        src[st.pos + int_chars(n).len()] != '.',
    ensures
        scan_spec(src, st) is Ok,
        scan_spec(src, st)->Ok_0.0.kind == Kind::Integer(n),
        scan_spec(src, st)->Ok_0.1.pos == st.pos + int_chars(n).len(),
{
    let p = st.pos;
    let t = int_chars(n);
    let neg = n < 0;
    let m: nat = if neg { (-n) as nat } else { n as nat };
    let ds = nat_digits(m);
    lemma_nat_digits(m);
    let i = if neg { p + 1 } else { p };
    let e = p + t.len();
    assert(e == i + ds.len());
    assert forall|k: int| i <= k < e implies is_digit(#[trigger] src[k]) by {
        assert(src[k] == t[k - p]);
        if neg {
            assert(t[k - p] == ds[k - p - 1]);
        } else {
            assert(t[k - p] == ds[k - p]);
        }
    }
    lemma_digit_end_at(src, i, e);
    assert(src.subrange(i, e) =~= ds) by {
        assert forall|k: int| 0 <= k < ds.len() implies src.subrange(i, e)[k] == ds[k] by {
            assert(src[i + k] == t[i + k - p]);
        }
    }
    assert(src[p] == t[0]);
    if neg {
        assert(src[p + 1] == t[1]);
        assert(t[1] == ds[0]);
    } else {
        assert(t[0] == ds[0]);
    }
}

/// The lowest `w` digits of `n`, read after the value `acc`.
proof fn lemma_fixed_digits(n: nat, w: nat, acc: int)
    ensures
        fixed_digits(n, w).len() == w,
        forall|k: int| 0 <= k < w ==> is_digit(#[trigger] fixed_digits(n, w)[k]),
        fold_digits(acc, fixed_digits(n, w)) == acc * pow10(w) + (n as int) % pow10(w),
        w > 0 ==> fixed_digits(n, w).last() == digit_char((n % 10) as int),
    decreases w,
{
    if w > 0 {
        let w1 = (w - 1) as nat;
        let f = fixed_digits(n, w);
        let f1 = fixed_digits(n / 10, w1);
        lemma_fixed_digits(n / 10, w1, acc);
        lemma_digit_char((n % 10) as int);
        assert(f.drop_last() =~= f1);
        let pp = pow10(w1);
        lemma_pow10_pos(w1);
        vstd::arithmetic::div_mod::lemma_mod_breakdown(n as int, 10, pp);
        assert(pow10(w) == 10 * pp);
        let x = ((n / 10) as int) % pp;
        assert(fold_digits(acc, f) == (acc * pp + x) * 10 + n % 10);
        assert((acc * pp + x) * 10 + n % 10 == acc * (10 * pp) + (10 * x + n % 10)) by (nonlinear_arith);
        assert((n as int) % (10 * pp) == 10 * x + n % 10);
        assert forall|k: int| 0 <= k < w implies is_digit(#[trigger] f[k]) by {
            if k < w - 1 {
                assert(f[k] == f1[k]);
            }
        }
    }
}

/// The text of a number followed by a character that is not a digit.
#[verifier::rlimit(60)]
#[verifier::spinoff_prover]
proof fn lemma_scan_float(src: Seq<char>, st: Pos, d: Decimal)
    requires
        float_ok(d),
        0 <= st.pos,
        st.pos + float_text(d).len() < src.len(),
        src.subrange(st.pos, st.pos + float_text(d).len()) == float_text(d),
        !is_digit(src[st.pos + float_text(d).len()]),
    ensures
        scan_spec(src, st) is Ok,
        scan_spec(src, st)->Ok_0.0.kind == Kind::Float(d),
        scan_spec(src, st)->Ok_0.1.pos == st.pos + float_text(d).len(),
        src[st.pos] == '-' || is_digit(src[st.pos]),
{
    let p = st.pos;
    let t = float_text(d);
    let mant = d.mant();
    let s = d.scl();
    let neg = mant < 0;
    let a: int = if neg { -mant } else { mant };
    let sign: Seq<char> = if neg { seq!['-'] } else { Seq::empty() };
    let sl = sign.len() as int;
    let i = p + sl;
    assert(src.subrange(p, p + t.len())[0] == src[p]);
    if s == 0 {
        reveal_strlit(".0");
        let ds = nat_digits(a as nat);
        lemma_nat_digits(a as nat);
        let l = ds.len() as int;
        let e = i + l;
        assert(t =~= sign + ds + ".0"@);
        assert forall|k: int| i <= k < e implies is_digit(#[trigger] src[k]) by {
            assert(src.subrange(p, p + t.len())[k - p] == src[k]);
            assert(t[k - p] == ds[k - i]);
        }
        assert(src.subrange(p, p + t.len())[e - p] == src[e]);
        assert(src.subrange(p, p + t.len())[e + 1 - p] == src[e + 1]);
        assert(src[e] == '.');
        assert(src[e + 1] == '0');
        lemma_digit_end_at(src, i, e);
        lemma_digit_end_at(src, e + 1, e + 2);
        assert(src.subrange(i, e) =~= ds) by {
            assert forall|k: int| 0 <= k < l implies src.subrange(i, e)[k] == ds[k] by {
                assert(src.subrange(p, p + t.len())[i + k - p] == src[i + k]);
            }
        }
        let z = src.subrange(e + 1, e + 2);
        assert(z =~= seq!['0']);
        assert(z.drop_last() =~= Seq::<char>::empty());
        assert(z.last() == '0');
        assert(crate::lexer::strip_zeros(Seq::<char>::empty()) == Seq::<char>::empty());
        assert(crate::lexer::strip_zeros(z) == crate::lexer::strip_zeros(z.drop_last()));
        assert(crate::lexer::strip_zeros(z) == Seq::<char>::empty());
        assert(ds + Seq::<char>::empty() =~= ds);
        if neg {
            assert(t[1] == ds[0]);
            assert(src.subrange(p, p + t.len())[1] == src[p + 1]);
        } else {
            assert(t[0] == ds[0]);
        }
        lemma_decimal_of(mant, 0);
        lemma_decimal_same(decimal_of(mant, 0), d);
    } else {
        let pp = pow10(s as nat);
        lemma_pow10_pos(s as nat);
        let q: nat = (a / pp) as nat;
        let r: nat = (a % pp) as nat;
        let ds = nat_digits(q);
        lemma_nat_digits(q);
        let fx = fixed_digits(r, s as nat);
        lemma_fixed_digits(r, s as nat, q as int);
        let l = ds.len() as int;
        let e = i + l;
        assert(t =~= sign + ds + seq!['.'] + fx);
        assert(t.len() == sl + l + 1 + s);
        assert forall|k: int| i <= k < e implies is_digit(#[trigger] src[k]) by {
            assert(src.subrange(p, p + t.len())[k - p] == src[k]);
            assert(t[k - p] == ds[k - i]);
        }
        assert forall|k: int| e + 1 <= k < e + 1 + s implies is_digit(#[trigger] src[k]) by {
            assert(src.subrange(p, p + t.len())[k - p] == src[k]);
            assert(t[k - p] == fx[k - e - 1]);
        }
        assert(src.subrange(p, p + t.len())[e - p] == src[e]);
        assert(src[e] == '.');
        lemma_digit_end_at(src, i, e);
        lemma_digit_end_at(src, e + 1, e + 1 + s);
        assert(is_digit(src[e + 1]));
        assert(src.subrange(i, e) =~= ds) by {
            assert forall|k: int| 0 <= k < l implies src.subrange(i, e)[k] == ds[k] by {
                assert(src.subrange(p, p + t.len())[i + k - p] == src[i + k]);
            }
        }
        assert(src.subrange(e + 1, e + 1 + s) =~= fx) by {
            assert forall|k: int| 0 <= k < s implies src.subrange(e + 1, e + 1 + s)[k] == fx[k] by {
                assert(src.subrange(p, p + t.len())[e + 1 + k - p] == src[e + 1 + k]);
            }
        }
        // the last fraction digit is not zero
        vstd::arithmetic::div_mod::lemma_fundamental_div_mod(a, pp);
        assert(pp == 10 * pow10((s - 1) as nat));
        lemma_pow10_pos((s - 1) as nat);
        vstd::arithmetic::div_mod::lemma_mod_breakdown(a, 10, pow10((s - 1) as nat));
        assert(a % 10 != 0) by {
            if a % 10 == 0 {
                vstd::arithmetic::div_mod::lemma_fundamental_div_mod(a, 10);
                assert(mant == 10 * (a / 10) || mant == -10 * (a / 10));
                assert(mant % 10 == 0) by (nonlinear_arith)
                    requires
                        mant == 10 * (a / 10) || mant == -10 * (a / 10),
                ;
            }
        }
        assert(r % 10 == a % 10) by (nonlinear_arith)
            requires
                r == 10 * ((a / 10) % pow10((s - 1) as nat)) + a % 10,
                0 <= a % 10 < 10,
        ;
        lemma_digit_char((r % 10) as int);
        assert(fx.last() != '0');
        assert(crate::lexer::strip_zeros(fx) == fx);
        vstd::arithmetic::div_mod::lemma_small_mod(r, pp as nat);
        assert((r as int) % pp == r);
        lemma_fold_concat(0, ds, fx);
        assert(fold_digits(0, ds + fx) == a);
        if neg {
            assert(t[1] == ds[0]);
            assert(src.subrange(p, p + t.len())[1] == src[p + 1]);
        } else {
            assert(t[0] == ds[0]);
        }
        lemma_decimal_of(mant, s);
        lemma_decimal_same(decimal_of(mant, s), d);
    }
}

/// The run of name characters from a place in a word is the same run in the
/// source where the word stands.
proof fn lemma_ident_end_shift(src: Seq<char>, p: int, w: Seq<char>, i: int)
    requires
        0 <= p,
        0 <= i <= w.len(),
        p + w.len() < src.len(),
        src.subrange(p, p + w.len()) == w,
        !is_ident_char(src[p + w.len()]),
    ensures
        ident_end(src, p + i) == p + ident_end(w, i),
        i <= ident_end(w, i) <= w.len(),
        ident_end(w, i) < w.len() ==> !is_ident_char(w[ident_end(w, i)]),
        forall|k: int| i <= k < ident_end(w, i) ==> is_ident_char(#[trigger] w[k]),
    decreases w.len() - i,
{
    if i < w.len() {
        assert(src[p + i] == w[i]) by {
            assert(src.subrange(p, p + w.len())[i] == src[p + i]);
        }
        if is_ident_char(w[i]) {
            lemma_ident_end_shift(src, p, w, i + 1);
        }
    }
}

/// After a part of a dotted name that ends at `j`, the lexer absorbs the
/// rest of the name.
proof fn lemma_dots_shift(src: Seq<char>, p: int, w: Seq<char>, j: int)
    requires
        is_dotted(w),
        0 <= p,
        0 < j <= w.len(),
        j == w.len() || w[j] == '.',
        p + w.len() < src.len(),
        src.subrange(p, p + w.len()) == w,
        !is_ident_char(src[p + w.len()]),
        src[p + w.len()] != '.',
    ensures
        dots_end(src, p + j) == p + w.len(),
    decreases w.len() - j,
{
    if j < w.len() {
        assert(src.subrange(p, p + w.len())[j] == src[p + j]);
        assert(src.subrange(p, p + w.len())[j + 1] == src[p + j + 1]);
        assert(is_ident_char(w[j + 1]));
        lemma_ident_end_shift(src, p, w, j + 1);
        let j2 = ident_end(w, j + 1);
        if j2 < w.len() {
            assert(!is_ident_char(w[j2]));
            assert(w[j2] == '.');
        }
        lemma_dots_shift(src, p, w, j2);
    }
}

/// A name or dotted reference followed by a character that cannot continue
/// it reads as one name.
proof fn lemma_scan_ref(src: Seq<char>, st: Pos, w: Seq<char>)
    requires
        0 <= st.pos,
        st.pos + w.len() < src.len(),
        src.subrange(st.pos, st.pos + w.len()) == w,
        is_ref(w),
        !is_ident_char(src[st.pos + w.len()]),
        src[st.pos + w.len()] != '.',
    ensures
        scan_spec(src, st) is Ok,
        scan_spec(src, st)->Ok_0.0.kind == Kind::Ident(w),
        scan_spec(src, st)->Ok_0.1.pos == st.pos + w.len(),
{
    let p = st.pos;
    lemma_ident_end_shift(src, p, w, 0);
    let e0 = ident_end(w, 0);
    assert(is_ident_char(w[0]));
    assert(e0 > 0);
    if e0 < w.len() {
        assert(w[e0] == '.');
    }
    lemma_dots_shift(src, p, w, e0);
    assert(src[p] == w[0]) by {
        assert(src.subrange(p, p + w.len())[0] == src[p]);
    }
    assert(src.subrange(p, p + e0) =~= w.subrange(0, e0)) by {
        assert forall|k: int| 0 <= k < e0 implies src.subrange(p, p + e0)[k] == w.subrange(0, e0)[k] by {
            assert(src.subrange(p, p + w.len())[k] == src[p + k]);
        }
    }
    assert(src.subrange(p, p + w.len()) == w);
}

/// A color literal: `#` and 6 or 8 hex digits, then a character that is not
/// a hex digit.
proof fn lemma_scan_color(src: Seq<char>, st: Pos, c: Seq<char>)
    requires
        c.len() == 6 || c.len() == 8,
        forall|k: int| 0 <= k < c.len() ==> is_hex(#[trigger] c[k]),
        0 <= st.pos,
        st.pos + 1 + c.len() < src.len(),
        src[st.pos] == '#',
        src.subrange(st.pos + 1, st.pos + 1 + c.len() as int) == c,
        !is_hex(src[st.pos + 1 + c.len()]),
    ensures
        scan_spec(src, st) is Ok,
        scan_spec(src, st)->Ok_0.0.kind == Kind::Color(c),
        scan_spec(src, st)->Ok_0.1.pos == st.pos + 1 + c.len(),
{
    let p = st.pos;
    let e = p + 1 + c.len();
    assert forall|k: int| p + 1 <= k < e implies is_hex(#[trigger] src[k]) by {
        assert(src[k] == c[k - p - 1]);
    }
    lemma_hex_end_at(src, p + 1, e);
}

/// Text without quotes or backslashes is read literally up to the closing
/// quote.
proof fn lemma_body_plain(src: Seq<char>, i: int, e: int, line: int, col: int, acc: Seq<char>)
    requires
        0 <= i <= e < src.len(),
        src[e] == '"',
        forall|k: int| i <= k < e ==> #[trigger] src[k] != '"' && src[k] != '\\',
    ensures
        match string_body(src, i, line, col, acc) {
            Some((end, _, _, text)) => end == e && text == acc + src.subrange(i, e),
            None => false,
        },
    decreases e - i,
{
    if i < e {
        let ch = src[i];
        let l1 = if ch == '\n' { line + 1 } else { line };
        let c1 = if ch == '\n' { 1 } else { col + 1 };
        lemma_body_plain(src, i + 1, e, l1, c1, acc.push(ch));
        assert(acc.push(ch) + src.subrange(i + 1, e) =~= acc + src.subrange(i, e));
    } else {
        assert(acc + src.subrange(i, e) =~= acc);
    }
}

pub open spec fn is_plain_text(t: Seq<char>) -> bool {
    forall|k: int| 0 <= k < t.len() ==> #[trigger] t[k] != '"' && t[k] != '\\'
}

/// A string literal without escapes.
proof fn lemma_scan_str(src: Seq<char>, st: Pos, t: Seq<char>)
    requires
        is_plain_text(t),
        0 <= st.pos,
        st.pos + t.len() + 2 <= src.len(),
        src[st.pos] == '"',
        src.subrange(st.pos + 1, st.pos + 1 + t.len()) == t,
        src[st.pos + 1 + t.len()] == '"',
    ensures
        scan_spec(src, st) is Ok,
        scan_spec(src, st)->Ok_0.0.kind == Kind::Str(t),
        scan_spec(src, st)->Ok_0.1.pos == st.pos + t.len() + 2,
{
    let p = st.pos;
    let e = p + 1 + t.len();
    assert forall|k: int| p + 1 <= k < e implies #[trigger] src[k] != '"' && src[k] != '\\' by {
        assert(src[k] == t[k - p - 1]);
    }
    lemma_body_plain(src, p + 1, e, st.line, st.col + 1, Seq::empty());
    assert(Seq::<char>::empty() + src.subrange(p + 1, e) =~= t);
}

/// A scanning position at index `p`.
pub open spec fn at(p: int) -> Pos {
    Pos { pos: p, line: 1, col: 1 }
}

/// A number that the formatter writes so that it reads back as itself: in
/// normal form (as every number the library makes is), and with fraction
/// digits or below 10^15 in size.
pub open spec fn float_ok(d: Decimal) -> bool {
    parts_wf(d.mant(), d.scl()) && (d.scl() > 0 || -1000000000000000 < d.mant() < 1000000000000000)
}

/// A name, or names joined by dots as a reference to a token is written
/// (`colors.primary`): a letter or `_` first, then letters, digits, `_`,
/// `-`, and dots that each stand before a letter or `_`.
pub open spec fn is_dotted(w: Seq<char>) -> bool {
    &&& w.len() > 0
    &&& is_ident_start(w[0])
    &&& forall|k: int|
        0 <= k < w.len() ==> is_ident_char(#[trigger] w[k]) || (w[k] == '.' && k + 1 < w.len() && is_ident_start(
            w[k + 1],
        ))
}

/// A reference that the lexer reads as one name: a dotted name whose first
/// part is no keyword, and that is no keyword itself.
pub open spec fn is_ref(w: Seq<char>) -> bool {
    &&& is_dotted(w)
    &&& keyword_of(w.subrange(0, ident_end(w, 0))) is None
    &&& keyword_of(w) is None
}

/// A value that the formatter writes as one token which reads back as the
/// same value: an integer, a number with a fraction, a string without quotes
/// or backslashes, a color, a boolean, or a name or dotted reference that
/// is not a keyword.
pub open spec fn is_atom(e: Expr) -> bool {
    match e {
        Expr::Integer(n) => i64::MIN <= n <= i64::MAX,
        Expr::Float(d) => float_ok(d),
        Expr::Str(t) => is_plain_text(t),
        Expr::Color(c) => (c.len() == 6 || c.len() == 8) && forall|k: int| 0 <= k < c.len() ==> is_hex(#[trigger] c[k]),
        Expr::Bool(_) => true,
        Expr::Ident(w) => is_ref(w),
        _ => false,
    }
}

/// The token an atom is read as.
pub open spec fn atom_kind(e: Expr) -> Kind {
    match e {
        Expr::Integer(n) => Kind::Integer(n),
        Expr::Float(d) => Kind::Float(d),
        Expr::Str(t) => Kind::Str(t),
        Expr::Color(c) => Kind::Color(c),
        Expr::Bool(b) => Kind::Bool(b),
        Expr::Ident(w) => Kind::Ident(w),
        _ => Kind::Eof,
    }
}

proof fn lemma_sub(src: Seq<char>, p: int, l: Seq<char>, a: int, b: int)
    requires
        0 <= p,
        p + l.len() <= src.len(),
        src.subrange(p, p + l.len()) == l,
        0 <= a <= b <= l.len(),
    ensures
        src.subrange(p + a, p + b) == l.subrange(a, b),
{
    assert forall|k: int| 0 <= k < b - a implies src.subrange(p + a, p + b)[k] == l.subrange(a, b)[k] by {
        assert(src.subrange(p, p + l.len())[a + k] == src[p + a + k]);
    }
    assert(src.subrange(p + a, p + b) =~= l.subrange(a, b));
}

proof fn lemma_at(src: Seq<char>, p: int, l: Seq<char>, a: int)
    requires
        0 <= p,
        p + l.len() <= src.len(),
        src.subrange(p, p + l.len()) == l,
        0 <= a < l.len(),
    ensures
        src[p + a] == l[a],
{
    assert(src.subrange(p, p + l.len())[a] == src[p + a]);
}

proof fn lemma_words()
    ensures
        is_name("let"@),
        is_name("true"@),
        is_name("false"@),
        is_name("include"@),
        is_name("asset"@),
        is_name("frame"@),
        is_name("text"@),
        is_name("image"@),
        is_name("shape"@),
        is_name("page"@),
        is_name("token"@),
        is_name("as"@),
        word_kind("let"@) == Kind::Let,
        word_kind("true"@) == Kind::Bool(true),
        word_kind("false"@) == Kind::Bool(false),
        word_kind("include"@) == Kind::Include,
        word_kind("asset"@) == Kind::Asset,
        word_kind("frame"@) == Kind::Frame,
        word_kind("text"@) == Kind::Text,
        word_kind("image"@) == Kind::Image,
        word_kind("shape"@) == Kind::Shape,
        word_kind("page"@) == Kind::Page,
        word_kind("token"@) == Kind::Ident("token"@),
        word_kind("as"@) == Kind::Ident("as"@),
        "token"@ != "as"@,
{
    reveal_strlit("canvas");
    reveal_strlit("asset");
    reveal_strlit("let");
    reveal_strlit("include");
    reveal_strlit("frame");
    reveal_strlit("text");
    reveal_strlit("image");
    reveal_strlit("shape");
    reveal_strlit("component");
    reveal_strlit("use");
    reveal_strlit("page");
    reveal_strlit("true");
    reveal_strlit("false");
    reveal_strlit("token");
    reveal_strlit("as");
    assert("let"@ != "canvas"@) by {
        assert("let"@[0] != "canvas"@[0]);
    }
    assert("let"@ != "asset"@) by {
        assert("let"@[0] != "asset"@[0]);
    }
    assert("true"@ != "canvas"@) by {
        assert("true"@[0] != "canvas"@[0]);
    }
    assert("true"@ != "asset"@) by {
        assert("true"@[0] != "asset"@[0]);
    }
    assert("true"@ != "let"@) by {
        assert("true"@[0] != "let"@[0]);
    }
    assert("true"@ != "include"@) by {
        assert("true"@[0] != "include"@[0]);
    }
    assert("true"@ != "frame"@) by {
        assert("true"@[0] != "frame"@[0]);
    }
    assert("true"@ != "text"@) by {
        assert("true"@[1] != "text"@[1]);
    }
    assert("true"@ != "image"@) by {
        assert("true"@[0] != "image"@[0]);
    }
    assert("true"@ != "shape"@) by {
        assert("true"@[0] != "shape"@[0]);
    }
    assert("true"@ != "component"@) by {
        assert("true"@[0] != "component"@[0]);
    }
    assert("true"@ != "use"@) by {
        assert("true"@[0] != "use"@[0]);
    }
    assert("true"@ != "page"@) by {
        assert("true"@[0] != "page"@[0]);
    }
    assert("false"@ != "canvas"@) by {
        assert("false"@[0] != "canvas"@[0]);
    }
    assert("false"@ != "asset"@) by {
        assert("false"@[0] != "asset"@[0]);
    }
    assert("false"@ != "let"@) by {
        assert("false"@[0] != "let"@[0]);
    }
    assert("false"@ != "include"@) by {
        assert("false"@[0] != "include"@[0]);
    }
    assert("false"@ != "frame"@) by {
        assert("false"@[1] != "frame"@[1]);
    }
    assert("false"@ != "text"@) by {
        assert("false"@[0] != "text"@[0]);
    }
    assert("false"@ != "image"@) by {
        assert("false"@[0] != "image"@[0]);
    }
    assert("false"@ != "shape"@) by {
        assert("false"@[0] != "shape"@[0]);
    }
    assert("false"@ != "component"@) by {
        assert("false"@[0] != "component"@[0]);
    }
    assert("false"@ != "use"@) by {
        assert("false"@[0] != "use"@[0]);
    }
    assert("false"@ != "page"@) by {
        assert("false"@[0] != "page"@[0]);
    }
    assert("false"@ != "true"@) by {
        assert("false"@[0] != "true"@[0]);
    }
    assert("include"@ != "canvas"@) by {
        assert("include"@[0] != "canvas"@[0]);
    }
    assert("include"@ != "asset"@) by {
        assert("include"@[0] != "asset"@[0]);
    }
    assert("include"@ != "let"@) by {
        assert("include"@[0] != "let"@[0]);
    }
    assert("asset"@ != "canvas"@) by {
        assert("asset"@[0] != "canvas"@[0]);
    }
    assert("frame"@ != "canvas"@) by {
        assert("frame"@[0] != "canvas"@[0]);
    }
    assert("frame"@ != "asset"@) by {
        assert("frame"@[0] != "asset"@[0]);
    }
    assert("frame"@ != "let"@) by {
        assert("frame"@[0] != "let"@[0]);
    }
    assert("frame"@ != "include"@) by {
        assert("frame"@[0] != "include"@[0]);
    }
    assert("text"@ != "canvas"@) by {
        assert("text"@[0] != "canvas"@[0]);
    }
    assert("text"@ != "asset"@) by {
        assert("text"@[0] != "asset"@[0]);
    }
    assert("text"@ != "let"@) by {
        assert("text"@[0] != "let"@[0]);
    }
    assert("text"@ != "include"@) by {
        assert("text"@[0] != "include"@[0]);
    }
    assert("text"@ != "frame"@) by {
        assert("text"@[0] != "frame"@[0]);
    }
    assert("image"@ != "canvas"@) by {
        assert("image"@[0] != "canvas"@[0]);
    }
    assert("image"@ != "asset"@) by {
        assert("image"@[0] != "asset"@[0]);
    }
    assert("image"@ != "let"@) by {
        assert("image"@[0] != "let"@[0]);
    }
    assert("image"@ != "include"@) by {
        assert("image"@[1] != "include"@[1]);
    }
    assert("image"@ != "frame"@) by {
        assert("image"@[0] != "frame"@[0]);
    }
    assert("image"@ != "text"@) by {
        assert("image"@[0] != "text"@[0]);
    }
    assert("shape"@ != "canvas"@) by {
        assert("shape"@[0] != "canvas"@[0]);
    }
    assert("shape"@ != "asset"@) by {
        assert("shape"@[0] != "asset"@[0]);
    }
    assert("shape"@ != "let"@) by {
        assert("shape"@[0] != "let"@[0]);
    }
    assert("shape"@ != "include"@) by {
        assert("shape"@[0] != "include"@[0]);
    }
    assert("shape"@ != "frame"@) by {
        assert("shape"@[0] != "frame"@[0]);
    }
    assert("shape"@ != "text"@) by {
        assert("shape"@[0] != "text"@[0]);
    }
    assert("shape"@ != "image"@) by {
        assert("shape"@[0] != "image"@[0]);
    }
    assert("page"@ != "canvas"@) by {
        assert("page"@[0] != "canvas"@[0]);
    }
    assert("page"@ != "asset"@) by {
        assert("page"@[0] != "asset"@[0]);
    }
    assert("page"@ != "let"@) by {
        assert("page"@[0] != "let"@[0]);
    }
    assert("page"@ != "include"@) by {
        assert("page"@[0] != "include"@[0]);
    }
    assert("page"@ != "frame"@) by {
        assert("page"@[0] != "frame"@[0]);
    }
    assert("page"@ != "text"@) by {
        assert("page"@[0] != "text"@[0]);
    }
    assert("page"@ != "image"@) by {
        assert("page"@[0] != "image"@[0]);
    }
    assert("page"@ != "shape"@) by {
        assert("page"@[0] != "shape"@[0]);
    }
    assert("page"@ != "component"@) by {
        assert("page"@[0] != "component"@[0]);
    }
    assert("page"@ != "use"@) by {
        assert("page"@[0] != "use"@[0]);
    }
    assert("token"@ != "canvas"@) by {
        assert("token"@[0] != "canvas"@[0]);
    }
    assert("token"@ != "asset"@) by {
        assert("token"@[0] != "asset"@[0]);
    }
    assert("token"@ != "let"@) by {
        assert("token"@[0] != "let"@[0]);
    }
    assert("token"@ != "include"@) by {
        assert("token"@[0] != "include"@[0]);
    }
    assert("token"@ != "frame"@) by {
        assert("token"@[0] != "frame"@[0]);
    }
    assert("token"@ != "text"@) by {
        assert("token"@[1] != "text"@[1]);
    }
    assert("token"@ != "image"@) by {
        assert("token"@[0] != "image"@[0]);
    }
    assert("token"@ != "shape"@) by {
        assert("token"@[0] != "shape"@[0]);
    }
    assert("token"@ != "component"@) by {
        assert("token"@[0] != "component"@[0]);
    }
    assert("token"@ != "use"@) by {
        assert("token"@[0] != "use"@[0]);
    }
    assert("token"@ != "page"@) by {
        assert("token"@[0] != "page"@[0]);
    }
    assert("token"@ != "true"@) by {
        assert("token"@[1] != "true"@[1]);
    }
    assert("token"@ != "false"@) by {
        assert("token"@[0] != "false"@[0]);
    }
    assert("as"@ != "canvas"@) by {
        assert("as"@[0] != "canvas"@[0]);
    }
    assert("as"@ != "asset"@) by {
        assert("as"@.len() != "asset"@.len());
    }
    assert("as"@ != "let"@) by {
        assert("as"@[0] != "let"@[0]);
    }
    assert("as"@ != "include"@) by {
        assert("as"@[0] != "include"@[0]);
    }
    assert("as"@ != "frame"@) by {
        assert("as"@[0] != "frame"@[0]);
    }
    assert("as"@ != "text"@) by {
        assert("as"@[0] != "text"@[0]);
    }
    assert("as"@ != "image"@) by {
        assert("as"@[0] != "image"@[0]);
    }
    assert("as"@ != "shape"@) by {
        assert("as"@[0] != "shape"@[0]);
    }
    assert("as"@ != "component"@) by {
        assert("as"@[0] != "component"@[0]);
    }
    assert("as"@ != "use"@) by {
        assert("as"@[0] != "use"@[0]);
    }
    assert("as"@ != "page"@) by {
        assert("as"@[0] != "page"@[0]);
    }
    assert("as"@ != "true"@) by {
        assert("as"@[0] != "true"@[0]);
    }
    assert("as"@ != "false"@) by {
        assert("as"@[0] != "false"@[0]);
    }
    assert("token"@ != "as"@) by {
        assert("token"@[0] != "as"@[0]);
    }
}

/// A character that ends a value: a blank, a line break, a comma or a
/// closing bracket.
pub open spec fn is_stop(c: char) -> bool {
    c == '\n' || c == ' ' || c == ',' || c == ']' || c == ')'
}

/// An atom followed by a character that ends a value reads as its one token.
#[verifier::rlimit(80)]
#[verifier::spinoff_prover]
proof fn lemma_lex_atom(src: Seq<char>, p: int, e: Expr)
    requires
        is_atom(e),
        0 <= p,
        p + fmt_expr_spec(e).len() < src.len(),
        src.subrange(p, p + fmt_expr_spec(e).len()) == fmt_expr_spec(e),
        is_stop(src[p + fmt_expr_spec(e).len()]),
    ensures
        lex_kinds(src, at(p)) == cons(atom_kind(e), lex_kinds(src, at(p + fmt_expr_spec(e).len()))),
{
    let t = fmt_expr_spec(e);
    let e2 = p + t.len();
    match e {
        Expr::Integer(n) => {
            lemma_scan_int(src, at(p), n);
            lemma_nat_digits(if n < 0 { (-n) as nat } else { n as nat });
            lemma_at(src, p, t, 0);
        },
        Expr::Float(d) => {
            lemma_scan_float(src, at(p), d);
        },
        Expr::Str(x) => {
            reveal_strlit("\"");
            lemma_at(src, p, t, 0);
            lemma_at(src, p, t, t.len() - 1);
            lemma_sub(src, p, t, 1, 1 + x.len() as int);
            assert(t.subrange(1, 1 + x.len() as int) =~= x);
            lemma_scan_str(src, at(p), x);
        },
        Expr::Color(c) => {
            reveal_strlit("#");
            lemma_at(src, p, t, 0);
            lemma_sub(src, p, t, 1, 1 + c.len() as int);
            assert(t.subrange(1, 1 + c.len() as int) =~= c);
            lemma_scan_color(src, at(p), c);
        },
        Expr::Bool(b) => {
            lemma_words();
            lemma_scan_word(src, at(p), t);
            lemma_at(src, p, t, 0);
        },
        Expr::Ident(w) => {
            lemma_scan_ref(src, at(p), w);
            lemma_at(src, p, t, 0);
        },
        _ => {},
    }
    let (tk, s2) = scan_spec(src, at(p))->Ok_0;
    lemma_lex_tok(src, at(p));
    lemma_lex_pos(src, s2, at(e2));
}

/// A `let` that reads back from its text: a name that is no keyword, and a
/// plain value.
pub open spec fn let_ok(l: LetV) -> bool {
    is_name(l.name) && keyword_of(l.name) is None && is_plain(l.value)
}

/// The tokens of a `let` line.
pub open spec fn let_kinds(l: LetV) -> Seq<Kind> {
    seq![Kind::Let, Kind::Ident(l.name), Kind::Equals] + expr_kinds(l.value)
}

pub open spec fn cons_all(ks: Seq<Kind>, r: Option<Seq<Kind>>) -> Option<Seq<Kind>> {
    match r {
        Some(rest) => Some(ks + rest),
        None => None,
    }
}

proof fn lemma_let_chars(l: LetV)
    ensures
        let_text(l).len() == 8 + (l.name.len() as int) + (fmt_expr_spec(l.value).len() as int),
        let_text(l).subrange(0, 3) == "let"@,
        let_text(l)[3] == ' ',
        let_text(l).subrange(4, 4 + (l.name.len() as int)) == l.name,
        let_text(l)[4 + (l.name.len() as int)] == ' ',
        let_text(l)[5 + (l.name.len() as int)] == '=',
        let_text(l)[6 + (l.name.len() as int)] == ' ',
        let_text(l).subrange(7 + (l.name.len() as int), 7 + (l.name.len() as int) + (fmt_expr_spec(l.value).len() as int)) == fmt_expr_spec(
            l.value,
        ),
        let_text(l)[7 + (l.name.len() as int) + (fmt_expr_spec(l.value).len() as int)] == '\n',
{
    reveal_strlit("let ");
    reveal_strlit("let");
    reveal_strlit(" = ");
    reveal_strlit("\n");
    let t = let_text(l);
    let n = l.name.len() as int;
    let vt = fmt_expr_spec(l.value);
    let m = vt.len() as int;
    assert(t.subrange(0, 3) =~= "let"@);
    assert(t.subrange(4, 4 + n) =~= l.name);
    assert(t.subrange(7 + n, 7 + n + m) =~= vt);
}

#[verifier::rlimit(80)]
#[verifier::spinoff_prover]
proof fn lemma_lex_let_word(src: Seq<char>, p: int, l: LetV)
    requires
        0 <= p,
        p + let_text(l).len() <= src.len(),
        src.subrange(p, p + let_text(l).len()) == let_text(l),
    ensures
        lex_kinds(src, at(p)) == cons(Kind::Let, lex_kinds(src, at(p + 4))),
{
    lemma_words();
    lemma_let_chars(l);
    let t = let_text(l);
    lemma_sub(src, p, t, 0, 3);
    lemma_at(src, p, t, 0);
    lemma_at(src, p, t, 3);
    lemma_scan_word(src, at(p), "let"@);
    lemma_lex_tok(src, at(p));
    lemma_lex_pos(src, scan_spec(src, at(p))->Ok_0.1, at(p + 3));
    lemma_lex_blank(src, at(p + 3), at(p + 4));
}

#[verifier::rlimit(30)]
#[verifier::spinoff_prover]
proof fn lemma_lex_let_name(src: Seq<char>, p: int, l: LetV)
    requires
        is_name(l.name),
        keyword_of(l.name) is None,
        0 <= p,
        p + let_text(l).len() <= src.len(),
        src.subrange(p, p + let_text(l).len()) == let_text(l),
    ensures
        lex_kinds(src, at(p + 4)) == cons(Kind::Ident(l.name), lex_kinds(src, at(p + 5 + l.name.len() as int))),
{
    lemma_let_chars(l);
    let t = let_text(l);
    let n = l.name.len() as int;
    lemma_sub(src, p, t, 4, 4 + n);
    lemma_at(src, p, t, 4);
    lemma_at(src, p, t, 4 + n);
    lemma_scan_word(src, at(p + 4), l.name);
    lemma_lex_tok(src, at(p + 4));
    lemma_lex_pos(src, scan_spec(src, at(p + 4))->Ok_0.1, at(p + 4 + n));
    lemma_lex_blank(src, at(p + 4 + n), at(p + 5 + n));
}

#[verifier::rlimit(40)]
#[verifier::spinoff_prover]
proof fn lemma_lex_let_equals(src: Seq<char>, p: int, l: LetV)
    requires
        0 <= p,
        p + let_text(l).len() <= src.len(),
        src.subrange(p, p + let_text(l).len()) == let_text(l),
    ensures
        lex_kinds(src, at(p + 5 + l.name.len() as int)) == cons(Kind::Equals, lex_kinds(src, at(p + 7 + l.name.len() as int))),
{
    lemma_let_chars(l);
    let t = let_text(l);
    let n = l.name.len() as int;
    lemma_at(src, p, t, 5 + n);
    lemma_lex_tok(src, at(p + 5 + n));
    lemma_lex_pos(src, scan_spec(src, at(p + 5 + n))->Ok_0.1, at(p + 6 + n));
    lemma_at(src, p, t, 6 + n);
    lemma_lex_blank(src, at(p + 6 + n), at(p + 7 + n));
}

/// `let NAME =` and the blank after it.
#[verifier::rlimit(40)]
#[verifier::spinoff_prover]
proof fn lemma_lex_let_head(src: Seq<char>, p: int, l: LetV)
    requires
        let_ok(l),
        0 <= p,
        p + let_text(l).len() <= src.len(),
        src.subrange(p, p + let_text(l).len()) == let_text(l),
    ensures
        lex_kinds(src, at(p)) == cons(Kind::Let, cons(Kind::Ident(l.name), cons(Kind::Equals, lex_kinds(src, at(p + 7 + l.name.len() as int))))),
{
    lemma_lex_let_word(src, p, l);
    lemma_lex_let_name(src, p, l);
    lemma_lex_let_equals(src, p, l);
}

proof fn lemma_cons_chain(l: LetV, y: Option<Seq<Kind>>)
    ensures
        cons(Kind::Let, cons(Kind::Ident(l.name), cons(Kind::Equals, cons_all(expr_kinds(l.value), y)))) == cons_all(
            let_kinds(l),
            y,
        ),
{
    match y {
        Some(rest) => {
            assert(seq![Kind::Let] + (seq![Kind::Ident(l.name)] + (seq![Kind::Equals] + (expr_kinds(l.value) + rest)))
                =~= let_kinds(l) + rest);
        },
        None => {},
    }
}

/// The value of a `let` line and the line break after it.
#[verifier::rlimit(40)]
#[verifier::spinoff_prover]
proof fn lemma_lex_let_tail(src: Seq<char>, p: int, l: LetV)
    requires
        let_ok(l),
        0 <= p,
        p + let_text(l).len() <= src.len(),
        src.subrange(p, p + let_text(l).len()) == let_text(l),
    ensures
        lex_kinds(src, at(p + 7 + l.name.len() as int)) == cons_all(expr_kinds(l.value), lex_kinds(src, at(p + let_text(l).len()))),
{
    lemma_let_chars(l);
    let t = let_text(l);
    let n = l.name.len() as int;
    let m = fmt_expr_spec(l.value).len() as int;
    lemma_sub(src, p, t, 7 + n, 7 + n + m);
    lemma_at(src, p, t, 7 + n + m);
    lemma_lex_expr(src, p + 7 + n, l.value);
    lemma_lex_blank(src, at(p + 7 + n + m), at(p + t.len()));
}

/// A `let` line as the formatter writes it reads as its four tokens.
#[verifier::rlimit(40)]
#[verifier::spinoff_prover]
proof fn lemma_lex_let(src: Seq<char>, p: int, l: LetV)
    requires
        let_ok(l),
        0 <= p,
        p + let_text(l).len() <= src.len(),
        src.subrange(p, p + let_text(l).len()) == let_text(l),
    ensures
        lex_kinds(src, at(p)) == cons_all(let_kinds(l), lex_kinds(src, at(p + let_text(l).len()))),
{
    lemma_lex_let_head(src, p, l);
    lemma_lex_let_tail(src, p, l);
    lemma_cons_chain(l, lex_kinds(src, at(p + let_text(l).len())));
}

proof fn lemma_join_front(ts: Seq<Seq<char>>)
    requires
        ts.len() >= 1,
    ensures
        ts.len() == 1 ==> join_decls(ts) == ts[0],
        ts.len() >= 2 ==> join_decls(ts) == ts[0] + "\n"@ + join_decls(ts.drop_first()),
    decreases ts.len(),
{
    if ts.len() == 1 {
        assert(ts.drop_last().len() == 0);
        assert(join_decls(ts.drop_last()) =~= Seq::<char>::empty());
        assert(ts.last() == ts[0]);
        assert(join_decls(ts) =~= ts[0]);
    } else if ts.len() == 2 {
        let d = ts.drop_last();
        lemma_join_front(d);
        let f = ts.drop_first();
        lemma_join_front(f);
        assert(f[0] == ts.last());
    } else {
        let d = ts.drop_last();
        let f = ts.drop_first();
        lemma_join_front(d);
        assert(d.drop_first() =~= f.drop_last());
        assert(f.last() == ts.last());
        assert(d[0] == ts[0]);
        assert(join_decls(ts) =~= ts[0] + "\n"@ + join_decls(f));
    }
}

// ---------------------------------------------------------------------------
// What the parser reads back of those tokens
// ---------------------------------------------------------------------------

/// The names and values that a program's `let` declarations bind, in order.
pub open spec fn bindings(vs: Seq<LetV>) -> Seq<(Seq<char>, Expr)> {
    vs.map_values(|l: LetV| (l.name, l.value))
}

#[verifier::rlimit(40)]
#[verifier::spinoff_prover]
proof fn lemma_parse_atom(toks: Seq<TokenV>, q: int, e: Expr)
    requires
        is_atom(e),
        0 <= q,
        q + 1 < toks.len(),
        toks[q].kind == atom_kind(e),
        toks[q + 1].kind != Kind::LParen,
    ensures
        expr_spec(toks, q) == Ok::<(Expr, int), crate::error::ErrorView>((e, q + 1)),
{
}

proof fn lemma_kinds_at(toks: Seq<TokenV>, q: int, ks: Seq<Kind>, k: int)
    requires
        0 <= q <= toks.len(),
        kinds(toks).subrange(q, toks.len() as int) == ks,
        0 <= k < ks.len(),
    ensures
        toks[q + k].kind == ks[k],
{
    assert(kinds(toks).subrange(q, toks.len() as int)[k] == kinds(toks)[q + k]);
}

proof fn lemma_same_bindings_text(a: Seq<LetV>, b: Seq<LetV>)
    requires
        bindings(a) == bindings(b),
    ensures
        a.map_values(|l: LetV| let_text(l)) == b.map_values(|l: LetV| let_text(l)),
{
    assert(bindings(a).len() == bindings(b).len());
    let ta = a.map_values(|l: LetV| let_text(l));
    let tb = b.map_values(|l: LetV| let_text(l));
    assert(bindings(a).len() == a.len());
    assert(bindings(b).len() == b.len());
    assert(a.len() == b.len());
    assert forall|i: int| 0 <= i < a.len() implies #[trigger] ta[i] == tb[i] by {
        assert(bindings(a)[i] == bindings(b)[i]);
        assert(bindings(a)[i] == (a[i].name, a[i].value));
        assert(bindings(b)[i] == (b[i].name, b[i].value));
        assert(ta[i] == let_text(a[i]));
        assert(tb[i] == let_text(b[i]));
    }
    assert(ta =~= tb);
}

// ---------------------------------------------------------------------------
// Nested values
// ---------------------------------------------------------------------------

/// A value that reads back from its text: an atom, or an array, object or
/// call whose parts read back (object keys and call names being names that
/// are no keyword).
pub open spec fn is_plain(e: Expr) -> bool
    decreases e, 1int,
{
    match e {
        Expr::Array(items) => plain_list(items),
        Expr::Object(pairs) => plain_pairs(pairs),
        Expr::Call(name, args) => is_name(name) && keyword_of(name) is None && plain_list(args),
        _ => is_atom(e),
    }
}

pub open spec fn plain_list(s: Seq<Expr>) -> bool
    decreases s, 0int,
{
    if s.len() == 0 {
        true
    } else {
        proof {
            assert(decreases_to!(s => s[0]));
        }
        is_plain(s[0]) && plain_list(s.subrange(1, s.len() as int))
    }
}

pub open spec fn plain_pairs(s: Seq<(Seq<char>, Expr)>) -> bool
    decreases s, 0int,
{
    if s.len() == 0 {
        true
    } else {
        proof {
            assert(decreases_to!(s => s[0]));
            assert(decreases_to!(s[0] => s[0].1));
        }
        is_name(s[0].0) && keyword_of(s[0].0) is None && is_plain(s[0].1) && plain_pairs(s.subrange(1, s.len() as int))
    }
}

/// The tokens of a value.
pub open spec fn expr_kinds(e: Expr) -> Seq<Kind>
    decreases e, 1int,
{
    match e {
        Expr::Array(items) => seq![Kind::LBracket] + list_kinds(items) + seq![Kind::RBracket],
        Expr::Object(pairs) => if pairs.len() == 0 {
            seq![Kind::LBrace, Kind::RBrace]
        } else {
            seq![Kind::LBrace] + pairs_kinds(pairs) + seq![Kind::RBrace]
        },
        Expr::Call(name, args) => seq![Kind::Ident(name), Kind::LParen] + list_kinds(args) + seq![Kind::RParen],
        _ => seq![atom_kind(e)],
    }
}

/// The tokens of values separated by commas.
pub open spec fn list_kinds(s: Seq<Expr>) -> Seq<Kind>
    decreases s, 0int,
{
    if s.len() == 0 {
        Seq::empty()
    } else {
        proof {
            assert(decreases_to!(s => s[0]));
        }
        expr_kinds(s[0]) + if s.len() > 1 {
            seq![Kind::Comma] + list_kinds(s.subrange(1, s.len() as int))
        } else {
            Seq::empty()
        }
    }
}

/// The tokens of `key = value` entries separated by commas.
pub open spec fn pairs_kinds(s: Seq<(Seq<char>, Expr)>) -> Seq<Kind>
    decreases s, 0int,
{
    if s.len() == 0 {
        Seq::empty()
    } else {
        proof {
            assert(decreases_to!(s => s[0]));
            assert(decreases_to!(s[0] => s[0].1));
        }
        seq![Kind::Ident(s[0].0), Kind::Equals] + expr_kinds(s[0].1) + if s.len() > 1 {
            seq![Kind::Comma] + pairs_kinds(s.subrange(1, s.len() as int))
        } else {
            Seq::empty()
        }
    }
}

proof fn lemma_list_front(s: Seq<Expr>)
    requires
        s.len() >= 1,
    ensures
        fmt_list(s) == fmt_expr_spec(s[0]) + if s.len() > 1 {
            ", "@ + fmt_list(s.subrange(1, s.len() as int))
        } else {
            Seq::empty()
        },
    decreases s.len(),
{
    let f = s.subrange(1, s.len() as int);
    if s.len() == 1 {
        assert(s.drop_last().len() == 0);
        assert(fmt_list(s.drop_last()) =~= Seq::<char>::empty());
        assert(s.last() == s[0]);
        assert(fmt_list(s) =~= fmt_expr_spec(s[0]));
    } else if s.len() == 2 {
        let d = s.drop_last();
        lemma_list_front(d);
        lemma_list_front(f);
        assert(d[0] == s[0]);
        assert(f[0] == s.last());
        assert(fmt_list(d) =~= fmt_expr_spec(s[0]));
        assert(fmt_list(f) =~= fmt_expr_spec(s[1]));
        assert(fmt_list(s) =~= fmt_expr_spec(s[0]) + ", "@ + fmt_list(f));
    } else {
        let d = s.drop_last();
        lemma_list_front(d);
        assert(d.subrange(1, d.len() as int) =~= f.drop_last());
        assert(f.last() == s.last());
        assert(d[0] == s[0]);
        assert(fmt_list(f) == fmt_list(f.drop_last()) + ", "@ + fmt_expr_spec(f.last()));
        assert(fmt_list(s) =~= fmt_expr_spec(s[0]) + ", "@ + fmt_list(f));
    }
}

#[verifier::rlimit(40)]
#[verifier::spinoff_prover]
proof fn lemma_pairs_front(s: Seq<(Seq<char>, Expr)>)
    requires
        s.len() >= 1,
    ensures
        fmt_pairs(s) == s[0].0 + " = "@ + fmt_expr_spec(s[0].1) + if s.len() > 1 {
            ", "@ + fmt_pairs(s.subrange(1, s.len() as int))
        } else {
            Seq::empty()
        },
    decreases s.len(),
{
    let f = s.subrange(1, s.len() as int);
    if s.len() == 1 {
        assert(s.drop_last().len() == 0);
        assert(fmt_pairs(s.drop_last()) =~= Seq::<char>::empty());
        assert(s.last() == s[0]);
        assert(fmt_pairs(s) =~= s[0].0 + " = "@ + fmt_expr_spec(s[0].1));
    } else if s.len() == 2 {
        let d = s.drop_last();
        lemma_pairs_front(d);
        lemma_pairs_front(f);
        assert(d[0] == s[0]);
        assert(f[0] == s.last());
        assert(fmt_pairs(d) =~= s[0].0 + " = "@ + fmt_expr_spec(s[0].1));
        assert(fmt_pairs(f) =~= s[1].0 + " = "@ + fmt_expr_spec(s[1].1));
        assert(fmt_pairs(s) =~= s[0].0 + " = "@ + fmt_expr_spec(s[0].1) + ", "@ + fmt_pairs(f));
    } else {
        let d = s.drop_last();
        lemma_pairs_front(d);
        assert(d.subrange(1, d.len() as int) =~= f.drop_last());
        assert(f.last() == s.last());
        assert(d[0] == s[0]);
        assert(fmt_pairs(f) == fmt_pairs(f.drop_last()) + ", "@ + f.last().0 + " = "@ + fmt_expr_spec(f.last().1));
        assert(fmt_pairs(s) =~= s[0].0 + " = "@ + fmt_expr_spec(s[0].1) + ", "@ + fmt_pairs(f));
    }
}

pub open spec fn punct_kind(c: char) -> Kind {
    if c == '[' {
        Kind::LBracket
    } else if c == ']' {
        Kind::RBracket
    } else if c == '{' {
        Kind::LBrace
    } else if c == '}' {
        Kind::RBrace
    } else if c == '(' {
        Kind::LParen
    } else if c == ')' {
        Kind::RParen
    } else if c == ',' {
        Kind::Comma
    } else {
        Kind::Equals
    }
}

/// A bracket, a comma or `=` reads as its one token.
#[verifier::rlimit(40)]
#[verifier::spinoff_prover]
proof fn lemma_lex_punct(src: Seq<char>, p: int)
    requires
        0 <= p < src.len(),
        src[p] == '[' || src[p] == ']' || src[p] == '{' || src[p] == '}' || src[p] == '(' || src[p] == ')'
            || src[p] == ',' || src[p] == '=',
    ensures
        lex_kinds(src, at(p)) == cons(punct_kind(src[p]), lex_kinds(src, at(p + 1))),
{
    lemma_lex_tok(src, at(p));
    lemma_lex_pos(src, scan_spec(src, at(p))->Ok_0.1, at(p + 1));
}

proof fn lemma_cons_all_nil(x: Option<Seq<Kind>>)
    ensures
        cons_all(Seq::empty(), x) == x,
{
    match x {
        Some(r) => assert(Seq::<Kind>::empty() + r =~= r),
        None => {},
    }
}

proof fn lemma_cons_all_app(a: Seq<Kind>, b: Seq<Kind>, x: Option<Seq<Kind>>)
    ensures
        cons_all(a, cons_all(b, x)) == cons_all(a + b, x),
{
    match x {
        Some(r) => assert(a + (b + r) =~= (a + b) + r),
        None => {},
    }
}

proof fn lemma_cons_one(k: Kind, x: Option<Seq<Kind>>)
    ensures
        cons(k, x) == cons_all(seq![k], x),
{
}

/// A value followed by a character that ends it reads as its tokens.
#[verifier::rlimit(40)]
#[verifier::spinoff_prover]
proof fn lemma_lex_expr(src: Seq<char>, p: int, e: Expr)
    requires
        is_plain(e),
        0 <= p,
        p + fmt_expr_spec(e).len() < src.len(),
        src.subrange(p, p + fmt_expr_spec(e).len()) == fmt_expr_spec(e),
        is_stop(src[p + fmt_expr_spec(e).len()]),
    ensures
        lex_kinds(src, at(p)) == cons_all(expr_kinds(e), lex_kinds(src, at(p + fmt_expr_spec(e).len()))),
    decreases e, 2int,
{
    match e {
        Expr::Array(items) => lemma_lex_array(src, p, e),
        Expr::Object(pairs) => lemma_lex_object(src, p, e),
        Expr::Call(name, args) => lemma_lex_call(src, p, e),
        _ => {
            lemma_lex_atom(src, p, e);
            lemma_cons_one(atom_kind(e), lex_kinds(src, at(p + fmt_expr_spec(e).len())));
        },
    }
}

#[verifier::rlimit(40)]
#[verifier::spinoff_prover]
proof fn lemma_lex_array(src: Seq<char>, p: int, e: Expr)
    requires
        e is Array,
        is_plain(e),
        0 <= p,
        p + fmt_expr_spec(e).len() < src.len(),
        src.subrange(p, p + fmt_expr_spec(e).len()) == fmt_expr_spec(e),
    ensures
        lex_kinds(src, at(p)) == cons_all(expr_kinds(e), lex_kinds(src, at(p + fmt_expr_spec(e).len()))),
    decreases e, 1int,
{
    let items = e->Array_0;
    reveal_strlit("[");
    reveal_strlit("]");
    let t = fmt_expr_spec(e);
    let fl = fmt_list(items);
    let n = fl.len() as int;
    assert(t.len() == n + 2);
    lemma_at(src, p, t, 0);
    lemma_at(src, p, t, n + 1);
    lemma_sub(src, p, t, 1, 1 + n);
    assert(t.subrange(1, 1 + n) =~= fl);
    lemma_lex_punct(src, p);
    assert(decreases_to!(e => items));
    lemma_lex_list(src, p + 1, items);
    lemma_lex_punct(src, p + 1 + n);
    let x = lex_kinds(src, at(p + t.len()));
    lemma_cons_one(Kind::RBracket, x);
    lemma_cons_all_app(list_kinds(items), seq![Kind::RBracket], x);
    lemma_cons_one(Kind::LBracket, cons_all(list_kinds(items) + seq![Kind::RBracket], x));
    lemma_cons_all_app(seq![Kind::LBracket], list_kinds(items) + seq![Kind::RBracket], x);
    assert(seq![Kind::LBracket] + (list_kinds(items) + seq![Kind::RBracket]) =~= expr_kinds(e));
}

#[verifier::rlimit(40)]
#[verifier::spinoff_prover]
proof fn lemma_lex_call(src: Seq<char>, p: int, e: Expr)
    requires
        e is Call,
        is_plain(e),
        0 <= p,
        p + fmt_expr_spec(e).len() < src.len(),
        src.subrange(p, p + fmt_expr_spec(e).len()) == fmt_expr_spec(e),
    ensures
        lex_kinds(src, at(p)) == cons_all(expr_kinds(e), lex_kinds(src, at(p + fmt_expr_spec(e).len()))),
    decreases e, 1int,
{
    let name = e->Call_0;
    let args = e->Call_1;
    reveal_strlit("(");
    reveal_strlit(")");
    let t = fmt_expr_spec(e);
    let fl = fmt_list(args);
    let m = name.len() as int;
    let n = fl.len() as int;
    assert(t.len() == m + n + 2);
    lemma_sub(src, p, t, 0, m);
    assert(t.subrange(0, m) =~= name);
    lemma_at(src, p, t, 0);
    lemma_at(src, p, t, m);
    lemma_at(src, p, t, m + 1 + n);
    lemma_sub(src, p, t, m + 1, m + 1 + n);
    assert(t.subrange(m + 1, m + 1 + n) =~= fl);
    lemma_scan_word(src, at(p), name);
    lemma_lex_tok(src, at(p));
    lemma_lex_pos(src, scan_spec(src, at(p))->Ok_0.1, at(p + m));
    lemma_lex_punct(src, p + m);
    assert(decreases_to!(e => args));
    lemma_lex_list(src, p + m + 1, args);
    lemma_lex_punct(src, p + m + 1 + n);
    let x = lex_kinds(src, at(p + t.len()));
    lemma_cons_one(Kind::RParen, x);
    lemma_cons_all_app(list_kinds(args), seq![Kind::RParen], x);
    lemma_cons_one(Kind::LParen, cons_all(list_kinds(args) + seq![Kind::RParen], x));
    lemma_cons_all_app(seq![Kind::LParen], list_kinds(args) + seq![Kind::RParen], x);
    lemma_cons_one(Kind::Ident(name), cons_all(seq![Kind::LParen] + (list_kinds(args) + seq![Kind::RParen]), x));
    lemma_cons_all_app(seq![Kind::Ident(name)], seq![Kind::LParen] + (list_kinds(args) + seq![Kind::RParen]), x);
    assert(seq![Kind::Ident(name)] + (seq![Kind::LParen] + (list_kinds(args) + seq![Kind::RParen])) =~= expr_kinds(e));
}

#[verifier::rlimit(40)]
#[verifier::spinoff_prover]
proof fn lemma_lex_object(src: Seq<char>, p: int, e: Expr)
    requires
        e is Object,
        is_plain(e),
        0 <= p,
        p + fmt_expr_spec(e).len() < src.len(),
        src.subrange(p, p + fmt_expr_spec(e).len()) == fmt_expr_spec(e),
    ensures
        lex_kinds(src, at(p)) == cons_all(expr_kinds(e), lex_kinds(src, at(p + fmt_expr_spec(e).len()))),
    decreases e, 1int,
{
    let pairs = e->Object_0;
    let t = fmt_expr_spec(e);
    let x = lex_kinds(src, at(p + t.len()));
    if pairs.len() == 0 {
        reveal_strlit("{}");
        lemma_at(src, p, t, 0);
        lemma_at(src, p, t, 1);
        lemma_lex_punct(src, p);
        lemma_lex_punct(src, p + 1);
        lemma_cons_one(Kind::RBrace, x);
        lemma_cons_one(Kind::LBrace, cons_all(seq![Kind::RBrace], x));
        lemma_cons_all_app(seq![Kind::LBrace], seq![Kind::RBrace], x);
        assert(seq![Kind::LBrace] + seq![Kind::RBrace] =~= expr_kinds(e));
    } else {
        reveal_strlit("{ ");
        reveal_strlit(" }");
        let fp = fmt_pairs(pairs);
        let n = fp.len() as int;
        assert(t.len() == n + 4);
        lemma_at(src, p, t, 0);
        lemma_at(src, p, t, 1);
        lemma_at(src, p, t, n + 2);
        lemma_at(src, p, t, n + 3);
        lemma_sub(src, p, t, 2, 2 + n);
        assert(t.subrange(2, 2 + n) =~= fp);
        lemma_lex_punct(src, p);
        lemma_lex_blank(src, at(p + 1), at(p + 2));
        assert(decreases_to!(e => pairs));
        lemma_lex_pairs(src, p + 2, pairs);
        lemma_lex_blank(src, at(p + 2 + n), at(p + 3 + n));
        lemma_lex_punct(src, p + 3 + n);
        lemma_cons_one(Kind::RBrace, x);
        lemma_cons_all_app(pairs_kinds(pairs), seq![Kind::RBrace], x);
        lemma_cons_one(Kind::LBrace, cons_all(pairs_kinds(pairs) + seq![Kind::RBrace], x));
        lemma_cons_all_app(seq![Kind::LBrace], pairs_kinds(pairs) + seq![Kind::RBrace], x);
        assert(seq![Kind::LBrace] + (pairs_kinds(pairs) + seq![Kind::RBrace]) =~= expr_kinds(e));
    }
}

/// Values separated by ", ", followed by a character that ends a value.
#[verifier::rlimit(40)]
#[verifier::spinoff_prover]
proof fn lemma_lex_list(src: Seq<char>, p: int, s: Seq<Expr>)
    requires
        plain_list(s),
        0 <= p,
        p + fmt_list(s).len() < src.len(),
        src.subrange(p, p + fmt_list(s).len()) == fmt_list(s),
        is_stop(src[p + fmt_list(s).len()]),
    ensures
        lex_kinds(src, at(p)) == cons_all(list_kinds(s), lex_kinds(src, at(p + fmt_list(s).len()))),
    decreases s, 0int,
{
    if s.len() == 0 {
        lemma_cons_all_nil(lex_kinds(src, at(p)));
    } else {
        lemma_list_front(s);
        let e0 = s[0];
        let t0 = fmt_expr_spec(e0);
        let fl = fmt_list(s);
        let n0 = t0.len() as int;
        assert(decreases_to!(s => s[0]));
        lemma_sub(src, p, fl, 0, n0);
        assert(fl.subrange(0, n0) =~= t0);
        if s.len() == 1 {
            lemma_lex_expr(src, p, e0);
            assert(list_kinds(s) =~= expr_kinds(e0));
        } else {
            reveal_strlit(", ");
            let rest = s.subrange(1, s.len() as int);
            let fr = fmt_list(rest);
            lemma_at(src, p, fl, n0);
            lemma_at(src, p, fl, n0 + 1);
            lemma_lex_expr(src, p, e0);
            lemma_lex_punct(src, p + n0);
            lemma_lex_blank(src, at(p + n0 + 1), at(p + n0 + 2));
            lemma_sub(src, p, fl, n0 + 2, fl.len() as int);
            assert(fl.subrange(n0 + 2, fl.len() as int) =~= fr);
            lemma_lex_list(src, p + n0 + 2, rest);
            let x = lex_kinds(src, at(p + fl.len()));
            lemma_cons_one(Kind::Comma, cons_all(list_kinds(rest), x));
            lemma_cons_all_app(seq![Kind::Comma], list_kinds(rest), x);
            lemma_cons_all_app(expr_kinds(e0), seq![Kind::Comma] + list_kinds(rest), x);
        }
    }
}

/// `key = ` at `p`.
#[verifier::rlimit(40)]
#[verifier::spinoff_prover]
proof fn lemma_lex_pair_head(src: Seq<char>, p: int, k: Seq<char>)
    requires
        is_name(k),
        keyword_of(k) is None,
        0 <= p,
        p + k.len() + 3 < src.len(),
        src.subrange(p, p + k.len()) == k,
        src[p + k.len()] == ' ',
        src[p + k.len() + 1] == '=',
        src[p + k.len() + 2] == ' ',
    ensures
        lex_kinds(src, at(p)) == cons_all(seq![Kind::Ident(k), Kind::Equals], lex_kinds(src, at(p + k.len() + 3))),
{
    let m = k.len() as int;
    lemma_scan_word(src, at(p), k);
    assert(src[p] == k[0]) by {
        assert(src.subrange(p, p + m)[0] == src[p]);
    }
    lemma_lex_tok(src, at(p));
    lemma_lex_pos(src, scan_spec(src, at(p))->Ok_0.1, at(p + m));
    lemma_lex_blank(src, at(p + m), at(p + m + 1));
    lemma_lex_punct(src, p + m + 1);
    lemma_lex_blank(src, at(p + m + 2), at(p + m + 3));
    let x = lex_kinds(src, at(p + m + 3));
    lemma_cons_one(Kind::Equals, x);
    lemma_cons_one(Kind::Ident(k), cons_all(seq![Kind::Equals], x));
    lemma_cons_all_app(seq![Kind::Ident(k)], seq![Kind::Equals], x);
    assert(seq![Kind::Ident(k)] + seq![Kind::Equals] =~= seq![Kind::Ident(k), Kind::Equals]);
}

/// `key = value` entries separated by ", ", followed by a character that
/// ends a value.
#[verifier::rlimit(30)]
#[verifier::spinoff_prover]
proof fn lemma_lex_pairs(src: Seq<char>, p: int, s: Seq<(Seq<char>, Expr)>)
    requires
        plain_pairs(s),
        0 <= p,
        p + fmt_pairs(s).len() < src.len(),
        src.subrange(p, p + fmt_pairs(s).len()) == fmt_pairs(s),
        is_stop(src[p + fmt_pairs(s).len()]),
    ensures
        lex_kinds(src, at(p)) == cons_all(pairs_kinds(s), lex_kinds(src, at(p + fmt_pairs(s).len()))),
    decreases s, 0int,
{
    if s.len() == 0 {
        lemma_cons_all_nil(lex_kinds(src, at(p)));
    } else {
        lemma_pairs_front(s);
        reveal_strlit(" = ");
        let k = s[0].0;
        let v = s[0].1;
        let tv = fmt_expr_spec(v);
        let fp = fmt_pairs(s);
        let m = k.len() as int;
        let n0 = m + 3 + tv.len();
        assert(decreases_to!(s => s[0]));
        assert(decreases_to!(s[0] => v));
        lemma_sub(src, p, fp, 0, m);
        assert(fp.subrange(0, m) =~= k);
        lemma_at(src, p, fp, m);
        lemma_at(src, p, fp, m + 1);
        lemma_at(src, p, fp, m + 2);
        lemma_sub(src, p, fp, m + 3, n0);
        assert(fp.subrange(m + 3, n0) =~= tv);
        lemma_lex_pair_head(src, p, k);
        let head = seq![Kind::Ident(k), Kind::Equals];
        if s.len() == 1 {
            lemma_lex_expr(src, p + m + 3, v);
            let x = lex_kinds(src, at(p + fp.len()));
            lemma_cons_all_app(head, expr_kinds(v), x);
            assert(pairs_kinds(s) =~= head + expr_kinds(v));
        } else {
            reveal_strlit(", ");
            let rest = s.subrange(1, s.len() as int);
            let fr = fmt_pairs(rest);
            lemma_at(src, p, fp, n0);
            lemma_at(src, p, fp, n0 + 1);
            lemma_lex_expr(src, p + m + 3, v);
            lemma_lex_punct(src, p + n0);
            lemma_lex_blank(src, at(p + n0 + 1), at(p + n0 + 2));
            lemma_sub(src, p, fp, n0 + 2, fp.len() as int);
            assert(fp.subrange(n0 + 2, fp.len() as int) =~= fr);
            lemma_lex_pairs(src, p + n0 + 2, rest);
            let x = lex_kinds(src, at(p + fp.len()));
            let tail = seq![Kind::Comma] + pairs_kinds(rest);
            lemma_cons_one(Kind::Comma, cons_all(pairs_kinds(rest), x));
            lemma_cons_all_app(seq![Kind::Comma], pairs_kinds(rest), x);
            lemma_cons_all_app(expr_kinds(v), tail, x);
            lemma_cons_all_app(head, expr_kinds(v) + tail, x);
            assert(pairs_kinds(s) =~= head + (expr_kinds(v) + tail));
        }
    }
}

// -- Reading values back from their tokens --

/// A token that can start a value.
pub open spec fn starts_value(k: Kind) -> bool {
    k is Integer || k is Float || k is Str || k is Color || k is Bool || k is Ident || k is LBracket || k is LBrace
}

proof fn lemma_expr_kinds_start(e: Expr)
    requires
        is_plain(e),
    ensures
        expr_kinds(e).len() >= 1,
        starts_value(expr_kinds(e)[0]),
{
}

proof fn lemma_kinds_in(toks: Seq<TokenV>, q: int, ks: Seq<Kind>, k: int)
    requires
        0 <= q,
        q + ks.len() <= toks.len(),
        kinds(toks).subrange(q, q + ks.len()) == ks,
        0 <= k < ks.len(),
    ensures
        toks[q + k].kind == ks[k],
{
    assert(kinds(toks).subrange(q, q + ks.len())[k] == kinds(toks)[q + k]);
}

proof fn lemma_kinds_split(toks: Seq<TokenV>, q: int, a: Seq<Kind>, b: Seq<Kind>)
    requires
        0 <= q,
        q + a.len() + b.len() <= toks.len(),
        kinds(toks).subrange(q, q + a.len() + b.len()) == a + b,
    ensures
        kinds(toks).subrange(q, q + a.len()) == a,
        kinds(toks).subrange(q + a.len(), q + a.len() + b.len()) == b,
{
    assert forall|k: int| 0 <= k < a.len() implies kinds(toks).subrange(q, q + a.len())[k] == a[k] by {
        assert(kinds(toks).subrange(q, q + a.len() + b.len())[k] == (a + b)[k]);
    }
    assert forall|k: int| 0 <= k < b.len() implies kinds(toks).subrange(q + a.len(), q + a.len() + b.len())[k]
        == b[k] by {
        assert(kinds(toks).subrange(q, q + a.len() + b.len())[a.len() + k] == (a + b)[a.len() + k]);
        assert(kinds(toks).subrange(q, q + a.len() + b.len())[a.len() + k] == kinds(toks)[q + a.len() + k]);
        assert(kinds(toks).subrange(q + a.len(), q + a.len() + b.len())[k] == kinds(toks)[q + a.len() + k]);
        assert((a + b)[a.len() + k] == b[k]);
    }
    assert(kinds(toks).subrange(q, q + a.len()) =~= a);
    assert(kinds(toks).subrange(q + a.len(), q + a.len() + b.len()) =~= b);
}

/// The tokens of a value, followed by one that does not open a call, read
/// back as the value.
#[verifier::rlimit(40)]
#[verifier::spinoff_prover]
proof fn lemma_parse_expr(toks: Seq<TokenV>, q: int, e: Expr)
    requires
        is_plain(e),
        0 <= q,
        q + expr_kinds(e).len() < toks.len(),
        kinds(toks).subrange(q, q + expr_kinds(e).len()) == expr_kinds(e),
        toks[q + expr_kinds(e).len()].kind != Kind::LParen,
    ensures
        expr_spec(toks, q) == Ok::<(Expr, int), crate::error::ErrorView>((e, q + expr_kinds(e).len())),
    decreases e, 2int,
{
    match e {
        Expr::Array(items) => lemma_parse_array(toks, q, e),
        Expr::Object(pairs) => lemma_parse_object(toks, q, e),
        Expr::Call(name, args) => lemma_parse_call(toks, q, e),
        _ => {
            lemma_kinds_in(toks, q, expr_kinds(e), 0);
            lemma_parse_atom(toks, q, e);
        },
    }
}

#[verifier::rlimit(40)]
#[verifier::spinoff_prover]
proof fn lemma_parse_array(toks: Seq<TokenV>, q: int, e: Expr)
    requires
        e is Array,
        is_plain(e),
        0 <= q,
        q + expr_kinds(e).len() < toks.len(),
        kinds(toks).subrange(q, q + expr_kinds(e).len()) == expr_kinds(e),
    ensures
        expr_spec(toks, q) == Ok::<(Expr, int), crate::error::ErrorView>((e, q + expr_kinds(e).len())),
    decreases e, 1int,
{
    let items = e->Array_0;
    let lk = list_kinds(items);
    let n = lk.len() as int;
    assert(expr_kinds(e) =~= seq![Kind::LBracket] + lk + seq![Kind::RBracket]);
    lemma_kinds_in(toks, q, expr_kinds(e), 0);
    lemma_kinds_in(toks, q, expr_kinds(e), n + 1);
    lemma_kinds_split(toks, q, seq![Kind::LBracket] + lk, seq![Kind::RBracket]);
    lemma_kinds_split(toks, q, seq![Kind::LBracket], lk);
    assert(decreases_to!(e => items));
    lemma_parse_list(toks, q + 1, items, Seq::empty(), Kind::RBracket);
    assert(Seq::<Expr>::empty() + items =~= items);
}

#[verifier::rlimit(40)]
#[verifier::spinoff_prover]
proof fn lemma_parse_call(toks: Seq<TokenV>, q: int, e: Expr)
    requires
        e is Call,
        is_plain(e),
        0 <= q,
        q + expr_kinds(e).len() < toks.len(),
        kinds(toks).subrange(q, q + expr_kinds(e).len()) == expr_kinds(e),
    ensures
        expr_spec(toks, q) == Ok::<(Expr, int), crate::error::ErrorView>((e, q + expr_kinds(e).len())),
    decreases e, 1int,
{
    let name = e->Call_0;
    let args = e->Call_1;
    let lk = list_kinds(args);
    let n = lk.len() as int;
    let head = seq![Kind::Ident(name), Kind::LParen];
    assert(expr_kinds(e) =~= head + lk + seq![Kind::RParen]);
    lemma_kinds_in(toks, q, expr_kinds(e), 0);
    lemma_kinds_in(toks, q, expr_kinds(e), 1);
    lemma_kinds_in(toks, q, expr_kinds(e), n + 2);
    lemma_kinds_split(toks, q, head + lk, seq![Kind::RParen]);
    lemma_kinds_split(toks, q, head, lk);
    assert(decreases_to!(e => args));
    lemma_parse_list(toks, q + 2, args, Seq::empty(), Kind::RParen);
    assert(Seq::<Expr>::empty() + args =~= args);
}

#[verifier::rlimit(40)]
#[verifier::spinoff_prover]
proof fn lemma_parse_object(toks: Seq<TokenV>, q: int, e: Expr)
    requires
        e is Object,
        is_plain(e),
        0 <= q,
        q + expr_kinds(e).len() < toks.len(),
        kinds(toks).subrange(q, q + expr_kinds(e).len()) == expr_kinds(e),
    ensures
        expr_spec(toks, q) == Ok::<(Expr, int), crate::error::ErrorView>((e, q + expr_kinds(e).len())),
    decreases e, 1int,
{
    let pairs = e->Object_0;
    if pairs.len() == 0 {
        lemma_kinds_in(toks, q, expr_kinds(e), 0);
        lemma_kinds_in(toks, q, expr_kinds(e), 1);
        assert(Seq::<(Seq<char>, Expr)>::empty() =~= pairs);
    } else {
        let pk = pairs_kinds(pairs);
        let n = pk.len() as int;
        assert(expr_kinds(e) =~= seq![Kind::LBrace] + pk + seq![Kind::RBrace]);
        lemma_kinds_in(toks, q, expr_kinds(e), 0);
        lemma_kinds_in(toks, q, expr_kinds(e), n + 1);
        lemma_kinds_split(toks, q, seq![Kind::LBrace] + pk, seq![Kind::RBrace]);
        lemma_kinds_split(toks, q, seq![Kind::LBrace], pk);
        assert(decreases_to!(e => pairs));
        lemma_parse_pairs(toks, q + 1, pairs, Seq::empty());
        assert(Seq::<(Seq<char>, Expr)>::empty() + pairs =~= pairs);
    }
}

/// The tokens of values separated by commas, followed by `closer`.
#[verifier::rlimit(40)]
#[verifier::spinoff_prover]
proof fn lemma_parse_list(toks: Seq<TokenV>, q: int, s: Seq<Expr>, acc: Seq<Expr>, closer: Kind)
    requires
        plain_list(s),
        closer == Kind::RBracket || closer == Kind::RParen,
        0 <= q,
        q + list_kinds(s).len() < toks.len(),
        kinds(toks).subrange(q, q + list_kinds(s).len()) == list_kinds(s),
        toks[q + list_kinds(s).len()].kind == closer,
    ensures
        list_spec(toks, q, acc, closer) == Ok::<(Seq<Expr>, int), crate::error::ErrorView>(
            (acc + s, q + list_kinds(s).len()),
        ),
    decreases s, 0int,
{
    if s.len() == 0 {
        assert(acc + s =~= acc);
    } else {
        let e0 = s[0];
        let k0 = expr_kinds(e0);
        let n0 = k0.len() as int;
        assert(decreases_to!(s => s[0]));
        lemma_expr_kinds_start(e0);
        let lk = list_kinds(s);
        if s.len() == 1 {
            assert(lk =~= k0);
            lemma_kinds_in(toks, q, lk, 0);
            lemma_parse_expr(toks, q, e0);
            assert(skip_comma(toks, q + n0) == q + n0);
            assert(list_spec(toks, q + n0, acc.push(e0), closer) == Ok::<(Seq<Expr>, int), crate::error::ErrorView>(
                (acc.push(e0), q + n0),
            ));
            assert(acc.push(e0) =~= acc + s);
        } else {
            let rest = s.subrange(1, s.len() as int);
            let tail = seq![Kind::Comma] + list_kinds(rest);
            assert(lk =~= k0 + tail);
            lemma_kinds_in(toks, q, lk, 0);
            lemma_kinds_split(toks, q, k0, tail);
            lemma_kinds_in(toks, q, lk, n0);
            lemma_parse_expr(toks, q, e0);
            lemma_kinds_split(toks, q + n0, seq![Kind::Comma], list_kinds(rest));
            lemma_parse_list(toks, q + n0 + 1, rest, acc.push(e0), closer);
            assert(skip_comma(toks, q + n0) == q + n0 + 1);
            assert(list_kinds(s).len() == n0 + 1 + list_kinds(rest).len());
            assert(acc.push(e0) + rest =~= acc + s);
        }
    }
}

/// The tokens of `key = value` entries separated by commas, followed by `}`.
#[verifier::rlimit(30)]
#[verifier::spinoff_prover]
proof fn lemma_parse_pairs(toks: Seq<TokenV>, q: int, s: Seq<(Seq<char>, Expr)>, acc: Seq<(Seq<char>, Expr)>)
    requires
        plain_pairs(s),
        0 <= q,
        q + pairs_kinds(s).len() < toks.len(),
        kinds(toks).subrange(q, q + pairs_kinds(s).len()) == pairs_kinds(s),
        toks[q + pairs_kinds(s).len()].kind == Kind::RBrace,
    ensures
        object_spec(toks, q, acc) == Ok::<(Seq<(Seq<char>, Expr)>, int), crate::error::ErrorView>(
            (acc + s, q + pairs_kinds(s).len()),
        ),
    decreases s, 0int,
{
    if s.len() == 0 {
        assert(acc + s =~= acc);
    } else {
        let k = s[0].0;
        let v = s[0].1;
        let kv = expr_kinds(v);
        let n0 = kv.len() as int;
        assert(decreases_to!(s => s[0]));
        assert(decreases_to!(s[0] => v));
        lemma_expr_kinds_start(v);
        let pk = pairs_kinds(s);
        let head = seq![Kind::Ident(k), Kind::Equals];
        if s.len() == 1 {
            assert(pk =~= head + kv);
            lemma_kinds_in(toks, q, pk, 0);
            lemma_kinds_in(toks, q, pk, 1);
            lemma_kinds_split(toks, q, head, kv);
            lemma_parse_expr(toks, q + 2, v);
            assert(skip_comma(toks, q + 2 + n0) == q + 2 + n0);
            assert(object_spec(toks, q + 2 + n0, acc.push((k, v))) == Ok::<(Seq<(Seq<char>, Expr)>, int), crate::error::ErrorView>(
                (acc.push((k, v)), q + 2 + n0),
            ));
            assert(acc.push((k, v)) =~= acc + s);
        } else {
            let rest = s.subrange(1, s.len() as int);
            let tail = seq![Kind::Comma] + pairs_kinds(rest);
            assert(pk =~= head + (kv + tail));
            lemma_kinds_in(toks, q, pk, 0);
            lemma_kinds_in(toks, q, pk, 1);
            lemma_kinds_split(toks, q, head, kv + tail);
            lemma_kinds_split(toks, q + 2, kv, tail);
            lemma_kinds_in(toks, q + 2 + n0, tail, 0);
            lemma_parse_expr(toks, q + 2, v);
            lemma_kinds_split(toks, q + 2 + n0, seq![Kind::Comma], pairs_kinds(rest));
            lemma_parse_pairs(toks, q + 3 + n0, rest, acc.push((k, v)));
            assert(skip_comma(toks, q + 2 + n0) == q + 3 + n0);
            assert(pairs_kinds(s).len() == n0 + 3 + pairs_kinds(rest).len());
            assert(acc.push((k, v)) + rest =~= acc + s);
        }
    }
}

// ---------------------------------------------------------------------------
// Includes, assets and token blocks
// ---------------------------------------------------------------------------

/// A word at `p` followed by a character that cannot continue it.
#[verifier::rlimit(40)]
#[verifier::spinoff_prover]
proof fn lemma_lex_word_at(src: Seq<char>, p: int, w: Seq<char>)
    requires
        is_name(w),
        0 <= p,
        p + w.len() < src.len(),
        src.subrange(p, p + w.len()) == w,
        !is_ident_char(src[p + w.len()]),
        src[p + w.len()] != '.',
    ensures
        lex_kinds(src, at(p)) == cons(word_kind(w), lex_kinds(src, at(p + w.len()))),
{
    lemma_scan_word(src, at(p), w);
    assert(src[p] == w[0]) by {
        assert(src.subrange(p, p + w.len())[0] == src[p]);
    }
    lemma_lex_tok(src, at(p));
    lemma_lex_pos(src, scan_spec(src, at(p))->Ok_0.1, at(p + w.len()));
}

/// A string literal without escapes at `p`.
#[verifier::rlimit(40)]
#[verifier::spinoff_prover]
proof fn lemma_lex_str_at(src: Seq<char>, p: int, t: Seq<char>)
    requires
        is_plain_text(t),
        0 <= p,
        p + t.len() + 2 <= src.len(),
        src[p] == '"',
        src.subrange(p + 1, p + 1 + t.len()) == t,
        src[p + 1 + t.len()] == '"',
    ensures
        lex_kinds(src, at(p)) == cons(Kind::Str(t), lex_kinds(src, at(p + t.len() + 2))),
{
    lemma_scan_str(src, at(p), t);
    lemma_lex_tok(src, at(p));
    lemma_lex_pos(src, scan_spec(src, at(p))->Ok_0.1, at(p + t.len() + 2));
}

/// An include that reads back: a plain path, and a namespace that is a name
/// and no keyword.
pub open spec fn inc_ok(i: IncludeV) -> bool {
    is_plain_text(i.path) && match i.namespace {
        Some(ns) => is_name(ns) && keyword_of(ns) is None,
        None => true,
    }
}

pub open spec fn inc_kinds(i: IncludeV) -> Seq<Kind> {
    seq![Kind::Include, Kind::Str(i.path)] + match i.namespace {
        Some(ns) => seq![Kind::Ident("as"@), Kind::Ident(ns)],
        None => Seq::empty(),
    }
}

proof fn lemma_inc_chars(i: IncludeV)
    ensures
        include_text(i).subrange(0, 7) == "include"@,
        include_text(i)[7] == ' ',
        include_text(i)[8] == '"',
        include_text(i).subrange(9, 9 + i.path.len() as int) == i.path,
        include_text(i)[9 + i.path.len() as int] == '"',
        i.namespace is None ==> include_text(i).len() == 11 + i.path.len() && include_text(i)[10 + i.path.len() as int]
            == '\n',
        i.namespace is Some ==> {
            let n = i.path.len() as int;
            let ns = i.namespace->0;
            &&& include_text(i).len() == 15 + n + ns.len()
            &&& include_text(i)[10 + n] == ' '
            &&& include_text(i).subrange(11 + n, 13 + n) == "as"@
            &&& include_text(i)[13 + n] == ' '
            &&& include_text(i).subrange(14 + n, 14 + n + ns.len()) == ns
            &&& include_text(i)[14 + n + ns.len()] == '\n'
        },
{
    reveal_strlit("include \"");
    reveal_strlit("include");
    reveal_strlit("\"");
    reveal_strlit(" as ");
    reveal_strlit("as");
    reveal_strlit("\n");
    let t = include_text(i);
    let n = i.path.len() as int;
    assert(t.subrange(0, 7) =~= "include"@);
    assert(t.subrange(9, 9 + n) =~= i.path);
    if i.namespace is Some {
        let ns = i.namespace->0;
        assert(t.subrange(11 + n, 13 + n) =~= "as"@);
        assert(t.subrange(14 + n, 14 + n + ns.len()) =~= ns);
    }
}

/// `include "PATH"` at `p`.
#[verifier::rlimit(80)]
#[verifier::spinoff_prover]
proof fn lemma_lex_include_head(src: Seq<char>, p: int, i: IncludeV)
    requires
        inc_ok(i),
        0 <= p,
        p + include_text(i).len() <= src.len(),
        src.subrange(p, p + include_text(i).len()) == include_text(i),
    ensures
        lex_kinds(src, at(p)) == cons(Kind::Include, cons(Kind::Str(i.path), lex_kinds(src, at(p + 10 + i.path.len())))),
{
    lemma_words();
    lemma_inc_chars(i);
    let t = include_text(i);
    let n = i.path.len() as int;
    lemma_sub(src, p, t, 0, 7);
    lemma_at(src, p, t, 7);
    lemma_lex_word_at(src, p, "include"@);
    lemma_lex_blank(src, at(p + 7), at(p + 8));
    lemma_at(src, p, t, 8);
    lemma_sub(src, p, t, 9, 9 + n);
    lemma_at(src, p, t, 9 + n);
    lemma_lex_str_at(src, p + 8, i.path);
}

/// ` as NS` and the line break of an include line.
#[verifier::rlimit(80)]
#[verifier::spinoff_prover]
proof fn lemma_lex_include_tail(src: Seq<char>, p: int, i: IncludeV)
    requires
        inc_ok(i),
        0 <= p,
        p + include_text(i).len() <= src.len(),
        src.subrange(p, p + include_text(i).len()) == include_text(i),
    ensures
        lex_kinds(src, at(p + 10 + i.path.len())) == cons_all(
            match i.namespace {
                Some(ns) => seq![Kind::Ident("as"@), Kind::Ident(ns)],
                None => Seq::empty(),
            },
            lex_kinds(src, at(p + include_text(i).len())),
        ),
{
    lemma_words();
    lemma_inc_chars(i);
    let t = include_text(i);
    let n = i.path.len() as int;
    let x = lex_kinds(src, at(p + t.len()));
    if i.namespace is Some {
        let ns = i.namespace->0;
        let m = ns.len() as int;
        lemma_at(src, p, t, 10 + n);
        lemma_lex_blank(src, at(p + 10 + n), at(p + 11 + n));
        lemma_sub(src, p, t, 11 + n, 13 + n);
        lemma_at(src, p, t, 13 + n);
        lemma_lex_word_at(src, p + 11 + n, "as"@);
        lemma_lex_blank(src, at(p + 13 + n), at(p + 14 + n));
        lemma_sub(src, p, t, 14 + n, 14 + n + m);
        lemma_at(src, p, t, 14 + n + m);
        lemma_lex_word_at(src, p + 14 + n, ns);
        lemma_lex_blank(src, at(p + 14 + n + m), at(p + 15 + n + m));
        lemma_cons_one(Kind::Ident(ns), x);
        lemma_cons_one(Kind::Ident("as"@), cons_all(seq![Kind::Ident(ns)], x));
        lemma_cons_all_app(seq![Kind::Ident("as"@)], seq![Kind::Ident(ns)], x);
        assert(seq![Kind::Ident("as"@)] + seq![Kind::Ident(ns)] =~= seq![Kind::Ident("as"@), Kind::Ident(ns)]);
    } else {
        lemma_at(src, p, t, 10 + n);
        lemma_lex_blank(src, at(p + 10 + n), at(p + 11 + n));
        lemma_cons_all_nil(x);
    }
}

/// An include line as the formatter writes it reads as its tokens.
#[verifier::rlimit(40)]
#[verifier::spinoff_prover]
proof fn lemma_lex_include(src: Seq<char>, p: int, i: IncludeV)
    requires
        inc_ok(i),
        0 <= p,
        p + include_text(i).len() <= src.len(),
        src.subrange(p, p + include_text(i).len()) == include_text(i),
    ensures
        lex_kinds(src, at(p)) == cons_all(inc_kinds(i), lex_kinds(src, at(p + include_text(i).len()))),
{
    lemma_lex_include_head(src, p, i);
    lemma_lex_include_tail(src, p, i);
    let tail: Seq<Kind> = match i.namespace {
        Some(ns) => seq![Kind::Ident("as"@), Kind::Ident(ns)],
        None => Seq::empty(),
    };
    let x = lex_kinds(src, at(p + include_text(i).len()));
    lemma_cons_one(Kind::Str(i.path), cons_all(tail, x));
    lemma_cons_all_app(seq![Kind::Str(i.path)], tail, x);
    lemma_cons_one(Kind::Include, cons_all(seq![Kind::Str(i.path)] + tail, x));
    lemma_cons_all_app(seq![Kind::Include], seq![Kind::Str(i.path)] + tail, x);
    assert(seq![Kind::Include] + (seq![Kind::Str(i.path)] + tail) =~= inc_kinds(i));
}

/// A name that the parser takes where it also accepts the words of node
/// kinds: a name that is no keyword, or one of `image`, `text`, `frame`,
/// `shape` and `page`.
pub open spec fn ik_name(w: Seq<char>) -> bool {
    is_name(w) && (keyword_of(w) is None || w == "image"@ || w == "text"@ || w == "frame"@ || w == "shape"@ || w == "page"@)
}

#[verifier::rlimit(80)]
#[verifier::spinoff_prover]
proof fn lemma_ik_parse(toks: Seq<TokenV>, p: int, w: Seq<char>)
    requires
        ik_name(w),
        0 <= p < toks.len(),
        toks[p].kind == word_kind(w),
    ensures
        crate::parser::grammar::ident_or_keyword_spec(toks, p) == Ok::<(Seq<char>, int), crate::error::ErrorView>((w, p + 1)),
        word_kind(w) != Kind::RBrace && word_kind(w) != Kind::Eof && word_kind(w) != Kind::Comma
            && word_kind(w) != Kind::LParen,
{
    lemma_words();
}

/// An asset that reads back: name and kind are names and no keywords, and
/// the path is plain.
pub open spec fn asset_ok(a: AssetV) -> bool {
    is_name(a.name) && keyword_of(a.name) is None && ik_name(a.kind) && is_plain_text(a.path)
}

pub open spec fn asset_kinds(a: AssetV) -> Seq<Kind> {
    seq![Kind::Asset, Kind::Ident(a.name), Kind::Equals, word_kind(a.kind), Kind::LParen, Kind::Str(a.path), Kind::RParen]
}

proof fn lemma_asset_chars(a: AssetV)
    ensures
        ({
            let n = a.name.len() as int;
            let k = a.kind.len() as int;
            let m = a.path.len() as int;
            let t = asset_text(a);
            &&& t.len() == 14 + n + k + m
            &&& t.subrange(0, 5) == "asset"@
            &&& t[5] == ' '
            &&& t.subrange(6, 6 + n) == a.name
            &&& t[6 + n] == ' '
            &&& t[7 + n] == '='
            &&& t[8 + n] == ' '
            &&& t.subrange(9 + n, 9 + n + k) == a.kind
            &&& t[9 + n + k] == '('
            &&& t[10 + n + k] == '"'
            &&& t.subrange(11 + n + k, 11 + n + k + m) == a.path
            &&& t[11 + n + k + m] == '"'
            &&& t[12 + n + k + m] == ')'
            &&& t[13 + n + k + m] == '\n'
        }),
{
    reveal_strlit("asset ");
    reveal_strlit("asset");
    reveal_strlit(" = ");
    reveal_strlit("(\"");
    reveal_strlit("\")\n");
    let n = a.name.len() as int;
    let k = a.kind.len() as int;
    let m = a.path.len() as int;
    let t = asset_text(a);
    assert(t.subrange(0, 5) =~= "asset"@);
    assert(t.subrange(6, 6 + n) =~= a.name);
    assert(t.subrange(9 + n, 9 + n + k) =~= a.kind);
    assert(t.subrange(11 + n + k, 11 + n + k + m) =~= a.path);
}

/// `asset NAME =` at `p`.
#[verifier::rlimit(80)]
#[verifier::spinoff_prover]
proof fn lemma_lex_asset_head(src: Seq<char>, p: int, a: AssetV)
    requires
        asset_ok(a),
        0 <= p,
        p + asset_text(a).len() <= src.len(),
        src.subrange(p, p + asset_text(a).len()) == asset_text(a),
    ensures
        lex_kinds(src, at(p)) == cons(Kind::Asset, cons(Kind::Ident(a.name), cons(Kind::Equals, lex_kinds(src, at(p + 9 + a.name.len()))))),
{
    lemma_words();
    lemma_asset_chars(a);
    let t = asset_text(a);
    let n = a.name.len() as int;
    lemma_sub(src, p, t, 0, 5);
    lemma_at(src, p, t, 5);
    lemma_lex_word_at(src, p, "asset"@);
    lemma_lex_blank(src, at(p + 5), at(p + 6));
    lemma_sub(src, p, t, 6, 6 + n);
    lemma_at(src, p, t, 6 + n);
    lemma_lex_word_at(src, p + 6, a.name);
    lemma_lex_blank(src, at(p + 6 + n), at(p + 7 + n));
    lemma_at(src, p, t, 7 + n);
    lemma_lex_punct(src, p + 7 + n);
    lemma_at(src, p, t, 8 + n);
    lemma_lex_blank(src, at(p + 8 + n), at(p + 9 + n));
}

/// `KIND("PATH")` and the line break of an asset line.
#[verifier::rlimit(40)]
#[verifier::spinoff_prover]
proof fn lemma_lex_asset_tail(src: Seq<char>, p: int, a: AssetV)
    requires
        asset_ok(a),
        0 <= p,
        p + asset_text(a).len() <= src.len(),
        src.subrange(p, p + asset_text(a).len()) == asset_text(a),
    ensures
        lex_kinds(src, at(p + 9 + a.name.len())) == cons(word_kind(a.kind), cons(Kind::LParen, cons(Kind::Str(a.path), cons(Kind::RParen, lex_kinds(src, at(p + asset_text(a).len())))))),
{
    lemma_asset_chars(a);
    let t = asset_text(a);
    let n = a.name.len() as int;
    let k = a.kind.len() as int;
    let m = a.path.len() as int;
    lemma_sub(src, p, t, 9 + n, 9 + n + k);
    lemma_at(src, p, t, 9 + n + k);
    lemma_lex_word_at(src, p + 9 + n, a.kind);
    lemma_lex_punct(src, p + 9 + n + k);
    lemma_at(src, p, t, 10 + n + k);
    lemma_sub(src, p, t, 11 + n + k, 11 + n + k + m);
    lemma_at(src, p, t, 11 + n + k + m);
    lemma_lex_str_at(src, p + 10 + n + k, a.path);
    lemma_at(src, p, t, 12 + n + k + m);
    lemma_lex_punct(src, p + 12 + n + k + m);
    lemma_at(src, p, t, 13 + n + k + m);
    lemma_lex_blank(src, at(p + 13 + n + k + m), at(p + 14 + n + k + m));
}

/// An asset line as the formatter writes it reads as its tokens.
#[verifier::rlimit(40)]
#[verifier::spinoff_prover]
proof fn lemma_lex_asset(src: Seq<char>, p: int, a: AssetV)
    requires
        asset_ok(a),
        0 <= p,
        p + asset_text(a).len() <= src.len(),
        src.subrange(p, p + asset_text(a).len()) == asset_text(a),
    ensures
        lex_kinds(src, at(p)) == cons_all(asset_kinds(a), lex_kinds(src, at(p + asset_text(a).len()))),
{
    lemma_lex_asset_head(src, p, a);
    lemma_lex_asset_tail(src, p, a);
    match lex_kinds(src, at(p + asset_text(a).len())) {
        Some(r) => {
            assert(seq![Kind::Asset] + (seq![Kind::Ident(a.name)] + (seq![Kind::Equals] + (seq![word_kind(a.kind)] + (
            seq![Kind::LParen] + (seq![Kind::Str(a.path)] + (seq![Kind::RParen] + r)))))) =~= asset_kinds(a) + r);
        },
        None => {},
    }
}

/// `ind + key = value` lines, from the front.
proof fn lemma_lines_front(a: Seq<AttrV>, ind: Seq<char>)
    requires
        a.len() >= 1,
    ensures
        attr_lines(a, ind) == ind + a[0].key + " = "@ + fmt_expr_spec(a[0].value) + "\n"@ + attr_lines(
            a.subrange(1, a.len() as int),
            ind,
        ),
    decreases a.len(),
{
    let f = a.subrange(1, a.len() as int);
    if a.len() == 1 {
        assert(a.drop_last().len() == 0);
        assert(attr_lines(a.drop_last(), ind) =~= Seq::<char>::empty());
        assert(f.len() == 0);
        assert(attr_lines(f, ind) =~= Seq::<char>::empty());
        assert(a.last() == a[0]);
        assert(attr_lines(a, ind) =~= ind + a[0].key + " = "@ + fmt_expr_spec(a[0].value) + "\n"@ + attr_lines(f, ind));
    } else {
        let d = a.drop_last();
        lemma_lines_front(d, ind);
        assert(d.subrange(1, d.len() as int) =~= f.drop_last());
        assert(f.last() == a.last());
        assert(d[0] == a[0]);
        assert(attr_lines(f, ind) == attr_lines(f.drop_last(), ind) + ind + f.last().key + " = "@ + fmt_expr_spec(f.last().value)
            + "\n"@);
        assert(attr_lines(a, ind) =~= ind + a[0].key + " = "@ + fmt_expr_spec(a[0].value) + "\n"@ + attr_lines(f, ind));
    }
}

/// An attribute line that reads back: a key that is a name and no keyword,
/// and a plain value.
pub open spec fn line_ok(a: AttrV) -> bool {
    ik_name(a.key) && is_plain(a.value)
}

pub open spec fn line_text(a: AttrV, ind: Seq<char>) -> Seq<char> {
    ind + a.key + " = "@ + fmt_expr_spec(a.value) + "\n"@
}

pub open spec fn line_kinds(a: AttrV) -> Seq<Kind> {
    seq![word_kind(a.key), Kind::Equals] + expr_kinds(a.value)
}

pub open spec fn lines_kinds(a: Seq<AttrV>) -> Seq<Kind>
    decreases a.len(),
{
    if a.len() == 0 {
        Seq::empty()
    } else {
        line_kinds(a[0]) + lines_kinds(a.subrange(1, a.len() as int))
    }
}

/// Text made of blanks only.
pub open spec fn is_spaces(t: Seq<char>) -> bool {
    forall|k: int| 0 <= k < t.len() ==> #[trigger] t[k] == ' '
}

proof fn lemma_line_chars(a: AttrV, ind: Seq<char>)
    ensures
        ({
            let w = ind.len() as int;
            let k = a.key.len() as int;
            let m = fmt_expr_spec(a.value).len() as int;
            let t = line_text(a, ind);
            &&& t.len() == w + 4 + k + m
            &&& t.subrange(0, w) == ind
            &&& t.subrange(w, w + k) == a.key
            &&& t[w + k] == ' '
            &&& t[w + k + 1] == '='
            &&& t[w + k + 2] == ' '
            &&& t.subrange(w + k + 3, w + k + 3 + m) == fmt_expr_spec(a.value)
            &&& t[w + k + 3 + m] == '\n'
        }),
{
    reveal_strlit(" = ");
    reveal_strlit("\n");
    let w = ind.len() as int;
    let k = a.key.len() as int;
    let m = fmt_expr_spec(a.value).len() as int;
    let t = line_text(a, ind);
    assert(t.subrange(0, w) =~= ind);
    assert(t.subrange(w, w + k) =~= a.key);
    assert(t.subrange(w + k + 3, w + k + 3 + m) =~= fmt_expr_spec(a.value));
}

/// `key = ` at `p`, where the key may be a word of a node kind.
#[verifier::rlimit(40)]
#[verifier::spinoff_prover]
proof fn lemma_lex_key_head(src: Seq<char>, p: int, k: Seq<char>)
    requires
        ik_name(k),
        0 <= p,
        p + k.len() + 3 < src.len(),
        src.subrange(p, p + k.len()) == k,
        src[p + k.len()] == ' ',
        src[p + k.len() + 1] == '=',
        src[p + k.len() + 2] == ' ',
    ensures
        lex_kinds(src, at(p)) == cons_all(seq![word_kind(k), Kind::Equals], lex_kinds(src, at(p + k.len() + 3))),
{
    let m = k.len() as int;
    lemma_lex_word_at(src, p, k);
    lemma_lex_blank(src, at(p + m), at(p + m + 1));
    lemma_lex_punct(src, p + m + 1);
    lemma_lex_blank(src, at(p + m + 2), at(p + m + 3));
    let x = lex_kinds(src, at(p + m + 3));
    lemma_cons_one(Kind::Equals, x);
    lemma_cons_one(word_kind(k), cons_all(seq![Kind::Equals], x));
    lemma_cons_all_app(seq![word_kind(k)], seq![Kind::Equals], x);
    assert(seq![word_kind(k)] + seq![Kind::Equals] =~= seq![word_kind(k), Kind::Equals]);
}

/// Blanks are skipped.
#[verifier::rlimit(40)]
#[verifier::spinoff_prover]
proof fn lemma_lex_spaces(src: Seq<char>, p: int, n: int)
    requires
        0 <= p,
        0 <= n,
        p + n <= src.len(),
        forall|k: int| p <= k < p + n ==> #[trigger] src[k] == ' ',
    ensures
        lex_kinds(src, at(p)) == lex_kinds(src, at(p + n)),
    decreases n,
{
    if n > 0 {
        lemma_lex_blank(src, at(p), at(p + 1));
        lemma_lex_spaces(src, p + 1, n - 1);
    }
}

/// Indentation in the source at `p`.
#[verifier::rlimit(40)]
#[verifier::spinoff_prover]
proof fn lemma_lex_ind(src: Seq<char>, p: int, ind: Seq<char>)
    requires
        is_spaces(ind),
        0 <= p,
        p + ind.len() <= src.len(),
        src.subrange(p, p + ind.len()) == ind,
    ensures
        lex_kinds(src, at(p)) == lex_kinds(src, at(p + ind.len())),
{
    assert forall|k: int| p <= k < p + ind.len() implies #[trigger] src[k] == ' ' by {
        assert(src.subrange(p, p + ind.len())[k - p] == src[k]);
    }
    lemma_lex_spaces(src, p, ind.len() as int);
}

/// The indentation and `key = ` of an attribute line.
#[verifier::rlimit(40)]
#[verifier::spinoff_prover]
proof fn lemma_lex_line_head(src: Seq<char>, p: int, a: AttrV, ind: Seq<char>)
    requires
        line_ok(a),
        is_spaces(ind),
        0 <= p,
        p + line_text(a, ind).len() <= src.len(),
        src.subrange(p, p + line_text(a, ind).len()) == line_text(a, ind),
    ensures
        lex_kinds(src, at(p)) == cons_all(
            seq![word_kind(a.key), Kind::Equals],
            lex_kinds(src, at(p + ind.len() + 3 + a.key.len())),
        ),
{
    lemma_line_chars(a, ind);
    let t = line_text(a, ind);
    let w = ind.len() as int;
    let k = a.key.len() as int;
    lemma_sub(src, p, t, 0, w);
    lemma_lex_ind(src, p, ind);
    lemma_sub(src, p, t, w, w + k);
    lemma_at(src, p, t, w + k);
    lemma_at(src, p, t, w + k + 1);
    lemma_at(src, p, t, w + k + 2);
    lemma_lex_key_head(src, p + w, a.key);
}

/// One attribute line reads as its tokens.
#[verifier::rlimit(40)]
#[verifier::spinoff_prover]
proof fn lemma_lex_line(src: Seq<char>, p: int, a: AttrV, ind: Seq<char>)
    requires
        line_ok(a),
        is_spaces(ind),
        0 <= p,
        p + line_text(a, ind).len() <= src.len(),
        src.subrange(p, p + line_text(a, ind).len()) == line_text(a, ind),
    ensures
        lex_kinds(src, at(p)) == cons_all(line_kinds(a), lex_kinds(src, at(p + line_text(a, ind).len()))),
{
    lemma_line_chars(a, ind);
    lemma_lex_line_head(src, p, a, ind);
    let t = line_text(a, ind);
    let w = ind.len() as int;
    let k = a.key.len() as int;
    let m = fmt_expr_spec(a.value).len() as int;
    lemma_sub(src, p, t, w + k + 3, w + k + 3 + m);
    lemma_at(src, p, t, w + k + 3 + m);
    lemma_lex_expr(src, p + w + k + 3, a.value);
    lemma_lex_blank(src, at(p + w + k + 3 + m), at(p + t.len()));
    let x = lex_kinds(src, at(p + t.len()));
    lemma_cons_all_app(seq![word_kind(a.key), Kind::Equals], expr_kinds(a.value), x);
}

/// Attribute lines read as their tokens.
#[verifier::rlimit(40)]
#[verifier::spinoff_prover]
proof fn lemma_lex_lines(src: Seq<char>, p: int, a: Seq<AttrV>, ind: Seq<char>)
    requires
        forall|i: int| 0 <= i < a.len() ==> line_ok(#[trigger] a[i]),
        is_spaces(ind),
        0 <= p,
        p + attr_lines(a, ind).len() <= src.len(),
        src.subrange(p, p + attr_lines(a, ind).len()) == attr_lines(a, ind),
    ensures
        lex_kinds(src, at(p)) == cons_all(lines_kinds(a), lex_kinds(src, at(p + attr_lines(a, ind).len()))),
    decreases a.len(),
{
    if a.len() == 0 {
        lemma_cons_all_nil(lex_kinds(src, at(p)));
    } else {
        lemma_lines_front(a, ind);
        let rest = a.subrange(1, a.len() as int);
        let all = attr_lines(a, ind);
        let t0 = line_text(a[0], ind);
        assert(all =~= t0 + attr_lines(rest, ind));
        assert(line_ok(a[0]));
        lemma_sub(src, p, all, 0, t0.len() as int);
        assert(all.subrange(0, t0.len() as int) =~= t0);
        lemma_lex_line(src, p, a[0], ind);
        lemma_sub(src, p, all, t0.len() as int, all.len() as int);
        assert(all.subrange(t0.len() as int, all.len() as int) =~= attr_lines(rest, ind));
        assert forall|i: int| 0 <= i < rest.len() implies line_ok(#[trigger] rest[i]) by {
            assert(rest[i] == a[i + 1]);
        }
        lemma_lex_lines(src, p + t0.len(), rest, ind);
        lemma_cons_all_app(line_kinds(a[0]), lines_kinds(rest), lex_kinds(src, at(p + all.len())));
    }
}

proof fn lemma_four_spaces()
    ensures
        is_spaces("    "@),
        "    "@.len() == 4,
{
    reveal_strlit("    ");
}

/// The entries of a token block as attributes.
pub open spec fn entry_attrs(b: TokenBlockV) -> Seq<AttrV> {
    b.entries.map_values(|e: TokenEntryV| AttrV { key: e.key, value: e.value, span: e.span })
}

/// A token block that reads back: its name and keys are names and no
/// keywords, and its values are plain.
pub open spec fn block_ok(b: TokenBlockV) -> bool {
    &&& is_name(b.name)
    &&& keyword_of(b.name) is None
    &&& forall|i: int| 0 <= i < b.entries.len() ==> line_ok(#[trigger] entry_attrs(b)[i])
}

pub open spec fn block_kinds(b: TokenBlockV) -> Seq<Kind> {
    seq![Kind::Ident("token"@), Kind::Ident(b.name), Kind::LBrace] + lines_kinds(entry_attrs(b)) + seq![Kind::RBrace]
}

proof fn lemma_block_chars(b: TokenBlockV)
    ensures
        ({
            let n = b.name.len() as int;
            let body = attr_lines(entry_attrs(b), "    "@);
            let l = body.len() as int;
            let t = token_text(b);
            &&& t.len() == 11 + n + l
            &&& t.subrange(0, 5) == "token"@
            &&& t[5] == ' '
            &&& t.subrange(6, 6 + n) == b.name
            &&& t[6 + n] == ' '
            &&& t[7 + n] == '{'
            &&& t[8 + n] == '\n'
            &&& t.subrange(9 + n, 9 + n + l) == body
            &&& t[9 + n + l] == '}'
            &&& t[10 + n + l] == '\n'
        }),
{
    reveal_strlit("token ");
    reveal_strlit("token");
    reveal_strlit(" {\n");
    reveal_strlit("}\n");
    let n = b.name.len() as int;
    let body = attr_lines(entry_attrs(b), "    "@);
    let l = body.len() as int;
    let t = token_text(b);
    assert(t.subrange(0, 5) =~= "token"@);
    assert(t.subrange(6, 6 + n) =~= b.name);
    assert(t.subrange(9 + n, 9 + n + l) =~= body);
}

/// `token NAME {` and its line break.
/// The word `token` followed by a blank.
proof fn lemma_lex_token_word(src: Seq<char>, p: int)
    requires
        0 <= p,
        p + 5 < src.len(),
        src.subrange(p, p + 5) == "token"@,
        src[p + 5] == ' ',
    ensures
        lex_kinds(src, at(p)) == cons(Kind::Ident("token"@), lex_kinds(src, at(p + 5))),
{
    reveal_strlit("token");
    assert(is_name("token"@) && word_kind("token"@) == Kind::Ident("token"@)) by {
        lemma_words();
    }
    lemma_lex_word_at(src, p, "token"@);
}

#[verifier::rlimit(80)]
#[verifier::spinoff_prover]
proof fn lemma_lex_block_head(src: Seq<char>, p: int, b: TokenBlockV)
    requires
        block_ok(b),
        0 <= p,
        p + token_text(b).len() <= src.len(),
        src.subrange(p, p + token_text(b).len()) == token_text(b),
    ensures
        lex_kinds(src, at(p)) == cons(Kind::Ident("token"@), cons(Kind::Ident(b.name), cons(Kind::LBrace, lex_kinds(src, at(p + 9 + b.name.len()))))),
{
    lemma_block_chars(b);
    let t = token_text(b);
    let n = b.name.len() as int;
    lemma_sub(src, p, t, 0, 5);
    lemma_at(src, p, t, 5);
    lemma_lex_token_word(src, p);
    lemma_lex_blank(src, at(p + 5), at(p + 6));
    lemma_sub(src, p, t, 6, 6 + n);
    lemma_at(src, p, t, 6 + n);
    lemma_lex_word_at(src, p + 6, b.name);
    lemma_lex_blank(src, at(p + 6 + n), at(p + 7 + n));
    lemma_at(src, p, t, 7 + n);
    lemma_lex_punct(src, p + 7 + n);
    lemma_at(src, p, t, 8 + n);
    lemma_lex_blank(src, at(p + 8 + n), at(p + 9 + n));
}

proof fn lemma_block_lines_ok(b: TokenBlockV)
    requires
        block_ok(b),
    ensures
        forall|i: int| 0 <= i < entry_attrs(b).len() ==> line_ok(#[trigger] entry_attrs(b)[i]),
{
    assert forall|i: int| 0 <= i < entry_attrs(b).len() implies line_ok(#[trigger] entry_attrs(b)[i]) by {
        assert(i < b.entries.len());
    }
}

/// The entry lines of a token block.
#[verifier::rlimit(40)]
#[verifier::spinoff_prover]
proof fn lemma_lex_entry_lines(src: Seq<char>, q: int, b: TokenBlockV)
    requires
        block_ok(b),
        0 <= q,
        q + attr_lines(entry_attrs(b), "    "@).len() <= src.len(),
        src.subrange(q, q + attr_lines(entry_attrs(b), "    "@).len()) == attr_lines(entry_attrs(b), "    "@),
    ensures
        lex_kinds(src, at(q)) == cons_all(
            lines_kinds(entry_attrs(b)),
            lex_kinds(src, at(q + attr_lines(entry_attrs(b), "    "@).len())),
        ),
{
    lemma_block_lines_ok(b);
    lemma_four_spaces();
    lemma_lex_lines(src, q, entry_attrs(b), "    "@);
}

/// The entries, `}` and the line break of a token block.
#[verifier::rlimit(40)]
#[verifier::spinoff_prover]
proof fn lemma_lex_block_tail(src: Seq<char>, p: int, b: TokenBlockV)
    requires
        block_ok(b),
        0 <= p,
        p + token_text(b).len() <= src.len(),
        src.subrange(p, p + token_text(b).len()) == token_text(b),
    ensures
        lex_kinds(src, at(p + 9 + b.name.len())) == cons_all(
            lines_kinds(entry_attrs(b)) + seq![Kind::RBrace],
            lex_kinds(src, at(p + token_text(b).len())),
        ),
{
    lemma_block_chars(b);
    let t = token_text(b);
    let n = b.name.len() as int;
    let attrs = entry_attrs(b);
    let body = attr_lines(attrs, "    "@);
    let l = body.len() as int;
    lemma_sub(src, p, t, 9 + n, 9 + n + l);
    lemma_lex_entry_lines(src, p + 9 + n, b);
    lemma_at(src, p, t, 9 + n + l);
    lemma_lex_punct(src, p + 9 + n + l);
    lemma_at(src, p, t, 10 + n + l);
    lemma_lex_blank(src, at(p + 10 + n + l), at(p + 11 + n + l));
    let x = lex_kinds(src, at(p + t.len()));
    lemma_cons_one(Kind::RBrace, x);
    lemma_cons_all_app(lines_kinds(attrs), seq![Kind::RBrace], x);
}

/// A token block as the formatter writes it reads as its tokens.
#[verifier::rlimit(40)]
#[verifier::spinoff_prover]
proof fn lemma_lex_block(src: Seq<char>, p: int, b: TokenBlockV)
    requires
        block_ok(b),
        0 <= p,
        p + token_text(b).len() <= src.len(),
        src.subrange(p, p + token_text(b).len()) == token_text(b),
    ensures
        lex_kinds(src, at(p)) == cons_all(block_kinds(b), lex_kinds(src, at(p + token_text(b).len()))),
{
    lemma_lex_block_head(src, p, b);
    lemma_lex_block_tail(src, p, b);
    let attrs = entry_attrs(b);
    let x = lex_kinds(src, at(p + token_text(b).len()));
    let tail = lines_kinds(attrs) + seq![Kind::RBrace];
    let head = seq![Kind::Ident("token"@), Kind::Ident(b.name), Kind::LBrace];
    match cons_all(tail, x) {
        Some(r) => {
            assert(seq![Kind::Ident("token"@)] + (seq![Kind::Ident(b.name)] + (seq![Kind::LBrace] + r)) =~= head + r);
        },
        None => {},
    }
    lemma_cons_all_app(head, tail, x);
    assert(head + tail =~= block_kinds(b));
}

// -- Reading declarations back from their tokens --

/// The keys and values of attributes.
pub open spec fn strip_attrs(s: Seq<AttrV>) -> Seq<(Seq<char>, Expr)> {
    s.map_values(|a: AttrV| (a.key, a.value))
}

#[verifier::rlimit(40)]
#[verifier::spinoff_prover]
proof fn lemma_parse_include(toks: Seq<TokenV>, q: int, prog: ProgramV, i: IncludeV)
    requires
        inc_ok(i),
        0 <= q,
        q + inc_kinds(i).len() < toks.len(),
        kinds(toks).subrange(q, q + inc_kinds(i).len()) == inc_kinds(i),
        toks[q + inc_kinds(i).len()].kind != Kind::Ident("as"@),
    ensures
        decl_spec(toks, q, prog) == Ok::<(ProgramV, int), crate::error::ErrorView>(
            (
                ProgramV {
                    includes: prog.includes.push(IncludeV { path: i.path, namespace: i.namespace, span: toks[q].span }),
                    ..prog
                },
                q + inc_kinds(i).len(),
            ),
        ),
{
    let ks = inc_kinds(i);
    lemma_kinds_in(toks, q, ks, 0);
    lemma_kinds_in(toks, q, ks, 1);
    if i.namespace is Some {
        lemma_kinds_in(toks, q, ks, 2);
        lemma_kinds_in(toks, q, ks, 3);
    }
    reveal(decl_spec);
    reveal(include_spec);
}

#[verifier::rlimit(40)]
#[verifier::spinoff_prover]
proof fn lemma_parse_asset(toks: Seq<TokenV>, q: int, prog: ProgramV, a: AssetV)
    requires
        asset_ok(a),
        0 <= q,
        q + 7 <= toks.len(),
        kinds(toks).subrange(q, q + 7) == asset_kinds(a),
    ensures
        decl_spec(toks, q, prog) == Ok::<(ProgramV, int), crate::error::ErrorView>(
            (
                ProgramV {
                    assets: prog.assets.push(AssetV { name: a.name, kind: a.kind, path: a.path, span: toks[q].span }),
                    ..prog
                },
                q + 7,
            ),
        ),
{
    let ks = asset_kinds(a);
    assert(ks.len() == 7);
    lemma_kinds_in(toks, q, ks, 0);
    lemma_kinds_in(toks, q, ks, 1);
    lemma_kinds_in(toks, q, ks, 2);
    lemma_kinds_in(toks, q, ks, 3);
    lemma_kinds_in(toks, q, ks, 4);
    lemma_kinds_in(toks, q, ks, 5);
    lemma_kinds_in(toks, q, ks, 6);
    lemma_ik_parse(toks, q + 3, a.kind);
    reveal(decl_spec);
    reveal(asset_spec);
}

/// The tokens of attribute lines, followed by `}`, read back as entries
/// with the same keys and values.
#[verifier::rlimit(40)]
#[verifier::spinoff_prover]
proof fn lemma_parse_entries(toks: Seq<TokenV>, q: int, a: Seq<AttrV>, acc: Seq<AttrV>)
    requires
        forall|i: int| 0 <= i < a.len() ==> line_ok(#[trigger] a[i]),
        0 <= q,
        q + lines_kinds(a).len() < toks.len(),
        kinds(toks).subrange(q, q + lines_kinds(a).len()) == lines_kinds(a),
        toks[q + lines_kinds(a).len()].kind == Kind::RBrace,
    ensures
        match entries_spec(toks, q, acc) {
            Ok((res, q2)) => q2 == q + lines_kinds(a).len() && strip_attrs(res) == strip_attrs(acc) + strip_attrs(a),
            Err(_) => false,
        },
    decreases a.len(),
{
    if a.len() == 0 {
        assert(strip_attrs(acc) + strip_attrs(a) =~= strip_attrs(acc));
    } else {
        let a0 = a[0];
        let rest = a.subrange(1, a.len() as int);
        assert(line_ok(a0));
        let ek = expr_kinds(a0.value);
        let n0 = ek.len() as int;
        let lk = lines_kinds(a);
        assert(lk =~= seq![word_kind(a0.key), Kind::Equals] + (ek + lines_kinds(rest)));
        lemma_expr_kinds_start(a0.value);
        lemma_kinds_in(toks, q, lk, 0);
        lemma_kinds_in(toks, q, lk, 1);
        lemma_kinds_split(toks, q, seq![word_kind(a0.key), Kind::Equals], ek + lines_kinds(rest));
        lemma_ik_parse(toks, q, a0.key);
        lemma_kinds_split(toks, q + 2, ek, lines_kinds(rest));
        if rest.len() > 0 {
            let r0 = rest[0];
            assert(lines_kinds(rest) =~= line_kinds(r0) + lines_kinds(rest.subrange(1, rest.len() as int)));
            lemma_kinds_in(toks, q + 2 + n0, lines_kinds(rest), 0);
        } else {
            assert(toks[q + 2 + n0].kind == Kind::RBrace);
        }
        lemma_parse_expr(toks, q + 2, a0.value);
        let e = AttrV { key: a0.key, value: a0.value, span: toks[q].span };
        assert(skip_comma(toks, q + 2 + n0) == q + 2 + n0);
        assert forall|i: int| 0 <= i < rest.len() implies line_ok(#[trigger] rest[i]) by {
            assert(rest[i] == a[i + 1]);
        }
        lemma_parse_entries(toks, q + 2 + n0, rest, acc.push(e));
        assert(strip_attrs(acc.push(e)) =~= strip_attrs(acc).push((a0.key, a0.value)));
        assert(strip_attrs(a) =~= seq![(a0.key, a0.value)] + strip_attrs(rest));
        match entries_spec(toks, q + 2 + n0, acc.push(e)) {
            Ok((res, q2)) => {
                assert(strip_attrs(acc) + strip_attrs(a) =~= strip_attrs(acc.push(e)) + strip_attrs(rest));
            },
            Err(_) => {},
        }
    }
}

/// The keys and values of a token block's entries.
pub open spec fn strip_entries(s: Seq<TokenEntryV>) -> Seq<(Seq<char>, Expr)> {
    s.map_values(|e: TokenEntryV| (e.key, e.value))
}

#[verifier::rlimit(80)]
#[verifier::spinoff_prover]
proof fn lemma_parse_block(toks: Seq<TokenV>, q: int, prog: ProgramV, b: TokenBlockV)
    requires
        block_ok(b),
        0 <= q,
        q + block_kinds(b).len() <= toks.len(),
        kinds(toks).subrange(q, q + block_kinds(b).len()) == block_kinds(b),
    ensures
        match decl_spec(toks, q, prog) {
            Ok((g, q2)) => q2 == q + block_kinds(b).len() && g == (ProgramV { token_blocks: g.token_blocks, ..prog })
                && g.token_blocks.len() == prog.token_blocks.len() + 1
                && g.token_blocks.drop_last() == prog.token_blocks
                && g.token_blocks.last().name == b.name
                && strip_entries(g.token_blocks.last().entries) == strip_entries(b.entries),
            Err(_) => false,
        },
{
    lemma_words();
    let attrs = entry_attrs(b);
    let lk = lines_kinds(attrs);
    let n = lk.len() as int;
    let ks = block_kinds(b);
    let head = seq![Kind::Ident("token"@), Kind::Ident(b.name), Kind::LBrace];
    assert(ks =~= head + lk + seq![Kind::RBrace]);
    lemma_kinds_in(toks, q, ks, 0);
    lemma_kinds_in(toks, q, ks, 1);
    lemma_kinds_in(toks, q, ks, 2);
    lemma_kinds_in(toks, q, ks, 3 + n);
    lemma_kinds_split(toks, q, head + lk, seq![Kind::RBrace]);
    lemma_kinds_split(toks, q, head, lk);
    assert forall|i: int| 0 <= i < attrs.len() implies line_ok(#[trigger] attrs[i]) by {
        assert(i < b.entries.len());
    }
    lemma_parse_entries(toks, q + 3, attrs, Seq::empty());
    reveal(decl_spec);
    reveal(token_block_spec);
    assert(toks[q].kind != Kind::Canvas);
    assert(!crate::parser::grammar::is_node_start(toks[q].kind));
    let (res, q2) = entries_spec(toks, q + 3, Seq::empty())->Ok_0;
    let blk = TokenBlockV {
        name: b.name,
        entries: res.map_values(|a: AttrV| TokenEntryV { key: a.key, value: a.value, span: a.span }),
        span: toks[q].span,
    };
    assert(token_block_spec(toks, q) == Ok::<(TokenBlockV, int), crate::error::ErrorView>((blk, q2 + 1)));
    assert(strip_attrs(Seq::<AttrV>::empty()) + strip_attrs(attrs) =~= strip_attrs(attrs));
    assert(strip_entries(blk.entries) =~= strip_attrs(res));
    assert(strip_entries(b.entries) =~= strip_attrs(attrs));
    let g = ProgramV { token_blocks: prog.token_blocks.push(blk), ..prog };
    assert(g.token_blocks.drop_last() =~= prog.token_blocks);
}

// ---------------------------------------------------------------------------
// Sequences of declarations
// ---------------------------------------------------------------------------

/// A declaration of the kinds that read back: an include, an asset, a
/// variable, a token block, the canvas, a node or a page.
pub ghost enum Decl {
    Inc(IncludeV),
    Ast(AssetV),
    Var(LetV),
    Blk(TokenBlockV),
    Cnv(CanvasV),
    Cmp(ComponentV),
    Nd(NodeV),
    Pg(PageV),
}

pub open spec fn decl_ok(d: Decl) -> bool {
    match d {
        Decl::Inc(i) => inc_ok(i),
        Decl::Ast(a) => asset_ok(a),
        Decl::Var(l) => let_ok(l),
        Decl::Blk(b) => block_ok(b),
        Decl::Cnv(c) => canvas_ok(c),
        Decl::Cmp(c) => component_ok(c),
        Decl::Nd(n) => node_ok(n),
        Decl::Pg(pg) => page_ok(pg),
    }
}

pub open spec fn decl_text(d: Decl) -> Seq<char> {
    match d {
        Decl::Inc(i) => include_text(i),
        Decl::Ast(a) => asset_text(a),
        Decl::Var(l) => let_text(l),
        Decl::Blk(b) => token_text(b),
        Decl::Cnv(c) => canvas_text(c),
        Decl::Cmp(c) => component_text(c),
        Decl::Nd(n) => fmt_node_spec(n, Seq::empty()),
        Decl::Pg(pg) => page_text(pg),
    }
}

pub open spec fn decl_kinds(d: Decl) -> Seq<Kind> {
    match d {
        Decl::Inc(i) => inc_kinds(i),
        Decl::Ast(a) => asset_kinds(a),
        Decl::Var(l) => let_kinds(l),
        Decl::Blk(b) => block_kinds(b),
        Decl::Cnv(c) => canvas_kinds(c),
        Decl::Cmp(c) => component_kinds(c),
        Decl::Nd(n) => node_kinds(n),
        Decl::Pg(pg) => page_kinds(pg),
    }
}

/// The texts of declarations, a blank line between each two.
pub open spec fn decls_text(ds: Seq<Decl>) -> Seq<char>
    decreases ds.len(),
{
    if ds.len() == 0 {
        Seq::empty()
    } else if ds.len() == 1 {
        decl_text(ds[0])
    } else {
        decl_text(ds[0]) + "\n"@ + decls_text(ds.drop_first())
    }
}

pub open spec fn decls_kinds(ds: Seq<Decl>) -> Seq<Kind>
    decreases ds.len(),
{
    if ds.len() == 0 {
        Seq::empty()
    } else {
        decl_kinds(ds[0]) + decls_kinds(ds.drop_first())
    }
}

proof fn lemma_decls_join(ds: Seq<Decl>)
    ensures
        join_decls(ds.map_values(|d: Decl| decl_text(d))) == decls_text(ds),
    decreases ds.len(),
{
    let ts = ds.map_values(|d: Decl| decl_text(d));
    if ds.len() >= 1 {
        lemma_join_front(ts);
        if ds.len() >= 2 {
            lemma_decls_join(ds.drop_first());
            assert(ts.drop_first() =~= ds.drop_first().map_values(|d: Decl| decl_text(d)));
        }
    }
}

proof fn lemma_decl_text_ends(d: Decl)
    ensures
        decl_text(d).len() > 0,
        decl_text(d).last() == '\n',
{
    match d {
        Decl::Inc(i) => lemma_inc_chars(i),
        Decl::Ast(a) => lemma_asset_chars(a),
        Decl::Var(l) => lemma_let_chars(l),
        Decl::Blk(b) => lemma_block_chars(b),
        Decl::Cnv(c) => {
            reveal_strlit("}\n");
            assert(canvas_text(c).last() == "}\n"@.last());
        },
        Decl::Cmp(c) => {
            reveal_strlit("}\n");
            assert(component_text(c).last() == "}\n"@.last());
        },
        Decl::Nd(n) => lemma_node_text_ends(n, Seq::empty()),
        Decl::Pg(pg) => {
            reveal_strlit("}\n");
            assert(page_text(pg).last() == "}\n"@.last());
        },
    }
}

proof fn lemma_node_text_ends(n: NodeV, ind: Seq<char>)
    ensures
        fmt_node_spec(n, ind).len() > 0,
        fmt_node_spec(n, ind).last() == '\n',
{
    reveal_strlit(" }\n");
    reveal_strlit(" {}\n");
    reveal_strlit("}\n");
    reveal_strlit(")\n");
    if n.kind == NodeKind::Use {
        assert(fmt_node_spec(n, ind).last() == ")\n"@.last());
    } else if is_inline(n) {
        assert(fmt_node_spec(n, ind).last() == " }\n"@.last());
    } else if n.attrs.len() == 0 && n.children.len() == 0 {
        assert(fmt_node_spec(n, ind).last() == " {}\n"@.last());
    } else {
        assert(fmt_node_spec(n, ind).last() == "}\n"@.last());
    }
}

proof fn lemma_decls_text_ends(ds: Seq<Decl>)
    requires
        ds.len() > 0,
    ensures
        decls_text(ds).len() > 0,
        decls_text(ds).last() == '\n',
    decreases ds.len(),
{
    lemma_decl_text_ends(ds[0]);
    if ds.len() >= 2 {
        lemma_decls_text_ends(ds.drop_first());
    }
}

#[verifier::rlimit(40)]
#[verifier::spinoff_prover]
proof fn lemma_lex_decl(src: Seq<char>, p: int, d: Decl)
    requires
        decl_ok(d),
        0 <= p,
        p + decl_text(d).len() <= src.len(),
        src.subrange(p, p + decl_text(d).len()) == decl_text(d),
    ensures
        lex_kinds(src, at(p)) == cons_all(decl_kinds(d), lex_kinds(src, at(p + decl_text(d).len()))),
{
    match d {
        Decl::Inc(i) => lemma_lex_include(src, p, i),
        Decl::Ast(a) => lemma_lex_asset(src, p, a),
        Decl::Var(l) => lemma_lex_let(src, p, l),
        Decl::Blk(b) => lemma_lex_block(src, p, b),
        Decl::Cnv(c) => lemma_lex_canvas(src, p, c),
        Decl::Cmp(c) => lemma_lex_component(src, p, c),
        Decl::Nd(n) => {
            assert(is_spaces(Seq::<char>::empty()));
            lemma_lex_node(src, p, n, Seq::empty());
        },
        Decl::Pg(pg) => lemma_lex_page(src, p, pg),
    }
}

/// Declarations that end the source read as their tokens, then `Eof`.
#[verifier::rlimit(40)]
#[verifier::spinoff_prover]
proof fn lemma_lex_decls(src: Seq<char>, p: int, ds: Seq<Decl>)
    requires
        forall|i: int| 0 <= i < ds.len() ==> decl_ok(#[trigger] ds[i]),
        0 <= p,
        p + decls_text(ds).len() == src.len(),
        src.subrange(p, src.len() as int) == decls_text(ds),
    ensures
        lex_kinds(src, at(p)) == Some(decls_kinds(ds) + seq![Kind::Eof]),
    decreases ds.len(),
{
    if ds.len() == 0 {
        let ts = seq![TokenV { kind: Kind::Eof, span: crate::lexer::mk_span(p, p, 1, 1) }];
        assert(kinds(ts) =~= seq![Kind::Eof]);
        assert(decls_kinds(ds) + seq![Kind::Eof] =~= seq![Kind::Eof]);
    } else {
        let d = ds[0];
        let t = decl_text(d);
        let all = decls_text(ds);
        assert(decl_ok(d));
        lemma_decl_text_ends(d);
        assert(all.subrange(0, t.len() as int) =~= t);
        lemma_sub(src, p, all, 0, t.len() as int);
        lemma_lex_decl(src, p, d);
        let q = p + t.len();
        let rest = ds.drop_first();
        if ds.len() == 1 {
            assert(src.subrange(q, src.len() as int) =~= decls_text(rest));
            lemma_lex_decls(src, q, rest);
            assert(decl_kinds(d) + (decls_kinds(rest) + seq![Kind::Eof]) =~= decls_kinds(ds) + seq![Kind::Eof]);
        } else {
            reveal_strlit("\n");
            lemma_at(src, p, all, t.len() as int);
            lemma_lex_blank(src, at(q), at(q + 1));
            assert forall|i: int| 0 <= i < rest.len() implies decl_ok(#[trigger] rest[i]) by {
                assert(rest[i] == ds[i + 1]);
            }
            lemma_sub(src, p, all, t.len() + 1int, all.len() as int);
            assert(all.subrange(t.len() + 1int, all.len() as int) =~= decls_text(rest));
            lemma_lex_decls(src, q + 1, rest);
            assert(decl_kinds(d) + (decls_kinds(rest) + seq![Kind::Eof]) =~= decls_kinds(ds) + seq![Kind::Eof]);
        }
    }
}

/// What a program's declarations say, without the places in the source
/// where they stand.
pub ghost struct Sketch {
    pub includes: Seq<(Seq<char>, Option<Seq<char>>)>,
    pub assets: Seq<(Seq<char>, Seq<char>, Seq<char>)>,
    pub variables: Seq<(Seq<char>, Expr)>,
    pub token_blocks: Seq<(Seq<char>, Seq<(Seq<char>, Expr)>)>,
    pub canvas: Option<(Seq<char>, Seq<(Seq<char>, Expr)>)>,
    pub components: Seq<(Seq<char>, Seq<ParamV>, NodeSk)>,
    pub nodes: Seq<NodeSk>,
    pub pages: Seq<(Seq<char>, Seq<NodeSk>)>,
}

pub open spec fn canvas_sketch(c: CanvasV) -> (Seq<char>, Seq<(Seq<char>, Expr)>) {
    (c.name, strip_attrs(c.attrs))
}

pub open spec fn page_sketch(pg: PageV) -> (Seq<char>, Seq<NodeSk>) {
    (pg.name, nodes_sk(pg.nodes))
}

pub open spec fn inc_sketch(i: IncludeV) -> (Seq<char>, Option<Seq<char>>) {
    (i.path, i.namespace)
}

pub open spec fn asset_sketch(a: AssetV) -> (Seq<char>, Seq<char>, Seq<char>) {
    (a.name, a.kind, a.path)
}

pub open spec fn block_sketch(b: TokenBlockV) -> (Seq<char>, Seq<(Seq<char>, Expr)>) {
    (b.name, strip_entries(b.entries))
}

pub open spec fn sketch(p: ProgramV) -> Sketch {
    Sketch {
        includes: p.includes.map_values(|i: IncludeV| inc_sketch(i)),
        assets: p.assets.map_values(|a: AssetV| asset_sketch(a)),
        variables: bindings(p.variables),
        token_blocks: p.token_blocks.map_values(|b: TokenBlockV| block_sketch(b)),
        canvas: match p.canvas {
            Some(c) => Some(canvas_sketch(c)),
            None => None,
        },
        components: p.components.map_values(|c: ComponentV| comp_sketch(c)),
        nodes: nodes_sk(p.nodes),
        pages: p.pages.map_values(|pg: PageV| page_sketch(pg)),
    }
}

pub open spec fn add_decl(sk: Sketch, d: Decl) -> Sketch {
    match d {
        Decl::Inc(i) => Sketch { includes: sk.includes.push(inc_sketch(i)), ..sk },
        Decl::Ast(a) => Sketch { assets: sk.assets.push(asset_sketch(a)), ..sk },
        Decl::Var(l) => Sketch { variables: sk.variables.push((l.name, l.value)), ..sk },
        Decl::Blk(b) => Sketch { token_blocks: sk.token_blocks.push(block_sketch(b)), ..sk },
        Decl::Cnv(c) => Sketch { canvas: Some(canvas_sketch(c)), ..sk },
        Decl::Cmp(c) => Sketch { components: sk.components.push(comp_sketch(c)), ..sk },
        Decl::Nd(n) => Sketch { nodes: sk.nodes.push(node_sk(n)), ..sk },
        Decl::Pg(pg) => Sketch { pages: sk.pages.push(page_sketch(pg)), ..sk },
    }
}

pub open spec fn add_all(sk: Sketch, ds: Seq<Decl>) -> Sketch
    decreases ds.len(),
{
    if ds.len() == 0 {
        sk
    } else {
        add_all(add_decl(sk, ds[0]), ds.drop_first())
    }
}

#[verifier::rlimit(40)]
#[verifier::spinoff_prover]
proof fn lemma_parse_let(toks: Seq<TokenV>, q: int, prog: ProgramV, l: LetV)
    requires
        let_ok(l),
        0 <= q,
        q + let_kinds(l).len() < toks.len(),
        kinds(toks).subrange(q, q + let_kinds(l).len()) == let_kinds(l),
        toks[q + let_kinds(l).len()].kind != Kind::LParen,
    ensures
        decl_spec(toks, q, prog) == Ok::<(ProgramV, int), crate::error::ErrorView>(
            (
                ProgramV {
                    variables: prog.variables.push(LetV { name: l.name, value: l.value, span: toks[q].span }),
                    ..prog
                },
                q + let_kinds(l).len(),
            ),
        ),
{
    let ks = let_kinds(l);
    let ek = expr_kinds(l.value);
    let w = 3 + ek.len() as int;
    lemma_kinds_in(toks, q, ks, 0);
    lemma_kinds_in(toks, q, ks, 1);
    lemma_kinds_in(toks, q, ks, 2);
    lemma_kinds_split(toks, q, seq![Kind::Let, Kind::Ident(l.name), Kind::Equals], ek);
    lemma_parse_expr(toks, q + 3, l.value);
    reveal(let_spec);
    reveal(decl_spec);
}

#[verifier::rlimit(40)]
#[verifier::spinoff_prover]
proof fn lemma_parse_decl(toks: Seq<TokenV>, q: int, prog: ProgramV, d: Decl)
    requires
        decl_ok(d),
        0 <= q,
        q + decl_kinds(d).len() < toks.len(),
        kinds(toks).subrange(q, q + decl_kinds(d).len()) == decl_kinds(d),
        toks[q + decl_kinds(d).len()].kind != Kind::LParen,
        toks[q + decl_kinds(d).len()].kind != Kind::Ident("as"@),
    ensures
        match decl_spec(toks, q, prog) {
            Ok((g, q2)) => q2 == q + decl_kinds(d).len() && sketch(g) == add_decl(sketch(prog), d),
            Err(_) => false,
        },
{
    match d {
        Decl::Inc(i) => {
            lemma_parse_include(toks, q, prog, i);
            let g = decl_spec(toks, q, prog)->Ok_0.0;
            assert(sketch(g).includes =~= sketch(prog).includes.push(inc_sketch(i)));
        },
        Decl::Ast(a) => {
            lemma_parse_asset(toks, q, prog, a);
            let g = decl_spec(toks, q, prog)->Ok_0.0;
            assert(sketch(g).assets =~= sketch(prog).assets.push(asset_sketch(a)));
        },
        Decl::Var(l) => {
            lemma_parse_let(toks, q, prog, l);
            let g = decl_spec(toks, q, prog)->Ok_0.0;
            assert(sketch(g).variables =~= sketch(prog).variables.push((l.name, l.value)));
        },
        Decl::Blk(b) => {
            lemma_parse_block(toks, q, prog, b);
            let g = decl_spec(toks, q, prog)->Ok_0.0;
            assert(g.token_blocks =~= prog.token_blocks.push(g.token_blocks.last()));
            assert(sketch(g).token_blocks =~= sketch(prog).token_blocks.push(block_sketch(b)));
        },
        Decl::Cnv(c) => {
            lemma_parse_canvas(toks, q, prog, c);
        },
        Decl::Cmp(c) => {
            lemma_parse_component(toks, q, prog, c);
            let g = decl_spec(toks, q, prog)->Ok_0.0;
            assert(g.components =~= prog.components.push(g.components.last()));
            assert(sketch(g).components =~= sketch(prog).components.push(comp_sketch(c)));
        },
        Decl::Nd(n) => {
            lemma_parse_top_node(toks, q, prog, n);
        },
        Decl::Pg(pg) => {
            lemma_parse_page(toks, q, prog, pg);
            let g = decl_spec(toks, q, prog)->Ok_0.0;
            assert(g.pages =~= prog.pages.push(g.pages.last()));
            assert(sketch(g).pages =~= sketch(prog).pages.push(page_sketch(pg)));
        },
    }
}

#[verifier::rlimit(80)]
#[verifier::spinoff_prover]
proof fn lemma_first_kind(d: Decl)
    requires
        decl_ok(d),
    ensures
        decl_kinds(d).len() > 0,
        decl_kinds(d)[0] != Kind::LParen,
        decl_kinds(d)[0] != Kind::Ident("as"@),
        decl_kinds(d)[0] != Kind::Eof,
{
    lemma_words();
    if let Decl::Nd(n) = d {
        lemma_node_start(n);
    }
}

/// The tokens of declarations, then `Eof`, add those declarations to the
/// program.
#[verifier::rlimit(40)]
#[verifier::spinoff_prover]
proof fn lemma_parse_decls(toks: Seq<TokenV>, q: int, prog: ProgramV, ds: Seq<Decl>)
    requires
        forall|i: int| 0 <= i < ds.len() ==> decl_ok(#[trigger] ds[i]),
        0 <= q <= toks.len(),
        kinds(toks).subrange(q, toks.len() as int) == decls_kinds(ds) + seq![Kind::Eof],
    ensures
        match program_spec(toks, q, prog) {
            Ok(r) => sketch(r) == add_all(sketch(prog), ds),
            Err(_) => false,
        },
    decreases ds.len(),
{
    let ks = decls_kinds(ds) + seq![Kind::Eof];
    if ds.len() == 0 {
        lemma_kinds_at(toks, q, ks, 0);
    } else {
        let d = ds[0];
        let rest = ds.drop_first();
        assert(decl_ok(d));
        let dk = decl_kinds(d);
        let w = dk.len() as int;
        assert(ks =~= dk + (decls_kinds(rest) + seq![Kind::Eof]));
        lemma_kinds_at(toks, q, ks, w);
        if rest.len() > 0 {
            assert(decl_ok(rest[0]));
            lemma_first_kind(rest[0]);
            assert(decls_kinds(rest) =~= decl_kinds(rest[0]) + decls_kinds(rest.drop_first()));
        }
        assert(toks[q + w].kind != Kind::LParen);
        assert(toks[q + w].kind != Kind::Ident("as"@));
        lemma_first_kind(d);
        lemma_kinds_at(toks, q, ks, 0);
        assert(kinds(toks).subrange(q, q + w) =~= dk) by {
            assert forall|k: int| 0 <= k < w implies kinds(toks).subrange(q, q + w)[k] == dk[k] by {
                lemma_kinds_at(toks, q, ks, k);
            }
        }
        lemma_parse_decl(toks, q, prog, d);
        let g = decl_spec(toks, q, prog)->Ok_0.0;
        assert forall|i: int| 0 <= i < rest.len() implies decl_ok(#[trigger] rest[i]) by {
            assert(rest[i] == ds[i + 1]);
        }
        assert(kinds(toks).subrange(q + w, toks.len() as int) =~= decls_kinds(rest) + seq![Kind::Eof]) by {
            assert forall|k: int| 0 <= k < toks.len() - (q + w) implies kinds(toks).subrange(q + w, toks.len() as int)[k]
                == (decls_kinds(rest) + seq![Kind::Eof])[k] by {
                lemma_kinds_at(toks, q, ks, k + w);
            }
        }
        lemma_parse_decls(toks, q + w, g, rest);
    }
}

// ---------------------------------------------------------------------------
// The law on programs of includes, assets, variables and token blocks
// ---------------------------------------------------------------------------

/// Every declaration of the program reads back from its text.
pub open spec fn all_read_back(p: ProgramV) -> bool {
    &&& forall|i: int| 0 <= i < p.includes.len() ==> inc_ok(#[trigger] p.includes[i])
    &&& forall|i: int| 0 <= i < p.assets.len() ==> asset_ok(#[trigger] p.assets[i])
    &&& forall|i: int| 0 <= i < p.variables.len() ==> let_ok(#[trigger] p.variables[i])
    &&& forall|i: int| 0 <= i < p.token_blocks.len() ==> block_ok(#[trigger] p.token_blocks[i])
    &&& match p.canvas {
        Some(c) => canvas_ok(c),
        None => true,
    }
    &&& forall|i: int| 0 <= i < p.components.len() ==> component_ok(#[trigger] p.components[i])
    &&& forall|i: int| 0 <= i < p.nodes.len() ==> node_ok(#[trigger] p.nodes[i])
    &&& forall|i: int| 0 <= i < p.pages.len() ==> page_ok(#[trigger] p.pages[i])
}

/// The canvas of a program as a declaration, if it has one.
pub open spec fn canvas_decls(c: Option<CanvasV>) -> Seq<Decl> {
    match c {
        Some(c) => seq![Decl::Cnv(c)],
        None => Seq::empty(),
    }
}

/// The declarations of a program in the order the formatter writes them.
pub open spec fn decls_of(p: ProgramV) -> Seq<Decl> {
    p.includes.map_values(|i: IncludeV| Decl::Inc(i)) + p.assets.map_values(|a: AssetV| Decl::Ast(a))
        + p.variables.map_values(|l: LetV| Decl::Var(l)) + p.token_blocks.map_values(|b: TokenBlockV| Decl::Blk(b))
        + canvas_decls(p.canvas) + p.components.map_values(|c: ComponentV| Decl::Cmp(c)) + p.nodes.map_values(
        |n: NodeV| Decl::Nd(n),
    ) + p.pages.map_values(
        |pg: PageV| Decl::Pg(pg),
    )
}

proof fn lemma_decls_of_ok(p: ProgramV)
    requires
        all_read_back(p),
    ensures
        forall|i: int| 0 <= i < decls_of(p).len() ==> decl_ok(#[trigger] decls_of(p)[i]),
{
    let ds = decls_of(p);
    let a = p.includes.len() as int;
    let b = a + p.assets.len();
    let c = b + p.variables.len();
    let d = c + p.token_blocks.len();
    let e = d + canvas_decls(p.canvas).len();
    let e2 = e + p.components.len();
    let f = e2 + p.nodes.len();
    assert forall|i: int| 0 <= i < ds.len() implies decl_ok(#[trigger] ds[i]) by {
        if i < a {
            assert(ds[i] == Decl::Inc(p.includes[i]));
        } else if i < b {
            assert(ds[i] == Decl::Ast(p.assets[i - a]));
        } else if i < c {
            assert(ds[i] == Decl::Var(p.variables[i - b]));
        } else if i < d {
            assert(ds[i] == Decl::Blk(p.token_blocks[i - c]));
        } else if i < e {
            assert(ds[i] == Decl::Cnv(p.canvas->0));
        } else if i < e2 {
            assert(ds[i] == Decl::Cmp(p.components[i - e]));
        } else if i < f {
            assert(ds[i] == Decl::Nd(p.nodes[i - e2]));
        } else {
            assert(ds[i] == Decl::Pg(p.pages[i - f]));
        }
    }
}

proof fn lemma_decl_texts_of(p: ProgramV)
    ensures
        decl_texts(p) == decls_of(p).map_values(|d: Decl| decl_text(d)),
{
    let ds = decls_of(p);
    let ts = decl_texts(p);
    let a = p.includes.len() as int;
    let b = a + p.assets.len();
    let c = b + p.variables.len();
    let d = c + p.token_blocks.len();
    let e = d + canvas_decls(p.canvas).len();
    let e2 = e + p.components.len();
    let f = e2 + p.nodes.len();
    assert(ts.len() == ds.len());
    assert forall|i: int| 0 <= i < ds.len() implies #[trigger] ts[i] == decl_text(ds[i]) by {
        if i < a {
            assert(ds[i] == Decl::Inc(p.includes[i]));
        } else if i < b {
            assert(ds[i] == Decl::Ast(p.assets[i - a]));
        } else if i < c {
            assert(ds[i] == Decl::Var(p.variables[i - b]));
        } else if i < d {
            assert(ds[i] == Decl::Blk(p.token_blocks[i - c]));
        } else if i < e {
            assert(ds[i] == Decl::Cnv(p.canvas->0));
        } else if i < e2 {
            assert(ds[i] == Decl::Cmp(p.components[i - e]));
        } else if i < f {
            assert(ds[i] == Decl::Nd(p.nodes[i - e2]));
        } else {
            assert(ds[i] == Decl::Pg(p.pages[i - f]));
        }
    }
    assert(ts =~= ds.map_values(|d: Decl| decl_text(d)));
}

proof fn lemma_add_all_app(sk: Sketch, a: Seq<Decl>, b: Seq<Decl>)
    ensures
        add_all(sk, a + b) == add_all(add_all(sk, a), b),
    decreases a.len(),
{
    if a.len() == 0 {
        assert(a + b =~= b);
    } else {
        assert((a + b).drop_first() =~= a.drop_first() + b);
        assert((a + b)[0] == a[0]);
        lemma_add_all_app(add_decl(sk, a[0]), a.drop_first(), b);
    }
}

proof fn lemma_add_includes(sk: Sketch, s: Seq<IncludeV>)
    ensures
        add_all(sk, s.map_values(|i: IncludeV| Decl::Inc(i))) == (Sketch {
            includes: sk.includes + s.map_values(|i: IncludeV| inc_sketch(i)),
            ..sk
        }),
    decreases s.len(),
{
    let ds = s.map_values(|i: IncludeV| Decl::Inc(i));
    if s.len() == 0 {
        assert(sk.includes + s.map_values(|i: IncludeV| inc_sketch(i)) =~= sk.includes);
    } else {
        assert(ds[0] == Decl::Inc(s[0]));
        assert(ds.drop_first() =~= s.drop_first().map_values(|i: IncludeV| Decl::Inc(i)));
        lemma_add_includes(add_decl(sk, ds[0]), s.drop_first());
        assert(sk.includes.push(inc_sketch(s[0])) + s.drop_first().map_values(|i: IncludeV| inc_sketch(i)) =~= sk.includes
            + s.map_values(|i: IncludeV| inc_sketch(i)));
    }
}

proof fn lemma_add_assets(sk: Sketch, s: Seq<AssetV>)
    ensures
        add_all(sk, s.map_values(|a: AssetV| Decl::Ast(a))) == (Sketch {
            assets: sk.assets + s.map_values(|a: AssetV| asset_sketch(a)),
            ..sk
        }),
    decreases s.len(),
{
    let ds = s.map_values(|a: AssetV| Decl::Ast(a));
    if s.len() == 0 {
        assert(sk.assets + s.map_values(|a: AssetV| asset_sketch(a)) =~= sk.assets);
    } else {
        assert(ds[0] == Decl::Ast(s[0]));
        assert(ds.drop_first() =~= s.drop_first().map_values(|a: AssetV| Decl::Ast(a)));
        lemma_add_assets(add_decl(sk, ds[0]), s.drop_first());
        assert(sk.assets.push(asset_sketch(s[0])) + s.drop_first().map_values(|a: AssetV| asset_sketch(a)) =~= sk.assets
            + s.map_values(|a: AssetV| asset_sketch(a)));
    }
}

proof fn lemma_add_variables(sk: Sketch, s: Seq<LetV>)
    ensures
        add_all(sk, s.map_values(|l: LetV| Decl::Var(l))) == (Sketch { variables: sk.variables + bindings(s), ..sk }),
    decreases s.len(),
{
    let ds = s.map_values(|l: LetV| Decl::Var(l));
    if s.len() == 0 {
        assert(sk.variables + bindings(s) =~= sk.variables);
    } else {
        assert(ds[0] == Decl::Var(s[0]));
        assert(ds.drop_first() =~= s.drop_first().map_values(|l: LetV| Decl::Var(l)));
        lemma_add_variables(add_decl(sk, ds[0]), s.drop_first());
        assert(sk.variables.push((s[0].name, s[0].value)) + bindings(s.drop_first()) =~= sk.variables + bindings(s));
    }
}

proof fn lemma_add_blocks(sk: Sketch, s: Seq<TokenBlockV>)
    ensures
        add_all(sk, s.map_values(|b: TokenBlockV| Decl::Blk(b))) == (Sketch {
            token_blocks: sk.token_blocks + s.map_values(|b: TokenBlockV| block_sketch(b)),
            ..sk
        }),
    decreases s.len(),
{
    let ds = s.map_values(|b: TokenBlockV| Decl::Blk(b));
    if s.len() == 0 {
        assert(sk.token_blocks + s.map_values(|b: TokenBlockV| block_sketch(b)) =~= sk.token_blocks);
    } else {
        assert(ds[0] == Decl::Blk(s[0]));
        assert(ds.drop_first() =~= s.drop_first().map_values(|b: TokenBlockV| Decl::Blk(b)));
        lemma_add_blocks(add_decl(sk, ds[0]), s.drop_first());
        assert(sk.token_blocks.push(block_sketch(s[0])) + s.drop_first().map_values(|b: TokenBlockV| block_sketch(b))
            =~= sk.token_blocks + s.map_values(|b: TokenBlockV| block_sketch(b)));
    }
}

proof fn lemma_add_nodes(sk: Sketch, s: Seq<NodeV>)
    ensures
        add_all(sk, s.map_values(|n: NodeV| Decl::Nd(n))) == (Sketch { nodes: sk.nodes + nodes_sk(s), ..sk }),
    decreases s.len(),
{
    let ds = s.map_values(|n: NodeV| Decl::Nd(n));
    if s.len() == 0 {
        assert(sk.nodes + nodes_sk(s) =~= sk.nodes);
    } else {
        assert(ds[0] == Decl::Nd(s[0]));
        assert(ds.drop_first() =~= s.drop_first().map_values(|n: NodeV| Decl::Nd(n)));
        lemma_add_nodes(add_decl(sk, ds[0]), s.drop_first());
        lemma_nodes_sk_front(s);
        assert(s.drop_first() =~= s.subrange(1, s.len() as int));
        assert(sk.nodes.push(node_sk(s[0])) + nodes_sk(s.drop_first()) =~= sk.nodes + nodes_sk(s));
    }
}

proof fn lemma_add_pages(sk: Sketch, s: Seq<PageV>)
    ensures
        add_all(sk, s.map_values(|pg: PageV| Decl::Pg(pg))) == (Sketch {
            pages: sk.pages + s.map_values(|pg: PageV| page_sketch(pg)),
            ..sk
        }),
    decreases s.len(),
{
    let ds = s.map_values(|pg: PageV| Decl::Pg(pg));
    if s.len() == 0 {
        assert(sk.pages + s.map_values(|pg: PageV| page_sketch(pg)) =~= sk.pages);
    } else {
        assert(ds[0] == Decl::Pg(s[0]));
        assert(ds.drop_first() =~= s.drop_first().map_values(|pg: PageV| Decl::Pg(pg)));
        lemma_add_pages(add_decl(sk, ds[0]), s.drop_first());
        assert(sk.pages.push(page_sketch(s[0])) + s.drop_first().map_values(|pg: PageV| page_sketch(pg)) =~= sk.pages
            + s.map_values(|pg: PageV| page_sketch(pg)));
    }
}

/// Adding a program's declarations to nothing gives the program's sketch.
proof fn lemma_add_all_of(p: ProgramV)
    ensures
        add_all(sketch(empty_program()), decls_of(p)) == sketch(p),
{
    let e = sketch(empty_program());
    let di = p.includes.map_values(|i: IncludeV| Decl::Inc(i));
    let da = p.assets.map_values(|a: AssetV| Decl::Ast(a));
    let dv = p.variables.map_values(|l: LetV| Decl::Var(l));
    let db = p.token_blocks.map_values(|b: TokenBlockV| Decl::Blk(b));
    let dc = canvas_decls(p.canvas);
    let dm = p.components.map_values(|c: ComponentV| Decl::Cmp(c));
    let dn = p.nodes.map_values(|n: NodeV| Decl::Nd(n));
    let dp = p.pages.map_values(|pg: PageV| Decl::Pg(pg));
    lemma_add_all_app(e, di + da + dv + db + dc + dm + dn, dp);
    lemma_add_all_app(e, di + da + dv + db + dc + dm, dn);
    lemma_add_all_app(e, di + da + dv + db + dc, dm);
    lemma_add_all_app(e, di + da + dv + db, dc);
    lemma_add_all_app(e, di + da + dv, db);
    lemma_add_all_app(e, di + da, dv);
    lemma_add_all_app(e, di, da);
    lemma_add_includes(e, p.includes);
    let s1 = add_all(e, di);
    lemma_add_assets(s1, p.assets);
    let s2 = add_all(s1, da);
    lemma_add_variables(s2, p.variables);
    let s3 = add_all(s2, dv);
    lemma_add_blocks(s3, p.token_blocks);
    let s4 = add_all(s3, db);
    assert(e.includes + p.includes.map_values(|i: IncludeV| inc_sketch(i)) =~= sketch(p).includes);
    assert(e.assets + p.assets.map_values(|a: AssetV| asset_sketch(a)) =~= sketch(p).assets);
    assert(e.variables + bindings(p.variables) =~= sketch(p).variables);
    assert(e.token_blocks + p.token_blocks.map_values(|b: TokenBlockV| block_sketch(b)) =~= sketch(p).token_blocks);
    assert(e.pages =~= Seq::<(Seq<char>, Seq<NodeSk>)>::empty());
    assert(e.components =~= Seq::<(Seq<char>, Seq<ParamV>, NodeSk)>::empty());
    assert(s4 == Sketch {
        canvas: None,
        components: Seq::empty(),
        nodes: Seq::empty(),
        pages: Seq::empty(),
        ..sketch(p)
    });
    let s5 = add_all(s4, dc);
    if let Some(c) = p.canvas {
        assert(dc[0] == Decl::Cnv(c));
        assert(dc.drop_first().len() == 0);
        assert(add_all(add_decl(s4, dc[0]), dc.drop_first()) == add_decl(s4, dc[0]));
        assert(s5 == add_decl(s4, Decl::Cnv(c)));
    } else {
        assert(dc.len() == 0);
    }
    assert(s5 == Sketch { components: Seq::empty(), nodes: Seq::empty(), pages: Seq::empty(), ..sketch(p) });
    lemma_add_components(s5, p.components);
    let s55 = add_all(s5, dm);
    assert(Seq::<(Seq<char>, Seq<ParamV>, NodeSk)>::empty() + p.components.map_values(|c: ComponentV| comp_sketch(c))
        =~= sketch(p).components);
    assert(s55 == Sketch { nodes: Seq::empty(), pages: Seq::empty(), ..sketch(p) });
    lemma_add_nodes(s55, p.nodes);
    let s6 = add_all(s55, dn);
    assert(Seq::<NodeSk>::empty() + nodes_sk(p.nodes) =~= sketch(p).nodes);
    assert(s6 == Sketch { pages: Seq::empty(), ..sketch(p) });
    lemma_add_pages(s6, p.pages);
    assert(Seq::<(Seq<char>, Seq<NodeSk>)>::empty() + p.pages.map_values(|pg: PageV| page_sketch(pg)) =~= sketch(p).pages);
    assert(add_all(s6, dp) == sketch(p));
}

proof fn lemma_attr_lines_strip(a: Seq<AttrV>, b: Seq<AttrV>, ind: Seq<char>)
    requires
        strip_attrs(a) == strip_attrs(b),
    ensures
        attr_lines(a, ind) == attr_lines(b, ind),
    decreases a.len(),
{
    assert(strip_attrs(a).len() == a.len());
    assert(strip_attrs(b).len() == b.len());
    if a.len() > 0 {
        assert(strip_attrs(a.drop_last()) =~= strip_attrs(a).drop_last());
        assert(strip_attrs(b.drop_last()) =~= strip_attrs(b).drop_last());
        lemma_attr_lines_strip(a.drop_last(), b.drop_last(), ind);
        assert(strip_attrs(a)[a.len() - 1] == strip_attrs(b)[a.len() - 1]);
    }
}

proof fn lemma_same_block_text(x: TokenBlockV, y: TokenBlockV)
    requires
        block_sketch(x) == block_sketch(y),
    ensures
        token_text(x) == token_text(y),
{
    assert(strip_attrs(entry_attrs(x)) =~= strip_entries(x.entries));
    assert(strip_attrs(entry_attrs(y)) =~= strip_entries(y.entries));
    lemma_attr_lines_strip(entry_attrs(x), entry_attrs(y), "    "@);
}

proof fn lemma_nodes_sk_index(s: Seq<NodeV>, k: int)
    requires
        0 <= k < s.len(),
    ensures
        nodes_sk(s)[k] == node_sk(s[k]),
    decreases s.len(),
{
    lemma_nodes_sk_len(s.drop_last());
    if k < s.len() - 1 {
        lemma_nodes_sk_index(s.drop_last(), k);
    }
}

proof fn lemma_same_canvas_text(x: CanvasV, y: CanvasV)
    requires
        canvas_sketch(x) == canvas_sketch(y),
    ensures
        canvas_text(x) == canvas_text(y),
{
    lemma_attr_lines_strip(x.attrs, y.attrs, "    "@);
}

proof fn lemma_same_page_text(x: PageV, y: PageV)
    requires
        page_sketch(x) == page_sketch(y),
    ensures
        page_text(x) == page_text(y),
{
    lemma_same_nodes_text(x.nodes, y.nodes, "    "@);
}

/// Two programs with the same sketch are written the same.
proof fn lemma_same_sketch_text(p: ProgramV, q: ProgramV)
    requires
        sketch(p) == sketch(q),
    ensures
        decl_texts(p) == decl_texts(q),
{
    let sp = sketch(p);
    let sq = sketch(q);
    assert(sp.includes.len() == p.includes.len() && sq.includes.len() == q.includes.len());
    assert(sp.assets.len() == p.assets.len() && sq.assets.len() == q.assets.len());
    assert(sp.token_blocks.len() == p.token_blocks.len() && sq.token_blocks.len() == q.token_blocks.len());
    let ip = p.includes.map_values(|i: IncludeV| include_text(i));
    let iq = q.includes.map_values(|i: IncludeV| include_text(i));
    assert forall|k: int| 0 <= k < ip.len() implies #[trigger] ip[k] == iq[k] by {
        assert(sp.includes[k] == sq.includes[k]);
    }
    assert(ip =~= iq);
    let ap = p.assets.map_values(|a: AssetV| asset_text(a));
    let aq = q.assets.map_values(|a: AssetV| asset_text(a));
    assert forall|k: int| 0 <= k < ap.len() implies #[trigger] ap[k] == aq[k] by {
        assert(sp.assets[k] == sq.assets[k]);
    }
    assert(ap =~= aq);
    lemma_same_bindings_text(p.variables, q.variables);
    let bp = p.token_blocks.map_values(|b: TokenBlockV| token_text(b));
    let bq = q.token_blocks.map_values(|b: TokenBlockV| token_text(b));
    assert forall|k: int| 0 <= k < bp.len() implies #[trigger] bp[k] == bq[k] by {
        assert(sp.token_blocks[k] == sq.token_blocks[k]);
        lemma_same_block_text(p.token_blocks[k], q.token_blocks[k]);
    }
    assert(bp =~= bq);
    if let Some(c) = p.canvas {
        lemma_same_canvas_text(c, q.canvas->0);
    }
    lemma_nodes_sk_len(p.nodes);
    lemma_nodes_sk_len(q.nodes);
    let np = p.nodes.map_values(|n: NodeV| fmt_node_spec(n, Seq::empty()));
    let nq = q.nodes.map_values(|n: NodeV| fmt_node_spec(n, Seq::empty()));
    assert forall|k: int| 0 <= k < np.len() implies #[trigger] np[k] == nq[k] by {
        lemma_nodes_sk_index(p.nodes, k);
        lemma_nodes_sk_index(q.nodes, k);
        lemma_same_node_text(p.nodes[k], q.nodes[k], Seq::empty());
    }
    assert(np =~= nq);
    assert(sp.pages.len() == p.pages.len() && sq.pages.len() == q.pages.len());
    let pp = p.pages.map_values(|pg: PageV| page_text(pg));
    let pq = q.pages.map_values(|pg: PageV| page_text(pg));
    assert forall|k: int| 0 <= k < pp.len() implies #[trigger] pp[k] == pq[k] by {
        assert(sp.pages[k] == sq.pages[k]);
        lemma_same_page_text(p.pages[k], q.pages[k]);
    }
    assert(pp =~= pq);
    assert(sp.components.len() == p.components.len() && sq.components.len() == q.components.len());
    let cp = p.components.map_values(|c: ComponentV| component_text(c));
    let cq = q.components.map_values(|c: ComponentV| component_text(c));
    assert forall|k: int| 0 <= k < cp.len() implies #[trigger] cp[k] == cq[k] by {
        assert(sp.components[k] == sq.components[k]);
        lemma_same_component_text(p.components[k], q.components[k]);
    }
    assert(cp =~= cq);
    assert(decl_texts(p) =~= decl_texts(q));
}

/// A program reads back from the formatter's text: parsing that text gives a
/// program whose includes, assets, variables, token blocks, canvas,
/// components, nodes and pages say the same (paths, namespaces, names, kinds,
/// labels, parameters, keys, values and children, in the same order), and
/// formatting it again gives the same text.
///
/// What reads back: names (of variables, assets, token blocks, components,
/// parameters, nodes, attribute and object keys, calls and namespaces) made
/// of letters, digits, `_` and `-`, starting with a letter or `_`, that are
/// no keyword; names used as values, which may also be dotted references
/// such as `colors.primary` (parts joined by `.`, the first no keyword);
/// asset kinds and token keys that are such names or one of
/// `image`, `text`, `frame`, `shape` and `page`; paths, labels, names of the
/// canvas and of pages, and strings without quotes or backslashes; values
/// built of integers, numbers with a fraction (in normal form, and with
/// fraction digits or below 10^15 in size), such strings, colors of 6 or 8
/// hex digits, booleans, names, arrays, objects and calls; and nodes where
/// no node but a text node or a `use` has a label. A `use` reads back when
/// it has no children, its positional arguments stand under `__arg_0`,
/// `__arg_1`, ... in order, no other argument's key starts with `__arg_`,
/// and its label is its first positional argument that is a string.
pub proof fn law_program_reads_back(p: ProgramV)
    requires
        all_read_back(p),
    ensures
        match parse_source_spec(format_spec(p)) {
            Ok(q) => sketch(q) == sketch(p) && format_spec(q) == format_spec(p),
            Err(_) => false,
        },
{
    let ds = decls_of(p);
    let src = format_spec(p);
    lemma_decls_of_ok(p);
    lemma_decl_texts_of(p);
    lemma_decls_join(ds);
    if ds.len() > 0 {
        lemma_decls_text_ends(ds);
    }
    assert(src == decls_text(ds));
    assert(src.subrange(0, src.len() as int) =~= decls_text(ds));
    lemma_lex_decls(src, 0, ds);
    assert(at(0) == (Pos { pos: 0, line: 1, col: 1 }));
    let toks = tokenize_spec(src)->Ok_0;
    assert(kinds(toks).subrange(0, toks.len() as int) =~= kinds(toks));
    lemma_parse_decls(toks, 0, empty_program(), ds);
    let q = parse_spec(toks)->Ok_0;
    lemma_add_all_of(p);
    lemma_same_sketch_text(q, p);
}


// ---------------------------------------------------------------------------
// Nodes
// ---------------------------------------------------------------------------

/// The token that opens a node of the given kind.
pub open spec fn kind_token(k: NodeKind) -> Kind {
    match k {
        NodeKind::Frame => Kind::Frame,
        NodeKind::Text => Kind::Text,
        NodeKind::Image => Kind::Image,
        NodeKind::Shape => Kind::Shape,
        NodeKind::Use => Kind::Use,
    }
}

/// An attribute of a node that reads back: a key that is a name and no
/// keyword, and a plain value.
pub open spec fn attr_ok(a: AttrV) -> bool {
    is_name(a.key) && keyword_of(a.key) is None && is_plain(a.value)
}

/// A node that reads back from its text: not a `use`; a plain label if a
/// text node has one, and no label on another node; a name that is no
/// keyword if it has one; attributes and children that read back.
pub open spec fn node_ok(n: NodeV) -> bool
    decreases n, 1int,
{
    if n.kind == NodeKind::Use {
        use_ok(n)
    } else {
        &&& n.kind != NodeKind::Use
        &&& (n.kind == NodeKind::Text ==> (n.label is Some ==> is_plain_text(n.label->0)))
        &&& (n.kind != NodeKind::Text ==> n.label is None)
        &&& (n.name is Some ==> is_name(n.name->0) && keyword_of(n.name->0) is None)
        &&& forall|i: int| 0 <= i < n.attrs.len() ==> attr_ok(#[trigger] n.attrs[i])
        &&& {
            proof {
                assert(decreases_to!(n => n.children));
            }
            nodes_ok(n.children)
        }
    }
}

/// A `use` that reads back: a component name that is no keyword, no
/// children, arguments that read back with the positional ones numbered
/// in order, and as label the first positional argument that is a string.
pub open spec fn use_ok(n: NodeV) -> bool {
    &&& n.name is Some
    &&& is_name(n.name->0)
    &&& keyword_of(n.name->0) is None
    &&& n.children.len() == 0
    &&& use_attrs_ok(n.attrs, 0)
    &&& n.label == use_label(n.attrs, None)
}

/// An argument of a `use` that reads back: a positional one under the key
/// of its place, a named one under a name that is no keyword and does not
/// look positional; a plain value.
pub open spec fn arg_ok(a: AttrV, idx: nat) -> bool {
    &&& is_plain(a.value)
    &&& if is_positional(a.key) {
        a.key == arg_key(idx)
    } else {
        is_name(a.key) && keyword_of(a.key) is None
    }
}

/// The arguments of a `use` read back, the first positional one being the
/// `idx`th.
pub open spec fn use_attrs_ok(a: Seq<AttrV>, idx: nat) -> bool
    decreases a.len(),
{
    if a.len() == 0 {
        true
    } else {
        arg_ok(a[0], idx) && use_attrs_ok(
            a.subrange(1, a.len() as int),
            if is_positional(a[0].key) { idx + 1 } else { idx },
        )
    }
}

/// The label that reading the arguments of a `use` gives: the first
/// positional string, when `label` is none yet.
pub open spec fn use_label(a: Seq<AttrV>, label: Option<Seq<char>>) -> Option<Seq<char>>
    decreases a.len(),
{
    if a.len() == 0 {
        label
    } else {
        let l2 = if is_positional(a[0].key) && label is None && a[0].value is Str {
            Some(a[0].value->Str_0)
        } else {
            label
        };
        use_label(a.subrange(1, a.len() as int), l2)
    }
}


pub open spec fn nodes_ok(s: Seq<NodeV>) -> bool
    decreases s, 0int,
{
    if s.len() == 0 {
        true
    } else {
        proof {
            assert(decreases_to!(s => s[0]));
        }
        node_ok(s[0]) && nodes_ok(s.subrange(1, s.len() as int))
    }
}

/// The tokens of one argument of a `use`.
pub open spec fn arg_kinds(a: AttrV) -> Seq<Kind> {
    if is_positional(a.key) {
        expr_kinds(a.value)
    } else {
        seq![Kind::Ident(a.key), Kind::Equals] + expr_kinds(a.value)
    }
}

/// The tokens of the arguments of a `use`, separated by commas.
pub open spec fn args_kinds(a: Seq<AttrV>) -> Seq<Kind>
    decreases a.len(),
{
    if a.len() == 0 {
        Seq::empty()
    } else {
        arg_kinds(a[0]) + if a.len() > 1 {
            seq![Kind::Comma] + args_kinds(a.subrange(1, a.len() as int))
        } else {
            Seq::empty()
        }
    }
}

/// The tokens of a node's head: its kind, then a text's label, then the
/// node's name.
pub open spec fn head_kinds(n: NodeV) -> Seq<Kind> {
    seq![kind_token(n.kind)] + label_kinds(n) + name_kinds(n.name)
}

pub open spec fn label_kinds(n: NodeV) -> Seq<Kind> {
    if n.kind == NodeKind::Text {
        match n.label {
            Some(l) => seq![Kind::Str(l)],
            None => Seq::<Kind>::empty(),
        }
    } else {
        Seq::<Kind>::empty()
    }
}

pub open spec fn name_kinds(name: Option<Seq<char>>) -> Seq<Kind> {
    match name {
        Some(x) => seq![Kind::Ident(x)],
        None => Seq::<Kind>::empty(),
    }
}

/// The text of a text node's label in its head.
pub open spec fn label_text(n: NodeV) -> Seq<char> {
    if n.kind == NodeKind::Text {
        match n.label {
            Some(l) => " \""@ + l + "\""@,
            None => Seq::empty(),
        }
    } else {
        Seq::empty()
    }
}

/// The text of a node's name in its head.
pub open spec fn name_text(name: Option<Seq<char>>) -> Seq<char> {
    match name {
        Some(x) => " "@ + x,
        None => Seq::empty(),
    }
}

/// The tokens of a node.
pub open spec fn node_kinds(n: NodeV) -> Seq<Kind>
    decreases n, 1int,
{
    if n.kind == NodeKind::Use {
        head_kinds(n) + seq![Kind::LParen] + args_kinds(n.attrs) + seq![Kind::RParen]
    } else if is_inline(n) {
        head_kinds(n) + seq![Kind::LBrace] + pairs_kinds(strip_attrs(n.attrs)) + seq![Kind::RBrace]
    } else {
        proof {
            assert(decreases_to!(n => n.children));
        }
        head_kinds(n) + seq![Kind::LBrace] + lines_kinds(n.attrs) + nodes_kinds(n.children) + seq![Kind::RBrace]
    }
}

pub open spec fn nodes_kinds(s: Seq<NodeV>) -> Seq<Kind>
    decreases s, 0int,
{
    if s.len() == 0 {
        Seq::empty()
    } else {
        proof {
            assert(decreases_to!(s => s[0]));
        }
        node_kinds(s[0]) + nodes_kinds(s.subrange(1, s.len() as int))
    }
}

proof fn lemma_nodes_front(s: Seq<NodeV>, ind: Seq<char>)
    requires
        s.len() >= 1,
    ensures
        fmt_nodes_spec(s, ind) == fmt_node_spec(s[0], ind) + fmt_nodes_spec(s.subrange(1, s.len() as int), ind),
    decreases s.len(),
{
    let f = s.subrange(1, s.len() as int);
    if s.len() == 1 {
        assert(s.drop_last().len() == 0);
        assert(fmt_nodes_spec(s.drop_last(), ind) =~= Seq::<char>::empty());
        assert(f.len() == 0);
        assert(fmt_nodes_spec(f, ind) =~= Seq::<char>::empty());
        assert(s.last() == s[0]);
        assert(fmt_nodes_spec(s, ind) =~= fmt_node_spec(s[0], ind) + fmt_nodes_spec(f, ind));
    } else {
        let d = s.drop_last();
        lemma_nodes_front(d, ind);
        assert(d.subrange(1, d.len() as int) =~= f.drop_last());
        assert(f.last() == s.last());
        assert(d[0] == s[0]);
        assert(fmt_nodes_spec(f, ind) == fmt_nodes_spec(f.drop_last(), ind) + fmt_node_spec(f.last(), ind));
        assert(fmt_nodes_spec(s, ind) =~= fmt_node_spec(s[0], ind) + fmt_nodes_spec(f, ind));
    }
}

/// Inline attributes are written as `key = value` pairs.
proof fn lemma_inline_pairs(a: Seq<AttrV>)
    ensures
        inline_attrs(a) == fmt_pairs(strip_attrs(a)),
    decreases a.len(),
{
    if a.len() > 0 {
        lemma_inline_pairs(a.drop_last());
        assert(strip_attrs(a).drop_last() =~= strip_attrs(a.drop_last()));
        assert(strip_attrs(a).last() == (a.last().key, a.last().value));
    } else {
        assert(strip_attrs(a).len() == 0);
    }
}

proof fn lemma_attrs_plain(a: Seq<AttrV>)
    requires
        forall|i: int| 0 <= i < a.len() ==> attr_ok(#[trigger] a[i]),
    ensures
        plain_pairs(strip_attrs(a)),
        forall|i: int| 0 <= i < a.len() ==> line_ok(#[trigger] a[i]),
    decreases a.len(),
{
    if a.len() > 0 {
        let rest = a.subrange(1, a.len() as int);
        assert forall|i: int| 0 <= i < rest.len() implies attr_ok(#[trigger] rest[i]) by {
            assert(rest[i] == a[i + 1]);
        }
        lemma_attrs_plain(rest);
        assert(strip_attrs(a).subrange(1, a.len() as int) =~= strip_attrs(rest));
        assert(attr_ok(a[0]));
        assert forall|i: int| 0 <= i < a.len() implies line_ok(#[trigger] a[i]) by {
            assert(attr_ok(a[i]));
        }
    }
}


#[verifier::rlimit(80)]
#[verifier::spinoff_prover]
proof fn lemma_kind_word(k: NodeKind)
    ensures
        is_name(kind_word(k)),
        word_kind(kind_word(k)) == kind_token(k),
{
    if k == NodeKind::Use {
        lemma_use_word();
    } else {
        lemma_words();
    }
}

proof fn lemma_use_word()
    ensures
        is_name("use"@),
        word_kind("use"@) == Kind::Use,
{
    reveal_strlit("use");
    reveal_strlit("canvas");
    reveal_strlit("asset");
    reveal_strlit("let");
    reveal_strlit("include");
    reveal_strlit("frame");
    reveal_strlit("text");
    reveal_strlit("image");
    reveal_strlit("shape");
    reveal_strlit("component");
    assert("use"@ != "canvas"@) by {
        assert("use"@[0] != "canvas"@[0]);
    }
    assert("use"@ != "asset"@) by {
        assert("use"@[0] != "asset"@[0]);
    }
    assert("use"@ != "let"@) by {
        assert("use"@[0] != "let"@[0]);
    }
    assert("use"@ != "include"@) by {
        assert("use"@[0] != "include"@[0]);
    }
    assert("use"@ != "frame"@) by {
        assert("use"@[0] != "frame"@[0]);
    }
    assert("use"@ != "text"@) by {
        assert("use"@[0] != "text"@[0]);
    }
    assert("use"@ != "image"@) by {
        assert("use"@[0] != "image"@[0]);
    }
    assert("use"@ != "shape"@) by {
        assert("use"@[0] != "shape"@[0]);
    }
    assert("use"@ != "component"@) by {
        assert("use"@[0] != "component"@[0]);
    }
    assert(is_ident_start("use"@[0]));
    assert forall|k: int| 0 <= k < "use"@.len() implies is_ident_char(#[trigger] "use"@[k]) by {
        assert('a' <= "use"@[k] <= 'z');
    }
}

/// A node's name in its head, then a blank.
proof fn lemma_lex_name_part(src: Seq<char>, q: int, name: Option<Seq<char>>)
    requires
        name is Some ==> is_name(name->0) && keyword_of(name->0) is None,
        0 <= q,
        q + name_text(name).len() < src.len(),
        src.subrange(q, q + name_text(name).len()) == name_text(name),
        src[q + name_text(name).len()] == ' ' || src[q + name_text(name).len()] == '(',
    ensures
        lex_kinds(src, at(q)) == cons_all(name_kinds(name), lex_kinds(src, at(q + name_text(name).len()))),
{
    reveal_strlit(" ");
    let t = name_text(name);
    let x = lex_kinds(src, at(q + t.len()));
    match name {
        Some(nm) => {
            assert(t =~= " "@ + nm);
            lemma_at(src, q, t, 0);
            lemma_lex_blank(src, at(q), at(q + 1));
            lemma_sub(src, q, t, 1, 1 + nm.len() as int);
            assert(t.subrange(1, 1 + nm.len() as int) =~= nm);
            lemma_lex_word_at(src, q + 1, nm);
            lemma_cons_one(Kind::Ident(nm), x);
        },
        None => {
            lemma_cons_all_nil(x);
        },
    }
}

/// A text node's label in its head.
proof fn lemma_lex_label_part(src: Seq<char>, q: int, n: NodeV)
    requires
        node_ok(n),
        0 <= q,
        q + label_text(n).len() <= src.len(),
        src.subrange(q, q + label_text(n).len()) == label_text(n),
    ensures
        lex_kinds(src, at(q)) == cons_all(label_kinds(n), lex_kinds(src, at(q + label_text(n).len()))),
{
    reveal_strlit(" \"");
    reveal_strlit("\"");
    let t = label_text(n);
    let x = lex_kinds(src, at(q + t.len()));
    if n.kind == NodeKind::Text && n.label is Some {
        let l = n.label->0;
        assert(t =~= " \""@ + l + "\""@);
        lemma_at(src, q, t, 0);
        lemma_lex_blank(src, at(q), at(q + 1));
        lemma_at(src, q, t, 1);
        lemma_sub(src, q, t, 2, 2 + l.len() as int);
        assert(t.subrange(2, 2 + l.len() as int) =~= l);
        lemma_at(src, q, t, 2 + l.len() as int);
        lemma_lex_str_at(src, q + 1, l);
        lemma_cons_one(Kind::Str(l), x);
    } else {
        lemma_cons_all_nil(x);
    }
}

/// The head of a node, followed by a blank.
#[verifier::rlimit(60)]
#[verifier::spinoff_prover]
proof fn lemma_lex_head(src: Seq<char>, p: int, n: NodeV, ind: Seq<char>)
    requires
        node_ok(n),
        is_spaces(ind),
        0 <= p,
        p + node_head(n, ind).len() < src.len(),
        src.subrange(p, p + node_head(n, ind).len()) == node_head(n, ind),
        src[p + node_head(n, ind).len()] == ' ' || src[p + node_head(n, ind).len()] == '(',
    ensures
        lex_kinds(src, at(p)) == cons_all(head_kinds(n), lex_kinds(src, at(p + node_head(n, ind).len()))),
{
    let h = node_head(n, ind);
    let w = ind.len() as int;
    let kw = kind_word(n.kind);
    let kl = kw.len() as int;
    let lt = label_text(n);
    let nt = name_text(n.name);
    let ll = lt.len() as int;
    let nl = nt.len() as int;
    assert(h =~= ind + kw + lt + nt);
    lemma_kind_word(n.kind);
    lemma_sub(src, p, h, 0, w);
    assert(h.subrange(0, w) =~= ind);
    lemma_lex_ind(src, p, ind);
    lemma_sub(src, p, h, w, w + kl);
    assert(h.subrange(w, w + kl) =~= kw);
    lemma_sub(src, p, h, w + kl, w + kl + ll);
    assert(h.subrange(w + kl, w + kl + ll) =~= lt);
    lemma_sub(src, p, h, w + kl + ll, w + kl + ll + nl);
    assert(h.subrange(w + kl + ll, w + kl + ll + nl) =~= nt);
    lemma_lex_name_part(src, p + w + kl + ll, n.name);
    lemma_lex_label_part(src, p + w + kl, n);
    // the character after the word is a blank
    reveal_strlit(" ");
    reveal_strlit(" \"");
    if ll > 0 {
        lemma_at(src, p, h, w + kl);
        assert(h[w + kl] == lt[0]);
    } else if nl > 0 {
        lemma_at(src, p, h, w + kl);
        assert(h[w + kl] == nt[0]);
    }
    assert(src[p + w + kl] == ' ' || src[p + w + kl] == '(');
    lemma_lex_word_at(src, p + w, kw);
    let x = lex_kinds(src, at(p + h.len()));
    let lk = label_kinds(n);
    let nk = name_kinds(n.name);
    lemma_cons_all_app(lk, nk, x);
    lemma_cons_one(kind_token(n.kind), cons_all(lk + nk, x));
    lemma_cons_all_app(seq![kind_token(n.kind)], lk + nk, x);
    assert(seq![kind_token(n.kind)] + (lk + nk) =~= head_kinds(n));
}

proof fn lemma_inner_spaces(ind: Seq<char>)
    requires
        is_spaces(ind),
    ensures
        is_spaces(ind + "    "@),
        (ind + "    "@).len() == ind.len() + 4,
{
    lemma_four_spaces();
    let t = ind + "    "@;
    assert forall|k: int| 0 <= k < t.len() implies #[trigger] t[k] == ' ' by {
        if k < ind.len() {
            assert(t[k] == ind[k]);
        } else {
            assert(t[k] == "    "@[k - ind.len()]);
        }
    }
}

/// A text node written on one line reads as its tokens.
#[verifier::rlimit(60)]
#[verifier::spinoff_prover]
proof fn lemma_lex_inline(src: Seq<char>, p: int, n: NodeV, ind: Seq<char>)
    requires
        node_ok(n),
        is_inline(n),
        is_spaces(ind),
        0 <= p,
        p + fmt_node_spec(n, ind).len() <= src.len(),
        src.subrange(p, p + fmt_node_spec(n, ind).len()) == fmt_node_spec(n, ind),
    ensures
        lex_kinds(src, at(p)) == cons_all(node_kinds(n), lex_kinds(src, at(p + fmt_node_spec(n, ind).len()))),
{
    reveal_strlit(" }\n");
    reveal_strlit(" { ");
    let t = fmt_node_spec(n, ind);
    let h = node_head(n, ind);
    let hl = h.len() as int;
    let sa = strip_attrs(n.attrs);
    let pr = fmt_pairs(sa);
    let m = pr.len() as int;
    lemma_inline_pairs(n.attrs);
    assert(t =~= h + " { "@ + pr + " }\n"@);
    assert(t.len() == hl + 6 + m);
    lemma_sub(src, p, t, 0, hl);
    assert(t.subrange(0, hl) =~= h);
    lemma_at(src, p, t, hl);
    lemma_lex_head(src, p, n, ind);
    lemma_lex_blank(src, at(p + hl), at(p + hl + 1));
    lemma_at(src, p, t, hl + 1);
    lemma_lex_punct(src, p + hl + 1);
    lemma_at(src, p, t, hl + 2);
    lemma_lex_blank(src, at(p + hl + 2), at(p + hl + 3));
    lemma_sub(src, p, t, hl + 3, hl + 3 + m);
    assert(t.subrange(hl + 3, hl + 3 + m) =~= pr);
    lemma_at(src, p, t, hl + 3 + m);
    lemma_attrs_plain(n.attrs);
    lemma_lex_pairs(src, p + hl + 3, sa);
    lemma_lex_blank(src, at(p + hl + 3 + m), at(p + hl + 4 + m));
    lemma_at(src, p, t, hl + 4 + m);
    lemma_lex_punct(src, p + hl + 4 + m);
    lemma_at(src, p, t, hl + 5 + m);
    lemma_lex_blank(src, at(p + hl + 5 + m), at(p + hl + 6 + m));
    let x = lex_kinds(src, at(p + t.len()));
    let pk = pairs_kinds(sa);
    lemma_cons_one(Kind::RBrace, x);
    lemma_cons_all_app(pk, seq![Kind::RBrace], x);
    lemma_cons_one(Kind::LBrace, cons_all(pk + seq![Kind::RBrace], x));
    lemma_cons_all_app(seq![Kind::LBrace], pk + seq![Kind::RBrace], x);
    lemma_cons_all_app(head_kinds(n), seq![Kind::LBrace] + (pk + seq![Kind::RBrace]), x);
    assert(head_kinds(n) + (seq![Kind::LBrace] + (pk + seq![Kind::RBrace])) =~= node_kinds(n));
}

/// A node without attributes and children: its head, then `{}`.
#[verifier::rlimit(40)]
#[verifier::spinoff_prover]
proof fn lemma_lex_bare(src: Seq<char>, p: int, n: NodeV, ind: Seq<char>)
    requires
        node_ok(n),
        n.kind != NodeKind::Use,
        !is_inline(n),
        n.attrs.len() == 0,
        n.children.len() == 0,
        is_spaces(ind),
        0 <= p,
        p + fmt_node_spec(n, ind).len() <= src.len(),
        src.subrange(p, p + fmt_node_spec(n, ind).len()) == fmt_node_spec(n, ind),
    ensures
        lex_kinds(src, at(p)) == cons_all(node_kinds(n), lex_kinds(src, at(p + fmt_node_spec(n, ind).len()))),
{
    reveal_strlit(" {}\n");
    let t = fmt_node_spec(n, ind);
    let h = node_head(n, ind);
    let hl = h.len() as int;
    assert(t =~= h + " {}\n"@);
    lemma_sub(src, p, t, 0, hl);
    assert(t.subrange(0, hl) =~= h);
    lemma_at(src, p, t, hl);
    lemma_lex_head(src, p, n, ind);
    lemma_lex_blank(src, at(p + hl), at(p + hl + 1));
    lemma_at(src, p, t, hl + 1);
    lemma_lex_punct(src, p + hl + 1);
    lemma_at(src, p, t, hl + 2);
    lemma_lex_punct(src, p + hl + 2);
    lemma_at(src, p, t, hl + 3);
    lemma_lex_blank(src, at(p + hl + 3), at(p + hl + 4));
    let x = lex_kinds(src, at(p + t.len()));
    lemma_cons_one(Kind::RBrace, x);
    lemma_cons_one(Kind::LBrace, cons_all(seq![Kind::RBrace], x));
    lemma_cons_all_app(seq![Kind::LBrace], seq![Kind::RBrace], x);
    lemma_cons_all_app(head_kinds(n), seq![Kind::LBrace] + seq![Kind::RBrace], x);
    assert(lines_kinds(n.attrs) =~= Seq::<Kind>::empty());
    assert(nodes_kinds(n.children) =~= Seq::<Kind>::empty());
    assert(head_kinds(n) + (seq![Kind::LBrace] + seq![Kind::RBrace]) =~= node_kinds(n));
}

/// The head of a node and ` {` with its line break.
#[verifier::rlimit(40)]
#[verifier::spinoff_prover]
proof fn lemma_lex_open(src: Seq<char>, p: int, n: NodeV, ind: Seq<char>)
    requires
        node_ok(n),
        is_spaces(ind),
        0 <= p,
        p + node_head(n, ind).len() + 3 <= src.len(),
        src.subrange(p, p + node_head(n, ind).len() + 3) == node_head(n, ind) + " {\n"@,
    ensures
        lex_kinds(src, at(p)) == cons_all(
            head_kinds(n) + seq![Kind::LBrace],
            lex_kinds(src, at(p + node_head(n, ind).len() + 3)),
        ),
{
    reveal_strlit(" {\n");
    let h = node_head(n, ind);
    let hl = h.len() as int;
    let t = h + " {\n"@;
    lemma_sub(src, p, t, 0, hl);
    assert(t.subrange(0, hl) =~= h);
    lemma_at(src, p, t, hl);
    lemma_lex_head(src, p, n, ind);
    lemma_lex_blank(src, at(p + hl), at(p + hl + 1));
    lemma_at(src, p, t, hl + 1);
    lemma_lex_punct(src, p + hl + 1);
    lemma_at(src, p, t, hl + 2);
    lemma_lex_blank(src, at(p + hl + 2), at(p + hl + 3));
    let x = lex_kinds(src, at(p + hl + 3));
    lemma_cons_one(Kind::LBrace, x);
    lemma_cons_all_app(head_kinds(n), seq![Kind::LBrace], x);
}

/// The indentation, `}` and line break that close a node.
#[verifier::rlimit(40)]
#[verifier::spinoff_prover]
proof fn lemma_lex_close(src: Seq<char>, p: int, ind: Seq<char>)
    requires
        is_spaces(ind),
        0 <= p,
        p + ind.len() + 2 <= src.len(),
        src.subrange(p, p + ind.len() + 2) == ind + "}\n"@,
    ensures
        lex_kinds(src, at(p)) == cons_all(seq![Kind::RBrace], lex_kinds(src, at(p + ind.len() + 2))),
{
    reveal_strlit("}\n");
    let t = ind + "}\n"@;
    let w = ind.len() as int;
    lemma_sub(src, p, t, 0, w);
    assert(t.subrange(0, w) =~= ind);
    lemma_lex_ind(src, p, ind);
    lemma_at(src, p, t, w);
    lemma_lex_punct(src, p + w);
    lemma_at(src, p, t, w + 1);
    lemma_lex_blank(src, at(p + w + 1), at(p + w + 2));
    lemma_cons_one(Kind::RBrace, lex_kinds(src, at(p + w + 2)));
}

proof fn lemma_arg_key_positional(i: nat)
    ensures
        is_positional(arg_key(i)),
{
    reveal_strlit("__arg_");
    assert(arg_key(i).subrange(0, 6) =~= "__arg_"@);
}

#[verifier::rlimit(40)]
#[verifier::spinoff_prover]
proof fn lemma_use_args_front(a: Seq<AttrV>)
    requires
        a.len() >= 1,
    ensures
        use_args_text(a) == use_arg_text(a[0]) + if a.len() > 1 {
            ", "@ + use_args_text(a.subrange(1, a.len() as int))
        } else {
            Seq::empty()
        },
    decreases a.len(),
{
    let f = a.subrange(1, a.len() as int);
    if a.len() == 1 {
        assert(a.drop_last().len() == 0);
        assert(use_args_text(a.drop_last()) =~= Seq::<char>::empty());
        assert(a.last() == a[0]);
        assert(use_args_text(a) =~= use_arg_text(a[0]));
    } else if a.len() == 2 {
        let d = a.drop_last();
        lemma_use_args_front(d);
        lemma_use_args_front(f);
        assert(d[0] == a[0]);
        assert(f[0] == a.last());
        assert(use_args_text(d) =~= use_arg_text(a[0]));
        assert(use_args_text(f) =~= use_arg_text(a[1]));
        assert(use_args_text(a) =~= use_arg_text(a[0]) + ", "@ + use_args_text(f));
    } else {
        let d = a.drop_last();
        lemma_use_args_front(d);
        assert(d.subrange(1, d.len() as int) =~= f.drop_last());
        assert(f.last() == a.last());
        assert(d[0] == a[0]);
        assert(use_args_text(f) == use_args_text(f.drop_last()) + ", "@ + use_arg_text(f.last()));
        assert(use_args_text(a) =~= use_arg_text(a[0]) + ", "@ + use_args_text(f));
    }
}

/// The rest of the arguments of a `use` read back from the `idx`th
/// positional one on.
proof fn lemma_use_attrs_rest(a: Seq<AttrV>, idx: nat)
    requires
        use_attrs_ok(a, idx),
    ensures
        forall|i: int| 0 <= i < a.len() ==> is_plain(#[trigger] a[i].value),
        forall|i: int| 0 <= i < a.len() ==> !is_positional(#[trigger] a[i].key) ==> is_name(a[i].key) && keyword_of(a[i].key) is None,
    decreases a.len(),
{
    if a.len() > 0 {
        let rest = a.subrange(1, a.len() as int);
        lemma_use_attrs_rest(rest, if is_positional(a[0].key) { idx + 1 } else { idx });
        assert forall|i: int| 0 <= i < a.len() implies is_plain(#[trigger] a[i].value) by {
            if i > 0 {
                assert(a[i] == rest[i - 1]);
            }
        }
        assert forall|i: int| 0 <= i < a.len() && !is_positional(#[trigger] a[i].key) implies is_name(a[i].key)
            && keyword_of(a[i].key) is None by {
            if i > 0 {
                assert(a[i] == rest[i - 1]);
            }
        }
    }
}

/// One argument of a `use` followed by `,` or `)`.
#[verifier::rlimit(40)]
#[verifier::spinoff_prover]
proof fn lemma_lex_arg(src: Seq<char>, p: int, a: AttrV)
    requires
        is_plain(a.value),
        !is_positional(a.key) ==> is_name(a.key) && keyword_of(a.key) is None,
        0 <= p,
        p + use_arg_text(a).len() < src.len(),
        src.subrange(p, p + use_arg_text(a).len()) == use_arg_text(a),
        src[p + use_arg_text(a).len()] == ',' || src[p + use_arg_text(a).len()] == ')',
    ensures
        lex_kinds(src, at(p)) == cons_all(arg_kinds(a), lex_kinds(src, at(p + use_arg_text(a).len()))),
{
    reveal_strlit(" = ");
    let t = use_arg_text(a);
    let v = fmt_expr_spec(a.value);
    let x = lex_kinds(src, at(p + t.len()));
    if is_positional(a.key) {
        lemma_lex_expr(src, p, a.value);
    } else {
        let k = a.key.len() as int;
        assert(t =~= a.key + " = "@ + v);
        lemma_sub(src, p, t, 0, k);
        assert(t.subrange(0, k) =~= a.key);
        lemma_at(src, p, t, k);
        lemma_at(src, p, t, k + 1);
        lemma_at(src, p, t, k + 2);
        lemma_lex_pair_head(src, p, a.key);
        lemma_sub(src, p, t, k + 3, t.len() as int);
        assert(t.subrange(k + 3, t.len() as int) =~= v);
        lemma_lex_expr(src, p + k + 3, a.value);
        lemma_cons_all_app(seq![Kind::Ident(a.key), Kind::Equals], expr_kinds(a.value), x);
    }
}

/// The arguments of a `use`, then `)`.
#[verifier::rlimit(40)]
#[verifier::spinoff_prover]
proof fn lemma_lex_args(src: Seq<char>, p: int, a: Seq<AttrV>)
    requires
        forall|i: int| 0 <= i < a.len() ==> is_plain(#[trigger] a[i].value),
        forall|i: int| 0 <= i < a.len() ==> !is_positional(#[trigger] a[i].key) ==> is_name(a[i].key) && keyword_of(a[i].key) is None,
        0 <= p,
        p + use_args_text(a).len() < src.len(),
        src.subrange(p, p + use_args_text(a).len()) == use_args_text(a),
        src[p + use_args_text(a).len()] == ')',
    ensures
        lex_kinds(src, at(p)) == cons_all(args_kinds(a), lex_kinds(src, at(p + use_args_text(a).len()))),
    decreases a.len(),
{
    if a.len() == 0 {
        lemma_cons_all_nil(lex_kinds(src, at(p)));
    } else {
        lemma_use_args_front(a);
        reveal_strlit(", ");
        let all = use_args_text(a);
        let t0 = use_arg_text(a[0]);
        let n0 = t0.len() as int;
        lemma_sub(src, p, all, 0, n0);
        assert(all.subrange(0, n0) =~= t0);
        let x = lex_kinds(src, at(p + all.len()));
        if a.len() == 1 {
            assert(all =~= t0);
            lemma_lex_arg(src, p, a[0]);
            assert(args_kinds(a) =~= arg_kinds(a[0]));
        } else {
            let rest = a.subrange(1, a.len() as int);
            let fr = use_args_text(rest);
            assert(all =~= t0 + ", "@ + fr);
            lemma_at(src, p, all, n0);
            lemma_at(src, p, all, n0 + 1);
            lemma_lex_arg(src, p, a[0]);
            lemma_lex_punct(src, p + n0);
            lemma_lex_blank(src, at(p + n0 + 1), at(p + n0 + 2));
            lemma_sub(src, p, all, n0 + 2, all.len() as int);
            assert(all.subrange(n0 + 2, all.len() as int) =~= fr);
            assert forall|i: int| 0 <= i < rest.len() implies is_plain(#[trigger] rest[i].value) by {
                assert(rest[i] == a[i + 1]);
            }
            assert forall|i: int| 0 <= i < rest.len() && !is_positional(#[trigger] rest[i].key) implies is_name(
                rest[i].key,
            ) && keyword_of(rest[i].key) is None by {
                assert(rest[i] == a[i + 1]);
            }
            lemma_lex_args(src, p + n0 + 2, rest);
            let tail = seq![Kind::Comma] + args_kinds(rest);
            lemma_cons_one(Kind::Comma, cons_all(args_kinds(rest), x));
            lemma_cons_all_app(seq![Kind::Comma], args_kinds(rest), x);
            lemma_cons_all_app(arg_kinds(a[0]), tail, x);
            assert(args_kinds(a) =~= arg_kinds(a[0]) + tail);
        }
    }
}

/// A `use` as the formatter writes it reads as its tokens.
#[verifier::rlimit(60)]
#[verifier::spinoff_prover]
proof fn lemma_lex_use(src: Seq<char>, p: int, n: NodeV, ind: Seq<char>)
    requires
        node_ok(n),
        n.kind == NodeKind::Use,
        is_spaces(ind),
        0 <= p,
        p + fmt_node_spec(n, ind).len() <= src.len(),
        src.subrange(p, p + fmt_node_spec(n, ind).len()) == fmt_node_spec(n, ind),
    ensures
        lex_kinds(src, at(p)) == cons_all(node_kinds(n), lex_kinds(src, at(p + fmt_node_spec(n, ind).len()))),
{
    reveal_strlit("(");
    reveal_strlit(")\n");
    let t = fmt_node_spec(n, ind);
    let h = node_head(n, ind);
    let hl = h.len() as int;
    let at_ = use_args_text(n.attrs);
    let m = at_.len() as int;
    assert(t =~= h + "("@ + at_ + ")\n"@);
    lemma_sub(src, p, t, 0, hl);
    assert(t.subrange(0, hl) =~= h);
    lemma_at(src, p, t, hl);
    lemma_lex_head(src, p, n, ind);
    lemma_lex_punct(src, p + hl);
    lemma_sub(src, p, t, hl + 1, hl + 1 + m);
    assert(t.subrange(hl + 1, hl + 1 + m) =~= at_);
    lemma_at(src, p, t, hl + 1 + m);
    lemma_use_attrs_rest(n.attrs, 0);
    lemma_lex_args(src, p + hl + 1, n.attrs);
    lemma_lex_punct(src, p + hl + 1 + m);
    lemma_at(src, p, t, hl + 2 + m);
    lemma_lex_blank(src, at(p + hl + 2 + m), at(p + hl + 3 + m));
    let x = lex_kinds(src, at(p + t.len()));
    let ak = args_kinds(n.attrs);
    lemma_cons_one(Kind::RParen, x);
    lemma_cons_all_app(ak, seq![Kind::RParen], x);
    lemma_cons_one(Kind::LParen, cons_all(ak + seq![Kind::RParen], x));
    lemma_cons_all_app(seq![Kind::LParen], ak + seq![Kind::RParen], x);
    lemma_cons_all_app(head_kinds(n), seq![Kind::LParen] + (ak + seq![Kind::RParen]), x);
    assert(head_kinds(n) + (seq![Kind::LParen] + (ak + seq![Kind::RParen])) =~= node_kinds(n));
}

/// A node as the formatter writes it reads as its tokens.
#[verifier::rlimit(60)]
#[verifier::spinoff_prover]
proof fn lemma_lex_node(src: Seq<char>, p: int, n: NodeV, ind: Seq<char>)
    requires
        node_ok(n),
        is_spaces(ind),
        0 <= p,
        p + fmt_node_spec(n, ind).len() <= src.len(),
        src.subrange(p, p + fmt_node_spec(n, ind).len()) == fmt_node_spec(n, ind),
    ensures
        lex_kinds(src, at(p)) == cons_all(node_kinds(n), lex_kinds(src, at(p + fmt_node_spec(n, ind).len()))),
    decreases n, 1int,
{
    if n.kind == NodeKind::Use {
        lemma_lex_use(src, p, n, ind);
    } else if is_inline(n) {
        lemma_lex_inline(src, p, n, ind);
    } else if n.attrs.len() == 0 && n.children.len() == 0 {
        lemma_lex_bare(src, p, n, ind);
    } else {
        reveal_strlit(" {\n");
        reveal_strlit("}\n");
        let t = fmt_node_spec(n, ind);
        let h = node_head(n, ind);
        let o = h + " {\n"@;
        let ol = o.len() as int;
        let inner = ind + "    "@;
        lemma_inner_spaces(ind);
        let al = attr_lines(n.attrs, inner);
        let cl = fmt_nodes_spec(n.children, inner);
        let a = al.len() as int;
        let c = cl.len() as int;
        let e = ind + "}\n"@;
        assert(t =~= o + al + cl + e);
        lemma_sub(src, p, t, 0, ol);
        assert(t.subrange(0, ol) =~= o);
        lemma_lex_open(src, p, n, ind);
        lemma_sub(src, p, t, ol, ol + a);
        assert(t.subrange(ol, ol + a) =~= al);
        lemma_attrs_plain(n.attrs);
        lemma_lex_lines(src, p + ol, n.attrs, inner);
        lemma_sub(src, p, t, ol + a, ol + a + c);
        assert(t.subrange(ol + a, ol + a + c) =~= cl);
        assert(decreases_to!(n => n.children));
        lemma_lex_nodes(src, p + ol + a, n.children, inner);
        lemma_sub(src, p, t, ol + a + c, t.len() as int);
        assert(t.subrange(ol + a + c, t.len() as int) =~= e);
        lemma_lex_close(src, p + ol + a + c, ind);
        let x = lex_kinds(src, at(p + t.len()));
        let lk = lines_kinds(n.attrs);
        let nk = nodes_kinds(n.children);
        let hk = head_kinds(n) + seq![Kind::LBrace];
        lemma_cons_all_app(nk, seq![Kind::RBrace], x);
        lemma_cons_all_app(lk, nk + seq![Kind::RBrace], x);
        lemma_cons_all_app(hk, lk + (nk + seq![Kind::RBrace]), x);
        assert(hk + (lk + (nk + seq![Kind::RBrace])) =~= node_kinds(n));
    }
}

/// Nodes as the formatter writes them read as their tokens.
#[verifier::rlimit(40)]
#[verifier::spinoff_prover]
proof fn lemma_lex_nodes(src: Seq<char>, p: int, s: Seq<NodeV>, ind: Seq<char>)
    requires
        nodes_ok(s),
        is_spaces(ind),
        0 <= p,
        p + fmt_nodes_spec(s, ind).len() <= src.len(),
        src.subrange(p, p + fmt_nodes_spec(s, ind).len()) == fmt_nodes_spec(s, ind),
    ensures
        lex_kinds(src, at(p)) == cons_all(nodes_kinds(s), lex_kinds(src, at(p + fmt_nodes_spec(s, ind).len()))),
    decreases s, 0int,
{
    if s.len() == 0 {
        lemma_cons_all_nil(lex_kinds(src, at(p)));
    } else {
        lemma_nodes_front(s, ind);
        let rest = s.subrange(1, s.len() as int);
        let all = fmt_nodes_spec(s, ind);
        let t0 = fmt_node_spec(s[0], ind);
        lemma_sub(src, p, all, 0, t0.len() as int);
        assert(all.subrange(0, t0.len() as int) =~= t0);
        assert(decreases_to!(s => s[0]));
        lemma_lex_node(src, p, s[0], ind);
        lemma_sub(src, p, all, t0.len() as int, all.len() as int);
        assert(all.subrange(t0.len() as int, all.len() as int) =~= fmt_nodes_spec(rest, ind));
        lemma_lex_nodes(src, p + t0.len(), rest, ind);
        lemma_cons_all_app(node_kinds(s[0]), nodes_kinds(rest), lex_kinds(src, at(p + all.len())));
    }
}

// -- Reading nodes back from their tokens --

/// What a node says, without the places in the source where it stands.
pub ghost struct NodeSk {
    pub kind: NodeKind,
    pub name: Option<Seq<char>>,
    pub label: Option<Seq<char>>,
    pub attrs: Seq<(Seq<char>, Expr)>,
    pub children: Seq<NodeSk>,
}

pub open spec fn node_sk(n: NodeV) -> NodeSk
    decreases n, 1int,
{
    NodeSk {
        kind: n.kind,
        name: n.name,
        label: n.label,
        attrs: strip_attrs(n.attrs),
        children: {
            proof {
                assert(decreases_to!(n => n.children));
            }
            nodes_sk(n.children)
        },
    }
}

pub open spec fn nodes_sk(s: Seq<NodeV>) -> Seq<NodeSk>
    decreases s, 0int,
{
    if s.len() == 0 {
        Seq::empty()
    } else {
        proof {
            assert(decreases_to!(s => s[s.len() - 1]));
        }
        nodes_sk(s.drop_last()).push(node_sk(s.last()))
    }
}

proof fn lemma_nodes_sk_len(s: Seq<NodeV>)
    ensures
        nodes_sk(s).len() == s.len(),
    decreases s.len(),
{
    if s.len() > 0 {
        lemma_nodes_sk_len(s.drop_last());
    }
}

proof fn lemma_nodes_sk_front(s: Seq<NodeV>)
    requires
        s.len() >= 1,
    ensures
        nodes_sk(s) == seq![node_sk(s[0])] + nodes_sk(s.subrange(1, s.len() as int)),
    decreases s.len(),
{
    let f = s.subrange(1, s.len() as int);
    if s.len() == 1 {
        assert(s.drop_last().len() == 0);
        assert(f.len() == 0);
        assert(nodes_sk(f) =~= Seq::<NodeSk>::empty());
        assert(nodes_sk(s.drop_last()) =~= Seq::<NodeSk>::empty());
        assert(s.last() == s[0]);
        assert(nodes_sk(s) == Seq::<NodeSk>::empty().push(node_sk(s[0])));
        assert(nodes_sk(s) =~= seq![node_sk(s[0])] + nodes_sk(f));
    } else {
        let d = s.drop_last();
        lemma_nodes_sk_front(d);
        assert(d.subrange(1, d.len() as int) =~= f.drop_last());
        assert(f.last() == s.last());
        assert(d[0] == s[0]);
        let a = nodes_sk(f.drop_last());
        assert(nodes_sk(d) == seq![node_sk(s[0])] + a);
        assert(nodes_sk(f) == a.push(node_sk(s.last())));
        assert(nodes_sk(s) == (seq![node_sk(s[0])] + a).push(node_sk(s.last())));
        assert(nodes_sk(s) =~= seq![node_sk(s[0])] + nodes_sk(f));
    }
}

proof fn lemma_nodes_sk_push(s: Seq<NodeV>, n: NodeV)
    ensures
        nodes_sk(s.push(n)) == nodes_sk(s).push(node_sk(n)),
{
    assert(s.push(n).drop_last() =~= s);
}

proof fn lemma_node_start(n: NodeV)
    requires
        node_ok(n),
    ensures
        node_kinds(n).len() >= 3,
        node_kinds(n)[0] == kind_token(n.kind),
        is_node_start(kind_token(n.kind)),
        node_kind_of(kind_token(n.kind)) == n.kind,
        n.kind != NodeKind::Use ==> node_kinds(n).last() == Kind::RBrace,
{
}

/// `key = value` pairs, then `}`, read back as the attributes of a node
/// with no children.
#[verifier::rlimit(40)]
#[verifier::spinoff_prover]
proof fn lemma_parse_inline_body(toks: Seq<TokenV>, q: int, s: Seq<(Seq<char>, Expr)>, acc: Seq<AttrV>)
    requires
        plain_pairs(s),
        0 <= q,
        q + pairs_kinds(s).len() < toks.len(),
        kinds(toks).subrange(q, q + pairs_kinds(s).len()) == pairs_kinds(s),
        toks[q + pairs_kinds(s).len()].kind == Kind::RBrace,
    ensures
        match body_spec(toks, q, acc, Seq::empty()) {
            Ok((ra, rc, r)) => r == q + pairs_kinds(s).len() && strip_attrs(ra) == strip_attrs(acc) + s && rc
                == Seq::<NodeV>::empty(),
            Err(_) => false,
        },
    decreases s, 0int,
{
    if s.len() == 0 {
        assert(pairs_kinds(s).len() == 0);
        assert(toks[q].kind == Kind::RBrace);
        assert(strip_attrs(acc) + s =~= strip_attrs(acc));
    } else {
        let k = s[0].0;
        let v = s[0].1;
        let kv = expr_kinds(v);
        let n0 = kv.len() as int;
        assert(decreases_to!(s => s[0]));
        assert(decreases_to!(s[0] => v));
        lemma_expr_kinds_start(v);
        let pk = pairs_kinds(s);
        let head = seq![Kind::Ident(k), Kind::Equals];
        let a = AttrV { key: k, value: v, span: toks[q].span };
        if s.len() == 1 {
            assert(pk =~= head + kv);
            lemma_kinds_in(toks, q, pk, 0);
            lemma_kinds_in(toks, q, pk, 1);
            lemma_kinds_split(toks, q, head, kv);
            lemma_parse_expr(toks, q + 2, v);
            assert(skip_comma(toks, q + 2 + n0) == q + 2 + n0);
            assert(attr_spec(toks, q) == Ok::<(AttrV, int), crate::error::ErrorView>((a, q + 2 + n0)));
            assert(body_spec(toks, q + 2 + n0, acc.push(a), Seq::empty()) == Ok::<
                (Seq<AttrV>, Seq<NodeV>, int),
                crate::error::ErrorView,
            >((acc.push(a), Seq::empty(), q + 2 + n0)));
            assert(strip_attrs(acc.push(a)) =~= strip_attrs(acc) + s);
        } else {
            let rest = s.subrange(1, s.len() as int);
            let tail = seq![Kind::Comma] + pairs_kinds(rest);
            assert(pk =~= head + (kv + tail));
            lemma_kinds_in(toks, q, pk, 0);
            lemma_kinds_in(toks, q, pk, 1);
            lemma_kinds_split(toks, q, head, kv + tail);
            lemma_kinds_split(toks, q + 2, kv, tail);
            lemma_kinds_in(toks, q + 2 + n0, tail, 0);
            lemma_parse_expr(toks, q + 2, v);
            lemma_kinds_split(toks, q + 2 + n0, seq![Kind::Comma], pairs_kinds(rest));
            assert(attr_spec(toks, q) == Ok::<(AttrV, int), crate::error::ErrorView>((a, q + 2 + n0)));
            lemma_parse_inline_body(toks, q + 3 + n0, rest, acc.push(a));
            assert(skip_comma(toks, q + 2 + n0) == q + 3 + n0);
            assert(pairs_kinds(s).len() == n0 + 3 + pairs_kinds(rest).len());
            assert(strip_attrs(acc.push(a)) + rest =~= strip_attrs(acc) + s);
        }
    }
}

/// A key of a node attribute reads as a name.
proof fn lemma_attr_key(a: AttrV)
    requires
        attr_ok(a),
    ensures
        word_kind(a.key) == Kind::Ident(a.key),
        line_kinds(a) == seq![Kind::Ident(a.key), Kind::Equals] + expr_kinds(a.value),
{
}

/// A plain value whose first token is a name is a name alone or a call.
proof fn lemma_ident_start(v: Expr)
    requires
        is_plain(v),
        expr_kinds(v)[0] is Ident,
    ensures
        expr_kinds(v).len() == 1 || expr_kinds(v)[1] == Kind::LParen,
{
}

/// The tokens of the arguments of a `use`, then `)`, read back as the same
/// arguments, with the label that the arguments give.
#[verifier::rlimit(60)]
#[verifier::spinoff_prover]
proof fn lemma_parse_use_args(
    toks: Seq<TokenV>,
    q: int,
    a: Seq<AttrV>,
    acc: Seq<AttrV>,
    label: Option<Seq<char>>,
    idx: nat,
    span: crate::token::Span,
)
    requires
        use_attrs_ok(a, idx),
        0 <= q,
        q + args_kinds(a).len() < toks.len(),
        kinds(toks).subrange(q, q + args_kinds(a).len()) == args_kinds(a),
        toks[q + args_kinds(a).len()].kind == Kind::RParen,
    ensures
        match use_args_spec(toks, q, acc, label, idx, span) {
            Ok((ra, rl, r)) => r == q + args_kinds(a).len() && strip_attrs(ra) == strip_attrs(acc) + strip_attrs(a)
                && rl == use_label(a, label),
            Err(_) => false,
        },
    decreases a.len(),
{
    if a.len() == 0 {
        assert(strip_attrs(acc) + strip_attrs(a) =~= strip_attrs(acc));
    } else {
        let a0 = a[0];
        let rest = a.subrange(1, a.len() as int);
        let v = a0.value;
        let ek = expr_kinds(v);
        let n0 = ek.len() as int;
        let ak = arg_kinds(a0);
        let w = ak.len() as int;
        let all = args_kinds(a);
        let tail: Seq<Kind> = if rest.len() > 0 { seq![Kind::Comma] + args_kinds(rest) } else { Seq::empty() };
        assert(all =~= ak + tail);
        assert(arg_ok(a0, idx));
        lemma_expr_kinds_start(v);
        lemma_kinds_split(toks, q, ak, tail);
        if rest.len() > 0 {
            lemma_kinds_in(toks, q + w, tail, 0);
            lemma_kinds_split(toks, q + w, seq![Kind::Comma], args_kinds(rest));
        } else {
            assert(toks[q + w].kind == Kind::RParen);
        }
        let r2 = if rest.len() > 0 { q + w + 1 } else { q + w };
        assert(skip_comma(toks, q + w) == r2);
        let next_idx: nat = if is_positional(a0.key) { idx + 1 } else { idx };
        assert(use_attrs_ok(rest, next_idx));
        if is_positional(a0.key) {
            assert(ak == ek);
            lemma_kinds_in(toks, q, ak, 0);
            if ek[0] is Ident {
                lemma_ident_start(v);
                if n0 > 1 {
                    lemma_kinds_in(toks, q, ak, 1);
                }
            }
            assert(!(toks[q].kind is Ident && crate::parser::grammar::is(toks, q + 1, Kind::Equals)));
            lemma_parse_expr(toks, q, v);
            let at_ = AttrV { key: arg_key(idx), value: v, span };
            let l2 = if !(toks[q].kind is Ident) && label is None && v is Str { Some(v->Str_0) } else { label };
            assert(l2 == (if is_positional(a0.key) && label is None && a0.value is Str {
                Some(a0.value->Str_0)
            } else {
                label
            }));
            lemma_parse_use_args(toks, r2, rest, acc.push(at_), l2, idx + 1, span);
            assert(strip_attrs(acc.push(at_)) + strip_attrs(rest) =~= strip_attrs(acc) + strip_attrs(a));
        } else {
            let hd = seq![Kind::Ident(a0.key), Kind::Equals];
            assert(ak == hd + ek);
            lemma_kinds_in(toks, q, ak, 0);
            lemma_kinds_in(toks, q, ak, 1);
            lemma_kinds_split(toks, q, hd, ek);
            lemma_parse_expr(toks, q + 2, v);
            let at_ = AttrV { key: a0.key, value: v, span };
            lemma_parse_use_args(toks, r2, rest, acc.push(at_), label, idx, span);
            assert(strip_attrs(acc.push(at_)) + strip_attrs(rest) =~= strip_attrs(acc) + strip_attrs(a));
        }
    }
}

/// The tokens of a `use` read back as a `use` that says the same.
#[verifier::rlimit(60)]
#[verifier::spinoff_prover]
proof fn lemma_parse_use(toks: Seq<TokenV>, q: int, n: NodeV)
    requires
        node_ok(n),
        n.kind == NodeKind::Use,
        0 <= q,
        q + node_kinds(n).len() <= toks.len(),
        kinds(toks).subrange(q, q + node_kinds(n).len()) == node_kinds(n),
    ensures
        match node_spec(toks, q) {
            Ok((m, r)) => r == q + node_kinds(n).len() && node_sk(m) == node_sk(n),
            Err(_) => false,
        },
{
    let nm = n.name->0;
    let ak = args_kinds(n.attrs);
    let al = ak.len() as int;
    let nk = node_kinds(n);
    let hd = seq![Kind::Use, Kind::Ident(nm), Kind::LParen];
    assert(head_kinds(n) =~= seq![Kind::Use, Kind::Ident(nm)]);
    assert(nk =~= hd + ak + seq![Kind::RParen]);
    lemma_kinds_in(toks, q, nk, 0);
    lemma_kinds_in(toks, q, nk, 1);
    lemma_kinds_in(toks, q, nk, 2);
    lemma_kinds_in(toks, q, nk, 3 + al);
    lemma_kinds_split(toks, q, hd + ak, seq![Kind::RParen]);
    lemma_kinds_split(toks, q, hd, ak);
    let span = toks[q].span;
    lemma_parse_use_args(toks, q + 3, n.attrs, Seq::empty(), None, 0, span);
    let (ra, rl, r) = use_args_spec(toks, q + 3, Seq::empty(), None, 0, span)->Ok_0;
    assert(strip_attrs(Seq::<AttrV>::empty()) + strip_attrs(n.attrs) =~= strip_attrs(n.attrs));
    let m = NodeV { kind: NodeKind::Use, name: Some(nm), label: rl, attrs: ra, children: Seq::empty(), span };
    assert(use_spec(toks, q + 1, span) == Ok::<(NodeV, int), crate::error::ErrorView>((m, r + 1)));
    assert(node_spec(toks, q) == Ok::<(NodeV, int), crate::error::ErrorView>((m, q + nk.len())));
    assert(nodes_sk(Seq::<NodeV>::empty()) =~= nodes_sk(n.children));
    assert(node_sk(m) == node_sk(n));
}

/// The tokens of a node read back as a node that says the same.
#[verifier::rlimit(60)]
#[verifier::spinoff_prover]
proof fn lemma_parse_node(toks: Seq<TokenV>, q: int, n: NodeV)
    requires
        node_ok(n),
        0 <= q,
        q + node_kinds(n).len() <= toks.len(),
        kinds(toks).subrange(q, q + node_kinds(n).len()) == node_kinds(n),
    ensures
        match node_spec(toks, q) {
            Ok((m, r)) => r == q + node_kinds(n).len() && node_sk(m) == node_sk(n),
            Err(_) => false,
        },
    decreases n, 2int, 0int,
{
    let nk = node_kinds(n);
    let len = nk.len() as int;
    lemma_node_start(n);
    lemma_kinds_in(toks, q, nk, 0);
    lemma_kinds_in(toks, q, nk, 1);
    lemma_kinds_in(toks, q, nk, 2);
    if len > 3 {
        lemma_kinds_in(toks, q, nk, 3);
    }
    lemma_kinds_in(toks, q, nk, len - 1);
    if n.kind == NodeKind::Use {
        lemma_parse_use(toks, q, n);
    } else if is_inline(n) {
        let l = n.label->0;
        let sa = strip_attrs(n.attrs);
        let pk = pairs_kinds(sa);
        let hd = head_kinds(n) + seq![Kind::LBrace];
        let h = hd.len() as int;
        assert(nk =~= hd + pk + seq![Kind::RBrace]);
        lemma_kinds_split(toks, q, hd + pk, seq![Kind::RBrace]);
        lemma_kinds_split(toks, q, hd, pk);
        lemma_attrs_plain(n.attrs);
        lemma_parse_inline_body(toks, q + h, sa, Seq::empty());
        let (ra, rc, r) = body_spec(toks, q + h, Seq::empty(), Seq::empty())->Ok_0;
        assert(strip_attrs(Seq::<AttrV>::empty()) + sa =~= sa);
        let m = NodeV { kind: NodeKind::Text, name: n.name, label: Some(l), attrs: ra, children: rc, span: toks[q].span };
        assert(node_spec(toks, q) == Ok::<(NodeV, int), crate::error::ErrorView>((m, q + len)));
        assert(nodes_sk(rc) =~= nodes_sk(n.children));
        assert(node_sk(m) == node_sk(n));
    } else {
        let hk = head_kinds(n);
        let h = hk.len() as int;
        let lk = lines_kinds(n.attrs);
        let ck = nodes_kinds(n.children);
        assert(nk =~= hk + seq![Kind::LBrace] + (lk + ck) + seq![Kind::RBrace]);
        lemma_kinds_split(toks, q, hk + seq![Kind::LBrace] + (lk + ck), seq![Kind::RBrace]);
        lemma_kinds_split(toks, q, hk + seq![Kind::LBrace], lk + ck);
        assert(decreases_to!(n => n.children));
        lemma_parse_body(toks, q + h + 1, n.attrs, Seq::empty(), Seq::empty(), n.children);
        let (ra, rc, r) = body_spec(toks, q + h + 1, Seq::empty(), Seq::empty())->Ok_0;
        let m = NodeV { kind: n.kind, name: n.name, label: n.label, attrs: ra, children: rc, span: toks[q].span };
        assert(node_spec(toks, q) == Ok::<(NodeV, int), crate::error::ErrorView>((m, q + len)));
        assert(strip_attrs(Seq::<AttrV>::empty()) + strip_attrs(n.attrs) =~= strip_attrs(n.attrs));
        assert(nodes_sk(Seq::<NodeV>::empty()) + nodes_sk(n.children) =~= nodes_sk(n.children));
        assert(node_sk(m) == node_sk(n));
    }
}

/// Attribute lines, then nodes, then `}`, read back as a node's body.
#[verifier::rlimit(40)]
#[verifier::spinoff_prover]
proof fn lemma_parse_body(
    toks: Seq<TokenV>,
    q: int,
    a: Seq<AttrV>,
    acc_a: Seq<AttrV>,
    acc_c: Seq<NodeV>,
    cs: Seq<NodeV>,
)
    requires
        forall|i: int| 0 <= i < a.len() ==> attr_ok(#[trigger] a[i]),
        nodes_ok(cs),
        0 <= q,
        q + lines_kinds(a).len() + nodes_kinds(cs).len() < toks.len(),
        kinds(toks).subrange(q, q + lines_kinds(a).len() + nodes_kinds(cs).len()) == lines_kinds(a) + nodes_kinds(cs),
        toks[q + lines_kinds(a).len() + nodes_kinds(cs).len()].kind == Kind::RBrace,
    ensures
        match body_spec(toks, q, acc_a, acc_c) {
            Ok((ra, rc, r)) => r == q + lines_kinds(a).len() + nodes_kinds(cs).len() && strip_attrs(ra) == strip_attrs(
                acc_a,
            ) + strip_attrs(a) && nodes_sk(rc) == nodes_sk(acc_c) + nodes_sk(cs),
            Err(_) => false,
        },
    decreases cs, 1int, a.len(),
{
    if a.len() == 0 {
        assert(lines_kinds(a) =~= Seq::<Kind>::empty());
        assert(lines_kinds(a) + nodes_kinds(cs) =~= nodes_kinds(cs));
        lemma_parse_children(toks, q, acc_a, acc_c, cs);
        assert(strip_attrs(acc_a) + strip_attrs(a) =~= strip_attrs(acc_a));
    } else {
        let a0 = a[0];
        let rest = a.subrange(1, a.len() as int);
        assert(attr_ok(a0));
        lemma_attr_key(a0);
        let ek = expr_kinds(a0.value);
        let n0 = ek.len() as int;
        let head = seq![Kind::Ident(a0.key), Kind::Equals];
        let tail = lines_kinds(rest) + nodes_kinds(cs);
        let all = lines_kinds(a) + nodes_kinds(cs);
        assert(lines_kinds(a) == line_kinds(a0) + lines_kinds(rest));
        assert(all =~= head + (ek + tail));
        lemma_expr_kinds_start(a0.value);
        lemma_kinds_in(toks, q, all, 0);
        lemma_kinds_in(toks, q, all, 1);
        lemma_kinds_split(toks, q, head, ek + tail);
        lemma_kinds_split(toks, q + 2, ek, tail);
        if rest.len() > 0 {
            assert(attr_ok(rest[0]) && rest[0] == a[1]);
            lemma_attr_key(rest[0]);
            assert(lines_kinds(rest) == line_kinds(rest[0]) + lines_kinds(rest.subrange(1, rest.len() as int)));
            lemma_kinds_in(toks, q + 2 + n0, tail, 0);
        } else if cs.len() > 0 {
            lemma_node_start(cs[0]);
            assert(lines_kinds(rest) =~= Seq::<Kind>::empty());
            assert(nodes_kinds(cs) == node_kinds(cs[0]) + nodes_kinds(cs.subrange(1, cs.len() as int)));
            lemma_kinds_in(toks, q + 2 + n0, tail, 0);
        } else {
            assert(lines_kinds(rest) =~= Seq::<Kind>::empty());
            assert(tail.len() == 0);
        }
        lemma_parse_expr(toks, q + 2, a0.value);
        let at = AttrV { key: a0.key, value: a0.value, span: toks[q].span };
        assert(attr_spec(toks, q) == Ok::<(AttrV, int), crate::error::ErrorView>((at, q + 2 + n0)));
        assert(skip_comma(toks, q + 2 + n0) == q + 2 + n0);
        assert forall|i: int| 0 <= i < rest.len() implies attr_ok(#[trigger] rest[i]) by {
            assert(rest[i] == a[i + 1]);
        }
        lemma_parse_body(toks, q + 2 + n0, rest, acc_a.push(at), acc_c, cs);
        assert(strip_attrs(acc_a.push(at)) + strip_attrs(rest) =~= strip_attrs(acc_a) + strip_attrs(a));
    }
}

/// Nodes, then `}`, read back as the children of a node.
#[verifier::rlimit(40)]
#[verifier::spinoff_prover]
proof fn lemma_parse_children(toks: Seq<TokenV>, q: int, acc_a: Seq<AttrV>, acc_c: Seq<NodeV>, cs: Seq<NodeV>)
    requires
        nodes_ok(cs),
        0 <= q,
        q + nodes_kinds(cs).len() < toks.len(),
        kinds(toks).subrange(q, q + nodes_kinds(cs).len()) == nodes_kinds(cs),
        toks[q + nodes_kinds(cs).len()].kind == Kind::RBrace,
    ensures
        match body_spec(toks, q, acc_a, acc_c) {
            Ok((ra, rc, r)) => r == q + nodes_kinds(cs).len() && ra == acc_a && nodes_sk(rc) == nodes_sk(acc_c)
                + nodes_sk(cs),
            Err(_) => false,
        },
    decreases cs, 0int, 0int,
{
    if cs.len() == 0 {
        assert(nodes_sk(acc_c) + nodes_sk(cs) =~= nodes_sk(acc_c));
    } else {
        let n0 = cs[0];
        let rest = cs.subrange(1, cs.len() as int);
        let k0 = node_kinds(n0);
        let w = k0.len() as int;
        assert(nodes_kinds(cs) == k0 + nodes_kinds(rest));
        lemma_node_start(n0);
        lemma_kinds_in(toks, q, nodes_kinds(cs), 0);
        lemma_kinds_split(toks, q, k0, nodes_kinds(rest));
        assert(decreases_to!(cs => cs[0]));
        lemma_parse_node(toks, q, n0);
        let (m, r) = node_spec(toks, q)->Ok_0;
        lemma_parse_children(toks, q + w, acc_a, acc_c.push(m), rest);
        lemma_nodes_sk_push(acc_c, m);
        lemma_nodes_sk_front(cs);
        assert(nodes_sk(acc_c).push(node_sk(m)) + nodes_sk(rest) =~= nodes_sk(acc_c) + nodes_sk(cs));
    }
}

/// Nodes, then `}`, read back as the nodes of a page.
#[verifier::rlimit(40)]
#[verifier::spinoff_prover]
proof fn lemma_parse_page_nodes(toks: Seq<TokenV>, q: int, acc: Seq<NodeV>, cs: Seq<NodeV>)
    requires
        nodes_ok(cs),
        0 <= q,
        q + nodes_kinds(cs).len() < toks.len(),
        kinds(toks).subrange(q, q + nodes_kinds(cs).len()) == nodes_kinds(cs),
        toks[q + nodes_kinds(cs).len()].kind == Kind::RBrace,
    ensures
        match page_nodes_spec(toks, q, acc) {
            Ok((rc, r)) => r == q + nodes_kinds(cs).len() && nodes_sk(rc) == nodes_sk(acc) + nodes_sk(cs),
            Err(_) => false,
        },
    decreases cs.len(),
{
    if cs.len() == 0 {
        assert(nodes_sk(acc) + nodes_sk(cs) =~= nodes_sk(acc));
    } else {
        let n0 = cs[0];
        let rest = cs.subrange(1, cs.len() as int);
        let k0 = node_kinds(n0);
        let w = k0.len() as int;
        assert(nodes_kinds(cs) == k0 + nodes_kinds(rest));
        lemma_node_start(n0);
        lemma_kinds_in(toks, q, nodes_kinds(cs), 0);
        lemma_kinds_split(toks, q, k0, nodes_kinds(rest));
        lemma_parse_node(toks, q, n0);
        let (m, r) = node_spec(toks, q)->Ok_0;
        lemma_parse_page_nodes(toks, q + w, acc.push(m), rest);
        lemma_nodes_sk_push(acc, m);
        lemma_nodes_sk_front(cs);
        assert(nodes_sk(acc).push(node_sk(m)) + nodes_sk(rest) =~= nodes_sk(acc) + nodes_sk(cs));
    }
}

proof fn lemma_inline_len_strip(a: Seq<AttrV>, b: Seq<AttrV>)
    requires
        strip_attrs(a) == strip_attrs(b),
    ensures
        inline_len(a) == inline_len(b),
    decreases a.len(),
{
    assert(strip_attrs(a).len() == a.len());
    assert(strip_attrs(b).len() == b.len());
    if a.len() > 0 {
        assert(strip_attrs(a.drop_last()) =~= strip_attrs(a).drop_last());
        assert(strip_attrs(b.drop_last()) =~= strip_attrs(b).drop_last());
        lemma_inline_len_strip(a.drop_last(), b.drop_last());
        assert(strip_attrs(a)[a.len() - 1] == strip_attrs(b)[a.len() - 1]);
    }
}

proof fn lemma_use_args_strip(a: Seq<AttrV>, b: Seq<AttrV>)
    requires
        strip_attrs(a) == strip_attrs(b),
    ensures
        use_args_text(a) == use_args_text(b),
    decreases a.len(),
{
    assert(strip_attrs(a).len() == a.len());
    assert(strip_attrs(b).len() == b.len());
    if a.len() > 0 {
        assert(strip_attrs(a.drop_last()) =~= strip_attrs(a).drop_last());
        assert(strip_attrs(b.drop_last()) =~= strip_attrs(b).drop_last());
        lemma_use_args_strip(a.drop_last(), b.drop_last());
        assert(strip_attrs(a)[a.len() - 1] == strip_attrs(b)[a.len() - 1]);
    }
}

/// Two nodes that say the same are written the same.
proof fn lemma_same_node_text(a: NodeV, b: NodeV, ind: Seq<char>)
    requires
        node_sk(a) == node_sk(b),
    ensures
        fmt_node_spec(a, ind) == fmt_node_spec(b, ind),
    decreases a, 1int,
{
    lemma_nodes_sk_len(a.children);
    lemma_nodes_sk_len(b.children);
    assert(strip_attrs(a.attrs).len() == a.attrs.len());
    assert(strip_attrs(b.attrs).len() == b.attrs.len());
    lemma_inline_len_strip(a.attrs, b.attrs);
    lemma_inline_pairs(a.attrs);
    lemma_inline_pairs(b.attrs);
    lemma_attr_lines_strip(a.attrs, b.attrs, ind + "    "@);
    lemma_use_args_strip(a.attrs, b.attrs);
    assert(decreases_to!(a => a.children));
    lemma_same_nodes_text(a.children, b.children, ind + "    "@);
}

proof fn lemma_same_nodes_text(s: Seq<NodeV>, t: Seq<NodeV>, ind: Seq<char>)
    requires
        nodes_sk(s) == nodes_sk(t),
    ensures
        fmt_nodes_spec(s, ind) == fmt_nodes_spec(t, ind),
    decreases s, 0int,
{
    lemma_nodes_sk_len(s);
    lemma_nodes_sk_len(t);
    if s.len() > 0 {
        assert(nodes_sk(s).drop_last() =~= nodes_sk(s.drop_last()));
        assert(nodes_sk(t).drop_last() =~= nodes_sk(t.drop_last()));
        assert(nodes_sk(s).last() == node_sk(s.last()));
        assert(nodes_sk(t).last() == node_sk(t.last()));
        assert(decreases_to!(s => s[s.len() - 1]));
        lemma_same_node_text(s.last(), t.last(), ind);
        lemma_same_nodes_text(s.drop_last(), t.drop_last(), ind);
    }
}

// -- The canvas and pages --

proof fn lemma_canvas_word()
    ensures
        is_name("canvas"@),
        word_kind("canvas"@) == Kind::Canvas,
        "canvas"@.len() == 6,
{
    reveal_strlit("canvas");
    assert(is_ident_start("canvas"@[0]));
    assert forall|k: int| 0 <= k < "canvas"@.len() implies is_ident_char(#[trigger] "canvas"@[k]) by {
        assert("canvas"@[k] == 'c' || "canvas"@[k] == 'a' || "canvas"@[k] == 'n' || "canvas"@[k] == 'v' || "canvas"@[k] == 's');
    }
}

#[verifier::rlimit(80)]
#[verifier::spinoff_prover]
proof fn lemma_page_word()
    ensures
        is_name("page"@),
        word_kind("page"@) == Kind::Page,
        "page"@.len() == 4,
{
    lemma_words();
    reveal_strlit("page");
}

/// `KW "NAME" {` and its line break, as `canvas` and `page` open.
#[verifier::rlimit(40)]
#[verifier::spinoff_prover]
proof fn lemma_lex_named_open(src: Seq<char>, p: int, kw: Seq<char>, name: Seq<char>)
    requires
        is_name(kw),
        is_plain_text(name),
        0 <= p,
        p + kw.len() + name.len() + 6 <= src.len(),
        src.subrange(p, p + kw.len() + name.len() + 6) == kw + " \""@ + name + "\" {\n"@,
    ensures
        lex_kinds(src, at(p)) == cons_all(
            seq![word_kind(kw), Kind::Str(name), Kind::LBrace],
            lex_kinds(src, at(p + kw.len() + name.len() + 6)),
        ),
{
    reveal_strlit(" \"");
    reveal_strlit("\" {\n");
    let t = kw + " \""@ + name + "\" {\n"@;
    let k = kw.len() as int;
    let n = name.len() as int;
    lemma_sub(src, p, t, 0, k);
    assert(t.subrange(0, k) =~= kw);
    lemma_at(src, p, t, k);
    lemma_lex_word_at(src, p, kw);
    lemma_lex_blank(src, at(p + k), at(p + k + 1));
    lemma_at(src, p, t, k + 1);
    lemma_sub(src, p, t, k + 2, k + 2 + n);
    assert(t.subrange(k + 2, k + 2 + n) =~= name);
    lemma_at(src, p, t, k + 2 + n);
    lemma_lex_str_at(src, p + k + 1, name);
    lemma_at(src, p, t, k + 3 + n);
    lemma_lex_blank(src, at(p + k + n + 3), at(p + k + n + 4));
    lemma_at(src, p, t, k + 4 + n);
    lemma_lex_punct(src, p + k + n + 4);
    lemma_at(src, p, t, k + 5 + n);
    lemma_lex_blank(src, at(p + k + n + 5), at(p + k + n + 6));
    let x = lex_kinds(src, at(p + k + n + 6));
    lemma_cons_one(Kind::LBrace, x);
    lemma_cons_one(Kind::Str(name), cons_all(seq![Kind::LBrace], x));
    lemma_cons_all_app(seq![Kind::Str(name)], seq![Kind::LBrace], x);
    lemma_cons_one(word_kind(kw), cons_all(seq![Kind::Str(name)] + seq![Kind::LBrace], x));
    lemma_cons_all_app(seq![word_kind(kw)], seq![Kind::Str(name)] + seq![Kind::LBrace], x);
    assert(seq![word_kind(kw)] + (seq![Kind::Str(name)] + seq![Kind::LBrace]) =~= seq![
        word_kind(kw),
        Kind::Str(name),
        Kind::LBrace,
    ]);
}

/// A canvas that reads back: a plain name, and attributes whose keys are
/// names and no keywords, with plain values.
pub open spec fn canvas_ok(c: CanvasV) -> bool {
    is_plain_text(c.name) && forall|i: int| 0 <= i < c.attrs.len() ==> attr_ok(#[trigger] c.attrs[i])
}

pub open spec fn canvas_kinds(c: CanvasV) -> Seq<Kind> {
    seq![Kind::Canvas, Kind::Str(c.name), Kind::LBrace] + lines_kinds(c.attrs) + seq![Kind::RBrace]
}

/// A page that reads back: a plain name and nodes that read back.
pub open spec fn page_ok(pg: PageV) -> bool {
    is_plain_text(pg.name) && nodes_ok(pg.nodes)
}

pub open spec fn page_kinds(pg: PageV) -> Seq<Kind> {
    seq![Kind::Page, Kind::Str(pg.name), Kind::LBrace] + nodes_kinds(pg.nodes) + seq![Kind::RBrace]
}

/// A canvas as the formatter writes it reads as its tokens.
#[verifier::rlimit(40)]
#[verifier::spinoff_prover]
proof fn lemma_lex_canvas(src: Seq<char>, p: int, c: CanvasV)
    requires
        canvas_ok(c),
        0 <= p,
        p + canvas_text(c).len() <= src.len(),
        src.subrange(p, p + canvas_text(c).len()) == canvas_text(c),
    ensures
        lex_kinds(src, at(p)) == cons_all(canvas_kinds(c), lex_kinds(src, at(p + canvas_text(c).len()))),
{
    reveal_strlit("canvas \"");
    reveal_strlit("canvas");
    reveal_strlit(" \"");
    reveal_strlit("\" {\n");
    reveal_strlit("}\n");
    lemma_canvas_word();
    lemma_four_spaces();
    let t = canvas_text(c);
    let o = "canvas"@ + " \""@ + c.name + "\" {\n"@;
    let ol = o.len() as int;
    let al = attr_lines(c.attrs, "    "@);
    let a = al.len() as int;
    let e = Seq::<char>::empty() + "}\n"@;
    assert("canvas \""@ =~= "canvas"@ + " \""@);
    assert(t =~= o + al + e);
    lemma_sub(src, p, t, 0, ol);
    assert(t.subrange(0, ol) =~= o);
    lemma_lex_named_open(src, p, "canvas"@, c.name);
    lemma_sub(src, p, t, ol, ol + a);
    assert(t.subrange(ol, ol + a) =~= al);
    lemma_attrs_plain(c.attrs);
    lemma_lex_lines(src, p + ol, c.attrs, "    "@);
    lemma_sub(src, p, t, ol + a, t.len() as int);
    assert(t.subrange(ol + a, t.len() as int) =~= e);
    assert(is_spaces(Seq::<char>::empty()));
    lemma_lex_close(src, p + ol + a, Seq::<char>::empty());
    let x = lex_kinds(src, at(p + t.len()));
    let hk = seq![Kind::Canvas, Kind::Str(c.name), Kind::LBrace];
    let lk = lines_kinds(c.attrs);
    lemma_cons_all_app(lk, seq![Kind::RBrace], x);
    lemma_cons_all_app(hk, lk + seq![Kind::RBrace], x);
    assert(hk + (lk + seq![Kind::RBrace]) =~= canvas_kinds(c));
}

/// A page as the formatter writes it reads as its tokens.
#[verifier::rlimit(40)]
#[verifier::spinoff_prover]
proof fn lemma_lex_page(src: Seq<char>, p: int, pg: PageV)
    requires
        page_ok(pg),
        0 <= p,
        p + page_text(pg).len() <= src.len(),
        src.subrange(p, p + page_text(pg).len()) == page_text(pg),
    ensures
        lex_kinds(src, at(p)) == cons_all(page_kinds(pg), lex_kinds(src, at(p + page_text(pg).len()))),
{
    reveal_strlit("page \"");
    reveal_strlit("page");
    reveal_strlit(" \"");
    reveal_strlit("\" {\n");
    reveal_strlit("}\n");
    lemma_page_word();
    lemma_four_spaces();
    let t = page_text(pg);
    let o = "page"@ + " \""@ + pg.name + "\" {\n"@;
    let ol = o.len() as int;
    let cl = fmt_nodes_spec(pg.nodes, "    "@);
    let c = cl.len() as int;
    let e = Seq::<char>::empty() + "}\n"@;
    assert("page \""@ =~= "page"@ + " \""@);
    assert(t =~= o + cl + e);
    lemma_sub(src, p, t, 0, ol);
    assert(t.subrange(0, ol) =~= o);
    lemma_lex_named_open(src, p, "page"@, pg.name);
    lemma_sub(src, p, t, ol, ol + c);
    assert(t.subrange(ol, ol + c) =~= cl);
    lemma_lex_nodes(src, p + ol, pg.nodes, "    "@);
    lemma_sub(src, p, t, ol + c, t.len() as int);
    assert(t.subrange(ol + c, t.len() as int) =~= e);
    assert(is_spaces(Seq::<char>::empty()));
    lemma_lex_close(src, p + ol + c, Seq::<char>::empty());
    let x = lex_kinds(src, at(p + t.len()));
    let hk = seq![Kind::Page, Kind::Str(pg.name), Kind::LBrace];
    let nk = nodes_kinds(pg.nodes);
    lemma_cons_all_app(nk, seq![Kind::RBrace], x);
    lemma_cons_all_app(hk, nk + seq![Kind::RBrace], x);
    assert(hk + (nk + seq![Kind::RBrace]) =~= page_kinds(pg));
}

/// Attribute lines, then `}`, read back as attributes with the same keys and
/// values.
#[verifier::rlimit(30)]
#[verifier::spinoff_prover]
proof fn lemma_parse_attrs(toks: Seq<TokenV>, q: int, a: Seq<AttrV>, acc: Seq<AttrV>)
    requires
        forall|i: int| 0 <= i < a.len() ==> attr_ok(#[trigger] a[i]),
        0 <= q,
        q + lines_kinds(a).len() < toks.len(),
        kinds(toks).subrange(q, q + lines_kinds(a).len()) == lines_kinds(a),
        toks[q + lines_kinds(a).len()].kind == Kind::RBrace,
    ensures
        match attrs_spec(toks, q, acc) {
            Ok((res, q2)) => q2 == q + lines_kinds(a).len() && strip_attrs(res) == strip_attrs(acc) + strip_attrs(a),
            Err(_) => false,
        },
    decreases a.len(),
{
    if a.len() == 0 {
        assert(strip_attrs(acc) + strip_attrs(a) =~= strip_attrs(acc));
    } else {
        let a0 = a[0];
        let rest = a.subrange(1, a.len() as int);
        assert(attr_ok(a0));
        lemma_attr_key(a0);
        let ek = expr_kinds(a0.value);
        let n0 = ek.len() as int;
        let lk = lines_kinds(a);
        let head = seq![Kind::Ident(a0.key), Kind::Equals];
        assert(lk =~= head + (ek + lines_kinds(rest)));
        lemma_expr_kinds_start(a0.value);
        lemma_kinds_in(toks, q, lk, 0);
        lemma_kinds_in(toks, q, lk, 1);
        lemma_kinds_split(toks, q, head, ek + lines_kinds(rest));
        lemma_kinds_split(toks, q + 2, ek, lines_kinds(rest));
        if rest.len() > 0 {
            assert(attr_ok(rest[0]) && rest[0] == a[1]);
            lemma_attr_key(rest[0]);
            assert(lines_kinds(rest) == line_kinds(rest[0]) + lines_kinds(rest.subrange(1, rest.len() as int)));
            lemma_kinds_in(toks, q + 2 + n0, lines_kinds(rest), 0);
        } else {
            assert(toks[q + 2 + n0].kind == Kind::RBrace);
        }
        lemma_parse_expr(toks, q + 2, a0.value);
        let at = AttrV { key: a0.key, value: a0.value, span: toks[q].span };
        assert(attr_spec(toks, q) == Ok::<(AttrV, int), crate::error::ErrorView>((at, q + 2 + n0)));
        assert(skip_comma(toks, q + 2 + n0) == q + 2 + n0);
        assert forall|i: int| 0 <= i < rest.len() implies attr_ok(#[trigger] rest[i]) by {
            assert(rest[i] == a[i + 1]);
        }
        lemma_parse_attrs(toks, q + 2 + n0, rest, acc.push(at));
        assert(strip_attrs(acc.push(at)) + strip_attrs(rest) =~= strip_attrs(acc) + strip_attrs(a));
    }
}

#[verifier::rlimit(40)]
#[verifier::spinoff_prover]
proof fn lemma_parse_canvas(toks: Seq<TokenV>, q: int, prog: ProgramV, c: CanvasV)
    requires
        canvas_ok(c),
        0 <= q,
        q + canvas_kinds(c).len() <= toks.len(),
        kinds(toks).subrange(q, q + canvas_kinds(c).len()) == canvas_kinds(c),
    ensures
        match decl_spec(toks, q, prog) {
            Ok((g, q2)) => q2 == q + canvas_kinds(c).len() && g == (ProgramV { canvas: g.canvas, ..prog })
                && g.canvas is Some && g.canvas->0.name == c.name && strip_attrs(g.canvas->0.attrs) == strip_attrs(
                c.attrs,
            ),
            Err(_) => false,
        },
{
    let lk = lines_kinds(c.attrs);
    let n = lk.len() as int;
    let ks = canvas_kinds(c);
    let head = seq![Kind::Canvas, Kind::Str(c.name), Kind::LBrace];
    assert(ks =~= head + lk + seq![Kind::RBrace]);
    lemma_kinds_in(toks, q, ks, 0);
    lemma_kinds_in(toks, q, ks, 1);
    lemma_kinds_in(toks, q, ks, 2);
    lemma_kinds_in(toks, q, ks, 3 + n);
    lemma_kinds_split(toks, q, head + lk, seq![Kind::RBrace]);
    lemma_kinds_split(toks, q, head, lk);
    lemma_parse_attrs(toks, q + 3, c.attrs, Seq::empty());
    reveal(decl_spec);
    reveal(canvas_spec);
    let (res, q2) = attrs_spec(toks, q + 3, Seq::empty())->Ok_0;
    assert(strip_attrs(Seq::<AttrV>::empty()) + strip_attrs(c.attrs) =~= strip_attrs(c.attrs));
    let cv = CanvasV { name: c.name, attrs: res, span: toks[q].span };
    assert(canvas_spec(toks, q) == Ok::<(CanvasV, int), crate::error::ErrorView>((cv, q2 + 1)));
}

#[verifier::rlimit(40)]
#[verifier::spinoff_prover]
proof fn lemma_parse_page(toks: Seq<TokenV>, q: int, prog: ProgramV, pg: PageV)
    requires
        page_ok(pg),
        0 <= q,
        q + page_kinds(pg).len() <= toks.len(),
        kinds(toks).subrange(q, q + page_kinds(pg).len()) == page_kinds(pg),
    ensures
        match decl_spec(toks, q, prog) {
            Ok((g, q2)) => q2 == q + page_kinds(pg).len() && g == (ProgramV { pages: g.pages, ..prog })
                && g.pages.len() == prog.pages.len() + 1 && g.pages.drop_last() == prog.pages
                && g.pages.last().name == pg.name && nodes_sk(g.pages.last().nodes) == nodes_sk(pg.nodes),
            Err(_) => false,
        },
{
    let nk = nodes_kinds(pg.nodes);
    let n = nk.len() as int;
    let ks = page_kinds(pg);
    let head = seq![Kind::Page, Kind::Str(pg.name), Kind::LBrace];
    assert(ks =~= head + nk + seq![Kind::RBrace]);
    lemma_kinds_in(toks, q, ks, 0);
    lemma_kinds_in(toks, q, ks, 1);
    lemma_kinds_in(toks, q, ks, 2);
    lemma_kinds_in(toks, q, ks, 3 + n);
    lemma_kinds_split(toks, q, head + nk, seq![Kind::RBrace]);
    lemma_kinds_split(toks, q, head, nk);
    lemma_parse_page_nodes(toks, q + 3, Seq::empty(), pg.nodes);
    reveal(decl_spec);
    reveal(page_spec);
    let (res, q2) = page_nodes_spec(toks, q + 3, Seq::empty())->Ok_0;
    assert(nodes_sk(Seq::<NodeV>::empty()) + nodes_sk(pg.nodes) =~= nodes_sk(pg.nodes));
    let pv = PageV { name: pg.name, nodes: res, span: toks[q].span };
    assert(page_spec(toks, q) == Ok::<(PageV, int), crate::error::ErrorView>((pv, q2 + 1)));
    let g = ProgramV { pages: prog.pages.push(pv), ..prog };
    assert(g.pages.drop_last() =~= prog.pages);
}

#[verifier::rlimit(40)]
#[verifier::spinoff_prover]
proof fn lemma_parse_top_node(toks: Seq<TokenV>, q: int, prog: ProgramV, n: NodeV)
    requires
        node_ok(n),
        0 <= q,
        q + node_kinds(n).len() <= toks.len(),
        kinds(toks).subrange(q, q + node_kinds(n).len()) == node_kinds(n),
    ensures
        match decl_spec(toks, q, prog) {
            Ok((g, q2)) => q2 == q + node_kinds(n).len() && g == (ProgramV { nodes: g.nodes, ..prog })
                && nodes_sk(g.nodes) == nodes_sk(prog.nodes).push(node_sk(n)),
            Err(_) => false,
        },
{
    lemma_node_start(n);
    lemma_kinds_in(toks, q, node_kinds(n), 0);
    lemma_parse_node(toks, q, n);
    reveal(decl_spec);
    let (m, r) = node_spec(toks, q)->Ok_0;
    lemma_nodes_sk_push(prog.nodes, m);
}

// -- Components --

/// A parameter that reads back: a name that is no keyword, and a plain
/// default if it has one.
pub open spec fn param_ok(p: ParamV) -> bool {
    is_name(p.name) && keyword_of(p.name) is None && match p.default {
        Some(d) => is_plain(d),
        None => true,
    }
}

pub open spec fn param_text(p: ParamV) -> Seq<char> {
    p.name + match p.default {
        Some(d) => " = "@ + fmt_expr_spec(d),
        None => Seq::empty(),
    }
}

pub open spec fn param_kinds(p: ParamV) -> Seq<Kind> {
    seq![Kind::Ident(p.name)] + match p.default {
        Some(d) => seq![Kind::Equals] + expr_kinds(d),
        None => Seq::empty(),
    }
}

/// The tokens of parameters separated by commas.
pub open spec fn params_kinds(ps: Seq<ParamV>) -> Seq<Kind>
    decreases ps.len(),
{
    if ps.len() == 0 {
        Seq::empty()
    } else {
        param_kinds(ps[0]) + if ps.len() > 1 {
            seq![Kind::Comma] + params_kinds(ps.subrange(1, ps.len() as int))
        } else {
            Seq::empty()
        }
    }
}

#[verifier::rlimit(40)]
#[verifier::spinoff_prover]
proof fn lemma_params_front(ps: Seq<ParamV>)
    requires
        ps.len() >= 1,
    ensures
        params_text(ps) == param_text(ps[0]) + if ps.len() > 1 {
            ", "@ + params_text(ps.subrange(1, ps.len() as int))
        } else {
            Seq::empty()
        },
    decreases ps.len(),
{
    let f = ps.subrange(1, ps.len() as int);
    if ps.len() == 1 {
        assert(ps.drop_last().len() == 0);
        assert(params_text(ps.drop_last()) =~= Seq::<char>::empty());
        assert(ps.last() == ps[0]);
        assert(params_text(ps) =~= param_text(ps[0]));
    } else if ps.len() == 2 {
        let d = ps.drop_last();
        lemma_params_front(d);
        lemma_params_front(f);
        assert(d[0] == ps[0]);
        assert(f[0] == ps.last());
        assert(params_text(d) =~= param_text(ps[0]));
        assert(params_text(f) =~= param_text(ps[1]));
        assert(params_text(ps) =~= param_text(ps[0]) + ", "@ + params_text(f));
    } else {
        let d = ps.drop_last();
        lemma_params_front(d);
        assert(d.subrange(1, d.len() as int) =~= f.drop_last());
        assert(f.last() == ps.last());
        assert(d[0] == ps[0]);
        assert(params_text(f) == params_text(f.drop_last()) + ", "@ + param_text(f.last()));
        assert(params_text(ps) =~= param_text(ps[0]) + ", "@ + params_text(f));
    }
}

/// A parameter followed by `,` or `)` reads as its tokens.
#[verifier::rlimit(40)]
#[verifier::spinoff_prover]
proof fn lemma_lex_param(src: Seq<char>, p: int, pr: ParamV)
    requires
        param_ok(pr),
        0 <= p,
        p + param_text(pr).len() < src.len(),
        src.subrange(p, p + param_text(pr).len()) == param_text(pr),
        src[p + param_text(pr).len()] == ',' || src[p + param_text(pr).len()] == ')',
    ensures
        lex_kinds(src, at(p)) == cons_all(param_kinds(pr), lex_kinds(src, at(p + param_text(pr).len()))),
{
    reveal_strlit(" = ");
    let t = param_text(pr);
    let k = pr.name.len() as int;
    lemma_sub(src, p, t, 0, k);
    assert(t.subrange(0, k) =~= pr.name);
    match pr.default {
        Some(d) => {
            let v = fmt_expr_spec(d);
            assert(t =~= pr.name + " = "@ + v);
            lemma_at(src, p, t, k);
            lemma_at(src, p, t, k + 1);
            lemma_at(src, p, t, k + 2);
            lemma_lex_pair_head(src, p, pr.name);
            lemma_sub(src, p, t, k + 3, t.len() as int);
            assert(t.subrange(k + 3, t.len() as int) =~= v);
            lemma_lex_expr(src, p + k + 3, d);
            let x = lex_kinds(src, at(p + t.len()));
            lemma_cons_all_app(seq![Kind::Ident(pr.name), Kind::Equals], expr_kinds(d), x);
            assert(seq![Kind::Ident(pr.name), Kind::Equals] + expr_kinds(d) =~= param_kinds(pr));
        },
        None => {
            assert(t =~= pr.name);
            lemma_lex_word_at(src, p, pr.name);
            lemma_cons_one(Kind::Ident(pr.name), lex_kinds(src, at(p + t.len())));
            assert(seq![Kind::Ident(pr.name)] =~= param_kinds(pr));
        },
    }
}

/// Parameters, then `)`, read as their tokens.
#[verifier::rlimit(40)]
#[verifier::spinoff_prover]
proof fn lemma_lex_params(src: Seq<char>, p: int, ps: Seq<ParamV>)
    requires
        forall|i: int| 0 <= i < ps.len() ==> param_ok(#[trigger] ps[i]),
        0 <= p,
        p + params_text(ps).len() < src.len(),
        src.subrange(p, p + params_text(ps).len()) == params_text(ps),
        src[p + params_text(ps).len()] == ')',
    ensures
        lex_kinds(src, at(p)) == cons_all(params_kinds(ps), lex_kinds(src, at(p + params_text(ps).len()))),
    decreases ps.len(),
{
    if ps.len() == 0 {
        lemma_cons_all_nil(lex_kinds(src, at(p)));
    } else {
        lemma_params_front(ps);
        reveal_strlit(", ");
        let all = params_text(ps);
        let t0 = param_text(ps[0]);
        let n0 = t0.len() as int;
        assert(param_ok(ps[0]));
        lemma_sub(src, p, all, 0, n0);
        assert(all.subrange(0, n0) =~= t0);
        let x = lex_kinds(src, at(p + all.len()));
        if ps.len() == 1 {
            assert(all =~= t0);
            lemma_lex_param(src, p, ps[0]);
            assert(params_kinds(ps) =~= param_kinds(ps[0]));
        } else {
            let rest = ps.subrange(1, ps.len() as int);
            let fr = params_text(rest);
            assert(all =~= t0 + ", "@ + fr);
            lemma_at(src, p, all, n0);
            lemma_at(src, p, all, n0 + 1);
            lemma_lex_param(src, p, ps[0]);
            lemma_lex_punct(src, p + n0);
            lemma_lex_blank(src, at(p + n0 + 1), at(p + n0 + 2));
            lemma_sub(src, p, all, n0 + 2, all.len() as int);
            assert(all.subrange(n0 + 2, all.len() as int) =~= fr);
            assert forall|i: int| 0 <= i < rest.len() implies param_ok(#[trigger] rest[i]) by {
                assert(rest[i] == ps[i + 1]);
            }
            lemma_lex_params(src, p + n0 + 2, rest);
            let tail = seq![Kind::Comma] + params_kinds(rest);
            lemma_cons_one(Kind::Comma, cons_all(params_kinds(rest), x));
            lemma_cons_all_app(seq![Kind::Comma], params_kinds(rest), x);
            lemma_cons_all_app(param_kinds(ps[0]), tail, x);
            assert(params_kinds(ps) =~= param_kinds(ps[0]) + tail);
        }
    }
}

proof fn lemma_component_word()
    ensures
        is_name("component"@),
        word_kind("component"@) == Kind::Component,
        "component"@.len() == 9,
{
    reveal_strlit("component");
    reveal_strlit("canvas");
    reveal_strlit("asset");
    reveal_strlit("let");
    reveal_strlit("include");
    reveal_strlit("frame");
    reveal_strlit("text");
    reveal_strlit("image");
    reveal_strlit("shape");
    assert("component"@ != "canvas"@) by {
        assert("component"@[1] != "canvas"@[1]);
    }
    assert("component"@ != "asset"@) by {
        assert("component"@[0] != "asset"@[0]);
    }
    assert("component"@ != "let"@) by {
        assert("component"@[0] != "let"@[0]);
    }
    assert("component"@ != "include"@) by {
        assert("component"@[0] != "include"@[0]);
    }
    assert("component"@ != "frame"@) by {
        assert("component"@[0] != "frame"@[0]);
    }
    assert("component"@ != "text"@) by {
        assert("component"@[0] != "text"@[0]);
    }
    assert("component"@ != "image"@) by {
        assert("component"@[0] != "image"@[0]);
    }
    assert("component"@ != "shape"@) by {
        assert("component"@[0] != "shape"@[0]);
    }
    assert(is_ident_start("component"@[0]));
    assert forall|k: int| 0 <= k < "component"@.len() implies is_ident_char(#[trigger] "component"@[k]) by {
        assert('a' <= "component"@[k] <= 'z');
    }
}

/// A component that reads back: a name that is no keyword, parameters that
/// read back, and a body that reads back.
pub open spec fn component_ok(c: ComponentV) -> bool {
    &&& is_name(c.name)
    &&& keyword_of(c.name) is None
    &&& forall|i: int| 0 <= i < c.params.len() ==> param_ok(#[trigger] c.params[i])
    &&& node_ok(c.body)
}

pub open spec fn component_kinds(c: ComponentV) -> Seq<Kind> {
    seq![Kind::Component, Kind::Ident(c.name), Kind::LParen] + params_kinds(c.params) + seq![
        Kind::RParen,
        Kind::LBrace,
    ] + node_kinds(c.body) + seq![Kind::RBrace]
}

/// `component NAME(`.
#[verifier::rlimit(40)]
#[verifier::spinoff_prover]
proof fn lemma_lex_component_head(src: Seq<char>, p: int, c: ComponentV)
    requires
        component_ok(c),
        0 <= p,
        p + 11 + c.name.len() <= src.len(),
        src.subrange(p, p + 11 + c.name.len()) == "component "@ + c.name + "("@,
    ensures
        lex_kinds(src, at(p)) == cons_all(
            seq![Kind::Component, Kind::Ident(c.name), Kind::LParen],
            lex_kinds(src, at(p + 11 + c.name.len())),
        ),
{
    reveal_strlit("component ");
    reveal_strlit("component");
    reveal_strlit("(");
    lemma_component_word();
    let n = c.name.len() as int;
    let t = "component "@ + c.name + "("@;
    lemma_sub(src, p, t, 0, 9);
    assert(t.subrange(0, 9) =~= "component"@);
    lemma_at(src, p, t, 9);
    lemma_lex_word_at(src, p, "component"@);
    lemma_lex_blank(src, at(p + 9), at(p + 10));
    lemma_sub(src, p, t, 10, 10 + n);
    assert(t.subrange(10, 10 + n) =~= c.name);
    lemma_at(src, p, t, 10 + n);
    lemma_lex_word_at(src, p + 10, c.name);
    lemma_lex_punct(src, p + 10 + n);
    let x = lex_kinds(src, at(p + 11 + n));
    lemma_cons_one(Kind::LParen, x);
    lemma_cons_one(Kind::Ident(c.name), cons_all(seq![Kind::LParen], x));
    lemma_cons_all_app(seq![Kind::Ident(c.name)], seq![Kind::LParen], x);
    lemma_cons_one(Kind::Component, cons_all(seq![Kind::Ident(c.name)] + seq![Kind::LParen], x));
    lemma_cons_all_app(seq![Kind::Component], seq![Kind::Ident(c.name)] + seq![Kind::LParen], x);
    assert(seq![Kind::Component] + (seq![Kind::Ident(c.name)] + seq![Kind::LParen]) =~= seq![
        Kind::Component,
        Kind::Ident(c.name),
        Kind::LParen,
    ]);
}

/// `) {` and its line break.
proof fn lemma_lex_params_close(src: Seq<char>, p: int)
    requires
        0 <= p,
        p + 4 <= src.len(),
        src.subrange(p, p + 4) == ") {\n"@,
    ensures
        lex_kinds(src, at(p)) == cons_all(seq![Kind::RParen, Kind::LBrace], lex_kinds(src, at(p + 4))),
{
    reveal_strlit(") {\n");
    let t = ") {\n"@;
    lemma_at(src, p, t, 0);
    lemma_at(src, p, t, 1);
    lemma_at(src, p, t, 2);
    lemma_at(src, p, t, 3);
    lemma_lex_punct(src, p);
    lemma_lex_blank(src, at(p + 1), at(p + 2));
    lemma_lex_punct(src, p + 2);
    lemma_lex_blank(src, at(p + 3), at(p + 4));
    let x = lex_kinds(src, at(p + 4));
    lemma_cons_one(Kind::LBrace, x);
    lemma_cons_one(Kind::RParen, cons_all(seq![Kind::LBrace], x));
    lemma_cons_all_app(seq![Kind::RParen], seq![Kind::LBrace], x);
    assert(seq![Kind::RParen] + seq![Kind::LBrace] =~= seq![Kind::RParen, Kind::LBrace]);
}

/// A component as the formatter writes it reads as its tokens.
#[verifier::rlimit(60)]
#[verifier::spinoff_prover]
proof fn lemma_lex_component(src: Seq<char>, p: int, c: ComponentV)
    requires
        component_ok(c),
        0 <= p,
        p + component_text(c).len() <= src.len(),
        src.subrange(p, p + component_text(c).len()) == component_text(c),
    ensures
        lex_kinds(src, at(p)) == cons_all(component_kinds(c), lex_kinds(src, at(p + component_text(c).len()))),
{
    reveal_strlit("component ");
    reveal_strlit("(");
    reveal_strlit(") {\n");
    reveal_strlit("}\n");
    lemma_four_spaces();
    let t = component_text(c);
    let o = "component "@ + c.name + "("@;
    let ol = o.len() as int;
    let pt = params_text(c.params);
    let m = pt.len() as int;
    let bt = fmt_node_spec(c.body, "    "@);
    let b = bt.len() as int;
    let e = Seq::<char>::empty() + "}\n"@;
    assert(t =~= o + pt + ") {\n"@ + bt + e);
    lemma_sub(src, p, t, 0, ol);
    assert(t.subrange(0, ol) =~= o);
    lemma_lex_component_head(src, p, c);
    lemma_sub(src, p, t, ol, ol + m);
    assert(t.subrange(ol, ol + m) =~= pt);
    lemma_at(src, p, t, ol + m);
    lemma_lex_params(src, p + ol, c.params);
    lemma_sub(src, p, t, ol + m, ol + m + 4);
    assert(t.subrange(ol + m, ol + m + 4) =~= ") {\n"@);
    lemma_lex_params_close(src, p + ol + m);
    lemma_sub(src, p, t, ol + m + 4, ol + m + 4 + b);
    assert(t.subrange(ol + m + 4, ol + m + 4 + b) =~= bt);
    lemma_lex_node(src, p + ol + m + 4, c.body, "    "@);
    lemma_sub(src, p, t, ol + m + 4 + b, t.len() as int);
    assert(t.subrange(ol + m + 4 + b, t.len() as int) =~= e);
    assert(is_spaces(Seq::<char>::empty()));
    lemma_lex_close(src, p + ol + m + 4 + b, Seq::<char>::empty());
    let x = lex_kinds(src, at(p + t.len()));
    let hk = seq![Kind::Component, Kind::Ident(c.name), Kind::LParen];
    let pk = params_kinds(c.params);
    let mk = seq![Kind::RParen, Kind::LBrace];
    let bk = node_kinds(c.body);
    lemma_cons_all_app(bk, seq![Kind::RBrace], x);
    lemma_cons_all_app(mk, bk + seq![Kind::RBrace], x);
    lemma_cons_all_app(pk, mk + (bk + seq![Kind::RBrace]), x);
    lemma_cons_all_app(hk, pk + (mk + (bk + seq![Kind::RBrace])), x);
    assert(hk + (pk + (mk + (bk + seq![Kind::RBrace]))) =~= component_kinds(c));
}

/// The tokens of parameters, then `)`, read back as the same parameters.
#[verifier::rlimit(40)]
#[verifier::spinoff_prover]
proof fn lemma_parse_params(toks: Seq<TokenV>, q: int, ps: Seq<ParamV>, acc: Seq<ParamV>)
    requires
        forall|i: int| 0 <= i < ps.len() ==> param_ok(#[trigger] ps[i]),
        0 <= q,
        q + params_kinds(ps).len() < toks.len(),
        kinds(toks).subrange(q, q + params_kinds(ps).len()) == params_kinds(ps),
        toks[q + params_kinds(ps).len()].kind == Kind::RParen,
    ensures
        params_spec(toks, q, acc) == Ok::<(Seq<ParamV>, int), crate::error::ErrorView>(
            (acc + ps, q + params_kinds(ps).len()),
        ),
    decreases ps.len(),
{
    if ps.len() == 0 {
        assert(acc + ps =~= acc);
    } else {
        let p0 = ps[0];
        assert(param_ok(p0));
        let k0 = param_kinds(p0);
        let w = k0.len() as int;
        let pk = params_kinds(ps);
        lemma_kinds_in(toks, q, pk, 0);
        let r2 = if ps.len() > 1 { q + w + 1 } else { q + w };
        match p0.default {
            Some(d) => {
                let ek = expr_kinds(d);
                let n0 = ek.len() as int;
                lemma_kinds_in(toks, q, pk, 1);
                lemma_expr_kinds_start(d);
                if ps.len() > 1 {
                    let rest = ps.subrange(1, ps.len() as int);
                    assert(pk =~= seq![Kind::Ident(p0.name), Kind::Equals] + (ek + (seq![Kind::Comma] + params_kinds(rest))));
                    lemma_kinds_split(toks, q, seq![Kind::Ident(p0.name), Kind::Equals], ek + (seq![Kind::Comma] + params_kinds(rest)));
                    lemma_kinds_split(toks, q + 2, ek, seq![Kind::Comma] + params_kinds(rest));
                    lemma_kinds_in(toks, q + 2 + n0, seq![Kind::Comma] + params_kinds(rest), 0);
                } else {
                    assert(pk =~= seq![Kind::Ident(p0.name), Kind::Equals] + ek);
                    lemma_kinds_split(toks, q, seq![Kind::Ident(p0.name), Kind::Equals], ek);
                }
                lemma_parse_expr(toks, q + 2, d);
            },
            None => {
                if ps.len() > 1 {
                    lemma_kinds_in(toks, q, pk, 1);
                }
            },
        }
        let acc2 = acc.push(ParamV { name: p0.name, default: p0.default });
        if ps.len() > 1 {
            let rest = ps.subrange(1, ps.len() as int);
            assert(pk =~= k0 + (seq![Kind::Comma] + params_kinds(rest)));
            lemma_kinds_split(toks, q, k0, seq![Kind::Comma] + params_kinds(rest));
            lemma_kinds_in(toks, q + w, seq![Kind::Comma] + params_kinds(rest), 0);
            lemma_kinds_split(toks, q + w, seq![Kind::Comma], params_kinds(rest));
            assert forall|i: int| 0 <= i < rest.len() implies param_ok(#[trigger] rest[i]) by {
                assert(rest[i] == ps[i + 1]);
            }
            lemma_parse_params(toks, q + w + 1, rest, acc2);
            assert(acc2 + rest =~= acc + ps);
        } else {
            assert(pk =~= k0);
            assert(params_spec(toks, q + w, acc2) == Ok::<(Seq<ParamV>, int), crate::error::ErrorView>((acc2, q + w)));
            assert(acc2 =~= acc + ps);
        }
        assert(skip_comma(toks, q + w) == r2);
    }
}

pub open spec fn comp_sketch(c: ComponentV) -> (Seq<char>, Seq<ParamV>, NodeSk) {
    (c.name, c.params, node_sk(c.body))
}

#[verifier::rlimit(80)]
#[verifier::spinoff_prover]
proof fn lemma_parse_component(toks: Seq<TokenV>, q: int, prog: ProgramV, c: ComponentV)
    requires
        component_ok(c),
        0 <= q,
        q + component_kinds(c).len() <= toks.len(),
        kinds(toks).subrange(q, q + component_kinds(c).len()) == component_kinds(c),
    ensures
        match decl_spec(toks, q, prog) {
            Ok((g, q2)) => q2 == q + component_kinds(c).len() && g == (ProgramV { components: g.components, ..prog })
                && g.components.len() == prog.components.len() + 1 && g.components.drop_last() == prog.components
                && comp_sketch(g.components.last()) == comp_sketch(c),
            Err(_) => false,
        },
{
    let pk = params_kinds(c.params);
    let bk = node_kinds(c.body);
    let pl = pk.len() as int;
    let bl = bk.len() as int;
    let ks = component_kinds(c);
    let hd = seq![Kind::Component, Kind::Ident(c.name), Kind::LParen];
    let md = seq![Kind::RParen, Kind::LBrace];
    assert(ks =~= hd + pk + md + bk + seq![Kind::RBrace]);
    lemma_kinds_in(toks, q, ks, 0);
    lemma_kinds_in(toks, q, ks, 1);
    lemma_kinds_in(toks, q, ks, 2);
    lemma_kinds_in(toks, q, ks, 3 + pl);
    lemma_kinds_in(toks, q, ks, 4 + pl);
    lemma_kinds_in(toks, q, ks, 5 + pl + bl);
    lemma_kinds_split(toks, q, hd + pk + md + bk, seq![Kind::RBrace]);
    lemma_kinds_split(toks, q, hd + pk + md, bk);
    lemma_kinds_split(toks, q, hd + pk, md);
    lemma_kinds_split(toks, q, hd, pk);
    lemma_parse_params(toks, q + 3, c.params, Seq::empty());
    assert(Seq::<ParamV>::empty() + c.params =~= c.params);
    lemma_parse_node(toks, q + 5 + pl, c.body);
    lemma_words();
    reveal(decl_spec);
    reveal(component_spec);
    let (m, r) = node_spec(toks, q + 5 + pl)->Ok_0;
    let cv = ComponentV { name: c.name, params: c.params, body: m, span: toks[q].span };
    assert(component_spec(toks, q) == Ok::<(ComponentV, int), crate::error::ErrorView>((cv, r + 1)));
    let g = ProgramV { components: prog.components.push(cv), ..prog };
    assert(g.components.drop_last() =~= prog.components);
}

proof fn lemma_add_components(sk: Sketch, s: Seq<ComponentV>)
    ensures
        add_all(sk, s.map_values(|c: ComponentV| Decl::Cmp(c))) == (Sketch {
            components: sk.components + s.map_values(|c: ComponentV| comp_sketch(c)),
            ..sk
        }),
    decreases s.len(),
{
    let ds = s.map_values(|c: ComponentV| Decl::Cmp(c));
    if s.len() == 0 {
        assert(sk.components + s.map_values(|c: ComponentV| comp_sketch(c)) =~= sk.components);
    } else {
        assert(ds[0] == Decl::Cmp(s[0]));
        assert(ds.drop_first() =~= s.drop_first().map_values(|c: ComponentV| Decl::Cmp(c)));
        lemma_add_components(add_decl(sk, ds[0]), s.drop_first());
        assert(sk.components.push(comp_sketch(s[0])) + s.drop_first().map_values(|c: ComponentV| comp_sketch(c))
            =~= sk.components + s.map_values(|c: ComponentV| comp_sketch(c)));
    }
}

proof fn lemma_same_component_text(x: ComponentV, y: ComponentV)
    requires
        comp_sketch(x) == comp_sketch(y),
    ensures
        component_text(x) == component_text(y),
{
    lemma_same_node_text(x.body, y.body, "    "@);
}

} // verus!
