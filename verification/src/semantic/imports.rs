use vstd::prelude::*;

use crate::ast::{
    asset_view, block_view, component_view, include_view, let_view, program_view, AssetDecl,
    AssetV, ComponentDecl, ComponentV, IncludeDecl, IncludeV, LetDecl, LetV, Program, ProgramV,
    TokenBlock, TokenBlockV, TokenEntry,
};
use crate::error::{ErrorKind, ErrorView, PastelError};
use crate::text::{copy_string, push_str, str_eq};
use super::expand::copy_component;

verus! {

// ---------------------------------------------------------------------------
// Merging included programs
// ---------------------------------------------------------------------------

/// The first of `incoming` that `existing` already holds.
pub open spec fn first_conflict(existing: Seq<Seq<char>>, incoming: Seq<Seq<char>>) -> Option<Seq<char>>
    decreases incoming.len(),
{
    if incoming.len() == 0 {
        None
    } else {
        match first_conflict(existing, incoming.drop_last()) {
            Some(x) => Some(x),
            None => if existing.contains(incoming.last()) { Some(incoming.last()) } else { None },
        }
    }
}

/// "WHAT 'NAME' already defined (conflict from include 'PATH')", placed at
/// the include, with a hint to give the include a namespace.
pub open spec fn conflict_error(what: Seq<char>, name: Seq<char>, inc: IncludeV) -> ErrorView {
    ErrorView {
        kind: ErrorKind::DuplicateId,
        message: what + " '"@ + name + "' already defined (conflict from include '"@ + inc.path + "')"@,
        span: Some(inc.span),
        hint: Some("use: include \""@ + inc.path + "\" as <namespace>"@),
    }
}

pub open spec fn let_names(s: Seq<LetV>) -> Seq<Seq<char>> {
    s.map_values(|l: LetV| l.name)
}

pub open spec fn component_names(s: Seq<ComponentV>) -> Seq<Seq<char>> {
    s.map_values(|c: ComponentV| c.name)
}

pub open spec fn block_names(s: Seq<TokenBlockV>) -> Seq<Seq<char>> {
    s.map_values(|b: TokenBlockV| b.name)
}

pub open spec fn asset_names(s: Seq<AssetV>) -> Seq<Seq<char>> {
    s.map_values(|a: AssetV| a.name)
}

/// A bare include: refused when it defines a variable, a component, a token
/// block or an asset that the program already has (in that order of checks);
/// otherwise its variables, assets, components and token blocks are added
/// after the program's own.
pub open spec fn merge_spec(t: ProgramV, s: ProgramV, inc: IncludeV) -> Result<ProgramV, ErrorView> {
    match first_conflict(let_names(t.variables), let_names(s.variables)) {
        Some(n) => Err(conflict_error("variable"@, n, inc)),
        None => match first_conflict(component_names(t.components), component_names(s.components)) {
            Some(n) => Err(conflict_error("component"@, n, inc)),
            None => match first_conflict(block_names(t.token_blocks), block_names(s.token_blocks)) {
                Some(n) => Err(conflict_error("token block"@, n, inc)),
                None => match first_conflict(asset_names(t.assets), asset_names(s.assets)) {
                    Some(n) => Err(conflict_error("asset"@, n, inc)),
                    None => Ok(
                        ProgramV {
                            variables: t.variables + s.variables,
                            assets: t.assets + s.assets,
                            components: t.components + s.components,
                            token_blocks: t.token_blocks + s.token_blocks,
                            ..t
                        },
                    ),
                },
            },
        },
    }
}

/// `ns.name`.
pub open spec fn qualified(ns: Seq<char>, name: Seq<char>) -> Seq<char> {
    ns + "."@ + name
}

/// A namespaced include: its variables, assets, components and token blocks
/// are added under `ns.`; its variables and token blocks are also added
/// under their own names, for the use of its components.
pub open spec fn namespaced_spec(t: ProgramV, s: ProgramV, ns: Seq<char>) -> ProgramV {
    ProgramV {
        variables: t.variables + s.variables.map_values(|l: LetV| LetV { name: qualified(ns, l.name), ..l })
            + s.variables,
        assets: t.assets + s.assets.map_values(|a: AssetV| AssetV { name: qualified(ns, a.name), ..a }),
        components: t.components + s.components.map_values(
            |c: ComponentV| ComponentV { name: qualified(ns, c.name), ..c },
        ),
        token_blocks: t.token_blocks + s.token_blocks.map_values(
            |b: TokenBlockV| TokenBlockV { name: qualified(ns, b.name), ..b },
        ) + s.token_blocks,
        ..t
    }
}

/// An included program merged into the program: under its namespace when
/// the include names one, else with conflict detection.
pub open spec fn merge_include_spec(t: ProgramV, s: ProgramV, inc: IncludeV) -> Result<ProgramV, ErrorView> {
    match inc.namespace {
        Some(ns) => Ok(namespaced_spec(t, s, ns)),
        None => merge_spec(t, s, inc),
    }
}

/// The error for an include met a second time while includes are read.
pub open spec fn circular_error(inc: IncludeV) -> ErrorView {
    ErrorView {
        kind: ErrorKind::CircularInclude,
        message: "circular include detected: '"@ + inc.path + "'"@,
        span: Some(inc.span),
        hint: None,
    }
}

pub open spec fn strings_view(v: Seq<String>) -> Seq<Seq<char>> {
    v.map_values(|s: String| s@)
}

/// Records that the file with the given canonical path is being included;
/// a file already recorded makes the include circular.
pub fn visit(visited: &mut Vec<String>, canonical: String, inc: &IncludeDecl) -> (r: Result<(), PastelError>)
    ensures
        match r {
            Ok(_) => !strings_view(old(visited)@).contains(canonical@)
                && strings_view(final(visited)@) == strings_view(old(visited)@).push(canonical@),
            Err(e) => strings_view(old(visited)@).contains(canonical@) && e@ == circular_error(include_view(*inc))
                && final(visited)@ == old(visited)@,
        },
{
    let mut i: usize = 0;
    while i < visited.len()
        invariant
            i <= visited.len(),
            forall|k: int| 0 <= k < i ==> visited@[k]@ != canonical@,
        decreases visited.len() - i,
    {
        if str_eq(visited[i].as_str(), canonical.as_str()) {
            proof {
                assert(strings_view(visited@)[i as int] == canonical@);
            }
            let mut m = String::new();
            push_str(&mut m, "circular include detected: '");
            push_str(&mut m, inc.path.as_str());
            push_str(&mut m, "'");
            return Err(PastelError::new(ErrorKind::CircularInclude, m).with_span(inc.span));
        }
        i = i + 1;
    }
    let ghost before = visited@;
    visited.push(canonical);
    proof {
        assert(strings_view(visited@) =~= strings_view(before).push(canonical@));
    }
    Ok(())
}

/// "cannot resolve include 'PATH': DETAIL", placed at the include.
pub fn resolve_error(inc: &IncludeDecl, detail: &str) -> (e: PastelError)
    ensures
        e@ == (ErrorView {
            kind: ErrorKind::IncludeError,
            message: "cannot resolve include '"@ + inc.path@ + "': "@ + detail@,
            span: Some(inc.span),
            hint: None,
        }),
{
    let mut m = String::new();
    push_str(&mut m, "cannot resolve include '");
    push_str(&mut m, inc.path.as_str());
    push_str(&mut m, "': ");
    push_str(&mut m, detail);
    PastelError::new(ErrorKind::IncludeError, m).with_span(inc.span)
}

/// "cannot read 'PATH': DETAIL", placed at the include.
pub fn read_error(inc: &IncludeDecl, detail: &str) -> (e: PastelError)
    ensures
        e@ == (ErrorView {
            kind: ErrorKind::IncludeError,
            message: "cannot read '"@ + inc.path@ + "': "@ + detail@,
            span: Some(inc.span),
            hint: None,
        }),
{
    let mut m = String::new();
    push_str(&mut m, "cannot read '");
    push_str(&mut m, inc.path.as_str());
    push_str(&mut m, "': ");
    push_str(&mut m, detail);
    PastelError::new(ErrorKind::IncludeError, m).with_span(inc.span)
}

fn conflict(what: &str, name: &str, inc: &IncludeDecl) -> (e: PastelError)
    ensures
        e@ == conflict_error(what@, name@, include_view(*inc)),
{
    let mut m = String::new();
    push_str(&mut m, what);
    push_str(&mut m, " '");
    push_str(&mut m, name);
    push_str(&mut m, "' already defined (conflict from include '");
    push_str(&mut m, inc.path.as_str());
    push_str(&mut m, "')");
    let mut h = String::new();
    push_str(&mut h, "use: include \"");
    push_str(&mut h, inc.path.as_str());
    push_str(&mut h, "\" as <namespace>");
    proof {
        assert(m@ =~= what@ + " '"@ + name@ + "' already defined (conflict from include '"@ + inc.path@ + "')"@);
        assert(h@ =~= "use: include \""@ + inc.path@ + "\" as <namespace>"@);
    }
    PastelError::new(ErrorKind::DuplicateId, m).with_span(inc.span).with_hint(h)
}

/// The first name of `incoming` that `existing` holds.
fn find_conflict(existing: &Vec<String>, incoming: &Vec<String>) -> (r: Option<usize>)
    ensures
        match r {
            Some(i) => i < incoming.len() && first_conflict(strings_view(existing@), strings_view(incoming@)) == Some(
                incoming@[i as int]@,
            ),
            None => first_conflict(strings_view(existing@), strings_view(incoming@)) is None,
        },
{
    let ghost ex = strings_view(existing@);
    let ghost inv = strings_view(incoming@);
    let mut i: usize = 0;
    while i < incoming.len()
        invariant
            i <= incoming.len(),
            ex == strings_view(existing@),
            inv == strings_view(incoming@),
            first_conflict(ex, inv.subrange(0, i as int)) is None,
        decreases incoming.len() - i,
    {
        let mut j: usize = 0;
        let mut found = false;
        while j < existing.len()
            invariant
                j <= existing.len(),
                i < incoming.len(),
                ex == strings_view(existing@),
                ex.len() == existing.len(),
                found ==> ex.contains(incoming@[i as int]@),
                !found ==> forall|k: int| 0 <= k < j ==> ex[k] != incoming@[i as int]@,
            decreases existing.len() - j,
        {
            if !found && str_eq(existing[j].as_str(), incoming[i].as_str()) {
                found = true;
                proof {
                    assert(ex[j as int] == incoming@[i as int]@);
                }
            }
            j = j + 1;
        }
        proof {
            assert(inv.subrange(0, i + 1).drop_last() =~= inv.subrange(0, i as int));
            if !found {
                assert(!ex.contains(incoming@[i as int]@));
            }
        }
        if found {
            proof {
                lemma_conflict_prefix(ex, inv, (i + 1) as nat);
            }
            return Some(i);
        }
        i = i + 1;
    }
    proof {
        assert(inv.subrange(0, incoming.len() as int) =~= inv);
    }
    None
}

/// A conflict found in a prefix is the first conflict of the whole.
pub proof fn lemma_conflict_prefix(ex: Seq<Seq<char>>, s: Seq<Seq<char>>, n: nat)
    requires
        n <= s.len(),
        first_conflict(ex, s.subrange(0, n as int)) is Some,
    ensures
        first_conflict(ex, s) == first_conflict(ex, s.subrange(0, n as int)),
    decreases s.len() - n,
{
    if n < s.len() {
        assert(s.subrange(0, (n + 1) as int).drop_last() =~= s.subrange(0, n as int));
        lemma_conflict_prefix(ex, s, (n + 1) as nat);
    } else {
        assert(s.subrange(0, n as int) =~= s);
    }
}

fn var_names(v: &Vec<LetDecl>) -> (r: Vec<String>)
    ensures
        strings_view(r@) == let_names(v@.map_values(|l: LetDecl| let_view(l))),
{
    let mut r: Vec<String> = Vec::new();
    let mut i: usize = 0;
    while i < v.len()
        invariant
            i <= v.len(),
            r.len() == i,
            forall|k: int| 0 <= k < i ==> #[trigger] r@[k]@ == v@[k].name@,
        decreases v.len() - i,
    {
        r.push(copy_string(&v[i].name));
        i = i + 1;
    }
    proof {
        assert(strings_view(r@) =~= let_names(v@.map_values(|l: LetDecl| let_view(l))));
    }
    r
}

fn comp_names(v: &Vec<ComponentDecl>) -> (r: Vec<String>)
    ensures
        strings_view(r@) == component_names(v@.map_values(|c: ComponentDecl| component_view(c))),
{
    let mut r: Vec<String> = Vec::new();
    let mut i: usize = 0;
    while i < v.len()
        invariant
            i <= v.len(),
            r.len() == i,
            forall|k: int| 0 <= k < i ==> #[trigger] r@[k]@ == v@[k].name@,
        decreases v.len() - i,
    {
        r.push(copy_string(&v[i].name));
        i = i + 1;
    }
    proof {
        assert(strings_view(r@) =~= component_names(v@.map_values(|c: ComponentDecl| component_view(c))));
    }
    r
}

fn blk_names(v: &Vec<TokenBlock>) -> (r: Vec<String>)
    ensures
        strings_view(r@) == block_names(v@.map_values(|b: TokenBlock| block_view(b))),
{
    let mut r: Vec<String> = Vec::new();
    let mut i: usize = 0;
    while i < v.len()
        invariant
            i <= v.len(),
            r.len() == i,
            forall|k: int| 0 <= k < i ==> #[trigger] r@[k]@ == v@[k].name@,
        decreases v.len() - i,
    {
        r.push(copy_string(&v[i].name));
        i = i + 1;
    }
    proof {
        assert(strings_view(r@) =~= block_names(v@.map_values(|b: TokenBlock| block_view(b))));
    }
    r
}

fn ast_names(v: &Vec<AssetDecl>) -> (r: Vec<String>)
    ensures
        strings_view(r@) == asset_names(v@.map_values(|a: AssetDecl| asset_view(a))),
{
    let mut r: Vec<String> = Vec::new();
    let mut i: usize = 0;
    while i < v.len()
        invariant
            i <= v.len(),
            r.len() == i,
            forall|k: int| 0 <= k < i ==> #[trigger] r@[k]@ == v@[k].name@,
        decreases v.len() - i,
    {
        r.push(copy_string(&v[i].name));
        i = i + 1;
    }
    proof {
        assert(strings_view(r@) =~= asset_names(v@.map_values(|a: AssetDecl| asset_view(a))));
    }
    r
}

/// Merges a bare include into the program, refusing names it already has;
/// a refused include leaves the program as it was.
pub fn merge_with_conflict_check(target: &mut Program, source: Program, inc: &IncludeDecl) -> (r: Result<(), PastelError>)
    ensures
        match r {
            Ok(_) => merge_spec(program_view(*old(target)), program_view(source), include_view(*inc)) == Ok::<ProgramV, ErrorView>(
                program_view(*final(target)),
            ),
            Err(e) => merge_spec(program_view(*old(target)), program_view(source), include_view(*inc)) == Err::<ProgramV, ErrorView>(e@)
                && *final(target) == *old(target),
        },
{
    let mut source = source;
    // Check variable conflicts
    let tv = var_names(&target.variables);
    let sv = var_names(&source.variables);
    match find_conflict(&tv, &sv) {
        Some(i) => {
            return Err(conflict("variable", sv[i].as_str(), inc));
        },
        None => {},
    }
    // Check component conflicts
    let tc = comp_names(&target.components);
    let sc = comp_names(&source.components);
    match find_conflict(&tc, &sc) {
        Some(i) => {
            return Err(conflict("component", sc[i].as_str(), inc));
        },
        None => {},
    }
    // Check token block conflicts
    let tb = blk_names(&target.token_blocks);
    let sb = blk_names(&source.token_blocks);
    match find_conflict(&tb, &sb) {
        Some(i) => {
            return Err(conflict("token block", sb[i].as_str(), inc));
        },
        None => {},
    }
    // Check asset conflicts
    let ta = ast_names(&target.assets);
    let sa = ast_names(&source.assets);
    match find_conflict(&ta, &sa) {
        Some(i) => {
            return Err(conflict("asset", sa[i].as_str(), inc));
        },
        None => {},
    }
    let ghost t0 = *target;
    let ghost s0 = source;
    target.variables.append(&mut source.variables);
    target.assets.append(&mut source.assets);
    target.components.append(&mut source.components);
    target.token_blocks.append(&mut source.token_blocks);
    proof {
        assert(program_view(*target) =~= (ProgramV {
            variables: program_view(t0).variables + program_view(s0).variables,
            assets: program_view(t0).assets + program_view(s0).assets,
            components: program_view(t0).components + program_view(s0).components,
            token_blocks: program_view(t0).token_blocks + program_view(s0).token_blocks,
            ..program_view(t0)
        }));
    }
    Ok(())
}

/// `ns.name` as a string.
fn qualify(ns: &str, name: &str) -> (r: String)
    ensures
        r@ == qualified(ns@, name@),
{
    let mut r = String::new();
    push_str(&mut r, ns);
    push_str(&mut r, ".");
    push_str(&mut r, name);
    r
}

/// Merges an include under a namespace.
pub fn merge_namespaced(target: &mut Program, source: Program, ns: &str)
    ensures
        program_view(*final(target)) == namespaced_spec(program_view(*old(target)), program_view(source), ns@),
{
    let mut source = source;
    let ghost t0 = *target;
    let ghost s0 = source;
    let ghost tv0 = program_view(t0);
    let ghost sv0 = program_view(s0);
    // Variables: prefixed, then the originals
    let mut i: usize = 0;
    let ghost base = target.variables@;
    while i < source.variables.len()
        invariant
            i <= source.variables.len(),
            source == s0,
            base == t0.variables@,
            target.variables@.len() == base.len() + i,
            forall|k: int| 0 <= k < base.len() ==> #[trigger] target.variables@[k] == base[k],
            forall|k: int| 0 <= k < i ==> #[trigger] let_view(target.variables@[base.len() + k]) == (LetV {
                name: qualified(ns@, source.variables@[k].name@),
                ..let_view(source.variables@[k])
            }),
            target.assets == t0.assets,
            target.components == t0.components,
            target.token_blocks == t0.token_blocks,
            target.canvas == t0.canvas,
            target.includes == t0.includes,
            target.nodes == t0.nodes,
            target.pages == t0.pages,
        decreases source.variables.len() - i,
    {
        let v = &source.variables[i];
        target.variables.push(LetDecl { name: qualify(ns, v.name.as_str()), value: v.value.duplicate(), span: v.span });
        i = i + 1;
    }
    let ghost mid = target.variables@;
    proof {
        assert forall|k: int| 0 <= k < s0.variables@.len() implies #[trigger] let_view(mid[base.len() + k]) == (LetV {
            name: qualified(ns@, s0.variables@[k].name@),
            ..let_view(s0.variables@[k])
        }) by {
            assert(let_view(target.variables@[base.len() + k]) == (LetV {
                name: qualified(ns@, source.variables@[k].name@),
                ..let_view(source.variables@[k])
            }));
        }
    }
    target.variables.append(&mut source.variables);
    proof {
        let rhs = tv0.variables + sv0.variables.map_values(|l: LetV| LetV { name: qualified(ns@, l.name), ..l })
            + sv0.variables;
        let lhs = program_view(*target).variables;
        let n0 = t0.variables@.len();
        let n1 = s0.variables@.len();
        assert(lhs.len() == rhs.len());
        assert forall|k: int| 0 <= k < lhs.len() implies lhs[k] == rhs[k] by {
            if k < n0 {
            } else if k < n0 + n1 {
                assert(mid[k] == target.variables@[k]);
                assert(let_view(mid[n0 + (k - n0)]) == (LetV {
                    name: qualified(ns@, s0.variables@[k - n0].name@),
                    ..let_view(s0.variables@[k - n0])
                }));
            } else {
                assert(target.variables@[k] == s0.variables@[k - n0 - n1]);
            }
        }
        assert(lhs =~= rhs);
    }
    // Assets and components: prefixed
    let mut i: usize = 0;
    let ghost vars_done = target.variables;
    while i < source.assets.len()
        invariant
            i <= source.assets.len(),
            source.assets == s0.assets,
            target.variables == vars_done,
            target.assets@.len() == t0.assets@.len() + i,
            forall|k: int| 0 <= k < t0.assets@.len() ==> #[trigger] target.assets@[k] == t0.assets@[k],
            forall|k: int| 0 <= k < i ==> #[trigger] asset_view(target.assets@[t0.assets@.len() + k]) == (AssetV {
                name: qualified(ns@, source.assets@[k].name@),
                ..asset_view(source.assets@[k])
            }),
            target.components == t0.components,
            target.token_blocks == t0.token_blocks,
            target.canvas == t0.canvas,
            target.includes == t0.includes,
            target.nodes == t0.nodes,
            target.pages == t0.pages,
        decreases source.assets.len() - i,
    {
        let a = &source.assets[i];
        target.assets.push(
            AssetDecl {
                name: qualify(ns, a.name.as_str()),
                kind: copy_string(&a.kind),
                path: copy_string(&a.path),
                span: a.span,
            },
        );
        i = i + 1;
    }
    proof {
        let rhs = tv0.assets + sv0.assets.map_values(|a: AssetV| AssetV { name: qualified(ns@, a.name), ..a });
        let lhs = program_view(*target).assets;
        let n0 = t0.assets@.len();
        assert(lhs.len() == rhs.len());
        assert forall|k: int| 0 <= k < lhs.len() implies lhs[k] == rhs[k] by {
            if k < n0 {
            } else {
                assert(asset_view(target.assets@[n0 + (k - n0)]) == (AssetV {
                    name: qualified(ns@, source.assets@[k - n0].name@),
                    ..asset_view(source.assets@[k - n0])
                }));
            }
        }
        assert(lhs =~= rhs);
    }
    let mut i: usize = 0;
    let ghost assets_done = target.assets;
    while i < source.components.len()
        invariant
            i <= source.components.len(),
            source.components == s0.components,
            target.variables == vars_done,
            target.assets == assets_done,
            target.components@.len() == t0.components@.len() + i,
            forall|k: int| 0 <= k < t0.components@.len() ==> #[trigger] target.components@[k] == t0.components@[k],
            forall|k: int| 0 <= k < i ==> #[trigger] component_view(target.components@[t0.components@.len() + k]) == (ComponentV {
                name: qualified(ns@, source.components@[k].name@),
                ..component_view(source.components@[k])
            }),
            target.token_blocks == t0.token_blocks,
            target.canvas == t0.canvas,
            target.includes == t0.includes,
            target.nodes == t0.nodes,
            target.pages == t0.pages,
        decreases source.components.len() - i,
    {
        let mut c = copy_component(&source.components[i]);
        c.name = qualify(ns, source.components[i].name.as_str());
        target.components.push(c);
        i = i + 1;
    }
    proof {
        let rhs = tv0.components + sv0.components.map_values(|c: ComponentV| ComponentV { name: qualified(ns@, c.name), ..c });
        let lhs = program_view(*target).components;
        let n0 = t0.components@.len();
        assert(lhs.len() == rhs.len());
        assert forall|k: int| 0 <= k < lhs.len() implies lhs[k] == rhs[k] by {
            if k < n0 {
            } else {
                assert(component_view(target.components@[n0 + (k - n0)]) == (ComponentV {
                    name: qualified(ns@, source.components@[k - n0].name@),
                    ..component_view(source.components@[k - n0])
                }));
            }
        }
        assert(lhs =~= rhs);
    }
    // Token blocks: prefixed, then the originals
    let mut i: usize = 0;
    let ghost comps_done = target.components;
    while i < source.token_blocks.len()
        invariant
            i <= source.token_blocks.len(),
            source.token_blocks == s0.token_blocks,
            target.variables == vars_done,
            target.assets == assets_done,
            target.components == comps_done,
            target.token_blocks@.len() == t0.token_blocks@.len() + i,
            forall|k: int| 0 <= k < t0.token_blocks@.len() ==> #[trigger] target.token_blocks@[k] == t0.token_blocks@[k],
            forall|k: int| 0 <= k < i ==> #[trigger] block_view(target.token_blocks@[t0.token_blocks@.len() + k]) == (TokenBlockV {
                name: qualified(ns@, source.token_blocks@[k].name@),
                ..block_view(source.token_blocks@[k])
            }),
            target.canvas == t0.canvas,
            target.includes == t0.includes,
            target.nodes == t0.nodes,
            target.pages == t0.pages,
        decreases source.token_blocks.len() - i,
    {
        let b = &source.token_blocks[i];
        let mut entries: Vec<TokenEntry> = Vec::new();
        let mut j: usize = 0;
        while j < b.entries.len()
            invariant
                j <= b.entries.len(),
                entries.len() == j,
                forall|k: int| 0 <= k < j ==> #[trigger] crate::ast::entry_view(entries@[k]) == crate::ast::entry_view(b.entries@[k]),
            decreases b.entries.len() - j,
        {
            let e = &b.entries[j];
            entries.push(TokenEntry { key: copy_string(&e.key), value: e.value.duplicate(), span: e.span });
            j = j + 1;
        }
        let nb = TokenBlock { name: qualify(ns, b.name.as_str()), entries, span: b.span };
        proof {
            assert(block_view(nb).entries =~= block_view(*b).entries);
        }
        target.token_blocks.push(nb);
        i = i + 1;
    }
    let ghost blocks_mid = target.token_blocks@;
    target.token_blocks.append(&mut source.token_blocks);
    proof {
        let rhs = tv0.token_blocks + sv0.token_blocks.map_values(
            |b: TokenBlockV| TokenBlockV { name: qualified(ns@, b.name), ..b },
        ) + sv0.token_blocks;
        let lhs = program_view(*target).token_blocks;
        let n0 = t0.token_blocks@.len();
        let n1 = s0.token_blocks@.len();
        assert(lhs.len() == rhs.len());
        assert forall|k: int| 0 <= k < lhs.len() implies lhs[k] == rhs[k] by {
            if k < n0 {
            } else if k < n0 + n1 {
                assert(blocks_mid[k] == target.token_blocks@[k]);
                assert(block_view(blocks_mid[n0 + (k - n0)]) == (TokenBlockV {
                    name: qualified(ns@, s0.token_blocks@[k - n0].name@),
                    ..block_view(s0.token_blocks@[k - n0])
                }));
            } else {
                assert(target.token_blocks@[k] == s0.token_blocks@[k - n0 - n1]);
            }
        }
        assert(lhs =~= rhs);
        assert(program_view(*target) =~= namespaced_spec(tv0, sv0, ns@));
    }
}

/// Merges an included program into the program.
pub fn merge_include(target: &mut Program, included: Program, inc: &IncludeDecl) -> (r: Result<(), PastelError>)
    ensures
        match r {
            Ok(_) => merge_include_spec(program_view(*old(target)), program_view(included), include_view(*inc))
                == Ok::<ProgramV, ErrorView>(program_view(*final(target))),
            Err(e) => merge_include_spec(program_view(*old(target)), program_view(included), include_view(*inc))
                == Err::<ProgramV, ErrorView>(e@) && *final(target) == *old(target),
        },
{
    match &inc.namespace {
        Some(ns) => {
            merge_namespaced(target, included, ns.as_str());
            Ok(())
        },
        None => merge_with_conflict_check(target, included, inc),
    }
}

} // verus!
