//! What is kept of an open document: its text, syntax tree, diagnostics,
//! and for each line which entity and which token stand at each position.

use std::sync::Arc;

use rangemap::RangeMap;

use vstd::prelude::*;

use crate::analyzer::analysis::{non_var_token, Analysis, DefnInfo, NonVarToken};
use crate::analyzer::function::Function;
use crate::analyzer::value::TermDefn;
use crate::common::address::NamedVarAddress;
use crate::common::table::{keys_unique, table_get, table_remove};
use crate::lexer::token::{Token, TokenType};
use crate::lsp::diagnostics::DiagnosticInfo;
use crate::parser::ast::Module;

verus! {

#[verifier::external_type_specification]
#[verifier::external_body]
#[verifier::reject_recursive_types(K)]
#[verifier::reject_recursive_types(V)]
pub struct ExRangeMap<K, V>(RangeMap<K, V>);

/// The entities of one line, by position.
pub type EntityLine = RangeMap<u32, Entity>;

/// The tokens of one line, by position.
pub type TokenLine = RangeMap<u32, Token>;

/// What stands at a position of a line: a use or definition of a variable,
/// a named argument (with the function it belongs to), or a literal.
#[derive(Clone, Debug, Eq, PartialEq)]
pub enum Entity {
    LValue { addr: NamedVarAddress },
    NamedArg { name: String, func_addr: NamedVarAddress, func: Arc<Function> },
    NumberLiteral(String),
    StringLiteral(String),
}

/// What is known of a variable: its definition, what analysis found of it,
/// and the tokens where it is used (its definition among them).
#[derive(Debug)]
pub struct LValueInfo {
    pub definition: TermDefn,
    pub defn_info_opt: Option<DefnInfo>,
    pub usages: Vec<Token>,
}

/// An open document.
#[derive(Debug)]
pub struct Document {
    pub contents: String,
    pub ast: Module,
    pub diagnostics: Vec<DiagnosticInfo>,
    pub entities: Vec<RangeMap<u32, Entity>>,
    pub infos: Vec<(NamedVarAddress, Arc<LValueInfo>)>,
    pub tokens: Vec<RangeMap<u32, Token>>,
    pub last_var_names: Vec<String>,
}

/// The entity at each position of a line map.
pub uninterp spec fn entity_points(m: RangeMap<u32, Entity>) -> Map<u32, Entity>;

/// The token at each position of a line map.
pub uninterp spec fn token_points(m: RangeMap<u32, Token>) -> Map<u32, Token>;

/// A line with nothing at any position.
pub open spec fn no_points<V>() -> Map<u32, V> {
    Map::empty()
}

/// `m` with every position from `s` up to `e` mapped to `v`.
pub open spec fn overwrite<V>(m: Map<u32, V>, s: u32, e: u32, v: V) -> Map<u32, V> {
    Map::new(
        |k: u32| m.dom().contains(k) || (s <= k && k < e),
        |k: u32|
            if s <= k && k < e {
                v
            } else {
                m[k]
            },
    )
}

/// Wraps `RangeMap::new`: an empty map.
#[verifier::external_body]
fn new_entity_line() -> (r: EntityLine)
    ensures
        entity_points(r) == no_points::<Entity>(),
{
    RangeMap::new()
}

/// Wraps `RangeMap::insert`: afterwards every position from `start` up to
/// `end` maps to `e`, and the others as before. (The map may merge the range
/// with a touching one whose value is `==` to `e`; `Entity`'s `==` compares
/// the values field by field, so each position still maps to an equal
/// value.) The source panics on an empty range, which `requires` excludes.
#[verifier::external_body]
fn insert_entity_range(m: &mut RangeMap<u32, Entity>, start: u32, end: u32, e: Entity)
    requires
        start < end,
    ensures
        entity_points(*final(m)) == overwrite(entity_points(*old(m)), start, end, e),
{
    m.insert(start..end, e);
}

/// Wraps `RangeMap::get`: the entity at `k`, if any.
#[verifier::external_body]
pub(crate) fn entity_at_point(m: &RangeMap<u32, Entity>, k: u32) -> (r: Option<&Entity>)
    ensures
        r is Some == entity_points(*m).dom().contains(k),
        r matches Some(e) ==> *e == entity_points(*m)[k],
{
    m.get(&k)
}

/// Wraps `RangeMap::get_key_value`, giving the stored range that holds `k`
/// as its first position and the one after its last; every position of it
/// maps to the same entity. The map coalesces touching ranges of `==`
/// values (its documentation says so), and `Entity`'s `==` compares field
/// by field, so the stored range is the whole run of equal entities around
/// `k`: the position before it and the one after it hold none or another.
#[verifier::external_body]
pub(crate) fn entity_range_at(m: &RangeMap<u32, Entity>, k: u32) -> (r: Option<(u32, u32)>)
    ensures
        r is Some == entity_points(*m).dom().contains(k),
        r matches Some((s, e)) ==> s <= k < e && forall|j: u32|
            #![trigger entity_points(*m).dom().contains(j)]
            s <= j < e ==> entity_points(*m).dom().contains(j) && entity_points(*m)[j] == entity_points(*m)[k],
        r matches Some((s, e)) ==> s == 0 || !entity_points(*m).dom().contains((s - 1) as u32)
            || entity_points(*m)[(s - 1) as u32] != entity_points(*m)[k],
        r matches Some((s, e)) ==> !entity_points(*m).dom().contains(e) || entity_points(*m)[e] != entity_points(*m)[k],
{
    m.get_key_value(&k).map(|(range, _)| (range.start, range.end))
}

/// Wraps `RangeMap::new`: an empty map.
#[verifier::external_body]
fn new_token_line() -> (r: TokenLine)
    ensures
        token_points(r) == no_points::<Token>(),
{
    RangeMap::new()
}

/// Wraps `RangeMap::insert`: afterwards every position from `start` up to
/// `end` maps to `t`, and the others as before (a merge with a touching
/// range of a `==` token keeps each position's token, `Token`'s `==` being
/// field by field). The source panics on an empty range, which `requires`
/// excludes.
#[verifier::external_body]
fn insert_token_range(m: &mut RangeMap<u32, Token>, start: u32, end: u32, t: Token)
    requires
        start < end,
    ensures
        token_points(*final(m)) == overwrite(token_points(*old(m)), start, end, t),
{
    m.insert(start..end, t);
}

/// Wraps `RangeMap::get`: the token at `k`, if any.
#[verifier::external_body]
pub(crate) fn token_at_point(m: &RangeMap<u32, Token>, k: u32) -> (r: Option<&Token>)
    ensures
        r is Some == token_points(*m).dom().contains(k),
        r matches Some(t) ==> *t == token_points(*m)[k],
{
    m.get(&k)
}

/// Wraps `RangeMap::iter` and `next_back`: the end of the last stored
/// range, or 0 for an empty map. Every position is before it, and the one
/// just before it has a token.
#[verifier::external_body]
pub(crate) fn token_line_end(m: &RangeMap<u32, Token>) -> (r: u32)
    ensures
        forall|k: u32| token_points(*m).dom().contains(k) ==> k < r,
        r > 0 ==> token_points(*m).dom().contains((r - 1) as u32),
        r == 0 ==> token_points(*m).dom().is_empty(),
{
    m.iter().next_back().map_or(0, |(range, _)| range.end)
}

/// The tokens of the runs of `p` that meet a position from `k` up to
/// `end`, each once and in the order of their positions: a run is a
/// stretch of neighbouring positions that hold `==` tokens, and it is
/// counted at its first position in that window (`start` being where the
/// window begins).
pub open spec fn run_heads(p: Map<u32, Token>, start: int, k: int, end: int) -> Seq<Token>
    decreases end - k,
{
    if k >= end {
        seq![]
    } else {
        let here: Seq<Token> = if p.dom().contains(k as u32) && (k == start || !p.dom().contains((k - 1) as u32)
            || p[(k - 1) as u32] != p[k as u32]) {
            seq![p[k as u32]]
        } else {
            seq![]
        };
        here + run_heads(p, start, k + 1, end)
    }
}

/// What `RangeMap::overlapping(start..end)` yields of a line whose
/// positions hold the tokens `p`. The map stores each run of `==` tokens as
/// one range, and yields, in order, the stored ranges that end after
/// `start` and begin before `end`. For `start < end` those are the runs
/// that meet the window; otherwise it is at most the run that holds
/// `start`, where that run reaches back to `end - 1`.
pub open spec fn overlapping_spec(p: Map<u32, Token>, start: u32, end: u32) -> Seq<Token> {
    if start < end {
        run_heads(p, start as int, start as int, end as int)
    } else if end >= 1 && (forall|j: int|
        #![trigger p.dom().contains(j as u32)]
        end - 1 <= j <= start ==> p.dom().contains(j as u32) && p[j as u32] == p[start]) {
        seq![p[start]]
    } else {
        seq![]
    }
}

/// Wraps `RangeMap::overlapping` and collects the tokens it yields: the
/// values of the stored ranges that end after `start` and begin before
/// `end`, in the order of their positions. The map keeps each run of `==`
/// tokens as one stored range (its documentation: touching ranges of the
/// same value are coalesced), and `Token`'s `==` compares field by field,
/// so [`overlapping_spec`] says which tokens come out.
#[verifier::external_body]
pub(crate) fn tokens_overlapping(m: &RangeMap<u32, Token>, start: u32, end: u32) -> (r: Vec<Token>)
    ensures
        r@ == overlapping_spec(token_points(*m), start, end),
{
    m.overlapping(start..end).map(|(_, t)| t.clone()).collect()
}

/// Whether a token has a place on a line: lines and columns from 1, at
/// least one character long, its end within 32 bits.
pub open spec fn token_fits(t: Token) -> bool {
    &&& t.source_loc.line >= 1
    &&& t.source_loc.column >= 1
    &&& t.source_loc.length >= 1
    &&& t.source_loc.column - 1 + t.source_loc.length <= u32::MAX
}

/// The first position of a token on its line, from 0.
pub open spec fn span_start(t: Token) -> u32 {
    (t.source_loc.column - 1) as u32
}

/// The position after the last of a token on its line.
pub open spec fn span_end(t: Token) -> u32 {
    (t.source_loc.column - 1 + t.source_loc.length) as u32
}

/// The largest line among the tokens of `ins`, or 0.
pub open spec fn max_line<V>(ins: Seq<(Token, V)>) -> int
    decreases ins.len(),
{
    if ins.len() == 0 {
        0
    } else {
        let m = max_line(ins.drop_last());
        let l = ins.last().0.source_loc.line as int;
        if l > m {
            l
        } else {
            m
        }
    }
}

/// Lines with each entity of `ins` placed over its token's span, in order,
/// a later one over an earlier one.
pub open spec fn place<V>(lines: Seq<Map<u32, V>>, ins: Seq<(Token, V)>) -> Seq<Map<u32, V>>
    decreases ins.len(),
{
    if ins.len() == 0 {
        lines
    } else {
        let prev = place(lines, ins.drop_last());
        let t = ins.last().0;
        let i = t.source_loc.line - 1;
        prev.update(i, overwrite(prev[i], span_start(t), span_end(t), ins.last().1))
    }
}

/// `n` empty lines.
pub open spec fn blank_lines<V>(n: int) -> Seq<Map<u32, V>> {
    Seq::new(n as nat, |i: int| no_points::<V>())
}

/// The entity a token that is not a variable stands for.
pub open spec fn nvt_entity(n: NonVarToken) -> Entity {
    match n {
        NonVarToken::NamedArg(t, addr, func) => Entity::NamedArg { name: t.token_type->Identifier_0, func_addr: addr, func },
        NonVarToken::Number(t) => Entity::NumberLiteral(t.token_type->Number_0),
        NonVarToken::String(_, value) => Entity::StringLiteral(value),
    }
}

/// Whether a token that is not a variable can be placed: its token fits,
/// a named argument's is an identifier and a number's a number.
pub open spec fn nvt_fits(n: NonVarToken) -> bool {
    &&& token_fits(non_var_token(&n))
    &&& n is NamedArg ==> non_var_token(&n).token_type is Identifier
    &&& n is Number ==> non_var_token(&n).token_type is Number
}

/// The placements of the tokens that are not variables.
pub open spec fn nvt_inserts(ns: Seq<NonVarToken>) -> Seq<(Token, Entity)> {
    ns.map_values(|n: NonVarToken| (non_var_token(&n), nvt_entity(n)))
}

/// The placements of the usages of each defined variable, definition by
/// definition.
pub open spec fn lvalue_inserts(
    defs: Seq<(NamedVarAddress, TermDefn)>,
    usages: Seq<(NamedVarAddress, Vec<Token>)>,
) -> Seq<(Token, Entity)>
    decreases defs.len(),
{
    if defs.len() == 0 {
        Seq::empty()
    } else {
        let addr = defs.last().0;
        lvalue_inserts(defs.drop_last(), usages) + match table_get(usages, addr@) {
            Some(ts) => ts@.map_values(|t: Token| (t, Entity::LValue { addr })),
            None => Seq::empty(),
        }
    }
}

/// A copy of `t`.
fn clone_token(t: &Token) -> (r: Token)
    ensures
        r == *t,
{
    t.clone()
}

/// The entity of a token that is not a variable, as [`nvt_entity`] says.
pub fn entity_of_nvt(n: &NonVarToken) -> (r: Entity)
    requires
        nvt_fits(*n),
    ensures
        r == nvt_entity(*n),
{
    match n {
        NonVarToken::NamedArg(t, addr, func) => {
            let name = match &t.token_type {
                TokenType::Identifier(name) => name.clone(),
                _ => String::new(),
            };
            Entity::NamedArg { name, func_addr: addr.clone(), func: crate::analyzer::organic_type::share_function(func) }
        },
        NonVarToken::Number(t) => {
            let value = match &t.token_type {
                TokenType::Number(value) => value.clone(),
                _ => String::new(),
            };
            Entity::NumberLiteral(value)
        },
        NonVarToken::String(_, value) => Entity::StringLiteral(value.clone()),
    }
}

/// The entities of each line.
pub open spec fn line_points(ls: Seq<EntityLine>) -> Seq<Map<u32, Entity>> {
    ls.map_values(|m: EntityLine| entity_points(m))
}

/// Places entities on `n` lines, as [`place`] says.
pub fn place_entities(n: usize, ins: Vec<(Token, Entity)>) -> (r: Vec<EntityLine>)
    requires
        forall|i: int| 0 <= i < ins@.len() ==> token_fits((#[trigger] ins@[i]).0) && ins@[i].0.source_loc.line <= n,
    ensures
        line_points(r@) == place(blank_lines::<Entity>(n as int), ins@),
{
    let mut lines: Vec<EntityLine> = Vec::new();
    let mut i: usize = 0;
    while i < n
        invariant
            i <= n,
            lines@.len() == i,
            line_points(lines@) == blank_lines::<Entity>(i as int),
        decreases n - i,
    {
        let ghost before = lines@;
        let m = new_entity_line();
        lines.push(m);
        proof {
            assert(lines@ == before.push(m));
            assert forall|j: int| 0 <= j < i + 1 implies #[trigger] line_points(lines@)[j] == blank_lines::<Entity>(i + 1)[j] by {
                if j < i {
                    assert(lines@[j] == before[j]);
                    assert(line_points(before)[j] == blank_lines::<Entity>(i as int)[j]);
                }
            }
            assert(line_points(lines@) =~= blank_lines::<Entity>(i + 1));
        }
        i = i + 1;
    }
    let ghost all = ins@;
    let mut rest = ins;
    let ghost mut k: int = 0;
    proof {
        assert(rest@ =~= all.skip(0));
        assert(all.take(0) =~= Seq::<(Token, Entity)>::empty());
    }
    while rest.len() > 0
        invariant
            0 <= k <= all.len(),
            rest@ == all.skip(k),
            forall|i: int| 0 <= i < all.len() ==> token_fits((#[trigger] all[i]).0) && all[i].0.source_loc.line <= n,
            lines@.len() == n,
            line_points(lines@) == place(blank_lines::<Entity>(n as int), all.take(k)),
        decreases rest@.len(),
    {
        let (t, e) = rest.remove(0);
        proof {
            assert((t, e) == all[k]);
            assert(rest@ =~= all.skip(k + 1));
        }
        let idx = (t.source_loc.line - 1) as usize;
        let start = t.source_loc.column - 1;
        let end = t.source_loc.column - 1 + t.source_loc.length;
        let ghost before = line_points(lines@);
        let ghost lv = lines@;
        let mut line = lines.remove(idx);
        insert_entity_range(&mut line, start, end, e);
        lines.insert(idx, line);
        proof {
            assert(lines@ == lv.update(idx as int, line));
            let t2 = all.take(k + 1);
            assert(t2.drop_last() =~= all.take(k));
            assert(t2.last() == (t, e));
            assert(line_points(lines@) =~= place(blank_lines::<Entity>(n as int), t2));
            k = k + 1;
        }
    }
    proof {
        assert(all.take(k) =~= all);
    }
    lines
}

/// What is to be known of each defined variable that has usages, in the
/// order of definition: its address, definition, what analysis found of it
/// and its usages.
pub open spec fn info_entries(
    defs: Seq<(NamedVarAddress, TermDefn)>,
    usages: Seq<(NamedVarAddress, Vec<Token>)>,
    dinfos: Seq<(NamedVarAddress, DefnInfo)>,
) -> Seq<(NamedVarAddress, TermDefn, Option<DefnInfo>, Seq<Token>)>
    decreases defs.len(),
{
    if defs.len() == 0 {
        Seq::empty()
    } else {
        let (addr, definition) = defs.last();
        let prev = info_entries(defs.drop_last(), usages, dinfos);
        match table_get(usages, addr@) {
            Some(ts) => prev.push((addr, definition, table_get(dinfos, addr@), ts@)),
            None => prev,
        }
    }
}

/// Whether `infos` holds what [`info_entries`] lists, in order.
pub open spec fn infos_match(
    infos: Seq<(NamedVarAddress, Arc<LValueInfo>)>,
    entries: Seq<(NamedVarAddress, TermDefn, Option<DefnInfo>, Seq<Token>)>,
) -> bool {
    &&& infos.len() == entries.len()
    &&& forall|i: int|
        0 <= i < infos.len() ==> (#[trigger] infos[i]).0 == entries[i].0 && infos[i].1.definition
            == entries[i].1 && infos[i].1.defn_info_opt == entries[i].2 && infos[i].1.usages@ == entries[i].3
}

/// Whether every usage token fits on its line.
pub open spec fn usages_fit(usages: Seq<(NamedVarAddress, Vec<Token>)>) -> bool {
    forall|i: int, j: int| 0 <= i < usages.len() && 0 <= j < usages[i].1@.len() ==> token_fits(#[trigger] usages[i].1@[j])
}

/// A copy of a list of tokens.
fn clone_tokens(ts: &Vec<Token>) -> (r: Vec<Token>)
    ensures
        r@ == ts@,
{
    let mut r: Vec<Token> = Vec::new();
    let mut i: usize = 0;
    while i < ts.len()
        invariant
            i <= ts@.len(),
            r@ == ts@.take(i as int),
        decreases ts@.len() - i,
    {
        r.push(clone_token(&ts[i]));
        i = i + 1;
        proof {
            assert(r@ =~= ts@.take(i as int));
        }
    }
    proof {
        assert(ts@.take(i as int) =~= ts@);
    }
    r
}

/// The usages of the defined variables, as placements on their lines, and
/// what is known of each such variable.
pub fn collect_lvalues(
    definitions: Vec<(NamedVarAddress, TermDefn)>,
    defn_infos: Vec<(NamedVarAddress, DefnInfo)>,
    usages: &Vec<(NamedVarAddress, Vec<Token>)>,
) -> (r: (Vec<(Token, Entity)>, Vec<(NamedVarAddress, Arc<LValueInfo>)>))
    requires
        keys_unique(definitions@),
        keys_unique(defn_infos@),
    ensures
        r.0@ == lvalue_inserts(definitions@, usages@),
        infos_match(r.1@, info_entries(definitions@, usages@, defn_infos@)),
{
    let ghost defs = definitions@;
    let ghost dinfos0 = defn_infos@;
    let mut dinfos = defn_infos;
    let mut ins: Vec<(Token, Entity)> = Vec::new();
    let mut infos: Vec<(NamedVarAddress, Arc<LValueInfo>)> = Vec::new();
    let mut rest = definitions;
    let ghost mut k: int = 0;
    proof {
        assert(rest@ =~= defs.skip(0));
        assert(defs.take(0) =~= Seq::<(NamedVarAddress, TermDefn)>::empty());
    }
    while rest.len() > 0
        invariant
            0 <= k <= defs.len(),
            rest@ == defs.skip(k),
            keys_unique(defs),
            keys_unique(dinfos@),
            forall|j: int| k <= j < defs.len() ==> table_get(dinfos@, (#[trigger] defs[j]).0@) == table_get(dinfos0, defs[j].0@),
            ins@ == lvalue_inserts(defs.take(k), usages@),
            infos_match(infos@, info_entries(defs.take(k), usages@, dinfos0)),
        decreases rest@.len(),
    {
        let (addr, definition) = rest.remove(0);
        let ghost t2 = defs.take(k + 1);
        proof {
            assert((addr, definition) == defs[k]);
            assert(rest@ =~= defs.skip(k + 1));
            assert(t2.drop_last() =~= defs.take(k));
            assert(t2.last() == (addr, definition));
        }
        match crate::common::table::find_key(usages, &addr) {
            Some(j) => {
                proof {
                    crate::common::table::lemma_key_index_bounds(usages@, addr@);
                }
                let ts = &usages[j].1;
                let ghost before = ins@;
                let mut u: usize = 0;
                while u < ts.len()
                    invariant
                        u <= ts@.len(),
                        ins@ == before + ts@.take(u as int).map_values(|t: Token| (t, Entity::LValue { addr })),
                    decreases ts@.len() - u,
                {
                    ins.push((clone_token(&ts[u]), Entity::LValue { addr: addr.clone() }));
                    u = u + 1;
                    proof {
                        assert(ins@ =~= before + ts@.take(u as int).map_values(|t: Token| (t, Entity::LValue { addr })));
                    }
                }
                proof {
                    assert(ts@.take(u as int) =~= ts@);
                    crate::common::table::lemma_key_index_bounds(usages@, addr@);
                    assert(table_get(usages@, addr@) == Some(usages@[j as int].1));
                    assert(ins@ =~= lvalue_inserts(t2, usages@));
                }
                let dinfo = table_remove(&mut dinfos, &addr);
                let ghost entries = info_entries(defs.take(k), usages@, dinfos0);
                let info = LValueInfo { definition, defn_info_opt: dinfo, usages: clone_tokens(ts) };
                infos.push((addr, Arc::new(info)));
                proof {
                    assert(info_entries(t2, usages@, dinfos0) == entries.push((defs[k].0, defs[k].1, table_get(dinfos0, defs[k].0@), ts@)));
                    assert forall|m: int| k + 1 <= m < defs.len() implies table_get(dinfos@, (#[trigger] defs[m]).0@) == table_get(dinfos0, defs[m].0@) by {
                        assert(defs[m].0@ != defs[k].0@);
                    }
                }
            },
            None => {
                proof {
                    crate::common::table::lemma_key_index_bounds(usages@, addr@);
                    assert(ins@ =~= lvalue_inserts(t2, usages@));
                }
            },
        }
        proof {
            k = k + 1;
        }
    }
    proof {
        assert(defs.take(k) =~= defs);
    }
    (ins, infos)
}

/// Every token of `ins` is on a line no later than [`max_line`].
pub proof fn lemma_max_line<V>(ins: Seq<(Token, V)>)
    ensures
        max_line(ins) >= 0,
        forall|i: int| 0 <= i < ins.len() ==> (#[trigger] ins[i]).0.source_loc.line <= max_line(ins),
        ins.len() > 0 ==> exists|i: int| 0 <= i < ins.len() && (#[trigger] ins[i]).0.source_loc.line == max_line(ins),
    decreases ins.len(),
{
    if ins.len() > 0 {
        lemma_max_line(ins.drop_last());
        assert forall|i: int| 0 <= i < ins.len() implies (#[trigger] ins[i]).0.source_loc.line <= max_line(ins) by {
            if i < ins.len() - 1 {
                assert(ins.drop_last()[i] == ins[i]);
            }
        }
        if max_line(ins) != ins.last().0.source_loc.line {
            let w = choose|i: int| 0 <= i < ins.drop_last().len() && (#[trigger] ins.drop_last()[i]).0.source_loc.line == max_line(ins.drop_last());
            assert(ins[w] == ins.drop_last()[w]);
        } else {
            assert(ins[ins.len() - 1] == ins.last());
        }
    }
}

/// The usages' placements take their tokens from the usages.
pub proof fn lemma_lvalue_inserts_fit(defs: Seq<(NamedVarAddress, TermDefn)>, usages: Seq<(NamedVarAddress, Vec<Token>)>)
    requires
        usages_fit(usages),
    ensures
        forall|i: int| 0 <= i < lvalue_inserts(defs, usages).len() ==> token_fits((#[trigger] lvalue_inserts(defs, usages)[i]).0),
    decreases defs.len(),
{
    if defs.len() > 0 {
        lemma_lvalue_inserts_fit(defs.drop_last(), usages);
        let addr = defs.last().0;
        crate::common::table::lemma_key_index_bounds(usages, addr@);
        let prev = lvalue_inserts(defs.drop_last(), usages);
        let all = lvalue_inserts(defs, usages);
        assert forall|i: int| 0 <= i < all.len() implies token_fits((#[trigger] all[i]).0) by {
            if i >= prev.len() {
                let j = crate::common::table::key_index(usages, addr@);
                let ts = usages[j].1@;
                assert(all[i].0 == ts[i - prev.len()]);
                assert(token_fits(usages[j].1@[i - prev.len()]));
            } else {
                assert(all[i] == prev[i]);
            }
        }
    }
}

/// The largest line of the placements' tokens.
fn max_line_of<V>(ins: &Vec<(Token, V)>) -> (r: u32)
    ensures
        r == max_line(ins@),
{
    let mut m: u32 = 0;
    let mut i: usize = 0;
    while i < ins.len()
        invariant
            i <= ins@.len(),
            m == max_line(ins@.take(i as int)),
        decreases ins@.len() - i,
    {
        let l = ins[i].0.source_loc.line;
        proof {
            let t = ins@.take(i + 1);
            assert(t.drop_last() =~= ins@.take(i as int));
        }
        if l > m {
            m = l;
        }
        i = i + 1;
    }
    proof {
        assert(ins@.take(i as int) =~= ins@);
    }
    m
}

/// The placements of the tokens that are not variables, as
/// [`nvt_inserts`] says.
pub fn collect_nvts(nvts: &Vec<NonVarToken>) -> (r: Vec<(Token, Entity)>)
    requires
        forall|i: int| 0 <= i < nvts@.len() ==> nvt_fits(#[trigger] nvts@[i]),
    ensures
        r@ == nvt_inserts(nvts@),
{
    let mut r: Vec<(Token, Entity)> = Vec::new();
    let mut i: usize = 0;
    while i < nvts.len()
        invariant
            i <= nvts@.len(),
            forall|j: int| 0 <= j < nvts@.len() ==> nvt_fits(#[trigger] nvts@[j]),
            r@ == nvt_inserts(nvts@.take(i as int)),
        decreases nvts@.len() - i,
    {
        let n = &nvts[i];
        let t = clone_token(n.token());
        let e = entity_of_nvt(n);
        r.push((t, e));
        i = i + 1;
        proof {
            assert(r@ =~= nvt_inserts(nvts@.take(i as int)));
        }
    }
    proof {
        assert(nvts@.take(i as int) =~= nvts@);
    }
    r
}

/// The tokens of each line.
pub open spec fn token_line_points(ls: Seq<TokenLine>) -> Seq<Map<u32, Token>> {
    ls.map_values(|m: TokenLine| token_points(m))
}

/// Each token placed over its own span.
pub open spec fn token_inserts(ts: Seq<Token>) -> Seq<(Token, Token)> {
    ts.map_values(|t: Token| (t, t))
}

/// The tokens of a document, line by line, each over its span: as many
/// lines as the last token's line.
pub fn token_lines(tokens: &Vec<Token>) -> (r: Vec<TokenLine>)
    requires
        forall|i: int| 0 <= i < tokens@.len() ==> token_fits(#[trigger] tokens@[i]),
    ensures
        token_line_points(r@) == place(blank_lines::<Token>(max_line(token_inserts(tokens@))), token_inserts(tokens@)),
{
    let mut ins: Vec<(Token, Token)> = Vec::new();
    let mut i: usize = 0;
    while i < tokens.len()
        invariant
            i <= tokens@.len(),
            ins@ == token_inserts(tokens@.take(i as int)),
        decreases tokens@.len() - i,
    {
        ins.push((clone_token(&tokens[i]), clone_token(&tokens[i])));
        i = i + 1;
        proof {
            assert(ins@ =~= token_inserts(tokens@.take(i as int)));
        }
    }
    proof {
        assert(tokens@.take(i as int) =~= tokens@);
        lemma_max_line(ins@);
    }
    let n = max_line_of(&ins) as usize;
    let mut lines: Vec<TokenLine> = Vec::new();
    let mut j: usize = 0;
    while j < n
        invariant
            j <= n,
            lines@.len() == j,
            token_line_points(lines@) == blank_lines::<Token>(j as int),
        decreases n - j,
    {
        let ghost before = lines@;
        let m = new_token_line();
        lines.push(m);
        proof {
            assert(lines@ == before.push(m));
            assert forall|q: int| 0 <= q < j + 1 implies #[trigger] token_line_points(lines@)[q] == blank_lines::<Token>(j + 1)[q] by {
                if q < j {
                    assert(lines@[q] == before[q]);
                    assert(token_line_points(before)[q] == blank_lines::<Token>(j as int)[q]);
                }
            }
            assert(token_line_points(lines@) =~= blank_lines::<Token>(j + 1));
        }
        j = j + 1;
    }
    let ghost all = ins@;
    let mut rest = ins;
    let ghost mut k: int = 0;
    proof {
        assert(rest@ =~= all.skip(0));
        assert(all.take(0) =~= Seq::<(Token, Token)>::empty());
        assert forall|q: int| 0 <= q < all.len() implies token_fits((#[trigger] all[q]).0) by {
            assert(all[q].0 == tokens@[q]);
        }
    }
    while rest.len() > 0
        invariant
            0 <= k <= all.len(),
            rest@ == all.skip(k),
            forall|q: int| 0 <= q < all.len() ==> token_fits((#[trigger] all[q]).0) && all[q].0.source_loc.line <= n,
            lines@.len() == n,
            token_line_points(lines@) == place(blank_lines::<Token>(n as int), all.take(k)),
        decreases rest@.len(),
    {
        let (t, v) = rest.remove(0);
        proof {
            assert((t, v) == all[k]);
            assert(rest@ =~= all.skip(k + 1));
        }
        let idx = (t.source_loc.line - 1) as usize;
        let start = t.source_loc.column - 1;
        let end = t.source_loc.column - 1 + t.source_loc.length;
        let ghost lv = lines@;
        let mut line = lines.remove(idx);
        insert_token_range(&mut line, start, end, v);
        lines.insert(idx, line);
        proof {
            assert(lines@ == lv.update(idx as int, line));
            let t2 = all.take(k + 1);
            assert(t2.drop_last() =~= all.take(k));
            assert(t2.last() == (t, v));
            assert(token_line_points(lines@) =~= place(blank_lines::<Token>(n as int), t2));
            k = k + 1;
        }
    }
    proof {
        assert(all.take(k) =~= all);
    }
    lines
}

/// The placements of a document's entities: the usages of its variables,
/// then the tokens that are not variables.
pub open spec fn doc_inserts(a: &Analysis) -> Seq<(Token, Entity)> {
    lvalue_inserts(a.definitions@, a.usages@) + nvt_inserts(a.non_var_tokens@)
}

/// The names of the user-defined variables, in the order of definition.
pub open spec fn user_var_names(defs: Seq<(NamedVarAddress, TermDefn)>) -> Seq<Seq<char>>
    decreases defs.len(),
{
    if defs.len() == 0 {
        Seq::empty()
    } else if defs.last().1 is UserDefined {
        user_var_names(defs.drop_last()).push(defs.last().0.name@)
    } else {
        user_var_names(defs.drop_last())
    }
}

/// The views of strings.
pub open spec fn names_view(v: Seq<String>) -> Seq<Seq<char>> {
    v.map_values(|s: String| s@)
}

/// Whether an analysis can be placed on lines: its tables hold each key
/// once and all its tokens fit.
pub open spec fn analysis_fits(a: &Analysis) -> bool {
    &&& keys_unique(a.definitions@)
    &&& keys_unique(a.defn_infos@)
    &&& usages_fit(a.usages@)
    &&& forall|i: int| 0 <= i < a.non_var_tokens@.len() ==> nvt_fits(#[trigger] a.non_var_tokens@[i])
}

/// The document for a text: its syntax tree and diagnostics as given, the
/// entities the analysis found placed on their lines (as [`place`] says of
/// [`doc_inserts`]), what is known of each used variable, the tokens placed
/// on their lines, and the names of the user-defined variables.
pub fn build_document(
    contents: String,
    ast: Module,
    diagnostics: Vec<DiagnosticInfo>,
    analysis: Analysis,
    tokens: &Vec<Token>,
) -> (r: Document)
    requires
        analysis_fits(&analysis),
        forall|i: int| 0 <= i < tokens@.len() ==> token_fits(#[trigger] tokens@[i]),
    ensures
        r.contents == contents,
        r.ast == ast,
        r.diagnostics@ == diagnostics@,
        line_points(r.entities@) == place(blank_lines::<Entity>(max_line(doc_inserts(&analysis))), doc_inserts(&analysis)),
        infos_match(r.infos@, info_entries(analysis.definitions@, analysis.usages@, analysis.defn_infos@)),
        token_line_points(r.tokens@) == place(blank_lines::<Token>(max_line(token_inserts(tokens@))), token_inserts(tokens@)),
        names_view(r.last_var_names@) == user_var_names(analysis.definitions@),
{
    let ghost a0 = analysis;
    let Analysis { definitions, defn_infos, diagnostics: _, non_var_tokens, usages } = analysis;
    let mut names: Vec<String> = Vec::new();
    let mut i: usize = 0;
    while i < definitions.len()
        invariant
            i <= definitions@.len(),
            names_view(names@) == user_var_names(definitions@.take(i as int)),
        decreases definitions@.len() - i,
    {
        let ghost before = names@;
        if let TermDefn::UserDefined { .. } = &definitions[i].1 {
            names.push(definitions[i].0.name.clone());
        }
        proof {
            let t = definitions@.take(i + 1);
            assert(t.drop_last() =~= definitions@.take(i as int));
            assert(names_view(names@) =~= user_var_names(t));
        }
        i = i + 1;
    }
    proof {
        assert(definitions@.take(i as int) =~= definitions@);
    }
    let (lv_ins, infos) = collect_lvalues(definitions, defn_infos, &usages);
    let nv_ins = collect_nvts(&non_var_tokens);
    let mut ins = lv_ins;
    let mut more = nv_ins;
    ins.append(&mut more);
    proof {
        assert(ins@ =~= doc_inserts(&a0));
        lemma_lvalue_inserts_fit(a0.definitions@, a0.usages@);
        lemma_max_line(ins@);
        assert forall|q: int| 0 <= q < ins@.len() implies token_fits((#[trigger] ins@[q]).0) by {
            let lv = lvalue_inserts(a0.definitions@, a0.usages@);
            if q >= lv.len() {
                assert(ins@[q].0 == non_var_token(&a0.non_var_tokens@[q - lv.len()]));
                assert(nvt_fits(a0.non_var_tokens@[q - lv.len()]));
            } else {
                assert(ins@[q] == lv[q]);
            }
        }
    }
    let n = max_line_of(&ins) as usize;
    let entities = place_entities(n, ins);
    Document { contents, ast, diagnostics, entities, infos, tokens: token_lines(tokens), last_var_names: names }
}

/// The entity at position `ch` of line `line` (both from 0), if any.
pub open spec fn doc_entity(doc: &Document, line: int, ch: u32) -> Option<Entity> {
    if 0 <= line < doc.entities@.len() && entity_points(doc.entities@[line]).dom().contains(ch) {
        Some(entity_points(doc.entities@[line])[ch])
    } else {
        None
    }
}

/// What is known of the variable at `addr`, if anything.
pub open spec fn doc_info(doc: &Document, addr: (Seq<char>, u64)) -> Option<Arc<LValueInfo>> {
    table_get(doc.infos@, addr)
}

/// The token at position `ch` of line `line` (both from 0), if any.
pub open spec fn doc_token(doc: &Document, line: int, ch: u32) -> Option<Token> {
    if 0 <= line < doc.tokens@.len() && token_points(doc.tokens@[line]).dom().contains(ch) {
        Some(token_points(doc.tokens@[line])[ch])
    } else {
        None
    }
}

/// The entity at a position, as [`doc_entity`] says.
pub fn entity_at(doc: &Document, line: u32, ch: u32) -> (r: Option<&Entity>)
    ensures
        match r {
            Some(e) => doc_entity(doc, line as int, ch) == Some(*e),
            None => doc_entity(doc, line as int, ch) is None,
        },
{
    if (line as usize) < doc.entities.len() {
        entity_at_point(&doc.entities[line as usize], ch)
    } else {
        None
    }
}

/// What is known of a variable, as [`doc_info`] says.
pub fn info_at<'a>(doc: &'a Document, addr: &NamedVarAddress) -> (r: Option<&'a Arc<LValueInfo>>)
    ensures
        match r {
            Some(i) => doc_info(doc, addr@) == Some(*i),
            None => doc_info(doc, addr@) is None,
        },
{
    match crate::common::table::find_key(&doc.infos, addr) {
        Some(i) => {
            proof {
                crate::common::table::lemma_key_index_bounds(doc.infos@, addr@);
            }
            Some(&doc.infos[i].1)
        },
        None => None,
    }
}

/// The token at a position, as [`doc_token`] says.
pub fn token_at(doc: &Document, line: u32, ch: u32) -> (r: Option<&Token>)
    ensures
        match r {
            Some(t) => doc_token(doc, line as int, ch) == Some(*t),
            None => doc_token(doc, line as int, ch) is None,
        },
{
    if (line as usize) < doc.tokens.len() {
        token_at_point(&doc.tokens[line as usize], ch)
    } else {
        None
    }
}

} // verus!
