//! Static analysis of Organic modules: scopes, types and diagnostics.

pub mod analysis;
pub mod builtins;
pub mod call_check;
pub mod common;
pub mod diagnostics;
pub mod expr_analyzer;
pub mod function;
pub mod generics;
pub mod module_analyzer;
pub mod organic_type;
pub mod scope;
pub mod typing;
pub mod value;

use vstd::prelude::*;

use crate::analyzer::analysis::{Analysis, AnalysisState};
use crate::analyzer::builtins::{builtin_constants, builtin_notes, constant_table, note_at, note_name};
use crate::analyzer::module_analyzer::{analysed_in_order, run};
use crate::analyzer::organic_type::OrganicType;
use crate::analyzer::value::constant_type;
use crate::common::table::keys_unique;
use crate::parser::ast::Module;

verus! {

/// Whether `a` is what analysing `module` from the built-in state gives:
/// its statements in order, each taking the state left by the one before
/// as [`statement_step`](crate::analyzer::module_analyzer::statement_step)
/// says; and the tables of `a` hold each key once.
pub open spec fn analysis_of(module: Module, a: Analysis) -> bool {
    &&& keys_unique(a.definitions@)
    &&& keys_unique(a.defn_infos@)
    &&& keys_unique(a.usages@)
    &&& exists|trace: Seq<AnalysisState>|
        {
            &&& trace[0].starting()
            &&& analysed_in_order(module.statements@, trace)
            &&& trace.last().analysis == a
        }
}

/// Analyses a module, as [`analysis_of`] says.
pub fn analyze(module: Module) -> (r: Analysis)
    ensures
        analysis_of(module, r),
{
    let mut state = AnalysisState::default();
    run(&mut state, module);
    state.analysis
}

/// The built-in constants with their types, in alphabetical order.
pub fn constants() -> (r: Vec<(String, OrganicType)>)
    ensures
        r@.len() == constant_table().len(),
        forall|i: int|
            0 <= i < r@.len() ==> (#[trigger] r@[i]).0@ == constant_table()[i].0 && r@[i].1@
                == constant_type(&constant_table()[i].1),
{
    let mut cs = builtin_constants();
    let ghost table = cs@;
    let mut r: Vec<(String, OrganicType)> = Vec::new();
    let mut i: usize = 0;
    while i < cs.len()
        invariant
            cs@ == table,
            table.len() == constant_table().len(),
            forall|k: int| 0 <= k < table.len() ==> (#[trigger] table[k]).0@ == constant_table()[k].0 && table[k].1 == constant_table()[k].1,
            i <= table.len(),
            r@.len() == i,
            forall|k: int|
                0 <= k < i ==> (#[trigger] r@[k]).0@ == constant_table()[k].0 && r@[k].1@
                    == constant_type(&constant_table()[k].1),
        decreases table.len() - i,
    {
        let typ = cs[i].1.as_type();
        r.push((cs[i].0.clone(), typ));
        i = i + 1;
    }
    r
}

/// The names of all built-in notes, in the order of [`note_at`].
pub fn note_names() -> (r: Vec<String>)
    ensures
        r@.len() == 210,
        forall|i: int| 0 <= i < r@.len() ==> (#[trigger] r@[i])@ == note_name(note_at(i)),
{
    let ns = builtin_notes();
    let mut r: Vec<String> = Vec::new();
    let mut i: usize = 0;
    while i < ns.len()
        invariant
            ns@.len() == 210,
            forall|k: int| 0 <= k < ns@.len() ==> (#[trigger] ns@[k]).0@ == note_name(note_at(k)),
            i <= ns@.len(),
            r@.len() == i,
            forall|k: int| 0 <= k < i ==> (#[trigger] r@[k])@ == note_name(note_at(k)),
        decreases ns@.len() - i,
    {
        r.push(ns[i].0.clone());
        i = i + 1;
    }
    r
}

} // verus!
