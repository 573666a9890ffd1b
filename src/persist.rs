//! What the persisted configuration holds: the text values of the variables
//! flagged `ARCHIVE`, and their application back onto a registry.
use vstd::prelude::*;
use vstd::string::*;

use crate::registry::{
    lists_exactly, names_of, selects, state_set_string, state_value_text, ConEntry, ConsoleRegistry,
    EntryModel, Selection,
};

verus! {

/// The name and text value of every variable flagged `ARCHIVE`, each once.
pub fn extract_archive_convars(registry: &ConsoleRegistry) -> (r: Vec<(String, String)>)
    requires
        registry.wf(),
    ensures
        lists_exactly(registry@, names_of(r@), |e: EntryModel| selects(Selection::ArchiveVars, e)),
        forall|a: int|
            0 <= a < r@.len() ==> (registry@[(#[trigger] r@[a]).0@] matches EntryModel::Var(st) && r@[a].1@
                == state_value_text(st)),
{
    let vars = registry.archive_vars();
    let mut out: Vec<(String, String)> = Vec::new();
    let mut i: usize = 0;
    while i < vars.len()
        invariant
            i <= vars@.len(),
            out@.len() == i,
            forall|a: int| 0 <= a < i ==> (#[trigger] out@[a]).0@ == vars@[a].0@ && out@[a].1@ == state_value_text(vars@[a].1@),
        decreases vars.len() - i,
    {
        out.push((vars[i].0.clone(), vars[i].1.get_string()));
        i = i + 1;
    }
    assert(names_of(out@) =~= names_of(vars@));
    out
}

/// The registry after setting variable `p.0` from text `p.1`, where that
/// succeeds.
pub open spec fn apply_one(reg: Map<Seq<char>, EntryModel>, p: (Seq<char>, Seq<char>)) -> Map<Seq<char>, EntryModel> {
    match reg.get(p.0) {
        Some(EntryModel::Var(st)) => {
            let (ok, st2) = state_set_string(st, p.1);
            if ok {
                reg.insert(p.0, EntryModel::Var(st2))
            } else {
                reg
            }
        },
        _ => reg,
    }
}

/// Whether setting variable `p.0` from text `p.1` succeeds on `reg`.
pub open spec fn applies(reg: Map<Seq<char>, EntryModel>, p: (Seq<char>, Seq<char>)) -> bool {
    match reg.get(p.0) {
        Some(EntryModel::Var(st)) => state_set_string(st, p.1).0,
        _ => false,
    }
}

/// The registry after applying each pair in order.
pub open spec fn apply_all(reg: Map<Seq<char>, EntryModel>, ps: Seq<(Seq<char>, Seq<char>)>) -> Map<Seq<char>, EntryModel>
    decreases ps.len(),
{
    if ps.len() == 0 {
        reg
    } else {
        apply_one(apply_all(reg, ps.drop_last()), ps.last())
    }
}

/// The views of name/value pairs.
pub open spec fn pair_views(v: Seq<(String, String)>) -> Seq<(Seq<char>, Seq<char>)> {
    v.map_values(|p: (String, String)| (p.0@, p.1@))
}

/// Sets each variable named in `convars` from its text value, in order.
/// Returns, for each pair, whether it was applied; names that are not
/// variables, values that do not parse and read-only variables are skipped.
pub fn apply_config_to_registry(convars: &Vec<(String, String)>, registry: &mut ConsoleRegistry) -> (r: Vec<bool>)
    requires
        old(registry).wf(),
    ensures
        final(registry).wf(),
        final(registry)@ == apply_all(old(registry)@, pair_views(convars@)),
        r@.len() == convars@.len(),
        forall|i: int|
            0 <= i < r@.len() ==> #[trigger] r@[i] == applies(
                apply_all(old(registry)@, pair_views(convars@).take(i)),
                pair_views(convars@)[i],
            ),
{
    let mut applied: Vec<bool> = Vec::new();
    let mut i: usize = 0;
    while i < convars.len()
        invariant
            registry.wf(),
            i <= convars@.len(),
            applied@.len() == i,
            registry@ == apply_all(old(registry)@, pair_views(convars@).take(i as int)),
            forall|k: int|
                0 <= k < i ==> #[trigger] applied@[k] == applies(
                    apply_all(old(registry)@, pair_views(convars@).take(k)),
                    pair_views(convars@)[k],
                ),
        decreases convars.len() - i,
    {
        let ok = registry.set_string(convars[i].0.as_str(), convars[i].1.as_str());
        applied.push(ok);
        proof {
            let ps = pair_views(convars@);
            assert(ps.take(i + 1).drop_last() =~= ps.take(i as int));
        }
        i = i + 1;
    }
    assert(pair_views(convars@).take(convars@.len() as int) =~= pair_views(convars@));
    applied
}

} // verus!
