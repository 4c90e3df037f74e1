//! Properties that hold across calls of the engine.
use vstd::prelude::*;
use crate::document::{attrs_in, lemma_put_attrs, table_of, top_state_of, DocView, TableState, TopView};
use crate::analyzer::{lemma_count_push, lemma_registry_step};
use crate::inventory::{
    all_occurrences, count_of, first_req, is_qualifying_set, names_of, occurrence_count,
    registry_occurrences, representative, DeclaredDependency, ModuleDescriptor, Occurrence,
    QualifyingDependency, SourceKind,
};
use crate::member::{
    dep_table_keys, entry_ok, lemma_keys_distinct, lemma_rewrite_entry, lemma_step_frame,
    entry_flag, member_decls_ok, member_flag, member_rewrite, member_schema_ok, rewrite_entry,
    rewrite_step, table_flag,
    rewrite_table, table_ok,
};
use crate::root::{
    add_missing, dependencies_key, lemma_add_missing, root_inserts, root_rewrite, root_schema_ok,
    shared_table, with_shared_table, workspace_key,
};

verus! {

/// A dependency declared `threshold - 1` times never qualifies; one declared
/// `threshold` times always does.
pub proof fn threshold_boundary(
    mods: Seq<ModuleDescriptor>,
    threshold: nat,
    result: Seq<QualifyingDependency>,
    name: Seq<char>,
)
    requires
        threshold >= 1,
        is_qualifying_set(mods, threshold, result),
    ensures
        occurrence_count(mods, name) == threshold - 1 ==> !names_of(result).contains(name),
        occurrence_count(mods, name) == threshold ==> names_of(result).contains(name),
{
    if names_of(result).contains(name) {
        let i = choose|i: int| 0 <= i < result.len() && #[trigger] result[i].name@ == name;
        assert(occurrence_count(mods, result[i].name@) >= threshold);
    }
    if occurrence_count(mods, name) == threshold {
        assert(crate::inventory::count_of(crate::inventory::all_occurrences(mods), name) >= threshold);
    }
}

proof fn lemma_shared_table(v: DocView)
    requires
        root_schema_ok(v),
    ensures
        attrs_in(with_shared_table(v), workspace_key(), dependencies_key(), None) == Some(shared_table(v)),
        attrs_in(v, workspace_key(), dependencies_key(), None) is Some ==> with_shared_table(v) == v,
{
}

proof fn lemma_add_missing_present(a: crate::document::Attrs, deps: Seq<QualifyingDependency>)
    requires
        forall|i: int| 0 <= i < deps.len() ==> a.contains_key(#[trigger] deps[i].name@),
    ensures
        add_missing(a, deps) == a,
    decreases deps.len(),
{
    if deps.len() > 0 {
        let p = deps.drop_last();
        assert forall|i: int| 0 <= i < p.len() implies a.contains_key(#[trigger] p[i].name@) by {
            assert(p[i] == deps[i]);
        }
        lemma_add_missing_present(a, p);
        assert(a.contains_key(deps[deps.len() - 1].name@));
    }
}

/// An entry that the root's shared table already holds keeps its value.
pub proof fn root_keeps_existing_entries(v: DocView, deps: Seq<QualifyingDependency>, name: Seq<char>)
    requires
        root_schema_ok(v),
        attrs_in(v, workspace_key(), dependencies_key(), None) is Some,
        attrs_in(v, workspace_key(), dependencies_key(), None)->Some_0.contains_key(name),
    ensures
        attrs_in(root_rewrite(v, deps), workspace_key(), dependencies_key(), None) is Some,
        attrs_in(root_rewrite(v, deps), workspace_key(), dependencies_key(), None)->Some_0.contains_key(name),
        attrs_in(root_rewrite(v, deps), workspace_key(), dependencies_key(), None)->Some_0[name]
            == attrs_in(v, workspace_key(), dependencies_key(), None)->Some_0[name],
{
    lemma_shared_table(v);
    let a = shared_table(v);
    lemma_put_attrs(with_shared_table(v), workspace_key(), dependencies_key(), None, add_missing(a, deps), a);
    lemma_add_missing(a, deps);
}

/// Rewriting the root a second time changes nothing and inserts nothing, so
/// a second run reports no modification.
pub proof fn root_rewrite_idempotent(v: DocView, deps: Seq<QualifyingDependency>)
    requires
        root_schema_ok(v),
    ensures
        root_schema_ok(root_rewrite(v, deps)),
        root_rewrite(root_rewrite(v, deps), deps) == root_rewrite(v, deps),
        !root_inserts(root_rewrite(v, deps), deps),
{
    lemma_shared_table(v);
    let v2 = with_shared_table(v);
    let a = shared_table(v);
    let big = add_missing(a, deps);
    let w = root_rewrite(v, deps);
    lemma_put_attrs(v2, workspace_key(), dependencies_key(), None, big, big);
    lemma_add_missing(a, deps);
    assert(root_schema_ok(w));
    lemma_shared_table(w);
    assert(shared_table(w) == big);
    lemma_add_missing_present(big, deps);
    lemma_put_attrs(w, workspace_key(), dependencies_key(), None, big, big);
}

/// A table whose named entries are already rewritten is left alone.
proof fn lemma_step_fixed(w: DocView, k: Seq<char>, m: Map<Seq<char>, crate::document::EntryView>, names: Set<Seq<char>>)
    requires
        w.contains_key(k),
        w[k] == TopView::Table(rewrite_table(m, names)),
        forall|n: Seq<char>| names.contains(n) && #[trigger] m.contains_key(n) ==> entry_ok(m[n]),
    ensures
        table_ok(w, k, names),
        rewrite_step(w, k, names) == w,
        !table_flag(w, k, names),
{
    let t = rewrite_table(m, names);
    assert forall|n: Seq<char>| names.contains(n) && #[trigger] t.contains_key(n) implies entry_ok(t[n])
        && rewrite_entry(t[n]) == t[n] && !entry_flag(t[n]) by {
        lemma_rewrite_entry(m[n]);
    }
    assert(rewrite_table(t, names) =~= t);
    assert(w.insert(k, TopView::Table(t)) =~= w);
}

/// Rewriting a member a second time succeeds, changes nothing and modifies
/// no entry, so a second run reports no modification.
pub proof fn member_rewrite_idempotent(v: DocView, names: Set<Seq<char>>)
    requires
        member_schema_ok(v),
        member_decls_ok(v, names),
    ensures
        member_schema_ok(member_rewrite(v, names)),
        member_decls_ok(member_rewrite(v, names), names),
        member_rewrite(member_rewrite(v, names), names) == member_rewrite(v, names),
        !member_flag(member_rewrite(v, names), names),
{
    lemma_keys_distinct();
    let k0 = dep_table_keys()[0];
    let k1 = dep_table_keys()[1];
    let k2 = dep_table_keys()[2];
    let s0 = rewrite_step(v, k0, names);
    let s1 = rewrite_step(s0, k1, names);
    let w = rewrite_step(s1, k2, names);
    lemma_step_frame(v, k0, names);
    lemma_step_frame(s0, k1, names);
    lemma_step_frame(s1, k2, names);
    assert(table_ok(v, k0, names) && table_ok(v, k1, names) && table_ok(v, k2, names));
    assert(member_schema_ok(w)) by {
        assert(top_state_of(w, k0) == top_state_of(v, k0));
        assert(top_state_of(w, k1) == top_state_of(v, k1));
        assert(top_state_of(w, k2) == top_state_of(v, k2));
    }
    if top_state_of(v, k0) == TableState::Table {
        lemma_step_fixed(w, k0, table_of(v, k0), names);
    }
    if top_state_of(v, k1) == TableState::Table {
        lemma_step_fixed(w, k1, table_of(v, k1), names);
    }
    if top_state_of(v, k2) == TableState::Table {
        lemma_step_fixed(w, k2, table_of(v, k2), names);
    }
    assert(member_decls_ok(w, names));
    assert(rewrite_step(w, k0, names) == w);
    assert(rewrite_step(w, k1, names) == w);
    assert(rewrite_step(w, k2, names) == w);
}

proof fn lemma_count_concat(x: Seq<Occurrence>, y: Seq<Occurrence>, n: Seq<char>)
    ensures
        count_of(x + y, n) == count_of(x, n) + count_of(y, n),
        count_of(x, n) > 0 ==> first_req(x + y, n) == first_req(x, n),
    decreases y.len(),
{
    if y.len() > 0 {
        let y0 = y.drop_last();
        lemma_count_concat(x, y0, n);
        assert((x + y).drop_last() =~= x + y0);
        assert((x + y).last() == y.last());
    } else {
        assert(x + y =~= x);
    }
}

proof fn lemma_occurrences_prefix(mods: Seq<ModuleDescriptor>, k: int) -> (rest: Seq<Occurrence>)
    requires
        0 <= k <= mods.len(),
    ensures
        all_occurrences(mods) == all_occurrences(mods.subrange(0, k)) + rest,
    decreases mods.len(),
{
    if k == mods.len() {
        assert(mods.subrange(0, k) =~= mods);
        assert(all_occurrences(mods) + Seq::<Occurrence>::empty() =~= all_occurrences(mods));
        Seq::empty()
    } else {
        let p = mods.drop_last();
        let r0 = lemma_occurrences_prefix(p, k);
        assert(p.subrange(0, k) =~= mods.subrange(0, k));
        let r = r0 + registry_occurrences(mods.last().dependencies@);
        assert(all_occurrences(mods) =~= all_occurrences(mods.subrange(0, k)) + r);
        r
    }
}

proof fn lemma_registry_prefix(deps: Seq<DeclaredDependency>, k: int) -> (rest: Seq<Occurrence>)
    requires
        0 <= k <= deps.len(),
    ensures
        registry_occurrences(deps) == registry_occurrences(deps.subrange(0, k)) + rest,
    decreases deps.len(),
{
    if k == deps.len() {
        assert(deps.subrange(0, k) =~= deps);
        assert(registry_occurrences(deps) + Seq::<Occurrence>::empty() =~= registry_occurrences(deps));
        Seq::empty()
    } else {
        let p = deps.drop_last();
        let r0 = lemma_registry_prefix(p, k);
        assert(p.subrange(0, k) =~= deps.subrange(0, k));
        let d = deps.last();
        let r = if d.source == SourceKind::Registry { r0.push((d.name@, d.req@)) } else { r0 };
        assert(registry_occurrences(deps) =~= registry_occurrences(deps.subrange(0, k)) + r);
        r
    }
}

/// No registry declaration of `n` among `deps`.
pub open spec fn absent_in(deps: Seq<DeclaredDependency>, n: Seq<char>) -> bool {
    forall|j: int| 0 <= j < deps.len() ==> !(#[trigger] deps[j].source == SourceKind::Registry && deps[j].name@ == n)
}

proof fn lemma_registry_absent(deps: Seq<DeclaredDependency>, n: Seq<char>)
    requires
        absent_in(deps, n),
    ensures
        count_of(registry_occurrences(deps), n) == 0,
    decreases deps.len(),
{
    if deps.len() > 0 {
        let p = deps.drop_last();
        assert forall|j: int| 0 <= j < p.len() implies !(#[trigger] p[j].source == SourceKind::Registry && p[j].name@ == n) by {
            assert(p[j] == deps[j]);
        }
        lemma_registry_absent(p, n);
        let d = deps.last();
        assert(!(deps[deps.len() - 1].source == SourceKind::Registry && deps[deps.len() - 1].name@ == n));
        if d.source == SourceKind::Registry {
            lemma_count_push(registry_occurrences(p), (d.name@, d.req@));
        }
    }
}

proof fn lemma_modules_absent(mods: Seq<ModuleDescriptor>, n: Seq<char>)
    requires
        forall|m: int| 0 <= m < mods.len() ==> absent_in(#[trigger] mods[m].dependencies@, n),
    ensures
        count_of(all_occurrences(mods), n) == 0,
    decreases mods.len(),
{
    if mods.len() > 0 {
        let p = mods.drop_last();
        assert forall|m: int| 0 <= m < p.len() implies absent_in(#[trigger] p[m].dependencies@, n) by {
            assert(p[m] == mods[m]);
        }
        lemma_modules_absent(p, n);
        assert(absent_in(mods[mods.len() - 1].dependencies@, n));
        lemma_registry_absent(mods.last().dependencies@, n);
        lemma_count_concat(all_occurrences(p), registry_occurrences(mods.last().dependencies@), n);
    }
}

/// The representative requirement of a dependency is the one written at its
/// first registry declaration: in the first module, in inventory order, that
/// declares it, and there at its first declaration.
pub proof fn representative_is_first_seen(
    mods: Seq<ModuleDescriptor>,
    threshold: nat,
    result: Seq<QualifyingDependency>,
    i: int,
    m: int,
    j: int,
)
    requires
        is_qualifying_set(mods, threshold, result),
        0 <= i < result.len(),
        0 <= m < mods.len(),
        0 <= j < mods[m].dependencies@.len(),
        mods[m].dependencies@[j].source == SourceKind::Registry,
        mods[m].dependencies@[j].name@ == result[i].name@,
        forall|m2: int| 0 <= m2 < m ==> absent_in(#[trigger] mods[m2].dependencies@, result[i].name@),
        absent_in(mods[m].dependencies@.subrange(0, j), result[i].name@),
    ensures
        result[i].req@ == mods[m].dependencies@[j].req@,
{
    let n = result[i].name@;
    let deps = mods[m].dependencies@;
    let d = deps[j];
    let o: Occurrence = (d.name@, d.req@);
    let before = mods.subrange(0, m);
    assert forall|m2: int| 0 <= m2 < before.len() implies absent_in(#[trigger] before[m2].dependencies@, n) by {
        assert(before[m2] == mods[m2]);
    }
    lemma_modules_absent(before, n);
    let a = all_occurrences(before);
    lemma_registry_absent(deps.subrange(0, j), n);
    let b0 = registry_occurrences(deps.subrange(0, j));
    lemma_registry_step(deps, j);
    lemma_count_concat(a, b0, n);
    lemma_count_push(a + b0, o);
    let x = (a + b0).push(o);
    assert(first_req(x, n) == d.req@);
    assert(count_of(x, n) > 0);
    let r2 = lemma_registry_prefix(deps, j + 1);
    let r1 = lemma_occurrences_prefix(mods, m + 1);
    lemma_occurrences_prefix(mods, m);
    assert(mods.subrange(0, m + 1).drop_last() =~= before);
    assert(all_occurrences(mods.subrange(0, m + 1)) == a + registry_occurrences(deps));
    assert(all_occurrences(mods) =~= x + (r2 + r1));
    lemma_count_concat(x, r2 + r1, n);
    assert(representative(mods, n) == d.req@);
}

} // verus!
