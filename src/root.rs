//! Adds qualifying dependencies to the root's `[workspace.dependencies]`.
use vstd::prelude::*;
use crate::document::{
    attr_state, attrs_in, entry_of, entry_state, insert_entry_table, insert_top_table,
    lemma_put_attrs, put_attrs_in, put_entry, set_attr, top_state, top_state_of, doc_view,
    AttrSetLoc, AttrState, AttrValue, AttrView, Attrs, DocView, EntryState, EntryView,
    TableState, TopView,
};
use crate::error::ManifestError;
use crate::inventory::QualifyingDependency;

verus! {

pub open spec fn workspace_key() -> Seq<char> {
    "workspace"@
}

pub open spec fn dependencies_key() -> Seq<char> {
    "dependencies"@
}

/// `workspace` and `workspace.dependencies` are tables where they exist; an
/// inline `workspace.dependencies = { ... }` is not accepted.
pub open spec fn root_schema_ok(v: DocView) -> bool {
    &&& top_state_of(v, workspace_key()) != TableState::NotTable
    &&& top_state_of(v, workspace_key()) == TableState::Table ==> match entry_of(
        v,
        workspace_key(),
        dependencies_key(),
    ) {
        None => true,
        Some(EntryView::Block(_)) => true,
        _ => false,
    }
}

/// `v` with empty `workspace` and `workspace.dependencies` tables added where
/// they are missing.
pub open spec fn with_shared_table(v: DocView) -> DocView {
    let v1 = if top_state_of(v, workspace_key()) == TableState::Absent {
        v.insert(workspace_key(), TopView::Table(Map::empty()))
    } else {
        v
    };
    if entry_of(v1, workspace_key(), dependencies_key()) is None {
        put_entry(v1, workspace_key(), dependencies_key(), EntryView::Block(Map::empty()))
    } else {
        v1
    }
}

/// The shared table `a` after adding, in order, each dependency of `deps`
/// whose name it does not hold yet, as a plain requirement string.
pub open spec fn add_missing(a: Attrs, deps: Seq<QualifyingDependency>) -> Attrs
    decreases deps.len(),
{
    if deps.len() == 0 {
        a
    } else {
        let prev = add_missing(a, deps.drop_last());
        let d = deps.last();
        if prev.contains_key(d.name@) {
            prev
        } else {
            prev.insert(d.name@, AttrView::Str(d.req@))
        }
    }
}

/// The shared table of `v` (empty where there is none yet).
pub open spec fn shared_table(v: DocView) -> Attrs {
    attrs_in(with_shared_table(v), workspace_key(), dependencies_key(), None)->Some_0
}

/// Some dependency of `deps` is missing from the shared table of `v`, so the
/// rewrite inserts at least one entry.
pub open spec fn root_inserts(v: DocView, deps: Seq<QualifyingDependency>) -> bool {
    exists|i: int| 0 <= i < deps.len() && !shared_table(v).contains_key(#[trigger] deps[i].name@)
}

/// The root document after the rewrite.
pub open spec fn root_rewrite(v: DocView, deps: Seq<QualifyingDependency>) -> DocView {
    put_attrs_in(
        with_shared_table(v),
        workspace_key(),
        dependencies_key(),
        None,
        add_missing(shared_table(v), deps),
    )
}

/// What `add_missing` keeps, adds, and adds nothing beyond.
pub proof fn lemma_add_missing(a: Attrs, deps: Seq<QualifyingDependency>)
    ensures
        forall|k: Seq<char>|
            a.contains_key(k) ==> #[trigger] add_missing(a, deps).contains_key(k) && add_missing(
                a,
                deps,
            )[k] == a[k],
        forall|i: int|
            0 <= i < deps.len() ==> add_missing(a, deps).contains_key(#[trigger] deps[i].name@),
        forall|k: Seq<char>|
            #[trigger] add_missing(a, deps).contains_key(k) ==> a.contains_key(k) || exists|i: int|
                0 <= i < deps.len() && #[trigger] deps[i].name@ == k,
        forall|i: int|
            0 <= i < deps.len() && !a.contains_key(#[trigger] deps[i].name@) && (forall|j: int|
                0 <= j < i ==> #[trigger] deps[j].name@ != deps[i].name@) ==> add_missing(
                a,
                deps,
            )[deps[i].name@] == AttrView::Str(deps[i].req@),
    decreases deps.len(),
{
    if deps.len() > 0 {
        let p = deps.drop_last();
        lemma_add_missing(a, p);
        assert forall|k: Seq<char>| a.contains_key(k) implies #[trigger] add_missing(a, deps).contains_key(k)
            && add_missing(a, deps)[k] == a[k] by {
            assert(add_missing(a, p).contains_key(k));
        }
        assert forall|i: int| 0 <= i < deps.len() implies add_missing(a, deps).contains_key(
            #[trigger] deps[i].name@,
        ) by {
            if i < deps.len() - 1 {
                assert(p[i] == deps[i]);
            }
        }
        assert forall|k: Seq<char>| #[trigger]
            add_missing(a, deps).contains_key(k) implies a.contains_key(k) || exists|i: int|
            0 <= i < deps.len() && #[trigger] deps[i].name@ == k by {
            if add_missing(a, p).contains_key(k) && !a.contains_key(k) {
                let i = choose|i: int| 0 <= i < p.len() && #[trigger] p[i].name@ == k;
                assert(deps[i] == p[i]);
            } else if !a.contains_key(k) {
                assert(deps[deps.len() - 1].name@ == k);
            }
        }
        assert forall|i: int|
            0 <= i < deps.len() && !a.contains_key(#[trigger] deps[i].name@) && (forall|j: int|
                0 <= j < i ==> #[trigger] deps[j].name@ != deps[i].name@) implies add_missing(
            a,
            deps,
        )[deps[i].name@] == AttrView::Str(deps[i].req@) by {
            if i < deps.len() - 1 {
                assert(p[i] == deps[i]);
                assert(deps[deps.len() - 1].name@ != deps[i].name@ || add_missing(a, p).contains_key(deps[i].name@));
            } else {
                if add_missing(a, p).contains_key(deps[i].name@) {
                    let j = choose|j: int| 0 <= j < p.len() && #[trigger] p[j].name@ == deps[i].name@;
                    assert(deps[j] == p[j]);
                }
            }
        }
    }
}

/// Makes sure the root document has a `[workspace.dependencies]` table and
/// adds to it, as a plain requirement string, each qualifying dependency that
/// it does not hold yet. An entry already there is never changed. Returns
/// whether any entry was inserted.
pub fn apply_root(doc: &mut toml_edit::DocumentMut, deps: &Vec<QualifyingDependency>) -> (r: Result<bool, ManifestError>)
    ensures
        match r {
            Ok(modified) => {
                &&& root_schema_ok(doc_view(*old(doc)))
                &&& doc_view(*final(doc)) == root_rewrite(doc_view(*old(doc)), deps@)
                &&& modified <==> root_inserts(doc_view(*old(doc)), deps@)
            },
            Err(e) => {
                &&& !root_schema_ok(doc_view(*old(doc)))
                &&& e matches ManifestError::Schema { key }
                &&& key@ == if top_state_of(doc_view(*old(doc)), workspace_key()) == TableState::NotTable {
                    "workspace"@
                } else {
                    "workspace.dependencies"@
                }
            },
        },
{
    let ghost v = doc_view(*doc);
    match top_state(doc, "workspace") {
        TableState::NotTable => {
            return Err(ManifestError::Schema { key: "workspace".to_string() });
        },
        TableState::Absent => {
            insert_top_table(doc, "workspace");
        },
        TableState::Table => {},
    }
    match entry_state(doc, "workspace", "dependencies") {
        EntryState::Absent => {
            insert_entry_table(doc, "workspace", "dependencies");
        },
        EntryState::Block => {},
        _ => {
            return Err(ManifestError::Schema { key: "workspace.dependencies".to_string() });
        },
    }
    let ghost v2 = doc_view(*doc);
    assert(v2 == with_shared_table(v));
    let loc = AttrSetLoc {
        table: "workspace".to_string(),
        name: "dependencies".to_string(),
        element: None,
    };
    let ghost a2 = shared_table(v);
    proof {
        lemma_put_attrs(v2, workspace_key(), dependencies_key(), None, a2, a2);
        assert(deps@.subrange(0, 0) =~= Seq::<QualifyingDependency>::empty());
    }
    let mut modified = false;
    let mut i: usize = 0;
    while i < deps.len()
        invariant
            i <= deps@.len(),
            v2 == with_shared_table(v),
            a2 == shared_table(v),
            attrs_in(v2, workspace_key(), dependencies_key(), None) == Some(a2),
            loc.table@ == workspace_key(),
            loc.name@ == dependencies_key(),
            loc.element is None,
            doc_view(*doc) == put_attrs_in(v2, workspace_key(), dependencies_key(), None,
                add_missing(a2, deps@.subrange(0, i as int))),
            modified <==> exists|j: int| 0 <= j < i && !a2.contains_key(#[trigger] deps@[j].name@),
        decreases deps@.len() - i,
    {
        let d = &deps[i];
        let ghost cur = add_missing(a2, deps@.subrange(0, i as int));
        let ghost nxt = add_missing(a2, deps@.subrange(0, i as int + 1));
        proof {
            lemma_put_attrs(v2, workspace_key(), dependencies_key(), None, cur, nxt);
            assert(deps@.subrange(0, i as int + 1).drop_last() =~= deps@.subrange(0, i as int));
            lemma_add_missing(a2, deps@.subrange(0, i as int));
        }
        match attr_state(doc, &loc, &d.name) {
            AttrState::Absent => {
                set_attr(doc, &loc, &d.name, &AttrValue::Str(d.req.clone()));
                proof {
                    let w = doc_view(*doc);
                    assert(attrs_in(w, workspace_key(), dependencies_key(), None) == Some(nxt));
                    assert(!a2.contains_key(deps@[i as int].name@));
                }
                modified = true;
            },
            _ => {
                proof {
                    if !a2.contains_key(d.name@) {
                        let j = choose|j: int| 0 <= j < i && #[trigger] deps@.subrange(0, i as int)[j].name@ == d.name@;
                        assert(deps@.subrange(0, i as int)[j] == deps@[j]);
                    }
                }
            },
        }
        assert(modified <==> exists|j: int| 0 <= j < i + 1 && !a2.contains_key(#[trigger] deps@[j].name@));
        i = i + 1;
    }
    assert(deps@.subrange(0, deps@.len() as int) =~= deps@);
    Ok(modified)
}

} // verus!
