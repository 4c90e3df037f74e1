//! Turns each qualifying dependency of a member manifest into a delegation to
//! the shared table: `workspace = true`, without a local `version`.
use vstd::prelude::*;
use crate::document::{
    attr_state, attrs_at, entry_of, entry_state, lemma_put_attrs, lemma_put_entry, put_attrs_in,
    put_entry, remove_attr, replace_with_flag, set_attr, table_of, top_state, top_state_of,
    doc_view, AttrSetLoc, AttrState, AttrValue, AttrView, Attrs, DocView, EntryState, EntryView,
    TableState, TopView,
};
use crate::error::ManifestError;
use crate::inventory::{names_of, QualifyingDependency};

verus! {

pub open spec fn version_key() -> Seq<char> {
    "version"@
}

pub open spec fn marker_key() -> Seq<char> {
    "workspace"@
}

pub open spec fn path_key() -> Seq<char> {
    "path"@
}

/// An attribute set that points at a local path.
pub open spec fn is_local(a: Attrs) -> bool {
    a.contains_key(path_key())
}

/// The attribute set can be rewritten: it is local, or its marker, if any, is
/// a boolean.
pub open spec fn attrs_ok(a: Attrs) -> bool {
    is_local(a) || !a.contains_key(marker_key()) || a[marker_key()] is Bool
}

/// An attribute set after the rewrite: without `version`, with
/// `workspace = true`, every other attribute kept. Local ones stay as they are.
pub open spec fn rewrite_attrs(a: Attrs) -> Attrs {
    if is_local(a) {
        a
    } else {
        a.remove(version_key()).insert(marker_key(), AttrView::Bool(true))
    }
}

/// Every block of a list of blocks can be rewritten.
pub open spec fn blocks_ok(s: Seq<Attrs>) -> bool {
    forall|i: int| 0 <= i < s.len() ==> attrs_ok(#[trigger] s[i])
}

/// The entry has a shape that the rewrite accepts.
pub open spec fn entry_ok(e: EntryView) -> bool {
    match e {
        EntryView::VersionString(_) => true,
        EntryView::Inline(a) => attrs_ok(a),
        EntryView::Block(a) => attrs_ok(a),
        EntryView::TargetList(s) => blocks_ok(s),
        EntryView::Other(_) => false,
    }
}

/// A dependency entry after the rewrite.
pub open spec fn rewrite_entry(e: EntryView) -> EntryView {
    match e {
        EntryView::VersionString(_) => EntryView::Inline(
            Map::empty().insert(marker_key(), AttrView::Bool(true)),
        ),
        EntryView::Inline(a) => EntryView::Inline(rewrite_attrs(a)),
        EntryView::Block(a) => EntryView::Block(rewrite_attrs(a)),
        EntryView::TargetList(s) => EntryView::TargetList(s.map_values(|a: Attrs| rewrite_attrs(a))),
        EntryView::Other(x) => EntryView::Other(x),
    }
}

/// A dependency table after the rewrite of the entries named in `names`.
pub open spec fn rewrite_table(m: Map<Seq<char>, EntryView>, names: Set<Seq<char>>) -> Map<Seq<char>, EntryView> {
    Map::new(|k: Seq<char>| m.contains_key(k), |k: Seq<char>| if names.contains(k) {
        rewrite_entry(m[k])
    } else {
        m[k]
    })
}

/// Every entry of table `key` named in `names` has an accepted shape.
pub open spec fn table_ok(v: DocView, key: Seq<char>, names: Set<Seq<char>>) -> bool {
    top_state_of(v, key) == TableState::Table ==> forall|n: Seq<char>|
        names.contains(n) && #[trigger] table_of(v, key).contains_key(n) ==> entry_ok(table_of(v, key)[n])
}

/// `v` after the rewrite of its table `key`, where it has one.
pub open spec fn rewrite_step(v: DocView, key: Seq<char>, names: Set<Seq<char>>) -> DocView {
    if top_state_of(v, key) == TableState::Table {
        v.insert(key, TopView::Table(rewrite_table(table_of(v, key), names)))
    } else {
        v
    }
}

/// The dependency-bearing tables of a member manifest, in the order processed.
pub open spec fn dep_table_keys() -> Seq<Seq<char>> {
    seq!["dependencies"@, "dev-dependencies"@, "build-dependencies"@]
}

/// None of the dependency-bearing keys holds something other than a table.
pub open spec fn member_schema_ok(v: DocView) -> bool {
    forall|i: int| 0 <= i < 3 ==> top_state_of(v, #[trigger] dep_table_keys()[i]) != TableState::NotTable
}

/// Every qualifying entry of every dependency-bearing table has an accepted shape.
pub open spec fn member_decls_ok(v: DocView, names: Set<Seq<char>>) -> bool {
    forall|i: int| 0 <= i < 3 ==> table_ok(v, #[trigger] dep_table_keys()[i], names)
}

/// The member document after the rewrite.
pub open spec fn member_rewrite(v: DocView, names: Set<Seq<char>>) -> DocView {
    rewrite_step(
        rewrite_step(rewrite_step(v, dep_table_keys()[0], names), dep_table_keys()[1], names),
        dep_table_keys()[2],
        names,
    )
}

pub(crate) proof fn lemma_keys_distinct()
    ensures
        version_key() != marker_key(),
        path_key() != marker_key(),
        path_key() != version_key(),
        dep_table_keys()[0] != dep_table_keys()[1],
        dep_table_keys()[0] != dep_table_keys()[2],
        dep_table_keys()[1] != dep_table_keys()[2],
{
    reveal_strlit("version");
    reveal_strlit("workspace");
    reveal_strlit("path");
    reveal_strlit("dependencies");
    reveal_strlit("dev-dependencies");
    reveal_strlit("build-dependencies");
    assert(version_key()[0] != marker_key()[0]);
    assert(path_key()[0] != marker_key()[0]);
    assert(path_key()[0] != version_key()[0]);
    assert(dep_table_keys()[0].len() != dep_table_keys()[1].len());
    assert(dep_table_keys()[0].len() != dep_table_keys()[2].len());
    assert(dep_table_keys()[1].len() != dep_table_keys()[2].len());
}

/// The rewrite of an attribute set is accepted, is a fixed point, and
/// modifies nothing when applied again.
proof fn lemma_rewrite_attrs(a: Attrs)
    ensures
        rewrite_attrs(rewrite_attrs(a)) == rewrite_attrs(a),
        attrs_ok(rewrite_attrs(a)),
        !attrs_flag(rewrite_attrs(a)),
{
    lemma_keys_distinct();
    if !is_local(a) {
        let r = rewrite_attrs(a);
        assert(!is_local(r));
        assert(r.remove(version_key()).insert(marker_key(), AttrView::Bool(true)) =~= r);
    }
}

pub open spec fn attr_state_of_marker(a: Attrs) -> AttrState {
    crate::document::attr_state_of(a, marker_key())
}

/// Rewriting the attribute set inserts the marker or flips it to true.
pub open spec fn attrs_flag(a: Attrs) -> bool {
    !is_local(a) && attr_state_of_marker(a) != AttrState::Bool(true)
}

/// Some block of a list of blocks gets its marker inserted or flipped.
pub open spec fn blocks_flag(s: Seq<Attrs>) -> bool {
    exists|i: int| 0 <= i < s.len() && attrs_flag(#[trigger] s[i])
}

/// Rewriting the entry counts as a modification: a bare requirement is
/// replaced, or a marker is inserted or flipped to true. Dropping `version`
/// alone does not count.
pub open spec fn entry_flag(e: EntryView) -> bool {
    match e {
        EntryView::VersionString(_) => true,
        EntryView::Inline(a) => attrs_flag(a),
        EntryView::Block(a) => attrs_flag(a),
        EntryView::TargetList(s) => blocks_flag(s),
        EntryView::Other(_) => false,
    }
}

/// Some entry of `m` named in `names` counts as a modification.
pub open spec fn flag_among(m: Map<Seq<char>, EntryView>, names: Set<Seq<char>>) -> bool {
    exists|n: Seq<char>| names.contains(n) && #[trigger] m.contains_key(n) && entry_flag(m[n])
}

/// Some entry of table `key` named in `names` counts as a modification.
pub open spec fn table_flag(v: DocView, key: Seq<char>, names: Set<Seq<char>>) -> bool {
    top_state_of(v, key) == TableState::Table && flag_among(table_of(v, key), names)
}

/// The member rewrite counts as a modification in some dependency table.
pub open spec fn member_flag(v: DocView, names: Set<Seq<char>>) -> bool {
    ||| table_flag(v, dep_table_keys()[0], names)
    ||| table_flag(v, dep_table_keys()[1], names)
    ||| table_flag(v, dep_table_keys()[2], names)
}

/// `name` is named in `names` and is an entry, of a shape that the rewrite
/// does not accept, of one of the dependency-bearing tables of `v`.
pub open spec fn malformed_in(v: DocView, names: Set<Seq<char>>, name: Seq<char>) -> bool {
    &&& names.contains(name)
    &&& exists|i: int|
        0 <= i < 3 && top_state_of(v, #[trigger] dep_table_keys()[i]) == TableState::Table
            && table_of(v, dep_table_keys()[i]).contains_key(name)
            && !entry_ok(table_of(v, dep_table_keys()[i])[name])
}

/// Rewrites the attribute set at `loc`, which belongs to entry `name`.
fn rewrite_attr_set(doc: &mut toml_edit::DocumentMut, loc: &AttrSetLoc, name: &String) -> (r: Result<bool, ManifestError>)
    requires
        attrs_at(doc_view(*old(doc)), *loc) is Some,
    ensures
        ({
            let v = doc_view(*old(doc));
            let a = attrs_at(v, *loc)->Some_0;
            match r {
                Ok(changed) => {
                    &&& attrs_ok(a)
                    &&& doc_view(*final(doc)) == put_attrs_in(v, loc.table@, loc.name@, loc.element, rewrite_attrs(a))
                    &&& changed <==> attrs_flag(a)
                },
                Err(e) => {
                    &&& !attrs_ok(a)
                    &&& e matches ManifestError::MalformedDeclaration { name: n }
                    &&& n@ == name@
                },
            }
        }),
{
    let ghost v = doc_view(*doc);
    let ghost a = attrs_at(v, *loc)->Some_0;
    proof {
        lemma_rewrite_attrs(a);
        lemma_put_attrs(v, loc.table@, loc.name@, loc.element, a, a);
    }
    if attr_state(doc, loc, "path") != AttrState::Absent {
        return Ok(false);
    }
    let marker = attr_state(doc, loc, "workspace");
    if marker == AttrState::Other {
        return Err(ManifestError::MalformedDeclaration { name: name.clone() });
    }
    let mut changed = false;
    let has_version = attr_state(doc, loc, "version") != AttrState::Absent;
    if has_version {
        remove_attr(doc, loc, "version");
        proof {
            lemma_put_attrs(v, loc.table@, loc.name@, loc.element, a.remove(version_key()), a);
        }
    }
    let ghost a1 = if has_version { a.remove(version_key()) } else { a };
    assert(a1 =~= a.remove(version_key()));
    if marker != AttrState::Bool(true) {
        set_attr(doc, loc, "workspace", &AttrValue::Bool(true));
        proof {
            lemma_put_attrs(v, loc.table@, loc.name@, loc.element, a1, rewrite_attrs(a));
        }
        changed = true;
    } else {
        proof {
            lemma_keys_distinct();
            assert(a1.insert(marker_key(), AttrView::Bool(true)) =~= a1);
        }
    }
    Ok(changed)
}

/// The blocks `s` with the first `k` rewritten.
spec fn rewritten_prefix(s: Seq<Attrs>, k: int) -> Seq<Attrs> {
    Seq::new(s.len(), |j: int| if j < k { rewrite_attrs(s[j]) } else { s[j] })
}

/// Rewrites entry `name` of dependency table `table`, if it has one.
fn rewrite_entry_at(doc: &mut toml_edit::DocumentMut, table: &String, name: &String) -> (r: Result<bool, ManifestError>)
    requires
        top_state_of(doc_view(*old(doc)), table@) == TableState::Table,
    ensures
        ({
            let v = doc_view(*old(doc));
            match r {
                Ok(changed) => match entry_of(v, table@, name@) {
                    None => doc_view(*final(doc)) == v && !changed,
                    Some(e) => {
                        &&& entry_ok(e)
                        &&& doc_view(*final(doc)) == put_entry(v, table@, name@, rewrite_entry(e))
                        &&& changed <==> entry_flag(e)
                    },
                },
                Err(err) => {
                    &&& entry_of(v, table@, name@) is Some
                    &&& !entry_ok(entry_of(v, table@, name@)->Some_0)
                    &&& err is MalformedDeclaration
                    &&& err->MalformedDeclaration_name@ == name@
                },
            }
        }),
{
    let ghost v = doc_view(*doc);
    match entry_state(doc, table, name) {
        EntryState::Absent => Ok(false),
        EntryState::VersionString => {
            replace_with_flag(doc, table, name, "workspace");
            Ok(true)
        },
        EntryState::Inline | EntryState::Block => {
            let loc = AttrSetLoc { table: table.clone(), name: name.clone(), element: None };
            let r = rewrite_attr_set(doc, &loc, name);
            proof {
                let e = entry_of(v, table@, name@)->Some_0;
                lemma_put_entry(v, table@, name@, e, e);
            }
            r
        },
        EntryState::TargetList(n) => {
            let ghost s = entry_of(v, table@, name@)->Some_0->TargetList_0;
            let mut changed = false;
            let mut k: usize = 0;
            proof {
                lemma_put_entry(v, table@, name@, EntryView::TargetList(s), EntryView::TargetList(s));
                assert(rewritten_prefix(s, 0) =~= s);
            }
            while k < n
                invariant
                    v == doc_view(*old(doc)),
                    n == s.len(),
                    k <= n,
                    top_state_of(v, table@) == TableState::Table,
                    entry_of(v, table@, name@) == Some(EntryView::TargetList(s)),
                    doc_view(*doc) == put_entry(v, table@, name@, EntryView::TargetList(rewritten_prefix(s, k as int))),
                    forall|j: int| 0 <= j < k ==> attrs_ok(#[trigger] s[j]),
                    changed <==> exists|j: int| 0 <= j < k && attrs_flag(#[trigger] s[j]),
                decreases n - k,
            {
                let loc = AttrSetLoc { table: table.clone(), name: name.clone(), element: Some(k) };
                let ghost p = rewritten_prefix(s, k as int);
                proof {
                    lemma_put_entry(v, table@, name@, EntryView::TargetList(p), EntryView::TargetList(p));
                    assert(p[k as int] == s[k as int]);
                }
                let step = rewrite_attr_set(doc, &loc, name);
                match step {
                    Ok(c) => {
                        proof {
                            assert(p.update(k as int, rewrite_attrs(s[k as int])) =~= rewritten_prefix(s, k + 1));
                            lemma_put_entry(v, table@, name@, EntryView::TargetList(p),
                                EntryView::TargetList(rewritten_prefix(s, k + 1)));
                        }
                        if c {
                            changed = true;
                        }
                    },
                    Err(e) => {
                        assert(!attrs_ok(s[k as int]));
                        assert(!blocks_ok(s));
                        assert(!entry_ok(entry_of(v, table@, name@)->Some_0));
                        return Err(e);
                    },
                }
                k = k + 1;
            }
            proof {
                let q = rewritten_prefix(s, n as int);
                assert(q =~= s.map_values(|a: Attrs| rewrite_attrs(a)));
            }
            Ok(changed)
        },
        EntryState::Other => Err(ManifestError::MalformedDeclaration { name: name.clone() }),
    }
}

/// The rewrite of an accepted entry is accepted and is a fixed point.
pub(crate) proof fn lemma_rewrite_entry(e: EntryView)
    requires
        !(e is Other),
    ensures
        entry_ok(rewrite_entry(e)),
        rewrite_entry(rewrite_entry(e)) == rewrite_entry(e),
        !entry_flag(rewrite_entry(e)),
{
    lemma_keys_distinct();
    match e {
        EntryView::VersionString(_) => {
            let a = Map::<Seq<char>, AttrView>::empty().insert(marker_key(), AttrView::Bool(true));
            lemma_rewrite_attrs(a);
            assert(a.remove(version_key()).insert(marker_key(), AttrView::Bool(true)) =~= a);
        },
        EntryView::Inline(a) => {
            lemma_rewrite_attrs(a);
        },
        EntryView::Block(a) => {
            lemma_rewrite_attrs(a);
        },
        EntryView::TargetList(s) => {
            let r = s.map_values(|a: Attrs| rewrite_attrs(a));
            assert forall|i: int| 0 <= i < r.len() implies attrs_ok(#[trigger] r[i]) && !attrs_flag(r[i]) by {
                lemma_rewrite_attrs(s[i]);
            }
            assert forall|i: int| 0 <= i < r.len() implies #[trigger] rewrite_attrs(r[i]) == r[i] by {
                lemma_rewrite_attrs(s[i]);
            }
            assert(r.map_values(|a: Attrs| rewrite_attrs(a)) =~= r);
        },
        EntryView::Other(_) => {},
    }
}

proof fn lemma_names_step(deps: Seq<QualifyingDependency>, i: int)
    requires
        0 <= i < deps.len(),
    ensures
        names_of(deps.subrange(0, i + 1)) =~= names_of(deps.subrange(0, i)).insert(deps[i].name@),
        names_of(deps.subrange(0, 0)) =~= Set::<Seq<char>>::empty(),
        names_of(deps).contains(deps[i].name@),
{
    let p = deps.subrange(0, i);
    let q = deps.subrange(0, i + 1);
    assert forall|n: Seq<char>| names_of(q).contains(n) implies names_of(p).insert(deps[i].name@).contains(n) by {
        let j = choose|j: int| 0 <= j < q.len() && #[trigger] q[j].name@ == n;
        if j < i {
            assert(p[j] == q[j]);
        }
    }
    assert forall|n: Seq<char>| names_of(p).insert(deps[i].name@).contains(n) implies names_of(q).contains(n) by {
        if n == deps[i].name@ {
            assert(q[i] == deps[i]);
        } else {
            let j = choose|j: int| 0 <= j < p.len() && #[trigger] p[j].name@ == n;
            assert(q[j] == p[j]);
        }
    }
}

/// Rewrites every qualifying entry of dependency table `key`.
fn rewrite_table_at(doc: &mut toml_edit::DocumentMut, key: &String, deps: &Vec<QualifyingDependency>) -> (r: Result<bool, ManifestError>)
    requires
        top_state_of(doc_view(*old(doc)), key@) == TableState::Table,
    ensures
        ({
            let v = doc_view(*old(doc));
            let names = names_of(deps@);
            match r {
                Ok(changed) => {
                    &&& table_ok(v, key@, names)
                    &&& doc_view(*final(doc)) == rewrite_step(v, key@, names)
                    &&& changed <==> table_flag(v, key@, names)
                },
                Err(err) => {
                    &&& !table_ok(v, key@, names)
                    &&& err is MalformedDeclaration
                    &&& names.contains(err->MalformedDeclaration_name@)
                    &&& top_state_of(v, key@) == TableState::Table
                    &&& table_of(v, key@).contains_key(err->MalformedDeclaration_name@)
                    &&& !entry_ok(table_of(v, key@)[err->MalformedDeclaration_name@])
                },
            }
        }),
{
    let ghost v = doc_view(*doc);
    let ghost m0 = table_of(v, key@);
    let mut changed = false;
    let mut i: usize = 0;
    proof {
        if deps@.len() > 0 {
            lemma_names_step(deps@, 0);
        } else {
            assert(names_of(deps@.subrange(0, 0)) =~= Set::<Seq<char>>::empty());
        }
        assert(rewrite_table(m0, Set::empty()) =~= m0);
        assert(!flag_among(m0, Set::empty()));
        assert(v.insert(key@, TopView::Table(m0)) =~= v);
    }
    while i < deps.len()
        invariant
            v == doc_view(*old(doc)),
            m0 == table_of(v, key@),
            top_state_of(v, key@) == TableState::Table,
            i <= deps@.len(),
            doc_view(*doc) == v.insert(key@, TopView::Table(rewrite_table(m0, names_of(deps@.subrange(0, i as int))))),
            forall|n: Seq<char>|
                names_of(deps@.subrange(0, i as int)).contains(n) && #[trigger] m0.contains_key(n) ==> entry_ok(m0[n]),
            changed <==> flag_among(m0, names_of(deps@.subrange(0, i as int))),
        decreases deps@.len() - i,
    {
        let d = &deps[i];
        let ghost cur = doc_view(*doc);
        let ghost ni = names_of(deps@.subrange(0, i as int));
        proof {
            lemma_names_step(deps@, i as int);
            lemma_put_entry(v, key@, d.name@, EntryView::Other(AttrView::Other), EntryView::Other(AttrView::Other));
            assert(top_state_of(cur, key@) == TableState::Table);
            assert(table_of(cur, key@) == rewrite_table(m0, ni));
        }
        let step = rewrite_entry_at(doc, key, &d.name);
        match step {
            Ok(c) => {
                proof {
                    let nm = d.name@;
                    let n1 = ni.insert(nm);
                    if m0.contains_key(nm) {
                        let e0 = m0[nm];
                        let ce = table_of(cur, key@)[nm];
                        if ni.contains(nm) {
                            lemma_rewrite_entry(e0);
                            assert(ce == rewrite_entry(e0));
                            lemma_put_entry(cur, key@, nm, ce, ce);
                            assert(rewrite_table(m0, n1) =~= rewrite_table(m0, ni));
                            assert(n1 =~= ni);
                        } else {
                            if entry_flag(e0) {
                                assert(n1.contains(nm) && m0.contains_key(nm));
                            }
                            if flag_among(m0, ni) {
                                let w = choose|w: Seq<char>| ni.contains(w) && #[trigger] m0.contains_key(w) && entry_flag(m0[w]);
                                assert(n1.contains(w));
                            }
                            if flag_among(m0, n1) && !entry_flag(e0) {
                                let w = choose|w: Seq<char>| n1.contains(w) && #[trigger] m0.contains_key(w) && entry_flag(m0[w]);
                                assert(ni.contains(w));
                            }
                            assert(ce == e0);
                            assert(rewrite_table(m0, n1) =~= rewrite_table(m0, ni).insert(nm, rewrite_entry(e0)));
                            lemma_put_entry(cur, key@, nm, rewrite_entry(e0), rewrite_entry(e0));
                            assert(table_of(doc_view(*doc), key@) =~= rewrite_table(m0, n1));
                            assert(doc_view(*doc) =~= v.insert(key@, TopView::Table(rewrite_table(m0, n1))));
                        }
                    } else {
                        assert(rewrite_table(m0, n1) =~= rewrite_table(m0, ni));
                        if flag_among(m0, ni) {
                            let w = choose|w: Seq<char>| ni.contains(w) && #[trigger] m0.contains_key(w) && entry_flag(m0[w]);
                            assert(n1.contains(w));
                        }
                        if flag_among(m0, n1) {
                            let w = choose|w: Seq<char>| n1.contains(w) && #[trigger] m0.contains_key(w) && entry_flag(m0[w]);
                            assert(ni.contains(w));
                        }
                    }
                }
                if c {
                    changed = true;
                }
            },
            Err(e) => {
                proof {
                    let nm = d.name@;
                    if ni.contains(nm) {
                        lemma_rewrite_entry(m0[nm]);
                    }
                    assert(names_of(deps@).contains(nm));
                    assert(table_of(v, key@).contains_key(nm));
                }
                return Err(e);
            },
        }
        i = i + 1;
    }
    proof {
        assert(deps@.subrange(0, deps@.len() as int) =~= deps@);
        assert forall|n: Seq<char>| names_of(deps@).contains(n) && #[trigger] table_of(v, key@).contains_key(n)
            implies entry_ok(table_of(v, key@)[n]) by {}
    }
    Ok(changed)
}

/// A rewrite step touches only its own table, and changes the document only there.
pub(crate) proof fn lemma_step_frame(v: DocView, k: Seq<char>, names: Set<Seq<char>>)
    ensures
        forall|j: Seq<char>|
            j != k ==> (#[trigger] rewrite_step(v, k, names).contains_key(j) == v.contains_key(j))
                && (v.contains_key(j) ==> rewrite_step(v, k, names)[j] == v[j]),
        forall|j: Seq<char>|
            j != k ==> #[trigger] top_state_of(rewrite_step(v, k, names), j) == top_state_of(v, j)
                && table_of(rewrite_step(v, k, names), j) == table_of(v, j),
        forall|j: Seq<char>|
            j != k ==> (#[trigger] table_ok(rewrite_step(v, k, names), j, names) == table_ok(v, j, names)),
        top_state_of(rewrite_step(v, k, names), k) == top_state_of(v, k),
        rewrite_step(v, k, names) != v ==> v.contains_key(k) && rewrite_step(v, k, names)[k] != v[k],
{
    let w = rewrite_step(v, k, names);
    assert forall|j: Seq<char>| j != k implies (#[trigger] table_ok(w, j, names) == table_ok(v, j, names)) by {
        assert(top_state_of(w, j) == top_state_of(v, j));
        assert(table_of(w, j) == table_of(v, j));
    }
    if top_state_of(v, k) == TableState::Table && rewrite_step(v, k, names) != v {
        if rewrite_step(v, k, names)[k] == v[k] {
            assert(rewrite_step(v, k, names) =~= v);
        }
    }
}

/// Rewrites dependency table `key`, where the document has one.
fn rewrite_if_table(doc: &mut toml_edit::DocumentMut, key: &String, deps: &Vec<QualifyingDependency>) -> (r: Result<bool, ManifestError>)
    requires
        top_state_of(doc_view(*old(doc)), key@) != TableState::NotTable,
    ensures
        ({
            let v = doc_view(*old(doc));
            let names = names_of(deps@);
            match r {
                Ok(changed) => {
                    &&& table_ok(v, key@, names)
                    &&& doc_view(*final(doc)) == rewrite_step(v, key@, names)
                    &&& changed <==> table_flag(v, key@, names)
                },
                Err(err) => {
                    &&& !table_ok(v, key@, names)
                    &&& err is MalformedDeclaration
                    &&& names.contains(err->MalformedDeclaration_name@)
                    &&& top_state_of(v, key@) == TableState::Table
                    &&& table_of(v, key@).contains_key(err->MalformedDeclaration_name@)
                    &&& !entry_ok(table_of(v, key@)[err->MalformedDeclaration_name@])
                },
            }
        }),
{
    if top_state(doc, key) == TableState::Table {
        rewrite_table_at(doc, key, deps)
    } else {
        Ok(false)
    }
}

/// Turns every entry of `dependencies`, `dev-dependencies` and
/// `build-dependencies` that is named in `deps` into a delegation to the
/// shared table: a bare requirement becomes `{ workspace = true }`; an
/// attribute set loses `version` and gains `workspace = true`, keeping all
/// else; each block of a list of blocks is treated alike. Entries that point
/// at a local path, and names not in `deps`, stay as they are. A
/// dependency-bearing key that is not a table fails before anything changes.
/// Returns whether an entry was modified in the sense of `entry_flag`: a
/// bare requirement replaced, or a marker inserted or flipped to true.
pub fn apply_member(doc: &mut toml_edit::DocumentMut, deps: &Vec<QualifyingDependency>) -> (r: Result<bool, ManifestError>)
    ensures
        ({
            let v = doc_view(*old(doc));
            let names = names_of(deps@);
            match r {
                Ok(modified) => {
                    &&& member_schema_ok(v)
                    &&& member_decls_ok(v, names)
                    &&& doc_view(*final(doc)) == member_rewrite(v, names)
                    &&& modified <==> member_flag(v, names)
                },
                Err(err) => match err {
                    ManifestError::Schema { key } => {
                        &&& !member_schema_ok(v)
                        &&& doc_view(*final(doc)) == v
                        &&& exists|i: int|
                            0 <= i < 3 && #[trigger] dep_table_keys()[i] == key@
                                && top_state_of(v, key@) == TableState::NotTable
                    },
                    ManifestError::MalformedDeclaration { name } => {
                        &&& member_schema_ok(v)
                        &&& !member_decls_ok(v, names)
                        &&& malformed_in(v, names, name@)
                    },
                    ManifestError::Parse(_) => false,
                },
            }
        }),
{
    let ghost v = doc_view(*doc);
    let ghost names = names_of(deps@);
    let keys: Vec<String> = vec![
        "dependencies".to_string(),
        "dev-dependencies".to_string(),
        "build-dependencies".to_string(),
    ];
    assert(keys@.len() == 3);
    let mut i: usize = 0;
    while i < 3
        invariant
            keys@.len() == 3,
            forall|j: int| 0 <= j < 3 ==> #[trigger] keys@[j]@ == dep_table_keys()[j],
            i <= 3,
            forall|j: int| 0 <= j < i ==> top_state_of(v, #[trigger] dep_table_keys()[j]) != TableState::NotTable,
            doc_view(*doc) == v,
        decreases 3 - i,
    {
        if top_state(doc, &keys[i]) == TableState::NotTable {
            return Err(ManifestError::Schema { key: keys[i].clone() });
        }
        i = i + 1;
    }
    proof {
        lemma_keys_distinct();
    }
    let ghost v0 = doc_view(*doc);
    let c0 = match rewrite_if_table(doc, &keys[0], deps) {
        Ok(c) => c,
        Err(e) => {
            return Err(e);
        },
    };
    let ghost v1 = doc_view(*doc);
    proof {
        lemma_step_frame(v0, dep_table_keys()[0], names);
    }
    let c1 = match rewrite_if_table(doc, &keys[1], deps) {
        Ok(c) => c,
        Err(e) => {
            assert(table_of(v1, dep_table_keys()[1]) == table_of(v, dep_table_keys()[1]));
            assert(top_state_of(v, dep_table_keys()[1]) == TableState::Table);
            return Err(e);
        },
    };
    let ghost v2 = doc_view(*doc);
    proof {
        lemma_step_frame(v1, dep_table_keys()[1], names);
    }
    let c2 = match rewrite_if_table(doc, &keys[2], deps) {
        Ok(c) => c,
        Err(e) => {
            proof {
                lemma_step_frame(v0, dep_table_keys()[0], names);
            }
            assert(table_of(v2, dep_table_keys()[2]) == table_of(v, dep_table_keys()[2]));
            assert(top_state_of(v, dep_table_keys()[2]) == TableState::Table);
            return Err(e);
        },
    };
    proof {
        let v3 = doc_view(*doc);
        lemma_step_frame(v2, dep_table_keys()[2], names);
        let k0 = dep_table_keys()[0];
        let k1 = dep_table_keys()[1];
        let k2 = dep_table_keys()[2];
        assert(table_ok(v, k0, names) && table_ok(v, k1, names) && table_ok(v, k2, names));
        assert(table_flag(v1, k1, names) == table_flag(v, k1, names));
        assert(table_flag(v2, k2, names) == table_flag(v, k2, names));
    }
    Ok(c0 || c1 || c2)
}

} // verus!
