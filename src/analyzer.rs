use vstd::prelude::*;
use crate::inventory::{
    all_occurrences, count_of, first_req, is_qualifying_set, is_selection, registry_occurrences,
    DeclaredDependency, ModuleDescriptor, Occurrence, QualifyingDependency, SourceKind,
};

verus! {

/// Running tally of one dependency name during the scan.
struct Tally {
    name: String,
    req: String,
    count: u32,
}

/// The tallies describe the occurrences `occ` seen so far.
spec fn tallies_match(tallies: Seq<Tally>, occ: Seq<Occurrence>, threshold: nat) -> bool {
    &&& forall|k: int|
        0 <= k < tallies.len() ==> {
            &&& count_of(occ, #[trigger] tallies[k].name@) > 0
            &&& tallies[k].count as nat == if count_of(occ, tallies[k].name@) < threshold {
                count_of(occ, tallies[k].name@)
            } else {
                threshold
            }
            &&& tallies[k].req@ == first_req(occ, tallies[k].name@)
        }
    &&& forall|k: int, l: int|
        0 <= k < l < tallies.len() ==> #[trigger] tallies[k].name@ != #[trigger] tallies[l].name@
    &&& forall|name: Seq<char>|
        count_of(occ, name) > 0 ==> exists|k: int|
            0 <= k < tallies.len() && #[trigger] tallies[k].name@ == name
}

pub(crate) proof fn lemma_count_push(occ: Seq<Occurrence>, o: Occurrence)
    ensures
        forall|x: Seq<char>|
            #[trigger] count_of(occ.push(o), x) == count_of(occ, x) + if o.0 == x {
                1nat
            } else {
                0nat
            },
        forall|x: Seq<char>|
            #[trigger] first_req(occ.push(o), x) == if count_of(occ, x) > 0 {
                first_req(occ, x)
            } else {
                o.1
            },
{
    assert(occ.push(o).drop_last() =~= occ);
}

proof fn lemma_all_occurrences_step(mods: Seq<ModuleDescriptor>, i: int)
    requires
        0 <= i < mods.len(),
    ensures
        all_occurrences(mods.subrange(0, i + 1)) == all_occurrences(mods.subrange(0, i))
            + registry_occurrences(mods[i].dependencies@),
{
    assert(mods.subrange(0, i + 1).drop_last() =~= mods.subrange(0, i));
}

pub(crate) proof fn lemma_registry_step(deps: Seq<DeclaredDependency>, j: int)
    requires
        0 <= j < deps.len(),
    ensures
        registry_occurrences(deps.subrange(0, j + 1)) == if deps[j].source
            == SourceKind::Registry {
            registry_occurrences(deps.subrange(0, j)).push((deps[j].name@, deps[j].req@))
        } else {
            registry_occurrences(deps.subrange(0, j))
        },
{
    assert(deps.subrange(0, j + 1).drop_last() =~= deps.subrange(0, j));
}

/// Position of the tally for `name`, if there is one.
fn find_tally(tallies: &Vec<Tally>, name: &String) -> (r: Option<usize>)
    ensures
        match r {
            Some(k) => k < tallies@.len() && tallies@[k as int].name@ == name@,
            None => forall|k: int| 0 <= k < tallies@.len() ==> tallies@[k].name@ != name@,
        },
{
    let mut k: usize = 0;
    while k < tallies.len()
        invariant
            k <= tallies@.len(),
            forall|l: int| 0 <= l < k ==> tallies@[l].name@ != name@,
        decreases tallies@.len() - k,
    {
        if tallies[k].name == *name {
            return Some(k);
        }
        k = k + 1;
    }
    None
}

/// Counts each registry dependency across the modules, scanned in order, and
/// returns those that occur at least `threshold` times, each with the
/// requirement of its first occurrence. Local-path and other non-registry
/// declarations are never counted.
pub fn find_common_dependencies(modules: &Vec<ModuleDescriptor>, threshold: u32) -> (r: Vec<
    QualifyingDependency,
>)
    requires
        threshold >= 1,
    ensures
        is_qualifying_set(modules@, threshold as nat, r@),
{
    let mut tallies: Vec<Tally> = Vec::new();
    let mut i: usize = 0;
    while i < modules.len()
        invariant
            i <= modules@.len(),
            threshold >= 1,
            tallies_match(tallies@, all_occurrences(modules@.subrange(0, i as int)), threshold as nat),
        decreases modules@.len() - i,
    {
        let deps = &modules[i].dependencies;
        let ghost before = all_occurrences(modules@.subrange(0, i as int));
        let mut j: usize = 0;
        assert(deps@.subrange(0, 0) =~= Seq::<DeclaredDependency>::empty());
        assert(before + Seq::<Occurrence>::empty() =~= before);
        while j < deps.len()
            invariant
                i < modules@.len(),
                deps == &modules@[i as int].dependencies,
                j <= deps@.len(),
                threshold >= 1,
                tallies_match(
                    tallies@,
                    before + registry_occurrences(deps@.subrange(0, j as int)),
                    threshold as nat,
                ),
            decreases deps@.len() - j,
        {
            let d = &deps[j];
            let ghost occ = before + registry_occurrences(deps@.subrange(0, j as int));
            proof {
                lemma_registry_step(deps@, j as int);
            }
            if d.source == SourceKind::Registry {
                record(&mut tallies, &d.name, &d.req, threshold, Ghost(occ));
                assert(before + registry_occurrences(deps@.subrange(0, j as int)).push(
                    (d.name@, d.req@),
                ) =~= occ.push((d.name@, d.req@)));
            }
            j = j + 1;
        }
        proof {
            lemma_all_occurrences_step(modules@, i as int);
            assert(deps@.subrange(0, deps@.len() as int) =~= deps@);
        }
        i = i + 1;
    }
    assert(modules@.subrange(0, modules@.len() as int) =~= modules@);
    select(&tallies, threshold, Ghost(all_occurrences(modules@)))
}

/// Adds one registry occurrence `(name, req)` to the tallies.
fn record(tallies: &mut Vec<Tally>, name: &String, req: &String, threshold: u32, Ghost(occ): Ghost<Seq<Occurrence>>)
    requires
        threshold >= 1,
        tallies_match(old(tallies)@, occ, threshold as nat),
    ensures
        tallies_match(final(tallies)@, occ.push((name@, req@)), threshold as nat),
{
    let ghost o: Occurrence = (name@, req@);
    let ghost before = tallies@;
    proof {
        lemma_count_push(occ, o);
    }
    match find_tally(tallies, name) {
        Some(k) => {
            let c = tallies[k].count;
            if c < threshold {
                let kept_req = tallies[k].req.clone();
                let kept_name = tallies[k].name.clone();
                tallies.set(k, Tally { name: kept_name, req: kept_req, count: c + 1 });
            }
            assert forall|l: int| 0 <= l < tallies@.len() implies #[trigger] tallies@[l].name@ == before[l].name@ by {}
            assert forall|x: Seq<char>| count_of(occ.push(o), x) > 0 implies exists|l: int|
                0 <= l < tallies@.len() && #[trigger] tallies@[l].name@ == x by {
                let l = choose|l: int| 0 <= l < before.len() && #[trigger] before[l].name@ == x;
                assert(tallies@[l].name@ == x);
            }
        },
        None => {
            tallies.push(Tally { name: name.clone(), req: req.clone(), count: 1 });
            assert forall|l: int| 0 <= l < before.len() implies #[trigger] tallies@[l].name@ == before[l].name@ by {}
            assert forall|x: Seq<char>| count_of(occ.push(o), x) > 0 implies exists|l: int|
                0 <= l < tallies@.len() && #[trigger] tallies@[l].name@ == x by {
                if count_of(occ, x) > 0 {
                    let l = choose|l: int| 0 <= l < before.len() && #[trigger] before[l].name@ == x;
                    assert(tallies@[l].name@ == x);
                } else {
                    assert(tallies@[before.len() as int].name@ == x);
                }
            }
        },
    }
}

/// The tallies that reached the threshold, as the qualifying list.
fn select(tallies: &Vec<Tally>, threshold: u32, Ghost(occ): Ghost<Seq<Occurrence>>) -> (r: Vec<QualifyingDependency>)
    requires
        threshold >= 1,
        tallies_match(tallies@, occ, threshold as nat),
    ensures
        is_selection(occ, threshold as nat, r@),
{
    let mut r: Vec<QualifyingDependency> = Vec::new();
    let ghost mut src: Seq<int> = Seq::empty();
    let mut k: usize = 0;
    while k < tallies.len()
        invariant
            k <= tallies@.len(),
            threshold >= 1,
            tallies_match(tallies@, occ, threshold as nat),
            src.len() == r@.len(),
            forall|i: int|
                0 <= i < r@.len() ==> {
                    &&& 0 <= #[trigger] src[i] < k
                    &&& tallies@[src[i]].name@ == r@[i].name@
                    &&& tallies@[src[i]].req@ == r@[i].req@
                    &&& tallies@[src[i]].count == threshold
                },
            forall|i: int, j: int| 0 <= i < j < r@.len() ==> #[trigger] src[i] < #[trigger] src[j],
            forall|l: int|
                0 <= l < k && tallies@[l].count == threshold ==> exists|i: int|
                    0 <= i < r@.len() && #[trigger] src[i] == l,
        decreases tallies@.len() - k,
    {
        if tallies[k].count == threshold {
            let ghost r0 = r@;
            let ghost s0 = src;
            r.push(QualifyingDependency { name: tallies[k].name.clone(), req: tallies[k].req.clone() });
            proof {
                src = src.push(k as int);
                assert forall|l: int| 0 <= l < k + 1 && tallies@[l].count == threshold implies exists|i: int|
                        0 <= i < r@.len() && #[trigger] src[i] == l by {
                    if l < k {
                        let i = choose|i: int| 0 <= i < r0.len() && #[trigger] s0[i] == l;
                        assert(src[i] == l);
                    } else {
                        assert(src[r0.len() as int] == l);
                    }
                }
            }
        }
        k = k + 1;
    }
    assert forall|i: int, j: int| 0 <= i < j < r@.len() implies #[trigger] r@[i].name@ != #[trigger] r@[j].name@ by {
        assert(src[i] < src[j]);
    }
    assert forall|i: int| 0 <= i < r@.len() implies {
        &&& count_of(occ, #[trigger] r@[i].name@) >= threshold
        &&& r@[i].req@ == first_req(occ, r@[i].name@)
    } by {
        let l = src[i];
        assert(tallies@[l].name@ == r@[i].name@);
    }
    assert forall|name: Seq<char>| #[trigger] count_of(occ, name) >= threshold implies exists|i: int|
            0 <= i < r@.len() && #[trigger] r@[i].name@ == name by {
        let l = choose|l: int| 0 <= l < tallies@.len() && #[trigger] tallies@[l].name@ == name;
        assert(tallies@[l].count == threshold);
        let i = choose|i: int| 0 <= i < r@.len() && #[trigger] src[i] == l;
        assert(r@[i].name@ == name);
    }
    r
}

} // verus!
