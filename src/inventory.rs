use vstd::prelude::*;

verus! {

/// Where a declared dependency comes from.
#[derive(Clone, Copy, Debug, PartialEq, Eq, Structural)]
pub enum SourceKind {
    Registry,
    LocalPath,
    Other,
}

/// One dependency as a module declares it.
#[derive(Clone, Debug)]
pub struct DeclaredDependency {
    pub name: String,
    pub req: String,
    pub source: SourceKind,
}

/// One module of the workspace with its declared dependencies, in order.
#[derive(Clone, Debug)]
pub struct ModuleDescriptor {
    pub id: String,
    pub manifest_path: String,
    pub dependencies: Vec<DeclaredDependency>,
}

/// A dependency that qualifies for consolidation, with its representative
/// version requirement.
#[derive(Clone, Debug)]
pub struct QualifyingDependency {
    pub name: String,
    pub req: String,
}

/// A registry occurrence of a dependency: its name and its requirement.
pub type Occurrence = (Seq<char>, Seq<char>);

/// The registry occurrences among `deps`, in order.
pub open spec fn registry_occurrences(deps: Seq<DeclaredDependency>) -> Seq<Occurrence>
    decreases deps.len(),
{
    if deps.len() == 0 {
        Seq::empty()
    } else {
        let rest = registry_occurrences(deps.drop_last());
        let d = deps.last();
        if d.source == SourceKind::Registry {
            rest.push((d.name@, d.req@))
        } else {
            rest
        }
    }
}

/// The registry occurrences of all modules, scanned in inventory order.
pub open spec fn all_occurrences(mods: Seq<ModuleDescriptor>) -> Seq<Occurrence>
    decreases mods.len(),
{
    if mods.len() == 0 {
        Seq::empty()
    } else {
        all_occurrences(mods.drop_last()) + registry_occurrences(mods.last().dependencies@)
    }
}

/// How many occurrences in `occ` carry the name `name`.
pub open spec fn count_of(occ: Seq<Occurrence>, name: Seq<char>) -> nat
    decreases occ.len(),
{
    if occ.len() == 0 {
        0
    } else {
        count_of(occ.drop_last(), name) + if occ.last().0 == name {
            1nat
        } else {
            0nat
        }
    }
}

/// The requirement of the first occurrence of `name` in `occ` (meaningful
/// when `name` occurs at all).
pub open spec fn first_req(occ: Seq<Occurrence>, name: Seq<char>) -> Seq<char>
    decreases occ.len(),
{
    if occ.len() == 0 {
        Seq::empty()
    } else if count_of(occ.drop_last(), name) > 0 {
        first_req(occ.drop_last(), name)
    } else {
        occ.last().1
    }
}

/// Number of registry declarations of `name` over all modules of `mods`
/// (a module that declares it twice counts twice).
pub open spec fn occurrence_count(mods: Seq<ModuleDescriptor>, name: Seq<char>) -> nat {
    count_of(all_occurrences(mods), name)
}

/// The representative requirement of `name`: that of its first registry
/// occurrence in inventory order.
pub open spec fn representative(mods: Seq<ModuleDescriptor>, name: Seq<char>) -> Seq<char> {
    first_req(all_occurrences(mods), name)
}

/// `result` holds exactly the names that occur at least `threshold` times
/// in `occ`, each once, with the requirement of its first occurrence.
pub open spec fn is_selection(occ: Seq<Occurrence>, threshold: nat, result: Seq<QualifyingDependency>) -> bool {
    &&& forall|i: int|
        0 <= i < result.len() ==> {
            &&& count_of(occ, #[trigger] result[i].name@) >= threshold
            &&& result[i].req@ == first_req(occ, result[i].name@)
        }
    &&& forall|i: int, j: int|
        0 <= i < j < result.len() ==> #[trigger] result[i].name@ != #[trigger] result[j].name@
    &&& forall|name: Seq<char>|
        #[trigger] count_of(occ, name) >= threshold ==> exists|i: int|
            0 <= i < result.len() && #[trigger] result[i].name@ == name
}

/// `result` is exactly the qualifying set of `mods` at `threshold`: each
/// qualifying name once, with its representative requirement.
pub open spec fn is_qualifying_set(
    mods: Seq<ModuleDescriptor>,
    threshold: nat,
    result: Seq<QualifyingDependency>,
) -> bool {
    is_selection(all_occurrences(mods), threshold, result)
}

/// The names of a qualifying list, as a set.
pub open spec fn names_of(deps: Seq<QualifyingDependency>) -> Set<Seq<char>> {
    Set::new(|n: Seq<char>| exists|i: int| 0 <= i < deps.len() && #[trigger] deps[i].name@ == n)
}

} // verus!
