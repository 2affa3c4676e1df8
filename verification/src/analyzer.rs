use vstd::prelude::*;
use crate::format::{
    ContainerFormat, Format, Named, Registry, VariantFormat, views,
};
use crate::Error;

verus! {

// ---------------------------------------------------------------------------
// Reference collection.
//
// A reference stands in a hard-dependency position when the referenced
// container's layout must be known where it occurs: directly, under an
// option, inside a tuple or a fixed array. References strictly inside a
// sequence or an associative container are soft: those containers store
// their elements out of line.
// ---------------------------------------------------------------------------

/// The hard-dependency references of a format, in occurrence order.
pub open spec fn hard_deps_fmt(f: Format) -> Seq<Seq<char>>
    decreases f, 0int,
{
    match f {
        Format::TypeName(x) => seq![x@],
        Format::Option(inner) => hard_deps_fmt(*inner),
        Format::Tuple(inners) => hard_deps_fmts(inners@, 0),
        Format::TupleArray { content, size } => hard_deps_fmt(*content),
        _ => Seq::empty(),
    }
}

pub open spec fn hard_deps_fmts(fs: Seq<Format>, k: int) -> Seq<Seq<char>>
    decreases fs, fs.len() - k,
{
    if k < 0 || k >= fs.len() {
        Seq::empty()
    } else {
        hard_deps_fmt(fs[k]) + hard_deps_fmts(fs, k + 1)
    }
}

/// All references of a format, hard or soft, in occurrence order.
pub open spec fn all_refs_fmt(f: Format) -> Seq<Seq<char>>
    decreases f, 0int,
{
    match f {
        Format::TypeName(x) => seq![x@],
        Format::Option(inner) => all_refs_fmt(*inner),
        Format::Sequence(inner) => all_refs_fmt(*inner),
        Format::Mapping { key, value } => all_refs_fmt(*key) + all_refs_fmt(*value),
        Format::Tuple(inners) => all_refs_fmts(inners@, 0),
        Format::TupleArray { content, size } => all_refs_fmt(*content),
        _ => Seq::empty(),
    }
}

pub open spec fn all_refs_fmts(fs: Seq<Format>, k: int) -> Seq<Seq<char>>
    decreases fs, fs.len() - k,
{
    if k < 0 || k >= fs.len() {
        Seq::empty()
    } else {
        all_refs_fmt(fs[k]) + all_refs_fmts(fs, k + 1)
    }
}

pub open spec fn refs_fields(fields: Seq<Named<Format>>, k: int, hard: bool) -> Seq<Seq<char>>
    decreases fields.len() - k,
{
    if k < 0 || k >= fields.len() {
        Seq::empty()
    } else {
        (if hard {
            hard_deps_fmt(fields[k].value)
        } else {
            all_refs_fmt(fields[k].value)
        }) + refs_fields(fields, k + 1, hard)
    }
}

pub open spec fn refs_variant(v: VariantFormat, hard: bool) -> Seq<Seq<char>> {
    match v {
        VariantFormat::Unit => Seq::empty(),
        VariantFormat::NewType(inner) => if hard {
            hard_deps_fmt(*inner)
        } else {
            all_refs_fmt(*inner)
        },
        VariantFormat::Tuple(inners) => if hard {
            hard_deps_fmts(inners@, 0)
        } else {
            all_refs_fmts(inners@, 0)
        },
        VariantFormat::Struct(fields) => refs_fields(fields@, 0, hard),
        VariantFormat::Variable => Seq::empty(),
    }
}

pub open spec fn refs_variants(
    entries: Seq<(u32, Named<VariantFormat>)>,
    k: int,
    hard: bool,
) -> Seq<Seq<char>>
    decreases entries.len() - k,
{
    if k < 0 || k >= entries.len() {
        Seq::empty()
    } else {
        refs_variant(entries[k].1.value, hard) + refs_variants(entries, k + 1, hard)
    }
}

/// The references of one container, in occurrence order.
pub open spec fn refs_container(c: ContainerFormat, hard: bool) -> Seq<Seq<char>> {
    match c {
        ContainerFormat::UnitStruct => Seq::empty(),
        ContainerFormat::NewTypeStruct(inner) => if hard {
            hard_deps_fmt(*inner)
        } else {
            all_refs_fmt(*inner)
        },
        ContainerFormat::TupleStruct(inners) => if hard {
            hard_deps_fmts(inners@, 0)
        } else {
            all_refs_fmts(inners@, 0)
        },
        ContainerFormat::Struct(fields) => refs_fields(fields@, 0, hard),
        ContainerFormat::Enum(entries) => refs_variants(entries@, 0, hard),
    }
}

/// The hard-dependency references of one container.
pub open spec fn hard_deps_container(c: ContainerFormat) -> Seq<Seq<char>> {
    refs_container(c, true)
}

/// All references of the registry entries from position `k` on.
pub open spec fn all_refs_registry(entries: Seq<Named<ContainerFormat>>, k: int) -> Seq<Seq<char>>
    decreases entries.len() - k,
{
    if k < 0 || k >= entries.len() {
        Seq::empty()
    } else {
        refs_container(entries[k].value, false) + all_refs_registry(entries, k + 1)
    }
}

fn collect_refs_fmt(f: &Format, hard: bool, out: &mut Vec<String>)
    ensures
        views(final(out)@) == views(old(out)@) + (if hard {
            hard_deps_fmt(*f)
        } else {
            all_refs_fmt(*f)
        }),
    decreases f, 0int,
{
    match f {
        Format::TypeName(x) => {
            out.push(x.clone());
            proof {
                assert(views(final(out)@) =~= views(old(out)@) + seq![x@]);
            }
        },
        Format::Option(inner) => collect_refs_fmt(inner, hard, out),
        Format::Sequence(inner) => {
            if !hard {
                collect_refs_fmt(inner, hard, out);
            } else {
                proof {
                    assert(views(final(out)@) =~= views(old(out)@) + Seq::<Seq<char>>::empty());
                }
            }
        },
        Format::Mapping { key, value } => {
            if !hard {
                collect_refs_fmt(key, hard, out);
                collect_refs_fmt(value, hard, out);
                proof {
                    assert(views(final(out)@) =~= views(old(out)@) + (all_refs_fmt(**key)
                        + all_refs_fmt(**value)));
                }
            } else {
                proof {
                    assert(views(final(out)@) =~= views(old(out)@) + Seq::<Seq<char>>::empty());
                }
            }
        },
        Format::Tuple(inners) => {
            collect_refs_fmts(inners, 0, hard, out);
        },
        Format::TupleArray { content, size } => collect_refs_fmt(content, hard, out),
        _ => {
            proof {
                assert(views(final(out)@) =~= views(old(out)@) + Seq::<Seq<char>>::empty());
            }
        },
    }
}

fn collect_refs_fmts(fs: &Vec<Format>, k: usize, hard: bool, out: &mut Vec<String>)
    requires
        k <= fs@.len(),
    ensures
        views(final(out)@) == views(old(out)@) + (if hard {
            hard_deps_fmts(fs@, k as int)
        } else {
            all_refs_fmts(fs@, k as int)
        }),
    decreases fs@, fs@.len() - k,
{
    if k >= fs.len() {
        proof {
            assert(views(final(out)@) =~= views(old(out)@) + Seq::<Seq<char>>::empty());
        }
    } else {
        collect_refs_fmt(&fs[k], hard, out);
        collect_refs_fmts(fs, k + 1, hard, out);
        proof {
            if hard {
                assert(views(final(out)@) =~= views(old(out)@) + (hard_deps_fmt(fs@[k as int])
                    + hard_deps_fmts(fs@, k as int + 1)));
            } else {
                assert(views(final(out)@) =~= views(old(out)@) + (all_refs_fmt(fs@[k as int])
                    + all_refs_fmts(fs@, k as int + 1)));
            }
        }
    }
}

fn collect_refs_fields(fields: &Vec<Named<Format>>, k: usize, hard: bool, out: &mut Vec<String>)
    requires
        k <= fields@.len(),
    ensures
        views(final(out)@) == views(old(out)@) + refs_fields(fields@, k as int, hard),
    decreases fields@.len() - k,
{
    if k >= fields.len() {
        proof {
            assert(views(final(out)@) =~= views(old(out)@) + Seq::<Seq<char>>::empty());
        }
    } else {
        collect_refs_fmt(&fields[k].value, hard, out);
        collect_refs_fields(fields, k + 1, hard, out);
        proof {
            assert(views(final(out)@) =~= views(old(out)@) + ((if hard {
                hard_deps_fmt(fields@[k as int].value)
            } else {
                all_refs_fmt(fields@[k as int].value)
            }) + refs_fields(fields@, k as int + 1, hard)));
        }
    }
}

fn collect_refs_variant(v: &VariantFormat, hard: bool, out: &mut Vec<String>)
    ensures
        views(final(out)@) == views(old(out)@) + refs_variant(*v, hard),
{
    match v {
        VariantFormat::Unit => {
            proof {
                assert(views(final(out)@) =~= views(old(out)@) + Seq::<Seq<char>>::empty());
            }
        },
        VariantFormat::NewType(inner) => collect_refs_fmt(inner, hard, out),
        VariantFormat::Tuple(inners) => collect_refs_fmts(inners, 0, hard, out),
        VariantFormat::Struct(fields) => collect_refs_fields(fields, 0, hard, out),
        VariantFormat::Variable => {
            proof {
                assert(views(final(out)@) =~= views(old(out)@) + Seq::<Seq<char>>::empty());
            }
        },
    }
}

fn collect_refs_variants(
    entries: &Vec<(u32, Named<VariantFormat>)>,
    k: usize,
    hard: bool,
    out: &mut Vec<String>,
)
    requires
        k <= entries@.len(),
    ensures
        views(final(out)@) == views(old(out)@) + refs_variants(entries@, k as int, hard),
    decreases entries@.len() - k,
{
    if k >= entries.len() {
        proof {
            assert(views(final(out)@) =~= views(old(out)@) + Seq::<Seq<char>>::empty());
        }
    } else {
        collect_refs_variant(&entries[k].1.value, hard, out);
        collect_refs_variants(entries, k + 1, hard, out);
        proof {
            assert(views(final(out)@) =~= views(old(out)@) + (refs_variant(
                entries@[k as int].1.value,
                hard,
            ) + refs_variants(entries@, k as int + 1, hard)));
        }
    }
}

fn collect_refs_container(c: &ContainerFormat, hard: bool, out: &mut Vec<String>)
    ensures
        views(final(out)@) == views(old(out)@) + refs_container(*c, hard),
{
    match c {
        ContainerFormat::UnitStruct => {
            proof {
                assert(views(final(out)@) =~= views(old(out)@) + Seq::<Seq<char>>::empty());
            }
        },
        ContainerFormat::NewTypeStruct(inner) => collect_refs_fmt(inner, hard, out),
        ContainerFormat::TupleStruct(inners) => collect_refs_fmts(inners, 0, hard, out),
        ContainerFormat::Struct(fields) => collect_refs_fields(fields, 0, hard, out),
        ContainerFormat::Enum(entries) => collect_refs_variants(entries, 0, hard, out),
    }
}

fn collect_all_refs_registry(entries: &Vec<Named<ContainerFormat>>, k: usize, out: &mut Vec<String>)
    requires
        k <= entries@.len(),
    ensures
        views(final(out)@) == views(old(out)@) + all_refs_registry(entries@, k as int),
    decreases entries@.len() - k,
{
    if k >= entries.len() {
        proof {
            assert(views(final(out)@) =~= views(old(out)@) + Seq::<Seq<char>>::empty());
        }
    } else {
        collect_refs_container(&entries[k].value, false, out);
        collect_all_refs_registry(entries, k + 1, out);
        proof {
            assert(views(final(out)@) =~= views(old(out)@) + (refs_container(
                entries@[k as int].value,
                false,
            ) + all_refs_registry(entries@, k as int + 1)));
        }
    }
}

// ---------------------------------------------------------------------------
// Reference resolution.
// ---------------------------------------------------------------------------

/// A reference resolves when it names a registry entry or an externally
/// supplied definition.
pub open spec fn resolves(registry: Registry, external: Seq<Seq<char>>, n: Seq<char>) -> bool {
    registry.has_name(n) || external.contains(n)
}

/// The first reference from position `k` on that does not resolve.
pub open spec fn first_unresolved(
    refs: Seq<Seq<char>>,
    registry: Registry,
    external: Seq<Seq<char>>,
    k: int,
) -> Option<Seq<char>>
    decreases refs.len() - k,
{
    if k < 0 || k >= refs.len() {
        None
    } else if !resolves(registry, external, refs[k]) {
        Some(refs[k])
    } else {
        first_unresolved(refs, registry, external, k + 1)
    }
}

/// The first reference anywhere in the registry, in registry order, that
/// resolves to neither the registry nor the external definitions.
pub open spec fn first_dangling(registry: Registry, external: Seq<Seq<char>>) -> Option<Seq<char>> {
    first_unresolved(all_refs_registry(registry.entries@, 0), registry, external, 0)
}

pub(crate) fn registry_has_name(registry: &Registry, n: &String) -> (r: bool)
    ensures
        r == registry.has_name(n@),
{
    let mut i: usize = 0;
    while i < registry.entries.len()
        invariant
            i <= registry.entries@.len(),
            forall|k: int| 0 <= k < i ==> registry.names()[k] != n@,
        decreases registry.entries@.len() - i,
    {
        if registry.entries[i].name == *n {
            proof {
                assert(registry.names()[i as int] == n@);
            }
            return true;
        }
        proof {
            assert(registry.names()[i as int] == registry.entries@[i as int].name@);
        }
        i = i + 1;
    }
    proof {
        assert(forall|k: int|
            0 <= k < registry.names().len() ==> registry.names()[k] != n@);
        assert(!registry.names().contains(n@));
    }
    false
}

fn find_unresolved(
    refs: &Vec<String>,
    registry: &Registry,
    external: &Vec<String>,
    k: usize,
) -> (r: Option<String>)
    requires
        k <= refs@.len(),
    ensures
        match r {
            Option::Some(s) => first_unresolved(views(refs@), *registry, views(external@), k as int)
                == Option::Some(s@),
            Option::None => first_unresolved(views(refs@), *registry, views(external@), k as int)
                is None,
        },
    decreases refs@.len() - k,
{
    if k >= refs.len() {
        Option::None
    } else {
        proof {
            assert(views(refs@)[k as int] == refs@[k as int]@);
        }
        let in_registry = registry_has_name(registry, &refs[k]);
        let in_external = crate::strutil::contains_name(external, &refs[k]);
        if !in_registry && !in_external {
            Option::Some(refs[k].clone())
        } else {
            find_unresolved(refs, registry, external, k + 1)
        }
    }
}

// ---------------------------------------------------------------------------
// The dependency map.
// ---------------------------------------------------------------------------

fn build_dep_map(registry: &Registry, k: usize) -> (r: Vec<(String, Vec<String>)>)
    requires
        k <= registry.entries@.len(),
    ensures
        r@.len() == registry.entries@.len() - k,
        forall|i: int|
            0 <= i < r@.len() ==> (#[trigger] r@[i]).0@ == registry.entries@[k + i].name@ && views(
                r@[i].1@,
            ) == hard_deps_container(registry.entries@[k + i].value),
    decreases registry.entries@.len() - k,
{
    if k >= registry.entries.len() {
        Vec::new()
    } else {
        let mut deps: Vec<String> = Vec::new();
        collect_refs_container(&registry.entries[k].value, true, &mut deps);
        proof {
            assert(views(deps@) =~= hard_deps_container(registry.entries@[k as int].value));
        }
        let mut rest = build_dep_map(registry, k + 1);
        let mut result: Vec<(String, Vec<String>)> = Vec::new();
        result.push((registry.entries[k].name.clone(), deps));
        result.append(&mut rest);
        result
    }
}

/// Builds the hard-dependency map of the registry, after checking that every
/// reference anywhere in the registry resolves to a registry entry or an
/// externally supplied name. The first reference that resolves to neither,
/// in registry order, is reported as the dangling one.
pub fn get_dependency_map_with_external_dependencies(
    registry: &Registry,
    external_names: &Vec<String>,
) -> (r: Result<Vec<(String, Vec<String>)>, Error>)
    ensures
        r is Ok <==> first_dangling(*registry, views(external_names@)) is None,
        r is Ok ==> map_view(r->Ok_0@) == dep_map_view(*registry),
        r is Err ==> crate::is_dangling_error(
            r->Err_0,
            first_dangling(*registry, views(external_names@))->Some_0,
        ),
{
    let mut refs: Vec<String> = Vec::new();
    collect_all_refs_registry(&registry.entries, 0, &mut refs);
    proof {
        assert(views(refs@) =~= all_refs_registry(registry.entries@, 0));
    }
    match find_unresolved(&refs, registry, external_names, 0) {
        Option::Some(name) => Result::Err(Error::DanglingTypeName(name)),
        Option::None => {
            let m = build_dep_map(registry, 0);
            proof {
                assert(map_view(m@) =~~= dep_map_view(*registry));
            }
            Result::Ok(m)
        },
    }
}

/// Builds the hard-dependency map of a registry that stands alone: every
/// reference must resolve within the registry itself.
pub fn get_dependency_map(registry: &Registry) -> (r: Result<Vec<(String, Vec<String>)>, Error>)
    ensures
        r is Ok <==> first_dangling(*registry, views(Seq::<String>::empty())) is None,
        r is Ok ==> map_view(r->Ok_0@) == dep_map_view(*registry),
        r is Err ==> crate::is_dangling_error(
            r->Err_0,
            first_dangling(*registry, views(Seq::<String>::empty()))->Some_0,
        ),
{
    let empty: Vec<String> = Vec::new();
    let r = get_dependency_map_with_external_dependencies(registry, &empty);
    proof {
        assert(views(empty@) =~= views(Seq::<String>::empty()));
    }
    r
}

// ---------------------------------------------------------------------------
// Best-effort topological sort.
//
// Kahn-style: repeatedly emit the first entry, in map order, none of whose
// hard dependencies is still unemitted. When no such entry exists - the
// hard dependencies form a cycle - the first unemitted entry is emitted
// anyway; indirection at the rendering stage keeps the output valid in
// that case. The order is a pure function of the map, so regeneration is
// reproducible.
// ---------------------------------------------------------------------------

/// The view of one dependency-map entry: the key and its dependencies.
pub type MapView = Seq<(Seq<char>, Seq<Seq<char>>)>;

/// The view of a dependency map.
pub open spec fn map_view(m: Seq<(String, Vec<String>)>) -> MapView {
    Seq::new(m.len(), |i: int| (m[i].0@, views(m[i].1@)))
}

/// The dependency map determined by a registry: for each entry, in registry
/// order, its name and its hard-dependency references.
pub open spec fn dep_map_view(registry: Registry) -> MapView {
    Seq::new(
        registry.entries@.len(),
        |i: int| (registry.entries@[i].name@, hard_deps_container(registry.entries@[i].value)),
    )
}

pub open spec fn key_at(m: MapView, i: int) -> Seq<char> {
    m[i].0
}

pub open spec fn deps_at(m: MapView, i: int) -> Seq<Seq<char>> {
    m[i].1
}

pub open spec fn m_has_key(m: MapView, n: Seq<char>) -> bool {
    exists|i: int| 0 <= i < m.len() && key_at(m, i) == n
}

pub open spec fn distinct_keys(m: MapView) -> bool {
    forall|i: int, j: int| 0 <= i < j < m.len() ==> key_at(m, i) != key_at(m, j)
}

/// Every hard dependency of entry `i` that is itself a map key is already
/// emitted.
pub open spec fn deps_done(m: MapView, i: int, done: Seq<bool>) -> bool {
    forall|di: int, j: int|
        0 <= di < deps_at(m, i).len() && 0 <= j < m.len() && key_at(m, j) == #[trigger] deps_at(
            m,
            i,
        )[di] ==> #[trigger] done[j]
}

/// The first entry from `k` on that is unemitted and has all its hard
/// dependencies emitted.
pub open spec fn first_ready(m: MapView, done: Seq<bool>, k: int) -> Option<
    int,
>
    decreases m.len() - k,
{
    if k < 0 || k >= m.len() {
        None
    } else if !done[k] && deps_done(m, k, done) {
        Some(k)
    } else {
        first_ready(m, done, k + 1)
    }
}

/// The first unemitted entry from `k` on.
pub open spec fn first_undone(done: Seq<bool>, k: int) -> Option<int>
    decreases done.len() - k,
{
    if k < 0 || k >= done.len() {
        None
    } else if !done[k] {
        Some(k)
    } else {
        first_undone(done, k + 1)
    }
}

/// The entry emitted next: the first ready one, else the first unemitted
/// one.
pub open spec fn pick_next(m: MapView, done: Seq<bool>) -> Option<int> {
    if first_ready(m, done, 0) is Some {
        first_ready(m, done, 0)
    } else {
        first_undone(done, 0)
    }
}

/// The emission order produced from the state `done`, with `fuel` entries
/// still to emit.
pub open spec fn sort_order(m: MapView, done: Seq<bool>, fuel: nat) -> Seq<
    Seq<char>,
>
    decreases fuel,
{
    if fuel == 0 {
        Seq::empty()
    } else {
        match pick_next(m, done) {
            None => Seq::empty(),
            Some(p) => seq![key_at(m, p)] + sort_order(m, done.update(p, true), (fuel - 1) as nat),
        }
    }
}

/// The emission order of the whole map.
pub open spec fn sort_order_of(m: MapView) -> Seq<Seq<char>> {
    sort_order(m, Seq::new(m.len(), |i: int| false), m.len())
}

/// A rank witness: along every hard-dependency edge between map keys, the
/// rank strictly decreases. Such a witness exists exactly when the
/// hard-dependency graph is acyclic.
pub open spec fn is_dag_rank(m: MapView, rank: Map<Seq<char>, nat>) -> bool {
    forall|i: int, di: int|
        0 <= i < m.len() && 0 <= di < deps_at(m, i).len() && m_has_key(
            m,
            #[trigger] deps_at(m, i)[di],
        ) ==> rank[deps_at(m, i)[di]] < rank[key_at(m, i)]
}

pub open spec fn acyclic(m: MapView) -> bool {
    exists|rank: Map<Seq<char>, nat>| is_dag_rank(m, rank)
}

/// The order is topological: every map key among an entry's hard
/// dependencies appears strictly before that entry.
pub open spec fn topo_ok(m: MapView, ord: Seq<Seq<char>>) -> bool {
    forall|k: int, i: int, di: int|
        0 <= k < ord.len() && 0 <= i < m.len() && key_at(m, i) == #[trigger] ord[k] && 0 <= di
            < deps_at(m, i).len() && m_has_key(m, #[trigger] deps_at(m, i)[di]) ==> exists|j: int|
            0 <= j < k && ord[j] == deps_at(m, i)[di]
}

/// The number of unemitted entries from `k` on.
pub open spec fn num_undone(done: Seq<bool>, k: int) -> int
    decreases done.len() - k,
{
    if k < 0 || k >= done.len() {
        0
    } else {
        (if done[k] {
            0int
        } else {
            1int
        }) + num_undone(done, k + 1)
    }
}

proof fn lemma_num_undone_nonneg(done: Seq<bool>, k: int)
    ensures
        num_undone(done, k) >= 0,
    decreases done.len() - k,
{
    if 0 <= k < done.len() {
        lemma_num_undone_nonneg(done, k + 1);
    }
}

proof fn lemma_num_undone_update(done: Seq<bool>, p: int, k: int)
    requires
        0 <= k,
        0 <= p < done.len(),
        !done[p],
    ensures
        num_undone(done.update(p, true), k) == if k <= p {
            num_undone(done, k) - 1
        } else {
            num_undone(done, k)
        },
    decreases done.len() - k,
{
    if k < 0 || k >= done.len() {
    } else {
        lemma_num_undone_update(done, p, k + 1);
    }
}

proof fn lemma_first_undone_some(done: Seq<bool>, k: int)
    requires
        0 <= k <= done.len(),
        num_undone(done, k) > 0,
    ensures
        first_undone(done, k) is Some,
        0 <= first_undone(done, k)->Some_0 < done.len(),
        !done[first_undone(done, k)->Some_0],
    decreases done.len() - k,
{
    if k >= done.len() {
    } else if !done[k] {
    } else {
        lemma_first_undone_some(done, k + 1);
    }
}

proof fn lemma_first_ready_props(m: MapView, done: Seq<bool>, k: int)
    requires
        0 <= k <= m.len(),
    ensures
        first_ready(m, done, k) is Some ==> {
            let p = first_ready(m, done, k)->Some_0;
            k <= p < m.len() && !done[p] && deps_done(m, p, done)
        },
        first_ready(m, done, k) is None ==> forall|i: int|
            k <= i < m.len() ==> done[i] || !deps_done(m, i, done),
    decreases m.len() - k,
{
    if k >= m.len() {
    } else if !done[k] && deps_done(m, k, done) {
    } else {
        lemma_first_ready_props(m, done, k + 1);
    }
}

/// In an acyclic graph, as long as an entry is unemitted, some unemitted
/// entry has all its hard dependencies emitted: follow unemitted
/// dependencies downward; the rank strictly decreases at each step.
proof fn lemma_ready_exists(
    m: MapView,
    done: Seq<bool>,
    rank: Map<Seq<char>, nat>,
    i0: int,
)
    requires
        distinct_keys(m),
        is_dag_rank(m, rank),
        done.len() == m.len(),
        0 <= i0 < m.len(),
        !done[i0],
    ensures
        exists|i: int| 0 <= i < m.len() && !done[i] && deps_done(m, i, done),
    decreases rank[key_at(m, i0)],
{
    if deps_done(m, i0, done) {
        assert(0 <= i0 < m.len() && !done[i0] && deps_done(m, i0, done));
    } else {
        let (di, j) = choose|di: int, j: int|
            0 <= di < deps_at(m, i0).len() && 0 <= j < m.len() && key_at(m, j) == deps_at(
                m,
                i0,
            )[di] && !done[j];
        assert(m_has_key(m, deps_at(m, i0)[di]));
        assert(rank[key_at(m, j)] < rank[key_at(m, i0)]);
        lemma_ready_exists(m, done, rank, j);
    }
}

/// What one emission round yields, given the invariants that hold of the
/// running state.
proof fn lemma_sort_order_props(
    m: MapView,
    done: Seq<bool>,
    fuel: nat,
)
    requires
        distinct_keys(m),
        done.len() == m.len(),
        fuel == num_undone(done, 0),
    ensures
        sort_order(m, done, fuel).len() == fuel,
        forall|k: int|
            0 <= k < sort_order(m, done, fuel).len() ==> exists|i: int|
                0 <= i < m.len() && !done[i] && key_at(m, i) == #[trigger] sort_order(
                    m,
                    done,
                    fuel,
                )[k],
        forall|k1: int, k2: int|
            0 <= k1 < k2 < sort_order(m, done, fuel).len() ==> sort_order(m, done, fuel)[k1]
                != sort_order(m, done, fuel)[k2],
        forall|i: int|
            0 <= i < m.len() && !done[i] ==> sort_order(m, done, fuel).contains(key_at(m, i)),
    decreases fuel,
{
    if fuel == 0 {
        assert forall|i: int| 0 <= i < m.len() && !done[i] implies sort_order(
            m,
            done,
            fuel,
        ).contains(key_at(m, i)) by {
            lemma_num_undone_at_least(done, 0, i);
        }
    } else {
        lemma_first_undone_some(done, 0);
        lemma_first_ready_props(m, done, 0);
        let p = pick_next(m, done)->Some_0;
        assert(0 <= p < m.len() && !done[p]);
        let done2 = done.update(p, true);
        lemma_num_undone_update(done, p, 0);
        lemma_sort_order_props(m, done2, (fuel - 1) as nat);
        let ord = sort_order(m, done, fuel);
        let rest = sort_order(m, done2, (fuel - 1) as nat);
        assert(ord == seq![key_at(m, p)] + rest);
        assert forall|k1: int, k2: int| 0 <= k1 < k2 < ord.len() implies ord[k1] != ord[k2] by {
            if k1 == 0 {
                let i2 = choose|i: int|
                    0 <= i < m.len() && !done2[i] && key_at(m, i) == rest[k2 - 1];
                assert(i2 != p);
            }
        }
        assert forall|i: int| 0 <= i < m.len() && !done[i] implies ord.contains(key_at(m, i)) by {
            if i == p {
                assert(ord[0] == key_at(m, p));
            } else {
                assert(!done2[i]);
                assert(rest.contains(key_at(m, i)));
                let j = choose|j: int| 0 <= j < rest.len() && rest[j] == key_at(m, i);
                assert(ord[j + 1] == key_at(m, i));
            }
        }
    }
}

proof fn lemma_num_undone_at_least(done: Seq<bool>, k: int, i: int)
    requires
        0 <= k <= i < done.len(),
        !done[i],
    ensures
        num_undone(done, k) >= 1,
    decreases i - k,
{
    lemma_num_undone_nonneg(done, i + 1);
    if k < i {
        lemma_num_undone_at_least(done, k + 1, i);
    }
}

proof fn lemma_first_undone_props(done: Seq<bool>, k: int)
    requires
        0 <= k <= done.len(),
    ensures
        first_undone(done, k) is Some ==> {
            let p = first_undone(done, k)->Some_0;
            k <= p < done.len() && !done[p]
        },
    decreases done.len() - k,
{
    if k >= done.len() {
    } else if !done[k] {
    } else {
        lemma_first_undone_props(done, k + 1);
    }
}

/// When a rank witness exists, the fallback is never taken, and the order
/// is topological relative to what is already emitted.
proof fn lemma_sort_order_topo(
    m: MapView,
    done: Seq<bool>,
    fuel: nat,
    rank: Map<Seq<char>, nat>,
)
    requires
        distinct_keys(m),
        is_dag_rank(m, rank),
        done.len() == m.len(),
        fuel == num_undone(done, 0),
    ensures
        forall|k: int, i: int, di: int|
            0 <= k < sort_order(m, done, fuel).len() && 0 <= i < m.len() && key_at(m, i)
                == #[trigger] sort_order(m, done, fuel)[k] && 0 <= di < deps_at(m, i).len()
                && m_has_key(m, #[trigger] deps_at(m, i)[di]) ==> (exists|jj: int|
                0 <= jj < m.len() && key_at(m, jj) == deps_at(m, i)[di] && done[jj]) || (exists|
                j: int,
            |
                0 <= j < k && sort_order(m, done, fuel)[j] == deps_at(m, i)[di]),
    decreases fuel,
{
    if fuel == 0 {
    } else {
        lemma_first_undone_some(done, 0);
        lemma_first_ready_props(m, done, 0);
        if first_ready(m, done, 0) is None {
            let iu = first_undone(done, 0)->Some_0;
            lemma_ready_exists(m, done, rank, iu);
            assert(false);
        }
        let p = pick_next(m, done)->Some_0;
        assert(!done[p] && deps_done(m, p, done));
        let done2 = done.update(p, true);
        lemma_num_undone_update(done, p, 0);
        lemma_sort_order_topo(m, done2, (fuel - 1) as nat, rank);
        let ord = sort_order(m, done, fuel);
        let rest = sort_order(m, done2, (fuel - 1) as nat);
        assert(ord == seq![key_at(m, p)] + rest);
        assert forall|k: int, i: int, di: int|
            0 <= k < ord.len() && 0 <= i < m.len() && key_at(m, i) == #[trigger] ord[k] && 0 <= di
                < deps_at(m, i).len() && m_has_key(m, #[trigger] deps_at(m, i)[di]) implies (exists|
            jj: int,
        |
            0 <= jj < m.len() && key_at(m, jj) == deps_at(m, i)[di] && done[jj]) || (exists|j: int|
            0 <= j < k && ord[j] == deps_at(m, i)[di]) by {
            if k == 0 {
                assert(key_at(m, i) == key_at(m, p));
                assert(i == p);
                let jj = choose|jj: int| 0 <= jj < m.len() && key_at(m, jj) == deps_at(m, i)[di];
                assert(done[jj]);
            } else {
                assert(rest[k - 1] == ord[k]);
                if exists|jj: int|
                    0 <= jj < m.len() && key_at(m, jj) == deps_at(m, i)[di] && done2[jj] {
                    let jj = choose|jj: int|
                        0 <= jj < m.len() && key_at(m, jj) == deps_at(m, i)[di] && done2[jj];
                    if jj == p {
                        assert(ord[0] == deps_at(m, i)[di]);
                    } else {
                        assert(done[jj]);
                    }
                } else {
                    let j = choose|j: int| 0 <= j < k - 1 && rest[j] == deps_at(m, i)[di];
                    assert(ord[j + 1] == deps_at(m, i)[di]);
                }
            }
        }
    }
}

fn find_key(m: &Vec<(String, Vec<String>)>, name: &String) -> (r: Option<usize>)
    ensures
        match r {
            Some(i) => i < m@.len() && key_at(map_view(m@), i as int) == name@,
            None => !m_has_key(map_view(m@), name@),
        },
{
    let mut i: usize = 0;
    while i < m.len()
        invariant
            i <= m@.len(),
            forall|k: int| 0 <= k < i ==> key_at(map_view(m@), k) != name@,
        decreases m@.len() - i,
    {
        if m[i].0 == *name {
            proof {
                assert(key_at(map_view(m@), i as int) == m@[i as int].0@);
            }
            return Some(i);
        }
        proof {
            assert(key_at(map_view(m@), i as int) == m@[i as int].0@);
        }
        i = i + 1;
    }
    None
}

fn deps_satisfied(m: &Vec<(String, Vec<String>)>, i: usize, done: &Vec<bool>) -> (r: bool)
    requires
        i < m@.len(),
        done@.len() == m@.len(),
        distinct_keys(map_view(m@)),
    ensures
        r == deps_done(map_view(m@), i as int, done@),
{
    let deps = &m[i].1;
    let mut di: usize = 0;
    while di < deps.len()
        invariant
            di <= deps@.len(),
            i < m@.len(),
            done@.len() == m@.len(),
            distinct_keys(map_view(m@)),
            deps == m@[i as int].1,
            forall|d: int, j: int|
                0 <= d < di && 0 <= j < m@.len() && key_at(map_view(m@), j) == #[trigger] deps_at(
                    map_view(m@),
                    i as int,
                )[d] ==> #[trigger] done@[j],
        decreases deps@.len() - di,
    {
        proof {
            assert(deps_at(map_view(m@), i as int) == views(m@[i as int].1@));
            assert(deps_at(map_view(m@), i as int)[di as int] == deps@[di as int]@);
        }
        match find_key(m, &deps[di]) {
            Some(j) => {
                if !done[j] {
                    proof {
                        assert(key_at(map_view(m@), j as int) == deps_at(
                            map_view(m@),
                            i as int,
                        )[di as int]);
                        assert(!deps_done(map_view(m@), i as int, done@));
                    }
                    return false;
                }
                proof {
                    assert forall|jj: int|
                        0 <= jj < m@.len() && key_at(map_view(m@), jj) == deps_at(
                            map_view(m@),
                            i as int,
                        )[di as int] implies done@[jj] by {
                        assert(key_at(map_view(m@), j as int) == deps_at(
                            map_view(m@),
                            i as int,
                        )[di as int]);
                        if jj != j as int {
                            assert(key_at(map_view(m@), jj) != key_at(map_view(m@), j as int));
                        }
                    }
                }
            },
            None => {},
        }
        di = di + 1;
    }
    true
}

fn first_ready_exec(m: &Vec<(String, Vec<String>)>, done: &Vec<bool>, k: usize) -> (r: Option<
    usize,
>)
    requires
        k <= m@.len(),
        done@.len() == m@.len(),
        distinct_keys(map_view(m@)),
    ensures
        match r {
            Some(i) => first_ready(map_view(m@), done@, k as int) == Some(i as int),
            None => first_ready(map_view(m@), done@, k as int) is None,
        },
    decreases m@.len() - k,
{
    if k >= m.len() {
        None
    } else if !done[k] && deps_satisfied(m, k, done) {
        Some(k)
    } else {
        first_ready_exec(m, done, k + 1)
    }
}

fn first_undone_exec(done: &Vec<bool>, k: usize) -> (r: Option<usize>)
    requires
        k <= done@.len(),
    ensures
        match r {
            Some(i) => first_undone(done@, k as int) == Some(i as int),
            None => first_undone(done@, k as int) is None,
        },
    decreases done@.len() - k,
{
    if k >= done.len() {
        None
    } else if !done[k] {
        Some(k)
    } else {
        first_undone_exec(done, k + 1)
    }
}

fn sort_from(m: &Vec<(String, Vec<String>)>, done: &mut Vec<bool>, fuel: usize) -> (r: Vec<String>)
    requires
        old(done)@.len() == m@.len(),
        distinct_keys(map_view(m@)),
    ensures
        final(done)@.len() == m@.len(),
        views(r@) == sort_order(map_view(m@), old(done)@, fuel as nat),
    decreases fuel,
{
    if fuel == 0 {
        let r: Vec<String> = Vec::new();
        proof {
            assert(views(r@) =~= sort_order(map_view(m@), done@, fuel as nat));
        }
        return r;
    }
    let picked = match first_ready_exec(m, done, 0) {
        Some(p) => Some(p),
        None => first_undone_exec(done, 0),
    };
    proof {
        lemma_first_ready_props(map_view(m@), done@, 0);
        lemma_first_undone_props(done@, 0);
    }
    match picked {
        None => {
            let r: Vec<String> = Vec::new();
            proof {
                assert(views(r@) =~= sort_order(map_view(m@), done@, fuel as nat));
            }
            r
        },
        Some(p) => {
            let name = m[p].0.clone();
            done.set(p, true);
            let mut rest = sort_from(m, done, fuel - 1);
            let mut result: Vec<String> = Vec::new();
            result.push(name);
            result.append(&mut rest);
            proof {
                assert(key_at(map_view(m@), p as int) == m@[p as int].0@);
                assert(views(result@) =~= seq![key_at(map_view(m@), p as int)] + sort_order(
                    map_view(m@),
                    old(done)@.update(p as int, true),
                    (fuel - 1) as nat,
                ));
            }
            result
        },
    }
}

/// Orders the map keys for emission. The order is an exact function of the
/// map; it lists every key exactly once; and whenever the hard-dependency
/// graph is acyclic - whenever some rank witness exists - the order is a
/// valid topological order: every container appears after every container
/// it hard-depends on.
pub fn best_effort_topological_sort(map: &Vec<(String, Vec<String>)>) -> (r: Vec<String>)
    requires
        distinct_keys(map_view(map@)),
    ensures
        views(r@) == sort_order_of(map_view(map@)),
        r@.len() == map@.len(),
        forall|k: int| 0 <= k < r@.len() ==> m_has_key(map_view(map@), views(r@)[k]),
        forall|k1: int, k2: int| 0 <= k1 < k2 < r@.len() ==> views(r@)[k1] != views(r@)[k2],
        forall|i: int| 0 <= i < map@.len() ==> views(r@).contains(key_at(map_view(map@), i)),
        acyclic(map_view(map@)) ==> topo_ok(map_view(map@), views(r@)),
{
    let n = map.len();
    let mut done: Vec<bool> = Vec::new();
    let mut i: usize = 0;
    while i < n
        invariant
            i <= n,
            done@.len() == i,
            forall|k: int| 0 <= k < i ==> !(#[trigger] done@[k]),
        decreases n - i,
    {
        done.push(false);
        i = i + 1;
    }
    proof {
        assert(done@ =~= Seq::new(map_view(map@).len(), |j: int| false));
        lemma_num_undone_all_false(done@, 0);
    }
    let r = sort_from(map, &mut done, n);
    proof {
        let mv = map_view(map@);
        let d0 = Seq::new(mv.len(), |j: int| false);
        lemma_sort_order_props(mv, d0, mv.len() as nat);
        assert forall|k: int| 0 <= k < r@.len() implies m_has_key(mv, views(r@)[k]) by {
            assert(sort_order_of(mv)[k] == views(r@)[k]);
        }
        assert forall|i2: int| 0 <= i2 < map@.len() implies views(r@).contains(
            key_at(mv, i2),
        ) by {
            assert(!d0[i2]);
            assert(key_at(mv, i2) == map@[i2].0@);
            assert(sort_order(mv, d0, mv.len()).contains(key_at(mv, i2)));
        }
        if acyclic(mv) {
            let rank = choose|rank: Map<Seq<char>, nat>| is_dag_rank(mv, rank);
            lemma_sort_order_topo(mv, d0, mv.len() as nat, rank);
            assert forall|k: int, i2: int, di: int|
                0 <= k < views(r@).len() && 0 <= i2 < mv.len() && key_at(mv, i2)
                    == #[trigger] views(r@)[k] && 0 <= di < deps_at(mv, i2).len() && m_has_key(
                    mv,
                    #[trigger] deps_at(mv, i2)[di],
                ) implies exists|j: int| 0 <= j < k && views(r@)[j] == deps_at(mv, i2)[di] by {
                assert(sort_order(mv, d0, mv.len() as nat)[k] == views(r@)[k]);
            }
        }
    }
    r
}

proof fn lemma_num_undone_all_false(done: Seq<bool>, k: int)
    requires
        0 <= k <= done.len(),
        forall|i: int| 0 <= i < done.len() ==> !(#[trigger] done[i]),
    ensures
        num_undone(done, k) == done.len() - k,
    decreases done.len() - k,
{
    if k < done.len() {
        lemma_num_undone_all_false(done, k + 1);
    }
}

/// Law: for any dependency map whose hard-dependency graph is acyclic -
/// whose edges admit a strictly decreasing rank - the emission order is a
/// valid topological order: every entry appears after every map entry it
/// hard-depends on.
pub proof fn lemma_acyclic_order_topological(m: MapView)
    requires
        distinct_keys(m),
        acyclic(m),
    ensures
        topo_ok(m, sort_order_of(m)),
{
    let d0 = Seq::new(m.len(), |j: int| false);
    lemma_num_undone_all_false(d0, 0);
    let rank = choose|rank: Map<Seq<char>, nat>| is_dag_rank(m, rank);
    lemma_sort_order_topo(m, d0, m.len() as nat, rank);
    let ord = sort_order_of(m);
    assert forall|k: int, i: int, di: int|
        0 <= k < ord.len() && 0 <= i < m.len() && key_at(m, i) == #[trigger] ord[k] && 0 <= di
            < deps_at(m, i).len() && m_has_key(m, #[trigger] deps_at(m, i)[di]) implies exists|
        j: int,
    |
        0 <= j < k && ord[j] == deps_at(m, i)[di] by {
        assert(sort_order(m, d0, m.len() as nat)[k] == ord[k]);
    }
}

/// Law: for any registry whose hard-dependency graph is acyclic, the
/// analyzer's emission order is a valid topological order over the
/// registry's hard dependencies.
pub proof fn lemma_registry_order_topological(registry: Registry)
    requires
        registry.wf(),
        acyclic(dep_map_view(registry)),
    ensures
        topo_ok(dep_map_view(registry), sort_order_of(dep_map_view(registry))),
{
    assert forall|i: int, j: int|
        0 <= i < j < dep_map_view(registry).len() implies key_at(dep_map_view(registry), i)
        != key_at(dep_map_view(registry), j) by {
        assert(key_at(dep_map_view(registry), i) == registry.names()[i]);
        assert(key_at(dep_map_view(registry), j) == registry.names()[j]);
    }
    lemma_acyclic_order_topological(dep_map_view(registry));
}

} // verus!
