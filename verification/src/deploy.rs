//! Validation, planning, parameter resolution and the provisioning
//! lifecycle of the products of a catalog.

use crate::config::{CatalogFile, ProductModel, ProductSpec};
use crate::depgraph::{
    cyclic_within, dependency_lists, first_cycle_product, is_deployment_order,
    lemma_cyclic_numbered, lemma_on_cycle_up, lemma_plan_up, name_set, on_dep_cycle, Catalog,
};
use crate::error::DeployError;
use crate::graph::{find_cycle, kahn_order, lists};
use crate::namemap::{strictly_sorted, NameMap};
use crate::names::{
    contains_name, lemma_name_lt_total, name_lt, names_of, split_once, split_once_at, Name,
};
use crate::state::{
    BootstrapEnvModel, BootstrapEnvState, BootstrapState, DeployEnvState, DeployProductModel,
};
use vstd::prelude::*;
use vstd::string::*;

verus! {

/// The names of `list` in lexicographic order, each once.
pub fn unique_sorted(list: &Vec<String>) -> (r: Vec<String>)
    ensures
        strictly_sorted(names_of(r@)),
        forall|k: Name| names_of(r@).contains(k) <==> names_of(list@).contains(k),
{
    let mut seen: NameMap<bool> = NameMap::new();
    let mut i: usize = 0;
    while i < list.len()
        invariant
            i <= list@.len(),
            forall|k: Name|
                seen@.contains_key(k) <==> exists|j: int| 0 <= j < i && (#[trigger] list@[j])@ == k,
        decreases list@.len() - i,
    {
        let ghost before = seen@;
        seen.insert(list[i].clone(), true);
        proof {
            assert forall|k: Name| seen@.contains_key(k) <==> exists|j: int|
                0 <= j < i + 1 && (#[trigger] list@[j])@ == k by {
                if seen@.contains_key(k) {
                    if k == list@[i as int]@ {
                    } else {
                        assert(before.contains_key(k));
                        let j = choose|j: int| 0 <= j < i && (#[trigger] list@[j])@ == k;
                        assert(0 <= j < i + 1 && list@[j]@ == k);
                    }
                }
                if exists|j: int| 0 <= j < i + 1 && (#[trigger] list@[j])@ == k {
                    let j = choose|j: int| 0 <= j < i + 1 && (#[trigger] list@[j])@ == k;
                    if j < i {
                        assert(before.contains_key(k));
                    }
                }
            }
        }
        i += 1;
    }
    let r = seen.keys();
    proof {
        assert forall|k: Name| names_of(r@).contains(k) <==> names_of(list@).contains(k) by {
            if names_of(r@).contains(k) {
                assert(seen@.contains_key(k));
                let j = choose|j: int| 0 <= j < list@.len() && (#[trigger] list@[j])@ == k;
                assert(names_of(list@)[j] == k);
            }
            if names_of(list@).contains(k) {
                let j = choose|j: int| 0 <= j < names_of(list@).len() && names_of(list@)[j] == k;
                assert(list@[j]@ == k);
                assert(seen@.contains_key(k));
            }
        }
    }
    r
}

/// `product` is the first, in lexicographic order, of the products of `s`
/// that the catalog lacks.
pub open spec fn is_least_unknown(g: Catalog, s: Set<Name>, product: Name) -> bool {
    &&& s.contains(product)
    &&& !g.contains_key(product)
    &&& forall|k: Name| s.contains(k) && !g.contains_key(k) ==> !name_lt(k, product)
}

/// The deployment order of the products `subset`.
///
/// Every product of the order stands behind those of its dependencies that
/// are in `subset`; products that become ready together are placed in the
/// lexicographic order of their names. The call fails with
/// `UnknownProduct` where `subset` names a product that the catalog lacks,
/// and otherwise with `CircularDependency` exactly where the dependencies
/// among the products of `subset` form a cycle.
pub fn topo_sort(products: &NameMap<ProductSpec>, subset: &Vec<String>) -> (r: Result<
    Vec<String>,
    DeployError,
>)
    ensures
        r is Ok <==> (forall|k: Name|
            name_set(names_of(subset@)).contains(k) ==> products@.contains_key(k))
            && !cyclic_within(products@, name_set(names_of(subset@))),
        match r {
            Ok(order) => {
                &&& forall|k: Name|
                    name_set(names_of(subset@)).contains(k) ==> products@.contains_key(k)
                &&& !cyclic_within(products@, name_set(names_of(subset@)))
                &&& is_deployment_order(
                    products@,
                    name_set(names_of(subset@)),
                    names_of(order@),
                )
            },
            Err(DeployError::UnknownProduct { product }) => is_least_unknown(
                products@,
                name_set(names_of(subset@)),
                product@,
            ),
            Err(DeployError::CircularDependency) => {
                &&& forall|k: Name|
                    name_set(names_of(subset@)).contains(k) ==> products@.contains_key(k)
                &&& cyclic_within(products@, name_set(names_of(subset@)))
            },
            Err(_) => false,
        },
{
    let ghost g = products@;
    let ghost s = name_set(names_of(subset@));
    let nodes = unique_sorted(subset);
    let ghost names = names_of(nodes@);
    assert(name_set(names) =~= s);
    let mut i: usize = 0;
    while i < nodes.len()
        invariant
            g == products@,
            names == names_of(nodes@),
            s == name_set(names),
            s == name_set(names_of(subset@)),
            strictly_sorted(names),
            i <= nodes@.len(),
            forall|j: int| 0 <= j < i ==> g.contains_key(#[trigger] names[j]),
        decreases nodes@.len() - i,
    {
        if !products.contains_key(nodes[i].as_str()) {
            let product = nodes[i].clone();
            proof {
                assert(names[i as int] == product@);
                assert(names.contains(product@));
                assert forall|k: Name| s.contains(k) && !g.contains_key(k) implies !name_lt(
                    k,
                    product@,
                ) by {
                    let j = choose|j: int| 0 <= j < names.len() && names[j] == k;
                    if j > i {
                        assert(name_lt(names[i as int], names[j]));
                        lemma_name_lt_total(k, product@);
                    } else if j == i {
                        lemma_name_lt_total(k, product@);
                    } else {
                        assert(g.contains_key(names[j]));
                    }
                }
                assert(s.contains(product@));
                assert(!g.contains_key(product@));
                assert(is_least_unknown(g, s, product@));
            }
            return Err(DeployError::UnknownProduct { product });
        }
        i += 1;
    }
    proof {
        assert forall|k: Name| s.contains(k) implies g.contains_key(k) by {
            let j = choose|j: int| 0 <= j < names.len() && names[j] == k;
        }
        assert forall|i: int| 0 <= i < nodes@.len() implies products@.contains_key(
            #[trigger] nodes@[i]@,
        ) by {
            assert(g.contains_key(names[i]));
        }
    }
    let adj = dependency_lists(products, &nodes);
    proof {
        lemma_cyclic_numbered(g, names, lists(&adj));
    }
    match kahn_order(&adj) {
        Some(order) => {
            let mut out: Vec<String> = Vec::new();
            let mut p: usize = 0;
            while p < order.len()
                invariant
                    names == names_of(nodes@),
                    p <= order@.len(),
                    out@.len() == p,
                    forall|q: int| 0 <= q < order@.len() ==> (#[trigger] order@[q]) < nodes@.len(),
                    forall|q: int| 0 <= q < p ==> (#[trigger] out@[q])@ == names[order@[q] as int],
                decreases order@.len() - p,
            {
                out.push(nodes[order[p]].clone());
                p += 1;
            }
            proof {
                lemma_plan_up(g, names, lists(&adj), order@);
                assert(names_of(out@) =~= Seq::new(
                    order@.len(),
                    |p: int| names[order@[p] as int],
                ));
            }
            Ok(out)
        },
        None => Err(DeployError::CircularDependency),
    }
}

/// The products that a request selects: all of the catalog where it names
/// none, else those it names.
pub open spec fn selected(g: Catalog, requested: Seq<Name>) -> Set<Name> {
    if requested.len() == 0 {
        g.dom()
    } else {
        name_set(requested)
    }
}

/// The order in which the requested products are to be deployed.
///
/// An empty request stands for every product of the catalog. The call
/// fails with `UnknownProduct` where the request names a product that the
/// catalog lacks, and otherwise with `CircularDependency` exactly where the
/// dependencies among the selected products form a cycle.
pub fn plan(catalog: &CatalogFile, products: &Vec<String>) -> (r: Result<Vec<String>, DeployError>)
    ensures
        r is Ok <==> (forall|k: Name|
            selected(catalog.products@, names_of(products@)).contains(k)
                ==> catalog.products@.contains_key(k)) && !cyclic_within(
            catalog.products@,
            selected(catalog.products@, names_of(products@)),
        ),
        match r {
            Ok(order) => {
                &&& forall|k: Name|
                    selected(catalog.products@, names_of(products@)).contains(k)
                        ==> catalog.products@.contains_key(k)
                &&& !cyclic_within(
                    catalog.products@,
                    selected(catalog.products@, names_of(products@)),
                )
                &&& is_deployment_order(
                    catalog.products@,
                    selected(catalog.products@, names_of(products@)),
                    names_of(order@),
                )
            },
            Err(DeployError::UnknownProduct { product }) => is_least_unknown(
                catalog.products@,
                selected(catalog.products@, names_of(products@)),
                product@,
            ),
            Err(DeployError::CircularDependency) => {
                &&& forall|k: Name|
                    selected(catalog.products@, names_of(products@)).contains(k)
                        ==> catalog.products@.contains_key(k)
                &&& cyclic_within(
                    catalog.products@,
                    selected(catalog.products@, names_of(products@)),
                )
            },
            Err(_) => false,
        },
{
    if products.len() == 0 {
        let all = catalog.products.keys();
        proof {
            assert(name_set(names_of(all@)) =~= catalog.products@.dom());
        }
        topo_sort(&catalog.products, &all)
    } else {
        topo_sort(&catalog.products, products)
    }
}

/// Checks that the dependencies of the catalog form no cycle.
///
/// The check is made over the whole catalog; a dependency that is not a
/// product of the catalog is passed over. The failure names a product that
/// lies on a cycle: the one at which the depth-first search, which takes
/// the products in name order and the dependencies of each in the order in
/// which they are listed, met a product in progress again.
pub fn check_cycles(products: &NameMap<ProductSpec>) -> (r: Result<(), DeployError>)
    ensures
        match r {
            Ok(_) => !cyclic_within(products@, products@.dom()) && first_cycle_product(
                products@,
                products.names(),
            ) is None,
            Err(DeployError::CycleDetected { product }) => on_dep_cycle(
                products@,
                products@.dom(),
                product@,
            ) && first_cycle_product(products@, products.names()) == Some(product@),
            Err(_) => false,
        },
        r is Err <==> cyclic_within(products@, products@.dom()),
{
    let nodes = products.keys();
    proof {
        assert(name_set(names_of(nodes@)) =~= products@.dom());
    }
    let adj = dependency_lists(products, &nodes);
    proof {
        lemma_cyclic_numbered(products@, names_of(nodes@), lists(&adj));
    }
    match find_cycle(&adj) {
        Some(v) => {
            proof {
                lemma_on_cycle_up(products@, names_of(nodes@), lists(&adj), v as int);
            }
            Err(DeployError::CycleDetected { product: nodes[v].clone() })
        },
        None => Ok(()),
    }
}

/// What is wrong with a parameter reference.
pub enum MappingFault {
    /// It is not of the form `dependency.output`.
    Malformed,
    /// The product does not list the dependency.
    NotListed { dependency: Name },
    /// The catalog lacks the dependency.
    Unknown { dependency: Name },
    /// The dependency does not declare the output.
    Undeclared { dependency: Name, output: Name },
}

/// What is wrong with the reference `reference` of product `p`, if
/// anything: it must split at its first dot into a dependency that `p`
/// lists and that the catalog holds, and an output that the dependency
/// declares.
pub open spec fn mapping_fault(g: Catalog, p: Name, reference: Seq<char>) -> Option<MappingFault> {
    match split_once_at(reference, '.') {
        None => Some(MappingFault::Malformed),
        Some((dependency, output)) => if !g[p].dependencies.contains(dependency) {
            Some(MappingFault::NotListed { dependency })
        } else if !g.contains_key(dependency) {
            Some(MappingFault::Unknown { dependency })
        } else if !g[dependency].outputs.contains(output) {
            Some(MappingFault::Undeclared { dependency, output })
        } else {
            None
        },
    }
}

/// What is wrong with the mapping of parameter `k` of product `p`.
pub open spec fn fault_at(g: Catalog, p: Name, k: Name) -> Option<MappingFault> {
    mapping_fault(g, p, g[p].parameter_mapping[k])
}

/// Every parameter reference of the catalog is in order.
pub open spec fn mappings_valid(g: Catalog) -> bool {
    forall|p: Name, k: Name|
        g.contains_key(p) && #[trigger] g[p].parameter_mapping.contains_key(k) ==> fault_at(
            g,
            p,
            k,
        ) is None
}

/// The failure `e` reports the fault `f` of parameter `k` of product `p`,
/// whose reference is `reference`.
pub open spec fn reports_fault(
    e: DeployError,
    p: Name,
    k: Name,
    reference: Seq<char>,
    f: MappingFault,
) -> bool {
    match (f, e) {
        (
            MappingFault::Malformed,
            DeployError::InvalidMapping { product, parameter, reference: r },
        ) => product@ == p && parameter@ == k && r@ == reference,
        (
            MappingFault::NotListed { dependency: d },
            DeployError::MappingDependencyNotListed { product, parameter, dependency },
        ) => product@ == p && parameter@ == k && dependency@ == d,
        (
            MappingFault::Unknown { dependency: d },
            DeployError::MappingUnknownDependency { product, parameter, dependency },
        ) => product@ == p && parameter@ == k && dependency@ == d,
        (
            MappingFault::Undeclared { dependency: d, output: o },
            DeployError::MappingUndeclaredOutput { product, parameter, dependency, output },
        ) => product@ == p && parameter@ == k && dependency@ == d && output@ == o,
        _ => false,
    }
}

/// Parameter `j` of product `i`, counted in name order, is the first with
/// a fault.
pub open spec fn first_fault_at(g: Catalog, names: Seq<Name>, i: int, j: int) -> bool {
    &&& 0 <= i < names.len()
    &&& 0 <= j < g[names[i]].parameters.len()
    &&& fault_at(g, names[i], g[names[i]].parameters[j]) is Some
    &&& forall|i2: int, j2: int|
        0 <= i2 < names.len() && 0 <= j2 < g[names[i2]].parameters.len() && (i2 < i || (i2 == i
            && j2 < j)) ==> (#[trigger] fault_at(
            g,
            names[i2],
            g[names[i2]].parameters[j2],
        )) is None
}

/// The failure `e` reports the first fault among the parameter references
/// of the catalog, by product name and then by parameter name.
pub open spec fn reports_first_fault(g: Catalog, names: Seq<Name>, e: DeployError) -> bool {
    exists|i: int, j: int| #[trigger]
        first_fault_at(g, names, i, j) && reports_fault(
            e,
            names[i],
            g[names[i]].parameters[j],
            g[names[i]].parameter_mapping[g[names[i]].parameters[j]],
            fault_at(g, names[i], g[names[i]].parameters[j])->0,
        )
}

/// Checks the reference of one parameter of product `name`.
fn check_reference(
    products: &NameMap<ProductSpec>,
    name: &String,
    spec: &ProductSpec,
    parameter: &String,
    reference: &String,
) -> (r: Result<(), DeployError>)
    requires
        products@.contains_key(name@),
        products@[name@] == spec@,
    ensures
        match r {
            Ok(_) => mapping_fault(products@, name@, reference@) is None,
            Err(e) => mapping_fault(products@, name@, reference@) is Some && reports_fault(
                e,
                name@,
                parameter@,
                reference@,
                mapping_fault(products@, name@, reference@)->0,
            ),
        },
{
    match split_once(reference.as_str(), '.') {
        None => Err(
            DeployError::InvalidMapping {
                product: name.clone(),
                parameter: parameter.clone(),
                reference: reference.clone(),
            },
        ),
        Some((dependency, output)) => {
            if !contains_name(&spec.dependencies, dependency.as_str()) {
                return Err(
                    DeployError::MappingDependencyNotListed {
                        product: name.clone(),
                        parameter: parameter.clone(),
                        dependency,
                    },
                );
            }
            match products.get(dependency.as_str()) {
                None => Err(
                    DeployError::MappingUnknownDependency {
                        product: name.clone(),
                        parameter: parameter.clone(),
                        dependency,
                    },
                ),
                Some(dep_spec) => {
                    if !contains_name(&dep_spec.outputs, output.as_str()) {
                        Err(
                            DeployError::MappingUndeclaredOutput {
                                product: name.clone(),
                                parameter: parameter.clone(),
                                dependency,
                                output,
                            },
                        )
                    } else {
                        Ok(())
                    }
                },
            }
        },
    }
}

/// Checks every parameter reference of the catalog.
///
/// A reference must split at its first dot into a dependency and an
/// output; the product must list the dependency, the catalog must hold it,
/// and it must declare the output. The products are taken in name order
/// and the parameters of each in name order; the failure reports the first
/// fault met, with the product, the parameter and what was referred to.
pub fn check_mappings(products: &NameMap<ProductSpec>) -> (r: Result<(), DeployError>)
    ensures
        match r {
            Ok(_) => mappings_valid(products@),
            Err(e) => reports_first_fault(products@, products.names(), e),
        },
        r is Err <==> !mappings_valid(products@),
{
    let ghost g = products@;
    let ghost names = products.names();
    let n = products.len();
    let mut i: usize = 0;
    while i < n
        invariant
            g == products@,
            names == products.names(),
            products.wf(),
            n == names.len(),
            i <= n,
            forall|i2: int, j2: int|
                0 <= i2 < i && 0 <= j2 < g[names[i2]].parameters.len() ==> (#[trigger] fault_at(
                    g,
                    names[i2],
                    g[names[i2]].parameters[j2],
                )) is None,
            forall|i2: int, k: Name|
                0 <= i2 < i && #[trigger] g[names[i2]].parameter_mapping.contains_key(k)
                    ==> fault_at(g, names[i2], k) is None,
        decreases n - i,
    {
        let name = products.key_at(i);
        let spec = products.value_at(i);
        let m = spec.parameter_mapping.len();
        let ghost params = g[names[i as int]].parameters;
        let mut j: usize = 0;
        while j < m
            invariant
                g == products@,
                names == products.names(),
                n == names.len(),
                i < n,
                name@ == names[i as int],
                g.contains_key(name@),
                spec@ == g[names[i as int]],
                params == spec.parameter_mapping.names(),
                spec.parameter_mapping.wf(),
                m == params.len(),
                j <= m,
                forall|i2: int, j2: int|
                    0 <= i2 < i && 0 <= j2 < g[names[i2]].parameters.len() ==> (
                    #[trigger] fault_at(g, names[i2], g[names[i2]].parameters[j2])) is None,
                forall|j2: int| 0 <= j2 < j ==> (#[trigger] fault_at(g, name@, params[j2])) is None,
            decreases m - j,
        {
            let parameter = spec.parameter_mapping.key_at(j);
            let reference = spec.parameter_mapping.value_at(j);
            assert(reference@ == g[name@].parameter_mapping[params[j as int]]);
            match check_reference(products, name, spec, parameter, reference) {
                Ok(_) => {},
                Err(e) => {
                    proof {
                        assert(first_fault_at(g, names, i as int, j as int));
                        assert(!mappings_valid(g)) by {
                            assert(g[name@].parameter_mapping.contains_key(params[j as int]));
                        }
                    }
                    return Err(e);
                },
            }
            j += 1;
        }
        proof {
            assert forall|k: Name| #[trigger]
                g[names[i as int]].parameter_mapping.contains_key(k) implies fault_at(
                g,
                names[i as int],
                k,
            ) is None by {
                let j2 = choose|j2: int| 0 <= j2 < params.len() && params[j2] == k;
                assert(fault_at(g, name@, params[j2]) is None);
            }
        }
        i += 1;
    }
    proof {
        assert forall|p: Name, k: Name|
            g.contains_key(p) && #[trigger] g[p].parameter_mapping.contains_key(
                k,
            ) implies fault_at(g, p, k) is None by {
            let i2 = choose|i2: int| 0 <= i2 < names.len() && names[i2] == p;
            assert(g[names[i2]].parameter_mapping.contains_key(k));
        }
    }
    Ok(())
}

/// The name of the template bucket that the record of an environment
/// holds.
pub open spec fn bucket_name_of(env: BootstrapEnvModel) -> Option<Name> {
    match env.template_bucket {
        Some(b) => b.name,
        None => None,
    }
}

/// The name of the template bucket that the record of an environment
/// holds.
pub fn template_bucket_name(env: &BootstrapEnvState) -> (r: Option<&String>)
    ensures
        match r {
            Some(n) => bucket_name_of(env@) == Some(n@),
            None => bucket_name_of(env@) is None,
        },
{
    match &env.template_bucket {
        Some(b) => match &b.name {
            Some(n) => Some(n),
            None => None,
        },
        None => None,
    }
}

/// The environment is bootstrapped: it has a record, and the record names
/// the template bucket.
pub open spec fn bootstrapped(b: Map<Name, BootstrapEnvModel>, environment: Name) -> bool {
    b.contains_key(environment) && bucket_name_of(b[environment]) is Some
}

/// Checks that the environment is bootstrapped.
pub fn check_bootstrap(bootstrap: &BootstrapState, environment: &str) -> (r: Result<
    (),
    DeployError,
>)
    ensures
        match r {
            Ok(_) => bootstrapped(bootstrap.environments@, environment@),
            Err(DeployError::EnvironmentNotBootstrapped { environment: e }) => e@ == environment@
                && !bootstrap.environments@.contains_key(environment@),
            Err(DeployError::MissingTemplateBucket) => bootstrap.environments@.contains_key(
                environment@,
            ) && bucket_name_of(bootstrap.environments@[environment@]) is None,
            Err(_) => false,
        },
{
    match bootstrap.environments.get(environment) {
        None => Err(
            DeployError::EnvironmentNotBootstrapped { environment: String::from_str(environment) },
        ),
        Some(env) => match template_bucket_name(env) {
            Some(_) => Ok(()),
            None => Err(DeployError::MissingTemplateBucket),
        },
    }
}

/// The catalog and the bootstrap record are in order for the environment:
/// the dependencies of the whole catalog form no cycle, every parameter
/// reference is in order, and the environment is bootstrapped.
pub open spec fn valid(catalog: &CatalogFile, bootstrap: &BootstrapState, environment: Name) -> bool {
    &&& !cyclic_within(catalog.products@, catalog.products@.dom())
    &&& mappings_valid(catalog.products@)
    &&& bootstrapped(bootstrap.environments@, environment)
}

/// The failure `e` reports the first thing that is not in order, in the
/// order of the checks: a cycle, by the product at which the search met
/// it; else the first faulty parameter reference; else the missing
/// bootstrap record or the missing name of the template bucket.
pub open spec fn reports_invalid(
    catalog: &CatalogFile,
    bootstrap: &BootstrapState,
    environment: Name,
    e: DeployError,
) -> bool {
    if cyclic_within(catalog.products@, catalog.products@.dom()) {
        match e {
            DeployError::CycleDetected { product } => on_dep_cycle(
                catalog.products@,
                catalog.products@.dom(),
                product@,
            ) && first_cycle_product(catalog.products@, catalog.products.names()) == Some(product@),
            _ => false,
        }
    } else if !mappings_valid(catalog.products@) {
        reports_first_fault(catalog.products@, catalog.products.names(), e)
    } else {
        match e {
            DeployError::EnvironmentNotBootstrapped { environment: x } => x@ == environment
                && !bootstrap.environments@.contains_key(environment),
            DeployError::MissingTemplateBucket => bootstrap.environments@.contains_key(
                environment,
            ) && bucket_name_of(bootstrap.environments@[environment]) is None,
            _ => false,
        }
    }
}

/// Validates the catalog and the bootstrap record of the environment.
///
/// The checks are made in this order and the first failure is returned:
/// the dependencies of the whole catalog form no cycle; every parameter
/// reference is in order; the environment is bootstrapped. Nothing is
/// changed.
pub fn validate(catalog: &CatalogFile, bootstrap: &BootstrapState, environment: &str) -> (r: Result<
    (),
    DeployError,
>)
    ensures
        r is Ok <==> valid(catalog, bootstrap, environment@),
        match r {
            Ok(_) => true,
            Err(e) => reports_invalid(catalog, bootstrap, environment@, e),
        },
{
    match check_cycles(&catalog.products) {
        Err(e) => {
            return Err(e);
        },
        Ok(_) => {},
    }
    match check_mappings(&catalog.products) {
        Err(e) => {
            return Err(e);
        },
        Ok(_) => {},
    }
    check_bootstrap(bootstrap, environment)
}

/// The recorded state of the products of one environment.
pub type Recorded = Map<Name, DeployProductModel>;

/// Why a parameter reference cannot be resolved.
pub enum ResolveFault {
    /// It is not of the form `dependency.output`.
    Malformed,
    /// The dependency has no recorded state.
    NoState { dependency: Name },
    /// The dependency has not recorded the output.
    NoOutput { dependency: Name, output: Name },
}

/// The value that `reference` resolves to: the output of that name that
/// the dependency has recorded. The outputs that the catalog declares play
/// no part.
pub open spec fn resolved(state: Recorded, reference: Seq<char>) -> Result<Name, ResolveFault> {
    match split_once_at(reference, '.') {
        None => Err(ResolveFault::Malformed),
        Some((dependency, output)) => if !state.contains_key(dependency) {
            Err(ResolveFault::NoState { dependency })
        } else if !state[dependency].outputs.contains_key(output) {
            Err(ResolveFault::NoOutput { dependency, output })
        } else {
            Ok(state[dependency].outputs[output])
        },
    }
}

/// The failure `e` reports that the reference of parameter `k` of product
/// `p` cannot be resolved for the reason `f`.
pub open spec fn reports_unresolved(
    e: DeployError,
    p: Name,
    k: Name,
    reference: Seq<char>,
    f: ResolveFault,
) -> bool {
    match (f, e) {
        (
            ResolveFault::Malformed,
            DeployError::InvalidMapping { product, parameter, reference: r },
        ) => product@ == p && parameter@ == k && r@ == reference,
        (
            ResolveFault::NoState { dependency: d },
            DeployError::MissingDependencyState { dependency },
        ) => dependency@ == d,
        (
            ResolveFault::NoOutput { dependency: d, output: o },
            DeployError::MissingOutput { dependency, output },
        ) => dependency@ == d && output@ == o,
        _ => false,
    }
}

/// Every parameter of the product resolves.
pub open spec fn resolvable(product: ProductModel, state: Recorded) -> bool {
    forall|k: Name| #[trigger]
        product.parameter_mapping.contains_key(k) ==> resolved(
            state,
            product.parameter_mapping[k],
        ) is Ok
}

/// `params` gives every mapped parameter of the product the value that its
/// reference resolves to, and holds nothing else.
pub open spec fn is_resolution(product: ProductModel, state: Recorded, params: Map<Name, Name>) -> bool {
    &&& params.dom() == product.parameter_mapping.dom()
    &&& forall|k: Name| #[trigger]
        params.contains_key(k) ==> resolved(state, product.parameter_mapping[k]) == Ok::<
            Name,
            ResolveFault,
        >(params[k])
}

/// Parameter `j` of the product, in name order, is the first that does not
/// resolve, and `e` reports it.
pub open spec fn reports_first_unresolved(
    p: Name,
    product: ProductModel,
    state: Recorded,
    e: DeployError,
) -> bool {
    exists|j: int|
        {
            &&& 0 <= j < product.parameters.len()
            &&& (#[trigger] resolved(
                state,
                product.parameter_mapping[product.parameters[j]],
            )) is Err
            &&& forall|j2: int|
                0 <= j2 < j ==> (#[trigger] resolved(
                    state,
                    product.parameter_mapping[product.parameters[j2]],
                )) is Ok
            &&& reports_unresolved(
                e,
                p,
                product.parameters[j],
                product.parameter_mapping[product.parameters[j]],
                resolved(state, product.parameter_mapping[product.parameters[j]])->Err_0,
            )
        }
}

/// The values of the input parameters of a product that is about to be
/// provisioned.
///
/// Each mapped parameter gets the value that the referenced dependency has
/// recorded for the referenced output in the state of the environment. The
/// call fails where the catalog lacks the product, and otherwise at the
/// first parameter, in name order, whose dependency has no recorded state
/// or has not recorded the output.
pub fn resolve_parameters(
    catalog: &CatalogFile,
    deploy_env: &DeployEnvState,
    product_name: &str,
) -> (r: Result<NameMap<String>, DeployError>)
    ensures
        r is Ok <==> catalog.products@.contains_key(product_name@) && resolvable(
            catalog.products@[product_name@],
            deploy_env@,
        ),
        match r {
            Ok(params) => is_resolution(catalog.products@[product_name@], deploy_env@, params@),
            Err(e) => if !catalog.products@.contains_key(product_name@) {
                match e {
                    DeployError::UnknownProduct { product } => product@ == product_name@,
                    _ => false,
                }
            } else {
                reports_first_unresolved(
                    product_name@,
                    catalog.products@[product_name@],
                    deploy_env@,
                    e,
                )
            },
        },
{
    let spec = match catalog.products.get(product_name) {
        Some(s) => s,
        None => {
            return Err(DeployError::UnknownProduct { product: String::from_str(product_name) });
        },
    };
    let ghost product = catalog.products@[product_name@];
    let ghost state = deploy_env@;
    let ghost params = product.parameters;
    let mut out: NameMap<String> = NameMap::new();
    let m = spec.parameter_mapping.len();
    let mut j: usize = 0;
    while j < m
        invariant
            catalog.products@.contains_key(product_name@),
            product == catalog.products@[product_name@],
            product == spec@,
            state == deploy_env@,
            params == spec.parameter_mapping.names(),
            spec.parameter_mapping.wf(),
            m == params.len(),
            j <= m,
            forall|k: Name|
                out@.contains_key(k) <==> exists|j2: int| 0 <= j2 < j && #[trigger] params[j2] == k,
            forall|k: Name| #[trigger]
                out@.contains_key(k) ==> resolved(state, product.parameter_mapping[k]) == Ok::<
                    Name,
                    ResolveFault,
                >(out@[k]),
            forall|j2: int|
                0 <= j2 < j ==> (#[trigger] resolved(
                    state,
                    product.parameter_mapping[params[j2]],
                )) is Ok,
        decreases m - j,
    {
        let parameter = spec.parameter_mapping.key_at(j);
        let reference = spec.parameter_mapping.value_at(j);
        assert(reference@ == product.parameter_mapping[params[j as int]]);
        let value = match split_once(reference.as_str(), '.') {
            None => {
                let e = DeployError::InvalidMapping {
                    product: String::from_str(product_name),
                    parameter: parameter.clone(),
                    reference: reference.clone(),
                };
                proof {
                    assert(resolved(state, product.parameter_mapping[params[j as int]]) is Err);
                    assert(product.parameter_mapping.contains_key(params[j as int]));
                }
                return Err(e);
            },
            Some((dependency, output)) => match deploy_env.products.get(dependency.as_str()) {
                None => {
                    proof {
                        assert(resolved(state, product.parameter_mapping[params[j as int]]) is Err);
                        assert(product.parameter_mapping.contains_key(params[j as int]));
                    }
                    return Err(DeployError::MissingDependencyState { dependency });
                },
                Some(dep_state) => match dep_state.outputs.get(output.as_str()) {
                    None => {
                        proof {
                            assert(resolved(state, product.parameter_mapping[params[j as int]])
                                is Err);
                            assert(product.parameter_mapping.contains_key(params[j as int]));
                        }
                        return Err(DeployError::MissingOutput { dependency, output });
                    },
                    Some(v) => v.clone(),
                },
            },
        };
        let ghost before = out@;
        out.insert(parameter.clone(), value);
        proof {
            assert forall|k: Name| out@.contains_key(k) <==> exists|j2: int|
                0 <= j2 < j + 1 && #[trigger] params[j2] == k by {
                if out@.contains_key(k) && k != params[j as int] {
                    assert(before.contains_key(k));
                    let j2 = choose|j2: int| 0 <= j2 < j && #[trigger] params[j2] == k;
                    assert(0 <= j2 < j + 1 && params[j2] == k);
                }
                if exists|j2: int| 0 <= j2 < j + 1 && #[trigger] params[j2] == k {
                    let j2 = choose|j2: int| 0 <= j2 < j + 1 && #[trigger] params[j2] == k;
                    if j2 < j {
                        assert(before.contains_key(k));
                    }
                }
            }
        }
        j += 1;
    }
    proof {
        assert(out@.dom() =~= product.parameter_mapping.dom()) by {
            assert forall|k: Name| out@.contains_key(k) <==> product.parameter_mapping.contains_key(
                k,
            ) by {
                if product.parameter_mapping.contains_key(k) {
                    let j2 = choose|j2: int| 0 <= j2 < params.len() && params[j2] == k;
                    assert(params[j2] == k);
                }
            }
        }
    }
    Ok(out)
}

} // verus!
