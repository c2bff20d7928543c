use scd::config::{CatalogFile, ProductSpec};
use scd::deploy::{plan, topo_sort};
use scd::error::{DeployError, ErrorKind};
use scd::namemap::NameMap;

fn names(list: &[&str]) -> Vec<String> {
    list.iter().map(|s| s.to_string()).collect()
}

fn product(deps: &[&str]) -> ProductSpec {
    ProductSpec {
        path: String::new(),
        portfolio: String::new(),
        ecr_repository: None,
        dependencies: names(deps),
        parameter_mapping: NameMap::new(),
        outputs: Vec::new(),
    }
}

fn catalog(products: &[(&str, &[&str])]) -> CatalogFile {
    let mut c = CatalogFile::default();
    for (name, deps) in products {
        c.products.insert(name.to_string(), product(deps));
    }
    c
}

fn position(order: &[String], name: &str) -> usize {
    order.iter().position(|n| n == name).unwrap()
}

#[test]
fn deploy_plan_prints_topological_order() {
    let c = catalog(&[("networking", &[]), ("database", &["networking"])]);
    assert_eq!(plan(&c, &vec![]), Ok(names(&["networking", "database"])));
}

#[test]
fn plan_of_empty_catalog_is_empty() {
    let c = CatalogFile::default();
    assert_eq!(plan(&c, &vec![]), Ok(Vec::<String>::new()));
}

#[test]
fn plan_fails_on_cycle() {
    let c = catalog(&[("a", &["b"]), ("b", &["a"])]);
    let e = plan(&c, &vec![]).unwrap_err();
    assert_eq!(e, DeployError::CircularDependency);
    assert_eq!(e.kind(), ErrorKind::Graph);
    assert_eq!(e.message(), "circular dependency detected");
}

#[test]
fn plan_fails_on_cycle_from_any_request_order() {
    let c = catalog(&[("a", &["b"]), ("b", &["c"]), ("c", &["a"]), ("d", &[])]);
    for request in [["a", "b", "c"], ["b", "c", "a"], ["c", "a", "b"]] {
        assert_eq!(plan(&c, &names(&request)), Err(DeployError::CircularDependency));
    }
    assert_eq!(plan(&c, &vec![]), Err(DeployError::CircularDependency));
}

#[test]
fn plan_fails_on_self_dependency() {
    let c = catalog(&[("a", &["a"])]);
    assert_eq!(plan(&c, &vec![]), Err(DeployError::CircularDependency));
}

#[test]
fn plan_of_subset_without_the_cycle_succeeds() {
    let c = catalog(&[("a", &["b"]), ("b", &["a"]), ("d", &[])]);
    assert_eq!(plan(&c, &names(&["d"])), Ok(names(&["d"])));
    // One node of the cycle alone has no dependency inside the subset.
    assert_eq!(plan(&c, &names(&["a"])), Ok(names(&["a"])));
}

#[test]
fn plan_passes_over_dependencies_outside_the_subset() {
    let c = catalog(&[("networking", &[]), ("database", &["networking"])]);
    assert_eq!(plan(&c, &names(&["database"])), Ok(names(&["database"])));
}

#[test]
fn plan_places_ready_products_in_name_order() {
    let c = catalog(&[("b", &[]), ("c", &[]), ("a", &[])]);
    assert_eq!(plan(&c, &vec![]), Ok(names(&["a", "b", "c"])));
}

#[test]
fn plan_places_products_in_the_order_in_which_they_become_ready() {
    // `z` becomes ready after `a`, `c` only after `b`.
    let c = catalog(&[("a", &[]), ("b", &[]), ("z", &["a"]), ("c", &["b"])]);
    assert_eq!(plan(&c, &vec![]), Ok(names(&["a", "b", "z", "c"])));
}

#[test]
fn plan_places_every_product_behind_its_dependencies() {
    let c = catalog(&[
        ("app", &["db", "cache", "net"]),
        ("cache", &["net"]),
        ("db", &["net", "storage"]),
        ("net", &[]),
        ("storage", &[]),
        ("web", &["app"]),
    ]);
    let order = plan(&c, &vec![]).unwrap();
    assert_eq!(order, names(&["net", "storage", "cache", "db", "app", "web"]));
    for (name, deps) in [
        ("app", vec!["db", "cache", "net"]),
        ("cache", vec!["net"]),
        ("db", vec!["net", "storage"]),
        ("web", vec!["app"]),
    ] {
        for d in deps {
            assert!(position(&order, d) < position(&order, name));
        }
    }
}

#[test]
fn plan_counts_a_dependency_that_is_listed_twice_once() {
    let c = catalog(&[("a", &[]), ("b", &["a", "a"])]);
    assert_eq!(plan(&c, &vec![]), Ok(names(&["a", "b"])));
}

#[test]
fn plan_takes_a_product_that_is_requested_twice_once() {
    let c = catalog(&[("a", &[]), ("b", &["a"])]);
    assert_eq!(plan(&c, &names(&["b", "a", "b"])), Ok(names(&["a", "b"])));
}

#[test]
fn plan_names_the_unknown_product() {
    let c = catalog(&[("a", &[])]);
    let e = plan(&c, &names(&["a", "nope"])).unwrap_err();
    assert_eq!(e, DeployError::UnknownProduct { product: "nope".to_string() });
    assert_eq!(e.kind(), ErrorKind::Graph);
    assert_eq!(e.message(), "unknown product 'nope'");
}

#[test]
fn plan_names_the_first_unknown_product_in_name_order() {
    let c = catalog(&[("a", &[])]);
    let e = plan(&c, &names(&["zz", "a", "mm"])).unwrap_err();
    assert_eq!(e, DeployError::UnknownProduct { product: "mm".to_string() });
}

#[test]
fn plan_reports_an_unknown_product_before_a_cycle() {
    let c = catalog(&[("a", &["b"]), ("b", &["a"])]);
    let e = plan(&c, &names(&["a", "b", "x"])).unwrap_err();
    assert_eq!(e, DeployError::UnknownProduct { product: "x".to_string() });
}

#[test]
fn topo_sort_orders_the_subset_it_is_given() {
    let c = catalog(&[("a", &[]), ("b", &["a"]), ("c", &["b"])]);
    assert_eq!(topo_sort(&c.products, &names(&["c", "a"])), Ok(names(&["a", "c"])));
    assert_eq!(topo_sort(&c.products, &vec![]), Ok(Vec::<String>::new()));
}

#[test]
fn plan_orders_names_by_code_point() {
    let c = catalog(&[("b", &[]), ("B", &[]), ("a1", &[]), ("a", &[]), ("é", &[])]);
    assert_eq!(plan(&c, &vec![]), Ok(names(&["B", "a", "a1", "b", "é"])));
}
