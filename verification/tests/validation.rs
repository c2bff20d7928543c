use scd::config::{CatalogFile, ProductSpec};
use scd::deploy::{check_bootstrap, check_cycles, check_mappings, validate};
use scd::error::{DeployError, ErrorKind};
use scd::namemap::NameMap;
use scd::state::{BootstrapEnvState, BootstrapState, ResourceRef};

fn names(list: &[&str]) -> Vec<String> {
    list.iter().map(|s| s.to_string()).collect()
}

fn product(deps: &[&str], outputs: &[&str], mapping: &[(&str, &str)]) -> ProductSpec {
    let mut parameter_mapping = NameMap::new();
    for (k, v) in mapping {
        parameter_mapping.insert(k.to_string(), v.to_string());
    }
    ProductSpec {
        path: String::new(),
        portfolio: String::new(),
        ecr_repository: None,
        dependencies: names(deps),
        parameter_mapping,
        outputs: names(outputs),
    }
}

fn catalog(products: Vec<(&str, ProductSpec)>) -> CatalogFile {
    let mut c = CatalogFile::default();
    for (name, spec) in products {
        c.products.insert(name.to_string(), spec);
    }
    c
}

fn bootstrapped(environment: &str) -> BootstrapState {
    let mut st = BootstrapState::default();
    st.environments.insert(
        environment.to_string(),
        BootstrapEnvState {
            account_id: "111111111111".to_string(),
            region: "us-east-1".to_string(),
            template_bucket: Some(ResourceRef { name: Some("x".to_string()), ..Default::default() }),
            ..Default::default()
        },
    );
    st
}

fn sample() -> CatalogFile {
    catalog(vec![
        ("networking", product(&[], &["VpcId"], &[])),
        (
            "database",
            product(&["networking"], &["DbEndpoint"], &[("VpcId", "networking.VpcId")]),
        ),
    ])
}

#[test]
fn validate_accepts_a_sound_catalog() {
    assert_eq!(validate(&sample(), &bootstrapped("dev"), "dev"), Ok(()));
}

#[test]
fn deploy_validate_fails_on_cycle() {
    let c = catalog(vec![
        ("a", product(&["b"], &["OutA"], &[])),
        ("b", product(&["a"], &["OutB"], &[])),
    ]);
    let e = validate(&c, &bootstrapped("dev"), "dev").unwrap_err();
    assert!(e.message().contains("cycle"));
    assert_eq!(e, DeployError::CycleDetected { product: "a".to_string() });
    assert_eq!(e.message(), "cycle detected at 'a'");
    assert_eq!(e.kind(), ErrorKind::Graph);
}

#[test]
fn validate_finds_a_cycle_that_is_not_reached_from_the_first_product() {
    let c = catalog(vec![
        ("a", product(&[], &[], &[])),
        ("m", product(&["n"], &[], &[])),
        ("n", product(&["o"], &[], &[])),
        ("o", product(&["m"], &[], &[])),
    ]);
    assert_eq!(
        check_cycles(&c.products),
        Err(DeployError::CycleDetected { product: "m".to_string() })
    );
}

#[test]
fn validate_names_a_product_on_the_cycle_not_the_one_that_leads_to_it() {
    let c = catalog(vec![
        ("a", product(&["x"], &[], &[])),
        ("x", product(&["y"], &[], &[])),
        ("y", product(&["x"], &[], &[])),
    ]);
    assert_eq!(
        check_cycles(&c.products),
        Err(DeployError::CycleDetected { product: "x".to_string() })
    );
}

#[test]
fn validate_finds_a_self_dependency() {
    let c = catalog(vec![("a", product(&["a"], &[], &[]))]);
    assert_eq!(
        check_cycles(&c.products),
        Err(DeployError::CycleDetected { product: "a".to_string() })
    );
}

#[test]
fn cycle_check_passes_over_dependencies_outside_the_catalog() {
    let c = catalog(vec![("a", product(&["ghost"], &[], &[]))]);
    assert_eq!(check_cycles(&c.products), Ok(()));
}

#[test]
fn cycle_check_accepts_a_diamond() {
    let c = catalog(vec![
        ("a", product(&["b", "c"], &[], &[])),
        ("b", product(&["d"], &[], &[])),
        ("c", product(&["d"], &[], &[])),
        ("d", product(&[], &[], &[])),
    ]);
    assert_eq!(check_cycles(&c.products), Ok(()));
}

#[test]
fn validate_rejects_an_undeclared_output() {
    let c = catalog(vec![
        ("svc", product(&["x"], &[], &[("P", "x.Out")])),
        ("x", product(&[], &[], &[])),
    ]);
    let e = validate(&c, &bootstrapped("dev"), "dev").unwrap_err();
    assert_eq!(
        e,
        DeployError::MappingUndeclaredOutput {
            product: "svc".to_string(),
            parameter: "P".to_string(),
            dependency: "x".to_string(),
            output: "Out".to_string(),
        }
    );
    assert_eq!(e.message(), "svc: mapping for P references output 'Out' not declared by 'x'");
    assert_eq!(e.kind(), ErrorKind::Graph);
}

#[test]
fn validate_rejects_a_dependency_that_is_not_listed() {
    let c = catalog(vec![
        ("svc", product(&[], &[], &[("P", "x.Out")])),
        ("x", product(&[], &["Out"], &[])),
    ]);
    let e = check_mappings(&c.products).unwrap_err();
    assert_eq!(
        e,
        DeployError::MappingDependencyNotListed {
            product: "svc".to_string(),
            parameter: "P".to_string(),
            dependency: "x".to_string(),
        }
    );
    assert_eq!(e.message(), "svc: mapping for P uses 'x' but it's not listed in dependencies");
}

#[test]
fn validate_rejects_a_dependency_that_the_catalog_lacks() {
    let c = catalog(vec![("svc", product(&["ghost"], &[], &[("P", "ghost.Out")]))]);
    let e = validate(&c, &bootstrapped("dev"), "dev").unwrap_err();
    assert_eq!(
        e,
        DeployError::MappingUnknownDependency {
            product: "svc".to_string(),
            parameter: "P".to_string(),
            dependency: "ghost".to_string(),
        }
    );
    assert_eq!(e.message(), "svc: mapping for P references unknown dependency 'ghost'");
}

#[test]
fn validate_rejects_a_reference_without_a_dot() {
    let c = catalog(vec![("svc", product(&[], &[], &[("P", "nodot")]))]);
    let e = check_mappings(&c.products).unwrap_err();
    assert_eq!(
        e,
        DeployError::InvalidMapping {
            product: "svc".to_string(),
            parameter: "P".to_string(),
            reference: "nodot".to_string(),
        }
    );
    assert_eq!(e.message(), "svc: invalid mapping for P: 'nodot' (expected dep.output)");
}

#[test]
fn a_reference_splits_at_its_first_dot() {
    let c = catalog(vec![
        ("svc", product(&["x"], &[], &[("P", "x.a.b")])),
        ("x", product(&[], &["a.b"], &[])),
    ]);
    assert_eq!(check_mappings(&c.products), Ok(()));
}

#[test]
fn validate_reports_the_first_fault_by_product_and_parameter() {
    let c = catalog(vec![
        ("b", product(&[], &[], &[("P", "nodot")])),
        ("a", product(&["x"], &[], &[("Z", "bad"), ("M", "x.Missing")])),
        ("x", product(&[], &[], &[])),
    ]);
    assert_eq!(
        check_mappings(&c.products),
        Err(DeployError::MappingUndeclaredOutput {
            product: "a".to_string(),
            parameter: "M".to_string(),
            dependency: "x".to_string(),
            output: "Missing".to_string(),
        })
    );
}

#[test]
fn validate_reports_a_cycle_before_a_mapping_fault() {
    let c = catalog(vec![
        ("a", product(&["b"], &[], &[("P", "nodot")])),
        ("b", product(&["a"], &[], &[])),
    ]);
    let e = validate(&c, &BootstrapState::default(), "dev").unwrap_err();
    assert_eq!(e, DeployError::CycleDetected { product: "a".to_string() });
}

#[test]
fn validate_rejects_an_environment_without_bootstrap_record() {
    let e = validate(&sample(), &bootstrapped("dev"), "prod").unwrap_err();
    assert_eq!(e, DeployError::EnvironmentNotBootstrapped { environment: "prod".to_string() });
    assert_eq!(
        e.message(),
        "environment 'prod' not bootstrapped/synced (run `scd sync -e prod`)"
    );
    assert_eq!(e.kind(), ErrorKind::State);
}

#[test]
fn validate_rejects_a_record_without_template_bucket() {
    let mut st = BootstrapState::default();
    st.environments.insert("dev".to_string(), BootstrapEnvState::default());
    assert_eq!(check_bootstrap(&st, "dev"), Err(DeployError::MissingTemplateBucket));
    st.environments.insert(
        "dev".to_string(),
        BootstrapEnvState { template_bucket: Some(ResourceRef::default()), ..Default::default() },
    );
    let e = validate(&sample(), &st, "dev").unwrap_err();
    assert_eq!(e, DeployError::MissingTemplateBucket);
    assert_eq!(e.message(), "bootstrap state missing template bucket (run `scd sync`)");
}

#[test]
fn validate_changes_nothing() {
    let c = sample();
    let st = bootstrapped("dev");
    let (c0, st0) = (c.clone(), st.clone());
    let _ = validate(&c, &st, "dev");
    assert_eq!(c, c0);
    assert_eq!(st, st0);
}

#[test]
fn validate_follows_the_dependencies_in_the_order_in_which_they_are_listed() {
    // From `a` the search goes to `c` first, which depends on itself.
    let c = catalog(vec![
        ("a", product(&["c", "b"], &[], &[])),
        ("b", product(&["b"], &[], &[])),
        ("c", product(&["c"], &[], &[])),
    ]);
    assert_eq!(
        check_cycles(&c.products),
        Err(DeployError::CycleDetected { product: "c".to_string() })
    );
    let c = catalog(vec![
        ("a", product(&["b", "c"], &[], &[])),
        ("b", product(&["b"], &[], &[])),
        ("c", product(&["c"], &[], &[])),
    ]);
    assert_eq!(
        check_cycles(&c.products),
        Err(DeployError::CycleDetected { product: "b".to_string() })
    );
}

#[test]
fn validate_names_the_product_that_is_met_again() {
    // a -> b -> c -> b: the search from `a` meets `b` again, not `a`.
    let c = catalog(vec![
        ("a", product(&["b"], &[], &[])),
        ("b", product(&["c"], &[], &[])),
        ("c", product(&["b"], &[], &[])),
    ]);
    assert_eq!(
        check_cycles(&c.products),
        Err(DeployError::CycleDetected { product: "b".to_string() })
    );
    // A product that is done is not entered again: the cycle among the
    // later products is met from its first product in name order.
    let c = catalog(vec![
        ("a", product(&["z"], &[], &[])),
        ("m", product(&["z", "n"], &[], &[])),
        ("n", product(&["m"], &[], &[])),
        ("z", product(&[], &[], &[])),
    ]);
    assert_eq!(
        check_cycles(&c.products),
        Err(DeployError::CycleDetected { product: "m".to_string() })
    );
}
