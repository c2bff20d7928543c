use scd::config::{CatalogFile, Profile, ProfilesFile, ProductSpec};
use scd::error::{DeployError, ErrorKind};
use scd::manage::{
    parse_mappings, products_add, products_graph, products_list, profiles_list, set_profile,
    starter_template,
};
use scd::namemap::NameMap;

fn names(list: &[&str]) -> Vec<String> {
    list.iter().map(|s| s.to_string()).collect()
}

fn text_map(entries: &[(&str, &str)]) -> NameMap<String> {
    let mut m = NameMap::new();
    for (k, v) in entries {
        m.insert(k.to_string(), v.to_string());
    }
    m
}

#[test]
fn products_add_rejects_bad_mapping() {
    let mut catalog = CatalogFile::default();
    let err = products_add(
        &mut catalog,
        "api".to_string(),
        None,
        None,
        None,
        vec![],
        vec![],
        vec!["BadMapping".to_string()],
    )
    .unwrap_err()
    .message();
    assert!(err.contains("invalid --param-mapping"));
    assert_eq!(err, "invalid --param-mapping 'BadMapping' (expected Param=dep.output)");
    assert_eq!(catalog, CatalogFile::default());
}

#[test]
fn products_add_enters_the_product_and_gives_its_files() {
    let mut catalog = CatalogFile::default();
    let added = products_add(
        &mut catalog,
        "database".to_string(),
        None,
        Some("infra".to_string()),
        Some("The\ndatabase".to_string()),
        names(&["networking"]),
        names(&["DbEndpoint"]),
        names(&["VpcId=networking.VpcId"]),
    )
    .unwrap();
    assert_eq!(added.directory, "database");
    assert_eq!(
        added.product_yaml,
        "name: database\ndescription: |-\n  The\n  database\nportfolio: infra\n"
    );
    assert_eq!(
        added.template,
        "AWSTemplateFormatVersion: '2010-09-09'\n\
         Description: The database\n\
         \n\
         Parameters:\n  Environment:\n    Type: String\n    Default: dev\n\
         \n  VpcId:\n    Type: String\n    Description: Mapped from networking.VpcId\n\
         \nResources:\n  PlaceholderResource:\n    Type: AWS::CloudFormation::WaitConditionHandle\n\
         \nOutputs:\n  DbEndpoint:\n    Description: DbEndpoint\n    Value: !Ref PlaceholderResource\n    Export:\n      Name: !Sub \"${Environment}-DbEndpoint\"\n"
    );
    let mut expected = CatalogFile::default();
    expected.products.insert(
        "database".to_string(),
        ProductSpec {
            path: "database".to_string(),
            portfolio: "infra".to_string(),
            ecr_repository: None,
            dependencies: names(&["networking"]),
            parameter_mapping: text_map(&[("VpcId", "networking.VpcId")]),
            outputs: names(&["DbEndpoint"]),
        },
    );
    assert_eq!(catalog, expected);
}

#[test]
fn products_add_names_directory_and_description_itself() {
    let mut catalog = CatalogFile::default();
    let added = products_add(
        &mut catalog,
        "api".to_string(),
        Some("services/api".to_string()),
        None,
        None,
        vec![],
        vec![],
        vec![],
    )
    .unwrap();
    assert_eq!(added.directory, "services/api");
    assert_eq!(added.product_yaml, "name: api\ndescription: ''\nportfolio: ''\n");
    assert_eq!(
        added.template,
        "AWSTemplateFormatVersion: '2010-09-09'\n\
         Description: Service Catalog template for api\n\
         \n\
         Parameters:\n  Environment:\n    Type: String\n    Default: dev\n\
         \nResources:\n  PlaceholderResource:\n    Type: AWS::CloudFormation::WaitConditionHandle\n"
    );
    assert_eq!(catalog.products.get("api").unwrap().path, "services/api");
    assert_eq!(catalog.products.get("api").unwrap().portfolio, "");
}

#[test]
fn products_add_rejects_a_name_that_is_taken() {
    let mut catalog = CatalogFile::default();
    catalog.products.insert("api".to_string(), ProductSpec::default());
    let before = catalog.clone();
    let e = products_add(
        &mut catalog,
        "api".to_string(),
        None,
        None,
        None,
        vec![],
        vec![],
        names(&["BadMapping"]),
    )
    .unwrap_err();
    assert_eq!(e, DeployError::ProductExists { product: "api".to_string() });
    assert_eq!(e.message(), "product 'api' already exists in .deployer/catalog.yaml");
    assert_eq!(e.kind(), ErrorKind::Configuration);
    assert_eq!(catalog, before);
}

#[test]
fn mappings_split_at_the_first_equals_sign() {
    assert_eq!(
        parse_mappings(&names(&["A=x.y", "B=p=q", "A=z.w", "C="])),
        Ok(text_map(&[("A", "z.w"), ("B", "p=q"), ("C", "")]))
    );
    assert_eq!(parse_mappings(&vec![]), Ok(NameMap::new()));
    assert_eq!(
        parse_mappings(&names(&["A=x.y", "bad", "worse"])),
        Err(DeployError::InvalidParamMapping { mapping: "bad".to_string() })
    );
}

#[test]
fn starter_template_lists_parameters_in_name_order() {
    let t = starter_template("d", &text_map(&[("B", "x.b"), ("A", "x.a")]), &names(&["O2", "O1"]));
    let a = t.find("\n  A:\n").unwrap();
    let b = t.find("\n  B:\n").unwrap();
    assert!(a < b);
    let o2 = t.find("  O2:\n").unwrap();
    let o1 = t.find("  O1:\n").unwrap();
    assert!(o2 < o1);
    assert!(t.contains("    Description: Mapped from x.a\n"));
    assert!(t.contains("      Name: !Sub \"${Environment}-O1\"\n"));
}

#[test]
fn profiles_are_set_and_listed() {
    let mut profiles = ProfilesFile::default();
    assert_eq!(profiles_list(&profiles), names(&["(no profiles configured)"]));
    set_profile(
        &mut profiles,
        "dev".to_string(),
        "dummy".to_string(),
        "us-east-1".to_string(),
        "111111111111".to_string(),
    );
    set_profile(
        &mut profiles,
        "a-very-long-environment".to_string(),
        "p".to_string(),
        "r".to_string(),
        "2".to_string(),
    );
    assert_eq!(
        profiles.profiles.get("dev"),
        Some(&Profile {
            aws_profile: "dummy".to_string(),
            aws_region: "us-east-1".to_string(),
            account_id: "111111111111".to_string(),
        })
    );
    assert_eq!(
        profiles_list(&profiles),
        vec![
            format!("{:<12} {:<24} {:<12} {}", "ENV", "AWS_PROFILE", "REGION", "ACCOUNT_ID"),
            format!("{:<12} {:<24} {:<12} {}", "a-very-long-environment", "p", "r", "2"),
            "dev          dummy                    us-east-1    111111111111".to_string(),
        ]
    );
    set_profile(
        &mut profiles,
        "dev".to_string(),
        "other".to_string(),
        "eu-west-1".to_string(),
        "3".to_string(),
    );
    assert_eq!(profiles.profiles.len(), 2);
    assert_eq!(profiles.profiles.get("dev").unwrap().aws_profile, "other");
}

#[test]
fn products_are_listed_with_their_dependencies() {
    let mut catalog = CatalogFile::default();
    assert_eq!(products_list(&catalog), names(&["(no products configured)"]));
    catalog.products.insert(
        "networking".to_string(),
        ProductSpec { path: "net".to_string(), ..Default::default() },
    );
    catalog.products.insert(
        "app".to_string(),
        ProductSpec {
            path: "app".to_string(),
            portfolio: "apps".to_string(),
            dependencies: names(&["networking", "database"]),
            ..Default::default()
        },
    );
    assert_eq!(
        products_list(&catalog),
        vec![
            "NAME             PORTFOLIO        PATH                 DEPS".to_string(),
            "app              apps             app                  networking,database"
                .to_string(),
            "networking       -                net                  -".to_string(),
        ]
    );
}

fn depends(catalog: &mut CatalogFile, name: &str, deps: &[&str]) {
    catalog.products.insert(
        name.to_string(),
        ProductSpec { dependencies: names(deps), ..Default::default() },
    );
}

#[test]
fn graph_draws_the_dependents_below_their_dependencies() {
    let mut catalog = CatalogFile::default();
    assert_eq!(products_graph(&catalog), names(&["(no products configured)"]));
    depends(&mut catalog, "networking", &[]);
    depends(&mut catalog, "database", &["networking"]);
    depends(&mut catalog, "app", &["database", "networking"]);
    assert_eq!(
        products_graph(&catalog),
        names(&[
            "└── networking",
            "    ├── app",
            "    └── database",
            "        └── app",
        ])
    );
}

#[test]
fn graph_draws_every_root_and_marks_cycles() {
    let mut catalog = CatalogFile::default();
    depends(&mut catalog, "a", &[]);
    depends(&mut catalog, "b", &["a", "c"]);
    depends(&mut catalog, "c", &["b"]);
    depends(&mut catalog, "z", &[]);
    assert_eq!(
        products_graph(&catalog),
        names(&[
            "├── a",
            "│   └── b",
            "│       └── c",
            "│           └── b (cycle)",
            "└── z",
        ])
    );
    // Where every product has a dependency, nothing is drawn.
    let mut cyclic = CatalogFile::default();
    depends(&mut cyclic, "a", &["b"]);
    depends(&mut cyclic, "b", &["a"]);
    assert_eq!(products_graph(&cyclic), Vec::<String>::new());
}

#[test]
fn graph_draws_a_dependent_as_often_as_it_lists_the_dependency() {
    let mut catalog = CatalogFile::default();
    depends(&mut catalog, "a", &[]);
    depends(&mut catalog, "b", &["a", "a"]);
    assert_eq!(products_graph(&catalog), names(&["└── a", "    ├── b", "    └── b"]));
}

#[test]
fn failure_of_a_call_says_what_was_tried() {
    let e = DeployError::Capability {
        operation: "serialize product.yaml".to_string(),
        detail: "boom".to_string(),
    };
    assert_eq!(e.kind(), ErrorKind::Capability);
    assert_eq!(e.message(), "serialize product.yaml: boom");
}

#[test]
fn profiles_list_and_set_work() {
    let mut profiles = ProfilesFile::default();
    set_profile(
        &mut profiles,
        "dev".to_string(),
        "dummy".to_string(),
        "us-east-1".to_string(),
        "111111111111".to_string(),
    );
    let listed = profiles_list(&profiles).join("\n");
    assert!(listed.contains("dev"));
    assert!(listed.contains("dummy"));
}

#[test]
fn products_add_creates_files_and_updates_catalog() {
    let mut catalog = CatalogFile::default();
    let added = products_add(
        &mut catalog,
        "networking".to_string(),
        None,
        None,
        None,
        vec![],
        names(&["VpcId"]),
        vec![],
    )
    .unwrap();
    assert_eq!(added.directory, "networking");
    assert!(added.product_yaml.contains("networking"));
    assert!(added.template.contains("VpcId"));
    assert!(catalog.products.contains_key("networking"));
    assert_eq!(catalog.products.get("networking").unwrap().outputs, names(&["VpcId"]));
    assert!(products_list(&catalog).join("\n").contains("networking"));
}
