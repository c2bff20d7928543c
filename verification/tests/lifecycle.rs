use scd::aws::{settle, Call, Policy, Step};
use scd::config::{BootstrapFile, CatalogFile, EcrRepository, ProductSpec};
use scd::error::{DeployError, ErrorKind};
use scd::lifecycle::{
    adopt_or_provision, apply_begin, apply_prepare, apply_stages, bucket_release, check_guard,
    collect_outputs, portfolio_release_steps, product_release_steps, role_release_steps,
    those_present,
    destroy_plan, destroy_steps, find_artifact_id, find_instance_id, first_launch_path,
    instance_query, launch_stages, poll_failure, poll_step, publish_begin, publish_prepare,
    publish_stages, publish_targets, record_applied, record_published, record_terminated,
    saves_state, stage_policy, status, terminate_begin, terminate_prepare, terminate_stages,
    terminate_targets, Doomed, Listed, OutputPair, PollOutcome, Stage, StatusRow, Teardown,
    MAX_WAIT_SECS, POLL_INTERVAL_SECS,
};
use scd::namemap::NameMap;
use scd::state::{
    BootstrapEnvState, BootstrapState, DeployEnvState, DeployProductState, DeployState,
    ResourceRef,
};

fn names(list: &[&str]) -> Vec<String> {
    list.iter().map(|s| s.to_string()).collect()
}

fn text(s: &str) -> Option<String> {
    Some(s.to_string())
}

fn product(path: &str, deps: &[&str], mapping: &[(&str, &str)]) -> ProductSpec {
    let mut parameter_mapping = NameMap::new();
    for (k, v) in mapping {
        parameter_mapping.insert(k.to_string(), v.to_string());
    }
    ProductSpec {
        path: path.to_string(),
        portfolio: String::new(),
        ecr_repository: None,
        dependencies: names(deps),
        parameter_mapping,
        outputs: Vec::new(),
    }
}

fn catalog() -> CatalogFile {
    let mut c = CatalogFile::default();
    c.products.insert("networking".to_string(), product("net", &[], &[]));
    c.products.insert(
        "database".to_string(),
        product("db", &["networking"], &[("VpcId", "networking.VpcId")]),
    );
    c
}

fn registered(products: &[(&str, Option<&str>)]) -> BootstrapEnvState {
    let mut b = BootstrapEnvState::default();
    for (name, id) in products {
        b.products.insert(
            name.to_string(),
            ResourceRef { id: id.map(|s| s.to_string()), ..Default::default() },
        );
    }
    b
}

fn published(version: &str) -> DeployProductState {
    DeployProductState { version: text(version), ..Default::default() }
}

fn listed(id: Option<&str>, name: Option<&str>) -> Listed {
    Listed { id: id.map(|s| s.to_string()), name: name.map(|s| s.to_string()) }
}

fn sound_catalog() -> CatalogFile {
    let mut c = catalog();
    let mut networking = product("net", &[], &[]);
    networking.outputs = names(&["VpcId"]);
    c.products.insert("networking".to_string(), networking);
    c
}

fn bootstrapped(environment: &str) -> BootstrapState {
    let mut st = BootstrapState::default();
    st.environments.insert(
        environment.to_string(),
        BootstrapEnvState {
            template_bucket: Some(ResourceRef { name: text("templates"), ..Default::default() }),
            ..Default::default()
        },
    );
    st
}

fn teardown() -> Teardown {
    let doomed = |key: &str, id: &str| Doomed { key: key.to_string(), id: id.to_string() };
    Teardown {
        instances: vec![doomed("database", "pp-2"), doomed("networking", "pp-1")],
        products: vec![doomed("database", "prod-2")],
        portfolios: vec![doomed("infra", "port-1")],
        repositories: names(&["app", "worker"]),
        bucket_name: "templates".to_string(),
        role_name: "scd-launch-role-dev".to_string(),
    }
}

fn say(t: &str) -> Step {
    Step { call: Call::Say, argument: t.to_string(), policy: Policy::BestEffort }
}

fn lenient(call: Call, argument: &str) -> Step {
    Step { call, argument: argument.to_string(), policy: Policy::BestEffort }
}

fn is_change(stage: &Stage) -> bool {
    matches!(
        stage,
        Stage::Upload
            | Stage::Register
            | Stage::Update
            | Stage::Provision
            | Stage::Terminate
            | Stage::Record
    )
}

#[test]
fn terminate_without_force_or_dry_run_is_rejected() {
    let e = check_guard("terminate", false, false).unwrap_err();
    assert_eq!(e, DeployError::GuardRejected { operation: "terminate".to_string() });
    assert_eq!(e.kind(), ErrorKind::GuardRejection);
    assert_eq!(e.message(), "terminate is destructive; pass --force to proceed");
    let e = check_guard("destroy", false, false).unwrap_err();
    assert_eq!(e.message(), "destroy is destructive; pass --force to proceed");
}

#[test]
fn guard_passes_with_force_or_dry_run() {
    assert_eq!(check_guard("terminate", true, false), Ok(()));
    assert_eq!(check_guard("terminate", false, true), Ok(()));
    assert_eq!(check_guard("terminate", true, true), Ok(()));
}

#[test]
fn dry_run_writes_no_state_and_changes_nothing() {
    assert!(!saves_state(true));
    assert!(saves_state(false));
    for stages in [
        publish_stages(true),
        apply_stages(true, false),
        apply_stages(true, true),
        terminate_stages(true),
    ] {
        assert!(!stages.iter().any(is_change));
    }
}

#[test]
fn stages_of_the_three_operations() {
    assert_eq!(publish_stages(true), vec![Stage::Announce, Stage::AnnounceDryRun]);
    assert_eq!(
        publish_stages(false),
        vec![Stage::Announce, Stage::Upload, Stage::Register, Stage::Record]
    );
    assert_eq!(
        apply_stages(true, false),
        vec![Stage::FindArtifact, Stage::FindLaunchPath, Stage::Announce, Stage::AnnounceDryRun]
    );
    assert_eq!(
        apply_stages(false, false),
        vec![Stage::FindArtifact, Stage::FindLaunchPath, Stage::Announce, Stage::Locate]
    );
    assert_eq!(
        launch_stages(false),
        vec![Stage::Provision, Stage::Wait, Stage::Locate, Stage::ReadOutputs, Stage::Record]
    );
    assert_eq!(
        launch_stages(true),
        vec![Stage::Update, Stage::Wait, Stage::ReadOutputs, Stage::Record]
    );
    assert_eq!(terminate_stages(true), vec![Stage::Announce, Stage::AnnounceDryRun]);
    assert_eq!(
        terminate_stages(false),
        vec![Stage::Announce, Stage::Terminate, Stage::Wait, Stage::Record]
    );
}

#[test]
fn apply_searches_by_name_before_it_creates() {
    for dry_run in [false, true] {
        for on_record in [false, true] {
            assert!(!apply_stages(dry_run, on_record).contains(&Stage::Provision));
        }
    }
    let first = apply_stages(false, false);
    assert_eq!(first.last(), Some(&Stage::Locate));
    assert!(!first.iter().any(is_change));

    // An instance of the name exists remotely: its id is taken over and
    // nothing is created.
    let found = vec![
        listed(Some("pp-0"), Some("dev-networking-old")),
        listed(Some("pp-7"), Some("dev-networking")),
        listed(Some("pp-8"), Some("dev-networking")),
    ];
    let adopted = adopt_or_provision(&found, "dev-networking");
    assert_eq!(adopted, text("pp-7"));
    let stages = launch_stages(adopted.is_some());
    assert!(!stages.contains(&Stage::Provision));
    assert_eq!(stages[0], Stage::Update);
    assert_eq!(stages.last(), Some(&Stage::Record));
    // The id that is recorded is that of the instance that was found.
    let mut env = DeployEnvState::default();
    env.products.insert("networking".to_string(), published("v1"));
    record_applied(
        &mut env,
        "networking",
        adopted.unwrap(),
        "dev-networking".to_string(),
        "2024-03-07T09:05:01Z".to_string(),
        NameMap::new(),
    );
    assert_eq!(env.products.get("networking").unwrap().provisioned_product_id, text("pp-7"));

    // None of the name exists: one is created and then found by its name.
    let adopted = adopt_or_provision(&found, "dev-database");
    assert_eq!(adopted, None);
    let stages = launch_stages(adopted.is_some());
    assert_eq!(stages[0], Stage::Provision);
    assert!(!stages.contains(&Stage::Update));
    let at = |s: Stage| stages.iter().position(|x| *x == s).unwrap();
    assert!(at(Stage::Provision) < at(Stage::Wait));
    assert!(at(Stage::Wait) < at(Stage::Locate));
    assert!(at(Stage::Locate) < at(Stage::ReadOutputs));
}

#[test]
fn search_takes_the_first_entry_of_the_name() {
    assert_eq!(adopt_or_provision(&Vec::new(), "dev-networking"), None);
    let found = vec![
        listed(Some("pp-1"), None),
        listed(Some("pp-2"), Some("dev-networking-2")),
        listed(Some("pp-3"), Some("Dev-Networking")),
    ];
    assert_eq!(adopt_or_provision(&found, "dev-networking"), None);
    let found = vec![
        listed(Some("pp-2"), Some("dev-networking-2")),
        listed(Some("pp-3"), Some("dev-networking")),
        listed(Some("pp-4"), Some("dev-networking")),
    ];
    assert_eq!(adopt_or_provision(&found, "dev-networking"), text("pp-3"));
    // The first entry of the name decides, also where it carries no id.
    let found = vec![listed(None, Some("dev-networking")), listed(Some("pp-3"), Some("dev-networking"))];
    assert_eq!(adopt_or_provision(&found, "dev-networking"), text(""));
}

#[test]
fn every_stage_failure_is_fatal() {
    for stage in [
        Stage::Announce,
        Stage::AnnounceDryRun,
        Stage::Upload,
        Stage::Register,
        Stage::FindArtifact,
        Stage::FindLaunchPath,
        Stage::Update,
        Stage::Provision,
        Stage::Terminate,
        Stage::Wait,
        Stage::Locate,
        Stage::ReadOutputs,
        Stage::Record,
    ] {
        assert_eq!(stage_policy(stage), Policy::Fatal);
    }
    // A failed read of the outputs ends the application.
    let failed: Result<(), &str> = Err("get_provisioned_product_outputs");
    assert_eq!(settle(stage_policy(Stage::ReadOutputs), failed), failed);
}

#[test]
fn publish_validates_before_anything_else() {
    let st = bootstrapped("dev");
    assert_eq!(
        publish_begin(&sound_catalog(), &st, "dev", &Vec::new()),
        Ok(names(&["database", "networking"]))
    );
    assert_eq!(
        publish_begin(&sound_catalog(), &st, "dev", &names(&["networking"])),
        Ok(names(&["networking"]))
    );
    assert_eq!(
        publish_begin(&sound_catalog(), &st, "prod", &Vec::new()),
        Err(DeployError::EnvironmentNotBootstrapped { environment: "prod".to_string() })
    );
    assert_eq!(
        publish_begin(&sound_catalog(), &BootstrapState::default(), "dev", &names(&["networking"])),
        Err(DeployError::EnvironmentNotBootstrapped { environment: "dev".to_string() })
    );

    let mut c = sound_catalog();
    c.products.insert("networking".to_string(), product("net", &["database"], &[]));
    assert_eq!(
        publish_begin(&c, &st, "dev", &names(&["networking"])),
        Err(DeployError::CycleDetected { product: "database".to_string() })
    );

    let mut c = sound_catalog();
    c.products.insert("cache".to_string(), product("cache", &[], &[("P", "nodot")]));
    let e = publish_begin(&c, &st, "dev", &names(&["networking"])).unwrap_err();
    assert_eq!(e.kind(), ErrorKind::Graph);
}

#[test]
fn apply_validates_and_then_orders() {
    let st = bootstrapped("dev");
    assert_eq!(
        apply_begin(&sound_catalog(), &st, "dev", &Vec::new()),
        Ok(names(&["networking", "database"]))
    );
    assert_eq!(
        apply_begin(&sound_catalog(), &st, "dev", &names(&["database", "networking"])),
        Ok(names(&["networking", "database"]))
    );
    assert_eq!(
        apply_begin(&sound_catalog(), &st, "dev", &names(&["database"])),
        Ok(names(&["database"]))
    );
    // The validation fails before the order is looked at.
    assert_eq!(
        apply_begin(&sound_catalog(), &st, "prod", &names(&["nope"])),
        Err(DeployError::EnvironmentNotBootstrapped { environment: "prod".to_string() })
    );
    let e = apply_begin(&sound_catalog(), &st, "dev", &names(&["nope"])).unwrap_err();
    assert_eq!(e, DeployError::UnknownProduct { product: "nope".to_string() });

    let mut unbucketed = BootstrapState::default();
    unbucketed.environments.insert("dev".to_string(), BootstrapEnvState::default());
    assert_eq!(
        apply_begin(&sound_catalog(), &unbucketed, "dev", &Vec::new()),
        Err(DeployError::MissingTemplateBucket)
    );
}

#[test]
fn terminate_checks_the_guard_then_validates() {
    let st = bootstrapped("dev");
    let mut env = DeployEnvState::default();
    let mut live = published("v1");
    live.provisioned_product_id = text("pp-1");
    env.products.insert("networking".to_string(), live);
    env.products.insert("database".to_string(), published("v1"));

    assert_eq!(
        terminate_begin(&sound_catalog(), &st, "dev", &env, &Vec::new(), false, true),
        Ok(names(&["networking"]))
    );
    assert_eq!(
        terminate_begin(&sound_catalog(), &st, "dev", &env, &names(&["database"]), true, false),
        Ok(names(&["database"]))
    );
    // The guard is looked at first.
    assert_eq!(
        terminate_begin(&sound_catalog(), &st, "prod", &env, &Vec::new(), false, false),
        Err(DeployError::GuardRejected { operation: "terminate".to_string() })
    );
    assert_eq!(
        terminate_begin(&sound_catalog(), &st, "prod", &env, &Vec::new(), false, true),
        Err(DeployError::EnvironmentNotBootstrapped { environment: "prod".to_string() })
    );
}

#[test]
fn destroy_takes_everything_down_in_order() {
    let steps = destroy_steps(&teardown(), false);
    assert_eq!(
        steps,
        vec![
            say("Terminating database (pp-2)"),
            lenient(Call::TerminateInstance, "database"),
            say("Terminating networking (pp-1)"),
            lenient(Call::TerminateInstance, "networking"),
            say("Deleting product database (prod-2)"),
            lenient(Call::DeleteProduct, "prod-2"),
            say("Deleting portfolio infra (port-1)"),
            lenient(Call::DeletePortfolio, "port-1"),
            say("Deleting ECR repo app"),
            lenient(Call::DeleteRepository, "app"),
            say("Deleting ECR repo worker"),
            lenient(Call::DeleteRepository, "worker"),
            say("Deleting S3 bucket templates"),
            lenient(Call::DeleteBucket, "templates"),
            say("Deleting IAM role scd-launch-role-dev"),
            lenient(Call::DeleteRole, "scd-launch-role-dev"),
        ]
    );
}

#[test]
fn destroy_passes_over_every_failure() {
    for dry_run in [false, true] {
        for step in destroy_steps(&teardown(), dry_run) {
            assert_eq!(step.policy, Policy::BestEffort);
            let failed: Result<(), &str> = Err("gone");
            assert_eq!(settle(step.policy, failed), Ok(()));
        }
    }
}

#[test]
fn dry_run_of_destroy_only_says() {
    let steps = destroy_steps(&teardown(), true);
    assert!(steps.iter().all(|s| s.call == Call::Say));
    assert_eq!(
        steps,
        vec![
            say("Terminating database (pp-2)"),
            say("  [DRY RUN] terminate_provisioned_product"),
            say("Terminating networking (pp-1)"),
            say("  [DRY RUN] terminate_provisioned_product"),
            say("Deleting product database (prod-2)"),
            say("Deleting portfolio infra (port-1)"),
            say("Deleting ECR repo app"),
            say("Deleting ECR repo worker"),
            say("Deleting S3 bucket templates"),
            say("Deleting IAM role scd-launch-role-dev"),
        ]
    );
}

#[test]
fn destroy_of_an_empty_environment_still_removes_bucket_and_role() {
    let t = Teardown {
        instances: Vec::new(),
        products: Vec::new(),
        portfolios: Vec::new(),
        repositories: Vec::new(),
        bucket_name: "b".to_string(),
        role_name: "r".to_string(),
    };
    assert_eq!(
        destroy_steps(&t, false),
        vec![
            say("Deleting S3 bucket b"),
            lenient(Call::DeleteBucket, "b"),
            say("Deleting IAM role r"),
            lenient(Call::DeleteRole, "r"),
        ]
    );
}

#[test]
fn apply_of_a_recorded_instance_updates_it() {
    let stages = apply_stages(false, true);
    assert_eq!(
        stages,
        vec![
            Stage::FindArtifact,
            Stage::FindLaunchPath,
            Stage::Announce,
            Stage::Update,
            Stage::Wait,
            Stage::ReadOutputs,
            Stage::Record,
        ]
    );
    assert!(!stages.contains(&Stage::Provision));

    let mut env = DeployEnvState::default();
    env.products.insert(
        "networking".to_string(),
        DeployProductState {
            version: text("2024.01.01.000000"),
            provisioned_product_id: text("pp-123"),
            ..Default::default()
        },
    );
    let b = registered(&[("networking", Some("prod-1"))]);
    let first = apply_prepare(&catalog(), &b, &env, "dev", "networking").unwrap();
    assert_eq!(first.existing_instance, text("pp-123"));
    // A second run on the unchanged state aims at the same instance.
    let again = apply_prepare(&catalog(), &b, &env, "dev", "networking").unwrap();
    assert_eq!(again, first);
}

#[test]
fn poll_decides_on_the_status() {
    assert_eq!(poll_step(&text("SUCCEEDED"), 0), PollOutcome::Succeeded);
    assert_eq!(poll_step(&text("SUCCEEDED"), 5000), PollOutcome::Succeeded);
    assert_eq!(poll_step(&text("FAILED"), 0), PollOutcome::Failed);
    assert_eq!(poll_step(&text("IN_PROGRESS_IN_ERROR"), 30), PollOutcome::Failed);
    assert_eq!(poll_step(&text("IN_PROGRESS"), 0), PollOutcome::Wait { waited: 10 });
    assert_eq!(poll_step(&text("CREATED"), 40), PollOutcome::Wait { waited: 50 });
    assert_eq!(poll_step(&None, 0), PollOutcome::Wait { waited: 10 });
    assert_eq!(poll_step(&text("succeeded"), 0), PollOutcome::Wait { waited: 10 });
}

#[test]
fn poll_gives_up_after_the_longest_wait() {
    assert_eq!(POLL_INTERVAL_SECS, 10);
    assert_eq!(MAX_WAIT_SECS, 1200);
    assert_eq!(poll_step(&text("IN_PROGRESS"), 1180), PollOutcome::Wait { waited: 1190 });
    assert_eq!(poll_step(&text("IN_PROGRESS"), 1190), PollOutcome::Wait { waited: 1200 });
    assert_eq!(poll_step(&text("IN_PROGRESS"), 1191), PollOutcome::TimedOut);
    assert_eq!(poll_step(&text("IN_PROGRESS"), 1200), PollOutcome::TimedOut);
    assert_eq!(poll_step(&None, u64::MAX), PollOutcome::TimedOut);
}

#[test]
fn poll_ends_within_the_longest_wait() {
    let mut waited = 0;
    let mut looks = 0;
    loop {
        looks += 1;
        match poll_step(&text("IN_PROGRESS"), waited) {
            PollOutcome::Wait { waited: w } => {
                assert_eq!(w, waited + 10);
                waited = w;
            }
            other => {
                assert_eq!(other, PollOutcome::TimedOut);
                break;
            }
        }
    }
    assert_eq!(waited, 1200);
    assert_eq!(looks, 121);
}

#[test]
fn poll_failures_name_the_record() {
    let e = poll_failure(PollOutcome::Failed, "rec-1", &text("FAILED")).unwrap();
    assert_eq!(
        e,
        DeployError::RecordFailed { record_id: "rec-1".to_string(), status: "FAILED".to_string() }
    );
    assert_eq!(e.message(), "record rec-1 failed: FAILED");
    assert_eq!(e.kind(), ErrorKind::Capability);
    let e = poll_failure(PollOutcome::TimedOut, "rec-1", &None).unwrap();
    assert_eq!(e, DeployError::RecordTimedOut { record_id: "rec-1".to_string() });
    assert_eq!(e.message(), "record rec-1 timed out");
    assert_eq!(e.kind(), ErrorKind::LifecycleTimeout);
    assert_eq!(poll_failure(PollOutcome::Succeeded, "rec-1", &None), None);
    assert_eq!(poll_failure(PollOutcome::Wait { waited: 10 }, "rec-1", &None), None);
}

#[test]
fn publish_targets_are_the_named_products_or_all() {
    assert_eq!(publish_targets(&catalog(), &vec![]), names(&["database", "networking"]));
    assert_eq!(
        publish_targets(&catalog(), &names(&["networking", "database"])),
        names(&["networking", "database"])
    );
}

#[test]
fn publish_prepares_the_upload() {
    let b = registered(&[("database", Some("prod-9"))]);
    let t = publish_prepare(
        "/proj/products",
        &catalog(),
        &b,
        "eu-west-1",
        "sc-templates-1-eu-west-1",
        "database",
        "2024.03.07.090501",
    )
    .unwrap();
    assert_eq!(t.product, "database");
    assert_eq!(t.version, "2024.03.07.090501");
    assert_eq!(t.product_id, "prod-9");
    assert_eq!(t.template_path, "/proj/products/db/template.yaml");
    assert_eq!(t.s3_key, "database/2024.03.07.090501/template.yaml");
    assert_eq!(
        t.template_url,
        "https://sc-templates-1-eu-west-1.s3.eu-west-1.amazonaws.com/database/2024.03.07.090501/template.yaml"
    );
    assert_eq!(t.description, "Version 2024.03.07.090501");
}

#[test]
fn publish_needs_the_remote_id_of_the_product() {
    for b in [registered(&[]), registered(&[("database", None)])] {
        let e = publish_prepare("p", &catalog(), &b, "r", "b", "database", "v").unwrap_err();
        assert_eq!(e, DeployError::MissingProductId { product: "database".to_string() });
        assert_eq!(
            e.message(),
            "missing product id for 'database' in bootstrap state (run `scd sync`)"
        );
        assert_eq!(e.kind(), ErrorKind::State);
    }
    let b = registered(&[("ghost", Some("prod-1"))]);
    assert_eq!(
        publish_prepare("p", &catalog(), &b, "r", "b", "ghost", "v"),
        Err(DeployError::UnknownProduct { product: "ghost".to_string() })
    );
}

#[test]
fn publish_records_version_and_time() {
    let mut env = DeployEnvState::default();
    record_published(&mut env, "database", "v1".to_string(), "t1".to_string());
    let mut expected = DeployEnvState::default();
    expected.products.insert(
        "database".to_string(),
        DeployProductState { version: text("v1"), published_at: text("t1"), ..Default::default() },
    );
    assert_eq!(env, expected);

    // A later publication keeps what is recorded of the live instance.
    record_applied(
        &mut env,
        "database",
        "pp-1".to_string(),
        "dev-database".to_string(),
        "t2".to_string(),
        NameMap::new(),
    );
    record_published(&mut env, "database", "v2".to_string(), "t3".to_string());
    let got = env.products.get("database").unwrap();
    assert_eq!(got.version, text("v2"));
    assert_eq!(got.published_at, text("t3"));
    assert_eq!(got.provisioned_product_id, text("pp-1"));
    assert_eq!(got.deployed_at, text("t2"));
}

#[test]
fn apply_prepares_the_call() {
    let mut env = DeployEnvState::default();
    env.products.insert("database".to_string(), published("v7"));
    let mut net = published("v1");
    net.outputs.insert("VpcId".to_string(), "vpc-1".to_string());
    env.products.insert("networking".to_string(), net);
    let b = registered(&[("database", Some("prod-9"))]);
    let t = apply_prepare(&catalog(), &b, &env, "dev", "database").unwrap();
    assert_eq!(t.product, "database");
    assert_eq!(t.version, "v7");
    assert_eq!(t.product_id, "prod-9");
    assert_eq!(t.provisioned_name, "dev-database");
    assert_eq!(t.existing_instance, None);
    let mut params = NameMap::new();
    params.insert("Environment".to_string(), "dev".to_string());
    params.insert("VpcId".to_string(), "vpc-1".to_string());
    assert_eq!(t.parameters, params);
}

#[test]
fn apply_puts_the_environment_over_a_mapped_parameter_of_that_name() {
    let mut c = catalog();
    c.products.insert(
        "svc".to_string(),
        product("svc", &["networking"], &[("Environment", "networking.VpcId")]),
    );
    let mut env = DeployEnvState::default();
    env.products.insert("svc".to_string(), published("v1"));
    let mut net = published("v1");
    net.outputs.insert("VpcId".to_string(), "vpc-1".to_string());
    env.products.insert("networking".to_string(), net);
    let b = registered(&[("svc", Some("prod-1"))]);
    let t = apply_prepare(&c, &b, &env, "stage", "svc").unwrap();
    assert_eq!(t.parameters.get("Environment"), Some(&"stage".to_string()));
    assert_eq!(t.parameters.len(), 1);
}

#[test]
fn apply_fails_where_the_dependency_was_never_applied() {
    let mut env = DeployEnvState::default();
    env.products.insert("database".to_string(), published("v7"));
    let b = registered(&[("database", Some("prod-9"))]);
    let e = apply_prepare(&catalog(), &b, &env, "dev", "database").unwrap_err();
    assert_eq!(e, DeployError::MissingDependencyState { dependency: "networking".to_string() });
    assert_eq!(e.kind(), ErrorKind::State);
    assert!(e.message().contains("networking"));

    // The dependency is published but has no outputs on record.
    env.products.insert("networking".to_string(), published("v1"));
    let e = apply_prepare(&catalog(), &b, &env, "dev", "database").unwrap_err();
    assert_eq!(
        e,
        DeployError::MissingOutput {
            dependency: "networking".to_string(),
            output: "VpcId".to_string(),
        }
    );
}

#[test]
fn apply_needs_a_published_version_and_a_remote_id() {
    let b = registered(&[("database", Some("prod-9"))]);
    let e = apply_prepare(&catalog(), &b, &DeployEnvState::default(), "dev", "database")
        .unwrap_err();
    assert_eq!(
        e,
        DeployError::NotPublished {
            product: "database".to_string(),
            environment: "dev".to_string(),
        }
    );
    assert_eq!(
        e.message(),
        "product 'database' not published yet (run `scd deploy publish -e dev`)"
    );
    assert_eq!(e.kind(), ErrorKind::State);

    let mut env = DeployEnvState::default();
    env.products.insert("database".to_string(), DeployProductState::default());
    assert!(matches!(
        apply_prepare(&catalog(), &b, &env, "dev", "database"),
        Err(DeployError::NotPublished { .. })
    ));
    env.products.insert("database".to_string(), published("v1"));
    assert_eq!(
        apply_prepare(&catalog(), &registered(&[]), &env, "dev", "database"),
        Err(DeployError::MissingProductId { product: "database".to_string() })
    );
    env.products.insert("ghost".to_string(), published("v1"));
    assert_eq!(
        apply_prepare(&catalog(), &registered(&[("ghost", Some("p"))]), &env, "dev", "ghost"),
        Err(DeployError::UnknownProduct { product: "ghost".to_string() })
    );
}

#[test]
fn artifact_of_the_published_version_is_found() {
    let artifacts = vec![
        listed(Some("pa-0"), Some("v0.0.0-placeholder")),
        listed(Some("pa-1"), None),
        listed(Some("pa-2"), Some("v7")),
        listed(Some("pa-3"), Some("v7")),
    ];
    assert_eq!(find_artifact_id(&artifacts, "v7"), Ok("pa-2".to_string()));
    assert_eq!(find_artifact_id(&vec![listed(None, Some("v7"))], "v7"), Ok(String::new()));
    let e = find_artifact_id(&artifacts, "v8").unwrap_err();
    assert_eq!(e, DeployError::ArtifactNotFound { version: "v8".to_string() });
    assert_eq!(e.message(), "provisioning artifact not found for version v8");
}

#[test]
fn first_launch_path_is_used() {
    assert_eq!(first_launch_path(&vec![text("lp-1"), text("lp-2")]), Ok("lp-1".to_string()));
    assert_eq!(first_launch_path(&vec![None, text("lp-2")]), Ok(String::new()));
    let e = first_launch_path(&vec![]).unwrap_err();
    assert_eq!(e, DeployError::NoLaunchPath);
    assert_eq!(e.message(), "no launch paths found (check portfolio association/access)");
}

#[test]
fn instance_is_found_again_by_its_name() {
    assert_eq!(instance_query("dev-database"), "name:dev-database");
    let found = vec![
        listed(Some("pp-0"), Some("dev-database-old")),
        listed(Some("pp-1"), Some("dev-database")),
    ];
    assert_eq!(find_instance_id(&found, "dev-database"), Ok("pp-1".to_string()));
    let e = find_instance_id(&found, "dev-other").unwrap_err();
    assert_eq!(e, DeployError::ProvisionedProductNotFound);
    assert_eq!(e.message(), "could not find provisioned product after provisioning");
}

#[test]
fn outputs_leave_out_the_stack_reference() {
    let pair = |k: Option<&str>, v: Option<&str>| OutputPair {
        key: k.map(|s| s.to_string()),
        value: v.map(|s| s.to_string()),
    };
    let raw = vec![
        pair(Some("VpcId"), Some("vpc-0")),
        pair(Some("CloudformationStackARN"), Some("arn:aws:cloudformation:stack")),
        pair(Some("NoValue"), None),
        pair(None, Some("no key")),
        pair(Some("Subnets"), Some("s-1")),
        pair(Some("VpcId"), Some("vpc-1")),
    ];
    let mut expected = NameMap::new();
    expected.insert("Subnets".to_string(), "s-1".to_string());
    expected.insert("VpcId".to_string(), "vpc-1".to_string());
    assert_eq!(collect_outputs(&raw), expected);
    assert_eq!(collect_outputs(&vec![]), NameMap::new());
}

#[test]
fn apply_records_the_instance() {
    let mut env = DeployEnvState::default();
    env.products.insert("networking".to_string(), published("v1"));
    env.products.insert("database".to_string(), published("v7"));
    let mut outputs = NameMap::new();
    outputs.insert("DbEndpoint".to_string(), "db.local".to_string());
    record_applied(
        &mut env,
        "database",
        "pp-1".to_string(),
        "dev-database".to_string(),
        "2024-03-07T09:05:01Z".to_string(),
        outputs.clone(),
    );
    let mut expected = DeployEnvState::default();
    expected.products.insert("networking".to_string(), published("v1"));
    expected.products.insert(
        "database".to_string(),
        DeployProductState {
            version: text("v7"),
            provisioned_product_id: text("pp-1"),
            provisioned_product_name: text("dev-database"),
            deployed_at: text("2024-03-07T09:05:01Z"),
            outputs,
            ..Default::default()
        },
    );
    assert_eq!(env, expected);
}

#[test]
fn terminate_targets_are_the_named_products_or_the_live_ones() {
    let mut env = DeployEnvState::default();
    env.products.insert("c".to_string(), published("v1"));
    for name in ["b", "a"] {
        let mut st = published("v1");
        st.provisioned_product_id = text("pp");
        env.products.insert(name.to_string(), st);
    }
    assert_eq!(terminate_targets(&env, &vec![]), names(&["a", "b"]));
    assert_eq!(terminate_targets(&env, &names(&["c", "a"])), names(&["c", "a"]));
    assert_eq!(terminate_targets(&DeployEnvState::default(), &vec![]), Vec::<String>::new());
}

#[test]
fn terminate_passes_over_a_product_without_live_instance() {
    let mut env = DeployEnvState::default();
    env.products.insert("database".to_string(), published("v1"));
    assert_eq!(terminate_prepare(&env, "database", "2024.03.07.090501"), None);
    assert_eq!(terminate_prepare(&env, "ghost", "2024.03.07.090501"), None);
    let mut live = published("v1");
    live.provisioned_product_id = text("pp-1");
    env.products.insert("database".to_string(), live);
    let t = terminate_prepare(&env, "database", "2024.03.07.090501").unwrap();
    assert_eq!(t.product, "database");
    assert_eq!(t.instance_id, "pp-1");
    assert_eq!(t.token, "terminate-database-2024.03.07.090501");
}

#[test]
fn terminate_clears_the_instance_and_keeps_the_version() {
    let mut env = DeployEnvState::default();
    let mut outputs = NameMap::new();
    outputs.insert("DbEndpoint".to_string(), "db.local".to_string());
    env.products.insert(
        "database".to_string(),
        DeployProductState {
            version: text("v7"),
            published_at: text("t0"),
            provisioned_product_id: text("pp-1"),
            provisioned_product_name: text("dev-database"),
            deployed_at: text("t1"),
            outputs,
            ..Default::default()
        },
    );
    env.products.insert("networking".to_string(), published("v1"));
    record_terminated(&mut env, "database");
    let mut expected = DeployEnvState::default();
    expected.products.insert(
        "database".to_string(),
        DeployProductState { version: text("v7"), published_at: text("t0"), ..Default::default() },
    );
    expected.products.insert("networking".to_string(), published("v1"));
    assert_eq!(env, expected);
    // A product without an entry gets none.
    record_terminated(&mut env, "ghost");
    assert_eq!(env, expected);
}

#[test]
fn destroy_lists_what_is_on_record() {
    let mut bootstrap = BootstrapFile::default();
    bootstrap.template_bucket.name_prefix = "sc-templates".to_string();
    bootstrap.ecr_repositories.push(EcrRepository {
        name: "app".to_string(),
        scan_on_push: true,
        image_tag_mutability: "IMMUTABLE".to_string(),
    });
    let mut b = registered(&[("database", Some("prod-2")), ("networking", None)]);
    b.products.insert(
        "gone".to_string(),
        ResourceRef { id: text("prod-3"), ..Default::default() },
    );
    b.portfolios.insert(
        "infra".to_string(),
        ResourceRef { id: text("port-1"), ..Default::default() },
    );
    b.portfolios.insert("apps".to_string(), ResourceRef::default());
    let mut env = DeployEnvState::default();
    let mut live = published("v1");
    live.provisioned_product_id = text("pp-1");
    env.products.insert("networking".to_string(), live);
    env.products.insert("database".to_string(), published("v1"));

    let t = destroy_plan(&catalog(), &bootstrap, &b, &env, "dev", "111111111111", "us-east-1");
    let doomed = |key: &str, id: &str| Doomed { key: key.to_string(), id: id.to_string() };
    assert_eq!(t.instances, vec![doomed("networking", "pp-1")]);
    assert_eq!(t.products, vec![doomed("database", "prod-2")]);
    assert_eq!(t.portfolios, vec![doomed("infra", "port-1")]);
    assert_eq!(t.repositories, names(&["app"]));
    assert_eq!(t.bucket_name, "sc-templates-111111111111-us-east-1");
    assert_eq!(t.role_name, "scd-launch-role-dev");

    b.template_bucket = Some(ResourceRef { name: text("recorded-bucket"), ..Default::default() });
    let t = destroy_plan(&catalog(), &bootstrap, &b, &env, "dev", "111111111111", "us-east-1");
    assert_eq!(t.bucket_name, "recorded-bucket");
}

#[test]
fn status_lists_every_product_of_the_catalog() {
    let mut state = DeployState::default();
    let mut env = DeployEnvState::default();
    env.products.insert(
        "networking".to_string(),
        DeployProductState { version: text("v1"), deployed_at: text("t1"), ..Default::default() },
    );
    env.products.insert("unlisted".to_string(), published("v9"));
    state.environments.insert("dev".to_string(), env);
    let row = |p: &str, v: &str, d: &str| StatusRow {
        product: p.to_string(),
        version: v.to_string(),
        deployed_at: d.to_string(),
    };
    assert_eq!(
        status(&catalog(), &state, "dev"),
        vec![row("database", "-", "-"), row("networking", "v1", "t1")]
    );
    assert_eq!(
        status(&catalog(), &state, "prod"),
        vec![row("database", "-", "-"), row("networking", "-", "-")]
    );
}

#[test]
fn what_hangs_on_a_resource_is_released_before_it_goes() {
    let found = |v: &[Option<&str>]| v.iter().map(|o| o.map(str::to_string)).collect::<Vec<_>>();
    assert_eq!(
        product_release_steps(
            &found(&[Some("port-1"), None, Some("port-2")]),
            &found(&[Some("pa-1"), Some("pa-2"), None]),
        ),
        vec![
            lenient(Call::DisassociateProduct, "port-1"),
            lenient(Call::DisassociateProduct, "port-2"),
            lenient(Call::DeleteArtifact, "pa-1"),
            lenient(Call::DeleteArtifact, "pa-2"),
        ]
    );
    assert_eq!(product_release_steps(&Vec::new(), &found(&[None])), Vec::new());
    assert_eq!(
        portfolio_release_steps(&found(&[Some("arn:aws:iam::1:role/Admin"), None])),
        vec![lenient(Call::DisassociatePrincipal, "arn:aws:iam::1:role/Admin")]
    );
    assert_eq!(
        role_release_steps(&found(&[None, Some("arn:aws:iam::aws:policy/AdministratorAccess")])),
        vec![lenient(Call::DetachPolicy, "arn:aws:iam::aws:policy/AdministratorAccess")]
    );
    // A failed release does not keep the deletion from being tried.
    for step in product_release_steps(&found(&[Some("port-1")]), &found(&[Some("pa-1")])) {
        let failed: Result<(), &str> = Err("gone");
        assert_eq!(settle(step.policy, failed), Ok(()));
    }
}

#[test]
fn bucket_is_emptied_in_one_call_where_it_holds_anything() {
    let found = |v: &[Option<&str>]| v.iter().map(|o| o.map(str::to_string)).collect::<Vec<_>>();
    assert_eq!(bucket_release(&Vec::new()), None);
    assert_eq!(bucket_release(&found(&[None, None])), None);
    assert_eq!(
        bucket_release(&found(&[Some("a/1.yaml"), None, Some("b/2.yaml")])),
        Some(names(&["a/1.yaml", "b/2.yaml"]))
    );
    assert_eq!(those_present(&found(&[None, Some("x"), Some("x")])), names(&["x", "x"]));
}
