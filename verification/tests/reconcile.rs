use scd::aws::{
    association_for, association_steps, bucket_steps, constraint_description, created_ref,
    find_named, launch_role_description, launch_role_dry_run_arn, launch_role_name,
    launch_role_outcome, launch_role_ref, launch_role_steps, load_env, named_outcome, next_page,
    ownership_tags, placeholder_key, repository_outcome, settle,
    placeholder_template, placeholder_url, portfolio_display_name, portfolio_dry_run_ref,
    portfolio_steps, portfolio_tags, product_description, product_dry_run_ref, product_name,
    product_steps, product_tags, record_synced, repository_dry_run_ref, repository_from_answer,
    repository_steps, resolve_account, resolve_connection, template_bucket_name,
    template_bucket_ref, trust_document, trust_policy, Association, AwsEnv, Call, Policy, Step,
    Tag,
};
use scd::jsondoc::{entry, list, object, single, text as json_text, Json};
use scd::config::{PortfolioSpec, Profile, ProfilesFile, TemplateBucket};
use scd::error::{DeployError, ErrorKind};
use scd::namemap::NameMap;
use scd::state::{BootstrapEnvState, ResourceRef};

fn text(s: &str) -> Option<String> {
    Some(s.to_string())
}

fn env() -> AwsEnv {
    AwsEnv {
        environment: "dev".to_string(),
        aws_profile: "sandbox".to_string(),
        aws_region: "eu-west-1".to_string(),
        account_id: "111111111111".to_string(),
    }
}

fn say(t: &str) -> Step {
    Step { call: Call::Say, argument: t.to_string(), policy: Policy::BestEffort }
}

fn fatal(call: Call, argument: &str) -> Step {
    Step { call, argument: argument.to_string(), policy: Policy::Fatal }
}

fn lenient(call: Call, argument: &str) -> Step {
    Step { call, argument: argument.to_string(), policy: Policy::BestEffort }
}

fn tag(k: &str, v: &str) -> Tag {
    Tag { key: k.to_string(), value: v.to_string() }
}

fn remote(id: Option<&str>, arn: Option<&str>, name: Option<&str>, uri: Option<&str>) -> ResourceRef {
    ResourceRef {
        id: id.map(|s| s.to_string()),
        arn: arn.map(|s| s.to_string()),
        name: name.map(|s| s.to_string()),
        uri: uri.map(|s| s.to_string()),
    }
}

fn bucket(versioning: bool, encryption: &str) -> TemplateBucket {
    TemplateBucket {
        name_prefix: "sc-templates".to_string(),
        versioning,
        encryption: encryption.to_string(),
    }
}

fn only_says(steps: &[Step]) -> bool {
    steps.iter().all(|s| s.call == Call::Say)
}

#[test]
fn environment_is_loaded_from_its_profile() {
    let mut profiles = ProfilesFile::default();
    profiles.profiles.insert(
        "dev".to_string(),
        Profile {
            aws_profile: "sandbox".to_string(),
            aws_region: "eu-west-1".to_string(),
            account_id: "111111111111".to_string(),
        },
    );
    assert_eq!(load_env(&profiles, "dev"), Ok(env()));
    let e = load_env(&profiles, "prod").unwrap_err();
    assert_eq!(e, DeployError::EnvironmentNotConfigured { environment: "prod".to_string() });
    assert_eq!(e.kind(), ErrorKind::Configuration);
    assert_eq!(e.message(), "environment 'prod' not configured (run `scd connect -e prod`)");
}

#[test]
fn connection_takes_what_is_given_before_what_is_stored() {
    let stored = Profile {
        aws_profile: "old".to_string(),
        aws_region: "us-east-1".to_string(),
        account_id: "222222222222".to_string(),
    };
    assert_eq!(
        resolve_connection(Some(&stored), text("new"), None),
        Ok(("new".to_string(), "us-east-1".to_string()))
    );
    assert_eq!(
        resolve_connection(None, text("p"), text("r")),
        Ok(("p".to_string(), "r".to_string()))
    );
    let e = resolve_connection(None, None, text("r")).unwrap_err();
    assert_eq!(e, DeployError::MissingAwsProfile);
    assert_eq!(
        e.message(),
        "missing --aws-profile and no existing profile configured for this environment"
    );
    let e = resolve_connection(None, text("p"), None).unwrap_err();
    assert_eq!(e, DeployError::MissingRegion);
    assert_eq!(
        e.message(),
        "missing --region and no existing region configured for this environment"
    );
}

#[test]
fn account_must_be_the_verified_one() {
    let stored = Profile {
        aws_profile: "p".to_string(),
        aws_region: "r".to_string(),
        account_id: "222222222222".to_string(),
    };
    assert_eq!(resolve_account(None, None, "111111111111"), Ok("111111111111".to_string()));
    assert_eq!(resolve_account(Some(&stored), None, "222222222222"), Ok("222222222222".to_string()));
    assert_eq!(
        resolve_account(Some(&stored), text("111111111111"), "111111111111"),
        Ok("111111111111".to_string())
    );
    assert_eq!(resolve_account(None, text("333333333333"), ""), Ok("333333333333".to_string()));
    assert_eq!(resolve_account(None, text(""), "111111111111"), Ok(String::new()));
    let e = resolve_account(Some(&stored), None, "111111111111").unwrap_err();
    assert_eq!(
        e,
        DeployError::AccountMismatch {
            configured: "222222222222".to_string(),
            actual: "111111111111".to_string(),
        }
    );
    assert_eq!(
        e.message(),
        "account mismatch: configured 222222222222 but STS returned 111111111111"
    );
    assert_eq!(e.kind(), ErrorKind::Configuration);
}

#[test]
fn names_are_made_of_environment_account_and_region() {
    assert_eq!(template_bucket_name("sc-templates", &env()), "sc-templates-111111111111-eu-west-1");
    assert_eq!(
        template_bucket_ref("b"),
        remote(None, Some("arn:aws:s3:::b"), Some("b"), None)
    );
    assert_eq!(launch_role_name(&env()), "scd-launch-role-dev");
    assert_eq!(launch_role_description(&env()), "Service Catalog launch role for dev");
    assert_eq!(
        launch_role_dry_run_arn(&env(), "scd-launch-role-dev"),
        "arn:aws:iam::111111111111:role/scd-launch-role-dev"
    );
    assert_eq!(product_name("database", &env()), "database-dev");
    assert_eq!(product_description("database"), "Service Catalog product: database");
    assert_eq!(placeholder_key("database-dev"), "_placeholders/database-dev/placeholder.yaml");
    assert_eq!(
        placeholder_url("bkt", &env(), "database-dev"),
        "https://bkt.s3.eu-west-1.amazonaws.com/_placeholders/database-dev/placeholder.yaml"
    );
    assert_eq!(constraint_description("database"), "Launch constraint for database");
    let spec = PortfolioSpec { display_name: "Infra".to_string(), ..Default::default() };
    assert_eq!(portfolio_display_name(&spec, &env()), "Infra (dev)");
}

#[test]
fn ownership_tags_mark_tool_and_environment() {
    assert_eq!(ownership_tags("dev"), vec![tag("ManagedBy", "scd"), tag("Environment", "dev")]);
    assert_eq!(
        product_tags(&env(), "database"),
        vec![tag("ManagedBy", "scd"), tag("Environment", "dev"), tag("ProductKey", "database")]
    );
    let mut spec = PortfolioSpec::default();
    spec.tags.insert("team".to_string(), "platform".to_string());
    spec.tags.insert("cost".to_string(), "42".to_string());
    assert_eq!(
        portfolio_tags(&env(), &spec),
        vec![
            tag("ManagedBy", "scd"),
            tag("Environment", "dev"),
            tag("cost", "42"),
            tag("team", "platform"),
        ]
    );
}

#[test]
fn missing_bucket_is_created_and_configured() {
    assert_eq!(
        bucket_steps(false, "bkt", &env(), &bucket(true, "AES256"), false),
        vec![
            fatal(Call::CreateBucket, "eu-west-1"),
            fatal(Call::EnableVersioning, "bkt"),
            fatal(Call::SetEncryption, "AES256"),
            lenient(Call::TagBucket, "bkt"),
        ]
    );
    let mut home = env();
    home.aws_region = "us-east-1".to_string();
    assert_eq!(
        bucket_steps(false, "bkt", &home, &bucket(false, ""), false),
        vec![fatal(Call::CreateBucket, ""), lenient(Call::TagBucket, "bkt")]
    );
}

#[test]
fn existing_bucket_is_configured_not_created() {
    assert_eq!(
        bucket_steps(true, "bkt", &env(), &bucket(true, "aws:kms"), false),
        vec![
            fatal(Call::EnableVersioning, "bkt"),
            fatal(Call::SetEncryption, "AES256"),
            lenient(Call::TagBucket, "bkt"),
        ]
    );
    // A second run on the bucket that the first has made takes the same steps.
    assert_eq!(
        bucket_steps(true, "bkt", &env(), &bucket(true, "aws:kms"), false),
        bucket_steps(true, "bkt", &env(), &bucket(true, "aws:kms"), false)
    );
}

#[test]
fn dry_run_of_the_bucket_only_says() {
    let steps = bucket_steps(false, "bkt", &env(), &bucket(true, "AES256"), true);
    assert_eq!(
        steps,
        vec![
            say("[DRY RUN] create s3 bucket bkt"),
            say("[DRY RUN] enable versioning on bkt"),
            say("[DRY RUN] set encryption AES256 on bkt"),
            say("[DRY RUN] tag s3 bucket bkt"),
        ]
    );
    assert!(only_says(&steps));
}

#[test]
fn repository_is_created_where_it_is_missing() {
    assert_eq!(repository_steps(true, "app", false), vec![]);
    assert_eq!(repository_steps(true, "app", true), vec![]);
    assert_eq!(repository_steps(false, "app", false), vec![fatal(Call::CreateRepository, "app")]);
    assert_eq!(repository_steps(false, "app", true), vec![say("[DRY RUN] create ecr repo app")]);
    assert_eq!(
        repository_dry_run_ref(&env(), "app"),
        remote(
            None,
            Some("arn:aws:ecr:eu-west-1:111111111111:repository/app"),
            Some("app"),
            Some("111111111111.dkr.ecr.eu-west-1.amazonaws.com/app"),
        )
    );
    let answer = remote(Some("ignored"), Some("arn:x"), Some("other"), None);
    assert_eq!(
        repository_from_answer("app", Some(&answer), "repository in describe response"),
        Ok(remote(None, Some("arn:x"), Some("app"), Some("")))
    );
    let e = repository_from_answer("app", None, "repository in describe response").unwrap_err();
    assert_eq!(
        e,
        DeployError::MissingInResponse { what: "repository in describe response".to_string() }
    );
    assert_eq!(e.message(), "missing repository in describe response");
    assert_eq!(e.kind(), ErrorKind::Capability);
}

#[test]
fn portfolio_is_found_by_its_display_name() {
    let page = vec![
        remote(Some("port-0"), Some("arn:0"), Some("Infra (prod)"), None),
        remote(Some("port-1"), None, Some("Infra (dev)"), None),
        remote(Some("port-2"), Some("arn:2"), Some("Infra (dev)"), None),
        remote(Some("port-3"), Some("arn:3"), None, None),
    ];
    assert_eq!(
        find_named(&page, "Infra (dev)"),
        Some(remote(Some("port-1"), Some(""), Some("Infra (dev)"), None))
    );
    assert_eq!(find_named(&page, "Apps (dev)"), None);
    assert_eq!(find_named(&page, ""), Some(remote(Some("port-3"), Some("arn:3"), Some(""), None)));
    assert_eq!(next_page(&text("tok")), text("tok"));
    assert_eq!(next_page(&text("")), None);
    assert_eq!(next_page(&None), None);
}

#[test]
fn portfolio_is_created_and_its_principals_get_access() {
    let spec = PortfolioSpec {
        display_name: "Infra".to_string(),
        principals: vec![
            "arn:aws:iam::${account_id}:role/Admin".to_string(),
            "arn:aws:iam::999999999999:role/Fixed".to_string(),
        ],
        ..Default::default()
    };
    assert_eq!(
        portfolio_steps(false, "infra", "Infra (dev)", &spec, &env(), false),
        vec![
            fatal(Call::CreatePortfolio, "Infra (dev)"),
            lenient(Call::AssociatePrincipal, "arn:aws:iam::111111111111:role/Admin"),
            lenient(Call::AssociatePrincipal, "arn:aws:iam::999999999999:role/Fixed"),
        ]
    );
    assert_eq!(
        portfolio_steps(true, "infra", "Infra (dev)", &spec, &env(), false),
        vec![
            lenient(Call::AssociatePrincipal, "arn:aws:iam::111111111111:role/Admin"),
            lenient(Call::AssociatePrincipal, "arn:aws:iam::999999999999:role/Fixed"),
        ]
    );
    let dry = portfolio_steps(false, "infra", "Infra (dev)", &spec, &env(), true);
    assert_eq!(
        dry,
        vec![
            say("[DRY RUN] create portfolio infra (Infra (dev))"),
            say("[DRY RUN] associate principal arn:aws:iam::${account_id}:role/Admin with portfolio infra"),
            say("[DRY RUN] associate principal arn:aws:iam::999999999999:role/Fixed with portfolio infra"),
        ]
    );
    assert!(only_says(&dry));
    assert_eq!(
        portfolio_dry_run_ref("Infra (dev)"),
        remote(Some("port-dryrun"), Some("arn:dryrun"), Some("Infra (dev)"), None)
    );
}

#[test]
fn created_things_are_recorded_from_the_answer() {
    let answer = remote(Some("port-1"), None, Some("x"), Some("u"));
    assert_eq!(
        created_ref("Infra (dev)", Some(&answer), "portfolio detail"),
        Ok(remote(Some("port-1"), Some(""), Some("Infra (dev)"), None))
    );
    let e = created_ref("Infra (dev)", None, "portfolio detail").unwrap_err();
    assert_eq!(e.message(), "missing portfolio detail");
}

#[test]
fn launch_role_is_created_once_and_gets_its_policies() {
    let policies = [
        "arn:aws:iam::aws:policy/AWSCloudFormationFullAccess",
        "arn:aws:iam::aws:policy/AmazonS3FullAccess",
        "arn:aws:iam::aws:policy/AmazonEC2FullAccess",
        "arn:aws:iam::aws:policy/IAMFullAccess",
    ];
    let attach: Vec<Step> = policies.iter().map(|p| lenient(Call::AttachPolicy, p)).collect();
    let mut fresh = vec![fatal(Call::CreateRole, "scd-launch-role-dev")];
    fresh.extend(attach.clone());
    assert_eq!(launch_role_steps(false, "scd-launch-role-dev", false), fresh);
    assert_eq!(launch_role_steps(true, "scd-launch-role-dev", false), attach);
    assert_eq!(
        launch_role_steps(false, "scd-launch-role-dev", true),
        vec![
            say("[DRY RUN] create iam role scd-launch-role-dev"),
            say("[DRY RUN] attach policies to scd-launch-role-dev"),
        ]
    );
    assert_eq!(
        launch_role_steps(true, "scd-launch-role-dev", true),
        vec![say("[DRY RUN] attach policies to scd-launch-role-dev")]
    );
    assert_eq!(
        launch_role_ref("scd-launch-role-dev", &text("arn:role")),
        remote(None, Some("arn:role"), Some("scd-launch-role-dev"), None)
    );
    assert_eq!(launch_role_ref("r", &None), remote(None, Some(""), Some("r"), None));
}

#[test]
fn trust_policy_lets_only_the_catalog_service_in() {
    let mut principal = serde_json::Map::new();
    principal.insert(
        "Service".to_string(),
        serde_json::Value::String("servicecatalog.amazonaws.com".to_string()),
    );
    let mut statement = serde_json::Map::new();
    statement.insert("Effect".to_string(), serde_json::Value::String("Allow".to_string()));
    statement.insert("Principal".to_string(), serde_json::Value::Object(principal));
    statement
        .insert("Action".to_string(), serde_json::Value::String("sts:AssumeRole".to_string()));
    let mut doc = serde_json::Map::new();
    doc.insert("Version".to_string(), serde_json::Value::String("2012-10-17".to_string()));
    doc.insert(
        "Statement".to_string(),
        serde_json::Value::Array(vec![serde_json::Value::Object(statement)]),
    );
    let expected = serde_json::Value::Object(doc);
    let parsed: serde_json::Value = serde_json::from_str(&trust_policy()).unwrap();
    assert_eq!(parsed, expected);
    assert_eq!(trust_policy(), expected.to_string());
    assert_eq!(
        trust_policy(),
        "{\"Statement\":[{\"Action\":\"sts:AssumeRole\",\"Effect\":\"Allow\",\"Principal\":{\"Service\":\"servicecatalog.amazonaws.com\"}}],\"Version\":\"2012-10-17\"}"
    );
}

#[test]
fn trust_document_is_built_of_texts_lists_and_objects() {
    let word = |s: &str| Json::Text(s.to_string());
    let under = |k: &str, v: Json| (k.to_string(), v);
    let expected = Json::Object(vec![
        under("Version", word("2012-10-17")),
        under(
            "Statement",
            Json::List(vec![Json::Object(vec![
                under("Effect", word("Allow")),
                under(
                    "Principal",
                    Json::Object(vec![under("Service", word("servicecatalog.amazonaws.com"))]),
                ),
                under("Action", word("sts:AssumeRole")),
            ])]),
        ),
    ]);
    assert_eq!(trust_document(), expected);

    assert_eq!(json_text("a"), word("a"));
    assert_eq!(single("k", "v"), Json::Object(vec![under("k", word("v"))]));
    assert_eq!(entry("k", word("v")), under("k", word("v")));
    assert_eq!(list(vec![word("a"), word("b")]), Json::List(vec![word("a"), word("b")]));
    assert_eq!(
        object(vec![under("k", list(Vec::new()))]),
        Json::Object(vec![under("k", Json::List(Vec::new()))])
    );
}

#[test]
fn product_is_registered_once_with_a_placeholder() {
    assert_eq!(product_steps(true, "database-dev", "bkt", false), vec![]);
    assert_eq!(product_steps(true, "database-dev", "bkt", true), vec![]);
    assert_eq!(
        product_steps(false, "database-dev", "bkt", false),
        vec![
            fatal(Call::UploadPlaceholder, "_placeholders/database-dev/placeholder.yaml"),
            fatal(Call::CreateProduct, "database-dev"),
        ]
    );
    assert_eq!(
        product_steps(false, "database-dev", "bkt", true),
        vec![
            say("[DRY RUN] upload placeholder template s3://bkt/_placeholders/database-dev/placeholder.yaml"),
            say("[DRY RUN] create servicecatalog product database-dev"),
        ]
    );
    assert_eq!(
        product_dry_run_ref("database-dev"),
        remote(Some("prod-dryrun"), Some("arn:dryrun"), Some("database-dev"), None)
    );
    let t = placeholder_template();
    assert!(t.starts_with("AWSTemplateFormatVersion: '2010-09-09'\nDescription: Placeholder"));
    assert!(t.ends_with("    Value: \"Pending first publish\"\n"));
    assert_eq!(t.lines().count(), 11);
}

#[test]
fn product_is_put_into_the_portfolio_it_names() {
    let mut portfolios = NameMap::new();
    portfolios.insert("infra".to_string(), remote(Some("port-1"), None, None, None));
    portfolios.insert("pending".to_string(), remote(None, None, None, None));
    let product = remote(Some("prod-1"), None, None, None);
    let role = remote(None, Some("arn:role"), Some("scd-launch-role-dev"), None);
    assert_eq!(association_for("database", "", &portfolios, &product, &role), Ok(None));
    assert_eq!(
        association_for("database", "infra", &portfolios, &product, &role),
        Ok(Some(Association {
            product_id: "prod-1".to_string(),
            portfolio_id: "port-1".to_string(),
            role_arn: text("arn:role"),
        }))
    );
    assert_eq!(association_for("database", "pending", &portfolios, &product, &role), Ok(None));
    assert_eq!(
        association_for("database", "infra", &portfolios, &remote(None, None, None, None), &role),
        Ok(None)
    );
    let e = association_for("database", "ghost", &portfolios, &product, &role).unwrap_err();
    assert_eq!(
        e,
        DeployError::UnknownPortfolio {
            product: "database".to_string(),
            portfolio: "ghost".to_string(),
        }
    );
    assert_eq!(
        e.message(),
        "product 'database' references unknown portfolio 'ghost' (in bootstrap.yaml)"
    );
    assert_eq!(e.kind(), ErrorKind::Configuration);
}

#[test]
fn association_binds_the_launch_role() {
    let a = Association {
        product_id: "prod-1".to_string(),
        portfolio_id: "port-1".to_string(),
        role_arn: text("arn:aws:iam::111111111111:role/scd-launch-role-\"dev\""),
    };
    assert_eq!(
        association_steps(&a, "database", false),
        vec![
            lenient(Call::AssociateProduct, "port-1"),
            lenient(
                Call::CreateConstraint,
                "{\"RoleArn\":\"arn:aws:iam::111111111111:role/scd-launch-role-\\\"dev\\\"\"}"
            ),
        ]
    );
    let dry = association_steps(&a, "database", true);
    assert_eq!(
        dry,
        vec![
            say("[DRY RUN] associate product prod-1 with portfolio port-1"),
            say("[DRY RUN] create launch constraint for database"),
        ]
    );
    assert!(only_says(&dry));
    let unbound = Association { role_arn: None, ..a };
    assert_eq!(
        association_steps(&unbound, "database", false),
        vec![lenient(Call::AssociateProduct, "port-1")]
    );
}

#[test]
fn outcome_of_a_registry_is_what_was_found_or_made() {
    let answer = remote(None, Some("arn:x"), Some("app"), Some("uri:x"));
    let recorded = remote(None, Some("arn:x"), Some("app"), Some("uri:x"));
    assert_eq!(repository_outcome(&env(), "app", true, false, Some(&answer)), Ok(recorded.clone()));
    assert_eq!(repository_outcome(&env(), "app", true, true, Some(&answer)), Ok(recorded.clone()));
    assert_eq!(repository_outcome(&env(), "app", false, false, Some(&answer)), Ok(recorded));
    assert_eq!(
        repository_outcome(&env(), "app", false, true, None),
        Ok(repository_dry_run_ref(&env(), "app"))
    );
    assert_eq!(
        repository_outcome(&env(), "app", true, false, None).unwrap_err().message(),
        "missing repository in describe response"
    );
    assert_eq!(
        repository_outcome(&env(), "app", false, false, None).unwrap_err().message(),
        "missing repository in create response"
    );
}

#[test]
fn outcome_of_a_named_thing_is_what_was_found_or_made() {
    let found = remote(Some("port-1"), Some("arn:1"), Some("Infra (dev)"), None);
    let created = remote(Some("port-2"), None, None, None);
    let dry = portfolio_dry_run_ref("Infra (dev)");
    assert_eq!(
        named_outcome(
            "Infra (dev)",
            Some(found.clone()),
            false,
            dry.clone(),
            Some(&created),
            "portfolio detail"
        ),
        Ok(found)
    );
    assert_eq!(
        named_outcome("Infra (dev)", None, true, dry.clone(), None, "portfolio detail"),
        Ok(dry.clone())
    );
    assert_eq!(
        named_outcome("Infra (dev)", None, false, dry.clone(), Some(&created), "portfolio detail"),
        Ok(remote(Some("port-2"), Some(""), Some("Infra (dev)"), None))
    );
    assert_eq!(
        named_outcome("Infra (dev)", None, false, dry, None, "portfolio detail")
            .unwrap_err()
            .message(),
        "missing portfolio detail"
    );
}

#[test]
fn outcome_of_the_launch_role_is_its_arn() {
    let role = "scd-launch-role-dev";
    assert_eq!(
        launch_role_outcome(&env(), role, true, false, &text("arn:found")),
        remote(None, Some("arn:found"), Some(role), None)
    );
    assert_eq!(
        launch_role_outcome(&env(), role, true, true, &text("arn:found")),
        remote(None, Some("arn:found"), Some(role), None)
    );
    assert_eq!(
        launch_role_outcome(&env(), role, false, false, &text("arn:made")),
        remote(None, Some("arn:made"), Some(role), None)
    );
    assert_eq!(
        launch_role_outcome(&env(), role, false, true, &None),
        remote(None, Some("arn:aws:iam::111111111111:role/scd-launch-role-dev"), Some(role), None)
    );
}

#[test]
fn failure_of_a_step_counts_where_its_policy_is_fatal() {
    assert_eq!(settle(Policy::Fatal, Err::<(), &str>("boom")), Err("boom"));
    assert_eq!(settle(Policy::BestEffort, Err::<(), &str>("boom")), Ok(()));
    assert_eq!(settle(Policy::Fatal, Ok::<(), &str>(())), Ok(()));
    assert_eq!(settle(Policy::BestEffort, Ok::<(), &str>(())), Ok(()));
}

#[test]
fn what_was_found_is_not_created_again() {
    let creates = |s: &Step| {
        matches!(
            s.call,
            Call::CreateBucket
                | Call::CreateRepository
                | Call::CreatePortfolio
                | Call::CreateRole
                | Call::UploadPlaceholder
                | Call::CreateProduct
        )
    };
    let spec = PortfolioSpec {
        principals: vec!["arn:aws:iam::${account_id}:role/Admin".to_string()],
        ..Default::default()
    };
    for dry_run in [false, true] {
        let found: Vec<Vec<Step>> = vec![
            bucket_steps(true, "bkt", &env(), &bucket(true, "AES256"), dry_run),
            repository_steps(true, "app", dry_run),
            portfolio_steps(true, "infra", "Infra (dev)", &spec, &env(), dry_run),
            launch_role_steps(true, "scd-launch-role-dev", dry_run),
            product_steps(true, "database-dev", "bkt", dry_run),
        ];
        for steps in &found {
            assert!(!steps.iter().any(creates));
        }
    }
    let missing: Vec<Vec<Step>> = vec![
        bucket_steps(false, "bkt", &env(), &bucket(true, "AES256"), false),
        repository_steps(false, "app", false),
        portfolio_steps(false, "infra", "Infra (dev)", &spec, &env(), false),
        launch_role_steps(false, "scd-launch-role-dev", false),
        product_steps(false, "database-dev", "bkt", false),
    ];
    for steps in &missing {
        assert!(steps.iter().any(creates));
    }
}

#[test]
fn reconciliation_is_recorded_whole() {
    let entry = |k: &str, id: &str| {
        let mut m = NameMap::new();
        m.insert(k.to_string(), remote(Some(id), None, Some(k), None));
        m
    };
    let mut before = BootstrapEnvState::default();
    before.account_id = "999999999999".to_string();
    before.products = entry("retired", "prod-0");
    before.portfolios = entry("old", "port-0");
    before.bootstrapped_at = text("2023-01-01T00:00:00Z");

    let mut recorded = before.clone();
    record_synced(
        &mut recorded,
        &env(),
        template_bucket_ref("sc-templates-111111111111-eu-west-1"),
        entry("app", "repo-1"),
        entry("infra", "port-1"),
        remote(None, Some("arn:aws:iam::111111111111:role/scd-launch-role-dev"), None, None),
        entry("database", "prod-1"),
        "2024-06-01T12:00:00Z".to_string(),
    );
    assert_eq!(
        recorded,
        BootstrapEnvState {
            account_id: "111111111111".to_string(),
            region: "eu-west-1".to_string(),
            template_bucket: Some(template_bucket_ref("sc-templates-111111111111-eu-west-1")),
            ecr_repositories: entry("app", "repo-1"),
            portfolios: entry("infra", "port-1"),
            products: entry("database", "prod-1"),
            launch_role: Some(remote(
                None,
                Some("arn:aws:iam::111111111111:role/scd-launch-role-dev"),
                None,
                None
            )),
            bootstrapped_at: text("2024-06-01T12:00:00Z"),
        }
    );
    // What the record held before is replaced, not merged.
    assert!(recorded.products.get("retired").is_none());
    assert!(recorded.portfolios.get("old").is_none());
}
