//! The provisioning lifecycle of a product: publish, apply, wait for the
//! remote operation, terminate; and the teardown of an environment.
//!
//! Every function here decides or computes; none calls the cloud. The
//! caller performs the stages and steps that the functions list, in their
//! order, and hands back what the remote calls returned. Publish, apply
//! and terminate begin with the validation of the catalog and end at the
//! first failure; the teardown passes every failure over.

use crate::aws::{make, only_says, push_call, push_say, say, steps_of, Call, Policy, Step, StepModel};
use crate::config::{BootstrapFile, CatalogFile, EcrRepository, ProductModel};
use crate::depgraph::{cyclic_within, is_deployment_order};
use crate::deploy::{
    is_least_unknown, plan, reports_first_unresolved, reports_invalid, resolvable,
    resolve_parameters, selected, valid, validate,
};
use crate::error::DeployError;
use crate::namemap::NameMap;
use crate::names::{clone_opt, names_of, opt_name, same_name, Name};
use crate::project::{join_path, joined};
use crate::state::{
    unrecorded, BootstrapEnvModel, BootstrapEnvState, BootstrapState, DeployEnvState,
    DeployProductModel, DeployProductState, DeployState, ResourceRefModel,
};
use vstd::prelude::*;
use vstd::string::*;

verus! {

/// Lets a destructive operation pass only with a dry run or with force.
pub fn check_guard(operation: &str, dry_run: bool, force: bool) -> (r: Result<(), DeployError>)
    ensures
        r is Ok <==> dry_run || force,
        match r {
            Ok(_) => true,
            Err(DeployError::GuardRejected { operation: o }) => o@ == operation@,
            Err(_) => false,
        },
{
    if !force && !dry_run {
        Err(DeployError::GuardRejected { operation: String::from_str(operation) })
    } else {
        Ok(())
    }
}

/// Whether the state file is written at the end of an operation.
pub fn saves_state(dry_run: bool) -> (r: bool)
    ensures
        r == !dry_run,
{
    !dry_run
}

/// The seconds between two looks at a remote operation.
pub const POLL_INTERVAL_SECS: u64 = 10;

/// The seconds after which a remote operation is given up.
pub const MAX_WAIT_SECS: u64 = 1200;

/// What to do after a look at a remote operation.
#[derive(Clone, Copy, Debug, PartialEq, Eq, Structural)]
pub enum PollOutcome {
    /// The operation has succeeded.
    Succeeded,
    /// The operation has failed.
    Failed,
    /// Sleep for the interval and look again; `waited` is the time waited
    /// by then.
    Wait { waited: u64 },
    /// The longest wait is over.
    TimedOut,
}

/// The status of a remote operation that has ended in success.
pub open spec fn is_success(status: Option<Name>) -> bool {
    status == Some("SUCCEEDED"@)
}

/// The status of a remote operation that has ended in failure.
pub open spec fn is_failure(status: Option<Name>) -> bool {
    status == Some("FAILED"@) || status == Some("IN_PROGRESS_IN_ERROR"@)
}

/// Decides on a look at a remote operation.
///
/// `status` is the status that was read, if the answer held one, and
/// `waited` the seconds waited so far. A status other than success and
/// failure means to wait one more interval, unless the time waited would
/// then exceed the longest wait.
pub fn poll_step(status: &Option<String>, waited: u64) -> (r: PollOutcome)
    ensures
        r == if is_success(opt_name(*status)) {
            PollOutcome::Succeeded
        } else if is_failure(opt_name(*status)) {
            PollOutcome::Failed
        } else if waited + POLL_INTERVAL_SECS > MAX_WAIT_SECS {
            PollOutcome::TimedOut
        } else {
            PollOutcome::Wait { waited: (waited + POLL_INTERVAL_SECS) as u64 }
        },
{
    match status {
        Some(s) => {
            if same_name(s.as_str(), "SUCCEEDED") {
                return PollOutcome::Succeeded;
            }
            if same_name(s.as_str(), "FAILED") || same_name(s.as_str(), "IN_PROGRESS_IN_ERROR") {
                return PollOutcome::Failed;
            }
        },
        None => {},
    }
    if waited > MAX_WAIT_SECS - POLL_INTERVAL_SECS {
        PollOutcome::TimedOut
    } else {
        PollOutcome::Wait { waited: waited + POLL_INTERVAL_SECS }
    }
}

/// The failure that ends the wait for a remote operation, if the outcome
/// of a look is one.
pub fn poll_failure(outcome: PollOutcome, record_id: &str, status: &Option<String>) -> (r: Option<
    DeployError,
>)
    ensures
        match outcome {
            PollOutcome::Failed => match r {
                Some(DeployError::RecordFailed { record_id: id, status: s }) => id@ == record_id@
                    && s@ == match status {
                    Some(t) => t@,
                    None => "UNKNOWN"@,
                },
                _ => false,
            },
            PollOutcome::TimedOut => match r {
                Some(DeployError::RecordTimedOut { record_id: id }) => id@ == record_id@,
                _ => false,
            },
            _ => r is None,
        },
{
    match outcome {
        PollOutcome::Failed => {
            let s = match status {
                Some(t) => t.clone(),
                None => String::from_str("UNKNOWN"),
            };
            Some(DeployError::RecordFailed { record_id: String::from_str(record_id), status: s })
        },
        PollOutcome::TimedOut => Some(
            DeployError::RecordTimedOut { record_id: String::from_str(record_id) },
        ),
        _ => None,
    }
}

/// One stage of the work on a product.
#[derive(Clone, Copy, Debug, PartialEq, Eq, Structural)]
pub enum Stage {
    /// Say what is about to be done.
    Announce,
    /// Say what a real run would do.
    AnnounceDryRun,
    /// Upload the template of the product.
    Upload,
    /// Register the uploaded template as a new artifact of the product.
    Register,
    /// Look up the artifact of the published version.
    FindArtifact,
    /// Look up the launch path of the product.
    FindLaunchPath,
    /// Update the live instance.
    Update,
    /// Create an instance.
    Provision,
    /// End the live instance.
    Terminate,
    /// Poll the remote operation until it ends.
    Wait,
    /// Search for the instance of the product by its name.
    Locate,
    /// Read the outputs of the instance.
    ReadOutputs,
    /// Enter the result in the state of the environment.
    Record,
}

impl Stage {
    /// The stage changes something: a remote resource or the recorded
    /// state.
    pub open spec fn changes(self) -> bool {
        self is Upload || self is Register || self is Update || self is Provision
            || self is Terminate || self is Record
    }
}

/// The stages of publishing one product.
pub open spec fn publish_plan(dry_run: bool) -> Seq<Stage> {
    if dry_run {
        seq![Stage::Announce, Stage::AnnounceDryRun]
    } else {
        seq![Stage::Announce, Stage::Upload, Stage::Register, Stage::Record]
    }
}

/// The stages of applying one product up to the point at which it is
/// known whether the product has an instance. `on_record` says whether the
/// state holds the id of a live instance of it. Where it holds none, the
/// last stage is the search for an instance of the product's name; what
/// follows is decided on what the search finds.
pub open spec fn apply_plan(dry_run: bool, on_record: bool) -> Seq<Stage> {
    if dry_run {
        seq![Stage::FindArtifact, Stage::FindLaunchPath, Stage::Announce, Stage::AnnounceDryRun]
    } else if on_record {
        seq![
            Stage::FindArtifact,
            Stage::FindLaunchPath,
            Stage::Announce,
            Stage::Update,
            Stage::Wait,
            Stage::ReadOutputs,
            Stage::Record,
        ]
    } else {
        seq![Stage::FindArtifact, Stage::FindLaunchPath, Stage::Announce, Stage::Locate]
    }
}

/// The stages that follow the search for an instance of the product's
/// name. An instance that was found is taken over and updated in place;
/// only where none was found, one is provisioned and then looked for by
/// its name.
pub open spec fn launch_plan(adopted: bool) -> Seq<Stage> {
    if adopted {
        seq![Stage::Update, Stage::Wait, Stage::ReadOutputs, Stage::Record]
    } else {
        seq![Stage::Provision, Stage::Wait, Stage::Locate, Stage::ReadOutputs, Stage::Record]
    }
}

/// All stages of applying one product, in their order; `found` says
/// whether the search has found an instance of the product's name.
pub open spec fn apply_course(dry_run: bool, on_record: bool, found: bool) -> Seq<Stage> {
    if dry_run || on_record {
        apply_plan(dry_run, on_record)
    } else {
        apply_plan(dry_run, on_record) + launch_plan(found)
    }
}

/// The stages of terminating one product that has a live instance.
pub open spec fn terminate_plan(dry_run: bool) -> Seq<Stage> {
    if dry_run {
        seq![Stage::Announce, Stage::AnnounceDryRun]
    } else {
        seq![Stage::Announce, Stage::Terminate, Stage::Wait, Stage::Record]
    }
}

/// The stages of publishing one product, in their order.
pub fn publish_stages(dry_run: bool) -> (r: Vec<Stage>)
    ensures
        r@ == publish_plan(dry_run),
        dry_run ==> forall|i: int| 0 <= i < r@.len() ==> !(#[trigger] r@[i]).changes(),
{
    let mut r: Vec<Stage> = Vec::new();
    r.push(Stage::Announce);
    if dry_run {
        r.push(Stage::AnnounceDryRun);
    } else {
        r.push(Stage::Upload);
        r.push(Stage::Register);
        r.push(Stage::Record);
    }
    assert(r@ =~= publish_plan(dry_run));
    r
}

/// The stages of applying one product up to the point at which it is
/// known whether the product has an instance, in their order.
///
/// A product whose live instance is on record is updated in place. For a
/// product without one the list ends with the search for an instance of
/// its name, and `launch_stages` gives what follows. No stage of the list
/// provisions; a dry run changes nothing.
pub fn apply_stages(dry_run: bool, on_record: bool) -> (r: Vec<Stage>)
    ensures
        r@ == apply_plan(dry_run, on_record),
        dry_run ==> forall|i: int| 0 <= i < r@.len() ==> !(#[trigger] r@[i]).changes(),
        forall|i: int| 0 <= i < r@.len() ==> !((#[trigger] r@[i]) is Provision),
        !dry_run && on_record ==> r@.contains(Stage::Update),
        !dry_run && !on_record ==> r@.len() > 0 && r@.last() == Stage::Locate && forall|i: int|
            0 <= i < r@.len() ==> !(#[trigger] r@[i]).changes(),
{
    let mut r: Vec<Stage> = Vec::new();
    r.push(Stage::FindArtifact);
    r.push(Stage::FindLaunchPath);
    r.push(Stage::Announce);
    if dry_run {
        r.push(Stage::AnnounceDryRun);
    } else if on_record {
        r.push(Stage::Update);
        r.push(Stage::Wait);
        r.push(Stage::ReadOutputs);
        r.push(Stage::Record);
        assert(r@[3] == Stage::Update);
    } else {
        r.push(Stage::Locate);
    }
    assert(r@ =~= apply_plan(dry_run, on_record));
    r
}

/// Decides on what the search for an instance of the name `name` has
/// found: the id of the instance to take over, or `None` where there is
/// none, so that one is to be provisioned.
pub fn adopt_or_provision(found: &Vec<Listed>, name: &str) -> (r: Option<String>)
    ensures
        match r {
            Some(id) => is_id_of_first(found@, name@, id@),
            None => none_named(found@, name@),
        },
{
    match find_by_name(found, name) {
        Some(a) => Some(text_or_empty(&a.id)),
        None => None,
    }
}

/// The stages that follow the search for an instance of the product's
/// name, in their order. `adopted` says whether the search has found one.
pub fn launch_stages(adopted: bool) -> (r: Vec<Stage>)
    ensures
        r@ == launch_plan(adopted),
        adopted ==> forall|i: int| 0 <= i < r@.len() ==> !((#[trigger] r@[i]) is Provision),
        adopted ==> r@[0] == Stage::Update,
        !adopted ==> r@[0] == Stage::Provision,
{
    let mut r: Vec<Stage> = Vec::new();
    if adopted {
        r.push(Stage::Update);
        r.push(Stage::Wait);
        r.push(Stage::ReadOutputs);
        r.push(Stage::Record);
    } else {
        r.push(Stage::Provision);
        r.push(Stage::Wait);
        r.push(Stage::Locate);
        r.push(Stage::ReadOutputs);
        r.push(Stage::Record);
    }
    assert(r@ =~= launch_plan(adopted));
    r
}

/// What a failure of a stage means: the operation ends with it. Nothing
/// of publish, apply and terminate is passed over.
pub fn stage_policy(stage: Stage) -> (r: Policy)
    ensures
        r == Policy::Fatal,
{
    Policy::Fatal
}

/// The stages of terminating one product, in their order.
pub fn terminate_stages(dry_run: bool) -> (r: Vec<Stage>)
    ensures
        r@ == terminate_plan(dry_run),
        dry_run ==> forall|i: int| 0 <= i < r@.len() ==> !(#[trigger] r@[i]).changes(),
{
    let mut r: Vec<Stage> = Vec::new();
    r.push(Stage::Announce);
    if dry_run {
        r.push(Stage::AnnounceDryRun);
    } else {
        r.push(Stage::Terminate);
        r.push(Stage::Wait);
        r.push(Stage::Record);
    }
    assert(r@ =~= terminate_plan(dry_run));
    r
}

/// A dry run of any of the three operations holds no stage that changes a
/// remote resource or the recorded state, and the state file is not
/// written after it.
pub proof fn lemma_dry_run_changes_nothing(on_record: bool)
    ensures
        forall|i: int|
            0 <= i < publish_plan(true).len() ==> !(#[trigger] publish_plan(true)[i]).changes(),
        forall|i: int, found: bool|
            0 <= i < apply_course(true, on_record, found).len() ==> !(#[trigger] apply_course(
                true,
                on_record,
                found,
            )[i]).changes(),
        forall|i: int|
            0 <= i < terminate_plan(true).len() ==> !(#[trigger] terminate_plan(
                true,
            )[i]).changes(),
{
}

/// Applying a product whose live instance is on record updates that
/// instance and provisions none, whatever the search would find.
pub proof fn lemma_apply_updates_recorded(dry_run: bool, found: bool)
    ensures
        forall|i: int|
            0 <= i < apply_course(dry_run, true, found).len() ==> !((#[trigger] apply_course(
                dry_run,
                true,
                found,
            )[i]) is Provision),
        !dry_run ==> apply_course(dry_run, true, found).contains(Stage::Update),
{
    if !dry_run {
        assert(apply_course(false, true, found)[3] == Stage::Update);
    }
}

/// Applying a product without an instance on record searches before it
/// provisions: an instance that is found under the product's name is
/// updated and none is provisioned; where none is found, the one
/// provisioning stands behind the search.
pub proof fn lemma_apply_searches_first(found: bool)
    ensures
        apply_course(false, false, found)[3] == Stage::Locate,
        forall|i: int|
            0 <= i < apply_course(false, false, found).len() && (#[trigger] apply_course(
                false,
                false,
                found,
            )[i]) is Provision ==> !found && i > 3,
        found ==> apply_course(false, false, found).contains(Stage::Update),
        !found ==> apply_course(false, false, found).contains(Stage::Provision),
{
    let c = apply_course(false, false, found);
    assert(c =~= apply_plan(false, false) + launch_plan(found));
    if found {
        assert(c[4] == Stage::Update);
    } else {
        assert(c[4] == Stage::Provision);
    }
}

/// The recorded state of product `p`; that of an unrecorded product where
/// the state holds none.
pub open spec fn entry_of(state: Map<Name, DeployProductModel>, p: Name) -> DeployProductModel {
    if state.contains_key(p) {
        state[p]
    } else {
        unrecorded()
    }
}

/// The remote id of product `p` in the bootstrap record.
pub open spec fn product_id_of(b: BootstrapEnvModel, p: Name) -> Option<Name> {
    if b.products.contains_key(p) {
        b.products[p].id
    } else {
        None
    }
}

/// The remote id of product `product` in the bootstrap record.
pub fn product_id(bootstrap_env: &BootstrapEnvState, product: &str) -> (r: Result<
    String,
    DeployError,
>)
    ensures
        match r {
            Ok(id) => product_id_of(bootstrap_env@, product@) == Some(id@),
            Err(DeployError::MissingProductId { product: p }) => p@ == product@ && product_id_of(
                bootstrap_env@,
                product@,
            ) is None,
            Err(_) => false,
        },
{
    match bootstrap_env.products.get(product) {
        Some(r) => match &r.id {
            Some(id) => Ok(id.clone()),
            None => Err(DeployError::MissingProductId { product: String::from_str(product) }),
        },
        None => Err(DeployError::MissingProductId { product: String::from_str(product) }),
    }
}

/// The products to publish: those that were named, in the order in which
/// they were named, or every product of the catalog in name order where
/// none was named.
pub fn publish_targets(catalog: &CatalogFile, products: &Vec<String>) -> (r: Vec<String>)
    ensures
        names_of(r@) == if products@.len() == 0 {
            catalog.products.names()
        } else {
            names_of(products@)
        },
{
    if products.len() == 0 {
        catalog.products.keys()
    } else {
        let mut r: Vec<String> = Vec::new();
        let mut i: usize = 0;
        while i < products.len()
            invariant
                i <= products@.len(),
                r@.len() == i,
                forall|j: int| 0 <= j < i ==> (#[trigger] r@[j])@ == products@[j]@,
            decreases products@.len() - i,
        {
            r.push(products[i].clone());
            i += 1;
        }
        assert(names_of(r@) =~= names_of(products@));
        r
    }
}

/// What is needed to publish one product.
#[derive(Clone, Debug, PartialEq, Eq)]
pub struct PublishTicket {
    pub product: String,
    pub version: String,
    /// The remote id of the product.
    pub product_id: String,
    /// The template file of the product.
    pub template_path: String,
    /// The key under which the template is stored in the bucket.
    pub s3_key: String,
    /// The address of the stored template.
    pub template_url: String,
    /// The description of the new artifact.
    pub description: String,
}

/// The key under which version `version` of the template of `product` is
/// stored.
pub open spec fn template_key(product: Name, version: Name) -> Seq<char> {
    product + "/"@ + version + "/template.yaml"@
}

/// The address of the object `key` of bucket `bucket` in region `region`.
pub open spec fn object_url(bucket: Name, region: Name, key: Seq<char>) -> Seq<char> {
    "https://"@ + bucket + ".s3."@ + region + ".amazonaws.com/"@ + key
}

/// The address of the object `key` of bucket `bucket` in region `region`.
pub fn object_address(bucket: &str, region: &str, key: &str) -> (r: String)
    ensures
        r@ == object_url(bucket@, region@, key@),
{
    String::from_str("https://").concat(bucket).concat(".s3.").concat(region).concat(
        ".amazonaws.com/",
    ).concat(key)
}

/// Prepares the publication of version `version` of `product`.
///
/// Fails where the bootstrap record lacks the remote id of the product,
/// and else where the catalog lacks the product.
pub fn publish_prepare(
    products_dir: &str,
    catalog: &CatalogFile,
    bootstrap_env: &BootstrapEnvState,
    region: &str,
    bucket_name: &str,
    product: &str,
    version: &str,
) -> (r: Result<PublishTicket, DeployError>)
    ensures
        match r {
            Ok(t) => {
                &&& catalog.products@.contains_key(product@)
                &&& product_id_of(bootstrap_env@, product@) == Some(t.product_id@)
                &&& t.product@ == product@
                &&& t.version@ == version@
                &&& t.template_path@ == joined(
                    joined(products_dir@, catalog.products@[product@].path),
                    "template.yaml"@,
                )
                &&& t.s3_key@ == template_key(product@, version@)
                &&& t.template_url@ == object_url(
                    bucket_name@,
                    region@,
                    template_key(product@, version@),
                )
                &&& t.description@ == "Version "@ + version@
            },
            Err(DeployError::MissingProductId { product: p }) => p@ == product@ && product_id_of(
                bootstrap_env@,
                product@,
            ) is None,
            Err(DeployError::UnknownProduct { product: p }) => p@ == product@
                && !catalog.products@.contains_key(product@) && product_id_of(
                bootstrap_env@,
                product@,
            ) is Some,
            Err(_) => false,
        },
{
    let id = match product_id(bootstrap_env, product) {
        Ok(id) => id,
        Err(e) => {
            return Err(e);
        },
    };
    let spec = match catalog.products.get(product) {
        Some(s) => s,
        None => {
            return Err(DeployError::UnknownProduct { product: String::from_str(product) });
        },
    };
    let dir = join_path(products_dir, spec.path.as_str());
    let key = String::from_str(product).concat("/").concat(version).concat("/template.yaml");
    let url = object_address(bucket_name, region, key.as_str());
    Ok(
        PublishTicket {
            product: String::from_str(product),
            version: String::from_str(version),
            product_id: id,
            template_path: join_path(dir.as_str(), "template.yaml"),
            s3_key: key,
            template_url: url,
            description: String::from_str("Version ").concat(version),
        },
    )
}

/// Enters a published version in the state of the environment: the
/// version and the time of publication are set, the rest of the entry of
/// the product stays, and no other entry changes.
pub fn record_published(env_state: &mut DeployEnvState, product: &str, version: String, now: String)
    ensures
        final(env_state)@ == old(env_state)@.insert(
            product@,
            DeployProductModel {
                version: Some(version@),
                published_at: Some(now@),
                ..entry_of(old(env_state)@, product@)
            },
        ),
{
    let ghost before = env_state@;
    let mut entry = match env_state.products.remove(product) {
        Some(e) => e,
        None => DeployProductState::default(),
    };
    entry.version = Some(version);
    entry.published_at = Some(now);
    env_state.products.insert(String::from_str(product), entry);
    proof {
        assert(env_state@ =~= before.insert(
            product@,
            DeployProductModel {
                version: Some(version@),
                published_at: Some(now@),
                ..entry_of(before, product@)
            },
        ));
    }
}

/// The values of the parameters of a product: for each mapped parameter
/// the recorded output that its reference names.
pub open spec fn resolution_of(product: ProductModel, state: Map<Name, DeployProductModel>) -> Map<
    Name,
    Name,
> {
    Map::new(
        |k: Name| product.parameter_mapping.contains_key(k),
        |k: Name| crate::deploy::resolved(state, product.parameter_mapping[k])->Ok_0,
    )
}

/// What is needed to apply one product.
#[derive(Clone, Debug, PartialEq, Eq)]
pub struct ApplyTicket {
    pub product: String,
    /// The published version.
    pub version: String,
    /// The remote id of the product.
    pub product_id: String,
    /// The parameters of the provisioning call.
    pub parameters: NameMap<String>,
    /// The name of the instance.
    pub provisioned_name: String,
    /// The id of the live instance, where one is on record.
    pub existing_instance: Option<String>,
}

/// The name of the instance of `product` in `environment`.
pub open spec fn instance_name(environment: Name, product: Name) -> Seq<char> {
    environment + "-"@ + product
}

/// Prepares the application of `product`.
///
/// The product must have a published version and a remote id, and each of
/// its parameters must resolve against the recorded state. The parameters
/// of the call are the resolved ones and `Environment`, which carries the
/// name of the environment. The first of these that fails, in this order,
/// is the failure of the call; no remote call is needed to find it.
pub fn apply_prepare(
    catalog: &CatalogFile,
    bootstrap_env: &BootstrapEnvState,
    env_state: &DeployEnvState,
    environment: &str,
    product: &str,
) -> (r: Result<ApplyTicket, DeployError>)
    ensures
        r is Ok <==> entry_of(env_state@, product@).version is Some && product_id_of(
            bootstrap_env@,
            product@,
        ) is Some && catalog.products@.contains_key(product@) && resolvable(
            catalog.products@[product@],
            env_state@,
        ),
        match r {
            Ok(t) => {
                &&& t.product@ == product@
                &&& entry_of(env_state@, product@).version == Some(t.version@)
                &&& product_id_of(bootstrap_env@, product@) == Some(t.product_id@)
                &&& t.parameters@ == resolution_of(
                    catalog.products@[product@],
                    env_state@,
                ).insert("Environment"@, environment@)
                &&& t.provisioned_name@ == instance_name(environment@, product@)
                &&& opt_name(t.existing_instance) == entry_of(
                    env_state@,
                    product@,
                ).provisioned_product_id
            },
            Err(e) => if entry_of(env_state@, product@).version is None {
                match e {
                    DeployError::NotPublished { product: p, environment: x } => p@ == product@
                        && x@ == environment@,
                    _ => false,
                }
            } else if product_id_of(bootstrap_env@, product@) is None {
                match e {
                    DeployError::MissingProductId { product: p } => p@ == product@,
                    _ => false,
                }
            } else if !catalog.products@.contains_key(product@) {
                match e {
                    DeployError::UnknownProduct { product: p } => p@ == product@,
                    _ => false,
                }
            } else {
                reports_first_unresolved(
                    product@,
                    catalog.products@[product@],
                    env_state@,
                    e,
                )
            },
        },
{
    let entry = env_state.products.get(product);
    let version = match entry {
        Some(e) => match &e.version {
            Some(v) => v.clone(),
            None => {
                return Err(
                    DeployError::NotPublished {
                        product: String::from_str(product),
                        environment: String::from_str(environment),
                    },
                );
            },
        },
        None => {
            return Err(
                DeployError::NotPublished {
                    product: String::from_str(product),
                    environment: String::from_str(environment),
                },
            );
        },
    };
    let existing_instance = match entry {
        Some(e) => clone_opt(&e.provisioned_product_id),
        None => None,
    };
    let id = match product_id(bootstrap_env, product) {
        Ok(id) => id,
        Err(e) => {
            return Err(e);
        },
    };
    let mut parameters = match resolve_parameters(catalog, env_state, product) {
        Ok(p) => p,
        Err(e) => {
            return Err(e);
        },
    };
    proof {
        assert(parameters@ =~= resolution_of(catalog.products@[product@], env_state@));
    }
    parameters.insert(String::from_str("Environment"), String::from_str(environment));
    Ok(
        ApplyTicket {
            product: String::from_str(product),
            version,
            product_id: id,
            parameters,
            provisioned_name: String::from_str(environment).concat("-").concat(product),
            existing_instance,
        },
    )
}

/// The text of an optional answer; empty where the answer held none.
pub fn text_or_empty(o: &Option<String>) -> (r: String)
    ensures
        r@ == match o {
            Some(s) => s@,
            None => Seq::<char>::empty(),
        },
{
    match o {
        Some(s) => s.clone(),
        None => String::new(),
    }
}

/// A remote thing as a listing shows it: its id and its name, as far as
/// the listing gives them.
#[derive(Clone, Debug, PartialEq, Eq)]
pub struct Listed {
    pub id: Option<String>,
    pub name: Option<String>,
}

/// The first entry of `list` that carries the name `name`.
pub fn find_by_name<'a>(list: &'a Vec<Listed>, name: &str) -> (r: Option<&'a Listed>)
    ensures
        match r {
            Some(x) => exists|i: int|
                0 <= i < list@.len() && *x == #[trigger] list@[i] && opt_name(list@[i].name)
                    == Some(name@) && forall|j: int|
                    0 <= j < i ==> opt_name((#[trigger] list@[j]).name) != Some(name@),
            None => forall|j: int|
                0 <= j < list@.len() ==> opt_name((#[trigger] list@[j]).name) != Some(name@),
        },
{
    let mut i: usize = 0;
    while i < list.len()
        invariant
            i <= list@.len(),
            forall|j: int| 0 <= j < i ==> opt_name((#[trigger] list@[j]).name) != Some(name@),
        decreases list@.len() - i,
    {
        let hit = match &list[i].name {
            Some(n) => same_name(n.as_str(), name),
            None => false,
        };
        if hit {
            return Some(&list[i]);
        }
        i += 1;
    }
    None
}

/// `id` is the id of the first entry of `list` that carries the name
/// `name`, empty where that entry has none.
pub open spec fn is_id_of_first(list: Seq<Listed>, name: Name, id: Seq<char>) -> bool {
    exists|i: int|
        0 <= i < list.len() && opt_name((#[trigger] list[i]).name) == Some(name) && id == (
        match list[i].id {
            Some(s) => s@,
            None => Seq::<char>::empty(),
        }) && forall|j: int| 0 <= j < i ==> opt_name((#[trigger] list[j]).name) != Some(name)
}

/// No entry of `list` carries the name `name`.
pub open spec fn none_named(list: Seq<Listed>, name: Name) -> bool {
    forall|j: int| 0 <= j < list.len() ==> opt_name((#[trigger] list[j]).name) != Some(name)
}

/// The id of the artifact that carries the published version.
pub fn find_artifact_id(artifacts: &Vec<Listed>, version: &str) -> (r: Result<String, DeployError>)
    ensures
        match r {
            Ok(id) => is_id_of_first(artifacts@, version@, id@),
            Err(DeployError::ArtifactNotFound { version: v }) => v@ == version@ && none_named(
                artifacts@,
                version@,
            ),
            Err(_) => false,
        },
{
    match find_by_name(artifacts, version) {
        Some(a) => Ok(text_or_empty(&a.id)),
        None => Err(DeployError::ArtifactNotFound { version: String::from_str(version) }),
    }
}

/// The id of the launch path to use: that of the first path listed, empty
/// where the listing gives none for it.
pub fn first_launch_path(paths: &Vec<Option<String>>) -> (r: Result<String, DeployError>)
    ensures
        match r {
            Ok(id) => paths@.len() > 0 && id@ == match paths@[0] {
                Some(s) => s@,
                None => Seq::<char>::empty(),
            },
            Err(DeployError::NoLaunchPath) => paths@.len() == 0,
            Err(_) => false,
        },
{
    if paths.len() == 0 {
        Err(DeployError::NoLaunchPath)
    } else {
        Ok(text_or_empty(&paths[0]))
    }
}

/// The id of the instance that carries the name `name`, among those that
/// a search by that name has found.
pub fn find_instance_id(found: &Vec<Listed>, name: &str) -> (r: Result<String, DeployError>)
    ensures
        match r {
            Ok(id) => is_id_of_first(found@, name@, id@),
            Err(DeployError::ProvisionedProductNotFound) => none_named(found@, name@),
            Err(_) => false,
        },
{
    match find_by_name(found, name) {
        Some(a) => Ok(text_or_empty(&a.id)),
        None => Err(DeployError::ProvisionedProductNotFound),
    }
}

/// The query that finds an instance by its name.
pub fn instance_query(name: &str) -> (r: String)
    ensures
        r@ == "name:"@ + name@,
{
    String::from_str("name:").concat(name)
}

/// One output as the remote answer gives it.
#[derive(Clone, Debug, PartialEq, Eq)]
pub struct OutputPair {
    pub key: Option<String>,
    pub value: Option<String>,
}

/// The outputs to record of what the remote answer lists: each output
/// that has a key and a value, but for the platform's own reference to its
/// stack; of two with one key the later.
pub open spec fn outputs_of(raw: Seq<OutputPair>) -> Map<Name, Name>
    decreases raw.len(),
{
    if raw.len() == 0 {
        Map::empty()
    } else {
        let rest = outputs_of(raw.drop_last());
        match (raw.last().key, raw.last().value) {
            (Some(k), Some(v)) => if k@ == "CloudformationStackARN"@ {
                rest
            } else {
                rest.insert(k@, v@)
            },
            _ => rest,
        }
    }
}

/// The outputs to record of what the remote answer lists.
pub fn collect_outputs(raw: &Vec<OutputPair>) -> (r: NameMap<String>)
    ensures
        r@ == outputs_of(raw@),
{
    let mut r: NameMap<String> = NameMap::new();
    let mut i: usize = 0;
    while i < raw.len()
        invariant
            i <= raw@.len(),
            r@ == outputs_of(raw@.take(i as int)),
        decreases raw@.len() - i,
    {
        proof {
            assert(raw@.take(i + 1).drop_last() =~= raw@.take(i as int));
        }
        match (&raw[i].key, &raw[i].value) {
            (Some(k), Some(v)) => {
                if !same_name(k.as_str(), "CloudformationStackARN") {
                    r.insert(k.clone(), v.clone());
                }
            },
            _ => {},
        }
        i += 1;
    }
    proof {
        assert(raw@.take(raw@.len() as int) =~= raw@);
    }
    r
}

/// Enters an applied product in the state of the environment: the id and
/// the name of the instance, the time and the outputs are set, the rest of
/// the entry of the product stays, and no other entry changes.
pub fn record_applied(
    env_state: &mut DeployEnvState,
    product: &str,
    instance_id: String,
    instance_name: String,
    now: String,
    outputs: NameMap<String>,
)
    ensures
        final(env_state)@ == old(env_state)@.insert(
            product@,
            DeployProductModel {
                provisioned_product_id: Some(instance_id@),
                provisioned_product_name: Some(instance_name@),
                deployed_at: Some(now@),
                outputs: outputs@,
                ..entry_of(old(env_state)@, product@)
            },
        ),
{
    let ghost before = env_state@;
    let mut entry = match env_state.products.remove(product) {
        Some(e) => e,
        None => DeployProductState::default(),
    };
    entry.provisioned_product_id = Some(instance_id);
    entry.provisioned_product_name = Some(instance_name);
    entry.deployed_at = Some(now);
    entry.outputs = outputs;
    env_state.products.insert(String::from_str(product), entry);
    proof {
        assert(env_state@ =~= before.insert(
            product@,
            DeployProductModel {
                provisioned_product_id: Some(instance_id@),
                provisioned_product_name: Some(instance_name@),
                deployed_at: Some(now@),
                outputs: outputs@,
                ..entry_of(before, product@)
            },
        ));
    }
}

/// Those of `names` whose recorded state holds the id of a live instance,
/// in the order of `names`.
pub open spec fn live_of(names: Seq<Name>, state: Map<Name, DeployProductModel>) -> Seq<Name>
    decreases names.len(),
{
    if names.len() == 0 {
        Seq::empty()
    } else {
        let rest = live_of(names.drop_last(), state);
        if entry_of(state, names.last()).provisioned_product_id is Some {
            rest.push(names.last())
        } else {
            rest
        }
    }
}

/// The products to terminate: those that were named, in the order in
/// which they were named, or every product with a live instance, in name
/// order, where none was named.
pub fn terminate_targets(env_state: &DeployEnvState, products: &Vec<String>) -> (r: Vec<String>)
    ensures
        names_of(r@) == if products@.len() == 0 {
            live_of(env_state.products.names(), env_state@)
        } else {
            names_of(products@)
        },
{
    let mut r: Vec<String> = Vec::new();
    if products.len() == 0 {
        let n = env_state.products.len();
        let ghost names = env_state.products.names();
        let mut i: usize = 0;
        proof {
            assert(names_of(r@) =~= live_of(names.take(0), env_state@));
        }
        while i < n
            invariant
                names == env_state.products.names(),
                env_state.products.wf(),
                n == names.len(),
                i <= n,
                names_of(r@) == live_of(names.take(i as int), env_state@),
            decreases n - i,
        {
            proof {
                assert(names.take(i + 1).drop_last() =~= names.take(i as int));
                env_state.products.lemma_entry(i as int);
            }
            let ghost before = names_of(r@);
            if env_state.products.value_at(i).provisioned_product_id.is_some() {
                r.push(env_state.products.key_at(i).clone());
                proof {
                    assert(names_of(r@) =~= before.push(names[i as int]));
                }
            }
            i += 1;
        }
        proof {
            assert(names.take(n as int) =~= names);
        }
    } else {
        let mut i: usize = 0;
        while i < products.len()
            invariant
                i <= products@.len(),
                r@.len() == i,
                forall|j: int| 0 <= j < i ==> (#[trigger] r@[j])@ == products@[j]@,
            decreases products@.len() - i,
        {
            r.push(products[i].clone());
            i += 1;
        }
        assert(names_of(r@) =~= names_of(products@));
    }
    r
}

/// What is needed to terminate the live instance of one product.
#[derive(Clone, Debug, PartialEq, Eq)]
pub struct TerminateTicket {
    pub product: String,
    /// The id of the live instance.
    pub instance_id: String,
    /// The token that makes the call unique.
    pub token: String,
}

/// Prepares the termination of `product`; `None` where the state holds no
/// live instance of it, so that nothing is to be done. `stamp` is a fresh
/// version label.
pub fn terminate_prepare(env_state: &DeployEnvState, product: &str, stamp: &str) -> (r: Option<
    TerminateTicket,
>)
    ensures
        match r {
            Some(t) => {
                &&& t.product@ == product@
                &&& entry_of(env_state@, product@).provisioned_product_id == Some(t.instance_id@)
                &&& t.token@ == "terminate-"@ + product@ + "-"@ + stamp@
            },
            None => entry_of(env_state@, product@).provisioned_product_id is None,
        },
{
    match env_state.products.get(product) {
        Some(e) => match &e.provisioned_product_id {
            Some(id) => Some(
                TerminateTicket {
                    product: String::from_str(product),
                    instance_id: id.clone(),
                    token: String::from_str("terminate-").concat(product).concat("-").concat(
                        stamp,
                    ),
                },
            ),
            None => None,
        },
        None => None,
    }
}

/// The recorded state of a product after its instance has ended: the
/// instance, the time of deployment and the outputs are gone, the
/// published version stays.
pub open spec fn terminated(e: DeployProductModel) -> DeployProductModel {
    DeployProductModel {
        provisioned_product_id: None,
        provisioned_product_name: None,
        deployed_at: None,
        outputs: Map::empty(),
        ..e
    }
}

/// Enters in the state of the environment that the instance of `product`
/// has ended. A product without an entry gets none.
pub fn record_terminated(env_state: &mut DeployEnvState, product: &str)
    ensures
        final(env_state)@ == if old(env_state)@.contains_key(product@) {
            old(env_state)@.insert(product@, terminated(old(env_state)@[product@]))
        } else {
            old(env_state)@
        },
{
    let ghost before = env_state@;
    match env_state.products.remove(product) {
        Some(mut entry) => {
            entry.provisioned_product_id = None;
            entry.provisioned_product_name = None;
            entry.deployed_at = None;
            entry.outputs = NameMap::new();
            env_state.products.insert(String::from_str(product), entry);
            proof {
                assert(env_state@ =~= before.insert(product@, terminated(before[product@])));
            }
        },
        None => {
            proof {
                assert(env_state@ =~= before);
            }
        },
    }
}

/// A remote thing to delete: the key it is kept under and its remote id.
#[derive(Clone, Debug, PartialEq, Eq)]
pub struct Doomed {
    pub key: String,
    pub id: String,
}

/// The model of a remote thing to delete.
pub struct DoomedModel {
    pub key: Name,
    pub id: Name,
}

impl View for Doomed {
    type V = DoomedModel;

    open spec fn view(&self) -> DoomedModel {
        DoomedModel { key: self.key@, id: self.id@ }
    }
}

/// The models of a list of remote things to delete.
pub open spec fn doomed_of(v: Seq<Doomed>) -> Seq<DoomedModel> {
    Seq::new(v.len(), |i: int| v[i]@)
}

/// Those of `names` that have a remote id on record in `refs`, each with
/// its id, in the order of `names`.
pub open spec fn with_ids(names: Seq<Name>, refs: Map<Name, ResourceRefModel>) -> Seq<DoomedModel>
    decreases names.len(),
{
    if names.len() == 0 {
        Seq::empty()
    } else {
        let rest = with_ids(names.drop_last(), refs);
        let k = names.last();
        if refs.contains_key(k) && refs[k].id is Some {
            rest.push(DoomedModel { key: k, id: refs[k].id->0 })
        } else {
            rest
        }
    }
}

/// Those of `names` that have a remote id on record in `refs`.
fn collect_with_ids(names: &Vec<String>, refs: &NameMap<crate::state::ResourceRef>) -> (r: Vec<
    Doomed,
>)
    ensures
        doomed_of(r@) == with_ids(names_of(names@), refs@),
{
    let mut r: Vec<Doomed> = Vec::new();
    let ghost all = names_of(names@);
    let mut i: usize = 0;
    proof {
        assert(doomed_of(r@) =~= with_ids(all.take(0), refs@));
    }
    while i < names.len()
        invariant
            all == names_of(names@),
            i <= names@.len(),
            doomed_of(r@) == with_ids(all.take(i as int), refs@),
        decreases names@.len() - i,
    {
        proof {
            assert(all.take(i + 1).drop_last() =~= all.take(i as int));
        }
        let ghost before = doomed_of(r@);
        match refs.get(names[i].as_str()) {
            Some(rr) => match &rr.id {
                Some(id) => {
                    r.push(Doomed { key: names[i].clone(), id: id.clone() });
                    proof {
                        assert(doomed_of(r@) =~= before.push(
                            DoomedModel { key: all[i as int], id: id@ },
                        ));
                    }
                },
                None => {},
            },
            None => {},
        }
        i += 1;
    }
    proof {
        assert(all.take(names@.len() as int) =~= all);
    }
    r
}

/// Those of `names` whose recorded state holds the id of a live instance,
/// each with that id, in the order of `names`.
pub open spec fn live_instances(names: Seq<Name>, state: Map<Name, DeployProductModel>) -> Seq<
    DoomedModel,
>
    decreases names.len(),
{
    if names.len() == 0 {
        Seq::empty()
    } else {
        let rest = live_instances(names.drop_last(), state);
        let k = names.last();
        if entry_of(state, k).provisioned_product_id is Some {
            rest.push(DoomedModel { key: k, id: entry_of(state, k).provisioned_product_id->0 })
        } else {
            rest
        }
    }
}

/// The live instances that the state of the environment holds.
fn collect_instances(env_state: &DeployEnvState) -> (r: Vec<Doomed>)
    ensures
        doomed_of(r@) == live_instances(env_state.products.names(), env_state@),
{
    let mut r: Vec<Doomed> = Vec::new();
    let n = env_state.products.len();
    let ghost names = env_state.products.names();
    let mut i: usize = 0;
    proof {
        assert(doomed_of(r@) =~= live_instances(names.take(0), env_state@));
    }
    while i < n
        invariant
            names == env_state.products.names(),
            env_state.products.wf(),
            n == names.len(),
            i <= n,
            doomed_of(r@) == live_instances(names.take(i as int), env_state@),
        decreases n - i,
    {
        proof {
            assert(names.take(i + 1).drop_last() =~= names.take(i as int));
            env_state.products.lemma_entry(i as int);
        }
        let ghost before = doomed_of(r@);
        match &env_state.products.value_at(i).provisioned_product_id {
            Some(id) => {
                r.push(Doomed { key: env_state.products.key_at(i).clone(), id: id.clone() });
                proof {
                    assert(doomed_of(r@) =~= before.push(
                        DoomedModel { key: names[i as int], id: id@ },
                    ));
                }
            },
            None => {},
        }
        i += 1;
    }
    proof {
        assert(names.take(n as int) =~= names);
    }
    r
}

/// The name of the template bucket of an account in a region.
pub open spec fn bucket_name_text(prefix: Name, account: Name, region: Name) -> Seq<char> {
    prefix + "-"@ + account + "-"@ + region
}

/// The name of the launch role of an environment.
pub open spec fn role_name_text(environment: Name) -> Seq<char> {
    "scd-launch-role-"@ + environment
}

/// What the teardown of an environment deletes, in the order of deletion:
/// the live instances, the product registrations, the portfolios, the
/// container registries, the template bucket and the launch role. Every
/// deletion is made as far as it goes: a failure does not end the
/// teardown.
#[derive(Clone, Debug, PartialEq, Eq)]
pub struct Teardown {
    pub instances: Vec<Doomed>,
    pub products: Vec<Doomed>,
    pub portfolios: Vec<Doomed>,
    pub repositories: Vec<String>,
    pub bucket_name: String,
    pub role_name: String,
}

/// The names of the registries that the bootstrap file lists.
pub open spec fn repository_names(repos: Seq<EcrRepository>) -> Seq<Name> {
    Seq::new(repos.len(), |i: int| repos[i].name@)
}

/// What the teardown of the environment deletes.
///
/// The instances are those that the state holds as live. The products of
/// the catalog and the portfolios of the record are
/// deleted as far as the record holds their remote ids; the registries are
/// those of the bootstrap file; the bucket is the recorded one, else the
/// one that the naming rule gives; the role is the one that the naming
/// rule gives.
pub fn destroy_plan(
    catalog: &CatalogFile,
    bootstrap: &BootstrapFile,
    bootstrap_env: &BootstrapEnvState,
    env_state: &DeployEnvState,
    environment: &str,
    account_id: &str,
    region: &str,
) -> (r: Teardown)
    ensures
        doomed_of(r.instances@) == live_instances(env_state.products.names(), env_state@),
        doomed_of(r.products@) == with_ids(catalog.products.names(), bootstrap_env@.products),
        doomed_of(r.portfolios@) == with_ids(
            bootstrap_env.portfolios.names(),
            bootstrap_env@.portfolios,
        ),
        names_of(r.repositories@) == repository_names(bootstrap.ecr_repositories@),
        r.bucket_name@ == match crate::deploy::bucket_name_of(bootstrap_env@) {
            Some(n) => n,
            None => bucket_name_text(bootstrap.template_bucket.name_prefix@, account_id@, region@),
        },
        r.role_name@ == role_name_text(environment@),
{
    let product_names = catalog.products.keys();
    let products = collect_with_ids(&product_names, &bootstrap_env.products);
    let portfolio_names = bootstrap_env.portfolios.keys();
    let portfolios = collect_with_ids(&portfolio_names, &bootstrap_env.portfolios);
    let mut repositories: Vec<String> = Vec::new();
    let mut i: usize = 0;
    while i < bootstrap.ecr_repositories.len()
        invariant
            i <= bootstrap.ecr_repositories@.len(),
            repositories@.len() == i,
            forall|j: int|
                0 <= j < i ==> (#[trigger] repositories@[j])@ == bootstrap.ecr_repositories@[j].name@,
        decreases bootstrap.ecr_repositories@.len() - i,
    {
        repositories.push(bootstrap.ecr_repositories[i].name.clone());
        i += 1;
    }
    proof {
        assert(names_of(repositories@) =~= repository_names(bootstrap.ecr_repositories@));
    }
    let bucket_name = match crate::deploy::template_bucket_name(bootstrap_env) {
        Some(n) => n.clone(),
        None => String::from_str(bootstrap.template_bucket.name_prefix.as_str()).concat(
            "-",
        ).concat(account_id).concat("-").concat(region),
    };
    Teardown {
        instances: collect_instances(env_state),
        products,
        portfolios,
        repositories,
        bucket_name,
        role_name: String::from_str("scd-launch-role-").concat(environment),
    }
}

/// One line of the status of an environment.
#[derive(Clone, Debug, PartialEq, Eq)]
pub struct StatusRow {
    pub product: String,
    /// The published version, or `-`.
    pub version: String,
    /// The time of deployment, or `-`.
    pub deployed_at: String,
}

/// The model of a status line.
pub struct StatusRowModel {
    pub product: Name,
    pub version: Name,
    pub deployed_at: Name,
}

impl View for StatusRow {
    type V = StatusRowModel;

    open spec fn view(&self) -> StatusRowModel {
        StatusRowModel {
            product: self.product@,
            version: self.version@,
            deployed_at: self.deployed_at@,
        }
    }
}

/// The text of an optional entry, or `-`.
pub open spec fn or_dash(o: Option<Name>) -> Name {
    match o {
        Some(s) => s,
        None => "-"@,
    }
}

/// The text of an optional entry, or `-`.
pub fn text_or_dash(o: &Option<String>) -> (r: String)
    ensures
        r@ == or_dash(opt_name(*o)),
{
    match o {
        Some(s) => s.clone(),
        None => String::from_str("-"),
    }
}

/// The recorded state of the products of `environment`; empty where the
/// record does not hold the environment.
pub open spec fn recorded_in(
    state: Map<Name, Map<Name, DeployProductModel>>,
    environment: Name,
) -> Map<Name, DeployProductModel> {
    if state.contains_key(environment) {
        state[environment]
    } else {
        Map::empty()
    }
}

/// The status line of product `p`.
pub open spec fn status_row(state: Map<Name, DeployProductModel>, p: Name) -> StatusRowModel {
    StatusRowModel {
        product: p,
        version: or_dash(entry_of(state, p).version),
        deployed_at: or_dash(entry_of(state, p).deployed_at),
    }
}

/// The status of an environment: for each product of the catalog, in name
/// order, its published version and the time of its deployment.
pub fn status(catalog: &CatalogFile, state: &DeployState, environment: &str) -> (r: Vec<StatusRow>)
    ensures
        r@.len() == catalog.products.names().len(),
        forall|i: int|
            0 <= i < r@.len() ==> (#[trigger] r@[i])@ == status_row(
                recorded_in(state.environments@, environment@),
                catalog.products.names()[i],
            ),
{
    let env_state = state.environments.get(environment);
    let ghost recorded = recorded_in(state.environments@, environment@);
    let n = catalog.products.len();
    let mut r: Vec<StatusRow> = Vec::new();
    let mut i: usize = 0;
    while i < n
        invariant
            n == catalog.products.names().len(),
            i <= n,
            r@.len() == i,
            recorded == recorded_in(state.environments@, environment@),
            match env_state {
                Some(e) => e@ == recorded,
                None => recorded == Map::<Name, DeployProductModel>::empty(),
            },
            forall|j: int|
                0 <= j < i ==> (#[trigger] r@[j])@ == status_row(
                    recorded,
                    catalog.products.names()[j],
                ),
        decreases n - i,
    {
        let name = catalog.products.key_at(i);
        let entry = match env_state {
            Some(e) => e.products.get(name.as_str()),
            None => None,
        };
        let row = match entry {
            Some(ps) => StatusRow {
                product: name.clone(),
                version: text_or_dash(&ps.version),
                deployed_at: text_or_dash(&ps.deployed_at),
            },
            None => StatusRow {
                product: name.clone(),
                version: String::from_str("-"),
                deployed_at: String::from_str("-"),
            },
        };
        r.push(row);
        i += 1;
    }
    r
}

/// Begins a publication: validates, and gives the products to publish.
///
/// Nothing is published unless the catalog and the bootstrap record are in
/// order for the environment. The failure is that of the validation.
pub fn publish_begin(
    catalog: &CatalogFile,
    bootstrap: &BootstrapState,
    environment: &str,
    products: &Vec<String>,
) -> (r: Result<Vec<String>, DeployError>)
    ensures
        r is Ok <==> valid(catalog, bootstrap, environment@),
        match r {
            Ok(targets) => names_of(targets@) == if products@.len() == 0 {
                catalog.products.names()
            } else {
                names_of(products@)
            },
            Err(e) => reports_invalid(catalog, bootstrap, environment@, e),
        },
{
    match validate(catalog, bootstrap, environment) {
        Ok(_) => Ok(publish_targets(catalog, products)),
        Err(e) => Err(e),
    }
}

/// Begins an application: validates, and gives the order in which the
/// requested products are to be applied.
///
/// Nothing is applied unless the catalog and the bootstrap record are in
/// order for the environment and the requested products can be ordered.
/// The failure is that of the validation, else that of the planning.
pub fn apply_begin(
    catalog: &CatalogFile,
    bootstrap: &BootstrapState,
    environment: &str,
    products: &Vec<String>,
) -> (r: Result<Vec<String>, DeployError>)
    ensures
        r is Ok <==> valid(catalog, bootstrap, environment@) && (forall|k: Name|
            selected(catalog.products@, names_of(products@)).contains(k)
                ==> catalog.products@.contains_key(k)) && !cyclic_within(
            catalog.products@,
            selected(catalog.products@, names_of(products@)),
        ),
        match r {
            Ok(order) => is_deployment_order(
                catalog.products@,
                selected(catalog.products@, names_of(products@)),
                names_of(order@),
            ),
            Err(e) => if !valid(catalog, bootstrap, environment@) {
                reports_invalid(catalog, bootstrap, environment@, e)
            } else {
                match e {
                    DeployError::UnknownProduct { product } => is_least_unknown(
                        catalog.products@,
                        selected(catalog.products@, names_of(products@)),
                        product@,
                    ),
                    DeployError::CircularDependency => cyclic_within(
                        catalog.products@,
                        selected(catalog.products@, names_of(products@)),
                    ),
                    _ => false,
                }
            },
        },
{
    match validate(catalog, bootstrap, environment) {
        Ok(_) => plan(catalog, products),
        Err(e) => Err(e),
    }
}

/// Begins a termination: the guard, then the validation, and gives the
/// products whose instances are to end.
///
/// Without a dry run or force nothing else is looked at. Nothing is ended
/// unless the catalog and the bootstrap record are in order for the
/// environment.
pub fn terminate_begin(
    catalog: &CatalogFile,
    bootstrap: &BootstrapState,
    environment: &str,
    env_state: &DeployEnvState,
    products: &Vec<String>,
    dry_run: bool,
    force: bool,
) -> (r: Result<Vec<String>, DeployError>)
    ensures
        r is Ok <==> (dry_run || force) && valid(catalog, bootstrap, environment@),
        match r {
            Ok(targets) => names_of(targets@) == if products@.len() == 0 {
                live_of(env_state.products.names(), env_state@)
            } else {
                names_of(products@)
            },
            Err(e) => if dry_run || force {
                reports_invalid(catalog, bootstrap, environment@, e)
            } else {
                match e {
                    DeployError::GuardRejected { operation } => operation@ == "terminate"@,
                    _ => false,
                }
            },
        },
{
    match check_guard("terminate", dry_run, force) {
        Ok(_) => match validate(catalog, bootstrap, environment) {
            Ok(_) => Ok(terminate_targets(env_state, products)),
            Err(e) => Err(e),
        },
        Err(e) => Err(e),
    }
}

/// Every failure of a step of the list is passed over.
pub open spec fn all_best_effort(steps: Seq<StepModel>) -> bool {
    forall|i: int| 0 <= i < steps.len() ==> (#[trigger] steps[i]).policy == Policy::BestEffort
}

/// The steps that end the live instances, in their order.
pub open spec fn instance_steps(items: Seq<DoomedModel>, dry_run: bool) -> Seq<StepModel>
    decreases items.len(),
{
    if items.len() == 0 {
        Seq::empty()
    } else {
        instance_steps(items.drop_last(), dry_run).push(
            say("Terminating "@ + items.last().key + " ("@ + items.last().id + ")"@),
        ).push(
            if dry_run {
                say("  [DRY RUN] terminate_provisioned_product"@)
            } else {
                make(Call::TerminateInstance, items.last().key, Policy::BestEffort)
            },
        )
    }
}

/// The steps that delete the things `items`, which are called `what`, by
/// the call `call` on their ids, in their order. A dry run only names
/// them.
pub open spec fn deletion_steps(
    items: Seq<DoomedModel>,
    what: Seq<char>,
    call: Call,
    dry_run: bool,
) -> Seq<StepModel>
    decreases items.len(),
{
    if items.len() == 0 {
        Seq::empty()
    } else {
        let rest = deletion_steps(items.drop_last(), what, call, dry_run);
        let named = rest.push(
            say("Deleting "@ + what + " "@ + items.last().key + " ("@ + items.last().id + ")"@),
        );
        if dry_run {
            named
        } else {
            named.push(make(call, items.last().id, Policy::BestEffort))
        }
    }
}

/// The steps that delete the registries `names`, in their order.
pub open spec fn repository_deletions(names: Seq<Name>, dry_run: bool) -> Seq<StepModel>
    decreases names.len(),
{
    if names.len() == 0 {
        Seq::empty()
    } else {
        let named = repository_deletions(names.drop_last(), dry_run).push(
            say("Deleting ECR repo "@ + names.last()),
        );
        if dry_run {
            named
        } else {
            named.push(make(Call::DeleteRepository, names.last(), Policy::BestEffort))
        }
    }
}

/// The steps that delete the one thing `name`, which is called `what`.
pub open spec fn single_deletion(what: Seq<char>, name: Name, call: Call, dry_run: bool) -> Seq<
    StepModel,
> {
    if dry_run {
        seq![say("Deleting "@ + what + " "@ + name)]
    } else {
        seq![say("Deleting "@ + what + " "@ + name), make(call, name, Policy::BestEffort)]
    }
}

/// The steps of the teardown of an environment, in their order: the live
/// instances are ended, then the product registrations, the portfolios,
/// the registries, the template bucket and the launch role are deleted.
pub open spec fn teardown_plan(
    instances: Seq<DoomedModel>,
    products: Seq<DoomedModel>,
    portfolios: Seq<DoomedModel>,
    repositories: Seq<Name>,
    bucket_name: Name,
    role_name: Name,
    dry_run: bool,
) -> Seq<StepModel> {
    instance_steps(instances, dry_run) + deletion_steps(
        products,
        "product"@,
        Call::DeleteProduct,
        dry_run,
    ) + deletion_steps(portfolios, "portfolio"@, Call::DeletePortfolio, dry_run)
        + repository_deletions(repositories, dry_run) + single_deletion(
        "S3 bucket"@,
        bucket_name,
        Call::DeleteBucket,
        dry_run,
    ) + single_deletion("IAM role"@, role_name, Call::DeleteRole, dry_run)
}

/// Adds the steps that delete the things `items`.
fn push_deletions(steps: &mut Vec<Step>, items: &Vec<Doomed>, what: &str, call: Call, dry_run: bool)
    requires
        all_best_effort(steps_of(old(steps)@)),
        dry_run ==> only_says(steps_of(old(steps)@)),
    ensures
        steps_of(final(steps)@) == steps_of(old(steps)@) + deletion_steps(
            doomed_of(items@),
            what@,
            call,
            dry_run,
        ),
        all_best_effort(steps_of(final(steps)@)),
        dry_run ==> only_says(steps_of(final(steps)@)),
{
    let ghost before = steps_of(steps@);
    let ghost all = doomed_of(items@);
    let mut i: usize = 0;
    assert(all.take(0) =~= Seq::<DoomedModel>::empty());
    assert(steps_of(steps@) =~= before + deletion_steps(all.take(0), what@, call, dry_run));
    while i < items.len()
        invariant
            all == doomed_of(items@),
            i <= items@.len(),
            steps_of(steps@) == before + deletion_steps(all.take(i as int), what@, call, dry_run),
            all_best_effort(steps_of(steps@)),
            dry_run ==> only_says(steps_of(steps@)),
        decreases items@.len() - i,
    {
        proof {
            assert(all.take(i + 1).drop_last() =~= all.take(i as int));
            assert(all.take(i + 1).last() == items@[i as int]@);
        }
        let ghost rest = deletion_steps(all.take(i as int), what@, call, dry_run);
        let d = &items[i];
        push_say(
            steps,
            String::from_str("Deleting ").concat(what).concat(" ").concat(d.key.as_str()).concat(
                " (",
            ).concat(d.id.as_str()).concat(")"),
        );
        if !dry_run {
            push_call(steps, call, d.id.clone(), Policy::BestEffort);
        }
        proof {
            let named = rest.push(
                say("Deleting "@ + what@ + " "@ + d.key@ + " ("@ + d.id@ + ")"@),
            );
            if dry_run {
                assert(steps_of(steps@) =~= before + named);
            } else {
                assert(steps_of(steps@) =~= before + named.push(
                    make(call, d.id@, Policy::BestEffort),
                ));
            }
        }
        i += 1;
    }
    proof {
        assert(all.take(items@.len() as int) =~= all);
    }
}

/// Adds the steps that delete the one thing `name`.
fn push_single_deletion(steps: &mut Vec<Step>, what: &str, name: &str, call: Call, dry_run: bool)
    requires
        all_best_effort(steps_of(old(steps)@)),
        dry_run ==> only_says(steps_of(old(steps)@)),
    ensures
        steps_of(final(steps)@) == steps_of(old(steps)@) + single_deletion(
            what@,
            name@,
            call,
            dry_run,
        ),
        all_best_effort(steps_of(final(steps)@)),
        dry_run ==> only_says(steps_of(final(steps)@)),
{
    let ghost before = steps_of(steps@);
    push_say(steps, String::from_str("Deleting ").concat(what).concat(" ").concat(name));
    if !dry_run {
        push_call(steps, call, String::from_str(name), Policy::BestEffort);
    }
    assert(steps_of(steps@) =~= before + single_deletion(what@, name@, call, dry_run));
}

/// The steps of the teardown of an environment, in the order in which
/// they are to be taken.
///
/// The live instances are ended first, then the product registrations,
/// the portfolios, the registries, the template bucket and the launch role
/// are deleted. The failure of a step is passed over, so that every later
/// step is still taken. A dry run only says what would go.
pub fn destroy_steps(teardown: &Teardown, dry_run: bool) -> (r: Vec<Step>)
    ensures
        steps_of(r@) == teardown_plan(
            doomed_of(teardown.instances@),
            doomed_of(teardown.products@),
            doomed_of(teardown.portfolios@),
            names_of(teardown.repositories@),
            teardown.bucket_name@,
            teardown.role_name@,
            dry_run,
        ),
        all_best_effort(steps_of(r@)),
        dry_run ==> only_says(steps_of(r@)),
{
    let mut r: Vec<Step> = Vec::new();
    assert(steps_of(r@) =~= Seq::<StepModel>::empty());
    let ghost all = doomed_of(teardown.instances@);
    let mut i: usize = 0;
    assert(all.take(0) =~= Seq::<DoomedModel>::empty());
    while i < teardown.instances.len()
        invariant
            all == doomed_of(teardown.instances@),
            i <= teardown.instances@.len(),
            steps_of(r@) == instance_steps(all.take(i as int), dry_run),
            all_best_effort(steps_of(r@)),
            dry_run ==> only_says(steps_of(r@)),
        decreases teardown.instances@.len() - i,
    {
        proof {
            assert(all.take(i + 1).drop_last() =~= all.take(i as int));
            assert(all.take(i + 1).last() == teardown.instances@[i as int]@);
        }
        let d = &teardown.instances[i];
        push_say(
            &mut r,
            String::from_str("Terminating ").concat(d.key.as_str()).concat(" (").concat(
                d.id.as_str(),
            ).concat(")"),
        );
        if dry_run {
            push_say(&mut r, String::from_str("  [DRY RUN] terminate_provisioned_product"));
        } else {
            push_call(&mut r, Call::TerminateInstance, d.key.clone(), Policy::BestEffort);
        }
        i += 1;
    }
    proof {
        assert(all.take(teardown.instances@.len() as int) =~= all);
    }
    push_deletions(&mut r, &teardown.products, "product", Call::DeleteProduct, dry_run);
    push_deletions(&mut r, &teardown.portfolios, "portfolio", Call::DeletePortfolio, dry_run);
    let ghost head = steps_of(r@);
    let ghost repos = names_of(teardown.repositories@);
    let mut j: usize = 0;
    assert(repos.take(0) =~= Seq::<Name>::empty());
    assert(steps_of(r@) =~= head + repository_deletions(repos.take(0), dry_run));
    while j < teardown.repositories.len()
        invariant
            repos == names_of(teardown.repositories@),
            j <= teardown.repositories@.len(),
            steps_of(r@) == head + repository_deletions(repos.take(j as int), dry_run),
            all_best_effort(steps_of(r@)),
            dry_run ==> only_says(steps_of(r@)),
        decreases teardown.repositories@.len() - j,
    {
        proof {
            assert(repos.take(j + 1).drop_last() =~= repos.take(j as int));
            assert(repos.take(j + 1).last() == teardown.repositories@[j as int]@);
        }
        let ghost rest = repository_deletions(repos.take(j as int), dry_run);
        let name = teardown.repositories[j].as_str();
        push_say(&mut r, String::from_str("Deleting ECR repo ").concat(name));
        if !dry_run {
            push_call(&mut r, Call::DeleteRepository, String::from_str(name), Policy::BestEffort);
        }
        proof {
            let named = rest.push(say("Deleting ECR repo "@ + name@));
            if dry_run {
                assert(steps_of(r@) =~= head + named);
            } else {
                assert(steps_of(r@) =~= head + named.push(
                    make(Call::DeleteRepository, name@, Policy::BestEffort),
                ));
            }
        }
        j += 1;
    }
    proof {
        assert(repos.take(teardown.repositories@.len() as int) =~= repos);
    }
    push_single_deletion(
        &mut r,
        "S3 bucket",
        teardown.bucket_name.as_str(),
        Call::DeleteBucket,
        dry_run,
    );
    push_single_deletion(&mut r, "IAM role", teardown.role_name.as_str(), Call::DeleteRole, dry_run);
    r
}

/// The models of a list of ids of which some may be missing.
pub open spec fn options_of(v: Seq<Option<String>>) -> Seq<Option<Name>> {
    Seq::new(v.len(), |i: int| opt_name(v[i]))
}

/// Those of `found` that are there, in their order.
pub open spec fn present(found: Seq<Option<Name>>) -> Seq<Name>
    decreases found.len(),
{
    if found.len() == 0 {
        Seq::empty()
    } else {
        match found.last() {
            Some(x) => present(found.drop_last()).push(x),
            None => present(found.drop_last()),
        }
    }
}

/// Those of `found` that are there, in their order.
pub fn those_present(found: &Vec<Option<String>>) -> (r: Vec<String>)
    ensures
        names_of(r@) == present(options_of(found@)),
{
    let ghost all = options_of(found@);
    let mut r: Vec<String> = Vec::new();
    let mut i: usize = 0;
    proof {
        assert(all.take(0) =~= Seq::<Option<Name>>::empty());
        assert(names_of(r@) =~= present(all.take(0)));
    }
    while i < found.len()
        invariant
            all == options_of(found@),
            i <= found@.len(),
            names_of(r@) == present(all.take(i as int)),
        decreases found@.len() - i,
    {
        proof {
            assert(all.take(i + 1).drop_last() =~= all.take(i as int));
            assert(all.take(i + 1).last() == opt_name(found@[i as int]));
        }
        let ghost before = names_of(r@);
        match &found[i] {
            Some(x) => {
                r.push(x.clone());
                proof {
                    assert(names_of(r@) =~= before.push(x@));
                }
            },
            None => {},
        }
        i += 1;
    }
    proof {
        assert(all.take(found@.len() as int) =~= all);
    }
    r
}

/// The call `call` on each of `ids`, in their order, a failure of any
/// passed over.
pub open spec fn calls_on(call: Call, ids: Seq<Name>) -> Seq<StepModel> {
    Seq::new(ids.len(), |i: int| make(call, ids[i], Policy::BestEffort))
}

/// Adds the call `call` on each of `ids`.
fn push_calls_on(steps: &mut Vec<Step>, call: Call, ids: &Vec<String>)
    requires
        all_best_effort(steps_of(old(steps)@)),
    ensures
        steps_of(final(steps)@) == steps_of(old(steps)@) + calls_on(call, names_of(ids@)),
        all_best_effort(steps_of(final(steps)@)),
{
    let ghost before = steps_of(steps@);
    let ghost all = names_of(ids@);
    let mut i: usize = 0;
    proof {
        assert(steps_of(steps@) =~= before + calls_on(call, all.take(0)));
    }
    while i < ids.len()
        invariant
            all == names_of(ids@),
            i <= ids@.len(),
            steps_of(steps@) == before + calls_on(call, all.take(i as int)),
            all_best_effort(steps_of(steps@)),
        decreases ids@.len() - i,
    {
        push_call(steps, call, ids[i].clone(), Policy::BestEffort);
        proof {
            assert(steps_of(steps@) =~= before + calls_on(call, all.take(i + 1)));
        }
        i += 1;
    }
    proof {
        assert(all.take(ids@.len() as int) =~= all);
    }
}

/// What goes before the deletion of a product registration: the product
/// leaves every portfolio that it was found in, then each of its artifacts
/// that was found is deleted. The failure of a step is passed over.
pub fn product_release_steps(
    portfolios: &Vec<Option<String>>,
    artifacts: &Vec<Option<String>>,
) -> (r: Vec<Step>)
    ensures
        steps_of(r@) == calls_on(Call::DisassociateProduct, present(options_of(portfolios@)))
            + calls_on(Call::DeleteArtifact, present(options_of(artifacts@))),
        all_best_effort(steps_of(r@)),
{
    let mut r: Vec<Step> = Vec::new();
    assert(steps_of(r@) =~= Seq::<StepModel>::empty());
    push_calls_on(&mut r, Call::DisassociateProduct, &those_present(portfolios));
    push_calls_on(&mut r, Call::DeleteArtifact, &those_present(artifacts));
    assert(steps_of(r@) =~= calls_on(Call::DisassociateProduct, present(options_of(portfolios@)))
        + calls_on(Call::DeleteArtifact, present(options_of(artifacts@))));
    r
}

/// What goes before the deletion of a portfolio: every principal that was
/// found loses its access. The failure of a step is passed over.
pub fn portfolio_release_steps(principals: &Vec<Option<String>>) -> (r: Vec<Step>)
    ensures
        steps_of(r@) == calls_on(Call::DisassociatePrincipal, present(options_of(principals@))),
        all_best_effort(steps_of(r@)),
{
    let mut r: Vec<Step> = Vec::new();
    assert(steps_of(r@) =~= Seq::<StepModel>::empty());
    push_calls_on(&mut r, Call::DisassociatePrincipal, &those_present(principals));
    assert(steps_of(r@) =~= calls_on(
        Call::DisassociatePrincipal,
        present(options_of(principals@)),
    ));
    r
}

/// What goes before the deletion of the launch role: every policy that
/// was found attached is detached. The failure of a step is passed over.
pub fn role_release_steps(policies: &Vec<Option<String>>) -> (r: Vec<Step>)
    ensures
        steps_of(r@) == calls_on(Call::DetachPolicy, present(options_of(policies@))),
        all_best_effort(steps_of(r@)),
{
    let mut r: Vec<Step> = Vec::new();
    assert(steps_of(r@) =~= Seq::<StepModel>::empty());
    push_calls_on(&mut r, Call::DetachPolicy, &those_present(policies));
    assert(steps_of(r@) =~= calls_on(Call::DetachPolicy, present(options_of(policies@))));
    r
}

/// What goes before the deletion of the template bucket: the objects
/// whose keys were found are deleted in one call; there is no call where
/// none was found.
pub fn bucket_release(keys: &Vec<Option<String>>) -> (r: Option<Vec<String>>)
    ensures
        match r {
            Some(batch) => batch@.len() > 0 && names_of(batch@) == present(options_of(keys@)),
            None => present(options_of(keys@)).len() == 0,
        },
{
    let batch = those_present(keys);
    if batch.len() == 0 {
        None
    } else {
        Some(batch)
    }
}

} // verus!
