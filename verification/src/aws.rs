//! The reconciliation of the bootstrap resources of an environment, and
//! the connection of an environment to an account.
//!
//! For each resource the functions here say what is to be done given what
//! was found: a list of steps in the order in which they are to be taken,
//! each with the policy for a failure of the remote call. A dry run lists
//! only what would be said. The functions also give the names by which the
//! resources are found again in a later run.

use crate::config::{PortfolioSpec, Profile, ProfilesFile, TemplateBucket};
use crate::lifecycle::{object_address, object_url};
use crate::error::DeployError;
use crate::jsondoc::{
    entry, entry_models, json_written, list, models_of, object, single, single_model, text,
    written, Json, JsonModel,
};
use crate::lifecycle::{bucket_name_text, role_name_text, text_or_empty};
use crate::namemap::NameMap;
use crate::names::{names_of, opt_name, same_name, Name};
use crate::state::{BootstrapEnvModel, BootstrapEnvState, ResourceRef, ResourceRefModel};
use crate::text::{replace_all, replaced};
use vstd::prelude::*;
use vstd::string::*;

verus! {

/// An environment and the account it is connected to.
#[derive(Clone, Debug, PartialEq, Eq)]
pub struct AwsEnv {
    pub environment: String,
    pub aws_profile: String,
    pub aws_region: String,
    pub account_id: String,
}

/// The connection of `environment`, from its stored profile.
pub fn load_env(profiles: &ProfilesFile, environment: &str) -> (r: Result<AwsEnv, DeployError>)
    ensures
        match r {
            Ok(env) => profiles.profiles@.contains_key(environment@) && env.environment@
                == environment@ && env.aws_profile@ == profiles.profiles@[environment@].aws_profile
                && env.aws_region@ == profiles.profiles@[environment@].aws_region && env.account_id@
                == profiles.profiles@[environment@].account_id,
            Err(DeployError::EnvironmentNotConfigured { environment: e }) => e@ == environment@
                && !profiles.profiles@.contains_key(environment@),
            Err(_) => false,
        },
{
    match profiles.profiles.get(environment) {
        Some(p) => Ok(
            AwsEnv {
                environment: String::from_str(environment),
                aws_profile: p.aws_profile.clone(),
                aws_region: p.aws_region.clone(),
                account_id: p.account_id.clone(),
            },
        ),
        None => Err(
            DeployError::EnvironmentNotConfigured { environment: String::from_str(environment) },
        ),
    }
}

/// The first of `given` and `stored` that is there.
fn first_of(given: Option<String>, stored: Option<&String>) -> (r: Option<String>)
    ensures
        opt_name(r) == match given {
            Some(g) => Some(g@),
            None => match stored {
                Some(s) => Some(s@),
                None => None,
            },
        },
{
    match given {
        Some(g) => Some(g),
        None => match stored {
            Some(s) => Some(s.clone()),
            None => None,
        },
    }
}

/// The cloud profile and the region to connect with: what was given, else
/// what the stored profile of the environment holds.
pub fn resolve_connection(
    existing: Option<&Profile>,
    aws_profile: Option<String>,
    region: Option<String>,
) -> (r: Result<(String, String), DeployError>)
    ensures
        match r {
            Ok((p, g)) => {
                &&& Some(p@) == match aws_profile {
                    Some(x) => Some(x@),
                    None => match existing {
                        Some(e) => Some(e.aws_profile@),
                        None => None,
                    },
                }
                &&& Some(g@) == match region {
                    Some(x) => Some(x@),
                    None => match existing {
                        Some(e) => Some(e.aws_region@),
                        None => None,
                    },
                }
            },
            Err(DeployError::MissingAwsProfile) => aws_profile is None && existing is None,
            Err(DeployError::MissingRegion) => !(aws_profile is None && existing is None)
                && region is None && existing is None,
            Err(_) => false,
        },
{
    let stored_profile = match existing {
        Some(e) => Some(&e.aws_profile),
        None => None,
    };
    let stored_region = match existing {
        Some(e) => Some(&e.aws_region),
        None => None,
    };
    let p = match first_of(aws_profile, stored_profile) {
        Some(p) => p,
        None => {
            return Err(DeployError::MissingAwsProfile);
        },
    };
    let g = match first_of(region, stored_region) {
        Some(g) => g,
        None => {
            return Err(DeployError::MissingRegion);
        },
    };
    Ok((p, g))
}

/// The account to store for the environment: what was given, else what
/// the stored profile holds, else the account that the credentials belong
/// to. The call fails where that account and the verified one are both
/// known and differ.
pub fn resolve_account(existing: Option<&Profile>, account_id: Option<String>, verified: &str) -> (r:
    Result<String, DeployError>)
    ensures
        ({
            let wanted = match account_id {
                Some(x) => x@,
                None => match existing {
                    Some(e) => e.account_id@,
                    None => verified@,
                },
            };
            let clash = wanted.len() > 0 && verified@.len() > 0 && wanted != verified@;
            match r {
                Ok(a) => !clash && a@ == wanted,
                Err(DeployError::AccountMismatch { configured, actual }) => clash && configured@
                    == wanted && actual@ == verified@,
                Err(_) => false,
            }
        }),
{
    let stored = match existing {
        Some(e) => Some(&e.account_id),
        None => None,
    };
    let wanted = match first_of(account_id, stored) {
        Some(a) => a,
        None => String::from_str(verified),
    };
    if wanted.as_str().unicode_len() > 0 && verified.unicode_len() > 0 && !same_name(
        wanted.as_str(),
        verified,
    ) {
        Err(
            DeployError::AccountMismatch {
                configured: wanted,
                actual: String::from_str(verified),
            },
        )
    } else {
        Ok(wanted)
    }
}

/// What a step does.
#[derive(Clone, Copy, Debug, PartialEq, Eq, Structural)]
pub enum Call {
    /// Say the text of the argument; nothing is changed.
    Say,
    /// Create the template bucket; the argument is the location
    /// constraint, empty for none.
    CreateBucket,
    /// Switch on the versioning of the template bucket.
    EnableVersioning,
    /// Set the encryption of the template bucket.
    SetEncryption,
    /// Put the ownership tags on the template bucket.
    TagBucket,
    /// Create the registry that the argument names.
    CreateRepository,
    /// Create the portfolio whose display name is the argument.
    CreatePortfolio,
    /// Give the principal of the argument access to the portfolio.
    AssociatePrincipal,
    /// Create the launch role that the argument names.
    CreateRole,
    /// Attach the policy of the argument to the launch role.
    AttachPolicy,
    /// Upload the placeholder template under the key of the argument.
    UploadPlaceholder,
    /// Create the product that the argument names.
    CreateProduct,
    /// Put the product into the portfolio whose id is the argument.
    AssociateProduct,
    /// Create the launch constraint; the argument holds its parameters.
    CreateConstraint,
    /// End the live instance of the product that the argument names, wait
    /// for the end and enter it in the state.
    TerminateInstance,
    /// Delete the product whose id is the argument, after what hangs on
    /// it was released.
    DeleteProduct,
    /// Delete the portfolio whose id is the argument, after what hangs on
    /// it was released.
    DeletePortfolio,
    /// Delete the registry that the argument names, with what it holds.
    DeleteRepository,
    /// Delete the bucket that the argument names, after it was emptied.
    DeleteBucket,
    /// Delete the role that the argument names, after its policies were
    /// detached.
    DeleteRole,
    /// Take the product out of the portfolio whose id is the argument.
    DisassociateProduct,
    /// Delete the artifact of the product whose id is the argument.
    DeleteArtifact,
    /// Take the access to the portfolio from the principal of the
    /// argument.
    DisassociatePrincipal,
    /// Detach the policy of the argument from the launch role.
    DetachPolicy,
}

/// What a failure of the remote call of a step means.
#[derive(Clone, Copy, Debug, PartialEq, Eq, Structural)]
pub enum Policy {
    /// The operation ends with the failure.
    Fatal,
    /// The failure is passed over.
    BestEffort,
}

/// One step of the reconciliation.
#[derive(Clone, Debug, PartialEq, Eq)]
pub struct Step {
    pub call: Call,
    pub argument: String,
    pub policy: Policy,
}

/// The model of a step.
pub struct StepModel {
    pub call: Call,
    pub argument: Seq<char>,
    pub policy: Policy,
}

impl View for Step {
    type V = StepModel;

    open spec fn view(&self) -> StepModel {
        StepModel { call: self.call, argument: self.argument@, policy: self.policy }
    }
}

/// The models of a list of steps.
pub open spec fn steps_of(v: Seq<Step>) -> Seq<StepModel> {
    Seq::new(v.len(), |i: int| v[i]@)
}

/// The step that says `text`.
pub open spec fn say(text: Seq<char>) -> StepModel {
    StepModel { call: Call::Say, argument: text, policy: Policy::BestEffort }
}

/// The step that makes the call `call` with `argument`.
pub open spec fn make(call: Call, argument: Seq<char>, policy: Policy) -> StepModel {
    StepModel { call, argument, policy }
}

/// No step of the list changes anything.
pub open spec fn only_says(steps: Seq<StepModel>) -> bool {
    forall|i: int| 0 <= i < steps.len() ==> (#[trigger] steps[i]).call is Say
}

impl Call {
    /// The call brings a resource into being.
    pub open spec fn creates(self) -> bool {
        self is CreateBucket || self is CreateRepository || self is CreatePortfolio
            || self is CreateRole || self is UploadPlaceholder || self is CreateProduct
    }
}

/// No step of the list brings a resource into being.
pub open spec fn creates_nothing(steps: Seq<StepModel>) -> bool {
    forall|i: int| 0 <= i < steps.len() ==> !(#[trigger] steps[i]).call.creates()
}

/// What becomes of the result of the remote call of a step: a failure
/// ends the operation where the policy is fatal, and is passed over where
/// it is not.
pub fn settle<E>(policy: Policy, result: Result<(), E>) -> (r: Result<(), E>)
    ensures
        r == match policy {
            Policy::Fatal => result,
            Policy::BestEffort => Ok::<(), E>(()),
        },
{
    match policy {
        Policy::Fatal => result,
        Policy::BestEffort => Ok(()),
    }
}

/// Adds the step that says `text`.
pub(crate) fn push_say(steps: &mut Vec<Step>, text: String)
    ensures
        steps_of(final(steps)@) == steps_of(old(steps)@).push(say(text@)),
{
    let ghost before = steps_of(steps@);
    steps.push(Step { call: Call::Say, argument: text, policy: Policy::BestEffort });
    assert(steps_of(steps@) =~= before.push(say(text@)));
}

/// Adds the step that makes the call `call` with `argument`.
pub(crate) fn push_call(steps: &mut Vec<Step>, call: Call, argument: String, policy: Policy)
    ensures
        steps_of(final(steps)@) == steps_of(old(steps)@).push(make(call, argument@, policy)),
{
    let ghost before = steps_of(steps@);
    steps.push(Step { call, argument, policy });
    assert(steps_of(steps@) =~= before.push(make(call, argument@, policy)));
}

/// A tag on a remote resource.
#[derive(Clone, Debug, PartialEq, Eq)]
pub struct Tag {
    pub key: String,
    pub value: String,
}

/// The model of a list of tags: the pairs of key and value.
pub open spec fn tags_of(v: Seq<Tag>) -> Seq<(Name, Name)> {
    Seq::new(v.len(), |i: int| (v[i].key@, v[i].value@))
}

/// The two tags that mark a resource as kept by this tool for an
/// environment.
pub open spec fn ownership(environment: Name) -> Seq<(Name, Name)> {
    seq![("ManagedBy"@, "scd"@), ("Environment"@, environment)]
}

/// The two tags that mark a resource as kept by this tool for the
/// environment.
pub fn ownership_tags(environment: &str) -> (r: Vec<Tag>)
    ensures
        tags_of(r@) == ownership(environment@),
{
    let mut r: Vec<Tag> = Vec::new();
    r.push(Tag { key: String::from_str("ManagedBy"), value: String::from_str("scd") });
    r.push(Tag { key: String::from_str("Environment"), value: String::from_str(environment) });
    assert(tags_of(r@) =~= ownership(environment@));
    r
}

/// The name of the template bucket of the environment's account and
/// region. The same account and region give the same bucket in every run.
pub fn template_bucket_name(prefix: &str, env: &AwsEnv) -> (r: String)
    ensures
        r@ == bucket_name_text(prefix@, env.account_id@, env.aws_region@),
{
    String::from_str(prefix).concat("-").concat(env.account_id.as_str()).concat("-").concat(
        env.aws_region.as_str(),
    )
}

/// What is recorded of the template bucket: its name and its ARN.
pub fn template_bucket_ref(bucket_name: &str) -> (r: ResourceRef)
    ensures
        r@ == (ResourceRefModel {
            id: None,
            arn: Some("arn:aws:s3:::"@ + bucket_name@),
            name: Some(bucket_name@),
            uri: None,
        }),
{
    ResourceRef {
        id: None,
        arn: Some(String::from_str("arn:aws:s3:::").concat(bucket_name)),
        name: Some(String::from_str(bucket_name)),
        uri: None,
    }
}

/// The steps that bring the template bucket into its desired state.
pub open spec fn bucket_plan(
    exists: bool,
    name: Name,
    region: Name,
    versioning: bool,
    encryption: Name,
    dry_run: bool,
) -> Seq<StepModel> {
    (if exists {
        Seq::<StepModel>::empty()
    } else if dry_run {
        seq![say("[DRY RUN] create s3 bucket "@ + name)]
    } else {
        seq![
            make(
                Call::CreateBucket,
                if region == "us-east-1"@ {
                    Seq::<char>::empty()
                } else {
                    region
                },
                Policy::Fatal,
            ),
        ]
    }) + (if !versioning {
        Seq::<StepModel>::empty()
    } else if dry_run {
        seq![say("[DRY RUN] enable versioning on "@ + name)]
    } else {
        seq![make(Call::EnableVersioning, name, Policy::Fatal)]
    }) + (if encryption.len() == 0 {
        Seq::<StepModel>::empty()
    } else if dry_run {
        seq![say("[DRY RUN] set encryption "@ + encryption + " on "@ + name)]
    } else {
        seq![make(Call::SetEncryption, "AES256"@, Policy::Fatal)]
    }) + (if dry_run {
        seq![say("[DRY RUN] tag s3 bucket "@ + name)]
    } else {
        seq![make(Call::TagBucket, name, Policy::BestEffort)]
    })
}

/// The steps that bring the template bucket into its desired state.
///
/// A bucket that is missing is created, outside the default region with
/// the region as its location constraint. Versioning and encryption are
/// set where the description asks for them, whether the bucket is new or
/// not. The tags are put on last; a failure there is passed over.
pub fn bucket_steps(
    exists: bool,
    bucket_name: &str,
    env: &AwsEnv,
    spec: &TemplateBucket,
    dry_run: bool,
) -> (r: Vec<Step>)
    ensures
        steps_of(r@) == bucket_plan(
            exists,
            bucket_name@,
            env.aws_region@,
            spec.versioning,
            spec.encryption@,
            dry_run,
        ),
        dry_run ==> only_says(steps_of(r@)),
        exists ==> creates_nothing(steps_of(r@)),
{
    let mut r: Vec<Step> = Vec::new();
    let ghost s0 = steps_of(r@);
    assert(s0 =~= Seq::<StepModel>::empty());
    if !exists {
        if dry_run {
            push_say(&mut r, String::from_str("[DRY RUN] create s3 bucket ").concat(bucket_name));
        } else {
            let constraint = if same_name(env.aws_region.as_str(), "us-east-1") {
                String::new()
            } else {
                env.aws_region.clone()
            };
            push_call(&mut r, Call::CreateBucket, constraint, Policy::Fatal);
        }
    }
    let ghost s1 = steps_of(r@);
    if spec.versioning {
        if dry_run {
            push_say(
                &mut r,
                String::from_str("[DRY RUN] enable versioning on ").concat(bucket_name),
            );
        } else {
            push_call(
                &mut r,
                Call::EnableVersioning,
                String::from_str(bucket_name),
                Policy::Fatal,
            );
        }
    }
    let ghost s2 = steps_of(r@);
    if spec.encryption.as_str().unicode_len() > 0 {
        if dry_run {
            push_say(
                &mut r,
                String::from_str("[DRY RUN] set encryption ").concat(
                    spec.encryption.as_str(),
                ).concat(" on ").concat(bucket_name),
            );
        } else {
            push_call(&mut r, Call::SetEncryption, String::from_str("AES256"), Policy::Fatal);
        }
    }
    let ghost s3 = steps_of(r@);
    if dry_run {
        push_say(&mut r, String::from_str("[DRY RUN] tag s3 bucket ").concat(bucket_name));
    } else {
        push_call(&mut r, Call::TagBucket, String::from_str(bucket_name), Policy::BestEffort);
    }
    proof {
        let plan = bucket_plan(
            exists,
            bucket_name@,
            env.aws_region@,
            spec.versioning,
            spec.encryption@,
            dry_run,
        );
        assert(steps_of(r@) =~= plan);
    }
    r
}

/// The text of an optional entry, empty for none.
pub open spec fn or_empty(o: Option<Name>) -> Name {
    match o {
        Some(s) => s,
        None => Seq::<char>::empty(),
    }
}

/// The steps that make sure that the registry `name` exists; `found` says
/// whether it was found.
pub open spec fn repository_plan(found: bool, name: Name, dry_run: bool) -> Seq<StepModel> {
    if found {
        Seq::<StepModel>::empty()
    } else if dry_run {
        seq![say("[DRY RUN] create ecr repo "@ + name)]
    } else {
        seq![make(Call::CreateRepository, name, Policy::Fatal)]
    }
}

/// The steps that make sure that the registry `name` exists.
pub fn repository_steps(found: bool, name: &str, dry_run: bool) -> (r: Vec<Step>)
    ensures
        steps_of(r@) == repository_plan(found, name@, dry_run),
        dry_run ==> only_says(steps_of(r@)),
        found ==> creates_nothing(steps_of(r@)),
{
    let mut r: Vec<Step> = Vec::new();
    assert(steps_of(r@) =~= Seq::<StepModel>::empty());
    if !found {
        if dry_run {
            push_say(&mut r, String::from_str("[DRY RUN] create ecr repo ").concat(name));
        } else {
            push_call(&mut r, Call::CreateRepository, String::from_str(name), Policy::Fatal);
        }
    }
    assert(steps_of(r@) =~= repository_plan(found, name@, dry_run));
    r
}

/// What is recorded of the registry `name` that a remote answer shows.
/// The call fails where the answer, named by `what`, shows none.
pub fn repository_from_answer(name: &str, answer: Option<&ResourceRef>, what: &str) -> (r: Result<
    ResourceRef,
    DeployError,
>)
    ensures
        match r {
            Ok(x) => answer is Some && x@ == (ResourceRefModel {
                id: None,
                arn: Some(or_empty(answer->0@.arn)),
                name: Some(name@),
                uri: Some(or_empty(answer->0@.uri)),
            }),
            Err(DeployError::MissingInResponse { what: w }) => answer is None && w@ == what@,
            Err(_) => false,
        },
{
    match answer {
        Some(a) => Ok(
            ResourceRef {
                id: None,
                arn: Some(text_or_empty(&a.arn)),
                name: Some(String::from_str(name)),
                uri: Some(text_or_empty(&a.uri)),
            },
        ),
        None => Err(DeployError::MissingInResponse { what: String::from_str(what) }),
    }
}

/// What a dry run records of a registry that does not exist yet: the ARN
/// and the address that it would get.
pub fn repository_dry_run_ref(env: &AwsEnv, name: &str) -> (r: ResourceRef)
    ensures
        r@ == (ResourceRefModel {
            id: None,
            arn: Some(
                "arn:aws:ecr:"@ + env.aws_region@ + ":"@ + env.account_id@ + ":repository/"@
                    + name@,
            ),
            name: Some(name@),
            uri: Some(
                env.account_id@ + ".dkr.ecr."@ + env.aws_region@ + ".amazonaws.com/"@ + name@,
            ),
        }),
{
    ResourceRef {
        id: None,
        arn: Some(
            String::from_str("arn:aws:ecr:").concat(env.aws_region.as_str()).concat(":").concat(
                env.account_id.as_str(),
            ).concat(":repository/").concat(name),
        ),
        name: Some(String::from_str(name)),
        uri: Some(
            String::from_str(env.account_id.as_str()).concat(".dkr.ecr.").concat(
                env.aws_region.as_str(),
            ).concat(".amazonaws.com/").concat(name),
        ),
    }
}

/// The display name of a portfolio in an environment. Portfolios are
/// found again by this name, not by a stored id.
pub fn portfolio_display_name(spec: &PortfolioSpec, env: &AwsEnv) -> (r: String)
    ensures
        r@ == spec.display_name@ + " ("@ + env.environment@ + ")"@,
{
    String::from_str(spec.display_name.as_str()).concat(" (").concat(
        env.environment.as_str(),
    ).concat(")")
}

/// What is recorded of the first entry of `list` whose name is `name`: its
/// id and its ARN, each empty where the entry has none, and the name.
pub fn find_named(list: &Vec<ResourceRef>, name: &str) -> (r: Option<ResourceRef>)
    ensures
        match r {
            Some(x) => exists|i: int|
                0 <= i < list@.len() && or_empty((#[trigger] list@[i])@.name) == name@ && x@ == (
                ResourceRefModel {
                    id: Some(or_empty(list@[i]@.id)),
                    arn: Some(or_empty(list@[i]@.arn)),
                    name: Some(name@),
                    uri: None,
                }) && forall|j: int| 0 <= j < i ==> or_empty((#[trigger] list@[j])@.name) != name@,
            None => forall|j: int|
                0 <= j < list@.len() ==> or_empty((#[trigger] list@[j])@.name) != name@,
        },
{
    let mut i: usize = 0;
    while i < list.len()
        invariant
            i <= list@.len(),
            forall|j: int| 0 <= j < i ==> or_empty((#[trigger] list@[j])@.name) != name@,
        decreases list@.len() - i,
    {
        let n = text_or_empty(&list[i].name);
        if same_name(n.as_str(), name) {
            return Some(
                ResourceRef {
                    id: Some(text_or_empty(&list[i].id)),
                    arn: Some(text_or_empty(&list[i].arn)),
                    name: Some(String::from_str(name)),
                    uri: None,
                },
            );
        }
        i += 1;
    }
    None
}

/// The token of the next page of a listing; `None` where the listing has
/// ended.
pub fn next_page(token: &Option<String>) -> (r: Option<String>)
    ensures
        opt_name(r) == match token {
            Some(t) => if t@.len() > 0 {
                Some(t@)
            } else {
                None
            },
            None => None,
        },
{
    match token {
        Some(t) => if t.as_str().unicode_len() > 0 {
            Some(t.clone())
        } else {
            None
        },
        None => None,
    }
}

/// The tags of a new portfolio: the ownership tags and then the tags of
/// its description, in the order of their keys.
pub fn portfolio_tags(env: &AwsEnv, spec: &PortfolioSpec) -> (r: Vec<Tag>)
    ensures
        tags_of(r@) == ownership(env.environment@) + Seq::new(
            spec.tags.names().len(),
            |i: int| (spec.tags.names()[i], spec.tags@[spec.tags.names()[i]]),
        ),
{
    let mut r = ownership_tags(env.environment.as_str());
    let n = spec.tags.len();
    let ghost extra = Seq::new(
        spec.tags.names().len(),
        |i: int| (spec.tags.names()[i], spec.tags@[spec.tags.names()[i]]),
    );
    let mut i: usize = 0;
    assert(tags_of(r@) =~= ownership(env.environment@) + extra.take(0));
    while i < n
        invariant
            n == spec.tags.names().len(),
            i <= n,
            extra == Seq::new(
                spec.tags.names().len(),
                |i: int| (spec.tags.names()[i], spec.tags@[spec.tags.names()[i]]),
            ),
            tags_of(r@) == ownership(env.environment@) + extra.take(i as int),
        decreases n - i,
    {
        let ghost before = tags_of(r@);
        let key = spec.tags.key_at(i).clone();
        let value = spec.tags.value_at(i).clone();
        r.push(Tag { key, value });
        proof {
            assert(tags_of(r@) =~= before.push(extra[i as int]));
            assert(extra.take(i + 1) =~= extra.take(i as int).push(extra[i as int]));
            assert(tags_of(r@) =~= ownership(env.environment@) + extra.take(i + 1));
        }
        i += 1;
    }
    assert(extra.take(n as int) =~= extra);
    r
}

/// The step that gives one principal access to the portfolio `key`.
pub open spec fn principal_step(principal: Name, key: Name, account: Name, dry_run: bool) -> StepModel {
    if dry_run {
        say("[DRY RUN] associate principal "@ + principal + " with portfolio "@ + key)
    } else {
        make(
            Call::AssociatePrincipal,
            replaced(principal, "${account_id}"@, account),
            Policy::BestEffort,
        )
    }
}

/// The steps that make sure that a portfolio exists and that its
/// principals have access to it.
pub open spec fn portfolio_plan(
    found: bool,
    key: Name,
    display_name: Name,
    principals: Seq<Name>,
    account: Name,
    dry_run: bool,
) -> Seq<StepModel> {
    (if found {
        Seq::<StepModel>::empty()
    } else if dry_run {
        seq![say("[DRY RUN] create portfolio "@ + key + " ("@ + display_name + ")"@)]
    } else {
        seq![make(Call::CreatePortfolio, display_name, Policy::Fatal)]
    }) + Seq::new(principals.len(), |i: int| principal_step(principals[i], key, account, dry_run))
}

/// The steps that make sure that the portfolio `key` exists and that its
/// principals have access to it.
///
/// A portfolio that was not found by its display name is created. Each
/// principal is then given access, the account of the environment put in
/// where its ARN has the placeholder for it; a failure there is passed
/// over.
pub fn portfolio_steps(
    found: bool,
    key: &str,
    display_name: &str,
    spec: &PortfolioSpec,
    env: &AwsEnv,
    dry_run: bool,
) -> (r: Vec<Step>)
    ensures
        steps_of(r@) == portfolio_plan(
            found,
            key@,
            display_name@,
            names_of(spec.principals@),
            env.account_id@,
            dry_run,
        ),
        dry_run ==> only_says(steps_of(r@)),
        found ==> creates_nothing(steps_of(r@)),
{
    let mut r: Vec<Step> = Vec::new();
    assert(steps_of(r@) =~= Seq::<StepModel>::empty());
    if !found {
        if dry_run {
            push_say(
                &mut r,
                String::from_str("[DRY RUN] create portfolio ").concat(key).concat(" (").concat(
                    display_name,
                ).concat(")"),
            );
        } else {
            push_call(&mut r, Call::CreatePortfolio, String::from_str(display_name), Policy::Fatal);
        }
    }
    let ghost head = steps_of(r@);
    let ghost principals = names_of(spec.principals@);
    let ghost tail = Seq::new(
        principals.len(),
        |i: int| principal_step(principals[i], key@, env.account_id@, dry_run),
    );
    let mut i: usize = 0;
    assert(steps_of(r@) =~= head + tail.take(0));
    while i < spec.principals.len()
        invariant
            i <= spec.principals@.len(),
            principals == names_of(spec.principals@),
            tail == Seq::new(
                principals.len(),
                |i: int| principal_step(principals[i], key@, env.account_id@, dry_run),
            ),
            steps_of(r@) == head + tail.take(i as int),
            dry_run ==> only_says(head),
            found ==> head.len() == 0,
        decreases spec.principals@.len() - i,
    {
        let ghost before = steps_of(r@);
        let principal = spec.principals[i].as_str();
        if dry_run {
            push_say(
                &mut r,
                String::from_str("[DRY RUN] associate principal ").concat(principal).concat(
                    " with portfolio ",
                ).concat(key),
            );
        } else {
            let arn = replace_all(principal, "${account_id}", env.account_id.as_str());
            push_call(&mut r, Call::AssociatePrincipal, arn, Policy::BestEffort);
        }
        proof {
            assert(tail.take(i + 1) =~= tail.take(i as int).push(tail[i as int]));
            assert(steps_of(r@) =~= head + tail.take(i + 1));
        }
        i += 1;
    }
    proof {
        assert(tail.take(spec.principals@.len() as int) =~= tail);
        if dry_run {
            assert forall|j: int| 0 <= j < steps_of(r@).len() implies (#[trigger] steps_of(
                r@,
            )[j]).call is Say by {
                if j >= head.len() {
                    assert(steps_of(r@)[j] == tail[j - head.len()]);
                } else {
                    assert(steps_of(r@)[j] == head[j]);
                }
            }
        }
        if found {
            assert forall|j: int| 0 <= j < steps_of(r@).len() implies !(#[trigger] steps_of(
                r@,
            )[j]).call.creates() by {
                assert(head.len() == 0);
                assert(steps_of(r@)[j] == tail[j]);
            }
        }
    }
    r
}

/// What a dry run records of a portfolio that does not exist yet: marked
/// stand-ins for its id and its ARN.
pub fn portfolio_dry_run_ref(display_name: &str) -> (r: ResourceRef)
    ensures
        r@ == (ResourceRefModel {
            id: Some("port-dryrun"@),
            arn: Some("arn:dryrun"@),
            name: Some(display_name@),
            uri: None,
        }),
{
    ResourceRef {
        id: Some(String::from_str("port-dryrun")),
        arn: Some(String::from_str("arn:dryrun")),
        name: Some(String::from_str(display_name)),
        uri: None,
    }
}

/// What is recorded of a thing that was created under the name `name`,
/// from the answer to the call. The call fails where the answer, named by
/// `what`, shows nothing.
pub fn created_ref(name: &str, answer: Option<&ResourceRef>, what: &str) -> (r: Result<
    ResourceRef,
    DeployError,
>)
    ensures
        match r {
            Ok(x) => answer is Some && x@ == (ResourceRefModel {
                id: Some(or_empty(answer->0@.id)),
                arn: Some(or_empty(answer->0@.arn)),
                name: Some(name@),
                uri: None,
            }),
            Err(DeployError::MissingInResponse { what: w }) => answer is None && w@ == what@,
            Err(_) => false,
        },
{
    match answer {
        Some(a) => Ok(
            ResourceRef {
                id: Some(text_or_empty(&a.id)),
                arn: Some(text_or_empty(&a.arn)),
                name: Some(String::from_str(name)),
                uri: None,
            },
        ),
        None => Err(DeployError::MissingInResponse { what: String::from_str(what) }),
    }
}

/// The name of the launch role of the environment.
pub fn launch_role_name(env: &AwsEnv) -> (r: String)
    ensures
        r@ == role_name_text(env.environment@),
{
    String::from_str("scd-launch-role-").concat(env.environment.as_str())
}

/// The document that lets the catalog service, and nothing else, assume
/// the launch role.
pub open spec fn trust_model() -> JsonModel {
    JsonModel::Object(
        seq![
            ("Version"@, JsonModel::Text("2012-10-17"@)),
            (
                "Statement"@,
                JsonModel::List(
                    seq![
                        JsonModel::Object(
                            seq![
                                ("Effect"@, JsonModel::Text("Allow"@)),
                                (
                                    "Principal"@,
                                    single_model("Service"@, "servicecatalog.amazonaws.com"@),
                                ),
                                ("Action"@, JsonModel::Text("sts:AssumeRole"@)),
                            ],
                        ),
                    ],
                ),
            ),
        ],
    )
}

/// The document that lets the catalog service, and nothing else, assume
/// the launch role.
pub fn trust_document() -> (r: Json)
    ensures
        r.model() == trust_model(),
{
    let mut statement: Vec<(String, Json)> = Vec::new();
    statement.push(entry("Effect", text("Allow")));
    statement.push(entry("Principal", single("Service", "servicecatalog.amazonaws.com")));
    statement.push(entry("Action", text("sts:AssumeRole")));
    proof {
        assert(entry_models(statement@) =~= seq![
            ("Effect"@, JsonModel::Text("Allow"@)),
            ("Principal"@, single_model("Service"@, "servicecatalog.amazonaws.com"@)),
            ("Action"@, JsonModel::Text("sts:AssumeRole"@)),
        ]);
    }
    let mut statements: Vec<Json> = Vec::new();
    statements.push(object(statement));
    proof {
        assert(models_of(statements@) =~= seq![statements@[0].model()]);
    }
    let mut document: Vec<(String, Json)> = Vec::new();
    document.push(entry("Version", text("2012-10-17")));
    document.push(entry("Statement", list(statements)));
    proof {
        assert(entry_models(document@) =~= seq![
            ("Version"@, document@[0].1.model()),
            ("Statement"@, document@[1].1.model()),
        ]);
    }
    object(document)
}

/// The trust policy of the launch role: the text of its document.
pub fn trust_policy() -> (r: String)
    ensures
        r@ == json_written(trust_model()),
{
    written(&trust_document())
}

/// The description of the launch role of the environment.
pub fn launch_role_description(env: &AwsEnv) -> (r: String)
    ensures
        r@ == "Service Catalog launch role for "@ + env.environment@,
{
    String::from_str("Service Catalog launch role for ").concat(env.environment.as_str())
}

/// The policies that the launch role gets.
pub open spec fn launch_policies() -> Seq<Seq<char>> {
    seq![
        "arn:aws:iam::aws:policy/AWSCloudFormationFullAccess"@,
        "arn:aws:iam::aws:policy/AmazonS3FullAccess"@,
        "arn:aws:iam::aws:policy/AmazonEC2FullAccess"@,
        "arn:aws:iam::aws:policy/IAMFullAccess"@,
    ]
}

/// The steps that make sure that the launch role exists and holds its
/// policies.
pub open spec fn launch_role_plan(found: bool, role_name: Name, dry_run: bool) -> Seq<StepModel> {
    (if found {
        Seq::<StepModel>::empty()
    } else if dry_run {
        seq![say("[DRY RUN] create iam role "@ + role_name)]
    } else {
        seq![make(Call::CreateRole, role_name, Policy::Fatal)]
    }) + (if dry_run {
        seq![say("[DRY RUN] attach policies to "@ + role_name)]
    } else {
        Seq::new(4, |i: int| make(Call::AttachPolicy, launch_policies()[i], Policy::BestEffort))
    })
}

/// The steps that make sure that the launch role exists and holds its
/// policies. A role that is missing is created; the policies are attached
/// in every run, and a failure there is passed over.
pub fn launch_role_steps(found: bool, role_name: &str, dry_run: bool) -> (r: Vec<Step>)
    ensures
        steps_of(r@) == launch_role_plan(found, role_name@, dry_run),
        dry_run ==> only_says(steps_of(r@)),
        found ==> creates_nothing(steps_of(r@)),
{
    let mut r: Vec<Step> = Vec::new();
    assert(steps_of(r@) =~= Seq::<StepModel>::empty());
    if !found {
        if dry_run {
            push_say(&mut r, String::from_str("[DRY RUN] create iam role ").concat(role_name));
        } else {
            push_call(&mut r, Call::CreateRole, String::from_str(role_name), Policy::Fatal);
        }
    }
    if dry_run {
        push_say(&mut r, String::from_str("[DRY RUN] attach policies to ").concat(role_name));
    } else {
        push_call(
            &mut r,
            Call::AttachPolicy,
            String::from_str("arn:aws:iam::aws:policy/AWSCloudFormationFullAccess"),
            Policy::BestEffort,
        );
        push_call(
            &mut r,
            Call::AttachPolicy,
            String::from_str("arn:aws:iam::aws:policy/AmazonS3FullAccess"),
            Policy::BestEffort,
        );
        push_call(
            &mut r,
            Call::AttachPolicy,
            String::from_str("arn:aws:iam::aws:policy/AmazonEC2FullAccess"),
            Policy::BestEffort,
        );
        push_call(
            &mut r,
            Call::AttachPolicy,
            String::from_str("arn:aws:iam::aws:policy/IAMFullAccess"),
            Policy::BestEffort,
        );
    }
    assert(steps_of(r@) =~= launch_role_plan(found, role_name@, dry_run));
    r
}

/// What is recorded of the launch role: its name and its ARN, empty where
/// the answer gave none.
pub fn launch_role_ref(role_name: &str, arn: &Option<String>) -> (r: ResourceRef)
    ensures
        r@ == (ResourceRefModel {
            id: None,
            arn: Some(or_empty(opt_name(*arn))),
            name: Some(role_name@),
            uri: None,
        }),
{
    ResourceRef {
        id: None,
        arn: Some(text_or_empty(arn)),
        name: Some(String::from_str(role_name)),
        uri: None,
    }
}

/// The ARN that the launch role of the environment would get.
pub fn launch_role_dry_run_arn(env: &AwsEnv, role_name: &str) -> (r: String)
    ensures
        r@ == "arn:aws:iam::"@ + env.account_id@ + ":role/"@ + role_name@,
{
    String::from_str("arn:aws:iam::").concat(env.account_id.as_str()).concat(":role/").concat(
        role_name,
    )
}

/// The name under which product `key` is registered for the environment.
pub fn product_name(key: &str, env: &AwsEnv) -> (r: String)
    ensures
        r@ == key@ + "-"@ + env.environment@,
{
    String::from_str(key).concat("-").concat(env.environment.as_str())
}

/// The key under which the placeholder template of a product is stored.
pub open spec fn placeholder_key_text(product_name: Name) -> Seq<char> {
    "_placeholders/"@ + product_name + "/placeholder.yaml"@
}

/// The key under which the placeholder template of a product is stored.
pub fn placeholder_key(product_name: &str) -> (r: String)
    ensures
        r@ == placeholder_key_text(product_name@),
{
    String::from_str("_placeholders/").concat(product_name).concat("/placeholder.yaml")
}

/// The address of the placeholder template of a product.
pub fn placeholder_url(bucket_name: &str, env: &AwsEnv, product_name: &str) -> (r: String)
    ensures
        r@ == object_url(bucket_name@, env.aws_region@, placeholder_key_text(product_name@)),
{
    let key = placeholder_key(product_name);
    object_address(bucket_name, env.aws_region.as_str(), key.as_str())
}

/// The template that a product is registered with before its first
/// publication.
pub fn placeholder_template() -> (r: String)
    ensures
        r@
            == "AWSTemplateFormatVersion: '2010-09-09'\nDescription: Placeholder template - will be replaced on first publish\n\nResources:\n  PlaceholderWaitHandle:\n    Type: AWS::CloudFormation::WaitConditionHandle\n\nOutputs:\n  Status:\n    Description: Placeholder status\n    Value: \"Pending first publish\"\n"@,
{
    String::from_str(
        "AWSTemplateFormatVersion: '2010-09-09'\nDescription: Placeholder template - will be replaced on first publish\n\nResources:\n  PlaceholderWaitHandle:\n    Type: AWS::CloudFormation::WaitConditionHandle\n\nOutputs:\n  Status:\n    Description: Placeholder status\n    Value: \"Pending first publish\"\n",
    )
}

/// The description of the registration of product `key`.
pub fn product_description(key: &str) -> (r: String)
    ensures
        r@ == "Service Catalog product: "@ + key@,
{
    String::from_str("Service Catalog product: ").concat(key)
}

/// The tags of a new product registration: the ownership tags and the key
/// of the product.
pub fn product_tags(env: &AwsEnv, key: &str) -> (r: Vec<Tag>)
    ensures
        tags_of(r@) == ownership(env.environment@).push(("ProductKey"@, key@)),
{
    let mut r = ownership_tags(env.environment.as_str());
    let ghost before = tags_of(r@);
    r.push(Tag { key: String::from_str("ProductKey"), value: String::from_str(key) });
    assert(tags_of(r@) =~= before.push(("ProductKey"@, key@)));
    r
}

/// The steps that make sure that a product is registered.
pub open spec fn product_plan(found: bool, product_name: Name, bucket: Name, dry_run: bool) -> Seq<
    StepModel,
> {
    if found {
        Seq::<StepModel>::empty()
    } else if dry_run {
        seq![
            say(
                "[DRY RUN] upload placeholder template s3://"@ + bucket + "/"@
                    + placeholder_key_text(product_name),
            ),
            say("[DRY RUN] create servicecatalog product "@ + product_name),
        ]
    } else {
        seq![
            make(Call::UploadPlaceholder, placeholder_key_text(product_name), Policy::Fatal),
            make(Call::CreateProduct, product_name, Policy::Fatal),
        ]
    }
}

/// The steps that make sure that a product is registered.
///
/// A product that was found by its name is left as it is, whatever its
/// content: new content comes with a publication. One that is missing is
/// created once, with the placeholder template.
pub fn product_steps(found: bool, product_name: &str, bucket_name: &str, dry_run: bool) -> (r: Vec<
    Step,
>)
    ensures
        steps_of(r@) == product_plan(found, product_name@, bucket_name@, dry_run),
        dry_run ==> only_says(steps_of(r@)),
        found ==> creates_nothing(steps_of(r@)),
{
    let mut r: Vec<Step> = Vec::new();
    assert(steps_of(r@) =~= Seq::<StepModel>::empty());
    if !found {
        let key = placeholder_key(product_name);
        if dry_run {
            push_say(
                &mut r,
                String::from_str("[DRY RUN] upload placeholder template s3://").concat(
                    bucket_name,
                ).concat("/").concat(key.as_str()),
            );
            push_say(
                &mut r,
                String::from_str("[DRY RUN] create servicecatalog product ").concat(product_name),
            );
        } else {
            push_call(&mut r, Call::UploadPlaceholder, key, Policy::Fatal);
            push_call(&mut r, Call::CreateProduct, String::from_str(product_name), Policy::Fatal);
        }
    }
    assert(steps_of(r@) =~= product_plan(found, product_name@, bucket_name@, dry_run));
    r
}

/// What a dry run records of a product that is not registered yet: marked
/// stand-ins for its id and its ARN, so that the steps that follow can go
/// on.
pub fn product_dry_run_ref(product_name: &str) -> (r: ResourceRef)
    ensures
        r@ == (ResourceRefModel {
            id: Some("prod-dryrun"@),
            arn: Some("arn:dryrun"@),
            name: Some(product_name@),
            uri: None,
        }),
{
    ResourceRef {
        id: Some(String::from_str("prod-dryrun")),
        arn: Some(String::from_str("arn:dryrun")),
        name: Some(String::from_str(product_name)),
        uri: None,
    }
}

/// A product to put into a portfolio, with the role that launches it.
#[derive(Clone, Debug, PartialEq, Eq)]
pub struct Association {
    pub product_id: String,
    pub portfolio_id: String,
    pub role_arn: Option<String>,
}

/// The association of a product with the portfolio that its description
/// names.
///
/// A product that names no portfolio has none. The portfolio that is named
/// must be among the recorded ones. There is nothing to associate where
/// the id of the product or of the portfolio is not known.
pub fn association_for(
    product: &str,
    portfolio_key: &str,
    portfolios: &NameMap<ResourceRef>,
    product_ref: &ResourceRef,
    launch_role: &ResourceRef,
) -> (r: Result<Option<Association>, DeployError>)
    ensures
        match r {
            Ok(Some(a)) => {
                &&& portfolio_key@.len() > 0
                &&& portfolios@.contains_key(portfolio_key@)
                &&& product_ref@.id == Some(a.product_id@)
                &&& portfolios@[portfolio_key@].id == Some(a.portfolio_id@)
                &&& opt_name(a.role_arn) == launch_role@.arn
            },
            Ok(None) => portfolio_key@.len() == 0 || (portfolios@.contains_key(portfolio_key@) && (
            product_ref@.id is None || portfolios@[portfolio_key@].id is None)),
            Err(DeployError::UnknownPortfolio { product: p, portfolio: k }) => p@ == product@ && k@
                == portfolio_key@ && portfolio_key@.len() > 0 && !portfolios@.contains_key(
                portfolio_key@,
            ),
            Err(_) => false,
        },
{
    if portfolio_key.unicode_len() == 0 {
        return Ok(None);
    }
    match portfolios.get(portfolio_key) {
        None => Err(
            DeployError::UnknownPortfolio {
                product: String::from_str(product),
                portfolio: String::from_str(portfolio_key),
            },
        ),
        Some(portfolio) => match (&product_ref.id, &portfolio.id) {
            (Some(pid), Some(fid)) => Ok(
                Some(
                    Association {
                        product_id: pid.clone(),
                        portfolio_id: fid.clone(),
                        role_arn: crate::names::clone_opt(&launch_role.arn),
                    },
                ),
            ),
            _ => Ok(None),
        },
    }
}

/// The steps that put a product into its portfolio and bind the launch
/// role to the pair.
pub open spec fn association_plan(
    product_id: Name,
    portfolio_id: Name,
    role_arn: Option<Name>,
    product: Name,
    dry_run: bool,
) -> Seq<StepModel> {
    (if dry_run {
        seq![
            say(
                "[DRY RUN] associate product "@ + product_id + " with portfolio "@ + portfolio_id,
            ),
        ]
    } else {
        seq![make(Call::AssociateProduct, portfolio_id, Policy::BestEffort)]
    }) + (match role_arn {
        None => Seq::<StepModel>::empty(),
        Some(arn) => if dry_run {
            seq![say("[DRY RUN] create launch constraint for "@ + product)]
        } else {
            seq![
                make(
                    Call::CreateConstraint,
                    json_written(single_model("RoleArn"@, arn)),
                    Policy::BestEffort,
                ),
            ]
        },
    })
}

/// The steps that put a product into its portfolio and bind the launch
/// role to the pair. Failures of both calls are passed over: either may
/// have been made in an earlier run.
pub fn association_steps(a: &Association, product: &str, dry_run: bool) -> (r: Vec<Step>)
    ensures
        steps_of(r@) == association_plan(
            a.product_id@,
            a.portfolio_id@,
            opt_name(a.role_arn),
            product@,
            dry_run,
        ),
        dry_run ==> only_says(steps_of(r@)),
{
    let mut r: Vec<Step> = Vec::new();
    assert(steps_of(r@) =~= Seq::<StepModel>::empty());
    if dry_run {
        push_say(
            &mut r,
            String::from_str("[DRY RUN] associate product ").concat(a.product_id.as_str()).concat(
                " with portfolio ",
            ).concat(a.portfolio_id.as_str()),
        );
    } else {
        push_call(&mut r, Call::AssociateProduct, a.portfolio_id.clone(), Policy::BestEffort);
    }
    match &a.role_arn {
        None => {},
        Some(arn) => {
            if dry_run {
                push_say(
                    &mut r,
                    String::from_str("[DRY RUN] create launch constraint for ").concat(product),
                );
            } else {
                push_call(
                    &mut r,
                    Call::CreateConstraint,
                    written(&single("RoleArn", arn.as_str())),
                    Policy::BestEffort,
                );
            }
        },
    }
    assert(steps_of(r@) =~= association_plan(
        a.product_id@,
        a.portfolio_id@,
        opt_name(a.role_arn),
        product@,
        dry_run,
    ));
    r
}

/// The description of the launch constraint of a product.
pub fn constraint_description(product: &str) -> (r: String)
    ensures
        r@ == "Launch constraint for "@ + product@,
{
    String::from_str("Launch constraint for ").concat(product)
}

/// What is recorded of a registry after its steps were taken: what the
/// answer shows of it, found or created, or in a dry run on a missing
/// registry what it would get. `answer` is the first registry of the
/// description where the registry was found, else what the creation
/// returned.
pub fn repository_outcome(
    env: &AwsEnv,
    name: &str,
    found: bool,
    dry_run: bool,
    answer: Option<&ResourceRef>,
) -> (r: Result<ResourceRef, DeployError>)
    ensures
        !found && dry_run ==> r is Ok && r->Ok_0@ == (ResourceRefModel {
            id: None,
            arn: Some(
                "arn:aws:ecr:"@ + env.aws_region@ + ":"@ + env.account_id@ + ":repository/"@
                    + name@,
            ),
            name: Some(name@),
            uri: Some(
                env.account_id@ + ".dkr.ecr."@ + env.aws_region@ + ".amazonaws.com/"@ + name@,
            ),
        }),
        found || !dry_run ==> match r {
            Ok(x) => answer is Some && x@ == (ResourceRefModel {
                id: None,
                arn: Some(or_empty(answer->0@.arn)),
                name: Some(name@),
                uri: Some(or_empty(answer->0@.uri)),
            }),
            Err(DeployError::MissingInResponse { what }) => answer is None && what@ == (if found {
                "repository in describe response"@
            } else {
                "repository in create response"@
            }),
            Err(_) => false,
        },
{
    if found {
        repository_from_answer(name, answer, "repository in describe response")
    } else if dry_run {
        Ok(repository_dry_run_ref(env, name))
    } else {
        repository_from_answer(name, answer, "repository in create response")
    }
}

/// What is recorded of a thing that is found again by its name, after its
/// steps were taken: what was found; else in a dry run the marked
/// stand-ins `dry`; else what the creation returned, which `what` names.
pub fn named_outcome(
    name: &str,
    found: Option<ResourceRef>,
    dry_run: bool,
    dry: ResourceRef,
    created: Option<&ResourceRef>,
    what: &str,
) -> (r: Result<ResourceRef, DeployError>)
    ensures
        match found {
            Some(f) => r is Ok && r->Ok_0@ == f@,
            None => if dry_run {
                r is Ok && r->Ok_0@ == dry@
            } else {
                match r {
                    Ok(x) => created is Some && x@ == (ResourceRefModel {
                        id: Some(or_empty(created->0@.id)),
                        arn: Some(or_empty(created->0@.arn)),
                        name: Some(name@),
                        uri: None,
                    }),
                    Err(DeployError::MissingInResponse { what: w }) => created is None && w@
                        == what@,
                    Err(_) => false,
                }
            },
        },
{
    match found {
        Some(f) => Ok(f),
        None => if dry_run {
            Ok(dry)
        } else {
            created_ref(name, created, what)
        },
    }
}

/// What is recorded of the launch role after its steps were taken: the
/// ARN that the answer gave, found or created, or in a dry run on a
/// missing role the ARN that it would get.
pub fn launch_role_outcome(
    env: &AwsEnv,
    role_name: &str,
    found: bool,
    dry_run: bool,
    answer_arn: &Option<String>,
) -> (r: ResourceRef)
    ensures
        r@ == (ResourceRefModel {
            id: None,
            arn: Some(
                if !found && dry_run {
                    "arn:aws:iam::"@ + env.account_id@ + ":role/"@ + role_name@
                } else {
                    or_empty(opt_name(*answer_arn))
                },
            ),
            name: Some(role_name@),
            uri: None,
        }),
{
    if !found && dry_run {
        launch_role_ref(role_name, &Some(launch_role_dry_run_arn(env, role_name)))
    } else {
        launch_role_ref(role_name, answer_arn)
    }
}

/// Enters what a reconciliation has found and made in the record of the
/// environment: the account and the region of the environment, the
/// references of the bucket, the registries, the portfolios, the launch
/// role and the products, and the time. What the record held before is
/// replaced.
pub fn record_synced(
    env_state: &mut BootstrapEnvState,
    env: &AwsEnv,
    template_bucket: ResourceRef,
    ecr_repositories: NameMap<ResourceRef>,
    portfolios: NameMap<ResourceRef>,
    launch_role: ResourceRef,
    products: NameMap<ResourceRef>,
    now: String,
)
    ensures
        final(env_state)@ == (BootstrapEnvModel {
            account_id: env.account_id@,
            region: env.aws_region@,
            template_bucket: Some(template_bucket@),
            ecr_repositories: ecr_repositories@,
            portfolios: portfolios@,
            products: products@,
            launch_role: Some(launch_role@),
            bootstrapped_at: Some(now@),
        }),
{
    env_state.account_id = env.account_id.clone();
    env_state.region = env.aws_region.clone();
    env_state.template_bucket = Some(template_bucket);
    env_state.ecr_repositories = ecr_repositories;
    env_state.portfolios = portfolios;
    env_state.launch_role = Some(launch_role);
    env_state.products = products;
    env_state.bootstrapped_at = Some(now);
}

} // verus!
