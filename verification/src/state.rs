//! The recorded state of the environments: the bootstrap resources that
//! exist and what is published and live of each product.

use crate::namemap::NameMap;
use crate::names::{clone_opt, opt_name, Name};
use vstd::prelude::*;
use vstd::string::*;

verus! {

/// What is known of one remote resource.
#[derive(Debug, PartialEq, Eq)]
pub struct ResourceRef {
    pub id: Option<String>,
    pub arn: Option<String>,
    pub name: Option<String>,
    pub uri: Option<String>,
}

/// The model of a resource reference.
pub struct ResourceRefModel {
    pub id: Option<Name>,
    pub arn: Option<Name>,
    pub name: Option<Name>,
    pub uri: Option<Name>,
}

impl View for ResourceRef {
    type V = ResourceRefModel;

    open spec fn view(&self) -> ResourceRefModel {
        ResourceRefModel {
            id: opt_name(self.id),
            arn: opt_name(self.arn),
            name: opt_name(self.name),
            uri: opt_name(self.uri),
        }
    }
}

impl Default for ResourceRef {
    /// A reference that knows nothing.
    fn default() -> (r: Self)
        ensures
            r@ == (ResourceRefModel { id: None, arn: None, name: None, uri: None }),
    {
        ResourceRef { id: None, arn: None, name: None, uri: None }
    }
}

impl Clone for ResourceRef {
    fn clone(&self) -> (r: Self)
        ensures
            r@ == self@,
    {
        ResourceRef {
            id: clone_opt(&self.id),
            arn: clone_opt(&self.arn),
            name: clone_opt(&self.name),
            uri: clone_opt(&self.uri),
        }
    }
}

/// The model of an optional resource reference.
pub open spec fn opt_ref(o: Option<ResourceRef>) -> Option<ResourceRefModel> {
    match o {
        Some(r) => Some(r@),
        None => None,
    }
}

/// The bootstrap resources of one environment.
#[derive(Clone, Debug, PartialEq, Eq)]
pub struct BootstrapEnvState {
    pub account_id: String,
    pub region: String,
    pub template_bucket: Option<ResourceRef>,
    pub ecr_repositories: NameMap<ResourceRef>,
    pub portfolios: NameMap<ResourceRef>,
    pub products: NameMap<ResourceRef>,
    pub launch_role: Option<ResourceRef>,
    pub bootstrapped_at: Option<String>,
}

/// The model of the bootstrap resources of one environment.
pub struct BootstrapEnvModel {
    pub account_id: Name,
    pub region: Name,
    pub template_bucket: Option<ResourceRefModel>,
    pub ecr_repositories: Map<Name, ResourceRefModel>,
    pub portfolios: Map<Name, ResourceRefModel>,
    pub products: Map<Name, ResourceRefModel>,
    pub launch_role: Option<ResourceRefModel>,
    pub bootstrapped_at: Option<Name>,
}

impl View for BootstrapEnvState {
    type V = BootstrapEnvModel;

    open spec fn view(&self) -> BootstrapEnvModel {
        BootstrapEnvModel {
            account_id: self.account_id@,
            region: self.region@,
            template_bucket: opt_ref(self.template_bucket),
            ecr_repositories: self.ecr_repositories@,
            portfolios: self.portfolios@,
            products: self.products@,
            launch_role: opt_ref(self.launch_role),
            bootstrapped_at: opt_name(self.bootstrapped_at),
        }
    }
}

impl Default for BootstrapEnvState {
    /// An environment of which nothing is recorded.
    fn default() -> (r: Self)
        ensures
            r@ == (BootstrapEnvModel {
                account_id: Seq::empty(),
                region: Seq::empty(),
                template_bucket: None,
                ecr_repositories: Map::empty(),
                portfolios: Map::empty(),
                products: Map::empty(),
                launch_role: None,
                bootstrapped_at: None,
            }),
    {
        BootstrapEnvState {
            account_id: String::new(),
            region: String::new(),
            template_bucket: None,
            ecr_repositories: NameMap::new(),
            portfolios: NameMap::new(),
            products: NameMap::new(),
            launch_role: None,
            bootstrapped_at: None,
        }
    }
}

/// The schema version that a bootstrap record carries.
pub fn bootstrap_schema_v1() -> (r: String)
    ensures
        r@ == "1.0"@,
{
    String::from_str("1.0")
}

/// The bootstrap record: the resources of every environment.
#[derive(Clone, Debug, PartialEq, Eq)]
pub struct BootstrapState {
    pub schema_version: String,
    pub environments: NameMap<BootstrapEnvState>,
}

impl Default for BootstrapState {
    fn default() -> (r: Self)
        ensures
            r.schema_version@ == "1.0"@,
            r.environments@ == Map::<Name, BootstrapEnvModel>::empty(),
    {
        BootstrapState { schema_version: bootstrap_schema_v1(), environments: NameMap::new() }
    }
}

/// What is published and what is live of one product.
#[derive(Clone, Debug, PartialEq, Eq)]
pub struct DeployProductState {
    pub version: Option<String>,
    pub published_at: Option<String>,
    pub published_commit: Option<String>,
    pub published_hash: Option<String>,
    pub deployed_at: Option<String>,
    pub deployed_commit: Option<String>,
    pub provisioned_product_id: Option<String>,
    pub provisioned_product_name: Option<String>,
    pub outputs: NameMap<String>,
}

/// The model of the state of one product.
pub struct DeployProductModel {
    pub version: Option<Name>,
    pub published_at: Option<Name>,
    pub published_commit: Option<Name>,
    pub published_hash: Option<Name>,
    pub deployed_at: Option<Name>,
    pub deployed_commit: Option<Name>,
    pub provisioned_product_id: Option<Name>,
    pub provisioned_product_name: Option<Name>,
    pub outputs: Map<Name, Name>,
}

impl View for DeployProductState {
    type V = DeployProductModel;

    open spec fn view(&self) -> DeployProductModel {
        DeployProductModel {
            version: opt_name(self.version),
            published_at: opt_name(self.published_at),
            published_commit: opt_name(self.published_commit),
            published_hash: opt_name(self.published_hash),
            deployed_at: opt_name(self.deployed_at),
            deployed_commit: opt_name(self.deployed_commit),
            provisioned_product_id: opt_name(self.provisioned_product_id),
            provisioned_product_name: opt_name(self.provisioned_product_name),
            outputs: self.outputs@,
        }
    }
}

/// The state of a product of which nothing is recorded.
pub open spec fn unrecorded() -> DeployProductModel {
    DeployProductModel {
        version: None,
        published_at: None,
        published_commit: None,
        published_hash: None,
        deployed_at: None,
        deployed_commit: None,
        provisioned_product_id: None,
        provisioned_product_name: None,
        outputs: Map::empty(),
    }
}

impl Default for DeployProductState {
    /// The state of a product of which nothing is recorded.
    fn default() -> (r: Self)
        ensures
            r@ == unrecorded(),
    {
        DeployProductState {
            version: None,
            published_at: None,
            published_commit: None,
            published_hash: None,
            deployed_at: None,
            deployed_commit: None,
            provisioned_product_id: None,
            provisioned_product_name: None,
            outputs: NameMap::new(),
        }
    }
}

/// The state of the products of one environment, by product name.
#[derive(Clone, Debug, PartialEq, Eq)]
pub struct DeployEnvState {
    pub products: NameMap<DeployProductState>,
}

impl View for DeployEnvState {
    type V = Map<Name, DeployProductModel>;

    open spec fn view(&self) -> Map<Name, DeployProductModel> {
        self.products@
    }
}

impl Default for DeployEnvState {
    fn default() -> (r: Self)
        ensures
            r@ == Map::<Name, DeployProductModel>::empty(),
    {
        DeployEnvState { products: NameMap::new() }
    }
}

/// The schema version that a deploy record carries.
pub fn deploy_schema_v2() -> (r: String)
    ensures
        r@ == "2.0"@,
{
    String::from_str("2.0")
}

/// The deploy record: the product states of every environment.
#[derive(Clone, Debug, PartialEq, Eq)]
pub struct DeployState {
    pub schema_version: String,
    pub environments: NameMap<DeployEnvState>,
}

impl Default for DeployState {
    fn default() -> (r: Self)
        ensures
            r.schema_version@ == "2.0"@,
            r.environments@ == Map::<Name, Map<Name, DeployProductModel>>::empty(),
    {
        DeployState { schema_version: deploy_schema_v2(), environments: NameMap::new() }
    }
}

} // verus!
