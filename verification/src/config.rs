//! The desired state: environment profiles, bootstrap resources and the
//! product catalog.

use crate::namemap::NameMap;
use crate::names::{names_of, opt_name, Name};
use vstd::prelude::*;
use vstd::string::*;

verus! {

/// The cloud connection of one environment.
#[derive(Clone, Debug, PartialEq, Eq)]
pub struct Profile {
    pub aws_profile: String,
    pub aws_region: String,
    pub account_id: String,
}

/// The model of a profile: its three texts.
pub struct ProfileModel {
    pub aws_profile: Name,
    pub aws_region: Name,
    pub account_id: Name,
}

impl View for Profile {
    type V = ProfileModel;

    open spec fn view(&self) -> ProfileModel {
        ProfileModel {
            aws_profile: self.aws_profile@,
            aws_region: self.aws_region@,
            account_id: self.account_id@,
        }
    }
}

/// The profiles of all environments, by environment name.
#[derive(Clone, Debug, PartialEq, Eq)]
pub struct ProfilesFile {
    pub profiles: NameMap<Profile>,
}

impl Default for ProfilesFile {
    fn default() -> (r: Self)
        ensures
            r.profiles@ == Map::<Name, ProfileModel>::empty(),
    {
        ProfilesFile { profiles: NameMap::new() }
    }
}

/// Where the record of the bootstrap resources is kept.
#[derive(Clone, Debug, PartialEq, Eq)]
pub struct BootstrapSettings {
    pub state_file: String,
}

/// The name of the bootstrap state file unless the settings give another.
pub fn default_bootstrap_state_file() -> (r: String)
    ensures
        r@ == ".bootstrap-state.json"@,
{
    String::from_str(".bootstrap-state.json")
}

impl Default for BootstrapSettings {
    fn default() -> (r: Self)
        ensures
            r.state_file@ == ".bootstrap-state.json"@,
    {
        BootstrapSettings { state_file: default_bootstrap_state_file() }
    }
}

/// The bucket that holds the published templates.
#[derive(Clone, Debug, PartialEq, Eq)]
pub struct TemplateBucket {
    pub name_prefix: String,
    pub versioning: bool,
    pub encryption: String,
}

/// The prefix of the template bucket's name unless the file gives another.
pub fn default_template_bucket_prefix() -> (r: String)
    ensures
        r@ == "sc-templates"@,
{
    String::from_str("sc-templates")
}

/// The value of a switch that the file leaves out.
pub fn default_true() -> (r: bool)
    ensures
        r,
{
    true
}

/// The encryption of the template bucket unless the file gives another.
pub fn default_sse() -> (r: String)
    ensures
        r@ == "AES256"@,
{
    String::from_str("AES256")
}

impl Default for TemplateBucket {
    /// A bucket description with nothing set.
    fn default() -> (r: Self)
        ensures
            r.name_prefix@ == Seq::<char>::empty(),
            !r.versioning,
            r.encryption@ == Seq::<char>::empty(),
    {
        TemplateBucket { name_prefix: String::new(), versioning: false, encryption: String::new() }
    }
}

/// A container registry to keep.
#[derive(Clone, Debug, PartialEq, Eq)]
pub struct EcrRepository {
    pub name: String,
    pub scan_on_push: bool,
    pub image_tag_mutability: String,
}

/// The tag mutability of a registry unless the file gives another.
pub fn default_ecr_tag_mutability() -> (r: String)
    ensures
        r@ == "IMMUTABLE"@,
{
    String::from_str("IMMUTABLE")
}

/// A portfolio to keep.
#[derive(Clone, Debug, PartialEq, Eq)]
pub struct PortfolioSpec {
    pub display_name: String,
    pub description: String,
    pub provider_name: String,
    pub principals: Vec<String>,
    pub tags: NameMap<String>,
}

/// The model of a portfolio description.
pub struct PortfolioModel {
    pub display_name: Name,
    pub description: Name,
    pub provider_name: Name,
    pub principals: Seq<Name>,
    pub tags: Map<Name, Name>,
}

impl View for PortfolioSpec {
    type V = PortfolioModel;

    open spec fn view(&self) -> PortfolioModel {
        PortfolioModel {
            display_name: self.display_name@,
            description: self.description@,
            provider_name: self.provider_name@,
            principals: names_of(self.principals@),
            tags: self.tags@,
        }
    }
}

/// The provider of a portfolio unless the file gives another.
pub fn default_provider_name() -> (r: String)
    ensures
        r@ == "Platform Team"@,
{
    String::from_str("Platform Team")
}

impl Default for PortfolioSpec {
    /// A portfolio description with nothing set.
    fn default() -> (r: Self)
        ensures
            r@ == (PortfolioModel {
                display_name: Seq::empty(),
                description: Seq::empty(),
                provider_name: Seq::empty(),
                principals: Seq::empty(),
                tags: Map::empty(),
            }),
    {
        let r = PortfolioSpec {
            display_name: String::new(),
            description: String::new(),
            provider_name: String::new(),
            principals: Vec::new(),
            tags: NameMap::new(),
        };
        assert(r@.principals =~= Seq::<Name>::empty());
        r
    }
}

/// The bootstrap resources to keep in every environment.
#[derive(Clone, Debug, PartialEq, Eq)]
pub struct BootstrapFile {
    pub settings: BootstrapSettings,
    pub template_bucket: TemplateBucket,
    pub ecr_repositories: Vec<EcrRepository>,
    pub portfolios: NameMap<PortfolioSpec>,
}

impl Default for BootstrapFile {
    fn default() -> (r: Self)
        ensures
            r.settings.state_file@ == ".bootstrap-state.json"@,
            r.template_bucket.name_prefix@ == Seq::<char>::empty(),
            !r.template_bucket.versioning,
            r.template_bucket.encryption@ == Seq::<char>::empty(),
            r.ecr_repositories@.len() == 0,
            r.portfolios@ == Map::<Name, PortfolioModel>::empty(),
    {
        BootstrapFile {
            settings: BootstrapSettings::default(),
            template_bucket: TemplateBucket::default(),
            ecr_repositories: Vec::new(),
            portfolios: NameMap::new(),
        }
    }
}

/// Where the deploy record is kept and how versions are labelled.
#[derive(Clone, Debug, PartialEq, Eq)]
pub struct CatalogSettings {
    pub state_file: String,
    pub version_format: String,
}

/// The name of the deploy state file unless the settings give another.
pub fn default_deploy_state_file() -> (r: String)
    ensures
        r@ == ".deploy-state.json"@,
{
    String::from_str(".deploy-state.json")
}

/// The pattern of a version label unless the settings give another.
pub fn default_version_format() -> (r: String)
    ensures
        r@ == "%Y.%m.%d.%H%M%S"@,
{
    String::from_str("%Y.%m.%d.%H%M%S")
}

impl Default for CatalogSettings {
    fn default() -> (r: Self)
        ensures
            r.state_file@ == ".deploy-state.json"@,
            r.version_format@ == "%Y.%m.%d.%H%M%S"@,
    {
        CatalogSettings {
            state_file: default_deploy_state_file(),
            version_format: default_version_format(),
        }
    }
}

/// One product of the catalog.
#[derive(Clone, Debug, PartialEq, Eq)]
pub struct ProductSpec {
    /// The directory of the product's sources, under the products directory.
    pub path: String,
    /// The key of the portfolio that offers the product; empty for none.
    pub portfolio: String,
    pub ecr_repository: Option<String>,
    /// The products that must be deployed before this one.
    pub dependencies: Vec<String>,
    /// For each input parameter the output it is fed from, written
    /// `dependency.output`.
    pub parameter_mapping: NameMap<String>,
    /// The outputs that the product declares.
    pub outputs: Vec<String>,
}

/// The model of a product.
pub struct ProductModel {
    pub path: Name,
    pub portfolio: Name,
    pub ecr_repository: Option<Name>,
    pub dependencies: Seq<Name>,
    pub parameter_mapping: Map<Name, Name>,
    /// The mapped parameters in name order.
    pub parameters: Seq<Name>,
    pub outputs: Seq<Name>,
}

impl View for ProductSpec {
    type V = ProductModel;

    open spec fn view(&self) -> ProductModel {
        ProductModel {
            path: self.path@,
            portfolio: self.portfolio@,
            ecr_repository: opt_name(self.ecr_repository),
            dependencies: names_of(self.dependencies@),
            parameter_mapping: self.parameter_mapping@,
            parameters: self.parameter_mapping.names(),
            outputs: names_of(self.outputs@),
        }
    }
}

impl Default for ProductSpec {
    /// A product with nothing set.
    fn default() -> (r: Self)
        ensures
            r@ == (ProductModel {
                path: Seq::empty(),
                portfolio: Seq::empty(),
                ecr_repository: None,
                dependencies: Seq::empty(),
                parameter_mapping: Map::empty(),
                parameters: Seq::empty(),
                outputs: Seq::empty(),
            }),
    {
        let r = ProductSpec {
            path: String::new(),
            portfolio: String::new(),
            ecr_repository: None,
            dependencies: Vec::new(),
            parameter_mapping: NameMap::new(),
            outputs: Vec::new(),
        };
        assert(r@.dependencies =~= Seq::<Name>::empty());
        assert(r@.outputs =~= Seq::<Name>::empty());
        r
    }
}

/// The product catalog: the settings and the products by name.
#[derive(Clone, Debug, PartialEq, Eq)]
pub struct CatalogFile {
    pub settings: CatalogSettings,
    pub products: NameMap<ProductSpec>,
}

impl Default for CatalogFile {
    fn default() -> (r: Self)
        ensures
            r.settings.state_file@ == ".deploy-state.json"@,
            r.settings.version_format@ == "%Y.%m.%d.%H%M%S"@,
            r.products@ == Map::<Name, ProductModel>::empty(),
    {
        CatalogFile { settings: CatalogSettings::default(), products: NameMap::new() }
    }
}

} // verus!
