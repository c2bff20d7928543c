//! The failures of the engine, each with its kind and its message.

use vstd::prelude::*;
use vstd::string::*;

verus! {

/// The kinds of failure, for callers that branch on the kind.
#[derive(Clone, Copy, Debug, PartialEq, Eq, Structural)]
pub enum ErrorKind {
    /// A catalog or profile is missing or does not describe what is asked.
    Configuration,
    /// The catalog's dependencies or parameter references are wrong.
    Graph,
    /// The recorded state lacks what the operation needs.
    State,
    /// A remote call failed or answered without what was asked for.
    Capability,
    /// A polled operation did not finish in time.
    LifecycleTimeout,
    /// A destructive operation was asked for without force or dry run.
    GuardRejection,
}

/// A failure of the engine.
#[derive(Clone, Debug, PartialEq, Eq)]
pub enum DeployError {
    /// The environment has no profile.
    EnvironmentNotConfigured { environment: String },
    /// A product names a portfolio that the bootstrap file lacks.
    UnknownPortfolio { product: String, portfolio: String },
    /// No cloud profile was given and none is stored.
    MissingAwsProfile,
    /// No region was given and none is stored.
    MissingRegion,
    /// The configured account is not the one the credentials belong to.
    AccountMismatch { configured: String, actual: String },
    /// The catalog already holds a product of that name.
    ProductExists { product: String },
    /// A parameter mapping argument is not of the form `Param=dep.output`.
    InvalidParamMapping { mapping: String },
    /// No project was named and none was found from the working directory.
    ProjectRootNotFound { from: String },
    /// The project directory exists already.
    DirectoryExists { path: String },
    /// The project name is empty or blank.
    EmptyProjectName,
    /// The project name is more than one path component.
    NotSingleDirectoryName,
    /// The project name is not an ordinary directory name.
    NotNormalDirectoryName,
    /// The dependencies of the catalog form a cycle through `product`.
    CycleDetected { product: String },
    /// The dependencies among the requested products form a cycle.
    CircularDependency,
    /// A requested product is not in the catalog.
    UnknownProduct { product: String },
    /// A parameter reference is not of the form `dependency.output`.
    InvalidMapping { product: String, parameter: String, reference: String },
    /// A parameter reference names a product that is not a dependency.
    MappingDependencyNotListed { product: String, parameter: String, dependency: String },
    /// A parameter reference names a product that the catalog lacks.
    MappingUnknownDependency { product: String, parameter: String, dependency: String },
    /// A parameter reference names an output that the dependency does not
    /// declare.
    MappingUndeclaredOutput {
        product: String,
        parameter: String,
        dependency: String,
        output: String,
    },
    /// The environment has no bootstrap record.
    EnvironmentNotBootstrapped { environment: String },
    /// The bootstrap record lacks the name of the template bucket.
    MissingTemplateBucket,
    /// The bootstrap record lacks the remote id of a product.
    MissingProductId { product: String },
    /// The product has no published version.
    NotPublished { product: String, environment: String },
    /// A dependency has no recorded state.
    MissingDependencyState { dependency: String },
    /// A dependency has not recorded the output.
    MissingOutput { dependency: String, output: String },
    /// The remote product has no artifact of the published version.
    ArtifactNotFound { version: String },
    /// The remote product has no launch path.
    NoLaunchPath,
    /// The instance cannot be found after it was provisioned.
    ProvisionedProductNotFound,
    /// A remote call failed.
    Capability { operation: String, detail: String },
    /// A remote answer lacks a part.
    MissingInResponse { what: String },
    /// The polled operation ended in failure.
    RecordFailed { record_id: String, status: String },
    /// The polled operation did not end in time.
    RecordTimedOut { record_id: String },
    /// A destructive operation was asked for without force or dry run.
    GuardRejected { operation: String },
}

impl DeployError {
    /// The kind of the failure.
    pub open spec fn kind_of(&self) -> ErrorKind {
        match self {
            DeployError::EnvironmentNotConfigured { .. } => ErrorKind::Configuration,
            DeployError::UnknownPortfolio { .. } => ErrorKind::Configuration,
            DeployError::MissingAwsProfile => ErrorKind::Configuration,
            DeployError::MissingRegion => ErrorKind::Configuration,
            DeployError::AccountMismatch { .. } => ErrorKind::Configuration,
            DeployError::ProductExists { .. } => ErrorKind::Configuration,
            DeployError::InvalidParamMapping { .. } => ErrorKind::Configuration,
            DeployError::ProjectRootNotFound { .. } => ErrorKind::Configuration,
            DeployError::DirectoryExists { .. } => ErrorKind::Configuration,
            DeployError::EmptyProjectName => ErrorKind::Configuration,
            DeployError::NotSingleDirectoryName => ErrorKind::Configuration,
            DeployError::NotNormalDirectoryName => ErrorKind::Configuration,
            DeployError::CycleDetected { .. } => ErrorKind::Graph,
            DeployError::CircularDependency => ErrorKind::Graph,
            DeployError::UnknownProduct { .. } => ErrorKind::Graph,
            DeployError::InvalidMapping { .. } => ErrorKind::Graph,
            DeployError::MappingDependencyNotListed { .. } => ErrorKind::Graph,
            DeployError::MappingUnknownDependency { .. } => ErrorKind::Graph,
            DeployError::MappingUndeclaredOutput { .. } => ErrorKind::Graph,
            DeployError::EnvironmentNotBootstrapped { .. } => ErrorKind::State,
            DeployError::MissingTemplateBucket => ErrorKind::State,
            DeployError::MissingProductId { .. } => ErrorKind::State,
            DeployError::NotPublished { .. } => ErrorKind::State,
            DeployError::MissingDependencyState { .. } => ErrorKind::State,
            DeployError::MissingOutput { .. } => ErrorKind::State,
            DeployError::ArtifactNotFound { .. } => ErrorKind::State,
            DeployError::NoLaunchPath => ErrorKind::State,
            DeployError::ProvisionedProductNotFound => ErrorKind::State,
            DeployError::Capability { .. } => ErrorKind::Capability,
            DeployError::MissingInResponse { .. } => ErrorKind::Capability,
            DeployError::RecordFailed { .. } => ErrorKind::Capability,
            DeployError::RecordTimedOut { .. } => ErrorKind::LifecycleTimeout,
            DeployError::GuardRejected { .. } => ErrorKind::GuardRejection,
        }
    }

    /// The kind of the failure.
    pub fn kind(&self) -> (r: ErrorKind)
        ensures
            r == self.kind_of(),
    {
        match self {
            DeployError::EnvironmentNotConfigured { .. } => ErrorKind::Configuration,
            DeployError::UnknownPortfolio { .. } => ErrorKind::Configuration,
            DeployError::MissingAwsProfile => ErrorKind::Configuration,
            DeployError::MissingRegion => ErrorKind::Configuration,
            DeployError::AccountMismatch { .. } => ErrorKind::Configuration,
            DeployError::ProductExists { .. } => ErrorKind::Configuration,
            DeployError::InvalidParamMapping { .. } => ErrorKind::Configuration,
            DeployError::ProjectRootNotFound { .. } => ErrorKind::Configuration,
            DeployError::DirectoryExists { .. } => ErrorKind::Configuration,
            DeployError::EmptyProjectName => ErrorKind::Configuration,
            DeployError::NotSingleDirectoryName => ErrorKind::Configuration,
            DeployError::NotNormalDirectoryName => ErrorKind::Configuration,
            DeployError::CycleDetected { .. } => ErrorKind::Graph,
            DeployError::CircularDependency => ErrorKind::Graph,
            DeployError::UnknownProduct { .. } => ErrorKind::Graph,
            DeployError::InvalidMapping { .. } => ErrorKind::Graph,
            DeployError::MappingDependencyNotListed { .. } => ErrorKind::Graph,
            DeployError::MappingUnknownDependency { .. } => ErrorKind::Graph,
            DeployError::MappingUndeclaredOutput { .. } => ErrorKind::Graph,
            DeployError::EnvironmentNotBootstrapped { .. } => ErrorKind::State,
            DeployError::MissingTemplateBucket => ErrorKind::State,
            DeployError::MissingProductId { .. } => ErrorKind::State,
            DeployError::NotPublished { .. } => ErrorKind::State,
            DeployError::MissingDependencyState { .. } => ErrorKind::State,
            DeployError::MissingOutput { .. } => ErrorKind::State,
            DeployError::ArtifactNotFound { .. } => ErrorKind::State,
            DeployError::NoLaunchPath => ErrorKind::State,
            DeployError::ProvisionedProductNotFound => ErrorKind::State,
            DeployError::Capability { .. } => ErrorKind::Capability,
            DeployError::MissingInResponse { .. } => ErrorKind::Capability,
            DeployError::RecordFailed { .. } => ErrorKind::Capability,
            DeployError::RecordTimedOut { .. } => ErrorKind::LifecycleTimeout,
            DeployError::GuardRejected { .. } => ErrorKind::GuardRejection,
        }
    }

    /// The message of the failure.
    pub open spec fn text(&self) -> Seq<char> {
        match self {
            DeployError::EnvironmentNotConfigured { environment } => "environment '"@
                + environment@ + "' not configured (run `scd connect -e "@ + environment@ + "`)"@,
            DeployError::UnknownPortfolio { product, portfolio } => "product '"@ + product@
                + "' references unknown portfolio '"@ + portfolio@ + "' (in bootstrap.yaml)"@,
            DeployError::MissingAwsProfile =>
                "missing --aws-profile and no existing profile configured for this environment"@,
            DeployError::MissingRegion =>
                "missing --region and no existing region configured for this environment"@,
            DeployError::AccountMismatch { configured, actual } => "account mismatch: configured "@
                + configured@ + " but STS returned "@ + actual@,
            DeployError::ProductExists { product } => "product '"@ + product@
                + "' already exists in .deployer/catalog.yaml"@,
            DeployError::InvalidParamMapping { mapping } => "invalid --param-mapping '"@ + mapping@
                + "' (expected Param=dep.output)"@,
            DeployError::ProjectRootNotFound { from } => "could not find project root from "@
                + from@,
            DeployError::DirectoryExists { path } => "directory already exists: "@ + path@,
            DeployError::EmptyProjectName => "--name cannot be empty"@,
            DeployError::NotSingleDirectoryName =>
                "--name must be a single directory name (no slashes)"@,
            DeployError::NotNormalDirectoryName => "--name must be a normal directory name"@,
            DeployError::CycleDetected { product } => "cycle detected at '"@ + product@ + "'"@,
            DeployError::CircularDependency => "circular dependency detected"@,
            DeployError::UnknownProduct { product } => "unknown product '"@ + product@ + "'"@,
            DeployError::InvalidMapping { product, parameter, reference } => product@
                + ": invalid mapping for "@ + parameter@ + ": '"@ + reference@
                + "' (expected dep.output)"@,
            DeployError::MappingDependencyNotListed { product, parameter, dependency } => product@
                + ": mapping for "@ + parameter@ + " uses '"@ + dependency@
                + "' but it's not listed in dependencies"@,
            DeployError::MappingUnknownDependency { product, parameter, dependency } => product@
                + ": mapping for "@ + parameter@ + " references unknown dependency '"@
                + dependency@ + "'"@,
            DeployError::MappingUndeclaredOutput { product, parameter, dependency, output } =>
                product@ + ": mapping for "@ + parameter@ + " references output '"@ + output@
                    + "' not declared by '"@ + dependency@ + "'"@,
            DeployError::EnvironmentNotBootstrapped { environment } => "environment '"@
                + environment@ + "' not bootstrapped/synced (run `scd sync -e "@ + environment@
                + "`)"@,
            DeployError::MissingTemplateBucket =>
                "bootstrap state missing template bucket (run `scd sync`)"@,
            DeployError::MissingProductId { product } => "missing product id for '"@ + product@
                + "' in bootstrap state (run `scd sync`)"@,
            DeployError::NotPublished { product, environment } => "product '"@ + product@
                + "' not published yet (run `scd deploy publish -e "@ + environment@ + "`)"@,
            DeployError::MissingDependencyState { dependency } =>
                "missing deployed state for dependency '"@ + dependency@ + "'"@,
            DeployError::MissingOutput { dependency, output } => "missing output '"@ + output@
                + "' on dependency '"@ + dependency@ + "'"@,
            DeployError::ArtifactNotFound { version } =>
                "provisioning artifact not found for version "@ + version@,
            DeployError::NoLaunchPath =>
                "no launch paths found (check portfolio association/access)"@,
            DeployError::ProvisionedProductNotFound =>
                "could not find provisioned product after provisioning"@,
            DeployError::Capability { operation, detail } => operation@ + ": "@ + detail@,
            DeployError::MissingInResponse { what } => "missing "@ + what@,
            DeployError::RecordFailed { record_id, status } => "record "@ + record_id@
                + " failed: "@ + status@,
            DeployError::RecordTimedOut { record_id } => "record "@ + record_id@ + " timed out"@,
            DeployError::GuardRejected { operation } => operation@
                + " is destructive; pass --force to proceed"@,
        }
    }

    /// The message of the failure, with what a caller needs to mend it.
    pub fn message(&self) -> (r: String)
        ensures
            r@ == self.text(),
    {
        match self {
            DeployError::EnvironmentNotConfigured { environment } => String::from_str(
                "environment '",
            ).concat(environment.as_str()).concat("' not configured (run `scd connect -e ").concat(
                environment.as_str(),
            ).concat("`)"),
            DeployError::UnknownPortfolio { product, portfolio } => String::from_str(
                "product '",
            ).concat(product.as_str()).concat("' references unknown portfolio '").concat(
                portfolio.as_str(),
            ).concat("' (in bootstrap.yaml)"),
            DeployError::MissingAwsProfile => String::from_str(
                "missing --aws-profile and no existing profile configured for this environment",
            ),
            DeployError::MissingRegion => String::from_str(
                "missing --region and no existing region configured for this environment",
            ),
            DeployError::AccountMismatch { configured, actual } => String::from_str(
                "account mismatch: configured ",
            ).concat(configured.as_str()).concat(" but STS returned ").concat(actual.as_str()),
            DeployError::ProductExists { product } => String::from_str("product '").concat(
                product.as_str(),
            ).concat("' already exists in .deployer/catalog.yaml"),
            DeployError::InvalidParamMapping { mapping } => String::from_str(
                "invalid --param-mapping '",
            ).concat(mapping.as_str()).concat("' (expected Param=dep.output)"),
            DeployError::ProjectRootNotFound { from } => String::from_str(
                "could not find project root from ",
            ).concat(from.as_str()),
            DeployError::DirectoryExists { path } => String::from_str(
                "directory already exists: ",
            ).concat(path.as_str()),
            DeployError::EmptyProjectName => String::from_str("--name cannot be empty"),
            DeployError::NotSingleDirectoryName => String::from_str(
                "--name must be a single directory name (no slashes)",
            ),
            DeployError::NotNormalDirectoryName => String::from_str(
                "--name must be a normal directory name",
            ),
            DeployError::CycleDetected { product } => String::from_str(
                "cycle detected at '",
            ).concat(product.as_str()).concat("'"),
            DeployError::CircularDependency => String::from_str("circular dependency detected"),
            DeployError::UnknownProduct { product } => String::from_str("unknown product '").concat(
                product.as_str(),
            ).concat("'"),
            DeployError::InvalidMapping { product, parameter, reference } => String::from_str(
                product.as_str(),
            ).concat(": invalid mapping for ").concat(parameter.as_str()).concat(": '").concat(
                reference.as_str(),
            ).concat("' (expected dep.output)"),
            DeployError::MappingDependencyNotListed { product, parameter, dependency } =>
                String::from_str(product.as_str()).concat(": mapping for ").concat(
                    parameter.as_str(),
                ).concat(" uses '").concat(dependency.as_str()).concat(
                    "' but it's not listed in dependencies",
                ),
            DeployError::MappingUnknownDependency { product, parameter, dependency } =>
                String::from_str(product.as_str()).concat(": mapping for ").concat(
                    parameter.as_str(),
                ).concat(" references unknown dependency '").concat(dependency.as_str()).concat(
                    "'",
                ),
            DeployError::MappingUndeclaredOutput { product, parameter, dependency, output } =>
                String::from_str(product.as_str()).concat(": mapping for ").concat(
                    parameter.as_str(),
                ).concat(" references output '").concat(output.as_str()).concat(
                    "' not declared by '",
                ).concat(dependency.as_str()).concat("'"),
            DeployError::EnvironmentNotBootstrapped { environment } => String::from_str(
                "environment '",
            ).concat(environment.as_str()).concat(
                "' not bootstrapped/synced (run `scd sync -e ",
            ).concat(environment.as_str()).concat("`)"),
            DeployError::MissingTemplateBucket => String::from_str(
                "bootstrap state missing template bucket (run `scd sync`)",
            ),
            DeployError::MissingProductId { product } => String::from_str(
                "missing product id for '",
            ).concat(product.as_str()).concat("' in bootstrap state (run `scd sync`)"),
            DeployError::NotPublished { product, environment } => String::from_str(
                "product '",
            ).concat(product.as_str()).concat(
                "' not published yet (run `scd deploy publish -e ",
            ).concat(environment.as_str()).concat("`)"),
            DeployError::MissingDependencyState { dependency } => String::from_str(
                "missing deployed state for dependency '",
            ).concat(dependency.as_str()).concat("'"),
            DeployError::MissingOutput { dependency, output } => String::from_str(
                "missing output '",
            ).concat(output.as_str()).concat("' on dependency '").concat(
                dependency.as_str(),
            ).concat("'"),
            DeployError::ArtifactNotFound { version } => String::from_str(
                "provisioning artifact not found for version ",
            ).concat(version.as_str()),
            DeployError::NoLaunchPath => String::from_str(
                "no launch paths found (check portfolio association/access)",
            ),
            DeployError::ProvisionedProductNotFound => String::from_str(
                "could not find provisioned product after provisioning",
            ),
            DeployError::Capability { operation, detail } => String::from_str(
                operation.as_str(),
            ).concat(": ").concat(detail.as_str()),
            DeployError::MissingInResponse { what } => String::from_str("missing ").concat(
                what.as_str(),
            ),
            DeployError::RecordFailed { record_id, status } => String::from_str("record ").concat(
                record_id.as_str(),
            ).concat(" failed: ").concat(status.as_str()),
            DeployError::RecordTimedOut { record_id } => String::from_str("record ").concat(
                record_id.as_str(),
            ).concat(" timed out"),
            DeployError::GuardRejected { operation } => String::from_str(
                operation.as_str(),
            ).concat(" is destructive; pass --force to proceed"),
        }
    }
}

} // verus!
