//! The management of the profiles and of the product catalog.

use crate::config::{CatalogFile, Profile, ProfileModel, ProductModel, ProductSpec, ProfilesFile};
use crate::error::DeployError;
use crate::namemap::NameMap;
use crate::names::{contains_name, names_of, split_once, split_once_at, Name};
use crate::text::{join_with, joined_with, pad_right, padded, replace_all, replaced};
use vstd::prelude::*;
use vstd::string::*;

verus! {

/// The failure of the `serde_yaml` crate.
#[verifier::external_type_specification]
#[verifier::external_body]
pub struct ExYamlError(serde_yaml::Error);

/// The models of a list of pairs of texts.
pub open spec fn pairs_of(v: Seq<(String, String)>) -> Seq<(Seq<char>, Seq<char>)> {
    Seq::new(v.len(), |i: int| (v[i].0@, v[i].1@))
}

/// What `serde_yaml` writes for the mapping that holds the given pairs of
/// key and text, entered in their order; `None` where it does not write
/// the mapping.
pub uninterp spec fn yaml_document(pairs: Seq<(Seq<char>, Seq<char>)>) -> Option<Seq<char>>;

/// The YAML text of the mapping that holds the given pairs, each entered
/// with `serde_yaml::Mapping::insert` as a key and a text, and written by
/// `serde_yaml::to_string`. The text, and whether there is one, are named,
/// not stated.
#[verifier::external_body]
fn yaml_mapping(pairs: &Vec<(String, String)>) -> (r: Result<String, serde_yaml::Error>)
    ensures
        match r {
            Ok(t) => yaml_document(pairs_of(pairs@)) == Some(t@),
            Err(_) => yaml_document(pairs_of(pairs@)) is None,
        },
{
    let mut map = serde_yaml::Mapping::new();
    for (k, v) in pairs {
        map.insert(k.clone().into(), v.clone().into());
    }
    serde_yaml::to_string(&serde_yaml::Value::Mapping(map))
}

/// The message of a failure of `serde_yaml`, by its `to_string`. Nothing
/// is claimed of the text.
#[verifier::external_body]
fn yaml_error_text(e: &serde_yaml::Error) -> (r: String) {
    e.to_string()
}

/// Stores the profile of an environment; a profile that the environment
/// had is replaced.
pub fn set_profile(
    profiles: &mut ProfilesFile,
    environment: String,
    aws_profile: String,
    region: String,
    account_id: String,
)
    ensures
        final(profiles).profiles@ == old(profiles).profiles@.insert(
            environment@,
            ProfileModel { aws_profile: aws_profile@, aws_region: region@, account_id: account_id@ },
        ),
{
    profiles.profiles.insert(
        environment,
        Profile { aws_profile, aws_region: region, account_id },
    );
}

/// One line of a table of four columns, the first three filled with
/// spaces up to the given widths.
pub open spec fn row4(
    a: Seq<char>,
    wa: nat,
    b: Seq<char>,
    wb: nat,
    c: Seq<char>,
    wc: nat,
    d: Seq<char>,
) -> Seq<char> {
    padded(a, wa) + " "@ + padded(b, wb) + " "@ + padded(c, wc) + " "@ + d
}

/// One line of a table of four columns.
fn table_row(a: &str, wa: usize, b: &str, wb: usize, c: &str, wc: usize, d: &str) -> (r: String)
    ensures
        r@ == row4(a@, wa as nat, b@, wb as nat, c@, wc as nat, d@),
{
    pad_right(a, wa).concat(" ").concat(pad_right(b, wb).as_str()).concat(" ").concat(
        pad_right(c, wc).as_str(),
    ).concat(" ").concat(d)
}

/// The line of the profile of environment `k`.
pub open spec fn profile_row(k: Name, p: ProfileModel) -> Seq<char> {
    row4(k, 12, p.aws_profile, 24, p.aws_region, 12, p.account_id)
}

/// The lines that list the profiles: a heading and one line for each
/// environment, in name order; one line that says so where there is none.
pub fn profiles_list(profiles: &ProfilesFile) -> (r: Vec<String>)
    ensures
        profiles.profiles.names().len() == 0 ==> names_of(r@) == seq!["(no profiles configured)"@],
        profiles.profiles.names().len() > 0 ==> {
            &&& r@.len() == profiles.profiles.names().len() + 1
            &&& r@[0]@ == row4("ENV"@, 12, "AWS_PROFILE"@, 24, "REGION"@, 12, "ACCOUNT_ID"@)
            &&& forall|i: int|
                0 <= i < profiles.profiles.names().len() ==> (#[trigger] r@[i + 1])@ == profile_row(
                    profiles.profiles.names()[i],
                    profiles.profiles@[profiles.profiles.names()[i]],
                )
        },
{
    let mut r: Vec<String> = Vec::new();
    let n = profiles.profiles.len();
    if n == 0 {
        r.push(String::from_str("(no profiles configured)"));
        assert(names_of(r@) =~= seq!["(no profiles configured)"@]);
        return r;
    }
    r.push(table_row("ENV", 12, "AWS_PROFILE", 24, "REGION", 12, "ACCOUNT_ID"));
    let mut i: usize = 0;
    while i < n
        invariant
            n == profiles.profiles.names().len(),
            i <= n,
            r@.len() == i + 1,
            r@[0]@ == row4("ENV"@, 12, "AWS_PROFILE"@, 24, "REGION"@, 12, "ACCOUNT_ID"@),
            forall|j: int|
                0 <= j < i ==> (#[trigger] r@[j + 1])@ == profile_row(
                    profiles.profiles.names()[j],
                    profiles.profiles@[profiles.profiles.names()[j]],
                ),
        decreases n - i,
    {
        let k = profiles.profiles.key_at(i);
        let p = profiles.profiles.value_at(i);
        r.push(
            table_row(
                k.as_str(),
                12,
                p.aws_profile.as_str(),
                24,
                p.aws_region.as_str(),
                12,
                p.account_id.as_str(),
            ),
        );
        i += 1;
    }
    r
}

/// The text of a list of names in a table: the names with commas between
/// them, or a dash for none.
pub open spec fn list_cell(names: Seq<Name>) -> Seq<char> {
    if names.len() == 0 {
        "-"@
    } else {
        joined_with(names, ","@)
    }
}

/// The text of a name in a table: the name, or a dash where it is empty.
pub open spec fn name_cell(name: Name) -> Seq<char> {
    if name.len() == 0 {
        "-"@
    } else {
        name
    }
}

/// The line of product `k`.
pub open spec fn product_row(k: Name, p: ProductModel) -> Seq<char> {
    row4(k, 16, name_cell(p.portfolio), 16, p.path, 20, list_cell(p.dependencies))
}

/// The lines that list the products: a heading and one line for each
/// product, in name order; one line that says so where there is none.
pub fn products_list(catalog: &CatalogFile) -> (r: Vec<String>)
    ensures
        catalog.products.names().len() == 0 ==> names_of(r@) == seq!["(no products configured)"@],
        catalog.products.names().len() > 0 ==> {
            &&& r@.len() == catalog.products.names().len() + 1
            &&& r@[0]@ == row4("NAME"@, 16, "PORTFOLIO"@, 16, "PATH"@, 20, "DEPS"@)
            &&& forall|i: int|
                0 <= i < catalog.products.names().len() ==> (#[trigger] r@[i + 1])@ == product_row(
                    catalog.products.names()[i],
                    catalog.products@[catalog.products.names()[i]],
                )
        },
{
    let mut r: Vec<String> = Vec::new();
    let n = catalog.products.len();
    if n == 0 {
        r.push(String::from_str("(no products configured)"));
        assert(names_of(r@) =~= seq!["(no products configured)"@]);
        return r;
    }
    r.push(table_row("NAME", 16, "PORTFOLIO", 16, "PATH", 20, "DEPS"));
    let mut i: usize = 0;
    while i < n
        invariant
            n == catalog.products.names().len(),
            i <= n,
            r@.len() == i + 1,
            r@[0]@ == row4("NAME"@, 16, "PORTFOLIO"@, 16, "PATH"@, 20, "DEPS"@),
            forall|j: int|
                0 <= j < i ==> (#[trigger] r@[j + 1])@ == product_row(
                    catalog.products.names()[j],
                    catalog.products@[catalog.products.names()[j]],
                ),
        decreases n - i,
    {
        let k = catalog.products.key_at(i);
        let p = catalog.products.value_at(i);
        let deps = if p.dependencies.len() == 0 {
            String::from_str("-")
        } else {
            join_with(&p.dependencies, ",")
        };
        let portfolio = if p.portfolio.as_str().unicode_len() == 0 {
            String::from_str("-")
        } else {
            p.portfolio.clone()
        };
        r.push(
            table_row(k.as_str(), 16, portfolio.as_str(), 16, p.path.as_str(), 20, deps.as_str()),
        );
        i += 1;
    }
    r
}

/// The first of `mappings` that holds no `=`.
pub open spec fn first_bad_mapping(mappings: Seq<Seq<char>>) -> Option<Seq<char>>
    decreases mappings.len(),
{
    if mappings.len() == 0 {
        None
    } else if split_once_at(mappings[0], '=') is None {
        Some(mappings[0])
    } else {
        first_bad_mapping(mappings.drop_first())
    }
}

/// The parameter mapping that the arguments `mappings` give: each is
/// split at its first `=` into the parameter and its reference; of two for
/// one parameter the later holds.
pub open spec fn parsed_mappings(mappings: Seq<Seq<char>>) -> Map<Name, Name>
    decreases mappings.len(),
{
    if mappings.len() == 0 {
        Map::empty()
    } else {
        let rest = parsed_mappings(mappings.drop_last());
        match split_once_at(mappings.last(), '=') {
            Some((k, v)) => rest.insert(k, v),
            None => rest,
        }
    }
}

/// Reads the parameter mappings of the form `Param=dep.output`.
pub fn parse_mappings(mappings: &Vec<String>) -> (r: Result<NameMap<String>, DeployError>)
    ensures
        match r {
            Ok(m) => first_bad_mapping(names_of(mappings@)) is None && m@ == parsed_mappings(
                names_of(mappings@),
            ),
            Err(DeployError::InvalidParamMapping { mapping }) => first_bad_mapping(
                names_of(mappings@),
            ) == Some(mapping@),
            Err(_) => false,
        },
{
    let ghost all = names_of(mappings@);
    let mut m: NameMap<String> = NameMap::new();
    let mut i: usize = 0;
    assert(all.take(0) =~= Seq::<Seq<char>>::empty());
    assert(all.skip(0) =~= all);
    while i < mappings.len()
        invariant
            all == names_of(mappings@),
            i <= mappings@.len(),
            m@ == parsed_mappings(all.take(i as int)),
            first_bad_mapping(all) == first_bad_mapping(all.skip(i as int)),
        decreases mappings@.len() - i,
    {
        proof {
            assert(all.take(i + 1).drop_last() =~= all.take(i as int));
            assert(all.skip(i as int).drop_first() =~= all.skip(i + 1));
            assert(all.skip(i as int)[0] == all[i as int]);
            assert(all.take(i + 1).last() == all[i as int]);
        }
        match split_once(mappings[i].as_str(), '=') {
            None => {
                return Err(DeployError::InvalidParamMapping { mapping: mappings[i].clone() });
            },
            Some((k, v)) => {
                m.insert(k, v);
            },
        }
        i += 1;
    }
    proof {
        assert(all.take(mappings@.len() as int) =~= all);
        assert(all.skip(mappings@.len() as int) =~= Seq::<Seq<char>>::empty());
    }
    Ok(m)
}

/// The part of a template that declares the mapped parameters, in name
/// order.
pub open spec fn parameters_section(names: Seq<Name>, mapping: Map<Name, Name>) -> Seq<char>
    decreases names.len(),
{
    if names.len() == 0 {
        Seq::empty()
    } else {
        parameters_section(names.drop_last(), mapping) + "\n  "@ + names.last()
            + ":\n    Type: String\n    Description: Mapped from "@ + mapping[names.last()] + "\n"@
    }
}

/// The part of a template that declares one output.
pub open spec fn output_entry(o: Name) -> Seq<char> {
    "  "@ + o + ":\n    Description: "@ + o
        + "\n    Value: !Ref PlaceholderResource\n    Export:\n      Name: !Sub \"${Environment}-"@
        + o + "\"\n"@
}

/// The part of a template that declares the outputs.
pub open spec fn outputs_section(outputs: Seq<Name>) -> Seq<char>
    decreases outputs.len(),
{
    if outputs.len() == 0 {
        Seq::empty()
    } else {
        outputs_section(outputs.drop_last()) + output_entry(outputs.last())
    }
}

/// The starter template of a product: a placeholder resource, a parameter
/// for the environment and for each mapped parameter, and the outputs.
pub open spec fn template_text(
    description: Seq<char>,
    parameters: Seq<Name>,
    mapping: Map<Name, Name>,
    outputs: Seq<Name>,
) -> Seq<char> {
    "AWSTemplateFormatVersion: '2010-09-09'\n"@ + "Description: "@ + description + "\n\n"@
        + "Parameters:\n  Environment:\n    Type: String\n    Default: dev\n"@ + parameters_section(
        parameters,
        mapping,
    ) + "\nResources:\n  PlaceholderResource:\n    Type: AWS::CloudFormation::WaitConditionHandle\n"@
        + (if outputs.len() == 0 {
        Seq::<char>::empty()
    } else {
        "\nOutputs:\n"@ + outputs_section(outputs)
    })
}

/// The starter template of a product.
pub fn starter_template(description: &str, mapping: &NameMap<String>, outputs: &Vec<String>) -> (r:
    String)
    ensures
        r@ == template_text(description@, mapping.names(), mapping@, names_of(outputs@)),
{
    let head = String::from_str("AWSTemplateFormatVersion: '2010-09-09'\n").concat(
        "Description: ",
    ).concat(description).concat("\n\n").concat(
        "Parameters:\n  Environment:\n    Type: String\n    Default: dev\n",
    );
    let ghost names = mapping.names();
    let n = mapping.len();
    let mut params = String::new();
    let mut i: usize = 0;
    assert(names.take(0) =~= Seq::<Name>::empty());
    while i < n
        invariant
            names == mapping.names(),
            n == names.len(),
            i <= n,
            params@ == parameters_section(names.take(i as int), mapping@),
        decreases n - i,
    {
        proof {
            assert(names.take(i + 1).drop_last() =~= names.take(i as int));
            assert(names.take(i + 1).last() == names[i as int]);
        }
        params = params.concat("\n  ").concat(mapping.key_at(i).as_str()).concat(
            ":\n    Type: String\n    Description: Mapped from ",
        ).concat(mapping.value_at(i).as_str()).concat("\n");
        i += 1;
    }
    assert(names.take(n as int) =~= names);
    let ghost outs = names_of(outputs@);
    let mut section = String::new();
    let mut j: usize = 0;
    assert(outs.take(0) =~= Seq::<Name>::empty());
    while j < outputs.len()
        invariant
            outs == names_of(outputs@),
            j <= outputs@.len(),
            section@ == outputs_section(outs.take(j as int)),
        decreases outputs@.len() - j,
    {
        proof {
            assert(outs.take(j + 1).drop_last() =~= outs.take(j as int));
            assert(outs.take(j + 1).last() == outs[j as int]);
        }
        let o = outputs[j].as_str();
        let entry = String::from_str("  ").concat(o).concat(":\n    Description: ").concat(
            o,
        ).concat(
            "\n    Value: !Ref PlaceholderResource\n    Export:\n      Name: !Sub \"${Environment}-",
        ).concat(o).concat("\"\n");
        section = section.concat(entry.as_str());
        j += 1;
    }
    assert(outs.take(outputs@.len() as int) =~= outs);
    let body = head.concat(params.as_str()).concat(
        "\nResources:\n  PlaceholderResource:\n    Type: AWS::CloudFormation::WaitConditionHandle\n",
    );
    if outputs.len() == 0 {
        body
    } else {
        body.concat(String::from_str("\nOutputs:\n").concat(section.as_str()).as_str())
    }
}

/// What is to be written for a new product.
#[derive(Clone, Debug, PartialEq, Eq)]
pub struct NewProduct {
    /// The directory of the product, under the products directory.
    pub directory: String,
    /// The text of the file `product.yaml`.
    pub product_yaml: String,
    /// The text of the file `template.yaml`.
    pub template: String,
}

/// The text of an optional argument, or `default` where it is absent.
fn text_or(o: &Option<String>, default: &str) -> (r: String)
    ensures
        r@ == match o {
            Some(s) => s@,
            None => default@,
        },
{
    match o {
        Some(s) => s.clone(),
        None => String::from_str(default),
    }
}

/// The description in the first lines of a starter template: the given
/// one, else one made of the name, on one line.
pub open spec fn template_description(name: Name, description: Option<Seq<char>>) -> Seq<char> {
    replaced(
        match description {
            Some(d) => d,
            None => "Service Catalog template for "@ + name,
        },
        "\n"@,
        " "@,
    )
}

/// The entries of the file `product.yaml` of a new product.
pub open spec fn product_yaml_pairs(
    name: Name,
    description: Option<Seq<char>>,
    portfolio: Option<Seq<char>>,
) -> Seq<(Seq<char>, Seq<char>)> {
    seq![
        ("name"@, name),
        (
            "description"@,
            match description {
                Some(d) => d,
                None => Seq::<char>::empty(),
            },
        ),
        (
            "portfolio"@,
            match portfolio {
                Some(p) => p,
                None => Seq::<char>::empty(),
            },
        ),
    ]
}

/// Adds a product to the catalog and gives the texts of its two starter
/// files.
///
/// The call fails, and leaves the catalog as it is, where the catalog
/// holds a product of that name, where a mapping holds no `=`, and where
/// the text of `product.yaml` cannot be written. The new product has the
/// given directory, or its name for one, and the given portfolio,
/// dependencies, mappings and outputs.
pub fn products_add(
    catalog: &mut CatalogFile,
    name: String,
    path: Option<String>,
    portfolio: Option<String>,
    description: Option<String>,
    dependencies: Vec<String>,
    outputs: Vec<String>,
    mappings: Vec<String>,
) -> (r: Result<NewProduct, DeployError>)
    ensures
        r is Ok <==> !old(catalog).products@.contains_key(name@) && first_bad_mapping(
            names_of(mappings@),
        ) is None && yaml_document(
            product_yaml_pairs(
                name@,
                crate::names::opt_name(description),
                crate::names::opt_name(portfolio),
            ),
        ) is Some,
        r is Err ==> final(catalog).products@ == old(catalog).products@,
        final(catalog).settings == old(catalog).settings,
        match r {
            Ok(n) => {
                &&& !old(catalog).products@.contains_key(name@)
                &&& first_bad_mapping(names_of(mappings@)) is None
                &&& n.directory@ == match path {
                    Some(p) => p@,
                    None => name@,
                }
                &&& Some(n.product_yaml@) == yaml_document(
                    product_yaml_pairs(
                        name@,
                        crate::names::opt_name(description),
                        crate::names::opt_name(portfolio),
                    ),
                )
                &&& n.template@ == template_text(
                    template_description(name@, crate::names::opt_name(description)),
                    final(catalog).products@[name@].parameters,
                    parsed_mappings(names_of(mappings@)),
                    names_of(outputs@),
                )
                &&& final(catalog).products@.dom() == old(catalog).products@.dom().insert(name@)
                &&& forall|k: Name|
                    old(catalog).products@.contains_key(k) ==> #[trigger] final(catalog).products@[k] == old(catalog).products@[k]
                &&& final(catalog).products@[name@].path == n.directory@
                &&& final(catalog).products@[name@].portfolio == match portfolio {
                    Some(p) => p@,
                    None => Seq::<char>::empty(),
                }
                &&& final(catalog).products@[name@].ecr_repository is None
                &&& final(catalog).products@[name@].dependencies == names_of(dependencies@)
                &&& final(catalog).products@[name@].parameter_mapping == parsed_mappings(
                    names_of(mappings@),
                )
                &&& final(catalog).products@[name@].outputs == names_of(outputs@)
            },
            Err(DeployError::ProductExists { product }) => product@ == name@ && old(catalog).products@.contains_key(name@),
            Err(DeployError::InvalidParamMapping { mapping }) => !old(catalog).products@.contains_key(name@) && first_bad_mapping(names_of(mappings@)) == Some(
                mapping@,
            ),
            Err(DeployError::Capability { operation, detail }) => !old(catalog).products@.contains_key(name@) && first_bad_mapping(names_of(mappings@)) is None
                && operation@ == "serialize product.yaml"@,
            Err(_) => false,
        },
{
    if catalog.products.contains_key(name.as_str()) {
        return Err(DeployError::ProductExists { product: name });
    }
    let directory = text_or(&path, name.as_str());
    let mapping = match parse_mappings(&mappings) {
        Ok(m) => m,
        Err(e) => {
            return Err(e);
        },
    };
    let mut pairs: Vec<(String, String)> = Vec::new();
    pairs.push((String::from_str("name"), name.clone()));
    pairs.push((String::from_str("description"), text_or(&description, "")));
    pairs.push((String::from_str("portfolio"), text_or(&portfolio, "")));
    proof {
        reveal_strlit("");
        assert(""@ =~= Seq::<char>::empty());
        assert(pairs_of(pairs@) =~= product_yaml_pairs(
            name@,
            crate::names::opt_name(description),
            crate::names::opt_name(portfolio),
        ));
    }
    let product_yaml = match yaml_mapping(&pairs) {
        Ok(t) => t,
        Err(e) => {
            return Err(
                DeployError::Capability {
                    operation: String::from_str("serialize product.yaml"),
                    detail: yaml_error_text(&e),
                },
            );
        },
    };
    let wanted = match &description {
        Some(d) => d.clone(),
        None => String::from_str("Service Catalog template for ").concat(name.as_str()),
    };
    let line = replace_all(wanted.as_str(), "\n", " ");
    let template = starter_template(line.as_str(), &mapping, &outputs);
    let ghost before = catalog.products@;
    let spec = ProductSpec {
        path: directory.clone(),
        portfolio: text_or(&portfolio, ""),
        ecr_repository: None,
        dependencies,
        parameter_mapping: mapping,
        outputs,
    };
    let ghost model = spec@;
    catalog.products.insert(name, spec);
    proof {
        assert(catalog.products@ == before.insert(name@, model));
        assert(catalog.products@.dom() =~= before.dom().insert(name@));
    }
    Ok(NewProduct { directory, product_yaml, template })
}

/// The products that depend on product `d`, in name order; a product that
/// lists `d` more than once stands as often.
pub open spec fn dependents_of(names: Seq<Name>, g: Map<Name, ProductModel>, d: Name) -> Seq<Name>
    decreases names.len(),
{
    if names.len() == 0 {
        Seq::empty()
    } else {
        dependents_of(names.drop_last(), g, d) + occurrences(
            g[names.last()].dependencies,
            d,
            names.last(),
        )
    }
}

/// As many times `p` as `deps` holds `d`.
pub open spec fn occurrences(deps: Seq<Name>, d: Name, p: Name) -> Seq<Name>
    decreases deps.len(),
{
    if deps.len() == 0 {
        Seq::empty()
    } else if deps.last() == d {
        occurrences(deps.drop_last(), d, p).push(p)
    } else {
        occurrences(deps.drop_last(), d, p)
    }
}

/// The products that depend on product `d`, in name order.
fn dependents(catalog: &CatalogFile, d: &str) -> (r: Vec<String>)
    ensures
        names_of(r@) == dependents_of(catalog.products.names(), catalog.products@, d@),
{
    let ghost names = catalog.products.names();
    let ghost g = catalog.products@;
    let n = catalog.products.len();
    let mut r: Vec<String> = Vec::new();
    let mut i: usize = 0;
    assert(names.take(0) =~= Seq::<Name>::empty());
    assert(names_of(r@) =~= Seq::<Name>::empty());
    while i < n
        invariant
            names == catalog.products.names(),
            g == catalog.products@,
            catalog.products.wf(),
            n == names.len(),
            i <= n,
            names_of(r@) == dependents_of(names.take(i as int), g, d@),
        decreases n - i,
    {
        proof {
            assert(names.take(i + 1).drop_last() =~= names.take(i as int));
            assert(names.take(i + 1).last() == names[i as int]);
            catalog.products.lemma_entry(i as int);
        }
        let name = catalog.products.key_at(i);
        let deps = &catalog.products.value_at(i).dependencies;
        let ghost all = names_of(deps@);
        let ghost before = names_of(r@);
        let mut k: usize = 0;
        assert(all.take(0) =~= Seq::<Name>::empty());
        assert(names_of(r@) =~= before + occurrences(all.take(0), d@, name@));
        while k < deps.len()
            invariant
                all == names_of(deps@),
                k <= deps@.len(),
                names_of(r@) == before + occurrences(all.take(k as int), d@, name@),
            decreases deps@.len() - k,
        {
            proof {
                assert(all.take(k + 1).drop_last() =~= all.take(k as int));
                assert(all.take(k + 1).last() == deps@[k as int]@);
            }
            if crate::names::same_name(deps[k].as_str(), d) {
                let ghost mid = names_of(r@);
                r.push(name.clone());
                proof {
                    assert(names_of(r@) =~= mid.push(name@));
                    assert(names_of(r@) =~= before + occurrences(all.take(k + 1), d@, name@));
                }
            }
            k += 1;
        }
        proof {
            assert(all.take(deps@.len() as int) =~= all);
        }
        i += 1;
    }
    proof {
        assert(names.take(n as int) =~= names);
    }
    r
}

/// The mark before a node of the tree: one for the last of its siblings,
/// another for the others.
pub open spec fn connector(is_last: bool) -> Seq<char> {
    if is_last {
        "└── "@
    } else {
        "├── "@
    }
}

/// What the lines below a node begin with, behind the beginning of the
/// line of the node.
pub open spec fn indent(is_last: bool) -> Seq<char> {
    if is_last {
        "    "@
    } else {
        "│   "@
    }
}

/// The lines of the tree below and with product `node`: the product, then
/// the trees of the products that depend on it. A product that stands on
/// the way from the root to itself is marked as a cycle and not followed.
/// `depth` bounds the length of the way; the number of products is enough.
pub open spec fn tree_lines(
    names: Seq<Name>,
    g: Map<Name, ProductModel>,
    node: Name,
    prefix: Seq<char>,
    is_last: bool,
    visiting: Seq<Name>,
    depth: nat,
) -> Seq<Seq<char>>
    decreases depth, 0nat,
{
    let line = prefix + connector(is_last) + node;
    if visiting.contains(node) {
        seq![line + " (cycle)"@]
    } else if depth == 0 {
        seq![line]
    } else {
        seq![line] + children_lines(
            names,
            g,
            dependents_of(names, g, node),
            0,
            prefix + indent(is_last),
            visiting.push(node),
            (depth - 1) as nat,
        )
    }
}

/// The lines of the trees of the products `children` from place `i` on.
pub open spec fn children_lines(
    names: Seq<Name>,
    g: Map<Name, ProductModel>,
    children: Seq<Name>,
    i: int,
    prefix: Seq<char>,
    visiting: Seq<Name>,
    depth: nat,
) -> Seq<Seq<char>>
    decreases depth, 1 + children.len() - i,
{
    if i < 0 || i >= children.len() {
        Seq::empty()
    } else {
        tree_lines(names, g, children[i], prefix, i + 1 == children.len(), visiting, depth)
            + children_lines(names, g, children, i + 1, prefix, visiting, depth)
    }
}

/// Writes the lines of the tree below and with product `node`.
fn write_tree(
    catalog: &CatalogFile,
    node: &str,
    prefix: &str,
    is_last: bool,
    visiting: &mut Vec<String>,
    depth: usize,
    out: &mut Vec<String>,
)
    ensures
        names_of(final(visiting)@) == names_of(old(visiting)@),
        names_of(final(out)@) == names_of(old(out)@) + tree_lines(
            catalog.products.names(),
            catalog.products@,
            node@,
            prefix@,
            is_last,
            names_of(old(visiting)@),
            depth as nat,
        ),
    decreases depth, 0nat,
{
    let ghost before = names_of(out@);
    let ghost way = names_of(visiting@);
    let mark = if is_last {
        "└── "
    } else {
        "├── "
    };
    let line = String::from_str(prefix).concat(mark).concat(node);
    if contains_name(visiting, node) {
        out.push(line.concat(" (cycle)"));
        proof {
            assert(names_of(out@) =~= before + seq![prefix@ + connector(is_last) + node@
                + " (cycle)"@]);
        }
        return ;
    }
    out.push(line);
    proof {
        assert(names_of(out@) =~= before + seq![prefix@ + connector(is_last) + node@]);
    }
    if depth == 0 {
        return ;
    }
    visiting.push(String::from_str(node));
    proof {
        assert(names_of(visiting@) =~= way.push(node@));
    }
    let children = dependents(catalog, node);
    let below = String::from_str(prefix).concat(
        if is_last {
            "    "
        } else {
            "│   "
        },
    );
    let ghost head = names_of(out@);
    let ghost kids = names_of(children@);
    let mut i: usize = 0;
    while i < children.len()
        invariant
            kids == names_of(children@),
            kids == dependents_of(catalog.products.names(), catalog.products@, node@),
            below@ == prefix@ + indent(is_last),
            depth > 0,
            i <= children@.len(),
            names_of(visiting@) == way.push(node@),
            names_of(out@) + children_lines(
                catalog.products.names(),
                catalog.products@,
                kids,
                i as int,
                below@,
                way.push(node@),
                (depth - 1) as nat,
            ) == head + children_lines(
                catalog.products.names(),
                catalog.products@,
                kids,
                0,
                below@,
                way.push(node@),
                (depth - 1) as nat,
            ),
        decreases children@.len() - i,
    {
        let ghost pre = names_of(out@);
        let ghost rest = children_lines(
            catalog.products.names(),
            catalog.products@,
            kids,
            i + 1,
            below@,
            way.push(node@),
            (depth - 1) as nat,
        );
        write_tree(
            catalog,
            children[i].as_str(),
            below.as_str(),
            i + 1 == children.len(),
            visiting,
            depth - 1,
            out,
        );
        proof {
            let t = tree_lines(
                catalog.products.names(),
                catalog.products@,
                kids[i as int],
                below@,
                i + 1 == kids.len(),
                way.push(node@),
                (depth - 1) as nat,
            );
            assert(names_of(out@) == pre + t);
            assert((pre + t) + rest =~= pre + (t + rest));
        }
        i += 1;
    }
    let ghost full = visiting@;
    visiting.pop();
    proof {
        assert(visiting@ =~= full.drop_last());
        assert(names_of(full.drop_last()) =~= names_of(full).drop_last());
        assert(way.push(node@).drop_last() =~= way);
        assert(names_of(visiting@) =~= way);
        assert(children_lines(
            catalog.products.names(),
            catalog.products@,
            kids,
            kids.len() as int,
            below@,
            way.push(node@),
            (depth - 1) as nat,
        ) =~= Seq::<Seq<char>>::empty());
        let all = children_lines(
            catalog.products.names(),
            catalog.products@,
            kids,
            0,
            below@,
            way.push(node@),
            (depth - 1) as nat,
        );
        assert(names_of(out@) =~= head + all);
        assert(head + all =~= before + (seq![prefix@ + connector(is_last) + node@] + all));
    }
}

/// Those of `names` that have no dependencies, in the order of `names`.
pub open spec fn roots_of(names: Seq<Name>, g: Map<Name, ProductModel>) -> Seq<Name>
    decreases names.len(),
{
    if names.len() == 0 {
        Seq::empty()
    } else if g[names.last()].dependencies.len() == 0 {
        roots_of(names.drop_last(), g).push(names.last())
    } else {
        roots_of(names.drop_last(), g)
    }
}

/// The lines of the trees of the products `roots` from place `i` on.
pub open spec fn forest_lines(
    names: Seq<Name>,
    g: Map<Name, ProductModel>,
    roots: Seq<Name>,
    i: int,
) -> Seq<Seq<char>>
    decreases roots.len() - i,
{
    if i < 0 || i >= roots.len() {
        Seq::empty()
    } else {
        tree_lines(
            names,
            g,
            roots[i],
            Seq::empty(),
            i + 1 == roots.len(),
            Seq::empty(),
            names.len(),
        ) + forest_lines(names, g, roots, i + 1)
    }
}

/// The lines that draw the dependency graph: for each product without
/// dependencies, in name order, the tree of the products that depend on
/// it, directly or through others. One line says so where the catalog is
/// empty.
pub fn products_graph(catalog: &CatalogFile) -> (r: Vec<String>)
    ensures
        names_of(r@) == if catalog.products.names().len() == 0 {
            seq!["(no products configured)"@]
        } else {
            forest_lines(
                catalog.products.names(),
                catalog.products@,
                roots_of(catalog.products.names(), catalog.products@),
                0,
            )
        },
{
    let mut out: Vec<String> = Vec::new();
    let n = catalog.products.len();
    if n == 0 {
        out.push(String::from_str("(no products configured)"));
        assert(names_of(out@) =~= seq!["(no products configured)"@]);
        return out;
    }
    let ghost names = catalog.products.names();
    let ghost g = catalog.products@;
    let mut roots: Vec<String> = Vec::new();
    let mut i: usize = 0;
    assert(names.take(0) =~= Seq::<Name>::empty());
    assert(names_of(roots@) =~= Seq::<Name>::empty());
    while i < n
        invariant
            names == catalog.products.names(),
            g == catalog.products@,
            catalog.products.wf(),
            n == names.len(),
            i <= n,
            names_of(roots@) == roots_of(names.take(i as int), g),
        decreases n - i,
    {
        proof {
            assert(names.take(i + 1).drop_last() =~= names.take(i as int));
            assert(names.take(i + 1).last() == names[i as int]);
            catalog.products.lemma_entry(i as int);
        }
        if catalog.products.value_at(i).dependencies.len() == 0 {
            let ghost mid = names_of(roots@);
            roots.push(catalog.products.key_at(i).clone());
            proof {
                assert(names_of(roots@) =~= mid.push(names[i as int]));
            }
        }
        i += 1;
    }
    proof {
        assert(names.take(n as int) =~= names);
    }
    let ghost tops = names_of(roots@);
    let mut visiting: Vec<String> = Vec::new();
    let mut j: usize = 0;
    assert(names_of(out@) =~= Seq::<Seq<char>>::empty());
    assert(names_of(visiting@) =~= Seq::<Name>::empty());
    while j < roots.len()
        invariant
            names == catalog.products.names(),
            g == catalog.products@,
            n == names.len(),
            tops == names_of(roots@),
            j <= roots@.len(),
            names_of(visiting@) == Seq::<Name>::empty(),
            names_of(out@) + forest_lines(names, g, tops, j as int) == forest_lines(
                names,
                g,
                tops,
                0,
            ),
        decreases roots@.len() - j,
    {
        let ghost pre = names_of(out@);
        let ghost rest = forest_lines(names, g, tops, j + 1);
        proof {
            reveal_strlit("");
            assert(""@ =~= Seq::<char>::empty());
        }
        write_tree(catalog, roots[j].as_str(), "", j + 1 == roots.len(), &mut visiting, n, &mut out);
        proof {
            let t = tree_lines(
                names,
                g,
                tops[j as int],
                Seq::empty(),
                j + 1 == tops.len(),
                Seq::empty(),
                names.len(),
            );
            assert(names_of(out@) == pre + t);
            assert((pre + t) + rest =~= pre + (t + rest));
        }
        j += 1;
    }
    proof {
        assert(forest_lines(names, g, tops, tops.len() as int) =~= Seq::<Seq<char>>::empty());
        assert(names_of(out@) =~= forest_lines(names, g, tops, 0));
    }
    out
}

} // verus!
