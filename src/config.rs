//! Tool descriptors and their validation.
use vstd::prelude::*;

verus! {

/// One tool: its name, namespace, content source (a chart, an authored file or
/// a remote manifest) and the shard files recorded for it.
#[derive(Clone, Debug)]
pub struct Config {
    pub helm_chart_name: Option<String>,
    pub helm_url: Option<String>,
    pub values: Option<String>,
    pub secrets: Option<bool>,
    pub name: String,
    pub helm_name: Option<String>,
    pub manifest_url: Option<String>,
    pub helm_version: Option<String>,
    pub namespace: String,
    pub source_file: Option<String>,
    pub filename: Option<String>,
    pub crd_files: Option<Vec<String>>,
    pub secret_files: Option<Vec<String>>,
    pub external_secret_files: Option<Vec<String>>,
    pub object_files: Option<Vec<String>>,
    pub cast_name: Option<Vec<String>>,
    pub namespace_files: Option<Vec<String>>,
}

/// One packaged resource, as handed to a bundler.
#[derive(Clone, Debug)]
pub struct PlatformPackage {
    pub name: String,
    pub kind: String,
    pub content: String,
    pub index: usize,
    pub package_type: String,
}

/// What is wrong with a tool descriptor.
#[derive(Clone, Copy, Debug, PartialEq, Eq, Structural)]
pub enum ConfigProblem {
    MissingName,
    MissingNamespace,
    /// None of chart, authored file or remote manifest is given.
    MissingSource,
    MissingChartName,
    MissingReleaseName,
    MissingValues,
}

/// A descriptor that fails validation: its position and its first problem.
#[derive(Clone, Copy, Debug, PartialEq, Eq, Structural)]
pub struct ConfigError {
    pub index: usize,
    pub problem: ConfigProblem,
}

/// The first problem of a descriptor, checked in the order of `ConfigProblem`.
pub open spec fn problem_of(c: Config) -> Option<ConfigProblem> {
    if c.name@.len() == 0 {
        Some(ConfigProblem::MissingName)
    } else if c.namespace@.len() == 0 {
        Some(ConfigProblem::MissingNamespace)
    } else if c.manifest_url is None && c.helm_url is None && c.source_file is None {
        Some(ConfigProblem::MissingSource)
    } else if c.helm_url is Some && c.helm_chart_name is None {
        Some(ConfigProblem::MissingChartName)
    } else if c.helm_url is Some && c.helm_name is None {
        Some(ConfigProblem::MissingReleaseName)
    } else if c.helm_url is Some && c.values is None {
        Some(ConfigProblem::MissingValues)
    } else {
        None
    }
}

fn check(c: &Config) -> (r: Option<ConfigProblem>)
    ensures
        r == problem_of(*c),
{
    if c.name.as_str().is_empty() {
        Some(ConfigProblem::MissingName)
    } else if c.namespace.as_str().is_empty() {
        Some(ConfigProblem::MissingNamespace)
    } else if c.manifest_url.is_none() && c.helm_url.is_none() && c.source_file.is_none() {
        Some(ConfigProblem::MissingSource)
    } else if c.helm_url.is_some() && c.helm_chart_name.is_none() {
        Some(ConfigProblem::MissingChartName)
    } else if c.helm_url.is_some() && c.helm_name.is_none() {
        Some(ConfigProblem::MissingReleaseName)
    } else if c.helm_url.is_some() && c.values.is_none() {
        Some(ConfigProblem::MissingValues)
    } else {
        None
    }
}

/// Checks every descriptor: a name, a namespace, a content source, and for a
/// chart its chart name, release name and values file. The first descriptor
/// with a problem is reported.
pub fn validate_config(configs: &[Config]) -> (r: Result<(), ConfigError>)
    ensures
        r is Ok <==> forall|i: int| 0 <= i < configs@.len() ==> problem_of(#[trigger] configs@[i]) is None,
        r is Err ==> {
            let e = r->Err_0;
            &&& e.index < configs@.len()
            &&& problem_of(configs@[e.index as int]) == Some(e.problem)
            &&& forall|i: int| 0 <= i < e.index ==> problem_of(#[trigger] configs@[i]) is None
        },
{
    let mut i: usize = 0;
    while i < configs.len()
        invariant
            i <= configs@.len(),
            forall|k: int| 0 <= k < i ==> problem_of(#[trigger] configs@[k]) is None,
        decreases configs@.len() - i,
    {
        if let Some(problem) = check(&configs[i]) {
            return Err(ConfigError { index: i, problem });
        }
        i = i + 1;
    }
    Ok(())
}

} // verus!
