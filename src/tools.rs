//! Tool selection and the text handed to the templating and deploy commands.
use vstd::prelude::*;
use crate::category::{label_of, Category};
use crate::config::{Config, ConfigProblem};
use crate::manifest::{bytes_of, opt_view, utf8};
use crate::text::{string_views, ascii, has_prefix, has_prefix_exec, has_substring, has_substring_exec, lit, push_all};

verus! {

/// `v` without the entries equal to `element`, order kept.
pub open spec fn without(v: Seq<String>, element: Seq<char>) -> Seq<String>
    decreases v.len(),
{
    if v.len() == 0 {
        Seq::empty()
    } else {
        let prev = without(v.drop_last(), element);
        if v.last()@ == element {
            prev
        } else {
            prev.push(v.last())
        }
    }
}

/// Removes every entry equal to `element`, keeping the order of the others.
pub fn remove_element(slice: &mut Vec<String>, element: &str)
    ensures
        final(slice)@ == without(old(slice)@, element@),
{
    let target = element.to_owned();
    let old_v = slice.clone();
    let mut kept: Vec<String> = Vec::new();
    let mut i: usize = 0;
    while i < old_v.len()
        invariant
            i <= old_v@.len(),
            old_v@ == old(slice)@,
            target@ == element@,
            kept@ == without(old_v@.subrange(0, i as int), element@),
        decreases old_v@.len() - i,
    {
        assert(old_v@.subrange(0, i + 1).drop_last() == old_v@.subrange(0, i as int));
        if !(old_v[i] == target) {
            kept.push(old_v[i].clone());
        }
        i = i + 1;
    }
    assert(old_v@.subrange(0, old_v@.len() as int) == old_v@);
    *slice = kept;
}

/// `names` holds `name`.
pub open spec fn holds(names: Seq<String>, name: Seq<char>) -> bool {
    exists|i: int| 0 <= i < names.len() && (#[trigger] names[i])@ == name
}

fn holds_exec(names: &Vec<String>, name: &String) -> (r: bool)
    ensures
        r == holds(names@, name@),
{
    let mut i: usize = 0;
    while i < names.len()
        invariant
            i <= names@.len(),
            forall|k: int| 0 <= k < i ==> (#[trigger] names@[k])@ != name@,
        decreases names@.len() - i,
    {
        if names[i] == *name {
            return true;
        }
        i = i + 1;
    }
    false
}

/// The positions of the descriptors selected by `selected`, in descriptor
/// order: those named there, or all when it holds `all`.
pub open spec fn selected_positions(configs: Seq<Config>, selected: Seq<String>, n: int) -> Seq<usize>
    decreases n,
{
    if n <= 0 {
        Seq::empty()
    } else {
        let prev = selected_positions(configs, selected, n - 1);
        if holds(selected, "all"@) || holds(selected, configs[n - 1].name@) {
            prev.push((n - 1) as usize)
        } else {
            prev
        }
    }
}

/// The tools to prepare, as positions in `configs`, each once and in order.
pub fn smelt(configs: &Vec<Config>, selected: &Vec<String>) -> (r: Vec<usize>)
    ensures
        r@ == selected_positions(configs@, selected@, configs@.len() as int),
{
    let all = "all".to_owned();
    let everything = holds_exec(selected, &all);
    let mut r: Vec<usize> = Vec::new();
    let mut i: usize = 0;
    while i < configs.len()
        invariant
            i <= configs@.len(),
            everything == holds(selected@, "all"@),
            r@ == selected_positions(configs@, selected@, i as int),
        decreases configs@.len() - i,
    {
        if everything || holds_exec(selected, &configs[i].name) {
            r.push(i);
        }
        i = i + 1;
    }
    r
}

/// The names chosen by 1-based numbers, in the order given; numbers that name
/// nothing are ignored.
pub open spec fn picked(numbers: Seq<usize>, names: Seq<String>) -> Seq<String>
    decreases numbers.len(),
{
    if numbers.len() == 0 {
        Seq::empty()
    } else {
        let prev = picked(numbers.drop_last(), names);
        let n = numbers.last();
        if 1 <= n <= names.len() {
            prev.push(names[n - 1])
        } else {
            prev
        }
    }
}

/// The names chosen by 1-based numbers from a menu of `names`.
pub fn pick_by_numbers(numbers: &Vec<usize>, names: &Vec<String>) -> (r: Vec<String>)
    ensures
        string_views(r@) == string_views(picked(numbers@, names@)),
{
    let mut r: Vec<String> = Vec::new();
    let mut i: usize = 0;
    while i < numbers.len()
        invariant
            i <= numbers@.len(),
            string_views(r@) == string_views(picked(numbers@.subrange(0, i as int), names@)),
        decreases numbers@.len() - i,
    {
        assert(numbers@.subrange(0, i + 1).drop_last() == numbers@.subrange(0, i as int));
        let n = numbers[i];
        if n >= 1 && n <= names.len() {
            let ghost before = r@;
            let ghost prev = picked(numbers@.subrange(0, i as int), names@);
            r.push(names[n - 1].clone());
            assert(string_views(r@) =~= string_views(before).push(names@[n - 1]@));
            assert(string_views(prev.push(names@[n - 1])) =~= string_views(prev).push(names@[n - 1]@));
        }
        i = i + 1;
    }
    assert(numbers@.subrange(0, numbers@.len() as int) == numbers@);
    r
}

/// `names` joined with `_`: the name of a bundle of tools.
pub open spec fn bundle_name_of(names: Seq<String>) -> Seq<char>
    decreases names.len(),
{
    if names.len() == 0 {
        Seq::empty()
    } else if names.len() == 1 {
        names[0]@
    } else {
        bundle_name_of(names.drop_last()) + "_"@ + names.last()@
    }
}

pub fn bundle_name(names: &Vec<String>) -> (r: String)
    ensures
        r@ == bundle_name_of(names@),
{
    let mut r = String::new();
    let mut i: usize = 0;
    while i < names.len()
        invariant
            i <= names@.len(),
            r@ == bundle_name_of(names@.subrange(0, i as int)),
        decreases names@.len() - i,
    {
        assert(names@.subrange(0, i + 1).drop_last() == names@.subrange(0, i as int));
        if i > 0 {
            r.append("_");
        }
        r.append(names[i].as_str());
        proof {
            if i == 0 {
                assert(r@ =~= bundle_name_of(names@.subrange(0, 1)));
            }
        }
        i = i + 1;
    }
    assert(names@.subrange(0, names@.len() as int) == names@);
    r
}

/// `names` joined with `, `.
pub open spec fn joined(names: Seq<String>) -> Seq<char>
    decreases names.len(),
{
    if names.len() == 0 {
        Seq::empty()
    } else if names.len() == 1 {
        names[0]@
    } else {
        joined(names.drop_last()) + ", "@ + names.last()@
    }
}

/// The closing line of a run: the tools that were prepared.
pub fn print_summary(tools: &Vec<String>) -> (r: String)
    ensures
        r@ == "Cluster Forge\n\nCompleted: "@ + joined(tools@) + "."@,
{
    let mut list = String::new();
    let mut i: usize = 0;
    while i < tools.len()
        invariant
            i <= tools@.len(),
            list@ == joined(tools@.subrange(0, i as int)),
        decreases tools@.len() - i,
    {
        assert(tools@.subrange(0, i + 1).drop_last() == tools@.subrange(0, i as int));
        if i > 0 {
            list.append(", ");
        }
        list.append(tools[i].as_str());
        proof {
            if i == 0 {
                assert(list@ =~= joined(tools@.subrange(0, 1)));
            }
        }
        i = i + 1;
    }
    assert(tools@.subrange(0, tools@.len() as int) == tools@);
    let mut r = "Cluster Forge\n\nCompleted: ".to_owned();
    r.append(list.as_str());
    r.append(".");
    r
}

/// The shell command that adds a chart repository and installs a release.
pub fn install_helm_chart(repo_name: &str, repo_url: &str, release_name: &str, chart_name: &str) -> (r:
    String)
    ensures
        r@ == "helm repo add "@ + repo_name@ + " "@ + repo_url@
            + " && helm repo update && helm upgrade --install "@ + release_name@ + " "@ + chart_name@,
{
    let mut r = "helm repo add ".to_owned();
    r.append(repo_name);
    r.append(" ");
    r.append(repo_url);
    r.append(" && helm repo update && helm upgrade --install ");
    r.append(release_name);
    r.append(" ");
    r.append(chart_name);
    r
}

/// The start `{label}-{tool}-` of the names of a tool's shards of category `c`.
pub open spec fn shard_prefix(c: Category, tool: Seq<u8>) -> Seq<u8> {
    label_of(c) + ascii("-"@) + tool + ascii("-"@)
}

/// The category of a tool's shard, read from the start of its file name.
pub open spec fn shard_category_of(file_name: Seq<u8>, tool: Seq<u8>) -> Option<Category> {
    if has_prefix(file_name, shard_prefix(Category::ConfigMap, tool)) {
        Some(Category::ConfigMap)
    } else if has_prefix(file_name, shard_prefix(Category::CustomResourceDefinition, tool)) {
        Some(Category::CustomResourceDefinition)
    } else if has_prefix(file_name, shard_prefix(Category::Namespace, tool)) {
        Some(Category::Namespace)
    } else if has_prefix(file_name, shard_prefix(Category::ExternalSecret, tool)) {
        Some(Category::ExternalSecret)
    } else if has_prefix(file_name, shard_prefix(Category::Secret, tool)) {
        Some(Category::Secret)
    } else if has_prefix(file_name, shard_prefix(Category::Object, tool)) {
        Some(Category::Object)
    } else {
        None
    }
}

fn has_shard_prefix(file_name: &[u8], tool: &[u8], c: Category) -> (r: bool)
    ensures
        r == has_prefix(file_name@, shard_prefix(c, tool@)),
{
    proof {
        reveal_strlit("-");
    }
    let mut p: Vec<u8> = Vec::new();
    push_all(&mut p, c.label());
    push_all(&mut p, lit("-"));
    push_all(&mut p, tool);
    push_all(&mut p, lit("-"));
    assert(p@ =~= shard_prefix(c, tool@));
    has_prefix_exec(file_name, p.as_slice())
}

/// The category of a shard file of `tool`, read from its name.
pub fn shard_category(file_name: &[u8], tool: &[u8]) -> (r: Option<Category>)
    ensures
        r == shard_category_of(file_name@, tool@),
{
    if has_shard_prefix(file_name, tool, Category::ConfigMap) {
        Some(Category::ConfigMap)
    } else if has_shard_prefix(file_name, tool, Category::CustomResourceDefinition) {
        Some(Category::CustomResourceDefinition)
    } else if has_shard_prefix(file_name, tool, Category::Namespace) {
        Some(Category::Namespace)
    } else if has_shard_prefix(file_name, tool, Category::ExternalSecret) {
        Some(Category::ExternalSecret)
    } else if has_shard_prefix(file_name, tool, Category::Secret) {
        Some(Category::Secret)
    } else if has_shard_prefix(file_name, tool, Category::Object) {
        Some(Category::Object)
    } else {
        None
    }
}

/// The shard file names of `tool` among `names` that are of category `c`, in order.
pub open spec fn names_of_category(names: Seq<String>, tool: Seq<u8>, c: Category) -> Seq<Seq<char>>
    decreases names.len(),
{
    if names.len() == 0 {
        Seq::empty()
    } else {
        let prev = names_of_category(names.drop_last(), tool, c);
        if shard_category_of(utf8(names.last()@), tool) == Some(c) {
            prev.push(names.last()@)
        } else {
            prev
        }
    }
}

/// A tool's shard file names, grouped by category.
pub struct ShardGroups {
    pub namespace_files: Vec<String>,
    pub crd_files: Vec<String>,
    pub external_secret_files: Vec<String>,
    pub secret_files: Vec<String>,
    pub object_files: Vec<String>,
}

/// Groups the shard file names of `tool` by the category their names carry;
/// ConfigMap shards and other files belong to no group.
pub fn group_shard_names(names: &Vec<String>, tool: &str) -> (r: ShardGroups)
    ensures
        string_views(r.namespace_files@) == names_of_category(names@, utf8(tool@), Category::Namespace),
        string_views(r.crd_files@) == names_of_category(
            names@,
            utf8(tool@),
            Category::CustomResourceDefinition,
        ),
        string_views(r.external_secret_files@) == names_of_category(
            names@,
            utf8(tool@),
            Category::ExternalSecret,
        ),
        string_views(r.secret_files@) == names_of_category(names@, utf8(tool@), Category::Secret),
        string_views(r.object_files@) == names_of_category(names@, utf8(tool@), Category::Object),
{
    let t = bytes_of(tool);
    let mut g = ShardGroups {
        namespace_files: Vec::new(),
        crd_files: Vec::new(),
        external_secret_files: Vec::new(),
        secret_files: Vec::new(),
        object_files: Vec::new(),
    };
    let mut i: usize = 0;
    while i < names.len()
        invariant
            i <= names@.len(),
            t@ == utf8(tool@),
            string_views(g.namespace_files@) == names_of_category(
                names@.subrange(0, i as int),
                t@,
                Category::Namespace,
            ),
            string_views(g.crd_files@) == names_of_category(
                names@.subrange(0, i as int),
                t@,
                Category::CustomResourceDefinition,
            ),
            string_views(g.external_secret_files@) == names_of_category(
                names@.subrange(0, i as int),
                t@,
                Category::ExternalSecret,
            ),
            string_views(g.secret_files@) == names_of_category(
                names@.subrange(0, i as int),
                t@,
                Category::Secret,
            ),
            string_views(g.object_files@) == names_of_category(
                names@.subrange(0, i as int),
                t@,
                Category::Object,
            ),
        decreases names@.len() - i,
    {
        let ghost pre = names@.subrange(0, i as int);
        assert(names@.subrange(0, i + 1).drop_last() == pre);
        let name = names[i].clone();
        let b = bytes_of(name.as_str());
        let c = shard_category(b.as_slice(), t.as_slice());
        let ghost ns = g.namespace_files@;
        let ghost cs = g.crd_files@;
        let ghost es = g.external_secret_files@;
        let ghost ss = g.secret_files@;
        let ghost os = g.object_files@;
        match c {
            Some(Category::Namespace) => {
                g.namespace_files.push(name);
                assert(string_views(g.namespace_files@) =~= string_views(ns).push(names@[i as int]@));
            },
            Some(Category::CustomResourceDefinition) => {
                g.crd_files.push(name);
                assert(string_views(g.crd_files@) =~= string_views(cs).push(names@[i as int]@));
            },
            Some(Category::ExternalSecret) => {
                g.external_secret_files.push(name);
                assert(string_views(g.external_secret_files@) =~= string_views(es).push(
                    names@[i as int]@,
                ));
            },
            Some(Category::Secret) => {
                g.secret_files.push(name);
                assert(string_views(g.secret_files@) =~= string_views(ss).push(names@[i as int]@));
            },
            Some(Category::Object) => {
                g.object_files.push(name);
                assert(string_views(g.object_files@) =~= string_views(os).push(names@[i as int]@));
            },
            _ => {},
        }
        i = i + 1;
    }
    assert(names@.subrange(0, names@.len() as int) == names@);
    g
}

/// Where a tool's manifest text is kept: its `filename`, else
/// `working/pre/{name}.yaml`.
pub fn manifest_path(config: &Config) -> (r: String)
    ensures
        r@ == match config.filename {
            Some(f) => f@,
            None => "working/pre/"@ + config.name@ + ".yaml"@,
        },
{
    match &config.filename {
        Some(f) => f.clone(),
        None => {
            let mut r = "working/pre/".to_owned();
            r.append(config.name.as_str());
            r.append(".yaml");
            r
        },
    }
}

pub open spec fn opt_args(flag: Seq<char>, value: Option<Seq<char>>) -> Seq<Seq<char>> {
    match value {
        Some(v) => seq![flag, v],
        None => Seq::empty(),
    }
}

/// The arguments of `helm template` for a chart tool.
pub open spec fn helm_args(c: Config) -> Seq<Seq<char>> {
    seq!["template"@, c.helm_name->0@, "--repo"@, c.helm_url->0@, c.helm_chart_name->0@] + opt_args(
        "--version"@,
        opt_view(c.helm_version),
    ) + seq!["--namespace"@, c.namespace@] + opt_args(
        "-f"@,
        match c.values {
            Some(v) => Some("input/"@ + c.name@ + "/"@ + v@),
            None => None,
        },
    )
}


fn push_arg(args: &mut Vec<String>, a: String)
    ensures
        string_views(final(args)@) == string_views(old(args)@).push(a@),
{
    let ghost before = args@;
    args.push(a);
    assert(string_views(args@) =~= string_views(before).push(a@));
}

/// The arguments of `helm template` that render a chart tool: `None` for a
/// tool whose source is not a chart, and the missing field when the chart
/// name or release name is not given.
pub fn template_helm(config: &Config) -> (r: Result<Option<Vec<String>>, ConfigProblem>)
    ensures
        config.helm_url is None ==> r == Ok::<Option<Vec<String>>, ConfigProblem>(None),
        config.helm_url is Some && config.helm_chart_name is None ==> r == Err::<
            Option<Vec<String>>,
            ConfigProblem,
        >(ConfigProblem::MissingChartName),
        config.helm_url is Some && config.helm_chart_name is Some && config.helm_name is None
            ==> r == Err::<Option<Vec<String>>, ConfigProblem>(ConfigProblem::MissingReleaseName),
        config.helm_url is Some && config.helm_chart_name is Some && config.helm_name is Some
            ==> r is Ok && r->Ok_0 is Some && string_views(r->Ok_0->0@) == helm_args(*config),
{
    let url = match &config.helm_url {
        Some(u) => u,
        None => return Ok(None),
    };
    let chart = match &config.helm_chart_name {
        Some(c) => c,
        None => return Err(ConfigProblem::MissingChartName),
    };
    let release = match &config.helm_name {
        Some(n) => n,
        None => return Err(ConfigProblem::MissingReleaseName),
    };
    let mut args: Vec<String> = Vec::new();
    push_arg(&mut args, "template".to_owned());
    push_arg(&mut args, release.clone());
    push_arg(&mut args, "--repo".to_owned());
    push_arg(&mut args, url.clone());
    push_arg(&mut args, chart.clone());
    if let Some(v) = &config.helm_version {
        push_arg(&mut args, "--version".to_owned());
        push_arg(&mut args, v.clone());
    }
    push_arg(&mut args, "--namespace".to_owned());
    push_arg(&mut args, config.namespace.clone());
    if let Some(values) = &config.values {
        let mut path = "input/".to_owned();
        path.append(config.name.as_str());
        path.append("/");
        path.append(values.as_str());
        push_arg(&mut args, "-f".to_owned());
        push_arg(&mut args, path);
    }
    assert(string_views(args@) =~= helm_args(*config));
    Ok(Some(args))
}

/// The Namespace resource created for a tool whose manifest has none.
pub open spec fn namespace_manifest_of(ns: Seq<char>) -> Seq<char> {
    "apiVersion: v1\nkind: Namespace\nmetadata:\n  name: "@ + ns
}

pub fn namespace_manifest(namespace: &str) -> (r: String)
    ensures
        r@ == namespace_manifest_of(namespace@),
{
    let mut r = "apiVersion: v1\nkind: Namespace\nmetadata:\n  name: ".to_owned();
    r.append(namespace);
    r
}

/// A tool gets a Namespace resource of its own when none of its staged files
/// is one, its source is not an authored file, and it names a namespace.
pub open spec fn needs_namespace(staged: Seq<String>, c: Config) -> bool {
    &&& forall|i: int|
        0 <= i < staged.len() ==> !has_substring(utf8((#[trigger] staged[i])@), ascii("Namespace"@))
    &&& c.source_file is None
    &&& c.namespace@.len() > 0
}

pub fn needs_namespace_object(staged: &Vec<String>, config: &Config) -> (r: bool)
    ensures
        r == needs_namespace(staged@, *config),
{
    if config.source_file.is_some() || config.namespace.as_str().is_empty() {
        return false;
    }
    proof {
        reveal_strlit("Namespace");
    }
    let kind = lit("Namespace");
    let mut i: usize = 0;
    while i < staged.len()
        invariant
            i <= staged@.len(),
            kind@ == ascii("Namespace"@),
            forall|k: int|
                0 <= k < i ==> !has_substring(utf8((#[trigger] staged@[k])@), ascii("Namespace"@)),
        decreases staged@.len() - i,
    {
        let b = bytes_of(staged[i].as_str());
        if has_substring_exec(b.as_slice(), kind) {
            return false;
        }
        i = i + 1;
    }
    true
}

/// Stale staging files are removed before a tool is prepared again, except
/// ExternalSecrets, which are authored by hand.
pub fn removed_on_reset(file_name: &str) -> (r: bool)
    ensures
        r == !has_substring(utf8(file_name@), ascii("ExternalSecret"@)),
{
    proof {
        reveal_strlit("ExternalSecret");
    }
    let b = bytes_of(file_name);
    !has_substring_exec(b.as_slice(), lit("ExternalSecret"))
}

} // verus!
