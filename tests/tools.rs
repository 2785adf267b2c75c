use cluster_forge::category::Category;
use cluster_forge::config::{Config, ConfigProblem};
use cluster_forge::decompose::clean;
use cluster_forge::manifest::{decompose_document, read_document, split_yaml, DocumentError};
use cluster_forge::order::lex_less;
use cluster_forge::packer::{frame_of, resource_name_of, Shard};
use cluster_forge::runtime::{config_map_names, runtime_config_for};
use cluster_forge::text::{split_bytes, trim_end_len};
use cluster_forge::tools::{
    bundle_name, install_helm_chart, manifest_path, namespace_manifest, needs_namespace_object,
    pick_by_numbers, print_summary, remove_element, removed_on_reset, shard_category, smelt,
    template_helm,
};

fn s(v: &str) -> String {
    v.to_string()
}

fn text(b: &[u8]) -> String {
    String::from_utf8(b.to_vec()).unwrap()
}

fn config(name: &str) -> Config {
    Config {
        helm_chart_name: None,
        helm_url: None,
        values: None,
        secrets: None,
        name: s(name),
        helm_name: None,
        manifest_url: None,
        helm_version: None,
        namespace: s("ns"),
        source_file: None,
        filename: None,
        crd_files: None,
        secret_files: None,
        external_secret_files: None,
        object_files: None,
        cast_name: None,
        namespace_files: None,
    }
}

#[test]
fn remove_element_keeps_order() {
    let mut v = vec![s("all"), s("a"), s("all"), s("b")];
    remove_element(&mut v, "all");
    assert_eq!(v, vec![s("a"), s("b")]);
    let mut empty: Vec<String> = Vec::new();
    remove_element(&mut empty, "x");
    assert!(empty.is_empty());
}

#[test]
fn smelt_selects_each_tool_once() {
    let configs = vec![config("a"), config("b"), config("c")];
    assert_eq!(smelt(&configs, &vec![s("all")]), vec![0, 1, 2]);
    assert_eq!(smelt(&configs, &vec![s("c"), s("a"), s("a")]), vec![0, 2]);
    assert!(smelt(&configs, &vec![s("zz")]).is_empty());
}

#[test]
fn summary_lists_tools() {
    assert_eq!(print_summary(&vec![s("a"), s("b")]), "Cluster Forge\n\nCompleted: a, b.");
    assert_eq!(print_summary(&vec![]), "Cluster Forge\n\nCompleted: .");
}

#[test]
fn helm_install_command_text() {
    assert_eq!(
        install_helm_chart("komodorio", "https://helm-charts.komodor.io", "komoplane", "komodorio/komoplane"),
        "helm repo add komodorio https://helm-charts.komodor.io && helm repo update && helm upgrade --install komoplane komodorio/komoplane"
    );
}

#[test]
fn helm_template_arguments() {
    let mut c = config("db");
    assert_eq!(template_helm(&c), Ok(None));
    c.helm_url = Some(s("https://charts.example"));
    assert_eq!(template_helm(&c), Err(ConfigProblem::MissingChartName));
    c.helm_chart_name = Some(s("postgres"));
    assert_eq!(template_helm(&c), Err(ConfigProblem::MissingReleaseName));
    c.helm_name = Some(s("pg"));
    assert_eq!(
        template_helm(&c).unwrap().unwrap(),
        vec![s("template"), s("pg"), s("--repo"), s("https://charts.example"), s("postgres"), s("--namespace"), s("ns")]
    );
    c.helm_version = Some(s("1.2.3"));
    c.values = Some(s("values.yaml"));
    assert_eq!(
        template_helm(&c).unwrap().unwrap(),
        vec![
            s("template"),
            s("pg"),
            s("--repo"),
            s("https://charts.example"),
            s("postgres"),
            s("--version"),
            s("1.2.3"),
            s("--namespace"),
            s("ns"),
            s("-f"),
            s("input/db/values.yaml"),
        ]
    );
}

#[test]
fn manifest_path_defaults() {
    let mut c = config("app");
    assert_eq!(manifest_path(&c), "working/pre/app.yaml");
    c.filename = Some(s("elsewhere.yaml"));
    assert_eq!(manifest_path(&c), "elsewhere.yaml");
}

#[test]
fn namespace_object_rules() {
    let c = config("app");
    assert_eq!(namespace_manifest("prod"), "apiVersion: v1\nkind: Namespace\nmetadata:\n  name: prod");
    assert!(needs_namespace_object(&vec![s("Deployment_web.yaml")], &c));
    assert!(!needs_namespace_object(&vec![s("Namespace_app.yaml")], &c));
    let mut authored = config("app");
    authored.source_file = Some(s("x.yaml"));
    assert!(!needs_namespace_object(&vec![], &authored));
    let mut nameless = config("app");
    nameless.namespace = s("");
    assert!(!needs_namespace_object(&vec![], &nameless));
}

#[test]
fn reset_keeps_external_secrets() {
    assert!(removed_on_reset("Deployment_web.yaml"));
    assert!(!removed_on_reset("ExternalSecret_db.yaml"));
}

#[test]
fn menu_numbers_pick_names() {
    let names = vec![s("all"), s("a"), s("b")];
    assert_eq!(pick_by_numbers(&vec![2, 0, 3, 9, 2], &names), vec![s("a"), s("b"), s("a")]);
    assert_eq!(bundle_name(&vec![s("a"), s("b")]), "a_b");
    assert_eq!(bundle_name(&vec![]), "");
}

#[test]
fn shard_category_from_name() {
    assert_eq!(shard_category(b"crd-db-1.yaml", b"db"), Some(Category::CustomResourceDefinition));
    assert_eq!(shard_category(b"externalsecret-db-2.yaml", b"db"), Some(Category::ExternalSecret));
    assert_eq!(shard_category(b"secret-db-1.yaml", b"db"), Some(Category::Secret));
    assert_eq!(shard_category(b"secret-dba-1.yaml", b"db"), None);
    assert_eq!(shard_category(b"function-templates.yaml", b"db"), None);
}

#[test]
fn shard_file_names() {
    let sh = Shard { category: Category::Namespace, index: 12, content: vec![], resources: 1 };
    assert_eq!(text(&sh.file_name(b"tool")), "namespace-tool-12.yaml");
}

#[test]
fn resource_names_from_file_names() {
    assert_eq!(text(&resource_name_of(b"ConfigMap_cfg-1.yaml")), "cfg-1");
    assert_eq!(text(&resource_name_of(b"ConfigMap_a_b.yaml")), "a_b");
    assert_eq!(text(&resource_name_of(b"plain.yaml")), "plain");
    assert_eq!(text(&resource_name_of(b"noext")), "noext");
}

#[test]
fn frames_by_category() {
    assert_eq!(text(&frame_of(Category::Secret, b"Secret_s.yaml", b"a: 1")), "---\na: 1\n");
    assert!(text(&frame_of(Category::ConfigMap, b"ConfigMap_c.yaml", b"a: 1")).contains("name: c-configmap"));
}

#[test]
fn runtime_config_for_names() {
    let rc = runtime_config_for(&vec![s("x"), s("y")]);
    assert_eq!(rc.api_version, "pkg.crossplane.io/v1beta1");
    assert_eq!(rc.volume_mounts.len(), 2);
    assert_eq!(rc.volume_mounts[1].mount_path, "/templates/y");
    assert_eq!(rc.volume_mounts[1].name, "y");
    assert_eq!(rc.volumes[0].name, "x");
    assert_eq!(rc.volumes[0].config_map, "x");
    let empty = runtime_config_for(&vec![]);
    assert!(empty.volumes.is_empty());
    assert_eq!(empty.container, "package-runtime");
}

#[test]
fn config_map_names_filter_kind() {
    let envs = vec![(s("ConfigMap"), s("a")), (s("Secret"), s("b")), (s("ConfigMap"), s("c"))];
    assert_eq!(config_map_names(&envs), vec![s("a"), s("c")]);
}

#[test]
fn document_errors() {
    assert_eq!(read_document(b"- a\n- b\n").err(), Some(DocumentError::Syntax));
    assert_eq!(read_document(b"kind: 3\napiVersion: v1\nmetadata:\n  name: a\n").err(), Some(DocumentError::MissingKind));
    assert_eq!(read_document(b"kind: Pod\nmetadata:\n  name: a\n").err(), Some(DocumentError::MissingApiVersion));
    assert_eq!(read_document(b"kind: Pod\napiVersion: v1\nmetadata: x\n").err(), Some(DocumentError::MissingMetadata));
    assert_eq!(read_document(b"kind: Pod\napiVersion: v1\nmetadata:\n  labels: {}\n").err(), Some(DocumentError::MissingName));
    assert_eq!(
        decompose_document(b"kind: Pod\napiVersion: v1\nmetadata:\n  name: ''\n", "ns", false).err(),
        Some(DocumentError::EmptyName)
    );
}

#[test]
fn empty_namespace_takes_tool_namespace() {
    let d = split_yaml(b"kind: Pod\napiVersion: v1\nmetadata:\n  name: p\n  namespace: ''\n", "prod", false);
    let v: serde_yaml::Value = serde_yaml::from_slice(&d.files[0].content).unwrap();
    assert_eq!(v.get("metadata").unwrap().get("namespace").unwrap().as_str(), Some("prod"));
}

#[test]
fn byte_helpers() {
    assert_eq!(split_bytes(b"a---b---", b"---"), vec![b"a".to_vec(), b"b".to_vec(), b"".to_vec()]);
    assert_eq!(split_bytes(b"", b"\n"), vec![b"".to_vec()]);
    assert_eq!(trim_end_len(b"ab \t\r\n"), 2);
    assert!(lex_less(b"a", b"ab"));
    assert!(!lex_less(b"b", b"ab"));
    assert!(!lex_less(b"a", b"a"));
    assert_eq!(text(&clean(b"")), "");
}

#[test]
fn shard_names_grouped_by_category() {
    let names = vec![s("crd-db-1.yaml"), s("secret-db-1.yaml"), s("configmap-db-1.yaml"), s("object-db-2.yaml"), s("object-x-1.yaml")];
    let g = cluster_forge::tools::group_shard_names(&names, "db");
    assert_eq!(g.crd_files, vec![s("crd-db-1.yaml")]);
    assert_eq!(g.secret_files, vec![s("secret-db-1.yaml")]);
    assert_eq!(g.object_files, vec![s("object-db-2.yaml")]);
    assert!(g.namespace_files.is_empty());
    assert!(g.external_secret_files.is_empty());
}
