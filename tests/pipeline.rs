use cluster_forge::category::{classify, should_skip_file, Category};
use cluster_forge::config::{validate_config, Config, ConfigProblem};
use cluster_forge::decompose::{clean, split_documents};
use cluster_forge::manifest::{split_yaml, DocumentError};
use cluster_forge::packer::{create_crossplane_object, wrap_config_map, StagedFile, MAX_SHARD_BYTES};
use cluster_forge::order::sort_by_name;
use cluster_forge::runtime::generate_function_templates;

fn staged(name: &str, content: &str) -> StagedFile {
    StagedFile { name: name.as_bytes().to_vec(), content: content.as_bytes().to_vec() }
}

fn text(b: &[u8]) -> String {
    String::from_utf8(b.to_vec()).unwrap()
}

fn template_of(entry: &[u8]) -> String {
    let v: serde_yaml::Value = serde_yaml::from_slice(entry).unwrap();
    v.get("data").unwrap().get("template").unwrap().as_str().unwrap().to_string()
}

#[test]
fn clean_drops_noise_lines() {
    let input = b"# comment\napiVersion: v1\n\n---\nkind: Pod  \n  helm.sh/chart: x-1\napp.kubernetes.io/managed-by: Helm\nmetadata:\r\n";
    assert_eq!(text(&clean(input)), "apiVersion: v1\nkind: Pod  \nmetadata:\n");
}

#[test]
fn clean_keeps_indented_comment() {
    assert_eq!(text(&clean(b"a: 1\n  # note")), "a: 1\n  # note\n");
}

#[test]
fn split_documents_skips_blank() {
    let docs = split_documents(b"---\na: 1\n---\n\n# only a comment\n---\nb: 2\n");
    assert_eq!(docs.len(), 2);
    assert_eq!(text(&docs[0]), "a: 1\n");
    assert_eq!(text(&docs[1]), "b: 2\n");
}

#[test]
fn separators_only_give_nothing() {
    let d = split_yaml(b"---\n\n---\n   \n---\n# c\n---", "prod", false);
    assert_eq!(d.files.len(), 0);
    assert_eq!(d.skipped.len(), 0);
}

#[test]
fn classify_follows_precedence() {
    assert_eq!(classify(b"ConfigMap_a.yaml"), Category::ConfigMap);
    assert_eq!(classify(b"CustomResourceDefinition_x.yaml"), Category::CustomResourceDefinition);
    assert_eq!(classify(b"Namespace_prod.yaml"), Category::Namespace);
    assert_eq!(classify(b"ExternalSecret_s.yaml"), Category::ExternalSecret);
    assert_eq!(classify(b"Secret_s.yaml"), Category::Secret);
    assert_eq!(classify(b"Deployment_web.yaml"), Category::Object);
    assert_eq!(classify(b"Secret_ConfigMap.yaml"), Category::ConfigMap);
}

#[test]
fn hook_marker_is_detected() {
    assert!(should_skip_file(b"metadata:\n  annotations:\n    helm.sh/hook: pre-install\n"));
    assert!(!should_skip_file(b"metadata:\n  name: a\n"));
}

#[test]
fn scenario_app_namespace_and_wrap() {
    let manifest = "apiVersion: apps/v1\nkind: Deployment\nmetadata:\n  name: web\nspec:\n  replicas: 1\n---\napiVersion: v1\nkind: ConfigMap\nmetadata:\n  name: cfg-1\ndata:\n  k: v\n";
    let d = split_yaml(manifest.as_bytes(), "prod", false);
    assert_eq!(d.skipped.len(), 0);
    assert_eq!(d.files.len(), 2);
    assert_eq!(text(&d.files[0].name), "Deployment_web.yaml");
    assert_eq!(text(&d.files[1].name), "ConfigMap_cfg-1.yaml");
    let web: serde_yaml::Value = serde_yaml::from_slice(&d.files[0].content).unwrap();
    assert_eq!(web.get("metadata").unwrap().get("namespace").unwrap().as_str(), Some("prod"));
    let cfg_content = d.files[1].content.clone();
    let shards = create_crossplane_object(d.files);
    assert_eq!(shards.len(), 2);
    assert_eq!(text(&shards[0].file_name(b"app")), "configmap-app-1.yaml");
    assert_eq!(text(&shards[1].file_name(b"app")), "object-app-1.yaml");
    let object = text(&shards[1].content);
    assert!(object.contains("name: web"));
    assert!(object.contains("namespace: prod"));
    let wrapped: serde_yaml::Value = serde_yaml::from_slice(&shards[0].content).unwrap();
    assert_eq!(wrapped.get("metadata").unwrap().get("name").unwrap().as_str(), Some("cfg-1-configmap"));
    assert_eq!(
        wrapped.get("metadata").unwrap().get("namespace").unwrap().as_str(),
        Some("crossplane-system")
    );
    let inner = template_of(&shards[0].content);
    assert_eq!(inner.as_bytes(), &cfg_content[..]);
    let cfg: serde_yaml::Value = serde_yaml::from_str(&inner).unwrap();
    assert_eq!(cfg.get("metadata").unwrap().get("namespace").unwrap().as_str(), Some("prod"));
}

#[test]
fn trusted_source_keeps_missing_namespace() {
    let d = split_yaml(b"apiVersion: v1\nkind: Service\nmetadata:\n  name: s\n", "prod", true);
    assert_eq!(d.files.len(), 1);
    let v: serde_yaml::Value = serde_yaml::from_slice(&d.files[0].content).unwrap();
    assert!(v.get("metadata").unwrap().get("namespace").is_none());
}

#[test]
fn own_namespace_is_kept() {
    let d = split_yaml(b"apiVersion: v1\nkind: Service\nmetadata:\n  name: s\n  namespace: other\n", "prod", false);
    let v: serde_yaml::Value = serde_yaml::from_slice(&d.files[0].content).unwrap();
    assert_eq!(v.get("metadata").unwrap().get("namespace").unwrap().as_str(), Some("other"));
}

#[test]
fn bad_documents_are_skipped_alone() {
    let manifest = b"kind: [unclosed\n---\napiVersion: v1\nkind: Pod\nmetadata:\n  name: \"\"\n---\napiVersion: v1\nmetadata:\n  name: x\n---\napiVersion: v1\nkind: Pod\nmetadata:\n  name: p\n";
    let d = split_yaml(manifest, "ns", false);
    assert_eq!(d.files.len(), 1);
    assert_eq!(text(&d.files[0].name), "Pod_p.yaml");
    assert_eq!(d.skipped.len(), 3);
    assert_eq!(d.skipped[0], (0, DocumentError::Syntax));
    assert_eq!(d.skipped[1], (1, DocumentError::EmptyName));
    assert_eq!(d.skipped[2], (2, DocumentError::MissingKind));
}

#[test]
fn scenario_crd_shards_roll_over() {
    let body = "x".repeat(80 * 1024);
    let files: Vec<StagedFile> = (1..=5)
        .map(|i| staged(&format!("CustomResourceDefinition_c{}.yaml", i), &body))
        .collect();
    let shards = create_crossplane_object(files);
    assert_eq!(shards.len(), 2);
    assert_eq!(text(&shards[0].file_name(b"db")), "crd-db-1.yaml");
    assert_eq!(shards[0].resources, 3);
    assert_eq!(text(&shards[1].file_name(b"db")), "crd-db-2.yaml");
    assert_eq!(shards[1].resources, 2);
    assert!(shards[0].content.len() <= MAX_SHARD_BYTES);
    assert_eq!(shards[0].content.len(), 3 * (80 * 1024 + 5));
}

#[test]
fn oversized_resource_stands_alone() {
    let big = "y".repeat(MAX_SHARD_BYTES + 10);
    let files = vec![staged("Pod_a.yaml", "a: 1"), staged("Pod_b.yaml", &big), staged("Pod_c.yaml", "c: 1")];
    let shards = create_crossplane_object(files);
    assert_eq!(shards.len(), 3);
    assert_eq!(shards[1].resources, 1);
    assert!(shards[1].content.len() > MAX_SHARD_BYTES);
    assert_eq!(shards[0].index, 1);
    assert_eq!(shards[1].index, 2);
    assert_eq!(shards[2].index, 3);
}

#[test]
fn oversized_first_resource_skips_empty_index() {
    let big = "y".repeat(MAX_SHARD_BYTES + 1);
    let shards = create_crossplane_object(vec![staged("Pod_b.yaml", &big)]);
    assert_eq!(shards.len(), 1);
    assert_eq!(shards[0].index, 2);
}

#[test]
fn hooks_are_not_packed() {
    let files = vec![
        staged("Job_migrate.yaml", "metadata:\n  annotations:\n    helm.sh/hook: pre-install\n"),
        staged("Pod_p.yaml", "kind: Pod\n"),
    ];
    let shards = create_crossplane_object(files);
    assert_eq!(shards.len(), 1);
    assert_eq!(text(&shards[0].content), "---\nkind: Pod\n\n");
    assert!(!text(&shards[0].content).contains("helm.sh/hook"));
}

fn some_files() -> Vec<StagedFile> {
    vec![
        staged("Pod_p.yaml", "kind: Pod\n"),
        staged("ConfigMap_c.yaml", "kind: ConfigMap\n"),
        staged("Pod_a.yaml", "kind: Pod\nmetadata:\n  name: a\n"),
        staged("Secret_s.yaml", "kind: Secret\n"),
    ]
}

#[test]
fn packing_twice_is_identical() {
    let a = create_crossplane_object(some_files());
    let b = create_crossplane_object(some_files());
    assert_eq!(a.len(), b.len());
    for (x, y) in a.iter().zip(b.iter()) {
        assert_eq!(x.content, y.content);
        assert_eq!(x.file_name(b"t"), y.file_name(b"t"));
    }
}

#[test]
fn wrap_round_trip_keeps_bytes() {
    for content in ["a: 1\n", "a: 1", "", "\n", "a:\n\n  b: 2\n\n", "  lead: x\n---\n# c\n", "x\n  y"] {
        let w = wrap_config_map(b"n", content.as_bytes());
        assert_eq!(template_of(&w), content, "content {:?}", content);
    }
}

#[test]
fn wrap_has_exact_layout() {
    let w = wrap_config_map(b"cfg", b"a: 1\n");
    assert_eq!(
        text(&w),
        "---\napiVersion: v1\nkind: ConfigMap\nmetadata:\n  name: cfg-configmap\n  namespace: crossplane-system\ndata:\n  template: |2+\n    a: 1\n"
    );
}

#[test]
fn scenario_runtime_config_counts_config_maps() {
    let mut shards = Vec::new();
    for s in 0..3 {
        let files: Vec<StagedFile> = (0..=s)
            .map(|i| staged(&format!("ConfigMap_m{}-{}.yaml", s, i), "kind: ConfigMap\n"))
            .collect();
        let packed = create_crossplane_object(files);
        assert_eq!(packed.len(), 1);
        shards.push(packed[0].content.clone());
    }
    shards.push(b"---\napiVersion: v1\nkind: Pod\nmetadata:\n  name: p\n".to_vec());
    let rc = generate_function_templates(&shards);
    assert_eq!(rc.volumes.len(), 6);
    assert_eq!(rc.volume_mounts.len(), 6);
    assert_eq!(rc.container, "package-runtime");
    assert_eq!(rc.name, "mount-templates");
    assert_eq!(rc.kind, "DeploymentRuntimeConfig");
    assert_eq!(rc.volume_mounts[0].mount_path, "/templates/m0-0-configmap");
    assert!(rc.volume_mounts[0].read_only);
    assert_eq!(rc.volumes[5].config_map, "m2-2-configmap");
}

fn config(name: &str, namespace: &str) -> Config {
    Config {
        helm_chart_name: None,
        helm_url: None,
        values: None,
        secrets: None,
        name: name.to_string(),
        helm_name: None,
        manifest_url: None,
        helm_version: None,
        namespace: namespace.to_string(),
        source_file: Some("input/x.yaml".to_string()),
        filename: None,
        crd_files: None,
        secret_files: None,
        external_secret_files: None,
        object_files: None,
        cast_name: None,
        namespace_files: None,
    }
}

#[test]
fn validate_config_reports_first_problem() {
    let good = config("a", "ns");
    assert!(validate_config(&[good.clone()]).is_ok());
    let e = validate_config(&[good.clone(), config("", "ns")]).unwrap_err();
    assert_eq!((e.index, e.problem), (1, ConfigProblem::MissingName));
    let e = validate_config(&[config("b", "")]).unwrap_err();
    assert_eq!(e.problem, ConfigProblem::MissingNamespace);
    let mut none = config("c", "ns");
    none.source_file = None;
    assert_eq!(validate_config(&[none]).unwrap_err().problem, ConfigProblem::MissingSource);
    let mut chart = config("d", "ns");
    chart.source_file = None;
    chart.helm_url = Some("https://charts".to_string());
    assert_eq!(validate_config(&[chart.clone()]).unwrap_err().problem, ConfigProblem::MissingChartName);
    chart.helm_chart_name = Some("c".to_string());
    assert_eq!(validate_config(&[chart.clone()]).unwrap_err().problem, ConfigProblem::MissingReleaseName);
    chart.helm_name = Some("r".to_string());
    assert_eq!(validate_config(&[chart.clone()]).unwrap_err().problem, ConfigProblem::MissingValues);
    chart.values = Some("values.yaml".to_string());
    assert!(validate_config(&[chart]).is_ok());
}

#[test]
fn discovery_order_does_not_matter() {
    let mut reversed = some_files();
    reversed.reverse();
    let a = create_crossplane_object(some_files());
    let b = create_crossplane_object(reversed);
    assert_eq!(a.len(), b.len());
    for (x, y) in a.iter().zip(b.iter()) {
        assert_eq!(x.category, y.category);
        assert_eq!(x.index, y.index);
        assert_eq!(x.content, y.content);
    }
    let objects = a.iter().find(|s| s.category == Category::Object).unwrap();
    assert_eq!(text(&objects.content), "---\nkind: Pod\nmetadata:\n  name: a\n\n---\nkind: Pod\n\n");
}

#[test]
fn sort_by_name_orders_bytes() {
    let sorted = sort_by_name(vec![staged("b", ""), staged("a_x", ""), staged("B", ""), staged("a", "")]);
    let names: Vec<String> = sorted.iter().map(|f| text(&f.name)).collect();
    assert_eq!(names, vec!["B", "a", "a_x", "b"]);
}

#[test]
fn dashes_inside_a_line_do_not_split() {
    let d = split_yaml(b"kind: K\napiVersion: v\nmetadata:\n  name: a---b\ndata:\n  note: x---y\n", "ns", false);
    assert_eq!(d.skipped.len(), 0);
    assert_eq!(d.files.len(), 1);
    assert_eq!(text(&d.files[0].name), "K_a---b.yaml");
    let v: serde_yaml::Value = serde_yaml::from_slice(&d.files[0].content).unwrap();
    assert_eq!(v.get("data").unwrap().get("note").unwrap().as_str(), Some("x---y"));
}

#[test]
fn separator_line_with_trailing_space_splits() {
    let docs = split_documents(b"a: 1\n---   \r\nb: 2\n");
    assert_eq!(docs.len(), 2);
}

#[test]
fn fields_are_kept_when_staged() {
    let d = split_yaml(
        b"apiVersion: v1\nkind: Service\nmetadata:\n  name: s\n  labels:\n    app: x\nspec:\n  ports:\n  - port: 80\n",
        "prod",
        false,
    );
    let v: serde_yaml::Value = serde_yaml::from_slice(&d.files[0].content).unwrap();
    assert_eq!(v.get("metadata").unwrap().get("labels").unwrap().get("app").unwrap().as_str(), Some("x"));
    assert_eq!(v.get("spec").unwrap().get("ports").unwrap()[0].get("port").unwrap().as_u64(), Some(80));
}

#[test]
fn no_shards_give_no_mounts() {
    let rc = generate_function_templates(&Vec::new());
    assert!(rc.volumes.is_empty());
    assert!(rc.volume_mounts.is_empty());
    assert_eq!(rc.container, "package-runtime");
}

#[test]
fn unicode_blank_lines_are_dropped() {
    let input = "a: 1\n\u{0b}\n\u{a0}\u{3000}\n\u{2028}\u{85}\u{1680}\u{2005}\u{202f}\u{205f}\u{2029}\nb: 2\u{a0}\n";
    assert_eq!(text(&clean(input.as_bytes())), "a: 1\nb: 2\u{a0}\n");
}

#[test]
fn document_of_unicode_blank_lines_is_skipped_silently() {
    let d = split_yaml("---\n\u{0b}\n\u{a0}\n---\n".as_bytes(), "ns", false);
    assert_eq!(d.files.len(), 0);
    assert_eq!(d.skipped.len(), 0);
}

#[test]
fn separator_line_with_unicode_space_splits() {
    let docs = split_documents("a: 1\n---\u{3000}\nb: 2\n".as_bytes());
    assert_eq!(docs.len(), 2);
}
