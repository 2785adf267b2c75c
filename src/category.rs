//! The fixed category taxonomy and the content-level hook filter.
use vstd::prelude::*;
use crate::text::{ascii, has_substring, has_substring_exec, lit};

verus! {

/// The six categories, in classification precedence.
#[derive(Clone, Copy, Debug, PartialEq, Eq, Structural)]
pub enum Category {
    ConfigMap,
    CustomResourceDefinition,
    Namespace,
    ExternalSecret,
    Secret,
    Object,
}

/// All categories, in precedence order.
pub open spec fn all_categories() -> Seq<Category> {
    seq![
        Category::ConfigMap,
        Category::CustomResourceDefinition,
        Category::Namespace,
        Category::ExternalSecret,
        Category::Secret,
        Category::Object,
    ]
}

/// The category of a staged file: the first kind name contained in the file
/// name wins, and anything else is an object.
pub open spec fn category_of(file_name: Seq<u8>) -> Category {
    if has_substring(file_name, ascii("ConfigMap"@)) {
        Category::ConfigMap
    } else if has_substring(file_name, ascii("CustomResourceDefinition"@)) {
        Category::CustomResourceDefinition
    } else if has_substring(file_name, ascii("Namespace"@)) {
        Category::Namespace
    } else if has_substring(file_name, ascii("ExternalSecret"@)) {
        Category::ExternalSecret
    } else if has_substring(file_name, ascii("Secret"@)) {
        Category::Secret
    } else {
        Category::Object
    }
}

/// The lower-case label that starts a shard's file name.
pub open spec fn label_of(c: Category) -> Seq<u8> {
    match c {
        Category::ConfigMap => ascii("configmap"@),
        Category::CustomResourceDefinition => ascii("crd"@),
        Category::Namespace => ascii("namespace"@),
        Category::ExternalSecret => ascii("externalsecret"@),
        Category::Secret => ascii("secret"@),
        Category::Object => ascii("object"@),
    }
}

/// The marker of a lifecycle hook.
pub open spec fn hook_marker() -> Seq<u8> {
    ascii("helm.sh/hook"@)
}

/// Content that carries the lifecycle-hook marker is never packaged.
pub open spec fn is_hook(content: Seq<u8>) -> bool {
    has_substring(content, hook_marker())
}

/// Maps a staged file name to its category.
pub fn classify(file_name: &[u8]) -> (r: Category)
    ensures
        r == category_of(file_name@),
{
    proof {
        reveal_strlit("ConfigMap");
        reveal_strlit("CustomResourceDefinition");
        reveal_strlit("Namespace");
        reveal_strlit("ExternalSecret");
        reveal_strlit("Secret");
    }
    if has_substring_exec(file_name, lit("ConfigMap")) {
        Category::ConfigMap
    } else if has_substring_exec(file_name, lit("CustomResourceDefinition")) {
        Category::CustomResourceDefinition
    } else if has_substring_exec(file_name, lit("Namespace")) {
        Category::Namespace
    } else if has_substring_exec(file_name, lit("ExternalSecret")) {
        Category::ExternalSecret
    } else if has_substring_exec(file_name, lit("Secret")) {
        Category::Secret
    } else {
        Category::Object
    }
}

impl Category {
    /// The label that starts the file name of this category's shards.
    pub fn label(&self) -> (r: &'static [u8])
        ensures
            r@ == label_of(*self),
    {
        proof {
            reveal_strlit("configmap");
            reveal_strlit("crd");
            reveal_strlit("namespace");
            reveal_strlit("externalsecret");
            reveal_strlit("secret");
            reveal_strlit("object");
        }
        match self {
            Category::ConfigMap => lit("configmap"),
            Category::CustomResourceDefinition => lit("crd"),
            Category::Namespace => lit("namespace"),
            Category::ExternalSecret => lit("externalsecret"),
            Category::Secret => lit("secret"),
            Category::Object => lit("object"),
        }
    }
}

/// Whether a staged file must be left out of packaging: its content carries the
/// lifecycle-hook marker.
pub fn should_skip_file(content: &[u8]) -> (r: bool)
    ensures
        r == is_hook(content@),
{
    proof {
        reveal_strlit("helm.sh/hook");
    }
    has_substring_exec(content, lit("helm.sh/hook"))
}

/// Every file name falls in exactly one category.
pub proof fn lemma_classification_total(file_name: Seq<u8>)
    ensures
        all_categories().contains(category_of(file_name)),
        forall|i: int, j: int|
            0 <= i < j < all_categories().len() ==> all_categories()[i] != all_categories()[j],
{
    let c = category_of(file_name);
    let all = all_categories();
    assert(all[0] == Category::ConfigMap);
    assert(all[1] == Category::CustomResourceDefinition);
    assert(all[2] == Category::Namespace);
    assert(all[3] == Category::ExternalSecret);
    assert(all[4] == Category::Secret);
    assert(all[5] == Category::Object);
    let k: int = match c {
        Category::ConfigMap => 0,
        Category::CustomResourceDefinition => 1,
        Category::Namespace => 2,
        Category::ExternalSecret => 3,
        Category::Secret => 4,
        Category::Object => 5,
    };
    assert(all[k] == c);
}

} // verus!
