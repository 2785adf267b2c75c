//! Reading the minimal envelope of one resource document and writing it back
//! with its namespace settled. The YAML itself is read and written by serde_yaml.
use vstd::prelude::*;
use crate::decompose::{documents_of, split_documents};
use crate::packer::{entry_views, StagedFile};
use crate::text::{ascii, copy_range, lit, push_all, views};

verus! {

/// The envelope serde_yaml reads from a document: `None` unless it is a
/// mapping; else `kind`, `apiVersion` when they are strings, whether
/// `metadata` is a mapping, and its `name` and `namespace` when they are
/// strings.
pub uninterp spec fn envelope_of(text: Seq<u8>) -> Option<
    (Option<Seq<char>>, Option<Seq<char>>, bool, Option<Seq<char>>, Option<Seq<char>>),
>;

/// The YAML serde_yaml writes for the mapping read from a document, with
/// `metadata.namespace` set when a namespace is given; `None` when the
/// document is not a mapping or cannot be written.
pub uninterp spec fn rendered_of(text: Seq<u8>, namespace: Option<Seq<char>>) -> Option<Seq<char>>;

pub open spec fn opt_view(o: Option<String>) -> Option<Seq<char>> {
    match o {
        Some(s) => Some(s@),
        None => None,
    }
}

pub open spec fn envelope_view(
    e: Option<(Option<String>, Option<String>, bool, Option<String>, Option<String>)>,
) -> Option<(Option<Seq<char>>, Option<Seq<char>>, bool, Option<Seq<char>>, Option<Seq<char>>)> {
    match e {
        Some(f) => Some((opt_view(f.0), opt_view(f.1), f.2, opt_view(f.3), opt_view(f.4))),
        None => None,
    }
}

/// Relies on serde_yaml::from_slice, `Mapping::get` and `Value::as_str` /
/// `as_mapping`: reads one document as a mapping and takes out the envelope
/// fields that are strings.
#[verifier::external_body]
fn read_envelope(text: &[u8]) -> (r: Option<
    (Option<String>, Option<String>, bool, Option<String>, Option<String>),
>)
    ensures
        envelope_view(r) == envelope_of(text@),
{
    let m: serde_yaml::Mapping = serde_yaml::from_slice(text).ok()?;
    let meta = m.get("metadata").and_then(serde_yaml::Value::as_mapping);
    let field = |v: Option<&serde_yaml::Value>| v.and_then(serde_yaml::Value::as_str).map(str::to_owned);
    Some((
        field(m.get("kind")),
        field(m.get("apiVersion")),
        meta.is_some(),
        field(meta.and_then(|x| x.get("name"))),
        field(meta.and_then(|x| x.get("namespace"))),
    ))
}

/// Relies on serde_yaml::from_slice, `Mapping::insert` and serde_yaml::to_string:
/// reads one document as a mapping, sets `metadata.namespace` when a
/// namespace is given and `metadata` is a mapping, and writes it back.
#[verifier::external_body]
fn render_yaml(text: &[u8], namespace: &Option<String>) -> (r: Option<String>)
    ensures
        opt_view(r) == rendered_of(text@, opt_view(*namespace)),
{
    let mut m: serde_yaml::Mapping = serde_yaml::from_slice(text).ok()?;
    let meta = m.get_mut("metadata").and_then(serde_yaml::Value::as_mapping_mut);
    namespace.as_deref().zip(meta).map(|(ns, meta)| meta.insert("namespace".into(), ns.into()));
    serde_yaml::to_string(&m).ok()
}

/// One resource: the fields that packaging reads, and the document text they
/// were read from, so that no field is lost when it is written back.
pub struct ResourceDocument {
    pub kind: String,
    pub api_version: String,
    pub name: String,
    pub namespace: Option<String>,
    pub text: Vec<u8>,
}

/// Why one document was skipped.
#[derive(Clone, Copy, Debug, PartialEq, Eq, Structural)]
pub enum DocumentError {
    /// Not a YAML mapping.
    Syntax,
    MissingKind,
    MissingApiVersion,
    MissingMetadata,
    MissingName,
    /// `metadata.name` is the empty string.
    EmptyName,
    /// The document could not be written back.
    Render,
}

/// What keeps an envelope from being read, checked field by field.
pub open spec fn envelope_problem(
    e: Option<(Option<Seq<char>>, Option<Seq<char>>, bool, Option<Seq<char>>, Option<Seq<char>>)>,
) -> Option<DocumentError> {
    match e {
        None => Some(DocumentError::Syntax),
        Some(f) => if f.0 is None {
            Some(DocumentError::MissingKind)
        } else if f.1 is None {
            Some(DocumentError::MissingApiVersion)
        } else if !f.2 {
            Some(DocumentError::MissingMetadata)
        } else if f.3 is None {
            Some(DocumentError::MissingName)
        } else {
            None
        },
    }
}

/// `doc` holds the envelope read from `text`.
pub open spec fn reads_as(doc: ResourceDocument, text: Seq<u8>) -> bool {
    let f = envelope_of(text)->0;
    &&& doc.kind@ == f.0->0
    &&& doc.api_version@ == f.1->0
    &&& doc.name@ == f.3->0
    &&& opt_view(doc.namespace) == f.4
    &&& doc.text@ == text
}

/// Reads the minimal envelope of one document: `kind`, `apiVersion` and
/// `metadata.name` must be strings; `metadata.namespace` is kept when it is one.
pub fn read_document(text: &[u8]) -> (r: Result<ResourceDocument, DocumentError>)
    ensures
        r is Err <==> envelope_problem(envelope_of(text@)) is Some,
        r is Err ==> r->Err_0 == envelope_problem(envelope_of(text@))->0,
        r is Ok ==> reads_as(r->Ok_0, text@),
{
    let (kind, api_version, has_metadata, name, namespace) = match read_envelope(text) {
        Some(f) => f,
        None => return Err(DocumentError::Syntax),
    };
    let kind = match kind {
        Some(k) => k,
        None => return Err(DocumentError::MissingKind),
    };
    let api_version = match api_version {
        Some(a) => a,
        None => return Err(DocumentError::MissingApiVersion),
    };
    if !has_metadata {
        return Err(DocumentError::MissingMetadata);
    }
    let name = match name {
        Some(n) => n,
        None => return Err(DocumentError::MissingName),
    };
    let copy = copy_range(text, 0, text.len());
    assert(copy@ =~= text@);
    Ok(ResourceDocument { kind, api_version, name, namespace, text: copy })
}

/// The UTF-8 bytes of a text.
pub open spec fn utf8(s: Seq<char>) -> Seq<u8> {
    vstd::utf8::encode_utf8(s)
}

/// The namespace a resource carries once staged: a missing or empty one takes
/// the tool's namespace, unless the tool's source is trusted to carry its own.
pub open spec fn settled_namespace(ns: Option<Seq<char>>, tool_ns: Seq<char>, trusted: bool) -> Option<
    Seq<char>,
> {
    if !trusted && (ns is None || ns->0.len() == 0) {
        Some(tool_ns)
    } else {
        ns
    }
}

/// A resource with no namespace, or an empty one, staged for a tool whose
/// source is not an authored file, carries the tool's namespace; one that names
/// its own namespace keeps it.
pub proof fn lemma_namespace_defaulting(ns: Option<Seq<char>>, tool_ns: Seq<char>)
    ensures
        (ns is None || ns->0.len() == 0) ==> settled_namespace(ns, tool_ns, false) == Some(tool_ns),
        (ns is Some && ns->0.len() > 0) ==> settled_namespace(ns, tool_ns, false) == ns,
{
}

/// The staging file name `{kind}_{name}.yaml`.
pub open spec fn staged_name(kind: Seq<char>, name: Seq<char>) -> Seq<u8> {
    utf8(kind) + ascii("_"@) + utf8(name) + ascii(".yaml"@)
}

/// A copy of the UTF-8 bytes of `s`.
pub fn bytes_of(s: &str) -> (r: Vec<u8>)
    ensures
        r@ == utf8(s@),
{
    let b = s.as_bytes();
    copy_range(b, 0, b.len())
}

/// Settles the namespace of a resource and gives its staging file name; a
/// resource with an empty name is refused.
pub fn stage(doc: &mut ResourceDocument, tool_ns: &str, trusted: bool) -> (r: Result<
    Vec<u8>,
    DocumentError,
>)
    ensures
        r is Err <==> old(doc).name@.len() == 0,
        r is Err ==> r->Err_0 == DocumentError::EmptyName,
        r is Ok ==> r->Ok_0@ == staged_name(old(doc).kind@, old(doc).name@),
        r is Ok ==> opt_view(final(doc).namespace) == settled_namespace(
            opt_view(old(doc).namespace),
            tool_ns@,
            trusted,
        ),
        final(doc).kind == old(doc).kind,
        final(doc).api_version == old(doc).api_version,
        final(doc).name == old(doc).name,
        final(doc).text == old(doc).text,
{
    if doc.name.as_str().is_empty() {
        return Err(DocumentError::EmptyName);
    }
    let missing = match &doc.namespace {
        Some(ns) => ns.as_str().is_empty(),
        None => true,
    };
    if !trusted && missing {
        doc.namespace = Some(tool_ns.to_owned());
    }
    proof {
        reveal_strlit("_");
        reveal_strlit(".yaml");
    }
    let mut r = bytes_of(doc.kind.as_str());
    push_all(&mut r, lit("_"));
    let name = bytes_of(doc.name.as_str());
    push_all(&mut r, name.as_slice());
    push_all(&mut r, lit(".yaml"));
    assert(r@ =~= staged_name(doc.kind@, doc.name@));
    Ok(r)
}

/// Writes a resource back as YAML, with its namespace in its metadata.
pub fn render_document(doc: ResourceDocument) -> (r: Result<Vec<u8>, DocumentError>)
    ensures
        r is Ok <==> rendered_of(doc.text@, opt_view(doc.namespace)) is Some,
        r is Ok ==> r->Ok_0@ == utf8(rendered_of(doc.text@, opt_view(doc.namespace))->0),
        r is Err ==> r->Err_0 == DocumentError::Render,
{
    match render_yaml(doc.text.as_slice(), &doc.namespace) {
        Some(s) => Ok(bytes_of(s.as_str())),
        None => Err(DocumentError::Render),
    }
}

/// What one cleaned document gives: its staging file name and content, or
/// why it is skipped.
pub open spec fn decomposed(text: Seq<u8>, tool_ns: Seq<char>, trusted: bool) -> Result<
    (Seq<u8>, Seq<u8>),
    DocumentError,
> {
    let e = envelope_of(text);
    match envelope_problem(e) {
        Some(p) => Err(p),
        None => {
            let f = e->0;
            if f.3->0.len() == 0 {
                Err(DocumentError::EmptyName)
            } else {
                match rendered_of(text, settled_namespace(f.4, tool_ns, trusted)) {
                    Some(out) => Ok((staged_name(f.0->0, f.3->0), utf8(out))),
                    None => Err(DocumentError::Render),
                }
            }
        },
    }
}

/// Turns one cleaned document into a staging file: its envelope is read, a
/// resource without a name is refused, the namespace is settled, and the
/// resource is written back.
pub fn decompose_document(text: &[u8], tool_ns: &str, trusted: bool) -> (r: Result<
    StagedFile,
    DocumentError,
>)
    ensures
        r is Ok <==> decomposed(text@, tool_ns@, trusted) is Ok,
        r is Ok ==> r->Ok_0@ == decomposed(text@, tool_ns@, trusted)->Ok_0,
        r is Err ==> r->Err_0 == decomposed(text@, tool_ns@, trusted)->Err_0,
{
    let mut doc = match read_document(text) {
        Ok(d) => d,
        Err(e) => return Err(e),
    };
    let file_name = match stage(&mut doc, tool_ns, trusted) {
        Ok(n) => n,
        Err(e) => return Err(e),
    };
    let content = match render_document(doc) {
        Ok(c) => c,
        Err(e) => return Err(e),
    };
    Ok(StagedFile { name: file_name, content })
}

/// The staging files and the skips of a sequence of cleaned documents, in
/// order; a skip carries the document's position.
pub open spec fn decomposition_of(docs: Seq<Seq<u8>>, tool_ns: Seq<char>, trusted: bool) -> (
    Seq<(Seq<u8>, Seq<u8>)>,
    Seq<(usize, DocumentError)>,
)
    decreases docs.len(),
{
    if docs.len() == 0 {
        (Seq::empty(), Seq::empty())
    } else {
        let (files, skipped) = decomposition_of(docs.drop_last(), tool_ns, trusted);
        match decomposed(docs.last(), tool_ns, trusted) {
            Ok(f) => (files.push(f), skipped),
            Err(e) => (files, skipped.push(((docs.len() - 1) as usize, e))),
        }
    }
}

/// What decomposing one tool's manifest gave: the staging files in document
/// order, and for each skipped document its position among the cleaned
/// documents and the reason.
pub struct Decomposition {
    pub files: Vec<StagedFile>,
    pub skipped: Vec<(usize, DocumentError)>,
}

/// Decomposes one tool's manifest text into staging files. Each cleaned,
/// non-blank document gives one file or one skip; a document that cannot be
/// read never stops the others.
pub fn split_yaml(text: &[u8], tool_ns: &str, trusted: bool) -> (r: Decomposition)
    ensures
        (entry_views(r.files@), r.skipped@) == decomposition_of(documents_of(text@), tool_ns@, trusted),
{
    let docs = split_documents(text);
    let ghost dv = views(docs@);
    let mut files: Vec<StagedFile> = Vec::new();
    let mut skipped: Vec<(usize, DocumentError)> = Vec::new();
    let mut i: usize = 0;
    while i < docs.len()
        invariant
            i <= docs@.len(),
            dv == views(docs@),
            dv == documents_of(text@),
            (entry_views(files@), skipped@) == decomposition_of(dv.subrange(0, i as int), tool_ns@, trusted),
        decreases docs@.len() - i,
    {
        assert(docs@[i as int]@ == dv[i as int]);
        assert(dv.subrange(0, i + 1).drop_last() == dv.subrange(0, i as int));
        match decompose_document(docs[i].as_slice(), tool_ns, trusted) {
            Ok(f) => {
                let ghost before = files@;
                files.push(f);
                assert(entry_views(files@) == entry_views(before).push(f@));
            },
            Err(e) => skipped.push((i, e)),
        }
        i = i + 1;
    }
    assert(dv.subrange(0, docs@.len() as int) == dv);
    Decomposition { files, skipped }
}

} // verus!
