//! The singleton runtime configuration that mounts every packed ConfigMap.
use vstd::prelude::*;
use crate::manifest::{envelope_of, envelope_problem, read_document};
use crate::text::{ascii, is_blank, is_blank_exec, lit, push_all, split_bytes, split_on, string_views, views};

verus! {

/// One mount of a ConfigMap into the runtime container.
pub struct VolumeMount {
    pub mount_path: String,
    pub name: String,
    pub read_only: bool,
}

/// One volume backed by a ConfigMap.
pub struct Volume {
    pub name: String,
    pub config_map: String,
}

/// The `DeploymentRuntimeConfig` named `mount-templates`: one container with a
/// read-only mount for each ConfigMap, and the matching volumes, in order.
pub struct RuntimeConfig {
    pub api_version: String,
    pub kind: String,
    pub name: String,
    pub container: String,
    pub volume_mounts: Vec<VolumeMount>,
    pub volumes: Vec<Volume>,
}

/// The mount path of a ConfigMap.
pub open spec fn mount_path(name: Seq<char>) -> Seq<char> {
    "/templates/"@ + name
}

/// `rc` mounts exactly the ConfigMaps `names`, in order.
pub open spec fn mounts_exactly(rc: RuntimeConfig, names: Seq<Seq<char>>) -> bool {
    &&& rc.api_version@ == "pkg.crossplane.io/v1beta1"@
    &&& rc.kind@ == "DeploymentRuntimeConfig"@
    &&& rc.name@ == "mount-templates"@
    &&& rc.container@ == "package-runtime"@
    &&& rc.volume_mounts@.len() == names.len()
    &&& rc.volumes@.len() == names.len()
    &&& forall|i: int|
        0 <= i < names.len() ==> {
            &&& (#[trigger] rc.volume_mounts@[i]).mount_path@ == mount_path(names[i])
            &&& rc.volume_mounts@[i].name@ == names[i]
            &&& rc.volume_mounts@[i].read_only
            &&& rc.volumes@[i].name@ == names[i]
            &&& rc.volumes@[i].config_map@ == names[i]
        }
}

/// The runtime configuration that mounts the ConfigMaps `names`, in order.
pub fn runtime_config_for(names: &Vec<String>) -> (r: RuntimeConfig)
    ensures
        mounts_exactly(r, string_views(names@)),
{
    let mut volume_mounts: Vec<VolumeMount> = Vec::new();
    let mut volumes: Vec<Volume> = Vec::new();
    let mut i: usize = 0;
    while i < names.len()
        invariant
            i <= names@.len(),
            volume_mounts@.len() == i,
            volumes@.len() == i,
            forall|k: int|
                0 <= k < i ==> {
                    &&& (#[trigger] volume_mounts@[k]).mount_path@ == mount_path(names@[k]@)
                    &&& volume_mounts@[k].name@ == names@[k]@
                    &&& volume_mounts@[k].read_only
                    &&& volumes@[k].name@ == names@[k]@
                    &&& volumes@[k].config_map@ == names@[k]@
                },
        decreases names@.len() - i,
    {
        let name = &names[i];
        let mut path = "/templates/".to_owned();
        path.append(name.as_str());
        volume_mounts.push(VolumeMount { mount_path: path, name: name.clone(), read_only: true });
        volumes.push(Volume { name: name.clone(), config_map: name.clone() });
        i = i + 1;
    }
    RuntimeConfig {
        api_version: "pkg.crossplane.io/v1beta1".to_owned(),
        kind: "DeploymentRuntimeConfig".to_owned(),
        name: "mount-templates".to_owned(),
        container: "package-runtime".to_owned(),
        volume_mounts,
        volumes,
    }
}

pub open spec fn pair_views(s: Seq<(String, String)>) -> Seq<(Seq<char>, Seq<char>)> {
    s.map_values(|p: (String, String)| (p.0@, p.1@))
}

/// The documents of a shard: the text between separator lines.
pub open spec fn shard_pieces(shard: Seq<u8>) -> Seq<Seq<u8>> {
    split_on(seq![0x0au8] + shard, ascii("\n---\n"@))
}

/// The kind and name of each non-blank piece whose envelope reads, in order.
pub open spec fn piece_envelopes(pieces: Seq<Seq<u8>>) -> Seq<(Seq<char>, Seq<char>)>
    decreases pieces.len(),
{
    if pieces.len() == 0 {
        Seq::empty()
    } else {
        let prev = piece_envelopes(pieces.drop_last());
        let p = pieces.last();
        let e = envelope_of(p);
        let f = e->0;
        if !is_blank(p) && envelope_problem(e) is None {
            prev.push((f.0->0, f.3->0))
        } else {
            prev
        }
    }
}

/// The kind and name of every document of the shards that reads as an
/// envelope, shard by shard, in order.
pub open spec fn envelopes_in(shards: Seq<Seq<u8>>) -> Seq<(Seq<char>, Seq<char>)>
    decreases shards.len(),
{
    if shards.len() == 0 {
        Seq::empty()
    } else {
        envelopes_in(shards.drop_last()) + piece_envelopes(shard_pieces(shards.last()))
    }
}

/// The kind and name of every document of the packed shards that reads as
/// an envelope, in order.
pub fn shard_envelopes(shards: &Vec<Vec<u8>>) -> (r: Vec<(String, String)>)
    ensures
        pair_views(r@) == envelopes_in(views(shards@)),
{
    proof {
        reveal_strlit("\n---\n");
    }
    let sep = lit("\n---\n");
    let ghost sv = views(shards@);
    let mut found: Vec<(String, String)> = Vec::new();
    let mut i: usize = 0;
    while i < shards.len()
        invariant
            i <= shards@.len(),
            sv == views(shards@),
            sep@ == ascii("\n---\n"@),
            pair_views(found@) == envelopes_in(sv.subrange(0, i as int)),
        decreases shards@.len() - i,
    {
        let mut text: Vec<u8> = vec![0x0au8];
        assert(text@ =~= seq![0x0au8]);
        push_all(&mut text, shards[i].as_slice());
        assert(shards@[i as int]@ == sv[i as int]);
        assert(text@ =~= seq![0x0au8] + sv[i as int]);
        let docs = split_bytes(text.as_slice(), sep);
        let ghost pieces = views(docs@);
        assert(pieces == shard_pieces(sv[i as int]));
        assert(sv.subrange(0, i + 1).drop_last() == sv.subrange(0, i as int));
        let ghost base = pair_views(found@);
        let mut j: usize = 0;
        while j < docs.len()
            invariant
                j <= docs@.len(),
                pieces == views(docs@),
                pair_views(found@) == base + piece_envelopes(pieces.subrange(0, j as int)),
            decreases docs@.len() - j,
        {
            assert(docs@[j as int]@ == pieces[j as int]);
            assert(pieces.subrange(0, j + 1).drop_last() == pieces.subrange(0, j as int));
            if !is_blank_exec(docs[j].as_slice()) {
                if let Ok(doc) = read_document(docs[j].as_slice()) {
                    let ghost before = found@;
                    found.push((doc.kind, doc.name));
                    assert(pair_views(found@) =~= pair_views(before).push((doc.kind@, doc.name@)));
                    assert(pair_views(found@) =~= base + piece_envelopes(pieces.subrange(0, j + 1)));
                }
            }
            j = j + 1;
        }
        assert(pieces.subrange(0, docs@.len() as int) == pieces);
        assert(pair_views(found@) =~= envelopes_in(sv.subrange(0, i + 1)));
        i = i + 1;
    }
    assert(sv.subrange(0, shards@.len() as int) == sv);
    found
}

/// The names of the envelopes of kind `ConfigMap`, in order.
pub open spec fn config_map_names_of(envelopes: Seq<(Seq<char>, Seq<char>)>) -> Seq<Seq<char>>
    decreases envelopes.len(),
{
    if envelopes.len() == 0 {
        Seq::empty()
    } else {
        let prev = config_map_names_of(envelopes.drop_last());
        if envelopes.last().0 == "ConfigMap"@ {
            prev.push(envelopes.last().1)
        } else {
            prev
        }
    }
}

/// The names of the envelopes of kind `ConfigMap`, in order.
pub fn config_map_names(envelopes: &Vec<(String, String)>) -> (r: Vec<String>)
    ensures
        string_views(r@) == config_map_names_of(pair_views(envelopes@)),
{
    let config_map = "ConfigMap".to_owned();
    let ghost ev = pair_views(envelopes@);
    let mut names: Vec<String> = Vec::new();
    let mut i: usize = 0;
    while i < envelopes.len()
        invariant
            i <= envelopes@.len(),
            ev == pair_views(envelopes@),
            config_map@ == "ConfigMap"@,
            string_views(names@) == config_map_names_of(ev.subrange(0, i as int)),
        decreases envelopes@.len() - i,
    {
        assert(ev.subrange(0, i + 1).drop_last() == ev.subrange(0, i as int));
        assert(ev[i as int] == (envelopes@[i as int].0@, envelopes@[i as int].1@));
        if envelopes[i].0 == config_map {
            let ghost before = names@;
            let n = envelopes[i].1.clone();
            names.push(n);
            assert(string_views(names@) =~= string_views(before).push(n@));
        }
        i = i + 1;
    }
    assert(ev.subrange(0, envelopes@.len() as int) == ev);
    names
}

/// Derives the runtime configuration from the packed shards: one mount and
/// one volume for each ConfigMap document found, in order.
pub fn generate_function_templates(shards: &Vec<Vec<u8>>) -> (r: RuntimeConfig)
    ensures
        mounts_exactly(r, config_map_names_of(envelopes_in(views(shards@)))),
{
    let envelopes = shard_envelopes(shards);
    let names = config_map_names(&envelopes);
    runtime_config_for(&names)
}

} // verus!
