//! Size-bounded shard packing of classified resources, with the ConfigMap
//! template envelope.
use vstd::prelude::*;
use crate::category::{all_categories, category_of, classify, is_hook, label_of, should_skip_file, Category};
use crate::decompose::{newline, separator};
use crate::order::{in_name_order, sort_by_name};
use crate::text::{
    ascii, copy_range, decimal, has_suffix, lit, push_all, push_decimal, split_bytes, split_on, views,
};

verus! {

/// The soft cap on a shard's size, checked before each append.
pub const MAX_SHARD_BYTES: usize = 300 * 1024;

/// One staged resource file: its name `{kind}_{name}.yaml` and its content.
pub struct StagedFile {
    pub name: Vec<u8>,
    pub content: Vec<u8>,
}

impl View for StagedFile {
    type V = (Seq<u8>, Seq<u8>);

    open spec fn view(&self) -> (Seq<u8>, Seq<u8>) {
        (self.name@, self.content@)
    }
}

/// One output shard of a tool: its category, its index (from 1), its bytes and
/// the number of resources in it.
pub struct Shard {
    pub category: Category,
    pub index: usize,
    pub content: Vec<u8>,
    pub resources: usize,
}

/// A shard of one category: index, content, number of resources.
pub type ShardModel = (nat, Seq<u8>, nat);

impl View for Shard {
    type V = (Category, nat, Seq<u8>, nat);

    open spec fn view(&self) -> (Category, nat, Seq<u8>, nat) {
        (self.category, self.index as nat, self.content@, self.resources as nat)
    }
}

pub open spec fn entry_views(s: Seq<StagedFile>) -> Seq<(Seq<u8>, Seq<u8>)> {
    s.map_values(|e: StagedFile| e@)
}

pub open spec fn shard_views(s: Seq<Shard>) -> Seq<(Category, nat, Seq<u8>, nat)> {
    s.map_values(|e: Shard| e@)
}

pub open spec fn indent() -> Seq<u8> {
    ascii("    "@)
}

/// Each line indented and ended by a newline.
pub open spec fn indented_lines(lines: Seq<Seq<u8>>) -> Seq<u8>
    decreases lines.len(),
{
    if lines.len() == 0 {
        Seq::empty()
    } else {
        indented_lines(lines.drop_last()) + indent() + lines.last() + newline()
    }
}

/// `content` as the body of an indented literal block: every line indented,
/// and a final line without newline given one.
pub open spec fn indented(content: Seq<u8>) -> Seq<u8> {
    let pieces = split_on(content, newline());
    indented_lines(pieces.drop_last()) + if pieces.last().len() > 0 {
        indent() + pieces.last() + newline()
    } else {
        Seq::empty()
    }
}

/// The chomping indicator that keeps the block's value equal to `content`:
/// keep the trailing newlines, or strip the one that the block adds.
pub open spec fn chomp(content: Seq<u8>) -> Seq<u8> {
    if content.len() > 0 && content.last() == 0x0au8 {
        ascii("+"@)
    } else {
        ascii("-"@)
    }
}

pub open spec fn wrap_head() -> Seq<u8> {
    ascii("---\napiVersion: v1\nkind: ConfigMap\nmetadata:\n  name: "@)
}

pub open spec fn wrap_mid() -> Seq<u8> {
    ascii("-configmap\n  namespace: crossplane-system\ndata:\n  template: |2"@)
}

/// A synthetic ConfigMap `{name}-configmap` whose `template` key holds
/// `content` as a literal block.
pub open spec fn wrapped(name: Seq<u8>, content: Seq<u8>) -> Seq<u8> {
    wrap_head() + name + wrap_mid() + chomp(content) + newline() + indented(content)
}

/// The position of the first underscore at or after `i`, or -1.
pub open spec fn underscore_from(s: Seq<u8>, i: int) -> int
    decreases s.len() - i,
{
    if i < 0 || i >= s.len() {
        -1
    } else if s[i] == 0x5fu8 {
        i
    } else {
        underscore_from(s, i + 1)
    }
}

/// The file name without one `.yaml` suffix.
pub open spec fn stem(file_name: Seq<u8>) -> Seq<u8> {
    let sfx = ascii(".yaml"@);
    if has_suffix(file_name, sfx) {
        file_name.subrange(0, file_name.len() - sfx.len())
    } else {
        file_name
    }
}

/// The resource name in a staged file name `{kind}_{name}.yaml`.
pub open spec fn resource_name(file_name: Seq<u8>) -> Seq<u8> {
    let s = stem(file_name);
    let k = underscore_from(s, 0);
    if k < 0 {
        s
    } else {
        s.subrange(k + 1, s.len() as int)
    }
}

/// What is appended to a shard for one resource: ConfigMaps go in their
/// envelope, anything else follows a document separator.
pub open spec fn frame(c: Category, file_name: Seq<u8>, content: Seq<u8>) -> Seq<u8> {
    if c == Category::ConfigMap {
        wrapped(resource_name(file_name), content)
    } else {
        separator() + newline() + content + newline()
    }
}

/// The frames of the non-hook entries of category `c`, in order.
pub open spec fn category_frames(entries: Seq<(Seq<u8>, Seq<u8>)>, c: Category) -> Seq<Seq<u8>>
    decreases entries.len(),
{
    if entries.len() == 0 {
        Seq::empty()
    } else {
        let prev = category_frames(entries.drop_last(), c);
        let e = entries.last();
        if !is_hook(e.1) && category_of(e.0) == c {
            prev.push(frame(c, e.0, e.1))
        } else {
            prev
        }
    }
}

/// The sealed shards and the open shard after appending `frames` in order: a
/// frame that would take the open shard over the cap opens the next index.
pub open spec fn roll(frames: Seq<Seq<u8>>) -> (Seq<ShardModel>, ShardModel)
    decreases frames.len(),
{
    if frames.len() == 0 {
        (Seq::empty(), (1nat, Seq::empty(), 0nat))
    } else {
        let (sealed, open) = roll(frames.drop_last());
        let f = frames.last();
        if open.1.len() + f.len() > MAX_SHARD_BYTES {
            (if open.2 > 0 {
                sealed.push(open)
            } else {
                sealed
            }, (open.0 + 1, f, 1nat))
        } else {
            (sealed, (open.0, open.1 + f, open.2 + 1))
        }
    }
}

/// The shards that hold at least one resource.
pub open spec fn shards_of(frames: Seq<Seq<u8>>) -> Seq<ShardModel> {
    let (sealed, open) = roll(frames);
    if open.2 > 0 {
        sealed.push(open)
    } else {
        sealed
    }
}

pub open spec fn tagged(c: Category, shards: Seq<ShardModel>) -> Seq<(Category, nat, Seq<u8>, nat)> {
    shards.map_values(|s: ShardModel| (c, s.0, s.1, s.2))
}

/// The shards of the first `k` categories, category by category.
pub open spec fn packed_upto(entries: Seq<(Seq<u8>, Seq<u8>)>, k: int) -> Seq<
    (Category, nat, Seq<u8>, nat),
>
    decreases k,
{
    if k <= 0 {
        Seq::empty()
    } else {
        let c = all_categories()[k - 1];
        packed_upto(entries, k - 1) + tagged(c, shards_of(category_frames(entries, c)))
    }
}

/// All shards of one tool's staged files.
pub open spec fn packed(entries: Seq<(Seq<u8>, Seq<u8>)>) -> Seq<(Category, nat, Seq<u8>, nat)> {
    packed_upto(entries, 6)
}

/// The file name `{label}-{tool}-{index}.yaml` of a shard.
pub open spec fn shard_name(tool: Seq<u8>, c: Category, index: nat) -> Seq<u8> {
    label_of(c) + ascii("-"@) + tool + ascii("-"@) + decimal(index) + ascii(".yaml"@)
}

/// A split always yields at least one piece.
pub proof fn lemma_split_nonempty(text: Seq<u8>, sep: Seq<u8>, start: int, pos: int)
    ensures
        crate::text::split_scan(text, sep, start, pos).len() >= 1,
    decreases text.len() - pos,
{
    if pos < 0 || pos >= text.len() || pos + sep.len() > text.len() || sep.len() == 0 {
    } else if crate::text::occurs_at(text, sep, pos) {
        lemma_split_nonempty(text, sep, pos + sep.len(), pos + sep.len());
    } else {
        lemma_split_nonempty(text, sep, start, pos + 1);
    }
}

/// The resource name in a staged file name `{kind}_{name}.yaml`.
pub fn resource_name_of(file_name: &[u8]) -> (r: Vec<u8>)
    ensures
        r@ == resource_name(file_name@),
{
    proof {
        reveal_strlit(".yaml");
    }
    let sfx = lit(".yaml");
    let n = file_name.len();
    let end: usize = if n >= sfx.len() && crate::text::occurs_at_exec(file_name, sfx, n - sfx.len()) {
        n - sfx.len()
    } else {
        n
    };
    let st = copy_range(file_name, 0, end);
    assert(st@ == stem(file_name@));
    let mut i: usize = 0;
    while i < st.len() && st[i] != 0x5fu8
        invariant
            i <= st@.len(),
            underscore_from(st@, 0) == underscore_from(st@, i as int),
        decreases st@.len() - i,
    {
        i = i + 1;
    }
    if i == st.len() {
        st
    } else {
        copy_range(st.as_slice(), i + 1, st.len())
    }
}

/// Appends `content` as an indented literal block body.
fn push_indented(out: &mut Vec<u8>, content: &[u8])
    ensures
        final(out)@ == old(out)@ + indented(content@),
{
    let nl: Vec<u8> = vec![0x0au8];
    assert(nl@ == newline());
    proof {
        reveal_strlit("    ");
        lemma_split_nonempty(content@, newline(), 0, 0);
    }
    let pieces = split_bytes(content, nl.as_slice());
    let ghost ps = views(pieces@);
    let last = pieces.len() - 1;
    let ghost start = out@;
    let ind = lit("    ");
    let mut i: usize = 0;
    while i < last
        invariant
            ind@ == indent(),
            i <= last,
            last == pieces@.len() - 1,
            ps == views(pieces@),
            out@ == start + indented_lines(ps.drop_last().subrange(0, i as int)),
        decreases last - i,
    {
        assert(ps[i as int] == pieces@[i as int]@);
        assert(ps.drop_last().subrange(0, i + 1).drop_last() == ps.drop_last().subrange(0, i as int));
        push_all(out, ind);
        push_all(out, pieces[i].as_slice());
        out.push(0x0au8);
        i = i + 1;
    }
    assert(ps.drop_last().subrange(0, last as int) == ps.drop_last());
    assert(ps.last() == pieces@[last as int]@);
    if pieces[last].len() > 0 {
        push_all(out, ind);
        push_all(out, pieces[last].as_slice());
        out.push(0x0au8);
    }
    assert(out@ =~= start + indented(content@));
}

/// Wraps a resource into a synthetic ConfigMap `{name}-configmap` in the
/// system namespace, whose `template` key holds the content as a literal block.
/// Read back line by line (see `template::template_of`) the block gives the
/// content byte for byte. A YAML parser gives the same bytes as long as the
/// content holds no line break other than LF (no lone CR, U+0085, U+2028 or
/// U+2029) and no control character other than tab; the YAML that serde_yaml
/// writes for a staged resource holds none of these.
pub fn wrap_config_map(name: &[u8], content: &[u8]) -> (r: Vec<u8>)
    ensures
        r@ == wrapped(name@, content@),
{
    proof {
        reveal_strlit("---\napiVersion: v1\nkind: ConfigMap\nmetadata:\n  name: ");
        reveal_strlit("-configmap\n  namespace: crossplane-system\ndata:\n  template: |2");
        reveal_strlit("+");
        reveal_strlit("-");
    }
    let mut r: Vec<u8> = Vec::new();
    push_all(&mut r, lit("---\napiVersion: v1\nkind: ConfigMap\nmetadata:\n  name: "));
    push_all(&mut r, name);
    push_all(&mut r, lit("-configmap\n  namespace: crossplane-system\ndata:\n  template: |2"));
    if content.len() > 0 && content[content.len() - 1] == 0x0au8 {
        push_all(&mut r, lit("+"));
    } else {
        push_all(&mut r, lit("-"));
    }
    r.push(0x0au8);
    push_indented(&mut r, content);
    assert(r@ =~= wrapped(name@, content@));
    r
}

/// The bytes appended to a shard of category `c` for one staged file.
pub fn frame_of(c: Category, file_name: &[u8], content: &[u8]) -> (r: Vec<u8>)
    ensures
        r@ == frame(c, file_name@, content@),
{
    if c == Category::ConfigMap {
        let name = resource_name_of(file_name);
        wrap_config_map(name.as_slice(), content)
    } else {
        proof {
            reveal_strlit("---");
        }
        let mut r: Vec<u8> = Vec::new();
        push_all(&mut r, lit("---"));
        r.push(0x0au8);
        push_all(&mut r, content);
        r.push(0x0au8);
        assert(r@ =~= frame(c, file_name@, content@));
        r
    }
}

/// Appends the shards of category `c` to `out`.
fn pack_category(entries: &Vec<StagedFile>, c: Category, out: &mut Vec<Shard>)
    requires
        entries@.len() < usize::MAX,
    ensures
        shard_views(final(out)@) == shard_views(old(out)@) + tagged(
            c,
            shards_of(category_frames(entry_views(entries@), c)),
        ),
{
    let ghost ev = entry_views(entries@);
    let ghost base = shard_views(out@);
    let mut index: usize = 1;
    let mut content: Vec<u8> = Vec::new();
    let mut resources: usize = 0;
    let mut i: usize = 0;
    while i < entries.len()
        invariant
            i <= entries@.len() < usize::MAX,
            ev == entry_views(entries@),
            shard_views(out@) == base + tagged(c, roll(category_frames(ev.subrange(0, i as int), c)).0),
            roll(category_frames(ev.subrange(0, i as int), c)).1 == (
                index as nat,
                content@,
                resources as nat,
            ),
            1 <= index <= i + 1,
            resources <= i,
        decreases entries@.len() - i,
    {
        let ghost prev = category_frames(ev.subrange(0, i as int), c);
        let ghost sealed = roll(prev).0;
        let e = &entries[i];
        assert(ev[i as int] == e@);
        assert(ev.subrange(0, i + 1).drop_last() == ev.subrange(0, i as int));
        if !should_skip_file(e.content.as_slice()) && classify(e.name.as_slice()) == c {
            let f = frame_of(c, e.name.as_slice(), e.content.as_slice());
            assert(category_frames(ev.subrange(0, i + 1), c).drop_last() == prev);
            if content.len() > MAX_SHARD_BYTES || f.len() > MAX_SHARD_BYTES - content.len() {
                if resources > 0 {
                    let ghost before = out@;
                    let sh = Shard { category: c, index, content, resources };
                    out.push(sh);
                    assert(shard_views(out@) == shard_views(before).push(sh@));
                    assert(tagged(c, sealed.push(roll(prev).1)) == tagged(c, sealed).push(
                        (c, index as nat, sh.content@, resources as nat),
                    ));
                    assert(shard_views(out@) =~= base + tagged(c, sealed.push(roll(prev).1)));
                }
                index = index + 1;
                content = f;
                resources = 1;
            } else {
                push_all(&mut content, f.as_slice());
                resources = resources + 1;
            }
        } else {
            assert(category_frames(ev.subrange(0, i + 1), c) == prev);
        }
        i = i + 1;
    }
    assert(ev.subrange(0, entries@.len() as int) == ev);
    let ghost all = category_frames(ev, c);
    if resources > 0 {
        let ghost before = out@;
        let sh = Shard { category: c, index, content, resources };
        out.push(sh);
        assert(shard_views(out@) == shard_views(before).push(sh@));
        assert(tagged(c, roll(all).0.push(roll(all).1)) == tagged(c, roll(all).0).push(
            (c, index as nat, sh.content@, resources as nat),
        ));
        assert(shard_views(out@) =~= base + tagged(c, shards_of(all)));
    } else {
        assert(shard_views(out@) =~= base + tagged(c, shards_of(all)));
    }
}

/// Packs staged files, in the order given, into shards, category by category
/// in precedence order. Files whose content carries the hook marker are left
/// out; a ConfigMap goes in its template envelope; a shard takes the next
/// resource unless that would take it over `MAX_SHARD_BYTES`, in which case
/// the next index is opened. Only shards that hold a resource are returned.
pub fn pack_in_order(entries: &Vec<StagedFile>) -> (r: Vec<Shard>)
    requires
        entries@.len() < usize::MAX,
    ensures
        shard_views(r@) == packed(entry_views(entries@)),
{
    let mut out: Vec<Shard> = Vec::new();
    let ghost ev = entry_views(entries@);
    assert(shard_views(out@) =~= packed_upto(ev, 0));
    pack_category(entries, Category::ConfigMap, &mut out);
    assert(shard_views(out@) == packed_upto(ev, 1));
    pack_category(entries, Category::CustomResourceDefinition, &mut out);
    assert(shard_views(out@) == packed_upto(ev, 2));
    pack_category(entries, Category::Namespace, &mut out);
    assert(shard_views(out@) == packed_upto(ev, 3));
    pack_category(entries, Category::ExternalSecret, &mut out);
    assert(shard_views(out@) == packed_upto(ev, 4));
    pack_category(entries, Category::Secret, &mut out);
    assert(shard_views(out@) == packed_upto(ev, 5));
    pack_category(entries, Category::Object, &mut out);
    assert(shard_views(out@) == packed_upto(ev, 6));
    out
}

/// Packs one tool's staged files: they are put in name order first, so the
/// shards do not depend on the order in which the files were found.
pub fn create_crossplane_object(entries: Vec<StagedFile>) -> (r: Vec<Shard>)
    requires
        entries@.len() < usize::MAX,
    ensures
        exists|x: Seq<(Seq<u8>, Seq<u8>)>|
            in_name_order(x, entry_views(entries@)) && shard_views(r@) == #[trigger] packed(x),
{
    let ghost ev = entry_views(entries@);
    let sorted = sort_by_name(entries);
    proof {
        broadcast use vstd::seq_lib::group_to_multiset_ensures;

        assert(entry_views(sorted@).len() == entry_views(sorted@).to_multiset().len());
        assert(ev.len() == ev.to_multiset().len());
    }
    pack_in_order(&sorted)
}

impl Shard {
    /// The file name `{label}-{tool}-{index}.yaml` of this shard.
    pub fn file_name(&self, tool: &[u8]) -> (r: Vec<u8>)
        ensures
            r@ == shard_name(tool@, self.category, self.index as nat),
    {
        proof {
            reveal_strlit("-");
            reveal_strlit(".yaml");
        }
        let mut r: Vec<u8> = Vec::new();
        push_all(&mut r, self.category.label());
        push_all(&mut r, lit("-"));
        push_all(&mut r, tool);
        push_all(&mut r, lit("-"));
        push_decimal(&mut r, self.index);
        push_all(&mut r, lit(".yaml"));
        assert(r@ =~= shard_name(tool@, self.category, self.index as nat));
        r
    }
}

/// A shard within the cap, or one that holds a single resource.
pub open spec fn within_cap(size: nat, resources: nat) -> bool {
    size <= MAX_SHARD_BYTES || resources == 1
}

proof fn lemma_roll_within_cap(frames: Seq<Seq<u8>>)
    ensures
        forall|i: int|
            0 <= i < roll(frames).0.len() ==> #[trigger] roll(frames).0[i].2 >= 1 && within_cap(
                roll(frames).0[i].1.len(),
                roll(frames).0[i].2,
            ),
        within_cap(roll(frames).1 .1.len(), roll(frames).1 .2),
    decreases frames.len(),
{
    if frames.len() > 0 {
        lemma_roll_within_cap(frames.drop_last());
    }
}

/// Every shard that packing produces holds at least one resource, and is at
/// most `MAX_SHARD_BYTES` long unless it holds exactly one resource.
pub proof fn lemma_shards_within_cap(entries: Seq<(Seq<u8>, Seq<u8>)>)
    ensures
        forall|i: int|
            0 <= i < packed(entries).len() ==> #[trigger] packed(entries)[i].3 >= 1 && within_cap(
                packed(entries)[i].2.len(),
                packed(entries)[i].3,
            ),
{
    lemma_packed_upto_within_cap(entries, 6);
}

proof fn lemma_packed_upto_within_cap(entries: Seq<(Seq<u8>, Seq<u8>)>, k: int)
    ensures
        forall|i: int|
            0 <= i < packed_upto(entries, k).len() ==> #[trigger] packed_upto(entries, k)[i].3 >= 1
                && within_cap(packed_upto(entries, k)[i].2.len(), packed_upto(entries, k)[i].3),
    decreases k,
{
    if k > 0 {
        lemma_packed_upto_within_cap(entries, k - 1);
        let c = all_categories()[k - 1];
        let frames = category_frames(entries, c);
        lemma_roll_within_cap(frames);
        let sh = shards_of(frames);
        assert forall|i: int| 0 <= i < sh.len() implies #[trigger] sh[i].2 >= 1 && within_cap(
            sh[i].1.len(),
            sh[i].2,
        ) by {
            if i < roll(frames).0.len() {
                assert(sh[i] == roll(frames).0[i]);
            }
        }
        let prev = packed_upto(entries, k - 1);
        let t = tagged(c, sh);
        assert(packed_upto(entries, k) == prev + t);
        assert forall|i: int| 0 <= i < packed_upto(entries, k).len() implies #[trigger] packed_upto(
            entries,
            k,
        )[i].3 >= 1 && within_cap(packed_upto(entries, k)[i].2.len(), packed_upto(entries, k)[i].3) by {
            if i >= prev.len() {
                assert(packed_upto(entries, k)[i] == t[i - prev.len()]);
                assert(t[i - prev.len()].3 == sh[i - prev.len()].2);
            } else {
                assert(packed_upto(entries, k)[i] == prev[i]);
            }
        }
    }
}

/// The staged files whose content does not carry the hook marker, in order.
pub open spec fn without_hooks(entries: Seq<(Seq<u8>, Seq<u8>)>) -> Seq<(Seq<u8>, Seq<u8>)>
    decreases entries.len(),
{
    if entries.len() == 0 {
        Seq::empty()
    } else {
        let prev = without_hooks(entries.drop_last());
        if is_hook(entries.last().1) {
            prev
        } else {
            prev.push(entries.last())
        }
    }
}

proof fn lemma_frames_without_hooks(entries: Seq<(Seq<u8>, Seq<u8>)>, c: Category)
    ensures
        category_frames(entries, c) == category_frames(without_hooks(entries), c),
    decreases entries.len(),
{
    if entries.len() > 0 {
        lemma_frames_without_hooks(entries.drop_last(), c);
        let w = without_hooks(entries);
        if !is_hook(entries.last().1) {
            assert(w.drop_last() == without_hooks(entries.drop_last()));
        }
    }
}

proof fn lemma_packed_upto_without_hooks(entries: Seq<(Seq<u8>, Seq<u8>)>, k: int)
    ensures
        packed_upto(entries, k) == packed_upto(without_hooks(entries), k),
    decreases k,
{
    if k > 0 {
        lemma_packed_upto_without_hooks(entries, k - 1);
        lemma_frames_without_hooks(entries, all_categories()[k - 1]);
    }
}

/// Files that carry the hook marker leave no trace in the output: packing all
/// staged files gives exactly the shards of packing only those without it.
pub proof fn lemma_hooks_never_packed(entries: Seq<(Seq<u8>, Seq<u8>)>)
    ensures
        packed(entries) == packed(without_hooks(entries)),
        forall|i: int| 0 <= i < without_hooks(entries).len() ==> !is_hook(#[trigger] without_hooks(entries)[i].1),
{
    lemma_packed_upto_without_hooks(entries, 6);
    lemma_without_hooks_clean(entries);
}

proof fn lemma_without_hooks_clean(entries: Seq<(Seq<u8>, Seq<u8>)>)
    ensures
        forall|i: int| 0 <= i < without_hooks(entries).len() ==> !is_hook(#[trigger] without_hooks(entries)[i].1),
    decreases entries.len(),
{
    if entries.len() > 0 {
        lemma_without_hooks_clean(entries.drop_last());
        let prev = without_hooks(entries.drop_last());
        let w = without_hooks(entries);
        assert forall|i: int| 0 <= i < w.len() implies !is_hook(#[trigger] w[i].1) by {
            if i < prev.len() {
                assert(w[i] == prev[i]);
            }
        }
    }
}

/// The frames end to end.
pub open spec fn concat_all(frames: Seq<Seq<u8>>) -> Seq<u8>
    decreases frames.len(),
{
    if frames.len() == 0 {
        Seq::empty()
    } else {
        concat_all(frames.drop_last()) + frames.last()
    }
}

/// The shards' contents end to end.
pub open spec fn shard_bytes(shards: Seq<ShardModel>) -> Seq<u8>
    decreases shards.len(),
{
    if shards.len() == 0 {
        Seq::empty()
    } else {
        shard_bytes(shards.drop_last()) + shards.last().1
    }
}

/// The number of resources in the shards.
pub open spec fn shard_count(shards: Seq<ShardModel>) -> nat
    decreases shards.len(),
{
    if shards.len() == 0 {
        0
    } else {
        shard_count(shards.drop_last()) + shards.last().2
    }
}

proof fn lemma_roll_partition(frames: Seq<Seq<u8>>)
    ensures
        shard_bytes(roll(frames).0) + roll(frames).1 .1 == concat_all(frames),
        shard_count(roll(frames).0) + roll(frames).1 .2 == frames.len(),
        roll(frames).1 .2 == 0 ==> roll(frames).1 .1.len() == 0,
    decreases frames.len(),
{
    if frames.len() == 0 {
        assert(shard_bytes(Seq::<ShardModel>::empty()) + Seq::<u8>::empty() =~= Seq::<u8>::empty());
    } else {
        let init = frames.drop_last();
        lemma_roll_partition(init);
        let (sealed, open) = roll(init);
        let f = frames.last();
        if open.1.len() + f.len() > MAX_SHARD_BYTES {
            if open.2 > 0 {
                assert(sealed.push(open).drop_last() == sealed);
                assert(shard_bytes(sealed.push(open)) + f =~= shard_bytes(sealed) + open.1 + f);
            } else {
                assert(shard_bytes(sealed) + f =~= shard_bytes(sealed) + open.1 + f);
            }
        } else {
            assert(shard_bytes(sealed) + (open.1 + f) =~= shard_bytes(sealed) + open.1 + f);
        }
    }
}

/// The shards of one category hold its frames end to end, in order, each
/// frame once: their contents put together are the frames put together, and
/// they count one resource per frame.
pub proof fn lemma_shards_partition_frames(frames: Seq<Seq<u8>>)
    ensures
        shard_bytes(shards_of(frames)) == concat_all(frames),
        shard_count(shards_of(frames)) == frames.len(),
{
    lemma_roll_partition(frames);
    let (sealed, open) = roll(frames);
    if open.2 > 0 {
        assert(sealed.push(open).drop_last() == sealed);
    } else {
        assert(shard_bytes(sealed) + open.1 =~= shard_bytes(sealed));
    }
}

/// The number of frames over all categories.
pub open spec fn frame_total(entries: Seq<(Seq<u8>, Seq<u8>)>) -> nat {
    category_frames(entries, Category::ConfigMap).len() + category_frames(
        entries,
        Category::CustomResourceDefinition,
    ).len() + category_frames(entries, Category::Namespace).len() + category_frames(
        entries,
        Category::ExternalSecret,
    ).len() + category_frames(entries, Category::Secret).len() + category_frames(
        entries,
        Category::Object,
    ).len()
}

proof fn lemma_frame_total(entries: Seq<(Seq<u8>, Seq<u8>)>)
    ensures
        frame_total(entries) == without_hooks(entries).len(),
    decreases entries.len(),
{
    if entries.len() > 0 {
        lemma_frame_total(entries.drop_last());
    }
}

/// Each staged file without the hook marker lands in exactly one shard: it
/// gives one frame, in the frames of its own category only, and the shards of
/// each category hold that category's frames end to end, each once.
pub proof fn lemma_each_resource_in_one_shard(entries: Seq<(Seq<u8>, Seq<u8>)>)
    ensures
        frame_total(entries) == without_hooks(entries).len(),
        forall|c: Category|
            #![trigger category_frames(entries, c)]
            shard_bytes(shards_of(category_frames(entries, c))) == concat_all(category_frames(entries, c))
                && shard_count(shards_of(category_frames(entries, c))) == category_frames(entries, c).len(),
{
    lemma_frame_total(entries);
    assert forall|c: Category|
        #![trigger category_frames(entries, c)]
        shard_bytes(shards_of(category_frames(entries, c))) == concat_all(category_frames(entries, c))
            && shard_count(shards_of(category_frames(entries, c))) == category_frames(entries, c).len() by {
        lemma_shards_partition_frames(category_frames(entries, c));
    }
}

} // verus!
