//! The hook marker never reaches the bytes of a shard.
use vstd::prelude::*;
use crate::category::{all_categories, hook_marker, is_hook, Category};
use crate::decompose::{newline, separator};
use crate::packer::{
    category_frames, chomp, frame, indent, indented, indented_lines, packed, packed_upto, resource_name,
    roll, shards_of, stem, tagged, underscore_from, wrap_head, wrap_mid, wrapped, ShardModel,
};
use crate::template::{join_lines, lemma_split_pieces};
use crate::text::{ascii, has_substring, occurs_at, split_on};

verus! {

/// No byte of `s` is `b`.
pub open spec fn lacks_byte(s: Seq<u8>, b: u8) -> bool {
    forall|i: int| 0 <= i < s.len() ==> s[i] != b
}

proof fn lemma_marker_bytes()
    ensures
        hook_marker().len() == 12,
        hook_marker()[0] == 0x68u8,
        lacks_byte(hook_marker(), 0x20u8),
        lacks_byte(hook_marker(), 0x2du8),
        lacks_byte(hook_marker(), 0x0au8),
        lacks_byte(hook_marker(), 0x2bu8),
{
    reveal_strlit("helm.sh/hook");
}

/// Text without the marker's first byte cannot hold the marker.
proof fn lemma_no_first_byte(s: Seq<u8>)
    requires
        lacks_byte(s, 0x68u8),
    ensures
        !has_substring(s, hook_marker()),
{
    lemma_marker_bytes();
    let m = hook_marker();
    assert forall|i: int| !occurs_at(s, m, i) by {
        if occurs_at(s, m, i) {
            assert(s.subrange(i, i + m.len())[0] == s[i]);
        }
    }
}

/// Joining two marker-free texts at a byte that the marker lacks gives a
/// marker-free text.
proof fn lemma_join_clear(a: Seq<u8>, b: Seq<u8>)
    requires
        !has_substring(a, hook_marker()),
        !has_substring(b, hook_marker()),
        (a.len() > 0 && lacks_byte(hook_marker(), a.last())) || (b.len() > 0 && lacks_byte(
            hook_marker(),
            b[0],
        )),
    ensures
        !has_substring(a + b, hook_marker()),
{
    lemma_marker_bytes();
    let m = hook_marker();
    let t = a + b;
    assert forall|i: int| !occurs_at(t, m, i) by {
        if occurs_at(t, m, i) {
            if i + m.len() <= a.len() {
                assert(a.subrange(i, i + m.len()) =~= t.subrange(i, i + m.len()));
                assert(occurs_at(a, m, i));
            } else if i >= a.len() {
                assert(b.subrange(i - a.len(), i - a.len() + m.len()) =~= t.subrange(i, i + m.len()));
                assert(occurs_at(b, m, i - a.len()));
            } else if a.len() > 0 && lacks_byte(m, a.last()) {
                assert(t.subrange(i, i + m.len())[a.len() - 1 - i] == a.last());
            } else {
                assert(t.subrange(i, i + m.len())[a.len() - i] == b[0]);
            }
        }
    }
}

/// A marker in part of a text is a marker in the text.
proof fn lemma_part_holds(s: Seq<u8>, from: int, to: int)
    requires
        0 <= from <= to <= s.len(),
        has_substring(s.subrange(from, to), hook_marker()),
    ensures
        has_substring(s, hook_marker()),
{
    let m = hook_marker();
    let p = s.subrange(from, to);
    let i = choose|i: int| occurs_at(p, m, i);
    assert(s.subrange(from + i, from + i + m.len()) =~= p.subrange(i, i + m.len()));
    assert(occurs_at(s, m, from + i));
}

proof fn lemma_literals_clear()
    ensures
        !has_substring(wrap_head(), hook_marker()),
        !has_substring(wrap_mid(), hook_marker()),
        !has_substring(ascii("+"@), hook_marker()),
        !has_substring(ascii("-"@), hook_marker()),
        !has_substring(separator(), hook_marker()),
        !has_substring(newline(), hook_marker()),
        !has_substring(indent(), hook_marker()),
        wrap_head().len() > 0 && wrap_head()[0] == 0x2du8 && wrap_head().last() == 0x20u8,
        wrap_mid().len() > 0 && wrap_mid()[0] == 0x2du8,
        separator().len() > 0 && separator()[0] == 0x2du8,
        indent().len() > 0 && indent()[0] == 0x20u8 && indent().last() == 0x20u8,
{
    reveal_strlit("---\napiVersion: v1\nkind: ConfigMap\nmetadata:\n  name: ");
    reveal_strlit("-configmap\n  namespace: crossplane-system\ndata:\n  template: |2");
    reveal_strlit("+");
    reveal_strlit("-");
    reveal_strlit("---");
    reveal_strlit("    ");
    lemma_no_first_byte(wrap_head());
    lemma_no_first_byte(wrap_mid());
    lemma_no_first_byte(ascii("+"@));
    lemma_no_first_byte(ascii("-"@));
    lemma_no_first_byte(separator());
    lemma_no_first_byte(newline());
    lemma_no_first_byte(indent());
}

proof fn lemma_lines_clear(ls: Seq<Seq<u8>>)
    requires
        !has_substring(join_lines(ls), hook_marker()),
    ensures
        forall|i: int| 0 <= i < ls.len() ==> !has_substring(#[trigger] ls[i], hook_marker()),
    decreases ls.len(),
{
    if ls.len() == 1 {
        assert(join_lines(ls) == ls[0]);
    } else if ls.len() > 1 {
        let j = join_lines(ls);
        let rest = ls.skip(1);
        assert(j == ls[0] + newline() + join_lines(rest));
        assert(j.subrange(0, ls[0].len() as int) =~= ls[0]);
        assert(j.subrange(ls[0].len() + 1int, j.len() as int) =~= join_lines(rest));
        if has_substring(ls[0], hook_marker()) {
            lemma_part_holds(j, 0, ls[0].len() as int);
        }
        if has_substring(join_lines(rest), hook_marker()) {
            lemma_part_holds(j, ls[0].len() + 1int, j.len() as int);
        }
        lemma_lines_clear(rest);
        assert forall|i: int| 0 <= i < ls.len() implies !has_substring(#[trigger] ls[i], hook_marker()) by {
            if i > 0 {
                assert(ls[i] == rest[i - 1]);
            }
        }
    }
}

proof fn lemma_indented_lines_clear(ls: Seq<Seq<u8>>)
    requires
        forall|i: int| 0 <= i < ls.len() ==> !has_substring(#[trigger] ls[i], hook_marker()),
    ensures
        !has_substring(indented_lines(ls), hook_marker()),
    decreases ls.len(),
{
    lemma_literals_clear();
    lemma_marker_bytes();
    if ls.len() == 0 {
        lemma_no_first_byte(Seq::<u8>::empty());
    } else {
        let prev = indented_lines(ls.drop_last());
        lemma_indented_lines_clear(ls.drop_last());
        let l = ls.last();
        assert(!has_substring(l, hook_marker()));
        lemma_join_clear(prev, indent());
        lemma_join_clear(prev + indent(), l);
        lemma_join_clear(prev + indent() + l, newline());
    }
}

proof fn lemma_indented_clear(content: Seq<u8>)
    requires
        !has_substring(content, hook_marker()),
    ensures
        !has_substring(indented(content), hook_marker()),
{
    lemma_literals_clear();
    lemma_marker_bytes();
    let ps = split_on(content, newline());
    lemma_split_pieces(content, 0, 0);
    assert(content.subrange(0, content.len() as int) =~= content);
    lemma_lines_clear(ps);
    let front = ps.drop_last();
    assert forall|i: int| 0 <= i < front.len() implies !has_substring(#[trigger] front[i], hook_marker()) by {
        assert(front[i] == ps[i]);
    }
    lemma_indented_lines_clear(front);
    let last = ps.last();
    if last.len() > 0 {
        lemma_join_clear(indent(), last);
        lemma_join_clear(indent() + last, newline());
        lemma_join_clear(indented_lines(front), indent() + last + newline());
        assert(indented(content) == indented_lines(front) + (indent() + last + newline()));
    } else {
        assert(indented(content) =~= indented_lines(front));
    }
}

proof fn lemma_frame_clear(c: Category, file_name: Seq<u8>, content: Seq<u8>)
    requires
        !has_substring(content, hook_marker()),
        !has_substring(resource_name(file_name), hook_marker()),
    ensures
        !has_substring(frame(c, file_name, content), hook_marker()),
        frame(c, file_name, content).len() > 0 && frame(c, file_name, content)[0] == 0x2du8,
{
    lemma_literals_clear();
    lemma_marker_bytes();
    if c == Category::ConfigMap {
        let name = resource_name(file_name);
        let ch = chomp(content);
        reveal_strlit("+");
        reveal_strlit("-");
        lemma_join_clear(wrap_head(), name);
        lemma_join_clear(wrap_head() + name, wrap_mid());
        lemma_join_clear(wrap_head() + name + wrap_mid(), ch);
        lemma_join_clear(wrap_head() + name + wrap_mid() + ch, newline());
        lemma_indented_clear(content);
        let w = wrap_head() + name + wrap_mid() + ch + newline();
        if indented(content).len() > 0 {
            lemma_join_clear(w, indented(content));
        } else {
            assert(w + indented(content) =~= w);
        }
        assert(wrapped(name, content) == w + indented(content));
    } else {
        lemma_join_clear(separator(), newline());
        lemma_join_clear(separator() + newline(), content);
        lemma_join_clear(separator() + newline() + content, newline());
    }
}

proof fn lemma_underscore_range(s: Seq<u8>, i: int)
    requires
        0 <= i,
    ensures
        underscore_from(s, i) == -1 || i <= underscore_from(s, i) < s.len(),
    decreases s.len() - i,
{
    if i < s.len() && s[i] != 0x5fu8 {
        lemma_underscore_range(s, i + 1);
    }
}

proof fn lemma_resource_name_clear(file_name: Seq<u8>)
    requires
        !has_substring(file_name, hook_marker()),
    ensures
        !has_substring(resource_name(file_name), hook_marker()),
{
    let st = stem(file_name);
    if st != file_name {
        if has_substring(st, hook_marker()) {
            lemma_part_holds(file_name, 0, st.len() as int);
        }
    }
    lemma_underscore_range(st, 0);
    let k = underscore_from(st, 0);
    if k >= 0 {
        if has_substring(st.subrange(k + 1, st.len() as int), hook_marker()) {
            lemma_part_holds(st, k + 1, st.len() as int);
        }
    }
}

/// Every frame packed for category `c` is free of the marker and starts with
/// a separator dash.
proof fn lemma_category_frames_clear(entries: Seq<(Seq<u8>, Seq<u8>)>, c: Category)
    requires
        forall|i: int| 0 <= i < entries.len() ==> !has_substring(#[trigger] entries[i].0, hook_marker()),
    ensures
        forall|i: int|
            0 <= i < category_frames(entries, c).len() ==> !has_substring(
                #[trigger] category_frames(entries, c)[i],
                hook_marker(),
            ) && category_frames(entries, c)[i].len() > 0 && category_frames(entries, c)[i][0] == 0x2du8,
    decreases entries.len(),
{
    if entries.len() > 0 {
        let init = entries.drop_last();
        assert forall|i: int| 0 <= i < init.len() implies !has_substring(#[trigger] init[i].0, hook_marker()) by {
            assert(init[i] == entries[i]);
        }
        lemma_category_frames_clear(init, c);
        let e = entries.last();
        let prev = category_frames(init, c);
        let all = category_frames(entries, c);
        if !is_hook(e.1) && crate::category::category_of(e.0) == c {
            lemma_resource_name_clear(e.0);
            lemma_frame_clear(c, e.0, e.1);
            assert forall|i: int| 0 <= i < all.len() implies !has_substring(#[trigger] all[i], hook_marker())
                && all[i].len() > 0 && all[i][0] == 0x2du8 by {
                if i < prev.len() {
                    assert(all[i] == prev[i]);
                }
            }
        }
    }
}

proof fn lemma_roll_clear(frames: Seq<Seq<u8>>)
    requires
        forall|i: int|
            0 <= i < frames.len() ==> !has_substring(#[trigger] frames[i], hook_marker()) && frames[i].len()
                > 0 && frames[i][0] == 0x2du8,
    ensures
        forall|i: int| 0 <= i < roll(frames).0.len() ==> !has_substring(#[trigger] roll(frames).0[i].1, hook_marker()),
        !has_substring(roll(frames).1 .1, hook_marker()),
    decreases frames.len(),
{
    lemma_marker_bytes();
    if frames.len() == 0 {
        lemma_no_first_byte(Seq::<u8>::empty());
    } else {
        let init = frames.drop_last();
        assert forall|i: int| 0 <= i < init.len() implies !has_substring(#[trigger] init[i], hook_marker())
            && init[i].len() > 0 && init[i][0] == 0x2du8 by {
            assert(init[i] == frames[i]);
        }
        lemma_roll_clear(init);
        let (sealed, open) = roll(init);
        let f = frames.last();
        lemma_join_clear(open.1, f);
        let r = roll(frames);
        assert forall|i: int| 0 <= i < r.0.len() implies !has_substring(#[trigger] r.0[i].1, hook_marker()) by {
            if i < sealed.len() {
                assert(r.0[i] == sealed[i]);
            }
        }
    }
}

/// No shard holds the hook marker anywhere in its bytes, as long as no staged
/// file name holds it: resources that carry it are left out, and the framing
/// around the others cannot form it.
pub proof fn lemma_no_hook_leakage(entries: Seq<(Seq<u8>, Seq<u8>)>)
    requires
        forall|i: int| 0 <= i < entries.len() ==> !has_substring(#[trigger] entries[i].0, hook_marker()),
    ensures
        forall|i: int| 0 <= i < packed(entries).len() ==> !is_hook(#[trigger] packed(entries)[i].2),
{
    lemma_packed_upto_clear(entries, 6);
}

proof fn lemma_packed_upto_clear(entries: Seq<(Seq<u8>, Seq<u8>)>, k: int)
    requires
        forall|i: int| 0 <= i < entries.len() ==> !has_substring(#[trigger] entries[i].0, hook_marker()),
    ensures
        forall|i: int| 0 <= i < packed_upto(entries, k).len() ==> !is_hook(#[trigger] packed_upto(entries, k)[i].2),
    decreases k,
{
    if k > 0 {
        lemma_packed_upto_clear(entries, k - 1);
        let c = all_categories()[k - 1];
        let frames = category_frames(entries, c);
        lemma_category_frames_clear(entries, c);
        lemma_roll_clear(frames);
        let sh: Seq<ShardModel> = shards_of(frames);
        let prev = packed_upto(entries, k - 1);
        let t = tagged(c, sh);
        assert(packed_upto(entries, k) == prev + t);
        assert forall|i: int| 0 <= i < packed_upto(entries, k).len() implies !is_hook(
            #[trigger] packed_upto(entries, k)[i].2,
        ) by {
            if i >= prev.len() {
                let j = i - prev.len();
                assert(packed_upto(entries, k)[i] == t[j]);
                assert(t[j].2 == sh[j].1);
                if j < roll(frames).0.len() {
                    assert(sh[j] == roll(frames).0[j]);
                }
            } else {
                assert(packed_upto(entries, k)[i] == prev[i]);
            }
        }
    }
}

} // verus!
