//! Reading the `template` field back out of a ConfigMap envelope.
use vstd::prelude::*;
use crate::decompose::newline;
use crate::packer::{chomp, indent, indented, indented_lines, wrap_head, wrap_mid, wrapped};
use crate::text::{ascii, occurs_at, split_on, split_scan};

verus! {

/// `s` holds no newline byte.
pub open spec fn one_line(s: Seq<u8>) -> bool {
    forall|i: int| 0 <= i < s.len() ==> s[i] != 0x0au8
}

/// The lines joined with newlines.
pub open spec fn join_lines(ls: Seq<Seq<u8>>) -> Seq<u8>
    decreases ls.len(),
{
    if ls.len() == 0 {
        Seq::empty()
    } else if ls.len() == 1 {
        ls[0]
    } else {
        ls[0] + newline() + join_lines(ls.skip(1))
    }
}

/// The value of the `template` field of an envelope: the lines after the
/// eight header lines, up to the final newline, without their indentation;
/// the header's chomping indicator says whether a final newline belongs to it.
pub open spec fn template_of(entry: Seq<u8>) -> Seq<u8> {
    let ls = split_on(entry, newline());
    let body = join_lines(ls.subrange(8, ls.len() - 1).map_values(|l: Seq<u8>| l.skip(4)));
    if ls[7].last() == 0x2bu8 {
        body + newline()
    } else {
        body
    }
}

proof fn lemma_join_push(ls: Seq<Seq<u8>>, x: Seq<u8>)
    requires
        ls.len() > 0,
    ensures
        join_lines(ls.push(x)) == join_lines(ls) + newline() + x,
    decreases ls.len(),
{
    let nl = newline();
    if ls.len() == 1 {
        assert(ls.push(x).skip(1) =~= seq![x]);
        assert(join_lines(seq![x]) == x);
        assert(join_lines(ls) == ls[0]);
        assert(join_lines(ls.push(x)) == ls[0] + nl + x);
    } else {
        assert(ls.push(x).skip(1) =~= ls.skip(1).push(x));
        lemma_join_push(ls.skip(1), x);
        assert(join_lines(ls.push(x)) == ls[0] + nl + join_lines(ls.skip(1).push(x)));
        assert(join_lines(ls.push(x)) =~= (ls[0] + nl + join_lines(ls.skip(1))) + nl + x);
    }
}

proof fn lemma_join_append(a: Seq<Seq<u8>>, b: Seq<Seq<u8>>)
    requires
        a.len() > 0,
        b.len() > 0,
    ensures
        join_lines(a + b) == join_lines(a) + newline() + join_lines(b),
    decreases a.len(),
{
    let nl = newline();
    if a.len() == 1 {
        assert((a + b).skip(1) =~= b);
        assert(join_lines(a) == a[0]);
        assert(join_lines(a + b) == a[0] + nl + join_lines(b));
    } else {
        assert((a + b).skip(1) =~= a.skip(1) + b);
        lemma_join_append(a.skip(1), b);
        assert(join_lines(a + b) == a[0] + nl + join_lines(a.skip(1) + b));
        assert(join_lines(a + b) =~= (a[0] + nl + join_lines(a.skip(1))) + nl + join_lines(b));
    }
}

/// Splitting on newlines from a piece boundary gives the pieces that are
/// still ahead, each without its newline, and joining them gives the text back.
pub(crate) proof fn lemma_split_pieces(t: Seq<u8>, start: int, pos: int)
    requires
        0 <= start <= pos <= t.len(),
        forall|k: int| start <= k < pos ==> t[k] != 0x0au8,
    ensures
        join_lines(split_scan(t, newline(), start, pos)) == t.subrange(start, t.len() as int),
        forall|i: int|
            0 <= i < split_scan(t, newline(), start, pos).len() ==> one_line(
                #[trigger] split_scan(t, newline(), start, pos)[i],
            ),
        split_scan(t, newline(), start, pos).len() >= 1,
    decreases t.len() - pos,
{
    let nl = newline();
    if pos >= t.len() || pos + nl.len() > t.len() {
    } else if occurs_at(t, nl, pos) {
        assert(t.subrange(pos, pos + 1)[0] == t[pos]);
        lemma_split_pieces(t, pos + 1, pos + 1);
        let rest = split_scan(t, nl, pos + 1, pos + 1);
        let all = split_scan(t, nl, start, pos);
        assert(all == seq![t.subrange(start, pos)] + rest);
        assert(all.skip(1) =~= rest);
        assert(t.subrange(start, t.len() as int) =~= t.subrange(start, pos) + nl + t.subrange(
            pos + 1,
            t.len() as int,
        ));
        assert forall|i: int| 0 <= i < all.len() implies one_line(#[trigger] all[i]) by {
            if i > 0 {
                assert(all[i] == rest[i - 1]);
            }
        }
    } else {
        assert(t.subrange(pos, pos + 1) =~= seq![t[pos]]);
        lemma_split_pieces(t, start, pos + 1);
    }
}

/// Splitting joined single-line pieces gives the pieces back.
proof fn lemma_split_joined(t: Seq<u8>, start: int, pos: int, ls: Seq<Seq<u8>>)
    requires
        ls.len() > 0,
        forall|i: int| 0 <= i < ls.len() ==> one_line(#[trigger] ls[i]),
        0 <= start <= pos <= start + ls[0].len(),
        start <= t.len(),
        t.subrange(start, t.len() as int) == join_lines(ls),
    ensures
        split_scan(t, newline(), start, pos) == ls,
    decreases ls.len(), t.len() - pos,
{
    let nl = newline();
    let l0 = ls[0];
    let end = start + l0.len();
    assert(t.len() >= end) by {
        if ls.len() > 1 {
            assert(join_lines(ls) == l0 + nl + join_lines(ls.skip(1)));
        } else {
            assert(join_lines(ls) == l0);
        }
    }
    assert forall|k: int| start <= k < end implies t[k] == l0[k - start] by {
        if ls.len() > 1 {
            assert(join_lines(ls) == l0 + nl + join_lines(ls.skip(1)));
        } else {
            assert(join_lines(ls) == l0);
        }
        assert(t.subrange(start, t.len() as int)[k - start] == t[k]);
    }
    if pos < end {
        assert(t[pos] != 0x0au8);
        assert(!occurs_at(t, nl, pos)) by {
            if occurs_at(t, nl, pos) {
                assert(t.subrange(pos, pos + 1)[0] == t[pos]);
            }
        }
        lemma_split_joined(t, start, pos + 1, ls);
    } else if ls.len() == 1 {
        assert(join_lines(ls) == l0);
        assert(t.len() == end);
        assert(t.subrange(start, t.len() as int) == l0);
    } else {
        let rest = ls.skip(1);
        assert(join_lines(ls) == l0 + nl + join_lines(rest));
        assert(t[end] == 0x0au8) by {
            assert(t.subrange(start, t.len() as int)[l0.len() as int] == t[end]);
        }
        assert(occurs_at(t, nl, pos)) by {
            assert(t.subrange(pos, pos + 1) =~= nl);
        }
        assert(t.subrange(end + 1, t.len() as int) =~= join_lines(rest)) by {
            assert(t.subrange(end + 1, t.len() as int) =~= t.subrange(start, t.len() as int).subrange(
                l0.len() + 1 as int,
                t.len() - start,
            ));
        }
        lemma_split_joined(t, end + 1, end + 1, rest);
        assert(t.subrange(start, pos) =~= l0);
        assert(ls =~= seq![l0] + rest);
    }
}

pub open spec fn indent_all(ls: Seq<Seq<u8>>) -> Seq<Seq<u8>> {
    ls.map_values(|l: Seq<u8>| indent() + l)
}

/// The eight header lines of an envelope.
pub open spec fn header_lines(name: Seq<u8>, ch: Seq<u8>) -> Seq<Seq<u8>> {
    seq![
        ascii("---"@),
        ascii("apiVersion: v1"@),
        ascii("kind: ConfigMap"@),
        ascii("metadata:"@),
        ascii("  name: "@) + name + ascii("-configmap"@),
        ascii("  namespace: crossplane-system"@),
        ascii("data:"@),
        ascii("  template: |2"@) + ch,
    ]
}

/// The indented lines that carry `content`.
pub open spec fn block_lines(content: Seq<u8>) -> Seq<Seq<u8>> {
    let ps = split_on(content, newline());
    indent_all(ps.drop_last()) + if ps.last().len() > 0 {
        seq![indent() + ps.last()]
    } else {
        Seq::empty()
    }
}

proof fn lemma_header_joined(name: Seq<u8>, ch: Seq<u8>)
    ensures
        join_lines(header_lines(name, ch)) == wrap_head() + name + wrap_mid() + ch,
{
    reveal_strlit("---");
    reveal_strlit("apiVersion: v1");
    reveal_strlit("kind: ConfigMap");
    reveal_strlit("metadata:");
    reveal_strlit("  name: ");
    reveal_strlit("-configmap");
    reveal_strlit("  namespace: crossplane-system");
    reveal_strlit("data:");
    reveal_strlit("  template: |2");
    reveal_strlit("---\napiVersion: v1\nkind: ConfigMap\nmetadata:\n  name: ");
    reveal_strlit("-configmap\n  namespace: crossplane-system\ndata:\n  template: |2");
    let h = header_lines(name, ch);
    let nl = newline();
    let s0 = seq![h[0]];
    assert(join_lines(s0) == h[0]);
    lemma_join_push(s0, h[1]);
    lemma_join_push(s0.push(h[1]), h[2]);
    lemma_join_push(s0.push(h[1]).push(h[2]), h[3]);
    lemma_join_push(s0.push(h[1]).push(h[2]).push(h[3]), h[4]);
    lemma_join_push(s0.push(h[1]).push(h[2]).push(h[3]).push(h[4]), h[5]);
    lemma_join_push(s0.push(h[1]).push(h[2]).push(h[3]).push(h[4]).push(h[5]), h[6]);
    lemma_join_push(s0.push(h[1]).push(h[2]).push(h[3]).push(h[4]).push(h[5]).push(h[6]), h[7]);
    assert(h =~= s0.push(h[1]).push(h[2]).push(h[3]).push(h[4]).push(h[5]).push(h[6]).push(h[7]));
    assert(wrap_head() =~= h[0] + nl + h[1] + nl + h[2] + nl + h[3] + nl + ascii("  name: "@));
    assert(wrap_mid() =~= ascii("-configmap"@) + nl + h[5] + nl + h[6] + nl + ascii("  template: |2"@));
    assert(join_lines(h) =~= wrap_head() + name + wrap_mid() + ch);
}

proof fn lemma_indented_lines_joined(ls: Seq<Seq<u8>>)
    requires
        ls.len() > 0,
    ensures
        indented_lines(ls) == join_lines(indent_all(ls)) + newline(),
    decreases ls.len(),
{
    if ls.len() == 1 {
        assert(indent_all(ls) =~= seq![indent() + ls[0]]);
        assert(indented_lines(ls.drop_last()) == Seq::<u8>::empty());
        assert(indented_lines(ls) =~= indent() + ls[0] + newline());
    } else {
        lemma_indented_lines_joined(ls.drop_last());
        assert(indent_all(ls) =~= indent_all(ls.drop_last()).push(indent() + ls.last()));
        lemma_join_push(indent_all(ls.drop_last()), indent() + ls.last());
        assert(indented_lines(ls) =~= join_lines(indent_all(ls)) + newline());
    }
}

proof fn lemma_indented_block(content: Seq<u8>)
    ensures
        indented(content) == if block_lines(content).len() == 0 {
            Seq::<u8>::empty()
        } else {
            join_lines(block_lines(content)) + newline()
        },
{
    let nl = newline();
    let ps = split_on(content, nl);
    lemma_split_pieces(content, 0, 0);
    let front = ps.drop_last();
    let last = ps.last();
    let b = block_lines(content);
    if front.len() == 0 {
        assert(indented_lines(front) == Seq::<u8>::empty());
        if last.len() > 0 {
            assert(b =~= seq![indent() + last]);
            assert(join_lines(b) == indent() + last);
            assert(indented(content) =~= join_lines(b) + nl);
        } else {
            assert(b =~= Seq::<Seq<u8>>::empty());
            assert(indented(content) =~= Seq::<u8>::empty());
        }
    } else {
        lemma_indented_lines_joined(front);
        if last.len() > 0 {
            assert(b =~= indent_all(front).push(indent() + last));
            lemma_join_push(indent_all(front), indent() + last);
            assert(indented(content) =~= join_lines(b) + nl);
        } else {
            assert(b =~= indent_all(front));
            assert(indented(content) =~= join_lines(b) + nl);
        }
    }
}

proof fn lemma_wrapped_lines(name: Seq<u8>, content: Seq<u8>)
    ensures
        wrapped(name, content) == join_lines(
            header_lines(name, chomp(content)) + block_lines(content) + seq![Seq::<u8>::empty()],
        ),
{
    let nl = newline();
    let h = header_lines(name, chomp(content));
    let b = block_lines(content);
    let e = seq![Seq::<u8>::empty()];
    lemma_header_joined(name, chomp(content));
    lemma_indented_block(content);
    assert(join_lines(e) == Seq::<u8>::empty());
    if b.len() == 0 {
        assert(h + b =~= h);
        lemma_join_append(h, e);
        assert(wrapped(name, content) =~= join_lines(h + b + e));
    } else {
        lemma_join_append(h, b);
        lemma_join_append(h + b, e);
        assert(wrapped(name, content) =~= join_lines(h + b + e));
    }
}

proof fn lemma_literal_one_line()
    ensures
        one_line(ascii("---"@)),
        one_line(ascii("apiVersion: v1"@)),
        one_line(ascii("kind: ConfigMap"@)),
        one_line(ascii("metadata:"@)),
        one_line(ascii("  name: "@)),
        one_line(ascii("-configmap"@)),
        one_line(ascii("  namespace: crossplane-system"@)),
        one_line(ascii("data:"@)),
        one_line(ascii("  template: |2"@)),
        one_line(ascii("+"@)),
        one_line(ascii("-"@)),
        one_line(indent()),
{
    reveal_strlit("---");
    reveal_strlit("apiVersion: v1");
    reveal_strlit("kind: ConfigMap");
    reveal_strlit("metadata:");
    reveal_strlit("  name: ");
    reveal_strlit("-configmap");
    reveal_strlit("  namespace: crossplane-system");
    reveal_strlit("data:");
    reveal_strlit("  template: |2");
    reveal_strlit("+");
    reveal_strlit("-");
    reveal_strlit("    ");
}

proof fn lemma_concat_one_line(a: Seq<u8>, b: Seq<u8>)
    requires
        one_line(a),
        one_line(b),
    ensures
        one_line(a + b),
{
    assert forall|i: int| 0 <= i < (a + b).len() implies (a + b)[i] != 0x0au8 by {
        if i >= a.len() {
            assert((a + b)[i] == b[i - a.len()]);
        }
    }
}

/// Wrapping a resource into a ConfigMap envelope and reading its `template`
/// field back gives the resource's bytes unchanged, for any resource name
/// that holds no newline.
pub proof fn lemma_wrap_round_trip(name: Seq<u8>, content: Seq<u8>)
    requires
        one_line(name),
    ensures
        template_of(wrapped(name, content)) == content,
{
    reveal_strlit("+");
    reveal_strlit("-");
    let nl = newline();
    let ch = chomp(content);
    let h = header_lines(name, ch);
    let b = block_lines(content);
    let e = seq![Seq::<u8>::empty()];
    let ls = h + b + e;
    let w = wrapped(name, content);
    lemma_wrapped_lines(name, content);
    let ps = split_on(content, nl);
    lemma_split_pieces(content, 0, 0);
    let front = ps.drop_last();
    let last = ps.last();
    lemma_literal_one_line();
    lemma_concat_one_line(ascii("  name: "@), name);
    lemma_concat_one_line(ascii("  name: "@) + name, ascii("-configmap"@));
    lemma_concat_one_line(ascii("  template: |2"@), ch);
    assert forall|i: int| 0 <= i < ls.len() implies one_line(#[trigger] ls[i]) by {
        if i < 8 {
            assert(ls[i] == h[i]);
        } else if i < 8 + b.len() {
            assert(ls[i] == b[i - 8]);
            let k = i - 8;
            if k < front.len() {
                assert(b[k] == indent() + front[k]);
                assert(front[k] == ps[k]);
                lemma_concat_one_line(indent(), ps[k]);
            } else {
                assert(b[k] == indent() + last);
                lemma_concat_one_line(indent(), last);
            }
        } else {
            assert(ls[i] == Seq::<u8>::empty());
        }
    }
    assert(w.subrange(0, w.len() as int) == w);
    lemma_split_joined(w, 0, 0, ls);
    assert(split_on(w, nl) == ls);
    assert(ls[7] == ascii("  template: |2"@) + ch);
    assert(ls[7].last() == ch[0]);
    let inner = ls.subrange(8, ls.len() - 1);
    assert(inner =~= b);
    let stripped = inner.map_values(|l: Seq<u8>| l.skip(4));
    assert(indent().len() == 4) by {
        reveal_strlit("    ");
    }
    if last.len() > 0 {
        assert(stripped =~= ps) by {
            assert forall|k: int| 0 <= k < ps.len() implies stripped[k] == ps[k] by {
                if k < front.len() {
                    assert(b[k] == indent() + front[k]);
                    assert((indent() + front[k]).skip(4) =~= front[k]);
                } else {
                    assert(b[k] == indent() + last);
                    assert((indent() + last).skip(4) =~= last);
                }
            }
        }
        assert(join_lines(ps) == content);
        if front.len() > 0 {
            assert(ps =~= front.push(last));
            lemma_join_push(front, last);
        } else {
            assert(ps =~= seq![last]);
        }
        assert(content.len() > 0 && content.last() == last.last());
        assert(last.last() != 0x0au8);
        assert(ch == ascii("-"@));
    } else {
        assert(stripped =~= front) by {
            assert forall|k: int| 0 <= k < front.len() implies stripped[k] == front[k] by {
                assert(b[k] == indent() + front[k]);
                assert((indent() + front[k]).skip(4) =~= front[k]);
            }
        }
        if front.len() > 0 {
            assert(ps =~= front.push(last));
            lemma_join_push(front, last);
            assert(content =~= join_lines(front) + nl);
            assert(ch == ascii("+"@));
        } else {
            assert(ps =~= seq![last]);
            assert(content == last);
            assert(ch == ascii("-"@));
        }
    }
}

} // verus!
