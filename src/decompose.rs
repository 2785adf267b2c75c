//! Splitting one tool's manifest text into cleaned single-resource documents.
use vstd::prelude::*;
use crate::text::{
    ascii, copy_range, has_prefix, has_prefix_exec, has_substring, has_substring_exec, is_blank, is_blank_exec, lit,
    push_all, split_bytes, split_on, trim_end, trim_end_len, views,
};

verus! {

pub open spec fn newline() -> Seq<u8> {
    seq![0x0au8]
}

/// The document separator.
pub open spec fn separator() -> Seq<u8> {
    ascii("---"@)
}

/// A line that ends in a newline loses one carriage return before it.
pub open spec fn line_of(pieces: Seq<Seq<u8>>, i: int) -> Seq<u8> {
    let p = pieces[i];
    if i < pieces.len() - 1 && p.len() > 0 && p.last() == 0x0du8 {
        p.drop_last()
    } else {
        p
    }
}

/// The number of lines: a final empty piece is no line.
pub open spec fn line_count(pieces: Seq<Seq<u8>>) -> int {
    if pieces.len() > 0 && pieces.last().len() == 0 {
        pieces.len() - 1
    } else {
        pieces.len() as int
    }
}

/// The lines of `text`, as `BufRead::lines` yields them.
pub open spec fn lines_of(text: Seq<u8>) -> Seq<Seq<u8>> {
    let pieces = split_on(text, newline());
    Seq::new(line_count(pieces) as nat, |i: int| line_of(pieces, i))
}

/// A line that carries content: not blank, no separator, no comment, and none of
/// the chart attribution labels.
pub open spec fn keeps_line(line: Seq<u8>) -> bool {
    let t = trim_end(line);
    &&& t.len() > 0
    &&& !has_prefix(t, separator())
    &&& !has_prefix(t, ascii("#"@))
    &&& !has_substring(t, ascii("helm.sh/chart"@))
    &&& !has_substring(t, ascii("app.kubernetes.io/managed-by"@))
}

/// The kept lines, each followed by a newline.
pub open spec fn kept_lines(lines: Seq<Seq<u8>>) -> Seq<u8>
    decreases lines.len(),
{
    if lines.len() == 0 {
        Seq::empty()
    } else {
        let prev = kept_lines(lines.drop_last());
        if keeps_line(lines.last()) {
            prev + lines.last() + newline()
        } else {
            prev
        }
    }
}

/// A document with its noise lines removed.
pub open spec fn cleaned(doc: Seq<u8>) -> Seq<u8> {
    kept_lines(lines_of(doc))
}

/// A separator line: `---` and nothing else but trailing whitespace.
pub open spec fn is_separator_line(line: Seq<u8>) -> bool {
    trim_end(line) == separator()
}

/// The finished documents and the one being gathered after `lines`, each
/// document being the kept lines between separator lines.
pub open spec fn gather(lines: Seq<Seq<u8>>) -> (Seq<Seq<u8>>, Seq<u8>)
    decreases lines.len(),
{
    if lines.len() == 0 {
        (Seq::empty(), Seq::empty())
    } else {
        let (done, cur) = gather(lines.drop_last());
        let l = lines.last();
        if is_separator_line(l) {
            (if is_blank(cur) {
                done
            } else {
                done.push(cur)
            }, Seq::empty())
        } else if keeps_line(l) {
            (done, cur + l + newline())
        } else {
            (done, cur)
        }
    }
}

/// The cleaned, non-blank documents of a manifest, split on separator lines.
pub open spec fn documents_of(text: Seq<u8>) -> Seq<Seq<u8>> {
    let (done, cur) = gather(lines_of(text));
    if is_blank(cur) {
        done
    } else {
        done.push(cur)
    }
}

fn keeps_line_exec(line: &[u8]) -> (r: bool)
    ensures
        r == keeps_line(line@),
{
    let n = trim_end_len(line);
    let t = copy_range(line, 0, n);
    proof {
        reveal_strlit("---");
        reveal_strlit("#");
        reveal_strlit("helm.sh/chart");
        reveal_strlit("app.kubernetes.io/managed-by");
    }
    n > 0 && !has_prefix_exec(t.as_slice(), lit("---")) && !has_prefix_exec(t.as_slice(), lit("#"))
        && !has_substring_exec(t.as_slice(), lit("helm.sh/chart")) && !has_substring_exec(
        t.as_slice(),
        lit("app.kubernetes.io/managed-by"),
    )
}

/// The lines of `text`, as `BufRead::lines` yields them.
pub fn split_lines(text: &[u8]) -> (r: Vec<Vec<u8>>)
    ensures
        views(r@) == lines_of(text@),
{
    let nl: Vec<u8> = vec![0x0au8];
    assert(nl@ == newline());
    let pieces = split_bytes(text, nl.as_slice());
    assert(pieces@.len() > 0 ==> views(pieces@).last() == pieces@.last()@);
    let ghost lines = lines_of(text@);
    let count: usize = if pieces.len() > 0 && pieces[pieces.len() - 1].len() == 0 {
        pieces.len() - 1
    } else {
        pieces.len()
    };
    let mut out: Vec<Vec<u8>> = Vec::new();
    let mut i: usize = 0;
    while i < count
        invariant
            i <= count,
            count == lines.len(),
            count <= pieces@.len(),
            views(pieces@) == split_on(text@, newline()),
            lines == lines_of(text@),
            views(out@) == lines.subrange(0, i as int),
        decreases count - i,
    {
        let p = &pieces[i];
        assert(p@ == views(pieces@)[i as int]);
        let len: usize = if i + 1 < pieces.len() && p.len() > 0 && p[p.len() - 1] == 0x0du8 {
            p.len() - 1
        } else {
            p.len()
        };
        let line = copy_range(p.as_slice(), 0, len);
        assert(line@ == lines[i as int]);
        let ghost before = out@;
        out.push(line);
        assert(views(out@) =~= lines.subrange(0, i + 1)) by {
            assert(views(out@) == views(before).push(line@));
        }
        i = i + 1;
    }
    assert(lines.subrange(0, count as int) == lines);
    out
}

/// Removes blank lines, comment lines, stray separators and chart attribution
/// labels from one document; each kept line ends in a newline.
pub fn clean(input: &[u8]) -> (r: Vec<u8>)
    ensures
        r@ == cleaned(input@),
{
    let lines = split_lines(input);
    let ghost ls = views(lines@);
    let mut out: Vec<u8> = Vec::new();
    let mut i: usize = 0;
    while i < lines.len()
        invariant
            i <= lines@.len(),
            ls == views(lines@),
            ls == lines_of(input@),
            out@ == kept_lines(ls.subrange(0, i as int)),
        decreases lines@.len() - i,
    {
        assert(lines@[i as int]@ == ls[i as int]);
        assert(ls.subrange(0, i + 1).drop_last() == ls.subrange(0, i as int));
        if keeps_line_exec(lines[i].as_slice()) {
            push_all(&mut out, lines[i].as_slice());
            out.push(0x0au8);
        }
        i = i + 1;
    }
    assert(ls.subrange(0, lines@.len() as int) == ls);
    out
}

/// Splits a manifest on its separator lines and cleans each document;
/// documents left with nothing but whitespace are dropped.
pub fn split_documents(text: &[u8]) -> (r: Vec<Vec<u8>>)
    ensures
        views(r@) == documents_of(text@),
{
    proof {
        reveal_strlit("---");
    }
    let sep = lit("---");
    let lines = split_lines(text);
    let ghost ls = views(lines@);
    let mut docs: Vec<Vec<u8>> = Vec::new();
    let mut cur: Vec<u8> = Vec::new();
    let mut i: usize = 0;
    while i < lines.len()
        invariant
            i <= lines@.len(),
            sep@ == separator(),
            ls == views(lines@),
            ls == lines_of(text@),
            (views(docs@), cur@) == gather(ls.subrange(0, i as int)),
        decreases lines@.len() - i,
    {
        let line = lines[i].as_slice();
        assert(line@ == ls[i as int]);
        assert(ls.subrange(0, i + 1).drop_last() == ls.subrange(0, i as int));
        let n = trim_end_len(line);
        if n == sep.len() && crate::text::occurs_at_exec(line, sep, 0) {
            assert(line@.subrange(0, n as int) =~= separator());
            if !is_blank_exec(cur.as_slice()) {
                let ghost before = docs@;
                docs.push(cur);
                assert(views(docs@) == views(before).push(cur@));
            }
            cur = Vec::new();
        } else {
            assert(!is_separator_line(line@)) by {
                if trim_end(line@) == separator() {
                    assert(line@.subrange(0, n as int) == separator());
                    assert(line@.subrange(0, 3) =~= separator());
                }
            }
            if keeps_line_exec(line) {
                push_all(&mut cur, line);
                cur.push(0x0au8);
            }
        }
        i = i + 1;
    }
    assert(ls.subrange(0, lines@.len() as int) == ls);
    if !is_blank_exec(cur.as_slice()) {
        let ghost before = docs@;
        docs.push(cur);
        assert(views(docs@) == views(before).push(cur@));
    }
    docs
}

} // verus!
