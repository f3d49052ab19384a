//! Outer attributes on mapping blocks and their entries.
//!
//! An attribute is a `#` and a bracketed group: two tokens. Doc comments
//! are attributes whose path is the single word `doc`.

use vstd::prelude::*;
use crate::diagnostic::{Entry, Problem};
use crate::token::{render, rendered, same_text, Token};

verus! {

/// Whether an attribute's path is that of a doc comment.
pub open spec fn doc_path(path: Seq<Seq<char>>) -> bool {
    path.len() == 1 && path[0] == "doc"@
}

/// The source text of the `i`-th of the attributes that start at `pos`.
pub open spec fn attribute_text(tokens: Seq<Token>, pos: int, i: int) -> Seq<char> {
    rendered(tokens.subrange(pos + 2 * i, pos + 2 * i + 2))
}

/// The source texts of the `count` attributes that start at `pos`.
pub open spec fn attribute_texts(tokens: Seq<Token>, pos: int, count: int) -> Seq<Seq<char>>
    recommends
        0 <= count,
{
    Seq::new(count as nat, |i: int| attribute_text(tokens, pos, i))
}

/// The source texts of the doc comments among the first `k` of the
/// attributes that start at `pos`, whose paths are `paths`.
pub open spec fn docs_among(tokens: Seq<Token>, pos: int, paths: Seq<Seq<Seq<char>>>, k: int)
    -> Seq<Seq<char>>
    decreases k,
{
    if k <= 0 {
        Seq::empty()
    } else {
        let before = docs_among(tokens, pos, paths, k - 1);
        if doc_path(paths[k - 1]) {
            before.push(attribute_text(tokens, pos, k - 1))
        } else {
            before
        }
    }
}

/// One entry for each of the first `k` attributes that is no doc comment,
/// at the attribute's `#`.
pub open spec fn strays_among(tokens: Seq<Token>, pos: int, paths: Seq<Seq<Seq<char>>>, k: int)
    -> Seq<Entry>
    decreases k,
{
    if k <= 0 {
        Seq::empty()
    } else {
        let before = strays_among(tokens, pos, paths, k - 1);
        if doc_path(paths[k - 1]) {
            before
        } else {
            before.push(
                Entry {
                    span: tokens[pos + 2 * (k - 1)].spec_span(),
                    problem: Problem::UnexpectedAttribute,
                },
            )
        }
    }
}

/// The texts of a sequence of strings.
pub open spec fn texts(v: Seq<String>) -> Seq<Seq<char>> {
    Seq::new(v.len(), |i: int| v[i]@)
}

/// Whether `path` is the path of a doc comment.
pub fn is_doc(path: &Vec<String>) -> (r: bool)
    ensures
        r == doc_path(path.deep_view()),
{
    proof {
        assert(path.deep_view().len() == path.len());
        if path.len() == 1 {
            assert(path.deep_view()[0] == path[0]@);
        }
    }
    path.len() == 1 && same_text(&path[0], "doc")
}

/// Renders the `count` attributes that start at `pos`, one text each.
pub fn render_attributes(tokens: &Vec<Token>, pos: usize, count: usize) -> (r: Vec<String>)
    requires
        pos + 2 * count <= tokens.len(),
    ensures
        texts(r@) == attribute_texts(tokens@, pos as int, count as int),
{
    let mut out: Vec<String> = Vec::new();
    let mut i: usize = 0;
    while i < count
        invariant
            i <= count,
            pos + 2 * count <= tokens.len(),
            out@.len() == i,
            texts(out@) =~= attribute_texts(tokens@, pos as int, i as int),
        decreases count - i,
    {
        let ghost before = out@;
        let text = render(tokens, pos + 2 * i, pos + 2 * i + 2);
        let ghost last = text@;
        out.push(text);
        proof {
            assert(last == attribute_text(tokens@, pos as int, i as int));
            assert forall|j: int| 0 <= j < i + 1 implies #[trigger] texts(out@)[j]
                == attribute_texts(tokens@, pos as int, i + 1)[j] by {
                if j < i {
                    assert(out@[j] == before[j]);
                    assert(texts(before)[j] == attribute_texts(tokens@, pos as int, i as int)[j]);
                }
            }
        }
        i = i + 1;
    }
    out
}

/// Sorts the attributes that start at `pos`, whose paths are `paths`: the
/// doc comments are returned as source text, and each other attribute is
/// reported to `notes`.
pub fn sort_attributes(
    tokens: &Vec<Token>,
    pos: usize,
    paths: &Vec<Vec<String>>,
    notes: &mut Vec<Entry>,
) -> (docs: Vec<String>)
    requires
        pos + 2 * paths.len() <= tokens.len(),
    ensures
        texts(docs@) == docs_among(tokens@, pos as int, paths.deep_view(), paths.len() as int),
        final(notes)@ == old(notes)@ + strays_among(
            tokens@,
            pos as int,
            paths.deep_view(),
            paths.len() as int,
        ),
{
    let ghost start = notes@;
    let ghost all = paths.deep_view();
    let mut docs: Vec<String> = Vec::new();
    let mut k: usize = 0;
    proof {
        assert(all.len() == paths.len());
        assert(start + strays_among(tokens@, pos as int, all, 0) =~= start);
    }
    while k < paths.len()
        invariant
            k <= paths.len(),
            all == paths.deep_view(),
            all.len() == paths.len(),
            pos + 2 * paths.len() <= tokens.len(),
            texts(docs@) =~= docs_among(tokens@, pos as int, all, k as int),
            notes@ == start + strays_among(tokens@, pos as int, all, k as int),
        decreases paths.len() - k,
    {
        let ghost before = strays_among(tokens@, pos as int, all, k as int);
        proof {
            assert(all[k as int] == paths[k as int].deep_view());
        }
        if is_doc(&paths[k]) {
            let text = render(tokens, pos + 2 * k, pos + 2 * k + 2);
            docs.push(text);
        } else {
            let entry = Entry { span: tokens[pos + 2 * k].span(), problem: Problem::UnexpectedAttribute };
            notes.push(entry);
            proof {
                assert(notes@ =~= start + before.push(entry));
            }
        }
        k = k + 1;
    }
    docs
}

} // verus!
