//! Documents with a block of metadata in front.
//!
//! The block stands between two `---` markers, the first at the very start.

use crate::text::{
    begins, chars_of, find_from, first_at, joined, lemma_first_at, occurs, occurs_at, starts,
    text_of,
};
use vstd::prelude::*;

verus! {

/// The metadata block and what follows it, where there is such a block.
pub open spec fn split(content: Seq<char>) -> Option<(Seq<char>, Seq<char>)> {
    if starts(content, "---"@) {
        match first_at(content, "---"@, 3) {
            Some(i) => Some((content.subrange(3, i), content.skip(i + 3))),
            None => None,
        }
    } else {
        None
    }
}

/// What follows the metadata block; all of the text where there is none.
pub open spec fn body(content: Seq<char>) -> Seq<char> {
    match split(content) {
        Some(parts) => parts.1,
        None => content,
    }
}

/// The metadata block and what follows it, where there is such a block.
pub fn split_frontmatter(content: &str) -> (r: Option<(String, String)>)
    ensures
        match r {
            Some(parts) => split(content@) == Some((parts.0@, parts.1@)),
            None => split(content@) is None,
        },
{
    let marker = "---";
    proof {
        reveal_strlit("---");
    }
    if !begins(content, marker) {
        return None;
    }
    let v = chars_of(content);
    let n: usize = v.len();
    match find_from(&v, &chars_of(marker), 3) {
        Some(i) => {
            assert(v@.subrange(i + 3, v@.len() as int) =~= v@.skip(i + 3));
            Some((text_of(&v, 3, i), text_of(&v, i + 3, n)))
        },
        None => None,
    }
}

/// What follows the metadata block; all of the text where there is none.
pub fn strip_frontmatter(content: &str) -> (r: String)
    ensures
        r@ == body(content@),
{
    match split_frontmatter(content) {
        Some(parts) => parts.1,
        None => content.to_owned(),
    }
}

/// A document with the metadata `block` in front of `content`.
pub open spec fn framed(block: Seq<char>, content: Seq<char>) -> Seq<char> {
    "---\n"@ + block + "---\n\n"@ + content
}

/// A document with the metadata `block` in front of `content`.
pub fn frame(block: &str, content: &str) -> (r: String)
    ensures
        r@ == framed(block@, content@),
{
    let mut out = joined("---\n", block);
    out.append("---\n\n");
    out.append(content);
    out
}

/// Splitting a framed document gives back the block and the content, each
/// behind the line feeds that frame it. The block has no marker in it and no
/// dash at its end that could become part of one.
pub proof fn law_split_of_framed(block: Seq<char>, content: Seq<char>)
    requires
        !occurs(block, "---"@),
        block.len() > 0 ==> block.last() != '-',
    ensures
        split(framed(block, content)) == Some((seq!['\n'] + block, seq!['\n', '\n'] + content)),
{
    reveal_strlit("---");
    reveal_strlit("---\n");
    reveal_strlit("---\n\n");
    let m = "---"@;
    let d = framed(block, content);
    let e = 4 + block.len() as int;
    assert(d.subrange(0, 3) =~= m);
    assert(d.subrange(e, e + 3) =~= m);
    assert forall|j: int| 3 <= j < e implies !occurs_at(d, m, j) by {
        if occurs_at(d, m, j) {
            assert(d.subrange(j, j + 3)[0] == d[j]);
            assert(d.subrange(j, j + 3)[1] == d[j + 1]);
            assert(d.subrange(j, j + 3)[2] == d[j + 2]);
            assert(d[e - 1] != '-');
            assert(d[3] == '\n');
            assert(3 < j && j + 2 < e - 1);
            assert(block.subrange(j - 4, j - 1) =~= m);
            assert(occurs_at(block, m, j - 4));
        }
    }
    lemma_first_at(d, m, 3);
    assert(occurs_at(d, m, e));
    assert(first_at(d, m, 3) == Some(e));
    assert(d.subrange(3, e) =~= seq!['\n'] + block);
    assert(d.skip(e + 3) =~= seq!['\n', '\n'] + content);
}

/// Without a marker at its start a document is all body, and so is one whose first marker is
/// never followed by another.
pub proof fn law_without_block(content: Seq<char>)
    ensures
        !starts(content, "---"@) ==> split(content) is None && body(content) == content,
        starts(content, "---"@) && (forall|i: int| 3 <= i ==> !occurs_at(content, "---"@, i))
            ==> split(content) is None && body(content) == content,
{
    lemma_first_at(content, "---"@, 3);
}

/// The block and the body are what stands around the second marker, the first one that comes
/// behind the start.
pub proof fn law_split(block: Seq<char>, rest: Seq<char>)
    requires
        !occurs(block, "---"@),
        block.len() > 0 ==> block.last() != '-',
    ensures
        split("---"@ + block + "---"@ + rest) == Some((block, rest)),
        body("---"@ + block + "---"@ + rest) == rest,
{
    let m = "---"@;
    assert(m.len() == 3 && m[0] == '-' && m[1] == '-' && m[2] == '-') by {
        reveal_strlit("---");
    }
    let d = m + block + m + rest;
    let e = 3 + block.len() as int;
    assert(d.subrange(0, 3) =~= m);
    assert(d.subrange(e, e + 3) =~= m);
    assert forall|j: int| 3 <= j < e implies !occurs_at(d, m, j) by {
        lemma_no_marker(block, d, j);
    }
    lemma_first_at(d, m, 3);
    assert(occurs_at(d, m, e));
    assert(first_at(d, m, 3) == Some(e));
    assert(d.subrange(3, e) =~= block);
    assert(d.skip(e + 3) =~= rest);
}

proof fn lemma_no_marker(block: Seq<char>, d: Seq<char>, j: int)
    requires
        !occurs(block, "---"@),
        block.last() != '-',
        3 <= j < 3 + block.len(),
        d.len() >= 3 + block.len(),
        forall|k: int| 0 <= k < block.len() ==> d[k + 3] == #[trigger] block[k],
    ensures
        !occurs_at(d, "---"@, j),
{
    let m = "---"@;
    assert(m.len() == 3 && m[0] == '-' && m[1] == '-' && m[2] == '-') by {
        reveal_strlit("---");
    }
    if occurs_at(d, m, j) {
        let part = d.subrange(j, j + 3);
        assert(part[0] == d[j] && part[1] == d[j + 1] && part[2] == d[j + 2]);
        let last = block.len() - 1;
        assert(d[last + 3] == block[last]);
        assert(j + 2 < last + 3);
        assert(block[j - 3] == d[j] && block[j - 2] == d[j + 1] && block[j - 1] == d[j + 2]);
        assert(block.subrange(j - 3, j) =~= m);
        assert(occurs_at(block, m, j - 3));
    }
}

} // verus!
