//! Line diffs of two texts, computed by the `similar` crate, and their
//! insertion and deletion counts.
use vstd::prelude::*;

verus! {

/// What a line diff says of one line.
#[derive(Debug, Clone, Copy, PartialEq, Eq, Structural)]
pub enum LineTag {
    Equal,
    Insert,
    Delete,
}

/// The tags that `similar::TextDiff::from_lines(old, new)` gives its
/// changes, in order.
pub uninterp spec fn line_diff(old: Seq<char>, new: Seq<char>) -> Seq<LineTag>;

/// Position `i` of `s` ends a line as `similar` splits text into lines: a
/// `\n`, or a `\r` that no `\n` follows.
pub open spec fn ends_line(s: Seq<char>, i: int) -> bool {
    s[i] == '\n' || (s[i] == '\r' && (i + 1 == s.len() || s[i + 1] != '\n'))
}

/// How many of the first `n` positions of `s` end a line.
pub open spec fn line_ends_before(s: Seq<char>, n: int) -> nat
    decreases n,
{
    if n <= 0 {
        0
    } else {
        line_ends_before(s, n - 1) + if ends_line(s, n - 1) {
            1nat
        } else {
            0nat
        }
    }
}

/// How many lines `similar` splits `s` into: one per line end, and one
/// more for text after the last line end.
pub open spec fn diff_line_count(s: Seq<char>) -> nat {
    line_ends_before(s, s.len() as int) + if s.len() > 0 && s.last() != '\n' && s.last()
        != '\r' {
        1nat
    } else {
        0nat
    }
}

/// `similar::TextDiff::from_lines(old, new).iter_all_changes()`, each change
/// taken by its tag.  The contract names the result, and states what the
/// crate's source shows: there is one change per line of either text, each
/// old line equal or deleted and each new line equal or inserted; and what
/// its Myers implementation gives: equal texts give only equal lines, an
/// empty old text only insertions, an empty new text only deletions.
#[verifier::external_body]
pub(crate) fn diff_lines(old: &str, new: &str) -> (r: Vec<LineTag>)
    ensures
        r@ == line_diff(old@, new@),
        count_tag(r@, LineTag::Equal) + count_tag(r@, LineTag::Delete) == diff_line_count(old@),
        count_tag(r@, LineTag::Equal) + count_tag(r@, LineTag::Insert) == diff_line_count(new@),
        old@ == new@ ==> forall|i: int| 0 <= i < r@.len() ==> r@[i] == LineTag::Equal,
        old@.len() == 0 ==> forall|i: int| 0 <= i < r@.len() ==> r@[i] == LineTag::Insert,
        new@.len() == 0 ==> forall|i: int| 0 <= i < r@.len() ==> r@[i] == LineTag::Delete,
{
    let diff = similar::TextDiff::from_lines(old, new);
    let mut tags = Vec::new();
    for change in diff.iter_all_changes() {
        tags.push(
            match change.tag() {
                similar::ChangeTag::Equal => LineTag::Equal,
                similar::ChangeTag::Insert => LineTag::Insert,
                similar::ChangeTag::Delete => LineTag::Delete,
            },
        );
    }
    tags
}

/// How many of `tags` are `t`.
pub open spec fn count_tag(tags: Seq<LineTag>, t: LineTag) -> nat
    decreases tags.len(),
{
    if tags.len() == 0 {
        0
    } else {
        count_tag(tags.drop_last(), t) + if tags.last() == t {
            1nat
        } else {
            0nat
        }
    }
}

pub proof fn lemma_count_tag_bound(tags: Seq<LineTag>, t: LineTag)
    ensures
        count_tag(tags, t) <= tags.len(),
    decreases tags.len(),
{
    if tags.len() > 0 {
        lemma_count_tag_bound(tags.drop_last(), t);
    }
}

/// A sequence none of whose tags is `t` counts no `t`.
pub proof fn lemma_count_tag_absent(tags: Seq<LineTag>, t: LineTag)
    requires
        forall|i: int| 0 <= i < tags.len() ==> tags[i] != t,
    ensures
        count_tag(tags, t) == 0,
    decreases tags.len(),
{
    if tags.len() > 0 {
        lemma_count_tag_absent(tags.drop_last(), t);
    }
}

/// The numbers of inserted and of deleted lines among `tags`.
pub fn count_changes(tags: &[LineTag]) -> (r: (usize, usize))
    ensures
        r.0 == count_tag(tags@, LineTag::Insert),
        r.1 == count_tag(tags@, LineTag::Delete),
{
    let mut additions: usize = 0;
    let mut deletions: usize = 0;
    let mut i: usize = 0;
    while i < tags.len()
        invariant
            i <= tags@.len(),
            additions == count_tag(tags@.take(i as int), LineTag::Insert),
            deletions == count_tag(tags@.take(i as int), LineTag::Delete),
        decreases tags@.len() - i,
    {
        proof {
            assert(tags@.take(i + 1).drop_last() =~= tags@.take(i as int));
            lemma_count_tag_bound(tags@.take(i as int), LineTag::Insert);
            lemma_count_tag_bound(tags@.take(i as int), LineTag::Delete);
        }
        match tags[i] {
            LineTag::Insert => additions = additions + 1,
            LineTag::Delete => deletions = deletions + 1,
            LineTag::Equal => {},
        }
        i = i + 1;
    }
    assert(tags@.take(tags@.len() as int) =~= tags@);
    (additions, deletions)
}

} // verus!
