//! Properties of the query engine that relate several lookups, proved over
//! the model that the readers' contracts are stated in.

use super::model::{
    find_byte, first_named, first_with_phandle, has_phandle, header_word, lemma_find_byte,
    name_matches, parse_blob, strip_slashes, unit_base, FDT_HEADER_SIZE, FDT_MAGIC, FdtError,
    NodeModel, SLASH, Tape, ViewModel,
};
use vstd::prelude::*;

verus! {

proof fn lemma_first_named(cs: Seq<NodeModel>, q: Seq<u8>)
    ensures
        match first_named(cs, q) {
            Some(n) => exists|i: int|
                0 <= i < cs.len() && cs[i] == n && name_matches(n.name, q) && forall|j: int|
                    0 <= j < i ==> !name_matches(#[trigger] cs[j].name, q),
            None => forall|i: int| 0 <= i < cs.len() ==> !name_matches(#[trigger] cs[i].name, q),
        },
    decreases cs.len(),
{
    if cs.len() > 0 && !name_matches(cs[0].name, q) {
        let rest = cs.drop_first();
        lemma_first_named(rest, q);
        match first_named(rest, q) {
            Some(n) => {
                let i = choose|i: int|
                    0 <= i < rest.len() && rest[i] == n && name_matches(n.name, q) && forall|j: int|
                        0 <= j < i ==> !name_matches(#[trigger] rest[j].name, q);
                assert(cs[i + 1] == n);
                assert forall|j: int| 0 <= j < i + 1 implies !name_matches(
                    #[trigger] cs[j].name,
                    q,
                ) by {
                    if j > 0 {
                        assert(cs[j] == rest[j - 1]);
                    }
                }
            },
            None => {
                assert forall|i: int| 0 <= i < cs.len() implies !name_matches(
                    #[trigger] cs[i].name,
                    q,
                ) by {
                    if i > 0 {
                        assert(cs[i] == rest[i - 1]);
                    }
                }
            },
        }
    }
}

/// Looking a name up gives an immediate child whose name is the query, or
/// is the query once its unit address is left out, and the first such
/// child; it gives nothing exactly when no immediate child answers.
pub proof fn lemma_node_by_name(t: Tape, q: Seq<u8>)
    ensures
        match t.node_named(q) {
            Some(n) => exists|i: int|
                0 <= i < t.children().len() && t.children()[i] == n && (n.name == q
                    || unit_base(n.name) == q) && forall|j: int|
                    0 <= j < i ==> !name_matches(#[trigger] t.children()[j].name, q),
            None => forall|i: int|
                0 <= i < t.children().len() ==> !name_matches(#[trigger] t.children()[i].name, q),
        },
{
    lemma_first_named(t.children(), q);
}

/// Leading slashes do not change where a path leads.
pub proof fn lemma_path_leading_slash(t: Tape, path: Seq<u8>)
    ensures
        t.node_at_path(seq![SLASH] + path) == t.node_at_path(path),
{
    let p = seq![SLASH] + path;
    assert(p.drop_first() =~= path);
    assert(strip_slashes(p) == strip_slashes(path));
}

/// A path of several segments leads where its first segment leads among the
/// immediate children, followed by the rest of the path from the child
/// found; when no child answers the first segment it leads nowhere.
pub proof fn lemma_path_step(t: Tape, head: Seq<u8>, tail: Seq<u8>)
    requires
        head.len() > 0,
        forall|k: int| 0 <= k < head.len() ==> head[k] != SLASH,
    ensures
        t.node_at_path(head + seq![SLASH] + tail) == match t.node_named(head) {
            Some(n) => n.entity.tape().node_at_path(tail),
            None => None,
        },
        t.node_at_path(seq![SLASH] + head + seq![SLASH] + tail) == t.node_at_path(
            head + seq![SLASH] + tail,
        ),
{
    let p = head + seq![SLASH] + tail;
    assert(p[0] == head[0]);
    assert(strip_slashes(p) == p);
    lemma_find_byte(p, SLASH, 0);
    let j = head.len() as int;
    assert(p[j] == SLASH);
    assert(find_byte(p, SLASH, 0) == Some(j)) by {
        match find_byte(p, SLASH, 0) {
            Some(i) => {
                if i < j {
                    assert(p[i] == head[i]);
                }
            },
            None => {},
        }
    }
    assert(p.subrange(0, j) =~= head);
    assert(p.subrange(j + 1, p.len() as int) =~= tail);
    lemma_path_leading_slash(t, p);
    assert(seq![SLASH] + head + seq![SLASH] + tail =~= seq![SLASH] + p);
}

proof fn lemma_first_with_phandle(cs: Seq<NodeModel>, id: u32, i: int)
    requires
        0 <= i < cs.len(),
        has_phandle(cs[i], id),
        forall|j: int| 0 <= j < i ==> !has_phandle(#[trigger] cs[j], id),
    ensures
        first_with_phandle(cs, id) == Some(cs[i]),
    decreases cs.len(),
{
    if i > 0 {
        let rest = cs.drop_first();
        assert forall|j: int| 0 <= j < i - 1 implies !has_phandle(#[trigger] rest[j], id) by {
            assert(rest[j] == cs[j + 1]);
        }
        lemma_first_with_phandle(rest, id, i - 1);
    }
}

proof fn lemma_no_phandle(cs: Seq<NodeModel>, id: u32)
    requires
        forall|j: int| 0 <= j < cs.len() ==> !has_phandle(#[trigger] cs[j], id),
    ensures
        first_with_phandle(cs, id) is None,
    decreases cs.len(),
{
    if cs.len() > 0 {
        let rest = cs.drop_first();
        assert forall|j: int| 0 <= j < rest.len() implies !has_phandle(#[trigger] rest[j], id) by {
            assert(rest[j] == cs[j + 1]);
        }
        lemma_no_phandle(rest, id);
    }
}

/// The phandle search looks at the immediate children first: when the `i`-th
/// child is the first that carries `id`, it is the result, whatever carries
/// `id` deeper down.
pub proof fn lemma_phandle_children_first(t: Tape, id: u32, i: int)
    requires
        0 <= i < t.children().len(),
        has_phandle(t.children()[i], id),
        forall|j: int| 0 <= j < i ==> !has_phandle(#[trigger] t.children()[j], id),
    ensures
        t.node_with_phandle(id) == Some(t.children()[i]),
{
    lemma_first_with_phandle(t.children(), id, i);
}

proof fn lemma_phandle_below(t: Tape, id: u32, k: int, i: int)
    requires
        0 <= k <= i < t.children().len(),
        forall|j: int|
            k <= j < i ==> (#[trigger] t.children()[j]).entity.tape().node_with_phandle(id) is None,
    ensures
        t.phandle_below(id, k) == t.phandle_below(id, i),
    decreases i - k,
{
    if k < i {
        lemma_phandle_below(t, id, k + 1, i);
    }
}

/// When no immediate child carries `id`, the search goes through the
/// children's subtrees in order and gives the first hit: that of the `i`-th
/// child when it is the first subtree that holds one.
pub proof fn lemma_phandle_subtrees_in_order(t: Tape, id: u32, i: int)
    requires
        forall|j: int| 0 <= j < t.children().len() ==> !has_phandle(#[trigger] t.children()[j], id),
        0 <= i < t.children().len(),
        t.children()[i].entity.tape().node_with_phandle(id) is Some,
        forall|j: int|
            0 <= j < i ==> (#[trigger] t.children()[j]).entity.tape().node_with_phandle(id) is None,
    ensures
        t.node_with_phandle(id) == t.children()[i].entity.tape().node_with_phandle(id),
{
    lemma_no_phandle(t.children(), id);
    lemma_phandle_below(t, id, 0, i);
}

/// A blob whose header does not open with the devicetree magic number is
/// refused as such, and no view is made of it.
pub proof fn lemma_bad_magic_refused(b: Seq<u8>)
    requires
        FDT_HEADER_SIZE <= b.len(),
        header_word(b, 0) != FDT_MAGIC,
    ensures
        parse_blob(b) == Err::<ViewModel, FdtError>(FdtError::BadMagic),
{
}

/// Segments joined by single slashes.
pub open spec fn join_path(segs: Seq<Seq<u8>>) -> Seq<u8>
    decreases segs.len(),
{
    if segs.len() <= 1 {
        if segs.len() == 1 {
            segs[0]
        } else {
            Seq::empty()
        }
    } else {
        segs[0] + seq![SLASH] + join_path(segs.drop_first())
    }
}

/// Looking the segments up one after the other, each among the immediate
/// children of the node the previous one led to: nothing as soon as one
/// segment has no match.
pub open spec fn walk_segments(t: Tape, segs: Seq<Seq<u8>>) -> Option<NodeModel>
    decreases segs.len(),
{
    if segs.len() == 0 {
        None
    } else if segs.len() == 1 {
        t.node_named(segs[0])
    } else {
        match t.node_named(segs[0]) {
            Some(n) => walk_segments(n.entity.tape(), segs.drop_first()),
            None => None,
        }
    }
}

/// A path of non-empty segments without slashes, with or without a leading
/// slash, leads where looking its segments up one after the other leads: a
/// segment without a match anywhere along the way gives nothing, never a
/// partial result.
pub proof fn lemma_path_walk(t: Tape, segs: Seq<Seq<u8>>)
    requires
        segs.len() >= 1,
        forall|i: int| 0 <= i < segs.len() ==> (#[trigger] segs[i]).len() > 0,
        forall|i: int, k: int| 0 <= i < segs.len() && 0 <= k < segs[i].len() ==> #[trigger] segs[i][k] != SLASH,
    ensures
        t.node_at_path(join_path(segs)) == walk_segments(t, segs),
        t.node_at_path(seq![SLASH] + join_path(segs)) == walk_segments(t, segs),
    decreases segs.len(),
{
    let s0 = segs[0];
    assert(s0.len() > 0);
    assert(forall|k: int| 0 <= k < s0.len() ==> s0[k] != SLASH);
    if segs.len() == 1 {
        assert(strip_slashes(s0) == s0);
        lemma_find_byte(s0, SLASH, 0);
        assert(find_byte(s0, SLASH, 0) is None);
        lemma_path_leading_slash(t, s0);
    } else {
        let rest = segs.drop_first();
        assert forall|i: int| 0 <= i < rest.len() implies (#[trigger] rest[i]).len() > 0 by {
            assert(rest[i] == segs[i + 1]);
        }
        assert forall|i: int, k: int| 0 <= i < rest.len() && 0 <= k < rest[i].len() implies #[trigger] rest[i][k]
            != SLASH by {
            assert(rest[i] == segs[i + 1]);
        }
        lemma_path_step(t, s0, join_path(rest));
        if let Some(n) = t.node_named(s0) {
            lemma_path_walk(n.entity.tape(), rest);
        }
        assert(join_path(segs) == s0 + seq![SLASH] + join_path(rest));
        lemma_path_leading_slash(t, join_path(segs));
    }
}

} // verus!
