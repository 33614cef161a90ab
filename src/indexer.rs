//! What the indexer is handed: one fragment per indexable object with
//! non-empty text.

use vstd::prelude::*;

use crate::group::{is_indexable, CollabType};

verus! {

/// A persisted object that has no embeddings yet.
pub struct UnindexedCollab {
    pub workspace_id: String,
    pub object_id: String,
    pub collab_type: CollabType,
    pub doc_state: Vec<u8>,
}

#[derive(PartialEq, Eq, Structural, Debug, Clone, Copy)]
pub enum EmbeddingContentType {
    PlainText,
}

/// A piece of content to embed, keyed by `fragment_id` so that indexing it
/// again replaces rather than adds.
pub struct Fragment {
    pub fragment_id: String,
    pub object_id: String,
    pub collab_type: CollabType,
    pub content_type: EmbeddingContentType,
    pub content: String,
}

/// The fragment for an object of type `collab_type` whose plain text is
/// `content`: none for a type that is not indexed or for empty text.
pub open spec fn fragment_spec(object_id: String, collab_type: CollabType, content: String) -> Option<Fragment> {
    if is_indexable(collab_type) && content@.len() > 0 {
        Some(
            Fragment {
                fragment_id: object_id,
                object_id,
                collab_type,
                content_type: EmbeddingContentType::PlainText,
                content,
            },
        )
    } else {
        None
    }
}

/// The fragment for `collab`, given the plain text its state holds.
pub fn index_fragment(collab: &UnindexedCollab, content: String) -> (r: Option<Fragment>)
    ensures
        r == fragment_spec(collab.object_id, collab.collab_type, content),
{
    if !collab.collab_type.indexable() || content.as_str().is_empty() {
        return None;
    }
    Some(
        Fragment {
            fragment_id: collab.object_id.clone(),
            object_id: collab.object_id.clone(),
            collab_type: collab.collab_type,
            content_type: EmbeddingContentType::PlainText,
            content,
        },
    )
}

/// The fragments of a backlog, in order, skipping objects whose text could
/// not be had (`None`), objects of types that are not indexed, and empty text.
pub open spec fn backlog_fragments(cs: Seq<UnindexedCollab>, ts: Seq<Option<String>>) -> Seq<Fragment>
    decreases cs.len(),
{
    if cs.len() == 0 || ts.len() == 0 {
        Seq::empty()
    } else {
        let rest = backlog_fragments(cs.drop_last(), ts.drop_last());
        match ts.last() {
            Some(t) => match fragment_spec(cs.last().object_id, cs.last().collab_type, t) {
                Some(f) => rest.push(f),
                None => rest,
            },
            None => rest,
        }
    }
}

/// Builds the fragments of a backlog of unindexed objects, given the text
/// extracted from each (`None` where extraction failed). One failure never
/// stops the rest.
pub fn handle_unindexed_collabs(collabs: &Vec<UnindexedCollab>, contents: Vec<Option<String>>) -> (r: Vec<Fragment>)
    requires
        collabs@.len() == contents@.len(),
    ensures
        r@ == backlog_fragments(collabs@, contents@),
{
    let mut contents = contents;
    let ghost all = contents@;
    let n = collabs.len();
    let mut r: Vec<Fragment> = Vec::new();
    let mut i: usize = 0;
    while i < n
        invariant
            n == collabs@.len(),
            all.len() == n,
            i <= n,
            contents@ == all.skip(i as int),
            r@ == backlog_fragments(collabs@.take(i as int), all.take(i as int)),
        decreases n - i,
    {
        let text = contents.remove(0);
        proof {
            assert(collabs@.take(i + 1).drop_last() =~= collabs@.take(i as int));
            assert(all.take(i + 1).drop_last() =~= all.take(i as int));
            assert(all.take(i + 1).last() == text);
            assert(collabs@.take(i + 1).last() == collabs@[i as int]);
        }
        match text {
            Some(t) => match index_fragment(&collabs[i], t) {
                Some(f) => r.push(f),
                None => {},
            },
            None => {},
        }
        i = i + 1;
        proof {
            assert(contents@ =~= all.skip(i as int));
        }
    }
    proof {
        assert(collabs@.take(i as int) =~= collabs@);
        assert(all.take(i as int) =~= all);
    }
    r
}

} // verus!
