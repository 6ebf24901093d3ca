use vstd::prelude::*;
use lopdf::Document;
use vstd::string::StringSliceAdditionalSpecFns;
use crate::pdf::{
    compress_effect, compressed_object, doc_compress_stream, doc_dicts, doc_objects,
    doc_reachable_ids, doc_stream_has_filter, reachable_ids, stored_streams, stream_target,
    ObjectId, PdfValue, StreamModel,
};

verus! {

/// Statistics of stream compression.
#[derive(Clone, Copy, Debug, PartialEq, Eq, Structural)]
pub struct StreamStats {
    /// How many streams were Flate-compressed.
    pub streams_compressed: usize,
}

impl Default for StreamStats {
    fn default() -> (s: StreamStats)
        ensures
            s.streams_compressed == 0,
    {
        StreamStats { streams_compressed: 0 }
    }
}

/// The stored streams, the count of compressed ones, and every object of
/// the document after one more reachable id was visited: the stream it
/// resolves to, if any, is compressed where `Stream::compress` changes it.
pub open spec fn stream_step(
    state: (Map<ObjectId, StreamModel>, nat, Map<ObjectId, PdfValue>),
    targets: Map<ObjectId, ObjectId>,
    id: ObjectId,
) -> (Map<ObjectId, StreamModel>, nat, Map<ObjectId, PdfValue>) {
    if targets.contains_key(id) && state.0.contains_key(targets[id]) {
        match compress_effect(state.0[targets[id]]) {
            Some(n) => (
                state.0.insert(targets[id], n),
                state.1 + 1,
                state.2.insert(targets[id], compressed_object(state.2[targets[id]], n.content)),
            ),
            None => state,
        }
    } else {
        state
    }
}

/// The state after visiting `ids` in order.
pub open spec fn run_streams(
    ids: Seq<ObjectId>,
    targets: Map<ObjectId, ObjectId>,
    start: (Map<ObjectId, StreamModel>, nat, Map<ObjectId, PdfValue>),
) -> (Map<ObjectId, StreamModel>, nat, Map<ObjectId, PdfValue>)
    decreases ids.len(),
{
    if ids.len() == 0 {
        start
    } else {
        stream_step(run_streams(ids.drop_last(), targets, start), targets, ids.last())
    }
}

/// What the stream stage makes of a document: its stored streams after each
/// reachable object was visited, how many streams were compressed, and all
/// its objects.
pub open spec fn stream_stage(doc: Document) -> (Map<ObjectId, StreamModel>, nat, Map<ObjectId, PdfValue>) {
    run_streams(reachable_ids(doc), stream_target(doc), (stored_streams(doc), 0, doc_objects(doc)))
}

proof fn lemma_run_streams_count_le(
    ids: Seq<ObjectId>,
    targets: Map<ObjectId, ObjectId>,
    start: (Map<ObjectId, StreamModel>, nat, Map<ObjectId, PdfValue>),
)
    ensures
        run_streams(ids, targets, start).1 <= start.1 + ids.len(),
    decreases ids.len(),
{
    if ids.len() > 0 {
        lemma_run_streams_count_le(ids.drop_last(), targets, start);
    }
}

/// Applies Flate compression to every reachable stream that has no filter
/// yet, where that saves space, and counts the streams compressed.
pub fn compress_streams(doc: &mut Document) -> (stats: StreamStats)
    ensures
        stored_streams(*final(doc)) == stream_stage(*old(doc)).0,
        stats.streams_compressed == stream_stage(*old(doc)).1,
        doc_objects(*final(doc)) == stream_stage(*old(doc)).2,
        stream_target(*final(doc)) == stream_target(*old(doc)),
        doc_dicts(*final(doc)) == doc_dicts(*old(doc)),
{
    let mut stats = StreamStats::default();
    let ids = doc_reachable_ids(doc);
    let ghost targets = stream_target(*old(doc));
    let ghost start = (stored_streams(*old(doc)), 0nat, doc_objects(*old(doc)));
    let n = ids.len();
    let mut i: usize = 0;
    while i < n
        invariant
            n == ids@.len(),
            ids@ == reachable_ids(*old(doc)),
            i <= n,
            stream_target(*doc) == targets,
            targets == stream_target(*old(doc)),
            start == (stored_streams(*old(doc)), 0nat, doc_objects(*old(doc))),
            doc_dicts(*doc) == doc_dicts(*old(doc)),
            (stored_streams(*doc), stats.streams_compressed as nat, doc_objects(*doc)) == run_streams(
                ids@.take(i as int),
                targets,
                start,
            ),
        decreases n - i,
    {
        let id = ids[i];
        proof {
            assert(ids@.take(i + 1).drop_last() =~= ids@.take(i as int));
            assert(ids@.take(i + 1).last() == id);
            lemma_run_streams_count_le(ids@.take(i as int), targets, start);
        }
        let ghost before = stored_streams(*doc);
        match doc_stream_has_filter(doc, id) {
            Some(false) => {
                doc_compress_stream(doc, id);
                if doc_stream_has_filter(doc, id) == Some(true) {
                    stats.streams_compressed = stats.streams_compressed + 1;
                }
            },
            _ => {},
        }
        i = i + 1;
    }
    proof {
        assert(ids@.take(n as int) =~= ids@);
    }
    stats
}

/// Some id of `ids` resolves to the stream stored at `t`.
pub open spec fn visited_target(ids: Seq<ObjectId>, targets: Map<ObjectId, ObjectId>, t: ObjectId) -> bool {
    exists|i: int| 0 <= i < ids.len() && targets.contains_key(#[trigger] ids[i]) && targets[ids[i]] == t
}

/// What `Stream::compress` leaves of a stream: the compressed stream where
/// it changes it, the stream as it was otherwise.
pub open spec fn after_compress(s: StreamModel) -> StreamModel {
    match compress_effect(s) {
        Some(n) => n,
        None => s,
    }
}

/// The streams a visit of `ids` compresses: those stored at a visited
/// target that `Stream::compress` changes.
pub open spec fn compressible_targets(
    ids: Seq<ObjectId>,
    targets: Map<ObjectId, ObjectId>,
    streams: Map<ObjectId, StreamModel>,
) -> Set<ObjectId> {
    Set::new(
        |t: ObjectId|
            visited_target(ids, targets, t) && streams.contains_key(t) && compress_effect(streams[t]) is Some,
    )
}

/// A compressed stream has a `/Filter`, so compressing it again changes
/// nothing.
proof fn lemma_compress_once(s: StreamModel)
    ensures
        compress_effect(after_compress(s)) is None,
{
    if let Some(n) = compress_effect(s) {
        assert(n.dict.keys.contains("Filter".spec_bytes()));
    }
}

proof fn lemma_visited_push(ids: Seq<ObjectId>, targets: Map<ObjectId, ObjectId>, t: ObjectId)
    requires
        ids.len() > 0,
    ensures
        visited_target(ids, targets, t) == (visited_target(ids.drop_last(), targets, t) || (
        targets.contains_key(ids.last()) && targets[ids.last()] == t)),
{
    let init = ids.drop_last();
    if visited_target(init, targets, t) {
        let i = choose|i: int| 0 <= i < init.len() && targets.contains_key(#[trigger] init[i]) && targets[init[i]] == t;
        assert(ids[i] == init[i]);
    }
    if targets.contains_key(ids.last()) && targets[ids.last()] == t {
        assert(targets.contains_key(ids[ids.len() - 1]));
    }
    if visited_target(ids, targets, t) {
        let i = choose|i: int| 0 <= i < ids.len() && targets.contains_key(#[trigger] ids[i]) && targets[ids[i]] == t;
        if i < ids.len() - 1 {
            assert(init[i] == ids[i]);
        }
    }
}

/// Visiting the reachable ids compresses every stream they resolve to that
/// `Stream::compress` changes, each exactly once, and leaves every other
/// stream as it was; the count is the number of streams so compressed.
pub proof fn lemma_run_streams_compresses_each(
    ids: Seq<ObjectId>,
    targets: Map<ObjectId, ObjectId>,
    start: (Map<ObjectId, StreamModel>, nat, Map<ObjectId, PdfValue>),
)
    ensures
        run_streams(ids, targets, start).0.dom() == start.0.dom(),
        forall|t: ObjectId|
            #[trigger] start.0.contains_key(t) ==> run_streams(ids, targets, start).0[t] == if visited_target(
                ids,
                targets,
                t,
            ) {
                after_compress(start.0[t])
            } else {
                start.0[t]
            },
        compressible_targets(ids, targets, start.0).finite(),
        run_streams(ids, targets, start).1 == start.1 + compressible_targets(ids, targets, start.0).len(),
    decreases ids.len(),
{
    let s0 = start.0;
    if ids.len() == 0 {
        assert(compressible_targets(ids, targets, s0) =~= Set::<ObjectId>::empty());
    } else {
        let init = ids.drop_last();
        let id = ids.last();
        lemma_run_streams_compresses_each(init, targets, start);
        let prev = run_streams(init, targets, start);
        let cur = run_streams(ids, targets, start);
        let before = compressible_targets(init, targets, s0);
        let after = compressible_targets(ids, targets, s0);
        assert forall|t: ObjectId| visited_target(ids, targets, t) == (visited_target(init, targets, t) || (
        targets.contains_key(id) && targets[id] == t)) by {
            lemma_visited_push(ids, targets, t);
        }
        if targets.contains_key(id) && prev.0.contains_key(targets[id]) {
            let t = targets[id];
            if visited_target(init, targets, t) {
                lemma_compress_once(s0[t]);
                assert(after =~= before);
                assert forall|u: ObjectId| #[trigger] s0.contains_key(u) implies cur.0[u] == if visited_target(
                    ids,
                    targets,
                    u,
                ) {
                    after_compress(s0[u])
                } else {
                    s0[u]
                } by {}
            } else {
                assert(prev.0[t] == s0[t]);
                if compress_effect(s0[t]) is Some {
                    assert(after =~= before.insert(t));
                    assert(!before.contains(t));
                } else {
                    assert(after =~= before);
                }
                assert(cur.0.dom() =~= s0.dom());
                assert forall|u: ObjectId| #[trigger] s0.contains_key(u) implies cur.0[u] == if visited_target(
                    ids,
                    targets,
                    u,
                ) {
                    after_compress(s0[u])
                } else {
                    s0[u]
                } by {}
            }
        } else {
            assert(after =~= before) by {
                assert forall|t: ObjectId| after.contains(t) implies before.contains(t) by {
                    if targets.contains_key(id) && targets[id] == t {
                        assert(s0.contains_key(t));
                        assert(prev.0.contains_key(t));
                    }
                }
            }
            assert forall|u: ObjectId| #[trigger] s0.contains_key(u) implies cur.0[u] == if visited_target(
                ids,
                targets,
                u,
            ) {
                after_compress(s0[u])
            } else {
                s0[u]
            } by {
                if targets.contains_key(id) && targets[id] == u {
                    assert(prev.0.contains_key(u));
                }
            }
        }
    }
}

/// The stream stage compresses every stream a reachable object resolves to
/// that `Stream::compress` changes, and leaves every other stored stream as
/// it was; it counts exactly the streams it compressed.
pub proof fn lemma_stream_stage_compresses_each(doc: Document)
    ensures
        stream_stage(doc).0.dom() == stored_streams(doc).dom(),
        forall|t: ObjectId|
            #[trigger] stored_streams(doc).contains_key(t) ==> stream_stage(doc).0[t] == if visited_target(
                reachable_ids(doc),
                stream_target(doc),
                t,
            ) {
                after_compress(stored_streams(doc)[t])
            } else {
                stored_streams(doc)[t]
            },
        stream_stage(doc).1 == compressible_targets(
            reachable_ids(doc),
            stream_target(doc),
            stored_streams(doc),
        ).len(),
{
    lemma_run_streams_compresses_each(
        reachable_ids(doc),
        stream_target(doc),
        (stored_streams(doc), 0, doc_objects(doc)),
    );
}

} // verus!
