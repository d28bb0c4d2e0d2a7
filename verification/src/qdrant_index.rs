//! An index in the vector database Qdrant, in place of the scan.
use vstd::pervasive::unreached;
use vstd::prelude::*;

use crate::payload::field_text;
use crate::payload::object_payload;
use crate::payload::payload_fields;
use crate::payload::payload_text;
use crate::payload::text_object;
use crate::search::hit_limit;
use crate::search::limited;
use crate::search::snippet;
use crate::search::truncate_snippet;
use crate::search::QueryActionView;
use crate::search::QueryEventView;
use crate::search::QueryRunView;
use crate::search::QueryStageView;
use crate::search::SNIPPET_CHARS;
use crate::text::contained_text_can_be_cut_out;
use crate::text::contains_text;
use crate::text::joined;
use crate::text::outcome;
use crate::text::text_contains;
use crate::text::text_or;
use crate::text::text_or_else;
use crate::text::unit_outcome;
use crate::QueryResponse;
use crate::QueryResponseView;
use crate::RagHit;
use crate::RagHitView;

verus! {

/// The phase of an answer from the vector database.
pub const PHASE_QDRANT: &'static str = "2-qdrant";

/// The collection where none is set.
pub const DEFAULT_COLLECTION: &'static str = "claw_rag_chunks";

/// The field of a point that holds the path of its chunk.
pub const PATH_FIELD: &'static str = "path";

/// The field of a point that holds the text of its chunk.
pub const TEXT_FIELD: &'static str = "text";

/// The message for points of different lengths.
pub const BATCH_MISMATCH: &'static str =
    "qdrant upsert: embedding dimension mismatch within batch";

/// The message for a chunk id that no point can have.
pub const NEGATIVE_ID: &'static str = "chunk id must be non-negative";

/// Where the vector database is.
#[derive(Clone, Debug)]
pub struct QdrantConfig {
    pub url: String,
    pub api_key: Option<String>,
    pub collection: String,
}

/// What a configuration holds.
#[verifier::ext_equal]
pub struct QdrantConfigView {
    pub url: Seq<char>,
    pub api_key: Option<Seq<char>>,
    pub collection: Seq<char>,
}

impl DeepView for QdrantConfig {
    type V = QdrantConfigView;

    open spec fn deep_view(&self) -> QdrantConfigView {
        QdrantConfigView {
            url: self.url@,
            api_key: self.api_key.deep_view(),
            collection: self.collection@,
        }
    }
}

/// What a configuration is seen to hold is what it holds.
pub proof fn qdrant_config_is_seen_whole(config: QdrantConfig)
    ensures
        config.deep_view().url == config.url@,
        config.deep_view().collection == config.collection@,
        config.api_key matches Some(key) ==> config.deep_view().api_key == Some(key@),
        config.api_key is None ==> config.deep_view().api_key is None,
{
}

impl QdrantConfig {
    /// The configuration that the environment gives, by the values of `CLAW_RAG_QDRANT_URL`,
    /// `CLAW_RAG_QDRANT_COLLECTION` and `CLAW_RAG_QDRANT_API_KEY` where they are set. Without an
    /// address there is none.
    pub fn from_env(
        url: Option<String>,
        collection: Option<String>,
        api_key: Option<String>,
    ) -> (config: Option<Self>)
        ensures
            config.deep_view() == (match url.deep_view() {
                Some(address) => Some(
                    QdrantConfigView {
                        url: address,
                        api_key: api_key.deep_view(),
                        collection: text_or_else(collection.deep_view(), DEFAULT_COLLECTION@),
                    },
                ),
                None => None,
            }),
    {
        match url {
            Some(url) => Some(
                QdrantConfig { url, api_key, collection: text_or(collection, DEFAULT_COLLECTION) },
            ),
            None => None,
        }
    }
}

/// Whether a message says that a collection exists already.
pub open spec fn says_exists(message: Seq<char>) -> bool {
    contains_text(message, "already exists"@) || contains_text(message, "Already exists"@)
}

/// Whether a message says that a collection is missing.
pub open spec fn says_missing(message: Seq<char>) -> bool {
    contains_text(message, "doesn't exist"@) || contains_text(message, "Not found"@)
}

/// The outcome of having a collection, given that of creating it: one that exists is as good as a
/// new one.
pub open spec fn ensured(created: Result<(), Seq<char>>) -> Result<(), Seq<char>> {
    match created {
        Ok(_) => Ok(()),
        Err(message) => if says_exists(message) {
            Ok(())
        } else {
            Err("qdrant create_collection: "@ + message)
        },
    }
}

/// A collection is had where it was created, or where the fault is one that says, in so many words,
/// that it exists already; any other fault is told whole.
pub proof fn only_an_existing_collection_is_forgiven(message: Seq<char>)
    ensures
        ensured(Ok(())) is Ok,
        ensured(Err(message)) is Ok <==> (exists|before: Seq<char>, after: Seq<char>|
            message == #[trigger] (before + "already exists"@ + after)) || (exists|
            before: Seq<char>,
            after: Seq<char>,
        |
            message == #[trigger] (before + "Already exists"@ + after)),
        ensured(Err(message)) is Err ==> ensured(Err(message)) == Err::<(), _>(
            "qdrant create_collection: "@ + message,
        ),
{
    contained_text_can_be_cut_out(message, "already exists"@);
    contained_text_can_be_cut_out(message, "Already exists"@);
}

/// A message says that a collection is missing exactly where it holds one of two texts.
pub proof fn missing_is_said_in_so_many_words(message: Seq<char>)
    ensures
        says_missing(message) <==> (exists|before: Seq<char>, after: Seq<char>|
            message == #[trigger] (before + "doesn't exist"@ + after)) || (exists|
            before: Seq<char>,
            after: Seq<char>,
        |
            message == #[trigger] (before + "Not found"@ + after)),
{
    contained_text_can_be_cut_out(message, "doesn't exist"@);
    contained_text_can_be_cut_out(message, "Not found"@);
}

/// The outcome of having a collection, given that of creating it: "already exists" counts as
/// success, which keeps ingest idempotent.
pub fn ensure_collection(created: Result<(), String>) -> (had: Result<(), String>)
    ensures
        unit_outcome(had) == ensured(unit_outcome(created)),
{
    match created {
        Ok(_) => Ok(()),
        Err(message) => if text_contains(message.as_str(), "already exists") || text_contains(
            message.as_str(),
            "Already exists",
        ) {
            Ok(())
        } else {
            Err(joined("qdrant create_collection: ", message.as_str()))
        },
    }
}

/// A point that a search found.
pub struct FoundPoint {
    pub payload: qdrant_client::Payload,
    /// The bits of the score.
    pub score: u32,
}

/// What a found point holds: the fields of its payload, with their texts, and its score.
#[verifier::ext_equal]
pub struct FoundPointView {
    pub fields: Map<Seq<char>, Option<Seq<char>>>,
    pub score: u32,
}

impl DeepView for FoundPoint {
    type V = FoundPointView;

    open spec fn deep_view(&self) -> FoundPointView {
        FoundPointView { fields: payload_fields(self.payload), score: self.score }
    }
}

/// What a found point is seen to hold is what it holds.
pub proof fn found_point_is_seen_whole(point: FoundPoint)
    ensures
        point.deep_view().fields == payload_fields(point.payload),
        point.deep_view().score == point.score,
{
}

/// The hit that a found point makes, if it says where it comes from. A text that it does not have
/// is empty.
pub open spec fn found_hit(
    path: Option<Seq<char>>,
    text: Option<Seq<char>>,
    score: u32,
) -> Option<RagHitView> {
    match path {
        Some(place) => if place.len() > 0 {
            Some(
                RagHitView {
                    path: place,
                    snippet: snippet(text_or_else(text, seq![]), SNIPPET_CHARS as nat),
                    score: Some(score),
                },
            )
        } else {
            None
        },
        None => None,
    }
}

/// The hits that found points make, in order: those that say where they come from.
pub open spec fn found_hits(points: Seq<FoundPointView>) -> Seq<RagHitView>
    decreases points.len(),
{
    if points.len() == 0 {
        seq![]
    } else {
        let point = points.last();
        let before = found_hits(points.drop_last());
        match found_hit(
            field_text(point.fields, PATH_FIELD@),
            field_text(point.fields, TEXT_FIELD@),
            point.score,
        ) {
            Some(hit) => before.push(hit),
            None => before,
        }
    }
}

/// The hit that a found point makes, given its path and text and the bits of its score.
pub fn hit_of(path: Option<String>, text: Option<String>, score: u32) -> (hit: Option<RagHit>)
    ensures
        hit.deep_view() == found_hit(path.deep_view(), text.deep_view(), score),
{
    proof {
        reveal_strlit("");
        assert(""@ =~= seq![]);
    }
    match path {
        Some(path) => if path.as_str().is_empty() {
            None
        } else {
            let text = text_or(text, "");
            Some(
                RagHit {
                    path,
                    snippet: truncate_snippet(text.as_str(), SNIPPET_CHARS),
                    score: Some(score),
                },
            )
        },
        None => None,
    }
}

/// Answers with the points that a search found.
pub fn found_response(points: Vec<FoundPoint>) -> (response: QueryResponse)
    ensures
        response.deep_view() == (QueryResponseView {
            hits: found_hits(points.deep_view()),
            phase: PHASE_QDRANT@,
        }),
{
    let ghost found = points.deep_view();
    let mut hits: Vec<RagHit> = Vec::new();
    for i in 0..points.len()
        invariant
            found == points.deep_view(),
            hits.deep_view() == found_hits(found.take(i as int)),
    {
        let point = &points[i];
        assert(found[i as int] == point.deep_view());
        assert(found.take(i + 1).drop_last() =~= found.take(i as int));
        let ghost before = hits.deep_view();
        let path = payload_text(&point.payload, PATH_FIELD);
        let text = payload_text(&point.payload, TEXT_FIELD);
        if let Some(hit) = hit_of(path, text, point.score) {
            hits.push(hit);
            assert(hits.deep_view() =~= before.push(hits@.last().deep_view()));
        }
    }
    assert(found.take(found.len() as int) =~= found);
    QueryResponse { hits, phase: PHASE_QDRANT }
}

/// A point with a path makes a hit with this path, its text up to 480 characters, or none where it
/// has no text, and its score; a point without a path, or with an empty one, makes none.
pub proof fn point_with_a_path_is_a_hit(
    path: Option<Seq<char>>,
    text: Option<Seq<char>>,
    score: u32,
)
    ensures
        found_hit(path, text, score) is Some <==> path is Some && path->0.len() > 0,
        found_hit(path, text, score) matches Some(hit) ==> {
            &&& hit.path == path->0
            &&& hit.score == Some(score)
            &&& text is None ==> hit.snippet.len() == 0
            &&& text matches Some(whole) ==> {
                &&& whole.len() <= 480 ==> hit.snippet == whole
                &&& whole.len() > 480 ==> hit.snippet == whole.take(480) + seq!['…']
            }
        },
{
    if let Some(whole) = text {
        if whole.len() > 480 {
            assert(whole.take(480).push('…') =~= whole.take(480) + seq!['…']);
        }
    }
}

/// Points that all have paths make hits one to one and in order, however many there are and
/// whatever paths they share: each point the hit with its path, its text and its score.
pub proof fn points_with_paths_are_hits_one_to_one(points: Seq<FoundPointView>)
    requires
        forall|i: int|
            0 <= i < points.len() ==> (#[trigger] points[i]).fields.contains_key("path"@)
                && points[i].fields["path"@] is Some && points[i].fields["path"@]->0.len() > 0,
    ensures
        found_hits(points).len() == points.len(),
        forall|i: int|
            #![trigger found_hits(points)[i]]
            #![trigger points[i]]
            0 <= i < points.len() ==> {
                let (hit, fields) = (found_hits(points)[i], points[i].fields);
                &&& Some(hit.path) == fields["path"@]
                &&& hit.score == Some(points[i].score)
                &&& fields.contains_key("text"@) && fields["text"@] is Some ==> {
                    let text = fields["text"@]->0;
                    &&& text.len() <= 480 ==> hit.snippet == text
                    &&& text.len() > 480 ==> hit.snippet == text.take(480) + seq!['…']
                }
                &&& !fields.contains_key("text"@) || fields["text"@] is None ==> hit.snippet.len()
                    == 0
            },
    decreases points.len(),
{
    if points.len() > 0 {
        let front = points.drop_last();
        let last = points.len() - 1;
        assert forall|i: int| 0 <= i < front.len() implies (#[trigger] front[i]).fields.contains_key(
            "path"@,
        ) && front[i].fields["path"@] is Some && front[i].fields["path"@]->0.len() > 0 by {
            assert(front[i] == points[i]);
        }
        points_with_paths_are_hits_one_to_one(front);
        let point = points[last];
        assert(points.last() == point);
        point_with_a_path_is_a_hit(
            field_text(point.fields, "path"@),
            field_text(point.fields, "text"@),
            point.score,
        );
        assert forall|i: int|
            #![trigger found_hits(points)[i]]
            #![trigger points[i]]
            0 <= i < last implies found_hits(points)[i] == found_hits(front)[i] && points[i]
            == front[i] by {}
    }
}

/// Points without paths make no hits.
pub proof fn points_without_paths_are_no_hits(points: Seq<FoundPointView>)
    requires
        forall|i: int|
            0 <= i < points.len() ==> !(#[trigger] points[i]).fields.contains_key("path"@)
                || points[i].fields["path"@] is None || points[i].fields["path"@]->0.len() == 0,
    ensures
        found_hits(points).len() == 0,
    decreases points.len(),
{
    if points.len() > 0 {
        let front = points.drop_last();
        assert forall|i: int| 0 <= i < front.len() implies !(
        #[trigger] front[i]).fields.contains_key("path"@) || front[i].fields["path"@] is None
            || front[i].fields["path"@]->0.len() == 0 by {
            assert(front[i] == points[i]);
        }
        points_without_paths_are_no_hits(front);
        let point = points[points.len() - 1];
        assert(points.last() == point);
    }
}

/// Points make hits on their own: what points and more points make is what the first make and then
/// what the others make.
pub proof fn points_make_hits_on_their_own(front: Seq<FoundPointView>, back: Seq<FoundPointView>)
    ensures
        found_hits(front + back) == found_hits(front) + found_hits(back),
    decreases back.len(),
{
    if back.len() == 0 {
        assert(front + back =~= front);
        assert(found_hits(front) + found_hits(back) =~= found_hits(front));
    } else {
        points_make_hits_on_their_own(front, back.drop_last());
        assert((front + back).drop_last() =~= front + back.drop_last());
        assert((front + back).last() == back.last());
        assert(found_hits(front + back) =~= found_hits(front) + found_hits(back));
    }
}

/// Every hit from the vector database says where it comes from.
pub proof fn found_hits_have_paths(points: Seq<FoundPointView>)
    ensures
        found_hits(points).len() <= points.len(),
        forall|k: int|
            0 <= k < found_hits(points).len() ==> (#[trigger] found_hits(points)[k]).path.len() > 0,
    decreases points.len(),
{
    if points.len() > 0 {
        found_hits_have_paths(points.drop_last());
    }
}

/// A chunk and its embedding, to be stored as a point.
#[derive(Clone, Debug)]
pub struct ChunkPoint {
    pub id: i64,
    /// The bits of the components.
    pub vec: Vec<u32>,
    pub path: String,
    pub text: String,
}

/// What a chunk to be stored holds.
#[verifier::ext_equal]
pub struct ChunkPointView {
    pub id: i64,
    pub vec: Seq<u32>,
    pub path: Seq<char>,
    pub text: Seq<char>,
}

impl DeepView for ChunkPoint {
    type V = ChunkPointView;

    open spec fn deep_view(&self) -> ChunkPointView {
        ChunkPointView { id: self.id, vec: self.vec@, path: self.path@, text: self.text@ }
    }
}

/// A point as it is stored.
pub struct StoredPoint {
    pub id: u64,
    /// The bits of the components.
    pub vec: Vec<u32>,
    pub payload: qdrant_client::Payload,
}

/// What a stored point holds: its id, its vector and the fields of its payload, with their texts.
#[verifier::ext_equal]
pub struct StoredPointView {
    pub id: u64,
    pub vec: Seq<u32>,
    pub fields: Map<Seq<char>, Option<Seq<char>>>,
}

impl DeepView for StoredPoint {
    type V = StoredPointView;

    open spec fn deep_view(&self) -> StoredPointView {
        StoredPointView { id: self.id, vec: self.vec@, fields: payload_fields(self.payload) }
    }
}

/// What chunks and points are seen to hold is what they hold.
pub proof fn chunks_and_points_are_seen_whole(chunk: ChunkPoint, point: StoredPoint)
    ensures
        chunk.deep_view().id == chunk.id,
        chunk.deep_view().vec == chunk.vec@,
        chunk.deep_view().path == chunk.path@,
        chunk.deep_view().text == chunk.text@,
        point.deep_view().id == point.id,
        point.deep_view().vec == point.vec@,
        point.deep_view().fields == payload_fields(point.payload),
{
}

/// The point that a chunk is stored as: its payload is the chunk's path and text and nothing more.
pub open spec fn point_of(chunk: ChunkPointView) -> StoredPointView {
    StoredPointView {
        id: chunk.id as u64,
        vec: chunk.vec,
        fields: map![PATH_FIELD@ => Some(chunk.path), TEXT_FIELD@ => Some(chunk.text)],
    }
}

/// The points that `chunks` are stored as in a collection of vectors of length `dim`, or what is
/// wrong with the first that cannot be.
pub open spec fn points_of(chunks: Seq<ChunkPointView>, dim: nat) -> Result<
    Seq<StoredPointView>,
    Seq<char>,
>
    decreases chunks.len(),
{
    if chunks.len() == 0 {
        Ok(seq![])
    } else {
        match points_of(chunks.drop_last(), dim) {
            Err(message) => Err(message),
            Ok(before) => if chunks.last().vec.len() != dim {
                Err(BATCH_MISMATCH@)
            } else if chunks.last().id < 0 {
                Err(NEGATIVE_ID@)
            } else {
                Ok(before.push(point_of(chunks.last())))
            },
        }
    }
}

proof fn lemma_first_fault_stays(chunks: Seq<ChunkPointView>, dim: nat, n: int)
    requires
        0 <= n <= chunks.len(),
        points_of(chunks.take(n), dim) is Err,
    ensures
        points_of(chunks, dim) == points_of(chunks.take(n), dim),
    decreases chunks.len(),
{
    if n < chunks.len() {
        assert(chunks.drop_last().take(n) =~= chunks.take(n));
        lemma_first_fault_stays(chunks.drop_last(), dim, n);
    } else {
        assert(chunks.take(n) =~= chunks);
    }
}

/// The points that `chunks` are stored as in a collection of vectors of length `dim`.
pub fn stored_points(chunks: Vec<ChunkPoint>, dim: usize) -> (points: Result<
    Vec<StoredPoint>,
    String,
>)
    ensures
        outcome(points) == points_of(chunks.deep_view(), dim as nat),
{
    let ghost all = chunks.deep_view();
    let mut points: Vec<StoredPoint> = Vec::new();
    assert(points.deep_view() =~= seq![]);
    for chunk in it: chunks
        invariant
            it.seq() == chunks@,
            all == chunks.deep_view(),
            points_of(all.take(it.index() as int), dim as nat) == Ok::<_, Seq<char>>(
                points.deep_view(),
            ),
    {
        let ghost at = it.index() as int;
        assert(all[at] == chunk.deep_view());
        assert(all.take(at + 1).drop_last() =~= all.take(at));
        if chunk.vec.len() != dim {
            proof {
                lemma_first_fault_stays(all, dim as nat, at + 1);
            }
            return Err(BATCH_MISMATCH.to_string());
        }
        if chunk.id < 0 {
            proof {
                lemma_first_fault_stays(all, dim as nat, at + 1);
            }
            return Err(NEGATIVE_ID.to_string());
        }
        proof {
            lemma_fields_differ();
        }
        let object = text_object(
            PATH_FIELD,
            chunk.path.as_str(),
            TEXT_FIELD,
            chunk.text.as_str(),
        );
        let ghost before = points.deep_view();
        points.push(
            StoredPoint { id: chunk.id as u64, vec: chunk.vec, payload: object_payload(object) },
        );
        assert(points.deep_view() =~= before.push(point_of(all[at])));
    }
    assert(all.take(all.len() as int) =~= all);
    Ok(points)
}

proof fn lemma_fields_differ()
    ensures
        PATH_FIELD@ != TEXT_FIELD@,
{
    reveal_strlit("path");
    reveal_strlit("text");
    assert(PATH_FIELD@[0] != TEXT_FIELD@[0]);
}

/// A batch is stored whole, each chunk as its point, exactly where all vectors are as long as the
/// collection's and no id is negative.
pub proof fn batch_is_stored_whole(chunks: Seq<ChunkPointView>, dim: nat)
    ensures
        points_of(chunks, dim) is Ok <==> forall|i: int|
            0 <= i < chunks.len() ==> (#[trigger] chunks[i]).vec.len() == dim && chunks[i].id >= 0,
        points_of(chunks, dim) matches Ok(points) ==> points == chunks.map_values(
            |chunk: ChunkPointView| point_of(chunk),
        ),
    decreases chunks.len(),
{
    if chunks.len() > 0 {
        batch_is_stored_whole(chunks.drop_last(), dim);
        if points_of(chunks.drop_last(), dim) is Err {
            let i = choose|i: int|
                0 <= i < chunks.drop_last().len() && !((#[trigger] chunks.drop_last()[i]).vec.len()
                    == dim && chunks.drop_last()[i].id >= 0);
            assert(chunks[i] == chunks.drop_last()[i]);
        } else {
            assert forall|i: int| 0 <= i < chunks.len() - 1 implies (#[trigger] chunks[i]).vec.len()
                == dim && chunks[i].id >= 0 by {
                assert(chunks[i] == chunks.drop_last()[i]);
            }
        }
        assert(chunks.last() == chunks[chunks.len() - 1]);
    }
    if points_of(chunks, dim) is Ok {
        assert(points_of(chunks, dim)->Ok_0 =~= chunks.map_values(
            |chunk: ChunkPointView| point_of(chunk),
        ));
    }
}

/// A stored batch has one point to each chunk, in order, and each point has the id of its chunk, the
/// chunk's own vector, component by component, and a payload of two fields, which hold the chunk's
/// path and text as they are.
pub proof fn points_hold_their_chunks(chunks: Seq<ChunkPointView>, dim: nat)
    ensures
        points_of(chunks, dim) matches Ok(points) ==> {
            &&& points.len() == chunks.len()
            &&& forall|i: int|
                #![trigger points[i]]
                #![trigger chunks[i]]
                0 <= i < chunks.len() ==> {
                    let (point, chunk) = (points[i], chunks[i]);
                    &&& point.id == chunk.id
                    &&& point.vec.len() == chunk.vec.len()
                    &&& forall|k: int|
                        0 <= k < chunk.vec.len() ==> #[trigger] point.vec[k] == chunk.vec[k]
                    &&& forall|field: Seq<char>|
                        #![trigger point.fields.contains_key(field)]
                        point.fields.contains_key(field) <==> field == "path"@ || field == "text"@
                    &&& point.fields["path"@] == Some(chunk.path)
                    &&& point.fields["text"@] == Some(chunk.text)
                }
        },
{
    batch_is_stored_whole(chunks, dim);
    lemma_fields_differ();
}

/// A batch that is not stored is told the fault of the first chunk that has one: a vector of another
/// length before a negative id.
pub proof fn first_faulty_chunk_is_told(chunks: Seq<ChunkPointView>, dim: nat, at: int)
    requires
        0 <= at < chunks.len(),
        chunks[at].vec.len() != dim || chunks[at].id < 0,
        forall|i: int|
            0 <= i < at ==> (#[trigger] chunks[i]).vec.len() == dim && chunks[i].id >= 0,
    ensures
        chunks[at].vec.len() != dim ==> points_of(chunks, dim) == Err::<Seq<StoredPointView>, _>(
            "qdrant upsert: embedding dimension mismatch within batch"@,
        ),
        chunks[at].vec.len() == dim ==> points_of(chunks, dim) == Err::<Seq<StoredPointView>, _>(
            "chunk id must be non-negative"@,
        ),
{
    let sound = chunks.take(at);
    let upto = chunks.take(at + 1);
    assert forall|i: int| 0 <= i < sound.len() implies (#[trigger] sound[i]).vec.len() == dim
        && sound[i].id >= 0 by {
        assert(sound[i] == chunks[i]);
    }
    batch_is_stored_whole(sound, dim);
    assert(upto.drop_last() =~= sound);
    assert(upto.last() == chunks[at]);
    lemma_first_fault_stays(chunks, dim, at + 1);
}

/// A stored chunk that is found again makes the hit that its path and text make.
pub proof fn stored_chunk_is_found(chunk: ChunkPointView, score: u32)
    requires
        chunk.path.len() > 0,
    ensures
        found_hits(seq![FoundPointView { fields: point_of(chunk).fields, score }]) == seq![
            RagHitView {
                path: chunk.path,
                snippet: snippet(chunk.text, SNIPPET_CHARS as nat),
                score: Some(score),
            },
        ],
{
    lemma_fields_differ();
    let points = seq![FoundPointView { fields: point_of(chunk).fields, score }];
    reveal_with_fuel(found_hits, 2);
    assert(points.drop_last() =~= seq![]);
    assert(found_hits(points) =~= seq![
        RagHitView {
            path: chunk.path,
            snippet: snippet(chunk.text, SNIPPET_CHARS as nat),
            score: Some(score),
        },
    ]);
}

/// What a run of [`query_qdrant`] waits for, and the bits of the query vector as long as it is
/// still to be searched for.
pub enum SearchStage {
    /// A client, to search this collection with.
    Connecting { collection: String, query: Vec<u32> },
    /// Whether this collection exists.
    Describing { collection: String, query: Vec<u32> },
    /// The points near the query vector.
    Searching,
    /// Nothing more.
    Finished,
}

/// What a run of [`query_qdrant`] waits for, by what it holds.
pub enum SearchStageView {
    Connecting { collection: Seq<char>, query: Seq<u32> },
    Describing { collection: Seq<char>, query: Seq<u32> },
    Searching,
    Finished,
}

impl DeepView for SearchStage {
    type V = SearchStageView;

    open spec fn deep_view(&self) -> SearchStageView {
        match *self {
            SearchStage::Connecting { collection, query } => SearchStageView::Connecting {
                collection: collection@,
                query: query@,
            },
            SearchStage::Describing { collection, query } => SearchStageView::Describing {
                collection: collection@,
                query: query@,
            },
            SearchStage::Searching => SearchStageView::Searching,
            SearchStage::Finished => SearchStageView::Finished,
        }
    }
}

/// A run of [`query_qdrant`].
pub struct SearchRun {
    pub top_k: u32,
    pub stage: SearchStage,
}

/// What a run of [`query_qdrant`] holds.
#[verifier::ext_equal]
pub struct SearchRunView {
    pub top_k: u32,
    pub stage: SearchStageView,
}

impl DeepView for SearchRun {
    type V = SearchRunView;

    open spec fn deep_view(&self) -> SearchRunView {
        SearchRunView { top_k: self.top_k, stage: self.stage.deep_view() }
    }
}

/// What came of a [`SearchAction`].
pub enum SearchEvent {
    /// There is a client, or why not.
    Connected(Result<(), String>),
    /// The collection was described, or why not.
    Described(Result<(), String>),
    /// The points that were found, best first, or why none.
    Searched(Result<Vec<FoundPoint>, String>),
}

/// What came of a [`SearchAction`], by what it holds.
pub enum SearchEventView {
    Connected(Result<(), Seq<char>>),
    Described(Result<(), Seq<char>>),
    Searched(Result<Seq<FoundPointView>, Seq<char>>),
}

impl DeepView for SearchEvent {
    type V = SearchEventView;

    open spec fn deep_view(&self) -> SearchEventView {
        match *self {
            SearchEvent::Connected(connected) => SearchEventView::Connected(
                unit_outcome(connected),
            ),
            SearchEvent::Described(described) => SearchEventView::Described(
                unit_outcome(described),
            ),
            SearchEvent::Searched(points) => SearchEventView::Searched(outcome(points)),
        }
    }
}

/// What a run of [`query_qdrant`] asks for next.
pub enum SearchAction {
    /// Make a client for this address, with this key.
    Connect { url: String, api_key: Option<String> },
    /// Describe this collection.
    Describe { collection: String },
    /// Find this many points of this collection near the vector with these bits, with or without
    /// their payloads.
    Search { collection: String, query: Vec<u32>, limit: u64, with_payload: bool },
    /// The run is over: the answer, if there is one, or why there is none.
    Finish(Result<Option<QueryResponse>, String>),
}

/// What a run of [`query_qdrant`] asks for next, by what it holds.
pub enum SearchActionView {
    Connect { url: Seq<char>, api_key: Option<Seq<char>> },
    Describe { collection: Seq<char> },
    Search { collection: Seq<char>, query: Seq<u32>, limit: u64, with_payload: bool },
    Finish(Result<Option<QueryResponseView>, Seq<char>>),
}

impl DeepView for SearchAction {
    type V = SearchActionView;

    open spec fn deep_view(&self) -> SearchActionView {
        match *self {
            SearchAction::Connect { url, api_key } => SearchActionView::Connect {
                url: url@,
                api_key: api_key.deep_view(),
            },
            SearchAction::Describe { collection } => SearchActionView::Describe {
                collection: collection@,
            },
            SearchAction::Search { collection, query, limit, with_payload } => {
                SearchActionView::Search {
                    collection: collection@,
                    query: query@,
                    limit,
                    with_payload,
                }
            },
            SearchAction::Finish(answer) => SearchActionView::Finish(outcome(answer)),
        }
    }
}

/// What a search is seen to hold is what it holds.
pub proof fn search_course_is_seen_whole(run: SearchRun, event: SearchEvent, action: SearchAction)
    ensures
        run.deep_view().top_k == run.top_k,
        run.deep_view().stage == run.stage.deep_view(),
        match run.stage {
            SearchStage::Connecting { collection, query } => run.stage.deep_view()
                == (SearchStageView::Connecting { collection: collection@, query: query@ }),
            SearchStage::Describing { collection, query } => run.stage.deep_view()
                == (SearchStageView::Describing { collection: collection@, query: query@ }),
            SearchStage::Searching => run.stage.deep_view() is Searching,
            SearchStage::Finished => run.stage.deep_view() is Finished,
        },
        match event {
            SearchEvent::Connected(Ok(_)) => event.deep_view() == SearchEventView::Connected(
                Ok(()),
            ),
            SearchEvent::Connected(Err(message)) => event.deep_view()
                == SearchEventView::Connected(Err(message@)),
            SearchEvent::Described(Ok(_)) => event.deep_view() == SearchEventView::Described(
                Ok(()),
            ),
            SearchEvent::Described(Err(message)) => event.deep_view()
                == SearchEventView::Described(Err(message@)),
            SearchEvent::Searched(Ok(points)) => event.deep_view() == SearchEventView::Searched(
                Ok(points.deep_view()),
            ),
            SearchEvent::Searched(Err(message)) => event.deep_view() == SearchEventView::Searched(
                Err(message@),
            ),
        },
        match action {
            SearchAction::Connect { url, api_key } => action.deep_view() matches
                SearchActionView::Connect { url: seen_url, api_key: seen_key } && seen_url == url@
                && (match api_key {
                Some(key) => seen_key == Some(key@),
                None => seen_key is None,
            }),
            SearchAction::Describe { collection } => action.deep_view()
                == (SearchActionView::Describe { collection: collection@ }),
            SearchAction::Search { collection, query, limit, with_payload } => action.deep_view()
                == (SearchActionView::Search {
                collection: collection@,
                query: query@,
                limit,
                with_payload,
            }),
            SearchAction::Finish(Ok(Some(response))) => action.deep_view()
                == SearchActionView::Finish(Ok(Some(response.deep_view()))),
            SearchAction::Finish(Ok(None)) => action.deep_view() == SearchActionView::Finish(
                Ok(None),
            ),
            SearchAction::Finish(Err(message)) => action.deep_view() == SearchActionView::Finish(
                Err(message@),
            ),
        },
{
}

impl SearchRunView {
    /// Whether `event` is what the run waits for.
    pub open spec fn awaits(self, event: SearchEventView) -> bool {
        match (self.stage, event) {
            (SearchStageView::Connecting { .. }, SearchEventView::Connected(_)) => true,
            (SearchStageView::Describing { .. }, SearchEventView::Described(_)) => true,
            (SearchStageView::Searching, SearchEventView::Searched(_)) => true,
            _ => false,
        }
    }

    /// What the run waits for after `event`, and what it asks for.
    pub open spec fn next(self, event: SearchEventView) -> (SearchStageView, SearchActionView) {
        match (self.stage, event) {
            (
                SearchStageView::Connecting { collection, query },
                SearchEventView::Connected(Ok(_)),
            ) => (
                SearchStageView::Describing { collection, query },
                SearchActionView::Describe { collection },
            ),
            (_, SearchEventView::Connected(Err(message))) => (
                SearchStageView::Finished,
                SearchActionView::Finish(Err("qdrant client: "@ + message)),
            ),
            (
                SearchStageView::Describing { collection, query },
                SearchEventView::Described(Ok(_)),
            ) => (
                SearchStageView::Searching,
                SearchActionView::Search {
                    collection,
                    query,
                    limit: hit_limit(self.top_k) as u64,
                    with_payload: true,
                },
            ),
            (_, SearchEventView::Described(Err(message))) => (
                SearchStageView::Finished,
                SearchActionView::Finish(
                    if says_missing(message) {
                        Ok(None)
                    } else {
                        Err("qdrant collection_info: "@ + message)
                    },
                ),
            ),
            (_, SearchEventView::Searched(Ok(points))) => (
                SearchStageView::Finished,
                SearchActionView::Finish(
                    Ok(
                        Some(
                            QueryResponseView { hits: found_hits(points), phase: PHASE_QDRANT@ },
                        ),
                    ),
                ),
            ),
            (_, SearchEventView::Searched(Err(message))) => (
                SearchStageView::Finished,
                SearchActionView::Finish(Err("qdrant query: "@ + message)),
            ),
            _ => arbitrary(),
        }
    }
}

/// Starts to ask the vector database for the points nearest to the vector with the bits `query`, if
/// a database is configured.
///
/// A collection that does not exist is not created, for ingest decides on its vectors: there is
/// then no answer.
pub fn query_qdrant(config: Option<QdrantConfig>, query: Vec<u32>, top_k: u32) -> (started: (
    SearchRun,
    SearchAction,
))
    ensures
        started.0.top_k == top_k,
        (started.0.stage.deep_view(), started.1.deep_view()) == (match config.deep_view() {
            Some(config) => (
                SearchStageView::Connecting { collection: config.collection, query: query@ },
                SearchActionView::Connect { url: config.url, api_key: config.api_key },
            ),
            None => (SearchStageView::Finished, SearchActionView::Finish(Ok(None))),
        }),
{
    match config {
        Some(QdrantConfig { url, api_key, collection }) => (
            SearchRun { top_k, stage: SearchStage::Connecting { collection, query } },
            SearchAction::Connect { url, api_key },
        ),
        None => (
            SearchRun { top_k, stage: SearchStage::Finished },
            SearchAction::Finish(Ok(None)),
        ),
    }
}

impl SearchRun {
    /// Whether `event` is what the run waits for.
    pub fn expects(&self, event: &SearchEvent) -> (expected: bool)
        ensures
            expected == self.deep_view().awaits(event.deep_view()),
    {
        match (&self.stage, event) {
            (SearchStage::Connecting { .. }, SearchEvent::Connected(_)) => true,
            (SearchStage::Describing { .. }, SearchEvent::Described(_)) => true,
            (SearchStage::Searching, SearchEvent::Searched(_)) => true,
            _ => false,
        }
    }

    /// Goes on with what came of the last action.
    pub fn step(self, event: SearchEvent) -> (stepped: (SearchRun, SearchAction))
        requires
            self.deep_view().awaits(event.deep_view()),
        ensures
            stepped.0.top_k == self.top_k,
            (stepped.0.stage.deep_view(), stepped.1.deep_view()) == self.deep_view().next(
                event.deep_view(),
            ),
    {
        let SearchRun { top_k, stage } = self;
        let (stage, action) = match (stage, event) {
            (SearchStage::Connecting { collection, query }, SearchEvent::Connected(Ok(_))) => (
                SearchStage::Describing { collection: collection.clone(), query },
                SearchAction::Describe { collection },
            ),
            (_, SearchEvent::Connected(Err(message))) => (
                SearchStage::Finished,
                SearchAction::Finish(Err(joined("qdrant client: ", message.as_str()))),
            ),
            (SearchStage::Describing { collection, query }, SearchEvent::Described(Ok(_))) => (
                SearchStage::Searching,
                SearchAction::Search {
                    collection,
                    query,
                    limit: limited(top_k) as u64,
                    with_payload: true,
                },
            ),
            (_, SearchEvent::Described(Err(message))) => {
                let missing = text_contains(message.as_str(), "doesn't exist") || text_contains(
                    message.as_str(),
                    "Not found",
                );
                let answer = if missing {
                    Ok(None)
                } else {
                    Err(joined("qdrant collection_info: ", message.as_str()))
                };
                (SearchStage::Finished, SearchAction::Finish(answer))
            },
            (_, SearchEvent::Searched(Ok(points))) => (
                SearchStage::Finished,
                SearchAction::Finish(Ok(Some(found_response(points)))),
            ),
            (_, SearchEvent::Searched(Err(message))) => (
                SearchStage::Finished,
                SearchAction::Finish(Err(joined("qdrant query: ", message.as_str()))),
            ),
            _ => unreached(),
        };
        (SearchRun { top_k, stage }, action)
    }
}

/// How many more events a run can take in at this stage.
pub open spec fn search_steps_left(stage: SearchStageView) -> nat {
    match stage {
        SearchStageView::Connecting { .. } => 3,
        SearchStageView::Describing { .. } => 2,
        SearchStageView::Searching => 1,
        SearchStageView::Finished => 0,
    }
}

/// Every event brings a run nearer to its end, and a run is over exactly when it gives its
/// outcome.
pub proof fn search_run_ends(run: SearchRunView, event: SearchEventView)
    requires
        run.awaits(event),
    ensures
        search_steps_left(run.next(event).0) < search_steps_left(run.stage),
        run.next(event).0 is Finished <==> run.next(event).1 is Finish,
{
}

/// A search takes in the reply to its last action and nothing else.
pub proof fn search_run_takes_one_reply_at_a_time(run: SearchRunView, event: SearchEventView)
    ensures
        run.stage is Connecting ==> (run.awaits(event) <==> event is Connected),
        run.stage is Describing ==> (run.awaits(event) <==> event is Described),
        run.stage is Searching ==> (run.awaits(event) <==> event is Searched),
        run.stage is Finished ==> !run.awaits(event),
{
}

/// A client that cannot be made, a collection that cannot be described and a search that fails end
/// the run, with what failed and what was said of it; only a collection that is said to be missing
/// counts as no answer.
pub proof fn failures_end_a_search(run: SearchRunView, message: Seq<char>)
    ensures
        run.next(SearchEventView::Connected(Err(message))) == (
            SearchStageView::Finished,
            SearchActionView::Finish(Err("qdrant client: "@ + message)),
        ),
        run.next(SearchEventView::Searched(Err(message))) == (
            SearchStageView::Finished,
            SearchActionView::Finish(Err("qdrant query: "@ + message)),
        ),
        !says_missing(message) ==> run.next(SearchEventView::Described(Err(message))) == (
            SearchStageView::Finished,
            SearchActionView::Finish(Err("qdrant collection_info: "@ + message)),
        ),
        says_missing(message) ==> run.next(SearchEventView::Described(Err(message))) == (
            SearchStageView::Finished,
            SearchActionView::Finish(Ok(None)),
        ),
{
}

/// A collection that can be reached and exists is searched once, for the query as it was given,
/// with payloads and within the limit; whatever comes of it, the run is then over.
pub proof fn existing_collection_is_searched_once(
    top_k: u32,
    collection: Seq<char>,
    query: Seq<u32>,
    found: Result<Seq<FoundPointView>, Seq<char>>,
)
    ensures
        ({
            let connecting = SearchRunView {
                top_k,
                stage: SearchStageView::Connecting { collection, query },
            };
            let (stage, action) = connecting.next(SearchEventView::Connected(Ok(())));
            let describing = SearchRunView { top_k, stage };
            let (stage, search) = describing.next(SearchEventView::Described(Ok(())));
            let searching = SearchRunView { top_k, stage };
            &&& action == SearchActionView::Describe { collection }
            &&& search == SearchActionView::Search {
                collection,
                query,
                limit: hit_limit(top_k) as u64,
                with_payload: true,
            }
            &&& searching.awaits(SearchEventView::Searched(found))
            &&& searching.next(SearchEventView::Searched(found)).1 == SearchActionView::Finish(
                match found {
                    Ok(points) => Ok(
                        Some(QueryResponseView { hits: found_hits(points), phase: PHASE_QDRANT@ }),
                    ),
                    Err(message) => Err("qdrant query: "@ + message),
                },
            )
        }),
{
}

/// A collection that does not exist yet counts as no answer, and a query goes on to the index.
pub proof fn missing_collection_falls_back(
    run: SearchRunView,
    message: Seq<char>,
    query: QueryRunView,
    stage: QueryStageView,
    action: QueryActionView,
)
    requires
        run.stage is Describing,
        says_missing(message),
        query.stage is Asking,
    ensures
        run.next(SearchEventView::Described(Err(message))).1 == SearchActionView::Finish(Ok(None)),
        query.goes_on(QueryEventView::Answered(Ok(None)), stage, action) <==> {
            &&& stage == QueryStageView::Loading { query: query.stage->Asking_query }
            &&& action == QueryActionView::Load
        },
{
}

/// How the vector database can compare the vectors of a collection.
#[derive(Clone, Copy, Debug, PartialEq, Eq, Structural)]
pub enum Distance {
    Cosine,
    Euclid,
    Dot,
    Manhattan,
}

/// What a run of [`upsert_points`] waits for.
pub enum UpsertStage {
    /// A client, to store these chunks in this collection with.
    Connecting { collection: String, chunks: Vec<ChunkPoint> },
    /// Whether this collection could be created, to store these chunks in.
    Creating { collection: String, chunks: Vec<ChunkPoint> },
    /// Whether the points were stored.
    Storing,
    /// Nothing more.
    Finished,
}

/// What a run of [`upsert_points`] waits for, by what it holds.
pub enum UpsertStageView {
    Connecting { collection: Seq<char>, chunks: Seq<ChunkPointView> },
    Creating { collection: Seq<char>, chunks: Seq<ChunkPointView> },
    Storing,
    Finished,
}

impl DeepView for UpsertStage {
    type V = UpsertStageView;

    open spec fn deep_view(&self) -> UpsertStageView {
        match *self {
            UpsertStage::Connecting { collection, chunks } => UpsertStageView::Connecting {
                collection: collection@,
                chunks: chunks.deep_view(),
            },
            UpsertStage::Creating { collection, chunks } => UpsertStageView::Creating {
                collection: collection@,
                chunks: chunks.deep_view(),
            },
            UpsertStage::Storing => UpsertStageView::Storing,
            UpsertStage::Finished => UpsertStageView::Finished,
        }
    }
}

/// A run of [`upsert_points`].
pub struct UpsertRun {
    pub stage: UpsertStage,
}

/// What came of an [`UpsertAction`].
pub enum UpsertEvent {
    /// There is a client, or why not.
    Connected(Result<(), String>),
    /// The collection was created, or why not.
    Created(Result<(), String>),
    /// The points were stored, or why not.
    Stored(Result<(), String>),
}

/// What came of an [`UpsertAction`], by what it holds.
pub enum UpsertEventView {
    Connected(Result<(), Seq<char>>),
    Created(Result<(), Seq<char>>),
    Stored(Result<(), Seq<char>>),
}

impl DeepView for UpsertEvent {
    type V = UpsertEventView;

    open spec fn deep_view(&self) -> UpsertEventView {
        match *self {
            UpsertEvent::Connected(connected) => UpsertEventView::Connected(
                unit_outcome(connected),
            ),
            UpsertEvent::Created(created) => UpsertEventView::Created(unit_outcome(created)),
            UpsertEvent::Stored(stored) => UpsertEventView::Stored(unit_outcome(stored)),
        }
    }
}

/// What a run of [`upsert_points`] asks for next.
pub enum UpsertAction {
    /// Make a client for this address, with this key.
    Connect { url: String, api_key: Option<String> },
    /// Create this collection, of vectors of this length that are compared in this way.
    Create { collection: String, dim: u64, distance: Distance },
    /// Store these points in this collection, in place of those with the same ids.
    Store { collection: String, points: Vec<StoredPoint> },
    /// The run is over.
    Finish(Result<(), String>),
}

/// What a run of [`upsert_points`] asks for next, by what it holds.
pub enum UpsertActionView {
    Connect { url: Seq<char>, api_key: Option<Seq<char>> },
    Create { collection: Seq<char>, dim: u64, distance: Distance },
    Store { collection: Seq<char>, points: Seq<StoredPointView> },
    Finish(Result<(), Seq<char>>),
}

impl DeepView for UpsertAction {
    type V = UpsertActionView;

    open spec fn deep_view(&self) -> UpsertActionView {
        match *self {
            UpsertAction::Connect { url, api_key } => UpsertActionView::Connect {
                url: url@,
                api_key: api_key.deep_view(),
            },
            UpsertAction::Create { collection, dim, distance } => UpsertActionView::Create {
                collection: collection@,
                dim,
                distance,
            },
            UpsertAction::Store { collection, points } => UpsertActionView::Store {
                collection: collection@,
                points: points.deep_view(),
            },
            UpsertAction::Finish(stored) => UpsertActionView::Finish(unit_outcome(stored)),
        }
    }
}

/// What an upsert is seen to hold is what it holds.
pub proof fn upsert_course_is_seen_whole(
    stage: UpsertStage,
    event: UpsertEvent,
    action: UpsertAction,
)
    ensures
        match stage {
            UpsertStage::Connecting { collection, chunks } => stage.deep_view()
                == (UpsertStageView::Connecting {
                collection: collection@,
                chunks: chunks.deep_view(),
            }),
            UpsertStage::Creating { collection, chunks } => stage.deep_view()
                == (UpsertStageView::Creating {
                collection: collection@,
                chunks: chunks.deep_view(),
            }),
            UpsertStage::Storing => stage.deep_view() is Storing,
            UpsertStage::Finished => stage.deep_view() is Finished,
        },
        match event {
            UpsertEvent::Connected(Ok(_)) => event.deep_view() == UpsertEventView::Connected(
                Ok(()),
            ),
            UpsertEvent::Connected(Err(message)) => event.deep_view()
                == UpsertEventView::Connected(Err(message@)),
            UpsertEvent::Created(Ok(_)) => event.deep_view() == UpsertEventView::Created(Ok(())),
            UpsertEvent::Created(Err(message)) => event.deep_view() == UpsertEventView::Created(
                Err(message@),
            ),
            UpsertEvent::Stored(Ok(_)) => event.deep_view() == UpsertEventView::Stored(Ok(())),
            UpsertEvent::Stored(Err(message)) => event.deep_view() == UpsertEventView::Stored(
                Err(message@),
            ),
        },
        match action {
            UpsertAction::Connect { url, api_key } => action.deep_view() matches
                UpsertActionView::Connect { url: seen_url, api_key: seen_key } && seen_url == url@
                && (match api_key {
                Some(key) => seen_key == Some(key@),
                None => seen_key is None,
            }),
            UpsertAction::Create { collection, dim, distance } => action.deep_view()
                == (UpsertActionView::Create { collection: collection@, dim, distance }),
            UpsertAction::Store { collection, points } => action.deep_view()
                == (UpsertActionView::Store {
                collection: collection@,
                points: points.deep_view(),
            }),
            UpsertAction::Finish(Ok(_)) => action.deep_view() == UpsertActionView::Finish(Ok(())),
            UpsertAction::Finish(Err(message)) => action.deep_view() == UpsertActionView::Finish(
                Err(message@),
            ),
        },
{
}

impl UpsertStageView {
    /// Whether a run that waits for this has chunks to store where it needs them.
    pub open spec fn has_chunks(self) -> bool {
        match self {
            UpsertStageView::Connecting { chunks, .. } => chunks.len() > 0,
            UpsertStageView::Creating { chunks, .. } => chunks.len() > 0,
            _ => true,
        }
    }

    /// Whether `event` is what the run waits for.
    pub open spec fn awaits(self, event: UpsertEventView) -> bool {
        match (self, event) {
            (UpsertStageView::Connecting { .. }, UpsertEventView::Connected(_)) => true,
            (UpsertStageView::Creating { .. }, UpsertEventView::Created(_)) => true,
            (UpsertStageView::Storing, UpsertEventView::Stored(_)) => true,
            _ => false,
        }
    }

    /// What the run waits for after `event`, and what it asks for. The first chunk says how long
    /// the vectors are; they are compared by cosine.
    pub open spec fn next(self, event: UpsertEventView) -> (UpsertStageView, UpsertActionView) {
        match (self, event) {
            (
                UpsertStageView::Connecting { collection, chunks },
                UpsertEventView::Connected(Ok(_)),
            ) => (
                UpsertStageView::Creating { collection, chunks },
                UpsertActionView::Create {
                    collection,
                    dim: chunks[0].vec.len() as u64,
                    distance: Distance::Cosine,
                },
            ),
            (_, UpsertEventView::Connected(Err(message))) => (
                UpsertStageView::Finished,
                UpsertActionView::Finish(Err("qdrant client: "@ + message)),
            ),
            (
                UpsertStageView::Creating { collection, chunks },
                UpsertEventView::Created(created),
            ) => match (ensured(created), points_of(chunks, chunks[0].vec.len())) {
                (Err(message), _) => (
                    UpsertStageView::Finished,
                    UpsertActionView::Finish(Err(message)),
                ),
                (Ok(_), Err(message)) => (
                    UpsertStageView::Finished,
                    UpsertActionView::Finish(Err(message)),
                ),
                (Ok(_), Ok(points)) => (
                    UpsertStageView::Storing,
                    UpsertActionView::Store { collection, points },
                ),
            },
            (_, UpsertEventView::Stored(Ok(_))) => (
                UpsertStageView::Finished,
                UpsertActionView::Finish(Ok(())),
            ),
            (_, UpsertEventView::Stored(Err(message))) => (
                UpsertStageView::Finished,
                UpsertActionView::Finish(Err("qdrant upsert: "@ + message)),
            ),
            _ => arbitrary(),
        }
    }
}

/// Starts to store chunks in the vector database, if one is configured and there are any.
pub fn upsert_points(config: Option<QdrantConfig>, points: Vec<ChunkPoint>) -> (started: (
    UpsertRun,
    UpsertAction,
))
    ensures
        started.0.stage.deep_view().has_chunks(),
        (started.0.stage.deep_view(), started.1.deep_view()) == (match config.deep_view() {
            Some(config) => if points@.len() > 0 {
                (
                    UpsertStageView::Connecting {
                        collection: config.collection,
                        chunks: points.deep_view(),
                    },
                    UpsertActionView::Connect { url: config.url, api_key: config.api_key },
                )
            } else {
                (UpsertStageView::Finished, UpsertActionView::Finish(Ok(())))
            },
            None => (UpsertStageView::Finished, UpsertActionView::Finish(Ok(()))),
        }),
{
    match config {
        Some(QdrantConfig { url, api_key, collection }) => if points.len() > 0 {
            (
                UpsertRun { stage: UpsertStage::Connecting { collection, chunks: points } },
                UpsertAction::Connect { url, api_key },
            )
        } else {
            (UpsertRun { stage: UpsertStage::Finished }, UpsertAction::Finish(Ok(())))
        },
        None => (UpsertRun { stage: UpsertStage::Finished }, UpsertAction::Finish(Ok(()))),
    }
}

impl UpsertRun {
    /// Whether `event` is what the run waits for, and the run has the chunks that it needs.
    pub fn expects(&self, event: &UpsertEvent) -> (expected: bool)
        ensures
            expected == (self.stage.deep_view().has_chunks() && self.stage.deep_view().awaits(
                event.deep_view(),
            )),
    {
        match (&self.stage, event) {
            (UpsertStage::Connecting { chunks, .. }, UpsertEvent::Connected(_)) => chunks.len() > 0,
            (UpsertStage::Creating { chunks, .. }, UpsertEvent::Created(_)) => chunks.len() > 0,
            (UpsertStage::Storing, UpsertEvent::Stored(_)) => true,
            _ => false,
        }
    }

    /// Goes on with what came of the last action.
    pub fn step(self, event: UpsertEvent) -> (stepped: (UpsertRun, UpsertAction))
        requires
            self.stage.deep_view().has_chunks(),
            self.stage.deep_view().awaits(event.deep_view()),
        ensures
            stepped.0.stage.deep_view().has_chunks(),
            (stepped.0.stage.deep_view(), stepped.1.deep_view()) == self.stage.deep_view().next(
                event.deep_view(),
            ),
    {
        let (stage, action) = match (self.stage, event) {
            (UpsertStage::Connecting { collection, chunks }, UpsertEvent::Connected(Ok(_))) => {
                let dim: usize = chunks[0].vec.len();
                (
                    UpsertStage::Creating { collection: collection.clone(), chunks },
                    UpsertAction::Create {
                        collection,
                        dim: dim as u64,
                        distance: Distance::Cosine,
                    },
                )
            },
            (_, UpsertEvent::Connected(Err(message))) => (
                UpsertStage::Finished,
                UpsertAction::Finish(Err(joined("qdrant client: ", message.as_str()))),
            ),
            (UpsertStage::Creating { collection, chunks }, UpsertEvent::Created(created)) => {
                let dim: usize = chunks[0].vec.len();
                match ensure_collection(created) {
                    Ok(_) => match stored_points(chunks, dim) {
                        Ok(points) => (
                            UpsertStage::Storing,
                            UpsertAction::Store { collection, points },
                        ),
                        Err(message) => (UpsertStage::Finished, UpsertAction::Finish(Err(message))),
                    },
                    Err(message) => (UpsertStage::Finished, UpsertAction::Finish(Err(message))),
                }
            },
            (_, UpsertEvent::Stored(Ok(_))) => (
                UpsertStage::Finished,
                UpsertAction::Finish(Ok(())),
            ),
            (_, UpsertEvent::Stored(Err(message))) => (
                UpsertStage::Finished,
                UpsertAction::Finish(Err(joined("qdrant upsert: ", message.as_str()))),
            ),
            _ => unreached(),
        };
        (UpsertRun { stage }, action)
    }
}

/// How many more events a run can take in at this stage.
pub open spec fn upsert_steps_left(stage: UpsertStageView) -> nat {
    match stage {
        UpsertStageView::Connecting { .. } => 3,
        UpsertStageView::Creating { .. } => 2,
        UpsertStageView::Storing => 1,
        UpsertStageView::Finished => 0,
    }
}

/// Every event brings a run nearer to its end, and a run is over exactly when it gives its
/// outcome.
pub proof fn upsert_run_ends(stage: UpsertStageView, event: UpsertEventView)
    requires
        stage.awaits(event),
    ensures
        upsert_steps_left(stage.next(event).0) < upsert_steps_left(stage),
        stage.next(event).0 is Finished <==> stage.next(event).1 is Finish,
{
}

/// An upsert takes in the reply to its last action and nothing else, and has chunks as long as they
/// are still to be stored.
pub proof fn upsert_run_takes_one_reply_at_a_time(stage: UpsertStageView, event: UpsertEventView)
    ensures
        stage matches UpsertStageView::Connecting { chunks, .. } ==> (stage.has_chunks()
            <==> chunks.len() > 0),
        stage matches UpsertStageView::Creating { chunks, .. } ==> (stage.has_chunks()
            <==> chunks.len() > 0),
        stage is Connecting ==> (stage.awaits(event) <==> event is Connected),
        stage is Creating ==> (stage.awaits(event) <==> event is Created),
        stage is Storing ==> (stage.awaits(event) <==> event is Stored),
        stage is Finished ==> !stage.awaits(event),
{
}

/// With a client the collection is asked for, for vectors as long as the first chunk's that are
/// compared by cosine, and all chunks are kept to be stored in it, as they are.
pub proof fn all_chunks_are_kept_to_be_stored(
    collection: Seq<char>,
    chunks: Seq<ChunkPointView>,
)
    requires
        chunks.len() > 0,
    ensures
        ({
            let (stage, action) = (UpsertStageView::Connecting { collection, chunks }).next(
                UpsertEventView::Connected(Ok(())),
            );
            &&& stage matches UpsertStageView::Creating { collection: place, chunks: kept } && place
                == collection && kept == chunks
            &&& action matches UpsertActionView::Create { collection: place, dim, distance } && place
                == collection && dim == chunks[0].vec.len() as u64 && distance == Distance::Cosine
        }),
{
}

/// A client that cannot be made, a collection that cannot be had, a batch with a faulty chunk and
/// points that cannot be stored end an upsert, with what failed and what was said of it, and nothing
/// more is sent.
pub proof fn failures_end_an_upsert(
    collection: Seq<char>,
    chunks: Seq<ChunkPointView>,
    message: Seq<char>,
)
    requires
        chunks.len() > 0,
    ensures
        ({
            let connecting = UpsertStageView::Connecting { collection, chunks };
            let creating = UpsertStageView::Creating { collection, chunks };
            &&& connecting.next(UpsertEventView::Connected(Err(message))) == (
                UpsertStageView::Finished,
                UpsertActionView::Finish(Err("qdrant client: "@ + message)),
            )
            &&& !says_exists(message) ==> creating.next(UpsertEventView::Created(Err(message))) == (
                UpsertStageView::Finished,
                UpsertActionView::Finish(Err("qdrant create_collection: "@ + message)),
            )
            &&& points_of(chunks, chunks[0].vec.len()) matches Err(fault) ==> creating.next(
                UpsertEventView::Created(Ok(())),
            ) == (UpsertStageView::Finished, UpsertActionView::Finish(Err(fault)))
            &&& UpsertStageView::Storing.next(UpsertEventView::Stored(Err(message))) == (
                UpsertStageView::Finished,
                UpsertActionView::Finish(Err("qdrant upsert: "@ + message)),
            )
        }),
{
}

/// Storing is idempotent as far as the collection goes: one that exists already takes the points
/// as a new one does.
pub proof fn existing_collection_is_as_good_as_new(stage: UpsertStageView, message: Seq<char>)
    requires
        stage is Creating,
        says_exists(message),
    ensures
        stage.next(UpsertEventView::Created(Err(message))) == stage.next(
            UpsertEventView::Created(Ok(())),
        ),
{
}

/// A batch of chunks with vectors of one length and ids that are not negative is stored, if all
/// goes well: the collection is first asked for, of vectors of that length compared by cosine; then
/// all chunks are sent at once, in order, each as its point; then the run is over.
pub proof fn good_batch_is_stored(collection: Seq<char>, chunks: Seq<ChunkPointView>)
    requires
        chunks.len() > 0,
        forall|i: int|
            0 <= i < chunks.len() ==> (#[trigger] chunks[i]).vec.len() == chunks[0].vec.len()
                && chunks[i].id >= 0,
    ensures
        ({
            let (creating, create) = (UpsertStageView::Connecting { collection, chunks }).next(
                UpsertEventView::Connected(Ok(())),
            );
            let (storing, store) = creating.next(UpsertEventView::Created(Ok(())));
            &&& create == UpsertActionView::Create {
                collection,
                dim: chunks[0].vec.len() as u64,
                distance: Distance::Cosine,
            }
            &&& store == UpsertActionView::Store {
                collection,
                points: chunks.map_values(|chunk: ChunkPointView| point_of(chunk)),
            }
            &&& storing.next(UpsertEventView::Stored(Ok(()))) == (
                UpsertStageView::Finished,
                UpsertActionView::Finish(Ok(())),
            )
        }),
{
    batch_is_stored_whole(chunks, chunks[0].vec.len());
}

/// All points of a batch that is sent have vectors of the length that the collection was asked
/// for.
pub proof fn sent_points_fit_the_collection(
    collection: Seq<char>,
    chunks: Seq<ChunkPointView>,
    created: Result<(), Seq<char>>,
)
    requires
        chunks.len() > 0,
        chunks[0].vec.len() <= u64::MAX,
    ensures
        ({
            let (creating, create) = (UpsertStageView::Connecting { collection, chunks }).next(
                UpsertEventView::Connected(Ok(())),
            );
            &&& create matches UpsertActionView::Create { dim, .. }
            &&& creating.next(UpsertEventView::Created(created)).1 matches UpsertActionView::Store {
                points,
                ..
            } ==> points.len() == chunks.len() && forall|i: int|
                0 <= i < points.len() ==> (#[trigger] points[i]).vec.len() == dim
        }),
{
    batch_is_stored_whole(chunks, chunks[0].vec.len());
    if let Ok(points) = points_of(chunks, chunks[0].vec.len()) {
        assert forall|i: int| 0 <= i < points.len() implies (#[trigger] points[i]).vec.len()
            == chunks[0].vec.len() by {
            assert(chunks[i].vec.len() == chunks[0].vec.len());
        }
    }
}

} // verus!
