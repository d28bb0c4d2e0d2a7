use claw_rag_service::qdrant_index::ensure_collection;
use claw_rag_service::qdrant_index::found_response;
use claw_rag_service::qdrant_index::hit_of;
use claw_rag_service::qdrant_index::query_qdrant;
use claw_rag_service::qdrant_index::stored_points;
use claw_rag_service::qdrant_index::upsert_points;
use claw_rag_service::qdrant_index::ChunkPoint;
use claw_rag_service::qdrant_index::Distance;
use claw_rag_service::qdrant_index::FoundPoint;
use claw_rag_service::qdrant_index::QdrantConfig;
use claw_rag_service::qdrant_index::SearchAction;
use claw_rag_service::qdrant_index::SearchEvent;
use claw_rag_service::qdrant_index::SearchRun;
use claw_rag_service::qdrant_index::UpsertAction;
use claw_rag_service::qdrant_index::UpsertEvent;
use claw_rag_service::qdrant_index::UpsertRun;
use claw_rag_service::QueryResponse;
use qdrant_client::Payload;

fn some(text: &str) -> Option<String> {
    Some(text.to_string())
}

fn config() -> Option<QdrantConfig> {
    QdrantConfig::from_env(some("http://host:6334"), some("notes"), some("key"))
}

fn chunk(id: i64, dim: usize, path: &str, text: &str) -> ChunkPoint {
    ChunkPoint { id, vec: vec![0x3f80_0000; dim], path: path.to_string(), text: text.to_string() }
}

fn found(path: Option<&str>, text: Option<&str>, score: f32) -> FoundPoint {
    let mut payload = Payload::new();
    if let Some(path) = path {
        payload.insert("path", path);
    }
    if let Some(text) = text {
        payload.insert("text", text);
    }
    FoundPoint { payload, score: score.to_bits() }
}

fn asked() -> Vec<u32> {
    vec![0.25f32.to_bits(), f32::NAN.to_bits(), (-0.0f32).to_bits()]
}

fn describing(top_k: u32) -> SearchRun {
    let (run, action) = query_qdrant(config(), asked(), top_k);
    match action {
        SearchAction::Connect { url, api_key } => {
            assert_eq!(url, "http://host:6334");
            assert_eq!(api_key, some("key"));
        }
        _ => panic!("no client"),
    }
    let (run, action) = run.step(SearchEvent::Connected(Ok(())));
    assert!(matches!(action, SearchAction::Describe { collection } if collection == "notes"));
    run
}

fn searching(top_k: u32) -> SearchRun {
    describing(top_k).step(SearchEvent::Described(Ok(()))).0
}

fn answered(action: SearchAction) -> Result<Option<QueryResponse>, String> {
    match action {
        SearchAction::Finish(result) => result,
        _ => panic!("the run goes on"),
    }
}

fn creating(chunks: Vec<ChunkPoint>) -> (UpsertRun, UpsertAction) {
    let (run, action) = upsert_points(config(), chunks);
    assert!(matches!(action, UpsertAction::Connect { url, .. } if url == "http://host:6334"));
    let event = UpsertEvent::Connected(Ok(()));
    assert!(run.expects(&event));
    run.step(event)
}

fn upserted(action: UpsertAction) -> Result<(), String> {
    match action {
        UpsertAction::Finish(result) => result,
        _ => panic!("the run goes on"),
    }
}

#[test]
fn an_address_makes_a_configuration() {
    let c = QdrantConfig::from_env(some("u"), None, None).unwrap();
    assert_eq!(c.url, "u");
    assert_eq!(c.collection, "claw_rag_chunks");
    assert_eq!(c.api_key, None);
    assert_eq!(config().unwrap().collection, "notes");
    assert!(QdrantConfig::from_env(None, some("notes"), some("key")).is_none());
}

#[test]
fn without_a_configuration_there_is_no_answer() {
    let (_, action) = query_qdrant(None, asked(), 3);
    assert!(answered(action).unwrap().is_none());
}

#[test]
fn a_client_that_cannot_be_made_is_told() {
    let (run, _) = query_qdrant(config(), asked(), 3);
    let (_, action) = run.step(SearchEvent::Connected(Err("bad url".to_string())));
    assert_eq!(answered(action).err(), some("qdrant client: bad url"));
}

#[test]
fn a_missing_collection_is_no_answer() {
    for message in ["Collection `notes` doesn't exist!", "Not found", "status: Not found: x"] {
        let (_, action) = describing(3).step(SearchEvent::Described(Err(message.to_string())));
        assert!(answered(action).unwrap().is_none(), "{message}");
    }
}

#[test]
fn another_fault_of_the_collection_is_told() {
    for message in ["not found", "", "timeout", "doesnt exist", "Not foun"] {
        let (_, action) = describing(3).step(SearchEvent::Described(Err(message.to_string())));
        assert_eq!(answered(action).err(), Some(format!("qdrant collection_info: {message}")));
    }
}

#[test]
fn the_search_is_for_the_query_and_limited() {
    for (top_k, expected) in [(3, 3), (64, 64), (65, 64), (u32::MAX, 64), (0, 0)] {
        let (_, action) = describing(top_k).step(SearchEvent::Described(Ok(())));
        match action {
            SearchAction::Search { collection, query, limit, with_payload } => {
                assert_eq!(collection, "notes");
                assert_eq!(query, asked());
                assert_eq!(limit, expected);
                assert!(with_payload);
            }
            _ => panic!("no search"),
        }
    }
}

#[test]
fn a_search_that_fails_is_told() {
    let (_, action) = searching(3).step(SearchEvent::Searched(Err("down".to_string())));
    assert_eq!(answered(action).err(), some("qdrant query: down"));
}

#[test]
fn found_points_make_the_answer() {
    let long = "я".repeat(500);
    let points = vec![
        found(Some("w:a"), Some("one"), 0.9),
        found(None, Some("nowhere"), 0.8),
        found(Some(""), Some("nowhere"), 0.7),
        found(Some("w:b"), None, 0.6),
        found(Some("w:c"), Some(&long), 0.5),
    ];
    let (_, action) = searching(5).step(SearchEvent::Searched(Ok(points)));
    let response = answered(action).unwrap().unwrap();
    assert_eq!(response.phase, "2-qdrant");
    assert_eq!(response.hits.len(), 3);
    assert_eq!(response.hits[0].path, "w:a");
    assert_eq!(response.hits[0].snippet, "one");
    assert_eq!(response.hits[0].score, Some(0.9f32.to_bits()));
    assert_eq!(response.hits[1].path, "w:b");
    assert_eq!(response.hits[1].snippet, "");
    assert_eq!(response.hits[2].snippet, format!("{}…", "я".repeat(480)));
}

#[test]
fn a_path_that_is_no_text_is_none() {
    let mut payload = Payload::new();
    payload.insert("path", 12);
    payload.insert("text", "t");
    let response = found_response(vec![FoundPoint { payload, score: 0 }]);
    assert!(response.hits.is_empty());
}

#[test]
fn a_text_that_is_no_text_is_empty() {
    let mut payload = Payload::new();
    payload.insert("path", "w:a");
    payload.insert("text", true);
    payload.insert("more", "m");
    let response = found_response(vec![FoundPoint { payload, score: 0 }]);
    assert_eq!(response.hits.len(), 1);
    assert_eq!(response.hits[0].path, "w:a");
    assert_eq!(response.hits[0].snippet, "");
}

#[test]
fn a_collection_that_exists_is_good() {
    assert_eq!(ensure_collection(Ok(())), Ok(()));
    assert_eq!(ensure_collection(Err("Collection `notes` already exists!".to_string())), Ok(()));
    assert_eq!(ensure_collection(Err("Already exists".to_string())), Ok(()));
    assert_eq!(
        ensure_collection(Err("ALREADY EXISTS".to_string())),
        Err("qdrant create_collection: ALREADY EXISTS".to_string())
    );
}

#[test]
fn nothing_to_store_is_done_at_once() {
    assert_eq!(upserted(upsert_points(None, vec![chunk(1, 2, "p", "t")]).1), Ok(()));
    assert_eq!(upserted(upsert_points(config(), vec![]).1), Ok(()));
}

#[test]
fn an_upsert_runs_to_its_end() {
    let (run, action) = creating(vec![chunk(1, 2, "w:a", "one"), chunk(0, 2, "w:b", "two")]);
    match action {
        UpsertAction::Create { collection, dim, distance } => {
            assert_eq!(collection, "notes");
            assert_eq!(dim, 2);
            assert_eq!(distance, Distance::Cosine);
        }
        _ => panic!("no collection"),
    }
    let (run, action) = run.step(UpsertEvent::Created(Err("already exists".to_string())));
    match action {
        UpsertAction::Store { collection, points } => {
            assert_eq!(collection, "notes");
            assert_eq!(points.len(), 2);
            assert_eq!(points[0].id, 1);
            assert_eq!(points[0].vec, vec![0x3f80_0000, 0x3f80_0000]);
            let mut expected = Payload::new();
            expected.insert("path", "w:a");
            expected.insert("text", "one");
            assert_eq!(points[0].payload, expected);
            assert_eq!(points[1].id, 0);
        }
        _ => panic!("no points"),
    }
    let (_, action) = run.step(UpsertEvent::Stored(Ok(())));
    assert_eq!(upserted(action), Ok(()));
}

#[test]
fn faults_of_an_upsert_are_told() {
    let (run, _) = upsert_points(config(), vec![chunk(1, 2, "p", "t")]);
    let (_, action) = run.step(UpsertEvent::Connected(Err("bad url".to_string())));
    assert_eq!(upserted(action), Err("qdrant client: bad url".to_string()));

    let (run, _) = creating(vec![chunk(1, 2, "p", "t")]);
    let (_, action) = run.step(UpsertEvent::Created(Err("denied".to_string())));
    assert_eq!(upserted(action), Err("qdrant create_collection: denied".to_string()));

    let (run, _) = creating(vec![chunk(1, 2, "p", "t")]);
    let (run, _) = run.step(UpsertEvent::Created(Ok(())));
    let (_, action) = run.step(UpsertEvent::Stored(Err("full".to_string())));
    assert_eq!(upserted(action), Err("qdrant upsert: full".to_string()));
}

#[test]
fn the_collection_comes_before_the_points() {
    let (run, action) = creating(vec![chunk(1, 2, "p", "t"), chunk(2, 3, "p", "t")]);
    assert!(matches!(action, UpsertAction::Create { dim: 2, .. }));
    let (_, action) = run.step(UpsertEvent::Created(Ok(())));
    assert_eq!(
        upserted(action),
        Err("qdrant upsert: embedding dimension mismatch within batch".to_string())
    );
}

#[test]
fn the_first_bad_chunk_is_told() {
    let mismatch = "qdrant upsert: embedding dimension mismatch within batch";
    let negative = "chunk id must be non-negative";
    let fault = |chunks: Vec<ChunkPoint>| stored_points(chunks, 2).err();
    assert_eq!(fault(vec![chunk(-1, 2, "p", "t")]), some(negative));
    assert_eq!(fault(vec![chunk(-1, 3, "p", "t")]), some(mismatch));
    assert_eq!(fault(vec![chunk(-1, 2, "p", "t"), chunk(1, 3, "p", "t")]), some(negative));
    assert_eq!(fault(vec![chunk(1, 3, "p", "t"), chunk(-1, 2, "p", "t")]), some(mismatch));
    assert_eq!(fault(vec![chunk(i64::MAX, 2, "p", "t")]), None);
}

#[test]
fn a_stored_chunk_is_found_as_it_was() {
    let mut points = stored_points(vec![chunk(5, 1, "w:a", "the text")], 1).unwrap();
    let point = points.pop().unwrap();
    let response = found_response(vec![FoundPoint { payload: point.payload, score: 7 }]);
    assert_eq!(response.hits.len(), 1);
    assert_eq!(response.hits[0].path, "w:a");
    assert_eq!(response.hits[0].snippet, "the text");
    assert_eq!(response.hits[0].score, Some(7));
}

#[test]
fn a_hit_says_where_it_comes_from() {
    let hit = hit_of(some("w:a"), some("one"), 3).unwrap();
    assert_eq!(hit.path, "w:a");
    assert_eq!(hit.snippet, "one");
    assert_eq!(hit.score, Some(3));
    assert_eq!(hit_of(some("w:a"), None, 3).unwrap().snippet, "");
    assert!(hit_of(None, some("one"), 3).is_none());
    assert!(hit_of(some(""), some("one"), 3).is_none());
}
