use claw_rag_service::db::ChunkRow;
use claw_rag_service::default_top_k;
use claw_rag_service::search::query_index;
use claw_rag_service::search::rank_rows;
use claw_rag_service::search::select;
use claw_rag_service::search::truncate_snippet;
use claw_rag_service::search::QueryAction;
use claw_rag_service::search::QueryEvent;
use claw_rag_service::search::QueryRun;
use claw_rag_service::QueryRequest;
use claw_rag_service::QueryResponse;
use claw_rag_service::RagHit;

fn bits(numbers: &[f32]) -> Vec<u32> {
    numbers.iter().map(|x| x.to_bits()).collect()
}

fn row(path: &str, vec: &[f32]) -> ChunkRow {
    ChunkRow { path: path.to_string(), text: format!("text of {path}"), vec: bits(vec) }
}

fn request(top_k: u32) -> QueryRequest {
    QueryRequest { query: "hello".to_string(), top_k }
}

fn asking(top_k: u32, query: &[f32]) -> QueryRun {
    let (run, action) = query_index(true, &request(top_k));
    assert!(matches!(action, QueryAction::OpenDb));
    let (run, action) = run.step(QueryEvent::Opened(Ok(())));
    assert!(matches!(action, QueryAction::Embed(text) if text == "hello"));
    let vectors = vec![bits(query), bits(&[9.0])];
    let (run, action) = run.step(QueryEvent::Embedded(Ok(vectors)));
    match action {
        QueryAction::Ask { query: asked, top_k: k } => {
            assert_eq!(asked, bits(query));
            assert_eq!(k, top_k);
        }
        _ => panic!("the vector database is not asked"),
    }
    run
}

fn loading(top_k: u32, query: &[f32]) -> QueryRun {
    let (run, action) = asking(top_k, query).step(QueryEvent::Answered(Ok(None)));
    assert!(matches!(action, QueryAction::Load));
    run
}

fn finished(action: QueryAction) -> Result<QueryResponse, String> {
    match action {
        QueryAction::Finish(result) => result,
        _ => panic!("the run goes on"),
    }
}

fn paths(response: &QueryResponse) -> Vec<&str> {
    response.hits.iter().map(|h| h.path.as_str()).collect()
}

#[test]
fn query_missing_db_reports_phase() {
    let db_path = std::path::Path::new("/no/such/claw_rag.sqlite");
    let (_, action) =
        query_index(db_path.is_file(), &QueryRequest { query: "hello".into(), top_k: 3 });
    let r = finished(action).unwrap();
    assert_eq!(r.phase, "1-sqlite-no-db");
    assert!(r.hits.is_empty());
}

#[test]
fn eight_hits_by_default() {
    assert_eq!(default_top_k(), 8);
}

#[test]
fn a_short_text_is_shown_whole() {
    assert_eq!(truncate_snippet("hello", 5), "hello");
    assert_eq!(truncate_snippet("", 0), "");
}

#[test]
fn a_long_text_is_cut_by_characters() {
    assert_eq!(truncate_snippet("hello", 4), "hell…");
    assert_eq!(truncate_snippet("привет", 2), "пр…");
    assert_eq!(truncate_snippet("x", 0), "…");
    let once = truncate_snippet("hello", 4);
    assert_eq!(truncate_snippet(&once, 4), once);
}

#[test]
fn the_best_come_first() {
    let scores = bits(&[0.1, 0.9, -0.5, 0.9, 0.3]);
    assert_eq!(select(&scores, 5), vec![1, 3, 4, 0, 2]);
    assert_eq!(select(&scores, 3), vec![1, 3, 4]);
    assert_eq!(select(&scores, 1), vec![1]);
    assert_eq!(select(&scores, 0), Vec::<usize>::new());
    assert_eq!(select(&scores, 9), vec![1, 3, 4, 0, 2]);
}

#[test]
fn zeros_of_either_sign_are_equal() {
    assert_eq!(select(&bits(&[-0.0, 0.0, -0.0]), 3), vec![0, 1, 2]);
}

#[test]
fn what_is_no_number_keeps_its_place_among_equals() {
    assert_eq!(select(&bits(&[0.5, f32::NAN]), 2), vec![0, 1]);
    assert_eq!(select(&bits(&[f32::NAN, 0.5, f32::NAN, 0.5]), 4), vec![0, 1, 2, 3]);
    assert_eq!(select(&bits(&[f32::NAN, 0.5, f32::NAN]), 2), vec![0, 1]);
}

#[test]
fn what_is_no_number_loses_no_row() {
    let mut order = select(&bits(&[0.1, f32::NAN, 0.9, 0.5]), 4);
    order.sort_unstable();
    assert_eq!(order, vec![0, 1, 2, 3]);
}

#[test]
fn selection_agrees_with_a_stable_sort() {
    let numbers: Vec<f32> = (0..200).map(|i| ((i * 7919) % 31) as f32 / 10.0 - 1.5).collect();
    let mut expected: Vec<usize> = (0..numbers.len()).collect();
    expected.sort_by(|a, b| numbers[*b].partial_cmp(&numbers[*a]).unwrap());
    assert_eq!(select(&bits(&numbers), 200), expected);
    assert_eq!(select(&bits(&numbers), 64), expected[..64].to_vec());
}

#[test]
fn rows_are_ranked_into_hits() {
    let rows = vec![row("a", &[1.0, 0.0]), row("b", &[0.0, 1.0]), row("c", &[1.0, 1.0])];
    let response =
        rank_rows(&bits(&[0.0, 1.0]), &rows, &bits(&[0.0, 1.0, 0.70710677]), 2);
    assert_eq!(response.phase, "1-sqlite");
    assert_eq!(paths(&response), vec!["b", "c"]);
    assert_eq!(response.hits[0].score, Some(1.0f32.to_bits()));
    assert_eq!(response.hits[1].score, Some(0.70710677f32.to_bits()));
    assert_eq!(response.hits[0].snippet, "text of b");
}

#[test]
fn rows_of_another_length_score_zero() {
    let rows = vec![row("a", &[1.0, 0.0]), row("b", &[1.0]), row("c", &[1.0, 1.0])];
    let response = rank_rows(&bits(&[0.0, 1.0]), &rows, &bits(&[-0.5, 7.0, 0.5]), 3);
    assert_eq!(paths(&response), vec!["c", "b", "a"]);
    assert_eq!(response.hits[1].score, Some(0));
}

#[test]
fn empty_vectors_score_zero() {
    let rows = vec![row("a", &[]), row("b", &[])];
    let response = rank_rows(&vec![], &rows, &bits(&[1.0, 2.0]), 3);
    assert_eq!(paths(&response), vec!["a", "b"]);
    assert!(response.hits.iter().all(|h| h.score == Some(0)));
}

#[test]
fn no_more_than_sixty_four_hits() {
    let rows: Vec<ChunkRow> = (0..100).map(|i| row(&format!("r{i}"), &[1.0])).collect();
    let cosines = vec![0; 100];
    assert_eq!(rank_rows(&bits(&[1.0]), &rows, &cosines, 1000).hits.len(), 64);
    assert_eq!(rank_rows(&bits(&[1.0]), &rows, &cosines, 64).hits.len(), 64);
    assert_eq!(rank_rows(&bits(&[1.0]), &rows, &cosines, 63).hits.len(), 63);
    assert_eq!(rank_rows(&bits(&[1.0]), &rows, &cosines, 0).hits.len(), 0);
}

#[test]
fn snippets_have_four_hundred_and_eighty_characters() {
    let mut long = row("a", &[1.0]);
    long.text = "й".repeat(481);
    let mut fits = row("b", &[1.0]);
    fits.text = "й".repeat(480);
    let response = rank_rows(&bits(&[1.0]), &vec![long, fits], &bits(&[1.0, 0.5]), 2);
    assert_eq!(response.hits[0].snippet, format!("{}…", "й".repeat(480)));
    assert_eq!(response.hits[1].snippet, "й".repeat(480));
}

#[test]
fn a_query_runs_to_its_answer() {
    let run = loading(2, &[0.0, 1.0]);
    let rows = vec![row("w:a", &[1.0, 0.0]), row("w:b", &[0.0, 1.0]), row("w:c", &[1.0, 1.0])];
    let (run, action) = run.step(QueryEvent::Loaded(Ok(rows)));
    assert!(matches!(action, QueryAction::Score));
    assert!(!run.expects(&QueryEvent::Scored(vec![0])));
    let cosines = QueryEvent::Scored(bits(&[0.0, 1.0, 0.7]));
    assert!(run.expects(&cosines));
    let (run, action) = run.step(cosines);
    let response = finished(action).unwrap();
    assert_eq!(response.phase, "1-sqlite");
    assert_eq!(paths(&response), vec!["w:b", "w:c"]);
    assert!(response.hits.iter().all(|h| h.path.contains(':')));
    assert!(!run.expects(&QueryEvent::Opened(Ok(()))));
}

#[test]
fn a_database_that_does_not_open_ends_the_query() {
    let (run, _) = query_index(true, &request(3));
    let (_, action) = run.step(QueryEvent::Opened(Err("locked".to_string())));
    assert_eq!(finished(action).err(), Some("locked".to_string()));
}

#[test]
fn a_query_that_cannot_be_embedded_ends() {
    let (run, _) = query_index(true, &request(3));
    let (run, _) = run.step(QueryEvent::Opened(Ok(())));
    let (_, action) = run.step(QueryEvent::Embedded(Err("refused".to_string())));
    assert_eq!(finished(action).err(), Some("refused".to_string()));
}

#[test]
fn a_query_without_an_embedding_ends() {
    let (run, _) = query_index(true, &request(3));
    let (run, _) = run.step(QueryEvent::Opened(Ok(())));
    let (_, action) = run.step(QueryEvent::Embedded(Ok(vec![])));
    assert_eq!(finished(action).err(), Some("no query embedding".to_string()));
}

#[test]
fn an_answer_of_the_vector_database_is_the_answer() {
    let answer = QueryResponse {
        hits: vec![RagHit { path: "p".to_string(), snippet: "s".to_string(), score: None }],
        phase: "2-qdrant",
    };
    let (_, action) = asking(3, &[1.0]).step(QueryEvent::Answered(Ok(Some(answer))));
    let response = finished(action).unwrap();
    assert_eq!(response.phase, "2-qdrant");
    assert_eq!(paths(&response), vec!["p"]);
}

#[test]
fn a_vector_database_that_fails_is_passed_over() {
    let (_, action) = asking(3, &[1.0]).step(QueryEvent::Answered(Err("down".to_string())));
    assert!(matches!(action, QueryAction::Load));
}

#[test]
fn an_index_that_does_not_load_ends_the_query() {
    let (_, action) = loading(3, &[1.0]).step(QueryEvent::Loaded(Err("disk".to_string())));
    assert_eq!(finished(action).err(), Some("disk".to_string()));
}

#[test]
fn an_empty_index_says_so() {
    let (_, action) = loading(3, &[1.0]).step(QueryEvent::Loaded(Ok(vec![])));
    let response = finished(action).unwrap();
    assert_eq!(response.phase, "1-sqlite-empty");
    assert!(response.hits.is_empty());
}

#[test]
fn a_query_of_another_model_is_refused() {
    let rows = vec![row("a", &[1.0; 16]), row("b", &[1.0])];
    let (_, action) = loading(3, &[1.0]).step(QueryEvent::Loaded(Ok(rows)));
    assert_eq!(
        finished(action).err(),
        Some(
            "embedding dimension mismatch: index uses dim 16 but query embedding has 1 \
             (same model/env as ingest required)"
                .to_string()
        )
    );
}
