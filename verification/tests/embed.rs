use claw_rag_service::embed::embed_batch;
use claw_rag_service::embed::mock_lanes_for_text;
use claw_rag_service::embed::vectors_comparable;
use claw_rag_service::embed::EmbedAction;
use claw_rag_service::embed::EmbedConfig;
use claw_rag_service::embed::EmbedEvent;
use claw_rag_service::embed::EmbedRun;

fn some(text: &str) -> Option<String> {
    Some(text.to_string())
}

fn texts(n: usize) -> Vec<String> {
    (0..n).map(|i| format!("text {i}")).collect()
}

fn config(base_url: &str) -> EmbedConfig {
    EmbedConfig {
        api_key: "k".to_string(),
        base_url: base_url.to_string(),
        model: "m".to_string(),
    }
}

fn sent(n: usize, status: u16) -> (EmbedRun, EmbedAction) {
    let (run, _) = embed_batch(&config("https://host/v1"), &texts(n));
    run.step(EmbedEvent::Sent(Ok(status)))
}

fn outcome(action: EmbedAction) -> Result<Vec<Vec<u32>>, String> {
    match action {
        EmbedAction::Finish(result) => result,
        _ => panic!("the run goes on"),
    }
}

#[test]
fn the_own_key_comes_first() {
    let c = EmbedConfig::from_env(some("own"), some("other"), None, None).unwrap();
    assert_eq!(c.api_key, "own");
    let c = EmbedConfig::from_env(None, some("other"), None, None).unwrap();
    assert_eq!(c.api_key, "other");
    assert_eq!(c.base_url, "https://api.openai.com/v1");
    assert_eq!(c.model, "text-embedding-3-small");
}

#[test]
fn a_key_is_needed() {
    let c = EmbedConfig::from_env(None, None, some("https://host"), some("m"));
    assert_eq!(
        c.err(),
        some("set CLAW_RAG_OPENAI_API_KEY or OPENAI_API_KEY for embeddings")
    );
}

#[test]
fn slashes_at_the_end_of_the_address_go() {
    let url = |u: &str| EmbedConfig::from_env(some("k"), None, some(u), None).unwrap().base_url;
    assert_eq!(url("https://host/v1///"), "https://host/v1");
    assert_eq!(url("https://host/v1"), "https://host/v1");
    assert_eq!(url("mock://"), "mock:");
    assert_eq!(url("///"), "");
    assert_eq!(url(""), "");
    assert_eq!(url("é/"), "é");
}

#[test]
fn the_mock_is_asked_for_by_a_one() {
    let c = EmbedConfig::mock_from_env(some("1")).unwrap();
    assert_eq!(c.api_key, "mock");
    assert_eq!(c.base_url, "mock://");
    assert_eq!(c.model, "mock-embedding");
    assert!(EmbedConfig::mock_from_env(some("0")).is_none());
    assert!(EmbedConfig::mock_from_env(some("11")).is_none());
    assert!(EmbedConfig::mock_from_env(None).is_none());
}

#[test]
fn the_mock_answers_at_once() {
    let c = EmbedConfig::mock_from_env(some("1")).unwrap();
    let (run, action) = embed_batch(&c, &["ab".to_string(), "".to_string()]);
    match action {
        EmbedAction::Mock(batch) => {
            assert_eq!(batch.len(), 2);
            assert!(batch.iter().all(|lanes| lanes.len() == 1536));
            assert_eq!(batch[0][0], vec![b'a']);
            assert_eq!(batch[0][1], vec![b'b']);
            assert!(batch[0][2].is_empty());
            assert!(batch[1].iter().all(|lane| lane.is_empty()));
        }
        _ => panic!("no mock"),
    }
    assert!(!run.expects(&EmbedEvent::Sent(Ok(200))));
}

#[test]
fn mock_bytes_fall_on_1536_components() {
    let byte = |at: usize| b'0' + (at % 61) as u8;
    let text: String = (0..6150).map(|at| byte(at) as char).collect();
    let lanes = mock_lanes_for_text(&text);
    assert_eq!(lanes.len(), 1536);
    for (component, lane) in lanes.iter().enumerate() {
        let expected: Vec<u8> = (0..4).map(|k| byte(component + 1536 * k)).collect();
        assert_eq!(lane, &expected);
    }
    assert_eq!(lanes, mock_lanes_for_text(&text[..6144]));
    assert_ne!(lanes, mock_lanes_for_text(&text[..6143]));
}

#[test]
fn mock_bytes_are_those_of_the_encoding() {
    let text = format!("é{}ef", "0".repeat(1534));
    let lanes = mock_lanes_for_text(&text);
    assert_eq!(lanes[0], vec![0xc3, b'e']);
    assert_eq!(lanes[1], vec![0xa9, b'f']);
    assert_eq!(lanes[2], vec![b'0']);
    assert_eq!(lanes[1535], vec![b'0']);
}

#[test]
fn vectors_compare_when_equally_long_and_not_empty() {
    assert!(vectors_comparable(3, 3));
    assert!(!vectors_comparable(3, 2));
    assert!(!vectors_comparable(0, 0));
}

#[test]
fn the_request_says_what_to_embed() {
    let (run, action) = embed_batch(&config("https://host/v1"), &texts(2));
    match action {
        EmbedAction::Post(request) => {
            assert_eq!(request.url, "https://host/v1/embeddings");
            assert_eq!(request.authorization, "Bearer k");
            assert_eq!(request.content_type, "application/json");
            assert_eq!(request.model, "m");
            assert_eq!(request.input, texts(2));
        }
        _ => panic!("no request"),
    }
    assert!(run.expects(&EmbedEvent::Sent(Err("e".to_string()))));
    assert!(!run.expects(&EmbedEvent::ErrorBody(None)));
}

#[test]
fn an_address_that_begins_as_the_mock_is_the_mock() {
    let (_, action) = embed_batch(&config("mock://x"), &texts(1));
    assert!(matches!(action, EmbedAction::Mock(_)));
    let (_, action) = embed_batch(&config("mock:/"), &texts(1));
    assert!(matches!(action, EmbedAction::Post(_)));
}

#[test]
fn a_request_that_is_not_answered_fails() {
    let (run, _) = embed_batch(&config("https://host/v1"), &texts(1));
    let (_, action) = run.step(EmbedEvent::Sent(Err("no route".to_string())));
    assert_eq!(outcome(action), Err("no route".to_string()));
}

#[test]
fn only_the_two_hundreds_are_a_success() {
    for status in [200, 204, 299] {
        assert!(matches!(sent(1, status).1, EmbedAction::ReadVectors), "{status}");
    }
    for status in [0, 20, 99, 100, 199, 300, 301, 404, 500, 999, 1000, 2000, 65535] {
        assert!(matches!(sent(1, status).1, EmbedAction::ReadErrorBody), "{status}");
    }
}

#[test]
fn a_refusal_is_told_with_its_body() {
    let (run, _) = sent(1, 401);
    let (_, action) = run.step(EmbedEvent::ErrorBody(Some("bad key".to_string())));
    assert_eq!(outcome(action), Err("embeddings HTTP error: bad key".to_string()));
    let (run, _) = sent(1, 500);
    let (_, action) = run.step(EmbedEvent::ErrorBody(None));
    assert_eq!(outcome(action), Err("embeddings HTTP error: ".to_string()));
}

#[test]
fn a_reply_must_hold_a_vector_to_a_text() {
    let (run, _) = sent(2, 200);
    let vectors = vec![vec![1, 2], vec![3]];
    let (_, action) = run.step(EmbedEvent::Vectors(Ok(vectors.clone())));
    assert_eq!(outcome(action), Ok(vectors.clone()));

    let (run, _) = sent(120, 200);
    let (_, action) = run.step(EmbedEvent::Vectors(Ok(vectors)));
    assert_eq!(
        outcome(action),
        Err("embeddings count mismatch: got 2 for 120 inputs".to_string())
    );

    let (run, _) = sent(1, 200);
    let (_, action) = run.step(EmbedEvent::Vectors(Ok(vec![])));
    assert_eq!(
        outcome(action),
        Err("embeddings count mismatch: got 0 for 1 inputs".to_string())
    );
}

#[test]
fn a_reply_that_cannot_be_read_fails() {
    let (run, _) = sent(1, 200);
    let (_, action) = run.step(EmbedEvent::Vectors(Err("not json".to_string())));
    assert_eq!(outcome(action), Err("not json".to_string()));
}
