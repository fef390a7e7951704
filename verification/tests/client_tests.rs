use llm_client::client::{client_from_key, interpret_response, validate_embedding_response, Client};
use llm_client::errors::ClientError;
use llm_client::schema::{Embedding, EmbeddingResponse, Usage};

fn one_embedding(index: u32) -> Embedding {
    Embedding { index, embedding: vec![0x3f800000, 0x3e99999a], object: None }
}

fn response_with(data: Vec<Embedding>) -> EmbeddingResponse {
    EmbeddingResponse {
        object: Some("list".to_string()),
        data,
        model: "text-embedding-ada-002".to_string(),
        usage: Usage { prompt_tokens: 8, total_tokens: 8 },
    }
}

#[test]
fn client_new_uses_default_base_url() {
    let c = Client::new("sk-test".to_string());
    assert_eq!(c.api_key, "sk-test");
    assert!(c.organization.is_none());
    assert!(c.project.is_none());
    assert_eq!(c.base_url, "https://api.openai.com/v1");
}

#[test]
fn endpoint_url_joins_base_and_path() {
    let c = Client::new("k".to_string()).with_base_url("http://localhost:8080/v1".to_string());
    assert_eq!(c.endpoint_url("/embeddings"), "http://localhost:8080/v1/embeddings");
    assert_eq!(c.endpoint_url("/chat/completions"), "http://localhost:8080/v1/chat/completions");
}

#[test]
fn missing_credential_is_a_config_error() {
    match client_from_key(None) {
        Err(ClientError::ConfigError) => {}
        other => panic!("expected a config error, got {other:?}"),
    }
    let c = client_from_key(Some("sk-abc".to_string())).unwrap();
    assert_eq!(c.api_key, "sk-abc");
}

#[test]
fn non_2xx_surfaces_http_status_error() {
    // A 401 must surface HttpStatusError with the status, and the body must
    // not be handed on for success-schema parsing.
    let r = interpret_response(401, b"{\"error\":\"bad key\"}".to_vec());
    match r {
        Err(ClientError::HttpStatusError { status, body }) => {
            assert_eq!(status, 401);
            assert_eq!(body, b"{\"error\":\"bad key\"}".to_vec());
        }
        other => panic!("expected an http status error, got {other:?}"),
    }
}

#[test]
fn error_status_getter() {
    let e = ClientError::HttpStatusError { status: 503, body: Vec::new() };
    assert_eq!(e.status(), Some(503));
    assert_eq!(ClientError::ConfigError.status(), None);
}

#[test]
fn success_statuses_hand_the_body_on() {
    for status in [200u16, 201, 204, 299] {
        let r = interpret_response(status, b"{}".to_vec());
        assert_eq!(r.unwrap(), b"{}".to_vec());
    }
    for status in [100u16, 301, 400, 404, 500] {
        assert!(interpret_response(status, Vec::new()).is_err());
    }
}

#[test]
fn single_input_yields_single_embedding_at_index_zero() {
    // The fan-out invariant for a single input string: exactly one entry,
    // carrying index 0.
    let ok = response_with(vec![one_embedding(0)]);
    assert!(validate_embedding_response(&ok, 1).is_ok());
}

#[test]
fn wrong_embedding_count_is_a_decode_error() {
    let two = response_with(vec![one_embedding(0), one_embedding(1)]);
    match validate_embedding_response(&two, 1) {
        Err(ClientError::DecodeError { .. }) => {}
        other => panic!("expected a decode error, got {other:?}"),
    }
    let none = response_with(Vec::new());
    assert!(validate_embedding_response(&none, 1).is_err());
}

#[test]
fn wrong_embedding_index_is_a_decode_error() {
    let shifted = response_with(vec![one_embedding(1)]);
    match validate_embedding_response(&shifted, 1) {
        Err(ClientError::DecodeError { .. }) => {}
        other => panic!("expected a decode error, got {other:?}"),
    }
}
