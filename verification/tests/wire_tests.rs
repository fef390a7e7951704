use llm_client::schema::{ChatCompletionRequest, EmbeddingRequest, Message, Simple};

#[test]
fn simple_builder_emits_two_messages_in_order() {
    let simple = Simple {
        system: "You are a helpful assistant.".to_string(),
        user: "Say hello to Fred!".to_string(),
        model: "gpt-4o-mini".to_string(),
    };
    let r = simple.create_chat_completion_request();
    assert_eq!(r.messages.len(), 2);
    assert_eq!(r.messages[0].role, "system");
    assert_eq!(r.messages[0].content, "You are a helpful assistant.");
    assert_eq!(r.messages[1].role, "user");
    assert_eq!(r.messages[1].content, "Say hello to Fred!");
    assert_eq!(r.model, "gpt-4o-mini");
    assert!(r.temperature.is_none());
    assert!(r.stream.is_none());
}

#[test]
fn chat_request_json_absent_optionals() {
    let simple = Simple {
        system: "sys".to_string(),
        user: "usr".to_string(),
        model: "m".to_string(),
    };
    let r = simple.create_chat_completion_request();
    assert_eq!(
        r.to_json(),
        "{\"messages\":[{\"role\":\"system\",\"content\":\"sys\"},{\"role\":\"user\",\"content\":\"usr\"}],\"model\":\"m\"}"
    );
}

#[test]
fn chat_request_json_present_optionals() {
    let r = ChatCompletionRequest {
        messages: vec![Message { role: "user".to_string(), content: "hi".to_string() }],
        model: "m".to_string(),
        temperature: Some(700),
        stream: Some(true),
    };
    assert_eq!(
        r.to_json(),
        "{\"messages\":[{\"role\":\"user\",\"content\":\"hi\"}],\"model\":\"m\",\"temperature\":0.700,\"stream\":true}"
    );
}

#[test]
fn chat_request_json_stream_false() {
    let r = ChatCompletionRequest {
        messages: Vec::new(),
        model: "m".to_string(),
        temperature: None,
        stream: Some(false),
    };
    assert_eq!(r.to_json(), "{\"messages\":[],\"model\":\"m\",\"stream\":false}");
}

#[test]
fn temperature_thousandths_render_with_three_digits() {
    let r = ChatCompletionRequest {
        messages: Vec::new(),
        model: "m".to_string(),
        temperature: Some(1005),
        stream: None,
    };
    assert_eq!(r.to_json(), "{\"messages\":[],\"model\":\"m\",\"temperature\":1.005}");
}

#[test]
fn string_escaping_in_content() {
    let r = ChatCompletionRequest {
        messages: vec![Message {
            role: "user".to_string(),
            content: "a\"b\\c\nd\te\u{1}".to_string(),
        }],
        model: "m".to_string(),
        temperature: None,
        stream: None,
    };
    assert_eq!(
        r.to_json(),
        "{\"messages\":[{\"role\":\"user\",\"content\":\"a\\\"b\\\\c\\nd\\te\\u0001\"}],\"model\":\"m\"}"
    );
}

#[test]
fn embedding_request_json_absent_optionals() {
    let e = EmbeddingRequest::new("The food was delicous and the waiter ...", "text-embedding-ada-002");
    assert_eq!(
        e.to_json(),
        "{\"input\":\"The food was delicous and the waiter ...\",\"model\":\"text-embedding-ada-002\"}"
    );
}

#[test]
fn embedding_request_json_present_optionals() {
    let e = EmbeddingRequest {
        input: "x".to_string(),
        model: "m".to_string(),
        encoding_format: Some("float".to_string()),
        dimensions: Some(256),
        user: Some("u1".to_string()),
    };
    assert_eq!(
        e.to_json(),
        "{\"input\":\"x\",\"model\":\"m\",\"encoding_format\":\"float\",\"dimensions\":256,\"user\":\"u1\"}"
    );
}

#[test]
fn chat_request_round_trips_through_the_library() {
    // serialize, then deserialize with the library's own reader: every
    // field comes back, optional fields in both states.
    let cases = vec![
        ChatCompletionRequest {
            messages: vec![
                Message { role: "system".to_string(), content: "s \"q\" \\ \n\u{2}".to_string() },
                Message { role: "user".to_string(), content: "hello".to_string() },
            ],
            model: "gpt-4o-mini".to_string(),
            temperature: Some(700),
            stream: Some(true),
        },
        ChatCompletionRequest {
            messages: Vec::new(),
            model: "m".to_string(),
            temperature: None,
            stream: None,
        },
        ChatCompletionRequest {
            messages: vec![Message { role: "user".to_string(), content: "x".to_string() }],
            model: "m".to_string(),
            temperature: None,
            stream: Some(false),
        },
    ];
    for r in cases {
        let back = ChatCompletionRequest::from_json(&r.to_json()).expect("round trip");
        assert_eq!(back.messages.len(), r.messages.len());
        for (a, b) in back.messages.iter().zip(r.messages.iter()) {
            assert_eq!(a.role, b.role);
            assert_eq!(a.content, b.content);
        }
        assert_eq!(back.model, r.model);
        assert_eq!(back.temperature, r.temperature);
        assert_eq!(back.stream, r.stream);
    }
}

#[test]
fn embedding_request_round_trips_through_the_library() {
    let cases = vec![
        EmbeddingRequest::new("The food was delicous and the waiter ...", "text-embedding-ada-002"),
        EmbeddingRequest {
            input: "tab\there".to_string(),
            model: "m".to_string(),
            encoding_format: Some("float".to_string()),
            dimensions: Some(4294967295),
            user: Some("u".to_string()),
        },
    ];
    for e in cases {
        let back = EmbeddingRequest::from_json(&e.to_json()).expect("round trip");
        assert_eq!(back.input, e.input);
        assert_eq!(back.model, e.model);
        assert_eq!(back.encoding_format, e.encoding_format);
        assert_eq!(back.dimensions, e.dimensions);
        assert_eq!(back.user, e.user);
    }
}

#[test]
fn from_json_rejects_trailing_or_malformed_text() {
    assert!(ChatCompletionRequest::from_json("{\"messages\":[],\"model\":\"m\"} ").is_none());
    assert!(ChatCompletionRequest::from_json("{\"messages\":[],\"model\":m}").is_none());
    assert!(EmbeddingRequest::from_json("{\"input\":\"a\"}").is_none());
    assert!(EmbeddingRequest::from_json("{\"input\":\"a\",\"model\":\"m\",\"dimensions\":4294967296}").is_none());
}

#[test]
fn emitted_json_is_valid_for_an_outside_parser() {
    // Round trip through an independent JSON implementation: every field
    // comes back, absent optionals stay absent.
    let r = ChatCompletionRequest {
        messages: vec![Message { role: "user".to_string(), content: "hi \"there\"\n".to_string() }],
        model: "gpt-4o-mini".to_string(),
        temperature: Some(700),
        stream: Some(true),
    };
    let v: serde_json::Value = serde_json::from_str(&r.to_json()).expect("valid JSON");
    assert_eq!(v["messages"][0]["role"].as_str(), Some("user"));
    assert_eq!(v["messages"][0]["content"].as_str(), Some("hi \"there\"\n"));
    assert_eq!(v["model"].as_str(), Some("gpt-4o-mini"));
    assert_eq!(v["temperature"].as_f64(), Some(0.7));
    assert_eq!(v["stream"].as_bool(), Some(true));
    assert!(v.get("user").is_none());

    let e = EmbeddingRequest::new("some text", "model-x");
    let w: serde_json::Value = serde_json::from_str(&e.to_json()).expect("valid JSON");
    assert_eq!(w["input"].as_str(), Some("some text"));
    assert_eq!(w["model"].as_str(), Some("model-x"));
    assert!(w.get("encoding_format").is_none());
    assert!(w.get("dimensions").is_none());
    assert!(w.get("user").is_none());
}
