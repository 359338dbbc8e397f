use pv::http::{
    chunked_body_fits, decode_chunked_body, http_request_text, http_response_body, parse_hex_chars,
    response_body_fits,
};
use pv::labels::value_string;
use pv::llm::{llm_answer_content, llm_message_content, llm_response_content, ocr_request_body};
use pv::tools::HttpEndpoint;

fn chars(s: &str) -> Vec<char> {
    s.chars().collect()
}

#[test]
fn decodes_chunked_bodies() {
    assert_eq!(
        decode_chunked_body("4\r\nWiki\r\n5\r\npedia\r\n0\r\n\r\n").unwrap(),
        "Wikipedia"
    );
    assert_eq!(decode_chunked_body(" 3 \r\nabc\r\n0\r\n").unwrap(), "abc");
    // Sizes count bytes: the euro sign takes three.
    assert_eq!(decode_chunked_body("3\r\n€\r\n0\r\n\r\n").unwrap(), "€");
    assert_eq!(
        decode_chunked_body("zz\r\nabc").unwrap_err().message,
        "invalid digit found in string"
    );
    assert_eq!(
        decode_chunked_body("\r\nabc").unwrap_err().message,
        "cannot parse integer from empty string"
    );
    assert_eq!(
        decode_chunked_body("no line break").unwrap_err().message,
        "invalid chunked HTTP response"
    );
    assert_eq!(
        decode_chunked_body("5\r\nabc").unwrap_err().message,
        "truncated chunked HTTP response"
    );
}

#[test]
fn parses_hexadecimal_sizes() {
    assert_eq!(parse_hex_chars(&chars("+1F")), Ok(31));
    assert_eq!(parse_hex_chars(&chars("0")), Ok(0));
    assert_eq!(
        parse_hex_chars(&chars("+")),
        Err("invalid digit found in string".to_owned())
    );
    assert_eq!(
        parse_hex_chars(&chars("-1")),
        Err("invalid digit found in string".to_owned())
    );
    assert_eq!(
        parse_hex_chars(&chars("fffffffffffffffffffff")),
        Err("number too large to fit in target type".to_owned())
    );
}

#[test]
fn reads_http_responses() {
    assert_eq!(
        http_response_body("HTTP/1.1 200 OK\r\nContent-Type: x\r\n\r\nbody").unwrap(),
        "body"
    );
    assert_eq!(
        http_response_body(
            "HTTP/1.1 200 OK\r\nTransfer-Encoding: Chunked\r\n\r\n3\r\nabc\r\n0\r\n\r\n"
        )
        .unwrap(),
        "abc"
    );
    assert_eq!(
        http_response_body("HTTP/1.1 500 Internal\r\n\r\nerr").unwrap_err().message,
        "LLM endpoint returned HTTP/1.1 500 Internal: err"
    );
    assert_eq!(
        http_response_body("garbage").unwrap_err().message,
        "HTTP response did not include headers"
    );
    let long_body = "x".repeat(1500);
    let error = http_response_body(&format!("HTTP/1.1 404 Not Found\r\n\r\n{long_body}"))
        .unwrap_err()
        .message;
    assert_eq!(error, format!("LLM endpoint returned HTTP/1.1 404 Not Found: {}", "x".repeat(1000)));
}

#[test]
fn writes_http_requests() {
    let endpoint = HttpEndpoint {
        host: "h".to_owned(),
        host_header: "h:8089".to_owned(),
        port: 8089,
        path: "/v1".to_owned(),
    };
    assert_eq!(
        http_request_text(&endpoint, "{\"a\":\"é\"}"),
        "POST /v1 HTTP/1.1\r\nHost: h:8089\r\nContent-Type: application/json\r\nContent-Length: 10\r\nConnection: close\r\n\r\n{\"a\":\"é\"}"
    );
}

#[test]
fn builds_the_ocr_request() {
    let body = ocr_request_body("local", "Read \"this\"", &vec![1, 2, 3], 4096);
    assert_eq!(
        body,
        "{\"chat_template_kwargs\":{\"enable_thinking\":false},\"max_tokens\":4096,\"messages\":[{\"content\":[{\"text\":\"Read \\\"this\\\"\",\"type\":\"text\"},{\"image_url\":{\"url\":\"data:image/png;base64,AQID\"},\"type\":\"image_url\"}],\"role\":\"user\"}],\"model\":\"local\",\"reasoning_format\":\"deepseek\",\"temperature\":0}"
    );
    let parsed: serde_json::Value = serde_json::from_str(&body).unwrap();
    assert_eq!(parsed["max_tokens"], 4096);
    assert_eq!(value_string(None), "-");
    assert_eq!(value_string(Some(4294967295)), "4294967295");
}

#[test]
fn reads_the_model_answer() {
    assert_eq!(
        llm_response_content(r#"{"choices":[{"message":{"content":"  | a |  \n"}}]}"#).unwrap(),
        "| a |\n"
    );
    assert_eq!(
        llm_response_content(
            r#"{"choices":[{"message":{"content":" ","reasoning_content":"thinking"}}]}"#
        )
        .unwrap_err()
        .message,
        "LLM returned reasoning content but no final content"
    );
    assert_eq!(
        llm_response_content(r#"{"choices":[{"message":{"content":""}}]}"#)
            .unwrap_err()
            .message,
        "LLM returned empty content"
    );
    assert_eq!(
        llm_response_content(r#"{"choices":[]}"#).unwrap_err().message,
        "LLM response did not contain choices[0].message"
    );
    assert_eq!(
        llm_response_content(r#"{"choices":[{"message":{"role":"assistant"}}]}"#)
            .unwrap_err()
            .message,
        "LLM response did not contain choices[0].message.content"
    );
    assert!(llm_response_content("not json").is_err());
    assert_eq!(llm_message_content(Some("x"), None).unwrap(), "x\n");
    assert_eq!(
        llm_message_content(Some("\n"), Some("  ")).unwrap_err().message,
        "LLM returned empty content"
    );
}

#[test]
fn checks_that_chunks_end_between_characters() {
    assert!(chunked_body_fits("4\r\nWiki\r\n0\r\n\r\n"));
    assert!(chunked_body_fits("2\r\né\r\n0\r\n\r\n"));
    assert!(!chunked_body_fits("1\r\né\r\n0\r\n\r\n"));
    assert!(chunked_body_fits("zz\r\n"));
    assert!(chunked_body_fits("9\r\nshort\r\n"));
    assert!(response_body_fits("HTTP/1.1 200 OK\r\nContent-Length: 2\r\n\r\né"));
    assert!(!response_body_fits(
        "HTTP/1.1 200 OK\r\nTransfer-Encoding: chunked\r\n\r\n1\r\né\r\n0\r\n\r\n"
    ));
    assert!(response_body_fits(
        "HTTP/1.1 200 OK\r\nTransfer-Encoding: chunked\r\n\r\n2\r\né\r\n0\r\n\r\n"
    ));
    assert!(response_body_fits("no headers at all"));
}

#[test]
fn escapes_the_prompt_as_json() {
    let body = ocr_request_body("m", "a\tb\u{1}c\\d\u{7f}é\n", &vec![], 1);
    assert!(body.contains("{\"text\":\"a\\tb\\u0001c\\\\d\u{7f}é\\n\",\"type\":\"text\"}"));
    assert!(body.contains("\"url\":\"data:image/png;base64,\""));
}

#[test]
fn reads_the_answer_fields_by_name() {
    assert_eq!(
        llm_response_content("not json").unwrap_err().message,
        "expected ident at line 1 column 2"
    );
    assert_eq!(
        llm_response_content(
            r#"{"choices":[{"message":{"content":"","reasoning_content":"thinking"}}]}"#
        )
        .unwrap_err()
        .message,
        "LLM returned reasoning content but no final content"
    );
    assert_eq!(
        llm_response_content(
            r#"{"choices":[{"message":{"content":" x ","reasoning_content":""}}]}"#
        )
        .unwrap(),
        "x\n"
    );
    assert_eq!(
        llm_response_content(r#"{"choices":[{"message":{"content":7}}]}"#)
            .unwrap_err()
            .message,
        "LLM response did not contain choices[0].message.content"
    );
    assert_eq!(
        llm_answer_content(&Err("bad".to_owned())).unwrap_err().message,
        "bad"
    );
    assert_eq!(
        llm_answer_content(&Ok(None)).unwrap_err().message,
        "LLM response did not contain choices[0].message"
    );
    assert_eq!(
        llm_answer_content(&Ok(Some((Some("a".to_owned()), None)))).unwrap(),
        "a\n"
    );
}

#[test]
fn pads_the_image_data_to_whole_groups() {
    let one = ocr_request_body("m", "p", &vec![0xff], 1);
    assert!(one.contains("\"url\":\"data:image/png;base64,/w==\""));
    let two = ocr_request_body("m", "p", &vec![0xff, 0xfe], 1);
    assert!(two.contains("\"url\":\"data:image/png;base64,//4=\""));
    let none = ocr_request_body("m", "p", &vec![], 1);
    assert!(none.contains("\"url\":\"data:image/png;base64,\""));
}
