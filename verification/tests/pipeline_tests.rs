use lq::opts::{Input, Output};
use lq::pipeline::{decode_docs, doc_payload, input_payload, render_output, render_raw};
use lq::value::Node;
use lq::Error;

#[test]
fn empty_input_decodes_to_empty_stream() {
    for fmt in [Input::Yaml, Input::Json, Input::Toml] {
        let docs = decode_docs(fmt, b"").unwrap();
        assert_eq!(docs.len(), 0);
    }
}

#[test]
fn empty_input_payload_is_empty_mapping() {
    for fmt in [Input::Yaml, Input::Json, Input::Toml] {
        let payload = input_payload(fmt, b"").unwrap();
        assert_eq!(payload, b"{}".to_vec());
    }
}

#[test]
fn empty_subprocess_output_encodes_to_empty_mapping() {
    assert_eq!(render_output(Output::Yaml, b"".to_vec()).unwrap(), "{}");
}

#[test]
fn single_yaml_doc_round_trips() {
    let docs = decode_docs(Input::Yaml, b"a: 1\n").unwrap();
    assert_eq!(docs.len(), 1);
    let payload = input_payload(Input::Yaml, b"a: 1\n").unwrap();
    assert_eq!(payload, b"{\"a\":1}".to_vec());
    // identity query: the processor echoes the payload
    assert_eq!(render_output(Output::Yaml, payload).unwrap(), "a: 1");
}

#[test]
fn single_json_doc_round_trips() {
    let payload = input_payload(Input::Json, b"{\"a\": 1}").unwrap();
    assert_eq!(payload, b"{\"a\":1}".to_vec());
    let docs = decode_docs(Input::Json, b"{\"a\": 1}").unwrap();
    assert_eq!(docs.len(), 1);
}

#[test]
fn single_toml_doc_round_trips() {
    let docs = decode_docs(Input::Toml, b"a = 1\n").unwrap();
    assert_eq!(docs.len(), 1);
    let payload = input_payload(Input::Toml, b"a = 1\n").unwrap();
    assert_eq!(payload, b"{\"a\":1}".to_vec());
    assert_eq!(render_output(Output::Toml, payload).unwrap(), "a = 1");
}

#[test]
fn json_array_unwraps_into_documents() {
    let docs = decode_docs(Input::Json, b"[{\"a\":1},{\"a\":2}]").unwrap();
    assert_eq!(docs.len(), 2);
    for d in &docs {
        match d {
            Node::Mapping(es) => assert_eq!(es.len(), 1),
            _ => panic!("expected a mapping"),
        }
    }
    let one = decode_docs(Input::Json, b"{\"a\":1}").unwrap();
    assert_eq!(one.len(), 1);
}

#[test]
fn multidoc_yaml_keeps_boundaries() {
    let docs = decode_docs(Input::Yaml, b"a: 1\n---\nb: 2\n").unwrap();
    assert_eq!(docs.len(), 2);
    // single-pass mode flattens the same input into one array payload
    let payload = input_payload(Input::Yaml, b"a: 1\n---\nb: 2\n").unwrap();
    assert_eq!(payload, b"[{\"a\":1},{\"b\":2}]".to_vec());
}

#[test]
fn merge_directive_is_flattened() {
    let src = b"base: &b\n  x: 1\n  y: 2\nderived:\n  <<: *b\n  y: 3\n";
    let payload = input_payload(Input::Yaml, src).unwrap();
    assert_eq!(
        String::from_utf8(payload).unwrap(),
        "{\"base\":{\"x\":1,\"y\":2},\"derived\":{\"y\":3,\"x\":1}}"
    );
}

#[test]
fn resolving_resolved_mapping_is_a_noop() {
    let node = Node::Mapping(vec![
        ("a".to_string(), Node::Number("1".to_string())),
        ("b".to_string(), Node::Text("t".to_string())),
    ]);
    let before = doc_payload(&node).unwrap();
    let resolved = lq::merge::resolve_merge(node).unwrap();
    let after = doc_payload(&resolved).unwrap();
    assert_eq!(before, after);
}

#[test]
fn bad_merge_source_is_a_parse_error() {
    let src = b"m:\n  <<: 3\n";
    assert!(matches!(decode_docs(Input::Yaml, src), Err(Error::Parse(_))));
}

#[test]
fn collapse_rule_on_subprocess_output() {
    // zero tokens
    assert_eq!(render_output(Output::Yaml, b" \n".to_vec()).unwrap(), "{}");
    // one token
    assert_eq!(render_output(Output::Yaml, b"\"hi\"\n".to_vec()).unwrap(), "hi");
    // two tokens, emitted order kept
    assert_eq!(render_output(Output::Yaml, b"1\n2\n".to_vec()).unwrap(), "- 1\n- 2");
}

#[test]
fn raw_output_passes_through_trimmed() {
    assert_eq!(render_output(Output::Jq, b"plain text\n\n".to_vec()).unwrap(), "plain text");
    assert_eq!(render_raw(b"hi\n".to_vec()), "hi");
}

#[test]
fn lossy_text_replaces_bad_bytes() {
    let s = render_raw(vec![0xff, b'a']);
    assert_eq!(s, "\u{fffd}a");
}

#[test]
fn unparseable_tokens_are_an_encode_error() {
    assert!(matches!(
        render_output(Output::Yaml, b"{bad".to_vec()),
        Err(Error::Encode(_))
    ));
}

#[test]
fn malformed_yaml_is_a_parse_error() {
    assert!(matches!(decode_docs(Input::Yaml, b"a: [1\n"), Err(Error::Parse(_))));
}

#[test]
fn malformed_toml_is_a_parse_error() {
    assert!(matches!(decode_docs(Input::Toml, b"= nope"), Err(Error::Parse(_))));
}

#[test]
fn split_mode_feeds_documents_alone() {
    let docs = decode_docs(Input::Yaml, b"a: 1\n---\nb: 2\n").unwrap();
    let payloads: Vec<Vec<u8>> = docs.iter().map(|d| doc_payload(d).unwrap()).collect();
    assert_eq!(payloads, vec![b"{\"a\":1}".to_vec(), b"{\"b\":2}".to_vec()]);
    // a split key comes back from the processor as one raw line
    assert_eq!(render_raw(b"./a_config.yaml\n".to_vec()), "./a_config.yaml");
}

#[test]
fn three_document_input_both_outputs() {
    let src = b"kind: Service\nmetadata:\n  name: svc\n---\nkind: ConfigMap\nmetadata:\n  name: cm\n---\nkind: Deployment\nmetadata:\n  name: controller\n";
    let payload = input_payload(Input::Yaml, src).unwrap();
    // what the processor answers for `.[2].metadata` with compact output
    let answer = b"{\"name\":\"controller\"}\n".to_vec();
    assert_eq!(render_output(Output::Jq, answer.clone()).unwrap(), "{\"name\":\"controller\"}");
    assert_eq!(render_output(Output::Yaml, answer).unwrap(), "name: controller");
    // the payload really carries three documents
    assert!(payload.starts_with(b"["));
    let back = decode_docs(Input::Json, &payload).unwrap();
    assert_eq!(back.len(), 3);
}

#[test]
fn duplicate_yaml_keys_are_a_parse_error() {
    assert!(matches!(decode_docs(Input::Yaml, b"a: 1\na: 2\n"), Err(Error::Parse(_))));
}

#[test]
fn toml_cannot_carry_a_top_level_array() {
    assert!(matches!(
        render_output(Output::Toml, b"1 2".to_vec()),
        Err(Error::Encode(_))
    ));
}

#[test]
fn non_finite_numeral_is_an_encode_error() {
    assert!(matches!(
        input_payload(Input::Yaml, b"a: .inf\n"),
        Err(Error::Encode(_))
    ));
}
