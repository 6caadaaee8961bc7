use cardmind::openai::test_openai_connection;

#[test]
fn connection_test_requires_api_key() {
    let error = match test_openai_connection(None, "gpt-5.4-mini") {
        Ok(_) => panic!("missing key should fail"),
        Err(error) => error,
    };
    assert!(error.contains("未配置 OpenAI API Key"));
}
