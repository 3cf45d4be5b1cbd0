use llm_utils::select_tokenizer;

#[test]
fn it_computes_gpt3_5_tokenization() {
    let bpe = select_tokenizer("gpt-4-32k").unwrap();
    let tokenized: Result<Vec<_>, _> = bpe
        .split_by_token_iter("This is a test         with a lot of spaces", true)
        .collect();
    let tokenized = tokenized.unwrap();
    assert_eq!(
        tokenized,
        vec!["This", " is", " a", " test", "        ", " with", " a", " lot", " of", " spaces"]
    );
}

#[test]
fn unrecognized_model_falls_back_to_default_encoding() {
    let text = "This is a test         with a lot of spaces";
    let bpe = select_tokenizer("a-model-nobody-has-heard-of").unwrap();
    let fallback = tiktoken_rs::cl100k_base_singleton();
    assert_eq!(
        bpe.encode_with_special_tokens(text),
        fallback.encode_with_special_tokens(text)
    );
}

#[test]
fn recognized_model_gets_its_native_encoding() {
    let text = "hello world";
    let bpe = select_tokenizer("gpt2").unwrap();
    let native = tiktoken_rs::r50k_base_singleton();
    assert_eq!(
        bpe.encode_with_special_tokens(text),
        native.encode_with_special_tokens(text)
    );
}
