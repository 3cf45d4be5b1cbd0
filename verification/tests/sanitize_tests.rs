use llm_utils::remove_json_wrapper;

#[test]
fn strips_a_fenced_json_block() {
    let wrapped = "```json\n{\"a\": 1}\n```";
    assert_eq!(remove_json_wrapper(wrapped), "{\"a\": 1}\n");
}

#[test]
fn leaves_plain_json_untouched() {
    let plain = "{\"a\": 1}";
    assert_eq!(remove_json_wrapper(plain), "{\"a\": 1}");
}

#[test]
fn strips_every_occurrence() {
    let wrapped = "```json\n{}\n``` and ```json\n[]\n```";
    assert_eq!(remove_json_wrapper(wrapped), "{}\n and []\n");
}

#[test]
fn handles_empty_input() {
    assert_eq!(remove_json_wrapper(""), "");
}
