use quickpython::llm::{chat_messages, chat_reply, chat_request, llm_configure, Arg, Entry, LlmConfig, Message};
use quickpython::value::{DictKey, ExceptionType, ExceptionValue};

fn key(s: &str) -> DictKey {
    DictKey::String(s.to_string())
}

fn text(s: &str) -> Entry {
    Entry::Text(s.to_string())
}

fn config_dict() -> Vec<(DictKey, Entry)> {
    vec![
        (key("model"), text("gpt-test")),
        (DictKey::Int(3), Entry::Other),
        (key("endpoint"), text("http://localhost:8080/v1/chat")),
        (key("api_key"), text("SECRET-REDACTED")),
    ]
}

fn message(role: &str, content: &str) -> Option<Vec<(DictKey, Entry)>> {
    Some(vec![(key("role"), text(role)), (key("content"), text(content))])
}

fn error_of<T>(r: Result<T, ExceptionValue>) -> (ExceptionType, String) {
    match r {
        Ok(_) => panic!("expected an exception"),
        Err(e) => (e.exception_type, e.message),
    }
}

#[test]
fn test_configure_reads_the_three_settings() {
    let config = llm_configure(&vec![Arg::Dict(config_dict())]).ok().unwrap();
    assert_eq!(config.endpoint, "http://localhost:8080/v1/chat");
    assert_eq!(config.api_key, "SECRET-REDACTED");
    assert_eq!(config.model, "gpt-test");
}

#[test]
fn test_configure_errors() {
    assert_eq!(
        error_of(llm_configure(&vec![])),
        (ExceptionType::TypeError, "llm.configure() takes exactly 1 argument: config dict".to_string())
    );
    assert_eq!(
        error_of(llm_configure(&vec![Arg::Other])),
        (ExceptionType::TypeError, "config must be a dict".to_string())
    );
    let mut missing = config_dict();
    missing.remove(2);
    assert_eq!(
        error_of(llm_configure(&vec![Arg::Dict(missing)])),
        (ExceptionType::KeyError, "config missing required key: 'endpoint'".to_string())
    );
    let mut wrong = config_dict();
    wrong[3].1 = Entry::Other;
    assert_eq!(
        error_of(llm_configure(&vec![Arg::Dict(wrong)])),
        (ExceptionType::TypeError, "config['api_key'] must be a string".to_string())
    );
}

#[test]
fn test_chat_messages_in_order() {
    let args = vec![Arg::List(vec![message("system", "be brief"), message("user", "hello")])];
    let ms = chat_messages(&args).ok().unwrap();
    assert_eq!(ms.len(), 2);
    assert_eq!((ms[0].role.as_str(), ms[0].content.as_str()), ("system", "be brief"));
    assert_eq!((ms[1].role.as_str(), ms[1].content.as_str()), ("user", "hello"));
}

#[test]
fn test_chat_message_errors() {
    assert_eq!(
        error_of(chat_messages(&vec![Arg::List(vec![]), Arg::Other])),
        (ExceptionType::TypeError, "llm.chat() takes exactly 1 argument: messages list".to_string())
    );
    assert_eq!(
        error_of(chat_messages(&vec![Arg::Dict(vec![])])),
        (ExceptionType::TypeError, "messages must be a list".to_string())
    );
    assert_eq!(
        error_of(chat_messages(&vec![Arg::List(vec![])])),
        (ExceptionType::ValueError, "messages list cannot be empty".to_string())
    );
    assert_eq!(
        error_of(chat_messages(&vec![Arg::List(vec![message("user", "a"), None])])),
        (ExceptionType::TypeError, "messages[1] must be a dict".to_string())
    );
    let mut items: Vec<Option<Vec<(DictKey, Entry)>>> = (0..12).map(|_| message("user", "x")).collect();
    items.push(Some(vec![(key("role"), text("user"))]));
    assert_eq!(
        error_of(chat_messages(&vec![Arg::List(items)])),
        (ExceptionType::KeyError, "messages[12] missing required key: 'content'".to_string())
    );
    let bad_role = Some(vec![(key("content"), text("x")), (key("role"), Entry::Other)]);
    assert_eq!(
        error_of(chat_messages(&vec![Arg::List(vec![bad_role])])),
        (ExceptionType::TypeError, "messages[0]['role'] must be a string".to_string())
    );
}

#[test]
fn test_chat_request_needs_a_configuration() {
    let args = vec![Arg::List(vec![message("user", "hello")])];
    assert_eq!(
        error_of(chat_request(&args, &None)),
        (ExceptionType::RuntimeError, "LLM not configured. Call llm.configure() first".to_string())
    );
    let config = LlmConfig {
        endpoint: "http://example.test/chat".to_string(),
        api_key: "k-123".to_string(),
        model: "m1".to_string(),
    };
    let request = chat_request(&args, &Some(config.clone())).ok().unwrap();
    assert_eq!(request.endpoint, "http://example.test/chat");
    assert_eq!(request.authorization, "Bearer k-123");
    assert_eq!(request.model, "m1");
    assert_eq!(request.messages.len(), 1);
    // the messages are checked before the configuration
    assert_eq!(
        error_of(chat_request(&vec![Arg::Other], &Some(config))),
        (ExceptionType::TypeError, "messages must be a list".to_string())
    );
}

#[test]
fn test_chat_reply_is_the_first_choice_as_json() {
    assert_eq!(
        error_of(chat_reply(&vec![])),
        (ExceptionType::RuntimeError, "No response from LLM".to_string())
    );
    let choices = vec![
        Message { role: "assistant".to_string(), content: "Hi \"there\"".to_string() },
        Message { role: "assistant".to_string(), content: "ignored".to_string() },
    ];
    assert_eq!(
        chat_reply(&choices).ok().unwrap(),
        "{\"content\":\"Hi \\\"there\\\"\",\"role\":\"assistant\"}"
    );
}

#[test]
fn test_chat_reply_escapes_control_characters() {
    let choices = vec![Message { role: "a\\b".to_string(), content: "x\n\t\u{1}\u{1f}é/".to_string() }];
    assert_eq!(
        chat_reply(&choices).ok().unwrap(),
        "{\"content\":\"x\\n\\t\\u0001\\u001fé/\",\"role\":\"a\\\\b\"}"
    );
}
