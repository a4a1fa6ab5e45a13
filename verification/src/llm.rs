//! The `llm` extension module: `llm.configure(config)` records the endpoint,
//! key and model of a chat service, and `llm.chat(messages)` sends a list of
//! messages to it and gives back the first reply as a JSON string.
//!
//! This module checks the arguments, builds the request and reads the reply;
//! the HTTP exchange itself is made by the caller.
use vstd::prelude::*;
use crate::text::decimal_text;
use crate::text::push_decimal;
use crate::text::str_eq;
use crate::text::hex2_text;
use crate::arith::text_before;
use crate::value::{raised, DictKey, DictKeyView, ExceptionType, ExceptionValue, Raised};

verus! {

/// A value stored in a dict, as these functions read it: a string, or
/// anything else.
#[derive(Clone)]
pub enum Entry {
    Text(String),
    Other,
}

/// An argument, as these functions read it.
pub enum Arg {
    /// A dict, by its entries.
    Dict(Vec<(DictKey, Entry)>),
    /// A list, by its items: the entries of an item that is a dict, `None`
    /// for any other item.
    List(Vec<Option<Vec<(DictKey, Entry)>>>),
    /// Any other value.
    Other,
}

/// The settings that `llm.configure` records.
#[derive(Clone)]
pub struct LlmConfig {
    pub endpoint: String,
    pub api_key: String,
    pub model: String,
}

/// One chat message.
#[derive(Clone)]
pub struct Message {
    pub role: String,
    pub content: String,
}

/// What to post: the URL, the value of the `Authorization` header, and the
/// JSON body's model and messages.
pub struct ChatRequest {
    pub endpoint: String,
    pub authorization: String,
    pub model: String,
    pub messages: Vec<Message>,
}

/// The value stored under the string key `key`: the first entry with that
/// key (a dict holds each key once).
pub open spec fn entry_of(entries: Seq<(DictKey, Entry)>, key: Seq<char>) -> Option<Entry>
    decreases entries.len(),
{
    if entries.len() == 0 {
        None
    } else if entries[0].0@ == DictKeyView::String(key) {
        Some(entries[0].1)
    } else {
        entry_of(entries.drop_first(), key)
    }
}

/// The string that `owner` must hold under `key`: a `TypeError` when the
/// value is not a string, a `KeyError` when the key is missing.
pub open spec fn required_text(entries: Seq<(DictKey, Entry)>, key: Seq<char>, owner: Seq<char>) -> Result<
    Seq<char>,
    Raised,
> {
    match entry_of(entries, key) {
        Some(Entry::Text(s)) => Ok(s@),
        Some(Entry::Other) => Err(
            (ExceptionType::TypeError, owner + "['"@ + key + "'] must be a string"@),
        ),
        None => Err((ExceptionType::KeyError, owner + " missing required key: '"@ + key + "'"@)),
    }
}

/// The entry stored under the string key `key`.
fn find_entry<'a>(entries: &'a Vec<(DictKey, Entry)>, key: &str) -> (res: Option<&'a Entry>)
    ensures
        match entry_of(entries@, key@) {
            Some(e) => res == Some(&e),
            None => res is None,
        },
{
    let n = entries.len();
    let mut i: usize = 0;
    assert(entries@.subrange(0, n as int) =~= entries@);
    while i < n
        invariant
            n == entries@.len(),
            i <= n,
            entry_of(entries@, key@) == entry_of(entries@.subrange(i as int, n as int), key@),
        decreases n - i,
    {
        let ghost rest = entries@.subrange(i as int, n as int);
        assert(rest.drop_first() =~= entries@.subrange(i + 1, n as int));
        match &entries[i].0 {
            DictKey::String(k) => {
                if str_eq(k.as_str(), key) {
                    return Some(&entries[i].1);
                }
            },
            DictKey::Int(_) => {},
        }
        i = i + 1;
    }
    None
}

/// The string that `owner` holds under `key`, or the exception for its
/// absence or its type.
fn required_string(entries: &Vec<(DictKey, Entry)>, key: &str, owner: &str) -> (res: Result<
    String,
    ExceptionValue,
>)
    ensures
        match required_text(entries@, key@, owner@) {
            Ok(s) => res matches Ok(t) && t@ == s,
            Err(r) => res matches Err(e) && raised(e) == r && e.traceback is None,
        },
{
    match find_entry(entries, key) {
        Some(Entry::Text(s)) => Ok(s.clone()),
        Some(Entry::Other) => {
            let mut m = String::from_str(owner);
            m.append("['");
            m.append(key);
            m.append("'] must be a string");
            Err(ExceptionValue::new(ExceptionType::TypeError, m))
        },
        None => {
            let mut m = String::from_str(owner);
            m.append(" missing required key: '");
            m.append(key);
            m.append("'");
            Err(ExceptionValue::new(ExceptionType::KeyError, m))
        },
    }
}

/// What `llm.configure(args)` records: the endpoint, key and model of the
/// one dict argument, or the exception it raises.
pub open spec fn configure_spec(args: Seq<Arg>) -> Result<(Seq<char>, Seq<char>, Seq<char>), Raised> {
    if args.len() != 1 {
        Err(
            (
                ExceptionType::TypeError,
                "llm.configure() takes exactly 1 argument: config dict"@,
            ),
        )
    } else {
        match args[0] {
            Arg::Dict(entries) => match required_text(entries@, "endpoint"@, "config"@) {
                Err(r) => Err(r),
                Ok(endpoint) => match required_text(entries@, "api_key"@, "config"@) {
                    Err(r) => Err(r),
                    Ok(api_key) => match required_text(entries@, "model"@, "config"@) {
                        Err(r) => Err(r),
                        Ok(model) => Ok((endpoint, api_key, model)),
                    },
                },
            },
            _ => Err((ExceptionType::TypeError, "config must be a dict"@)),
        }
    }
}

/// `llm.configure(config)`: the settings to record, read from the one dict
/// argument; a `TypeError` for a wrong argument or a value that is not a
/// string, a `KeyError` for a missing key.
pub fn llm_configure(args: &Vec<Arg>) -> (res: Result<LlmConfig, ExceptionValue>)
    ensures
        match configure_spec(args@) {
            Ok((endpoint, api_key, model)) => res matches Ok(c) && c.endpoint@ == endpoint
                && c.api_key@ == api_key && c.model@ == model,
            Err(r) => res matches Err(e) && raised(e) == r && e.traceback is None,
        },
{
    proof {
        reveal_strlit("endpoint");
        reveal_strlit("api_key");
        reveal_strlit("model");
        reveal_strlit("config");
    }
    if args.len() != 1 {
        return Err(
            ExceptionValue::new(
                ExceptionType::TypeError,
                String::from_str("llm.configure() takes exactly 1 argument: config dict"),
            ),
        );
    }
    match &args[0] {
        Arg::Dict(entries) => {
            let endpoint = required_string(entries, "endpoint", "config")?;
            let api_key = required_string(entries, "api_key", "config")?;
            let model = required_string(entries, "model", "config")?;
            Ok(LlmConfig { endpoint, api_key, model })
        },
        _ => Err(
            ExceptionValue::new(ExceptionType::TypeError, String::from_str("config must be a dict")),
        ),
    }
}

/// How a message reads: its role and its content.
pub open spec fn message_views(ms: Seq<Message>) -> Seq<(Seq<char>, Seq<char>)> {
    ms.map_values(|m: Message| (m.role@, m.content@))
}

/// The `i`-th message as error messages name it: `messages[i]`.
pub open spec fn message_owner(i: nat) -> Seq<char> {
    "messages["@ + decimal_text(i) + "]"@
}

/// The messages read from `items[i..]`, in order, or the exception for the
/// first item that is not a dict with a string `role` and `content`.
pub open spec fn messages_from(items: Seq<Option<Vec<(DictKey, Entry)>>>, i: nat) -> Result<
    Seq<(Seq<char>, Seq<char>)>,
    Raised,
>
    decreases items.len() - i,
{
    if i >= items.len() {
        Ok(seq![])
    } else {
        match items[i as int] {
            None => Err((ExceptionType::TypeError, message_owner(i) + " must be a dict"@)),
            Some(d) => match required_text(d@, "role"@, message_owner(i)) {
                Err(r) => Err(r),
                Ok(role) => match required_text(d@, "content"@, message_owner(i)) {
                    Err(r) => Err(r),
                    Ok(content) => match messages_from(items, i + 1) {
                        Err(r) => Err(r),
                        Ok(rest) => Ok(seq![(role, content)] + rest),
                    },
                },
            },
        }
    }
}

/// `r` with the messages `prefix` in front of its messages.
pub open spec fn after_messages(
    prefix: Seq<(Seq<char>, Seq<char>)>,
    r: Result<Seq<(Seq<char>, Seq<char>)>, Raised>,
) -> Result<Seq<(Seq<char>, Seq<char>)>, Raised> {
    match r {
        Ok(ms) => Ok(prefix + ms),
        Err(e) => Err(e),
    }
}

/// The messages that `llm.chat(args)` sends, or the exception it raises
/// before sending anything.
pub open spec fn chat_messages_spec(args: Seq<Arg>) -> Result<Seq<(Seq<char>, Seq<char>)>, Raised> {
    if args.len() != 1 {
        Err(
            (
                ExceptionType::TypeError,
                "llm.chat() takes exactly 1 argument: messages list"@,
            ),
        )
    } else {
        match args[0] {
            Arg::List(items) => match messages_from(items@, 0) {
                Err(r) => Err(r),
                Ok(ms) => if ms.len() == 0 {
                    Err((ExceptionType::ValueError, "messages list cannot be empty"@))
                } else {
                    Ok(ms)
                },
            },
            _ => Err((ExceptionType::TypeError, "messages must be a list"@)),
        }
    }
}

/// The text `messages[i]`.
fn message_owner_text(i: usize) -> (res: String)
    ensures
        res@ == message_owner(i as nat),
{
    let mut s = String::from_str("messages[");
    push_decimal(&mut s, i as u64);
    s.append("]");
    s
}

/// The messages of a list argument, read item by item.
fn read_messages(items: &Vec<Option<Vec<(DictKey, Entry)>>>) -> (res: Result<
    Vec<Message>,
    ExceptionValue,
>)
    ensures
        match messages_from(items@, 0) {
            Ok(ms) => res matches Ok(out) && message_views(out@) == ms,
            Err(r) => res matches Err(e) && raised(e) == r && e.traceback is None,
        },
{
    proof {
        reveal_strlit("role");
        reveal_strlit("content");
    }
    let n = items.len();
    let mut out: Vec<Message> = Vec::new();
    let mut i: usize = 0;
    while i < n
        invariant
            n == items@.len(),
            i <= n,
            messages_from(items@, 0) == after_messages(message_views(out@), messages_from(items@, i as nat)),
        decreases n - i,
    {
        let owner = message_owner_text(i);
        match &items[i] {
            None => {
                let mut m = owner;
                m.append(" must be a dict");
                return Err(ExceptionValue::new(ExceptionType::TypeError, m));
            },
            Some(entries) => {
                let role = required_string(entries, "role", owner.as_str())?;
                let content = required_string(entries, "content", owner.as_str())?;
                let ghost before = message_views(out@);
                let ghost pair = (role@, content@);
                out.push(Message { role, content });
                proof {
                    assert(message_views(out@) =~= before.push(pair));
                    assert(before.push(pair) =~= before + seq![pair]);
                    match messages_from(items@, (i + 1) as nat) {
                        Ok(rest) => {
                            assert(before + (seq![pair] + rest) =~= before + seq![pair] + rest);
                        },
                        Err(_) => {},
                    }
                }
            },
        }
        i = i + 1;
    }
    assert(message_views(out@) + Seq::<(Seq<char>, Seq<char>)>::empty() =~= message_views(out@));
    Ok(out)
}

/// The messages of `llm.chat(args)`: the one argument must be a non-empty
/// list of dicts, each with a string `role` and `content`.
pub fn chat_messages(args: &Vec<Arg>) -> (res: Result<Vec<Message>, ExceptionValue>)
    ensures
        match chat_messages_spec(args@) {
            Ok(ms) => res matches Ok(out) && message_views(out@) == ms,
            Err(r) => res matches Err(e) && raised(e) == r && e.traceback is None,
        },
{
    if args.len() != 1 {
        return Err(
            ExceptionValue::new(
                ExceptionType::TypeError,
                String::from_str("llm.chat() takes exactly 1 argument: messages list"),
            ),
        );
    }
    match &args[0] {
        Arg::List(items) => {
            let messages = read_messages(items)?;
            if messages.len() == 0 {
                return Err(
                    ExceptionValue::new(
                        ExceptionType::ValueError,
                        String::from_str("messages list cannot be empty"),
                    ),
                );
            }
            Ok(messages)
        },
        _ => Err(
            ExceptionValue::new(ExceptionType::TypeError, String::from_str("messages must be a list")),
        ),
    }
}

/// What `llm.chat(args)` posts under the recorded settings `config`: the
/// messages of `args`, then the settings, which must have been recorded.
pub fn chat_request(args: &Vec<Arg>, config: &Option<LlmConfig>) -> (res: Result<
    ChatRequest,
    ExceptionValue,
>)
    ensures
        match chat_messages_spec(args@) {
            Err(r) => res matches Err(e) && raised(e) == r && e.traceback is None,
            Ok(ms) => match config {
                None => res matches Err(e) && raised(e) == (
                    ExceptionType::RuntimeError,
                    "LLM not configured. Call llm.configure() first"@,
                ) && e.traceback is None,
                Some(c) => res matches Ok(r) && r.endpoint@ == c.endpoint@ && r.authorization@
                    == "Bearer "@ + c.api_key@ && r.model@ == c.model@ && message_views(r.messages@)
                    == ms,
            },
        },
{
    let messages = chat_messages(args)?;
    match config {
        None => Err(
            ExceptionValue::new(
                ExceptionType::RuntimeError,
                String::from_str("LLM not configured. Call llm.configure() first"),
            ),
        ),
        Some(c) => {
            let mut authorization = String::from_str("Bearer ");
            authorization.append(c.api_key.as_str());
            Ok(
                ChatRequest {
                    endpoint: c.endpoint.clone(),
                    authorization,
                    model: c.model.clone(),
                    messages,
                },
            )
        },
    }
}

/// A character inside a JSON string as `serde_json` writes it: `"` and `\`
/// behind a backslash, the control characters with a short escape where JSON
/// has one and as `\u00` with two lower-case hex digits otherwise, every
/// other character as it is.
pub open spec fn json_char(c: char) -> Seq<char> {
    if c == '"' {
        seq!['\\', '"']
    } else if c == '\\' {
        seq!['\\', '\\']
    } else if c == '\u{8}' {
        seq!['\\', 'b']
    } else if c == '\t' {
        seq!['\\', 't']
    } else if c == '\n' {
        seq!['\\', 'n']
    } else if c == '\u{c}' {
        seq!['\\', 'f']
    } else if c == '\r' {
        seq!['\\', 'r']
    } else if (c as int) < 0x20 {
        seq!['\\', 'u', '0', '0'] + hex2_text(c as u8)
    } else {
        seq![c]
    }
}

/// A string as a JSON string literal, as `serde_json` writes it.
pub open spec fn json_string(s: Seq<char>) -> Seq<char> {
    seq!['"'] + s.map_values(|c: char| json_char(c)).flatten() + seq!['"']
}

/// The compact JSON text of an object with the two string members `k1: v1`
/// and `k2: v2`, as `serde_json` writes it. Its maps are `BTreeMap`s (the
/// `preserve_order` feature is off), so the members come out in the order of
/// their keys, and a second member with the same key replaces the first.
pub open spec fn json_object_text(k1: Seq<char>, v1: Seq<char>, k2: Seq<char>, v2: Seq<char>) -> Seq<char> {
    if k1 == k2 {
        seq!['{'] + json_string(k2) + seq![':'] + json_string(v2) + seq!['}']
    } else if text_before(k1, k2) {
        seq!['{'] + json_string(k1) + seq![':'] + json_string(v1) + seq![','] + json_string(k2)
            + seq![':'] + json_string(v2) + seq!['}']
    } else {
        seq!['{'] + json_string(k2) + seq![':'] + json_string(v2) + seq![','] + json_string(k1)
            + seq![':'] + json_string(v1) + seq!['}']
    }
}

/// `serde_json`: a `Map` with the members `k1: v1` and `k2: v2` inserted,
/// made a `Value::Object` and written with `to_string` (compact, keys in
/// order, strings escaped as above).
#[verifier::external_body]
fn json_object2(k1: &str, v1: &str, k2: &str, v2: &str) -> (res: String)
    ensures
        res@ == json_object_text(k1@, v1@, k2@, v2@),
{
    let mut object = serde_json::Map::new();
    object.insert(k1.to_string(), serde_json::Value::String(v1.to_string()));
    object.insert(k2.to_string(), serde_json::Value::String(v2.to_string()));
    serde_json::Value::Object(object).to_string()
}

/// What `llm.chat` returns for the choices of the service's reply: the
/// first choice's message as a JSON object with `role` and `content`; a
/// `RuntimeError` when there is no choice.
pub fn chat_reply(choices: &Vec<Message>) -> (res: Result<String, ExceptionValue>)
    ensures
        choices@.len() == 0 ==> (res matches Err(e) && raised(e) == (
            ExceptionType::RuntimeError,
            "No response from LLM"@,
        ) && e.traceback is None),
        choices@.len() > 0 ==> (res matches Ok(s) && s@ == json_object_text(
            "role"@,
            choices@[0].role@,
            "content"@,
            choices@[0].content@,
        )),
{
    if choices.len() == 0 {
        return Err(
            ExceptionValue::new(
                ExceptionType::RuntimeError,
                String::from_str("No response from LLM"),
            ),
        );
    }
    let first = &choices[0];
    Ok(json_object2("role", first.role.as_str(), "content", first.content.as_str()))
}

} // verus!
