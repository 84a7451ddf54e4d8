//! JSON-RPC message bodies: build request and notification bodies by
//! construction, with string escaping proved, and take the routing
//! fields out of an incoming body.
use vstd::prelude::*;

use crate::text::dec_chars;
use crate::text::dec_string;

verus! {

/// The hexadecimal digit character for a value below 16, lowercase.
pub open spec fn spec_hex_digit(d: int) -> char {
    if d < 10 {
        ((48 + d) as u8) as char
    } else {
        ((87 + d) as u8) as char
    }
}

fn hex_digit_str(d: u32) -> (r: &'static str)
    requires
        d < 16,
    ensures
        r@ =~= seq![spec_hex_digit(d as int)],
{
    let r: &'static str = if d == 0 {
        "0"
    } else if d == 1 {
        "1"
    } else if d == 2 {
        "2"
    } else if d == 3 {
        "3"
    } else if d == 4 {
        "4"
    } else if d == 5 {
        "5"
    } else if d == 6 {
        "6"
    } else if d == 7 {
        "7"
    } else if d == 8 {
        "8"
    } else if d == 9 {
        "9"
    } else if d == 10 {
        "a"
    } else if d == 11 {
        "b"
    } else if d == 12 {
        "c"
    } else if d == 13 {
        "d"
    } else if d == 14 {
        "e"
    } else {
        "f"
    };
    proof {
        reveal_strlit("0");
        reveal_strlit("1");
        reveal_strlit("2");
        reveal_strlit("3");
        reveal_strlit("4");
        reveal_strlit("5");
        reveal_strlit("6");
        reveal_strlit("7");
        reveal_strlit("8");
        reveal_strlit("9");
        reveal_strlit("a");
        reveal_strlit("b");
        reveal_strlit("c");
        reveal_strlit("d");
        reveal_strlit("e");
        reveal_strlit("f");
    }
    r
}

/// How one character appears inside a JSON string literal: quote and
/// backslash are escaped, control characters take the four-digit escape,
/// everything else stands for itself.
pub open spec fn spec_escape_char(c: char) -> Seq<char> {
    if c == '"' {
        seq!['\\', '"']
    } else if c == '\\' {
        seq!['\\', '\\']
    } else if (c as u32) < 32 {
        seq!['\\', 'u', '0', '0', spec_hex_digit(c as u32 as int / 16), spec_hex_digit(
            c as u32 as int % 16,
        )]
    } else {
        seq![c]
    }
}

/// A string's characters escaped for a JSON string literal.
pub open spec fn spec_escape(s: Seq<char>) -> Seq<char>
    decreases s.len(),
{
    if s.len() == 0 {
        Seq::<char>::empty()
    } else {
        spec_escape_char(s[0]) + spec_escape(s.drop_first())
    }
}

/// Escape a string for inclusion in a JSON string literal.
pub fn json_escape(s: &str) -> (r: String)
    ensures
        r@ == spec_escape(s@),
    decreases s@.len(),
{
    let len = s.unicode_len();
    if len == 0 {
        proof {
            assert(spec_escape(s@) =~= Seq::<char>::empty());
        }
        return String::new();
    }
    let c = s.get_char(0);
    let rest = s.substring_char(1, len);
    proof {
        assert(rest@ =~= s@.drop_first());
    }
    let tail = json_escape(rest);
    let mut r: String;
    if c == '"' {
        proof {
            reveal_strlit("\\\"");
        }
        r = "\\\"".to_owned();
        proof {
            assert(r@ =~= spec_escape_char(s@[0]));
        }
    } else if c == '\\' {
        proof {
            reveal_strlit("\\\\");
        }
        r = "\\\\".to_owned();
        proof {
            assert(r@ =~= spec_escape_char(s@[0]));
        }
    } else if (c as u32) < 32 {
        proof {
            reveal_strlit("\\u00");
        }
        r = "\\u00".to_owned();
        let u = c as u32;
        r.append(hex_digit_str(u / 16));
        r.append(hex_digit_str(u % 16));
        proof {
            assert(r@ =~= spec_escape_char(s@[0]));
        }
    } else {
        let head = s.substring_char(0, 1);
        proof {
            assert(head@ =~= seq![s@[0]]);
        }
        r = head.to_owned();
        proof {
            assert(r@ =~= spec_escape_char(s@[0]));
        }
    }
    r.append(tail.as_str());
    proof {
        assert(r@ =~= spec_escape_char(s@[0]) + spec_escape(s@.drop_first()));
    }
    r
}

/// The body of a request: protocol tag, numeric id, escaped method name,
/// and the params member inserted verbatim as pre-rendered JSON.
pub open spec fn spec_request_json(id: nat, method: Seq<char>, params: Seq<char>) -> Seq<char> {
    "{\"jsonrpc\":\"2.0\",\"id\":"@ + dec_chars(id) + ",\"method\":\""@ + spec_escape(method)
        + "\",\"params\":"@ + params + "}"@
}

/// Build a request body. `params` must already be rendered JSON; it is
/// inserted verbatim.
pub fn build_request_json(id: u64, method: &str, params: &str) -> (r: String)
    ensures
        r@ == spec_request_json(id as nat, method@, params@),
{
    let mut r = "{\"jsonrpc\":\"2.0\",\"id\":".to_owned();
    let d = dec_string(id);
    r.append(d.as_str());
    r.append(",\"method\":\"");
    let m = json_escape(method);
    r.append(m.as_str());
    r.append("\",\"params\":");
    r.append(params);
    r.append("}");
    r
}

/// The body of a notification: as a request, but carrying no id.
pub open spec fn spec_notification_json(method: Seq<char>, params: Seq<char>) -> Seq<char> {
    "{\"jsonrpc\":\"2.0\",\"method\":\""@ + spec_escape(method) + "\",\"params\":"@ + params
        + "}"@
}

/// Build a notification body. `params` must already be rendered JSON.
pub fn build_notification_json(method: &str, params: &str) -> (r: String)
    ensures
        r@ == spec_notification_json(method@, params@),
{
    let mut r = "{\"jsonrpc\":\"2.0\",\"method\":\"".to_owned();
    let m = json_escape(method);
    r.append(m.as_str());
    r.append("\",\"params\":");
    r.append(params);
    r.append("}");
    r
}

/// The params of a position-bearing document request: the document's URI
/// and the zero-based position.
pub open spec fn spec_position_params(uri: Seq<char>, line: nat, character: nat) -> Seq<char> {
    "{\"textDocument\":{\"uri\":\""@ + spec_escape(uri) + "\"},\"position\":{\"line\":"@
        + dec_chars(line) + ",\"character\":"@ + dec_chars(character) + "}}"@
}

/// Build the params for a definition request.
pub fn definition_params_json(uri: &str, line: u32, character: u32) -> (r: String)
    ensures
        r@ == spec_position_params(uri@, line as nat, character as nat),
{
    let mut r = "{\"textDocument\":{\"uri\":\"".to_owned();
    let u = json_escape(uri);
    r.append(u.as_str());
    r.append("\"},\"position\":{\"line\":");
    let dl = dec_string(line as u64);
    r.append(dl.as_str());
    r.append(",\"character\":");
    let dc = dec_string(character as u64);
    r.append(dc.as_str());
    r.append("}}");
    r
}

/// The params of a references request: the position params with the
/// context member asking for the declaration too.
pub open spec fn spec_references_params(uri: Seq<char>, line: nat, character: nat) -> Seq<char> {
    "{\"textDocument\":{\"uri\":\""@ + spec_escape(uri) + "\"},\"position\":{\"line\":"@
        + dec_chars(line) + ",\"character\":"@ + dec_chars(character)
        + "},\"context\":{\"includeDeclaration\":true}}"@
}

/// Build the params for a references request; the declaration is always
/// requested along with the references.
pub fn references_params_json(uri: &str, line: u32, character: u32) -> (r: String)
    ensures
        r@ == spec_references_params(uri@, line as nat, character as nat),
{
    let mut r = "{\"textDocument\":{\"uri\":\"".to_owned();
    let u = json_escape(uri);
    r.append(u.as_str());
    r.append("\"},\"position\":{\"line\":");
    let dl = dec_string(line as u64);
    r.append(dl.as_str());
    r.append(",\"character\":");
    let dc = dec_string(character as u64);
    r.append(dc.as_str());
    r.append("},\"context\":{\"includeDeclaration\":true}}");
    r
}

/// The params opening a document with the analyzer: its URI, language
/// identifier, an initial version, and its full text.
pub open spec fn spec_did_open_params(
    uri: Seq<char>,
    language_id: Seq<char>,
    version: nat,
    text: Seq<char>,
) -> Seq<char> {
    "{\"textDocument\":{\"uri\":\""@ + spec_escape(uri) + "\",\"languageId\":\""@ + spec_escape(
        language_id,
    ) + "\",\"version\":"@ + dec_chars(version) + ",\"text\":\""@ + spec_escape(text) + "\"}}"@
}

/// Build the params for a document-open notification.
pub fn did_open_params_json(uri: &str, language_id: &str, version: u64, text: &str) -> (r: String)
    ensures
        r@ == spec_did_open_params(uri@, language_id@, version as nat, text@),
{
    let mut r = "{\"textDocument\":{\"uri\":\"".to_owned();
    let u = json_escape(uri);
    r.append(u.as_str());
    r.append("\",\"languageId\":\"");
    let l = json_escape(language_id);
    r.append(l.as_str());
    r.append("\",\"version\":");
    let d = dec_string(version);
    r.append(d.as_str());
    r.append(",\"text\":\"");
    let t = json_escape(text);
    r.append(t.as_str());
    r.append("\"}}");
    r
}

/// The params closing a document: its URI alone.
pub open spec fn spec_did_close_params(uri: Seq<char>) -> Seq<char> {
    "{\"textDocument\":{\"uri\":\""@ + spec_escape(uri) + "\"}}"@
}

/// Build the params for a document-close notification.
pub fn did_close_params_json(uri: &str) -> (r: String)
    ensures
        r@ == spec_did_close_params(uri@),
{
    let mut r = "{\"textDocument\":{\"uri\":\"".to_owned();
    let u = json_escape(uri);
    r.append(u.as_str());
    r.append("\"}}");
    r
}

/// The fixed client capabilities announced at initialize: hierarchical
/// document symbols and minimal diagnostics.
pub open spec fn spec_capabilities_json() -> Seq<char> {
    "{\"textDocument\":{\"documentSymbol\":{\"dynamicRegistration\":false,\"hierarchicalDocumentSymbolSupport\":true},\"publishDiagnostics\":{\"relatedInformation\":false,\"tagSupport\":{\"valueSet\":[]},\"codeDescriptionSupport\":false,\"dataSupport\":false,\"versionSupport\":false}},\"experimental\":{\"serverStatusNotification\":true}}"@
}

/// The params of the initialize request: the host process id, a file URI
/// for the workspace root, the fixed capabilities, and the workspace
/// folders list naming the root.
pub open spec fn spec_initialize_params(pid: nat, root_uri: Seq<char>) -> Seq<char> {
    "{\"processId\":"@ + dec_chars(pid) + ",\"rootUri\":\""@ + spec_escape(root_uri)
        + "\",\"capabilities\":"@ + spec_capabilities_json() + ",\"workspaceFolders\":[{\"uri\":\""@
        + spec_escape(root_uri) + "\",\"name\":\"workspace\"}]}"@
}

/// Build the params for the initialize request.
pub fn initialize_params_json(pid: u64, root_uri: &str) -> (r: String)
    ensures
        r@ == spec_initialize_params(pid as nat, root_uri@),
{
    let mut r = "{\"processId\":".to_owned();
    let d = dec_string(pid);
    r.append(d.as_str());
    r.append(",\"rootUri\":\"");
    let u = json_escape(root_uri);
    r.append(u.as_str());
    r.append("\",\"capabilities\":");
    r.append(
        "{\"textDocument\":{\"documentSymbol\":{\"dynamicRegistration\":false,\"hierarchicalDocumentSymbolSupport\":true},\"publishDiagnostics\":{\"relatedInformation\":false,\"tagSupport\":{\"valueSet\":[]},\"codeDescriptionSupport\":false,\"dataSupport\":false,\"versionSupport\":false}},\"experimental\":{\"serverStatusNotification\":true}}",
    );
    r.append(",\"workspaceFolders\":[{\"uri\":\"");
    let u2 = json_escape(root_uri);
    r.append(u2.as_str());
    r.append("\",\"name\":\"workspace\"}]}");
    r
}

/// The routing fields of one incoming message: the id it carries, its
/// method if it is a notification or request, and its result or error
/// member re-rendered as JSON.
#[derive(Debug)]
pub struct RpcFields {
    pub id: Option<u64>,
    pub method: Option<String>,
    pub result: Option<String>,
    pub error: Option<String>,
}

/// What parsing a message body yields: a function of the body string
/// alone, so two parses of one body agree. The fields themselves are
/// stated by no spec; the routing over them is verified for every value.
pub uninterp spec fn rpc_fields_of(body: Seq<char>) -> Option<RpcFields>;

/// Relies on serde_json::from_str and the Value accessors: parse the
/// body as JSON and move its routing members out as plain values — the
/// numeric id, the method string, and the result and error members
/// re-rendered by Value's serializer. A body that is not valid JSON
/// yields nothing. The outcome depends on the body string alone.
#[verifier::external_body]
pub fn parse_rpc_fields(body: &str) -> (r: Option<RpcFields>)
    ensures
        r == rpc_fields_of(body@),
{
    let v: serde_json::Value = match serde_json::from_str(body) {
        Ok(v) => v,
        Err(_) => return None,
    };
    Some(
        RpcFields {
            id: v.get("id").and_then(|x| x.as_u64()),
            method: v.get("method").and_then(|x| x.as_str()).map(|s| s.to_owned()),
            result: v.get("result").map(|x| x.to_string()),
            error: v.get("error").map(|x| x.to_string()),
        },
    )
}

/// What a completed request reports to its caller.
#[derive(Debug)]
pub enum RpcOutcome {
    /// The response carried a result member: the call succeeded.
    Success(String),
    /// The response carried an error member: the analyzer refused.
    Failure(String),
    /// Neither member was present: an empty success.
    Empty,
}

/// The outcome a response's fields report: a result wins, else an error,
/// else the empty success.
pub fn response_outcome(fields: RpcFields) -> (r: RpcOutcome)
    ensures
        match fields.result {
            Some(res) => r matches RpcOutcome::Success(s) && s@ == res@,
            None => match fields.error {
                Some(e) => r matches RpcOutcome::Failure(s) && s@ == e@,
                None => r is Empty,
            },
        },
{
    match fields.result {
        Some(res) => RpcOutcome::Success(res),
        None => match fields.error {
            Some(e) => RpcOutcome::Failure(e),
            None => RpcOutcome::Empty,
        },
    }
}

} // verus!
