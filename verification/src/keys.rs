//! The keys under which requests are cached and coalesced.

use vstd::prelude::*;

use crate::json::{is_json_shaped, json_text, scan_on, scan_over, scan_start, to_json_text, Scan};
use crate::protocol::McpRequest;
use crate::text::{concat2, concat3, optional_str};

verus! {

/// The text of arguments. Arguments that have no text count as empty.
pub open spec fn arguments_text(arguments: Option<Seq<char>>) -> Seq<char> {
    match arguments {
        Some(text) => text,
        None => Seq::empty(),
    }
}

/// The key of a tool call with a name and the text of its arguments.
pub open spec fn tool_call_key(name: Seq<char>, arguments: Option<Seq<char>>) -> Seq<char> {
    "tool:"@ + name + ":"@ + arguments_text(arguments)
}

/// The key of a read of a resource.
pub open spec fn resource_key(uri: Seq<char>) -> Seq<char> {
    "res:"@ + uri
}

/// The key of a request. Only tool calls and resource reads have one.
pub open spec fn key_of(request: McpRequest) -> Option<Seq<char>> {
    match request {
        McpRequest::CallTool(params) => Some(
            tool_call_key(params.name@, json_text(params.arguments)),
        ),
        McpRequest::ReadResource(params) => Some(resource_key(params.uri@)),
        _ => None,
    }
}

/// The arguments of a tool call have the outline of a JSON text.
pub open spec fn has_json_arguments(request: McpRequest) -> bool {
    request matches McpRequest::CallTool(params) ==> is_json_shaped(
        arguments_text(json_text(params.arguments)),
    )
}

/// Two requests are the same as far as their answers go: calls of one tool
/// with arguments of one text, or reads of one resource.
pub open spec fn are_identical(a: McpRequest, b: McpRequest) -> bool {
    match (a, b) {
        (McpRequest::CallTool(p), McpRequest::CallTool(q)) => p.name@ == q.name@ && arguments_text(
            json_text(p.arguments),
        ) == arguments_text(json_text(q.arguments)),
        (McpRequest::ReadResource(p), McpRequest::ReadResource(q)) => p.uri@ == q.uri@,
        _ => false,
    }
}

/// The key of a tool call with a name and the text of its arguments.
pub fn tool_key(name: &str, arguments: Option<&str>) -> (key: String)
    ensures
        key@ == tool_call_key(name@, optional_str(arguments)),
{
    let start = concat3("tool:", name, ":");
    match arguments {
        Some(text) => concat2(start.as_str(), text),
        None => {
            assert(start@ + Seq::<char>::empty() =~= start@);
            start
        },
    }
}

/// The key of a request.
pub fn request_key(request: &McpRequest) -> (key: Option<String>)
    ensures
        match key {
            Some(k) => key_of(*request) == Some(k@),
            None => key_of(*request) is None,
        },
        has_json_arguments(*request),
{
    match request {
        McpRequest::CallTool(params) => {
            match to_json_text(&params.arguments) {
                Some(text) => Some(tool_key(params.name.as_str(), Some(text.as_str()))),
                None => Some(tool_key(params.name.as_str(), None)),
            }
        },
        McpRequest::ReadResource(params) => Some(concat2("res:", params.uri.as_str())),
        _ => None,
    }
}

/// Calls of one tool have the same key exactly where their arguments have the
/// same text.
pub proof fn arguments_tell_calls_apart(name: Seq<char>, a: Seq<char>, b: Seq<char>)
    ensures
        tool_call_key(name, Some(a)) == tool_call_key(name, Some(b)) <==> a == b,
{
    let start = "tool:"@ + name + ":"@;
    if start + a == start + b {
        assert(a =~= (start + a).skip(start.len() as int));
        assert(b =~= (start + b).skip(start.len() as int));
    }
}

/// Reads have the same key exactly where they read the same resource.
pub proof fn uris_tell_reads_apart(a: Seq<char>, b: Seq<char>)
    ensures
        resource_key(a) == resource_key(b) <==> a == b,
{
    let start = "res:"@;
    if start + a == start + b {
        assert(a =~= (start + a).skip(start.len() as int));
        assert(b =~= (start + b).skip(start.len() as int));
    }
}

/// A tool call never has the key of a resource read.
pub proof fn calls_are_no_reads(name: Seq<char>, arguments: Option<Seq<char>>, uri: Seq<char>)
    ensures
        tool_call_key(name, arguments) != resource_key(uri),
{
    reveal_strlit("tool:");
    reveal_strlit("res:");
    assert(tool_call_key(name, arguments)[0] == 't');
    assert(resource_key(uri)[0] == 'r');
}

proof fn lemma_scan_joins(scan: Scan, a: Seq<char>, b: Seq<char>)
    ensures
        scan_over(scan, a + b) == scan_over(scan_over(scan, a), b),
    decreases b.len(),
{
    if b.len() == 0 {
        assert(a + b =~= a);
    } else {
        lemma_scan_joins(scan, a, b.drop_last());
        assert((a + b).drop_last() =~= a + b.drop_last());
    }
}

/// Between quotes, a scan ends between quotes where it would end outside them.
proof fn lemma_scan_flips(scan: Scan, other: Scan, text: Seq<char>)
    requires
        scan.quoted != other.quoted,
        scan.escaped == other.escaped,
    ensures
        scan_over(scan, text).quoted != scan_over(other, text).quoted,
        scan_over(scan, text).escaped == scan_over(other, text).escaped,
    decreases text.len(),
{
    if text.len() > 0 {
        lemma_scan_flips(scan, other, text.drop_last());
    }
}

/// A scan that begins deeper ends deeper by as much.
proof fn lemma_scan_lifts(depth: int, text: Seq<char>)
    ensures
        scan_over(Scan { depth, ..scan_start() }, text) == (Scan {
            depth: depth + scan_over(scan_start(), text).depth,
            ..scan_over(scan_start(), text)
        }),
    decreases text.len(),
{
    if text.len() > 0 {
        lemma_scan_lifts(depth, text.drop_last());
    }
}

/// No JSON text ends in a colon and another JSON text.
proof fn lemma_no_text_behind_a_colon(whole: Seq<char>, before: Seq<char>, text: Seq<char>)
    requires
        is_json_shaped(whole),
        is_json_shaped(text),
    ensures
        whole != before + seq![':'] + text,
{
    let start = scan_start();
    let at = scan_over(start, before);
    let begun = before + seq![':'];
    assert(begun.drop_last() =~= before);
    assert(scan_over(start, begun) == scan_on(at, ':'));
    lemma_scan_joins(start, begun, text);
    let behind = scan_on(at, ':');
    assert(!behind.escaped && behind.quoted == at.quoted && behind.depth == at.depth);
    if whole == begun + text {
        assert(whole[before.len() as int] == ':');
        assert(whole.take(before.len() as int) =~= before);
        if at.quoted {
            lemma_scan_flips(behind, start, text);
        } else {
            lemma_scan_lifts(at.depth, text);
            assert(behind == (Scan { depth: at.depth, ..start }));
        }
    }
}

/// Two names of different lengths, each with a JSON text behind a colon, make
/// different texts.
proof fn lemma_shorter_name(a: Seq<char>, t: Seq<char>, b: Seq<char>, u: Seq<char>)
    requires
        is_json_shaped(t),
        is_json_shaped(u),
        a.len() < b.len(),
    ensures
        a + seq![':'] + t != b + seq![':'] + u,
{
    let left = a + seq![':'] + t;
    let right = b + seq![':'] + u;
    let n = a.len() as int;
    let between = b.skip(n + 1);
    assert(t =~= left.skip(n + 1));
    assert(right.skip(n + 1) =~= between + seq![':'] + u);
    lemma_no_text_behind_a_colon(t, between, u);
}

/// Two requests have the same key exactly where both have one and they are
/// identical: calls of one tool with arguments of one text, or reads of one
/// resource. That the arguments of a call have the outline of a JSON text
/// holds of every request for which a key was made.
pub proof fn keys_tell_requests_apart(a: McpRequest, b: McpRequest)
    requires
        has_json_arguments(a),
        has_json_arguments(b),
    ensures
        key_of(a) is Some <==> a is CallTool || a is ReadResource,
        key_of(a) is Some && key_of(a) == key_of(b) <==> are_identical(a, b),
{
    reveal_strlit("tool:");
    reveal_strlit(":");
    match (a, b) {
        (McpRequest::CallTool(p), McpRequest::CallTool(q)) => {
            let t = arguments_text(json_text(p.arguments));
            let u = arguments_text(json_text(q.arguments));
            let left = p.name@ + seq![':'] + t;
            let right = q.name@ + seq![':'] + u;
            assert(":"@ =~= seq![':']);
            assert(tool_call_key(p.name@, json_text(p.arguments)).skip(5) =~= left);
            assert(tool_call_key(q.name@, json_text(q.arguments)).skip(5) =~= right);
            if key_of(a) == key_of(b) {
                assert(left == right);
                if p.name@.len() < q.name@.len() {
                    lemma_shorter_name(p.name@, t, q.name@, u);
                } else if q.name@.len() < p.name@.len() {
                    lemma_shorter_name(q.name@, u, p.name@, t);
                }
                let n = p.name@.len() as int;
                assert(p.name@ =~= left.take(n));
                assert(q.name@ =~= right.take(n));
                assert(t =~= left.skip(n + 1));
                assert(u =~= right.skip(n + 1));
            }
        },
        (McpRequest::ReadResource(p), McpRequest::ReadResource(q)) => {
            uris_tell_reads_apart(p.uri@, q.uri@);
        },
        (McpRequest::CallTool(p), McpRequest::ReadResource(q)) => {
            calls_are_no_reads(p.name@, json_text(p.arguments), q.uri@);
        },
        (McpRequest::ReadResource(p), McpRequest::CallTool(q)) => {
            calls_are_no_reads(q.name@, json_text(q.arguments), p.uri@);
        },
        _ => {},
    }
}

/// The key of a tool call is `tool:`, the name, a colon and the text of the
/// arguments, or nothing where they have none. The key of a resource read is
/// `res:` and the URI. No other request has a key.
pub proof fn keys_are_made_of_names_and_arguments(request: McpRequest)
    ensures
        request matches McpRequest::CallTool(params) ==> (json_text(params.arguments) matches Some(
            text,
        ) ==> key_of(request) == Some("tool:"@ + params.name@ + ":"@ + text)),
        request matches McpRequest::CallTool(params) ==> (json_text(params.arguments) is None
            ==> key_of(request) == Some("tool:"@ + params.name@ + ":"@)),
        request matches McpRequest::ReadResource(params) ==> key_of(request) == Some(
            "res:"@ + params.uri@,
        ),
        request is ListTools || request is GetPrompt || request is Other ==> key_of(request) is None,
{
    if let McpRequest::CallTool(params) = request {
        let start = "tool:"@ + params.name@ + ":"@;
        assert(start + Seq::<char>::empty() =~= start);
    }
}

/// Requests that have keys and whose keys are equal are calls of one tool with
/// arguments of one text, or reads of one resource.
pub proof fn equal_keys_mean_equal_requests(a: McpRequest, b: McpRequest)
    requires
        has_json_arguments(a),
        has_json_arguments(b),
        key_of(a) is Some,
        key_of(a) == key_of(b),
    ensures
        a matches McpRequest::CallTool(p) ==> b matches McpRequest::CallTool(q) && p.name@
            == q.name@ && (json_text(p.arguments) is Some && json_text(q.arguments) is Some
            ==> json_text(p.arguments) == json_text(q.arguments)),
        a matches McpRequest::ReadResource(p) ==> b matches McpRequest::ReadResource(q) && p.uri@
            == q.uri@,
        a is CallTool || a is ReadResource,
{
    keys_tell_requests_apart(a, b);
}

/// Calls of one tool with the same text of arguments are identical, and so are
/// reads of one resource; calls of different tools, reads of different
/// resources, a call and a read, and other requests are not.
pub proof fn requests_are_identical_by_name_and_arguments(a: McpRequest, b: McpRequest)
    ensures
        a matches McpRequest::CallTool(p) ==> (b matches McpRequest::CallTool(q) ==> {
            &&& p.name@ != q.name@ ==> !are_identical(a, b)
            &&& p.name@ == q.name@ && json_text(p.arguments) == json_text(q.arguments)
                ==> are_identical(a, b)
            &&& json_text(p.arguments) is Some && json_text(q.arguments) is Some && json_text(
                p.arguments,
            ) != json_text(q.arguments) ==> !are_identical(a, b)
        }),
        a matches McpRequest::ReadResource(p) ==> (b matches McpRequest::ReadResource(q) ==> (
        are_identical(a, b) <==> p.uri@ == q.uri@)),
        a is CallTool && !(b is CallTool) ==> !are_identical(a, b),
        a is ReadResource && !(b is ReadResource) ==> !are_identical(a, b),
        !(a is CallTool) && !(a is ReadResource) ==> !are_identical(a, b),
{
}

} // verus!
