//! Addressing a multiplexer and joining its session.

use crate::json::{
    bool_value, distinct_names, field_map, json_contents, object_value, text_value, Json,
};
use crate::text::{has_char, join2};
use serde_json::Value;
use vstd::prelude::*;

verus! {

/// The mux address used when the user gives no target.
pub const DEFAULT_ADDR: &'static str = "127.0.0.1:5679";

/// The address of the multiplexer that a target stands for: the default one when
/// there is none, the target itself when it has a colon, else a port on the
/// loopback host.
pub open spec fn resolved_addr(target: Option<Seq<char>>) -> Seq<char> {
    match target {
        None => DEFAULT_ADDR@,
        Some(target) => if target.contains(':') {
            target
        } else {
            "127.0.0.1:"@ + target
        },
    }
}

/// Resolve an optional target into a concrete address. A bare port assumes the
/// loopback host. Nothing falls back to the default mux address.
pub fn resolve_addr(target: Option<&str>) -> (addr: String)
    ensures
        addr@ == resolved_addr(
            match target {
                Some(target) => Some(target@),
                None => None,
            },
        ),
{
    match target {
        None => DEFAULT_ADDR.to_owned(),
        Some(target) => if has_char(target, ':') {
            target.to_owned()
        } else {
            join2("127.0.0.1:", target)
        },
    }
}

/// What the late-join `initialize` announces of the client.
pub open spec fn initialize_fields() -> Map<Seq<char>, Json> {
    map![
        "adapterID"@ => Json::Text("dap-observer"@),
        "clientID"@ => Json::Text("dap-observer"@),
        "clientName"@ => Json::Text("dap-observer"@),
        "pathFormat"@ => Json::Text("path"@),
        "linesStartAt1"@ => Json::Bool(true),
        "columnsStartAt1"@ => Json::Bool(true),
        "supportsVariableType"@ => Json::Bool(true),
        "supportsRunInTerminalRequest"@ => Json::Bool(false),
    ]
}

/// Arguments for the minimal late-join `initialize`.
///
/// Crucially `supportsRunInTerminalRequest` is not advertised, so the mux routes
/// any reverse `runInTerminal` request to the client driving the session and
/// never to this one.
pub fn initialize_args() -> (args: Value)
    ensures
        json_contents(args) == Json::Object(initialize_fields()),
{
    let fields: Vec<(String, Value)> = vec![
        ("adapterID".to_owned(), text_value("dap-observer")),
        ("clientID".to_owned(), text_value("dap-observer")),
        ("clientName".to_owned(), text_value("dap-observer")),
        ("pathFormat".to_owned(), text_value("path")),
        ("linesStartAt1".to_owned(), bool_value(true)),
        ("columnsStartAt1".to_owned(), bool_value(true)),
        ("supportsVariableType".to_owned(), bool_value(true)),
        ("supportsRunInTerminalRequest".to_owned(), bool_value(false)),
    ];
    proof {
        reveal_strlit("adapterID");
        reveal_strlit("clientID");
        reveal_strlit("clientName");
        reveal_strlit("pathFormat");
        reveal_strlit("linesStartAt1");
        reveal_strlit("columnsStartAt1");
        reveal_strlit("supportsVariableType");
        reveal_strlit("supportsRunInTerminalRequest");
        assert("clientName"@[0] != "pathFormat"@[0]);
        assert(distinct_names(fields@)) by {
            assert forall|i: int, j: int| 0 <= i < j < fields@.len() implies (
            #[trigger] fields@[i]).0@ != (#[trigger] fields@[j]).0@ by {
                assert(fields@[0].0@.len() == 9);
                assert(fields@[1].0@.len() == 8);
                assert(fields@[2].0@ == "clientName"@);
                assert(fields@[3].0@ == "pathFormat"@);
                assert(fields@[4].0@.len() == 13);
                assert(fields@[5].0@.len() == 15);
                assert(fields@[6].0@.len() == 20);
                assert(fields@[7].0@.len() == 28);
            }
        }
        reveal_with_fuel(field_map, 9);
        assert(field_map(fields@) =~= initialize_fields());
    }
    object_value(fields)
}

} // verus!
