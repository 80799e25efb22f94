//! The ACP (Agent Client Protocol) router: newline-delimited JSON-RPC over the
//! agent's stdio. The process, its pipes and threads are the caller's; what each
//! message means, and what is sent back, is decided here.
use vstd::prelude::*;
use crate::json::{as_array_spec, as_str_spec, as_u64_spec, member_lookup, members_view, obj_get, seq_view, Json, JsonNumber, JsonView, Member, NumberView};
use crate::text::{chars_of, lead_count, str_eq, trail_count, trim, trim_spec};

verus! {

broadcast use vstd::string::group_string_axioms;

pub const PROTOCOL_VERSION: u64 = 1;

/// Everything the UI learns from the agent flows through this one channel.
pub struct AcpEvent {
    /// ready | chunk | thought | tool | permission | plan | commands | turn-end | error
    pub kind: String,
    pub data: Json,
}

/// Classify an incoming message for the router.
pub enum Incoming {
    /// A response to one of our requests (matches by id).
    Response(u64, Json),
    /// A request FROM the agent (method + id present) — must be answered.
    AgentRequest(u64, String, Json),
    /// A notification (method, no id) — e.g. session/update.
    Notification(String, Json),
    /// Unparseable/irrelevant.
    Ignore,
}

pub enum IncomingView {
    Response(u64, JsonView),
    AgentRequest(u64, Seq<char>, JsonView),
    Notification(Seq<char>, JsonView),
    Ignore,
}

impl View for Incoming {
    type V = IncomingView;

    open spec fn view(&self) -> IncomingView {
        match self {
            Incoming::Response(id, v) => IncomingView::Response(*id, v@),
            Incoming::AgentRequest(id, m, p) => IncomingView::AgentRequest(*id, m@, p@),
            Incoming::Notification(m, p) => IncomingView::Notification(m@, p@),
            Incoming::Ignore => IncomingView::Ignore,
        }
    }
}

/// A field of `j` read with `f`, `None` when missing.
pub open spec fn field_u64(j: JsonView, key: Seq<char>) -> Option<u64> {
    match obj_get(j, key) {
        Some(v) => as_u64_spec(v),
        None => None,
    }
}

pub open spec fn field_str(j: JsonView, key: Seq<char>) -> Option<Seq<char>> {
    match obj_get(j, key) {
        Some(v) => as_str_spec(v),
        None => None,
    }
}

/// The `params` of a message, `null` when absent.
pub open spec fn params_of(j: JsonView) -> JsonView {
    match obj_get(j, "params"@) {
        Some(p) => p,
        None => JsonView::Null,
    }
}

/// Routing: an unsigned `id` with a `result` or `error` is a response; an `id`
/// with a `method` is a request from the agent; a `method` without a usable `id`
/// is a notification; anything else is ignored.
pub open spec fn classify_spec(msg: JsonView) -> IncomingView {
    let id = field_u64(msg, "id"@);
    let method = field_str(msg, "method"@);
    if id is Some && (obj_get(msg, "result"@) is Some || obj_get(msg, "error"@) is Some) {
        IncomingView::Response(id->0, msg)
    } else if id is Some && method is Some {
        IncomingView::AgentRequest(id->0, method->0, params_of(msg))
    } else if method is Some {
        IncomingView::Notification(method->0, params_of(msg))
    } else {
        IncomingView::Ignore
    }
}

fn params_copy(msg: &Json) -> (r: Json)
    ensures
        r@ == params_of(msg@),
{
    match msg.get("params") {
        Some(p) => p.copy(),
        None => Json::Null,
    }
}

pub fn classify(msg: &Json) -> (r: Incoming)
    ensures
        r@ == classify_spec(msg@),
{
    let id = match msg.get("id") {
        Some(v) => v.as_u64(),
        None => None,
    };
    let method = match msg.get("method") {
        Some(v) => v.as_str(),
        None => None,
    };
    if let Some(id) = id {
        if msg.get("result").is_some() || msg.get("error").is_some() {
            return Incoming::Response(id, msg.copy());
        }
        if let Some(method) = method {
            return Incoming::AgentRequest(id, method.to_owned(), params_copy(msg));
        }
    }
    if let Some(method) = method {
        return Incoming::Notification(method.to_owned(), params_copy(msg));
    }
    Incoming::Ignore
}

/// `params.update.sessionUpdate`, when it is a string.
pub open spec fn update_kind_spec(params: JsonView) -> Option<Seq<char>> {
    match obj_get(params, "update"@) {
        Some(u) => field_str(u, "sessionUpdate"@),
        None => None,
    }
}

/// The `sessionUpdate` variant discriminator of a session/update payload.
pub fn update_kind(params: &Json) -> (r: Option<&str>)
    ensures
        match update_kind_spec(params@) {
            Some(k) => r matches Some(x) && x@ == k,
            None => r is None,
        },
{
    match params.get("update") {
        Some(u) => match u.get("sessionUpdate") {
            Some(k) => k.as_str(),
            None => None,
        },
        None => None,
    }
}

/// `params.update.content.text`, or nothing.
pub open spec fn chunk_text_spec(params: JsonView) -> Seq<char> {
    match obj_get(params, "update"@) {
        Some(u) => match obj_get(u, "content"@) {
            Some(c) => match field_str(c, "text"@) {
                Some(t) => t,
                None => Seq::empty(),
            },
            None => Seq::empty(),
        },
        None => Seq::empty(),
    }
}

/// Concatenate text deltas of one chunk variant into UI-appendable text.
pub fn chunk_text(params: &Json) -> (r: String)
    ensures
        r@ == chunk_text_spec(params@),
{
    let t: Option<&str> = match params.get("update") {
        Some(u) => match u.get("content") {
            Some(c) => match c.get("text") {
                Some(t) => t.as_str(),
                None => None,
            },
            None => None,
        },
        None => None,
    };
    match t {
        Some(s) => s.to_owned(),
        None => String::new(),
    }
}


/// `str::trim_matches('"')`.
pub open spec fn trim_quotes(s: Seq<char>) -> Seq<char> {
    let t = s.skip(lead_count(s, '"') as int);
    t.take(t.len() - trail_count(t, '"'))
}

fn trim_quotes_exec(s: &str) -> (r: String)
    ensures
        r@ == trim_quotes(s@),
{
    let v = chars_of(s);
    let n = v.len();
    let mut a: usize = 0;
    assert(v@.skip(0) =~= v@);
    while a < n && v[a] == '"'
        invariant
            a <= n == v@.len(),
            v@ == s@,
            lead_count(v@, '"') == a + lead_count(v@.skip(a as int), '"'),
        decreases n - a,
    {
        assert(v@.skip(a as int).drop_first() =~= v@.skip(a + 1));
        a += 1;
    }
    let ghost t = v@.skip(a as int);
    assert(lead_count(v@.skip(a as int), '"') == 0);
    let mut b: usize = n;
    assert(v@.subrange(a as int, n as int) =~= t);
    while b > a && v[b - 1] == '"'
        invariant
            a <= b <= n == v@.len(),
            t == v@.skip(a as int),
            trail_count(t, '"') == (n - b) + trail_count(v@.subrange(a as int, b as int), '"'),
        decreases b,
    {
        assert(v@.subrange(a as int, b as int).drop_last() =~= v@.subrange(a as int, b - 1));
        b -= 1;
    }
    assert(t.take(t.len() - trail_count(t, '"')) =~= v@.subrange(a as int, b as int));
    crate::text::string_of_range(&v, a, b)
}

/// The id of a permission option: its `optionId` string; for an `optionId` that is not
/// a string, its JSON text `rendered` with quotes trimmed (nothing when that text is
/// not given).
pub open spec fn option_id_spec(option: JsonView, rendered: Option<Seq<char>>) -> Option<Seq<char>> {
    match obj_get(option, "optionId"@) {
        Some(JsonView::Str(s)) => Some(s),
        Some(other) => match rendered {
            Some(t) => Some(trim_quotes(t)),
            None => None,
        },
        None => None,
    }
}

fn option_id(option: &Json, rendered: Option<&str>) -> (r: Option<String>)
    ensures
        match option_id_spec(option@, opt_str_view(rendered)) {
            Some(s) => r matches Some(x) && x@ == s,
            None => r is None,
        },
{
    match option.get("optionId") {
        Some(Json::Str(s)) => Some(s.clone()),
        Some(other) => match rendered {
            Some(t) => Some(trim_quotes_exec(t)),
            None => None,
        },
        None => None,
    }
}

pub open spec fn opt_str_view(o: Option<&str>) -> Option<Seq<char>> {
    match o {
        Some(s) => Some(s@),
        None => None,
    }
}

/// An option whose `kind` is `allow_once` or `allow_always`.
pub open spec fn is_allow(o: JsonView) -> bool {
    field_str(o, "kind"@) == Some("allow_once"@) || field_str(o, "kind"@) == Some(
        "allow_always"@,
    )
}

/// Index of the first allow-ish option.
pub open spec fn first_allow_index(opts: Seq<JsonView>) -> Option<nat>
    decreases opts.len(),
{
    if opts.len() == 0 {
        None
    } else if is_allow(opts[0]) {
        Some(0)
    } else {
        match first_allow_index(opts.drop_first()) {
            Some(k) => Some(k + 1),
            None => None,
        }
    }
}

/// The option a permission request is answered with: the first allow-ish option,
/// else the first option; nothing when there are no options (or `options` is not an
/// array).
pub open spec fn chosen_option_spec(params: JsonView) -> Option<JsonView> {
    match obj_get(params, "options"@) {
        Some(o) => match as_array_spec(o) {
            Some(opts) => match first_allow_index(opts) {
                Some(k) => Some(opts[k as int]),
                None => if opts.len() > 0 {
                    Some(opts[0])
                } else {
                    None
                },
            },
            None => None,
        },
        None => None,
    }
}

/// The id of the chosen option (`rendered` is the JSON text of its `optionId` when
/// that is not a string).
pub open spec fn first_allow_option_spec(params: JsonView, rendered: Option<Seq<char>>) -> Option<Seq<char>> {
    match chosen_option_spec(params) {
        Some(o) => option_id_spec(o, rendered),
        None => None,
    }
}

/// The value whose JSON text the answer needs: the chosen option's `optionId`, when it
/// is there and is not a string.
pub open spec fn id_to_render_spec(params: JsonView) -> Option<JsonView> {
    match chosen_option_spec(params) {
        Some(o) => match obj_get(o, "optionId"@) {
            Some(JsonView::Str(_)) => None,
            Some(v) => Some(v),
            None => None,
        },
        None => None,
    }
}

proof fn lemma_first_allow_index(opts: Seq<JsonView>, i: int)
    requires
        0 <= i <= opts.len(),
        forall|j: int| 0 <= j < i ==> !is_allow(opts[j]),
        i == opts.len() || is_allow(opts[i]),
    ensures
        first_allow_index(opts) == (if i == opts.len() {
            None::<nat>
        } else {
            Some(i as nat)
        }),
    decreases opts.len(),
{
    if opts.len() > 0 && i > 0 {
        assert forall|j: int| 0 <= j < i - 1 implies !is_allow(opts.drop_first()[j]) by {
            assert(opts.drop_first()[j] == opts[j + 1]);
        }
        lemma_first_allow_index(opts.drop_first(), i - 1);
    }
}

fn is_allow_exec(o: &Json) -> (r: bool)
    ensures
        r == is_allow(o@),
{
    match o.get("kind") {
        Some(k) => match k.as_str() {
            Some(s) => {
                proof {
                    reveal_strlit("allow_once");
                    reveal_strlit("allow_always");
                }
                str_eq(s, "allow_once") || str_eq(s, "allow_always")
            },
            None => false,
        },
        None => false,
    }
}

/// The option a permission request is answered with.
fn chosen_option(params: &Json) -> (r: Option<&Json>)
    ensures
        match chosen_option_spec(params@) {
            Some(o) => r matches Some(x) && x@ == o,
            None => r is None,
        },
{
    let opts = match params.get("options") {
        Some(o) => match o.as_array() {
            Some(a) => a,
            None => {
                return None;
            },
        },
        None => {
            return None;
        },
    };
    let ghost ov = seq_view(opts@);
    let mut i: usize = 0;
    while i < opts.len()
        invariant
            i <= opts@.len(),
            ov == seq_view(opts@),
            obj_get(params@, "options"@) matches Some(o) && as_array_spec(o) == Some(ov),
            forall|j: int| 0 <= j < i ==> !is_allow(ov[j]),
        decreases opts.len() - i,
    {
        if is_allow_exec(&opts[i]) {
            proof {
                lemma_first_allow_index(ov, i as int);
            }
            return Some(&opts[i]);
        }
        i += 1;
    }
    proof {
        lemma_first_allow_index(ov, i as int);
    }
    if opts.len() > 0 {
        Some(&opts[0])
    } else {
        None
    }
}

/// Pick the first allow-ish option id from a permission request, else the
/// first option at all. Headless precedent: `-p` runs are always EXTREME.
/// `rendered` is the JSON text of the chosen `optionId` when that is not a string
/// (see `option_id_to_render`).
pub fn first_allow_option(params: &Json, rendered: Option<&str>) -> (r: Option<String>)
    ensures
        match first_allow_option_spec(params@, opt_str_view(rendered)) {
            Some(s) => r matches Some(x) && x@ == s,
            None => r is None,
        },
{
    match chosen_option(params) {
        Some(o) => option_id(o, rendered),
        None => None,
    }
}

/// The chosen option's `optionId` when it is not a string: its JSON text is what the
/// answer carries, and producing that text is left to the caller.
pub fn option_id_to_render(params: &Json) -> (r: Option<Json>)
    ensures
        match id_to_render_spec(params@) {
            Some(v) => r matches Some(x) && x@ == v,
            None => r is None,
        },
{
    match chosen_option(params) {
        Some(o) => match o.get("optionId") {
            Some(Json::Str(_)) => None,
            Some(v) => Some(v.copy()),
            None => None,
        },
        None => None,
    }
}

/// Index of the first config option whose `currentValue` is a string.
pub open spec fn first_string_value(opts: Seq<JsonView>) -> Option<nat>
    decreases opts.len(),
{
    if opts.len() == 0 {
        None
    } else if field_str(opts[0], "currentValue"@) is Some {
        Some(0)
    } else {
        match first_string_value(opts.drop_first()) {
            Some(k) => Some(k + 1),
            None => None,
        }
    }
}

proof fn lemma_first_string_value(opts: Seq<JsonView>, i: int)
    requires
        0 <= i <= opts.len(),
        forall|j: int| 0 <= j < i ==> field_str(opts[j], "currentValue"@) is None,
        i == opts.len() || field_str(opts[i], "currentValue"@) is Some,
    ensures
        first_string_value(opts) == (if i == opts.len() {
            None::<nat>
        } else {
            Some(i as nat)
        }),
    decreases opts.len(),
{
    if opts.len() > 0 && i > 0 {
        assert forall|j: int| 0 <= j < i - 1 implies field_str(
            opts.drop_first()[j],
            "currentValue"@,
        ) is None by {
            assert(opts.drop_first()[j] == opts[j + 1]);
        }
        lemma_first_string_value(opts.drop_first(), i - 1);
    }
}

/// The session id and current model of a `session/new` result: `sessionId` when a
/// string, and the `currentValue` of the first config option that has a string one.
pub open spec fn parse_session_new_spec(result: JsonView) -> (Option<Seq<char>>, Option<Seq<char>>) {
    (
        field_str(result, "sessionId"@),
        match obj_get(result, "configOptions"@) {
            Some(c) => match as_array_spec(c) {
                Some(opts) => match first_string_value(opts) {
                    Some(k) => field_str(opts[k as int], "currentValue"@),
                    None => None,
                },
                None => None,
            },
            None => None,
        },
    )
}

pub open spec fn opt_string_view(o: Option<String>) -> Option<Seq<char>> {
    match o {
        Some(s) => Some(s@),
        None => None,
    }
}

fn first_string_value_index(opts: &Vec<Json>) -> (r: Option<usize>)
    ensures
        r == (match first_string_value(seq_view(opts@)) {
            Some(k) => Some(k as usize),
            None => None::<usize>,
        }),
        r matches Some(k) ==> k < opts@.len() && first_string_value(seq_view(opts@)) == Some(
            k as nat,
        ),
{
    let ghost ov = seq_view(opts@);
    let mut i: usize = 0;
    while i < opts.len()
        invariant
            i <= opts@.len(),
            ov == seq_view(opts@),
            forall|j: int| 0 <= j < i ==> field_str(ov[j], "currentValue"@) is None,
        decreases opts.len() - i,
    {
        let is_str = match opts[i].get("currentValue") {
            Some(v) => v.as_str().is_some(),
            None => false,
        };
        if is_str {
            proof {
                lemma_first_string_value(ov, i as int);
            }
            return Some(i);
        }
        i += 1;
    }
    proof {
        lemma_first_string_value(ov, i as int);
    }
    None
}

/// Extract the session id + current model from a session/new result.
pub fn parse_session_new(result: &Json) -> (r: (Option<String>, Option<String>))
    ensures
        (opt_string_view(r.0), opt_string_view(r.1)) == parse_session_new_spec(result@),
{
    let session_id: Option<String> = match result.get("sessionId") {
        Some(v) => match v.as_str() {
            Some(s) => Some(s.to_owned()),
            None => None,
        },
        None => None,
    };
    let opts = match result.get("configOptions") {
        Some(c) => c.as_array(),
        None => None,
    };
    let model: Option<String> = match opts {
        Some(opts) => match first_string_value_index(opts) {
            Some(k) => match opts[k].get("currentValue") {
                Some(v) => match v.as_str() {
                    Some(s) => Some(s.to_owned()),
                    None => None,
                },
                None => None,
            },
            None => None,
        },
        None => None,
    };
    (session_id, model)
}

// ------------------------------------------------------------ messages out

pub open spec fn jstr(s: Seq<char>) -> JsonView {
    JsonView::Str(s)
}

pub open spec fn juint(u: u64) -> JsonView {
    JsonView::Number(NumberView::PosInt(u))
}

/// What the client answers an agent request: a permission request gets a result
/// that selects its first allow-ish option (auto-allowed); any other method gets a
/// JSON-RPC method-not-found error.
pub open spec fn reply_spec(rid: u64, method: Seq<char>, params: JsonView, rendered: Option<Seq<char>>) -> JsonView {
    if method == "session/request_permission"@ {
        JsonView::Object(
            seq![
                ("jsonrpc"@, jstr("2.0"@)),
                ("id"@, juint(rid)),
                ("result"@, permission_outcome_spec(params, rendered)),
            ],
        )
    } else {
        JsonView::Object(
            seq![
                ("jsonrpc"@, jstr("2.0"@)),
                ("id"@, juint(rid)),
                ("error"@, method_not_found_spec()),
            ],
        )
    }
}

/// The result of an auto-allowed permission request.
pub open spec fn permission_outcome_spec(params: JsonView, rendered: Option<Seq<char>>) -> JsonView {
    JsonView::Object(
        seq![
            ("outcome"@, JsonView::Object(
                seq![
                    ("outcome"@, jstr("selected"@)),
                    ("optionId"@, str_or_null_spec(first_allow_option_spec(params, rendered))),
                ],
            )),
        ],
    )
}

/// The JSON-RPC error object for a method this client does not serve.
pub open spec fn method_not_found_spec() -> JsonView {
    JsonView::Object(
        seq![
            ("code"@, JsonView::Number(NumberView::NegInt(METHOD_NOT_FOUND))),
            ("message"@, jstr("method not supported by this client"@)),
        ],
    )
}

/// JSON-RPC's error code for an unknown method.
pub const METHOD_NOT_FOUND: i64 = -32601;

/// The reply to an agent request, so a turn can never hang on an unanswered one.
pub fn agent_reply(rid: u64, method: &str, params: &Json, rendered: Option<&str>) -> (r: Json)
    ensures
        r@ == reply_spec(rid, method@, params@, opt_str_view(rendered)),
{
    if str_eq(method, "session/request_permission") {
        let id = first_allow_option(params, rendered);
        let id_json = match &id {
            Some(s) => Json::from_str(s.as_str()),
            None => Json::Null,
        };
        assert(id_json@ == str_or_null_spec(first_allow_option_spec(params@, opt_str_view(rendered))));
        let outcome = crate::json::obj1(
            "outcome",
            crate::json::obj2("outcome", Json::from_str("selected"), "optionId", id_json),
        );
        crate::json::obj3("jsonrpc", Json::from_str("2.0"), "id", Json::uint(rid), "result", outcome)
    } else {
        let err = crate::json::obj2(
            "code",
            Json::Number(JsonNumber::NegInt(METHOD_NOT_FOUND)),
            "message",
            Json::from_str("method not supported by this client"),
        );
        crate::json::obj3("jsonrpc", Json::from_str("2.0"), "id", Json::uint(rid), "error", err)
    }
}

/// The UI event kind for a `sessionUpdate` variant.
pub open spec fn ui_kind_spec(raw: Seq<char>) -> Seq<char> {
    if raw == "agent_message_chunk"@ {
        "chunk"@
    } else if raw == "agent_thought_chunk"@ {
        "thought"@
    } else if raw == "tool_call"@ || raw == "tool_call_update"@ {
        "tool"@
    } else if raw == "plan"@ {
        "plan"@
    } else if raw == "available_commands_update"@ {
        "commands"@
    } else {
        raw
    }
}

pub fn ui_kind(raw: &str) -> (r: String)
    ensures
        r@ == ui_kind_spec(raw@),
{
    if str_eq(raw, "agent_message_chunk") {
        "chunk".to_owned()
    } else if str_eq(raw, "agent_thought_chunk") {
        "thought".to_owned()
    } else if str_eq(raw, "tool_call") || str_eq(raw, "tool_call_update") {
        "tool".to_owned()
    } else if str_eq(raw, "plan") {
        "plan".to_owned()
    } else if str_eq(raw, "available_commands_update") {
        "commands".to_owned()
    } else {
        raw.to_owned()
    }
}

/// The UI event a notification raises: only `session/update` does, with the UI kind
/// of its variant (`unknown` when it has none) and the params as data.
pub open spec fn update_event_spec(method: Seq<char>, params: JsonView) -> Option<(Seq<char>, JsonView)> {
    if method == "session/update"@ {
        let raw = match update_kind_spec(params) {
            Some(k) => k,
            None => "unknown"@,
        };
        Some((ui_kind_spec(raw), params))
    } else {
        None
    }
}

pub fn update_event(method: &str, params: Json) -> (r: Option<AcpEvent>)
    ensures
        match update_event_spec(method@, params@) {
            Some((k, d)) => r matches Some(e) && e.kind@ == k && e.data@ == d,
            None => r is None,
        },
{
    if !str_eq(method, "session/update") {
        return None;
    }
    let kind = match update_kind(&params) {
        Some(k) => ui_kind(k),
        None => ui_kind("unknown"),
    };
    Some(AcpEvent { kind, data: params })
}

/// The event a permission request raises (it is auto-answered, and logged).
pub open spec fn permission_event_spec(method: Seq<char>, params: JsonView) -> Option<
    (Seq<char>, JsonView),
> {
    if method == "session/request_permission"@ {
        Some(
            (
                "permission"@,
                JsonView::Object(seq![("method"@, jstr(method)), ("params"@, params)]),
            ),
        )
    } else {
        None
    }
}

pub fn permission_event(method: &str, params: &Json) -> (r: Option<AcpEvent>)
    ensures
        match permission_event_spec(method@, params@) {
            Some((k, d)) => r matches Some(e) && e.kind@ == k && e.data@ == d,
            None => r is None,
        },
{
    if !str_eq(method, "session/request_permission") {
        return None;
    }
    Some(
        AcpEvent {
            kind: "permission".to_owned(),
            data: crate::json::obj2("method", Json::from_str(method), "params", params.copy()),
        },
    )
}

/// A JSON-RPC request.
pub open spec fn request_spec(rid: u64, method: Seq<char>, params: JsonView) -> JsonView {
    JsonView::Object(
        seq![
            ("jsonrpc"@, jstr("2.0"@)),
            ("id"@, juint(rid)),
            ("method"@, jstr(method)),
            ("params"@, params),
        ],
    )
}

pub fn request(rid: u64, method: &str, params: Json) -> (r: Json)
    ensures
        r@ == request_spec(rid, method@, params@),
{
    crate::json::obj4(
        "jsonrpc",
        Json::from_str("2.0"),
        "id",
        Json::uint(rid),
        "method",
        Json::from_str(method),
        "params",
        params,
    )
}

/// `initialize` params: protocol version 1, no client capabilities.
pub open spec fn initialize_params_spec() -> JsonView {
    JsonView::Object(
        seq![
            ("protocolVersion"@, juint(PROTOCOL_VERSION)),
            ("clientCapabilities"@, JsonView::Object(Seq::empty())),
        ],
    )
}

pub fn initialize_params() -> (r: Json)
    ensures
        r@ == initialize_params_spec(),
{
    let caps = Json::object(Vec::new());
    assert(members_view(Seq::<Member>::empty()) =~= Seq::empty());
    crate::json::obj2("protocolVersion", Json::uint(PROTOCOL_VERSION), "clientCapabilities", caps)
}

/// `session/load` params for a previous session.
pub open spec fn load_params_spec(cwd: Seq<char>, previous: Seq<char>) -> JsonView {
    JsonView::Object(
        seq![
            ("cwd"@, jstr(cwd)),
            ("sessionId"@, jstr(previous)),
            ("mcpServers"@, JsonView::Array(Seq::empty())),
        ],
    )
}

pub fn load_params(cwd: &str, previous: &str) -> (r: Json)
    ensures
        r@ == load_params_spec(cwd@, previous@),
{
    let none = Json::array(Vec::new());
    assert(seq_view(Seq::<Json>::empty()) =~= Seq::empty());
    crate::json::obj3(
        "cwd",
        Json::from_str(cwd),
        "sessionId",
        Json::from_str(previous),
        "mcpServers",
        none,
    )
}

/// `session/new` params.
pub open spec fn new_params_spec(cwd: Seq<char>) -> JsonView {
    JsonView::Object(seq![("cwd"@, jstr(cwd)), ("mcpServers"@, JsonView::Array(Seq::empty()))])
}

pub fn new_params(cwd: &str) -> (r: Json)
    ensures
        r@ == new_params_spec(cwd@),
{
    let none = Json::array(Vec::new());
    assert(seq_view(Seq::<Json>::empty()) =~= Seq::empty());
    crate::json::obj2("cwd", Json::from_str(cwd), "mcpServers", none)
}

/// The `session/prompt` request for one user turn.
pub open spec fn prompt_request_spec(rid: u64, session_id: Seq<char>, text: Seq<char>) -> JsonView {
    request_spec(
        rid,
        "session/prompt"@,
        JsonView::Object(
            seq![
                ("sessionId"@, jstr(session_id)),
                ("prompt"@, JsonView::Array(
                    seq![JsonView::Object(seq![("type"@, jstr("text"@)), ("text"@, jstr(text))])],
                )),
            ],
        ),
    )
}

pub fn prompt_request(rid: u64, session_id: &str, text: &str) -> (r: Json)
    ensures
        r@ == prompt_request_spec(rid, session_id@, text@),
{
    let part = crate::json::obj2("type", Json::from_str("text"), "text", Json::from_str(text));
    let ghost pv = part@;
    let mut parts: Vec<Json> = Vec::new();
    parts.push(part);
    let arr = Json::array(parts);
    assert(seq_view(parts@) =~= seq![pv]);
    let params = crate::json::obj2("sessionId", Json::from_str(session_id), "prompt", arr);
    request(rid, "session/prompt", params)
}

/// The `session/cancel` notification.
pub fn cancel_notification(session_id: &str) -> (r: Json)
    ensures
        r@ == JsonView::Object(
            seq![
                ("jsonrpc"@, jstr("2.0"@)),
                ("method"@, jstr("session/cancel"@)),
                ("params"@, JsonView::Object(seq![("sessionId"@, jstr(session_id@))])),
            ],
        ),
{
    crate::json::obj3(
        "jsonrpc",
        Json::from_str("2.0"),
        "method",
        Json::from_str("session/cancel"),
        "params",
        crate::json::obj1("sessionId", Json::from_str(session_id)),
    )
}

/// What a handshake call yields from its response: its `error` value when it has one,
/// else its result (`null` when missing).
pub open spec fn call_outcome_spec(msg: JsonView) -> Result<JsonView, JsonView> {
    match obj_get(msg, "error"@) {
        Some(e) => Err(e),
        None => Ok(
            match obj_get(msg, "result"@) {
                Some(r) => r,
                None => JsonView::Null,
            },
        ),
    }
}

pub fn call_outcome(msg: &Json) -> (r: Result<Json, Json>)
    ensures
        match call_outcome_spec(msg@) {
            Ok(v) => r matches Ok(x) && x@ == v,
            Err(e) => r matches Err(x) && x@ == e,
        },
{
    match msg.get("error") {
        Some(e) => Err(e.copy()),
        None => Ok(
            match msg.get("result") {
                Some(r) => r.copy(),
                None => Json::Null,
            },
        ),
    }
}

/// The error a failed handshake call reports: the method, then the JSON text of the
/// response's `error` value.
pub fn call_error_text(method: &str, error_text: &str) -> (r: String)
    ensures
        r@ == method@ + " error: "@ + error_text@,
{
    let mut out = method.to_owned();
    crate::text::push_str(&mut out, " error: ");
    crate::text::push_str(&mut out, error_text);
    out
}

/// A `session/load` counts as resumed only when its result carries a `sessionId`
/// (a load can succeed at the JSON-RPC level and still carry none).
pub open spec fn resumed_spec(load: Option<JsonView>) -> bool {
    match load {
        Some(v) => obj_get(v, "sessionId"@) is Some,
        None => false,
    }
}

/// Whether the result of a `session/load` call resumed the previous session.
pub fn load_resumed(load: &Option<Json>) -> (r: bool)
    ensures
        r == resumed_spec(match load {
            Some(v) => Some(v@),
            None => None,
        }),
{
    match load {
        Some(v) => v.get("sessionId").is_some(),
        None => false,
    }
}

/// The previous session to resume: the one given, unless it is empty.
pub fn previous_session(resume: Option<&str>) -> (r: Option<&str>)
    ensures
        match resume {
            Some(s) => if s@.len() > 0 {
                r == Some(s)
            } else {
                r is None
            },
            None => r is None,
        },
{
    match resume {
        Some(s) => if s.is_empty() {
            None
        } else {
            Some(s)
        },
        None => None,
    }
}

/// The error event when a previous session could not be resumed.
pub fn resume_failed_event(previous: &str) -> (r: AcpEvent)
    ensures
        r.kind@ == "error"@,
        r.data@ == JsonView::Object(
            seq![
                ("message"@, jstr(
                    "could not resume "@ + previous@ + " -- starting a fresh session"@,
                )),
            ],
        ),
{
    let mut msg = String::new();
    crate::text::push_str(&mut msg, "could not resume ");
    crate::text::push_str(&mut msg, previous);
    crate::text::push_str(&mut msg, " -- starting a fresh session");
    AcpEvent { kind: "error".to_owned(), data: crate::json::obj1("message", Json::Str(msg)) }
}

/// The error event raised when the agent's output ends: the agent is gone, and every
/// request still waiting for it fails.
pub fn agent_gone_event() -> (r: AcpEvent)
    ensures
        r.kind@ == "error"@,
        r.data@ == JsonView::Object(seq![("message"@, jstr("the agent process exited"@))]),
{
    AcpEvent {
        kind: "error".to_owned(),
        data: crate::json::obj1("message", Json::from_str("the agent process exited")),
    }
}

pub open spec fn str_or_null_spec(s: Option<Seq<char>>) -> JsonView {
    match s {
        Some(x) => jstr(x),
        None => JsonView::Null,
    }
}

/// The `ready` event's data.
pub open spec fn ready_spec(session_id: Seq<char>, model: Option<Seq<char>>, resumed: bool) -> JsonView {
    JsonView::Object(
        seq![
            ("sessionId"@, jstr(session_id)),
            ("model"@, str_or_null_spec(model)),
            ("resumed"@, JsonView::Bool(resumed)),
        ],
    )
}

/// The `ready` event once the handshake is done.
pub fn ready_event(session_id: &str, model: Option<&str>, resumed: bool) -> (r: AcpEvent)
    ensures
        r.kind@ == "ready"@,
        r.data@ == ready_spec(session_id@, crate::recordings::opt_view(model), resumed),
{
    let b = Json::Bool(resumed);
    assert(b@ == JsonView::Bool(resumed));
    let data = crate::json::obj3(
        "sessionId",
        Json::from_str(session_id),
        "model",
        crate::json::str_or_null(model),
        "resumed",
        b,
    );
    let ghost mv = match model {
        Some(m) => jstr(m@),
        None => JsonView::Null,
    };
    assert(data@ == JsonView::Object(
        seq![("sessionId"@, jstr(session_id@)), ("model"@, mv), ("resumed"@, JsonView::Bool(resumed))],
    ));
    let ghost dv = data@;
    let ev = AcpEvent { kind: "ready".to_owned(), data };
    assert(ev.data@ == dv);
    ev
}

/// The `turn-end` payload for a prompt's response, or for a dropped turn.
pub open spec fn or_null(v: Option<JsonView>) -> JsonView {
    match v {
        Some(x) => x,
        None => JsonView::Null,
    }
}

pub open spec fn json_opt_view(v: Option<&Json>) -> Option<JsonView> {
    match v {
        Some(m) => Some(m@),
        None => None,
    }
}

pub open spec fn turn_end_spec(reply: Option<JsonView>) -> JsonView {
    match reply {
        Some(msg) => match obj_get(msg, "error"@) {
            Some(e) => JsonView::Object(seq![("ok"@, JsonView::Bool(false)), ("error"@, e)]),
            None => JsonView::Object(
                seq![("ok"@, JsonView::Bool(true)), ("result"@, or_null(obj_get(msg, "result"@)))],
            ),
        },
        None => JsonView::Object(
            seq![("ok"@, JsonView::Bool(false)), ("error"@, jstr("turn dropped"@))],
        ),
    }
}

pub fn turn_end_event(reply: Option<&Json>) -> (r: AcpEvent)
    ensures
        r.kind@ == "turn-end"@,
        r.data@ == turn_end_spec(json_opt_view(reply)),
{
    let f = Json::Bool(false);
    assert(f@ == JsonView::Bool(false));
    let t = Json::Bool(true);
    assert(t@ == JsonView::Bool(true));
    let data = match reply {
        Some(msg) => match msg.get("error") {
            Some(e) => crate::json::obj2("ok", f, "error", e.copy()),
            None => crate::json::obj2(
                "ok",
                t,
                "result",
                match msg.get("result") {
                    Some(r) => r.copy(),
                    None => Json::Null,
                },
            ),
        },
        None => crate::json::obj2("ok", f, "error", Json::from_str("turn dropped")),
    };
    assert(data@ == turn_end_spec(json_opt_view(reply)));
    AcpEvent { kind: "turn-end".to_owned(), data }
}

/// A prompt goes only to the live session: refused without one, or for another id.
pub fn check_prompt_session(active: Option<&str>, session_id: &str) -> (r: Result<(), String>)
    ensures
        match active {
            None => r matches Err(e) && e@ == "no active ACP session"@,
            Some(a) => if a@ == session_id@ {
                r is Ok
            } else {
                r matches Err(e) && e@ == "session id mismatch"@
            },
        },
{
    match active {
        None => Err("no active ACP session".to_owned()),
        Some(a) => if str_eq(a, session_id) {
            Ok(())
        } else {
            Err("session id mismatch".to_owned())
        },
    }
}

/// The text of one ndjson line worth parsing: trimmed, `None` when blank.
pub fn line_payload(line: &str) -> (r: Option<String>)
    ensures
        if trim_spec(line@).len() == 0 {
            r is None
        } else {
            r matches Some(t) && t@ == trim_spec(line@)
        },
{
    let t = trim(line);
    if t.as_str().is_empty() {
        None
    } else {
        Some(t)
    }
}

/// What the reader does with one incoming message.
pub enum Route {
    /// Hand a response to whoever waits on its id.
    Deliver(u64, Json),
    /// Write this reply to the agent, after raising the event when there is one.
    Answer(Json, Option<AcpEvent>),
    /// Raise this UI event.
    Emit(AcpEvent),
    /// Nothing to do.
    Skip,
}

pub enum RouteView {
    Deliver(u64, JsonView),
    Answer(JsonView, Option<(Seq<char>, JsonView)>),
    Emit((Seq<char>, JsonView)),
    Skip,
}

pub open spec fn event_view(e: AcpEvent) -> (Seq<char>, JsonView) {
    (e.kind@, e.data@)
}

impl View for Route {
    type V = RouteView;

    open spec fn view(&self) -> RouteView {
        match self {
            Route::Deliver(id, v) => RouteView::Deliver(*id, v@),
            Route::Answer(reply, ev) => RouteView::Answer(
                reply@,
                match ev {
                    Some(e) => Some(event_view(*e)),
                    None => None,
                },
            ),
            Route::Emit(e) => RouteView::Emit(event_view(*e)),
            Route::Skip => RouteView::Skip,
        }
    }
}

/// The reader's decision: responses go to their waiter; agent requests are answered
/// at once (a permission request is auto-allowed, and raised to the UI); a
/// `session/update` notification is raised to the UI; anything else is skipped.
pub open spec fn route_spec(msg: IncomingView, rendered: Option<Seq<char>>) -> RouteView {
    match msg {
        IncomingView::Response(id, v) => RouteView::Deliver(id, v),
        IncomingView::AgentRequest(rid, method, params) => RouteView::Answer(
            reply_spec(rid, method, params, rendered),
            permission_event_spec(method, params),
        ),
        IncomingView::Notification(method, params) => match update_event_spec(method, params) {
            Some(e) => RouteView::Emit(e),
            None => RouteView::Skip,
        },
        IncomingView::Ignore => RouteView::Skip,
    }
}

/// What to do with one classified message.
pub fn route(msg: Incoming, rendered: Option<&str>) -> (r: Route)
    ensures
        r@ == route_spec(msg@, opt_str_view(rendered)),
{
    match msg {
        Incoming::Response(id, v) => Route::Deliver(id, v),
        Incoming::AgentRequest(rid, method, params) => {
            let reply = agent_reply(rid, method.as_str(), &params, rendered);
            let ev = permission_event(method.as_str(), &params);
            let r = Route::Answer(reply, ev);
            assert(r@ == route_spec(IncomingView::AgentRequest(rid, method@, params@), opt_str_view(rendered)));
            r
        },
        Incoming::Notification(method, params) => {
            let ghost pv = params@;
            match update_event(method.as_str(), params) {
                Some(e) => {
                    let r = Route::Emit(e);
                    assert(r@ == route_spec(IncomingView::Notification(method@, pv), opt_str_view(rendered)));
                    r
                },
                None => Route::Skip,
            }
        },
        Incoming::Ignore => Route::Skip,
    }
}


/// Every request from the agent is answered, under its own id, so a turn can never
/// hang on an unanswered request.
pub proof fn law_agent_requests_are_answered(msg: JsonView, rendered: Option<Seq<char>>)
    ensures
        classify_spec(msg) matches IncomingView::AgentRequest(rid, m, p) ==> route_spec(classify_spec(msg), rendered)
            matches RouteView::Answer(reply, _) && obj_get(reply, "id"@) == Some(juint(rid)),
{
    reveal_strlit("jsonrpc");
    reveal_strlit("id");
    if let IncomingView::AgentRequest(rid, m, p) = classify_spec(msg) {
        let reply = reply_spec(rid, m, p, rendered);
        let ms = reply->Object_0;
        assert(ms[0].0 == "jsonrpc"@);
        assert(ms[0].0[0] != "id"@[0]);
        assert(ms.drop_first()[0] == ms[1]);
        assert(ms[1].0 == "id"@);
        assert(member_lookup(ms.drop_first(), "id"@) == Some(juint(rid)));
        assert(obj_get(reply, "id"@) == Some(juint(rid)));
    }
}

// ------------------------------------------------------------ the handshake

/// Where the opening handshake stands: which call's outcome comes next.
#[derive(PartialEq, Eq, Structural, Debug, Clone, Copy)]
pub enum HandshakeStage {
    /// `initialize` was sent.
    Initialize,
    /// `session/load` of the previous session was sent.
    Load,
    /// `session/new` was sent.
    New,
}

/// What the connection does next in its handshake.
pub enum HandshakeStep {
    /// Call this method with these params, and hand its outcome to `handshake_next`.
    Call(String, Json),
    /// Raise this event, then call this method with these params.
    Announce(AcpEvent, String, Json),
    /// The session is open: its id, the current model, and whether it was resumed.
    Ready(String, Option<String>, bool),
    /// The handshake failed with this error.
    Fail(String),
}

pub enum HandshakeStepView {
    Call(Seq<char>, JsonView),
    Announce((Seq<char>, JsonView), Seq<char>, JsonView),
    Ready(Seq<char>, Option<Seq<char>>, bool),
    Fail(Seq<char>),
}

impl View for HandshakeStep {
    type V = HandshakeStepView;

    open spec fn view(&self) -> HandshakeStepView {
        match self {
            HandshakeStep::Call(m, p) => HandshakeStepView::Call(m@, p@),
            HandshakeStep::Announce(e, m, p) => HandshakeStepView::Announce(event_view(*e), m@, p@),
            HandshakeStep::Ready(s, m, r) => HandshakeStepView::Ready(s@, opt_string_view(*m), *r),
            HandshakeStep::Fail(e) => HandshakeStepView::Fail(e@),
        }
    }
}

/// The first step: `initialize`.
pub open spec fn handshake_start_spec() -> (HandshakeStage, HandshakeStepView) {
    (HandshakeStage::Initialize, HandshakeStepView::Call("initialize"@, initialize_params_spec()))
}

/// The session a result opens: ready with its `sessionId` and model, or failed when
/// it carries no `sessionId`.
pub open spec fn open_session_spec(result: JsonView, resumed: bool) -> HandshakeStepView {
    let (sid, model) = parse_session_new_spec(result);
    match sid {
        Some(id) => HandshakeStepView::Ready(id, model, resumed),
        None => HandshakeStepView::Fail("session/new returned no sessionId"@),
    }
}

/// The error event when a previous session could not be resumed.
pub open spec fn resume_failed_spec(previous: Seq<char>) -> (Seq<char>, JsonView) {
    (
        "error"@,
        JsonView::Object(
            seq![
                ("message"@, jstr(
                    "could not resume "@ + previous + " -- starting a fresh session"@,
                )),
            ],
        ),
    )
}

/// The handshake's decision on the outcome of the call it made: after `initialize`,
/// load the previous session when there is one, else open a new one; a load whose
/// result carries a `sessionId` resumes, any other load outcome raises the
/// resume-failed event and opens a new session; a new session's result opens it. A
/// failed `initialize` or `session/new` fails the handshake with its error.
pub open spec fn handshake_next_spec(
    stage: HandshakeStage,
    cwd: Seq<char>,
    previous: Option<Seq<char>>,
    outcome: Result<JsonView, Seq<char>>,
) -> (HandshakeStage, HandshakeStepView) {
    match stage {
        HandshakeStage::Initialize => match outcome {
            Err(e) => (HandshakeStage::Initialize, HandshakeStepView::Fail(e)),
            Ok(_) => match previous {
                Some(p) => (
                    HandshakeStage::Load,
                    HandshakeStepView::Call("session/load"@, load_params_spec(cwd, p)),
                ),
                None => (HandshakeStage::New, HandshakeStepView::Call("session/new"@, new_params_spec(cwd))),
            },
        },
        HandshakeStage::Load => match outcome {
            Ok(v) if resumed_spec(Some(v)) => (HandshakeStage::Load, open_session_spec(v, true)),
            _ => (
                HandshakeStage::New,
                match previous {
                    Some(p) => HandshakeStepView::Announce(
                        resume_failed_spec(p),
                        "session/new"@,
                        new_params_spec(cwd),
                    ),
                    None => HandshakeStepView::Call("session/new"@, new_params_spec(cwd)),
                },
            ),
        },
        HandshakeStage::New => match outcome {
            Err(e) => (HandshakeStage::New, HandshakeStepView::Fail(e)),
            Ok(v) => (HandshakeStage::New, open_session_spec(v, false)),
        },
    }
}

/// The handshake's first step.
pub fn handshake_start() -> (r: (HandshakeStage, HandshakeStep))
    ensures
        (r.0, r.1@) == handshake_start_spec(),
{
    (HandshakeStage::Initialize, HandshakeStep::Call("initialize".to_owned(), initialize_params()))
}

fn open_session(result: &Json, resumed: bool) -> (r: HandshakeStep)
    ensures
        r@ == open_session_spec(result@, resumed),
{
    let (sid, model) = parse_session_new(result);
    match sid {
        Some(id) => HandshakeStep::Ready(id, model, resumed),
        None => HandshakeStep::Fail("session/new returned no sessionId".to_owned()),
    }
}

/// The handshake's next step, from where it stands and the outcome of its last call
/// (the result, or the error text of a failed or timed-out call).
pub fn handshake_next(stage: HandshakeStage, cwd: &str, previous: Option<&str>, outcome: Result<Json, String>) -> (r: (
    HandshakeStage,
    HandshakeStep,
))
    ensures
        (r.0, r.1@) == handshake_next_spec(
            stage,
            cwd@,
            opt_str_view(previous),
            match outcome {
                Ok(v) => Ok(v@),
                Err(e) => Err(e@),
            },
        ),
{
    match stage {
        HandshakeStage::Initialize => match outcome {
            Err(e) => (HandshakeStage::Initialize, HandshakeStep::Fail(e)),
            Ok(_) => match previous {
                Some(p) => (HandshakeStage::Load, HandshakeStep::Call("session/load".to_owned(), load_params(cwd, p))),
                None => (HandshakeStage::New, HandshakeStep::Call("session/new".to_owned(), new_params(cwd))),
            },
        },
        HandshakeStage::Load => {
            let loaded = match outcome {
                Ok(v) => Some(v),
                Err(_) => None,
            };
            if load_resumed(&loaded) {
                match loaded {
                    Some(v) => (HandshakeStage::Load, open_session(&v, true)),
                    None => (HandshakeStage::Load, HandshakeStep::Fail("session/new returned no sessionId".to_owned())),
                }
            } else {
                match previous {
                    Some(p) => (
                        HandshakeStage::New,
                        HandshakeStep::Announce(resume_failed_event(p), "session/new".to_owned(), new_params(cwd)),
                    ),
                    None => (HandshakeStage::New, HandshakeStep::Call("session/new".to_owned(), new_params(cwd))),
                }
            }
        },
        HandshakeStage::New => match outcome {
            Err(e) => (HandshakeStage::New, HandshakeStep::Fail(e)),
            Ok(v) => (HandshakeStage::New, open_session(&v, false)),
        },
    }
}

/// The handshake always ends: a new session's outcome never asks for another call.
pub proof fn law_handshake_ends_after_session_new(
    cwd: Seq<char>,
    previous: Option<Seq<char>>,
    outcome: Result<JsonView, Seq<char>>,
)
    ensures
        handshake_next_spec(HandshakeStage::New, cwd, previous, outcome).1 matches HandshakeStepView::Ready(
            _,
            _,
            false,
        ) || handshake_next_spec(HandshakeStage::New, cwd, previous, outcome).1 is Fail,
{
}

/// A load that fails, or that does not resume, never fails the handshake: it falls
/// back to opening a new session, and raises the resume-failed event for the previous
/// session when there is one.
pub proof fn law_a_failed_load_falls_back(
    cwd: Seq<char>,
    previous: Option<Seq<char>>,
    outcome: Result<JsonView, Seq<char>>,
)
    requires
        !(outcome matches Ok(v) && resumed_spec(Some(v))),
    ensures
        ({
            let (stage, step) = handshake_next_spec(HandshakeStage::Load, cwd, previous, outcome);
            &&& stage == HandshakeStage::New
            &&& match previous {
                Some(p) => step == HandshakeStepView::Announce(
                    resume_failed_spec(p),
                    "session/new"@,
                    new_params_spec(cwd),
                ),
                None => step == HandshakeStepView::Call("session/new"@, new_params_spec(cwd)),
            }
        }),
{
}

/// A reply to one of our requests is delivered to its waiter, whether it carries a
/// `result` or an `error`: any object whose `id` is an unsigned integer and that
/// has either member is a response under that id, carrying the whole message.
pub proof fn law_replies_reach_their_waiter(msg: JsonView, id: u64)
    requires
        obj_get(msg, "id"@) == Some(JsonView::Number(NumberView::PosInt(id))),
        obj_get(msg, "result"@) is Some || obj_get(msg, "error"@) is Some,
    ensures
        classify_spec(msg) == IncomingView::Response(id, msg),
        route_spec(classify_spec(msg), None) == RouteView::Deliver(id, msg),
{
}

/// A message with an unsigned integer `id`, a string `method` and neither `result`
/// nor `error` is a request from the agent, carrying its `params` (`null` when absent).
pub proof fn law_agent_requests_are_recognised(msg: JsonView, id: u64, m: Seq<char>)
    requires
        obj_get(msg, "id"@) == Some(JsonView::Number(NumberView::PosInt(id))),
        obj_get(msg, "result"@) is None,
        obj_get(msg, "error"@) is None,
        obj_get(msg, "method"@) == Some(JsonView::Str(m)),
    ensures
        classify_spec(msg) == IncomingView::AgentRequest(
            id,
            m,
            match obj_get(msg, "params"@) {
                Some(p) => p,
                None => JsonView::Null,
            },
        ),
{
}

/// A string `method` without an unsigned integer `id` is a notification, carrying its
/// `params` (`null` when absent); a message with neither is ignored.
pub proof fn law_notifications_are_recognised(msg: JsonView, m: Option<Seq<char>>)
    requires
        !(obj_get(msg, "id"@) matches Some(JsonView::Number(NumberView::PosInt(_)))),
        m is Some ==> obj_get(msg, "method"@) == Some(JsonView::Str(m->0)),
        m is None ==> !(obj_get(msg, "method"@) matches Some(JsonView::Str(_))),
    ensures
        m is Some ==> classify_spec(msg) == IncomingView::Notification(
            m->0,
            match obj_get(msg, "params"@) {
                Some(p) => p,
                None => JsonView::Null,
            },
        ),
        m is None ==> classify_spec(msg) == IncomingView::Ignore,
{
}

} // verus!
