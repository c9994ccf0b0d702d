//! The responses request as the data plane shapes it for a provider: the Codex upstream gets
//! its own defaults (no storage, encrypted reasoning included, no unsupported fields), plain
//! text input lifted into a user message, system messages as developer messages, and the
//! current names of builtin tools. Other providers get the request as it came, with the plan's
//! model.
use vstd::prelude::*;
use crate::json::{
    lemma_drop_member_absent, lemma_drop_member_keeps_absent, lemma_drop_member_keeps_other,
    lemma_set_member_keeps_absent,
};
use crate::json::{
    as_str, drop_member, get, has_member, jvs, lemma_jv_array, lemma_jv_object, lemma_jvs_len,
    lemma_jvs_push, lemma_members_len, member_index, members, remove_member, set_member,
    set_member_exec, Json, JsonV,
};
use crate::json::{parse_json, spec_json_parse};
use crate::sse::{done_marker, spec_data_payload, sse_data_payload};
use crate::text::{blank, chars_eq, chars_of, is_blank, trim, trim_str};
use crate::types::{ExecutionPlan, ProviderKind};

verus! {

/// The downstream `/v1/responses` request.
#[derive(Debug)]
pub struct ResponsesRequest {
    pub model: String,
    pub stream: bool,
    pub input: Option<Json>,
    pub instructions: Option<String>,
    pub metadata: Option<Json>,
    pub store: Option<bool>,
    /// Every other field, by name.
    pub extra: Vec<(String, Json)>,
}

/// The request as values.
pub struct RequestV {
    pub model: Seq<char>,
    pub stream: bool,
    pub input: Option<JsonV>,
    pub instructions: Option<Seq<char>>,
    pub metadata: Option<JsonV>,
    pub store: Option<bool>,
    pub extra: Seq<(Seq<char>, JsonV)>,
}

pub open spec fn opt_jv(o: Option<Json>) -> Option<JsonV> {
    match o {
        Some(j) => Some(j.jv()),
        None => None,
    }
}

pub open spec fn opt_text(o: Option<String>) -> Option<Seq<char>> {
    match o {
        Some(s) => Some(s@),
        None => None,
    }
}

pub open spec fn request_view(r: ResponsesRequest) -> RequestV {
    RequestV {
        model: r.model@,
        stream: r.stream,
        input: opt_jv(r.input),
        instructions: opt_text(r.instructions),
        metadata: opt_jv(r.metadata),
        store: r.store,
        extra: members(r.extra@),
    }
}

pub open spec fn jstr(s: Seq<char>) -> JsonV {
    JsonV::Str(s)
}

/// The current name of a builtin tool type.
pub open spec fn spec_builtin_tool_type(t: Seq<char>) -> Seq<char> {
    if t == "web_search_preview"@ || t == "web_search_preview_2025_03_11"@ {
        "web_search"@
    } else {
        t
    }
}

/// A tool object with its type renamed to the current name.
pub open spec fn spec_tool_value(v: JsonV) -> JsonV {
    match v {
        JsonV::Object(m) => match as_str(get(v, "type"@)) {
            Some(raw) => if spec_builtin_tool_type(raw) == raw {
                v
            } else {
                JsonV::Object(set_member(m, "type"@, jstr(spec_builtin_tool_type(raw))))
            },
            None => v,
        },
        _ => v,
    }
}

/// A tool choice, renamed, with the tools it lists renamed.
pub open spec fn spec_tool_choice(v: JsonV) -> JsonV {
    let w = spec_tool_value(v);
    match w {
        JsonV::Object(m) => match get(w, "tools"@) {
            Some(JsonV::Array(ts)) => JsonV::Object(
                set_member(m, "tools"@, JsonV::Array(ts.map_values(|t: JsonV| spec_tool_value(t)))),
            ),
            _ => w,
        },
        _ => w,
    }
}

/// A message with the system role, as a developer message.
pub open spec fn spec_input_role(item: JsonV) -> JsonV {
    match item {
        JsonV::Object(m) => match as_str(get(item, "role"@)) {
            Some(r) if trim(r) == "system"@ => JsonV::Object(set_member(m, "role"@, jstr("developer"@))),
            _ => item,
        },
        _ => item,
    }
}

/// Plain text input lifted into a user message (a role and its content); every other input as
/// it is.
pub open spec fn spec_lift_input(input: Option<JsonV>) -> Option<JsonV> {
    match input {
        Some(JsonV::Str(text)) => Some(
            JsonV::Array(
                seq![
                    JsonV::Object(
                        seq![
                            (
                                "content"@,
                                JsonV::Array(
                                    seq![
                                        JsonV::Object(
                                            seq![("text"@, jstr(text)), ("type"@, jstr("input_text"@))],
                                        ),
                                    ],
                                ),
                            ),
                            ("role"@, jstr("user"@)),
                        ],
                    ),
                ],
            ),
        ),
        _ => input,
    }
}

pub open spec fn spec_input_roles(input: Option<JsonV>) -> Option<JsonV> {
    match input {
        Some(JsonV::Array(items)) => Some(JsonV::Array(items.map_values(|i: JsonV| spec_input_role(i)))),
        _ => input,
    }
}

/// The fields the Codex upstream refuses, with `service_tier` kept only when it is `priority`.
pub open spec fn spec_strip_unsupported(extra: Seq<(Seq<char>, JsonV)>) -> Seq<(Seq<char>, JsonV)> {
    let e = drop_member(
        drop_member(
            drop_member(
                drop_member(
                    drop_member(
                        drop_member(drop_member(extra, "max_output_tokens"@), "max_completion_tokens"@),
                        "temperature"@,
                    ),
                    "top_p"@,
                ),
                "truncation"@,
            ),
            "context_management"@,
        ),
        "user"@,
    );
    match as_str(get(JsonV::Object(e), "service_tier"@)) {
        Some(t) if trim(t) == "priority"@ => e,
        _ => drop_member(e, "service_tier"@),
    }
}

/// Builtin tool names brought up to date in `tools` and `tool_choice`.
pub open spec fn spec_builtin_tools(extra: Seq<(Seq<char>, JsonV)>) -> Seq<(Seq<char>, JsonV)> {
    let e = match get(JsonV::Object(extra), "tools"@) {
        Some(JsonV::Array(ts)) => set_member(
            extra,
            "tools"@,
            JsonV::Array(ts.map_values(|t: JsonV| spec_tool_value(t))),
        ),
        _ => extra,
    };
    match get(JsonV::Object(e), "tool_choice"@) {
        Some(c) => set_member(e, "tool_choice"@, spec_tool_choice(c)),
        None => e,
    }
}

/// Parallel tool calls on exactly when there are tools.
pub open spec fn spec_parallel_tool_calls(extra: Seq<(Seq<char>, JsonV)>) -> Seq<(Seq<char>, JsonV)> {
    match get(JsonV::Object(extra), "tools"@) {
        Some(JsonV::Array(ts)) if ts.len() > 0 => set_member(
            extra,
            "parallel_tool_calls"@,
            JsonV::Bool(true),
        ),
        _ => drop_member(extra, "parallel_tool_calls"@),
    }
}

/// The instructions a Codex request gets when it brings none.
pub const DEFAULT_CODEX_INSTRUCTIONS: &'static str = "You are Codex. Fulfill the user's request.";

/// The request sent upstream for a plan.
pub open spec fn spec_emit(r: RequestV, plan: ExecutionPlan) -> RequestV {
    if plan.provider != ProviderKind::Codex {
        RequestV { model: plan.model@, ..r }
    } else {
        let extra = spec_parallel_tool_calls(
            spec_builtin_tools(
                spec_strip_unsupported(
                    set_member(
                        r.extra,
                        "include"@,
                        JsonV::Array(seq![jstr("reasoning.encrypted_content"@)]),
                    ),
                ),
            ),
        );
        RequestV {
            model: plan.model@,
            stream: r.stream,
            input: spec_input_roles(spec_lift_input(r.input)),
            instructions: match r.instructions {
                Some(i) if !blank(i) => Some(i),
                _ => Some(DEFAULT_CODEX_INSTRUCTIONS@),
            },
            metadata: None,
            store: Some(false),
            extra,
        }
    }
}

fn text_eq(s: &str, literal: &str) -> (r: bool)
    ensures
        r == (s@ == literal@),
{
    let a = chars_of(s);
    let b = chars_of(literal);
    chars_eq(a.as_slice(), b.as_slice())
}

fn normalize_codex_builtin_tool_type(t: &str) -> (r: String)
    ensures
        r@ == spec_builtin_tool_type(t@),
{
    if text_eq(t, "web_search_preview") || text_eq(t, "web_search_preview_2025_03_11") {
        String::from_str("web_search")
    } else {
        String::from_str(t)
    }
}

/// The type of a tool object renamed to its current name.
pub fn normalize_codex_builtin_tool_value(value: Json) -> (r: Json)
    ensures
        r.jv() == spec_tool_value(value.jv()),
{
    let renamed = match value.get("type") {
        Some(t) => match t.as_str() {
            Some(raw) => {
                let n = normalize_codex_builtin_tool_type(raw);
                if text_eq(n.as_str(), raw) {
                    None
                } else {
                    Some(n)
                }
            },
            None => None,
        },
        None => None,
    };
    match renamed {
        Some(n) => match value {
            Json::Object(mut m) => {
                proof {
                    lemma_jv_object(m);
                }
                set_member_exec(&mut m, String::from_str("type"), Json::Str(n));
                proof {
                    lemma_jv_object(m);
                }
                Json::Object(m)
            },
            other => other,
        },
        None => value,
    }
}

/// Every element renamed with `normalize_codex_builtin_tool_value`.
fn normalize_tool_list(items: Vec<Json>) -> (r: Vec<Json>)
    ensures
        jvs(r@) == jvs(items@).map_values(|t: JsonV| spec_tool_value(t)),
{
    let ghost orig = items@;
    let mut rest = items;
    let mut out: Vec<Json> = Vec::new();
    let n = rest.len();
    let mut i: usize = 0;
    proof {
        lemma_jvs_len(orig);
    }
    while rest.len() > 0
        invariant
            i + rest@.len() == n,
            n == orig.len(),
            rest@ == orig.subrange(i as int, n as int),
            jvs(orig).len() == orig.len(),
            forall|k: int| 0 <= k < orig.len() ==> #[trigger] jvs(orig)[k] == orig[k].jv(),
            jvs(out@) == jvs(orig).map_values(|t: JsonV| spec_tool_value(t)).take(i as int),
        decreases rest@.len(),
    {
        let x = rest.remove(0);
        assert(x == orig[i as int]);
        let y = normalize_codex_builtin_tool_value(x);
        let ghost before = out@;
        proof {
            lemma_jvs_push(before, y);
        }
        out.push(y);
        assert(jvs(out@) =~= jvs(orig).map_values(|t: JsonV| spec_tool_value(t)).take(i + 1));
        assert(rest@ =~= orig.subrange(i + 1, n as int));
        i = i + 1;
    }
    assert(jvs(orig).map_values(|t: JsonV| spec_tool_value(t)).take(i as int) =~= jvs(
        orig,
    ).map_values(|t: JsonV| spec_tool_value(t)));
    out
}

/// A tool choice renamed, with the tools it lists renamed.
pub fn normalize_codex_builtin_tool_choice(choice: Json) -> (r: Json)
    ensures
        r.jv() == spec_tool_choice(choice.jv()),
{
    let w = normalize_codex_builtin_tool_value(choice);
    let tools = match w.get("tools") {
        Some(t) => Some(t.deep_clone()),
        None => None,
    };
    match w {
        Json::Object(mut m) => {
            proof {
                lemma_jv_object(m);
            }
            if let Some(Json::Array(ts)) = tools {
                proof {
                    lemma_jv_array(ts);
                }
                let n = normalize_tool_list(ts);
                proof {
                    lemma_jv_array(n);
                }
                set_member_exec(&mut m, String::from_str("tools"), Json::Array(n));
            }
            proof {
                lemma_jv_object(m);
            }
            Json::Object(m)
        },
        other => other,
    }
}

/// The value of `key` among the members, copied.
fn member_copy(m: &Vec<(String, Json)>, key: &str) -> (r: Option<Json>)
    ensures
        match r {
            Some(x) => get(JsonV::Object(members(m@)), key@) == Some(x.jv()),
            None => get(JsonV::Object(members(m@)), key@) is None,
        },
{
    proof {
        lemma_members_len(m@);
    }
    match member_index(m, key) {
        Some(i) => Some(m[i].1.deep_clone()),
        None => None,
    }
}

/// Drops the fields the Codex upstream refuses; `service_tier` stays only when it is
/// `priority`.
pub fn strip_codex_unsupported_fields(extra: &mut Vec<(String, Json)>)
    ensures
        members(final(extra)@) == spec_strip_unsupported(members(old(extra)@)),
{
    remove_member(extra, "max_output_tokens");
    remove_member(extra, "max_completion_tokens");
    remove_member(extra, "temperature");
    remove_member(extra, "top_p");
    remove_member(extra, "truncation");
    remove_member(extra, "context_management");
    remove_member(extra, "user");
    let keep = match member_copy(extra, "service_tier") {
        Some(v) => match v.as_str() {
            Some(t) => {
                let tt = trim_str(t);
                text_eq(tt.as_str(), "priority")
            },
            None => false,
        },
        None => false,
    };
    if !keep {
        remove_member(extra, "service_tier");
    }
}

/// Builtin tool names brought up to date in `tools` and `tool_choice`.
pub fn normalize_codex_builtin_tools(extra: &mut Vec<(String, Json)>)
    ensures
        members(final(extra)@) == spec_builtin_tools(members(old(extra)@)),
{
    if let Some(Json::Array(ts)) = member_copy(extra, "tools") {
        proof {
            lemma_jv_array(ts);
        }
        let n = normalize_tool_list(ts);
        proof {
            lemma_jv_array(n);
        }
        set_member_exec(extra, String::from_str("tools"), Json::Array(n));
    }
    if let Some(c) = member_copy(extra, "tool_choice") {
        let n = normalize_codex_builtin_tool_choice(c);
        set_member_exec(extra, String::from_str("tool_choice"), n);
    }
}

/// Parallel tool calls switched on exactly when there are tools.
pub fn normalize_codex_parallel_tool_calls_for_tools(extra: &mut Vec<(String, Json)>)
    ensures
        members(final(extra)@) == spec_parallel_tool_calls(members(old(extra)@)),
{
    let has_tools = match member_copy(extra, "tools") {
        Some(Json::Array(ts)) => {
            proof {
                lemma_jv_array(ts);
                lemma_jvs_len(ts@);
            }
            ts.len() > 0
        },
        _ => false,
    };
    if has_tools {
        set_member_exec(extra, String::from_str("parallel_tool_calls"), Json::Bool(true));
        return ;
    }
    remove_member(extra, "parallel_tool_calls");
}

/// A system message as a developer message.
fn normalize_input_role(item: Json) -> (r: Json)
    ensures
        r.jv() == spec_input_role(item.jv()),
{
    let system = match item.get("role") {
        Some(v) => match v.as_str() {
            Some(role) => {
                let t = trim_str(role);
                text_eq(t.as_str(), "system")
            },
            None => false,
        },
        None => false,
    };
    if !system {
        return item;
    }
    match item {
        Json::Object(mut m) => {
            proof {
                lemma_jv_object(m);
            }
            set_member_exec(&mut m, String::from_str("role"), Json::Str(String::from_str("developer")));
            proof {
                lemma_jv_object(m);
            }
            Json::Object(m)
        },
        other => other,
    }
}

/// The system messages of an input array as developer messages.
pub fn normalize_codex_input_roles(input: Option<Json>) -> (r: Option<Json>)
    ensures
        opt_jv(r) == spec_input_roles(opt_jv(input)),
{
    match input {
        Some(Json::Array(items)) => {
            proof {
                lemma_jv_array(items);
            }
            let ghost orig = items@;
            let mut rest = items;
            let mut out: Vec<Json> = Vec::new();
            let n = rest.len();
            let mut i: usize = 0;
            proof {
                lemma_jvs_len(orig);
            }
            while rest.len() > 0
                invariant
                    i + rest@.len() == n,
                    n == orig.len(),
                    rest@ == orig.subrange(i as int, n as int),
                    jvs(orig).len() == orig.len(),
                    forall|k: int| 0 <= k < orig.len() ==> #[trigger] jvs(orig)[k] == orig[k].jv(),
                    jvs(out@) == jvs(orig).map_values(|t: JsonV| spec_input_role(t)).take(i as int),
                decreases rest@.len(),
            {
                let x = rest.remove(0);
                assert(x == orig[i as int]);
                let y = normalize_input_role(x);
                let ghost before = out@;
                proof {
                    lemma_jvs_push(before, y);
                }
                out.push(y);
                assert(jvs(out@) =~= jvs(orig).map_values(|t: JsonV| spec_input_role(t)).take(
                    i + 1,
                ));
                assert(rest@ =~= orig.subrange(i + 1, n as int));
                i = i + 1;
            }
            assert(jvs(orig).map_values(|t: JsonV| spec_input_role(t)).take(i as int) =~= jvs(
                orig,
            ).map_values(|t: JsonV| spec_input_role(t)));
            proof {
                lemma_jv_array(out);
            }
            Some(Json::Array(out))
        },
        other => other,
    }
}

fn lift_text_input(input: Option<Json>) -> (r: Option<Json>)
    ensures
        opt_jv(r) == spec_lift_input(opt_jv(input)),
{
    match input {
        Some(Json::Str(text)) => {
            let ghost tv = text@;
            let mut part: Vec<(String, Json)> = Vec::new();
            part.push((String::from_str("text"), Json::Str(text)));
            part.push((String::from_str("type"), Json::Str(String::from_str("input_text"))));
            let mut content: Vec<Json> = Vec::new();
            content.push(Json::Object(part));
            let mut message: Vec<(String, Json)> = Vec::new();
            message.push((String::from_str("content"), Json::Array(content)));
            message.push((String::from_str("role"), Json::Str(String::from_str("user"))));
            let mut items: Vec<Json> = Vec::new();
            items.push(Json::Object(message));
            let r = Json::Array(items);
            proof {
                reveal_with_fuel(members, 3);
                reveal_with_fuel(jvs, 2);
                assert(part@.subrange(0, 1) =~= seq![part@[0]]);
                assert(message@.subrange(0, 1) =~= seq![message@[0]]);
                assert(members(part@) =~= seq![("text"@, jstr(tv)), ("type"@, jstr("input_text"@))]);
                assert(jvs(content@) =~= seq![Json::Object(part).jv()]);
                assert(members(message@) =~= seq![
                    ("content"@, Json::Array(content).jv()),
                    ("role"@, jstr("user"@)),
                ]);
                assert(jvs(items@) =~= seq![Json::Object(message).jv()]);
            }
            Some(r)
        },
        other => other,
    }
}

/// The request fields the Codex upstream refuses.
pub open spec fn codex_unsupported_field(k: Seq<char>) -> bool {
    ||| k == "max_output_tokens"@
    ||| k == "max_completion_tokens"@
    ||| k == "temperature"@
    ||| k == "top_p"@
    ||| k == "truncation"@
    ||| k == "context_management"@
    ||| k == "user"@
}

proof fn lemma_unsupported_is_not_set(k: Seq<char>)
    requires
        codex_unsupported_field(k),
    ensures
        k != "tools"@,
        k != "tool_choice"@,
        k != "parallel_tool_calls"@,
        k != "service_tier"@,
{
    reveal_strlit("tools");
    reveal_strlit("tool_choice");
    reveal_strlit("parallel_tool_calls");
    reveal_strlit("service_tier");
    reveal_strlit("max_output_tokens");
    reveal_strlit("max_completion_tokens");
    reveal_strlit("temperature");
    reveal_strlit("top_p");
    reveal_strlit("truncation");
    reveal_strlit("context_management");
    reveal_strlit("user");
    assert("tools"@.len() == 5 && "tool_choice"@.len() == 11 && "parallel_tool_calls"@.len() == 19
        && "service_tier"@.len() == 12);
    if k == "top_p"@ {
        assert(k[1] == 'o' && "tools"@[1] == 'o' && k[2] == 'p' && "tools"@[2] == 'o');
    }
    if k == "temperature"@ {
        assert(k[0] == 't' && "tool_choice"@[1] == 'o' && k[1] == 'e');
    }
}

#[verifier::spinoff_prover]
proof fn lemma_strip_drops(extra: Seq<(Seq<char>, JsonV)>, k: Seq<char>)
    requires
        codex_unsupported_field(k),
    ensures
        !has_member(spec_strip_unsupported(extra), k),
{
    lemma_strip_absent(extra);
    let f = codex_unsupported_fields();
    if k == f[0] {
    } else if k == f[1] {
    } else if k == f[2] {
    } else if k == f[3] {
    } else if k == f[4] {
    } else if k == f[5] {
    } else {
        assert(k == f[6]);
    }
}

proof fn lemma_strip_keeps(extra: Seq<(Seq<char>, JsonV)>, k: Seq<char>)
    requires
        !codex_unsupported_field(k),
        k != "service_tier"@,
        has_member(extra, k),
    ensures
        has_member(spec_strip_unsupported(extra), k),
{
    let f = codex_unsupported_fields();
    let e1 = drop_member(extra, f[0]);
    lemma_drop_member_keeps_other(extra, f[0], k);
    let e2 = drop_member(e1, f[1]);
    lemma_drop_member_keeps_other(e1, f[1], k);
    let e3 = drop_member(e2, f[2]);
    lemma_drop_member_keeps_other(e2, f[2], k);
    let e4 = drop_member(e3, f[3]);
    lemma_drop_member_keeps_other(e3, f[3], k);
    let e5 = drop_member(e4, f[4]);
    lemma_drop_member_keeps_other(e4, f[4], k);
    let e6 = drop_member(e5, f[5]);
    lemma_drop_member_keeps_other(e5, f[5], k);
    let e7 = drop_member(e6, f[6]);
    lemma_drop_member_keeps_other(e6, f[6], k);
    lemma_drop_member_keeps_other(e7, "service_tier"@, k);
}

proof fn lemma_drop_keeps_dropped(m: Seq<(Seq<char>, JsonV)>, k2: Seq<char>, ks: Seq<Seq<char>>)
    requires
        forall|i: int| 0 <= i < ks.len() ==> !has_member(m, #[trigger] ks[i]),
    ensures
        forall|i: int| 0 <= i < ks.push(k2).len() ==> !has_member(
            drop_member(m, k2),
            #[trigger] ks.push(k2)[i],
        ),
{
    lemma_drop_member_absent(m, k2);
    assert forall|i: int| 0 <= i < ks.push(k2).len() implies !has_member(
        drop_member(m, k2),
        #[trigger] ks.push(k2)[i],
    ) by {
        if i < ks.len() {
            assert(ks.push(k2)[i] == ks[i]);
            lemma_drop_member_keeps_absent(m, k2, ks[i]);
        }
    }
}

/// The seven refused fields, in the order they are dropped.
pub open spec fn codex_unsupported_fields() -> Seq<Seq<char>> {
    seq![
        "max_output_tokens"@,
        "max_completion_tokens"@,
        "temperature"@,
        "top_p"@,
        "truncation"@,
        "context_management"@,
        "user"@,
    ]
}

proof fn lemma_strip_absent(extra: Seq<(Seq<char>, JsonV)>)
    ensures
        forall|i: int|
            0 <= i < codex_unsupported_fields().len() ==> !has_member(
                spec_strip_unsupported(extra),
                #[trigger] codex_unsupported_fields()[i],
            ),
{
    let f = codex_unsupported_fields();
    let e1 = drop_member(extra, f[0]);
    lemma_drop_keeps_dropped(extra, f[0], Seq::empty());
    assert(seq![f[0]] =~= Seq::<Seq<char>>::empty().push(f[0]));
    let e2 = drop_member(e1, f[1]);
    lemma_drop_keeps_dropped(e1, f[1], f.take(1));
    assert(f.take(1).push(f[1]) =~= f.take(2));
    let e3 = drop_member(e2, f[2]);
    lemma_drop_keeps_dropped(e2, f[2], f.take(2));
    assert(f.take(2).push(f[2]) =~= f.take(3));
    let e4 = drop_member(e3, f[3]);
    lemma_drop_keeps_dropped(e3, f[3], f.take(3));
    assert(f.take(3).push(f[3]) =~= f.take(4));
    let e5 = drop_member(e4, f[4]);
    lemma_drop_keeps_dropped(e4, f[4], f.take(4));
    assert(f.take(4).push(f[4]) =~= f.take(5));
    let e6 = drop_member(e5, f[5]);
    lemma_drop_keeps_dropped(e5, f[5], f.take(5));
    assert(f.take(5).push(f[5]) =~= f.take(6));
    let e7 = drop_member(e6, f[6]);
    lemma_drop_keeps_dropped(e6, f[6], f.take(6));
    assert(f.take(6).push(f[6]) =~= f);
    reveal_strlit("max_output_tokens");
    reveal_strlit("max_completion_tokens");
    reveal_strlit("temperature");
    reveal_strlit("top_p");
    reveal_strlit("truncation");
    reveal_strlit("context_management");
    reveal_strlit("user");
    assert(spec_strip_unsupported(extra) == e7 || spec_strip_unsupported(extra) == drop_member(
        e7,
        "service_tier"@,
    ));
    assert forall|i: int| 0 <= i < f.len() implies !has_member(
        spec_strip_unsupported(extra),
        #[trigger] f[i],
    ) by {
        assert(!has_member(e7, f[i]));
        lemma_drop_member_keeps_absent(e7, "service_tier"@, f[i]);
    }
}

/// Of the fields a client sends, those the Codex upstream refuses are taken out and no other:
/// after stripping, none of `max_output_tokens`, `max_completion_tokens`, `temperature`,
/// `top_p`, `truncation`, `context_management` and `user` is left, and every other field but
/// `service_tier` is still there.
#[verifier::spinoff_prover]
pub proof fn law_unsupported_fields_are_stripped(extra: Seq<(Seq<char>, JsonV)>)
    ensures
        forall|k: Seq<char>|
            #[trigger] codex_unsupported_field(k) ==> get(
                JsonV::Object(spec_strip_unsupported(extra)),
                k,
            ) is None,
        forall|k: Seq<char>|
            !codex_unsupported_field(k) && k != "service_tier"@ && #[trigger] has_member(extra, k)
                ==> has_member(spec_strip_unsupported(extra), k),
{
    assert forall|k: Seq<char>| #[trigger] codex_unsupported_field(k) implies get(
        JsonV::Object(spec_strip_unsupported(extra)),
        k,
    ) is None by {
        lemma_strip_drops(extra, k);
    }
    assert forall|k: Seq<char>|
        !codex_unsupported_field(k) && k != "service_tier"@ && #[trigger] has_member(extra, k)
        implies has_member(spec_strip_unsupported(extra), k) by {
        lemma_strip_keeps(extra, k);
    }
}

/// A request planned for Codex never carries a field the Codex upstream refuses, whatever the
/// client sent.
pub proof fn law_codex_request_has_no_unsupported_field(r: RequestV, plan: ExecutionPlan)
    requires
        plan.provider == ProviderKind::Codex,
    ensures
        forall|k: Seq<char>|
            #[trigger] codex_unsupported_field(k) ==> get(JsonV::Object(spec_emit(r, plan).extra), k)
                is None,
{
    let s0 = set_member(r.extra, "include"@, JsonV::Array(seq![jstr("reasoning.encrypted_content"@)]));
    let s1 = spec_strip_unsupported(s0);
    law_unsupported_fields_are_stripped(s0);
    reveal_strlit("tools");
    reveal_strlit("tool_choice");
    reveal_strlit("parallel_tool_calls");
    reveal_strlit("max_output_tokens");
    reveal_strlit("max_completion_tokens");
    reveal_strlit("temperature");
    reveal_strlit("top_p");
    reveal_strlit("truncation");
    reveal_strlit("context_management");
    reveal_strlit("user");
    assert forall|k: Seq<char>| #[trigger] codex_unsupported_field(k) implies get(
        JsonV::Object(spec_emit(r, plan).extra),
        k,
    ) is None by {
        lemma_unsupported_is_not_set(k);
        assert(!has_member(s1, k));
        let s2 = match get(JsonV::Object(s1), "tools"@) {
            Some(JsonV::Array(ts)) => set_member(
                s1,
                "tools"@,
                JsonV::Array(ts.map_values(|t: JsonV| spec_tool_value(t))),
            ),
            _ => s1,
        };
        match get(JsonV::Object(s1), "tools"@) {
            Some(JsonV::Array(ts)) => {
                lemma_set_member_keeps_absent(
                    s1,
                    "tools"@,
                    JsonV::Array(ts.map_values(|t: JsonV| spec_tool_value(t))),
                    k,
                );
            },
            _ => {},
        }
        assert(!has_member(s2, k));
        let s3 = match get(JsonV::Object(s2), "tool_choice"@) {
            Some(c) => set_member(s2, "tool_choice"@, spec_tool_choice(c)),
            None => s2,
        };
        match get(JsonV::Object(s2), "tool_choice"@) {
            Some(c) => {
                lemma_set_member_keeps_absent(s2, "tool_choice"@, spec_tool_choice(c), k);
            },
            None => {},
        }
        assert(s3 == spec_builtin_tools(s1));
        assert(!has_member(s3, k));
        lemma_set_member_keeps_absent(s3, "parallel_tool_calls"@, JsonV::Bool(true), k);
        lemma_drop_member_keeps_absent(s3, "parallel_tool_calls"@, k);
        assert(!has_member(spec_parallel_tool_calls(s3), k));
    }
}

/// Other providers get the request exactly as it came, with the plan's model.
pub proof fn law_non_codex_request_passes_through(r: RequestV, plan: ExecutionPlan)
    requires
        plan.provider != ProviderKind::Codex,
    ensures
        spec_emit(r, plan) == (RequestV { model: plan.model@, ..r }),
{
}

/// The Codex upstream always gets the plan's model, the client's stream flag, non-blank
/// instructions, no metadata and no storage.
pub proof fn law_codex_request_shape(r: RequestV, plan: ExecutionPlan)
    requires
        plan.provider == ProviderKind::Codex,
    ensures
        spec_emit(r, plan).model == plan.model@,
        spec_emit(r, plan).stream == r.stream,
        spec_emit(r, plan).metadata is None,
        spec_emit(r, plan).store == Some(false),
        spec_emit(r, plan).instructions matches Some(i) && !blank(i),
{
    reveal_strlit("You are Codex. Fulfill the user's request.");
    let d = DEFAULT_CODEX_INSTRUCTIONS@;
    assert(!crate::text::is_ws(d[0]));
    assert(crate::text::lead_ws(d) == 0);
    assert(d.skip(0) =~= d);
    assert(!crate::text::is_ws(d.last()));
    assert(crate::text::trail_ws(d) == 0);
    assert(d.take(d.len() as int) =~= d);
}

/// The request as the data plane received it, before any provider rule.
#[derive(Debug)]
pub struct ResponsesRequestIr {
    request: ResponsesRequest,
}

fn copy_opt(o: &Option<Json>) -> (r: Option<Json>)
    ensures
        opt_jv(r) == opt_jv(*o),
{
    match o {
        Some(j) => Some(j.deep_clone()),
        None => None,
    }
}

fn copy_members(m: &Vec<(String, Json)>) -> (r: Vec<(String, Json)>)
    ensures
        members(r@) == members(m@),
{
    let j = Json::Object(Vec::new());
    let mut out: Vec<(String, Json)> = Vec::new();
    let mut i: usize = 0;
    proof {
        lemma_members_len(m@);
    }
    while i < m.len()
        invariant
            i <= m@.len(),
            members(m@).len() == m@.len(),
            forall|k: int| 0 <= k < m@.len() ==> #[trigger] members(m@)[k] == (m@[k].0@, m@[k].1.jv()),
            members(out@) == members(m@).take(i as int),
        decreases m@.len() - i,
    {
        let k = m[i].0.clone();
        let v = m[i].1.deep_clone();
        let ghost before = out@;
        proof {
            crate::json::lemma_members_push(before, (k, v));
        }
        out.push((k, v));
        i = i + 1;
        assert(members(out@) =~= members(m@).take(i as int));
    }
    assert(members(m@).take(i as int) =~= members(m@));
    out
}

fn copy_request(r: &ResponsesRequest) -> (c: ResponsesRequest)
    ensures
        request_view(c) == request_view(*r),
{
    ResponsesRequest {
        model: r.model.clone(),
        stream: r.stream,
        input: copy_opt(&r.input),
        instructions: match &r.instructions {
            Some(s) => Some(s.clone()),
            None => None,
        },
        metadata: copy_opt(&r.metadata),
        store: r.store,
        extra: copy_members(&r.extra),
    }
}

impl ResponsesRequestIr {
    pub closed spec fn view(&self) -> RequestV {
        request_view(self.request)
    }

    /// Captures the downstream request before any provider rule.
    pub fn from_downstream_request(request: &ResponsesRequest) -> (r: Self)
        ensures
            r.view() == request_view(*request),
    {
        ResponsesRequestIr { request: copy_request(request) }
    }

    pub fn model(&self) -> (r: &str)
        ensures
            r@ == self.view().model,
    {
        self.request.model.as_str()
    }

    /// The request sent upstream for the plan.
    pub fn emit_upstream_request(&self, plan: &ExecutionPlan) -> (r: ResponsesRequest)
        ensures
            request_view(r) == spec_emit(self.view(), *plan),
    {
        let mut request = copy_request(&self.request);
        request.model = plan.model.clone();
        match plan.provider {
            ProviderKind::Codex => {},
            _ => {
                return request;
            },
        }
        request.store = Some(false);
        request.metadata = None;
        codex_extra(&mut request.extra);
        request.instructions = codex_instructions(request.instructions);
        let input = lift_text_input(request.input);
        request.input = normalize_codex_input_roles(input);
        request
    }
}

/// The `include` value that asks for encrypted reasoning.
fn reasoning_include() -> (r: Json)
    ensures
        r.jv() == JsonV::Array(seq![jstr("reasoning.encrypted_content"@)]),
{
    let mut reasoning: Vec<Json> = Vec::new();
    reasoning.push(Json::Str(String::from_str("reasoning.encrypted_content")));
    proof {
        reveal_with_fuel(jvs, 2);
        assert(reasoning@.subrange(0, 0) =~= Seq::<Json>::empty());
        assert(jvs(reasoning@) =~= seq![jstr("reasoning.encrypted_content"@)]);
        lemma_jv_array(reasoning);
    }
    Json::Array(reasoning)
}

/// The extra fields of a Codex request.
fn codex_extra(extra: &mut Vec<(String, Json)>)
    ensures
        members(final(extra)@) == spec_parallel_tool_calls(
            spec_builtin_tools(
                spec_strip_unsupported(
                    set_member(
                        members(old(extra)@),
                        "include"@,
                        JsonV::Array(seq![jstr("reasoning.encrypted_content"@)]),
                    ),
                ),
            ),
        ),
{
    set_member_exec(extra, String::from_str("include"), reasoning_include());
    strip_codex_unsupported_fields(extra);
    normalize_codex_builtin_tools(extra);
    normalize_codex_parallel_tool_calls_for_tools(extra);
}

/// Blank or missing instructions become the default Codex instructions.
fn codex_instructions(instructions: Option<String>) -> (r: Option<String>)
    ensures
        opt_text(r) == match opt_text(instructions) {
            Some(i) if !blank(i) => Some(i),
            _ => Some(DEFAULT_CODEX_INSTRUCTIONS@),
        },
{
    let blank_instructions = match &instructions {
        Some(i) => is_blank(i.as_str()),
        None => true,
    };
    if blank_instructions {
        Some(String::from_str(DEFAULT_CODEX_INSTRUCTIONS))
    } else {
        instructions
    }
}

/// The request sent upstream for the plan.
pub fn normalize_upstream_request(request: ResponsesRequest, plan: &ExecutionPlan) -> (r: ResponsesRequest)
    ensures
        request_view(r) == spec_emit(request_view(request), *plan),
{
    let ir = ResponsesRequestIr::from_downstream_request(&request);
    ir.emit_upstream_request(plan)
}

// ---------------------------------------------------------------------------------------------
// Stream events
// ---------------------------------------------------------------------------------------------

/// A `response.output_item.done` event.
#[derive(Debug)]
pub struct OutputItemDoneIr {
    pub payload: Json,
    pub output_index: Option<usize>,
    pub item: Json,
}

/// A `response.completed` event.
#[derive(Debug)]
pub struct CompletedResponseIr {
    pub payload: Json,
    pub response: Json,
}

/// Any other JSON event.
#[derive(Debug)]
pub struct OtherJsonEventIr {
    pub event_type: String,
    pub payload: Json,
}

/// A data payload that is not JSON.
#[derive(Debug)]
pub struct NonJsonEventIr {
    pub payload: Vec<u8>,
}

/// The stream events the repair and aggregation rules tell apart.
#[derive(Debug)]
pub enum ResponsesStreamEventIr {
    OutputItemDone(OutputItemDoneIr),
    Completed(CompletedResponseIr),
    OtherJson(OtherJsonEventIr),
    Done,
    NonJson(NonJsonEventIr),
}

/// An event as values.
pub enum EventV {
    OutputItemDone(JsonV, Option<usize>, JsonV),
    Completed(JsonV, JsonV),
    OtherJson(Seq<char>, JsonV),
    Done,
    NonJson(Seq<u8>),
}

pub open spec fn event_view(e: ResponsesStreamEventIr) -> EventV {
    match e {
        ResponsesStreamEventIr::OutputItemDone(d) => EventV::OutputItemDone(
            d.payload.jv(),
            d.output_index,
            d.item.jv(),
        ),
        ResponsesStreamEventIr::Completed(c) => EventV::Completed(c.payload.jv(), c.response.jv()),
        ResponsesStreamEventIr::OtherJson(o) => EventV::OtherJson(o.event_type@, o.payload.jv()),
        ResponsesStreamEventIr::Done => EventV::Done,
        ResponsesStreamEventIr::NonJson(n) => EventV::NonJson(n.payload@),
    }
}

pub open spec fn is_digit_char(c: char) -> bool {
    '0' <= c <= '9'
}

/// The value of a string of decimal digit characters.
pub open spec fn text_digits_value(t: Seq<char>) -> nat
    decreases t.len(),
{
    if t.len() == 0 {
        0
    } else {
        text_digits_value(t.drop_last()) * 10 + ((t.last() as u32) - ('0' as u32)) as nat
    }
}

/// What `Value::as_u64` gives: the number when it is a non-negative integer that fits.
pub open spec fn json_u64(v: Option<JsonV>) -> Option<u64> {
    match v {
        Some(JsonV::Number(t)) => if t.len() > 0 && (forall|i: int| 0 <= i < t.len() ==> is_digit_char(#[trigger] t[i]))
            && text_digits_value(t) <= u64::MAX {
            Some(text_digits_value(t) as u64)
        } else {
            None
        },
        _ => None,
    }
}

/// The event of a frame: `None` without a data payload; an error when an output-item or
/// completed event lacks its item or response.
pub open spec fn spec_event(frame: Seq<u8>) -> Result<Option<EventV>, Seq<char>> {
    match spec_data_payload(frame) {
        None => Ok(None),
        Some(p) => if p == done_marker() {
            Ok(Some(EventV::Done))
        } else {
            match spec_json_parse(p) {
                None => Ok(Some(EventV::NonJson(p))),
                Some(v) => {
                    let ty = match as_str(get(v, "type"@)) {
                        Some(t) => t,
                        None => Seq::empty(),
                    };
                    if ty == "response.output_item.done"@ {
                        match get(v, "item"@) {
                            None => Err("response.output_item.done missing item"@),
                            Some(item) => Ok(
                                Some(
                                    EventV::OutputItemDone(
                                        v,
                                        match json_u64(get(v, "output_index"@)) {
                                            Some(n) => Some(n as usize),
                                            None => None,
                                        },
                                        item,
                                    ),
                                ),
                            ),
                        }
                    } else if ty == "response.completed"@ {
                        match get(v, "response"@) {
                            None => Err("response.completed missing response"@),
                            Some(r) => Ok(Some(EventV::Completed(v, r))),
                        }
                    } else {
                        Ok(Some(EventV::OtherJson(ty, v)))
                    }
                },
            }
        },
    }
}

pub open spec fn event_outcome(r: Result<Option<ResponsesStreamEventIr>, String>) -> Result<
    Option<EventV>,
    Seq<char>,
> {
    match r {
        Ok(Some(e)) => Ok(Some(event_view(e))),
        Ok(None) => Ok(None),
        Err(m) => Err(m@),
    }
}

/// `Value::as_u64` on a number's text.
pub(crate) fn number_u64(v: Option<&Json>) -> (r: Option<u64>)
    ensures
        r == json_u64(match v {
            Some(x) => Some(x.jv()),
            None => None,
        }),
{
    let t = match v {
        Some(Json::Number(t)) => t,
        _ => {
            return None;
        },
    };
    let ghost arg = match v {
        Some(x) => Some(x.jv()),
        None => None,
    };
    assert(arg == Some(JsonV::Number(t@)));
    let c = chars_of(t.as_str());
    if c.len() == 0 {
        return None;
    }
    let mut acc: u64 = 0;
    let mut i: usize = 0;
    while i < c.len()
        invariant
            i <= c@.len(),
            c@ == t@,
            c@.len() > 0,
            arg == Some(JsonV::Number(t@)),
            arg == match v {
                Some(x) => Some(x.jv()),
                None => None,
            },
            forall|k: int| 0 <= k < i ==> is_digit_char(#[trigger] c@[k]),
            acc == text_digits_value(c@.take(i as int)),
        decreases c@.len() - i,
    {
        let ch = c[i];
        if !('0' <= ch && ch <= '9') {
            assert(!is_digit_char(t@[i as int]));
            assert(!(forall|k: int| 0 <= k < t@.len() ==> is_digit_char(#[trigger] t@[k])));
            assert(json_u64(arg) is None);
            return None;
        }
        let d = ((ch as u32) - ('0' as u32)) as u64;
        assert(c@.take(i + 1).drop_last() =~= c@.take(i as int));
        assert(c@.take(i + 1).last() == ch);
        assert(text_digits_value(c@.take(i + 1)) == acc * 10 + d);
        if acc > (u64::MAX - d) / 10 {
            proof {
                assert(acc * 10 + d > u64::MAX) by (nonlinear_arith)
                    requires
                        acc > (u64::MAX - d) / 10,
                        d <= 9,
                ;
                lemma_text_digits_grows(c@, i + 1);
                assert(text_digits_value(t@) > u64::MAX);
                assert(json_u64(arg) is None);
            }
            return None;
        }
        proof {
            assert(acc * 10 + d <= u64::MAX) by (nonlinear_arith)
                requires
                    acc <= (u64::MAX - d) / 10,
                    d <= 9,
            ;
        }
        acc = acc * 10 + d;
        i = i + 1;
    }
    assert(c@.take(i as int) =~= c@);
    Some(acc)
}

proof fn lemma_text_digits_grows(t: Seq<char>, k: int)
    requires
        0 <= k <= t.len(),
    ensures
        text_digits_value(t.take(k)) <= text_digits_value(t),
    decreases t.len() - k,
{
    if k < t.len() {
        lemma_text_digits_grows(t, k + 1);
        assert(t.take(k + 1).drop_last() =~= t.take(k));
    } else {
        assert(t.take(k) =~= t);
    }
}

fn copy_of(v: Option<&Json>) -> (r: Option<Json>)
    ensures
        match v {
            Some(x) => r matches Some(y) && y.jv() == x.jv(),
            None => r is None,
        },
{
    match v {
        Some(x) => Some(x.deep_clone()),
        None => None,
    }
}

impl ResponsesStreamEventIr {
    /// The event that a normalized frame carries.
    #[verifier::spinoff_prover]
    #[verifier::rlimit(50)]
    pub fn from_sse_frame(frame: &[u8]) -> (r: Result<Option<Self>, String>)
        ensures
            event_outcome(r) == spec_event(frame@),
    {
        let payload = match sse_data_payload(frame) {
            Some(p) => p,
            None => {
                return Ok(None);
            },
        };
        let n = payload.len();
        if n == 6 && payload[0] == 91 && payload[1] == 68 && payload[2] == 79 && payload[3] == 78
            && payload[4] == 69 && payload[5] == 93 {
            assert(payload@ =~= done_marker());
            return Ok(Some(ResponsesStreamEventIr::Done));
        }
        proof {
            if payload@ == done_marker() {
                assert(payload@[0] == 91u8);
            }
        }
        let value = match parse_json(payload.as_slice()) {
            Some(v) => v,
            None => {
                return Ok(Some(ResponsesStreamEventIr::NonJson(NonJsonEventIr { payload })));
            },
        };
        let event_type = match value.get("type") {
            Some(t) => match t.as_str() {
                Some(s) => String::from_str(s),
                None => String::new(),
            },
            None => String::new(),
        };
        if text_eq(event_type.as_str(), "response.output_item.done") {
            let item = match copy_of(value.get("item")) {
                Some(i) => i,
                None => {
                    return Err(String::from_str("response.output_item.done missing item"));
                },
            };
            let output_index = match number_u64(value.get("output_index")) {
                Some(n) => Some(n as usize),
                None => None,
            };
            return Ok(
                Some(
                    ResponsesStreamEventIr::OutputItemDone(
                        OutputItemDoneIr { payload: value, output_index, item },
                    ),
                ),
            );
        }
        if text_eq(event_type.as_str(), "response.completed") {
            let response = match copy_of(value.get("response")) {
                Some(r) => r,
                None => {
                    return Err(String::from_str("response.completed missing response"));
                },
            };
            return Ok(
                Some(ResponsesStreamEventIr::Completed(CompletedResponseIr { payload: value, response })),
            );
        }
        Ok(Some(ResponsesStreamEventIr::OtherJson(OtherJsonEventIr { event_type, payload: value })))
    }
}

} // verus!
