//! A short summary of a responses request for logs and estimates: its model, a preview of its
//! prompt and how many metadata keys it carries.
use vstd::prelude::*;
use vstd::string::*;
use crate::json::{jvs, lemma_jv_array, lemma_jv_object, lemma_jvs_len, lemma_members_len, members, Json, JsonV};
use crate::protocol::{opt_jv, opt_text, ResponsesRequest};
use crate::text::{chars_of, is_blank, slice_chars, string_of, trim, trim_str};

verus! {

/// Longest prompt preview, in characters, before the ellipsis.
pub const PREVIEW_CHARS: usize = 48;

/// The first `max` characters of `s`, followed by `...` when anything was cut.
pub open spec fn truncated(s: Seq<char>, max: nat) -> Seq<char> {
    if s.len() > max {
        s.take(max as int) + "..."@
    } else {
        s
    }
}

/// The preview of a JSON value: a non-blank string, trimmed and truncated; else the first
/// preview among the elements of an array or the values of an object.
pub open spec fn value_preview(v: JsonV) -> Option<Seq<char>>
    decreases v,
{
    match v {
        JsonV::Str(t) => if trim(t).len() == 0 {
            None
        } else {
            Some(truncated(trim(t), PREVIEW_CHARS as nat))
        },
        JsonV::Array(items) => list_preview(items),
        JsonV::Object(m) => member_preview(m),
        _ => None,
    }
}

/// The first preview among the values.
pub open spec fn list_preview(items: Seq<JsonV>) -> Option<Seq<char>>
    decreases items,
{
    if items.len() == 0 {
        None
    } else {
        match value_preview(items[0]) {
            Some(p) => Some(p),
            None => list_preview(items.subrange(1, items.len() as int)),
        }
    }
}

/// The first preview among the members' values.
pub open spec fn member_preview(m: Seq<(Seq<char>, JsonV)>) -> Option<Seq<char>>
    decreases m,
{
    if m.len() == 0 {
        None
    } else {
        proof {
            assert(decreases_to!(m => m[0]));
        }
        match value_preview(m[0].1) {
            Some(p) => Some(p),
            None => member_preview(m.subrange(1, m.len() as int)),
        }
    }
}

/// The preview of a request's input: a string input is trimmed and truncated (even when that
/// leaves it empty); an array or object gives its first preview.
pub open spec fn input_preview(input: Option<JsonV>) -> Option<Seq<char>> {
    match input {
        Some(JsonV::Str(t)) => Some(truncated(trim(t), PREVIEW_CHARS as nat)),
        Some(JsonV::Array(items)) => list_preview(items),
        Some(JsonV::Object(m)) => member_preview(m),
        _ => None,
    }
}

/// The prompt preview of a request: its instructions when not blank, else its input's preview,
/// else `empty-input`.
pub open spec fn spec_prompt_preview(instructions: Option<Seq<char>>, input: Option<JsonV>) -> Seq<
    char,
> {
    match instructions {
        Some(i) if trim(i).len() > 0 => truncated(trim(i), PREVIEW_CHARS as nat),
        _ => match input_preview(input) {
            Some(p) => p,
            None => "empty-input"@,
        },
    }
}

/// The number of keys of an object, 0 for anything else.
pub open spec fn key_count(v: Option<JsonV>) -> nat {
    match v {
        Some(JsonV::Object(m)) => m.len(),
        _ => 0,
    }
}

/// The summary of a request.
#[derive(Debug, Clone)]
pub struct RequestMetadata {
    pub model: String,
    pub prompt_preview: String,
    pub metadata_keys: usize,
}

/// `value`'s first `max_chars` characters, with `...` when it was longer.
pub fn truncate_preview(value: &str, max_chars: usize) -> (r: String)
    ensures
        r@ == truncated(value@, max_chars as nat),
{
    let v = chars_of(value);
    if v.len() > max_chars {
        let head = slice_chars(v.as_slice(), 0, max_chars);
        let mut out = string_of(head.as_slice());
        out.append("...");
        proof {
            assert(head@ =~= value@.take(max_chars as int));
        }
        out
    } else {
        String::from_str(value)
    }
}

fn trimmed_preview(text: &str) -> (r: Option<String>)
    ensures
        match r {
            Some(p) => trim(text@).len() > 0 && p@ == truncated(trim(text@), PREVIEW_CHARS as nat),
            None => trim(text@).len() == 0,
        },
{
    let t = trim_str(text);
    if t.as_str().unicode_len() == 0 {
        None
    } else {
        Some(truncate_preview(t.as_str(), PREVIEW_CHARS))
    }
}

fn first_in_list(items: &Vec<Json>, whole: &Json) -> (r: Option<String>)
    requires
        *whole == Json::Array(*items),
    ensures
        match r {
            Some(p) => list_preview(jvs(items@)) == Some(p@),
            None => list_preview(jvs(items@)) is None,
        },
    decreases whole, 0nat,
{
    proof {
        lemma_jvs_len(items@);
    }
    let ghost all = jvs(items@);
    assert(all.subrange(0, all.len() as int) =~= all);
    let mut i: usize = 0;
    while i < items.len()
        invariant
            i <= items@.len(),
            *whole == Json::Array(*items),
            all == jvs(items@),
            all.len() == items@.len(),
            forall|k: int| 0 <= k < items@.len() ==> #[trigger] all[k] == items@[k].jv(),
            list_preview(all) == list_preview(all.subrange(i as int, all.len() as int)),
        decreases items@.len() - i,
    {
        let ghost rest = all.subrange(i as int, all.len() as int);
        assert(rest[0] == items@[i as int].jv());
        assert(rest.subrange(1, rest.len() as int) =~= all.subrange(i + 1, all.len() as int));
        proof {
            assert(decreases_to!(*whole => (*whole)->Array_0));
            assert(decreases_to!((*whole)->Array_0 => (*whole)->Array_0@));
            assert(decreases_to!((*whole)->Array_0@ => (*whole)->Array_0@[i as int]));
        }
        match preview_from_value(&items[i]) {
            Some(p) => {
                return Some(p);
            },
            None => {},
        }
        i = i + 1;
    }
    None
}

fn first_in_members(m: &Vec<(String, Json)>, whole: &Json) -> (r: Option<String>)
    requires
        *whole == Json::Object(*m),
    ensures
        match r {
            Some(p) => member_preview(members(m@)) == Some(p@),
            None => member_preview(members(m@)) is None,
        },
    decreases whole, 0nat,
{
    proof {
        lemma_members_len(m@);
    }
    let ghost all = members(m@);
    assert(all.subrange(0, all.len() as int) =~= all);
    let mut i: usize = 0;
    while i < m.len()
        invariant
            i <= m@.len(),
            *whole == Json::Object(*m),
            all == members(m@),
            all.len() == m@.len(),
            forall|k: int| 0 <= k < m@.len() ==> #[trigger] all[k] == (m@[k].0@, m@[k].1.jv()),
            member_preview(all) == member_preview(all.subrange(i as int, all.len() as int)),
        decreases m@.len() - i,
    {
        let ghost rest = all.subrange(i as int, all.len() as int);
        assert(rest[0] == (m@[i as int].0@, m@[i as int].1.jv()));
        assert(rest.subrange(1, rest.len() as int) =~= all.subrange(i + 1, all.len() as int));
        proof {
            assert(decreases_to!(*whole => (*whole)->Object_0));
            assert(decreases_to!((*whole)->Object_0 => (*whole)->Object_0@));
            assert(decreases_to!((*whole)->Object_0@ => (*whole)->Object_0@[i as int]));
            assert(decreases_to!((*whole)->Object_0@[i as int] => (*whole)->Object_0@[i as int].1));
        }
        match preview_from_value(&m[i].1) {
            Some(p) => {
                return Some(p);
            },
            None => {},
        }
        i = i + 1;
    }
    None
}

/// The preview of a JSON value.
pub fn preview_from_value(value: &Json) -> (r: Option<String>)
    ensures
        match r {
            Some(p) => value_preview(value.jv()) == Some(p@),
            None => value_preview(value.jv()) is None,
        },
    decreases value, 1nat,
{
    match value {
        Json::Str(text) => trimmed_preview(text.as_str()),
        Json::Array(items) => {
            proof {
                lemma_jv_array(*items);
            }
            first_in_list(items, value)
        },
        Json::Object(m) => {
            proof {
                lemma_jv_object(*m);
            }
            first_in_members(m, value)
        },
        _ => None,
    }
}

/// The preview of a request's input.
pub fn extract_prompt_preview(input: Option<&Json>) -> (r: Option<String>)
    ensures
        match r {
            Some(p) => input_preview(crate::metadata::opt_json_view(input)) == Some(p@),
            None => input_preview(crate::metadata::opt_json_view(input)) is None,
        },
{
    match input {
        None => None,
        Some(Json::Str(text)) => {
            let t = trim_str(text.as_str());
            Some(truncate_preview(t.as_str(), PREVIEW_CHARS))
        },
        Some(v) => match v {
            Json::Array(items) => {
                proof {
                    lemma_jv_array(*items);
                }
                first_in_list(items, v)
            },
            Json::Object(m) => {
                proof {
                    lemma_jv_object(*m);
                }
                first_in_members(m, v)
            },
            _ => None,
        },
    }
}

/// The summary of a request; a blank model is refused.
pub fn extract_metadata(request: &ResponsesRequest) -> (r: Result<RequestMetadata, String>)
    ensures
        trim(request.model@).len() == 0 ==> (r matches Err(e) && e@ == "model is required"@),
        trim(request.model@).len() > 0 ==> (r matches Ok(m) && m.model@ == trim(request.model@)
            && m.prompt_preview@ == spec_prompt_preview(
            opt_text(request.instructions),
            opt_jv(request.input),
        ) && m.metadata_keys == key_count(opt_jv(request.metadata))),
{
    let model = trim_str(request.model.as_str());
    if model.as_str().unicode_len() == 0 {
        return Err(String::from_str("model is required"));
    }
    let from_instructions = match &request.instructions {
        Some(i) => trimmed_preview(i.as_str()),
        None => None,
    };
    let input = match &request.input {
        Some(v) => Some(v),
        None => None,
    };
    let prompt_preview = match from_instructions {
        Some(p) => p,
        None => match extract_prompt_preview(input) {
            Some(p) => p,
            None => String::from_str("empty-input"),
        },
    };
    let metadata_keys = match &request.metadata {
        Some(Json::Object(m)) => {
            proof {
                lemma_jv_object(*m);
                lemma_members_len(m@);
            }
            m.len()
        },
        _ => 0,
    };
    Ok(RequestMetadata { model, prompt_preview, metadata_keys })
}

} // verus!
