//! The incremental SSE framer of the responses stream: it cuts the upstream bytes into frames,
//! joins an event header sent apart from its data, and repairs a `response.completed` event
//! whose `output` came back empty from the output items seen before it.
use vstd::prelude::*;
use vstd::utf8::{decode_utf8, encode_utf8, valid_utf8};
use crate::json::{
    as_str, get, json_text, lemma_jv_array, lemma_jv_object, lemma_jvs_len, lemma_jvs_push,
    members, parse_json, set_member, set_member_exec, spec_json_parse, spec_json_text, Json,
    JsonV, jvs,
};
use crate::protocol::{spec_event, EventV, ResponsesStreamEventIr};
use crate::redis_protocol::{CR, LF};
use crate::sse::{
    bytes_start_with, data_prefix, event_prefix, field_line, is_header_only_sse_frame,
    merge_sse_header_and_frame, normalize_sse_frame_bytes, spec_can_emit_without_delimiter,
    spec_frame_len, spec_has_field, spec_header_only, spec_merge, spec_needs_line_break,
    spec_normalize, spec_trim_terminator, sse_can_emit_without_delimiter, sse_frame_len,
    sse_has_field, sse_needs_line_break, trim_sse_frame_terminator, trim_ws,
};

verus! {

// ---------------------------------------------------------------------------------------------
// Output items by index
// ---------------------------------------------------------------------------------------------

/// Position of the first entry whose index is at least `k`.
pub open spec fn first_ge(s: Seq<(usize, Seq<u8>)>, k: usize) -> int
    decreases s.len(),
{
    if s.len() == 0 || s[0].0 >= k {
        0
    } else {
        1 + first_ge(s.drop_first(), k)
    }
}

/// The entries with `k` set to `v`, in index order.
pub open spec fn insert_item(s: Seq<(usize, Seq<u8>)>, k: usize, v: Seq<u8>) -> Seq<(usize, Seq<u8>)> {
    let p = first_ge(s, k);
    if p < s.len() && s[p].0 == k {
        s.update(p, (k, v))
    } else {
        s.insert(p, (k, v))
    }
}

proof fn lemma_first_ge(s: Seq<(usize, Seq<u8>)>, k: usize, n: int)
    requires
        0 <= n <= s.len(),
        forall|j: int| 0 <= j < n ==> s[j].0 < k,
        n == s.len() || s[n].0 >= k,
    ensures
        first_ge(s, k) == n,
    decreases n,
{
    if n > 0 {
        let t = s.drop_first();
        assert forall|j: int| 0 <= j < n - 1 implies t[j].0 < k by {
            assert(t[j] == s[j + 1]);
        }
        if n < s.len() {
            assert(t[n - 1] == s[n]);
        }
        lemma_first_ge(t, k, n - 1);
    }
}

pub open spec fn item_bytes(v: Seq<(usize, Vec<u8>)>) -> Seq<(usize, Seq<u8>)> {
    v.map_values(|e: (usize, Vec<u8>)| (e.0, e.1@))
}

fn insert_item_exec(items: &mut Vec<(usize, Vec<u8>)>, k: usize, v: Vec<u8>)
    ensures
        item_bytes(final(items)@) == insert_item(item_bytes(old(items)@), k, v@),
{
    let ghost s = item_bytes(items@);
    let mut p: usize = 0;
    while p < items.len() && items[p].0 < k
        invariant
            p <= items@.len(),
            s == item_bytes(items@),
            forall|j: int| 0 <= j < p ==> s[j].0 < k,
        decreases items@.len() - p,
    {
        p = p + 1;
    }
    proof {
        lemma_first_ge(s, k, p as int);
    }
    let ghost vv = v@;
    if p < items.len() && items[p].0 == k {
        items.set(p, (k, v));
        assert(item_bytes(items@) =~= s.update(p as int, (k, vv)));
    } else {
        items.insert(p, (k, v));
        assert(item_bytes(items@) =~= s.insert(p as int, (k, vv)));
    }
}

// ---------------------------------------------------------------------------------------------
// A frame with its data replaced
// ---------------------------------------------------------------------------------------------

/// The end of the byte line that starts at `i`: the next LF, or the end.
pub open spec fn byte_line_end(f: Seq<u8>, i: int) -> int
    decreases f.len() - i,
{
    if i < 0 || i >= f.len() {
        f.len() as int
    } else if f[i] == LF {
        i
    } else {
        byte_line_end(f, i + 1)
    }
}

pub proof fn lemma_byte_line_end(f: Seq<u8>, i: int)
    requires
        0 <= i <= f.len(),
    ensures
        i <= byte_line_end(f, i) <= f.len(),
    decreases f.len() - i,
{
    if i < f.len() && f[i] != LF {
        lemma_byte_line_end(f, i + 1);
    }
}

/// A line without one trailing CR.
pub open spec fn without_cr(l: Seq<u8>) -> Seq<u8> {
    if l.len() > 0 && l.last() == CR {
        l.drop_last()
    } else {
        l
    }
}

/// The non-data lines of a frame from `i` on, each followed by LF (empty when not UTF-8).
pub open spec fn kept_lines(f: Seq<u8>, i: int) -> Seq<u8>
    decreases f.len() - i,
{
    if i < 0 || i > f.len() {
        Seq::empty()
    } else {
        let j = byte_line_end(f, i);
        let line = without_cr(f.subrange(i, j));
        let t = trim_ws(line);
        let piece = if t.len() == 0 || bytes_start_with(t, data_prefix()) {
            Seq::empty()
        } else if valid_utf8(line) {
            line.push(LF)
        } else {
            seq![LF]
        };
        let rest = if j < f.len() {
            proof {
                lemma_byte_line_end(f, i);
            }
            kept_lines(f, j + 1)
        } else {
            Seq::empty()
        };
        piece + rest
    }
}

/// A frame whose data lines are replaced by one `data:` line with the payload written as JSON.
pub open spec fn spec_frame_with_payload(frame: Seq<u8>, payload: JsonV) -> Seq<u8> {
    let text = match spec_json_text(payload) {
        Some(t) => t,
        None => "{}"@,
    };
    kept_lines(frame, 0) + encode_utf8("data: "@) + encode_utf8(text) + seq![LF, LF]
}

fn byte_line_end_exec(f: &[u8], i: usize) -> (r: usize)
    requires
        i <= f@.len(),
    ensures
        r == byte_line_end(f@, i as int),
        i <= r <= f@.len(),
{
    let mut j = i;
    while j < f.len() && f[j] != LF
        invariant
            i <= j <= f@.len(),
            byte_line_end(f@, i as int) == byte_line_end(f@, j as int),
        decreases f@.len() - j,
    {
        j = j + 1;
    }
    j
}

/// The frame with its data lines replaced by the payload.
pub fn sse_frame_with_payload(frame: &[u8], payload: &Json) -> (r: Vec<u8>)
    ensures
        r@ == spec_frame_with_payload(frame@, payload.jv()),
{
    let mut out: Vec<u8> = Vec::new();
    let mut i: usize = 0;
    let prefix = crate::sse::data_prefix_vec();
    loop
        invariant_except_break
            kept_lines(frame@, 0) == out@ + kept_lines(frame@, i as int),
        invariant
            i <= frame@.len(),
            prefix@ == data_prefix(),
        ensures
            kept_lines(frame@, 0) == out@,
        decreases frame@.len() - i,
    {
        let j = byte_line_end_exec(frame, i);
        let e = if j > i && frame[j - 1] == CR {
            j - 1
        } else {
            j
        };
        let line = vstd::slice::slice_subrange(frame, i, e);
        assert(line@ == without_cr(frame@.subrange(i as int, j as int)));
        let t = crate::sse::trim_ascii_whitespace(line);
        let ghost before = out@;
        let ghost rest = if j < frame@.len() {
            kept_lines(frame@, j + 1)
        } else {
            Seq::<u8>::empty()
        };
        if t.len() == 0 || crate::sse::starts_with_bytes(t, prefix.as_slice()) {
            assert(kept_lines(frame@, i as int) == rest);
        } else {
            match crate::text::decode_utf8_bytes(line) {
                Some(_) => {
                    crate::text::push_bytes(&mut out, line);
                    out.push(LF);
                    assert(kept_lines(frame@, i as int) == line@.push(LF) + rest);
                    assert(out@ =~= before + line@.push(LF));
                },
                None => {
                    out.push(LF);
                    assert(kept_lines(frame@, i as int) == seq![LF] + rest);
                    assert(out@ =~= before + seq![LF]);
                },
            }
        }
        if j == frame.len() {
            assert(kept_lines(frame@, 0) =~= out@);
            break;
        }
        assert(kept_lines(frame@, 0) =~= out@ + kept_lines(frame@, j + 1));
        i = j + 1;
    }
    let text = match json_text(payload) {
        Some(t) => t,
        None => String::from_str("{}"),
    };
    crate::text::push_bytes(&mut out, "data: ".as_bytes());
    crate::text::push_bytes(&mut out, text.as_str().as_bytes());
    out.push(LF);
    out.push(LF);
    assert(out@ =~= kept_lines(frame@, 0) + encode_utf8("data: "@) + encode_utf8(text@) + seq![LF, LF]);
    out
}

// ---------------------------------------------------------------------------------------------
// The framer
// ---------------------------------------------------------------------------------------------

/// What the framer remembers besides the pending bytes: an event header waiting for its data,
/// and the output items seen so far, by index and in arrival order.
#[verifier::ext_equal]
pub struct CoreV {
    pub header: Option<Seq<u8>>,
    pub items: Seq<(usize, Seq<u8>)>,
    pub unindexed: Seq<Seq<u8>>,
}

/// The framer as values.
#[verifier::ext_equal]
pub struct FramerV {
    pub pending: Seq<u8>,
    pub core: CoreV,
}

/// Records a finished output item, written as JSON: under its index when it has one, else in
/// arrival order. Items that are not objects with a type are ignored.
pub open spec fn spec_record_item(c: CoreV, item: JsonV, idx: Option<usize>) -> CoreV {
    let ty = as_str(get(item, "type"@));
    if !(item is Object) || ty is None || ty->0.len() == 0 {
        c
    } else {
        match spec_json_text(item) {
            None => c,
            Some(t) => match idx {
                Some(i) => CoreV { items: insert_item(c.items, i, encode_utf8(t)), ..c },
                None => CoreV { unindexed: c.unindexed.push(encode_utf8(t)), ..c },
            },
        }
    }
}

/// The recorded items read back as JSON, skipping any that do not parse.
pub open spec fn parsed_items(raws: Seq<Seq<u8>>) -> Seq<JsonV>
    decreases raws.len(),
{
    if raws.len() == 0 {
        Seq::empty()
    } else {
        let rest = parsed_items(raws.drop_last());
        match spec_json_parse(raws.last()) {
            Some(v) => rest.push(v),
            None => rest,
        }
    }
}

/// The recorded items: by index first, then the others in arrival order.
pub open spec fn all_raws(c: CoreV) -> Seq<Seq<u8>> {
    c.items.map_values(|e: (usize, Seq<u8>)| e.1) + c.unindexed
}

/// A completed response with its `output` filled from the recorded items, when it has none (no
/// `output`, or an empty array) and items were recorded.
pub open spec fn spec_repair_completed(c: CoreV, response: JsonV) -> JsonV {
    if c.items.len() == 0 && c.unindexed.len() == 0 {
        response
    } else {
        let has_existing = match get(response, "output"@) {
            Some(JsonV::Array(a)) => a.len() > 0,
            Some(_) => true,
            None => false,
        };
        if has_existing {
            response
        } else {
            match response {
                JsonV::Object(m) => JsonV::Object(
                    set_member(m, "output"@, JsonV::Array(parsed_items(all_raws(c)))),
                ),
                _ => response,
            }
        }
    }
}

/// What a frame becomes, and what the framer remembers after it.
pub open spec fn spec_repair_frame(c: CoreV, frame: Seq<u8>) -> (CoreV, Seq<u8>) {
    match spec_event(frame) {
        Ok(Some(EventV::OutputItemDone(_, idx, item))) => (
            spec_record_item(c, item, idx),
            spec_normalize(frame),
        ),
        Ok(Some(EventV::Completed(payload, response))) => {
            let rep = spec_repair_completed(c, response);
            if rep != response {
                let p2 = match payload {
                    JsonV::Object(m) => JsonV::Object(set_member(m, "response"@, rep)),
                    _ => payload,
                };
                (c, spec_frame_with_payload(frame, p2))
            } else {
                (c, spec_normalize(frame))
            }
        },
        _ => (c, spec_normalize(frame)),
    }
}

/// A whole frame taken in: a header-only frame is held for the data frame after it; any other
/// frame, merged with a held header when it brings data but no event line, is repaired and sent.
pub open spec fn spec_consume(c: CoreV, frame: Seq<u8>) -> (CoreV, Seq<Seq<u8>>) {
    if spec_header_only(frame) {
        (CoreV { header: Some(spec_trim_terminator(frame)), ..c }, Seq::empty())
    } else {
        let merged = match c.header {
            Some(h) => if spec_has_field(frame, data_prefix()) && !spec_has_field(
                frame,
                event_prefix(),
            ) {
                spec_merge(h, frame)
            } else {
                frame
            },
            None => frame,
        };
        let r = spec_repair_frame(CoreV { header: None, ..c }, merged);
        (r.0, seq![r.1])
    }
}

/// Every complete frame at the front of the pending bytes taken in, in order.
pub open spec fn spec_drain(c: CoreV, pending: Seq<u8>) -> (CoreV, Seq<u8>, Seq<Seq<u8>>)
    decreases pending.len(),
{
    match spec_frame_len(pending) {
        Some(n) if 0 < n <= pending.len() => {
            let r = spec_consume(c, pending.take(n));
            let d = spec_drain(r.0, pending.skip(n));
            (d.0, d.1, r.1 + d.2)
        },
        _ => (c, pending, Seq::empty()),
    }
}

pub open spec fn all_ascii_ws(s: Seq<u8>) -> bool {
    forall|i: int| 0 <= i < s.len() ==> crate::sse::is_ascii_ws(#[trigger] s[i])
}

/// A chunk taken in: joined to the pending bytes (on a new line when it opens a field), its
/// complete frames sent, and what is left either dropped (only whitespace), sent as a frame
/// (a whole data frame without its blank line), or kept pending.
pub open spec fn spec_push_chunk(st: FramerV, chunk: Seq<u8>) -> (FramerV, Seq<Seq<u8>>) {
    if chunk.len() == 0 {
        (st, Seq::empty())
    } else {
        let p1 = if spec_needs_line_break(st.pending, chunk) {
            st.pending.push(LF)
        } else {
            st.pending
        } + chunk;
        let d = spec_drain(st.core, p1);
        if all_ascii_ws(d.1) {
            (FramerV { pending: Seq::empty(), core: d.0 }, d.2)
        } else if d.1.len() > 0 && spec_can_emit_without_delimiter(d.1) {
            let r = spec_consume(d.0, d.1);
            (FramerV { pending: Seq::empty(), core: r.0 }, d.2 + r.1)
        } else {
            (FramerV { pending: d.1, core: d.0 }, d.2)
        }
    }
}

/// The end of the stream: a held header is dropped, and pending bytes are sent only when they
/// hold a whole data frame.
pub open spec fn spec_finish(st: FramerV) -> (FramerV, Seq<Seq<u8>>) {
    let c = CoreV { header: None, ..st.core };
    if st.pending.len() == 0 {
        (FramerV { pending: st.pending, core: c }, Seq::empty())
    } else if all_ascii_ws(st.pending) || !spec_can_emit_without_delimiter(st.pending) {
        (FramerV { pending: Seq::empty(), core: c }, Seq::empty())
    } else {
        let r = spec_consume(c, st.pending);
        (FramerV { pending: Seq::empty(), core: r.0 }, r.1)
    }
}

pub open spec fn frames_view(v: Seq<Vec<u8>>) -> Seq<Seq<u8>> {
    v.map_values(|x: Vec<u8>| x@)
}

/// What the framer remembers besides the pending bytes.
#[derive(Debug, Default)]
struct FramerCore {
    pending_header: Option<Vec<u8>>,
    output_items: Vec<(usize, Vec<u8>)>,
    unindexed_output_items: Vec<Vec<u8>>,
}

impl FramerCore {
    spec fn view(&self) -> CoreV {
        CoreV {
            header: match self.pending_header {
                Some(h) => Some(h@),
                None => None,
            },
            items: item_bytes(self.output_items@),
            unindexed: self.unindexed_output_items@.map_values(|x: Vec<u8>| x@),
        }
    }

    fn record_output_item(&mut self, item: &Json, output_index: Option<usize>)
        ensures
            final(self).view() == spec_record_item(old(self).view(), item.jv(), output_index),
    {
        if !item.is_object() {
            return ;
        }
        let typed = match item.get("type") {
            Some(t) => match t.as_str() {
                Some(s) => crate::text::chars_of(s).len() > 0,
                None => false,
            },
            None => false,
        };
        if !typed {
            return ;
        }
        let raw = match crate::json::json_bytes(item) {
            Some(b) => b,
            None => {
                return ;
            },
        };
        match output_index {
            Some(index) => {
                insert_item_exec(&mut self.output_items, index, raw);
            },
            None => {
                let ghost before = self.unindexed_output_items@;
                let ghost rv = raw@;
                self.unindexed_output_items.push(raw);
                assert(self.unindexed_output_items@.map_values(|x: Vec<u8>| x@) =~= before.map_values(
                    |x: Vec<u8>| x@,
                ).push(rv));
            },
        }
        assert(self.view() =~= spec_record_item(old(self).view(), item.jv(), output_index));
    }

    fn repair_completed_response(&self, response: &Json) -> (r: Json)
        ensures
            r.jv() == spec_repair_completed(self.view(), response.jv()),
    {
        if self.output_items.len() == 0 && self.unindexed_output_items.len() == 0 {
            return response.deep_clone();
        }
        let has_existing = match response.get("output") {
            Some(Json::Array(items)) => {
                proof {
                    lemma_jv_array(*items);
                    lemma_jvs_len(items@);
                }
                items.len() > 0
            },
            Some(_) => true,
            None => false,
        };
        if has_existing {
            return response.deep_clone();
        }
        let mut repaired = response.deep_clone();
        match repaired {
            Json::Object(mut m) => {
                proof {
                    lemma_jv_object(m);
                }
                let output = self.parsed_output();
                set_member_exec(&mut m, String::from_str("output"), output);
                proof {
                    lemma_jv_object(m);
                }
                Json::Object(m)
            },
            other => other,
        }
    }

    /// The recorded items read back as JSON.
    fn parsed_output(&self) -> (r: Json)
        ensures
            r.jv() == JsonV::Array(parsed_items(all_raws(self.view()))),
    {
        let mut raws: Vec<&Vec<u8>> = Vec::new();
        let mut out: Vec<Json> = Vec::new();
        let ghost all = all_raws(self.view());
        let n1 = self.output_items.len();
        let mut i: usize = 0;
        while i < n1
            invariant
                i <= n1,
                n1 == self.output_items@.len(),
                all == all_raws(self.view()),
                jvs(out@) == parsed_items(all.take(i as int)),
            decreases n1 - i,
        {
            let raw = &self.output_items[i].1;
            let ghost before = out@;
            assert(all[i as int] == raw@);
            assert(all.take(i + 1).drop_last() =~= all.take(i as int));
            match parse_json(raw.as_slice()) {
                Some(v) => {
                    proof {
                        lemma_jvs_push(before, v);
                    }
                    out.push(v);
                },
                None => {},
            }
            i = i + 1;
        }
        let n2 = self.unindexed_output_items.len();
        let mut k: usize = 0;
        while k < n2
            invariant
                k <= n2,
                n1 == self.output_items@.len(),
                n2 == self.unindexed_output_items@.len(),
                all == all_raws(self.view()),
                all.len() == n1 + n2,
                jvs(out@) == parsed_items(all.take(n1 + k)),
            decreases n2 - k,
        {
            let raw = &self.unindexed_output_items[k];
            let ghost before = out@;
            assert(all[n1 + k] == raw@);
            assert(all.take(n1 + k + 1).drop_last() =~= all.take(n1 + k));
            match parse_json(raw.as_slice()) {
                Some(v) => {
                    proof {
                        lemma_jvs_push(before, v);
                    }
                    out.push(v);
                },
                None => {},
            }
            k = k + 1;
        }
        assert(all.take(n1 + n2) =~= all);
        proof {
            lemma_jv_array(out);
        }
        Json::Array(out)
    }

    fn repair_frame(&mut self, frame: &[u8]) -> (r: Vec<u8>)
        ensures
            (final(self).view(), r@) == spec_repair_frame(old(self).view(), frame@),
    {
        let event = match ResponsesStreamEventIr::from_sse_frame(frame) {
            Ok(Some(event)) => event,
            Ok(None) => {
                return normalize_sse_frame_bytes(frame);
            },
            Err(_) => {
                return normalize_sse_frame_bytes(frame);
            },
        };
        match event {
            ResponsesStreamEventIr::OutputItemDone(done) => {
                self.record_output_item(&done.item, done.output_index);
            },
            ResponsesStreamEventIr::Completed(completed) => {
                let repaired = self.repair_completed_response(&completed.response);
                if !repaired.same_as(&completed.response) {
                    let payload = match completed.payload {
                        Json::Object(mut m) => {
                            proof {
                                lemma_jv_object(m);
                            }
                            set_member_exec(&mut m, String::from_str("response"), repaired);
                            proof {
                                lemma_jv_object(m);
                            }
                            Json::Object(m)
                        },
                        other => other,
                    };
                    return sse_frame_with_payload(frame, &payload);
                }
            },
            _ => {},
        }
        normalize_sse_frame_bytes(frame)
    }

    fn consume_frame(&mut self, frame: Vec<u8>) -> (r: Option<Vec<u8>>)
        ensures
            (final(self).view(), match r {
                Some(b) => seq![b@],
                None => Seq::<Seq<u8>>::empty(),
            }) == spec_consume(old(self).view(), frame@),
    {
        if is_header_only_sse_frame(frame.as_slice()) {
            let h = trim_sse_frame_terminator(frame.as_slice());
            let mut held: Vec<u8> = Vec::new();
            crate::text::push_bytes(&mut held, h);
            self.pending_header = Some(held);
            assert(self.view() =~= spec_consume(old(self).view(), frame@).0);
            return None;
        }
        let header = self.pending_header.take();
        let merged = match header {
            Some(h) => {
                if sse_has_field(frame.as_slice(), crate::sse::data_prefix_vec().as_slice())
                    && !sse_has_field(frame.as_slice(), crate::sse::event_prefix_vec().as_slice()) {
                    merge_sse_header_and_frame(h.as_slice(), frame.as_slice())
                } else {
                    frame
                }
            },
            None => frame,
        };
        assert(self.view() =~= CoreV { header: None, ..old(self).view() });
        Some(self.repair_frame(merged.as_slice()))
    }
}

/// The incremental framer of the responses stream.
#[derive(Debug, Default)]
pub struct ResponsesSseFramer {
    pending: Vec<u8>,
    core: FramerCore,
}

impl ResponsesSseFramer {
    pub closed spec fn view(&self) -> FramerV {
        FramerV { pending: self.pending@, core: self.core.view() }
    }

    /// A framer with nothing pending and nothing recorded.
    pub fn new() -> (r: Self)
        ensures
            r.view() == (FramerV {
                pending: Seq::empty(),
                core: CoreV { header: None, items: Seq::empty(), unindexed: Seq::empty() },
            }),
    {
        let r = ResponsesSseFramer {
            pending: Vec::new(),
            core: FramerCore {
                pending_header: None,
                output_items: Vec::new(),
                unindexed_output_items: Vec::new(),
            },
        };
        assert(r.view() =~= FramerV {
            pending: Seq::empty(),
            core: CoreV { header: None, items: Seq::empty(), unindexed: Seq::empty() },
        });
        r
    }

    /// Takes in a chunk of upstream bytes and returns the frames it completes.
    pub fn push_chunk(&mut self, chunk: &[u8]) -> (r: Vec<Vec<u8>>)
        ensures
            (final(self).view(), frames_view(r@)) == spec_push_chunk(old(self).view(), chunk@),
    {
        if chunk.len() == 0 {
            let out: Vec<Vec<u8>> = Vec::new();
            assert(frames_view(out@) =~= Seq::<Seq<u8>>::empty());
            return out;
        }
        if sse_needs_line_break(self.pending.as_slice(), chunk) {
            self.pending.push(LF);
        }
        crate::text::push_bytes(&mut self.pending, chunk);
        let ghost p1 = self.pending@;
        let ghost c0 = self.core.view();
        let mut out: Vec<Vec<u8>> = Vec::new();
        loop
            invariant
                spec_drain(c0, p1) == (
                    spec_drain(self.core.view(), self.pending@).0,
                    spec_drain(self.core.view(), self.pending@).1,
                    frames_view(out@) + spec_drain(self.core.view(), self.pending@).2,
                ),
            ensures
                spec_drain(self.core.view(), self.pending@) == (
                    self.core.view(),
                    self.pending@,
                    Seq::<Seq<u8>>::empty(),
                ),
            decreases self.pending@.len(),
        {
            let n = match sse_frame_len(self.pending.as_slice()) {
                Some(n) => n,
                None => {
                    break;
                },
            };
            if n == 0 {
                break;
            }
            let ghost before_out = out@;
            let ghost cur_pending = self.pending@;
            let ghost cur_core = self.core.view();
            let frame = take_front(&mut self.pending, n);
            match self.core.consume_frame(frame) {
                Some(f) => {
                    out.push(f);
                },
                None => {},
            }
            proof {
                let r = spec_consume(cur_core, cur_pending.take(n as int));
                assert(frames_view(out@) =~= frames_view(before_out) + r.1);
            }
        }
        let ghost d = spec_drain(c0, p1);
        assert(frames_view(out@) =~= frames_view(out@) + Seq::<Seq<u8>>::empty());
        assert(self.core.view() == d.0 && self.pending@ == d.1 && frames_view(out@) =~= d.2);
        if self.pending.len() == 0 || all_whitespace(self.pending.as_slice()) {
            self.pending = Vec::new();
            assert(self.view() =~= spec_push_chunk(old(self).view(), chunk@).0);
            return out;
        }
        if sse_can_emit_without_delimiter(self.pending.as_slice()) {
            let mut frame: Vec<u8> = Vec::new();
            std::mem::swap(&mut frame, &mut self.pending);
            let ghost before_out = out@;
            match self.core.consume_frame(frame) {
                Some(f) => {
                    out.push(f);
                },
                None => {},
            }
            assert(frames_view(out@) =~= spec_push_chunk(old(self).view(), chunk@).1);
            assert(self.view() =~= spec_push_chunk(old(self).view(), chunk@).0);
        }
        out
    }

    /// Ends the stream and returns a last frame, if the pending bytes hold one.
    pub fn finish(&mut self) -> (r: Vec<Vec<u8>>)
        ensures
            (final(self).view(), frames_view(r@)) == spec_finish(old(self).view()),
    {
        self.core.pending_header = None;
        let mut out: Vec<Vec<u8>> = Vec::new();
        if self.pending.len() == 0 {
            assert(self.view() =~= spec_finish(old(self).view()).0);
            assert(frames_view(out@) =~= Seq::<Seq<u8>>::empty());
            return out;
        }
        if all_whitespace(self.pending.as_slice()) || !sse_can_emit_without_delimiter(
            self.pending.as_slice(),
        ) {
            self.pending = Vec::new();
            assert(self.view() =~= spec_finish(old(self).view()).0);
            assert(frames_view(out@) =~= Seq::<Seq<u8>>::empty());
            return out;
        }
        let mut frame: Vec<u8> = Vec::new();
        std::mem::swap(&mut frame, &mut self.pending);
        match self.core.consume_frame(frame) {
            Some(f) => {
                out.push(f);
            },
            None => {},
        }
        assert(frames_view(out@) =~= spec_finish(old(self).view()).1);
        assert(self.view() =~= spec_finish(old(self).view()).0);
        out
    }
}

/// Splits off the first `n` bytes.
fn take_front(v: &mut Vec<u8>, n: usize) -> (r: Vec<u8>)
    requires
        n <= old(v)@.len(),
    ensures
        r@ == old(v)@.take(n as int),
        final(v)@ == old(v)@.skip(n as int),
{
    let mut front: Vec<u8> = Vec::new();
    let mut rest: Vec<u8> = Vec::new();
    let mut i: usize = 0;
    while i < v.len()
        invariant
            i <= v@.len(),
            v@ == old(v)@,
            n <= v@.len(),
            i <= n ==> front@ == v@.take(i as int) && rest@ == Seq::<u8>::empty(),
            i > n ==> front@ == v@.take(n as int) && rest@ == v@.subrange(n as int, i as int),
        decreases v@.len() - i,
    {
        if i < n {
            front.push(v[i]);
        } else {
            rest.push(v[i]);
        }
        i = i + 1;
        assert(i <= n ==> front@ =~= v@.take(i as int));
        assert(i > n ==> front@ =~= v@.take(n as int) && rest@ =~= v@.subrange(n as int, i as int));
    }
    proof {
        if v@.len() == n {
            assert(rest@ =~= v@.skip(n as int));
        } else {
            assert(rest@ =~= v@.skip(n as int));
        }
    }
    *v = rest;
    front
}

fn all_whitespace(s: &[u8]) -> (r: bool)
    ensures
        r == all_ascii_ws(s@),
{
    let mut i: usize = 0;
    while i < s.len()
        invariant
            i <= s@.len(),
            forall|k: int| 0 <= k < i ==> crate::sse::is_ascii_ws(s@[k]),
        decreases s@.len() - i,
    {
        let b = s[i];
        if !(b == 32 || b == 9 || b == 10 || b == 12 || b == 13) {
            return false;
        }
        i = i + 1;
    }
    true
}

// ---------------------------------------------------------------------------------------------
// The completed response of a transcript
// ---------------------------------------------------------------------------------------------

/// The JSON of the first `response.completed` event among the frames; an error when a frame's
/// event is malformed or none completes.
pub open spec fn spec_extract_completed(frames: Seq<Seq<u8>>) -> Result<Seq<u8>, Seq<char>>
    decreases frames.len(),
{
    if frames.len() == 0 {
        Err("upstream stream did not produce response.completed"@)
    } else {
        match spec_event(frames[0]) {
            Err(e) => Err(e),
            Ok(Some(EventV::Completed(_, response))) => match spec_json_text(response) {
                Some(t) => Ok(encode_utf8(t)),
                None => Err("failed to write the completed response"@),
            },
            _ => spec_extract_completed(frames.drop_first()),
        }
    }
}

/// The response JSON of a framed and repaired transcript.
pub fn extract_completed_response_from_sse(bytes: &[u8]) -> (r: Result<Vec<u8>, String>)
    ensures
        match spec_extract_completed(crate::sse::spec_frames(bytes@)) {
            Ok(b) => r matches Ok(v) && v@ == b,
            Err(e) => r matches Err(m) && m@ == e,
        },
{
    let frames = crate::sse::sse_frames(bytes);
    let ghost all = frames_view(frames@);
    assert(all =~= crate::sse::spec_frames(bytes@));
    assert(all.skip(0) =~= all);
    let mut i: usize = 0;
    while i < frames.len()
        invariant
            i <= frames@.len(),
            all == frames_view(frames@),
            all == crate::sse::spec_frames(bytes@),
            spec_extract_completed(all) == spec_extract_completed(all.skip(i as int)),
        decreases frames@.len() - i,
    {
        assert(all.skip(i as int)[0] == frames@[i as int]@);
        assert(all.skip(i as int).drop_first() =~= all.skip(i + 1));
        match ResponsesStreamEventIr::from_sse_frame(frames[i].as_slice()) {
            Err(e) => {
                return Err(e);
            },
            Ok(Some(ResponsesStreamEventIr::Completed(completed))) => {
                return match crate::json::json_bytes(&completed.response) {
                    Some(b) => Ok(b),
                    None => Err(String::from_str("failed to write the completed response")),
                };
            },
            Ok(_) => {},
        }
        i = i + 1;
    }
    assert(all.skip(i as int) =~= Seq::<Seq<u8>>::empty());
    Err(String::from_str("upstream stream did not produce response.completed"))
}

/// The frame sent downstream when the upstream stream breaks: a `response.error` event with the
/// message as a JSON string.
pub open spec fn spec_stream_error_frame(message: Seq<char>) -> Seq<u8> {
    let quoted = match spec_json_text(JsonV::Str(message)) {
        Some(t) => t,
        None => "\"upstream stream error\""@,
    };
    encode_utf8("event: response.error\ndata: {\"type\":\"response.error\",\"message\":"@)
        + encode_utf8(quoted) + encode_utf8("}\n\n"@)
}

pub fn stream_error_frame(message: &str) -> (r: Vec<u8>)
    ensures
        r@ == spec_stream_error_frame(message@),
{
    let value = Json::Str(String::from_str(message));
    let quoted = match json_text(&value) {
        Some(t) => t,
        None => String::from_str("\"upstream stream error\""),
    };
    let mut out: Vec<u8> = Vec::new();
    crate::text::push_bytes(
        &mut out,
        "event: response.error\ndata: {\"type\":\"response.error\",\"message\":".as_bytes(),
    );
    crate::text::push_bytes(&mut out, quoted.as_str().as_bytes());
    crate::text::push_bytes(&mut out, "}\n\n".as_bytes());
    out
}

} // verus!

verus! {

/// The state of a stream being folded into one body: the framer and the frames it has given
/// so far, concatenated.
pub struct AggregatorV {
    pub framer: FramerV,
    pub combined: Seq<u8>,
}

/// Folds an upstream stream into the JSON of its completed response: every chunk goes through
/// the framer, whose repaired frames are collected; at the end the completed response is read
/// from them.
#[derive(Debug)]
pub struct StreamAggregator {
    framer: ResponsesSseFramer,
    combined: Vec<u8>,
}

fn append_frames(out: &mut Vec<u8>, frames: &Vec<Vec<u8>>)
    ensures
        final(out)@ == old(out)@ + frames_view(frames@).flatten(),
{
    let ghost start = out@;
    let mut i: usize = 0;
    while i < frames.len()
        invariant
            i <= frames@.len(),
            out@ == start + frames_view(frames@).take(i as int).flatten(),
        decreases frames@.len() - i,
    {
        proof {
            let fs = frames_view(frames@);
            assert(fs.take(i + 1) =~= fs.take(i as int).push(frames@[i as int]@));
            fs.take(i as int).lemma_flatten_push(frames@[i as int]@);
        }
        crate::text::push_bytes(out, frames[i].as_slice());
        i = i + 1;
        assert(out@ =~= start + frames_view(frames@).take(i as int).flatten());
    }
    assert(frames_view(frames@).take(i as int) =~= frames_view(frames@));
}

impl StreamAggregator {
    pub closed spec fn view(&self) -> AggregatorV {
        AggregatorV { framer: self.framer.view(), combined: self.combined@ }
    }

    /// Nothing received yet.
    pub fn new() -> (r: Self)
        ensures
            r.view().framer == (FramerV {
                pending: Seq::empty(),
                core: CoreV { header: None, items: Seq::empty(), unindexed: Seq::empty() },
            }),
            r.view().combined == Seq::<u8>::empty(),
    {
        StreamAggregator { framer: ResponsesSseFramer::new(), combined: Vec::new() }
    }

    /// Takes in a chunk; returns the frames it completes, which are also collected.
    pub fn push_chunk(&mut self, chunk: &[u8]) -> (r: Vec<Vec<u8>>)
        ensures
            (final(self).view().framer, frames_view(r@)) == spec_push_chunk(
                old(self).view().framer,
                chunk@,
            ),
            final(self).view().combined == old(self).view().combined + frames_view(r@).flatten(),
    {
        let frames = self.framer.push_chunk(chunk);
        append_frames(&mut self.combined, &frames);
        frames
    }

    /// Ends the stream: the last frames, and the completed response read from everything
    /// collected.
    pub fn finish(self) -> (r: (Vec<Vec<u8>>, Result<Vec<u8>, String>))
        ensures
            frames_view(r.0@) == spec_finish(self.view().framer).1,
            match spec_extract_completed(
                crate::sse::spec_frames(self.view().combined + frames_view(r.0@).flatten()),
            ) {
                Ok(b) => r.1 matches Ok(v) && v@ == b,
                Err(e) => r.1 matches Err(m) && m@ == e,
            },
    {
        let mut framer = self.framer;
        let mut combined = self.combined;
        let last = framer.finish();
        append_frames(&mut combined, &last);
        let body = extract_completed_response_from_sse(combined.as_slice());
        (last, body)
    }
}

} // verus!

verus! {

/// Whether a frame ends with a blank line, written as `\n\n` or `\r\n\r\n`.
pub open spec fn delimited(f: Seq<u8>) -> bool {
    crate::sse::bytes_end_with(f, crate::sse::lflf()) || crate::sse::bytes_end_with(
        f,
        crate::sse::crlfcrlf(),
    )
}

pub open spec fn all_delimited(fs: Seq<Seq<u8>>) -> bool {
    forall|i: int| 0 <= i < fs.len() ==> delimited(#[trigger] fs[i])
}

proof fn lemma_normalize_delimited(f: Seq<u8>)
    ensures
        delimited(spec_normalize(f)),
{
    if !delimited(f) {
        let g = f + crate::sse::lflf();
        assert(g.skip(g.len() - 2) =~= crate::sse::lflf());
    }
}

proof fn lemma_repair_delimited(c: CoreV, f: Seq<u8>)
    ensures
        delimited(spec_repair_frame(c, f).1),
{
    lemma_normalize_delimited(f);
    match spec_event(f) {
        Ok(Some(EventV::Completed(payload, response))) => {
            let rep = spec_repair_completed(c, response);
            if rep != response {
                let p2 = match payload {
                    JsonV::Object(m) => JsonV::Object(set_member(m, "response"@, rep)),
                    _ => payload,
                };
                let g = spec_frame_with_payload(f, p2);
                assert(g.skip(g.len() - 2) =~= crate::sse::lflf());
            }
        },
        _ => {},
    }
}

proof fn lemma_consume_delimited(c: CoreV, f: Seq<u8>)
    ensures
        all_delimited(spec_consume(c, f).1),
{
    if !spec_header_only(f) {
        let merged = match c.header {
            Some(h) => if spec_has_field(f, data_prefix()) && !spec_has_field(f, event_prefix()) {
                spec_merge(h, f)
            } else {
                f
            },
            None => f,
        };
        lemma_repair_delimited(CoreV { header: None, ..c }, merged);
    }
}

proof fn lemma_drain_delimited(c: CoreV, pending: Seq<u8>)
    ensures
        all_delimited(spec_drain(c, pending).2),
    decreases pending.len(),
{
    match spec_frame_len(pending) {
        Some(n) if 0 < n <= pending.len() => {
            let r = spec_consume(c, pending.take(n));
            lemma_consume_delimited(c, pending.take(n));
            lemma_drain_delimited(r.0, pending.skip(n));
            let d = spec_drain(r.0, pending.skip(n));
            assert forall|i: int| 0 <= i < (r.1 + d.2).len() implies delimited(
                #[trigger] (r.1 + d.2)[i],
            ) by {
                if i < r.1.len() {
                    assert((r.1 + d.2)[i] == r.1[i]);
                } else {
                    assert((r.1 + d.2)[i] == d.2[i - r.1.len()]);
                }
            }
        },
        _ => {},
    }
}

/// Every frame the framer hands out ends with a blank line, whatever the upstream sends: taking
/// in a chunk and ending the stream both give only delimited frames.
pub proof fn law_framer_emits_delimited_frames(st: FramerV, chunk: Seq<u8>)
    ensures
        all_delimited(spec_push_chunk(st, chunk).1),
        all_delimited(spec_finish(st).1),
{
    if chunk.len() > 0 {
        let p1 = if spec_needs_line_break(st.pending, chunk) {
            st.pending.push(LF)
        } else {
            st.pending
        } + chunk;
        let d = spec_drain(st.core, p1);
        lemma_drain_delimited(st.core, p1);
        if !all_ascii_ws(d.1) && d.1.len() > 0 && spec_can_emit_without_delimiter(d.1) {
            let r = spec_consume(d.0, d.1);
            lemma_consume_delimited(d.0, d.1);
            assert forall|i: int| 0 <= i < (d.2 + r.1).len() implies delimited(
                #[trigger] (d.2 + r.1)[i],
            ) by {
                if i < d.2.len() {
                    assert((d.2 + r.1)[i] == d.2[i]);
                } else {
                    assert((d.2 + r.1)[i] == r.1[i - d.2.len()]);
                }
            }
        }
    }
    lemma_consume_delimited(CoreV { header: None, ..st.core }, st.pending);
}

} // verus!
