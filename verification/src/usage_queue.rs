//! The in-process usage queue. With subscribers on the usage channel a record goes straight to
//! them and is not buffered; without any it is kept, and LPOP / RPOP take the oldest records
//! first. The errors channel only streams to its subscribers.
use vstd::prelude::*;
use std::collections::VecDeque;
use tokio::sync::mpsc::{Receiver, Sender};
use crate::redis_protocol::QueueChannel;
use crate::json::{jvs, lemma_jvs_push, parse_json, spec_json_parse, Json, JsonV};
use crate::text::{lossy_text, push_bytes, utf8_lossy};
use vstd::utf8::encode_utf8;

verus! {

#[verifier::external_type_specification]
#[verifier::external_body]
#[verifier::reject_recursive_types(T)]
pub struct ExSender<T>(Sender<T>);

#[verifier::external_type_specification]
#[verifier::external_body]
#[verifier::reject_recursive_types(T)]
pub struct ExReceiver<T>(Receiver<T>);

/// How many records a subscriber may have waiting before it is dropped.
pub const SUBSCRIBER_BUFFER: usize = 256;

/// The first message of a usage subscription.
pub const USAGE_SUPPORT_REFRESH_PAYLOAD: &'static str = "{\"support_refresh\":true}";

/// The message that tells usage subscribers to refresh.
pub const USAGE_REFRESH_PAYLOAD: &'static str = "{\"refresh\":true}";

/// A bounded channel from `tokio::sync::mpsc::channel`, which panics on a zero or oversized
/// capacity; nothing is claimed of the pair.
#[verifier::external_body]
fn new_channel(buffer: usize) -> (Sender<Vec<u8>>, Receiver<Vec<u8>>)
    requires
        0 < buffer <= 0x1fff_ffff,
{
    tokio::sync::mpsc::channel(buffer)
}

/// `Sender::try_send`: whether the message was queued. It fails when the subscriber's buffer is
/// full or its receiver is gone, which depends on the other side; nothing is claimed.
#[verifier::external_body]
fn try_send(sender: &Sender<Vec<u8>>, payload: Vec<u8>) -> bool {
    sender.try_send(payload).is_ok()
}

/// A subscriber of a channel: its id, the sending side of its channel, and the records its
/// channel has taken since it subscribed.
struct Subscriber {
    id: u64,
    tx: Sender<Vec<u8>>,
    got: Ghost<Seq<Seq<u8>>>,
}

/// The queue: buffered records, oldest first, and the subscribers of each channel.
pub struct UsageQueue {
    items: VecDeque<Vec<u8>>,
    subscribers: Vec<Subscriber>,
    error_subscribers: Vec<Subscriber>,
    next_subscriber_id: u64,
}

/// The queue as values: the buffered records, and for each channel the ids of its subscribers
/// with, position for position, the records each subscriber's channel has taken.
pub struct QueueModel {
    pub items: Seq<Seq<u8>>,
    pub usage: Seq<u64>,
    pub usage_got: Seq<Seq<Seq<u8>>>,
    pub errors: Seq<u64>,
    pub errors_got: Seq<Seq<Seq<u8>>>,
    pub next_id: u64,
}

/// Every live subscriber's id is below the next id to hand out, so that id is new.
pub open spec fn ids_below_next(m: QueueModel) -> bool {
    &&& forall|i: int| 0 <= i < m.usage.len() ==> #[trigger] m.usage[i] < m.next_id
    &&& forall|i: int| 0 <= i < m.errors.len() ==> #[trigger] m.errors[i] < m.next_id
}

/// What a new subscriber's channel has taken: nothing, or the initial message when there is
/// one and the channel took it.
pub open spec fn initial_log(g: Seq<Seq<u8>>, initial: Option<Vec<u8>>) -> bool {
    g == Seq::<Seq<u8>>::empty() || match initial {
        Some(p) => g == seq![p@],
        None => false,
    }
}

/// The id handed out after `id` (the counter wraps at the top of `u64`).
pub open spec fn id_after(id: u64) -> u64 {
    if id < u64::MAX {
        (id + 1) as u64
    } else {
        0
    }
}

/// The id counter stays as it was, and if every live id was below it, every live id still is.
pub open spec fn ids_kept(after: QueueModel, before: QueueModel) -> bool {
    &&& after.next_id == before.next_id
    &&& ids_below_next(before) ==> ids_below_next(after)
}

spec fn ids_of(v: Seq<Subscriber>) -> Seq<u64> {
    v.map_values(|e: Subscriber| e.id)
}

spec fn gots_of(v: Seq<Subscriber>) -> Seq<Seq<Seq<u8>>> {
    v.map_values(|e: Subscriber| e.got@)
}

/// Some subscriber of `ids0` has the id `id`, and `g` is what its channel had taken followed by
/// `payload`.
pub open spec fn taken_from(
    ids0: Seq<u64>,
    got0: Seq<Seq<Seq<u8>>>,
    id: u64,
    g: Seq<Seq<u8>>,
    payload: Seq<u8>,
) -> bool {
    exists|j: int| 0 <= j < ids0.len() && ids0[j] == id && g == #[trigger] got0[j].push(payload)
}

/// After `payload` is offered on a channel: no subscriber is added, and each subscriber that
/// stays was one before, and its channel took `payload` after what it had taken.
pub open spec fn handed_on(
    ids: Seq<u64>,
    got: Seq<Seq<Seq<u8>>>,
    ids0: Seq<u64>,
    got0: Seq<Seq<Seq<u8>>>,
    payload: Seq<u8>,
) -> bool {
    &&& ids.len() == got.len()
    &&& ids.len() <= ids0.len()
    &&& forall|i: int| 0 <= i < ids.len() ==> taken_from(ids0, got0, #[trigger] ids[i], got[i], payload)
}

/// The subscribers of `after` are among the first `upto` of `before`, each having taken
/// `payload` after what it had taken there.
spec fn handed_raw(after: Seq<Subscriber>, before: Seq<Subscriber>, upto: int, payload: Seq<u8>) -> bool {
    &&& after.len() <= upto
    &&& forall|k: int|
        0 <= k < after.len() ==> exists|j: int|
            #![trigger before[j]]
            0 <= j < upto && before[j].id == #[trigger] after[k].id && after[k].got@
                == before[j].got@.push(payload)
}

proof fn lemma_handed_below(
    ids: Seq<u64>,
    got: Seq<Seq<Seq<u8>>>,
    ids0: Seq<u64>,
    got0: Seq<Seq<Seq<u8>>>,
    payload: Seq<u8>,
    n: u64,
)
    requires
        handed_on(ids, got, ids0, got0, payload),
        forall|i: int| 0 <= i < ids0.len() ==> #[trigger] ids0[i] < n,
    ensures
        forall|i: int| 0 <= i < ids.len() ==> #[trigger] ids[i] < n,
{
    assert forall|i: int| 0 <= i < ids.len() implies #[trigger] ids[i] < n by {
        assert(taken_from(ids0, got0, ids[i], got[i], payload));
        let j = choose|j: int|
            0 <= j < ids0.len() && ids0[j] == ids[i] && got[i] == #[trigger] got0[j].push(payload);
        assert(ids0[j] < n);
    }
}

proof fn lemma_filter_below(s: Seq<u64>, pred: spec_fn(u64) -> bool, n: u64)
    requires
        forall|i: int| 0 <= i < s.len() ==> #[trigger] s[i] < n,
    ensures
        forall|i: int| 0 <= i < s.filter(pred).len() ==> #[trigger] s.filter(pred)[i] < n,
    decreases s.len(),
{
    reveal(Seq::filter);
    if s.len() > 0 {
        let d = s.drop_last();
        assert forall|i: int| 0 <= i < d.len() implies #[trigger] d[i] < n by {
            assert(d[i] == s[i]);
        }
        lemma_filter_below(d, pred, n);
        assert(s.filter(pred) == if pred(s.last()) {
            d.filter(pred).push(s.last())
        } else {
            d.filter(pred)
        });
    }
}

proof fn lemma_handed(after: Seq<Subscriber>, before: Seq<Subscriber>, payload: Seq<u8>)
    requires
        handed_raw(after, before, before.len() as int, payload),
    ensures
        handed_on(ids_of(after), gots_of(after), ids_of(before), gots_of(before), payload),
{
    assert forall|i: int| 0 <= i < ids_of(after).len() implies taken_from(
        ids_of(before),
        gots_of(before),
        #[trigger] ids_of(after)[i],
        gots_of(after)[i],
        payload,
    ) by {
        assert(after[i].id == ids_of(after)[i]);
        let j = choose|j: int|
            #![trigger before[j]]
            0 <= j < before.len() && before[j].id == after[i].id && after[i].got@ == before[j].got@.push(
                payload,
            );
        assert(ids_of(before)[j] == before[j].id);
        assert(gots_of(before)[j] == before[j].got@);
        assert(gots_of(after)[i] == after[i].got@);
    }
    assert(ids_of(after).len() == gots_of(after).len());
    assert(ids_of(after).len() <= ids_of(before).len());
}

/// The records that stay buffered after `payload` is enqueued.
pub open spec fn buffered_after(m: QueueModel, payload: Seq<u8>) -> Seq<Seq<u8>> {
    if payload.len() == 0 || m.usage.len() > 0 {
        m.items
    } else {
        m.items.push(payload)
    }
}

/// How many records a pop of `count` takes.
/// A buffered record as JSON: the value it parses to, else its text.
pub open spec fn record_json(b: Seq<u8>) -> JsonV {
    json_or_text(spec_json_parse(b), b)
}

/// The parsed value when there is one, else the text of the bytes.
pub open spec fn json_or_text(parsed: Option<JsonV>, b: Seq<u8>) -> JsonV {
    match parsed {
        Some(v) => v,
        None => JsonV::Str(lossy_text(b)),
    }
}

/// What follows parsing a record: the parsed value, else the record's text.
pub fn record_value(parsed: Option<Json>, bytes: &[u8]) -> (r: Json)
    ensures
        r.jv() == json_or_text(
            match parsed {
                Some(j) => Some(j.jv()),
                None => None,
            },
            bytes@,
        ),
{
    match parsed {
        Some(j) => j,
        None => Json::Str(utf8_lossy(bytes)),
    }
}

/// A record read as JSON.
pub fn record_as_json(bytes: &[u8]) -> (r: Json)
    ensures
        r.jv() == record_json(bytes@),
{
    let parsed = parse_json(bytes);
    record_value(parsed, bytes)
}

pub open spec fn pop_len(m: QueueModel, count: usize) -> int {
    if count < m.items.len() {
        count as int
    } else {
        m.items.len() as int
    }
}

impl UsageQueue {
    pub closed spec fn model(&self) -> QueueModel {
        QueueModel {
            items: self.items@.map_values(|v: Vec<u8>| v@),
            usage: ids_of(self.subscribers@),
            usage_got: gots_of(self.subscribers@),
            errors: ids_of(self.error_subscribers@),
            errors_got: gots_of(self.error_subscribers@),
            next_id: self.next_subscriber_id,
        }
    }

    /// An empty queue with no subscribers.
    pub fn new() -> (r: Self)
        ensures
            r.model().items == Seq::<Seq<u8>>::empty(),
            r.model().usage == Seq::<u64>::empty(),
            r.model().errors == Seq::<u64>::empty(),
            r.model().next_id == 1,
            ids_below_next(r.model()),
    {
        let r = UsageQueue {
            items: VecDeque::new(),
            subscribers: Vec::new(),
            error_subscribers: Vec::new(),
            next_subscriber_id: 1,
        };
        assert(r.model().items =~= Seq::<Seq<u8>>::empty());
        assert(r.model().usage =~= Seq::<u64>::empty());
        assert(r.model().errors =~= Seq::<u64>::empty());
        r
    }

    /// Offers `payload` to each subscriber and keeps those whose channel took it.
    fn broadcast(list: &mut Vec<Subscriber>, payload: &Vec<u8>)
        ensures
            handed_raw(final(list)@, old(list)@, old(list)@.len() as int, payload@),
    {
        let mut kept: Vec<Subscriber> = Vec::new();
        let mut rest: Vec<Subscriber> = Vec::new();
        std::mem::swap(list, &mut rest);
        let ghost orig = rest@;
        let mut i: usize = 0;
        let n = rest.len();
        while rest.len() > 0
            invariant
                i + rest@.len() == n,
                n == orig.len(),
                rest@ == orig.subrange(i as int, n as int),
                handed_raw(kept@, orig, i as int, payload@),
            decreases rest@.len(),
        {
            let entry = rest.remove(0);
            assert(entry == orig[i as int]);
            let ghost before = kept@;
            if try_send(&entry.tx, payload.clone()) {
                let Subscriber { id, tx, got } = entry;
                kept.push(Subscriber { id, tx, got: Ghost(got@.push(payload@)) });
            }
            assert forall|k: int| 0 <= k < kept@.len() implies exists|j: int|
                #![trigger orig[j]]
                0 <= j < i + 1 && orig[j].id == #[trigger] kept@[k].id && kept@[k].got@
                    == orig[j].got@.push(payload@) by {
                if k < before.len() {
                    assert(kept@[k] == before[k]);
                } else {
                    assert(orig[i as int].id == kept@[k].id);
                }
            }
            assert(rest@ =~= orig.subrange(i + 1, n as int));
            i = i + 1;
        }
        *list = kept;
    }

    /// Enqueues a usage record: dropped when empty, streamed to the usage subscribers when
    /// there are any (keeping those that took it), else buffered.
    pub fn enqueue_raw(&mut self, payload: Vec<u8>)
        ensures
            ids_kept(final(self).model(), old(self).model()),
            final(self).model().items == buffered_after(old(self).model(), payload@),
            payload@.len() == 0 || old(self).model().usage.len() == 0 ==> final(self).model().usage
                == old(self).model().usage && final(self).model().usage_got == old(
                self,
            ).model().usage_got,
            payload@.len() > 0 && old(self).model().usage.len() > 0 ==> handed_on(
                final(self).model().usage,
                final(self).model().usage_got,
                old(self).model().usage,
                old(self).model().usage_got,
                payload@,
            ),
            final(self).model().errors == old(self).model().errors,
            final(self).model().errors_got == old(self).model().errors_got,
    {
        if payload.len() == 0 {
            return ;
        }
        if self.subscribers.len() > 0 {
            let ghost before = self.subscribers@;
            Self::broadcast(&mut self.subscribers, &payload);
            proof {
                lemma_handed(self.subscribers@, before, payload@);
                let m0 = old(self).model();
                let m1 = self.model();
                if ids_below_next(m0) {
                    lemma_handed_below(m1.usage, m1.usage_got, m0.usage, m0.usage_got, payload@, m0.next_id);
                    assert(m1.next_id == m0.next_id);
                    assert(m1.errors == m0.errors);
                    assert(ids_below_next(m1));
                }
            }
            return ;
        }
        let ghost before = self.items@;
        self.items.push_back(payload);
        assert(self.model().items =~= before.map_values(|v: Vec<u8>| v@).push(payload@));
        assert(self.model().usage == old(self).model().usage);
        assert(self.model().errors == old(self).model().errors);
    }

    /// Takes up to `count` of the oldest records, oldest first, each read as JSON.
    pub fn pop_oldest_json(&mut self, count: usize) -> (r: Vec<Json>)
        ensures
            ids_kept(final(self).model(), old(self).model()),
            jvs(r@) == old(self).model().items.take(pop_len(old(self).model(), count)).map_values(
                |b: Seq<u8>| record_json(b),
            ),
            final(self).model().items == old(self).model().items.skip(
                pop_len(old(self).model(), count),
            ),
            final(self).model().usage == old(self).model().usage,
            final(self).model().errors == old(self).model().errors,
    {
        let raw = self.pop_oldest(count);
        let ghost taken = raw@.map_values(|v: Vec<u8>| v@);
        let mut out: Vec<Json> = Vec::new();
        let mut i: usize = 0;
        while i < raw.len()
            invariant
                i <= raw@.len(),
                taken == raw@.map_values(|v: Vec<u8>| v@),
                jvs(out@) == taken.take(i as int).map_values(|b: Seq<u8>| record_json(b)),
            decreases raw@.len() - i,
        {
            let j = record_as_json(raw[i].as_slice());
            proof {
                lemma_jvs_push(out@, j);
                assert(taken.take(i + 1) =~= taken.take(i as int).push(raw@[i as int]@));
            }
            out.push(j);
            i = i + 1;
            assert(jvs(out@) =~= taken.take(i as int).map_values(|b: Seq<u8>| record_json(b)));
        }
        assert(taken.take(i as int) =~= taken);
        out
    }

    /// Takes up to `count` of the oldest records, oldest first.
    pub fn pop_oldest(&mut self, count: usize) -> (r: Vec<Vec<u8>>)
        ensures
            ids_kept(final(self).model(), old(self).model()),
            r@.map_values(|v: Vec<u8>| v@) == old(self).model().items.take(
                pop_len(old(self).model(), count),
            ),
            final(self).model().items == old(self).model().items.skip(
                pop_len(old(self).model(), count),
            ),
            final(self).model().usage == old(self).model().usage,
            final(self).model().usage_got == old(self).model().usage_got,
            final(self).model().errors == old(self).model().errors,
            final(self).model().errors_got == old(self).model().errors_got,
    {
        let ghost orig = self.items@;
        let take = if count < self.items.len() {
            count
        } else {
            self.items.len()
        };
        let mut out: Vec<Vec<u8>> = Vec::new();
        let mut i: usize = 0;
        while i < take
            invariant
                i <= take <= orig.len(),
                self.items@ == orig.skip(i as int),
                out@ == orig.take(i as int),
                self.subscribers@ == old(self).subscribers@,
                self.error_subscribers@ == old(self).error_subscribers@,
                self.next_subscriber_id == old(self).next_subscriber_id,
            decreases take - i,
        {
            let item = self.items.pop_front().unwrap();
            out.push(item);
            i = i + 1;
            assert(self.items@ =~= orig.skip(i as int));
            assert(out@ =~= orig.take(i as int));
        }
        assert(out@.map_values(|v: Vec<u8>| v@) =~= orig.map_values(|v: Vec<u8>| v@).take(
            take as int,
        ));
        assert(self.model().items =~= orig.map_values(|v: Vec<u8>| v@).skip(take as int));
        assert(self.model().next_id == old(self).model().next_id);
        assert(self.model().usage == old(self).model().usage);
        assert(self.model().errors == old(self).model().errors);
        out
    }

    fn subscribe_channel(&mut self, initial_payload: Option<Vec<u8>>, channel: QueueChannel) -> (r: (
        u64,
        Receiver<Vec<u8>>,
    ))
        ensures
            final(self).model().items == old(self).model().items,
            channel == QueueChannel::Usage ==> final(self).model().usage == old(
                self,
            ).model().usage.push(r.0) && final(self).model().errors == old(self).model().errors,
            channel == QueueChannel::Errors ==> final(self).model().errors == old(
                self,
            ).model().errors.push(r.0) && final(self).model().usage == old(self).model().usage,
            r.0 == old(self).model().next_id,
            final(self).model().next_id == id_after(old(self).model().next_id),
            ids_below_next(old(self).model()) ==> !old(self).model().usage.contains(r.0)
                && !old(self).model().errors.contains(r.0),
            ids_below_next(old(self).model()) && old(self).model().next_id < u64::MAX
                ==> ids_below_next(final(self).model()),
            exists|g: Seq<Seq<u8>>|
                {
                    &&& initial_log(g, initial_payload)
                    &&& channel == QueueChannel::Usage ==> final(self).model().usage_got == old(
                        self,
                    ).model().usage_got.push(g) && final(self).model().errors_got == old(
                        self,
                    ).model().errors_got
                    &&& channel == QueueChannel::Errors ==> final(self).model().errors_got == old(
                        self,
                    ).model().errors_got.push(g) && final(self).model().usage_got == old(
                        self,
                    ).model().usage_got
                },
    {
        let (tx, rx) = new_channel(SUBSCRIBER_BUFFER);
        let mut got: Ghost<Seq<Seq<u8>>> = Ghost(Seq::empty());
        if let Some(payload) = initial_payload {
            let ghost p = payload@;
            if try_send(&tx, payload) {
                proof {
                    got@ = seq![p];
                }
            }
        }
        let id = self.next_subscriber_id;
        self.next_subscriber_id = self.next_subscriber_id.wrapping_add(1);
        match channel {
            QueueChannel::Usage => {
                self.subscribers.push(Subscriber { id, tx, got });
                assert(ids_of(self.subscribers@) =~= ids_of(old(self).subscribers@).push(id));
                assert(gots_of(self.subscribers@) =~= gots_of(old(self).subscribers@).push(got@));
            },
            QueueChannel::Errors => {
                self.error_subscribers.push(Subscriber { id, tx, got });
                assert(ids_of(self.error_subscribers@) =~= ids_of(old(self).error_subscribers@).push(
                    id,
                ));
                assert(gots_of(self.error_subscribers@) =~= gots_of(old(self).error_subscribers@).push(
                    got@,
                ));
            },
        }
        proof {
            let m0 = old(self).model();
            if ids_below_next(m0) {
                assert(!m0.usage.contains(id)) by {
                    if m0.usage.contains(id) {
                        let k = choose|k: int| 0 <= k < m0.usage.len() && m0.usage[k] == id;
                        assert(m0.usage[k] < m0.next_id);
                    }
                }
                assert(!m0.errors.contains(id)) by {
                    if m0.errors.contains(id) {
                        let k = choose|k: int| 0 <= k < m0.errors.len() && m0.errors[k] == id;
                        assert(m0.errors[k] < m0.next_id);
                    }
                }
            }
            assert(initial_log(got@, initial_payload));
        }
        (id, rx)
    }

    /// Subscribes to usage records; the support-refresh message comes first.
    pub fn subscribe_usage(&mut self) -> (r: (u64, Receiver<Vec<u8>>))
        ensures
            final(self).model().items == old(self).model().items,
            final(self).model().usage == old(self).model().usage.push(r.0),
            final(self).model().errors == old(self).model().errors,
            r.0 == old(self).model().next_id,
            final(self).model().next_id == id_after(old(self).model().next_id),
            ids_below_next(old(self).model()) ==> !old(self).model().usage.contains(r.0)
                && !old(self).model().errors.contains(r.0),
            ids_below_next(old(self).model()) && old(self).model().next_id < u64::MAX
                ==> ids_below_next(final(self).model()),
            final(self).model().errors_got == old(self).model().errors_got,
            final(self).model().usage_got == old(self).model().usage_got.push(Seq::empty())
                || final(self).model().usage_got == old(self).model().usage_got.push(
                seq![encode_utf8(USAGE_SUPPORT_REFRESH_PAYLOAD@)],
            ),
    {
        let mut initial: Vec<u8> = Vec::new();
        push_bytes(&mut initial, USAGE_SUPPORT_REFRESH_PAYLOAD.as_bytes());
        self.subscribe_channel(Some(initial), QueueChannel::Usage)
    }

    /// Subscribes to error events.
    pub fn subscribe_errors(&mut self) -> (r: (u64, Receiver<Vec<u8>>))
        ensures
            final(self).model().items == old(self).model().items,
            final(self).model().errors == old(self).model().errors.push(r.0),
            final(self).model().usage == old(self).model().usage,
            r.0 == old(self).model().next_id,
            final(self).model().next_id == id_after(old(self).model().next_id),
            ids_below_next(old(self).model()) ==> !old(self).model().usage.contains(r.0)
                && !old(self).model().errors.contains(r.0),
            ids_below_next(old(self).model()) && old(self).model().next_id < u64::MAX
                ==> ids_below_next(final(self).model()),
            final(self).model().usage_got == old(self).model().usage_got,
            final(self).model().errors_got == old(self).model().errors_got.push(Seq::empty()),
    {
        self.subscribe_channel(None, QueueChannel::Errors)
    }

    /// Streams `payload` to the subscribers of `channel`, keeping those that took it; nothing
    /// is buffered.
    pub fn publish_raw(&mut self, payload: Vec<u8>, channel: QueueChannel)
        ensures
            ids_kept(final(self).model(), old(self).model()),
            final(self).model().items == old(self).model().items,
            channel == QueueChannel::Usage ==> handed_on(
                final(self).model().usage,
                final(self).model().usage_got,
                old(self).model().usage,
                old(self).model().usage_got,
                payload@,
            ) && final(self).model().errors == old(self).model().errors && final(self).model().errors_got == old(self).model().errors_got,
            channel == QueueChannel::Errors ==> handed_on(
                final(self).model().errors,
                final(self).model().errors_got,
                old(self).model().errors,
                old(self).model().errors_got,
                payload@,
            ) && final(self).model().usage == old(self).model().usage && final(self).model().usage_got == old(self).model().usage_got,
    {
        match channel {
            QueueChannel::Usage => {
                let ghost before = self.subscribers@;
                Self::broadcast(&mut self.subscribers, &payload);
                proof {
                    lemma_handed(self.subscribers@, before, payload@);
                    let m0 = old(self).model();
                    let m1 = self.model();
                    if ids_below_next(m0) {
                        lemma_handed_below(m1.usage, m1.usage_got, m0.usage, m0.usage_got, payload@, m0.next_id);
                    assert(m1.next_id == m0.next_id);
                    assert(m1.errors == m0.errors);
                    assert(ids_below_next(m1));
                    }
                }
            },
            QueueChannel::Errors => {
                let ghost before = self.error_subscribers@;
                Self::broadcast(&mut self.error_subscribers, &payload);
                proof {
                    lemma_handed(self.error_subscribers@, before, payload@);
                    let m0 = old(self).model();
                    let m1 = self.model();
                    if ids_below_next(m0) {
                        lemma_handed_below(m1.errors, m1.errors_got, m0.errors, m0.errors_got, payload@, m0.next_id);
                    assert(m1.next_id == m0.next_id);
                    assert(m1.usage == m0.usage);
                    assert(ids_below_next(m1));
                    }
                }
            },
        }
    }

    /// Tells the usage subscribers to refresh.
    pub fn notify_refresh(&mut self)
        ensures
            ids_kept(final(self).model(), old(self).model()),
            final(self).model().items == old(self).model().items,
            handed_on(
                final(self).model().usage,
                final(self).model().usage_got,
                old(self).model().usage,
                old(self).model().usage_got,
                encode_utf8(USAGE_REFRESH_PAYLOAD@),
            ),
            final(self).model().errors == old(self).model().errors,
            final(self).model().errors_got == old(self).model().errors_got,
    {
        let mut payload: Vec<u8> = Vec::new();
        push_bytes(&mut payload, USAGE_REFRESH_PAYLOAD.as_bytes());
        self.publish_raw(payload, QueueChannel::Usage)
    }

    /// Drops the subscriber `id` of `channel`.
    pub fn unsubscribe(&mut self, id: u64, channel: QueueChannel)
        ensures
            ids_kept(final(self).model(), old(self).model()),
            final(self).model().items == old(self).model().items,
            channel == QueueChannel::Usage ==> final(self).model().usage == old(
                self,
            ).model().usage.filter(|x: u64| x != id) && final(self).model().errors == old(
                self,
            ).model().errors,
            channel == QueueChannel::Errors ==> final(self).model().errors == old(
                self,
            ).model().errors.filter(|x: u64| x != id) && final(self).model().usage == old(
                self,
            ).model().usage,
    {
        match channel {
            QueueChannel::Usage => Self::remove_id(&mut self.subscribers, id),
            QueueChannel::Errors => Self::remove_id(&mut self.error_subscribers, id),
        }
        proof {
            let m0 = old(self).model();
            if ids_below_next(m0) {
                lemma_filter_below(m0.usage, |x: u64| x != id, m0.next_id);
                lemma_filter_below(m0.errors, |x: u64| x != id, m0.next_id);
            }
        }
    }

    fn remove_id(list: &mut Vec<Subscriber>, id: u64)
        ensures
            ids_of(final(list)@) == ids_of(old(list)@).filter(|x: u64| x != id),
    {
        let mut kept: Vec<Subscriber> = Vec::new();
        let mut rest: Vec<Subscriber> = Vec::new();
        std::mem::swap(list, &mut rest);
        let ghost orig = rest@;
        let n = rest.len();
        let mut i: usize = 0;
        while rest.len() > 0
            invariant
                i + rest@.len() == n,
                n == orig.len(),
                rest@ == orig.subrange(i as int, n as int),
                ids_of(kept@) == ids_of(orig.take(i as int)).filter(|x: u64| x != id),
            decreases rest@.len(),
        {
            let entry = rest.remove(0);
            proof {
                let o = ids_of(orig.take(i + 1));
                assert(o =~= ids_of(orig.take(i as int)).push(orig[i as int].id));
                reveal(Seq::filter);
                assert(o.drop_last() =~= ids_of(orig.take(i as int)));
                assert(o.last() == orig[i as int].id);
            }
            let ghost before = kept@;
            if entry.id != id {
                let eid = entry.id;
                kept.push(entry);
                assert(ids_of(kept@) =~= ids_of(before).push(eid));
            }
            assert(rest@ =~= orig.subrange(i + 1, n as int));
            i = i + 1;
        }
        assert(orig.take(i as int) =~= orig);
        *list = kept;
    }
}

/// Records enqueued while nobody subscribes come out oldest first: popping as many records as
/// are buffered, after enqueuing one more, gives the earlier records followed by that one.
pub proof fn law_fifo(m: QueueModel, payload: Seq<u8>)
    requires
        m.usage.len() == 0,
        payload.len() > 0,
    ensures
        buffered_after(m, payload) == m.items.push(payload),
        buffered_after(m, payload).take(m.items.len() as int) == m.items,
        buffered_after(m, payload)[m.items.len() as int] == payload,
{
    assert(m.items.push(payload).take(m.items.len() as int) =~= m.items);
}

/// While anybody subscribes to usage, enqueued records are never buffered.
pub proof fn law_subscribers_bypass_buffer(m: QueueModel, payload: Seq<u8>)
    requires
        m.usage.len() > 0,
    ensures
        buffered_after(m, payload) == m.items,
{
}

} // verus!
