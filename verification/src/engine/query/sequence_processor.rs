//! Temporal joins of two event streams: every event of the second stream is
//! joined with the first-stream events that arrived before it.
//!
//! A *pattern* keeps first-stream events across matches; a *sequence* drops
//! them once a second-stream event was matched. Joined events carry the
//! first event's attributes followed by the second's. Events go out in the
//! order in which they are produced; forwarding them to the next processor
//! is the caller's part.

use vstd::prelude::*;
use crate::engine::event::{AttributeValue, AttrView, Event, attr_views, event_view, events_view, copy_event};
use crate::engine::table::rows::copy_value;

verus! {

/// Whether first-stream events survive a match.
#[derive(Debug, Clone, Copy, PartialEq, Eq, Structural)]
pub enum SequenceType {
    Pattern,
    Sequence,
}

/// The input stream an event arrives on.
#[derive(Debug, Clone, Copy, PartialEq, Eq, Structural)]
pub enum SequenceSide {
    First,
    Second,
}

/// `e`'s timestamp and values, where there is an event.
pub open spec fn opt_event_view(e: Option<&Event>) -> Option<(i64, Seq<AttrView>)> {
    match e {
        Some(x) => Some(event_view(*x)),
        None => None,
    }
}

/// The `i`-th attribute of `e`; `Null` where there is none.
pub open spec fn value_at(e: Option<(i64, Seq<AttrView>)>, i: int) -> AttrView {
    match e {
        Some(x) => if 0 <= i < x.1.len() { x.1[i] } else { AttrView::Null },
        None => AttrView::Null,
    }
}

/// The event joined from `first` and `second`: the second's timestamp (the
/// first's when there is no second, 0 when there is neither), `fa` values of
/// the first followed by `sa` values of the second.
pub open spec fn joined(fa: nat, sa: nat, first: Option<(i64, Seq<AttrView>)>, second: Option<(i64, Seq<AttrView>)>) -> (i64, Seq<AttrView>) {
    let ts: i64 = match second {
        Some(s) => s.0,
        None => match first {
            Some(f) => f.0,
            None => 0,
        },
    };
    (ts, Seq::new(fa, |i: int| value_at(first, i)) + Seq::new(sa, |j: int| value_at(second, j)))
}

/// `n` values taken from `e`, `Null` past its end or where there is no event.
fn values_of(e: Option<&Event>, n: usize) -> (r: Vec<AttributeValue>)
    ensures
        attr_views(r@) == Seq::new(n as nat, |i: int| value_at(opt_event_view(e), i)),
{
    let ghost target = Seq::new(n as nat, |i: int| value_at(opt_event_view(e), i));
    let mut r: Vec<AttributeValue> = Vec::new();
    let mut i: usize = 0;
    while i < n
        invariant
            i <= n,
            target == Seq::new(n as nat, |k: int| value_at(opt_event_view(e), k)),
            attr_views(r@) == target.take(i as int),
        decreases n - i,
    {
        let v = match e {
            Some(x) => if i < x.data.len() {
                copy_value(&x.data[i])
            } else {
                AttributeValue::Null
            },
            None => AttributeValue::Null,
        };
        let ghost before = r@;
        r.push(v);
        proof {
            assert(r@ == before.push(v));
            assert(attr_views(r@) =~= attr_views(before).push(v@));
            assert(target.take(i + 1) =~= target.take(i as int).push(target[i as int]));
        }
        i = i + 1;
    }
    proof {
        assert(target.take(n as int) =~= target);
    }
    r
}

/// Joins `first` and `second` into one event (see [`joined`]).
pub fn join_events(fa: usize, sa: usize, first: Option<&Event>, second: Option<&Event>) -> (r: Event)
    ensures
        event_view(r) == joined(fa as nat, sa as nat, opt_event_view(first), opt_event_view(second)),
        !r.is_expired,
{
    let timestamp: i64 = match second {
        Some(s) => s.timestamp,
        None => match first {
            Some(f) => f.timestamp,
            None => 0,
        },
    };
    let mut data = values_of(first, fa);
    let mut tail = values_of(second, sa);
    let ghost a = data@;
    let ghost b = tail@;
    data.append(&mut tail);
    proof {
        assert(data@ == a + b);
        assert(attr_views(a + b) =~= attr_views(a) + attr_views(b));
    }
    Event { id: 0, timestamp, data, is_expired: false }
}

/// Whether a first-stream event at `first_ts` lies within `within` of a
/// second-stream event at `second_ts`.
pub open spec fn in_window(within: Option<i64>, first_ts: i64, second_ts: i64) -> bool {
    match within {
        Some(wt) => second_ts - first_ts <= wt,
        None => true,
    }
}

/// How many of the latest first-stream events `p` joins with one
/// second-stream event: all when `first_max` is negative.
pub open spec fn join_limit(p: SequenceProcessor, n: nat) -> int {
    if p.first_max < 0 {
        n as int
    } else if (p.first_max as int) < n {
        p.first_max as int
    } else {
        n as int
    }
}

/// The joins of `second` with the first-stream events from index `i` on that
/// lie in the window, in buffer order.
pub open spec fn pairs_from(p: SequenceProcessor, fb: Seq<(i64, Seq<AttrView>)>, second: (i64, Seq<AttrView>), i: int) -> Seq<(i64, Seq<AttrView>)>
    decreases fb.len() - i,
{
    if i >= fb.len() {
        seq![]
    } else {
        let rest = pairs_from(p, fb, second, i + 1);
        if in_window(p.within_time, fb[i].0, second.0) {
            seq![joined(p.first_attr_count as nat, p.second_attr_count as nat, Some(fb[i]), Some(second))] + rest
        } else {
            rest
        }
    }
}

/// What one second-stream event produces against first buffer `fb`: a join
/// with no first event when none is needed (`first_min == 0`, and no window
/// or no first event), then its joins with the latest `join_limit` first
/// events.
pub open spec fn matches_for(p: SequenceProcessor, fb: Seq<(i64, Seq<AttrView>)>, second: (i64, Seq<AttrView>)) -> Seq<(i64, Seq<AttrView>)> {
    let lead: Seq<(i64, Seq<AttrView>)> = if p.first_min == 0 && (p.within_time is None || fb.len() == 0) {
        seq![joined(p.first_attr_count as nat, p.second_attr_count as nat, None, Some(second))]
    } else {
        seq![]
    };
    lead + pairs_from(p, fb, second, fb.len() - join_limit(p, fb.len()))
}

/// Matching second-stream events in arrival order while the first buffer
/// holds at least `first_min` events: the events produced, then the first
/// and second buffers left.
pub open spec fn produce(p: SequenceProcessor, fb: Seq<(i64, Seq<AttrView>)>, sb: Seq<(i64, Seq<AttrView>)>) -> (Seq<(i64, Seq<AttrView>)>, Seq<(i64, Seq<AttrView>)>, Seq<(i64, Seq<AttrView>)>)
    decreases sb.len(),
{
    if sb.len() == 0 || (fb.len() as i32) < p.first_min {
        (seq![], fb, sb)
    } else {
        let next_fb: Seq<(i64, Seq<AttrView>)> = if p.sequence_type is Sequence { seq![] } else { fb };
        let rest = produce(p, next_fb, sb.drop_first());
        (matches_for(p, fb, sb[0]) + rest.0, rest.1, rest.2)
    }
}

/// The events of `s` at most `wt` before time `t`, in order.
pub open spec fn keep_within(s: Seq<(i64, Seq<AttrView>)>, t: i64, wt: i64) -> Seq<(i64, Seq<AttrView>)>
    decreases s.len(),
{
    if s.len() == 0 {
        seq![]
    } else {
        let kept = keep_within(s.drop_last(), t, wt);
        if t - s.last().0 <= wt {
            kept.push(s.last())
        } else {
            kept
        }
    }
}

/// Buffer `buf` after `e` arrived: `e` appended, then, with a window, the
/// events too old for `e` dropped.
pub open spec fn arrive(p: SequenceProcessor, buf: Seq<(i64, Seq<AttrView>)>, e: (i64, Seq<AttrView>)) -> Seq<(i64, Seq<AttrView>)> {
    match p.within_time {
        Some(wt) => keep_within(buf.push(e), e.0, wt),
        None => buf.push(e),
    }
}

/// One event arriving on `side`: the events produced and the buffers after.
/// A first-stream event triggers matching only in a pattern.
pub open spec fn step(p: SequenceProcessor, fb: Seq<(i64, Seq<AttrView>)>, sb: Seq<(i64, Seq<AttrView>)>, side: SequenceSide, e: (i64, Seq<AttrView>)) -> (Seq<(i64, Seq<AttrView>)>, Seq<(i64, Seq<AttrView>)>, Seq<(i64, Seq<AttrView>)>) {
    match side {
        SequenceSide::First => {
            let fb1 = arrive(p, fb, e);
            if p.sequence_type is Pattern {
                produce(p, fb1, sb)
            } else {
                (seq![], fb1, sb)
            }
        },
        SequenceSide::Second => produce(p, fb, arrive(p, sb, e)),
    }
}

/// Events `chunk` arriving on `side` one after another.
pub open spec fn run(p: SequenceProcessor, fb: Seq<(i64, Seq<AttrView>)>, sb: Seq<(i64, Seq<AttrView>)>, side: SequenceSide, chunk: Seq<(i64, Seq<AttrView>)>) -> (Seq<(i64, Seq<AttrView>)>, Seq<(i64, Seq<AttrView>)>, Seq<(i64, Seq<AttrView>)>)
    decreases chunk.len(),
{
    if chunk.len() == 0 {
        (seq![], fb, sb)
    } else {
        let s = step(p, fb, sb, side, chunk[0]);
        let r = run(p, s.1, s.2, side, chunk.drop_first());
        (s.0 + r.0, r.1, r.2)
    }
}

/// A temporal join of two streams.
pub struct SequenceProcessor {
    pub sequence_type: SequenceType,
    pub first_buffer: Vec<Event>,
    pub second_buffer: Vec<Event>,
    pub first_attr_count: usize,
    pub second_attr_count: usize,
    pub first_min: i32,
    pub first_max: i32,
    pub second_min: i32,
    pub second_max: i32,
    pub within_time: Option<i64>,
}

/// `a` and `b` have the same settings (everything but the buffers).
pub open spec fn same_settings(a: SequenceProcessor, b: SequenceProcessor) -> bool {
    &&& a.sequence_type == b.sequence_type
    &&& a.first_attr_count == b.first_attr_count
    &&& a.second_attr_count == b.second_attr_count
    &&& a.first_min == b.first_min
    &&& a.first_max == b.first_max
    &&& a.second_min == b.second_min
    &&& a.second_max == b.second_max
    &&& a.within_time == b.within_time
}

/// The events of `buf` at most `wt` before time `t`, in order.
fn retain_within(buf: &Vec<Event>, t: i64, wt: i64) -> (r: Vec<Event>)
    ensures
        events_view(r@) == keep_within(events_view(buf@), t, wt),
{
    let ghost s = events_view(buf@);
    let mut r: Vec<Event> = Vec::new();
    let mut i: usize = 0;
    while i < buf.len()
        invariant
            i <= buf@.len(),
            s == events_view(buf@),
            events_view(r@) == keep_within(s.take(i as int), t, wt),
        decreases buf@.len() - i,
    {
        proof {
            assert(s.take(i + 1).drop_last() =~= s.take(i as int));
            assert(s.take(i + 1).last() == s[i as int]);
        }
        if (t as i128) - (buf[i].timestamp as i128) <= (wt as i128) {
            let ghost before = r@;
            r.push(copy_event(&buf[i]));
            proof {
                assert(events_view(r@) =~= events_view(before).push(s[i as int]));
            }
        }
        i = i + 1;
    }
    proof {
        assert(s.take(buf@.len() as int) =~= s);
    }
    r
}

impl SequenceProcessor {
    /// A join with empty buffers.
    pub fn new(
        sequence_type: SequenceType,
        first_attr_count: usize,
        second_attr_count: usize,
        first_min: i32,
        first_max: i32,
        second_min: i32,
        second_max: i32,
        within_time: Option<i64>,
    ) -> (r: Self)
        ensures
            r.sequence_type == sequence_type,
            r.first_attr_count == first_attr_count,
            r.second_attr_count == second_attr_count,
            r.first_min == first_min,
            r.first_max == first_max,
            r.second_min == second_min,
            r.second_max == second_max,
            r.within_time == within_time,
            r.first_buffer@.len() == 0,
            r.second_buffer@.len() == 0,
    {
        SequenceProcessor {
            sequence_type,
            first_buffer: Vec::new(),
            second_buffer: Vec::new(),
            first_attr_count,
            second_attr_count,
            first_min,
            first_max,
            second_min,
            second_max,
            within_time,
        }
    }

    /// The event joined from `first` and `second` (see [`joined`]).
    pub fn build_joined_event(&self, first: Option<&Event>, second: Option<&Event>) -> (r: Event)
        ensures
            event_view(r) == joined(self.first_attr_count as nat, self.second_attr_count as nat, opt_event_view(first), opt_event_view(second)),
            !r.is_expired,
    {
        join_events(self.first_attr_count, self.second_attr_count, first, second)
    }

    /// The joins of `second` with the first-buffer events from `start` on
    /// that lie in the window, appended to `out`.
    fn join_with_first(&self, second: &Event, start: usize, out: &mut Vec<Event>)
        requires
            start <= self.first_buffer@.len(),
        ensures
            events_view(final(out)@) == events_view(old(out)@) + pairs_from(*self, events_view(self.first_buffer@), event_view(*second), start as int),
    {
        let ghost fb = events_view(self.first_buffer@);
        let ghost sv = event_view(*second);
        let ghost total = events_view(out@) + pairs_from(*self, fb, sv, start as int);
        let n = self.first_buffer.len();
        let mut i: usize = start;
        while i < n
            invariant
                start <= i <= n,
                n == self.first_buffer@.len(),
                fb == events_view(self.first_buffer@),
                sv == event_view(*second),
                events_view(out@) + pairs_from(*self, fb, sv, i as int) == total,
            decreases n - i,
        {
            let first = &self.first_buffer[i];
            let keep = match self.within_time {
                Some(wt) => (second.timestamp as i128) - (first.timestamp as i128) <= (wt as i128),
                None => true,
            };
            let ghost before = events_view(out@);
            if keep {
                let joined_event = self.build_joined_event(Some(first), Some(second));
                out.push(joined_event);
                proof {
                    assert(events_view(out@) =~= before.push(event_view(joined_event)));
                    assert(before.push(event_view(joined_event)) + pairs_from(*self, fb, sv, i + 1)
                        =~= before + (seq![event_view(joined_event)] + pairs_from(*self, fb, sv, i + 1)));
                }
            }
            i = i + 1;
        }
    }

    /// Matches second-buffer events, oldest first, while the first buffer
    /// holds at least `first_min` events; returns what was produced.
    pub fn check_and_produce(&mut self) -> (out: Vec<Event>)
        ensures
            same_settings(*final(self), *old(self)),
            ({
                let r = produce(*old(self), events_view(old(self).first_buffer@), events_view(old(self).second_buffer@));
                &&& events_view(out@) == r.0
                &&& events_view(final(self).first_buffer@) == r.1
                &&& events_view(final(self).second_buffer@) == r.2
            }),
    {
        let ghost p0 = *self;
        let ghost total = produce(p0, events_view(self.first_buffer@), events_view(self.second_buffer@));
        let mut out: Vec<Event> = Vec::new();
        while self.second_buffer.len() > 0 && !((self.first_buffer.len() as i32) < self.first_min)
            invariant
                same_settings(*self, p0),
                ({
                    let r = produce(p0, events_view(self.first_buffer@), events_view(self.second_buffer@));
                    &&& events_view(out@) + r.0 == total.0
                    &&& r.1 == total.1
                    &&& r.2 == total.2
                }),
            decreases self.second_buffer@.len(),
        {
            let ghost fb = events_view(self.first_buffer@);
            let ghost sb = events_view(self.second_buffer@);
            let ghost before = events_view(out@);
            let second = self.second_buffer.remove(0);
            proof {
                assert(events_view(self.second_buffer@) =~= sb.drop_first());
                assert(event_view(second) == sb[0]);
            }
            if self.first_min == 0 && (self.within_time.is_none() || self.first_buffer.len() == 0) {
                let lead = self.build_joined_event(None, Some(&second));
                out.push(lead);
            }
            let ghost after_lead = events_view(out@);
            proof {
                let lead_spec: Seq<(i64, Seq<AttrView>)> = if p0.first_min == 0 && (p0.within_time is None || fb.len() == 0) {
                    seq![joined(p0.first_attr_count as nat, p0.second_attr_count as nat, None, Some(sb[0]))]
                } else {
                    seq![]
                };
                assert(after_lead =~= before + lead_spec);
            }
            let n = self.first_buffer.len();
            let max: usize = if self.first_max < 0 {
                n
            } else if (self.first_max as usize) < n {
                self.first_max as usize
            } else {
                n
            };
            let start = n - max;
            self.join_with_first(&second, start, &mut out);
            proof {
                lemma_pairs_settings(*self, p0, fb, sb[0], start as int);
                assert(start as int == fb.len() - join_limit(p0, fb.len()));
            }
            if self.sequence_type == SequenceType::Sequence {
                self.first_buffer = Vec::new();
            }
            proof {
                let next_fb: Seq<(i64, Seq<AttrView>)> = if p0.sequence_type is Sequence { seq![] } else { fb };
                assert(events_view(self.first_buffer@) =~= next_fb);
                let rest = produce(p0, next_fb, sb.drop_first());
                assert(produce(p0, fb, sb).0 == matches_for(p0, fb, sb[0]) + rest.0);
                assert(events_view(out@) + rest.0 =~= before + (matches_for(p0, fb, sb[0]) + rest.0));
            }
        }
        out
    }

    /// Events `chunk` arriving on `side`, one after another: each is added
    /// to its side's buffer (dropping, with a window, the events too old for
    /// it), then matching runs, for first-stream events only in a pattern.
    /// Returns the joined events in the order produced.
    pub fn process_event(&mut self, side: SequenceSide, chunk: Vec<Event>) -> (out: Vec<Event>)
        ensures
            same_settings(*final(self), *old(self)),
            ({
                let r = run(*old(self), events_view(old(self).first_buffer@), events_view(old(self).second_buffer@), side, events_view(chunk@));
                &&& events_view(out@) == r.0
                &&& events_view(final(self).first_buffer@) == r.1
                &&& events_view(final(self).second_buffer@) == r.2
            }),
    {
        let ghost p0 = *self;
        let ghost cv = events_view(chunk@);
        let ghost total = run(p0, events_view(self.first_buffer@), events_view(self.second_buffer@), side, cv);
        let mut out: Vec<Event> = Vec::new();
        let mut k: usize = 0;
        proof {
            assert(cv.skip(0) =~= cv);
        }
        while k < chunk.len()
            invariant
                k <= chunk@.len(),
                cv == events_view(chunk@),
                same_settings(*self, p0),
                ({
                    let r = run(p0, events_view(self.first_buffer@), events_view(self.second_buffer@), side, cv.skip(k as int));
                    &&& events_view(out@) + r.0 == total.0
                    &&& r.1 == total.1
                    &&& r.2 == total.2
                }),
            decreases chunk@.len() - k,
        {
            let ghost fb = events_view(self.first_buffer@);
            let ghost sb = events_view(self.second_buffer@);
            let ghost before = events_view(out@);
            let ghost e = cv[k as int];
            proof {
                assert(cv.skip(k as int)[0] == e);
                assert(cv.skip(k as int).drop_first() =~= cv.skip(k + 1));
            }
            let se = &chunk[k];
            let produced = match side {
                SequenceSide::First => {
                    self.first_buffer.push(copy_event(se));
                    proof {
                        assert(events_view(self.first_buffer@) =~= fb.push(e));
                    }
                    if let Some(wt) = self.within_time {
                        self.first_buffer = retain_within(&self.first_buffer, se.timestamp, wt);
                    }
                    proof {
                        assert(events_view(self.first_buffer@) =~= arrive(p0, fb, e));
                    }
                    proof {
                        lemma_produce_settings(*self, p0, events_view(self.first_buffer@), events_view(self.second_buffer@));
                    }
                    if self.sequence_type == SequenceType::Pattern {
                        self.check_and_produce()
                    } else {
                        Vec::new()
                    }
                },
                SequenceSide::Second => {
                    self.second_buffer.push(copy_event(se));
                    proof {
                        assert(events_view(self.second_buffer@) =~= sb.push(e));
                    }
                    if let Some(wt) = self.within_time {
                        self.second_buffer = retain_within(&self.second_buffer, se.timestamp, wt);
                    }
                    proof {
                        assert(events_view(self.second_buffer@) =~= arrive(p0, sb, e));
                    }
                    proof {
                        lemma_produce_settings(*self, p0, events_view(self.first_buffer@), events_view(self.second_buffer@));
                    }
                    self.check_and_produce()
                },
            };
            let ghost s = step(p0, fb, sb, side, e);
            proof {
                assert(events_view(produced@) == s.0);
                assert(events_view(self.first_buffer@) == s.1);
                assert(events_view(self.second_buffer@) == s.2);
            }
            let ghost mid = out@;
            let mut produced = produced;
            out.append(&mut produced);
            proof {
                assert(events_view(out@) =~= before + s.0);
                let r = run(p0, s.1, s.2, side, cv.skip(k + 1));
                assert(events_view(out@) + r.0 =~= before + (s.0 + r.0));
            }
            k = k + 1;
        }
        out
    }

    /// A handle through which events of one side reach this join.
    pub fn create_side_processor(side: SequenceSide) -> (r: SequenceProcessorSide)
        ensures
            r.side == side,
    {
        SequenceProcessorSide { side }
    }
}

/// `pairs_from` depends on a processor's settings only.
pub proof fn lemma_pairs_settings(a: SequenceProcessor, b: SequenceProcessor, fb: Seq<(i64, Seq<AttrView>)>, second: (i64, Seq<AttrView>), i: int)
    requires
        same_settings(a, b),
    ensures
        pairs_from(a, fb, second, i) == pairs_from(b, fb, second, i),
    decreases fb.len() - i,
{
    if i < fb.len() {
        lemma_pairs_settings(a, b, fb, second, i + 1);
    }
}

/// `produce` depends on a processor's settings only.
pub proof fn lemma_produce_settings(a: SequenceProcessor, b: SequenceProcessor, fb: Seq<(i64, Seq<AttrView>)>, sb: Seq<(i64, Seq<AttrView>)>)
    requires
        same_settings(a, b),
    ensures
        produce(a, fb, sb) == produce(b, fb, sb),
    decreases sb.len(),
{
    if sb.len() > 0 && !((fb.len() as i32) < a.first_min) {
        let next_fb: Seq<(i64, Seq<AttrView>)> = if a.sequence_type is Sequence { seq![] } else { fb };
        lemma_produce_settings(a, b, next_fb, sb.drop_first());
        lemma_pairs_settings(a, b, fb, sb[0], fb.len() - join_limit(a, fb.len()));
    }
}

/// Matching stops only when no second-stream event is left waiting or the
/// first buffer holds fewer than `first_min` events.
pub proof fn law_matching_runs_until_stuck(p: SequenceProcessor, fb: Seq<(i64, Seq<AttrView>)>, sb: Seq<(i64, Seq<AttrView>)>)
    ensures
        ({
            let r = produce(p, fb, sb);
            r.2.len() == 0 || (r.1.len() as i32) < p.first_min
        }),
    decreases sb.len(),
{
    if sb.len() > 0 && !((fb.len() as i32) < p.first_min) {
        let next_fb: Seq<(i64, Seq<AttrView>)> = if p.sequence_type is Sequence { seq![] } else { fb };
        law_matching_runs_until_stuck(p, next_fb, sb.drop_first());
    }
}

/// A pattern keeps its first-stream events across matches.
pub proof fn law_pattern_keeps_first_events(p: SequenceProcessor, fb: Seq<(i64, Seq<AttrView>)>, sb: Seq<(i64, Seq<AttrView>)>)
    requires
        p.sequence_type is Pattern,
    ensures
        produce(p, fb, sb).1 == fb,
    decreases sb.len(),
{
    if sb.len() > 0 && !((fb.len() as i32) < p.first_min) {
        law_pattern_keeps_first_events(p, fb, sb.drop_first());
    }
}

/// A sequence drops its first-stream events once a second-stream event was
/// matched.
pub proof fn law_sequence_drops_first_events_on_match(p: SequenceProcessor, fb: Seq<(i64, Seq<AttrView>)>, sb: Seq<(i64, Seq<AttrView>)>)
    requires
        p.sequence_type is Sequence,
        sb.len() > 0,
        !((fb.len() as i32) < p.first_min),
    ensures
        produce(p, fb, sb).1.len() == 0,
    decreases sb.len(),
{
    let empty: Seq<(i64, Seq<AttrView>)> = seq![];
    let rest = sb.drop_first();
    assert(produce(p, fb, sb).1 == produce(p, empty, rest).1);
    if rest.len() > 0 && !((empty.len() as i32) < p.first_min) {
        law_sequence_drops_first_events_on_match(p, empty, rest);
    } else {
        assert(produce(p, empty, rest).1 == empty);
    }
}

/// The side of a join through which one input stream's events arrive.
pub struct SequenceProcessorSide {
    pub side: SequenceSide,
}

impl SequenceProcessorSide {
    /// Hands `chunk` to `parent` as events of this side.
    pub fn process(&self, parent: &mut SequenceProcessor, chunk: Vec<Event>) -> (out: Vec<Event>)
        ensures
            same_settings(*final(parent), *old(parent)),
            ({
                let r = run(*old(parent), events_view(old(parent).first_buffer@), events_view(old(parent).second_buffer@), self.side, events_view(chunk@));
                &&& events_view(out@) == r.0
                &&& events_view(final(parent).first_buffer@) == r.1
                &&& events_view(final(parent).second_buffer@) == r.2
            }),
    {
        parent.process_event(self.side, chunk)
    }

    /// A fresh join with `parent`'s settings and empty buffers, and a side
    /// of it for the same input stream.
    pub fn clone_processor(&self, parent: &SequenceProcessor) -> (r: (SequenceProcessor, SequenceProcessorSide))
        ensures
            same_settings(r.0, *parent),
            r.0.first_buffer@.len() == 0,
            r.0.second_buffer@.len() == 0,
            r.1.side == self.side,
    {
        let cloned = SequenceProcessor::new(
            parent.sequence_type,
            parent.first_attr_count,
            parent.second_attr_count,
            parent.first_min,
            parent.first_max,
            parent.second_min,
            parent.second_max,
            parent.within_time,
        );
        (cloned, SequenceProcessorSide { side: self.side })
    }
}

} // verus!
