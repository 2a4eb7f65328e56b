//! Streaming joins of two event streams by arrival order: `and` pairs the
//! oldest waiting event of each stream, `or` passes every event on by itself.

use vstd::prelude::*;
use crate::engine::event::{AttrView, Event, event_view, events_view, copy_event};
use crate::engine::query::sequence_processor::{SequenceSide, joined, join_events, opt_event_view};

verus! {

/// How the two streams are combined.
#[derive(Debug, Clone, Copy, PartialEq, Eq, Structural)]
pub enum LogicalType {
    And,
    Or,
}

/// A streaming join of two streams.
pub struct LogicalProcessor {
    pub logical_type: LogicalType,
    pub first_buffer: Vec<Event>,
    pub second_buffer: Vec<Event>,
    pub first_attr_count: usize,
    pub second_attr_count: usize,
}

/// `and`: the oldest events of both buffers joined pairwise, as long as
/// both have one.
pub open spec fn and_pairs(fa: nat, sa: nat, fb: Seq<(i64, Seq<AttrView>)>, sb: Seq<(i64, Seq<AttrView>)>) -> Seq<(i64, Seq<AttrView>)>
    decreases fb.len(),
{
    if fb.len() == 0 || sb.len() == 0 {
        seq![]
    } else {
        seq![joined(fa, sa, Some(fb[0]), Some(sb[0]))] + and_pairs(fa, sa, fb.drop_first(), sb.drop_first())
    }
}

/// The smaller of two lengths.
pub open spec fn min_len(a: nat, b: nat) -> nat {
    if a < b { a } else { b }
}

/// What matching produces from buffers `fb` and `sb`, and the buffers left:
/// `and` pairs them up and leaves the unmatched rest of the longer one;
/// `or` passes every first event on alone, then every second one, and
/// leaves both empty.
pub open spec fn try_produce_spec(p: LogicalProcessor, fb: Seq<(i64, Seq<AttrView>)>, sb: Seq<(i64, Seq<AttrView>)>) -> (Seq<(i64, Seq<AttrView>)>, Seq<(i64, Seq<AttrView>)>, Seq<(i64, Seq<AttrView>)>) {
    let fa = p.first_attr_count as nat;
    let sa = p.second_attr_count as nat;
    match p.logical_type {
        LogicalType::And => {
            let k = min_len(fb.len(), sb.len()) as int;
            (and_pairs(fa, sa, fb, sb), fb.skip(k), sb.skip(k))
        },
        LogicalType::Or => (
            fb.map_values(|f: (i64, Seq<AttrView>)| joined(fa, sa, Some(f), None))
                + sb.map_values(|s: (i64, Seq<AttrView>)| joined(fa, sa, None, Some(s))),
            seq![],
            seq![],
        ),
    }
}

/// Events `chunk` arriving on `side` one after another, each added to its
/// side's buffer and followed by matching.
pub open spec fn logical_run(p: LogicalProcessor, fb: Seq<(i64, Seq<AttrView>)>, sb: Seq<(i64, Seq<AttrView>)>, side: SequenceSide, chunk: Seq<(i64, Seq<AttrView>)>) -> (Seq<(i64, Seq<AttrView>)>, Seq<(i64, Seq<AttrView>)>, Seq<(i64, Seq<AttrView>)>)
    decreases chunk.len(),
{
    if chunk.len() == 0 {
        (seq![], fb, sb)
    } else {
        let s = match side {
            SequenceSide::First => try_produce_spec(p, fb.push(chunk[0]), sb),
            SequenceSide::Second => try_produce_spec(p, fb, sb.push(chunk[0])),
        };
        let r = logical_run(p, s.1, s.2, side, chunk.drop_first());
        (s.0 + r.0, r.1, r.2)
    }
}

/// `a` and `b` have the same settings (everything but the buffers).
pub open spec fn same_logical_settings(a: LogicalProcessor, b: LogicalProcessor) -> bool {
    &&& a.logical_type == b.logical_type
    &&& a.first_attr_count == b.first_attr_count
    &&& a.second_attr_count == b.second_attr_count
}

/// What a join of type `t` leaves waiting: under `and`, events of one
/// stream only; under `or`, nothing.
pub open spec fn buffers_settled(t: LogicalType, fb: Seq<(i64, Seq<AttrView>)>, sb: Seq<(i64, Seq<AttrView>)>) -> bool {
    match t {
        LogicalType::And => fb.len() == 0 || sb.len() == 0,
        LogicalType::Or => fb.len() == 0 && sb.len() == 0,
    }
}

/// After any chunk of events, a join has nothing left to match: under `and`
/// at most one buffer holds events, under `or` neither does.
pub proof fn law_logical_buffers_settle(p: LogicalProcessor, fb: Seq<(i64, Seq<AttrView>)>, sb: Seq<(i64, Seq<AttrView>)>, side: SequenceSide, chunk: Seq<(i64, Seq<AttrView>)>)
    requires
        chunk.len() > 0,
    ensures
        ({
            let r = logical_run(p, fb, sb, side, chunk);
            buffers_settled(p.logical_type, r.1, r.2)
        }),
    decreases chunk.len(),
{
    let s = match side {
        SequenceSide::First => try_produce_spec(p, fb.push(chunk[0]), sb),
        SequenceSide::Second => try_produce_spec(p, fb, sb.push(chunk[0])),
    };
    assert(buffers_settled(p.logical_type, s.1, s.2));
    if chunk.len() > 1 {
        law_logical_buffers_settle(p, s.1, s.2, side, chunk.drop_first());
    } else {
        assert(chunk.drop_first().len() == 0);
        assert(logical_run(p, s.1, s.2, side, chunk.drop_first()) == (Seq::<(i64, Seq<AttrView>)>::empty(), s.1, s.2));
    }
}

/// No event of `s` is marked expired.
pub open spec fn all_current(s: Seq<Event>) -> bool {
    forall|i: int| 0 <= i < s.len() ==> !(#[trigger] s[i]).is_expired
}

/// Pairs off the oldest events of both buffers while both have one.
fn drain_pairs(fa: usize, sa: usize, fb: &Vec<Event>, sb: &Vec<Event>, out: &mut Vec<Event>) -> (k: usize)
    ensures
        k as nat == min_len(fb@.len(), sb@.len()),
        events_view(final(out)@) == events_view(old(out)@) + and_pairs(fa as nat, sa as nat, events_view(fb@), events_view(sb@)),
        all_current(old(out)@) ==> all_current(final(out)@),
{
    let ghost f = events_view(fb@);
    let ghost s = events_view(sb@);
    let ghost total = events_view(out@) + and_pairs(fa as nat, sa as nat, f, s);
    let ghost out0 = out@;
    let mut k: usize = 0;
    proof {
        assert(f.skip(0) =~= f);
        assert(s.skip(0) =~= s);
    }
    while k < fb.len() && k < sb.len()
        invariant
            k <= fb@.len(),
            k <= sb@.len(),
            f == events_view(fb@),
            s == events_view(sb@),
            events_view(out@) + and_pairs(fa as nat, sa as nat, f.skip(k as int), s.skip(k as int)) == total,
            all_current(out0) ==> all_current(out@),
        decreases fb@.len() - k,
    {
        let ghost before = events_view(out@);
        let ghost out1 = out@;
        let j = join_events(fa, sa, Some(&fb[k]), Some(&sb[k]));
        out.push(j);
        proof {
            assert(out@ == out1.push(j));
            if all_current(out0) {
                assert forall|i: int| 0 <= i < out@.len() implies !(#[trigger] out@[i]).is_expired by {
                    if i < out1.len() { assert(out@[i] == out1[i]); }
                }
            }
            assert(f.skip(k as int)[0] == f[k as int]);
            assert(s.skip(k as int)[0] == s[k as int]);
            assert(f.skip(k as int).drop_first() =~= f.skip(k + 1));
            assert(s.skip(k as int).drop_first() =~= s.skip(k + 1));
            assert(events_view(out@) =~= before.push(event_view(j)));
            assert(before.push(event_view(j)) + and_pairs(fa as nat, sa as nat, f.skip(k + 1), s.skip(k + 1))
                =~= before + (seq![event_view(j)] + and_pairs(fa as nat, sa as nat, f.skip(k + 1), s.skip(k + 1))));
        }
        k = k + 1;
    }
    proof {
        let rf = f.skip(k as int);
        let rs = s.skip(k as int);
        assert(rf.len() == 0 || rs.len() == 0);
        assert(and_pairs(fa as nat, sa as nat, rf, rs) =~= seq![]);
        assert(events_view(out@) =~= total);
    }
    k
}

/// The events of `buf` from index `k` on, copied.
fn rest_from(buf: &Vec<Event>, k: usize) -> (r: Vec<Event>)
    requires
        k <= buf@.len(),
    ensures
        events_view(r@) == events_view(buf@).skip(k as int),
{
    let ghost b = events_view(buf@);
    let mut r: Vec<Event> = Vec::new();
    let mut i: usize = k;
    while i < buf.len()
        invariant
            k <= i <= buf@.len(),
            b == events_view(buf@),
            events_view(r@) == b.subrange(k as int, i as int),
        decreases buf@.len() - i,
    {
        let ghost before = events_view(r@);
        r.push(copy_event(&buf[i]));
        proof {
            assert(events_view(r@) =~= before.push(b[i as int]));
            assert(b.subrange(k as int, i + 1) =~= b.subrange(k as int, i as int).push(b[i as int]));
        }
        i = i + 1;
    }
    proof {
        assert(b.subrange(k as int, buf@.len() as int) =~= b.skip(k as int));
    }
    r
}

/// Every event of `buf`, joined alone on its side, appended to `out`.
fn drain_alone(fa: usize, sa: usize, buf: &Vec<Event>, is_first: bool, out: &mut Vec<Event>)
    ensures
        events_view(final(out)@) == events_view(old(out)@) + (if is_first {
            events_view(buf@).map_values(|f: (i64, Seq<AttrView>)| joined(fa as nat, sa as nat, Some(f), None))
        } else {
            events_view(buf@).map_values(|s: (i64, Seq<AttrView>)| joined(fa as nat, sa as nat, None, Some(s)))
        }),
        all_current(old(out)@) ==> all_current(final(out)@),
{
    let ghost b = events_view(buf@);
    let ghost out0 = out@;
    let ghost mapped = if is_first {
        b.map_values(|f: (i64, Seq<AttrView>)| joined(fa as nat, sa as nat, Some(f), None))
    } else {
        b.map_values(|s: (i64, Seq<AttrView>)| joined(fa as nat, sa as nat, None, Some(s)))
    };
    let ghost start = events_view(out@);
    let mut i: usize = 0;
    while i < buf.len()
        invariant
            i <= buf@.len(),
            b == events_view(buf@),
            mapped.len() == b.len(),
            mapped == (if is_first {
                b.map_values(|f: (i64, Seq<AttrView>)| joined(fa as nat, sa as nat, Some(f), None))
            } else {
                b.map_values(|s: (i64, Seq<AttrView>)| joined(fa as nat, sa as nat, None, Some(s)))
            }),
            events_view(out@) == start + mapped.take(i as int),
            all_current(out0) ==> all_current(out@),
        decreases buf@.len() - i,
    {
        let ghost before = events_view(out@);
        let ghost out1 = out@;
        let j = if is_first {
            join_events(fa, sa, Some(&buf[i]), None)
        } else {
            join_events(fa, sa, None, Some(&buf[i]))
        };
        out.push(j);
        proof {
            assert(out@ == out1.push(j));
            if all_current(out0) {
                assert forall|i: int| 0 <= i < out@.len() implies !(#[trigger] out@[i]).is_expired by {
                    if i < out1.len() { assert(out@[i] == out1[i]); }
                }
            }
            assert(event_view(j) == mapped[i as int]);
            assert(events_view(out@) =~= before.push(event_view(j)));
            assert(mapped.take(i + 1) =~= mapped.take(i as int).push(mapped[i as int]));
        }
        i = i + 1;
    }
    proof {
        assert(mapped.take(buf@.len() as int) =~= mapped);
    }
}

impl LogicalProcessor {
    /// A join with empty buffers.
    pub fn new(logical_type: LogicalType, first_attr_count: usize, second_attr_count: usize) -> (r: Self)
        ensures
            r.logical_type == logical_type,
            r.first_attr_count == first_attr_count,
            r.second_attr_count == second_attr_count,
            r.first_buffer@.len() == 0,
            r.second_buffer@.len() == 0,
    {
        LogicalProcessor {
            logical_type,
            first_buffer: Vec::new(),
            second_buffer: Vec::new(),
            first_attr_count,
            second_attr_count,
        }
    }

    /// The event joined from `first` and `second`: the second's timestamp
    /// (else the first's, else 0), the first's values, then the second's.
    pub fn build_joined_event(&self, first: Option<&Event>, second: Option<&Event>) -> (r: Event)
        ensures
            event_view(r) == joined(self.first_attr_count as nat, self.second_attr_count as nat, opt_event_view(first), opt_event_view(second)),
            !r.is_expired,
    {
        join_events(self.first_attr_count, self.second_attr_count, first, second)
    }

    /// Matches what the buffers hold; returns the joined events in order.
    pub fn try_produce(&mut self) -> (out: Vec<Event>)
        ensures
            same_logical_settings(*final(self), *old(self)),
            ({
                let r = try_produce_spec(*old(self), events_view(old(self).first_buffer@), events_view(old(self).second_buffer@));
                &&& events_view(out@) == r.0
                &&& events_view(final(self).first_buffer@) == r.1
                &&& events_view(final(self).second_buffer@) == r.2
            }),
            all_current(out@),
    {
        let mut out: Vec<Event> = Vec::new();
        let fa = self.first_attr_count;
        let sa = self.second_attr_count;
        match self.logical_type {
            LogicalType::And => {
                let k = drain_pairs(fa, sa, &self.first_buffer, &self.second_buffer, &mut out);
                proof {
                    assert(events_view(out@) =~= and_pairs(fa as nat, sa as nat, events_view(self.first_buffer@), events_view(self.second_buffer@)));
                }
                let first_rest = rest_from(&self.first_buffer, k);
                let second_rest = rest_from(&self.second_buffer, k);
                self.first_buffer = first_rest;
                self.second_buffer = second_rest;
            },
            LogicalType::Or => {
                let ghost f = events_view(self.first_buffer@);
                let ghost s = events_view(self.second_buffer@);
                drain_alone(fa, sa, &self.first_buffer, true, &mut out);
                drain_alone(fa, sa, &self.second_buffer, false, &mut out);
                self.first_buffer = Vec::new();
                self.second_buffer = Vec::new();
                proof {
                    assert(events_view(self.first_buffer@) =~= seq![]);
                    assert(events_view(self.second_buffer@) =~= seq![]);
                    assert(events_view(out@) =~= f.map_values(|x: (i64, Seq<AttrView>)| joined(fa as nat, sa as nat, Some(x), None))
                        + s.map_values(|y: (i64, Seq<AttrView>)| joined(fa as nat, sa as nat, None, Some(y))));
                }
            },
        }
        out
    }

    /// Events `chunk` arriving on `side`, one after another: each is added
    /// to its side's buffer, then matching runs. Returns the joined events
    /// in the order produced; afterwards nothing is left to match.
    pub fn process_event(&mut self, side: SequenceSide, chunk: Vec<Event>) -> (out: Vec<Event>)
        ensures
            same_logical_settings(*final(self), *old(self)),
            ({
                let r = logical_run(*old(self), events_view(old(self).first_buffer@), events_view(old(self).second_buffer@), side, events_view(chunk@));
                &&& events_view(out@) == r.0
                &&& events_view(final(self).first_buffer@) == r.1
                &&& events_view(final(self).second_buffer@) == r.2
            }),
            chunk@.len() > 0 ==> buffers_settled(final(self).logical_type, events_view(final(self).first_buffer@), events_view(final(self).second_buffer@)),
            all_current(out@),
    {
        let ghost p0 = *self;
        let ghost cv = events_view(chunk@);
        let ghost total = logical_run(p0, events_view(self.first_buffer@), events_view(self.second_buffer@), side, cv);
        proof {
            if cv.len() > 0 {
                law_logical_buffers_settle(p0, events_view(self.first_buffer@), events_view(self.second_buffer@), side, cv);
            }
            assert(cv.skip(0) =~= cv);
        }
        let mut out: Vec<Event> = Vec::new();
        let mut k: usize = 0;
        while k < chunk.len()
            invariant
                k <= chunk@.len(),
                cv == events_view(chunk@),
                same_logical_settings(*self, p0),
                ({
                    let r = logical_run(p0, events_view(self.first_buffer@), events_view(self.second_buffer@), side, cv.skip(k as int));
                    &&& events_view(out@) + r.0 == total.0
                    &&& r.1 == total.1
                    &&& r.2 == total.2
                }),
                all_current(out@),
            decreases chunk@.len() - k,
        {
            let ghost fb = events_view(self.first_buffer@);
            let ghost sb = events_view(self.second_buffer@);
            let ghost before = events_view(out@);
            let ghost e = cv[k as int];
            proof {
                assert(cv.skip(k as int)[0] == e);
                assert(cv.skip(k as int).drop_first() =~= cv.skip(k + 1));
            }
            match side {
                SequenceSide::First => {
                    self.first_buffer.push(copy_event(&chunk[k]));
                    proof {
                        assert(events_view(self.first_buffer@) =~= fb.push(e));
                    }
                },
                SequenceSide::Second => {
                    self.second_buffer.push(copy_event(&chunk[k]));
                    proof {
                        assert(events_view(self.second_buffer@) =~= sb.push(e));
                    }
                },
            }
            let ghost s = match side {
                SequenceSide::First => try_produce_spec(p0, fb.push(e), sb),
                SequenceSide::Second => try_produce_spec(p0, fb, sb.push(e)),
            };
            let mut produced = self.try_produce();
            proof {
                assert(events_view(produced@) == s.0);
            }
            let ghost out1 = out@;
            let ghost produced1 = produced@;
            out.append(&mut produced);
            proof {
                assert(out@ == out1 + produced1);
                assert forall|i: int| 0 <= i < out@.len() implies !(#[trigger] out@[i]).is_expired by {
                    if i < out1.len() {
                        assert(out@[i] == out1[i]);
                    } else {
                        assert(out@[i] == produced1[i - out1.len()]);
                    }
                }
                assert(events_view(out@) =~= before + s.0);
                let r = logical_run(p0, s.1, s.2, side, cv.skip(k + 1));
                assert(events_view(out@) + r.0 =~= before + (s.0 + r.0));
            }
            k = k + 1;
        }
        proof {
            assert(cv.skip(chunk@.len() as int) =~= seq![]);
        }
        out
    }

    /// A handle through which events of one side reach this join.
    pub fn create_side_processor(side: SequenceSide) -> (r: LogicalProcessorSide)
        ensures
            r.side == side,
    {
        LogicalProcessorSide { side }
    }
}

/// The side of a streaming join through which one input stream's events
/// arrive.
pub struct LogicalProcessorSide {
    pub side: SequenceSide,
}

impl LogicalProcessorSide {
    /// Hands `chunk` to `parent` as events of this side.
    pub fn process(&self, parent: &mut LogicalProcessor, chunk: Vec<Event>) -> (out: Vec<Event>)
        ensures
            same_logical_settings(*final(parent), *old(parent)),
            ({
                let r = logical_run(*old(parent), events_view(old(parent).first_buffer@), events_view(old(parent).second_buffer@), self.side, events_view(chunk@));
                &&& events_view(out@) == r.0
                &&& events_view(final(parent).first_buffer@) == r.1
                &&& events_view(final(parent).second_buffer@) == r.2
            }),
            all_current(out@),
    {
        parent.process_event(self.side, chunk)
    }

    /// A fresh join with `parent`'s settings and empty buffers, and a side
    /// of it for the same input stream.
    pub fn clone_processor(&self, parent: &LogicalProcessor) -> (r: (LogicalProcessor, LogicalProcessorSide))
        ensures
            same_logical_settings(r.0, *parent),
            r.0.first_buffer@.len() == 0,
            r.0.second_buffer@.len() == 0,
            r.1.side == self.side,
    {
        let cloned = LogicalProcessor::new(parent.logical_type, parent.first_attr_count, parent.second_attr_count);
        (cloned, LogicalProcessorSide { side: self.side })
    }
}

} // verus!
