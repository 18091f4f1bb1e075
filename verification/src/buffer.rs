//! The batching buffer: an ordered queue of pending trace events with a
//! running byte-occupancy counter, and the flush packer that drains it into
//! trace-push frames of at most `QUEUE_TOTAL_SIZE` bytes each, header
//! included.

use vstd::prelude::*;

use crate::codec;
use crate::codec::Command;
use crate::names;

verus! {

/// One pending trace event: a normalized tracepoint name, the wall-clock
/// timestamp of its submission in nanoseconds, and its payload.
pub struct TraceEvent {
    pub name: Vec<u8>,
    pub timestamp: u64,
    pub payload: Vec<u8>,
}

impl TraceEvent {
    /// A well-formed event: normalized name, payload within the submission
    /// bounds.
    pub open spec fn wf(&self) -> bool {
        &&& names::is_normal_name(self.name@)
        &&& 1 <= self.payload@.len() <= 2048
    }

    /// Bytes this event contributes to the buffer occupancy counter:
    /// name length + 8 (timestamp) + payload length.
    pub open spec fn size(&self) -> int {
        self.name@.len() + 8 + self.payload@.len() as int
    }

    /// The wire record this event encodes to inside a trace-push body.
    pub open spec fn enc(&self) -> Seq<u8> {
        codec::record_bytes(self.name@, self.timestamp, self.payload@)
    }
}

/// Sum of the occupancy contributions of a run of events.
pub open spec fn sum_sizes(s: Seq<TraceEvent>) -> int
    decreases s.len(),
{
    if s.len() == 0 {
        0
    } else {
        s[0].size() + sum_sizes(s.drop_first())
    }
}

/// Appending one event adds its size to the sum.
pub proof fn lemma_sum_sizes_snoc(s: Seq<TraceEvent>, e: TraceEvent)
    ensures
        sum_sizes(s.push(e)) == sum_sizes(s) + e.size(),
    decreases s.len(),
{
    if s.len() == 0 {
        assert(s.push(e)[0] == e);
        assert(s.push(e).drop_first() =~= Seq::<TraceEvent>::empty());
        assert(sum_sizes(Seq::<TraceEvent>::empty()) == 0);
    } else {
        assert(s.push(e)[0] == s[0]);
        assert(s.push(e).drop_first() =~= s.drop_first().push(e));
        lemma_sum_sizes_snoc(s.drop_first(), e);
    }
}

/// Concatenation of the wire records of a run of events, in order.
pub open spec fn records_bytes(s: Seq<TraceEvent>) -> Seq<u8>
    decreases s.len(),
{
    if s.len() == 0 {
        Seq::empty()
    } else {
        s[0].enc() + records_bytes(s.drop_first())
    }
}

/// Appending one event appends its record.
pub proof fn lemma_records_bytes_snoc(s: Seq<TraceEvent>, e: TraceEvent)
    ensures
        records_bytes(s.push(e)) == records_bytes(s) + e.enc(),
    decreases s.len(),
{
    if s.len() == 0 {
        assert(s.push(e)[0] == e);
        assert(s.push(e).drop_first() =~= Seq::<TraceEvent>::empty());
        assert(records_bytes(Seq::<TraceEvent>::empty()) == Seq::<u8>::empty());
        assert(records_bytes(s.push(e)) =~= records_bytes(s) + e.enc());
    } else {
        assert(s.push(e)[0] == s[0]);
        assert(s.push(e).drop_first() =~= s.drop_first().push(e));
        lemma_records_bytes_snoc(s.drop_first(), e);
        assert(records_bytes(s.push(e)) == s[0].enc() + (records_bytes(s.drop_first()) + e.enc()));
        assert(s[0].enc() + (records_bytes(s.drop_first()) + e.enc()) =~= (s[0].enc()
            + records_bytes(s.drop_first())) + e.enc());
    }
}

/// What a run of record bytes decodes to: the (name, timestamp, payload)
/// triples read front to back, or nothing when the bytes do not tile into
/// records exactly.
pub open spec fn decode_records(b: Seq<u8>) -> Option<Seq<(Seq<u8>, u64, Seq<u8>)>>
    decreases b.len(),
{
    if b.len() == 0 {
        Some(Seq::empty())
    } else if b.len() < 2 {
        None
    } else {
        let nl = codec::u16_of_be(b[0], b[1]) as int;
        if b.len() < 2 + nl + 10 {
            None
        } else {
            let name = b.subrange(2, 2 + nl);
            let ts = codec::u64_of_be(b.subrange(2 + nl, 2 + nl + 8));
            let dl = codec::u16_of_be(b[2 + nl + 8], b[2 + nl + 9]) as int;
            if b.len() < 2 + nl + 10 + dl {
                None
            } else {
                let data = b.subrange(2 + nl + 10, 2 + nl + 10 + dl);
                match decode_records(b.skip(2 + nl + 10 + dl)) {
                    Some(rest) => Some(seq![(name, ts, data)] + rest),
                    None => None,
                }
            }
        }
    }
}

/// The encoded records of well-formed events decode back to exactly those
/// events' (name, timestamp, payload) triples, in order.
pub proof fn lemma_records_round_trip(s: Seq<TraceEvent>)
    requires
        forall|i: int| 0 <= i < s.len() ==> (#[trigger] s[i]).wf(),
    ensures
        decode_records(records_bytes(s)) == Some(
            s.map_values(|e: TraceEvent| (e.name@, e.timestamp, e.payload@)),
        ),
    decreases s.len(),
{
    let b = records_bytes(s);
    if s.len() == 0 {
        assert(s.map_values(|e: TraceEvent| (e.name@, e.timestamp, e.payload@)) =~= Seq::<(
            Seq<u8>,
            u64,
            Seq<u8>,
        )>::empty());
    } else {
        let e = s[0];
        let tail = s.drop_first();
        let enc = e.enc();
        let nl = e.name@.len() as int;
        let dl = e.payload@.len() as int;
        assert(enc.len() == 2 + nl + 10 + dl);
        assert(b.len() >= enc.len());
        codec::lemma_u16_be_round_trip(nl as u16);
        codec::lemma_u16_be_round_trip(dl as u16);
        codec::lemma_u64_be_round_trip(e.timestamp);
        assert(b[0] == codec::u16_be(nl as u16)[0] && b[1] == codec::u16_be(nl as u16)[1]);
        assert(codec::u16_of_be(b[0], b[1]) as int == nl);
        assert(b.len() >= 2 + nl + 10);
        assert(b.subrange(2, 2 + nl) =~= e.name@);
        assert(b.subrange(2 + nl, 2 + nl + 8) =~= codec::u64_be(e.timestamp));
        assert(b[2 + nl + 8] == codec::u16_be(dl as u16)[0] && b[2 + nl + 9] == codec::u16_be(
            dl as u16,
        )[1]);
        assert(codec::u16_of_be(b[2 + nl + 8], b[2 + nl + 9]) as int == dl);
        assert(b.len() >= 2 + nl + 10 + dl);
        assert(b.subrange(2 + nl + 10, 2 + nl + 10 + dl) =~= e.payload@);
        assert(b.skip(2 + nl + 10 + dl) =~= records_bytes(tail));
        lemma_records_round_trip(tail);
        assert(s.map_values(|ev: TraceEvent| (ev.name@, ev.timestamp, ev.payload@)) =~= seq![
            (e.name@, e.timestamp, e.payload@),
        ] + tail.map_values(|ev: TraceEvent| (ev.name@, ev.timestamp, ev.payload@)));
    }
}

/// The greedy packing of a run of events into trace-push frame bodies,
/// starting from a window already holding `window` bytes: each record
/// joins the window while it fits under `QUEUE_TOTAL_SIZE` bytes together
/// with the frame header; a record that would overflow closes the window
/// into a frame and opens a fresh one with that record.
pub open spec fn packed_bodies(evs: Seq<TraceEvent>, window: Seq<u8>) -> Seq<Seq<u8>>
    decreases evs.len(),
{
    if evs.len() == 0 {
        if window.len() == 0 {
            Seq::empty()
        } else {
            seq![window]
        }
    } else {
        let enc = evs[0].enc();
        if window.len() + enc.len() + 12 <= 4096 {
            packed_bodies(evs.drop_first(), window + enc)
        } else {
            seq![window] + packed_bodies(evs.drop_first(), enc)
        }
    }
}

/// A frame as the flush packer emits it: a trace-push header whose length
/// field covers exactly the non-empty body that follows, the whole frame
/// within the send-window bound.
pub open spec fn is_push_frame(f: Seq<u8>) -> bool {
    &&& 12 < f.len() <= 4096
    &&& f == codec::frame_bytes(5, f.skip(12))
}

/// All frames of a flush are push frames.
pub open spec fn push_frames_wf(fs: Seq<Vec<u8>>) -> bool {
    forall|i: int| 0 <= i < fs.len() ==> is_push_frame(#[trigger] fs[i]@)
}

/// Concatenation of the bodies of a run of frames.
pub open spec fn frames_bodies(fs: Seq<Vec<u8>>) -> Seq<u8>
    decreases fs.len(),
{
    if fs.len() == 0 {
        Seq::empty()
    } else {
        fs[0]@.skip(12) + frames_bodies(fs.drop_first())
    }
}

/// Appending one frame appends its body.
pub proof fn lemma_frames_bodies_snoc(fs: Seq<Vec<u8>>, f: Vec<u8>)
    ensures
        frames_bodies(fs.push(f)) == frames_bodies(fs) + f@.skip(12),
    decreases fs.len(),
{
    if fs.len() == 0 {
        assert(fs.push(f)[0] == f);
        assert(fs.push(f).drop_first() =~= Seq::<Vec<u8>>::empty());
        assert(frames_bodies(Seq::<Vec<u8>>::empty()) == Seq::<u8>::empty());
        assert(frames_bodies(fs.push(f)) =~= frames_bodies(fs) + f@.skip(12));
    } else {
        assert(fs.push(f)[0] == fs[0]);
        assert(fs.push(f).drop_first() =~= fs.drop_first().push(f));
        lemma_frames_bodies_snoc(fs.drop_first(), f);
        assert(frames_bodies(fs.push(f)) == fs[0]@.skip(12) + (frames_bodies(fs.drop_first())
            + f@.skip(12)));
        assert(fs[0]@.skip(12) + (frames_bodies(fs.drop_first()) + f@.skip(12)) =~= (fs[0]@.skip(12)
            + frames_bodies(fs.drop_first())) + f@.skip(12));
    }
}

/// For any run of well-formed buffered events, the concatenated bodies of
/// the frames a flush emits decode back to exactly those events'
/// (name, timestamp, payload) triples, in submission order.
pub proof fn lemma_flush_output_decodes(evs: Seq<TraceEvent>, fs: Seq<Vec<u8>>)
    requires
        forall|i: int| 0 <= i < evs.len() ==> (#[trigger] evs[i]).wf(),
        frames_bodies(fs) == records_bytes(evs),
    ensures
        decode_records(frames_bodies(fs)) == Some(
            evs.map_values(|e: TraceEvent| (e.name@, e.timestamp, e.payload@)),
        ),
{
    lemma_records_round_trip(evs);
}

/// Every frame a flush emits is well-formed on the wire: magic first,
/// flags zero, an agent-to-collector command, and a length field that
/// equals the byte count of the body that follows.
pub proof fn lemma_push_frames_are_wf(fs: Seq<Vec<u8>>, i: int)
    requires
        push_frames_wf(fs),
        0 <= i < fs.len(),
    ensures
        codec::frame_wf(fs[i]@),
{
    let f = fs[i]@;
    assert(is_push_frame(f));
    codec::lemma_emitted_frame_wf(5, f.skip(12));
}

/// The batching buffer: pending events in submission order and the byte
/// occupancy they amount to.
pub struct TraceBuffer {
    events: Vec<TraceEvent>,
    occupancy: usize,
}

impl View for TraceBuffer {
    type V = Seq<TraceEvent>;

    closed spec fn view(&self) -> Seq<TraceEvent> {
        self.events@
    }
}

impl TraceBuffer {
    /// The counter equals the summed size of the queued events, and every
    /// queued event is well-formed.
    pub open spec fn wf(&self) -> bool {
        &&& self.occupancy() == sum_sizes(self@)
        &&& forall|i: int| 0 <= i < self@.len() ==> (#[trigger] self@[i]).wf()
    }

    /// The running byte-occupancy counter.
    pub closed spec fn occupancy(&self) -> int {
        self.occupancy as int
    }

    /// An empty buffer.
    pub fn new() -> (r: TraceBuffer)
        ensures
            r.wf(),
            r@ == Seq::<TraceEvent>::empty(),
            r.occupancy() == 0,
    {
        TraceBuffer { events: Vec::new(), occupancy: 0 }
    }

    /// Number of queued events.
    pub fn len(&self) -> (r: usize)
        ensures
            r == self@.len(),
    {
        self.events.len()
    }

    /// Current occupancy, for the flush-threshold decision.
    pub fn occupancy_bytes(&self) -> (r: usize)
        ensures
            r == self.occupancy(),
    {
        self.occupancy
    }

    /// Appends one event at the tail and accounts for its bytes.
    pub fn enqueue(&mut self, e: TraceEvent)
        requires
            old(self).wf(),
            e.wf(),
            sum_sizes(old(self)@) + e.size() <= usize::MAX,
        ensures
            final(self).wf(),
            final(self)@ == old(self)@.push(e),
            final(self).occupancy() == old(self).occupancy() + e.size(),
    {
        proof {
            lemma_sum_sizes_snoc(self.events@, e);
        }
        let sz = e.name.len() + crate::TIMESTAMP_LEN + e.payload.len();
        self.occupancy = self.occupancy + sz;
        self.events.push(e);
    }

    /// Drains the whole buffer into trace-push frames.
    ///
    /// Events are packed head first; whenever the next record would push
    /// the current window past `QUEUE_TOTAL_SIZE` bytes (header included),
    /// the window is closed into a frame and a fresh one opened. The
    /// concatenated frame bodies carry exactly the queued events' records
    /// in order, and the buffer is left empty.
    pub fn drain_frames(&mut self) -> (frames: Vec<Vec<u8>>)
        requires
            old(self).wf(),
        ensures
            final(self).wf(),
            final(self)@ == Seq::<TraceEvent>::empty(),
            final(self).occupancy() == 0,
            push_frames_wf(frames@),
            frames_bodies(frames@) == records_bytes(old(self)@),
            frames@.map_values(|f: Vec<u8>| f@.skip(12)) == packed_bodies(
                old(self)@,
                Seq::<u8>::empty(),
            ),
            old(self)@.len() == 0 ==> frames@.len() == 0,
    {
        let ghost evs = self.events@;
        let n = self.events.len();
        let mut frames: Vec<Vec<u8>> = Vec::new();
        let mut body: Vec<u8> = Vec::new();
        let mut i: usize = 0;
        proof {
            assert(evs.take(0) =~= Seq::<TraceEvent>::empty());
            assert(evs.skip(0) =~= evs);
            assert(frames@.map_values(|f: Vec<u8>| f@.skip(12)) =~= Seq::<Seq<u8>>::empty());
            assert(Seq::<Seq<u8>>::empty() + packed_bodies(evs, Seq::<u8>::empty())
                =~= packed_bodies(evs, Seq::<u8>::empty()));
        }
        while i < n
            invariant
                i <= n,
                n == self.events@.len(),
                self.events@ == evs,
                self.wf(),
                body@.len() + 12 <= 4096,
                push_frames_wf(frames@),
                frames_bodies(frames@) + body@ == records_bytes(evs.take(i as int)),
                frames@.map_values(|f: Vec<u8>| f@.skip(12)) + packed_bodies(
                    evs.skip(i as int),
                    body@,
                ) == packed_bodies(evs, Seq::<u8>::empty()),
                n > 0 && i == 0 ==> frames@.len() == 0,
            decreases n - i, body@.len(),
        {
            let ev = &self.events[i];
            proof {
                assert(self@[i as int].wf());
            }
            let ghost window0 = body@;
            let ghost rest = evs.skip(i as int);
            let enc_len = ev.name.len() + ev.payload.len() + 12;
            proof {
                assert(rest[0] == evs[i as int]);
                assert(evs[i as int].enc().len() == enc_len);
            }
            if body.len() + enc_len + 12 <= 4096 {
                codec::push_record(&mut body, &ev.name, ev.timestamp, &ev.payload);
                i = i + 1;
                proof {
                    assert(evs.take(i as int).drop_last() =~= evs.take(i as int - 1));
                    assert(evs.take(i as int) =~= evs.take(i as int - 1).push(evs[i as int - 1]));
                    lemma_records_bytes_snoc(evs.take(i as int - 1), evs[i as int - 1]);
                    assert(frames_bodies(frames@) + body@ =~= records_bytes(evs.take(i as int)));
                    assert(rest.drop_first() =~= evs.skip(i as int));
                    assert(body@ == window0 + evs[i as int - 1].enc());
                    assert(packed_bodies(rest, window0) == packed_bodies(
                        evs.skip(i as int),
                        body@,
                    ));
                }
            } else {
                let frame = codec::encode_frame(Command::TracePush, &body);
                proof {
                    assert(body@.len() > 0);
                    assert(frame@.skip(12) =~= body@);
                    assert(is_push_frame(frame@));
                    lemma_frames_bodies_snoc(frames@, frame);
                }
                let ghost prev_map = frames@.map_values(|f: Vec<u8>| f@.skip(12));
                frames.push(frame);
                body = Vec::new();
                proof {
                    assert(frames_bodies(frames@) + body@ =~= records_bytes(evs.take(i as int)));
                    let enc = evs[i as int].enc();
                    assert(frames@.map_values(|f: Vec<u8>| f@.skip(12)) =~= prev_map.push(
                        window0,
                    ));
                    // The window that overflowed closes into a frame; the
                    // record opens a fresh one, which it always fits.
                    assert(packed_bodies(rest, window0) == seq![window0] + packed_bodies(
                        rest.drop_first(),
                        enc,
                    ));
                    assert(enc.len() + 12 <= 4096);
                    assert(Seq::<u8>::empty() + enc =~= enc);
                    assert(packed_bodies(rest, Seq::<u8>::empty()) == packed_bodies(
                        rest.drop_first(),
                        enc,
                    ));
                    assert(prev_map.push(window0) + packed_bodies(rest, Seq::<u8>::empty())
                        =~= prev_map + packed_bodies(rest, window0));
                    assert(packed_bodies(evs.skip(i as int), body@) == packed_bodies(
                        rest,
                        Seq::<u8>::empty(),
                    ));
                }
            }
        }
        proof {
            assert(evs.skip(n as int) =~= Seq::<TraceEvent>::empty());
        }
        if body.len() > 0 {
            let frame = codec::encode_frame(Command::TracePush, &body);
            proof {
                assert(frame@.skip(12) =~= body@);
                assert(is_push_frame(frame@));
                lemma_frames_bodies_snoc(frames@, frame);
            }
            let ghost prev_map = frames@.map_values(|f: Vec<u8>| f@.skip(12));
            frames.push(frame);
            proof {
                assert(frames_bodies(frames@) =~= records_bytes(evs.take(n as int)));
                assert(frames@.map_values(|f: Vec<u8>| f@.skip(12)) =~= prev_map.push(body@));
                assert(packed_bodies(Seq::<TraceEvent>::empty(), body@) == seq![body@]);
                assert(prev_map.push(body@) =~= prev_map + seq![body@]);
            }
        } else {
            proof {
                assert(packed_bodies(Seq::<TraceEvent>::empty(), body@)
                    =~= Seq::<Seq<u8>>::empty());
                assert(frames@.map_values(|f: Vec<u8>| f@.skip(12)) + Seq::<Seq<u8>>::empty()
                    =~= frames@.map_values(|f: Vec<u8>| f@.skip(12)));
            }
        }
        self.events = Vec::new();
        self.occupancy = 0;
        proof {
            assert(evs.take(n as int) =~= evs);
            assert(self@ =~= Seq::<TraceEvent>::empty());
            if body@.len() == 0 {
                assert(frames_bodies(frames@) =~= records_bytes(evs));
            }
        }
        frames
    }
}

} // verus!
