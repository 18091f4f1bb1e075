//! The engine state machine behind the reactor loop.
//!
//! One background thread owns this state and drives it from readiness
//! events: producer submissions and registrations arriving over the ingress
//! channel, the two logical timers, the listener, and the collector
//! connection. Every decision the loop takes — what to buffer, when to
//! flush, which frames and datagrams to put on the wire, when to tear a
//! connection down and what that resets — is made here and verified; the
//! caller only moves bytes, arms real timers to mirror the armed flags,
//! and reports what the sockets did.

use vstd::prelude::*;

use crate::beacon;
use crate::buffer;
use crate::buffer::TraceBuffer;
use crate::buffer::TraceEvent;
use crate::codec;
use crate::codec::Command;
use crate::names;
use crate::registry;
use crate::registry::RegEntry;
use crate::registry::Registry;

verus! {

/// Whether announcing is enabled at startup: a positive announce interval,
/// an interface to bind, and a multicast address that parsed.
pub fn announce_enabled(announce_interval_ms: u64, have_iface: bool, have_mcast_addr: bool) -> (r:
    bool)
    ensures
        r == (announce_interval_ms > 0 && have_iface && have_mcast_addr),
{
    announce_interval_ms > 0 && have_iface && have_mcast_addr
}

/// Static configuration the engine starts with.
pub struct EngineConfig {
    /// Host name advertised in announcements.
    pub hostname: Vec<u8>,
    /// Process name advertised in announcements.
    pub process_name: Vec<u8>,
    /// Flush interval for the batching buffer, in milliseconds; positive.
    pub flush_interval_ms: u64,
    /// Announce interval, in milliseconds.
    pub announce_interval_ms: u64,
    /// Whether announcing is enabled (see [`announce_enabled`]).
    pub announce_configured: bool,
    /// Local port of the TCP listener, advertised in announcements.
    pub port: u16,
}

/// What the engine decides about a received frame header.
pub enum HeaderOutcome {
    /// Header valid: read a body of this many bytes and hand it to
    /// [`Engine::on_command`] under this command.
    Proceed(Command, u32),
    /// Protocol violation: the connection was torn down; drain and drop
    /// the socket.
    Rejected,
}

/// What the engine decides about a received command body.
pub enum CommandOutcome {
    /// Send this reply frame to the collector.
    Reply(Vec<u8>),
    /// The request was applied; nothing to send.
    Applied,
    /// Protocol violation: the connection was torn down; drain and drop
    /// the socket.
    Rejected,
}

/// The registry after processing one enable/disable request: each listed
/// name, taken under its wire lookup key, has its flag set to `v`, in
/// list order.
pub open spec fn apply_sets(reg: Seq<RegEntry>, list: Seq<Seq<u8>>, v: bool) -> Seq<RegEntry>
    decreases list.len(),
{
    if list.len() == 0 {
        reg
    } else {
        apply_sets(registry::reg_set(reg, names::wire_lookup_key(list[0]), v), list.drop_first(), v)
    }
}

/// Bytes a submission under `raw` with `payload` would add to the buffer
/// occupancy.
pub open spec fn event_size_of(raw: Seq<u8>, payload: Seq<u8>) -> int {
    names::normalize_spec(raw).len() + 8 + payload.len() as int
}

/// The engine context: registry, batching buffer, connection and timer
/// state, and the announcement sequence number.
pub struct Engine {
    cfg: EngineConfig,
    registry: Registry,
    buffer: TraceBuffer,
    connected: bool,
    flush_timer_armed: bool,
    announce_timer_armed: bool,
    sequence_no: u64,
}

impl Engine {
    /// The registry contents.
    pub closed spec fn reg(&self) -> Seq<RegEntry> {
        self.registry@
    }

    /// The buffered events, in submission order.
    pub closed spec fn buf(&self) -> Seq<TraceEvent> {
        self.buffer@
    }

    /// The buffer's byte-occupancy counter.
    pub closed spec fn occupancy(&self) -> int {
        self.buffer.occupancy()
    }

    /// Whether a collector connection is currently held.
    pub closed spec fn is_connected(&self) -> bool {
        self.connected
    }

    /// Whether the flush timer is armed.
    pub closed spec fn flush_armed(&self) -> bool {
        self.flush_timer_armed
    }

    /// Whether the announce timer is armed.
    pub closed spec fn announce_armed(&self) -> bool {
        self.announce_timer_armed
    }

    /// Whether announcing was configured at startup.
    pub closed spec fn announce_configured(&self) -> bool {
        self.cfg.announce_configured
    }

    /// The announcement sequence number.
    pub closed spec fn seq_no(&self) -> u64 {
        self.sequence_no
    }

    /// Advertised host name.
    pub closed spec fn hostname(&self) -> Seq<u8> {
        self.cfg.hostname@
    }

    /// Advertised process name.
    pub closed spec fn process_name(&self) -> Seq<u8> {
        self.cfg.process_name@
    }

    /// The listener's local port.
    pub closed spec fn port_no(&self) -> u16 {
        self.cfg.port
    }

    /// Configured flush interval in milliseconds.
    pub closed spec fn flush_ms(&self) -> u64 {
        self.cfg.flush_interval_ms
    }

    /// Configured announce interval in milliseconds.
    pub closed spec fn announce_ms(&self) -> u64 {
        self.cfg.announce_interval_ms
    }

    /// The engine invariant, held by every public method at its quiescent
    /// points: the registry and buffer are internally consistent, the
    /// occupancy never rests above the flush threshold, the flush timer is
    /// armed exactly while a connection exists and the buffer is
    /// non-empty, the announce timer exactly while announcing is
    /// configured and no connection exists, and while no collector is
    /// connected every tracepoint flag is down.
    pub closed spec fn wf(&self) -> bool {
        &&& self.registry.wf()
        &&& self.buffer.wf()
        &&& self.occupancy() <= 4096
        &&& self.flush_timer_armed == (self.connected && self.buffer@.len() > 0)
        &&& self.announce_timer_armed == (self.cfg.announce_configured && !self.connected)
        &&& !self.connected ==> registry::reg_none_enabled(self.registry@)
        &&& self.cfg.flush_interval_ms >= 1
    }

    /// The configuration carried unchanged across a step.
    pub open spec fn same_cfg(&self, other: &Engine) -> bool {
        &&& other.hostname() == self.hostname()
        &&& other.process_name() == self.process_name()
        &&& other.port_no() == self.port_no()
        &&& other.flush_ms() == self.flush_ms()
        &&& other.announce_ms() == self.announce_ms()
        &&& other.announce_configured() == self.announce_configured()
    }

    /// A fresh engine: empty registry and buffer, no connection, the
    /// announce timer armed exactly when announcing is configured.
    pub fn new(cfg: EngineConfig) -> (r: Engine)
        requires
            cfg.flush_interval_ms >= 1,
        ensures
            r.wf(),
            r.reg() == Seq::<RegEntry>::empty(),
            r.buf() == Seq::<TraceEvent>::empty(),
            r.occupancy() == 0,
            !r.is_connected(),
            !r.flush_armed(),
            r.announce_armed() == cfg.announce_configured,
            r.announce_configured() == cfg.announce_configured,
            r.seq_no() == 0,
            r.hostname() == cfg.hostname@,
            r.process_name() == cfg.process_name@,
            r.port_no() == cfg.port,
            r.flush_ms() == cfg.flush_interval_ms,
            r.announce_ms() == cfg.announce_interval_ms,
    {
        let armed = cfg.announce_configured;
        Engine {
            cfg,
            registry: Registry::new(),
            buffer: TraceBuffer::new(),
            connected: false,
            flush_timer_armed: false,
            announce_timer_armed: armed,
            sequence_no: 0,
        }
    }

    /// Registers a tracepoint under the normalized form of `raw`, with its
    /// flag down. Returns 0 on success and -1 when `raw` holds a non-ASCII
    /// byte or its normalized form is already registered.
    pub fn register(&mut self, raw: &Vec<u8>) -> (r: i32)
        requires
            old(self).wf(),
        ensures
            final(self).wf(),
            r == 0 || r == -1,
            (r == 0) == register_accepts(old(self).reg(), raw@),
            r == 0 ==> final(self).reg() == old(self).reg().push(
                (names::normalize_spec(raw@), false),
            ),
            r == -1 ==> final(self).reg() == old(self).reg(),
            final(self).buf() == old(self).buf(),
            final(self).occupancy() == old(self).occupancy(),
            final(self).is_connected() == old(self).is_connected(),
            final(self).flush_armed() == old(self).flush_armed(),
            final(self).announce_armed() == old(self).announce_armed(),
            final(self).seq_no() == old(self).seq_no(),
            old(self).same_cfg(final(self)),
    {
        let norm = match names::normalize_name(raw) {
            Some(n) => n,
            None => {
                return -1;
            },
        };
        if self.registry.contains(&norm) {
            return -1;
        }
        proof {
            names::lemma_normalize_normal(raw@);
        }
        self.registry.insert(norm);
        0
    }

    /// Whether the tracepoint named by `raw` is currently enabled; names
    /// that reject or were never registered read as disabled.
    pub fn is_enabled(&self, raw: &Vec<u8>) -> (r: bool)
        requires
            self.wf(),
        ensures
            r == (names::is_ascii_seq(raw@) && registry::reg_enabled(
                self.reg(),
                names::normalize_spec(raw@),
            )),
    {
        match names::normalize_name(raw) {
            Some(n) => self.registry.is_enabled(&n),
            None => false,
        }
    }

    /// Accepts one submission: the payload must be 1..=2048 bytes, a
    /// collector must be connected, and the tracepoint must be registered
    /// and enabled; otherwise the submission is discarded without trace.
    /// An accepted event is appended to the buffer; if the occupancy then
    /// exceeds the threshold the buffer is flushed at once and the frames
    /// returned, otherwise the flush timer is armed.
    pub fn submit(&mut self, raw: &Vec<u8>, timestamp: u64, data: &Vec<u8>) -> (frames: Vec<
        Vec<u8>,
    >)
        requires
            old(self).wf(),
        ensures
            final(self).wf(),
            final(self).reg() == old(self).reg(),
            final(self).is_connected() == old(self).is_connected(),
            final(self).announce_armed() == old(self).announce_armed(),
            final(self).seq_no() == old(self).seq_no(),
            old(self).same_cfg(final(self)),
            !submit_accepted(old(self), raw@, data@.len() as int) ==> {
                &&& final(self).buf() == old(self).buf()
                &&& final(self).occupancy() == old(self).occupancy()
                &&& final(self).flush_armed() == old(self).flush_armed()
                &&& frames@.len() == 0
            },
            submit_accepted(old(self), raw@, data@.len() as int) && old(self).occupancy()
                + event_size_of(raw@, data@) <= 4096 ==> {
                &&& final(self).buf().len() == old(self).buf().len() + 1
                &&& final(self).buf().take(old(self).buf().len() as int) == old(self).buf()
                &&& final(self).buf().last().name@ == names::normalize_spec(raw@)
                &&& final(self).buf().last().timestamp == timestamp
                &&& final(self).buf().last().payload@ == data@
                &&& final(self).occupancy() == old(self).occupancy() + event_size_of(raw@, data@)
                &&& final(self).flush_armed()
                &&& frames@.len() == 0
            },
            submit_accepted(old(self), raw@, data@.len() as int) && old(self).occupancy()
                + event_size_of(raw@, data@) > 4096 ==> {
                &&& final(self).buf().len() == 0
                &&& final(self).occupancy() == 0
                &&& !final(self).flush_armed()
                &&& buffer::push_frames_wf(frames@)
                &&& buffer::frames_bodies(frames@) == buffer::records_bytes(old(self).buf())
                    + codec::record_bytes(names::normalize_spec(raw@), timestamp, data@)
            },
    {
        if data.len() == 0 || data.len() > crate::MAX_SUBMIT_LEN {
            return Vec::new();
        }
        if !self.connected {
            return Vec::new();
        }
        let norm = match names::normalize_name(raw) {
            Some(n) => n,
            None => {
                return Vec::new();
            },
        };
        if !self.registry.is_enabled(&norm) {
            return Vec::new();
        }
        let payload = codec::copy_range(data, 0, data.len());
        proof {
            assert(payload@ =~= data@);
            names::lemma_normalize_normal(raw@);
        }
        let ev = TraceEvent { name: norm, timestamp, payload };
        let ghost gev = ev;
        let ghost prev_buf = self.buffer@;
        self.buffer.enqueue(ev);
        if self.buffer.occupancy_bytes() > crate::QUEUE_TOTAL_SIZE {
            self.flush_timer_armed = false;
            let frames = self.buffer.drain_frames();
            proof {
                buffer::lemma_records_bytes_snoc(prev_buf, gev);
                assert(gev.enc() == codec::record_bytes(
                    names::normalize_spec(raw@),
                    timestamp,
                    data@,
                ));
            }
            frames
        } else {
            self.flush_timer_armed = true;
            proof {
                assert(prev_buf.push(gev).take(prev_buf.len() as int) =~= prev_buf);
                assert(prev_buf.push(gev).last() == gev);
            }
            Vec::new()
        }
    }

    /// The flush timer fired: clear it and drain the buffer into frames
    /// for the wire.
    pub fn on_flush_timer(&mut self) -> (frames: Vec<Vec<u8>>)
        requires
            old(self).wf(),
            old(self).flush_armed(),
        ensures
            final(self).wf(),
            final(self).reg() == old(self).reg(),
            final(self).is_connected() == old(self).is_connected(),
            final(self).announce_armed() == old(self).announce_armed(),
            final(self).seq_no() == old(self).seq_no(),
            old(self).same_cfg(final(self)),
            final(self).buf().len() == 0,
            final(self).occupancy() == 0,
            !final(self).flush_armed(),
            buffer::push_frames_wf(frames@),
            buffer::frames_bodies(frames@) == buffer::records_bytes(old(self).buf()),
            frames@.map_values(|f: Vec<u8>| f@.skip(12)) == buffer::packed_bodies(
                old(self).buf(),
                Seq::<u8>::empty(),
            ),
    {
        self.flush_timer_armed = false;
        self.buffer.drain_frames()
    }

    /// The announce timer fired: build this tick's datagram, step the
    /// sequence number (wrapping at the type's end), and keep the timer
    /// armed for the next tick.
    pub fn on_announce_timer(&mut self) -> (datagram: Vec<u8>)
        requires
            old(self).wf(),
            old(self).announce_armed(),
        ensures
            final(self).wf(),
            final(self).reg() == old(self).reg(),
            final(self).buf() == old(self).buf(),
            final(self).occupancy() == old(self).occupancy(),
            final(self).is_connected() == old(self).is_connected(),
            final(self).flush_armed() == old(self).flush_armed(),
            final(self).announce_armed(),
            old(self).same_cfg(final(self)),
            final(self).seq_no() == if old(self).seq_no() == u64::MAX {
                0u64
            } else {
                (old(self).seq_no() + 1) as u64
            },
            datagram@ == beacon::announcement_bytes(
                old(self).seq_no(),
                old(self).announce_ms(),
                old(self).hostname(),
                old(self).process_name(),
                old(self).port_no(),
            ),
    {
        let d = beacon::build_announcement(
            self.sequence_no,
            self.cfg.announce_interval_ms,
            &self.cfg.hostname,
            &self.cfg.process_name,
            self.cfg.port,
        );
        if self.sequence_no == u64::MAX {
            self.sequence_no = 0;
        } else {
            self.sequence_no = self.sequence_no + 1;
        }
        d
    }

    /// The listener is readable. With no connection held, the caller
    /// accepts the socket and this transition takes effect: the connection
    /// slot fills, the announce timer stops, and the flush timer arms if
    /// submissions are already waiting. While a connection is held the
    /// readiness is ignored.
    pub fn on_accept(&mut self) -> (accepted: bool)
        requires
            old(self).wf(),
        ensures
            final(self).wf(),
            accepted == !old(self).is_connected(),
            final(self).reg() == old(self).reg(),
            final(self).buf() == old(self).buf(),
            final(self).occupancy() == old(self).occupancy(),
            final(self).seq_no() == old(self).seq_no(),
            old(self).same_cfg(final(self)),
            old(self).is_connected() ==> final(self).is_connected() && final(self).flush_armed()
                == old(self).flush_armed() && final(self).announce_armed() == old(
                self,
            ).announce_armed(),
            !old(self).is_connected() ==> {
                &&& final(self).is_connected()
                &&& !final(self).announce_armed()
                &&& final(self).flush_armed() == (old(self).buf().len() > 0)
            },
    {
        if self.connected {
            return false;
        }
        self.connected = true;
        self.announce_timer_armed = false;
        self.flush_timer_armed = self.buffer.len() > 0;
        true
    }

    /// Tears the connection down: the slot empties, the flush timer
    /// stops, every tracepoint flag is forced down, and the announce timer
    /// starts again if announcing is configured. The buffer keeps its
    /// contents for a later connection or the final flush.
    pub fn on_disconnect(&mut self)
        requires
            old(self).wf(),
            old(self).is_connected(),
        ensures
            final(self).wf(),
            !final(self).is_connected(),
            final(self).reg() == registry::reg_all_off(old(self).reg()),
            registry::reg_none_enabled(final(self).reg()),
            !final(self).flush_armed(),
            final(self).announce_armed() == old(self).announce_configured(),
            final(self).buf() == old(self).buf(),
            final(self).occupancy() == old(self).occupancy(),
            final(self).seq_no() == old(self).seq_no(),
            old(self).same_cfg(final(self)),
    {
        self.connected = false;
        self.flush_timer_armed = false;
        self.registry.disable_all();
        self.announce_timer_armed = self.cfg.announce_configured;
    }

    /// A 12-byte header arrived on the connection. A valid header names
    /// the command and how many body bytes to read next; an invalid one
    /// tears the connection down on the spot.
    pub fn on_header(&mut self, header: &Vec<u8>) -> (r: HeaderOutcome)
        requires
            old(self).wf(),
            old(self).is_connected(),
            header@.len() == 12,
        ensures
            final(self).wf(),
            final(self).buf() == old(self).buf(),
            final(self).occupancy() == old(self).occupancy(),
            final(self).seq_no() == old(self).seq_no(),
            old(self).same_cfg(final(self)),
            codec::header_valid(header@) ==> {
                &&& r matches HeaderOutcome::Proceed(c, l) && codec::command_code(c)
                    == codec::header_cmd(header@) && l == codec::header_len(header@)
                &&& final(self).reg() == old(self).reg()
                &&& final(self).is_connected()
                &&& final(self).flush_armed() == old(self).flush_armed()
                &&& final(self).announce_armed() == old(self).announce_armed()
            },
            !codec::header_valid(header@) ==> {
                &&& r is Rejected
                &&& !final(self).is_connected()
                &&& final(self).reg() == registry::reg_all_off(old(self).reg())
                &&& !final(self).flush_armed()
                &&& final(self).announce_armed() == old(self).announce_configured()
            },
    {
        match codec::parse_header(header) {
            Some((c, l)) => HeaderOutcome::Proceed(c, l),
            None => {
                self.on_disconnect();
                HeaderOutcome::Rejected
            },
        }
    }

    /// The body of a validated request arrived. A list request yields the
    /// reply frame to send; an enable or disable request is applied to the
    /// registry name by name under the wire lookup key; a body that does
    /// not tile into name entries, or a list reply too large for a frame's
    /// length field, tears the connection down.
    pub fn on_command(&mut self, cmd: Command, body: &Vec<u8>) -> (r: CommandOutcome)
        requires
            old(self).wf(),
            old(self).is_connected(),
            codec::command_code(cmd) == 1 || codec::command_code(cmd) == 3 || codec::command_code(
                cmd,
            ) == 4,
        ensures
            final(self).wf(),
            final(self).buf() == old(self).buf(),
            final(self).occupancy() == old(self).occupancy(),
            final(self).seq_no() == old(self).seq_no(),
            old(self).same_cfg(final(self)),
            cmd is TracepointListRequest ==> {
                if registry::list_body_bytes(old(self).reg()).len() <= 0xFFFF_FFFF {
                    &&& r matches CommandOutcome::Reply(f) && f@ == codec::frame_bytes(
                        2,
                        registry::list_body_bytes(old(self).reg()),
                    )
                    &&& final(self).reg() == old(self).reg()
                    &&& final(self).is_connected()
                    &&& final(self).flush_armed() == old(self).flush_armed()
                    &&& final(self).announce_armed() == old(self).announce_armed()
                } else {
                    &&& r is Rejected
                    &&& !final(self).is_connected()
                    &&& final(self).reg() == registry::reg_all_off(old(self).reg())
                }
            },
            (cmd is TracepointEnableRequest || cmd is TracepointDisableRequest) ==> {
                if codec::name_list_valid(body@) {
                    &&& r is Applied
                    &&& final(self).reg() == apply_sets(
                        old(self).reg(),
                        codec::name_list_names(body@),
                        cmd is TracepointEnableRequest,
                    )
                    &&& final(self).is_connected()
                    &&& final(self).flush_armed() == old(self).flush_armed()
                    &&& final(self).announce_armed() == old(self).announce_armed()
                } else {
                    &&& r is Rejected
                    &&& !final(self).is_connected()
                    &&& final(self).reg() == registry::reg_all_off(old(self).reg())
                    &&& !final(self).flush_armed()
                    &&& final(self).announce_armed() == old(self).announce_configured()
                }
            },
    {
        match cmd {
            Command::TracepointListRequest => {
                let body_bytes = self.registry.encode_list_body();
                if body_bytes.len() > 0xFFFF_FFFFusize {
                    self.on_disconnect();
                    return CommandOutcome::Rejected;
                }
                let frame = codec::encode_frame(Command::TracepointListReply, &body_bytes);
                CommandOutcome::Reply(frame)
            },
            Command::TracepointEnableRequest => self.apply_set_request(body, true),
            Command::TracepointDisableRequest => self.apply_set_request(body, false),
            _ => {
                proof {
                    assert(false);
                }
                CommandOutcome::Rejected
            },
        }
    }

    /// Applies one enable/disable request body to the registry.
    fn apply_set_request(&mut self, body: &Vec<u8>, v: bool) -> (r: CommandOutcome)
        requires
            old(self).wf(),
            old(self).is_connected(),
        ensures
            final(self).wf(),
            final(self).buf() == old(self).buf(),
            final(self).occupancy() == old(self).occupancy(),
            final(self).seq_no() == old(self).seq_no(),
            old(self).same_cfg(final(self)),
            codec::name_list_valid(body@) ==> {
                &&& r is Applied
                &&& final(self).reg() == apply_sets(
                    old(self).reg(),
                    codec::name_list_names(body@),
                    v,
                )
                &&& final(self).is_connected()
                &&& final(self).flush_armed() == old(self).flush_armed()
                &&& final(self).announce_armed() == old(self).announce_armed()
            },
            !codec::name_list_valid(body@) ==> {
                &&& r is Rejected
                &&& !final(self).is_connected()
                &&& final(self).reg() == registry::reg_all_off(old(self).reg())
                &&& !final(self).flush_armed()
                &&& final(self).announce_armed() == old(self).announce_configured()
            },
    {
        let list = match codec::parse_name_list(body) {
            Some(l) => l,
            None => {
                self.on_disconnect();
                return CommandOutcome::Rejected;
            },
        };
        let ghost reg0 = self.reg();
        let ghost all = codec::name_list_names(body@);
        let n = list.len();
        let mut i: usize = 0;
        proof {
            assert(all.skip(0) =~= all);
        }
        while i < n
            invariant
                i <= n,
                n == list@.len(),
                list@.map_values(|x: Vec<u8>| x@) == all,
                self.registry.wf(),
                apply_sets(self.reg(), all.skip(i as int), v) == apply_sets(reg0, all, v),
                self.buffer == old(self).buffer,
                self.connected == old(self).connected,
                self.flush_timer_armed == old(self).flush_timer_armed,
                self.announce_timer_armed == old(self).announce_timer_armed,
                self.sequence_no == old(self).sequence_no,
                self.cfg == old(self).cfg,
            decreases n - i,
        {
            let name = &list[i];
            proof {
                assert(all[i as int] == list@.map_values(|x: Vec<u8>| x@)[i as int]);
            }
            let ghost reg_before = self.reg();
            if crate::names::check_valid_utf8(name) {
                self.registry.set_enabled(name, v);
                proof {
                    assert(names::wire_lookup_key(all[i as int]) == name@);
                }
            } else {
                let empty_key: Vec<u8> = Vec::new();
                self.registry.set_enabled(&empty_key, v);
                proof {
                    assert(names::wire_lookup_key(all[i as int]) =~= Seq::<u8>::empty());
                    assert(names::wire_lookup_key(all[i as int]) == empty_key@);
                }
            }
            i = i + 1;
            proof {
                let rest = all.skip(i as int - 1);
                assert(rest[0] == all[i as int - 1]);
                assert(rest.drop_first() =~= all.skip(i as int));
                assert(apply_sets(self.reg(), all.skip(i as int), v) == apply_sets(
                    reg_before,
                    rest,
                    v,
                ));
            }
        }
        proof {
            assert(all.skip(n as int) =~= Seq::<Seq<u8>>::empty());
        }
        CommandOutcome::Applied
    }

    /// The shutdown message arrived: if a collector is connected the
    /// buffer is flushed one last time and the frames returned for a
    /// best-effort send; the loop then exits either way.
    pub fn on_terminate(&mut self) -> (frames: Vec<Vec<u8>>)
        requires
            old(self).wf(),
        ensures
            final(self).wf(),
            final(self).reg() == old(self).reg(),
            final(self).is_connected() == old(self).is_connected(),
            final(self).announce_armed() == old(self).announce_armed(),
            final(self).seq_no() == old(self).seq_no(),
            old(self).same_cfg(final(self)),
            old(self).is_connected() ==> {
                &&& buffer::push_frames_wf(frames@)
                &&& buffer::frames_bodies(frames@) == buffer::records_bytes(old(self).buf())
                &&& frames@.map_values(|f: Vec<u8>| f@.skip(12)) == buffer::packed_bodies(
                    old(self).buf(),
                    Seq::<u8>::empty(),
                )
                &&& final(self).buf().len() == 0
                &&& final(self).occupancy() == 0
                &&& !final(self).flush_armed()
            },
            !old(self).is_connected() ==> {
                &&& frames@.len() == 0
                &&& final(self).buf() == old(self).buf()
                &&& final(self).occupancy() == old(self).occupancy()
                &&& final(self).flush_armed() == old(self).flush_armed()
            },
    {
        if self.connected {
            self.flush_timer_armed = false;
            self.buffer.drain_frames()
        } else {
            Vec::new()
        }
    }

    /// Whether a collector is connected, as the producer-facing flag
    /// mirrors it.
    pub fn client_connected(&self) -> (r: bool)
        ensures
            r == self.is_connected(),
    {
        self.connected
    }

    /// Whether the flush timer should be armed, for the caller to mirror
    /// onto a real timer.
    pub fn flush_timer_armed(&self) -> (r: bool)
        ensures
            r == self.flush_armed(),
    {
        self.flush_timer_armed
    }

    /// Whether the announce timer should be armed, for the caller to
    /// mirror onto a real timer.
    pub fn announce_timer_armed(&self) -> (r: bool)
        ensures
            r == self.announce_armed(),
    {
        self.announce_timer_armed
    }

    /// Number of buffered events.
    pub fn buffered_count(&self) -> (r: usize)
        ensures
            r == self.buf().len(),
    {
        self.buffer.len()
    }

    /// Current buffer occupancy in bytes.
    pub fn buffered_bytes(&self) -> (r: usize)
        ensures
            r == self.occupancy(),
    {
        self.buffer.occupancy_bytes()
    }

    /// Configured flush interval in milliseconds.
    pub fn flush_interval_ms(&self) -> (r: u64)
        ensures
            r == self.flush_ms(),
    {
        self.cfg.flush_interval_ms
    }

    /// Configured announce interval in milliseconds.
    pub fn announce_interval_ms(&self) -> (r: u64)
        ensures
            r == self.announce_ms(),
    {
        self.cfg.announce_interval_ms
    }
}

/// Whether a registration under `raw` succeeds against registry `reg`:
/// the raw name is ASCII and its normalized form is not yet present.
pub open spec fn register_accepts(reg: Seq<RegEntry>, raw: Seq<u8>) -> bool {
    &&& names::is_ascii_seq(raw)
    &&& !registry::reg_contains(reg, names::normalize_spec(raw))
}

/// Whether a submission is accepted: payload within bounds, a collector
/// connected, and the tracepoint enabled under the normalized name at the
/// moment of submission.
pub open spec fn submit_accepted(e: &Engine, raw: Seq<u8>, payload_len: int) -> bool {
    &&& 1 <= payload_len <= 2048
    &&& e.is_connected()
    &&& names::is_ascii_seq(raw)
    &&& registry::reg_enabled(e.reg(), names::normalize_spec(raw))
}

/// The flush timer is armed exactly while the buffer is non-empty and a
/// collector connection exists.
pub proof fn lemma_flush_timer_iff(e: &Engine)
    requires
        e.wf(),
    ensures
        e.flush_armed() == (e.is_connected() && e.buf().len() > 0),
{
}

/// The announce timer is armed exactly while announcing is configured and
/// no collector connection exists.
pub proof fn lemma_announce_timer_iff(e: &Engine)
    requires
        e.wf(),
    ensures
        e.announce_armed() == (e.announce_configured() && !e.is_connected()),
{
}

/// While no collector is connected, every registry flag is down; in
/// particular this holds from the moment a connection closes until the
/// next enable command of a later connection.
pub proof fn lemma_disconnected_all_disabled(e: &Engine)
    requires
        e.wf(),
        !e.is_connected(),
    ensures
        registry::reg_none_enabled(e.reg()),
{
}

/// The buffer's occupancy counter equals the summed size of the buffered
/// events.
pub proof fn lemma_occupancy_is_sum(e: &Engine)
    requires
        e.wf(),
    ensures
        e.occupancy() == buffer::sum_sizes(e.buf()),
{
}

/// A producer that observes no connection cannot have a submission
/// accepted, and so cannot reach any frame of a later connection.
pub proof fn lemma_disconnected_no_emission(e: &Engine, raw: Seq<u8>, payload_len: int)
    requires
        !e.is_connected(),
    ensures
        !submit_accepted(e, raw, payload_len),
{
}

/// A tracepoint whose flag is down at submission time — in particular
/// after a disable request for it has been fully processed — has its
/// submissions discarded, never buffered and never transmitted.
pub proof fn lemma_disabled_not_accepted(e: &Engine, raw: Seq<u8>, payload_len: int)
    requires
        !registry::reg_enabled(e.reg(), names::normalize_spec(raw)),
    ensures
        !submit_accepted(e, raw, payload_len),
{
}

/// Setting one name's flag leaves every other name's flag alone, and the
/// named one reads as `v` exactly when the name is present.
pub proof fn lemma_reg_set_enabled(reg: Seq<RegEntry>, n: Seq<u8>, v: bool, k: Seq<u8>)
    ensures
        registry::reg_enabled(registry::reg_set(reg, n, v), k) == if k == n {
            v && registry::reg_contains(reg, k)
        } else {
            registry::reg_enabled(reg, k)
        },
{
    let r2 = registry::reg_set(reg, n, v);
    assert(r2.len() == reg.len());
    if k == n {
        if v && registry::reg_contains(reg, k) {
            let i = choose|i: int| 0 <= i < reg.len() && reg[i].0 == k;
            assert(r2[i] == (k, v));
            assert(registry::reg_enabled(r2, k));
        }
        if registry::reg_enabled(r2, k) {
            let i = choose|i: int| 0 <= i < r2.len() && r2[i].0 == k && r2[i].1;
            assert(reg[i].0 == k);
            assert(registry::reg_contains(reg, k));
            assert(r2[i].1 == v);
        }
    } else {
        if registry::reg_enabled(reg, k) {
            let i = choose|i: int| 0 <= i < reg.len() && reg[i].0 == k && reg[i].1;
            assert(r2[i] == reg[i]);
            assert(registry::reg_enabled(r2, k));
        }
        if registry::reg_enabled(r2, k) {
            let i = choose|i: int| 0 <= i < r2.len() && r2[i].0 == k && r2[i].1;
            assert(r2[i] == reg[i]);
            assert(registry::reg_enabled(reg, k));
        }
    }
}

/// After a disable request is fully processed, every name it listed reads
/// as disabled.
pub proof fn lemma_disable_request_clears(reg: Seq<RegEntry>, list: Seq<Seq<u8>>, i: int)
    requires
        0 <= i < list.len(),
    ensures
        !registry::reg_enabled(apply_sets(reg, list, false), names::wire_lookup_key(list[i])),
    decreases list.len(),
{
    let k0 = names::wire_lookup_key(list[0]);
    let reg1 = registry::reg_set(reg, k0, false);
    if i == 0 {
        lemma_apply_disable_monotone(reg1, list.drop_first(), k0);
        lemma_reg_set_enabled(reg, k0, false, k0);
    } else {
        assert(list.drop_first()[i - 1] == list[i]);
        lemma_disable_request_clears(reg1, list.drop_first(), i - 1);
    }
}

/// Applying a disable list never raises a flag that was down.
proof fn lemma_apply_disable_monotone(reg: Seq<RegEntry>, list: Seq<Seq<u8>>, k: Seq<u8>)
    requires
        !registry::reg_enabled(reg, k),
    ensures
        !registry::reg_enabled(apply_sets(reg, list, false), k),
    decreases list.len(),
{
    if list.len() > 0 {
        let k0 = names::wire_lookup_key(list[0]);
        lemma_reg_set_enabled(reg, k0, false, k);
        lemma_apply_disable_monotone(
            registry::reg_set(reg, k0, false),
            list.drop_first(),
            k,
        );
    }
}

/// A raw name that collides with a registered one after normalization —
/// it differs only by ASCII case or beyond the 32nd byte — is rejected at
/// registration.
pub proof fn lemma_register_collision(e: &Engine, a: Seq<u8>, b: Seq<u8>)
    requires
        registry::reg_contains(e.reg(), names::normalize_spec(a)),
        names::truncated(a).len() == names::truncated(b).len(),
        forall|i: int|
            0 <= i < names::truncated(a).len() ==> names::lower_byte(names::truncated(a)[i])
                == names::lower_byte(names::truncated(b)[i]),
    ensures
        !register_accepts(e.reg(), b),
{
    names::lemma_case_and_tail_collide(a, b);
}

} // verus!
