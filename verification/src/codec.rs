//! Byte-exact wire codec: big-endian integer encodings, the 12-byte frame
//! header, trace-event records, the tracepoint-list reply body, and the
//! enable/disable request body parser.

use vstd::prelude::*;

verus! {

/// The 4-byte magic that opens every frame and every announcement datagram.
pub open spec fn magic() -> Seq<u8> {
    seq![0x52u8, 0x75u8, 0x53u8, 0x74u8]
}

/// Pushes the 4 magic bytes.
pub fn push_magic(out: &mut Vec<u8>)
    ensures
        final(out)@ == old(out)@ + magic(),
{
    out.push(0x52u8);
    out.push(0x75u8);
    out.push(0x53u8);
    out.push(0x74u8);
    proof {
        assert(out@ =~= old(out)@ + magic());
    }
}

/// Big-endian bytes of a `u16`.
pub open spec fn u16_be(x: u16) -> Seq<u8> {
    seq![(x / 0x100) as u8, (x % 0x100) as u8]
}

/// Big-endian bytes of a `u32`.
pub open spec fn u32_be(x: u32) -> Seq<u8> {
    seq![
        (x / 0x100_0000) as u8,
        ((x / 0x1_0000) % 0x100) as u8,
        ((x / 0x100) % 0x100) as u8,
        (x % 0x100) as u8,
    ]
}

/// Big-endian bytes of a `u64`.
pub open spec fn u64_be(x: u64) -> Seq<u8> {
    seq![
        (x / 0x100_0000_0000_0000) as u8,
        ((x / 0x1_0000_0000_0000) % 0x100) as u8,
        ((x / 0x100_0000_0000) % 0x100) as u8,
        ((x / 0x1_0000_0000) % 0x100) as u8,
        ((x / 0x100_0000) % 0x100) as u8,
        ((x / 0x1_0000) % 0x100) as u8,
        ((x / 0x100) % 0x100) as u8,
        (x % 0x100) as u8,
    ]
}

/// The `u16` a 2-byte big-endian sequence denotes.
pub open spec fn u16_of_be(b0: u8, b1: u8) -> u16 {
    (b0 * 0x100 + b1) as u16
}

/// The `u32` a 4-byte big-endian sequence denotes.
pub open spec fn u32_of_be(b0: u8, b1: u8, b2: u8, b3: u8) -> u32 {
    (b0 * 0x100_0000 + b1 * 0x1_0000 + b2 * 0x100 + b3) as u32
}

/// The `u64` an 8-byte big-endian sequence denotes.
pub open spec fn u64_of_be(b: Seq<u8>) -> u64
    recommends
        b.len() == 8,
{
    (b[0] * 0x100_0000_0000_0000 + b[1] * 0x1_0000_0000_0000 + b[2] * 0x100_0000_0000 + b[3]
        * 0x1_0000_0000 + b[4] * 0x100_0000 + b[5] * 0x1_0000 + b[6] * 0x100 + b[7]) as u64
}

pub fn push_u16_be(out: &mut Vec<u8>, x: u16)
    ensures
        final(out)@ == old(out)@ + u16_be(x),
{
    out.push((x / 0x100) as u8);
    out.push((x % 0x100) as u8);
    proof {
        assert(out@ =~= old(out)@ + u16_be(x));
    }
}

pub fn push_u32_be(out: &mut Vec<u8>, x: u32)
    ensures
        final(out)@ == old(out)@ + u32_be(x),
{
    out.push((x / 0x100_0000) as u8);
    out.push(((x / 0x1_0000) % 0x100) as u8);
    out.push(((x / 0x100) % 0x100) as u8);
    out.push((x % 0x100) as u8);
    proof {
        assert(out@ =~= old(out)@ + u32_be(x));
    }
}

pub fn push_u64_be(out: &mut Vec<u8>, x: u64)
    ensures
        final(out)@ == old(out)@ + u64_be(x),
{
    out.push((x / 0x100_0000_0000_0000) as u8);
    out.push(((x / 0x1_0000_0000_0000) % 0x100) as u8);
    out.push(((x / 0x100_0000_0000) % 0x100) as u8);
    out.push(((x / 0x1_0000_0000) % 0x100) as u8);
    out.push(((x / 0x100_0000) % 0x100) as u8);
    out.push(((x / 0x1_0000) % 0x100) as u8);
    out.push(((x / 0x100) % 0x100) as u8);
    out.push((x % 0x100) as u8);
    proof {
        assert(out@ =~= old(out)@ + u64_be(x));
    }
}

/// Splits `x` at one base-256 digit: `x == 256 * (x / 256) + x % 256`,
/// with the digit and the quotient in range.
proof fn lemma_byte_split(x: int, bound: int)
    requires
        0 <= x < bound,
        0 < bound,
    ensures
        x == 0x100 * (x / 0x100) + x % 0x100,
        0 <= x % 0x100 < 0x100,
        0 <= x / 0x100,
        x / 0x100 < bound / 0x100 + 1,
    decreases 0int,
{
    vstd::arithmetic::div_mod::lemma_fundamental_div_mod(x, 0x100);
    vstd::arithmetic::div_mod::lemma_mod_bound(x, 0x100);
    vstd::arithmetic::div_mod::lemma_div_pos_is_pos(x, 0x100);
    assert(x / 0x100 <= bound / 0x100) by {
        vstd::arithmetic::div_mod::lemma_div_is_ordered(x, bound, 0x100);
    }
}

/// Reading back the two big-endian bytes of a `u16` yields the `u16`.
pub proof fn lemma_u16_be_round_trip(x: u16)
    ensures
        u16_of_be(u16_be(x)[0], u16_be(x)[1]) == x,
{
    lemma_byte_split(x as int, 0x1_0000);
}

/// Reading back the four big-endian bytes of a `u32` yields the `u32`.
pub proof fn lemma_u32_be_round_trip(x: u32)
    ensures
        u32_of_be(u32_be(x)[0], u32_be(x)[1], u32_be(x)[2], u32_be(x)[3]) == x,
{
    let xi = x as int;
    let q1 = xi / 0x100;
    let q2 = q1 / 0x100;
    let q3 = q2 / 0x100;
    lemma_byte_split(xi, 0x1_0000_0000);
    lemma_byte_split(q1, 0x100_0000);
    lemma_byte_split(q2, 0x1_0000);
    lemma_byte_split(q3, 0x100);
    assert(q2 == xi / 0x1_0000) by {
        vstd::arithmetic::div_mod::lemma_div_denominator(xi, 0x100, 0x100);
    }
    assert(q3 == xi / 0x100_0000) by {
        vstd::arithmetic::div_mod::lemma_div_denominator(xi, 0x1_0000, 0x100);
    }
    assert(q3 % 0x100 == q3) by {
        vstd::arithmetic::div_mod::lemma_small_mod(q3 as nat, 0x100);
    }
}

/// Reading back the eight big-endian bytes of a `u64` yields the `u64`.
pub proof fn lemma_u64_be_round_trip(x: u64)
    ensures
        u64_of_be(u64_be(x)) == x,
{
    let xi = x as int;
    let q1 = xi / 0x100;
    let q2 = q1 / 0x100;
    let q3 = q2 / 0x100;
    let q4 = q3 / 0x100;
    let q5 = q4 / 0x100;
    let q6 = q5 / 0x100;
    let q7 = q6 / 0x100;
    lemma_byte_split(xi, 0x1_0000_0000_0000_0000);
    lemma_byte_split(q1, 0x100_0000_0000_0000);
    lemma_byte_split(q2, 0x1_0000_0000_0000);
    lemma_byte_split(q3, 0x100_0000_0000);
    lemma_byte_split(q4, 0x1_0000_0000);
    lemma_byte_split(q5, 0x100_0000);
    lemma_byte_split(q6, 0x1_0000);
    lemma_byte_split(q7, 0x100);
    assert(q2 == xi / 0x1_0000) by {
        vstd::arithmetic::div_mod::lemma_div_denominator(xi, 0x100, 0x100);
    }
    assert(q3 == xi / 0x100_0000) by {
        vstd::arithmetic::div_mod::lemma_div_denominator(xi, 0x1_0000, 0x100);
    }
    assert(q4 == xi / 0x1_0000_0000) by {
        vstd::arithmetic::div_mod::lemma_div_denominator(xi, 0x100_0000, 0x100);
    }
    assert(q5 == xi / 0x100_0000_0000) by {
        vstd::arithmetic::div_mod::lemma_div_denominator(xi, 0x1_0000_0000, 0x100);
    }
    assert(q6 == xi / 0x1_0000_0000_0000) by {
        vstd::arithmetic::div_mod::lemma_div_denominator(xi, 0x100_0000_0000, 0x100);
    }
    assert(q7 == xi / 0x100_0000_0000_0000) by {
        vstd::arithmetic::div_mod::lemma_div_denominator(xi, 0x1_0000_0000_0000, 0x100);
    }
    assert(q7 % 0x100 == q7) by {
        vstd::arithmetic::div_mod::lemma_small_mod(q7 as nat, 0x100);
    }
}

/// Appends all of `src` to `out`.
pub fn push_bytes(out: &mut Vec<u8>, src: &Vec<u8>)
    ensures
        final(out)@ == old(out)@ + src@,
{
    let n = src.len();
    let mut i: usize = 0;
    while i < n
        invariant
            i <= n,
            n == src@.len(),
            out@ == old(out)@ + src@.take(i as int),
        decreases n - i,
    {
        out.push(src[i]);
        i = i + 1;
        proof {
            assert(out@ =~= old(out)@ + src@.take(i as int));
        }
    }
    proof {
        assert(src@.take(n as int) =~= src@);
    }
}

/// Copies `b[start..end]` into a fresh vector.
pub fn copy_range(b: &Vec<u8>, start: usize, end: usize) -> (r: Vec<u8>)
    requires
        start <= end <= b@.len(),
    ensures
        r@ == b@.subrange(start as int, end as int),
{
    let mut r: Vec<u8> = Vec::new();
    let mut i: usize = start;
    while i < end
        invariant
            start <= i <= end <= b@.len(),
            r@ == b@.subrange(start as int, i as int),
        decreases end - i,
    {
        r.push(b[i]);
        i = i + 1;
        proof {
            assert(r@ =~= b@.subrange(start as int, i as int));
        }
    }
    r
}

/// A command of the framing protocol.
#[derive(Clone, Copy, Debug, PartialEq, Eq, Structural)]
pub enum Command {
    TracepointListRequest,
    TracepointListReply,
    TracepointEnableRequest,
    TracepointDisableRequest,
    TracePush,
}

/// The code under which a command travels in a frame header.
pub open spec fn command_code(c: Command) -> u16 {
    match c {
        Command::TracepointListRequest => 1,
        Command::TracepointListReply => 2,
        Command::TracepointEnableRequest => 3,
        Command::TracepointDisableRequest => 4,
        Command::TracePush => 5,
    }
}

/// Executable counterpart of [`command_code`].
pub fn code_of_command(c: Command) -> (r: u16)
    ensures
        r == command_code(c),
{
    match c {
        Command::TracepointListRequest => 1,
        Command::TracepointListReply => 2,
        Command::TracepointEnableRequest => 3,
        Command::TracepointDisableRequest => 4,
        Command::TracePush => 5,
    }
}

/// The 12-byte frame header: magic, zero flags, command code, body length.
pub open spec fn header_bytes(cmd: u16, len: u32) -> Seq<u8> {
    magic() + u16_be(0) + u16_be(cmd) + u32_be(len)
}

/// Command code carried by a 12-byte header.
pub open spec fn header_cmd(h: Seq<u8>) -> u16
    recommends
        h.len() >= 8,
{
    u16_of_be(h[6], h[7])
}

/// Body length carried by a 12-byte header.
pub open spec fn header_len(h: Seq<u8>) -> u32
    recommends
        h.len() >= 12,
{
    u32_of_be(h[8], h[9], h[10], h[11])
}

/// The command/length pairs a collector may legally send: a list request
/// carries no body, enable and disable requests must carry one.
pub open spec fn request_cmd_ok(cmd: u16, len: u32) -> bool {
    ||| (cmd == 1 && len == 0)
    ||| (cmd == 3 && len != 0)
    ||| (cmd == 4 && len != 0)
}

/// A received header passes validation: magic intact, flags clear, and a
/// permitted command code with a sensible body length.
pub open spec fn header_valid(h: Seq<u8>) -> bool
    recommends
        h.len() == 12,
{
    &&& h.subrange(0, 4) == magic()
    &&& h[4] == 0
    &&& h[5] == 0
    &&& request_cmd_ok(header_cmd(h), header_len(h))
}

/// Builds the 12-byte header for `cmd` over a body of `len` bytes.
pub fn encode_header(cmd: Command, len: u32) -> (r: Vec<u8>)
    ensures
        r@ == header_bytes(command_code(cmd), len),
        r@.len() == 12,
{
    let mut r: Vec<u8> = Vec::new();
    push_magic(&mut r);
    push_u16_be(&mut r, 0);
    push_u16_be(&mut r, code_of_command(cmd));
    push_u32_be(&mut r, len);
    r
}

/// Validates a received 12-byte header and extracts its command and body
/// length. `None` means the frame must be rejected and the connection torn
/// down: bad magic, non-zero flags, a command the collector may not send,
/// or a length that contradicts the command.
pub fn parse_header(h: &Vec<u8>) -> (r: Option<(Command, u32)>)
    requires
        h@.len() == 12,
    ensures
        r is Some <==> header_valid(h@),
        r matches Some((c, l)) ==> command_code(c) == header_cmd(h@) && l == header_len(h@),
{
    if !(h[0] == 0x52 && h[1] == 0x75 && h[2] == 0x53 && h[3] == 0x74) {
        proof {
            assert(h@.subrange(0, 4) != magic()) by {
                if h@.subrange(0, 4) == magic() {
                    assert(h@.subrange(0, 4)[0] == 0x52u8);
                    assert(h@.subrange(0, 4)[1] == 0x75u8);
                    assert(h@.subrange(0, 4)[2] == 0x53u8);
                    assert(h@.subrange(0, 4)[3] == 0x74u8);
                }
            }
        }
        return None;
    }
    proof {
        assert(h@.subrange(0, 4) =~= magic());
    }
    if h[4] != 0 || h[5] != 0 {
        return None;
    }
    let cmd: u16 = (h[6] as u16) * 0x100 + (h[7] as u16);
    let len: u32 = (h[8] as u32) * 0x100_0000 + (h[9] as u32) * 0x1_0000 + (h[10] as u32) * 0x100
        + (h[11] as u32);
    if cmd == 1 && len == 0 {
        Some((Command::TracepointListRequest, len))
    } else if cmd == 3 && len != 0 {
        Some((Command::TracepointEnableRequest, len))
    } else if cmd == 4 && len != 0 {
        Some((Command::TracepointDisableRequest, len))
    } else {
        None
    }
}

/// Encoding a header and validating it gives back the command and length,
/// for every command a collector may send and every length fitting 32 bits.
pub proof fn lemma_header_round_trip(cmd: u16, len: u32)
    requires
        request_cmd_ok(cmd, len),
    ensures
        header_valid(header_bytes(cmd, len)),
        header_cmd(header_bytes(cmd, len)) == cmd,
        header_len(header_bytes(cmd, len)) == len,
{
    let h = header_bytes(cmd, len);
    assert(h.subrange(0, 4) =~= magic());
    lemma_u16_be_round_trip(cmd);
    lemma_u32_be_round_trip(len);
    assert(h[6] == u16_be(cmd)[0] && h[7] == u16_be(cmd)[1]);
    assert(h[8] == u32_be(len)[0] && h[9] == u32_be(len)[1] && h[10] == u32_be(len)[2] && h[11]
        == u32_be(len)[3]);
}

/// A frame: the header for `cmd`, then the body.
pub open spec fn frame_bytes(cmd: u16, body: Seq<u8>) -> Seq<u8>
    recommends
        body.len() <= 0xFFFF_FFFF,
{
    header_bytes(cmd, body.len() as u32) + body
}

/// Well-formedness of an emitted frame: it opens with the magic, its flags
/// are zero, its command is one the agent emits (list reply or trace push),
/// and its length field equals the byte count of the body that follows.
pub open spec fn frame_wf(f: Seq<u8>) -> bool {
    &&& f.len() >= 12
    &&& f.subrange(0, 4) == magic()
    &&& f[4] == 0
    &&& f[5] == 0
    &&& (header_cmd(f) == 2 || header_cmd(f) == 5)
    &&& header_len(f) == f.len() - 12
}

/// Every frame the agent assembles for a list reply or a trace push is
/// well-formed.
pub proof fn lemma_emitted_frame_wf(cmd: u16, body: Seq<u8>)
    requires
        cmd == 2 || cmd == 5,
        body.len() <= 0xFFFF_FFFF,
    ensures
        frame_wf(frame_bytes(cmd, body)),
{
    let f = frame_bytes(cmd, body);
    let h = header_bytes(cmd, body.len() as u32);
    assert(f.subrange(0, 4) =~= magic());
    lemma_u16_be_round_trip(cmd);
    lemma_u32_be_round_trip(body.len() as u32);
    assert(f[6] == h[6] && f[7] == h[7] && f[8] == h[8] && f[9] == h[9] && f[10] == h[10] && f[11]
        == h[11]);
    assert(h[6] == u16_be(cmd)[0] && h[7] == u16_be(cmd)[1]);
    assert(h[8] == u32_be(body.len() as u32)[0] && h[9] == u32_be(body.len() as u32)[1] && h[10]
        == u32_be(body.len() as u32)[2] && h[11] == u32_be(body.len() as u32)[3]);
}

/// Assembles a full frame for `cmd` around `body`.
pub fn encode_frame(cmd: Command, body: &Vec<u8>) -> (r: Vec<u8>)
    requires
        body@.len() <= 0xFFFF_FFFF,
    ensures
        r@ == frame_bytes(command_code(cmd), body@),
        r@.len() == 12 + body@.len(),
{
    let mut r = encode_header(cmd, body.len() as u32);
    push_bytes(&mut r, body);
    r
}

/// One trace-event record inside a trace-push body:
/// name length, name, timestamp, payload length, payload.
pub open spec fn record_bytes(name: Seq<u8>, timestamp: u64, payload: Seq<u8>) -> Seq<u8>
    recommends
        name.len() <= 0xFFFF,
        payload.len() <= 0xFFFF,
{
    u16_be(name.len() as u16) + name + u64_be(timestamp) + u16_be(payload.len() as u16) + payload
}

/// Appends the record encoding of one trace event.
pub fn push_record(out: &mut Vec<u8>, name: &Vec<u8>, timestamp: u64, payload: &Vec<u8>)
    requires
        name@.len() <= 0xFFFF,
        payload@.len() <= 0xFFFF,
    ensures
        final(out)@ == old(out)@ + record_bytes(name@, timestamp, payload@),
{
    push_u16_be(out, name.len() as u16);
    push_bytes(out, name);
    push_u64_be(out, timestamp);
    push_u16_be(out, payload.len() as u16);
    push_bytes(out, payload);
    proof {
        assert(out@ =~= old(out)@ + record_bytes(name@, timestamp, payload@));
    }
}

/// Validity of an enable/disable request body: a tiling of
/// (2-byte length, that many name bytes) entries, each name at most
/// 32 bytes, consuming the body exactly.
pub open spec fn name_list_valid(b: Seq<u8>) -> bool
    decreases b.len(),
{
    if b.len() == 0 {
        true
    } else if b.len() < 2 {
        false
    } else {
        let nl = u16_of_be(b[0], b[1]) as int;
        nl <= 32 && b.len() >= 2 + nl && name_list_valid(b.skip(2 + nl))
    }
}

/// The names a valid enable/disable request body lists, in order.
pub open spec fn name_list_names(b: Seq<u8>) -> Seq<Seq<u8>>
    decreases b.len(),
{
    if b.len() < 2 {
        Seq::empty()
    } else {
        let nl = u16_of_be(b[0], b[1]) as int;
        if nl <= 32 && b.len() >= 2 + nl {
            seq![b.subrange(2, 2 + nl)] + name_list_names(b.skip(2 + nl))
        } else {
            Seq::empty()
        }
    }
}

/// Parses an enable/disable request body into its list of names.
/// `None` means the body violates the protocol (a name length over 32, or
/// an entry running past the end of the body) and the connection must be
/// torn down.
pub fn parse_name_list(b: &Vec<u8>) -> (r: Option<Vec<Vec<u8>>>)
    ensures
        r is Some <==> name_list_valid(b@),
        r matches Some(names) ==> names@.map_values(|n: Vec<u8>| n@) == name_list_names(b@),
{
    let n = b.len();
    let mut pos: usize = 0;
    let mut names: Vec<Vec<u8>> = Vec::new();
    proof {
        assert(b@.skip(0) =~= b@);
        assert(names@.map_values(|x: Vec<u8>| x@) =~= Seq::<Seq<u8>>::empty());
    }
    while pos < n
        invariant
            pos <= n,
            n == b@.len(),
            name_list_valid(b@) <==> name_list_valid(b@.skip(pos as int)),
            name_list_valid(b@.skip(pos as int)) ==> names@.map_values(|x: Vec<u8>| x@)
                + name_list_names(b@.skip(pos as int)) =~= name_list_names(b@),
        decreases n - pos,
    {
        let ghost rest = b@.skip(pos as int);
        if n - pos < 2 {
            proof {
                assert(!name_list_valid(rest));
            }
            return None;
        }
        let nl: u16 = (b[pos] as u16) * 0x100 + (b[pos + 1] as u16);
        proof {
            assert(rest[0] == b@[pos as int] && rest[1] == b@[pos as int + 1]);
        }
        if nl > 32 {
            proof {
                assert(!name_list_valid(rest));
            }
            return None;
        }
        if (n - pos - 2) < nl as usize {
            proof {
                assert(!name_list_valid(rest));
            }
            return None;
        }
        let name = copy_range(b, pos + 2, pos + 2 + nl as usize);
        proof {
            assert(name@ =~= rest.subrange(2, 2 + nl as int));
            assert(rest.skip(2 + nl as int) =~= b@.skip(pos as int + 2 + nl as int));
            assert(name_list_valid(rest) <==> name_list_valid(rest.skip(2 + nl as int)));
            if name_list_valid(rest.skip(2 + nl as int)) {
                assert(name_list_names(rest) =~= seq![name@] + name_list_names(
                    rest.skip(2 + nl as int),
                ));
            }
        }
        let ghost prev_names = names@;
        names.push(name);
        pos = pos + 2 + nl as usize;
        proof {
            assert(names@.map_values(|x: Vec<u8>| x@) =~= prev_names.map_values(
                |x: Vec<u8>| x@,
            ).push(name@));
            if name_list_valid(b@.skip(pos as int)) {
                assert(names@.map_values(|x: Vec<u8>| x@) + name_list_names(b@.skip(pos as int))
                    =~= name_list_names(b@));
            }
        }
    }
    proof {
        assert(b@.skip(n as int) =~= Seq::<u8>::empty());
        assert(name_list_valid(b@.skip(n as int)));
        assert(name_list_names(b@.skip(n as int)) =~= Seq::<Seq<u8>>::empty());
    }
    Some(names)
}

} // verus!
