//! The UDP announcement datagram: the 4-byte magic followed by a JSON
//! object advertising this agent's identity and listening port.
//!
//! The field names are fixed wire vocabulary; in particular
//! `protocoll_version` is spelled with two l's on the wire and must stay
//! that way.

use vstd::prelude::*;

use crate::codec;
use vstd::string::StrSliceExecFns;
use vstd::string::StringSliceAdditionalSpecFns;

verus! {

/// Decimal digits of `n`, most significant first, no sign, no padding.
pub open spec fn dec_rep(n: nat) -> Seq<u8>
    decreases n,
{
    if n < 10 {
        seq![(0x30 + n) as u8]
    } else {
        dec_rep(n / 10).push((0x30 + n % 10) as u8)
    }
}

/// Appends the decimal digits of `n`.
pub fn push_dec_u64(out: &mut Vec<u8>, n: u64)
    ensures
        final(out)@ == old(out)@ + dec_rep(n as nat),
    decreases n,
{
    if n < 10 {
        out.push(0x30 + n as u8);
        proof {
            assert(out@ =~= old(out)@ + dec_rep(n as nat));
        }
    } else {
        push_dec_u64(out, n / 10);
        out.push(0x30 + (n % 10) as u8);
        proof {
            assert(out@ =~= old(out)@ + dec_rep(n as nat));
        }
    }
}

/// Opening of the JSON object, up to the sequence number.
pub open spec fn lit_sequence_nr() -> Seq<u8> {
    "{ \"sequence_nr\": ".spec_bytes()
}

/// The two version fields and the opening of the update-interval field.
pub open spec fn lit_versions_interval() -> Seq<u8> {
    ",\"server_version\": \"1.1.0\", \"protocoll_version\": \"1.1.0\",\"update_interval_msecs\": ".spec_bytes()
}

/// Opening of the hostname field.
pub open spec fn lit_hostname() -> Seq<u8> {
    ",\"hostname\": \"".spec_bytes()
}

/// Close of the hostname field and opening of the process-name field.
pub open spec fn lit_process_name() -> Seq<u8> {
    "\", \"process_name\": \"".spec_bytes()
}

/// Close of the process-name field and opening of the port field.
pub open spec fn lit_port() -> Seq<u8> {
    "\",\"port\": ".spec_bytes()
}

/// Close of the JSON object.
pub open spec fn lit_close() -> Seq<u8> {
    "}".spec_bytes()
}

/// The wire value of `update_interval_msecs`: whole seconds of the
/// announce interval plus its leftover milliseconds, kept as-is for wire
/// compatibility.
pub open spec fn update_interval_field(announce_interval_ms: u64) -> u64 {
    (announce_interval_ms / 1000 + announce_interval_ms % 1000) as u64
}

/// The JSON object of one announcement.
pub open spec fn announcement_json(
    seq_nr: u64,
    announce_interval_ms: u64,
    hostname: Seq<u8>,
    process_name: Seq<u8>,
    port: u16,
) -> Seq<u8> {
    lit_sequence_nr() + dec_rep(seq_nr as nat) + lit_versions_interval() + dec_rep(
        update_interval_field(announce_interval_ms) as nat,
    ) + lit_hostname() + hostname + lit_process_name() + process_name + lit_port() + dec_rep(
        port as nat,
    ) + lit_close()
}

/// One full announcement datagram: the magic, then the JSON object.
pub open spec fn announcement_bytes(
    seq_nr: u64,
    announce_interval_ms: u64,
    hostname: Seq<u8>,
    process_name: Seq<u8>,
    port: u16,
) -> Seq<u8> {
    codec::magic() + announcement_json(seq_nr, announce_interval_ms, hostname, process_name, port)
}

/// Builds the announcement datagram for one beacon tick.
pub fn build_announcement(
    seq_nr: u64,
    announce_interval_ms: u64,
    hostname: &Vec<u8>,
    process_name: &Vec<u8>,
    port: u16,
) -> (r: Vec<u8>)
    ensures
        r@ == announcement_bytes(seq_nr, announce_interval_ms, hostname@, process_name@, port),
{
    let mut r: Vec<u8> = Vec::new();
    codec::push_magic(&mut r);
    let lit1 = "{ \"sequence_nr\": ".as_bytes_vec();
    codec::push_bytes(&mut r, &lit1);
    push_dec_u64(&mut r, seq_nr);
    let lit2 =
        ",\"server_version\": \"1.1.0\", \"protocoll_version\": \"1.1.0\",\"update_interval_msecs\": ".as_bytes_vec();
    codec::push_bytes(&mut r, &lit2);
    let interval = announce_interval_ms / 1000 + announce_interval_ms % 1000;
    push_dec_u64(&mut r, interval);
    let lit3 = ",\"hostname\": \"".as_bytes_vec();
    codec::push_bytes(&mut r, &lit3);
    codec::push_bytes(&mut r, hostname);
    let lit4 = "\", \"process_name\": \"".as_bytes_vec();
    codec::push_bytes(&mut r, &lit4);
    codec::push_bytes(&mut r, process_name);
    let lit5 = "\",\"port\": ".as_bytes_vec();
    codec::push_bytes(&mut r, &lit5);
    push_dec_u64(&mut r, port as u64);
    let lit6 = "}".as_bytes_vec();
    codec::push_bytes(&mut r, &lit6);
    proof {
        assert(dec_rep((port as u64) as nat) == dec_rep(port as nat));
        assert(r@ =~= announcement_bytes(
            seq_nr,
            announce_interval_ms,
            hostname@,
            process_name@,
            port,
        ));
    }
    r
}

} // verus!
