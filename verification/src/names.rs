//! Tracepoint name normalization and the UTF-8 lookup-key rule for names
//! arriving over the wire.
//!
//! A name offered for registration must be ASCII; it is truncated to 32
//! bytes and lower-cased, and the normalized form is the identity under
//! which all registry lookups, protocol references and deduplication work.

use vstd::prelude::*;

verus! {

/// Every byte is ASCII.
pub open spec fn is_ascii_seq(s: Seq<u8>) -> bool {
    forall|i: int| 0 <= i < s.len() ==> s[i] < 0x80
}

/// ASCII lower-casing of one byte.
pub open spec fn lower_byte(b: u8) -> u8 {
    if 0x41 <= b <= 0x5A {
        (b + 0x20) as u8
    } else {
        b
    }
}

/// The first 32 bytes of a name; shorter names stay whole.
pub open spec fn truncated(s: Seq<u8>) -> Seq<u8> {
    if s.len() <= 32 {
        s
    } else {
        s.take(32)
    }
}

/// The normalized form of a raw name: truncated to 32 bytes, lower-cased.
pub open spec fn normalize_spec(s: Seq<u8>) -> Seq<u8> {
    truncated(s).map_values(|b: u8| lower_byte(b))
}

/// A name as the registry stores it: at most 32 bytes, ASCII, already in
/// normalized form.
pub open spec fn is_normal_name(s: Seq<u8>) -> bool {
    &&& s.len() <= 32
    &&& is_ascii_seq(s)
    &&& normalize_spec(s) == s
}

/// Normalizing an ASCII name yields a normal name.
pub proof fn lemma_normalize_normal(s: Seq<u8>)
    requires
        is_ascii_seq(s),
    ensures
        is_normal_name(normalize_spec(s)),
{
    let v = normalize_spec(s);
    assert(is_ascii_seq(v)) by {
        assert forall|i: int| 0 <= i < v.len() implies v[i] < 0x80 by {
            assert(v[i] == lower_byte(truncated(s)[i]));
        }
    }
    assert(normalize_spec(v) =~= v) by {
        assert forall|i: int| 0 <= i < v.len() implies normalize_spec(v)[i] == v[i] by {
            assert(normalize_spec(v)[i] == lower_byte(v[i]));
            assert(v[i] == lower_byte(truncated(s)[i]));
        }
    }
}

/// Normalizes a raw name, or reports that it holds a non-ASCII byte and
/// must be rejected.
pub fn normalize_name(raw: &Vec<u8>) -> (r: Option<Vec<u8>>)
    ensures
        r is Some <==> is_ascii_seq(raw@),
        r matches Some(v) ==> v@ == normalize_spec(raw@),
{
    let n = raw.len();
    let mut i: usize = 0;
    while i < n
        invariant
            i <= n,
            n == raw@.len(),
            forall|j: int| 0 <= j < i ==> raw@[j] < 0x80,
        decreases n - i,
    {
        if raw[i] >= 0x80 {
            return None;
        }
        i = i + 1;
    }
    let m: usize = if n > 32 {
        32
    } else {
        n
    };
    let mut v: Vec<u8> = Vec::new();
    let mut k: usize = 0;
    while k < m
        invariant
            k <= m,
            m == truncated(raw@).len(),
            m <= n == raw@.len(),
            v@.len() == k,
            forall|j: int| 0 <= j < k ==> v@[j] == lower_byte(raw@[j]),
        decreases m - k,
    {
        let b = raw[k];
        if b >= 0x41 && b <= 0x5A {
            v.push(b + 0x20);
        } else {
            v.push(b);
        }
        k = k + 1;
    }
    proof {
        assert(v@ =~= normalize_spec(raw@)) by {
            assert forall|j: int| 0 <= j < m implies v@[j] == normalize_spec(raw@)[j] by {
                assert(truncated(raw@)[j] == raw@[j]);
                assert(normalize_spec(raw@)[j] == lower_byte(truncated(raw@)[j]));
            }
        }
    }
    Some(v)
}

/// A raw name that differs from another only by ASCII case, or only beyond
/// the 32nd byte, normalizes to the same registry key, and so collides with
/// it at registration.
pub proof fn lemma_case_and_tail_collide(a: Seq<u8>, b: Seq<u8>)
    requires
        truncated(a).len() == truncated(b).len(),
        forall|i: int|
            0 <= i < truncated(a).len() ==> lower_byte(truncated(a)[i]) == lower_byte(
                truncated(b)[i],
            ),
    ensures
        normalize_spec(a) == normalize_spec(b),
{
    assert(normalize_spec(a) =~= normalize_spec(b)) by {
        assert forall|i: int|
            0 <= i < normalize_spec(a).len() implies normalize_spec(a)[i] == normalize_spec(
            b,
        )[i] by {
            assert(normalize_spec(a)[i] == lower_byte(truncated(a)[i]));
            assert(normalize_spec(b)[i] == lower_byte(truncated(b)[i]));
        }
    }
}

/// Whether a byte is a UTF-8 continuation byte.
pub open spec fn is_utf8_cont(b: u8) -> bool {
    0x80 <= b <= 0xBF
}

/// Length of the well-formed UTF-8 character opening `s`, or 0 when `s`
/// does not open with one.
pub open spec fn utf8_char_len(s: Seq<u8>) -> int {
    if s.len() >= 1 && s[0] < 0x80 {
        1
    } else if s.len() >= 2 && 0xC2 <= s[0] <= 0xDF && is_utf8_cont(s[1]) {
        2
    } else if s.len() >= 3 && s[0] == 0xE0 && 0xA0 <= s[1] <= 0xBF && is_utf8_cont(s[2]) {
        3
    } else if s.len() >= 3 && 0xE1 <= s[0] <= 0xEC && is_utf8_cont(s[1]) && is_utf8_cont(s[2]) {
        3
    } else if s.len() >= 3 && s[0] == 0xED && 0x80 <= s[1] <= 0x9F && is_utf8_cont(s[2]) {
        3
    } else if s.len() >= 3 && 0xEE <= s[0] <= 0xEF && is_utf8_cont(s[1]) && is_utf8_cont(s[2]) {
        3
    } else if s.len() >= 4 && s[0] == 0xF0 && 0x90 <= s[1] <= 0xBF && is_utf8_cont(s[2])
        && is_utf8_cont(s[3]) {
        4
    } else if s.len() >= 4 && 0xF1 <= s[0] <= 0xF3 && is_utf8_cont(s[1]) && is_utf8_cont(s[2])
        && is_utf8_cont(s[3]) {
        4
    } else if s.len() >= 4 && s[0] == 0xF4 && 0x80 <= s[1] <= 0x8F && is_utf8_cont(s[2])
        && is_utf8_cont(s[3]) {
        4
    } else {
        0
    }
}

/// Whether `s` is a well-formed UTF-8 byte sequence.
pub open spec fn is_valid_utf8(s: Seq<u8>) -> bool
    decreases s.len(),
{
    if s.len() == 0 {
        true
    } else {
        utf8_char_len(s) > 0 && is_valid_utf8(s.skip(utf8_char_len(s)))
    }
}

/// Decides UTF-8 validity of a byte vector.
pub fn check_valid_utf8(b: &Vec<u8>) -> (r: bool)
    ensures
        r == is_valid_utf8(b@),
{
    let n = b.len();
    let mut pos: usize = 0;
    proof {
        assert(b@.skip(0) =~= b@);
    }
    while pos < n
        invariant
            pos <= n,
            n == b@.len(),
            is_valid_utf8(b@) <==> is_valid_utf8(b@.skip(pos as int)),
        decreases n - pos,
    {
        let ghost rest = b@.skip(pos as int);
        let left = n - pos;
        let c0 = b[pos];
        proof {
            assert(rest[0] == b@[pos as int]);
            if left >= 2 {
                assert(rest[1] == b@[pos as int + 1]);
            }
            if left >= 3 {
                assert(rest[2] == b@[pos as int + 2]);
            }
            if left >= 4 {
                assert(rest[3] == b@[pos as int + 3]);
            }
        }
        let k: usize = if c0 < 0x80 {
            1
        } else if left >= 2 && 0xC2 <= c0 && c0 <= 0xDF && is_cont(b[pos + 1]) {
            2
        } else if left >= 3 && c0 == 0xE0 && 0xA0 <= b[pos + 1] && b[pos + 1] <= 0xBF && is_cont(
            b[pos + 2],
        ) {
            3
        } else if left >= 3 && 0xE1 <= c0 && c0 <= 0xEC && is_cont(b[pos + 1]) && is_cont(
            b[pos + 2],
        ) {
            3
        } else if left >= 3 && c0 == 0xED && 0x80 <= b[pos + 1] && b[pos + 1] <= 0x9F && is_cont(
            b[pos + 2],
        ) {
            3
        } else if left >= 3 && 0xEE <= c0 && c0 <= 0xEF && is_cont(b[pos + 1]) && is_cont(
            b[pos + 2],
        ) {
            3
        } else if left >= 4 && c0 == 0xF0 && 0x90 <= b[pos + 1] && b[pos + 1] <= 0xBF && is_cont(
            b[pos + 2],
        ) && is_cont(b[pos + 3]) {
            4
        } else if left >= 4 && 0xF1 <= c0 && c0 <= 0xF3 && is_cont(b[pos + 1]) && is_cont(
            b[pos + 2],
        ) && is_cont(b[pos + 3]) {
            4
        } else if left >= 4 && c0 == 0xF4 && 0x80 <= b[pos + 1] && b[pos + 1] <= 0x8F && is_cont(
            b[pos + 2],
        ) && is_cont(b[pos + 3]) {
            4
        } else {
            0
        };
        proof {
            assert(utf8_char_len(rest) == k as int);
        }
        if k == 0 {
            proof {
                assert(!is_valid_utf8(rest));
            }
            return false;
        }
        pos = pos + k;
        proof {
            assert(rest.skip(k as int) =~= b@.skip(pos as int));
        }
    }
    proof {
        assert(b@.skip(n as int) =~= Seq::<u8>::empty());
    }
    true
}

/// Executable counterpart of [`is_utf8_cont`].
fn is_cont(b: u8) -> (r: bool)
    ensures
        r == is_utf8_cont(b),
{
    0x80 <= b && b <= 0xBF
}

/// The key under which a name received over the wire is looked up in the
/// registry: the name itself when it decodes as UTF-8, the empty name
/// otherwise.
pub open spec fn wire_lookup_key(n: Seq<u8>) -> Seq<u8> {
    if is_valid_utf8(n) {
        n
    } else {
        Seq::empty()
    }
}

} // verus!
