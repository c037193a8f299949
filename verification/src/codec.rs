//! The serialized form of a user record: a fixed little-endian binary layout,
//! with length-prefixed UTF-8 strings.  Decoding accepts exactly the byte
//! strings that encoding produces and rejects everything else, so a stored
//! record reads back unchanged and a corrupt value reads as absent.

use vstd::prelude::*;
use vstd::string::StrSliceExecFns;
use vstd::utf8::{decode_utf8, encode_utf8, valid_utf8};
use crate::user::{InputMode, User, UserV};

verus! {

/// One more than the largest length a 64-bit prefix can carry.
pub open spec fn len_limit() -> int {
    0x10000000000000000
}

/// Four little-endian bytes.
pub open spec fn enc_u32(n: u32) -> Seq<u8> {
    seq![
        (n & 0xff) as u8,
        ((n >> 8) & 0xff) as u8,
        ((n >> 16) & 0xff) as u8,
        ((n >> 24) & 0xff) as u8,
    ]
}

/// Eight little-endian bytes.
pub open spec fn enc_u64(n: u64) -> Seq<u8> {
    seq![
        (n & 0xff) as u8,
        ((n >> 8) & 0xff) as u8,
        ((n >> 16) & 0xff) as u8,
        ((n >> 24) & 0xff) as u8,
        ((n >> 32) & 0xff) as u8,
        ((n >> 40) & 0xff) as u8,
        ((n >> 48) & 0xff) as u8,
        ((n >> 56) & 0xff) as u8,
    ]
}

/// A sign byte, then the magnitude (negative values as `-(n + 1)`).
pub open spec fn enc_i64(n: i64) -> Seq<u8> {
    if n >= 0 {
        seq![0u8] + enc_u64(n as u64)
    } else {
        seq![1u8] + enc_u64((-(n + 1)) as u64)
    }
}

/// One byte, 0 or 1.
pub open spec fn enc_bool(b: bool) -> Seq<u8> {
    if b {
        seq![1u8]
    } else {
        seq![0u8]
    }
}

/// One byte per input-mode variant.
pub open spec fn enc_mode(m: InputMode) -> Seq<u8> {
    match m {
        InputMode::Idle => seq![0u8],
        InputMode::AwaitingNote => seq![1u8],
    }
}

/// Length-prefixed UTF-8 bytes.
pub open spec fn enc_str(s: Seq<char>) -> Seq<u8> {
    enc_u64(encode_utf8(s).len() as u64) + encode_utf8(s)
}

/// The strings of a list, one after the other.
pub open spec fn enc_items(l: Seq<Seq<char>>) -> Seq<u8>
    decreases l.len(),
{
    if l.len() == 0 {
        Seq::empty()
    } else {
        enc_str(l[0]) + enc_items(l.drop_first())
    }
}

/// A count, then the strings.
pub open spec fn enc_list(l: Seq<Seq<char>>) -> Seq<u8> {
    enc_u64(l.len() as u64) + enc_items(l)
}

/// The full record, field by field.
pub open spec fn enc_user(u: UserV) -> Seq<u8> {
    enc_u32(u.level) + enc_u32(u.xp) + enc_u32(u.gold) + enc_list(u.log) + enc_list(u.notes)
        + enc_mode(u.input) + enc_bool(u.awaiting_ping) + enc_i64(u.last_ping_ts)
}

/// Every length that the encoding stores in a 64-bit prefix really fits one.
/// This holds of any record held in memory.
pub open spec fn fits_codec(u: UserV) -> bool {
    &&& u.log.len() < len_limit()
    &&& u.notes.len() < len_limit()
    &&& forall|i: int| 0 <= i < u.log.len() ==> encode_utf8(#[trigger] u.log[i]).len() < len_limit()
    &&& forall|i: int|
        0 <= i < u.notes.len() ==> encode_utf8(#[trigger] u.notes[i]).len() < len_limit()
}

/// Reads four little-endian bytes.
pub open spec fn dec_u32(b: Seq<u8>) -> Option<(u32, Seq<u8>)> {
    if b.len() < 4 {
        None
    } else {
        Some(
            (
                (b[0] as u32) | ((b[1] as u32) << 8) | ((b[2] as u32) << 16) | (
                (b[3] as u32) << 24),
                b.skip(4),
            ),
        )
    }
}

/// Reads eight little-endian bytes.
pub open spec fn dec_u64(b: Seq<u8>) -> Option<(u64, Seq<u8>)> {
    if b.len() < 8 {
        None
    } else {
        Some(
            (
                (b[0] as u64) | ((b[1] as u64) << 8) | ((b[2] as u64) << 16) | ((b[3] as u64)
                    << 24) | ((b[4] as u64) << 32) | ((b[5] as u64) << 40) | ((b[6] as u64) << 48)
                    | ((b[7] as u64) << 56),
                b.skip(8),
            ),
        )
    }
}

/// Reads a sign byte and a magnitude.
pub open spec fn dec_i64(b: Seq<u8>) -> Option<(i64, Seq<u8>)> {
    if b.len() < 1 {
        None
    } else {
        let sign = b[0];
        match dec_u64(b.skip(1)) {
            Option::None => None,
            Option::Some((m, rest)) => if m > i64::MAX as u64 {
                None
            } else if sign == 0 {
                Some((m as i64, rest))
            } else if sign == 1 {
                Some(((-(m as i64) - 1) as i64, rest))
            } else {
                None
            },
        }
    }
}

/// Reads a boolean byte; anything but 0 or 1 is rejected.
pub open spec fn dec_bool(b: Seq<u8>) -> Option<(bool, Seq<u8>)> {
    if b.len() < 1 {
        None
    } else if b[0] == 0 {
        Some((false, b.skip(1)))
    } else if b[0] == 1 {
        Some((true, b.skip(1)))
    } else {
        None
    }
}

/// Reads an input-mode byte; anything but 0 or 1 is rejected.
pub open spec fn dec_mode(b: Seq<u8>) -> Option<(InputMode, Seq<u8>)> {
    if b.len() < 1 {
        None
    } else if b[0] == 0 {
        Some((InputMode::Idle, b.skip(1)))
    } else if b[0] == 1 {
        Some((InputMode::AwaitingNote, b.skip(1)))
    } else {
        None
    }
}

/// Reads a length-prefixed string; bytes that are not valid UTF-8 are
/// rejected.
pub open spec fn dec_str(b: Seq<u8>) -> Option<(Seq<char>, Seq<u8>)> {
    match dec_u64(b) {
        Option::None => None,
        Option::Some((n, rest)) => if rest.len() < n {
            None
        } else {
            let sb = rest.take(n as int);
            if valid_utf8(sb) {
                Some((decode_utf8(sb), rest.skip(n as int)))
            } else {
                None
            }
        },
    }
}

/// Reads exactly `count` strings.
pub open spec fn dec_items(count: nat, b: Seq<u8>) -> Option<(Seq<Seq<char>>, Seq<u8>)>
    decreases count,
{
    if count == 0 {
        Some((Seq::empty(), b))
    } else {
        match dec_str(b) {
            Option::None => None,
            Option::Some((s, rest)) => match dec_items((count - 1) as nat, rest) {
                Option::None => None,
                Option::Some((l, tail)) => Some((seq![s] + l, tail)),
            },
        }
    }
}

/// Reads a count, then that many strings.
pub open spec fn dec_list(b: Seq<u8>) -> Option<(Seq<Seq<char>>, Seq<u8>)> {
    match dec_u64(b) {
        Option::None => None,
        Option::Some((n, rest)) => dec_items(n as nat, rest),
    }
}

/// Reads a full record.  Trailing bytes, a malformed field, or a record that
/// breaks the level/experience invariant are all rejected.
pub open spec fn dec_user(b: Seq<u8>) -> Option<UserV> {
    match dec_u32(b) {
        Option::None => None,
        Option::Some((level, b1)) => match dec_u32(b1) {
            Option::None => None,
            Option::Some((xp, b2)) => match dec_u32(b2) {
                Option::None => None,
                Option::Some((gold, b3)) => match dec_list(b3) {
                    Option::None => None,
                    Option::Some((log, b4)) => match dec_list(b4) {
                        Option::None => None,
                        Option::Some((notes, b5)) => match dec_mode(b5) {
                            Option::None => None,
                            Option::Some((input, b6)) => match dec_bool(b6) {
                                Option::None => None,
                                Option::Some((awaiting, b7)) => match dec_i64(b7) {
                                    Option::None => None,
                                    Option::Some((ts, b8)) => {
                                        let u = UserV {
                                            level,
                                            xp,
                                            gold,
                                            log,
                                            notes,
                                            input,
                                            awaiting_ping: awaiting,
                                            last_ping_ts: ts,
                                        };
                                        if b8.len() == 0 && u.wf() {
                                            Some(u)
                                        } else {
                                            None
                                        }
                                    },
                                },
                            },
                        },
                    },
                },
            },
        },
    }
}

/// Appending one string to a list extends its item encoding at the end.
proof fn lemma_enc_items_push(l: Seq<Seq<char>>, x: Seq<char>)
    ensures
        enc_items(l.push(x)) == enc_items(l) + enc_str(x),
    decreases l.len(),
{
    if l.len() == 0 {
        assert(l.push(x)[0] == x);
        assert(l.push(x).drop_first() =~= Seq::<Seq<char>>::empty());
        assert(enc_items(Seq::<Seq<char>>::empty()) == Seq::<u8>::empty());
        assert(enc_items(l) == Seq::<u8>::empty());
        assert(enc_items(l.push(x)) == enc_str(x) + enc_items(Seq::<Seq<char>>::empty()));
        assert(enc_items(l.push(x)) =~= enc_items(l) + enc_str(x));
    } else {
        assert(l.push(x)[0] == l[0]);
        assert(l.push(x).drop_first() =~= l.drop_first().push(x));
        lemma_enc_items_push(l.drop_first(), x);
        assert(enc_items(l.push(x)) =~= enc_items(l) + enc_str(x));
    }
}

fn push_u32(n: u32, out: &mut Vec<u8>)
    ensures
        final(out)@ == old(out)@ + enc_u32(n),
{
    proof {
        assert((n & 0xff) < 256 && ((n >> 8) & 0xff) < 256 && ((n >> 16) & 0xff) < 256 && ((n
            >> 24) & 0xff) < 256) by (bit_vector);
    }
    out.push((n & 0xff) as u8);
    out.push(((n >> 8) & 0xff) as u8);
    out.push(((n >> 16) & 0xff) as u8);
    out.push(((n >> 24) & 0xff) as u8);
    proof {
        assert(out@ =~= old(out)@ + enc_u32(n));
    }
}

fn push_u64(n: u64, out: &mut Vec<u8>)
    ensures
        final(out)@ == old(out)@ + enc_u64(n),
{
    proof {
        assert((n & 0xff) < 256 && ((n >> 8) & 0xff) < 256 && ((n >> 16) & 0xff) < 256 && ((n
            >> 24) & 0xff) < 256 && ((n >> 32) & 0xff) < 256 && ((n >> 40) & 0xff) < 256 && ((n
            >> 48) & 0xff) < 256 && ((n >> 56) & 0xff) < 256) by (bit_vector);
    }
    out.push((n & 0xff) as u8);
    out.push(((n >> 8) & 0xff) as u8);
    out.push(((n >> 16) & 0xff) as u8);
    out.push(((n >> 24) & 0xff) as u8);
    out.push(((n >> 32) & 0xff) as u8);
    out.push(((n >> 40) & 0xff) as u8);
    out.push(((n >> 48) & 0xff) as u8);
    out.push(((n >> 56) & 0xff) as u8);
    proof {
        assert(out@ =~= old(out)@ + enc_u64(n));
    }
}

fn push_i64(n: i64, out: &mut Vec<u8>)
    ensures
        final(out)@ == old(out)@ + enc_i64(n),
{
    if n >= 0 {
        out.push(0);
        push_u64(n as u64, out);
    } else {
        out.push(1);
        push_u64((-(n + 1)) as u64, out);
    }
    proof {
        assert(out@ =~= old(out)@ + enc_i64(n));
    }
}

fn push_str(s: &str, out: &mut Vec<u8>)
    ensures
        final(out)@ == old(out)@ + enc_str(s@),
        encode_utf8(s@).len() < len_limit(),
{
    let mut bs = s.as_bytes_vec();
    let n: u64 = bs.len() as u64;
    push_u64(n, out);
    out.append(&mut bs);
    proof {
        assert(out@ =~= old(out)@ + enc_str(s@));
    }
}

fn push_list(v: &Vec<String>, out: &mut Vec<u8>)
    ensures
        final(out)@ == old(out)@ + enc_list(v.deep_view()),
        v.deep_view().len() < len_limit(),
        forall|i: int|
            0 <= i < v.deep_view().len() ==> encode_utf8(#[trigger] v.deep_view()[i]).len()
                < len_limit(),
{
    let ghost l = v.deep_view();
    let n: u64 = v.len() as u64;
    push_u64(n, out);
    let ghost base = out@;
    let mut i: usize = 0;
    while i < v.len()
        invariant
            0 <= i <= v@.len(),
            l == v.deep_view(),
            v@.len() == l.len(),
            out@ == base + enc_items(l.take(i as int)),
            forall|j: int| 0 <= j < i ==> encode_utf8(#[trigger] l[j]).len() < len_limit(),
        decreases v@.len() - i,
    {
        push_str(v[i].as_str(), out);
        proof {
            assert(l.take(i + 1) =~= l.take(i as int).push(l[i as int]));
            lemma_enc_items_push(l.take(i as int), l[i as int]);
            assert(out@ =~= base + enc_items(l.take(i + 1)));
        }
        i = i + 1;
    }
    proof {
        assert(l.take(l.len() as int) =~= l);
        assert(out@ =~= old(out)@ + enc_list(l));
    }
}

/// Serializes a record into its byte form.
pub fn encode_user(u: &User) -> (r: Vec<u8>)
    ensures
        r@ == enc_user(u@),
        fits_codec(u@),
{
    let mut out: Vec<u8> = Vec::new();
    push_u32(u.level, &mut out);
    push_u32(u.xp, &mut out);
    push_u32(u.gold, &mut out);
    push_list(&u.log, &mut out);
    push_list(&u.notes, &mut out);
    match u.input {
        InputMode::Idle => out.push(0),
        InputMode::AwaitingNote => out.push(1),
    }
    if u.awaiting_ping {
        out.push(1);
    } else {
        out.push(0);
    }
    push_i64(u.last_ping_ts, &mut out);
    proof {
        assert(out@ =~= enc_user(u@));
    }
    out
}

/// Relies on std's `str::from_utf8` and `str::to_owned`: returns the decoded
/// string exactly when the bytes are valid UTF-8.
#[verifier::external_body]
fn utf8_to_string(b: &[u8]) -> (r: Option<String>)
    ensures
        r is Some <==> valid_utf8(b@),
        r matches Some(s) ==> s@ == decode_utf8(b@),
{
    match std::str::from_utf8(b) {
        Ok(s) => Some(s.to_owned()),
        Err(_) => None,
    }
}

fn read_u32(b: &[u8]) -> (r: Option<(u32, &[u8])>)
    ensures
        r is Some <==> dec_u32(b@) is Some,
        r matches Some(p) ==> dec_u32(b@) == Some((p.0, p.1@)),
{
    if b.len() < 4 {
        return None;
    }
    let v: u32 = (b[0] as u32) | ((b[1] as u32) << 8) | ((b[2] as u32) << 16) | ((b[3] as u32)
        << 24);
    let rest = &b[4..b.len()];
    Some((v, rest))
}

fn read_u64(b: &[u8]) -> (r: Option<(u64, &[u8])>)
    ensures
        r is Some <==> dec_u64(b@) is Some,
        r matches Some(p) ==> dec_u64(b@) == Some((p.0, p.1@)),
{
    if b.len() < 8 {
        return None;
    }
    let v: u64 = (b[0] as u64) | ((b[1] as u64) << 8) | ((b[2] as u64) << 16) | ((b[3] as u64)
        << 24) | ((b[4] as u64) << 32) | ((b[5] as u64) << 40) | ((b[6] as u64) << 48) | ((
    b[7] as u64) << 56);
    let rest = &b[8..b.len()];
    Some((v, rest))
}

fn read_i64(b: &[u8]) -> (r: Option<(i64, &[u8])>)
    ensures
        r is Some <==> dec_i64(b@) is Some,
        r matches Some(p) ==> dec_i64(b@) == Some((p.0, p.1@)),
{
    if b.len() < 1 {
        return None;
    }
    let sign = b[0];
    let tail = &b[1..b.len()];
    match read_u64(tail) {
        Option::None => None,
        Option::Some((m, rest)) => {
            if m > (i64::MAX as u64) {
                None
            } else if sign == 0 {
                Some((m as i64, rest))
            } else if sign == 1 {
                Some((-(m as i64) - 1, rest))
            } else {
                None
            }
        },
    }
}

fn read_bool(b: &[u8]) -> (r: Option<(bool, &[u8])>)
    ensures
        r is Some <==> dec_bool(b@) is Some,
        r matches Some(p) ==> dec_bool(b@) == Some((p.0, p.1@)),
{
    if b.len() < 1 {
        return None;
    }
    let tail = &b[1..b.len()];
    if b[0] == 0 {
        Some((false, tail))
    } else if b[0] == 1 {
        Some((true, tail))
    } else {
        None
    }
}

fn read_mode(b: &[u8]) -> (r: Option<(InputMode, &[u8])>)
    ensures
        r is Some <==> dec_mode(b@) is Some,
        r matches Some(p) ==> dec_mode(b@) == Some((p.0, p.1@)),
{
    if b.len() < 1 {
        return None;
    }
    let tail = &b[1..b.len()];
    if b[0] == 0 {
        Some((InputMode::Idle, tail))
    } else if b[0] == 1 {
        Some((InputMode::AwaitingNote, tail))
    } else {
        None
    }
}

fn read_str(b: &[u8]) -> (r: Option<(String, &[u8])>)
    ensures
        r is Some <==> dec_str(b@) is Some,
        r matches Some(p) ==> dec_str(b@) == Some((p.0@, p.1@)),
{
    match read_u64(b) {
        Option::None => None,
        Option::Some((n, rest)) => {
            if n > rest.len() as u64 {
                return None;
            }
            let nn = n as usize;
            let sb = &rest[0..nn];
            let tail = &rest[nn..rest.len()];
            proof {
                assert(sb@ =~= rest@.take(n as int));
                assert(tail@ =~= rest@.skip(n as int));
            }
            match utf8_to_string(sb) {
                Option::None => None,
                Option::Some(s) => Some((s, tail)),
            }
        },
    }
}

fn read_items(count: u64, b: &[u8]) -> (r: Option<(Vec<String>, &[u8])>)
    ensures
        r is Some <==> dec_items(count as nat, b@) is Some,
        r matches Some(p) ==> dec_items(count as nat, b@) == Some((p.0.deep_view(), p.1@)),
    decreases count,
{
    if count == 0 {
        let v: Vec<String> = Vec::new();
        proof {
            assert(v.deep_view() =~= Seq::<Seq<char>>::empty());
        }
        return Some((v, b));
    }
    match read_str(b) {
        Option::None => None,
        Option::Some((s, rest)) => match read_items(count - 1, rest) {
            Option::None => None,
            Option::Some((v0, tail)) => {
                let mut v = v0;
                let ghost pre_vec = v@;
                let ghost pre_deep = v.deep_view();
                let ghost sv = s@;
                v.insert(0, s);
                proof {
                    assert forall|j: int| 0 <= j < v.deep_view().len() implies v.deep_view()[j] == (
                    seq![sv] + pre_deep)[j] by {
                        if j > 0 {
                            assert(v@[j] == pre_vec[j - 1]);
                        }
                    }
                    assert(v.deep_view() =~= seq![sv] + pre_deep);
                }
                Some((v, tail))
            },
        },
    }
}

fn read_list(b: &[u8]) -> (r: Option<(Vec<String>, &[u8])>)
    ensures
        r is Some <==> dec_list(b@) is Some,
        r matches Some(p) ==> dec_list(b@) == Some((p.0.deep_view(), p.1@)),
{
    match read_u64(b) {
        Option::None => None,
        Option::Some((n, rest)) => read_items(n, rest),
    }
}

/// Deserializes a record from its byte form; anything the encoder cannot have
/// produced is rejected.
pub fn decode_user(b: &[u8]) -> (r: Option<User>)
    ensures
        r is Some <==> dec_user(b@) is Some,
        r matches Some(u) ==> dec_user(b@) == Some(u@) && u@.wf(),
{
    let r1 = match read_u32(b) {
        Option::None => {
            return None;
        },
        Option::Some(p) => p,
    };
    let r2 = match read_u32(r1.1) {
        Option::None => {
            return None;
        },
        Option::Some(p) => p,
    };
    let r3 = match read_u32(r2.1) {
        Option::None => {
            return None;
        },
        Option::Some(p) => p,
    };
    let r4 = match read_list(r3.1) {
        Option::None => {
            return None;
        },
        Option::Some(p) => p,
    };
    let r5 = match read_list(r4.1) {
        Option::None => {
            return None;
        },
        Option::Some(p) => p,
    };
    let r6 = match read_mode(r5.1) {
        Option::None => {
            return None;
        },
        Option::Some(p) => p,
    };
    let r7 = match read_bool(r6.1) {
        Option::None => {
            return None;
        },
        Option::Some(p) => p,
    };
    let r8 = match read_i64(r7.1) {
        Option::None => {
            return None;
        },
        Option::Some(p) => p,
    };
    let u = User {
        level: r1.0,
        xp: r2.0,
        gold: r3.0,
        log: r4.0,
        notes: r5.0,
        input: r6.0,
        awaiting_ping: r7.0,
        last_ping_ts: r8.0,
    };
    if r8.1.len() == 0 && u.level >= 1 && (u.xp as u64) < (u.level as u64) * 100 {
        Some(u)
    } else {
        None
    }
}

/// Reading back four encoded little-endian bytes yields the encoded value.
pub proof fn lemma_u32_rt(n: u32, rest: Seq<u8>)
    ensures
        dec_u32(enc_u32(n) + rest) == Some((n, rest)),
{
    let b = enc_u32(n) + rest;
    assert((((n & 0xff) as u8) as u32) | (((((n >> 8) & 0xff) as u8) as u32) << 8) | (((((n >> 16)
        & 0xff) as u8) as u32) << 16) | (((((n >> 24) & 0xff) as u8) as u32) << 24) == n)
        by (bit_vector);
    assert(b.skip(4) =~= rest);
}

/// Reading back eight encoded little-endian bytes yields the encoded value.
pub proof fn lemma_u64_rt(n: u64, rest: Seq<u8>)
    ensures
        dec_u64(enc_u64(n) + rest) == Some((n, rest)),
{
    let b = enc_u64(n) + rest;
    assert((((n & 0xff) as u8) as u64) | (((((n >> 8) & 0xff) as u8) as u64) << 8) | (((((n >> 16)
        & 0xff) as u8) as u64) << 16) | (((((n >> 24) & 0xff) as u8) as u64) << 24) | (((((n >> 32)
        & 0xff) as u8) as u64) << 32) | (((((n >> 40) & 0xff) as u8) as u64) << 40) | (((((n >> 48)
        & 0xff) as u8) as u64) << 48) | (((((n >> 56) & 0xff) as u8) as u64) << 56) == n)
        by (bit_vector);
    assert(b.skip(8) =~= rest);
}

/// Reading back an encoded signed timestamp yields the encoded value.
pub proof fn lemma_i64_rt(n: i64, rest: Seq<u8>)
    ensures
        dec_i64(enc_i64(n) + rest) == Some((n, rest)),
{
    let b = enc_i64(n) + rest;
    if n >= 0 {
        let m = n as u64;
        assert(b.skip(1) =~= enc_u64(m) + rest);
        lemma_u64_rt(m, rest);
        assert(m <= i64::MAX as u64);
    } else {
        let m = (-(n + 1)) as u64;
        assert(b.skip(1) =~= enc_u64(m) + rest);
        lemma_u64_rt(m, rest);
        assert(m <= i64::MAX as u64);
        assert(-(m as i64) - 1 == n);
    }
}

/// Reading back an encoded boolean yields the encoded value.
pub proof fn lemma_bool_rt(v: bool, rest: Seq<u8>)
    ensures
        dec_bool(enc_bool(v) + rest) == Some((v, rest)),
{
    assert((enc_bool(v) + rest).skip(1) =~= rest);
}

/// Reading back an encoded input mode yields the encoded value.
pub proof fn lemma_mode_rt(m: InputMode, rest: Seq<u8>)
    ensures
        dec_mode(enc_mode(m) + rest) == Some((m, rest)),
{
    assert((enc_mode(m) + rest).skip(1) =~= rest);
}

/// Reading back an encoded string yields the encoded string.
#[verifier::rlimit(60)]
pub proof fn lemma_str_rt(s: Seq<char>, rest: Seq<u8>)
    requires
        encode_utf8(s).len() < len_limit(),
    ensures
        dec_str(enc_str(s) + rest) == Some((s, rest)),
{
    let eb = encode_utf8(s);
    let n = eb.len() as u64;
    let b = enc_str(s) + rest;
    assert(b =~= enc_u64(n) + (eb + rest));
    lemma_u64_rt(n, eb + rest);
    assert(dec_u64(b) == Some((n, eb + rest)));
    assert((eb + rest).len() >= n);
    assert((eb + rest).take(n as int) =~= eb);
    assert((eb + rest).skip(n as int) =~= rest);
    vstd::utf8::encode_utf8_valid_utf8(s);
    assert(valid_utf8(eb));
    vstd::utf8::encode_utf8_decode_utf8(s);
    assert(decode_utf8(eb) == s);
    assert(dec_str(b) == Some((s, rest)));
}

/// Reading back an encoded string list yields the encoded items.
pub proof fn lemma_items_rt(l: Seq<Seq<char>>, rest: Seq<u8>)
    requires
        forall|i: int| 0 <= i < l.len() ==> encode_utf8(#[trigger] l[i]).len() < len_limit(),
    ensures
        dec_items(l.len(), enc_items(l) + rest) == Some((l, rest)),
    decreases l.len(),
{
    if l.len() == 0 {
        assert(enc_items(l) + rest =~= rest);
    } else {
        let ldf = l.drop_first();
        assert(enc_items(l) == enc_str(l[0]) + enc_items(ldf));
        assert(enc_items(l) + rest =~= enc_str(l[0]) + (enc_items(ldf) + rest));
        lemma_str_rt(l[0], enc_items(ldf) + rest);
        assert(forall|i: int|
            0 <= i < ldf.len() ==> encode_utf8(#[trigger] ldf[i]).len() < len_limit());
        lemma_items_rt(ldf, rest);
        assert(seq![l[0]] + ldf =~= l);
    }
}

/// Reading back an encoded counted list yields the encoded list.
pub proof fn lemma_list_rt(l: Seq<Seq<char>>, rest: Seq<u8>)
    requires
        l.len() < len_limit(),
        forall|i: int| 0 <= i < l.len() ==> encode_utf8(#[trigger] l[i]).len() < len_limit(),
    ensures
        dec_list(enc_list(l) + rest) == Some((l, rest)),
{
    let n = l.len() as u64;
    assert(enc_list(l) + rest =~= enc_u64(n) + (enc_items(l) + rest));
    lemma_u64_rt(n, enc_items(l) + rest);
    lemma_items_rt(l, rest);
}

/// Round trip: decoding an encoded record yields the record unchanged, for
/// every well-formed record whose collection and string lengths fit the
/// 64-bit length prefixes (every record held in memory does).
#[verifier::rlimit(100)]
pub proof fn lemma_codec_roundtrip(u: UserV)
    requires
        u.wf(),
        fits_codec(u),
    ensures
        dec_user(enc_user(u)) == Some(u),
{
    let t_log = enc_list(u.log);
    let t_notes = enc_list(u.notes);
    let t_mode = enc_mode(u.input);
    let t_bool = enc_bool(u.awaiting_ping);
    let t_ts = enc_i64(u.last_ping_ts);
    let b = enc_user(u);
    let s1 = enc_u32(u.xp) + (enc_u32(u.gold) + (t_log + (t_notes + (t_mode + (t_bool + t_ts)))));
    let s2 = enc_u32(u.gold) + (t_log + (t_notes + (t_mode + (t_bool + t_ts))));
    let s3 = t_log + (t_notes + (t_mode + (t_bool + t_ts)));
    let s4 = t_notes + (t_mode + (t_bool + t_ts));
    let s5 = t_mode + (t_bool + t_ts);
    let s6 = t_bool + t_ts;
    assert(b =~= enc_u32(u.level) + s1);
    lemma_u32_rt(u.level, s1);
    assert(dec_u32(b) == Some((u.level, s1)));
    assert(s1 =~= enc_u32(u.xp) + s2);
    lemma_u32_rt(u.xp, s2);
    assert(dec_u32(s1) == Some((u.xp, s2)));
    assert(s2 =~= enc_u32(u.gold) + s3);
    lemma_u32_rt(u.gold, s3);
    assert(dec_u32(s2) == Some((u.gold, s3)));
    lemma_list_rt(u.log, s4);
    assert(dec_list(s3) == Some((u.log, s4)));
    lemma_list_rt(u.notes, s5);
    assert(dec_list(s4) == Some((u.notes, s5)));
    lemma_mode_rt(u.input, s6);
    assert(dec_mode(s5) == Some((u.input, s6)));
    lemma_bool_rt(u.awaiting_ping, t_ts);
    assert(dec_bool(s6) == Some((u.awaiting_ping, t_ts)));
    assert(t_ts =~= t_ts + Seq::<u8>::empty());
    lemma_i64_rt(u.last_ping_ts, Seq::<u8>::empty());
    assert(dec_i64(t_ts) == Some((u.last_ping_ts, Seq::<u8>::empty())));
    assert(dec_user(b) == Some(u));
}

} // verus!
