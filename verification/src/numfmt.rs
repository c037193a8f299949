//! Decimal rendering and parsing of unsigned integers, used for log and
//! response texts and for the store's key namespace.

use vstd::prelude::*;
use vstd::string::StringExecFns;

verus! {

/// The character for a single decimal digit.
pub open spec fn digit_char(d: nat) -> char {
    if d == 0 {
        '0'
    } else if d == 1 {
        '1'
    } else if d == 2 {
        '2'
    } else if d == 3 {
        '3'
    } else if d == 4 {
        '4'
    } else if d == 5 {
        '5'
    } else if d == 6 {
        '6'
    } else if d == 7 {
        '7'
    } else if d == 8 {
        '8'
    } else {
        '9'
    }
}

/// The byte for a single decimal digit, in ASCII.
pub open spec fn digit_byte(d: nat) -> u8 {
    (48 + d) as u8
}

/// The decimal digit characters of `n`, most significant first.
pub open spec fn dec_chars(n: nat) -> Seq<char>
    decreases n,
{
    if n < 10 {
        seq![digit_char(n)]
    } else {
        dec_chars(n / 10).push(digit_char(n % 10))
    }
}

/// The decimal digit bytes of `n`, most significant first, in ASCII.
pub open spec fn dec_bytes(n: nat) -> Seq<u8>
    decreases n,
{
    if n < 10 {
        seq![digit_byte(n)]
    } else {
        dec_bytes(n / 10).push(digit_byte(n % 10))
    }
}

/// The value of a digit-byte sequence read as a decimal number.
pub open spec fn dec_val(s: Seq<u8>) -> int
    decreases s.len(),
{
    if s.len() == 0 {
        0
    } else {
        dec_val(s.drop_last()) * 10 + s.last() - 48
    }
}

/// Every byte is an ASCII decimal digit.
pub open spec fn is_dec_digits(s: Seq<u8>) -> bool {
    forall|i: int| 0 <= i < s.len() ==> 48 <= #[trigger] s[i] <= 57
}

/// A digit-byte sequence is canonical when it is non-empty and carries no
/// leading zero (except for the number zero itself).
pub open spec fn is_canonical_dec(s: Seq<u8>) -> bool {
    &&& s.len() > 0
    &&& is_dec_digits(s)
    &&& (s[0] != 48 || s.len() == 1)
}

/// A digit-byte sequence denotes a non-negative value.
pub proof fn lemma_dec_val_nonneg(s: Seq<u8>)
    requires
        is_dec_digits(s),
    ensures
        dec_val(s) >= 0,
    decreases s.len(),
{
    if s.len() > 0 {
        assert(is_dec_digits(s.drop_last()));
        lemma_dec_val_nonneg(s.drop_last());
    }
}

/// A digit-byte sequence with a non-zero leading digit denotes at least 1.
pub proof fn lemma_dec_val_lead_pos(s: Seq<u8>)
    requires
        is_dec_digits(s),
        s.len() >= 1,
        s[0] != 48,
    ensures
        dec_val(s) >= 1,
    decreases s.len(),
{
    if s.len() == 1 {
    } else {
        assert(is_dec_digits(s.drop_last()));
        assert(s.drop_last()[0] == s[0]);
        lemma_dec_val_lead_pos(s.drop_last());
    }
}

/// The rendering of `n` is canonical and reads back as `n`.
pub proof fn lemma_dec_bytes_canonical(n: nat)
    ensures
        is_canonical_dec(dec_bytes(n)),
        dec_val(dec_bytes(n)) == n,
        n < 10 <==> dec_bytes(n).len() == 1,
    decreases n,
{
    if n < 10 {
        let w = dec_bytes(n);
        assert(w.drop_last() =~= Seq::<u8>::empty());
        assert(dec_val(w) == dec_val(w.drop_last()) * 10 + w.last() - 48);
        assert(dec_val(w) == n);
    } else {
        lemma_dec_bytes_canonical(n / 10);
        let s = dec_bytes(n / 10);
        let w = dec_bytes(n);
        assert(w == s.push(digit_byte(n % 10)));
        assert(w.drop_last() =~= s);
        assert(w.last() == digit_byte(n % 10));
        assert(dec_val(w) == dec_val(s) * 10 + (n % 10));
        assert(n == (n / 10) * 10 + (n % 10)) by (nonlinear_arith);
        assert(w[0] == s[0]);
    }
}

/// A canonical digit-byte sequence is the rendering of its own value.
pub proof fn lemma_canonical_unique(s: Seq<u8>)
    requires
        is_canonical_dec(s),
    ensures
        dec_val(s) >= 0,
        dec_bytes(dec_val(s) as nat) == s,
    decreases s.len(),
{
    lemma_dec_val_nonneg(s);
    if s.len() == 1 {
        let v = dec_val(s);
        assert(s.drop_last() =~= Seq::<u8>::empty());
        assert(dec_val(Seq::<u8>::empty()) == 0);
        assert(dec_val(s) == dec_val(s.drop_last()) * 10 + s.last() - 48);
        assert(s.last() == s[0]);
        assert(v == s[0] - 48);
        assert(dec_bytes(v as nat) =~= s);
    } else {
        let t = s.drop_last();
        assert(is_dec_digits(t));
        assert(t[0] == s[0]);
        assert(is_canonical_dec(t));
        lemma_canonical_unique(t);
        lemma_dec_val_lead_pos(t);
        let q = dec_val(t);
        let d = s.last() - 48;
        let v = dec_val(s);
        assert(v == q * 10 + d);
        assert(v / 10 == q && v % 10 == d) by (nonlinear_arith)
            requires
                v == q * 10 + d,
                0 <= d < 10,
                q >= 1,
        ;
        assert(v >= 10) by (nonlinear_arith)
            requires
                v == q * 10 + d,
                d >= 0,
                q >= 1,
        ;
        assert(dec_bytes(v as nat) == dec_bytes((v / 10) as nat).push(digit_byte((v % 10) as nat)));
        assert(digit_byte(d as nat) == s.last());
        assert(dec_bytes(v as nat) =~= s);
    }
}

/// Reading more digits never shrinks the value.
pub proof fn lemma_dec_val_prefix_le(s: Seq<u8>, j: int)
    requires
        is_dec_digits(s),
        0 <= j <= s.len(),
    ensures
        dec_val(s.take(j)) <= dec_val(s),
    decreases s.len() - j,
{
    if j == s.len() {
        assert(s.take(j) =~= s);
    } else {
        let p = s.take(j);
        let q = s.take(j + 1);
        assert(q.drop_last() =~= p);
        assert(q.last() == s[j]);
        assert(is_dec_digits(p));
        lemma_dec_val_nonneg(p);
        assert(dec_val(q) == dec_val(p) * 10 + s[j] - 48);
        assert(dec_val(p) * 10 >= dec_val(p)) by (nonlinear_arith)
            requires
                dec_val(p) >= 0,
        ;
        lemma_dec_val_prefix_le(s, j + 1);
    }
}

/// The string for a single decimal digit.
fn digit_str(d: u64) -> (s: &'static str)
    requires
        d < 10,
    ensures
        s@ == seq![digit_char(d as nat)],
{
    proof {
        reveal_strlit("0");
        reveal_strlit("1");
        reveal_strlit("2");
        reveal_strlit("3");
        reveal_strlit("4");
        reveal_strlit("5");
        reveal_strlit("6");
        reveal_strlit("7");
        reveal_strlit("8");
        reveal_strlit("9");
    }
    let s: &'static str = if d == 0 {
        "0"
    } else if d == 1 {
        "1"
    } else if d == 2 {
        "2"
    } else if d == 3 {
        "3"
    } else if d == 4 {
        "4"
    } else if d == 5 {
        "5"
    } else if d == 6 {
        "6"
    } else if d == 7 {
        "7"
    } else if d == 8 {
        "8"
    } else {
        "9"
    };
    proof {
        assert(s@ =~= seq![digit_char(d as nat)]);
    }
    s
}

/// Renders `n` in decimal, most significant digit first.
pub fn u64_to_string(n: u64) -> (s: String)
    ensures
        s@ == dec_chars(n as nat),
    decreases n,
{
    if n < 10 {
        digit_str(n).to_owned()
    } else {
        let mut s = u64_to_string(n / 10);
        s.append(digit_str(n % 10));
        proof {
            assert(s@ =~= dec_chars(n as nat));
        }
        s
    }
}

/// Appends the decimal digit bytes of `n` to `out`.
pub fn push_dec_bytes(n: u64, out: &mut Vec<u8>)
    ensures
        final(out)@ == old(out)@ + dec_bytes(n as nat),
    decreases n,
{
    if n < 10 {
        out.push((48 + n) as u8);
        proof {
            assert(final(out)@ =~= old(out)@ + dec_bytes(n as nat));
        }
    } else {
        push_dec_bytes(n / 10, out);
        out.push((48 + n % 10) as u8);
        proof {
            assert(final(out)@ =~= old(out)@ + dec_bytes(n as nat));
        }
    }
}

/// Parses a canonical decimal byte sequence; anything else is rejected.
pub fn parse_u64_dec(b: &[u8]) -> (r: Option<u64>)
    ensures
        r matches Some(id) ==> b@ == dec_bytes(id as nat),
        is_canonical_dec(b@) && dec_val(b@) <= u64::MAX ==> r == Some((dec_val(b@) as u64)),
{
    if b.len() == 0 {
        return None;
    }
    if b[0] == 48 && b.len() > 1 {
        return None;
    }
    let mut acc: u64 = 0;
    let mut i: usize = 0;
    while i < b.len()
        invariant
            0 <= i <= b@.len(),
            b@.len() >= 1,
            b@[0] != 48 || b@.len() == 1,
            is_dec_digits(b@.take(i as int)),
            acc as int == dec_val(b@.take(i as int)),
        decreases b@.len() - i,
    {
        let c = b[i];
        if c < 48 || c > 57 {
            return None;
        }
        let d: u64 = (c - 48) as u64;
        proof {
            assert(b@.take(i + 1).drop_last() =~= b@.take(i as int));
            assert(b@.take(i + 1).last() == b@[i as int]);
        }
        if acc > (u64::MAX - d) / 10 {
            proof {
                let hi = (u64::MAX - d) as int;
                assert(acc * 10 + d > u64::MAX) by (nonlinear_arith)
                    requires
                        acc > hi / 10,
                        hi == u64::MAX - d,
                        0 <= d < 10,
                ;
                if is_canonical_dec(b@) && dec_val(b@) <= u64::MAX {
                    lemma_dec_val_prefix_le(b@, i + 1);
                    assert(false);
                }
            }
            return None;
        }
        proof {
            let hi = (u64::MAX - d) as int;
            assert(acc * 10 + d <= u64::MAX) by (nonlinear_arith)
                requires
                    acc <= hi / 10,
                    hi == u64::MAX - d,
                    0 <= d < 10,
                    acc >= 0,
            ;
        }
        acc = acc * 10 + d;
        i = i + 1;
    }
    proof {
        assert(b@.take(i as int) =~= b@);
        assert(is_canonical_dec(b@));
        lemma_canonical_unique(b@);
    }
    Some(acc)
}

} // verus!
