//! The persistent user store: records serialized with the crate's codec, held
//! in an embedded key-value engine under `user:<id>` keys.

use vstd::prelude::*;
use crate::codec::{dec_user, decode_user, enc_user, encode_user};
use crate::numfmt::{dec_bytes, dec_val, lemma_dec_bytes_canonical, parse_u64_dec,
    push_dec_bytes};
use crate::user::{User, UserV};

verus! {

/// The embedded key-value engine's handle, declared so it can sit in a field.
#[verifier::external_type_specification]
#[verifier::external_body]
pub struct ExDb(sled::Db);

/// What the engine holds: byte-string keys mapped to byte-string values.
pub uninterp spec fn db_view(db: &sled::Db) -> Map<Seq<u8>, Seq<u8>>;

/// Relies on `sled::open`: opens (or creates) the store at `path`.  What it
/// holds comes from disk, so nothing is said of the contents; an open error
/// is folded into nothing.
#[verifier::external_body]
fn db_open(path: &str) -> (r: Option<sled::Db>) {
    sled::open(path).ok()
}

/// Relies on sled's `Tree::get`: a present key returns its stored value; an
/// absent key returns nothing; a read error is folded into nothing.
#[verifier::external_body]
fn db_get(db: &sled::Db, key: &Vec<u8>) -> (r: Option<Vec<u8>>)
    ensures
        r matches Some(v) ==> db_view(db).contains_key(key@) && db_view(db)[key@] == v@,
        !db_view(db).contains_key(key@) ==> r is None,
{
    match db.get(key.as_slice()) {
        Ok(Some(v)) => Some(v.to_vec()),
        _ => None,
    }
}

/// Relies on sled's `Tree::insert`: on success the key maps to the new value
/// and no other key changes; after an error nothing is said of the contents.
#[verifier::external_body]
fn db_insert(db: &mut sled::Db, key: &Vec<u8>, val: &Vec<u8>) -> (ok: bool)
    ensures
        ok ==> db_view(final(db)) == db_view(old(db)).insert(key@, val@),
{
    db.insert(key.as_slice(), val.as_slice()).is_ok()
}

/// Relies on sled's `Tree::scan_prefix`: iterates exactly the stored pairs
/// whose key starts with the prefix, each key once; an iteration error
/// yields nothing.
#[verifier::external_body]
fn db_scan_prefix(db: &sled::Db, prefix: &Vec<u8>) -> (r: Option<Vec<(Vec<u8>, Vec<u8>)>>)
    ensures
        r matches Some(v) ==> {
            &&& forall|i: int|
                0 <= i < v@.len() ==> {
                    &&& db_view(db).contains_key((#[trigger] v@[i]).0@)
                    &&& db_view(db)[v@[i].0@] == v@[i].1@
                    &&& v@[i].0@.len() >= prefix@.len()
                    &&& v@[i].0@.take(prefix@.len() as int) == prefix@
                }
            &&& forall|k: Seq<u8>|
                #[trigger] db_view(db).contains_key(k) && k.len() >= prefix@.len() && k.take(
                    prefix@.len() as int,
                ) == prefix@ ==> exists|i: int| 0 <= i < v@.len() && v@[i].0@ == k
            &&& forall|i: int, j: int|
                #![trigger v@[i], v@[j]]
                0 <= i < j < v@.len() ==> v@[i].0@ != v@[j].0@
        },
{
    let mut out = Vec::new();
    for item in db.scan_prefix(prefix.as_slice()) {
        match item {
            Ok((k, v)) => out.push((k.to_vec(), v.to_vec())),
            Err(_) => return None,
        }
    }
    Some(out)
}

/// The namespace in front of every user key, the ASCII bytes of `user:`.
pub open spec fn key_prefix() -> Seq<u8> {
    seq![117u8, 115u8, 101u8, 114u8, 58u8]
}

/// The key a user's record is stored under: `user:` then the decimal id.
pub open spec fn spec_key(id: u64) -> Seq<u8> {
    key_prefix() + dec_bytes(id as nat)
}

/// Builds the store key for `user_id`.
pub fn key(user_id: u64) -> (k: Vec<u8>)
    ensures
        k@ == spec_key(user_id),
{
    let mut k: Vec<u8> = Vec::new();
    k.push(117);
    k.push(115);
    k.push(101);
    k.push(114);
    k.push(58);
    proof {
        assert(k@ =~= key_prefix());
    }
    push_dec_bytes(user_id, &mut k);
    k
}

/// Two distinct ids never share a store key.
pub proof fn lemma_spec_key_injective(a: u64, b: u64)
    requires
        spec_key(a) == spec_key(b),
    ensures
        a == b,
{
    lemma_dec_bytes_canonical(a as nat);
    lemma_dec_bytes_canonical(b as nat);
    assert(dec_bytes(a as nat) =~= spec_key(a).skip(5));
    assert(dec_bytes(b as nat) =~= spec_key(b).skip(5));
    assert(dec_val(dec_bytes(a as nat)) == dec_val(dec_bytes(b as nat)));
}

/// Reads a store key back to its user id; only canonical keys parse.
pub fn parse_key(k: &Vec<u8>) -> (r: Option<u64>)
    ensures
        r matches Some(id) ==> k@ == spec_key(id),
        forall|id: u64| k@ == spec_key(id) ==> r == Some(id),
{
    if k.len() < 5 {
        return None;
    }
    let head_ok = k[0] == 117 && k[1] == 115 && k[2] == 101 && k[3] == 114 && k[4] == 58;
    if !head_ok {
        proof {
            assert forall|id: u64| k@ != spec_key(id) by {
                assert(spec_key(id)[0] == 117 && spec_key(id)[1] == 115 && spec_key(id)[2] == 101
                    && spec_key(id)[3] == 114 && spec_key(id)[4] == 58);
            }
        }
        return None;
    }
    let digits = &k.as_slice()[5..k.len()];
    proof {
        assert(digits@ =~= k@.skip(5));
    }
    let r = parse_u64_dec(digits);
    proof {
        if r is Some {
            let id = r->0;
            assert(digits@ == dec_bytes(id as nat));
            assert(k@ =~= spec_key(id));
        }
        assert forall|id: u64| k@ == spec_key(id) implies r == Some(id) by {
            lemma_dec_bytes_canonical(id as nat);
            assert(dec_bytes(id as nat) =~= spec_key(id).skip(5));
            assert(digits@ == dec_bytes(id as nat));
        }
    }
    r
}

/// The user store, backed by the embedded key-value engine.
pub struct UserRepository {
    db: sled::Db,
}

impl View for UserRepository {
    type V = Map<Seq<u8>, Seq<u8>>;

    /// What the store holds, as the engine's key-value map.
    closed spec fn view(&self) -> Map<Seq<u8>, Seq<u8>> {
        db_view(&self.db)
    }
}

impl UserRepository {
    /// Opens the engine at `path`; what the store already holds is whatever
    /// sits on disk there.
    pub fn new(path: &str) -> (r: Option<UserRepository>) {
        match db_open(path) {
            Option::Some(db) => Some(UserRepository { db }),
            Option::None => None,
        }
    }

    /// Loads the record stored for `user_id`.  An absent, unreadable or
    /// corrupt value yields a fresh default record; otherwise the decoded
    /// stored record is returned.
    pub fn load(&self, user_id: u64) -> (u: User)
        ensures
            u@.wf(),
            !self@.contains_key(spec_key(user_id)) ==> u@ == UserV::initial(),
            u@ == UserV::initial() || (self@.contains_key(spec_key(user_id)) && dec_user(
                self@[spec_key(user_id)],
            ) == Some(u@)),
    {
        let k = key(user_id);
        match db_get(&self.db, &k) {
            Option::None => User::default(),
            Option::Some(bytes) => match decode_user(bytes.as_slice()) {
                Option::Some(u) => u,
                Option::None => User::default(),
            },
        }
    }

    /// Serializes the record and stores it under the user's key, replacing
    /// any prior value; reports whether the engine accepted the write.
    pub fn save(&mut self, user_id: u64, user: &User) -> (ok: bool)
        ensures
            ok ==> final(self)@ == old(self)@.insert(spec_key(user_id), enc_user(user@)),
    {
        let k = key(user_id);
        let v = encode_user(user);
        db_insert(&mut self.db, &k, &v)
    }

    /// Every stored pair under the user prefix whose key and value parse, as
    /// (id, record) pairs: exactly one pair for each stored id whose record
    /// decodes, in some order.  Entries whose key or value does not parse are
    /// skipped; a scan error yields nothing.
    pub fn all(&self) -> (r: Option<Vec<(u64, User)>>)
        ensures
            r matches Some(v) ==> {
                &&& forall|m: int|
                    0 <= m < v@.len() ==> {
                        &&& self@.contains_key(spec_key((#[trigger] v@[m]).0))
                        &&& dec_user(self@[spec_key(v@[m].0)]) == Some(v@[m].1@)
                        &&& v@[m].1@.wf()
                    }
                &&& forall|id: u64|
                    self@.contains_key(#[trigger] spec_key(id)) && dec_user(
                        self@[spec_key(id)],
                    ) is Some ==> exists|m: int| 0 <= m < v@.len() && v@[m].0 == id
                &&& forall|m1: int, m2: int|
                    #![trigger v@[m1], v@[m2]]
                    0 <= m1 < m2 < v@.len() ==> v@[m1].0 != v@[m2].0
            },
    {
        let mut prefix: Vec<u8> = Vec::new();
        prefix.push(117);
        prefix.push(115);
        prefix.push(101);
        prefix.push(114);
        prefix.push(58);
        proof {
            assert(prefix@ =~= key_prefix());
        }
        let pairs = match db_scan_prefix(&self.db, &prefix) {
            Option::None => {
                return None;
            },
            Option::Some(p) => p,
        };
        let mut out: Vec<(u64, User)> = Vec::new();
        let mut i: usize = 0;
        while i < pairs.len()
            invariant
                0 <= i <= pairs@.len(),
                forall|j: int|
                    0 <= j < pairs@.len() ==> {
                        &&& db_view(&self.db).contains_key((#[trigger] pairs@[j]).0@)
                        &&& db_view(&self.db)[pairs@[j].0@] == pairs@[j].1@
                    },
                forall|m: int|
                    0 <= m < out@.len() ==> {
                        &&& db_view(&self.db).contains_key(spec_key((#[trigger] out@[m]).0))
                        &&& dec_user(db_view(&self.db)[spec_key(out@[m].0)]) == Some(out@[m].1@)
                        &&& out@[m].1@.wf()
                    },
                forall|id: u64, j: int|
                    #![trigger pairs@[j], spec_key(id)]
                    0 <= j < i && pairs@[j].0@ == spec_key(id) && dec_user(
                        db_view(&self.db)[spec_key(id)],
                    ) is Some ==> exists|m: int| 0 <= m < out@.len() && out@[m].0 == id,
                forall|j1: int, j2: int|
                    #![trigger pairs@[j1], pairs@[j2]]
                    0 <= j1 < j2 < pairs@.len() ==> pairs@[j1].0@ != pairs@[j2].0@,
                forall|m: int|
                    #![trigger out@[m]]
                    0 <= m < out@.len() ==> exists|j: int|
                        0 <= j < i && (#[trigger] pairs@[j]).0@ == spec_key(out@[m].0),
                forall|m1: int, m2: int|
                    #![trigger out@[m1], out@[m2]]
                    0 <= m1 < m2 < out@.len() ==> out@[m1].0 != out@[m2].0,
            decreases pairs@.len() - i,
        {
            let pair = &pairs[i];
            let ghost kseq = pair.0@;
            let ghost out0 = out@;
            proof {
                assert(pairs@[i as int].0@ == kseq);
                assert(db_view(&self.db).contains_key(kseq));
                assert(db_view(&self.db)[kseq] == pairs@[i as int].1@);
            }
            match parse_key(&pair.0) {
                Option::None => {
                    proof {
                        assert(out@ == out0);
                        assert forall|id2: u64|
                            #![trigger spec_key(id2)]
                            kseq == spec_key(id2) && dec_user(
                                db_view(&self.db)[spec_key(id2)],
                            ) is Some implies exists|m: int|
                            0 <= m < out@.len() && out@[m].0 == id2 by {
                            assert(false);
                        }
                    }
                },
                Option::Some(id) => {
                    match decode_user(pair.1.as_slice()) {
                        Option::None => {
                            proof {
                                assert(out@ == out0);
                                assert(dec_user(db_view(&self.db)[spec_key(id)]) is None);
                                assert forall|id2: u64|
                                    #![trigger spec_key(id2)]
                                    kseq == spec_key(id2) && dec_user(
                                        db_view(&self.db)[spec_key(id2)],
                                    ) is Some implies exists|m: int|
                                    0 <= m < out@.len() && out@[m].0 == id2 by {
                                    lemma_spec_key_injective(id2, id);
                                    assert(false);
                                }
                            }
                        },
                        Option::Some(u) => {
                            out.push((id, u));
                            proof {
                                assert(out@.len() == out0.len() + 1);
                                assert(forall|m: int| 0 <= m < out0.len() ==> out@[m] == out0[m]);
                                assert(dec_user(db_view(&self.db)[spec_key(id)]) == Some(u@));
                                assert(out@[out@.len() - 1] == (id, u));
                                assert forall|m: int| 0 <= m < out0.len() implies out0[m].0
                                    != id by {
                                    if out0[m].0 == id {
                                        let j = choose|j: int|
                                            0 <= j < i && pairs@[j].0@ == spec_key(out0[m].0);
                                        assert(pairs@[j].0@ == pairs@[i as int].0@);
                                        assert(false);
                                    }
                                }
                                assert forall|id2: u64|
                                    #![trigger spec_key(id2)]
                                    kseq == spec_key(id2) && dec_user(
                                        db_view(&self.db)[spec_key(id2)],
                                    ) is Some implies exists|m: int|
                                    0 <= m < out@.len() && out@[m].0 == id2 by {
                                    lemma_spec_key_injective(id2, id);
                                    assert(out@[out@.len() - 1].0 == id2);
                                }
                            }
                        },
                    }
                },
            }
            i = i + 1;
            proof {
                assert(out@.len() >= out0.len());
                assert(out@.len() <= out0.len() + 1);
                assert(forall|m: int| 0 <= m < out0.len() ==> out@[m] == out0[m]);
                assert forall|m: int| #![trigger out@[m]] 0 <= m < out@.len() implies exists|j: int|
                    0 <= j < i && (#[trigger] pairs@[j]).0@ == spec_key(out@[m].0) by {
                    if m < out0.len() {
                        let j = choose|j: int|
                            0 <= j < i - 1 && pairs@[j].0@ == spec_key(out0[m].0);
                        assert(out@[m] == out0[m]);
                        assert(pairs@[j].0@ == spec_key(out@[m].0));
                    } else {
                        assert(pairs@[i - 1].0@ == spec_key(out@[m].0));
                    }
                }
                assert forall|m1: int, m2: int|
                    #![trigger out@[m1], out@[m2]]
                    0 <= m1 < m2 < out@.len() implies out@[m1].0 != out@[m2].0 by {
                    assert(out@[m1] == out0[m1]);
                    if m2 < out0.len() {
                        assert(out@[m2] == out0[m2]);
                    }
                }
                assert forall|id: u64, j: int|
                    #![trigger pairs@[j], spec_key(id)]
                    0 <= j < i && pairs@[j].0@ == spec_key(id) && dec_user(
                        db_view(&self.db)[spec_key(id)],
                    ) is Some implies exists|m: int| 0 <= m < out@.len() && out@[m].0 == id by {
                    if j == i - 1 {
                        assert(pairs@[j].0@ == kseq);
                    } else {
                        let m = choose|m: int| 0 <= m < out0.len() && out0[m].0 == id;
                        assert(out@[m].0 == id);
                    }
                }
            }
        }
        proof {
            assert forall|id: u64|
                db_view(&self.db).contains_key(#[trigger] spec_key(id)) && dec_user(
                    db_view(&self.db)[spec_key(id)],
                ) is Some implies exists|m: int| 0 <= m < out@.len() && out@[m].0 == id by {
                crate::numfmt::lemma_dec_bytes_canonical(id as nat);
                assert(spec_key(id).len() >= key_prefix().len());
                assert(spec_key(id).take(key_prefix().len() as int) =~= key_prefix());
                let j = choose|j: int| 0 <= j < pairs@.len() && pairs@[j].0@ == spec_key(id);
                assert(pairs@[j].0@ == spec_key(id));
            }
        }
        Some(out)
    }
}

} // verus!
