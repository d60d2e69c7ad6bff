//! The durable session store: the set of session tokens issued by
//! successful logins, together with the byte format in which it is
//! persisted. The caller owns the file itself (this crate does no I/O);
//! the store produces the exact bytes to write and decodes the bytes
//! read back at startup. Decoding what was encoded returns the store
//! unchanged, so the store survives a restart intact.
//!
//! Format: each token is laid down as its length in eight little-endian
//! bytes, followed by the token's bytes; tokens follow one another with
//! nothing in between.

use vstd::prelude::*;
use vstd::string::StringExecFns;

use crate::errors::{ApiError, ApiResult};

verus! {

/// A token representable in the store: its length fits the eight-byte
/// length field. Every token held in a `Vec<u8>` satisfies this.
pub open spec fn wf_token(t: Seq<u8>) -> bool {
    t.len() < 0x1_0000_0000_0000_0000
}

/// The eight little-endian bytes of a length.
pub open spec fn len_bytes(n: u64) -> Seq<u8> {
    seq![
        (n & 0xff) as u8,
        ((n >> 8) & 0xff) as u8,
        ((n >> 16) & 0xff) as u8,
        ((n >> 24) & 0xff) as u8,
        ((n >> 32) & 0xff) as u8,
        ((n >> 40) & 0xff) as u8,
        ((n >> 48) & 0xff) as u8,
        ((n >> 56) & 0xff) as u8,
    ]
}

/// The length encoded by eight little-endian bytes.
pub open spec fn read_len(b: Seq<u8>) -> u64
    recommends
        b.len() == 8,
{
    (b[0] as u64) | ((b[1] as u64) << 8) | ((b[2] as u64) << 16) | ((b[3] as u64) << 24) | ((
    b[4] as u64) << 32) | ((b[5] as u64) << 40) | ((b[6] as u64) << 48) | ((b[7] as u64) << 56)
}

/// One token as it stands in the store file: length field, then bytes.
pub open spec fn spec_encode_token(t: Seq<u8>) -> Seq<u8> {
    len_bytes(t.len() as u64) + t
}

/// The whole store file: the tokens' encodings, in order.
pub open spec fn spec_encode(ts: Seq<Seq<u8>>) -> Seq<u8>
    decreases ts.len(),
{
    if ts.len() == 0 {
        Seq::empty()
    } else {
        spec_encode_token(ts[0]) + spec_encode(ts.skip(1))
    }
}

/// What a store file holds: the sequence of tokens, or nothing when the
/// bytes are not a whole number of well-formed records.
pub open spec fn spec_decode(b: Seq<u8>) -> Option<Seq<Seq<u8>>>
    decreases b.len(),
{
    if b.len() == 0 {
        Some(Seq::empty())
    } else if b.len() < 8 {
        None
    } else {
        let n = read_len(b.subrange(0, 8)) as int;
        if 8 + n > b.len() {
            None
        } else {
            match spec_decode(b.skip(8 + n)) {
                Some(rest) => Some(seq![b.subrange(8, 8 + n)] + rest),
                None => None,
            }
        }
    }
}

proof fn lemma_read_len_bytes(n: u64)
    ensures
        len_bytes(n).len() == 8,
        read_len(len_bytes(n)) == n,
{
    assert((((n & 0xff) as u8) as u64) | (((((n >> 8) & 0xff) as u8) as u64) << 8) | (((((n >> 16)
        & 0xff) as u8) as u64) << 16) | (((((n >> 24) & 0xff) as u8) as u64) << 24) | (((((n >> 32)
        & 0xff) as u8) as u64) << 32) | (((((n >> 40) & 0xff) as u8) as u64) << 40) | (((((n >> 48)
        & 0xff) as u8) as u64) << 48) | (((((n >> 56) & 0xff) as u8) as u64) << 56) == n)
        by (bit_vector);
}

/// Appending one token to the store appends exactly its record to the file.
pub proof fn lemma_encode_push(ts: Seq<Seq<u8>>, t: Seq<u8>)
    ensures
        spec_encode(ts.push(t)) == spec_encode(ts) + spec_encode_token(t),
    decreases ts.len(),
{
    let p = ts.push(t);
    if ts.len() == 0 {
        assert(p.skip(1) =~= Seq::<Seq<u8>>::empty());
        assert(spec_encode(Seq::<Seq<u8>>::empty()) == Seq::<u8>::empty());
        assert(p[0] == t);
        assert(spec_encode(p) == spec_encode_token(t) + Seq::<u8>::empty());
        assert(spec_encode(p) =~= spec_encode(ts) + spec_encode_token(t));
    } else {
        assert(p.skip(1) =~= ts.skip(1).push(t));
        lemma_encode_push(ts.skip(1), t);
        assert(p[0] == ts[0]);
        assert(spec_encode(p) == spec_encode_token(ts[0]) + (spec_encode(ts.skip(1))
            + spec_encode_token(t)));
        assert(spec_encode(ts) == spec_encode_token(ts[0]) + spec_encode(ts.skip(1)));
        assert(spec_encode(p) =~= spec_encode(ts) + spec_encode_token(t));
    }
}

/// The persistence round trip: decoding an encoded store yields exactly
/// the tokens that were encoded, so the store's content after a restart
/// equals its content before, provided nothing was written in between.
pub proof fn lemma_store_round_trip(ts: Seq<Seq<u8>>)
    requires
        forall|i: int| 0 <= i < ts.len() ==> wf_token(ts[i]),
    ensures
        spec_decode(spec_encode(ts)) == Some(ts),
    decreases ts.len(),
{
    if ts.len() == 0 {
        assert(spec_encode(ts).len() == 0);
        assert(spec_decode(spec_encode(ts)) == Some(Seq::<Seq<u8>>::empty()));
        assert(ts =~= Seq::<Seq<u8>>::empty());
    } else {
        let t0 = ts[0];
        let rest = ts.skip(1);
        let n64 = t0.len() as u64;
        lemma_read_len_bytes(n64);
        let e = spec_encode(ts);
        assert(e == spec_encode_token(t0) + spec_encode(rest));
        assert(e.len() == 8 + t0.len() + spec_encode(rest).len());
        assert(e.subrange(0, 8) =~= len_bytes(n64));
        assert(read_len(e.subrange(0, 8)) == n64);
        assert(n64 as int == t0.len());
        assert(e.subrange(8, 8 + t0.len() as int) =~= t0);
        assert(e.skip(8 + t0.len() as int) =~= spec_encode(rest));
        lemma_store_round_trip(rest);
        assert(spec_decode(e.skip(8 + t0.len() as int)) == Some(rest));
        assert(spec_decode(e) == Some(seq![t0] + rest));
        assert(seq![t0] + rest =~= ts);
    }
}

/// The sessions issued so far, as persisted and consulted to authorize
/// later requests. Backed by a file whose bytes `encode` produces and
/// `decode` reads back.
#[derive(Debug)]
pub struct SessionStore {
    tokens: Vec<Vec<u8>>,
}

/// The tokens a vector of byte vectors holds, as mathematical sequences.
spec fn tokens_view(tokens: Seq<Vec<u8>>) -> Seq<Seq<u8>> {
    Seq::new(tokens.len(), |i: int| tokens[i]@)
}

impl SessionStore {
    /// The tokens held, in the order they were issued.
    pub closed spec fn sessions(self) -> Seq<Seq<u8>> {
        tokens_view(self.tokens@)
    }

    /// A store with no sessions yet.
    pub fn new() -> (r: SessionStore)
        ensures
            r.sessions() == Seq::<Seq<u8>>::empty(),
    {
        let r = SessionStore { tokens: Vec::new() };
        proof {
            assert(r.sessions() =~= Seq::<Seq<u8>>::empty());
        }
        r
    }

    /// Records one newly issued session in memory.
    pub fn add(&mut self, token: Vec<u8>)
        ensures
            final(self).sessions() == old(self).sessions().push(token@),
    {
        let ghost before = self.sessions();
        let ghost t = token@;
        self.tokens.push(token);
        proof {
            assert(self.sessions() =~= before.push(t));
        }
    }

    /// How many sessions are held.
    pub fn count(&self) -> (r: usize)
        ensures
            r == self.sessions().len(),
    {
        self.tokens.len()
    }

    /// The token of the `i`-th session.
    pub fn token_at(&self, i: usize) -> (r: &Vec<u8>)
        requires
            i < self.sessions().len(),
        ensures
            r@ == self.sessions()[i as int],
    {
        &self.tokens[i]
    }

    /// The exact bytes under which the sessions are persisted.
    pub fn encode(&self) -> (r: Vec<u8>)
        ensures
            r@ == spec_encode(self.sessions()),
    {
        let mut out: Vec<u8> = Vec::new();
        let mut i: usize = 0;
        let n = self.tokens.len();
        while i < n
            invariant
                n == self.tokens@.len(),
                i <= n,
                out@ == spec_encode(self.sessions().take(i as int)),
            decreases n - i,
        {
            let ghost done = self.sessions().take(i as int);
            let ghost t = self.tokens@[i as int]@;
            push_token(&mut out, &self.tokens[i]);
            proof {
                lemma_encode_push(done, t);
                assert(self.sessions().take(i + 1 as int) =~= done.push(t));
            }
            i = i + 1;
        }
        proof {
            assert(self.sessions().take(n as int) =~= self.sessions());
        }
        out
    }

    /// The exact bytes of this store with one more session appended:
    /// what must stand on disk before the session may be committed to
    /// memory, so that a write failure never leaves memory ahead of disk.
    pub fn encoded_with(&self, extra: &Vec<u8>) -> (r: Vec<u8>)
        ensures
            r@ == spec_encode(self.sessions().push(extra@)),
    {
        let mut out = self.encode();
        push_token(&mut out, extra);
        proof {
            lemma_encode_push(self.sessions(), extra@);
        }
        out
    }

    /// Reads a store back from the bytes of its file. Succeeds exactly on
    /// byte strings that encode a store; anything else (a torn or foreign
    /// file) is a persistence failure, never a panic.
    pub fn decode(bytes: &Vec<u8>) -> (r: ApiResult<SessionStore>)
        ensures
            r is Ok <==> spec_decode(bytes@) is Some,
            r matches Ok(store) ==> Some(store.sessions()) == spec_decode(bytes@),
            r matches Err(e) ==> e is PersistenceFailure,
    {
        let len: usize = bytes.len();
        let mut pos: usize = 0;
        let mut acc: Vec<Vec<u8>> = Vec::new();
        proof {
            assert(bytes@.skip(0) =~= bytes@);
            assert(tokens_view(acc@) =~= Seq::<Seq<u8>>::empty());
            if spec_decode(bytes@) is Some {
                assert(spec_decode(bytes@) == Some(spec_decode(bytes@)->0));
                assert(tokens_view(acc@) + spec_decode(bytes@)->0 =~= spec_decode(bytes@)->0);
            }
        }
        while pos < len
            invariant
                pos <= len,
                len == bytes@.len(),
                spec_decode(bytes@.skip(pos as int)) is Some ==> spec_decode(bytes@) == Some(
                    tokens_view(acc@) + spec_decode(bytes@.skip(pos as int))->0,
                ),
                spec_decode(bytes@.skip(pos as int)) is None ==> spec_decode(bytes@) is None,
            decreases len - pos,
        {
            let ghost s = bytes@.skip(pos as int);
            if len - pos < 8 {
                proof {
                    assert(s.len() == len - pos);
                    assert(spec_decode(s) is None);
                }
                return Err(
                    ApiError::PersistenceFailure {
                        cause: String::from_str("session store is truncated"),
                    },
                );
            }
            let b0 = bytes[pos];
            let b1 = bytes[pos + 1];
            let b2 = bytes[pos + 2];
            let b3 = bytes[pos + 3];
            let b4 = bytes[pos + 4];
            let b5 = bytes[pos + 5];
            let b6 = bytes[pos + 6];
            let b7 = bytes[pos + 7];
            let n: u64 = (b0 as u64) | ((b1 as u64) << 8) | ((b2 as u64) << 16) | ((b3 as u64)
                << 24) | ((b4 as u64) << 32) | ((b5 as u64) << 40) | ((b6 as u64) << 48) | ((
            b7 as u64) << 56);
            proof {
                assert(s.subrange(0, 8) =~= seq![b0, b1, b2, b3, b4, b5, b6, b7]);
                assert(read_len(s.subrange(0, 8)) == n);
            }
            let rem: usize = len - pos - 8;
            if n > rem as u64 {
                proof {
                    assert(8 + n as int > s.len());
                    assert(spec_decode(s) is None);
                }
                return Err(
                    ApiError::PersistenceFailure {
                        cause: String::from_str("session store record overruns the file"),
                    },
                );
            }
            let tlen: usize = n as usize;
            let mut tok: Vec<u8> = Vec::new();
            let mut j: usize = 0;
            while j < tlen
                invariant
                    j <= tlen,
                    pos + 8 + tlen <= len,
                    len == bytes@.len(),
                    tok@ == bytes@.subrange(pos + 8 as int, pos + 8 + j as int),
                decreases tlen - j,
            {
                let ghost before = tok@;
                tok.push(bytes[pos + 8 + j]);
                proof {
                    assert(tok@ =~= bytes@.subrange(pos + 8 as int, pos + 8 + (j + 1) as int));
                }
                j = j + 1;
            }
            proof {
                assert(tok@ =~= s.subrange(8, 8 + n as int));
                assert(s.skip(8 + n as int) =~= bytes@.skip(pos + 8 + tlen as int));
                assert(spec_decode(s) is Some ==> spec_decode(s) == Some(
                    seq![s.subrange(8, 8 + n as int)] + spec_decode(s.skip(8 + n as int))->0,
                ));
            }
            let ghost acc_before = tokens_view(acc@);
            let ghost t = tok@;
            acc.push(tok);
            proof {
                assert(tokens_view(acc@) =~= acc_before.push(t));
                if spec_decode(s.skip(8 + n as int)) is Some {
                    let rest = spec_decode(s.skip(8 + n as int))->0;
                    assert(spec_decode(s) == Some(seq![t] + rest));
                    assert(acc_before + (seq![t] + rest) =~= tokens_view(acc@) + rest);
                }
            }
            pos = pos + 8 + tlen;
        }
        proof {
            assert(bytes@.skip(pos as int) =~= Seq::<u8>::empty());
            assert(spec_decode(bytes@.skip(pos as int)) == Some(Seq::<Seq<u8>>::empty()));
            assert(tokens_view(acc@) + Seq::<Seq<u8>>::empty() =~= tokens_view(acc@));
        }
        let store = SessionStore { tokens: acc };
        Ok(store)
    }
}

/// Appends one token's record (length field, then bytes) to the buffer.
fn push_token(out: &mut Vec<u8>, token: &Vec<u8>)
    ensures
        final(out)@ == old(out)@ + spec_encode_token(token@),
{
    let ghost before = out@;
    let n: u64 = token.len() as u64;
    out.push((n & 0xff) as u8);
    out.push(((n >> 8) & 0xff) as u8);
    out.push(((n >> 16) & 0xff) as u8);
    out.push(((n >> 24) & 0xff) as u8);
    out.push(((n >> 32) & 0xff) as u8);
    out.push(((n >> 40) & 0xff) as u8);
    out.push(((n >> 48) & 0xff) as u8);
    out.push(((n >> 56) & 0xff) as u8);
    proof {
        assert(out@ =~= before + len_bytes(n));
    }
    let ghost header = out@;
    let m = token.len();
    let mut j: usize = 0;
    while j < m
        invariant
            j <= m,
            m == token@.len(),
            out@ == header + token@.take(j as int),
        decreases m - j,
    {
        let ghost cur = out@;
        out.push(token[j]);
        proof {
            assert(out@ =~= header + token@.take(j + 1 as int));
        }
        j = j + 1;
    }
    proof {
        assert(token@.take(m as int) =~= token@);
        assert(n == token@.len());
        assert(out@ =~= before + spec_encode_token(token@));
    }
}

} // verus!
