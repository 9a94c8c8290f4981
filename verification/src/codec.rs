//! The wire codec: a stable, self-describing byte format for everything that
//! crosses the network, gated by a protocol-version token.
//!
//! Every encoder appends to a byte vector; every decoder reads from a
//! position and is characterized exactly by a parse function over the byte
//! sequence. Parsing an encoding yields the encoded value back.

use vstd::prelude::*;

use crate::behaviour::{Request, Response, SimpleMessage};
use crate::consensus::{events_model, txs_model, Event, EventModel, SyncJobs, Transaction, TransactionModel};
use crate::instructions::{BinaryOp, Instruction, Operation, ProgramIdentifier, UnaryOp};
use crate::types::{EventHash, PeerId, Shard, Sid, Vid};

verus! {

/// The protocol-version token: the first byte of every wire message.
pub const WIRE_VERSION: u8 = 1;

/// The little-endian bytes of a 64-bit value.
pub open spec fn enc_u64(x: u64) -> Seq<u8> {
    seq![
        (x & 0xff) as u8,
        ((x >> 8) & 0xff) as u8,
        ((x >> 16) & 0xff) as u8,
        ((x >> 24) & 0xff) as u8,
        ((x >> 32) & 0xff) as u8,
        ((x >> 40) & 0xff) as u8,
        ((x >> 48) & 0xff) as u8,
        ((x >> 56) & 0xff) as u8,
    ]
}

/// The 64-bit value read back from eight little-endian bytes.
pub open spec fn u64_from(b0: u8, b1: u8, b2: u8, b3: u8, b4: u8, b5: u8, b6: u8, b7: u8) -> u64 {
    (b0 as u64) | ((b1 as u64) << 8) | ((b2 as u64) << 16) | ((b3 as u64) << 24) | ((
    b4 as u64) << 32) | ((b5 as u64) << 40) | ((b6 as u64) << 48) | ((b7 as u64) << 56)
}

/// Reading back the little-endian bytes of a value gives the value.
pub proof fn lemma_u64_round(x: u64)
    ensures
        u64_from(
            (x & 0xff) as u8,
            ((x >> 8) & 0xff) as u8,
            ((x >> 16) & 0xff) as u8,
            ((x >> 24) & 0xff) as u8,
            ((x >> 32) & 0xff) as u8,
            ((x >> 40) & 0xff) as u8,
            ((x >> 48) & 0xff) as u8,
            ((x >> 56) & 0xff) as u8,
        ) == x,
{
    assert((((x & 0xff) as u8) as u64) | (((((x >> 8) & 0xff) as u8) as u64) << 8) | (((((
    x >> 16) & 0xff) as u8) as u64) << 16) | ((((((x >> 24)) & 0xff) as u8) as u64) << 24) | ((((((
    x >> 32)) & 0xff) as u8) as u64) << 32) | ((((((x >> 40)) & 0xff) as u8) as u64) << 40) | ((((((
    x >> 48)) & 0xff) as u8) as u64) << 48) | ((((((x >> 56)) & 0xff) as u8) as u64) << 56)
        == x) by (bit_vector);
}

/// Parses eight little-endian bytes at `pos`.
pub open spec fn parse_u64(b: Seq<u8>, pos: int) -> Option<(u64, int)> {
    if 0 <= pos && pos + 8 <= b.len() {
        Some(
            (
                u64_from(
                    b[pos],
                    b[pos + 1],
                    b[pos + 2],
                    b[pos + 3],
                    b[pos + 4],
                    b[pos + 5],
                    b[pos + 6],
                    b[pos + 7],
                ),
                pos + 8,
            ),
        )
    } else {
        None
    }
}

/// Parsing an encoded value at its position gives the value back.
pub proof fn lemma_parse_enc_u64(b: Seq<u8>, pos: int, x: u64)
    requires
        0 <= pos,
        pos + 8 <= b.len(),
        b.subrange(pos, pos + 8) == enc_u64(x),
    ensures
        parse_u64(b, pos) == Some((x, pos + 8)),
{
    assert(b[pos] == enc_u64(x)[0]);
    assert(b[pos + 1] == enc_u64(x)[1]);
    assert(b[pos + 2] == enc_u64(x)[2]);
    assert(b[pos + 3] == enc_u64(x)[3]);
    assert(b[pos + 4] == enc_u64(x)[4]);
    assert(b[pos + 5] == enc_u64(x)[5]);
    assert(b[pos + 6] == enc_u64(x)[6]);
    assert(b[pos + 7] == enc_u64(x)[7]);
    lemma_u64_round(x);
}

/// Appends the little-endian bytes of `x`.
pub fn encode_u64(out: &mut Vec<u8>, x: u64)
    ensures
        final(out)@ == old(out)@ + enc_u64(x),
{
    out.push((x & 0xff) as u8);
    out.push(((x >> 8) & 0xff) as u8);
    out.push(((x >> 16) & 0xff) as u8);
    out.push(((x >> 24) & 0xff) as u8);
    out.push(((x >> 32) & 0xff) as u8);
    out.push(((x >> 40) & 0xff) as u8);
    out.push(((x >> 48) & 0xff) as u8);
    out.push(((x >> 56) & 0xff) as u8);
    proof {
        assert(out@ =~= old(out)@ + enc_u64(x));
    }
}

/// Reads the 64-bit value at `pos`.
pub fn decode_u64(b: &Vec<u8>, pos: usize) -> (r: Option<(u64, usize)>)
    ensures
        match r {
            Some((x, p)) => parse_u64(b@, pos as int) == Some((x, p as int)),
            None => parse_u64(b@, pos as int) is None,
        },
{
    if b.len() < 8 || pos > b.len() - 8 {
        return None;
    }
    let x = (b[pos] as u64) | ((b[pos + 1] as u64) << 8) | ((b[pos + 2] as u64) << 16) | ((
    b[pos + 3] as u64) << 24) | ((b[pos + 4] as u64) << 32) | ((b[pos + 5] as u64) << 40) | ((
    b[pos + 6] as u64) << 48) | ((b[pos + 7] as u64) << 56);
    Some((x, pos + 8))
}

/// A length-prefixed byte string.
pub open spec fn enc_bytes(s: Seq<u8>) -> Seq<u8> {
    enc_u64(s.len() as u64) + s
}

/// Parses a length-prefixed byte string at `pos`.
pub open spec fn parse_bytes(b: Seq<u8>, pos: int) -> Option<(Seq<u8>, int)> {
    match parse_u64(b, pos) {
        None => None,
        Some((n, p)) => if p + n <= b.len() {
            Some((b.subrange(p, p + n), p + n))
        } else {
            None
        },
    }
}

/// Parsing an encoded byte string gives the string back.
pub proof fn lemma_parse_enc_bytes(b: Seq<u8>, pos: int, s: Seq<u8>)
    requires
        0 <= pos,
        s.len() <= u64::MAX,
        pos + enc_bytes(s).len() <= b.len(),
        b.subrange(pos, pos + enc_bytes(s).len()) == enc_bytes(s),
    ensures
        parse_bytes(b, pos) == Some((s, pos + enc_bytes(s).len())),
{
    let l = s.len() as int;
    assert(b.subrange(pos, pos + 8) =~= enc_u64(s.len() as u64)) by {
        assert forall|i: int| #![trigger b.subrange(pos, pos + 8)[i]]
            0 <= i < 8 implies b.subrange(pos, pos + 8)[i] == enc_u64(s.len() as u64)[i] by {
            assert(b.subrange(pos, pos + enc_bytes(s).len())[i] == enc_bytes(s)[i]);
        }
    }
    lemma_parse_enc_u64(b, pos, s.len() as u64);
    assert(b.subrange(pos + 8, pos + 8 + l) =~= s) by {
        assert forall|i: int| #![trigger b.subrange(pos + 8, pos + 8 + l)[i]]
            0 <= i < l implies b.subrange(pos + 8, pos + 8 + l)[i] == s[i] by {
            assert(b.subrange(pos, pos + enc_bytes(s).len())[8 + i] == enc_bytes(s)[8 + i]);
        }
    }
}

/// Appends a length-prefixed byte string.
pub fn encode_bytes(out: &mut Vec<u8>, s: &Vec<u8>)
    ensures
        final(out)@ == old(out)@ + enc_bytes(s@),
{
    encode_u64(out, s.len() as u64);
    let mut i: usize = 0;
    while i < s.len()
        invariant
            i <= s@.len(),
            out@ == old(out)@ + enc_u64(s@.len() as u64) + s@.subrange(0, i as int),
        decreases s@.len() - i,
    {
        out.push(s[i]);
        proof {
            assert(out@ =~= old(out)@ + enc_u64(s@.len() as u64) + s@.subrange(0, i + 1));
        }
        i = i + 1;
    }
    proof {
        assert(s@.subrange(0, s@.len() as int) =~= s@);
        assert(out@ =~= old(out)@ + enc_bytes(s@));
    }
}

/// Reads a length-prefixed byte string at `pos`.
pub fn decode_bytes(b: &Vec<u8>, pos: usize) -> (r: Option<(Vec<u8>, usize)>)
    ensures
        match r {
            Some((s, p)) => parse_bytes(b@, pos as int) == Some((s@, p as int)),
            None => parse_bytes(b@, pos as int) is None,
        },
{
    let (n, p) = match decode_u64(b, pos) {
        Some(x) => x,
        None => {
            return None;
        },
    };
    let bl = b.len();
    if n > ((bl - p) as u64) {
        return None;
    }
    let n = n as usize;
    let mut s: Vec<u8> = Vec::new();
    let mut i: usize = 0;
    while i < n
        invariant
            i <= n,
            p + n <= b@.len(),
            b@.len() <= usize::MAX,
            s@.len() == i,
            forall|j: int| 0 <= j < i ==> s@[j] == b@[p + j],
        decreases n - i,
    {
        s.push(b[p + i]);
        i = i + 1;
    }
    proof {
        assert(s@ =~= b@.subrange(p as int, p + n));
    }
    Some((s, p + n))
}

/// An event identifier: author then chain position.
pub open spec fn enc_hash(h: EventHash) -> Seq<u8> {
    enc_u64(h.author.0) + enc_u64(h.seq)
}

/// Parses an event identifier at `pos`.
pub open spec fn parse_hash(b: Seq<u8>, pos: int) -> Option<(EventHash, int)> {
    match parse_u64(b, pos) {
        None => None,
        Some((a, p1)) => match parse_u64(b, p1) {
            None => None,
            Some((s, p2)) => Some((EventHash { author: PeerId(a), seq: s }, p2)),
        },
    }
}

/// Parsing an encoded event identifier gives it back.
pub proof fn lemma_parse_enc_hash(b: Seq<u8>, pos: int, h: EventHash)
    requires
        0 <= pos,
        pos + 16 <= b.len(),
        b.subrange(pos, pos + 16) == enc_hash(h),
    ensures
        parse_hash(b, pos) == Some((h, pos + 16)),
{
    assert(b.subrange(pos, pos + 8) =~= enc_u64(h.author.0)) by {
        assert forall|i: int| #![trigger b.subrange(pos, pos + 8)[i]]
            0 <= i < 8 implies b.subrange(pos, pos + 8)[i] == enc_u64(h.author.0)[i] by {
            assert(b.subrange(pos, pos + 16)[i] == enc_hash(h)[i]);
        }
    }
    lemma_parse_enc_u64(b, pos, h.author.0);
    assert(b.subrange(pos + 8, pos + 16) =~= enc_u64(h.seq)) by {
        assert forall|i: int| #![trigger b.subrange(pos + 8, pos + 16)[i]]
            0 <= i < 8 implies b.subrange(pos + 8, pos + 16)[i] == enc_u64(h.seq)[i] by {
            assert(b.subrange(pos, pos + 16)[8 + i] == enc_hash(h)[8 + i]);
        }
    }
    lemma_parse_enc_u64(b, pos + 8, h.seq);
}

/// Appends an event identifier.
pub fn encode_hash(out: &mut Vec<u8>, h: &EventHash)
    ensures
        final(out)@ == old(out)@ + enc_hash(*h),
{
    encode_u64(out, h.author.0);
    encode_u64(out, h.seq);
    proof {
        assert(out@ =~= old(out)@ + enc_hash(*h));
    }
}

/// Reads an event identifier at `pos`.
pub fn decode_hash(b: &Vec<u8>, pos: usize) -> (r: Option<(EventHash, usize)>)
    ensures
        match r {
            Some((h, p)) => parse_hash(b@, pos as int) == Some((h, p as int)) && p
                <= b@.len(),
            None => parse_hash(b@, pos as int) is None,
        },
{
    let (a, p1) = match decode_u64(b, pos) {
        Some(x) => x,
        None => {
            return None;
        },
    };
    let (s, p2) = match decode_u64(b, p1) {
        Some(x) => x,
        None => {
            return None;
        },
    };
    Some((EventHash { author: PeerId(a), seq: s }, p2))
}

/// An optional event identifier: a presence byte, then the identifier.
pub open spec fn enc_opt_hash(h: Option<EventHash>) -> Seq<u8> {
    match h {
        None => seq![0u8],
        Some(hash) => seq![1u8] + enc_hash(hash),
    }
}

/// Parses an optional event identifier at `pos`.
pub open spec fn parse_opt_hash(b: Seq<u8>, pos: int) -> Option<(Option<EventHash>, int)> {
    if 0 <= pos && pos < b.len() {
        if b[pos] == 0u8 {
            Some((None, pos + 1))
        } else if b[pos] == 1u8 {
            match parse_hash(b, pos + 1) {
                None => None,
                Some((h, p)) => Some((Some(h), p)),
            }
        } else {
            None
        }
    } else {
        None
    }
}

/// Parsing an encoded optional identifier gives it back.
pub proof fn lemma_parse_enc_opt_hash(b: Seq<u8>, pos: int, h: Option<EventHash>)
    requires
        0 <= pos,
        pos + enc_opt_hash(h).len() <= b.len(),
        b.subrange(pos, pos + enc_opt_hash(h).len()) == enc_opt_hash(h),
    ensures
        parse_opt_hash(b, pos) == Some((h, pos + enc_opt_hash(h).len())),
{
    assert(b[pos] == enc_opt_hash(h)[0]) by {
        assert(b.subrange(pos, pos + enc_opt_hash(h).len())[0] == enc_opt_hash(h)[0]);
    }
    match h {
        None => {
        },
        Some(hash) => {
            assert(b.subrange(pos + 1, pos + 17) =~= enc_hash(hash)) by {
                assert forall|i: int| #![trigger b.subrange(pos + 1, pos + 17)[i]]
                    0 <= i < 16 implies b.subrange(pos + 1, pos + 17)[i]
                    == enc_hash(hash)[i] by {
                    assert(b.subrange(pos, pos + enc_opt_hash(h).len())[1 + i]
                        == enc_opt_hash(h)[1 + i]);
                }
            }
            lemma_parse_enc_hash(b, pos + 1, hash);
        },
    }
}

/// Appends an optional event identifier.
pub fn encode_opt_hash(out: &mut Vec<u8>, h: &Option<EventHash>)
    ensures
        final(out)@ == old(out)@ + enc_opt_hash(*h),
{
    match h {
        None => {
            out.push(0u8);
            proof {
                assert(out@ =~= old(out)@ + enc_opt_hash(*h));
            }
        },
        Some(hash) => {
            out.push(1u8);
            encode_hash(out, hash);
            proof {
                assert(out@ =~= old(out)@ + enc_opt_hash(*h));
            }
        },
    }
}

/// Reads an optional event identifier at `pos`.
pub fn decode_opt_hash(b: &Vec<u8>, pos: usize) -> (r: Option<(Option<EventHash>, usize)>)
    ensures
        match r {
            Some((h, p)) => parse_opt_hash(b@, pos as int) == Some((h, p as int)) && p
                <= b@.len(),
            None => parse_opt_hash(b@, pos as int) is None,
        },
{
    if pos >= b.len() {
        return None;
    }
    let tag = b[pos];
    if tag == 0 {
        Some((None, pos + 1))
    } else if tag == 1 {
        match decode_hash(b, pos + 1) {
            Some((h, p)) => Some((Some(h), p)),
            None => None,
        }
    } else {
        None
    }
}

/// A stretch of `b` that holds `total` also holds each slice of `total`, at
/// the shifted position.
pub proof fn lemma_slice(b: Seq<u8>, pos: int, total: Seq<u8>, off: int, part: Seq<u8>)
    requires
        0 <= pos,
        pos + total.len() <= b.len(),
        b.subrange(pos, pos + total.len()) == total,
        0 <= off,
        off + part.len() <= total.len(),
        total.subrange(off, off + part.len()) == part,
    ensures
        b.subrange(pos + off, pos + off + part.len()) == part,
{
    assert forall|i: int| #![trigger part[i]] 0 <= i < part.len() implies b.subrange(
        pos + off,
        pos + off + part.len(),
    )[i] == part[i] by {
        assert(b.subrange(pos, pos + total.len())[off + i] == total[off + i]);
        assert(total.subrange(off, off + part.len())[i] == part[i]);
    }
    assert(b.subrange(pos + off, pos + off + part.len()) =~= part);
}

/// The concatenation of each item's encoding, in order.
pub open spec fn enc_list<T>(items: Seq<T>, e: spec_fn(T) -> Seq<u8>) -> Seq<u8>
    decreases items.len(),
{
    if items.len() == 0 {
        Seq::empty()
    } else {
        e(items[0]) + enc_list(items.subrange(1, items.len() as int), e)
    }
}

/// Parses `n` items in sequence with the item parser `p`.
pub open spec fn parse_list<T>(
    b: Seq<u8>,
    pos: int,
    n: int,
    p: spec_fn(Seq<u8>, int) -> Option<(T, int)>,
) -> Option<(Seq<T>, int)>
    decreases n,
{
    if n <= 0 {
        Some((Seq::empty(), pos))
    } else {
        match p(b, pos) {
            None => None,
            Some((v, q)) => match parse_list(b, q, n - 1, p) {
                None => None,
                Some((vs, end)) => Some((seq![v] + vs, end)),
            },
        }
    }
}

/// Prepends already parsed items to the outcome of parsing the rest.
pub open spec fn join_parsed<T>(prefix: Seq<T>, rest: Option<(Seq<T>, int)>) -> Option<
    (Seq<T>, int),
> {
    match rest {
        None => None,
        Some((items, end)) => Some((prefix + items, end)),
    }
}

/// An item parser that inverts the item encoder on well-formed items
/// inverts the list encoding of well-formed items.
pub proof fn lemma_parse_enc_list<T>(
    b: Seq<u8>,
    pos: int,
    items: Seq<T>,
    e: spec_fn(T) -> Seq<u8>,
    p: spec_fn(Seq<u8>, int) -> Option<(T, int)>,
    ok: spec_fn(T) -> bool,
)
    requires
        0 <= pos,
        pos + enc_list(items, e).len() <= b.len(),
        b.subrange(pos, pos + enc_list(items, e).len()) == enc_list(items, e),
        forall|i: int| 0 <= i < items.len() ==> ok(#[trigger] items[i]),
        forall|b2: Seq<u8>, pos2: int, x: T| #![trigger p(b2, pos2), e(x)]
            (ok(x) && 0 <= pos2 && pos2 + e(x).len() <= b2.len() && b2.subrange(
                pos2,
                pos2 + e(x).len(),
            ) == e(x)) ==> p(b2, pos2) == Some((x, pos2 + e(x).len())),
    ensures
        parse_list(b, pos, items.len() as int, p) == Some(
            (items, pos + enc_list(items, e).len()),
        ),
    decreases items.len(),
{
    if items.len() == 0 {
        assert(items =~= Seq::<T>::empty());
    } else {
        let first = items[0];
        let rest = items.subrange(1, items.len() as int);
        let fe = e(first);
        let re = enc_list(rest, e);
        assert(enc_list(items, e) == fe + re);
        assert((fe + re).subrange(0, fe.len() as int) =~= fe);
        lemma_slice(b, pos, fe + re, 0, fe);
        assert(ok(first));
        assert(p(b, pos) == Some((first, pos + fe.len())));
        assert((fe + re).subrange(fe.len() as int, (fe + re).len() as int) =~= re);
        lemma_slice(b, pos, fe + re, fe.len() as int, re);
        assert forall|i: int| 0 <= i < rest.len() implies ok(#[trigger] rest[i]) by {
            assert(rest[i] == items[i + 1]);
        }
        lemma_parse_enc_list(b, pos + fe.len(), rest, e, p, ok);
        assert(seq![first] + rest =~= items);
    }
}

/// One instruction: an operation tag, its operand handles, and the result
/// handle.
pub open spec fn enc_instr(i: Instruction<Vid, Vid>) -> Seq<u8> {
    match i.operation {
        Operation::Sub(bo) => seq![1u8] + enc_u64(bo.first.0) + enc_u64(bo.second.0)
            + enc_u64(i.result.0),
        Operation::Plus(bo) => seq![2u8] + enc_u64(bo.first.0) + enc_u64(bo.second.0)
            + enc_u64(i.result.0),
        Operation::Inv(uo) => seq![3u8] + enc_u64(uo.operand.0) + enc_u64(i.result.0),
        Operation::Nand(bo) => seq![4u8] + enc_u64(bo.first.0) + enc_u64(bo.second.0)
            + enc_u64(i.result.0),
        Operation::Nor(bo) => seq![5u8] + enc_u64(bo.first.0) + enc_u64(bo.second.0)
            + enc_u64(i.result.0),
    }
}

/// Parses one instruction at `pos`.
pub open spec fn parse_instr(b: Seq<u8>, pos: int) -> Option<(Instruction<Vid, Vid>, int)> {
    if 0 <= pos && pos < b.len() {
        let tag = b[pos];
        if tag == 3u8 {
            match parse_u64(b, pos + 1) {
                None => None,
                Some((op, p1)) => match parse_u64(b, p1) {
                    None => None,
                    Some((res, p2)) => Some(
                        (
                            Instruction {
                                operation: Operation::Inv(UnaryOp { operand: Vid(op) }),
                                result: Vid(res),
                            },
                            p2,
                        ),
                    ),
                },
            }
        } else if tag == 1u8 || tag == 2u8 || tag == 4u8 || tag == 5u8 {
            match parse_u64(b, pos + 1) {
                None => None,
                Some((first, p1)) => match parse_u64(b, p1) {
                    None => None,
                    Some((second, p2)) => match parse_u64(b, p2) {
                        None => None,
                        Some((res, p3)) => {
                            let bo = BinaryOp { first: Vid(first), second: Vid(second) };
                            let operation = if tag == 1u8 {
                                Operation::Sub(bo)
                            } else if tag == 2u8 {
                                Operation::Plus(bo)
                            } else if tag == 4u8 {
                                Operation::Nand(bo)
                            } else {
                                Operation::Nor(bo)
                            };
                            Some((Instruction { operation, result: Vid(res) }, p3))
                        },
                    },
                },
            }
        } else {
            None
        }
    } else {
        None
    }
}

/// Parsing an encoded instruction gives it back.
pub proof fn lemma_parse_enc_instr(b: Seq<u8>, pos: int, x: Instruction<Vid, Vid>)
    requires
        0 <= pos,
        pos + enc_instr(x).len() <= b.len(),
        b.subrange(pos, pos + enc_instr(x).len()) == enc_instr(x),
    ensures
        parse_instr(b, pos) == Some((x, pos + enc_instr(x).len())),
{
    let total = enc_instr(x);
    assert(b[pos] == total[0]) by {
        assert(b.subrange(pos, pos + total.len())[0] == total[0]);
    }
    match x.operation {
        Operation::Inv(uo) => {
            assert(total.subrange(1, 9) =~= enc_u64(uo.operand.0));
            lemma_slice(b, pos, total, 1, enc_u64(uo.operand.0));
            lemma_parse_enc_u64(b, pos + 1, uo.operand.0);
            assert(total.subrange(9, 17) =~= enc_u64(x.result.0));
            lemma_slice(b, pos, total, 9, enc_u64(x.result.0));
            lemma_parse_enc_u64(b, pos + 9, x.result.0);
        },
        Operation::Sub(bo) => {
            lemma_parse_enc_binary(b, pos, x, bo);
        },
        Operation::Plus(bo) => {
            lemma_parse_enc_binary(b, pos, x, bo);
        },
        Operation::Nand(bo) => {
            lemma_parse_enc_binary(b, pos, x, bo);
        },
        Operation::Nor(bo) => {
            lemma_parse_enc_binary(b, pos, x, bo);
        },
    }
}

/// The shared step for the binary-operation instruction encodings.
proof fn lemma_parse_enc_binary(b: Seq<u8>, pos: int, x: Instruction<Vid, Vid>, bo: BinaryOp<
    Vid,
>)
    requires
        0 <= pos,
        pos + enc_instr(x).len() <= b.len(),
        b.subrange(pos, pos + enc_instr(x).len()) == enc_instr(x),
        match x.operation {
            Operation::Sub(o) => o == bo,
            Operation::Plus(o) => o == bo,
            Operation::Nand(o) => o == bo,
            Operation::Nor(o) => o == bo,
            Operation::Inv(_) => false,
        },
    ensures
        parse_instr(b, pos) == Some((x, pos + enc_instr(x).len())),
{
    let total = enc_instr(x);
    assert(b[pos] == total[0]) by {
        assert(b.subrange(pos, pos + total.len())[0] == total[0]);
    }
    assert(total.subrange(1, 9) =~= enc_u64(bo.first.0));
    lemma_slice(b, pos, total, 1, enc_u64(bo.first.0));
    lemma_parse_enc_u64(b, pos + 1, bo.first.0);
    assert(total.subrange(9, 17) =~= enc_u64(bo.second.0));
    lemma_slice(b, pos, total, 9, enc_u64(bo.second.0));
    lemma_parse_enc_u64(b, pos + 9, bo.second.0);
    assert(total.subrange(17, 25) =~= enc_u64(x.result.0));
    lemma_slice(b, pos, total, 17, enc_u64(x.result.0));
    lemma_parse_enc_u64(b, pos + 17, x.result.0);
}

/// Appends one instruction.
pub fn encode_instr(out: &mut Vec<u8>, i: &Instruction<Vid, Vid>)
    ensures
        final(out)@ == old(out)@ + enc_instr(*i),
{
    match &i.operation {
        Operation::Sub(bo) => {
            out.push(1u8);
            encode_u64(out, bo.first.0);
            encode_u64(out, bo.second.0);
            encode_u64(out, i.result.0);
        },
        Operation::Plus(bo) => {
            out.push(2u8);
            encode_u64(out, bo.first.0);
            encode_u64(out, bo.second.0);
            encode_u64(out, i.result.0);
        },
        Operation::Inv(uo) => {
            out.push(3u8);
            encode_u64(out, uo.operand.0);
            encode_u64(out, i.result.0);
        },
        Operation::Nand(bo) => {
            out.push(4u8);
            encode_u64(out, bo.first.0);
            encode_u64(out, bo.second.0);
            encode_u64(out, i.result.0);
        },
        Operation::Nor(bo) => {
            out.push(5u8);
            encode_u64(out, bo.first.0);
            encode_u64(out, bo.second.0);
            encode_u64(out, i.result.0);
        },
    }
    proof {
        assert(out@ =~= old(out)@ + enc_instr(*i));
    }
}

/// Reads one instruction at `pos`.
pub fn decode_instr(b: &Vec<u8>, pos: usize) -> (r: Option<(Instruction<Vid, Vid>, usize)>)
    ensures
        match r {
            Some((x, p)) => parse_instr(b@, pos as int) == Some((x, p as int)),
            None => parse_instr(b@, pos as int) is None,
        },
{
    if pos >= b.len() {
        return None;
    }
    let tag = b[pos];
    if tag == 3 {
        let (op, p1) = match decode_u64(b, pos + 1) {
            Some(x) => x,
            None => {
                return None;
            },
        };
        let (res, p2) = match decode_u64(b, p1) {
            Some(x) => x,
            None => {
                return None;
            },
        };
        Some(
            (
                Instruction {
                    operation: Operation::Inv(UnaryOp { operand: Vid(op) }),
                    result: Vid(res),
                },
                p2,
            ),
        )
    } else if tag == 1 || tag == 2 || tag == 4 || tag == 5 {
        let (first, p1) = match decode_u64(b, pos + 1) {
            Some(x) => x,
            None => {
                return None;
            },
        };
        let (second, p2) = match decode_u64(b, p1) {
            Some(x) => x,
            None => {
                return None;
            },
        };
        let (res, p3) = match decode_u64(b, p2) {
            Some(x) => x,
            None => {
                return None;
            },
        };
        let bo = BinaryOp { first: Vid(first), second: Vid(second) };
        let operation = if tag == 1 {
            Operation::Sub(bo)
        } else if tag == 2 {
            Operation::Plus(bo)
        } else if tag == 4 {
            Operation::Nand(bo)
        } else {
            Operation::Nor(bo)
        };
        Some((Instruction { operation, result: Vid(res) }, p3))
    } else {
        None
    }
}

/// Prepending items to a parse outcome one at a time or in one step is the
/// same.
proof fn lemma_join_push<T>(prefix: Seq<T>, v: T, rest: Option<(Seq<T>, int)>)
    ensures
        join_parsed(prefix, join_parsed(seq![v], rest)) == join_parsed(prefix.push(v), rest),
{
    match rest {
        None => {
        },
        Some((items, end)) => {
            assert(prefix + (seq![v] + items) =~= prefix.push(v) + items);
        },
    }
}

/// The instruction parser as a value.
pub open spec fn instr_parser() -> spec_fn(Seq<u8>, int) -> Option<
    (Instruction<Vid, Vid>, int),
> {
    |b: Seq<u8>, pos: int| parse_instr(b, pos)
}

/// The instruction encoder as a value.
pub open spec fn instr_encoder() -> spec_fn(Instruction<Vid, Vid>) -> Seq<u8> {
    |i: Instruction<Vid, Vid>| enc_instr(i)
}

/// A counted instruction list: the count, then each instruction.
pub open spec fn enc_instrs(items: Seq<Instruction<Vid, Vid>>) -> Seq<u8> {
    enc_u64(items.len() as u64) + enc_list(items, instr_encoder())
}

/// Parses a counted instruction list at `pos`.
pub open spec fn parse_instrs(b: Seq<u8>, pos: int) -> Option<
    (Seq<Instruction<Vid, Vid>>, int),
> {
    match parse_u64(b, pos) {
        None => None,
        Some((n, p)) => parse_list(b, p, n as int, instr_parser()),
    }
}

/// Parsing an encoded counted instruction list gives it back.
pub proof fn lemma_parse_enc_instrs(b: Seq<u8>, pos: int, items: Seq<Instruction<Vid, Vid>>)
    requires
        0 <= pos,
        items.len() <= u64::MAX,
        pos + enc_instrs(items).len() <= b.len(),
        b.subrange(pos, pos + enc_instrs(items).len()) == enc_instrs(items),
    ensures
        parse_instrs(b, pos) == Some((items, pos + enc_instrs(items).len())),
{
    let total = enc_instrs(items);
    let cnt = enc_u64(items.len() as u64);
    let body = enc_list(items, instr_encoder());
    assert(total.subrange(0, 8) =~= cnt);
    lemma_slice(b, pos, total, 0, cnt);
    lemma_parse_enc_u64(b, pos, items.len() as u64);
    assert(total.subrange(8, total.len() as int) =~= body);
    lemma_slice(b, pos, total, 8, body);
    assert forall|b2: Seq<u8>, pos2: int, x: Instruction<Vid, Vid>|
        #![trigger instr_parser()(b2, pos2), instr_encoder()(x)]
        (0 <= pos2 && pos2 + instr_encoder()(x).len() <= b2.len() && b2.subrange(
            pos2,
            pos2 + instr_encoder()(x).len(),
        ) == instr_encoder()(x)) implies instr_parser()(b2, pos2) == Some(
        (x, pos2 + instr_encoder()(x).len()),
    ) by {
        lemma_parse_enc_instr(b2, pos2, x);
    }
    lemma_parse_enc_list(
        b,
        pos + 8,
        items,
        instr_encoder(),
        instr_parser(),
        |x: Instruction<Vid, Vid>| true,
    );
}

/// Appends a counted instruction list.
pub fn encode_instrs(out: &mut Vec<u8>, items: &Vec<Instruction<Vid, Vid>>)
    ensures
        final(out)@ == old(out)@ + enc_instrs(items@),
{
    encode_u64(out, items.len() as u64);
    let mut i: usize = 0;
    while i < items.len()
        invariant
            i <= items@.len(),
            out@ == old(out)@ + enc_u64(items@.len() as u64) + enc_list(
                items@.subrange(0, i as int),
                instr_encoder(),
            ),
        decreases items@.len() - i,
    {
        encode_instr(out, &items[i]);
        proof {
            lemma_enc_list_snoc(items@.subrange(0, i + 1), instr_encoder());
            assert(items@.subrange(0, i + 1).drop_last() =~= items@.subrange(0, i as int));
            assert(out@ =~= old(out)@ + enc_u64(items@.len() as u64) + enc_list(
                items@.subrange(0, i + 1),
                instr_encoder(),
            ));
        }
        i = i + 1;
    }
    proof {
        assert(items@.subrange(0, items@.len() as int) =~= items@);
        assert(out@ =~= old(out)@ + enc_instrs(items@));
    }
}

/// The encoding of a list ends with the encoding of its last item.
pub proof fn lemma_enc_list_snoc<T>(items: Seq<T>, e: spec_fn(T) -> Seq<u8>)
    requires
        items.len() > 0,
    ensures
        enc_list(items, e) == enc_list(items.drop_last(), e) + e(items.last()),
    decreases items.len(),
{
    if items.len() == 1 {
        assert(items.subrange(1, items.len() as int) =~= Seq::<T>::empty());
        assert(items.drop_last() =~= Seq::<T>::empty());
        assert(enc_list(items, e) =~= enc_list(items.drop_last(), e) + e(items.last()));
    } else {
        let rest = items.subrange(1, items.len() as int);
        lemma_enc_list_snoc(rest, e);
        assert(rest.drop_last() =~= items.drop_last().subrange(
            1,
            items.drop_last().len() as int,
        ));
        assert(rest.last() == items.last());
        assert(items.drop_last()[0] == items[0]);
        assert(enc_list(items, e) =~= enc_list(items.drop_last(), e) + e(items.last()));
    }
}

/// Reads a counted instruction list at `pos`.
pub fn decode_instrs(b: &Vec<u8>, pos: usize) -> (r: Option<
    (Vec<Instruction<Vid, Vid>>, usize),
>)
    ensures
        match r {
            Some((v, p)) => parse_instrs(b@, pos as int) == Some((v@, p as int)) && p
                <= b@.len(),
            None => parse_instrs(b@, pos as int) is None,
        },
{
    let (n, start) = match decode_u64(b, pos) {
        Some(x) => x,
        None => {
            return None;
        },
    };
    let mut items: Vec<Instruction<Vid, Vid>> = Vec::new();
    let mut cur: usize = start;
    let mut i: u64 = 0;
    proof {
        assert(join_parsed(
            items@,
            parse_list(b@, cur as int, n as int, instr_parser()),
        ) == parse_list(b@, start as int, n as int, instr_parser()));
    }
    while i < n
        invariant
            i <= n,
            items@.len() == i,
            cur <= b@.len(),
            parse_u64(b@, pos as int) == Some((n, start as int)),
            parse_list(b@, start as int, n as int, instr_parser()) == join_parsed(
                items@,
                parse_list(b@, cur as int, (n - i) as int, instr_parser()),
            ),
        decreases n - i,
    {
        match decode_instr(b, cur) {
            None => {
                proof {
                    assert(parse_list(b@, cur as int, (n - i) as int, instr_parser())
                        is None);
                }
                return None;
            },
            Some((v, q)) => {
                proof {
                    assert(parse_list(b@, cur as int, (n - i) as int, instr_parser())
                        == join_parsed(
                        seq![v],
                        parse_list(b@, q as int, (n - i - 1) as int, instr_parser()),
                    ));
                    lemma_join_push(
                        items@,
                        v,
                        parse_list(b@, q as int, (n - i - 1) as int, instr_parser()),
                    );
                }
                items.push(v);
                cur = q;
                i = i + 1;
            },
        }
    }
    proof {
        assert(items@ + Seq::<Instruction<Vid, Vid>>::empty() =~= items@);
    }
    Some((items, cur))
}

/// One slot assignment: peer then shard slot.
pub open spec fn enc_pair(x: (PeerId, Sid)) -> Seq<u8> {
    enc_u64(x.0.0) + enc_u64(x.1.0)
}

/// Parses one slot assignment at `pos`.
pub open spec fn parse_pair(b: Seq<u8>, pos: int) -> Option<((PeerId, Sid), int)> {
    match parse_u64(b, pos) {
        None => None,
        Some((p0, p1)) => match parse_u64(b, p1) {
            None => None,
            Some((s0, p2)) => Some(((PeerId(p0), Sid(s0)), p2)),
        },
    }
}

/// Parsing an encoded slot assignment gives it back.
pub proof fn lemma_parse_enc_pair(b: Seq<u8>, pos: int, x: (PeerId, Sid))
    requires
        0 <= pos,
        pos + 16 <= b.len(),
        b.subrange(pos, pos + 16) == enc_pair(x),
    ensures
        parse_pair(b, pos) == Some((x, pos + 16)),
{
    assert(enc_pair(x).subrange(0, 8) =~= enc_u64(x.0.0));
    lemma_slice(b, pos, enc_pair(x), 0, enc_u64(x.0.0));
    lemma_parse_enc_u64(b, pos, x.0.0);
    assert(enc_pair(x).subrange(8, 16) =~= enc_u64(x.1.0));
    lemma_slice(b, pos, enc_pair(x), 8, enc_u64(x.1.0));
    lemma_parse_enc_u64(b, pos + 8, x.1.0);
}

/// The slot-assignment parser as a value.
pub open spec fn pair_parser() -> spec_fn(Seq<u8>, int) -> Option<((PeerId, Sid), int)> {
    |b: Seq<u8>, pos: int| parse_pair(b, pos)
}

/// The slot-assignment encoder as a value.
pub open spec fn pair_encoder() -> spec_fn((PeerId, Sid)) -> Seq<u8> {
    |x: (PeerId, Sid)| enc_pair(x)
}

/// A counted slot-assignment list.
pub open spec fn enc_pairs(items: Seq<(PeerId, Sid)>) -> Seq<u8> {
    enc_u64(items.len() as u64) + enc_list(items, pair_encoder())
}

/// Parses a counted slot-assignment list at `pos`.
pub open spec fn parse_pairs(b: Seq<u8>, pos: int) -> Option<(Seq<(PeerId, Sid)>, int)> {
    match parse_u64(b, pos) {
        None => None,
        Some((n, p)) => parse_list(b, p, n as int, pair_parser()),
    }
}

/// Parsing an encoded counted slot-assignment list gives it back.
pub proof fn lemma_parse_enc_pairs(b: Seq<u8>, pos: int, items: Seq<(PeerId, Sid)>)
    requires
        0 <= pos,
        items.len() <= u64::MAX,
        pos + enc_pairs(items).len() <= b.len(),
        b.subrange(pos, pos + enc_pairs(items).len()) == enc_pairs(items),
    ensures
        parse_pairs(b, pos) == Some((items, pos + enc_pairs(items).len())),
{
    let total = enc_pairs(items);
    let cnt = enc_u64(items.len() as u64);
    let body = enc_list(items, pair_encoder());
    assert(total.subrange(0, 8) =~= cnt);
    lemma_slice(b, pos, total, 0, cnt);
    lemma_parse_enc_u64(b, pos, items.len() as u64);
    assert(total.subrange(8, total.len() as int) =~= body);
    lemma_slice(b, pos, total, 8, body);
    assert forall|b2: Seq<u8>, pos2: int, x: (PeerId, Sid)|
        #![trigger pair_parser()(b2, pos2), pair_encoder()(x)]
        (0 <= pos2 && pos2 + pair_encoder()(x).len() <= b2.len() && b2.subrange(
            pos2,
            pos2 + pair_encoder()(x).len(),
        ) == pair_encoder()(x)) implies pair_parser()(b2, pos2) == Some(
        (x, pos2 + pair_encoder()(x).len()),
    ) by {
        lemma_parse_enc_pair(b2, pos2, x);
    }
    lemma_parse_enc_list(b, pos + 8, items, pair_encoder(), pair_parser(), |x: (PeerId, Sid)| true);
}

/// Appends a counted slot-assignment list.
pub fn encode_pairs(out: &mut Vec<u8>, items: &Vec<(PeerId, Sid)>)
    ensures
        final(out)@ == old(out)@ + enc_pairs(items@),
{
    encode_u64(out, items.len() as u64);
    let mut i: usize = 0;
    while i < items.len()
        invariant
            i <= items@.len(),
            out@ == old(out)@ + enc_u64(items@.len() as u64) + enc_list(
                items@.subrange(0, i as int),
                pair_encoder(),
            ),
        decreases items@.len() - i,
    {
        let x = items[i];
        encode_u64(out, x.0.0);
        encode_u64(out, x.1.0);
        proof {
            lemma_enc_list_snoc(items@.subrange(0, i + 1), pair_encoder());
            assert(items@.subrange(0, i + 1).drop_last() =~= items@.subrange(0, i as int));
            assert(out@ =~= old(out)@ + enc_u64(items@.len() as u64) + enc_list(
                items@.subrange(0, i + 1),
                pair_encoder(),
            ));
        }
        i = i + 1;
    }
    proof {
        assert(items@.subrange(0, items@.len() as int) =~= items@);
        assert(out@ =~= old(out)@ + enc_pairs(items@));
    }
}

/// Reads a counted slot-assignment list at `pos`.
pub fn decode_pairs(b: &Vec<u8>, pos: usize) -> (r: Option<(Vec<(PeerId, Sid)>, usize)>)
    ensures
        match r {
            Some((v, p)) => parse_pairs(b@, pos as int) == Some((v@, p as int)) && p
                <= b@.len(),
            None => parse_pairs(b@, pos as int) is None,
        },
{
    let (n, start) = match decode_u64(b, pos) {
        Some(x) => x,
        None => {
            return None;
        },
    };
    let mut items: Vec<(PeerId, Sid)> = Vec::new();
    let mut cur: usize = start;
    let mut i: u64 = 0;
    proof {
        assert(join_parsed(
            items@,
            parse_list(b@, cur as int, n as int, pair_parser()),
        ) == parse_list(b@, start as int, n as int, pair_parser()));
    }
    while i < n
        invariant
            i <= n,
            items@.len() == i,
            cur <= b@.len(),
            parse_u64(b@, pos as int) == Some((n, start as int)),
            parse_list(b@, start as int, n as int, pair_parser()) == join_parsed(
                items@,
                parse_list(b@, cur as int, (n - i) as int, pair_parser()),
            ),
        decreases n - i,
    {
        let (p0, p1) = match decode_u64(b, cur) {
            Some(x) => x,
            None => {
                return None;
            },
        };
        let (s0, p2) = match decode_u64(b, p1) {
            Some(x) => x,
            None => {
                return None;
            },
        };
        let v = (PeerId(p0), Sid(s0));
        proof {
            assert(parse_pair(b@, cur as int) == Some((v, p2 as int)));
            assert(parse_list(b@, cur as int, (n - i) as int, pair_parser()) == join_parsed(
                seq![v],
                parse_list(b@, p2 as int, (n - i - 1) as int, pair_parser()),
            ));
            lemma_join_push(
                items@,
                v,
                parse_list(b@, p2 as int, (n - i - 1) as int, pair_parser()),
            );
        }
        items.push(v);
        cur = p2;
        i = i + 1;
    }
    proof {
        assert(items@ + Seq::<(PeerId, Sid)>::empty() =~= items@);
    }
    Some((items, cur))
}

/// Counts inside a transaction fit the wire format.
pub open spec fn tx_wf(t: TransactionModel) -> bool {
    match t {
        TransactionModel::Execute(instrs) => instrs.len() <= u64::MAX,
        TransactionModel::InitializeStorage { distribution } => distribution.len()
            <= u64::MAX,
        _ => true,
    }
}

/// One transaction: a variant tag, then its fields.
pub open spec fn enc_tx(t: TransactionModel) -> Seq<u8> {
    match t {
        TransactionModel::StorageRequest { address } => seq![1u8] + enc_u64(address.0),
        TransactionModel::Stored(v, sid) => seq![2u8] + enc_u64(v.0) + enc_u64(sid.0),
        TransactionModel::Execute(instrs) => seq![3u8] + enc_instrs(instrs),
        TransactionModel::Executed(pid) => seq![4u8] + enc_hash(pid.0),
        TransactionModel::InitializeStorage { distribution } => seq![5u8] + enc_pairs(
            distribution,
        ),
    }
}

/// Parses one transaction at `pos`.
pub open spec fn parse_tx(b: Seq<u8>, pos: int) -> Option<(TransactionModel, int)> {
    if 0 <= pos && pos < b.len() {
        let tag = b[pos];
        if tag == 1u8 {
            match parse_u64(b, pos + 1) {
                None => None,
                Some((a, p)) => Some(
                    (TransactionModel::StorageRequest { address: Vid(a) }, p),
                ),
            }
        } else if tag == 2u8 {
            match parse_u64(b, pos + 1) {
                None => None,
                Some((v, p1)) => match parse_u64(b, p1) {
                    None => None,
                    Some((sid, p2)) => Some(
                        (TransactionModel::Stored(Vid(v), Sid(sid)), p2),
                    ),
                },
            }
        } else if tag == 3u8 {
            match parse_instrs(b, pos + 1) {
                None => None,
                Some((instrs, p)) => Some((TransactionModel::Execute(instrs), p)),
            }
        } else if tag == 4u8 {
            match parse_hash(b, pos + 1) {
                None => None,
                Some((h, p)) => Some(
                    (TransactionModel::Executed(ProgramIdentifier(h)), p),
                ),
            }
        } else if tag == 5u8 {
            match parse_pairs(b, pos + 1) {
                None => None,
                Some((d, p)) => Some(
                    (TransactionModel::InitializeStorage { distribution: d }, p),
                ),
            }
        } else {
            None
        }
    } else {
        None
    }
}

/// Parsing an encoded transaction gives it back.
pub proof fn lemma_parse_enc_tx(b: Seq<u8>, pos: int, t: TransactionModel)
    requires
        0 <= pos,
        tx_wf(t),
        pos + enc_tx(t).len() <= b.len(),
        b.subrange(pos, pos + enc_tx(t).len()) == enc_tx(t),
    ensures
        parse_tx(b, pos) == Some((t, pos + enc_tx(t).len())),
{
    let total = enc_tx(t);
    assert(b[pos] == total[0]) by {
        assert(b.subrange(pos, pos + total.len())[0] == total[0]);
    }
    match t {
        TransactionModel::StorageRequest { address } => {
            assert(total.subrange(1, 9) =~= enc_u64(address.0));
            lemma_slice(b, pos, total, 1, enc_u64(address.0));
            lemma_parse_enc_u64(b, pos + 1, address.0);
        },
        TransactionModel::Stored(v, sid) => {
            assert(total.subrange(1, 9) =~= enc_u64(v.0));
            lemma_slice(b, pos, total, 1, enc_u64(v.0));
            lemma_parse_enc_u64(b, pos + 1, v.0);
            assert(total.subrange(9, 17) =~= enc_u64(sid.0));
            lemma_slice(b, pos, total, 9, enc_u64(sid.0));
            lemma_parse_enc_u64(b, pos + 9, sid.0);
        },
        TransactionModel::Execute(instrs) => {
            assert(total.subrange(1, total.len() as int) =~= enc_instrs(instrs));
            lemma_slice(b, pos, total, 1, enc_instrs(instrs));
            lemma_parse_enc_instrs(b, pos + 1, instrs);
        },
        TransactionModel::Executed(pid) => {
            assert(total.subrange(1, 17) =~= enc_hash(pid.0));
            lemma_slice(b, pos, total, 1, enc_hash(pid.0));
            lemma_parse_enc_hash(b, pos + 1, pid.0);
        },
        TransactionModel::InitializeStorage { distribution } => {
            assert(total.subrange(1, total.len() as int) =~= enc_pairs(distribution));
            lemma_slice(b, pos, total, 1, enc_pairs(distribution));
            lemma_parse_enc_pairs(b, pos + 1, distribution);
        },
    }
}

/// Appends one transaction.
pub fn encode_tx(out: &mut Vec<u8>, t: &Transaction)
    ensures
        final(out)@ == old(out)@ + enc_tx(t@),
{
    match t {
        Transaction::StorageRequest { address } => {
            out.push(1u8);
            encode_u64(out, address.0);
        },
        Transaction::Stored(v, sid) => {
            out.push(2u8);
            encode_u64(out, v.0);
            encode_u64(out, sid.0);
        },
        Transaction::Execute(instrs) => {
            out.push(3u8);
            encode_instrs(out, instrs);
        },
        Transaction::Executed(pid) => {
            out.push(4u8);
            encode_hash(out, &pid.0);
        },
        Transaction::InitializeStorage { distribution } => {
            out.push(5u8);
            encode_pairs(out, distribution);
        },
    }
    proof {
        assert(out@ =~= old(out)@ + enc_tx(t@));
    }
}

/// Reads one transaction at `pos`.
pub fn decode_tx(b: &Vec<u8>, pos: usize) -> (r: Option<(Transaction, usize)>)
    ensures
        match r {
            Some((t, p)) => parse_tx(b@, pos as int) == Some((t@, p as int)) && p
                <= b@.len(),
            None => parse_tx(b@, pos as int) is None,
        },
{
    if pos >= b.len() {
        return None;
    }
    let tag = b[pos];
    if tag == 1 {
        match decode_u64(b, pos + 1) {
            Some((a, p)) => Some((Transaction::StorageRequest { address: Vid(a) }, p)),
            None => None,
        }
    } else if tag == 2 {
        let (v, p1) = match decode_u64(b, pos + 1) {
            Some(x) => x,
            None => {
                return None;
            },
        };
        match decode_u64(b, p1) {
            Some((sid, p2)) => Some((Transaction::Stored(Vid(v), Sid(sid)), p2)),
            None => None,
        }
    } else if tag == 3 {
        match decode_instrs(b, pos + 1) {
            Some((instrs, p)) => Some((Transaction::Execute(instrs), p)),
            None => None,
        }
    } else if tag == 4 {
        match decode_hash(b, pos + 1) {
            Some((h, p)) => Some((Transaction::Executed(ProgramIdentifier(h)), p)),
            None => None,
        }
    } else if tag == 5 {
        match decode_pairs(b, pos + 1) {
            Some((d, p)) => Some((Transaction::InitializeStorage { distribution: d }, p)),
            None => None,
        }
    } else {
        None
    }
}

/// The transaction parser as a value.
pub open spec fn tx_parser() -> spec_fn(Seq<u8>, int) -> Option<(TransactionModel, int)> {
    |b: Seq<u8>, pos: int| parse_tx(b, pos)
}

/// The transaction encoder as a value.
pub open spec fn tx_encoder() -> spec_fn(TransactionModel) -> Seq<u8> {
    |t: TransactionModel| enc_tx(t)
}

/// A counted transaction list.
pub open spec fn enc_txs(items: Seq<TransactionModel>) -> Seq<u8> {
    enc_u64(items.len() as u64) + enc_list(items, tx_encoder())
}

/// Parses a counted transaction list at `pos`.
pub open spec fn parse_txs(b: Seq<u8>, pos: int) -> Option<(Seq<TransactionModel>, int)> {
    match parse_u64(b, pos) {
        None => None,
        Some((n, p)) => parse_list(b, p, n as int, tx_parser()),
    }
}

/// Parsing an encoded counted transaction list gives it back.
pub proof fn lemma_parse_enc_txs(b: Seq<u8>, pos: int, items: Seq<TransactionModel>)
    requires
        0 <= pos,
        items.len() <= u64::MAX,
        forall|i: int| 0 <= i < items.len() ==> tx_wf(#[trigger] items[i]),
        pos + enc_txs(items).len() <= b.len(),
        b.subrange(pos, pos + enc_txs(items).len()) == enc_txs(items),
    ensures
        parse_txs(b, pos) == Some((items, pos + enc_txs(items).len())),
{
    let total = enc_txs(items);
    let cnt = enc_u64(items.len() as u64);
    let body = enc_list(items, tx_encoder());
    assert(total.subrange(0, 8) =~= cnt);
    lemma_slice(b, pos, total, 0, cnt);
    lemma_parse_enc_u64(b, pos, items.len() as u64);
    assert(total.subrange(8, total.len() as int) =~= body);
    lemma_slice(b, pos, total, 8, body);
    assert forall|b2: Seq<u8>, pos2: int, x: TransactionModel|
        #![trigger tx_parser()(b2, pos2), tx_encoder()(x)]
        (tx_wf(x) && 0 <= pos2 && pos2 + tx_encoder()(x).len() <= b2.len() && b2.subrange(
            pos2,
            pos2 + tx_encoder()(x).len(),
        ) == tx_encoder()(x)) implies tx_parser()(b2, pos2) == Some(
        (x, pos2 + tx_encoder()(x).len()),
    ) by {
        lemma_parse_enc_tx(b2, pos2, x);
    }
    lemma_parse_enc_list(
        b,
        pos + 8,
        items,
        tx_encoder(),
        tx_parser(),
        |x: TransactionModel| tx_wf(x),
    );
}

/// Appends a counted transaction list.
pub fn encode_txs(out: &mut Vec<u8>, items: &Vec<Transaction>)
    ensures
        final(out)@ == old(out)@ + enc_txs(txs_model(items@)),
{
    let ghost m = txs_model(items@);
    encode_u64(out, items.len() as u64);
    let mut i: usize = 0;
    while i < items.len()
        invariant
            i <= items@.len(),
            m == txs_model(items@),
            m.len() == items@.len(),
            out@ == old(out)@ + enc_u64(items@.len() as u64) + enc_list(
                m.subrange(0, i as int),
                tx_encoder(),
            ),
        decreases items@.len() - i,
    {
        encode_tx(out, &items[i]);
        proof {
            assert(m[i as int] == items@[i as int]@);
            lemma_enc_list_snoc(m.subrange(0, i + 1), tx_encoder());
            assert(m.subrange(0, i + 1).drop_last() =~= m.subrange(0, i as int));
            assert(out@ =~= old(out)@ + enc_u64(items@.len() as u64) + enc_list(
                m.subrange(0, i + 1),
                tx_encoder(),
            ));
        }
        i = i + 1;
    }
    proof {
        assert(m.subrange(0, m.len() as int) =~= m);
        assert(out@ =~= old(out)@ + enc_txs(m));
    }
}

/// Reads a counted transaction list at `pos`.
pub fn decode_txs(b: &Vec<u8>, pos: usize) -> (r: Option<(Vec<Transaction>, usize)>)
    ensures
        match r {
            Some((v, p)) => parse_txs(b@, pos as int) == Some((txs_model(v@), p as int))
                && p <= b@.len(),
            None => parse_txs(b@, pos as int) is None,
        },
{
    let (n, start) = match decode_u64(b, pos) {
        Some(x) => x,
        None => {
            return None;
        },
    };
    let mut items: Vec<Transaction> = Vec::new();
    let mut cur: usize = start;
    let mut i: u64 = 0;
    proof {
        assert(txs_model(items@) =~= Seq::<TransactionModel>::empty());
        assert(join_parsed(
            txs_model(items@),
            parse_list(b@, cur as int, n as int, tx_parser()),
        ) == parse_list(b@, start as int, n as int, tx_parser()));
    }
    while i < n
        invariant
            i <= n,
            txs_model(items@).len() == i,
            items@.len() == i,
            cur <= b@.len(),
            parse_u64(b@, pos as int) == Some((n, start as int)),
            parse_list(b@, start as int, n as int, tx_parser()) == join_parsed(
                txs_model(items@),
                parse_list(b@, cur as int, (n - i) as int, tx_parser()),
            ),
        decreases n - i,
    {
        match decode_tx(b, cur) {
            None => {
                return None;
            },
            Some((v, q)) => {
                proof {
                    assert(parse_list(b@, cur as int, (n - i) as int, tx_parser())
                        == join_parsed(
                        seq![v@],
                        parse_list(b@, q as int, (n - i - 1) as int, tx_parser()),
                    ));
                    lemma_join_push(
                        txs_model(items@),
                        v@,
                        parse_list(b@, q as int, (n - i - 1) as int, tx_parser()),
                    );
                }
                let ghost prev = items@;
                items.push(v);
                proof {
                    assert(txs_model(items@) =~= txs_model(prev).push(v@));
                }
                cur = q;
                i = i + 1;
            },
        }
    }
    proof {
        assert(txs_model(items@) + Seq::<TransactionModel>::empty() =~= txs_model(items@));
    }
    Some((items, cur))
}

/// Counts inside an event fit the wire format.
pub open spec fn event_wf(e: EventModel) -> bool {
    &&& e.payload.len() <= u64::MAX
    &&& forall|i: int| 0 <= i < e.payload.len() ==> tx_wf(#[trigger] e.payload[i])
}

/// One event: author, chain position, both parents, then the payload.
pub open spec fn enc_event(e: EventModel) -> Seq<u8> {
    enc_u64(e.author.0) + enc_u64(e.seq) + enc_opt_hash(e.self_parent) + enc_opt_hash(
        e.other_parent,
    ) + enc_txs(e.payload)
}

/// Parses one event at `pos`.
pub open spec fn parse_event(b: Seq<u8>, pos: int) -> Option<(EventModel, int)> {
    match parse_u64(b, pos) {
        None => None,
        Some((author, p1)) => match parse_u64(b, p1) {
            None => None,
            Some((seqno, p2)) => match parse_opt_hash(b, p2) {
                None => None,
                Some((sp, p3)) => match parse_opt_hash(b, p3) {
                    None => None,
                    Some((op, p4)) => match parse_txs(b, p4) {
                        None => None,
                        Some((payload, p5)) => Some(
                            (
                                EventModel {
                                    author: PeerId(author),
                                    seq: seqno,
                                    self_parent: sp,
                                    other_parent: op,
                                    payload,
                                },
                                p5,
                            ),
                        ),
                    },
                },
            },
        },
    }
}

/// Parsing an encoded event gives it back.
#[verifier::rlimit(60)]
pub proof fn lemma_parse_enc_event(b: Seq<u8>, pos: int, e: EventModel)
    requires
        0 <= pos,
        event_wf(e),
        pos + enc_event(e).len() <= b.len(),
        b.subrange(pos, pos + enc_event(e).len()) == enc_event(e),
    ensures
        parse_event(b, pos) == Some((e, pos + enc_event(e).len())),
{
    let total = enc_event(e);
    let a = enc_u64(e.author.0);
    let sq = enc_u64(e.seq);
    let sp = enc_opt_hash(e.self_parent);
    let op = enc_opt_hash(e.other_parent);
    let pl = enc_txs(e.payload);
    let o1 = 8int;
    let o2 = 16int;
    let o3 = o2 + sp.len() as int;
    let o4 = o3 + op.len() as int;
    assert(total.subrange(0, o1) =~= a);
    lemma_slice(b, pos, total, 0, a);
    lemma_parse_enc_u64(b, pos, e.author.0);
    assert(total.subrange(o1, o2) =~= sq);
    lemma_slice(b, pos, total, o1, sq);
    lemma_parse_enc_u64(b, pos + o1, e.seq);
    assert(total.subrange(o2, o3) =~= sp);
    lemma_slice(b, pos, total, o2, sp);
    lemma_parse_enc_opt_hash(b, pos + o2, e.self_parent);
    assert(total.subrange(o3, o4) =~= op);
    lemma_slice(b, pos, total, o3, op);
    lemma_parse_enc_opt_hash(b, pos + o3, e.other_parent);
    assert(total.subrange(o4, total.len() as int) =~= pl);
    lemma_slice(b, pos, total, o4, pl);
    lemma_parse_enc_txs(b, pos + o4, e.payload);
}

/// Appends one event.
pub fn encode_event(out: &mut Vec<u8>, e: &Event)
    ensures
        final(out)@ == old(out)@ + enc_event(e@),
{
    encode_u64(out, e.author.0);
    encode_u64(out, e.seq);
    encode_opt_hash(out, &e.self_parent);
    encode_opt_hash(out, &e.other_parent);
    encode_txs(out, &e.payload);
    proof {
        assert(out@ =~= old(out)@ + enc_event(e@));
    }
}

/// Reads one event at `pos`.
pub fn decode_event(b: &Vec<u8>, pos: usize) -> (r: Option<(Event, usize)>)
    ensures
        match r {
            Some((e, p)) => parse_event(b@, pos as int) == Some((e@, p as int)) && p
                <= b@.len(),
            None => parse_event(b@, pos as int) is None,
        },
{
    let (author, p1) = match decode_u64(b, pos) {
        Some(x) => x,
        None => {
            return None;
        },
    };
    let (seqno, p2) = match decode_u64(b, p1) {
        Some(x) => x,
        None => {
            return None;
        },
    };
    let (sp, p3) = match decode_opt_hash(b, p2) {
        Some(x) => x,
        None => {
            return None;
        },
    };
    let (op, p4) = match decode_opt_hash(b, p3) {
        Some(x) => x,
        None => {
            return None;
        },
    };
    let (payload, p5) = match decode_txs(b, p4) {
        Some(x) => x,
        None => {
            return None;
        },
    };
    let e = Event {
        author: PeerId(author),
        seq: seqno,
        self_parent: sp,
        other_parent: op,
        payload,
    };
    Some((e, p5))
}

/// The event parser as a value.
pub open spec fn event_parser() -> spec_fn(Seq<u8>, int) -> Option<(EventModel, int)> {
    |b: Seq<u8>, pos: int| parse_event(b, pos)
}

/// The event encoder as a value.
pub open spec fn event_encoder() -> spec_fn(EventModel) -> Seq<u8> {
    |e: EventModel| enc_event(e)
}

/// A counted event list: a sync batch on the wire.
pub open spec fn enc_events(items: Seq<EventModel>) -> Seq<u8> {
    enc_u64(items.len() as u64) + enc_list(items, event_encoder())
}

/// Parses a counted event list at `pos`.
pub open spec fn parse_events(b: Seq<u8>, pos: int) -> Option<(Seq<EventModel>, int)> {
    match parse_u64(b, pos) {
        None => None,
        Some((n, p)) => parse_list(b, p, n as int, event_parser()),
    }
}

/// Parsing an encoded counted event list gives it back.
pub proof fn lemma_parse_enc_events(b: Seq<u8>, pos: int, items: Seq<EventModel>)
    requires
        0 <= pos,
        items.len() <= u64::MAX,
        forall|i: int| 0 <= i < items.len() ==> event_wf(#[trigger] items[i]),
        pos + enc_events(items).len() <= b.len(),
        b.subrange(pos, pos + enc_events(items).len()) == enc_events(items),
    ensures
        parse_events(b, pos) == Some((items, pos + enc_events(items).len())),
{
    let total = enc_events(items);
    let cnt = enc_u64(items.len() as u64);
    let body = enc_list(items, event_encoder());
    assert(total.subrange(0, 8) =~= cnt);
    lemma_slice(b, pos, total, 0, cnt);
    lemma_parse_enc_u64(b, pos, items.len() as u64);
    assert(total.subrange(8, total.len() as int) =~= body);
    lemma_slice(b, pos, total, 8, body);
    assert forall|b2: Seq<u8>, pos2: int, x: EventModel|
        #![trigger event_parser()(b2, pos2), event_encoder()(x)]
        (event_wf(x) && 0 <= pos2 && pos2 + event_encoder()(x).len() <= b2.len()
            && b2.subrange(pos2, pos2 + event_encoder()(x).len()) == event_encoder()(
            x,
        )) implies event_parser()(b2, pos2) == Some(
        (x, pos2 + event_encoder()(x).len()),
    ) by {
        lemma_parse_enc_event(b2, pos2, x);
    }
    lemma_parse_enc_list(
        b,
        pos + 8,
        items,
        event_encoder(),
        event_parser(),
        |x: EventModel| event_wf(x),
    );
}

/// Appends a counted event list.
pub fn encode_events(out: &mut Vec<u8>, items: &Vec<Event>)
    ensures
        final(out)@ == old(out)@ + enc_events(events_model(items@)),
{
    let ghost m = events_model(items@);
    encode_u64(out, items.len() as u64);
    let mut i: usize = 0;
    while i < items.len()
        invariant
            i <= items@.len(),
            m == events_model(items@),
            m.len() == items@.len(),
            out@ == old(out)@ + enc_u64(items@.len() as u64) + enc_list(
                m.subrange(0, i as int),
                event_encoder(),
            ),
        decreases items@.len() - i,
    {
        encode_event(out, &items[i]);
        proof {
            assert(m[i as int] == items@[i as int]@);
            lemma_enc_list_snoc(m.subrange(0, i + 1), event_encoder());
            assert(m.subrange(0, i + 1).drop_last() =~= m.subrange(0, i as int));
            assert(out@ =~= old(out)@ + enc_u64(items@.len() as u64) + enc_list(
                m.subrange(0, i + 1),
                event_encoder(),
            ));
        }
        i = i + 1;
    }
    proof {
        assert(m.subrange(0, m.len() as int) =~= m);
        assert(out@ =~= old(out)@ + enc_events(m));
    }
}

/// Reads a counted event list at `pos`.
pub fn decode_events(b: &Vec<u8>, pos: usize) -> (r: Option<(Vec<Event>, usize)>)
    ensures
        match r {
            Some((v, p)) => parse_events(b@, pos as int) == Some(
                (events_model(v@), p as int),
            ) && p <= b@.len(),
            None => parse_events(b@, pos as int) is None,
        },
{
    let (n, start) = match decode_u64(b, pos) {
        Some(x) => x,
        None => {
            return None;
        },
    };
    let mut items: Vec<Event> = Vec::new();
    let mut cur: usize = start;
    let mut i: u64 = 0;
    proof {
        assert(events_model(items@) =~= Seq::<EventModel>::empty());
        assert(join_parsed(
            events_model(items@),
            parse_list(b@, cur as int, n as int, event_parser()),
        ) == parse_list(b@, start as int, n as int, event_parser()));
    }
    while i < n
        invariant
            i <= n,
            events_model(items@).len() == i,
            items@.len() == i,
            cur <= b@.len(),
            parse_u64(b@, pos as int) == Some((n, start as int)),
            parse_list(b@, start as int, n as int, event_parser()) == join_parsed(
                events_model(items@),
                parse_list(b@, cur as int, (n - i) as int, event_parser()),
            ),
        decreases n - i,
    {
        match decode_event(b, cur) {
            None => {
                return None;
            },
            Some((v, q)) => {
                proof {
                    assert(parse_list(b@, cur as int, (n - i) as int, event_parser())
                        == join_parsed(
                        seq![v@],
                        parse_list(b@, q as int, (n - i - 1) as int, event_parser()),
                    ));
                    lemma_join_push(
                        events_model(items@),
                        v@,
                        parse_list(b@, q as int, (n - i - 1) as int, event_parser()),
                    );
                }
                let ghost prev = items@;
                items.push(v);
                proof {
                    assert(events_model(items@) =~= events_model(prev).push(v@));
                }
                cur = q;
                i = i + 1;
            },
        }
    }
    proof {
        assert(events_model(items@) + Seq::<EventModel>::empty() =~= events_model(items@));
    }
    Some((items, cur))
}

/// One wire request: a variant tag and the shard address.
pub open spec fn enc_request(r: Request) -> Seq<u8> {
    match r {
        Request::GetShard((v, sid)) => seq![1u8] + enc_u64(v.0) + enc_u64(sid.0),
        Request::ServeShard((v, sid)) => seq![2u8] + enc_u64(v.0) + enc_u64(sid.0),
    }
}

/// Parses one wire request at `pos`.
pub open spec fn parse_request(b: Seq<u8>, pos: int) -> Option<(Request, int)> {
    if 0 <= pos && pos < b.len() {
        let tag = b[pos];
        if tag == 1u8 || tag == 2u8 {
            match parse_u64(b, pos + 1) {
                None => None,
                Some((v, p1)) => match parse_u64(b, p1) {
                    None => None,
                    Some((sid, p2)) => Some(
                        (
                            if tag == 1u8 {
                                Request::GetShard((Vid(v), Sid(sid)))
                            } else {
                                Request::ServeShard((Vid(v), Sid(sid)))
                            },
                            p2,
                        ),
                    ),
                },
            }
        } else {
            None
        }
    } else {
        None
    }
}

/// Parsing an encoded request gives it back.
pub proof fn lemma_parse_enc_request(b: Seq<u8>, pos: int, r: Request)
    requires
        0 <= pos,
        pos + enc_request(r).len() <= b.len(),
        b.subrange(pos, pos + enc_request(r).len()) == enc_request(r),
    ensures
        parse_request(b, pos) == Some((r, pos + enc_request(r).len())),
{
    let total = enc_request(r);
    assert(b[pos] == total[0]) by {
        assert(b.subrange(pos, pos + total.len())[0] == total[0]);
    }
    match r {
        Request::GetShard((v, sid)) => {
            assert(total.subrange(1, 9) =~= enc_u64(v.0));
            lemma_slice(b, pos, total, 1, enc_u64(v.0));
            lemma_parse_enc_u64(b, pos + 1, v.0);
            assert(total.subrange(9, 17) =~= enc_u64(sid.0));
            lemma_slice(b, pos, total, 9, enc_u64(sid.0));
            lemma_parse_enc_u64(b, pos + 9, sid.0);
        },
        Request::ServeShard((v, sid)) => {
            assert(total.subrange(1, 9) =~= enc_u64(v.0));
            lemma_slice(b, pos, total, 1, enc_u64(v.0));
            lemma_parse_enc_u64(b, pos + 1, v.0);
            assert(total.subrange(9, 17) =~= enc_u64(sid.0));
            lemma_slice(b, pos, total, 9, enc_u64(sid.0));
            lemma_parse_enc_u64(b, pos + 9, sid.0);
        },
    }
}

/// A wire response as a mathematical value.
pub enum ResponseModel {
    GetShard(Option<Seq<u8>>),
    ServeShard(Seq<u8>),
}

impl View for Response {
    type V = ResponseModel;

    open spec fn view(&self) -> ResponseModel {
        match self {
            Response::GetShard(o) => ResponseModel::GetShard(
                match o {
                    Some(s) => Some(s@),
                    None => None,
                },
            ),
            Response::ServeShard(s) => ResponseModel::ServeShard(s@),
        }
    }
}

/// The shard bytes of a response fit the wire format.
pub open spec fn response_wf(r: ResponseModel) -> bool {
    match r {
        ResponseModel::GetShard(Some(s)) => s.len() <= u64::MAX,
        ResponseModel::GetShard(None) => true,
        ResponseModel::ServeShard(s) => s.len() <= u64::MAX,
    }
}

/// One wire response: a variant tag, a presence byte for the optional
/// shard, then the shard bytes.
pub open spec fn enc_response(r: ResponseModel) -> Seq<u8> {
    match r {
        ResponseModel::GetShard(None) => seq![1u8, 0u8],
        ResponseModel::GetShard(Some(s)) => seq![1u8, 1u8] + enc_bytes(s),
        ResponseModel::ServeShard(s) => seq![2u8] + enc_bytes(s),
    }
}

/// Parses one wire response at `pos`.
pub open spec fn parse_response(b: Seq<u8>, pos: int) -> Option<(ResponseModel, int)> {
    if 0 <= pos && pos < b.len() {
        let tag = b[pos];
        if tag == 1u8 {
            if pos + 1 < b.len() {
                if b[pos + 1] == 0u8 {
                    Some((ResponseModel::GetShard(None), pos + 2))
                } else if b[pos + 1] == 1u8 {
                    match parse_bytes(b, pos + 2) {
                        None => None,
                        Some((s, p)) => Some((ResponseModel::GetShard(Some(s)), p)),
                    }
                } else {
                    None
                }
            } else {
                None
            }
        } else if tag == 2u8 {
            match parse_bytes(b, pos + 1) {
                None => None,
                Some((s, p)) => Some((ResponseModel::ServeShard(s), p)),
            }
        } else {
            None
        }
    } else {
        None
    }
}

/// Parsing an encoded response gives it back.
pub proof fn lemma_parse_enc_response(b: Seq<u8>, pos: int, r: ResponseModel)
    requires
        0 <= pos,
        response_wf(r),
        pos + enc_response(r).len() <= b.len(),
        b.subrange(pos, pos + enc_response(r).len()) == enc_response(r),
    ensures
        parse_response(b, pos) == Some((r, pos + enc_response(r).len())),
{
    let total = enc_response(r);
    assert(b[pos] == total[0]) by {
        assert(b.subrange(pos, pos + total.len())[0] == total[0]);
    }
    match r {
        ResponseModel::GetShard(None) => {
            assert(b[pos + 1] == total[1]) by {
                assert(b.subrange(pos, pos + total.len())[1] == total[1]);
            }
        },
        ResponseModel::GetShard(Some(s)) => {
            assert(b[pos + 1] == total[1]) by {
                assert(b.subrange(pos, pos + total.len())[1] == total[1]);
            }
            assert(total.subrange(2, total.len() as int) =~= enc_bytes(s));
            lemma_slice(b, pos, total, 2, enc_bytes(s));
            lemma_parse_enc_bytes(b, pos + 2, s);
        },
        ResponseModel::ServeShard(s) => {
            assert(total.subrange(1, total.len() as int) =~= enc_bytes(s));
            lemma_slice(b, pos, total, 1, enc_bytes(s));
            lemma_parse_enc_bytes(b, pos + 1, s);
        },
    }
}

/// A full wire message.
#[derive(Debug, Clone, PartialEq, Eq)]
pub enum WireMessage {
    /// A one-shot message.
    Simple(SimpleMessage),
    /// A request awaiting an answer.
    Request(Request),
    /// The answer to a request.
    Response(Response),
}

/// A wire message as a mathematical value.
pub enum WireMessageModel {
    Simple(Seq<EventModel>),
    Request(Request),
    Response(ResponseModel),
}

impl View for SimpleMessage {
    type V = Seq<EventModel>;

    open spec fn view(&self) -> Seq<EventModel> {
        match self {
            SimpleMessage::GossipGraph(sync) => sync@,
        }
    }
}

impl View for WireMessage {
    type V = WireMessageModel;

    open spec fn view(&self) -> WireMessageModel {
        match self {
            WireMessage::Simple(m) => WireMessageModel::Simple(m@),
            WireMessage::Request(r) => WireMessageModel::Request(*r),
            WireMessage::Response(r) => WireMessageModel::Response(r@),
        }
    }
}

/// Counts inside a wire message fit the wire format.
pub open spec fn message_wf(m: WireMessageModel) -> bool {
    match m {
        WireMessageModel::Simple(events) => events.len() <= u64::MAX && (forall|i: int|
            0 <= i < events.len() ==> event_wf(#[trigger] events[i])),
        WireMessageModel::Request(_) => true,
        WireMessageModel::Response(r) => response_wf(r),
    }
}

/// One wire message: the protocol-version token, a family tag, then the
/// body.
pub open spec fn enc_message(m: WireMessageModel) -> Seq<u8> {
    match m {
        WireMessageModel::Simple(events) => seq![WIRE_VERSION, 1u8] + enc_events(events),
        WireMessageModel::Request(r) => seq![WIRE_VERSION, 2u8] + enc_request(r),
        WireMessageModel::Response(r) => seq![WIRE_VERSION, 3u8] + enc_response(r),
    }
}

/// Parses one wire message at `pos`, refusing other protocol versions.
pub open spec fn parse_message(b: Seq<u8>, pos: int) -> Option<(WireMessageModel, int)> {
    if 0 <= pos && pos + 2 <= b.len() && b[pos] == WIRE_VERSION {
        let tag = b[pos + 1];
        if tag == 1u8 {
            match parse_events(b, pos + 2) {
                None => None,
                Some((events, p)) => Some((WireMessageModel::Simple(events), p)),
            }
        } else if tag == 2u8 {
            match parse_request(b, pos + 2) {
                None => None,
                Some((r, p)) => Some((WireMessageModel::Request(r), p)),
            }
        } else if tag == 3u8 {
            match parse_response(b, pos + 2) {
                None => None,
                Some((r, p)) => Some((WireMessageModel::Response(r), p)),
            }
        } else {
            None
        }
    } else {
        None
    }
}

/// Parsing an encoded wire message gives it back: serialization followed by
/// deserialization is the identity on every message variant.
#[verifier::rlimit(100)]
pub proof fn lemma_parse_enc_message(b: Seq<u8>, pos: int, m: WireMessageModel)
    requires
        0 <= pos,
        message_wf(m),
        pos + enc_message(m).len() <= b.len(),
        b.subrange(pos, pos + enc_message(m).len()) == enc_message(m),
    ensures
        parse_message(b, pos) == Some((m, pos + enc_message(m).len())),
{
    let total = enc_message(m);
    assert(b[pos] == total[0]) by {
        assert(b.subrange(pos, pos + total.len())[0] == total[0]);
    }
    assert(b[pos + 1] == total[1]) by {
        assert(b.subrange(pos, pos + total.len())[1] == total[1]);
    }
    match m {
        WireMessageModel::Simple(events) => {
            assert(total.subrange(2, total.len() as int) =~= enc_events(events));
            lemma_slice(b, pos, total, 2, enc_events(events));
            lemma_parse_enc_events(b, pos + 2, events);
        },
        WireMessageModel::Request(r) => {
            assert(total.subrange(2, total.len() as int) =~= enc_request(r));
            lemma_slice(b, pos, total, 2, enc_request(r));
            lemma_parse_enc_request(b, pos + 2, r);
        },
        WireMessageModel::Response(r) => {
            assert(total.subrange(2, total.len() as int) =~= enc_response(r));
            lemma_slice(b, pos, total, 2, enc_response(r));
            lemma_parse_enc_response(b, pos + 2, r);
        },
    }
}

/// Serializing and then deserializing any wire message yields the message
/// back, consuming exactly its bytes.
pub proof fn lemma_wire_round_trip(m: WireMessageModel)
    requires
        message_wf(m),
    ensures
        parse_message(enc_message(m), 0) == Some((m, enc_message(m).len() as int)),
{
    let b = enc_message(m);
    assert(b.subrange(0, b.len() as int) =~= b);
    lemma_parse_enc_message(b, 0, m);
}

/// Serializes one wire message.
#[verifier::rlimit(80)]
pub fn encode_message(m: &WireMessage) -> (r: Vec<u8>)
    ensures
        r@ == enc_message(m@),
{
    let mut out: Vec<u8> = Vec::new();
    out.push(WIRE_VERSION);
    match m {
        WireMessage::Simple(SimpleMessage::GossipGraph(sync)) => {
            out.push(1u8);
            encode_events(&mut out, &sync.linear);
            proof {
                assert(out@ =~= enc_message(m@));
            }
        },
        WireMessage::Request(req) => {
            out.push(2u8);
            match req {
                Request::GetShard((v, sid)) => {
                    out.push(1u8);
                    encode_u64(&mut out, v.0);
                    encode_u64(&mut out, sid.0);
                    proof {
                        assert(out@ =~= enc_message(m@));
                    }
                },
                Request::ServeShard((v, sid)) => {
                    out.push(2u8);
                    encode_u64(&mut out, v.0);
                    encode_u64(&mut out, sid.0);
                    proof {
                        assert(out@ =~= enc_message(m@));
                    }
                },
            }
        },
        WireMessage::Response(resp) => {
            out.push(3u8);
            match resp {
                Response::GetShard(None) => {
                    out.push(1u8);
                    out.push(0u8);
                    proof {
                        assert(out@ =~= enc_message(m@));
                    }
                },
                Response::GetShard(Some(shard)) => {
                    out.push(1u8);
                    out.push(1u8);
                    encode_bytes(&mut out, &shard.0);
                    proof {
                        assert(out@ =~= enc_message(m@));
                    }
                },
                Response::ServeShard(shard) => {
                    out.push(2u8);
                    encode_bytes(&mut out, &shard.0);
                    proof {
                        assert(out@ =~= enc_message(m@));
                    }
                },
            }
        },
    }
    out
}

/// Deserializes one wire message from the start of the buffer.
pub fn decode_message(b: &Vec<u8>) -> (r: Option<(WireMessage, usize)>)
    ensures
        match r {
            Some((m, p)) => parse_message(b@, 0) == Some((m@, p as int)),
            None => parse_message(b@, 0) is None,
        },
{
    if b.len() < 2 {
        return None;
    }
    if b[0] != WIRE_VERSION {
        return None;
    }
    let tag = b[1];
    if tag == 1 {
        match decode_events(b, 2) {
            Some((events, p)) => Some(
                (WireMessage::Simple(SimpleMessage::GossipGraph(SyncJobs { linear: events })), p),
            ),
            None => None,
        }
    } else if tag == 2 {
        if b.len() < 3 {
            return None;
        }
        let rtag = b[2];
        if rtag == 1 || rtag == 2 {
            let (v, p1) = match decode_u64(b, 3) {
                Some(x) => x,
                None => {
                    return None;
                },
            };
            let (sid, p2) = match decode_u64(b, p1) {
                Some(x) => x,
                None => {
                    return None;
                },
            };
            let req = if rtag == 1 {
                Request::GetShard((Vid(v), Sid(sid)))
            } else {
                Request::ServeShard((Vid(v), Sid(sid)))
            };
            Some((WireMessage::Request(req), p2))
        } else {
            None
        }
    } else if tag == 3 {
        if b.len() < 3 {
            return None;
        }
        let rtag = b[2];
        if rtag == 1 {
            if b.len() < 4 {
                return None;
            }
            let present = b[3];
            if present == 0 {
                Some((WireMessage::Response(Response::GetShard(None)), 4))
            } else if present == 1 {
                match decode_bytes(b, 4) {
                    Some((s, p)) => Some(
                        (WireMessage::Response(Response::GetShard(Some(Shard(s)))), p),
                    ),
                    None => None,
                }
            } else {
                None
            }
        } else if rtag == 2 {
            match decode_bytes(b, 3) {
                Some((s, p)) => Some(
                    (WireMessage::Response(Response::ServeShard(Shard(s))), p),
                ),
                None => None,
            }
        } else {
            None
        }
    } else {
        None
    }
}

} // verus!
