//! A deterministic, self-describing byte encoding of the whole
//! registry-plus-ledger snapshot, for content-addressed persistence: the
//! same logical state always yields the same bytes, and decoding the
//! encoding restores the same logical state.
//!
//! Layout: integers are eight big-endian bytes; a string is its UTF-8
//! byte length followed by its UTF-8 bytes; a list is its entry count
//! followed by its entries; the snapshot is the members list (nodes, each
//! stored under its own id), the checkers list, and the vote-ledger list
//! of `(subject, record)` pairs.
use vstd::prelude::*;
use vstd::string::StrSliceExecFns;
use vstd::utf8::{
    decode_utf8, encode_utf8, encode_utf8_decode_utf8, encode_utf8_valid_utf8, valid_utf8,
};
use crate::assoc::assoc_map;
use crate::map_state::{no_dup, nodes_wf, MapState};
use crate::types::{NodeInfo, NodeInfoView, Votes, VotesView};
use crate::PeerID;

verus! {

/// Big-endian bytes of one 64-bit integer.
pub open spec fn spec_enc_u64(v: u64) -> Seq<u8> {
    seq![
        (v >> 56) as u8,
        (v >> 48) as u8,
        (v >> 40) as u8,
        (v >> 32) as u8,
        (v >> 24) as u8,
        (v >> 16) as u8,
        (v >> 8) as u8,
        v as u8,
    ]
}

/// The integer eight big-endian bytes denote.
pub open spec fn spec_u64_of(b: Seq<u8>) -> u64
    recommends
        b.len() >= 8,
{
    (((b[0] as u64) << 56) | ((b[1] as u64) << 48) | ((b[2] as u64) << 40) | ((b[3] as u64) << 32)
        | ((b[4] as u64) << 24) | ((b[5] as u64) << 16) | ((b[6] as u64) << 8) | (b[7] as u64))
}

pub open spec fn spec_dec_u64(b: Seq<u8>) -> Option<(u64, Seq<u8>)> {
    if b.len() < 8 {
        None
    } else {
        Some((spec_u64_of(b), b.skip(8)))
    }
}

pub proof fn lemma_u64_round_trip(v: u64, rest: Seq<u8>)
    ensures
        spec_dec_u64(spec_enc_u64(v) + rest) == Some((v, rest)),
{
    let b = spec_enc_u64(v) + rest;
    assert(b[0] == (v >> 56) as u8);
    assert(b[1] == (v >> 48) as u8);
    assert(b[2] == (v >> 40) as u8);
    assert(b[3] == (v >> 32) as u8);
    assert(b[4] == (v >> 24) as u8);
    assert(b[5] == (v >> 16) as u8);
    assert(b[6] == (v >> 8) as u8);
    assert(b[7] == v as u8);
    assert((((((v >> 56) as u8) as u64) << 56) | ((((v >> 48) as u8) as u64) << 48) | ((((v >> 40)
        as u8) as u64) << 40) | ((((v >> 32) as u8) as u64) << 32) | ((((v >> 24) as u8) as u64)
        << 24) | ((((v >> 16) as u8) as u64) << 16) | ((((v >> 8) as u8) as u64) << 8) | ((
    v as u8) as u64)) == v) by (bit_vector);
    assert(b.skip(8) =~= rest);
}

/// A string's UTF-8 bytes fit the length prefix.
pub open spec fn str_encodable(s: Seq<char>) -> bool {
    encode_utf8(s).len() <= u64::MAX
}

/// Length-prefixed UTF-8 bytes of a string.
pub open spec fn spec_enc_str(s: Seq<char>) -> Seq<u8> {
    spec_enc_u64(encode_utf8(s).len() as u64) + encode_utf8(s)
}

pub open spec fn spec_dec_str(b: Seq<u8>) -> Option<(Seq<char>, Seq<u8>)> {
    match spec_dec_u64(b) {
        None => None,
        Some((n, rest)) => {
            if rest.len() < n {
                None
            } else {
                let bs = rest.take(n as int);
                if valid_utf8(bs) {
                    Some((decode_utf8(bs), rest.skip(n as int)))
                } else {
                    None
                }
            }
        },
    }
}

pub proof fn lemma_str_round_trip(s: Seq<char>, rest: Seq<u8>)
    requires
        str_encodable(s),
    ensures
        spec_dec_str(spec_enc_str(s) + rest) == Some((s, rest)),
{
    let bs = encode_utf8(s);
    let n = bs.len() as u64;
    assert(spec_enc_str(s) + rest =~= spec_enc_u64(n) + (bs + rest));
    lemma_u64_round_trip(n, bs + rest);
    assert((bs + rest).take(n as int) =~= bs);
    assert((bs + rest).skip(n as int) =~= rest);
    encode_utf8_valid_utf8(s);
    encode_utf8_decode_utf8(s);
}

/// Relies on str::from_utf8: it accepts exactly the byte sequences that
/// are valid UTF-8, and the characters of the accepted string are the
/// UTF-8 decoding of the bytes.
#[verifier::external_body]
fn utf8_to_string(bytes: &[u8]) -> (r: Option<String>)
    ensures
        r is Some <==> valid_utf8(bytes@),
        r is Some ==> r->0@ == decode_utf8(bytes@),
{
    match core::str::from_utf8(bytes) {
        Ok(s) => Some(s.to_owned()),
        Err(_) => None,
    }
}

/// Every string of the list fits its length prefix, and the list fits
/// its count prefix.
pub open spec fn strs_encodable(ss: Seq<Seq<char>>) -> bool {
    &&& ss.len() <= u64::MAX
    &&& forall|i: int| 0 <= i < ss.len() ==> str_encodable(ss[i])
}

/// The strings of a list, in order, without a count prefix.
pub open spec fn spec_enc_strs(ss: Seq<Seq<char>>) -> Seq<u8>
    decreases ss.len(),
{
    if ss.len() == 0 {
        Seq::empty()
    } else {
        spec_enc_str(ss.first()) + spec_enc_strs(ss.drop_first())
    }
}

pub open spec fn spec_dec_strs(b: Seq<u8>, count: nat) -> Option<(Seq<Seq<char>>, Seq<u8>)>
    decreases count,
{
    if count == 0 {
        Some((Seq::empty(), b))
    } else {
        match spec_dec_str(b) {
            None => None,
            Some((s, rest)) => match spec_dec_strs(rest, (count - 1) as nat) {
                None => None,
                Some(t) => Some((seq![s] + t.0, t.1)),
            },
        }
    }
}

proof fn lemma_enc_strs_snoc(ss: Seq<Seq<char>>, x: Seq<char>)
    ensures
        spec_enc_strs(ss.push(x)) == spec_enc_strs(ss) + spec_enc_str(x),
    decreases ss.len(),
{
    if ss.len() == 0 {
        assert(ss.push(x).first() == x);
        assert(ss.push(x).drop_first() =~= Seq::<Seq<char>>::empty());
        assert(spec_enc_strs(Seq::<Seq<char>>::empty()) == Seq::<u8>::empty());
        assert(spec_enc_str(x) + Seq::<u8>::empty() =~= spec_enc_str(x));
        assert(Seq::<u8>::empty() + spec_enc_str(x) =~= spec_enc_str(x));
    } else {
        assert(ss.push(x).first() == ss.first());
        assert(ss.push(x).drop_first() =~= ss.drop_first().push(x));
        lemma_enc_strs_snoc(ss.drop_first(), x);
        assert(spec_enc_str(ss.first()) + (spec_enc_strs(ss.drop_first()) + spec_enc_str(x)) =~= (
        spec_enc_str(ss.first()) + spec_enc_strs(ss.drop_first())) + spec_enc_str(x));
    }
}

pub proof fn lemma_strs_round_trip(ss: Seq<Seq<char>>, rest: Seq<u8>)
    requires
        strs_encodable(ss),
    ensures
        spec_dec_strs(spec_enc_strs(ss) + rest, ss.len()) == Some((ss, rest)),
    decreases ss.len(),
{
    if ss.len() == 0 {
        assert(Seq::<u8>::empty() + rest =~= rest);
        assert(ss =~= Seq::<Seq<char>>::empty());
    } else {
        assert(spec_enc_strs(ss) + rest =~= spec_enc_str(ss.first()) + (spec_enc_strs(
            ss.drop_first(),
        ) + rest));
        lemma_str_round_trip(ss.first(), spec_enc_strs(ss.drop_first()) + rest);
        assert forall|i: int| 0 <= i < ss.drop_first().len() implies str_encodable(
            ss.drop_first()[i],
        ) by {
            assert(ss.drop_first()[i] == ss[i + 1]);
        }
        lemma_strs_round_trip(ss.drop_first(), rest);
        assert(seq![ss.first()] + ss.drop_first() =~= ss);
    }
}

pub open spec fn node_encodable(n: NodeInfoView) -> bool {
    str_encodable(n.id) && strs_encodable(n.addresses)
}

/// A node: its id, its creator, and its address list.
pub open spec fn spec_enc_node(n: NodeInfoView) -> Seq<u8> {
    spec_enc_str(n.id) + spec_enc_u64(n.creator) + spec_enc_u64(n.addresses.len() as u64)
        + spec_enc_strs(n.addresses)
}

pub open spec fn spec_dec_node(b: Seq<u8>) -> Option<(NodeInfoView, Seq<u8>)> {
    match spec_dec_str(b) {
        None => None,
        Some((id, b1)) => match spec_dec_u64(b1) {
            None => None,
            Some((creator, b2)) => match spec_dec_u64(b2) {
                None => None,
                Some((cnt, b3)) => match spec_dec_strs(b3, cnt as nat) {
                    None => None,
                    Some((addrs, b4)) => Some(
                        (NodeInfoView { id, creator, addresses: addrs }, b4),
                    ),
                },
            },
        },
    }
}

pub proof fn lemma_node_round_trip(n: NodeInfoView, rest: Seq<u8>)
    requires
        node_encodable(n),
    ensures
        spec_dec_node(spec_enc_node(n) + rest) == Some((n, rest)),
{
    let pc = spec_enc_u64(n.creator);
    let pk = spec_enc_u64(n.addresses.len() as u64);
    let pa = spec_enc_strs(n.addresses);
    assert(spec_enc_node(n) + rest =~= spec_enc_str(n.id) + (pc + (pk + (pa + rest))));
    lemma_str_round_trip(n.id, pc + (pk + (pa + rest)));
    lemma_u64_round_trip(n.creator, pk + (pa + rest));
    lemma_u64_round_trip(n.addresses.len() as u64, pa + rest);
    assert((n.addresses.len() as u64) as nat == n.addresses.len());
    lemma_strs_round_trip(n.addresses, rest);
}

pub open spec fn votes_encodable(v: VotesView) -> bool {
    strs_encodable(v.votes)
}

/// A vote record: its most recent epoch and its voter list.
pub open spec fn spec_enc_votes(v: VotesView) -> Seq<u8> {
    spec_enc_u64(v.last_vote) + spec_enc_u64(v.votes.len() as u64) + spec_enc_strs(v.votes)
}

/// Decoding refuses a record that lists a voter twice.
pub open spec fn spec_dec_votes(b: Seq<u8>) -> Option<(VotesView, Seq<u8>)> {
    match spec_dec_u64(b) {
        None => None,
        Some((lv, b1)) => match spec_dec_u64(b1) {
            None => None,
            Some((cnt, b2)) => match spec_dec_strs(b2, cnt as nat) {
                None => None,
                Some((vs, b3)) => {
                    if no_dup(vs) {
                        Some((VotesView { last_vote: lv, votes: vs }, b3))
                    } else {
                        None
                    }
                },
            },
        },
    }
}

pub proof fn lemma_votes_round_trip(v: VotesView, rest: Seq<u8>)
    requires
        votes_encodable(v),
        no_dup(v.votes),
    ensures
        spec_dec_votes(spec_enc_votes(v) + rest) == Some((v, rest)),
{
    let pk = spec_enc_u64(v.votes.len() as u64);
    let pv = spec_enc_strs(v.votes);
    assert(spec_enc_votes(v) + rest =~= spec_enc_u64(v.last_vote) + (pk + (pv + rest)));
    lemma_u64_round_trip(v.last_vote, pk + (pv + rest));
    lemma_u64_round_trip(v.votes.len() as u64, pv + rest);
    assert((v.votes.len() as u64) as nat == v.votes.len());
    lemma_strs_round_trip(v.votes, rest);
}

pub open spec fn nodes_encodable(ns: Seq<NodeInfoView>) -> bool {
    &&& ns.len() <= u64::MAX
    &&& forall|i: int| 0 <= i < ns.len() ==> node_encodable(ns[i])
}

/// The nodes of a list, in order, without a count prefix.
pub open spec fn spec_enc_nodes(ns: Seq<NodeInfoView>) -> Seq<u8>
    decreases ns.len(),
{
    if ns.len() == 0 {
        Seq::empty()
    } else {
        spec_enc_node(ns.first()) + spec_enc_nodes(ns.drop_first())
    }
}

pub open spec fn spec_dec_nodes(b: Seq<u8>, count: nat) -> Option<(Seq<NodeInfoView>, Seq<u8>)>
    decreases count,
{
    if count == 0 {
        Some((Seq::empty(), b))
    } else {
        match spec_dec_node(b) {
            None => None,
            Some((n, rest)) => match spec_dec_nodes(rest, (count - 1) as nat) {
                None => None,
                Some(t) => Some((seq![n] + t.0, t.1)),
            },
        }
    }
}

#[verifier::rlimit(50)]
proof fn lemma_enc_nodes_snoc(ns: Seq<NodeInfoView>, x: NodeInfoView)
    ensures
        spec_enc_nodes(ns.push(x)) == spec_enc_nodes(ns) + spec_enc_node(x),
    decreases ns.len(),
{
    if ns.len() == 0 {
        assert(ns.push(x).first() == x);
        assert(ns.push(x).drop_first() =~= Seq::<NodeInfoView>::empty());
        assert(spec_enc_nodes(Seq::<NodeInfoView>::empty()) == Seq::<u8>::empty());
        assert(spec_enc_node(x) + Seq::<u8>::empty() =~= spec_enc_node(x));
        assert(Seq::<u8>::empty() + spec_enc_node(x) =~= spec_enc_node(x));
    } else {
        assert(ns.push(x).first() == ns.first());
        assert(ns.push(x).drop_first() =~= ns.drop_first().push(x));
        lemma_enc_nodes_snoc(ns.drop_first(), x);
        assert(spec_enc_node(ns.first()) + (spec_enc_nodes(ns.drop_first()) + spec_enc_node(x)) =~= (
        spec_enc_node(ns.first()) + spec_enc_nodes(ns.drop_first())) + spec_enc_node(x));
    }
}

#[verifier::rlimit(50)]
pub proof fn lemma_nodes_round_trip(ns: Seq<NodeInfoView>, rest: Seq<u8>)
    requires
        nodes_encodable(ns),
    ensures
        spec_dec_nodes(spec_enc_nodes(ns) + rest, ns.len()) == Some((ns, rest)),
    decreases ns.len(),
{
    if ns.len() == 0 {
        assert(Seq::<u8>::empty() + rest =~= rest);
        assert(ns =~= Seq::<NodeInfoView>::empty());
    } else {
        assert(spec_enc_nodes(ns) + rest =~= spec_enc_node(ns.first()) + (spec_enc_nodes(
            ns.drop_first(),
        ) + rest));
        lemma_node_round_trip(ns.first(), spec_enc_nodes(ns.drop_first()) + rest);
        assert forall|i: int| 0 <= i < ns.drop_first().len() implies node_encodable(
            ns.drop_first()[i],
        ) by {
            assert(ns.drop_first()[i] == ns[i + 1]);
        }
        lemma_nodes_round_trip(ns.drop_first(), rest);
        assert(seq![ns.first()] + ns.drop_first() =~= ns);
    }
}

pub open spec fn entry_encodable(e: (Seq<char>, VotesView)) -> bool {
    str_encodable(e.0) && votes_encodable(e.1)
}

/// One ledger entry: the subject and its vote record.
pub open spec fn spec_enc_entry(e: (Seq<char>, VotesView)) -> Seq<u8> {
    spec_enc_str(e.0) + spec_enc_votes(e.1)
}

pub open spec fn spec_dec_entry(b: Seq<u8>) -> Option<((Seq<char>, VotesView), Seq<u8>)> {
    match spec_dec_str(b) {
        None => None,
        Some((k, b1)) => match spec_dec_votes(b1) {
            None => None,
            Some((v, b2)) => Some(((k, v), b2)),
        },
    }
}

pub proof fn lemma_entry_round_trip(e: (Seq<char>, VotesView), rest: Seq<u8>)
    requires
        entry_encodable(e),
        no_dup(e.1.votes),
    ensures
        spec_dec_entry(spec_enc_entry(e) + rest) == Some((e, rest)),
{
    assert(spec_enc_entry(e) + rest =~= spec_enc_str(e.0) + (spec_enc_votes(e.1) + rest));
    lemma_str_round_trip(e.0, spec_enc_votes(e.1) + rest);
    lemma_votes_round_trip(e.1, rest);
}

pub open spec fn ledger_encodable(es: Seq<(Seq<char>, VotesView)>) -> bool {
    &&& es.len() <= u64::MAX
    &&& forall|i: int| 0 <= i < es.len() ==> entry_encodable(#[trigger] es[i])
}

/// The ledger entries, in order, without a count prefix.
pub open spec fn spec_enc_ledger(es: Seq<(Seq<char>, VotesView)>) -> Seq<u8>
    decreases es.len(),
{
    if es.len() == 0 {
        Seq::empty()
    } else {
        spec_enc_entry(es.first()) + spec_enc_ledger(es.drop_first())
    }
}

pub open spec fn spec_dec_ledger(b: Seq<u8>, count: nat) -> Option<
    (Seq<(Seq<char>, VotesView)>, Seq<u8>),
>
    decreases count,
{
    if count == 0 {
        Some((Seq::empty(), b))
    } else {
        match spec_dec_entry(b) {
            None => None,
            Some((e, rest)) => match spec_dec_ledger(rest, (count - 1) as nat) {
                None => None,
                Some(t) => Some((seq![e] + t.0, t.1)),
            },
        }
    }
}

proof fn lemma_enc_ledger_snoc(es: Seq<(Seq<char>, VotesView)>, x: (Seq<char>, VotesView))
    ensures
        spec_enc_ledger(es.push(x)) == spec_enc_ledger(es) + spec_enc_entry(x),
    decreases es.len(),
{
    if es.len() == 0 {
        assert(es.push(x).first() == x);
        assert(es.push(x).drop_first() =~= Seq::<(Seq<char>, VotesView)>::empty());
        assert(spec_enc_ledger(Seq::<(Seq<char>, VotesView)>::empty()) == Seq::<u8>::empty());
        assert(spec_enc_entry(x) + Seq::<u8>::empty() =~= spec_enc_entry(x));
        assert(Seq::<u8>::empty() + spec_enc_entry(x) =~= spec_enc_entry(x));
    } else {
        assert(es.push(x).first() == es.first());
        assert(es.push(x).drop_first() =~= es.drop_first().push(x));
        lemma_enc_ledger_snoc(es.drop_first(), x);
        assert(spec_enc_entry(es.first()) + (spec_enc_ledger(es.drop_first()) + spec_enc_entry(x))
            =~= (spec_enc_entry(es.first()) + spec_enc_ledger(es.drop_first())) + spec_enc_entry(
            x,
        ));
    }
}

#[verifier::rlimit(100)]
pub proof fn lemma_ledger_round_trip(es: Seq<(Seq<char>, VotesView)>, rest: Seq<u8>)
    requires
        ledger_encodable(es),
        forall|i: int| 0 <= i < es.len() ==> no_dup(#[trigger] es[i].1.votes),
    ensures
        spec_dec_ledger(spec_enc_ledger(es) + rest, es.len()) == Some((es, rest)),
    decreases es.len(),
{
    if es.len() == 0 {
        assert(Seq::<u8>::empty() + rest =~= rest);
        assert(es =~= Seq::<(Seq<char>, VotesView)>::empty());
    } else {
        assert(spec_enc_ledger(es) + rest =~= spec_enc_entry(es.first()) + (spec_enc_ledger(
            es.drop_first(),
        ) + rest));
        lemma_entry_round_trip(es.first(), spec_enc_ledger(es.drop_first()) + rest);
        assert forall|i: int| 0 <= i < es.drop_first().len() implies entry_encodable(
            #[trigger] es.drop_first()[i],
        ) && no_dup(es.drop_first()[i].1.votes) by {
            assert(es.drop_first()[i] == es[i + 1]);
            assert(no_dup(es[i + 1].1.votes));
        }
        lemma_ledger_round_trip(es.drop_first(), rest);
        assert(seq![es.first()] + es.drop_first() =~= es);
    }
}

fn push_u64(out: &mut Vec<u8>, v: u64)
    ensures
        final(out)@ == old(out)@ + spec_enc_u64(v),
{
    out.push(#[verifier::truncate] ((v >> 56) as u8));
    out.push(#[verifier::truncate] ((v >> 48) as u8));
    out.push(#[verifier::truncate] ((v >> 40) as u8));
    out.push(#[verifier::truncate] ((v >> 32) as u8));
    out.push(#[verifier::truncate] ((v >> 24) as u8));
    out.push(#[verifier::truncate] ((v >> 16) as u8));
    out.push(#[verifier::truncate] ((v >> 8) as u8));
    out.push(#[verifier::truncate] (v as u8));
    proof {
        assert(out@ =~= old(out)@ + spec_enc_u64(v));
    }
}

fn push_str(out: &mut Vec<u8>, s: &String)
    ensures
        final(out)@ == old(out)@ + spec_enc_str(s@),
        str_encodable(s@),
{
    let mut bs = s.as_str().as_bytes_vec();
    let n = bs.len() as u64;
    proof {
        assert(n == encode_utf8(s@).len() as u64);
    }
    push_u64(out, n);
    out.append(&mut bs);
    proof {
        assert(out@ =~= old(out)@ + spec_enc_str(s@));
    }
}

fn read_u64(b: &Vec<u8>, pos: usize) -> (r: Option<(u64, usize)>)
    requires
        pos <= b@.len(),
    ensures
        match r {
            Some(t) => pos + 8 <= b@.len() && t.1 == pos + 8 && spec_dec_u64(b@.skip(pos as int))
                == Some((t.0, b@.skip(t.1 as int))),
            None => spec_dec_u64(b@.skip(pos as int)) is None,
        },
{
    if b.len() < 8 || pos > b.len() - 8 {
        proof {
            assert(b@.skip(pos as int).len() < 8);
        }
        return None;
    }
    let v = ((b[pos] as u64) << 56) | ((b[pos + 1] as u64) << 48) | ((b[pos + 2] as u64) << 40) | ((
    b[pos + 3] as u64) << 32) | ((b[pos + 4] as u64) << 24) | ((b[pos + 5] as u64) << 16) | ((b[pos
        + 6] as u64) << 8) | (b[pos + 7] as u64);
    proof {
        let t = b@.skip(pos as int);
        assert(t[0] == b@[pos as int]);
        assert(t[1] == b@[pos + 1]);
        assert(t[2] == b@[pos + 2]);
        assert(t[3] == b@[pos + 3]);
        assert(t[4] == b@[pos + 4]);
        assert(t[5] == b@[pos + 5]);
        assert(t[6] == b@[pos + 6]);
        assert(t[7] == b@[pos + 7]);
        assert(t.skip(8) =~= b@.skip(pos + 8));
    }
    Some((v, pos + 8))
}

fn read_str(b: &Vec<u8>, pos: usize) -> (r: Option<(String, usize)>)
    requires
        pos <= b@.len(),
    ensures
        match r {
            Some(t) => pos <= t.1 <= b@.len() && spec_dec_str(b@.skip(pos as int)) == Some(
                (t.0@, b@.skip(t.1 as int)),
            ),
            None => spec_dec_str(b@.skip(pos as int)) is None,
        },
{
    match read_u64(b, pos) {
        None => None,
        Some((n, p1)) => {
            if n > (b.len() - p1) as u64 {
                proof {
                    assert(b@.skip(p1 as int).len() < n);
                }
                return None;
            }
            let end = p1 + (#[verifier::truncate] (n as usize));
            let bytes = vstd::slice::slice_subrange(b.as_slice(), p1, end);
            proof {
                assert(bytes@ =~= b@.skip(p1 as int).take(n as int));
            }
            match utf8_to_string(bytes) {
                None => None,
                Some(s) => {
                    proof {
                        assert(b@.skip(p1 as int).skip(n as int) =~= b@.skip(end as int));
                    }
                    Some((s, end))
                },
            }
        },
    }
}


fn push_node(out: &mut Vec<u8>, n: &NodeInfo)
    ensures
        final(out)@ == old(out)@ + spec_enc_node(n@),
        node_encodable(n@),
{
    push_str(out, &n.id);
    push_u64(out, n.creator);
    push_u64(out, n.addresses.len() as u64);
    let ghost base = out@;
    let k = n.addresses.len();
    for i in 0..k
        invariant
            k == n.addresses@.len(),
            out@ == base + spec_enc_strs(n@.addresses.take(i as int)),
            forall|j: int| 0 <= j < i ==> str_encodable(n@.addresses[j]),
    {
        push_str(out, &n.addresses[i]);
        proof {
            assert(n@.addresses[i as int] == n.addresses@[i as int]@);
            lemma_enc_strs_snoc(n@.addresses.take(i as int), n@.addresses[i as int]);
            assert(n@.addresses.take(i + 1) =~= n@.addresses.take(i as int).push(
                n@.addresses[i as int],
            ));
            assert(out@ =~= base + spec_enc_strs(n@.addresses.take(i + 1)));
        }
    }
    proof {
        assert(n@.addresses.take(k as int) =~= n@.addresses);
        assert(out@ =~= old(out)@ + spec_enc_node(n@));
    }
}

fn push_votes(out: &mut Vec<u8>, v: &Votes)
    ensures
        final(out)@ == old(out)@ + spec_enc_votes(v@),
        votes_encodable(v@),
{
    push_u64(out, v.last_vote);
    push_u64(out, v.votes.len() as u64);
    let ghost base = out@;
    let k = v.votes.len();
    for i in 0..k
        invariant
            k == v.votes@.len(),
            out@ == base + spec_enc_strs(v@.votes.take(i as int)),
            forall|j: int| 0 <= j < i ==> str_encodable(v@.votes[j]),
    {
        push_str(out, &v.votes[i]);
        proof {
            assert(v@.votes[i as int] == v.votes@[i as int]@);
            lemma_enc_strs_snoc(v@.votes.take(i as int), v@.votes[i as int]);
            assert(v@.votes.take(i + 1) =~= v@.votes.take(i as int).push(v@.votes[i as int]));
            assert(out@ =~= base + spec_enc_strs(v@.votes.take(i + 1)));
        }
    }
    proof {
        assert(v@.votes.take(k as int) =~= v@.votes);
        assert(out@ =~= old(out)@ + spec_enc_votes(v@));
    }
}

/// The node views a node collection stores, in order.
pub(crate) open spec fn nodes_of(s: Seq<(String, NodeInfo)>) -> Seq<NodeInfoView> {
    Seq::new(s.len(), |i: int| s[i].1@)
}

/// The entry views a ledger collection stores, in order.
pub(crate) open spec fn entries_of(s: Seq<(String, Votes)>) -> Seq<(Seq<char>, VotesView)> {
    Seq::new(s.len(), |i: int| (s[i].0@, s[i].1@))
}

fn push_nodes(out: &mut Vec<u8>, s: &Vec<(PeerID, NodeInfo)>)
    ensures
        final(out)@ == old(out)@ + spec_enc_nodes(nodes_of(s@)),
        nodes_encodable(nodes_of(s@)),
{
    let ghost base = out@;
    let k = s.len();
    for i in 0..k
        invariant
            k == s@.len(),
            out@ == base + spec_enc_nodes(nodes_of(s@).take(i as int)),
            forall|j: int| 0 <= j < i ==> node_encodable(nodes_of(s@)[j]),
    {
        push_node(out, &s[i].1);
        proof {
            lemma_enc_nodes_snoc(nodes_of(s@).take(i as int), nodes_of(s@)[i as int]);
            assert(nodes_of(s@).take(i + 1) =~= nodes_of(s@).take(i as int).push(
                nodes_of(s@)[i as int],
            ));
            assert(out@ =~= base + spec_enc_nodes(nodes_of(s@).take(i + 1)));
        }
    }
    proof {
        assert(nodes_of(s@).take(k as int) =~= nodes_of(s@));
    }
}

fn push_ledger(out: &mut Vec<u8>, s: &Vec<(PeerID, Votes)>)
    ensures
        final(out)@ == old(out)@ + spec_enc_ledger(entries_of(s@)),
        ledger_encodable(entries_of(s@)),
{
    let ghost base = out@;
    let k = s.len();
    for i in 0..k
        invariant
            k == s@.len(),
            out@ == base + spec_enc_ledger(entries_of(s@).take(i as int)),
            forall|j: int| 0 <= j < i ==> entry_encodable(#[trigger] entries_of(s@)[j]),
    {
        let ghost mid = out@;
        push_str(out, &s[i].0);
        push_votes(out, &s[i].1);
        proof {
            assert(out@ =~= mid + spec_enc_entry(entries_of(s@)[i as int]));
            lemma_enc_ledger_snoc(entries_of(s@).take(i as int), entries_of(s@)[i as int]);
            assert(entries_of(s@).take(i + 1) =~= entries_of(s@).take(i as int).push(
                entries_of(s@)[i as int],
            ));
            assert(out@ =~= base + spec_enc_ledger(entries_of(s@).take(i + 1)));
        }
    }
    proof {
        assert(entries_of(s@).take(k as int) =~= entries_of(s@));
    }
}

fn check_no_dup(v: &Vec<String>) -> (r: bool)
    ensures
        r == no_dup(v.deep_view()),
{
    let n = v.len();
    for i in 0..n
        invariant
            n == v@.len(),
            forall|p: int, q: int| 0 <= p < q < i ==> v.deep_view()[p] != v.deep_view()[q],
    {
        for j in 0..i
            invariant
                i < n == v@.len(),
                forall|p: int, q: int| 0 <= p < q < i ==> v.deep_view()[p] != v.deep_view()[q],
                forall|p: int| 0 <= p < j ==> v.deep_view()[p] != v.deep_view()[i as int],
        {
            if v[j] == v[i] {
                proof {
                    assert(v.deep_view()[j as int] == v.deep_view()[i as int]);
                }
                return false;
            }
        }
    }
    true
}

fn read_strs(b: &Vec<u8>, pos: usize, count: u64) -> (r: Option<(Vec<String>, usize)>)
    requires
        pos <= b@.len(),
    ensures
        match r {
            Some(t) => t.1 <= b@.len() && spec_dec_strs(b@.skip(pos as int), count as nat) == Some(
                (t.0.deep_view(), b@.skip(t.1 as int)),
            ),
            None => spec_dec_strs(b@.skip(pos as int), count as nat) is None,
        },
{
    let mut acc: Vec<String> = Vec::new();
    let mut p = pos;
    let mut remaining = count;
    while remaining > 0
        invariant
            p <= b@.len(),
            (match spec_dec_strs(b@.skip(p as int), remaining as nat) {
                None => spec_dec_strs(b@.skip(pos as int), count as nat) is None,
                Some(t) => spec_dec_strs(b@.skip(pos as int), count as nat) == Some(
                    (acc.deep_view() + t.0, t.1),
                ),
            }),
        decreases remaining,
    {
        let ghost acc0 = acc.deep_view();
        match read_str(b, p) {
            None => {
                return None;
            },
            Some((s, p2)) => {
                acc.push(s);
                proof {
                    assert(acc.deep_view() =~= acc0.push(s@));
                }
                p = p2;
                remaining = remaining - 1;
                proof {
                    if spec_dec_strs(b@.skip(p as int), remaining as nat) is Some {
                        let t = spec_dec_strs(b@.skip(p as int), remaining as nat)->0;
                        assert(acc0 + (seq![s@] + t.0) =~= acc.deep_view() + t.0);
                    }
                }
            },
        }
    }
    proof {
        assert(acc.deep_view() + Seq::<Seq<char>>::empty() =~= acc.deep_view());
    }
    Some((acc, p))
}

fn read_node(b: &Vec<u8>, pos: usize) -> (r: Option<(NodeInfo, usize)>)
    requires
        pos <= b@.len(),
    ensures
        match r {
            Some(t) => t.1 <= b@.len() && spec_dec_node(b@.skip(pos as int)) == Some(
                (t.0@, b@.skip(t.1 as int)),
            ),
            None => spec_dec_node(b@.skip(pos as int)) is None,
        },
{
    match read_str(b, pos) {
        None => None,
        Some((id, p1)) => match read_u64(b, p1) {
            None => None,
            Some((creator, p2)) => match read_u64(b, p2) {
                None => None,
                Some((cnt, p3)) => match read_strs(b, p3, cnt) {
                    None => None,
                    Some((addrs, p4)) => {
                        let n = NodeInfo { id, creator, addresses: addrs };
                        Some((n, p4))
                    },
                },
            },
        },
    }
}

fn read_votes(b: &Vec<u8>, pos: usize) -> (r: Option<(Votes, usize)>)
    requires
        pos <= b@.len(),
    ensures
        match r {
            Some(t) => t.1 <= b@.len() && spec_dec_votes(b@.skip(pos as int)) == Some(
                (t.0@, b@.skip(t.1 as int)),
            ) && no_dup(t.0@.votes),
            None => spec_dec_votes(b@.skip(pos as int)) is None,
        },
{
    match read_u64(b, pos) {
        None => None,
        Some((lv, p1)) => match read_u64(b, p1) {
            None => None,
            Some((cnt, p2)) => match read_strs(b, p2, cnt) {
                None => None,
                Some((vs, p3)) => {
                    if !check_no_dup(&vs) {
                        return None;
                    }
                    let v = Votes { last_vote: lv, votes: vs };
                    Some((v, p3))
                },
            },
        },
    }
}

fn read_nodes(b: &Vec<u8>, pos: usize, count: u64) -> (r: Option<(Vec<NodeInfo>, usize)>)
    requires
        pos <= b@.len(),
    ensures
        match r {
            Some(t) => t.1 <= b@.len() && spec_dec_nodes(b@.skip(pos as int), count as nat) == Some(
                (t.0.deep_view(), b@.skip(t.1 as int)),
            ),
            None => spec_dec_nodes(b@.skip(pos as int), count as nat) is None,
        },
{
    let mut acc: Vec<NodeInfo> = Vec::new();
    let mut p = pos;
    let mut remaining = count;
    while remaining > 0
        invariant
            p <= b@.len(),
            (match spec_dec_nodes(b@.skip(p as int), remaining as nat) {
                None => spec_dec_nodes(b@.skip(pos as int), count as nat) is None,
                Some(t) => spec_dec_nodes(b@.skip(pos as int), count as nat) == Some(
                    (acc.deep_view() + t.0, t.1),
                ),
            }),
        decreases remaining,
    {
        let ghost acc0 = acc.deep_view();
        match read_node(b, p) {
            None => {
                return None;
            },
            Some((n, p2)) => {
                let ghost nv = n@;
                acc.push(n);
                p = p2;
                remaining = remaining - 1;
                proof {
                    assert(acc.deep_view() =~= acc0.push(nv));
                    if spec_dec_nodes(b@.skip(p as int), remaining as nat) is Some {
                        let t = spec_dec_nodes(b@.skip(p as int), remaining as nat)->0;
                        assert(acc0 + (seq![nv] + t.0) =~= acc.deep_view() + t.0);
                    }
                }
            },
        }
    }
    proof {
        assert(acc.deep_view() + Seq::<NodeInfoView>::empty() =~= acc.deep_view());
    }
    Some((acc, p))
}

fn read_ledger(b: &Vec<u8>, pos: usize, count: u64) -> (r: Option<(Vec<(PeerID, Votes)>, usize)>)
    requires
        pos <= b@.len(),
    ensures
        match r {
            Some(t) => t.1 <= b@.len() && spec_dec_ledger(b@.skip(pos as int), count as nat)
                == Some((t.0.deep_view(), b@.skip(t.1 as int))) && (forall|i: int|
                0 <= i < t.0@.len() ==> no_dup(#[trigger] t.0@[i].1@.votes)),
            None => spec_dec_ledger(b@.skip(pos as int), count as nat) is None,
        },
{
    let mut acc: Vec<(PeerID, Votes)> = Vec::new();
    let mut p = pos;
    let mut remaining = count;
    while remaining > 0
        invariant
            p <= b@.len(),
            forall|i: int| 0 <= i < acc@.len() ==> no_dup(#[trigger] acc@[i].1@.votes),
            (match spec_dec_ledger(b@.skip(p as int), remaining as nat) {
                None => spec_dec_ledger(b@.skip(pos as int), count as nat) is None,
                Some(t) => spec_dec_ledger(b@.skip(pos as int), count as nat) == Some(
                    (acc.deep_view() + t.0, t.1),
                ),
            }),
        decreases remaining,
    {
        let ghost acc0 = acc.deep_view();
        match read_str(b, p) {
            None => {
                return None;
            },
            Some((key, p1)) => match read_votes(b, p1) {
                None => {
                    return None;
                },
                Some((rec, p2)) => {
                    let ghost ev = (key@, rec@);
                    acc.push((key, rec));
                    p = p2;
                    remaining = remaining - 1;
                    proof {
                        assert(acc.deep_view() =~= acc0.push(ev));
                        if spec_dec_ledger(b@.skip(p as int), remaining as nat) is Some {
                            let t = spec_dec_ledger(b@.skip(p as int), remaining as nat)->0;
                            assert(acc0 + (seq![ev] + t.0) =~= acc.deep_view() + t.0);
                        }
                    }
                },
            },
        }
    }
    proof {
        assert(acc.deep_view() + Seq::<(Seq<char>, VotesView)>::empty() =~= acc.deep_view());
    }
    Some((acc, p))
}

/// The three sections a snapshot parses to, in stored order.
pub struct SnapshotView {
    pub members: Seq<NodeInfoView>,
    pub checkers: Seq<NodeInfoView>,
    pub offline_checkers: Seq<(Seq<char>, VotesView)>,
}

/// One node section: a count, then that many nodes.
pub open spec fn spec_parse_nodes_section(b: Seq<u8>) -> Option<(Seq<NodeInfoView>, Seq<u8>)> {
    match spec_dec_u64(b) {
        None => None,
        Some((c, r)) => spec_dec_nodes(r, c as nat),
    }
}

/// The ledger section: a count, then that many entries.
pub open spec fn spec_parse_ledger_section(b: Seq<u8>) -> Option<
    (Seq<(Seq<char>, VotesView)>, Seq<u8>),
> {
    match spec_dec_u64(b) {
        None => None,
        Some((c, r)) => spec_dec_ledger(r, c as nat),
    }
}

/// What a byte sequence parses to: the members, checkers and ledger
/// sections, with nothing left over.
pub open spec fn spec_parse_snapshot(b: Seq<u8>) -> Option<SnapshotView> {
    match spec_parse_nodes_section(b) {
        None => None,
        Some((ms, b1)) => match spec_parse_nodes_section(b1) {
            None => None,
            Some((cs, b2)) => match spec_parse_ledger_section(b2) {
                None => None,
                Some((os, b3)) => {
                    if b3.len() == 0 {
                        Some(SnapshotView { members: ms, checkers: cs, offline_checkers: os })
                    } else {
                        None
                    }
                },
            },
        },
    }
}

proof fn lemma_nodes_section_round_trip(ns: Seq<NodeInfoView>, rest: Seq<u8>)
    requires
        nodes_encodable(ns),
    ensures
        spec_parse_nodes_section(spec_enc_u64(ns.len() as u64) + (spec_enc_nodes(ns) + rest))
            == Some((ns, rest)),
{
    lemma_u64_round_trip(ns.len() as u64, spec_enc_nodes(ns) + rest);
    assert((ns.len() as u64) as nat == ns.len());
    lemma_nodes_round_trip(ns, rest);
}

proof fn lemma_ledger_section_round_trip(es: Seq<(Seq<char>, VotesView)>, rest: Seq<u8>)
    requires
        ledger_encodable(es),
        forall|i: int| 0 <= i < es.len() ==> no_dup(#[trigger] es[i].1.votes),
    ensures
        spec_parse_ledger_section(spec_enc_u64(es.len() as u64) + (spec_enc_ledger(es) + rest))
            == Some((es, rest)),
{
    lemma_u64_round_trip(es.len() as u64, spec_enc_ledger(es) + rest);
    assert((es.len() as u64) as nat == es.len());
    lemma_ledger_round_trip(es, rest);
}

fn read_nodes_section(b: &Vec<u8>, pos: usize) -> (r: Option<(Vec<NodeInfo>, usize)>)
    requires
        pos <= b@.len(),
    ensures
        match r {
            Some(t) => t.1 <= b@.len() && spec_parse_nodes_section(b@.skip(pos as int)) == Some(
                (t.0.deep_view(), b@.skip(t.1 as int)),
            ),
            None => spec_parse_nodes_section(b@.skip(pos as int)) is None,
        },
{
    match read_u64(b, pos) {
        None => None,
        Some((c, p1)) => read_nodes(b, p1, c),
    }
}

fn read_ledger_section(b: &Vec<u8>, pos: usize) -> (r: Option<(Vec<(PeerID, Votes)>, usize)>)
    requires
        pos <= b@.len(),
    ensures
        match r {
            Some(t) => t.1 <= b@.len() && spec_parse_ledger_section(b@.skip(pos as int)) == Some(
                (t.0.deep_view(), b@.skip(t.1 as int)),
            ) && (forall|i: int| 0 <= i < t.0@.len() ==> no_dup(#[trigger] t.0@[i].1@.votes)),
            None => spec_parse_ledger_section(b@.skip(pos as int)) is None,
        },
{
    match read_u64(b, pos) {
        None => None,
        Some((c, p1)) => read_ledger(b, p1, c),
    }
}

impl MapState {
    /// The snapshot bytes of this state: the members, checkers and ledger
    /// sections in order, each a count followed by its entries.
    pub closed spec fn spec_snapshot_bytes(&self) -> Seq<u8> {
        spec_enc_u64(self.members@.len() as u64) + spec_enc_nodes(nodes_of(self.members@))
            + spec_enc_u64(self.checkers@.len() as u64) + spec_enc_nodes(nodes_of(self.checkers@))
            + spec_enc_u64(self.offline_checkers@.len() as u64) + spec_enc_ledger(
            entries_of(self.offline_checkers@),
        )
    }

    /// Every count and string of the state fits its eight-byte prefix.
    pub closed spec fn encodable(&self) -> bool {
        &&& nodes_encodable(nodes_of(self.members@))
        &&& nodes_encodable(nodes_of(self.checkers@))
        &&& ledger_encodable(entries_of(self.offline_checkers@))
    }

    /// Serializes the state. The same logical state always yields the
    /// same bytes.
    pub fn to_bytes(&self) -> (b: Vec<u8>)
        ensures
            b@ == self.spec_snapshot_bytes(),
            self.encodable(),
    {
        let mut out: Vec<u8> = Vec::new();
        push_u64(&mut out, self.members.len() as u64);
        push_nodes(&mut out, &self.members);
        push_u64(&mut out, self.checkers.len() as u64);
        push_nodes(&mut out, &self.checkers);
        push_u64(&mut out, self.offline_checkers.len() as u64);
        push_ledger(&mut out, &self.offline_checkers);
        proof {
            assert(out@ =~= self.spec_snapshot_bytes());
        }
        out
    }

    /// Deserializes a snapshot. Succeeds exactly on the byte sequences
    /// that parse as a whole snapshot, and the state it returns is
    /// well-formed and denotes exactly the parsed sections.
    #[verifier::rlimit(100)]
    pub fn from_bytes(b: &Vec<u8>) -> (r: Option<MapState>)
        ensures
            match r {
                Some(st) => {
                    &&& spec_parse_snapshot(b@) is Some
                    &&& st.wf()
                    &&& st@.members == MapState::spec_seed(spec_parse_snapshot(b@)->0.members)
                    &&& st@.checkers == MapState::spec_seed(spec_parse_snapshot(b@)->0.checkers)
                    &&& st@.offline_checkers == MapState::spec_ledger_map(
                        spec_parse_snapshot(b@)->0.offline_checkers,
                    )
                },
                None => spec_parse_snapshot(b@) is None,
            },
    {
        proof {
            assert(b@.skip(0) =~= b@);
        }
        match read_nodes_section(b, 0) {
            None => None,
            Some((mv, p1)) => match read_nodes_section(b, p1) {
                None => None,
                Some((cv, p2)) => match read_ledger_section(b, p2) {
                    None => None,
                    Some((ov, p3)) => {
                        if p3 != b.len() {
                            proof {
                                assert(b@.skip(p3 as int).len() > 0);
                            }
                            return None;
                        }
                        proof {
                            assert(b@.skip(p3 as int).len() == 0);
                        }
                        let st = MapState::assemble(
                            MapState::build_nodes(mv),
                            MapState::build_nodes(cv),
                            MapState::build_ledger(ov),
                        );
                        Some(st)
                    },
                },
            },
        }
    }
}

/// With consistent keys, seeding from the stored nodes denotes the same
/// mapping as the collection itself.
proof fn lemma_seed_entries(e: Seq<(String, NodeInfo)>)
    requires
        nodes_wf(e),
    ensures
        MapState::spec_seed(nodes_of(e)) == assoc_map(e),
    decreases e.len(),
{
    if e.len() > 0 {
        assert(nodes_of(e).drop_last() =~= nodes_of(e.drop_last()));
        assert(nodes_wf(e.drop_last()));
        lemma_seed_entries(e.drop_last());
        assert(nodes_of(e).last() == e.last().1@);
        assert(e.last().0@ == e.last().1@.id);
    }
}

/// Rebuilding from the stored ledger entries denotes the same mapping as
/// the collection itself.
proof fn lemma_ledger_entries(e: Seq<(String, Votes)>)
    ensures
        MapState::spec_ledger_map(entries_of(e)) == assoc_map(e),
    decreases e.len(),
{
    if e.len() > 0 {
        assert(entries_of(e).drop_last() =~= entries_of(e.drop_last()));
        lemma_ledger_entries(e.drop_last());
        assert(entries_of(e).last() == (e.last().0@, e.last().1@));
    }
}

/// Three encoded sections laid end to end parse back to themselves.
#[verifier::rlimit(100)]
proof fn lemma_sections_parse(
    ms: Seq<NodeInfoView>,
    cs: Seq<NodeInfoView>,
    os: Seq<(Seq<char>, VotesView)>,
)
    requires
        nodes_encodable(ms),
        nodes_encodable(cs),
        ledger_encodable(os),
        forall|i: int| 0 <= i < os.len() ==> no_dup(#[trigger] os[i].1.votes),
    ensures
        spec_parse_snapshot(
            (spec_enc_u64(ms.len() as u64) + spec_enc_nodes(ms)) + ((spec_enc_u64(cs.len() as u64)
                + spec_enc_nodes(cs)) + (spec_enc_u64(os.len() as u64) + spec_enc_ledger(os))),
        ) == Some(SnapshotView { members: ms, checkers: cs, offline_checkers: os }),
{
    let s1 = spec_enc_u64(ms.len() as u64) + spec_enc_nodes(ms);
    let s2 = spec_enc_u64(cs.len() as u64) + spec_enc_nodes(cs);
    let s3 = spec_enc_u64(os.len() as u64) + spec_enc_ledger(os);
    let b = s1 + (s2 + s3);
    let r1 = s2 + s3;
    let r2 = s3;
    assert(b =~= spec_enc_u64(ms.len() as u64) + (spec_enc_nodes(ms) + r1));
    lemma_nodes_section_round_trip(ms, r1);
    assert(r1 =~= spec_enc_u64(cs.len() as u64) + (spec_enc_nodes(cs) + r2));
    lemma_nodes_section_round_trip(cs, r2);
    assert(r2 =~= spec_enc_u64(os.len() as u64) + (spec_enc_ledger(os) + Seq::<u8>::empty()));
    lemma_ledger_section_round_trip(os, Seq::<u8>::empty());
}

/// Round trip: parsing the snapshot bytes of a well-formed state yields
/// sections that denote exactly the state's own members, checkers and
/// vote records. Together with the contracts of `to_bytes` and
/// `from_bytes`, persisting a state and loading what was persisted
/// restores an identical logical state.
#[verifier::rlimit(100)]
pub proof fn lemma_snapshot_round_trip(s: &MapState)
    requires
        s.wf(),
        s.encodable(),
    ensures
        spec_parse_snapshot(s.spec_snapshot_bytes()) is Some,
        ({
            let sv = spec_parse_snapshot(s.spec_snapshot_bytes())->0;
            &&& MapState::spec_seed(sv.members) == s@.members
            &&& MapState::spec_seed(sv.checkers) == s@.checkers
            &&& MapState::spec_ledger_map(sv.offline_checkers) == s@.offline_checkers
        }),
{
    let ms = nodes_of(s.members@);
    let cs = nodes_of(s.checkers@);
    let os = entries_of(s.offline_checkers@);
    s.lemma_view_fields();
    assert(forall|i: int| 0 <= i < os.len() ==> no_dup(#[trigger] os[i].1.votes));
    lemma_sections_parse(ms, cs, os);
    assert(s.spec_snapshot_bytes() =~= (spec_enc_u64(ms.len() as u64) + spec_enc_nodes(ms)) + ((
    spec_enc_u64(cs.len() as u64) + spec_enc_nodes(cs)) + (spec_enc_u64(os.len() as u64)
        + spec_enc_ledger(os))));
    lemma_seed_entries(s.members@);
    lemma_seed_entries(s.checkers@);
    lemma_ledger_entries(s.offline_checkers@);
}

} // verus!
