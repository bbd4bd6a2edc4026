use vstd::prelude::*;

use crate::hash::{encode_row, le_bytes, le_word, push_le_bytes, row_bytes};
use crate::merkle::strs;
use crate::stark::{Commitment, Proof, Query};

verus! {

/// A query as plain values: row index, opened row, authentication path.
pub type QueryModel = (u32, Seq<u32>, Seq<Seq<u8>>);

/// A proof as plain values: the preprocessed and main commitments (root and
/// domain log size), the queries, the openings of the public rows.
pub type ProofModel = ((Seq<u8>, u32), (Seq<u8>, u32), Seq<QueryModel>, Seq<QueryModel>);

/// The plain values of a query.
pub open spec fn query_model(q: Query) -> QueryModel {
    (q.index as u32, q.row@, strs(q.path@))
}

/// The plain values of a proof with two commitments.
pub open spec fn proof_model(p: Proof) -> ProofModel {
    (
        (p.commitments@[0].root@, p.commitments@[0].domain_log_size),
        (p.commitments@[1].root@, p.commitments@[1].domain_log_size),
        p.queries@.map_values(|q: Query| query_model(q)),
        p.openings@.map_values(|q: Query| query_model(q)),
    )
}

/// Every index and length of the queries fits in a 32-bit word.
pub open spec fn queries_encodable(qs: Seq<Query>) -> bool {
    &&& qs.len() <= u32::MAX
    &&& forall|k: int| 0 <= k < qs.len() ==> {
        let q = #[trigger] qs[k];
        &&& q.index <= u32::MAX
        &&& q.row@.len() <= u32::MAX
        &&& q.path@.len() <= u32::MAX
        &&& forall|j: int| 0 <= j < q.path@.len() ==> (#[trigger] q.path@[j])@.len() <= u32::MAX
    }
}

/// Every count and index of the proof fits in a 32-bit word.
pub open spec fn encodable(p: Proof) -> bool {
    &&& p.commitments@.len() == 2
    &&& p.commitments@[0].root@.len() <= u32::MAX
    &&& p.commitments@[1].root@.len() <= u32::MAX
    &&& queries_encodable(p.queries@)
    &&& queries_encodable(p.openings@)
}

/// A byte string behind its length.
pub open spec fn enc_bytes(b: Seq<u8>) -> Seq<u8> {
    le_bytes(b.len() as u32) + b
}

/// Byte strings one after another, each behind its length.
pub open spec fn cat_nodes(ps: Seq<Seq<u8>>) -> Seq<u8>
    decreases ps.len(),
{
    if ps.len() == 0 {
        Seq::empty()
    } else {
        cat_nodes(ps.drop_last()) + enc_bytes(ps.last())
    }
}

/// A query: its index, its row behind the row's length, its path behind the
/// path's length.
pub open spec fn enc_query(q: QueryModel) -> Seq<u8> {
    le_bytes(q.0) + (le_bytes(q.1.len() as u32) + row_bytes(q.1)) + (le_bytes(q.2.len() as u32)
        + cat_nodes(q.2))
}

/// Queries one after another.
pub open spec fn cat_queries(qs: Seq<QueryModel>) -> Seq<u8>
    decreases qs.len(),
{
    if qs.len() == 0 {
        Seq::empty()
    } else {
        cat_queries(qs.drop_last()) + enc_query(qs.last())
    }
}

/// A commitment: its root behind the root's length, then its domain size.
pub open spec fn enc_commitment(c: (Seq<u8>, u32)) -> Seq<u8> {
    enc_bytes(c.0) + le_bytes(c.1)
}

/// `p` is the proof that `s` holds: two commitments, indices that fit in a
/// word, and the values that `decode_spec` reads.
pub open spec fn decoded(s: Seq<u8>, p: Proof) -> bool {
    &&& p.commitments@.len() == 2
    &&& forall|j: int| 0 <= j < p.queries@.len() ==> (#[trigger] p.queries@[j]).index <= u32::MAX
    &&& forall|j: int| 0 <= j < p.openings@.len() ==> (#[trigger] p.openings@[j]).index <= u32::MAX
    &&& decode_spec(s) == Some(proof_model(p))
}

/// The wire form of a proof: both commitments, the number of queries, the
/// queries, the number of openings, the openings.
pub open spec fn enc_proof(m: ProofModel) -> Seq<u8> {
    enc_commitment(m.0) + enc_commitment(m.1) + (le_bytes(m.2.len() as u32) + cat_queries(m.2)) + (
    le_bytes(m.3.len() as u32) + cat_queries(m.3))
}

/// Reads a word off the front of `s`.
pub open spec fn take_word(s: Seq<u8>) -> Option<(u32, Seq<u8>)> {
    if s.len() >= 4 {
        Some((le_word(s), s.skip(4)))
    } else {
        None
    }
}

/// Reads `k` words off the front of `s`.
pub open spec fn take_words(s: Seq<u8>, k: nat) -> Option<(Seq<u32>, Seq<u8>)>
    decreases k,
{
    if k == 0 {
        Some((Seq::empty(), s))
    } else {
        match take_words(s, (k - 1) as nat) {
            Some((w, r)) => match take_word(r) {
                Some((v, r2)) => Some((w.push(v), r2)),
                None => None,
            },
            None => None,
        }
    }
}

/// Reads a length-prefixed byte string off the front of `s`.
pub open spec fn take_bytes(s: Seq<u8>) -> Option<(Seq<u8>, Seq<u8>)> {
    match take_word(s) {
        Some((n, r)) => if r.len() >= n {
            Some((r.take(n as int), r.skip(n as int)))
        } else {
            None
        },
        None => None,
    }
}

/// Reads `k` length-prefixed byte strings off the front of `s`.
pub open spec fn take_nodes(s: Seq<u8>, k: nat) -> Option<(Seq<Seq<u8>>, Seq<u8>)>
    decreases k,
{
    if k == 0 {
        Some((Seq::empty(), s))
    } else {
        match take_nodes(s, (k - 1) as nat) {
            Some((ps, r)) => match take_bytes(r) {
                Some((b, r2)) => Some((ps.push(b), r2)),
                None => None,
            },
            None => None,
        }
    }
}

/// Reads a query off the front of `s`.
pub open spec fn take_query(s: Seq<u8>) -> Option<(QueryModel, Seq<u8>)> {
    match take_word(s) {
        Some((i, r1)) => match take_word(r1) {
            Some((n, r2)) => match take_words(r2, n as nat) {
                Some((row, r3)) => match take_word(r3) {
                    Some((m, r4)) => match take_nodes(r4, m as nat) {
                        Some((path, r5)) => Some(((i, row, path), r5)),
                        None => None,
                    },
                    None => None,
                },
                None => None,
            },
            None => None,
        },
        None => None,
    }
}

/// Reads `k` queries off the front of `s`.
pub open spec fn take_queries(s: Seq<u8>, k: nat) -> Option<(Seq<QueryModel>, Seq<u8>)>
    decreases k,
{
    if k == 0 {
        Some((Seq::empty(), s))
    } else {
        match take_queries(s, (k - 1) as nat) {
            Some((qs, r)) => match take_query(r) {
                Some((q, r2)) => Some((qs.push(q), r2)),
                None => None,
            },
            None => None,
        }
    }
}

/// Reads a commitment off the front of `s`.
pub open spec fn take_commitment(s: Seq<u8>) -> Option<((Seq<u8>, u32), Seq<u8>)> {
    match take_bytes(s) {
        Some((root, r)) => match take_word(r) {
            Some((log, r2)) => Some(((root, log), r2)),
            None => None,
        },
        None => None,
    }
}

/// The proof that `s` holds, with nothing left over.
pub open spec fn decode_spec(s: Seq<u8>) -> Option<ProofModel> {
    match take_commitment(s) {
        Some((c0, r1)) => match take_commitment(r1) {
            Some((c1, r2)) => match take_word(r2) {
                Some((n, r3)) => match take_queries(r3, n as nat) {
                    Some((qs, r4)) => match take_word(r4) {
                        Some((m, r5)) => match take_queries(r5, m as nat) {
                            Some((os, r6)) => if r6.len() == 0 {
                                Some((c0, c1, qs, os))
                            } else {
                                None
                            },
                            None => None,
                        },
                        None => None,
                    },
                    None => None,
                },
                None => None,
            },
            None => None,
        },
        None => None,
    }
}

/// Reading back the bytes of a word gives the word.
pub proof fn lemma_word_round_trip(v: u32, rest: Seq<u8>)
    ensures
        take_word(le_bytes(v) + rest) == Some((v, rest)),
{
    let q1 = v as int / 256;
    let q2 = q1 / 256;
    let q3 = q2 / 256;
    assert(v == 256 * q1 + v % 256);
    assert(q1 == 256 * q2 + q1 % 256);
    assert(q2 == 256 * q3 + q2 % 256);
    assert(v as int / 65536 == q2);
    assert(v as int / 16777216 == q3);
    let s = le_bytes(v) + rest;
    assert(le_word(s) == v);
    assert(s.skip(4) =~= rest);
}

pub proof fn lemma_words_round_trip(w: Seq<u32>, rest: Seq<u8>)
    ensures
        take_words(row_bytes(w) + rest, w.len()) == Some((w, rest)),
    decreases w.len(),
{
    if w.len() > 0 {
        let init = w.drop_last();
        let tail = le_bytes(w.last()) + rest;
        assert(row_bytes(w) + rest =~= row_bytes(init) + tail);
        lemma_words_round_trip(init, tail);
        lemma_word_round_trip(w.last(), rest);
        assert(init.push(w.last()) =~= w);
    }
}

pub proof fn lemma_bytes_round_trip(b: Seq<u8>, rest: Seq<u8>)
    requires
        b.len() <= u32::MAX,
    ensures
        take_bytes(enc_bytes(b) + rest) == Some((b, rest)),
{
    assert(enc_bytes(b) + rest =~= le_bytes(b.len() as u32) + (b + rest));
    lemma_word_round_trip(b.len() as u32, b + rest);
    assert((b + rest).take(b.len() as int) =~= b);
    assert((b + rest).skip(b.len() as int) =~= rest);
}

pub proof fn lemma_nodes_round_trip(ps: Seq<Seq<u8>>, rest: Seq<u8>)
    requires
        forall|j: int| 0 <= j < ps.len() ==> (#[trigger] ps[j]).len() <= u32::MAX,
    ensures
        take_nodes(cat_nodes(ps) + rest, ps.len()) == Some((ps, rest)),
    decreases ps.len(),
{
    if ps.len() > 0 {
        let init = ps.drop_last();
        let tail = enc_bytes(ps.last()) + rest;
        assert(cat_nodes(ps) + rest =~= cat_nodes(init) + tail);
        lemma_nodes_round_trip(init, tail);
        lemma_bytes_round_trip(ps.last(), rest);
        assert(init.push(ps.last()) =~= ps);
    }
}

pub proof fn lemma_query_round_trip(q: QueryModel, rest: Seq<u8>)
    requires
        q.1.len() <= u32::MAX,
        q.2.len() <= u32::MAX,
        forall|j: int| 0 <= j < q.2.len() ==> (#[trigger] q.2[j]).len() <= u32::MAX,
    ensures
        take_query(enc_query(q) + rest) == Some((q, rest)),
{
    let r4 = cat_nodes(q.2) + rest;
    let r3 = le_bytes(q.2.len() as u32) + r4;
    let r2 = row_bytes(q.1) + r3;
    let r1 = le_bytes(q.1.len() as u32) + r2;
    assert(enc_query(q) + rest =~= le_bytes(q.0) + r1);
    lemma_word_round_trip(q.0, r1);
    lemma_word_round_trip(q.1.len() as u32, r2);
    lemma_words_round_trip(q.1, r3);
    lemma_word_round_trip(q.2.len() as u32, r4);
    lemma_nodes_round_trip(q.2, rest);
}

pub proof fn lemma_queries_round_trip(qs: Seq<QueryModel>, rest: Seq<u8>)
    requires
        forall|k: int| 0 <= k < qs.len() ==> {
            &&& (#[trigger] qs[k]).1.len() <= u32::MAX
            &&& qs[k].2.len() <= u32::MAX
            &&& forall|j: int| 0 <= j < qs[k].2.len() ==> (#[trigger] qs[k].2[j]).len() <= u32::MAX
        },
    ensures
        take_queries(cat_queries(qs) + rest, qs.len()) == Some((qs, rest)),
    decreases qs.len(),
{
    if qs.len() > 0 {
        let init = qs.drop_last();
        let tail = enc_query(qs.last()) + rest;
        assert(cat_queries(qs) + rest =~= cat_queries(init) + tail);
        lemma_queries_round_trip(init, tail);
        let last = qs.last();
        assert(last == qs[qs.len() - 1]);
        lemma_query_round_trip(last, rest);
        assert(init.push(last) =~= qs);
    }
}

pub proof fn lemma_commitment_round_trip(c: (Seq<u8>, u32), rest: Seq<u8>)
    requires
        c.0.len() <= u32::MAX,
    ensures
        take_commitment(enc_commitment(c) + rest) == Some((c, rest)),
{
    assert(enc_commitment(c) + rest =~= enc_bytes(c.0) + (le_bytes(c.1) + rest));
    lemma_bytes_round_trip(c.0, le_bytes(c.1) + rest);
    lemma_word_round_trip(c.1, rest);
}

/// Decoding the wire form of a proof gives back the proof.
#[verifier::rlimit(80)]
pub proof fn lemma_codec_round_trip(p: Proof)
    requires
        encodable(p),
    ensures
        decode_spec(enc_proof(proof_model(p))) == Some(proof_model(p)),
{
    let m = proof_model(p);
    let tail2 = le_bytes(m.3.len() as u32) + cat_queries(m.3);
    let tail1 = le_bytes(m.2.len() as u32) + (cat_queries(m.2) + tail2);
    assert(enc_proof(m) =~= enc_commitment(m.0) + (enc_commitment(m.1) + tail1));
    lemma_commitment_round_trip(m.0, enc_commitment(m.1) + tail1);
    lemma_commitment_round_trip(m.1, tail1);
    lemma_word_round_trip(m.2.len() as u32, cat_queries(m.2) + tail2);
    lemma_query_models_fit(p.queries@);
    lemma_query_models_fit(p.openings@);
    lemma_queries_round_trip(m.2, tail2);
    lemma_word_round_trip(m.3.len() as u32, cat_queries(m.3));
    lemma_queries_round_trip(m.3, Seq::empty());
    assert(cat_queries(m.3) + Seq::<u8>::empty() =~= cat_queries(m.3));
}

/// The plain values of a list of queries.
pub open spec fn query_models(qs: Seq<Query>) -> Seq<QueryModel> {
    qs.map_values(|q: Query| query_model(q))
}

pub proof fn lemma_query_models_fit(qs: Seq<Query>)
    requires
        queries_encodable(qs),
    ensures
        forall|k: int| 0 <= k < qs.len() ==> {
            let m = #[trigger] query_models(qs)[k];
            &&& m.1.len() <= u32::MAX
            &&& m.2.len() <= u32::MAX
            &&& forall|j: int| 0 <= j < m.2.len() ==> (#[trigger] m.2[j]).len() <= u32::MAX
        },
{
    let ms = query_models(qs);
    assert forall|k: int| 0 <= k < qs.len() implies {
        &&& (#[trigger] ms[k]).1.len() <= u32::MAX
        &&& ms[k].2.len() <= u32::MAX
        &&& forall|j: int| 0 <= j < ms[k].2.len() ==> (#[trigger] ms[k].2[j]).len() <= u32::MAX
    } by {
        let q = qs[k];
        assert(ms[k] == query_model(q));
        assert forall|j: int| 0 <= j < ms[k].2.len() implies (#[trigger] ms[k].2[j]).len()
            <= u32::MAX by {
            assert(ms[k].2[j] == q.path@[j]@);
        }
    }
}

/// Appends `b` to `out`.
fn append(out: &mut Vec<u8>, b: &Vec<u8>)
    ensures
        final(out)@ == old(out)@ + b@,
{
    let mut j: usize = 0;
    while j < b.len()
        invariant
            j <= b@.len(),
            out@ == old(out)@ + b@.take(j as int),
        decreases b@.len() - j,
    {
        out.push(b[j]);
        j = j + 1;
        assert(out@ =~= old(out)@ + b@.take(j as int));
    }
    assert(b@.take(j as int) =~= b@);
}

/// Appends `b` behind its length.
fn put_bytes(out: &mut Vec<u8>, b: &Vec<u8>)
    requires
        b@.len() <= u32::MAX,
    ensures
        final(out)@ == old(out)@ + enc_bytes(b@),
{
    push_le_bytes(out, b.len() as u32);
    append(out, b);
    assert(final(out)@ =~= old(out)@ + enc_bytes(b@));
}

/// Appends a query in its wire form.
fn put_query(out: &mut Vec<u8>, q: &Query)
    requires
        q.index <= u32::MAX,
        q.row@.len() <= u32::MAX,
        q.path@.len() <= u32::MAX,
        forall|j: int| 0 <= j < q.path@.len() ==> (#[trigger] q.path@[j])@.len() <= u32::MAX,
    ensures
        final(out)@ == old(out)@ + enc_query(query_model(*q)),
{
    push_le_bytes(out, q.index as u32);
    push_le_bytes(out, q.row.len() as u32);
    let row = encode_row(&q.row);
    append(out, &row);
    push_le_bytes(out, q.path.len() as u32);
    let ghost before = out@;
    let mut j: usize = 0;
    while j < q.path.len()
        invariant
            j <= q.path@.len(),
            forall|i: int| 0 <= i < q.path@.len() ==> (#[trigger] q.path@[i])@.len() <= u32::MAX,
            out@ == before + cat_nodes(strs(q.path@).take(j as int)),
        decreases q.path@.len() - j,
    {
        put_bytes(out, &q.path[j]);
        proof {
            let t = strs(q.path@).take(j + 1);
            assert(t.drop_last() =~= strs(q.path@).take(j as int));
        }
        j = j + 1;
    }
    assert(strs(q.path@).take(j as int) =~= strs(q.path@));
    assert(final(out)@ =~= old(out)@ + enc_query(query_model(*q)));
}

/// Appends the number of queries, then the queries.
fn put_queries(out: &mut Vec<u8>, qs: &Vec<Query>)
    requires
        queries_encodable(qs@),
    ensures
        final(out)@ == old(out)@ + (le_bytes(qs@.len() as u32) + cat_queries(
            qs@.map_values(|q: Query| query_model(q)),
        )),
{
    push_le_bytes(out, qs.len() as u32);
    let ghost before = out@;
    let ghost ms = qs@.map_values(|q: Query| query_model(q));
    let mut k: usize = 0;
    while k < qs.len()
        invariant
            queries_encodable(qs@),
            ms == qs@.map_values(|q: Query| query_model(q)),
            k <= qs@.len(),
            out@ == before + cat_queries(ms.take(k as int)),
            before == old(out)@ + le_bytes(qs@.len() as u32),
        decreases qs@.len() - k,
    {
        let q = &qs[k];
        assert(q == qs@[k as int]);
        put_query(out, q);
        proof {
            assert(ms.take(k + 1).drop_last() =~= ms.take(k as int));
            assert(ms.take(k + 1).last() == query_model(*q));
        }
        k = k + 1;
    }
    assert(ms.take(k as int) =~= ms);
    assert(out@ =~= old(out)@ + (le_bytes(qs@.len() as u32) + cat_queries(ms)));
}

/// Whether every index and length of the queries fits in a word.
fn queries_fit(qs: &Vec<Query>) -> (r: bool)
    ensures
        r == queries_encodable(qs@),
{
    if qs.len() > u32::MAX as usize {
        return false;
    }
    let mut k: usize = 0;
    while k < qs.len()
        invariant
            qs@.len() <= u32::MAX,
            k <= qs@.len(),
            forall|i: int| 0 <= i < k ==> {
                let q = #[trigger] qs@[i];
                &&& q.index <= u32::MAX
                &&& q.row@.len() <= u32::MAX
                &&& q.path@.len() <= u32::MAX
                &&& forall|j: int| 0 <= j < q.path@.len() ==> (#[trigger] q.path@[j])@.len() <= u32::MAX
            },
        decreases qs@.len() - k,
    {
        let q = &qs[k];
        if q.index > u32::MAX as usize || q.row.len() > u32::MAX as usize || q.path.len()
            > u32::MAX as usize {
            return false;
        }
        let mut j: usize = 0;
        while j < q.path.len()
            invariant
                k < qs@.len() <= u32::MAX,
                q == qs@[k as int],
                q.index <= u32::MAX,
                q.row@.len() <= u32::MAX,
                q.path@.len() <= u32::MAX,
                j <= q.path@.len(),
                forall|i: int| 0 <= i < j ==> (#[trigger] q.path@[i])@.len() <= u32::MAX,
            decreases q.path@.len() - j,
        {
            if q.path[j].len() > u32::MAX as usize {
                assert(q.path@[j as int]@.len() > u32::MAX);
                return false;
            }
            j = j + 1;
        }
        k = k + 1;
    }
    true
}

/// The wire form of a proof, if it has two commitments and every index and
/// length fits in a 32-bit word.
pub fn encode_proof(p: &Proof) -> (r: Option<Vec<u8>>)
    ensures
        r is Some <==> encodable(*p),
        r matches Some(bytes) ==> bytes@ == enc_proof(proof_model(*p)),
{
    if p.commitments.len() != 2 || p.commitments[0].root.len() > u32::MAX as usize
        || p.commitments[1].root.len() > u32::MAX as usize || !queries_fit(&p.queries)
        || !queries_fit(&p.openings) {
        return None;
    }
    let mut out: Vec<u8> = Vec::new();
    put_bytes(&mut out, &p.commitments[0].root);
    push_le_bytes(&mut out, p.commitments[0].domain_log_size);
    put_bytes(&mut out, &p.commitments[1].root);
    push_le_bytes(&mut out, p.commitments[1].domain_log_size);
    put_queries(&mut out, &p.queries);
    put_queries(&mut out, &p.openings);
    assert(out@ =~= enc_proof(proof_model(*p)));
    Some(out)
}

/// Reads the word at `pos`.
fn get_word(buf: &Vec<u8>, pos: usize) -> (r: Option<(u32, usize)>)
    requires
        pos <= buf@.len(),
    ensures
        r is None <==> take_word(buf@.skip(pos as int)) is None,
        r matches Some((v, np)) ==> np <= buf@.len() && take_word(buf@.skip(pos as int)) == Some(
            (v, buf@.skip(np as int)),
        ),
{
    if buf.len() - pos < 4 {
        return None;
    }
    let w: u64 = buf[pos] as u64 + 256 * (buf[pos + 1] as u64) + 65536 * (buf[pos + 2] as u64)
        + 16777216 * (buf[pos + 3] as u64);
    assert(buf@.skip(pos as int).skip(4) =~= buf@.skip(pos + 4));
    Some((w as u32, pos + 4))
}

/// Reads the length-prefixed byte string at `pos`.
fn get_bytes(buf: &Vec<u8>, pos: usize) -> (r: Option<(Vec<u8>, usize)>)
    requires
        pos <= buf@.len(),
    ensures
        r is None <==> take_bytes(buf@.skip(pos as int)) is None,
        r matches Some((b, np)) ==> np <= buf@.len() && take_bytes(buf@.skip(pos as int)) == Some(
            (b@, buf@.skip(np as int)),
        ),
{
    let (n, body_at) = match get_word(buf, pos) {
        Some(x) => x,
        None => {
            return None;
        },
    };
    if buf.len() - body_at < n as usize {
        return None;
    }
    let end = body_at + n as usize;
    let mut b: Vec<u8> = Vec::new();
    let mut j: usize = body_at;
    while j < end
        invariant
            body_at <= j <= end <= buf@.len(),
            b@ == buf@.subrange(body_at as int, j as int),
        decreases end - j,
    {
        b.push(buf[j]);
        j = j + 1;
        assert(b@ =~= buf@.subrange(body_at as int, j as int));
    }
    assert(buf@.skip(body_at as int).take(n as int) =~= b@);
    assert(buf@.skip(body_at as int).skip(n as int) =~= buf@.skip(end as int));
    Some((b, end))
}

pub proof fn lemma_take_words_none(s: Seq<u8>, i: nat, k: nat)
    requires
        i <= k,
        take_words(s, i) is None,
    ensures
        take_words(s, k) is None,
    decreases k,
{
    if i < k {
        lemma_take_words_none(s, i, (k - 1) as nat);
    }
}

pub proof fn lemma_take_nodes_none(s: Seq<u8>, i: nat, k: nat)
    requires
        i <= k,
        take_nodes(s, i) is None,
    ensures
        take_nodes(s, k) is None,
    decreases k,
{
    if i < k {
        lemma_take_nodes_none(s, i, (k - 1) as nat);
    }
}

pub proof fn lemma_take_queries_none(s: Seq<u8>, i: nat, k: nat)
    requires
        i <= k,
        take_queries(s, i) is None,
    ensures
        take_queries(s, k) is None,
    decreases k,
{
    if i < k {
        lemma_take_queries_none(s, i, (k - 1) as nat);
    }
}

/// Reads `k` words at `pos`.
fn get_words(buf: &Vec<u8>, pos: usize, k: u32) -> (r: Option<(Vec<u32>, usize)>)
    requires
        pos <= buf@.len(),
    ensures
        r is None <==> take_words(buf@.skip(pos as int), k as nat) is None,
        r matches Some((w, np)) ==> np <= buf@.len() && take_words(buf@.skip(pos as int), k as nat)
            == Some((w@, buf@.skip(np as int))),
{
    let ghost s = buf@.skip(pos as int);
    let mut w: Vec<u32> = Vec::new();
    let mut cur: usize = pos;
    let mut i: u32 = 0;
    while i < k
        invariant
            i <= k,
            cur <= buf@.len(),
            s == buf@.skip(pos as int),
            take_words(s, i as nat) == Some((w@, buf@.skip(cur as int))),
        decreases k - i,
    {
        match get_word(buf, cur) {
            Some((v, np)) => {
                w.push(v);
                cur = np;
            },
            None => {
                proof {
                    lemma_take_words_none(s, (i + 1) as nat, k as nat);
                }
                return None;
            },
        }
        i = i + 1;
    }
    Some((w, cur))
}

/// Reads `k` length-prefixed byte strings at `pos`.
fn get_nodes(buf: &Vec<u8>, pos: usize, k: u32) -> (r: Option<(Vec<Vec<u8>>, usize)>)
    requires
        pos <= buf@.len(),
    ensures
        r is None <==> take_nodes(buf@.skip(pos as int), k as nat) is None,
        r matches Some((ps, np)) ==> np <= buf@.len() && take_nodes(buf@.skip(pos as int), k as nat)
            == Some((strs(ps@), buf@.skip(np as int))),
{
    let ghost s = buf@.skip(pos as int);
    let mut ps: Vec<Vec<u8>> = Vec::new();
    let mut cur: usize = pos;
    let mut i: u32 = 0;
    while i < k
        invariant
            i <= k,
            cur <= buf@.len(),
            s == buf@.skip(pos as int),
            take_nodes(s, i as nat) == Some((strs(ps@), buf@.skip(cur as int))),
        decreases k - i,
    {
        match get_bytes(buf, cur) {
            Some((b, np)) => {
                let ghost old_ps = ps@;
                ps.push(b);
                assert(strs(ps@) =~= strs(old_ps).push(b@));
                cur = np;
            },
            None => {
                proof {
                    lemma_take_nodes_none(s, (i + 1) as nat, k as nat);
                }
                return None;
            },
        }
        i = i + 1;
    }
    Some((ps, cur))
}

/// Reads the query at `pos`.
fn get_query(buf: &Vec<u8>, pos: usize) -> (r: Option<(Query, usize)>)
    requires
        pos <= buf@.len(),
    ensures
        r is None <==> take_query(buf@.skip(pos as int)) is None,
        r matches Some((q, np)) ==> np <= buf@.len() && q.index <= u32::MAX && take_query(
            buf@.skip(pos as int),
        ) == Some((query_model(q), buf@.skip(np as int))),
{
    let (i, at_len) = match get_word(buf, pos) {
        Some(x) => x,
        None => {
            return None;
        },
    };
    let (n, at_row) = match get_word(buf, at_len) {
        Some(x) => x,
        None => {
            return None;
        },
    };
    let (row, at_count) = match get_words(buf, at_row, n) {
        Some(x) => x,
        None => {
            return None;
        },
    };
    let (m, at_path) = match get_word(buf, at_count) {
        Some(x) => x,
        None => {
            return None;
        },
    };
    let (path, end) = match get_nodes(buf, at_path, m) {
        Some(x) => x,
        None => {
            return None;
        },
    };
    Some((Query { index: i as usize, row, path }, end))
}

/// Reads `k` queries at `pos`.
fn get_queries(buf: &Vec<u8>, pos: usize, k: u32) -> (r: Option<(Vec<Query>, usize)>)
    requires
        pos <= buf@.len(),
    ensures
        r is None <==> take_queries(buf@.skip(pos as int), k as nat) is None,
        r matches Some((qs, np)) ==> np <= buf@.len() && take_queries(
            buf@.skip(pos as int),
            k as nat,
        ) == Some((qs@.map_values(|q: Query| query_model(q)), buf@.skip(np as int))),
        r matches Some((qs, np)) ==> forall|j: int| 0 <= j < qs@.len() ==> (#[trigger] qs@[j]).index
            <= u32::MAX,
{
    let ghost s = buf@.skip(pos as int);
    let mut qs: Vec<Query> = Vec::new();
    let mut cur: usize = pos;
    let mut i: u32 = 0;
    while i < k
        invariant
            i <= k,
            cur <= buf@.len(),
            s == buf@.skip(pos as int),
            take_queries(s, i as nat) == Some(
                (qs@.map_values(|q: Query| query_model(q)), buf@.skip(cur as int)),
            ),
            forall|j: int| 0 <= j < qs@.len() ==> (#[trigger] qs@[j]).index <= u32::MAX,
        decreases k - i,
    {
        match get_query(buf, cur) {
            Some((q, np)) => {
                let ghost old_qs = qs@;
                qs.push(q);
                assert(qs@.map_values(|q: Query| query_model(q)) =~= old_qs.map_values(
                    |q: Query| query_model(q),
                ).push(query_model(q)));
                cur = np;
            },
            None => {
                proof {
                    lemma_take_queries_none(s, (i + 1) as nat, k as nat);
                }
                return None;
            },
        }
        i = i + 1;
    }
    Some((qs, cur))
}

/// Reads the commitment at `pos`.
fn get_commitment(buf: &Vec<u8>, pos: usize) -> (r: Option<(Commitment, usize)>)
    requires
        pos <= buf@.len(),
    ensures
        r is None <==> take_commitment(buf@.skip(pos as int)) is None,
        r matches Some((c, np)) ==> np <= buf@.len() && take_commitment(buf@.skip(pos as int))
            == Some(((c.root@, c.domain_log_size), buf@.skip(np as int))),
{
    let (root, at_log) = match get_bytes(buf, pos) {
        Some(x) => x,
        None => {
            return None;
        },
    };
    let (log, end) = match get_word(buf, at_log) {
        Some(x) => x,
        None => {
            return None;
        },
    };
    Some((Commitment { root, domain_log_size: log }, end))
}

/// The proof held by `buf`, which must hold nothing else.
pub fn decode_proof(buf: &Vec<u8>) -> (r: Option<Proof>)
    ensures
        r is None <==> decode_spec(buf@) is None,
        r matches Some(p) ==> decoded(buf@, p),
{
    assert(buf@.skip(0) =~= buf@);
    let (c0, at_main) = match get_commitment(buf, 0) {
        Some(x) => x,
        None => {
            return None;
        },
    };
    let (c1, at_count) = match get_commitment(buf, at_main) {
        Some(x) => x,
        None => {
            return None;
        },
    };
    let (n, at_queries) = match get_word(buf, at_count) {
        Some(x) => x,
        None => {
            return None;
        },
    };
    let (queries, at_open_count) = match get_queries(buf, at_queries, n) {
        Some(x) => x,
        None => {
            return None;
        },
    };
    let (m, at_openings) = match get_word(buf, at_open_count) {
        Some(x) => x,
        None => {
            return None;
        },
    };
    let (openings, end) = match get_queries(buf, at_openings, m) {
        Some(x) => x,
        None => {
            return None;
        },
    };
    if end != buf.len() {
        return None;
    }
    let mut commitments: Vec<Commitment> = Vec::new();
    commitments.push(c0);
    commitments.push(c1);
    let p = Proof { commitments, queries, openings };
    assert(p.queries@.map_values(|q: Query| query_model(q)) == queries@.map_values(
        |q: Query| query_model(q),
    ));
    assert(p.openings@.map_values(|q: Query| query_model(q)) == openings@.map_values(
        |q: Query| query_model(q),
    ));
    Some(p)
}

} // verus!
