//! Planning and aggregation for chunked parallel bulk writes.
//!
//! The backing wide-column store caps how many statements one grouped
//! write may carry, so a record collection is split into fixed-size
//! chunks, each chunk is issued as one grouped write, and the per-chunk
//! outcomes are folded into a single result. Splitting and folding are
//! verified here; issuing the writes is the caller's I/O.

use vstd::prelude::*;

verus! {

/// Chunk size that keeps one grouped write under the store's
/// maximum-statements-per-batch limit.
pub const WRITE_CHUNK_SIZE: usize = 700;

/// Consistency level applied uniformly to every chunk of one bulk write.
#[derive(Clone, Copy, Debug, PartialEq, Eq, Structural)]
pub enum Consistency {
    Any,
    One,
    Two,
    Three,
    Quorum,
    All,
    LocalQuorum,
    EachQuorum,
    LocalOne,
}

/// The consistency level a configuration string names; every unknown
/// name falls back to `Any`.
pub open spec fn consistency_of_name(s: Seq<char>) -> Consistency {
    if s == "any"@ {
        Consistency::Any
    } else if s == "one"@ {
        Consistency::One
    } else if s == "two"@ {
        Consistency::Two
    } else if s == "three"@ {
        Consistency::Three
    } else if s == "quorum"@ {
        Consistency::Quorum
    } else if s == "all"@ {
        Consistency::All
    } else if s == "local_quorum"@ {
        Consistency::LocalQuorum
    } else if s == "each_quorum"@ {
        Consistency::EachQuorum
    } else if s == "local_one"@ {
        Consistency::LocalOne
    } else {
        Consistency::Any
    }
}

/// Parses a configured consistency name, falling back to `Any`.
pub fn consistency_from_name(name: &String) -> (c: Consistency)
    ensures
        c == consistency_of_name(name@),
{
    if *name == "any".to_owned() {
        Consistency::Any
    } else if *name == "one".to_owned() {
        Consistency::One
    } else if *name == "two".to_owned() {
        Consistency::Two
    } else if *name == "three".to_owned() {
        Consistency::Three
    } else if *name == "quorum".to_owned() {
        Consistency::Quorum
    } else if *name == "all".to_owned() {
        Consistency::All
    } else if *name == "local_quorum".to_owned() {
        Consistency::LocalQuorum
    } else if *name == "each_quorum".to_owned() {
        Consistency::EachQuorum
    } else if *name == "local_one".to_owned() {
        Consistency::LocalOne
    } else {
        Consistency::Any
    }
}

/// How many chunks of `size` records it takes to cover `n` records.
pub open spec fn chunk_count(n: int, size: int) -> int
    decreases n,
{
    if size < 1 || n <= 0 {
        0
    } else if n <= size {
        1
    } else {
        1 + chunk_count(n - size, size)
    }
}

/// `chunk_count` is the ceiling of `n / size`: covering `n` records takes
/// one grouped write per started chunk of `size` records.
pub proof fn lemma_chunk_count_is_ceil(n: int, size: int)
    requires
        0 <= n,
        1 <= size,
    ensures
        chunk_count(n, size) == (n + size - 1) / size,
    decreases n,
{
    if n <= 0 {
        assert((n + size - 1) / size == 0) by (nonlinear_arith)
            requires n == 0 && size >= 1;
    } else if n <= size {
        assert((n + size - 1) / size == 1) by (nonlinear_arith)
            requires 1 <= n <= size;
    } else {
        lemma_chunk_count_is_ceil(n - size, size);
        assert((n + size - 1) / size == 1 + (n - 1) / size) by (nonlinear_arith)
            requires n > size >= 1;
        assert((n - size + size - 1) / size == (n - 1) / size);
    }
}

/// Adding one more chunk of `tail` records after `k` full chunks makes
/// `k + 1` grouped writes.
proof fn lemma_chunk_count_step(k: int, tail: int, size: int)
    requires
        0 <= k,
        1 <= size,
        1 <= tail <= size,
    ensures
        chunk_count(k * size + tail, size) == k + 1,
    decreases k,
{
    if k > 0 {
        lemma_chunk_count_step(k - 1, tail, size);
        assert(k * size + tail - size == (k - 1) * size + tail) by (nonlinear_arith);
        assert(k * size + tail > size) by (nonlinear_arith)
            requires k >= 1 && size >= 1 && tail >= 1;
    } else {
        assert(k * size + tail == tail) by (nonlinear_arith)
            requires k == 0;
    }
}

/// The concatenation of a sequence of chunks.
pub open spec fn flatten_chunks<T>(chunks: Seq<Vec<T>>) -> Seq<T> {
    chunks.map_values(|c: Vec<T>| c@).flatten()
}

/// Splits `values` into chunks of at most `chunk_size` records, in order.
///
/// Every chunk but the last is full, the last is never empty, and the
/// chunks concatenate back to exactly the input: each record is placed in
/// exactly one chunk, so the union of the chunk write sets is the input,
/// each record once.
#[verifier::loop_isolation(false)]
pub fn chunk_records<T>(values: Vec<T>, chunk_size: usize) -> (chunks: Vec<Vec<T>>)
    requires
        1 <= chunk_size,
    ensures
        flatten_chunks(chunks@) == values@,
        chunks@.len() == chunk_count(values@.len() as int, chunk_size as int),
        forall|i: int|
            0 <= i < chunks@.len() - 1 ==> (#[trigger] chunks@[i])@.len() == chunk_size,
        forall|i: int|
            0 <= i < chunks@.len() ==> 1 <= (#[trigger] chunks@[i])@.len() <= chunk_size,
{
    let ghost orig = values@;
    let mut rest = values;
    let mut chunks: Vec<Vec<T>> = Vec::new();
    let ghost mut done: int = 0;
    while rest.len() > 0
        invariant
            0 <= done <= orig.len(),
            done == orig.len() - rest@.len(),
            rest@ == orig.subrange(done, orig.len() as int),
            flatten_chunks(chunks@) == orig.subrange(0, done),
            chunks@.len() == chunk_count(done, chunk_size as int),
            rest@.len() > 0 ==> done == chunks@.len() * chunk_size,
            forall|i: int|
                0 <= i < chunks@.len() - 1 ==> (#[trigger] chunks@[i])@.len() == chunk_size,
            rest@.len() > 0 ==> forall|i: int|
                0 <= i < chunks@.len() ==> (#[trigger] chunks@[i])@.len() == chunk_size,
            forall|i: int|
                0 <= i < chunks@.len() ==> 1 <= (#[trigger] chunks@[i])@.len() <= chunk_size,
        decreases rest@.len(),
    {
        let ghost k = chunks@.len() as int;
        let mut c: Vec<T> = Vec::new();
        while c.len() < chunk_size && rest.len() > 0
            invariant
                c@.len() <= chunk_size,
                done + c@.len() <= orig.len(),
                rest@ == orig.subrange(done + c@.len(), orig.len() as int),
                c@ == orig.subrange(done, done + c@.len()),
            decreases rest@.len(),
        {
            let x = rest.remove(0);
            assert(rest@ =~= orig.subrange(done + c@.len() + 1, orig.len() as int));
            c.push(x);
            assert(c@ =~= orig.subrange(done, done + c@.len()));
        }
        let ghost clen = c@.len() as int;
        proof {
            chunks@.map_values(|ch: Vec<T>| ch@).lemma_flatten_push(c@);
            assert(chunks@.push(c).map_values(|ch: Vec<T>| ch@)
                =~= chunks@.map_values(|ch: Vec<T>| ch@).push(c@));
            assert(orig.subrange(0, done) + orig.subrange(done, done + clen)
                =~= orig.subrange(0, done + clen));
            lemma_chunk_count_step(k, clen, chunk_size as int);
            assert((k + 1) * (chunk_size as int) == k * (chunk_size as int) + chunk_size)
                by (nonlinear_arith);
        }
        chunks.push(c);
        proof {
            done = done + clen;
        }
    }
    proof {
        assert(orig.subrange(0, done) =~= orig);
    }
    chunks
}

/// Error reported by one grouped chunk write.
#[derive(Clone, Debug, PartialEq, Eq)]
pub struct WriteError {
    pub message: String,
}

/// Holds when every outcome before position `i` is a success.
pub open spec fn all_ok_before<R, E>(s: Seq<Result<R, E>>, i: int) -> bool {
    forall|j: int| 0 <= j < i ==> (#[trigger] s[j]) is Ok
}

/// Folds per-chunk outcomes into one result: success only when every
/// chunk succeeded, otherwise the first error encountered, in chunk
/// order. On an error the caller must treat the whole collection as
/// not-guaranteed-applied, since other chunks may still have landed.
#[verifier::loop_isolation(false)]
pub fn first_error<R, E>(results: Vec<Result<R, E>>) -> (agg: Result<Vec<R>, E>)
    ensures
        agg is Ok <==> all_ok_before(results@, results@.len() as int),
        agg matches Ok(v) ==> v@.len() == results@.len() && forall|i: int|
            0 <= i < results@.len() ==> v@[i] == (#[trigger] results@[i])->Ok_0,
        agg matches Err(e) ==> exists|i: int|
            0 <= i < results@.len() && ((#[trigger] results@[i]) matches Err(e2)
                && e == e2 && all_ok_before(results@, i)),
{
    let ghost orig = results@;
    let mut rest = results;
    let mut oks: Vec<R> = Vec::new();
    let ghost mut idx: int = 0;
    while rest.len() > 0
        invariant
            0 <= idx <= orig.len(),
            idx == orig.len() - rest@.len(),
            rest@ == orig.subrange(idx, orig.len() as int),
            oks@.len() == idx,
            all_ok_before(orig, idx),
            forall|j: int| 0 <= j < idx ==> oks@[j] == (#[trigger] orig[j])->Ok_0,
        decreases rest@.len(),
    {
        let r = rest.remove(0);
        assert(rest@ =~= orig.subrange(idx + 1, orig.len() as int));
        match r {
            Ok(v) => {
                oks.push(v);
                proof {
                    idx = idx + 1;
                }
            },
            Err(e) => {
                proof {
                    assert(orig[idx] matches Err(e2) && e == e2 && all_ok_before(orig, idx));
                }
                return Err(e);
            },
        }
    }
    Ok(oks)
}

} // verus!
