//! Batching: a sequence of lines is cut into consecutive groups of a fixed
//! size, the last of which may be shorter.

use crate::error::ErrorKind;
use itertools::Itertools;
use vstd::prelude::*;

verus! {

/// The number of batches that `n` lines make at `size` lines per batch: `n`
/// divided by `size`, rounded up.
pub open spec fn batch_count(n: nat, size: nat) -> nat
    recommends
        size >= 1,
{
    ((n + size - 1) / (size as int)) as nat
}

/// The number of lines in the last batch of `n` lines, where `n` is not zero:
/// the remainder of `n` by `size`, or `size` where that is zero.
pub open spec fn last_batch_len(n: nat, size: nat) -> nat
    recommends
        size >= 1,
        n >= 1,
{
    if n % size == 0 {
        size
    } else {
        n % size
    }
}

/// The batches of `lines` at `size` lines per batch: batch `i` holds the lines
/// from position `i * size` up to, and without, position `(i + 1) * size`, or
/// up to the end where the lines run out before that.
pub open spec fn batches<A>(lines: Seq<A>, size: nat) -> Seq<Seq<A>>
    recommends
        size >= 1,
{
    Seq::new(
        batch_count(lines.len(), size),
        |i: int| lines.subrange(i * size, vstd::math::min((i + 1) * size, lines.len() as int)),
    )
}

/// The batch count is `n / size` rounded up: it is the least number of
/// batches of `size` lines that hold `n` lines, and what is left for the last
/// batch is the remainder of `n` by `size`, or `size` where that is zero.
pub proof fn lemma_batch_count(n: nat, size: nat)
    requires
        size >= 1,
    ensures
        n == 0 <==> batch_count(n, size) == 0,
        batch_count(n, size) * size >= n,
        n > 0 ==> (batch_count(n, size) - 1) * size < n,
        n > 0 ==> n - (batch_count(n, size) - 1) * size == last_batch_len(n, size),
{
    let d = size as int;
    let m = n + size - 1;
    let q = m / d;
    let r = m % d;
    vstd::arithmetic::div_mod::lemma_fundamental_div_mod(m, d);
    vstd::arithmetic::div_mod::lemma_mod_bound(m, d);
    vstd::arithmetic::div_mod::lemma_div_pos_is_pos(m, d);
    assert(q * d == d * q) by (nonlinear_arith);
    assert((q - 1) * d == q * d - d) by (nonlinear_arith);
    if n == 0 {
        vstd::arithmetic::div_mod::lemma_basic_div(m, d);
    } else {
        assert(q >= 1) by {
            if q <= 0 {
                assert(q * d == 0) by (nonlinear_arith)
                    requires
                        q == 0,
                ;
            }
        }
        let nq = n as int / d;
        let nr = n as int % d;
        vstd::arithmetic::div_mod::lemma_fundamental_div_mod(n as int, d);
        vstd::arithmetic::div_mod::lemma_mod_bound(n as int, d);
        if nr == 0 {
            assert(m == nq * d + (d - 1)) by (nonlinear_arith)
                requires
                    n == d * nq + nr,
                    nr == 0,
                    m == n + d - 1,
            ;
            vstd::arithmetic::div_mod::lemma_fundamental_div_mod_converse(m, d, nq, d - 1);
        } else {
            assert(m == (nq + 1) * d + (nr - 1)) by (nonlinear_arith)
                requires
                    n == d * nq + nr,
                    m == n + d - 1,
            ;
            vstd::arithmetic::div_mod::lemma_fundamental_div_mod_converse(m, d, nq + 1, nr - 1);
        }
    }
}

/// Where batch `i` starts and ends among `n` lines.
proof fn lemma_batch_bounds(n: nat, size: nat, i: int)
    requires
        size >= 1,
        0 <= i < batch_count(n, size),
    ensures
        0 <= i * size < n,
        i + 1 < batch_count(n, size) ==> (i + 1) * size < n,
        i + 1 == batch_count(n, size) ==> (i + 1) * size >= n,
        (i + 1) * size == i * size + size,
{
    lemma_batch_count(n, size);
    let c = batch_count(n, size) as int;
    let d = size as int;
    assert((i + 1) * d == i * d + d) by (nonlinear_arith);
    assert(0 <= i * d) by (nonlinear_arith)
        requires
            0 <= i,
            d >= 1,
    ;
    assert(i * d <= (c - 1) * d) by (nonlinear_arith)
        requires
            i <= c - 1,
            d >= 1,
    ;
    if i + 1 < c {
        assert((i + 1) * d <= (c - 1) * d) by (nonlinear_arith)
            requires
                i + 1 <= c - 1,
                d >= 1,
        ;
    }
}

/// The batches of a sequence, taken from its front: nothing where there are
/// no lines, the lines themselves where they fit into one batch, and else the
/// first `size` lines followed by the batches of the rest.
pub proof fn lemma_batches_unfold<A>(lines: Seq<A>, size: nat)
    requires
        size >= 1,
    ensures
        batches(lines, size) == if lines.len() == 0 {
            Seq::<Seq<A>>::empty()
        } else if lines.len() <= size {
            seq![lines]
        } else {
            seq![lines.take(size as int)] + batches(lines.skip(size as int), size)
        },
{
    let n = lines.len();
    let d = size as int;
    let all = batches(lines, size);
    lemma_batch_count(n, size);
    if n == 0 {
        assert(all =~= Seq::<Seq<A>>::empty());
    } else if n <= size {
        assert(all.len() == 1) by {
            if all.len() >= 2 {
                assert((all.len() - 1) * d >= d) by (nonlinear_arith)
                    requires
                        all.len() - 1 >= 1,
                        d >= 1,
                ;
            }
        }
        lemma_batch_bounds(n, size, 0);
        assert(all[0] =~= lines);
        assert(all =~= seq![lines]);
    } else {
        let rest = lines.skip(d);
        let tail = batches(rest, size);
        vstd::arithmetic::div_mod::lemma_div_plus_one(n - 1, d);
        assert(all.len() == 1 + tail.len());
        lemma_batch_bounds(n, size, 0);
        assert(all[0] =~= lines.take(d));
        assert forall|i: int| 1 <= i < all.len() implies all[i] == tail[i - 1] by {
            lemma_batch_bounds(n, size, i);
            lemma_batch_bounds(rest.len(), size, i - 1);
            assert(all[i] =~= tail[i - 1]);
        }
        assert(all =~= seq![lines.take(d)] + tail);
    }
}

/// Batching loses and reorders nothing: the batches, one after the other,
/// are the lines.
proof fn lemma_batches_flatten<A>(lines: Seq<A>, size: nat)
    requires
        size >= 1,
    ensures
        batches(lines, size).flatten() == lines,
    decreases lines.len(),
{
    lemma_batches_unfold(lines, size);
    if lines.len() == 0 {
        assert(lines =~= Seq::<A>::empty());
    } else if lines.len() <= size {
        seq![lines].lemma_flatten_one_element();
    } else {
        let head = lines.take(size as int);
        let rest = lines.skip(size as int);
        lemma_batches_flatten(rest, size);
        seq![head].lemma_flatten_one_element();
        vstd::seq_lib::lemma_flatten_concat(seq![head], batches(rest, size));
        assert(head + rest =~= lines);
    }
}

/// Batching is a partition of the lines: there are `lines.len() / size`
/// batches, rounded up; none is empty; each but the last holds exactly `size`
/// lines, and the last holds the remainder of `lines.len()` by `size`, or
/// `size` lines where that is zero; and the batches, one after the other,
/// are the lines.
pub proof fn lemma_batches_partition<A>(lines: Seq<A>, size: nat)
    requires
        size >= 1,
    ensures
        batches(lines, size).len() == batch_count(lines.len(), size),
        forall|i: int|
            0 <= i < batches(lines, size).len() ==> 1 <= (#[trigger] batches(lines, size)[i]).len()
                <= size,
        forall|i: int|
            0 <= i < batches(lines, size).len() - 1 ==> (#[trigger] batches(lines, size)[i]).len()
                == size,
        lines.len() > 0 ==> batches(lines, size).last().len() == last_batch_len(
            lines.len(),
            size,
        ),
        batches(lines, size).flatten() == lines,
{
    let n = lines.len();
    let all = batches(lines, size);
    lemma_batch_count(n, size);
    assert forall|i: int| 0 <= i < all.len() implies 1 <= (#[trigger] all[i]).len() <= size && (i
        < all.len() - 1 ==> all[i].len() == size) by {
        lemma_batch_bounds(n, size, i);
    }
    if n > 0 {
        lemma_batch_bounds(n, size, all.len() - 1);
    }
    lemma_batches_flatten(lines, size);
}

/// `Itertools::chunks`, read to the end chunk by chunk: the chunks are the
/// batches of `lines` at `size` items each, in order, every item in the chunk
/// and at the place where `lines` has it. The outside function panics on a
/// size of zero, which `requires` leaves out.
#[verifier::external_body]
fn chunks(lines: Vec<String>, size: usize) -> (groups: Vec<Vec<String>>)
    requires
        size != 0,
    ensures
        groups.deep_view() == batches(lines.deep_view(), size as nat),
{
    let chunks = lines.into_iter().chunks(size);
    let mut groups = Vec::new();
    for chunk in &chunks {
        groups.push(chunk.collect());
    }
    groups
}

/// Cuts `lines` into batches of `limit` lines each. A limit of zero is
/// rejected.
pub fn chunk_lines(limit: usize, lines: Vec<String>) -> (r: Result<Vec<Vec<String>>, ErrorKind>)
    ensures
        r is Err <==> limit == 0,
        r matches Err(e) ==> e == ErrorKind::Configuration,
        r matches Ok(groups) ==> groups.deep_view() == batches(lines.deep_view(), limit as nat),
{
    if limit == 0 {
        Err(ErrorKind::Configuration)
    } else {
        Ok(chunks(lines, limit))
    }
}

/// What pushing `line` after the `pending` lines gives at `limit` lines per
/// batch: the batch that this completes, if it completes one, and the lines
/// that are pending afterwards.
pub open spec fn pushed<A>(pending: Seq<A>, line: A, limit: nat) -> (Option<Seq<A>>, Seq<A>) {
    if pending.len() + 1 >= limit {
        (Some(pending.push(line)), Seq::empty())
    } else {
        (None, pending.push(line))
    }
}

/// What the end of the input gives: the `pending` lines as a last, shorter
/// batch, if there are any.
pub open spec fn flushed<A>(pending: Seq<A>) -> Option<Seq<A>> {
    if pending.len() == 0 {
        None
    } else {
        Some(pending)
    }
}

/// The batches that come out, in order, when `lines` are pushed one by one
/// after the `pending` lines and the input then ends.
pub open spec fn streamed<A>(pending: Seq<A>, lines: Seq<A>, limit: nat) -> Seq<Seq<A>>
    decreases lines.len(),
{
    if lines.len() == 0 {
        match flushed(pending) {
            Some(batch) => seq![batch],
            None => Seq::empty(),
        }
    } else {
        let (batch, rest) = pushed(pending, lines[0], limit);
        let later = streamed(rest, lines.drop_first(), limit);
        match batch {
            Some(batch) => seq![batch] + later,
            None => later,
        }
    }
}

/// Pushing lines one by one gives the batches of all of them: those that
/// were pending, fewer than a batch, followed by those that are pushed.
pub proof fn lemma_streamed_from<A>(pending: Seq<A>, lines: Seq<A>, limit: nat)
    requires
        limit >= 1,
        pending.len() < limit,
    ensures
        streamed(pending, lines, limit) == batches(pending + lines, limit),
    decreases lines.len(),
{
    let all = pending + lines;
    lemma_batches_unfold(all, limit);
    if lines.len() == 0 {
        assert(all =~= pending);
    } else {
        let (batch, rest) = pushed(pending, lines[0], limit);
        let later = lines.drop_first();
        lemma_streamed_from(rest, later, limit);
        if batch is Some {
            assert(all.take(limit as int) =~= pending.push(lines[0]));
            assert(all.skip(limit as int) =~= later);
            assert(rest + later =~= later);
            if all.len() <= limit {
                lemma_batches_unfold(later, limit);
                assert(all =~= pending.push(lines[0]));
            }
        } else {
            assert(rest + later =~= all);
        }
    }
}

/// Grouping line by line and grouping all lines at once give the same
/// batches.
pub proof fn lemma_streamed_is_batches<A>(lines: Seq<A>, limit: nat)
    requires
        limit >= 1,
    ensures
        streamed(Seq::empty(), lines, limit) == batches(lines, limit),
{
    lemma_streamed_from(Seq::empty(), lines, limit);
    assert(Seq::<A>::empty() + lines =~= lines);
}

/// Groups lines into batches as they arrive, holding no more than the lines
/// of the batch that is being filled.
pub struct Batcher {
    limit: usize,
    pending: Vec<String>,
}

impl Batcher {
    /// The number of lines in a full batch.
    pub closed spec fn limit(self) -> nat {
        self.limit as nat
    }

    /// The lines that were pushed since the last batch came out.
    pub closed spec fn pending(self) -> Seq<Seq<char>> {
        self.pending.deep_view()
    }

    /// A batcher always holds fewer lines than make a batch.
    #[verifier::type_invariant]
    pub open spec fn wf(self) -> bool {
        self.pending().len() < self.limit()
    }

    /// A batcher for batches of `limit` lines, with no line pending. A limit
    /// of zero is rejected.
    pub fn new(limit: usize) -> (r: Result<Batcher, ErrorKind>)
        ensures
            r is Err <==> limit == 0,
            r matches Err(e) ==> e == ErrorKind::Configuration,
            r matches Ok(b) ==> b.wf() && b.limit() == limit && b.pending() == Seq::<
                Seq<char>,
            >::empty(),
    {
        if limit == 0 {
            Err(ErrorKind::Configuration)
        } else {
            let b = Batcher { limit, pending: Vec::new() };
            assert(b.pending() =~= Seq::<Seq<char>>::empty());
            Ok(b)
        }
    }

    /// Takes the next line. Where it completes a batch, the batch comes out
    /// and nothing is pending any more.
    pub fn push(&mut self, line: String) -> (batch: Option<Vec<String>>)
        ensures
            final(self).wf(),
            final(self).limit() == old(self).limit(),
            (batch.deep_view(), final(self).pending()) == pushed(
                old(self).pending(),
                line@,
                old(self).limit(),
            ),
    {
        proof {
            use_type_invariant(&*self);
        }
        let ghost before = self.pending.deep_view();
        let mut lines: Vec<String> = Vec::new();
        core::mem::swap(&mut lines, &mut self.pending);
        lines.push(line);
        assert(lines.deep_view() =~= before.push(line@));
        if lines.len() >= self.limit {
            assert(self.pending.deep_view() =~= Seq::<Seq<char>>::empty());
            Some(lines)
        } else {
            self.pending = lines;
            None
        }
    }

    /// Ends the input: the pending lines, if there are any, come out as the
    /// last batch.
    pub fn finish(&mut self) -> (batch: Option<Vec<String>>)
        ensures
            final(self).wf(),
            final(self).limit() == old(self).limit(),
            final(self).pending() == Seq::<Seq<char>>::empty(),
            batch.deep_view() == flushed(old(self).pending()),
    {
        proof {
            use_type_invariant(&*self);
        }
        if self.pending.len() == 0 {
            assert(self.pending.deep_view() =~= Seq::<Seq<char>>::empty());
            None
        } else {
            let mut batch: Vec<String> = Vec::new();
            core::mem::swap(&mut batch, &mut self.pending);
            assert(self.pending.deep_view() =~= Seq::<Seq<char>>::empty());
            Some(batch)
        }
    }
}

} // verus!
