//! The dispatcher: a fixed, ordered collection of mailboxes and a rotating
//! cursor that assigns each incoming item to the next shard in round-robin
//! order, plus the dispatcher-wide delivery laws.

use vstd::prelude::*;
use crate::mailbox::DrainStep;
use crate::mailbox::Mailbox;

verus! {

/// The items of `input` that round-robin dispatch over `s` shards routes to
/// shard `i`: the items at positions congruent to `i` modulo `s`, in order.
pub open spec fn shard_of(input: Seq<Seq<char>>, s: int, i: int) -> Seq<Seq<char>>
    decreases input.len(),
{
    if input.len() == 0 {
        Seq::empty()
    } else if (input.len() - 1) % s == i {
        shard_of(input.drop_last(), s, i).push(input.last())
    } else {
        shard_of(input.drop_last(), s, i)
    }
}

/// How many of the first `n` round-robin assignments over `s` shards fall on
/// shard `i`: assignment `k` goes to shard `k % s`.
pub open spec fn rr_count(n: int, s: int, i: int) -> int
    decreases n,
{
    if n <= 0 {
        0
    } else {
        rr_count(n - 1, s, i) + if (n - 1) % s == i {
            1int
        } else {
            0int
        }
    }
}

/// `shard_of` routes to shard `i` exactly its round-robin share of the input.
proof fn lemma_shard_of_len(input: Seq<Seq<char>>, s: int, i: int)
    requires
        1 <= s,
        0 <= i < s,
    ensures
        shard_of(input, s, i).len() == rr_count(input.len() as int, s, i),
    decreases input.len(),
{
    if input.len() > 0 {
        lemma_shard_of_len(input.drop_last(), s, i);
    }
}

/// The closed form of the round-robin share: of `n` items dealt over `s`
/// shards, shard `i` receives exactly `⌈(n − i) / s⌉`, written here as
/// `(n − i − 1) / s + 1` when `n > i` and `0` otherwise.
pub proof fn lemma_rr_count_closed(n: int, s: int, i: int)
    requires
        0 <= n,
        1 <= s,
        0 <= i < s,
    ensures
        rr_count(n, s, i) == if n <= i {
            0int
        } else {
            (n - i - 1) / s + 1
        },
    decreases n,
{
    if n > 0 {
        lemma_rr_count_closed(n - 1, s, i);
        if n - 1 <= i {
            vstd::arithmetic::div_mod::lemma_small_mod((n - 1) as nat, s as nat);
            if n - 1 == i {
                vstd::arithmetic::div_mod::lemma_fundamental_div_mod_converse(0, s, 0, 0);
            }
        } else {
            let m = n - i - 1;
            vstd::arithmetic::div_mod::lemma_fundamental_div_mod(m - 1, s);
            vstd::arithmetic::div_mod::lemma_mod_bound(m - 1, s);
            let q = (m - 1) / s;
            let r = (m - 1) % s;
            if r + 1 == s {
                assert(m == (q + 1) * s + 0) by (nonlinear_arith)
                    requires
                        m - 1 == s * q + r,
                        r + 1 == s,
                ;
                vstd::arithmetic::div_mod::lemma_fundamental_div_mod_converse(m, s, q + 1, 0);
                assert(n - 1 == (q + 1) * s + i) by (nonlinear_arith)
                    requires
                        m - 1 == s * q + r,
                        r + 1 == s,
                        m == n - i - 1,
                ;
                vstd::arithmetic::div_mod::lemma_fundamental_div_mod_converse(n - 1, s, q + 1, i);
            } else {
                assert(m == q * s + (r + 1)) by (nonlinear_arith)
                    requires
                        m - 1 == s * q + r,
                ;
                vstd::arithmetic::div_mod::lemma_fundamental_div_mod_converse(m, s, q, r + 1);
                if r + 1 + i < s {
                    assert(n - 1 == q * s + (r + 1 + i)) by (nonlinear_arith)
                        requires
                            m == q * s + (r + 1),
                            m == n - i - 1,
                    ;
                    vstd::arithmetic::div_mod::lemma_fundamental_div_mod_converse(
                        n - 1,
                        s,
                        q,
                        r + 1 + i,
                    );
                } else {
                    assert(n - 1 == (q + 1) * s + (r + 1 + i - s)) by (nonlinear_arith)
                        requires
                            m == q * s + (r + 1),
                            m == n - i - 1,
                    ;
                    vstd::arithmetic::div_mod::lemma_fundamental_div_mod_converse(
                        n - 1,
                        s,
                        q + 1,
                        r + 1 + i - s,
                    );
                }
            }
        }
    }
}

/// Shard `i` holds its `j`-th item exactly when position `j * s + i` of the
/// input exists: round-robin dispatch is a bijection between input positions
/// and (shard, offset) pairs.
pub proof fn lemma_rr_count_iff(n: int, s: int, i: int, j: int)
    requires
        0 <= n,
        1 <= s,
        0 <= i < s,
        0 <= j,
    ensures
        (j < rr_count(n, s, i)) == (j * s + i < n),
{
    lemma_rr_count_closed(n, s, i);
    if n <= i {
        assert(j * s + i >= i) by (nonlinear_arith)
            requires
                0 <= j,
                1 <= s,
        ;
    } else {
        let a = n - i - 1;
        vstd::arithmetic::div_mod::lemma_fundamental_div_mod(a, s);
        vstd::arithmetic::div_mod::lemma_mod_bound(a, s);
        assert((j <= a / s) == (j * s <= a)) by (nonlinear_arith)
            requires
                a == s * (a / s) + a % s,
                0 <= a % s < s,
                0 <= j,
                1 <= s,
        ;
    }
}

/// The `j`-th item of shard `i` is the input item at position `j * s + i`.
pub proof fn lemma_shard_of_index(input: Seq<Seq<char>>, s: int, i: int, j: int)
    requires
        1 <= s,
        0 <= i < s,
        0 <= j,
        j * s + i < input.len(),
    ensures
        j < shard_of(input, s, i).len(),
        shard_of(input, s, i)[j] == input[j * s + i],
    decreases input.len(),
{
    let n = input.len() as int;
    lemma_shard_of_len(input, s, i);
    lemma_shard_of_len(input.drop_last(), s, i);
    lemma_rr_count_iff(n, s, i, j);
    lemma_rr_count_iff(n - 1, s, i, j);
    if (n - 1) % s == i {
        if j * s + i == n - 1 {
            assert(j >= rr_count(n - 1, s, i));
            assert(shard_of(input, s, i)[j] == input.last());
        } else {
            lemma_shard_of_index(input.drop_last(), s, i, j);
        }
    } else {
        if j * s + i == n - 1 {
            vstd::arithmetic::div_mod::lemma_fundamental_div_mod_converse(n - 1, s, j, i);
            assert(false);
        }
        lemma_shard_of_index(input.drop_last(), s, i, j);
    }
}

/// The dispatcher. `actors` is fixed at construction; `next_index` rotates
/// over it; `log` records (the views of) every item ever submitted, in order.
pub struct Dispatcher {
    actors: Vec<Mailbox>,
    next_index: usize,
    log: Ghost<Seq<Seq<char>>>,
}

impl Dispatcher {
    /// Every item ever submitted to the dispatcher, in order.
    pub closed spec fn input(self) -> Seq<Seq<char>> {
        self.log@
    }

    /// The number of shards, fixed at construction.
    pub closed spec fn shard_count(self) -> int {
        self.actors@.len() as int
    }

    /// The mailbox of shard `i`.
    pub closed spec fn shard(self, i: int) -> Mailbox {
        self.actors@[i]
    }

    /// The rotating cursor: the shard the next item will be routed to.
    pub closed spec fn cursor(self) -> int {
        self.next_index as int
    }

    /// Well-formedness: at least one shard; the cursor is where round-robin
    /// over the input so far leaves it; every shard satisfies its own
    /// invariant and has been handed exactly its round-robin share of the
    /// input, in arrival order.
    pub open spec fn wf(self) -> bool {
        &&& self.shard_count() >= 1
        &&& self.cursor() == self.input().len() as int % self.shard_count()
        &&& forall|i: int| 0 <= i < self.shard_count() ==> (#[trigger] self.shard(i)).wf()
        &&& forall|i: int|
            0 <= i < self.shard_count() ==> (#[trigger] self.shard(i)).submitted() == shard_of(
                self.input(),
                self.shard_count(),
                i,
            )
    }

    /// A fresh dispatcher with `shards` idle, empty mailboxes.
    pub fn new(shards: usize) -> (d: Dispatcher)
        requires
            shards >= 1,
        ensures
            d.wf(),
            d.shard_count() == shards,
            d.input() =~= Seq::<Seq<char>>::empty(),
            forall|i: int|
                0 <= i < shards ==> !(#[trigger] d.shard(i)).is_scheduled() && d.shard(
                    i,
                ).drained() =~= Seq::<Seq<char>>::empty() && d.shard(i).pending() =~= Seq::<
                    Seq<char>,
                >::empty(),
    {
        let mut actors: Vec<Mailbox> = Vec::new();
        let mut k: usize = 0;
        while k < shards
            invariant
                k <= shards,
                actors@.len() == k,
                forall|i: int|
                    0 <= i < k ==> !(#[trigger] actors@[i]).is_scheduled() && actors@[i].drained()
                        =~= Seq::<Seq<char>>::empty() && actors@[i].pending() =~= Seq::<
                        Seq<char>,
                    >::empty(),
            decreases shards - k,
        {
            actors.push(Mailbox::new());
            k = k + 1;
        }
        let d = Dispatcher { actors, next_index: 0, log: Ghost(Seq::empty()) };
        proof {
            vstd::arithmetic::div_mod::lemma_fundamental_div_mod_converse(
                0,
                shards as int,
                0,
                0,
            );
            assert forall|i: int| 0 <= i < d.shard_count() implies (#[trigger] d.shard(
                i,
            )).submitted() == shard_of(d.input(), d.shard_count(), i) by {
                assert(d.shard(i).submitted() =~= Seq::<Seq<char>>::empty());
                assert(shard_of(d.input(), d.shard_count(), i) =~= Seq::<Seq<char>>::empty());
            }
        }
        d
    }

    /// The number of shards.
    pub fn shards(&self) -> (s: usize)
        ensures
            s == self.shard_count(),
    {
        self.actors.len()
    }

    /// Route `item` to the shard under the cursor, enqueue it there, and
    /// advance the cursor by one, wrapping at the shard count. Returns the
    /// chosen shard index and whether the caller now owes the shared worker
    /// pool a drain task for that shard — true exactly when the shard was
    /// idle before the call.
    pub fn submit(&mut self, item: String) -> (r: (usize, bool))
        requires
            old(self).wf(),
        ensures
            final(self).wf(),
            final(self).shard_count() == old(self).shard_count(),
            final(self).input() == old(self).input().push(item@),
            r.0 == old(self).cursor(),
            final(self).shard(r.0 as int).pending() == old(self).shard(
                r.0 as int,
            ).pending().push(item@),
            final(self).shard(r.0 as int).drained() == old(self).shard(r.0 as int).drained(),
            final(self).shard(r.0 as int).is_scheduled(),
            r.1 == !old(self).shard(r.0 as int).is_scheduled(),
            forall|j: int|
                0 <= j < old(self).shard_count() && j != r.0 as int ==> final(self).shard(j)
                    == old(self).shard(j),
    {
        proof {
            vstd::arithmetic::div_mod::lemma_mod_bound(
                old(self).input().len() as int,
                old(self).shard_count(),
            );
        }
        let k = self.next_index;
        let a = &mut self.actors[k];
        let owes_task = a.enqueue(item);
        let s = self.actors.len();
        self.next_index = if k + 1 == s {
            0
        } else {
            k + 1
        };
        self.log = Ghost(self.log@.push(item@));
        proof {
            let n = old(self).input().len() as int;
            let sc = old(self).shard_count();
            vstd::arithmetic::div_mod::lemma_fundamental_div_mod(n, sc);
            if k + 1 == s {
                assert(n + 1 == (n / sc + 1) * sc) by (nonlinear_arith)
                    requires
                        n == sc * (n / sc) + n % sc,
                        n % sc == sc - 1,
                ;
                vstd::arithmetic::div_mod::lemma_fundamental_div_mod_converse(
                    n + 1,
                    sc,
                    n / sc + 1,
                    0,
                );
            } else {
                assert(n + 1 == (n / sc) * sc + (n % sc + 1)) by (nonlinear_arith)
                    requires
                        n == sc * (n / sc) + n % sc,
                ;
                vstd::arithmetic::div_mod::lemma_fundamental_div_mod_converse(
                    n + 1,
                    sc,
                    n / sc,
                    n % sc + 1,
                );
            }
            assert(self.input().drop_last() =~= old(self).input());
            assert forall|i: int| 0 <= i < sc implies (#[trigger] self.shard(i)).wf() by {
                if i != k as int {
                    assert(self.shard(i) == old(self).shard(i));
                    assert(old(self).shard(i).wf());
                }
            }
            assert forall|i: int| 0 <= i < sc implies (#[trigger] self.shard(i)).submitted()
                == shard_of(self.input(), sc, i) by {
                assert(old(self).shard(i).submitted() == shard_of(old(self).input(), sc, i));
                if i == k as int {
                    assert(self.shard(i).submitted() == old(self).shard(i).submitted().push(
                        item@,
                    ));
                    assert(shard_of(self.input(), sc, i) == shard_of(
                        old(self).input(),
                        sc,
                        i,
                    ).push(item@));
                } else {
                    assert(shard_of(self.input(), sc, i) == shard_of(old(self).input(), sc, i));
                    assert(self.shard(i) == old(self).shard(i));
                }
            }
        }
        (k, owes_task)
    }

    /// One atomic step of the drain task for shard `i`, as `Mailbox::drain_step`.
    pub fn drain_step(&mut self, i: usize) -> (step: DrainStep)
        requires
            old(self).wf(),
            i < old(self).shard_count(),
            old(self).shard(i as int).is_scheduled(),
        ensures
            final(self).wf(),
            final(self).shard_count() == old(self).shard_count(),
            final(self).input() == old(self).input(),
            final(self).shard(i as int).submitted() == old(self).shard(i as int).submitted(),
            forall|j: int|
                0 <= j < old(self).shard_count() && j != i as int ==> final(self).shard(j)
                    == old(self).shard(j),
            match step {
                DrainStep::Took(item) => {
                    &&& old(self).shard(i as int).pending().len() > 0
                    &&& item@ == old(self).shard(i as int).pending()[0]
                    &&& final(self).shard(i as int).pending() == old(self).shard(
                        i as int,
                    ).pending().drop_first()
                    &&& final(self).shard(i as int).drained() == old(self).shard(
                        i as int,
                    ).drained().push(item@)
                    &&& final(self).shard(i as int).is_scheduled()
                },
                DrainStep::WentIdle => {
                    &&& old(self).shard(i as int).pending().len() == 0
                    &&& final(self).shard(i as int).pending() == old(self).shard(
                        i as int,
                    ).pending()
                    &&& final(self).shard(i as int).drained() == old(self).shard(
                        i as int,
                    ).drained()
                    &&& !final(self).shard(i as int).is_scheduled()
                },
            },
    {
        let a = &mut self.actors[i];
        let step = a.drain_step();
        proof {
            let sc = old(self).shard_count();
            assert forall|j: int| 0 <= j < sc implies (#[trigger] self.shard(j)).wf() by {
                if j != i as int {
                    assert(self.shard(j) == old(self).shard(j));
                    assert(old(self).shard(j).wf());
                }
            }
            assert forall|j: int| 0 <= j < sc implies (#[trigger] self.shard(j)).submitted()
                == shard_of(self.input(), sc, j) by {
                assert(old(self).shard(j).submitted() == shard_of(old(self).input(), sc, j));
                if j == i as int {
                    assert(self.shard(j).submitted() == old(self).shard(j).submitted());
                } else {
                    assert(self.shard(j) == old(self).shard(j));
                }
            }
        }
        step
    }

    /// True while a drain task is submitted or running for shard `i`.
    pub fn shard_scheduled(&self, i: usize) -> (b: bool)
        requires
            i < self.shard_count(),
        ensures
            b == self.shard(i as int).is_scheduled(),
    {
        self.actors[i].scheduled()
    }

    /// True when shard `i` has fully quiesced: nothing pending, no drain
    /// task submitted or running. When it holds, everything routed to the
    /// shard has been handed out for processing.
    pub fn shard_quiescent(&self, i: usize) -> (q: bool)
        requires
            i < self.shard_count(),
        ensures
            q == (self.shard(i as int).pending().len() == 0 && !self.shard(
                i as int,
            ).is_scheduled()),
            q ==> self.shard(i as int).drained() == self.shard(i as int).submitted(),
    {
        self.actors[i].is_quiescent()
    }

    /// True when every shard has quiesced. `shutdown` in the surrounding
    /// program blocks until this holds; producers must have stopped first.
    pub fn all_quiescent(&self) -> (q: bool)
        ensures
            q == (forall|i: int|
                0 <= i < self.shard_count() ==> (#[trigger] self.shard(i)).pending().len() == 0
                    && !self.shard(i).is_scheduled()),
    {
        let mut k: usize = 0;
        while k < self.actors.len()
            invariant
                k <= self.actors@.len(),
                forall|i: int|
                    0 <= i < k ==> (#[trigger] self.shard(i)).pending().len() == 0 && !self.shard(
                        i,
                    ).is_scheduled(),
            decreases self.actors@.len() - k,
        {
            if !self.actors[k].is_quiescent() {
                proof {
                    assert(!(self.shard(k as int).pending().len() == 0 && !self.shard(
                        k as int,
                    ).is_scheduled()));
                }
                return false;
            }
            k = k + 1;
        }
        true
    }
}

/// The sum of the round-robin shares of shards `0 .. j`.
pub open spec fn rr_total(n: int, s: int, j: int) -> int
    decreases j,
{
    if j <= 0 {
        0
    } else {
        rr_total(n, s, j - 1) + rr_count(n, s, j - 1)
    }
}

proof fn lemma_rr_total_empty(s: int, j: int)
    ensures
        rr_total(0, s, j) == 0,
    decreases j,
{
    if j > 0 {
        lemma_rr_total_empty(s, j - 1);
    }
}

proof fn lemma_rr_total_step(n: int, s: int, j: int)
    requires
        1 <= n,
        1 <= s,
        0 <= j <= s,
    ensures
        rr_total(n, s, j) == rr_total(n - 1, s, j) + if (n - 1) % s < j {
            1int
        } else {
            0int
        },
    decreases j,
{
    vstd::arithmetic::div_mod::lemma_mod_bound(n - 1, s);
    if j > 0 {
        lemma_rr_total_step(n, s, j - 1);
    }
}

/// The round-robin shares of all `s` shards sum to the whole input: no item
/// is dropped and none is dealt twice.
pub proof fn lemma_rr_total_all(n: int, s: int)
    requires
        0 <= n,
        1 <= s,
    ensures
        rr_total(n, s, s) == n,
    decreases n,
{
    if n == 0 {
        lemma_rr_total_empty(s, s);
    } else {
        lemma_rr_total_all(n - 1, s);
        lemma_rr_total_step(n, s, s);
        vstd::arithmetic::div_mod::lemma_mod_bound(n - 1, s);
    }
}

/// The number of items shards `0 .. j` of `d` have handed out in total.
pub open spec fn total_drained(d: Dispatcher, j: int) -> int
    decreases j,
{
    if j <= 0 {
        0
    } else {
        total_drained(d, j - 1) + d.shard(j - 1).drained().len()
    }
}

/// Round-robin fairness: after `n` items have been submitted to a dispatcher
/// with `s` shards, shard `i` has been handed exactly `⌈(n − i) / s⌉` items
/// (here `(n − i − 1) / s + 1` for `n > i`, else `0`).
pub proof fn lemma_round_robin_fairness(d: Dispatcher, i: int)
    requires
        d.wf(),
        0 <= i < d.shard_count(),
    ensures
        d.shard(i).submitted().len() == if d.input().len() as int <= i {
            0int
        } else {
            (d.input().len() - i - 1) / d.shard_count() + 1
        },
{
    lemma_shard_of_len(d.input(), d.shard_count(), i);
    lemma_rr_count_closed(d.input().len() as int, d.shard_count(), i);
}

proof fn lemma_total_drained_is_rr_total(d: Dispatcher, j: int)
    requires
        d.wf(),
        0 <= j <= d.shard_count(),
        forall|i: int| 0 <= i < d.shard_count() ==> (#[trigger] d.shard(i)).pending().len() == 0,
    ensures
        total_drained(d, j) == rr_total(d.input().len() as int, d.shard_count(), j),
    decreases j,
{
    if j > 0 {
        lemma_total_drained_is_rr_total(d, j - 1);
        assert(d.shard(j - 1).drained() =~= d.shard(j - 1).submitted());
        lemma_shard_of_len(d.input(), d.shard_count(), j - 1);
    }
}

/// Per-shard FIFO at the dispatcher: for two items submitted at positions
/// `p < q` and routed to the same shard, whenever the later one has been
/// handed to the processing capability, the earlier one was handed out
/// before it — at a strictly earlier position of that shard's handed-out
/// order — and both are the very items submitted. This holds in every
/// reachable state, not only after a shutdown.
pub proof fn lemma_per_shard_fifo(d: Dispatcher, p: int, q: int)
    requires
        d.wf(),
        0 <= p < q < d.input().len(),
        p % d.shard_count() == q % d.shard_count(),
        q / d.shard_count() < d.shard(p % d.shard_count()).drained().len(),
    ensures
        p / d.shard_count() < q / d.shard_count(),
        d.shard(p % d.shard_count()).drained()[p / d.shard_count()] == d.input()[p],
        d.shard(p % d.shard_count()).drained()[q / d.shard_count()] == d.input()[q],
{
    let s = d.shard_count();
    let i = p % s;
    vstd::arithmetic::div_mod::lemma_fundamental_div_mod(p, s);
    vstd::arithmetic::div_mod::lemma_fundamental_div_mod(q, s);
    vstd::arithmetic::div_mod::lemma_mod_bound(p, s);
    let jp = p / s;
    let jq = q / s;
    assert(0 <= jp && jp < jq) by (nonlinear_arith)
        requires
            p == s * jp + i,
            q == s * jq + i,
            0 <= p < q,
            0 <= i < s,
            1 <= s,
    ;
    assert(jp * s + i == p && jq * s + i == q) by (nonlinear_arith)
        requires
            p == s * jp + i,
            q == s * jq + i,
    ;
    lemma_shard_of_index(d.input(), s, i, jp);
    lemma_shard_of_index(d.input(), s, i, jq);
    crate::mailbox::lemma_fifo_exactly_once(d.shard(i));
    assert(d.shard(i).submitted() == shard_of(d.input(), s, i));
}

/// The item submitted `k`-th to `d` has been handed out by shard `k % s` as
/// its `k / s`-th item, where `s` is the shard count.
pub open spec fn delivered_at(d: Dispatcher, k: int) -> bool {
    let i = k % d.shard_count();
    let j = k / d.shard_count();
    &&& 0 <= i < d.shard_count()
    &&& 0 <= j < d.shard(i).drained().len()
    &&& d.shard(i).drained()[j] == d.input()[k]
}

/// Exactly-once delivery: once every shard of a dispatcher has drained, the
/// items handed to the processing capability are exactly the items submitted.
/// Shard `i` has handed out precisely the input items at positions congruent
/// to `i` modulo the shard count, in arrival order; the item submitted `k`-th
/// was handed out by shard `k % s` as its `k / s`-th item and nowhere else;
/// and the counts handed out over all shards sum to the number submitted.
pub proof fn lemma_exactly_once(d: Dispatcher)
    requires
        d.wf(),
        forall|i: int| 0 <= i < d.shard_count() ==> (#[trigger] d.shard(i)).pending().len() == 0,
    ensures
        forall|i: int|
            0 <= i < d.shard_count() ==> (#[trigger] d.shard(i)).drained() == shard_of(
                d.input(),
                d.shard_count(),
                i,
            ),
        forall|k: int| 0 <= k < d.input().len() ==> #[trigger] delivered_at(d, k),
        total_drained(d, d.shard_count()) == d.input().len(),
{
    let s = d.shard_count();
    let n = d.input().len() as int;
    assert forall|i: int| 0 <= i < s implies (#[trigger] d.shard(i)).drained() == shard_of(
        d.input(),
        s,
        i,
    ) by {
        assert(d.shard(i).drained() =~= d.shard(i).submitted());
    }
    assert forall|k: int| 0 <= k < n implies #[trigger] delivered_at(d, k) by {
        vstd::arithmetic::div_mod::lemma_fundamental_div_mod(k, s);
        vstd::arithmetic::div_mod::lemma_mod_bound(k, s);
        let i = k % s;
        let j = k / s;
        assert(0 <= j) by (nonlinear_arith)
            requires
                k == s * j + i,
                0 <= i < s,
                0 <= k,
                1 <= s,
        ;
        assert(j * s + i == k) by (nonlinear_arith)
            requires
                k == s * j + i,
        ;
        lemma_shard_of_index(d.input(), s, i, j);
    }
    lemma_total_drained_is_rr_total(d, s);
    lemma_rr_total_all(n, s);
}

} // verus!
