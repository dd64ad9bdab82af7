use vstd::prelude::*;

use crate::model::{
    add_permits, bit, dispatcher_count, empty_handout, hand_out, min_nat, need, needs_positive,
    permits_fit, request_again, retire_sum, retirements_only, Handout, PoolView, Waiter,
    MAX_PERMITS,
};

verus! {

/// Appending a request adds its need and its dispatcher count.
pub(crate) proof fn lemma_push(q: Seq<Waiter>, w: Waiter)
    ensures
        retire_sum(q.push(w)) == retire_sum(q) + need(w),
        dispatcher_count(q.push(w)) == dispatcher_count(q) + bit(w is Dispatcher),
    decreases q.len(),
{
    if q.len() == 0 {
        assert(q.push(w).drop_first() =~= q);
    } else {
        lemma_push(q.drop_first(), w);
        assert(q.push(w).drop_first() =~= q.drop_first().push(w));
    }
}

/// The tail of a queue keeps its properties.
pub(crate) proof fn lemma_drop_first(q: Seq<Waiter>)
    requires
        q.len() > 0,
    ensures
        needs_positive(q) ==> needs_positive(q.drop_first()),
        retirements_only(q) ==> retirements_only(q.drop_first()),
{
    let t = q.drop_first();
    if needs_positive(q) {
        assert forall|i: int| 0 <= i < t.len() implies (#[trigger] t[i] matches Waiter::Retirement(
            r,
        ) ==> r >= 1) by {
            assert(t[i] == q[i + 1]);
        }
    }
    if retirements_only(q) {
        assert forall|i: int| 0 <= i < t.len() implies #[trigger] t[i] is Retirement by {
            assert(t[i] == q[i + 1]);
        }
    }
}

/// Appending a withdrawal that needs a permit keeps both properties.
pub(crate) proof fn lemma_push_retirement(q: Seq<Waiter>, r: usize)
    requires
        r >= 1,
    ensures
        needs_positive(q) ==> needs_positive(q.push(Waiter::Retirement(r))),
        retirements_only(q) ==> retirements_only(q.push(Waiter::Retirement(r))),
        retire_sum(q.push(Waiter::Retirement(r))) == retire_sum(q) + r,
        dispatcher_count(q.push(Waiter::Retirement(r))) == dispatcher_count(q),
{
    lemma_push(q, Waiter::Retirement(r));
    let p = q.push(Waiter::Retirement(r));
    if needs_positive(q) {
        assert forall|i: int| 0 <= i < p.len() implies (#[trigger] p[i] matches Waiter::Retirement(
            x,
        ) ==> x >= 1) by {
            if i < q.len() {
                assert(p[i] == q[i]);
            }
        }
    }
    if retirements_only(q) {
        assert forall|i: int| 0 <= i < p.len() implies #[trigger] p[i] is Retirement by {
            if i < q.len() {
                assert(p[i] == q[i]);
            }
        }
    }
}

/// What handing permits out does to the queue and to the debts.
pub(crate) proof fn lemma_hand_out(q: Seq<Waiter>, k: nat, h: Handout)
    requires
        needs_positive(q),
        dispatcher_count(q) + bit(h.dispatcher_served) <= 1,
        retirements_only(h.again),
        needs_positive(h.again),
    ensures
        ({
            let r = hand_out(q, k, h);
            &&& r.left <= k
            &&& k - r.left <= q.len()
            &&& r.rest == q.skip(k - r.left)
            &&& (r.left > 0 ==> r.rest.len() == 0)
            &&& retire_sum(r.rest) + retire_sum(r.again) + r.withdrawn == retire_sum(q)
                + retire_sum(h.again) + h.withdrawn
            &&& dispatcher_count(r.rest) + bit(r.dispatcher_served) == dispatcher_count(q) + bit(
                h.dispatcher_served,
            )
            &&& k - r.left + h.withdrawn + bit(h.dispatcher_served) == r.withdrawn + bit(
                r.dispatcher_served,
            )
            &&& retirements_only(r.again)
            &&& needs_positive(r.again)
            &&& needs_positive(r.rest)
            &&& (h.dispatcher_served ==> r.dispatcher_served)
            &&& r.dispatcher_served == (h.dispatcher_served || dispatcher_count(
                q.take(k - r.left),
            ) > 0)
        }),
    decreases k,
{
    if k == 0 || q.len() == 0 {
        assert(q.skip(0) =~= q);
        assert(q.take(0) =~= Seq::<Waiter>::empty());
    } else {
        let t = q.drop_first();
        lemma_drop_first(q);
        let r = hand_out(q, k, h);
        let m = k - r.left;
        assert(m >= 1) by {
            lemma_hand_out_consumes(q, k, h);
        }
        match q[0] {
            Waiter::Dispatcher => {
                let h2 = Handout { dispatcher_served: true, ..h };
                lemma_hand_out(t, (k - 1) as nat, h2);
                let r2 = hand_out(t, (k - 1) as nat, h2);
                assert(r == r2);
                assert(t.skip((k - 1) - r2.left) =~= q.skip(k - r2.left));
                assert(q.take(m).drop_first() =~= t.take(m - 1));
                assert(q.take(m)[0] == q[0]);
            },
            Waiter::Retirement(rr) => {
                let again2 = if rr > 1 {
                    h.again.push(Waiter::Retirement((rr - 1) as usize))
                } else {
                    h.again
                };
                if rr > 1 {
                    lemma_push_retirement(h.again, (rr - 1) as usize);
                }
                assert(q[0] matches Waiter::Retirement(x) ==> x >= 1);
                let h2 = Handout { again: again2, withdrawn: h.withdrawn + 1, ..h };
                lemma_hand_out(t, (k - 1) as nat, h2);
                let r2 = hand_out(t, (k - 1) as nat, h2);
                assert(r == r2);
                assert(t.skip((k - 1) - r2.left) =~= q.skip(k - r2.left));
                assert(q.take(m).drop_first() =~= t.take(m - 1));
                assert(q.take(m)[0] == q[0]);
            },
        }
    }
}

/// Handing out at least one permit to a non-empty queue serves at least
/// one request.
proof fn lemma_hand_out_consumes(q: Seq<Waiter>, k: nat, h: Handout)
    requires
        k >= 1,
        q.len() >= 1,
    ensures
        hand_out(q, k, h).left < k,
    decreases k,
{
    let t = q.drop_first();
    let h2 = match q[0] {
        Waiter::Dispatcher => Handout { dispatcher_served: true, ..h },
        Waiter::Retirement(r) => Handout {
            again: if r > 1 {
                h.again.push(Waiter::Retirement((r - 1) as usize))
            } else {
                h.again
            },
            withdrawn: h.withdrawn + 1,
            ..h
        },
    };
    assert(hand_out(q, k, h) == hand_out(t, (k - 1) as nat, h2));
    lemma_hand_out_left_le(t, (k - 1) as nat, h2);
}

/// Handing out never leaves more permits than it was given.
proof fn lemma_hand_out_left_le(q: Seq<Waiter>, k: nat, h: Handout)
    ensures
        hand_out(q, k, h).left <= k,
    decreases k,
{
    if k > 0 && q.len() > 0 {
        let t = q.drop_first();
        let h2 = match q[0] {
            Waiter::Dispatcher => Handout { dispatcher_served: true, ..h },
            Waiter::Retirement(r) => Handout {
                again: if r > 1 {
                    h.again.push(Waiter::Retirement((r - 1) as usize))
                } else {
                    h.again
                },
                withdrawn: h.withdrawn + 1,
                ..h
            },
        };
        assert(hand_out(q, k, h) == hand_out(t, (k - 1) as nat, h2));
        lemma_hand_out_left_le(t, (k - 1) as nat, h2);
    }
}

/// What the served withdrawals' new requests do to the free permits and the
/// queue.
pub(crate) proof fn lemma_request_again(again: Seq<Waiter>, avail: nat, q: Seq<Waiter>)
    requires
        retirements_only(again),
        needs_positive(again),
        needs_positive(q),
        q.len() > 0 ==> avail == 0,
    ensures
        ({
            let (a, q2) = request_again(again, avail, q);
            &&& a + retire_sum(again) + retire_sum(q) == avail + retire_sum(q2)
            &&& dispatcher_count(q2) == dispatcher_count(q)
            &&& needs_positive(q2)
            &&& (q2.len() > 0 ==> a == 0)
            &&& a <= avail
            &&& q.len() <= q2.len()
            &&& q2.take(q.len() as int) == q
        }),
    decreases again.len(),
{
    if again.len() == 0 {
        assert(q.take(q.len() as int) =~= q);
    } else {
        assert(again[0] is Retirement);
        let rr = again[0]->Retirement_0;
        let r = need(again[0]);
        assert(r == rr);
        assert(r >= 1);
        let t = min_nat(r, avail);
        lemma_drop_first(again);
        let q1 = if r > t {
            q.push(Waiter::Retirement((r - t) as usize))
        } else {
            q
        };
        if r > t {
            lemma_push_retirement(q, (r - t) as usize);
        }
        lemma_request_again(again.drop_first(), (avail - t) as nat, q1);
        let q2 = request_again(again.drop_first(), (avail - t) as nat, q1).1;
        assert(q2.take(q.len() as int) =~= q1.take(q.len() as int));
        assert(q1.take(q.len() as int) =~= q);
    }
}

/// Adding permits to the semaphore: free permits minus debts grow by `k`,
/// the queue keeps its shape, and the oldest request is served first.
pub(crate) proof fn lemma_add_permits(u: PoolView, k: nat)
    requires
        u.retiring == retire_sum(u.waiters),
        dispatcher_count(u.waiters) == bit(u.holding && !u.granted),
        needs_positive(u.waiters),
        u.waiters.len() > 0 ==> u.available == 0,
    ensures
        ({
            let w = add_permits(u, k);
            &&& w.available + bit(w.granted) + u.retiring == u.available + bit(u.granted)
                + w.retiring + k
            &&& w.retiring <= u.retiring
            &&& w.retiring == retire_sum(w.waiters)
            &&& dispatcher_count(w.waiters) == bit(w.holding && !w.granted)
            &&& needs_positive(w.waiters)
            &&& (w.waiters.len() > 0 ==> w.available == 0)
            &&& (w.granted ==> u.granted || u.holding)
            &&& (u.granted ==> w.granted)
            &&& (permits_fit(u, k) && u.available <= MAX_PERMITS ==> w.available <= MAX_PERMITS)
            &&& (k >= 1 && u.waiters.len() > 0 && u.waiters[0] is Dispatcher ==> w.granted)
            &&& (k == 1 && u.waiters.len() > 0 && u.waiters[0] is Retirement ==> w.granted
                == u.granted && w.available == u.available && w.retiring + 1 == u.retiring)
            &&& (k <= u.waiters.len() ==> w.available == u.available)
            &&& (k <= u.waiters.len() ==> w.waiters.len() >= u.waiters.len() - k
                && w.waiters.take(u.waiters.len() - k) == u.waiters.skip(k as int))
            &&& w.granted == (u.granted || dispatcher_count(u.waiters.take(min_nat(k, u.waiters.len()) as int))
                > 0)
        }),
{
    let e = empty_handout();
    assert(retirements_only(e.again));
    assert(needs_positive(e.again));
    assert(retire_sum(e.again) == 0);
    assert(dispatcher_count(u.waiters) <= 1);
    lemma_hand_out(u.waiters, k, e);
    let h = hand_out(u.waiters, k, e);
    lemma_request_again(h.again, u.available + h.left, h.rest);
    if h.dispatcher_served {
        assert(dispatcher_count(u.waiters) >= 1);
    }
    if k >= 1 && u.waiters.len() > 0 {
        let q = u.waiters;
        lemma_drop_first(q);
        if q[0] is Dispatcher {
            let h2 = Handout { dispatcher_served: true, ..e };
            assert(hand_out(q, k, e) == hand_out(q.drop_first(), (k - 1) as nat, h2));
            lemma_hand_out(q.drop_first(), (k - 1) as nat, h2);
        } else {
            assert(dispatcher_count(q) == dispatcher_count(q.drop_first()));
            assert(q[0] matches Waiter::Retirement(x) ==> x >= 1);
            let rr = q[0]->Retirement_0;
            let again2 = if rr > 1 {
                e.again.push(Waiter::Retirement((rr - 1) as usize))
            } else {
                e.again
            };
            if rr > 1 {
                lemma_push_retirement(e.again, (rr - 1) as usize);
            }
            let h2 = Handout { again: again2, withdrawn: 1, ..e };
            assert(hand_out(q, k, e) == hand_out(q.drop_first(), (k - 1) as nat, h2));
            lemma_hand_out(q.drop_first(), (k - 1) as nat, h2);
        }
    }
}

} // verus!
