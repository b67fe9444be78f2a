//! Properties of the credential pool that span several operations.
use vstd::prelude::*;
use crate::credentials::{
    ProviderAuth, after_outcome, absorbed, any_usable, cooldown_cleared, has_id, ids_distinct,
    is_lru_choice, lru_pick, outcome_applied, quota_reset, STATUS_TOO_MANY_REQUESTS,
    STATUS_UNAUTHORIZED,
};

verus! {

/// At most one entry is the least-recently-used choice.
pub proof fn lemma_lru_choice_unique(s: Seq<ProviderAuth>, i: int, j: int)
    requires
        is_lru_choice(s, i),
        is_lru_choice(s, j),
    ensures
        i == j,
{
    if i < j {
        assert(s[j].used_at < s[i].used_at);
    } else if j < i {
        assert(s[i].used_at < s[j].used_at);
    }
}

/// Whenever some entry is usable, a least-recently-used choice exists.
pub proof fn lemma_lru_choice_exists(s: Seq<ProviderAuth>)
    requires
        any_usable(s),
    ensures
        exists|i: int| is_lru_choice(s, i),
    decreases s.len(),
{
    let n = s.len() - 1;
    let p = s.drop_last();
    assert(forall|j: int| 0 <= j < n ==> p[j] == s[j]);
    if any_usable(p) {
        lemma_lru_choice_exists(p);
        let i = choose|i: int| is_lru_choice(p, i);
        if s[n].is_usable() && s[n].used_at < s[i].used_at {
            assert(is_lru_choice(s, n));
        } else {
            assert(is_lru_choice(s, i));
        }
    } else {
        assert(forall|j: int| 0 <= j < n ==> !p[j].is_usable());
        assert(is_lru_choice(s, n));
    }
}

/// The pick returns exactly the least-recently-used choice.
pub proof fn lemma_lru_pick_is_choice(s: Seq<ProviderAuth>)
    ensures
        lru_pick(s) is None <==> !any_usable(s),
        lru_pick(s) matches Some(i) ==> is_lru_choice(s, i),
        forall|i: int| is_lru_choice(s, i) ==> lru_pick(s) == Some(i),
{
    if any_usable(s) {
        lemma_lru_choice_exists(s);
        let c = choose|i: int| is_lru_choice(s, i);
        assert forall|i: int| is_lru_choice(s, i) implies lru_pick(s) == Some(i) by {
            lemma_lru_choice_unique(s, i, c);
        }
    } else {
        assert forall|i: int| is_lru_choice(s, i) implies lru_pick(s) == Some(i) by {
            assert(s[i].is_usable());
        }
    }
}

/// A key whose quota is used up is not handed out. Once the quotas are reset, such
/// a key is usable again if it is still valid, and a pick then returns some key.
pub proof fn lemma_quota_gates_pick(s: Seq<ProviderAuth>, k: int)
    requires
        0 <= k < s.len(),
        s[k].max > 0,
        s[k].sent >= s[k].max,
    ensures
        lru_pick(s) != Some(k),
        s[k].valid ==> quota_reset(s)[k].is_usable() && lru_pick(quota_reset(s)) is Some,
{
    lemma_lru_pick_is_choice(s);
    let r = quota_reset(s);
    lemma_lru_pick_is_choice(r);
    if s[k].valid {
        assert(r[k].is_usable());
        assert(any_usable(r));
    }
}

/// Something that happens to a pool between two picks.
pub enum PoolEvent {
    /// The upstream answered `status` to a request made with key `id` at `now`.
    Outcome { id: i32, status: u16, now: i64 },
    /// The provider's quota window restarted.
    ResetQuota,
    /// The cooldown of key `id` ran out.
    EndCooldown { id: i32 },
    /// A record came from the backing store.
    Absorb { record: ProviderAuth },
}

pub open spec fn after_event(s: Seq<ProviderAuth>, e: PoolEvent) -> Seq<ProviderAuth> {
    match e {
        PoolEvent::Outcome { id, status, now } => outcome_applied(s, id, status, now),
        PoolEvent::ResetQuota => quota_reset(s),
        PoolEvent::EndCooldown { id } => cooldown_cleared(s, id),
        PoolEvent::Absorb { record } => absorbed(s, seq![record]),
    }
}

pub open spec fn after_events(s: Seq<ProviderAuth>, es: Seq<PoolEvent>) -> Seq<ProviderAuth>
    decreases es.len(),
{
    if es.len() == 0 {
        s
    } else {
        after_event(after_events(s, es.drop_last()), es.last())
    }
}

proof fn lemma_events_keep_invalid(s: Seq<ProviderAuth>, es: Seq<PoolEvent>, k: int)
    requires
        0 <= k < s.len(),
        !s[k].valid,
    ensures
        k < after_events(s, es).len(),
        !after_events(s, es)[k].valid,
        after_events(s, es)[k].id == s[k].id,
    decreases es.len(),
{
    if es.len() > 0 {
        lemma_events_keep_invalid(s, es.drop_last(), k);
        let t = after_events(s, es.drop_last());
        let u = after_events(s, es);
        assert(u == after_event(t, es.last()));
        match es.last() {
            PoolEvent::Outcome { id, status, now } => {
                assert(u[k] == (if t[k].id == id {
                    after_outcome(t[k], status, now)
                } else {
                    t[k]
                }));
            },
            PoolEvent::ResetQuota => {
                assert(u[k] == (ProviderAuth { sent: 0, ..t[k] }));
            },
            PoolEvent::EndCooldown { id } => {
                assert(u[k].valid == t[k].valid);
            },
            PoolEvent::Absorb { record } => {
                assert(seq![record].drop_last() =~= Seq::<ProviderAuth>::empty());
                assert(absorbed(t, seq![record].drop_last()) == t);
            },
        }
    }
}

/// A key rejected with 401 stays invalid through any later outcomes, quota resets,
/// cooldown expiries and merges, and no pick returns it again.
pub proof fn lemma_unauthorized_is_permanent(
    s: Seq<ProviderAuth>,
    k: int,
    now: i64,
    es: Seq<PoolEvent>,
)
    requires
        0 <= k < s.len(),
    ensures
        ({
            let t = after_events(outcome_applied(s, s[k].id, STATUS_UNAUTHORIZED, now), es);
            &&& k < t.len()
            &&& t[k].id == s[k].id
            &&& !t[k].valid
            &&& lru_pick(t) != Some(k)
        }),
{
    let u = outcome_applied(s, s[k].id, STATUS_UNAUTHORIZED, now);
    assert(!u[k].valid);
    lemma_events_keep_invalid(u, es, k);
    lemma_lru_pick_is_choice(after_events(u, es));
}

/// A 429 flags the key as cooling down at once (the outcome also asks for the end
/// of the cooldown after the cooldown window); when that end comes the flag is clear
/// again and the rest of the record is as the 429 left it.
pub proof fn lemma_cooldown_cycle(s: Seq<ProviderAuth>, k: int, now: i64)
    requires
        0 <= k < s.len(),
    ensures
        ({
            let t = outcome_applied(s, s[k].id, STATUS_TOO_MANY_REQUESTS, now);
            let u = cooldown_cleared(t, s[k].id);
            &&& t[k].cooldown
            &&& t[k].used_at == now
            &&& !u[k].cooldown
            &&& u[k] == (ProviderAuth { cooldown: false, ..t[k] })
        }),
{
}

/// One request served from the pool: the pick, then its outcome.
pub open spec fn serve(s: Seq<ProviderAuth>, status: u16, now: i64) -> Seq<ProviderAuth> {
    match lru_pick(s) {
        Some(i) => outcome_applied(s, s[i].id, status, now),
        None => s,
    }
}

/// The pool after serving the first `k` requests, each an upstream status and the
/// time it came back.
pub open spec fn served(s: Seq<ProviderAuth>, reqs: Seq<(u16, i64)>, k: int) -> Seq<ProviderAuth>
    decreases k,
{
    if k <= 0 {
        s
    } else {
        serve(served(s, reqs, k - 1), reqs[k - 1].0, reqs[k - 1].1)
    }
}

proof fn lemma_serve_shape(s: Seq<ProviderAuth>, status: u16, now: i64)
    requires
        ids_distinct(s),
    ensures
        serve(s, status, now).len() == s.len(),
        ids_distinct(serve(s, status, now)),
        forall|g: int|
            0 <= g < s.len() && lru_pick(s) != Some(g) ==> #[trigger] serve(s, status, now)[g]
                == s[g],
        lru_pick(s) matches Some(i) ==> serve(s, status, now)[i].used_at == now,
{
    lemma_lru_pick_is_choice(s);
    let t = serve(s, status, now);
    match lru_pick(s) {
        Some(i) => {
            assert forall|g: int| 0 <= g < s.len() && g != i implies #[trigger] t[g] == s[g] by {
                assert(s[g].id != s[i].id);
            }
            assert(t[i] == after_outcome(s[i], status, now));
            assert forall|a: int, b: int|
                0 <= a < t.len() && 0 <= b < t.len() && a != b implies t[a].id != t[b].id by {
                assert(t[a].id == s[a].id);
                assert(t[b].id == s[b].id);
            }
        },
        None => {},
    }
}

proof fn lemma_served_shape(s: Seq<ProviderAuth>, reqs: Seq<(u16, i64)>, k: int)
    requires
        ids_distinct(s),
        0 <= k,
    ensures
        served(s, reqs, k).len() == s.len(),
        ids_distinct(served(s, reqs, k)),
    decreases k,
{
    if k > 0 {
        lemma_served_shape(s, reqs, k - 1);
        lemma_serve_shape(served(s, reqs, k - 1), reqs[k - 1].0, reqs[k - 1].1);
    }
}

/// Times of requests grow strictly, and every stamp in the pool predates them.
pub open spec fn times_increase(s: Seq<ProviderAuth>, reqs: Seq<(u16, i64)>) -> bool {
    &&& forall|a: int, b: int| 0 <= a < b < reqs.len() ==> reqs[a].1 < reqs[b].1
    &&& forall|g: int, a: int| 0 <= g < s.len() && 0 <= a < reqs.len() ==> s[g].used_at < reqs[a].1
}

proof fn lemma_stamps_precede(s: Seq<ProviderAuth>, reqs: Seq<(u16, i64)>, k: int, g: int)
    requires
        ids_distinct(s),
        times_increase(s, reqs),
        0 <= k < reqs.len(),
        0 <= g < s.len(),
    ensures
        served(s, reqs, k)[g].used_at < reqs[k].1,
    decreases k,
{
    if k > 0 {
        lemma_stamps_precede(s, reqs, k - 1, g);
        lemma_served_shape(s, reqs, k - 1);
        lemma_serve_shape(served(s, reqs, k - 1), reqs[k - 1].0, reqs[k - 1].1);
    }
}

/// Entry `g` is not picked while serving requests `a` to `k - 1`.
pub open spec fn unpicked_between(s: Seq<ProviderAuth>, reqs: Seq<(u16, i64)>, g: int, a: int, k: int) -> bool {
    forall|c: int| a <= c < k ==> lru_pick(#[trigger] served(s, reqs, c)) != Some(g)
}

proof fn lemma_unpicked_unchanged(
    s: Seq<ProviderAuth>,
    reqs: Seq<(u16, i64)>,
    g: int,
    a: int,
    k: int,
)
    requires
        ids_distinct(s),
        0 <= a <= k,
        0 <= g < s.len(),
        unpicked_between(s, reqs, g, a, k),
    ensures
        served(s, reqs, k)[g] == served(s, reqs, a)[g],
    decreases k - a,
{
    if k > a {
        assert(unpicked_between(s, reqs, g, a, k - 1));
        lemma_unpicked_unchanged(s, reqs, g, a, k - 1);
        lemma_served_shape(s, reqs, k - 1);
        lemma_serve_shape(served(s, reqs, k - 1), reqs[k - 1].0, reqs[k - 1].1);
        assert(lru_pick(served(s, reqs, k - 1)) != Some(g));
    }
}

/// Least-recently-used fairness. Serve requests whose times grow and come after every
/// stamp in the pool. If key `e` is picked for request `a` and next for request `b`,
/// then every other key that is usable when request `b` comes was picked for some
/// request in between.
pub proof fn lemma_lru_fairness(
    s: Seq<ProviderAuth>,
    reqs: Seq<(u16, i64)>,
    a: int,
    b: int,
    e: int,
    f: int,
)
    requires
        ids_distinct(s),
        times_increase(s, reqs),
        0 <= a < b < reqs.len(),
        lru_pick(served(s, reqs, a)) == Some(e),
        lru_pick(served(s, reqs, b)) == Some(e),
        unpicked_between(s, reqs, e, a + 1, b),
        0 <= f < s.len(),
        f != e,
        served(s, reqs, b)[f].is_usable(),
    ensures
        exists|c: int| a < c < b && lru_pick(#[trigger] served(s, reqs, c)) == Some(f),
{
    let sa = served(s, reqs, a);
    let sb = served(s, reqs, b);
    lemma_served_shape(s, reqs, a);
    lemma_served_shape(s, reqs, b);
    lemma_serve_shape(sa, reqs[a].0, reqs[a].1);
    lemma_lru_pick_is_choice(sa);
    lemma_lru_pick_is_choice(sb);
    assert(0 <= e < s.len());
    // After request `a`, key `e` carries the time of request `a` until `b`.
    assert(served(s, reqs, a + 1) == serve(sa, reqs[a].0, reqs[a].1));
    lemma_unpicked_unchanged(s, reqs, e, a + 1, b);
    assert(sb[e].used_at == reqs[a].1);
    if !(exists|c: int| a < c < b && lru_pick(#[trigger] served(s, reqs, c)) == Some(f)) {
        assert(unpicked_between(s, reqs, f, a, b)) by {
            assert forall|c: int| a <= c < b implies lru_pick(#[trigger] served(s, reqs, c)) != Some(
                f,
            ) by {
                if c == a {
                    assert(lru_pick(sa) == Some(e));
                }
            }
        }
        lemma_unpicked_unchanged(s, reqs, f, a, b);
        lemma_stamps_precede(s, reqs, a, f);
        assert(sb[f].used_at < sb[e].used_at);
        assert(is_lru_choice(sb, e));
    }
}

proof fn lemma_absorbed_keeps_prefix(s: Seq<ProviderAuth>, f: Seq<ProviderAuth>)
    ensures
        absorbed(s, f).len() >= s.len(),
        forall|i: int| 0 <= i < s.len() ==> #[trigger] absorbed(s, f)[i] == s[i],
        forall|r: ProviderAuth| f.contains(r) ==> has_id(absorbed(s, f), r.id),
    decreases f.len(),
{
    if f.len() > 0 {
        let p = f.drop_last();
        lemma_absorbed_keeps_prefix(s, p);
        let before = absorbed(s, p);
        assert forall|r: ProviderAuth| f.contains(r) implies has_id(absorbed(s, f), r.id) by {
            let j = choose|j: int| 0 <= j < f.len() && f[j] == r;
            if j < f.len() - 1 {
                assert(p[j] == r);
                assert(p.contains(r));
                let w = choose|w: int| 0 <= w < before.len() && before[w].id == r.id;
                if !has_id(before, f.last().id) {
                    assert(absorbed(s, f)[w] == before[w]);
                }
            } else if !has_id(before, f.last().id) {
                assert(absorbed(s, f)[before.len() as int] == r);
            }
        }
    }
}

proof fn lemma_absorb_known_ids(t: Seq<ProviderAuth>, f: Seq<ProviderAuth>)
    requires
        forall|r: ProviderAuth| f.contains(r) ==> has_id(t, r.id),
    ensures
        absorbed(t, f) == t,
    decreases f.len(),
{
    if f.len() > 0 {
        let p = f.drop_last();
        assert forall|r: ProviderAuth| p.contains(r) implies has_id(t, r.id) by {
            let j = choose|j: int| 0 <= j < p.len() && p[j] == r;
            assert(f[j] == r);
            assert(f.contains(r));
        }
        lemma_absorb_known_ids(t, p);
        assert(f.contains(f.last()));
    }
}

/// Merging store records keeps every in-memory record as it was, and merging again
/// records whose ids were all seen already (the same fetch, or a later one with no
/// new key) changes nothing.
pub proof fn lemma_absorb_idempotent(s: Seq<ProviderAuth>, f1: Seq<ProviderAuth>, f2: Seq<ProviderAuth>)
    requires
        forall|r: ProviderAuth| f2.contains(r) ==> has_id(s, r.id) || has_id(f1, r.id),
    ensures
        forall|i: int| 0 <= i < s.len() ==> #[trigger] absorbed(s, f1)[i] == s[i],
        absorbed(absorbed(s, f1), f2) == absorbed(s, f1),
        absorbed(absorbed(s, f1), f1) == absorbed(s, f1),
{
    let t = absorbed(s, f1);
    lemma_absorbed_keeps_prefix(s, f1);
    assert forall|r: ProviderAuth| f2.contains(r) implies has_id(t, r.id) by {
        if has_id(s, r.id) {
            let w = choose|w: int| 0 <= w < s.len() && s[w].id == r.id;
            assert(t[w] == s[w]);
        } else {
            let j = choose|j: int| 0 <= j < f1.len() && f1[j].id == r.id;
            assert(f1.contains(f1[j]));
        }
    }
    lemma_absorb_known_ids(t, f2);
    lemma_absorb_known_ids(t, f1);
}

} // verus!
