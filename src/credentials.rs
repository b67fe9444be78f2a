//! Credential records and the per-provider credential pool: least-recently-used
//! selection, reaction to upstream status codes, quota resets and merging of
//! records pulled from the backing store.
use vstd::prelude::*;

verus! {

/// Seconds a credential stays flagged as rate limited after an upstream 429.
pub const COOLDOWN_SECONDS: u64 = 1800;

/// Upstream status: success.
pub const STATUS_OK: u16 = 200;

/// Upstream status: the key was rejected.
pub const STATUS_UNAUTHORIZED: u16 = 401;

/// Upstream status: the key is rate limited.
pub const STATUS_TOO_MANY_REQUESTS: u16 = 429;

/// One provider API key with its usage and health state.
///
/// `used_at` is the time of last use in milliseconds since the Unix epoch (UTC).
/// `max == 0` means the key has no quota.
pub struct ProviderAuth {
    pub id: i32,
    pub provider: String,
    pub api_key: String,
    pub sent: i32,
    pub max: i32,
    pub valid: bool,
    pub used_at: i64,
    pub cooldown: bool,
    pub comments: Option<String>,
}

impl ProviderAuth {
    /// A key may be handed out while it is valid and under its quota.
    /// The cooldown flag is advisory and does not take part.
    pub open spec fn is_usable(self) -> bool {
        self.valid && (self.max == 0 || self.sent < self.max)
    }

    pub fn usable(&self) -> (r: bool)
        ensures
            r == self.is_usable(),
    {
        self.valid && (self.max == 0 || self.sent < self.max)
    }

    /// A field-by-field copy.
    pub fn duplicate(&self) -> (r: ProviderAuth)
        ensures
            r == *self,
    {
        let comments = match &self.comments {
            Some(c) => Some(c.clone()),
            None => None,
        };
        ProviderAuth {
            id: self.id,
            provider: self.provider.clone(),
            api_key: self.api_key.clone(),
            sent: self.sent,
            max: self.max,
            valid: self.valid,
            used_at: self.used_at,
            cooldown: self.cooldown,
            comments,
        }
    }
}

/// `sent` plus one, held at `i32::MAX`.
pub open spec fn bumped(sent: i32) -> i32 {
    if sent < i32::MAX {
        (sent + 1) as i32
    } else {
        sent
    }
}

/// The record after the upstream answered `status` to a request made with it at `now`.
pub open spec fn after_outcome(a: ProviderAuth, status: u16, now: i64) -> ProviderAuth {
    let stamped = ProviderAuth { used_at: now, ..a };
    if status == STATUS_OK {
        ProviderAuth { sent: bumped(a.sent), ..stamped }
    } else if status == STATUS_UNAUTHORIZED {
        ProviderAuth { valid: false, ..stamped }
    } else if status == STATUS_TOO_MANY_REQUESTS {
        ProviderAuth { cooldown: true, ..stamped }
    } else {
        stamped
    }
}

/// Ids in the pool are distinct.
pub open spec fn ids_distinct(s: Seq<ProviderAuth>) -> bool {
    forall|i: int, j: int| 0 <= i < s.len() && 0 <= j < s.len() && i != j ==> s[i].id != s[j].id
}

pub open spec fn has_id(s: Seq<ProviderAuth>, id: i32) -> bool {
    exists|i: int| 0 <= i < s.len() && s[i].id == id
}

pub open spec fn any_usable(s: Seq<ProviderAuth>) -> bool {
    exists|j: int| 0 <= j < s.len() && s[j].is_usable()
}

/// Entry `i` is what a least-recently-used pick returns: a usable entry with the
/// oldest `used_at` among the usable ones, the first in pool order on a tie
/// (the entry a stable sort by `used_at` followed by a scan would reach first).
pub open spec fn is_lru_choice(s: Seq<ProviderAuth>, i: int) -> bool {
    &&& 0 <= i < s.len()
    &&& s[i].is_usable()
    &&& forall|j: int| 0 <= j < s.len() && s[j].is_usable() ==> s[i].used_at <= s[j].used_at
    &&& forall|j: int| 0 <= j < i && s[j].is_usable() ==> s[i].used_at < s[j].used_at
}

/// The index a pick returns, if any entry is usable.
pub open spec fn lru_pick(s: Seq<ProviderAuth>) -> Option<int> {
    if any_usable(s) {
        Some(choose|i: int| is_lru_choice(s, i))
    } else {
        None
    }
}

/// The pool after the outcome of a request made with key `id`.
pub open spec fn outcome_applied(s: Seq<ProviderAuth>, id: i32, status: u16, now: i64) -> Seq<
    ProviderAuth,
> {
    Seq::new(
        s.len(),
        |i: int|
            if s[i].id == id {
                after_outcome(s[i], status, now)
            } else {
                s[i]
            },
    )
}

/// The pool once the cooldown of key `id` has run out.
pub open spec fn cooldown_cleared(s: Seq<ProviderAuth>, id: i32) -> Seq<ProviderAuth> {
    Seq::new(
        s.len(),
        |i: int|
            if s[i].id == id {
                ProviderAuth { cooldown: false, ..s[i] }
            } else {
                s[i]
            },
    )
}

/// The pool with every usage counter at zero.
pub open spec fn quota_reset(s: Seq<ProviderAuth>) -> Seq<ProviderAuth> {
    Seq::new(s.len(), |i: int| ProviderAuth { sent: 0, ..s[i] })
}

/// The pool after the records `f` were offered in order: a record whose id is
/// already present is skipped, any other is appended.
pub open spec fn absorbed(s: Seq<ProviderAuth>, f: Seq<ProviderAuth>) -> Seq<ProviderAuth>
    decreases f.len(),
{
    if f.len() == 0 {
        s
    } else {
        let before = absorbed(s, f.drop_last());
        if has_id(before, f.last().id) {
            before
        } else {
            before.push(f.last())
        }
    }
}

proof fn lemma_absorbed_grows(s: Seq<ProviderAuth>, f: Seq<ProviderAuth>)
    ensures
        absorbed(s, f).len() >= s.len(),
    decreases f.len(),
{
    if f.len() > 0 {
        lemma_absorbed_grows(s, f.drop_last());
    }
}

/// The credential pool of one provider.
pub struct CredentialPool {
    entries: Vec<ProviderAuth>,
}

impl View for CredentialPool {
    type V = Seq<ProviderAuth>;

    closed spec fn view(&self) -> Seq<ProviderAuth> {
        self.entries@
    }
}

impl CredentialPool {
    pub open spec fn wf(&self) -> bool {
        ids_distinct(self@)
    }

    pub fn new() -> (r: CredentialPool)
        ensures
            r@ == Seq::<ProviderAuth>::empty(),
            r.wf(),
    {
        CredentialPool { entries: Vec::new() }
    }

    pub fn len(&self) -> (r: usize)
        ensures
            r == self@.len(),
    {
        self.entries.len()
    }

    pub fn get(&self, i: usize) -> (r: &ProviderAuth)
        requires
            i < self@.len(),
        ensures
            *r == self@[i as int],
    {
        &self.entries[i]
    }

    /// The index of the entry with key `id`.
    pub fn position_of(&self, id: i32) -> (r: Option<usize>)
        ensures
            r is None <==> !has_id(self@, id),
            r matches Some(i) ==> i < self@.len() && self@[i as int].id == id,
    {
        let n = self.entries.len();
        let mut k: usize = 0;
        while k < n
            invariant
                n == self@.len(),
                k <= n,
                forall|j: int| 0 <= j < k ==> self@[j].id != id,
            decreases n - k,
        {
            if self.entries[k].id == id {
                return Some(k);
            }
            k += 1;
        }
        None
    }

    /// Least-recently-used selection: the usable entry with the oldest `used_at`,
    /// the first in pool order on a tie; `None` when no entry is usable.
    pub fn pick(&self) -> (r: Option<usize>)
        ensures
            r is None <==> !any_usable(self@),
            r matches Some(i) ==> is_lru_choice(self@, i as int),
    {
        let n = self.entries.len();
        let mut best: Option<usize> = None;
        let mut k: usize = 0;
        while k < n
            invariant
                n == self@.len(),
                k <= n,
                best is None ==> forall|j: int| 0 <= j < k ==> !self@[j].is_usable(),
                best matches Some(b) ==> {
                    &&& b < k
                    &&& self@[b as int].is_usable()
                    &&& forall|j: int|
                        0 <= j < k && self@[j].is_usable() ==> self@[b as int].used_at
                            <= self@[j].used_at
                    &&& forall|j: int|
                        0 <= j < b && self@[j].is_usable() ==> self@[b as int].used_at
                            < self@[j].used_at
                },
            decreases n - k,
        {
            if self.entries[k].usable() {
                match best {
                    None => {
                        best = Some(k);
                    },
                    Some(b) => {
                        if self.entries[k].used_at < self.entries[b].used_at {
                            best = Some(k);
                        }
                    },
                }
            }
            k += 1;
        }
        proof {
            if best is None {
                assert(!any_usable(self@));
            }
        }
        best
    }

    /// Takes the upstream status of a request made with key `id` at `now`: the key
    /// is stamped with `now`; 200 counts one use, 401 invalidates it for good, 429
    /// flags it as cooling down, any other status changes nothing more. On 429 the
    /// result is the number of seconds after which `end_cooldown` is due.
    pub fn record_outcome(&mut self, id: i32, status: u16, now: i64) -> (r: Option<u64>)
        requires
            old(self).wf(),
        ensures
            final(self).wf(),
            final(self)@ == outcome_applied(old(self)@, id, status, now),
            r == (if status == STATUS_TOO_MANY_REQUESTS && has_id(old(self)@, id) {
                Some(COOLDOWN_SECONDS)
            } else {
                None
            }),
    {
        match self.position_of(id) {
            None => {
                assert(self@ =~= outcome_applied(old(self)@, id, status, now));
                None
            },
            Some(i) => {
                let ghost s = self@;
                let e = &mut self.entries[i];
                e.used_at = now;
                if status == STATUS_OK {
                    if e.sent < i32::MAX {
                        e.sent = e.sent + 1;
                    }
                } else if status == STATUS_UNAUTHORIZED {
                    e.valid = false;
                } else if status == STATUS_TOO_MANY_REQUESTS {
                    e.cooldown = true;
                }
                assert(self@ =~= outcome_applied(s, id, status, now));
                if status == STATUS_TOO_MANY_REQUESTS {
                    Some(COOLDOWN_SECONDS)
                } else {
                    None
                }
            },
        }
    }

    /// Clears the cooldown flag of key `id`, once its cooldown window has run out.
    pub fn end_cooldown(&mut self, id: i32)
        requires
            old(self).wf(),
        ensures
            final(self).wf(),
            final(self)@ == cooldown_cleared(old(self)@, id),
    {
        match self.position_of(id) {
            None => {
                assert(self@ =~= cooldown_cleared(old(self)@, id));
            },
            Some(i) => {
                let ghost s = self@;
                self.entries[i].cooldown = false;
                assert(self@ =~= cooldown_cleared(s, id));
            },
        }
    }

    /// Sets every usage counter back to zero; validity and cooldown are kept.
    pub fn reset_quota(&mut self)
        requires
            old(self).wf(),
        ensures
            final(self).wf(),
            final(self)@ == quota_reset(old(self)@),
    {
        let n = self.entries.len();
        let mut k: usize = 0;
        while k < n
            invariant
                n == self@.len(),
                n == old(self)@.len(),
                k <= n,
                forall|j: int| 0 <= j < k ==> self@[j] == (ProviderAuth { sent: 0, ..old(self)@[j] }),
                forall|j: int| k <= j < n ==> self@[j] == old(self)@[j],
            decreases n - k,
        {
            self.entries[k].sent = 0;
            k += 1;
        }
        assert(self@ =~= quota_reset(old(self)@));
    }

    /// Offers records in order: one whose id the pool already holds is skipped, any
    /// other is appended. Returns how many were appended.
    pub fn absorb(&mut self, fetched: Vec<ProviderAuth>) -> (r: usize)
        requires
            old(self).wf(),
        ensures
            final(self).wf(),
            final(self)@ == absorbed(old(self)@, fetched@),
            r == final(self)@.len() - old(self)@.len(),
    {
        let start = self.entries.len();
        let mut rest = fetched;
        let ghost f = rest@;
        let mut taken: Vec<ProviderAuth> = Vec::new();
        let n = rest.len();
        let mut k: usize = 0;
        while k < n
            invariant
                ids_distinct(self@),
                n == f.len(),
                k <= n,
                rest@ == f.subrange(k as int, f.len() as int),
                self@ == absorbed(old(self)@, f.take(k as int)),
                start == old(self)@.len(),
            decreases f.len() - k,
        {
            let ghost before = self@;
            let record = rest.remove(0);
            assert(f.take(k + 1).drop_last() =~= f.take(k as int));
            assert(record == f[k as int]);
            if self.position_of(record.id).is_none() {
                self.entries.push(record);
                assert(ids_distinct(self@)) by {
                    assert(!has_id(before, f[k as int].id));
                }
            }
            k += 1;
            assert(rest@ =~= f.subrange(k as int, f.len() as int));
        }
        assert(f.take(f.len() as int) =~= f);
        proof {
            lemma_absorbed_grows(old(self)@, f);
        }
        self.entries.len() - start
    }

    /// Drops every record.
    pub fn clear(&mut self)
        ensures
            final(self)@ == Seq::<ProviderAuth>::empty(),
            final(self).wf(),
    {
        self.entries.clear();
    }

    /// Copies of all records, in pool order.
    pub fn snapshot(&self) -> (r: Vec<ProviderAuth>)
        ensures
            r@ == self@,
    {
        let n = self.entries.len();
        let mut out: Vec<ProviderAuth> = Vec::new();
        let mut k: usize = 0;
        while k < n
            invariant
                n == self@.len(),
                k <= n,
                out@ == self@.take(k as int),
            decreases n - k,
        {
            out.push(self.entries[k].duplicate());
            k += 1;
            assert(out@ =~= self@.take(k as int));
        }
        assert(self@.take(n as int) =~= self@);
        out
    }
}

} // verus!
