//! The provider set the gateway routes over: lookup by name, and the credential
//! operations that reach every provider (store merge, snapshot, activity).
use vstd::prelude::*;
use crate::credential_laws::lemma_absorb_idempotent;
use crate::credentials::{ProviderAuth, absorbed, cooldown_cleared};
use crate::headers::HeaderList;
use crate::providers::{
    AuthProviderName, Provider, auth_applied, clock_for, outcome_taken, reset_checked,
};

verus! {

/// The records of `f` that belong to the provider named `name`, in order.
pub open spec fn for_provider(f: Seq<ProviderAuth>, name: Seq<char>) -> Seq<ProviderAuth>
    decreases f.len(),
{
    if f.len() == 0 {
        f
    } else {
        let rest = for_provider(f.drop_last(), name);
        if f.last().provider@ == name {
            rest.push(f.last())
        } else {
            rest
        }
    }
}

/// Every credential of every provider, provider by provider.
pub open spec fn all_records(ps: Seq<Provider>) -> Seq<ProviderAuth>
    decreases ps.len(),
{
    if ps.len() == 0 {
        Seq::empty()
    } else {
        all_records(ps.drop_last()) + ps.last().auth_vec@
    }
}

/// `g` held at `usize::MAX`.
pub open spec fn capped(g: int) -> int {
    if g > usize::MAX {
        usize::MAX as int
    } else {
        g
    }
}

/// `b` is `a` with provider `i` alone possibly changed.
pub open spec fn others_kept(a: Seq<Provider>, b: Seq<Provider>, i: int) -> bool {
    &&& b.len() == a.len()
    &&& forall|k: int| 0 <= k < a.len() && k != i ==> b[k] == a[k]
}

/// `b` is the provider set `a` after merging the store records `f`.
pub open spec fn set_absorbed(a: Seq<Provider>, b: Seq<Provider>, f: Seq<ProviderAuth>) -> bool {
    &&& b.len() == a.len()
    &&& forall|k: int|
        0 <= k < a.len() ==> {
            &&& (#[trigger] b[k]).name == a[k].name
            &&& b[k].reset == a[k].reset
            &&& b[k].auth_vec@ == absorbed(a[k].auth_vec@, for_provider(f, a[k].name.name_spec()))
        }
}

/// Pulling the same store contents twice: the first pull keeps every in-memory
/// record as it was, and the second changes no provider's credentials.
pub proof fn lemma_pull_idempotent(
    a: Seq<Provider>,
    b: Seq<Provider>,
    c: Seq<Provider>,
    f: Seq<ProviderAuth>,
)
    requires
        set_absorbed(a, b, f),
        set_absorbed(b, c, f),
    ensures
        c.len() == b.len(),
        forall|k: int|
            0 <= k < b.len() ==> {
                &&& (#[trigger] c[k]).name == b[k].name
                &&& c[k].reset == b[k].reset
                &&& c[k].auth_vec@ == b[k].auth_vec@
            },
        forall|k: int, i: int|
            0 <= k < a.len() && 0 <= i < a[k].auth_vec@.len() ==> (#[trigger] b[k].auth_vec@[i])
                == a[k].auth_vec@[i],
{
    assert forall|k: int| 0 <= k < b.len() implies {
        &&& (#[trigger] c[k]).name == b[k].name
        &&& c[k].reset == b[k].reset
        &&& c[k].auth_vec@ == b[k].auth_vec@
    } by {
        let fk = for_provider(f, a[k].name.name_spec());
        lemma_absorb_idempotent(a[k].auth_vec@, fk, fk);
    }
    assert forall|k: int, i: int|
        0 <= k < a.len() && 0 <= i < a[k].auth_vec@.len() implies (#[trigger] b[k].auth_vec@[i])
        == a[k].auth_vec@[i] by {
        let fk = for_provider(f, a[k].name.name_spec());
        lemma_absorb_idempotent(a[k].auth_vec@, fk, fk);
    }
}

pub struct ProviderSet {
    providers: Vec<Provider>,
}

impl View for ProviderSet {
    type V = Seq<Provider>;

    closed spec fn view(&self) -> Seq<Provider> {
        self.providers@
    }
}

impl ProviderSet {
    pub open spec fn wf(&self) -> bool {
        forall|k: int| 0 <= k < self@.len() ==> (#[trigger] self@[k]).wf()
    }

    /// Every supported provider, with no credentials yet; `now` counts as the
    /// previous reset check.
    pub fn new(now: i64) -> (r: ProviderSet)
        ensures
            r.wf(),
            r@.len() == 6,
            forall|k: int|
                0 <= k < 6 ==> (#[trigger] r@[k]).auth_vec@ == Seq::<ProviderAuth>::empty(),
            forall|k: int| 0 <= k < 6 ==> (#[trigger] r@[k]).reset == clock_for(r@[k].name, now),
            r@[0].name == AuthProviderName::ChutesAPI,
            r@[1].name == AuthProviderName::Deepinfra,
            r@[2].name == AuthProviderName::Dzmm,
            r@[3].name == AuthProviderName::Google,
            r@[4].name == AuthProviderName::Nvidia,
            r@[5].name == AuthProviderName::OpenRouter,
    {
        let names = AuthProviderName::all();
        let mut providers: Vec<Provider> = Vec::new();
        let mut k: usize = 0;
        while k < names.len()
            invariant
                names@.len() == 6,
                k <= 6,
                providers@.len() == k,
                forall|j: int| 0 <= j < k ==> (#[trigger] providers@[j]).wf(),
                forall|j: int| 0 <= j < k ==> (#[trigger] providers@[j]).name == names@[j],
                forall|j: int|
                    0 <= j < k ==> (#[trigger] providers@[j]).auth_vec@ == Seq::<
                        ProviderAuth,
                    >::empty(),
                forall|j: int|
                    0 <= j < k ==> (#[trigger] providers@[j]).reset == clock_for(names@[j], now),
            decreases 6 - k,
        {
            providers.push(Provider::new(names[k], now));
            k += 1;
        }
        ProviderSet { providers }
    }

    pub fn len(&self) -> (r: usize)
        ensures
            r == self@.len(),
    {
        self.providers.len()
    }

    pub fn get(&self, i: usize) -> (r: &Provider)
        requires
            i < self@.len(),
        ensures
            *r == self@[i as int],
    {
        &self.providers[i]
    }

    /// The index of the provider routed under `name`.
    pub fn get_provider(&self, name: &str) -> (r: Option<usize>)
        ensures
            r matches Some(i) ==> i < self@.len() && self@[i as int].name.name_spec() == name@,
            r is None ==> forall|k: int| 0 <= k < self@.len() ==> self@[k].name.name_spec() != name@,
    {
        let n = self.providers.len();
        let target = AuthProviderName::from_name(name);
        let p = match target {
            Some(p) => p,
            None => return None,
        };
        let mut k: usize = 0;
        while k < n
            invariant
                n == self@.len(),
                k <= n,
                p.name_spec() == name@,
                forall|j: int| 0 <= j < k ==> self@[j].name != p,
            decreases n - k,
        {
            if self.providers[k].name == p {
                return Some(k);
            }
            k += 1;
        }
        proof {
            assert forall|j: int| 0 <= j < n implies self@[j].name.name_spec() != name@ by {
                lemma_names_distinct(self@[j].name, p);
            }
        }
        None
    }

    /// Puts a credential of provider `i` on `headers`.
    pub fn apply_auth(&self, i: usize, headers: &mut HeaderList) -> (r: Option<i32>)
        requires
            i < self@.len(),
        ensures
            auth_applied(old(headers)@, final(headers)@, self@[i as int].auth_vec@, r),
    {
        self.providers[i].apply_auth(headers)
    }

    /// The lazy reset check of provider `i` at `now`.
    pub fn handle_auth_reset(&mut self, i: usize, now: i64) -> (r: bool)
        requires
            old(self).wf(),
            i < old(self)@.len(),
        ensures
            final(self).wf(),
            others_kept(old(self)@, final(self)@, i as int),
            reset_checked(old(self)@[i as int], now, final(self)@[i as int], r),
    {
        let r = self.providers[i].handle_auth_reset(now);
        r
    }

    /// Feeds an upstream status to the credential of provider `i` it was made with.
    pub fn update_auth_state_on_response(&mut self, i: usize, auth: Option<i32>, status: u16) -> (r:
        Option<u64>)
        requires
            old(self).wf(),
            i < old(self)@.len(),
        ensures
            final(self).wf(),
            others_kept(old(self)@, final(self)@, i as int),
            outcome_taken(old(self)@[i as int], auth, status, final(self)@[i as int], r),
    {
        let r = self.providers[i].update_auth_state_on_response(auth, status);
        r
    }

    /// Ends the cooldown of key `id` of provider `i`.
    pub fn end_cooldown(&mut self, i: usize, id: i32)
        requires
            old(self).wf(),
            i < old(self)@.len(),
        ensures
            final(self).wf(),
            others_kept(old(self)@, final(self)@, i as int),
            final(self)@[i as int].name == old(self)@[i as int].name,
            final(self)@[i as int].reset == old(self)@[i as int].reset,
            final(self)@[i as int].auth_vec@ == cooldown_cleared(old(self)@[i as int].auth_vec@, id),
    {
        self.providers[i].auth_vec.end_cooldown(id);
    }

    /// Merges records from the store: each goes to the provider it names, unless
    /// that provider already holds its id; records of unknown providers are
    /// dropped. Returns how many were added.
    pub fn absorb(&mut self, fetched: &Vec<ProviderAuth>) -> (r: usize)
        requires
            old(self).wf(),
        ensures
            final(self).wf(),
            set_absorbed(old(self)@, final(self)@, fetched@),
            r == capped(all_records(final(self)@).len() - all_records(old(self)@).len()),
    {
        let n = self.providers.len();
        let mut added: usize = 0;
        let mut k: usize = 0;
        while k < n
            invariant
                n == self@.len(),
                n == old(self)@.len(),
                k <= n,
                self.wf(),
                forall|j: int|
                    0 <= j < k ==> {
                        &&& (#[trigger] self@[j]).name == old(self)@[j].name
                        &&& self@[j].reset == old(self)@[j].reset
                        &&& self@[j].auth_vec@ == absorbed(
                            old(self)@[j].auth_vec@,
                            for_provider(fetched@, old(self)@[j].name.name_spec()),
                        )
                    },
                forall|j: int| k <= j < n ==> self@[j] == old(self)@[j],
                all_records(self@.take(k as int)).len() >= all_records(old(self)@.take(k as int)).len(),
                added == capped(
                    all_records(self@.take(k as int)).len() - all_records(old(self)@.take(k as int)).len(),
                ),
            decreases n - k,
        {
            let ghost before = self@;
            let name = self.providers[k].name.to_string();
            let mine = records_for(fetched, &name);
            let got = self.providers[k].auth_vec.absorb(mine);
            if added < usize::MAX - got {
                added = added + got;
            } else {
                added = usize::MAX;
            }
            proof {
                assert(self@.take(k as int) =~= before.take(k as int));
                assert(self@.take(k + 1).drop_last() =~= self@.take(k as int));
                assert(old(self)@.take(k + 1).drop_last() =~= old(self)@.take(k as int));
                assert(before[k as int] == old(self)@[k as int]);
            }
            k += 1;
        }
        assert(self@.take(n as int) =~= self@);
        assert(old(self)@.take(n as int) =~= old(self)@);
        added
    }

    /// Replaces every provider's credentials with the records from the store that
    /// name it; reset clocks are kept.
    pub fn reload(&mut self, fetched: &Vec<ProviderAuth>) -> (r: usize)
        requires
            old(self).wf(),
        ensures
            final(self).wf(),
            final(self)@.len() == old(self)@.len(),
            forall|k: int|
                0 <= k < old(self)@.len() ==> {
                    &&& (#[trigger] final(self)@[k]).name == old(self)@[k].name
                    &&& final(self)@[k].reset == old(self)@[k].reset
                    &&& final(self)@[k].auth_vec@ == absorbed(
                        Seq::empty(),
                        for_provider(fetched@, old(self)@[k].name.name_spec()),
                    )
                },
            r == capped(all_records(final(self)@).len() as int),
    {
        let n = self.providers.len();
        let mut k: usize = 0;
        while k < n
            invariant
                n == self@.len(),
                n == old(self)@.len(),
                k <= n,
                self.wf(),
                forall|j: int|
                    0 <= j < k ==> {
                        &&& (#[trigger] self@[j]).name == old(self)@[j].name
                        &&& self@[j].reset == old(self)@[j].reset
                        &&& self@[j].auth_vec@ == Seq::<ProviderAuth>::empty()
                    },
                forall|j: int| k <= j < n ==> self@[j] == old(self)@[j],
            decreases n - k,
        {
            self.providers[k].auth_vec.clear();
            k += 1;
        }
        proof {
            lemma_no_records(self@);
        }
        self.absorb(fetched)
    }

    /// Copies of every credential, provider by provider.
    pub fn snapshot(&self) -> (r: Vec<ProviderAuth>)
        ensures
            r@ == all_records(self@),
    {
        let n = self.providers.len();
        let mut out: Vec<ProviderAuth> = Vec::new();
        let mut k: usize = 0;
        while k < n
            invariant
                n == self@.len(),
                k <= n,
                out@ == all_records(self@.take(k as int)),
            decreases n - k,
        {
            let mut part = self.providers[k].auth_vec.snapshot();
            out.append(&mut part);
            k += 1;
            assert(self@.take(k as int).drop_last() =~= self@.take(k - 1));
        }
        assert(self@.take(n as int) =~= self@);
        out
    }

    /// The newest `used_at` over all credentials; `None` when there are none.
    pub fn latest_used_at(&self) -> (r: Option<i64>)
        ensures
            r is None <==> all_records(self@).len() == 0,
            r matches Some(t) ==> {
                &&& exists|j: int|
                    0 <= j < all_records(self@).len() && all_records(self@)[j].used_at == t
                &&& forall|j: int|
                    0 <= j < all_records(self@).len() ==> all_records(self@)[j].used_at <= t
            },
    {
        let all = self.snapshot();
        let n = all.len();
        let mut best: Option<i64> = None;
        let mut k: usize = 0;
        while k < n
            invariant
                n == all@.len(),
                all@ == all_records(self@),
                k <= n,
                best is None <==> k == 0,
                best matches Some(t) ==> {
                    &&& exists|j: int| 0 <= j < k && all@[j].used_at == t
                    &&& forall|j: int| 0 <= j < k ==> all@[j].used_at <= t
                },
            decreases n - k,
        {
            let u = all[k].used_at;
            match best {
                None => {
                    best = Some(u);
                },
                Some(t) => {
                    if u > t {
                        best = Some(u);
                    }
                },
            }
            k += 1;
        }
        best
    }
}

proof fn lemma_no_records(ps: Seq<Provider>)
    requires
        forall|k: int| 0 <= k < ps.len() ==> (#[trigger] ps[k]).auth_vec@.len() == 0,
    ensures
        all_records(ps).len() == 0,
    decreases ps.len(),
{
    if ps.len() > 0 {
        let p = ps.drop_last();
        assert forall|k: int| 0 <= k < p.len() implies (#[trigger] p[k]).auth_vec@.len() == 0 by {
            assert(p[k] == ps[k]);
        }
        lemma_no_records(p);
    }
}

proof fn lemma_names_distinct(a: AuthProviderName, b: AuthProviderName)
    requires
        a != b,
    ensures
        a.name_spec() != b.name_spec(),
{
    reveal_strlit("chutesapi");
    reveal_strlit("deepinfra");
    reveal_strlit("dzmm");
    reveal_strlit("google");
    reveal_strlit("nvidia");
    reveal_strlit("openrouter");
    assert("chutesapi"@[0] != "deepinfra"@[0]);
    assert("dzmm"@.len() != "chutesapi"@.len());
    assert("google"@.len() != "chutesapi"@.len());
    assert("nvidia"@.len() != "chutesapi"@.len());
    assert("openrouter"@.len() != "chutesapi"@.len());
    assert("dzmm"@.len() != "deepinfra"@.len());
    assert("google"@.len() != "deepinfra"@.len());
    assert("nvidia"@.len() != "deepinfra"@.len());
    assert("openrouter"@.len() != "deepinfra"@.len());
    assert("dzmm"@.len() != "google"@.len());
    assert("dzmm"@.len() != "nvidia"@.len());
    assert("dzmm"@.len() != "openrouter"@.len());
    assert("google"@[0] != "nvidia"@[0]);
    assert("google"@.len() != "openrouter"@.len());
    assert("nvidia"@.len() != "openrouter"@.len());
}

/// Copies of the records of `f` that name the provider `name`.
fn records_for(f: &Vec<ProviderAuth>, name: &String) -> (r: Vec<ProviderAuth>)
    ensures
        r@ == for_provider(f@, name@),
{
    let n = f.len();
    let mut out: Vec<ProviderAuth> = Vec::new();
    let mut k: usize = 0;
    while k < n
        invariant
            n == f@.len(),
            k <= n,
            out@ == for_provider(f@.take(k as int), name@),
        decreases n - k,
    {
        assert(f@.take(k + 1).drop_last() =~= f@.take(k as int));
        if f[k].provider == *name {
            out.push(f[k].duplicate());
        }
        k += 1;
    }
    assert(f@.take(n as int) =~= f@);
    out
}

} // verus!
