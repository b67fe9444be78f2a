//! The fixed set of upstream providers: their names, endpoints, header rules and
//! reset clocks, and the credential pool each of them owns.
use vstd::prelude::*;
use crate::clock::{ResetClock, reset_due, now_millis};
use crate::credentials::{
    CredentialPool, ProviderAuth, any_usable, is_lru_choice, outcome_applied,
    quota_reset, has_id, COOLDOWN_SECONDS, STATUS_TOO_MANY_REQUESTS,
};
use crate::headers::{HeaderList, has_name, with_field};
use crate::text::same_text;

verus! {

/// Reset time of Dzmm's free quota: 11:00 UTC.
pub const DZMM_RESET_MS: i64 = 39_600_000;

/// Reset time of Google's quota: 07:00 UTC.
pub const GOOGLE_RESET_MS: i64 = 25_200_000;

/// Reset time of OpenRouter's quota: midnight UTC.
pub const OPENROUTER_RESET_MS: i64 = 0;

/// The supported upstream providers.
#[derive(PartialEq, Eq, Structural, Clone, Copy, Debug)]
pub enum AuthProviderName {
    ChutesAPI,
    Deepinfra,
    Dzmm,
    Google,
    Nvidia,
    OpenRouter,
}

impl AuthProviderName {
    /// The canonical lowercase name, used for routing and as the store's key.
    pub open spec fn name_spec(self) -> Seq<char> {
        match self {
            AuthProviderName::ChutesAPI => "chutesapi"@,
            AuthProviderName::Deepinfra => "deepinfra"@,
            AuthProviderName::Dzmm => "dzmm"@,
            AuthProviderName::Google => "google"@,
            AuthProviderName::Nvidia => "nvidia"@,
            AuthProviderName::OpenRouter => "openrouter"@,
        }
    }

    fn name_str(&self) -> (r: &'static str)
        ensures
            r@ == self.name_spec(),
    {
        match self {
            AuthProviderName::ChutesAPI => "chutesapi",
            AuthProviderName::Deepinfra => "deepinfra",
            AuthProviderName::Dzmm => "dzmm",
            AuthProviderName::Google => "google",
            AuthProviderName::Nvidia => "nvidia",
            AuthProviderName::OpenRouter => "openrouter",
        }
    }

    pub fn to_string(&self) -> (r: String)
        ensures
            r@ == self.name_spec(),
    {
        String::from_str(self.name_str())
    }

    /// Every provider, in routing order.
    pub fn all() -> (r: Vec<AuthProviderName>)
        ensures
            r@ == seq![
                AuthProviderName::ChutesAPI,
                AuthProviderName::Deepinfra,
                AuthProviderName::Dzmm,
                AuthProviderName::Google,
                AuthProviderName::Nvidia,
                AuthProviderName::OpenRouter,
            ],
    {
        vec![
            AuthProviderName::ChutesAPI,
            AuthProviderName::Deepinfra,
            AuthProviderName::Dzmm,
            AuthProviderName::Google,
            AuthProviderName::Nvidia,
            AuthProviderName::OpenRouter,
        ]
    }

    /// The provider with canonical name `name`.
    pub fn from_name(name: &str) -> (r: Option<AuthProviderName>)
        ensures
            r matches Some(p) ==> p.name_spec() == name@,
            r is None ==> forall|p: AuthProviderName| p.name_spec() != name@,
    {
        let all = AuthProviderName::all();
        let mut k: usize = 0;
        while k < all.len()
            invariant
                all@ == seq![
                    AuthProviderName::ChutesAPI,
                    AuthProviderName::Deepinfra,
                    AuthProviderName::Dzmm,
                    AuthProviderName::Google,
                    AuthProviderName::Nvidia,
                    AuthProviderName::OpenRouter,
                ],
                k <= all@.len(),
                forall|j: int| 0 <= j < k ==> all@[j].name_spec() != name@,
            decreases all@.len() - k,
        {
            let p = all[k];
            if same_text(p.name_str(), name) {
                return Some(p);
            }
            k += 1;
        }
        proof {
            assert forall|p: AuthProviderName| p.name_spec() != name@ by {
                match p {
                    AuthProviderName::ChutesAPI => assert(all@[0] == p),
                    AuthProviderName::Deepinfra => assert(all@[1] == p),
                    AuthProviderName::Dzmm => assert(all@[2] == p),
                    AuthProviderName::Google => assert(all@[3] == p),
                    AuthProviderName::Nvidia => assert(all@[4] == p),
                    AuthProviderName::OpenRouter => assert(all@[5] == p),
                }
            }
        }
        None
    }

    pub open spec fn models_url_spec(self) -> Seq<char> {
        match self {
            AuthProviderName::ChutesAPI => "https://llm.chutes.ai/v1/models"@,
            AuthProviderName::Deepinfra => "https://api.deepinfra.com/v1/openai/models"@,
            AuthProviderName::Dzmm => "https://www.gpt4novel.com/api/xiaoshuoai/ext/v1/models"@,
            AuthProviderName::Google =>
                "https://generativelanguage.googleapis.com/v1beta/openai/models"@,
            AuthProviderName::Nvidia => "https://integrate.api.nvidia.com/v1/models"@,
            AuthProviderName::OpenRouter => "https://openrouter.ai/api/v1/models"@,
        }
    }

    pub open spec fn chat_url_spec(self) -> Seq<char> {
        match self {
            AuthProviderName::ChutesAPI => "https://llm.chutes.ai/v1/chat/completions"@,
            AuthProviderName::Deepinfra =>
                "https://api.deepinfra.com/v1/openai/chat/completions"@,
            AuthProviderName::Dzmm =>
                "https://www.gpt4novel.com/api/xiaoshuoai/ext/v1/chat/completions"@,
            AuthProviderName::Google =>
                "https://generativelanguage.googleapis.com/v1beta/openai/chat/completions"@,
            AuthProviderName::Nvidia => "https://integrate.api.nvidia.com/v1/chat/completions"@,
            AuthProviderName::OpenRouter => "https://openrouter.ai/api/v1/chat/completions"@,
        }
    }

    /// The upstream URL that lists models.
    pub fn models_url(&self) -> (r: String)
        ensures
            r@ == self.models_url_spec(),
    {
        let s = match self {
            AuthProviderName::ChutesAPI => "https://llm.chutes.ai/v1/models",
            AuthProviderName::Deepinfra => "https://api.deepinfra.com/v1/openai/models",
            AuthProviderName::Dzmm => "https://www.gpt4novel.com/api/xiaoshuoai/ext/v1/models",
            AuthProviderName::Google =>
                "https://generativelanguage.googleapis.com/v1beta/openai/models",
            AuthProviderName::Nvidia => "https://integrate.api.nvidia.com/v1/models",
            AuthProviderName::OpenRouter => "https://openrouter.ai/api/v1/models",
        };
        String::from_str(s)
    }

    /// The upstream chat-completion URL.
    pub fn chat_url(&self) -> (r: String)
        ensures
            r@ == self.chat_url_spec(),
    {
        let s = match self {
            AuthProviderName::ChutesAPI => "https://llm.chutes.ai/v1/chat/completions",
            AuthProviderName::Deepinfra => "https://api.deepinfra.com/v1/openai/chat/completions",
            AuthProviderName::Dzmm =>
                "https://www.gpt4novel.com/api/xiaoshuoai/ext/v1/chat/completions",
            AuthProviderName::Google =>
                "https://generativelanguage.googleapis.com/v1beta/openai/chat/completions",
            AuthProviderName::Nvidia => "https://integrate.api.nvidia.com/v1/chat/completions",
            AuthProviderName::OpenRouter => "https://openrouter.ai/api/v1/chat/completions",
        };
        String::from_str(s)
    }

    /// The daily reset time of the provider's quotas in milliseconds after midnight
    /// UTC, for the providers that have one.
    pub open spec fn reset_time_spec(self) -> Option<i64> {
        match self {
            AuthProviderName::Dzmm => Some(DZMM_RESET_MS),
            AuthProviderName::Google => Some(GOOGLE_RESET_MS),
            AuthProviderName::OpenRouter => Some(OPENROUTER_RESET_MS),
            _ => None,
        }
    }

    pub fn reset_time(&self) -> (r: Option<i64>)
        ensures
            r == self.reset_time_spec(),
    {
        match self {
            AuthProviderName::Dzmm => Some(DZMM_RESET_MS),
            AuthProviderName::Google => Some(GOOGLE_RESET_MS),
            AuthProviderName::OpenRouter => Some(OPENROUTER_RESET_MS),
            _ => None,
        }
    }

    /// Header rule for the models request: nothing of the caller's headers goes
    /// upstream.
    pub fn get_header_modifier(&self, headers: &mut HeaderList)
        ensures
            final(headers)@ == Seq::<(Seq<char>, Seq<char>)>::empty(),
    {
        headers.clear();
    }

    /// Header rule for the chat request: the caller's headers are dropped and the
    /// body is declared as JSON.
    pub fn post_header_modifier(&self, headers: &mut HeaderList)
        ensures
            final(headers)@ == seq![("content-type"@, "application/json"@)],
    {
        headers.clear();
        headers.insert("content-type", String::from_str("application/json"));
        assert(crate::headers::without_name(Seq::<(Seq<char>, Seq<char>)>::empty(), "content-type"@)
            =~= Seq::<(Seq<char>, Seq<char>)>::empty());
    }
}

/// One provider with the credentials it owns and, where it has one, its daily
/// reset clock.
pub struct Provider {
    pub name: AuthProviderName,
    pub auth_vec: CredentialPool,
    pub reset: Option<ResetClock>,
}

pub open spec fn clock_for(name: AuthProviderName, now: i64) -> Option<ResetClock> {
    match name.reset_time_spec() {
        Some(r) => Some((ResetClock { reset_at: r, last_check: now })),
        None => None,
    }
}

/// `value` with "Bearer " in front.
pub open spec fn bearer(key: Seq<char>) -> Seq<char> {
    "Bearer "@ + key
}

/// What putting a credential on headers `before` from pool `pool` gives: headers
/// that carry an authorization stay as they are and nothing is picked; otherwise the
/// least-recently-used usable key goes in as a bearer token and its id comes back;
/// with no usable key nothing changes.
pub open spec fn auth_applied(
    before: Seq<(Seq<char>, Seq<char>)>,
    after: Seq<(Seq<char>, Seq<char>)>,
    pool: Seq<ProviderAuth>,
    r: Option<i32>,
) -> bool {
    if has_name(before, "authorization"@) || !any_usable(pool) {
        r is None && after == before
    } else {
        exists|i: int|
            {
                &&& is_lru_choice(pool, i)
                &&& r == Some(pool[i].id)
                &&& after == with_field(before, "authorization"@, bearer(pool[i].api_key@))
            }
    }
}

/// `q` is provider `p` after the lazy reset check at `now`, which answered `r`.
pub open spec fn reset_checked(p: Provider, now: i64, q: Provider, r: bool) -> bool {
    &&& q.wf()
    &&& q.name == p.name
    &&& match p.reset {
        None => !r && q.reset is None && q.auth_vec@ == p.auth_vec@,
        Some(c) => {
            &&& r == reset_due(now as int, c.last_check as int, c.reset_at as int)
            &&& q.reset == Some((ResetClock { reset_at: c.reset_at, last_check: now }))
            &&& q.auth_vec@ == (if r {
                quota_reset(p.auth_vec@)
            } else {
                p.auth_vec@
            })
        },
    }
}

/// `q` is provider `p` once the upstream status of a request made with credential
/// `auth` was taken in at some time; `r` is the cooldown to schedule.
pub open spec fn outcome_taken(p: Provider, auth: Option<i32>, status: u16, q: Provider, r: Option<u64>) -> bool {
    &&& q.wf()
    &&& q.name == p.name
    &&& q.reset == p.reset
    &&& match auth {
        None => r is None && q.auth_vec@ == p.auth_vec@,
        Some(id) => {
            &&& exists|now: i64| q.auth_vec@ == outcome_applied(p.auth_vec@, id, status, now)
            &&& r == (if status == STATUS_TOO_MANY_REQUESTS && has_id(p.auth_vec@, id) {
                Some(COOLDOWN_SECONDS)
            } else {
                None
            })
        },
    }
}

impl Provider {
    pub open spec fn wf(&self) -> bool {
        self.auth_vec.wf()
    }

    /// A provider with no credentials yet; its reset clock counts `now` as the
    /// previous check.
    pub fn new(name: AuthProviderName, now: i64) -> (r: Provider)
        ensures
            r.wf(),
            r.name == name,
            r.auth_vec@ == Seq::<ProviderAuth>::empty(),
            r.reset == clock_for(name, now),
    {
        let reset = match name.reset_time() {
            Some(t) => Some(ResetClock::new(t, now)),
            None => None,
        };
        Provider { name, auth_vec: CredentialPool::new(), reset }
    }

    /// The index of the credential a least-recently-used pick returns.
    pub fn pick_auth(&self) -> (r: Option<usize>)
        ensures
            r is None <==> !any_usable(self.auth_vec@),
            r matches Some(i) ==> is_lru_choice(self.auth_vec@, i as int),
    {
        self.auth_vec.pick()
    }

    /// Puts a picked credential on a request. Headers that already carry an
    /// authorization are left alone (the caller's own credentials win) and nothing
    /// is picked. Otherwise the least-recently-used key goes in as
    /// `authorization: Bearer <key>` and its id is returned for the outcome; with no
    /// usable key the request goes on without one.
    pub fn apply_auth(&self, headers: &mut HeaderList) -> (r: Option<i32>)
        ensures
            auth_applied(old(headers)@, final(headers)@, self.auth_vec@, r),
    {
        if headers.contains("authorization") {
            return None;
        }
        match self.auth_vec.pick() {
            None => None,
            Some(i) => {
                let entry = self.auth_vec.get(i);
                let mut value = String::from_str("Bearer ");
                value.append(entry.api_key.as_str());
                headers.insert("authorization", value);
                Some(entry.id)
            },
        }
    }

    /// The lazy quota-reset check at `now`: on a provider with a reset clock, the
    /// check is recorded and, when the reset is due, every usage counter goes back
    /// to zero. Returns whether the reset fired (the store then needs the same reset).
    pub fn handle_auth_reset(&mut self, now: i64) -> (r: bool)
        requires
            old(self).wf(),
        ensures
            reset_checked(*old(self), now, *final(self), r),
    {
        match self.reset {
            None => false,
            Some(c) => {
                let mut clock = c;
                let fire = clock.check(now);
                self.reset = Some(clock);
                if fire {
                    self.auth_vec.reset_quota();
                }
                fire
            },
        }
    }

    /// Feeds the upstream status of a request to the credential it was made with,
    /// stamped with the current time. Without a credential nothing changes. On 429
    /// the result is the number of seconds after which the cooldown ends.
    pub fn update_auth_state_on_response(&mut self, auth: Option<i32>, status: u16) -> (r: Option<u64>)
        requires
            old(self).wf(),
        ensures
            outcome_taken(*old(self), auth, status, *final(self), r),
    {
        match auth {
            None => None,
            Some(id) => {
                let now = now_millis();
                self.auth_vec.record_outcome(id, status, now)
            },
        }
    }
}

} // verus!
