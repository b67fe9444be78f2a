//! Decisions of the per-request pipeline: which egress a route flag selects and
//! when a proxy is blamed for a failure.
use vstd::prelude::*;
use crate::credentials::STATUS_TOO_MANY_REQUESTS;
use crate::text::same_text;

verus! {

/// How a request leaves the gateway.
#[derive(PartialEq, Eq, Structural, Clone, Copy, Debug)]
pub enum Egress {
    Direct,
    Proxied,
}

/// The egress flag of the chat route: "x" goes direct, "o" through a proxy;
/// anything else is rejected.
pub fn handle_proxy_flag(flag: &str) -> (r: Option<Egress>)
    ensures
        flag@ == "x"@ ==> r == Some(Egress::Direct),
        flag@ == "o"@ ==> r == Some(Egress::Proxied),
        flag@ != "x"@ && flag@ != "o"@ ==> r is None,
{
    proof {
        reveal_strlit("x");
        reveal_strlit("o");
        assert("x"@[0] != "o"@[0]);
    }
    if same_text(flag, "x") {
        Some(Egress::Direct)
    } else if same_text(flag, "o") {
        Some(Egress::Proxied)
    } else {
        None
    }
}

/// The egress flag of the models route: "_" goes direct, "r" through a proxy;
/// anything else is rejected.
pub fn models_proxy_flag(flag: &str) -> (r: Option<Egress>)
    ensures
        flag@ == "_"@ ==> r == Some(Egress::Direct),
        flag@ == "r"@ ==> r == Some(Egress::Proxied),
        flag@ != "_"@ && flag@ != "r"@ ==> r is None,
{
    proof {
        reveal_strlit("_");
        reveal_strlit("r");
        assert("_"@[0] != "r"@[0]);
    }
    if same_text(flag, "_") {
        Some(Egress::Direct)
    } else if same_text(flag, "r") {
        Some(Egress::Proxied)
    } else {
        None
    }
}

/// Whether the proxy a request went through is evicted once the upstream answered
/// `status`: on 429 only when no credential was applied to the request, since then
/// no key can be blamed.
pub fn evict_after_status(status: u16, credential_applied: bool, proxy_used: bool) -> (r: bool)
    ensures
        r == (proxy_used && status == STATUS_TOO_MANY_REQUESTS && !credential_applied),
{
    proxy_used && status == STATUS_TOO_MANY_REQUESTS && !credential_applied
}

} // verus!
