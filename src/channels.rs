//! The statement that points downstream channels at the current proxies: one row
//! per endpoint, with the channel's display name and its base URL through this
//! gateway.
use vstd::prelude::*;
use crate::proxies::Proxy;
use crate::text::{decimal, decimal_string};

verus! {

/// The row of endpoint `k` (counting from 0): `(k+1, $(2k+1), $(2k+2))`.
pub open spec fn value_row(k: nat) -> Seq<char> {
    "("@ + decimal(k + 1) + ", $"@ + decimal(2 * k + 1) + ", $"@ + decimal(2 * k + 2) + ")"@
}

/// The rows of the first `n` endpoints, separated by commas.
pub open spec fn value_rows(n: nat) -> Seq<char>
    decreases n,
{
    if n == 0 {
        Seq::empty()
    } else if n == 1 {
        value_row(0)
    } else {
        value_rows((n - 1) as nat) + ","@ + value_row((n - 1) as nat)
    }
}

pub open spec fn update_sql(n: nat) -> Seq<char> {
    "UPDATE channels SET name = data.name, base_url = data.base_url FROM (VALUES "@ + value_rows(n)
        + ") as data(id, name, base_url) WHERE channels.id = data.id"@
}

/// The update statement for `n` endpoints; parameter numbers must fit in `u32`.
pub fn channel_update_sql(n: u64) -> (r: String)
    requires
        n <= u32::MAX,
    ensures
        r@ == update_sql(n as nat),
{
    let mut s = String::from_str(
        "UPDATE channels SET name = data.name, base_url = data.base_url FROM (VALUES ",
    );
    let mut k: u64 = 0;
    while k < n
        invariant
            n <= u32::MAX,
            k <= n,
            s@ == "UPDATE channels SET name = data.name, base_url = data.base_url FROM (VALUES "@
                + value_rows(k as nat),
        decreases n - k,
    {
        let ghost before = s@;
        if k > 0 {
            s.append(",");
        }
        s.append("(");
        s.append(decimal_string(k + 1).as_str());
        s.append(", $");
        s.append(decimal_string(2 * k + 1).as_str());
        s.append(", $");
        s.append(decimal_string(2 * k + 2).as_str());
        s.append(")");
        proof {
            if k == 0 {
                assert(value_rows(1) == value_row(0));
            }
            assert(s@ =~= "UPDATE channels SET name = data.name, base_url = data.base_url FROM (VALUES "@
                + value_rows((k + 1) as nat));
        }
        k += 1;
    }
    s.append(") as data(id, name, base_url) WHERE channels.id = data.id");
    s
}

/// A channel's display name: `address:port`.
pub open spec fn channel_name(p: Proxy) -> Seq<char> {
    p.proxy_address@ + ":"@ + decimal(p.port as nat)
}

/// A channel's base URL through the gateway, on the given endpoint.
pub open spec fn channel_base_url(p: Proxy) -> Seq<char> {
    "https://lift-proxy-eyo5.shuttle.app/"@ + channel_name(p) + "/"@ + p.username@ + ":"@
        + p.password@ + "/deepinfra"@
}

/// The statement's parameters: name then base URL, endpoint by endpoint.
pub fn channel_params(proxies: &Vec<Proxy>) -> (r: Vec<String>)
    ensures
        r@.len() == 2 * proxies@.len(),
        forall|k: int|
            0 <= k < proxies@.len() ==> r@[2 * k]@ == channel_name(#[trigger] proxies@[k])
                && r@[2 * k + 1]@ == channel_base_url(proxies@[k]),
{
    let n = proxies.len();
    let mut out: Vec<String> = Vec::new();
    let mut k: usize = 0;
    while k < n
        invariant
            n == proxies@.len(),
            k <= n,
            out@.len() == 2 * k,
            forall|j: int|
                0 <= j < k ==> out@[2 * j]@ == channel_name(#[trigger] proxies@[j]) && out@[2 * j
                    + 1]@ == channel_base_url(proxies@[j]),
        decreases n - k,
    {
        let p = &proxies[k];
        let mut name = p.proxy_address.clone();
        name.append(":");
        name.append(decimal_string(p.port as u64).as_str());
        let mut url = String::from_str("https://lift-proxy-eyo5.shuttle.app/");
        url.append(name.as_str());
        url.append("/");
        url.append(p.username.as_str());
        url.append(":");
        url.append(p.password.as_str());
        url.append("/deepinfra");
        proof {
            assert(name@ =~= channel_name(*p));
            assert(url@ =~= channel_base_url(*p));
        }
        out.push(name);
        out.push(url);
        proof {
            assert forall|j: int| 0 <= j < k + 1 implies out@[2 * j]@ == channel_name(
                #[trigger] proxies@[j],
            ) && out@[2 * j + 1]@ == channel_base_url(proxies@[j]) by {
                if j == k {
                    assert(out@[2 * j] == out@[2 * k]);
                }
            }
        }
        k += 1;
    }
    out
}

} // verus!
