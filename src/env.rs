//! Configuration and the check of the gateway's own inbound authorization.
use vstd::prelude::*;
use crate::text::same_text;

verus! {

/// The settings the gateway starts from.
pub struct Env {
    pub database_url: String,
    pub webshare_token: String,
    pub auth_secret: String,
}

pub open spec fn bearer_prefix() -> Seq<char> {
    "Bearer "@
}

pub open spec fn starts_with_bearer(t: Seq<char>) -> bool {
    t.len() >= 7 && t.subrange(0, 7) == bearer_prefix()
}

/// `t` with every leading "Bearer " taken off.
pub open spec fn trim_bearer(t: Seq<char>) -> Seq<char>
    decreases t.len(),
{
    if starts_with_bearer(t) {
        trim_bearer(t.subrange(7, t.len() as int))
    } else {
        t
    }
}

impl Env {
    /// An inbound request passes when its authorization header starts with
    /// "Bearer " and what is left once every leading "Bearer " is taken off is the
    /// shared secret.
    pub fn authorizes(&self, authorization: Option<&str>) -> (r: bool)
        ensures
            r == (match authorization {
                Some(h) => starts_with_bearer(h@) && trim_bearer(h@) == self.auth_secret@,
                None => false,
            }),
    {
        proof {
            reveal_strlit("Bearer ");
        }
        let h = match authorization {
            Some(h) => h,
            None => return false,
        };
        let n = h.unicode_len();
        if n < 7 || !same_text(h.substring_char(0, 7), "Bearer ") {
            return false;
        }
        let mut start: usize = 7;
        while start <= n - 7 && same_text(h.substring_char(start, start + 7), "Bearer ")
            invariant
                n == h@.len(),
                7 <= start <= n,
                starts_with_bearer(h@),
                trim_bearer(h@) == trim_bearer(h@.subrange(start as int, n as int)),
            decreases n - start,
        {
            proof {
                let t = h@.subrange(start as int, n as int);
                assert(t.subrange(0, 7) =~= h@.subrange(start as int, start + 7));
                assert(t.subrange(7, t.len() as int) =~= h@.subrange(start + 7, n as int));
            }
            start = start + 7;
        }
        proof {
            let t = h@.subrange(start as int, n as int);
            if t.len() >= 7 {
                assert(t.subrange(0, 7) =~= h@.subrange(start as int, start + 7));
            }
        }
        let rest = h.substring_char(start, n);
        same_text(rest, self.auth_secret.as_str())
    }
}

} // verus!
