//! Shapes of the data exchanged with the backing store.
use vstd::prelude::*;
use crate::credentials::ProviderAuth;

verus! {

/// Credential state laid out column by column, as a bulk update by id binds it.
pub struct AuthColumns {
    pub ids: Vec<i32>,
    pub sents: Vec<i32>,
    pub valids: Vec<bool>,
    pub used_ats: Vec<i64>,
    pub cooldowns: Vec<bool>,
}

impl AuthColumns {
    /// Row `i` of every column comes from record `i`.
    pub fn from_records(records: &Vec<ProviderAuth>) -> (r: AuthColumns)
        ensures
            r.ids@ == records@.map_values(|a: ProviderAuth| a.id),
            r.sents@ == records@.map_values(|a: ProviderAuth| a.sent),
            r.valids@ == records@.map_values(|a: ProviderAuth| a.valid),
            r.used_ats@ == records@.map_values(|a: ProviderAuth| a.used_at),
            r.cooldowns@ == records@.map_values(|a: ProviderAuth| a.cooldown),
    {
        let n = records.len();
        let mut ids: Vec<i32> = Vec::new();
        let mut sents: Vec<i32> = Vec::new();
        let mut valids: Vec<bool> = Vec::new();
        let mut used_ats: Vec<i64> = Vec::new();
        let mut cooldowns: Vec<bool> = Vec::new();
        let mut k: usize = 0;
        while k < n
            invariant
                n == records@.len(),
                k <= n,
                ids@ == records@.take(k as int).map_values(|a: ProviderAuth| a.id),
                sents@ == records@.take(k as int).map_values(|a: ProviderAuth| a.sent),
                valids@ == records@.take(k as int).map_values(|a: ProviderAuth| a.valid),
                used_ats@ == records@.take(k as int).map_values(|a: ProviderAuth| a.used_at),
                cooldowns@ == records@.take(k as int).map_values(|a: ProviderAuth| a.cooldown),
            decreases n - k,
        {
            let a = &records[k];
            ids.push(a.id);
            sents.push(a.sent);
            valids.push(a.valid);
            used_ats.push(a.used_at);
            cooldowns.push(a.cooldown);
            k += 1;
            let ghost t = records@.take(k as int);
            assert(ids@ =~= t.map_values(|a: ProviderAuth| a.id));
            assert(sents@ =~= t.map_values(|a: ProviderAuth| a.sent));
            assert(valids@ =~= t.map_values(|a: ProviderAuth| a.valid));
            assert(used_ats@ =~= t.map_values(|a: ProviderAuth| a.used_at));
            assert(cooldowns@ =~= t.map_values(|a: ProviderAuth| a.cooldown));
        }
        assert(records@.take(n as int) =~= records@);
        AuthColumns { ids, sents, valids, used_ats, cooldowns }
    }
}

} // verus!
