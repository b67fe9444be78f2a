use lift_proxy::credentials::{CredentialPool, ProviderAuth, COOLDOWN_SECONDS};
use lift_proxy::headers::HeaderList;
use lift_proxy::providers::{AuthProviderName, Provider};
use lift_proxy::store::AuthColumns;

fn key(id: i32, sent: i32, max: i32, valid: bool, used_at: i64) -> ProviderAuth {
    ProviderAuth {
        id,
        provider: "google".to_string(),
        api_key: format!("key-{}", id),
        sent,
        max,
        valid,
        used_at,
        cooldown: false,
        comments: None,
    }
}

fn pool_of(records: Vec<ProviderAuth>) -> CredentialPool {
    let mut pool = CredentialPool::new();
    pool.absorb(records);
    pool
}

fn picked_id(pool: &CredentialPool) -> Option<i32> {
    pool.pick().map(|i| pool.get(i).id)
}

#[test]
fn single_key_quota_runs_out() {
    let mut pool = pool_of(vec![key(1, 0, 1, true, 0)]);
    assert_eq!(picked_id(&pool), Some(1));
    assert_eq!(pool.record_outcome(1, 200, 10), None);
    assert_eq!(pool.get(0).sent, 1);
    assert_eq!(pool.get(0).used_at, 10);
    assert_eq!(picked_id(&pool), None);
}

#[test]
fn unauthorized_key_stays_out_after_reset() {
    let mut pool = pool_of(vec![key(1, 0, 0, true, 0)]);
    pool.record_outcome(1, 401, 5);
    assert!(!pool.get(0).valid);
    assert_eq!(picked_id(&pool), None);
    pool.reset_quota();
    assert_eq!(picked_id(&pool), None);
    pool.record_outcome(1, 200, 6);
    assert_eq!(picked_id(&pool), None);
}

#[test]
fn lru_round_robin_visits_every_key() {
    let mut pool = pool_of(vec![key(1, 0, 0, true, 30), key(2, 0, 0, true, 10), key(3, 0, 0, true, 20)]);
    let mut order = Vec::new();
    let mut now = 100;
    for _ in 0..6 {
        let id = picked_id(&pool).unwrap();
        order.push(id);
        pool.record_outcome(id, 200, now);
        now += 1;
    }
    assert_eq!(order, vec![2, 3, 1, 2, 3, 1]);
}

#[test]
fn lru_tie_goes_to_pool_order() {
    let pool = pool_of(vec![key(7, 0, 0, true, 5), key(3, 0, 0, true, 5)]);
    assert_eq!(pool.pick(), Some(0));
}

#[test]
fn lru_skips_unusable_keys() {
    let pool = pool_of(vec![key(1, 0, 0, false, 0), key(2, 3, 3, true, 1), key(3, 0, 5, true, 9)]);
    assert_eq!(picked_id(&pool), Some(3));
}

#[test]
fn quota_stops_and_resumes_after_reset() {
    let mut pool = pool_of(vec![key(1, 0, 2, true, 0), key(2, 0, 0, false, 0)]);
    pool.record_outcome(1, 200, 1);
    assert_eq!(picked_id(&pool), Some(1));
    pool.record_outcome(1, 200, 2);
    assert_eq!(pool.get(0).sent, 2);
    assert_eq!(picked_id(&pool), None);
    pool.reset_quota();
    assert_eq!(pool.get(0).sent, 0);
    assert_eq!(picked_id(&pool), Some(1));
}

#[test]
fn sent_counter_holds_at_the_top() {
    let mut pool = pool_of(vec![key(1, i32::MAX, 0, true, 0)]);
    pool.record_outcome(1, 200, 1);
    assert_eq!(pool.get(0).sent, i32::MAX);
}

#[test]
fn rate_limit_sets_cooldown_until_its_end() {
    let mut pool = pool_of(vec![key(1, 0, 0, true, 0)]);
    assert_eq!(pool.record_outcome(1, 429, 50), Some(COOLDOWN_SECONDS));
    assert_eq!(COOLDOWN_SECONDS, 30 * 60);
    assert!(pool.get(0).cooldown);
    assert_eq!(pool.get(0).used_at, 50);
    // the cooldown is advisory: the key can still be picked
    assert_eq!(picked_id(&pool), Some(1));
    pool.end_cooldown(1);
    assert!(!pool.get(0).cooldown);
    assert!(pool.get(0).valid);
}

#[test]
fn other_status_only_stamps_time() {
    let mut pool = pool_of(vec![key(1, 4, 9, true, 0)]);
    assert_eq!(pool.record_outcome(1, 500, 77), None);
    let e = pool.get(0);
    assert_eq!((e.sent, e.valid, e.cooldown, e.used_at), (4, true, false, 77));
}

#[test]
fn outcome_for_unknown_key_changes_nothing() {
    let mut pool = pool_of(vec![key(1, 0, 0, true, 3)]);
    assert_eq!(pool.record_outcome(9, 429, 77), None);
    assert_eq!(pool.get(0).used_at, 3);
    assert!(!pool.get(0).cooldown);
}

#[test]
fn absorb_skips_known_ids_and_is_idempotent() {
    let mut pool = pool_of(vec![key(1, 5, 0, true, 3)]);
    let fetched = vec![key(1, 0, 0, true, 0), key(2, 0, 0, true, 0), key(2, 1, 0, true, 0)];
    let again = vec![key(1, 0, 0, true, 0), key(2, 0, 0, true, 0), key(2, 1, 0, true, 0)];
    assert_eq!(pool.absorb(fetched), 1);
    assert_eq!(pool.len(), 2);
    assert_eq!(pool.get(0).sent, 5);
    assert_eq!(pool.get(1).id, 2);
    assert_eq!(pool.get(1).sent, 0);
    let before: Vec<(i32, i32, i64)> = pool.snapshot().iter().map(|a| (a.id, a.sent, a.used_at)).collect();
    assert_eq!(pool.absorb(again), 0);
    let after: Vec<(i32, i32, i64)> = pool.snapshot().iter().map(|a| (a.id, a.sent, a.used_at)).collect();
    assert_eq!(before, after);
}

#[test]
fn apply_auth_inserts_bearer_of_lru_key() {
    let mut p = Provider::new(AuthProviderName::Nvidia, 0);
    p.auth_vec.absorb(vec![key(1, 0, 0, true, 9), key(2, 0, 0, true, 4)]);
    let mut h = HeaderList::new();
    h.append("content-type".to_string(), "application/json".to_string());
    assert_eq!(p.apply_auth(&mut h), Some(2));
    assert_eq!(h.len(), 2);
    assert_eq!(h.field(1), ("authorization", "Bearer key-2"));
}

#[test]
fn apply_auth_keeps_caller_authorization() {
    let mut p = Provider::new(AuthProviderName::Nvidia, 0);
    p.auth_vec.absorb(vec![key(1, 0, 0, true, 9)]);
    let mut h = HeaderList::new();
    h.append("authorization".to_string(), "Bearer mine".to_string());
    assert_eq!(p.apply_auth(&mut h), None);
    assert_eq!(h.len(), 1);
    assert_eq!(h.field(0), ("authorization", "Bearer mine"));
}

#[test]
fn apply_auth_without_usable_key_leaves_headers() {
    let p = Provider::new(AuthProviderName::Nvidia, 0);
    let mut h = HeaderList::new();
    assert_eq!(p.apply_auth(&mut h), None);
    assert_eq!(h.len(), 0);
}

#[test]
fn live_outcome_stamps_current_time() {
    let mut p = Provider::new(AuthProviderName::Nvidia, 0);
    p.auth_vec.absorb(vec![key(1, 0, 0, true, 0)]);
    assert_eq!(p.update_auth_state_on_response(Some(1), 429), Some(COOLDOWN_SECONDS));
    assert!(p.auth_vec.get(0).used_at > 1_600_000_000_000);
    assert!(p.auth_vec.get(0).cooldown);
    assert_eq!(p.update_auth_state_on_response(None, 200), None);
    assert_eq!(p.auth_vec.get(0).sent, 0);
}

#[test]
fn columns_follow_records() {
    let mut b = key(8, 2, 0, false, 11);
    b.cooldown = true;
    let cols = AuthColumns::from_records(&vec![key(7, 1, 3, true, 10), b]);
    assert_eq!(cols.ids, vec![7, 8]);
    assert_eq!(cols.sents, vec![1, 2]);
    assert_eq!(cols.valids, vec![true, false]);
    assert_eq!(cols.used_ats, vec![10, 11]);
    assert_eq!(cols.cooldowns, vec![false, true]);
}
