use lift_proxy::clock::{handle_reset_check, next_reset_after, refresh_due, split_day, sync_due, ResetClock, MS_PER_DAY};
use lift_proxy::credentials::ProviderAuth;
use lift_proxy::providers::{AuthProviderName, Provider, GOOGLE_RESET_MS};

const DAY: i64 = 20_000 * MS_PER_DAY;
const HOUR: i64 = 3_600_000;
const MINUTE: i64 = 60_000;

#[test]
fn reset_fires_once_after_seven() {
    let mut clock = ResetClock::new(7 * HOUR, DAY - 12 * HOUR);
    assert!(!clock.check(DAY + 6 * HOUR + 59 * MINUTE));
    let mut fired = 0;
    for i in 0..10 {
        if clock.check(DAY + 7 * HOUR + MINUTE + i) {
            fired += 1;
        }
    }
    assert_eq!(fired, 1);
    assert!(clock.check(DAY + MS_PER_DAY + 7 * HOUR));
}

#[test]
fn reset_after_check_before_reset_time_today() {
    assert!(handle_reset_check(DAY + 8 * HOUR, DAY + 6 * HOUR, 7 * HOUR));
    assert!(!handle_reset_check(DAY + 8 * HOUR, DAY + 7 * HOUR, 7 * HOUR));
    assert!(!handle_reset_check(DAY + 6 * HOUR, DAY - MS_PER_DAY, 7 * HOUR));
    assert!(handle_reset_check(DAY, DAY - 1, 0));
}

#[test]
fn provider_reset_zeroes_counters() {
    let mut p = Provider::new(AuthProviderName::Google, DAY - HOUR);
    p.auth_vec.absorb(vec![ProviderAuth {
        id: 4,
        provider: "google".to_string(),
        api_key: "k".to_string(),
        sent: 12,
        max: 12,
        valid: true,
        used_at: DAY - HOUR,
        cooldown: true,
        comments: Some("note".to_string()),
    }]);
    assert!(!p.handle_auth_reset(DAY + GOOGLE_RESET_MS - 1));
    assert_eq!(p.auth_vec.get(0).sent, 12);
    assert!(p.handle_auth_reset(DAY + GOOGLE_RESET_MS));
    assert_eq!(p.auth_vec.get(0).sent, 0);
    assert!(p.auth_vec.get(0).cooldown);
    assert!(!p.handle_auth_reset(DAY + GOOGLE_RESET_MS + 1));
    let mut n = Provider::new(AuthProviderName::Nvidia, 0);
    assert!(!n.handle_auth_reset(DAY + 12 * HOUR));
}

#[test]
fn next_reset_instants() {
    assert_eq!(next_reset_after(DAY + 6 * HOUR, 7 * HOUR), DAY + 7 * HOUR);
    assert_eq!(next_reset_after(DAY + 7 * HOUR, 7 * HOUR), DAY + MS_PER_DAY + 7 * HOUR);
    assert_eq!(next_reset_after(DAY + 9 * HOUR, 7 * HOUR), DAY + MS_PER_DAY + 7 * HOUR);
    assert_eq!(next_reset_after(DAY, 0), DAY + MS_PER_DAY);
    assert_eq!(next_reset_after(-1, 0), 0);
}

#[test]
fn day_split_values() {
    assert_eq!(split_day(DAY + 5), (20_000, 5));
    assert_eq!(split_day(-1), (-1, MS_PER_DAY - 1));
    assert_eq!(split_day(0), (0, 0));
}

#[test]
fn sync_cadence() {
    let t = DAY;
    assert!(!sync_due(t + 4 * MINUTE, t, Some(t + 4 * MINUTE)));
    assert!(sync_due(t + 6 * MINUTE, t, Some(t + 5 * MINUTE)));
    assert!(!sync_due(t + 6 * MINUTE, t, Some(t - MINUTE)));
    assert!(!sync_due(t + 6 * MINUTE, t, None));
    assert!(sync_due(t + 8 * 60 * MINUTE + 1, t, None));
    assert!(!sync_due(t + 8 * 60 * MINUTE, t, None));
}

#[test]
fn refresh_debounce() {
    assert!(!refresh_due(DAY + 5 * MINUTE, DAY));
    assert!(refresh_due(DAY + 5 * MINUTE + 1, DAY));
}
