use lift_proxy::credentials::ProviderAuth;
use lift_proxy::gateway::ProviderSet;
use lift_proxy::headers::HeaderList;
use lift_proxy::pipeline::{evict_after_status, handle_proxy_flag, models_proxy_flag, Egress};
use lift_proxy::providers::AuthProviderName;

fn rec(id: i32, provider: &str, used_at: i64) -> ProviderAuth {
    ProviderAuth {
        id,
        provider: provider.to_string(),
        api_key: format!("k{}", id),
        sent: 0,
        max: 0,
        valid: true,
        used_at,
        cooldown: false,
        comments: None,
    }
}

#[test]
fn provider_names_and_lookup() {
    let set = ProviderSet::new(0);
    assert_eq!(set.len(), 6);
    let names: Vec<String> = (0..6).map(|i| set.get(i).name.to_string()).collect();
    assert_eq!(names, vec!["chutesapi", "deepinfra", "dzmm", "google", "nvidia", "openrouter"]);
    assert_eq!(set.get_provider("google"), Some(3));
    assert_eq!(set.get_provider("openrouter"), Some(5));
    assert_eq!(set.get_provider("Google"), None);
    assert_eq!(set.get_provider("haomo"), None);
    assert_eq!(AuthProviderName::from_name("dzmm"), Some(AuthProviderName::Dzmm));
    assert_eq!(AuthProviderName::from_name(""), None);
}

#[test]
fn provider_endpoints() {
    assert_eq!(AuthProviderName::Nvidia.models_url(), "https://integrate.api.nvidia.com/v1/models");
    assert_eq!(AuthProviderName::OpenRouter.chat_url(), "https://openrouter.ai/api/v1/chat/completions");
    assert_eq!(AuthProviderName::Dzmm.chat_url(), "https://www.gpt4novel.com/api/xiaoshuoai/ext/v1/chat/completions");
    assert_eq!(AuthProviderName::Dzmm.reset_time(), Some(11 * 3_600_000));
    assert_eq!(AuthProviderName::Google.reset_time(), Some(7 * 3_600_000));
    assert_eq!(AuthProviderName::OpenRouter.reset_time(), Some(0));
    assert_eq!(AuthProviderName::ChutesAPI.reset_time(), None);
}

#[test]
fn header_rules() {
    let mut h = HeaderList::new();
    h.append("host".to_string(), "gw".to_string());
    h.append("user-agent".to_string(), "x".to_string());
    AuthProviderName::Google.post_header_modifier(&mut h);
    assert_eq!(h.len(), 1);
    assert_eq!(h.field(0), ("content-type", "application/json"));
    AuthProviderName::Google.get_header_modifier(&mut h);
    assert_eq!(h.len(), 0);
}

#[test]
fn header_insert_replaces_name() {
    let mut h = HeaderList::new();
    h.append("a".to_string(), "1".to_string());
    h.append("b".to_string(), "2".to_string());
    h.append("a".to_string(), "3".to_string());
    assert!(h.contains("a"));
    h.insert("a", "9".to_string());
    assert_eq!(h.len(), 2);
    assert_eq!(h.field(0), ("b", "2"));
    assert_eq!(h.field(1), ("a", "9"));
    assert!(!h.contains("c"));
}

#[test]
fn store_records_reach_their_providers() {
    let mut set = ProviderSet::new(0);
    let fetched = vec![rec(1, "google", 5), rec(2, "nvidia", 6), rec(3, "unknown", 7), rec(4, "google", 8)];
    assert_eq!(set.absorb(&fetched), 3);
    assert_eq!(set.get(3).auth_vec.len(), 2);
    assert_eq!(set.get(4).auth_vec.len(), 1);
    assert_eq!(set.get(0).auth_vec.len(), 0);
    assert_eq!(set.absorb(&fetched), 0);
    let ids: Vec<i32> = set.snapshot().iter().map(|a| a.id).collect();
    assert_eq!(ids, vec![1, 4, 2]);
    assert_eq!(set.latest_used_at(), Some(8));
    assert_eq!(ProviderSet::new(0).latest_used_at(), None);
}

#[test]
fn set_level_auth_and_cooldown() {
    let mut set = ProviderSet::new(0);
    set.absorb(&vec![rec(1, "nvidia", 5)]);
    let mut h = HeaderList::new();
    assert_eq!(set.apply_auth(4, &mut h), Some(1));
    assert_eq!(set.update_auth_state_on_response(4, Some(1), 429), Some(1800));
    assert!(set.get(4).auth_vec.get(0).cooldown);
    set.end_cooldown(4, 1);
    assert!(!set.get(4).auth_vec.get(0).cooldown);
    assert!(!set.handle_auth_reset(4, 10));
}

#[test]
fn egress_flags() {
    assert_eq!(handle_proxy_flag("x"), Some(Egress::Direct));
    assert_eq!(handle_proxy_flag("o"), Some(Egress::Proxied));
    assert_eq!(handle_proxy_flag("r"), None);
    assert_eq!(models_proxy_flag("_"), Some(Egress::Direct));
    assert_eq!(models_proxy_flag("r"), Some(Egress::Proxied));
    assert_eq!(models_proxy_flag("x"), None);
}

#[test]
fn proxy_blamed_only_without_credential() {
    assert!(evict_after_status(429, false, true));
    assert!(!evict_after_status(429, true, true));
    assert!(!evict_after_status(429, false, false));
    assert!(!evict_after_status(200, false, true));
}

#[test]
fn reload_replaces_credentials() {
    let mut set = ProviderSet::new(0);
    set.absorb(&vec![rec(1, "google", 5), rec(2, "google", 6)]);
    assert_eq!(set.reload(&vec![rec(3, "google", 1), rec(4, "dzmm", 2)]), 2);
    assert_eq!(set.get(3).auth_vec.len(), 1);
    assert_eq!(set.get(3).auth_vec.get(0).id, 3);
    assert_eq!(set.get(2).auth_vec.get(0).id, 4);
}
