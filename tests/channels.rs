use lift_proxy::channels::{channel_params, channel_update_sql};
use lift_proxy::proxies::Proxy;
use lift_proxy::text::split_proxy_auth;

#[test]
fn channel_statement_rows() {
    assert_eq!(
        channel_update_sql(2),
        "UPDATE channels SET name = data.name, base_url = data.base_url FROM (VALUES (1, $1, $2),(2, $3, $4)) as data(id, name, base_url) WHERE channels.id = data.id"
    );
    assert_eq!(
        channel_update_sql(0),
        "UPDATE channels SET name = data.name, base_url = data.base_url FROM (VALUES ) as data(id, name, base_url) WHERE channels.id = data.id"
    );
}

#[test]
fn channel_parameters() {
    let p = Proxy { proxy_address: "9.8.7.6".to_string(), port: 6540, username: "u1".to_string(), password: "pw".to_string() };
    let params = channel_params(&vec![p]);
    assert_eq!(params, vec![
        "9.8.7.6:6540".to_string(),
        "https://lift-proxy-eyo5.shuttle.app/9.8.7.6:6540/u1:pw/deepinfra".to_string(),
    ]);
}

#[test]
fn proxy_auth_split() {
    assert_eq!(split_proxy_auth("user:pass"), Some(("user".to_string(), "pass".to_string())));
    assert_eq!(split_proxy_auth("a:b:c"), Some(("a".to_string(), "b".to_string())));
    assert_eq!(split_proxy_auth("a:"), Some(("a".to_string(), String::new())));
    assert_eq!(split_proxy_auth("nocolon"), None);
}
