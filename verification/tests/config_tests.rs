use join_proxy::config::{
    default_api_serve, default_ic_local, default_proxy_serve, default_upstream_connect_timeout,
    default_upstream_read_timeout, default_upstream_total_timeout, deserialize_canister_id,
    extract_duration, extract_duration_simple, listen_address, parse_duration, parse_duration_option,
    read_duration, Args, Callback, Config, Duration,
};

fn secs(n: u64) -> Duration {
    Duration::from_secs(n)
}

fn no_args() -> Args {
    Args {
        config_file: None,
        bind_proxy_host: None,
        bind_proxy_port: None,
        bind_proxy_https: None,
        bind_api_host: None,
        bind_api_port: None,
        bind_api_https: None,
        our_secret: None,
        require_x_principal: None,
        cache_timeout: None,
        connect_timeout: None,
        read_timeout: None,
        total_timeout: None,
    }
}

#[test]
fn default_serves_listen_on_localhost() {
    let proxy = default_proxy_serve();
    assert_eq!(proxy.host, "localhost");
    assert_eq!(proxy.port, 8080);
    assert!(!proxy.https);
    let api = default_api_serve();
    assert_eq!(api.host, "localhost");
    assert_eq!(api.port, 8084);
    assert!(!api.https);
}

#[test]
fn default_timeouts() {
    assert_eq!(default_upstream_connect_timeout(), Some(secs(10)));
    assert_eq!(default_upstream_read_timeout(), Some(secs(60)));
    assert_eq!(default_upstream_total_timeout(), Some(secs(120)));
    assert!(!default_ic_local());
}

#[test]
fn default_config() {
    let c = Config::default();
    assert_eq!(c.bind_proxy.port, 8080);
    assert_eq!(c.bind_api.port, 8084);
    assert_eq!(c.our_secret, None);
    assert!(!c.require_x_principal);
    assert_eq!(c.cache.cache_timeout, secs(0));
    assert_eq!(c.upstream_timeouts.total_timeout, Some(secs(120)));
    assert!(c.callback.is_none());
}

#[test]
fn durations_in_every_unit() {
    assert_eq!(extract_duration_simple("10s"), Ok(secs(10)));
    assert_eq!(extract_duration_simple("5m"), Ok(secs(300)));
    assert_eq!(extract_duration_simple("2h"), Ok(secs(7200)));
    assert_eq!(extract_duration_simple("1d"), Ok(secs(86400)));
    assert_eq!(extract_duration_simple("250ms"), Ok(Duration::from_millis(250)));
    assert_eq!(extract_duration_simple("1500ms"), Ok(Duration { secs: 1, nanos: 500_000_000 }));
    assert_eq!(extract_duration_simple("0s"), Ok(secs(0)));
}

#[test]
fn duration_errors() {
    assert_eq!(extract_duration_simple("10x"), Err("Invalid duration unit".to_string()));
    assert_eq!(extract_duration_simple("10"), Err("Invalid duration unit".to_string()));
    assert_eq!(extract_duration_simple("10 s"), Err("Invalid duration unit".to_string()));
    assert_eq!(extract_duration_simple("s"), Err("Can't extract number".to_string()));
    assert_eq!(extract_duration_simple(""), Err("Can't extract number".to_string()));
    assert_eq!(extract_duration_simple("99999999999999999999s"), Err("Can't extract number".to_string()));
    // A non-ASCII numeric character belongs to the number, which then does
    // not parse.
    assert_eq!(extract_duration_simple("1\u{0663}s"), Err("Can't extract number".to_string()));
}

#[test]
fn duration_overflow_is_detected() {
    assert_eq!(read_duration("18446744073709551615d"), None);
    assert_eq!(read_duration("18446744073709551615s"), Some(Ok(secs(u64::MAX))));
    assert_eq!(read_duration("7s"), Some(Ok(secs(7))));
}

#[test]
fn configuration_file_durations() {
    assert_eq!(extract_duration("3m"), Ok(secs(180)));
    assert_eq!(extract_duration("abc"), Err("Invalid duration unit".to_string()));
    assert_eq!(parse_duration("4s"), Ok(secs(4)));
    assert_eq!(parse_duration_option(None), Ok(None));
    assert_eq!(parse_duration_option(Some("1h")), Ok(Some(secs(3600))));
    assert_eq!(parse_duration_option(Some("1y")), Err("Invalid duration unit".to_string()));
}

#[test]
fn canister_ids() {
    assert_eq!(deserialize_canister_id("aaaaa-aa"), Ok(Vec::new()));
    let id = deserialize_canister_id("ryjl3-tyaaa-aaaaa-aaaba-cai").unwrap();
    assert_eq!(id, vec![0, 0, 0, 0, 0, 0, 0, 2, 1, 1]);
    let err = deserialize_canister_id("not a principal").unwrap_err();
    assert!(err.starts_with("Invalid principal: "));
}

#[test]
fn arguments_override_the_configuration() {
    let mut c = Config::default();
    let mut args = no_args();
    args.bind_proxy_port = Some(9000);
    args.our_secret = Some("s3cret".to_string());
    args.require_x_principal = Some(true);
    args.cache_timeout = Some(secs(30));
    args.read_timeout = Some(secs(5));
    c.update_from_args(args);
    assert_eq!(c.bind_proxy.port, 9000);
    assert_eq!(c.bind_proxy.host, "localhost");
    assert_eq!(c.our_secret, Some("s3cret".to_string()));
    assert!(c.require_x_principal);
    assert_eq!(c.cache.cache_timeout, secs(30));
    assert_eq!(c.upstream_timeouts.read_timeout, Some(secs(5)));
    assert_eq!(c.upstream_timeouts.connect_timeout, Some(secs(10)));
}

#[test]
fn absent_arguments_keep_the_configuration() {
    let mut c = Config::default();
    c.our_secret = Some("kept".to_string());
    c.update_from_args(no_args());
    assert_eq!(c.our_secret, Some("kept".to_string()));
    assert_eq!(c.bind_api.port, 8084);
}

#[test]
fn local_callback_gets_the_local_url() {
    let mut c = Config::default();
    c.callback = Some(Callback { canister: Vec::new(), func: "check".to_string(), ic_local: true, ic_url: None });
    c.resolve_local_ic_url();
    assert_eq!(c.callback.unwrap().ic_url, Some("http://localhost:8000".to_string()));

    let mut c = Config::default();
    c.callback = Some(Callback { canister: Vec::new(), func: "check".to_string(), ic_local: false, ic_url: None });
    c.resolve_local_ic_url();
    assert_eq!(c.callback.unwrap().ic_url, None);
}

#[test]
fn listen_addresses() {
    assert_eq!(listen_address(&default_proxy_serve()), "localhost:8080");
    assert_eq!(listen_address(&default_api_serve()), "localhost:8084");
}
