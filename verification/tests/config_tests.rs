use wows_player_stats::config::{parse_rate, Config};

fn settings(pairs: &[(&str, &str)]) -> Vec<(String, String)> {
    pairs.iter().map(|(k, v)| (k.to_string(), v.to_string())).collect()
}

#[test]
fn config_parser_works() {
    let settings = settings(&[("api_key", "asdf"), ("api_request_rate", "20")]);

    let cfg = Config::from_map(&settings).unwrap();
    assert_eq!(cfg.api_key, "asdf");
    assert_eq!(cfg.request_period, 50_000_000);
}

#[test]
fn fractional_rates_are_supported() {
    // Half a request per second means one request every two seconds.
    let s = settings(&[("api_key", "k"), ("api_request_rate", "0.5"), ("mongo", "mongodb://db")]);
    let cfg = Config::from_map(&s).unwrap();
    assert_eq!(cfg.request_period, 2_000_000_000);
    assert_eq!(cfg.mongo_url, "mongodb://db");
    assert!(!cfg.disable_scraper);
}

#[test]
fn disable_scraper_flag_is_parsed() {
    let s = settings(&[("api_key", "k"), ("api_request_rate", "1"), ("disable_scraper", "true")]);
    assert!(Config::from_map(&s).unwrap().disable_scraper);
    let s = settings(&[("api_key", "k"), ("api_request_rate", "1"), ("disable_scraper", "banana")]);
    assert!(Config::from_map(&s).is_none());
}

#[test]
fn missing_or_bad_settings_yield_none() {
    assert!(Config::from_map(&settings(&[("api_request_rate", "20")])).is_none());
    assert!(Config::from_map(&settings(&[("api_key", "k")])).is_none());
    assert!(Config::from_map(&settings(&[("api_key", "k"), ("api_request_rate", "fast")])).is_none());
    assert!(Config::from_map(&settings(&[("api_key", "k"), ("api_request_rate", "0")])).is_none());
}

#[test]
fn rates_parse_in_millionths() {
    assert_eq!(parse_rate("20"), Some(20_000_000));
    assert_eq!(parse_rate("0.5"), Some(500_000));
    assert_eq!(parse_rate("3.1415926535"), Some(3_141_592));
    assert_eq!(parse_rate("7."), Some(7_000_000));
    assert_eq!(parse_rate(".25"), Some(250_000));
    assert_eq!(parse_rate(""), None);
    assert_eq!(parse_rate("."), None);
    assert_eq!(parse_rate("1.2.3"), None);
    assert_eq!(parse_rate("-1"), None);
    assert_eq!(parse_rate("99999999999999999999"), None);
}
