use goal_digger::cache::{af_cached, gamma_get, keep_reply, Lookup, ResponseCache};
use goal_digger::json::Json;
use goal_digger::request::{
    af_get, api_football_key, failure_message, fixtures, fixtures_call, injuries, injuries_call,
    live_fixtures_call, market_by_slug, match_event, match_search, next_fixtures_call,
    prime_secret, wc_fixtures_live, wc_fixtures_next, wc_lineups, wc_players,
    wc_teams, ApiKey, Failure, HttpCall, Request, Service,
};

const NO_KEY: &str = "[goal-digger] API_FOOTBALL_KEY not set. Live fixtures/injuries unavailable; strength-only simulation still works.";

fn request(service: Service, path: &str, query: &[(&str, &str)]) -> Request {
    Request {
        service,
        path: path.to_string(),
        query: query.iter().map(|(k, v)| (k.to_string(), v.to_string())).collect(),
    }
}

fn football(path: &str, query: &[(&str, &str)]) -> Request {
    request(Service::ApiFootball, path, query)
}

#[test]
fn football_requests() {
    let wc = [("league", "1"), ("season", "2026")];
    assert_eq!(fixtures(None), football("/fixtures", &wc));
    assert_eq!(
        fixtures(Some("2026-06-11".to_string())),
        football("/fixtures", &[("league", "1"), ("season", "2026"), ("date", "2026-06-11")])
    );
    assert_eq!(
        injuries(9),
        football("/injuries", &[("league", "1"), ("season", "2026"), ("team", "9")])
    );
    assert_eq!(
        wc_fixtures_next(10),
        football("/fixtures", &[("league", "1"), ("season", "2026"), ("next", "10")])
    );
    assert_eq!(wc_fixtures_live(), football("/fixtures", &[("league", "1"), ("live", "all")]));
    assert_eq!(wc_teams(), football("/teams", &wc));
    assert_eq!(wc_lineups(123), football("/fixtures/lineups", &[("fixture", "123")]));
    assert_eq!(
        wc_players(9),
        football("/players", &[("team", "9"), ("season", "2026"), ("page", "1")])
    );
}

#[test]
fn gamma_requests() {
    assert_eq!(
        match_search("Spain", "France"),
        request(
            Service::Gamma,
            "/public-search",
            &[("q", "Spain vs France"), ("limit_per_type", "10")]
        )
    );
    assert_eq!(
        match_event("fifwc-esp-fra"),
        request(Service::Gamma, "/events", &[("slug", "fifwc-esp-fra")])
    );
    assert_eq!(market_by_slug("x"), request(Service::Gamma, "/markets", &[("slug", "x")]));
}

#[test]
fn requests_are_kept_apart() {
    assert!(wc_lineups(1).same(&wc_lineups(1)));
    assert!(!wc_lineups(1).same(&wc_lineups(11)));
    assert!(!wc_players(1).same(&wc_players(2)));
    assert!(!match_event("x").same(&market_by_slug("x")));
    assert!(!fixtures(None).same(&fixtures(Some("d".to_string()))));
    let a = request(Service::Gamma, "/p", &[("k", "v")]);
    assert!(!a.same(&football("/p", &[("k", "v")])));
    assert!(!a.same(&request(Service::Gamma, "/p", &[("v", "k")])));
    assert!(a.same(&a.copy()));
}

#[test]
fn primed_key_comes_before_the_environment() {
    let mut keys = ApiKey::new();
    assert_eq!(api_football_key(&keys, None), Err(NO_KEY.to_string()));
    assert_eq!(api_football_key(&keys, Some("env".to_string())), Ok("env".to_string()));
    prime_secret(&mut keys, Err("missing".to_string()));
    assert_eq!(api_football_key(&keys, None), Err(NO_KEY.to_string()));
    prime_secret(&mut keys, Ok("vault".to_string()));
    assert_eq!(api_football_key(&keys, Some("env".to_string())), Ok("vault".to_string()));
    prime_secret(&mut keys, Err("missing".to_string()));
    assert_eq!(api_football_key(&keys, None), Ok("vault".to_string()));
}

#[test]
fn calls_carry_the_key() {
    let keys = ApiKey::new();
    assert_eq!(
        af_get(&keys, Some("k".to_string()), &wc_lineups(5)),
        Ok(HttpCall {
            url: "https://v3.football.api-sports.io/fixtures/lineups".to_string(),
            header: Some(("x-apisports-key".to_string(), "k".to_string())),
            query: vec![("fixture".to_string(), "5".to_string())],
            timeout_secs: 12,
        })
    );
    assert_eq!(af_get(&keys, None, &wc_lineups(5)), Err(NO_KEY.to_string()));
    assert_eq!(
        market_by_slug("s").call(None),
        HttpCall {
            url: "https://gamma-api.polymarket.com/markets".to_string(),
            header: None,
            query: vec![("slug".to_string(), "s".to_string())],
            timeout_secs: 12,
        }
    );
}

#[test]
fn polls_are_sent_each_time() {
    let keys = ApiKey::new();
    let env = || Some("k".to_string());
    let day = || Some("2026-06-11".to_string());
    for _ in 0..2 {
        assert_eq!(fixtures_call(&keys, env(), day()), Ok(fixtures(day()).call(env())));
        assert_eq!(fixtures_call(&keys, env(), None), Ok(fixtures(None).call(env())));
        assert_eq!(injuries_call(&keys, env(), 7), Ok(injuries(7).call(env())));
        assert_eq!(next_fixtures_call(&keys, env(), 5), Ok(wc_fixtures_next(5).call(env())));
        assert_eq!(live_fixtures_call(&keys, env()), Ok(wc_fixtures_live().call(env())));
    }
    let call = live_fixtures_call(&keys, env()).unwrap();
    assert_eq!(call.url, "https://v3.football.api-sports.io/fixtures");
    assert_eq!(fixtures_call(&keys, None, day()), Err(NO_KEY.to_string()));
    assert_eq!(injuries_call(&keys, None, 7), Err(NO_KEY.to_string()));
    assert_eq!(next_fixtures_call(&keys, None, 5), Err(NO_KEY.to_string()));
    assert_eq!(live_fixtures_call(&keys, None), Err(NO_KEY.to_string()));
}

#[test]
fn failures_in_words() {
    let table = [
        (Failure::FootballRequest, "[goal-digger] api-football request failed: x"),
        (Failure::FootballParse, "[goal-digger] api-football parse failed: x"),
        (Failure::GammaRequest, "[goal-digger] gamma req failed: x"),
        (Failure::MarketRequest, "[goal-digger] gamma request failed: x"),
        (Failure::GammaParse, "[goal-digger] gamma parse failed: x"),
    ];
    for (f, words) in table {
        assert_eq!(failure_message(f, "x"), words);
    }
}

#[test]
fn answered_once_and_kept() {
    let keys = ApiKey::new();
    let env = || Some("k".to_string());
    let mut cache: ResponseCache<f64> = ResponseCache::new();
    let r = wc_lineups(1);
    assert!(matches!(af_cached(&cache, &keys, env(), &r), Lookup::Send(_)));
    assert_eq!(af_cached(&cache, &keys, None, &r), Lookup::Refused(NO_KEY.to_string()));
    assert_eq!(
        keep_reply(&mut cache, &r, Err("down".to_string())),
        Err("down".to_string())
    );
    assert!(matches!(af_cached(&cache, &keys, env(), &r), Lookup::Send(_)));
    assert_eq!(keep_reply(&mut cache, &r, Ok(Json::Float(0.5))), Ok(Json::Float(0.5)));
    assert_eq!(af_cached(&cache, &keys, None, &r), Lookup::Known(Json::Float(0.5)));
    keep_reply(&mut cache, &wc_lineups(2), Ok(Json::Null)).unwrap();
    keep_reply(&mut cache, &wc_players(1), Err("x".to_string())).unwrap_err();
    assert_eq!(af_cached(&cache, &keys, None, &r), Lookup::Known(Json::Float(0.5)));
    assert_eq!(af_cached(&cache, &keys, None, &wc_lineups(2)), Lookup::Known(Json::Null));
    cache.insert(wc_lineups(1), Json::Bool(true));
    assert_eq!(cache.get(&r), Some(&Json::Bool(true)));
}

#[test]
fn gamma_needs_no_key() {
    let mut cache: ResponseCache<f64> = ResponseCache::new();
    let r = match_event("s");
    assert_eq!(gamma_get(&cache, &r), Lookup::Send(r.call(None)));
    cache.insert(r.copy(), Json::Unsigned(1));
    assert_eq!(gamma_get(&cache, &r), Lookup::Known(Json::Unsigned(1)));
}
