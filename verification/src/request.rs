//! The requests that the library asks for: what is fetched, from which service,
//! with which key, and how a failure is reported.

use vstd::prelude::*;
use vstd::string::StringExecFns;

use crate::text::{decimal, law_numerals_differ, numeral, optional_text};

verus! {

/// The World Cup's league id at API-FOOTBALL.
pub const WC_LEAGUE_ID: u32 = 1;

/// The World Cup's season at API-FOOTBALL.
pub const WC_SEASON: u32 = 2026;

/// Seconds after which a request is given up.
pub const TIMEOUT_SECS: u64 = 12;

/// A service that is asked over the network.
#[derive(Debug, Clone, Copy, PartialEq, Eq, Structural)]
pub enum Service {
    /// Fixtures, lineups, players and injuries; needs a key.
    ApiFootball,
    /// Polymarket's public market data.
    Gamma,
}

/// A read of one path of a service, with its query parameters in order.
#[derive(Debug, PartialEq)]
pub struct Request {
    pub service: Service,
    pub path: String,
    pub query: Vec<(String, String)>,
}

/// What a request asks.
pub struct RequestView {
    pub service: Service,
    pub path: Seq<char>,
    pub query: Seq<(Seq<char>, Seq<char>)>,
}

/// The characters of the names and values of parameters.
pub open spec fn params(query: Seq<(String, String)>) -> Seq<(Seq<char>, Seq<char>)> {
    query.map_values(|p: (String, String)| (p.0@, p.1@))
}

impl View for Request {
    type V = RequestView;

    open spec fn view(&self) -> RequestView {
        RequestView { service: self.service, path: self.path@, query: params(self.query@) }
    }
}

/// Adds the parameter `name` to `query`.
fn add_param(query: &mut Vec<(String, String)>, name: &str, value: String)
    ensures
        params(final(query)@) == params(old(query)@).push((name@, value@)),
{
    query.push((name.to_owned(), value));
}

/// An API-FOOTBALL request.
pub open spec fn football(
    path: Seq<char>,
    query: Seq<(Seq<char>, Seq<char>)>,
) -> RequestView {
    RequestView { service: Service::ApiFootball, path, query }
}

/// A Gamma request.
pub open spec fn gamma(path: Seq<char>, query: Seq<(Seq<char>, Seq<char>)>) -> RequestView {
    RequestView { service: Service::Gamma, path, query }
}

/// The parameter that selects the World Cup.
pub open spec fn league_param() -> (Seq<char>, Seq<char>) {
    ("league"@, numeral(WC_LEAGUE_ID as nat))
}

/// The parameter that selects the World Cup's season.
pub open spec fn season_param() -> (Seq<char>, Seq<char>) {
    ("season"@, numeral(WC_SEASON as nat))
}

/// The parameters of a request about the whole World Cup.
fn world_cup_query() -> (q: Vec<(String, String)>)
    ensures
        params(q@) == seq![league_param(), season_param()],
{
    let mut q: Vec<(String, String)> = Vec::new();
    add_param(&mut q, "league", decimal(WC_LEAGUE_ID));
    add_param(&mut q, "season", decimal(WC_SEASON));
    q
}

fn to_football(path: &str, query: Vec<(String, String)>) -> (r: Request)
    ensures
        r@ == football(path@, params(query@)),
{
    Request { service: Service::ApiFootball, path: path.to_owned(), query }
}

fn to_gamma(path: &str, query: Vec<(String, String)>) -> (r: Request)
    ensures
        r@ == gamma(path@, params(query@)),
{
    Request { service: Service::Gamma, path: path.to_owned(), query }
}

/// The World Cup's fixtures, of one day where `date` is given.
pub open spec fn fixtures_request(date: Option<Seq<char>>) -> RequestView {
    football(
        "/fixtures"@,
        match date {
            Some(d) => seq![league_param(), season_param(), ("date"@, d)],
            None => seq![league_param(), season_param()],
        },
    )
}

/// A team's injuries.
pub open spec fn injuries_request(team_id: u32) -> RequestView {
    football(
        "/injuries"@,
        seq![league_param(), season_param(), ("team"@, numeral(team_id as nat))],
    )
}

/// The next `n` fixtures of the World Cup.
pub open spec fn next_request(n: u32) -> RequestView {
    football("/fixtures"@, seq![league_param(), season_param(), ("next"@, numeral(n as nat))])
}

/// The World Cup fixtures that are being played.
pub open spec fn live_request() -> RequestView {
    football("/fixtures"@, seq![league_param(), ("live"@, "all"@)])
}

/// The teams of the World Cup.
pub open spec fn teams_request() -> RequestView {
    football("/teams"@, seq![league_param(), season_param()])
}

/// The lineups of a fixture.
pub open spec fn lineups_request(fixture_id: u32) -> RequestView {
    football("/fixtures/lineups"@, seq![("fixture"@, numeral(fixture_id as nat))])
}

/// The first page of a team's players.
pub open spec fn players_request(team_id: u32) -> RequestView {
    football(
        "/players"@,
        seq![("team"@, numeral(team_id as nat)), season_param(), ("page"@, "1"@)],
    )
}

/// A search for the events of a match.
pub open spec fn search_request(home: Seq<char>, away: Seq<char>) -> RequestView {
    gamma(
        "/public-search"@,
        seq![("q"@, home + " vs "@ + away), ("limit_per_type"@, "10"@)],
    )
}

/// An event by its slug.
pub open spec fn event_request(slug: Seq<char>) -> RequestView {
    gamma("/events"@, seq![("slug"@, slug)])
}

/// A market by its slug.
pub open spec fn market_request(slug: Seq<char>) -> RequestView {
    gamma("/markets"@, seq![("slug"@, slug)])
}

/// Asks for the World Cup's fixtures and live scores, of one day where `date`
/// is given.
pub fn fixtures(date: Option<String>) -> (r: Request)
    ensures
        r@ == fixtures_request(optional_text(date)),
{
    let mut q = world_cup_query();
    match date {
        Some(d) => {
            add_param(&mut q, "date", d);
            assert(params(q@) =~= seq![league_param(), season_param(), ("date"@, d@)]);
        },
        None => {},
    }
    to_football("/fixtures", q)
}

/// Asks for a team's injuries.
pub fn injuries(team_id: u32) -> (r: Request)
    ensures
        r@ == injuries_request(team_id),
{
    let mut q = world_cup_query();
    add_param(&mut q, "team", decimal(team_id));
    assert(params(q@) =~= seq![
        league_param(),
        season_param(),
        ("team"@, numeral(team_id as nat)),
    ]);
    to_football("/injuries", q)
}

/// Asks for the next `n` fixtures of the World Cup.
pub fn wc_fixtures_next(n: u32) -> (r: Request)
    ensures
        r@ == next_request(n),
{
    let mut q = world_cup_query();
    add_param(&mut q, "next", decimal(n));
    assert(params(q@) =~= seq![league_param(), season_param(), ("next"@, numeral(n as nat))]);
    to_football("/fixtures", q)
}

/// Asks for the World Cup fixtures that are being played.
pub fn wc_fixtures_live() -> (r: Request)
    ensures
        r@ == live_request(),
{
    let mut q: Vec<(String, String)> = Vec::new();
    add_param(&mut q, "league", decimal(WC_LEAGUE_ID));
    add_param(&mut q, "live", "all".to_owned());
    assert(params(q@) =~= seq![league_param(), ("live"@, "all"@)]);
    to_football("/fixtures", q)
}

/// Asks for the teams of the World Cup.
pub fn wc_teams() -> (r: Request)
    ensures
        r@ == teams_request(),
{
    to_football("/teams", world_cup_query())
}

/// Asks for the lineups of a fixture.
pub fn wc_lineups(fixture_id: u32) -> (r: Request)
    ensures
        r@ == lineups_request(fixture_id),
{
    let mut q: Vec<(String, String)> = Vec::new();
    add_param(&mut q, "fixture", decimal(fixture_id));
    assert(params(q@) =~= seq![("fixture"@, numeral(fixture_id as nat))]);
    to_football("/fixtures/lineups", q)
}

/// Asks for the first page of a team's players.
pub fn wc_players(team_id: u32) -> (r: Request)
    ensures
        r@ == players_request(team_id),
{
    let mut q: Vec<(String, String)> = Vec::new();
    add_param(&mut q, "team", decimal(team_id));
    add_param(&mut q, "season", decimal(WC_SEASON));
    add_param(&mut q, "page", "1".to_owned());
    assert(params(q@) =~= seq![
        ("team"@, numeral(team_id as nat)),
        season_param(),
        ("page"@, "1"@),
    ]);
    to_football("/players", q)
}

/// Asks for the events of a match.
pub fn match_search(home: &str, away: &str) -> (r: Request)
    ensures
        r@ == search_request(home@, away@),
{
    let mut q: Vec<(String, String)> = Vec::new();
    add_param(&mut q, "q", home.to_owned().concat(" vs ").concat(away));
    add_param(&mut q, "limit_per_type", "10".to_owned());
    assert(params(q@) =~= seq![
        ("q"@, home@ + " vs "@ + away@),
        ("limit_per_type"@, "10"@),
    ]);
    to_gamma("/public-search", q)
}

/// Asks for an event by its slug.
pub fn match_event(slug: &str) -> (r: Request)
    ensures
        r@ == event_request(slug@),
{
    let mut q: Vec<(String, String)> = Vec::new();
    add_param(&mut q, "slug", slug.to_owned());
    assert(params(q@) =~= seq![("slug"@, slug@)]);
    to_gamma("/events", q)
}

/// Asks for a market by its slug.
pub fn market_by_slug(slug: &str) -> (r: Request)
    ensures
        r@ == market_request(slug@),
{
    let mut q: Vec<(String, String)> = Vec::new();
    add_param(&mut q, "slug", slug.to_owned());
    assert(params(q@) =~= seq![("slug"@, slug@)]);
    to_gamma("/markets", q)
}

/// An HTTP GET that carries a request out.
#[derive(Debug, PartialEq)]
pub struct HttpCall {
    pub url: String,
    /// The name and the value of the header that carries the key.
    pub header: Option<(String, String)>,
    pub query: Vec<(String, String)>,
    pub timeout_secs: u64,
}

/// What an HTTP GET is.
pub struct HttpCallView {
    pub url: Seq<char>,
    pub header: Option<(Seq<char>, Seq<char>)>,
    pub query: Seq<(Seq<char>, Seq<char>)>,
    pub timeout_secs: u64,
}

impl View for HttpCall {
    type V = HttpCallView;

    open spec fn view(&self) -> HttpCallView {
        HttpCallView {
            url: self.url@,
            header: match self.header {
                Some(h) => Some((h.0@, h.1@)),
                None => None,
            },
            query: params(self.query@),
            timeout_secs: self.timeout_secs,
        }
    }
}

/// Where a service is found.
pub open spec fn base_url(service: Service) -> Seq<char> {
    match service {
        Service::ApiFootball => "https://v3.football.api-sports.io"@,
        Service::Gamma => "https://gamma-api.polymarket.com"@,
    }
}

/// The GET that carries `request` out, with `key` where the service takes one.
pub open spec fn call_for(request: RequestView, key: Option<Seq<char>>) -> HttpCallView {
    HttpCallView {
        url: base_url(request.service) + request.path,
        header: match key {
            Some(k) => Some(("x-apisports-key"@, k)),
            None => None,
        },
        query: request.query,
        timeout_secs: TIMEOUT_SECS,
    }
}

/// Parameters equal to those of `query`.
fn copy_query(query: &Vec<(String, String)>) -> (out: Vec<(String, String)>)
    ensures
        params(out@) == params(query@),
{
    let mut out: Vec<(String, String)> = Vec::new();
    let mut i: usize = 0;
    while i < query.len()
        invariant
            0 <= i <= query@.len(),
            params(out@) == params(query@).take(i as int),
        decreases query@.len() - i,
    {
        let ghost earlier = out@;
        out.push((query[i].0.clone(), query[i].1.clone()));
        assert(params(out@) =~= params(earlier).push(params(query@)[i as int]));
        i = i + 1;
    }
    out
}

impl Request {
    /// The GET that carries this request out, with `key` where one is given.
    pub fn call(&self, key: Option<String>) -> (r: HttpCall)
        ensures
            r@ == call_for(
                self@,
                match key {
                    Some(k) => Some(k@),
                    None => None,
                },
            ),
    {
        let base = match self.service {
            Service::ApiFootball => "https://v3.football.api-sports.io",
            Service::Gamma => "https://gamma-api.polymarket.com",
        };
        HttpCall {
            url: base.to_owned().concat(self.path.as_str()),
            header: match key {
                Some(k) => Some(("x-apisports-key".to_owned(), k)),
                None => None,
            },
            query: copy_query(&self.query),
            timeout_secs: TIMEOUT_SECS,
        }
    }

    /// A request equal to this one.
    pub fn copy(&self) -> (r: Request)
        ensures
            r@ == self@,
    {
        Request {
            service: self.service,
            path: self.path.clone(),
            query: copy_query(&self.query),
        }
    }

    /// Whether two requests ask the same.
    pub fn same(&self, other: &Request) -> (r: bool)
        ensures
            r == (self@ == other@),
    {
        if self.service != other.service || self.path != other.path || self.query.len()
            != other.query.len() {
            return false;
        }
        let mut i: usize = 0;
        while i < self.query.len()
            invariant
                0 <= i <= self.query@.len(),
                self.query@.len() == other.query@.len(),
                forall|k: int|
                    0 <= k < i ==> params(self.query@)[k] == #[trigger] params(other.query@)[k],
            decreases self.query@.len() - i,
        {
            if self.query[i].0 != other.query[i].0 || self.query[i].1 != other.query[i].1 {
                assert(params(self.query@)[i as int] != params(other.query@)[i as int]);
                return false;
            }
            i = i + 1;
        }
        assert(params(self.query@) =~= params(other.query@));
        true
    }
}

/// The API-FOOTBALL key that a host has handed over, if any.
#[derive(Debug)]
pub struct ApiKey {
    pub primed: Option<String>,
}

impl View for ApiKey {
    type V = Option<Seq<char>>;

    open spec fn view(&self) -> Option<Seq<char>> {
        match self.primed {
            Some(k) => Some(k@),
            None => None,
        }
    }
}

impl ApiKey {
    /// No key yet.
    pub fn new() -> (r: ApiKey)
        ensures
            r@ is None,
    {
        ApiKey { primed: None }
    }
}

/// Takes over the key that the host resolved; keeps what was there where it
/// resolved none.
pub fn prime_secret(keys: &mut ApiKey, resolved: Result<String, String>)
    ensures
        final(keys)@ == match resolved {
            Ok(k) => Some(k@),
            Err(_) => old(keys)@,
        },
{
    match resolved {
        Ok(k) => {
            keys.primed = Some(k);
        },
        Err(_) => {},
    }
}

/// What is reported where no key is known.
pub open spec fn no_key_message() -> Seq<char> {
    "[goal-digger] API_FOOTBALL_KEY not set. Live fixtures/injuries unavailable; strength-only simulation still works."@
}

/// The key to call with: the primed one, else the one of the environment.
pub open spec fn key_in_use(primed: Option<Seq<char>>, environment: Option<Seq<char>>) -> Option<
    Seq<char>,
> {
    if primed is Some {
        primed
    } else {
        environment
    }
}

/// The key to call API-FOOTBALL with: the primed one, else `environment`, the
/// value of `API_FOOTBALL_KEY`; an error where there is neither.
pub fn api_football_key(keys: &ApiKey, environment: Option<String>) -> (r: Result<String, String>)
    ensures
        match key_in_use(keys@, optional_text(environment)) {
            Some(k) => r matches Ok(s) && s@ == k,
            None => r matches Err(e) && e@ == no_key_message(),
        },
{
    match &keys.primed {
        Some(k) => {
            return Ok(k.clone());
        },
        None => {},
    }
    match environment {
        Some(k) => Ok(k),
        None => Err(
            "[goal-digger] API_FOOTBALL_KEY not set. Live fixtures/injuries unavailable; strength-only simulation still works.".to_owned(),
        ),
    }
}

/// Whether `r` is the GET that carries an API-FOOTBALL request out with the key in
/// use, or the error where no key is known.
pub open spec fn is_call_of(
    r: Result<HttpCall, String>,
    primed: Option<Seq<char>>,
    environment: Option<Seq<char>>,
    request: RequestView,
) -> bool {
    match key_in_use(primed, environment) {
        Some(k) => r matches Ok(c) && c@ == call_for(request, Some(k)),
        None => r matches Err(e) && e@ == no_key_message(),
    }
}

/// The GET that carries an API-FOOTBALL request out; an error, and no GET, where
/// no key is known.
pub fn af_get(keys: &ApiKey, environment: Option<String>, request: &Request) -> (r: Result<
    HttpCall,
    String,
>)
    ensures
        is_call_of(r, keys@, optional_text(environment), request@),
{
    match api_football_key(keys, environment) {
        Ok(k) => Ok(request.call(Some(k))),
        Err(e) => Err(e),
    }
}

/// The GET that asks for the World Cup's fixtures and live scores, of one day
/// where `date` is given. It is made anew each time, so
/// that it shows what the feed has now.
pub fn fixtures_call(keys: &ApiKey, environment: Option<String>, date: Option<String>) -> (r: Result<
    HttpCall,
    String,
>)
    ensures
        is_call_of(r, keys@, optional_text(environment), fixtures_request(optional_text(date))),
{
    af_get(keys, environment, &fixtures(date))
}

/// The GET that asks for a team's injuries. It is made anew each time, so
/// that it shows what the feed has now.
pub fn injuries_call(keys: &ApiKey, environment: Option<String>, team_id: u32) -> (r: Result<
    HttpCall,
    String,
>)
    ensures
        is_call_of(r, keys@, optional_text(environment), injuries_request(team_id)),
{
    af_get(keys, environment, &injuries(team_id))
}

/// The GET that asks for the next `n` fixtures of the World Cup. It is made anew each time, so
/// that it shows what the feed has now.
pub fn next_fixtures_call(keys: &ApiKey, environment: Option<String>, n: u32) -> (r: Result<
    HttpCall,
    String,
>)
    ensures
        is_call_of(r, keys@, optional_text(environment), next_request(n)),
{
    af_get(keys, environment, &wc_fixtures_next(n))
}

/// The GET that asks for the World Cup fixtures that are being played. It is made anew each time, so
/// that it shows what the feed has now.
pub fn live_fixtures_call(keys: &ApiKey, environment: Option<String>) -> (r: Result<
    HttpCall,
    String,
>)
    ensures
        is_call_of(r, keys@, optional_text(environment), live_request()),
{
    af_get(keys, environment, &wc_fixtures_live())
}

/// How a GET failed.
#[derive(Debug, Clone, Copy, PartialEq, Eq, Structural)]
pub enum Failure {
    /// API-FOOTBALL did not answer.
    FootballRequest,
    /// API-FOOTBALL's answer is no JSON.
    FootballParse,
    /// Gamma did not answer about a match.
    GammaRequest,
    /// Gamma did not answer about a market.
    MarketRequest,
    /// Gamma's answer is no JSON.
    GammaParse,
}

/// The words that say how a GET failed.
pub open spec fn failure_words(failure: Failure) -> Seq<char> {
    match failure {
        Failure::FootballRequest => "[goal-digger] api-football request failed: "@,
        Failure::FootballParse => "[goal-digger] api-football parse failed: "@,
        Failure::GammaRequest => "[goal-digger] gamma req failed: "@,
        Failure::MarketRequest => "[goal-digger] gamma request failed: "@,
        Failure::GammaParse => "[goal-digger] gamma parse failed: "@,
    }
}

/// What is reported of a GET that failed, with the details of the failure.
pub fn failure_message(failure: Failure, detail: &str) -> (r: String)
    ensures
        r@ == failure_words(failure) + detail@,
{
    let words = match failure {
        Failure::FootballRequest => "[goal-digger] api-football request failed: ",
        Failure::FootballParse => "[goal-digger] api-football parse failed: ",
        Failure::GammaRequest => "[goal-digger] gamma req failed: ",
        Failure::MarketRequest => "[goal-digger] gamma request failed: ",
        Failure::GammaParse => "[goal-digger] gamma parse failed: ",
    };
    words.to_owned().concat(detail)
}

/// Two requests for lineups, or for players, are the same only where they are
/// about the same fixture or team, so that no reply is taken for another's.
pub proof fn law_requests_kept_apart(a: u32, b: u32)
    ensures
        lineups_request(a) == lineups_request(b) ==> a == b,
        players_request(a) == players_request(b) ==> a == b,
{
    if lineups_request(a) == lineups_request(b) {
        assert(lineups_request(a).query[0] == lineups_request(b).query[0]);
        law_numerals_differ(a as nat, b as nat);
    }
    if players_request(a) == players_request(b) {
        law_numerals_differ(a as nat, b as nat);
    }
}

/// Each request about the World Cup goes to the live feed, at its own path and with
/// its own parameters: the league 1 and the season 2026, and the day, the number or
/// the id that was asked for.
pub proof fn law_feed_requests(date: Seq<char>, n: u32, id: u32)
    ensures
        is_read_of(fixtures_request(None), Service::ApiFootball, "/fixtures"@),
        fixtures_request(None).query == seq![("league"@, "1"@), ("season"@, "2026"@)],
        is_read_of(fixtures_request(Some(date)), Service::ApiFootball, "/fixtures"@),
        fixtures_request(Some(date)).query == seq![
            ("league"@, "1"@),
            ("season"@, "2026"@),
            ("date"@, date),
        ],
        is_read_of(injuries_request(id), Service::ApiFootball, "/injuries"@),
        injuries_request(id).query == seq![
            ("league"@, "1"@),
            ("season"@, "2026"@),
            ("team"@, numeral(id as nat)),
        ],
        is_read_of(next_request(n), Service::ApiFootball, "/fixtures"@),
        next_request(n).query == seq![
            ("league"@, "1"@),
            ("season"@, "2026"@),
            ("next"@, numeral(n as nat)),
        ],
        is_read_of(live_request(), Service::ApiFootball, "/fixtures"@),
        live_request().query == seq![("league"@, "1"@), ("live"@, "all"@)],
        is_read_of(teams_request(), Service::ApiFootball, "/teams"@),
        teams_request().query == seq![("league"@, "1"@), ("season"@, "2026"@)],
        is_read_of(lineups_request(id), Service::ApiFootball, "/fixtures/lineups"@),
        lineups_request(id).query == seq![("fixture"@, numeral(id as nat))],
        is_read_of(players_request(id), Service::ApiFootball, "/players"@),
        players_request(id).query == seq![
            ("team"@, numeral(id as nat)),
            ("season"@, "2026"@),
            ("page"@, "1"@),
        ],
{
    reveal_strlit("1");
    reveal_strlit("2026");
    assert(numeral(1) =~= "1"@);
    reveal_with_fuel(numeral, 4);
    assert(numeral(2) =~= seq!['2']);
    assert(numeral(20) =~= seq!['2', '0']);
    assert(numeral(202) =~= seq!['2', '0', '2']);
    assert(numeral(2026) =~= "2026"@);
}

/// Whether a request reads this path of this service.
pub open spec fn is_read_of(request: RequestView, service: Service, path: Seq<char>) -> bool {
    request.service == service && request.path == path
}

/// Each request about markets goes to Gamma, at its own path and with its own
/// parameters: the two names that are searched for, or the slug, as they were given.
pub proof fn law_market_requests(home: Seq<char>, away: Seq<char>, slug: Seq<char>)
    ensures
        is_read_of(search_request(home, away), Service::Gamma, "/public-search"@),
        search_request(home, away).query == seq![
            ("q"@, home + " vs "@ + away),
            ("limit_per_type"@, "10"@),
        ],
        is_read_of(event_request(slug), Service::Gamma, "/events"@),
        event_request(slug).query == seq![("slug"@, slug)],
        is_read_of(market_request(slug), Service::Gamma, "/markets"@),
        market_request(slug).query == seq![("slug"@, slug)],
{
}

/// A call reads the path of its request at the address of the service, with the
/// parameters of the request and nothing else, is given up after twelve seconds,
/// and carries a key where there is one.
pub proof fn law_call_carries_its_request(
    request: RequestView,
    key: Option<Seq<char>>,
    call: HttpCall,
)
    requires
        call_for(request, key) == call@,
    ensures
        request.service is ApiFootball ==> call.url@ == "https://v3.football.api-sports.io"@
            + request.path,
        request.service is Gamma ==> call.url@ == "https://gamma-api.polymarket.com"@
            + request.path,
        call.query@.len() == request.query.len(),
        forall|i: int|
            0 <= i < request.query.len() ==> (
                (#[trigger] call.query@[i]).0@,
                call.query@[i].1@,
            ) == request.query[i],
        call.timeout_secs == 12,
        key is None ==> call.header is None,
        key matches Some(k) ==> call.header is Some && (call.header->0).0@ == "x-apisports-key"@
            && (call.header->0).1@ == k,
{
    assert(params(call.query@) == request.query);
    assert forall|i: int| 0 <= i < request.query.len() implies (
        (#[trigger] call.query@[i]).0@,
        call.query@[i].1@,
    ) == request.query[i] by {
        assert(params(call.query@)[i] == request.query[i]);
    }
}

/// The key that the host handed over is called with, else that of the environment;
/// without either there is no call but a report that says so.
pub proof fn law_key_that_is_called_with(
    r: Result<HttpCall, String>,
    primed: Option<Seq<char>>,
    environment: Option<Seq<char>>,
    request: RequestView,
)
    requires
        is_call_of(r, primed, environment, request),
    ensures
        primed matches Some(k) ==> r is Ok && r->Ok_0@ == call_for(request, Some(k)),
        primed is None ==> (environment matches Some(k) ==> r is Ok && r->Ok_0@ == call_for(
            request,
            Some(k),
        )),
        primed is None && environment is None ==> r is Err && r->Err_0@
            == "[goal-digger] API_FOOTBALL_KEY not set. Live fixtures/injuries unavailable; strength-only simulation still works."@,
{
}

/// The key in use is the primed one wherever there is one, else that of the
/// environment.
pub proof fn law_primed_key_first(primed: Option<Seq<char>>, environment: Option<Seq<char>>)
    ensures
        primed is Some ==> key_in_use(primed, environment) == primed,
        primed is None ==> key_in_use(primed, environment) == environment,
{
}

/// What a request, a call and a key hold are their own parts, in their order.
pub proof fn law_request_holds(request: Request, call: HttpCall, keys: ApiKey)
    ensures
        request@.service == request.service,
        request@.path == request.path@,
        request@.query.len() == request.query@.len(),
        forall|i: int|
            0 <= i < request.query@.len() ==> #[trigger] request@.query[i] == (
                request.query@[i].0@,
                request.query@[i].1@,
            ),
        call@.url == call.url@,
        call@.query == params(call.query@),
        call@.timeout_secs == call.timeout_secs,
        call.header is None ==> call@.header is None,
        call.header matches Some(h) ==> call@.header == Some((h.0@, h.1@)),
        keys.primed matches Some(k) ==> keys@ == Some(k@),
        keys.primed is None ==> keys@ is None,
{
}

/// Each failure is reported in words of its own.
pub proof fn law_failures_in_words(failure: Failure)
    ensures
        failure is FootballRequest ==> failure_words(failure)
            == "[goal-digger] api-football request failed: "@,
        failure is FootballParse ==> failure_words(failure)
            == "[goal-digger] api-football parse failed: "@,
        failure is GammaRequest ==> failure_words(failure) == "[goal-digger] gamma req failed: "@,
        failure is MarketRequest ==> failure_words(failure)
            == "[goal-digger] gamma request failed: "@,
        failure is GammaParse ==> failure_words(failure) == "[goal-digger] gamma parse failed: "@,
{
}

} // verus!
