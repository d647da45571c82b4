use goal_digger::json::Json;
use goal_digger::teams::{team_strength, TeamRow, TeamStrength, TeamTable};
use goal_digger::tools::{
    bracket, dossier_report, edge_report, fixtures_report, match_report, match_setup,
    tournament_report, watch_report, Adjustments, Edge, SimulateMatchArgs, Verdict,
    DEFAULT_ROLLOUTS, DEFAULT_SEED,
};

type J = Json<f64>;

fn obj(fields: Vec<(&str, J)>) -> J {
    Json::Object(fields.into_iter().map(|(k, v)| (k.to_string(), v)).collect())
}

fn text(s: &str) -> J {
    Json::Text(s.to_string())
}

fn row(name: &str, elo: f64) -> TeamRow<f64> {
    TeamRow {
        name: name.to_string(),
        elo,
        xg_for: 1.5,
        xg_against: 0.5,
        aliases: vec![],
    }
}

fn table() -> TeamTable<f64> {
    TeamTable::new(vec![row("Spain", 2100.0), row("France", 2050.0)])
}

fn args(home: &str, away: &str) -> SimulateMatchArgs<f64> {
    SimulateMatchArgs {
        home: home.to_string(),
        away: away.to_string(),
        neutral: false,
        knockout: true,
        host_elo_bonus: 40.0,
        home_adj: Adjustments { attack: 0.9, defense: 1.1 },
        away_adj: Adjustments { attack: 1.0, defense: 1.2 },
        seed: Some(7),
        sims: None,
    }
}

fn unknown(name: &str) -> String {
    format!("[goal-digger] unknown team '{}'. Check data/teams.json coverage.", name)
}

#[test]
fn setup_of_a_match() {
    let s = match_setup(&table(), &args("spain", "FRANCE")).unwrap();
    assert_eq!(s.home.name, "Spain");
    assert_eq!(s.away.elo, 2050.0);
    assert!(!s.neutral && s.knockout);
    assert_eq!(s.host_elo_bonus, 40.0);
    assert_eq!(s.home_adj, Adjustments { attack: 0.9, defense: 1.1 });
    assert_eq!(s.away_adj, Adjustments { attack: 1.0, defense: 1.2 });
    assert_eq!(s.seed, Some(7));
    assert_eq!(s.sims, None);
}

#[test]
fn unknown_home_team_is_reported_first() {
    assert_eq!(match_setup(&table(), &args("x", "y")), Err(unknown("x")));
    assert_eq!(match_setup(&table(), &args("spain", "y")), Err(unknown("y")));
}

#[test]
fn bracket_in_order_with_defaults() {
    let names = vec!["france".to_string(), "spain".to_string(), "France".to_string()];
    let b = bracket(&table(), &names, None, None).unwrap();
    let got: Vec<&str> = b.teams.iter().map(|t| t.name.as_str()).collect();
    assert_eq!(got, vec!["France", "Spain", "France"]);
    assert_eq!((b.rollouts, b.seed), (20_000, 0x60A1));
    assert_eq!((DEFAULT_ROLLOUTS, DEFAULT_SEED), (20_000, 24_737));
    let said = bracket(&table(), &names, Some(20_000), Some(0x60A1)).unwrap();
    assert_eq!(b, said);
    let b = bracket(&table(), &vec![], Some(5), Some(6)).unwrap();
    assert_eq!((b.teams.len(), b.rollouts, b.seed), (0, 5, 6));
}

#[test]
fn first_unknown_team_of_a_bracket_is_reported() {
    let names = vec!["spain".to_string(), "x".to_string(), "y".to_string()];
    assert_eq!(bracket(&table(), &names, None, None), Err(unknown("x")));
}

#[test]
fn verdicts() {
    assert_eq!(Verdict::of_edge(true, false), Verdict::ValueBuy);
    assert_eq!(Verdict::of_edge(true, true), Verdict::ValueBuy);
    assert_eq!(Verdict::of_edge(false, true), Verdict::Overpriced);
    assert_eq!(Verdict::of_edge(false, false), Verdict::Fair);
    let rank = |edge: i32| {
        ["OVERPRICED", "FAIR", "VALUE_BUY"]
            .iter()
            .position(|w| *w == Verdict::of_edge(edge >= 4, edge <= -4).as_str())
    };
    for edge in -10i32..10 {
        assert!(rank(edge) <= rank(edge + 1));
    }
    assert_eq!(Verdict::ValueBuy.as_str(), "VALUE_BUY");
    assert_eq!(Verdict::Overpriced.as_str(), "OVERPRICED");
    assert_eq!(Verdict::Fair.as_str(), "FAIR");
}

#[test]
fn reports_of_simulations() {
    assert_eq!(
        match_report(Json::Float(0.5)),
        obj(vec![
            ("source", text("goal-digger")),
            ("model", text("dixon-coles+elo+xg/monte-carlo")),
            ("outcome", Json::Float(0.5)),
        ])
    );
    assert_eq!(
        tournament_report(&vec![("Spain".to_string(), 0.6), ("France".to_string(), 0.4)]),
        obj(vec![
            ("source", text("goal-digger")),
            (
                "championship",
                Json::Array(vec![
                    obj(vec![("team", text("Spain")), ("title_probability", Json::Float(0.6))]),
                    obj(vec![("team", text("France")), ("title_probability", Json::Float(0.4))]),
                ])
            ),
        ])
    );
}

#[test]
fn report_of_an_edge() {
    let e = Edge {
        market_slug: "m".to_string(),
        outcome: "Yes".to_string(),
        price: 0.5,
        model_prob: 0.6,
        edge: 0.1,
        verdict: Verdict::ValueBuy,
        stake: 0.05,
    };
    assert_eq!(
        edge_report(&e),
        obj(vec![
            ("source", text("goal-digger")),
            ("market", text("m")),
            ("outcome", text("Yes")),
            ("market_price", Json::Float(0.5)),
            ("model_prob", Json::Float(0.6)),
            ("edge", Json::Float(0.1)),
            ("verdict", text("VALUE_BUY")),
            ("suggested_stake_fraction", Json::Float(0.05)),
        ])
    );
}

fn dossier(extra: Vec<(&str, J)>) -> J {
    let mut fields = vec![
        ("source", text("goal-digger")),
        ("team", text("Spain")),
        ("elo", Json::Float(2100.0)),
        ("xg_for", Json::Float(1.5)),
        ("xg_against", Json::Float(0.5)),
    ];
    fields.extend(extra);
    obj(fields)
}

#[test]
fn dossier_with_and_without_injuries() {
    let s: TeamStrength<f64> = team_strength(&table(), "spain").unwrap();
    assert_eq!(dossier_report(&s, None), dossier(vec![]));
    assert_eq!(
        dossier_report(&s, Some(Ok(Json::Array(vec![])))),
        dossier(vec![("injuries", Json::Array(vec![]))])
    );
    assert_eq!(
        dossier_report(&s, Some(Err("no key".to_string()))),
        dossier(vec![("injuries_note", text("no key"))])
    );
}

#[test]
fn reports_of_live_data() {
    assert_eq!(
        fixtures_report(Json::<f64>::Null),
        obj(vec![("source", text("goal-digger")), ("fixtures", Json::Null)])
    );
    assert_eq!(
        watch_report::<f64>(u64::MAX),
        obj(vec![
            ("source", text("goal-digger")),
            ("fixture_id", Json::Unsigned(u64::MAX)),
            ("status", text("snapshot-only")),
            ("note", text("Live streaming (DynAsyncSink) lands in the next pass. Use get_wc_fixtures + simulate_match for now.")),
        ])
    );
}
