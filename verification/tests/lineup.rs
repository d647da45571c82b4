use goal_digger::json::Json;
use goal_digger::lineup::{
    absence_factor, adjust, live_adjustment, role, Adjustment, AdjustmentStep, Factor,
    GREATEST_PERCENT, LEAST_PERCENT,
};
use goal_digger::players::{
    read_feed_players, wc_key_players, FeedPlayer, KeyPlayer, KeyPlayers, RatedPlayer,
};
use goal_digger::request::{wc_lineups, wc_teams};

type J = Json<f64>;

fn obj(fields: Vec<(&str, J)>) -> J {
    Json::Object(fields.into_iter().map(|(k, v)| (k.to_string(), v)).collect())
}

fn text(s: &str) -> J {
    Json::Text(s.to_string())
}

fn pair(name: &str, position: &str) -> J {
    Json::Array(vec![text(name), text(position)])
}

fn lists() -> KeyPlayers {
    KeyPlayers::from_json(&obj(vec![
        ("_remark", Json::Array(vec![pair("Nobody", "A")])),
        (
            "Spain",
            Json::Array(vec![
                pair("Lamine Yamal", "a"),
                pair("Rodri", "M"),
                pair("Unai Simón", "goalkeeper"),
                pair("Pau Cubarsí", "D"),
            ]),
        ),
        ("Empty", Json::Array(vec![])),
        ("Odd", Json::Bool(true)),
        (
            "USA",
            Json::Array(vec![
                pair("Old", "A"),
                Json::Null,
                Json::Array(vec![text("short")]),
                pair("blank", ""),
            ]),
        ),
        ("United States", Json::Array(vec![pair("Christian Pulisic", "x")])),
    ]))
}

fn teams_reply() -> Result<J, String> {
    Ok(obj(vec![(
        "response",
        Json::Array(vec![obj(vec![(
            "team",
            obj(vec![("id", Json::Unsigned(9)), ("name", text("Spain"))]),
        )])]),
    )]))
}

fn lineup_reply(names: &[&str]) -> Result<J, String> {
    let xi = names.iter().map(|n| obj(vec![("player", obj(vec![("name", text(n))]))])).collect();
    Ok(obj(vec![(
        "response",
        Json::Array(vec![obj(vec![
            ("team", obj(vec![("id", Json::Unsigned(9))])),
            ("startXI", Json::Array(xi)),
        ])]),
    )]))
}

fn neutral(reason: &str) -> AdjustmentStep {
    AdjustmentStep::Done(Adjustment { factors: vec![], reasons: vec![reason.to_string()] })
}

fn star(name: &str, position: char) -> KeyPlayer {
    KeyPlayer { name: name.to_string(), position }
}

#[test]
fn curated_lists_are_read() {
    let l = lists();
    assert_eq!(l.of_team("usmnt"), Some(&vec![star("Christian Pulisic", 'X')]));
    assert_eq!(l.of_team("_remark"), None);
    assert_eq!(l.of_team("odd"), Some(&vec![]));
    assert_eq!(l.of_team("France"), None);
    assert_eq!(
        l.of_team(" SPAIN "),
        Some(&vec![
            star("Lamine Yamal", 'A'),
            star("Rodri", 'M'),
            star("Unai Simón", 'G'),
            star("Pau Cubarsí", 'D'),
        ])
    );
    assert_eq!(KeyPlayers::from_json::<f64>(&Json::Null).of_team("spain"), None);
}

#[test]
fn malformed_players_are_left_out() {
    let l = KeyPlayers::from_json(&obj(vec![(
        "USA",
        Json::Array(vec![
            Json::Null,
            Json::Array(vec![text("short")]),
            pair("blank", ""),
            Json::Array(vec![Json::Unsigned(1), text("A")]),
            Json::Array(vec![text("Kept"), text("éa"), Json::Null]),
        ]),
    )]));
    assert_eq!(l.of_team("usa"), Some(&vec![star("Kept", 'é')]));
}

#[test]
fn steps_to_an_adjustment() {
    let l = lists();
    let mut replies: Vec<Result<J, String>> = vec![];
    assert_eq!(live_adjustment(&l, "Spain", 77, &replies), AdjustmentStep::Fetch(wc_teams()));
    replies.push(teams_reply());
    assert_eq!(live_adjustment(&l, "Spain", 77, &replies), AdjustmentStep::Fetch(wc_lineups(77)));
    replies.push(lineup_reply(&["L. Yamal", "Pedri", "U. Simón"]));
    assert_eq!(
        live_adjustment(&l, "Spain", 77, &replies),
        AdjustmentStep::Done(Adjustment {
            factors: vec![Factor { attack: 97, defense: 100 }, Factor { attack: 100, defense: 106 }],
            reasons: vec![
                "Rodri (midfielder) not in starting XI".to_string(),
                "Pau Cubarsí (defender) not in starting XI".to_string(),
            ],
        })
    );
}

#[test]
fn neutral_where_nothing_is_known() {
    let l = lists();
    let none: Vec<Result<J, String>> = vec![];
    assert_eq!(live_adjustment(&l, "France", 1, &none), neutral("France: no key-player list"));
    assert_eq!(live_adjustment(&l, "Empty", 1, &none), neutral("Empty: no key-player list"));
    assert_eq!(live_adjustment(&l, "Odd", 1, &none), neutral("Odd: no key-player list"));
    let down: Vec<Result<J, String>> = vec![Err("down".to_string())];
    assert_eq!(live_adjustment(&l, "spain", 1, &down), neutral("spain: not found in WC teams"));
    assert_eq!(
        live_adjustment(&l, "usa", 1, &vec![teams_reply()]),
        neutral("usa: not found in WC teams")
    );
    let late = vec![teams_reply(), Err("down".to_string())];
    assert_eq!(live_adjustment(&l, "Spain", 1, &late), neutral("Spain: lineup not posted yet"));
}

#[test]
fn full_lineup_changes_nothing() {
    let replies =
        vec![teams_reply(), lineup_reply(&["Yamal", "Rodri", "Unai Simón", "Cubarsí", "Morata"])];
    assert_eq!(
        live_adjustment(&lists(), "Spain", 1, &replies),
        neutral("Spain: key players all starting")
    );
}

#[test]
fn only_ascii_letters_count() {
    let stars = vec![star("Unai Simón", 'G'), star("Kylian Mbappé", 'A')];
    let marked = adjust("x", &stars, &vec!["Simón".to_string(), "K. Mbappé-Lottin".to_string()]);
    assert!(marked.factors.is_empty());
    let plain = adjust("x", &stars, &vec!["Simon".to_string(), "MBAPPE".to_string()]);
    assert_eq!(plain.reasons, vec!["Unai Simón (goalkeeper) not in starting XI"]);
}

#[test]
fn named_players_start_whatever_the_surname() {
    let replies: Vec<Result<J, String>> = vec![
        Ok(obj(vec![(
            "response",
            Json::Array(vec![obj(vec![(
                "team",
                obj(vec![("id", Json::Unsigned(3)), ("name", text("China"))]),
            )])]),
        )])),
        Ok(obj(vec![(
            "response",
            Json::Array(vec![obj(vec![
                ("team", obj(vec![("id", Json::Unsigned(3))])),
                (
                    "startXI",
                    Json::Array(vec![obj(vec![("player", obj(vec![("name", text("Wu Li"))]))])]),
                ),
            ])]),
        )])),
    ];
    let l = KeyPlayers::from_json(&obj(vec![("China", Json::Array(vec![pair("Wu Li", "A")]))]));
    assert_eq!(
        live_adjustment(&l, "China", 5, &replies),
        neutral("China: key players all starting")
    );
    for entry in ["Wu Li", "WU LI", "Wu-Li", " wu  li."] {
        let a = adjust("China", &vec![star("Wu Li", 'A')], &vec![entry.to_string()]);
        assert_eq!(a.reasons, vec!["China: key players all starting"]);
    }
    let b = adjust("China", &vec![star("武磊", 'A')], &vec!["武磊".to_string()]);
    assert!(b.factors.is_empty());
}

#[test]
fn short_surnames_are_not_looked_for_inside_names() {
    let others = ["Oliver Torres", "Li Na", "W. Uli", "Wuli", "Li Wu", "Wu Li Jr", "Wu Lí"];
    let mut lineups: Vec<Vec<String>> = others.iter().map(|n| vec![n.to_string()]).collect();
    lineups.push(vec![]);
    for xi in lineups {
        let a = adjust("China", &vec![star("Wu Li", 'A')], &xi);
        assert_eq!(a.factors, vec![Factor { attack: 95, defense: 100 }]);
        assert_eq!(a.reasons, vec!["Wu Li (attacker) not in starting XI"]);
    }
    let nameless = adjust("China", &vec![star("武磊", 'A')], &vec!["高拉特".to_string()]);
    assert_eq!(nameless.factors.len(), 1);
    let accents = adjust("x", &vec![star("Ó Li", 'A')], &vec!["Á Li".to_string()]);
    assert_eq!(accents.factors.len(), 1);
    let accent = adjust("x", &vec![star("Ó Li", 'A')], &vec!["ó LI".to_string()]);
    assert!(accent.factors.is_empty());
}

#[test]
fn surnames_of_three_letters_are_looked_for() {
    let b = adjust("Korea", &vec![star("Kim Jin", 'M')], &vec!["Kim Jin".to_string()]);
    assert!(b.factors.is_empty());
    assert_eq!(b.reasons, vec!["Korea: key players all starting"]);
}

#[test]
fn longer_lineup_has_no_more_absences() {
    let stars = vec![star("Rodri", 'M'), star("Lamine Yamal", 'A')];
    let one = adjust("Spain", &stars, &vec!["Rodri".to_string()]);
    let two = adjust("Spain", &stars, &vec!["Rodri".to_string(), "Pedri".to_string()]);
    assert_eq!(one, two);
    assert_eq!(one.reasons, vec!["Lamine Yamal (attacker) not in starting XI"]);
    assert_eq!(one.factors, vec![Factor { attack: 95, defense: 100 }]);
}

#[test]
fn factors_of_the_positions() {
    let table = [
        ('A', 95, 100, "attacker"),
        ('M', 97, 100, "midfielder"),
        ('D', 100, 106, "defender"),
        ('G', 100, 108, "goalkeeper"),
        ('a', 98, 100, "player"),
        ('X', 98, 100, "player"),
    ];
    for (p, attack, defense, word) in table {
        assert_eq!(absence_factor(p), Factor { attack, defense });
        assert_eq!(role(p), word);
        assert!(attack <= 100 && attack >= LEAST_PERCENT);
        assert!(defense >= 100 && defense <= GREATEST_PERCENT);
    }
}

#[test]
fn absences_never_help_together() {
    let stars = vec![star("Aaa", 'A'), star("Bbb", 'D'), star("Ccc", 'G'), star("Ddd", 'M')];
    let a = adjust("x", &stars, &vec![]);
    let attack: u64 = a.factors.iter().map(|f| f.attack as u64).product();
    let defense: u64 = a.factors.iter().map(|f| f.defense as u64).product();
    assert_eq!(attack, 95 * 100 * 100 * 97);
    assert_eq!(defense, 100 * 106 * 108 * 100);
    assert!(attack <= 100u64.pow(4) && defense >= 100u64.pow(4));
    assert_eq!(a.reasons.len(), a.factors.len());
}

#[test]
fn more_names_are_never_worse() {
    let stars = vec![star("Aaaa", 'A'), star("Bbbb", 'D'), star("Cc", 'G'), star("Dddd", 'M')];
    let pool = ["Cc", "Dddd", "Aaaa", "Bbbb"];
    let shares = |n: usize| {
        let xi: Vec<String> = pool.iter().take(n).map(|s| s.to_string()).collect();
        let a = adjust("x", &stars, &xi);
        let h = 100u64.pow(a.factors.len() as u32);
        let attack: u64 = a.factors.iter().map(|f| f.attack as u64).product();
        let defense: u64 = a.factors.iter().map(|f| f.defense as u64).product();
        (attack, defense, h, a.reasons)
    };
    for n in 0..pool.len() {
        let (a1, d1, h1, r1) = shares(n);
        let (a2, d2, h2, r2) = shares(n + 1);
        assert!(a1 * h2 <= a2 * h1);
        assert!(d1 * h2 >= d2 * h1);
        assert!(n + 1 == pool.len() || r2.iter().all(|r| r1.contains(r)));
    }
    assert_eq!(shares(4).3, vec!["x: key players all starting"]);
}

#[test]
fn percentages_are_the_decimal_factors() {
    assert_eq!(95u32 as f64 / 100.0, 0.95);
    assert_eq!(97u32 as f64 / 100.0, 0.97);
    assert_eq!(98u32 as f64 / 100.0, 0.98);
    assert_eq!(106u32 as f64 / 100.0, 1.06);
    assert_eq!(108u32 as f64 / 100.0, 1.08);
    assert_eq!(LEAST_PERCENT as f64 / 100.0, 0.6);
    assert_eq!(GREATEST_PERCENT as f64 / 100.0, 1.4);
}

fn entry(name: J, games: J) -> J {
    obj(vec![
        ("player", obj(vec![("name", name)])),
        ("statistics", Json::Array(vec![obj(vec![("games", games)])])),
    ])
}

#[test]
fn feed_players_are_read() {
    let games = |p: J, r: J| obj(vec![("position", p), ("rating", r)]);
    let reply = Ok(obj(vec![(
        "response",
        Json::Array(vec![
            entry(text("A"), games(text("attacker"), text("7.5"))),
            entry(text("B"), games(Json::Null, Json::Null)),
            entry(text("C"), games(text(""), Json::Float(7.0))),
            entry(text("D"), obj(vec![("position", text("G"))])),
            entry(text("E"), obj(vec![])),
            entry(Json::Null, games(text("M"), text("9"))),
            obj(vec![("player", obj(vec![("name", text("F"))])), ("statistics", Json::Array(vec![]))]),
        ]),
    )]));
    let p = |name: &str, position: char, rating: Option<&str>| FeedPlayer {
        name: name.to_string(),
        position,
        rating: rating.map(|r| r.to_string()),
    };
    assert_eq!(
        read_feed_players(&reply),
        vec![p("A", 'A', Some("7.5")), p("B", 'M', None), p("C", 'M', None), p("D", 'G', None)]
    );
    assert_eq!(read_feed_players::<f64>(&Err("down".to_string())), vec![]);
    assert_eq!(read_feed_players::<f64>(&Ok(Json::Null)), vec![]);
}

#[test]
fn best_rated_first_and_six_at_most() {
    let p = |name: &str, order: i64| RatedPlayer {
        name: name.to_string(),
        position: 'M',
        rating: order as f64,
        order,
    };
    let few = wc_key_players(vec![p("a", 1), p("b", 3), p("c", 1), p("d", 2)]);
    let names: Vec<&str> = few.iter().map(|x| x.name.as_str()).collect();
    assert_eq!(names, vec!["b", "d", "a", "c"]);
    let many = wc_key_players((0i64..9).map(|i| p(&i.to_string(), i / 2)).collect());
    let names: Vec<&str> = many.iter().map(|x| x.name.as_str()).collect();
    assert_eq!(names, vec!["8", "6", "7", "4", "5", "2"]);
    assert_eq!(wc_key_players::<f64>(vec![]), vec![]);
}
