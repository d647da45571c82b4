use goal_digger::json::Json;
use goal_digger::market::{
    ending_asked, first_price, gamma_market, match_market, match_prices, match_slug, pair_up,
    parse_str_array, price_endings, string_list, strings_to_json, Ending, Leg, Market,
    MarketText, MatchPrices, MatchStep, Quote,
};
use goal_digger::request::{match_event, match_search};

type J = Json<f64>;

fn obj(fields: Vec<(&str, J)>) -> J {
    Json::Object(fields.into_iter().map(|(k, v)| (k.to_string(), v)).collect())
}

fn text(s: &str) -> J {
    Json::Text(s.to_string())
}

fn strings(s: &[&str]) -> Vec<String> {
    s.iter().map(|x| x.to_string()).collect()
}

#[test]
fn lists_as_text_and_as_array() {
    assert_eq!(
        parse_str_array(Some(&text("[\"Yes\", \"No\"]"))),
        strings(&["Yes", "No"])
    );
    assert_eq!(parse_str_array(Some(&text("[\"\\u0041\\n\"]"))), strings(&["A\n"]));
    assert_eq!(parse_str_array(Some(&text("[]"))), strings(&[]));
    assert_eq!(parse_str_array(Some(&text("[1, 2]"))), strings(&[]));
    assert_eq!(parse_str_array(Some(&text("Yes"))), strings(&[]));
    assert_eq!(parse_str_array(Some(&text(""))), strings(&[]));
    assert_eq!(
        parse_str_array(Some(&Json::Array(vec![text("a"), Json::Unsigned(1), text("b")]))),
        strings(&["a", "", "b"])
    );
    assert_eq!(parse_str_array(Some(&obj(vec![]))), strings(&[]));
    assert_eq!(parse_str_array::<f64>(None), strings(&[]));
}

#[test]
fn text_of_an_array_reads_as_the_array() {
    let lists: [&[&str]; 4] = [&[], &["0.62"], &["Yes", "No"], &["", "a b", "é, [x]"]];
    for list in lists {
        for gap in ["", " ", "\n\t\r "] {
            let quoted: Vec<String> = list.iter().map(|s| format!("\"{}\"", s)).collect();
            let joined = format!("[{}]", quoted.join(&format!(",{}", gap)));
            assert_eq!(parse_str_array(Some(&text(&joined))), strings(list));
        }
        let array: J = strings_to_json(&strings(list));
        assert_eq!(parse_str_array(Some(&array)), strings(list));
    }
}

#[test]
fn escapes_in_the_text_of_an_array() {
    let table = [
        (r#"["a\"b\\c\/d"]"#, "a\"b\\c/d"),
        (r#"["\b\f\n\r\t"]"#, "\u{8}\u{c}\n\r\t"),
        (r#"["\u00e9\u00E9\u0000\uffff"]"#, "éé\u{0}\u{ffff}"),
        (r#"["\ud83d\uDE00\ud800\udc00\udbff\udfff"]"#, "\u{1f600}\u{10000}\u{10ffff}"),
        (r#"["Gol d\u0027Or"]"#, "Gol d'Or"),
    ];
    for (json, plain) in table {
        assert_eq!(parse_str_array(Some(&text(json))), strings(&[plain]));
    }
    for wrong in [r#"["\ud83d"]"#, r#"["\ude00"]"#, r#"["\x"]"#, r#"["\u12"]"#, "[\"\n\"]"] {
        assert_eq!(parse_str_array(Some(&text(wrong))), strings(&[]));
    }
}

#[test]
fn written_strings_are_read_back() {
    let mut every: Vec<String> = (0u32..0x110).filter_map(char::from_u32).map(String::from).collect();
    every.push("say \"hi\" \\ to {\u{1f600}}, [\u{7f}\u{2028}]".to_string());
    every.push(String::new());
    let json = serde_json::to_string(&every).unwrap();
    assert_eq!(parse_str_array(Some(&text(&json))), every);
    let array: J = strings_to_json(&every);
    assert_eq!(parse_str_array(Some(&array)), every);
}

#[test]
fn decoded_text_stands_for_a_text_only() {
    let d = || Some(strings(&["x"]));
    assert_eq!(string_list(Some(&text("anything")), d()), strings(&["x"]));
    assert_eq!(string_list(Some(&text("anything")), None), strings(&[]));
    assert_eq!(string_list(Some(&Json::Array(vec![text("a")])), d()), strings(&["a"]));
    assert_eq!(string_list::<f64>(None, d()), strings(&[]));
}

#[test]
fn first_of_the_prices() {
    assert_eq!(first_price(Some(&text("[\"0.62\", \"0.38\"]"))), Some("0.62".to_string()));
    assert_eq!(first_price(Some(&text("[]"))), None);
    assert_eq!(first_price::<f64>(None), None);
}

#[test]
fn pairs_go_as_far_as_both() {
    let p = pair_up(strings(&["Yes", "No", "Maybe"]), strings(&["0.6", "0.4"]));
    assert_eq!(
        p,
        vec![
            ("Yes".to_string(), "0.6".to_string()),
            ("No".to_string(), "0.4".to_string())
        ]
    );
    assert_eq!(pair_up(strings(&[]), strings(&["1"])), vec![]);
}

fn market_reply() -> Result<J, String> {
    Ok(Json::Array(vec![
        obj(vec![
            ("question", text("Will Spain win?")),
            ("outcomes", text("[\"Yes\", \"No\"]")),
            ("outcomePrices", text("[\"0.25\", \"0.75\"]")),
            ("clobTokenIds", text("[\"11\", \"12\"]")),
        ]),
        Json::Null,
    ]))
}

#[test]
fn market_by_reply() {
    assert_eq!(
        gamma_market("will-spain", market_reply()),
        Ok(MarketText {
            slug: "will-spain".to_string(),
            question: text("Will Spain win?"),
            outcomes: vec![
                ("Yes".to_string(), "0.25".to_string()),
                ("No".to_string(), "0.75".to_string())
            ],
            token_ids: strings(&["11", "12"]),
        })
    );
    assert_eq!(
        gamma_market("s", Ok(Json::Array(vec![Json::<f64>::Null]))),
        Ok(MarketText {
            slug: "s".to_string(),
            question: Json::Null,
            outcomes: vec![],
            token_ids: vec![],
        })
    );
}

#[test]
fn no_market_is_reported() {
    let none = Err("[goal-digger] no Polymarket market for slug 'x'".to_string());
    assert_eq!(gamma_market::<f64>("x", Ok(Json::Array(vec![]))), none);
    assert_eq!(gamma_market::<f64>("x", Ok(Json::Null)), none);
    assert_eq!(gamma_market::<f64>("x", Err("down".to_string())), Err("down".to_string()));
}

fn market() -> Market<f64> {
    gamma_market("will-spain", market_reply()).unwrap().with_prices(&vec![Some(0.25), None])
}

#[test]
fn market_report_as_json() {
    assert_eq!(
        market().quotes,
        vec![
            Quote { outcome: "Yes".to_string(), price: Some(0.25) },
            Quote { outcome: "No".to_string(), price: None },
        ]
    );
    assert_eq!(
        market().report(),
        obj(vec![
            ("slug", text("will-spain")),
            ("question", text("Will Spain win?")),
            (
                "outcomes",
                Json::Array(vec![
                    obj(vec![("outcome", text("Yes")), ("price", Json::Float(0.25))]),
                    obj(vec![("outcome", text("No")), ("price", Json::Null)]),
                ])
            ),
            ("clobTokenIds", strings_to_json(&strings(&["11", "12"]))),
        ])
    );
}

#[test]
fn prices_go_as_far_as_outcomes() {
    let m = gamma_market("s", market_reply()).unwrap().with_prices(&vec![Some(0.5)]);
    assert_eq!(m.quotes, vec![Quote { outcome: "Yes".to_string(), price: Some(0.5) }]);
}

#[test]
fn price_of_an_outcome_in_any_case() {
    let m = market();
    for o in ["Yes", "yes", " YES ", "yEs\n"] {
        assert_eq!(m.price_of(o), Ok(0.25));
    }
    assert_eq!(
        m.price_of("Maybe"),
        Err("[goal-digger] outcome 'Maybe' not found in market".to_string())
    );
    assert_eq!(
        m.price_of("no"),
        Err("[goal-digger] outcome 'no' not found in market".to_string())
    );
}

#[test]
fn first_quote_of_an_outcome_counts() {
    let q = |o: &str, p: Option<f64>| Quote { outcome: o.to_string(), price: p };
    let m = Market {
        slug: "s".to_string(),
        question: Json::Null,
        quotes: vec![q("A", None), q("a", Some(0.5)), q("b", Some(0.1)), q("B", Some(0.2))],
        token_ids: vec![],
    };
    assert!(m.price_of("a").is_err());
    assert_eq!(m.price_of("B"), Ok(0.1));
}

fn leg(question: &str, price: Option<&str>) -> Leg {
    Leg { question: question.to_string(), price: price.map(|p| p.to_string()) }
}

fn prices(home: &str, draw: &str, away: &str) -> MatchPrices {
    MatchPrices { home: home.to_string(), draw: draw.to_string(), away: away.to_string() }
}

#[test]
fn questions_ask_after_endings() {
    assert_eq!(ending_asked("will spain win?", "spain", "france"), Some(Ending::Home));
    assert_eq!(ending_asked("will france win?", "spain", "france"), Some(Ending::Away));
    assert_eq!(
        ending_asked("will spain vs france end in a draw?", "spain", "france"),
        Some(Ending::Draw)
    );
    assert_eq!(ending_asked("spain or france?", "spain", "france"), Some(Ending::Home));
    assert_eq!(ending_asked("will it rain?", "spain", "france"), None);
    assert_eq!(ending_asked("will it rain?", "", "france"), Some(Ending::Home));
}

#[test]
fn last_market_of_an_ending_counts() {
    let legs = || {
        vec![
            leg("will spain win?", Some("0.1")),
            leg("draw?", Some("0.2")),
            leg("will france win?", Some("0.3")),
            leg("will spain win 2-0?", Some("0.05")),
            leg("rain?", Some("0.9")),
        ]
    };
    assert_eq!(price_endings(legs(), "spain", "france"), Some(prices("0.05", "0.2", "0.3")));
    assert_eq!(price_endings(legs(), "france", "spain"), Some(prices("0.3", "0.2", "0.05")));
    let mut late = legs();
    late.push(leg("draw again?", None));
    assert_eq!(price_endings(late, "spain", "france"), None);
    assert_eq!(price_endings(legs(), "spain", "italy"), None);
    assert_eq!(price_endings(vec![], "spain", "france"), None);
}

fn search_reply() -> Result<J, String> {
    Ok(obj(vec![(
        "events",
        Json::Array(vec![
            obj(vec![("slug", text("spain-france-2025"))]),
            Json::Null,
            obj(vec![("slug", text("fifwc-esp-fra-2026-07-01"))]),
            obj(vec![("slug", text("fifwc-other"))]),
        ]),
    )]))
}

fn event(closed: J, questions: Vec<J>) -> Result<J, String> {
    Ok(Json::Array(vec![obj(vec![("closed", closed), ("markets", Json::Array(questions))])]))
}

fn question(q: &str, p: &str) -> J {
    obj(vec![("question", text(q)), ("outcomePrices", text(p))])
}

fn markets() -> Vec<J> {
    vec![
        question("Will SPAIN win on 2026-07-01?", "[\"0.5\", \"0.5\"]"),
        question("Will France win on 2026-07-01?", "[\"0.3\", \"0.7\"]"),
        question("Will Spain vs. France end in a draw?", "[\"0.2\", \"0.8\"]"),
    ]
}

#[test]
fn steps_to_the_prices_of_a_match() {
    let mut replies: Vec<Result<J, String>> = vec![];
    assert_eq!(
        match_market("Spain", "France", &replies),
        MatchStep::Fetch(match_search("Spain", "France"))
    );
    replies.push(search_reply());
    assert_eq!(
        match_market("Spain", "France", &replies),
        MatchStep::Fetch(match_event("fifwc-esp-fra-2026-07-01"))
    );
    replies.push(event(Json::Bool(false), markets()));
    assert_eq!(
        match_market("Spain", "France", &replies),
        MatchStep::Done(Some(prices("0.5", "0.2", "0.3")))
    );
    assert_eq!(
        match_market("France", "Spain", &replies),
        MatchStep::Done(Some(prices("0.3", "0.2", "0.5")))
    );
}

#[test]
fn no_prices_where_nothing_is_found() {
    let gone: Vec<Result<J, String>> = vec![Err("down".to_string())];
    assert_eq!(match_market("Spain", "France", &gone), MatchStep::Done(None));
    assert_eq!(match_slug::<f64>(&Ok(obj(vec![("events", Json::Array(vec![]))]))), None);
    assert_eq!(match_slug::<f64>(&Ok(Json::Null)), None);
    assert_eq!(match_prices::<f64>(&Err("down".to_string()), "a", "b"), None);
    assert_eq!(match_prices::<f64>(&Ok(Json::Array(vec![])), "a", "b"), None);
}

#[test]
fn settled_match_has_no_prices() {
    assert_eq!(match_prices(&event(Json::Bool(true), markets()), "Spain", "France"), None);
    assert!(match_prices(&event(Json::Null, markets()), "Spain", "France").is_some());
    assert!(match_prices(&event(text("true"), markets()), "Spain", "France").is_some());
}

#[test]
fn market_without_a_question_is_passed_over() {
    let mut m = markets();
    m.push(obj(vec![]));
    m.insert(0, obj(vec![("question", Json::Null), ("outcomePrices", text("[\"0.9\"]"))]));
    assert_eq!(
        match_prices(&event(Json::Bool(false), m), "Spain", "France"),
        Some(prices("0.5", "0.2", "0.3"))
    );
}

#[test]
fn longer_name_is_meant() {
    let replies = vec![
        Ok(obj(vec![("events", Json::Array(vec![obj(vec![("slug", text("fifwc-a"))])]))])),
        event(
            Json::Bool(false),
            vec![
                question("Will Congo win?", "[\"0.5\"]"),
                question("Will it end in a draw?", "[\"0.25\"]"),
                question("Will DR Congo win?", "[\"0.125\"]"),
            ],
        ),
    ];
    assert_eq!(
        match_market("Congo", "DR Congo", &replies),
        MatchStep::Done(Some(prices("0.5", "0.25", "0.125")))
    );
    assert_eq!(
        match_market("DR Congo", "Congo", &replies),
        MatchStep::Done(Some(prices("0.125", "0.25", "0.5")))
    );
    assert_eq!(ending_asked("will dr congo win?", "congo", "dr congo"), Some(Ending::Away));
    assert_eq!(ending_asked("will congo win?", "congo", "congo"), Some(Ending::Home));
}

#[test]
fn home_team_named_on_its_own_is_meant() {
    let both = "will congo beat dr congo?";
    assert_eq!(ending_asked(both, "congo", "dr congo"), Some(Ending::Home));
    assert_eq!(ending_asked(both, "dr congo", "congo"), Some(Ending::Home));
    assert_eq!(ending_asked("dr congo or congo?", "congo", "dr congo"), Some(Ending::Home));
    assert_eq!(ending_asked("dr congo or dr congo?", "congo", "dr congo"), Some(Ending::Away));
    assert_eq!(ending_asked("dr congo or dr congo?", "dr congo", "congo"), Some(Ending::Home));
    assert_eq!(ending_asked("will mali beat niger?", "niger", "mali"), Some(Ending::Home));
    assert_eq!(ending_asked("will nigeria win?", "niger", "nigeria"), Some(Ending::Away));
    assert_eq!(ending_asked("will guinea win?", "guinea", "guinea-bissau"), Some(Ending::Home));
    assert_eq!(ending_asked("will congo win?", "mali", "dr congo"), None);
}

#[test]
fn unmatched_names_have_no_prices() {
    assert_eq!(
        match_prices(&event(Json::Bool(false), markets()), "Spain", "Italy"),
        None
    );
}
