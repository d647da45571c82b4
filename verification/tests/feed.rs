use goal_digger::feed::{wc_fixture_id, wc_startxi, wc_team_id};
use goal_digger::json::Json;

type J = Json<f64>;

fn obj(fields: Vec<(&str, J)>) -> J {
    Json::Object(fields.into_iter().map(|(k, v)| (k.to_string(), v)).collect())
}

fn text(s: &str) -> J {
    Json::Text(s.to_string())
}

fn answer(entries: Vec<J>) -> Result<J, String> {
    Ok(obj(vec![("errors", Json::Array(vec![])), ("response", Json::Array(entries))]))
}

fn team(id: u64, name: &str) -> J {
    obj(vec![("team", obj(vec![("id", Json::Unsigned(id)), ("name", text(name))]))])
}

fn fixture(id: u64, home: &str, away: &str) -> J {
    obj(vec![
        ("fixture", obj(vec![("id", Json::Unsigned(id))])),
        (
            "teams",
            obj(vec![
                ("home", obj(vec![("name", text(home))])),
                ("away", obj(vec![("name", text(away))])),
            ]),
        ),
    ])
}

#[test]
fn team_id_by_feed_name() {
    let r = answer(vec![Json::Null, team(9, "Spain"), team(2384, "USA"), team(10, "spain")]);
    assert_eq!(wc_team_id(&r, "SPAIN "), Some(9));
    assert_eq!(wc_team_id(&r, "United States"), Some(2384));
    assert_eq!(wc_team_id(&r, "France"), None);
}

#[test]
fn team_without_an_id_is_passed_over() {
    let nameless = obj(vec![("team", obj(vec![("name", text("Spain"))]))]);
    let negative =
        obj(vec![("team", obj(vec![("id", Json::Signed(-4)), ("name", text("Spain"))]))]);
    let r = answer(vec![nameless, negative, team(7, "Spain")]);
    assert_eq!(wc_team_id(&r, "spain"), Some(7));
}

#[test]
fn ids_keep_their_low_bits() {
    let r = answer(vec![team(0x1_0000_0005, "Spain")]);
    assert_eq!(wc_team_id(&r, "spain"), Some(5));
    assert_eq!(wc_team_id(&answer(vec![team(u64::MAX, "Spain")]), "spain"), Some(u32::MAX));
}

#[test]
fn failed_or_malformed_answers_give_no_id() {
    assert_eq!(wc_team_id::<f64>(&Err("down".to_string()), "spain"), None);
    assert_eq!(wc_team_id::<f64>(&Ok(Json::Null), "spain"), None);
    let r: Result<J, String> = Ok(obj(vec![("response", text("x"))]));
    assert_eq!(wc_team_id(&r, "spain"), None);
    assert_eq!(wc_fixture_id(&r, "a", "b"), None);
    assert_eq!(wc_startxi(&r, 1), None);
}

#[test]
fn fixture_found_either_way() {
    let r = answer(vec![
        fixture(1, "Spain", "France"),
        fixture(2, "Mexico", "USA"),
        fixture(3, "usa", "mexico"),
    ]);
    assert_eq!(wc_fixture_id(&r, "United States", "MEXICO"), Some(2));
    assert_eq!(wc_fixture_id(&r, "mexico", "USMNT"), Some(2));
    assert_eq!(wc_fixture_id(&r, "france", "spain"), Some(1));
    assert_eq!(wc_fixture_id(&r, "spain", "france"), Some(1));
    assert_eq!(wc_fixture_id(&r, "spain", "spain"), None);
}

#[test]
fn fixture_without_an_id_is_passed_over() {
    let bare = obj(vec![(
        "teams",
        obj(vec![
            ("home", obj(vec![("name", text("Spain"))])),
            ("away", obj(vec![("name", text("France"))])),
        ]),
    )]);
    let r = answer(vec![bare, fixture(8, "france", "spain")]);
    assert_eq!(wc_fixture_id(&r, "Spain", "France"), Some(8));
}

fn starter(name: &str) -> J {
    obj(vec![("player", obj(vec![("name", text(name))]))])
}

fn lineup(id: u64, names: Vec<J>) -> J {
    obj(vec![
        ("team", obj(vec![("id", Json::Unsigned(id))])),
        ("startXI", Json::Array(names)),
    ])
}

#[test]
fn starters_of_the_team() {
    let r = answer(vec![
        lineup(1, vec![starter("A")]),
        lineup(2, vec![starter("Pedri"), Json::Null, starter("Rodri")]),
    ]);
    assert_eq!(wc_startxi(&r, 2), Some(vec!["Pedri".to_string(), "Rodri".to_string()]));
    assert_eq!(wc_startxi(&r, 3), None);
}

#[test]
fn entries_that_give_no_lineup_are_passed_over() {
    let r = answer(vec![lineup(1, vec![]), obj(vec![]), lineup(2, vec![starter("Pedri")])]);
    assert_eq!(wc_startxi(&r, 1), Some(vec![]));
    assert_eq!(wc_startxi(&r, 2), Some(vec!["Pedri".to_string()]));
    let no_xi = || obj(vec![("team", obj(vec![("id", Json::Unsigned(4))]))]);
    assert_eq!(wc_startxi(&answer(vec![no_xi()]), 4), None);
}

#[test]
fn first_entry_of_a_team_decides() {
    let no_xi = || obj(vec![("team", obj(vec![("id", Json::Unsigned(4))]))]);
    assert_eq!(wc_startxi(&answer(vec![no_xi(), lineup(4, vec![starter("A")])]), 4), None);
    let twice = answer(vec![obj(vec![]), lineup(4, vec![starter("A")]), no_xi()]);
    assert_eq!(wc_startxi(&twice, 4), Some(vec!["A".to_string()]));
}
