use goal_digger::teams::{
    all_team_names, team_code, team_strength, TeamRow, TeamStrength, TeamTable,
};

fn row(name: &str, elo: f64, aliases: &[&str]) -> TeamRow<f64> {
    TeamRow {
        name: name.to_string(),
        elo,
        xg_for: 1.5,
        xg_against: 0.5,
        aliases: aliases.iter().map(|a| a.to_string()).collect(),
    }
}

fn table() -> TeamTable<f64> {
    TeamTable::new(vec![
        row("Spain", 2100.0, &["ESP", "La Roja"]),
        row("Germany", 1950.0, &["GER"]),
        row("Curaçao", 1500.0, &[]),
    ])
}

#[test]
fn found_by_name_and_alias() {
    let t = table();
    for n in ["Spain", "ESP", "La Roja", " spain ", "esp", "LA ROJA\n"] {
        assert_eq!(
            team_strength(&t, n),
            Ok(TeamStrength {
                name: "Spain".to_string(),
                elo: 2100.0,
                xg_for: 1.5,
                xg_against: 0.5
            })
        );
    }
    assert_eq!(team_strength(&t, "CURAÇAO").unwrap().elo, 1500.0);
}

#[test]
fn found_under_normal_forms() {
    let t = table();
    assert_eq!(t.find("spain"), Some(0));
    assert_eq!(t.find("la roja"), Some(0));
    assert_eq!(t.find("curaçao"), Some(2));
    assert_eq!(t.find("Spain"), None);
}

#[test]
fn unknown_team_is_reported() {
    assert_eq!(
        team_strength(&table(), " Atlantis"),
        Err("[goal-digger] unknown team ' Atlantis'. Check data/teams.json coverage.".to_string())
    );
    let none: TeamTable<f64> = TeamTable::new(vec![]);
    assert!(team_strength(&none, "Spain").is_err());
    assert!(all_team_names(&none).is_empty());
}

#[test]
fn later_row_takes_a_shared_key() {
    let t = TeamTable::new(vec![
        row("Korea", 1700.0, &["KOR", "Corea"]),
        row("Korea Republic", 1800.0, &["kor", "KOREA"]),
    ]);
    assert_eq!(team_strength(&t, "korea").unwrap().name, "Korea Republic");
    assert_eq!(team_strength(&t, "KOR").unwrap().elo, 1800.0);
    assert_eq!(team_strength(&t, "corea").unwrap().elo, 1700.0);
    assert_eq!(all_team_names(&t), vec!["Korea", "Korea Republic"]);
}

#[test]
fn a_row_that_nothing_finds_is_not_listed() {
    let t = TeamTable::new(vec![
        row("Holland", 1.0, &["NED"]),
        row("holland ", 2.0, &["ned"]),
        row("Albania", 3.0, &[]),
        row("Albania", 4.0, &["ALB"]),
    ]);
    assert_eq!(all_team_names(&t), vec!["Albania", "holland "]);
}

#[test]
fn names_are_sorted_and_found() {
    let t = table();
    let names = all_team_names(&t);
    assert_eq!(names, vec!["Curaçao", "Germany", "Spain"]);
    for n in &names {
        assert!(team_strength(&t, n).is_ok());
    }
    assert!(names.contains(&team_strength(&t, "esp").unwrap().name));
}

#[test]
fn code_is_the_first_alias_or_three_letters() {
    let t = table();
    assert_eq!(team_code(&t, "spain"), "ESP");
    assert_eq!(team_code(&t, "GER"), "GER");
    assert_eq!(team_code(&t, "curaçao"), "CUR");
    assert_eq!(team_code(&t, "nowhere"), "NOW");
    assert_eq!(team_code(&t, "no"), "NO");
    assert_eq!(team_code(&t, ""), "");
    assert_eq!(team_code(&t, "ßsé!"), "SSSÉ");
    assert!(team_strength(&t, &team_code(&t, "La Roja")).is_ok());
}
