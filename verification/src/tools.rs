//! The tools' rules: what a simulation is given, how an edge is judged, and the
//! reports that the tools hand back.

use vstd::prelude::*;

use crate::feed::reply_view;
use crate::json::{add_field, field_models, field_of, models, Json, JsonView};
use crate::teams::{
    goes_by, law_last_team_of_the_name, strength_found, team_strength, TeamRowView, TeamStrength,
    TeamStrengthView, TeamTable,
};
use crate::text::texts;

verus! {

/// How often a bracket is played where nothing is said.
pub const DEFAULT_ROLLOUTS: usize = 20_000;

/// The seed of a bracket where nothing is said.
pub const DEFAULT_SEED: u64 = 0x60A1;

/// Multipliers of a team's attack and of its defense's leakiness.
#[derive(Debug, PartialEq)]
pub struct Adjustments<F> {
    pub attack: F,
    pub defense: F,
}

impl<F: Copy> Adjustments<F> {
    /// Multipliers equal to these.
    pub fn copy(&self) -> (r: Adjustments<F>)
        ensures
            r == *self,
    {
        Adjustments { attack: self.attack, defense: self.defense }
    }
}

/// What the simulation of a match is asked for.
#[derive(Debug)]
pub struct SimulateMatchArgs<F> {
    /// The home team's name or alias.
    pub home: String,
    /// The away team's name or alias.
    pub away: String,
    /// Whether the venue is neutral.
    pub neutral: bool,
    /// Whether the match cannot end in a draw.
    pub knockout: bool,
    /// Elo that the crowd of a host nation adds.
    pub host_elo_bonus: F,
    pub home_adj: Adjustments<F>,
    pub away_adj: Adjustments<F>,
    /// The seed of a run that can be repeated.
    pub seed: Option<u64>,
    /// How often the match is played.
    pub sims: Option<usize>,
}

/// A match as the simulation plays it.
#[derive(Debug, PartialEq)]
pub struct MatchSetup<F> {
    pub home: TeamStrength<F>,
    pub away: TeamStrength<F>,
    pub neutral: bool,
    pub host_elo_bonus: F,
    pub knockout: bool,
    pub home_adj: Adjustments<F>,
    pub away_adj: Adjustments<F>,
    pub seed: Option<u64>,
    pub sims: Option<usize>,
}

/// What a match as the simulation plays it is.
pub struct MatchSetupView<F> {
    pub home: TeamStrengthView<F>,
    pub away: TeamStrengthView<F>,
    pub neutral: bool,
    pub host_elo_bonus: F,
    pub knockout: bool,
    pub home_adj: Adjustments<F>,
    pub away_adj: Adjustments<F>,
    pub seed: Option<u64>,
    pub sims: Option<usize>,
}

impl<F> View for MatchSetup<F> {
    type V = MatchSetupView<F>;

    open spec fn view(&self) -> MatchSetupView<F> {
        MatchSetupView {
            home: self.home@,
            away: self.away@,
            neutral: self.neutral,
            host_elo_bonus: self.host_elo_bonus,
            knockout: self.knockout,
            home_adj: self.home_adj,
            away_adj: self.away_adj,
            seed: self.seed,
            sims: self.sims,
        }
    }
}

/// The match that the arguments ask for, or the report of the first team that is
/// not known, the home team first.
pub open spec fn setup_of<F>(rows: Seq<TeamRowView<F>>, args: SimulateMatchArgs<F>) -> Result<
    MatchSetupView<F>,
    Seq<char>,
> {
    match strength_found(rows, args.home@) {
        Err(e) => Err(e),
        Ok(home) => match strength_found(rows, args.away@) {
            Err(e) => Err(e),
            Ok(away) => Ok(
                MatchSetupView {
                    home,
                    away,
                    neutral: args.neutral,
                    host_elo_bonus: args.host_elo_bonus,
                    knockout: args.knockout,
                    home_adj: args.home_adj,
                    away_adj: args.away_adj,
                    seed: args.seed,
                    sims: args.sims,
                },
            ),
        },
    }
}

/// The match that the arguments ask for, with the bundled strengths of its teams.
pub fn match_setup<F: Copy>(table: &TeamTable<F>, args: &SimulateMatchArgs<F>) -> (r: Result<
    MatchSetup<F>,
    String,
>)
    ensures
        match setup_of(table@, *args) {
            Ok(s) => r matches Ok(t) && t@ == s,
            Err(m) => r matches Err(e) && e@ == m,
        },
{
    let home = match team_strength(table, args.home.as_str()) {
        Ok(s) => s,
        Err(e) => {
            return Err(e);
        },
    };
    let away = match team_strength(table, args.away.as_str()) {
        Ok(s) => s,
        Err(e) => {
            return Err(e);
        },
    };
    Ok(
        MatchSetup {
            home,
            away,
            neutral: args.neutral,
            host_elo_bonus: args.host_elo_bonus,
            knockout: args.knockout,
            home_adj: args.home_adj.copy(),
            away_adj: args.away_adj.copy(),
            seed: args.seed,
            sims: args.sims,
        },
    )
}

/// A bracket as the simulation plays it.
#[derive(Debug, PartialEq)]
pub struct Bracket<F> {
    /// The teams in bracket order.
    pub teams: Vec<TeamStrength<F>>,
    pub rollouts: usize,
    pub seed: u64,
}

/// What a bracket is.
pub struct BracketView<F> {
    pub teams: Seq<TeamStrengthView<F>>,
    pub rollouts: usize,
    pub seed: u64,
}

impl<F> View for Bracket<F> {
    type V = BracketView<F>;

    open spec fn view(&self) -> BracketView<F> {
        BracketView { teams: strengths(self.teams@), rollouts: self.rollouts, seed: self.seed }
    }
}

/// What each of the strengths is.
pub open spec fn strengths<F>(teams: Seq<TeamStrength<F>>) -> Seq<TeamStrengthView<F>> {
    teams.map_values(|s: TeamStrength<F>| s@)
}

/// The strengths of the named teams in their order, or the report of the first
/// name that is not known.
pub open spec fn strengths_found<F>(rows: Seq<TeamRowView<F>>, names: Seq<Seq<char>>) -> Result<
    Seq<TeamStrengthView<F>>,
    Seq<char>,
>
    decreases names.len(),
{
    if names.len() == 0 {
        Ok(Seq::empty())
    } else {
        match strengths_found(rows, names.drop_last()) {
            Err(e) => Err(e),
            Ok(teams) => match strength_found(rows, names.last()) {
                Err(e) => Err(e),
                Ok(s) => Ok(teams.push(s)),
            },
        }
    }
}

proof fn lemma_unknown_name_stays<F>(rows: Seq<TeamRowView<F>>, names: Seq<Seq<char>>, n: int)
    requires
        0 <= n <= names.len(),
        strengths_found(rows, names.take(n)) is Err,
    ensures
        strengths_found(rows, names) == strengths_found(rows, names.take(n)),
    decreases names.len() - n,
{
    if n == names.len() {
        assert(names.take(n) =~= names);
    } else {
        assert(names.take(n + 1).drop_last() =~= names.take(n));
        lemma_unknown_name_stays(rows, names, n + 1);
    }
}

/// The bracket of the named teams, or the report of the first name that is not
/// known.
pub open spec fn bracket_of<F>(
    rows: Seq<TeamRowView<F>>,
    names: Seq<Seq<char>>,
    rollouts: Option<usize>,
    seed: Option<u64>,
) -> Result<BracketView<F>, Seq<char>> {
    match strengths_found(rows, names) {
        Ok(teams) => Ok(
            BracketView {
                teams,
                rollouts: match rollouts {
                    Some(n) => n,
                    None => DEFAULT_ROLLOUTS,
                },
                seed: match seed {
                    Some(n) => n,
                    None => DEFAULT_SEED,
                },
            },
        ),
        Err(e) => Err(e),
    }
}

/// The bracket of the named teams, given in bracket order, with the defaults of
/// what is not said.
pub fn bracket<F: Copy>(
    table: &TeamTable<F>,
    names: &Vec<String>,
    rollouts: Option<usize>,
    seed: Option<u64>,
) -> (r: Result<Bracket<F>, String>)
    ensures
        match bracket_of(table@, texts(names@), rollouts, seed) {
            Ok(v) => r matches Ok(b) && b@ == v,
            Err(m) => r matches Err(e) && e@ == m,
        },
{
    let mut teams: Vec<TeamStrength<F>> = Vec::new();
    let ghost all = texts(names@);
    let mut i: usize = 0;
    assert(strengths(teams@) =~= Seq::<TeamStrengthView<F>>::empty());
    while i < names.len()
        invariant
            0 <= i <= names@.len(),
            all == texts(names@),
            strengths_found(table@, all.take(i as int)) == Ok::<
                Seq<TeamStrengthView<F>>,
                Seq<char>,
            >(strengths(teams@)),
        decreases names@.len() - i,
    {
        let ghost earlier = teams@;
        assert(all.take(i + 1).drop_last() =~= all.take(i as int));
        match team_strength(table, names[i].as_str()) {
            Ok(s) => {
                teams.push(s);
                assert(strengths(teams@) =~= strengths(earlier).push(s@));
            },
            Err(e) => {
                proof {
                    lemma_unknown_name_stays(table@, all, i + 1);
                }
                return Err(e);
            },
        }
        i = i + 1;
    }
    assert(all.take(i as int) =~= all);
    Ok(
        Bracket {
            teams,
            rollouts: match rollouts {
                Some(n) => n,
                None => DEFAULT_ROLLOUTS,
            },
            seed: match seed {
                Some(n) => n,
                None => DEFAULT_SEED,
            },
        },
    )
}

/// A bracket holds its teams one for one in the order in which they were named,
/// and it comes about exactly where every name is known.
pub proof fn law_bracket_in_order<F>(rows: Seq<TeamRowView<F>>, names: Seq<Seq<char>>)
    ensures
        strengths_found(rows, names) is Ok <==> forall|i: int|
            0 <= i < names.len() ==> strength_found(rows, #[trigger] names[i]) is Ok,
        strengths_found(rows, names) matches Ok(teams) ==> {
            &&& teams.len() == names.len()
            &&& forall|i: int|
                0 <= i < names.len() ==> strength_found(rows, #[trigger] names[i]) == Ok::<
                    TeamStrengthView<F>,
                    Seq<char>,
                >(teams[i])
        },
    decreases names.len(),
{
    if names.len() > 0 {
        let head = names.drop_last();
        law_bracket_in_order(rows, head);
        assert(forall|i: int| 0 <= i < head.len() ==> #[trigger] head[i] == names[i]);
        assert forall|i: int|
            strengths_found(rows, names) is Ok && 0 <= i < names.len() implies strength_found(
            rows,
            #[trigger] names[i],
        ) == Ok::<TeamStrengthView<F>, Seq<char>>(strengths_found(rows, names)->Ok_0[i]) by {
            if i < head.len() {
                assert(head[i] == names[i]);
            }
        }
    }
}

/// A bracket of which the number of rollouts or the seed is not said is the one of
/// which the default is said.
pub proof fn law_bracket_defaults<F>(
    rows: Seq<TeamRowView<F>>,
    names: Seq<Seq<char>>,
    rollouts: Option<usize>,
    seed: Option<u64>,
)
    ensures
        bracket_of(rows, names, None, seed) == bracket_of(
            rows,
            names,
            Some(DEFAULT_ROLLOUTS),
            seed,
        ),
        bracket_of(rows, names, rollouts, None) == bracket_of(
            rows,
            names,
            rollouts,
            Some(DEFAULT_SEED),
        ),
{
}

/// How the price of an outcome stands to the model's probability.
#[derive(Debug, Clone, Copy, PartialEq, Eq, Structural)]
pub enum Verdict {
    /// The market asks less than the model by the threshold or more.
    ValueBuy,
    /// The market asks more than the model by the threshold or more.
    Overpriced,
    /// Neither.
    Fair,
}

/// The verdict on an edge: `clears` says that the edge is at least the threshold,
/// `falls` that it is at most the negated threshold.
pub open spec fn judged(clears: bool, falls: bool) -> Verdict {
    if clears {
        Verdict::ValueBuy
    } else if falls {
        Verdict::Overpriced
    } else {
        Verdict::Fair
    }
}

impl Verdict {
    /// The rank of a verdict, from overpriced up.
    pub open spec fn rank(self) -> int {
        match self {
            Verdict::Overpriced => 0,
            Verdict::Fair => 1,
            Verdict::ValueBuy => 2,
        }
    }

    /// The verdict on an edge: `clears` says that the edge is at least the
    /// threshold, `falls` that it is at most the negated threshold.
    pub fn of_edge(clears: bool, falls: bool) -> (r: Verdict)
        ensures
            r == judged(clears, falls),
    {
        if clears {
            Verdict::ValueBuy
        } else if falls {
            Verdict::Overpriced
        } else {
            Verdict::Fair
        }
    }

    pub open spec fn words(self) -> Seq<char> {
        match self {
            Verdict::ValueBuy => "VALUE_BUY"@,
            Verdict::Overpriced => "OVERPRICED"@,
            Verdict::Fair => "FAIR"@,
        }
    }

    /// The verdict in words.
    pub fn as_str(self) -> (r: &'static str)
        ensures
            r@ == self.words(),
    {
        match self {
            Verdict::ValueBuy => "VALUE_BUY",
            Verdict::Overpriced => "OVERPRICED",
            Verdict::Fair => "FAIR",
        }
    }
}

/// A greater edge is never judged lower. Of two edges, the greater is at least the
/// threshold where the lesser is, and at most the negated threshold only where the
/// lesser is.
pub proof fn law_greater_edge_not_judged_lower(
    clears: bool,
    falls: bool,
    clears_more: bool,
    falls_more: bool,
)
    requires
        clears ==> clears_more,
        falls_more ==> falls,
    ensures
        judged(clears, falls).rank() <= judged(clears_more, falls_more).rank(),
{
}

/// The field with which every report begins.
pub open spec fn source_field<F>() -> (Seq<char>, JsonView<F>) {
    ("source"@, JsonView::Text("goal-digger"@))
}

/// The beginning of a report.
fn new_report<F>() -> (r: Vec<(String, Json<F>)>)
    ensures
        field_models(r@) == seq![source_field::<F>()],
{
    let mut fields: Vec<(String, Json<F>)> = Vec::new();
    add_field(&mut fields, "source", Json::of_str("goal-digger"));
    fields
}

/// The report of a simulated match.
pub fn match_report<F>(outcome: Json<F>) -> (r: Json<F>)
    ensures
        r@ == JsonView::Object(
            seq![
                source_field::<F>(),
                ("model"@, JsonView::Text("dixon-coles+elo+xg/monte-carlo"@)),
                ("outcome"@, outcome@),
            ],
        ),
{
    let mut fields = new_report();
    add_field(&mut fields, "model", Json::of_str("dixon-coles+elo+xg/monte-carlo"));
    add_field(&mut fields, "outcome", outcome);
    assert(field_models(fields@) =~= seq![
        source_field::<F>(),
        ("model"@, JsonView::Text("dixon-coles+elo+xg/monte-carlo"@)),
        ("outcome"@, outcome@),
    ]);
    Json::object(fields)
}

/// The row of a team in the report of a bracket.
pub open spec fn champion_row<F>(team: Seq<char>, probability: F) -> JsonView<F> {
    JsonView::Object(
        seq![
            ("team"@, JsonView::Text(team)),
            ("title_probability"@, JsonView::Float(probability)),
        ],
    )
}

/// The rows of the report of a bracket.
pub open spec fn champion_rows<F>(champions: Seq<(String, F)>) -> Seq<JsonView<F>> {
    champions.map_values(|c: (String, F)| champion_row(c.0@, c.1))
}

/// The report of a simulated bracket: each team with the probability of its
/// title, in the order given.
pub fn tournament_report<F: Copy>(champions: &Vec<(String, F)>) -> (r: Json<F>)
    ensures
        r@ == JsonView::Object(
            seq![
                source_field::<F>(),
                ("championship"@, JsonView::Array(champion_rows(champions@))),
            ],
        ),
{
    let mut rows: Vec<Json<F>> = Vec::new();
    let ghost all = champion_rows(champions@);
    let mut i: usize = 0;
    while i < champions.len()
        invariant
            0 <= i <= champions@.len(),
            all == champion_rows(champions@),
            models(rows@) =~= all.take(i as int),
        decreases champions@.len() - i,
    {
        let ghost earlier = rows@;
        let mut row: Vec<(String, Json<F>)> = Vec::new();
        add_field(&mut row, "team", Json::of_str(champions[i].0.as_str()));
        add_field(&mut row, "title_probability", Json::Float(champions[i].1));
        assert(field_models(row@) =~= all[i as int]->Object_0);
        let item = Json::object(row);
        rows.push(item);
        assert(models(rows@) =~= models(earlier).push(item@));
        i = i + 1;
    }
    assert(models(rows@) =~= all);
    let mut fields = new_report();
    add_field(&mut fields, "championship", Json::array(rows));
    assert(field_models(fields@) =~= seq![
        source_field::<F>(),
        ("championship"@, JsonView::Array(champion_rows(champions@))),
    ]);
    Json::object(fields)
}

/// An outcome's price held against the model.
#[derive(Debug)]
pub struct Edge<F> {
    pub market_slug: String,
    pub outcome: String,
    pub price: F,
    pub model_prob: F,
    pub edge: F,
    pub verdict: Verdict,
    pub stake: F,
}

/// The report of an edge.
pub fn edge_report<F: Copy>(e: &Edge<F>) -> (r: Json<F>)
    ensures
        r@ == JsonView::Object(
            seq![
                source_field::<F>(),
                ("market"@, JsonView::Text(e.market_slug@)),
                ("outcome"@, JsonView::Text(e.outcome@)),
                ("market_price"@, JsonView::Float(e.price)),
                ("model_prob"@, JsonView::Float(e.model_prob)),
                ("edge"@, JsonView::Float(e.edge)),
                ("verdict"@, JsonView::Text(e.verdict.words())),
                ("suggested_stake_fraction"@, JsonView::Float(e.stake)),
            ],
        ),
{
    let mut fields = new_report();
    add_field(&mut fields, "market", Json::of_str(e.market_slug.as_str()));
    add_field(&mut fields, "outcome", Json::of_str(e.outcome.as_str()));
    add_field(&mut fields, "market_price", Json::Float(e.price));
    add_field(&mut fields, "model_prob", Json::Float(e.model_prob));
    add_field(&mut fields, "edge", Json::Float(e.edge));
    add_field(&mut fields, "verdict", Json::of_str(e.verdict.as_str()));
    add_field(&mut fields, "suggested_stake_fraction", Json::Float(e.stake));
    assert(field_models(fields@) =~= seq![
        source_field::<F>(),
        ("market"@, JsonView::Text(e.market_slug@)),
        ("outcome"@, JsonView::Text(e.outcome@)),
        ("market_price"@, JsonView::Float(e.price)),
        ("model_prob"@, JsonView::Float(e.model_prob)),
        ("edge"@, JsonView::Float(e.edge)),
        ("verdict"@, JsonView::Text(e.verdict.words())),
        ("suggested_stake_fraction"@, JsonView::Float(e.stake)),
    ]);
    Json::object(fields)
}

/// The fields of a team's dossier before anything is said of injuries.
pub open spec fn dossier_fields<F>(s: TeamStrengthView<F>) -> Seq<(Seq<char>, JsonView<F>)> {
    seq![
        source_field::<F>(),
        ("team"@, JsonView::Text(s.name)),
        ("elo"@, JsonView::Float(s.elo)),
        ("xg_for"@, JsonView::Float(s.xg_for)),
        ("xg_against"@, JsonView::Float(s.xg_against)),
    ]
}

/// What a dossier says of injuries: the feed's answer, or why there is none.
pub open spec fn injuries_field<F>(reply: Result<JsonView<F>, Seq<char>>) -> (
    Seq<char>,
    JsonView<F>,
) {
    match reply {
        Ok(answer) => ("injuries"@, answer),
        Err(e) => ("injuries_note"@, JsonView::Text(e)),
    }
}

/// A team's dossier: its modelling inputs and, where they were asked for, its
/// injuries.
pub fn dossier_report<F: Copy>(
    strength: &TeamStrength<F>,
    injuries: Option<Result<Json<F>, String>>,
) -> (r: Json<F>)
    ensures
        r@ == JsonView::Object(
            match injuries {
                Some(reply) => dossier_fields(strength@).push(injuries_field(reply_view(reply))),
                None => dossier_fields(strength@),
            },
        ),
{
    let mut fields = new_report();
    add_field(&mut fields, "team", Json::of_str(strength.name.as_str()));
    add_field(&mut fields, "elo", Json::Float(strength.elo));
    add_field(&mut fields, "xg_for", Json::Float(strength.xg_for));
    add_field(&mut fields, "xg_against", Json::Float(strength.xg_against));
    assert(field_models(fields@) =~= dossier_fields(strength@));
    match injuries {
        Some(Ok(answer)) => {
            add_field(&mut fields, "injuries", answer);
        },
        Some(Err(e)) => {
            add_field(&mut fields, "injuries_note", Json::of_str(e.as_str()));
        },
        None => {},
    }
    Json::object(fields)
}

/// The report of the World Cup's fixtures.
pub fn fixtures_report<F>(fixtures: Json<F>) -> (r: Json<F>)
    ensures
        r@ == JsonView::Object(seq![source_field::<F>(), ("fixtures"@, fixtures@)]),
{
    let mut fields = new_report();
    add_field(&mut fields, "fixtures", fixtures);
    assert(field_models(fields@) =~= seq![source_field::<F>(), ("fixtures"@, fixtures@)]);
    Json::object(fields)
}

/// The report on a match that is being watched.
pub fn watch_report<F>(fixture_id: u64) -> (r: Json<F>)
    ensures
        r@ == JsonView::Object(
            seq![
                source_field::<F>(),
                ("fixture_id"@, JsonView::Unsigned(fixture_id)),
                ("status"@, JsonView::Text("snapshot-only"@)),
                (
                    "note"@,
                    JsonView::Text(
                        "Live streaming (DynAsyncSink) lands in the next pass. Use get_wc_fixtures + simulate_match for now."@,
                    ),
                ),
            ],
        ),
{
    let mut fields = new_report();
    add_field(&mut fields, "fixture_id", Json::Unsigned(fixture_id));
    add_field(&mut fields, "status", Json::of_str("snapshot-only"));
    add_field(
        &mut fields,
        "note",
        Json::of_str(
            "Live streaming (DynAsyncSink) lands in the next pass. Use get_wc_fixtures + simulate_match for now.",
        ),
    );
    assert(field_models(fields@) =~= seq![
        source_field::<F>(),
        ("fixture_id"@, JsonView::Unsigned(fixture_id)),
        ("status"@, JsonView::Text("snapshot-only"@)),
        (
            "note"@,
            JsonView::Text(
                "Live streaming (DynAsyncSink) lands in the next pass. Use get_wc_fixtures + simulate_match for now."@,
            ),
        ),
    ]);
    Json::object(fields)
}

/// A match is set up from the numbers that its two names find, each on its own
/// side, with everything else as it was asked for.
pub proof fn law_setup_as_asked<F>(
    rows: Seq<TeamRowView<F>>,
    args: SimulateMatchArgs<F>,
    setup: MatchSetup<F>,
)
    requires
        setup_of(rows, args) == Ok::<MatchSetupView<F>, Seq<char>>(setup@),
    ensures
        strength_found(rows, args.home@) == Ok::<TeamStrengthView<F>, Seq<char>>(setup.home@),
        strength_found(rows, args.away@) == Ok::<TeamStrengthView<F>, Seq<char>>(setup.away@),
        setup.neutral == args.neutral,
        setup.host_elo_bonus == args.host_elo_bonus,
        setup.knockout == args.knockout,
        setup.home_adj == args.home_adj,
        setup.away_adj == args.away_adj,
        setup.seed == args.seed,
        setup.sims == args.sims,
{
}

/// In a match that is set up, each side has the name, the Elo and the goals scored
/// and conceded of the last bundled team that goes by the name asked for.
pub proof fn law_setup_has_bundled_numbers<F>(
    rows: Seq<TeamRowView<F>>,
    args: SimulateMatchArgs<F>,
    setup: MatchSetup<F>,
)
    requires
        setup_of(rows, args) == Ok::<MatchSetupView<F>, Seq<char>>(setup@),
    ensures
        is_bundled(rows, args.home@, setup.home),
        is_bundled(rows, args.away@, setup.away),
{
    law_last_team_of_the_name(rows, args.home@);
    law_last_team_of_the_name(rows, args.away@);
}

/// Whether a strength has the name and the numbers of the last bundled team that
/// goes by `name`.
pub open spec fn is_bundled<F>(
    rows: Seq<TeamRowView<F>>,
    name: Seq<char>,
    s: TeamStrength<F>,
) -> bool {
    exists|i: int|
        {
            &&& 0 <= i < rows.len()
            &&& goes_by(#[trigger] rows[i], name)
            &&& forall|j: int| i < j < rows.len() ==> !goes_by(#[trigger] rows[j], name)
            &&& s.name@ == rows[i].name
            &&& s.elo == rows[i].elo
            &&& s.xg_for == rows[i].xg_for
            &&& s.xg_against == rows[i].xg_against
        }
}

/// A match is set up exactly where both names are known; else the report is that of
/// the home team where it is unknown, and that of the away team where only that is.
pub proof fn law_setup_needs_both_teams<F>(
    rows: Seq<TeamRowView<F>>,
    args: SimulateMatchArgs<F>,
)
    ensures
        setup_of(rows, args) is Ok <==> strength_found(rows, args.home@) is Ok && strength_found(
            rows,
            args.away@,
        ) is Ok,
        strength_found(rows, args.home@) matches Err(m) ==> setup_of(rows, args) == Err::<
            MatchSetupView<F>,
            Seq<char>,
        >(m),
        strength_found(rows, args.home@) is Ok ==> (strength_found(rows, args.away@) matches Err(
            m,
        ) ==> setup_of(rows, args) == Err::<MatchSetupView<F>, Seq<char>>(m)),
{
}

/// A bracket holds the bundled numbers of each named team at the place of its name,
/// and is played as often and from the seed that was asked for: 20,000 times and
/// from one fixed seed where nothing is said.
pub proof fn law_bracket_as_asked<F>(
    rows: Seq<TeamRowView<F>>,
    names: Seq<Seq<char>>,
    rollouts: Option<usize>,
    seed: Option<u64>,
    b: Bracket<F>,
)
    requires
        bracket_of(rows, names, rollouts, seed) == Ok::<BracketView<F>, Seq<char>>(b@),
    ensures
        b.teams@.len() == names.len(),
        forall|i: int|
            0 <= i < names.len() ==> strength_found(rows, #[trigger] names[i]) == Ok::<
                TeamStrengthView<F>,
                Seq<char>,
            >(b.teams@[i]@),
        forall|i: int| 0 <= i < names.len() ==> is_bundled(rows, #[trigger] names[i], b.teams@[i]),
        rollouts matches Some(n) ==> b.rollouts == n,
        rollouts is None ==> b.rollouts == 20_000,
        seed matches Some(n) ==> b.seed == n,
        seed is None ==> b.seed == 0x60A1,
{
    law_bracket_in_order(rows, names);
    assert(strengths(b.teams@).len() == b.teams@.len());
    assert forall|i: int| 0 <= i < names.len() implies strength_found(rows, #[trigger] names[i])
        == Ok::<TeamStrengthView<F>, Seq<char>>(b.teams@[i]@) by {
        assert(strengths(b.teams@)[i] == b.teams@[i]@);
    }
    assert forall|i: int| 0 <= i < names.len() implies is_bundled(
        rows,
        #[trigger] names[i],
        b.teams@[i],
    ) by {
        law_last_team_of_the_name(rows, names[i]);
    }
}

/// A bracket comes about exactly where every name is known; else the report is that
/// of the first name that is not.
pub proof fn law_bracket_needs_every_team<F>(
    rows: Seq<TeamRowView<F>>,
    names: Seq<Seq<char>>,
    rollouts: Option<usize>,
    seed: Option<u64>,
)
    ensures
        match bracket_of(rows, names, rollouts, seed) {
            Ok(_) => forall|i: int|
                0 <= i < names.len() ==> strength_found(rows, #[trigger] names[i]) is Ok,
            Err(m) => exists|i: int|
                {
                    &&& 0 <= i < names.len()
                    &&& strength_found(rows, #[trigger] names[i]) == Err::<
                        TeamStrengthView<F>,
                        Seq<char>,
                    >(m)
                    &&& forall|j: int|
                        0 <= j < i ==> strength_found(rows, #[trigger] names[j]) is Ok
                },
        },
    decreases names.len(),
{
    law_bracket_in_order(rows, names);
    if bracket_of(rows, names, rollouts, seed) is Err && names.len() > 0 {
        let head = names.drop_last();
        let n = names.len() - 1;
        law_bracket_in_order(rows, head);
        if bracket_of(rows, head, rollouts, seed) is Err {
            law_bracket_needs_every_team(rows, head, rollouts, seed);
            let m = bracket_of(rows, head, rollouts, seed)->Err_0;
            let i = choose|i: int|
                {
                    &&& 0 <= i < head.len()
                    &&& strength_found(rows, #[trigger] head[i]) == Err::<
                        TeamStrengthView<F>,
                        Seq<char>,
                    >(m)
                    &&& forall|j: int|
                        0 <= j < i ==> strength_found(rows, #[trigger] head[j]) is Ok
                };
            assert(names[i] == head[i]);
            assert forall|j: int| 0 <= j < i implies strength_found(
                rows,
                #[trigger] names[j],
            ) is Ok by {
                assert(head[j] == names[j]);
            }
        } else {
            assert forall|j: int| 0 <= j < n implies strength_found(
                rows,
                #[trigger] names[j],
            ) is Ok by {
                assert(head[j] == names[j]);
            }
            assert(names[n] == names.last());
        }
    }
}

/// An edge that clears the threshold is a buy, even where it falls as well; one that
/// only falls is overpriced; one that does neither is fair. No two verdicts have
/// the same words.
pub proof fn law_judgement_in_words(clears: bool, falls: bool)
    ensures
        judged(clears, falls).words() == "VALUE_BUY"@ <==> clears,
        judged(clears, falls).words() == "OVERPRICED"@ <==> falls && !clears,
        judged(clears, falls).words() == "FAIR"@ <==> !falls && !clears,
{
    reveal_strlit("VALUE_BUY");
    reveal_strlit("OVERPRICED");
    reveal_strlit("FAIR");
    assert("VALUE_BUY"@[0] == 'V');
    assert("OVERPRICED"@[0] == 'O');
    assert("FAIR"@[0] == 'F');
}

/// The rows of a bracket's report have each team's name and the probability of its
/// title, one for one in the order given.
pub proof fn law_champions_in_order<F>(champions: Seq<(String, F)>, i: int)
    requires
        0 <= i < champions.len(),
    ensures
        champion_rows(champions).len() == champions.len(),
        champion_rows(champions)[i] matches JsonView::Object(fields) && fields.len() == 2,
        champion_rows(champions)[i].field("team"@) == Some(
            JsonView::<F>::Text(champions[i].0@),
        ),
        champion_rows(champions)[i].field("title_probability"@) == Some(
            JsonView::Float(champions[i].1),
        ),
{
    reveal_strlit("team");
    reveal_strlit("title_probability");
    assert("team"@.len() != "title_probability"@.len());
    let row = champion_rows(champions)[i]->Object_0;
    assert(row.drop_first()[0] == row[1]);
    reveal_with_fuel(field_of, 3);
}

/// A dossier has the team's own name and numbers, each under its own heading, and
/// every report names its source.
pub proof fn law_dossier_has_the_inputs<F>(s: TeamStrength<F>)
    ensures
        JsonView::Object(dossier_fields(s@)).field("source"@) == Some(
            JsonView::<F>::Text("goal-digger"@),
        ),
        JsonView::Object(dossier_fields(s@)).field("team"@) == Some(JsonView::<F>::Text(s.name@)),
        JsonView::Object(dossier_fields(s@)).field("elo"@) == Some(JsonView::Float(s.elo)),
        JsonView::Object(dossier_fields(s@)).field("xg_for"@) == Some(JsonView::Float(s.xg_for)),
        JsonView::Object(dossier_fields(s@)).field("xg_against"@) == Some(
            JsonView::Float(s.xg_against),
        ),
        dossier_fields(s@).len() == 5,
{
    reveal_strlit("source");
    reveal_strlit("team");
    reveal_strlit("elo");
    reveal_strlit("xg_for");
    reveal_strlit("xg_against");
    assert("source"@[0] == 's' && "team"@[0] == 't' && "elo"@[0] == 'e' && "xg_for"@[0] == 'x');
    assert("xg_for"@.len() != "xg_against"@.len());
    let f = dossier_fields(s@);
    assert(f.drop_first()[0] == f[1]);
    assert(f.drop_first().drop_first()[0] == f[2]);
    assert(f.drop_first().drop_first().drop_first()[0] == f[3]);
    assert(f.drop_first().drop_first().drop_first().drop_first()[0] == f[4]);
    assert("xg_against"@[0] == 'x');
    reveal_with_fuel(field_of, 6);
}

/// What a dossier says of injuries is the feed's own answer, or the error in its
/// place under a heading of its own.
pub proof fn law_injuries_as_answered<F>(answer: JsonView<F>, error: Seq<char>)
    ensures
        injuries_field(Ok(answer)) == ("injuries"@, answer),
        injuries_field::<F>(Err(error)) == ("injuries_note"@, JsonView::<F>::Text(error)),
        source_field::<F>() == ("source"@, JsonView::<F>::Text("goal-digger"@)),
{
}

} // verus!
