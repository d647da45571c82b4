//! How the players missing from a lineup change the goals expected of a team and
//! of its opponent.

use vstd::prelude::*;
use vstd::string::{StrSliceExecFns, StringExecFns};

use crate::feed::{
    has_entries, is_about, law_every_starter_is_in_the_lineup, lineup_of, names_player, reply_view,
    reply_views, team_id_of, wc_startxi, wc_team_id,
};
use crate::json::{is_all_given, taken_from, Json, JsonView};
use crate::players::{
    key_players, players_under, KeyPlayer, KeyPlayerView, KeyPlayers, TeamPlayersView,
};
use crate::request::{
    lineups_request, teams_request, wc_lineups, wc_teams, Request, RequestView,
};
use crate::text::{
    contains, feed_name, last_word, law_surname_occurs, occurs_in, same_text, simplified, simplify,
    surname, texts, words, words_of,
};

verus! {

/// The least share of its goals, in percent, that a team keeps after all
/// adjustments.
pub const LEAST_PERCENT: u32 = 60;

/// The greatest share of its goals, in percent, that a team has after all
/// adjustments.
pub const GREATEST_PERCENT: u32 = 140;

/// A surname shorter than this is not looked for inside the names of a lineup: too
/// many other names hold it.
pub const SHORTEST_SURNAME: usize = 3;

/// What a missing player multiplies, in percent: the team's own goals, and the
/// goals of its opponent.
#[derive(Debug, Clone, Copy, PartialEq, Eq, Structural)]
pub struct Factor {
    pub attack: u32,
    pub defense: u32,
}

/// What the absence of a player in the position with this letter multiplies.
pub open spec fn factor_of(position: char) -> Factor {
    if position == 'A' {
        Factor { attack: 95, defense: 100 }
    } else if position == 'M' {
        Factor { attack: 97, defense: 100 }
    } else if position == 'D' {
        Factor { attack: 100, defense: 106 }
    } else if position == 'G' {
        Factor { attack: 100, defense: 108 }
    } else {
        Factor { attack: 98, defense: 100 }
    }
}

/// The word for a player in the position with this letter.
pub open spec fn role_of(position: char) -> Seq<char> {
    if position == 'A' {
        "attacker"@
    } else if position == 'M' {
        "midfielder"@
    } else if position == 'D' {
        "defender"@
    } else if position == 'G' {
        "goalkeeper"@
    } else {
        "player"@
    }
}

/// What the absence of a player in the position with this letter multiplies.
pub fn absence_factor(position: char) -> (r: Factor)
    ensures
        r == factor_of(position),
{
    match position {
        'A' => Factor { attack: 95, defense: 100 },
        'M' => Factor { attack: 97, defense: 100 },
        'D' => Factor { attack: 100, defense: 106 },
        'G' => Factor { attack: 100, defense: 108 },
        _ => Factor { attack: 98, defense: 100 },
    }
}

/// The word for a player in the position with this letter.
pub fn role(position: char) -> (r: &'static str)
    ensures
        r@ == role_of(position),
{
    match position {
        'A' => "attacker",
        'M' => "midfielder",
        'D' => "defender",
        'G' => "goalkeeper",
        _ => "player",
    }
}

/// Whether an entry of a lineup means the player with this name: it is the name,
/// or it holds the surname. Where the surname is too short to look for, it has to
/// have the words of the name.
pub open spec fn means(entry: Seq<char>, name: Seq<char>) -> bool {
    let key = simplified(last_word(name));
    ||| entry == name
    ||| if key.len() >= SHORTEST_SURNAME {
        occurs_in(key, simplified(entry))
    } else {
        words_of(name).len() > 0 && words_of(entry) == words_of(name)
    }
}

/// Whether a player starts: some entry of the lineup means the player.
pub open spec fn starts(name: Seq<char>, lineup: Seq<Seq<char>>) -> bool {
    exists|i: int| 0 <= i < lineup.len() && means(#[trigger] lineup[i], name)
}

/// The key players that do not start.
pub open spec fn absent(stars: Seq<KeyPlayerView>, lineup: Seq<Seq<char>>) -> Seq<KeyPlayerView> {
    stars.filter(|p: KeyPlayerView| !starts(p.0, lineup))
}

/// What is said of a player who does not start.
pub open spec fn absence_reason(p: KeyPlayerView) -> Seq<char> {
    p.0 + " ("@ + role_of(p.1) + ") not in starting XI"@
}

/// The changes to a team's expected goals: what each absence multiplies, one
/// after the other, and the reasons in words.
#[derive(Debug, PartialEq)]
pub struct Adjustment {
    pub factors: Vec<Factor>,
    pub reasons: Vec<String>,
}

/// What the changes to a team's expected goals are.
pub struct AdjustmentView {
    pub factors: Seq<Factor>,
    pub reasons: Seq<Seq<char>>,
}

impl View for Adjustment {
    type V = AdjustmentView;

    open spec fn view(&self) -> AdjustmentView {
        AdjustmentView { factors: self.factors@, reasons: texts(self.reasons@) }
    }
}

/// No change, for the reason given of the team.
pub open spec fn unchanged(team: Seq<char>, why: Seq<char>) -> AdjustmentView {
    AdjustmentView { factors: Seq::empty(), reasons: seq![team + why] }
}

/// The changes for the key players that do not start.
pub open spec fn adjustment_for(
    team: Seq<char>,
    stars: Seq<KeyPlayerView>,
    lineup: Seq<Seq<char>>,
) -> AdjustmentView {
    let out = absent(stars, lineup);
    if out.len() == 0 {
        unchanged(team, ": key players all starting"@)
    } else {
        AdjustmentView {
            factors: out.map_values(|p: KeyPlayerView| factor_of(p.1)),
            reasons: out.map_values(|p: KeyPlayerView| absence_reason(p)),
        }
    }
}

fn no_change(team: &str, why: &str) -> (r: Adjustment)
    ensures
        r@ == unchanged(team@, why@),
{
    let mut reasons: Vec<String> = Vec::new();
    reasons.push(team.to_owned().concat(why));
    assert(texts(reasons@) =~= seq![team@ + why@]);
    Adjustment { factors: Vec::new(), reasons }
}

/// Whether a player is in the lineup.
fn is_in(name: &str, lineup: &Vec<String>) -> (r: bool)
    ensures
        r == starts(name@, texts(lineup@)),
{
    let key = simplify(surname(name));
    let whole = words(name);
    let searched = key.as_str().unicode_len() >= SHORTEST_SURNAME;
    let worded = whole.as_str().unicode_len() > 0;
    let ghost names = texts(lineup@);
    let mut i: usize = 0;
    while i < lineup.len()
        invariant
            0 <= i <= lineup@.len(),
            names == texts(lineup@),
            key@ == simplified(last_word(name@)),
            whole@ == words_of(name@),
            searched == (key@.len() >= SHORTEST_SURNAME),
            worded == (whole@.len() > 0),
            forall|k: int| 0 <= k < i ==> !means(#[trigger] names[k], name@),
        decreases lineup@.len() - i,
    {
        let entry = lineup[i].as_str();
        assert(names[i as int] == entry@);
        if same_text(entry, name) {
            return true;
        }
        if searched {
            if contains(simplify(entry).as_str(), key.as_str()) {
                return true;
            }
        } else if worded && words(entry) == whole {
            return true;
        }
        i = i + 1;
    }
    false
}

/// The changes for the key players of `team` that are not in `lineup`.
pub fn adjust(team: &str, stars: &Vec<KeyPlayer>, lineup: &Vec<String>) -> (r: Adjustment)
    ensures
        r@ == adjustment_for(team@, key_players(stars@), texts(lineup@)),
{
    let mut factors: Vec<Factor> = Vec::new();
    let mut reasons: Vec<String> = Vec::new();
    let ghost all = key_players(stars@);
    let ghost names = texts(lineup@);
    let ghost out = |p: KeyPlayerView| !starts(p.0, names);
    let ghost multiply = |p: KeyPlayerView| factor_of(p.1);
    let ghost say = |p: KeyPlayerView| absence_reason(p);
    let mut i: usize = 0;
    proof {
        reveal(Seq::filter);
    }
    while i < stars.len()
        invariant
            0 <= i <= stars@.len(),
            all == key_players(stars@),
            names == texts(lineup@),
            out == (|p: KeyPlayerView| !starts(p.0, names)),
            multiply == (|p: KeyPlayerView| factor_of(p.1)),
            say == (|p: KeyPlayerView| absence_reason(p)),
            factors@ == all.take(i as int).filter(out).map_values(multiply),
            texts(reasons@) == all.take(i as int).filter(out).map_values(say),
        decreases stars@.len() - i,
    {
        let star = &stars[i];
        let ghost prior = reasons@;
        proof {
            reveal(Seq::filter);
            assert(all.take(i + 1).drop_last() =~= all.take(i as int));
        }
        if !is_in(star.name.as_str(), lineup) {
            factors.push(absence_factor(star.position));
            reasons.push(
                star.name.clone().concat(" (").concat(role(star.position)).concat(
                    ") not in starting XI",
                ),
            );
            assert(texts(reasons@) =~= texts(prior).push(absence_reason(star@)));
        }
        i = i + 1;
    }
    assert(all.take(i as int) =~= all);
    if reasons.len() == 0 {
        return no_change(team, ": key players all starting");
    }
    Adjustment { factors, reasons }
}

/// What to do next on the way to an adjustment.
#[derive(Debug, PartialEq)]
pub enum AdjustmentStep {
    /// Send this request; its reply comes next.
    Fetch(Request),
    /// This is the adjustment.
    Done(Adjustment),
}

/// What to do next on the way to an adjustment.
pub enum AdjustmentStepView {
    Fetch(RequestView),
    Done(AdjustmentView),
}

impl View for AdjustmentStep {
    type V = AdjustmentStepView;

    open spec fn view(&self) -> AdjustmentStepView {
        match self {
            AdjustmentStep::Fetch(r) => AdjustmentStepView::Fetch(r@),
            AdjustmentStep::Done(a) => AdjustmentStepView::Done(a@),
        }
    }
}

/// The next step to the adjustment of a team in a fixture, once `replies` have
/// come: the World Cup's teams first, then the fixture's lineups.
pub open spec fn adjustment_step<F>(
    lists: Seq<TeamPlayersView>,
    team: Seq<char>,
    fixture_id: u32,
    replies: Seq<Result<JsonView<F>, Seq<char>>>,
) -> AdjustmentStepView {
    match players_under(lists, feed_name(team)) {
        Some(stars) if stars.len() > 0 => if replies.len() == 0 {
            AdjustmentStepView::Fetch(teams_request())
        } else {
            match team_id_of(replies[0], team) {
                None => AdjustmentStepView::Done(unchanged(team, ": not found in WC teams"@)),
                Some(id) => if replies.len() == 1 {
                    AdjustmentStepView::Fetch(lineups_request(fixture_id))
                } else {
                    match lineup_of(replies[1], id) {
                        None => AdjustmentStepView::Done(
                            unchanged(team, ": lineup not posted yet"@),
                        ),
                        Some(lineup) => AdjustmentStepView::Done(
                            adjustment_for(team, stars, lineup),
                        ),
                    }
                },
            }
        },
        _ => AdjustmentStepView::Done(unchanged(team, ": no key-player list"@)),
    }
}

/// The live adjustment of a team, from who is missing from its lineup in a
/// fixture. `replies` are the replies to the requests asked for so far, in order;
/// start with none.
pub fn live_adjustment<F>(
    lists: &KeyPlayers,
    team: &str,
    fixture_id: u32,
    replies: &Vec<Result<Json<F>, String>>,
) -> (r: AdjustmentStep)
    ensures
        r@ == adjustment_step(lists@, team@, fixture_id, reply_views(replies@)),
{
    let stars = match lists.of_team(team) {
        Some(s) => s,
        None => {
            return AdjustmentStep::Done(no_change(team, ": no key-player list"));
        },
    };
    if stars.len() == 0 {
        return AdjustmentStep::Done(no_change(team, ": no key-player list"));
    }
    if replies.len() == 0 {
        return AdjustmentStep::Fetch(wc_teams());
    }
    let id = match wc_team_id(&replies[0], team) {
        Some(id) => id,
        None => {
            return AdjustmentStep::Done(no_change(team, ": not found in WC teams"));
        },
    };
    if replies.len() == 1 {
        return AdjustmentStep::Fetch(wc_lineups(fixture_id));
    }
    match wc_startxi(&replies[1], id) {
        Some(lineup) => AdjustmentStep::Done(adjust(team, stars, &lineup)),
        None => AdjustmentStep::Done(no_change(team, ": lineup not posted yet")),
    }
}

/// Two replies are all that an adjustment waits for, whatever they hold.
pub proof fn law_two_replies_suffice<F>(
    lists: Seq<TeamPlayersView>,
    team: Seq<char>,
    fixture_id: u32,
    replies: Seq<Result<JsonView<F>, Seq<char>>>,
)
    requires
        replies.len() >= 2,
    ensures
        adjustment_step(lists, team, fixture_id, replies) is Done,
{
}

/// While the lineup of the team is not posted, or cannot be fetched, nothing
/// changes.
pub proof fn law_unchanged_without_lineup<F>(
    lists: Seq<TeamPlayersView>,
    team: Seq<char>,
    fixture_id: u32,
    replies: Seq<Result<JsonView<F>, Seq<char>>>,
)
    requires
        replies.len() >= 2,
        forall|id: u32| team_id_of(replies[0], team) == Some(id) ==> #[trigger] lineup_of(
            replies[1],
            id,
        ) is None,
    ensures
        adjustment_step(lists, team, fixture_id, replies) matches AdjustmentStepView::Done(a)
            && a.factors.len() == 0 && a.reasons.len() == 1,
{
}

/// A missing player never raises the goals of the own team nor lowers those of
/// the opponent.
pub proof fn law_absence_never_helps(
    team: Seq<char>,
    stars: Seq<KeyPlayerView>,
    lineup: Seq<Seq<char>>,
    i: int,
)
    requires
        0 <= i < adjustment_for(team, stars, lineup).factors.len(),
    ensures
        LEAST_PERCENT <= adjustment_for(team, stars, lineup).factors[i].attack <= 100,
        100 <= adjustment_for(team, stars, lineup).factors[i].defense <= GREATEST_PERCENT,
{
}

/// The product of the attack percentages.
pub open spec fn attack_product(factors: Seq<Factor>) -> nat
    decreases factors.len(),
{
    if factors.len() == 0 {
        1
    } else {
        attack_product(factors.drop_last()) * factors.last().attack as nat
    }
}

/// The product of the defense percentages.
pub open spec fn defense_product(factors: Seq<Factor>) -> nat
    decreases factors.len(),
{
    if factors.len() == 0 {
        1
    } else {
        defense_product(factors.drop_last()) * factors.last().defense as nat
    }
}

/// The product of as many percentages of a hundred.
pub open spec fn hundreds(n: nat) -> nat
    decreases n,
{
    if n == 0 {
        1
    } else {
        hundreds((n - 1) as nat) * 100
    }
}

/// All absences together never raise the goals of the own team nor lower those of
/// the opponent.
pub proof fn law_absences_never_help_together(
    team: Seq<char>,
    stars: Seq<KeyPlayerView>,
    lineup: Seq<Seq<char>>,
)
    ensures
        ({
            let factors = adjustment_for(team, stars, lineup).factors;
            &&& attack_product(factors) <= hundreds(factors.len())
            &&& defense_product(factors) >= hundreds(factors.len())
        }),
{
    lemma_products(adjustment_for(team, stars, lineup).factors);
}

proof fn lemma_products(factors: Seq<Factor>)
    requires
        forall|i: int|
            0 <= i < factors.len() ==> (#[trigger] factors[i]).attack <= 100 && factors[i].defense
                >= 100,
    ensures
        attack_product(factors) <= hundreds(factors.len()),
        defense_product(factors) >= hundreds(factors.len()),
    decreases factors.len(),
{
    if factors.len() > 0 {
        let head = factors.drop_last();
        let last = factors.last();
        lemma_products(head);
        let (a, d, h) = (attack_product(head), defense_product(head), hundreds(head.len()));
        let (x, y) = (last.attack as nat, last.defense as nat);
        assert(a * x <= h * 100) by (nonlinear_arith)
            requires
                a <= h,
                x <= 100,
        ;
        assert(d * y >= h * 100) by (nonlinear_arith)
            requires
                d >= h,
                y >= 100,
        ;
    }
}

/// Every adjustment comes with its reasons: one for each absence, and one where
/// nobody is absent.
pub proof fn law_reasons_given(
    team: Seq<char>,
    stars: Seq<KeyPlayerView>,
    lineup: Seq<Seq<char>>,
)
    ensures
        ({
            let a = adjustment_for(team, stars, lineup);
            &&& a.factors.len() == absent(stars, lineup).len()
            &&& a.reasons.len() == if a.factors.len() == 0 {
                1
            } else {
                a.factors.len()
            }
        }),
{
}

/// Where every key player starts, nothing changes.
pub proof fn law_full_lineup_changes_nothing(
    team: Seq<char>,
    stars: Seq<KeyPlayerView>,
    lineup: Seq<Seq<char>>,
)
    requires
        forall|i: int| 0 <= i < stars.len() ==> starts((#[trigger] stars[i]).0, lineup),
    ensures
        adjustment_for(team, stars, lineup) == unchanged(team, ": key players all starting"@),
{
    let out = |p: KeyPlayerView| !starts(p.0, lineup);
    if absent(stars, lineup).len() > 0 {
        lemma_filter_from(stars, out, 0);
    }
}

proof fn lemma_filter_from<A>(s: Seq<A>, keep: spec_fn(A) -> bool, i: int)
    requires
        0 <= i < s.filter(keep).len(),
    ensures
        s.contains(s.filter(keep)[i]),
        keep(s.filter(keep)[i]),
    decreases s.len(),
{
    reveal(Seq::filter);
    if s.len() > 0 {
        let head = s.drop_last();
        if i < head.filter(keep).len() {
            lemma_filter_from(head, keep, i);
        }
    }
}

/// Who starts in a lineup starts in every lineup that names the same players and
/// more.
pub proof fn law_more_names_no_more_absences(
    name: Seq<char>,
    lineup: Seq<Seq<char>>,
    longer: Seq<Seq<char>>,
)
    requires
        forall|i: int| 0 <= i < lineup.len() ==> longer.contains(#[trigger] lineup[i]),
        starts(name, lineup),
    ensures
        starts(name, longer),
{
}

/// A player with a surname long enough to look for starts where, and only where,
/// the letters of some name in the lineup hold those of the surname.
pub proof fn law_surname_decides(name: Seq<char>, lineup: Seq<Seq<char>>)
    requires
        simplified(last_word(name)).len() >= SHORTEST_SURNAME,
    ensures
        starts(name, lineup) <==> exists|i: int|
            0 <= i < lineup.len() && occurs_in(
                simplified(last_word(name)),
                simplified(#[trigger] lineup[i]),
            ),
{
    law_surname_occurs(name);
    if starts(name, lineup) {
        let i = choose|i: int| 0 <= i < lineup.len() && means(#[trigger] lineup[i], name);
        assert(occurs_in(simplified(last_word(name)), simplified(lineup[i])));
    }
}

/// Of a player with a surname long enough to look for, only the ASCII letters of
/// the names in a lineup decide whether the player starts.
pub proof fn law_only_letters_count(
    name: Seq<char>,
    lineup: Seq<Seq<char>>,
    respelt: Seq<Seq<char>>,
)
    requires
        simplified(last_word(name)).len() >= SHORTEST_SURNAME,
        lineup.len() == respelt.len(),
        forall|i: int|
            0 <= i < lineup.len() ==> simplified(#[trigger] lineup[i]) == simplified(respelt[i]),
    ensures
        starts(name, lineup) == starts(name, respelt),
{
    let key = simplified(last_word(name));
    law_surname_decides(name, lineup);
    law_surname_decides(name, respelt);
    if starts(name, respelt) {
        let i = choose|i: int|
            0 <= i < respelt.len() && occurs_in(key, simplified(#[trigger] respelt[i]));
        assert(occurs_in(key, simplified(lineup[i])));
    }
}

/// A player whom the lineup names starts, whatever the surname.
pub proof fn law_named_player_starts(name: Seq<char>, lineup: Seq<Seq<char>>)
    requires
        lineup.contains(name),
    ensures
        starts(name, lineup),
{
}

/// A player with a surname too short to look for starts where, and only where, the
/// lineup has the whole name: its characters, or its words in whatever case and
/// however set apart.
pub proof fn law_short_surname_needs_whole_name(name: Seq<char>, lineup: Seq<Seq<char>>)
    requires
        simplified(last_word(name)).len() < SHORTEST_SURNAME,
    ensures
        starts(name, lineup) <==> lineup.contains(name) || (words_of(name).len() > 0 && exists|
            i: int,
        |
            0 <= i < lineup.len() && words_of(#[trigger] lineup[i]) == words_of(name)),
{
    if starts(name, lineup) {
        let i = choose|i: int| 0 <= i < lineup.len() && means(#[trigger] lineup[i], name);
        assert(lineup[i] == name || words_of(lineup[i]) == words_of(name));
    }
}

/// The factors of the key players that do not start.
spec fn factors_for(stars: Seq<KeyPlayerView>, lineup: Seq<Seq<char>>) -> Seq<Factor> {
    absent(stars, lineup).map_values(|p: KeyPlayerView| factor_of(p.1))
}

proof fn lemma_push_factor(factors: Seq<Factor>, f: Factor)
    ensures
        attack_product(factors.push(f)) == attack_product(factors) * f.attack,
        defense_product(factors.push(f)) == defense_product(factors) * f.defense,
        hundreds(factors.push(f).len()) == hundreds(factors.len()) * 100,
{
    assert(factors.push(f).drop_last() =~= factors);
}

proof fn lemma_factors_step(stars: Seq<KeyPlayerView>, lineup: Seq<Seq<char>>)
    requires
        stars.len() > 0,
    ensures
        factors_for(stars, lineup) == if starts(stars.last().0, lineup) {
            factors_for(stars.drop_last(), lineup)
        } else {
            factors_for(stars.drop_last(), lineup).push(factor_of(stars.last().1))
        },
{
    reveal(Seq::filter);
    if !starts(stars.last().0, lineup) {
        assert(factors_for(stars, lineup) =~= factors_for(stars.drop_last(), lineup).push(
            factor_of(stars.last().1),
        ));
    }
}

/// The shares of `f1` and `f2`, held against each other as whole numbers: `f2`
/// leaves the own team no fewer goals and the opponent no more.
pub open spec fn no_worse(f2: Seq<Factor>, f1: Seq<Factor>) -> bool {
    &&& attack_product(f1) * hundreds(f2.len()) <= attack_product(f2) * hundreds(f1.len())
    &&& defense_product(f1) * hundreds(f2.len()) >= defense_product(f2) * hundreds(f1.len())
}

proof fn lemma_fewer_absences(
    stars: Seq<KeyPlayerView>,
    lineup: Seq<Seq<char>>,
    longer: Seq<Seq<char>>,
)
    requires
        forall|i: int| 0 <= i < lineup.len() ==> longer.contains(#[trigger] lineup[i]),
    ensures
        no_worse(factors_for(stars, longer), factors_for(stars, lineup)),
        forall|p: KeyPlayerView|
            absent(stars, longer).contains(p) ==> #[trigger] absent(stars, lineup).contains(p),
    decreases stars.len(),
{
    reveal(Seq::filter);
    if stars.len() > 0 {
        let head = stars.drop_last();
        let star = stars.last();
        lemma_fewer_absences(head, lineup, longer);
        lemma_factors_step(stars, lineup);
        lemma_factors_step(stars, longer);
        let g1 = factors_for(head, lineup);
        let g2 = factors_for(head, longer);
        let f = factor_of(star.1);
        lemma_push_factor(g1, f);
        lemma_push_factor(g2, f);
        let (a1, d1, h1) = (attack_product(g1), defense_product(g1), hundreds(g1.len()));
        let (a2, d2, h2) = (attack_product(g2), defense_product(g2), hundreds(g2.len()));
        let (x, y) = (f.attack as nat, f.defense as nat);
        if starts(star.0, lineup) {
            law_more_names_no_more_absences(star.0, lineup, longer);
        } else if starts(star.0, longer) {
            assert((a1 * x) * h2 <= a2 * (h1 * 100)) by (nonlinear_arith)
                requires
                    a1 * h2 <= a2 * h1,
                    x <= 100,
            ;
            assert((d1 * y) * h2 >= d2 * (h1 * 100)) by (nonlinear_arith)
                requires
                    d1 * h2 >= d2 * h1,
                    y >= 100,
            ;
        } else {
            assert((a1 * x) * (h2 * 100) <= (a2 * x) * (h1 * 100)) by (nonlinear_arith)
                requires
                    a1 * h2 <= a2 * h1,
            ;
            assert((d1 * y) * (h2 * 100) >= (d2 * y) * (h1 * 100)) by (nonlinear_arith)
                requires
                    d1 * h2 >= d2 * h1,
            ;
        }
        let (b1, b2) = (absent(head, lineup), absent(head, longer));
        assert forall|p: KeyPlayerView| absent(stars, longer).contains(p) implies #[trigger] absent(
            stars,
            lineup,
        ).contains(p) by {
            assert(b1.push(star).last() == star);
            if b2.contains(p) {
                assert(b1.contains(p));
                let k = choose|k: int| 0 <= k < b1.len() && b1[k] == p;
                assert(b1.push(star)[k] == p);
            }
        }
    }
}

/// With more names in the lineup the own team's goals never fall and the
/// opponent's never rise, and who is still reported as missing was reported
/// before.
pub proof fn law_more_names_never_worse(
    team: Seq<char>,
    stars: Seq<KeyPlayerView>,
    lineup: Seq<Seq<char>>,
    longer: Seq<Seq<char>>,
)
    requires
        forall|i: int| 0 <= i < lineup.len() ==> longer.contains(#[trigger] lineup[i]),
    ensures
        no_worse(
            adjustment_for(team, stars, longer).factors,
            adjustment_for(team, stars, lineup).factors,
        ),
        forall|p: KeyPlayerView|
            absent(stars, longer).contains(p) ==> #[trigger] absent(stars, lineup).contains(p),
{
    lemma_fewer_absences(stars, lineup, longer);
    assert(adjustment_for(team, stars, longer).factors =~= factors_for(stars, longer));
    assert(adjustment_for(team, stars, lineup).factors =~= factors_for(stars, lineup));
}

/// Whether a missing player in this position costs this much: an attacker 5 percent
/// of the own goals, a midfielder 3, any player without one of the four letters 2;
/// a defender adds 6 percent to the goals of the opponent, a goalkeeper 8.
pub open spec fn costs(position: char, f: Factor) -> bool {
    &&& f.attack == 100 || f.defense == 100
    &&& f.attack == if position == 'A' {
        95int
    } else if position == 'M' {
        97
    } else if position == 'D' || position == 'G' {
        100
    } else {
        98
    }
    &&& f.defense == if position == 'D' {
        106int
    } else if position == 'G' {
        108
    } else {
        100
    }
}

/// Whether `reason` says of this player, by name and position, that the player does
/// not start.
pub open spec fn reports_absence(p: KeyPlayerView, reason: Seq<char>) -> bool {
    let position = p.1;
    &&& position == 'A' ==> reason == p.0 + " ("@ + "attacker"@ + ") not in starting XI"@
    &&& position == 'M' ==> reason == p.0 + " ("@ + "midfielder"@ + ") not in starting XI"@
    &&& position == 'D' ==> reason == p.0 + " ("@ + "defender"@ + ") not in starting XI"@
    &&& position == 'G' ==> reason == p.0 + " ("@ + "goalkeeper"@ + ") not in starting XI"@
    &&& position != 'A' && position != 'M' && position != 'D' && position != 'G' ==> reason == p.0
        + " ("@ + "player"@ + ") not in starting XI"@
}

proof fn lemma_filter_all_given<A, B>(
    s: Seq<A>,
    keep: spec_fn(A) -> bool,
    make: spec_fn(A) -> B,
    gives: spec_fn(A, B) -> bool,
)
    requires
        forall|a: A, b: B| #[trigger] gives(a, b) <==> keep(a) && b == make(a),
    ensures
        is_all_given(s, gives, s.filter(keep).map_values(make)),
    decreases s.len(),
{
    reveal(Seq::filter);
    let out = s.filter(keep).map_values(make);
    if s.len() == 0 {
        assert(taken_from(s, gives, out, Seq::empty()));
    } else {
        let head = s.drop_last();
        let n = s.len() - 1;
        lemma_filter_all_given(head, keep, make, gives);
        let prior = head.filter(keep).map_values(make);
        let places = choose|places: Seq<int>| taken_from(head, gives, prior, places);
        let more = if keep(s[n]) {
            places.push(n)
        } else {
            places
        };
        assert(out =~= if keep(s[n]) {
            prior.push(make(s[n]))
        } else {
            prior
        });
        assert forall|k: int| 0 <= k < more.len() implies 0 <= #[trigger] more[k] < s.len()
            && gives(s[more[k]], out[k]) by {
            if k < places.len() {
                assert(0 <= places[k] < head.len());
                assert(gives(head[places[k]], prior[k]));
                assert(head[places[k]] == s[places[k]]);
            } else {
                assert(gives(s[n], make(s[n])));
            }
        }
        assert forall|k: int, l: int| 0 <= k < l < more.len() implies more[k] < more[l] by {
            assert(0 <= places[k] < head.len());
        }
        assert forall|i: int, w: B|
            0 <= i < s.len() && #[trigger] gives(s[i], w) implies more.contains(i) by {
            if i < n {
                assert(gives(head[i], w));
                let k = choose|k: int| 0 <= k < places.len() && places[k] == i;
                assert(more[k] == i);
            } else {
                assert(more[places.len() as int] == i);
            }
        }
        assert(taken_from(s, gives, out, more));
    }
}

/// Each key player who does not start, and nobody else, changes the expected goals
/// by what the position costs and is reported, in the order of the list.
pub proof fn law_the_missing_count(
    team: Seq<char>,
    stars: Seq<KeyPlayerView>,
    lineup: Seq<Seq<char>>,
    i: int,
)
    requires
        0 <= i < stars.len(),
        !starts(stars[i].0, lineup),
    ensures
        is_all_given(
            stars,
            |p: KeyPlayerView, f: Factor| !starts(p.0, lineup) && costs(p.1, f),
            adjustment_for(team, stars, lineup).factors,
        ),
        is_all_given(
            stars,
            |p: KeyPlayerView, reason: Seq<char>|
                !starts(p.0, lineup) && reports_absence(p, reason),
            adjustment_for(team, stars, lineup).reasons,
        ),
{
    let keep = |p: KeyPlayerView| !starts(p.0, lineup);
    let same = |p: KeyPlayerView| p;
    let itself = |p: KeyPlayerView, q: KeyPlayerView| keep(p) && q == p;
    lemma_filter_all_given(stars, keep, same, itself);
    let out = absent(stars, lineup).map_values(same);
    let places = choose|places: Seq<int>| taken_from(stars, itself, out, places);
    assert(itself(stars[i], stars[i]));
    assert(places.contains(i));
    lemma_filter_all_given(
        stars,
        keep,
        |p: KeyPlayerView| factor_of(p.1),
        |p: KeyPlayerView, f: Factor| !starts(p.0, lineup) && costs(p.1, f),
    );
    lemma_filter_all_given(
        stars,
        keep,
        |p: KeyPlayerView| absence_reason(p),
        |p: KeyPlayerView, reason: Seq<char>| !starts(p.0, lineup) && reports_absence(p, reason),
    );
}

/// Where every key player starts, nothing is multiplied and the team's report says
/// so in these words.
pub proof fn law_nobody_missing(
    team: Seq<char>,
    stars: Seq<KeyPlayerView>,
    lineup: Seq<Seq<char>>,
)
    requires
        forall|i: int| 0 <= i < stars.len() ==> starts((#[trigger] stars[i]).0, lineup),
    ensures
        adjustment_for(team, stars, lineup).factors.len() == 0,
        adjustment_for(team, stars, lineup).reasons == seq![
            team + ": key players all starting"@,
        ],
{
    law_full_lineup_changes_nothing(team, stars, lineup);
}

/// A player starts where some entry of the lineup is the name; else, where the
/// letters of the surname are three or more, where the letters of some entry hold
/// them; else where the words of some entry are those of the name.
pub proof fn law_who_starts(name: Seq<char>, lineup: Seq<Seq<char>>)
    ensures
        starts(name, lineup) <==> {
            let letters = simplified(last_word(name));
            ||| lineup.contains(name)
            ||| letters.len() >= 3 && exists|i: int|
                0 <= i < lineup.len() && occurs_in(letters, simplified(#[trigger] lineup[i]))
            ||| letters.len() < 3 && words_of(name).len() > 0 && exists|i: int|
                0 <= i < lineup.len() && words_of(#[trigger] lineup[i]) == words_of(name)
        },
{
    let letters = simplified(last_word(name));
    if letters.len() >= 3 {
        law_surname_decides(name, lineup);
    } else {
        law_short_surname_needs_whole_name(name, lineup);
    }
    if lineup.contains(name) {
        law_named_player_starts(name, lineup);
    }
}

/// Whether a step ends in an adjustment that multiplies nothing and gives this one
/// reason.
pub open spec fn is_neutral(step: AdjustmentStepView, reason: Seq<char>) -> bool {
    match step {
        AdjustmentStepView::Done(a) => a.factors.len() == 0 && a.reasons == seq![reason],
        AdjustmentStepView::Fetch(_) => false,
    }
}

/// What comes next on the way to an adjustment: the teams are asked for where there
/// is a list of key players, then the lineups of the fixture where the team is
/// found, and the posted lineup decides. Where one of these is missing, nothing is
/// multiplied and the report says which.
pub proof fn law_steps_to_an_adjustment<F>(
    lists: Seq<TeamPlayersView>,
    team: Seq<char>,
    fixture_id: u32,
    replies: Seq<Result<JsonView<F>, Seq<char>>>,
)
    ensures
        ({
            let stars = players_under(lists, feed_name(team));
            let step = adjustment_step(lists, team, fixture_id, replies);
            &&& stars is None || stars->0.len() == 0 ==> is_neutral(
                step,
                team + ": no key-player list"@,
            )
            &&& stars is Some && stars->0.len() > 0 ==> {
                &&& replies.len() == 0 ==> step == AdjustmentStepView::Fetch(teams_request())
                &&& replies.len() > 0 && team_id_of(replies[0], team) is None ==> is_neutral(
                    step,
                    team + ": not found in WC teams"@,
                )
                &&& replies.len() == 1 && team_id_of(replies[0], team) is Some ==> step
                    == AdjustmentStepView::Fetch(lineups_request(fixture_id))
                &&& replies.len() > 1 && team_id_of(replies[0], team) is Some ==> match lineup_of(
                    replies[1],
                    team_id_of(replies[0], team)->0,
                ) {
                    None => is_neutral(step, team + ": lineup not posted yet"@),
                    Some(lineup) => step == AdjustmentStepView::Done(
                        adjustment_for(team, stars->0, lineup),
                    ),
                }
            }
        }),
{
}

/// A key player whom any entry of the posted starting XI means starts, however long
/// the starting XI is; where all of them are meant by some entry, nothing is
/// multiplied and nobody is reported missing.
pub proof fn law_posted_players_are_not_missing<F>(
    lists: Seq<TeamPlayersView>,
    team: Seq<char>,
    fixture_id: u32,
    replies: Seq<Result<JsonView<F>, Seq<char>>>,
    stars: Seq<KeyPlayerView>,
    team_id: u32,
    entries: Seq<JsonView<F>>,
    i: int,
    xi: Seq<JsonView<F>>,
    at: spec_fn(int) -> int,
    named: spec_fn(int) -> Seq<char>,
)
    requires
        players_under(lists, feed_name(team)) == Some(stars),
        stars.len() > 0,
        replies.len() >= 2,
        team_id_of(replies[0], team) == Some(team_id),
        has_entries(replies[1], entries),
        0 <= i < entries.len(),
        is_about(entries[i], team_id),
        forall|j: int| 0 <= j < i ==> !is_about(#[trigger] entries[j], team_id),
        entries[i].field("startXI"@) == Some(JsonView::Array(xi)),
        forall|s: int|
            0 <= s < stars.len() ==> {
                &&& 0 <= #[trigger] at(s) < xi.len()
                &&& names_player(xi[at(s)], named(s))
                &&& starts(stars[s].0, seq![named(s)])
            },
    ensures
        is_neutral(
            adjustment_step(lists, team, fixture_id, replies),
            team + ": key players all starting"@,
        ),
{
    assert(0 <= at(0) < xi.len());
    law_every_starter_is_in_the_lineup(
        replies[1],
        entries,
        team_id,
        i,
        xi,
        at(0),
        named(0),
    );
    let lineup = lineup_of(replies[1], team_id)->0;
    assert forall|s: int| 0 <= s < stars.len() implies starts((#[trigger] stars[s]).0, lineup) by {
        assert(0 <= at(s) < xi.len());
        law_every_starter_is_in_the_lineup(
            replies[1],
            entries,
            team_id,
            i,
            xi,
            at(s),
            named(s),
        );
        let one = seq![named(s)];
        assert forall|k: int| 0 <= k < one.len() implies lineup.contains(#[trigger] one[k]) by {}
        law_more_names_no_more_absences(stars[s].0, one, lineup);
    }
    law_nobody_missing(team, stars, lineup);
}

/// A team keeps from 60 to 140 percent of its goals, and a surname is looked for
/// from three letters on.
pub proof fn law_bounds_of_an_adjustment(percent: u32, letters: usize)
    ensures
        LEAST_PERCENT <= percent <= GREATEST_PERCENT <==> 60 <= percent <= 140,
        letters >= SHORTEST_SURNAME <==> letters >= 3,
{
}

/// What an adjustment holds are its factors and reasons, in their order, and what a
/// step holds its request or its adjustment.
pub proof fn law_adjustment_holds(a: Adjustment, step: AdjustmentStep)
    ensures
        a@.factors == a.factors@,
        a@.reasons.len() == a.reasons@.len(),
        forall|i: int| 0 <= i < a.reasons@.len() ==> #[trigger] a@.reasons[i] == a.reasons@[i]@,
        step@ == match step {
            AdjustmentStep::Fetch(r) => AdjustmentStepView::Fetch(r@),
            AdjustmentStep::Done(d) => AdjustmentStepView::Done(d@),
        },
{
}

} // verus!
