//! What the answers of the live feed say: which team has which id, which fixture
//! a match is, who starts.

use vstd::prelude::*;

use crate::json::{
    first_present, is_all_given, is_first_given, law_each_given_is_held,
    law_first_present_is_first_given, law_present_is_all_given, models, present, Json, JsonView,
};
use crate::text::{feed_name, norm_team, texts};

verus! {

/// The entries of the feed's answer; nothing where it has none.
pub open spec fn response_of<F>(answer: JsonView<F>) -> Option<Seq<JsonView<F>>> {
    match answer.field("response"@) {
        Some(r) => r.items(),
        None => None,
    }
}

/// The name of a player in the feed.
pub open spec fn player_name_of<F>(entry: JsonView<F>) -> Option<Seq<char>> {
    match entry.field("player"@) {
        Some(player) => match player.field("name"@) {
            Some(name) => name.text(),
            None => None,
        },
        None => None,
    }
}

/// The entries of the feed's answer.
pub fn response<F>(answer: &Json<F>) -> (r: Option<&Vec<Json<F>>>)
    ensures
        match r {
            Some(a) => response_of(answer@) == Some(models(a@)),
            None => response_of(answer@) is None,
        },
{
    match answer.get("response") {
        Some(r) => r.as_array(),
        None => None,
    }
}

/// The name of a player in the feed.
pub fn player_name<F>(entry: &Json<F>) -> (r: Option<&str>)
    ensures
        match r {
            Some(s) => player_name_of(entry@) == Some(s@),
            None => player_name_of(entry@) is None,
        },
{
    match entry.get("player") {
        Some(player) => match player.get("name") {
            Some(name) => name.as_str(),
            None => None,
        },
        None => None,
    }
}

/// What a reply is: an answer, or the error in its place.
pub open spec fn reply_view<F>(reply: Result<Json<F>, String>) -> Result<JsonView<F>, Seq<char>> {
    match reply {
        Ok(v) => Ok(v@),
        Err(e) => Err(e@),
    }
}

/// What each of the replies is.
pub open spec fn reply_views<F>(replies: Seq<Result<Json<F>, String>>) -> Seq<
    Result<JsonView<F>, Seq<char>>,
> {
    replies.map_values(|r: Result<Json<F>, String>| reply_view(r))
}

/// The low 32 bits of `n`.
pub open spec fn low_bits(n: u64) -> u32 {
    (n as int % 0x1_0000_0000) as u32
}

/// The number under which the feed knows a team or a fixture.
pub open spec fn id_of<F>(v: JsonView<F>) -> Option<u32> {
    match v.field("id"@) {
        Some(id) => match id.unsigned() {
            Some(n) => Some(low_bits(n)),
            None => None,
        },
        None => None,
    }
}

/// The name of a team in the feed, in the form in which it is compared.
pub open spec fn name_of<F>(v: JsonView<F>) -> Option<Seq<char>> {
    match v.field("name"@) {
        Some(name) => match name.text() {
            Some(s) => Some(feed_name(s)),
            None => None,
        },
        None => None,
    }
}

fn id<F>(v: &Json<F>) -> (r: Option<u32>)
    ensures
        r == id_of(v@),
{
    match v.get("id") {
        Some(id) => match id.as_u64() {
            Some(n) => {
                assert(n as u32 == n % 0x1_0000_0000) by (bit_vector);
                Some(
                    #[verifier::truncate]
                    (n as u32),
                )
            },
            None => None,
        },
        None => None,
    }
}

fn name<F>(v: &Json<F>) -> (r: Option<String>)
    ensures
        match r {
            Some(s) => name_of(v@) == Some(s@),
            None => name_of(v@) is None,
        },
{
    match v.get("name") {
        Some(name) => match name.as_str() {
            Some(s) => Some(norm_team(s)),
            None => None,
        },
        None => None,
    }
}

/// The id that an entry of the teams gives for the team named `wanted`.
pub open spec fn entry_team_id<F>(entry: JsonView<F>, wanted: Seq<char>) -> Option<u32> {
    match entry.field("team"@) {
        Some(team) if name_of(team) == Some(wanted) => id_of(team),
        _ => None,
    }
}

/// The first id that the feed's teams give for a name.
pub open spec fn team_id_of<F>(reply: Result<JsonView<F>, Seq<char>>, name: Seq<char>) -> Option<
    u32,
> {
    match reply {
        Ok(answer) => match response_of(answer) {
            Some(a) => first_present(
                a.map_values(|e: JsonView<F>| entry_team_id(e, feed_name(name))),
            ),
            None => None,
        },
        Err(_) => None,
    }
}

fn read_team_id<F>(entry: &Json<F>, wanted: &String) -> (r: Option<u32>)
    ensures
        r == entry_team_id(entry@, wanted@),
{
    match entry.get("team") {
        Some(team) => match name(team) {
            Some(n) => {
                if n == *wanted {
                    id(team)
                } else {
                    None
                }
            },
            None => None,
        },
        None => None,
    }
}

/// The feed's id of a team by its name, from the reply to the request for the
/// World Cup's teams.
pub fn wc_team_id<F>(reply: &Result<Json<F>, String>, name: &str) -> (r: Option<u32>)
    ensures
        r == team_id_of(reply_view(*reply), name@),
{
    let answer = match reply {
        Ok(v) => v,
        Err(_) => {
            return None;
        },
    };
    let a = match response(answer) {
        Some(a) => a,
        None => {
            return None;
        },
    };
    let wanted = norm_team(name);
    let ghost found = models(a@).map_values(
        |e: JsonView<F>| entry_team_id(e, feed_name(name@)),
    );
    let mut i: usize = 0;
    assert(found.skip(0) =~= found);
    while i < a.len()
        invariant
            0 <= i <= a@.len(),
            found.len() == a@.len(),
            forall|k: int|
                0 <= k < a@.len() ==> #[trigger] found[k] == entry_team_id(a@[k]@, wanted@),
            first_present(found) == first_present(found.skip(i as int)),
            team_id_of(reply_view(*reply), name@) == first_present(found),
        decreases a@.len() - i,
    {
        assert(found.skip(i as int).drop_first() =~= found.skip(i + 1));
        let r = read_team_id(&a[i], &wanted);
        if r.is_some() {
            return r;
        }
        i = i + 1;
    }
    None
}

/// The names of the two teams of a fixture: home, then away.
pub open spec fn sides_of<F>(entry: JsonView<F>) -> Option<(Seq<char>, Seq<char>)> {
    match entry.field("teams"@) {
        Some(teams) => match (teams.field("home"@), teams.field("away"@)) {
            (Some(home), Some(away)) => match (name_of(home), name_of(away)) {
                (Some(h), Some(a)) => Some((h, a)),
                _ => None,
            },
            _ => None,
        },
        None => None,
    }
}

/// The id that an entry of the fixtures gives for the match of `h` and `a`,
/// whichever of them plays at home.
pub open spec fn entry_fixture_id<F>(entry: JsonView<F>, h: Seq<char>, a: Seq<char>) -> Option<
    u32,
> {
    match sides_of(entry) {
        Some(sides) if sides == (h, a) || sides == (a, h) => match entry.field("fixture"@) {
            Some(fixture) => id_of(fixture),
            None => None,
        },
        _ => None,
    }
}

/// The first id that the feed's fixtures give for a match.
pub open spec fn fixture_id_of<F>(
    reply: Result<JsonView<F>, Seq<char>>,
    home: Seq<char>,
    away: Seq<char>,
) -> Option<u32> {
    match reply {
        Ok(answer) => match response_of(answer) {
            Some(a) => first_present(
                a.map_values(
                    |e: JsonView<F>| entry_fixture_id(e, feed_name(home), feed_name(away)),
                ),
            ),
            None => None,
        },
        Err(_) => None,
    }
}

fn sides<F>(entry: &Json<F>) -> (r: Option<(String, String)>)
    ensures
        match r {
            Some(s) => sides_of(entry@) == Some((s.0@, s.1@)),
            None => sides_of(entry@) is None,
        },
{
    match entry.get("teams") {
        Some(teams) => match (teams.get("home"), teams.get("away")) {
            (Some(home), Some(away)) => match (name(home), name(away)) {
                (Some(h), Some(a)) => Some((h, a)),
                _ => None,
            },
            _ => None,
        },
        None => None,
    }
}

fn read_fixture_id<F>(entry: &Json<F>, h: &String, a: &String) -> (r: Option<u32>)
    ensures
        r == entry_fixture_id(entry@, h@, a@),
{
    match sides(entry) {
        Some(s) => {
            if (s.0 == *h && s.1 == *a) || (s.0 == *a && s.1 == *h) {
                match entry.get("fixture") {
                    Some(fixture) => id(fixture),
                    None => None,
                }
            } else {
                None
            }
        },
        None => None,
    }
}

/// The feed's id of the match of two teams, whichever of them plays at home,
/// from the reply to the request for the World Cup's fixtures.
pub fn wc_fixture_id<F>(reply: &Result<Json<F>, String>, home: &str, away: &str) -> (r: Option<
    u32,
>)
    ensures
        r == fixture_id_of(reply_view(*reply), home@, away@),
{
    let answer = match reply {
        Ok(v) => v,
        Err(_) => {
            return None;
        },
    };
    let a = match response(answer) {
        Some(a) => a,
        None => {
            return None;
        },
    };
    let hn = norm_team(home);
    let an = norm_team(away);
    let ghost found = models(a@).map_values(
        |e: JsonView<F>| entry_fixture_id(e, feed_name(home@), feed_name(away@)),
    );
    let mut i: usize = 0;
    assert(found.skip(0) =~= found);
    while i < a.len()
        invariant
            0 <= i <= a@.len(),
            found.len() == a@.len(),
            forall|k: int|
                0 <= k < a@.len() ==> #[trigger] found[k] == entry_fixture_id(a@[k]@, hn@, an@),
            first_present(found) == first_present(found.skip(i as int)),
            fixture_id_of(reply_view(*reply), home@, away@) == first_present(found),
        decreases a@.len() - i,
    {
        assert(found.skip(i as int).drop_first() =~= found.skip(i + 1));
        let r = read_fixture_id(&a[i], &hn, &an);
        if r.is_some() {
            return r;
        }
        i = i + 1;
    }
    None
}

/// The names of the starting players in an entry of the lineups.
pub open spec fn starters_of<F>(entry: JsonView<F>) -> Option<Seq<Seq<char>>> {
    match entry.field("startXI"@) {
        Some(xi) => match xi.items() {
            Some(a) => Some(present(a.map_values(|e: JsonView<F>| player_name_of(e)))),
            None => None,
        },
        None => None,
    }
}

/// The id of the team of an entry of the lineups.
pub open spec fn lineup_team_of<F>(entry: JsonView<F>) -> Option<u32> {
    match entry.field("team"@) {
        Some(team) => id_of(team),
        None => None,
    }
}

/// What an entry of the lineups says of a team: nothing where it is about no team
/// or another one, else the starting players where it gives them.
pub open spec fn entry_lineup<F>(entry: JsonView<F>, team_id: u32) -> Option<
    Option<Seq<Seq<char>>>,
> {
    if lineup_team_of(entry) == Some(team_id) {
        Some(starters_of(entry))
    } else {
        None
    }
}

/// The starting players of a team in the feed's lineups: those of the first entry
/// about the team.
pub open spec fn lineup_of<F>(reply: Result<JsonView<F>, Seq<char>>, team_id: u32) -> Option<
    Seq<Seq<char>>,
> {
    match reply {
        Ok(answer) => match response_of(answer) {
            Some(a) => match first_present(
                a.map_values(|e: JsonView<F>| entry_lineup(e, team_id)),
            ) {
                Some(xi) => xi,
                None => None,
            },
            None => None,
        },
        Err(_) => None,
    }
}

fn starters<F>(entry: &Json<F>) -> (r: Option<Vec<String>>)
    ensures
        match r {
            Some(v) => starters_of(entry@) == Some(texts(v@)),
            None => starters_of(entry@) is None,
        },
{
    let a = match entry.get("startXI") {
        Some(xi) => match xi.as_array() {
            Some(a) => a,
            None => {
                return None;
            },
        },
        None => {
            return None;
        },
    };
    let mut out: Vec<String> = Vec::new();
    let ghost found = models(a@).map_values(|e: JsonView<F>| player_name_of(e));
    let mut i: usize = 0;
    while i < a.len()
        invariant
            0 <= i <= a@.len(),
            found.len() == a@.len(),
            forall|k: int| 0 <= k < a@.len() ==> #[trigger] found[k] == player_name_of(a@[k]@),
            texts(out@) == present(found.take(i as int)),
        decreases a@.len() - i,
    {
        assert(found.take(i + 1).drop_last() =~= found.take(i as int));
        match player_name(&a[i]) {
            Some(n) => {
                out.push(n.to_owned());
            },
            None => {},
        }
        i = i + 1;
    }
    assert(found.take(i as int) =~= found);
    Some(out)
}

fn lineup_team<F>(entry: &Json<F>) -> (r: Option<u32>)
    ensures
        r == lineup_team_of(entry@),
{
    match entry.get("team") {
        Some(team) => id(team),
        None => None,
    }
}

/// The names of a team's starting players, from the reply to the request for a
/// fixture's lineups; nothing where the lineup is not posted.
pub fn wc_startxi<F>(reply: &Result<Json<F>, String>, team_id: u32) -> (r: Option<Vec<String>>)
    ensures
        match r {
            Some(v) => lineup_of(reply_view(*reply), team_id) == Some(texts(v@)),
            None => lineup_of(reply_view(*reply), team_id) is None,
        },
{
    let answer = match reply {
        Ok(v) => v,
        Err(_) => {
            return None;
        },
    };
    let a = match response(answer) {
        Some(a) => a,
        None => {
            return None;
        },
    };
    let ghost found = models(a@).map_values(|e: JsonView<F>| entry_lineup(e, team_id));
    let mut i: usize = 0;
    assert(found.skip(0) =~= found);
    while i < a.len()
        invariant
            0 <= i <= a@.len(),
            found.len() == a@.len(),
            forall|k: int|
                0 <= k < a@.len() ==> #[trigger] found[k] == entry_lineup(a@[k]@, team_id),
            lineup_of(reply_view(*reply), team_id) == match first_present(found) {
                Some(xi) => xi,
                None => None,
            },
            first_present(found) == first_present(found.skip(i as int)),
        decreases a@.len() - i,
    {
        assert(found.skip(i as int).drop_first() =~= found.skip(i + 1));
        match lineup_team(&a[i]) {
            Some(id) => {
                if id == team_id {
                    return starters(&a[i]);
                }
            },
            None => {},
        }
        i = i + 1;
    }
    None
}

/// A match has one fixture id, whichever team is named first.
pub proof fn law_fixture_either_way<F>(
    reply: Result<JsonView<F>, Seq<char>>,
    home: Seq<char>,
    away: Seq<char>,
)
    ensures
        fixture_id_of(reply, home, away) == fixture_id_of(reply, away, home),
{
    if let Ok(answer) = reply {
        if let Some(a) = response_of(answer) {
            assert(a.map_values(
                |e: JsonView<F>| entry_fixture_id(e, feed_name(home), feed_name(away)),
            ) =~= a.map_values(
                |e: JsonView<F>| entry_fixture_id(e, feed_name(away), feed_name(home)),
            ));
        }
    }
}

/// Whether an answer has these entries.
pub open spec fn has_entries<F>(
    reply: Result<JsonView<F>, Seq<char>>,
    entries: Seq<JsonView<F>>,
) -> bool {
    reply matches Ok(answer) && answer.field("response"@) == Some(JsonView::Array(entries))
}

/// Whether `v` has an integer `id`, of which `id` is the low 32 bits.
pub open spec fn has_id<F>(v: JsonView<F>, id: u32) -> bool {
    match v.field("id"@) {
        Some(JsonView::Unsigned(n)) => id == n as int % 0x1_0000_0000,
        _ => false,
    }
}

/// Whether `v` has a `name` that is compared as `name` is.
pub open spec fn has_name<F>(v: JsonView<F>, name: Seq<char>) -> bool {
    match v.field("name"@) {
        Some(JsonView::Text(s)) => feed_name(s) == feed_name(name),
        _ => false,
    }
}

/// Whether an entry of the teams says that the team named `name` has the id `id`.
pub open spec fn says_team_id<F>(entry: JsonView<F>, name: Seq<char>, id: u32) -> bool {
    match entry.field("team"@) {
        Some(team) => has_name(team, name) && has_id(team, id),
        None => false,
    }
}

/// Whether an entry of the fixtures says that the match of the two teams, whichever
/// of them plays at home, has the id `id`.
pub open spec fn says_fixture_id<F>(
    entry: JsonView<F>,
    one: Seq<char>,
    two: Seq<char>,
    id: u32,
) -> bool {
    match (entry.field("teams"@), entry.field("fixture"@)) {
        (Some(teams), Some(fixture)) => match (teams.field("home"@), teams.field("away"@)) {
            (Some(home), Some(away)) => {
                &&& (has_name(home, one) && has_name(away, two)) || (has_name(home, two)
                    && has_name(away, one))
                &&& has_id(fixture, id)
            },
            _ => false,
        },
        _ => false,
    }
}

/// Whether an entry of the lineups is about the team with this id.
pub open spec fn is_about<F>(entry: JsonView<F>, team_id: u32) -> bool {
    match entry.field("team"@) {
        Some(team) => has_id(team, team_id),
        None => false,
    }
}

/// Whether an entry of a starting XI names this player.
pub open spec fn names_player<F>(entry: JsonView<F>, name: Seq<char>) -> bool {
    match entry.field("player"@) {
        Some(player) => player.field("name"@) == Some(JsonView::<F>::Text(name)),
        None => false,
    }
}

/// A failure, or an answer without entries, gives no id and no lineup.
pub proof fn law_no_entries_say_nothing<F>(
    reply: Result<JsonView<F>, Seq<char>>,
    home: Seq<char>,
    away: Seq<char>,
    team_id: u32,
)
    requires
        forall|entries: Seq<JsonView<F>>| !#[trigger] has_entries(reply, entries),
    ensures
        team_id_of(reply, home) is None,
        fixture_id_of(reply, home, away) is None,
        lineup_of(reply, team_id) is None,
{
    if let Ok(answer) = reply {
        if let Some(a) = response_of(answer) {
            assert(has_entries(reply, a));
        }
    }
}

/// The id of a team is that of the first entry that names the team and has an id;
/// there is none where no entry does.
pub proof fn law_first_team_of_the_name<F>(
    reply: Result<JsonView<F>, Seq<char>>,
    entries: Seq<JsonView<F>>,
    name: Seq<char>,
)
    requires
        has_entries(reply, entries),
    ensures
        is_first_given(
            entries,
            |e: JsonView<F>, id: u32| says_team_id(e, name, id),
            team_id_of(reply, name),
        ),
{
    law_first_present_is_first_given(
        entries,
        |e: JsonView<F>| entry_team_id(e, feed_name(name)),
        |e: JsonView<F>, id: u32| says_team_id(e, name, id),
    );
}

/// The id of a match is that of the first entry whose two teams are those named, in
/// either order, and that has an id; there is none where no entry does.
pub proof fn law_first_fixture_of_the_teams<F>(
    reply: Result<JsonView<F>, Seq<char>>,
    entries: Seq<JsonView<F>>,
    home: Seq<char>,
    away: Seq<char>,
)
    requires
        has_entries(reply, entries),
    ensures
        is_first_given(
            entries,
            |e: JsonView<F>, id: u32| says_fixture_id(e, home, away, id),
            fixture_id_of(reply, home, away),
        ),
{
    law_first_present_is_first_given(
        entries,
        |e: JsonView<F>| entry_fixture_id(e, feed_name(home), feed_name(away)),
        |e: JsonView<F>, id: u32| says_fixture_id(e, home, away, id),
    );
}

/// The lineup of a team is all the names in the starting XI of the first entry
/// about the team, in their order, however many there are; it is not posted where
/// that entry has no starting XI.
pub proof fn law_first_lineup_of_the_team<F>(
    reply: Result<JsonView<F>, Seq<char>>,
    entries: Seq<JsonView<F>>,
    team_id: u32,
    i: int,
)
    requires
        has_entries(reply, entries),
        0 <= i < entries.len(),
        is_about(entries[i], team_id),
        forall|j: int| 0 <= j < i ==> !is_about(#[trigger] entries[j], team_id),
    ensures
        match entries[i].field("startXI"@) {
            Some(JsonView::Array(xi)) => lineup_of(reply, team_id) matches Some(names)
                && is_all_given(
                xi,
                |e: JsonView<F>, name: Seq<char>| names_player(e, name),
                names,
            ),
            _ => lineup_of(reply, team_id) is None,
        },
{
    let f = |e: JsonView<F>| entry_lineup(e, team_id);
    let gives = |e: JsonView<F>, xi: Option<Seq<Seq<char>>>| f(e) == Some(xi);
    law_first_present_is_first_given(entries, f, gives);
    assert(gives(entries[i], starters_of(entries[i])));
    match first_present(entries.map_values(f)) {
        Some(v) => {
            let k = choose|k: int|
                0 <= k < entries.len() && #[trigger] gives(entries[k], v) && forall|
                    j: int,
                    w: Option<Seq<Seq<char>>>,
                |
                    0 <= j < k ==> !#[trigger] gives(entries[j], w);
            assert(is_about(entries[k], team_id));
            assert(k == i);
        },
        None => {},
    }
    if let Some(JsonView::Array(xi)) = entries[i].field("startXI"@) {
        law_present_is_all_given(
            xi,
            |e: JsonView<F>| player_name_of(e),
            |e: JsonView<F>, name: Seq<char>| names_player(e, name),
        );
    }
}

/// Where no entry is about a team, its lineup is not posted.
pub proof fn law_lineup_of_no_entry<F>(
    reply: Result<JsonView<F>, Seq<char>>,
    entries: Seq<JsonView<F>>,
    team_id: u32,
)
    requires
        has_entries(reply, entries),
        forall|j: int| 0 <= j < entries.len() ==> !is_about(#[trigger] entries[j], team_id),
    ensures
        lineup_of(reply, team_id) is None,
{
    let f = |e: JsonView<F>| entry_lineup(e, team_id);
    let gives = |e: JsonView<F>, xi: Option<Seq<Seq<char>>>| f(e) == Some(xi);
    law_first_present_is_first_given(entries, f, gives);
    if let Some(v) = first_present(entries.map_values(f)) {
        let k = choose|k: int| 0 <= k < entries.len() && #[trigger] gives(entries[k], v);
        assert(is_about(entries[k], team_id));
    }
}

/// Every player whom an entry of the starting XI names is in the lineup, wherever
/// the entry stands.
pub proof fn law_every_starter_is_in_the_lineup<F>(
    reply: Result<JsonView<F>, Seq<char>>,
    entries: Seq<JsonView<F>>,
    team_id: u32,
    i: int,
    xi: Seq<JsonView<F>>,
    k: int,
    name: Seq<char>,
)
    requires
        has_entries(reply, entries),
        0 <= i < entries.len(),
        is_about(entries[i], team_id),
        forall|j: int| 0 <= j < i ==> !is_about(#[trigger] entries[j], team_id),
        entries[i].field("startXI"@) == Some(JsonView::Array(xi)),
        0 <= k < xi.len(),
        names_player(xi[k], name),
    ensures
        lineup_of(reply, team_id) matches Some(names) && names.contains(name),
{
    law_first_lineup_of_the_team(reply, entries, team_id, i);
    law_each_given_is_held(
        xi,
        |e: JsonView<F>, name: Seq<char>| names_player(e, name),
        lineup_of(reply, team_id)->0,
        k,
        name,
    );
}

/// Replies are what they are one for one in their order: an answer for an answer,
/// an error for an error.
pub proof fn law_replies_in_order<F>(replies: Seq<Result<Json<F>, String>>)
    ensures
        reply_views(replies).len() == replies.len(),
        forall|i: int|
            0 <= i < replies.len() ==> #[trigger] reply_views(replies)[i] == match replies[i] {
                Ok(v) => Ok::<JsonView<F>, Seq<char>>(v@),
                Err(e) => Err::<JsonView<F>, Seq<char>>(e@),
            },
{
}

/// The entries of an answer, and the name of a player, are what their fields hold;
/// there are none where the fields are missing or of another kind.
pub proof fn law_entries_and_names<F>(answer: JsonView<F>)
    ensures
        response_of(answer) == match answer.field("response"@) {
            Some(JsonView::Array(a)) => Some(a),
            _ => None,
        },
        forall|name: Seq<char>| #[trigger]
            names_player(answer, name) <==> player_name_of(answer) == Some(name),
{
}

} // verus!
