//! The players whose absence counts: a curated list for each team, and a team's
//! best rated players in the live feed.

use vstd::prelude::*;
use vstd::string::StrSliceExecFns;

use crate::feed::{names_player, player_name, player_name_of, response, response_of};
use crate::json::{is_all_given, law_present_is_all_given, models, present, Json, JsonView};
use crate::text::{ascii_upper, feed_name, norm_team, to_ascii_upper};

verus! {

/// A player whose absence counts, with the letter of the position: `G`, `D`, `M`
/// or `A`.
#[derive(Debug, PartialEq)]
pub struct KeyPlayer {
    pub name: String,
    pub position: char,
}

/// What a key player is: a name and the letter of a position.
pub type KeyPlayerView = (Seq<char>, char);

impl View for KeyPlayer {
    type V = KeyPlayerView;

    open spec fn view(&self) -> KeyPlayerView {
        (self.name@, self.position)
    }
}

/// What each of the key players is.
pub open spec fn key_players(players: Seq<KeyPlayer>) -> Seq<KeyPlayerView> {
    players.map_values(|p: KeyPlayer| p@)
}

/// The key player that an entry of a team's list gives: an array of a name and a
/// position.
pub open spec fn player_of<F>(entry: JsonView<F>) -> Option<KeyPlayerView> {
    match entry.items() {
        Some(a) if a.len() >= 2 => match (a[0].text(), a[1].text()) {
            (Some(name), Some(position)) if position.len() > 0 => Some(
                (name, ascii_upper(position[0])),
            ),
            _ => None,
        },
        _ => None,
    }
}

/// The key players of a team's list; none where it is no array.
pub open spec fn players_of<F>(list: JsonView<F>) -> Seq<KeyPlayerView> {
    match list.items() {
        Some(a) => present(a.map_values(|e: JsonView<F>| player_of(e))),
        None => Seq::empty(),
    }
}

/// A team of the curated lists under the name it is compared by, with its key
/// players.
pub type TeamPlayersView = (Seq<char>, Seq<KeyPlayerView>);

/// The team that a field of the curated lists gives. A name that begins with an
/// underscore is a remark.
pub open spec fn team_players_of<F>(field: (Seq<char>, JsonView<F>)) -> Option<TeamPlayersView> {
    if field.0.len() > 0 && field.0[0] == '_' {
        None
    } else {
        Some((feed_name(field.0), players_of(field.1)))
    }
}

/// The teams of the curated lists; none where they are no object.
pub open spec fn curated<F>(lists: JsonView<F>) -> Seq<TeamPlayersView> {
    match lists {
        JsonView::Object(fields) => present(
            fields.map_values(|f: (Seq<char>, JsonView<F>)| team_players_of(f)),
        ),
        _ => Seq::empty(),
    }
}

/// The key players of the last of `teams` that is compared by `key`.
pub open spec fn players_under(teams: Seq<TeamPlayersView>, key: Seq<char>) -> Option<
    Seq<KeyPlayerView>,
>
    decreases teams.len(),
{
    if teams.len() == 0 {
        None
    } else if teams.last().0 == key {
        Some(teams.last().1)
    } else {
        players_under(teams.drop_last(), key)
    }
}

fn read_player<F>(entry: &Json<F>) -> (r: Option<KeyPlayer>)
    ensures
        match r {
            Some(p) => player_of(entry@) == Some(p@),
            None => player_of(entry@) is None,
        },
{
    let a = match entry.as_array() {
        Some(a) => a,
        None => {
            return None;
        },
    };
    if a.len() < 2 {
        return None;
    }
    match (a[0].as_str(), a[1].as_str()) {
        (Some(name), Some(position)) => {
            if position.unicode_len() == 0 {
                None
            } else {
                Some(
                    KeyPlayer {
                        name: name.to_owned(),
                        position: to_ascii_upper(position.get_char(0)),
                    },
                )
            }
        },
        _ => None,
    }
}

fn read_players<F>(list: &Json<F>) -> (r: Vec<KeyPlayer>)
    ensures
        key_players(r@) == players_of(list@),
{
    let mut out: Vec<KeyPlayer> = Vec::new();
    match list.as_array() {
        Some(a) => {
            let ghost found = list@.items()->0.map_values(|e: JsonView<F>| player_of(e));
            let mut i: usize = 0;
            while i < a.len()
                invariant
                    0 <= i <= a@.len(),
                    found.len() == a@.len(),
                    forall|k: int| 0 <= k < a@.len() ==> #[trigger] found[k] == player_of(a@[k]@),
                    key_players(out@) == present(found.take(i as int)),
                decreases a@.len() - i,
            {
                assert(found.take(i + 1).drop_last() =~= found.take(i as int));
                match read_player(&a[i]) {
                    Some(p) => {
                        out.push(p);
                    },
                    None => {},
                }
                i = i + 1;
            }
            assert(found.take(i as int) =~= found);
        },
        None => {
        },
    }
    out
}

/// The curated key players of the teams.
#[derive(Debug)]
pub struct KeyPlayers {
    teams: Vec<(String, Vec<KeyPlayer>)>,
}

/// What each of the teams is.
pub open spec fn team_players(teams: Seq<(String, Vec<KeyPlayer>)>) -> Seq<TeamPlayersView> {
    teams.map_values(|t: (String, Vec<KeyPlayer>)| (t.0@, key_players(t.1@)))
}

impl View for KeyPlayers {
    type V = Seq<TeamPlayersView>;

    closed spec fn view(&self) -> Seq<TeamPlayersView> {
        team_players(self.teams@)
    }
}

impl KeyPlayers {
    /// The key players of the curated lists: an object of a list for each team,
    /// each player an array of a name and a position.
    pub fn from_json<F>(lists: &Json<F>) -> (r: KeyPlayers)
        ensures
            r@ == curated(lists@),
    {
        let mut teams: Vec<(String, Vec<KeyPlayer>)> = Vec::new();
        match lists {
            Json::Object(o) => {
                let ghost fields = lists@->Object_0;
                let ghost found = fields.map_values(
                    |f: (Seq<char>, JsonView<F>)| team_players_of(f),
                );
                let mut i: usize = 0;
                while i < o.len()
                    invariant
                        0 <= i <= o@.len(),
                        found.len() == o@.len(),
                        forall|k: int|
                            0 <= k < o@.len() ==> #[trigger] found[k] == team_players_of(
                                (o@[k].0@, o@[k].1@),
                            ),
                        team_players(teams@) == present(found.take(i as int)),
                    decreases o@.len() - i,
                {
                    let ghost earlier = teams@;
                    assert(found.take(i + 1).drop_last() =~= found.take(i as int));
                    let name = o[i].0.as_str();
                    if !(name.unicode_len() > 0 && name.get_char(0) == '_') {
                        let key = norm_team(name);
                        let players = read_players(&o[i].1);
                        teams.push((key, players));
                        assert(team_players(teams@) =~= team_players(earlier).push(
                            (key@, key_players(players@)),
                        ));
                    }
                    i = i + 1;
                }
                assert(found.take(i as int) =~= found);
            },
            _ => {
            },
        }
        KeyPlayers { teams }
    }

    /// The key players of a team; nothing where there is no list for it.
    pub fn of_team(&self, team: &str) -> (r: Option<&Vec<KeyPlayer>>)
        ensures
            match r {
                Some(p) => players_under(self@, feed_name(team@)) == Some(key_players(p@)),
                None => players_under(self@, feed_name(team@)) is None,
            },
    {
        let key = norm_team(team);
        let mut i: usize = self.teams.len();
        assert(self@.take(i as int) =~= self@);
        while i > 0
            invariant
                0 <= i <= self.teams@.len(),
                self@ == team_players(self.teams@),
                key@ == feed_name(team@),
                players_under(self@, key@) == players_under(self@.take(i as int), key@),
            decreases i,
        {
            assert(self@.take(i as int).drop_last() =~= self@.take(i - 1));
            i = i - 1;
            if self.teams[i].0 == key {
                return Some(&self.teams[i].1);
            }
        }
        None
    }
}

/// How many of a team's rated players are its key players.
pub const KEY_PLAYER_COUNT: usize = 6;

/// A player of the live feed, with the text of the rating where there is one.
#[derive(Debug, PartialEq)]
pub struct FeedPlayer {
    pub name: String,
    pub position: char,
    pub rating: Option<String>,
}

/// What a player of the live feed is.
pub struct FeedPlayerView {
    pub name: Seq<char>,
    pub position: char,
    pub rating: Option<Seq<char>>,
}

impl View for FeedPlayer {
    type V = FeedPlayerView;

    open spec fn view(&self) -> FeedPlayerView {
        FeedPlayerView {
            name: self.name@,
            position: self.position,
            rating: match self.rating {
                Some(r) => Some(r@),
                None => None,
            },
        }
    }
}

/// What each of the players of the live feed is.
pub open spec fn feed_players(players: Seq<FeedPlayer>) -> Seq<FeedPlayerView> {
    players.map_values(|p: FeedPlayer| p@)
}

/// The letter of a position: the first character in upper case, `M` where the
/// position is no text or is empty.
pub open spec fn position_letter<F>(position: JsonView<F>) -> char {
    match position.text() {
        Some(t) if t.len() > 0 => ascii_upper(t[0]),
        _ => 'M',
    }
}

/// The games part of the first statistics of a player in the feed.
pub open spec fn games_of<F>(entry: JsonView<F>) -> Option<JsonView<F>> {
    match entry.field("statistics"@) {
        Some(statistics) => match statistics.items() {
            Some(a) if a.len() > 0 => a[0].field("games"@),
            _ => None,
        },
        None => None,
    }
}

/// The player that an entry of the feed gives: one with a name and a position.
pub open spec fn feed_player_of<F>(entry: JsonView<F>) -> Option<FeedPlayerView> {
    match (player_name_of(entry), games_of(entry)) {
        (Some(name), Some(games)) => match games.field("position"@) {
            Some(position) => Some(
                FeedPlayerView {
                    name,
                    position: position_letter(position),
                    rating: match games.field("rating"@) {
                        Some(rating) => rating.text(),
                        None => None,
                    },
                },
            ),
            None => None,
        },
        _ => None,
    }
}

/// The players of the feed's answer.
pub open spec fn feed_players_of<F>(answer: JsonView<F>) -> Seq<FeedPlayerView> {
    match response_of(answer) {
        Some(a) => present(a.map_values(|e: JsonView<F>| feed_player_of(e))),
        None => Seq::empty(),
    }
}

fn games<F>(entry: &Json<F>) -> (r: Option<&Json<F>>)
    ensures
        match r {
            Some(g) => games_of(entry@) == Some(g@),
            None => games_of(entry@) is None,
        },
{
    match entry.get("statistics") {
        Some(statistics) => match statistics.as_array() {
            Some(a) => {
                if a.len() == 0 {
                    None
                } else {
                    a[0].get("games")
                }
            },
            None => None,
        },
        None => None,
    }
}

fn read_feed_player<F>(entry: &Json<F>) -> (r: Option<FeedPlayer>)
    ensures
        match r {
            Some(p) => feed_player_of(entry@) == Some(p@),
            None => feed_player_of(entry@) is None,
        },
{
    let name = match player_name(entry) {
        Some(n) => n.to_owned(),
        None => {
            return None;
        },
    };
    let games = match games(entry) {
        Some(g) => g,
        None => {
            return None;
        },
    };
    let position = match games.get("position") {
        Some(p) => match p.as_str() {
            Some(t) => {
                if t.unicode_len() == 0 {
                    'M'
                } else {
                    to_ascii_upper(t.get_char(0))
                }
            },
            None => 'M',
        },
        None => {
            return None;
        },
    };
    let rating = match games.get("rating") {
        Some(v) => match v.as_str() {
            Some(t) => Some(t.to_owned()),
            None => None,
        },
        None => None,
    };
    Some(FeedPlayer { name, position, rating })
}

/// The players of a reply of the feed; none where it is a failure.
pub fn read_feed_players<F>(reply: &Result<Json<F>, String>) -> (r: Vec<FeedPlayer>)
    ensures
        feed_players(r@) == match *reply {
            Ok(answer) => feed_players_of(answer@),
            Err(_) => Seq::empty(),
        },
{
    let mut out: Vec<FeedPlayer> = Vec::new();
    let answer = match reply {
        Ok(v) => v,
        Err(_) => {
            return out;
        },
    };
    match response(answer) {
        Some(a) => {
            let ghost found = models(a@).map_values(|e: JsonView<F>| feed_player_of(e));
            let mut i: usize = 0;
            while i < a.len()
                invariant
                    0 <= i <= a@.len(),
                    found.len() == a@.len(),
                    forall|k: int|
                        0 <= k < a@.len() ==> #[trigger] found[k] == feed_player_of(a@[k]@),
                    feed_players(out@) == present(found.take(i as int)),
                decreases a@.len() - i,
            {
                assert(found.take(i + 1).drop_last() =~= found.take(i as int));
                match read_feed_player(&a[i]) {
                    Some(p) => {
                        out.push(p);
                    },
                    None => {},
                }
                i = i + 1;
            }
            assert(found.take(i as int) =~= found);
        },
        None => {},
    }
    out
}

/// A rated player. `order` orders as the rating does.
#[derive(Debug, PartialEq)]
pub struct RatedPlayer<F> {
    pub name: String,
    pub position: char,
    pub rating: F,
    pub order: i64,
}

/// `sorted` with `p` put behind all that are rated as high.
pub open spec fn put_in_rank<F>(sorted: Seq<RatedPlayer<F>>, p: RatedPlayer<F>) -> Seq<
    RatedPlayer<F>,
>
    decreases sorted.len(),
{
    if sorted.len() == 0 || sorted.last().order >= p.order {
        sorted.push(p)
    } else {
        put_in_rank(sorted.drop_last(), p).push(sorted.last())
    }
}

/// The players from the highest rating down; equal ratings stay in their order.
pub open spec fn ranked<F>(players: Seq<RatedPlayer<F>>) -> Seq<RatedPlayer<F>>
    decreases players.len(),
{
    if players.len() == 0 {
        Seq::empty()
    } else {
        put_in_rank(ranked(players.drop_last()), players.last())
    }
}

proof fn lemma_put_in_rank<F>(sorted: Seq<RatedPlayer<F>>, p: RatedPlayer<F>, k: int)
    requires
        0 <= k <= sorted.len(),
        k > 0 ==> sorted[k - 1].order >= p.order,
        forall|i: int| k <= i < sorted.len() ==> (#[trigger] sorted[i]).order < p.order,
    ensures
        put_in_rank(sorted, p) == sorted.insert(k, p),
    decreases sorted.len(),
{
    if k == sorted.len() {
    } else {
        lemma_put_in_rank(sorted.drop_last(), p, k);
    }
}

/// A team's key players by rating: the highest rated first, equal ratings in the
/// order of the feed, no more than six.
pub fn wc_key_players<F>(players: Vec<RatedPlayer<F>>) -> (r: Vec<RatedPlayer<F>>)
    ensures
        r@ == if players@.len() <= KEY_PLAYER_COUNT {
            ranked(players@)
        } else {
            ranked(players@).take(KEY_PLAYER_COUNT as int)
        },
{
    let mut out: Vec<RatedPlayer<F>> = Vec::new();
    let ghost all = players@;
    for p in it: players
        invariant
            it.seq() == all,
            out@ == ranked(all.take(it.index())),
    {
        let mut k: usize = out.len();
        while k > 0 && out[k - 1].order < p.order
            invariant
                0 <= k <= out@.len(),
                forall|i: int| k <= i < out@.len() ==> (#[trigger] out@[i]).order < p.order,
            decreases k,
        {
            k = k - 1;
        }
        proof {
            lemma_put_in_rank(out@, p, k as int);
            assert(all.take(it.index() + 1).drop_last() =~= all.take(it.index()));
        }
        out.insert(k, p);
    }
    proof {
        assert(all.take(all.len() as int) =~= all);
        law_rank_keeps_all(all);
    }
    out.truncate(KEY_PLAYER_COUNT);
    out
}

/// The players rated `order`, in their order.
pub open spec fn rated_at<F>(players: Seq<RatedPlayer<F>>, order: i64) -> Seq<RatedPlayer<F>> {
    players.filter(|p: RatedPlayer<F>| p.order == order)
}

/// The ratings fall or stay the same.
pub open spec fn falling<F>(players: Seq<RatedPlayer<F>>) -> bool {
    forall|i: int, j: int| 0 <= i <= j < players.len() ==> players[i].order >= players[j].order
}

proof fn lemma_put_in_rank_keeps<F>(sorted: Seq<RatedPlayer<F>>, p: RatedPlayer<F>)
    requires
        falling(sorted),
    ensures
        falling(put_in_rank(sorted, p)),
        put_in_rank(sorted, p).len() == sorted.len() + 1,
        put_in_rank(sorted, p).last().order == if sorted.len() > 0 && sorted.last().order < p.order {
            sorted.last().order
        } else {
            p.order
        },
        forall|order: i64| #[trigger]
            rated_at(put_in_rank(sorted, p), order) == if order == p.order {
                rated_at(sorted, order).push(p)
            } else {
                rated_at(sorted, order)
            },
    decreases sorted.len(),
{
    reveal(Seq::filter);
    if sorted.len() == 0 || sorted.last().order >= p.order {
        assert(sorted.push(p).drop_last() =~= sorted);
    } else {
        let head = sorted.drop_last();
        let tail = sorted.last();
        lemma_put_in_rank_keeps(head, p);
        let put = put_in_rank(head, p);
        assert(put.push(tail).drop_last() =~= put);
        assert forall|order: i64| #[trigger]
            rated_at(put_in_rank(sorted, p), order) == if order == p.order {
                rated_at(sorted, order).push(p)
            } else {
                rated_at(sorted, order)
            } by {
            assert(rated_at(put, order) == if order == p.order {
                rated_at(head, order).push(p)
            } else {
                rated_at(head, order)
            });
        }
    }
}

/// Ranking loses no player and adds none; it puts higher ratings first and leaves
/// players of one rating in their order.
pub proof fn law_rank_keeps_all<F>(players: Seq<RatedPlayer<F>>)
    ensures
        ranked(players).len() == players.len(),
        falling(ranked(players)),
        forall|order: i64| #[trigger] rated_at(ranked(players), order) == rated_at(players, order),
    decreases players.len(),
{
    reveal(Seq::filter);
    if players.len() > 0 {
        law_rank_keeps_all(players.drop_last());
        lemma_put_in_rank_keeps(ranked(players.drop_last()), players.last());
        assert forall|order: i64| #[trigger]
            rated_at(ranked(players), order) == rated_at(players, order) by {
            assert(rated_at(ranked(players.drop_last()), order) == rated_at(
                players.drop_last(),
                order,
            ));
        }
    }
}

/// Whether an entry of a team's list is an array that begins with this player's name
/// and a position whose first letter, in upper case, is this player's.
pub open spec fn lists_player<F>(entry: JsonView<F>, p: KeyPlayerView) -> bool {
    entry matches JsonView::Array(a) && {
        &&& a.len() >= 2
        &&& a[0] == JsonView::<F>::Text(p.0)
        &&& a[1] matches JsonView::Text(position) && position.len() > 0 && p.1 == ascii_upper(
            position[0],
        )
    }
}

/// The key players of a list are all whom its entries give, in their order.
pub proof fn law_every_key_player_is_read<F>(list: JsonView<F>)
    ensures
        match list {
            JsonView::Array(a) => is_all_given(
                a,
                |e: JsonView<F>, p: KeyPlayerView| lists_player(e, p),
                players_of(list),
            ),
            _ => players_of(list).len() == 0,
        },
{
    if let JsonView::Array(a) = list {
        law_present_is_all_given(
            a,
            |e: JsonView<F>| player_of(e),
            |e: JsonView<F>, p: KeyPlayerView| lists_player(e, p),
        );
    }
}

proof fn lemma_list_at(teams: Seq<TeamPlayersView>, key: Seq<char>, i: int)
    requires
        -1 <= i < teams.len(),
        i >= 0 ==> teams[i].0 == key,
        forall|j: int| i < j < teams.len() ==> (#[trigger] teams[j]).0 != key,
    ensures
        players_under(teams, key) == if i >= 0 {
            Some(teams[i].1)
        } else {
            None
        },
    decreases teams.len(),
{
    if i < teams.len() - 1 {
        let head = teams.drop_last();
        assert(teams[teams.len() - 1].0 != key);
        assert(forall|j: int| 0 <= j < head.len() ==> #[trigger] head[j] == teams[j]);
        lemma_list_at(head, key, i);
    }
}

/// The key players under a name are those of the last team that has it; there are
/// none where no team has.
pub proof fn law_last_list_counts(teams: Seq<TeamPlayersView>, key: Seq<char>)
    ensures
        forall|i: int|
            0 <= i < teams.len() && (#[trigger] teams[i]).0 == key && (forall|j: int|
                i < j < teams.len() ==> (#[trigger] teams[j]).0 != key) ==> players_under(
                teams,
                key,
            ) == Some(teams[i].1),
        (forall|i: int| 0 <= i < teams.len() ==> (#[trigger] teams[i]).0 != key) ==> players_under(
            teams,
            key,
        ) is None,
{
    assert forall|i: int|
        0 <= i < teams.len() && (#[trigger] teams[i]).0 == key && (forall|j: int|
            i < j < teams.len() ==> (#[trigger] teams[j]).0 != key) implies players_under(
        teams,
        key,
    ) == Some(teams[i].1) by {
        lemma_list_at(teams, key, i);
    }
    if forall|i: int| 0 <= i < teams.len() ==> (#[trigger] teams[i]).0 != key {
        lemma_list_at(teams, key, -1);
    }
}

proof fn lemma_last_present_list(
    found: Seq<Option<TeamPlayersView>>,
    key: Seq<char>,
    i: int,
)
    requires
        -1 <= i < found.len(),
        i >= 0 ==> (found[i] matches Some(t) && t.0 == key),
        forall|k: int|
            i < k < found.len() ==> (#[trigger] found[k] matches Some(t) ==> t.0 != key),
    ensures
        players_under(present(found), key) == if i >= 0 {
            Some((found[i]->0).1)
        } else {
            None
        },
    decreases found.len(),
{
    if found.len() > 0 {
        let head = found.drop_last();
        let n = found.len() - 1;
        if let Some(t) = found[n] {
            assert(present(found).drop_last() =~= present(head));
            assert(present(found).last() == t);
        }
        if i < n {
            assert(forall|k: int| 0 <= k < n ==> #[trigger] head[k] == found[k]);
            lemma_last_present_list(head, key, i);
        }
    }
}

/// Whether a name in the curated lists is a team's, and that of `team`; one that
/// begins with an underscore is no team's.
pub open spec fn lists_team(name: Seq<char>, team: Seq<char>) -> bool {
    (name.len() == 0 || name[0] != '_') && feed_name(name) == feed_name(team)
}

/// The key players of a team are those of the last list under one of its names;
/// there are none where there is no such list, nor where the lists are no object.
pub proof fn law_players_of_the_team<F>(
    fields: Seq<(Seq<char>, JsonView<F>)>,
    other: JsonView<F>,
    team: Seq<char>,
)
    requires
        !(other is Object),
    ensures
        forall|i: int|
            0 <= i < fields.len() && lists_team((#[trigger] fields[i]).0, team) && (forall|j: int|
                i < j < fields.len() ==> !lists_team((#[trigger] fields[j]).0, team))
                ==> players_under(curated(JsonView::Object(fields)), feed_name(team)) == Some(
                players_of(fields[i].1),
            ),
        (forall|i: int| 0 <= i < fields.len() ==> !lists_team((#[trigger] fields[i]).0, team))
            ==> players_under(curated(JsonView::Object(fields)), feed_name(team)) is None,
        players_under(curated(other), feed_name(team)) is None,
{
    let found = fields.map_values(|f: (Seq<char>, JsonView<F>)| team_players_of(f));
    let key = feed_name(team);
    assert forall|k: int| 0 <= k < fields.len() implies (lists_team(fields[k].0, team) <==> (
    #[trigger] found[k] matches Some(t) && t.0 == key)) by {}
    assert forall|i: int|
        0 <= i < fields.len() && lists_team((#[trigger] fields[i]).0, team) && (forall|j: int|
            i < j < fields.len() ==> !lists_team((#[trigger] fields[j]).0, team)) implies
        players_under(curated(JsonView::Object(fields)), key) == Some(players_of(fields[i].1)) by {
        assert(found[i] is Some);
        assert forall|k: int| i < k < found.len() implies (#[trigger] found[k] matches Some(t)
            ==> t.0 != key) by {
            assert(!lists_team(fields[k].0, team));
        }
        lemma_last_present_list(found, key, i);
    }
    if forall|i: int| 0 <= i < fields.len() ==> !lists_team((#[trigger] fields[i]).0, team) {
        assert forall|k: int| -1 < k < found.len() implies (#[trigger] found[k] matches Some(t)
            ==> t.0 != key) by {
            assert(!lists_team(fields[k].0, team));
        }
        lemma_last_present_list(found, key, -1);
    }
}

/// Whether an entry of the feed gives this player: the name, the first letter of the
/// position in the first statistics, in upper case and `M` where there is no
/// letter, and the text of the rating there, if it is one.
pub open spec fn gives_player<F>(entry: JsonView<F>, p: FeedPlayerView) -> bool {
    &&& names_player(entry, p.name)
    &&& entry.field("statistics"@) matches Some(JsonView::Array(statistics)) && {
        &&& statistics.len() > 0
        &&& statistics[0].field("games"@) matches Some(games) && {
            &&& games.field("position"@) matches Some(position) && p.position == match position {
                JsonView::Text(t) => if t.len() > 0 {
                    ascii_upper(t[0])
                } else {
                    'M'
                },
                _ => 'M',
            }
            &&& p.rating == match games.field("rating"@) {
                Some(JsonView::Text(r)) => Some(r),
                _ => None,
            }
        }
    }
}

/// The players of an answer are all whom its entries give, in their order.
pub proof fn law_every_feed_player_is_read<F>(answer: JsonView<F>)
    ensures
        match answer.field("response"@) {
            Some(JsonView::Array(entries)) => is_all_given(
                entries,
                |e: JsonView<F>, p: FeedPlayerView| gives_player(e, p),
                feed_players_of(answer),
            ),
            _ => feed_players_of(answer).len() == 0,
        },
{
    if let Some(JsonView::Array(entries)) = answer.field("response"@) {
        law_present_is_all_given(
            entries,
            |e: JsonView<F>| feed_player_of(e),
            |e: JsonView<F>, p: FeedPlayerView| gives_player(e, p),
        );
    }
}

/// Six players are kept where there are more, and none who is left out is rated
/// above one who is kept.
pub proof fn law_the_best_six<F>(players: Seq<RatedPlayer<F>>, i: int, j: int)
    requires
        0 <= i < KEY_PLAYER_COUNT <= j < players.len(),
    ensures
        KEY_PLAYER_COUNT == 6,
        ranked(players).take(6)[i].order >= ranked(players)[j].order,
{
    law_rank_keeps_all(players);
}

/// What players hold are their own names, positions and ratings, in their order.
pub proof fn law_players_hold(stars: Seq<KeyPlayer>, players: Seq<FeedPlayer>)
    ensures
        key_players(stars).len() == stars.len(),
        forall|i: int|
            0 <= i < stars.len() ==> #[trigger] key_players(stars)[i] == (
                stars[i].name@,
                stars[i].position,
            ),
        feed_players(players).len() == players.len(),
        forall|i: int|
            0 <= i < players.len() ==> {
                let p = #[trigger] feed_players(players)[i];
                &&& p.name == players[i].name@
                &&& p.position == players[i].position
                &&& players[i].rating matches Some(r) ==> p.rating == Some(r@)
                &&& players[i].rating is None ==> p.rating is None
            },
{
}

} // verus!
