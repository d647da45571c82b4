//! The bundled strengths of the teams, found by name or alias.

use vstd::hash_map::StringHashMap;
use vstd::prelude::*;
use vstd::string::{StrSliceExecFns, StringExecFns};
use vstd::utf8::is_ascii_chars;

use crate::text::{
    ascii_lower, before, is_blank, law_ascii_case_ignored, law_outer_space_ignored,
    lemma_precedes_irreflexive, lemma_precedes_total, lemma_precedes_transitive, norm, normalized, precedes, texts, uppercase,
};

verus! {

/// A team as it is bundled. `F` is the type of its numbers, which the library
/// carries and never computes with.
#[derive(Debug)]
pub struct TeamRow<F> {
    pub name: String,
    pub elo: F,
    pub xg_for: F,
    pub xg_against: F,
    pub aliases: Vec<String>,
}

/// A team's modelling inputs.
#[derive(Debug, PartialEq)]
pub struct TeamStrength<F> {
    pub name: String,
    pub elo: F,
    pub xg_for: F,
    pub xg_against: F,
}

/// What a bundled team is.
pub struct TeamRowView<F> {
    pub name: Seq<char>,
    pub elo: F,
    pub xg_for: F,
    pub xg_against: F,
    pub aliases: Seq<Seq<char>>,
}

/// What a team's modelling inputs are.
pub struct TeamStrengthView<F> {
    pub name: Seq<char>,
    pub elo: F,
    pub xg_for: F,
    pub xg_against: F,
}

impl<F> View for TeamRow<F> {
    type V = TeamRowView<F>;

    open spec fn view(&self) -> TeamRowView<F> {
        TeamRowView {
            name: self.name@,
            elo: self.elo,
            xg_for: self.xg_for,
            xg_against: self.xg_against,
            aliases: texts(self.aliases@),
        }
    }
}

impl<F> View for TeamStrength<F> {
    type V = TeamStrengthView<F>;

    open spec fn view(&self) -> TeamStrengthView<F> {
        TeamStrengthView {
            name: self.name@,
            elo: self.elo,
            xg_for: self.xg_for,
            xg_against: self.xg_against,
        }
    }
}

impl<F> TeamRowView<F> {
    /// The strength of the team.
    pub open spec fn strength(self) -> TeamStrengthView<F> {
        TeamStrengthView {
            name: self.name,
            elo: self.elo,
            xg_for: self.xg_for,
            xg_against: self.xg_against,
        }
    }

    /// Whether `key` is the normal form of the name or of one of the first `n`
    /// aliases.
    pub open spec fn answers_within(self, key: Seq<char>, n: int) -> bool {
        ||| key == normalized(self.name)
        ||| exists|j: int|
            0 <= j < n && j < self.aliases.len() && key == normalized(#[trigger] self.aliases[j])
    }

    /// Whether `key` is the normal form of the name or of an alias.
    pub open spec fn answers_to(self, key: Seq<char>) -> bool {
        self.answers_within(key, self.aliases.len() as int)
    }
}

/// The last of `rows` that answers to `key`.
pub open spec fn row_of<F>(rows: Seq<TeamRowView<F>>, key: Seq<char>) -> Option<int>
    decreases rows.len(),
{
    if rows.len() == 0 {
        None
    } else if rows.last().answers_to(key) {
        Some(rows.len() - 1)
    } else {
        row_of(rows.drop_last(), key)
    }
}

/// The row that a name or alias finds.
pub open spec fn team_found<F>(rows: Seq<TeamRowView<F>>, name: Seq<char>) -> Option<
    TeamRowView<F>,
> {
    match row_of(rows, normalized(name)) {
        Some(i) => Some(rows[i]),
        None => None,
    }
}

/// What is reported of a name that no bundled team has.
pub open spec fn unknown_team(name: Seq<char>) -> Seq<char> {
    "[goal-digger] unknown team '"@ + name + "'. Check data/teams.json coverage."@
}

/// The strength that a name or alias finds, or the report that it finds none.
pub open spec fn strength_found<F>(rows: Seq<TeamRowView<F>>, name: Seq<char>) -> Result<
    TeamStrengthView<F>,
    Seq<char>,
> {
    match team_found(rows, name) {
        Some(row) => Ok(row.strength()),
        None => Err(unknown_team(name)),
    }
}

/// Whether `name` is the name of a row that some key finds.
pub open spec fn is_listed<F>(rows: Seq<TeamRowView<F>>, name: Seq<char>) -> bool {
    exists|key: Seq<char>|
        (#[trigger] row_of(rows, key)) is Some && rows[row_of(rows, key)->0].name == name
}

/// The code of a team: its first alias, else the first three characters of the
/// given name in upper case.
pub open spec fn code_of<F>(rows: Seq<TeamRowView<F>>, name: Seq<char>) -> Seq<char> {
    match team_found(rows, name) {
        Some(row) if row.aliases.len() > 0 => row.aliases[0],
        _ => uppercase(if name.len() < 3 { name } else { name.take(3) }),
    }
}

pub proof fn lemma_row_of<F>(rows: Seq<TeamRowView<F>>, key: Seq<char>)
    ensures
        match row_of(rows, key) {
            Some(i) => {
                &&& 0 <= i < rows.len()
                &&& rows[i].answers_to(key)
                &&& forall|j: int| i < j < rows.len() ==> !(#[trigger] rows[j]).answers_to(key)
            },
            None => forall|j: int| 0 <= j < rows.len() ==> !(#[trigger] rows[j]).answers_to(key),
        },
    decreases rows.len(),
{
    if rows.len() > 0 && !rows.last().answers_to(key) {
        lemma_row_of(rows.drop_last(), key);
        assert forall|j: int|
            (match row_of(rows, key) {
                Some(i) => i < j < rows.len(),
                None => 0 <= j < rows.len(),
            }) implies !(#[trigger] rows[j]).answers_to(key) by {
            if j < rows.len() - 1 {
                assert(rows.drop_last()[j] == rows[j]);
            }
        }
    }
}

/// The bundled teams, indexed by the normal forms of their names and aliases.
pub struct TeamTable<F> {
    rows: Vec<TeamRow<F>>,
    index: StringHashMap<usize>,
}

impl<F> View for TeamTable<F> {
    type V = Seq<TeamRowView<F>>;

    closed spec fn view(&self) -> Seq<TeamRowView<F>> {
        self.rows@.map_values(|r: TeamRow<F>| r@)
    }
}

impl<F> TeamTable<F> {
    #[verifier::type_invariant]
    spec fn indexed(self) -> bool {
        forall|key: Seq<char>|
            match row_of(self@, key) {
                Some(i) => #[trigger] self.index@.contains_key(key) && self.index@[key] == i,
                None => !self.index@.contains_key(key),
            }
    }

    /// The table of the given rows. Where two rows share a name or an alias, the
    /// later row is found under it.
    pub fn new(rows: Vec<TeamRow<F>>) -> (r: TeamTable<F>)
        ensures
            r@ == rows@.map_values(|r: TeamRow<F>| r@),
    {
        let mut index: StringHashMap<usize> = StringHashMap::new();
        let ghost all = rows@.map_values(|r: TeamRow<F>| r@);
        let mut i: usize = 0;
        while i < rows.len()
            invariant
                0 <= i <= rows@.len(),
                all == rows@.map_values(|r: TeamRow<F>| r@),
                forall|key: Seq<char>|
                    match row_of(all.take(i as int), key) {
                        Some(k) => #[trigger] index@.contains_key(key) && index@[key] == k,
                        None => !index@.contains_key(key),
                    },
            decreases rows@.len() - i,
        {
            let row = &rows[i];
            let ghost rv = all[i as int];
            let ghost earlier = index@;
            index.insert(norm(row.name.as_str()), i);
            let mut j: usize = 0;
            while j < row.aliases.len()
                invariant
                    0 <= j <= row.aliases@.len(),
                    rv == row@,
                    forall|key: Seq<char>|
                        if rv.answers_within(key, j as int) {
                            #[trigger] index@.contains_key(key) && index@[key] == i
                        } else {
                            index@.contains_key(key) == earlier.contains_key(key) && index@[key]
                                == earlier[key]
                        },
                decreases row.aliases@.len() - j,
            {
                index.insert(norm(row.aliases[j].as_str()), i);
                assert forall|key: Seq<char>|
                    if rv.answers_within(key, j + 1) {
                        #[trigger] index@.contains_key(key) && index@[key] == i
                    } else {
                        index@.contains_key(key) == earlier.contains_key(key) && index@[key]
                            == earlier[key]
                    } by {
                    assert(rv.answers_within(key, j + 1) == (rv.answers_within(key, j as int)
                        || key == normalized(rv.aliases[j as int])));
                }
                j = j + 1;
            }
            assert(all.take(i + 1).drop_last() =~= all.take(i as int));
            assert forall|key: Seq<char>|
                match row_of(all.take(i + 1), key) {
                    Some(k) => #[trigger] index@.contains_key(key) && index@[key] == k,
                    None => !index@.contains_key(key),
                } by {
                assert(rv.answers_to(key) == rv.answers_within(key, j as int));
            }
            i = i + 1;
        }
        assert(all.take(i as int) =~= all);
        TeamTable { rows, index }
    }

    /// The place of the row that is found under `key`, a normal form.
    pub fn find(&self, key: &str) -> (r: Option<usize>)
        ensures
            match row_of(self@, key@) {
                Some(i) => r matches Some(k) && k == i && i < self@.len(),
                None => r is None,
            },
    {
        proof {
            use_type_invariant(self);
            lemma_row_of(self@, key@);
        }
        match self.index.get(key) {
            Some(i) => Some(*i),
            None => None,
        }
    }
}

/// The strength of the team with this name or alias. Case and surrounding white
/// space do not count.
pub fn team_strength<F: Copy>(table: &TeamTable<F>, name: &str) -> (r: Result<
    TeamStrength<F>,
    String,
>)
    ensures
        match strength_found(table@, name@) {
            Ok(s) => r matches Ok(t) && t@ == s,
            Err(m) => r matches Err(e) && e@ == m,
        },
{
    match table.find(norm(name).as_str()) {
        Some(i) => {
            let row = &table.rows[i];
            Ok(
                TeamStrength {
                    name: row.name.clone(),
                    elo: row.elo,
                    xg_for: row.xg_for,
                    xg_against: row.xg_against,
                },
            )
        },
        None => Err(
            "[goal-digger] unknown team '".to_owned().concat(name).concat(
                "'. Check data/teams.json coverage.",
            ),
        ),
    }
}

/// The short code of a team (ESP, GER, ...): its first alias, else the first
/// three characters of the given name in upper case.
pub fn team_code<F>(table: &TeamTable<F>, name: &str) -> (r: String)
    ensures
        r@ == code_of(table@, name@),
{
    match table.find(norm(name).as_str()) {
        Some(i) => {
            let row = &table.rows[i];
            if row.aliases.len() > 0 {
                return row.aliases[0].clone();
            }
        },
        None => {},
    }
    if name.unicode_len() < 3 {
        name.to_uppercase()
    } else {
        name.substring_char(0, 3).to_uppercase()
    }
}

/// The strings stand in order, none of them twice.
pub open spec fn ascending(names: Seq<Seq<char>>) -> bool {
    forall|i: int, j: int| 0 <= i < j < names.len() ==> precedes(names[i], names[j])
}

/// Puts `name` in its place in `names`, unless it is there.
fn insert_in_order(names: &mut Vec<String>, name: &String)
    requires
        ascending(texts(old(names)@)),
    ensures
        ascending(texts(final(names)@)),
        forall|s: Seq<char>| #[trigger]
            texts(final(names)@).contains(s) <==> (texts(old(names)@).contains(s) || s == name@),
{
    let ghost prior = texts(names@);
    let mut p: usize = 0;
    while p < names.len() && before(names[p].as_str(), name.as_str())
        invariant
            0 <= p <= names@.len(),
            prior == texts(names@),
            forall|k: int| 0 <= k < p ==> precedes(#[trigger] prior[k], name@),
        decreases names@.len() - p,
    {
        p = p + 1;
    }
    if p < names.len() && names[p] == *name {
        assert(prior[p as int] == name@);
        return;
    }
    proof {
        if p < names@.len() {
            lemma_precedes_total(name@, prior[p as int]);
        }
        assert forall|k: int| p <= k < prior.len() implies precedes(name@, #[trigger] prior[k]) by {
            if k > p {
                lemma_precedes_transitive(name@, prior[p as int], prior[k]);
            }
        }
    }
    names.insert(p, name.clone());
    let ghost now = texts(names@);
    assert(now =~= prior.insert(p as int, name@));
    assert forall|s: Seq<char>| #[trigger] now.contains(s) <==> (prior.contains(s) || s == name@) by {
        if prior.contains(s) {
            let k = choose|k: int| 0 <= k < prior.len() && prior[k] == s;
            if k < p {
                assert(now[k] == s);
            } else {
                assert(now[k + 1] == s);
            }
        }
        assert(now[p as int] == name@);
    }
}

/// The names of all teams that can be found, each once, in order.
pub fn all_team_names<F>(table: &TeamTable<F>) -> (names: Vec<String>)
    ensures
        ascending(texts(names@)),
        forall|s: Seq<char>| #[trigger] texts(names@).contains(s) <==> is_listed(table@, s),
{
    let mut names: Vec<String> = Vec::new();
    let mut i: usize = 0;
    let ghost rows = table@;
    assert forall|key: Seq<char>| (#[trigger] row_of(rows, key)) is Some implies 0 <= row_of(
        rows,
        key,
    )->0 by {
        lemma_row_of(rows, key);
    }
    while i < table.rows.len()
        invariant
            0 <= i <= table.rows@.len(),
            rows == table@,
            rows.len() == table.rows@.len(),
            forall|k: int| 0 <= k < rows.len() ==> #[trigger] rows[k] == table.rows@[k]@,
            ascending(texts(names@)),
            forall|s: Seq<char>| #[trigger]
                texts(names@).contains(s) <==> exists|key: Seq<char>|
                    (#[trigger] row_of(rows, key)) is Some && row_of(rows, key)->0 < i
                        && rows[row_of(rows, key)->0].name == s,
        decreases table.rows@.len() - i,
    {
        let row = &table.rows[i];
        let ghost rv = rows[i as int];
        let mut found: bool = match table.find(norm(row.name.as_str()).as_str()) {
            Some(k) => k == i,
            None => false,
        };
        let mut j: usize = 0;
        while j < row.aliases.len()
            invariant
                0 <= j <= row.aliases@.len(),
                rv == row@,
                rows == table@,
                found <==> exists|key: Seq<char>|
                    rv.answers_within(key, j as int) && #[trigger] row_of(rows, key) == Some(
                        i as int,
                    ),
            decreases row.aliases@.len() - j,
        {
            let key = norm(row.aliases[j].as_str());
            assert(rv.aliases[j as int] == row.aliases@[j as int]@);
            match table.find(key.as_str()) {
                Some(k) => {
                    if k == i {
                        found = true;
                    }
                },
                None => {},
            }
            j = j + 1;
        }
        proof {
            assert forall|key: Seq<char>| #[trigger] row_of(rows, key) == Some(
                i as int,
            ) implies rv.answers_within(key, j as int) by {
                lemma_row_of(rows, key);
            }
        }
        let ghost prior = texts(names@);
        if found {
            insert_in_order(&mut names, &row.name);
        }
        proof {
            assert forall|s: Seq<char>| #[trigger]
                texts(names@).contains(s) <==> exists|key: Seq<char>|
                    (#[trigger] row_of(rows, key)) is Some && row_of(rows, key)->0 < i + 1
                        && rows[row_of(rows, key)->0].name == s by {
                assert(prior.contains(s) ==> texts(names@).contains(s));
            }
        }
        i = i + 1;
    }
    assert forall|s: Seq<char>| #[trigger] texts(names@).contains(s) <==> is_listed(rows, s) by {
        if is_listed(rows, s) {
            let key = choose|key: Seq<char>|
                (#[trigger] row_of(rows, key)) is Some && rows[row_of(rows, key)->0].name == s;
            lemma_row_of(rows, key);
        }
    }
    names
}

/// A bundled team is found by its name and by each of its aliases, where no later
/// team has taken that name over.
pub proof fn law_found_by_name_or_alias<F>(rows: Seq<TeamRowView<F>>, i: int, name: Seq<char>)
    requires
        0 <= i < rows.len(),
        name == rows[i].name || rows[i].aliases.contains(name),
        forall|j: int| i < j < rows.len() ==> !(#[trigger] rows[j]).answers_to(normalized(name)),
    ensures
        strength_found(rows, name) == Ok::<TeamStrengthView<F>, Seq<char>>(rows[i].strength()),
{
    lemma_row_of(rows, normalized(name));
}

/// Two spellings of an ASCII name that differ in the case of letters find the
/// same team, as does one with white space around it; neither finds one where the
/// other does not.
pub proof fn law_name_case_and_space_ignored<F>(
    rows: Seq<TeamRowView<F>>,
    name: Seq<char>,
    spelling: Seq<char>,
    left: Seq<char>,
    right: Seq<char>,
)
    requires
        is_ascii_chars(name),
        is_ascii_chars(spelling),
        name.map_values(|c: char| ascii_lower(c)) == spelling.map_values(
            |c: char| ascii_lower(c),
        ),
        is_blank(left),
        is_blank(right),
    ensures
        team_found(rows, left + spelling + right) == team_found(rows, name),
{
    law_ascii_case_ignored(name, spelling);
    law_outer_space_ignored(left, spelling, right);
}

/// Every listed name finds a team.
pub proof fn law_listed_names_are_found<F>(rows: Seq<TeamRowView<F>>, name: Seq<char>)
    requires
        is_listed(rows, name),
    ensures
        strength_found(rows, name) is Ok,
{
    let key = choose|key: Seq<char>|
        (#[trigger] row_of(rows, key)) is Some && rows[row_of(rows, key)->0].name == name;
    lemma_row_of(rows, key);
    lemma_row_of(rows, normalized(name));
}

/// The name of every team that can be found is listed.
pub proof fn law_found_names_are_listed<F>(rows: Seq<TeamRowView<F>>, name: Seq<char>)
    requires
        strength_found(rows, name) is Ok,
    ensures
        is_listed(rows, strength_found(rows, name)->Ok_0.name),
{
}

/// The code of a team with an alias finds a team in its turn.
pub proof fn law_code_is_found<F>(rows: Seq<TeamRowView<F>>, name: Seq<char>)
    requires
        team_found(rows, name) matches Some(row) && row.aliases.len() > 0,
    ensures
        strength_found(rows, code_of(rows, name)) is Ok,
{
    lemma_row_of(rows, normalized(name));
    lemma_row_of(rows, normalized(code_of(rows, name)));
}

/// A list in order without repetition is settled by what it holds.
pub proof fn law_one_list_of_names(a: Seq<Seq<char>>, b: Seq<Seq<char>>)
    requires
        ascending(a),
        ascending(b),
        forall|s: Seq<char>| #[trigger] a.contains(s) <==> b.contains(s),
    ensures
        a == b,
    decreases a.len(),
{
    if a.len() == 0 {
        if b.len() > 0 {
            assert(a.contains(b[0]));
        }
    } else {
        assert(a.contains(a[0]));
        let k = choose|k: int| 0 <= k < b.len() && b[k] == a[0];
        assert(a.contains(b[0]));
        let m = choose|m: int| 0 <= m < a.len() && a[m] == b[0];
        if k > 0 && m > 0 {
            lemma_precedes_transitive(a[0], b[0], a[0]);
            lemma_precedes_irreflexive(a[0]);
        }
        let ta = a.drop_first();
        let tb = b.drop_first();
        assert forall|s: Seq<char>| #[trigger] ta.contains(s) <==> tb.contains(s) by {
            if ta.contains(s) {
                lemma_rest_of_ascending(a, b, s);
            }
            if tb.contains(s) {
                lemma_rest_of_ascending(b, a, s);
            }
        }
        law_one_list_of_names(ta, tb);
        assert(a =~= seq![a[0]] + ta);
    }
}

proof fn lemma_rest_of_ascending(a: Seq<Seq<char>>, b: Seq<Seq<char>>, s: Seq<char>)
    requires
        ascending(a),
        a.len() > 0,
        b.len() > 0,
        a[0] == b[0],
        a.drop_first().contains(s),
        a.contains(s) ==> b.contains(s),
    ensures
        b.drop_first().contains(s),
{
    if s == a[0] {
        lemma_precedes_irreflexive(s);
    }
    let k = choose|k: int| 0 <= k < b.len() && b[k] == s;
    assert(b.drop_first()[k - 1] == s);
}

/// Whether the name of a team, or one of its aliases, has the normal form of `name`.
pub open spec fn goes_by<F>(row: TeamRowView<F>, name: Seq<char>) -> bool {
    ||| normalized(row.name) == normalized(name)
    ||| exists|j: int|
        0 <= j < row.aliases.len() && normalized(#[trigger] row.aliases[j]) == normalized(name)
}

/// A name finds the numbers, under its proper name, of the last team that goes by
/// it; where no team does, the report says so of the name as it was given.
pub proof fn law_last_team_of_the_name<F>(rows: Seq<TeamRowView<F>>, name: Seq<char>)
    ensures
        match strength_found(rows, name) {
            Ok(s) => exists|i: int|
                {
                    &&& 0 <= i < rows.len()
                    &&& goes_by(#[trigger] rows[i], name)
                    &&& forall|j: int| i < j < rows.len() ==> !goes_by(#[trigger] rows[j], name)
                    &&& s.name == rows[i].name
                    &&& s.elo == rows[i].elo
                    &&& s.xg_for == rows[i].xg_for
                    &&& s.xg_against == rows[i].xg_against
                },
            Err(m) => {
                &&& forall|j: int| 0 <= j < rows.len() ==> !goes_by(#[trigger] rows[j], name)
                &&& m == "[goal-digger] unknown team '"@ + name
                    + "'. Check data/teams.json coverage."@
            },
        },
{
    lemma_row_of(rows, normalized(name));
    assert forall|j: int| 0 <= j < rows.len() implies goes_by(#[trigger] rows[j], name)
        == rows[j].answers_to(normalized(name)) by {}
    if let Some(i) = row_of(rows, normalized(name)) {
        assert(goes_by(rows[i], name));
    }
}

/// The code of a name is the first alias of the last team that goes by it; where
/// there is no such team, or it has no alias, it is made of the first three
/// characters of the name, or all where there are fewer, in upper case.
pub proof fn law_code_of_the_name<F>(rows: Seq<TeamRowView<F>>, name: Seq<char>)
    ensures
        ({
            let made = uppercase(
                name.take(
                    if name.len() < 3 {
                        name.len() as int
                    } else {
                        3
                    },
                ),
            );
            &&& forall|i: int|
                0 <= i < rows.len() && goes_by(#[trigger] rows[i], name) && (forall|j: int|
                    i < j < rows.len() ==> !goes_by(#[trigger] rows[j], name)) ==> code_of(
                    rows,
                    name,
                ) == if rows[i].aliases.len() > 0 {
                    rows[i].aliases[0]
                } else {
                    made
                }
            &&& (forall|j: int| 0 <= j < rows.len() ==> !goes_by(#[trigger] rows[j], name))
                ==> code_of(rows, name) == made
        }),
{
    assert(name.take(name.len() as int) =~= name);
    lemma_row_of(rows, normalized(name));
    assert forall|j: int| 0 <= j < rows.len() implies goes_by(#[trigger] rows[j], name)
        == rows[j].answers_to(normalized(name)) by {}
    if let Some(k) = row_of(rows, normalized(name)) {
        assert(goes_by(rows[k], name));
    }
}

/// A name is listed where it is the name of a team that can be found: one that goes
/// by some name by which no later team goes.
pub proof fn law_listed_where_found<F>(rows: Seq<TeamRowView<F>>, name: Seq<char>)
    ensures
        is_listed(rows, name) <==> exists|i: int, call: Seq<char>|
            {
                &&& 0 <= i < rows.len()
                &&& rows[i].name == name
                &&& #[trigger] goes_by(rows[i], call)
                &&& forall|j: int| i < j < rows.len() ==> !goes_by(#[trigger] rows[j], call)
            },
{
    if is_listed(rows, name) {
        let key = choose|key: Seq<char>|
            (#[trigger] row_of(rows, key)) is Some && rows[row_of(rows, key)->0].name == name;
        lemma_row_of(rows, key);
        let i = row_of(rows, key)->0;
        let call = if key == normalized(rows[i].name) {
            rows[i].name
        } else {
            rows[i].aliases[choose|j: int|
                0 <= j < rows[i].aliases.len() && key == normalized(
                    #[trigger] rows[i].aliases[j],
                )]
        };
        assert(normalized(call) == key);
        assert(goes_by(rows[i], call));
        assert forall|j: int| i < j < rows.len() implies !goes_by(#[trigger] rows[j], call) by {
            assert(!rows[j].answers_to(key));
        }
    }
    if exists|i: int, call: Seq<char>|
        {
            &&& 0 <= i < rows.len()
            &&& rows[i].name == name
            &&& #[trigger] goes_by(rows[i], call)
            &&& forall|j: int| i < j < rows.len() ==> !goes_by(#[trigger] rows[j], call)
        } {
        let (i, call) = choose|i: int, call: Seq<char>|
            {
                &&& 0 <= i < rows.len()
                &&& rows[i].name == name
                &&& #[trigger] goes_by(rows[i], call)
                &&& forall|j: int| i < j < rows.len() ==> !goes_by(#[trigger] rows[j], call)
            };
        lemma_row_of(rows, normalized(call));
        assert(rows[i].answers_to(normalized(call)));
        let k = row_of(rows, normalized(call))->0;
        if k > i {
            assert(goes_by(rows[k], call));
        }
        assert(row_of(rows, normalized(call)) is Some);
    }
}

/// What a bundled team and a strength hold are their own name, numbers and aliases.
pub proof fn law_team_holds<F>(row: TeamRow<F>, s: TeamStrength<F>)
    ensures
        row@.name == row.name@,
        row@.elo == row.elo,
        row@.xg_for == row.xg_for,
        row@.xg_against == row.xg_against,
        row@.aliases.len() == row.aliases@.len(),
        forall|i: int|
            0 <= i < row.aliases@.len() ==> #[trigger] row@.aliases[i] == row.aliases@[i]@,
        s@.name == s.name@,
        s@.elo == s.elo,
        s@.xg_for == s.xg_for,
        s@.xg_against == s.xg_against,
{
}

/// Names in order stand by the order of strings, each before all that follow it.
pub proof fn law_ascending_names(names: Seq<Seq<char>>)
    ensures
        ascending(names) <==> forall|i: int|
            0 < i < names.len() ==> precedes(names[i - 1], #[trigger] names[i]),
    decreases names.len(),
{
    if forall|i: int| 0 < i < names.len() ==> precedes(names[i - 1], #[trigger] names[i]) {
        if names.len() > 0 {
            let head = names.drop_last();
            assert forall|i: int| 0 < i < head.len() implies precedes(
                head[i - 1],
                #[trigger] head[i],
            ) by {
                assert(head[i] == names[i]);
            }
            law_ascending_names(head);
            assert forall|i: int, j: int| 0 <= i < j < names.len() implies precedes(
                names[i],
                names[j],
            ) by {
                if j < head.len() {
                    assert(precedes(head[i], head[j]));
                } else if i < j - 1 {
                    assert(precedes(head[i], head[j - 1]));
                    lemma_precedes_transitive(names[i], names[j - 1], names[j]);
                }
            }
        }
    }
}

} // verus!
