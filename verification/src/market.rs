//! Polymarket's prices: of a market's outcomes, and of the three ways in which a
//! match can end.

use vstd::prelude::*;
use vstd::string::StringExecFns;
use vstd::utf8::is_ascii_chars;

use crate::array_text::{
    array_strings, array_text, decode_strings, is_gap, law_written_strings_read_back,
};
use crate::feed::{reply_view, reply_views};
use crate::json::{
    add_field, field_models, field_of, first_present, is_all_given, is_first_given,
    law_first_present_is_first_given, law_present_is_all_given, models, present, Json, JsonView,
};
use crate::request::{
    event_request, match_event, match_search, search_request, Request, RequestView,
};
use crate::text::{
    ascii_lower, contains, contains_outside, is_blank, is_inside, law_ascii_case_ignored,
    law_outer_space_ignored, lowercase, norm, normalized, occurs_at, occurs_in, occurs_outside,
    optional_text, starts_with, texts,
};

verus! {

/// The strings of a list that Gamma gives as an array or as the text of one:
/// `decoded` is what the text holds. An item that is no string counts as empty.
pub open spec fn listed<F>(v: Option<JsonView<F>>, decoded: Option<Seq<Seq<char>>>) -> Seq<
    Seq<char>,
> {
    match v {
        Some(JsonView::Text(_)) => match decoded {
            Some(strings) => strings,
            None => Seq::empty(),
        },
        Some(JsonView::Array(a)) => a.map_values(
            |e: JsonView<F>|
                match e.text() {
                    Some(s) => s,
                    None => Seq::empty(),
                },
        ),
        _ => Seq::empty(),
    }
}

/// The strings of a list that Gamma gives as an array or as the text of one.
pub open spec fn strings_of<F>(v: Option<JsonView<F>>) -> Seq<Seq<char>> {
    listed(
        v,
        match v {
            Some(JsonView::Text(s)) => array_strings(s),
            _ => None,
        },
    )
}

/// What an optional value is.
pub open spec fn optional_model<F>(v: Option<&Json<F>>) -> Option<JsonView<F>> {
    match v {
        Some(j) => Some(j@),
        None => None,
    }
}

/// What an optional list of strings is.
pub open spec fn optional_texts(v: Option<Vec<String>>) -> Option<Seq<Seq<char>>> {
    match v {
        Some(l) => Some(texts(l@)),
        None => None,
    }
}

/// The strings of a list that is given as an array or as a text, of which
/// `decoded` is what it holds.
pub fn string_list<F>(v: Option<&Json<F>>, decoded: Option<Vec<String>>) -> (r: Vec<String>)
    ensures
        texts(r@) == listed(optional_model(v), optional_texts(decoded)),
{
    let mut out: Vec<String> = Vec::new();
    match v {
        Some(Json::Text(_)) => match decoded {
            Some(l) => l,
            None => out,
        },
        Some(Json::Array(a)) => {
            let ghost all = v->0@->Array_0.map_values(
                |e: JsonView<F>|
                    match e.text() {
                        Some(s) => s,
                        None => Seq::empty(),
                    },
            );
            let mut i: usize = 0;
            while i < a.len()
                invariant
                    0 <= i <= a@.len(),
                    all.len() == a@.len(),
                    forall|k: int|
                        0 <= k < a@.len() ==> #[trigger] all[k] == match a@[k]@.text() {
                            Some(s) => s,
                            None => Seq::empty(),
                        },
                    texts(out@) =~= all.take(i as int),
                decreases a@.len() - i,
            {
                let ghost earlier = out@;
                let s = match a[i].as_str() {
                    Some(s) => s.to_owned(),
                    None => String::new(),
                };
                out.push(s);
                assert(texts(out@) =~= texts(earlier).push(s@));
                i = i + 1;
            }
            out
        },
        _ => out,
    }
}

/// The strings of a list that Gamma gives as an array or as the text of one.
pub fn parse_str_array<F>(v: Option<&Json<F>>) -> (r: Vec<String>)
    ensures
        texts(r@) == strings_of(optional_model(v)),
{
    let decoded = match v {
        Some(Json::Text(s)) => match decode_strings(s.as_str()) {
            Ok(l) => Some(l),
            Err(_) => None,
        },
        _ => None,
    };
    string_list(v, decoded)
}

/// A market whose prices are still texts.
#[derive(Debug, PartialEq)]
pub struct MarketText<F> {
    pub slug: String,
    /// The question as Gamma gives it; `Null` where it gives none.
    pub question: Json<F>,
    /// The outcomes, each with the text of its price.
    pub outcomes: Vec<(String, String)>,
    pub token_ids: Vec<String>,
}

/// What a market whose prices are still texts is.
pub struct MarketTextView<F> {
    pub slug: Seq<char>,
    pub question: JsonView<F>,
    pub outcomes: Seq<(Seq<char>, Seq<char>)>,
    pub token_ids: Seq<Seq<char>>,
}

/// What each of the pairs of strings is.
pub open spec fn text_pairs(pairs: Seq<(String, String)>) -> Seq<(Seq<char>, Seq<char>)> {
    pairs.map_values(|p: (String, String)| (p.0@, p.1@))
}

impl<F> View for MarketText<F> {
    type V = MarketTextView<F>;

    open spec fn view(&self) -> MarketTextView<F> {
        MarketTextView {
            slug: self.slug@,
            question: self.question@,
            outcomes: text_pairs(self.outcomes@),
            token_ids: texts(self.token_ids@),
        }
    }
}

/// The members of two sequences side by side, as far as both go.
pub open spec fn side_by_side<A, B>(a: Seq<A>, b: Seq<B>) -> Seq<(A, B)> {
    Seq::new(
        if a.len() <= b.len() {
            a.len()
        } else {
            b.len()
        },
        |i: int| (a[i], b[i]),
    )
}

/// A value, or `Null` in its place.
pub open spec fn or_null<F>(v: Option<JsonView<F>>) -> JsonView<F> {
    match v {
        Some(j) => j,
        None => JsonView::Null,
    }
}

/// What is reported of a slug that no market has.
pub open spec fn no_market(slug: Seq<char>) -> Seq<char> {
    "[goal-digger] no Polymarket market for slug '"@ + slug + "'"@
}

/// The market that an answer of Gamma gives.
pub open spec fn market_of<F>(slug: Seq<char>, market: JsonView<F>) -> MarketTextView<F> {
    MarketTextView {
        slug,
        question: or_null(market.field("question"@)),
        outcomes: side_by_side(
            strings_of(market.field("outcomes"@)),
            strings_of(market.field("outcomePrices"@)),
        ),
        token_ids: strings_of(market.field("clobTokenIds"@)),
    }
}

/// The market that a reply of Gamma gives: the first of the answer's array.
pub open spec fn market_in<F>(
    slug: Seq<char>,
    reply: Result<JsonView<F>, Seq<char>>,
) -> Result<MarketTextView<F>, Seq<char>> {
    match reply {
        Ok(answer) => match answer.items() {
            Some(a) if a.len() > 0 => Ok(market_of(slug, a[0])),
            _ => Err(no_market(slug)),
        },
        Err(e) => Err(e),
    }
}

/// Each outcome with its price, as far as both go.
pub fn pair_up(outcomes: Vec<String>, prices: Vec<String>) -> (r: Vec<(String, String)>)
    ensures
        text_pairs(r@) == side_by_side(texts(outcomes@), texts(prices@)),
{
    let mut out: Vec<(String, String)> = Vec::new();
    let mut i: usize = 0;
    while i < outcomes.len() && i < prices.len()
        invariant
            0 <= i <= outcomes@.len(),
            i <= prices@.len(),
            text_pairs(out@) =~= side_by_side(texts(outcomes@), texts(prices@)).take(i as int),
        decreases outcomes@.len() - i,
    {
        let ghost earlier = out@;
        out.push((outcomes[i].clone(), prices[i].clone()));
        assert(text_pairs(out@) =~= text_pairs(earlier).push(
            (outcomes@[i as int]@, prices@[i as int]@),
        ));
        i = i + 1;
    }
    out
}

/// The market with the given slug, with its outcomes and the texts of their
/// prices, from the reply to the request for it.
pub fn gamma_market<F: Copy>(slug: &str, reply: Result<Json<F>, String>) -> (r: Result<
    MarketText<F>,
    String,
>)
    ensures
        match market_in(slug@, reply_view(reply)) {
            Ok(m) => r matches Ok(t) && t@ == m,
            Err(m) => r matches Err(e) && e@ == m,
        },
{
    let answer = match reply {
        Ok(v) => v,
        Err(e) => {
            return Err(e);
        },
    };
    match answer.as_array() {
        Some(a) => {
            if a.len() > 0 {
                let market = &a[0];
                let question = match market.get("question") {
                    Some(q) => q.copy(),
                    None => Json::Null,
                };
                return Ok(
                    MarketText {
                        slug: slug.to_owned(),
                        question,
                        outcomes: pair_up(
                            parse_str_array(market.get("outcomes")),
                            parse_str_array(market.get("outcomePrices")),
                        ),
                        token_ids: parse_str_array(market.get("clobTokenIds")),
                    },
                );
            }
        },
        None => {},
    }
    Err(
        "[goal-digger] no Polymarket market for slug '".to_owned().concat(slug).concat("'"),
    )
}

/// An outcome of a market, with its price where that is a number.
#[derive(Debug, PartialEq)]
pub struct Quote<F> {
    pub outcome: String,
    pub price: Option<F>,
}

/// What an outcome of a market is: its name, and its price where that is a
/// number.
pub type QuoteView<F> = (Seq<char>, Option<F>);

impl<F> View for Quote<F> {
    type V = QuoteView<F>;

    open spec fn view(&self) -> QuoteView<F> {
        (self.outcome@, self.price)
    }
}

/// What each of the quotes is.
pub open spec fn quotes_of<F>(quotes: Seq<Quote<F>>) -> Seq<QuoteView<F>> {
    quotes.map_values(|q: Quote<F>| q@)
}

/// A market with its prices.
#[derive(Debug, PartialEq)]
pub struct Market<F> {
    pub slug: String,
    pub question: Json<F>,
    pub quotes: Vec<Quote<F>>,
    pub token_ids: Vec<String>,
}

/// What a market with its prices is.
pub struct MarketView<F> {
    pub slug: Seq<char>,
    pub question: JsonView<F>,
    pub quotes: Seq<QuoteView<F>>,
    pub token_ids: Seq<Seq<char>>,
}

impl<F> View for Market<F> {
    type V = MarketView<F>;

    open spec fn view(&self) -> MarketView<F> {
        MarketView {
            slug: self.slug@,
            question: self.question@,
            quotes: quotes_of(self.quotes@),
            token_ids: texts(self.token_ids@),
        }
    }
}

/// The outcomes of a market with the numbers of their prices, as far as both go.
pub open spec fn quoted<F>(
    outcomes: Seq<(Seq<char>, Seq<char>)>,
    prices: Seq<Option<F>>,
) -> Seq<QuoteView<F>> {
    Seq::new(
        if outcomes.len() <= prices.len() {
            outcomes.len()
        } else {
            prices.len()
        },
        |i: int| (outcomes[i].0, prices[i]),
    )
}

impl<F: Copy> MarketText<F> {
    /// The market with its prices as numbers: `prices` holds one for each
    /// outcome, in order.
    pub fn with_prices(self, prices: &Vec<Option<F>>) -> (r: Market<F>)
        ensures
            r@ == (MarketView {
                slug: self@.slug,
                question: self@.question,
                quotes: quoted(self@.outcomes, prices@),
                token_ids: self@.token_ids,
            }),
    {
        let mut quotes: Vec<Quote<F>> = Vec::new();
        let ghost all = quoted(text_pairs(self.outcomes@), prices@);
        let mut i: usize = 0;
        while i < self.outcomes.len() && i < prices.len()
            invariant
                0 <= i <= self.outcomes@.len(),
                i <= prices@.len(),
                all == quoted(text_pairs(self.outcomes@), prices@),
                quotes_of(quotes@) =~= all.take(i as int),
            decreases self.outcomes@.len() - i,
        {
            let ghost earlier = quotes@;
            quotes.push(Quote { outcome: self.outcomes[i].0.clone(), price: prices[i] });
            assert(quotes_of(quotes@) =~= quotes_of(earlier).push(all[i as int]));
            i = i + 1;
        }
        assert(quotes_of(quotes@) =~= all);
        Market { slug: self.slug, question: self.question, quotes, token_ids: self.token_ids }
    }
}

/// The JSON of an outcome and its price.
pub open spec fn quote_json<F>(q: QuoteView<F>) -> JsonView<F> {
    JsonView::Object(
        seq![
            ("outcome"@, JsonView::Text(q.0)),
            (
                "price"@,
                match q.1 {
                    Some(p) => JsonView::Float(p),
                    None => JsonView::Null,
                },
            ),
        ],
    )
}

/// The JSON of a market.
pub open spec fn market_json<F>(m: MarketView<F>) -> JsonView<F> {
    JsonView::Object(
        seq![
            ("slug"@, JsonView::Text(m.slug)),
            ("question"@, m.question),
            ("outcomes"@, JsonView::Array(m.quotes.map_values(|q: QuoteView<F>| quote_json(q)))),
            (
                "clobTokenIds"@,
                JsonView::Array(m.token_ids.map_values(|s: Seq<char>| JsonView::<F>::Text(s))),
            ),
        ],
    )
}

fn quote_to_json<F: Copy>(q: &Quote<F>) -> (r: Json<F>)
    ensures
        r@ == quote_json(q@),
{
    let mut fields: Vec<(String, Json<F>)> = Vec::new();
    add_field(&mut fields, "outcome", Json::of_str(q.outcome.as_str()));
    add_field(
        &mut fields,
        "price",
        match q.price {
            Some(p) => Json::Float(p),
            None => Json::Null,
        },
    );
    assert(field_models(fields@) =~= quote_json(q@)->Object_0);
    Json::object(fields)
}

/// The JSON array of the given strings.
pub fn strings_to_json<F>(strings: &Vec<String>) -> (r: Json<F>)
    ensures
        r@ == JsonView::<F>::Array(
            texts(strings@).map_values(|s: Seq<char>| JsonView::<F>::Text(s)),
        ),
{
    let mut items: Vec<Json<F>> = Vec::new();
    let ghost all = texts(strings@).map_values(|s: Seq<char>| JsonView::<F>::Text(s));
    let mut i: usize = 0;
    while i < strings.len()
        invariant
            0 <= i <= strings@.len(),
            all == texts(strings@).map_values(|s: Seq<char>| JsonView::<F>::Text(s)),
            models(items@) =~= all.take(i as int),
        decreases strings@.len() - i,
    {
        let ghost earlier = items@;
        let item = Json::of_str(strings[i].as_str());
        items.push(item);
        assert(models(items@) =~= models(earlier).push(item@));
        i = i + 1;
    }
    assert(models(items@) =~= all);
    Json::array(items)
}

/// What is reported of an outcome that a market does not price.
pub open spec fn no_outcome(outcome: Seq<char>) -> Seq<char> {
    "[goal-digger] outcome '"@ + outcome + "' not found in market"@
}

/// The price of the first of `quotes` whose outcome has the normal form `key`.
pub open spec fn price_under<F>(quotes: Seq<QuoteView<F>>, key: Seq<char>) -> Option<F>
    decreases quotes.len(),
{
    if quotes.len() == 0 {
        None
    } else if normalized(quotes[0].0) == key {
        quotes[0].1
    } else {
        price_under(quotes.drop_first(), key)
    }
}

impl<F: Copy> Market<F> {
    /// The market as JSON.
    pub fn report(&self) -> (r: Json<F>)
        ensures
            r@ == market_json(self@),
    {
        let mut items: Vec<Json<F>> = Vec::new();
        let ghost all = self@.quotes.map_values(|q: QuoteView<F>| quote_json(q));
        let mut i: usize = 0;
        while i < self.quotes.len()
            invariant
                0 <= i <= self.quotes@.len(),
                all == self@.quotes.map_values(|q: QuoteView<F>| quote_json(q)),
                models(items@) =~= all.take(i as int),
            decreases self.quotes@.len() - i,
        {
            let ghost earlier = items@;
            let item = quote_to_json(&self.quotes[i]);
            items.push(item);
            assert(models(items@) =~= models(earlier).push(item@));
            i = i + 1;
        }
        assert(models(items@) =~= all);
        let mut fields: Vec<(String, Json<F>)> = Vec::new();
        add_field(&mut fields, "slug", Json::of_str(self.slug.as_str()));
        add_field(&mut fields, "question", self.question.copy());
        add_field(&mut fields, "outcomes", Json::array(items));
        add_field(&mut fields, "clobTokenIds", strings_to_json(&self.token_ids));
        assert(field_models(fields@) =~= market_json(self@)->Object_0);
        Json::object(fields)
    }

    /// The price of an outcome. Case and surrounding white space do not count.
    pub fn price_of(&self, outcome: &str) -> (r: Result<F, String>)
        ensures
            match price_under(self@.quotes, normalized(outcome@)) {
                Some(p) => r == Ok::<F, String>(p),
                None => r matches Err(e) && e@ == no_outcome(outcome@),
            },
    {
        let wanted = norm(outcome);
        let ghost quotes = self@.quotes;
        let mut price: Option<F> = None;
        let mut i: usize = 0;
        assert(quotes.skip(0) =~= quotes);
        while i < self.quotes.len()
            invariant_except_break
                0 <= i <= self.quotes@.len(),
                quotes == quotes_of(self.quotes@),
                wanted@ == normalized(outcome@),
                price is None,
                price_under(quotes, wanted@) == price_under(quotes.skip(i as int), wanted@),
            ensures
                price == price_under(quotes, wanted@),
            decreases self.quotes@.len() - i,
        {
            assert(quotes.skip(i as int).drop_first() =~= quotes.skip(i + 1));
            if norm(self.quotes[i].outcome.as_str()) == wanted {
                price = self.quotes[i].price;
                break;
            }
            i = i + 1;
        }
        match price {
            Some(p) => Ok(p),
            None => Err(
                "[goal-digger] outcome '".to_owned().concat(outcome).concat(
                    "' not found in market",
                ),
            ),
        }
    }
}

/// One of the markets of a match: its question in lower case, and the text of the
/// price of its first outcome where it has one.
#[derive(Debug, PartialEq)]
pub struct Leg {
    pub question: String,
    pub price: Option<String>,
}

/// What one of the markets of a match is.
pub type LegView = (Seq<char>, Option<Seq<char>>);

impl View for Leg {
    type V = LegView;

    open spec fn view(&self) -> LegView {
        (self.question@, optional_text(self.price))
    }
}

/// What each of the markets of a match is.
pub open spec fn legs_of(legs: Seq<Leg>) -> Seq<LegView> {
    legs.map_values(|l: Leg| l@)
}

/// How a match ends.
#[derive(Debug, Clone, Copy, PartialEq, Eq, Structural)]
pub enum Ending {
    Home,
    Draw,
    Away,
}

/// Which ending a question asks after: a draw where it speaks of one, else the
/// win of the team it names. Where it names both, the home team is meant, unless
/// its name stands only inside the away team's.
pub open spec fn asked(question: Seq<char>, home: Seq<char>, away: Seq<char>) -> Option<Ending> {
    if occurs_in("draw"@, question) {
        Some(Ending::Draw)
    } else if occurs_outside(home, away, question) {
        Some(Ending::Home)
    } else if occurs_in(away, question) {
        Some(Ending::Away)
    } else {
        None
    }
}

/// The price of the last of `legs` that asks after `ending`.
pub open spec fn price_for(
    legs: Seq<LegView>,
    ending: Ending,
    home: Seq<char>,
    away: Seq<char>,
) -> Option<Seq<char>>
    decreases legs.len(),
{
    if legs.len() == 0 {
        None
    } else if asked(legs.last().0, home, away) == Some(ending) {
        legs.last().1
    } else {
        price_for(legs.drop_last(), ending, home, away)
    }
}

/// The texts of the prices of the three endings of a match.
#[derive(Debug, PartialEq)]
pub struct MatchPrices {
    pub home: String,
    pub draw: String,
    pub away: String,
}

/// What the prices of the three endings are.
pub struct MatchPricesView {
    pub home: Seq<char>,
    pub draw: Seq<char>,
    pub away: Seq<char>,
}

impl View for MatchPrices {
    type V = MatchPricesView;

    open spec fn view(&self) -> MatchPricesView {
        MatchPricesView { home: self.home@, draw: self.draw@, away: self.away@ }
    }
}

/// The prices of the three endings, where all three have one. `home` and `away`
/// are the teams' names in lower case.
pub open spec fn three_prices(legs: Seq<LegView>, home: Seq<char>, away: Seq<char>) -> Option<
    MatchPricesView,
> {
    match (
        price_for(legs, Ending::Home, home, away),
        price_for(legs, Ending::Draw, home, away),
        price_for(legs, Ending::Away, home, away),
    ) {
        (Some(h), Some(d), Some(a)) => Some(MatchPricesView { home: h, draw: d, away: a }),
        _ => None,
    }
}

/// Which ending a question asks after.
pub fn ending_asked(question: &str, home: &str, away: &str) -> (r: Option<Ending>)
    ensures
        r == asked(question@, home@, away@),
{
    if contains(question, "draw") {
        Some(Ending::Draw)
    } else if contains_outside(question, home, away) {
        Some(Ending::Home)
    } else if contains(question, away) {
        Some(Ending::Away)
    } else {
        None
    }
}

/// The prices of the three endings of a match, where its markets give all three.
/// `home` and `away` are the teams' names in lower case.
pub fn price_endings(legs: Vec<Leg>, home: &str, away: &str) -> (r: Option<MatchPrices>)
    ensures
        match r {
            Some(p) => three_prices(legs_of(legs@), home@, away@) == Some(p@),
            None => three_prices(legs_of(legs@), home@, away@) is None,
        },
{
    let mut h: Option<String> = None;
    let mut d: Option<String> = None;
    let mut a: Option<String> = None;
    let ghost all = legs_of(legs@);
    let mut i: usize = 0;
    while i < legs.len()
        invariant
            0 <= i <= legs@.len(),
            all == legs_of(legs@),
            optional_text(h) == price_for(all.take(i as int), Ending::Home, home@, away@),
            optional_text(d) == price_for(all.take(i as int), Ending::Draw, home@, away@),
            optional_text(a) == price_for(all.take(i as int), Ending::Away, home@, away@),
        decreases legs@.len() - i,
    {
        assert(all.take(i + 1).drop_last() =~= all.take(i as int));
        let price = match &legs[i].price {
            Some(p) => Some(p.clone()),
            None => None,
        };
        match ending_asked(legs[i].question.as_str(), home, away) {
            Some(Ending::Draw) => {
                d = price;
            },
            Some(Ending::Home) => {
                h = price;
            },
            Some(Ending::Away) => {
                a = price;
            },
            None => {},
        }
        i = i + 1;
    }
    assert(all.take(i as int) =~= all);
    match (h, d, a) {
        (Some(home), Some(draw), Some(away)) => Some(MatchPrices { home, draw, away }),
        _ => None,
    }
}

/// The first string of a list.
pub open spec fn first_text(strings: Seq<Seq<char>>) -> Option<Seq<char>> {
    if strings.len() > 0 {
        Some(strings[0])
    } else {
        None
    }
}

/// The text of the price of the first outcome in a list of prices.
pub fn first_price<F>(v: Option<&Json<F>>) -> (r: Option<String>)
    ensures
        optional_text(r) == first_text(strings_of(optional_model(v))),
{
    let prices = parse_str_array(v);
    if prices.len() > 0 {
        Some(prices[0].clone())
    } else {
        None
    }
}

/// The market of a match that an entry of an event gives: one with a question.
pub open spec fn leg_of<F>(market: JsonView<F>) -> Option<LegView> {
    match market.field("question"@) {
        Some(question) => match question.text() {
            Some(q) => Some(
                (lowercase(q), first_text(strings_of(market.field("outcomePrices"@)))),
            ),
            None => None,
        },
        None => None,
    }
}

/// The slug that an event gives, where it is that of a World Cup match.
pub open spec fn match_slug_of<F>(event: JsonView<F>) -> Option<Seq<char>> {
    match event.field("slug"@) {
        Some(slug) => match slug.text() {
            Some(s) if "fifwc-"@.is_prefix_of(s) => Some(s),
            _ => None,
        },
        None => None,
    }
}

/// The slug of the first World Cup match that a search found.
pub open spec fn slug_in<F>(reply: Result<JsonView<F>, Seq<char>>) -> Option<Seq<char>> {
    match reply {
        Ok(answer) => match answer.field("events"@) {
            Some(events) => match events.items() {
                Some(a) => first_present(a.map_values(|e: JsonView<F>| match_slug_of(e))),
                None => None,
            },
            None => None,
        },
        Err(_) => None,
    }
}

/// Whether an event is settled.
pub open spec fn is_closed<F>(event: JsonView<F>) -> bool {
    match event.field("closed"@) {
        Some(c) => c.boolean() == Some(true),
        None => false,
    }
}

/// The markets of an event; those without a question are passed over.
pub open spec fn event_legs<F>(event: JsonView<F>) -> Option<Seq<LegView>> {
    match event.field("markets"@) {
        Some(markets) => match markets.items() {
            Some(a) => Some(present(a.map_values(|m: JsonView<F>| leg_of(m)))),
            None => None,
        },
        None => None,
    }
}

/// The prices that an answer about a match gives: those of its first event,
/// unless that is settled.
pub open spec fn prices_in<F>(
    reply: Result<JsonView<F>, Seq<char>>,
    home: Seq<char>,
    away: Seq<char>,
) -> Option<MatchPricesView> {
    match reply {
        Ok(answer) => match answer.items() {
            Some(a) if a.len() > 0 && !is_closed(a[0]) => match event_legs(a[0]) {
                Some(legs) => three_prices(legs, lowercase(home), lowercase(away)),
                None => None,
            },
            _ => None,
        },
        Err(_) => None,
    }
}

fn read_leg<F>(market: &Json<F>) -> (r: Option<Leg>)
    ensures
        match r {
            Some(l) => leg_of(market@) == Some(l@),
            None => leg_of(market@) is None,
        },
{
    match market.get("question") {
        Some(question) => match question.as_str() {
            Some(q) => Some(
                Leg {
                    question: q.to_lowercase(),
                    price: first_price(market.get("outcomePrices")),
                },
            ),
            None => None,
        },
        None => None,
    }
}

fn read_legs<F>(event: &Json<F>) -> (r: Option<Vec<Leg>>)
    ensures
        match r {
            Some(l) => event_legs(event@) == Some(legs_of(l@)),
            None => event_legs(event@) is None,
        },
{
    let a = match event.get("markets") {
        Some(markets) => match markets.as_array() {
            Some(a) => a,
            None => {
                return None;
            },
        },
        None => {
            return None;
        },
    };
    let ghost found = models(a@).map_values(|m: JsonView<F>| leg_of(m));
    let mut out: Vec<Leg> = Vec::new();
    let mut i: usize = 0;
    while i < a.len()
        invariant
            0 <= i <= a@.len(),
            found.len() == a@.len(),
            forall|k: int| 0 <= k < a@.len() ==> #[trigger] found[k] == leg_of(a@[k]@),
            event_legs(event@) == Some(present(found)),
            legs_of(out@) == present(found.take(i as int)),
        decreases a@.len() - i,
    {
        assert(found.take(i + 1).drop_last() =~= found.take(i as int));
        match read_leg(&a[i]) {
            Some(l) => {
                out.push(l);
            },
            None => {},
        }
        i = i + 1;
    }
    assert(found.take(i as int) =~= found);
    Some(out)
}

fn read_slug<F>(event: &Json<F>) -> (r: Option<String>)
    ensures
        optional_text(r) == match_slug_of(event@),
{
    match event.get("slug") {
        Some(slug) => match slug.as_str() {
            Some(s) => {
                if starts_with(s, "fifwc-") {
                    Some(s.to_owned())
                } else {
                    None
                }
            },
            None => None,
        },
        None => None,
    }
}

/// The slug of the World Cup match that a search found.
pub fn match_slug<F>(reply: &Result<Json<F>, String>) -> (r: Option<String>)
    ensures
        optional_text(r) == slug_in(reply_view(*reply)),
{
    let a = match reply {
        Ok(answer) => match answer.get("events") {
            Some(events) => match events.as_array() {
                Some(a) => a,
                None => {
                    return None;
                },
            },
            None => {
                return None;
            },
        },
        Err(_) => {
            return None;
        },
    };
    let ghost found = models(a@).map_values(|e: JsonView<F>| match_slug_of(e));
    let mut i: usize = 0;
    assert(found.skip(0) =~= found);
    while i < a.len()
        invariant
            0 <= i <= a@.len(),
            found.len() == a@.len(),
            forall|k: int| 0 <= k < a@.len() ==> #[trigger] found[k] == match_slug_of(a@[k]@),
            slug_in(reply_view(*reply)) == first_present(found),
            first_present(found) == first_present(found.skip(i as int)),
        decreases a@.len() - i,
    {
        assert(found.skip(i as int).drop_first() =~= found.skip(i + 1));
        let r = read_slug(&a[i]);
        if r.is_some() {
            return r;
        }
        i = i + 1;
    }
    None
}

/// The texts of the prices of the three endings, from the reply to the request
/// for the event of a match; nothing where the event is settled or does not give
/// all three.
pub fn match_prices<F>(reply: &Result<Json<F>, String>, home: &str, away: &str) -> (r: Option<
    MatchPrices,
>)
    ensures
        match r {
            Some(p) => prices_in(reply_view(*reply), home@, away@) == Some(p@),
            None => prices_in(reply_view(*reply), home@, away@) is None,
        },
{
    let a = match reply {
        Ok(answer) => match answer.as_array() {
            Some(a) => a,
            None => {
                return None;
            },
        },
        Err(_) => {
            return None;
        },
    };
    if a.len() == 0 {
        return None;
    }
    let event = &a[0];
    match event.get("closed") {
        Some(c) => match c.as_bool() {
            Some(true) => {
                return None;
            },
            _ => {},
        },
        None => {},
    }
    match read_legs(event) {
        Some(legs) => price_endings(
            legs,
            home.to_lowercase().as_str(),
            away.to_lowercase().as_str(),
        ),
        None => None,
    }
}

/// What to do next on the way to the prices of a match.
#[derive(Debug, PartialEq)]
pub enum MatchStep {
    /// Send this request; its reply comes next.
    Fetch(Request),
    /// These are the prices, if there are any.
    Done(Option<MatchPrices>),
}

/// What to do next on the way to the prices of a match.
pub enum MatchStepView {
    Fetch(RequestView),
    Done(Option<MatchPricesView>),
}

impl View for MatchStep {
    type V = MatchStepView;

    open spec fn view(&self) -> MatchStepView {
        match self {
            MatchStep::Fetch(r) => MatchStepView::Fetch(r@),
            MatchStep::Done(p) => MatchStepView::Done(
                match p {
                    Some(p) => Some(p@),
                    None => None,
                },
            ),
        }
    }
}

/// The next step to the prices of a match, once `replies` have come: a search
/// first, then the event that it found.
pub open spec fn match_step<F>(
    home: Seq<char>,
    away: Seq<char>,
    replies: Seq<Result<JsonView<F>, Seq<char>>>,
) -> MatchStepView {
    if replies.len() == 0 {
        MatchStepView::Fetch(search_request(home, away))
    } else {
        match slug_in(replies[0]) {
            None => MatchStepView::Done(None),
            Some(slug) => if replies.len() == 1 {
                MatchStepView::Fetch(event_request(slug))
            } else {
                MatchStepView::Done(prices_in(replies[1], home, away))
            },
        }
    }
}

/// The live prices of the three endings of a World Cup match. `replies` are the
/// replies to the requests asked for so far, in order; start with none.
pub fn match_market<F>(home: &str, away: &str, replies: &Vec<Result<Json<F>, String>>) -> (r:
    MatchStep)
    ensures
        r@ == match_step(home@, away@, reply_views(replies@)),
{
    if replies.len() == 0 {
        return MatchStep::Fetch(match_search(home, away));
    }
    let slug = match match_slug(&replies[0]) {
        Some(s) => s,
        None => {
            return MatchStep::Done(None);
        },
    };
    if replies.len() == 1 {
        return MatchStep::Fetch(match_event(slug.as_str()));
    }
    MatchStep::Done(match_prices(&replies[1], home, away))
}

/// Two replies are all that the prices of a match wait for, whatever they hold.
pub proof fn law_match_needs_two_replies<F>(
    home: Seq<char>,
    away: Seq<char>,
    replies: Seq<Result<JsonView<F>, Seq<char>>>,
)
    requires
        replies.len() >= 2,
    ensures
        match_step(home, away, replies) is Done,
{
}

/// A settled match has no prices.
pub proof fn law_settled_match_unpriced<F>(
    events: Seq<JsonView<F>>,
    home: Seq<char>,
    away: Seq<char>,
)
    requires
        events.len() > 0,
        is_closed(events[0]),
    ensures
        prices_in(Ok(JsonView::Array(events)), home, away) is None,
{
}

/// A match whose markets name one of the teams nowhere has no prices.
pub proof fn law_unnamed_team_unpriced(legs: Seq<LegView>, home: Seq<char>, away: Seq<char>)
    requires
        (forall|i: int| 0 <= i < legs.len() ==> !occurs_in(home, (#[trigger] legs[i]).0)) || (
        forall|i: int| 0 <= i < legs.len() ==> !occurs_in(away, (#[trigger] legs[i]).0)),
    ensures
        three_prices(legs, home, away) is None,
    decreases legs.len(),
{
    if forall|i: int| 0 <= i < legs.len() ==> !occurs_in(home, (#[trigger] legs[i]).0) {
        lemma_unasked(legs, Ending::Home, home, away);
    } else {
        lemma_unasked(legs, Ending::Away, home, away);
    }
}

proof fn lemma_unasked(legs: Seq<LegView>, ending: Ending, home: Seq<char>, away: Seq<char>)
    requires
        forall|i: int|
            0 <= i < legs.len() ==> asked((#[trigger] legs[i]).0, home, away) != Some(ending),
    ensures
        price_for(legs, ending, home, away) is None,
    decreases legs.len(),
{
    if legs.len() > 0 {
        lemma_unasked(legs.drop_last(), ending, home, away);
    }
}

/// Of two names of which one occurs, one occurs other than inside the other.
proof fn lemma_one_stands_outside(a: Seq<char>, b: Seq<char>, question: Seq<char>)
    requires
        occurs_in(a, question),
    ensures
        occurs_outside(a, b, question) || occurs_outside(b, a, question),
{
    let i = choose|i: int| occurs_at(a, question, i);
    if is_inside(b, question, i, a.len()) {
        let j = choose|j: int|
            #[trigger] occurs_at(b, question, j) && j <= i && i + a.len() <= j + b.len();
        assert(!is_inside(a, question, j, b.len()));
    }
}

/// The prices of a match do not depend on which team is named first, where no
/// question about a win names both teams, each other than inside the other's name.
pub proof fn law_prices_either_way(legs: Seq<LegView>, home: Seq<char>, away: Seq<char>)
    requires
        forall|i: int|
            0 <= i < legs.len() && occurs_outside(home, away, (#[trigger] legs[i]).0)
                && occurs_outside(away, home, legs[i].0) ==> occurs_in("draw"@, legs[i].0),
    ensures
        price_for(legs, Ending::Home, home, away) == price_for(legs, Ending::Away, away, home),
        price_for(legs, Ending::Draw, home, away) == price_for(legs, Ending::Draw, away, home),
        price_for(legs, Ending::Away, home, away) == price_for(legs, Ending::Home, away, home),
    decreases legs.len(),
{
    if legs.len() > 0 {
        let question = legs.last().0;
        if occurs_in(home, question) {
            lemma_one_stands_outside(home, away, question);
        }
        if occurs_in(away, question) {
            lemma_one_stands_outside(away, home, question);
        }
        law_prices_either_way(legs.drop_last(), home, away);
    }
}

/// A question that names one team, and the other at most inside that name, asks
/// after the team it names.
pub proof fn law_longer_name_is_meant(question: Seq<char>, named: Seq<char>, other: Seq<char>)
    requires
        occurs_in(named, question),
        !occurs_outside(other, named, question),
        !occurs_in("draw"@, question),
    ensures
        asked(question, named, other) == Some(Ending::Home),
        asked(question, other, named) == Some(Ending::Away),
{
    lemma_one_stands_outside(named, other, question);
}

proof fn lemma_asked_is_priced(
    legs: Seq<LegView>,
    ending: Ending,
    home: Seq<char>,
    away: Seq<char>,
    i: int,
)
    requires
        0 <= i < legs.len(),
        asked(legs[i].0, home, away) == Some(ending),
        forall|k: int| 0 <= k < legs.len() ==> (#[trigger] legs[k]).1 is Some,
    ensures
        price_for(legs, ending, home, away) is Some,
    decreases legs.len(),
{
    if asked(legs.last().0, home, away) != Some(ending) {
        lemma_asked_is_priced(legs.drop_last(), ending, home, away, i);
    }
}

/// A match has prices where all of its markets have one and each of the three
/// endings is asked after.
pub proof fn law_asked_endings_are_priced(
    legs: Seq<LegView>,
    home: Seq<char>,
    away: Seq<char>,
    h: int,
    d: int,
    a: int,
)
    requires
        0 <= h < legs.len(),
        0 <= d < legs.len(),
        0 <= a < legs.len(),
        asked(legs[h].0, home, away) == Some(Ending::Home),
        asked(legs[d].0, home, away) == Some(Ending::Draw),
        asked(legs[a].0, home, away) == Some(Ending::Away),
        forall|k: int| 0 <= k < legs.len() ==> (#[trigger] legs[k]).1 is Some,
    ensures
        three_prices(legs, home, away) is Some,
{
    lemma_asked_is_priced(legs, Ending::Home, home, away, h);
    lemma_asked_is_priced(legs, Ending::Draw, home, away, d);
    lemma_asked_is_priced(legs, Ending::Away, home, away, a);
}

/// Two spellings of an ASCII outcome that differ in the case of letters have the
/// same price, as has one with white space around it.
pub proof fn law_outcome_case_and_space_ignored<F>(
    quotes: Seq<QuoteView<F>>,
    outcome: Seq<char>,
    spelling: Seq<char>,
    left: Seq<char>,
    right: Seq<char>,
)
    requires
        is_ascii_chars(outcome),
        is_ascii_chars(spelling),
        outcome.map_values(|c: char| ascii_lower(c)) == spelling.map_values(
            |c: char| ascii_lower(c),
        ),
        is_blank(left),
        is_blank(right),
    ensures
        price_under(quotes, normalized(left + spelling + right)) == price_under(
            quotes,
            normalized(outcome),
        ),
{
    law_ascii_case_ignored(outcome, spelling);
    law_outer_space_ignored(left, spelling, right);
}

/// Gamma's lists are read alike as arrays and as texts: whatever the strings hold,
/// both give these strings in order.
pub proof fn law_text_or_array<F>(strings: Seq<Seq<char>>, gap: Seq<char>)
    requires
        is_gap(gap),
    ensures
        strings_of(Some(JsonView::<F>::Text(array_text(strings, gap)))) == strings,
        strings_of(
            Some(JsonView::<F>::Array(strings.map_values(|s: Seq<char>| JsonView::<F>::Text(s)))),
        ) == strings,
{
    law_written_strings_read_back(strings, gap);
    assert(strings_of(
        Some(JsonView::<F>::Array(strings.map_values(|s: Seq<char>| JsonView::<F>::Text(s)))),
    ) =~= strings);
}

/// A list that is an array has a string for each item, the item's own or an empty
/// one; a list that is a text has the strings of the array that the text is; any
/// other has none.
pub proof fn law_list_holds<F>(v: Option<JsonView<F>>, decoded: Option<Seq<Seq<char>>>)
    ensures
        match v {
            Some(JsonView::Array(a)) => {
                &&& listed(v, decoded).len() == a.len()
                &&& forall|i: int|
                    0 <= i < a.len() ==> #[trigger] listed(v, decoded)[i] == match a[i] {
                        JsonView::Text(s) => s,
                        _ => Seq::empty(),
                    }
                &&& strings_of(v) == listed(v, decoded)
            },
            Some(JsonView::Text(s)) => {
                &&& decoded matches Some(strings) ==> listed(v, decoded) == strings
                &&& decoded is None ==> listed(v, decoded).len() == 0
                &&& array_strings(s) matches Some(strings) ==> strings_of(v) == strings
                &&& array_strings(s) is None ==> strings_of(v).len() == 0
            },
            _ => listed(v, decoded).len() == 0 && strings_of(v).len() == 0,
        },
{
    if let Some(JsonView::Array(a)) = v {
        assert(strings_of(v) =~= listed(v, decoded));
    }
}

/// Two sequences side by side are paired place by place, up to the end of the
/// shorter; so are outcomes and the numbers of their prices.
pub proof fn law_paired_place_by_place<A, B, F>(
    a: Seq<A>,
    b: Seq<B>,
    outcomes: Seq<(Seq<char>, Seq<char>)>,
    prices: Seq<Option<F>>,
)
    ensures
        a.len() <= b.len() ==> side_by_side(a, b).len() == a.len(),
        b.len() <= a.len() ==> side_by_side(a, b).len() == b.len(),
        forall|i: int|
            0 <= i < a.len() && i < b.len() ==> #[trigger] side_by_side(a, b)[i] == (a[i], b[i]),
        outcomes.len() <= prices.len() ==> quoted(outcomes, prices).len() == outcomes.len(),
        prices.len() <= outcomes.len() ==> quoted(outcomes, prices).len() == prices.len(),
        forall|i: int|
            0 <= i < outcomes.len() && i < prices.len() ==> #[trigger] quoted(outcomes, prices)[i]
                == (outcomes[i].0, prices[i]),
{
}

/// A reply gives the market that stands first in its array: the slug that was asked
/// for, the question as it is, each outcome with the price at its own place, and
/// the ids of the tokens.
pub proof fn law_first_market_is_given<F>(slug: Seq<char>, markets: Seq<JsonView<F>>)
    requires
        markets.len() > 0,
    ensures
        market_in(slug, Ok(JsonView::Array(markets))) matches Ok(m) && {
            let outcomes = strings_of(markets[0].field("outcomes"@));
            let prices = strings_of(markets[0].field("outcomePrices"@));
            &&& m.slug == slug
            &&& markets[0].field("question"@) matches Some(q) ==> m.question == q
            &&& markets[0].field("question"@) is None ==> m.question is Null
            &&& outcomes.len() <= prices.len() ==> m.outcomes.len() == outcomes.len()
            &&& prices.len() <= outcomes.len() ==> m.outcomes.len() == prices.len()
            &&& forall|i: int|
                0 <= i < m.outcomes.len() ==> #[trigger] m.outcomes[i] == (outcomes[i], prices[i])
            &&& m.token_ids == strings_of(markets[0].field("clobTokenIds"@))
        },
{
}

/// A failure is handed on as it is; an answer that is no array, or an empty one, is
/// reported as no market for the slug.
pub proof fn law_no_market_is_reported<F>(
    slug: Seq<char>,
    error: Seq<char>,
    answer: JsonView<F>,
)
    requires
        answer is Array ==> answer->Array_0.len() == 0,
    ensures
        market_in::<F>(slug, Err(error)) == Err::<MarketTextView<F>, Seq<char>>(error),
        market_in(slug, Ok(answer)) == Err::<MarketTextView<F>, Seq<char>>(
            "[goal-digger] no Polymarket market for slug '"@ + slug + "'"@,
        ),
{
}

proof fn lemma_quote_at<F>(quotes: Seq<QuoteView<F>>, key: Seq<char>, i: int)
    requires
        0 <= i <= quotes.len(),
        i < quotes.len() ==> normalized(quotes[i].0) == key,
        forall|j: int| 0 <= j < i ==> normalized((#[trigger] quotes[j]).0) != key,
    ensures
        price_under(quotes, key) == if i < quotes.len() {
            quotes[i].1
        } else {
            None
        },
    decreases quotes.len(),
{
    if i > 0 {
        let rest = quotes.drop_first();
        assert(normalized(quotes[0].0) != key);
        assert forall|j: int| 0 <= j < i - 1 implies normalized((#[trigger] rest[j]).0) != key by {
            assert(rest[j] == quotes[j + 1]);
        }
        lemma_quote_at(rest, key, i - 1);
    }
}

/// The price of an outcome is that of the first quote whose outcome has the same
/// normal form, wherever it stands; there is none only where no quote has the form
/// or the first that has it is without a price.
pub proof fn law_first_quote_prices<F>(quotes: Seq<QuoteView<F>>, outcome: Seq<char>)
    ensures
        forall|i: int|
            0 <= i < quotes.len() && normalized((#[trigger] quotes[i]).0) == normalized(outcome)
                && (forall|j: int|
                0 <= j < i ==> normalized((#[trigger] quotes[j]).0) != normalized(outcome))
                ==> price_under(quotes, normalized(outcome)) == quotes[i].1,
        (forall|i: int|
            0 <= i < quotes.len() ==> normalized((#[trigger] quotes[i]).0) != normalized(outcome))
            ==> price_under(quotes, normalized(outcome)) is None,
        no_outcome(outcome) == "[goal-digger] outcome '"@ + outcome + "' not found in market"@,
{
    let key = normalized(outcome);
    assert forall|i: int|
        0 <= i < quotes.len() && normalized((#[trigger] quotes[i]).0) == key && (forall|j: int|
            0 <= j < i ==> normalized((#[trigger] quotes[j]).0) != key) implies price_under(
        quotes,
        key,
    ) == quotes[i].1 by {
        lemma_quote_at(quotes, key, i);
    }
    if forall|i: int| 0 <= i < quotes.len() ==> normalized((#[trigger] quotes[i]).0) != key {
        lemma_quote_at(quotes, key, quotes.len() as int);
    }
}

/// Every outcome of a market that has a price is priced by its own name, unless an
/// earlier outcome has the same normal form.
pub proof fn law_every_outcome_is_priced<F>(quotes: Seq<QuoteView<F>>, i: int, price: F)
    requires
        0 <= i < quotes.len(),
        quotes[i].1 == Some(price),
        forall|j: int|
            0 <= j < i ==> normalized((#[trigger] quotes[j]).0) != normalized(quotes[i].0),
    ensures
        price_under(quotes, normalized(quotes[i].0)) == Some(price),
{
    law_first_quote_prices(quotes, quotes[i].0);
}

/// A question that speaks of a draw asks after one; else one that names the home
/// team, other than inside the away team's name, asks after its win; else one that
/// names the away team after that team's; any other asks after nothing.
pub proof fn law_what_is_asked(question: Seq<char>, home: Seq<char>, away: Seq<char>)
    ensures
        asked(question, home, away) == Some(Ending::Draw) <==> occurs_in("draw"@, question),
        asked(question, home, away) == Some(Ending::Home) <==> !occurs_in("draw"@, question)
            && occurs_outside(home, away, question),
        asked(question, home, away) == Some(Ending::Away) <==> !occurs_in("draw"@, question)
            && !occurs_outside(home, away, question) && occurs_in(away, question),
{
}

proof fn lemma_leg_at(
    legs: Seq<LegView>,
    ending: Ending,
    home: Seq<char>,
    away: Seq<char>,
    i: int,
)
    requires
        0 <= i < legs.len(),
        asked(legs[i].0, home, away) == Some(ending),
        forall|j: int|
            i < j < legs.len() ==> asked((#[trigger] legs[j]).0, home, away) != Some(ending),
    ensures
        price_for(legs, ending, home, away) == legs[i].1,
    decreases legs.len(),
{
    if i < legs.len() - 1 {
        let head = legs.drop_last();
        assert(asked(legs[legs.len() - 1].0, home, away) != Some(ending));
        assert(forall|j: int| 0 <= j < head.len() ==> #[trigger] head[j] == legs[j]);
        lemma_leg_at(head, ending, home, away, i);
    }
}

/// The price of an ending is that of the last market that asks after it; there is
/// none where no market does or the last that does is without a price.
pub proof fn law_last_market_prices(
    legs: Seq<LegView>,
    ending: Ending,
    home: Seq<char>,
    away: Seq<char>,
)
    ensures
        forall|i: int|
            0 <= i < legs.len() && asked((#[trigger] legs[i]).0, home, away) == Some(ending) && (
            forall|j: int|
                i < j < legs.len() ==> asked((#[trigger] legs[j]).0, home, away) != Some(ending))
                ==> price_for(legs, ending, home, away) == legs[i].1,
        (forall|i: int|
            0 <= i < legs.len() ==> asked((#[trigger] legs[i]).0, home, away) != Some(ending))
            ==> price_for(legs, ending, home, away) is None,
{
    assert forall|i: int|
        0 <= i < legs.len() && asked((#[trigger] legs[i]).0, home, away) == Some(ending) && (
        forall|j: int|
            i < j < legs.len() ==> asked((#[trigger] legs[j]).0, home, away) != Some(
                ending,
            )) implies price_for(legs, ending, home, away) == legs[i].1 by {
        lemma_leg_at(legs, ending, home, away, i);
    }
    if forall|i: int|
        0 <= i < legs.len() ==> asked((#[trigger] legs[i]).0, home, away) != Some(ending) {
        lemma_unasked(legs, ending, home, away);
    }
}

/// A match has prices exactly where each of the three endings has one, and each
/// price stands under its own ending.
pub proof fn law_three_endings_priced(
    legs: Seq<LegView>,
    home: Seq<char>,
    away: Seq<char>,
    p: MatchPrices,
)
    ensures
        three_prices(legs, home, away) == Some(p@) ==> {
            &&& price_for(legs, Ending::Home, home, away) == Some(p.home@)
            &&& price_for(legs, Ending::Draw, home, away) == Some(p.draw@)
            &&& price_for(legs, Ending::Away, home, away) == Some(p.away@)
        },
        three_prices(legs, home, away) is Some <==> price_for(legs, Ending::Home, home, away)
            is Some && price_for(legs, Ending::Draw, home, away) is Some && price_for(
            legs,
            Ending::Away,
            home,
            away,
        ) is Some,
{
}

/// Whether a market has a question that, in lower case, holds `word`.
pub open spec fn question_holds<F>(market: JsonView<F>, word: Seq<char>) -> bool {
    match market.field("question"@) {
        Some(JsonView::Text(q)) => occurs_in(word, lowercase(q)),
        _ => false,
    }
}

/// Whether `leg` has the question of a market in lower case and the first of its
/// prices, where it has one.
pub open spec fn is_leg_of<F>(market: JsonView<F>, leg: LegView) -> bool {
    let prices = strings_of(market.field("outcomePrices"@));
    match market.field("question"@) {
        Some(JsonView::Text(q)) => {
            &&& leg.0 == lowercase(q)
            &&& prices.len() > 0 ==> leg.1 == Some(prices[0])
            &&& prices.len() == 0 ==> leg.1 is None
        },
        _ => false,
    }
}

/// The markets of an event are all that have a question, in their order.
pub proof fn law_every_market_is_read<F>(event: JsonView<F>)
    ensures
        match event.field("markets"@) {
            Some(JsonView::Array(markets)) => event_legs(event) matches Some(legs)
                && is_all_given(markets, |m: JsonView<F>, leg: LegView| is_leg_of(m, leg), legs),
            _ => event_legs(event) is None,
        },
{
    if let Some(JsonView::Array(markets)) = event.field("markets"@) {
        law_present_is_all_given(
            markets,
            |m: JsonView<F>| leg_of(m),
            |m: JsonView<F>, leg: LegView| is_leg_of(m, leg),
        );
    }
}

/// The event of a match is the first one found whose slug begins as those of World
/// Cup matches do; there is none where no event has such a slug.
pub proof fn law_first_match_is_found<F>(answer: JsonView<F>, error: Seq<char>)
    ensures
        slug_in::<F>(Err(error)) is None,
        match answer.field("events"@) {
            Some(JsonView::Array(events)) => is_first_given(
                events,
                |e: JsonView<F>, slug: Seq<char>|
                    e.field("slug"@) == Some(JsonView::<F>::Text(slug)) && "fifwc-"@.is_prefix_of(
                        slug,
                    ),
                slug_in(Ok(answer)),
            ),
            _ => slug_in(Ok(answer)) is None,
        },
{
    if let Some(JsonView::Array(events)) = answer.field("events"@) {
        law_first_present_is_first_given(
            events,
            |e: JsonView<F>| match_slug_of(e),
            |e: JsonView<F>, slug: Seq<char>|
                e.field("slug"@) == Some(JsonView::<F>::Text(slug)) && "fifwc-"@.is_prefix_of(
                    slug,
                ),
        );
    }
}

/// The prices of a match are those of the first event of the answer, looked for by
/// the given names in lower case; there are none where the answer is a failure, no
/// array or an empty one, or where the event is settled or has no markets.
pub proof fn law_prices_of_the_first_event<F>(
    reply: Result<JsonView<F>, Seq<char>>,
    home: Seq<char>,
    away: Seq<char>,
)
    ensures
        match reply {
            Ok(JsonView::Array(events)) => {
                let settled = events[0].field("closed"@) == Some(JsonView::<F>::Bool(true));
                &&& events.len() == 0 || settled ==> prices_in(reply, home, away) is None
                &&& events.len() > 0 && !settled ==> match event_legs(events[0]) {
                    Some(legs) => prices_in(reply, home, away) == three_prices(
                        legs,
                        lowercase(home),
                        lowercase(away),
                    ),
                    None => prices_in(reply, home, away) is None,
                }
            },
            _ => prices_in(reply, home, away) is None,
        },
{
}

proof fn lemma_last_asked(
    found: Seq<Option<LegView>>,
    ending: Ending,
    home: Seq<char>,
    away: Seq<char>,
    i: int,
)
    requires
        0 <= i < found.len(),
        found[i] is Some,
        asked((found[i]->0).0, home, away) == Some(ending),
        forall|k: int|
            i < k < found.len() && (#[trigger] found[k]) is Some ==> asked(
                (found[k]->0).0,
                home,
                away,
            ) != Some(ending),
    ensures
        price_for(present(found), ending, home, away) == (found[i]->0).1,
    decreases found.len(),
{
    let head = found.drop_last();
    let n = found.len() - 1;
    if let Some(leg) = found[n] {
        assert(present(found).drop_last() =~= present(head));
        assert(present(found).last() == leg);
    }
    if i < n {
        assert(forall|k: int| 0 <= k < n ==> #[trigger] head[k] == found[k]);
        lemma_last_asked(head, ending, home, away, i);
    }
}

/// Where an open event has a market whose question names the given home team and
/// neither the away team nor a draw, one that names the away team likewise, and one
/// that speaks of a draw, each with a price and none followed by another such, the
/// prices of the match are the first prices of these three. The names count in
/// lower case and otherwise as they were given.
pub proof fn law_match_is_priced<F>(
    events: Seq<JsonView<F>>,
    markets: Seq<JsonView<F>>,
    home: Seq<char>,
    away: Seq<char>,
    h: int,
    d: int,
    a: int,
)
    requires
        events.len() > 0,
        events[0].field("closed"@) != Some(JsonView::<F>::Bool(true)),
        events[0].field("markets"@) == Some(JsonView::Array(markets)),
        0 <= h < markets.len(),
        0 <= d < markets.len(),
        0 <= a < markets.len(),
        question_holds(markets[h], lowercase(home)),
        !question_holds(markets[h], "draw"@),
        !question_holds(markets[h], lowercase(away)),
        question_holds(markets[d], "draw"@),
        question_holds(markets[a], lowercase(away)),
        !question_holds(markets[a], "draw"@),
        !question_holds(markets[a], lowercase(home)),
        forall|k: int|
            h < k < markets.len() && question_holds(#[trigger] markets[k], lowercase(home))
                ==> question_holds(markets[k], "draw"@),
        forall|k: int|
            d < k < markets.len() ==> !question_holds(#[trigger] markets[k], "draw"@),
        forall|k: int|
            a < k < markets.len() && question_holds(#[trigger] markets[k], lowercase(away))
                ==> question_holds(markets[k], "draw"@),
        strings_of(markets[h].field("outcomePrices"@)).len() > 0,
        strings_of(markets[d].field("outcomePrices"@)).len() > 0,
        strings_of(markets[a].field("outcomePrices"@)).len() > 0,
    ensures
        prices_in(Ok(JsonView::Array(events)), home, away) matches Some(p) && {
            &&& p.home == strings_of(markets[h].field("outcomePrices"@))[0]
            &&& p.draw == strings_of(markets[d].field("outcomePrices"@))[0]
            &&& p.away == strings_of(markets[a].field("outcomePrices"@))[0]
        },
{
    let found = markets.map_values(|m: JsonView<F>| leg_of(m));
    let (hl, al) = (lowercase(home), lowercase(away));
    assert forall|k: int| 0 <= k < markets.len() implies (match #[trigger] found[k] {
        Some(leg) => forall|word: Seq<char>| #[trigger]
            question_holds(markets[k], word) == occurs_in(word, leg.0),
        None => forall|word: Seq<char>| !#[trigger] question_holds(markets[k], word),
    }) by {}
    assert forall|k: int|
        0 <= k < markets.len() && (#[trigger] found[k]) is Some && occurs_outside(
            hl,
            al,
            (found[k]->0).0,
        ) implies question_holds(markets[k], hl) by {
        let q = (found[k]->0).0;
        let i = choose|i: int|
            #[trigger] occurs_at(hl, q, i) && !is_inside(al, q, i, hl.len());
        assert(occurs_at(hl, q, i));
    }
    assert(found[h] is Some && found[d] is Some && found[a] is Some);
    let q = (found[h]->0).0;
    let i = choose|i: int| occurs_at(hl, q, i);
    assert(!is_inside(al, q, i, hl.len())) by {
        assert(!occurs_in(al, q));
    }
    assert(occurs_outside(hl, al, q));
    assert forall|k: int| 0 <= k < markets.len() && (#[trigger] found[k]) is Some implies (asked(
        (found[k]->0).0,
        hl,
        al,
    ) == Some(Ending::Draw) <==> question_holds(markets[k], "draw"@)) by {}
    lemma_last_asked(found, Ending::Home, hl, al, h);
    lemma_last_asked(found, Ending::Draw, hl, al, d);
    lemma_last_asked(found, Ending::Away, hl, al, a);
}

/// What comes next on the way to the prices of a match: a search for the two names
/// as they were given, then the event that it found, whose reply is priced for
/// these names. Where the search finds no match, there are no prices.
pub proof fn law_steps_to_prices<F>(
    home: Seq<char>,
    away: Seq<char>,
    replies: Seq<Result<JsonView<F>, Seq<char>>>,
)
    ensures
        ({
            let step = match_step(home, away, replies);
            &&& replies.len() == 0 ==> step == MatchStepView::Fetch(search_request(home, away))
            &&& replies.len() > 0 && slug_in(replies[0]) is None ==> step == MatchStepView::Done(
                None,
            )
            &&& replies.len() == 1 && slug_in(replies[0]) is Some ==> step
                == MatchStepView::Fetch(event_request(slug_in(replies[0])->0))
            &&& replies.len() > 1 && slug_in(replies[0]) is Some ==> step == MatchStepView::Done(
                prices_in(replies[1], home, away),
            )
        }),
{
}

/// A market's report has its slug, its question, its outcomes one for one in their
/// order, and the ids of its tokens, each under its own heading.
pub proof fn law_market_report_has<F>(m: MarketView<F>)
    ensures
        market_json(m) matches JsonView::Object(fields) && fields.len() == 4,
        market_json(m).field("slug"@) == Some(JsonView::<F>::Text(m.slug)),
        market_json(m).field("question"@) == Some(m.question),
        market_json(m).field("outcomes"@) matches Some(JsonView::Array(rows)) && {
            &&& rows.len() == m.quotes.len()
            &&& forall|i: int| 0 <= i < rows.len() ==> #[trigger] rows[i] == quote_json(m.quotes[i])
        },
        market_json(m).field("clobTokenIds"@) matches Some(JsonView::Array(ids)) && {
            &&& ids.len() == m.token_ids.len()
            &&& forall|i: int|
                0 <= i < ids.len() ==> #[trigger] ids[i] == JsonView::<F>::Text(m.token_ids[i])
        },
{
    reveal_strlit("slug");
    reveal_strlit("question");
    reveal_strlit("outcomes");
    reveal_strlit("clobTokenIds");
    assert("slug"@[0] == 's' && "question"@[0] == 'q' && "outcomes"@[0] == 'o'
        && "clobTokenIds"@[0] == 'c');
    let f = market_json(m)->Object_0;
    assert(f.drop_first()[0] == f[1]);
    assert(f.drop_first().drop_first()[0] == f[2]);
    assert(f.drop_first().drop_first().drop_first()[0] == f[3]);
    reveal_with_fuel(field_of, 5);
}

/// The row of an outcome in a market's report has the outcome's own name and price;
/// a price that is no number is null.
pub proof fn law_quote_report_has<F>(q: Quote<F>)
    ensures
        quote_json(q@) matches JsonView::Object(fields) && fields.len() == 2,
        quote_json(q@).field("outcome"@) == Some(JsonView::<F>::Text(q.outcome@)),
        quote_json(q@).field("price"@) == Some(
            match q.price {
                Some(p) => JsonView::Float(p),
                None => JsonView::Null,
            },
        ),
{
    reveal_strlit("outcome");
    reveal_strlit("price");
    assert("outcome"@[0] == 'o' && "price"@[0] == 'p');
    let f = quote_json(q@)->Object_0;
    assert(f.drop_first()[0] == f[1]);
    reveal_with_fuel(field_of, 3);
}

/// What may be absent is absent where it is, and is else what it holds.
pub proof fn law_optional_holds<F>(v: Option<&Json<F>>, list: Option<Vec<String>>)
    ensures
        v matches Some(j) ==> optional_model(v) == Some(j@),
        v is None ==> optional_model(v) is None,
        list matches Some(l) ==> optional_texts(list) is Some && optional_texts(list)->0.len()
            == l@.len() && forall|i: int|
            0 <= i < l@.len() ==> #[trigger] optional_texts(list)->0[i] == l@[i]@,
        list is None ==> optional_texts(list) is None,
{
}

/// What a market holds is its own slug, question, outcomes, prices and tokens, in
/// their order.
pub proof fn law_market_holds<F>(t: MarketText<F>, m: Market<F>)
    ensures
        t@.slug == t.slug@,
        t@.question == t.question@,
        t@.outcomes.len() == t.outcomes@.len(),
        forall|i: int|
            0 <= i < t.outcomes@.len() ==> #[trigger] t@.outcomes[i] == (
                t.outcomes@[i].0@,
                t.outcomes@[i].1@,
            ),
        t@.token_ids.len() == t.token_ids@.len(),
        forall|i: int|
            0 <= i < t.token_ids@.len() ==> #[trigger] t@.token_ids[i] == t.token_ids@[i]@,
        m@.slug == m.slug@,
        m@.question == m.question@,
        m@.quotes.len() == m.quotes@.len(),
        forall|i: int|
            0 <= i < m.quotes@.len() ==> #[trigger] m@.quotes[i] == (
                m.quotes@[i].outcome@,
                m.quotes@[i].price,
            ),
        m@.token_ids.len() == m.token_ids@.len(),
        forall|i: int|
            0 <= i < m.token_ids@.len() ==> #[trigger] m@.token_ids[i] == m.token_ids@[i]@,
{
}

/// What the markets, the prices and the steps of a match hold are their own
/// questions, prices and requests, in their order.
pub proof fn law_match_holds(legs: Seq<Leg>, p: MatchPrices, step: MatchStep)
    ensures
        legs_of(legs).len() == legs.len(),
        forall|i: int|
            0 <= i < legs.len() ==> #[trigger] legs_of(legs)[i] == (
                legs[i].question@,
                match legs[i].price {
                    Some(price) => Some(price@),
                    None => None,
                },
            ),
        p@.home == p.home@,
        p@.draw == p.draw@,
        p@.away == p.away@,
        step@ == match step {
            MatchStep::Fetch(r) => MatchStepView::Fetch(r@),
            MatchStep::Done(None) => MatchStepView::Done(None),
            MatchStep::Done(Some(prices)) => MatchStepView::Done(Some(prices@)),
        },
{
}

} // verus!
