//! Replies kept for the lifetime of the process, which also freezes the data of
//! a run: a request that was answered once is not sent again.

use vstd::prelude::*;

use crate::feed::reply_view;
use crate::json::{Json, JsonView};
use crate::request::{
    af_get, call_for, key_in_use, no_key_message, ApiKey, HttpCall, Request,
    RequestView,
};
use crate::text::optional_text;

verus! {

/// The replies kept so far, by what was asked.
#[derive(Debug)]
pub struct ResponseCache<F> {
    entries: Vec<(Request, Json<F>)>,
}

/// The replies that `entries` hold; the later of two to one request counts.
pub open spec fn kept<F>(entries: Seq<(Request, Json<F>)>) -> Map<RequestView, JsonView<F>>
    decreases entries.len(),
{
    if entries.len() == 0 {
        Map::empty()
    } else {
        kept(entries.drop_last()).insert(entries.last().0@, entries.last().1@)
    }
}

impl<F> View for ResponseCache<F> {
    type V = Map<RequestView, JsonView<F>>;

    closed spec fn view(&self) -> Map<RequestView, JsonView<F>> {
        kept(self.entries@)
    }
}

/// What to do about a request.
#[derive(Debug, PartialEq)]
pub enum Lookup<F> {
    /// It was answered before, with this.
    Known(Json<F>),
    /// Send this.
    Send(HttpCall),
    /// It cannot be sent; this says why.
    Refused(String),
}

impl<F> ResponseCache<F> {
    /// A cache that holds nothing.
    pub fn new() -> (r: ResponseCache<F>)
        ensures
            r@ == Map::<RequestView, JsonView<F>>::empty(),
    {
        ResponseCache { entries: Vec::new() }
    }

    /// Keeps `reply` as the reply to `request`.
    pub fn insert(&mut self, request: Request, reply: Json<F>)
        ensures
            final(self)@ == old(self)@.insert(request@, reply@),
    {
        self.entries.push((request, reply));
        assert(self.entries@.drop_last() =~= old(self).entries@);
    }

    /// The reply to `request`, where one is kept.
    pub fn get(&self, request: &Request) -> (r: Option<&Json<F>>)
        ensures
            match r {
                Some(v) => self@.contains_key(request@) && self@[request@] == v@,
                None => !self@.contains_key(request@),
            },
    {
        let mut i: usize = self.entries.len();
        assert(self.entries@.take(i as int) =~= self.entries@);
        while i > 0
            invariant
                0 <= i <= self.entries@.len(),
                self@.contains_key(request@) == kept(self.entries@.take(i as int)).contains_key(
                    request@,
                ),
                self@[request@] == kept(self.entries@.take(i as int))[request@],
            decreases i,
        {
            assert(self.entries@.take(i as int).drop_last() =~= self.entries@.take(i - 1));
            i = i - 1;
            if self.entries[i].0.same(request) {
                return Some(&self.entries[i].1);
            }
        }
        None
    }
}

/// What to do about an API-FOOTBALL request: its kept reply, else the GET that
/// carries it out, else, where no key is known, the error.
pub fn af_cached<F: Copy>(
    cache: &ResponseCache<F>,
    keys: &ApiKey,
    environment: Option<String>,
    request: &Request,
) -> (r: Lookup<F>)
    ensures
        if cache@.contains_key(request@) {
            r matches Lookup::Known(v) && v@ == cache@[request@]
        } else {
            match key_in_use(keys@, optional_text(environment)) {
                Some(k) => r matches Lookup::Send(c) && c@ == call_for(request@, Some(k)),
                None => r matches Lookup::Refused(e) && e@ == no_key_message(),
            }
        },
{
    match cache.get(request) {
        Some(v) => {
            return Lookup::Known(v.copy());
        },
        None => {},
    }
    match af_get(keys, environment, request) {
        Ok(c) => Lookup::Send(c),
        Err(e) => Lookup::Refused(e),
    }
}

/// What to do about a Gamma request: its kept reply, else the GET that carries
/// it out.
pub fn gamma_get<F: Copy>(cache: &ResponseCache<F>, request: &Request) -> (r: Lookup<F>)
    ensures
        if cache@.contains_key(request@) {
            r matches Lookup::Known(v) && v@ == cache@[request@]
        } else {
            r matches Lookup::Send(c) && c@ == call_for(request@, None)
        },
{
    match cache.get(request) {
        Some(v) => Lookup::Known(v.copy()),
        None => Lookup::Send(request.call(None)),
    }
}

/// The replies kept after `reply` came to `request`: a failure is not kept.
pub open spec fn after_reply<F>(
    cache: Map<RequestView, JsonView<F>>,
    request: RequestView,
    reply: Result<JsonView<F>, Seq<char>>,
) -> Map<RequestView, JsonView<F>> {
    match reply {
        Ok(v) => cache.insert(request, v),
        Err(_) => cache,
    }
}

/// Keeps the reply to a request that was sent, unless it is a failure, and hands
/// it back.
pub fn keep_reply<F: Copy>(
    cache: &mut ResponseCache<F>,
    request: &Request,
    reply: Result<Json<F>, String>,
) -> (r: Result<Json<F>, String>)
    ensures
        reply_view(r) == reply_view(reply),
        final(cache)@ == after_reply(old(cache)@, request@, reply_view(reply)),
{
    match &reply {
        Ok(v) => {
            cache.insert(request.copy(), v.copy());
        },
        Err(_) => {},
    }
    reply
}

/// The replies kept after each of `replies` came to its request, in order.
pub open spec fn after_replies<F>(
    cache: Map<RequestView, JsonView<F>>,
    replies: Seq<(RequestView, Result<JsonView<F>, Seq<char>>)>,
) -> Map<RequestView, JsonView<F>>
    decreases replies.len(),
{
    if replies.len() == 0 {
        cache
    } else {
        after_reply(
            after_replies(cache, replies.drop_last()),
            replies.last().0,
            replies.last().1,
        )
    }
}

/// A request that was answered is answered the same from what was kept, whatever
/// replies come to other requests afterwards.
pub proof fn law_answered_once<F>(
    cache: Map<RequestView, JsonView<F>>,
    request: RequestView,
    value: JsonView<F>,
    replies: Seq<(RequestView, Result<JsonView<F>, Seq<char>>)>,
)
    requires
        forall|i: int| 0 <= i < replies.len() ==> (#[trigger] replies[i]).0 != request,
    ensures
        after_replies(after_reply(cache, request, Ok(value)), replies).contains_key(request),
        after_replies(after_reply(cache, request, Ok(value)), replies)[request] == value,
    decreases replies.len(),
{
    if replies.len() > 0 {
        law_answered_once(cache, request, value, replies.drop_last());
    }
}

/// A failed request leaves everything kept as it was, so that the next attempt
/// is sent again.
pub proof fn law_failure_not_kept<F>(
    cache: Map<RequestView, JsonView<F>>,
    request: RequestView,
    error: Seq<char>,
)
    ensures
        after_reply(cache, request, Err(error)) == cache,
{
}

/// A reply changes what is kept of its own request only: what is kept of any other
/// stays, and nothing is added of one of which nothing was kept.
pub proof fn law_other_replies_stay<F>(
    cache: Map<RequestView, JsonView<F>>,
    request: RequestView,
    reply: Result<JsonView<F>, Seq<char>>,
    other: RequestView,
)
    requires
        other != request,
    ensures
        after_reply(cache, request, reply).contains_key(other) == cache.contains_key(other),
        cache.contains_key(other) ==> after_reply(cache, request, reply)[other] == cache[other],
{
}

/// Of several answers to one request the last is the one that is kept.
pub proof fn law_last_answer_is_kept<F>(
    cache: Map<RequestView, JsonView<F>>,
    request: RequestView,
    earlier: Result<JsonView<F>, Seq<char>>,
    value: JsonView<F>,
)
    ensures
        ({
            let kept = after_reply(after_reply(cache, request, earlier), request, Ok(value));
            kept.contains_key(request) && kept[request] == value
        }),
{
}

} // verus!
