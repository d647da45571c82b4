//! JSON values as the rest of the library reads and writes them.
//!
//! `F` is the type of a number with a fraction. The library carries such
//! numbers and never computes with them.

use vstd::prelude::*;

use crate::text::same_text;

verus! {

/// A JSON value. The fields of an object stand in the order in which they are
/// walked; where a name occurs twice, the first field counts.
#[derive(Debug, PartialEq)]
pub enum Json<F> {
    Null,
    Bool(bool),
    /// An integer from 0 to `u64::MAX`.
    Unsigned(u64),
    /// A negative integer.
    Signed(i64),
    /// Any other number.
    Float(F),
    Text(String),
    Array(Vec<Json<F>>),
    Object(Vec<(String, Json<F>)>),
}

/// What a JSON value is, with its strings as sequences of characters.
pub enum JsonView<F> {
    Null,
    Bool(bool),
    Unsigned(u64),
    Signed(i64),
    Float(F),
    Text(Seq<char>),
    Array(Seq<JsonView<F>>),
    Object(Seq<(Seq<char>, JsonView<F>)>),
}

impl<F> Json<F> {
    pub open spec fn model(self) -> JsonView<F>
        decreases self,
    {
        match self {
            Json::Null => JsonView::Null,
            Json::Bool(b) => JsonView::Bool(b),
            Json::Unsigned(n) => JsonView::Unsigned(n),
            Json::Signed(n) => JsonView::Signed(n),
            Json::Float(x) => JsonView::Float(x),
            Json::Text(s) => JsonView::Text(s@),
            Json::Array(a) => JsonView::Array(
                Seq::new(
                    a@.len(),
                    |i: int|
                        if 0 <= i < a@.len() {
                            a@[i].model()
                        } else {
                            JsonView::Null
                        },
                ),
            ),
            Json::Object(o) => JsonView::Object(
                Seq::new(
                    o@.len(),
                    |i: int|
                        if 0 <= i < o@.len() {
                            (o@[i].0@, o@[i].1.model())
                        } else {
                            (Seq::empty(), JsonView::Null)
                        },
                ),
            ),
        }
    }
}

impl<F> View for Json<F> {
    type V = JsonView<F>;

    open spec fn view(&self) -> JsonView<F> {
        self.model()
    }
}

/// The value of the first of `fields` that is named `key`.
pub open spec fn field_of<F>(fields: Seq<(Seq<char>, JsonView<F>)>, key: Seq<char>) -> Option<
    JsonView<F>,
>
    decreases fields.len(),
{
    if fields.len() == 0 {
        None
    } else if fields[0].0 == key {
        Some(fields[0].1)
    } else {
        field_of(fields.drop_first(), key)
    }
}

impl<F> JsonView<F> {
    /// The field `key` of an object.
    pub open spec fn field(self, key: Seq<char>) -> Option<JsonView<F>> {
        match self {
            JsonView::Object(fields) => field_of(fields, key),
            _ => None,
        }
    }

    pub open spec fn items(self) -> Option<Seq<JsonView<F>>> {
        match self {
            JsonView::Array(a) => Some(a),
            _ => None,
        }
    }

    pub open spec fn text(self) -> Option<Seq<char>> {
        match self {
            JsonView::Text(s) => Some(s),
            _ => None,
        }
    }

    pub open spec fn unsigned(self) -> Option<u64> {
        match self {
            JsonView::Unsigned(n) => Some(n),
            _ => None,
        }
    }

    pub open spec fn boolean(self) -> Option<bool> {
        match self {
            JsonView::Bool(b) => Some(b),
            _ => None,
        }
    }
}

impl<F> Json<F> {
    /// The field `key` of an object; nothing of any other value.
    pub fn get(&self, key: &str) -> (r: Option<&Json<F>>)
        ensures
            match r {
                Some(v) => self@.field(key@) == Some(v@),
                None => self@.field(key@) is None,
            },
    {
        match self {
            Json::Object(o) => {
                let ghost fields = self@->Object_0;
                let mut i: usize = 0;
                assert(fields.skip(0) =~= fields);
                while i < o.len()
                    invariant
                        0 <= i <= o@.len(),
                        *self == Json::Object(*o),
                        fields == self@->Object_0,
                        field_of(fields, key@) == field_of(fields.skip(i as int), key@),
                    decreases o@.len() - i,
                {
                    if same_text(o[i].0.as_str(), key) {
                        return Some(&o[i].1);
                    }
                    assert(fields.skip(i as int).drop_first() =~= fields.skip(i + 1));
                    i = i + 1;
                }
                None
            },
            _ => None,
        }
    }

    /// The items of an array.
    pub fn as_array(&self) -> (r: Option<&Vec<Json<F>>>)
        ensures
            match r {
                Some(a) => *self == Json::Array(*a) && self@.items() == Some(models(a@)),
                None => self@.items() is None,
            },
    {
        match self {
            Json::Array(a) => {
                Some(a)
            },
            _ => None,
        }
    }

    pub fn as_str(&self) -> (r: Option<&str>)
        ensures
            match r {
                Some(s) => self@.text() == Some(s@),
                None => self@.text() is None,
            },
    {
        match self {
            Json::Text(s) => Some(s.as_str()),
            _ => None,
        }
    }

    pub fn as_u64(&self) -> (r: Option<u64>)
        ensures
            r == self@.unsigned(),
    {
        match self {
            Json::Unsigned(n) => Some(*n),
            _ => None,
        }
    }

    pub fn as_bool(&self) -> (r: Option<bool>)
        ensures
            r == self@.boolean(),
    {
        match self {
            Json::Bool(b) => Some(*b),
            _ => None,
        }
    }
}

/// What each of the values is.
pub open spec fn models<F>(values: Seq<Json<F>>) -> Seq<JsonView<F>> {
    values.map_values(|v: Json<F>| v@)
}

/// What each of the fields is.
pub open spec fn field_models<F>(fields: Seq<(String, Json<F>)>) -> Seq<(Seq<char>, JsonView<F>)> {
    fields.map_values(|f: (String, Json<F>)| (f.0@, f.1@))
}

impl<F> Json<F> {
    /// A JSON string.
    pub fn of_str(s: &str) -> (r: Json<F>)
        ensures
            r@ == JsonView::<F>::Text(s@),
    {
        Json::Text(s.to_owned())
    }

    /// A JSON array of the given items.
    pub fn array(items: Vec<Json<F>>) -> (r: Json<F>)
        ensures
            r@ == JsonView::<F>::Array(models(items@)),
    {
        let r = Json::Array(items);
        assert(r@->Array_0 =~= models(items@));
        r
    }

    /// A JSON object of the given fields.
    pub fn object(fields: Vec<(String, Json<F>)>) -> (r: Json<F>)
        ensures
            r@ == JsonView::<F>::Object(field_models(fields@)),
    {
        let r = Json::Object(fields);
        assert(r@->Object_0 =~= field_models(fields@));
        r
    }
}

impl<F: Copy> Json<F> {
    /// A value equal to this one.
    pub fn copy(&self) -> (r: Json<F>)
        ensures
            r@ == self@,
        decreases self,
    {
        match self {
            Json::Null => Json::Null,
            Json::Bool(b) => Json::Bool(*b),
            Json::Unsigned(n) => Json::Unsigned(*n),
            Json::Signed(n) => Json::Signed(*n),
            Json::Float(x) => Json::Float(*x),
            Json::Text(s) => Json::Text(s.clone()),
            Json::Array(a) => {
                let mut out: Vec<Json<F>> = Vec::new();
                let mut i: usize = 0;
                while i < a.len()
                    invariant
                        0 <= i <= a@.len(),
                        *self == Json::Array(*a),
                        models(out@) =~= models(a@).take(i as int),
                    decreases a@.len() - i,
                {
                    assert(decreases_to!(self => self->Array_0));
                    let ghost before = out@;
                    out.push(a[i].copy());
                    assert(models(out@) =~= models(before).push(models(a@)[i as int]));
                    i = i + 1;
                }
                assert(models(out@) =~= models(a@));
                assert(self@->Array_0 =~= models(a@));
                Json::array(out)
            },
            Json::Object(o) => {
                let mut out: Vec<(String, Json<F>)> = Vec::new();
                let mut i: usize = 0;
                while i < o.len()
                    invariant
                        0 <= i <= o@.len(),
                        *self == Json::Object(*o),
                        field_models(out@) =~= field_models(o@).take(i as int),
                    decreases o@.len() - i,
                {
                    assert(decreases_to!(self => self->Object_0));
                    let ghost before = out@;
                    out.push((o[i].0.clone(), o[i].1.copy()));
                    assert(field_models(out@) =~= field_models(before).push(
                        field_models(o@)[i as int],
                    ));
                    i = i + 1;
                }
                assert(field_models(out@) =~= field_models(o@));
                assert(self@->Object_0 =~= field_models(o@));
                Json::object(out)
            },
        }
    }
}

/// Adds the field `key` to `fields`.
pub fn add_field<F>(fields: &mut Vec<(String, Json<F>)>, key: &str, value: Json<F>)
    ensures
        field_models(final(fields)@) == field_models(old(fields)@).push((key@, value@)),
{
    fields.push((key.to_owned(), value));
}

/// The values that are there, in order.
pub open spec fn present<T>(s: Seq<Option<T>>) -> Seq<T>
    decreases s.len(),
{
    if s.len() == 0 {
        Seq::empty()
    } else {
        match s.last() {
            Some(v) => present(s.drop_last()).push(v),
            None => present(s.drop_last()),
        }
    }
}

/// The first value that is there.
pub open spec fn first_present<T>(s: Seq<Option<T>>) -> Option<T>
    decreases s.len(),
{
    if s.len() == 0 {
        None
    } else if s[0] is Some {
        s[0]
    } else {
        first_present(s.drop_first())
    }
}

/// The field `key` of an object is the first field of that name; there is none
/// where no field has the name.
pub proof fn law_first_field_counts<F>(fields: Seq<(Seq<char>, JsonView<F>)>, key: Seq<char>)
    ensures
        match JsonView::Object(fields).field(key) {
            Some(v) => exists|i: int|
                0 <= i < fields.len() && #[trigger] fields[i] == (key, v) && forall|j: int|
                    0 <= j < i ==> (#[trigger] fields[j]).0 != key,
            None => forall|i: int| 0 <= i < fields.len() ==> (#[trigger] fields[i]).0 != key,
        },
    decreases fields.len(),
{
    if fields.len() > 0 {
        let rest = fields.drop_first();
        if fields[0].0 == key {
            assert(fields[0] == (key, fields[0].1));
        } else {
            law_first_field_counts(rest, key);
            match JsonView::Object(rest).field(key) {
                Some(v) => {
                    let i = choose|i: int|
                        0 <= i < rest.len() && #[trigger] rest[i] == (key, v) && forall|j: int|
                            0 <= j < i ==> (#[trigger] rest[j]).0 != key;
                    assert(fields[i + 1] == (key, v));
                    assert forall|j: int| 0 <= j < i + 1 implies (#[trigger] fields[j]).0 != key by {
                        if j > 0 {
                            assert(rest[j - 1] == fields[j]);
                        }
                    }
                },
                None => {
                    assert forall|i: int| 0 <= i < fields.len() implies (#[trigger] fields[i]).0
                        != key by {
                        if i > 0 {
                            assert(rest[i - 1] == fields[i]);
                        }
                    }
                },
            }
        }
    }
}

/// Each value is of one kind: only an array has items, only a string a text, only
/// a non-negative integer a number, only a truth value a truth, only an object
/// fields.
pub proof fn law_one_kind<F>(v: JsonView<F>)
    ensures
        v.items() == match v {
            JsonView::Array(a) => Some(a),
            _ => None,
        },
        v.text() == match v {
            JsonView::Text(s) => Some(s),
            _ => None,
        },
        v.unsigned() == match v {
            JsonView::Unsigned(n) => Some(n),
            _ => None,
        },
        v.boolean() == match v {
            JsonView::Bool(b) => Some(b),
            _ => None,
        },
        !(v is Object) ==> forall|key: Seq<char>| (#[trigger] v.field(key)) is None,
{
}

/// What a value is has its kind, its number or text, and what its items and fields
/// are, one for one in their order.
pub proof fn law_value_is_what_it_holds<F>(v: Json<F>)
    ensures
        match v {
            Json::Null => v@ == JsonView::<F>::Null,
            Json::Bool(b) => v@ == JsonView::<F>::Bool(b),
            Json::Unsigned(n) => v@ == JsonView::<F>::Unsigned(n),
            Json::Signed(n) => v@ == JsonView::<F>::Signed(n),
            Json::Float(x) => v@ == JsonView::Float(x),
            Json::Text(s) => v@ == JsonView::<F>::Text(s@),
            Json::Array(a) => v@ matches JsonView::Array(items) && {
                &&& items.len() == a@.len()
                &&& forall|i: int| 0 <= i < a@.len() ==> #[trigger] items[i] == a@[i]@
            },
            Json::Object(o) => v@ matches JsonView::Object(fields) && {
                &&& fields.len() == o@.len()
                &&& forall|i: int|
                    0 <= i < o@.len() ==> #[trigger] fields[i] == (o@[i].0@, o@[i].1@)
            },
        },
{
}

/// Values and fields are what they are one for one in their order.
pub proof fn law_values_in_order<F>(values: Seq<Json<F>>, fields: Seq<(String, Json<F>)>)
    ensures
        models(values).len() == values.len(),
        forall|i: int| 0 <= i < values.len() ==> #[trigger] models(values)[i] == values[i]@,
        field_models(fields).len() == fields.len(),
        forall|i: int|
            0 <= i < fields.len() ==> #[trigger] field_models(fields)[i] == (
                fields[i].0@,
                fields[i].1@,
            ),
{
}

/// Whether `out` holds what `gives` says of the items at `places`, one for one in
/// the order of the items, and every item of which `gives` says something is at
/// one of the places.
pub open spec fn taken_from<A, B>(
    items: Seq<A>,
    gives: spec_fn(A, B) -> bool,
    out: Seq<B>,
    places: Seq<int>,
) -> bool {
    &&& out.len() == places.len()
    &&& forall|k: int|
        0 <= k < places.len() ==> 0 <= #[trigger] places[k] < items.len() && gives(
            items[places[k]],
            out[k],
        )
    &&& forall|k: int, l: int| 0 <= k < l < places.len() ==> places[k] < places[l]
    &&& forall|i: int, v: B|
        0 <= i < items.len() && #[trigger] gives(items[i], v) ==> places.contains(i)
}

/// Whether `out` is all that `gives` says of the items, in their order.
pub open spec fn is_all_given<A, B>(
    items: Seq<A>,
    gives: spec_fn(A, B) -> bool,
    out: Seq<B>,
) -> bool {
    exists|places: Seq<int>| taken_from(items, gives, out, places)
}

/// Whether `out` is what `gives` says of the first item of which it says
/// something; nothing where it says nothing of any.
pub open spec fn is_first_given<A, B>(
    items: Seq<A>,
    gives: spec_fn(A, B) -> bool,
    out: Option<B>,
) -> bool {
    match out {
        Some(v) => exists|i: int|
            0 <= i < items.len() && #[trigger] gives(items[i], v) && forall|j: int, w: B|
                0 <= j < i ==> !#[trigger] gives(items[j], w),
        None => forall|i: int, w: B| 0 <= i < items.len() ==> !#[trigger] gives(items[i], w),
    }
}

/// What is present of what `f` makes of each item is all that `f` makes of them, in
/// their order.
pub proof fn law_present_is_all_given<A, B>(
    items: Seq<A>,
    f: spec_fn(A) -> Option<B>,
    gives: spec_fn(A, B) -> bool,
)
    requires
        forall|a: A, b: B| #[trigger] gives(a, b) <==> f(a) == Some(b),
    ensures
        is_all_given(items, gives, present(items.map_values(f))),
    decreases items.len(),
{
    let s = items.map_values(f);
    if items.len() == 0 {
        assert(taken_from(items, gives, present(s), Seq::empty()));
    } else {
        let head = items.drop_last();
        let n = items.len() - 1;
        law_present_is_all_given(head, f, gives);
        assert(head.map_values(f) =~= s.drop_last());
        let out = present(head.map_values(f));
        let places = choose|places: Seq<int>| taken_from(head, gives, out, places);
        assert(s.last() == f(items[n]));
        match f(items[n]) {
            Some(v) => {
                let more = places.push(n);
                assert(gives(items[n], v));
                assert forall|k: int| 0 <= k < more.len() implies 0 <= #[trigger] more[k]
                    < items.len() && gives(items[more[k]], out.push(v)[k]) by {
                    if k < places.len() {
                        assert(0 <= places[k] < head.len());
                        assert(gives(head[places[k]], out[k]));
                        assert(head[places[k]] == items[places[k]]);
                    }
                }
                assert forall|k: int, l: int| 0 <= k < l < more.len() implies more[k] < more[l] by {
                    assert(0 <= places[k] < head.len());
                }
                assert forall|i: int, w: B|
                    0 <= i < items.len() && #[trigger] gives(items[i], w) implies more.contains(
                    i,
                ) by {
                    if i < n {
                        assert(gives(head[i], w));
                        assert(places.contains(i));
                        let k = choose|k: int| 0 <= k < places.len() && places[k] == i;
                        assert(more[k] == i);
                    } else {
                        assert(more[places.len() as int] == i);
                    }
                }
                assert(taken_from(items, gives, present(s), more));
            },
            None => {
                assert forall|k: int| 0 <= k < places.len() implies 0 <= #[trigger] places[k]
                    < items.len() && gives(items[places[k]], out[k]) by {
                    assert(gives(head[places[k]], out[k]));
                    assert(head[places[k]] == items[places[k]]);
                }
                assert forall|i: int, w: B|
                    0 <= i < items.len() && #[trigger] gives(items[i], w) implies places.contains(
                    i,
                ) by {
                    assert(i < n);
                    assert(gives(head[i], w));
                }
                assert(taken_from(items, gives, present(s), places));
            },
        }
    }
}

/// The first that is present of what `f` makes of each item is what it makes of the
/// first item of which it makes something.
pub proof fn law_first_present_is_first_given<A, B>(
    items: Seq<A>,
    f: spec_fn(A) -> Option<B>,
    gives: spec_fn(A, B) -> bool,
)
    requires
        forall|a: A, b: B| #[trigger] gives(a, b) <==> f(a) == Some(b),
    ensures
        is_first_given(items, gives, first_present(items.map_values(f))),
    decreases items.len(),
{
    let s = items.map_values(f);
    if items.len() > 0 {
        let rest = items.drop_first();
        law_first_present_is_first_given(rest, f, gives);
        assert(rest.map_values(f) =~= s.drop_first());
        match f(items[0]) {
            Some(v) => {
                assert(gives(items[0], v));
            },
            None => {
                match first_present(s) {
                    Some(v) => {
                        let i = choose|i: int|
                            0 <= i < rest.len() && #[trigger] gives(rest[i], v) && forall|
                                j: int,
                                w: B,
                            |
                                0 <= j < i ==> !#[trigger] gives(rest[j], w);
                        assert(gives(items[i + 1], v));
                        assert forall|j: int, w: B| 0 <= j < i + 1 implies !#[trigger] gives(
                            items[j],
                            w,
                        ) by {
                            if j > 0 {
                                assert(!gives(rest[j - 1], w));
                            }
                        }
                    },
                    None => {
                        assert forall|i: int, w: B|
                            0 <= i < items.len() implies !#[trigger] gives(items[i], w) by {
                            if i > 0 {
                                assert(!gives(rest[i - 1], w));
                            }
                        }
                    },
                }
            },
        }
    }
}

/// What is all given of items holds what is given of each of them.
pub proof fn law_each_given_is_held<A, B>(
    items: Seq<A>,
    gives: spec_fn(A, B) -> bool,
    out: Seq<B>,
    i: int,
    v: B,
)
    requires
        is_all_given(items, gives, out),
        0 <= i < items.len(),
        gives(items[i], v),
        forall|w: B| #[trigger] gives(items[i], w) ==> w == v,
    ensures
        out.contains(v),
{
    let places = choose|places: Seq<int>| taken_from(items, gives, out, places);
    assert(places.contains(i));
    let k = choose|k: int| 0 <= k < places.len() && places[k] == i;
    assert(gives(items[places[k]], out[k]));
    assert(out[k] == v);
}

} // verus!
