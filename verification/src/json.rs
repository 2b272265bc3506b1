//! JSON values: what the logic reads of requests and of stored records.

use vstd::prelude::*;

use crate::text;

verus! {

/// A JSON number. A number with a fraction or an exponent is held as the bits of its double.
#[derive(Debug, Clone, Copy, PartialEq, Eq, Structural)]
pub enum Number {
    /// A whole number that is not negative.
    Unsigned(u64),
    /// A negative whole number.
    Negative(i64),
    /// The bits of a finite double.
    Float(u64),
}

/// A JSON value.
#[derive(Debug)]
pub enum Json {
    Null,
    Bool(bool),
    Number(Number),
    Text(String),
    Array(Vec<Json>),
    Object(JsonObject),
}

/// A JSON object; its fields stand in the order of their names.
#[derive(Debug)]
pub struct JsonObject {
    pub fields: Vec<(String, Json)>,
}

#[verifier::ext_equal]
pub enum JsonView {
    Null,
    Bool(bool),
    Number(Number),
    Text(Seq<char>),
    Array(Seq<JsonView>),
    Object(Seq<(Seq<char>, JsonView)>),
}

/// The fields of an object.
pub type Fields = Seq<(Seq<char>, JsonView)>;

pub open spec fn value_view(v: Json) -> JsonView
    decreases v,
{
    match v {
        Json::Null => JsonView::Null,
        Json::Bool(b) => JsonView::Bool(b),
        Json::Number(n) => JsonView::Number(n),
        Json::Text(s) => JsonView::Text(s@),
        Json::Array(items) => JsonView::Array(items_view(items@)),
        Json::Object(o) => JsonView::Object(fields_view(o.fields@)),
    }
}

pub open spec fn items_view(s: Seq<Json>) -> Seq<JsonView>
    decreases s,
{
    if s.len() == 0 {
        Seq::empty()
    } else {
        items_view(s.drop_last()).push(value_view(s.last()))
    }
}

pub open spec fn fields_view(s: Seq<(String, Json)>) -> Fields
    decreases s,
{
    if s.len() == 0 {
        Seq::empty()
    } else {
        fields_view(s.drop_last()).push((s.last().0@, value_view(s.last().1)))
    }
}

impl View for Json {
    type V = JsonView;

    open spec fn view(&self) -> JsonView {
        value_view(*self)
    }
}

impl View for JsonObject {
    type V = Fields;

    open spec fn view(&self) -> Fields {
        fields_view(self.fields@)
    }
}

pub proof fn lemma_items_view(s: Seq<Json>)
    ensures
        items_view(s).len() == s.len(),
        forall|i: int| 0 <= i < s.len() ==> #[trigger] items_view(s)[i] == value_view(s[i]),
    decreases s.len(),
{
    if s.len() > 0 {
        lemma_items_view(s.drop_last());
        assert forall|i: int| 0 <= i < s.len() implies #[trigger] items_view(s)[i] == value_view(
            s[i],
        ) by {
            if i < s.len() - 1 {
                assert(s.drop_last()[i] == s[i]);
            }
        }
    }
}

pub proof fn lemma_fields_view(s: Seq<(String, Json)>)
    ensures
        fields_view(s).len() == s.len(),
        forall|i: int|
            0 <= i < s.len() ==> #[trigger] fields_view(s)[i] == (s[i].0@, value_view(s[i].1)),
    decreases s.len(),
{
    if s.len() > 0 {
        lemma_fields_view(s.drop_last());
        assert forall|i: int| 0 <= i < s.len() implies #[trigger] fields_view(s)[i] == (
            s[i].0@,
            value_view(s[i].1),
        ) by {
            if i < s.len() - 1 {
                assert(s.drop_last()[i] == s[i]);
            }
        }
    }
}

/// The value of a field.
pub open spec fn field(o: Fields, key: Seq<char>) -> Option<JsonView>
    decreases o.len(),
{
    if o.len() == 0 {
        None
    } else if o[0].0 == key {
        Some(o[0].1)
    } else {
        field(o.drop_first(), key)
    }
}

/// The object with a field set to a value.
pub open spec fn with(o: Fields, key: Seq<char>, value: JsonView) -> Fields
    decreases o.len(),
{
    if o.len() == 0 {
        seq![(key, value)]
    } else if o[0].0 == key {
        o.update(0, (key, value))
    } else if text::before(key, o[0].0) {
        seq![(key, value)] + o
    } else {
        seq![o[0]] + with(o.drop_first(), key, value)
    }
}

/// The object without a field.
pub open spec fn without(o: Fields, key: Seq<char>) -> Fields
    decreases o.len(),
{
    if o.len() == 0 {
        o
    } else if o[0].0 == key {
        o.drop_first()
    } else {
        seq![o[0]] + without(o.drop_first(), key)
    }
}

/// The object with a field set to a value where it had none.
pub open spec fn with_default(o: Fields, key: Seq<char>, value: JsonView) -> Fields {
    if field(o, key) is Some {
        o
    } else {
        with(o, key, value)
    }
}

/// The value of a field of a value: only an object has fields.
pub open spec fn member(v: JsonView, key: Seq<char>) -> Option<JsonView> {
    match v {
        JsonView::Object(o) => field(o, key),
        _ => None,
    }
}

pub open spec fn text_of(v: Option<JsonView>) -> Option<Seq<char>> {
    match v {
        Some(JsonView::Text(s)) => Some(s),
        _ => None,
    }
}

pub open spec fn bool_of(v: Option<JsonView>) -> Option<bool> {
    match v {
        Some(JsonView::Bool(b)) => Some(b),
        _ => None,
    }
}

/// A number as a whole one of 64 bits with a sign.
pub open spec fn i64_of(v: Option<JsonView>) -> Option<i64> {
    match v {
        Some(JsonView::Number(Number::Unsigned(n))) => if n <= i64::MAX {
            Some(n as i64)
        } else {
            None
        },
        Some(JsonView::Number(Number::Negative(n))) => Some(n),
        _ => None,
    }
}

pub open spec fn u64_of(v: Option<JsonView>) -> Option<u64> {
    match v {
        Some(JsonView::Number(Number::Unsigned(n))) => Some(n),
        _ => None,
    }
}

/// A whole number as a JSON value.
pub open spec fn whole(n: i64) -> JsonView {
    if n >= 0 {
        JsonView::Number(Number::Unsigned(n as u64))
    } else {
        JsonView::Number(Number::Negative(n))
    }
}

pub fn from_i64(n: i64) -> (r: Json)
    ensures
        r@ == whole(n),
{
    if n >= 0 {
        Json::Number(Number::Unsigned(n as u64))
    } else {
        Json::Number(Number::Negative(n))
    }
}

pub fn from_str(s: &str) -> (r: Json)
    ensures
        r@ == JsonView::Text(s@),
{
    Json::Text(s.to_owned())
}

/// The bits of a double that is zero, with either sign.
pub open spec fn zero_bits(b: u64) -> bool {
    b == 0 || b == 0x8000_0000_0000_0000
}

pub open spec fn same_number(a: Number, b: Number) -> bool {
    match (a, b) {
        (Number::Float(x), Number::Float(y)) => x == y || (zero_bits(x) && zero_bits(y)),
        _ => a == b,
    }
}

/// Whether two values are the same: numbers by their value, the rest part by part.
pub open spec fn same_value(a: JsonView, b: JsonView) -> bool
    decreases a,
{
    match (a, b) {
        (JsonView::Null, JsonView::Null) => true,
        (JsonView::Bool(x), JsonView::Bool(y)) => x == y,
        (JsonView::Number(x), JsonView::Number(y)) => same_number(x, y),
        (JsonView::Text(x), JsonView::Text(y)) => x == y,
        (JsonView::Array(x), JsonView::Array(y)) => x.len() == y.len() && forall|i: int|
            0 <= i < x.len() ==> same_value(#[trigger] x[i], y[i]),
        (JsonView::Object(x), JsonView::Object(y)) => x.len() == y.len() && forall|i: int|
            0 <= i < x.len() ==> (#[trigger] x[i]).0 == y[i].0 && same_value(x[i].1, y[i].1),
        _ => false,
    }
}

/// The object without fields.
pub open spec fn no_fields() -> Fields {
    Seq::empty()
}

/// The fields stand in the order of their names, each once.
pub open spec fn ordered(o: Fields) -> bool {
    forall|i: int, j: int|
        0 <= i < j < o.len() ==> text::before((#[trigger] o[i]).0, (#[trigger] o[j]).0)
}

fn duplicate_items(items: &Vec<Json>) -> (r: Vec<Json>)
    ensures
        items_view(r@) == items_view(items@),
    decreases items,
{
    let mut out: Vec<Json> = Vec::new();
    let mut i: usize = 0;
    while i < items.len()
        invariant
            i <= items@.len(),
            out@.len() == i,
            forall|k: int| 0 <= k < i ==> value_view(#[trigger] out@[k]) == value_view(items@[k]),
        decreases items@.len() - i,
    {
        let copy = items[i].duplicate();
        out.push(copy);
        i += 1;
    }
    proof {
        lemma_items_view(out@);
        lemma_items_view(items@);
        assert(items_view(out@) =~= items_view(items@));
    }
    out
}

fn duplicate_fields(fields: &Vec<(String, Json)>) -> (r: Vec<(String, Json)>)
    ensures
        fields_view(r@) == fields_view(fields@),
    decreases fields,
{
    let mut out: Vec<(String, Json)> = Vec::new();
    let mut i: usize = 0;
    while i < fields.len()
        invariant
            i <= fields@.len(),
            out@.len() == i,
            forall|k: int|
                0 <= k < i ==> (#[trigger] out@[k]).0@ == fields@[k].0@ && value_view(out@[k].1)
                    == value_view(fields@[k].1),
        decreases fields@.len() - i,
    {
        let name = fields[i].0.clone();
        let copy = fields[i].1.duplicate();
        out.push((name, copy));
        i += 1;
    }
    proof {
        lemma_fields_view(out@);
        lemma_fields_view(fields@);
        assert(fields_view(out@) =~= fields_view(fields@));
    }
    out
}

fn same_items(a: &Vec<Json>, b: &Vec<Json>) -> (r: bool)
    ensures
        r == same_value(
            JsonView::Array(items_view(a@)),
            JsonView::Array(items_view(b@)),
        ),
    decreases a,
{
    proof {
        lemma_items_view(a@);
        lemma_items_view(b@);
    }
    if a.len() != b.len() {
        return false;
    }
    let mut i: usize = 0;
    while i < a.len()
        invariant
            i <= a@.len(),
            a@.len() == b@.len(),
            items_view(a@).len() == a@.len(),
            items_view(b@).len() == b@.len(),
            forall|k: int| 0 <= k < a@.len() ==> #[trigger] items_view(a@)[k] == value_view(a@[k]),
            forall|k: int| 0 <= k < b@.len() ==> #[trigger] items_view(b@)[k] == value_view(b@[k]),
            forall|k: int|
                0 <= k < i ==> same_value(#[trigger] items_view(a@)[k], items_view(b@)[k]),
        decreases a@.len() - i,
    {
        if !a[i].same(&b[i]) {
            assert(!same_value(items_view(a@)[i as int], items_view(b@)[i as int]));
            return false;
        }
        i += 1;
    }
    true
}

fn same_fields(a: &Vec<(String, Json)>, b: &Vec<(String, Json)>) -> (r: bool)
    ensures
        r == same_value(
            JsonView::Object(fields_view(a@)),
            JsonView::Object(fields_view(b@)),
        ),
    decreases a,
{
    proof {
        lemma_fields_view(a@);
        lemma_fields_view(b@);
    }
    if a.len() != b.len() {
        return false;
    }
    let mut i: usize = 0;
    while i < a.len()
        invariant
            i <= a@.len(),
            a@.len() == b@.len(),
            fields_view(a@).len() == a@.len(),
            fields_view(b@).len() == b@.len(),
            forall|k: int|
                0 <= k < a@.len() ==> #[trigger] fields_view(a@)[k] == (
                    a@[k].0@,
                    value_view(a@[k].1),
                ),
            forall|k: int|
                0 <= k < b@.len() ==> #[trigger] fields_view(b@)[k] == (
                    b@[k].0@,
                    value_view(b@[k].1),
                ),
            forall|k: int|
                0 <= k < i ==> (#[trigger] fields_view(a@)[k]).0 == fields_view(b@)[k].0
                    && same_value(fields_view(a@)[k].1, fields_view(b@)[k].1),
        decreases a@.len() - i,
    {
        let ghost x = fields_view(a@)[i as int];
        let ghost y = fields_view(b@)[i as int];
        if a[i].0 != b[i].0 {
            return false;
        }
        if !a[i].1.same(&b[i].1) {
            return false;
        }
        i += 1;
    }
    true
}

impl Json {
    /// A value with the same content.
    pub fn duplicate(&self) -> (r: Self)
        ensures
            r@ == self@,
        decreases self,
    {
        match self {
            Json::Null => Json::Null,
            Json::Bool(b) => Json::Bool(*b),
            Json::Number(n) => Json::Number(*n),
            Json::Text(s) => Json::Text(s.clone()),
            Json::Array(items) => Json::Array(duplicate_items(items)),
            Json::Object(o) => Json::Object(JsonObject { fields: duplicate_fields(&o.fields) }),
        }
    }

    /// Whether two values are the same.
    pub fn same(&self, other: &Json) -> (r: bool)
        ensures
            r == same_value(self@, other@),
        decreases self,
    {
        match (self, other) {
            (Json::Null, Json::Null) => true,
            (Json::Bool(x), Json::Bool(y)) => *x == *y,
            (Json::Number(x), Json::Number(y)) => match (x, y) {
                (Number::Float(p), Number::Float(q)) => *p == *q || ((*p == 0 || *p
                    == 0x8000_0000_0000_0000) && (*q == 0 || *q == 0x8000_0000_0000_0000)),
                _ => *x == *y,
            },
            (Json::Text(x), Json::Text(y)) => *x == *y,
            (Json::Array(x), Json::Array(y)) => same_items(x, y),
            (Json::Object(x), Json::Object(y)) => same_fields(&x.fields, &y.fields),
            _ => false,
        }
    }

    pub fn is_null(&self) -> (r: bool)
        ensures
            r == (self@ is Null),
    {
        matches!(self, Json::Null)
    }

    pub fn is_object(&self) -> (r: bool)
        ensures
            r == (self@ is Object),
    {
        matches!(self, Json::Object(_))
    }

    pub fn as_str(&self) -> (r: Option<&str>)
        ensures
            text_of(Some(self@)) == (match r {
                Some(s) => Some(s@),
                None => None,
            }),
    {
        match self {
            Json::Text(s) => Some(s.as_str()),
            _ => None,
        }
    }

    pub fn as_bool(&self) -> (r: Option<bool>)
        ensures
            r == bool_of(Some(self@)),
    {
        match self {
            Json::Bool(b) => Some(*b),
            _ => None,
        }
    }

    pub fn as_i64(&self) -> (r: Option<i64>)
        ensures
            r == i64_of(Some(self@)),
    {
        match self {
            Json::Number(Number::Unsigned(n)) => if *n <= i64::MAX as u64 {
                Some(*n as i64)
            } else {
                None
            },
            Json::Number(Number::Negative(n)) => Some(*n),
            _ => None,
        }
    }

    pub fn as_u64(&self) -> (r: Option<u64>)
        ensures
            r == u64_of(Some(self@)),
    {
        match self {
            Json::Number(Number::Unsigned(n)) => Some(*n),
            _ => None,
        }
    }

    /// The value of a field, if this is an object that has it.
    pub fn get(&self, key: &str) -> (r: Option<&Json>)
        ensures
            member(self@, key@) == (match r {
                Some(v) => Some(v@),
                None => None,
            }),
    {
        match self {
            Json::Object(o) => o.get(key),
            _ => None,
        }
    }
}

proof fn lemma_with_at(o: Fields, key: Seq<char>, value: JsonView, at: int)
    requires
        0 <= at <= o.len(),
        forall|i: int| 0 <= i < at ==> (#[trigger] o[i]).0 != key && !text::before(key, o[i].0),
        at < o.len() ==> o[at].0 == key || text::before(key, o[at].0),
    ensures
        with(o, key, value) == (if at < o.len() && o[at].0 == key {
            o.update(at, (key, value))
        } else {
            o.insert(at, (key, value))
        }),
        at < o.len() && o[at].0 == key ==> field(o, key) == Some(o[at].1),
    decreases o.len(),
{
    if o.len() == 0 {
        assert(o.insert(at, (key, value)) =~= seq![(key, value)]);
    } else if at == 0 {
        assert(o.insert(0, (key, value)) =~= seq![(key, value)] + o);
    } else {
        let rest = o.drop_first();
        assert(o[0].0 != key);
        assert forall|i: int| 0 <= i < at - 1 implies (#[trigger] rest[i]).0 != key
            && !text::before(key, rest[i].0) by {
            assert(rest[i] == o[i + 1]);
        }
        lemma_with_at(rest, key, value, at - 1);
        if at < o.len() {
            assert(rest[at - 1] == o[at]);
        }
        if at < o.len() && o[at].0 == key {
            assert(o.update(at, (key, value)) =~= seq![o[0]] + rest.update(at - 1, (key, value)));
        } else {
            assert(o.insert(at, (key, value)) =~= seq![o[0]] + rest.insert(at - 1, (key, value)));
        }
    }
}

proof fn lemma_field_at(o: Fields, key: Seq<char>, at: int)
    requires
        0 <= at <= o.len(),
        forall|i: int| 0 <= i < at ==> (#[trigger] o[i]).0 != key,
        at < o.len() ==> o[at].0 == key,
    ensures
        field(o, key) == (if at < o.len() {
            Some(o[at].1)
        } else {
            None
        }),
        without(o, key) == (if at < o.len() {
            o.remove(at)
        } else {
            o
        }),
    decreases o.len(),
{
    if o.len() == 0 {
    } else if at == 0 {
        assert(o.remove(0) =~= o.drop_first());
    } else {
        let rest = o.drop_first();
        assert(o[0].0 != key);
        assert forall|i: int| 0 <= i < at - 1 implies (#[trigger] rest[i]).0 != key by {
            assert(rest[i] == o[i + 1]);
        }
        if at < o.len() {
            assert(rest[at - 1] == o[at]);
        }
        lemma_field_at(rest, key, at - 1);
        if at < o.len() {
            assert(o.remove(at) =~= seq![o[0]] + rest.remove(at - 1));
        } else {
            assert(o =~= seq![o[0]] + rest);
        }
    }
}

impl JsonObject {
    /// An object without fields.
    pub fn new() -> (r: Self)
        ensures
            r@ == no_fields(),
    {
        JsonObject { fields: Vec::new() }
    }

    pub fn duplicate(&self) -> (r: Self)
        ensures
            r@ == self@,
    {
        JsonObject { fields: duplicate_fields(&self.fields) }
    }

    /// Where a field stands; else the number of fields.
    fn position(&self, key: &str) -> (r: usize)
        ensures
            r <= self@.len(),
            self@.len() == self.fields@.len(),
            forall|i: int| 0 <= i < r ==> (#[trigger] self@[i]).0 != key@,
            r < self@.len() ==> self@[r as int].0 == key@,
    {
        proof {
            lemma_fields_view(self.fields@);
        }
        let ghost view = self@;
        let mut i: usize = 0;
        while i < self.fields.len()
            invariant
                i <= self.fields@.len(),
                view == self@,
                view.len() == self.fields@.len(),
                forall|k: int|
                    0 <= k < view.len() ==> #[trigger] view[k] == (
                        self.fields@[k].0@,
                        value_view(self.fields@[k].1),
                    ),
                forall|k: int| 0 <= k < i ==> (#[trigger] view[k]).0 != key@,
            decreases self.fields@.len() - i,
        {
            assert(view[i as int].0 == self.fields@[i as int].0@);
            if text::same(self.fields[i].0.as_str(), key) {
                return i;
            }
            i += 1;
        }
        i
    }

    /// The value of a field.
    pub fn get(&self, key: &str) -> (r: Option<&Json>)
        ensures
            field(self@, key@) == (match r {
                Some(v) => Some(v@),
                None => None,
            }),
    {
        let at = self.position(key);
        proof {
            lemma_fields_view(self.fields@);
            lemma_field_at(self@, key@, at as int);
        }
        if at < self.fields.len() {
            Some(&self.fields[at].1)
        } else {
            None
        }
    }

    pub fn contains_key(&self, key: &str) -> (r: bool)
        ensures
            r == (field(self@, key@) is Some),
    {
        self.get(key).is_some()
    }

    /// Sets a field.
    pub fn insert(&mut self, key: &str, value: Json)
        ensures
            final(self)@ == with(old(self)@, key@, value@),
    {
        let ghost before = self@;
        let ghost items = self.fields@;
        proof {
            lemma_fields_view(self.fields@);
        }
        let mut at: usize = 0;
        while at < self.fields.len() && text::comes_before(self.fields[at].0.as_str(), key)
            invariant
                at <= self.fields@.len(),
                self.fields@ == items,
                before == fields_view(items),
                before.len() == items.len(),
                forall|k: int|
                    0 <= k < items.len() ==> #[trigger] before[k] == (
                        items[k].0@,
                        value_view(items[k].1),
                    ),
                forall|k: int|
                    0 <= k < at ==> (#[trigger] before[k]).0 != key@ && !text::before(
                        key@,
                        before[k].0,
                    ),
            decreases self.fields@.len() - at,
        {
            proof {
                text::lemma_before_is_total(before[at as int].0, key@);
            }
            at += 1;
        }
        proof {
            if at < items.len() {
                text::lemma_before_is_total(before[at as int].0, key@);
            }
            lemma_with_at(before, key@, value@, at as int);
        }
        if at < self.fields.len() && text::same(self.fields[at].0.as_str(), key) {
            self.fields.set(at, (key.to_owned(), value));
            proof {
                lemma_fields_view(self.fields@);
                assert(self@ =~= before.update(at as int, (key@, value@)));
            }
        } else {
            self.fields.insert(at, (key.to_owned(), value));
            proof {
                lemma_fields_view(self.fields@);
                assert(self@ =~= before.insert(at as int, (key@, value@)));
            }
        }
    }

    /// Sets a field that is not there yet.
    pub fn insert_if_absent(&mut self, key: &str, value: Json)
        ensures
            final(self)@ == with_default(old(self)@, key@, value@),
    {
        if !self.contains_key(key) {
            self.insert(key, value);
        }
    }

    /// Takes a field away.
    pub fn remove(&mut self, key: &str)
        ensures
            final(self)@ == without(old(self)@, key@),
    {
        let ghost before = self@;
        let at = self.position(key);
        proof {
            lemma_fields_view(self.fields@);
            lemma_field_at(self@, key@, at as int);
        }
        if at < self.fields.len() {
            self.fields.remove(at);
            proof {
                lemma_fields_view(self.fields@);
                assert(self@ =~= before.remove(at as int));
            }
        }
    }
}

/// A field that was set is read back; no other field changes.
pub proof fn law_set_field_is_read_back(
    o: Fields,
    key: Seq<char>,
    value: JsonView,
    other: Seq<char>,
)
    ensures
        field(with(o, key, value), other) == (if other == key {
            Some(value)
        } else {
            field(o, other)
        }),
    decreases o.len(),
{
    let after = with(o, key, value);
    if o.len() == 0 {
        assert(after.drop_first() =~= o);
    } else if o[0].0 == key {
        assert(after.drop_first() =~= o.drop_first());
    } else if text::before(key, o[0].0) {
        assert(after.drop_first() =~= o);
    } else {
        law_set_field_is_read_back(o.drop_first(), key, value, other);
        assert(after.drop_first() =~= with(o.drop_first(), key, value));
    }
}

proof fn lemma_absent(o: Fields, key: Seq<char>)
    requires
        forall|i: int| 0 <= i < o.len() ==> (#[trigger] o[i]).0 != key,
    ensures
        field(o, key) is None,
    decreases o.len(),
{
    if o.len() > 0 {
        assert(o[0].0 != key);
        assert forall|i: int| 0 <= i < o.drop_first().len() implies (#[trigger] o.drop_first()[i]).0
            != key by {
            assert(o.drop_first()[i] == o[i + 1]);
        }
        lemma_absent(o.drop_first(), key);
    }
}

proof fn lemma_ordered_rest(o: Fields)
    requires
        ordered(o),
        o.len() > 0,
    ensures
        ordered(o.drop_first()),
{
    assert forall|i: int, j: int| 0 <= i < j < o.drop_first().len() implies text::before(
        (#[trigger] o.drop_first()[i]).0,
        (#[trigger] o.drop_first()[j]).0,
    ) by {
        assert(o.drop_first()[i] == o[i + 1]);
        assert(o.drop_first()[j] == o[j + 1]);
    }
}

/// A field that was taken away is gone; no other field changes.
pub proof fn law_removed_field_is_gone(o: Fields, key: Seq<char>, other: Seq<char>)
    requires
        ordered(o),
    ensures
        field(without(o, key), other) == (if other == key {
            None
        } else {
            field(o, other)
        }),
    decreases o.len(),
{
    let after = without(o, key);
    if o.len() == 0 {
    } else if o[0].0 == key {
        assert forall|i: int| 0 <= i < o.drop_first().len() implies (#[trigger] o.drop_first()[i]).0
            != key by {
            assert(o.drop_first()[i] == o[i + 1]);
            assert(text::before(o[0].0, o[i + 1].0));
            text::lemma_before_is_total(o[0].0, o[i + 1].0);
        }
        lemma_absent(o.drop_first(), key);
    } else {
        lemma_ordered_rest(o);
        law_removed_field_is_gone(o.drop_first(), key, other);
        assert(after.drop_first() =~= without(o.drop_first(), key));
    }
}

proof fn lemma_with_keeps_bound(o: Fields, key: Seq<char>, value: JsonView, low: Seq<char>)
    requires
        text::before(low, key),
        forall|i: int| 0 <= i < o.len() ==> text::before(low, (#[trigger] o[i]).0),
    ensures
        forall|i: int|
            0 <= i < with(o, key, value).len() ==> text::before(
                low,
                (#[trigger] with(o, key, value)[i]).0,
            ),
    decreases o.len(),
{
    if o.len() > 0 && o[0].0 != key && !text::before(key, o[0].0) {
        let rest = o.drop_first();
        assert forall|i: int| 0 <= i < rest.len() implies text::before(
            low,
            (#[trigger] rest[i]).0,
        ) by {
            assert(rest[i] == o[i + 1]);
        }
        lemma_with_keeps_bound(rest, key, value, low);
        let after = with(o, key, value);
        assert forall|i: int| 0 <= i < after.len() implies text::before(
            low,
            (#[trigger] after[i]).0,
        ) by {
            if i > 0 {
                assert(after[i] == with(rest, key, value)[i - 1]);
            }
        }
    }
}

/// Setting a field keeps the fields in order.
pub proof fn law_setting_keeps_order(o: Fields, key: Seq<char>, value: JsonView)
    requires
        ordered(o),
    ensures
        ordered(with(o, key, value)),
    decreases o.len(),
{
    let after = with(o, key, value);
    if o.len() == 0 {
    } else if o[0].0 == key {
    } else if text::before(key, o[0].0) {
        assert forall|i: int, j: int| 0 <= i < j < after.len() implies text::before(
            (#[trigger] after[i]).0,
            (#[trigger] after[j]).0,
        ) by {
            assert(after[j] == o[j - 1]);
            if i > 0 {
                assert(after[i] == o[i - 1]);
            } else if j > 1 {
                assert(text::before(o[0].0, o[j - 1].0));
                text::lemma_before_is_transitive(key, o[0].0, o[j - 1].0);
            }
        }
    } else {
        let rest = o.drop_first();
        lemma_ordered_rest(o);
        law_setting_keeps_order(rest, key, value);
        text::lemma_before_is_total(key, o[0].0);
        assert forall|i: int| 0 <= i < rest.len() implies text::before(
            o[0].0,
            (#[trigger] rest[i]).0,
        ) by {
            assert(rest[i] == o[i + 1]);
        }
        lemma_with_keeps_bound(rest, key, value, o[0].0);
        assert forall|i: int, j: int| 0 <= i < j < after.len() implies text::before(
            (#[trigger] after[i]).0,
            (#[trigger] after[j]).0,
        ) by {
            assert(after[j] == with(rest, key, value)[j - 1]);
            if i > 0 {
                assert(after[i] == with(rest, key, value)[i - 1]);
            }
        }
    }
}

/// Taking a field away keeps the others in order.
pub proof fn law_removing_keeps_order(o: Fields, key: Seq<char>)
    requires
        ordered(o),
    ensures
        ordered(without(o, key)),
    decreases o.len(),
{
    if o.len() > 0 {
        lemma_ordered_rest(o);
        if o[0].0 != key {
            let rest = o.drop_first();
            law_removing_keeps_order(rest, key);
            lemma_without_keeps_bound(rest, key, o[0].0);
            let after = without(o, key);
            assert forall|i: int, j: int| 0 <= i < j < after.len() implies text::before(
                (#[trigger] after[i]).0,
                (#[trigger] after[j]).0,
            ) by {
                assert(after[j] == without(rest, key)[j - 1]);
                if i > 0 {
                    assert(after[i] == without(rest, key)[i - 1]);
                }
            }
        }
    }
}

proof fn lemma_without_keeps_bound(o: Fields, key: Seq<char>, low: Seq<char>)
    requires
        forall|i: int| 0 <= i < o.len() ==> text::before(low, (#[trigger] o[i]).0),
    ensures
        forall|i: int|
            0 <= i < without(o, key).len() ==> text::before(
                low,
                (#[trigger] without(o, key)[i]).0,
            ),
    decreases o.len(),
{
    if o.len() > 0 {
        let rest = o.drop_first();
        assert forall|i: int| 0 <= i < rest.len() implies text::before(
            low,
            (#[trigger] rest[i]).0,
        ) by {
            assert(rest[i] == o[i + 1]);
        }
        lemma_without_keeps_bound(rest, key, low);
        let after = without(o, key);
        assert forall|i: int| 0 <= i < after.len() implies text::before(
            low,
            (#[trigger] after[i]).0,
        ) by {
            if o[0].0 != key && i > 0 {
                assert(after[i] == without(rest, key)[i - 1]);
            }
        }
    }
}

/// A name that comes before those of all fields is the name of none.
proof fn lemma_earlier_name_is_absent(o: Fields, key: Seq<char>)
    requires
        forall|i: int| 0 <= i < o.len() ==> text::before(key, (#[trigger] o[i]).0),
    ensures
        field(o, key) is None,
{
    assert forall|i: int| 0 <= i < o.len() implies (#[trigger] o[i]).0 != key by {
        text::lemma_before_is_total(key, o[i].0);
    }
    lemma_absent(o, key);
}

/// A field that is there has a place.
proof fn lemma_field_has_a_place(o: Fields, key: Seq<char>)
    requires
        field(o, key) is Some,
    ensures
        exists|i: int| 0 <= i < o.len() && (#[trigger] o[i]).0 == key,
{
    if forall|i: int| 0 <= i < o.len() ==> (#[trigger] o[i]).0 != key {
        lemma_absent(o, key);
    }
}

/// No field of an object in order comes before its first one.
proof fn lemma_first_name_is_least(o: Fields, key: Seq<char>)
    requires
        ordered(o),
        field(o, key) is Some,
    ensures
        o.len() > 0,
        o[0].0 == key || text::before(o[0].0, key),
{
    lemma_field_has_a_place(o, key);
    let i = choose|i: int| 0 <= i < o.len() && (#[trigger] o[i]).0 == key;
    if i > 0 {
        assert(text::before(o[0].0, o[i].0));
    }
}

/// Two objects in order that hold the same under every name are the same.
pub proof fn law_fields_decide_the_object(a: Fields, b: Fields)
    requires
        ordered(a),
        ordered(b),
        forall|key: Seq<char>| #[trigger] field(a, key) == field(b, key),
    ensures
        a == b,
    decreases a.len(),
{
    if a.len() == 0 {
        if b.len() > 0 {
            assert(field(a, b[0].0) == field(b, b[0].0));
        }
        assert(a =~= b);
    } else {
        let key = a[0].0;
        assert(field(a, key) == field(b, key));
        lemma_first_name_is_least(b, key);
        assert(field(a, b[0].0) == field(b, b[0].0));
        lemma_first_name_is_least(a, b[0].0);
        text::lemma_before_is_total(key, b[0].0);
        let (ra, rb) = (a.drop_first(), b.drop_first());
        lemma_ordered_rest(a);
        lemma_ordered_rest(b);
        assert forall|i: int| 0 <= i < ra.len() implies text::before(key, (#[trigger] ra[i]).0) by {
            assert(ra[i] == a[i + 1]);
            assert(text::before(a[0].0, a[i + 1].0));
        }
        assert forall|i: int| 0 <= i < rb.len() implies text::before(key, (#[trigger] rb[i]).0) by {
            assert(rb[i] == b[i + 1]);
            assert(text::before(b[0].0, b[i + 1].0));
        }
        lemma_earlier_name_is_absent(ra, key);
        lemma_earlier_name_is_absent(rb, key);
        assert forall|other: Seq<char>| #[trigger] field(ra, other) == field(rb, other) by {
            assert(field(a, other) == field(b, other));
        }
        law_fields_decide_the_object(ra, rb);
        assert(a =~= seq![a[0]] + ra);
        assert(b =~= seq![b[0]] + rb);
    }
}

/// A value is the same as itself.
pub proof fn law_value_is_the_same_as_itself(v: JsonView)
    ensures
        same_value(v, v),
    decreases v,
{
    match v {
        JsonView::Array(x) => {
            assert forall|i: int| 0 <= i < x.len() implies same_value(#[trigger] x[i], x[i]) by {
                law_value_is_the_same_as_itself(x[i]);
            }
        },
        JsonView::Object(x) => {
            assert forall|i: int| 0 <= i < x.len() implies (#[trigger] x[i]).0 == x[i].0
                && same_value(x[i].1, x[i].1) by {
                law_value_is_the_same_as_itself(x[i].1);
            }
        },
        _ => {},
    }
}

} // verus!
