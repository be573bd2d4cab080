//! JSON values as plain data, and the bridge to `serde_json`.

use vstd::prelude::*;
use crate::keyed::distinct_keys;
use crate::text::opt_text;
use crate::text::same_text;

verus! {

// ─── the model ───────────────────────────────────────────────────────────

/// What a JSON value says. An integer is `Unsigned` from zero on and `Negative`
/// below; a number that is no 64-bit integer is carried along unread.
pub enum JsonTree {
    Null,
    Bool(bool),
    Unsigned(u64),
    Negative(i64),
    Float(serde_json::Number),
    Text(Seq<char>),
    List(Seq<JsonTree>),
    Object(Map<Seq<char>, JsonTree>),
}

impl JsonTree {
    /// The member `key` of an object.
    pub open spec fn get(self, key: Seq<char>) -> Option<JsonTree> {
        match self {
            JsonTree::Object(fields) => if fields.dom().contains(key) {
                Some(fields[key])
            } else {
                None
            },
            _ => None,
        }
    }

    /// The text of a text value.
    pub open spec fn text(self) -> Option<Seq<char>> {
        match self {
            JsonTree::Text(s) => Some(s),
            _ => None,
        }
    }

    /// The text of the member `key` of an object.
    pub open spec fn text_at(self, key: Seq<char>) -> Option<Seq<char>> {
        match self.get(key) {
            Some(v) => v.text(),
            None => None,
        }
    }

    /// The number, where it is a `u64`.
    pub open spec fn unsigned(self) -> Option<u64> {
        match self {
            JsonTree::Unsigned(n) => Some(n),
            _ => None,
        }
    }

    /// The number, where it is an `i64`.
    pub open spec fn signed(self) -> Option<i64> {
        match self {
            JsonTree::Unsigned(n) => if n <= i64::MAX {
                Some(n as i64)
            } else {
                None
            },
            JsonTree::Negative(n) => Some(n),
            _ => None,
        }
    }

    /// Null, a truth value, an integer or a text.
    pub open spec fn scalar(self) -> bool {
        match self {
            JsonTree::Null | JsonTree::Bool(_) | JsonTree::Unsigned(_) | JsonTree::Text(_) => true,
            JsonTree::Negative(n) => n < 0,
            _ => false,
        }
    }
}

/// The object that lists `pairs`; of two pairs with one key the last counts.
pub open spec fn last_wins(pairs: Seq<(Seq<char>, JsonTree)>) -> Map<Seq<char>, JsonTree>
    decreases pairs.len(),
{
    if pairs.len() == 0 {
        Map::empty()
    } else {
        last_wins(pairs.drop_last()).insert(pairs.last().0, pairs.last().1)
    }
}

/// The object with the members `pairs`; of two with one key the last counts.
pub open spec fn object_of(pairs: Seq<(Seq<char>, JsonTree)>) -> JsonTree {
    JsonTree::Object(last_wins(pairs))
}

/// The tree of the signed integer `n`.
pub open spec fn integer_tree(n: i64) -> JsonTree {
    if n < 0 {
        JsonTree::Negative(n)
    } else {
        JsonTree::Unsigned(n as u64)
    }
}

// ─── the value ───────────────────────────────────────────────────────────

/// A number that is no 64-bit integer.
#[derive(Debug, PartialEq)]
pub struct Fraction {
    number: serde_json::Number,
}

impl Fraction {
    /// The number as `serde_json` carries it.
    pub closed spec fn number(self) -> serde_json::Number {
        self.number
    }

    #[verifier::type_invariant]
    spec fn no_integer(self) -> bool {
        held_number(self.number) == JsonTree::Float(self.number)
    }
}

/// A JSON value.
#[derive(Debug, PartialEq)]
pub enum Json {
    Null,
    Bool(bool),
    Unsigned(u64),
    Integer(i64),
    Float(Fraction),
    Text(String),
    List(Vec<Json>),
    Object(Vec<(String, Json)>),
}

/// The tree of a value.
pub open spec fn tree_of(value: Json) -> JsonTree
    decreases value,
{
    match value {
        Json::Null => JsonTree::Null,
        Json::Bool(b) => JsonTree::Bool(b),
        Json::Unsigned(n) => JsonTree::Unsigned(n),
        Json::Integer(n) => integer_tree(n),
        Json::Float(n) => JsonTree::Float(n.number()),
        Json::Text(s) => JsonTree::Text(s@),
        Json::List(items) => JsonTree::List(item_trees(items@)),
        Json::Object(fields) => JsonTree::Object(last_wins(field_trees(fields@))),
    }
}

/// The trees of `items`, in order.
pub open spec fn item_trees(items: Seq<Json>) -> Seq<JsonTree>
    decreases items,
{
    if items.len() == 0 {
        Seq::empty()
    } else {
        item_trees(items.drop_last()).push(tree_of(items.last()))
    }
}

/// The keys and trees of `fields`, in order.
pub open spec fn field_trees(fields: Seq<(String, Json)>) -> Seq<(Seq<char>, JsonTree)>
    decreases fields,
{
    if fields.len() == 0 {
        Seq::empty()
    } else {
        field_trees(fields.drop_last()).push((fields.last().0@, tree_of(fields.last().1)))
    }
}

impl View for Json {
    type V = JsonTree;

    open spec fn view(&self) -> JsonTree {
        tree_of(*self)
    }
}

// ─── serde_json ──────────────────────────────────────────────────────────

/// A number of `serde_json`.
#[verifier::external_type_specification]
#[verifier::external_body]
pub struct ExNumber(serde_json::Number);

/// A value of `serde_json`.
#[verifier::external_type_specification]
#[verifier::external_body]
pub struct ExValue(serde_json::Value);

/// What a number of `serde_json` holds.
pub uninterp spec fn held_number(number: serde_json::Number) -> JsonTree;

/// What a value of `serde_json` holds.
pub uninterp spec fn held(value: serde_json::Value) -> JsonTree;

/// What `serde_json::from_str` makes of a text: the value, or the message of
/// its error.
pub uninterp spec fn parsed(text: Seq<char>) -> Result<JsonTree, Seq<char>>;

/// Whether `text` is JSON for `tree`.
pub open spec fn reads_as(text: Seq<char>, tree: JsonTree) -> bool {
    parsed(text) matches Ok(t) && t == tree
}

/// What `serde_json::to_string` writes for a value.
pub uninterp spec fn written(tree: JsonTree) -> Seq<char>;

/// One level of a value of `serde_json`.
pub(crate) enum Layer {
    Null,
    Bool(bool),
    Unsigned(u64),
    Integer(i64),
    Float(serde_json::Number),
    Text(String),
    List(Vec<serde_json::Value>),
    Object(Vec<(String, serde_json::Value)>),
}

pub(crate) open spec fn layer_pairs(fields: Seq<(String, serde_json::Value)>) -> Seq<
    (Seq<char>, JsonTree),
> {
    fields.map_values(|f: (String, serde_json::Value)| (f.0@, held(f.1)))
}

pub(crate) open spec fn layer_tree(layer: Layer) -> JsonTree {
    match layer {
        Layer::Null => JsonTree::Null,
        Layer::Bool(b) => JsonTree::Bool(b),
        Layer::Unsigned(n) => JsonTree::Unsigned(n),
        Layer::Integer(n) => integer_tree(n),
        Layer::Float(n) => held_number(n),
        Layer::Text(s) => JsonTree::Text(s@),
        Layer::List(items) => JsonTree::List(
            items@.map_values(|v: serde_json::Value| held(v)),
        ),
        Layer::Object(fields) => JsonTree::Object(last_wins(layer_pairs(fields@))),
    }
}

/// Takes a `serde_json::Value` apart by one level: its variants, `as_u64` and
/// `as_i64` of its number, and the entries of its map, in which no key occurs
/// twice. A number that is neither integer is a fraction.
#[verifier::external_body]
pub(crate) fn open_value(value: serde_json::Value) -> (r: Layer)
    ensures
        held(value) == layer_tree(r),
        r matches Layer::Float(n) ==> held_number(n) == JsonTree::Float(n),
        r matches Layer::Object(fields) ==> distinct_keys(layer_pairs(fields@)),
{
    match value {
        serde_json::Value::Null => Layer::Null,
        serde_json::Value::Bool(b) => Layer::Bool(b),
        serde_json::Value::Number(n) => match (n.as_u64(), n.as_i64()) {
            (Some(u), _) => Layer::Unsigned(u),
            (None, Some(i)) => Layer::Integer(i),
            (None, None) => Layer::Float(n),
        },
        serde_json::Value::String(s) => Layer::Text(s),
        serde_json::Value::Array(items) => Layer::List(items),
        serde_json::Value::Object(fields) => Layer::Object(fields.into_iter().collect()),
    }
}

/// Builds a `serde_json::Value` from one level. Of several entries with one key
/// `serde_json::Map` keeps the last.
#[verifier::external_body]
pub(crate) fn close_value(layer: Layer) -> (r: serde_json::Value)
    ensures
        held(r) == layer_tree(layer),
{
    match layer {
        Layer::Null => serde_json::Value::Null,
        Layer::Bool(b) => serde_json::Value::Bool(b),
        Layer::Unsigned(n) => serde_json::Value::from(n),
        Layer::Integer(n) => serde_json::Value::from(n),
        Layer::Float(n) => serde_json::Value::Number(n),
        Layer::Text(s) => serde_json::Value::String(s),
        Layer::List(items) => serde_json::Value::Array(items),
        Layer::Object(fields) => serde_json::Value::Object(fields.into_iter().collect()),
    }
}

/// `serde_json::from_str` into a `serde_json::Value`, with the error made its
/// message. Value and message depend on the text alone.
#[verifier::external_body]
pub(crate) fn read_value(text: &str) -> (r: Result<serde_json::Value, String>)
    ensures
        match r {
            Ok(v) => reads_as(text@, held(v)),
            Err(e) => parsed(text@) matches Err(message) && message == e@,
        },
{
    serde_json::from_str::<serde_json::Value>(text).map_err(|e| e.to_string())
}

/// `serde_json::to_string` of a `serde_json::Value`, which never fails on one.
/// The text depends on what the value holds alone, since the members of an
/// object come in the order of their keys; of a null, a truth value, an integer
/// or a text it reads back as that value.
#[verifier::external_body]
pub(crate) fn write_value(value: &serde_json::Value) -> (r: Result<String, serde_json::Error>)
    ensures
        r is Ok,
        r->Ok_0@ == written(held(*value)),
        held(*value).scalar() ==> reads_as(r->Ok_0@, held(*value)),
{
    serde_json::to_string(value)
}

/// An error of `serde_json`.
#[verifier::external_type_specification]
#[verifier::external_body]
pub struct ExError(serde_json::Error);

/// `Clone` of a `serde_json::Number`: the same number.
pub assume_specification[ <serde_json::Number as Clone>::clone ](
    number: &serde_json::Number,
) -> (r: serde_json::Number)
    ensures
        r == *number,
;

// ─── conversion ──────────────────────────────────────────────────────────

/// A member that is listed behind every other with its key is a member of the
/// object.
pub proof fn lemma_last_wins_at(pairs: Seq<(Seq<char>, JsonTree)>, i: int)
    requires
        0 <= i < pairs.len(),
        forall|j: int| i < j < pairs.len() ==> (#[trigger] pairs[j]).0 != pairs[i].0,
    ensures
        last_wins(pairs).dom().contains(pairs[i].0),
        last_wins(pairs)[pairs[i].0] == pairs[i].1,
    decreases pairs.len(),
{
    if i < pairs.len() - 1 {
        let front = pairs.drop_last();
        assert(pairs[pairs.len() - 1].0 != pairs[i].0);
        assert forall|j: int| i < j < front.len() implies (#[trigger] front[j]).0 != front[i].0 by {
            assert(front[j] == pairs[j]);
        }
        lemma_last_wins_at(front, i);
    }
}

proof fn lemma_last_wins_none(pairs: Seq<(Seq<char>, JsonTree)>, key: Seq<char>)
    requires
        forall|j: int| 0 <= j < pairs.len() ==> (#[trigger] pairs[j]).0 != key,
    ensures
        !last_wins(pairs).dom().contains(key),
    decreases pairs.len(),
{
    if pairs.len() > 0 {
        let front = pairs.drop_last();
        assert(pairs[pairs.len() - 1].0 != key);
        assert forall|j: int| 0 <= j < front.len() implies (#[trigger] front[j]).0 != key by {
            assert(front[j] == pairs[j]);
        }
        lemma_last_wins_none(front, key);
    }
}

/// `item_trees` goes item by item.
pub proof fn lemma_item_trees(items: Seq<Json>)
    ensures
        item_trees(items).len() == items.len(),
        forall|i: int| 0 <= i < items.len() ==> #[trigger] item_trees(items)[i] == tree_of(items[i]),
    decreases items.len(),
{
    if items.len() > 0 {
        lemma_item_trees(items.drop_last());
    }
}

/// `field_trees` goes field by field.
pub proof fn lemma_field_trees(fields: Seq<(String, Json)>)
    ensures
        field_trees(fields).len() == fields.len(),
        forall|i: int|
            0 <= i < fields.len() ==> #[trigger] field_trees(fields)[i] == (
                fields[i].0@,
                tree_of(fields[i].1),
            ),
    decreases fields.len(),
{
    if fields.len() > 0 {
        lemma_field_trees(fields.drop_last());
    }
}

impl Json {
    /// The value that `value` holds.
    pub fn from_value(value: serde_json::Value) -> (r: Json)
        ensures
            r@ == held(value),
        decreases held(value),
    {
        match open_value(value) {
            Layer::Null => Json::Null,
            Layer::Bool(b) => Json::Bool(b),
            Layer::Unsigned(n) => Json::Unsigned(n),
            Layer::Integer(n) => Json::Integer(n),
            Layer::Float(n) => Json::Float(Fraction { number: n }),
            Layer::Text(s) => Json::Text(s),
            Layer::List(items) => {
                let ghost all = items@;
                let mut out: Vec<Json> = Vec::new();
                let ghost trees = items@.map_values(|v: serde_json::Value| held(v));
                for item in it: items
                    invariant
                        it.seq() == all,
                        trees == all.map_values(|v: serde_json::Value| held(v)),
                        held(value) == JsonTree::List(trees),
                        item_trees(out@) == trees.take(it.index() as int),
                {
                    let ghost k = it.index() as int;
                    assert(trees[k] == held(item));
                    let ghost before = out@;
                    assert(decreases_to!(held(value) => held(value)->List_0[k]));
                    let next = Json::from_value(item);
                    out.push(next);
                    assert(out@.drop_last() =~= before);
                    assert(trees.take(k + 1) =~= trees.take(k).push(trees[k]));
                }
                assert(trees.take(trees.len() as int) =~= trees);
                Json::List(out)
            },
            Layer::Object(fields) => {
                let ghost all = fields@;
                let mut out: Vec<(String, Json)> = Vec::new();
                let ghost pairs = layer_pairs(fields@);
                for field in it: fields
                    invariant
                        it.seq() == all,
                        pairs == layer_pairs(all),
                        distinct_keys(pairs),
                        held(value) == JsonTree::Object(last_wins(pairs)),
                        field_trees(out@) == pairs.take(it.index() as int),
                {
                    let ghost k = it.index() as int;
                    let (key, member) = field;
                    proof {
                        lemma_last_wins_at(pairs, k);
                    }
                    let ghost before = out@;
                    assert(decreases_to!(held(value) => held(value)->Object_0[pairs[k].0]));
                    let next = Json::from_value(member);
                    out.push((key, next));
                    assert(out@.drop_last() =~= before);
                    assert(pairs.take(k + 1) =~= pairs.take(k).push(pairs[k]));
                }
                assert(pairs.take(pairs.len() as int) =~= pairs);
                Json::Object(out)
            },
        }
    }
}

impl Json {
    /// A `serde_json::Value` that holds this value.
    pub fn to_value(&self) -> (r: serde_json::Value)
        ensures
            held(r) == self@,
        decreases self,
    {
        let layer = match self {
            Json::Null => Layer::Null,
            Json::Bool(b) => Layer::Bool(*b),
            Json::Unsigned(n) => Layer::Unsigned(*n),
            Json::Integer(n) => Layer::Integer(*n),
            Json::Float(n) => {
                proof {
                    use_type_invariant(n);
                }
                Layer::Float(n.number.clone())
            },
            Json::Text(s) => Layer::Text(s.clone()),
            Json::List(items) => {
                let mut out: Vec<serde_json::Value> = Vec::new();
                let mut i: usize = 0;
                while i < items.len()
                    invariant
                        i == out@.len() <= items@.len(),
                        *self == Json::List(*items),
                        forall|j: int| 0 <= j < i ==> held(#[trigger] out@[j]) == items@[j]@,
                    decreases items@.len() - i,
                {
                    assert(decreases_to!(*self => self->List_0@[i as int]));
                    out.push(items[i].to_value());
                    i = i + 1;
                }
                proof {
                    lemma_item_trees(items@);
                    assert(out@.map_values(|v: serde_json::Value| held(v)) =~= item_trees(items@));
                }
                Layer::List(out)
            },
            Json::Object(fields) => {
                let mut out: Vec<(String, serde_json::Value)> = Vec::new();
                let mut i: usize = 0;
                while i < fields.len()
                    invariant
                        i == out@.len() <= fields@.len(),
                        *self == Json::Object(*fields),
                        forall|j: int|
                            0 <= j < i ==> (#[trigger] out@[j]).0@ == fields@[j].0@ && held(
                                out@[j].1,
                            ) == fields@[j].1@,
                    decreases fields@.len() - i,
                {
                    assert(decreases_to!(*self => self->Object_0@[i as int].1));
                    out.push((fields[i].0.clone(), fields[i].1.to_value()));
                    i = i + 1;
                }
                proof {
                    lemma_field_trees(fields@);
                    assert(layer_pairs(out@) =~= field_trees(fields@));
                }
                Layer::Object(out)
            },
        };
        close_value(layer)
    }
}

impl Clone for Json {
    fn clone(&self) -> (r: Self)
        ensures
            r@ == self@,
        decreases self,
    {
        match self {
            Json::Null => Json::Null,
            Json::Bool(b) => Json::Bool(*b),
            Json::Unsigned(n) => Json::Unsigned(*n),
            Json::Integer(n) => Json::Integer(*n),
            Json::Float(n) => {
                proof {
                    use_type_invariant(n);
                }
                Json::Float(Fraction { number: n.number.clone() })
            },
            Json::Text(s) => Json::Text(s.clone()),
            Json::List(items) => {
                let mut out: Vec<Json> = Vec::new();
                let mut i: usize = 0;
                while i < items.len()
                    invariant
                        i == out@.len() <= items@.len(),
                        *self == Json::List(*items),
                        forall|j: int| 0 <= j < i ==> (#[trigger] out@[j])@ == items@[j]@,
                    decreases items@.len() - i,
                {
                    assert(decreases_to!(*self => self->List_0@[i as int]));
                    out.push(items[i].clone());
                    i = i + 1;
                }
                proof {
                    lemma_item_trees(items@);
                    lemma_item_trees(out@);
                    assert(item_trees(out@) =~= item_trees(items@));
                }
                Json::List(out)
            },
            Json::Object(fields) => {
                let mut out: Vec<(String, Json)> = Vec::new();
                let mut i: usize = 0;
                while i < fields.len()
                    invariant
                        i == out@.len() <= fields@.len(),
                        *self == Json::Object(*fields),
                        forall|j: int|
                            0 <= j < i ==> (#[trigger] out@[j]).0@ == fields@[j].0@ && out@[j].1@
                                == fields@[j].1@,
                    decreases fields@.len() - i,
                {
                    assert(decreases_to!(*self => self->Object_0@[i as int].1));
                    out.push((fields[i].0.clone(), fields[i].1.clone()));
                    i = i + 1;
                }
                proof {
                    lemma_field_trees(fields@);
                    lemma_field_trees(out@);
                    assert(field_trees(out@) =~= field_trees(fields@));
                }
                Json::Object(out)
            },
        }
    }
}

/// The keys and trees of `fields`, in order.
pub open spec fn members(fields: Seq<(String, Json)>) -> Seq<(Seq<char>, JsonTree)> {
    fields.map_values(|f: (String, Json)| (f.0@, f.1@))
}

/// The views of an optional value.
pub open spec fn opt_tree(value: Option<&Json>) -> Option<JsonTree> {
    match value {
        Some(v) => Some(v@),
        None => None,
    }
}

impl Json {
    /// Reads JSON text.
    pub fn parse(text: &str) -> (r: Result<Json, String>)
        ensures
            match r {
                Ok(v) => reads_as(text@, v@),
                Err(e) => parsed(text@) matches Err(message) && message == e@,
            },
    {
        match read_value(text) {
            Ok(v) => Ok(Json::from_value(v)),
            Err(e) => Err(e),
        }
    }

    /// The value as compact JSON text.
    pub fn to_text(&self) -> (r: String)
        ensures
            r@ == written(self@),
            self@.scalar() ==> reads_as(r@, self@),
    {
        let value = self.to_value();
        match write_value(&value) {
            Ok(s) => s,
            Err(_) => String::new(),
        }
    }

    /// The member `key` of an object.
    pub fn get(&self, key: &str) -> (r: Option<&Json>)
        ensures
            opt_tree(r) == self@.get(key@),
    {
        match self {
            Json::Object(fields) => {
                let mut i: usize = fields.len();
                proof {
                    lemma_field_trees(fields@);
                }
                while i > 0
                    invariant
                        i <= fields@.len() == field_trees(fields@).len(),
                        self@ == JsonTree::Object(last_wins(field_trees(fields@))),
                        forall|j: int|
                            0 <= j < fields@.len() ==> #[trigger] field_trees(fields@)[j] == (
                                fields@[j].0@,
                                tree_of(fields@[j].1),
                            ),
                        forall|j: int|
                            i <= j < fields@.len() ==> (#[trigger] field_trees(fields@)[j]).0
                                != key@,
                    decreases i,
                {
                    i = i - 1;
                    let ghost here = field_trees(fields@)[i as int];
                    if same_text(fields[i].0.as_str(), key) {
                        proof {
                            lemma_last_wins_at(field_trees(fields@), i as int);
                        }
                        return Some(&fields[i].1);
                    }
                }
                proof {
                    lemma_last_wins_none(field_trees(fields@), key@);
                }
                None
            },
            _ => None,
        }
    }

    /// The text of a text value.
    pub fn as_str(&self) -> (r: Option<&str>)
        ensures
            opt_text(r) == self@.text(),
    {
        match self {
            Json::Text(s) => Some(s.as_str()),
            _ => None,
        }
    }

    /// The text of the member `key` of an object.
    pub fn str_at(&self, key: &str) -> (r: Option<&str>)
        ensures
            opt_text(r) == self@.text_at(key@),
    {
        match self.get(key) {
            Some(v) => v.as_str(),
            None => None,
        }
    }

    /// The number, where it is a `u64`.
    pub fn as_u64(&self) -> (r: Option<u64>)
        ensures
            r == self@.unsigned(),
    {
        match self {
            Json::Unsigned(n) => Some(*n),
            Json::Integer(n) => if *n >= 0 {
                Some(*n as u64)
            } else {
                None
            },
            _ => None,
        }
    }

    /// The number, where it is an `i64`.
    pub fn as_i64(&self) -> (r: Option<i64>)
        ensures
            r == self@.signed(),
    {
        match self {
            Json::Unsigned(n) => if *n <= i64::MAX as u64 {
                Some(*n as i64)
            } else {
                None
            },
            Json::Integer(n) => Some(*n),
            _ => None,
        }
    }

    /// The object with the members `fields`.
    pub fn object(fields: Vec<(String, Json)>) -> (r: Json)
        ensures
            r@ == object_of(members(fields@)),
    {
        proof {
            lemma_field_trees(fields@);
            assert(field_trees(fields@) =~= members(fields@));
        }
        Json::Object(fields)
    }

    /// The list of one item.
    pub fn list_of_one(item: Json) -> (r: Json)
        ensures
            r@ == JsonTree::List(seq![item@]),
    {
        let items: Vec<Json> = vec![item];
        proof {
            lemma_item_trees(items@);
            assert(item_trees(items@) =~= seq![item@]);
        }
        Json::List(items)
    }

    /// A text value.
    pub fn text(s: &str) -> (r: Json)
        ensures
            r@ == JsonTree::Text(s@),
    {
        Json::Text(s.to_owned())
    }
}

// ─── what holds of every value ───────────────────────────────────────────

/// An object has the members it lists, and no others; what is no object has none.
pub proof fn lemma_members(pairs: Seq<(Seq<char>, JsonTree)>, value: JsonTree, key: Seq<char>)
    requires
        distinct_keys(pairs),
    ensures
        forall|i: int|
            0 <= i < pairs.len() ==> object_of(pairs).get((#[trigger] pairs[i]).0) == Some(
                pairs[i].1,
            ),
        (forall|i: int| 0 <= i < pairs.len() ==> (#[trigger] pairs[i]).0 != key) ==> object_of(
            pairs,
        ).get(key) is None,
        !(value is Object) ==> value.get(key) is None,
        value.text_at(key) is Some <==> (value.get(key) matches Some(member) && member is Text),
        value.get(key) matches Some(JsonTree::Text(s)) ==> value.text_at(key) == Some(s),
{
    assert forall|i: int| 0 <= i < pairs.len() implies object_of(pairs).get(
        (#[trigger] pairs[i]).0,
    ) == Some(pairs[i].1) by {
        lemma_last_wins_at(pairs, i);
    }
    if forall|i: int| 0 <= i < pairs.len() ==> (#[trigger] pairs[i]).0 != key {
        lemma_last_wins_none(pairs, key);
    }
}

/// A value says what it was made of: a text its characters, a number itself, a
/// list its items in order, an object the last member under each key.
pub proof fn lemma_value_says(value: Json)
    ensures
        value matches Json::Null ==> value@ == JsonTree::Null,
        value matches Json::Bool(b) ==> value@ == JsonTree::Bool(b),
        value matches Json::Text(s) ==> value@ == JsonTree::Text(s@) && value@.text() == Some(s@),
        value matches Json::Unsigned(n) ==> value@.unsigned() == Some(n) && value@.text() is None,
        value matches Json::Integer(n) ==> value@.signed() == Some(n) && (value@.unsigned() is Some
            <==> n >= 0),
        value matches Json::List(items) ==> (value@ matches JsonTree::List(trees) && trees.len()
            == items@.len() && forall|i: int|
            0 <= i < items@.len() ==> #[trigger] trees[i] == items@[i]@),
        value matches Json::Object(fields) ==> forall|i: int|
            0 <= i < fields@.len() && (forall|j: int|
                i < j < fields@.len() ==> (#[trigger] fields@[j]).0@ != fields@[i].0@)
                ==> value@.get((#[trigger] fields@[i]).0@) == Some(fields@[i].1@),
{
    match value {
        Json::List(items) => {
            lemma_item_trees(items@);
        },
        Json::Object(fields) => {
            lemma_field_trees(fields@);
            let pairs = field_trees(fields@);
            assert forall|i: int|
                0 <= i < fields@.len() && (forall|j: int|
                    i < j < fields@.len() ==> (#[trigger] fields@[j]).0@
                        != fields@[i].0@) implies value@.get((#[trigger] fields@[i]).0@) == Some(
                fields@[i].1@,
            ) by {
                assert(pairs[i] == (fields@[i].0@, tree_of(fields@[i].1)));
                assert forall|j: int| i < j < pairs.len() implies (#[trigger] pairs[j]).0
                    != pairs[i].0 by {
                    assert(pairs[j] == (fields@[j].0@, tree_of(fields@[j].1)));
                }
                lemma_last_wins_at(pairs, i);
            }
        },
        _ => {},
    }
}

} // verus!
