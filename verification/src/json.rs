//! JSON values as plain data, read and written through `serde_json`.

use crate::text;
use vstd::prelude::*;

verus! {

// ── models ──────────────────────────────────────────────────────────
/// A JSON number: a whole number, or the first character and the rest of the text of any other.
pub enum NumberView {
    Integer(int),
    Real(char, Seq<char>),
}

/// What a JSON value is.
#[verifier::ext_equal]
pub enum JsonView {
    Null,
    Bool(bool),
    Number(NumberView),
    Text(Seq<char>),
    List(Seq<JsonView>),
    Object(Map<Seq<char>, JsonView>),
}

/// The members of an empty object.
pub open spec fn no_fields() -> Map<Seq<char>, JsonView> {
    Map::empty()
}

/// The entry of a map, if there is one.
pub open spec fn lookup(m: Map<Seq<char>, JsonView>, key: Seq<char>) -> Option<JsonView> {
    if m.contains_key(key) {
        Some(m[key])
    } else {
        None
    }
}

impl JsonView {
    /// The member `key` of an object.
    pub open spec fn field(self, key: Seq<char>) -> Option<JsonView> {
        match self {
            JsonView::Object(m) => lookup(m, key),
            _ => None,
        }
    }

    /// The string itself, of a string.
    pub open spec fn text(self) -> Option<Seq<char>> {
        match self {
            JsonView::Text(s) => Some(s),
            _ => None,
        }
    }

    /// The truth value itself, of a boolean.
    pub open spec fn truth(self) -> Option<bool> {
        match self {
            JsonView::Bool(b) => Some(b),
            _ => None,
        }
    }

    /// The whole number, of a number that is one between zero and `u64::MAX`.
    pub open spec fn unsigned(self) -> Option<u64> {
        match self {
            JsonView::Number(n) => unsigned_of(n),
            _ => None,
        }
    }

    /// The whole number, of a number that is one in the range of `i64`.
    pub open spec fn signed(self) -> Option<i64> {
        match self {
            JsonView::Number(n) => signed_of(n),
            _ => None,
        }
    }

    /// The elements, of an array.
    pub open spec fn list(self) -> Option<Seq<JsonView>> {
        match self {
            JsonView::List(items) => Some(items),
            _ => None,
        }
    }

    /// What a JSON pointer's token `0` leads to: the first element of an array, or the member
    /// `"0"` of an object.
    pub open spec fn zeroth(self) -> Option<JsonView> {
        match self {
            JsonView::List(items) if items.len() > 0 => Some(items[0]),
            JsonView::Object(m) => lookup(m, "0"@),
            _ => None,
        }
    }

    /// The string at the member `key`.
    pub open spec fn text_at(self, key: Seq<char>) -> Option<Seq<char>> {
        match self.field(key) {
            Some(v) => v.text(),
            None => None,
        }
    }

    /// The boolean at the member `key`.
    pub open spec fn truth_at(self, key: Seq<char>) -> Option<bool> {
        match self.field(key) {
            Some(v) => v.truth(),
            None => None,
        }
    }

    /// The `u64` at the member `key`.
    pub open spec fn unsigned_at(self, key: Seq<char>) -> Option<u64> {
        match self.field(key) {
            Some(v) => v.unsigned(),
            None => None,
        }
    }

    /// The `i64` at the member `key`.
    pub open spec fn signed_at(self, key: Seq<char>) -> Option<i64> {
        match self.field(key) {
            Some(v) => v.signed(),
            None => None,
        }
    }

    /// The array at the member `key`.
    pub open spec fn list_at(self, key: Seq<char>) -> Option<Seq<JsonView>> {
        match self.field(key) {
            Some(v) => v.list(),
            None => None,
        }
    }
}

pub open spec fn unsigned_of(n: NumberView) -> Option<u64> {
    match n {
        NumberView::Integer(i) if 0 <= i <= u64::MAX => Some(i as u64),
        _ => None,
    }
}

pub open spec fn signed_of(n: NumberView) -> Option<i64> {
    match n {
        NumberView::Integer(i) if i64::MIN <= i <= i64::MAX => Some(i as i64),
        _ => None,
    }
}

/// The text of a number.
pub open spec fn number_chars(n: NumberView) -> Seq<char> {
    match n {
        NumberView::Integer(i) => crate::text::int_text(i),
        NumberView::Real(first, rest) => seq![first] + rest,
    }
}

/// The member name that `serde_json` keeps to itself: an object that begins with it is read as the
/// value that the text of that member describes.
pub open spec fn reserved_name() -> Seq<char> {
    "$serde_json::private::RawValue"@
}

/// Whether a value nests at most `depth` arrays and objects, holds only whole numbers, in the
/// range of `i64` or of `u64`, and has no member under the reserved name.
pub open spec fn plain(t: JsonView, depth: nat) -> bool
    decreases depth,
{
    match t {
        JsonView::Null => true,
        JsonView::Bool(b) => true,
        JsonView::Number(n) => n matches NumberView::Integer(i) && i64::MIN <= i <= u64::MAX,
        JsonView::Text(s) => true,
        JsonView::List(items) => depth > 0 && forall|i: int|
            0 <= i < items.len() ==> plain(#[trigger] items[i], (depth - 1) as nat),
        JsonView::Object(m) => depth > 0 && m.dom().finite() && !m.contains_key(reserved_name())
            && forall|k: Seq<char>| #[trigger]
            m.contains_key(k) ==> plain(m[k], (depth - 1) as nat),
    }
}

// ── the outside crate ───────────────────────────────────────────────
/// `serde_json::Number`, a JSON number.
#[verifier::external_type_specification]
#[verifier::external_body]
pub struct ExNumber(serde_json::Number);

/// `serde_json::Value`, a JSON value.
#[verifier::external_type_specification]
#[verifier::external_body]
pub struct ExValue(serde_json::Value);

/// `serde_json::Map`, the members of a JSON object.
#[verifier::external_type_specification]
#[verifier::external_body]
#[verifier::reject_recursive_types(K)]
#[verifier::reject_recursive_types(V)]
pub struct ExMap<K, V>(serde_json::Map<K, V>);

/// What a `serde_json::Number` holds.
pub uninterp spec fn number_view(n: serde_json::Number) -> NumberView;

/// What a `serde_json::Value` holds.
pub uninterp spec fn value_tree(v: serde_json::Value) -> JsonView;

/// What a `serde_json::Map` holds.
pub uninterp spec fn map_fields(m: serde_json::Map<String, serde_json::Value>) -> Map<
    Seq<char>,
    JsonView,
>;

/// What `serde_json::from_str` makes of a text: a value, or the text of its error.
pub uninterp spec fn parsed_json(text: Seq<char>) -> Result<JsonView, Seq<char>>;

/// How `serde_json::Value` is written, without white space between its parts.
pub uninterp spec fn json_text(t: JsonView) -> Seq<char>;

/// The outcome of reading a text as the value `t`.
pub open spec fn read_as(t: JsonView) -> Result<JsonView, Seq<char>> {
    Ok(t)
}

/// `Number::as_u64`: the number, where it is whole and in the range of `u64`.
pub assume_specification[ serde_json::Number::as_u64 ](n: &serde_json::Number) -> (r: Option<u64>)
    ensures
        r == unsigned_of(number_view(*n)),
;

/// `Number::as_i64`: the number, where it is whole and in the range of `i64`.
pub assume_specification[ serde_json::Number::as_i64 ](n: &serde_json::Number) -> (r: Option<i64>)
    ensures
        r == signed_of(number_view(*n)),
;

/// `Number::clone`: the same number.
pub assume_specification[ <serde_json::Number as Clone>::clone ](n: &serde_json::Number) -> (r:
    serde_json::Number)
    ensures
        r == *n,
;

/// `Number::to_string`: a whole number in decimal, any other as its own text.
#[verifier::external_body]
fn number_string(n: &serde_json::Number) -> (r: String)
    ensures
        r@ == number_chars(number_view(*n)),
{
    n.to_string()
}

/// `Number::from` of a `u64`: that whole number.
#[verifier::external_body]
fn number_from_u64(n: u64) -> (r: serde_json::Number)
    ensures
        number_view(r) == NumberView::Integer(n as int),
{
    serde_json::Number::from(n)
}

/// `Number::from` of an `i64`: that whole number.
#[verifier::external_body]
fn number_from_i64(n: i64) -> (r: serde_json::Number)
    ensures
        number_view(r) == NumberView::Integer(n as int),
{
    serde_json::Number::from(n)
}

/// `Map::new`: no members.
pub assume_specification[ serde_json::Map::<String, serde_json::Value>::new ]() -> (r:
    serde_json::Map<String, serde_json::Value>)
    ensures
        map_fields(r) == no_fields(),
;

/// `Map::insert`: the member `k` is `v` afterwards, and the others are as before; what was
/// there before is handed back.
pub assume_specification[ serde_json::Map::<String, serde_json::Value>::insert ](
    m: &mut serde_json::Map<String, serde_json::Value>,
    k: String,
    v: serde_json::Value,
) -> (r: Option<serde_json::Value>)
    ensures
        map_fields(*final(m)) == map_fields(*old(m)).insert(k@, value_tree(v)),
        match r {
            Some(was) => lookup(map_fields(*old(m)), k@) == Some(value_tree(was)),
            None => lookup(map_fields(*old(m)), k@) is None,
        },
;

/// The members that a list of pairs describes, a later pair standing for an earlier one of the
/// same name.
pub open spec fn pair_fields(pairs: Seq<(String, serde_json::Value)>) -> Map<Seq<char>, JsonView>
    decreases pairs.len(),
{
    if pairs.len() == 0 {
        Map::empty()
    } else {
        pair_fields(pairs.drop_last()).insert(pairs.last().0@, value_tree(pairs.last().1))
    }
}

proof fn lemma_pair_fields_finite(pairs: Seq<(String, serde_json::Value)>)
    ensures
        pair_fields(pairs).dom().finite(),
    decreases pairs.len(),
{
    if pairs.len() > 0 {
        lemma_pair_fields_finite(pairs.drop_last());
    }
}

/// `Map::into_iter`: every member with its value, each once.
#[verifier::external_body]
fn map_pairs(m: serde_json::Map<String, serde_json::Value>) -> (r: Vec<
    (String, serde_json::Value),
>)
    ensures
        pair_fields(r@) == map_fields(m),
        forall|i: int|
            0 <= i < r@.len() ==> lookup(map_fields(m), (#[trigger] r@[i]).0@) == Some(
                value_tree(r@[i].1),
            ),
        forall|i: int, j: int| 0 <= i < j < r@.len() ==> r@[i].0@ != r@[j].0@,
{
    m.into_iter().collect()
}

/// One layer of a `serde_json::Value`.
enum Layer {
    Null,
    Bool(bool),
    Number(serde_json::Number),
    Text(String),
    List(Vec<serde_json::Value>),
    Object(serde_json::Map<String, serde_json::Value>),
}

spec fn value_trees(items: Seq<serde_json::Value>) -> Seq<JsonView> {
    Seq::new(items.len(), |i: int| value_tree(items[i]))
}

spec fn layer_tree(layer: Layer) -> JsonView {
    match layer {
        Layer::Null => JsonView::Null,
        Layer::Bool(b) => JsonView::Bool(b),
        Layer::Number(n) => JsonView::Number(number_view(n)),
        Layer::Text(s) => JsonView::Text(s@),
        Layer::List(items) => JsonView::List(value_trees(items@)),
        Layer::Object(m) => JsonView::Object(map_fields(m)),
    }
}

/// The variant of a `serde_json::Value`, with what it holds.
#[verifier::external_body]
fn open_value(v: serde_json::Value) -> (r: Layer)
    ensures
        layer_tree(r) == value_tree(v),
{
    match v {
        serde_json::Value::Null => Layer::Null,
        serde_json::Value::Bool(b) => Layer::Bool(b),
        serde_json::Value::Number(n) => Layer::Number(n),
        serde_json::Value::String(s) => Layer::Text(s),
        serde_json::Value::Array(items) => Layer::List(items),
        serde_json::Value::Object(m) => Layer::Object(m),
    }
}

/// The `serde_json::Value` of a variant, with what it holds.
#[verifier::external_body]
fn close_value(layer: Layer) -> (r: serde_json::Value)
    ensures
        value_tree(r) == layer_tree(layer),
{
    match layer {
        Layer::Null => serde_json::Value::Null,
        Layer::Bool(b) => serde_json::Value::Bool(b),
        Layer::Number(n) => serde_json::Value::Number(n),
        Layer::Text(s) => serde_json::Value::String(s),
        Layer::List(items) => serde_json::Value::Array(items),
        Layer::Object(m) => serde_json::Value::Object(m),
    }
}

/// `serde_json::from_str`: the value that the text describes, or the text of the error.
#[verifier::external_body]
fn parse_value(text: &str) -> (r: Result<serde_json::Value, String>)
    ensures
        match parsed_json(text@) {
            Ok(t) => r matches Ok(v) && value_tree(v) == t,
            Err(m) => r matches Err(e) && e@ == m,
        },
{
    serde_json::from_str(text).map_err(|e: serde_json::Error| e.to_string())
}

/// `Value::to_string`: the value on one line, without white space between its parts. An object
/// stands in braces. `serde_json::from_str` reads back what was written of a value that is not
/// nested too deep, holds no number with a fraction or an exponent, and has no member under the
/// name that the crate keeps for raw values.
#[verifier::external_body]
fn value_string(v: &serde_json::Value) -> (r: String)
    ensures
        r@ == json_text(value_tree(*v)),
        !r@.contains('\n'),
        !r@.contains('\r'),
        plain(value_tree(*v), 100) ==> parsed_json(r@) == read_as(value_tree(*v)),
        value_tree(*v) is Object ==> r@.len() >= 2 && r@[0] == '{' && r@.last() == '}',
{
    v.to_string()
}

// ── values ──────────────────────────────────────────────────────────
/// A JSON value.
#[derive(Debug)]
pub enum Json {
    Null,
    Bool(bool),
    Number(serde_json::Number),
    Text(String),
    List(Vec<Json>),
    Object(JsonObject),
}

/// The members of a JSON object. A later entry stands for an earlier one of the same name.
#[derive(Debug)]
pub struct JsonObject {
    pub entries: Vec<(String, Json)>,
}

pub open spec fn tree_of(j: Json) -> JsonView
    decreases j,
{
    match j {
        Json::Null => JsonView::Null,
        Json::Bool(b) => JsonView::Bool(b),
        Json::Number(n) => JsonView::Number(number_view(n)),
        Json::Text(s) => JsonView::Text(s@),
        Json::List(items) => JsonView::List(trees_of(items@)),
        Json::Object(o) => JsonView::Object(fields_of(o.entries@)),
    }
}

pub open spec fn trees_of(items: Seq<Json>) -> Seq<JsonView>
    decreases items,
{
    Seq::new(
        items.len(),
        |i: int|
            if 0 <= i < items.len() {
                tree_of(items[i])
            } else {
                JsonView::Null
            },
    )
}

pub open spec fn fields_of(entries: Seq<(String, Json)>) -> Map<Seq<char>, JsonView>
    decreases entries,
{
    if entries.len() == 0 {
        Map::empty()
    } else {
        fields_of(entries.drop_last()).insert(entries.last().0@, tree_of(entries.last().1))
    }
}

impl View for Json {
    type V = JsonView;

    open spec fn view(&self) -> JsonView {
        tree_of(*self)
    }
}

impl View for JsonObject {
    type V = Map<Seq<char>, JsonView>;

    open spec fn view(&self) -> Map<Seq<char>, JsonView> {
        fields_of(self.entries@)
    }
}

/// What an optional reference to a value holds.
pub open spec fn opt_tree(j: Option<&Json>) -> Option<JsonView> {
    match j {
        Some(v) => Some(v@),
        None => None,
    }
}

impl JsonObject {
    /// An object without members.
    pub fn new() -> (r: JsonObject)
        ensures
            r@ == Map::<Seq<char>, JsonView>::empty(),
    {
        JsonObject { entries: Vec::new() }
    }

    /// Sets the member `key` to `value`.
    pub fn put(&mut self, key: &str, value: Json)
        ensures
            final(self)@ == old(self)@.insert(key@, value@),
    {
        let ghost before = self.entries@;
        self.entries.push((key.to_string(), value));
        assert(self.entries@.drop_last() =~= before);
    }

    /// The member `key`, if there is one.
    pub fn get(&self, key: &str) -> (r: Option<&Json>)
        ensures
            opt_tree(r) == lookup(self@, key@),
    {
        let mut i: usize = self.entries.len();
        assert(self.entries@.take(i as int) =~= self.entries@);
        while i > 0
            invariant
                i <= self.entries@.len(),
                lookup(fields_of(self.entries@.take(i as int)), key@) == lookup(self@, key@),
            decreases i,
        {
            let ghost head = self.entries@.take(i as int);
            assert(head.last() == self.entries@[i - 1]);
            assert(head.drop_last() =~= self.entries@.take(i - 1));
            if text::same(self.entries[i - 1].0.as_str(), key) {
                return Some(&self.entries[i - 1].1);
            }
            i -= 1;
        }
        None
    }
}

impl Json {
    /// A JSON string.
    pub fn text(s: &str) -> (r: Json)
        ensures
            r@ == JsonView::Text(s@),
    {
        Json::Text(s.to_string())
    }

    /// A JSON string, or null.
    pub fn text_or_null(s: &Option<String>) -> (r: Json)
        ensures
            r@ == text_or_null_view(text::opt_view(*s)),
    {
        match s {
            Some(s) => Json::Text(s.clone()),
            None => Json::Null,
        }
    }

    /// A whole number from zero on.
    pub fn unsigned(n: u64) -> (r: Json)
        ensures
            r@ == integer(n as int),
    {
        Json::Number(number_from_u64(n))
    }

    /// A whole number.
    pub fn signed(n: i64) -> (r: Json)
        ensures
            r@ == integer(n as int),
    {
        Json::Number(number_from_i64(n))
    }

    /// The text of a value that is a number.
    pub fn number_text(&self) -> (r: Option<String>)
        ensures
            text::opt_view(r) == (match self@ {
                JsonView::Number(n) => Some(number_chars(n)),
                _ => None,
            }),
    {
        match self {
            Json::Number(n) => Some(number_string(n)),
            _ => None,
        }
    }

    /// The member `key` of an object.
    pub fn get(&self, key: &str) -> (r: Option<&Json>)
        ensures
            opt_tree(r) == self@.field(key@),
    {
        match self {
            Json::Object(o) => o.get(key),
            _ => None,
        }
    }

    pub fn is_object(&self) -> (r: bool)
        ensures
            r == (self@ is Object),
    {
        match self {
            Json::Object(_) => true,
            _ => false,
        }
    }

    pub fn as_str(&self) -> (r: Option<&str>)
        ensures
            text::opt_str_view(r) == self@.text(),
    {
        match self {
            Json::Text(s) => Some(s.as_str()),
            _ => None,
        }
    }

    pub fn as_bool(&self) -> (r: Option<bool>)
        ensures
            r == self@.truth(),
    {
        match self {
            Json::Bool(b) => Some(*b),
            _ => None,
        }
    }

    pub fn as_u64(&self) -> (r: Option<u64>)
        ensures
            r == self@.unsigned(),
    {
        match self {
            Json::Number(n) => n.as_u64(),
            _ => None,
        }
    }

    pub fn as_i64(&self) -> (r: Option<i64>)
        ensures
            r == self@.signed(),
    {
        match self {
            Json::Number(n) => n.as_i64(),
            _ => None,
        }
    }

    pub fn as_list(&self) -> (r: Option<&Vec<Json>>)
        ensures
            match r {
                Some(items) => self@.list() == Some(trees_of(items@)),
                None => self@.list() is None,
            },
    {
        match self {
            Json::List(items) => Some(items),
            _ => None,
        }
    }

    /// What a JSON pointer's token `0` leads to.
    pub fn zeroth(&self) -> (r: Option<&Json>)
        ensures
            opt_tree(r) == self@.zeroth(),
    {
        match self {
            Json::List(items) => if items.len() > 0 {
                Some(&items[0])
            } else {
                None
            },
            Json::Object(o) => o.get("0"),
            _ => None,
        }
    }

    /// The string at the member `key`.
    pub fn str_at(&self, key: &str) -> (r: Option<&str>)
        ensures
            text::opt_str_view(r) == self@.text_at(key@),
    {
        match self.get(key) {
            Some(v) => v.as_str(),
            None => None,
        }
    }

    /// The boolean at the member `key`.
    pub fn bool_at(&self, key: &str) -> (r: Option<bool>)
        ensures
            r == self@.truth_at(key@),
    {
        match self.get(key) {
            Some(v) => v.as_bool(),
            None => None,
        }
    }

    /// The `u64` at the member `key`.
    pub fn u64_at(&self, key: &str) -> (r: Option<u64>)
        ensures
            r == self@.unsigned_at(key@),
    {
        match self.get(key) {
            Some(v) => v.as_u64(),
            None => None,
        }
    }

    /// The `i64` at the member `key`.
    pub fn i64_at(&self, key: &str) -> (r: Option<i64>)
        ensures
            r == self@.signed_at(key@),
    {
        match self.get(key) {
            Some(v) => v.as_i64(),
            None => None,
        }
    }

    /// The array at the member `key`.
    pub fn list_at(&self, key: &str) -> (r: Option<&Vec<Json>>)
        ensures
            match r {
                Some(items) => self@.list_at(key@) == Some(trees_of(items@)),
                None => self@.list_at(key@) is None,
            },
    {
        match self.get(key) {
            Some(v) => v.as_list(),
            None => None,
        }
    }

    /// The same value once more.
    pub fn copy(&self) -> (r: Json)
        ensures
            r@ == self@,
        decreases *self,
    {
        match self {
            Json::Null => Json::Null,
            Json::Bool(b) => Json::Bool(*b),
            Json::Number(n) => Json::Number(n.clone()),
            Json::Text(s) => Json::Text(s.clone()),
            Json::List(items) => {
                let mut out: Vec<Json> = Vec::new();
                let mut i: usize = 0;
                while i < items.len()
                    invariant
                        i <= items.len(),
                        *self == Json::List(*items),
                        out@.len() == i,
                        forall|k: int| 0 <= k < i ==> (#[trigger] out@[k])@ == items@[k]@,
                    decreases items.len() - i,
                {
                    assert(decreases_to!(*self => self->List_0));
                    assert(decreases_to!(*items => items@));
                    assert(decreases_to!(items@ => items@[i as int]));
                    out.push(items[i].copy());
                    i += 1;
                }
                assert(trees_of(out@) =~= trees_of(items@));
                Json::List(out)
            },
            Json::Object(o) => {
                let mut out: Vec<(String, Json)> = Vec::new();
                let mut i: usize = 0;
                while i < o.entries.len()
                    invariant
                        i <= o.entries.len(),
                        *self == Json::Object(*o),
                        fields_of(out@) == fields_of(o.entries@.take(i as int)),
                    decreases o.entries.len() - i,
                {
                    assert(decreases_to!(*self => self->Object_0));
                    assert(decreases_to!(*o => o.entries));
                    assert(decreases_to!(o.entries => o.entries@));
                    assert(decreases_to!(o.entries@ => o.entries@[i as int]));
                    assert(decreases_to!(o.entries@[i as int] => o.entries@[i as int].1));
                    let value = o.entries[i].1.copy();
                    let ghost before = out@;
                    out.push((o.entries[i].0.clone(), value));
                    assert(out@.drop_last() =~= before);
                    assert(o.entries@.take(i + 1).drop_last() =~= o.entries@.take(i as int));
                    i += 1;
                }
                assert(o.entries@.take(i as int) =~= o.entries@);
                Json::Object(JsonObject { entries: out })
            },
        }
    }

    /// The value that a `serde_json::Value` holds.
    fn of_value(v: serde_json::Value) -> (r: Json)
        ensures
            r@ == value_tree(v),
        decreases value_tree(v),
    {
        let ghost tree = value_tree(v);
        match open_value(v) {
            Layer::Null => Json::Null,
            Layer::Bool(b) => Json::Bool(b),
            Layer::Number(n) => Json::Number(n),
            Layer::Text(s) => Json::Text(s),
            Layer::List(items) => {
                let ghost all = items@;
                let ghost trees = value_trees(all);
                let mut out: Vec<Json> = Vec::new();
                for item in it: items
                    invariant
                        it.seq() == all,
                        tree == value_tree(v),
                        tree == JsonView::List(trees),
                        trees == value_trees(all),
                        out@.len() == it.index(),
                        forall|k: int| 0 <= k < out@.len() ==> (#[trigger] out@[k])@ == trees[k],
                {
                    assert(item == all[out@.len() as int]);
                    assert(decreases_to!(tree => tree->List_0));
                    assert(decreases_to!(trees => trees[out@.len() as int]));
                    out.push(Json::of_value(item));
                }
                assert(trees_of(out@) =~= trees);
                Json::List(out)
            },
            Layer::Object(m) => {
                let ghost fields = map_fields(m);
                let pairs = map_pairs(m);
                let ghost all = pairs@;
                proof {
                    lemma_pair_fields_finite(all);
                }
                let mut out = JsonObject::new();
                assert(all.take(0) =~= Seq::empty());
                for pair in it: pairs
                    invariant
                        it.seq() == all,
                        tree == value_tree(v),
                        tree == JsonView::Object(fields),
                        fields.dom().finite(),
                        forall|i: int|
                            0 <= i < all.len() ==> lookup(fields, (#[trigger] all[i]).0@) == Some(
                                value_tree(all[i].1),
                            ),
                        out@ == pair_fields(all.take(it.index())),
                {
                    let ghost i = it.index();
                    assert(pair == all[i]);
                    assert(decreases_to!(tree => tree->Object_0));
                    assert(decreases_to!(fields => fields[pair.0@]));
                    assert(all.take(i + 1).drop_last() =~= all.take(i));
                    out.put(pair.0.as_str(), Json::of_value(pair.1));
                }
                assert(all.take(all.len() as int) =~= all);
                Json::Object(out)
            },
        }
    }

    /// A `serde_json::Value` that holds this value.
    fn to_value(&self) -> (r: serde_json::Value)
        ensures
            value_tree(r) == self@,
        decreases *self,
    {
        match self {
            Json::Null => close_value(Layer::Null),
            Json::Bool(b) => close_value(Layer::Bool(*b)),
            Json::Number(n) => close_value(Layer::Number(n.clone())),
            Json::Text(s) => close_value(Layer::Text(s.clone())),
            Json::List(items) => {
                let mut out: Vec<serde_json::Value> = Vec::new();
                let mut i: usize = 0;
                while i < items.len()
                    invariant
                        i <= items.len(),
                        *self == Json::List(*items),
                        out@.len() == i,
                        forall|k: int|
                            0 <= k < i ==> value_tree(#[trigger] out@[k]) == items@[k]@,
                    decreases items.len() - i,
                {
                    assert(decreases_to!(*self => self->List_0));
                    assert(decreases_to!(*items => items@));
                    assert(decreases_to!(items@ => items@[i as int]));
                    out.push(items[i].to_value());
                    i += 1;
                }
                assert(value_trees(out@) =~= trees_of(items@));
                close_value(Layer::List(out))
            },
            Json::Object(o) => {
                let mut out = serde_json::Map::new();
                let mut i: usize = 0;
                while i < o.entries.len()
                    invariant
                        i <= o.entries.len(),
                        *self == Json::Object(*o),
                        map_fields(out) == fields_of(o.entries@.take(i as int)),
                    decreases o.entries.len() - i,
                {
                    assert(decreases_to!(*self => self->Object_0));
                    assert(decreases_to!(*o => o.entries));
                    assert(decreases_to!(o.entries => o.entries@));
                    assert(decreases_to!(o.entries@ => o.entries@[i as int]));
                    assert(decreases_to!(o.entries@[i as int] => o.entries@[i as int].1));
                    let value = o.entries[i].1.to_value();
                    let _ = out.insert(o.entries[i].0.clone(), value);
                    assert(o.entries@.take(i + 1).drop_last() =~= o.entries@.take(i as int));
                    i += 1;
                }
                assert(o.entries@.take(i as int) =~= o.entries@);
                close_value(Layer::Object(out))
            },
        }
    }

    /// The value that a text describes, or the text of the error.
    pub fn parse(text: &str) -> (r: Result<Json, String>)
        ensures
            match parsed_json(text@) {
                Ok(t) => r matches Ok(j) && j@ == t,
                Err(m) => r matches Err(e) && e@ == m,
            },
    {
        match parse_value(text) {
            Ok(v) => Ok(Json::of_value(v)),
            Err(e) => Err(e),
        }
    }

    /// The value on one line, without white space between its parts.
    pub fn to_text(&self) -> (r: String)
        ensures
            r@ == json_text(self@),
            !r@.contains('\n'),
            !r@.contains('\r'),
            plain(self@, 100) ==> parsed_json(r@) == read_as(self@),
            self@ is Object ==> r@.len() >= 2 && r@[0] == '{' && r@.last() == '}',
    {
        value_string(&self.to_value())
    }
}

/// What reading a text gave.
pub open spec fn parse_view(parsed: Result<Json, String>) -> Result<JsonView, Seq<char>> {
    match parsed {
        Ok(j) => Ok(j@),
        Err(e) => Err(e@),
    }
}

/// A JSON string, or null.
pub open spec fn text_or_null_view(s: Option<Seq<char>>) -> JsonView {
    match s {
        Some(s) => JsonView::Text(s),
        None => JsonView::Null,
    }
}

/// A whole number.
pub open spec fn integer(i: int) -> JsonView {
    JsonView::Number(NumberView::Integer(i))
}

// ── what a value says ───────────────────────────────────────────────
/// Whether a value is an object whose member `key` is the value `member`.
pub open spec fn has(v: JsonView, key: Seq<char>, member: JsonView) -> bool {
    v matches JsonView::Object(m) && m.contains_key(key) && m[key] == member
}

/// Whether a value is an object without a member `key`.
pub open spec fn lacks(v: JsonView, key: Seq<char>) -> bool {
    v matches JsonView::Object(m) && !m.contains_key(key)
}

/// Whether a value is an object whose member `key` is a text that is not empty.
pub open spec fn says(v: JsonView, key: Seq<char>, s: Seq<char>) -> bool {
    s.len() > 0 && has(v, key, JsonView::Text(s))
}

/// Whether a value is an object whose member `key` is a whole number.
pub open spec fn counts(v: JsonView, key: Seq<char>, n: int) -> bool {
    has(v, key, JsonView::Number(NumberView::Integer(n)))
}

} // verus!
