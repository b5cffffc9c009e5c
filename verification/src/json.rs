//! JSON values: a tree the contracts speak of, and the value that holds it.
use vstd::prelude::*;

use crate::text::same;

verus! {

broadcast use vstd::string::group_string_axioms;

/// A number with a fraction or out of the integers' range, carried as
/// `serde_json` holds it.
#[verifier::external_type_specification]
#[verifier::external_body]
pub struct OutsideNumber(serde_json::Number);

/// What a JSON value says.
pub enum Tree {
    Null,
    Bool(bool),
    Number(u64),
    Negative(i64),
    Real(serde_json::Number),
    Text(Seq<char>),
    List(Seq<Tree>),
    Record(Seq<(Seq<char>, Tree)>),
}

/// A JSON value. A record keeps its fields in the order they were added.
#[derive(Debug, PartialEq)]
pub enum Json {
    Null,
    Bool(bool),
    Number(u64),
    Negative(i64),
    Real(serde_json::Number),
    Text(String),
    List(Vec<Json>),
    Record(Vec<(String, Json)>),
}

/// The first field of that name.
pub open spec fn lookup(fields: Seq<(Seq<char>, Tree)>, key: Seq<char>) -> Option<Tree>
    decreases fields.len(),
{
    if fields.len() == 0 {
        None
    } else if fields[0].0 == key {
        Some(fields[0].1)
    } else {
        lookup(fields.drop_first(), key)
    }
}

/// The fields with one set: its first occurrence gets the value, or it is
/// added at the end.
pub open spec fn fields_put(
    fields: Seq<(Seq<char>, Tree)>,
    key: Seq<char>,
    value: Tree,
) -> Seq<(Seq<char>, Tree)>
    decreases fields.len(),
{
    if fields.len() == 0 {
        seq![(key, value)]
    } else if fields[0].0 == key {
        seq![(key, value)] + fields.drop_first()
    } else {
        seq![fields[0]] + fields_put(fields.drop_first(), key, value)
    }
}

/// The fields of any other name.
pub open spec fn fields_without(fields: Seq<(Seq<char>, Tree)>, key: Seq<char>) -> Seq<
    (Seq<char>, Tree),
>
    decreases fields.len(),
{
    if fields.len() == 0 {
        seq![]
    } else if fields.last().0 == key {
        fields_without(fields.drop_last(), key)
    } else {
        fields_without(fields.drop_last(), key).push(fields.last())
    }
}

/// Setting a field and asking for it gives back what was set, and no other
/// field is touched.
pub proof fn law_put_then_get(fields: Seq<(Seq<char>, Tree)>, key: Seq<char>, value: Tree)
    ensures
        lookup(fields_put(fields, key, value), key) == Some(value),
        forall|other: Seq<char>|
            other != key ==> lookup(fields_put(fields, key, value), other) == #[trigger] lookup(
                fields,
                other,
            ),
    decreases fields.len(),
{
    let after = fields_put(fields, key, value);
    if fields.len() == 0 {
        assert(after.drop_first() =~= seq![]);
        assert forall|other: Seq<char>| other != key implies lookup(after, other)
            == #[trigger] lookup(fields, other) by {
            assert(lookup(after.drop_first(), other) is None);
        }
    } else if fields[0].0 == key {
        assert(after.drop_first() =~= fields.drop_first());
    } else {
        law_put_then_get(fields.drop_first(), key, value);
        assert(after.drop_first() =~= fields_put(fields.drop_first(), key, value));
        assert forall|other: Seq<char>| other != key implies lookup(after, other)
            == #[trigger] lookup(fields, other) by {
            assert(lookup(after.drop_first(), other) == lookup(fields.drop_first(), other));
        }
    }
}

pub proof fn lemma_lookup_push(
    fields: Seq<(Seq<char>, Tree)>,
    last: (Seq<char>, Tree),
    key: Seq<char>,
)
    ensures
        lookup(fields.push(last), key) == (match lookup(fields, key) {
            Some(t) => Some(t),
            None => if last.0 == key {
                Some(last.1)
            } else {
                None
            },
        }),
    decreases fields.len(),
{
    let all = fields.push(last);
    if fields.len() == 0 {
        assert(all.drop_first() =~= seq![]);
    } else {
        assert(all.drop_first() =~= fields.drop_first().push(last));
        lemma_lookup_push(fields.drop_first(), last, key);
    }
}

/// A field that is asked for of a record with one more.
pub proof fn lemma_with(t: Tree, key: Seq<char>, value: Tree, asked: Seq<char>)
    ensures
        t.with(key, value).get(asked) == (match t.get(asked) {
            Some(v) => Some(v),
            None => if key == asked {
                Some(value)
            } else {
                None
            },
        }),
{
    lemma_lookup_push(t.fields(), (key, value), asked);
}

/// A removed field is gone, and no other field is touched.
pub proof fn law_remove_then_get(fields: Seq<(Seq<char>, Tree)>, key: Seq<char>)
    ensures
        lookup(fields_without(fields, key), key) is None,
        forall|other: Seq<char>|
            other != key ==> lookup(fields_without(fields, key), other) == #[trigger] lookup(
                fields,
                other,
            ),
    decreases fields.len(),
{
    if fields.len() > 0 {
        let front = fields.drop_last();
        law_remove_then_get(front, key);
        assert(front.push(fields.last()) =~= fields);
        lemma_lookup_push(fields_without(front, key), fields.last(), key);
        assert forall|other: Seq<char>| other != key implies lookup(
            fields_without(fields, key),
            other,
        ) == #[trigger] lookup(fields, other) by {
            lemma_lookup_push(front, fields.last(), other);
            lemma_lookup_push(fields_without(front, key), fields.last(), other);
        }
    }
}

impl Tree {
    /// A record with no fields.
    pub open spec fn record() -> Tree {
        Tree::Record(seq![])
    }

    /// A whole number of either sign.
    pub open spec fn integer(n: i64) -> Tree {
        if n >= 0 {
            Tree::Number(n as u64)
        } else {
            Tree::Negative(n)
        }
    }

    /// A list of one.
    pub open spec fn just(item: Tree) -> Tree {
        Tree::List(seq![item])
    }

    /// The fields, none for anything but a record.
    pub open spec fn fields(self) -> Seq<(Seq<char>, Tree)> {
        match self {
            Tree::Record(f) => f,
            _ => seq![],
        }
    }

    /// The items, none for anything but a list.
    pub open spec fn items(self) -> Seq<Tree> {
        match self {
            Tree::List(v) => v,
            _ => seq![],
        }
    }

    /// The record with one more field at its end.
    pub open spec fn with(self, key: Seq<char>, value: Tree) -> Tree {
        Tree::Record(self.fields().push((key, value)))
    }

    /// The record with a field set.
    pub open spec fn put(self, key: Seq<char>, value: Tree) -> Tree {
        Tree::Record(fields_put(self.fields(), key, value))
    }

    /// The record with a field removed.
    pub open spec fn without(self, key: Seq<char>) -> Tree {
        Tree::Record(fields_without(self.fields(), key))
    }

    /// The value of a field.
    pub open spec fn get(self, key: Seq<char>) -> Option<Tree> {
        lookup(self.fields(), key)
    }

    /// The text of a text.
    pub open spec fn text(self) -> Option<Seq<char>> {
        match self {
            Tree::Text(s) => Some(s),
            _ => None,
        }
    }

    /// The text that a field holds.
    pub open spec fn text_at(self, key: Seq<char>) -> Option<Seq<char>> {
        match self.get(key) {
            Some(t) => t.text(),
            None => None,
        }
    }

    /// The whole number that a field holds.
    pub open spec fn number_at(self, key: Seq<char>) -> Option<u64> {
        match self.get(key) {
            Some(Tree::Number(n)) => Some(n),
            _ => None,
        }
    }
}

/// What a value says.
pub open spec fn tree(j: Json) -> Tree
    decreases j,
{
    match j {
        Json::Null => Tree::Null,
        Json::Bool(b) => Tree::Bool(b),
        Json::Number(n) => Tree::Number(n),
        Json::Negative(n) => Tree::Negative(n),
        Json::Real(n) => Tree::Real(n),
        Json::Text(s) => Tree::Text(s@),
        Json::List(v) => Tree::List(
            Seq::new(
                v@.len(),
                |i: int|
                    if 0 <= i < v@.len() {
                        tree(v@[i])
                    } else {
                        Tree::Null
                    },
            ),
        ),
        Json::Record(v) => Tree::Record(
            Seq::new(
                v@.len(),
                |i: int|
                    if 0 <= i < v@.len() {
                        (v@[i].0@, tree(v@[i].1))
                    } else {
                        (seq![], Tree::Null)
                    },
            ),
        ),
    }
}

impl View for Json {
    type V = Tree;

    open spec fn view(&self) -> Tree {
        tree(*self)
    }
}

pub open spec fn trees(v: Seq<Json>) -> Seq<Tree> {
    Seq::new(v.len(), |i: int| v[i]@)
}

pub open spec fn pairs(v: Seq<(String, Json)>) -> Seq<(Seq<char>, Tree)> {
    Seq::new(v.len(), |i: int| (v[i].0@, v[i].1@))
}

proof fn lemma_list(v: Vec<Json>)
    ensures
        Json::List(v)@ == Tree::List(trees(v@)),
{
    assert(Json::List(v)@->List_0 =~= trees(v@));
}

proof fn lemma_record(v: Vec<(String, Json)>)
    ensures
        Json::Record(v)@ == Tree::Record(pairs(v@)),
{
    assert(Json::Record(v)@->Record_0 =~= pairs(v@));
}

impl Json {
    pub fn text(s: &str) -> (r: Json)
        ensures
            r@ == Tree::Text(s@),
    {
        Json::Text(s.to_string())
    }

    pub fn record() -> (r: Json)
        ensures
            r@ == Tree::record(),
    {
        let v: Vec<(String, Json)> = Vec::new();
        proof {
            lemma_record(v);
            assert(pairs(v@) =~= seq![]);
        }
        Json::Record(v)
    }

    pub fn with(self, key: &str, value: Json) -> (r: Json)
        ensures
            r@ == self@.with(key@, value@),
    {
        let ghost before = self@;
        let mut v: Vec<(String, Json)> = match self {
            Json::Record(v) => {
                proof {
                    lemma_record(v);
                }
                v
            },
            _ => {
                let v: Vec<(String, Json)> = Vec::new();
                assert(pairs(v@) =~= seq![]);
                v
            },
        };
        let ghost old_v = v@;
        v.push((key.to_string(), value));
        proof {
            lemma_record(v);
            assert(pairs(v@) =~= pairs(old_v).push((key@, value@)));
        }
        Json::Record(v)
    }

    pub fn list(v: Vec<Json>) -> (r: Json)
        ensures
            r@ == Tree::List(trees(v@)),
    {
        proof {
            lemma_list(v);
        }
        Json::List(v)
    }

    /// A list with no items.
    pub fn empty() -> (r: Json)
        ensures
            r@ == Tree::List(seq![]),
    {
        let v: Vec<Json> = Vec::new();
        assert(trees(v@) =~= seq![]);
        Json::list(v)
    }

    /// A list of one.
    pub fn just(item: Json) -> (r: Json)
        ensures
            r@ == Tree::just(item@),
    {
        let r = Json::empty().and(item);
        assert(r@->List_0 =~= seq![item@]);
        r
    }

    /// A whole number of either sign.
    pub fn integer(n: i64) -> (r: Json)
        ensures
            r@ == Tree::integer(n),
    {
        if n >= 0 {
            Json::Number(n as u64)
        } else {
            Json::Negative(n)
        }
    }

    /// The list with one more item at its end; anything but a list counts as
    /// an empty one.
    pub fn and(self, item: Json) -> (r: Json)
        ensures
            r@ == Tree::List(self@.items().push(item@)),
    {
        let mut v: Vec<Json> = match self {
            Json::List(v) => {
                proof {
                    lemma_list(v);
                }
                v
            },
            _ => {
                let v: Vec<Json> = Vec::new();
                assert(trees(v@) =~= seq![]);
                v
            },
        };
        let ghost old_v = v@;
        v.push(item);
        proof {
            lemma_list(v);
            assert(trees(v@) =~= trees(old_v).push(item@));
        }
        Json::List(v)
    }

    /// The same value again.
    pub fn copy(&self) -> (r: Json)
        ensures
            r@ == self@,
        decreases self,
    {
        match self {
            Json::Null => Json::Null,
            Json::Bool(b) => Json::Bool(*b),
            Json::Number(n) => Json::Number(*n),
            Json::Negative(n) => Json::Negative(*n),
            Json::Real(n) => Json::Real(copy_number(n)),
            Json::Text(s) => Json::Text(s.clone()),
            Json::List(v) => {
                let w = copy_list(v);
                proof {
                    lemma_list(*v);
                    lemma_list(w);
                }
                Json::List(w)
            },
            Json::Record(v) => {
                let w = copy_fields(v);
                proof {
                    lemma_record(*v);
                    lemma_record(w);
                }
                Json::Record(w)
            },
        }
    }

    pub fn is_record(&self) -> (r: bool)
        ensures
            r == self@ is Record,
    {
        match self {
            Json::Record(_) => true,
            _ => false,
        }
    }

    pub fn is_null(&self) -> (r: bool)
        ensures
            r == self@ is Null,
    {
        match self {
            Json::Null => true,
            _ => false,
        }
    }

    /// The value of a field.
    pub fn get(&self, key: &str) -> (r: Option<&Json>)
        ensures
            match r {
                Some(j) => self@.get(key@) == Some(j@),
                None => self@.get(key@) is None,
            },
    {
        match self {
            Json::Record(v) => {
                proof {
                    lemma_record(*v);
                }
                let ghost all = pairs(v@);
                assert(all.skip(0) =~= all);
                let mut i: usize = 0;
                while i < v.len()
                    invariant
                        i <= v@.len(),
                        all == pairs(v@),
                        self@ == Tree::Record(all),
                        lookup(all, key@) == lookup(all.skip(i as int), key@),
                    decreases v@.len() - i,
                {
                    if same(v[i].0.as_str(), key) {
                        return Some(&v[i].1);
                    }
                    assert(all.skip(i as int).drop_first() =~= all.skip(i as int + 1));
                    i = i + 1;
                }
                None
            },
            _ => None,
        }
    }

    /// The text of a text.
    pub fn as_text(&self) -> (r: Option<&String>)
        ensures
            match r {
                Some(s) => self@.text() == Some(s@),
                None => self@.text() is None,
            },
    {
        match self {
            Json::Text(s) => Some(s),
            _ => None,
        }
    }

    /// The text that a field holds.
    pub fn text_at(&self, key: &str) -> (r: Option<&String>)
        ensures
            match r {
                Some(s) => self@.text_at(key@) == Some(s@),
                None => self@.text_at(key@) is None,
            },
    {
        match self.get(key) {
            Some(j) => j.as_text(),
            None => None,
        }
    }

    /// The whole number that a field holds.
    pub fn number_at(&self, key: &str) -> (r: Option<u64>)
        ensures
            r == self@.number_at(key@),
    {
        match self.get(key) {
            Some(Json::Number(n)) => Some(*n),
            _ => None,
        }
    }

    /// The items, when this is a list.
    pub fn as_list(&self) -> (r: Option<&Vec<Json>>)
        ensures
            match r {
                Some(v) => self@ == Tree::List(trees(v@)),
                None => !(self@ is List),
            },
    {
        match self {
            Json::List(v) => {
                proof {
                    lemma_list(*v);
                }
                Some(v)
            },
            _ => None,
        }
    }

    /// The record with a field set; anything but a record counts as an empty
    /// one.
    pub fn put(self, key: &str, value: Json) -> (r: Json)
        ensures
            r@ == self@.put(key@, value@),
    {
        let v: Vec<(String, Json)> = match self {
            Json::Record(v) => {
                proof {
                    lemma_record(v);
                }
                v
            },
            _ => {
                let v: Vec<(String, Json)> = Vec::new();
                assert(pairs(v@) =~= seq![]);
                v
            },
        };
        let ghost all = pairs(v@);
        let ghost goal = fields_put(all, key@, value@);
        assert(all.skip(0) =~= all);
        assert(all.take(0) + goal =~= goal);
        let mut i: usize = 0;
        while i < v.len() && !same(v[i].0.as_str(), key)
            invariant
                i <= v@.len(),
                all == pairs(v@),
                goal == all.take(i as int) + fields_put(all.skip(i as int), key@, value@),
            decreases v@.len() - i,
        {
            let ghost rest = all.skip(i as int);
            assert(rest.drop_first() =~= all.skip(i as int + 1));
            assert(all.take(i as int) + (seq![rest[0]] + fields_put(
                rest.drop_first(),
                key@,
                value@,
            )) =~= all.take(i as int + 1) + fields_put(all.skip(i as int + 1), key@, value@));
            i = i + 1;
        }
        let mut w = v;
        if i < w.len() {
            assert(all.skip(i as int).drop_first() =~= all.skip(i as int + 1));
            w.set(i, (key.to_string(), value));
            assert(pairs(w@) =~= goal);
        } else {
            assert(all.skip(i as int) =~= seq![]);
            w.push((key.to_string(), value));
            assert(pairs(w@) =~= goal);
        }
        proof {
            lemma_record(w);
        }
        Json::Record(w)
    }

    /// The record with a field removed; anything but a record counts as an
    /// empty one.
    pub fn without(self, key: &str) -> (r: Json)
        ensures
            r@ == self@.without(key@),
    {
        let v: Vec<(String, Json)> = match self {
            Json::Record(v) => {
                proof {
                    lemma_record(v);
                }
                v
            },
            _ => {
                let v: Vec<(String, Json)> = Vec::new();
                assert(pairs(v@) =~= seq![]);
                v
            },
        };
        let ghost all = pairs(v@);
        let mut w: Vec<(String, Json)> = Vec::new();
        let mut i: usize = 0;
        assert(pairs(w@) =~= fields_without(all.take(0), key@));
        while i < v.len()
            invariant
                i <= v@.len(),
                all == pairs(v@),
                pairs(w@) == fields_without(all.take(i as int), key@),
            decreases v@.len() - i,
        {
            let ghost now = all.take(i as int + 1);
            assert(now.drop_last() =~= all.take(i as int));
            if !same(v[i].0.as_str(), key) {
                let ghost before = w@;
                w.push((v[i].0.clone(), v[i].1.copy()));
                assert(pairs(w@) =~= pairs(before).push(all[i as int]));
            }
            i = i + 1;
        }
        assert(all.take(i as int) =~= all);
        proof {
            lemma_record(w);
        }
        Json::Record(w)
    }
}

pub fn copy_list(v: &Vec<Json>) -> (w: Vec<Json>)
    ensures
        trees(w@) == trees(v@),
    decreases v,
{
    let mut w: Vec<Json> = Vec::new();
    let mut i: usize = 0;
    while i < v.len()
        invariant
            i <= v@.len(),
            w@.len() == i,
            forall|k: int| 0 <= k < i ==> (#[trigger] w@[k])@ == v@[k]@,
        decreases v@.len() - i,
    {
        let c = v[i].copy();
        w.push(c);
        i = i + 1;
    }
    assert(trees(w@) =~= trees(v@));
    w
}

fn copy_fields(v: &Vec<(String, Json)>) -> (w: Vec<(String, Json)>)
    ensures
        pairs(w@) == pairs(v@),
    decreases v,
{
    let mut w: Vec<(String, Json)> = Vec::new();
    let mut i: usize = 0;
    while i < v.len()
        invariant
            i <= v@.len(),
            w@.len() == i,
            forall|k: int|
                0 <= k < i ==> (#[trigger] w@[k]).0@ == v@[k].0@ && w@[k].1@ == v@[k].1@,
        decreases v@.len() - i,
    {
        let c = v[i].1.copy();
        w.push((v[i].0.clone(), c));
        i = i + 1;
    }
    assert(pairs(w@) =~= pairs(v@));
    w
}

/// `serde_json::Number::clone` gives the same number.
#[verifier::external_body]
fn copy_number(n: &serde_json::Number) -> (r: serde_json::Number)
    ensures
        r == *n,
{
    n.clone()
}

// ------------------------------------------------------------ text of JSON

/// A JSON value as `serde_json` holds it.
#[verifier::external_type_specification]
#[verifier::external_body]
pub struct OutsideValue(serde_json::Value);

/// What `serde_json::from_str` reads a text as, when it is JSON.
pub uninterp spec fn json_read(text: Seq<char>) -> Option<Tree>;

/// The compact text that `serde_json` writes for a value.
pub uninterp spec fn json_written(t: Tree) -> Seq<char>;

/// The indented text that `serde_json` writes for a value.
pub uninterp spec fn json_written_pretty(t: Tree) -> Seq<char>;

/// Turns a `serde_json::Value` into the same value here, variant by variant:
/// a number becomes a whole number where it is one.
#[verifier::external_body]
fn from_value(v: serde_json::Value) -> Json {
    match v {
        serde_json::Value::Null => Json::Null,
        serde_json::Value::Bool(b) => Json::Bool(b),
        serde_json::Value::Number(n) => match (n.as_u64(), n.as_i64()) {
            (Some(u), _) => Json::Number(u),
            (None, Some(i)) => Json::Negative(i),
            (None, None) => Json::Real(n),
        },
        serde_json::Value::String(s) => Json::Text(s),
        serde_json::Value::Array(a) => Json::List(a.into_iter().map(from_value).collect()),
        serde_json::Value::Object(m) => {
            Json::Record(m.into_iter().map(|(k, v)| (k, from_value(v))).collect())
        },
    }
}

/// Turns a value into the same `serde_json::Value`, variant by variant.
#[verifier::external_body]
fn to_value(j: &Json) -> serde_json::Value {
    match j {
        Json::Null => serde_json::Value::Null,
        Json::Bool(b) => serde_json::Value::Bool(*b),
        Json::Number(n) => serde_json::Value::Number((*n).into()),
        Json::Negative(n) => serde_json::Value::Number((*n).into()),
        Json::Real(n) => serde_json::Value::Number(n.clone()),
        Json::Text(s) => serde_json::Value::String(s.clone()),
        Json::List(v) => serde_json::Value::Array(v.iter().map(to_value).collect()),
        Json::Record(v) => {
            serde_json::Value::Object(v.iter().map(|(k, v)| (k.clone(), to_value(v))).collect())
        },
    }
}

/// Reads JSON with `serde_json::from_str`: the value, or nothing when the
/// text is not JSON.
#[verifier::external_body]
pub(crate) fn parse(text: &str) -> (r: Option<Json>)
    ensures
        match r {
            Some(j) => json_read(text@) == Some(j@),
            None => json_read(text@) is None,
        },
{
    serde_json::from_str::<serde_json::Value>(text).ok().map(from_value)
}

/// Writes compact JSON with the `Display` of `serde_json::Value`.
#[verifier::external_body]
pub(crate) fn print(j: &Json) -> (r: String)
    ensures
        r@ == json_written(j@),
{
    to_value(j).to_string()
}

/// Writes indented JSON with the alternate `Display` of `serde_json::Value`,
/// which is what `serde_json::to_string_pretty` gives for it.
#[verifier::external_body]
pub(crate) fn print_pretty(j: &Json) -> (r: String)
    ensures
        r@ == json_written_pretty(j@),
{
    format!("{:#}", to_value(j))
}

impl Json {
    /// The value a text writes, when it is JSON.
    pub fn from_text(text: &str) -> (r: Option<Json>)
        ensures
            match r {
                Some(j) => json_read(text@) == Some(j@),
                None => json_read(text@) is None,
            },
    {
        parse(text)
    }

    /// The compact text of the value.
    pub fn to_text(&self) -> (r: String)
        ensures
            r@ == json_written(self@),
    {
        print(self)
    }
}

} // verus!
