//! JSON values that can be taken apart and put together, and their text.
//!
//! Reading and writing JSON text is the work of `serde_json`. What it reads is held as a
//! [`Json`], whose view is a [`JsonView`].
use crate::text;
use crate::text::{chars, same};
use vstd::prelude::*;

verus! {

/// A value of `serde_json`, which is only carried from its parser and to its printer.
#[verifier::external_type_specification]
#[verifier::external_body]
pub struct ExJsonValue(serde_json::Value);

/// A number of `serde_json`, which is only carried along.
#[verifier::external_type_specification]
#[verifier::external_body]
pub struct ExJsonNumber(serde_json::Number);

/// A JSON value. The members of an object stand in the order of their names.
#[derive(Debug)]
pub enum Json {
    Null,
    Bool(bool),
    Number(serde_json::Number),
    Str(String),
    Array(Vec<Json>),
    Object(Vec<(String, Json)>),
}

/// A JSON value with its texts as characters.
pub enum JsonView {
    Null,
    Bool(bool),
    Number(serde_json::Number),
    Str(Seq<char>),
    Array(Seq<JsonView>),
    Object(Seq<(Seq<char>, JsonView)>),
}

/// What a value holds.
pub open spec fn json_view(j: Json) -> JsonView
    decreases j, 0int,
{
    match j {
        Json::Null => JsonView::Null,
        Json::Bool(b) => JsonView::Bool(b),
        Json::Number(n) => JsonView::Number(n),
        Json::Str(s) => JsonView::Str(s@),
        Json::Array(v) => JsonView::Array(items_view(v@)),
        Json::Object(v) => JsonView::Object(members_view(v@)),
    }
}

/// What each item of an array holds.
pub open spec fn items_view(s: Seq<Json>) -> Seq<JsonView>
    decreases s, 0int,
{
    if s.len() == 0 {
        Seq::empty()
    } else {
        items_view(s.drop_last()).push(json_view(s.last()))
    }
}

/// The name of each member of an object, and what the member holds.
pub open spec fn members_view(s: Seq<(String, Json)>) -> Seq<(Seq<char>, JsonView)>
    decreases s, 0int,
{
    if s.len() == 0 {
        Seq::empty()
    } else {
        members_view(s.drop_last()).push((s.last().0@, json_view(s.last().1)))
    }
}

impl View for Json {
    type V = JsonView;

    open spec fn view(&self) -> JsonView {
        json_view(*self)
    }
}

/// The view of an array is the views of its items.
pub proof fn lemma_items_view(s: Seq<Json>)
    ensures
        items_view(s).len() == s.len(),
        forall|i: int| 0 <= i < s.len() ==> #[trigger] items_view(s)[i] == s[i]@,
    decreases s.len(),
{
    if s.len() > 0 {
        lemma_items_view(s.drop_last());
        assert forall|i: int| 0 <= i < s.len() implies #[trigger] items_view(s)[i] == s[i]@ by {
            if i < s.len() - 1 {
                assert(s.drop_last()[i] == s[i]);
                assert(items_view(s)[i] == items_view(s.drop_last())[i]);
            }
        }
    }
}

/// The view of an object is the names and the views of its members.
pub proof fn lemma_members_view(s: Seq<(String, Json)>)
    ensures
        members_view(s).len() == s.len(),
        forall|i: int|
            0 <= i < s.len() ==> #[trigger] members_view(s)[i] == (s[i].0@, s[i].1@),
    decreases s.len(),
{
    if s.len() > 0 {
        lemma_members_view(s.drop_last());
        assert forall|i: int| 0 <= i < s.len() implies #[trigger] members_view(s)[i] == (
            s[i].0@,
            s[i].1@,
        ) by {
            if i < s.len() - 1 {
                assert(s.drop_last()[i] == s[i]);
                assert(members_view(s)[i] == members_view(s.drop_last())[i]);
            }
        }
    }
}

/// Whether a text comes before another in the order of its characters.
pub open spec fn comes_before(a: Seq<char>, b: Seq<char>) -> bool
    decreases a.len(),
{
    if b.len() == 0 {
        false
    } else if a.len() == 0 {
        true
    } else if a[0] != b[0] {
        a[0] < b[0]
    } else {
        comes_before(a.subrange(1, a.len() as int), b.subrange(1, b.len() as int))
    }
}

/// Whether the members stand in the order of their names, each name once.
pub open spec fn ascending(members: Seq<(Seq<char>, JsonView)>) -> bool {
    forall|i: int, j: int|
        0 <= i < j < members.len() ==> comes_before(
            (#[trigger] members[i]).0,
            (#[trigger] members[j]).0,
        )
}

/// Whether the members of every object in a value stand in order.
pub open spec fn ordered(v: JsonView) -> bool
    decreases v,
{
    match v {
        JsonView::Array(items) => forall|i: int|
            #![trigger items[i]]
            0 <= i < items.len() ==> ordered(items[i]),
        JsonView::Object(members) => ascending(members) && forall|i: int|
            #![trigger members[i]]
            0 <= i < members.len() ==> ordered(members[i].1),
        _ => true,
    }
}

/// Whether a number of `serde_json` is a floating-point one, by `is_f64`.
pub uninterp spec fn number_is_float(n: serde_json::Number) -> bool;

/// `serde_json::Number::is_f64`. The contract claims that the result depends on the number alone:
/// it is an integer or a floating-point number from the time that it is made.
#[verifier::external_body]
fn is_float(n: &serde_json::Number) -> (r: bool)
    ensures
        r == number_is_float(*n),
{
    n.is_f64()
}

/// How deep arrays and objects may be nested in a text that is read.
pub const DEPTH_LIMIT: u32 = 127;

/// Whether a value holds no floating-point number and is nested at most `depth` deep.
pub open spec fn exact(v: JsonView, depth: nat) -> bool
    decreases v,
{
    match v {
        JsonView::Number(n) => !number_is_float(n),
        JsonView::Array(items) => depth > 0 && forall|i: int|
            #![trigger items[i]]
            0 <= i < items.len() ==> exact(items[i], (depth - 1) as nat),
        JsonView::Object(members) => depth > 0 && forall|i: int|
            #![trigger members[i]]
            0 <= i < members.len() ==> exact(members[i].1, (depth - 1) as nat),
        _ => true,
    }
}

/// What a value of `serde_json` holds.
pub uninterp spec fn value_model(v: serde_json::Value) -> JsonView;

/// What `serde_json::from_str` makes of a text: the value that it spells, or the message of the
/// error.
pub uninterp spec fn json_parsed(text: Seq<char>) -> Result<JsonView, Seq<char>>;

/// What `serde_json::to_string_pretty` makes of a value: its text on indented lines, or the
/// message of the error.
pub uninterp spec fn json_pretty(v: JsonView) -> Result<Seq<char>, Seq<char>>;

/// `serde_json::from_str`, read into its own value. The contract claims that success, the value
/// and the message of the error depend on the text alone; which texts are JSON is left to the
/// name.
#[verifier::external_body]
fn value_from_str(text: &str) -> (r: Result<serde_json::Value, String>)
    ensures
        match r {
            Ok(v) => json_parsed(text@) == Ok::<JsonView, Seq<char>>(value_model(v)),
            Err(e) => json_parsed(text@) == Err::<JsonView, Seq<char>>(e@),
        },
{
    serde_json::from_str(text).map_err(|e| e.to_string())
}

/// A value of `serde_json` as a [`Json`], variant by variant. The contract claims that nothing
/// is lost, and that `serde_json`, which keeps the members of an object in a `BTreeMap`, hands
/// them out in the order of their names, each name once.
#[verifier::external_body]
fn json_of(v: serde_json::Value) -> (r: Json)
    ensures
        r@ == value_model(v),
        ordered(r@),
{
    match v {
        serde_json::Value::Null => Json::Null,
        serde_json::Value::Bool(b) => Json::Bool(b),
        serde_json::Value::Number(n) => Json::Number(n),
        serde_json::Value::String(s) => Json::Str(s),
        serde_json::Value::Array(a) => Json::Array(a.into_iter().map(json_of).collect()),
        serde_json::Value::Object(o) => {
            Json::Object(o.into_iter().map(|(k, x)| (k, json_of(x))).collect())
        },
    }
}

/// A [`Json`] as a value of `serde_json`, variant by variant. The contract claims that nothing
/// is lost where the members of each object stand in order, each name once.
#[verifier::external_body]
fn value_of(j: &Json) -> (r: serde_json::Value)
    requires
        ordered(j@),
    ensures
        value_model(r) == j@,
{
    match j {
        Json::Null => serde_json::Value::Null,
        Json::Bool(b) => serde_json::Value::Bool(*b),
        Json::Number(n) => serde_json::Value::Number(n.clone()),
        Json::Str(s) => serde_json::Value::String(s.clone()),
        Json::Array(a) => serde_json::Value::Array(a.iter().map(value_of).collect()),
        Json::Object(o) => {
            serde_json::Value::Object(o.iter().map(|(k, x)| (k.clone(), value_of(x))).collect())
        },
    }
}

/// `serde_json::to_string_pretty` of a value. The contract claims that the text or the message
/// of the error depends on what the value holds alone, and that the parser reads such a text,
/// with a line feed behind it, as the value again, where the value holds no floating-point number
/// and is nested no deeper than the parser goes.
#[verifier::external_body]
fn value_to_pretty(v: &serde_json::Value) -> (r: Result<String, String>)
    ensures
        match r {
            Ok(s) => json_pretty(value_model(*v)) == Ok::<Seq<char>, Seq<char>>(s@) && (exact(
                value_model(*v),
                DEPTH_LIMIT as nat,
            ) ==> json_parsed(s@ + seq!['\n']) == Ok::<JsonView, Seq<char>>(value_model(*v))),
            Err(e) => json_pretty(value_model(*v)) == Err::<Seq<char>, Seq<char>>(e@),
        },
{
    serde_json::to_string_pretty(v).map_err(|e| e.to_string())
}

/// What `to_string` of a `serde_json::Value` makes of a value: its text on one line.
pub uninterp spec fn json_compact(v: JsonView) -> Seq<char>;

/// `to_string` of a `serde_json::Value`. The contract claims that the text depends on what the
/// value holds alone; how JSON is laid out is left to the name.
#[verifier::external_body]
fn value_to_compact(v: &serde_json::Value) -> (r: String)
    ensures
        r@ == json_compact(value_model(*v)),
{
    v.to_string()
}

/// Writes a JSON text on one line.
pub fn print_compact(j: &Json) -> (r: String)
    requires
        ordered(j@),
    ensures
        r@ == json_compact(j@),
{
    let v = value_of(j);
    value_to_compact(&v)
}

/// Reads a JSON text.
pub fn parse_json(text: &str) -> (r: Result<Json, String>)
    ensures
        match r {
            Ok(j) => json_parsed(text@) == Ok::<JsonView, Seq<char>>(j@) && ordered(j@),
            Err(e) => json_parsed(text@) == Err::<JsonView, Seq<char>>(e@),
        },
{
    match value_from_str(text) {
        Ok(v) => Ok(json_of(v)),
        Err(e) => Err(e),
    }
}

/// Writes a JSON text on indented lines.
pub fn print_json(j: &Json) -> (r: Result<String, String>)
    requires
        ordered(j@),
    ensures
        match r {
            Ok(s) => json_pretty(j@) == Ok::<Seq<char>, Seq<char>>(s@) && (exact(j@, DEPTH_LIMIT as nat)
                ==> json_parsed(s@ + seq!['\n']) == Ok::<JsonView, Seq<char>>(j@)),
            Err(e) => json_pretty(j@) == Err::<Seq<char>, Seq<char>>(e@),
        },
{
    let v = value_of(j);
    value_to_pretty(&v)
}

fn is_exact(j: &Json, depth: u32) -> (r: bool)
    ensures
        r == exact(j@, depth as nat),
    decreases depth,
{
    match j {
        Json::Number(n) => !is_float(n),
        Json::Array(items) => {
            proof {
                lemma_items_view(items@);
            }
            if depth == 0 {
                return false;
            }
            for i in 0..items.len()
                invariant
                    depth > 0,
                    j@ == JsonView::Array(items_view(items@)),
                    items_view(items@).len() == items@.len(),
                    forall|k: int|
                        0 <= k < items@.len() ==> #[trigger] items_view(items@)[k] == items@[k]@,
                    forall|k: int|
                        #![trigger items_view(items@)[k]]
                        0 <= k < i ==> exact(items_view(items@)[k], (depth - 1) as nat),
            {
                if !is_exact(&items[i], depth - 1) {
                    assert(j@->Array_0[i as int] == items@[i as int]@);
                    return false;
                }
            }
            true
        },
        Json::Object(members) => {
            proof {
                lemma_members_view(members@);
            }
            if depth == 0 {
                return false;
            }
            for i in 0..members.len()
                invariant
                    depth > 0,
                    j@ == JsonView::Object(members_view(members@)),
                    members_view(members@).len() == members@.len(),
                    forall|k: int|
                        0 <= k < members@.len() ==> #[trigger] members_view(members@)[k] == (
                            members@[k].0@,
                            members@[k].1@,
                        ),
                    forall|k: int|
                        #![trigger members_view(members@)[k]]
                        0 <= k < i ==> exact(members_view(members@)[k].1, (depth - 1) as nat),
            {
                if !is_exact(&members[i].1, depth - 1) {
                    assert(j@->Object_0[i as int].1 == members@[i as int].1@);
                    return false;
                }
            }
            true
        },
        _ => true,
    }
}

/// Whether a value is read back as it is when it was written.
pub fn reads_back(j: &Json) -> (r: bool)
    ensures
        r == exact(j@, DEPTH_LIMIT as nat),
{
    is_exact(j, DEPTH_LIMIT)
}

/// The first member of that name.
pub open spec fn lookup(members: Seq<(Seq<char>, JsonView)>, name: Seq<char>) -> Option<JsonView>
    decreases members.len(),
{
    if members.len() == 0 {
        None
    } else if members[0].0 == name {
        Some(members[0].1)
    } else {
        lookup(members.subrange(1, members.len() as int), name)
    }
}

/// The member of an object.
pub open spec fn member(v: JsonView, name: Seq<char>) -> Option<JsonView> {
    match v {
        JsonView::Object(members) => lookup(members, name),
        _ => None,
    }
}

/// The value that one reaches by going from member to member.
pub open spec fn at_path(v: JsonView, names: Seq<Seq<char>>) -> Option<JsonView>
    decreases names.len(),
{
    if names.len() == 0 {
        Some(v)
    } else {
        match member(v, names[0]) {
            Some(x) => at_path(x, names.subrange(1, names.len() as int)),
            None => None,
        }
    }
}

/// The text that an optional value is.
pub open spec fn as_text(v: Option<JsonView>) -> Option<Seq<char>> {
    match v {
        Some(JsonView::Str(s)) => Some(s),
        _ => None,
    }
}

/// The truth value that an optional value is.
pub open spec fn as_truth(v: Option<JsonView>) -> Option<bool> {
    match v {
        Some(JsonView::Bool(b)) => Some(b),
        _ => None,
    }
}

/// A part of an ordered value is ordered.
pub proof fn lemma_member_ordered(v: JsonView, name: Seq<char>)
    requires
        ordered(v),
    ensures
        member(v, name) matches Some(x) ==> ordered(x),
    decreases v,
{
    if let JsonView::Object(members) = v {
        lemma_lookup(members, name);
    }
}

/// What is looked up is among the members, and what is among them is found.
pub proof fn lemma_lookup(members: Seq<(Seq<char>, JsonView)>, name: Seq<char>)
    ensures
        match lookup(members, name) {
            Some(x) => exists|i: int|
                0 <= i < members.len() && #[trigger] members[i] == (name, x) && forall|j: int|
                    0 <= j < i ==> (#[trigger] members[j]).0 != name,
            None => forall|i: int| 0 <= i < members.len() ==> (#[trigger] members[i]).0 != name,
        },
    decreases members.len(),
{
    if members.len() > 0 && members[0].0 != name {
        let rest = members.subrange(1, members.len() as int);
        lemma_lookup(rest, name);
        match lookup(rest, name) {
            Some(x) => {
                let i = choose|i: int|
                    0 <= i < rest.len() && #[trigger] rest[i] == (name, x) && forall|j: int|
                        0 <= j < i ==> (#[trigger] rest[j]).0 != name;
                assert(members[i + 1] == (name, x));
                assert forall|j: int| 0 <= j < i + 1 implies (#[trigger] members[j]).0 != name by {
                    if j > 0 {
                        assert(rest[j - 1] == members[j]);
                    }
                }
            },
            None => {
                assert forall|i: int| 0 <= i < members.len() implies (
                #[trigger] members[i]).0 != name by {
                    if i > 0 {
                        assert(rest[i - 1] == members[i]);
                    }
                }
            },
        }
    } else if members.len() > 0 {
        assert(members[0] == (name, members[0].1));
    }
}

impl Json {
    /// The member of that name, where the value is an object that has it.
    pub fn get(&self, name: &str) -> (r: Option<&Json>)
        ensures
            match r {
                Some(x) => member(self@, name@) == Some(x@),
                None => member(self@, name@) is None,
            },
    {
        match self {
            Json::Object(members) => {
                let ghost all = members_view(members@);
                proof {
                    lemma_members_view(members@);
                    assert(all.subrange(0, all.len() as int) =~= all);
                }
                for i in 0..members.len()
                    invariant
                        all == members_view(members@),
                        all.len() == members@.len(),
                        self@ == JsonView::Object(all),
                        forall|k: int|
                            0 <= k < members@.len() ==> #[trigger] all[k] == (
                                members@[k].0@,
                                members@[k].1@,
                            ),
                        lookup(all, name@) == lookup(
                            all.subrange(i as int, all.len() as int),
                            name@,
                        ),
                {
                    let ghost rest = all.subrange(i as int, all.len() as int);
                    assert(rest[0] == all[i as int]);
                    assert(rest.subrange(1, rest.len() as int) =~= all.subrange(
                        i + 1,
                        all.len() as int,
                    ));
                    if same(members[i].0.as_str(), name) {
                        return Some(&members[i].1);
                    }
                }
                None
            },
            _ => None,
        }
    }

    /// The value that one reaches by going from member to member.
    pub fn pointer(&self, names: &[&str]) -> (r: Option<&Json>)
        ensures
            match r {
                Some(x) => at_path(self@, slices(names@)) == Some(x@),
                None => at_path(self@, slices(names@)) is None,
            },
    {
        let mut at: &Json = self;
        let ghost all = slices(names@);
        assert(all.subrange(0, all.len() as int) =~= all);
        for i in 0..names.len()
            invariant
                all == slices(names@),
                at_path(self@, all) == at_path(at@, all.subrange(i as int, all.len() as int)),
        {
            let ghost rest = all.subrange(i as int, all.len() as int);
            assert(rest[0] == names@[i as int]@);
            assert(rest.subrange(1, rest.len() as int) =~= all.subrange(i + 1, all.len() as int));
            match at.get(names[i]) {
                Some(x) => {
                    at = x;
                },
                None => {
                    return None;
                },
            }
        }
        Some(at)
    }

    /// The text that the value is.
    pub fn as_str(&self) -> (r: Option<&String>)
        ensures
            match r {
                Some(s) => as_text(Some(self@)) == Some(s@),
                None => as_text(Some(self@)) is None,
            },
    {
        match self {
            Json::Str(s) => Some(s),
            _ => None,
        }
    }

    /// The truth value that the value is.
    pub fn as_bool(&self) -> (r: Option<bool>)
        ensures
            r == as_truth(Some(self@)),
    {
        match self {
            Json::Bool(b) => Some(*b),
            _ => None,
        }
    }

    /// Whether the value is an object.
    pub fn is_object(&self) -> (r: bool)
        ensures
            r == (self@ is Object),
    {
        matches!(self, Json::Object(_))
    }
}

/// The characters of each slice of text.
pub open spec fn slices(v: Seq<&str>) -> Seq<Seq<char>> {
    Seq::new(v.len(), |i: int| v[i]@)
}

/// A copy of the text that an optional value is.
pub fn text_of(v: Option<&Json>) -> (r: Option<String>)
    ensures
        text::opt(r) == as_text(
            match v {
                Some(j) => Some(j@),
                None => None,
            },
        ),
{
    match v {
        Some(j) => match j.as_str() {
            Some(s) => Some(s.clone()),
            None => None,
        },
        None => None,
    }
}

/// The texts among values.
pub open spec fn texts_in(items: Seq<JsonView>) -> Seq<Seq<char>>
    decreases items.len(),
{
    if items.len() == 0 {
        Seq::empty()
    } else {
        match items.last() {
            JsonView::Str(s) => texts_in(items.drop_last()).push(s),
            _ => texts_in(items.drop_last()),
        }
    }
}

/// The texts in an optional array.
pub open spec fn texts_of(v: Option<JsonView>) -> Seq<Seq<char>> {
    match v {
        Some(JsonView::Array(items)) => texts_in(items),
        _ => Seq::empty(),
    }
}

/// The texts in an optional array.
pub fn collect_texts(v: Option<&Json>) -> (r: Vec<String>)
    ensures
        text::strs(r@) == texts_of(
            match v {
                Some(j) => Some(j@),
                None => None,
            },
        ),
{
    let mut out: Vec<String> = Vec::new();
    assert(text::strs(out@) =~= Seq::<Seq<char>>::empty());
    if let Some(Json::Array(items)) = v {
        let ghost all = items_view(items@);
        proof {
            lemma_items_view(items@);
        }
        for i in 0..items.len()
            invariant
                all == items_view(items@),
                all.len() == items@.len(),
                forall|k: int| 0 <= k < items@.len() ==> #[trigger] all[k] == items@[k]@,
                text::strs(out@) == texts_in(all.subrange(0, i as int)),
        {
            let ghost before = out@;
            assert(all.subrange(0, i + 1).drop_last() =~= all.subrange(0, i as int));
            assert(all.subrange(0, i + 1).last() == items@[i as int]@);
            if let Json::Str(s) = &items[i] {
                out.push(s.clone());
                assert(text::strs(out@) =~= text::strs(before).push(s@));
            }
        }
        assert(all.subrange(0, all.len() as int) =~= all);
    }
    out
}

/// The names of members.
pub open spec fn names_in(members: Seq<(Seq<char>, JsonView)>) -> Seq<Seq<char>> {
    Seq::new(members.len(), |i: int| members[i].0)
}

/// The names of the members of an optional object.
pub open spec fn names_of(v: Option<JsonView>) -> Seq<Seq<char>> {
    match v {
        Some(JsonView::Object(members)) => names_in(members),
        _ => Seq::empty(),
    }
}

/// The names of the members of an optional object, in their order.
pub fn collect_names(v: Option<&Json>) -> (r: Vec<String>)
    ensures
        text::strs(r@) == names_of(
            match v {
                Some(j) => Some(j@),
                None => None,
            },
        ),
{
    let mut out: Vec<String> = Vec::new();
    assert(text::strs(out@) =~= Seq::<Seq<char>>::empty());
    if let Some(Json::Object(members)) = v {
        let ghost all = members_view(members@);
        proof {
            lemma_members_view(members@);
        }
        for i in 0..members.len()
            invariant
                all == members_view(members@),
                all.len() == members@.len(),
                forall|k: int|
                    0 <= k < members@.len() ==> #[trigger] all[k] == (
                        members@[k].0@,
                        members@[k].1@,
                    ),
                text::strs(out@) == names_in(all).subrange(0, i as int),
        {
            let ghost before = out@;
            out.push(members[i].0.clone());
            assert(all[i as int].0 == members@[i as int].0@);
            assert(text::strs(out@) =~= text::strs(before).push(all[i as int].0));
            assert(text::strs(out@) =~= names_in(all).subrange(0, i + 1));
        }
        assert(names_in(all).subrange(0, all.len() as int) =~= names_in(all));
    }
    out
}

/// Whether a text comes before another.
pub fn is_before(a: &[char], b: &[char]) -> (r: bool)
    ensures
        r == comes_before(a@, b@),
{
    let mut i: usize = 0;
    assert(a@.subrange(0, a@.len() as int) =~= a@);
    assert(b@.subrange(0, b@.len() as int) =~= b@);
    while i < a.len() && i < b.len() && a[i] == b[i]
        invariant
            i <= a@.len(),
            i <= b@.len(),
            comes_before(a@, b@) == comes_before(
                a@.subrange(i as int, a@.len() as int),
                b@.subrange(i as int, b@.len() as int),
            ),
        decreases a@.len() - i,
    {
        assert(a@.subrange(i as int, a@.len() as int).subrange(1, a@.len() - i) =~= a@.subrange(
            i + 1,
            a@.len() as int,
        ));
        assert(b@.subrange(i as int, b@.len() as int).subrange(1, b@.len() - i) =~= b@.subrange(
            i + 1,
            b@.len() as int,
        ));
        i = i + 1;
    }
    if i >= b.len() {
        false
    } else if i >= a.len() {
        true
    } else {
        a[i] < b[i]
    }
}

/// No text comes before itself.
pub proof fn lemma_not_before_itself(a: Seq<char>)
    ensures
        !comes_before(a, a),
    decreases a.len(),
{
    if a.len() > 0 {
        lemma_not_before_itself(a.subrange(1, a.len() as int));
    }
}

/// What comes before a text comes before all that follows the text.
pub proof fn lemma_before_chain(a: Seq<char>, b: Seq<char>, c: Seq<char>)
    requires
        comes_before(a, b),
        comes_before(b, c),
    ensures
        comes_before(a, c),
    decreases a.len(),
{
    if a.len() > 0 && a[0] == b[0] && b[0] == c[0] {
        lemma_before_chain(
            a.subrange(1, a.len() as int),
            b.subrange(1, b.len() as int),
            c.subrange(1, c.len() as int),
        );
    }
}

/// Of two texts that differ, one comes before the other.
pub proof fn lemma_one_before(a: Seq<char>, b: Seq<char>)
    requires
        a != b,
    ensures
        comes_before(a, b) || comes_before(b, a),
    decreases a.len(),
{
    if a.len() > 0 && b.len() > 0 && a[0] == b[0] {
        let x = a.subrange(1, a.len() as int);
        let y = b.subrange(1, b.len() as int);
        if x == y {
            assert(a =~= seq![a[0]] + x);
            assert(b =~= seq![b[0]] + y);
        }
        lemma_one_before(x, y);
    } else if a.len() == 0 && b.len() == 0 {
        assert(a =~= b);
    }
}

/// How many members at the front have names that come before a name.
pub open spec fn rank(members: Seq<(Seq<char>, JsonView)>, name: Seq<char>) -> nat
    decreases members.len(),
{
    if members.len() == 0 || !comes_before(members[0].0, name) {
        0
    } else {
        1 + rank(members.subrange(1, members.len() as int), name)
    }
}

/// Members with one more, in its place, or with another value under a name that is there.
pub open spec fn put(
    members: Seq<(Seq<char>, JsonView)>,
    name: Seq<char>,
    value: JsonView,
) -> Seq<(Seq<char>, JsonView)> {
    let k = rank(members, name) as int;
    if k < members.len() && members[k].0 == name {
        members.update(k, (name, value))
    } else {
        members.insert(k, (name, value))
    }
}

/// The names at the front come before the name, and the one behind them does not.
pub proof fn lemma_rank(members: Seq<(Seq<char>, JsonView)>, name: Seq<char>)
    ensures
        rank(members, name) <= members.len(),
        forall|i: int|
            0 <= i < rank(members, name) ==> comes_before((#[trigger] members[i]).0, name),
        rank(members, name) < members.len() ==> !comes_before(
            members[rank(members, name) as int].0,
            name,
        ),
    decreases members.len(),
{
    if members.len() > 0 && comes_before(members[0].0, name) {
        let rest = members.subrange(1, members.len() as int);
        lemma_rank(rest, name);
        assert forall|i: int| 0 <= i < rank(members, name) implies comes_before(
            (#[trigger] members[i]).0,
            name,
        ) by {
            if i > 0 {
                assert(rest[i - 1] == members[i]);
            }
        }
    }
}

/// Among members in order, a name is found where its place is.
pub proof fn lemma_place(members: Seq<(Seq<char>, JsonView)>, name: Seq<char>)
    requires
        ascending(members),
    ensures
        ({
            let k = rank(members, name) as int;
            if k < members.len() && members[k].0 == name {
                lookup(members, name) == Some(members[k].1)
            } else {
                lookup(members, name) is None
            }
        }),
{
    let k = rank(members, name) as int;
    lemma_rank(members, name);
    lemma_lookup(members, name);
    lemma_not_before_itself(name);
    if k < members.len() && members[k].0 == name {
        assert(members[k] == (name, members[k].1));
        assert(lookup(members, name) is Some);
        let x = lookup(members, name)->0;
        let i = choose|i: int|
            0 <= i < members.len() && #[trigger] members[i] == (name, x) && forall|j: int|
                0 <= j < i ==> (#[trigger] members[j]).0 != name;
        if i < k {
            assert(comes_before(members[i].0, name));
        } else if i > k {
            assert(members[k].0 != name);
        }
    } else if lookup(members, name) is Some {
        let x = lookup(members, name)->0;
        let i = choose|i: int|
            0 <= i < members.len() && #[trigger] members[i] == (name, x) && forall|j: int|
                0 <= j < i ==> (#[trigger] members[j]).0 != name;
        if i < k {
            assert(comes_before(members[i].0, name));
        } else if i > k {
            assert(comes_before(members[k].0, members[i].0));
        }
    }
}

/// Putting a member among members in order keeps them in order, gives the member its value, and
/// leaves all others as they were.
pub proof fn lemma_put(members: Seq<(Seq<char>, JsonView)>, name: Seq<char>, value: JsonView)
    requires
        ordered(JsonView::Object(members)),
        ordered(value),
    ensures
        ordered(JsonView::Object(put(members, name, value))),
        lookup(put(members, name, value), name) == Some(value),
        forall|other: Seq<char>|
            other != name ==> #[trigger] lookup(put(members, name, value), other) == lookup(
                members,
                other,
            ),
{
    let k = rank(members, name) as int;
    let after = put(members, name, value);
    lemma_rank(members, name);
    assert(ascending(members));
    let there = k < members.len() && members[k].0 == name;
    assert forall|i: int| k <= i < members.len() && (!there || i > k) implies comes_before(
        name,
        (#[trigger] members[i]).0,
    ) by {
        if there {
            assert(comes_before(members[k].0, members[i].0));
        } else {
            lemma_one_before(name, members[k].0);
            if i > k {
                assert(comes_before(members[k].0, members[i].0));
                lemma_before_chain(name, members[k].0, members[i].0);
            }
        }
    }
    assert forall|i: int, j: int| 0 <= i < j < after.len() implies comes_before(
        (#[trigger] after[i]).0,
        (#[trigger] after[j]).0,
    ) by {
        let shift: int = if there {
            0
        } else {
            1
        };
        if j < k {
            assert(after[i] == members[i] && after[j] == members[j]);
        } else if j == k {
            assert(after[i] == members[i]);
        } else {
            assert(after[j] == members[j - shift]);
            if i < k {
                assert(after[i] == members[i]);
                if i < j - shift {
                    assert(comes_before(members[i].0, members[j - shift].0));
                }
            } else if i > k {
                assert(after[i] == members[i - shift]);
            }
        }
    }
    assert forall|i: int| 0 <= i < after.len() implies ordered((#[trigger] after[i]).1) by {
        if i < k {
            assert(after[i] == members[i]);
        } else if i > k {
            if there {
                assert(after[i] == members[i]);
            } else {
                assert(after[i] == members[i - 1]);
            }
        }
    }
    lemma_not_before_itself(name);
    assert(rank(after, name) == k) by {
        lemma_rank(after, name);
        let q = rank(after, name) as int;
        if q < k {
            assert(after[q] == members[q]);
        } else if q > k {
            assert(after[k].0 == name);
        }
    }
    lemma_place(after, name);
    assert forall|other: Seq<char>| other != name implies #[trigger] lookup(after, other)
        == lookup(members, other) by {
        lemma_place(after, other);
        lemma_place(members, other);
        let a = rank(after, other) as int;
        let m = rank(members, other) as int;
        lemma_rank(after, other);
        lemma_rank(members, other);
        lemma_lookup(after, other);
        lemma_lookup(members, other);
        lemma_not_before_itself(other);
        if m < members.len() && members[m].0 == other {
            let at: int = if there || m < k {
                m
            } else {
                m + 1
            };
            assert(after[at] == members[m]);
            assert(lookup(after, other) is Some);
            if a < at {
                assert(comes_before(after[a].0, after[at].0));
            } else if a > at {
                assert(comes_before(after[at].0, other));
            }
        } else if a < after.len() && after[a].0 == other {
            let at: int = if there || a < k {
                a
            } else {
                a - 1
            };
            assert(members[at] == after[a]);
        }
    }
}

/// The place of a name among members in order, and whether it is there.
pub fn place_of(members: &[(String, Json)], name: &str) -> (r: (usize, bool))
    requires
        ascending(members_view(members@)),
    ensures
        r.0 == rank(members_view(members@), name@),
        r.0 <= members@.len(),
        r.1 == (r.0 < members@.len() && members@[r.0 as int].0@ == name@),
        match lookup(members_view(members@), name@) {
            Some(x) => r.1 && x == members@[r.0 as int].1@,
            None => !r.1,
        },
{
    let ghost all = members_view(members@);
    proof {
        lemma_members_view(members@);
        lemma_place(all, name@);
        assert(all.subrange(0, all.len() as int) =~= all);
    }
    let n = chars(name);
    let mut k: usize = 0;
    while k < members.len() && is_before(chars(members[k].0.as_str()).as_slice(), n.as_slice())
        invariant
            k <= members@.len(),
            n@ == name@,
            all == members_view(members@),
            all.len() == members@.len(),
            forall|i: int|
                0 <= i < members@.len() ==> #[trigger] all[i] == (members@[i].0@, members@[i].1@),
            rank(all, name@) == k + rank(all.subrange(k as int, all.len() as int), name@),
        decreases members@.len() - k,
    {
        let ghost rest = all.subrange(k as int, all.len() as int);
        assert(rest[0] == all[k as int]);
        assert(rest.subrange(1, rest.len() as int) =~= all.subrange(k + 1, all.len() as int));
        k = k + 1;
    }
    proof {
        let rest = all.subrange(k as int, all.len() as int);
        if k < all.len() {
            assert(rest[0] == all[k as int]);
        }
    }
    let there = k < members.len() && same(members[k].0.as_str(), name);
    (k, there)
}

/// A path leads from member to member: an empty one to the value itself, and a longer one through the
/// member of its first name.
pub proof fn path_leads_through_members(v: JsonView, name: Seq<char>, rest: Seq<Seq<char>>)
    ensures
        at_path(v, Seq::empty()) == Some(v),
        member(v, name) matches Some(x) ==> at_path(v, seq![name] + rest) == at_path(x, rest),
        member(v, name) is None ==> at_path(v, seq![name] + rest) is None,
        !(v is Object) ==> member(v, name) is None,
{
    let all = seq![name] + rest;
    assert(all[0] == name);
    assert(all.subrange(1, all.len() as int) =~= rest);
}

} // verus!
