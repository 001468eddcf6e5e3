//! YAML values that can be taken apart, and their text.
//!
//! Reading and writing YAML text is the work of `serde_yaml`. What it reads is held as a
//! [`Yaml`], whose view is a [`YamlView`].
use crate::text::same;
use vstd::prelude::*;

verus! {

/// A value of `serde_yaml`, which is only carried from its parser to its printer.
#[verifier::external_type_specification]
#[verifier::external_body]
pub struct ExYamlValue(serde_yaml::Value);

/// A number of `serde_yaml`, which is only carried along.
#[verifier::external_type_specification]
#[verifier::external_body]
pub struct ExYamlNumber(serde_yaml::Number);

/// A YAML value.
#[derive(Debug)]
pub enum Yaml {
    Null,
    Bool(bool),
    Number(serde_yaml::Number),
    Str(String),
    Sequence(Vec<Yaml>),
    Mapping(Vec<(Yaml, Yaml)>),
    Tagged(String, Box<Yaml>),
}

/// A YAML value with its texts as characters.
pub enum YamlView {
    Null,
    Bool(bool),
    Number(serde_yaml::Number),
    Str(Seq<char>),
    Sequence(Seq<YamlView>),
    Mapping(Seq<(YamlView, YamlView)>),
    Tagged(Seq<char>, Box<YamlView>),
}

/// What a value holds.
pub open spec fn yaml_view(y: Yaml) -> YamlView
    decreases y, 0int,
{
    match y {
        Yaml::Null => YamlView::Null,
        Yaml::Bool(b) => YamlView::Bool(b),
        Yaml::Number(n) => YamlView::Number(n),
        Yaml::Str(s) => YamlView::Str(s@),
        Yaml::Sequence(v) => YamlView::Sequence(entries_view(v@)),
        Yaml::Mapping(v) => YamlView::Mapping(pairs_view(v@)),
        Yaml::Tagged(tag, inner) => YamlView::Tagged(tag@, Box::new(yaml_view(*inner))),
    }
}

/// What each entry of a sequence holds.
pub open spec fn entries_view(s: Seq<Yaml>) -> Seq<YamlView>
    decreases s, 0int,
{
    if s.len() == 0 {
        Seq::empty()
    } else {
        entries_view(s.drop_last()).push(yaml_view(s.last()))
    }
}

/// What each key of a mapping holds, and what stands under it.
pub open spec fn pairs_view(s: Seq<(Yaml, Yaml)>) -> Seq<(YamlView, YamlView)>
    decreases s, 0int,
{
    if s.len() == 0 {
        Seq::empty()
    } else {
        pairs_view(s.drop_last()).push((yaml_view(s.last().0), yaml_view(s.last().1)))
    }
}

impl View for Yaml {
    type V = YamlView;

    open spec fn view(&self) -> YamlView {
        yaml_view(*self)
    }
}

/// The view of a sequence is the views of its entries.
pub proof fn lemma_entries_view(s: Seq<Yaml>)
    ensures
        entries_view(s).len() == s.len(),
        forall|i: int| 0 <= i < s.len() ==> #[trigger] entries_view(s)[i] == s[i]@,
    decreases s.len(),
{
    if s.len() > 0 {
        lemma_entries_view(s.drop_last());
        assert forall|i: int| 0 <= i < s.len() implies #[trigger] entries_view(s)[i] == s[i]@ by {
            if i < s.len() - 1 {
                assert(s.drop_last()[i] == s[i]);
                assert(entries_view(s)[i] == entries_view(s.drop_last())[i]);
            }
        }
    }
}

/// The view of a mapping is the views of its keys and of what stands under them.
pub proof fn lemma_pairs_view(s: Seq<(Yaml, Yaml)>)
    ensures
        pairs_view(s).len() == s.len(),
        forall|i: int| 0 <= i < s.len() ==> #[trigger] pairs_view(s)[i] == (s[i].0@, s[i].1@),
    decreases s.len(),
{
    if s.len() > 0 {
        lemma_pairs_view(s.drop_last());
        assert forall|i: int| 0 <= i < s.len() implies #[trigger] pairs_view(s)[i] == (
            s[i].0@,
            s[i].1@,
        ) by {
            if i < s.len() - 1 {
                assert(s.drop_last()[i] == s[i]);
                assert(pairs_view(s)[i] == pairs_view(s.drop_last())[i]);
            }
        }
    }
}

/// What a value of `serde_yaml` holds.
pub uninterp spec fn yaml_model(v: serde_yaml::Value) -> YamlView;

/// What `serde_yaml::from_str` makes of a text: the value that it spells, or nothing where the
/// text is not YAML.
pub uninterp spec fn yaml_parsed(text: Seq<char>) -> Option<YamlView>;

/// What `serde_yaml::to_string` makes of a value: its text, or the message of the error.
pub uninterp spec fn yaml_text(v: YamlView) -> Result<Seq<char>, Seq<char>>;

/// Whether a line is a comment in printable ASCII.
pub open spec fn is_comment(line: Seq<char>) -> bool {
    &&& line.len() > 0
    &&& line[0] == '#'
    &&& forall|i: int| 0 <= i < line.len() ==> ' ' <= #[trigger] line[i] <= '~'
}

/// An empty list under comments, each on a line of its own.
pub open spec fn under_comments(comments: Seq<Seq<char>>) -> Seq<char>
    decreases comments.len(),
{
    if comments.len() == 0 {
        "[]\n"@
    } else {
        comments[0] + "\n"@ + under_comments(comments.subrange(1, comments.len() as int))
    }
}

/// `serde_yaml::from_str`, read into its own value. The contract claims that success and the
/// value depend on the text alone, and that an empty list under lines of comments is read as an
/// empty list; which other texts are YAML is left to the name.
#[verifier::external_body]
pub(crate) fn yaml_from_str(text: &str) -> (r: Option<serde_yaml::Value>)
    ensures
        match r {
            Some(v) => yaml_parsed(text@) == Some(yaml_model(v)),
            None => yaml_parsed(text@) is None,
        },
        forall|comments: Seq<Seq<char>>|
            text@ == #[trigger] under_comments(comments) && (forall|i: int|
                0 <= i < comments.len() ==> is_comment(#[trigger] comments[i])) ==> r is Some
                && yaml_model(r->0) == YamlView::Sequence(Seq::empty()),
{
    serde_yaml::from_str(text).ok()
}

/// A value of `serde_yaml` as a [`Yaml`], variant by variant. The contract claims that nothing
/// is lost: the pairs of a mapping keep their order, and a tag keeps the text by which it is
/// printed.
#[verifier::external_body]
pub(crate) fn yaml_of(v: &serde_yaml::Value) -> (r: Yaml)
    ensures
        r@ == yaml_model(*v),
{
    match v {
        serde_yaml::Value::Null => Yaml::Null,
        serde_yaml::Value::Bool(b) => Yaml::Bool(*b),
        serde_yaml::Value::Number(n) => Yaml::Number(n.clone()),
        serde_yaml::Value::String(s) => Yaml::Str(s.clone()),
        serde_yaml::Value::Sequence(s) => Yaml::Sequence(s.iter().map(yaml_of).collect()),
        serde_yaml::Value::Mapping(m) => {
            Yaml::Mapping(m.iter().map(|(k, x)| (yaml_of(k), yaml_of(x))).collect())
        },
        serde_yaml::Value::Tagged(t) => Yaml::Tagged(t.tag.to_string(), Box::new(yaml_of(&t.value))),
    }
}

/// `serde_yaml::Mapping` with two entries, a text and a truth value, put in by its `insert`. The
/// contract claims that, under two names that differ, both stand in it in that order.
#[verifier::external_body]
pub(crate) fn yaml_pair(name: &str, text: &str, flag: &str, truth: bool) -> (r: serde_yaml::Value)
    requires
        name@ != flag@,
    ensures
        yaml_model(r) == YamlView::Mapping(
            seq![
                (YamlView::Str(name@), YamlView::Str(text@)),
                (YamlView::Str(flag@), YamlView::Bool(truth)),
            ],
        ),
{
    let mut m = serde_yaml::Mapping::new();
    m.insert(serde_yaml::Value::String(name.to_string()), serde_yaml::Value::String(text.to_string()));
    m.insert(serde_yaml::Value::String(flag.to_string()), serde_yaml::Value::Bool(truth));
    serde_yaml::Value::Mapping(m)
}

/// `serde_yaml::to_string` of a value. The contract claims that the text or the message of the
/// error depends on what the value holds alone; how YAML is laid out is left to the name.
#[verifier::external_body]
pub(crate) fn yaml_to_string(v: &serde_yaml::Value) -> (r: Result<String, String>)
    ensures
        match r {
            Ok(s) => yaml_text(yaml_model(*v)) == Ok::<Seq<char>, Seq<char>>(s@),
            Err(e) => yaml_text(yaml_model(*v)) == Err::<Seq<char>, Seq<char>>(e@),
        },
{
    serde_yaml::to_string(v).map_err(|e| e.to_string())
}

/// A value without the tags on it.
pub open spec fn untagged(v: YamlView) -> YamlView
    decreases v,
{
    match v {
        YamlView::Tagged(_, inner) => untagged(*inner),
        _ => v,
    }
}

/// The text that a value is.
pub open spec fn yaml_str(v: YamlView) -> Option<Seq<char>> {
    match untagged(v) {
        YamlView::Str(s) => Some(s),
        _ => None,
    }
}

/// The truth value that a value is.
pub open spec fn yaml_bool(v: YamlView) -> Option<bool> {
    match untagged(v) {
        YamlView::Bool(b) => Some(b),
        _ => None,
    }
}

/// What stands under the first key of pairs that is this text.
pub open spec fn under(pairs: Seq<(YamlView, YamlView)>, key: Seq<char>) -> Option<YamlView>
    decreases pairs.len(),
{
    if pairs.len() == 0 {
        None
    } else if yaml_str(pairs[0].0) == Some(key) {
        Some(pairs[0].1)
    } else {
        under(pairs.subrange(1, pairs.len() as int), key)
    }
}

/// What stands under a text key in a value that is a mapping.
pub open spec fn yaml_under(v: YamlView, key: Seq<char>) -> Option<YamlView> {
    match untagged(v) {
        YamlView::Mapping(pairs) => under(pairs, key),
        _ => None,
    }
}

impl Yaml {
    /// The value without the tags on it.
    pub fn untag(&self) -> (r: &Yaml)
        ensures
            r@ == untagged(self@),
        decreases self,
    {
        match self {
            Yaml::Tagged(_, inner) => inner.untag(),
            _ => self,
        }
    }

    /// The text that the value is.
    pub fn as_str(&self) -> (r: Option<&String>)
        ensures
            match r {
                Some(s) => yaml_str(self@) == Some(s@),
                None => yaml_str(self@) is None,
            },
    {
        match self.untag() {
            Yaml::Str(s) => Some(s),
            _ => None,
        }
    }

    /// The truth value that the value is.
    pub fn as_bool(&self) -> (r: Option<bool>)
        ensures
            r == yaml_bool(self@),
    {
        match self.untag() {
            Yaml::Bool(b) => Some(*b),
            _ => None,
        }
    }

    /// What stands under a text key, where the value is a mapping that has it.
    pub fn yaml_get(&self, key: &str) -> (r: Option<&Yaml>)
        ensures
            match r {
                Some(x) => yaml_under(self@, key@) == Some(x@),
                None => yaml_under(self@, key@) is None,
            },
    {
        match self.untag() {
            Yaml::Mapping(pairs) => {
                let ghost all = pairs_view(pairs@);
                proof {
                    lemma_pairs_view(pairs@);
                    assert(all.subrange(0, all.len() as int) =~= all);
                }
                for i in 0..pairs.len()
                    invariant
                        all == pairs_view(pairs@),
                        all.len() == pairs@.len(),
                        untagged(self@) == YamlView::Mapping(all),
                        forall|k: int|
                            0 <= k < pairs@.len() ==> #[trigger] all[k] == (
                                pairs@[k].0@,
                                pairs@[k].1@,
                            ),
                        under(all, key@) == under(all.subrange(i as int, all.len() as int), key@),
                {
                    let ghost rest = all.subrange(i as int, all.len() as int);
                    assert(rest[0] == all[i as int]);
                    assert(rest.subrange(1, rest.len() as int) =~= all.subrange(
                        i + 1,
                        all.len() as int,
                    ));
                    if let Some(s) = pairs[i].0.as_str() {
                        if same(s.as_str(), key) {
                            return Some(&pairs[i].1);
                        }
                    }
                }
                None
            },
            _ => None,
        }
    }
}

/// What stands under a key is what stands under the first key of that name, and there is nothing
/// where no key has it. A tag does not hide what it stands on.
pub proof fn first_key_of_a_name_counts(pairs: Seq<(YamlView, YamlView)>, key: Seq<char>, k: int)
    requires
        0 <= k < pairs.len(),
        forall|i: int| 0 <= i < pairs.len() ==> (#[trigger] pairs[i]).0 is Str,
    ensures
        pairs[k].0 == YamlView::Str(key) && (forall|i: int|
            0 <= i < k ==> (#[trigger] pairs[i]).0 != YamlView::Str(key)) ==> yaml_under(
            YamlView::Mapping(pairs),
            key,
        ) == Some(pairs[k].1),
        (forall|i: int| 0 <= i < pairs.len() ==> (#[trigger] pairs[i]).0 != YamlView::Str(key))
            ==> yaml_under(YamlView::Mapping(pairs), key) is None,
        forall|tag: Seq<char>| #[trigger]
            yaml_under(YamlView::Tagged(tag, Box::new(YamlView::Mapping(pairs))), key)
                == yaml_under(YamlView::Mapping(pairs), key),
{
    if pairs[k].0 == YamlView::Str(key) && (forall|i: int|
        0 <= i < k ==> (#[trigger] pairs[i]).0 != YamlView::Str(key)) {
        lemma_first_under(pairs, key, k);
    }
    if forall|i: int| 0 <= i < pairs.len() ==> (#[trigger] pairs[i]).0 != YamlView::Str(key) {
        lemma_none_under(pairs, key);
    }
    reveal_with_fuel(untagged, 3);
}

proof fn lemma_first_under(pairs: Seq<(YamlView, YamlView)>, key: Seq<char>, k: int)
    requires
        0 <= k < pairs.len(),
        forall|i: int| 0 <= i < pairs.len() ==> (#[trigger] pairs[i]).0 is Str,
        pairs[k].0 == YamlView::Str(key) && (forall|i: int|
            0 <= i < k ==> (#[trigger] pairs[i]).0 != YamlView::Str(key)),
    ensures
        under(pairs, key) == Some(pairs[k].1),
    decreases pairs.len(),
{
    assert(pairs[0].0 is Str);
    if k > 0 {
        let rest = pairs.subrange(1, pairs.len() as int);
        assert forall|i: int| 0 <= i < rest.len() implies (#[trigger] rest[i]).0 is Str by {
            assert(rest[i] == pairs[i + 1]);
        }
        assert forall|i: int| 0 <= i < k - 1 implies (#[trigger] rest[i]).0 != YamlView::Str(
            key,
        ) by {
            assert(rest[i] == pairs[i + 1]);
        }
        lemma_first_under(rest, key, k - 1);
        assert(yaml_str(pairs[0].0) != Some(key));
    }
}

proof fn lemma_none_under(pairs: Seq<(YamlView, YamlView)>, key: Seq<char>)
    requires
        forall|i: int| 0 <= i < pairs.len() ==> (#[trigger] pairs[i]).0 is Str,
        forall|i: int| 0 <= i < pairs.len() ==> (#[trigger] pairs[i]).0 != YamlView::Str(key),
    ensures
        under(pairs, key) is None,
    decreases pairs.len(),
{
    if pairs.len() > 0 {
        let rest = pairs.subrange(1, pairs.len() as int);
        assert forall|i: int| 0 <= i < rest.len() implies (#[trigger] rest[i]).0 is Str && rest[i].0
            != YamlView::Str(key) by {
            assert(rest[i] == pairs[i + 1]);
        }
        lemma_none_under(rest, key);
        assert(yaml_str(pairs[0].0) != Some(key));
    }
}

} // verus!
