//! JSON documents: the values that tool calls carry.
use vstd::prelude::*;

use crate::document::{
    close_value, copy_number, distinct_keys, document, json_parse, json_text, members_doc,
    number_of, number_text, open_value, print_number, print_value, read_value, readable, Doc,
    Layer, READ_DEPTH,
};
use crate::text::decimal;

verus! {

/// A JSON value.
#[derive(Debug)]
pub enum Json {
    Null,
    Bool(bool),
    Number(serde_json::Number),
    Text(String),
    Array(Vec<Json>),
    Object(JsonMap),
}

/// The members of a JSON object: no two have the same key.
#[derive(Debug)]
pub struct JsonMap {
    entries: Vec<(String, Json)>,
}

/// The members as a mapping; were a key there twice, the later one would count.
pub open spec fn entries_doc(entries: Seq<(String, Json)>) -> Map<Seq<char>, Doc>
    decreases entries,
{
    if entries.len() == 0 {
        Map::empty()
    } else {
        entries_doc(entries.drop_last()).insert(entries.last().0@, entries.last().1.doc())
    }
}

impl Json {
    /// What the value says.
    pub closed spec fn doc(self) -> Doc
        decreases self,
    {
        match self {
            Json::Null => Doc::Null,
            Json::Bool(b) => Doc::Bool(b),
            Json::Number(n) => Doc::Number(number_text(n)),
            Json::Text(s) => Doc::Text(s@),
            Json::Array(v) => Doc::Array(
                Seq::new(
                    v@.len(),
                    |i: int|
                        if 0 <= i < v@.len() {
                            v@[i].doc()
                        } else {
                            Doc::Null
                        },
                ),
            ),
            Json::Object(m) => Doc::Object(entries_doc(m.entries@)),
        }
    }
}

impl View for Json {
    type V = Doc;

    open spec fn view(&self) -> Doc {
        self.doc()
    }
}

impl View for JsonMap {
    type V = Map<Seq<char>, Doc>;

    closed spec fn view(&self) -> Map<Seq<char>, Doc> {
        entries_doc(self.entries@)
    }
}

/// The documents of a list of values.
pub open spec fn docs(values: Seq<Json>) -> Seq<Doc> {
    Seq::new(values.len(), |i: int| values[i]@)
}

/// How each kind of value reads as a document.
pub broadcast proof fn json_reads(j: Json)
    ensures
        #![trigger j.doc()]
        match j {
            Json::Null => j.doc() == Doc::Null,
            Json::Bool(b) => j.doc() == Doc::Bool(b),
            Json::Number(n) => j.doc() == Doc::Number(number_text(n)),
            Json::Text(s) => j.doc() == Doc::Text(s@),
            Json::Array(v) => j.doc() == Doc::Array(docs(v@)),
            Json::Object(m) => j.doc() == Doc::Object(m@),
        },
{
    if let Json::Array(v) = j {
        assert(j.doc()->Array_0 =~= docs(v@));
    }
}

pub proof fn lemma_entries(entries: Seq<(String, Json)>)
    requires
        distinct_keys(entries),
    ensures
        forall|i: int|
            0 <= i < entries.len() ==> entries_doc(entries).contains_key(
                (#[trigger] entries[i]).0@,
            ) && entries_doc(entries)[entries[i].0@] == entries[i].1@,
        forall|k: Seq<char>| #[trigger]
            entries_doc(entries).contains_key(k) ==> exists|i: int|
                0 <= i < entries.len() && (#[trigger] entries[i]).0@ == k,
    decreases entries.len(),
{
    if entries.len() > 0 {
        let front = entries.drop_last();
        assert forall|i: int, j: int| 0 <= i < j < front.len() implies (#[trigger] front[i]).0@ != (
        #[trigger] front[j]).0@ by {
            assert(front[i] == entries[i] && front[j] == entries[j]);
        }
        lemma_entries(front);
        assert forall|i: int| 0 <= i < entries.len() implies entries_doc(entries).contains_key(
            (#[trigger] entries[i]).0@,
        ) && entries_doc(entries)[entries[i].0@] == entries[i].1@ by {
            if i < front.len() {
                assert(front[i] == entries[i]);
            }
        }
        assert forall|k: Seq<char>| #[trigger] entries_doc(entries).contains_key(k) implies exists|
            i: int,
        |
            0 <= i < entries.len() && (#[trigger] entries[i]).0@ == k by {
            if k == entries.last().0@ {
                assert(entries[entries.len() - 1].0@ == k);
            } else {
                assert(entries_doc(front).contains_key(k));
                let i = choose|i: int| 0 <= i < front.len() && (#[trigger] front[i]).0@ == k;
                assert(entries[i] == front[i]);
            }
        }
    }
}

/// A mapping that agrees with a list of distinct members is the list's mapping.
pub proof fn lemma_entries_are(entries: Seq<(String, Json)>, m: Map<Seq<char>, Doc>)
    requires
        distinct_keys(entries),
        forall|i: int|
            0 <= i < entries.len() ==> m.contains_key((#[trigger] entries[i]).0@)
                && m[entries[i].0@] == entries[i].1@,
        forall|k: Seq<char>| #[trigger]
            m.contains_key(k) ==> exists|i: int|
                0 <= i < entries.len() && (#[trigger] entries[i]).0@ == k,
    ensures
        entries_doc(entries) == m,
{
    lemma_entries(entries);
    let got = entries_doc(entries);
    assert forall|k: Seq<char>| #[trigger] got.contains_key(k) implies m.contains_key(k) && got[k]
        == m[k] by {
        let i = choose|i: int| 0 <= i < entries.len() && (#[trigger] entries[i]).0@ == k;
    }
    assert forall|k: Seq<char>| #[trigger] m.contains_key(k) implies got.contains_key(k) by {
        let i = choose|i: int| 0 <= i < entries.len() && (#[trigger] entries[i]).0@ == k;
    }
    assert(got.dom() =~= m.dom());
    assert(got =~= m);
}

/// Two lists with the same keys and documents, place by place, say the same.
pub proof fn lemma_entries_alike(a: Seq<(String, Json)>, b: Seq<(String, Json)>)
    requires
        distinct_keys(a),
        a.len() == b.len(),
        forall|i: int|
            0 <= i < a.len() ==> (#[trigger] b[i]).0@ == a[i].0@ && b[i].1@ == a[i].1@,
    ensures
        distinct_keys(b),
        entries_doc(a) == entries_doc(b),
{
    assert forall|i: int, j: int| 0 <= i < j < b.len() implies (#[trigger] b[i]).0@ != (
    #[trigger] b[j]).0@ by {
        assert(a[i].0@ != a[j].0@);
    }
    lemma_entries(a);
    assert forall|k: Seq<char>| #[trigger] entries_doc(a).contains_key(k) implies exists|i: int|
        0 <= i < b.len() && (#[trigger] b[i]).0@ == k by {
        let i = choose|i: int| 0 <= i < a.len() && (#[trigger] a[i]).0@ == k;
        assert(b[i].0@ == k);
    }
    assert forall|i: int| 0 <= i < b.len() implies entries_doc(a).contains_key(
        (#[trigger] b[i]).0@,
    ) && entries_doc(a)[b[i].0@] == b[i].1@ by {
        assert(a[i].0@ == b[i].0@);
    }
    lemma_entries_are(b, entries_doc(a));
}

/// A member of an unopened object is in its mapping, and its document is a part
/// of the object's.
proof fn lemma_member(members: Seq<(String, serde_json::Value)>, i: int)
    requires
        distinct_keys(members),
        0 <= i < members.len(),
    ensures
        members_doc(members).dom().finite(),
        members_doc(members).contains_key(members[i].0@),
        members_doc(members)[members[i].0@] == document(members[i].1),
    decreases members.len(),
{
    let front = members.drop_last();
    assert forall|a: int, b: int| 0 <= a < b < front.len() implies (#[trigger] front[a]).0@ != (
    #[trigger] front[b]).0@ by {
        assert(members[a].0@ != members[b].0@);
    }
    if i < front.len() {
        assert(front[i] == members[i]);
        lemma_member(front, i);
    } else if front.len() > 0 {
        lemma_member(front, 0);
    } else {
        assert(members_doc(front) == Map::<Seq<char>, Doc>::empty());
    }
}

impl JsonMap {
    #[verifier::type_invariant]
    spec fn distinct(self) -> bool {
        distinct_keys(self.entries@)
    }

    /// An object without members.
    pub fn new() -> (m: JsonMap)
        ensures
            m@ == Map::<Seq<char>, Doc>::empty(),
    {
        JsonMap { entries: Vec::new() }
    }

    /// Where the member called `key` stands.
    fn find(&self, key: &str) -> (at: Option<usize>)
        ensures
            match at {
                Some(i) => i < self.entries@.len() && self.entries@[i as int].0@ == key@
                    && self@.contains_key(key@) && self@[key@] == self.entries@[i as int].1@,
                None => !self@.contains_key(key@) && forall|i: int|
                    0 <= i < self.entries@.len() ==> (#[trigger] self.entries@[i]).0@ != key@,
            },
    {
        proof {
            use_type_invariant(self);
            lemma_entries(self.entries@);
        }
        let mut i: usize = 0;
        while i < self.entries.len()
            invariant
                i <= self.entries@.len(),
                forall|j: int| 0 <= j < i ==> (#[trigger] self.entries@[j]).0@ != key@,
            decreases self.entries@.len() - i,
        {
            if *self.entries[i].0.as_str() == *key {
                proof {
                    use_type_invariant(self);
                    lemma_entries(self.entries@);
                }
                return Some(i);
            }
            i += 1;
        }
        None
    }

    /// The value of the member called `key`.
    pub fn get(&self, key: &str) -> (v: Option<&Json>)
        ensures
            match v {
                Some(j) => self@.contains_key(key@) && self@[key@] == j@,
                None => !self@.contains_key(key@),
            },
    {
        match self.find(key) {
            Some(i) => Some(&self.entries[i].1),
            None => None,
        }
    }

    /// The members in the order in which they stand.
    pub fn entries(&self) -> (entries: &Vec<(String, Json)>)
        ensures
            distinct_keys(entries@),
            entries_doc(entries@) == self@,
            decreases_to!(*self => entries@),
    {
        proof {
            use_type_invariant(self);
            assert(decreases_to!(*self => self.entries));
            assert(decreases_to!(self.entries => self.entries@));
        }
        &self.entries
    }

    /// The object with these members.
    pub fn of(entries: Vec<(String, Json)>) -> (m: JsonMap)
        requires
            distinct_keys(entries@),
        ensures
            m@ == entries_doc(entries@),
    {
        JsonMap { entries }
    }

    /// The object with the member `key` set to `value`.
    pub fn insert(self, key: String, value: Json) -> (m: JsonMap)
        ensures
            m@ == self@.insert(key@, value@),
    {
        let at = self.find(key.as_str());
        proof {
            use_type_invariant(&self);
            lemma_entries(self.entries@);
        }
        let ghost before = self.entries@;
        let mut entries = self.entries;
        match at {
            Some(i) => {
                entries.set(i, (key, value));
            },
            None => {
                entries.push((key, value));
            },
        }
        proof {
            let pos = if at is Some { at->0 as int } else { before.len() as int };
            assert(entries@[pos] == (key, value));
            assert forall|a: int| 0 <= a < before.len() && a != pos implies entries@[a]
                == #[trigger] before[a] by {}
            assert forall|a: int, b: int| 0 <= a < b < entries@.len() implies (
            #[trigger] entries@[a]).0@ != (#[trigger] entries@[b]).0@ by {
                if a == pos {
                    assert(before[b].0@ != key@);
                } else if b == pos {
                    assert(before[a].0@ != key@);
                } else {
                    assert(before[a].0@ != before[b].0@);
                }
            }
            let want = entries_doc(before).insert(key@, value@);
            assert forall|k: Seq<char>| #[trigger] want.contains_key(k) implies exists|i: int|
                0 <= i < entries@.len() && (#[trigger] entries@[i]).0@ == k by {
                if k == key@ {
                    assert(entries@[pos].0@ == k);
                } else {
                    let i = choose|i: int| 0 <= i < before.len() && (#[trigger] before[i]).0@ == k;
                    assert(entries@[i].0@ == k);
                }
            }
            assert forall|i: int| 0 <= i < entries@.len() implies want.contains_key(
                (#[trigger] entries@[i]).0@,
            ) && want[entries@[i].0@] == entries@[i].1@ by {
                if i != pos {
                    assert(entries@[i] == before[i]);
                    assert(entries@[pos].0@ != entries@[i].0@);
                }
            }
            lemma_entries_are(entries@, want);
        }
        JsonMap { entries }
    }

    /// The object without the member `key`.
    pub fn remove(self, key: &str) -> (m: JsonMap)
        ensures
            m@ == self@.remove(key@),
    {
        let at = self.find(key);
        proof {
            use_type_invariant(&self);
            lemma_entries(self.entries@);
        }
        match at {
            None => {
                assert(self@.remove(key@) =~= self@);
                self
            },
            Some(i) => {
                let ghost before = self.entries@;
                let mut entries = self.entries;
                let _ = entries.remove(i);
                proof {
                    let pos = i as int;
                    assert forall|a: int| 0 <= a < entries@.len() implies #[trigger] entries@[a]
                        == before[if a < pos { a } else { a + 1 }] by {}
                    assert forall|a: int, b: int| 0 <= a < b < entries@.len() implies (
                    #[trigger] entries@[a]).0@ != (#[trigger] entries@[b]).0@ by {
                        let a0 = if a < pos { a } else { a + 1 };
                        let b0 = if b < pos { b } else { b + 1 };
                        assert(before[a0].0@ != before[b0].0@);
                    }
                    let want = entries_doc(before).remove(key@);
                    assert forall|k: Seq<char>| #[trigger] want.contains_key(k) implies exists|
                        j: int,
                    |
                        0 <= j < entries@.len() && (#[trigger] entries@[j]).0@ == k by {
                        let j = choose|j: int|
                            0 <= j < before.len() && (#[trigger] before[j]).0@ == k;
                        let j0 = if j < pos { j } else { j - 1 };
                        assert(entries@[j0].0@ == k);
                    }
                    assert forall|j: int| 0 <= j < entries@.len() implies want.contains_key(
                        (#[trigger] entries@[j]).0@,
                    ) && want[entries@[j].0@] == entries@[j].1@ by {
                        let j0 = if j < pos { j } else { j + 1 };
                        assert(before[j0].0@ != before[pos].0@);
                    }
                    lemma_entries_are(entries@, want);
                }
                JsonMap { entries }
            },
        }
    }
}

impl Json {
    /// The member called `key`, if this is an object that has one.
    pub fn get(&self, key: &str) -> (v: Option<&Json>)
        ensures
            match v {
                Some(j) => self@.member(key@) == Some(j@),
                None => self@.member(key@) is None,
            },
    {
        broadcast use json_reads;

        match self {
            Json::Object(m) => m.get(key),
            _ => None,
        }
    }

    /// The text, if this is a string.
    pub fn as_str(&self) -> (s: Option<&str>)
        ensures
            match s {
                Some(t) => self@.text() == Some(t@),
                None => self@.text() is None,
            },
    {
        broadcast use json_reads;

        match self {
            Json::Text(s) => Some(s.as_str()),
            _ => None,
        }
    }

    /// A whole number.
    pub fn from_u64(n: u64) -> (j: Json)
        ensures
            j@ == Doc::Number(decimal(n as nat)),
    {
        broadcast use json_reads;

        Json::Number(number_of(n))
    }

    /// A string.
    pub fn from_text(s: &str) -> (j: Json)
        ensures
            j@ == Doc::Text(s@),
    {
        broadcast use json_reads;

        Json::Text(s.to_owned())
    }

    /// Whether two values say the same.
    pub fn same(&self, other: &Json) -> (r: bool)
        ensures
            r == (self@ == other@),
        decreases self,
    {
        broadcast use json_reads;

        match (self, other) {
            (Json::Null, Json::Null) => true,
            (Json::Bool(a), Json::Bool(b)) => *a == *b,
            (Json::Number(a), Json::Number(b)) => print_number(a) == print_number(b),
            (Json::Text(a), Json::Text(b)) => *a == *b,
            (Json::Array(a), Json::Array(b)) => {
                if a.len() != b.len() {
                    assert(docs(a@).len() != docs(b@).len());
                    return false;
                }
                let mut i: usize = 0;
                while i < a.len()
                    invariant
                        *self is Array,
                        self->Array_0 == *a,
                        *other is Array,
                        other->Array_0 == *b,
                        i <= a@.len(),
                        a@.len() == b@.len(),
                        forall|k: int| 0 <= k < i ==> (#[trigger] a@[k])@ == b@[k]@,
                    decreases a@.len() - i,
                {
                    if !a[i].same(&b[i]) {
                        assert(docs(a@)[i as int] != docs(b@)[i as int]);
                        proof {
                            json_reads(*self);
                            json_reads(*other);
                        }
                        return false;
                    }
                    i += 1;
                }
                assert(docs(a@) =~= docs(b@));
                true
            },
            (Json::Object(a), Json::Object(b)) => a.same(b),
            _ => false,
        }
    }

    /// The value as a `serde_json::Value`.
    fn to_value(&self) -> (v: serde_json::Value)
        ensures
            document(v) == self@,
        decreases self,
    {
        broadcast use json_reads;

        match self {
            Json::Null => close_value(Layer::Null),
            Json::Bool(b) => close_value(Layer::Bool(*b)),
            Json::Number(n) => close_value(Layer::Number(copy_number(n))),
            Json::Text(s) => close_value(Layer::Text(s.clone())),
            Json::Array(items) => {
                let mut out: Vec<serde_json::Value> = Vec::new();
                let mut i: usize = 0;
                while i < items.len()
                    invariant
                        *self is Array,
                        self->Array_0 == *items,
                        i <= items@.len(),
                        out@.len() == i,
                        forall|k: int|
                            0 <= k < i ==> document(#[trigger] out@[k]) == items@[k]@,
                    decreases items@.len() - i,
                {
                    out.push(items[i].to_value());
                    i += 1;
                }
                assert(Seq::new(out@.len(), |k: int| document(out@[k])) =~= docs(items@));
                close_value(Layer::Array(out))
            },
            Json::Object(m) => {
                let mut out: Vec<(String, serde_json::Value)> = Vec::new();
                let mut i: usize = 0;
                while i < m.entries.len()
                    invariant
                        *self is Object,
                        self->Object_0 == *m,
                        i <= m.entries@.len(),
                        out@.len() == i,
                        members_doc(out@) == entries_doc(m.entries@.take(i as int)),
                    decreases m.entries@.len() - i,
                {
                    let entry = &m.entries[i];
                    let ghost done = out@;
                    out.push((entry.0.clone(), entry.1.to_value()));
                    proof {
                        assert(out@.drop_last() =~= done);
                        assert(m.entries@.take(i + 1).drop_last() =~= m.entries@.take(i as int));
                    }
                    i += 1;
                }
                assert(m.entries@.take(i as int) =~= m.entries@);
                close_value(Layer::Object(out))
            },
        }
    }

    /// The value that a `serde_json::Value` holds.
    fn from_value(v: serde_json::Value) -> (j: Json)
        ensures
            j@ == document(v),
        decreases document(v),
    {
        broadcast use json_reads;

        match open_value(v) {
            Layer::Null => Json::Null,
            Layer::Bool(b) => Json::Bool(b),
            Layer::Number(n) => Json::Number(n),
            Layer::Text(s) => Json::Text(s),
            Layer::Array(items) => {
                let ghost all = items@;
                let mut out: Vec<Json> = Vec::new();
                for item in it: items
                    invariant
                        document(v) == Doc::Array(Seq::new(all.len(), |k: int| document(all[k]))),
                        it.seq() == all,
                        out@.len() == it.index(),
                        forall|k: int|
                            0 <= k < out@.len() ==> (#[trigger] out@[k])@ == document(all[k]),
                {
                    assert(document(v)->Array_0[it.index()] == document(item));
                    out.push(Json::from_value(item));
                }
                assert(docs(out@) =~= Seq::new(all.len(), |k: int| document(all[k])));
                Json::Array(out)
            },
            Layer::Object(members) => {
                let ghost all = members@;
                let mut out: Vec<(String, Json)> = Vec::new();
                for member in it: members
                    invariant
                        document(v) == Doc::Object(members_doc(all)),
                        distinct_keys(all),
                        it.seq() == all,
                        out@.len() == it.index(),
                        entries_doc(out@) == members_doc(all.take(it.index())),
                        forall|k: int|
                            0 <= k < out@.len() ==> (#[trigger] out@[k]).0@ == all[k].0@,
                {
                    let ghost done = out@;
                    let ghost n = it.index();
                    proof {
                        lemma_member(all, n);
                        assert(member == all[n]);
                        let whole = members_doc(all);
                        assert(whole == document(v)->Object_0);
                        assert(decreases_to!(document(v) => document(v)->Object_0));
                        assert(decreases_to!(whole => whole[all[n].0@]));
                        assert(decreases_to!(document(v) => document(all[n].1)));
                    }
                    let (key, value) = member;
                    out.push((key, Json::from_value(value)));
                    proof {
                        assert(out@.drop_last() =~= done);
                        assert(all.take(n + 1).drop_last() =~= all.take(n));
                    }
                }
                proof {
                    assert(all.take(all.len() as int) =~= all);
                    assert forall|i: int, j: int| 0 <= i < j < out@.len() implies (
                    #[trigger] out@[i]).0@ != (#[trigger] out@[j]).0@ by {
                        assert(all[i].0@ != all[j].0@);
                    }
                }
                Json::Object(JsonMap { entries: out })
            },
        }
    }

    /// The compact text of the value.
    pub fn to_text(&self) -> (text: String)
        ensures
            text@ == json_text(self@),
            readable(self@, READ_DEPTH as nat) ==> json_parse(text@) == Some(self@),
    {
        print_value(&self.to_value())
    }

    /// The value that a text holds, if it is the text of one.
    pub fn parse(text: &str) -> (j: Option<Json>)
        ensures
            match j {
                Some(j) => json_parse(text@) == Some(j@),
                None => json_parse(text@) is None,
            },
    {
        match read_value(text) {
            Ok(v) => Some(Json::from_value(v)),
            Err(_) => None,
        }
    }
}

impl JsonMap {
    /// Whether two objects say the same.
    pub fn same(&self, other: &JsonMap) -> (r: bool)
        ensures
            r == (self@ == other@),
        decreases self,
    {
        proof {
            use_type_invariant(self);
            use_type_invariant(other);
            lemma_entries(self.entries@);
            lemma_entries(other.entries@);
        }
        let mut i: usize = 0;
        while i < self.entries.len()
            invariant
                i <= self.entries@.len(),
                distinct_keys(self.entries@),
                forall|k: int|
                    0 <= k < i ==> other@.contains_key((#[trigger] self.entries@[k]).0@)
                        && other@[self.entries@[k].0@] == self.entries@[k].1@,
            decreases self.entries@.len() - i,
        {
            let entry = &self.entries[i];
            proof {
                lemma_entries(self.entries@);
                assert(self@.contains_key(self.entries@[i as int].0@));
            }
            match other.get(entry.0.as_str()) {
                None => {
                    return false;
                },
                Some(j) => {
                    if !entry.1.same(j) {
                        return false;
                    }
                },
            }
            i += 1;
        }
        i = 0;
        while i < other.entries.len()
            invariant
                i <= other.entries@.len(),
                distinct_keys(other.entries@),
                forall|k: int|
                    0 <= k < i ==> self@.contains_key((#[trigger] other.entries@[k]).0@),
            decreases other.entries@.len() - i,
        {
            proof {
                lemma_entries(other.entries@);
                assert(other@.contains_key(other.entries@[i as int].0@));
            }
            if self.get(other.entries[i].0.as_str()).is_none() {
                return false;
            }
            i += 1;
        }
        proof {
            assert forall|k: Seq<char>| #[trigger] other@.contains_key(k) implies self@.contains_key(
                k,
            ) by {
                let j = choose|j: int|
                    0 <= j < other.entries@.len() && (#[trigger] other.entries@[j]).0@ == k;
            }
            assert forall|k: Seq<char>| #[trigger] other@.contains_key(k) implies exists|j: int|
                0 <= j < self.entries@.len() && (#[trigger] self.entries@[j]).0@ == k by {
                assert(self@.contains_key(k));
            }
            lemma_entries_are(self.entries@, other@);
        }
        true
    }
}

impl Clone for JsonMap {
    fn clone(&self) -> (m: JsonMap)
        ensures
            m@ == self@,
        decreases self,
    {
        proof {
            use_type_invariant(self);
            lemma_entries(self.entries@);
        }
        let mut entries: Vec<(String, Json)> = Vec::new();
        let mut i: usize = 0;
        while i < self.entries.len()
            invariant
                i <= self.entries@.len(),
                entries@.len() == i,
                forall|j: int|
                    0 <= j < i ==> (#[trigger] entries@[j]).0@ == self.entries@[j].0@
                        && entries@[j].1@ == self.entries@[j].1@,
            decreases self.entries@.len() - i,
        {
            let entry = &self.entries[i];
            entries.push((entry.0.clone(), entry.1.clone()));
            i += 1;
        }
        proof {
            lemma_entries_alike(self.entries@, entries@);
        }
        JsonMap { entries }
    }
}

impl Clone for Json {
    fn clone(&self) -> (j: Json)
        ensures
            j@ == self@,
        decreases self,
    {
        broadcast use json_reads;

        match self {
            Json::Null => Json::Null,
            Json::Bool(b) => Json::Bool(*b),
            Json::Number(n) => Json::Number(copy_number(n)),
            Json::Text(s) => Json::Text(s.clone()),
            Json::Array(v) => {
                let mut out: Vec<Json> = Vec::new();
                let mut i: usize = 0;
                while i < v.len()
                    invariant
                        *self is Array,
                        self->Array_0 == *v,
                        i <= v@.len(),
                        out@.len() == i,
                        forall|k: int| 0 <= k < i ==> (#[trigger] out@[k])@ == v@[k]@,
                    decreases v@.len() - i,
                {
                    out.push(v[i].clone());
                    i += 1;
                }
                assert(docs(out@) =~= docs(v@));
                Json::Array(out)
            },
            Json::Object(m) => Json::Object(m.clone()),
        }
    }
}

} // verus!
