//! Striking secrets out of JSON values.
use regex::Regex;
use vstd::prelude::*;

use crate::document::Doc;
use crate::json::{
    docs, json_reads, lemma_entries, lemma_entries_alike, lemma_entries_are, Json, JsonMap,
};
use crate::pattern::{regex_matches, regex_replaced, replaced, seals};

verus! {

/// The document with every match of a pattern in its strings replaced. Keys,
/// numbers, truth values and nulls stay.
pub open spec fn redacted(d: Doc, re: Regex, replacement: Seq<char>) -> Doc
    decreases d,
{
    match d {
        Doc::Text(s) => Doc::Text(regex_replaced(re, s, replacement)),
        Doc::Array(a) => Doc::Array(
            Seq::new(
                a.len(),
                |i: int|
                    if 0 <= i < a.len() {
                        redacted(a[i], re, replacement)
                    } else {
                        Doc::Null
                    },
            ),
        ),
        Doc::Object(m) => Doc::Object(
            Map::new(
                |k: Seq<char>| m.contains_key(k),
                |k: Seq<char>|
                    if m.contains_key(k) {
                        redacted(m[k], re, replacement)
                    } else {
                        Doc::Null
                    },
            ),
        ),
        _ => d,
    }
}

/// Every string in the document satisfies `ok`.
pub open spec fn every_text(d: Doc, ok: spec_fn(Seq<char>) -> bool) -> bool
    decreases d,
{
    match d {
        Doc::Text(s) => ok(s),
        Doc::Array(a) => forall|i: int| 0 <= i < a.len() ==> every_text(#[trigger] a[i], ok),
        Doc::Object(m) => forall|k: Seq<char>| #[trigger]
            m.contains_key(k) ==> every_text(m[k], ok),
        _ => true,
    }
}

/// No string in the document has a match of the pattern.
pub open spec fn clean(d: Doc, re: Regex) -> bool {
    every_text(d, |s: Seq<char>| !regex_matches(re, s))
}

/// Replacing matches of the pattern leaves every string in the document as it is.
pub open spec fn settled(d: Doc, re: Regex, replacement: Seq<char>) -> bool {
    every_text(d, |s: Seq<char>| regex_replaced(re, s, replacement) == s)
}

/// The two documents differ in their strings alone: keys, the lengths of arrays,
/// numbers, truth values and nulls are the same.
pub open spec fn alike(a: Doc, b: Doc) -> bool
    decreases a,
{
    match (a, b) {
        (Doc::Text(_), Doc::Text(_)) => true,
        (Doc::Array(x), Doc::Array(y)) => x.len() == y.len() && forall|i: int|
            0 <= i < x.len() ==> alike(#[trigger] x[i], y[i]),
        (Doc::Object(x), Doc::Object(y)) => x.dom() == y.dom() && forall|k: Seq<char>| #[trigger]
            x.contains_key(k) ==> alike(x[k], y[k]),
        _ => a == b,
    }
}

/// Redaction changes strings alone.
pub proof fn law_redaction_keeps_the_shape(d: Doc, re: Regex, replacement: Seq<char>)
    ensures
        alike(d, redacted(d, re, replacement)),
    decreases d,
{
    match d {
        Doc::Array(a) => {
            assert forall|i: int| 0 <= i < a.len() implies alike(
                #[trigger] a[i],
                redacted(d, re, replacement)->Array_0[i],
            ) by {
                law_redaction_keeps_the_shape(a[i], re, replacement);
            }
        },
        Doc::Object(m) => {
            assert forall|k: Seq<char>| #[trigger] m.contains_key(k) implies alike(
                m[k],
                redacted(d, re, replacement)->Object_0[k],
            ) by {
                law_redaction_keeps_the_shape(m[k], re, replacement);
            }
            assert(redacted(d, re, replacement)->Object_0.dom() =~= m.dom());
        },
        _ => {},
    }
}

/// Redaction goes into every part of a document: a string is the string with its
/// matches replaced, an array and an object hold their parts redacted, in the same
/// places and under the same keys, and numbers, truth values and nulls stay.
pub proof fn law_redaction_goes_into_every_part(d: Doc, re: Regex, replacement: Seq<char>)
    ensures
        match (d, redacted(d, re, replacement)) {
            (Doc::Text(s), out) => out == Doc::Text(regex_replaced(re, s, replacement)),
            (Doc::Array(a), Doc::Array(b)) => a.len() == b.len() && forall|i: int|
                0 <= i < a.len() ==> #[trigger] b[i] == redacted(a[i], re, replacement),
            (Doc::Array(_), _) => false,
            (Doc::Object(m), Doc::Object(n)) => m.dom() == n.dom() && forall|k: Seq<char>|
                m.contains_key(k) ==> #[trigger] n[k] == redacted(m[k], re, replacement),
            (Doc::Object(_), _) => false,
            (other, out) => out == other,
        },
{
    match d {
        Doc::Object(m) => {
            assert(redacted(d, re, replacement)->Object_0.dom() =~= m.dom());
        },
        _ => {},
    }
}

/// Replacing the matches of the pattern leaves no match in any text.
pub open spec fn leaves_none(re: Regex, replacement: Seq<char>) -> bool {
    forall|s: Seq<char>| !regex_matches(re, #[trigger] regex_replaced(re, s, replacement))
}

/// Where replacing leaves no match in any text, no string of a redacted document has
/// one, however deep it lies.
pub proof fn law_redaction_leaves_no_match(d: Doc, re: Regex, replacement: Seq<char>)
    requires
        leaves_none(re, replacement),
    ensures
        clean(redacted(d, re, replacement), re),
    decreases d,
{
    let out = redacted(d, re, replacement);
    match d {
        Doc::Array(a) => {
            assert forall|i: int| 0 <= i < a.len() implies clean(
                #[trigger] out->Array_0[i],
                re,
            ) by {
                law_redaction_leaves_no_match(a[i], re, replacement);
            }
        },
        Doc::Object(m) => {
            assert forall|k: Seq<char>| #[trigger] out->Object_0.contains_key(k) implies clean(
                out->Object_0[k],
                re,
            ) by {
                law_redaction_leaves_no_match(m[k], re, replacement);
            }
        },
        _ => {},
    }
}

/// A document is clean of a pattern if and only if the pattern matches in none of its
/// strings, nor in those of its parts.
pub proof fn law_clean_to_the_last_string(d: Doc, re: Regex)
    ensures
        match d {
            Doc::Text(s) => clean(d, re) <==> !regex_matches(re, s),
            Doc::Array(a) => clean(d, re) <==> forall|i: int|
                0 <= i < a.len() ==> clean(#[trigger] a[i], re),
            Doc::Object(m) => clean(d, re) <==> forall|k: Seq<char>| #[trigger]
                m.contains_key(k) ==> clean(m[k], re),
            _ => clean(d, re),
        },
{
}

/// A document that replacing changes nowhere is its own redaction.
pub proof fn law_redaction_of_the_settled(d: Doc, re: Regex, replacement: Seq<char>)
    requires
        settled(d, re, replacement),
    ensures
        redacted(d, re, replacement) == d,
    decreases d,
{
    let out = redacted(d, re, replacement);
    match d {
        Doc::Array(a) => {
            assert forall|i: int| 0 <= i < a.len() implies out->Array_0[i] == #[trigger] a[i] by {
                law_redaction_of_the_settled(a[i], re, replacement);
            }
            assert(out->Array_0 =~= a);
        },
        Doc::Object(m) => {
            assert forall|k: Seq<char>| #[trigger] m.contains_key(k) implies out->Object_0[k]
                == m[k] by {
                law_redaction_of_the_settled(m[k], re, replacement);
            }
            assert(out->Object_0 =~= m);
        },
        _ => {},
    }
}

/// Replaces every match of a pattern in the strings of a value. A value in which
/// the pattern matches nowhere stays as it is, and a replacement that seals leaves a
/// value in which it matches nowhere.
pub fn redact_value(value: &Json, re: &Regex, replacement: &str) -> (out: Json)
    ensures
        out@ == redacted(value@, *re, replacement@),
        clean(value@, *re) ==> out@ == value@,
        seals(*re, replacement@) ==> clean(out@, *re),
    decreases value,
{
    broadcast use json_reads;

    match value {
        Json::Text(s) => Json::Text(replaced(re, s.as_str(), replacement)),
        Json::Array(items) => {
            let mut out: Vec<Json> = Vec::new();
            let mut i: usize = 0;
            while i < items.len()
                invariant
                    *value is Array,
                    value->Array_0 == *items,
                    i <= items@.len(),
                    out@.len() == i,
                    forall|k: int|
                        0 <= k < i ==> (#[trigger] out@[k])@ == redacted(
                            items@[k]@,
                            *re,
                            replacement@,
                        ) && (clean(items@[k]@, *re) ==> out@[k]@ == items@[k]@) && (seals(
                            *re,
                            replacement@,
                        ) ==> clean(out@[k]@, *re)),
                decreases items@.len() - i,
            {
                out.push(redact_value(&items[i], re, replacement));
                i += 1;
            }
            let j = Json::Array(out);
            assert(docs(out@) =~= redacted(value@, *re, replacement@)->Array_0);
            proof {
                if clean(value@, *re) {
                    json_reads(*value);
                    assert(value@ == Doc::Array(docs(items@)));
                    assert forall|k: int| 0 <= k < items@.len() implies docs(out@)[k]
                        == #[trigger] docs(items@)[k] by {
                        assert(docs(items@)[k] == items@[k]@);
                        assert(clean(docs(items@)[k], *re));
                        assert(out@[k]@ == items@[k]@);
                    }
                    assert(docs(out@) =~= docs(items@));
                }
                if seals(*re, replacement@) {
                    json_reads(j);
                    assert(j@ == Doc::Array(docs(out@)));
                    assert forall|k: int| 0 <= k < out@.len() implies clean(
                        #[trigger] docs(out@)[k],
                        *re,
                    ) by {
                        assert(docs(out@)[k] == out@[k]@);
                    }
                }
            }
            j
        },
        Json::Object(m) => Json::Object(redact_map(m, re, replacement)),
        _ => value.clone(),
    }
}

/// Replaces every match of a pattern in the strings of an object.
fn redact_map(map: &JsonMap, re: &Regex, replacement: &str) -> (out: JsonMap)
    ensures
        Doc::Object(out@) == redacted(Doc::Object(map@), *re, replacement@),
        clean(Doc::Object(map@), *re) ==> out@ == map@,
        seals(*re, replacement@) ==> clean(Doc::Object(out@), *re),
    decreases map,
{
    let entries = map.entries();
    let mut out: Vec<(String, Json)> = Vec::new();
    let mut i: usize = 0;
    while i < entries.len()
        invariant
            i <= entries@.len(),
            decreases_to!(*map => entries@),
            out@.len() == i,
            forall|k: int|
                0 <= k < i ==> (#[trigger] out@[k]).0@ == entries@[k].0@ && out@[k].1@ == redacted(
                    entries@[k].1@,
                    *re,
                    replacement@,
                ) && (clean(entries@[k].1@, *re) ==> out@[k].1@ == entries@[k].1@) && (seals(
                    *re,
                    replacement@,
                ) ==> clean(out@[k].1@, *re)),
        decreases entries@.len() - i,
    {
        let entry = &entries[i];
        assert(decreases_to!(*map => entries@[i as int]));
        assert(decreases_to!(entries@[i as int] => entries@[i as int].1));
        out.push((entry.0.clone(), redact_value(&entry.1, re, replacement)));
        i += 1;
    }
    proof {
        let want = redacted(Doc::Object(map@), *re, replacement@)->Object_0;
        lemma_entries(entries@);
        assert forall|a: int, b: int| 0 <= a < b < out@.len() implies (#[trigger] out@[a]).0@ != (
        #[trigger] out@[b]).0@ by {
            assert(entries@[a].0@ != entries@[b].0@);
        }
        assert forall|k: Seq<char>| #[trigger] want.contains_key(k) implies exists|j: int|
            0 <= j < out@.len() && (#[trigger] out@[j]).0@ == k by {
            assert(map@.contains_key(k));
            let j = choose|j: int| 0 <= j < entries@.len() && (#[trigger] entries@[j]).0@ == k;
            assert(out@[j].0@ == k);
        }
        assert forall|j: int| 0 <= j < out@.len() implies want.contains_key((#[trigger] out@[j]).0@)
            && want[out@[j].0@] == out@[j].1@ by {
            assert(map@.contains_key(entries@[j].0@));
        }
        lemma_entries_are(out@, want);
        if seals(*re, replacement@) {
            assert forall|k: Seq<char>| #[trigger] want.contains_key(k) implies clean(
                want[k],
                *re,
            ) by {
                let j = choose|j: int| 0 <= j < out@.len() && (#[trigger] out@[j]).0@ == k;
                assert(want[out@[j].0@] == out@[j].1@);
            }
            assert(clean(Doc::Object(want), *re));
        }
        if clean(Doc::Object(map@), *re) {
            assert forall|k: int| 0 <= k < out@.len() implies (#[trigger] out@[k]).0@
                == entries@[k].0@ && out@[k].1@ == entries@[k].1@ by {
                assert(map@.contains_key(entries@[k].0@));
            }
            lemma_entries_alike(entries@, out@);
        }
    }
    JsonMap::of(out)
}

} // verus!
