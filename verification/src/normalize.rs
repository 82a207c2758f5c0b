//! Reducing a generation reply to question/answer pairs.
//!
//! A reply arrives in one of a few shapes: a JSON object holding a
//! `qa_pairs` array of question/answer objects, a bare JSON array of
//! two-element pairs, the argument payload of a tool call the model may
//! or may not have selected, or a single free-text answer split at its
//! first line feed. `normalize` reduces any of them to one ordered
//! sequence of (question, answer) pairs, or reports that the reply
//! matched no supported shape.

use vstd::prelude::*;

use crate::json::JsonValue;
use crate::json::lookup;
use crate::json::spec_lookup;
use crate::text::lemma_find_char_at;
use crate::text::spec_find;

verus! {

/// Why a reply could not be interpreted.
#[derive(Clone, Copy, Debug, PartialEq, Eq, Structural)]
pub enum SchemaError {
    /// The reply matched no supported shape.
    UnsupportedShape,
    /// An entry of the pair array lacked a string question or answer.
    MalformedEntry,
}

/// One reply of the generation service, reduced to what the normalizer
/// reads of it.
pub enum GenerationReply {
    /// The reply body parsed as JSON.
    Json(JsonValue),
    /// The model was offered a function to call: the parsed argument
    /// payload when it selected the function, nothing when it did not.
    ToolCall(Option<JsonValue>),
    /// A free-text reply.
    Text(String),
}

/// The question and answer of one entry of a `qa_pairs` array: an
/// object with string fields `question` and `answer`.
pub open spec fn spec_entry_pair(v: JsonValue) -> Option<(Seq<char>, Seq<char>)> {
    match v {
        JsonValue::Object(fields) => match (
            spec_lookup(fields@, "question"@),
            spec_lookup(fields@, "answer"@),
        ) {
            (Some(JsonValue::Text(q)), Some(JsonValue::Text(a))) => Some((q@, a@)),
            _ => None,
        },
        _ => None,
    }
}

/// The pairs of a `qa_pairs` array: every entry must yield one, and a
/// malformed entry fails the whole reply.
pub open spec fn spec_object_pairs(items: Seq<JsonValue>) -> Result<
    Seq<(Seq<char>, Seq<char>)>,
    SchemaError,
>
    decreases items.len(),
{
    if items.len() == 0 {
        Ok(seq![])
    } else {
        match spec_object_pairs(items.drop_last()) {
            Ok(ps) => match spec_entry_pair(items.last()) {
                Some(p) => Ok(ps.push(p)),
                None => Err(SchemaError::MalformedEntry),
            },
            Err(e) => Err(e),
        }
    }
}

/// A scalar coerced to text: a string as itself, a number as its source
/// text, a boolean or null as its JSON spelling.
pub open spec fn spec_coerce(v: JsonValue) -> Option<Seq<char>> {
    match v {
        JsonValue::Text(s) => Some(s@),
        JsonValue::Number(n) => Some(n@),
        JsonValue::Bool(b) => Some(
            if b {
                "true"@
            } else {
                "false"@
            },
        ),
        JsonValue::Null => Some("null"@),
        _ => None,
    }
}

/// The pair of one entry of a bare array: an array of exactly two
/// scalars. Anything else yields nothing and is skipped.
pub open spec fn spec_bare_pair(v: JsonValue) -> Option<(Seq<char>, Seq<char>)> {
    match v {
        JsonValue::Array(elems) => if elems@.len() == 2 {
            match (spec_coerce(elems@[0]), spec_coerce(elems@[1])) {
                (Some(q), Some(a)) => Some((q, a)),
                _ => None,
            }
        } else {
            None
        },
        _ => None,
    }
}

/// The pairs of a bare array: entries that yield no pair are silently
/// dropped.
pub open spec fn spec_bare_pairs(items: Seq<JsonValue>) -> Seq<(Seq<char>, Seq<char>)>
    decreases items.len(),
{
    if items.len() == 0 {
        seq![]
    } else {
        spec_bare_pairs(items.drop_last()) + match spec_bare_pair(items.last()) {
            Some(p) => seq![p],
            None => seq![],
        }
    }
}

/// The pairs of a JSON reply. An object is read through its `qa_pairs`
/// field: an array is extracted entry by entry, a missing field yields
/// no pairs, and any other field value is unsupported. A bare array is
/// read as two-element pairs. Everything else is unsupported.
pub open spec fn spec_normalize_json(v: JsonValue) -> Result<
    Seq<(Seq<char>, Seq<char>)>,
    SchemaError,
> {
    match v {
        JsonValue::Object(fields) => match spec_lookup(fields@, "qa_pairs"@) {
            None => Ok(seq![]),
            Some(JsonValue::Array(items)) => spec_object_pairs(items@),
            Some(_) => Err(SchemaError::UnsupportedShape),
        },
        JsonValue::Array(items) => Ok(spec_bare_pairs(items@)),
        _ => Err(SchemaError::UnsupportedShape),
    }
}

/// A free-text reply split at its first line feed; without one, the
/// pair of two empty texts.
pub open spec fn spec_delimited(s: Seq<char>) -> (Seq<char>, Seq<char>) {
    let i = spec_find(s, '\n');
    if 0 <= i < s.len() {
        (s.take(i), s.skip(i + 1))
    } else {
        (Seq::empty(), Seq::empty())
    }
}

/// The pairs of one reply, whatever its shape.
pub open spec fn spec_normalize(r: GenerationReply) -> Result<
    Seq<(Seq<char>, Seq<char>)>,
    SchemaError,
> {
    match r {
        GenerationReply::Json(v) => spec_normalize_json(v),
        GenerationReply::ToolCall(arg) => match arg {
            Some(v) => spec_normalize_json(v),
            None => Ok(seq![]),
        },
        GenerationReply::Text(s) => Ok(seq![spec_delimited(s@)]),
    }
}

fn entry_pair(v: &JsonValue) -> (r: Option<(String, String)>)
    ensures
        match r {
            Some(p) => spec_entry_pair(*v) == Some((p.0@, p.1@)),
            None => spec_entry_pair(*v) is None,
        },
{
    match v {
        JsonValue::Object(fields) => {
            let q = lookup(fields, "question");
            let a = lookup(fields, "answer");
            match (q, a) {
                (Some(JsonValue::Text(qs)), Some(JsonValue::Text(as_text))) => Some(
                    (qs.clone(), as_text.clone()),
                ),
                _ => None,
            }
        },
        _ => None,
    }
}

proof fn lemma_object_pairs_err(items: Seq<JsonValue>, i: int)
    requires
        0 <= i <= items.len(),
        spec_object_pairs(items.take(i)) is Err,
    ensures
        spec_object_pairs(items) == spec_object_pairs(items.take(i)),
    decreases items.len() - i,
{
    if i == items.len() {
        assert(items.take(i) =~= items);
    } else {
        assert(items.take(i + 1).drop_last() =~= items.take(i));
        lemma_object_pairs_err(items, i + 1);
    }
}

fn object_pairs(items: &Vec<JsonValue>) -> (r: Result<Vec<(String, String)>, SchemaError>)
    ensures
        match r {
            Ok(ps) => spec_object_pairs(items@) == Ok::<_, SchemaError>(ps.deep_view()),
            Err(e) => spec_object_pairs(items@) == Err::<Seq<(Seq<char>, Seq<char>)>, _>(e),
        },
{
    let mut out: Vec<(String, String)> = Vec::new();
    let mut i: usize = 0;
    proof {
        assert(items@.take(0) =~= Seq::<JsonValue>::empty());
        assert(out.deep_view() =~= Seq::<(Seq<char>, Seq<char>)>::empty());
    }
    while i < items.len()
        invariant
            i <= items.len(),
            spec_object_pairs(items@.take(i as int)) == Ok::<_, SchemaError>(out.deep_view()),
        decreases items.len() - i,
    {
        let ghost out0 = out.deep_view();
        proof {
            assert(items@.take(i + 1).drop_last() =~= items@.take(i as int));
            assert(items@.take(i + 1).last() == items@[i as int]);
        }
        match entry_pair(&items[i]) {
            Some(p) => {
                out.push(p);
                proof {
                    assert(out.deep_view() =~= out0.push(
                        (out@[out@.len() - 1].0@, out@[out@.len() - 1].1@),
                    ));
                }
            },
            None => {
                proof {
                    lemma_object_pairs_err(items@, i + 1);
                }
                return Err(SchemaError::MalformedEntry);
            },
        }
        i = i + 1;
    }
    proof {
        assert(items@.take(items@.len() as int) =~= items@);
    }
    Ok(out)
}

fn coerce(v: &JsonValue) -> (r: Option<String>)
    ensures
        match r {
            Some(s) => spec_coerce(*v) == Some(s@),
            None => spec_coerce(*v) is None,
        },
{
    match v {
        JsonValue::Text(s) => Some(s.clone()),
        JsonValue::Number(n) => Some(n.clone()),
        JsonValue::Bool(b) => Some(
            if *b {
                "true".to_owned()
            } else {
                "false".to_owned()
            },
        ),
        JsonValue::Null => Some("null".to_owned()),
        _ => None,
    }
}

fn bare_pair(v: &JsonValue) -> (r: Option<(String, String)>)
    ensures
        match r {
            Some(p) => spec_bare_pair(*v) == Some((p.0@, p.1@)),
            None => spec_bare_pair(*v) is None,
        },
{
    match v {
        JsonValue::Array(elems) => {
            if elems.len() == 2 {
                let q = coerce(&elems[0]);
                let a = coerce(&elems[1]);
                match (q, a) {
                    (Some(qs), Some(as_text)) => Some((qs, as_text)),
                    _ => None,
                }
            } else {
                None
            }
        },
        _ => None,
    }
}

fn bare_pairs(items: &Vec<JsonValue>) -> (r: Vec<(String, String)>)
    ensures
        r.deep_view() == spec_bare_pairs(items@),
{
    let mut out: Vec<(String, String)> = Vec::new();
    let mut i: usize = 0;
    proof {
        assert(items@.take(0) =~= Seq::<JsonValue>::empty());
        assert(out.deep_view() =~= Seq::<(Seq<char>, Seq<char>)>::empty());
    }
    while i < items.len()
        invariant
            i <= items.len(),
            out.deep_view() == spec_bare_pairs(items@.take(i as int)),
        decreases items.len() - i,
    {
        let ghost out0 = out.deep_view();
        proof {
            assert(items@.take(i + 1).drop_last() =~= items@.take(i as int));
            assert(items@.take(i + 1).last() == items@[i as int]);
        }
        match bare_pair(&items[i]) {
            Some(p) => {
                out.push(p);
                proof {
                    assert(out.deep_view() =~= out0 + seq![
                        (out@[out@.len() - 1].0@, out@[out@.len() - 1].1@),
                    ]);
                }
            },
            None => {
                proof {
                    assert(out.deep_view() =~= out0 + Seq::<(Seq<char>, Seq<char>)>::empty());
                }
            },
        }
        i = i + 1;
    }
    proof {
        assert(items@.take(items@.len() as int) =~= items@);
    }
    out
}

/// The pairs of a JSON reply: an object's `qa_pairs` array extracted
/// entry by entry, or a bare array read as two-element pairs.
pub fn normalize_json(v: &JsonValue) -> (r: Result<Vec<(String, String)>, SchemaError>)
    ensures
        match r {
            Ok(ps) => spec_normalize_json(*v) == Ok::<_, SchemaError>(ps.deep_view()),
            Err(e) => spec_normalize_json(*v) == Err::<Seq<(Seq<char>, Seq<char>)>, _>(e),
        },
{
    match v {
        JsonValue::Object(fields) => match lookup(fields, "qa_pairs") {
            None => {
                let out: Vec<(String, String)> = Vec::new();
                proof {
                    assert(out.deep_view() =~= Seq::<(Seq<char>, Seq<char>)>::empty());
                }
                Ok(out)
            },
            Some(JsonValue::Array(items)) => object_pairs(items),
            Some(_) => Err(SchemaError::UnsupportedShape),
        },
        JsonValue::Array(items) => Ok(bare_pairs(items)),
        _ => Err(SchemaError::UnsupportedShape),
    }
}

fn delimited(s: &str) -> (r: (String, String))
    ensures
        (r.0@, r.1@) == spec_delimited(s@),
{
    let n = s.unicode_len();
    let mut i: usize = 0;
    while i < n && s.get_char(i) != '\n'
        invariant
            i <= n,
            n == s@.len(),
            forall|j: int| 0 <= j < i ==> s@[j] != '\n',
        decreases n - i,
    {
        i = i + 1;
    }
    proof {
        lemma_find_char_at(s@, '\n', i as int);
    }
    if i == n {
        (String::new(), String::new())
    } else {
        let q = s.substring_char(0, i).to_owned();
        let a = s.substring_char(i + 1, n).to_owned();
        proof {
            assert(q@ =~= s@.take(i as int));
            assert(a@ =~= s@.skip(i + 1));
        }
        (q, a)
    }
}

/// Reduces one reply to its (question, answer) pairs, in reply order,
/// or reports that the reply matched no supported shape.
pub fn normalize(reply: &GenerationReply) -> (r: Result<Vec<(String, String)>, SchemaError>)
    ensures
        match r {
            Ok(ps) => spec_normalize(*reply) == Ok::<_, SchemaError>(ps.deep_view()),
            Err(e) => spec_normalize(*reply) == Err::<Seq<(Seq<char>, Seq<char>)>, _>(e),
        },
{
    match reply {
        GenerationReply::Json(v) => normalize_json(v),
        GenerationReply::ToolCall(arg) => match arg {
            Some(v) => normalize_json(v),
            None => {
                let out: Vec<(String, String)> = Vec::new();
                proof {
                    assert(out.deep_view() =~= Seq::<(Seq<char>, Seq<char>)>::empty());
                }
                Ok(out)
            },
        },
        GenerationReply::Text(s) => {
            let p = delimited(s.as_str());
            let mut out: Vec<(String, String)> = Vec::new();
            out.push(p);
            proof {
                assert(out.deep_view() =~= seq![spec_delimited(s@)]);
            }
            Ok(out)
        },
    }
}

} // verus!
