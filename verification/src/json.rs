//! JSON values, as far as thread documents leave them uninterpreted.
use crate::text;
use vstd::prelude::*;

verus! {

/// A JSON number: a natural number, a negative integer, or the digits of any other number.
#[derive(Debug, Clone, PartialEq, Eq, Hash)]
pub enum JsonNumber {
    Natural(u64),
    Negative(i64),
    Other(String),
}

/// A JSON value. The fields of an object stand in the order in which they are walked.
#[derive(Debug, PartialEq, Eq, Hash)]
pub enum JsonValue {
    Null,
    Bool(bool),
    Number(JsonNumber),
    Text(String),
    Array(Vec<JsonValue>),
    Object(Vec<(String, JsonValue)>),
}

/// What `str::to_lowercase` makes of a text.
pub uninterp spec fn lowercase(s: Seq<char>) -> Seq<char>;

/// The lower-case letter of an ASCII letter; any other character as it is.
pub open spec fn ascii_lower(c: char) -> char {
    if 'A' <= c <= 'Z' {
        (c as u32 + 32) as char
    } else {
        c
    }
}

/// `str::to_lowercase` is a function of the text, and on ASCII texts it replaces each capital
/// letter by the small one.
pub assume_specification[ str::to_lowercase ](s: &str) -> (r: String)
    ensures
        r@ == lowercase(s@),
        (forall|i: int| 0 <= i < s@.len() ==> (#[trigger] s@[i]) < '\u{80}') ==> r@
            == s@.map_values(|c: char| ascii_lower(c)),
;

/// The index of the first of the keys that is `field`.
pub open spec fn first_index(keys: Seq<Seq<char>>, field: Seq<char>) -> Option<int>
    decreases keys.len(),
{
    if keys.len() == 0 {
        None
    } else {
        match first_index(keys.drop_last(), field) {
            Some(i) => Some(i),
            None => if keys.last() == field {
                Some(keys.len() - 1)
            } else {
                None
            },
        }
    }
}

/// The index of the last of the keys that is `field`.
pub open spec fn last_index(keys: Seq<Seq<char>>, field: Seq<char>) -> Option<int>
    decreases keys.len(),
{
    if keys.len() == 0 {
        None
    } else if keys.last() == field {
        Some(keys.len() - 1)
    } else {
        last_index(keys.drop_last(), field)
    }
}

/// The keys of an object in lower case.
pub open spec fn folded(obj: Seq<(String, JsonValue)>) -> Seq<Seq<char>> {
    obj.map_values(|e: (String, JsonValue)| lowercase(e.0@))
}

/// The value of the first entry whose key is `field` in lower case.
pub open spec fn first_named(obj: Seq<(String, JsonValue)>, field: Seq<char>) -> Option<JsonValue> {
    match first_index(folded(obj), field) {
        Some(i) => Some(obj[i].1),
        None => None,
    }
}

/// The value of the last entry whose key is `field` in lower case.
pub open spec fn last_named(obj: Seq<(String, JsonValue)>, field: Seq<char>) -> Option<JsonValue> {
    match last_index(folded(obj), field) {
        Some(i) => Some(obj[i].1),
        None => None,
    }
}

/// The text of a JSON string.
pub open spec fn as_text(v: Option<JsonValue>) -> Option<Seq<char>> {
    match v {
        Some(JsonValue::Text(s)) => Some(s@),
        _ => None,
    }
}

/// The fields of a JSON object.
pub open spec fn as_fields(v: Option<JsonValue>) -> Option<Seq<(String, JsonValue)>> {
    match v {
        Some(JsonValue::Object(o)) => Some(o@),
        _ => None,
    }
}

/// The value of a JSON integer that fits in 64 bits.
pub open spec fn as_integer(v: Option<JsonValue>) -> Option<i64> {
    match v {
        Some(JsonValue::Number(JsonNumber::Natural(n))) => if n <= i64::MAX {
            Some(n as i64)
        } else {
            None
        },
        Some(JsonValue::Number(JsonNumber::Negative(n))) => Some(n),
        _ => None,
    }
}

impl JsonValue {
    /// The text of a JSON string.
    pub fn as_str(&self) -> (r: Option<&str>)
        ensures
            r is Some <==> as_text(Some(*self)) is Some,
            r matches Some(s) ==> as_text(Some(*self)) == Some(s@),
    {
        match self {
            JsonValue::Text(s) => Some(s.as_str()),
            _ => None,
        }
    }

    /// The fields of a JSON object.
    pub fn as_object(&self) -> (r: Option<&Vec<(String, JsonValue)>>)
        ensures
            r is Some <==> as_fields(Some(*self)) is Some,
            r matches Some(o) ==> as_fields(Some(*self)) == Some(o@),
    {
        match self {
            JsonValue::Object(o) => Some(o),
            _ => None,
        }
    }

    /// The value of a JSON integer that fits in 64 bits.
    pub fn as_i64(&self) -> (r: Option<i64>)
        ensures
            r == as_integer(Some(*self)),
    {
        match self {
            JsonValue::Number(JsonNumber::Natural(n)) => if *n <= 0x7fff_ffff_ffff_ffff {
                Some(*n as i64)
            } else {
                None
            },
            JsonValue::Number(JsonNumber::Negative(n)) => Some(*n),
            _ => None,
        }
    }
}

/// The texts of strings.
pub open spec fn key_texts(keys: Seq<String>) -> Seq<Seq<char>> {
    keys.map_values(|k: String| k@)
}

proof fn lemma_first_index(keys: Seq<Seq<char>>, field: Seq<char>, n: int)
    requires
        0 <= n <= keys.len(),
        first_index(keys.take(n), field) is Some,
    ensures
        first_index(keys, field) == first_index(keys.take(n), field),
    decreases keys.len(),
{
    if n == keys.len() {
        assert(keys.take(n) =~= keys);
    } else {
        assert(keys.drop_last().take(n) =~= keys.take(n));
        lemma_first_index(keys.drop_last(), field, n);
    }
}

/// Finds the first of the keys that is `field`.
pub fn find_first(keys: &Vec<String>, field: &str) -> (r: Option<usize>)
    ensures
        (match r {
            Some(i) => Some(i as int),
            None => None,
        }) == first_index(key_texts(keys@), field@),
        r matches Some(i) ==> i < keys@.len(),
{
    let ghost t = key_texts(keys@);
    let mut i: usize = 0;
    assert(t.take(0) =~= Seq::empty());
    while i < keys.len()
        invariant
            i <= keys@.len(),
            t == key_texts(keys@),
            first_index(t.take(i as int), field@) is None,
        decreases keys@.len() - i,
    {
        assert(t.take(i as int + 1).drop_last() =~= t.take(i as int));
        assert(t.take(i as int + 1).last() == keys@[i as int]@);
        if text::same_text(keys[i].as_str(), field) {
            proof {
                lemma_first_index(t, field@, i as int + 1);
            }
            return Some(i);
        }
        i += 1;
    }
    assert(t.take(t.len() as int) =~= t);
    None
}

/// Finds the last of the keys that is `field`.
pub fn find_last(keys: &Vec<String>, field: &str) -> (r: Option<usize>)
    ensures
        (match r {
            Some(i) => Some(i as int),
            None => None,
        }) == last_index(key_texts(keys@), field@),
        r matches Some(i) ==> i < keys@.len(),
{
    let ghost t = key_texts(keys@);
    let mut i: usize = keys.len();
    assert(t.take(t.len() as int) =~= t);
    while i > 0
        invariant
            i <= keys@.len(),
            t == key_texts(keys@),
            last_index(t, field@) == last_index(t.take(i as int), field@),
        decreases i,
    {
        assert(t.take(i as int).drop_last() =~= t.take(i - 1));
        assert(t.take(i as int).last() == keys@[i - 1]@);
        if text::same_text(keys[i - 1].as_str(), field) {
            return Some(i - 1);
        }
        i -= 1;
    }
    None
}

/// The keys of an object in lower case.
fn fold_keys(obj: &Vec<(String, JsonValue)>) -> (r: Vec<String>)
    ensures
        key_texts(r@) == folded(obj@),
        r@.len() == obj@.len(),
{
    let mut keys: Vec<String> = Vec::new();
    let mut i: usize = 0;
    while i < obj.len()
        invariant
            i <= obj@.len(),
            keys@.len() == i,
            forall|j: int| 0 <= j < i ==> (#[trigger] keys@[j])@ == lowercase(obj@[j].0@),
        decreases obj@.len() - i,
    {
        keys.push(obj[i].0.as_str().to_lowercase());
        i += 1;
    }
    assert(key_texts(keys@) =~= folded(obj@));
    keys
}

/// Finds the first entry whose key is `field` in lower case.
pub fn get_first<'a>(obj: &'a Vec<(String, JsonValue)>, field: &str) -> (r: Option<&'a JsonValue>)
    ensures
        r is Some <==> first_named(obj@, field@) is Some,
        r matches Some(v) ==> first_named(obj@, field@) == Some(*v),
{
    let keys = fold_keys(obj);
    match find_first(&keys, field) {
        Some(i) => Some(&obj[i].1),
        None => None,
    }
}

/// Finds the last entry whose key is `field` in lower case.
pub fn get_last<'a>(obj: &'a Vec<(String, JsonValue)>, field: &str) -> (r: Option<&'a JsonValue>)
    ensures
        r is Some <==> last_named(obj@, field@) is Some,
        r matches Some(v) ==> last_named(obj@, field@) == Some(*v),
{
    let keys = fold_keys(obj);
    match find_last(&keys, field) {
        Some(i) => Some(&obj[i].1),
        None => None,
    }
}

// ---------------------------------------------------------------------------
// Laws
// ---------------------------------------------------------------------------

proof fn lemma_index_bounds(keys: Seq<Seq<char>>, field: Seq<char>)
    ensures
        first_index(keys, field) matches Some(i) ==> 0 <= i < keys.len() && keys[i] == field
            && forall|j: int| 0 <= j < i ==> #[trigger] keys[j] != field,
        first_index(keys, field) is None ==> forall|j: int|
            0 <= j < keys.len() ==> #[trigger] keys[j] != field,
        last_index(keys, field) matches Some(i) ==> 0 <= i < keys.len() && keys[i] == field
            && forall|j: int| i < j < keys.len() ==> #[trigger] keys[j] != field,
        last_index(keys, field) is None ==> forall|j: int|
            0 <= j < keys.len() ==> #[trigger] keys[j] != field,
    decreases keys.len(),
{
    if keys.len() > 0 {
        let t = keys.drop_last();
        lemma_index_bounds(t, field);
        assert(forall|j: int| 0 <= j < t.len() ==> #[trigger] keys[j] == t[j]);
        assert(keys.last() == keys[keys.len() - 1]);
    }
}

/// Looking for the first of several keys finds the one that no equal one stands before, and looking
/// for the last the one that none stands behind.
pub proof fn law_key_is_found(keys: Seq<Seq<char>>, field: Seq<char>, i: int)
    requires
        0 <= i < keys.len(),
        keys[i] == field,
    ensures
        (forall|j: int| 0 <= j < i ==> #[trigger] keys[j] != field) ==> first_index(keys, field)
            == Some(i),
        (forall|j: int| i < j < keys.len() ==> #[trigger] keys[j] != field) ==> last_index(
            keys,
            field,
        ) == Some(i),
{
    lemma_index_bounds(keys, field);
}

/// The first entry whose key is the field in lower case gives the value, and where there is no such
/// entry there is no value.
pub proof fn law_first_entry_counts(obj: Seq<(String, JsonValue)>, field: Seq<char>, i: int)
    ensures
        0 <= i < obj.len() && lowercase(obj[i].0@) == field && (forall|j: int|
            0 <= j < i ==> lowercase((#[trigger] obj[j]).0@) != field) ==> first_named(obj, field)
            == Some(obj[i].1),
        (forall|j: int| 0 <= j < obj.len() ==> lowercase((#[trigger] obj[j]).0@) != field)
            ==> first_named(obj, field) is None,
{
    let keys = folded(obj);
    lemma_index_bounds(keys, field);
    assert(forall|j: int| 0 <= j < obj.len() ==> keys[j] == lowercase((#[trigger] obj[j]).0@));
    assert(forall|j: int| 0 <= j < keys.len() ==> #[trigger] keys[j] == lowercase(obj[j].0@));
}

/// The last entry whose key is the field in lower case gives the value, and where there is no such
/// entry there is no value.
pub proof fn law_last_entry_counts(obj: Seq<(String, JsonValue)>, field: Seq<char>, i: int)
    ensures
        0 <= i < obj.len() && lowercase(obj[i].0@) == field && (forall|j: int|
            i < j < obj.len() ==> lowercase((#[trigger] obj[j]).0@) != field) ==> last_named(
            obj,
            field,
        ) == Some(obj[i].1),
        (forall|j: int| 0 <= j < obj.len() ==> lowercase((#[trigger] obj[j]).0@) != field)
            ==> last_named(obj, field) is None,
{
    let keys = folded(obj);
    lemma_index_bounds(keys, field);
    assert(forall|j: int| 0 <= j < obj.len() ==> keys[j] == lowercase((#[trigger] obj[j]).0@));
    assert(forall|j: int| 0 <= j < keys.len() ==> #[trigger] keys[j] == lowercase(obj[j].0@));
}

/// Only a string has a text, only an object has fields, and only an integer of 64 bits has a value.
pub proof fn law_kinds_of_values(v: JsonValue)
    ensures
        v matches JsonValue::Text(s) ==> as_text(Some(v)) == Some(s@),
        !(v is Text) ==> as_text(Some(v)) is None,
        v matches JsonValue::Object(o) ==> as_fields(Some(v)) == Some(o@),
        !(v is Object) ==> as_fields(Some(v)) is None,
        v matches JsonValue::Number(JsonNumber::Natural(n)) ==> (as_integer(Some(v)) is Some <==> n
            <= 0x7fff_ffff_ffff_ffff) && (as_integer(Some(v)) matches Some(m) ==> m == n),
        v matches JsonValue::Number(JsonNumber::Negative(n)) ==> as_integer(Some(v)) == Some(n),
        v matches JsonValue::Number(JsonNumber::Other(_)) ==> as_integer(Some(v)) is None,
        !(v is Number) ==> as_integer(Some(v)) is None,
        as_text(None) is None && as_fields(None) is None && as_integer(None) is None,
{
}

/// A key that is not there is not found.
pub proof fn law_missing_key_is_not_found(keys: Seq<Seq<char>>, field: Seq<char>)
    requires
        forall|j: int| 0 <= j < keys.len() ==> #[trigger] keys[j] != field,
    ensures
        first_index(keys, field) is None,
        last_index(keys, field) is None,
{
    lemma_index_bounds(keys, field);
}

/// The texts of strings, one by one.
pub proof fn law_texts_of_keys(keys: Seq<String>, i: int)
    requires
        0 <= i < keys.len(),
    ensures
        key_texts(keys).len() == keys.len(),
        key_texts(keys)[i] == keys[i]@,
{
}

} // verus!
