//! A plain JSON document model and the parser entry point (backed by serde_json).
use vstd::prelude::*;

use vstd::pervasive::VecAdditionalExecFns;

use crate::text::{chars_eq, chars_of, owned, text_less, trim, trim_chars};

verus! {

/// The outside JSON value type that `serde_json` parses into.
#[verifier::external_type_specification]
#[verifier::external_body]
pub struct ExJsonValue(serde_json::Value);

/// A JSON document.  Numbers keep the decimal text that serde_json prints for
/// them; object members keep serde_json's (key-sorted, duplicate-free) order.
#[derive(Debug, PartialEq)]
pub enum Json {
    Null,
    Bool(bool),
    Number(String),
    Str(String),
    Array(Vec<Json>),
    Object(Vec<(String, Json)>),
}

/// Mathematical model of a JSON document.
pub enum JsonView {
    Null,
    Bool(bool),
    Number(Seq<char>),
    Str(Seq<char>),
    Array(Seq<JsonView>),
    Object(Seq<(Seq<char>, JsonView)>),
}

/// The model of a document.
pub open spec fn json_view(j: Json) -> JsonView
    decreases j,
{
    match j {
        Json::Null => JsonView::Null,
        Json::Bool(b) => JsonView::Bool(b),
        Json::Number(n) => JsonView::Number(n@),
        Json::Str(s) => JsonView::Str(s@),
        Json::Array(a) => JsonView::Array(
            Seq::new(a@.len(), |i: int| if 0 <= i < a@.len() { json_view(a@[i]) } else { JsonView::Null }),
        ),
        Json::Object(m) => JsonView::Object(
            Seq::new(
                m@.len(),
                |i: int|
                    if 0 <= i < m@.len() {
                        (m@[i].0@, json_view(m@[i].1))
                    } else {
                        (Seq::empty(), JsonView::Null)
                    },
            ),
        ),
    }
}

impl View for Json {
    type V = JsonView;

    open spec fn view(&self) -> JsonView {
        json_view(*self)
    }
}

/// What `serde_json::from_str::<serde_json::Value>` yields for a text: `None` when
/// the text is not one JSON document (surrounding whitespace allowed).
pub uninterp spec fn json_parse(text: Seq<char>) -> Option<JsonView>;

/// The member `key` of an object (first match), `None` for other values; this is
/// what `serde_json::Value::get` with a string key returns.
pub open spec fn member_from(m: Seq<(Seq<char>, JsonView)>, key: Seq<char>, i: int) -> Option<JsonView>
    decreases m.len() - i,
{
    if i < 0 || i >= m.len() {
        None
    } else if m[i].0 == key {
        Some(m[i].1)
    } else {
        member_from(m, key, i + 1)
    }
}

pub open spec fn member(v: JsonView, key: Seq<char>) -> Option<JsonView> {
    match v {
        JsonView::Object(m) => member_from(m, key, 0),
        _ => None,
    }
}

/// `Value::as_str` on an optional value.
pub open spec fn str_of(v: Option<JsonView>) -> Option<Seq<char>> {
    match v {
        Some(JsonView::Str(s)) => Some(s),
        _ => None,
    }
}

/// `Value::as_array` on an optional value.
pub open spec fn array_of(v: Option<JsonView>) -> Option<Seq<JsonView>> {
    match v {
        Some(JsonView::Array(a)) => Some(a),
        _ => None,
    }
}

/// Converts a serde_json value into the library's model, variant by variant.
#[verifier::external_body]
fn from_serde(v: serde_json::Value) -> Json {
    match v {
        serde_json::Value::Null => Json::Null,
        serde_json::Value::Bool(b) => Json::Bool(b),
        serde_json::Value::Number(n) => Json::Number(n.to_string()),
        serde_json::Value::String(s) => Json::Str(s),
        serde_json::Value::Array(a) => Json::Array(a.into_iter().map(from_serde).collect()),
        serde_json::Value::Object(m) => Json::Object(m.into_iter().map(|(k, x)| (k, from_serde(x))).collect()),
    }
}

/// Converts the library's model back into a serde_json value, variant by
/// variant (a number text that serde_json does not read becomes null).
#[verifier::external_body]
fn to_serde(v: &Json) -> serde_json::Value {
    match v {
        Json::Null => serde_json::Value::Null,
        Json::Bool(b) => serde_json::Value::Bool(*b),
        Json::Number(n) => n.parse::<serde_json::Number>().map(serde_json::Value::Number).unwrap_or(serde_json::Value::Null),
        Json::Str(s) => serde_json::Value::String(s.clone()),
        Json::Array(a) => serde_json::Value::Array(a.iter().map(to_serde).collect()),
        Json::Object(m) => serde_json::Value::Object(m.iter().map(|(k, x)| (k.clone(), to_serde(x))).collect()),
    }
}

/// What `serde_json::to_string_pretty` prints for a document.
pub uninterp spec fn json_pretty(v: JsonView) -> Seq<char>;

/// `serde_json::to_string_pretty` of the document (converted back into a
/// `serde_json::Value`), named by [`json_pretty`].
#[verifier::external_body]
pub(crate) fn pretty_json(v: &Json) -> (r: String)
    ensures
        r@ == json_pretty(v@),
{
    serde_json::to_string_pretty(&to_serde(v)).unwrap_or_default()
}

/// Parses a text with `serde_json::from_str` into a `serde_json::Value` and
/// converts it to [`Json`]; the contract only names the result ([`json_parse`]).
#[verifier::external_body]
pub fn parse_json(text: &str) -> (r: Option<Json>)
    ensures
        r matches Some(j) ==> json_parse(text@) == Some(j@),
        r is None ==> json_parse(text@) is None,
{
    serde_json::from_str::<serde_json::Value>(text).ok().map(from_serde)
}

impl Json {
    /// The member `key` of an object; `None` for any other value.
    pub fn get(&self, key: &str) -> (r: Option<&Json>)
        ensures
            r matches Some(x) ==> member(self@, key@) == Some(x@),
            r is None ==> member(self@, key@) is None,
    {
        match self {
            Json::Object(m) => {
                let k = chars_of(key);
                let mut i: usize = 0;
                let ghost mv = match self@ {
                    JsonView::Object(mv) => mv,
                    _ => Seq::empty(),
                };
                assert(mv.len() == m@.len());
                while i < m.len()
                    invariant
                        i <= m@.len(),
                        mv.len() == m@.len(),
                        self@ == JsonView::Object(mv),
                        forall|t: int| 0 <= t < m@.len() ==> #[trigger] mv[t] == (m@[t].0@, m@[t].1@),
                        k@ == key@,
                        member_from(mv, key@, 0) == member_from(mv, key@, i as int),
                    decreases m@.len() - i,
                {
                    let ks = chars_of(m[i].0.as_str());
                    if chars_eq(&ks, &k) {
                        assert(mv[i as int] == (m@[i as int].0@, m@[i as int].1@));
                        return Some(&m[i].1);
                    }
                    i += 1;
                }
                None
            },
            _ => None,
        }
    }

    /// The text of a string value.
    pub fn as_str(&self) -> (r: Option<&String>)
        ensures
            r matches Some(s) ==> self@ == JsonView::Str(s@),
            r is None ==> !(self@ is Str),
    {
        match self {
            Json::Str(s) => Some(s),
            _ => None,
        }
    }

    /// The elements of an array value.
    pub fn as_array(&self) -> (r: Option<&Vec<Json>>)
        ensures
            r matches Some(a) ==> self@ is Array && a@.len() == self@->Array_0.len() && forall|i: int|
                0 <= i < a@.len() ==> #[trigger] a@[i]@ == self@->Array_0[i],
            r is None ==> !(self@ is Array),
    {
        match self {
            Json::Array(a) => Some(a),
            _ => None,
        }
    }
}

/// A string member, or the empty text.
pub open spec fn text_or_empty(v: Option<Seq<char>>) -> Seq<char> {
    match v {
        Some(s) => s,
        None => Seq::empty(),
    }
}

/// A string member, trimmed; empty when absent or not a string.
pub open spec fn text_member(v: JsonView, key: Seq<char>) -> Seq<char> {
    trim(text_or_empty(str_of(member(v, key))))
}

/// The trimmed text of a string member (empty when absent).
pub fn text_member_of(v: &Json, key: &str) -> (r: Vec<char>)
    ensures
        r@ == text_member(v@, key@),
{
    match v.get(key) {
        Some(x) => match x.as_str() {
            Some(s) => trim_chars(&chars_of(s.as_str())),
            None => Vec::new(),
        },
        None => Vec::new(),
    }
}

/// The value of a text of decimal digits.
pub open spec fn digits_value(s: Seq<char>) -> nat
    decreases s.len(),
{
    if s.len() == 0 {
        0
    } else {
        10 * digits_value(s.drop_last()) + (s.last() as nat - '0' as nat) as nat
    }
}

/// Every character is an ASCII digit.
pub open spec fn all_digits(s: Seq<char>) -> bool {
    forall|i: int| 0 <= i < s.len() ==> '0' <= #[trigger] s[i] <= '9'
}

/// The value of a non-empty text of digits, when it fits `u64`.
pub open spec fn digits_u64(t: Seq<char>) -> Option<u64> {
    if t.len() > 0 && all_digits(t) && digits_value(t) <= u64::MAX {
        Some(digits_value(t) as u64)
    } else {
        None
    }
}

/// The unsigned integer a value denotes (`Value::as_u64`): a number written
/// with digits only, within `u64`.
pub open spec fn u64_of(v: JsonView) -> Option<u64> {
    match v {
        JsonView::Number(t) => digits_u64(t),
        _ => None,
    }
}

/// The signed integer a value denotes (`Value::as_i64`): a number written with
/// digits only, or `-` and digits, within `i64`.
pub open spec fn i64_of(v: JsonView) -> Option<i64> {
    match v {
        JsonView::Number(t) => if t.len() > 0 && t[0] == '-' {
            match digits_u64(t.skip(1)) {
                Some(d) => if d <= 0x8000_0000_0000_0000u64 {
                    Some((-(d as int)) as i64)
                } else {
                    None
                },
                None => None,
            }
        } else {
            match digits_u64(t) {
                Some(d) => if d <= i64::MAX {
                    Some(d as i64)
                } else {
                    None
                },
                None => None,
            }
        },
        _ => None,
    }
}

/// The value of the digits `c[lo..]`, when they are all digits, at least one,
/// and fit `u64`.
fn parse_digits(c: &[char], lo: usize) -> (r: Option<u64>)
    requires
        lo <= c@.len(),
    ensures
        r == digits_u64(c@.skip(lo as int)),
{
    let ghost s = c@.skip(lo as int);
    if lo == c.len() {
        return None;
    }
    let mut v: u128 = 0;
    let mut big = false;
    let mut i: usize = lo;
    while i < c.len()
        invariant
            lo <= i <= c@.len(),
            s == c@.skip(lo as int),
            all_digits(s.take(i - lo)),
            !big ==> v == digits_value(s.take(i - lo)) && v <= u64::MAX,
            big ==> digits_value(s.take(i - lo)) > u64::MAX,
        decreases c@.len() - i,
    {
        let ch = c[i];
        proof {
            assert(s.take(i - lo + 1).drop_last() =~= s.take(i - lo));
            assert(s.take(i - lo + 1).last() == ch);
        }
        if !('0' <= ch && ch <= '9') {
            assert(s[i - lo] == ch);
            assert(!all_digits(s));
            return None;
        }
        assert(all_digits(s.take(i - lo + 1))) by {
            assert forall|k: int| 0 <= k < i - lo + 1 implies '0' <= #[trigger] s.take(i - lo + 1)[k] <= '9' by {
                if k < i - lo {
                    assert(s.take(i - lo + 1)[k] == s.take(i - lo)[k]);
                }
            }
        }
        let d = (ch as u32 - '0' as u32) as u128;
        if !big {
            v = v * 10 + d;
            if v > u64::MAX as u128 {
                big = true;
            }
        }
        i += 1;
    }
    assert(s.take(s.len() as int) =~= s);
    if big {
        None
    } else {
        Some(v as u64)
    }
}

impl Json {
    /// The value of a non-negative integer number within `u64`.
    pub fn as_u64(&self) -> (r: Option<u64>)
        ensures
            r == u64_of(self@),
    {
        match self {
            Json::Number(text) => {
                assert(self@ == JsonView::Number(text@));
                let c = chars_of(text.as_str());
                assert(c@.skip(0) =~= c@);
                parse_digits(&c, 0)
            },
            _ => None,
        }
    }

    /// The value of an integer number within `i64`.
    pub fn as_i64(&self) -> (r: Option<i64>)
        ensures
            r == i64_of(self@),
    {
        match self {
            Json::Number(text) => {
                assert(self@ == JsonView::Number(text@));
                let c = chars_of(text.as_str());
                if c.len() > 0 && c[0] == '-' {
                    match parse_digits(&c, 1) {
                        Some(d) => if d < 0x8000_0000_0000_0000u64 {
                            Some(-(d as i64))
                        } else if d == 0x8000_0000_0000_0000u64 {
                            Some(i64::MIN)
                        } else {
                            None
                        },
                        None => None,
                    }
                } else {
                    assert(c@.skip(0) =~= c@);
                    match parse_digits(&c, 0) {
                        Some(d) => if d <= i64::MAX as u64 {
                            Some(d as i64)
                        } else {
                            None
                        },
                        None => None,
                    }
                }
            },
            _ => None,
        }
    }
}

/// Replacing the value of the first member with a key changes what that key
/// finds and nothing else.
proof fn lemma_member_from_update(
    m: Seq<(Seq<char>, JsonView)>,
    i: int,
    key: Seq<char>,
    v: JsonView,
    k: Seq<char>,
    j: int,
)
    requires
        0 <= i < m.len(),
        m[i].0 == key,
        forall|t: int| 0 <= t < i ==> m[t].0 != key,
        0 <= j,
    ensures
        member_from(m.update(i, (key, v)), k, j) == if k == key && j <= i {
            Some(v)
        } else {
            member_from(m, k, j)
        },
    decreases m.len() - j,
{
    if j < m.len() {
        lemma_member_from_update(m, i, key, v, k, j + 1);
    }
}

/// Past the inserted position, the object with an inserted member finds what
/// the object without it finds one position earlier.
proof fn lemma_member_from_shift(m: Seq<(Seq<char>, JsonView)>, p: int, e: (Seq<char>, JsonView), k: Seq<char>, j: int)
    requires
        0 <= p <= j,
        p <= m.len(),
    ensures
        member_from(m.insert(p, e), k, j + 1) == member_from(m, k, j),
    decreases m.len() - j,
{
    if j < m.len() {
        lemma_member_from_shift(m, p, e, k, j + 1);
    }
}

/// Inserting a member with a new key makes that key find it and changes
/// nothing else.
proof fn lemma_member_from_insert(
    m: Seq<(Seq<char>, JsonView)>,
    p: int,
    key: Seq<char>,
    v: JsonView,
    k: Seq<char>,
    j: int,
)
    requires
        0 <= j <= p <= m.len(),
        forall|t: int| 0 <= t < m.len() ==> m[t].0 != key,
    ensures
        member_from(m.insert(p, (key, v)), k, j) == if k == key {
            Some(v)
        } else {
            member_from(m, k, j)
        },
    decreases p - j,
{
    if j < p {
        lemma_member_from_insert(m, p, key, v, k, j + 1);
    } else {
        lemma_member_from_shift(m, p, (key, v), k, j);
    }
}

impl Json {
    /// Sets member `key` of an object to `val` (`Map::insert`): the value of an
    /// existing member is replaced, a new member goes before the first key that
    /// sorts after it.  Any other value is returned as it is.
    pub fn insert_member(self, key: &str, val: Json) -> (r: Json)
        ensures
            self@ is Object ==> r@ is Object && member(r@, key@) == Some(val@) && forall|k: Seq<char>|
                k != key@ ==> #[trigger] member(r@, k) == member(self@, k),
            !(self@ is Object) ==> r@ == self@,
    {
        let ghost sv = self@;
        match self {
            Json::Object(mut m) => {
                let ghost mv = match self@ {
                    JsonView::Object(x) => x,
                    _ => Seq::empty(),
                };
                let ghost vv = val@;
                assert(forall|t: int| 0 <= t < m@.len() ==> #[trigger] mv[t] == (m@[t].0@, m@[t].1@));
                let k = chars_of(key);
                let mut i: usize = 0;
                while i < m.len()
                    invariant
                        i <= m@.len(),
                        mv.len() == m@.len(),
                        forall|t: int| 0 <= t < m@.len() ==> #[trigger] mv[t] == (m@[t].0@, m@[t].1@),
                        forall|t: int| 0 <= t < i ==> mv[t].0 != key@,
                        k@ == key@,
                        vv == val@,
                        sv == JsonView::Object(mv),
                        sv == self@,
                    decreases m@.len() - i,
                {
                    let ks = chars_of(m[i].0.as_str());
                    if chars_eq(&ks, &k) {
                        let ghost old_m = m@;
                        m.set(i, (owned(key), val));
                        let r = Json::Object(m);
                        proof {
                            let rv = match r@ {
                                JsonView::Object(x) => x,
                                _ => Seq::empty(),
                            };
                            assert(rv =~= mv.update(i as int, (key@, vv)));
                            assert forall|kk: Seq<char>| kk != key@ implies #[trigger] member(r@, kk) == member(
                                sv,
                                kk,
                            ) by {
                                lemma_member_from_update(mv, i as int, key@, vv, kk, 0);
                            }
                            lemma_member_from_update(mv, i as int, key@, vv, key@, 0);
                        }
                        return r;
                    }
                    i += 1;
                }
                let mut p: usize = 0;
                while p < m.len() && !text_less(&k, &chars_of(m[p].0.as_str()))
                    invariant
                        p <= m@.len(),
                    decreases m@.len() - p,
                {
                    p += 1;
                }
                m.insert(p, (owned(key), val));
                let r = Json::Object(m);
                proof {
                    let rv = match r@ {
                        JsonView::Object(x) => x,
                        _ => Seq::empty(),
                    };
                    assert(rv =~= mv.insert(p as int, (key@, vv)));
                    assert forall|kk: Seq<char>| kk != key@ implies #[trigger] member(r@, kk) == member(sv, kk) by {
                        lemma_member_from_insert(mv, p as int, key@, vv, kk, 0);
                    }
                    lemma_member_from_insert(mv, p as int, key@, vv, key@, 0);
                }
                r
            },
            other => other,
        }
    }
}

/// The model of an array is the models of its items.
pub proof fn lemma_array_view(a: Vec<Json>)
    ensures
        Json::Array(a)@ == JsonView::Array(a@.map_values(|x: Json| x@)),
{
    assert(Json::Array(a)@->Array_0 =~= a@.map_values(|x: Json| x@));
}

/// The model of an object is the keys and models of its members.
pub proof fn lemma_object_view(m: Vec<(String, Json)>)
    ensures
        Json::Object(m)@ == JsonView::Object(m@.map_values(|e: (String, Json)| (e.0@, e.1@))),
{
    assert(Json::Object(m)@->Object_0 =~= m@.map_values(|e: (String, Json)| (e.0@, e.1@)));
}

impl Json {
    /// Takes member `key` out of an object (`None` when absent or not an object).
    pub fn into_member(self, key: &str) -> (r: Option<Json>)
        ensures
            r matches Some(x) ==> member(self@, key@) == Some(x@),
            r is None ==> member(self@, key@) is None,
    {
        let ghost sv = self@;
        match self {
            Json::Object(mut m) => {
                let ghost mv = sv->Object_0;
                assert(forall|t: int| 0 <= t < m@.len() ==> #[trigger] mv[t] == (m@[t].0@, m@[t].1@));
                let k = chars_of(key);
                let mut i: usize = 0;
                while i < m.len()
                    invariant
                        i <= m@.len(),
                        mv.len() == m@.len(),
                        forall|t: int| 0 <= t < m@.len() ==> #[trigger] mv[t] == (m@[t].0@, m@[t].1@),
                        k@ == key@,
                        sv == JsonView::Object(mv),
                        sv == self@,
                        member_from(mv, key@, 0) == member_from(mv, key@, i as int),
                    decreases m@.len() - i,
                {
                    let ks = chars_of(m[i].0.as_str());
                    if chars_eq(&ks, &k) {
                        let e = m.remove(i);
                        return Some(e.1);
                    }
                    i += 1;
                }
                None
            },
            _ => None,
        }
    }
}

} // verus!
