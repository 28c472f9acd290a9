//! JSON values and what the rest of the crate reads out of them.

use vstd::prelude::*;
use crate::text;
use crate::units;
use crate::units::{read_number, read_pico, read_reading, Qty, Reading};

verus! {

/// A JSON value. A number keeps its text; an object keeps its fields in order.
#[derive(Debug)]
pub enum Json {
    Null,
    Bool(bool),
    Number(String),
    Text(String),
    List(Vec<Json>),
    Fields(Vec<(String, Json)>),
}

/// A parsed document of the crate that reads JSON.
#[verifier::external_type_specification]
#[verifier::external_body]
pub struct ExValue(serde_json::Value);

/// What `serde_json::from_str` reads a text as; what it says of one that is no JSON.
pub uninterp spec fn parsed(text: Seq<char>) -> Result<serde_json::Value, Seq<char>>;

/// The same document as a value of this crate.
pub uninterp spec fn held(v: serde_json::Value) -> Json;

/// `serde_json::from_str` at the type of all documents. The result is a function of
/// the text alone; which document a text is, and what is said of one that is none,
/// stays with that crate.
#[verifier::external_body]
fn parse(s: &str) -> (r: Result<serde_json::Value, String>)
    ensures
        match parsed(s@) {
            Ok(v) => r == Ok::<serde_json::Value, String>(v),
            Err(e) => r matches Err(f) && f@ == e,
        },
{
    match serde_json::from_str::<serde_json::Value>(s) {
        Ok(v) => Ok(v),
        Err(e) => Err(e.to_string()),
    }
}

/// The variants of `serde_json::Value`, one by one: a number becomes the text that
/// its `to_string` gives, an array a list and an object its fields in their order.
#[verifier::external_body]
fn hold(v: serde_json::Value) -> (r: Json)
    ensures
        r == held(v),
{
    match v {
        serde_json::Value::Null => Json::Null,
        serde_json::Value::Bool(b) => Json::Bool(b),
        serde_json::Value::Number(n) => Json::Number(n.to_string()),
        serde_json::Value::String(s) => Json::Text(s),
        serde_json::Value::Array(a) => Json::List(a.into_iter().map(hold).collect()),
        serde_json::Value::Object(m) => Json::Fields(
            m.into_iter().map(|e| (e.0, hold(e.1))).collect(),
        ),
    }
}

/// What a text says as JSON; nothing where it is no JSON.
pub open spec fn document(s: Seq<char>) -> Option<Json> {
    match parsed(s) {
        Ok(v) => Some(held(v)),
        Err(_) => None,
    }
}

/// Reads a JSON text.
pub fn read_json(s: &str) -> (r: Option<Json>)
    ensures
        r == document(s@),
{
    match parse(s) {
        Ok(v) => Some(hold(v)),
        Err(_) => None,
    }
}

/// Reads a JSON text, or says why it is none.
pub fn try_json(s: &str) -> (r: Result<Json, String>)
    ensures
        match parsed(s@) {
            Ok(v) => r matches Ok(j) && j == held(v),
            Err(e) => r matches Err(f) && f@ == e,
        },
{
    match parse(s) {
        Ok(v) => Ok(hold(v)),
        Err(e) => Err(e),
    }
}

/// The first field of that name.
pub open spec fn lookup(fields: Seq<(String, Json)>, name: Seq<char>) -> Option<Json>
    decreases fields.len(),
{
    if fields.len() == 0 {
        None
    } else if fields[0].0@ == name {
        Some(fields[0].1)
    } else {
        lookup(fields.skip(1), name)
    }
}

/// The field of that name of an object; nothing where there is none, or no object.
pub open spec fn field(j: Json, name: Seq<char>) -> Option<Json> {
    match j {
        Json::Fields(v) => lookup(v@, name),
        _ => None,
    }
}

/// A part of a record: the field of that name of an object, or what stands at that place
/// of a list.
pub open spec fn part(j: Json, place: int, name: Seq<char>) -> Option<Json> {
    match j {
        Json::List(v) => if place < v@.len() {
            Some(v@[place])
        } else {
            None
        },
        _ => field(j, name),
    }
}

/// Whether a record has no more parts than these; an object may have fields that are not
/// read.
pub open spec fn fits(j: Json, parts: int) -> bool {
    match j {
        Json::List(v) => v@.len() <= parts,
        _ => true,
    }
}

/// The field at the first place with that name is the one that is found.
pub proof fn lookup_at(f: Seq<(String, Json)>, name: Seq<char>, k: int)
    requires
        0 <= k < f.len(),
        f[k].0@ == name,
        forall|j: int| 0 <= j < k ==> (#[trigger] f[j]).0@ != name,
    ensures
        lookup(f, name) == Some(f[k].1),
    decreases f.len(),
{
    if k > 0 {
        assert(f[0].0@ != name);
        let rest = f.skip(1);
        assert forall|j: int| 0 <= j < k - 1 implies (#[trigger] rest[j]).0@ != name by {
            assert(rest[j] == f[j + 1]);
        }
        lookup_at(rest, name, k - 1);
    }
}

/// Where no field has that name, none is found.
pub proof fn lookup_none(f: Seq<(String, Json)>, name: Seq<char>)
    requires
        forall|j: int| 0 <= j < f.len() ==> (#[trigger] f[j]).0@ != name,
    ensures
        lookup(f, name) is None,
    decreases f.len(),
{
    if f.len() > 0 {
        assert(f[0].0@ != name);
        let rest = f.skip(1);
        assert forall|j: int| 0 <= j < rest.len() implies (#[trigger] rest[j]).0@ != name by {
            assert(rest[j] == f[j + 1]);
        }
        lookup_none(rest, name);
    }
}

/// A text value.
pub open spec fn text_in(j: Option<Json>) -> Option<Seq<char>> {
    match j {
        Some(Json::Text(s)) => Some(s@),
        _ => None,
    }
}

/// A list.
pub open spec fn list_in(j: Option<Json>) -> Option<Seq<Json>> {
    match j {
        Some(Json::List(v)) => Some(v@),
        _ => None,
    }
}

/// A number that is written as text, in millionths; nothing where it is not finite.
pub open spec fn quoted_in(j: Option<Json>) -> Option<i64> {
    match j {
        Some(Json::Text(s)) => match units::number(s@) {
            Some(Qty::Finite(v)) => Some(v),
            _ => None,
        },
        _ => None,
    }
}

/// A number that is written as text.
pub open spec fn reading_in(j: Option<Json>) -> Option<Reading<i64>> {
    match j {
        Some(Json::Text(s)) => units::reading(s@),
        _ => None,
    }
}

/// A number that is written as text, in millionths, an infinite one held at the end of the
/// range; nothing where it is none.
pub open spec fn bounded_in(j: Option<Json>) -> Option<i64> {
    match reading_in(j) {
        Some(Reading::Finite(v)) => Some(v),
        Some(Reading::Infinite) => Some(i64::MAX),
        Some(Reading::MinusInfinite) => Some(i64::MIN),
        _ => None,
    }
}

/// A truth value.
pub open spec fn bool_in(j: Option<Json>) -> Option<bool> {
    match j {
        Some(Json::Bool(b)) => Some(b),
        _ => None,
    }
}

/// A numeric value, in millionths.
pub open spec fn micros_in(j: Option<Json>) -> Option<i64> {
    match j {
        Some(Json::Number(s)) => match units::number(s@) {
            Some(Qty::Finite(v)) => Some(v),
            _ => None,
        },
        _ => None,
    }
}

/// A numeric value, in units of twelve places.
pub open spec fn picos_in(j: Option<Json>) -> Option<int> {
    match j {
        Some(Json::Number(s)) => match units::pico(s@) {
            Some(Some(v)) => Some(v),
            _ => None,
        },
        _ => None,
    }
}

/// An integer value.
pub open spec fn integer_in(j: Option<Json>) -> Option<int> {
    match j {
        Some(Json::Number(s)) => units::integer(s@),
        _ => None,
    }
}

/// An integer value in the range of `i64`.
pub open spec fn signed_in(j: Option<Json>) -> Option<i64> {
    match integer_in(j) {
        Some(v) => if i64::MIN <= v <= i64::MAX {
            Some(v as i64)
        } else {
            None
        },
        None => None,
    }
}

/// An integer value in the range of `u64`.
pub open spec fn unsigned_in(j: Option<Json>) -> Option<u64> {
    match integer_in(j) {
        Some(v) => if 0 <= v <= u64::MAX {
            Some(v as u64)
        } else {
            None
        },
        None => None,
    }
}

fn as_signed(s: &str) -> (r: Option<i64>)
    ensures
        r == (match units::integer(s@) {
            Some(v) => if i64::MIN <= v <= i64::MAX {
                Some(v as i64)
            } else {
                None
            },
            None => None,
        }),
{
    match units::read_integer(s) {
        Some(v) => if i64::MIN as i128 <= v && v <= i64::MAX as i128 {
            Some(v as i64)
        } else {
            None
        },
        None => None,
    }
}

fn as_unsigned(s: &str) -> (r: Option<u64>)
    ensures
        r == (match units::integer(s@) {
            Some(v) => if 0 <= v <= u64::MAX {
                Some(v as u64)
            } else {
                None
            },
            None => None,
        }),
{
    match units::read_integer(s) {
        Some(v) => if 0 <= v && v <= u64::MAX as i128 {
            Some(v as u64)
        } else {
            None
        },
        None => None,
    }
}

impl Json {
    /// The field of that name.
    pub fn get(&self, name: &str) -> (r: Option<&Json>)
        ensures
            r is Some == field(*self, name@) is Some,
            r matches Some(v) ==> Some(*v) == field(*self, name@),
    {
        match self {
            Json::Fields(v) => {
                assert(v@.skip(0) =~= v@);
                for i in 0..v.len()
                    invariant
                        field(*self, name@) == lookup(v@.skip(i as int), name@),
                {
                    if text::same(v[i].0.as_str(), name) {
                        return Some(&v[i].1);
                    }
                    assert(v@.skip(i as int).skip(1) =~= v@.skip(i + 1));
                }
                None
            },
            _ => None,
        }
    }

    /// A part of a record; see [`part`].
    pub fn part_at(&self, place: usize, name: &str) -> (r: Option<&Json>)
        ensures
            r is Some == part(*self, place as int, name@) is Some,
            r matches Some(v) ==> Some(*v) == part(*self, place as int, name@),
    {
        match self {
            Json::List(v) => if place < v.len() {
                Some(&v[place])
            } else {
                None
            },
            _ => self.get(name),
        }
    }

    /// Whether a record has no more parts than these; see [`fits`].
    pub fn fits_in(&self, parts: usize) -> (r: bool)
        ensures
            r == fits(*self, parts as int),
    {
        match self {
            Json::List(v) => v.len() <= parts,
            _ => true,
        }
    }

    /// The text of a part of a record.
    pub fn text_part(&self, place: usize, name: &str) -> (r: Option<String>)
        ensures
            match text_in(part(*self, place as int, name@)) {
                Some(s) => r matches Some(t) && t@ == s,
                None => r is None,
            },
    {
        match self.part_at(place, name) {
            Some(Json::Text(s)) => Some(s.clone()),
            _ => None,
        }
    }

    /// The amount in millionths of a part of a record.
    pub fn micros_part(&self, place: usize, name: &str) -> (r: Option<i64>)
        ensures
            r == micros_in(part(*self, place as int, name@)),
    {
        match self.part_at(place, name) {
            Some(Json::Number(s)) => match read_number(s.as_str()) {
                Some(Qty::Finite(v)) => Some(v),
                _ => None,
            },
            _ => None,
        }
    }

    /// The integer of a part of a record, in the range of `i64`.
    pub fn signed_part(&self, place: usize, name: &str) -> (r: Option<i64>)
        ensures
            r == signed_in(part(*self, place as int, name@)),
    {
        match self.part_at(place, name) {
            Some(Json::Number(s)) => as_signed(s.as_str()),
            _ => None,
        }
    }

    /// The integer of a part of a record, in the range of `u64`.
    pub fn unsigned_part(&self, place: usize, name: &str) -> (r: Option<u64>)
        ensures
            r == unsigned_in(part(*self, place as int, name@)),
    {
        match self.part_at(place, name) {
            Some(Json::Number(s)) => as_unsigned(s.as_str()),
            _ => None,
        }
    }

    /// The text under a name.
    pub fn text_at(&self, name: &str) -> (r: Option<String>)
        ensures
            match text_in(field(*self, name@)) {
                Some(s) => r matches Some(t) && t@ == s,
                None => r is None,
            },
    {
        match self.get(name) {
            Some(Json::Text(s)) => Some(s.clone()),
            _ => None,
        }
    }

    /// The text under a name, or the empty text.
    pub fn text_or_empty(&self, name: &str) -> (r: String)
        ensures
            r@ == text_or_none(*self, name@),
    {
        match self.get(name) {
            Some(Json::Text(s)) => s.clone(),
            _ => {
                let s = String::new();
                assert(s@ =~= Seq::<char>::empty());
                s
            },
        }
    }

    /// The list under a name.
    pub fn list_at(&self, name: &str) -> (r: Option<&Vec<Json>>)
        ensures
            match list_in(field(*self, name@)) {
                Some(l) => r matches Some(v) && v@ == l,
                None => r is None,
            },
    {
        match self.get(name) {
            Some(Json::List(v)) => Some(v),
            _ => None,
        }
    }

    /// The number that is written as text under a name.
    pub fn quoted_at(&self, name: &str) -> (r: Option<i64>)
        ensures
            r == quoted_in(field(*self, name@)),
    {
        match self.get(name) {
            Some(Json::Text(s)) => match read_number(s.as_str()) {
                Some(Qty::Finite(v)) => Some(v),
                _ => None,
            },
            _ => None,
        }
    }

    /// The number that is written as text under a name; see [`reading_in`].
    pub fn reading_at(&self, name: &str) -> (r: Option<Reading<i64>>)
        ensures
            r == reading_in(field(*self, name@)),
    {
        match self.get(name) {
            Some(Json::Text(s)) => read_reading(s.as_str()),
            _ => None,
        }
    }

    /// The number that is written as text under a name; see [`bounded_in`].
    pub fn bounded_at(&self, name: &str) -> (r: Option<i64>)
        ensures
            r == bounded_in(field(*self, name@)),
    {
        match self.reading_at(name) {
            Some(Reading::Finite(v)) => Some(v),
            Some(Reading::Infinite) => Some(i64::MAX),
            Some(Reading::MinusInfinite) => Some(i64::MIN),
            _ => None,
        }
    }

    /// The truth value under a name.
    pub fn bool_at(&self, name: &str) -> (r: Option<bool>)
        ensures
            r == bool_in(field(*self, name@)),
    {
        match self.get(name) {
            Some(Json::Bool(b)) => Some(*b),
            _ => None,
        }
    }

    /// The amount in millionths under a name.
    pub fn micros_at(&self, name: &str) -> (r: Option<i64>)
        ensures
            r == micros_in(field(*self, name@)),
    {
        match self.get(name) {
            Some(Json::Number(s)) => match read_number(s.as_str()) {
                Some(Qty::Finite(v)) => Some(v),
                _ => None,
            },
            _ => None,
        }
    }

    /// The amount in units of twelve places under a name.
    pub fn picos_at(&self, name: &str) -> (r: Option<i128>)
        ensures
            match picos_in(field(*self, name@)) {
                Some(v) => r matches Some(w) && w == v,
                None => r is None,
            },
    {
        match self.get(name) {
            Some(Json::Number(s)) => match read_pico(s.as_str()) {
                Some(Some(v)) => Some(v),
                _ => None,
            },
            _ => None,
        }
    }

    /// The integer under a name, in the range of `i64`.
    pub fn signed_at(&self, name: &str) -> (r: Option<i64>)
        ensures
            r == signed_in(field(*self, name@)),
    {
        match self.get(name) {
            Some(Json::Number(s)) => as_signed(s.as_str()),
            _ => None,
        }
    }

    /// The integer under a name, in the range of `u64`.
    pub fn unsigned_at(&self, name: &str) -> (r: Option<u64>)
        ensures
            r == unsigned_in(field(*self, name@)),
    {
        match self.get(name) {
            Some(Json::Number(s)) => as_unsigned(s.as_str()),
            _ => None,
        }
    }
}

/// The text under a name, or the empty text.
pub open spec fn text_or_none(j: Json, name: Seq<char>) -> Seq<char> {
    match text_in(field(j, name)) {
        Some(s) => s,
        None => Seq::empty(),
    }
}

/// A JSON value as contracts speak of it.
pub enum JsonView {
    Null,
    Bool(bool),
    Number(Seq<char>),
    Text(Seq<char>),
    List(Seq<JsonView>),
    Fields(Seq<(Seq<char>, JsonView)>),
}

/// What a JSON value says.
pub open spec fn shown(j: Json) -> JsonView
    decreases j,
{
    match j {
        Json::Null => JsonView::Null,
        Json::Bool(b) => JsonView::Bool(b),
        Json::Number(s) => JsonView::Number(s@),
        Json::Text(s) => JsonView::Text(s@),
        Json::List(v) => JsonView::List(shown_list(v@)),
        Json::Fields(f) => JsonView::Fields(shown_fields(f@)),
    }
}

/// What these values say.
pub open spec fn shown_list(v: Seq<Json>) -> Seq<JsonView>
    decreases v,
{
    Seq::new(
        v.len(),
        |i: int|
            if 0 <= i < v.len() {
                shown(v[i])
            } else {
                JsonView::Null
            },
    )
}

/// What these fields say.
pub open spec fn shown_fields(f: Seq<(String, Json)>) -> Seq<(Seq<char>, JsonView)>
    decreases f,
{
    Seq::new(
        f.len(),
        |i: int|
            if 0 <= i < f.len() {
                (f[i].0@, shown(f[i].1))
            } else {
                (Seq::empty(), JsonView::Null)
            },
    )
}

impl View for Json {
    type V = JsonView;

    open spec fn view(&self) -> JsonView {
        shown(*self)
    }
}

/// Adds a value to a list.
pub fn add_item(v: &mut Vec<Json>, j: Json)
    ensures
        shown_list(final(v)@) == shown_list(old(v)@).push(j@),
{
    let ghost before = v@;
    v.push(j);
    assert(shown_list(v@) =~= shown_list(before).push(j@));
}

/// Adds a field to an object.
pub fn put(f: &mut Vec<(String, Json)>, name: &str, j: Json)
    ensures
        shown_fields(final(f)@) == shown_fields(old(f)@).push((name@, j@)),
{
    let ghost before = f@;
    f.push((text::owned(name), j));
    assert(shown_fields(f@) =~= shown_fields(before).push((name@, j@)));
}

/// An object without fields.
pub fn no_fields() -> (r: Vec<(String, Json)>)
    ensures
        shown_fields(r@) == Seq::<(Seq<char>, JsonView)>::empty(),
{
    let r: Vec<(String, Json)> = Vec::new();
    assert(shown_fields(r@) =~= Seq::<(Seq<char>, JsonView)>::empty());
    r
}

/// A list without values.
pub fn no_items() -> (r: Vec<Json>)
    ensures
        shown_list(r@) == Seq::<JsonView>::empty(),
{
    let r: Vec<Json> = Vec::new();
    assert(shown_list(r@) =~= Seq::<JsonView>::empty());
    r
}

/// A count as a number.
pub fn count_json(n: u128) -> (r: Json)
    ensures
        r@ == JsonView::Number(text::dec(n as nat)),
{
    Json::Number(text::dec_u128(n))
}

/// An integer as a number.
pub fn int_json(n: i128) -> (r: Json)
    ensures
        r@ == JsonView::Number(text::dec_int(n as int)),
{
    Json::Number(text::dec_i128(n))
}

/// An amount of `scale` places, rounded to `places`, as a number.
pub fn fixed_json(m: i128, scale: usize, places: usize) -> (r: Json)
    requires
        places <= scale <= 12,
    ensures
        r@ == JsonView::Number(text::fixed(m as int, scale as nat, places as nat)),
{
    Json::Number(text::show(m, scale, places))
}

/// An amount of `scale` places, with no more of them than it needs, as a number.
pub fn plain_json(m: i128, scale: usize) -> (r: Json)
    requires
        scale <= 12,
    ensures
        r@ == JsonView::Number(text::plain(m as int, scale as nat)),
{
    Json::Number(text::show_plain(m, scale))
}

/// A text.
pub fn text_json(s: &str) -> (r: Json)
    ensures
        r@ == JsonView::Text(s@),
{
    Json::Text(text::owned(s))
}

/// These texts as JSON.
pub open spec fn text_list(v: Seq<Seq<char>>) -> Seq<JsonView> {
    v.map_values(|s: Seq<char>| JsonView::Text(s))
}

/// A list of texts.
pub fn texts_json(v: &[String]) -> (r: Json)
    ensures
        r@ == JsonView::List(text_list(text::texts(v@))),
{
    let mut items = no_items();
    let ghost all = text_list(text::texts(v@));
    assert(all.take(0) =~= Seq::<JsonView>::empty());
    for i in 0..v.len()
        invariant
            all == text_list(text::texts(v@)),
            shown_list(items@) == all.take(i as int),
    {
        add_item(&mut items, text_json(v[i].as_str()));
        assert(all.take(i + 1) =~= all.take(i as int).push(all[i as int]));
    }
    assert(all.take(all.len() as int) =~= all);
    Json::List(items)
}

/// What `serde_json::to_string` writes for a text.
pub uninterp spec fn json_quoted(s: Seq<char>) -> Seq<char>;

/// `serde_json::to_string` of a text, which cannot fail: the text in quotes, with its
/// escapes. Which characters are escaped stays with that crate.
#[verifier::external_body]
fn quote_json(s: &str) -> (r: String)
    ensures
        r@ == json_quoted(s@),
{
    serde_json::to_string(s).unwrap()
}

/// A value on one line. A number stands as it was given, so that no digit is lost.
pub open spec fn written(j: JsonView) -> Seq<char>
    decreases j,
{
    match j {
        JsonView::Null => "null"@,
        JsonView::Bool(b) => if b {
            "true"@
        } else {
            "false"@
        },
        JsonView::Number(s) => s,
        JsonView::Text(s) => json_quoted(s),
        JsonView::List(l) => seq!['['] + written_list(l) + seq![']'],
        JsonView::Fields(f) => seq!['{'] + written_fields(f) + seq!['}'],
    }
}

/// These values, with a comma between two.
pub open spec fn written_list(l: Seq<JsonView>) -> Seq<char>
    decreases l,
{
    if l.len() == 0 {
        Seq::empty()
    } else if l.len() == 1 {
        written(l[0])
    } else {
        written_list(l.drop_last()) + seq![','] + written(l.last())
    }
}

/// These fields, with a comma between two and a colon behind each name.
pub open spec fn written_fields(f: Seq<(Seq<char>, JsonView)>) -> Seq<char>
    decreases f,
{
    if f.len() == 0 {
        Seq::empty()
    } else {
        let last = f.last();
        let one = json_quoted(last.0) + seq![':'] + written(last.1);
        if f.len() == 1 {
            one
        } else {
            written_fields(f.drop_last()) + seq![','] + one
        }
    }
}

/// Writes a value on one line; see [`written`].
pub fn line_of(j: &Json) -> (r: String)
    ensures
        r@ == written(j@),
    decreases j,
{
    match j {
        Json::Null => text::owned("null"),
        Json::Bool(b) => if *b {
            text::owned("true")
        } else {
            text::owned("false")
        },
        Json::Number(s) => text::owned(s.as_str()),
        Json::Text(s) => quote_json(s.as_str()),
        Json::List(v) => {
            let ghost all = shown_list(v@);
            let mut r = String::new();
            r.push('[');
            assert(r@ =~= seq!['['] + written_list(all.take(0)));
            for i in 0..v.len()
                invariant
                    j matches Json::List(w) && w == *v,
                    all == shown_list(v@),
                    r@ == seq!['['] + written_list(all.take(i as int)),
            {
                if i > 0 {
                    r.push(',');
                }
                assert(decreases_to!(j => v@[i as int]));
                r.append(line_of(&v[i]).as_str());
                let ghost now = all.take(i + 1);
                assert(now.drop_last() =~= all.take(i as int));
                assert(now.last() == shown(v@[i as int]));
                assert(r@ =~= seq!['['] + written_list(now));
            }
            r.push(']');
            assert(all.take(all.len() as int) =~= all);
            assert(r@ =~= seq!['['] + written_list(all) + seq![']']);
            r
        },
        Json::Fields(f) => {
            let ghost all = shown_fields(f@);
            let mut r = String::new();
            r.push('{');
            assert(r@ =~= seq!['{'] + written_fields(all.take(0)));
            for i in 0..f.len()
                invariant
                    j matches Json::Fields(g) && g == *f,
                    all == shown_fields(f@),
                    r@ == seq!['{'] + written_fields(all.take(i as int)),
            {
                if i > 0 {
                    r.push(',');
                }
                r.append(quote_json(f[i].0.as_str()).as_str());
                r.push(':');
                assert(decreases_to!(j => f@[i as int].1));
                r.append(line_of(&f[i].1).as_str());
                let ghost now = all.take(i + 1);
                assert(now.drop_last() =~= all.take(i as int));
                assert(now.last() == (f@[i as int].0@, shown(f@[i as int].1)));
                assert(r@ =~= seq!['{'] + written_fields(now));
            }
            r.push('}');
            assert(all.take(all.len() as int) =~= all);
            assert(r@ =~= seq!['{'] + written_fields(all) + seq!['}']);
            r
        },
    }
}

} // verus!
