//! Documents as trees of values, as a JSON or TOML parser hands them out,
//! and what the readers of such trees share: looking a field up, the path
//! to a value, and the error that names where a tree is not of the shape
//! asked for.

use vstd::prelude::*;
use vstd::string::*;
use crate::model::texts;

verus! {

/// A value of a document. A list and a table carry, beside their parts,
/// the text that the document's format writes them as.
#[derive(Debug, PartialEq, Eq)]
pub enum Doc {
    Null,
    Bool(bool),
    /// A number, as its decimal text.
    Number(String),
    Text(String),
    /// A date or time, as its text.
    Date(String),
    List { items: Vec<Doc>, text: String },
    Table { fields: Vec<Field>, text: String },
}

/// One entry of a table: a key and the value under it.
#[derive(Debug, PartialEq, Eq)]
pub struct Field {
    pub key: String,
    pub value: Doc,
}

/// A shape that a schema asks a value to have.
#[derive(Clone, Copy, Debug, PartialEq, Eq)]
pub enum Shape {
    Table,
    List,
    Text,
    Bool,
    /// A list whose items are all text.
    TextList,
    /// A boolean, or a table: the two forms of a manager request.
    BoolOrTable,
}

/// Where a document is not of the shape asked for. `at` is the path to the
/// value or table concerned: keys joined by dots, a list item by its
/// number in square brackets; the document itself has the empty path.
#[derive(Clone, Debug, PartialEq, Eq)]
pub enum SchemaError {
    /// The value at `at` is there, but has another shape than `wanted`.
    WrongShape { at: String, wanted: Shape },
    /// The table at `at` lacks the field `field`.
    MissingField { at: String, field: String },
    /// The table at `at` has a field `field` that it may not have.
    UnknownField { at: String, field: String },
}

pub enum SchemaErrorView {
    WrongShape { at: Seq<char>, wanted: Shape },
    MissingField { at: Seq<char>, field: Seq<char> },
    UnknownField { at: Seq<char>, field: Seq<char> },
}

impl View for SchemaError {
    type V = SchemaErrorView;

    open spec fn view(&self) -> SchemaErrorView {
        match self {
            SchemaError::WrongShape { at, wanted } => SchemaErrorView::WrongShape {
                at: at@,
                wanted: *wanted,
            },
            SchemaError::MissingField { at, field } => SchemaErrorView::MissingField {
                at: at@,
                field: field@,
            },
            SchemaError::UnknownField { at, field } => SchemaErrorView::UnknownField {
                at: at@,
                field: field@,
            },
        }
    }
}

/// The words for a shape.
pub open spec fn shape_words(shape: Shape) -> Seq<char> {
    match shape {
        Shape::Table => "a table"@,
        Shape::List => "a list"@,
        Shape::Text => "a string"@,
        Shape::Bool => "a boolean"@,
        Shape::TextList => "a list of strings"@,
        Shape::BoolOrTable => "a boolean or a table"@,
    }
}

/// The words for a path: the path between backquotes, or `the document`
/// for the empty path.
pub open spec fn place_words(at: Seq<char>) -> Seq<char> {
    if at.len() == 0 {
        "the document"@
    } else {
        "`"@ + at + "`"@
    }
}

impl SchemaErrorView {
    /// The message that names the mismatch.
    pub open spec fn message(self) -> Seq<char> {
        match self {
            SchemaErrorView::WrongShape { at, wanted } => "expected "@ + shape_words(wanted)
                + " at "@ + place_words(at),
            SchemaErrorView::MissingField { at, field } => "missing field `"@ + field + "` in "@
                + place_words(at),
            SchemaErrorView::UnknownField { at, field } => "unknown field `"@ + field + "` in "@
                + place_words(at),
        }
    }
}

/// The words for a shape.
pub fn words_for(shape: Shape) -> (r: &'static str)
    ensures
        r@ == shape_words(shape),
{
    match shape {
        Shape::Table => "a table",
        Shape::List => "a list",
        Shape::Text => "a string",
        Shape::Bool => "a boolean",
        Shape::TextList => "a list of strings",
        Shape::BoolOrTable => "a boolean or a table",
    }
}

/// The words for a path.
pub fn words_for_place(at: &str) -> (r: String)
    ensures
        r@ == place_words(at@),
{
    if at.unicode_len() == 0 {
        String::from_str("the document")
    } else {
        let mut r = String::from_str("`");
        r.append(at);
        r.append("`");
        r
    }
}

impl SchemaError {
    /// The message that names the mismatch.
    pub fn message(&self) -> (text: String)
        ensures
            text@ == self@.message(),
    {
        match self {
            SchemaError::WrongShape { at, wanted } => {
                let mut text = String::from_str("expected ");
                text.append(words_for(*wanted));
                text.append(" at ");
                text.append(words_for_place(at.as_str()).as_str());
                text
            },
            SchemaError::MissingField { at, field } => {
                let mut text = String::from_str("missing field `");
                text.append(field.as_str());
                text.append("` in ");
                text.append(words_for_place(at.as_str()).as_str());
                text
            },
            SchemaError::UnknownField { at, field } => {
                let mut text = String::from_str("unknown field `");
                text.append(field.as_str());
                text.append("` in ");
                text.append(words_for_place(at.as_str()).as_str());
                text
            },
        }
    }
}

/// The results found so far, followed by what the rest gives: an error in
/// the rest is the error of the whole.
pub open spec fn followed_by<T>(done: Seq<T>, rest: Result<Seq<T>, SchemaErrorView>) -> Result<
    Seq<T>,
    SchemaErrorView,
> {
    match rest {
        Ok(more) => Ok(done + more),
        Err(e) => Err(e),
    }
}

/// The place of the first field with the key `key`; the number of fields
/// where there is none.
pub open spec fn field_place(fields: Seq<Field>, key: Seq<char>) -> int
    decreases fields.len(),
{
    if fields.len() == 0 {
        0
    } else if fields[0].key@ == key {
        0
    } else {
        1 + field_place(fields.drop_first(), key)
    }
}

/// The place of the first field with the key `key`, or the number of fields.
pub fn find_field(fields: &Vec<Field>, key: &str) -> (place: usize)
    ensures
        place == field_place(fields@, key@),
        place <= fields.len(),
{
    let wanted = key.to_owned();
    let mut i: usize = 0;
    proof {
        assert(fields@.skip(0) == fields@);
    }
    while i < fields.len()
        invariant
            i <= fields.len(),
            wanted@ == key@,
            field_place(fields@, key@) == i + field_place(fields@.skip(i as int), key@),
        decreases fields.len() - i,
    {
        proof {
            assert(fields@.skip(i as int)[0] == fields@[i as int]);
            assert(fields@.skip(i as int).drop_first() == fields@.skip(i + 1));
        }
        if fields[i].key == wanted {
            return i;
        }
        i += 1;
    }
    i
}

/// The path of the field `key` of the table at `at`.
pub open spec fn child_path(at: Seq<char>, key: Seq<char>) -> Seq<char> {
    if at.len() == 0 {
        key
    } else {
        at + "."@ + key
    }
}

/// The path of the field `key` of the table at `at`.
pub fn path_to(at: &str, key: &str) -> (r: String)
    ensures
        r@ == child_path(at@, key@),
{
    if at.unicode_len() == 0 {
        key.to_owned()
    } else {
        let mut r = at.to_owned();
        r.append(".");
        r.append(key);
        r
    }
}

/// The text of a text value; empty for any other value.
pub open spec fn text_of(doc: Doc) -> Seq<char> {
    match doc {
        Doc::Text(t) => t@,
        _ => Seq::empty(),
    }
}

/// The strings of a list of text values; nothing where the value is no
/// list or one of the items is no text.
pub open spec fn text_list(doc: Doc) -> Option<Seq<Seq<char>>> {
    match doc {
        Doc::List { items, .. } => if forall|i: int|
            0 <= i < items@.len() ==> (#[trigger] items@[i]) is Text {
            Some(items@.map_values(|d: Doc| text_of(d)))
        } else {
            None
        },
        _ => None,
    }
}

/// The strings of a list of text values.
pub fn read_text_list(doc: &Doc) -> (r: Option<Vec<String>>)
    ensures
        match r {
            Some(v) => text_list(*doc) == Some(texts(v@)),
            None => text_list(*doc).is_none(),
        },
{
    match doc {
        Doc::List { items, text: _ } => {
            let mut out: Vec<String> = Vec::new();
            let ghost all = items@.map_values(|d: Doc| text_of(d));
            let mut i: usize = 0;
            proof {
                assert(texts(out@) == all.take(0));
            }
            while i < items.len()
                invariant
                    i <= items.len(),
                    *doc is List,
                    doc->items == items,
                    all == items@.map_values(|d: Doc| text_of(d)),
                    forall|k: int| 0 <= k < i ==> (#[trigger] items@[k]) is Text,
                    texts(out@) == all.take(i as int),
                decreases items.len() - i,
            {
                match &items[i] {
                    Doc::Text(t) => {
                        let ghost before = texts(out@);
                        out.push(t.clone());
                        proof {
                            assert(texts(out@) == before.push(t@));
                            assert(all.take(i + 1) == all.take(i as int).push(all[i as int]));
                        }
                    },
                    _ => {
                        proof {
                            assert(!(items@[i as int] is Text));
                        }
                        return None;
                    },
                }
                i += 1;
            }
            proof {
                assert(all.take(items.len() as int) == all);
            }
            Some(out)
        },
        _ => None,
    }
}

/// The list of strings under the key `key` of the table at `at`, which
/// must be there.
pub open spec fn list_field(fields: Seq<Field>, at: Seq<char>, key: Seq<char>) -> Result<
    Seq<Seq<char>>,
    SchemaErrorView,
> {
    if field_place(fields, key) >= fields.len() {
        Err(SchemaErrorView::MissingField { at, field: key })
    } else {
        match text_list(fields[field_place(fields, key)].value) {
            Some(list) => Ok(list),
            None => Err(
                SchemaErrorView::WrongShape { at: child_path(at, key), wanted: Shape::TextList },
            ),
        }
    }
}

/// The list of strings under the key `key` of the table at `at`.
pub fn read_list_field(fields: &Vec<Field>, at: &str, key: &str) -> (r: Result<
    Vec<String>,
    SchemaError,
>)
    ensures
        match r {
            Ok(v) => list_field(fields@, at@, key@) == Ok::<_, SchemaErrorView>(texts(v@)),
            Err(e) => list_field(fields@, at@, key@) == Err::<Seq<Seq<char>>, _>(e@),
        },
{
    let place = find_field(fields, key);
    if place >= fields.len() {
        return Err(SchemaError::MissingField { at: at.to_owned(), field: key.to_owned() });
    }
    match read_text_list(&fields[place].value) {
        Some(list) => Ok(list),
        None => Err(SchemaError::WrongShape { at: path_to(at, key), wanted: Shape::TextList }),
    }
}

/// Nothing, followed by a result, is that result.
pub proof fn lemma_followed_by_nothing<T>(rest: Result<Seq<T>, SchemaErrorView>)
    ensures
        followed_by(Seq::<T>::empty(), rest) == rest,
{
    match rest {
        Ok(more) => {
            assert(Seq::<T>::empty() + more == more);
        },
        Err(_) => {},
    }
}

/// Following `done` by `next` and then by a result is following `done` by
/// what `next` followed by the result gives.
pub proof fn lemma_followed_by_joined<T>(
    done: Seq<T>,
    next: Seq<T>,
    rest: Result<Seq<T>, SchemaErrorView>,
)
    ensures
        followed_by(done, followed_by(next, rest)) == followed_by(done + next, rest),
{
    match rest {
        Ok(more) => {
            assert(done + (next + more) == (done + next) + more);
        },
        Err(_) => {},
    }
}

/// The decimal digit for a number below ten.
pub open spec fn digit_text(d: nat) -> Seq<char> {
    if d == 0 {
        "0"@
    } else if d == 1 {
        "1"@
    } else if d == 2 {
        "2"@
    } else if d == 3 {
        "3"@
    } else if d == 4 {
        "4"@
    } else if d == 5 {
        "5"@
    } else if d == 6 {
        "6"@
    } else if d == 7 {
        "7"@
    } else if d == 8 {
        "8"@
    } else {
        "9"@
    }
}

/// The decimal text of a number, without leading zeros.
pub open spec fn decimal_text(n: nat) -> Seq<char>
    decreases n,
{
    if n < 10 {
        digit_text(n)
    } else {
        decimal_text(n / 10) + digit_text(n % 10)
    }
}

/// The decimal digit for a number below ten; `9` for any other.
pub fn digit(d: usize) -> (r: &'static str)
    ensures
        r@ == digit_text(d as nat),
{
    if d == 0 {
        "0"
    } else if d == 1 {
        "1"
    } else if d == 2 {
        "2"
    } else if d == 3 {
        "3"
    } else if d == 4 {
        "4"
    } else if d == 5 {
        "5"
    } else if d == 6 {
        "6"
    } else if d == 7 {
        "7"
    } else if d == 8 {
        "8"
    } else {
        "9"
    }
}

/// The decimal text of a number.
pub fn decimal(n: usize) -> (r: String)
    ensures
        r@ == decimal_text(n as nat),
    decreases n,
{
    if n < 10 {
        String::from_str(digit(n))
    } else {
        let mut r = decimal(n / 10);
        r.append(digit(n % 10));
        r
    }
}

/// The path of item `i` of the list at `at`.
pub open spec fn item_path(at: Seq<char>, i: nat) -> Seq<char> {
    at + "["@ + decimal_text(i) + "]"@
}

/// The path of item `i` of the list at `at`.
pub fn path_to_item(at: &str, i: usize) -> (r: String)
    ensures
        r@ == item_path(at@, i as nat),
{
    let mut r = at.to_owned();
    r.append("[");
    r.append(decimal(i).as_str());
    r.append("]");
    r
}

/// The string under the key `key` of the table at `at`, which must be there.
pub open spec fn text_field(fields: Seq<Field>, at: Seq<char>, key: Seq<char>) -> Result<
    Seq<char>,
    SchemaErrorView,
> {
    if field_place(fields, key) >= fields.len() {
        Err(SchemaErrorView::MissingField { at, field: key })
    } else {
        match fields[field_place(fields, key)].value {
            Doc::Text(t) => Ok(t@),
            _ => Err(SchemaErrorView::WrongShape { at: child_path(at, key), wanted: Shape::Text }),
        }
    }
}

/// The string under the key `key` of the table at `at`.
pub fn read_text_field(fields: &Vec<Field>, at: &str, key: &str) -> (r: Result<
    String,
    SchemaError,
>)
    ensures
        match r {
            Ok(t) => text_field(fields@, at@, key@) == Ok::<_, SchemaErrorView>(t@),
            Err(e) => text_field(fields@, at@, key@) == Err::<Seq<char>, _>(e@),
        },
{
    let place = find_field(fields, key);
    if place >= fields.len() {
        return Err(SchemaError::MissingField { at: at.to_owned(), field: key.to_owned() });
    }
    match &fields[place].value {
        Doc::Text(t) => Ok(t.clone()),
        _ => Err(SchemaError::WrongShape { at: path_to(at, key), wanted: Shape::Text }),
    }
}

/// No two fields of a table share a key.
pub open spec fn distinct_keys(fields: Seq<Field>) -> bool {
    forall|i: int, j: int| 0 <= i < j < fields.len() ==> fields[i].key@ != fields[j].key@
}

/// The fields of the table that a value is; none for a value that is no table.
pub open spec fn fields_of(doc: Doc) -> Seq<Field> {
    match doc {
        Doc::Table { fields, .. } => fields@,
        _ => Seq::empty(),
    }
}

} // verus!
