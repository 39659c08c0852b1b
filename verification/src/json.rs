//! JSON values: an owned tree, its compact text, and reading text back.
//!
//! An object keeps its members in the order they were added, which is the
//! order they are written in. [`JsonTree`] is the view of a [`Json`] and keeps
//! that order; [`JsonValue`] is what a tree means to a reader, for whom an
//! object is a map from keys to values.

use serde_json::Value;
use vstd::prelude::*;

use crate::text::{
    decimal, decimal_text, is_digit, is_one_line, law_decimal_reads_back, same_text,
};

verus! {

/// A JSON number: an integer, or any other numeral as it is printed.
#[derive(Debug, PartialEq, Eq)]
pub enum Number {
    /// An integer that is not negative.
    Unsigned(u64),
    /// A negative integer.
    Negative(i64),
    /// A numeral that is not an integer of these ranges, as it is printed.
    Other(String),
}

/// A JSON value.
#[derive(Debug, PartialEq, Eq)]
pub enum Json {
    /// `null`.
    Null,
    /// `true` or `false`.
    Bool(bool),
    /// A number.
    Number(Number),
    /// A string.
    Text(String),
    /// An array.
    List(Vec<Json>),
    /// An object, its members in writing order.
    Object(Vec<(String, Json)>),
}

/// The view of a [`Number`].
pub enum NumberTree {
    Unsigned(u64),
    Negative(i64),
    Other(Seq<char>),
}

/// The view of a [`Json`].
pub enum JsonTree {
    Null,
    Bool(bool),
    Number(NumberTree),
    Text(Seq<char>),
    List(Seq<JsonTree>),
    Object(Seq<(Seq<char>, JsonTree)>),
}

/// What a JSON text means: objects are maps, their members have no order.
pub enum JsonValue {
    Null,
    Bool(bool),
    Number(NumberTree),
    Text(Seq<char>),
    List(Seq<JsonValue>),
    Object(Map<Seq<char>, JsonValue>),
}

impl View for Number {
    type V = NumberTree;

    open spec fn view(&self) -> NumberTree {
        match *self {
            Number::Unsigned(n) => NumberTree::Unsigned(n),
            Number::Negative(n) => NumberTree::Negative(n),
            Number::Other(t) => NumberTree::Other(t@),
        }
    }
}

/// The view of `j`.
pub open spec fn tree(j: Json) -> JsonTree
    decreases j,
{
    match j {
        Json::Null => JsonTree::Null,
        Json::Bool(b) => JsonTree::Bool(b),
        Json::Number(n) => JsonTree::Number(n@),
        Json::Text(t) => JsonTree::Text(t@),
        Json::List(items) => JsonTree::List(
            Seq::new(
                items@.len(),
                |i: int|
                    if 0 <= i < items@.len() {
                        tree(items@[i])
                    } else {
                        JsonTree::Null
                    },
            ),
        ),
        Json::Object(members) => JsonTree::Object(
            Seq::new(
                members@.len(),
                |i: int|
                    if 0 <= i < members@.len() {
                        (members@[i].0@, tree(members@[i].1))
                    } else {
                        (seq![], JsonTree::Null)
                    },
            ),
        ),
    }
}

impl View for Json {
    type V = JsonTree;

    open spec fn view(&self) -> JsonTree {
        tree(*self)
    }
}

/// The trees of `items`, in order.
pub open spec fn trees(items: Seq<Json>) -> Seq<JsonTree> {
    Seq::new(items.len(), |i: int| tree(items[i]))
}

/// The keys and trees of `members`, in order.
pub open spec fn member_trees(members: Seq<(String, Json)>) -> Seq<(Seq<char>, JsonTree)> {
    Seq::new(members.len(), |i: int| (members[i].0@, tree(members[i].1)))
}

/// The view of a list is the list of its items' views.
pub proof fn lemma_list_tree(items: Vec<Json>)
    ensures
        tree(Json::List(items)) == JsonTree::List(trees(items@)),
{
    assert(tree(Json::List(items))->List_0 =~= trees(items@));
}

/// The view of an object is the sequence of its members' views.
pub proof fn lemma_object_tree(members: Vec<(String, Json)>)
    ensures
        tree(Json::Object(members)) == JsonTree::Object(member_trees(members@)),
{
    assert(tree(Json::Object(members))->Object_0 =~= member_trees(members@));
}

proof fn lemma_item_decreases(j: Json, i: int)
    requires
        j is List,
        0 <= i < j->List_0@.len(),
    ensures
        decreases_to!(j => j->List_0@[i]),
{
    assert(decreases_to!(j => j->List_0));
    assert(decreases_to!(j->List_0 => j->List_0@));
    assert(decreases_to!(j->List_0@ => j->List_0@[i]));
}

proof fn lemma_member_decreases(j: Json, i: int)
    requires
        j is Object,
        0 <= i < j->Object_0@.len(),
    ensures
        decreases_to!(j => j->Object_0@[i].1),
{
    assert(decreases_to!(j => j->Object_0));
    assert(decreases_to!(j->Object_0 => j->Object_0@));
    assert(decreases_to!(j->Object_0@ => j->Object_0@[i]));
    assert(decreases_to!(j->Object_0@[i] => j->Object_0@[i].1));
}

impl Clone for Number {
    fn clone(&self) -> (copy: Self)
        ensures
            copy@ == self@,
    {
        match self {
            Number::Unsigned(n) => Number::Unsigned(*n),
            Number::Negative(n) => Number::Negative(*n),
            Number::Other(t) => Number::Other(t.clone()),
        }
    }
}

impl Clone for Json {
    fn clone(&self) -> (copy: Self)
        ensures
            copy@ == self@,
        decreases self,
    {
        match self {
            Json::Null => Json::Null,
            Json::Bool(b) => Json::Bool(*b),
            Json::Number(n) => Json::Number(n.clone()),
            Json::Text(t) => Json::Text(t.clone()),
            Json::List(items) => {
                let mut copies: Vec<Json> = Vec::new();
                let mut i: usize = 0;
                while i < items.len()
                    invariant
                        i <= items.len(),
                        copies@.len() == i,
                        *self == Json::List(*items),
                        forall|k: int| 0 <= k < i ==> (#[trigger] copies@[k])@ == items@[k]@,
                    decreases items.len() - i,
                {
                    proof {
                        lemma_item_decreases(*self, i as int);
                    }
                    copies.push(items[i].clone());
                    i = i + 1;
                }
                proof {
                    lemma_list_tree(*items);
                    lemma_list_tree(copies);
                    assert(trees(copies@) =~= trees(items@));
                }
                Json::List(copies)
            },
            Json::Object(members) => {
                let mut copies: Vec<(String, Json)> = Vec::new();
                let mut i: usize = 0;
                while i < members.len()
                    invariant
                        i <= members.len(),
                        copies@.len() == i,
                        *self == Json::Object(*members),
                        forall|k: int|
                            0 <= k < i ==> (#[trigger] copies@[k]).0@ == members@[k].0@
                                && copies@[k].1@ == members@[k].1@,
                    decreases members.len() - i,
                {
                    proof {
                        lemma_member_decreases(*self, i as int);
                    }
                    copies.push((members[i].0.clone(), members[i].1.clone()));
                    i = i + 1;
                }
                proof {
                    lemma_object_tree(*members);
                    lemma_object_tree(copies);
                    assert(member_trees(copies@) =~= member_trees(members@));
                }
                Json::Object(copies)
            },
        }
    }
}

/// The lower-case hexadecimal digit for `d`.
pub open spec fn hex_digit(d: nat) -> char {
    if d < 10 {
        (0x30 + d) as char
    } else {
        (0x57 + d) as char
    }
}

/// How `c` stands in a JSON string literal: the quotation mark, the backslash and
/// the control characters as escapes, anything else as it is.
pub open spec fn escaped(c: char) -> Seq<char> {
    let code = c as nat;
    if c == '"' || c == '\\' {
        seq!['\\', c]
    } else if code == 0x08 {
        seq!['\\', 'b']
    } else if code == 0x09 {
        seq!['\\', 't']
    } else if code == 0x0a {
        seq!['\\', 'n']
    } else if code == 0x0c {
        seq!['\\', 'f']
    } else if code == 0x0d {
        seq!['\\', 'r']
    } else if code < 0x20 {
        seq!['\\', 'u', '0', '0', hex_digit(code / 16), hex_digit(code % 16)]
    } else {
        seq![c]
    }
}

/// The characters of `s` as they stand in a JSON string literal.
pub open spec fn escaped_text(s: Seq<char>) -> Seq<char>
    decreases s.len(),
{
    if s.len() == 0 {
        seq![]
    } else {
        escaped_text(s.drop_last()) + escaped(s.last())
    }
}

/// The JSON string literal for `s`, quotation marks included.
pub open spec fn quoted(s: Seq<char>) -> Seq<char> {
    seq!['"'] + escaped_text(s) + seq!['"']
}

/// A string literal is one line: the line feed stands in it as an escape.
proof fn lemma_quoted_is_one_line(s: Seq<char>)
    ensures
        is_one_line(quoted(s)),
{
    lemma_escaped_is_one_line(s);
}

proof fn lemma_escaped_is_one_line(s: Seq<char>)
    ensures
        is_one_line(escaped_text(s)),
    decreases s.len(),
{
    if s.len() > 0 {
        lemma_escaped_is_one_line(s.drop_last());
        let c = s.last();
        let code = c as nat;
        if code < 0x20 {
            let (high, low) = (code / 16, code % 16);
            assert(hex_digit(high) as nat >= 0x30);
            assert(hex_digit(low) as nat >= 0x30);
        }
        assert(is_one_line(escaped(c)));
    }
}

/// `serde_json::to_string` on a string slice: the JSON string literal for `s`,
/// with the escapes that [`escaped`] says. Serialising a string slice has no
/// failure to report.
#[verifier::external_body]
fn quote(s: &str) -> (literal: String)
    ensures
        literal@ == quoted(s@),
{
    serde_json::to_string(s).unwrap_or_default()
}

/// The numeral for `n`.
pub open spec fn number_text(n: NumberTree) -> Seq<char> {
    match n {
        NumberTree::Unsigned(n) => decimal(n as nat),
        NumberTree::Negative(n) => if n < 0 {
            seq!['-'] + decimal((-n) as nat)
        } else {
            decimal(n as nat)
        },
        NumberTree::Other(t) => t,
    }
}

/// The compact text of `t`: no white space between tokens, object members in
/// order.
pub open spec fn json_text(t: JsonTree) -> Seq<char>
    decreases t, 0nat,
{
    match t {
        JsonTree::Null => "null"@,
        JsonTree::Bool(true) => "true"@,
        JsonTree::Bool(false) => "false"@,
        JsonTree::Number(n) => number_text(n),
        JsonTree::Text(s) => quoted(s),
        JsonTree::List(items) => seq!['['] + items_text(items, items.len()) + seq![']'],
        JsonTree::Object(members) => seq!['{'] + members_text(members, members.len()) + seq!['}'],
    }
}

/// The texts of the first `n` of `items`, separated by commas.
pub open spec fn items_text(items: Seq<JsonTree>, n: nat) -> Seq<char>
    decreases items, n,
{
    if n == 0 || n > items.len() {
        seq![]
    } else if n == 1 {
        json_text(items[0])
    } else {
        items_text(items, (n - 1) as nat) + seq![','] + json_text(items[n - 1])
    }
}

/// The first `n` of `members` as `key:value`, separated by commas.
pub open spec fn members_text(members: Seq<(Seq<char>, JsonTree)>, n: nat) -> Seq<char>
    decreases members, n,
{
    if n == 0 || n > members.len() {
        seq![]
    } else {
        let member = quoted(members[n - 1].0) + seq![':'] + json_text(members[n - 1].1);
        if n == 1 {
            member
        } else {
            members_text(members, (n - 1) as nat) + seq![','] + member
        }
    }
}

/// The numeral for `n`.
fn print_number(n: &Number) -> (text: String)
    ensures
        text@ == number_text(n@),
{
    match n {
        Number::Unsigned(n) => decimal_text(*n),
        Number::Negative(n) => {
            if *n < 0 {
                let magnitude: u64 = if *n == i64::MIN {
                    9_223_372_036_854_775_808
                } else {
                    (-*n) as u64
                };
                let mut text = String::new();
                text.push('-');
                text.append(decimal_text(magnitude).as_str());
                assert(text@ == seq!['-'] + decimal((-*n) as nat));
                text
            } else {
                decimal_text(*n as u64)
            }
        },
        Number::Other(t) => t.clone(),
    }
}

impl Json {
    /// The compact text of this value.
    pub fn to_text(&self) -> (text: String)
        ensures
            text@ == json_text(self@),
        decreases self,
    {
        match self {
            Json::Null => "null".to_owned(),
            Json::Bool(b) => {
                if *b {
                    "true".to_owned()
                } else {
                    "false".to_owned()
                }
            },
            Json::Number(n) => print_number(n),
            Json::Text(t) => quote(t.as_str()),
            Json::List(items) => {
                let mut text = String::new();
                let ghost ts = trees(items@);
                proof {
                    lemma_list_tree(*items);
                }
                text.push('[');
                let mut i: usize = 0;
                while i < items.len()
                    invariant
                        i <= items.len(),
                        *self == Json::List(*items),
                        ts == trees(items@),
                        text@ == seq!['['] + items_text(ts, i as nat),
                        self@ == JsonTree::List(ts),
                    decreases items.len() - i,
                {
                    if i > 0 {
                        text.push(',');
                    }
                    proof {
                        lemma_item_decreases(*self, i as int);
                    }
                    let item = items[i].to_text();
                    text.append(item.as_str());
                    assert(text@ == seq!['['] + items_text(ts, (i + 1) as nat));
                    i = i + 1;
                }
                text.push(']');
                text
            },
            Json::Object(members) => {
                let mut text = String::new();
                let ghost ms = member_trees(members@);
                proof {
                    lemma_object_tree(*members);
                }
                text.push('{');
                let mut i: usize = 0;
                while i < members.len()
                    invariant
                        i <= members.len(),
                        *self == Json::Object(*members),
                        ms == member_trees(members@),
                        text@ == seq!['{'] + members_text(ms, i as nat),
                        self@ == JsonTree::Object(ms),
                    decreases members.len() - i,
                {
                    if i > 0 {
                        text.push(',');
                    }
                    proof {
                        lemma_member_decreases(*self, i as int);
                    }
                    let key = quote(members[i].0.as_str());
                    let value = members[i].1.to_text();
                    text.append(key.as_str());
                    text.push(':');
                    text.append(value.as_str());
                    assert(text@ == seq!['{'] + members_text(ms, (i + 1) as nat));
                    i = i + 1;
                }
                text.push('}');
                text
            },
        }
    }
}

/// The place of `key` in `members`; the last one where it stands twice, `-1`
/// where it does not stand at all.
pub open spec fn key_index(members: Seq<(Seq<char>, JsonTree)>, key: Seq<char>) -> int
    decreases members.len(),
{
    if members.len() == 0 {
        -1
    } else if members.last().0 == key {
        members.len() - 1
    } else {
        key_index(members.drop_last(), key)
    }
}

/// What `t` means to a reader.
pub open spec fn value(t: JsonTree) -> JsonValue
    decreases t,
{
    match t {
        JsonTree::Null => JsonValue::Null,
        JsonTree::Bool(b) => JsonValue::Bool(b),
        JsonTree::Number(n) => JsonValue::Number(n),
        JsonTree::Text(s) => JsonValue::Text(s),
        JsonTree::List(items) => JsonValue::List(
            Seq::new(
                items.len(),
                |i: int|
                    if 0 <= i < items.len() {
                        value(items[i])
                    } else {
                        JsonValue::Null
                    },
            ),
        ),
        JsonTree::Object(members) => JsonValue::Object(
            Map::new(
                |key: Seq<char>| 0 <= key_index(members, key) < members.len(),
                |key: Seq<char>|
                    {
                        let i = key_index(members, key);
                        if 0 <= i < members.len() {
                            value(members[i].1)
                        } else {
                            JsonValue::Null
                        }
                    },
            ),
        ),
    }
}

/// The member `key` of `v`; none where `v` is no object or has no such member.
pub open spec fn field(v: JsonValue, key: Seq<char>) -> Option<JsonValue> {
    match v {
        JsonValue::Object(members) => if members.dom().contains(key) {
            Some(members[key])
        } else {
            None
        },
        _ => None,
    }
}

/// Whether `t` nests at most `depth` levels deep, has no repeated object key,
/// and holds integers only, each in the form that fits its sign.
pub open spec fn readable(t: JsonTree, depth: nat) -> bool
    decreases depth,
{
    match t {
        JsonTree::Number(NumberTree::Negative(n)) => n < 0,
        JsonTree::Number(NumberTree::Other(_)) => false,
        JsonTree::List(items) => {
            &&& depth > 0
            &&& forall|i: int|
                0 <= i < items.len() ==> readable(#[trigger] items[i], (depth - 1) as nat)
        },
        JsonTree::Object(members) => {
            &&& depth > 0
            &&& forall|i: int|
                0 <= i < members.len() ==> readable((#[trigger] members[i]).1, (depth - 1) as nat)
            &&& forall|i: int, j: int|
                0 <= i < j < members.len() ==> (#[trigger] members[i]).0 != (
                #[trigger] members[j]).0
        },
        _ => true,
    }
}

proof fn lemma_readable_item(items: Seq<JsonTree>, depth: nat, i: int)
    requires
        readable(JsonTree::List(items), depth),
        0 <= i < items.len(),
    ensures
        readable(items[i], (depth - 1) as nat),
{
    assert(JsonTree::List(items)->List_0 == items);
}

proof fn lemma_readable_member(members: Seq<(Seq<char>, JsonTree)>, depth: nat, i: int)
    requires
        readable(JsonTree::Object(members), depth),
        0 <= i < members.len(),
    ensures
        readable(members[i].1, (depth - 1) as nat),
{
    assert(JsonTree::Object(members)->Object_0 == members);
}

/// The text of a readable tree is one line.
pub proof fn law_readable_text_is_one_line(t: JsonTree, depth: nat)
    requires
        readable(t, depth),
    ensures
        is_one_line(json_text(t)),
    decreases depth, 1nat, 0nat,
{
    reveal_strlit("null");
    reveal_strlit("true");
    reveal_strlit("false");
    match t {
        JsonTree::Number(n) => {
            match n {
                NumberTree::Unsigned(n) => {
                    lemma_decimal_is_one_line(n as nat);
                },
                NumberTree::Negative(n) => {
                    lemma_decimal_is_one_line((-n) as nat);
                },
                NumberTree::Other(_) => {},
            }
        },
        JsonTree::Text(s) => {
            lemma_quoted_is_one_line(s);
        },
        JsonTree::List(items) => {
            lemma_items_are_one_line(items, depth, items.len());
        },
        JsonTree::Object(members) => {
            lemma_members_are_one_line(members, depth, members.len());
        },
        _ => {},
    }
}

proof fn lemma_decimal_is_one_line(n: nat)
    ensures
        is_one_line(decimal(n)),
{
    law_decimal_reads_back(n);
    assert forall|i: int| 0 <= i < decimal(n).len() implies #[trigger] decimal(n)[i] != '\n' by {
        assert(is_digit(decimal(n)[i]));
    }
}

proof fn lemma_items_are_one_line(items: Seq<JsonTree>, depth: nat, n: nat)
    requires
        readable(JsonTree::List(items), depth),
        n <= items.len(),
    ensures
        is_one_line(items_text(items, n)),
    decreases depth, 0nat, n,
{
    if n > 0 {
        assert(depth > 0) by {
            assert(JsonTree::List(items)->List_0 == items);
        }
        lemma_readable_item(items, depth, n - 1);
        law_readable_text_is_one_line(items[n - 1], (depth - 1) as nat);
        lemma_items_are_one_line(items, depth, (n - 1) as nat);
    }
}

proof fn lemma_members_are_one_line(members: Seq<(Seq<char>, JsonTree)>, depth: nat, n: nat)
    requires
        readable(JsonTree::Object(members), depth),
        n <= members.len(),
    ensures
        is_one_line(members_text(members, n)),
    decreases depth, 0nat, n,
{
    if n > 0 {
        assert(depth > 0) by {
            assert(JsonTree::Object(members)->Object_0 == members);
        }
        lemma_readable_member(members, depth, n - 1);
        lemma_quoted_is_one_line(members[n - 1].0);
        law_readable_text_is_one_line(members[n - 1].1, (depth - 1) as nat);
        lemma_members_are_one_line(members, depth, (n - 1) as nat);
    }
}

/// How deep a tree may nest for its text to be promised to read back.
pub open spec fn max_depth() -> nat {
    100
}

/// What reading a JSON text gives: the tree, or what is wrong with the text.
pub uninterp spec fn parsed(text: Seq<char>) -> Result<JsonTree, Seq<char>>;

/// `serde_json::Value`, carried from the reader to [`from_value`].
#[verifier::external_type_specification]
#[verifier::external_body]
pub struct ExValue(serde_json::Value);

/// The view of a reading result.
pub open spec fn reading(result: Result<Json, String>) -> Result<JsonTree, Seq<char>> {
    match result {
        Ok(json) => Ok(json@),
        Err(message) => Err(message@),
    }
}

/// Whether `result` gives back what was written, should `text` be the text of
/// a readable tree.
pub open spec fn reads_back(text: Seq<char>, result: Result<JsonTree, Seq<char>>) -> bool {
    forall|t: JsonTree|
        text == #[trigger] json_text(t) && readable(t, max_depth()) ==> (result matches Ok(read)
            && value(read) == value(t))
}

/// Changes a `serde_json::Value` into a [`Json`], variant for variant.
#[verifier::external_body]
fn from_value(value: Value) -> Json {
    match value {
        Value::Null => Json::Null,
        Value::Bool(b) => Json::Bool(b),
        Value::Number(n) => match (n.as_u64(), n.as_i64()) {
            (Some(n), _) => Json::Number(Number::Unsigned(n)),
            (None, Some(n)) => Json::Number(Number::Negative(n)),
            (None, None) => Json::Number(Number::Other(n.to_string())),
        },
        Value::String(s) => Json::Text(s),
        Value::Array(items) => Json::List(items.into_iter().map(from_value).collect()),
        Value::Object(members) => Json::Object(
            members.into_iter().map(|(key, value)| (key, from_value(value))).collect(),
        ),
    }
}

/// `serde_json::from_str` into a `serde_json::Value`: reads one JSON text. The
/// result, and the message of a failure, are named by [`parsed`]. Beside that,
/// reading a text that [`json_text`] describes gives back what was written, for
/// trees that are [`readable`].
#[verifier::external_body]
fn read_json(text: &str) -> (result: Result<Json, String>)
    ensures
        reading(result) == parsed(text@),
        reads_back(text@, reading(result)),
{
    serde_json::from_str::<serde_json::Value>(text).map(from_value).map_err(|e| e.to_string())
}

/// Reads one JSON text. A text that was written from a [`readable`] tree reads
/// as that tree.
pub fn parse_json(text: &str) -> (result: Result<Json, String>)
    ensures
        reading(result) == parsed(text@),
        reads_back(text@, reading(result)),
{
    read_json(text)
}

/// A member of an object was found where `key_index` puts it.
proof fn lemma_key_index(members: Seq<(Seq<char>, JsonTree)>, key: Seq<char>)
    ensures
        -1 <= key_index(members, key) < members.len(),
        key_index(members, key) >= 0 ==> members[key_index(members, key)].0 == key,
        key_index(members, key) < 0 ==> forall|i: int|
            0 <= i < members.len() ==> (#[trigger] members[i]).0 != key,
    decreases members.len(),
{
    if members.len() > 0 && members.last().0 != key {
        lemma_key_index(members.drop_last(), key);
        assert forall|i: int| 0 <= i < members.len() && key_index(members, key) < 0 implies (
        #[trigger] members[i]).0 != key by {
            if i < members.len() - 1 {
                assert(members.drop_last()[i] == members[i]);
            }
        }
    }
}

/// Adding a member makes it the value of its key and keeps the others.
pub proof fn lemma_field_push(
    members: Seq<(Seq<char>, JsonTree)>,
    added: (Seq<char>, JsonTree),
    key: Seq<char>,
)
    ensures
        field(value(JsonTree::Object(members.push(added))), key) == (if key == added.0 {
            Some(value(added.1))
        } else {
            field(value(JsonTree::Object(members)), key)
        }),
{
    lemma_key_index(members, key);
    assert(members.push(added).drop_last() =~= members);
}

/// An object without members has no fields.
pub proof fn lemma_field_none(key: Seq<char>)
    ensures
        field(value(JsonTree::Object(seq![])), key) == None::<JsonValue>,
{
}

impl Json {
    /// What this value means to a reader.
    pub open spec fn value(&self) -> JsonValue {
        value(self@)
    }

    /// The member `key`, where this is an object that has it.
    pub fn get(&self, key: &str) -> (found: Option<&Json>)
        ensures
            match found {
                Some(member) => field(self.value(), key@) == Some(member.value())
                    && decreases_to!(*self => *member),
                None => field(self.value(), key@) == None::<JsonValue>,
            },
    {
        match self {
            Json::Object(members) => {
                let ghost ms = member_trees(members@);
                proof {
                    lemma_object_tree(*members);
                    assert(ms.take(ms.len() as int) == ms);
                }
                let mut i: usize = members.len();
                while i > 0
                    invariant
                        i <= members.len(),
                        *self == Json::Object(*members),
                        ms == member_trees(members@),
                        self@ == JsonTree::Object(ms),
                        key_index(ms, key@) == key_index(ms.take(i as int), key@),
                    decreases i,
                {
                    let ghost part = ms.take(i as int);
                    assert(part.last() == ms[i - 1]);
                    assert(part.drop_last() == ms.take(i - 1));
                    i = i - 1;
                    if same_text(members[i].0.as_str(), key) {
                        proof {
                            lemma_member_decreases(*self, i as int);
                        }
                        return Some(&members[i].1);
                    }
                }
                None
            },
            _ => None,
        }
    }

    /// The text, where this is a string.
    pub fn as_text(&self) -> (text: Option<&str>)
        ensures
            match text {
                Some(text) => self.value() == JsonValue::Text(text@),
                None => !(self.value() is Text),
            },
    {
        match self {
            Json::Text(text) => Some(text.as_str()),
            _ => None,
        }
    }

    /// The number, where this is an integer that is not negative.
    pub fn as_u64(&self) -> (number: Option<u64>)
        ensures
            match number {
                Some(n) => self.value() == JsonValue::Number(NumberTree::Unsigned(n)),
                None => !(self.value() matches JsonValue::Number(NumberTree::Unsigned(_))),
            },
    {
        match self {
            Json::Number(Number::Unsigned(n)) => Some(*n),
            _ => None,
        }
    }

    /// The truth value, where this is one.
    pub fn as_bool(&self) -> (truth: Option<bool>)
        ensures
            match truth {
                Some(b) => self.value() == JsonValue::Bool(b),
                None => !(self.value() is Bool),
            },
    {
        match self {
            Json::Bool(b) => Some(*b),
            _ => None,
        }
    }
}

/// The values of `items`, in order.
pub open spec fn values(items: Seq<Json>) -> Seq<JsonValue> {
    Seq::new(items.len(), |i: int| items[i].value())
}

/// The value of a list is the list of its items' values.
pub proof fn lemma_list_value(items: Vec<Json>)
    ensures
        Json::List(items).value() == JsonValue::List(values(items@)),
{
    lemma_list_tree(items);
    assert(Json::List(items).value()->List_0 =~= values(items@));
}

/// Appends a member to an object under construction.
pub fn add_member(members: &mut Vec<(String, Json)>, key: &str, json: Json)
    ensures
        member_trees(final(members)@) == member_trees(old(members)@).push((key@, json@)),
{
    members.push((key.to_owned(), json));
    assert(member_trees(members@) =~= member_trees(old(members)@).push((key@, json@)));
}

/// The object made of `members`.
pub fn object(members: Vec<(String, Json)>) -> (json: Json)
    ensures
        json@ == JsonTree::Object(member_trees(members@)),
{
    proof {
        lemma_object_tree(members);
    }
    Json::Object(members)
}

/// The list made of `items`.
pub fn list(items: Vec<Json>) -> (json: Json)
    ensures
        json@ == JsonTree::List(trees(items@)),
{
    proof {
        lemma_list_tree(items);
    }
    Json::List(items)
}

/// The string `s`.
pub fn string(s: &str) -> (json: Json)
    ensures
        json@ == JsonTree::Text(s@),
{
    Json::Text(s.to_owned())
}

/// The integer `n`.
pub fn unsigned(n: u64) -> (json: Json)
    ensures
        json@ == JsonTree::Number(NumberTree::Unsigned(n)),
{
    Json::Number(Number::Unsigned(n))
}

} // verus!
