//! Tool arguments and the JSON Schemas that declare them.

use vstd::prelude::*;

use crate::json::{
    Json, JsonTree, JsonValue, add_member, field, list, member_trees, object, string, trees,
};

verus! {

/// The string argument `key` of a call, where it is one.
pub open spec fn string_arg(input: JsonValue, key: Seq<char>) -> Option<Seq<char>> {
    match field(input, key) {
        Some(JsonValue::Text(text)) => Some(text),
        _ => None,
    }
}

/// The string argument `key` of a call, where it is one.
pub fn string_argument(input: &Json, key: &str) -> (text: Option<String>)
    ensures
        match text {
            Some(text) => string_arg(input.value(), key@) == Some(text@),
            None => string_arg(input.value(), key@) == None::<Seq<char>>,
        },
{
    match input.get(key) {
        Some(found) => match found.as_text() {
            Some(text) => Some(text.to_owned()),
            None => None,
        },
        None => None,
    }
}

/// The declaration of one argument. Schema objects keep their keys sorted.
pub open spec fn property_tree(kind: Seq<char>, description: Seq<char>) -> JsonTree {
    JsonTree::Object(
        seq![("description"@, JsonTree::Text(description)), ("type"@, JsonTree::Text(kind))],
    )
}

/// The declaration of one argument.
pub fn property(kind: &str, description: &str) -> (json: Json)
    ensures
        json@ == property_tree(kind@, description@),
{
    let mut members: Vec<(String, Json)> = Vec::new();
    add_member(&mut members, "description", string(description));
    add_member(&mut members, "type", string(kind));
    assert(member_trees(members@) =~= property_tree(kind@, description@)->Object_0);
    object(members)
}

/// The strings `names` as JSON values.
pub open spec fn text_trees(names: Seq<&str>) -> Seq<JsonTree> {
    Seq::new(names.len(), |i: int| JsonTree::Text(names[i]@))
}

/// The schema of an argument object.
pub open spec fn schema_tree(
    properties: Seq<(Seq<char>, JsonTree)>,
    required: Seq<JsonTree>,
) -> JsonTree {
    JsonTree::Object(
        seq![
            ("properties"@, JsonTree::Object(properties)),
            ("required"@, JsonTree::List(required)),
            ("type"@, JsonTree::Text("object"@)),
        ],
    )
}

/// The schema of an argument object.
pub fn schema(properties: Vec<(String, Json)>, required: Vec<&str>) -> (json: Json)
    ensures
        json@ == schema_tree(member_trees(properties@), text_trees(required@)),
{
    let mut names: Vec<Json> = Vec::new();
    let mut i: usize = 0;
    while i < required.len()
        invariant
            i <= required.len(),
            trees(names@) == text_trees(required@).take(i as int),
        decreases required.len() - i,
    {
        let ghost before = trees(names@);
        names.push(string(required[i]));
        assert(trees(names@) =~= before.push(JsonTree::Text(required@[i as int]@)));
        assert(text_trees(required@).take(i + 1) =~= before.push(
            JsonTree::Text(required@[i as int]@),
        ));
        i = i + 1;
    }
    let mut members: Vec<(String, Json)> = Vec::new();
    assert(text_trees(required@).take(required@.len() as int) =~= text_trees(required@));
    add_member(&mut members, "properties", object(properties));
    add_member(&mut members, "required", list(names));
    add_member(&mut members, "type", string("object"));
    assert(member_trees(members@) =~= schema_tree(
        member_trees(properties@),
        text_trees(required@),
    )->Object_0);
    object(members)
}

} // verus!
