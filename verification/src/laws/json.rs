//! What stands in a JSON value and in its text.

use vstd::prelude::*;

use crate::json::{
    escaped, escaped_text, field, hex_digit, items_text, json_text, key_index, members_text,
    number_text, quoted, value, JsonTree, JsonValue, NumberTree,
};
use crate::laws::layout::{is_joined, law_join_lays_out_every_part, lemma_joined_push};
use crate::text::{decimal, digits_value, law_decimal_reads_back};

verus! {

/// The last member of a key is what a reader finds under it.
pub proof fn law_the_last_member_counts(members: Seq<(Seq<char>, JsonTree)>, i: int)
    requires
        0 <= i < members.len(),
        forall|j: int| i < j < members.len() ==> (#[trigger] members[j]).0 != members[i].0,
    ensures
        field(value(JsonTree::Object(members)), members[i].0) == Some(value(members[i].1)),
{
    lemma_key_at(members, i);
    assert(JsonTree::Object(members)->Object_0 == members);
}

proof fn lemma_key_at(members: Seq<(Seq<char>, JsonTree)>, i: int)
    requires
        0 <= i < members.len(),
        forall|j: int| i < j < members.len() ==> (#[trigger] members[j]).0 != members[i].0,
    ensures
        key_index(members, members[i].0) == i,
    decreases members.len(),
{
    if i < members.len() - 1 {
        let front = members.drop_last();
        assert(members[members.len() - 1].0 != members[i].0);
        lemma_key_at(front, i);
    }
}

/// Under a key that no member has, a reader finds nothing.
pub proof fn law_no_member_no_field(members: Seq<(Seq<char>, JsonTree)>, key: Seq<char>)
    requires
        forall|j: int| 0 <= j < members.len() ==> (#[trigger] members[j]).0 != key,
    ensures
        field(value(JsonTree::Object(members)), key) == None::<JsonValue>,
{
    lemma_key_nowhere(members, key);
    assert(JsonTree::Object(members)->Object_0 == members);
}

proof fn lemma_key_nowhere(members: Seq<(Seq<char>, JsonTree)>, key: Seq<char>)
    requires
        forall|j: int| 0 <= j < members.len() ==> (#[trigger] members[j]).0 != key,
    ensures
        key_index(members, key) == -1,
    decreases members.len(),
{
    if members.len() > 0 {
        assert(members[members.len() - 1].0 != key);
        lemma_key_nowhere(members.drop_last(), key);
    }
}

/// The items of a list are what its items mean, in order.
pub proof fn law_list_means_its_items(items: Seq<JsonTree>)
    ensures
        value(JsonTree::List(items)) is List,
        value(JsonTree::List(items))->List_0.len() == items.len(),
        forall|i: int|
            0 <= i < items.len() ==> #[trigger] value(JsonTree::List(items))->List_0[i] == value(
                items[i],
            ),
{
    assert(JsonTree::List(items)->List_0 == items);
}

/// The text of a list is a bracket, the texts of its items in order with a comma
/// between two of them, and a bracket.
pub proof fn law_list_text_holds_every_item(items: Seq<JsonTree>)
    ensures
        exists|inner: Seq<char>|
            json_text(JsonTree::List(items)) == #[trigger] (seq!['['] + inner) + seq![']']
                && is_joined(
                inner,
                Seq::new(items.len(), |i: int| json_text(items[i])),
                seq![','],
            ),
{
    let texts = Seq::new(items.len(), |i: int| json_text(items[i]));
    lemma_items_joined(items, items.len());
    assert(texts.take(items.len() as int) =~= texts);
    assert(JsonTree::List(items)->List_0 == items);
    let inner = items_text(items, items.len());
    assert(json_text(JsonTree::List(items)) == (seq!['['] + inner) + seq![']']);
}

proof fn lemma_items_joined(items: Seq<JsonTree>, n: nat)
    requires
        n <= items.len(),
    ensures
        is_joined(
            items_text(items, n),
            Seq::new(items.len(), |i: int| json_text(items[i])).take(n as int),
            seq![','],
        ),
    decreases n,
{
    let texts = Seq::new(items.len(), |i: int| json_text(items[i]));
    if n == 0 {
        law_join_lays_out_every_part(texts.take(0), seq![',']);
        assert(texts.take(0) =~= Seq::<Seq<char>>::empty());
    } else {
        lemma_items_joined(items, (n - 1) as nat);
        lemma_joined_push(
            items_text(items, (n - 1) as nat),
            texts.take(n - 1),
            seq![','],
            json_text(items[n - 1]),
        );
        assert(texts.take(n - 1).push(texts[n - 1]) =~= texts.take(n as int));
    }
}

/// The text of one member.
pub open spec fn member_text(member: (Seq<char>, JsonTree)) -> Seq<char> {
    quoted(member.0) + seq![':'] + json_text(member.1)
}

/// The text of an object is a brace, its members in order, each a key, a colon and a
/// value, with a comma between two of them, and a brace.
pub proof fn law_object_text_holds_every_member(members: Seq<(Seq<char>, JsonTree)>)
    ensures
        exists|inner: Seq<char>|
            json_text(JsonTree::Object(members)) == #[trigger] (seq!['{'] + inner) + seq!['}']
                && is_joined(
                inner,
                Seq::new(members.len(), |i: int| member_text(members[i])),
                seq![','],
            ),
{
    let texts = Seq::new(members.len(), |i: int| member_text(members[i]));
    lemma_members_joined(members, members.len());
    assert(texts.take(members.len() as int) =~= texts);
    assert(JsonTree::Object(members)->Object_0 == members);
    let inner = members_text(members, members.len());
    assert(json_text(JsonTree::Object(members)) == (seq!['{'] + inner) + seq!['}']);
}

proof fn lemma_members_joined(members: Seq<(Seq<char>, JsonTree)>, n: nat)
    requires
        n <= members.len(),
    ensures
        is_joined(
            members_text(members, n),
            Seq::new(members.len(), |i: int| member_text(members[i])).take(n as int),
            seq![','],
        ),
    decreases n,
{
    let texts = Seq::new(members.len(), |i: int| member_text(members[i]));
    if n == 0 {
        law_join_lays_out_every_part(texts.take(0), seq![',']);
        assert(texts.take(0) =~= Seq::<Seq<char>>::empty());
    } else {
        lemma_members_joined(members, (n - 1) as nat);
        lemma_joined_push(
            members_text(members, (n - 1) as nat),
            texts.take(n - 1),
            seq![','],
            member_text(members[n - 1]),
        );
        assert(texts.take(n - 1).push(texts[n - 1]) =~= texts.take(n as int));
    }
}

/// Whether `c` stands in a string literal as it is.
pub open spec fn is_literal(c: char) -> bool {
    c as nat >= 0x20 && c != '"' && c != '\\'
}

/// A text of plain characters stands between the quotation marks as it is, and two
/// texts have the same literal only where they are the same.
pub proof fn law_string_literals_tell_texts_apart(s: Seq<char>, t: Seq<char>)
    ensures
        (forall|i: int| 0 <= i < s.len() ==> is_literal(#[trigger] s[i])) ==> quoted(s) == seq!['"']
            + s + seq!['"'],
        quoted(s) == quoted(t) ==> s == t,
{
    if forall|i: int| 0 <= i < s.len() ==> is_literal(#[trigger] s[i]) {
        lemma_plain_text(s);
    }
    if quoted(s) == quoted(t) {
        let (a, b) = (quoted(s), quoted(t));
        assert(a.subrange(1, a.len() - 1) =~= escaped_text(s));
        assert(b.subrange(1, b.len() - 1) =~= escaped_text(t));
        lemma_escapes_differ(s, t);
    }
}

proof fn lemma_plain_text(s: Seq<char>)
    requires
        forall|i: int| 0 <= i < s.len() ==> is_literal(#[trigger] s[i]),
    ensures
        escaped_text(s) == s,
    decreases s.len(),
{
    if s.len() > 0 {
        lemma_plain_text(s.drop_last());
        assert(is_literal(s[s.len() - 1]));
        assert(s.drop_last() + seq![s.last()] =~= s);
    }
}

proof fn lemma_first_escape(s: Seq<char>)
    requires
        s.len() > 0,
    ensures
        escaped_text(s) == escaped(s[0]) + escaped_text(s.skip(1)),
    decreases s.len(),
{
    if s.len() == 1 {
        assert(s.drop_last() =~= Seq::<char>::empty());
        assert(s.skip(1) =~= Seq::<char>::empty());
        assert(escaped_text(s) =~= escaped(s[0]) + escaped_text(s.skip(1)));
    } else {
        lemma_first_escape(s.drop_last());
        assert(s.drop_last().skip(1) =~= s.skip(1).drop_last());
        assert(escaped_text(s) =~= escaped(s[0]) + escaped_text(s.skip(1)));
    }
}

/// Where two escapes are followed by anything, the characters they stand for can be
/// told apart.
proof fn lemma_escape_codes(c: char, d: char, left: Seq<char>, right: Seq<char>)
    requires
        escaped(c) + left == escaped(d) + right,
    ensures
        c == d,
        left == right,
{
    let (a, b) = (escaped(c) + left, escaped(d) + right);
    assert(a[0] == escaped(c)[0]);
    assert(b[0] == escaped(d)[0]);
    if escaped(c).len() > 1 && escaped(d).len() > 1 {
        assert(a[1] == escaped(c)[1]);
        assert(b[1] == escaped(d)[1]);
        if escaped(c).len() == 6 && escaped(d).len() == 6 {
            assert(a[4] == escaped(c)[4] && a[5] == escaped(c)[5]);
            assert(b[4] == escaped(d)[4] && b[5] == escaped(d)[5]);
            let (m, n) = (c as nat, d as nat);
            assert(m / 16 < 2 && n / 16 < 2);
            lemma_hex_digits_differ(m / 16, n / 16);
            lemma_hex_digits_differ(m % 16, n % 16);
            assert(m == n);
        }
    }
    assert(c == d);
    assert(left =~= a.skip(escaped(c).len() as int));
    assert(right =~= b.skip(escaped(d).len() as int));
}

proof fn lemma_hex_digits_differ(m: nat, n: nat)
    requires
        m < 16,
        n < 16,
        hex_digit(m) == hex_digit(n),
    ensures
        m == n,
{
}

proof fn lemma_escapes_differ(s: Seq<char>, t: Seq<char>)
    requires
        escaped_text(s) == escaped_text(t),
    ensures
        s == t,
    decreases s.len(),
{
    if s.len() == 0 {
        if t.len() > 0 {
            lemma_first_escape(t);
            assert(escaped(t[0]).len() > 0);
        }
        assert(s =~= t);
    } else {
        lemma_first_escape(s);
        assert(escaped(s[0]).len() > 0);
        if t.len() > 0 {
            lemma_first_escape(t);
            lemma_escape_codes(s[0], t[0], escaped_text(s.skip(1)), escaped_text(t.skip(1)));
            lemma_escapes_differ(s.skip(1), t.skip(1));
            assert(s =~= seq![s[0]] + s.skip(1));
            assert(t =~= seq![t[0]] + t.skip(1));
        }
    }
}

/// The numeral of a whole number reads as that number, its sign in front.
pub proof fn law_numerals_read_as_their_numbers(n: u64, m: i64)
    ensures
        digits_value(number_text(NumberTree::Unsigned(n))) == n,
        m < 0 ==> number_text(NumberTree::Negative(m))[0] == '-' && digits_value(
            number_text(NumberTree::Negative(m)).skip(1),
        ) == -m,
{
    law_decimal_reads_back(n as nat);
    if m < 0 {
        law_decimal_reads_back((-m) as nat);
        let text = number_text(NumberTree::Negative(m));
        assert(text.skip(1) =~= decimal((-m) as nat));
    }
}

} // verus!
