//! Where a path leads.

use vstd::prelude::*;

use crate::laws::layout::{is_joined, law_join_lays_out_every_part};
use crate::text::{decimal, join_with, lemma_split_append, split_on};
use crate::tools::read::{joined_path, normal_components, resolved, size_text, tenths};

verus! {

/// Whether `name` is the name of a file or a directory.
pub open spec fn is_plain_name(name: Seq<char>) -> bool {
    name.len() > 0 && !name.contains('/') && name != "."@ && name != ".."@
}

/// The absolute path of `names` below the root.
pub open spec fn rooted(names: Seq<Seq<char>>) -> Seq<char> {
    "/"@ + join_with(names, "/"@)
}

/// Whether `full` is the absolute path of plain names: each whole, in order, with a
/// slash in front.
pub open spec fn is_rooted(full: Seq<char>, names: Seq<Seq<char>>) -> bool {
    &&& exists|rest: Seq<char>|
        full == seq!['/'] + rest && #[trigger] is_joined(rest, names, seq!['/'])
    &&& forall|i: int| 0 <= i < names.len() ==> is_plain_name(#[trigger] names[i])
}

/// The names that the components of `full` come to.
pub open spec fn names_of(full: Seq<char>) -> Seq<Seq<char>> {
    normal_components(split_on(full, '/'))
}

proof fn lemma_names_plain(parts: Seq<Seq<char>>)
    requires
        forall|i: int| 0 <= i < parts.len() ==> !(#[trigger] parts[i]).contains('/'),
    ensures
        forall|i: int|
            0 <= i < normal_components(parts).len() ==> is_plain_name(
                #[trigger] normal_components(parts)[i],
            ),
    decreases parts.len(),
{
    reveal_strlit("");
    if parts.len() > 0 {
        let front = parts.drop_last();
        assert forall|i: int| 0 <= i < front.len() implies !(#[trigger] front[i]).contains('/') by {
            assert(front[i] == parts[i]);
        }
        lemma_names_plain(front);
        let names = normal_components(parts);
        let before = normal_components(front);
        let last = parts.last();
        assert(!parts[parts.len() - 1].contains('/'));
        if last.len() == 0 {
            assert(last =~= ""@);
        }
        assert forall|i: int| 0 <= i < names.len() implies is_plain_name(#[trigger] names[i]) by {
            if i < before.len() {
                assert(names[i] == before[i]);
            }
        }
    }
}

/// One component more at the end of a path.
proof fn lemma_extended(full: Seq<char>, part: Seq<char>)
    requires
        !part.contains('/'),
    ensures
        names_of(full + "/"@ + part) == ({
            let before = names_of(full);
            if part.len() == 0 || part == "."@ {
                before
            } else if part == ".."@ {
                if before.len() > 0 {
                    before.drop_last()
                } else {
                    before
                }
            } else {
                before.push(part)
            }
        }),
{
    reveal_strlit("/");
    reveal_strlit("");
    assert("/"@ =~= seq!['/']);
    let opened = full.push('/');
    let parts = split_on(full, '/');
    assert(opened.drop_last() =~= full);
    assert(split_on(opened, '/') == parts.push(Seq::empty()));
    lemma_split_append(opened, part, '/');
    assert(parts.push(Seq::<char>::empty()).drop_last() =~= parts);
    assert(Seq::<char>::empty() + part =~= part);
    assert(full + "/"@ + part =~= opened + part);
    let all = split_on(full + "/"@ + part, '/');
    assert(all == parts.push(part));
    assert(all.drop_last() =~= parts);
    if part.len() == 0 {
        assert(part =~= ""@);
    }
}

/// A path below an absolute directory leads to the absolute path of plain names.
pub proof fn law_paths_lead_to_plain_names(base: Seq<char>, path: Seq<char>)
    requires
        base.len() > 0,
        base[0] == '/',
    ensures
        is_rooted(resolved(base, path), names_of(joined_path(base, path))),
{
    reveal_strlit("/");
    assert("/"@ =~= seq!['/']);
    let full = joined_path(base, path);
    assert(full.len() > 0 && full[0] == '/');
    crate::text::lemma_split_parts(full, '/');
    lemma_names_plain(split_on(full, '/'));
    law_join_lays_out_every_part(names_of(full), seq!['/']);
    let rest = join_with(names_of(full), "/"@);
    assert(is_joined(rest, names_of(full), seq!['/']));
}

/// A path is followed component by component: a name leads into it, `..` leads out
/// again and never above the root, and `.` and an empty component lead nowhere. A path
/// that is not absolute is followed from the base, and an absolute one from the root.
pub proof fn law_paths_are_followed_step_by_step(
    base: Seq<char>,
    path: Seq<char>,
    part: Seq<char>,
)
    requires
        !part.contains('/'),
        path.len() > 0,
    ensures
        path[0] == '/' ==> joined_path(base, path) == path,
        path[0] != '/' && base.len() > 0 ==> joined_path(base, path) == base + "/"@ + path,
        names_of(joined_path(base, path + "/"@ + part)) == ({
            let before = names_of(joined_path(base, path));
            if part.len() == 0 || part == "."@ {
                before
            } else if part == ".."@ {
                if before.len() > 0 {
                    before.drop_last()
                } else {
                    before
                }
            } else {
                before.push(part)
            }
        }),
        names_of("/"@ + part) == (if part.len() == 0 || part == "."@ || part == ".."@ {
            Seq::<Seq<char>>::empty()
        } else {
            seq![part]
        }),
{
    let longer = path + "/"@ + part;
    assert(longer[0] == path[0]);
    lemma_extended(joined_path(base, path), part);
    assert(joined_path(base, longer) =~= joined_path(base, path) + "/"@ + part);
    let none = Seq::<char>::empty();
    lemma_extended(none, part);
    reveal_strlit("");
    reveal_with_fuel(normal_components, 2);
    assert(none =~= ""@);
    assert(split_on(none, '/') =~= seq![none]);
    assert(seq![none].drop_last() =~= Seq::<Seq<char>>::empty());
    assert(names_of(none) =~= Seq::<Seq<char>>::empty());
    assert(none + "/"@ + part =~= "/"@ + part);
    assert(names_of(none).push(part) =~= seq![part]);
}

/// A size is named in bytes below a kilobyte, and else in tenths of a kilobyte or of a
/// megabyte, to the nearest tenth.
pub proof fn law_sizes_are_rounded_to_tenths(bytes: nat)
    ensures
        bytes < 1024 ==> size_text(bytes) == decimal(bytes) + "B"@,
        1024 <= bytes < 1_048_576 ==> exists|t: nat|
            size_text(bytes) == #[trigger] decimal(t / 10) + "."@ + decimal(t % 10) + "KB"@ && -1024
                <= 2 * (t * 1024 - 10 * bytes) <= 1024,
        bytes >= 1_048_576 ==> exists|t: nat|
            size_text(bytes) == #[trigger] decimal(t / 10) + "."@ + decimal(t % 10) + "MB"@
                && -1_048_576 <= 2 * (t * 1_048_576 - 10 * bytes) <= 1_048_576,
{
    if bytes >= 1024 {
        let unit: nat = if bytes < 1_048_576 {
            1024
        } else {
            1_048_576
        };
        let t = tenths(bytes, unit);
        let q = 10 * bytes / unit;
        let r = 10 * bytes % unit;
        assert(10 * bytes == q * unit + r) by {
            vstd::arithmetic::div_mod::lemma_fundamental_div_mod((10 * bytes) as int, unit as int);
        }
        assert(size_text(bytes) == decimal(t / 10) + "."@ + decimal(t % 10) + (if unit == 1024 {
            "KB"@
        } else {
            "MB"@
        }));
    }
}

} // verus!
