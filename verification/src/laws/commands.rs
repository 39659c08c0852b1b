//! What a command line means.

use vstd::prelude::*;

use crate::cli::{
    ask_meaning, command_meaning, exchange_choice, exchange_meaning, index_meaning, is_safe_id,
    log_command_meaning, log_meaning, log_path, session_meaning, store_choice, CommandView,
    ExchangeSessionView, ResumeView,
};
use crate::laws::text::{law_numbers_are_read_as_they_are_written, writes};
use crate::text::trimmed;

verus! {

/// One thing said on a command line: a flag with its value, or a word of its own.
pub enum Given {
    Valued(Seq<char>, Seq<char>),
    Bare(Seq<char>),
}

/// The words of one thing.
pub open spec fn words_of(given: Given) -> Seq<Seq<char>> {
    match given {
        Given::Valued(flag, value) => seq![flag, value],
        Given::Bare(word) => seq![word],
    }
}

/// The words of all things, one after the other.
pub open spec fn spread(all: Seq<Given>) -> Seq<Seq<char>>
    decreases all.len(),
{
    if all.len() == 0 {
        Seq::empty()
    } else {
        words_of(all[0]) + spread(all.skip(1))
    }
}

/// The last value given to `flag`.
pub open spec fn last_of(all: Seq<Given>, flag: Seq<char>) -> Option<Seq<char>>
    decreases all.len(),
{
    if all.len() == 0 {
        None
    } else {
        match last_of(all.skip(1), flag) {
            Some(value) => Some(value),
            None => match all[0] {
                Given::Valued(name, value) if name == flag => Some(value),
                _ => None,
            },
        }
    }
}

/// All values given to `flag`, in order.
pub open spec fn all_of(all: Seq<Given>, flag: Seq<char>) -> Seq<Seq<char>>
    decreases all.len(),
{
    if all.len() == 0 {
        Seq::empty()
    } else {
        match all[0] {
            Given::Valued(name, value) if name == flag => seq![value] + all_of(all.skip(1), flag),
            _ => all_of(all.skip(1), flag),
        }
    }
}

/// The words of their own, in order.
pub open spec fn bare_of(all: Seq<Given>) -> Seq<Seq<char>>
    decreases all.len(),
{
    if all.len() == 0 {
        Seq::empty()
    } else {
        match all[0] {
            Given::Bare(word) => seq![word] + bare_of(all.skip(1)),
            _ => bare_of(all.skip(1)),
        }
    }
}

/// `later`, or `earlier` where there is none.
pub open spec fn or_else(later: Option<Seq<char>>, earlier: Option<Seq<char>>) -> Option<Seq<char>> {
    if later is Some {
        later
    } else {
        earlier
    }
}

proof fn lemma_first(first: Given, rest: Seq<Given>)
    ensures
        (seq![first] + rest).skip(1) == rest,
        (seq![first] + rest)[0] == first,
        spread(seq![first] + rest) == words_of(first) + spread(rest),
        bare_of(seq![first] + rest) == (match first {
            Given::Bare(word) => seq![word] + bare_of(rest),
            _ => bare_of(rest),
        }),
{
    assert((seq![first] + rest).skip(1) =~= rest);
}

proof fn lemma_skipped(line: Seq<Seq<char>>, i: int, words: Seq<Seq<char>>, rest: Seq<Seq<char>>)
    requires
        0 <= i <= line.len(),
        line.skip(i) == words + rest,
    ensures
        i + words.len() <= line.len(),
        line.skip(i + words.len()) == rest,
        forall|k: int| 0 <= k < words.len() ==> line[i + k] == #[trigger] words[k],
{
    let tail = line.skip(i);
    assert(tail.len() == words.len() + rest.len());
    assert(line.skip(i + words.len()) =~= tail.skip(words.len() as int));
    assert(tail.skip(words.len() as int) =~= rest);
    assert forall|k: int| 0 <= k < words.len() implies line[i + k] == #[trigger] words[k] by {
        assert(tail[k] == line[i + k]);
    }
}

// ---------------------------------------------------------------------------
// ask

/// Whether an `ask` may be given these things: models, image files and words.
pub open spec fn are_ask_args(all: Seq<Given>) -> bool {
    forall|i: int|
        0 <= i < all.len() ==> match #[trigger] all[i] {
            Given::Valued(flag, value) => flag == "--model"@ || (flag == "--image"@ && value.len()
                > 0),
            Given::Bare(word) => word != "--model"@ && word != "--image"@,
        }
}

spec fn asks(
    all: Seq<Given>,
    model: Option<Seq<char>>,
    prompt: Option<Seq<char>>,
    images: Seq<Seq<char>>,
    command: CommandView,
) -> bool {
    &&& are_ask_args(all)
    &&& command matches CommandView::Ask { prompt: p, model: m, images: i } && m == or_else(
        last_of(all, "--model"@),
        model,
    ) && i == images + all_of(all, "--image"@) && trimmed(p).len() > 0 && bare_of(all) == (
    match prompt {
        Some(_) => Seq::<Seq<char>>::empty(),
        None => seq![p],
    }) && (prompt is Some ==> prompt == Some(p))
}

proof fn lemma_ask_flags()
    ensures
        "--model"@ != "--image"@,
{
    reveal_strlit("--model");
    reveal_strlit("--image");
    assert("--model"@[2] != "--image"@[2]);
}

proof fn lemma_ask_args(
    line: Seq<Seq<char>>,
    i: int,
    model: Option<Seq<char>>,
    prompt: Option<Seq<char>>,
    images: Seq<Seq<char>>,
) -> (all: Seq<Given>)
    requires
        0 <= i <= line.len(),
        ask_meaning(line, i, model, prompt, images) is Ok,
    ensures
        spread(all) == line.skip(i),
        asks(all, model, prompt, images, ask_meaning(line, i, model, prompt, images)->Ok_0),
    decreases line.len() - i,
{
    lemma_ask_flags();
    if i >= line.len() {
        let none = Seq::<Given>::empty();
        assert(spread(none) =~= line.skip(i));
        assert(images + all_of(none, "--image"@) =~= images);
        none
    } else if line[i] == "--model"@ {
        let rest = lemma_ask_args(line, i + 2, Some(line[i + 1]), prompt, images);
        let first = Given::Valued(line[i], line[i + 1]);
        lemma_first(first, rest);
        assert(spread(seq![first] + rest) =~= line.skip(i));
        seq![first] + rest
    } else if line[i] == "--image"@ {
        let rest = lemma_ask_args(line, i + 2, model, prompt, images.push(line[i + 1]));
        let first = Given::Valued(line[i], line[i + 1]);
        lemma_first(first, rest);
        assert(spread(seq![first] + rest) =~= line.skip(i));
        assert(images + all_of(seq![first] + rest, "--image"@) =~= images.push(line[i + 1])
            + all_of(rest, "--image"@));
        seq![first] + rest
    } else {
        let rest = lemma_ask_args(line, i + 1, model, Some(line[i]), images);
        let first = Given::Bare(line[i]);
        lemma_first(first, rest);
        assert(spread(seq![first] + rest) =~= line.skip(i));
        assert(bare_of(seq![first] + rest) =~= seq![line[i]]);
        seq![first] + rest
    }
}

proof fn lemma_ask_meant(
    line: Seq<Seq<char>>,
    i: int,
    model: Option<Seq<char>>,
    prompt: Option<Seq<char>>,
    images: Seq<Seq<char>>,
    all: Seq<Given>,
    command: CommandView,
)
    requires
        0 <= i <= line.len(),
        spread(all) == line.skip(i),
        asks(all, model, prompt, images, command),
    ensures
        ask_meaning(line, i, model, prompt, images) == Ok::<CommandView, Seq<char>>(command),
    decreases all.len(),
{
    lemma_ask_flags();
    if all.len() == 0 {
        assert(line.skip(i).len() == 0);
        assert(images + all_of(all, "--image"@) =~= images);
    } else {
        let rest = all.skip(1);
        assert(all =~= seq![all[0]] + rest);
        lemma_first(all[0], rest);
        assert(line.skip(i) == words_of(all[0]) + spread(rest));
        lemma_skipped(line, i, words_of(all[0]), spread(rest));
        assert(line[i] == words_of(all[0])[0]);
        assert(are_ask_args(rest)) by {
            assert forall|k: int| 0 <= k < rest.len() implies match #[trigger] rest[k] {
                Given::Valued(flag, value) => flag == "--model"@ || (flag == "--image"@
                    && value.len() > 0),
                Given::Bare(word) => word != "--model"@ && word != "--image"@,
            } by {
                assert(rest[k] == all[k + 1]);
            }
        }
        match all[0] {
            Given::Valued(flag, value) => {
                lemma_skipped(line, i, words_of(all[0]), spread(rest));
                assert(line[i + 1] == words_of(all[0])[1]);
                if flag == "--model"@ {
                    lemma_ask_meant(line, i + 2, Some(value), prompt, images, rest, command);
                } else {
                    assert(images + all_of(all, "--image"@) =~= images.push(value) + all_of(
                        rest,
                        "--image"@,
                    ));
                    lemma_ask_meant(line, i + 2, model, prompt, images.push(value), rest, command);
                }
            },
            Given::Bare(word) => {
                lemma_skipped(line, i, words_of(all[0]), spread(rest));
                assert(bare_of(all)[0] == word);
                assert(bare_of(rest) =~= Seq::<Seq<char>>::empty()) by {
                    assert(bare_of(all).len() == 1 + bare_of(rest).len());
                }
                lemma_ask_meant(line, i + 1, model, Some(word), images, rest, command);
            },
        }
    }
}

/// Whether `all` asks `prompt`: it is the one word of its own, and not blank; the model
/// is the last one given, and the images are all those given, in order.
pub open spec fn is_ask_line(
    all: Seq<Given>,
    prompt: Seq<char>,
    model: Option<Seq<char>>,
    images: Seq<Seq<char>>,
) -> bool {
    &&& are_ask_args(all)
    &&& bare_of(all) == seq![prompt]
    &&& trimmed(prompt).len() > 0
    &&& model == last_of(all, "--model"@)
    &&& images == all_of(all, "--image"@)
}

/// `ask` takes one prompt, and models and images in any place.
pub proof fn law_ask_takes_one_prompt(
    line: Seq<Seq<char>>,
    prompt: Seq<char>,
    model: Option<Seq<char>>,
    images: Seq<Seq<char>>,
)
    requires
        line.len() > 0,
        line[0] == "ask"@,
    ensures
        command_meaning(line) == Ok::<Option<CommandView>, Seq<char>>(
            Some(CommandView::Ask { prompt, model, images }),
        ) <==> exists|all: Seq<Given>| #[trigger]
            is_ask_line(all, prompt, model, images) && spread(all) == line.skip(1),
{
    lemma_words();
    let command = CommandView::Ask { prompt, model, images };
    let none = Seq::<Seq<char>>::empty();
    if ask_meaning(line, 1, None, None, none) == Ok::<CommandView, Seq<char>>(command) {
        let all = lemma_ask_args(line, 1, None, None, none);
        assert(none + all_of(all, "--image"@) =~= all_of(all, "--image"@));
        assert(is_ask_line(all, prompt, model, images));
    }
    if exists|all: Seq<Given>| #[trigger]
        is_ask_line(all, prompt, model, images) && spread(all) == line.skip(1) {
        let all = choose|all: Seq<Given>| #[trigger]
            is_ask_line(all, prompt, model, images) && spread(all) == line.skip(1);
        assert(none + all_of(all, "--image"@) =~= all_of(all, "--image"@));
        lemma_ask_meant(line, 1, None, None, none, all, command);
    }
}

proof fn lemma_words()
    ensures
        "ask"@ != "--version"@ && "ask"@ != "-V"@ && "ask"@ != "--help"@ && "ask"@ != "-h"@,
        "session"@ != "--version"@ && "session"@ != "-V"@ && "session"@ != "--help"@ && "session"@
            != "-h"@ && "session"@ != "ask"@,
        "exchange"@ != "--version"@ && "exchange"@ != "-V"@ && "exchange"@ != "--help"@
            && "exchange"@ != "-h"@ && "exchange"@ != "ask"@ && "exchange"@ != "session"@
            && "exchange"@ != "log"@,
        "log"@ != "--version"@ && "log"@ != "-V"@ && "log"@ != "--help"@ && "log"@ != "-h"@
            && "log"@ != "ask"@ && "log"@ != "session"@,
        "show"@ != "replay"@,
{
    reveal_strlit("ask");
    reveal_strlit("session");
    reveal_strlit("exchange");
    reveal_strlit("log");
    reveal_strlit("--version");
    reveal_strlit("-V");
    reveal_strlit("--help");
    reveal_strlit("-h");
    reveal_strlit("show");
    reveal_strlit("replay");
    assert("ask"@[0] == 'a' && "session"@[0] == 's' && "exchange"@[0] == 'e' && "log"@[0] == 'l');
    assert("--version"@[0] == '-' && "-V"@[0] == '-' && "--help"@[0] == '-' && "-h"@[0] == '-');
    assert("show"@[0] == 's' && "replay"@[0] == 'r');
}

// ---------------------------------------------------------------------------
// session

/// Whether every thing given is a flag of `flags` with a value.
pub open spec fn are_flags(all: Seq<Given>, flags: Seq<Seq<char>>) -> bool {
    forall|i: int|
        0 <= i < all.len() ==> (#[trigger] all[i] matches Given::Valued(flag, _) && flags.contains(
            flag,
        ))
}

proof fn lemma_flags_cut(all: Seq<Given>, flags: Seq<Seq<char>>)
    requires
        are_flags(all, flags),
        all.len() > 0,
    ensures
        are_flags(all.skip(1), flags),
        all[0] is Valued,
        flags.contains(all[0]->Valued_0),
{
    assert forall|i: int| 0 <= i < all.skip(1).len() implies (
    #[trigger] all.skip(1)[i] matches Given::Valued(flag, _) && flags.contains(flag)) by {
        assert(all.skip(1)[i] == all[i + 1]);
    }
}

proof fn lemma_flags_grow(first: Given, rest: Seq<Given>, flags: Seq<Seq<char>>)
    requires
        are_flags(rest, flags),
        first matches Given::Valued(flag, _) && flags.contains(flag),
    ensures
        are_flags(seq![first] + rest, flags),
{
    let all = seq![first] + rest;
    assert forall|i: int| 0 <= i < all.len() implies (#[trigger] all[i] matches Given::Valued(
        flag,
        _,
    ) && flags.contains(flag)) by {
        if i > 0 {
            assert(all[i] == rest[i - 1]);
        }
    }
}

/// The flags of `session`.
pub open spec fn session_flags() -> Seq<Seq<char>> {
    seq!["--resume"@, "--session"@]
}

proof fn lemma_session_flags()
    ensures
        "--resume"@ != "--session"@,
        session_flags().contains("--resume"@),
        session_flags().contains("--session"@),
        forall|flag: Seq<char>|
            session_flags().contains(flag) ==> flag == "--resume"@ || flag == "--session"@,
{
    reveal_strlit("--resume");
    reveal_strlit("--session");
    assert("--resume"@.len() == 8 && "--session"@.len() == 9);
    assert(session_flags()[0] == "--resume"@);
    assert(session_flags()[1] == "--session"@);
}

/// What `session` comes to with a trail and a session id.
pub open spec fn session_of(file: Option<Seq<char>>, id: Option<Seq<char>>) -> Option<CommandView> {
    match (file, id) {
        (Some(file), id) => Some(
            CommandView::Session { resume: Some(ResumeView { file, session_id: id }) },
        ),
        (None, None) => Some(CommandView::Session { resume: None }),
        (None, Some(_)) => None,
    }
}

proof fn lemma_session_args(
    line: Seq<Seq<char>>,
    i: int,
    file: Option<Seq<char>>,
    id: Option<Seq<char>>,
) -> (all: Seq<Given>)
    requires
        0 <= i <= line.len(),
        session_meaning(line, i, file, id) is Ok,
    ensures
        spread(all) == line.skip(i),
        are_flags(all, session_flags()),
        Some(session_meaning(line, i, file, id)->Ok_0) == session_of(
            or_else(last_of(all, "--resume"@), file),
            or_else(last_of(all, "--session"@), id),
        ),
    decreases line.len() - i,
{
    lemma_session_flags();
    if i >= line.len() {
        let none = Seq::<Given>::empty();
        assert(spread(none) =~= line.skip(i));
        none
    } else {
        let first = Given::Valued(line[i], line[i + 1]);
        let rest = if line[i] == "--resume"@ {
            lemma_session_args(line, i + 2, Some(line[i + 1]), id)
        } else {
            lemma_session_args(line, i + 2, file, Some(line[i + 1]))
        };
        lemma_first(first, rest);
        lemma_flags_grow(first, rest, session_flags());
        assert(spread(seq![first] + rest) =~= line.skip(i));
        seq![first] + rest
    }
}

proof fn lemma_session_meant(
    line: Seq<Seq<char>>,
    i: int,
    file: Option<Seq<char>>,
    id: Option<Seq<char>>,
    all: Seq<Given>,
)
    requires
        0 <= i <= line.len(),
        spread(all) == line.skip(i),
        are_flags(all, session_flags()),
    ensures
        session_meaning(line, i, file, id) is Ok ==> Some(
            session_meaning(line, i, file, id)->Ok_0,
        ) == session_of(
            or_else(last_of(all, "--resume"@), file),
            or_else(last_of(all, "--session"@), id),
        ),
        session_meaning(line, i, file, id) is Err ==> session_of(
            or_else(last_of(all, "--resume"@), file),
            or_else(last_of(all, "--session"@), id),
        ) is None,
    decreases all.len(),
{
    lemma_session_flags();
    if all.len() == 0 {
        assert(line.skip(i).len() == 0);
    } else {
        let rest = all.skip(1);
        lemma_flags_cut(all, session_flags());
        assert(all =~= seq![all[0]] + rest);
        lemma_first(all[0], rest);
        let (flag, value) = (all[0]->Valued_0, all[0]->Valued_1);
        assert(line.skip(i) == seq![flag, value] + spread(rest));
        lemma_skipped(line, i, words_of(all[0]), spread(rest));
        assert(line[i] == words_of(all[0])[0] && line[i + 1] == words_of(all[0])[1]);
        if flag == "--resume"@ {
            lemma_session_meant(line, i + 2, Some(value), id, rest);
        } else {
            lemma_session_meant(line, i + 2, file, Some(value), rest);
        }
    }
}

/// `session` resumes the trail that `--resume` names last, and of it the session that
/// `--session` names last; it starts afresh without a trail, and takes nothing else.
pub proof fn law_session_resumes_what_is_named(line: Seq<Seq<char>>, command: CommandView)
    requires
        line.len() > 0,
        line[0] == "session"@,
    ensures
        command_meaning(line) == Ok::<Option<CommandView>, Seq<char>>(Some(command)) <==> exists|
            all: Seq<Given>,
        |
            {
                &&& #[trigger] are_flags(all, session_flags())
                &&& spread(all) == line.skip(1)
                &&& session_of(last_of(all, "--resume"@), last_of(all, "--session"@)) == Some(
                    command,
                )
            },
{
    lemma_words();
    if session_meaning(line, 1, None, None) is Ok {
        let all = lemma_session_args(line, 1, None, None);
        assert(are_flags(all, session_flags()));
    }
    if exists|all: Seq<Given>|
        {
            &&& #[trigger] are_flags(all, session_flags())
            &&& spread(all) == line.skip(1)
            &&& session_of(last_of(all, "--resume"@), last_of(all, "--session"@)) == Some(command)
        } {
        let all = choose|all: Seq<Given>|
            {
                &&& #[trigger] are_flags(all, session_flags())
                &&& spread(all) == line.skip(1)
                &&& session_of(last_of(all, "--resume"@), last_of(all, "--session"@)) == Some(
                    command,
                )
            };
        lemma_session_meant(line, 1, None, None, all);
    }
}

// ---------------------------------------------------------------------------
// log

/// The number of an exchange is a whole number from one on.
pub proof fn law_exchange_numbers_start_at_one(raw: Seq<char>, n: usize)
    ensures
        index_meaning(raw) == Ok::<usize, Seq<char>>(n) <==> n > 0 && ((raw.len() > 0 && writes(
            raw,
            n as nat,
        )) || (raw.len() > 1 && raw[0] == '+' && writes(raw.skip(1), n as nat))),
{
    law_numbers_are_read_as_they_are_written(raw, usize::MAX as nat, n as nat);
}

proof fn lemma_log_args(
    line: Seq<Seq<char>>,
    i: int,
    allow_index: bool,
    file: Option<Seq<char>>,
    index: Option<usize>,
) -> (all: Seq<Given>)
    requires
        0 <= i <= line.len(),
        log_meaning(line, i, allow_index, file, index) is Ok,
    ensures
        spread(all) == line.skip(i),
        forall|k: int|
            0 <= k < all.len() ==> (#[trigger] all[k] matches Given::Valued(flag, value) && (flag
                == "--file"@ || (allow_index && flag == "--index"@ && index_meaning(value) is Ok))),
        log_meaning(line, i, allow_index, file, index)->Ok_0.0 == or_else(
            last_of(all, "--file"@),
            file,
        ),
        log_meaning(line, i, allow_index, file, index)->Ok_0.1 == (match last_of(
            all,
            "--index"@,
        ) {
            Some(raw) => Some(index_meaning(raw)->Ok_0),
            None => index,
        }),
    decreases line.len() - i,
{
    reveal_strlit("--file");
    reveal_strlit("--index");
    assert("--file"@.len() == 6 && "--index"@.len() == 7);
    if i >= line.len() {
        let none = Seq::<Given>::empty();
        assert(spread(none) =~= line.skip(i));
        none
    } else {
        let first = Given::Valued(line[i], line[i + 1]);
        let rest = if line[i] == "--file"@ {
            lemma_log_args(line, i + 2, allow_index, Some(line[i + 1]), index)
        } else {
            lemma_log_args(line, i + 2, allow_index, file, Some(index_meaning(line[i + 1])->Ok_0))
        };
        lemma_first(first, rest);
        let all = seq![first] + rest;
        assert(spread(all) =~= line.skip(i));
        assert forall|k: int| 0 <= k < all.len() implies (
        #[trigger] all[k] matches Given::Valued(flag, value) && (flag == "--file"@ || (allow_index
            && flag == "--index"@ && index_meaning(value) is Ok))) by {
            if k > 0 {
                assert(all[k] == rest[k - 1]);
            }
        }
        all
    }
}

/// `log show` and `log replay` read the trail that `--file` names last; `replay` takes
/// the number that `--index` gives last, and neither takes anything else.
pub proof fn law_log_reads_what_is_named(line: Seq<Seq<char>>)
    requires
        line.len() > 1,
        line[0] == "log"@,
    ensures
        command_meaning(line) matches Ok(command) ==> exists|all: Seq<Given>|
            {
                &&& #[trigger] spread(all) == line.skip(2)
                &&& match command {
                    Some(CommandView::LogShow { file }) => line[1] == "show"@ && file == last_of(
                        all,
                        "--file"@,
                    ) && last_of(all, "--index"@) is None,
                    Some(CommandView::LogReplay { file, index }) => line[1] == "replay"@ && file
                        == last_of(all, "--file"@) && index == (match last_of(all, "--index"@) {
                        Some(raw) => Some(index_meaning(raw)->Ok_0),
                        None => None,
                    }),
                    _ => false,
                }
            },
{
    lemma_words();
    reveal_strlit("--file");
    reveal_strlit("--index");
    assert("--file"@.len() == 6 && "--index"@.len() == 7);
    if command_meaning(line) is Ok {
        let allow = line[1] == "replay"@;
        let all = lemma_log_args(line, 2, allow, None, None);
        if !allow {
            lemma_no_index(all);
        }
        assert(spread(all) == line.skip(2));
    }
}

proof fn lemma_no_index(all: Seq<Given>)
    requires
        forall|k: int|
            0 <= k < all.len() ==> (#[trigger] all[k] matches Given::Valued(flag, _) && flag
                == "--file"@),
    ensures
        last_of(all, "--index"@) is None,
    decreases all.len(),
{
    reveal_strlit("--file");
    reveal_strlit("--index");
    assert("--file"@.len() == 6 && "--index"@.len() == 7);
    if all.len() > 0 {
        assert forall|k: int| 0 <= k < all.skip(1).len() implies (
        #[trigger] all.skip(1)[k] matches Given::Valued(flag, _) && flag == "--file"@) by {
            assert(all.skip(1)[k] == all[k + 1]);
        }
        lemma_no_index(all.skip(1));
    }
}

/// A replay takes the exchange of the number given, counted from one, or the last one.
pub proof fn law_replays_take_the_exchange_asked_for(count: nat, index: Option<usize>)
    ensures
        match exchange_choice(count, index) {
            Ok(place) => 0 <= place < count && match index {
                Some(n) => place + 1 == n,
                None => place + 1 == count,
            },
            Err(_) => count == 0 || (index is Some && (index.unwrap() == 0 || index.unwrap()
                > count)),
        },
{
}

// ---------------------------------------------------------------------------
// exchange

proof fn lemma_exchange_args(
    line: Seq<Seq<char>>,
    i: int,
    in_path: Option<Seq<char>>,
    out_path: Option<Seq<char>>,
    session: Option<ExchangeSessionView>,
    id_out: Option<Seq<char>>,
) -> (all: Seq<Given>)
    requires
        0 <= i <= line.len(),
        exchange_meaning(line, i, in_path, out_path, session, id_out) is Ok,
    ensures
        spread(all) == line.skip(i),
        is_exchange_line(
            all,
            in_path,
            out_path,
            session,
            id_out,
            exchange_meaning(line, i, in_path, out_path, session, id_out)->Ok_0,
        ),
    decreases line.len() - i,
{
    lemma_exchange_flags();
    if i >= line.len() {
        let none = Seq::<Given>::empty();
        assert(spread(none) =~= line.skip(i));
        none
    } else if line[i] == "--new-session"@ {
        let rest = lemma_exchange_args(
            line,
            i + 1,
            in_path,
            out_path,
            Some(ExchangeSessionView::New),
            id_out,
        );
        let first = Given::Bare(line[i]);
        lemma_first(first, rest);
        assert(spread(seq![first] + rest) =~= line.skip(i));
        assert(bare_of(seq![first] + rest) =~= seq!["--new-session"@]);
        seq![first] + rest
    } else {
        let first = Given::Valued(line[i], line[i + 1]);
        let value = Some(line[i + 1]);
        let rest = if line[i] == "--in"@ {
            lemma_exchange_args(line, i + 2, value, out_path, session, id_out)
        } else if line[i] == "--out"@ {
            lemma_exchange_args(line, i + 2, in_path, value, session, id_out)
        } else if line[i] == "--session"@ {
            lemma_exchange_args(
                line,
                i + 2,
                in_path,
                out_path,
                Some(ExchangeSessionView::Existing(line[i + 1])),
                id_out,
            )
        } else {
            lemma_exchange_args(line, i + 2, in_path, out_path, session, value)
        };
        lemma_first(first, rest);
        assert(spread(seq![first] + rest) =~= line.skip(i));
        if line[i] == "--session"@ {
            assert(all_of(seq![first] + rest, "--session"@) =~= seq![line[i + 1]]);
        }
        seq![first] + rest
    }
}

proof fn lemma_exchange_flags()
    ensures
        "--in"@ != "--out"@ && "--in"@ != "--session"@ && "--in"@ != "--new-session"@ && "--in"@
            != "--session-id-out"@,
        "--out"@ != "--session"@ && "--out"@ != "--new-session"@ && "--out"@ != "--session-id-out"@,
        "--session"@ != "--new-session"@ && "--session"@ != "--session-id-out"@,
        "--new-session"@ != "--session-id-out"@,
{
    reveal_strlit("--in");
    reveal_strlit("--out");
    reveal_strlit("--session");
    reveal_strlit("--new-session");
    reveal_strlit("--session-id-out");
    assert("--in"@.len() == 4 && "--out"@.len() == 5 && "--session"@.len() == 9
        && "--new-session"@.len() == 13 && "--session-id-out"@.len() == 16);
}

/// Whether the things given to `exchange`, after those that gave `in_path`, `out_path`,
/// `session` and `id_out`, come to `command`.
///
/// The paths are those given last. There is one session at most, a named or a new one,
/// and its id is written out only where there is one.
pub open spec fn is_exchange_line(
    all: Seq<Given>,
    in_path: Option<Seq<char>>,
    out_path: Option<Seq<char>>,
    session: Option<ExchangeSessionView>,
    id_out: Option<Seq<char>>,
    command: CommandView,
) -> bool {
    let named = all_of(all, "--session"@);
    let fresh = bare_of(all);
    command matches CommandView::Exchange {
        in_path: i,
        out_path: o,
        session: s,
        session_id_out: w,
    } && i == or_else(last_of(all, "--in"@), in_path) && o == or_else(
        last_of(all, "--out"@),
        out_path,
    ) && w == or_else(last_of(all, "--session-id-out"@), id_out) && (w is Some ==> s is Some)
        && named.len() + fresh.len() + (if session is Some {
        1nat
    } else {
        0
    }) <= 1 && s == (if named.len() > 0 {
        Some(ExchangeSessionView::Existing(named[0]))
    } else if fresh.len() > 0 {
        Some(ExchangeSessionView::New)
    } else {
        session
    }) && (fresh.len() > 0 ==> fresh[0] == "--new-session"@)
}

/// `exchange` reads and writes where it is told last, and answers within the one
/// session that it is given, if it is given one.
pub proof fn law_exchange_takes_one_session(line: Seq<Seq<char>>)
    requires
        line.len() > 0,
        line[0] == "exchange"@,
    ensures
        command_meaning(line) matches Ok(command) ==> command is Some && exists|all: Seq<Given>|
            #[trigger] spread(all) == line.skip(1) && is_exchange_line(
                all,
                None,
                None,
                None,
                None,
                command.unwrap(),
            ),
{
    lemma_words();
    if command_meaning(line) is Ok {
        let all = lemma_exchange_args(line, 1, None, None, None, None);
        assert(spread(all) == line.skip(1));
    }
}

// ---------------------------------------------------------------------------
// Places

/// The trail that the log commands read is the one named, or else the configured one;
/// a blank name is none.
pub proof fn law_logs_are_named_or_configured(
    file: Option<Seq<char>>,
    configured: Option<Seq<char>>,
)
    ensures
        ({
            let named = file is Some && trimmed(file.unwrap()).len() > 0;
            let set = configured is Some && trimmed(configured.unwrap()).len() > 0;
            log_path(file, configured) == if named {
                file
            } else if set {
                configured
            } else {
                None
            }
        }),
{
}

/// The session store is where its variable says; else below the state directory; else
/// below the home directory.
pub proof fn law_the_store_has_one_place(
    session_dir: Option<Seq<char>>,
    state_home: Option<Seq<char>>,
    home: Option<Seq<char>>,
    profile: Option<Seq<char>>,
)
    ensures
        match store_choice(session_dir, state_home, home, profile) {
            Ok((base, below)) => if session_dir is Some {
                base == session_dir.unwrap() && base.len() > 0 && below.len() == 0
            } else if state_home is Some && state_home.unwrap().len() > 0 {
                base == state_home.unwrap() && below == seq!["leg"@, "sessions"@]
            } else {
                &&& below == seq![".local"@, "state"@, "leg"@, "sessions"@]
                &&& if home is Some && home.unwrap().len() > 0 {
                    base == home.unwrap()
                } else {
                    profile == Some(base) && base.len() > 0
                }
            },
            Err(_) => (session_dir is Some && session_dir.unwrap().len() == 0) || (session_dir
                is None && (state_home is None || state_home.unwrap().len() == 0) && (home is None
                || home.unwrap().len() == 0) && (profile is None || profile.unwrap().len() == 0)),
        },
{
}

/// An id names a file of the store only where it is made of letters, digits, hyphens
/// and underscores: it names no other directory.
pub proof fn law_session_files_stay_in_the_store(id: Seq<char>)
    requires
        is_safe_id(id),
    ensures
        id.len() > 0,
        !id.contains('/'),
        !id.contains('.'),
        !id.contains('\\'),
        !id.contains(' '),
        !id.contains('\0'),
{
    assert forall|i: int| 0 <= i < id.len() implies id[i] != '/' && id[i] != '.' && id[i] != '\\'
        && id[i] != ' ' && id[i] != '\0' by {
        assert(crate::cli::is_id_char(id[i]));
    }
}

/// The first argument is the command, and the rest is for that command to read. Without
/// arguments nothing is asked for, and a word that is no command is refused.
pub proof fn law_the_first_word_is_the_command(args: Seq<Seq<char>>)
    ensures
        args.len() == 0 ==> (command_meaning(args) matches Ok(None)),
        args.len() > 0 ==> {
            let meant = command_meaning(args);
            let word = args[0];
            &&& word == "--version"@ || word == "-V"@ ==> (meant matches Ok(Some(command))
                && command is Version)
            &&& word == "--help"@ || word == "-h"@ ==> (meant matches Ok(Some(command))
                && command is Help)
            &&& word == "ask"@ ==> is_command_of(meant, ask_meaning(args, 1, None, None, seq![]))
            &&& word == "session"@ ==> is_command_of(meant, session_meaning(args, 1, None, None))
            &&& word == "log"@ ==> is_command_of(meant, log_command_meaning(args, 1))
            &&& word == "exchange"@ ==> is_command_of(
                meant,
                exchange_meaning(args, 1, None, None, None, None),
            )
            &&& !seq![
                "--version"@,
                "-V"@,
                "--help"@,
                "-h"@,
                "ask"@,
                "session"@,
                "log"@,
                "exchange"@,
            ].contains(word) ==> meant is Err
        },
{
    reveal_strlit("--version");
    reveal_strlit("-V");
    reveal_strlit("--help");
    reveal_strlit("-h");
    reveal_strlit("ask");
    reveal_strlit("session");
    reveal_strlit("log");
    reveal_strlit("exchange");
    assert("--version"@.len() == 9 && "-V"@.len() == 2 && "--help"@.len() == 6 && "-h"@.len() == 2
        && "ask"@.len() == 3 && "session"@.len() == 7 && "log"@.len() == 3 && "exchange"@.len()
        == 8);
    assert("-V"@[1] != "-h"@[1] && "ask"@[0] != "log"@[0]);
    let words = seq![
        "--version"@,
        "-V"@,
        "--help"@,
        "-h"@,
        "ask"@,
        "session"@,
        "log"@,
        "exchange"@,
    ];
    assert(words[0] == "--version"@ && words[1] == "-V"@ && words[2] == "--help"@ && words[3]
        == "-h"@ && words[4] == "ask"@ && words[5] == "session"@ && words[6] == "log"@ && words[7]
        == "exchange"@);
    if args.len() > 0 && !words.contains(args[0]) {
        assert(args[0] != words[0] && args[0] != words[1] && args[0] != words[2] && args[0]
            != words[3] && args[0] != words[4] && args[0] != words[5] && args[0] != words[6]
            && args[0] != words[7]);
    }
}

/// Whether the line means what the command's own arguments mean.
pub open spec fn is_command_of(
    meant: core::result::Result<Option<CommandView>, Seq<char>>,
    own: core::result::Result<CommandView, Seq<char>>,
) -> bool {
    match (meant, own) {
        (Ok(Some(command)), Ok(asked)) => command == asked,
        (Err(message), Err(fault)) => message == fault,
        _ => false,
    }
}

} // verus!
