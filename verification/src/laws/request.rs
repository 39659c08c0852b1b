//! What goes to the provider.

use vstd::prelude::*;

use crate::config::Credential;
use crate::error::LegError;
use crate::image_input::image_fault;
use crate::json::{field, json_text, value, JsonTree, JsonValue, NumberTree};
use crate::laws::json::{
    law_list_means_its_items, law_no_member_no_field, law_the_last_member_counts,
};
use crate::model::{
    single_text, tool_spec_tree, AssistantReply, BlockView, ContentBlock, ImageSource, Message,
    Role, ToolSpec,
};
use crate::text::{opt_view, views};
use crate::transport::claude::{
    auth_pair, body_of, endpoint_url, exchanged, is_exchange, is_response, message_tree,
    message_trees, request_headers, request_tree, tool_trees, without_slashes, ClaudeClient,
};
use crate::transport::http::{HttpCall, HttpClient};
use crate::transport::TransportCall;
use crate::wire::{block_members, block_tree, block_trees, decode_block, source_members};

verus! {

/// What a block says, member by member.
pub open spec fn said_by(block: ContentBlock) -> BlockView {
    match block {
        ContentBlock::Text { text } => BlockView::Text { text: text@ },
        ContentBlock::ToolUse { id, name, input } => BlockView::ToolUse {
            id: id@,
            name: name@,
            input: value(input@),
        },
        ContentBlock::ToolResult { tool_use_id, content, is_error } => BlockView::ToolResult {
            tool_use_id: tool_use_id@,
            content: content@,
            is_error,
        },
        ContentBlock::Image { source: ImageSource::Base64 { media_type, data } } =>
            BlockView::Image { media_type: media_type@, data: data@ },
        ContentBlock::Thinking { thinking, signature } => BlockView::Thinking {
            thinking: thinking@,
            signature: signature@,
        },
    }
}

/// Whether the member `key` of `v` is the text `text`.
pub open spec fn says(v: JsonValue, key: Seq<char>, text: Seq<char>) -> bool {
    field(v, key) == Some(JsonValue::Text(text))
}

/// Whether `v` is the wire form of a block: an object whose `type` tells what it is,
/// with the members of that type.
pub open spec fn is_wire_form(v: JsonValue, block: BlockView) -> bool {
    match block {
        BlockView::Text { text } => says(v, "type"@, "text"@) && says(v, "text"@, text),
        BlockView::ToolUse { id, name, input } => says(v, "type"@, "tool_use"@) && says(
            v,
            "id"@,
            id,
        ) && says(v, "name"@, name) && field(v, "input"@) == Some(input),
        BlockView::ToolResult { tool_use_id, content, is_error } => says(
            v,
            "type"@,
            "tool_result"@,
        ) && says(v, "tool_use_id"@, tool_use_id) && says(v, "content"@, content) && (
        match is_error {
            Some(flag) => field(v, "is_error"@) == Some(JsonValue::Bool(flag)),
            None => field(v, "is_error"@) is None || field(v, "is_error"@) == Some(JsonValue::Null),
        }),
        BlockView::Image { media_type, data } => says(v, "type"@, "image"@) && (field(
            v,
            "source"@,
        ) matches Some(source) && says(source, "type"@, "base64"@) && says(
            source,
            "media_type"@,
            media_type,
        ) && says(source, "data"@, data)),
        BlockView::Thinking { thinking, signature } => says(v, "type"@, "thinking"@) && says(
            v,
            "thinking"@,
            thinking,
        ) && says(v, "signature"@, signature),
    }
}

pub proof fn reveal_block_words()
    ensures
        "type"@ != "text"@,
        "type"@ != "id"@,
        "type"@ != "name"@,
        "type"@ != "input"@,
        "id"@ != "name"@,
        "id"@ != "input"@,
        "name"@ != "input"@,
        "type"@ != "tool_use_id"@,
        "type"@ != "content"@,
        "type"@ != "is_error"@,
        "tool_use_id"@ != "content"@,
        "tool_use_id"@ != "is_error"@,
        "content"@ != "is_error"@,
        "type"@ != "source"@,
        "type"@ != "media_type"@,
        "type"@ != "data"@,
        "media_type"@ != "data"@,
        "type"@ != "thinking"@,
        "type"@ != "signature"@,
        "thinking"@ != "signature"@,
        "text"@ != "tool_use"@,
        "text"@ != "tool_result"@,
        "text"@ != "image"@,
        "text"@ != "thinking"@,
        "tool_use"@ != "tool_result"@,
        "tool_use"@ != "image"@,
        "tool_use"@ != "thinking"@,
        "tool_result"@ != "image"@,
        "tool_result"@ != "thinking"@,
        "image"@ != "thinking"@,
{
    reveal_strlit("type");
    reveal_strlit("text");
    reveal_strlit("id");
    reveal_strlit("name");
    reveal_strlit("input");
    reveal_strlit("tool_use_id");
    reveal_strlit("content");
    reveal_strlit("is_error");
    reveal_strlit("source");
    reveal_strlit("media_type");
    reveal_strlit("data");
    reveal_strlit("thinking");
    reveal_strlit("signature");
    reveal_strlit("tool_use");
    reveal_strlit("tool_result");
    reveal_strlit("image");
    assert("type"@.len() == 4
        && "text"@.len() == 4
        && "id"@.len() == 2
        && "name"@.len() == 4
        && "input"@.len() == 5
        && "tool_use_id"@.len() == 11
        && "content"@.len() == 7
        && "is_error"@.len() == 8
        && "source"@.len() == 6
        && "media_type"@.len() == 10
        && "data"@.len() == 4
        && "thinking"@.len() == 8
        && "signature"@.len() == 9
        && "tool_use"@.len() == 8
        && "tool_result"@.len() == 11
        && "image"@.len() == 5);
    assert("type"@[1] != "text"@[1]);
    assert("type"@[0] != "name"@[0]);
    assert("type"@[0] != "data"@[0]);
    assert("tool_use"@[1] != "thinking"@[1]);
}

/// A block goes out in the wire form of what it says.
pub proof fn law_blocks_go_out_in_their_wire_form(block: ContentBlock)
    ensures
        block@ == said_by(block),
        is_wire_form(value(block_tree(block)), said_by(block)),
{
    reveal_block_words();
    let members = block_members(block);
    match block {
        ContentBlock::Text { .. } => {
            assert(members.len() == 2 && members[0].0 == "type"@ && members[1].0 == "text"@);
            law_the_last_member_counts(members, 0);
            law_the_last_member_counts(members, 1);
        },
        ContentBlock::ToolUse { .. } => {
            assert(members.len() == 4 && members[0].0 == "type"@ && members[1].0 == "id"@
                && members[2].0 == "name"@ && members[3].0 == "input"@);
            law_the_last_member_counts(members, 0);
            law_the_last_member_counts(members, 1);
            law_the_last_member_counts(members, 2);
            law_the_last_member_counts(members, 3);
        },
        ContentBlock::ToolResult { is_error, .. } => {
            assert(members.len() == (if is_error is Some {
                4int
            } else {
                3int
            }));
            assert(members[0].0 == "type"@ && members[1].0 == "tool_use_id"@ && members[2].0
                == "content"@ && (is_error is Some ==> members[3].0 == "is_error"@));
            law_the_last_member_counts(members, 0);
            law_the_last_member_counts(members, 1);
            law_the_last_member_counts(members, 2);
            if is_error is Some {
                law_the_last_member_counts(members, 3);
            } else {
                law_no_member_no_field(members, "is_error"@);
            }
        },
        ContentBlock::Image { source: ImageSource::Base64 { media_type, data } } => {
            assert(members.len() == 2 && members[0].0 == "type"@ && members[1].0 == "source"@);
            law_the_last_member_counts(members, 0);
            law_the_last_member_counts(members, 1);
            let inner = source_members(media_type@, data@);
            assert(inner.len() == 3 && inner[0].0 == "type"@ && inner[1].0 == "media_type"@
                && inner[2].0 == "data"@);
            law_the_last_member_counts(inner, 0);
            law_the_last_member_counts(inner, 1);
            law_the_last_member_counts(inner, 2);
        },
        ContentBlock::Thinking { .. } => {
            assert(members.len() == 3 && members[0].0 == "type"@ && members[1].0 == "thinking"@
                && members[2].0 == "signature"@);
            law_the_last_member_counts(members, 0);
            law_the_last_member_counts(members, 1);
            law_the_last_member_counts(members, 2);
        },
    }
}

/// A value reads as a block exactly where it is the wire form of one, and then as
/// that one.
pub proof fn law_blocks_read_from_their_wire_form(v: JsonValue, block: BlockView)
    ensures
        decode_block(v) == Ok::<BlockView, Seq<char>>(block) <==> is_wire_form(v, block),
{
    reveal_block_words();
}

/// Whether `content` is how the blocks of a turn go out: a lone text as it is, and
/// anything else as the list of the blocks.
pub open spec fn is_wire_content(content: JsonValue, blocks: Seq<ContentBlock>) -> bool {
    if blocks.len() == 1 && blocks[0] is Text {
        content == JsonValue::Text(blocks[0]->Text_text@)
    } else {
        content matches JsonValue::List(items) && items.len() == blocks.len() && forall|i: int|
            0 <= i < blocks.len() ==> is_wire_form(#[trigger] items[i], said_by(blocks[i]))
    }
}

/// Whether `v` is the wire form of a turn.
pub open spec fn is_wire_message(v: JsonValue, message: Message) -> bool {
    &&& says(v, "role"@, match message.role {
        Role::User => "user"@,
        Role::Assistant => "assistant"@,
    })
    &&& field(v, "content"@) matches Some(content) && is_wire_content(content, message.content@)
}

/// Whether `v` is the wire form of a declared tool.
pub open spec fn is_wire_tool(v: JsonValue, tool: ToolSpec) -> bool {
    &&& says(v, "name"@, tool.name@)
    &&& says(v, "description"@, tool.description@)
    &&& field(v, "input_schema"@) == Some(value(tool.input_schema@))
}

proof fn lemma_message(message: Message)
    ensures
        is_wire_message(value(message_tree(message)), message),
{
    reveal_strlit("role");
    reveal_strlit("content");
    let members = message_tree(message)->Object_0;
    let blocks = message.content@;
    assert("role"@.len() == 4 && "content"@.len() == 7);
    assert(members.len() == 2 && members[0].0 == "role"@ && members[1].0 == "content"@);
    law_the_last_member_counts(members, 0);
    law_the_last_member_counts(members, 1);
    if blocks.len() == 1 {
        law_blocks_go_out_in_their_wire_form(blocks[0]);
        assert(views(blocks)[0] == blocks[0]@);
    }
    if single_text(views(blocks)) is None {
        let trees = block_trees(blocks);
        law_list_means_its_items(trees);
        let items = value(JsonTree::List(trees))->List_0;
        assert forall|i: int| 0 <= i < blocks.len() implies is_wire_form(
            #[trigger] items[i],
            said_by(blocks[i]),
        ) by {
            law_blocks_go_out_in_their_wire_form(blocks[i]);
            assert(value(JsonTree::List(trees))->List_0[i] == value(trees[i]));
        }
    }
}

proof fn lemma_tool(tool: ToolSpec)
    ensures
        is_wire_tool(value(tool_spec_tree(tool)), tool),
{
    reveal_strlit("name");
    reveal_strlit("description");
    reveal_strlit("input_schema");
    let members = tool_spec_tree(tool)->Object_0;
    assert("name"@.len() == 4 && "description"@.len() == 11 && "input_schema"@.len() == 12);
    assert(members.len() == 3 && members[0].0 == "name"@ && members[1].0 == "description"@
        && members[2].0 == "input_schema"@);
    law_the_last_member_counts(members, 0);
    law_the_last_member_counts(members, 1);
    law_the_last_member_counts(members, 2);
}

/// Whether `field` holds the wire forms of all of `messages`, in order.
pub open spec fn are_wire_messages(found: Option<JsonValue>, messages: Seq<Message>) -> bool {
    found matches Some(JsonValue::List(items)) && items.len() == messages.len() && forall|i: int|
        0 <= i < messages.len() ==> is_wire_message(#[trigger] items[i], messages[i])
}

/// Whether `field` holds the wire forms of all of `tools`, in order; nothing, where
/// there are none.
pub open spec fn are_wire_tools(found: Option<JsonValue>, tools: Seq<ToolSpec>) -> bool {
    if tools.len() == 0 {
        found is None
    } else {
        found matches Some(JsonValue::List(items)) && items.len() == tools.len() && forall|i: int|
            0 <= i < tools.len() ==> is_wire_tool(#[trigger] items[i], tools[i])
    }
}

/// A request names the model and the length of the reply, and holds the system
/// prompt if there is one, every turn of the conversation in order, and every
/// declared tool in order: as many items as there are tools, each with the name, the
/// description and the schema of its tool.
pub proof fn law_request_says_what_was_asked(
    model: Seq<char>,
    max_tokens: u32,
    messages: Seq<Message>,
    system: Option<Seq<char>>,
    tools: Seq<ToolSpec>,
)
    ensures
        ({
            let v = value(request_tree(model, max_tokens, messages, system, tools));
            &&& says(v, "model"@, model)
            &&& field(v, "max_tokens"@) == Some(
                JsonValue::Number(NumberTree::Unsigned(max_tokens as u64)),
            )
            &&& match system {
                Some(prompt) => says(v, "system"@, prompt),
                None => field(v, "system"@) is None,
            }
            &&& are_wire_messages(field(v, "messages"@), messages)
            &&& are_wire_tools(field(v, "tools"@), tools)
        }),
{
    reveal_strlit("model");
    reveal_strlit("max_tokens");
    reveal_strlit("system");
    reveal_strlit("messages");
    reveal_strlit("tools");
    let members = request_tree(model, max_tokens, messages, system, tools)->Object_0;
    let shift = if system is Some {
        1int
    } else {
        0int
    };
    assert("model"@.len() == 5 && "max_tokens"@.len() == 10 && "system"@.len() == 6
        && "messages"@.len() == 8 && "tools"@.len() == 5);
    assert("model"@[0] != "tools"@[0]);
    assert(members.len() == 3 + shift + (if tools.len() > 0 {
        1int
    } else {
        0int
    }));
    assert(members[0].0 == "model"@ && members[1].0 == "max_tokens"@);
    assert(members[2 + shift].0 == "messages"@);
    assert(system is Some ==> members[2].0 == "system"@);
    assert(tools.len() > 0 ==> members[3 + shift].0 == "tools"@);
    law_the_last_member_counts(members, 0);
    law_the_last_member_counts(members, 1);
    if system is Some {
        assert(members[2].0 == "system"@);
        law_the_last_member_counts(members, 2);
    } else {
        law_no_member_no_field(members, "system"@);
    }
    law_the_last_member_counts(members, 2 + shift);
    let turns = message_trees(messages);
    law_list_means_its_items(turns);
    let sent = value(JsonTree::List(turns))->List_0;
    assert forall|i: int| 0 <= i < messages.len() implies is_wire_message(
        #[trigger] sent[i],
        messages[i],
    ) by {
        lemma_message(messages[i]);
        assert(value(JsonTree::List(turns))->List_0[i] == value(turns[i]));
    }
    if tools.len() == 0 {
        law_no_member_no_field(members, "tools"@);
    } else {
        law_the_last_member_counts(members, 3 + shift);
        let declared = tool_trees(tools);
        law_list_means_its_items(declared);
        let items = value(JsonTree::List(declared))->List_0;
        assert forall|i: int| 0 <= i < tools.len() implies is_wire_tool(
            #[trigger] items[i],
            tools[i],
        ) by {
            lemma_tool(tools[i]);
            assert(value(JsonTree::List(declared))->List_0[i] == value(declared[i]));
        }
    }
}

/// Tools of different names are declared under different names.
pub proof fn law_declared_tools_keep_their_names(
    model: Seq<char>,
    max_tokens: u32,
    messages: Seq<Message>,
    system: Option<Seq<char>>,
    tools: Seq<ToolSpec>,
    i: int,
    j: int,
)
    requires
        0 <= i < tools.len(),
        0 <= j < tools.len(),
        tools[i].name@ != tools[j].name@,
    ensures
        field(
            value(request_tree(model, max_tokens, messages, system, tools)),
            "tools"@,
        ) matches Some(JsonValue::List(items)) && field(items[i], "name"@) != field(
            items[j],
            "name"@,
        ),
{
    law_request_says_what_was_asked(model, max_tokens, messages, system, tools);
    let found = field(value(request_tree(model, max_tokens, messages, system, tools)), "tools"@);
    let items = found->Some_0->List_0;
    assert(is_wire_tool(items[i], tools[i]));
    assert(is_wire_tool(items[j], tools[j]));
}

/// The credential goes out whole, in the header of its kind, and with it the version
/// of the interface and the type of the body.
pub proof fn law_headers_carry_the_credential(credential: Credential)
    ensures
        request_headers(credential).len() == 3,
        match credential {
            Credential::ApiKey(key) => request_headers(credential).contains(("x-api-key"@, key@)),
            Credential::OAuth(token) => request_headers(credential).contains(
                ("Authorization"@, "Bearer "@ + token@),
            ),
        },
        request_headers(credential).contains(("anthropic-version"@, "2023-06-01"@)),
        request_headers(credential).contains(("content-type"@, "application/json"@)),
{
    let headers = request_headers(credential);
    assert(headers[0] == auth_pair(credential));
    assert(headers[1] == ("anthropic-version"@, "2023-06-01"@));
    assert(headers[2] == ("content-type"@, "application/json"@));
}

/// The endpoint is the base URL without the slashes at its end, and nothing else cut
/// off, then the path of the Messages interface.
pub proof fn law_endpoint_extends_the_base_url(base_url: Seq<char>)
    ensures
        exists|n: int|
            {
                &&& 0 <= n <= base_url.len()
                &&& endpoint_url(base_url) == #[trigger] base_url.take(n) + "/v1/messages"@
                &&& n > 0 ==> base_url[n - 1] != '/'
                &&& forall|k: int| n <= k < base_url.len() ==> base_url[k] == '/'
            },
    decreases base_url.len(),
{
    if base_url.len() > 0 && base_url.last() == '/' {
        let shorter = base_url.drop_last();
        law_endpoint_extends_the_base_url(shorter);
        let n = choose|n: int|
            {
                &&& 0 <= n <= shorter.len()
                &&& endpoint_url(shorter) == #[trigger] shorter.take(n) + "/v1/messages"@
                &&& n > 0 ==> shorter[n - 1] != '/'
                &&& forall|k: int| n <= k < shorter.len() ==> shorter[k] == '/'
            };
        assert(shorter.take(n) =~= base_url.take(n));
        assert forall|k: int| n <= k < base_url.len() implies base_url[k] == '/' by {
            if k < shorter.len() {
                assert(shorter[k] == '/');
            }
        }
        assert(without_slashes(base_url) == without_slashes(shorter));
        assert(endpoint_url(base_url) == base_url.take(n) + "/v1/messages"@);
    } else {
        let n = base_url.len() as int;
        assert(base_url.take(n) =~= base_url);
        assert(endpoint_url(base_url) == base_url.take(n) + "/v1/messages"@);
    }
}

/// Whether `body` is the text of a request for a reply to `messages` under `client`'s
/// configuration: with its model, its length, its system prompt and its tools.
pub open spec fn asks_for<H: HttpClient>(
    client: ClaudeClient<H>,
    messages: Seq<Message>,
    body: Seq<char>,
    t: JsonTree,
) -> bool {
    let v = value(t);
    &&& body == json_text(t)
    &&& says(v, "model"@, client.config.model@)
    &&& field(v, "max_tokens"@) == Some(
        JsonValue::Number(NumberTree::Unsigned(client.config.max_tokens as u64)),
    )
    &&& match client.config.system_prompt {
        Some(prompt) => says(v, "system"@, prompt@),
        None => field(v, "system"@) is None,
    }
    &&& are_wire_messages(field(v, "messages"@), messages)
    &&& are_wire_tools(field(v, "tools"@), client.tools@)
}

/// A reply is asked for in one call with the whole conversation, under the client's own
/// configuration and credential, and what comes back decides the result: a failed call
/// fails alike, and a response is read by its status and its body. A conversation with
/// an image that cannot go out is refused, and no call is made for it.
pub proof fn law_one_call_carries_the_whole_conversation<H: HttpClient>(
    client: ClaudeClient<H>,
    messages: Seq<Message>,
    call: TransportCall<AssistantReply>,
)
    requires
        is_exchange(client, messages, call),
    ensures
        match image_fault(messages) {
            Some(fault) => {
                &&& call.attempts == 0
                &&& call.result matches Err(LegError::Usage(text)) && text@ == fault
            },
            None => exists|url: Seq<char>, body: Seq<char>, t: JsonTree, made: HttpCall|
                {
                    &&& #[trigger] client.http.may_call(
                        url,
                        request_headers(client.config.credential),
                        body,
                        made,
                    )
                    &&& #[trigger] asks_for(client, messages, body, t)
                    &&& url == endpoint_url(client.config.base_url@)
                    &&& call.attempts == made.attempts
                    &&& match made.result {
                        Ok(response) => is_response(
                            response.status,
                            response.body@,
                            call.result,
                        ),
                        Err(error) => call.result == Err::<AssistantReply, LegError>(error),
                    }
                },
        },
{
    if image_fault(messages) is None {
        let made = choose|made: HttpCall| #[trigger] exchanged(client, messages, made, call);
        let system = opt_view(client.config.system_prompt);
        let t = request_tree(
            client.config.model@,
            client.config.max_tokens,
            messages,
            system,
            client.tools@,
        );
        law_request_says_what_was_asked(
            client.config.model@,
            client.config.max_tokens,
            messages,
            system,
            client.tools@,
        );
        assert(asks_for(client, messages, body_of(client, messages), t));
        assert(client.http.may_call(
            endpoint_url(client.config.base_url@),
            request_headers(client.config.credential),
            body_of(client, messages),
            made,
        ));
    }
}

} // verus!
