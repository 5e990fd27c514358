//! The OpenAI Responses protocol as the library speaks it: the conversation
//! flattened into input items, tools described in their native form, and one
//! response collapsed into an assistant message.

use vstd::prelude::*;
use crate::json::JsonValue;
use crate::message::{
    AssistantMessage, Message, MessageContent, StopReason, ToolDef, ToolInput, Usage,
    content_of, text_parts,
};
use crate::text::push_str;

verus! {

#[derive(Clone, Copy, Debug, PartialEq, Eq, Structural)]
pub enum Role {
    User,
    Assistant,
}

/// One item of a Responses request's input.
#[derive(Debug)]
#[allow(inconsistent_fields)]
pub enum InputItem {
    /// A message with text content.
    Message { role: Role, content: String },
    FunctionCall { call_id: String, name: String, arguments: String },
    CustomToolCall { call_id: String, name: String, input: String, id: Option<String> },
    /// A function call's output as text parts.
    FunctionCallOutput { call_id: String, output: Vec<String> },
    CustomToolCallOutput { call_id: String, output: Vec<String> },
}

/// An input item as text.
pub enum ItemView {
    Message(Role, Seq<char>),
    FunctionCall(Seq<char>, Seq<char>, Seq<char>),
    CustomToolCall(Seq<char>, Seq<char>, Seq<char>, Option<Seq<char>>),
    FunctionCallOutput(Seq<char>, Seq<Seq<char>>),
    CustomToolCallOutput(Seq<char>, Seq<Seq<char>>),
}

pub open spec fn item_view(i: InputItem) -> ItemView {
    match i {
        InputItem::Message { role, content } => ItemView::Message(role, content@),
        InputItem::FunctionCall { call_id, name, arguments } => ItemView::FunctionCall(
            call_id@,
            name@,
            arguments@,
        ),
        InputItem::CustomToolCall { call_id, name, input, id } => ItemView::CustomToolCall(
            call_id@,
            name@,
            input@,
            crate::text::opt_string_view(id),
        ),
        InputItem::FunctionCallOutput { call_id, output } => ItemView::FunctionCallOutput(
            call_id@,
            output@.map_values(|s: String| s@),
        ),
        InputItem::CustomToolCallOutput { call_id, output } => ItemView::CustomToolCallOutput(
            call_id@,
            output@.map_values(|s: String| s@),
        ),
    }
}

pub open spec fn items_view(items: Seq<InputItem>) -> Seq<ItemView> {
    items.map_values(|i: InputItem| item_view(i))
}

/// Text gathered so far becomes a message item, unless there is none.
pub open spec fn flush(items: Seq<ItemView>, text: Seq<char>, role: Role) -> Seq<ItemView> {
    if text.len() > 0 {
        items.push(ItemView::Message(role, text))
    } else {
        items
    }
}

/// The item replaying a tool call.
pub open spec fn call_view(c: MessageContent) -> ItemView {
    match c {
        MessageContent::ToolUse { id, name, input, custom, item_id } => if custom {
            ItemView::CustomToolCall(id@, name@, input@, crate::text::opt_string_view(item_id))
        } else {
            ItemView::FunctionCall(id@, name@, input@)
        },
        _ => ItemView::Message(Role::User, seq![]),
    }
}

/// Items and pending text after the blocks `cs` of a message: consecutive
/// text blocks join, a tool call first ends the text before it, reasoning
/// is left out.
pub open spec fn scan_blocks(cs: Seq<MessageContent>, role: Role) -> (Seq<ItemView>, Seq<char>)
    decreases cs.len(),
{
    if cs.len() == 0 {
        (seq![], seq![])
    } else {
        let st = scan_blocks(cs.drop_last(), role);
        match cs.last() {
            MessageContent::Text { text } => (st.0, st.1 + text@),
            MessageContent::ToolUse { .. } => (flush(st.0, st.1, role).push(call_view(cs.last())), seq![]),
            MessageContent::Thinking { .. } => st,
        }
    }
}

/// The items one message becomes: a tool result is an output item of its
/// own with its text blocks; other messages become their text and tool calls
/// in order.
pub open spec fn message_items(m: Message) -> Seq<ItemView> {
    match m {
        Message::ToolResult(r) => seq![
            if r.custom {
                ItemView::CustomToolCallOutput(r.tool_use_id@, text_parts(r.content@))
            } else {
                ItemView::FunctionCallOutput(r.tool_use_id@, text_parts(r.content@))
            },
        ],
        Message::User(u) => {
            let st = scan_blocks(u.content@, Role::User);
            flush(st.0, st.1, Role::User)
        },
        Message::Assistant(a) => {
            let st = scan_blocks(a.content@, Role::Assistant);
            flush(st.0, st.1, Role::Assistant)
        },
    }
}

pub open spec fn history_items(ms: Seq<Message>) -> Seq<ItemView>
    decreases ms.len(),
{
    if ms.len() == 0 {
        seq![]
    } else {
        history_items(ms.drop_last()) + message_items(ms.last())
    }
}

fn push_item(items: &mut Vec<InputItem>, item: InputItem)
    ensures
        items_view(final(items)@) == items_view(old(items)@).push(item_view(item)),
{
    let ghost before = items@;
    items.push(item);
    assert(items_view(items@) =~= items_view(before).push(item_view(item)));
}

fn flush_text(items: &mut Vec<InputItem>, text: &mut String, role: Role)
    ensures
        items_view(final(items)@) == flush(items_view(old(items)@), old(text)@, role),
        final(text)@ == Seq::<char>::empty(),
{
    if !text.as_str().is_empty() {
        let mut taken = String::new();
        std::mem::swap(&mut taken, text);
        push_item(items, InputItem::Message { role, content: taken });
    } else {
        assert(text@ =~= Seq::<char>::empty());
    }
}

/// The text parts of a tool result's content.
fn text_outputs(content: &[MessageContent]) -> (r: Vec<String>)
    ensures
        r@.map_values(|s: String| s@) == text_parts(content@),
{
    let mut r: Vec<String> = Vec::new();
    let mut i: usize = 0;
    while i < content.len()
        invariant
            i <= content@.len(),
            r@.map_values(|s: String| s@) == text_parts(content@.take(i as int)),
        decreases content@.len() - i,
    {
        assert(content@.take(i + 1).drop_last() =~= content@.take(i as int));
        match &content[i] {
            MessageContent::Text { text } => {
                let ghost before = r@;
                r.push(text.clone());
                assert(r@.map_values(|s: String| s@) =~= before.map_values(|s: String| s@).push(
                    text@,
                ));
            },
            _ => {},
        }
        i += 1;
    }
    assert(content@.take(content@.len() as int) =~= content@);
    r
}

fn blocks_items(items: &mut Vec<InputItem>, content: &[MessageContent], role: Role)
    ensures
        items_view(final(items)@) == items_view(old(items)@) + {
            let st = scan_blocks(content@, role);
            flush(st.0, st.1, role)
        },
{
    let ghost base = items_view(items@);
    let mut text = String::new();
    let mut i: usize = 0;
    assert(items_view(items@) =~= base + scan_blocks(content@.take(0), role).0);
    while i < content.len()
        invariant
            i <= content@.len(),
            items_view(items@) == base + scan_blocks(content@.take(i as int), role).0,
            text@ == scan_blocks(content@.take(i as int), role).1,
        decreases content@.len() - i,
    {
        assert(content@.take(i + 1).drop_last() =~= content@.take(i as int));
        let ghost st = scan_blocks(content@.take(i as int), role);
        match &content[i] {
            MessageContent::Text { text: chunk } => {
                push_str(&mut text, chunk.as_str());
            },
            MessageContent::ToolUse { id, name, input, custom, item_id } => {
                flush_text(items, &mut text, role);
                if *custom {
                    push_item(
                        items,
                        InputItem::CustomToolCall {
                            call_id: id.clone(),
                            name: name.clone(),
                            input: input.clone(),
                            id: item_id.clone(),
                        },
                    );
                } else {
                    push_item(
                        items,
                        InputItem::FunctionCall {
                            call_id: id.clone(),
                            name: name.clone(),
                            arguments: input.clone(),
                        },
                    );
                }
                assert(items_view(items@) =~= base + flush(st.0, st.1, role).push(
                    call_view(content@[i as int]),
                ));
            },
            MessageContent::Thinking { .. } => {},
        }
        i += 1;
    }
    assert(content@.take(content@.len() as int) =~= content@);
    let ghost st = scan_blocks(content@, role);
    flush_text(items, &mut text, role);
    assert(items_view(items@) =~= base + flush(st.0, st.1, role));
}

/// The conversation flattened into Responses input items, in order.
pub fn to_input_items(messages: &[Message]) -> (r: Vec<InputItem>)
    ensures
        items_view(r@) == history_items(messages@),
{
    let mut items: Vec<InputItem> = Vec::new();
    let mut i: usize = 0;
    assert(items_view(items@) =~= history_items(messages@.take(0)));
    while i < messages.len()
        invariant
            i <= messages@.len(),
            items_view(items@) == history_items(messages@.take(i as int)),
        decreases messages@.len() - i,
    {
        assert(messages@.take(i + 1).drop_last() =~= messages@.take(i as int));
        match &messages[i] {
            Message::ToolResult(result) => {
                let output = text_outputs(result.content.as_slice());
                let call_id = result.tool_use_id.clone();
                if result.custom {
                    push_item(&mut items, InputItem::CustomToolCallOutput { call_id, output });
                } else {
                    push_item(&mut items, InputItem::FunctionCallOutput { call_id, output });
                }
            },
            Message::User(m) => {
                blocks_items(&mut items, m.content.as_slice(), Role::User);
            },
            Message::Assistant(m) => {
                blocks_items(&mut items, m.content.as_slice(), Role::Assistant);
            },
        }
        assert(items_view(items@) =~= history_items(messages@.take(i as int)) + message_items(
            messages@[i as int],
        ));
        i += 1;
    }
    assert(messages@.take(messages@.len() as int) =~= messages@);
    items
}

/// How a custom tool's input is described.
#[derive(Debug)]
pub enum ToolFormat {
    Text,
    /// A Lark grammar.
    Lark(String),
}

/// A tool in the Responses protocol: a function taking JSON, or a custom
/// tool taking text.
#[derive(Debug)]
pub enum ApiTool {
    Function { name: String, description: String, parameters: JsonValue, strict: bool },
    Custom { name: String, description: String, format: ToolFormat },
}

/// A tool described in its native form: JSON tools as non-strict functions,
/// text and grammar tools as custom tools.
pub fn to_tool(tool: ToolDef) -> (r: ApiTool)
    ensures
        match tool.input {
            ToolInput::Json(parameters) => r == (ApiTool::Function {
                name: tool.name,
                description: tool.description,
                parameters,
                strict: false,
            }),
            ToolInput::Text => r == (ApiTool::Custom {
                name: tool.name,
                description: tool.description,
                format: ToolFormat::Text,
            }),
            ToolInput::Lark(definition) => r == (ApiTool::Custom {
                name: tool.name,
                description: tool.description,
                format: ToolFormat::Lark(definition),
            }),
        },
{
    let ToolDef { name, description, input } = tool;
    match input {
        ToolInput::Json(parameters) => ApiTool::Function { name, description, parameters, strict: false },
        ToolInput::Text => ApiTool::Custom { name, description, format: ToolFormat::Text },
        ToolInput::Lark(definition) => ApiTool::Custom {
            name,
            description,
            format: ToolFormat::Lark(definition),
        },
    }
}

/// How a response ended.
#[derive(Clone, Copy, Debug, PartialEq, Eq, Structural)]
pub enum ResponseStatus {
    Completed,
    Failed,
    InProgress,
    Cancelled,
    Queued,
    Incomplete,
}

/// A part of an output message.
#[derive(Debug)]
pub enum OutputPart {
    Text(String),
    Refusal(String),
}

/// One item of a response's output.
#[derive(Debug)]
#[allow(inconsistent_fields)]
pub enum OutputItem {
    Message(Vec<OutputPart>),
    FunctionCall { call_id: String, name: String, arguments: String, id: Option<String> },
    CustomToolCall { call_id: String, name: String, input: String, id: String },
    /// Reasoning, as its summary texts.
    Reasoning(Vec<String>),
    Other,
}

/// A response as the library reads it.
#[derive(Debug)]
pub struct ApiResponse {
    pub status: ResponseStatus,
    /// The message of the error the response reports, if any.
    pub error: Option<String>,
    /// Why the response is incomplete, if it says.
    pub incomplete_reason: Option<String>,
    pub output: Vec<OutputItem>,
    /// Input and output tokens.
    pub usage: Option<(u32, u32)>,
}

/// A content block as text.
pub enum BlockView {
    Text(Seq<char>),
    Thinking(Seq<char>, Option<Seq<char>>),
    ToolUse(Seq<char>, Seq<char>, Seq<char>, bool, Option<Seq<char>>),
}

pub open spec fn block_view(c: MessageContent) -> BlockView {
    match c {
        MessageContent::Text { text } => BlockView::Text(text@),
        MessageContent::Thinking { thinking, signature } => BlockView::Thinking(
            thinking@,
            crate::text::opt_string_view(signature),
        ),
        MessageContent::ToolUse { id, name, input, custom, item_id } => BlockView::ToolUse(
            id@,
            name@,
            input@,
            custom,
            crate::text::opt_string_view(item_id),
        ),
    }
}

pub open spec fn blocks_view(cs: Seq<MessageContent>) -> Seq<BlockView> {
    cs.map_values(|c: MessageContent| block_view(c))
}

pub open spec fn part_block(p: OutputPart) -> BlockView {
    match p {
        OutputPart::Text(t) => BlockView::Text(t@),
        OutputPart::Refusal(t) => BlockView::Text(t@),
    }
}

pub open spec fn concat(parts: Seq<String>) -> Seq<char>
    decreases parts.len(),
{
    if parts.len() == 0 {
        seq![]
    } else {
        concat(parts.drop_last()) + parts.last()@
    }
}

/// The blocks one output item becomes: message parts as text (a refusal
/// too), tool calls with their raw arguments, reasoning as its summaries
/// joined.
pub open spec fn item_blocks(item: OutputItem) -> Seq<BlockView> {
    match item {
        OutputItem::Message(parts) => parts@.map_values(|p: OutputPart| part_block(p)),
        OutputItem::FunctionCall { call_id, name, arguments, id } => seq![
            BlockView::ToolUse(call_id@, name@, arguments@, false, crate::text::opt_string_view(id)),
        ],
        OutputItem::CustomToolCall { call_id, name, input, id } => seq![
            BlockView::ToolUse(call_id@, name@, input@, true, Some(id@)),
        ],
        OutputItem::Reasoning(summary) => seq![BlockView::Thinking(concat(summary@), None)],
        OutputItem::Other => seq![],
    }
}

pub open spec fn output_blocks(items: Seq<OutputItem>) -> Seq<BlockView>
    decreases items.len(),
{
    if items.len() == 0 {
        seq![]
    } else {
        output_blocks(items.drop_last()) + item_blocks(items.last())
    }
}

/// A message item with a refusal among its parts.
pub open spec fn item_refuses(item: OutputItem) -> bool {
    match item {
        OutputItem::Message(parts) => exists|j: int| 0 <= j < parts@.len() && #[trigger] parts@[j] is Refusal,
        _ => false,
    }
}

pub open spec fn has_refusal(items: Seq<OutputItem>) -> bool {
    exists|i: int| 0 <= i < items.len() && #[trigger] item_refuses(items[i])
}

pub open spec fn has_call(blocks: Seq<BlockView>) -> bool {
    exists|i: int| 0 <= i < blocks.len() && #[trigger] blocks[i] is ToolUse
}

pub open spec fn status_name(s: ResponseStatus) -> Seq<char> {
    match s {
        ResponseStatus::Completed => "Completed"@,
        ResponseStatus::Failed => "Failed"@,
        ResponseStatus::InProgress => "InProgress"@,
        ResponseStatus::Cancelled => "Cancelled"@,
        ResponseStatus::Queued => "Queued"@,
        ResponseStatus::Incomplete => "Incomplete"@,
    }
}

/// Why a failed or cancelled response gives no turn.
pub open spec fn failure_text(r: ApiResponse) -> Seq<char> {
    "response "@ + status_name(r.status) + ": "@ + match r.error {
        Some(e) => e@,
        None => match r.incomplete_reason {
            Some(d) => d@,
            None => "no detail reported"@,
        },
    }
}

/// The stop reason of a usable response: cut short, wanting tools, refused,
/// or finished.
pub open spec fn response_stop(r: ApiResponse) -> StopReason {
    if r.status == ResponseStatus::Incomplete {
        StopReason::Length
    } else if has_call(output_blocks(r.output@)) {
        StopReason::ToolUse
    } else if has_refusal(r.output@) {
        StopReason::Refusal
    } else {
        StopReason::Stop
    }
}

pub open spec fn usage_of(u: Option<(u32, u32)>) -> Option<Usage> {
    match u {
        Some(p) => Some(Usage { input_tokens: p.0 as u64, output_tokens: p.1 as u64 }),
        None => None,
    }
}

fn push_block(content: &mut Vec<MessageContent>, c: MessageContent)
    ensures
        blocks_view(final(content)@) == blocks_view(old(content)@).push(block_view(c)),
{
    let ghost before = content@;
    content.push(c);
    assert(blocks_view(content@) =~= blocks_view(before).push(block_view(c)));
}

fn status_text(s: ResponseStatus) -> (r: &'static str)
    ensures
        r@ == status_name(s),
{
    match s {
        ResponseStatus::Completed => "Completed",
        ResponseStatus::Failed => "Failed",
        ResponseStatus::InProgress => "InProgress",
        ResponseStatus::Cancelled => "Cancelled",
        ResponseStatus::Queued => "Queued",
        ResponseStatus::Incomplete => "Incomplete",
    }
}

/// One response collapsed into an assistant message, its items in order; a
/// failed or cancelled response is an error.
pub fn from_response(response: ApiResponse) -> (r: Result<AssistantMessage, String>)
    ensures
        (response.status == ResponseStatus::Failed || response.status == ResponseStatus::Cancelled)
            ==> (r matches Err(e) && e@ == failure_text(response)),
        !(response.status == ResponseStatus::Failed || response.status == ResponseStatus::Cancelled)
            ==> (r matches Ok(m) && blocks_view(m.content@) == output_blocks(response.output@)
            && m.stop_reason == response_stop(response) && m.usage == usage_of(response.usage)
            && m.error_message is None),
{
    if response.status == ResponseStatus::Failed || response.status == ResponseStatus::Cancelled {
        let mut e = String::new();
        push_str(&mut e, "response ");
        push_str(&mut e, status_text(response.status));
        push_str(&mut e, ": ");
        match &response.error {
            Some(m) => push_str(&mut e, m.as_str()),
            None => match &response.incomplete_reason {
                Some(d) => push_str(&mut e, d.as_str()),
                None => push_str(&mut e, "no detail reported"),
            },
        }
        assert(e@ =~= failure_text(response));
        return Err(e);
    }
    let ghost items = response.output@;
    let mut content: Vec<MessageContent> = Vec::new();
    let mut refused = false;
    let mut wants_tools = false;
    let mut i: usize = 0;
    while i < response.output.len()
        invariant
            i <= items.len(),
            items == response.output@,
            blocks_view(content@) == output_blocks(items.take(i as int)),
            refused == has_refusal(items.take(i as int)),
            wants_tools == has_call(output_blocks(items.take(i as int))),
        decreases items.len() - i,
    {
        assert(items.take(i + 1).drop_last() =~= items.take(i as int));
        let ghost before = blocks_view(content@);
        let ghost prev = items.take(i as int);
        let ghost next = items.take(i + 1);
        assert(next =~= prev.push(items[i as int]));
        match &response.output[i] {
            OutputItem::Message(parts) => {
                let mut k: usize = 0;
                let mut refusal_here = false;
                while k < parts.len()
                    invariant
                        k <= parts@.len(),
                        blocks_view(content@) == before + parts@.take(k as int).map_values(
                            |p: OutputPart| part_block(p),
                        ),
                        refusal_here == exists|j: int| 0 <= j < k && #[trigger] parts@[j] is Refusal,
                    decreases parts@.len() - k,
                {
                    match &parts[k] {
                        OutputPart::Text(t) => push_block(&mut content, MessageContent::Text { text: t.clone() }),
                        OutputPart::Refusal(t) => {
                            refusal_here = true;
                            push_block(&mut content, MessageContent::Text { text: t.clone() });
                        },
                    }
                    assert(parts@.take(k + 1).map_values(|p: OutputPart| part_block(p)) =~= parts@.take(
                        k as int,
                    ).map_values(|p: OutputPart| part_block(p)).push(part_block(parts@[k as int])));
                    k += 1;
                }
                assert(parts@.take(parts@.len() as int) =~= parts@);
                proof {
                    lemma_refusal_step(items, i as int);
                    lemma_call_step(prev, items[i as int]);
                    let bl = item_blocks(items[i as int]);
                    if has_call(bl) {
                        let x = choose|x: int| 0 <= x < bl.len() && #[trigger] bl[x] is ToolUse;
                        assert(bl[x] == part_block(parts@[x]));
                    }
                }
                refused = refused || refusal_here;
            },
            OutputItem::FunctionCall { call_id, name, arguments, id } => {
                push_block(
                    &mut content,
                    MessageContent::ToolUse {
                        id: call_id.clone(),
                        name: name.clone(),
                        input: arguments.clone(),
                        custom: false,
                        item_id: id.clone(),
                    },
                );
                wants_tools = true;
                proof {
                    lemma_refusal_step(items, i as int);
                    lemma_call_step(prev, items[i as int]);
                    assert(item_blocks(items[i as int])[0] is ToolUse);
                }
            },
            OutputItem::CustomToolCall { call_id, name, input, id } => {
                push_block(
                    &mut content,
                    MessageContent::ToolUse {
                        id: call_id.clone(),
                        name: name.clone(),
                        input: input.clone(),
                        custom: true,
                        item_id: Some(id.clone()),
                    },
                );
                wants_tools = true;
                proof {
                    lemma_refusal_step(items, i as int);
                    lemma_call_step(prev, items[i as int]);
                    assert(item_blocks(items[i as int])[0] is ToolUse);
                }
            },
            OutputItem::Reasoning(summary) => {
                let mut thinking = String::new();
                let mut k: usize = 0;
                while k < summary.len()
                    invariant
                        k <= summary@.len(),
                        thinking@ == concat(summary@.take(k as int)),
                    decreases summary@.len() - k,
                {
                    assert(summary@.take(k + 1).drop_last() =~= summary@.take(k as int));
                    push_str(&mut thinking, summary[k].as_str());
                    k += 1;
                }
                assert(summary@.take(summary@.len() as int) =~= summary@);
                push_block(&mut content, MessageContent::Thinking { thinking, signature: None });
                proof {
                    lemma_refusal_step(items, i as int);
                    lemma_call_step(prev, items[i as int]);
                    let bl = item_blocks(items[i as int]);
                    if has_call(bl) {
                        let x = choose|x: int| 0 <= x < bl.len() && #[trigger] bl[x] is ToolUse;
                    }
                }
            },
            OutputItem::Other => {
                proof {
                    lemma_refusal_step(items, i as int);
                    lemma_call_step(prev, items[i as int]);
                    assert(item_blocks(items[i as int]).len() == 0);
                }
            },
        }
        assert(blocks_view(content@) =~= output_blocks(next));
        i += 1;
    }
    assert(items.take(items.len() as int) =~= items);
    let stop_reason = if response.status == ResponseStatus::Incomplete {
        StopReason::Length
    } else if wants_tools {
        StopReason::ToolUse
    } else if refused {
        StopReason::Refusal
    } else {
        StopReason::Stop
    };
    let usage = match response.usage {
        Some((input, output)) => Some(Usage { input_tokens: input as u64, output_tokens: output as u64 }),
        None => None,
    };
    Ok(AssistantMessage { content, stop_reason, usage, error_message: None })
}

proof fn lemma_refusal_step(items: Seq<OutputItem>, i: int)
    requires
        0 <= i < items.len(),
    ensures
        has_refusal(items.take(i + 1)) == (has_refusal(items.take(i)) || item_refuses(items[i])),
{
    let a = items.take(i);
    let b = items.take(i + 1);
    if has_refusal(b) {
        let x = choose|x: int| 0 <= x < b.len() && #[trigger] item_refuses(b[x]);
        if x < i {
            assert(a[x] == b[x]);
        }
    }
    if has_refusal(a) {
        let x = choose|x: int| 0 <= x < a.len() && #[trigger] item_refuses(a[x]);
        assert(b[x] == a[x]);
    }
    if item_refuses(items[i]) {
        assert(b[i] == items[i]);
    }
}

proof fn lemma_call_step(prev: Seq<OutputItem>, item: OutputItem)
    ensures
        has_call(output_blocks(prev.push(item))) == (has_call(output_blocks(prev)) || has_call(
            item_blocks(item),
        )),
{
    let all = output_blocks(prev.push(item));
    let a = output_blocks(prev);
    let b = item_blocks(item);
    assert(prev.push(item).drop_last() =~= prev);
    assert(all =~= a + b);
    if has_call(all) {
        let x = choose|x: int| 0 <= x < all.len() && #[trigger] all[x] is ToolUse;
        if x < a.len() {
            assert(a[x] == all[x]);
        } else {
            assert(b[x - a.len()] == all[x]);
        }
    }
    if has_call(a) {
        let x = choose|x: int| 0 <= x < a.len() && #[trigger] a[x] is ToolUse;
        assert(all[x] == a[x]);
    }
    if has_call(b) {
        let x = choose|x: int| 0 <= x < b.len() && #[trigger] b[x] is ToolUse;
        assert(all[x + a.len()] == b[x]);
    }
}

} // verus!
