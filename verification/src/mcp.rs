//! The record as an MCP server: which methods it answers and how, the tools
//! it offers and the shape of their arguments, and what a tool says back.
//! Reading and writing the JSON-RPC stream, and the record itself, is the
//! program's work; what is decided on the way is here.
use vstd::prelude::*;
use crate::db::{CurrentStage, Task};
use crate::text::{
    append, append_str, chars_of, chars_of_string, decimal, lines, lines_of, lit, push_decimal, push_signed, same_str,
    signed_decimal, slice, split_by, split_class, strings, strip_prefix, strip_suffix, stripped_prefix, stripped_suffix, text_of,
    trim, trimmed, views, Class,
};

verus! {

/// What `doctor` prints about the server.
#[derive(Debug)]
pub struct Check {
    pub protocol: &'static str,
    pub version: &'static str,
    pub tools: usize,
    pub prompts: usize,
}

/// The project a `rigger://<project>/context` URI names, when it names one.
pub open spec fn uri_project(uri: Seq<char>) -> Option<Seq<char>> {
    match strip_prefix(uri, "rigger://"@) {
        Some(rest) => match strip_suffix(rest, "/context"@) {
            Some(p) => if p.len() > 0 {
                Some(p)
            } else {
                None
            },
            None => None,
        },
        None => None,
    }
}

pub fn parse_uri(uri: &str) -> (r: Option<String>)
    ensures
        r matches Some(p) ==> uri_project(uri@) == Some(p@),
        r is None ==> uri_project(uri@) is None,
{
    let s = chars_of(uri);
    match stripped_prefix(&s, "rigger://") {
        Some(rest) => match stripped_suffix(&rest, "/context") {
            Some(p) => {
                if p.len() > 0 {
                    Some(text_of(&p))
                } else {
                    None
                }
            },
            None => None,
        },
        None => None,
    }
}

/// The protocol version this server speaks. A client that asks for another
/// one is answered with this: the server names the version it supports,
/// and the client decides whether it can live with it.
pub const PROTOCOL_VERSION: &'static str = "2025-06-18";

/// JSON-RPC error codes used here.
/// What every tool's input schema is: an object whose properties are the
/// tool's arguments.
pub const INPUT_SCHEMA_TYPE: &'static str = "object";

pub const METHOD_NOT_FOUND: i64 = -32601;
pub const INVALID_PARAMS: i64 = -32602;

/// What the server does with a request.
#[derive(Debug, Clone, Copy, PartialEq, Eq, Structural)]
pub enum Route {
    Initialize,
    Ping,
    ListTools,
    CallTool,
    ListPrompts,
    GetPrompt,
    ListResources,
    ReadResource,
    /// A method the server does not serve: answered with a protocol error,
    /// not a crash.
    Unknown,
}

pub open spec fn route_of(method: Seq<char>) -> Route {
    if method == "initialize"@ {
        Route::Initialize
    } else if method == "ping"@ {
        Route::Ping
    } else if method == "tools/list"@ {
        Route::ListTools
    } else if method == "tools/call"@ {
        Route::CallTool
    } else if method == "prompts/list"@ {
        Route::ListPrompts
    } else if method == "prompts/get"@ {
        Route::GetPrompt
    } else if method == "resources/list"@ {
        Route::ListResources
    } else if method == "resources/read"@ {
        Route::ReadResource
    } else {
        Route::Unknown
    }
}

/// How a message is answered, or `None` for a notification: a message
/// without an id expects nothing back, and answering one breaks clients
/// that count messages.
pub fn route(method: &str, has_id: bool) -> (r: Option<Route>)
    ensures
        r is None <==> !has_id,
        r matches Some(x) ==> x == route_of(method@),
{
    if !has_id {
        return None;
    }
    let m = chars_of(method);
    let r = if same_str(&m, "initialize") {
        Route::Initialize
    } else if same_str(&m, "ping") {
        Route::Ping
    } else if same_str(&m, "tools/list") {
        Route::ListTools
    } else if same_str(&m, "tools/call") {
        Route::CallTool
    } else if same_str(&m, "prompts/list") {
        Route::ListPrompts
    } else if same_str(&m, "prompts/get") {
        Route::GetPrompt
    } else if same_str(&m, "resources/list") {
        Route::ListResources
    } else if same_str(&m, "resources/read") {
        Route::ReadResource
    } else {
        Route::Unknown
    };
    Some(r)
}

/// What an unknown method is told.
pub fn unknown_method(method: &str) -> (r: String)
    ensures
        r@ == "rigger does not serve `"@ + method@ + "`"@,
{
    let mut out = lit("rigger does not serve `");
    append_str(&mut out, method);
    append_str(&mut out, "`");
    text_of(&out)
}

/// The type of an argument a tool takes.
#[derive(Debug, Clone, Copy, PartialEq, Eq, Structural)]
pub enum ArgKind {
    Text,
    Integer,
}

impl ArgKind {
    /// As a JSON schema names it.
    pub fn as_str(self) -> (r: &'static str)
        ensures
            r@ == (match self {
                ArgKind::Text => "string"@,
                ArgKind::Integer => "integer"@,
            }),
    {
        match self {
            ArgKind::Text => "string",
            ArgKind::Integer => "integer",
        }
    }
}

/// One argument of a tool: its name, type and description, and whether a
/// call must give it.
#[derive(Debug, Clone, Copy)]
pub struct Arg {
    pub name: &'static str,
    pub kind: ArgKind,
    pub description: &'static str,
    pub required: bool,
}

/// A tool the server offers, with the shape of its arguments: the schema
/// is the only documentation a model gets, so every argument a call must
/// give is one the tool describes.
#[derive(Debug, Clone)]
pub struct Tool {
    pub name: String,
    pub description: &'static str,
    pub args: Vec<Arg>,
}

/// The names of the arguments a call must give, in the order the tool
/// describes them.
pub open spec fn required_names(args: Seq<Arg>) -> Seq<Seq<char>>
    decreases args.len(),
{
    if args.len() == 0 {
        Seq::empty()
    } else {
        let init = required_names(args.drop_last());
        if args.last().required {
            init.push(args.last().name@)
        } else {
            init
        }
    }
}

/// Whether a tool describes an argument of that name that a call must give.
pub open spec fn describes(args: Seq<Arg>, name: Seq<char>) -> bool {
    exists|j: int| 0 <= j < args.len() && args[j].required && #[trigger] args[j].name@ == name
}

proof fn lemma_required_described(args: Seq<Arg>)
    ensures
        forall|i: int| 0 <= i < required_names(args).len() ==> describes(args, #[trigger] required_names(args)[i]),
    decreases args.len(),
{
    if args.len() > 0 {
        let init = args.drop_last();
        lemma_required_described(init);
        assert forall|i: int| 0 <= i < required_names(args).len() implies describes(
            args,
            #[trigger] required_names(args)[i],
        ) by {
            if i < required_names(init).len() {
                assert(describes(init, required_names(init)[i]));
                let j = choose|j: int| 0 <= j < init.len() && init[j].required && #[trigger] init[j].name@ == required_names(init)[i];
                assert(args[j] == init[j]);
            } else {
                let last = args.len() - 1;
                assert(required_names(args)[i] == args[last].name@);
                assert(args[last].name@ == required_names(args)[i]);
            }
        }
    }
}

impl Tool {
    /// The arguments a call must give, by name.
    pub fn required(&self) -> (r: Vec<&'static str>)
        ensures
            r@.map_values(|n: &'static str| n@) == required_names(self.args@),
    {
        let mut out: Vec<&'static str> = Vec::new();
        let mut i: usize = 0;
        while i < self.args.len()
            invariant
                i <= self.args.len(),
                out@.map_values(|n: &'static str| n@) == required_names(self.args@.take(i as int)),
            decreases self.args.len() - i,
        {
            let a = self.args[i];
            assert(self.args@.take(i + 1).drop_last() =~= self.args@.take(i as int));
            assert(self.args@.take(i + 1).last() == a);
            let ghost before = out@;
            if a.required {
                out.push(a.name);
                assert(out@.map_values(|n: &'static str| n@) =~= before.map_values(|n: &'static str| n@).push(a.name@));
            }
            i = i + 1;
        }
        assert(self.args@.take(self.args.len() as int) =~= self.args@);
        out
    }
}

/// Every argument a tool requires is one it describes: the schema never
/// asks for something it does not explain.
pub proof fn law_required_arguments_are_described(tool: Tool)
    ensures
        forall|i: int|
            0 <= i < required_names(tool.args@).len() ==> describes(tool.args@, #[trigger] required_names(tool.args@)[i]),
{
    lemma_required_described(tool.args@);
}

fn arg(name: &'static str, kind: ArgKind, description: &'static str, required: bool) -> (r: Arg)
    ensures
        r.name == name && r.kind == kind && r.description == description && r.required == required,
{
    Arg { name, kind, description, required }
}

/// The argument every tool takes: which project it speaks about.
fn project_arg(required: bool) -> (r: Arg)
    ensures
        r.name@ == "project"@ && r.required == required && r.kind == ArgKind::Text,
        r.description@ == "Project name, as `rigger project list` shows it"@,
{
    arg("project", ArgKind::Text, "Project name, as `rigger project list` shows it", required)
}

fn task_arg() -> (r: Arg)
    ensures
        r.name@ == "task"@ && !r.required && r.kind == ArgKind::Text,
        r.description@ == "A card's key, alias or id, to write against the card instead of a project"@,
{
    arg("task", ArgKind::Text, "A card's key, alias or id, to write against the card instead of a project", false)
}

fn budget_arg() -> (r: Arg)
    ensures
        r.name@ == "budget"@ && !r.required && r.kind == ArgKind::Integer,
        r.description@ == "Token budget for the packet; the default is 3000"@,
{
    arg("budget", ArgKind::Integer, "Token budget for the packet; the default is 3000", false)
}

fn tool(name: &str, description: &'static str, args: Vec<Arg>) -> (r: Tool)
    ensures
        r.name@ == name@ && r.description == description && r.args@ == args@,
{
    Tool { name: text_of(&chars_of(name)), description, args }
}

/// One of the tools that record an event of a kind: `record_<kind>`.
fn record(kind: &str, description: &'static str) -> (r: Tool)
    ensures
        r.name@ == "record_"@ + kind@,
        shape(r).1 == description@,
        shape(r).2 == record_args(),
{
    let mut name = lit("record_");
    append_str(&mut name, kind);
    let t = Tool {
        name: text_of(&name),
        description,
        args: vec![project_arg(false), task_arg(), arg("text", ArgKind::Text, "What happened, in full sentences", true)],
    };
    assert(shape(t).2 =~= record_args());
    t
}

/// A tool as it is listed: its name, what it is for, and each argument's
/// name, type, whether a call must give it, and what it is.
pub open spec fn shape(t: Tool) -> (Seq<char>, Seq<char>, Seq<(Seq<char>, ArgKind, bool, Seq<char>)>) {
    (t.name@, t.description@, t.args@.map_values(|a: Arg| (a.name@, a.kind, a.required, a.description@)))
}

pub open spec fn record_args() -> Seq<(Seq<char>, ArgKind, bool, Seq<char>)> {
    seq![
        ("project"@, ArgKind::Text, false, "Project name, as `rigger project list` shows it"@),
        ("task"@, ArgKind::Text, false, "A card's key, alias or id, to write against the card instead of a project"@),
        ("text"@, ArgKind::Text, true, "What happened, in full sentences"@),
    ]
}

/// The tools the server offers, by shape, in the order it lists them.
pub open spec fn catalog() -> Seq<(Seq<char>, Seq<char>, Seq<(Seq<char>, ArgKind, bool, Seq<char>)>)> {
    seq![
        ("context"@, "Where the project stands: what shipped, what is being built, what waits for the owner, what happened recently, and the line the last session left behind. Read this before doing anything else in a project."@, seq![
            ("project"@, ArgKind::Text, true, "Project name, as `rigger project list` shows it"@),
            ("budget"@, ArgKind::Integer, false, "Token budget for the packet; the default is 3000"@),
        ]),
        ("plan"@, "The stage being built and its open tasks, each with the id `close_task` takes."@, seq![
            ("project"@, ArgKind::Text, true, "Project name, as `rigger project list` shows it"@),
        ]),
        ("record_decision"@, "Record a decision and the reason behind it. Reasons outlive the decision, so write why, not only what. Name the `principle` when the decision is one more instance of something this line already believes - `why_principle` then reads the whole thread."@, seq![
            ("project"@, ArgKind::Text, false, "Project name, as `rigger project list` shows it"@),
            ("task"@, ArgKind::Text, false, "A card's key, alias or id, to write against the card instead of a project"@),
            ("text"@, ArgKind::Text, true, "What happened, in full sentences"@),
            ("principle"@, ArgKind::Text, false, "The principle this stands on, in the words the record already uses; `principles` lists them"@),
        ]),
        ("record_"@ + "finding"@, "Record something learnt about the code or the domain that the next session would otherwise learn again."@, record_args()),
        ("record_"@ + "pitfall"@, "Record a trap worth remembering: what looked right, what actually happened."@, record_args()),
        ("record_"@ + "change"@, "Record something that changed in the product."@, record_args()),
        ("task_find"@, "Find the card a line of text means - by ticket id, by title, by case number - and say whether to take it, ask, or make a new one. Give the task exactly as it was handed over."@, seq![
            ("query"@, ArgKind::Text, true, "The task as it was handed over: id, title, numbers, any of them"@),
        ]),
        ("task_context"@, "Where a task stands: what it is, where it is worked, and everything written against it - decisions, findings, pitfalls, the plan of edits, changes, the next step. A session on a card starts here."@, seq![
            ("task"@, ArgKind::Text, true, "Card key, alias or id"@),
            ("budget"@, ArgKind::Integer, false, "Token budget for the packet; the default is 3000"@),
        ]),
        ("record_plan"@, "A step of the plan of edits for a card: what will be changed, where, in what order. Give `task`."@, seq![
            ("project"@, ArgKind::Text, false, "Project name, as `rigger project list` shows it"@),
            ("task"@, ArgKind::Text, false, "A card's key, alias or id, to write against the card instead of a project"@),
            ("text"@, ArgKind::Text, true, "The step, in full sentences"@),
        ]),
        ("record_state"@, "Put one line at the top of the hub's state block: where the project stands after this sitting, the way a README's «Состояние» tells it. Only when the state shifted - a release, a block closed, a plan reground."@, seq![
            ("project"@, ArgKind::Text, true, "Project name, as `rigger project list` shows it"@),
            ("text"@, ArgKind::Text, true, "One sentence, bold headline first, for the README's state block"@),
        ]),
        ("set_next_step"@, "Leave the next session one line to start from. The newest one wins; it is not a list. With `task`, the line belongs to the card."@, seq![
            ("project"@, ArgKind::Text, false, "Project name, as `rigger project list` shows it"@),
            ("task"@, ArgKind::Text, false, "A card's key, alias or id, to write against the card instead of a project"@),
            ("text"@, ArgKind::Text, true, "The one line the next session starts from"@),
        ]),
        ("ask_owner"@, "Ask the owner something only they can settle. The question waits in the packet until they answer it - it does not reach them now, so do not block on it."@, seq![
            ("project"@, ArgKind::Text, true, "Project name, as `rigger project list` shows it"@),
            ("text"@, ArgKind::Text, true, "The question, with enough context to answer it cold"@),
        ]),
        ("wish"@, "Record something to sort into the plan later. Give `from` when one project is asking another for something: the order then shows on the neighbour's packet and in the owner's inbox as theirs."@, seq![
            ("project"@, ArgKind::Text, true, "Project name, as `rigger project list` shows it"@),
            ("text"@, ArgKind::Text, true, "What you want, and why it would help"@),
            ("from"@, ArgKind::Text, false, "The project asking, when a neighbour is placing the order"@),
        ]),
        ("principles"@, "The principles the record stands on, with how often each has been invoked. Read this before naming one, so a decision joins a thread rather than starting a synonym of it."@, Seq::empty()),
        ("why_principle"@, "Every decision across the line that stands on one principle, oldest first: how the line came to believe it, and what it has cost."@, seq![
            ("principle"@, ArgKind::Text, true, "The name, as `principles` spells it"@),
        ]),
        ("link"@, "Tie two projects together so the record can see the line as a graph. `pair` is two halves of one capability and neither ships alone; `consumer` is this project drawing on the other; `donor` is the other drawing on this one. Anchor a version on a side by writing it as `kasl@v1.13.0`. Only pairs are checked for drift - `week` and `retro` say when one half shipped without the other."@, seq![
            ("from"@, ArgKind::Text, true, "Project on this side, or `project@version`"@),
            ("to"@, ArgKind::Text, true, "Project on the other side, or `project@version`"@),
            ("kind"@, ArgKind::Text, false, "pair, consumer or donor; pair when omitted"@),
            ("note"@, ArgKind::Text, false, "A sentence saying what the two share"@),
        ]),
        ("links"@, "What a project is tied to, read from its side: its pairs, what it draws on, what draws on it, and the orders its neighbours have placed."@, seq![
            ("project"@, ArgKind::Text, true, "Project name, as `rigger project list` shows it"@),
        ]),
        ("resolve"@, "Answer a question waiting for the owner, or mark a wish sorted into the plan, so it leaves the packet. Ids come from the packet. Answer a question only when the owner has actually said something - this records their answer, not your guess at it."@, seq![
            ("project"@, ArgKind::Text, true, "Project name, as `rigger project list` shows it"@),
            ("id"@, ArgKind::Integer, true, "Id of the question or wish, as the packet lists it"@),
            ("answer"@, ArgKind::Text, false, "What the owner decided; recorded as a decision. Omit for a wish."@),
        ]),
        ("set_task_status"@, "Give a task of the current stage a status: new, active, waiting-handoff, frozen or done. Ids come from `plan`. `active` is the one being worked on; `waiting-handoff` is handed to someone else; `frozen` is set aside on purpose."@, seq![
            ("project"@, ArgKind::Text, true, "Project name, as `rigger project list` shows it"@),
            ("task"@, ArgKind::Integer, true, "Task id, as `plan` lists it"@),
            ("status"@, ArgKind::Text, true, "One of new, active, waiting-handoff, frozen, done"@),
        ]),
        ("close_task"@, "Mark a task of the current stage done. Ids come from `plan`."@, seq![
            ("project"@, ArgKind::Text, true, "Project name, as `rigger project list` shows it"@),
            ("task"@, ArgKind::Integer, true, "Task id, as `plan` lists it"@),
        ]),
        ("doc_show"@, "Read a handwritten text of the project: its vision, its rituals, a research note. Without a `slug`, lists what there is."@, seq![
            ("project"@, ArgKind::Text, true, "Project name, as `rigger project list` shows it"@),
            ("slug"@, ArgKind::Text, false, "Which document; omit to list them"@),
        ]),
        ("doc_write"@, "Write a handwritten text into the record: a research note you were asked to make, or a correction to the vision. Replaces the whole body of the document, so read it with `doc_show` first and send back the whole of it."@, seq![
            ("project"@, ArgKind::Text, true, "Project name, as `rigger project list` shows it"@),
            ("slug"@, ArgKind::Text, true, "Which document; a new one is made if there is none"@),
            ("kind"@, ArgKind::Text, false, "vision, decisions, research, rituals or other; only for a new one"@),
            ("title"@, ArgKind::Text, false, "What it is called; only needed for a new one"@),
            ("body"@, ArgKind::Text, true, "The whole text of the document, in markdown"@),
        ]),
    ]
}

/// The tools, in the order a session uses them: read the record, then write
/// to it.
pub fn tools() -> (r: Vec<Tool>)
    ensures
        r@.map_values(|t: Tool| shape(t)) == catalog(),
{
    let mut out: Vec<Tool> = Vec::new();
    out.push(tool(
        "context",
        "Where the project stands: what shipped, what is being built, what waits for the owner, what happened recently, and the line the last session left behind. Read this before doing anything else in a project.",
        vec![project_arg(true), budget_arg()],
    ));
    assert(out@.map_values(|t: Tool| shape(t)) =~~= catalog().take(1));
    out.push(tool(
        "plan",
        "The stage being built and its open tasks, each with the id `close_task` takes.",
        vec![project_arg(true)],
    ));
    assert(out@.map_values(|t: Tool| shape(t)) =~~= catalog().take(2));
    out.push(tool(
        "record_decision",
        "Record a decision and the reason behind it. Reasons outlive the decision, so write why, not only what. Name the `principle` when the decision is one more instance of something this line already believes - `why_principle` then reads the whole thread.",
        vec![
            project_arg(false),
            task_arg(),
            arg("text", ArgKind::Text, "What happened, in full sentences", true),
            arg("principle", ArgKind::Text, "The principle this stands on, in the words the record already uses; `principles` lists them", false),
        ],
    ));
    assert(out@.map_values(|t: Tool| shape(t)) =~~= catalog().take(3));
    out.push(record(
        "finding",
        "Record something learnt about the code or the domain that the next session would otherwise learn again.",
    ));
    assert(out@.map_values(|t: Tool| shape(t)) =~~= catalog().take(4));
    out.push(record("pitfall", "Record a trap worth remembering: what looked right, what actually happened."));
    assert(out@.map_values(|t: Tool| shape(t)) =~~= catalog().take(5));
    out.push(record("change", "Record something that changed in the product."));
    assert(out@.map_values(|t: Tool| shape(t)) =~~= catalog().take(6));
    out.push(tool(
        "task_find",
        "Find the card a line of text means - by ticket id, by title, by case number - and say whether to take it, ask, or make a new one. Give the task exactly as it was handed over.",
        vec![arg("query", ArgKind::Text, "The task as it was handed over: id, title, numbers, any of them", true)],
    ));
    assert(out@.map_values(|t: Tool| shape(t)) =~~= catalog().take(7));
    out.push(tool(
        "task_context",
        "Where a task stands: what it is, where it is worked, and everything written against it - decisions, findings, pitfalls, the plan of edits, changes, the next step. A session on a card starts here.",
        vec![arg("task", ArgKind::Text, "Card key, alias or id", true), budget_arg()],
    ));
    assert(out@.map_values(|t: Tool| shape(t)) =~~= catalog().take(8));
    out.push(tool(
        "record_plan",
        "A step of the plan of edits for a card: what will be changed, where, in what order. Give `task`.",
        vec![project_arg(false), task_arg(), arg("text", ArgKind::Text, "The step, in full sentences", true)],
    ));
    assert(out@.map_values(|t: Tool| shape(t)) =~~= catalog().take(9));
    out.push(tool(
        "record_state",
        "Put one line at the top of the hub's state block: where the project stands after this sitting, the way a README's «Состояние» tells it. Only when the state shifted - a release, a block closed, a plan reground.",
        vec![project_arg(true), arg("text", ArgKind::Text, "One sentence, bold headline first, for the README's state block", true)],
    ));
    assert(out@.map_values(|t: Tool| shape(t)) =~~= catalog().take(10));
    out.push(tool(
        "set_next_step",
        "Leave the next session one line to start from. The newest one wins; it is not a list. With `task`, the line belongs to the card.",
        vec![project_arg(false), task_arg(), arg("text", ArgKind::Text, "The one line the next session starts from", true)],
    ));
    assert(out@.map_values(|t: Tool| shape(t)) =~~= catalog().take(11));
    out.push(tool(
        "ask_owner",
        "Ask the owner something only they can settle. The question waits in the packet until they answer it - it does not reach them now, so do not block on it.",
        vec![project_arg(true), arg("text", ArgKind::Text, "The question, with enough context to answer it cold", true)],
    ));
    assert(out@.map_values(|t: Tool| shape(t)) =~~= catalog().take(12));
    out.push(tool(
        "wish",
        "Record something to sort into the plan later. Give `from` when one project is asking another for something: the order then shows on the neighbour's packet and in the owner's inbox as theirs.",
        vec![
            project_arg(true),
            arg("text", ArgKind::Text, "What you want, and why it would help", true),
            arg("from", ArgKind::Text, "The project asking, when a neighbour is placing the order", false),
        ],
    ));
    assert(out@.map_values(|t: Tool| shape(t)) =~~= catalog().take(13));
    out.push(tool(
        "principles",
        "The principles the record stands on, with how often each has been invoked. Read this before naming one, so a decision joins a thread rather than starting a synonym of it.",
        Vec::new(),
    ));
    assert(out@.map_values(|t: Tool| shape(t)) =~~= catalog().take(14));
    out.push(tool(
        "why_principle",
        "Every decision across the line that stands on one principle, oldest first: how the line came to believe it, and what it has cost.",
        vec![arg("principle", ArgKind::Text, "The name, as `principles` spells it", true)],
    ));
    assert(out@.map_values(|t: Tool| shape(t)) =~~= catalog().take(15));
    out.push(tool(
        "link",
        "Tie two projects together so the record can see the line as a graph. `pair` is two halves of one capability and neither ships alone; `consumer` is this project drawing on the other; `donor` is the other drawing on this one. Anchor a version on a side by writing it as `kasl@v1.13.0`. Only pairs are checked for drift - `week` and `retro` say when one half shipped without the other.",
        vec![
            arg("from", ArgKind::Text, "Project on this side, or `project@version`", true),
            arg("to", ArgKind::Text, "Project on the other side, or `project@version`", true),
            arg("kind", ArgKind::Text, "pair, consumer or donor; pair when omitted", false),
            arg("note", ArgKind::Text, "A sentence saying what the two share", false),
        ],
    ));
    assert(out@.map_values(|t: Tool| shape(t)) =~~= catalog().take(16));
    out.push(tool(
        "links",
        "What a project is tied to, read from its side: its pairs, what it draws on, what draws on it, and the orders its neighbours have placed.",
        vec![project_arg(true)],
    ));
    assert(out@.map_values(|t: Tool| shape(t)) =~~= catalog().take(17));
    out.push(tool(
        "resolve",
        "Answer a question waiting for the owner, or mark a wish sorted into the plan, so it leaves the packet. Ids come from the packet. Answer a question only when the owner has actually said something - this records their answer, not your guess at it.",
        vec![
            project_arg(true),
            arg("id", ArgKind::Integer, "Id of the question or wish, as the packet lists it", true),
            arg("answer", ArgKind::Text, "What the owner decided; recorded as a decision. Omit for a wish.", false),
        ],
    ));
    assert(out@.map_values(|t: Tool| shape(t)) =~~= catalog().take(18));
    out.push(tool(
        "set_task_status",
        "Give a task of the current stage a status: new, active, waiting-handoff, frozen or done. Ids come from `plan`. `active` is the one being worked on; `waiting-handoff` is handed to someone else; `frozen` is set aside on purpose.",
        vec![
            project_arg(true),
            arg("task", ArgKind::Integer, "Task id, as `plan` lists it", true),
            arg("status", ArgKind::Text, "One of new, active, waiting-handoff, frozen, done", true),
        ],
    ));
    assert(out@.map_values(|t: Tool| shape(t)) =~~= catalog().take(19));
    out.push(tool(
        "close_task",
        "Mark a task of the current stage done. Ids come from `plan`.",
        vec![project_arg(true), arg("task", ArgKind::Integer, "Task id, as `plan` lists it", true)],
    ));
    assert(out@.map_values(|t: Tool| shape(t)) =~~= catalog().take(20));
    out.push(tool(
        "doc_show",
        "Read a handwritten text of the project: its vision, its rituals, a research note. Without a `slug`, lists what there is.",
        vec![project_arg(true), arg("slug", ArgKind::Text, "Which document; omit to list them", false)],
    ));
    assert(out@.map_values(|t: Tool| shape(t)) =~~= catalog().take(21));
    out.push(tool(
        "doc_write",
        "Write a handwritten text into the record: a research note you were asked to make, or a correction to the vision. Replaces the whole body of the document, so read it with `doc_show` first and send back the whole of it.",
        vec![
            project_arg(true),
            arg("slug", ArgKind::Text, "Which document; a new one is made if there is none", true),
            arg("kind", ArgKind::Text, "vision, decisions, research, rituals or other; only for a new one", false),
            arg("title", ArgKind::Text, "What it is called; only needed for a new one", false),
            arg("body", ArgKind::Text, "The whole text of the document, in markdown", true),
        ],
    ));
    assert(out@.map_values(|t: Tool| shape(t)) =~~= catalog().take(22));
    assert(catalog().take(22) =~= catalog());
    out
}

/// The one prompt: the packet, as the first message of a session.
pub const PROMPT_NAME: &'static str = "start session";

/// The kind of event a recording tool writes, when it is one of them.
pub open spec fn event_kind_of(tool: Seq<char>) -> Option<Seq<char>> {
    if tool == "record_decision"@ {
        Some("decision"@)
    } else if tool == "record_finding"@ {
        Some("finding"@)
    } else if tool == "record_pitfall"@ {
        Some("pitfall"@)
    } else if tool == "record_change"@ {
        Some("change"@)
    } else if tool == "set_next_step"@ {
        Some("next"@)
    } else if tool == "ask_owner"@ {
        Some("question"@)
    } else if tool == "wish"@ {
        Some("wish"@)
    } else if tool == "record_state"@ {
        Some("state"@)
    } else if tool == "record_plan"@ {
        Some("plan"@)
    } else {
        None
    }
}

/// The kind of event a tool records; `None` for a tool that records none,
/// which, past the tools that read, is a tool the server does not have.
pub fn event_kind(tool: &str) -> (r: Option<&'static str>)
    ensures
        r matches Some(k) ==> event_kind_of(tool@) == Some(k@),
        r is None ==> event_kind_of(tool@) is None,
{
    let t = chars_of(tool);
    if same_str(&t, "record_decision") {
        Some("decision")
    } else if same_str(&t, "record_finding") {
        Some("finding")
    } else if same_str(&t, "record_pitfall") {
        Some("pitfall")
    } else if same_str(&t, "record_change") {
        Some("change")
    } else if same_str(&t, "set_next_step") {
        Some("next")
    } else if same_str(&t, "ask_owner") {
        Some("question")
    } else if same_str(&t, "wish") {
        Some("wish")
    } else if same_str(&t, "record_state") {
        Some("state")
    } else if same_str(&t, "record_plan") {
        Some("plan")
    } else {
        None
    }
}

/// What a call naming a tool the server does not have is told.
pub fn no_such_tool(tool: &str) -> (r: String)
    ensures
        r@ == "rigger serves no tool named `"@ + tool@ + "`"@,
{
    let mut out = lit("rigger serves no tool named `");
    append_str(&mut out, tool);
    append_str(&mut out, "`");
    text_of(&out)
}

/// The text a recording tool was given: trimmed, and refused when it is
/// missing or holds nothing but white space - a record with nothing in it
/// helps nobody.
pub fn needed_text(given: Option<&str>) -> (r: Result<String, &'static str>)
    ensures
        ({
            match given {
                None => (r matches Err(m) && m@ == "this tool needs a `text`"@),
                Some(t) => if trim(t@).len() == 0 {
                    (r matches Err(m) && m@ == "`text` is empty; a record with nothing in it helps nobody"@)
                } else {
                    (r matches Ok(x) && x@ == trim(t@))
                },
            }
        }),
{
    match given {
        Some(t) => {
            let v = trimmed(&chars_of(t));
            if v.len() > 0 {
                Ok(text_of(&v))
            } else {
                Err("`text` is empty; a record with nothing in it helps nobody")
            }
        },
        None => Err("this tool needs a `text`"),
    }
}

/// An optional argument given as text: trimmed, and absent when it holds
/// nothing but white space.
pub fn given(text: Option<&str>) -> (r: Option<String>)
    ensures
        ({
            match text {
                None => r is None,
                Some(t) => if trim(t@).len() == 0 {
                    r is None
                } else {
                    (r matches Some(x) && x@ == trim(t@))
                },
            }
        }),
{
    match text {
        Some(t) => {
            let v = trimmed(&chars_of(t));
            if v.len() > 0 {
                Some(text_of(&v))
            } else {
                None
            }
        },
        None => None,
    }
}

/// What a recording tool says back once the event is written.
pub open spec fn record_reply_text(
    kind: Seq<char>,
    project: Seq<char>,
    card: Option<Seq<char>>,
    asker: Option<Seq<char>>,
    principle: Option<Seq<char>>,
) -> Seq<char> {
    if kind == "state"@ {
        "Added a state line for "@ + project + "; `rigger export` writes it into the README."@
    } else if card is Some {
        if kind == "next"@ {
            "The next session on "@ + card->0 + " starts from this line."@
        } else {
            "Recorded a "@ + kind + " on "@ + card->0 + "."@
        }
    } else if kind == "next"@ {
        "The next session for "@ + project + " starts from this line."@
    } else if kind == "question"@ {
        "Asked the owner; it waits in "@ + project + "'s packet until they answer."@
    } else if kind == "wish"@ {
        match asker {
            Some(a) => "Recorded a wish for "@ + project + " from "@ + a + "."@,
            None => "Recorded a wish for "@ + project + "."@,
        }
    } else {
        match principle {
            Some(p) => "Recorded a "@ + kind + " for "@ + project + ", on the principle '"@ + p + "'."@,
            None => "Recorded a "@ + kind + " for "@ + project + "."@,
        }
    }
}

pub open spec fn opt_view(o: Option<&str>) -> Option<Seq<char>> {
    match o {
        Some(s) => Some(s@),
        None => None,
    }
}

/// What a recording tool says back: a state line is added to the hub, an
/// event on a card is the card's, and otherwise the reply names the
/// project, the asker of a wish and the principle of a decision.
pub fn record_reply(
    kind: &str,
    project: &str,
    card: Option<&str>,
    asker: Option<&str>,
    principle: Option<&str>,
) -> (r: String)
    ensures
        r@ == record_reply_text(kind@, project@, opt_view(card), opt_view(asker), opt_view(principle)),
{
    let k = chars_of(kind);
    let mut out: Vec<char> = Vec::new();
    if same_str(&k, "state") {
        append_str(&mut out, "Added a state line for ");
        append_str(&mut out, project);
        append_str(&mut out, "; `rigger export` writes it into the README.");
        assert(out@ =~= record_reply_text(kind@, project@, opt_view(card), opt_view(asker), opt_view(principle)));
    } else if let Some(key) = card {
        if same_str(&k, "next") {
            append_str(&mut out, "The next session on ");
            append_str(&mut out, key);
            append_str(&mut out, " starts from this line.");
            assert(out@ =~= record_reply_text(kind@, project@, opt_view(card), opt_view(asker), opt_view(principle)));
        } else {
            append_str(&mut out, "Recorded a ");
            append_str(&mut out, kind);
            append_str(&mut out, " on ");
            append_str(&mut out, key);
            append_str(&mut out, ".");
            assert(out@ =~= record_reply_text(kind@, project@, opt_view(card), opt_view(asker), opt_view(principle)));
        }
    } else if same_str(&k, "next") {
        append_str(&mut out, "The next session for ");
        append_str(&mut out, project);
        append_str(&mut out, " starts from this line.");
        assert(out@ =~= record_reply_text(kind@, project@, opt_view(card), opt_view(asker), opt_view(principle)));
    } else if same_str(&k, "question") {
        append_str(&mut out, "Asked the owner; it waits in ");
        append_str(&mut out, project);
        append_str(&mut out, "'s packet until they answer.");
        assert(out@ =~= record_reply_text(kind@, project@, opt_view(card), opt_view(asker), opt_view(principle)));
    } else if same_str(&k, "wish") {
        append_str(&mut out, "Recorded a wish for ");
        append_str(&mut out, project);
        if let Some(a) = asker {
            append_str(&mut out, " from ");
            append_str(&mut out, a);
        }
        append_str(&mut out, ".");
        assert(out@ =~= record_reply_text(kind@, project@, opt_view(card), opt_view(asker), opt_view(principle)));
    } else {
        append_str(&mut out, "Recorded a ");
        append_str(&mut out, kind);
        append_str(&mut out, " for ");
        append_str(&mut out, project);
        if let Some(p) = principle {
            append_str(&mut out, ", on the principle '");
            append_str(&mut out, p);
            append_str(&mut out, "'.");
        } else {
            append_str(&mut out, ".");
        }
        assert(out@ =~= record_reply_text(kind@, project@, opt_view(card), opt_view(asker), opt_view(principle)));
    }
    text_of(&out)
}

/// One task as the plan lists it: with its id, and its status unless it is
/// new.
pub open spec fn task_line(t: Task) -> Seq<char> {
    "- ["@ + signed_decimal(t.id as int) + "] "@ + t.title@ + (if t.status@ == "new"@ {
        Seq::empty()
    } else {
        " ("@ + t.status@ + ")"@
    }) + "\n"@
}

pub open spec fn task_lines(ts: Seq<Task>) -> Seq<char>
    decreases ts.len(),
{
    if ts.len() == 0 {
        Seq::empty()
    } else {
        task_lines(ts.drop_last()) + task_line(ts.last())
    }
}

/// The stage being built and its open tasks, with the ids `close_task`
/// takes.
pub open spec fn plan_text(project: Seq<char>, stage: Option<CurrentStage>) -> Seq<char> {
    match stage {
        None => project + ": no stage is planned."@,
        Some(st) => project + " · "@ + st.version@ + (match st.title {
            Some(t) => " · "@ + t@,
            None => Seq::empty(),
        }) + "\n"@ + (if st.tasks@.len() == 0 {
            "Every task of this stage is done.\n"@
        } else {
            Seq::empty()
        }) + task_lines(st.tasks@),
    }
}

/// The stage and its tasks, as the `plan` tool answers.
pub fn render_plan(project: &str, stage: &Option<CurrentStage>) -> (r: String)
    ensures
        r@ == plan_text(project@, *stage),
{
    let mut out = chars_of(project);
    match stage {
        None => {
            append_str(&mut out, ": no stage is planned.");
        },
        Some(st) => {
            append_str(&mut out, " · ");
            append(&mut out, &chars_of_string(&st.version));
            match &st.title {
                Some(t) => {
                    append_str(&mut out, " · ");
                    append(&mut out, &chars_of_string(t));
                },
                None => {},
            }
            append_str(&mut out, "\n");
            if st.tasks.len() == 0 {
                append_str(&mut out, "Every task of this stage is done.\n");
            }
            let ghost head = out@;
            let mut i: usize = 0;
            while i < st.tasks.len()
                invariant
                    i <= st.tasks.len(),
                    out@ == head + task_lines(st.tasks@.take(i as int)),
                decreases st.tasks.len() - i,
            {
                let t = &st.tasks[i];
                let ghost before = out@;
                append_str(&mut out, "- [");
                push_signed(&mut out, t.id);
                append_str(&mut out, "] ");
                append(&mut out, &chars_of_string(&t.title));
                let status = chars_of_string(&t.status);
                if !same_str(&status, "new") {
                    append_str(&mut out, " (");
                    append(&mut out, &status);
                    append_str(&mut out, ")");
                }
                append_str(&mut out, "\n");
                assert(st.tasks@.take(i + 1).drop_last() =~= st.tasks@.take(i as int));
                assert(st.tasks@.take(i + 1).last() == *t);
                assert(out@ =~= before + task_line(*t));
                i = i + 1;
            }
            assert(st.tasks@.take(st.tasks.len() as int) =~= st.tasks@);
        },
    }
    text_of(&out)
}

/// The first line of a text, or the text itself when it has no lines.
pub open spec fn first_line(body: Seq<char>) -> Seq<char> {
    if lines(body).len() > 0 {
        lines(body)[0]
    } else {
        body
    }
}

fn first_line_of(body: &str) -> (r: Vec<char>)
    ensures
        r@ == first_line(body@),
{
    let b = chars_of(body);
    let ls = lines_of(&b);
    if ls.len() > 0 {
        assert(views(ls@)[0] == ls@[0]@);
        slice(&ls[0], 0, ls[0].len())
    } else {
        b
    }
}

/// What `resolve` says of the event it closed: a question answered, a
/// question closed without an answer, or a wish sorted into the plan.
pub open spec fn resolve_reply_text(id: i64, kind: Seq<char>, body: Seq<char>, answered: bool) -> Seq<char> {
    let tag = "["@ + signed_decimal(id as int) + "]: "@ + first_line(body);
    if kind == "question"@ {
        if answered {
            "Answered "@ + tag + "\nThe answer is recorded as a decision."@
        } else {
            "Closed question "@ + tag
        }
    } else {
        "Sorted "@ + tag
    }
}

pub fn resolve_reply(id: i64, kind: &str, body: &str, answered: bool) -> (r: String)
    ensures
        r@ == resolve_reply_text(id, kind@, body@, answered),
{
    let question = same_str(&chars_of(kind), "question");
    let mut out: Vec<char> = Vec::new();
    if question {
        if answered {
            append_str(&mut out, "Answered ");
        } else {
            append_str(&mut out, "Closed question ");
        }
    } else {
        append_str(&mut out, "Sorted ");
    }
    let ghost head = out@;
    append_str(&mut out, "[");
    push_signed(&mut out, id);
    append_str(&mut out, "]: ");
    append(&mut out, &first_line_of(body));
    assert(out@ =~= head + ("["@ + signed_decimal(id as int) + "]: "@ + first_line(body@)));
    if question && answered {
        append_str(&mut out, "\nThe answer is recorded as a decision.");
    }
    text_of(&out)
}

/// What `set_task_status` says: the status a task now has and the one it
/// had, or that it had it already.
pub open spec fn status_reply_text(task: i64, status: Seq<char>, was: Seq<char>, title: Seq<char>) -> Seq<char> {
    if was == status {
        "Task "@ + signed_decimal(task as int) + " was already "@ + status + ": "@ + title
    } else {
        "Task "@ + signed_decimal(task as int) + " is now "@ + status + " (was "@ + was + "): "@ + title
    }
}

pub fn status_reply(task: i64, status: &str, was: &str, title: &str) -> (r: String)
    ensures
        r@ == status_reply_text(task, status@, was@, title@),
{
    let s = chars_of(status);
    let w = chars_of(was);
    let mut out = lit("Task ");
    push_signed(&mut out, task);
    if crate::text::same(&w, &s) {
        append_str(&mut out, " was already ");
        append(&mut out, &s);
        append_str(&mut out, ": ");
    } else {
        append_str(&mut out, " is now ");
        append(&mut out, &s);
        append_str(&mut out, " (was ");
        append(&mut out, &w);
        append_str(&mut out, "): ");
    }
    append_str(&mut out, title);
    text_of(&out)
}

/// What `close_task` says: the task closed, or already done.
pub open spec fn close_reply_text(task: i64, title: Seq<char>, unchanged: bool) -> Seq<char> {
    if unchanged {
        "Task "@ + signed_decimal(task as int) + " was already done: "@ + title
    } else {
        "Closed task "@ + signed_decimal(task as int) + ": "@ + title
    }
}

pub fn close_reply(task: i64, title: &str, unchanged: bool) -> (r: String)
    ensures
        r@ == close_reply_text(task, title@, unchanged),
{
    let mut out: Vec<char> = Vec::new();
    if unchanged {
        append_str(&mut out, "Task ");
        push_signed(&mut out, task);
        append_str(&mut out, " was already done: ");
    } else {
        append_str(&mut out, "Closed task ");
        push_signed(&mut out, task);
        append_str(&mut out, ": ");
    }
    append_str(&mut out, title);
    text_of(&out)
}

/// The kind and title a document is written with: what the call gave,
/// else what the document already had - so a rewrite cannot silently
/// retitle a vision or turn it into a research note - else `other` and the
/// slug.
pub fn doc_fields(
    kind: Option<&str>,
    title: Option<&str>,
    existing: Option<(&str, &str)>,
    slug: &str,
) -> (r: (String, String))
    ensures
        r.0@ == (match kind {
            Some(k) => k@,
            None => match existing {
                Some(e) => e.0@,
                None => "other"@,
            },
        }),
        r.1@ == (match title {
            Some(t) => t@,
            None => match existing {
                Some(e) => e.1@,
                None => slug@,
            },
        }),
{
    let k = match kind {
        Some(k) => text_of(&chars_of(k)),
        None => match existing {
            Some(e) => text_of(&chars_of(e.0)),
            None => text_of(&lit("other")),
        },
    };
    let t = match title {
        Some(t) => text_of(&chars_of(t)),
        None => match existing {
            Some(e) => text_of(&chars_of(e.1)),
            None => text_of(&chars_of(slug)),
        },
    };
    (k, t)
}

/// A body of nothing but white space is refused: a document is removed,
/// not emptied.
pub fn check_body(body: &str) -> (r: Result<(), &'static str>)
    ensures
        r is Ok <==> trim(body@).len() > 0,
        r matches Err(m) ==> m@ == "the body is empty; a document is removed with `rigger doc remove`, not by emptying it"@,
{
    if trimmed(&chars_of(body)).len() > 0 {
        Ok(())
    } else {
        Err("the body is empty; a document is removed with `rigger doc remove`, not by emptying it")
    }
}

/// What `doc_write` says of the document it wrote, with the size of its
/// body in bytes.
pub open spec fn written_reply_text(rewrote: bool, slug: Seq<char>, kind: Seq<char>, bytes: nat) -> Seq<char> {
    (if rewrote {
        "Rewrote "@
    } else {
        "Wrote "@
    }) + slug + " ("@ + kind + "), "@ + decimal(bytes) + " bytes"@
}

pub fn written_reply(rewrote: bool, slug: &str, kind: &str, bytes: usize) -> (r: String)
    ensures
        r@ == written_reply_text(rewrote, slug@, kind@, bytes as nat),
{
    let mut out = if rewrote {
        lit("Rewrote ")
    } else {
        lit("Wrote ")
    };
    append_str(&mut out, slug);
    append_str(&mut out, " (");
    append_str(&mut out, kind);
    append_str(&mut out, "), ");
    push_decimal(&mut out, bytes as u64);
    append_str(&mut out, " bytes");
    text_of(&out)
}

/// The principles the record stands on, each with how often it has been
/// named; with none yet, a nudge to name one.
pub open spec fn principle_lines(ps: Seq<(String, i64)>) -> Seq<char>
    decreases ps.len(),
{
    if ps.len() == 0 {
        Seq::empty()
    } else {
        principle_lines(ps.drop_last()) + ps.last().0@ + " ("@ + signed_decimal(ps.last().1 as int) + ")\n"@
    }
}

pub open spec fn principles_text(ps: Seq<(String, i64)>) -> Seq<char> {
    if ps.len() == 0 {
        "No decision names a principle yet. Name one on the next decision that is an instance of something this line already believes."@
    } else {
        principle_lines(ps)
    }
}

pub fn render_principles(ps: &Vec<(String, i64)>) -> (r: String)
    ensures
        r@ == principles_text(ps@),
{
    if ps.len() == 0 {
        return text_of(&lit("No decision names a principle yet. Name one on the next decision that is an instance of something this line already believes."));
    }
    let mut out: Vec<char> = Vec::new();
    let mut i: usize = 0;
    while i < ps.len()
        invariant
            i <= ps.len(),
            out@ == principle_lines(ps@.take(i as int)),
        decreases ps.len() - i,
    {
        let ghost before = out@;
        append(&mut out, &chars_of_string(&ps[i].0));
        append_str(&mut out, " (");
        push_signed(&mut out, ps[i].1);
        append_str(&mut out, ")\n");
        assert(ps@.take(i + 1).drop_last() =~= ps@.take(i as int));
        assert(ps@.take(i + 1).last() == ps@[i as int]);
        assert(out@ =~= before + ps@[i as int].0@ + " ("@ + signed_decimal(ps@[i as int].1 as int) + ")\n"@);
        i = i + 1;
    }
    assert(ps@.take(ps.len() as int) =~= ps@);
    text_of(&out)
}

/// One side of a link as its reply names it: the project, and the version
/// it is anchored at when it is.
pub open spec fn side_text(name: Seq<char>, version: Option<Seq<char>>) -> Seq<char> {
    match version {
        Some(v) => name + " "@ + v,
        None => name,
    }
}

/// What `link` says of the link it recorded, or found recorded already.
pub open spec fn link_reply_text(
    id: i64,
    added: bool,
    kind: crate::link::Kind,
    from: Seq<char>,
    from_version: Option<Seq<char>>,
    to: Seq<char>,
    to_version: Option<Seq<char>>,
) -> Seq<char> {
    "["@ + signed_decimal(id as int) + "] "@ + (if added {
        Seq::empty()
    } else {
        "already recorded: "@
    }) + side_text(from, from_version) + (if kind == crate::link::Kind::Pair {
        " <-> "@
    } else {
        " -> "@
    }) + side_text(to, to_version) + " ("@ + crate::link::kind_name(kind) + ")"@
}

fn push_side(out: &mut Vec<char>, name: &str, version: Option<&str>)
    ensures
        final(out)@ == old(out)@ + side_text(name@, opt_view(version)),
{
    append_str(out, name);
    if let Some(v) = version {
        append_str(out, " ");
        append_str(out, v);
    }
}

pub fn link_reply(
    id: i64,
    added: bool,
    kind: crate::link::Kind,
    from: &str,
    from_version: Option<&str>,
    to: &str,
    to_version: Option<&str>,
) -> (r: String)
    ensures
        r@ == link_reply_text(id, added, kind, from@, opt_view(from_version), to@, opt_view(to_version)),
{
    let mut out = lit("[");
    push_signed(&mut out, id);
    append_str(&mut out, "] ");
    if !added {
        append_str(&mut out, "already recorded: ");
    }
    push_side(&mut out, from, from_version);
    if kind.symmetric() {
        append_str(&mut out, " <-> ");
    } else {
        append_str(&mut out, " -> ");
    }
    push_side(&mut out, to, to_version);
    append_str(&mut out, " (");
    append_str(&mut out, kind.as_str());
    append_str(&mut out, ")");
    text_of(&out)
}

/// What `link` answers when both of its sides name the same project.
pub open spec fn self_link_text(name: Seq<char>) -> Seq<char> {
    "a link joins two projects; "@ + name + " is one"@
}

/// A link joins two projects: the ends are refused when they are one.
pub fn link_ends(from_id: i64, to_id: i64, from_name: &str) -> (r: Result<(), String>)
    ensures
        (r is Ok) == (from_id != to_id),
        r matches Err(m) ==> m@ == self_link_text(from_name@),
{
    if from_id == to_id {
        let mut out = lit("a link joins two projects; ");
        append_str(&mut out, from_name);
        append_str(&mut out, " is one");
        return Err(text_of(&out));
    }
    Ok(())
}

/// The URI a project is served under as a resource.
pub open spec fn resource_uri_text(project: Seq<char>) -> Seq<char> {
    "rigger://"@ + project + "/context"@
}

pub fn resource_uri(project: &str) -> (r: String)
    ensures
        r@ == resource_uri_text(project@),
{
    let mut out = lit("rigger://");
    append_str(&mut out, project);
    append_str(&mut out, "/context");
    text_of(&out)
}

/// A project's resource URI names the project back.
pub proof fn law_resource_uri_names_its_project(project: Seq<char>)
    requires
        project.len() > 0,
    ensures
        uri_project(resource_uri_text(project)) == Some(project),
{
    let uri = resource_uri_text(project);
    let head = "rigger://"@;
    let tail = "/context"@;
    assert(uri.take(head.len() as int) =~= head);
    let rest = uri.skip(head.len() as int);
    assert(rest =~= project + tail);
    assert(rest.skip(rest.len() - tail.len()) =~= tail);
    assert(rest.take(rest.len() - tail.len()) =~= project);
}

/// How a project is listed among the resources: its name, and what reading
/// it gives.
pub fn resource_name(project: &str) -> (r: String)
    ensures
        r@ == project@ + " context"@,
{
    let mut out = chars_of(project);
    append_str(&mut out, " context");
    text_of(&out)
}

pub fn resource_description(project: &str) -> (r: String)
    ensures
        r@ == "Where "@ + project@ + " stands: shipped, current stage, open questions, recent events"@,
{
    let mut out = lit("Where ");
    append_str(&mut out, project);
    append_str(&mut out, " stands: shipped, current stage, open questions, recent events");
    text_of(&out)
}

/// What a read of a URI that is not one of the server's is told.
pub fn not_a_resource(uri: &str) -> (r: String)
    ensures
        r@ == "`"@ + uri@ + "` is not a rigger resource; they are `rigger://<project>/context`"@,
{
    let mut out = lit("`");
    append_str(&mut out, uri);
    append_str(&mut out, "` is not a rigger resource; they are `rigger://<project>/context`");
    text_of(&out)
}

/// The prompt asked for, when it is the one the server has.
pub fn check_prompt(name: &str) -> (r: Result<(), String>)
    ensures
        r is Ok <==> name@ == PROMPT_NAME@,
        r matches Err(m) ==> m@ == "rigger serves no prompt named `"@ + name@ + "`"@,
{
    if same_str(&chars_of(name), PROMPT_NAME) {
        Ok(())
    } else {
        let mut out = lit("rigger serves no prompt named `");
        append_str(&mut out, name);
        append_str(&mut out, "`");
        Err(text_of(&out))
    }
}

/// What the prompt says of itself once filled for a project.
pub fn prompt_description(project: &str) -> (r: String)
    ensures
        r@ == "Where "@ + project@ + " stands, from rigger"@,
{
    let mut out = lit("Where ");
    append_str(&mut out, project);
    append_str(&mut out, " stands, from rigger");
    text_of(&out)
}

/// What the server says of itself when a session opens: the protocol it
/// speaks, what it offers, its name and build, and how a session should
/// use it.
#[derive(Debug, Clone)]
pub struct Hello {
    pub protocol_version: &'static str,
    /// It offers tools, prompts and resources; without the tools capability a
    /// client never asks for the tools.
    pub tools: bool,
    pub prompts: bool,
    pub resources: bool,
    pub name: &'static str,
    pub version: &'static str,
    pub instructions: &'static str,
}

pub fn initialize(version: &'static str) -> (r: Hello)
    ensures
        r.protocol_version == PROTOCOL_VERSION,
        r.tools && r.prompts && r.resources,
        r.name@ == "rigger"@,
        r.version == version,
{
    Hello {
        protocol_version: PROTOCOL_VERSION,
        tools: true,
        prompts: true,
        resources: true,
        name: "rigger",
        version,
        instructions: "The record of this project: what is done, what is next, what waits for the owner. Start a session with the `context` tool, or the `start session` prompt. Record what you decide, find or break with `record_decision`, `record_finding`, `record_pitfall` and `record_change` as it happens, not at the end. Leave the next session one line with `set_next_step`. Anything only the owner can settle goes to `ask_owner`; anything for the plan later goes to `wish`.",
    }
}


/// The line a session on a card starts with, before the card's page.
pub open spec fn task_context_preface() -> Seq<char> {
    "This is where the task stands, from rigger. Pick up from the next step; record against it with the `task` argument of `record_decision`, `record_finding`, `record_pitfall`, `record_plan` and `record_change`, and leave the next line with `set_next_step`.\n\n"@
}

/// What `task_context` answers: the preface, then the card's page.
pub fn task_context_reply(page: &str) -> (r: String)
    ensures
        r@ == task_context_preface() + page@,
{
    let mut out = lit(
        "This is where the task stands, from rigger. Pick up from the next step; record against it with the `task` argument of `record_decision`, `record_finding`, `record_pitfall`, `record_plan` and `record_change`, and leave the next line with `set_next_step`.\n\n",
    );
    append_str(&mut out, page);
    text_of(&out)
}

/// A card a number or id of the task was found in, though the search did
/// not show it.
pub open spec fn mentioned_text(needle: Seq<char>, key: Seq<char>, title: Seq<char>) -> Seq<char> {
    "mentioned "@ + needle + ": "@ + key + " - "@ + title + "\n"@
}

pub fn mentioned_line(needle: &str, key: &str, title: &str) -> (r: String)
    ensures
        r@ == mentioned_text(needle@, key@, title@),
{
    let mut out = lit("mentioned ");
    append_str(&mut out, needle);
    append_str(&mut out, ": ");
    append_str(&mut out, key);
    append_str(&mut out, " - ");
    append_str(&mut out, title);
    append_str(&mut out, "\n");
    text_of(&out)
}

/// A decision that stands on a principle, as `why_principle` lists it:
/// when, in which project, of what kind, and what it says.
pub struct Standing {
    pub at: String,
    pub project: String,
    pub kind: String,
    pub body: String,
}

pub open spec fn standing_text(e: Standing) -> Seq<char> {
    split_class(e.at@, Class::Is('T'))[0] + " · "@ + e.project@ + " · "@ + e.kind@ + "\n"@ + e.body@ + "\n\n"@
}

pub open spec fn standings_text(es: Seq<Standing>) -> Seq<char>
    decreases es.len(),
{
    if es.len() == 0 {
        Seq::empty()
    } else {
        standings_text(es.drop_last()) + standing_text(es.last())
    }
}

pub open spec fn names_joined(ns: Seq<Seq<char>>) -> Seq<char>
    decreases ns.len(),
{
    if ns.len() == 0 {
        Seq::empty()
    } else if ns.len() == 1 {
        ns[0]
    } else {
        names_joined(ns.drop_last()) + ", "@ + ns.last()
    }
}

/// What `why_principle` answers: the principle and every decision on it,
/// or, when nothing stands on it, the names the record knows - far likelier
/// a synonym than a new principle.
pub open spec fn why_text(principle: Seq<char>, es: Seq<Standing>, known: Seq<Seq<char>>) -> Result<Seq<char>, Seq<char>> {
    if es.len() == 0 {
        Err("nothing stands on '"@ + principle + "'; the record knows "@ + names_joined(known))
    } else {
        Ok(principle + "\n\n"@ + standings_text(es))
    }
}

pub fn why_reply(principle: &str, events: &Vec<Standing>, known: &Vec<String>) -> (r: Result<String, String>)
    ensures
        match r {
            Ok(t) => why_text(principle@, events@, strings(known@)) == Ok::<Seq<char>, Seq<char>>(t@),
            Err(m) => why_text(principle@, events@, strings(known@)) == Err::<Seq<char>, Seq<char>>(m@),
        },
{
    if events.len() == 0 {
        let mut out = lit("nothing stands on '");
        append_str(&mut out, principle);
        append_str(&mut out, "'; the record knows ");
        let ghost start = out@;
        for i in 0..known.len()
            invariant
                out@ == start + names_joined(strings(known@).take(i as int)),
        {
            let ghost prev = strings(known@).take(i as int);
            assert(strings(known@).take(i + 1).drop_last() =~= prev);
            if i > 0 {
                append_str(&mut out, ", ");
            }
            append(&mut out, &chars_of_string(&known[i]));
            assert(out@ =~= start + names_joined(strings(known@).take(i + 1)));
        }
        assert(strings(known@).take(known.len() as int) =~= strings(known@));
        return Err(text_of(&out));
    }
    let mut out = chars_of(principle);
    append_str(&mut out, "\n\n");
    let ghost start = out@;
    for i in 0..events.len()
        invariant
            out@ == start + standings_text(events@.take(i as int)),
    {
        assert(events@.take(i + 1).drop_last() =~= events@.take(i as int));
        let e = &events[i];
        let parts = split_by(&chars_of_string(&e.at), Class::Is('T'));
        append(&mut out, &parts[0]);
        append_str(&mut out, " · ");
        append(&mut out, &chars_of_string(&e.project));
        append_str(&mut out, " · ");
        append(&mut out, &chars_of_string(&e.kind));
        append_str(&mut out, "\n");
        append(&mut out, &chars_of_string(&e.body));
        append_str(&mut out, "\n\n");
        assert(out@ =~= start + standings_text(events@.take(i + 1)));
    }
    assert(events@.take(events.len() as int) =~= events@);
    Ok(text_of(&out))
}

} // verus!
