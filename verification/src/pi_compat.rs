//! The parts of the Pi extension host that decide: which Pi capabilities
//! are supported, which names are valid module and function identifiers, and
//! whether an extension's metadata and tool definitions are well formed.

use vstd::prelude::*;
use crate::json::{JsonValue, array_field, str_field, text_eq};
use crate::text::{push_str, spec_is_ascii_alphabetic, spec_is_ascii_alphanumeric, spec_is_whitespace};

verus! {

#[derive(Clone, Copy, Debug, PartialEq, Eq, Structural)]
pub enum CapabilityStatus {
    Supported,
    Partial,
    Unsupported,
}

#[derive(Clone, Copy, Debug, PartialEq, Eq)]
pub struct PiCapability {
    pub name: &'static str,
    pub status: CapabilityStatus,
}

/// What the compatibility layer supports of Pi's extension API, in order.
pub open spec fn matrix() -> Seq<(Seq<char>, CapabilityStatus)> {
    seq![
        ("session_start"@, CapabilityStatus::Supported),
        ("session_shutdown"@, CapabilityStatus::Supported),
        ("input"@, CapabilityStatus::Supported),
        ("before_agent_start"@, CapabilityStatus::Supported),
        ("context"@, CapabilityStatus::Supported),
        ("agent_start"@, CapabilityStatus::Supported),
        ("agent_end"@, CapabilityStatus::Supported),
        ("agent_settled"@, CapabilityStatus::Supported),
        ("turn_start"@, CapabilityStatus::Supported),
        ("turn_end"@, CapabilityStatus::Supported),
        ("message_start"@, CapabilityStatus::Supported),
        ("message_update"@, CapabilityStatus::Supported),
        ("message_end"@, CapabilityStatus::Supported),
        ("tool_execution_start"@, CapabilityStatus::Supported),
        ("tool_execution_update"@, CapabilityStatus::Partial),
        ("tool_execution_end"@, CapabilityStatus::Supported),
        ("tool_call"@, CapabilityStatus::Supported),
        ("tool_result"@, CapabilityStatus::Supported),
        ("registerTool"@, CapabilityStatus::Supported),
        ("registerCommand"@, CapabilityStatus::Supported),
        ("sendUserMessage"@, CapabilityStatus::Supported),
        ("sendMessage"@, CapabilityStatus::Partial),
        ("appendEntry"@, CapabilityStatus::Supported),
        ("events.emit/on"@, CapabilityStatus::Partial),
        ("registerProvider"@, CapabilityStatus::Unsupported),
        ("registerShortcut"@, CapabilityStatus::Partial),
        ("registerMessageRenderer"@, CapabilityStatus::Partial),
        ("registerEntryRenderer"@, CapabilityStatus::Partial),
        ("registerMarkdownTransformer"@, CapabilityStatus::Partial),
        ("onTerminalInput"@, CapabilityStatus::Partial),
        ("registerFlag"@, CapabilityStatus::Unsupported),
        ("pi-ui-0.84.2"@, CapabilityStatus::Partial),
        ("terminal-images"@, CapabilityStatus::Unsupported),
        ("undocumented-pi-internals"@, CapabilityStatus::Unsupported)
    ]
}

pub open spec fn capability_view(c: PiCapability) -> (Seq<char>, CapabilityStatus) {
    (c.name@, c.status)
}

/// The compatibility matrix: each Pi capability with how far it is supported.
pub fn compatibility_matrix() -> (r: Vec<PiCapability>)
    ensures
        r@.map_values(|c: PiCapability| capability_view(c)) == matrix(),
{
    let mut r: Vec<PiCapability> = Vec::new();
    r.push(PiCapability { name: "session_start", status: CapabilityStatus::Supported });
    r.push(PiCapability { name: "session_shutdown", status: CapabilityStatus::Supported });
    r.push(PiCapability { name: "input", status: CapabilityStatus::Supported });
    r.push(PiCapability { name: "before_agent_start", status: CapabilityStatus::Supported });
    r.push(PiCapability { name: "context", status: CapabilityStatus::Supported });
    r.push(PiCapability { name: "agent_start", status: CapabilityStatus::Supported });
    r.push(PiCapability { name: "agent_end", status: CapabilityStatus::Supported });
    r.push(PiCapability { name: "agent_settled", status: CapabilityStatus::Supported });
    r.push(PiCapability { name: "turn_start", status: CapabilityStatus::Supported });
    r.push(PiCapability { name: "turn_end", status: CapabilityStatus::Supported });
    r.push(PiCapability { name: "message_start", status: CapabilityStatus::Supported });
    r.push(PiCapability { name: "message_update", status: CapabilityStatus::Supported });
    r.push(PiCapability { name: "message_end", status: CapabilityStatus::Supported });
    r.push(PiCapability { name: "tool_execution_start", status: CapabilityStatus::Supported });
    r.push(PiCapability { name: "tool_execution_update", status: CapabilityStatus::Partial });
    r.push(PiCapability { name: "tool_execution_end", status: CapabilityStatus::Supported });
    r.push(PiCapability { name: "tool_call", status: CapabilityStatus::Supported });
    r.push(PiCapability { name: "tool_result", status: CapabilityStatus::Supported });
    r.push(PiCapability { name: "registerTool", status: CapabilityStatus::Supported });
    r.push(PiCapability { name: "registerCommand", status: CapabilityStatus::Supported });
    r.push(PiCapability { name: "sendUserMessage", status: CapabilityStatus::Supported });
    r.push(PiCapability { name: "sendMessage", status: CapabilityStatus::Partial });
    r.push(PiCapability { name: "appendEntry", status: CapabilityStatus::Supported });
    r.push(PiCapability { name: "events.emit/on", status: CapabilityStatus::Partial });
    r.push(PiCapability { name: "registerProvider", status: CapabilityStatus::Unsupported });
    r.push(PiCapability { name: "registerShortcut", status: CapabilityStatus::Partial });
    r.push(PiCapability { name: "registerMessageRenderer", status: CapabilityStatus::Partial });
    r.push(PiCapability { name: "registerEntryRenderer", status: CapabilityStatus::Partial });
    r.push(PiCapability { name: "registerMarkdownTransformer", status: CapabilityStatus::Partial });
    r.push(PiCapability { name: "onTerminalInput", status: CapabilityStatus::Partial });
    r.push(PiCapability { name: "registerFlag", status: CapabilityStatus::Unsupported });
    r.push(PiCapability { name: "pi-ui-0.84.2", status: CapabilityStatus::Partial });
    r.push(PiCapability { name: "terminal-images", status: CapabilityStatus::Unsupported });
    r.push(PiCapability { name: "undocumented-pi-internals", status: CapabilityStatus::Unsupported });
    assert(r@.map_values(|c: PiCapability| capability_view(c)) =~= matrix());
    r
}

/// The names of the unsupported capabilities, in matrix order.
pub open spec fn unsupported_names(m: Seq<(Seq<char>, CapabilityStatus)>) -> Seq<Seq<char>>
    decreases m.len(),
{
    if m.len() == 0 {
        seq![]
    } else {
        let rest = unsupported_names(m.drop_last());
        if m.last().1 == CapabilityStatus::Unsupported {
            rest.push(m.last().0)
        } else {
            rest
        }
    }
}

pub fn unsupported_capabilities() -> (r: Vec<&'static str>)
    ensures
        r@.map_values(|s: &str| s@) == unsupported_names(matrix()),
{
    let all = compatibility_matrix();
    let ghost view = all@.map_values(|c: PiCapability| capability_view(c));
    let mut r: Vec<&'static str> = Vec::new();
    let mut i: usize = 0;
    while i < all.len()
        invariant
            i <= all@.len(),
            view == all@.map_values(|c: PiCapability| capability_view(c)),
            r@.map_values(|s: &str| s@) == unsupported_names(view.take(i as int)),
        decreases all@.len() - i,
    {
        assert(view.take(i + 1).drop_last() =~= view.take(i as int));
        if all[i].status == CapabilityStatus::Unsupported {
            let ghost before = r@;
            r.push(all[i].name);
            assert(r@.map_values(|s: &str| s@) =~= before.map_values(|s: &str| s@).push(all@[i as int].name@));
        }
        i += 1;
    }
    assert(view.take(all@.len() as int) =~= view);
    r
}

/// A character that may start an identifier: `_`, `$` or an ASCII letter.
pub open spec fn ident_start(c: char) -> bool {
    c == '_' || c == '$' || spec_is_ascii_alphabetic(c)
}

/// A character that may continue a function name: `_`, `$` or ASCII alphanumeric.
pub open spec fn function_char(c: char) -> bool {
    c == '_' || c == '$' || spec_is_ascii_alphanumeric(c)
}

/// A character that may continue a module name: as in a function name, or `-`.
pub open spec fn module_char(c: char) -> bool {
    function_char(c) || c == '-'
}

pub open spec fn spec_valid_module_name(s: Seq<char>) -> bool {
    s.len() > 0 && ident_start(s[0]) && forall|k: int| 1 <= k < s.len() ==> module_char(#[trigger] s[k])
}

pub open spec fn spec_valid_function_name(s: Seq<char>) -> bool {
    s.len() > 0 && ident_start(s[0]) && forall|k: int| 1 <= k < s.len() ==> function_char(#[trigger] s[k])
}

fn is_ident_start(c: char) -> (r: bool)
    ensures
        r == ident_start(c),
{
    c == '_' || c == '$' || crate::text::is_ascii_alphabetic(c)
}

fn is_function_char(c: char) -> (r: bool)
    ensures
        r == function_char(c),
{
    c == '_' || c == '$' || crate::text::is_ascii_alphanumeric(c)
}

/// A module name: an identifier start, then letters, digits, `_`, `$` or `-`.
pub fn valid_module_name(name: &str) -> (r: bool)
    ensures
        r == spec_valid_module_name(name@),
{
    let s = crate::text::chars_of(name);
    if s.len() == 0 || !is_ident_start(s[0]) {
        return false;
    }
    let mut i: usize = 1;
    while i < s.len()
        invariant
            1 <= i <= s@.len(),
            s@ == name@,
            forall|k: int| 1 <= k < i ==> module_char(#[trigger] s@[k]),
        decreases s@.len() - i,
    {
        if !(is_function_char(s[i]) || s[i] == '-') {
            return false;
        }
        i += 1;
    }
    true
}

/// A JavaScript identifier: an identifier start, then letters, digits, `_` or `$`.
pub fn valid_function_name(name: &str) -> (r: bool)
    ensures
        r == spec_valid_function_name(name@),
{
    let s = crate::text::chars_of(name);
    if s.len() == 0 || !is_ident_start(s[0]) {
        return false;
    }
    let mut i: usize = 1;
    while i < s.len()
        invariant
            1 <= i <= s@.len(),
            s@ == name@,
            forall|k: int| 1 <= k < i ==> function_char(#[trigger] s@[k]),
        decreases s@.len() - i,
    {
        if !is_function_char(s[i]) {
            return false;
        }
        i += 1;
    }
    true
}

/// The module name of an entry file stem: `-` becomes `_`.
pub open spec fn module_name_of(stem: Seq<char>) -> Seq<char> {
    stem.map_values(|c: char| if c == '-' { '_' } else { c })
}

/// The module name for a file stem, when it is a valid module name.
pub fn module_name_for_stem(stem: &str) -> (r: Option<String>)
    ensures
        spec_valid_module_name(module_name_of(stem@)) ==> (r matches Some(n) && n@ == module_name_of(stem@)),
        !spec_valid_module_name(module_name_of(stem@)) ==> r is None,
{
    let s = crate::text::chars_of(stem);
    let mut name = String::new();
    let mut i: usize = 0;
    while i < s.len()
        invariant
            i <= s@.len(),
            s@ == stem@,
            name@ == module_name_of(s@.take(i as int)),
        decreases s@.len() - i,
    {
        crate::text::push_char(&mut name, if s[i] == '-' { '_' } else { s[i] });
        assert(module_name_of(s@.take(i + 1)) =~= module_name_of(s@.take(i as int)).push(
            if s@[i as int] == '-' { '_' } else { s@[i as int] },
        ));
        i += 1;
    }
    assert(s@.take(s@.len() as int) =~= s@);
    if valid_module_name(name.as_str()) {
        Some(name)
    } else {
        None
    }
}

/// Text that is empty once white space is trimmed.
pub open spec fn blank(s: Seq<char>) -> bool {
    forall|j: int| 0 <= j < s.len() ==> spec_is_whitespace(#[trigger] s[j])
}

fn is_blank(s: &str) -> (r: bool)
    ensures
        r == blank(s@),
{
    let chars = crate::text::chars_of(s);
    let mut i: usize = 0;
    while i < chars.len()
        invariant
            i <= chars@.len(),
            chars@ == s@,
            forall|j: int| 0 <= j < i ==> spec_is_whitespace(#[trigger] chars@[j]),
        decreases chars@.len() - i,
    {
        if !crate::text::is_whitespace(chars[i]) {
            return false;
        }
        i += 1;
    }
    true
}

/// The schema describes an object: its `type` is the string `object`.
pub open spec fn object_schema(schema: JsonValue) -> bool {
    str_field(schema, "type"@) == Some("object"@)
}

fn is_object_schema(schema: &JsonValue) -> (r: bool)
    ensures
        r == object_schema(*schema),
{
    match schema.get_str("type") {
        Some(t) => text_eq(t.as_str(), "object"),
        None => false,
    }
}

/// One function of a native extension, as its metadata describes it.
#[derive(Debug)]
pub struct ToolFunction {
    pub name: String,
    pub description: String,
    pub requires_await: bool,
    pub parameters: Vec<String>,
    pub schema: JsonValue,
    pub output_schema: JsonValue,
}

/// Model-visible description of one loaded native extension.
#[derive(Debug)]
pub struct ToolExtension {
    pub name: String,
    pub description: String,
    pub system_prompt: String,
    pub functions: Vec<ToolFunction>,
}

/// A tool that a JavaScript extension registers.
#[derive(Debug)]
pub struct ExtensionToolDef {
    pub name: String,
    pub description: String,
    pub parameters: JsonValue,
}

/// The names of the first `n` entries of `names` hold `name`.
pub open spec fn seen_before(names: Seq<Seq<char>>, n: int, name: Seq<char>) -> bool {
    exists|j: int| 0 <= j < n && names[j] == name
}

/// The first problem among the tools from index `k` on of a module, if any:
/// a name that is not an identifier, a name used twice, an empty description
/// (for JavaScript tools) or a schema that is not an object, in that order
/// for each tool.
pub open spec fn tools_error(
    module: Seq<char>,
    names: Seq<Seq<char>>,
    descriptions_blank: Seq<bool>,
    schemas_object: Seq<bool>,
    check_description: bool,
    k: int,
) -> Option<Seq<char>>
    decreases names.len() - k,
{
    if k < 0 || k >= names.len() {
        None
    } else if !spec_valid_function_name(names[k]) {
        Some(module + "."@ + names[k] + " is not a JavaScript identifier"@)
    } else if seen_before(names, k, names[k]) {
        Some(module + " declares duplicate tool "@ + names[k])
    } else if check_description && descriptions_blank[k] {
        Some(module + "."@ + names[k] + " description is empty"@)
    } else if !schemas_object[k] {
        Some(module + "."@ + names[k] + " input schema must be an object"@)
    } else {
        tools_error(module, names, descriptions_blank, schemas_object, check_description, k + 1)
    }
}

fn name_seen(names: &Vec<&str>, n: usize, name: &str) -> (r: bool)
    requires
        n <= names@.len(),
    ensures
        r == seen_before(names@.map_values(|s: &str| s@), n as int, name@),
{
    let ghost view = names@.map_values(|s: &str| s@);
    let mut j: usize = 0;
    while j < n
        invariant
            j <= n <= names@.len(),
            view == names@.map_values(|s: &str| s@),
            forall|m: int| 0 <= m < j ==> view[m] != name@,
        decreases n - j,
    {
        if text_eq(names[j], name) {
            assert(view[j as int] == name@);
            return true;
        }
        j += 1;
    }
    false
}

fn first_tool_error(
    module: &str,
    names: &Vec<&str>,
    descriptions_blank: &Vec<bool>,
    schemas_object: &Vec<bool>,
    check_description: bool,
) -> (r: Option<String>)
    requires
        descriptions_blank@.len() == names@.len(),
        schemas_object@.len() == names@.len(),
    ensures
        crate::text::opt_string_view(r) == tools_error(
            module@,
            names@.map_values(|s: &str| s@),
            descriptions_blank@,
            schemas_object@,
            check_description,
            0,
        ),
{
    let ghost view = names@.map_values(|s: &str| s@);
    let mut k: usize = 0;
    while k < names.len()
        invariant
            k <= names@.len(),
            descriptions_blank@.len() == names@.len(),
            schemas_object@.len() == names@.len(),
            view == names@.map_values(|s: &str| s@),
            tools_error(module@, view, descriptions_blank@, schemas_object@, check_description, 0)
                == tools_error(module@, view, descriptions_blank@, schemas_object@, check_description, k as int),
        decreases names@.len() - k,
    {
        let name = names[k];
        assert(view[k as int] == name@);
        if !valid_function_name(name) {
            let mut m = String::from_str(module);
            push_str(&mut m, ".");
            push_str(&mut m, name);
            push_str(&mut m, " is not a JavaScript identifier");
            return Some(m);
        }
        if name_seen(names, k, name) {
            let mut m = String::from_str(module);
            push_str(&mut m, " declares duplicate tool ");
            push_str(&mut m, name);
            return Some(m);
        }
        if check_description && descriptions_blank[k] {
            let mut m = String::from_str(module);
            push_str(&mut m, ".");
            push_str(&mut m, name);
            push_str(&mut m, " description is empty");
            return Some(m);
        }
        if !schemas_object[k] {
            let mut m = String::from_str(module);
            push_str(&mut m, ".");
            push_str(&mut m, name);
            push_str(&mut m, " input schema must be an object");
            return Some(m);
        }
        k += 1;
    }
    None
}

pub open spec fn function_names(fs: Seq<ToolFunction>) -> Seq<Seq<char>> {
    fs.map_values(|f: ToolFunction| f.name@)
}

pub open spec fn function_schemas_object(fs: Seq<ToolFunction>) -> Seq<bool> {
    fs.map_values(|f: ToolFunction| object_schema(f.schema))
}

/// The first problem with a native extension's metadata, if any: an empty
/// name, a name that is not a module name, an empty description, then the
/// first problem among its functions.
pub open spec fn metadata_error(e: ToolExtension) -> Option<Seq<char>> {
    if blank(e.name@) {
        Some("extension name is empty"@)
    } else if !spec_valid_module_name(e.name@) {
        Some("invalid PTC module name: "@ + e.name@)
    } else if blank(e.description@) {
        Some(e.name@ + " extension description is empty"@)
    } else {
        tools_error(
            e.name@,
            function_names(e.functions@),
            Seq::new(e.functions@.len(), |i: int| false),
            function_schemas_object(e.functions@),
            false,
            0,
        )
    }
}

/// Checks a native extension's metadata; the error names the first problem.
pub fn validate_metadata(extension: &ToolExtension) -> (r: Result<(), String>)
    ensures
        match metadata_error(*extension) {
            Some(m) => r matches Err(e) && e@ == m,
            None => r is Ok,
        },
{
    if is_blank(extension.name.as_str()) {
        return Err(String::from_str("extension name is empty"));
    }
    if !valid_module_name(extension.name.as_str()) {
        let mut m = String::from_str("invalid PTC module name: ");
        push_str(&mut m, extension.name.as_str());
        return Err(m);
    }
    if is_blank(extension.description.as_str()) {
        let mut m = extension.name.clone();
        push_str(&mut m, " extension description is empty");
        return Err(m);
    }
    let mut names: Vec<&str> = Vec::new();
    let mut blanks: Vec<bool> = Vec::new();
    let mut objects: Vec<bool> = Vec::new();
    let mut i: usize = 0;
    while i < extension.functions.len()
        invariant
            i <= extension.functions@.len(),
            names@.len() == i,
            blanks@.len() == i,
            objects@.len() == i,
            names@.map_values(|s: &str| s@) == function_names(extension.functions@.take(i as int)),
            blanks@ == Seq::new(i as nat, |j: int| false),
            objects@ == function_schemas_object(extension.functions@.take(i as int)),
        decreases extension.functions@.len() - i,
    {
        let f = &extension.functions[i];
        let ghost before_names = names@;
        names.push(f.name.as_str());
        blanks.push(false);
        objects.push(is_object_schema(&f.schema));
        assert(extension.functions@.take(i + 1) =~= extension.functions@.take(i as int).push(
            extension.functions@[i as int],
        ));
        assert(names@.map_values(|s: &str| s@) =~= before_names.map_values(|s: &str| s@).push(
            extension.functions@[i as int].name@,
        ));
        assert(names@.map_values(|s: &str| s@) =~= function_names(extension.functions@.take(i + 1)));
        assert(blanks@ =~= Seq::new((i + 1) as nat, |j: int| false));
        assert(objects@ =~= function_schemas_object(extension.functions@.take(i + 1)));
        i += 1;
    }
    assert(extension.functions@.take(extension.functions@.len() as int) =~= extension.functions@);
    match first_tool_error(extension.name.as_str(), &names, &blanks, &objects, false) {
        Some(m) => Err(m),
        None => Ok(()),
    }
}

pub open spec fn tool_names(ts: Seq<ExtensionToolDef>) -> Seq<Seq<char>> {
    ts.map_values(|t: ExtensionToolDef| t.name@)
}

pub open spec fn tool_descriptions_blank(ts: Seq<ExtensionToolDef>) -> Seq<bool> {
    ts.map_values(|t: ExtensionToolDef| blank(t.description@))
}

pub open spec fn tool_schemas_object(ts: Seq<ExtensionToolDef>) -> Seq<bool> {
    ts.map_values(|t: ExtensionToolDef| object_schema(t.parameters))
}

/// Checks the tools a JavaScript module registers; the error names the first
/// problem.
pub fn validate_js_tools(module: &str, tools: &[ExtensionToolDef]) -> (r: Result<(), String>)
    ensures
        match tools_error(
            module@,
            tool_names(tools@),
            tool_descriptions_blank(tools@),
            tool_schemas_object(tools@),
            true,
            0,
        ) {
            Some(m) => r matches Err(e) && e@ == m,
            None => r is Ok,
        },
{
    let mut names: Vec<&str> = Vec::new();
    let mut blanks: Vec<bool> = Vec::new();
    let mut objects: Vec<bool> = Vec::new();
    let mut i: usize = 0;
    while i < tools.len()
        invariant
            i <= tools@.len(),
            names@.len() == i,
            blanks@.len() == i,
            objects@.len() == i,
            names@.map_values(|s: &str| s@) == tool_names(tools@.take(i as int)),
            blanks@ == tool_descriptions_blank(tools@.take(i as int)),
            objects@ == tool_schemas_object(tools@.take(i as int)),
        decreases tools@.len() - i,
    {
        let t = &tools[i];
        let ghost before_names = names@;
        names.push(t.name.as_str());
        blanks.push(is_blank(t.description.as_str()));
        objects.push(is_object_schema(&t.parameters));
        assert(tools@.take(i + 1) =~= tools@.take(i as int).push(tools@[i as int]));
        assert(names@.map_values(|s: &str| s@) =~= before_names.map_values(|s: &str| s@).push(
            tools@[i as int].name@,
        ));
        assert(names@.map_values(|s: &str| s@) =~= tool_names(tools@.take(i + 1)));
        assert(blanks@ =~= tool_descriptions_blank(tools@.take(i + 1)));
        assert(objects@ =~= tool_schemas_object(tools@.take(i + 1)));
        i += 1;
    }
    assert(tools@.take(tools@.len() as int) =~= tools@);
    match first_tool_error(module, &names, &blanks, &objects, true) {
        Some(m) => Err(m),
        None => Ok(()),
    }
}

/// What a program run printed.
#[derive(Debug)]
pub struct PTCOutput {
    pub stdout: String,
    pub stderr: String,
}


/// A JavaScript extension's module: its name in programs, the id the
/// runtime knows the extension by, and its tools.
#[derive(Debug)]
pub struct JsExtension {
    pub module: String,
    pub extension_id: String,
    pub tools: Vec<ExtensionToolDef>,
}

/// A function a program can call, with the parameters it names and how many
/// of them are required.
#[derive(Debug)]
pub struct NativeFunction {
    pub name: String,
    pub parameters: Vec<String>,
    pub required_parameters: usize,
}

/// A module a program can import.
#[derive(Debug)]
pub struct NativeModule {
    pub name: String,
    pub functions: Vec<NativeFunction>,
}

/// How many parameters a schema's `required` array lists (none without one).
pub open spec fn required_count(schema: JsonValue) -> nat {
    match array_field(schema, "required"@) {
        Some(items) => items.len(),
        None => 0,
    }
}

pub open spec fn native_function_ok(f: NativeFunction, t: ToolFunction) -> bool {
    &&& f.name@ == t.name@
    &&& f.parameters@ == t.parameters@
    &&& f.required_parameters == required_count(t.schema)
}

/// A native extension's module: its functions, in order, as the extension
/// describes them.
pub open spec fn native_module_ok(m: NativeModule, e: ToolExtension) -> bool {
    &&& m.name@ == e.name@
    &&& m.functions@.len() == e.functions@.len()
    &&& forall|j: int| 0 <= j < e.functions@.len() ==> native_function_ok(#[trigger] m.functions@[j], e.functions@[j])
}

/// A JavaScript extension's module: one function per tool, in order, with
/// no named parameters.
pub open spec fn js_module_ok(m: NativeModule, x: JsExtension) -> bool {
    &&& m.name@ == x.module@
    &&& m.functions@.len() == x.tools@.len()
    &&& forall|j: int|
        0 <= j < x.tools@.len() ==> {
            &&& (#[trigger] m.functions@[j]).name@ == x.tools@[j].name@
            &&& m.functions@[j].parameters@.len() == 0
            &&& m.functions@[j].required_parameters == 0
        }
}

fn copy_strings(v: &Vec<String>) -> (r: Vec<String>)
    ensures
        r@ == v@,
{
    let mut r: Vec<String> = Vec::new();
    let mut i: usize = 0;
    while i < v.len()
        invariant
            i <= v@.len(),
            r@ == v@.take(i as int),
        decreases v@.len() - i,
    {
        r.push(v[i].clone());
        assert(v@.take(i + 1) =~= v@.take(i as int).push(v@[i as int]));
        i += 1;
    }
    assert(v@.take(v@.len() as int) =~= v@);
    r
}

fn native_module(e: &ToolExtension) -> (m: NativeModule)
    ensures
        native_module_ok(m, *e),
{
    let mut functions: Vec<NativeFunction> = Vec::new();
    let mut j: usize = 0;
    while j < e.functions.len()
        invariant
            j <= e.functions@.len(),
            functions@.len() == j,
            forall|k: int| 0 <= k < j ==> native_function_ok(#[trigger] functions@[k], e.functions@[k]),
        decreases e.functions@.len() - j,
    {
        let f = &e.functions[j];
        let required = match f.schema.get_array("required") {
            Some(items) => items.len(),
            None => 0,
        };
        functions.push(NativeFunction { name: f.name.clone(), parameters: copy_strings(&f.parameters), required_parameters: required });
        j += 1;
    }
    NativeModule { name: e.name.clone(), functions }
}

fn js_module(x: &JsExtension) -> (m: NativeModule)
    ensures
        js_module_ok(m, *x),
{
    let mut functions: Vec<NativeFunction> = Vec::new();
    let mut j: usize = 0;
    while j < x.tools.len()
        invariant
            j <= x.tools@.len(),
            functions@.len() == j,
            forall|k: int|
                0 <= k < j ==> {
                    &&& (#[trigger] functions@[k]).name@ == x.tools@[k].name@
                    &&& functions@[k].parameters@.len() == 0
                    &&& functions@[k].required_parameters == 0
                },
        decreases x.tools@.len() - j,
    {
        functions.push(NativeFunction { name: x.tools[j].name.clone(), parameters: Vec::new(), required_parameters: 0 });
        j += 1;
    }
    NativeModule { name: x.module.clone(), functions }
}

/// The modules a program sees: each native extension's, then each
/// JavaScript extension's, in the order they were loaded.
pub fn module_table(natives: &[ToolExtension], js: &[JsExtension]) -> (r: Vec<NativeModule>)
    requires
        natives@.len() + js@.len() <= usize::MAX,
    ensures
        r@.len() == natives@.len() + js@.len(),
        forall|i: int| 0 <= i < natives@.len() ==> native_module_ok(#[trigger] r@[i], natives@[i]),
        forall|k: int| 0 <= k < js@.len() ==> js_module_ok(#[trigger] r@[natives@.len() + k], js@[k]),
{
    let mut r: Vec<NativeModule> = Vec::new();
    let mut i: usize = 0;
    while i < natives.len()
        invariant
            i <= natives@.len(),
            r@.len() == i,
            forall|k: int| 0 <= k < i ==> native_module_ok(#[trigger] r@[k], natives@[k]),
        decreases natives@.len() - i,
    {
        r.push(native_module(&natives[i]));
        i += 1;
    }
    let mut k: usize = 0;
    while k < js.len()
        invariant
            k <= js@.len(),
            r@.len() == natives@.len() + k,
            forall|m: int| 0 <= m < natives@.len() ==> native_module_ok(#[trigger] r@[m], natives@[m]),
            forall|m: int| 0 <= m < k ==> js_module_ok(#[trigger] r@[natives@.len() + m], js@[m]),
        decreases js@.len() - k,
    {
        r.push(js_module(&js[k]));
        proof {
            assert(r@[natives@.len() + k] == r@.last());
        }
        k += 1;
    }
    r
}

/// Where a program's call of `module.tool` goes.
#[derive(Debug, PartialEq, Eq)]
pub enum PtcRoute {
    /// The native extension at this index.
    Native(usize),
    /// The JavaScript extension with this id.
    Js(String),
    /// No extension has it.
    Unknown,
}

/// The last native extension named `module`.
pub open spec fn last_native(natives: Seq<ToolExtension>, module: Seq<char>) -> Option<int>
    decreases natives.len(),
{
    if natives.len() == 0 {
        None
    } else if natives.last().name@ == module {
        Some(natives.len() - 1)
    } else {
        last_native(natives.drop_last(), module)
    }
}

pub open spec fn has_tool(tools: Seq<ExtensionToolDef>, tool: Seq<char>) -> bool {
    exists|j: int| 0 <= j < tools.len() && #[trigger] tools[j].name@ == tool
}

/// The id of the last JavaScript extension whose module is `module` and
/// which has a tool named `tool`.
pub open spec fn last_js(js: Seq<JsExtension>, module: Seq<char>, tool: Seq<char>) -> Option<Seq<char>>
    decreases js.len(),
{
    if js.len() == 0 {
        None
    } else if js.last().module@ == module && has_tool(js.last().tools@, tool) {
        Some(js.last().extension_id@)
    } else {
        last_js(js.drop_last(), module, tool)
    }
}

/// Where a call goes: a native extension of that module name first (the
/// last loaded of that name), else the JavaScript extension with that
/// module and tool (the last loaded), else nowhere.
pub open spec fn spec_route(natives: Seq<ToolExtension>, js: Seq<JsExtension>, module: Seq<char>, tool: Seq<char>) -> Option<Result<int, Seq<char>>> {
    match last_native(natives, module) {
        Some(i) => Some(Ok(i)),
        None => match last_js(js, module, tool) {
            Some(id) => Some(Err(id)),
            None => None,
        },
    }
}

fn find_tool(tools: &Vec<ExtensionToolDef>, tool: &str) -> (r: bool)
    ensures
        r == has_tool(tools@, tool@),
{
    let mut j: usize = 0;
    while j < tools.len()
        invariant
            j <= tools@.len(),
            forall|m: int| 0 <= m < j ==> tools@[m].name@ != tool@,
        decreases tools@.len() - j,
    {
        if text_eq(tools[j].name.as_str(), tool) {
            return true;
        }
        j += 1;
    }
    false
}

/// Which extension answers a program's call of `module.tool`.
pub fn route_call(natives: &[ToolExtension], js: &[JsExtension], module: &str, tool: &str) -> (r: PtcRoute)
    ensures
        match spec_route(natives@, js@, module@, tool@) {
            Some(Ok(i)) => r == PtcRoute::Native(i as usize),
            Some(Err(id)) => r matches PtcRoute::Js(x) && x@ == id,
            None => r == PtcRoute::Unknown,
        },
{
    let mut i: usize = natives.len();
    assert(natives@.take(i as int) =~= natives@);
    while i > 0
        invariant
            i <= natives@.len(),
            last_native(natives@, module@) == last_native(natives@.take(i as int), module@),
        decreases i,
    {
        proof {
            assert(natives@.take(i as int).drop_last() =~= natives@.take(i - 1));
        }
        if text_eq(natives[i - 1].name.as_str(), module) {
            return PtcRoute::Native(i - 1);
        }
        i -= 1;
    }
    let mut k: usize = js.len();
    assert(js@.take(k as int) =~= js@);
    while k > 0
        invariant
            k <= js@.len(),
            last_native(natives@, module@) is None,
            last_js(js@, module@, tool@) == last_js(js@.take(k as int), module@, tool@),
        decreases k,
    {
        proof {
            assert(js@.take(k as int).drop_last() =~= js@.take(k - 1));
        }
        if text_eq(js[k - 1].module.as_str(), module) && find_tool(&js[k - 1].tools, tool) {
            return PtcRoute::Js(js[k - 1].extension_id.clone());
        }
        k -= 1;
    }
    PtcRoute::Unknown
}


/// Why a program's call of `module.tool` got no answer.
#[derive(Debug)]
pub enum PtcFailure {
    /// No extension has the tool.
    Unknown,
    /// The tool is a JavaScript extension's, and no JavaScript runtime runs.
    RuntimeUnavailable,
    /// The JavaScript tool did not answer within the minute it is given.
    TimedOut,
    /// The tool failed with this error.
    Failed(String),
}

pub open spec fn spec_ptc_call_error(module: Seq<char>, tool: Seq<char>, failure: PtcFailure) -> Seq<char> {
    let target = module + "."@ + tool;
    match failure {
        PtcFailure::Unknown => "unknown tool "@ + target,
        PtcFailure::RuntimeUnavailable => target + ": JS runtime unavailable"@,
        PtcFailure::TimedOut => target + ": timed out after 60 seconds"@,
        PtcFailure::Failed(e) => target + ": "@ + e@,
    }
}

/// The error a program sees for a call that got no answer.
pub fn ptc_call_error(module: &str, tool: &str, failure: PtcFailure) -> (r: String)
    ensures
        r@ == spec_ptc_call_error(module@, tool@, failure),
{
    let mut target = String::new();
    push_str(&mut target, module);
    push_str(&mut target, ".");
    push_str(&mut target, tool);
    match failure {
        PtcFailure::Unknown => {
            let mut r = String::from_str("unknown tool ");
            push_str(&mut r, target.as_str());
            r
        },
        PtcFailure::RuntimeUnavailable => {
            push_str(&mut target, ": JS runtime unavailable");
            target
        },
        PtcFailure::TimedOut => {
            push_str(&mut target, ": timed out after 60 seconds");
            target
        },
        PtcFailure::Failed(e) => {
            push_str(&mut target, ": ");
            push_str(&mut target, e.as_str());
            target
        },
    }
}

/// The id of a program's call of a JavaScript tool: `ptc-<session>-<n>`,
/// `n` counting the session's calls.
pub fn ptc_call_id(session: u64, sequence: u64) -> (r: String)
    ensures
        r@ == "ptc-"@ + crate::text::decimal(session as nat) + "-"@ + crate::text::decimal(sequence as nat),
{
    let mut r = String::from_str("ptc-");
    push_str(&mut r, crate::text::u64_to_decimal(session).as_str());
    push_str(&mut r, "-");
    push_str(&mut r, crate::text::u64_to_decimal(sequence).as_str());
    r
}

/// Why a closed executor runs no program.
pub fn executor_closed_error() -> (r: String)
    ensures
        r@ == "PTC executor is closed"@,
{
    String::from_str("PTC executor is closed")
}

} // verus!
