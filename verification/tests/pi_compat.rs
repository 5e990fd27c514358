use e_agent::json::JsonValue;
use e_agent::pi_compat::{
    CapabilityStatus, ExtensionToolDef, JsExtension, PtcRoute, ToolExtension, ToolFunction,
    PtcFailure, executor_closed_error, module_table, ptc_call_error, ptc_call_id, route_call,
    compatibility_matrix, module_name_for_stem,
    unsupported_capabilities, valid_function_name, valid_module_name, validate_js_tools,
};

fn object_schema() -> JsonValue {
    JsonValue::Object(vec![("type".into(), JsonValue::String("object".into()))])
}

fn tool(name: &str, description: &str, parameters: JsonValue) -> ExtensionToolDef {
    ExtensionToolDef { name: name.into(), description: description.into(), parameters }
}

#[test]
fn compatibility_matrix_is_explicit() {
    let matrix = compatibility_matrix();
    assert!(matrix.iter().any(|item| item.name == "input" && item.status == CapabilityStatus::Supported));
    assert!(matrix
        .iter()
        .any(|item| item.name == "pi-ui-0.84.2" && item.status == CapabilityStatus::Partial));
    assert!(unsupported_capabilities().contains(&"registerProvider"));
}

#[test]
fn module_and_function_names_are_identifiers() {
    assert!(valid_module_name("web-access"));
    assert!(valid_module_name("_x1"));
    assert!(!valid_module_name("1x"));
    assert!(!valid_module_name(""));
    assert!(valid_function_name("$get_2"));
    assert!(!valid_function_name("get-it"));
    assert_eq!(module_name_for_stem("web-access"), Some("web_access".to_string()));
    assert_eq!(module_name_for_stem("9lives"), None);
}

#[test]
fn javascript_tools_are_checked_in_order() {
    assert_eq!(validate_js_tools("m", &[tool("ok", "does it", object_schema())]), Ok(()));
    assert_eq!(
        validate_js_tools("m", &[tool("bad-name", "x", object_schema())]),
        Err("m.bad-name is not a JavaScript identifier".to_string())
    );
    assert_eq!(
        validate_js_tools("m", &[tool("a", "x", object_schema()), tool("a", "y", object_schema())]),
        Err("m declares duplicate tool a".to_string())
    );
    assert_eq!(
        validate_js_tools("m", &[tool("a", "  ", object_schema())]),
        Err("m.a description is empty".to_string())
    );
    assert_eq!(
        validate_js_tools("m", &[tool("a", "x", JsonValue::Null)]),
        Err("m.a input schema must be an object".to_string())
    );
}

fn native(name: &str, functions: Vec<ToolFunction>) -> ToolExtension {
    ToolExtension { name: name.into(), description: String::new(), system_prompt: String::new(), functions }
}

fn function(name: &str, required: &[&str]) -> ToolFunction {
    let required = JsonValue::Array(required.iter().map(|p| JsonValue::String(p.to_string())).collect());
    ToolFunction {
        name: name.into(),
        description: String::new(),
        requires_await: false,
        parameters: vec!["path".into(), "limit".into()],
        schema: JsonValue::Object(vec![("required".into(), required)]),
        output_schema: JsonValue::Null,
    }
}

#[test]
fn programs_see_native_then_js_modules_and_calls_route_to_their_owner() {
    let natives = vec![native("fs", vec![function("read", &["path"])]), native("net", vec![])];
    let js = vec![JsExtension {
        module: "todo".into(),
        extension_id: "ext-1".into(),
        tools: vec![tool("add", "adds", object_schema())],
    }];
    let modules = module_table(&natives, &js);
    assert_eq!(modules.len(), 3);
    assert_eq!(modules[0].name, "fs");
    assert_eq!(modules[0].functions[0].parameters, vec!["path".to_string(), "limit".to_string()]);
    assert_eq!(modules[0].functions[0].required_parameters, 1);
    assert_eq!(modules[2].name, "todo");
    assert_eq!(modules[2].functions[0].name, "add");
    assert_eq!(modules[2].functions[0].required_parameters, 0);
    assert_eq!(route_call(&natives, &js, "net", "anything"), PtcRoute::Native(1));
    assert_eq!(route_call(&natives, &js, "todo", "add"), PtcRoute::Js("ext-1".into()));
    assert_eq!(route_call(&natives, &js, "todo", "remove"), PtcRoute::Unknown);
}

#[test]
fn program_call_failures_name_the_call() {
    assert_eq!(ptc_call_error("todo", "add", PtcFailure::Unknown), "unknown tool todo.add");
    assert_eq!(ptc_call_error("todo", "add", PtcFailure::RuntimeUnavailable), "todo.add: JS runtime unavailable");
    assert_eq!(ptc_call_error("todo", "add", PtcFailure::TimedOut), "todo.add: timed out after 60 seconds");
    assert_eq!(ptc_call_error("fs", "read", PtcFailure::Failed("denied".into())), "fs.read: denied");
    assert_eq!(ptc_call_id(7, 0), "ptc-7-0");
    assert_eq!(ptc_call_id(12, 345), "ptc-12-345");
    assert_eq!(executor_closed_error(), "PTC executor is closed");
}
