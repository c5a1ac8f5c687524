use ioi_kernel::tools::{discover_tools, ActiveServiceMeta, MethodPermission};

fn compact(text: &str) -> String {
    serde_json::from_str::<serde_json::Value>(text).unwrap().to_string()
}

#[test]
fn service_methods_become_tools() {
    let services = vec![ActiveServiceMeta {
        id: "governance".to_string(),
        methods: vec![
            ("vote@v1".to_string(), MethodPermission::User),
            ("on_end_block@v1".to_string(), MethodPermission::Internal),
            ("submit_proposal".to_string(), MethodPermission::User),
        ],
    }];
    let tools = discover_tools(&services);
    assert_eq!(tools.len(), 2 + 11);
    assert_eq!(tools[0].name, "governance__vote");
    assert_eq!(tools[0].description, "Call method vote on service governance");
    assert_eq!(tools[1].name, "governance__submit_proposal");
    assert_eq!(
        tools[0].parameters,
        compact(r#"{"type": "object", "properties": {"params": {"type": "string", "description": "JSON encoded parameters"}}}"#)
    );
    assert_eq!(tools[2].name, "browser__navigate");
    assert_eq!(tools[12].name, "filesystem__write_file");
}

#[test]
fn native_tools_in_order() {
    let tools = discover_tools(&vec![]);
    let names: Vec<&str> = tools.iter().map(|t| t.name.as_str()).collect();
    assert_eq!(
        names,
        vec![
            "browser__navigate",
            "browser__extract",
            "browser__click",
            "gui__click",
            "agent__delegate",
            "agent__await_result",
            "agent__pause",
            "agent__complete",
            "commerce__checkout",
            "sys__exec",
            "filesystem__write_file",
        ]
    );
    assert_eq!(
        tools[3].parameters,
        compact(r#"{"type": "object", "properties": {"x": {"type": "integer"}, "y": {"type": "integer"}, "button": {"type": "string", "enum": ["left", "right"]}}, "required": ["x", "y"]}"#)
    );
    assert_eq!(
        tools[9].parameters,
        compact(r#"{"type": "object", "properties": {"command": {"type": "string", "description": "The binary to execute (e.g., 'ls', 'netstat', 'ping')"}, "args": {"type": "array", "items": {"type": "string"}, "description": "Arguments for the command"}}, "required": ["command"]}"#)
    );
    for t in &tools {
        assert_eq!(compact(&t.parameters), t.parameters);
    }
}
