use ioi_kernel::execution::{
    click_selector_event, click_selector_result, extract_event, extract_result, gui_click_result, mcp_event,
    mcp_result, missing_argument_result, navigate_event, navigate_result, plan_tool_call, sys_exec_event,
    sys_exec_result, thought_result, tool_kind, ToolArgs, ToolKind, ToolPlan,
};

#[test]
fn tool_names_pick_their_driver() {
    assert_eq!(tool_kind("gui__click"), ToolKind::GuiClick);
    assert_eq!(tool_kind("sys__exec"), ToolKind::SysExec);
    assert_eq!(tool_kind("browser__navigate"), ToolKind::BrowserNavigate);
    assert_eq!(tool_kind("browser__extract"), ToolKind::BrowserExtract);
    assert_eq!(tool_kind("browser__click"), ToolKind::BrowserClick);
    assert_eq!(tool_kind("filesystem__read_file"), ToolKind::Mcp);
    assert_eq!(tool_kind("gui_click"), ToolKind::Thought);
    assert_eq!(tool_kind("think"), ToolKind::Thought);
    assert_eq!(tool_kind("_"), ToolKind::Thought);
    assert_eq!(tool_kind(""), ToolKind::Thought);
}

#[test]
fn gui_click_outcomes() {
    let ok = gui_click_result(Ok(()));
    assert!(ok.success);
    assert_eq!(ok.error, None);
    assert_eq!(ok.history_entry, None);
    let err = gui_click_result(Err("hash mismatch".to_string()));
    assert!(!err.success);
    assert_eq!(err.error.as_deref(), Some("hash mismatch"));
}

#[test]
fn short_terminal_output_is_kept_whole() {
    let r = sys_exec_result(Ok("total 0".to_string()));
    assert!(r.success);
    assert_eq!(r.history_entry.as_deref(), Some("System Output: total 0"));
}

#[test]
fn long_terminal_output_is_truncated_at_a_thousand_bytes() {
    let out = "a".repeat(1500);
    let r = sys_exec_result(Ok(out));
    let expected = format!("System Output: {}... (truncated)", "a".repeat(1000));
    assert_eq!(r.history_entry.as_deref(), Some(expected.as_str()));

    let exact = "b".repeat(1000);
    let r = sys_exec_result(Ok(exact.clone()));
    assert_eq!(r.history_entry, Some(format!("System Output: {}", exact)));
}

#[test]
fn terminal_error_is_passed_on() {
    let r = sys_exec_result(Err("command not allowed".to_string()));
    assert!(!r.success);
    assert_eq!(r.error.as_deref(), Some("command not allowed"));
    assert_eq!(r.history_entry, None);
}

#[test]
fn missing_arguments_are_reported() {
    let r = missing_argument_result(false);
    assert!(!r.success);
    assert_eq!(r.error.as_deref(), Some("URL argument is missing"));
    let r = missing_argument_result(true);
    assert_eq!(r.error.as_deref(), Some("Selector argument is missing"));
}

#[test]
fn navigation_reports_length_and_preview() {
    let r = navigate_result("https://example.com", Ok("<html/>".to_string()));
    assert!(r.success);
    assert_eq!(
        r.history_entry.as_deref(),
        Some("Browser: Navigated to https://example.com (7 chars). Preview: <html/>")
    );
    let page = "x".repeat(420);
    let r = navigate_result("u", Ok(page));
    let expected = format!("Browser: Navigated to u (420 chars). Preview: {}...", "x".repeat(300));
    assert_eq!(r.history_entry, Some(expected));
    let r = navigate_result("u", Err("timeout".to_string()));
    assert!(!r.success);
    assert_eq!(r.error.as_deref(), Some("Browser navigation failed: timeout"));
}

#[test]
fn extraction_previews_the_dom() {
    let r = extract_result(Ok("<body>hi</body>".to_string()));
    assert_eq!(r.history_entry.as_deref(), Some("Browser: Extracted DOM. Preview: <body>hi</body>"));
    let r = extract_result(Ok("d".repeat(301)));
    assert_eq!(r.history_entry, Some(format!("Browser: Extracted DOM. Preview: {}...", "d".repeat(300))));
    let r = extract_result(Err("no page".to_string()));
    assert_eq!(r.error.as_deref(), Some("Browser extraction failed: no page"));
}

#[test]
fn selector_click_outcomes() {
    let r = click_selector_result("#submit", Ok(()));
    assert!(r.success);
    assert_eq!(r.history_entry.as_deref(), Some("Clicked element: #submit"));
    let r = click_selector_result("#submit", Err("not found".to_string()));
    assert_eq!(r.error.as_deref(), Some("Click failed: not found"));
}

#[test]
fn mcp_tool_outcomes() {
    let r = mcp_result("fs__read", Ok("contents".to_string()));
    assert!(r.success);
    assert_eq!(r.history_entry.as_deref(), Some("Tool 'fs__read' executed via MCP. Output: contents"));
    let r = mcp_result("fs__read", Err("server down".to_string()));
    assert!(!r.success);
    assert_eq!(r.error.as_deref(), Some("MCP Execution Failed: server down"));
}

#[test]
fn a_thought_succeeds_with_nothing_to_record() {
    let r = thought_result();
    assert!(r.success);
    assert_eq!(r.error, None);
    assert_eq!(r.history_entry, None);
}

fn no_args() -> ToolArgs {
    ToolArgs { x: None, y: None, command: None, args: None, url: None, selector: None }
}

#[test]
fn plans_follow_the_tool_and_its_arguments() {
    let a = ToolArgs { x: Some(10), y: Some(0x1_0000_0005), ..no_args() };
    assert_eq!(plan_tool_call("gui__click", &a), ToolPlan::Click { x: 10, y: 5 });
    assert_eq!(plan_tool_call("gui__click", &no_args()), ToolPlan::Click { x: 0, y: 0 });
    let e = ToolArgs { command: Some("ls".into()), args: Some(vec![Some("-l".into()), None]), ..no_args() };
    assert_eq!(
        plan_tool_call("sys__exec", &e),
        ToolPlan::Exec { command: "ls".into(), args: vec!["-l".into(), String::new()] }
    );
    assert_eq!(plan_tool_call("sys__exec", &no_args()), ToolPlan::Exec { command: String::new(), args: vec![] });
    assert_eq!(plan_tool_call("browser__navigate", &no_args()), ToolPlan::Missing(false));
    let u = ToolArgs { url: Some("https://x".into()), ..no_args() };
    assert_eq!(plan_tool_call("browser__navigate", &u), ToolPlan::Navigate { url: "https://x".into() });
    assert_eq!(plan_tool_call("browser__extract", &no_args()), ToolPlan::Extract);
    assert_eq!(plan_tool_call("browser__click", &ToolArgs { selector: Some(String::new()), ..no_args() }), ToolPlan::Missing(true));
    let sel = ToolArgs { selector: Some("#go".into()), ..no_args() };
    assert_eq!(plan_tool_call("browser__click", &sel), ToolPlan::ClickSelector { selector: "#go".into() });
    assert_eq!(plan_tool_call("weather__lookup", &no_args()), ToolPlan::Mcp);
    assert_eq!(plan_tool_call("think", &no_args()), ToolPlan::Thought);
}

#[test]
fn reports_summarise_what_the_tools_returned() {
    let long = "x".repeat(1200);
    let e = sys_exec_event(&long);
    assert_eq!(e.tool_name, "sys__exec");
    assert_eq!(e.output, format!("{}... (truncated)", "x".repeat(1000)));
    assert_eq!(sys_exec_event("ok").output, "ok");
    let e = navigate_event("https://a.b", "héllo");
    assert_eq!(e.tool_name, "browser__navigate");
    assert_eq!(e.output, "Navigated to https://a.b. Content len: 6");
    let e = extract_event(&"<p>".repeat(40));
    assert_eq!(e.tool_name, "browser__extract");
    assert_eq!(e.output, "Extracted DOM (120 chars)");
    let e = click_selector_event("#go");
    assert_eq!((e.tool_name.as_str(), e.output.as_str()), ("browser__click", "Clicked: #go"));
    let e = mcp_event("fs__read", "contents");
    assert_eq!((e.tool_name.as_str(), e.output.as_str()), ("fs__read", "contents"));
}
