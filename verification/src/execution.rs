//! What the agent learns from running a tool: which driver a tool name goes
//! to, and the result, error and history line that each driver's outcome
//! becomes. Long outputs are cut to a preview before they enter the history.
//! The drivers themselves run outside the library.

use vstd::prelude::*;
use vstd::string::{StrSliceExecFns, StringExecFns, StringSliceAdditionalSpecFns};
use vstd::utf8::{encode_utf8, is_char_boundary, valid_utf8};
use crate::bytes::append_bytes;
use crate::codec::utf8_to_string;
use crate::scrubber::lemma_valid_piece;

verus! {

/// The outcome of one tool call.
#[derive(Debug, Clone)]
pub struct ToolExecutionResult {
    pub success: bool,
    pub error: Option<String>,
    pub history_entry: Option<String>,
}

/// The driver a tool call goes to.
#[derive(Debug, Clone, Copy, PartialEq, Eq, Structural)]
pub enum ToolKind {
    GuiClick,
    SysExec,
    BrowserNavigate,
    BrowserExtract,
    BrowserClick,
    /// A namespaced tool served by an MCP server.
    Mcp,
    /// Not a tool: the call only records a thought.
    Thought,
}

/// Whether `pat` occurs in `s`.
pub open spec fn spec_contains(s: Seq<u8>, pat: Seq<u8>) -> bool {
    exists|i: int| 0 <= i && i + pat.len() <= s.len() && #[trigger] s.subrange(i, i + pat.len()) == pat
}

/// The driver of a tool name: the five built-in tools by name, any other name
/// with a `__` namespace separator goes to MCP, the rest is a thought.
pub open spec fn spec_tool_kind(name: Seq<char>) -> ToolKind {
    if name == "gui__click"@ {
        ToolKind::GuiClick
    } else if name == "sys__exec"@ {
        ToolKind::SysExec
    } else if name == "browser__navigate"@ {
        ToolKind::BrowserNavigate
    } else if name == "browser__extract"@ {
        ToolKind::BrowserExtract
    } else if name == "browser__click"@ {
        ToolKind::BrowserClick
    } else if spec_contains(encode_utf8(name), seq![95u8, 95u8]) {
        ToolKind::Mcp
    } else {
        ToolKind::Thought
    }
}

fn contains_double_underscore(s: &[u8]) -> (r: bool)
    ensures
        r == spec_contains(s@, seq![95u8, 95u8]),
{
    let n = s.len();
    let mut i: usize = 0;
    while n > 0 && i < n - 1
        invariant
            n == s@.len(),
            i <= n,
            forall|j: int| 0 <= j < i && j + 1 < n ==> !(#[trigger] s@[j] == 95u8 && s@[j + 1] == 95u8),
        decreases n - i,
    {
        if s[i] == 95u8 && s[i + 1] == 95u8 {
            assert(s@.subrange(i as int, i + 2) =~= seq![95u8, 95u8]);
            return true;
        }
        i = i + 1;
    }
    assert forall|j: int| 0 <= j && j + 2 <= n implies #[trigger] s@.subrange(j, j + 2) != seq![95u8, 95u8] by {
        if s@.subrange(j, j + 2) == seq![95u8, 95u8] {
            assert(s@.subrange(j, j + 2)[0] == s@[j]);
            assert(s@.subrange(j, j + 2)[1] == s@[j + 1]);
        }
    }
    false
}

/// Decides which driver a tool call goes to.
pub fn tool_kind(name: &str) -> (k: ToolKind)
    ensures
        k == spec_tool_kind(name@),
{
    if crate::agent::str_is(name, "gui__click") {
        ToolKind::GuiClick
    } else if crate::agent::str_is(name, "sys__exec") {
        ToolKind::SysExec
    } else if crate::agent::str_is(name, "browser__navigate") {
        ToolKind::BrowserNavigate
    } else if crate::agent::str_is(name, "browser__extract") {
        ToolKind::BrowserExtract
    } else if crate::agent::str_is(name, "browser__click") {
        ToolKind::BrowserClick
    } else if contains_double_underscore(name.as_bytes()) {
        ToolKind::Mcp
    } else {
        ToolKind::Thought
    }
}

/// A preview of a text's bytes: the first `limit` bytes followed by `marker`
/// when the text is longer, else the whole text.
pub open spec fn spec_preview(b: Seq<u8>, limit: nat, marker: Seq<char>) -> Seq<u8> {
    if b.len() > limit { b.subrange(0, limit as int) + encode_utf8(marker) } else { b }
}

/// Whether a preview can cut the text there: the cut falls on a character
/// boundary (elsewhere the cut would split a character).
pub open spec fn spec_cut_ok(s: Seq<char>, limit: nat) -> bool {
    encode_utf8(s).len() > limit ==> is_char_boundary(encode_utf8(s), limit as int)
}

/// Builds `prefix` followed by a preview of `text` as one string.
fn preview_line(prefix: &str, text: &str, limit: usize, marker: &str) -> (r: String)
    requires
        spec_cut_ok(text@, limit as nat),
    ensures
        encode_utf8(r@) == encode_utf8(prefix@) + spec_preview(encode_utf8(text@), limit as nat, marker@),
{
    let b = text.as_bytes();
    let ghost tb = encode_utf8(text@);
    proof {
        vstd::utf8::encode_utf8_valid_utf8(text@);
        vstd::utf8::encode_utf8_valid_utf8(prefix@);
        vstd::utf8::encode_utf8_valid_utf8(marker@);
        vstd::utf8::is_char_boundary_start_end_of_seq(tb);
    }
    let mut out: Vec<u8> = Vec::new();
    append_bytes(&mut out, prefix.as_bytes());
    let ghost p = out@;
    if b.len() > limit {
        let cut = vstd::slice::slice_subrange(b, 0, limit);
        append_bytes(&mut out, cut);
        append_bytes(&mut out, marker.as_bytes());
        proof {
            lemma_valid_piece(tb, 0, limit as int);
            assert(cut@ =~= tb.subrange(0, limit as int));
            vstd::utf8::valid_utf8_concat(p, cut@);
            vstd::utf8::valid_utf8_concat(p + cut@, encode_utf8(marker@));
            assert(out@ =~= p + (cut@ + encode_utf8(marker@)));
        }
    } else {
        append_bytes(&mut out, b);
        proof {
            vstd::utf8::valid_utf8_concat(p, tb);
        }
    }
    proof {
        assert(out@ =~= encode_utf8(prefix@) + spec_preview(tb, limit as nat, marker@));
    }
    match utf8_to_string(out.as_slice()) {
        Some(s) => s,
        None => String::new(),
    }
}

fn concat2(a: &str, b: &str) -> (r: String)
    ensures
        r@ == a@ + b@,
{
    let mut s = String::from_str(a);
    s.append(b);
    s
}

/// The result of a GUI click: success, or the driver's error.
pub fn gui_click_result(outcome: Result<(), String>) -> (r: ToolExecutionResult)
    ensures
        r.history_entry is None,
        match outcome {
            Ok(()) => r.success && r.error is None,
            Err(e) => !r.success && r.error == Some(e),
        },
{
    match outcome {
        Ok(()) => ToolExecutionResult { success: true, error: None, history_entry: None },
        Err(e) => ToolExecutionResult { success: false, error: Some(e), history_entry: None },
    }
}

/// The result of a terminal command: its output, cut to a thousand bytes, as
/// the history line, or the driver's error.
pub fn sys_exec_result(outcome: Result<String, String>) -> (r: ToolExecutionResult)
    requires
        outcome matches Ok(o) ==> spec_cut_ok(o@, 1000),
    ensures
        match outcome {
            Ok(o) => r.success && r.error is None && (r.history_entry matches Some(h)
                && encode_utf8(h@) == encode_utf8("System Output: "@)
                    + spec_preview(encode_utf8(o@), 1000, "... (truncated)"@)),
            Err(e) => !r.success && r.error == Some(e) && r.history_entry is None,
        },
{
    match outcome {
        Ok(o) => {
            let h = preview_line("System Output: ", o.as_str(), 1000, "... (truncated)");
            ToolExecutionResult { success: true, error: None, history_entry: Some(h) }
        }
        Err(e) => ToolExecutionResult { success: false, error: Some(e), history_entry: None },
    }
}

/// The error for a browser call without its required argument.
pub fn missing_argument_result(selector: bool) -> (r: ToolExecutionResult)
    ensures
        !r.success && r.history_entry is None,
        (r.error matches Some(e) && e@ == (if selector { "Selector argument is missing"@ } else { "URL argument is missing"@ })),
{
    let e = if selector { String::from_str("Selector argument is missing") } else { String::from_str("URL argument is missing") };
    ToolExecutionResult { success: false, error: Some(e), history_entry: None }
}

/// The result of navigating to `url`: a history line with the page's length
/// and a preview of its first three hundred bytes, or the navigation error.
pub fn navigate_result(url: &str, outcome: Result<String, String>) -> (r: ToolExecutionResult)
    requires
        outcome matches Ok(c) ==> spec_cut_ok(c@, 300) && encode_utf8(c@).len() <= u64::MAX,
    ensures
        match outcome {
            Ok(c) => r.success && r.error is None && (r.history_entry matches Some(h)
                && encode_utf8(h@) == encode_utf8("Browser: Navigated to "@ + url@ + " ("@
                    + crate::compute_market::spec_decimal_chars(encode_utf8(c@).len()) + " chars). Preview: "@)
                    + spec_preview(encode_utf8(c@), 300, "..."@)),
            Err(e) => !r.success && r.history_entry is None && (r.error matches Some(m)
                && m@ == "Browser navigation failed: "@ + e@),
        },
{
    match outcome {
        Ok(c) => {
            let mut head = String::from_str("Browser: Navigated to ");
            head.append(url);
            head.append(" (");
            let len = crate::compute_market::decimal_string(c.as_str().as_bytes().len() as u64);
            head.append(len.as_str());
            head.append(" chars). Preview: ");
            let h = preview_line(head.as_str(), c.as_str(), 300, "...");
            ToolExecutionResult { success: true, error: None, history_entry: Some(h) }
        }
        Err(e) => ToolExecutionResult { success: false, error: Some(concat2("Browser navigation failed: ", e.as_str())), history_entry: None },
    }
}

/// The result of extracting the page's DOM: a history line with a preview of
/// its first three hundred bytes, or the extraction error.
pub fn extract_result(outcome: Result<String, String>) -> (r: ToolExecutionResult)
    requires
        outcome matches Ok(c) ==> spec_cut_ok(c@, 300),
    ensures
        match outcome {
            Ok(c) => r.success && r.error is None && (r.history_entry matches Some(h)
                && encode_utf8(h@) == encode_utf8("Browser: Extracted DOM. Preview: "@)
                    + spec_preview(encode_utf8(c@), 300, "..."@)),
            Err(e) => !r.success && r.history_entry is None && (r.error matches Some(m)
                && m@ == "Browser extraction failed: "@ + e@),
        },
{
    match outcome {
        Ok(c) => {
            let h = preview_line("Browser: Extracted DOM. Preview: ", c.as_str(), 300, "...");
            ToolExecutionResult { success: true, error: None, history_entry: Some(h) }
        }
        Err(e) => ToolExecutionResult { success: false, error: Some(concat2("Browser extraction failed: ", e.as_str())), history_entry: None },
    }
}

/// The result of clicking a CSS selector: a history line naming it, or the click error.
pub fn click_selector_result(selector: &str, outcome: Result<(), String>) -> (r: ToolExecutionResult)
    ensures
        match outcome {
            Ok(()) => r.success && r.error is None && (r.history_entry matches Some(h) && h@ == "Clicked element: "@ + selector@),
            Err(e) => !r.success && r.history_entry is None && (r.error matches Some(m) && m@ == "Click failed: "@ + e@),
        },
{
    match outcome {
        Ok(()) => ToolExecutionResult { success: true, error: None, history_entry: Some(concat2("Clicked element: ", selector)) },
        Err(e) => ToolExecutionResult { success: false, error: Some(concat2("Click failed: ", e.as_str())), history_entry: None },
    }
}

/// The result of an MCP tool: a history line naming the tool with a preview of
/// its output, or the execution error.
pub fn mcp_result(name: &str, outcome: Result<String, String>) -> (r: ToolExecutionResult)
    requires
        outcome matches Ok(o) ==> spec_cut_ok(o@, 300),
    ensures
        match outcome {
            Ok(o) => r.success && r.error is None && (r.history_entry matches Some(h)
                && encode_utf8(h@) == encode_utf8("Tool '"@ + name@ + "' executed via MCP. Output: "@)
                    + spec_preview(encode_utf8(o@), 300, "..."@)),
            Err(e) => !r.success && r.history_entry is None && (r.error matches Some(m)
                && m@ == "MCP Execution Failed: "@ + e@),
        },
{
    match outcome {
        Ok(o) => {
            let mut head = String::from_str("Tool '");
            head.append(name);
            head.append("' executed via MCP. Output: ");
            let h = preview_line(head.as_str(), o.as_str(), 300, "...");
            ToolExecutionResult { success: true, error: None, history_entry: Some(h) }
        }
        Err(e) => ToolExecutionResult { success: false, error: Some(concat2("MCP Execution Failed: ", e.as_str())), history_entry: None },
    }
}

/// The result of a call that only records a thought: a success with nothing to add.
pub fn thought_result() -> (r: ToolExecutionResult)
    ensures
        r.success && r.error is None && r.history_entry is None,
{
    ToolExecutionResult { success: true, error: None, history_entry: None }
}


/// What the kernel reports of a tool call that went through: the tool and a
/// summary of what it gave back.
#[derive(Debug, Clone)]
pub struct ActionEvent {
    pub tool_name: String,
    pub output: String,
}

/// The report of a terminal command: its output, cut to a thousand bytes.
pub fn sys_exec_event(output: &str) -> (e: ActionEvent)
    requires
        spec_cut_ok(output@, 1000),
    ensures
        e.tool_name@ == "sys__exec"@,
        encode_utf8(e.output@) == spec_preview(encode_utf8(output@), 1000, "... (truncated)"@),
{
    let text = preview_line("", output, 1000, "... (truncated)");
    proof {
        reveal_strlit("");
        assert(encode_utf8(""@) =~= Seq::<u8>::empty());
        assert(encode_utf8(""@) + spec_preview(encode_utf8(output@), 1000, "... (truncated)"@)
            =~= spec_preview(encode_utf8(output@), 1000, "... (truncated)"@));
    }
    ActionEvent { tool_name: String::from_str("sys__exec"), output: text }
}

/// The report of a navigation: the URL and the length of the page in bytes.
pub fn navigate_event(url: &str, content: &str) -> (e: ActionEvent)
    requires
        encode_utf8(content@).len() <= u64::MAX,
    ensures
        e.tool_name@ == "browser__navigate"@,
        e.output@ == "Navigated to "@ + url@ + ". Content len: "@
            + crate::compute_market::spec_decimal_chars(encode_utf8(content@).len()),
{
    let mut out = String::from_str("Navigated to ");
    out.append(url);
    out.append(". Content len: ");
    let len = crate::compute_market::decimal_string(content.as_bytes().len() as u64);
    out.append(len.as_str());
    ActionEvent { tool_name: String::from_str("browser__navigate"), output: out }
}

/// The report of a DOM extraction: the length of the DOM in bytes.
pub fn extract_event(content: &str) -> (e: ActionEvent)
    requires
        encode_utf8(content@).len() <= u64::MAX,
    ensures
        e.tool_name@ == "browser__extract"@,
        e.output@ == "Extracted DOM ("@ + crate::compute_market::spec_decimal_chars(encode_utf8(content@).len())
            + " chars)"@,
{
    let mut out = String::from_str("Extracted DOM (");
    let len = crate::compute_market::decimal_string(content.as_bytes().len() as u64);
    out.append(len.as_str());
    out.append(" chars)");
    ActionEvent { tool_name: String::from_str("browser__extract"), output: out }
}

/// The report of a selector click: the selector.
pub fn click_selector_event(selector: &str) -> (e: ActionEvent)
    ensures
        e.tool_name@ == "browser__click"@,
        e.output@ == "Clicked: "@ + selector@,
{
    ActionEvent { tool_name: String::from_str("browser__click"), output: concat2("Clicked: ", selector) }
}

/// The report of an MCP tool: the tool's name and its whole output.
pub fn mcp_event(name: &str, output: &str) -> (e: ActionEvent)
    ensures
        e.tool_name@ == name@,
        e.output@ == output@,
{
    ActionEvent { tool_name: String::from_str(name), output: String::from_str(output) }
}

/// The arguments of a tool call, as the call's JSON gives them: `x` and `y`
/// where they are unsigned integers, `command`, `url` and `selector` where
/// they are strings, and `args` where it is an array (each element where it
/// is a string).
#[derive(Debug, Clone)]
pub struct ToolArgs {
    pub x: Option<u64>,
    pub y: Option<u64>,
    pub command: Option<String>,
    pub args: Option<Vec<Option<String>>>,
    pub url: Option<String>,
    pub selector: Option<String>,
}

/// What to run for a tool call.
#[derive(Debug, Clone, PartialEq, Eq)]
pub enum ToolPlan {
    /// Click at a screen position.
    Click { x: u32, y: u32 },
    /// Run a command with arguments.
    Exec { command: String, args: Vec<String> },
    /// Navigate the browser.
    Navigate { url: String },
    /// Read the current page's DOM.
    Extract,
    /// Click the element a selector names.
    ClickSelector { selector: String },
    /// Hand the call to its MCP server.
    Mcp,
    /// Record a thought; nothing runs.
    Thought,
    /// A required argument is missing (the selector's where the flag is set,
    /// else the URL's); nothing runs.
    Missing(bool),
}

/// A string argument, empty where absent.
pub open spec fn arg_text(a: Option<String>) -> Seq<char> {
    match a {
        Some(s) => s@,
        None => Seq::empty(),
    }
}

fn text_or_empty(a: &Option<String>) -> (r: String)
    ensures
        r@ == arg_text(*a),
{
    match a {
        Some(s) => s.clone(),
        None => String::new(),
    }
}

/// The command arguments: each element's text, empty where it is not a
/// string; none where there is no array.
pub open spec fn arg_list(a: Option<Vec<Option<String>>>) -> Seq<Seq<char>> {
    match a {
        Some(v) => v@.map_values(|e: Option<String>| arg_text(e)),
        None => Seq::empty(),
    }
}

/// Plans a tool call from its name and arguments: the tool the name picks
/// (see [`spec_tool_kind`]) with the arguments it reads, absent numbers as 0
/// (cut to 32 bits) and absent strings as empty; navigation without a URL and
/// a selector click without a selector are missing an argument.
pub fn plan_tool_call(name: &str, args: &ToolArgs) -> (p: ToolPlan)
    ensures
        match spec_tool_kind(name@) {
            ToolKind::GuiClick => p == ToolPlan::Click {
                x: (match args.x { Some(v) => v, None => 0 }) as u32,
                y: (match args.y { Some(v) => v, None => 0 }) as u32,
            },
            ToolKind::SysExec => p matches ToolPlan::Exec { command, args: a }
                && command@ == arg_text(args.command)
                && a@.map_values(|e: String| e@) == arg_list(args.args),
            ToolKind::BrowserNavigate => if arg_text(args.url).len() == 0 {
                p == ToolPlan::Missing(false)
            } else {
                p matches ToolPlan::Navigate { url } && url@ == arg_text(args.url)
            },
            ToolKind::BrowserExtract => p == ToolPlan::Extract,
            ToolKind::BrowserClick => if arg_text(args.selector).len() == 0 {
                p == ToolPlan::Missing(true)
            } else {
                p matches ToolPlan::ClickSelector { selector } && selector@ == arg_text(args.selector)
            },
            ToolKind::Mcp => p == ToolPlan::Mcp,
            ToolKind::Thought => p == ToolPlan::Thought,
        },
{
    match tool_kind(name) {
        ToolKind::GuiClick => {
            let x = match args.x { Some(v) => v, None => 0 };
            let y = match args.y { Some(v) => v, None => 0 };
            ToolPlan::Click { x: #[verifier::truncate] (x as u32), y: #[verifier::truncate] (y as u32) }
        },
        ToolKind::SysExec => {
            let command = text_or_empty(&args.command);
            let mut list: Vec<String> = Vec::new();
            match &args.args {
                Some(v) => {
                    let n = v.len();
                    let mut i: usize = 0;
                    while i < n
                        invariant
                            n == v@.len(),
                            i <= n,
                            list@.map_values(|e: String| e@) == v@.take(i as int).map_values(|e: Option<String>| arg_text(e)),
                        decreases n - i,
                    {
                        let t = text_or_empty(&v[i]);
                        let ghost before = list@;
                        list.push(t);
                        proof {
                            assert(list@.map_values(|e: String| e@) =~= before.map_values(|e: String| e@).push(arg_text(v@[i as int])));
                            assert(v@.take(i + 1).map_values(|e: Option<String>| arg_text(e))
                                =~= v@.take(i as int).map_values(|e: Option<String>| arg_text(e)).push(arg_text(v@[i as int])));
                        }
                        i = i + 1;
                    }
                    assert(v@.take(n as int) =~= v@);
                },
                None => {
                    assert(list@.map_values(|e: String| e@) =~= Seq::<Seq<char>>::empty());
                },
            }
            ToolPlan::Exec { command, args: list }
        },
        ToolKind::BrowserNavigate => {
            let url = text_or_empty(&args.url);
            if url.as_str().unicode_len() == 0 {
                ToolPlan::Missing(false)
            } else {
                ToolPlan::Navigate { url }
            }
        },
        ToolKind::BrowserExtract => ToolPlan::Extract,
        ToolKind::BrowserClick => {
            let selector = text_or_empty(&args.selector);
            if selector.as_str().unicode_len() == 0 {
                ToolPlan::Missing(true)
            } else {
                ToolPlan::ClickSelector { selector }
            }
        },
        ToolKind::Mcp => ToolPlan::Mcp,
        ToolKind::Thought => ToolPlan::Thought,
    }
}

} // verus!
