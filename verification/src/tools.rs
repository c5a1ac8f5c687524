//! The tools offered to the agent's model: one per user-callable method of
//! each active service, then the fixed native capabilities, each with the JSON
//! schema of its arguments.

use vstd::prelude::*;
use vstd::string::{StrSliceExecFns, StringExecFns};
use crate::intent::chars_of;

verus! {

/// A tool the model may call.
#[derive(Debug, Clone)]
pub struct LlmToolDefinition {
    pub name: String,
    pub description: String,
    /// The JSON schema of the arguments, as text.
    pub parameters: String,
}

/// A tool definition as mathematical values.
pub struct ToolView {
    pub name: Seq<char>,
    pub description: Seq<char>,
    pub parameters: Seq<char>,
}

impl LlmToolDefinition {
    pub open spec fn view(&self) -> ToolView {
        ToolView { name: self.name@, description: self.description@, parameters: self.parameters@ }
    }
}

/// Who may call a service method.
#[derive(Debug, Clone, Copy, PartialEq, Eq, Structural)]
pub enum MethodPermission {
    User,
    Internal,
}

/// An active service and its methods with their permissions.
#[derive(Debug, Clone)]
pub struct ActiveServiceMeta {
    pub id: String,
    pub methods: Vec<(String, MethodPermission)>,
}

/// A service as mathematical values: its id and its methods.
pub open spec fn service_view(s: ActiveServiceMeta) -> (Seq<char>, Seq<(Seq<char>, MethodPermission)>) {
    (s.id@, s.methods@.map_values(|m: (String, MethodPermission)| (m.0@, m.1)))
}

/// The index of the first `@` at or after `i`, or the length.
pub open spec fn spec_first_at(s: Seq<char>, i: nat) -> nat
    decreases s.len() - i,
{
    if i >= s.len() {
        s.len()
    } else if s[i as int] == '@' {
        i
    } else {
        spec_first_at(s, i + 1)
    }
}

/// A method name without its version: the part before the first `@`.
pub open spec fn spec_simple_name(m: Seq<char>) -> Seq<char> {
    m.subrange(0, spec_first_at(m, 0) as int)
}

/// The argument schema of a service tool: a single JSON-encoded `params` string.
pub open spec fn spec_service_params() -> Seq<char> {
    ("{\"properties\":{\"params\":{\"description\":\"JSON encoded parameters\",\"type\":\"string\"}},\"type\":\"object\"}")@
}

/// The tool for a user-callable method of a service.
pub open spec fn spec_service_tool(id: Seq<char>, method: Seq<char>) -> ToolView {
    ToolView {
        name: id + "__"@ + spec_simple_name(method),
        description: "Call method "@ + spec_simple_name(method) + " on service "@ + id,
        parameters: spec_service_params(),
    }
}

/// The tools of one service: one per user-callable method, in order.
pub open spec fn spec_method_tools(id: Seq<char>, methods: Seq<(Seq<char>, MethodPermission)>) -> Seq<ToolView>
    decreases methods.len(),
{
    if methods.len() == 0 {
        Seq::empty()
    } else {
        spec_method_tools(id, methods.drop_last()) + if methods.last().1 == MethodPermission::User {
            seq![spec_service_tool(id, methods.last().0)]
        } else {
            Seq::empty()
        }
    }
}

/// The tools of all services, in order.
pub open spec fn spec_service_tools(services: Seq<(Seq<char>, Seq<(Seq<char>, MethodPermission)>)>) -> Seq<ToolView>
    decreases services.len(),
{
    if services.len() == 0 {
        Seq::empty()
    } else {
        spec_service_tools(services.drop_last()) + spec_method_tools(services.last().0, services.last().1)
    }
}

/// The native capabilities, in the order they are offered.
pub open spec fn spec_native_tools() -> Seq<ToolView> {
    seq![
        ToolView {
            name: "browser__navigate"@,
            description: "Navigate the internal browser to a URL and return page content."@,
            parameters: "{\"properties\":{\"url\":{\"description\":\"The URL to navigate to (must start with http/https)\",\"type\":\"string\"}},\"required\":[\"url\"],\"type\":\"object\"}"@,
        },
        ToolView {
            name: "browser__extract"@,
            description: "Extract the HTML content from the current browser page."@,
            parameters: "{\"properties\":{},\"required\":[],\"type\":\"object\"}"@,
        },
        ToolView {
            name: "browser__click"@,
            description: "Click an element on the current page using a CSS selector."@,
            parameters: "{\"properties\":{\"selector\":{\"description\":\"CSS selector to click (e.g. '#login-button')\",\"type\":\"string\"}},\"required\":[\"selector\"],\"type\":\"object\"}"@,
        },
        ToolView {
            name: "gui__click"@,
            description: "Click on UI element at coordinates"@,
            parameters: "{\"properties\":{\"button\":{\"enum\":[\"left\",\"right\"],\"type\":\"string\"},\"x\":{\"type\":\"integer\"},\"y\":{\"type\":\"integer\"}},\"required\":[\"x\",\"y\"],\"type\":\"object\"}"@,
        },
        ToolView {
            name: "agent__delegate"@,
            description: "Spawn a sub-agent to handle a specific subtask."@,
            parameters: "{\"properties\":{\"budget\":{\"type\":\"integer\"},\"goal\":{\"type\":\"string\"}},\"required\":[\"goal\",\"budget\"],\"type\":\"object\"}"@,
        },
        ToolView {
            name: "agent__await_result"@,
            description: "Check if a child agent has completed its task. Returns 'Running' if not finished."@,
            parameters: "{\"properties\":{\"child_session_id_hex\":{\"type\":\"string\"}},\"required\":[\"child_session_id_hex\"],\"type\":\"object\"}"@,
        },
        ToolView {
            name: "agent__pause"@,
            description: "Pause execution to wait for user input or long-running tasks."@,
            parameters: "{\"properties\":{\"reason\":{\"type\":\"string\"}},\"required\":[\"reason\"],\"type\":\"object\"}"@,
        },
        ToolView {
            name: "agent__complete"@,
            description: "Call this when you have successfully achieved the goal to finish the session."@,
            parameters: "{\"properties\":{\"result\":{\"description\":\"The final result or summary of the completed task.\",\"type\":\"string\"}},\"required\":[\"result\"],\"type\":\"object\"}"@,
        },
        ToolView {
            name: "commerce__checkout"@,
            description: "Purchase items from a UCP-compatible merchant using secure payment injection."@,
            parameters: "{\"properties\":{\"buyer_email\":{\"type\":\"string\"},\"currency\":{\"type\":\"string\"},\"items\":{\"items\":{\"properties\":{\"id\":{\"type\":\"string\"},\"quantity\":{\"type\":\"integer\"}},\"type\":\"object\"},\"type\":\"array\"},\"merchant_url\":{\"type\":\"string\"},\"total_amount\":{\"description\":\"Total amount to authorize\",\"type\":\"number\"}},\"required\":[\"merchant_url\",\"items\",\"total_amount\",\"currency\"],\"type\":\"object\"}"@,
        },
        ToolView {
            name: "sys__exec"@,
            description: "Execute a terminal command on the local system and return the output."@,
            parameters: "{\"properties\":{\"args\":{\"description\":\"Arguments for the command\",\"items\":{\"type\":\"string\"},\"type\":\"array\"},\"command\":{\"description\":\"The binary to execute (e.g., 'ls', 'netstat', 'ping')\",\"type\":\"string\"}},\"required\":[\"command\"],\"type\":\"object\"}"@,
        },
        ToolView {
            name: "filesystem__write_file"@,
            description: "Write text content to a file on the local filesystem. Use this to save data."@,
            parameters: "{\"properties\":{\"content\":{\"description\":\"Text content to write\",\"type\":\"string\"},\"path\":{\"description\":\"Absolute path to write the file to\",\"type\":\"string\"}},\"required\":[\"path\",\"content\"],\"type\":\"object\"}"@,
        }
    ]
}

fn simple_name(method: &str) -> (r: String)
    ensures
        r@ == spec_simple_name(method@),
{
    let chars = chars_of(method);
    let n = chars.len();
    let mut k: usize = 0;
    while k < n && chars[k] != '@'
        invariant
            n == chars@.len(),
            chars@ == method@,
            k <= n,
            spec_first_at(method@, 0) == spec_first_at(method@, k as nat),
        decreases n - k,
    {
        k = k + 1;
    }
    String::from_str(method.substring_char(0, k))
}

fn service_tool(id: &str, method: &str) -> (t: LlmToolDefinition)
    ensures
        t.view() == spec_service_tool(id@, method@),
{
    let simple = simple_name(method);
    let mut name = String::from_str(id);
    name.append("__");
    name.append(simple.as_str());
    let mut description = String::from_str("Call method ");
    description.append(simple.as_str());
    description.append(" on service ");
    description.append(id);
    LlmToolDefinition { name, description, parameters: String::from_str("{\"properties\":{\"params\":{\"description\":\"JSON encoded parameters\",\"type\":\"string\"}},\"type\":\"object\"}") }
}


/// Lists the tools the agent may call: those of the active services' user
/// methods, then the native capabilities.
pub fn discover_tools(services: &Vec<ActiveServiceMeta>) -> (r: Vec<LlmToolDefinition>)
    ensures
        r@.map_values(|t: LlmToolDefinition| t.view())
            == spec_service_tools(services@.map_values(|s: ActiveServiceMeta| service_view(s))) + spec_native_tools(),
{
    let mut tools: Vec<LlmToolDefinition> = Vec::new();
    let ghost sv = services@.map_values(|s: ActiveServiceMeta| service_view(s));
    let ns = services.len();
    let mut i: usize = 0;
    while i < ns
        invariant
            ns == services@.len(),
            sv == services@.map_values(|s: ActiveServiceMeta| service_view(s)),
            i <= ns,
            tools@.map_values(|t: LlmToolDefinition| t.view()) == spec_service_tools(sv.subrange(0, i as int)),
        decreases ns - i,
    {
        let svc = &services[i];
        let ghost before = tools@.map_values(|t: LlmToolDefinition| t.view());
        let ghost mv = svc.methods@.map_values(|m: (String, MethodPermission)| (m.0@, m.1));
        let nm = svc.methods.len();
        let mut j: usize = 0;
        while j < nm
            invariant
                nm == svc.methods@.len(),
                mv == svc.methods@.map_values(|m: (String, MethodPermission)| (m.0@, m.1)),
                j <= nm,
                tools@.map_values(|t: LlmToolDefinition| t.view()) == before + spec_method_tools(svc.id@, mv.subrange(0, j as int)),
            decreases nm - j,
        {
            let m = &svc.methods[j];
            let ghost prev = tools@.map_values(|t: LlmToolDefinition| t.view());
            if m.1 == MethodPermission::User {
                let t = service_tool(svc.id.as_str(), m.0.as_str());
                tools.push(t);
                assert(tools@.map_values(|t: LlmToolDefinition| t.view()) =~= prev.push(t.view()));
            }
            assert(mv.subrange(0, j + 1).drop_last() =~= mv.subrange(0, j as int));
            assert(tools@.map_values(|t: LlmToolDefinition| t.view())
                =~= before + spec_method_tools(svc.id@, mv.subrange(0, j + 1)));
            j = j + 1;
        }
        assert(mv.subrange(0, nm as int) =~= mv);
        assert(sv.subrange(0, i + 1).drop_last() =~= sv.subrange(0, i as int));
        assert(sv[i as int] == service_view(*svc));
        i = i + 1;
    }
    assert(sv.subrange(0, ns as int) =~= sv);
    let ghost dynamic = tools@.map_values(|t: LlmToolDefinition| t.view());
    tools.push(LlmToolDefinition {
        name: String::from_str("browser__navigate"),
        description: String::from_str("Navigate the internal browser to a URL and return page content."),
        parameters: String::from_str("{\"properties\":{\"url\":{\"description\":\"The URL to navigate to (must start with http/https)\",\"type\":\"string\"}},\"required\":[\"url\"],\"type\":\"object\"}"),
    });
    tools.push(LlmToolDefinition {
        name: String::from_str("browser__extract"),
        description: String::from_str("Extract the HTML content from the current browser page."),
        parameters: String::from_str("{\"properties\":{},\"required\":[],\"type\":\"object\"}"),
    });
    tools.push(LlmToolDefinition {
        name: String::from_str("browser__click"),
        description: String::from_str("Click an element on the current page using a CSS selector."),
        parameters: String::from_str("{\"properties\":{\"selector\":{\"description\":\"CSS selector to click (e.g. '#login-button')\",\"type\":\"string\"}},\"required\":[\"selector\"],\"type\":\"object\"}"),
    });
    tools.push(LlmToolDefinition {
        name: String::from_str("gui__click"),
        description: String::from_str("Click on UI element at coordinates"),
        parameters: String::from_str("{\"properties\":{\"button\":{\"enum\":[\"left\",\"right\"],\"type\":\"string\"},\"x\":{\"type\":\"integer\"},\"y\":{\"type\":\"integer\"}},\"required\":[\"x\",\"y\"],\"type\":\"object\"}"),
    });
    tools.push(LlmToolDefinition {
        name: String::from_str("agent__delegate"),
        description: String::from_str("Spawn a sub-agent to handle a specific subtask."),
        parameters: String::from_str("{\"properties\":{\"budget\":{\"type\":\"integer\"},\"goal\":{\"type\":\"string\"}},\"required\":[\"goal\",\"budget\"],\"type\":\"object\"}"),
    });
    tools.push(LlmToolDefinition {
        name: String::from_str("agent__await_result"),
        description: String::from_str("Check if a child agent has completed its task. Returns 'Running' if not finished."),
        parameters: String::from_str("{\"properties\":{\"child_session_id_hex\":{\"type\":\"string\"}},\"required\":[\"child_session_id_hex\"],\"type\":\"object\"}"),
    });
    tools.push(LlmToolDefinition {
        name: String::from_str("agent__pause"),
        description: String::from_str("Pause execution to wait for user input or long-running tasks."),
        parameters: String::from_str("{\"properties\":{\"reason\":{\"type\":\"string\"}},\"required\":[\"reason\"],\"type\":\"object\"}"),
    });
    tools.push(LlmToolDefinition {
        name: String::from_str("agent__complete"),
        description: String::from_str("Call this when you have successfully achieved the goal to finish the session."),
        parameters: String::from_str("{\"properties\":{\"result\":{\"description\":\"The final result or summary of the completed task.\",\"type\":\"string\"}},\"required\":[\"result\"],\"type\":\"object\"}"),
    });
    tools.push(LlmToolDefinition {
        name: String::from_str("commerce__checkout"),
        description: String::from_str("Purchase items from a UCP-compatible merchant using secure payment injection."),
        parameters: String::from_str("{\"properties\":{\"buyer_email\":{\"type\":\"string\"},\"currency\":{\"type\":\"string\"},\"items\":{\"items\":{\"properties\":{\"id\":{\"type\":\"string\"},\"quantity\":{\"type\":\"integer\"}},\"type\":\"object\"},\"type\":\"array\"},\"merchant_url\":{\"type\":\"string\"},\"total_amount\":{\"description\":\"Total amount to authorize\",\"type\":\"number\"}},\"required\":[\"merchant_url\",\"items\",\"total_amount\",\"currency\"],\"type\":\"object\"}"),
    });
    tools.push(LlmToolDefinition {
        name: String::from_str("sys__exec"),
        description: String::from_str("Execute a terminal command on the local system and return the output."),
        parameters: String::from_str("{\"properties\":{\"args\":{\"description\":\"Arguments for the command\",\"items\":{\"type\":\"string\"},\"type\":\"array\"},\"command\":{\"description\":\"The binary to execute (e.g., 'ls', 'netstat', 'ping')\",\"type\":\"string\"}},\"required\":[\"command\"],\"type\":\"object\"}"),
    });
    tools.push(LlmToolDefinition {
        name: String::from_str("filesystem__write_file"),
        description: String::from_str("Write text content to a file on the local filesystem. Use this to save data."),
        parameters: String::from_str("{\"properties\":{\"content\":{\"description\":\"Text content to write\",\"type\":\"string\"},\"path\":{\"description\":\"Absolute path to write the file to\",\"type\":\"string\"}},\"required\":[\"path\",\"content\"],\"type\":\"object\"}"),
    });
    assert(tools@.map_values(|t: LlmToolDefinition| t.view()) =~= dynamic + spec_native_tools());
    tools
}

/// The number of user-callable methods.
pub open spec fn spec_user_methods(methods: Seq<(Seq<char>, MethodPermission)>) -> nat
    decreases methods.len(),
{
    if methods.len() == 0 {
        0
    } else {
        spec_user_methods(methods.drop_last()) + if methods.last().1 == MethodPermission::User { 1nat } else { 0nat }
    }
}

/// The number of user-callable methods over all services.
pub open spec fn spec_user_methods_all(services: Seq<(Seq<char>, Seq<(Seq<char>, MethodPermission)>)>) -> nat
    decreases services.len(),
{
    if services.len() == 0 {
        0
    } else {
        spec_user_methods_all(services.drop_last()) + spec_user_methods(services.last().1)
    }
}

proof fn lemma_method_tools_cover(id: Seq<char>, methods: Seq<(Seq<char>, MethodPermission)>, j: int)
    requires
        0 <= j < methods.len(),
        methods[j].1 == MethodPermission::User,
    ensures
        spec_method_tools(id, methods).contains(spec_service_tool(id, methods[j].0)),
        spec_method_tools(id, methods).len() == spec_user_methods(methods),
    decreases methods.len(),
{
    let init = methods.drop_last();
    let pre = spec_method_tools(id, init);
    let all = spec_method_tools(id, methods);
    lemma_method_tools_len(id, init);
    if j == methods.len() - 1 {
        assert(all[pre.len() as int] == spec_service_tool(id, methods[j].0));
    } else {
        assert(init[j] == methods[j]);
        lemma_method_tools_cover(id, init, j);
        let k = choose|k: int| 0 <= k < pre.len() && pre[k] == spec_service_tool(id, methods[j].0);
        assert(all[k] == pre[k]);
    }
    lemma_method_tools_len(id, methods);
}

proof fn lemma_method_tools_len(id: Seq<char>, methods: Seq<(Seq<char>, MethodPermission)>)
    ensures
        spec_method_tools(id, methods).len() == spec_user_methods(methods),
    decreases methods.len(),
{
    if methods.len() > 0 {
        lemma_method_tools_len(id, methods.drop_last());
    }
}

/// Law: every user-callable method of every listed service becomes a tool,
/// named by the service id, `__` and the method's name without its version,
/// and described as a call of that method on that service; and there are as
/// many service tools as user-callable methods over all services.
pub proof fn lemma_service_tools_cover(services: Seq<(Seq<char>, Seq<(Seq<char>, MethodPermission)>)>, i: int, j: int)
    requires
        0 <= i < services.len(),
        0 <= j < services[i].1.len(),
        services[i].1[j].1 == MethodPermission::User,
    ensures
        exists|k: int| 0 <= k < spec_service_tools(services).len()
            && #[trigger] spec_service_tools(services)[k].name == services[i].0 + "__"@ + spec_simple_name(services[i].1[j].0)
            && spec_service_tools(services)[k].description
                == "Call method "@ + spec_simple_name(services[i].1[j].0) + " on service "@ + services[i].0,
        spec_service_tools(services).len() == spec_user_methods_all(services),
    decreases services.len(),
{
    let init = services.drop_last();
    let pre = spec_service_tools(init);
    let all = spec_service_tools(services);
    lemma_service_tools_len(init);
    lemma_service_tools_len(services);
    let t = spec_service_tool(services[i].0, services[i].1[j].0);
    if i == services.len() - 1 {
        lemma_method_tools_cover(services[i].0, services[i].1, j);
        let m = spec_method_tools(services.last().0, services.last().1);
        let k = choose|k: int| 0 <= k < m.len() && m[k] == t;
        assert(all[pre.len() + k] == m[k]);
        assert(all[pre.len() + k].name == t.name);
    } else {
        assert(init[i] == services[i]);
        lemma_service_tools_cover(init, i, j);
        let k = choose|k: int| 0 <= k < pre.len()
            && #[trigger] pre[k].name == init[i].0 + "__"@ + spec_simple_name(init[i].1[j].0)
            && pre[k].description == "Call method "@ + spec_simple_name(init[i].1[j].0) + " on service "@ + init[i].0;
        assert(all[k] == pre[k]);
        assert(all[k].name == pre[k].name);
    }
}

proof fn lemma_service_tools_len(services: Seq<(Seq<char>, Seq<(Seq<char>, MethodPermission)>)>)
    ensures
        spec_service_tools(services).len() == spec_user_methods_all(services),
    decreases services.len(),
{
    if services.len() > 0 {
        lemma_service_tools_len(services.drop_last());
        lemma_method_tools_len(services.last().0, services.last().1);
    }
}

/// Law: services keep their order: the tools of the first `i` services come
/// first, in front of the tools of the later ones.
pub proof fn lemma_service_tools_in_order(services: Seq<(Seq<char>, Seq<(Seq<char>, MethodPermission)>)>, i: int)
    requires
        0 <= i <= services.len(),
    ensures
        spec_service_tools(services.take(i)).is_prefix_of(spec_service_tools(services)),
    decreases services.len() - i,
{
    if i == services.len() {
        assert(services.take(i) =~= services);
    } else {
        lemma_service_tools_in_order(services, i + 1);
        let t = services.take(i + 1);
        assert(t.drop_last() =~= services.take(i));
        let a = spec_service_tools(services.take(i));
        let b = spec_service_tools(t);
        assert(b == a + spec_method_tools(t.last().0, t.last().1));
        assert forall|k: int| 0 <= k < a.len() implies a[k] == spec_service_tools(services)[k] by {
            assert(b[k] == a[k]);
        }
    }
}

} // verus!
