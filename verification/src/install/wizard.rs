//! MCP config generation for AI coding tools.
use vstd::prelude::*;

use crate::json::{json_view, lemma_member_last, member, pretty_json, pretty_json_text, JsonModel, JsonValue};

verus! {

/// Supported AI agent tools.
#[derive(Debug, Clone, Copy, PartialEq, Eq, Structural)]
pub enum AgentKind {
    /// The vendor's desktop chat application.
    ClaudeDesktop,
    /// Cursor IDE.
    Cursor,
    /// GitHub Copilot CLI / VS Code extension.
    Copilot,
    /// OpenCode terminal.
    OpenCode,
    /// Cline VS Code extension.
    Cline,
}

/// Human-readable name of an agent.
pub open spec fn display_name_spec(a: AgentKind) -> Seq<char> {
    match a {
        AgentKind::ClaudeDesktop => "Desktop App"@,
        AgentKind::Cursor => "Cursor"@,
        AgentKind::Copilot => "GitHub Copilot"@,
        AgentKind::OpenCode => "OpenCode"@,
        AgentKind::Cline => "Cline"@,
    }
}

/// Config file path of an agent, relative to the home directory.
pub open spec fn config_path_spec(a: AgentKind) -> Seq<char> {
    match a {
        AgentKind::ClaudeDesktop => ".desktop-app.json"@,
        AgentKind::Cursor => ".cursor/mcp.json"@,
        AgentKind::Copilot => ".copilot/mcp.json"@,
        AgentKind::OpenCode => ".opencode.json"@,
        AgentKind::Cline => ".cline/mcp.json"@,
    }
}

impl AgentKind {
    /// All supported agent kinds.
    pub fn all() -> (v: &'static [AgentKind])
        ensures
            v@ == seq![
                AgentKind::ClaudeDesktop,
                AgentKind::Cursor,
                AgentKind::Copilot,
                AgentKind::OpenCode,
                AgentKind::Cline,
            ],
    {
        &[
            AgentKind::ClaudeDesktop,
            AgentKind::Cursor,
            AgentKind::Copilot,
            AgentKind::OpenCode,
            AgentKind::Cline,
        ]
    }

    /// Human-readable display name.
    pub fn display_name(&self) -> (s: &'static str)
        ensures
            s@ == display_name_spec(*self),
    {
        match self {
            AgentKind::ClaudeDesktop => "Desktop App",
            AgentKind::Cursor => "Cursor",
            AgentKind::Copilot => "GitHub Copilot",
            AgentKind::OpenCode => "OpenCode",
            AgentKind::Cline => "Cline",
        }
    }

    /// Config file path (relative to home directory).
    pub fn config_path(&self) -> (s: &'static str)
        ensures
            s@ == config_path_spec(*self),
    {
        match self {
            AgentKind::ClaudeDesktop => ".desktop-app.json",
            AgentKind::Cursor => ".cursor/mcp.json",
            AgentKind::Copilot => ".copilot/mcp.json",
            AgentKind::OpenCode => ".opencode.json",
            AgentKind::Cline => ".cline/mcp.json",
        }
    }
}

/// MCP server connection configuration.
#[derive(Debug, Clone)]
pub struct McpConfig {
    /// The name shown in the AI tool's MCP server list.
    pub server_name: String,
    /// The command to start the MCP server.
    pub command: String,
    /// Arguments to pass to the command.
    pub args: Vec<String>,
    /// Environment variables to set (name, value pairs).
    pub env: Vec<(String, String)>,
}

/// The JSON strings of a list of texts.
pub open spec fn string_models(v: Seq<String>) -> Seq<JsonModel> {
    v.map_values(|x: String| JsonModel::Str(x@))
}

/// The members of the `env` object: one per variable, in order.
pub open spec fn env_members(v: Seq<(String, String)>) -> Seq<(Seq<char>, JsonModel)> {
    v.map_values(|p: (String, String)| (p.0@, JsonModel::Str(p.1@)))
}

/// The server entry of `config`: `command`, `args` and, when at least one
/// variable is given, `env`.
pub open spec fn server_entry_model(config: McpConfig) -> JsonModel {
    let base = seq![
        ("command"@, JsonModel::Str(config.command@)),
        ("args"@, JsonModel::Array(string_models(config.args@))),
    ];
    JsonModel::Object(
        if config.env@.len() == 0 {
            base
        } else {
            base.push(("env"@, JsonModel::Object(env_members(config.env@))))
        },
    )
}

/// The whole document: `mcpServers` holding one entry, keyed by the server name.
pub open spec fn mcp_document_model(config: McpConfig) -> JsonModel {
    JsonModel::Object(
        seq![("mcpServers"@, JsonModel::Object(seq![(config.server_name@, server_entry_model(config))]))],
    )
}

/// The snippet for `config`: the pretty-printed text of its document.
pub open spec fn snippet(config: McpConfig) -> Seq<char> {
    pretty_json_text(mcp_document_model(config))
}

fn string_array(v: &Vec<String>) -> (r: JsonValue)
    ensures
        json_view(r) == JsonModel::Array(string_models(v@)),
{
    let mut items: Vec<JsonValue> = Vec::new();
    let mut i: usize = 0;
    while i < v.len()
        invariant
            i <= v.len(),
            items@.len() == i,
            forall|k: int| 0 <= k < i ==> json_view(#[trigger] items@[k]) == JsonModel::Str(v@[k]@),
        decreases v.len() - i,
    {
        items.push(JsonValue::Str(v[i].clone()));
        i += 1;
    }
    let r = JsonValue::Array(items);
    assert(json_view(r)->Array_0 =~= string_models(v@));
    r
}

fn env_object(v: &Vec<(String, String)>) -> (r: JsonValue)
    ensures
        json_view(r) == JsonModel::Object(env_members(v@)),
{
    let mut members: Vec<(String, JsonValue)> = Vec::new();
    let mut i: usize = 0;
    while i < v.len()
        invariant
            i <= v.len(),
            members@.len() == i,
            forall|k: int|
                0 <= k < i ==> (#[trigger] members@[k]).0@ == v@[k].0@ && json_view(members@[k].1)
                    == JsonModel::Str(v@[k].1@),
        decreases v.len() - i,
    {
        members.push((v[i].0.clone(), JsonValue::Str(v[i].1.clone())));
        i += 1;
    }
    let r = JsonValue::Object(members);
    assert(json_view(r)->Object_0 =~= env_members(v@));
    r
}

/// The server entry of `config`, as a JSON object.
pub fn server_entry(config: &McpConfig) -> (r: JsonValue)
    ensures
        json_view(r) == server_entry_model(*config),
{
    let mut members: Vec<(String, JsonValue)> = Vec::new();
    members.push(("command".to_string(), JsonValue::Str(config.command.clone())));
    members.push(("args".to_string(), string_array(&config.args)));
    if config.env.len() > 0 {
        members.push(("env".to_string(), env_object(&config.env)));
    }
    let r = JsonValue::Object(members);
    assert(json_view(members@[0].1) == JsonModel::Str(config.command@));
    assert(json_view(members@[1].1) == JsonModel::Array(string_models(config.args@)));
    assert(json_view(r)->Object_0 =~= server_entry_model(*config)->Object_0);
    r
}

/// The configuration document for `config`: an object whose `mcpServers`
/// member holds the server entry under the server name.
pub fn mcp_document(config: &McpConfig) -> (r: JsonValue)
    ensures
        json_view(r) == mcp_document_model(*config),
{
    let mut entries: Vec<(String, JsonValue)> = Vec::new();
    entries.push((config.server_name.clone(), server_entry(config)));
    assert(json_view(entries@[0].1) == server_entry_model(*config));
    let servers = JsonValue::Object(entries);
    assert(json_view(servers)->Object_0 =~= seq![(config.server_name@, server_entry_model(*config))]);
    let mut root: Vec<(String, JsonValue)> = Vec::new();
    root.push(("mcpServers".to_string(), servers));
    let r = JsonValue::Object(root);
    assert(json_view(root@[0].1) == mcp_document_model(*config)->Object_0[0].1);
    assert(json_view(r)->Object_0 =~= mcp_document_model(*config)->Object_0);
    r
}

/// Reading the document of `config` back: the root holds one member,
/// `mcpServers`, which holds one entry, under the server name. The entry's
/// `command` is the command and its `args` the arguments in order; its `env` is
/// there exactly when some variable is given, and under each variable's name it
/// holds the value given last for that name.
pub proof fn lemma_mcp_document_reads_back(config: McpConfig)
    ensures
        mcp_document_model(config) matches JsonModel::Object(root) && root.len() == 1
            && member(root, "mcpServers"@) == Some(
            JsonModel::Object(seq![(config.server_name@, server_entry_model(config))]),
        ),
        server_entry_model(config) matches JsonModel::Object(e) && member(e, "command"@) == Some(
            JsonModel::Str(config.command@),
        ) && member(e, "args"@) == Some(JsonModel::Array(string_models(config.args@))) && (
        config.env@.len() == 0 <==> member(e, "env"@) is None) && (config.env@.len() > 0 ==> member(
            e,
            "env"@,
        ) == Some(JsonModel::Object(env_members(config.env@)))),
        forall|i: int|
            0 <= i < config.env@.len() && (forall|j: int|
                i < j < config.env@.len() ==> config.env@[j].0@ != config.env@[i].0@) ==> #[trigger] member(
                env_members(config.env@),
                config.env@[i].0@,
            ) == Some(JsonModel::Str(config.env@[i].1@)),
{
    reveal_strlit("command");
    reveal_strlit("args");
    reveal_strlit("env");
    reveal_strlit("mcpServers");
    reveal_with_fuel(member, 4);
    let c = ("command"@, JsonModel::Str(config.command@));
    let a = ("args"@, JsonModel::Array(string_models(config.args@)));
    let base = seq![c, a];
    assert(base.drop_last() =~= seq![c]);
    assert(seq![c].drop_last() =~= Seq::<(Seq<char>, JsonModel)>::empty());
    assert("command"@ != "args"@ && "command"@ != "env"@ && "args"@ != "env"@) by {
        assert("command"@.len() == 7 && "args"@.len() == 4 && "env"@.len() == 3);
    }
    assert(member(base, "command"@) == Some(c.1));
    assert(member(base, "args"@) == Some(a.1));
    assert(member(base, "env"@) is None);
    if config.env@.len() > 0 {
        let e = base.push(("env"@, JsonModel::Object(env_members(config.env@))));
        assert(e.drop_last() =~= base);
        assert(member(e, "command"@) == Some(c.1));
        assert(member(e, "args"@) == Some(a.1));
    }
    let m = env_members(config.env@);
    assert forall|i: int|
        0 <= i < config.env@.len() && (forall|j: int|
            i < j < config.env@.len() ==> config.env@[j].0@ != config.env@[i].0@) implies #[trigger] member(
        m,
        config.env@[i].0@,
    ) == Some(JsonModel::Str(config.env@[i].1@)) by {
        assert forall|j: int| i < j < m.len() implies m[j].0 != m[i].0 by {
            assert(m[j].0 == config.env@[j].0@);
        }
        lemma_member_last(m, i);
    }
}

fn mcp_json(config: &McpConfig) -> (s: String)
    ensures
        s@ == snippet(*config),
{
    let doc = mcp_document(config);
    pretty_json(&doc)
}

fn generate_claude_desktop(config: &McpConfig) -> (s: String)
    ensures
        s@ == snippet(*config),
{
    mcp_json(config)
}

fn generate_vscode_style(config: &McpConfig) -> (s: String)
    ensures
        s@ == snippet(*config),
{
    mcp_json(config)
}

fn generate_opencode_style(config: &McpConfig) -> (s: String)
    ensures
        s@ == snippet(*config),
{
    mcp_json(config)
}

fn generate_cline_style(config: &McpConfig) -> (s: String)
    ensures
        s@ == snippet(*config),
{
    mcp_json(config)
}

/// Generate an MCP configuration snippet for the given agent: a JSON
/// document that can be written to the agent's config file. Every supported
/// agent uses the same `mcpServers` layout.
pub fn generate_mcp_config(agent: &AgentKind, config: &McpConfig) -> (s: String)
    ensures
        s@ == snippet(*config),
{
    match agent {
        AgentKind::ClaudeDesktop => generate_claude_desktop(config),
        AgentKind::Cursor | AgentKind::Copilot => generate_vscode_style(config),
        AgentKind::OpenCode => generate_opencode_style(config),
        AgentKind::Cline => generate_cline_style(config),
    }
}

} // verus!
