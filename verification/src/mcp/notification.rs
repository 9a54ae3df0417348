//! Server-initiated MCP notifications.
use vstd::prelude::*;

verus! {

/// MCP notification types for server-initiated messages.
#[derive(Debug, Clone)]
pub enum McpNotification {
    /// The list of available tools has changed.
    ToolsListChanged,
    /// The list of available resources has changed.
    ResourcesListChanged,
    /// Progress notification for a long-running operation.
    Progress {
        /// Opaque token identifying the in-progress operation.
        progress_token: String,
        /// Current progress value.
        progress: u64,
        /// Total expected value, if known.
        total: Option<u64>,
    },
}

/// The JSON-RPC method of a notification.
pub open spec fn notification_method_spec(n: McpNotification) -> Seq<char> {
    match n {
        McpNotification::ToolsListChanged => "notifications/tools/list_changed"@,
        McpNotification::ResourcesListChanged => "notifications/resources/list_changed"@,
        McpNotification::Progress { .. } => "notifications/progress"@,
    }
}

impl McpNotification {
    /// The JSON-RPC method name this notification is sent under.
    pub fn method(&self) -> (m: &'static str)
        ensures
            m@ == notification_method_spec(*self),
    {
        match self {
            McpNotification::ToolsListChanged => "notifications/tools/list_changed",
            McpNotification::ResourcesListChanged => "notifications/resources/list_changed",
            McpNotification::Progress { .. } => "notifications/progress",
        }
    }
}

} // verus!
