//! MCP integration: connection settings, how remote tools are exposed,
//! and how a tool result becomes a tool output.
use vstd::prelude::*;

use crate::error::McpError;
use crate::text::{chars_of, decimal, decimal_string, owned, push_str, utf8_len};
use crate::time::{TimeSpan, NANOS_PER_MILLI, NANOS_PER_SEC};
use crate::types::ToolDefinition;

verus! {

broadcast use vstd::string::group_string_axioms;

pub const DEFAULT_MCP_CONNECT_TIMEOUT_SECS: u64 = 30;

pub const DEFAULT_MCP_REQUEST_TIMEOUT_SECS: u64 = 60;

/// The largest base64 image that is attached to a tool output.
pub const MAX_MCP_IMAGE_BASE64_CHARS: usize = 29_360_128;

/// Default limit on the lines of a tool output.
pub const DEFAULT_MAX_LINES: usize = 2_000;

/// Default limit on the UTF-8 bytes of a tool output.
pub const DEFAULT_MAX_BYTES: usize = 51_200;

pub const DEFAULT_MCP_TOOL_DESCRIPTION: &'static str = "MCP server tool";

/// `duration`, raised to one millisecond when it is shorter.
pub open spec fn nonzero_span(duration: TimeSpan) -> nat {
    if duration.spec_nanos() >= NANOS_PER_MILLI {
        duration.spec_nanos()
    } else {
        NANOS_PER_MILLI as nat
    }
}

pub fn nonzero_duration(duration: TimeSpan) -> (r: TimeSpan)
    ensures
        r.spec_nanos() == nonzero_span(duration),
{
    duration.max(TimeSpan::from_millis(1))
}

/// Options shared by stdio and HTTP MCP connections.
#[derive(Clone, Debug, PartialEq, Eq)]
pub struct McpClientOptions {
    pub connect_timeout: TimeSpan,
    pub request_timeout: Option<TimeSpan>,
    pub tool_name_prefix: Option<String>,
    pub max_output_lines: usize,
    pub max_output_bytes: usize,
}

impl Default for McpClientOptions {
    fn default() -> (r: Self)
        ensures
            r.connect_timeout.spec_nanos() == DEFAULT_MCP_CONNECT_TIMEOUT_SECS * NANOS_PER_SEC,
            r.request_timeout matches Some(t) && t.spec_nanos() == DEFAULT_MCP_REQUEST_TIMEOUT_SECS
                * NANOS_PER_SEC,
            r.tool_name_prefix is None,
            r.max_output_lines == DEFAULT_MAX_LINES,
            r.max_output_bytes == DEFAULT_MAX_BYTES,
    {
        McpClientOptions {
            connect_timeout: TimeSpan::from_secs(DEFAULT_MCP_CONNECT_TIMEOUT_SECS),
            request_timeout: Some(TimeSpan::from_secs(DEFAULT_MCP_REQUEST_TIMEOUT_SECS)),
            tool_name_prefix: None,
            max_output_lines: DEFAULT_MAX_LINES,
            max_output_bytes: DEFAULT_MAX_BYTES,
        }
    }
}

impl McpClientOptions {
    /// Sets the connection deadline, at least one millisecond.
    pub fn connect_timeout(self, timeout: TimeSpan) -> (r: Self)
        ensures
            r.connect_timeout.spec_nanos() == nonzero_span(timeout),
            r.request_timeout == self.request_timeout,
            r.tool_name_prefix == self.tool_name_prefix,
            r.max_output_lines == self.max_output_lines,
            r.max_output_bytes == self.max_output_bytes,
    {
        McpClientOptions { connect_timeout: nonzero_duration(timeout), ..self }
    }

    /// Sets the deadline of each request, at least one millisecond.
    pub fn request_timeout(self, timeout: TimeSpan) -> (r: Self)
        ensures
            r.connect_timeout == self.connect_timeout,
            r.request_timeout matches Some(t) && t.spec_nanos() == nonzero_span(timeout),
            r.tool_name_prefix == self.tool_name_prefix,
            r.max_output_lines == self.max_output_lines,
            r.max_output_bytes == self.max_output_bytes,
    {
        McpClientOptions { request_timeout: Some(nonzero_duration(timeout)), ..self }
    }

    pub fn without_request_timeout(self) -> (r: Self)
        ensures
            r.connect_timeout == self.connect_timeout,
            r.request_timeout is None,
            r.tool_name_prefix == self.tool_name_prefix,
            r.max_output_lines == self.max_output_lines,
            r.max_output_bytes == self.max_output_bytes,
    {
        McpClientOptions { request_timeout: None, ..self }
    }

    /// Exposes every tool as `<prefix>__<remote-name>`; an empty prefix
    /// exposes the remote names.
    pub fn tool_name_prefix(self, prefix: &str) -> (r: Self)
        ensures
            r.connect_timeout == self.connect_timeout,
            r.request_timeout == self.request_timeout,
            prefix@.len() == 0 ==> r.tool_name_prefix is None,
            prefix@.len() > 0 ==> (r.tool_name_prefix matches Some(p) && p@ == prefix@),
            r.max_output_lines == self.max_output_lines,
            r.max_output_bytes == self.max_output_bytes,
    {
        let chars = chars_of(prefix);
        let value = if chars.len() == 0 {
            None
        } else {
            Some(owned(prefix))
        };
        McpClientOptions { tool_name_prefix: value, ..self }
    }

    /// Sets the output limits, each at least one.
    pub fn output_limits(self, max_lines: usize, max_bytes: usize) -> (r: Self)
        ensures
            r.connect_timeout == self.connect_timeout,
            r.request_timeout == self.request_timeout,
            r.tool_name_prefix == self.tool_name_prefix,
            r.max_output_lines == if max_lines >= 1 { max_lines } else { 1 },
            r.max_output_bytes == if max_bytes >= 1 { max_bytes } else { 1 },
    {
        McpClientOptions {
            max_output_lines: if max_lines >= 1 { max_lines } else { 1 },
            max_output_bytes: if max_bytes >= 1 { max_bytes } else { 1 },
            ..self
        }
    }
}

/// How to start an MCP server as a child process over stdio.
#[derive(Clone, Debug, PartialEq, Eq)]
pub struct McpStdioConfig {
    pub command: String,
    pub args: Vec<String>,
    pub current_dir: Option<String>,
    pub env: Vec<(String, String)>,
    pub clear_env: bool,
    pub options: McpClientOptions,
}

impl McpStdioConfig {
    pub fn new(command: &str) -> (r: Self)
        ensures
            r.command@ == command@,
            r.args@.len() == 0,
            r.current_dir is None,
            r.env@.len() == 0,
            !r.clear_env,
            r.options.connect_timeout.spec_nanos() == DEFAULT_MCP_CONNECT_TIMEOUT_SECS * NANOS_PER_SEC,
            r.options.request_timeout matches Some(t) && t.spec_nanos()
                == DEFAULT_MCP_REQUEST_TIMEOUT_SECS * NANOS_PER_SEC,
            r.options.tool_name_prefix is None,
            r.options.max_output_lines == DEFAULT_MAX_LINES,
            r.options.max_output_bytes == DEFAULT_MAX_BYTES,
    {
        McpStdioConfig {
            command: owned(command),
            args: Vec::new(),
            current_dir: None,
            env: Vec::new(),
            clear_env: false,
            options: McpClientOptions::default(),
        }
    }

    pub fn arg(self, arg: &str) -> (r: Self)
        ensures
            r.command == self.command,
            r.args@.len() == self.args@.len() + 1,
            r.args@.take(self.args@.len() as int) == self.args@,
            r.args@.last()@ == arg@,
            r.env == self.env,
            r.options == self.options,
    {
        let mut s = self;
        s.args.push(owned(arg));
        proof {
            assert(s.args@.take(self.args@.len() as int) == self.args@);
        }
        s
    }

    pub fn args(self, args: Vec<String>) -> (r: Self)
        ensures
            r.command == self.command,
            r.args@ == self.args@ + args@,
            r.env == self.env,
            r.options == self.options,
    {
        let mut s = self;
        let mut more = args;
        s.args.append(&mut more);
        s
    }

    pub fn current_dir(self, current_dir: &str) -> (r: Self)
        ensures
            r.command == self.command,
            r.current_dir matches Some(d) && d@ == current_dir@,
            r.options == self.options,
    {
        McpStdioConfig { current_dir: Some(owned(current_dir)), ..self }
    }

    pub fn env(self, key: &str, value: &str) -> (r: Self)
        ensures
            r.command == self.command,
            r.env@.len() == self.env@.len() + 1,
            r.env@.take(self.env@.len() as int) == self.env@,
            r.env@.last().0@ == key@,
            r.env@.last().1@ == value@,
            r.options == self.options,
    {
        let mut s = self;
        s.env.push((owned(key), owned(value)));
        proof {
            assert(s.env@.take(self.env@.len() as int) == self.env@);
        }
        s
    }

    pub fn envs(self, env: Vec<(String, String)>) -> (r: Self)
        ensures
            r.command == self.command,
            r.env@ == self.env@ + env@,
            r.options == self.options,
    {
        let mut s = self;
        let mut more = env;
        s.env.append(&mut more);
        s
    }

    pub fn clear_env(self) -> (r: Self)
        ensures
            r.command == self.command,
            r.clear_env,
            r.env == self.env,
            r.options == self.options,
    {
        McpStdioConfig { clear_env: true, ..self }
    }

    pub fn options(self, options: McpClientOptions) -> (r: Self)
        ensures
            r.command == self.command,
            r.env == self.env,
            r.options == options,
    {
        McpStdioConfig { options, ..self }
    }
}

/// How to reach an MCP Streamable HTTP endpoint.
#[derive(Clone, Debug, PartialEq, Eq)]
pub struct McpHttpConfig {
    pub uri: String,
    /// A bearer token, without the `Bearer ` prefix.
    pub bearer_token: Option<String>,
    pub headers: Vec<(String, String)>,
    pub allow_stateless: bool,
    pub reinitialize_on_expired_session: bool,
    pub options: McpClientOptions,
}

impl McpHttpConfig {
    pub fn new(uri: &str) -> (r: Self)
        ensures
            r.uri@ == uri@,
            r.bearer_token is None,
            r.headers@.len() == 0,
            r.allow_stateless,
            r.reinitialize_on_expired_session,
            r.options.connect_timeout.spec_nanos() == DEFAULT_MCP_CONNECT_TIMEOUT_SECS * NANOS_PER_SEC,
            r.options.request_timeout matches Some(t) && t.spec_nanos()
                == DEFAULT_MCP_REQUEST_TIMEOUT_SECS * NANOS_PER_SEC,
            r.options.tool_name_prefix is None,
            r.options.max_output_lines == DEFAULT_MAX_LINES,
            r.options.max_output_bytes == DEFAULT_MAX_BYTES,
    {
        McpHttpConfig {
            uri: owned(uri),
            bearer_token: None,
            headers: Vec::new(),
            allow_stateless: true,
            reinitialize_on_expired_session: true,
            options: McpClientOptions::default(),
        }
    }

    pub fn bearer_token(self, token: &str) -> (r: Self)
        ensures
            r.uri == self.uri,
            r.bearer_token matches Some(t) && t@ == token@,
            r.headers == self.headers,
            r.options == self.options,
    {
        McpHttpConfig { bearer_token: Some(owned(token)), ..self }
    }

    /// Adds a custom header; names and values are checked on connecting.
    pub fn header(self, name: &str, value: &str) -> (r: Self)
        ensures
            r.uri == self.uri,
            r.headers@.len() == self.headers@.len() + 1,
            r.headers@.take(self.headers@.len() as int) == self.headers@,
            r.headers@.last().0@ == name@,
            r.headers@.last().1@ == value@,
            r.bearer_token == self.bearer_token,
            r.allow_stateless == self.allow_stateless,
            r.reinitialize_on_expired_session == self.reinitialize_on_expired_session,
            r.options == self.options,
    {
        let mut s = self;
        s.headers.push((owned(name), owned(value)));
        proof {
            assert(s.headers@.take(self.headers@.len() as int) == self.headers@);
        }
        s
    }

    pub fn allow_stateless(self, allow: bool) -> (r: Self)
        ensures
            r.uri == self.uri,
            r.allow_stateless == allow,
            r.reinitialize_on_expired_session == self.reinitialize_on_expired_session,
            r.options == self.options,
    {
        McpHttpConfig { allow_stateless: allow, ..self }
    }

    pub fn reinitialize_on_expired_session(self, enabled: bool) -> (r: Self)
        ensures
            r.uri == self.uri,
            r.allow_stateless == self.allow_stateless,
            r.reinitialize_on_expired_session == enabled,
            r.options == self.options,
    {
        McpHttpConfig { reinitialize_on_expired_session: enabled, ..self }
    }

    pub fn options(self, options: McpClientOptions) -> (r: Self)
        ensures
            r.uri == self.uri,
            r.headers == self.headers,
            r.options == options,
    {
        McpHttpConfig { options, ..self }
    }

    pub fn tool_name_prefix(self, prefix: &str) -> (r: Self)
        ensures
            r.uri == self.uri,
            r.headers == self.headers,
            prefix@.len() == 0 ==> r.options.tool_name_prefix is None,
            prefix@.len() > 0 ==> (r.options.tool_name_prefix matches Some(p) && p@ == prefix@),
            r.options.connect_timeout == self.options.connect_timeout,
            r.options.request_timeout == self.options.request_timeout,
    {
        let options = self.options.clone_options().tool_name_prefix(prefix);
        McpHttpConfig { options, ..self }
    }

    pub fn connect_timeout(self, timeout: TimeSpan) -> (r: Self)
        ensures
            r.uri == self.uri,
            r.options.connect_timeout.spec_nanos() == nonzero_span(timeout),
            r.options.request_timeout == self.options.request_timeout,
    {
        let options = self.options.clone_options().connect_timeout(timeout);
        McpHttpConfig { options, ..self }
    }

    pub fn request_timeout(self, timeout: TimeSpan) -> (r: Self)
        ensures
            r.uri == self.uri,
            r.options.connect_timeout == self.options.connect_timeout,
            r.options.request_timeout matches Some(t) && t.spec_nanos() == nonzero_span(timeout),
    {
        let options = self.options.clone_options().request_timeout(timeout);
        McpHttpConfig { options, ..self }
    }

    pub fn output_limits(self, max_lines: usize, max_bytes: usize) -> (r: Self)
        ensures
            r.uri == self.uri,
            r.options.max_output_lines == if max_lines >= 1 { max_lines } else { 1 },
            r.options.max_output_bytes == if max_bytes >= 1 { max_bytes } else { 1 },
    {
        let options = self.options.clone_options().output_limits(max_lines, max_bytes);
        McpHttpConfig { options, ..self }
    }
}

impl McpClientOptions {
    /// A copy of these options.
    pub fn clone_options(&self) -> (r: Self)
        ensures
            r == *self,
    {
        McpClientOptions {
            connect_timeout: self.connect_timeout,
            request_timeout: self.request_timeout,
            tool_name_prefix: crate::types::copy_opt_str(&self.tool_name_prefix),
            max_output_lines: self.max_output_lines,
            max_output_bytes: self.max_output_bytes,
        }
    }
}

/// What an MCP server says about itself.
#[derive(Clone, Debug, PartialEq, Eq)]
pub struct McpServerInfo {
    pub protocol_version: String,
    pub name: String,
    pub version: String,
    pub instructions: Option<String>,
}

/// A tool as the server describes it.
#[derive(Clone, Debug, PartialEq, Eq)]
pub struct RemoteTool {
    pub name: String,
    pub description: Option<String>,
    /// The tool's input schema, as JSON text.
    pub input_schema: String,
}

/// The name under which a remote tool is exposed.
pub open spec fn exposed_name(remote: Seq<char>, prefix: Option<Seq<char>>) -> Seq<char> {
    match prefix {
        Some(p) => p + "__"@ + remote,
        None => remote,
    }
}

/// The remote name of a tool and its definition as exposed to the model.
pub fn tool_definition(remote_tool: &RemoteTool, prefix: Option<&str>) -> (r: (String, ToolDefinition))
    ensures
        r.0@ == remote_tool.name@,
        r.1.name@ == exposed_name(remote_tool.name@, match prefix { Some(p) => Some(p@), None => None }),
        r.1.description@ == match remote_tool.description {
            Some(d) => d@,
            None => DEFAULT_MCP_TOOL_DESCRIPTION@,
        },
        r.1.parameters == remote_tool.input_schema,
{
    let remote_name = remote_tool.name.clone();
    let exposed = match prefix {
        Some(p) => {
            let mut n = owned(p);
            push_str(&mut n, "__");
            push_str(&mut n, remote_name.as_str());
            n
        },
        None => remote_name.clone(),
    };
    let description = match &remote_tool.description {
        Some(d) => d.clone(),
        None => owned(DEFAULT_MCP_TOOL_DESCRIPTION),
    };
    (remote_name, ToolDefinition { name: exposed, description, parameters: remote_tool.input_schema.clone() })
}

/// The exposed tools of a server: each remote name with its definition, in
/// order; two tools exposed under one name are an error.
pub fn expose_tools(remote_tools: &Vec<RemoteTool>, prefix: Option<&str>) -> (r: Result<Vec<(String, ToolDefinition)>, McpError>)
    ensures
        ({
            let names = Seq::new(remote_tools@.len(), |k: int| exposed_name(remote_tools@[k].name@, match prefix { Some(p) => Some(p@), None => None }));
            &&& names.no_duplicates() ==> (r matches Ok(v) && v@.len() == remote_tools@.len() && forall|k: int|
                0 <= k < v@.len() ==> (#[trigger] v@[k]).0@ == remote_tools@[k].name@ && v@[k].1.name@ == names[k])
            &&& !names.no_duplicates() ==> (r matches Err(McpError::DuplicateToolName(n)) && exists|k: int|
                0 <= k < names.len() && n@ == names[k] && exists|i: int| 0 <= i < k && names[i] == names[k])
        }),
{
    let ghost names = Seq::new(remote_tools@.len(), |k: int| exposed_name(remote_tools@[k].name@, match prefix { Some(p) => Some(p@), None => None }));
    let mut out: Vec<(String, ToolDefinition)> = Vec::new();
    let mut seen: Vec<String> = Vec::new();
    let mut k: usize = 0;
    while k < remote_tools.len()
        invariant
            k <= remote_tools@.len(),
            names == Seq::new(remote_tools@.len(), |j: int| exposed_name(remote_tools@[j].name@, match prefix { Some(p) => Some(p@), None => None })),
            out@.len() == k,
            seen@.len() == k,
            forall|j: int| 0 <= j < k ==> (#[trigger] out@[j]).0@ == remote_tools@[j].name@ && out@[j].1.name@ == names[j],
            forall|j: int| 0 <= j < k ==> (#[trigger] seen@[j])@ == names[j],
            names.take(k as int).no_duplicates(),
        decreases remote_tools.len() - k,
    {
        let (remote_name, definition) = tool_definition(&remote_tools[k], prefix);
        match crate::skill_catalog::position_of(&seen, definition.name.as_str()) {
            Some(i) => {
                proof {
                    assert(names[i as int] == names[k as int]);
                    assert(!names.no_duplicates());
                }
                return Err(McpError::DuplicateToolName(definition.name));
            },
            None => {},
        }
        proof {
            let t = names.take(k + 1);
            assert(definition.name@ == names[k as int]);
            assert forall|a: int, b: int| 0 <= a < t.len() && 0 <= b < t.len() && a != b implies #[trigger] t[a] != #[trigger] t[b] by {
                let lo = if a < b { a } else { b };
                let hi = if a < b { b } else { a };
                if hi == k {
                    assert(seen@[lo]@ == names[lo]);
                    assert((#[trigger] seen@[lo])@ != definition.name@);
                } else {
                    assert(names.take(k as int)[lo] != names.take(k as int)[hi]);
                }
            }
        }
        seen.push(definition.name.clone());
        out.push((remote_name, definition));
        k += 1;
    }
    proof {
        assert(names.take(remote_tools@.len() as int) == names);
    }
    Ok(out)
}

/// The number of `\n` characters of `s`.
pub open spec fn newline_count(s: Seq<char>) -> nat
    decreases s.len(),
{
    if s.len() == 0 {
        0
    } else {
        newline_count(s.drop_last()) + if s.last() == '\n' { 1nat } else { 0nat }
    }
}

/// The number of lines of `s` (one more than its line breaks).
pub open spec fn line_count(s: Seq<char>) -> nat {
    newline_count(s) + 1
}

/// `e` ends a line of `s`: it is the end of `s` or a line break.
pub open spec fn ends_line(s: Seq<char>, e: int) -> bool {
    0 <= e <= s.len() && (e == s.len() || s[e] == '\n')
}

/// The lines of `s` before `e` fit the limits.
pub open spec fn fits(s: Seq<char>, e: int, max_lines: nat, max_bytes: nat) -> bool {
    ends_line(s, e) && line_count(s.take(e)) <= max_lines && utf8_len(s.take(e)) <= max_bytes
}

/// Scanning line ends from `i`, the last one whose lines fit, after `best`;
/// the scan stops at the first line end that does not fit.
pub open spec fn last_fit(s: Seq<char>, i: int, best: int, max_lines: nat, max_bytes: nat) -> int
    decreases s.len() + 1 - i,
{
    if i > s.len() || i < 0 {
        best
    } else if ends_line(s, i) {
        if fits(s, i, max_lines, max_bytes) {
            last_fit(s, i + 1, i, max_lines, max_bytes)
        } else {
            best
        }
    } else {
        last_fit(s, i + 1, best, max_lines, max_bytes)
    }
}

/// Where the kept head of `s` ends; negative when even the first line does
/// not fit.
pub open spec fn kept_end(s: Seq<char>, max_lines: nat, max_bytes: nat) -> int {
    last_fit(s, 0, -1, max_lines, max_bytes)
}

/// What limit cut an output.
#[derive(Clone, Copy, Debug, PartialEq, Eq, Structural)]
pub enum TruncatedBy {
    Lines,
    Bytes,
}

/// The head of a text cut to line and byte limits.
#[derive(Clone, Debug, PartialEq, Eq)]
pub struct TruncationResult {
    pub content: String,
    pub truncated: bool,
    pub truncated_by: Option<TruncatedBy>,
    pub total_lines: usize,
    pub total_bytes: usize,
    pub output_lines: usize,
    pub first_line_exceeds_limit: bool,
}

fn kept_end_exec(v: &Vec<char>, max_lines: usize, max_bytes: usize) -> (r: Option<usize>)
    requires
        utf8_len(v@) < usize::MAX,
    ensures
        match r {
            Some(e) => kept_end(v@, max_lines as nat, max_bytes as nat) == e && e <= v@.len(),
            None => kept_end(v@, max_lines as nat, max_bytes as nat) == -1,
        },
{
    let ghost s = v@;
    proof {
        crate::text::lemma_len_le_utf8_len(s);
    }
    let mut best: Option<usize> = None;
    let mut lines: usize = 1;
    let mut bytes: usize = 0;
    let mut k: usize = 0;
    while k < v.len()
        invariant
            k <= v@.len(),
            s == v@,
            utf8_len(s) < usize::MAX,
            s.len() <= utf8_len(s),
            lines == line_count(s.take(k as int)),
            bytes == utf8_len(s.take(k as int)),
            lines <= k + 1,
            kept_end(s, max_lines as nat, max_bytes as nat) == last_fit(s, k as int, match best { Some(b) => b as int, None => -1 }, max_lines as nat, max_bytes as nat),
            best matches Some(b) ==> b <= s.len(),
        decreases v.len() - k,
    {
        if v[k] == '\n' {
            if lines <= max_lines && bytes <= max_bytes {
                best = Some(k);
            } else {
                return best;
            }
        }
        proof {
            assert(s.take(k + 1) == s.take(k as int).push(s[k as int]));
            crate::text::lemma_utf8_len_push(s.take(k as int), s[k as int]);
            assert(s.take(k + 1).drop_last() == s.take(k as int));
            crate::text::lemma_utf8_len_prefix(s, k + 1, s.len() as int);
            assert(s.take(s.len() as int) == s);
        }
        let w = crate::text::char_len_utf8(v[k]);
        bytes = bytes + w;
        if v[k] == '\n' {
            lines = lines + 1;
        }
        k += 1;
    }
    proof {
        assert(s.take(s.len() as int) == s);
        assert(last_fit(s, s.len() as int + 1, s.len() as int, max_lines as nat, max_bytes as nat) == s.len());
    }
    if lines <= max_lines && bytes <= max_bytes {
        Some(v.len())
    } else {
        best
    }
}

/// Keeps the complete leading lines of `content` that fit both limits.
pub fn truncate_head(content: &str, max_lines: usize, max_bytes: usize) -> (r: TruncationResult)
    requires
        max_lines >= 1,
        utf8_len(content@) < usize::MAX,
    ensures
        r.total_lines == line_count(content@),
        r.total_bytes == utf8_len(content@),
        r.truncated == !(line_count(content@) <= max_lines && utf8_len(content@) <= max_bytes),
        !r.truncated ==> r.content@ == content@ && r.output_lines == line_count(content@)
            && r.truncated_by is None && !r.first_line_exceeds_limit,
        r.truncated ==> ({
            let e = kept_end(content@, max_lines as nat, max_bytes as nat);
            &&& r.first_line_exceeds_limit == (e < 0)
            &&& e < 0 ==> r.content@.len() == 0 && r.output_lines == 0 && r.truncated_by == Some(TruncatedBy::Bytes)
            &&& e >= 0 ==> r.content@ == content@.take(e) && r.output_lines == line_count(content@.take(e))
                && r.truncated_by == Some(if line_count(content@.take(e)) >= max_lines { TruncatedBy::Lines } else { TruncatedBy::Bytes })
        }),
{
    let v = chars_of(content);
    let total_bytes = crate::text::byte_len(content);
    proof {
        crate::text::lemma_len_le_utf8_len(content@);
    }
    let mut newlines: usize = 0;
    let mut i: usize = 0;
    while i < v.len()
        invariant
            i <= v@.len(),
            v@.len() < usize::MAX,
            newlines == newline_count(v@.take(i as int)),
            newlines <= i,
        decreases v.len() - i,
    {
        proof {
            assert(v@.take(i + 1).drop_last() == v@.take(i as int));
        }
        if v[i] == '\n' {
            newlines += 1;
        }
        i += 1;
    }
    proof {
        assert(v@.take(v@.len() as int) == v@);
    }
    let total_lines = newlines + 1;
    if total_lines <= max_lines && total_bytes <= max_bytes {
        return TruncationResult {
            content: owned(content),
            truncated: false,
            truncated_by: None,
            total_lines,
            total_bytes,
            output_lines: total_lines,
            first_line_exceeds_limit: false,
        };
    }
    match kept_end_exec(&v, max_lines, max_bytes) {
        None => TruncationResult {
            content: String::new(),
            truncated: true,
            truncated_by: Some(TruncatedBy::Bytes),
            total_lines,
            total_bytes,
            output_lines: 0,
            first_line_exceeds_limit: true,
        },
        Some(e) => {
            let mut lines: usize = 0;
            let mut j: usize = 0;
            while j < e
                invariant
                    j <= e <= v@.len(),
                    v@.len() < usize::MAX,
                    lines == newline_count(v@.take(j as int)),
                    lines <= j,
                decreases e - j,
            {
                proof {
                    assert(v@.take(j + 1).drop_last() == v@.take(j as int));
                }
                if v[j] == '\n' {
                    lines += 1;
                }
                j += 1;
            }
            let kept = crate::text::string_of(&v, 0, e);
            proof {
                assert(v@.subrange(0, e as int) == v@.take(e as int));
            }
            let output_lines = lines + 1;
            TruncationResult {
                content: kept,
                truncated: true,
                truncated_by: Some(if output_lines >= max_lines { TruncatedBy::Lines } else { TruncatedBy::Bytes }),
                total_lines,
                total_bytes,
                output_lines,
                first_line_exceeds_limit: false,
            }
        },
    }
}

/// Scanning from `k`, the longest prefix of `s` whose UTF-8 encoding fits
/// in `max_bytes`.
pub open spec fn boundary_scan(s: Seq<char>, k: int, max_bytes: nat) -> int
    decreases s.len() - k,
{
    if 0 <= k < s.len() && utf8_len(s.take(k + 1)) <= max_bytes {
        boundary_scan(s, k + 1, max_bytes)
    } else {
        k
    }
}

/// The longest prefix of `content` of at most `max_bytes` UTF-8 bytes that
/// ends on a character boundary.
pub fn prefix_at_char_boundary(content: &str, max_bytes: usize) -> (r: String)
    ensures
        r@ == content@.take(boundary_scan(content@, 0, max_bytes as nat)),
{
    let v = chars_of(content);
    let ghost s = v@;
    let mut k: usize = 0;
    let mut bytes: usize = 0;
    loop
        invariant
            k <= v@.len(),
            s == v@,
            bytes == utf8_len(s.take(k as int)),
            bytes <= max_bytes,
            boundary_scan(s, 0, max_bytes as nat) == boundary_scan(s, k as int, max_bytes as nat),
        ensures
            k <= v@.len(),
            s == v@,
            boundary_scan(s, 0, max_bytes as nat) == k,
        decreases v.len() - k,
    {
        if k >= v.len() {
            break;
        }
        proof {
            assert(s.take(k + 1) == s.take(k as int).push(s[k as int]));
            crate::text::lemma_utf8_len_push(s.take(k as int), s[k as int]);
        }
        let w = crate::text::char_len_utf8(v[k]);
        if w > max_bytes - bytes {
            break;
        }
        bytes = bytes + w;
        k += 1;
    }
    proof {
        assert(s.subrange(0, k as int) == s.take(k as int));
    }
    crate::text::string_of(&v, 0, k)
}

/// The truncation notice of an MCP output that exceeded its limits.
pub open spec fn truncated_output_text(content: Seq<char>, max_lines: nat, max_bytes: nat) -> Seq<char> {
    let e = kept_end(content, max_lines, max_bytes);
    let shown = if e < 0 { content.take(boundary_scan(content, 0, max_bytes)) } else { content.take(e) };
    let shown_lines = if e < 0 { 1 } else { line_count(content.take(e)) };
    let by_lines = e >= 0 && line_count(content.take(e)) >= max_lines;
    let reason = if by_lines { decimal(max_lines) + " line limit"@ } else { decimal(max_bytes) + " byte limit"@ };
    shown + "\n\n[MCP output truncated by "@ + reason + "; showing "@ + decimal(shown_lines) + " of "@
        + decimal(line_count(content)) + " lines and at most "@ + decimal(utf8_len(shown)) + " of "@
        + decimal(utf8_len(content)) + " bytes.]"@
}

/// An MCP output bounded by the line and byte limits: unchanged when it
/// fits, otherwise its head followed by a notice of what was cut.
pub open spec fn tool_output_text(content: Seq<char>, max_lines: nat, max_bytes: nat) -> Seq<char> {
    if line_count(content) <= max_lines && utf8_len(content) <= max_bytes {
        content
    } else {
        truncated_output_text(content, max_lines, max_bytes)
    }
}

pub fn truncate_tool_output(content: &str, max_lines: usize, max_bytes: usize) -> (r: String)
    requires
        max_lines >= 1,
        utf8_len(content@) < usize::MAX,
    ensures
        r@ == tool_output_text(content@, max_lines as nat, max_bytes as nat),
{
    let t = truncate_head(content, max_lines, max_bytes);
    if !t.truncated {
        return t.content;
    }
    let (shown, shown_lines) = if t.first_line_exceeds_limit {
        (prefix_at_char_boundary(content, max_bytes), 1usize)
    } else {
        (t.content, t.output_lines)
    };
    let mut r = String::new();
    push_str(&mut r, shown.as_str());
    push_str(&mut r, "\n\n[MCP output truncated by ");
    if t.truncated_by == Some(TruncatedBy::Lines) {
        let n = decimal_string(max_lines as u64);
        push_str(&mut r, n.as_str());
        push_str(&mut r, " line limit");
    } else {
        let n = decimal_string(max_bytes as u64);
        push_str(&mut r, n.as_str());
        push_str(&mut r, " byte limit");
    }
    push_str(&mut r, "; showing ");
    let a = decimal_string(shown_lines as u64);
    push_str(&mut r, a.as_str());
    push_str(&mut r, " of ");
    let b = decimal_string(t.total_lines as u64);
    push_str(&mut r, b.as_str());
    push_str(&mut r, " lines and at most ");
    let c = decimal_string(crate::text::byte_len(shown.as_str()) as u64);
    push_str(&mut r, c.as_str());
    push_str(&mut r, " of ");
    let d = decimal_string(t.total_bytes as u64);
    push_str(&mut r, d.as_str());
    push_str(&mut r, " bytes.]");
    r
}

/// One content block of an MCP tool result.
#[derive(Clone, Debug, PartialEq, Eq)]
pub enum McpContentBlock {
    Text(String),
    Image { mime_type: String, data: String },
    Audio { mime_type: String, data: String },
    TextResource { uri: String, mime_type: Option<String>, text: String },
    BlobResource { uri: String, mime_type: Option<String>, blob: String },
    /// A resource whose contents are of another kind.
    OtherResource,
    /// A resource link, as the JSON text of the link.
    ResourceLink { serialized: String },
    /// A block of another type.
    Other,
}

/// The result of an MCP `tools/call`.
#[derive(Clone, Debug, PartialEq, Eq)]
pub struct McpToolResult {
    pub is_error: Option<bool>,
    pub content: Vec<McpContentBlock>,
    /// Structured content, as compact JSON text.
    pub structured_content: Option<String>,
}

/// Whether two texts are JSON documents with equal values
/// (`serde_json::from_str::<Value>` on both, then `==`); false when either
/// is not JSON.
pub uninterp spec fn json_texts_equal(a: Seq<char>, b: Seq<char>) -> bool;

/// The pretty-printed form of a JSON document (`serde_json::to_string_pretty`
/// of its value); the text itself when it is not JSON.
pub uninterp spec fn json_pretty(text: Seq<char>) -> Seq<char>;

/// Compares two JSON texts by value with `serde_json`.
#[verifier::external_body]
pub(crate) fn same_json(a: &str, b: &str) -> (r: bool)
    ensures
        r == json_texts_equal(a@, b@),
{
    match (serde_json::from_str::<serde_json::Value>(a), serde_json::from_str::<serde_json::Value>(b)) {
        (Ok(x), Ok(y)) => x == y,
        _ => false,
    }
}

/// Pretty-prints a JSON text with `serde_json::to_string_pretty`.
#[verifier::external_body]
fn pretty_json(text: &str) -> (r: String)
    ensures
        r@ == json_pretty(text@),
{
    match serde_json::from_str::<serde_json::Value>(text) {
        Ok(v) => match serde_json::to_string_pretty(&v) {
            Ok(p) => p,
            Err(_) => text.to_owned(),
        },
        Err(_) => text.to_owned(),
    }
}

pub open spec fn mime_suffix(mime: Option<String>) -> Seq<char> {
    match mime {
        Some(m) => ", "@ + m@,
        None => Seq::empty(),
    }
}

/// The text that stands for a content block.
pub open spec fn block_text(b: McpContentBlock) -> Seq<char> {
    match b {
        McpContentBlock::Text(t) => t@,
        McpContentBlock::Image { mime_type, .. } => "[MCP image: "@ + mime_type@ + "]"@,
        McpContentBlock::Audio { mime_type, data } => "[MCP audio: "@ + mime_type@ + ", "@
            + decimal(utf8_len(data@)) + " base64 characters omitted]"@,
        McpContentBlock::TextResource { uri, mime_type, text } => "[MCP resource: "@ + uri@
            + mime_suffix(mime_type) + "]\n"@ + text@,
        McpContentBlock::BlobResource { uri, mime_type, blob } => "[MCP resource: "@ + uri@
            + mime_suffix(mime_type) + ", "@ + decimal(utf8_len(blob@)) + " base64 characters omitted]"@,
        McpContentBlock::OtherResource => "[MCP resource with unsupported content]"@,
        McpContentBlock::ResourceLink { serialized } => "[MCP resource link]\n"@ + serialized@,
        McpContentBlock::Other => "[MCP content block with unsupported type]"@,
    }
}

fn push_mime_suffix(s: &mut String, mime: &Option<String>)
    ensures
        final(s)@ == old(s)@ + mime_suffix(*mime),
{
    match mime {
        Some(m) => {
            push_str(s, ", ");
            push_str(s, m.as_str());
        },
        None => {},
    }
}

fn push_count(s: &mut String, text: &str)
    ensures
        final(s)@ == old(s)@ + decimal(utf8_len(text@)),
{
    let n = crate::text::byte_len(text);
    let d = decimal_string(n as u64);
    push_str(s, d.as_str());
}

/// Renders a content block as text.
pub fn render_content_block(block: &McpContentBlock) -> (r: String)
    ensures
        r@ == block_text(*block),
{
    match block {
        McpContentBlock::Text(t) => t.clone(),
        McpContentBlock::Image { mime_type, .. } => {
            let mut r = owned("[MCP image: ");
            push_str(&mut r, mime_type.as_str());
            push_str(&mut r, "]");
            r
        },
        McpContentBlock::Audio { mime_type, data } => {
            let mut r = owned("[MCP audio: ");
            push_str(&mut r, mime_type.as_str());
            push_str(&mut r, ", ");
            push_count(&mut r, data.as_str());
            push_str(&mut r, " base64 characters omitted]");
            r
        },
        McpContentBlock::TextResource { uri, mime_type, text } => {
            let mut r = owned("[MCP resource: ");
            push_str(&mut r, uri.as_str());
            push_mime_suffix(&mut r, mime_type);
            push_str(&mut r, "]\n");
            push_str(&mut r, text.as_str());
            r
        },
        McpContentBlock::BlobResource { uri, mime_type, blob } => {
            let mut r = owned("[MCP resource: ");
            push_str(&mut r, uri.as_str());
            push_mime_suffix(&mut r, mime_type);
            push_str(&mut r, ", ");
            push_count(&mut r, blob.as_str());
            push_str(&mut r, " base64 characters omitted]");
            r
        },
        McpContentBlock::OtherResource => owned("[MCP resource with unsupported content]"),
        McpContentBlock::ResourceLink { serialized } => {
            let mut r = owned("[MCP resource link]\n");
            push_str(&mut r, serialized.as_str());
            r
        },
        McpContentBlock::Other => owned("[MCP content block with unsupported type]"),
    }
}

/// An image small enough to attach.
pub open spec fn attachable(b: McpContentBlock) -> bool {
    b matches McpContentBlock::Image { data, .. } && utf8_len(data@) <= MAX_MCP_IMAGE_BASE64_CHARS
}

/// The text chunk of a block: images get a marker (or a note that they were
/// too large to attach); other blocks their text, when it is not empty.
pub open spec fn block_chunk(b: McpContentBlock) -> Option<Seq<char>> {
    match b {
        McpContentBlock::Image { mime_type, data } => if utf8_len(data@) <= MAX_MCP_IMAGE_BASE64_CHARS {
            Some("[MCP image: "@ + mime_type@ + "]"@)
        } else {
            Some("[MCP image omitted: "@ + mime_type@ + ", "@ + decimal(utf8_len(data@))
                + " base64 characters exceeds attachment limit]"@)
        },
        _ => if block_text(b).len() > 0 {
            Some(block_text(b))
        } else {
            None
        },
    }
}

/// The chunks of `blocks`, in order.
pub open spec fn chunks_of(blocks: Seq<McpContentBlock>) -> Seq<Seq<char>>
    decreases blocks.len(),
{
    if blocks.len() == 0 {
        Seq::empty()
    } else {
        match block_chunk(blocks.last()) {
            Some(c) => chunks_of(blocks.drop_last()).push(c),
            None => chunks_of(blocks.drop_last()),
        }
    }
}

/// The data URLs of the attachable images of `blocks`, in order.
pub open spec fn image_urls(blocks: Seq<McpContentBlock>) -> Seq<Seq<char>>
    decreases blocks.len(),
{
    if blocks.len() == 0 {
        Seq::empty()
    } else if let McpContentBlock::Image { mime_type, data } = blocks.last() {
        if utf8_len(data@) <= MAX_MCP_IMAGE_BASE64_CHARS {
            image_urls(blocks.drop_last()).push("data:"@ + mime_type@ + ";base64,"@ + data@)
        } else {
            image_urls(blocks.drop_last())
        }
    } else {
        image_urls(blocks.drop_last())
    }
}

/// `parts` joined with `sep`.
pub open spec fn join_with(parts: Seq<Seq<char>>, sep: Seq<char>) -> Seq<char>
    decreases parts.len(),
{
    if parts.len() == 0 {
        Seq::empty()
    } else if parts.len() == 1 {
        parts[0]
    } else {
        join_with(parts.drop_last(), sep) + sep + parts.last()
    }
}

/// The text chunks of a result: those of its blocks, then its structured
/// content, pretty-printed, unless some chunk already holds the same JSON.
pub open spec fn result_chunks(result: McpToolResult) -> Seq<Seq<char>> {
    let c = chunks_of(result.content@);
    match result.structured_content {
        Some(s) => if exists|i: int| 0 <= i < c.len() && json_texts_equal(#[trigger] c[i], s@) {
            c
        } else {
            c.push("[MCP structured content]\n"@ + json_pretty(s@))
        },
        None => c,
    }
}

/// The text of a result before it is bounded.
pub open spec fn result_text(result: McpToolResult) -> Seq<char> {
    let c = result_chunks(result);
    if c.len() == 0 {
        "(MCP tool returned no content)"@
    } else {
        join_with(c, "\n\n"@)
    }
}

/// The metadata of a result: its structured content when it fits the byte
/// limit, otherwise a note with its size.
pub open spec fn result_metadata(result: McpToolResult, max_bytes: nat) -> Option<Seq<char>> {
    match result.structured_content {
        Some(s) => if utf8_len(s@) <= max_bytes {
            Some("{\"mcp_structured_content\":"@ + s@ + "}"@)
        } else {
            Some("{\"mcp_structured_content_truncated\":true,\"original_bytes\":"@ + decimal(utf8_len(s@)) + "}"@)
        },
        None => None,
    }
}

fn join_chunks(chunks: &Vec<String>) -> (r: String)
    ensures
        r@ == join_with(crate::skill_args::string_views(chunks@), "\n\n"@),
{
    let ghost cv = crate::skill_args::string_views(chunks@);
    let mut out = String::new();
    let mut i: usize = 0;
    while i < chunks.len()
        invariant
            i <= chunks@.len(),
            cv == crate::skill_args::string_views(chunks@),
            out@ == join_with(cv.take(i as int), "\n\n"@),
        decreases chunks.len() - i,
    {
        proof {
            let t = cv.take(i + 1);
            assert(t.drop_last() == cv.take(i as int));
            assert(t.last() == chunks@[i as int]@);
            if i == 0 {
                assert(t[0] == chunks@[0]@);
            }
        }
        if i > 0 {
            push_str(&mut out, "\n\n");
        }
        push_str(&mut out, chunks[i].as_str());
        i += 1;
    }
    proof {
        assert(cv.take(chunks@.len() as int) == cv);
    }
    out
}

/// Turns an MCP tool result into a tool output: the result's text chunks
/// bounded by the limits, attachable images as image parts, the error flag,
/// and the structured content as metadata.
pub fn format_tool_result(result: McpToolResult, max_lines: usize, max_bytes: usize) -> (r: crate::tool::ToolOutput)
    requires
        max_lines >= 1,
    ensures
        r.is_error == (result.is_error == Some(true)),
        utf8_len(result_text(result)) < usize::MAX ==> r.content@ == tool_output_text(
            result_text(result),
            max_lines as nat,
            max_bytes as nat,
        ),
        r.content_parts@.len() == image_urls(result.content@).len(),
        forall|k: int| 0 <= k < r.content_parts@.len() ==> (#[trigger] r.content_parts@[k])@
            == crate::types::image_part_view(image_urls(result.content@)[k]),
        crate::types::opt_str_view(r.metadata) == result_metadata(result, max_bytes as nat),
{
    let ghost blocks = result.content@;
    let mut chunks: Vec<String> = Vec::new();
    let mut parts: Vec<crate::types::ContentPart> = Vec::new();
    let mut i: usize = 0;
    while i < result.content.len()
        invariant
            i <= blocks.len(),
            blocks == result.content@,
            crate::skill_args::string_views(chunks@) == chunks_of(blocks.take(i as int)),
            parts@.len() == image_urls(blocks.take(i as int)).len(),
            forall|k: int| 0 <= k < parts@.len() ==> (#[trigger] parts@[k])@
                == crate::types::image_part_view(image_urls(blocks.take(i as int))[k]),
        decreases result.content.len() - i,
    {
        proof {
            assert(blocks.take(i + 1).drop_last() == blocks.take(i as int));
            assert(blocks.take(i + 1).last() == blocks[i as int]);
        }
        let ghost before_chunks = chunks@;
        match &result.content[i] {
            McpContentBlock::Image { mime_type, data } => {
                if crate::text::byte_len(data.as_str()) <= MAX_MCP_IMAGE_BASE64_CHARS {
                    let mut url = owned("data:");
                    push_str(&mut url, mime_type.as_str());
                    push_str(&mut url, ";base64,");
                    push_str(&mut url, data.as_str());
                    parts.push(crate::types::ContentPart::image(crate::types::ImageUrl { url, detail: None }));
                    let mut c = owned("[MCP image: ");
                    push_str(&mut c, mime_type.as_str());
                    push_str(&mut c, "]");
                    chunks.push(c);
                } else {
                    let mut c = owned("[MCP image omitted: ");
                    push_str(&mut c, mime_type.as_str());
                    push_str(&mut c, ", ");
                    push_count(&mut c, data.as_str());
                    push_str(&mut c, " base64 characters exceeds attachment limit]");
                    chunks.push(c);
                }
            },
            block => {
                let c = render_content_block(block);
                if chars_of(c.as_str()).len() > 0 {
                    chunks.push(c);
                }
            },
        }
        proof {
            assert(crate::skill_args::string_views(chunks@) =~= chunks_of(blocks.take(i + 1)));
        }
        i += 1;
    }
    proof {
        assert(blocks.take(blocks.len() as int) == blocks);
    }
    let ghost base = crate::skill_args::string_views(chunks@);
    match &result.structured_content {
        Some(s) => {
            let mut found = false;
            let mut k: usize = 0;
            while k < chunks.len()
                invariant
                    k <= chunks@.len(),
                    base == crate::skill_args::string_views(chunks@),
                    found == exists|j: int| 0 <= j < k && json_texts_equal(#[trigger] base[j], s@),
                decreases chunks.len() - k,
            {
                if same_json(chunks[k].as_str(), s.as_str()) {
                    found = true;
                }
                proof {
                    if json_texts_equal(base[k as int], s@) {
                        assert(json_texts_equal(base[k as int], s@));
                    }
                }
                k += 1;
            }
            if !found {
                let mut c = owned("[MCP structured content]\n");
                let p = pretty_json(s.as_str());
                push_str(&mut c, p.as_str());
                chunks.push(c);
                proof {
                    assert(crate::skill_args::string_views(chunks@) =~= base.push("[MCP structured content]\n"@ + json_pretty(s@)));
                }
            }
        },
        None => {},
    }
    let content = if chunks.len() == 0 {
        owned("(MCP tool returned no content)")
    } else {
        join_chunks(&chunks)
    };
    let bounded = if crate::text::byte_len(content.as_str()) < usize::MAX {
        truncate_tool_output(content.as_str(), max_lines, max_bytes)
    } else {
        content
    };
    let is_error = match result.is_error {
        Some(b) => b,
        None => false,
    };
    let metadata = match &result.structured_content {
        Some(s) => {
            let n = crate::text::byte_len(s.as_str());
            if n <= max_bytes {
                let mut m = owned("{\"mcp_structured_content\":");
                push_str(&mut m, s.as_str());
                push_str(&mut m, "}");
                Some(m)
            } else {
                let mut m = owned("{\"mcp_structured_content_truncated\":true,\"original_bytes\":");
                let d = decimal_string(n as u64);
                push_str(&mut m, d.as_str());
                push_str(&mut m, "}");
                Some(m)
            }
        },
        None => None,
    };
    crate::tool::ToolOutput { content: bounded, is_error, content_parts: parts, metadata }
}

} // verus!
