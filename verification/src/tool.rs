//! Tool capability boundaries, name policies and tool outputs.
use vstd::prelude::*;

use crate::text::{owned, string_eq};
use crate::types::{Content, ContentPart};

verus! {

broadcast use vstd::string::group_string_axioms;

/// The maximum tool capability granted to an agent.
#[derive(Clone, Copy, Debug, PartialEq, Eq, Hash, Structural)]
pub enum CapabilityMode {
    /// Read-only and agent-local coordination tools.
    ReadOnly,
    /// Read-only, coordination, and workspace-scoped file mutation tools.
    WorkspaceEdit,
    /// Every registered tool.
    FullAccess,
}

/// The externally observable effect a tool may have.
#[derive(Clone, Copy, Debug, PartialEq, Eq, Hash, Structural)]
pub enum ToolEffect {
    /// Observes state without modifying it.
    ReadOnly,
    /// Mutates only agent-local coordination state.
    Internal,
    /// Writes to the configured workspace.
    WorkspaceWrite,
    /// May run commands, use the network, or otherwise affect external state.
    ExternalSideEffect,
    /// Coordinates a plan; available only while planning.
    PlanOnly,
}

/// Whether calls to a tool may overlap other calls in the same model batch.
#[derive(Clone, Copy, Debug, PartialEq, Eq, Hash, Structural)]
pub enum ToolConcurrency {
    Safe,
    Exclusive,
}

impl Default for CapabilityMode {
    fn default() -> (r: Self)
        ensures
            r == CapabilityMode::FullAccess,
    {
        CapabilityMode::FullAccess
    }
}

impl Default for ToolEffect {
    fn default() -> (r: Self)
        ensures
            r == ToolEffect::ExternalSideEffect,
    {
        ToolEffect::ExternalSideEffect
    }
}

impl Default for ToolConcurrency {
    fn default() -> (r: Self)
        ensures
            r == ToolConcurrency::Exclusive,
    {
        ToolConcurrency::Exclusive
    }
}

/// The position of a capability mode in the order
/// `ReadOnly < WorkspaceEdit < FullAccess`.
pub open spec fn capability_rank(mode: CapabilityMode) -> nat {
    match mode {
        CapabilityMode::ReadOnly => 0,
        CapabilityMode::WorkspaceEdit => 1,
        CapabilityMode::FullAccess => 2,
    }
}

/// The effects a capability mode permits.
pub open spec fn capability_allows(mode: CapabilityMode, effect: ToolEffect) -> bool {
    match mode {
        CapabilityMode::ReadOnly => effect == ToolEffect::ReadOnly || effect == ToolEffect::Internal,
        CapabilityMode::WorkspaceEdit => effect == ToolEffect::ReadOnly || effect
            == ToolEffect::Internal || effect == ToolEffect::WorkspaceWrite,
        CapabilityMode::FullAccess => true,
    }
}

impl CapabilityMode {
    pub fn allows(self, effect: ToolEffect) -> (r: bool)
        ensures
            r == capability_allows(self, effect),
    {
        match self {
            CapabilityMode::ReadOnly => match effect {
                ToolEffect::ReadOnly | ToolEffect::Internal => true,
                _ => false,
            },
            CapabilityMode::WorkspaceEdit => match effect {
                ToolEffect::ReadOnly | ToolEffect::Internal | ToolEffect::WorkspaceWrite => true,
                _ => false,
            },
            CapabilityMode::FullAccess => true,
        }
    }

    pub fn is_subset_of(self, other: Self) -> (r: bool)
        ensures
            r == (capability_rank(self) <= capability_rank(other)),
    {
        self.rank() <= other.rank()
    }

    /// The more restrictive of two modes.
    pub fn safest(self, other: Self) -> (r: Self)
        ensures
            r == if capability_rank(self) <= capability_rank(other) {
                self
            } else {
                other
            },
    {
        if self.rank() <= other.rank() {
            self
        } else {
            other
        }
    }

    fn rank(self) -> (r: u8)
        ensures
            r == capability_rank(self),
    {
        match self {
            CapabilityMode::ReadOnly => 0,
            CapabilityMode::WorkspaceEdit => 1,
            CapabilityMode::FullAccess => 2,
        }
    }
}

/// Capability modes form a linear boundary: a mode permits every effect that
/// a smaller mode permits, and full access permits every effect.
pub proof fn lemma_capability_monotone(a: CapabilityMode, b: CapabilityMode, effect: ToolEffect)
    ensures
        capability_rank(a) <= capability_rank(b) && capability_allows(a, effect)
            ==> capability_allows(b, effect),
        capability_allows(CapabilityMode::FullAccess, effect),
        capability_rank(a) <= capability_rank(b) || capability_rank(b) <= capability_rank(a),
        capability_rank(a) == capability_rank(b) ==> a == b,
{
}

/// Reading and agent-local coordination are open to every mode: each mode,
/// read-only included, permits the read-only and internal effects.
/// Read-only permits nothing else; workspace editing adds workspace writes
/// and nothing more; only full access permits external side effects and
/// plan-only tools.
pub proof fn lemma_every_mode_permits_reading_and_coordination(mode: CapabilityMode, effect: ToolEffect)
    ensures
        capability_allows(mode, ToolEffect::ReadOnly),
        capability_allows(mode, ToolEffect::Internal),
        capability_allows(CapabilityMode::ReadOnly, effect) <==> (effect is ReadOnly || effect is Internal),
        capability_allows(CapabilityMode::WorkspaceEdit, effect) <==> (effect is ReadOnly
            || effect is Internal || effect is WorkspaceWrite),
        (effect is ExternalSideEffect || effect is PlanOnly) ==> (capability_allows(mode, effect)
            <==> mode is FullAccess),
{
}

/// The safest of two modes permits exactly the effects both permit.
pub proof fn lemma_safest_is_intersection(a: CapabilityMode, b: CapabilityMode, effect: ToolEffect)
    ensures
        ({
            let s = if capability_rank(a) <= capability_rank(b) {
                a
            } else {
                b
            };
            capability_allows(s, effect) == (capability_allows(a, effect) && capability_allows(
                b,
                effect,
            ))
        }),
{
}

/// Name-based tool selection applied before capability boundaries.
///
/// A configured deny takes precedence over the allow-list. Mandatory harness
/// tools bypass only this name policy.
#[derive(Clone, Debug, PartialEq, Eq)]
pub struct ToolPolicy {
    allowed_tools: Option<Vec<String>>,
    denied_tools: Vec<String>,
}

pub open spec fn names_view(v: Seq<String>) -> Set<Seq<char>> {
    Set::new(|n: Seq<char>| exists|i: int| 0 <= i < v.len() && (#[trigger] v[i])@ == n)
}

impl ToolPolicy {
    /// The allow-list, when one is configured.
    pub closed spec fn spec_allowed(&self) -> Option<Set<Seq<char>>> {
        match self.allowed_tools {
            Some(v) => Some(names_view(v@)),
            None => None,
        }
    }

    /// The deny-list.
    pub closed spec fn spec_denied(&self) -> Set<Seq<char>> {
        names_view(self.denied_tools@)
    }

    /// A policy that allows every tool.
    pub fn new() -> (r: Self)
        ensures
            r.spec_allowed() is None,
            r.spec_denied() == Set::<Seq<char>>::empty(),
    {
        let r = ToolPolicy { allowed_tools: None, denied_tools: Vec::new() };
        assert(r.spec_denied() =~= Set::<Seq<char>>::empty());
        r
    }

    /// A policy that allows only the named tools.
    pub fn allow_only(tools: Vec<String>) -> (r: Self)
        ensures
            r.spec_allowed() == Some(names_view(tools@)),
            r.spec_denied() == Set::<Seq<char>>::empty(),
    {
        let r = ToolPolicy { allowed_tools: Some(tools), denied_tools: Vec::new() };
        assert(r.spec_denied() =~= Set::<Seq<char>>::empty());
        r
    }

    /// Replaces the allow-list.
    pub fn with_allowed_tools(self, tools: Vec<String>) -> (r: Self)
        ensures
            r.spec_allowed() == Some(names_view(tools@)),
            r.spec_denied() == self.spec_denied(),
    {
        ToolPolicy { allowed_tools: Some(tools), denied_tools: self.denied_tools }
    }

    /// Adds names to the deny-list.
    pub fn with_denied_tools(self, tools: Vec<String>) -> (r: Self)
        ensures
            r.spec_allowed() == self.spec_allowed(),
            r.spec_denied() == self.spec_denied().union(names_view(tools@)),
    {
        let mut denied = self.denied_tools;
        let ghost before = denied@;
        let mut more = tools;
        let ghost added = more@;
        denied.append(&mut more);
        assert(names_view(denied@) =~= names_view(before).union(names_view(added))) by {
            assert forall|n: Seq<char>| names_view(denied@).contains(n) implies names_view(
                before,
            ).union(names_view(added)).contains(n) by {
                let i = choose|i: int| 0 <= i < denied@.len() && (#[trigger] denied@[i])@ == n;
                if i < before.len() {
                    assert(before[i] == denied@[i]);
                } else {
                    assert(added[i - before.len()] == denied@[i]);
                }
            }
            assert forall|n: Seq<char>| names_view(before).union(names_view(added)).contains(
                n,
            ) implies names_view(denied@).contains(n) by {
                if names_view(before).contains(n) {
                    let i = choose|i: int| 0 <= i < before.len() && (#[trigger] before[i])@ == n;
                    assert(denied@[i] == before[i]);
                } else {
                    let i = choose|i: int| 0 <= i < added.len() && (#[trigger] added[i])@ == n;
                    assert(denied@[before.len() + i] == added[i]);
                }
            }
        }
        ToolPolicy { allowed_tools: self.allowed_tools, denied_tools: denied }
    }

    pub fn allowed_tools(&self) -> (r: Option<&Vec<String>>)
        ensures
            match r {
                Some(v) => self.spec_allowed() == Some(names_view(v@)),
                None => self.spec_allowed() is None,
            },
    {
        match &self.allowed_tools {
            Some(v) => Some(v),
            None => None,
        }
    }

    pub fn denied_tools(&self) -> (r: &Vec<String>)
        ensures
            self.spec_denied() == names_view(r@),
    {
        &self.denied_tools
    }

    /// Whether a tool named `tool_name` passes the name policy.
    pub fn allows(&self, tool_name: &str, mandatory: bool) -> (r: bool)
        ensures
            r == (mandatory || (!self.spec_denied().contains(tool_name@) && match self.spec_allowed() {
                Some(allowed) => allowed.contains(tool_name@),
                None => true,
            })),
    {
        if mandatory {
            return true;
        }
        if list_contains(&self.denied_tools, tool_name) {
            return false;
        }
        match &self.allowed_tools {
            Some(allowed) => list_contains(allowed, tool_name),
            None => true,
        }
    }
}

fn list_contains(list: &Vec<String>, name: &str) -> (r: bool)
    ensures
        r == names_view(list@).contains(name@),
{
    let target = owned(name);
    let mut i: usize = 0;
    while i < list.len()
        invariant
            i <= list.len(),
            target@ == name@,
            forall|j: int| 0 <= j < i ==> (#[trigger] list@[j])@ != name@,
        decreases list.len() - i,
    {
        if string_eq(&list[i], &target) {
            assert(0 <= i < list@.len() && list@[i as int]@ == name@);
            return true;
        }
        i += 1;
    }
    false
}

/// A denied tool is never allowed unless it is mandatory, and a mandatory
/// tool is always allowed.
pub proof fn lemma_deny_wins(policy: ToolPolicy, name: Seq<char>)
    ensures
        policy.spec_denied().contains(name) ==> !(false || (!policy.spec_denied().contains(name)
            && match policy.spec_allowed() {
            Some(allowed) => allowed.contains(name),
            None => true,
        })),
{
}

/// The result of a tool invocation.
#[derive(Clone, Debug, PartialEq, Eq)]
pub struct ToolOutput {
    pub content: String,
    pub is_error: bool,
    /// Additional content blocks; `content` remains the textual summary.
    pub content_parts: Vec<ContentPart>,
    /// Machine-readable result data (JSON text).
    pub metadata: Option<String>,
}

impl ToolOutput {
    pub fn success(content: String) -> (r: Self)
        ensures
            r.content == content,
            !r.is_error,
            r.content_parts@.len() == 0,
            r.metadata is None,
    {
        ToolOutput { content, is_error: false, content_parts: Vec::new(), metadata: None }
    }

    pub fn error(content: String) -> (r: Self)
        ensures
            r.content == content,
            r.is_error,
            r.content_parts@.len() == 0,
            r.metadata is None,
    {
        ToolOutput { content, is_error: true, content_parts: Vec::new(), metadata: None }
    }

    pub fn with_content_part(self, part: ContentPart) -> (r: Self)
        ensures
            r.content == self.content,
            r.is_error == self.is_error,
            r.content_parts@ == self.content_parts@.push(part),
            r.metadata == self.metadata,
    {
        let mut parts = self.content_parts;
        parts.push(part);
        ToolOutput { content: self.content, is_error: self.is_error, content_parts: parts, metadata: self.metadata }
    }

    pub fn with_metadata(self, metadata: String) -> (r: Self)
        ensures
            r.content == self.content,
            r.is_error == self.is_error,
            r.content_parts == self.content_parts,
            r.metadata == Some(metadata),
    {
        ToolOutput { metadata: Some(metadata), ..self }
    }

    /// The transcript content of this output: the text alone when there are
    /// no parts; otherwise the text (when not empty) as a first part,
    /// followed by the parts.
    pub fn into_message_parts(self) -> (r: (Content, bool, Option<String>))
        ensures
            r.1 == self.is_error,
            r.2 == self.metadata,
            self.content_parts@.len() == 0 ==> r.0 == Content::Text(self.content),
            self.content_parts@.len() > 0 && self.content@.len() == 0 ==> r.0 == Content::Parts(
                self.content_parts,
            ),
            self.content_parts@.len() > 0 && self.content@.len() > 0 ==> (r.0 matches Content::Parts(
                p,
            ) && p@.len() == self.content_parts@.len() + 1 && (p@[0] matches ContentPart::Text {
                text,
            } && text == self.content) && p@.skip(1) == self.content_parts@),
    {
        let ToolOutput { content, is_error, content_parts, metadata } = self;
        if content_parts.len() == 0 {
            return (Content::Text(content), is_error, metadata);
        }
        if content.as_str().is_empty() {
            return (Content::Parts(content_parts), is_error, metadata);
        }
        let mut parts: Vec<ContentPart> = Vec::new();
        parts.push(ContentPart::Text { text: content });
        let mut rest = content_parts;
        let ghost rest0 = rest@;
        parts.append(&mut rest);
        assert(parts@.skip(1) =~= rest0);
        (Content::Parts(parts), is_error, metadata)
    }
}

} // verus!
