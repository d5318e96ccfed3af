//! The tool through which the model loads a skill.
use vstd::prelude::*;

use crate::error::ToolError;
use crate::skill_catalog::{
    is_failure, render_spec, RenderedSkill, SkillCatalog, SkillError, SkillFailure,
};
use crate::text::{debug_str, debug_string, decimal, decimal_string, owned, push_str};
use crate::tool::ToolEffect;
use crate::types::ToolDefinition;

verus! {

broadcast use vstd::string::group_string_axioms;

pub const SKILL_TOOL_NAME: &'static str = "skill";

pub const SKILL_TOOL_DESCRIPTION: &'static str =
    "Load a skill's complete instructions into this conversation. When a listed skill matches the user's request, call this tool before acting on the task. Do not call a skill that is already loaded or explicitly marked as selected in the current prompt.\n\nAvailable skills:\n";

/// The JSON schema of the tool's input.
pub const SKILL_TOOL_PARAMETERS: &'static str =
    "{\"type\":\"object\",\"properties\":{\"skill\":{\"type\":\"string\",\"description\":\"The exact skill name from the available-skills list\"},\"arguments\":{\"type\":\"string\",\"description\":\"Optional arguments or additional instructions for the skill\"}},\"required\":[\"skill\"],\"additionalProperties\":false}";

/// The text of a skill error.
pub open spec fn skill_error_text(e: SkillError) -> Seq<char> {
    match e {
        SkillError::Load { path, message } => "could not load skill at "@ + path@ + ": "@ + message@,
        SkillError::Duplicate { name, first, second } => "duplicate skill "@ + debug_str(name@)
            + ": "@ + first@ + " and "@ + second@,
        SkillError::LimitExceeded { maximum } => "skill discovery exceeded the configured limit of "@
            + decimal(maximum as nat) + " files"@,
        SkillError::NotFound { name } => "skill "@ + debug_str(name@) + " was not found in this session"@,
        SkillError::ModelInvocationDisabled { name } => "skill "@ + debug_str(name@)
            + " cannot be invoked by the model"@,
        SkillError::UserInvocationDisabled { name } => "skill "@ + debug_str(name@)
            + " cannot be invoked explicitly"@,
    }
}

impl SkillError {
    /// The error's text.
    pub fn message(&self) -> (r: String)
        ensures
            r@ == skill_error_text(*self),
    {
        match self {
            SkillError::Load { path, message } => {
                let mut r = owned("could not load skill at ");
                push_str(&mut r, path.as_str());
                push_str(&mut r, ": ");
                push_str(&mut r, message.as_str());
                r
            },
            SkillError::Duplicate { name, first, second } => {
                let mut r = owned("duplicate skill ");
                let q = debug_string(name.as_str());
                push_str(&mut r, q.as_str());
                push_str(&mut r, ": ");
                push_str(&mut r, first.as_str());
                push_str(&mut r, " and ");
                push_str(&mut r, second.as_str());
                r
            },
            SkillError::LimitExceeded { maximum } => {
                let mut r = owned("skill discovery exceeded the configured limit of ");
                let n = decimal_string(*maximum as u64);
                push_str(&mut r, n.as_str());
                push_str(&mut r, " files");
                r
            },
            SkillError::NotFound { name } => {
                let mut r = owned("skill ");
                let q = debug_string(name.as_str());
                push_str(&mut r, q.as_str());
                push_str(&mut r, " was not found in this session");
                r
            },
            SkillError::ModelInvocationDisabled { name } => {
                let mut r = owned("skill ");
                let q = debug_string(name.as_str());
                push_str(&mut r, q.as_str());
                push_str(&mut r, " cannot be invoked by the model");
                r
            },
            SkillError::UserInvocationDisabled { name } => {
                let mut r = owned("skill ");
                let q = debug_string(name.as_str());
                push_str(&mut r, q.as_str());
                push_str(&mut r, " cannot be invoked explicitly");
                r
            },
        }
    }
}

/// The tool that loads a skill's instructions for the model.
#[derive(Debug)]
pub struct SkillTool {
    catalog: SkillCatalog,
}

impl SkillTool {
    pub closed spec fn spec_catalog(&self) -> SkillCatalog {
        self.catalog
    }

    pub fn new(catalog: SkillCatalog) -> (r: Self)
        ensures
            r.spec_catalog() == catalog,
    {
        SkillTool { catalog }
    }

    pub fn catalog(&self) -> (r: &SkillCatalog)
        ensures
            *r == self.spec_catalog(),
    {
        &self.catalog
    }

    /// The tool's definition: the listing of the skills the model may
    /// invoke, and no skill body.
    pub fn definition(&self) -> (r: ToolDefinition)
        ensures
            r.name@ == SKILL_TOOL_NAME@,
            r.description@ == SKILL_TOOL_DESCRIPTION@ + self.spec_catalog().spec_listing(),
            r.parameters@ == SKILL_TOOL_PARAMETERS@,
    {
        let mut description = owned(SKILL_TOOL_DESCRIPTION);
        push_str(&mut description, self.catalog.model_listing());
        ToolDefinition {
            name: owned(SKILL_TOOL_NAME),
            description,
            parameters: owned(SKILL_TOOL_PARAMETERS),
        }
    }

    /// Loading a skill only reads the catalog.
    pub fn effect(&self) -> (r: ToolEffect)
        ensures
            r == ToolEffect::ReadOnly,
    {
        ToolEffect::ReadOnly
    }

    /// Renders the requested skill for the model; a failure becomes a tool
    /// error carrying the skill error's text.
    pub fn load(&self, skill: &str, arguments: Option<&str>) -> (r: Result<RenderedSkill, ToolError>)
        ensures
            match render_spec(
                self.spec_catalog().spec_entries(),
                skill@,
                crate::skill_catalog::opt_view(arguments),
                true,
            ) {
                Ok((n, c)) => r matches Ok(rs) && rs.name@ == n && rs.content@ == c,
                Err(f) => r matches Err(e) && exists|se: SkillError|
                    is_failure(se, f) && e.spec_message() == skill_error_text(se),
            },
    {
        match self.catalog.render_for_model(skill, arguments) {
            Ok(rendered) => Ok(rendered),
            Err(error) => {
                let text = error.message();
                Err(ToolError::new(text))
            },
        }
    }
}

} // verus!
