//! Where skills are discovered and the limits of discovery.
use vstd::prelude::*;

use crate::text::owned;

verus! {

pub const DEFAULT_MAX_SKILL_BYTES: usize = 1_048_576;

pub const DEFAULT_MAX_SKILLS: usize = 512;

pub const DEFAULT_SKILL_LISTING_BUDGET: usize = 8_000;

/// What happens when two directories define a skill of the same name.
#[derive(Clone, Copy, Debug, PartialEq, Eq, Structural)]
pub enum DuplicateSkillPolicy {
    Error,
    FirstWins,
    LastWins,
}

impl Default for DuplicateSkillPolicy {
    fn default() -> (r: Self)
        ensures
            r == DuplicateSkillPolicy::LastWins,
    {
        DuplicateSkillPolicy::LastWins
    }
}

/// One directory scanned for skills.
#[derive(Clone, Debug, PartialEq, Eq)]
pub struct SkillDirectory {
    pub path: String,
    pub required: bool,
    pub source: Option<String>,
}

impl SkillDirectory {
    /// An optional directory without a source label.
    pub fn new(path: &str) -> (r: Self)
        ensures
            r.path@ == path@,
            !r.required,
            r.source is None,
    {
        SkillDirectory { path: owned(path), required: false, source: None }
    }

    pub fn required(self, required: bool) -> (r: Self)
        ensures
            r.path == self.path,
            r.required == required,
            r.source == self.source,
    {
        SkillDirectory { required, ..self }
    }

    pub fn source(self, source: &str) -> (r: Self)
        ensures
            r.path == self.path,
            r.required == self.required,
            r.source matches Some(s) && s@ == source@,
    {
        SkillDirectory { source: Some(owned(source)), ..self }
    }
}

/// How skills are discovered.
#[derive(Clone, Debug, PartialEq, Eq)]
pub struct SkillsConfig {
    pub enabled: bool,
    pub directories: Vec<SkillDirectory>,
    pub duplicate_policy: DuplicateSkillPolicy,
    pub strict: bool,
    pub follow_symlinks: bool,
    pub max_skill_bytes: usize,
    pub max_skills: usize,
    pub listing_char_budget: usize,
}

/// `n`, raised to one when it is zero.
pub open spec fn at_least_one(n: usize) -> usize {
    if n >= 1 {
        n
    } else {
        1
    }
}

/// The settings other than the directories are those of `b`.
pub open spec fn same_settings(a: SkillsConfig, b: SkillsConfig) -> bool {
    &&& a.enabled == b.enabled
    &&& a.duplicate_policy == b.duplicate_policy
    &&& a.strict == b.strict
    &&& a.follow_symlinks == b.follow_symlinks
    &&& a.max_skill_bytes == b.max_skill_bytes
    &&& a.max_skills == b.max_skills
    &&& a.listing_char_budget == b.listing_char_budget
}

/// The default settings, discovery disabled, no directories.
pub open spec fn is_default_config(c: SkillsConfig) -> bool {
    &&& !c.enabled
    &&& c.directories@.len() == 0
    &&& c.duplicate_policy == DuplicateSkillPolicy::LastWins
    &&& !c.strict
    &&& !c.follow_symlinks
    &&& c.max_skill_bytes == DEFAULT_MAX_SKILL_BYTES
    &&& c.max_skills == DEFAULT_MAX_SKILLS
    &&& c.listing_char_budget == DEFAULT_SKILL_LISTING_BUDGET
}

impl SkillsConfig {
    /// An enabled configuration with no implicit directories.
    pub fn new() -> (r: Self)
        ensures
            r.enabled,
            same_settings(r, SkillsConfig { enabled: true, ..r }),
            r.directories@.len() == 0,
            r.duplicate_policy == DuplicateSkillPolicy::LastWins,
            !r.strict,
            !r.follow_symlinks,
            r.max_skill_bytes == DEFAULT_MAX_SKILL_BYTES,
            r.max_skills == DEFAULT_MAX_SKILLS,
            r.listing_char_budget == DEFAULT_SKILL_LISTING_BUDGET,
    {
        SkillsConfig { enabled: true, ..SkillsConfig::default() }
    }

    /// The default configuration: discovery disabled.
    pub fn disabled() -> (r: Self)
        ensures
            is_default_config(r),
    {
        SkillsConfig::default()
    }

    pub fn enabled(self, enabled: bool) -> (r: Self)
        ensures
            r.enabled == enabled,
            r.directories == self.directories,
            same_settings(r, SkillsConfig { enabled, ..self }),
    {
        SkillsConfig { enabled, ..self }
    }

    /// Adds an optional directory without a source label.
    pub fn directory(self, path: &str) -> (r: Self)
        ensures
            same_settings(r, self),
            r.directories@.len() == self.directories@.len() + 1,
            r.directories@.take(self.directories@.len() as int) == self.directories@,
            r.directories@.last().path@ == path@,
            !r.directories@.last().required,
            r.directories@.last().source is None,
    {
        self.skill_directory(SkillDirectory::new(path))
    }

    pub fn skill_directory(self, directory: SkillDirectory) -> (r: Self)
        ensures
            same_settings(r, self),
            r.directories@ == self.directories@.push(directory),
            r.directories@.take(self.directories@.len() as int) == self.directories@,
    {
        let mut s = self;
        s.directories.push(directory);
        proof {
            assert(s.directories@.take(self.directories@.len() as int) == self.directories@);
        }
        s
    }

    /// Adds several directories, in order.
    pub fn directories(self, directories: Vec<SkillDirectory>) -> (r: Self)
        ensures
            same_settings(r, self),
            r.directories@ == self.directories@ + directories@,
    {
        let mut s = self;
        let mut more = directories;
        s.directories.append(&mut more);
        s
    }

    pub fn duplicate_policy(self, policy: DuplicateSkillPolicy) -> (r: Self)
        ensures
            r.directories == self.directories,
            same_settings(r, SkillsConfig { duplicate_policy: policy, ..self }),
    {
        SkillsConfig { duplicate_policy: policy, ..self }
    }

    pub fn strict(self, strict: bool) -> (r: Self)
        ensures
            r.directories == self.directories,
            same_settings(r, SkillsConfig { strict, ..self }),
    {
        SkillsConfig { strict, ..self }
    }

    pub fn follow_symlinks(self, follow: bool) -> (r: Self)
        ensures
            r.directories == self.directories,
            same_settings(r, SkillsConfig { follow_symlinks: follow, ..self }),
    {
        SkillsConfig { follow_symlinks: follow, ..self }
    }

    /// Sets the size limit of one skill file; zero is raised to one.
    pub fn max_skill_bytes(self, maximum: usize) -> (r: Self)
        ensures
            r.directories == self.directories,
            same_settings(r, SkillsConfig { max_skill_bytes: at_least_one(maximum), ..self }),
    {
        SkillsConfig {
            max_skill_bytes: if maximum >= 1 {
                maximum
            } else {
                1
            },
            ..self
        }
    }

    /// Sets the limit on discovered skill files; zero is raised to one.
    pub fn max_skills(self, maximum: usize) -> (r: Self)
        ensures
            r.directories == self.directories,
            same_settings(r, SkillsConfig { max_skills: at_least_one(maximum), ..self }),
    {
        SkillsConfig {
            max_skills: if maximum >= 1 {
                maximum
            } else {
                1
            },
            ..self
        }
    }

    /// Sets the character budget of the model listing; zero is raised to one.
    pub fn listing_char_budget(self, budget: usize) -> (r: Self)
        ensures
            r.directories == self.directories,
            same_settings(r, SkillsConfig { listing_char_budget: at_least_one(budget), ..self }),
    {
        SkillsConfig {
            listing_char_budget: if budget >= 1 {
                budget
            } else {
                1
            },
            ..self
        }
    }
}

impl Default for SkillsConfig {
    fn default() -> (r: Self)
        ensures
            is_default_config(r),
    {
        SkillsConfig {
            enabled: false,
            directories: Vec::new(),
            duplicate_policy: DuplicateSkillPolicy::LastWins,
            strict: false,
            follow_symlinks: false,
            max_skill_bytes: DEFAULT_MAX_SKILL_BYTES,
            max_skills: DEFAULT_MAX_SKILLS,
            listing_char_budget: DEFAULT_SKILL_LISTING_BUDGET,
        }
    }
}

} // verus!
