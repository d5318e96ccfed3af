//! The skill catalog: discovered skills kept in name order, the rules that
//! admit or reject them, and how a selected skill is rendered.
use vstd::prelude::*;

use crate::skill_args::{string_views, substitute_arguments, substitute_spec};
use crate::skill_config::{DuplicateSkillPolicy, SkillDirectory, SkillsConfig};
use crate::skill_discovery::{file_outcome, parent_dir, parent_of, read_view, recorded, Outcome};
use crate::skill_frontmatter::{opt_text, parse_skill_spec};
use vstd::utf8::decode_utf8;
use crate::text::{chars_of, debug_str, debug_string, owned, push_str, trim};
use crate::types::{copy_opt_str, opt_str_view, parts_view, Content, ContentPart, ContentPartView, ContentView};

verus! {

broadcast use vstd::string::group_string_axioms;

/// Lexicographic order of texts by code point, which is the order of their
/// UTF-8 bytes (`String`'s `Ord`).
pub open spec fn lex_lt(a: Seq<char>, b: Seq<char>) -> bool
    decreases a.len(),
{
    if a.len() == 0 {
        b.len() > 0
    } else if b.len() == 0 {
        false
    } else if a[0] < b[0] {
        true
    } else if a[0] > b[0] {
        false
    } else {
        lex_lt(a.drop_first(), b.drop_first())
    }
}

pub proof fn lemma_lex_irreflexive(a: Seq<char>)
    ensures
        !lex_lt(a, a),
    decreases a.len(),
{
    if a.len() > 0 {
        lemma_lex_irreflexive(a.drop_first());
    }
}

pub proof fn lemma_lex_transitive(a: Seq<char>, b: Seq<char>, c: Seq<char>)
    requires
        lex_lt(a, b),
        lex_lt(b, c),
    ensures
        lex_lt(a, c),
    decreases a.len(),
{
    if a.len() > 0 && b.len() > 0 && c.len() > 0 && a[0] == b[0] && b[0] == c[0] {
        lemma_lex_transitive(a.drop_first(), b.drop_first(), c.drop_first());
    }
}

pub proof fn lemma_lex_total(a: Seq<char>, b: Seq<char>)
    ensures
        lex_lt(a, b) || a == b || lex_lt(b, a),
    decreases a.len(),
{
    if a.len() > 0 && b.len() > 0 && a[0] == b[0] {
        lemma_lex_total(a.drop_first(), b.drop_first());
        if a.drop_first() == b.drop_first() {
            assert(a == seq![a[0]] + a.drop_first());
            assert(b == seq![b[0]] + b.drop_first());
        }
    } else if a.len() == 0 && b.len() == 0 {
        assert(a == b);
    }
}

/// Whether `a` sorts before `b`.
pub fn name_before(a: &str, b: &str) -> (r: bool)
    ensures
        r == lex_lt(a@, b@),
{
    let x = chars_of(a);
    let y = chars_of(b);
    let mut i: usize = 0;
    proof {
        assert(x@.skip(0) == x@);
        assert(y@.skip(0) == y@);
    }
    while i < x.len() && i < y.len()
        invariant
            x@ == a@,
            y@ == b@,
            i <= x@.len(),
            i <= y@.len(),
            x@.take(i as int) == y@.take(i as int),
            lex_lt(x@, y@) == lex_lt(x@.skip(i as int), y@.skip(i as int)),
        decreases x.len() - i,
    {
        proof {
            assert(x@.skip(i as int)[0] == x@[i as int]);
            assert(y@.skip(i as int)[0] == y@[i as int]);
        }
        if x[i] < y[i] {
            return true;
        }
        if x[i] > y[i] {
            return false;
        }
        proof {
            assert(x@.skip(i as int).drop_first() == x@.skip(i + 1));
            assert(y@.skip(i as int).drop_first() == y@.skip(i + 1));
            assert(x@.take(i + 1) == x@.take(i as int).push(x@[i as int]));
            assert(y@.take(i + 1) == y@.take(i as int).push(y@[i as int]));
        }
        i += 1;
    }
    i == x.len() && i < y.len()
}

/// Severity of a discovery diagnostic.
#[derive(Clone, Copy, Debug, PartialEq, Eq, Structural)]
pub enum DiagnosticLevel {
    Warning,
    Error,
}

/// A problem found while discovering skills.
#[derive(Clone, Debug, PartialEq, Eq)]
pub struct SkillDiagnostic {
    pub level: DiagnosticLevel,
    pub code: String,
    pub path: Option<String>,
    pub message: String,
}

impl SkillDiagnostic {
    pub fn warning(code: &str, path: Option<String>, message: String) -> (r: Self)
        ensures
            r.level == DiagnosticLevel::Warning,
            r.code@ == code@,
            r.path == path,
            r.message == message,
    {
        SkillDiagnostic { level: DiagnosticLevel::Warning, code: owned(code), path, message }
    }

    pub fn error(code: &str, path: Option<String>, message: String) -> (r: Self)
        ensures
            r.level == DiagnosticLevel::Error,
            r.code@ == code@,
            r.path == path,
            r.message == message,
    {
        SkillDiagnostic { level: DiagnosticLevel::Error, code: owned(code), path, message }
    }
}

/// What a skill declares about itself.
#[derive(Clone, Debug, PartialEq, Eq)]
pub struct SkillMetadata {
    pub name: String,
    pub display_name: Option<String>,
    pub description: String,
    pub when_to_use: Option<String>,
    pub argument_hint: Option<String>,
    pub argument_names: Vec<String>,
    pub version: Option<String>,
    pub model_invocable: bool,
    pub user_invocable: bool,
    pub source: Option<String>,
    pub path: String,
}

/// An explicit request to run a skill.
#[derive(Clone, Debug, PartialEq, Eq)]
pub struct SkillInvocation {
    pub name: String,
    pub arguments: Option<String>,
}

impl SkillInvocation {
    pub fn new(name: &str) -> (r: Self)
        ensures
            r.name@ == name@,
            r.arguments is None,
    {
        SkillInvocation { name: owned(name), arguments: None }
    }

    pub fn arguments(self, arguments: &str) -> (r: Self)
        ensures
            r.name == self.name,
            r.arguments matches Some(a) && a@ == arguments@,
    {
        SkillInvocation { name: self.name, arguments: Some(owned(arguments)) }
    }
}

/// The instructions of a skill, ready for the model.
#[derive(Clone, Debug, PartialEq, Eq)]
pub struct RenderedSkill {
    pub name: String,
    pub content: String,
}

/// A parsed skill file.
#[derive(Clone, Debug, PartialEq, Eq)]
pub struct LoadedSkill {
    pub metadata: SkillMetadata,
    pub body: String,
    pub base_dir: String,
}

/// Why discovery or an invocation failed.
#[derive(Clone, Debug, PartialEq, Eq)]
pub enum SkillError {
    Load { path: String, message: String },
    Duplicate { name: String, first: String, second: String },
    LimitExceeded { maximum: usize },
    NotFound { name: String },
    ModelInvocationDisabled { name: String },
    UserInvocationDisabled { name: String },
}

/// The names of `skills`, in order.
pub open spec fn names_of(skills: Seq<LoadedSkill>) -> Seq<Seq<char>> {
    Seq::new(skills.len(), |i: int| skills[i].metadata.name@)
}

/// Strictly increasing names: sorted, and no name twice.
pub open spec fn sorted_names(names: Seq<Seq<char>>) -> bool {
    forall|i: int, j: int| 0 <= i < j < names.len() ==> lex_lt(#[trigger] names[i], #[trigger] names[j])
}

/// The number of leading names that sort before `name`.
pub open spec fn insertion_point(names: Seq<Seq<char>>, name: Seq<char>) -> int
    decreases names.len(),
{
    if names.len() > 0 && lex_lt(names[0], name) {
        1 + insertion_point(names.drop_first(), name)
    } else {
        0
    }
}

proof fn lemma_insertion_point_bound(names: Seq<Seq<char>>, name: Seq<char>)
    ensures
        0 <= insertion_point(names, name) <= names.len(),
    decreases names.len(),
{
    if names.len() > 0 && lex_lt(names[0], name) {
        lemma_insertion_point_bound(names.drop_first(), name);
    }
}

proof fn lemma_insertion_point_at(names: Seq<Seq<char>>, name: Seq<char>, i: int)
    requires
        0 <= i <= names.len(),
        forall|k: int| 0 <= k < i ==> lex_lt(#[trigger] names[k], name),
        i == names.len() || !lex_lt(names[i], name),
    ensures
        insertion_point(names, name) == i,
    decreases i,
{
    if i > 0 {
        assert forall|k: int| 0 <= k < i - 1 implies lex_lt(#[trigger] names.drop_first()[k], name) by {
            assert(names.drop_first()[k] == names[k + 1]);
        }
        if i < names.len() {
            assert(names.drop_first()[i - 1] == names[i]);
        }
        assert(lex_lt(names[0], name));
        lemma_insertion_point_at(names.drop_first(), name, i - 1);
    }
}

/// The catalog entries after adding `skill` under a duplicate policy: a new
/// name is inserted in order; an existing one is kept (`FirstWins`) or
/// replaced (`LastWins`).
pub open spec fn catalog_after_add(
    skills: Seq<LoadedSkill>,
    skill: LoadedSkill,
    policy: DuplicateSkillPolicy,
) -> Seq<LoadedSkill> {
    let p = insertion_point(names_of(skills), skill.metadata.name@);
    if p < skills.len() && skills[p].metadata.name@ == skill.metadata.name@ {
        if policy == DuplicateSkillPolicy::LastWins {
            skills.update(p, skill)
        } else {
            skills
        }
    } else {
        skills.insert(p, skill)
    }
}

/// The message of a name conflict.
pub open spec fn conflict_message(name: Seq<char>, second: Seq<char>, first: Seq<char>) -> Seq<
    char,
> {
    "skill "@ + debug_str(name) + " from "@ + second + " conflicts with "@ + first
}

/// The first position of the text `s` in `v`.
pub fn position_of(v: &Vec<String>, s: &str) -> (r: Option<usize>)
    ensures
        match r {
            Some(i) => i < v@.len() && v@[i as int]@ == s@ && forall|k: int|
                0 <= k < i ==> (#[trigger] v@[k])@ != s@,
            None => forall|k: int| 0 <= k < v@.len() ==> (#[trigger] v@[k])@ != s@,
        },
{
    let target = owned(s);
    let mut i: usize = 0;
    while i < v.len()
        invariant
            i <= v@.len(),
            target@ == s@,
            forall|k: int| 0 <= k < i ==> (#[trigger] v@[k])@ != s@,
        decreases v.len() - i,
    {
        if crate::text::string_eq(&v[i], &target) {
            return Some(i);
        }
        i += 1;
    }
    None
}

/// Skills collected while scanning directories.
pub struct SkillCatalogBuilder {
    skills: Vec<LoadedSkill>,
    diagnostics: Vec<SkillDiagnostic>,
    roots: Vec<String>,
    loaded_files: usize,
}

/// How adding `skill` under `policy` changes the builder `old_b` into
/// `new_b`, and what it returns; see [`SkillCatalogBuilder::add`].
pub open spec fn add_outcome(
    old_b: SkillCatalogBuilder,
    new_b: SkillCatalogBuilder,
    skill: LoadedSkill,
    policy: DuplicateSkillPolicy,
    r: Result<(), SkillError>,
) -> bool {

                let skills = old_b.spec_skills();
                let p = insertion_point(names_of(skills), skill.metadata.name@);
                let dup = p < skills.len() && skills[p].metadata.name@ == skill.metadata.name@;
                &&& !dup ==> r is Ok && new_b.spec_skills() == skills.insert(p, skill)
                    && new_b.spec_diagnostics() == old_b.spec_diagnostics()
                &&& dup && policy == DuplicateSkillPolicy::Error ==> (r matches Err(
                    SkillError::Duplicate { name, first, second },
                ) && name@ == skill.metadata.name@ && first == skills[p].metadata.path && second
                    == skill.metadata.path) && new_b.spec_skills() == skills && new_b.spec_diagnostics() == old_b.spec_diagnostics()
                &&& dup && policy != DuplicateSkillPolicy::Error ==> r is Ok && new_b.spec_skills() == catalog_after_add(skills, skill, policy) && new_b.spec_diagnostics() == old_b.spec_diagnostics().push(
                    SkillDiagnostic {
                        level: DiagnosticLevel::Warning,
                        code: new_b.spec_diagnostics().last().code,
                        path: Some(
                            if policy == DuplicateSkillPolicy::FirstWins {
                                skill.metadata.path
                            } else {
                                skills[p].metadata.path
                            },
                        ),
                        message: new_b.spec_diagnostics().last().message,
                    },
                ) && new_b.spec_diagnostics().last().code@ == (
                if policy == DuplicateSkillPolicy::FirstWins {
                    "duplicate_skill_ignored"@
                } else {
                    "duplicate_skill_overridden"@
                }) && new_b.spec_diagnostics().last().message@ == conflict_message(
                    skill.metadata.name@,
                    skill.metadata.path@,
                    skills[p].metadata.path@,
                )
            
}

impl SkillCatalogBuilder {
    pub closed spec fn spec_skills(&self) -> Seq<LoadedSkill> {
        self.skills@
    }

    pub closed spec fn spec_diagnostics(&self) -> Seq<SkillDiagnostic> {
        self.diagnostics@
    }

    pub closed spec fn spec_roots(&self) -> Seq<Seq<char>> {
        string_views(self.roots@)
    }

    pub closed spec fn spec_loaded_files(&self) -> nat {
        self.loaded_files as nat
    }

    /// Skills are kept in strictly increasing name order.
    pub closed spec fn wf(&self) -> bool {
        sorted_names(names_of(self.skills@))
    }

    pub fn new() -> (r: Self)
        ensures
            r.wf(),
            r.spec_skills().len() == 0,
            r.spec_diagnostics().len() == 0,
            r.spec_roots().len() == 0,
            r.spec_loaded_files() == 0,
    {
        SkillCatalogBuilder {
            skills: Vec::new(),
            diagnostics: Vec::new(),
            roots: Vec::new(),
            loaded_files: 0,
        }
    }

    /// Records a diagnostic.
    pub fn push_diagnostic(&mut self, diagnostic: SkillDiagnostic)
        ensures
            final(self).spec_diagnostics() == old(self).spec_diagnostics().push(diagnostic),
            final(self).spec_skills() == old(self).spec_skills(),
            final(self).spec_roots() == old(self).spec_roots(),
            final(self).spec_loaded_files() == old(self).spec_loaded_files(),
            final(self).wf() == old(self).wf(),
    {
        self.diagnostics.push(diagnostic);
    }

    /// Records a scanned root; a root that was already scanned is reported
    /// as a duplicate directory and not scanned again.
    pub fn admit_root(&mut self, root: &str, directory: &str) -> (r: bool)
        ensures
            r == !old(self).spec_roots().contains(root@),
            r ==> final(self).spec_roots() == old(self).spec_roots().push(root@)
                && final(self).spec_diagnostics() == old(self).spec_diagnostics(),
            !r ==> final(self).spec_roots() == old(self).spec_roots(),
            !r ==> final(self).spec_diagnostics() == old(self).spec_diagnostics().push(
                final(self).spec_diagnostics().last(),
            ),
            !r ==> final(self).spec_diagnostics().last().level == DiagnosticLevel::Warning,
            !r ==> final(self).spec_diagnostics().last().code@ == "duplicate_directory"@,
            !r ==> (final(self).spec_diagnostics().last().path matches Some(p) && p@
                == directory@),
            final(self).spec_skills() == old(self).spec_skills(),
            final(self).spec_loaded_files() == old(self).spec_loaded_files(),
            final(self).wf() == old(self).wf(),
    {
        let ghost before = string_views(self.roots@);
        match position_of(&self.roots, root) {
            Some(i) => {
                let d = SkillDiagnostic::warning(
                    "duplicate_directory",
                    Some(owned(directory)),
                    owned("skill directory resolves to a directory that was already scanned"),
                );
                self.diagnostics.push(d);
                proof {
                    assert(before[i as int] == root@);
                    assert(before.contains(root@));
                }
                false
            },
            None => {
                proof {
                    assert(!before.contains(root@));
                }
                self.roots.push(owned(root));
                proof {
                    assert(string_views(self.roots@) =~= before.push(root@));
                }
                true
            },
        }
    }

    /// Counts one more skill file; exceeding the configured maximum fails
    /// the whole discovery.
    pub fn count_skill_file(&mut self, config: &SkillsConfig) -> (r: Result<(), SkillError>)
        ensures
            old(self).spec_loaded_files() + 1 > config.max_skills ==> (r matches Err(
                SkillError::LimitExceeded { maximum },
            ) && maximum == config.max_skills),
            old(self).spec_loaded_files() + 1 <= config.max_skills ==> r is Ok,
            final(self).spec_loaded_files() == if old(self).spec_loaded_files() < usize::MAX {
                old(self).spec_loaded_files() + 1
            } else {
                old(self).spec_loaded_files()
            },
            final(self).spec_skills() == old(self).spec_skills(),
            final(self).spec_diagnostics() == old(self).spec_diagnostics(),
            final(self).spec_roots() == old(self).spec_roots(),
            final(self).wf() == old(self).wf(),
    {
        if self.loaded_files == usize::MAX {
            return Err(SkillError::LimitExceeded { maximum: config.max_skills });
        }
        self.loaded_files = self.loaded_files + 1;
        if self.loaded_files > config.max_skills {
            return Err(SkillError::LimitExceeded { maximum: config.max_skills });
        }
        Ok(())
    }

    /// Adds a parsed skill. A name that is already present fails under
    /// `Error`, is ignored with a warning under `FirstWins`, and replaces the
    /// earlier skill with a warning under `LastWins`.
    pub fn add(&mut self, skill: LoadedSkill, policy: DuplicateSkillPolicy) -> (r: Result<
        (),
        SkillError,
    >)
        requires
            old(self).wf(),
        ensures
            final(self).wf(),
            final(self).spec_roots() == old(self).spec_roots(),
            final(self).spec_loaded_files() == old(self).spec_loaded_files(),
            add_outcome(*old(self), *final(self), skill, policy, r),
    {
        let ghost skills = self.skills@;
        let ghost names = names_of(skills);
        let ghost name = skill.metadata.name@;
        let mut p: usize = 0;
        while p < self.skills.len() && name_before(
            self.skills[p].metadata.name.as_str(),
            skill.metadata.name.as_str(),
        )
            invariant
                p <= self.skills@.len(),
                self.skills@ == skills,
                names == names_of(skills),
                name == skill.metadata.name@,
                forall|k: int| 0 <= k < p ==> lex_lt(#[trigger] names[k], name),
            decreases self.skills.len() - p,
        {
            assert(names[p as int] == skills[p as int].metadata.name@);
            p += 1;
        }
        proof {
            if p < skills.len() {
                assert(names[p as int] == skills[p as int].metadata.name@);
            }
            lemma_insertion_point_at(names, name, p as int);
        }
        if p < self.skills.len() && crate::text::string_eq(
            &self.skills[p].metadata.name,
            &skill.metadata.name,
        ) {
            let mut message = owned("skill ");
            let quoted = debug_string(skill.metadata.name.as_str());
            push_str(&mut message, quoted.as_str());
            push_str(&mut message, " from ");
            push_str(&mut message, skill.metadata.path.as_str());
            push_str(&mut message, " conflicts with ");
            push_str(&mut message, self.skills[p].metadata.path.as_str());
            match policy {
                DuplicateSkillPolicy::Error => {
                    return Err(
                        SkillError::Duplicate {
                            name: skill.metadata.name,
                            first: self.skills[p].metadata.path.clone(),
                            second: skill.metadata.path,
                        },
                    );
                },
                DuplicateSkillPolicy::FirstWins => {
                    let d = SkillDiagnostic::warning(
                        "duplicate_skill_ignored",
                        Some(skill.metadata.path.clone()),
                        message,
                    );
                    self.diagnostics.push(d);
                    return Ok(());
                },
                DuplicateSkillPolicy::LastWins => {
                    let d = SkillDiagnostic::warning(
                        "duplicate_skill_overridden",
                        Some(self.skills[p].metadata.path.clone()),
                        message,
                    );
                    self.diagnostics.push(d);
                    proof {
                        assert(names_of(skills.update(p as int, skill)) =~= names);
                    }
                    self.skills.set(p, skill);
                    return Ok(());
                },
            }
        }
        proof {
            let ns = names_of(skills.insert(p as int, skill));
            assert(ns =~= names.insert(p as int, name));
            if p < skills.len() {
                lemma_lex_total(names[p as int], name);
            }
            assert forall|i: int, j: int| 0 <= i < j < ns.len() implies lex_lt(
                #[trigger] ns[i],
                #[trigger] ns[j],
            ) by {
                if j < p {
                    assert(ns[i] == names[i] && ns[j] == names[j]);
                } else if j == p {
                    assert(ns[i] == names[i]);
                } else if i == p {
                    assert(ns[j] == names[j - 1]);
                    if j - 1 > p {
                        lemma_lex_transitive(name, names[p as int], names[j - 1]);
                    }
                } else if i < p {
                    assert(ns[i] == names[i] && ns[j] == names[j - 1]);
                } else {
                    assert(ns[i] == names[i - 1] && ns[j] == names[j - 1]);
                }
            }
        }
        self.skills.insert(p, skill);
        Ok(())
    }
}

/// The texts of a [`SkillMetadata`].
pub ghost struct SkillMetadataView {
    pub name: Seq<char>,
    pub display_name: Option<Seq<char>>,
    pub description: Seq<char>,
    pub when_to_use: Option<Seq<char>>,
    pub argument_hint: Option<Seq<char>>,
    pub argument_names: Seq<Seq<char>>,
    pub version: Option<Seq<char>>,
    pub model_invocable: bool,
    pub user_invocable: bool,
    pub source: Option<Seq<char>>,
    pub path: Seq<char>,
}

impl View for SkillMetadata {
    type V = SkillMetadataView;

    open spec fn view(&self) -> SkillMetadataView {
        SkillMetadataView {
            name: self.name@,
            display_name: opt_str_view(self.display_name),
            description: self.description@,
            when_to_use: opt_str_view(self.when_to_use),
            argument_hint: opt_str_view(self.argument_hint),
            argument_names: string_views(self.argument_names@),
            version: opt_str_view(self.version),
            model_invocable: self.model_invocable,
            user_invocable: self.user_invocable,
            source: opt_str_view(self.source),
            path: self.path@,
        }
    }
}

fn copy_strings(v: &Vec<String>) -> (r: Vec<String>)
    ensures
        string_views(r@) == string_views(v@),
{
    let mut r: Vec<String> = Vec::new();
    let mut i: usize = 0;
    while i < v.len()
        invariant
            i <= v@.len(),
            r@ == v@.take(i as int),
        decreases v.len() - i,
    {
        r.push(v[i].clone());
        i += 1;
        assert(r@ == v@.take(i as int));
    }
    assert(v@.take(v@.len() as int) == v@);
    r
}

impl SkillMetadata {
    /// A copy of this metadata.
    pub fn duplicate(&self) -> (r: Self)
        ensures
            r@ == self@,
    {
        SkillMetadata {
            name: self.name.clone(),
            display_name: copy_opt_str(&self.display_name),
            description: self.description.clone(),
            when_to_use: copy_opt_str(&self.when_to_use),
            argument_hint: copy_opt_str(&self.argument_hint),
            argument_names: copy_strings(&self.argument_names),
            version: copy_opt_str(&self.version),
            model_invocable: self.model_invocable,
            user_invocable: self.user_invocable,
            source: copy_opt_str(&self.source),
            path: self.path.clone(),
        }
    }
}

impl SkillDiagnostic {
    /// A copy of this diagnostic.
    pub fn duplicate(&self) -> (r: Self)
        ensures
            r == *self,
    {
        SkillDiagnostic {
            level: self.level,
            code: self.code.clone(),
            path: copy_opt_str(&self.path),
            message: self.message.clone(),
        }
    }
}

/// One skill of a catalog: its metadata, its instructions, and the
/// directory it was loaded from.
pub ghost struct SkillEntry {
    pub meta: SkillMetadataView,
    pub body: Seq<char>,
    pub base_dir: Seq<char>,
}

/// An immutable snapshot of discovered skills, in name order.
#[derive(Debug)]
pub struct SkillCatalog {
    metadata: Vec<SkillMetadata>,
    bodies: Vec<String>,
    base_dirs: Vec<String>,
    diagnostics: Vec<SkillDiagnostic>,
    model_listing: String,
    listing_char_budget: usize,
}

impl SkillCatalog {
    #[verifier::type_invariant]
    spec fn parallel(self) -> bool {
        self.metadata@.len() == self.bodies@.len() && self.metadata@.len() == self.base_dirs@.len()
    }

    pub closed spec fn spec_entries(&self) -> Seq<SkillEntry> {
        Seq::new(
            self.metadata@.len(),
            |i: int| SkillEntry {
                meta: self.metadata@[i]@,
                body: self.bodies@[i]@,
                base_dir: self.base_dirs@[i]@,
            },
        )
    }

    pub closed spec fn spec_metadata(&self) -> Seq<SkillMetadata> {
        self.metadata@
    }

    pub closed spec fn spec_diagnostics(&self) -> Seq<SkillDiagnostic> {
        self.diagnostics@
    }

    pub closed spec fn spec_listing(&self) -> Seq<char> {
        self.model_listing@
    }

    pub closed spec fn spec_budget(&self) -> usize {
        self.listing_char_budget
    }

    /// The metadata of each skill, in order.
    pub fn skills(&self) -> (r: &[SkillMetadata])
        ensures
            r@ == self.spec_metadata(),
            r@.len() == self.spec_entries().len(),
            metadata_views(r@) == metas(self.spec_entries()),
    {
        proof {
            use_type_invariant(self);
            assert(metadata_views(self.metadata@) =~= metas(self.spec_entries()));
        }
        self.metadata.as_slice()
    }

    pub fn diagnostics(&self) -> (r: &[SkillDiagnostic])
        ensures
            r@ == self.spec_diagnostics(),
    {
        self.diagnostics.as_slice()
    }

    pub fn model_listing(&self) -> (r: &str)
        ensures
            r@ == self.spec_listing(),
    {
        self.model_listing.as_str()
    }

    pub fn is_empty(&self) -> (r: bool)
        ensures
            r == (self.spec_entries().len() == 0),
    {
        self.metadata.len() == 0
    }

    pub fn len(&self) -> (r: usize)
        ensures
            r == self.spec_entries().len(),
    {
        self.metadata.len()
    }

    /// Whether some skill may be invoked by the model.
    pub fn has_model_invocable(&self) -> (r: bool)
        ensures
            r == exists|i: int|
                0 <= i < self.spec_entries().len() && (#[trigger] self.spec_entries()[i]).meta.model_invocable,
    {
        let mut i: usize = 0;
        while i < self.metadata.len()
            invariant
                i <= self.metadata@.len(),
                forall|k: int| 0 <= k < i ==> !(#[trigger] self.metadata@[k]).model_invocable,
            decreases self.metadata.len() - i,
        {
            if self.metadata[i].model_invocable {
                assert(self.spec_entries()[i as int].meta.model_invocable);
                return true;
            }
            i += 1;
        }
        assert forall|k: int| 0 <= k < self.spec_entries().len() implies !(
        #[trigger] self.spec_entries()[k]).meta.model_invocable by {
            assert(!self.metadata@[k].model_invocable);
        }
        false
    }
}

impl SkillCatalogBuilder {
    /// Admits a skill file that was read; see [`file_outcome`]. A file too
    /// large, not UTF-8 or not a skill is a failure that ends discovery
    /// under `strict`; a skill is parsed from the text (its path is
    /// `canonical`, its directory that of `canonical`, its source that of
    /// `directory`), its unsupported frontmatter is reported, and it is
    /// added under the configured duplicate policy.
    #[verifier::rlimit(60)]
    #[verifier::spinoff_prover]
    pub fn load_skill_file(
        &mut self,
        config: &SkillsConfig,
        directory: &SkillDirectory,
        name: &str,
        skill_path: &str,
        canonical: &str,
        read: Result<Vec<u8>, String>,
    ) -> (r: Result<(), SkillError>)
        requires
            old(self).wf(),
        ensures
            final(self).wf(),
            match file_outcome(config.max_skill_bytes, skill_path@, read_view(read)) {
                Outcome::Take { .. } => exists|mid: SkillCatalogBuilder, skill: LoadedSkill|
                    {
                        let f = parse_skill_spec(decode_utf8(read->Ok_0@))->Ok_0;
                        &&& mid.wf()
                        &&& mid.spec_skills() == old(self).spec_skills()
                        &&& mid.spec_roots() == old(self).spec_roots()
                        &&& mid.spec_loaded_files() == old(self).spec_loaded_files()
                        &&& mid.spec_diagnostics().len() == old(self).spec_diagnostics().len()
                            + f.informational.len()
                        &&& mid.spec_diagnostics().take(old(self).spec_diagnostics().len() as int)
                            == old(self).spec_diagnostics()
                        &&& (forall|k: int|
                            0 <= k < f.informational.len() ==> {
                                let d = #[trigger] mid.spec_diagnostics()[old(
                                    self,
                                ).spec_diagnostics().len() + k];
                                &&& d.level == DiagnosticLevel::Warning
                                &&& d.code@ == "unsupported_frontmatter"@
                                &&& d.path matches Some(p) && p@ == canonical@
                                &&& d.message@ == crate::skill_frontmatter::informational_message(
                                    f.informational[k],
                                )
                            })
                        &&& skill.metadata.name@ == name@
                        &&& opt_text(skill.metadata.display_name) == f.display_name
                        &&& skill.metadata.description@ == f.description
                        &&& opt_text(skill.metadata.when_to_use) == f.when_to_use
                        &&& opt_text(skill.metadata.argument_hint) == f.argument_hint
                        &&& string_views(skill.metadata.argument_names@) == f.argument_names
                        &&& opt_text(skill.metadata.version) == f.version
                        &&& skill.metadata.model_invocable == f.model_invocable
                        &&& skill.metadata.user_invocable == f.user_invocable
                        &&& skill.metadata.source == directory.source
                        &&& skill.metadata.path@ == canonical@
                        &&& skill.body@ == f.body
                        &&& skill.base_dir@ == parent_of(canonical@)
                        &&& #[trigger] add_outcome(mid, *final(self), skill, config.duplicate_policy, r)
                    },
                o => recorded(*old(self), *final(self), config.strict, o, r),
            },
    {
        proof {
            reveal_strlit("unsupported_frontmatter");
        }
        let fatal = config.strict;
        let bytes = match read {
            Err(e) => {
                let mut m = owned("could not read skill file: ");
                push_str(&mut m, e.as_str());
                return self.recover_or_fail(fatal, "read_skill_failed", skill_path, m);
            },
            Ok(b) => b,
        };
        if bytes.len() > config.max_skill_bytes {
            let mut m = owned("skill file grew past the configured ");
            crate::text::push_decimal(&mut m, config.max_skill_bytes as u64);
            push_str(&mut m, " byte limit while reading");
            return self.recover_or_fail(fatal, "skill_too_large", skill_path, m);
        }
        let raw = match crate::text::str_from_utf8(bytes.as_slice()) {
            Err(e) => {
                let mut m = owned("skill file is not valid UTF-8: ");
                push_str(&mut m, e.as_str());
                return self.recover_or_fail(fatal, "invalid_utf8", skill_path, m);
            },
            Ok(t) => t,
        };
        let base_dir = parent_dir(canonical);
        let ghost before = *self;
        let parsed = crate::skill_frontmatter::parse_skill(
            name,
            canonical,
            base_dir.as_str(),
            &directory.source,
            raw,
            &mut self.diagnostics,
        );
        match parsed {
            Err(m) => {
                proof {
                    assert(self.diagnostics@ == before.diagnostics@);
                }
                self.recover_or_fail(fatal, "invalid_skill", skill_path, m)
            },
            Ok(skill) => {
                let ghost mid = *self;
                let ghost sk = skill;
                let r = self.add(skill, config.duplicate_policy);
                proof {
                    assert(mid.spec_skills() == before.spec_skills());
                }
                r
            },
        }
    }
}

impl SkillCatalogBuilder {
    /// The catalog discovery yields under `config`: empty (no skills, no
    /// diagnostics, no listing) when discovery is disabled, otherwise the
    /// collected skills with the model listing for the configured budget.
    pub fn finish_for(self, config: &SkillsConfig) -> (r: SkillCatalog)
        ensures
            !config.enabled ==> r.spec_entries().len() == 0 && r.spec_diagnostics().len() == 0
                && r.spec_listing().len() == 0 && r.spec_budget() == 0,
            config.enabled ==> {
                &&& r.spec_entries().len() == self.spec_skills().len()
                &&& forall|i: int|
                    0 <= i < self.spec_skills().len() ==> (#[trigger] r.spec_entries()[i]).meta
                        == self.spec_skills()[i].metadata@ && r.spec_entries()[i].body
                        == self.spec_skills()[i].body@ && r.spec_entries()[i].base_dir
                        == self.spec_skills()[i].base_dir@
                &&& r.spec_diagnostics() == self.spec_diagnostics()
                &&& r.spec_budget() == config.listing_char_budget
                &&& r.spec_listing() == model_listing_spec(
                    metas(r.spec_entries()),
                    config.listing_char_budget as int,
                )
            },
    {
        if !config.enabled {
            SkillCatalog::default()
        } else {
            self.finish(config.listing_char_budget)
        }
    }
}

impl Default for SkillCatalog {
    fn default() -> (r: Self)
        ensures
            r.spec_entries().len() == 0,
            r.spec_diagnostics().len() == 0,
            r.spec_listing().len() == 0,
            r.spec_budget() == 0,
    {
        SkillCatalog {
            metadata: Vec::new(),
            bodies: Vec::new(),
            base_dirs: Vec::new(),
            diagnostics: Vec::new(),
            model_listing: String::new(),
            listing_char_budget: 0,
        }
    }
}

impl SkillCatalogBuilder {
    /// The catalog of the collected skills, with the model listing for
    /// `listing_char_budget` characters.
    pub fn finish(self, listing_char_budget: usize) -> (r: SkillCatalog)
        ensures
            r.spec_entries().len() == self.spec_skills().len(),
            forall|i: int|
                0 <= i < self.spec_skills().len() ==> (#[trigger] r.spec_entries()[i]).meta
                    == self.spec_skills()[i].metadata@ && r.spec_entries()[i].body
                    == self.spec_skills()[i].body@ && r.spec_entries()[i].base_dir
                    == self.spec_skills()[i].base_dir@,
            r.spec_diagnostics() == self.spec_diagnostics(),
            r.spec_budget() == listing_char_budget,
            r.spec_listing() == model_listing_spec(metas(r.spec_entries()), listing_char_budget as int),
    {
        let SkillCatalogBuilder { skills, diagnostics, .. } = self;
        let ghost all = skills@;
        assert(all.len() == skills.len());
        let mut metadata: Vec<SkillMetadata> = Vec::new();
        let mut bodies: Vec<String> = Vec::new();
        let mut base_dirs: Vec<String> = Vec::new();
        let mut rest = skills;
        let mut i: usize = 0;
        while rest.len() > 0
            invariant
                i + rest@.len() == all.len(),
                all.len() <= usize::MAX,
                rest@ == all.skip(i as int),
                metadata@.len() == i,
                bodies@.len() == i,
                base_dirs@.len() == i,
                forall|k: int|
                    0 <= k < i ==> (#[trigger] metadata@[k]) == all[k].metadata && bodies@[k]
                        == all[k].body && base_dirs@[k] == all[k].base_dir,
            decreases rest.len(),
        {
            let s = rest.remove(0);
            proof {
                assert(s == all[i as int]);
                assert(rest@ == all.skip(i + 1));
            }
            metadata.push(s.metadata);
            bodies.push(s.body);
            base_dirs.push(s.base_dir);
            i += 1;
        }
        let listing = format_model_listing(&metadata, listing_char_budget);
        let r = SkillCatalog {
            metadata,
            bodies,
            base_dirs,
            diagnostics,
            model_listing: listing,
            listing_char_budget,
        };
        proof {
            assert(metas(r.spec_entries()) =~= Seq::new(
                r.metadata@.len(),
                |k: int| r.metadata@[k]@,
            ));
        }
        r
    }
}

pub const MAX_LISTING_DESCRIPTION_CHARS: usize = 250;

pub const MIN_LISTING_DESCRIPTION_CHARS: usize = 20;

/// The metadata of catalog entries.
pub open spec fn metas(es: Seq<SkillEntry>) -> Seq<SkillMetadataView> {
    Seq::new(es.len(), |i: int| es[i].meta)
}

/// The views of a list of metadata.
pub open spec fn metadata_views(ms: Seq<SkillMetadata>) -> Seq<SkillMetadataView> {
    Seq::new(ms.len(), |i: int| ms[i]@)
}

/// At most `max` characters of `v`; a cut text ends with `…`.
pub open spec fn truncate_chars_spec(v: Seq<char>, max: int) -> Seq<char> {
    if v.len() <= max {
        v
    } else if max <= 0 {
        Seq::empty()
    } else {
        v.take(max - 1).push('…')
    }
}

pub fn truncate_chars(value: &str, maximum: usize) -> (r: String)
    ensures
        r@ == truncate_chars_spec(value@, maximum as int),
{
    let v = chars_of(value);
    if v.len() <= maximum {
        return owned(value);
    }
    if maximum == 0 {
        return String::new();
    }
    let mut r = crate::text::string_of(&v, 0, maximum - 1);
    crate::text::push_char(&mut r, '…');
    proof {
        assert(v@.subrange(0, maximum - 1) == v@.take(maximum - 1));
    }
    r
}

/// The description of a listed skill: its description, followed by when to
/// use it when that is given and not blank, cut to 250 characters.
pub open spec fn listed_description(m: SkillMetadataView) -> Seq<char> {
    let d = match m.when_to_use {
        Some(w) => if trim(w).len() > 0 {
            m.description + " - "@ + w
        } else {
            m.description
        },
        None => m.description,
    };
    truncate_chars_spec(d, MAX_LISTING_DESCRIPTION_CHARS as int)
}

/// The model-invocable skills of `ms`, in order.
pub open spec fn invocable(ms: Seq<SkillMetadataView>) -> Seq<SkillMetadataView>
    decreases ms.len(),
{
    if ms.len() == 0 {
        Seq::empty()
    } else if ms.last().model_invocable {
        invocable(ms.drop_last()).push(ms.last())
    } else {
        invocable(ms.drop_last())
    }
}

/// The lines joined with `\n`.
pub open spec fn join_lines(lines: Seq<Seq<char>>) -> Seq<char>
    decreases lines.len(),
{
    if lines.len() == 0 {
        Seq::empty()
    } else if lines.len() == 1 {
        lines[0]
    } else {
        join_lines(lines.drop_last()) + "\n"@ + lines.last()
    }
}

pub open spec fn sat_usize(n: int) -> int {
    if n > usize::MAX {
        usize::MAX as int
    } else {
        n
    }
}

/// The characters taken by the names of a listing: each name and four
/// characters of punctuation, plus a separator between lines (each sum
/// saturating).
pub open spec fn names_overhead(ms: Seq<SkillMetadataView>) -> int
    decreases ms.len(),
{
    if ms.len() == 0 {
        0
    } else {
        sat_usize(names_overhead(ms.drop_last()) + ms.last().name.len() + 4)
    }
}

/// The listing of the model-invocable skills of `ms` within `budget`
/// characters: full lines when they fit; otherwise descriptions cut to an
/// equal share of what the names leave, or names alone when that share is
/// under twenty characters.
pub open spec fn model_listing_spec(ms: Seq<SkillMetadataView>, budget: int) -> Seq<char> {
    let s = invocable(ms);
    let full = join_lines(
        Seq::new(s.len(), |i: int| "- "@ + s[i].name + ": "@ + listed_description(s[i])),
    );
    if s.len() == 0 {
        Seq::empty()
    } else if full.len() <= budget {
        full
    } else {
        let overhead = sat_usize(names_overhead(s) + (s.len() - 1));
        let available = (if budget >= overhead {
            budget - overhead
        } else {
            0
        }) / (s.len() as int);
        if available < MIN_LISTING_DESCRIPTION_CHARS {
            join_lines(Seq::new(s.len(), |i: int| "- "@ + s[i].name))
        } else {
            join_lines(
                Seq::new(
                    s.len(),
                    |i: int|
                        "- "@ + s[i].name + ": "@ + truncate_chars_spec(
                            listed_description(s[i]),
                            available,
                        ),
                ),
            )
        }
    }
}

fn listed_description_exec(m: &SkillMetadata) -> (r: String)
    ensures
        r@ == listed_description(m@),
{
    let mut d = m.description.clone();
    match &m.when_to_use {
        Some(w) => {
            if !crate::text::is_blank(w.as_str()) {
                proof {
                    crate::text::lemma_trim_empty_iff_blank(w@);
                }
                push_str(&mut d, " - ");
                push_str(&mut d, w.as_str());
            } else {
                proof {
                    crate::text::lemma_trim_empty_iff_blank(w@);
                }
            }
        },
        None => {},
    }
    truncate_chars(d.as_str(), MAX_LISTING_DESCRIPTION_CHARS)
}

fn join_strings(lines: &Vec<String>) -> (r: String)
    ensures
        r@ == join_lines(string_views(lines@)),
{
    let mut out = String::new();
    let mut i: usize = 0;
    while i < lines.len()
        invariant
            i <= lines@.len(),
            out@ == join_lines(string_views(lines@).take(i as int)),
        decreases lines.len() - i,
    {
        proof {
            let t = string_views(lines@).take(i + 1);
            assert(t.drop_last() == string_views(lines@).take(i as int));
            assert(t.last() == lines@[i as int]@);
        }
        if i > 0 {
            push_str(&mut out, "\n");
        } else {
            proof {
                assert(string_views(lines@).take(1)[0] == lines@[0]@);
            }
        }
        push_str(&mut out, lines[i].as_str());
        i += 1;
    }
    assert(string_views(lines@).take(lines@.len() as int) == string_views(lines@));
    out
}

/// The listing of the skills that the model may invoke; see
/// `model_listing_spec`.
pub fn format_model_listing(metadata: &Vec<SkillMetadata>, budget: usize) -> (r: String)
    ensures
        r@ == model_listing_spec(metadata_views(metadata@), budget as int),
{
    let ghost ms = metadata_views(metadata@);
    let mut names: Vec<String> = Vec::new();
    let mut descriptions: Vec<String> = Vec::new();
    let mut overhead: usize = 0;
    let mut i: usize = 0;
    while i < metadata.len()
        invariant
            i <= metadata@.len(),
            ms == metadata_views(metadata@),
            names@.len() == descriptions@.len(),
            names@.len() == invocable(ms.take(i as int)).len(),
            forall|k: int|
                0 <= k < names@.len() ==> (#[trigger] names@[k])@ == invocable(ms.take(i as int))[k].name
                    && descriptions@[k]@ == listed_description(invocable(ms.take(i as int))[k]),
            overhead == names_overhead(invocable(ms.take(i as int))),
        decreases metadata.len() - i,
    {
        proof {
            assert(ms.take(i + 1).drop_last() == ms.take(i as int));
            assert(ms.take(i + 1).last() == metadata@[i as int]@);
        }
        if metadata[i].model_invocable {
            let count = chars_of(metadata[i].name.as_str()).len();
            let ghost prev_overhead = overhead;
            overhead = overhead.saturating_add(count).saturating_add(4);
            proof {
                let prev = invocable(ms.take(i as int));
                let m = ms.take(i + 1).last();
                assert(m == metadata@[i as int]@);
                assert(invocable(ms.take(i + 1)) == prev.push(m));
                assert(prev.push(m).drop_last() == prev);
                assert(prev.push(m).last() == m);
                assert(count == m.name.len());
                assert(names_overhead(prev.push(m)) == sat_usize(names_overhead(prev) + m.name.len() + 4));
                assert(sat_usize(prev_overhead + count + 4) == overhead);
            }
            names.push(metadata[i].name.clone());
            descriptions.push(listed_description_exec(&metadata[i]));
        }
        i += 1;
    }
    proof {
        assert(ms.take(metadata@.len() as int) == ms);
    }
    let ghost s = invocable(ms);
    let n = names.len();
    if n == 0 {
        return String::new();
    }
    let mut full_lines: Vec<String> = Vec::new();
    let mut k: usize = 0;
    while k < n
        invariant
            k <= n,
            n == names@.len(),
            names@.len() == descriptions@.len(),
            s.len() == n,
            forall|j: int|
                0 <= j < n ==> (#[trigger] names@[j])@ == s[j].name && descriptions@[j]@
                    == listed_description(s[j]),
            full_lines@.len() == k,
            forall|j: int|
                0 <= j < k ==> (#[trigger] full_lines@[j])@ == "- "@ + s[j].name + ": "@
                    + listed_description(s[j]),
        decreases n - k,
    {
        let mut line = owned("- ");
        push_str(&mut line, names[k].as_str());
        push_str(&mut line, ": ");
        push_str(&mut line, descriptions[k].as_str());
        full_lines.push(line);
        k += 1;
    }
    let full = join_strings(&full_lines);
    proof {
        assert(string_views(full_lines@) =~= Seq::new(
            s.len(),
            |j: int| "- "@ + s[j].name + ": "@ + listed_description(s[j]),
        ));
    }
    if chars_of(full.as_str()).len() <= budget {
        return full;
    }
    let total = overhead.saturating_add(n - 1);
    let available = budget.saturating_sub(total) / n;
    let mut lines: Vec<String> = Vec::new();
    let mut k: usize = 0;
    while k < n
        invariant
            k <= n,
            n == names@.len(),
            names@.len() == descriptions@.len(),
            s.len() == n,
            forall|j: int|
                0 <= j < n ==> (#[trigger] names@[j])@ == s[j].name && descriptions@[j]@
                    == listed_description(s[j]),
            lines@.len() == k,
            forall|j: int|
                0 <= j < k ==> (#[trigger] lines@[j])@ == if available < MIN_LISTING_DESCRIPTION_CHARS {
                    "- "@ + s[j].name
                } else {
                    "- "@ + s[j].name + ": "@ + truncate_chars_spec(
                        listed_description(s[j]),
                        available as int,
                    )
                },
        decreases n - k,
    {
        let mut line = owned("- ");
        push_str(&mut line, names[k].as_str());
        if available >= MIN_LISTING_DESCRIPTION_CHARS {
            push_str(&mut line, ": ");
            let cut = truncate_chars(descriptions[k].as_str(), available);
            push_str(&mut line, cut.as_str());
        }
        lines.push(line);
        k += 1;
    }
    let r = join_strings(&lines);
    proof {
        if available < MIN_LISTING_DESCRIPTION_CHARS {
            assert(string_views(lines@) =~= Seq::new(s.len(), |j: int| "- "@ + s[j].name));
        } else {
            assert(string_views(lines@) =~= Seq::new(
                s.len(),
                |j: int|
                    "- "@ + s[j].name + ": "@ + truncate_chars_spec(
                        listed_description(s[j]),
                        available as int,
                    ),
            ));
        }
    }
    r
}

/// The name a skill is looked up by: trimmed, without one leading `/`.
pub open spec fn normalized_name(name: Seq<char>) -> Seq<char> {
    let t = trim(name);
    if t.len() > 0 && t[0] == '/' {
        t.skip(1)
    } else {
        t
    }
}

/// The first entry named `name`.
#[verifier::opaque]
pub open spec fn entry_named(es: Seq<SkillEntry>, name: Seq<char>) -> Option<int> {
    if exists|i: int| 0 <= i < es.len() && (#[trigger] es[i]).meta.name == name {
        Some(choose|i: int| 0 <= i < es.len() && (#[trigger] es[i]).meta.name == name && forall|j: int| 0 <= j < i ==> (#[trigger] es[j]).meta.name != name)
    } else {
        None
    }
}

proof fn lemma_entry_named_at(es: Seq<SkillEntry>, name: Seq<char>, i: int)
    requires
        0 <= i < es.len(),
        es[i].meta.name == name,
        forall|k: int| 0 <= k < i ==> (#[trigger] es[k]).meta.name != name,
    ensures
        entry_named(es, name) == Some(i),
{
    reveal(entry_named);
    let w = choose|j: int|
        0 <= j < es.len() && (#[trigger] es[j]).meta.name == name && forall|k: int|
            0 <= k < j ==> (#[trigger] es[k]).meta.name != name;
    assert(0 <= i < es.len() && es[i].meta.name == name);
    if w < i {
        assert(es[w].meta.name != name);
    }
    if w > i {
        assert(es[i].meta.name != name);
    }
}

proof fn lemma_entry_named_none(es: Seq<SkillEntry>, name: Seq<char>)
    requires
        forall|k: int| 0 <= k < es.len() ==> (#[trigger] es[k]).meta.name != name,
    ensures
        entry_named(es, name) is None,
{
    reveal(entry_named);
}

/// How rendering a skill fails.
pub ghost enum SkillFailure {
    NotFound(Seq<char>),
    ModelInvocationDisabled(Seq<char>),
    UserInvocationDisabled(Seq<char>),
}

/// `e` is the failure `f`.
pub open spec fn is_failure(e: SkillError, f: SkillFailure) -> bool {
    match (e, f) {
        (SkillError::NotFound { name }, SkillFailure::NotFound(n)) => name@ == n,
        (SkillError::ModelInvocationDisabled { name }, SkillFailure::ModelInvocationDisabled(n)) => name@ == n,
        (SkillError::UserInvocationDisabled { name }, SkillFailure::UserInvocationDisabled(n)) => name@ == n,
        _ => false,
    }
}

/// The skill directory as shown to the model, with `/` separators.
pub open spec fn shown_dir(base_dir: Seq<char>) -> Seq<char> {
    crate::text::replace_char_spec(base_dir, '\\', '/')
}

/// The instructions of a skill for optional arguments: the base directory
/// line and the body, with the arguments substituted and the skill
/// directory variables replaced.
pub open spec fn rendered_text(e: SkillEntry, arguments: Option<Seq<char>>) -> Seq<char> {
    let d = shown_dir(e.base_dir);
    let initial = "Base directory for this skill: "@ + d + "\n\n"@ + e.body;
    let sub = substitute_spec(initial, arguments, e.meta.argument_names);
    crate::text::replace_spec(
        crate::text::replace_spec(crate::text::replace_spec(sub, "${PHI_SKILL_DIR}"@, d), "${PHY_SKILL_DIR}"@, d),
        "${CLAUDE_SKILL_DIR}"@,
        d,
    )
}

/// Rendering `name` for the model (`for_model`) or for the user: the
/// skill's name and instructions, or why it fails.
pub open spec fn render_spec(
    es: Seq<SkillEntry>,
    name: Seq<char>,
    arguments: Option<Seq<char>>,
    for_model: bool,
) -> Result<(Seq<char>, Seq<char>), SkillFailure> {
    match entry_named(es, normalized_name(name)) {
        None => Err(SkillFailure::NotFound(normalized_name(name))),
        Some(i) => if for_model && !es[i].meta.model_invocable {
            Err(SkillFailure::ModelInvocationDisabled(es[i].meta.name))
        } else if !for_model && !es[i].meta.user_invocable {
            Err(SkillFailure::UserInvocationDisabled(es[i].meta.name))
        } else {
            Ok((es[i].meta.name, rendered_text(es[i], arguments)))
        },
    }
}

pub open spec fn opt_view(o: Option<&str>) -> Option<Seq<char>> {
    match o {
        Some(s) => Some(s@),
        None => None,
    }
}

/// The prompt text that announces an explicitly selected skill.
pub open spec fn selected_text(name: Seq<char>, content: Seq<char>) -> Seq<char> {
    "The skill "@ + debug_str(name)
        + " has already been selected and loaded for this turn. Follow it directly; do not call the skill tool for it again.\n\n"@
        + content
}

fn normalize_name(name: &str) -> (r: String)
    ensures
        r@ == normalized_name(name@),
{
    let v = chars_of(name);
    let (a, b) = crate::text::trim_bounds(&v);
    if a < b && v[a] == '/' {
        proof {
            assert(v@.subrange(a + 1, b as int) == v@.subrange(a as int, b as int).skip(1));
        }
        crate::text::string_of(&v, a + 1, b)
    } else {
        crate::text::string_of(&v, a, b)
    }
}

impl SkillCatalog {
    fn find_index(&self, name: &str) -> (r: Result<usize, SkillError>)
        ensures
            match (r, entry_named(self.spec_entries(), normalized_name(name@))) {
                (Ok(i), Some(j)) => i == j && i < self.spec_entries().len(),
                (Err(e), None) => is_failure(e, SkillFailure::NotFound(normalized_name(name@))),
                _ => false,
            },
    {
        proof {
            use_type_invariant(self);
        }
        let target = normalize_name(name);
        let ghost es = self.spec_entries();
        let mut i: usize = 0;
        while i < self.metadata.len()
            invariant
                i <= self.metadata@.len(),
                self.metadata@.len() == es.len(),
                es == self.spec_entries(),
                target@ == normalized_name(name@),
                forall|k: int| 0 <= k < i ==> (#[trigger] es[k]).meta.name != target@,
            decreases self.metadata.len() - i,
        {
            assert(es[i as int].meta.name == self.metadata@[i as int].name@);
            if crate::text::string_eq(&self.metadata[i].name, &target) {
                proof {
                    lemma_entry_named_at(es, target@, i as int);
                }
                return Ok(i);
            }
            i += 1;
        }
        proof {
            lemma_entry_named_none(es, target@);
        }
        Err(SkillError::NotFound { name: target })
    }

    fn render_at(&self, i: usize, arguments: Option<&str>) -> (r: RenderedSkill)
        requires
            i < self.spec_entries().len(),
        ensures
            r.name@ == self.spec_entries()[i as int].meta.name,
            r.content@ == rendered_text(self.spec_entries()[i as int], opt_view(arguments)),
    {
        proof {
            use_type_invariant(self);
            reveal_strlit("${PHI_SKILL_DIR}");
            reveal_strlit("${PHY_SKILL_DIR}");
            reveal_strlit("${CLAUDE_SKILL_DIR}");
        }
        let ghost e = self.spec_entries()[i as int];
        let dir = crate::text::replace_char(self.base_dirs[i].as_str(), '\\', '/');
        let mut initial = owned("Base directory for this skill: ");
        push_str(&mut initial, dir.as_str());
        push_str(&mut initial, "\n\n");
        push_str(&mut initial, self.bodies[i].as_str());
        let sub = substitute_arguments(
            initial.as_str(),
            arguments,
            &self.metadata[i].argument_names,
        );
        let a = crate::text::replace_all(sub.as_str(), "${PHI_SKILL_DIR}", dir.as_str());
        let b = crate::text::replace_all(a.as_str(), "${PHY_SKILL_DIR}", dir.as_str());
        let content = crate::text::replace_all(b.as_str(), "${CLAUDE_SKILL_DIR}", dir.as_str());
        RenderedSkill { name: self.metadata[i].name.clone(), content }
    }

    /// Renders a skill for the model; a skill that disables model
    /// invocation is refused.
    pub fn render_for_model(&self, name: &str, arguments: Option<&str>) -> (r: Result<
        RenderedSkill,
        SkillError,
    >)
        ensures
            match render_spec(self.spec_entries(), name@, opt_view(arguments), true) {
                Ok((n, c)) => r matches Ok(rs) && rs.name@ == n && rs.content@ == c,
                Err(f) => r matches Err(e) && is_failure(e, f),
            },
    {
        proof {
            use_type_invariant(self);
        }
        let i = match self.find_index(name) {
            Ok(i) => i,
            Err(e) => {
                return Err(e);
            },
        };
        if !self.metadata[i].model_invocable {
            return Err(SkillError::ModelInvocationDisabled { name: self.metadata[i].name.clone() });
        }
        Ok(self.render_at(i, arguments))
    }

    /// Renders a skill for an explicit user request; a skill that disables
    /// user invocation is refused.
    pub fn render_for_user(&self, name: &str, arguments: Option<&str>) -> (r: Result<
        RenderedSkill,
        SkillError,
    >)
        ensures
            match render_spec(self.spec_entries(), name@, opt_view(arguments), false) {
                Ok((n, c)) => r matches Ok(rs) && rs.name@ == n && rs.content@ == c,
                Err(f) => r matches Err(e) && is_failure(e, f),
            },
    {
        proof {
            use_type_invariant(self);
        }
        let i = match self.find_index(name) {
            Ok(i) => i,
            Err(e) => {
                return Err(e);
            },
        };
        if !self.metadata[i].user_invocable {
            return Err(SkillError::UserInvocationDisabled { name: self.metadata[i].name.clone() });
        }
        Ok(self.render_at(i, arguments))
    }
}

/// The text announcing an explicitly selected, rendered skill.
pub fn explicitly_selected_content(rendered: RenderedSkill) -> (r: String)
    ensures
        r@ == selected_text(rendered.name@, rendered.content@),
{
    let mut r = owned("The skill ");
    let quoted = debug_string(rendered.name.as_str());
    push_str(&mut r, quoted.as_str());
    push_str(
        &mut r,
        " has already been selected and loaded for this turn. Follow it directly; do not call the skill tool for it again.\n\n",
    );
    push_str(&mut r, rendered.content.as_str());
    r
}

pub const USER_REQUEST_HEADER: &'static str = "\n\nUser request:\n";

pub const MULTIMODAL_REQUEST_NOTE: &'static str = "\n\nThe user's multimodal request follows.";

/// The texts of the text parts of `ps`, in order.
pub open spec fn text_parts(ps: Seq<ContentPartView>) -> Seq<Seq<char>>
    decreases ps.len(),
{
    if ps.len() == 0 {
        Seq::empty()
    } else if ps.last().kind == 0 {
        text_parts(ps.drop_last()).push(ps.last().text)
    } else {
        text_parts(ps.drop_last())
    }
}

/// The arguments an explicit skill invocation uses for a prompt: the given
/// arguments, or else the prompt's own non-empty text (the text parts of a
/// multimodal prompt, joined by new lines).
pub open spec fn prompt_arguments(invocation_arguments: Option<Seq<char>>, content: ContentView) -> Option<Seq<char>> {
    match invocation_arguments {
        Some(a) => Some(a),
        None => {
            let text = match content {
                ContentView::Text(t) => t,
                ContentView::Parts(ps) => join_lines(text_parts(ps)),
            };
            if text.len() > 0 {
                Some(text)
            } else {
                None
            }
        },
    }
}

/// What an explicitly selected skill makes of a prompt's text content.
pub open spec fn applied_text(selected: Seq<char>, invocation_arguments: Option<Seq<char>>, original: Seq<char>) -> Seq<char> {
    if invocation_arguments is None || original.len() == 0 {
        selected
    } else {
        selected + USER_REQUEST_HEADER@ + original
    }
}

fn text_of_parts(parts: &Vec<ContentPart>) -> (r: String)
    ensures
        r@ == join_lines(text_parts(parts_view(parts@))),
{
    let ghost pv = parts_view(parts@);
    let mut texts: Vec<String> = Vec::new();
    let mut i: usize = 0;
    while i < parts.len()
        invariant
            i <= parts@.len(),
            pv == parts_view(parts@),
            string_views(texts@) == text_parts(pv.take(i as int)),
        decreases parts.len() - i,
    {
        proof {
            assert(pv.take(i + 1).drop_last() == pv.take(i as int));
            assert(pv.take(i + 1).last() == parts@[i as int]@);
        }
        match &parts[i] {
            ContentPart::Text { text } => {
                let ghost before = texts@;
                texts.push(text.clone());
                proof {
                    assert(string_views(texts@) =~= string_views(before).push(text@));
                }
            },
            _ => {},
        }
        i += 1;
    }
    proof {
        assert(pv.take(parts@.len() as int) == pv);
    }
    join_strings(&texts)
}

impl SkillCatalog {
    /// Expands an explicitly selected skill into the user's prompt. Text
    /// becomes the skill's arguments when none were given, and follows the
    /// skill under a header when they were; multimodal parts follow the
    /// skill instructions.
    pub fn apply_to_prompt(&self, invocation: &SkillInvocation, content: Content) -> (r: Result<
        Content,
        SkillError,
    >)
        ensures
            ({
                let given = opt_str_view(invocation.arguments);
                let args = prompt_arguments(given, content@);
                match render_spec(self.spec_entries(), invocation.name@, args, false) {
                    Err(f) => r matches Err(e) && is_failure(e, f),
                    Ok((n, c)) => match content {
                        Content::Text(original) => r matches Ok(Content::Text(t)) && t@ == applied_text(
                            selected_text(n, c),
                            given,
                            original@,
                        ),
                        Content::Parts(parts) => r matches Ok(Content::Parts(ps)) && ps@.len()
                            == parts@.len() + 1 && ps@[0]@ == crate::context::text_part_view(
                            selected_text(n, c) + MULTIMODAL_REQUEST_NOTE@,
                        ) && forall|k: int| 0 <= k < parts@.len() ==> #[trigger] ps@[k + 1] == parts@[k],
                    },
                }
            }),
    {
        match content {
            Content::Text(original) => {
                let given: Option<&str> = match &invocation.arguments {
                    Some(a) => Some(a.as_str()),
                    None => None,
                };
                let original_is_empty = chars_of(original.as_str()).len() == 0;
                let arguments: Option<&str> = match given {
                    Some(a) => Some(a),
                    None => if !original_is_empty {
                        Some(original.as_str())
                    } else {
                        None
                    },
                };
                let rendered = match self.render_for_user(invocation.name.as_str(), arguments) {
                    Ok(r) => r,
                    Err(e) => {
                        return Err(e);
                    },
                };
                let selected = explicitly_selected_content(rendered);
                if invocation.arguments.is_none() || original_is_empty {
                    Ok(Content::Text(selected))
                } else {
                    let mut t = selected;
                    push_str(&mut t, USER_REQUEST_HEADER);
                    push_str(&mut t, original.as_str());
                    Ok(Content::Text(t))
                }
            },
            Content::Parts(parts) => {
                let inferred: Option<String> = if invocation.arguments.is_none() {
                    let text = text_of_parts(&parts);
                    if chars_of(text.as_str()).len() > 0 {
                        Some(text)
                    } else {
                        None
                    }
                } else {
                    None
                };
                let arguments: Option<&str> = match &invocation.arguments {
                    Some(a) => Some(a.as_str()),
                    None => match &inferred {
                        Some(t) => Some(t.as_str()),
                        None => None,
                    },
                };
                let rendered = match self.render_for_user(invocation.name.as_str(), arguments) {
                    Ok(r) => r,
                    Err(e) => {
                        return Err(e);
                    },
                };
                let mut first = explicitly_selected_content(rendered);
                push_str(&mut first, MULTIMODAL_REQUEST_NOTE);
                let mut combined: Vec<ContentPart> = Vec::new();
                combined.push(ContentPart::Text { text: first });
                let mut rest = parts;
                let ghost original = rest@;
                assert(rest@.len() == rest.len());
                let mut k: usize = 0;
                while rest.len() > 0
                    invariant
                        k + rest@.len() == original.len(),
                        original.len() <= usize::MAX,
                        rest@ == original.skip(k as int),
                        combined@.len() == k + 1,
                        combined@[0]@ == crate::context::text_part_view(first@),
                        forall|j: int| 0 <= j < k ==> #[trigger] combined@[j + 1] == original[j],
                    decreases rest.len(),
                {
                    let p = rest.remove(0);
                    proof {
                        assert(p == original[k as int]);
                        assert(rest@ == original.skip(k + 1));
                    }
                    combined.push(p);
                    k += 1;
                }
                Ok(Content::Parts(combined))
            },
        }
    }
}

/// Whether the selection keeps `name`: not denied, and allowed when there is
/// an allow-list.
pub open spec fn is_selected(name: Seq<char>, allow: Option<Seq<Seq<char>>>, deny: Seq<Seq<char>>) -> bool {
    !deny.contains(name) && match allow {
        Some(a) => a.contains(name),
        None => true,
    }
}

/// The entries that a selection keeps, in order.
pub open spec fn selected_entries(es: Seq<SkillEntry>, allow: Option<Seq<Seq<char>>>, deny: Seq<Seq<char>>) -> Seq<SkillEntry>
    decreases es.len(),
{
    if es.len() == 0 {
        Seq::empty()
    } else if is_selected(es.last().meta.name, allow, deny) {
        selected_entries(es.drop_last(), allow, deny).push(es.last())
    } else {
        selected_entries(es.drop_last(), allow, deny)
    }
}

/// The first name of an allow-list that no skill has.
#[verifier::opaque]
pub open spec fn first_unknown(es: Seq<SkillEntry>, allow: Seq<Seq<char>>) -> Option<Seq<char>> {
    if exists|i: int| 0 <= i < allow.len() && entry_named(es, #[trigger] allow[i]) is None {
        let i = choose|i: int| 0 <= i < allow.len() && entry_named(es, #[trigger] allow[i]) is None && forall|j: int| 0 <= j < i ==> entry_named(es, #[trigger] allow[j]) is Some;
        Some(allow[i])
    } else {
        None
    }
}

proof fn lemma_first_unknown_at(es: Seq<SkillEntry>, allow: Seq<Seq<char>>, i: int)
    requires
        0 <= i < allow.len(),
        entry_named(es, allow[i]) is None,
        forall|j: int| 0 <= j < i ==> entry_named(es, #[trigger] allow[j]) is Some,
    ensures
        first_unknown(es, allow) == Some(allow[i]),
{
    reveal(first_unknown);
    let w = choose|w: int|
        0 <= w < allow.len() && entry_named(es, #[trigger] allow[w]) is None && forall|j: int|
            0 <= j < w ==> entry_named(es, #[trigger] allow[j]) is Some;
    assert(0 <= i < allow.len() && entry_named(es, allow[i]) is None);
    if w < i {
        assert(entry_named(es, allow[w]) is Some);
    }
    if w > i {
        assert(entry_named(es, allow[i]) is None);
    }
}

proof fn lemma_first_unknown_none(es: Seq<SkillEntry>, allow: Seq<Seq<char>>)
    requires
        forall|j: int| 0 <= j < allow.len() ==> entry_named(es, #[trigger] allow[j]) is Some,
    ensures
        first_unknown(es, allow) is None,
{
    reveal(first_unknown);
}

pub open spec fn opt_strings_view(o: Option<&Vec<String>>) -> Option<Seq<Seq<char>>> {
    match o {
        Some(v) => Some(string_views(v@)),
        None => None,
    }
}

fn contains_text(v: &Vec<String>, s: &str) -> (r: bool)
    ensures
        r == string_views(v@).contains(s@),
{
    match position_of(v, s) {
        Some(i) => {
            assert(string_views(v@)[i as int] == s@);
            true
        },
        None => {
            assert forall|k: int| 0 <= k < v@.len() implies string_views(v@)[k] != s@ by {
                assert((#[trigger] v@[k])@ != s@);
            }
            false
        },
    }
}

impl SkillCatalog {
    /// The first entry named exactly `name`.
    fn index_named(&self, name: &str) -> (r: Option<usize>)
        ensures
            match (r, entry_named(self.spec_entries(), name@)) {
                (Some(i), Some(j)) => i == j,
                (None, None) => true,
                _ => false,
            },
    {
        proof {
            use_type_invariant(self);
        }
        let ghost es = self.spec_entries();
        let target = owned(name);
        let mut i: usize = 0;
        while i < self.metadata.len()
            invariant
                i <= self.metadata@.len(),
                self.metadata@.len() == es.len(),
                es == self.spec_entries(),
                target@ == name@,
                forall|k: int| 0 <= k < i ==> (#[trigger] es[k]).meta.name != name@,
            decreases self.metadata.len() - i,
        {
            assert(es[i as int].meta.name == self.metadata@[i as int].name@);
            if crate::text::string_eq(&self.metadata[i].name, &target) {
                proof {
                    lemma_entry_named_at(es, name@, i as int);
                }
                return Some(i);
            }
            i += 1;
        }
        proof {
            lemma_entry_named_none(es, name@);
        }
        None
    }

    /// Selects a subset by exact skill names. Every allowed name must name a
    /// skill; denied names win over allowed ones, and unknown denied names
    /// are harmless.
    pub fn select(&self, allow: Option<&Vec<String>>, deny: &Vec<String>) -> (r: Result<
        SkillCatalog,
        SkillError,
    >)
        ensures
            match allow {
                Some(a) => match first_unknown(self.spec_entries(), string_views(a@)) {
                    Some(n) => r matches Err(e) && is_failure(e, SkillFailure::NotFound(n)),
                    None => r is Ok,
                },
                None => r is Ok,
            },
            r matches Ok(c) ==> c.spec_entries() == selected_entries(
                self.spec_entries(),
                opt_strings_view(allow),
                string_views(deny@),
            ) && c.spec_diagnostics() == self.spec_diagnostics() && c.spec_budget()
                == self.spec_budget() && c.spec_listing() == model_listing_spec(
                metas(c.spec_entries()),
                if self.spec_budget() >= 1 {
                    self.spec_budget() as int
                } else {
                    1
                },
            ),
    {
        proof {
            use_type_invariant(self);
        }
        let ghost es = self.spec_entries();
        match allow {
            Some(a) => {
                let mut i: usize = 0;
                while i < a.len()
                    invariant
                        i <= a@.len(),
                        allow == Some(a),
                        es == self.spec_entries(),
                        forall|j: int| 0 <= j < i ==> entry_named(es, #[trigger] string_views(a@)[j]) is Some,
                    decreases a.len() - i,
                {
                    if self.index_named(a[i].as_str()).is_none() {
                        proof {
                            let av = string_views(a@);
                            assert(av[i as int] == a@[i as int]@);
                            lemma_first_unknown_at(es, av, i as int);
                        }
                        let missing = a[i].clone();
                        assert(missing@ == string_views(a@)[i as int]);
                        let e = SkillError::NotFound { name: missing };
                        assert(is_failure(e, SkillFailure::NotFound(string_views(a@)[i as int])));
                        return Err(e);
                    }
                    i += 1;
                }
                proof {
                    lemma_first_unknown_none(es, string_views(a@));
                }
            },
            None => {},
        }
        let ghost allow_view = opt_strings_view(allow);
        let ghost deny_view = string_views(deny@);
        let mut metadata: Vec<SkillMetadata> = Vec::new();
        let mut bodies: Vec<String> = Vec::new();
        let mut base_dirs: Vec<String> = Vec::new();
        let mut i: usize = 0;
        while i < self.metadata.len()
            invariant
                i <= self.metadata@.len(),
                self.metadata@.len() == self.bodies@.len(),
                self.metadata@.len() == self.base_dirs@.len(),
                es == self.spec_entries(),
                allow_view == opt_strings_view(allow),
                deny_view == string_views(deny@),
                metadata@.len() == bodies@.len(),
                metadata@.len() == base_dirs@.len(),
                ({
                    let kept = selected_entries(es.take(i as int), allow_view, deny_view);
                    &&& metadata@.len() == kept.len()
                    &&& forall|k: int| 0 <= k < kept.len() ==> (#[trigger] metadata@[k])@ == kept[k].meta
                        && bodies@[k]@ == kept[k].body && base_dirs@[k]@ == kept[k].base_dir
                }),
            decreases self.metadata.len() - i,
        {
            proof {
                assert(es.take(i + 1).drop_last() == es.take(i as int));
                assert(es.take(i + 1).last() == es[i as int]);
            }
            let name = self.metadata[i].name.as_str();
            let denied = contains_text(deny, name);
            let allowed = match allow {
                Some(a) => contains_text(a, name),
                None => true,
            };
            if !denied && allowed {
                metadata.push(self.metadata[i].duplicate());
                bodies.push(self.bodies[i].clone());
                base_dirs.push(self.base_dirs[i].clone());
            }
            i += 1;
        }
        proof {
            assert(es.take(es.len() as int) == es);
        }
        let budget = if self.listing_char_budget >= 1 {
            self.listing_char_budget
        } else {
            1
        };
        let listing = format_model_listing(&metadata, budget);
        let mut diagnostics: Vec<SkillDiagnostic> = Vec::new();
        let mut k: usize = 0;
        while k < self.diagnostics.len()
            invariant
                k <= self.diagnostics@.len(),
                diagnostics@ == self.diagnostics@.take(k as int),
            decreases self.diagnostics.len() - k,
        {
            diagnostics.push(self.diagnostics[k].duplicate());
            k += 1;
            assert(diagnostics@ == self.diagnostics@.take(k as int));
        }
        proof {
            assert(self.diagnostics@.take(self.diagnostics@.len() as int) == self.diagnostics@);
        }
        let r = SkillCatalog {
            metadata,
            bodies,
            base_dirs,
            diagnostics,
            model_listing: listing,
            listing_char_budget: self.listing_char_budget,
        };
        proof {
            let kept = selected_entries(es, allow_view, deny_view);
            assert(r.spec_entries() =~= kept);
            assert(metas(r.spec_entries()) =~= metadata_views(r.metadata@));
        }
        Ok(r)
    }
}

/// A control character (`char::is_control`: general category `Cc`).
pub open spec fn is_control(c: char) -> bool {
    c <= '\u{1f}' || ('\u{7f}' <= c && c <= '\u{9f}')
}

pub const NAME_EMPTY: &'static str = "skill name must not be empty";

pub const NAME_TOO_LONG: &'static str = "skill name must not exceed 128 bytes";

pub const NAME_SLASH_OR_SPACE: &'static str =
    "skill name must not start with `/` or contain whitespace";

pub const NAME_CONTROL: &'static str = "skill name must not contain control characters";

/// The name of a skill directory must be a usable skill name.
pub open spec fn skill_name_error(name: Seq<char>) -> Option<Seq<char>> {
    if name.len() == 0 {
        Some(NAME_EMPTY@)
    } else if crate::text::utf8_len(name) > 128 {
        Some(NAME_TOO_LONG@)
    } else if name[0] == '/' || exists|i: int| 0 <= i < name.len() && crate::text::is_ws(#[trigger] name[i]) {
        Some(NAME_SLASH_OR_SPACE@)
    } else if exists|i: int| 0 <= i < name.len() && is_control(#[trigger] name[i]) {
        Some(NAME_CONTROL@)
    } else {
        None
    }
}

pub fn validate_skill_name(name: &str) -> (r: Result<(), String>)
    ensures
        match (r, skill_name_error(name@)) {
            (Ok(()), None) => true,
            (Err(e), Some(m)) => e@ == m,
            _ => false,
        },
{
    let v = chars_of(name);
    if v.len() == 0 {
        return Err(owned(NAME_EMPTY));
    }
    if crate::text::byte_len(name) > 128 {
        return Err(owned(NAME_TOO_LONG));
    }
    let mut space = v[0] == '/';
    let mut control = false;
    let mut i: usize = 0;
    while i < v.len()
        invariant
            i <= v@.len(),
            v@ == name@,
            v@.len() > 0,
            space == (v@[0] == '/' || exists|k: int| 0 <= k < i && crate::text::is_ws(#[trigger] v@[k])),
            control == exists|k: int| 0 <= k < i && is_control(#[trigger] v@[k]),
        decreases v.len() - i,
    {
        let c = v[i];
        if crate::text::char_is_whitespace(c) {
            space = true;
        }
        if c <= '\u{1f}' || ('\u{7f}' <= c && c <= '\u{9f}') {
            control = true;
        }
        proof {
            if crate::text::is_ws(c) {
                assert(crate::text::is_ws(v@[i as int]));
            }
            if is_control(c) {
                assert(is_control(v@[i as int]));
            }
        }
        i += 1;
    }
    if space {
        return Err(owned(NAME_SLASH_OR_SPACE));
    }
    if control {
        return Err(owned(NAME_CONTROL));
    }
    Ok(())
}

/// Handles a recoverable discovery failure: in strict mode, or for a
/// required directory, it fails discovery; otherwise it is recorded as an
/// error diagnostic.
pub fn recover_or_fail(
    config: &SkillsConfig,
    required: bool,
    diagnostics: &mut Vec<SkillDiagnostic>,
    code: &str,
    path: &str,
    message: String,
) -> (r: Result<(), SkillError>)
    ensures
        (config.strict || required) ==> (r matches Err(SkillError::Load { path: p, message: m })
            && p@ == path@ && m == message) && final(diagnostics)@ == old(diagnostics)@,
        !(config.strict || required) ==> r is Ok && final(diagnostics)@ == old(diagnostics)@.push(
            SkillDiagnostic {
                level: DiagnosticLevel::Error,
                code: final(diagnostics)@.last().code,
                path: final(diagnostics)@.last().path,
                message,
            },
        ) && final(diagnostics)@.last().code@ == code@ && (final(diagnostics)@.last().path matches Some(p)
            && p@ == path@),
{
    if config.strict || required {
        return Err(SkillError::Load { path: owned(path), message });
    }
    diagnostics.push(SkillDiagnostic::error(code, Some(owned(path)), message));
    Ok(())
}

} // verus!
