//! The decisions of skill discovery: which configured roots are scanned,
//! which directory entries are read as skills, and how a read skill file is
//! admitted. The file system is probed by the caller, which hands in the
//! facts it found.
use vstd::prelude::*;

use crate::skill_catalog::{
    skill_name_error, DiagnosticLevel, SkillCatalog, SkillCatalogBuilder, SkillDiagnostic,
    SkillError,
};
use crate::skill_config::{SkillDirectory, SkillsConfig};
use crate::text::{decimal, owned, push_decimal, push_str};

verus! {

broadcast use vstd::string::group_string_axioms;

/// Why probing a path failed.
pub struct ProbeError {
    /// Nothing exists at the path.
    pub not_found: bool,
    /// The error as displayed.
    pub message: String,
}

/// What the caller found about a configured skill root.
pub struct RootFacts {
    /// Whether the root itself is a symbolic link (without following it).
    pub link: Result<bool, ProbeError>,
    /// Whether the root, links followed, is a directory.
    pub is_dir: Result<bool, String>,
    /// The canonical form of the root.
    pub canonical: Result<String, String>,
}

/// What the caller found about one entry of a scanned root.
pub struct EntryFacts {
    /// The entry's path.
    pub path: String,
    /// Whether the entry is a symbolic link, and whether it is a directory.
    pub file_type: Result<(bool, bool), String>,
    /// For a symbolic link: whether it leads to a directory.
    pub target_is_dir: bool,
    /// The entry's name, when it is valid UTF-8.
    pub name: Option<String>,
    /// The path of the entry's `SKILL.md`.
    pub skill_path: String,
    /// Whether `SKILL.md` is a symbolic link (without following it).
    pub skill_link: Result<bool, ProbeError>,
    /// Whether `SKILL.md`, links followed, is a regular file, and its size.
    pub skill_meta: Result<(bool, u64), String>,
    /// The canonical path of `SKILL.md`.
    pub skill_canonical: Result<String, String>,
}

/// What becomes of a probed root or entry.
pub ghost enum Outcome {
    /// Nothing is recorded and nothing is read.
    Skip,
    /// A warning is recorded.
    Warn { code: Seq<char>, path: Seq<char>, message: Seq<char> },
    /// A failure that ends discovery when it must not be recovered from,
    /// and is otherwise recorded as an error diagnostic.
    Recover { code: Seq<char>, path: Seq<char>, message: Seq<char> },
    /// The root or skill file is taken on, at this canonical path.
    Take { canonical: Seq<char> },
}

/// `p` lies at or below the directory `root`, component by component.
pub open spec fn within(p: Seq<char>, root: Seq<char>) -> bool {
    p == root || (p.len() > root.len() && p.take(root.len() as int) == root && (
    (root.len() > 0 && root.last() == '/') || p[root.len() as int] == '/'))
}

/// What becomes of a configured root.
pub open spec fn root_outcome(follow_symlinks: bool, required: bool, path: Seq<char>, f: RootFacts) -> Outcome {
    match f.link {
        Err(e) => if e.not_found && !required {
            Outcome::Skip
        } else {
            Outcome::Recover {
                code: "skill_directory_unavailable"@,
                path,
                message: "skill directory is unavailable: "@ + e.message@,
            }
        },
        Ok(is_link) => if is_link && !follow_symlinks {
            Outcome::Recover {
                code: "symlink_ignored"@,
                path,
                message: "symbolic-link skill root ignored"@,
            }
        } else {
            match f.is_dir {
                Err(e) => Outcome::Recover {
                    code: "skill_directory_unavailable"@,
                    path,
                    message: "skill directory is unavailable: "@ + e@,
                },
                Ok(false) => Outcome::Recover {
                    code: "not_a_directory"@,
                    path,
                    message: "configured skill root is not a directory"@,
                },
                Ok(true) => match f.canonical {
                    Err(e) => Outcome::Recover {
                        code: "canonicalize_directory_failed"@,
                        path,
                        message: "could not resolve skill directory: "@ + e@,
                    },
                    Ok(c) => Outcome::Take { canonical: c@ },
                },
            }
        },
    }
}

/// The message of a skill file over the size limit.
pub open spec fn too_large_message(size: u64, max: usize) -> Seq<char> {
    "skill file is "@ + decimal(size as nat) + " bytes; configured limit is "@ + decimal(max as nat)
        + " bytes"@
}

/// What becomes of an entry of a scanned root: only directories with a
/// valid name and a regular `SKILL.md` of at most `max_bytes` bytes inside
/// `root` are taken on.
pub open spec fn entry_outcome(follow_symlinks: bool, max_bytes: usize, root: Seq<char>, f: EntryFacts) -> Outcome {
    match f.file_type {
        Err(e) => Outcome::Recover {
            code: "inspect_entry_failed"@,
            path: f.path@,
            message: "could not inspect skill directory entry: "@ + e@,
        },
        Ok((is_link, is_dir)) => if is_link && !follow_symlinks {
            Outcome::Warn {
                code: "symlink_ignored"@,
                path: f.path@,
                message: "symbolic-link skill directory ignored"@,
            }
        } else if !(is_dir || (is_link && f.target_is_dir)) {
            Outcome::Skip
        } else {
            match f.name {
                None => Outcome::Warn {
                    code: "invalid_skill_name"@,
                    path: f.path@,
                    message: "skill directory name is not valid UTF-8"@,
                },
                Some(name) => match skill_name_error(name@) {
                    Some(m) => Outcome::Recover { code: "invalid_skill_name"@, path: f.path@, message: m },
                    None => match f.skill_link {
                        Err(e) => if e.not_found {
                            Outcome::Skip
                        } else {
                            Outcome::Recover {
                                code: "inspect_skill_failed"@,
                                path: f.skill_path@,
                                message: "could not inspect skill file: "@ + e.message@,
                            }
                        },
                        Ok(skill_is_link) => if skill_is_link && !follow_symlinks {
                            Outcome::Warn {
                                code: "symlink_ignored"@,
                                path: f.skill_path@,
                                message: "symbolic-link SKILL.md ignored"@,
                            }
                        } else {
                            match f.skill_meta {
                                Err(e) => Outcome::Recover {
                                    code: "inspect_skill_failed"@,
                                    path: f.skill_path@,
                                    message: "could not inspect skill file: "@ + e@,
                                },
                                Ok((is_file, size)) => if !is_file {
                                    Outcome::Skip
                                } else if size > max_bytes {
                                    Outcome::Recover {
                                        code: "skill_too_large"@,
                                        path: f.skill_path@,
                                        message: too_large_message(size, max_bytes),
                                    }
                                } else {
                                    match f.skill_canonical {
                                        Err(e) => Outcome::Recover {
                                            code: "canonicalize_skill_failed"@,
                                            path: f.skill_path@,
                                            message: "could not resolve skill file: "@ + e@,
                                        },
                                        Ok(c) => if !within(c@, root) {
                                            Outcome::Recover {
                                                code: "skill_outside_root"@,
                                                path: f.skill_path@,
                                                message: "resolved skill file is outside its configured root"@,
                                            }
                                        } else {
                                            Outcome::Take { canonical: c@ }
                                        },
                                    }
                                },
                            }
                        },
                    },
                },
            }
        },
    }
}

/// `d` is the diagnostic of `level`, `code`, `path` and `message`.
pub open spec fn diagnostic_is(
    d: SkillDiagnostic,
    level: DiagnosticLevel,
    code: Seq<char>,
    path: Seq<char>,
    message: Seq<char>,
) -> bool {
    &&& d.level == level
    &&& d.code@ == code
    &&& d.path matches Some(p) && p@ == path
    &&& d.message@ == message
}

/// How the builder changes when an outcome is recorded, and what the step
/// returns: a warning or a recovered failure is recorded as a diagnostic;
/// an unrecoverable failure changes nothing and fails.
pub open spec fn recorded<T>(
    old_b: SkillCatalogBuilder,
    new_b: SkillCatalogBuilder,
    fatal: bool,
    o: Outcome,
    r: Result<T, SkillError>,
) -> bool {
    let unchanged_but_diagnostics = new_b.spec_skills() == old_b.spec_skills() && new_b.spec_roots()
        == old_b.spec_roots() && new_b.spec_loaded_files() == old_b.spec_loaded_files();
    match o {
        Outcome::Warn { code, path, message } => unchanged_but_diagnostics
            && new_b.spec_diagnostics().len() == old_b.spec_diagnostics().len() + 1
            && new_b.spec_diagnostics().drop_last() == old_b.spec_diagnostics() && diagnostic_is(
            new_b.spec_diagnostics().last(),
            DiagnosticLevel::Warning,
            code,
            path,
            message,
        ),
        Outcome::Recover { code, path, message } => unchanged_but_diagnostics && if fatal {
            new_b.spec_diagnostics() == old_b.spec_diagnostics() && (r matches Err(
                SkillError::Load { path: p, message: m },
            ) && p@ == path && m@ == message)
        } else {
            new_b.spec_diagnostics().len() == old_b.spec_diagnostics().len() + 1
                && new_b.spec_diagnostics().drop_last() == old_b.spec_diagnostics() && diagnostic_is(
                new_b.spec_diagnostics().last(),
                DiagnosticLevel::Error,
                code,
                path,
                message,
            )
        },
        _ => true,
    }
}

impl SkillCatalogBuilder {
    /// Records a failure: with `strict` or a required directory it ends
    /// discovery, otherwise it is kept as an error diagnostic.
    pub fn recover_or_fail(
        &mut self,
        fatal: bool,
        code: &str,
        path: &str,
        message: String,
    ) -> (r: Result<(), SkillError>)
        ensures
            recorded(
                *old(self),
                *final(self),
                fatal,
                Outcome::Recover { code: code@, path: path@, message: message@ },
                r,
            ),
            fatal <==> r is Err,
            final(self).wf() == old(self).wf(),
    {
        if fatal {
            return Err(SkillError::Load { path: owned(path), message });
        }
        let d = SkillDiagnostic::error(code, Some(owned(path)), message);
        self.push_diagnostic(d);
        proof {
            assert(self.spec_diagnostics().drop_last() =~= old(self).spec_diagnostics());
        }
        Ok(())
    }

    fn warn(&mut self, code: &str, path: &str, message: &str)
        ensures
            recorded::<()>(
                *old(self),
                *final(self),
                false,
                Outcome::Warn { code: code@, path: path@, message: message@ },
                Ok(()),
            ),
            final(self).wf() == old(self).wf(),
    {
        let d = SkillDiagnostic::warning(code, Some(owned(path)), owned(message));
        self.push_diagnostic(d);
        proof {
            assert(self.spec_diagnostics().drop_last() =~= old(self).spec_diagnostics());
        }
    }

    /// Decides whether a configured root is scanned; see [`root_outcome`].
    /// A taken root is scanned unless its canonical form was already
    /// scanned, which is reported as a duplicate directory. Returns the
    /// canonical root to scan.
    pub fn root_step(
        &mut self,
        config: &SkillsConfig,
        directory: &SkillDirectory,
        facts: RootFacts,
    ) -> (r: Result<Option<String>, SkillError>)
        ensures
            final(self).wf() == old(self).wf(),
            match root_outcome(config.follow_symlinks, directory.required, directory.path@, facts) {
                Outcome::Take { canonical } => final(self).spec_skills() == old(self).spec_skills()
                    && final(self).spec_loaded_files() == old(self).spec_loaded_files() && if old(
                    self,
                ).spec_roots().contains(canonical) {
                    r matches Ok(None) && final(self).spec_roots() == old(self).spec_roots()
                        && final(self).spec_diagnostics().drop_last() == old(self).spec_diagnostics()
                        && final(self).spec_diagnostics().len() == old(self).spec_diagnostics().len() + 1
                        && final(self).spec_diagnostics().last().level == DiagnosticLevel::Warning
                        && final(self).spec_diagnostics().last().code@ == "duplicate_directory"@
                } else {
                    (r matches Ok(Some(c)) && c@ == canonical) && final(self).spec_roots() == old(
                        self,
                    ).spec_roots().push(canonical) && final(self).spec_diagnostics() == old(
                        self,
                    ).spec_diagnostics()
                },
                Outcome::Skip => r matches Ok(None) && *final(self) == *old(self),
                o => recorded(*old(self), *final(self), config.strict || directory.required, o, r)
                    && (r is Ok ==> r matches Ok(None)),
            },
    {
        let fatal = config.strict || directory.required;
        let path = directory.path.as_str();
        match &facts.link {
            Err(e) => {
                if e.not_found && !directory.required {
                    return Ok(None);
                }
                let mut m = owned("skill directory is unavailable: ");
                push_str(&mut m, e.message.as_str());
                return match self.recover_or_fail(fatal, "skill_directory_unavailable", path, m) {
                    Ok(()) => Ok(None),
                    Err(x) => Err(x),
                };
            },
            Ok(is_link) => {
                if *is_link && !config.follow_symlinks {
                    let m = owned("symbolic-link skill root ignored");
                    return match self.recover_or_fail(fatal, "symlink_ignored", path, m) {
                        Ok(()) => Ok(None),
                        Err(x) => Err(x),
                    };
                }
            },
        }
        match &facts.is_dir {
            Err(e) => {
                let mut m = owned("skill directory is unavailable: ");
                push_str(&mut m, e.as_str());
                return match self.recover_or_fail(fatal, "skill_directory_unavailable", path, m) {
                    Ok(()) => Ok(None),
                    Err(x) => Err(x),
                };
            },
            Ok(false) => {
                let m = owned("configured skill root is not a directory");
                return match self.recover_or_fail(fatal, "not_a_directory", path, m) {
                    Ok(()) => Ok(None),
                    Err(x) => Err(x),
                };
            },
            Ok(true) => {},
        }
        match &facts.canonical {
            Err(e) => {
                let mut m = owned("could not resolve skill directory: ");
                push_str(&mut m, e.as_str());
                match self.recover_or_fail(fatal, "canonicalize_directory_failed", path, m) {
                    Ok(()) => Ok(None),
                    Err(x) => Err(x),
                }
            },
            Ok(c) => {
                if self.admit_root(c.as_str(), path) {
                    Ok(Some(c.clone()))
                } else {
                    Ok(None)
                }
            },
        }
    }
}

/// What to do after an entry was decided.
pub enum EntryAction {
    /// Go on with the next entry.
    Skip,
    /// Read the skill file at `canonical` and hand it to
    /// [`SkillCatalogBuilder::load_skill_file`].
    Read { name: String, skill_path: String, canonical: String },
}

/// The recorded outcome of a failed step, `Ok` when it was recovered from.
fn recovered<T>(r: Result<(), SkillError>, skipped: T) -> (out: Result<T, SkillError>)
    ensures
        match r {
            Ok(()) => out == Ok::<T, SkillError>(skipped),
            Err(e) => out == Err::<T, SkillError>(e),
        },
{
    match r {
        Ok(()) => Ok(skipped),
        Err(e) => Err(e),
    }
}

impl SkillCatalogBuilder {
    /// Decides one entry of the scanned root `root`; see [`entry_outcome`].
    /// Failures end discovery under `strict`. A taken skill file is counted,
    /// and exceeding the configured maximum ends discovery.
    #[verifier::rlimit(60)]
    #[verifier::spinoff_prover]
    pub fn entry_step(&mut self, config: &SkillsConfig, root: &str, facts: EntryFacts) -> (r: Result<
        EntryAction,
        SkillError,
    >)
        ensures
            final(self).wf() == old(self).wf(),
            match entry_outcome(config.follow_symlinks, config.max_skill_bytes, root@, facts) {
                Outcome::Skip => r matches Ok(EntryAction::Skip) && *final(self) == *old(self),
                Outcome::Take { canonical } => final(self).spec_skills() == old(self).spec_skills()
                    && final(self).spec_roots() == old(self).spec_roots()
                    && final(self).spec_diagnostics() == old(self).spec_diagnostics() && (if old(
                    self,
                ).spec_loaded_files() + 1 > config.max_skills {
                    r matches Err(SkillError::LimitExceeded { maximum }) && maximum
                        == config.max_skills
                } else {
                    final(self).spec_loaded_files() == old(self).spec_loaded_files() + 1 && (r matches Ok(
                        EntryAction::Read { name, skill_path, canonical: c },
                    ) && Some(name) == facts.name && skill_path == facts.skill_path && c@ == canonical)
                }),
                o => recorded(*old(self), *final(self), config.strict, o, r) && (r is Ok ==> r matches Ok(
                    EntryAction::Skip,
                )),
            },
    {
        proof {
            reveal_strlit("skill file is ");
        }
        let fatal = config.strict;
        let EntryFacts {
            path,
            file_type,
            target_is_dir,
            name,
            skill_path,
            skill_link,
            skill_meta,
            skill_canonical,
        } = facts;
        let (is_link, is_dir) = match file_type {
            Err(e) => {
                let mut m = owned("could not inspect skill directory entry: ");
                push_str(&mut m, e.as_str());
                let out = self.recover_or_fail(fatal, "inspect_entry_failed", path.as_str(), m);
                return recovered(out, EntryAction::Skip);
            },
            Ok(t) => t,
        };
        if is_link && !config.follow_symlinks {
            self.warn("symlink_ignored", path.as_str(), "symbolic-link skill directory ignored");
            return Ok(EntryAction::Skip);
        }
        if !(is_dir || (is_link && target_is_dir)) {
            return Ok(EntryAction::Skip);
        }
        let name = match name {
            None => {
                self.warn("invalid_skill_name", path.as_str(), "skill directory name is not valid UTF-8");
                return Ok(EntryAction::Skip);
            },
            Some(n) => n,
        };
        match crate::skill_catalog::validate_skill_name(name.as_str()) {
            Err(m) => {
                let out = self.recover_or_fail(fatal, "invalid_skill_name", path.as_str(), m);
                return recovered(out, EntryAction::Skip);
            },
            Ok(()) => {},
        }
        match skill_link {
            Err(e) => {
                if e.not_found {
                    return Ok(EntryAction::Skip);
                }
                let mut m = owned("could not inspect skill file: ");
                push_str(&mut m, e.message.as_str());
                let out = self.recover_or_fail(fatal, "inspect_skill_failed", skill_path.as_str(), m);
                return recovered(out, EntryAction::Skip);
            },
            Ok(link) => {
                if link && !config.follow_symlinks {
                    self.warn("symlink_ignored", skill_path.as_str(), "symbolic-link SKILL.md ignored");
                    return Ok(EntryAction::Skip);
                }
            },
        }
        let size = match skill_meta {
            Err(e) => {
                let mut m = owned("could not inspect skill file: ");
                push_str(&mut m, e.as_str());
                let out = self.recover_or_fail(fatal, "inspect_skill_failed", skill_path.as_str(), m);
                return recovered(out, EntryAction::Skip);
            },
            Ok((is_file, size)) => {
                if !is_file {
                    return Ok(EntryAction::Skip);
                }
                size
            },
        };
        if size > config.max_skill_bytes as u64 {
            let mut m = owned("skill file is ");
            push_decimal(&mut m, size);
            push_str(&mut m, " bytes; configured limit is ");
            push_decimal(&mut m, config.max_skill_bytes as u64);
            push_str(&mut m, " bytes");
            let out = self.recover_or_fail(fatal, "skill_too_large", skill_path.as_str(), m);
            return recovered(out, EntryAction::Skip);
        }
        let canonical = match skill_canonical {
            Err(e) => {
                let mut m = owned("could not resolve skill file: ");
                push_str(&mut m, e.as_str());
                let out = self.recover_or_fail(fatal, "canonicalize_skill_failed", skill_path.as_str(), m);
                return recovered(out, EntryAction::Skip);
            },
            Ok(c) => c,
        };
        if !is_within(canonical.as_str(), root) {
            let m = owned("resolved skill file is outside its configured root");
            let out = self.recover_or_fail(fatal, "skill_outside_root", skill_path.as_str(), m);
            return recovered(out, EntryAction::Skip);
        }
        match self.count_skill_file(config) {
            Err(e) => Err(e),
            Ok(()) => Ok(EntryAction::Read { name, skill_path, canonical }),
        }
    }
}

/// Whether `p` lies at or below the directory `root`; see [`within`].
pub fn is_within(p: &str, root: &str) -> (r: bool)
    ensures
        r == within(p@, root@),
{
    let pv = crate::text::chars_of(p);
    let rv = crate::text::chars_of(root);
    if pv.len() == rv.len() {
        let mut i: usize = 0;
        while i < pv.len()
            invariant
                i <= pv@.len(),
                pv@.len() == rv@.len(),
                pv@ == p@,
                rv@ == root@,
                forall|k: int| 0 <= k < i ==> pv@[k] == rv@[k],
            decreases pv.len() - i,
        {
            if pv[i] != rv[i] {
                proof {
                    assert(p@[i as int] != root@[i as int]);
                    assert(p@ != root@);
                }
                return false;
            }
            i += 1;
        }
        proof {
            assert(pv@ =~= rv@);
        }
        return true;
    }
    if pv.len() < rv.len() {
        proof {
            assert(p@ != root@);
        }
        return false;
    }
    let mut i: usize = 0;
    while i < rv.len()
        invariant
            i <= rv@.len(),
            rv@.len() < pv@.len(),
            pv@ == p@,
            rv@ == root@,
            forall|k: int| 0 <= k < i ==> pv@[k] == rv@[k],
        decreases rv.len() - i,
    {
        if pv[i] != rv[i] {
            proof {
                assert(pv@.take(rv@.len() as int)[i as int] != rv@[i as int]);
                assert(pv@.take(rv@.len() as int) != rv@);
                assert(p@.len() != root@.len());
            }
            return false;
        }
        i += 1;
    }
    proof {
        assert(pv@.take(rv@.len() as int) =~= rv@);
        assert(p@ != root@);
    }
    (rv.len() > 0 && rv[rv.len() - 1] == '/') || pv[rv.len()] == '/'
}

/// The view of what reading a skill file gave.
pub open spec fn read_view(read: Result<Vec<u8>, String>) -> Result<Seq<u8>, Seq<char>> {
    match read {
        Ok(b) => Ok(b@),
        Err(e) => Err(e@),
    }
}

/// What becomes of a read skill file: it must stay within the size limit,
/// be UTF-8 and parse as a skill; a file that does is taken on.
pub open spec fn file_outcome(max_bytes: usize, skill_path: Seq<char>, read: Result<Seq<u8>, Seq<char>>) -> Outcome {
    match read {
        Err(e) => Outcome::Recover {
            code: "read_skill_failed"@,
            path: skill_path,
            message: "could not read skill file: "@ + e,
        },
        Ok(b) => if b.len() > max_bytes {
            Outcome::Recover {
                code: "skill_too_large"@,
                path: skill_path,
                message: "skill file grew past the configured "@ + decimal(max_bytes as nat)
                    + " byte limit while reading"@,
            }
        } else if !vstd::utf8::valid_utf8(b) {
            Outcome::Recover {
                code: "invalid_utf8"@,
                path: skill_path,
                message: "skill file is not valid UTF-8: "@ + crate::text::utf8_error_text(b),
            }
        } else {
            match crate::skill_frontmatter::parse_skill_spec(vstd::utf8::decode_utf8(b)) {
                Err(m) => Outcome::Recover { code: "invalid_skill"@, path: skill_path, message: m },
                Ok(_) => Outcome::Take { canonical: skill_path },
            }
        },
    }
}

/// The directory that holds `p`: what precedes its last `/` (the root for
/// a top-level file), or nothing when it holds no `/`.
pub open spec fn parent_of(p: Seq<char>) -> Seq<char> {
    match last_slash(p) {
        None => Seq::empty(),
        Some(i) => if i == 0 {
            seq!['/']
        } else {
            p.take(i)
        },
    }
}

/// The position of the last `/` of `p`.
pub open spec fn last_slash(p: Seq<char>) -> Option<int>
    decreases p.len(),
{
    if p.len() == 0 {
        None
    } else if p.last() == '/' {
        Some(p.len() - 1)
    } else {
        last_slash(p.drop_last())
    }
}

/// The directory that holds `p`; see [`parent_of`].
pub fn parent_dir(p: &str) -> (r: String)
    ensures
        r@ == parent_of(p@),
{
    let v = crate::text::chars_of(p);
    let mut end: usize = v.len();
    proof {
        assert(v@.take(end as int) == v@);
    }
    while end > 0 && v[end - 1] != '/'
        invariant
            end <= v@.len(),
            v@ == p@,
            last_slash(v@.take(end as int)) == last_slash(p@),
        decreases end,
    {
        proof {
            assert(v@.take(end as int).drop_last() == v@.take(end - 1));
        }
        end -= 1;
    }
    if end == 0 {
        proof {
            assert(v@.take(0) =~= Seq::<char>::empty());
        }
        return String::new();
    }
    proof {
        assert(v@.take(end as int).last() == '/');
        assert(last_slash(p@) == Some(end - 1));
    }
    if end == 1 {
        let mut r = String::new();
        crate::text::push_char(&mut r, '/');
        proof {
            assert(r@ =~= seq!['/']);
        }
        r
    } else {
        crate::text::string_of(&v, 0, end - 1)
    }
}

/// The name of the file that holds a skill.
pub const SKILL_FILE_NAME: &'static str = "SKILL.md";

impl SkillCatalogBuilder {
    /// Records that a scanned root could not be listed: with `strict` or a
    /// required directory this ends discovery, otherwise it is kept as an
    /// error diagnostic.
    pub fn directory_unreadable(&mut self, config: &SkillsConfig, directory: &SkillDirectory, error: &str) -> (r: Result<
        (),
        SkillError,
    >)
        ensures
            recorded(
                *old(self),
                *final(self),
                config.strict || directory.required,
                Outcome::Recover {
                    code: "read_directory_failed"@,
                    path: directory.path@,
                    message: "could not scan skill directory: "@ + error@,
                },
                r,
            ),
            final(self).wf() == old(self).wf(),
    {
        let mut m = owned("could not scan skill directory: ");
        push_str(&mut m, error);
        self.recover_or_fail(
            config.strict || directory.required,
            "read_directory_failed",
            directory.path.as_str(),
            m,
        )
    }
}

} // verus!
