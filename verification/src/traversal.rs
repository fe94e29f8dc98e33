//! The settings of a traversal: which ignore sources the walker consults,
//! the override globs for the ignore patterns, and the check that every
//! root exists.

use vstd::prelude::*;

verus! {

/// How a run walks its roots.
#[derive(Clone, Debug)]
pub struct TraversalConfig {
    /// Whether hidden files and directories are walked.
    pub include_hidden: bool,
    /// Whether the ignore rules of version control apply: local, global and
    /// repository-wide. Where this is off, no ignore file of any kind is
    /// read.
    pub respect_vcs_ignore: bool,
    /// Whether plain ignore files apply.
    pub respect_plain_ignore_files: bool,
    /// Patterns that are always ignored.
    pub extra_ignore_patterns: Vec<String>,
    /// Whether the patterns are checked against bare file names too.
    pub ignore_patterns_file_scope_only: bool,
}

/// The switches of the walker.
#[derive(Clone, Copy, Debug, PartialEq, Eq, Structural)]
pub struct WalkSettings {
    /// Hidden paths are pruned.
    pub hidden: bool,
    /// Local ignore files of version control are read.
    pub git_ignore: bool,
    /// The user's global ignore file is read.
    pub git_global: bool,
    /// The repository's exclude file is read.
    pub git_exclude: bool,
    /// Ignore files of version control count only inside a repository.
    pub require_git: bool,
    /// Plain ignore files are read.
    pub ignore: bool,
}

/// The switches that a configuration asks for.
pub open spec fn spec_walk_settings(config: TraversalConfig) -> WalkSettings {
    WalkSettings {
        hidden: !config.include_hidden,
        git_ignore: config.respect_vcs_ignore,
        git_global: config.respect_vcs_ignore,
        git_exclude: config.respect_vcs_ignore,
        require_git: false,
        ignore: config.respect_vcs_ignore && config.respect_plain_ignore_files,
    }
}

impl TraversalConfig {
    /// The configuration that the command line's switches ask for: one
    /// switch turns every ignore file off, the patterns stay.
    pub fn from_flags(
        include_hidden: bool,
        ignore_gitignore: bool,
        ignore_patterns: Vec<String>,
        ignore_files_only: bool,
    ) -> (config: TraversalConfig)
        ensures
            config.include_hidden == include_hidden,
            config.respect_vcs_ignore == !ignore_gitignore,
            config.respect_plain_ignore_files == !ignore_gitignore,
            config.extra_ignore_patterns == ignore_patterns,
            config.ignore_patterns_file_scope_only == ignore_files_only,
    {
        TraversalConfig {
            include_hidden,
            respect_vcs_ignore: !ignore_gitignore,
            respect_plain_ignore_files: !ignore_gitignore,
            extra_ignore_patterns: ignore_patterns,
            ignore_patterns_file_scope_only: ignore_files_only,
        }
    }

    /// The switches of the walker for this configuration. Hidden paths are
    /// pruned unless they are included; without the rules of version
    /// control no ignore file is read; a repository is never required.
    pub fn walk_settings(&self) -> (settings: WalkSettings)
        ensures
            settings == spec_walk_settings(*self),
    {
        WalkSettings {
            hidden: !self.include_hidden,
            git_ignore: self.respect_vcs_ignore,
            git_global: self.respect_vcs_ignore,
            git_exclude: self.respect_vcs_ignore,
            require_git: false,
            ignore: self.respect_vcs_ignore && self.respect_plain_ignore_files,
        }
    }
}

/// The override glob by which the walker leaves out what `pattern`
/// matches: the pattern behind an exclamation mark. The pattern is taken as
/// it is, so one that itself begins with an exclamation mark is no negation:
/// its mark is part of what is matched.
pub fn ignore_glob(pattern: &str) -> (glob: String)
    ensures
        glob@ == seq!['!'] + pattern@,
{
    let mut glob = String::new();
    glob.push('!');
    glob.append(pattern);
    assert(glob@ =~= seq!['!'] + pattern@);
    glob
}

/// The position of the first root that does not exist, where `exists` says
/// of each root in order whether it does; `None` where all exist.
pub fn first_missing(exists: &Vec<bool>) -> (missing: Option<usize>)
    ensures
        match missing {
            Some(i) => i < exists.len() && !exists@[i as int] && forall|k: int|
                0 <= k < i ==> exists@[k],
            None => forall|k: int| 0 <= k < exists.len() ==> exists@[k],
        },
{
    let mut i: usize = 0;
    while i < exists.len()
        invariant
            i <= exists.len(),
            forall|k: int| 0 <= k < i ==> exists@[k],
        decreases exists.len() - i,
    {
        if !exists[i] {
            return Some(i);
        }
        i += 1;
    }
    None
}

/// Without the rules of version control no ignore file of any kind is read,
/// whatever the other switches say.
pub proof fn lemma_no_ignore_files_without_vcs(config: TraversalConfig)
    requires
        !config.respect_vcs_ignore,
    ensures
        !spec_walk_settings(config).git_ignore,
        !spec_walk_settings(config).git_global,
        !spec_walk_settings(config).git_exclude,
        !spec_walk_settings(config).ignore,
{
}

} // verus!
