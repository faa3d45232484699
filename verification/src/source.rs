//! Where blueprints come from: a directory on disk or a git repository, and
//! the registry that names the blueprints found there.
//!
//! Cloning and reading are not done here; this module says what is to be
//! cloned, and where a blueprint lies once its source is on disk.

use vstd::prelude::*;
use vstd::string::StringExecFns;
use indexmap::IndexMap;
use regex::Regex;
use crate::errors::IoError;
use crate::paths::components_of;
use crate::paths::joined;
use crate::paths::path_join;
use crate::prompt::lookup;
use crate::template::TemplateError;
use crate::text::strip_text_prefix;
use crate::utils::normalize_path;
use crate::utils::normalized;

verus! {

/// Where a blueprint lies below its source.
#[derive(Debug, Clone)]
pub struct BlueprintInfo {
    pub path: String,
}

/// A source on disk with its registry of blueprints.
#[derive(Debug)]
pub struct Source {
    pub projects: IndexMap<String, BlueprintInfo>,
    pub source_dir: String,
}

/// Why a source could not be had.
#[derive(Debug)]
pub enum SourceError {
    Io(IoError),
    InvalidGitPrefix { url: String },
}

/// Whether the text matches the pattern, as `regex` decides it; `None` for
/// a pattern that `regex` does not take.
pub uninterp spec fn regex_match(pattern: Seq<char>, text: Seq<char>) -> Option<bool>;

/// The path of each blueprint that a registry names, in its order.
pub uninterp spec fn project_entries(map: IndexMap<String, BlueprintInfo>) -> Seq<
    (Seq<char>, Seq<char>),
>;

/// `Regex::new` and `Regex::is_match`: whether the pattern, once compiled,
/// matches somewhere in the text.
#[verifier::external_body]
fn matches_pattern(pattern: &str, text: &str) -> (r: Option<bool>)
    ensures
        r == regex_match(pattern@, text@),
{
    match Regex::new(pattern) {
        Ok(compiled) => Some(compiled.is_match(text)),
        Err(_) => None,
    }
}

/// `IndexMap::get`: the blueprint stored for a name.
#[verifier::external_body]
fn project_named<'a>(map: &'a IndexMap<String, BlueprintInfo>, name: &str) -> (r: Option<
    &'a BlueprintInfo,
>)
    ensures
        match r {
            Some(info) => lookup(project_entries(*map), name@) == Some(info.path@),
            None => lookup(project_entries(*map), name@) is None,
        },
{
    map.get(name)
}

/// The pattern of the references that name a git repository: `gh:` or `gl:`
/// with an account and a repository, an ssh address that ends in `.git`, or
/// `git+http` and `git+https` addresses.
pub open spec fn git_url_pattern() -> Seq<char> {
    r"(?x)        # Enable extended mode
                ^(?:
                    # 1) gh:account/repo
                    gh:[^/]+/[^/]+
                    |
                    # 2) gl:account/repo
                    gl:[^/]+/[^/]+
                    |
                    # 3) git@host:account/repo.git
                    git@[A-Za-z0-9._-]+:[^/]+/[^/]+\.git
                    |
                    # 4) git+http(s)://...
                    git\+https?://.*
                )$"@
}

/// The address that a short reference stands for: `gh:` is GitHub, `gl:` is
/// GitLab; other references stand for no address.
pub open spec fn expanded(url: Seq<char>) -> Option<Seq<char>> {
    if "gh:"@.is_prefix_of(url) {
        Some("https://github.com/"@ + url.skip("gh:"@.len() as int) + ".git"@)
    } else if "gl:"@.is_prefix_of(url) {
        Some("https://gitlab.com/"@ + url.skip("gl:"@.len() as int) + ".git"@)
    } else {
        None
    }
}

/// The address for a short reference, if it is one.
fn expand(url: &str) -> (r: Option<String>)
    ensures
        match r {
            Some(address) => expanded(url@) == Some(address@),
            None => expanded(url@) is None,
        },
{
    match strip_text_prefix(url, "gh:") {
        Some(rest) => {
            proof {
                assert(rest@ =~= url@.skip("gh:"@.len() as int));
                assert("gh:"@.is_prefix_of(url@));
            }
            let mut address = String::from_str("https://github.com/");
            address.append(rest);
            address.append(".git");
            Some(address)
        },
        None => match strip_text_prefix(url, "gl:") {
            Some(rest) => {
                proof {
                    assert(rest@ =~= url@.skip("gl:"@.len() as int));
                    assert("gl:"@.is_prefix_of(url@));
                }
                let mut address = String::from_str("https://gitlab.com/");
                address.append(rest);
                address.append(".git");
                Some(address)
            },
            None => None,
        },
    }
}

/// Expands a short reference to the address of its repository; any other
/// reference is given back as it is.
pub fn expand_git_short_url(url: &str) -> (address: String)
    ensures
        address@ == match expanded(url@) {
            Some(full) => full,
            None => url@,
        },
{
    match expand(url) {
        Some(address) => address,
        None => url.to_owned(),
    }
}

impl Source {
    /// Whether the reference names a git repository.
    pub fn is_git(source: &str) -> (r: bool)
        ensures
            r == (regex_match(git_url_pattern(), source@) == Some(true)),
    {
        let pattern = r"(?x)        # Enable extended mode
                ^(?:
                    # 1) gh:account/repo
                    gh:[^/]+/[^/]+
                    |
                    # 2) gl:account/repo
                    gl:[^/]+/[^/]+
                    |
                    # 3) git@host:account/repo.git
                    git@[A-Za-z0-9._-]+:[^/]+/[^/]+\.git
                    |
                    # 4) git+http(s)://...
                    git\+https?://.*
                )$";
        match matches_pattern(pattern, source) {
            Some(matched) => matched,
            None => false,
        }
    }

    /// Expands a short reference to the address of its repository, and
    /// refuses a reference with any other prefix.
    pub fn expand_git_short_url(url: &str) -> (r: Result<String, SourceError>)
        ensures
            match r {
                Ok(address) => expanded(url@) == Some(address@),
                Err(SourceError::InvalidGitPrefix { url: refused }) => expanded(url@) is None
                    && refused@ == url@,
                Err(_) => false,
            },
    {
        match expand(url) {
            Some(address) => Ok(address),
            None => Err(SourceError::InvalidGitPrefix { url: url.to_owned() }),
        }
    }

    /// The registry file of a source directory.
    pub fn registry_file(source_directory: &str) -> (file: String)
        ensures
            file@ == joined(source_directory@, "blueprints.toml"@),
    {
        path_join(source_directory, "blueprints.toml")
    }

    /// Where the named blueprint lies on disk: the source directory with
    /// the blueprint's normalized path adjoined. Fails when the registry
    /// does not name the blueprint.
    pub fn blueprint_directory(&self, template: &str) -> (r: Result<String, TemplateError>)
        ensures
            match lookup(project_entries(self.projects), template@) {
                Some(path) => r matches Ok(directory) && directory@ == joined(
                    self.source_dir@,
                    normalized(components_of(path)),
                ),
                None => r matches Err(TemplateError::ProjectNotFound { name }) && name@
                    == template@,
            },
    {
        match project_named(&self.projects, template) {
            Some(info) => {
                let below = normalize_path(&info.path);
                Ok(path_join(self.source_dir.as_str(), below.as_str()))
            },
            None => Err(TemplateError::ProjectNotFound { name: template.to_owned() }),
        }
    }

    /// The file that holds the questions of the blueprint in a directory.
    pub fn questions_file(blueprint_directory: &str) -> (file: String)
        ensures
            file@ == joined(blueprint_directory@, "blueprint.toml"@),
    {
        path_join(blueprint_directory, "blueprint.toml")
    }

    /// The pattern by which the template files of a blueprint are found.
    pub fn template_pattern(blueprint_directory: &str) -> (pattern: String)
        ensures
            pattern@ == blueprint_directory@ + "/**/*.tera"@,
    {
        let mut pattern = blueprint_directory.to_owned();
        pattern.append("/**/*.tera");
        pattern
    }
}

} // verus!
