//! The site configuration.

use vstd::prelude::*;
use crate::paths::{path_is_absolute, path_join};
use crate::text::{clone_opt, opt_view};

verus! {

/// What a site declares of itself, and where it is read from and written to.
#[derive(Debug, PartialEq, Eq)]
pub struct SiteConfig {
    pub title: String,
    pub base_url: String,
    pub theme: String,
    pub description: Option<String>,
    pub author: Option<String>,
    pub src_dir: String,
    pub out_dir: String,
}

/// The content of a [`SiteConfig`].
pub struct ConfigView {
    pub title: Seq<char>,
    pub base_url: Seq<char>,
    pub theme: Seq<char>,
    pub description: Option<Seq<char>>,
    pub author: Option<Seq<char>>,
    pub src_dir: Seq<char>,
    pub out_dir: Seq<char>,
}

impl View for SiteConfig {
    type V = ConfigView;

    open spec fn view(&self) -> ConfigView {
        ConfigView {
            title: self.title@,
            base_url: self.base_url@,
            theme: self.theme@,
            description: opt_view(self.description),
            author: opt_view(self.author),
            src_dir: self.src_dir@,
            out_dir: self.out_dir@,
        }
    }
}

/// The configuration of a site that declares nothing.
pub open spec fn default_config() -> ConfigView {
    ConfigView {
        title: "Site Title"@,
        base_url: "http://localhost/"@,
        theme: "default"@,
        description: None,
        author: None,
        src_dir: "src"@,
        out_dir: "out"@,
    }
}

impl Default for SiteConfig {
    fn default() -> (c: SiteConfig)
        ensures
            c@ == default_config(),
    {
        SiteConfig {
            title: "Site Title".to_owned(),
            base_url: "http://localhost/".to_owned(),
            theme: "default".to_owned(),
            description: None,
            author: None,
            src_dir: "src".to_owned(),
            out_dir: "out".to_owned(),
        }
    }
}

impl Clone for SiteConfig {
    fn clone(&self) -> (c: SiteConfig)
        ensures
            c@ == self@,
    {
        SiteConfig {
            title: self.title.clone(),
            base_url: self.base_url.clone(),
            theme: self.theme.clone(),
            description: clone_opt(&self.description),
            author: clone_opt(&self.author),
            src_dir: self.src_dir.clone(),
            out_dir: self.out_dir.clone(),
        }
    }
}

/// `dir` as seen from `root`: an absolute directory as it is, a relative one
/// below `root`.
pub open spec fn anchored(root: Seq<char>, dir: Seq<char>) -> Seq<char> {
    if path_is_absolute(dir) {
        dir
    } else {
        path_join(root, dir)
    }
}

/// Computes [`anchored`].
pub fn anchor(root: &str, dir: String) -> (r: String)
    ensures
        r@ == anchored(root@, dir@),
{
    if crate::paths::is_absolute(dir.as_str()) {
        dir
    } else {
        crate::paths::join(root, dir.as_str())
    }
}

impl SiteConfig {
    /// The configuration as read from a file in `root`: its source and
    /// output directories, where they are relative, are taken below `root`.
    pub fn anchored_at(self, root: &str) -> (c: SiteConfig)
        ensures
            c@ == (ConfigView {
                src_dir: anchored(root@, self@.src_dir),
                out_dir: anchored(root@, self@.out_dir),
                ..self@
            }),
    {
        SiteConfig {
            title: self.title,
            base_url: self.base_url,
            theme: self.theme,
            description: self.description,
            author: self.author,
            src_dir: anchor(root, self.src_dir),
            out_dir: anchor(root, self.out_dir),
        }
    }

    /// The configuration for a build from `src_dir` to `out_dir`, whatever
    /// directories it named itself.
    pub fn between(self, src_dir: &str, out_dir: &str) -> (c: SiteConfig)
        ensures
            c@ == (ConfigView { src_dir: src_dir@, out_dir: out_dir@, ..self@ }),
    {
        SiteConfig {
            title: self.title,
            base_url: self.base_url,
            theme: self.theme,
            description: self.description,
            author: self.author,
            src_dir: src_dir.to_owned(),
            out_dir: out_dir.to_owned(),
        }
    }
}

} // verus!
