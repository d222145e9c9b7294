//! The optional persistent configuration and its combination with the
//! command line: command-line values take precedence, except that the
//! split-folder lists are unioned.

use vstd::prelude::*;

use crate::text::add_unique;
use crate::text::append_unique;
use crate::text::clone_strings;

verus! {

/// The recognized configuration options; each may be absent.
#[derive(Debug, Clone)]
pub struct Config {
    /// Ignore patterns applied in addition to those of the ignore file.
    pub ignore_patterns: Option<Vec<String>>,
    /// Folders whose files go into buckets of their own.
    pub split_folders: Option<Vec<String>>,
    /// Whether to omit the per-file headers.
    pub no_headers: Option<bool>,
    /// The path of a custom ignore file.
    pub ignore_file: Option<String>,
}

/// Spec-level image of a `Config`.
#[verifier::ext_equal]
pub struct ConfigModel {
    pub ignore_patterns: Option<Seq<Seq<char>>>,
    pub split_folders: Option<Seq<Seq<char>>>,
    pub no_headers: Option<bool>,
    pub ignore_file: Option<Seq<char>>,
}

impl View for Config {
    type V = ConfigModel;

    open spec fn view(&self) -> ConfigModel {
        ConfigModel {
            ignore_patterns: self.ignore_patterns.deep_view(),
            split_folders: self.split_folders.deep_view(),
            no_headers: self.no_headers,
            ignore_file: self.ignore_file.deep_view(),
        }
    }
}

impl DeepView for Config {
    type V = ConfigModel;

    open spec fn deep_view(&self) -> ConfigModel {
        self.view()
    }
}

impl Default for Config {
    /// A configuration with every option absent.
    fn default() -> (r: Config)
        ensures
            r@.ignore_patterns is None,
            r@.split_folders is None,
            r@.no_headers is None,
            r@.ignore_file is None,
    {
        Config { ignore_patterns: None, split_folders: None, no_headers: None, ignore_file: None }
    }
}

/// The effective options of one run, after configuration and command
/// line are combined.
pub struct RunOptions {
    /// Inline ignore patterns from the configuration.
    pub ignore_patterns: Vec<String>,
    /// The union of configured and command-line split folders.
    pub split_folders: Vec<String>,
    pub no_headers: bool,
    pub ignore_file: Option<String>,
}

/// The configured split folders, or nothing.
pub open spec fn config_splits(c: ConfigModel) -> Seq<Seq<char>> {
    match c.split_folders {
        Some(s) => s,
        None => Seq::empty(),
    }
}

impl Config {
    /// Combines this configuration with the command-line choices: a
    /// set flag or path on the command line wins; the split-folder
    /// lists are unioned, configured folders first, each name once.
    pub fn merge_with_cli(
        &self,
        cli_no_headers: bool,
        cli_ignore_file: Option<&str>,
        cli_split_folders: &Vec<String>,
    ) -> (r: RunOptions)
        ensures
            r.no_headers == (cli_no_headers || self@.no_headers == Some(true)),
            r.ignore_file.deep_view() == (match cli_ignore_file {
                Some(f) => Some(f@),
                None => self@.ignore_file,
            }),
            r.ignore_patterns.deep_view() == (match self@.ignore_patterns {
                Some(ps) => ps,
                None => Seq::<Seq<char>>::empty(),
            }),
            r.split_folders.deep_view() == add_unique(
                add_unique(Seq::<Seq<char>>::empty(), config_splits(self@)),
                cli_split_folders.deep_view(),
            ),
    {
        let no_headers = cli_no_headers || match self.no_headers {
            Some(b) => b,
            None => false,
        };
        let ignore_file = match cli_ignore_file {
            Some(f) => Some(String::from_str(f)),
            None => match &self.ignore_file {
                Some(s) => Some(s.clone()),
                None => None,
            },
        };
        let ignore_patterns = match &self.ignore_patterns {
            Some(ps) => clone_strings(ps),
            None => Vec::new(),
        };
        let mut split_folders: Vec<String> = Vec::new();
        proof {
            assert(split_folders.deep_view() =~= Seq::<Seq<char>>::empty());
        }
        match &self.split_folders {
            Some(cfg) => {
                append_unique(&mut split_folders, cfg);
            },
            None => {
                proof {
                    assert(add_unique(Seq::<Seq<char>>::empty(), config_splits(self@))
                        == split_folders.deep_view());
                }
            },
        }
        append_unique(&mut split_folders, cli_split_folders);
        proof {
            assert(ignore_patterns.deep_view() =~= (match self@.ignore_patterns {
                Some(ps) => ps,
                None => Seq::<Seq<char>>::empty(),
            }));
        }
        RunOptions { ignore_patterns, split_folders, no_headers, ignore_file }
    }
}

} // verus!
