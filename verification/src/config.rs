//! The four settings of the recorder, their defaults, and the two rules that
//! apply to them: an answer left empty takes the default, and a leading `~/`
//! of a path stands for the home directory.

use crate::text::{chars_of, string_of_range, trim, trimmed};
use vstd::prelude::*;

verus! {

/// Where entries go and how they look.
#[derive(Debug)]
pub struct Config {
    /// The directory of the daily notes; a leading `~/` stands for the home
    /// directory.
    pub target_directory: String,
    /// The template of a note's file name, with the tokens `YYYY`, `MM`, `DD`.
    pub filename_format: String,
    /// The template of an entry, with the tokens `HH:mm:ss` and `{text}`.
    pub entry_format: String,
    /// The heading line under which entries are inserted.
    pub target_section: String,
}

impl Clone for Config {
    fn clone(&self) -> (copy: Self)
        ensures
            copy == *self,
    {
        Config {
            target_directory: self.target_directory.clone(),
            filename_format: self.filename_format.clone(),
            entry_format: self.entry_format.clone(),
            target_section: self.target_section.clone(),
        }
    }
}

/// The file name template used unless another is given.
pub open spec fn default_filename_format() -> Seq<char> {
    "YYYY-MM-DD.md"@
}

/// The entry template used unless another is given.
pub open spec fn default_entry_format() -> Seq<char> {
    "[HH:mm:ss] {text}"@
}

/// The section heading used unless another is given.
pub open spec fn default_target_section() -> Seq<char> {
    "### Tweets"@
}

/// Whether `path` starts with the home alias `~/`.
pub open spec fn starts_with_home_alias(path: Seq<char>) -> bool {
    path.len() >= 2 && path[0] == '~' && path[1] == '/'
}

/// `path` with a leading `~` replaced by `home` where `path` starts with `~/`
/// and a home directory is known; `path` itself otherwise.
pub open spec fn expanded_path(path: Seq<char>, home: Option<Seq<char>>) -> Seq<char> {
    match home {
        Some(h) => if starts_with_home_alias(path) {
            h + path.skip(1)
        } else {
            path
        },
        None => path,
    }
}

/// What an answer to a question with a default stands for: the trimmed answer,
/// or `default` where nothing but white space was typed.
pub open spec fn answer_of(input: Seq<char>, default: Seq<char>) -> Seq<char> {
    if trimmed(input).len() == 0 {
        default
    } else {
        trimmed(input)
    }
}

/// The view of an optional text.
pub open spec fn option_view(text: Option<&str>) -> Option<Seq<char>> {
    match text {
        Some(t) => Some(t@),
        None => None,
    }
}

/// The home directory of the current user, if one can be found.
///
/// Trusted: the body calls `dirs::home_dir()` and turns the path into text,
/// replacing what is not valid Unicode. The answer depends on the user and
/// the machine, so nothing is claimed of it.
#[verifier::external_body]
pub(crate) fn home_directory() -> (home: Option<String>) {
    match dirs::home_dir() {
        Some(path) => Some(path.to_string_lossy().into_owned()),
        None => None,
    }
}

/// Expands a leading `~/` of `path` with the home directory `home`.
pub fn expand_home(path: &str, home: Option<&str>) -> (full: String)
    ensures
        full@ == expanded_path(path@, option_view(home)),
{
    match home {
        Some(h) => {
            let cs = chars_of(path);
            if cs.len() >= 2 && cs[0] == '~' && cs[1] == '/' {
                let rest = string_of_range(&cs, 1, cs.len());
                assert(rest@ =~= path@.skip(1));
                String::from_str(h).concat(rest.as_str())
            } else {
                path.to_owned()
            }
        },
        None => path.to_owned(),
    }
}

/// The value that an answer typed at a prompt stands for.
pub fn answer_or_default(input: &str, default: &str) -> (value: String)
    ensures
        value@ == answer_of(input@, default@),
{
    let typed = trim(input);
    if typed.as_str().is_empty() {
        default.to_owned()
    } else {
        typed
    }
}

impl Config {
    /// The default settings for notes kept in `directory`.
    pub fn with_directory(directory: String) -> (config: Config)
        ensures
            config.target_directory == directory,
            config.filename_format@ == default_filename_format(),
            config.entry_format@ == default_entry_format(),
            config.target_section@ == default_target_section(),
    {
        Config {
            target_directory: directory,
            filename_format: String::from_str("YYYY-MM-DD.md"),
            entry_format: String::from_str("[HH:mm:ss] {text}"),
            target_section: String::from_str("### Tweets"),
        }
    }

    /// The settings that four answers stand for, each with its default: the
    /// directory `current_directory`, and the default templates and heading.
    pub fn from_answers(
        current_directory: &str,
        directory: &str,
        filename_format: &str,
        entry_format: &str,
        target_section: &str,
    ) -> (config: Config)
        ensures
            config.target_directory@ == answer_of(directory@, current_directory@),
            config.filename_format@ == answer_of(filename_format@, default_filename_format()),
            config.entry_format@ == answer_of(entry_format@, default_entry_format()),
            config.target_section@ == answer_of(target_section@, default_target_section()),
    {
        Config {
            target_directory: answer_or_default(directory, current_directory),
            filename_format: answer_or_default(filename_format, "YYYY-MM-DD.md"),
            entry_format: answer_or_default(entry_format, "[HH:mm:ss] {text}"),
            target_section: answer_or_default(target_section, "### Tweets"),
        }
    }

    /// Expands a leading `~/` of `path` with the home directory of the current
    /// user. A path that does not start with `~/` comes back as it is, and so
    /// does every path where no home directory is known.
    pub fn expand_path(&self, path: &str) -> (full: String)
        ensures
            exists|home: Option<Seq<char>>| full@ == expanded_path(path@, home),
            !starts_with_home_alias(path@) ==> full@ == path@,
    {
        let home = home_directory();
        let full = match &home {
            Some(h) => expand_home(path, Some(h.as_str())),
            None => expand_home(path, None),
        };
        proof {
            let known: Option<Seq<char>> = match home {
                Some(h) => Some(h@),
                None => None,
            };
            assert(full@ == expanded_path(path@, known));
        }
        full
    }
}

} // verus!
