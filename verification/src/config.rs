//! What a search is asked to do, and the choice between the two ways of
//! searching that follows from it.

use crate::filter::{matching, matching_ignoring_case, search, search_case_insensitive};
use crate::text::lines_of;
use vstd::prelude::*;

verus! {

/// The name of the environment variable that switches the case-insensitive
/// search on. It counts as set whatever its value is, the empty one too.
pub const IGNORE_CASE_SWITCH: &'static str = "IGNORE_CASE";

/// One search: what to look for, where, and whether letter case counts.
pub struct Config {
    /// The text that a line must hold.
    pub query: String,
    /// The path of the file whose lines are searched.
    pub file_path: String,
    /// Whether the search sets letter case aside.
    pub ignore_case: bool,
}

/// A configuration as the contracts see it: its two texts and its switch.
pub struct ConfigView {
    pub query: Seq<char>,
    pub file_path: Seq<char>,
    pub ignore_case: bool,
}

impl View for Config {
    type V = ConfigView;

    open spec fn view(&self) -> ConfigView {
        ConfigView {
            query: self.query@,
            file_path: self.file_path@,
            ignore_case: self.ignore_case,
        }
    }
}

impl Config {
    /// Builds the configuration from the argument list of the program and the
    /// switch for case-insensitive search.
    ///
    /// `args` begins with the name of the program, which is passed over; the
    /// query and the file path follow, and anything after them is ignored.
    /// `ignore_case_switch` is the value of the switch where it is set, and
    /// `None` where it is not: a value of any kind, the empty one too, turns
    /// the case-insensitive search on.
    ///
    /// Fails, with a message that says which, where the query or the file path
    /// is missing.
    pub fn build(args: Vec<String>, ignore_case_switch: Option<String>) -> (built: Result<
        Config,
        &'static str,
    >)
        ensures
            args.len() < 2 ==> built is Err && built->Err_0@ == "Didn't get a query string"@,
            args.len() == 2 ==> built is Err && built->Err_0@ == "Didn't get a file path"@,
            args.len() >= 3 ==> built is Ok && built->Ok_0@ == (ConfigView {
                query: args[1]@,
                file_path: args[2]@,
                ignore_case: ignore_case_switch is Some,
            }),
    {
        let mut args = args;
        if args.len() < 2 {
            return Err("Didn't get a query string");
        }
        if args.len() < 3 {
            return Err("Didn't get a file path");
        }
        let file_path = args.remove(2);
        let query = args.remove(1);
        let ignore_case = ignore_case_switch.is_some();
        Ok(Config { query, file_path, ignore_case })
    }
}

/// The lines that the search which `config` describes finds in `contents`.
pub open spec fn selected(config: ConfigView, contents: Seq<char>) -> Seq<Seq<char>> {
    if config.ignore_case {
        matching_ignoring_case(config.query, lines_of(contents))
    } else {
        matching(config.query, lines_of(contents))
    }
}

/// Searches `contents`, the text of the file that `config` names, for the
/// query of `config`, with letter case set aside where `config` says so. The
/// lines come back in the order of `contents`, ready to be written out one by
/// one.
pub fn run<'a>(config: &Config, contents: &'a str) -> (found: Vec<&'a str>)
    ensures
        found.deep_view() == selected(config@, contents@),
{
    if config.ignore_case {
        search_case_insensitive(config.query.as_str(), contents)
    } else {
        search(config.query.as_str(), contents)
    }
}

} // verus!
