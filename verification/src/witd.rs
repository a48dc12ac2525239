//! The rule engine: rules, their parser and renderer, and the change tracker.

pub mod command;
pub mod command_err;
pub mod dispatch;
pub mod grammar;
pub mod keywords;
pub mod parts;
pub mod run_mode;
pub mod script_options;
pub mod template;
pub mod tracker;

pub use command::Command;
pub use command_err::CommandErr;
pub use dispatch::Invocation;
pub use keywords::Keyword;
pub use run_mode::RunMode;
pub use script_options::ScriptOptions;

use crate::types::{File, FileView};
use grammar::Rule;
use template::rendered;
use tracker::{
    consistent, dispatches, lemma_observed_all_consistent, observed_all, rendered_each, triggered,
};
use vstd::hash_map::StringHashMap;
use vstd::prelude::*;

verus! {

/// An error that may be returned by WITD.
#[derive(Clone, Copy, Debug, PartialEq, Eq, Structural)]
pub enum WitdErr {
    CommandErr(CommandErr),
}

impl From<CommandErr> for WitdErr {
    fn from(e: CommandErr) -> (r: Self) {
        Self::CommandErr(e)
    }
}

impl vstd::std_specs::convert::FromSpecImpl<CommandErr> for WitdErr {
    open spec fn obeys_from_spec() -> bool {
        true
    }

    open spec fn from_spec(e: CommandErr) -> Self {
        WitdErr::CommandErr(e)
    }
}

/// A rule together with what it remembers of the files it has seen.
pub struct Witd {
    command: Command,
    files: StringHashMap<File>,
}

/// The mathematical content of a [`Witd`].
pub struct WitdView {
    /// The rule that is watched for.
    pub rule: Rule,
    /// For each path seen so far, the descriptor that last counted as a
    /// change.
    pub known: Map<Seq<char>, FileView>,
}

impl View for Witd {
    type V = WitdView;

    closed spec fn view(&self) -> WitdView {
        WitdView { rule: self.command@, known: remembered(self.files@) }
    }
}

/// What the files of a tracker remember, descriptor by descriptor.
spec fn remembered(files: Map<Seq<char>, File>) -> Map<Seq<char>, FileView> {
    files.map_values(|f: File| f@)
}

impl Witd {
    #[verifier::type_invariant]
    spec fn valid(self) -> bool {
        consistent(self@.known)
    }

    /// Executes the given instance on the collection of files.
    ///
    /// Nothing is run here: the command lines that the scan calls for are
    /// handed back, in the order in which they are to be run.
    pub fn execute(&mut self, files: Vec<File>) -> (r: Result<Vec<String>, WitdErr>)
        ensures
            final(self)@.rule == old(self)@.rule,
            final(self)@.known == observed_all(old(self)@.known, files.deep_view()),
            consistent(final(self)@.known),
            r matches Ok(lines) && lines.deep_view() == dispatches(
                old(self)@.rule,
                old(self)@.known,
                files.deep_view(),
            ) && lines@.len() == dispatches(
                old(self)@.rule,
                old(self)@.known,
                files.deep_view(),
            ).len(),
    {
        let ghost scan = files.deep_view();
        let ghost rule = self@.rule;
        let ghost start = self@.known;
        proof {
            use_type_invariant(&*self);
            lemma_observed_all_consistent(start, scan);
        }
        // The map is filled outside the tracker and put back when the scan
        // is done: a tracker holds its invariant whenever it is handed on.
        let mut taken = Witd { command: self.command.clone(), files: StringHashMap::new() };
        core::mem::swap(self, &mut taken);
        let command = taken.command;
        let mut known = taken.files;
        let per_file = command.run_mode() == RunMode::File;
        let mut lines: Vec<String> = Vec::new();
        let mut execute_directory = false;
        let mut i: usize = 0;
        assert(scan.take(0) =~= Seq::<FileView>::empty());
        assert(lines.deep_view() =~= Seq::<Seq<char>>::empty());
        while i < files.len()
            invariant
                i <= files.len(),
                scan == files.deep_view(),
                command@ == rule,
                per_file == (rule.run_mode == RunMode::File),
                remembered(known@) == observed_all(start, scan.take(i as int)),
                execute_directory == (!per_file && triggered(start, scan.take(i as int)).len() > 0),
                per_file ==> lines.deep_view() == rendered_each(
                    rule,
                    triggered(start, scan.take(i as int)),
                ),
                !per_file ==> lines@.len() == 0,
            decreases files.len() - i,
        {
            let file = &files[i];
            proof {
                assert(scan.take(i + 1).drop_last() =~= scan.take(i as int));
                assert(scan.take(i + 1).last() == file@);
            }
            let should_execute = match Self::lookup(&known, file) {
                Some(existing) => existing.is_older(file),
                None => true,
            };
            if should_execute {
                Self::insert(&mut known, file.clone());
                if per_file {
                    let ghost before = lines.deep_view();
                    let line = command.execution(Some(file));
                    lines.push(line);
                    assert(lines.deep_view() =~= before.push(line@));
                    assert(rendered_each(rule, triggered(start, scan.take(i + 1)))
                        =~= rendered_each(rule, triggered(start, scan.take(i as int))).push(
                        rendered(rule, Some(file@)),
                    ));
                } else {
                    execute_directory = true;
                }
            }
            i += 1;
        }
        assert(scan.take(i as int) =~= scan);
        if execute_directory {
            let line = command.execution(None);
            lines.push(line);
            assert(lines.deep_view() =~= seq![line@]);
        } else if !per_file {
            assert(lines.deep_view() =~= Seq::<Seq<char>>::empty());
        }
        *self = Witd { command, files: known };
        Ok(lines)
    }

    /// Attempts to retrieve the given file: the descriptor that is
    /// remembered for its path.
    pub fn get_file(&self, file: &File) -> (r: Option<&File>)
        ensures
            match r {
                Some(existing) => self@.known.contains_key(file@.path) && existing@
                    == self@.known[file@.path] && existing@.path == file@.path,
                None => !self@.known.contains_key(file@.path),
            },
    {
        proof {
            use_type_invariant(self);
        }
        Self::lookup(&self.files, file)
    }

    /// Looks up what the files remember for the path of the given file.
    fn lookup<'a>(files: &'a StringHashMap<File>, file: &File) -> (r: Option<&'a File>)
        ensures
            match r {
                Some(existing) => remembered(files@).contains_key(file@.path) && existing@
                    == remembered(files@)[file@.path],
                None => !remembered(files@).contains_key(file@.path),
            },
    {
        files.get(file.path.as_str())
    }

    /// Inserts a file into the hashmap, under its own path.
    fn insert(files: &mut StringHashMap<File>, file: File)
        ensures
            remembered(final(files)@) == remembered(old(files)@).insert(file@.path, file@),
    {
        let ghost before = files@;
        let ghost path = file@.path;
        let ghost content = file@;
        files.insert(file.path.clone(), file);
        assert(remembered(files@) =~= remembered(before).insert(path, content));
    }

    /// Creates a tracker for the rule that has seen no file yet.
    pub fn new(command: Command) -> (r: Self)
        ensures
            r@.rule == command@,
            r@.known == Map::<Seq<char>, FileView>::empty(),
            consistent(r@.known),
    {
        let files = StringHashMap::<File>::new();
        assert(remembered(files@) =~= Map::<Seq<char>, FileView>::empty());
        Self { command, files }
    }
}

} // verus!
