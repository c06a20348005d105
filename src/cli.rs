//! The command surface: one command per engine operation.
use vstd::prelude::*;
use crate::engine::{
    add_spec, listed, remove_spec, rendered, Action, DefaultEngine, Engine, Handshakable, Listing,
};
use crate::text::texts;

verus! {

/// A parsed command line.
pub struct Jim {
    pub command: Commands,
}

/// The commands of the tool.
pub enum Commands {
    /// Adds templates that are not active yet.
    Add { names: Vec<String> },
    /// Lists the active templates, or with `all` their pattern lines.
    List { all: bool },
    /// Drops templates, or with `all` removes the whole file.
    Delete { all: bool, names: Vec<String> },
    /// Tells whether a template is active.
    Search { query: String },
    /// Regenerates the file from the active templates.
    Update,
}

/// What running a command leaves to do or to show.
pub enum Outcome {
    /// The managed file is to be written or removed.
    Changed(Action),
    /// Lines to show, and the content to write afterwards.
    Listed(Listing),
    /// Whether the searched template is active.
    Found(bool),
}

/// Runs `command` on `engine`, with template content from `resolver`.
pub fn dispatch<E: Engine>(engine: &mut DefaultEngine, command: Commands, resolver: &E) -> (r:
    Result<Outcome, String>)
    ensures
        match command {
            Commands::Add { names } => final(engine)@ == add_spec(old(engine)@, texts(names@)) && (
            r matches Ok(o) ==> (o matches Outcome::Changed(Action::Write(c)) && rendered(
                resolver,
                final(engine)@,
                c@,
            ))) && (r matches Err(e) ==> resolver.refuses(final(engine)@, e@)),
            Commands::List { all } => final(engine)@ == old(engine)@ && (r matches Ok(o) ==> (
            o matches Outcome::Listed(l) && listed(
                resolver,
                final(engine)@,
                all,
                texts(l.shown@),
                l.content@,
            ))) && (r matches Err(e) ==> resolver.refuses(final(engine)@, e@)),
            Commands::Delete { all, names } => (all ==> (final(engine)@ == old(engine)@
                && r matches Ok(Outcome::Changed(Action::Remove)))) && (!all ==> final(engine)@
                == remove_spec(old(engine)@, texts(names@)) && (r matches Ok(o) ==> (
            o matches Outcome::Changed(Action::Write(c)) && rendered(
                resolver,
                final(engine)@,
                c@,
            ))) && (r matches Err(e) ==> resolver.refuses(final(engine)@, e@))),
            Commands::Search { query } => final(engine)@ == old(engine)@ && (r matches Ok(
                Outcome::Found(b),
            ) && b == old(engine)@.contains(query@)),
            Commands::Update => final(engine)@ == old(engine)@ && (r matches Ok(o) ==> (
            o matches Outcome::Changed(Action::Write(c)) && rendered(
                resolver,
                final(engine)@,
                c@,
            ))) && (r matches Err(e) ==> resolver.refuses(final(engine)@, e@)),
        },
{
    match command {
        Commands::Add { names } => match engine.add(names, resolver) {
            Ok(a) => Ok(Outcome::Changed(a)),
            Err(e) => Err(e),
        },
        Commands::List { all } => match engine.list(all, resolver) {
            Ok(l) => Ok(Outcome::Listed(l)),
            Err(e) => Err(e),
        },
        Commands::Delete { all, names } => match engine.delete(all, names, resolver) {
            Ok(a) => Ok(Outcome::Changed(a)),
            Err(e) => Err(e),
        },
        Commands::Search { query } => Ok(Outcome::Found(engine.search(query))),
        Commands::Update => match engine.update(resolver) {
            Ok(a) => Ok(Outcome::Changed(a)),
            Err(e) => Err(e),
        },
    }
}

} // verus!
