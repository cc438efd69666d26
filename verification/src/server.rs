//! The server startup command: builds the orchestrator with its configured
//! mailbox capacity and runs the sequenced bulk load of the startup sources.

use vstd::prelude::*;
use crate::errors::{Error, ErrorV};
use crate::loader::{ConfigSource, load_all, load_t};
use crate::world::{World, WorldV, world_wf, init_world};

verus! {

/// The configuration of one server run: the mailbox capacity (required, and
/// positive) and the startup sources, already decoded from their files.
#[derive(Debug)]
pub struct ServerRun {
    pub mailbox_capacity: usize,
    pub sources: Vec<ConfigSource>,
}

/// The server subcommand.
#[derive(Debug)]
pub enum ServerCommand {
    Run(ServerRun),
}

impl ServerRun {
    /// Startup: a fresh orchestrator is loaded from the sources, dataflow
    /// descriptions first. Any failure abandons the startup and reports the
    /// offending file; no partially started world is handed out.
    pub fn run(&self) -> (r: Result<World, Error>)
        requires
            self.mailbox_capacity >= 1,
        ensures
            match r {
                Ok(w) => world_wf(w@) && load_t(
                    init_world(self.mailbox_capacity as int),
                    self.sources.deep_view(),
                ) == Ok::<WorldV, ErrorV>(w@),
                Err(e) => load_t(
                    init_world(self.mailbox_capacity as int),
                    self.sources.deep_view(),
                ) == Err::<WorldV, ErrorV>(e@),
            },
    {
        let mut world = World::new(self.mailbox_capacity);
        match load_all(&mut world, &self.sources) {
            Ok(()) => Ok(world),
            Err(e) => Err(e),
        }
    }
}

impl ServerCommand {
    /// Dispatches the subcommand.
    pub fn run(&self) -> (r: Result<World, Error>)
        requires
            (match self {
                ServerCommand::Run(c) => c.mailbox_capacity >= 1,
            }),
        ensures
            (match self {
                ServerCommand::Run(c) => match r {
                    Ok(w) => world_wf(w@) && load_t(
                        init_world(c.mailbox_capacity as int),
                        c.sources.deep_view(),
                    ) == Ok::<WorldV, ErrorV>(w@),
                    Err(e) => load_t(
                        init_world(c.mailbox_capacity as int),
                        c.sources.deep_view(),
                    ) == Err::<WorldV, ErrorV>(e@),
                },
            }),
    {
        match self {
            ServerCommand::Run(c) => c.run(),
        }
    }
}

} // verus!
