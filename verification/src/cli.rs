//! Configuration choices: which player variant to run and which ingestion
//! driver produces the floor plans. The surrounding program parses its
//! arguments into these values.

use vstd::prelude::*;

verus! {

/// The parsed command line.
pub struct Cli {
    pub player: Option<PlayerType>,
    pub room_generator: Option<RoomGeneratorType>,
    pub generator_poll_secs: Option<u8>,
}

/// Which player variant to run.
#[derive(Clone, Copy, Debug, PartialEq, Eq, Structural)]
pub enum PlayerType {
    Demo1,
    Player1,
}

impl Default for PlayerType {
    /// The demo player.
    fn default() -> (r: PlayerType)
        ensures
            r == PlayerType::Demo1,
    {
        PlayerType::Demo1
    }
}

/// Which ingestion driver produces the floor plans.
#[derive(Clone, Copy, Debug, PartialEq, Eq, Structural)]
pub enum RoomGeneratorType {
    Rooms2,
    Rooms5,
    Rooms25,
    K8sFile,
    K8sLive,
}

impl Default for RoomGeneratorType {
    /// The five-room synthetic world.
    fn default() -> (r: RoomGeneratorType)
        ensures
            r == RoomGeneratorType::Rooms5,
    {
        RoomGeneratorType::Rooms5
    }
}

} // verus!
