//! The command-line surface and the portal's query values, as plain data with
//! the rules that fill in their defaults.

use vstd::prelude::*;

use crate::registry::{fallback_worker_name, random_uuid_text, Worker};
use crate::server::{ServerConfig, DEFAULT_TILES};

verus! {

/// Port the coordinator listens on unless told otherwise.
pub const DEFAULT_PORT: u16 = 8787;

/// Canvas width and height unless told otherwise.
pub const DEFAULT_CANVAS: u16 = 800;

/// Work load a worker announces unless told otherwise.
pub const DEFAULT_WORK_LOAD: u32 = 500;

/// Verbosity of the log.
#[derive(Debug, Clone, Copy, PartialEq, Eq, Structural)]
pub enum LogLevel {
    Error,
    Warn,
    Info,
    Debug,
    Trace,
}

/// Options of the `server` subcommand.
#[derive(Debug)]
pub struct ServerCommand {
    pub address: Option<String>,
    pub port: Option<u16>,
    pub width: Option<u16>,
    pub height: Option<u16>,
    pub tiles: Option<u16>,
    pub graphics: Option<bool>,
    pub portal: bool,
    pub log_level: Option<LogLevel>,
}

/// Options of the `worker` subcommand.
#[derive(Debug)]
pub struct WorkerCommand {
    pub name: Option<String>,
    pub address: Option<String>,
    pub port: Option<u16>,
    pub maximal_work_load: Option<u32>,
    pub count: Option<u32>,
}

/// The two ways to run the program.
#[derive(Debug)]
pub enum Commands {
    Server(ServerCommand),
    Worker(WorkerCommand),
}

/// The portal's query of a direction to move or cycle in.
#[derive(Debug)]
pub struct DirectionQuery {
    pub direction: String,
}

/// A direction on the screen.
#[derive(Debug, Clone, Copy, PartialEq, Eq, Structural)]
pub enum Direction {
    Top,
    Right,
    Bottom,
    Left,
}

/// What `str::to_lowercase` makes of a string.
pub uninterp spec fn lower_of(s: Seq<char>) -> Seq<char>;

/// Relies on str::to_lowercase: the lowercase form of `s`, which depends on
/// its characters alone.
#[verifier::external_body]
fn lowercase(s: &str) -> (r: String)
    ensures
        r@ == lower_of(s@),
{
    s.to_lowercase()
}

/// The text `s` if given, else `default`.
fn text_or(s: Option<String>, default: &str) -> (r: String)
    ensures
        r@ == match s {
            Some(v) => v@,
            None => default@,
        },
{
    match s {
        Some(v) => v,
        None => String::from_str(default),
    }
}

/// The direction that an already lowercased word names, if any.
pub fn direction_of_lower(word: &str) -> (r: Option<Direction>)
    ensures
        r == (if word@ == "top"@ {
            Some(Direction::Top)
        } else if word@ == "right"@ {
            Some(Direction::Right)
        } else if word@ == "bottom"@ {
            Some(Direction::Bottom)
        } else if word@ == "left"@ {
            Some(Direction::Left)
        } else {
            None
        }),
{
    let w = String::from_str(word);
    let top = String::from_str("top");
    let right = String::from_str("right");
    let bottom = String::from_str("bottom");
    let left = String::from_str("left");
    if w == top {
        Some(Direction::Top)
    } else if w == right {
        Some(Direction::Right)
    } else if w == bottom {
        Some(Direction::Bottom)
    } else if w == left {
        Some(Direction::Left)
    } else {
        None
    }
}

impl DirectionQuery {
    /// The direction the query names, ignoring case.
    pub fn parse(&self) -> (r: Option<Direction>)
        ensures
            r == (if lower_of(self.direction@) == "top"@ {
                Some(Direction::Top)
            } else if lower_of(self.direction@) == "right"@ {
                Some(Direction::Right)
            } else if lower_of(self.direction@) == "bottom"@ {
                Some(Direction::Bottom)
            } else if lower_of(self.direction@) == "left"@ {
                Some(Direction::Left)
            } else {
                None
            }),
    {
        let lower = lowercase(self.direction.as_str());
        direction_of_lower(lower.as_str())
    }
}

impl ServerCommand {
    /// The coordinator settings these options ask for: `0.0.0.0:8787`, an
    /// 800 × 800 canvas cut four times per axis, with graphics and without the
    /// portal, wherever an option is not given.
    pub fn into_config(self) -> (r: ServerConfig)
        ensures
            r.address@ == (match self.address {
                Some(a) => a@,
                None => "0.0.0.0"@,
            }),
            r.port == (match self.port {
                Some(p) => p,
                None => DEFAULT_PORT,
            }),
            r.width == (match self.width {
                Some(w) => w,
                None => DEFAULT_CANVAS,
            }),
            r.height == (match self.height {
                Some(h) => h,
                None => DEFAULT_CANVAS,
            }),
            r.tiles == (match self.tiles {
                Some(t) => t,
                None => DEFAULT_TILES,
            }),
            r.graphics == (match self.graphics {
                Some(g) => g,
                None => true,
            }),
            r.portal == self.portal,
    {
        ServerConfig {
            address: text_or(self.address, "0.0.0.0"),
            port: match self.port {
                Some(p) => p,
                None => DEFAULT_PORT,
            },
            width: match self.width {
                Some(w) => w,
                None => DEFAULT_CANVAS,
            },
            height: match self.height {
                Some(h) => h,
                None => DEFAULT_CANVAS,
            },
            tiles: match self.tiles {
                Some(t) => t,
                None => DEFAULT_TILES,
            },
            graphics: match self.graphics {
                Some(g) => g,
                None => true,
            },
            portal: self.portal,
        }
    }
}

impl WorkerCommand {
    /// Number of worker loops to run: one unless told otherwise.
    pub fn loops(&self) -> (r: u32)
        ensures
            r == (match self.count {
                Some(c) => c,
                None => 1u32,
            }),
    {
        match self.count {
            Some(c) => c,
            None => 1,
        }
    }

    /// The worker these options describe, with `generated` as the name where
    /// none is given: `localhost:8787` and a work load of 500 by default.
    pub fn worker_named(self, generated: String) -> (r: Worker)
        ensures
            r.name@ == (match self.name {
                Some(n) => n@,
                None => generated@,
            }),
            r.address@ == (match self.address {
                Some(a) => a@,
                None => "localhost"@,
            }),
            r.port == (match self.port {
                Some(p) => p,
                None => DEFAULT_PORT,
            }),
            r.maximal_work_load == (match self.maximal_work_load {
                Some(m) => m,
                None => DEFAULT_WORK_LOAD,
            }),
    {
        let name = match self.name {
            Some(n) => n,
            None => generated,
        };
        Worker::new(
            name,
            match self.maximal_work_load {
                Some(m) => m,
                None => DEFAULT_WORK_LOAD,
            },
            text_or(self.address, "localhost"),
            match self.port {
                Some(p) => p,
                None => DEFAULT_PORT,
            },
        )
    }

    /// The worker these options describe, named `worker-` and a fresh random
    /// identifier where no name is given.
    pub fn into_worker(self) -> (r: Worker)
        ensures
            self.name is Some ==> r.name@ == self.name->Some_0@,
            self.name is None ==> r.name@.len() == 43 && r.name@.subrange(0, 7) == "worker-"@,
            r.address@ == (match self.address {
                Some(a) => a@,
                None => "localhost"@,
            }),
            r.port == (match self.port {
                Some(p) => p,
                None => DEFAULT_PORT,
            }),
            r.maximal_work_load == (match self.maximal_work_load {
                Some(m) => m,
                None => DEFAULT_WORK_LOAD,
            }),
    {
        let generated = match &self.name {
            Some(_) => String::new(),
            None => {
                let id = random_uuid_text();
                fallback_worker_name(id.as_str())
            },
        };
        proof {
            reveal_strlit("worker-");
            assert(self.name is None ==> generated@.subrange(0, 7) =~= "worker-"@);
        }
        self.worker_named(generated)
    }
}

} // verus!
