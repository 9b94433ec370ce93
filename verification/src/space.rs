//! Where a coordinate is measured from, and what units it is in.
//!
//! These are two independent questions and the CLI spells them as two
//! flags: an origin says which corner `(0, 0)` is; units say whether one
//! step is a device pixel or a logical point.

use vstd::prelude::*;

verus! {

/// The name an origin carries in JSON output.
pub open spec fn origin_label(o: Origin) -> Seq<char> {
    match o {
        Origin::Global => "global"@,
        Origin::Monitor(_) => "monitor"@,
        Origin::Window => "window"@,
    }
}

/// Which origin a coordinate is measured from.
#[derive(Debug, Clone, Copy, PartialEq, Eq, Structural)]
pub enum Origin {
    /// The desktop's own grid: `global_px`.
    Global,
    /// One monitor's top-left, by its index in the session: `px`.
    Monitor(usize),
    /// The `--target` window's top-left: `window_px`.
    Window,
}

impl Origin {
    /// The name this origin carries in JSON output.
    pub fn label(self) -> (r: &'static str)
        ensures
            r@ == origin_label(self),
    {
        match self {
            Origin::Global => "global",
            Origin::Monitor(_) => "monitor",
            Origin::Window => "window",
        }
    }
}

/// The OS a coordinate will be handed to. Passed as a value so the
/// library stays platform-free.
#[derive(Debug, Clone, Copy, PartialEq, Eq, Structural)]
pub enum Platform {
    MacOs,
    Windows,
    Linux,
}

/// The units a coordinate is expressed in, as spelled on the CLI.
#[derive(Debug, Clone, Copy, PartialEq, Eq, Structural)]
pub enum Units {
    Physical,
    Logical,
    /// Whatever this platform's input APIs expect.
    Auto,
}

/// `Units` with `Auto` already answered — the only thing the arithmetic
/// accepts.
#[derive(Debug, Clone, Copy, PartialEq, Eq, Structural)]
pub enum Resolved {
    Physical,
    Logical,
}

impl Units {
    /// macOS input APIs speak logical points; Windows and X11 speak
    /// physical pixels. An explicit unit ignores the platform.
    pub fn resolve(self, platform: Platform) -> (r: Resolved)
        ensures
            r == match self {
                Units::Physical => Resolved::Physical,
                Units::Logical => Resolved::Logical,
                Units::Auto => if platform == Platform::MacOs {
                    Resolved::Logical
                } else {
                    Resolved::Physical
                },
            },
    {
        match self {
            Units::Physical => Resolved::Physical,
            Units::Logical => Resolved::Logical,
            Units::Auto => match platform {
                Platform::MacOs => Resolved::Logical,
                Platform::Windows | Platform::Linux => Resolved::Physical,
            },
        }
    }
}

impl Resolved {
    /// The name these units carry in JSON output.
    pub fn label(self) -> (r: &'static str)
        ensures
            r@ == match self {
                Resolved::Physical => "physical"@,
                Resolved::Logical => "logical"@,
            },
    {
        match self {
            Resolved::Physical => "physical",
            Resolved::Logical => "logical",
        }
    }
}

} // verus!
