//! Log severity levels.
use vstd::prelude::*;

verus! {

/// Severity of a log record, most severe first.
#[derive(Clone, Copy, Debug, PartialEq, Eq, Structural, PartialOrd, Ord, Hash)]
pub enum Level {
    Error,
    Warn,
    Info,
    Debug,
    Trace,
}

impl Level {
    /// The wire byte of each level.
    pub open spec fn spec_to_u8(self) -> u8 {
        match self {
            Level::Error => 1,
            Level::Warn => 2,
            Level::Info => 3,
            Level::Debug => 4,
            Level::Trace => 5,
        }
    }

    /// The level a wire byte stands for, if any.
    pub open spec fn spec_from_u8(b: u8) -> Option<Level> {
        if b == 1 {
            Some(Level::Error)
        } else if b == 2 {
            Some(Level::Warn)
        } else if b == 3 {
            Some(Level::Info)
        } else if b == 4 {
            Some(Level::Debug)
        } else if b == 5 {
            Some(Level::Trace)
        } else {
            None
        }
    }

    /// The upper-case name the line pattern renders.
    pub open spec fn spec_name(self) -> Seq<u8> {
        match self {
            Level::Error => seq![69u8, 82, 82, 79, 82],
            Level::Warn => seq![87u8, 65, 82, 78],
            Level::Info => seq![73u8, 78, 70, 79],
            Level::Debug => seq![68u8, 69, 66, 85, 71],
            Level::Trace => seq![84u8, 82, 65, 67, 69],
        }
    }

    pub fn to_u8(self) -> (b: u8)
        ensures
            b == self.spec_to_u8(),
    {
        match self {
            Level::Error => 1,
            Level::Warn => 2,
            Level::Info => 3,
            Level::Debug => 4,
            Level::Trace => 5,
        }
    }

    pub fn from_u8(b: u8) -> (r: Option<Level>)
        ensures
            r == Level::spec_from_u8(b),
    {
        if b == 1 {
            Some(Level::Error)
        } else if b == 2 {
            Some(Level::Warn)
        } else if b == 3 {
            Some(Level::Info)
        } else if b == 4 {
            Some(Level::Debug)
        } else if b == 5 {
            Some(Level::Trace)
        } else {
            None
        }
    }

    /// The upper-case name of the level, as bytes.
    pub fn name(self) -> (s: Vec<u8>)
        ensures
            s@ == self.spec_name(),
    {
        let s = match self {
            Level::Error => vec![69u8, 82, 82, 79, 82],
            Level::Warn => vec![87u8, 65, 82, 78],
            Level::Info => vec![73u8, 78, 70, 79],
            Level::Debug => vec![68u8, 69, 66, 85, 71],
            Level::Trace => vec![84u8, 82, 65, 67, 69],
        };
        proof {
            assert(s@ =~= self.spec_name());
        }
        s
    }
}

/// Decoding a level's own byte gives the level back.
pub proof fn lemma_level_roundtrip(l: Level)
    ensures
        Level::spec_from_u8(l.spec_to_u8()) == Some(l),
{
}

} // verus!
