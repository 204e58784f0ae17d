//! The mode selector: which result one invocation reports.

use vstd::prelude::*;

verus! {

/// What an invocation reports.
#[derive(Clone, Copy, Debug, PartialEq, Eq, Structural)]
pub enum Mode {
    /// The number of words alone.
    Words,
    /// The number of lines alone.
    Lines,
    /// The number of characters alone.
    Chars,
    /// The number of bytes alone.
    Bytes,
    /// The sum of the integers in the text.
    Sum,
    /// Lines, words, characters and bytes in one line, then the path if any.
    All,
}

/// The switches of the command line that ask for a mode.
#[derive(Clone, Copy, Debug, PartialEq, Eq, Structural)]
pub struct Flags {
    pub bytes: bool,
    pub chars: bool,
    pub lines: bool,
    pub words: bool,
    pub sum: bool,
}

impl Mode {
    /// The place of a mode in the order of precedence; the lowest wins.
    pub open spec fn rank(self) -> nat {
        match self {
            Mode::Words => 0,
            Mode::Lines => 1,
            Mode::Chars => 2,
            Mode::Bytes => 3,
            Mode::Sum => 4,
            Mode::All => 5,
        }
    }
}

impl Flags {
    /// Whether the switches allow `mode`: a single count or the sum when its
    /// switch is set, the full report in any case.
    pub open spec fn allows(self, mode: Mode) -> bool {
        match mode {
            Mode::Words => self.words,
            Mode::Lines => self.lines,
            Mode::Chars => self.chars,
            Mode::Bytes => self.bytes,
            Mode::Sum => self.sum,
            Mode::All => true,
        }
    }

    /// Whether `mode` is the one that the switches select: it is allowed, and
    /// no allowed mode comes before it.
    pub open spec fn selects(self, mode: Mode) -> bool {
        &&& self.allows(mode)
        &&& forall|other: Mode| #[trigger] self.allows(other) ==> mode.rank() <= other.rank()
    }

    /// The one mode that the switches select.
    pub open spec fn mode(self) -> Mode {
        choose|mode: Mode| self.selects(mode)
    }

    /// No switch set.
    pub fn none() -> (flags: Flags)
        ensures
            !flags.bytes && !flags.chars && !flags.lines && !flags.words && !flags.sum,
            flags.selects(Mode::All),
    {
        Flags { bytes: false, chars: false, lines: false, words: false, sum: false }
    }
}

/// Picks the one mode of an invocation. Of several switches the first in the
/// order words, lines, characters, bytes, sum wins; with none set the full
/// report is made.
pub fn select_mode(flags: Flags) -> (mode: Mode)
    ensures
        flags.selects(mode),
        mode == flags.mode(),
{
    proof {
        lemma_mode_by_precedence(flags);
    }
    if flags.words {
        Mode::Words
    } else if flags.lines {
        Mode::Lines
    } else if flags.chars {
        Mode::Chars
    } else if flags.bytes {
        Mode::Bytes
    } else if flags.sum {
        Mode::Sum
    } else {
        Mode::All
    }
}

/// The selected mode, switch by switch in the order of precedence.
pub proof fn lemma_mode_by_precedence(flags: Flags)
    ensures
        flags.selects(flags.mode()),
        flags.mode() == if flags.words {
            Mode::Words
        } else if flags.lines {
            Mode::Lines
        } else if flags.chars {
            Mode::Chars
        } else if flags.bytes {
            Mode::Bytes
        } else if flags.sum {
            Mode::Sum
        } else {
            Mode::All
        },
{
    let first = if flags.words {
        Mode::Words
    } else if flags.lines {
        Mode::Lines
    } else if flags.chars {
        Mode::Chars
    } else if flags.bytes {
        Mode::Bytes
    } else if flags.sum {
        Mode::Sum
    } else {
        Mode::All
    };
    assert(flags.selects(first));
    lemma_selection_unique(flags, first, flags.mode());
}

/// The switches select exactly one mode.
pub proof fn lemma_selection_unique(flags: Flags, a: Mode, b: Mode)
    requires
        flags.selects(a),
        flags.selects(b),
    ensures
        a == b,
{
    assert(a.rank() <= b.rank());
    assert(b.rank() <= a.rank());
}

} // verus!
