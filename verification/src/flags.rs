//! The flags that a host sets on a pattern.

use vstd::prelude::*;
use vstd::string::StringSliceAdditionalSpecFns;

verus! {

/// What the single-character flags `gimsUux` switch on.
#[derive(Clone, Copy, Debug, PartialEq, Eq, Structural)]
pub struct Flags {
    /// `g`: every match, not only the first
    pub global: bool,
    /// `i`: letters match both cases
    pub case_insensitive: bool,
    /// `m`: `^` and `$` match at line boundaries
    pub multi_line: bool,
    /// `s`: `.` matches a line feed
    pub dot_matches_new_line: bool,
    /// `U`: `a*` is lazy and `a*?` is greedy
    pub swap_greed: bool,
    /// `u`: character classes know Unicode
    pub unicode: bool,
    /// `x`: white space in the pattern is ignored, `#` starts a comment
    pub ignore_whitespace: bool,
}

/// Whether `byte` is one of the flags `gimsUux`.
pub open spec fn is_flag(byte: u8) -> bool {
    byte == 0x67 || byte == 0x69 || byte == 0x6d || byte == 0x73 || byte == 0x55 || byte == 0x75
        || byte == 0x78
}

/// Whether every character of a flag string is a flag.
pub open spec fn flags_valid(bytes: Seq<u8>) -> bool {
    forall|i: int| 0 <= i < bytes.len() ==> is_flag(#[trigger] bytes[i])
}

/// What a flag string switches on: each flag that stands in it, however
/// often.
pub open spec fn flags_of(bytes: Seq<u8>) -> Flags {
    Flags {
        global: bytes.contains(0x67),
        case_insensitive: bytes.contains(0x69),
        multi_line: bytes.contains(0x6d),
        dot_matches_new_line: bytes.contains(0x73),
        swap_greed: bytes.contains(0x55),
        unicode: bytes.contains(0x75),
        ignore_whitespace: bytes.contains(0x78),
    }
}

impl Default for Flags {
    fn default() -> (flags: Self)
        ensures
            flags == flags_of(Seq::empty()),
    {
        Flags {
            global: false,
            case_insensitive: false,
            multi_line: false,
            dot_matches_new_line: false,
            swap_greed: false,
            unicode: false,
            ignore_whitespace: false,
        }
    }
}

impl Flags {
    /// Read a flag string: `None` where a character of it is no flag.
    pub fn parse(flags: &str) -> (parsed: Option<Self>)
        ensures
            parsed is Some <==> flags_valid(flags.spec_bytes()),
            parsed matches Some(set) ==> set == flags_of(flags.spec_bytes()),
    {
        let bytes = flags.as_bytes();
        let mut set = Flags::default();
        let mut i: usize = 0;
        while i < bytes.len()
            invariant
                bytes@ == flags.spec_bytes(),
                i <= bytes@.len(),
                flags_valid(bytes@.take(i as int)),
                set == flags_of(bytes@.take(i as int)),
            decreases bytes@.len() - i,
        {
            let flag = bytes[i];
            proof {
                let before = bytes@.take(i as int);
                let upto = bytes@.take(i + 1);
                assert(upto =~= before.push(flag));
                assert forall|b: u8| upto.contains(b) <==> (before.contains(b) || b == flag) by {
                    if before.contains(b) {
                        let j = choose|j: int| 0 <= j < before.len() && before[j] == b;
                        assert(upto[j] == b);
                    }
                    if b == flag {
                        assert(upto[i as int] == b);
                    }
                }
            }
            if flag == 0x67 {
                set.global = true;
            } else if flag == 0x69 {
                set.case_insensitive = true;
            } else if flag == 0x6d {
                set.multi_line = true;
            } else if flag == 0x73 {
                set.dot_matches_new_line = true;
            } else if flag == 0x55 {
                set.swap_greed = true;
            } else if flag == 0x75 {
                set.unicode = true;
            } else if flag == 0x78 {
                set.ignore_whitespace = true;
            } else {
                proof {
                    assert(!is_flag(bytes@[i as int]));
                }
                return None;
            }
            i = i + 1;
        }
        proof {
            assert(bytes@.take(i as int) =~= bytes@);
        }
        Some(set)
    }
}

} // verus!
