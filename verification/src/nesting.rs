//! How deep the lists and records of a structured text are nested. A reader
//! that descends once per level needs room for every level; a text is
//! handed to such a reader only where its nesting has a bound.

use vstd::prelude::*;

verus! {

/// What a walk over a structured text knows: how many lists and records
/// are open, how many were open at most, whether it is inside a quoted
/// text, and whether the next byte of the quoted text is escaped.
pub struct Nest {
    pub depth: nat,
    pub deepest: nat,
    pub quoted: bool,
    pub escaped: bool,
}

/// The walk before the first byte.
pub open spec fn nest_start() -> Nest {
    Nest { depth: 0, deepest: 0, quoted: false, escaped: false }
}

/// The walk after one more byte. Outside quoted text a bracket or a brace
/// opens or closes a level and a double quote opens a quoted text; inside,
/// a backslash escapes the next byte and a double quote that is not escaped
/// closes the text.
pub open spec fn nest_step(s: Nest, b: u8) -> Nest {
    if s.quoted {
        if s.escaped {
            Nest { depth: s.depth, deepest: s.deepest, quoted: true, escaped: false }
        } else if b == 92 {
            Nest { depth: s.depth, deepest: s.deepest, quoted: true, escaped: true }
        } else if b == 34 {
            Nest { depth: s.depth, deepest: s.deepest, quoted: false, escaped: false }
        } else {
            s
        }
    } else if b == 34 {
        Nest { depth: s.depth, deepest: s.deepest, quoted: true, escaped: false }
    } else if b == 91 || b == 123 {
        Nest {
            depth: s.depth + 1,
            deepest: if s.deepest < s.depth + 1 {
                s.depth + 1
            } else {
                s.deepest
            },
            quoted: false,
            escaped: false,
        }
    } else if b == 93 || b == 125 {
        Nest {
            depth: if s.depth > 0 {
                (s.depth - 1) as nat
            } else {
                0
            },
            deepest: s.deepest,
            quoted: false,
            escaped: false,
        }
    } else {
        s
    }
}

/// The walk after the bytes.
pub open spec fn nest_scan(bytes: Seq<u8>) -> Nest
    decreases bytes.len(),
{
    if bytes.len() == 0 {
        nest_start()
    } else {
        nest_step(nest_scan(bytes.drop_last()), bytes.last())
    }
}

/// The largest number of lists and records that are open at one place of a
/// structured text.
pub open spec fn nesting(bytes: Seq<u8>) -> nat {
    nest_scan(bytes).deepest
}

/// The deepest nesting of a structured text that is handed to a reader.
pub const MAX_NESTING: usize = 64;

/// Whether the lists and records of a structured text are nested no deeper
/// than `limit`.
pub fn nests_within(bytes: &Vec<u8>, limit: usize) -> (ok: bool)
    ensures
        ok == (nesting(bytes@) <= limit),
{
    let mut depth: usize = 0;
    let mut deepest: usize = 0;
    let mut quoted: bool = false;
    let mut escaped: bool = false;
    let mut i: usize = 0;
    assert(bytes@.take(0) =~= Seq::<u8>::empty());
    while i < bytes.len()
        invariant
            i <= bytes.len(),
            depth <= i,
            deepest <= i,
            !quoted ==> !escaped,
            nest_scan(bytes@.take(i as int)) == (Nest {
                depth: depth as nat,
                deepest: deepest as nat,
                quoted,
                escaped,
            }),
        decreases bytes.len() - i,
    {
        let b: u8 = bytes[i];
        proof {
            let next = bytes@.take(i + 1);
            assert(next.drop_last() =~= bytes@.take(i as int));
            assert(next.last() == b);
        }
        if quoted {
            if escaped {
                escaped = false;
            } else if b == 92 {
                escaped = true;
            } else if b == 34 {
                quoted = false;
            }
        } else if b == 34 {
            quoted = true;
        } else if b == 91 || b == 123 {
            depth += 1;
            if deepest < depth {
                deepest = depth;
            }
        } else if b == 93 || b == 125 {
            if depth > 0 {
                depth -= 1;
            }
        }
        i += 1;
    }
    assert(bytes@.take(bytes.len() as int) =~= bytes@);
    deepest <= limit
}

} // verus!
