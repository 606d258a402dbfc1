//! Rendering UUIDs and errors as text.
//!
//! A UUID prints as the usual lowercase hyphenated form, thirty-two hex
//! digits in groups of 8-4-4-4-12; an error prints as the task database's
//! one-line message.

use crate::types::{Error, Uuid};
use vstd::prelude::*;

verus! {

/// The hex digit character for `d` below 16.
pub open spec fn hex_char_of(d: u128) -> char {
    if d == 0 {
        '0'
    } else if d == 1 {
        '1'
    } else if d == 2 {
        '2'
    } else if d == 3 {
        '3'
    } else if d == 4 {
        '4'
    } else if d == 5 {
        '5'
    } else if d == 6 {
        '6'
    } else if d == 7 {
        '7'
    } else if d == 8 {
        '8'
    } else if d == 9 {
        '9'
    } else if d == 10 {
        'a'
    } else if d == 11 {
        'b'
    } else if d == 12 {
        'c'
    } else if d == 13 {
        'd'
    } else if d == 14 {
        'e'
    } else {
        'f'
    }
}

/// The `i`-th hex digit of `v`, counting from the most significant.
pub open spec fn nibble(v: u128, i: int) -> u128 {
    (v >> (((31 - i) * 4) as u128)) & 0xf
}

/// All thirty-two hex digits of `v`, most significant first.
pub open spec fn hex_seq(v: u128) -> Seq<char> {
    Seq::new(32, |i: int| hex_char_of(nibble(v, i)))
}

/// The hyphenated rendering of a UUID value.
pub open spec fn uuid_chars(v: u128) -> Seq<char> {
    let h = hex_seq(v);
    h.subrange(0, 8) + seq!['-'] + h.subrange(8, 12) + seq!['-'] + h.subrange(12, 16)
        + seq!['-'] + h.subrange(16, 20) + seq!['-'] + h.subrange(20, 32)
}

/// The message of a rejected operation.
pub open spec fn error_chars(e: Error) -> Seq<char> {
    match e {
        Error::CreateExists { uuid } => "Task Database Error: Task "@ + uuid_chars(uuid.v)
            + " already exists"@,
        Error::DoesNotExist { uuid } => "Task Database Error: Task "@ + uuid_chars(uuid.v)
            + " does not exist"@,
    }
}

/// A nibble is below 16.
proof fn lemma_nibble_bound(v: u128, sh: u128)
    ensures
        ((v >> sh) & 0xf) < 16,
{
    assert(((v >> sh) & 0xf) < 16) by (bit_vector);
}

/// The one-character string for a hex digit.
fn hex_char_str(d: u8) -> (r: &'static str)
    requires
        d < 16,
    ensures
        r@ =~= seq![hex_char_of(d as u128)],
{
    match d {
        0 => {
            proof {
                reveal_strlit("0");
            }
            "0"
        },
        1 => {
            proof {
                reveal_strlit("1");
            }
            "1"
        },
        2 => {
            proof {
                reveal_strlit("2");
            }
            "2"
        },
        3 => {
            proof {
                reveal_strlit("3");
            }
            "3"
        },
        4 => {
            proof {
                reveal_strlit("4");
            }
            "4"
        },
        5 => {
            proof {
                reveal_strlit("5");
            }
            "5"
        },
        6 => {
            proof {
                reveal_strlit("6");
            }
            "6"
        },
        7 => {
            proof {
                reveal_strlit("7");
            }
            "7"
        },
        8 => {
            proof {
                reveal_strlit("8");
            }
            "8"
        },
        9 => {
            proof {
                reveal_strlit("9");
            }
            "9"
        },
        10 => {
            proof {
                reveal_strlit("a");
            }
            "a"
        },
        11 => {
            proof {
                reveal_strlit("b");
            }
            "b"
        },
        12 => {
            proof {
                reveal_strlit("c");
            }
            "c"
        },
        13 => {
            proof {
                reveal_strlit("d");
            }
            "d"
        },
        14 => {
            proof {
                reveal_strlit("e");
            }
            "e"
        },
        _ => {
            proof {
                reveal_strlit("f");
            }
            "f"
        },
    }
}

/// Append hex digits `from..to` of `v`.
fn append_hex_range(r: &mut String, v: u128, from: usize, to: usize)
    requires
        from <= to <= 32,
    ensures
        final(r)@ == old(r)@ + hex_seq(v).subrange(from as int, to as int),
{
    let ghost r0 = r@;
    let mut i: usize = from;
    proof {
        assert(r0 + hex_seq(v).subrange(from as int, from as int) =~= r0);
    }
    while i < to
        invariant
            from <= i <= to,
            to <= 32,
            r@ == r0 + hex_seq(v).subrange(from as int, i as int),
        decreases to - i,
    {
        let sh: u128 = ((31 - i) * 4) as u128;
        proof {
            lemma_nibble_bound(v, sh);
        }
        let d: u128 = (v >> sh) & 0xf;
        r.append(hex_char_str(d as u8));
        proof {
            assert(nibble(v, i as int) == d);
            assert(hex_seq(v)[i as int] == hex_char_of(d));
            assert((d as u8) as u128 == d);
            assert(r0 + hex_seq(v).subrange(from as int, i + 1) =~= (r0 + hex_seq(v).subrange(
                from as int,
                i as int,
            )) + seq![hex_char_of(d)]);
        }
        i = i + 1;
    }
}

/// Append one hyphen.
fn append_dash(r: &mut String)
    ensures
        final(r)@ == old(r)@ + seq!['-'],
{
    proof {
        reveal_strlit("-");
    }
    r.append("-");
}

/// The lowercase hyphenated text of a UUID.
pub fn uuid_string(u: &Uuid) -> (r: String)
    ensures
        r@ == uuid_chars(u.v),
{
    let v = u.v;
    let mut r = String::new();
    append_hex_range(&mut r, v, 0, 8);
    append_dash(&mut r);
    append_hex_range(&mut r, v, 8, 12);
    append_dash(&mut r);
    append_hex_range(&mut r, v, 12, 16);
    append_dash(&mut r);
    append_hex_range(&mut r, v, 16, 20);
    append_dash(&mut r);
    append_hex_range(&mut r, v, 20, 32);
    proof {
        assert(r@ =~= uuid_chars(v));
    }
    r
}

impl Error {
    /// The one-line message naming the task and what went wrong.
    pub fn message(&self) -> (r: String)
        ensures
            r@ == error_chars(*self),
    {
        match self {
            Error::CreateExists { uuid } => {
                let mut r = String::from_str("Task Database Error: Task ");
                let us = uuid_string(uuid);
                r.append(us.as_str());
                r.append(" already exists");
                proof {
                    assert(r@ =~= error_chars(*self));
                }
                r
            },
            Error::DoesNotExist { uuid } => {
                let mut r = String::from_str("Task Database Error: Task ");
                let us = uuid_string(uuid);
                r.append(us.as_str());
                r.append(" does not exist");
                proof {
                    assert(r@ =~= error_chars(*self));
                }
                r
            },
        }
    }
}

} // verus!
