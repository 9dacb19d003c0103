//! Eight-digit binary rendering of a cell's packed value.
//!
//! A cell's state fits one byte: the alive flag in the lowest bit and the
//! neighbor count in the four bits above it. With a count of at most 8 the
//! packed value is at most 17, so the rendering enumerates those values.

use vstd::prelude::*;

verus! {

/// The binary digit of `b` at the place with value `place` (128, 64, ..., 1).
pub open spec fn bit_char(b: int, place: int) -> char {
    if (b / place) % 2 == 1 {
        '1'
    } else {
        '0'
    }
}

/// The eight binary digits of `b`, most significant first.
pub open spec fn byte_bits(b: int) -> Seq<char> {
    seq![
        bit_char(b, 128),
        bit_char(b, 64),
        bit_char(b, 32),
        bit_char(b, 16),
        bit_char(b, 8),
        bit_char(b, 4),
        bit_char(b, 2),
        bit_char(b, 1),
    ]
}

/// Renders a packed cell value as its eight binary digits.
pub fn byte_bit_string(b: u8) -> (s: String)
    requires
        b <= 17,
    ensures
        s@ == byte_bits(b as int),
{
    match b {
        0 => {
            proof {
                reveal_strlit("00000000");
                assert("00000000"@ =~= byte_bits(0));
            }
            "00000000".to_owned()
        },
        1 => {
            proof {
                reveal_strlit("00000001");
                assert("00000001"@ =~= byte_bits(1));
            }
            "00000001".to_owned()
        },
        2 => {
            proof {
                reveal_strlit("00000010");
                assert("00000010"@ =~= byte_bits(2));
            }
            "00000010".to_owned()
        },
        3 => {
            proof {
                reveal_strlit("00000011");
                assert("00000011"@ =~= byte_bits(3));
            }
            "00000011".to_owned()
        },
        4 => {
            proof {
                reveal_strlit("00000100");
                assert("00000100"@ =~= byte_bits(4));
            }
            "00000100".to_owned()
        },
        5 => {
            proof {
                reveal_strlit("00000101");
                assert("00000101"@ =~= byte_bits(5));
            }
            "00000101".to_owned()
        },
        6 => {
            proof {
                reveal_strlit("00000110");
                assert("00000110"@ =~= byte_bits(6));
            }
            "00000110".to_owned()
        },
        7 => {
            proof {
                reveal_strlit("00000111");
                assert("00000111"@ =~= byte_bits(7));
            }
            "00000111".to_owned()
        },
        8 => {
            proof {
                reveal_strlit("00001000");
                assert("00001000"@ =~= byte_bits(8));
            }
            "00001000".to_owned()
        },
        9 => {
            proof {
                reveal_strlit("00001001");
                assert("00001001"@ =~= byte_bits(9));
            }
            "00001001".to_owned()
        },
        10 => {
            proof {
                reveal_strlit("00001010");
                assert("00001010"@ =~= byte_bits(10));
            }
            "00001010".to_owned()
        },
        11 => {
            proof {
                reveal_strlit("00001011");
                assert("00001011"@ =~= byte_bits(11));
            }
            "00001011".to_owned()
        },
        12 => {
            proof {
                reveal_strlit("00001100");
                assert("00001100"@ =~= byte_bits(12));
            }
            "00001100".to_owned()
        },
        13 => {
            proof {
                reveal_strlit("00001101");
                assert("00001101"@ =~= byte_bits(13));
            }
            "00001101".to_owned()
        },
        14 => {
            proof {
                reveal_strlit("00001110");
                assert("00001110"@ =~= byte_bits(14));
            }
            "00001110".to_owned()
        },
        15 => {
            proof {
                reveal_strlit("00001111");
                assert("00001111"@ =~= byte_bits(15));
            }
            "00001111".to_owned()
        },
        16 => {
            proof {
                reveal_strlit("00010000");
                assert("00010000"@ =~= byte_bits(16));
            }
            "00010000".to_owned()
        },
        17 => {
            proof {
                reveal_strlit("00010001");
                assert("00010001"@ =~= byte_bits(17));
            }
            "00010001".to_owned()
        },
        _ => {
            proof {
                assert(false);
            }
            "00000000".to_owned()
        },
    }
}

} // verus!
