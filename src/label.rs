use vstd::prelude::*;

verus! {

/// A value that a tile can hold: a power of two from 2 to 2048.
pub open spec fn is_tile_value(v: u16) -> bool {
    2 <= v <= 2048 && v & ((v - 1) as u16) == 0
}

/// The decimal digit `d`.
pub open spec fn digit(d: nat) -> char {
    seq!['0', '1', '2', '3', '4', '5', '6', '7', '8', '9'][d as int]
}

/// The decimal digits of `n`, most significant first.
pub open spec fn decimal(n: nat) -> Seq<char>
    decreases n,
{
    if n < 10 {
        seq![digit(n)]
    } else {
        decimal(n / 10).push(digit(n % 10))
    }
}

/// The text shown on a cell: the decimal digits of a tile value, nothing for
/// any other value.
pub fn value_to_text(value: u16) -> (r: &'static str)
    ensures
        r@ == (if is_tile_value(value) {
            decimal(value as nat)
        } else {
            Seq::<char>::empty()
        }),
{
    proof {
        reveal_with_fuel(decimal, 4);
    }
    match value {
        2 => {
            proof {
                reveal_strlit("2");
                assert(is_tile_value(2)) by (bit_vector);
            }
            "2"
        },
        4 => {
            proof {
                reveal_strlit("4");
                assert(is_tile_value(4)) by (bit_vector);
            }
            "4"
        },
        8 => {
            proof {
                reveal_strlit("8");
                assert(is_tile_value(8)) by (bit_vector);
            }
            "8"
        },
        16 => {
            proof {
                reveal_strlit("16");
                assert(is_tile_value(16)) by (bit_vector);
                assert(decimal(16) =~= "16"@);
            }
            "16"
        },
        32 => {
            proof {
                reveal_strlit("32");
                assert(is_tile_value(32)) by (bit_vector);
                assert(decimal(32) =~= "32"@);
            }
            "32"
        },
        64 => {
            proof {
                reveal_strlit("64");
                assert(is_tile_value(64)) by (bit_vector);
                assert(decimal(64) =~= "64"@);
            }
            "64"
        },
        128 => {
            proof {
                reveal_strlit("128");
                assert(is_tile_value(128)) by (bit_vector);
                assert(decimal(128) =~= "128"@);
            }
            "128"
        },
        256 => {
            proof {
                reveal_strlit("256");
                assert(is_tile_value(256)) by (bit_vector);
                assert(decimal(256) =~= "256"@);
            }
            "256"
        },
        512 => {
            proof {
                reveal_strlit("512");
                assert(is_tile_value(512)) by (bit_vector);
                assert(decimal(512) =~= "512"@);
            }
            "512"
        },
        1024 => {
            proof {
                reveal_strlit("1024");
                assert(is_tile_value(1024)) by (bit_vector);
                assert(decimal(1024) =~= "1024"@);
            }
            "1024"
        },
        2048 => {
            proof {
                reveal_strlit("2048");
                assert(is_tile_value(2048)) by (bit_vector);
                assert(decimal(2048) =~= "2048"@);
            }
            "2048"
        },
        _ => {
            proof {
                reveal_strlit("");
                assert(!is_tile_value(value)) by (bit_vector)
                    requires
                        value != 2 && value != 4 && value != 8 && value != 16 && value != 32
                            && value != 64 && value != 128 && value != 256 && value != 512
                            && value != 1024 && value != 2048,
                ;
            }
            ""
        },
    }
}

} // verus!
