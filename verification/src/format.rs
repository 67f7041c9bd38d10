//! Human-readable size formatting: the `4.2 GiB` figures a listing shows
//! beside folders, files and disks.

use vstd::prelude::*;

verus! {

/// The character of one decimal digit.
pub open spec fn digit_char(d: nat) -> char {
    (('0' as u8) + d) as char
}

/// The decimal writing of a number, most significant digit first.
pub open spec fn dec_str(n: nat) -> Seq<char>
    decreases n,
{
    if n < 10 {
        seq![digit_char(n)]
    } else {
        dec_str(n / 10) + seq![digit_char(n % 10)]
    }
}

/// Powers of 1024 up to the supported tebibyte unit.
pub open spec fn pow1024(i: nat) -> nat {
    if i == 0 {
        1
    } else if i == 1 {
        0x400
    } else if i == 2 {
        0x100000
    } else if i == 3 {
        0x40000000
    } else {
        0x10000000000
    }
}

/// Which unit a byte count is shown in: the largest power of 1024 not
/// above it.
pub open spec fn unit_index(bytes: nat) -> nat {
    if bytes < 0x400 {
        0
    } else if bytes < 0x100000 {
        1
    } else if bytes < 0x40000000 {
        2
    } else if bytes < 0x10000000000 {
        3
    } else {
        4
    }
}

/// The unit suffix of each magnitude.
pub open spec fn unit_str(i: nat) -> Seq<char> {
    if i == 0 {
        "B"@
    } else if i == 1 {
        "KiB"@
    } else if i == 2 {
        "MiB"@
    } else if i == 3 {
        "GiB"@
    } else {
        "TiB"@
    }
}

/// The figure in tenths of a unit, rounded to nearest with ties going to
/// the even tenth.
pub open spec fn rounded_tenths(bytes: nat, d: nat) -> nat {
    let n = bytes * 10;
    let q = n / d;
    let r = n % d;
    if 2 * r > d {
        q + 1
    } else if 2 * r == d && q % 2 == 1 {
        q + 1
    } else {
        q
    }
}

/// The rendering of a byte count: zero is plain, anything else shows one
/// decimal place of the chosen unit.
pub open spec fn format_size_spec(bytes: nat) -> Seq<char> {
    if bytes == 0 {
        "0 B"@
    } else {
        let i = unit_index(bytes);
        let q = rounded_tenths(bytes, pow1024(i));
        dec_str(q / 10) + seq!['.'] + seq![digit_char(q % 10)] + seq![' '] + unit_str(i)
    }
}

/// The one-character string of a decimal digit.
fn digit_str(d: u64) -> (r: &'static str)
    requires
        d < 10,
    ensures
        r@ =~= seq![digit_char(d as nat)],
{
    match d {
        0 => {
            proof {
                reveal_strlit("0");
                assert("0"@ =~= seq!['0']);
            }
            "0"
        },
        1 => {
            proof {
                reveal_strlit("1");
                assert("1"@ =~= seq!['1']);
            }
            "1"
        },
        2 => {
            proof {
                reveal_strlit("2");
                assert("2"@ =~= seq!['2']);
            }
            "2"
        },
        3 => {
            proof {
                reveal_strlit("3");
                assert("3"@ =~= seq!['3']);
            }
            "3"
        },
        4 => {
            proof {
                reveal_strlit("4");
                assert("4"@ =~= seq!['4']);
            }
            "4"
        },
        5 => {
            proof {
                reveal_strlit("5");
                assert("5"@ =~= seq!['5']);
            }
            "5"
        },
        6 => {
            proof {
                reveal_strlit("6");
                assert("6"@ =~= seq!['6']);
            }
            "6"
        },
        7 => {
            proof {
                reveal_strlit("7");
                assert("7"@ =~= seq!['7']);
            }
            "7"
        },
        8 => {
            proof {
                reveal_strlit("8");
                assert("8"@ =~= seq!['8']);
            }
            "8"
        },
        _ => {
            proof {
                reveal_strlit("9");
                assert("9"@ =~= seq!['9']);
            }
            "9"
        },
    }
}

/// Writes a number in decimal, per `dec_str`.
pub fn u64_to_dec(n: u64) -> (r: String)
    ensures
        r@ =~= dec_str(n as nat),
    decreases n,
{
    if n < 10 {
        String::from_str(digit_str(n))
    } else {
        let mut s = u64_to_dec(n / 10);
        s.append(digit_str(n % 10));
        s
    }
}

/// Renders a byte count for display, per `format_size_spec`: the largest
/// fitting power-of-1024 unit, one decimal place, ties rounded to the even
/// tenth. Counts of a pebibyte and beyond are outside the supported units.
pub fn format_size(bytes: u64) -> (r: String)
    requires
        bytes < 0x4000000000000,
    ensures
        r@ == format_size_spec(bytes as nat),
{
    if bytes == 0 {
        return String::from_str("0 B");
    }
    let d: u64 = if bytes < 0x400 {
        1
    } else if bytes < 0x100000 {
        0x400
    } else if bytes < 0x40000000 {
        0x100000
    } else if bytes < 0x10000000000 {
        0x40000000
    } else {
        0x10000000000
    };
    let n: u64 = bytes * 10;
    let q0: u64 = n / d;
    let rem: u64 = n % d;
    let q: u64 = if 2 * rem > d {
        q0 + 1
    } else if 2 * rem == d && q0 % 2 == 1 {
        q0 + 1
    } else {
        q0
    };
    let mut s = u64_to_dec(q / 10);
    s.append(".");
    s.append(digit_str(q % 10));
    s.append(" ");
    let unit = if bytes < 0x400 {
        "B"
    } else if bytes < 0x100000 {
        "KiB"
    } else if bytes < 0x40000000 {
        "MiB"
    } else if bytes < 0x10000000000 {
        "GiB"
    } else {
        "TiB"
    };
    s.append(unit);
    proof {
        reveal_strlit(".");
        reveal_strlit(" ");
        assert("."@ =~= seq!['.']);
        assert(" "@ =~= seq![' ']);
        assert(s@ =~= format_size_spec(bytes as nat));
    }
    s
}

} // verus!
