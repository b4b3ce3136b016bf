//! Base64 encoding of binary data, used when images are handed to the user
//! interface as data URLs.

use vstd::prelude::*;
use vstd::string::StringExecFns;

verus! {

/// The base64 alphabet: `A`-`Z`, `a`-`z`, `0`-`9`, `+`, `/`.
pub open spec fn b64_char(v: int) -> char {
    if v == 0 {
        'A'
    } else if v == 1 {
        'B'
    } else if v == 2 {
        'C'
    } else if v == 3 {
        'D'
    } else if v == 4 {
        'E'
    } else if v == 5 {
        'F'
    } else if v == 6 {
        'G'
    } else if v == 7 {
        'H'
    } else if v == 8 {
        'I'
    } else if v == 9 {
        'J'
    } else if v == 10 {
        'K'
    } else if v == 11 {
        'L'
    } else if v == 12 {
        'M'
    } else if v == 13 {
        'N'
    } else if v == 14 {
        'O'
    } else if v == 15 {
        'P'
    } else if v == 16 {
        'Q'
    } else if v == 17 {
        'R'
    } else if v == 18 {
        'S'
    } else if v == 19 {
        'T'
    } else if v == 20 {
        'U'
    } else if v == 21 {
        'V'
    } else if v == 22 {
        'W'
    } else if v == 23 {
        'X'
    } else if v == 24 {
        'Y'
    } else if v == 25 {
        'Z'
    } else if v == 26 {
        'a'
    } else if v == 27 {
        'b'
    } else if v == 28 {
        'c'
    } else if v == 29 {
        'd'
    } else if v == 30 {
        'e'
    } else if v == 31 {
        'f'
    } else if v == 32 {
        'g'
    } else if v == 33 {
        'h'
    } else if v == 34 {
        'i'
    } else if v == 35 {
        'j'
    } else if v == 36 {
        'k'
    } else if v == 37 {
        'l'
    } else if v == 38 {
        'm'
    } else if v == 39 {
        'n'
    } else if v == 40 {
        'o'
    } else if v == 41 {
        'p'
    } else if v == 42 {
        'q'
    } else if v == 43 {
        'r'
    } else if v == 44 {
        's'
    } else if v == 45 {
        't'
    } else if v == 46 {
        'u'
    } else if v == 47 {
        'v'
    } else if v == 48 {
        'w'
    } else if v == 49 {
        'x'
    } else if v == 50 {
        'y'
    } else if v == 51 {
        'z'
    } else if v == 52 {
        '0'
    } else if v == 53 {
        '1'
    } else if v == 54 {
        '2'
    } else if v == 55 {
        '3'
    } else if v == 56 {
        '4'
    } else if v == 57 {
        '5'
    } else if v == 58 {
        '6'
    } else if v == 59 {
        '7'
    } else if v == 60 {
        '8'
    } else if v == 61 {
        '9'
    } else if v == 62 {
        '+'
    } else {
        '/'
    }
}

/// The four output characters of one input group starting at `i`: six bits
/// each, with `=` padding where the group is short.
pub open spec fn b64_group(data: Seq<u8>, i: int) -> Seq<char> {
    let b0 = data[i] as int;
    if i + 1 < data.len() {
        let b1 = data[i + 1] as int;
        if i + 2 < data.len() {
            let b2 = data[i + 2] as int;
            seq![
                b64_char(b0 / 4),
                b64_char((b0 % 4) * 16 + b1 / 16),
                b64_char((b1 % 16) * 4 + b2 / 64),
                b64_char(b2 % 64),
            ]
        } else {
            seq![
                b64_char(b0 / 4),
                b64_char((b0 % 4) * 16 + b1 / 16),
                b64_char((b1 % 16) * 4),
                '=',
            ]
        }
    } else {
        seq![b64_char(b0 / 4), b64_char((b0 % 4) * 16), '=', '=']
    }
}

/// The encoding of the data from position `i` on, three input bytes to four
/// output characters at a time.
pub open spec fn b64_from(data: Seq<u8>, i: int) -> Seq<char>
    decreases vstd::math::max(0, data.len() - i),
{
    if i < 0 || i >= data.len() {
        Seq::<char>::empty()
    } else {
        b64_group(data, i) + b64_from(data, i + 3)
    }
}

/// The base64 encoding of the data.
pub open spec fn b64_encode(data: Seq<u8>) -> Seq<char> {
    b64_from(data, 0)
}

/// One alphabet character as a one-character string slice.
fn b64_unit(v: u8) -> (s: &'static str)
    requires
        v < 64,
    ensures
        s@ == seq![b64_char(v as int)],
{
    match v {
        0 => {
            proof {
                reveal_strlit("A");
                assert("A"@ =~= seq![b64_char(0)]);
            }
            "A"
        },
        1 => {
            proof {
                reveal_strlit("B");
                assert("B"@ =~= seq![b64_char(1)]);
            }
            "B"
        },
        2 => {
            proof {
                reveal_strlit("C");
                assert("C"@ =~= seq![b64_char(2)]);
            }
            "C"
        },
        3 => {
            proof {
                reveal_strlit("D");
                assert("D"@ =~= seq![b64_char(3)]);
            }
            "D"
        },
        4 => {
            proof {
                reveal_strlit("E");
                assert("E"@ =~= seq![b64_char(4)]);
            }
            "E"
        },
        5 => {
            proof {
                reveal_strlit("F");
                assert("F"@ =~= seq![b64_char(5)]);
            }
            "F"
        },
        6 => {
            proof {
                reveal_strlit("G");
                assert("G"@ =~= seq![b64_char(6)]);
            }
            "G"
        },
        7 => {
            proof {
                reveal_strlit("H");
                assert("H"@ =~= seq![b64_char(7)]);
            }
            "H"
        },
        8 => {
            proof {
                reveal_strlit("I");
                assert("I"@ =~= seq![b64_char(8)]);
            }
            "I"
        },
        9 => {
            proof {
                reveal_strlit("J");
                assert("J"@ =~= seq![b64_char(9)]);
            }
            "J"
        },
        10 => {
            proof {
                reveal_strlit("K");
                assert("K"@ =~= seq![b64_char(10)]);
            }
            "K"
        },
        11 => {
            proof {
                reveal_strlit("L");
                assert("L"@ =~= seq![b64_char(11)]);
            }
            "L"
        },
        12 => {
            proof {
                reveal_strlit("M");
                assert("M"@ =~= seq![b64_char(12)]);
            }
            "M"
        },
        13 => {
            proof {
                reveal_strlit("N");
                assert("N"@ =~= seq![b64_char(13)]);
            }
            "N"
        },
        14 => {
            proof {
                reveal_strlit("O");
                assert("O"@ =~= seq![b64_char(14)]);
            }
            "O"
        },
        15 => {
            proof {
                reveal_strlit("P");
                assert("P"@ =~= seq![b64_char(15)]);
            }
            "P"
        },
        16 => {
            proof {
                reveal_strlit("Q");
                assert("Q"@ =~= seq![b64_char(16)]);
            }
            "Q"
        },
        17 => {
            proof {
                reveal_strlit("R");
                assert("R"@ =~= seq![b64_char(17)]);
            }
            "R"
        },
        18 => {
            proof {
                reveal_strlit("S");
                assert("S"@ =~= seq![b64_char(18)]);
            }
            "S"
        },
        19 => {
            proof {
                reveal_strlit("T");
                assert("T"@ =~= seq![b64_char(19)]);
            }
            "T"
        },
        20 => {
            proof {
                reveal_strlit("U");
                assert("U"@ =~= seq![b64_char(20)]);
            }
            "U"
        },
        21 => {
            proof {
                reveal_strlit("V");
                assert("V"@ =~= seq![b64_char(21)]);
            }
            "V"
        },
        22 => {
            proof {
                reveal_strlit("W");
                assert("W"@ =~= seq![b64_char(22)]);
            }
            "W"
        },
        23 => {
            proof {
                reveal_strlit("X");
                assert("X"@ =~= seq![b64_char(23)]);
            }
            "X"
        },
        24 => {
            proof {
                reveal_strlit("Y");
                assert("Y"@ =~= seq![b64_char(24)]);
            }
            "Y"
        },
        25 => {
            proof {
                reveal_strlit("Z");
                assert("Z"@ =~= seq![b64_char(25)]);
            }
            "Z"
        },
        26 => {
            proof {
                reveal_strlit("a");
                assert("a"@ =~= seq![b64_char(26)]);
            }
            "a"
        },
        27 => {
            proof {
                reveal_strlit("b");
                assert("b"@ =~= seq![b64_char(27)]);
            }
            "b"
        },
        28 => {
            proof {
                reveal_strlit("c");
                assert("c"@ =~= seq![b64_char(28)]);
            }
            "c"
        },
        29 => {
            proof {
                reveal_strlit("d");
                assert("d"@ =~= seq![b64_char(29)]);
            }
            "d"
        },
        30 => {
            proof {
                reveal_strlit("e");
                assert("e"@ =~= seq![b64_char(30)]);
            }
            "e"
        },
        31 => {
            proof {
                reveal_strlit("f");
                assert("f"@ =~= seq![b64_char(31)]);
            }
            "f"
        },
        32 => {
            proof {
                reveal_strlit("g");
                assert("g"@ =~= seq![b64_char(32)]);
            }
            "g"
        },
        33 => {
            proof {
                reveal_strlit("h");
                assert("h"@ =~= seq![b64_char(33)]);
            }
            "h"
        },
        34 => {
            proof {
                reveal_strlit("i");
                assert("i"@ =~= seq![b64_char(34)]);
            }
            "i"
        },
        35 => {
            proof {
                reveal_strlit("j");
                assert("j"@ =~= seq![b64_char(35)]);
            }
            "j"
        },
        36 => {
            proof {
                reveal_strlit("k");
                assert("k"@ =~= seq![b64_char(36)]);
            }
            "k"
        },
        37 => {
            proof {
                reveal_strlit("l");
                assert("l"@ =~= seq![b64_char(37)]);
            }
            "l"
        },
        38 => {
            proof {
                reveal_strlit("m");
                assert("m"@ =~= seq![b64_char(38)]);
            }
            "m"
        },
        39 => {
            proof {
                reveal_strlit("n");
                assert("n"@ =~= seq![b64_char(39)]);
            }
            "n"
        },
        40 => {
            proof {
                reveal_strlit("o");
                assert("o"@ =~= seq![b64_char(40)]);
            }
            "o"
        },
        41 => {
            proof {
                reveal_strlit("p");
                assert("p"@ =~= seq![b64_char(41)]);
            }
            "p"
        },
        42 => {
            proof {
                reveal_strlit("q");
                assert("q"@ =~= seq![b64_char(42)]);
            }
            "q"
        },
        43 => {
            proof {
                reveal_strlit("r");
                assert("r"@ =~= seq![b64_char(43)]);
            }
            "r"
        },
        44 => {
            proof {
                reveal_strlit("s");
                assert("s"@ =~= seq![b64_char(44)]);
            }
            "s"
        },
        45 => {
            proof {
                reveal_strlit("t");
                assert("t"@ =~= seq![b64_char(45)]);
            }
            "t"
        },
        46 => {
            proof {
                reveal_strlit("u");
                assert("u"@ =~= seq![b64_char(46)]);
            }
            "u"
        },
        47 => {
            proof {
                reveal_strlit("v");
                assert("v"@ =~= seq![b64_char(47)]);
            }
            "v"
        },
        48 => {
            proof {
                reveal_strlit("w");
                assert("w"@ =~= seq![b64_char(48)]);
            }
            "w"
        },
        49 => {
            proof {
                reveal_strlit("x");
                assert("x"@ =~= seq![b64_char(49)]);
            }
            "x"
        },
        50 => {
            proof {
                reveal_strlit("y");
                assert("y"@ =~= seq![b64_char(50)]);
            }
            "y"
        },
        51 => {
            proof {
                reveal_strlit("z");
                assert("z"@ =~= seq![b64_char(51)]);
            }
            "z"
        },
        52 => {
            proof {
                reveal_strlit("0");
                assert("0"@ =~= seq![b64_char(52)]);
            }
            "0"
        },
        53 => {
            proof {
                reveal_strlit("1");
                assert("1"@ =~= seq![b64_char(53)]);
            }
            "1"
        },
        54 => {
            proof {
                reveal_strlit("2");
                assert("2"@ =~= seq![b64_char(54)]);
            }
            "2"
        },
        55 => {
            proof {
                reveal_strlit("3");
                assert("3"@ =~= seq![b64_char(55)]);
            }
            "3"
        },
        56 => {
            proof {
                reveal_strlit("4");
                assert("4"@ =~= seq![b64_char(56)]);
            }
            "4"
        },
        57 => {
            proof {
                reveal_strlit("5");
                assert("5"@ =~= seq![b64_char(57)]);
            }
            "5"
        },
        58 => {
            proof {
                reveal_strlit("6");
                assert("6"@ =~= seq![b64_char(58)]);
            }
            "6"
        },
        59 => {
            proof {
                reveal_strlit("7");
                assert("7"@ =~= seq![b64_char(59)]);
            }
            "7"
        },
        60 => {
            proof {
                reveal_strlit("8");
                assert("8"@ =~= seq![b64_char(60)]);
            }
            "8"
        },
        61 => {
            proof {
                reveal_strlit("9");
                assert("9"@ =~= seq![b64_char(61)]);
            }
            "9"
        },
        62 => {
            proof {
                reveal_strlit("+");
                assert("+"@ =~= seq![b64_char(62)]);
            }
            "+"
        },
        _ => {
            proof {
                reveal_strlit("/");
                assert("/"@ =~= seq![b64_char(63)]);
            }
            "/"
        },
    }
}

/// Encode bytes as base64 text, four characters per three input bytes, with
/// `=` padding for a final short group.
#[verifier::loop_isolation(false)]
pub fn base64_encode(data: &[u8]) -> (r: String)
    requires
        data@.len() + 3 <= usize::MAX,
    ensures
        r@ == b64_encode(data@),
{
    let mut out = String::new();
    let mut i: usize = 0;
    while i < data.len()
        invariant
            data@.len() + 3 <= usize::MAX,
            i <= data@.len() + 2,
            out@ + b64_from(data@, i as int) == b64_encode(data@),
        decreases vstd::math::max(0, data@.len() - i),
    {
        let ghost out0 = out@;
        let b0 = data[i];
        out.append(b64_unit(b0 / 4));
        if i + 1 < data.len() {
            let b1 = data[i + 1];
            out.append(b64_unit((b0 % 4) * 16 + b1 / 16));
            if i + 2 < data.len() {
                let b2 = data[i + 2];
                out.append(b64_unit((b1 % 16) * 4 + b2 / 64));
                out.append(b64_unit(b2 % 64));
            } else {
                out.append(b64_unit((b1 % 16) * 4));
                proof {
                    reveal_strlit("=");
                    assert("="@ =~= seq!['=']);
                }
                out.append("=");
            }
        } else {
            out.append(b64_unit((b0 % 4) * 16));
            proof {
                reveal_strlit("=");
                assert("="@ =~= seq!['=']);
            }
            out.append("=");
            out.append("=");
        }
        proof {
            assert(out@ =~= out0 + b64_group(data@, i as int));
            assert(out@ + b64_from(data@, i as int + 3) =~= out0 + b64_from(data@, i as int));
        }
        i += 3;
    }
    out
}


/// The MIME type a data URL carries for an image file extension (already
/// lower-cased); anything unrecognised is served as PNG.
pub open spec fn mime_of(ext: Seq<char>) -> Seq<char> {
    if ext == "jpg"@ || ext == "jpeg"@ {
        "image/jpeg"@
    } else if ext == "png"@ {
        "image/png"@
    } else if ext == "webp"@ {
        "image/webp"@
    } else if ext == "gif"@ {
        "image/gif"@
    } else {
        "image/png"@
    }
}

/// Executable twin of [`mime_of`].
pub fn mime_for_extension(ext: &str) -> (r: &'static str)
    ensures
        r@ == mime_of(ext@),
{
    if crate::text::str_eq(ext, "jpg") || crate::text::str_eq(ext, "jpeg") {
        "image/jpeg"
    } else if crate::text::str_eq(ext, "png") {
        "image/png"
    } else if crate::text::str_eq(ext, "webp") {
        "image/webp"
    } else if crate::text::str_eq(ext, "gif") {
        "image/gif"
    } else {
        "image/png"
    }
}

} // verus!
