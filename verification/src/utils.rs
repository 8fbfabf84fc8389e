//! Small text helpers: decimal digit strings and the superscript
//! rendering used for root indices.

use vstd::prelude::*;

verus! {

use vstd::string::StrSliceExecFns;
use vstd::string::StringExecFns;

/// The decimal digit character for a value below ten.
pub open spec fn digit_char(d: int) -> char {
    if d == 0 { '0' } else if d == 1 { '1' } else if d == 2 { '2' } else if d == 3 { '3' }
    else if d == 4 { '4' } else if d == 5 { '5' } else if d == 6 { '6' } else if d == 7 { '7' }
    else if d == 8 { '8' } else { '9' }
}

/// The decimal digits of a nonnegative number, most significant first.
pub open spec fn dec_digits(n: int) -> Seq<char>
    decreases n,
{
    if n < 10 {
        seq![digit_char(n)]
    } else {
        dec_digits(n / 10) + seq![digit_char(n % 10)]
    }
}

/// The decimal digit string for a value below ten.
pub fn digit_text(d: u64) -> (r: &'static str)
    requires
        d < 10,
    ensures
        r@ == seq![digit_char(d as int)],
{
    digit_str(d)
}

/// The decimal digit string for a value below ten.
fn digit_str(d: u64) -> (r: &'static str)
    requires
        d < 10,
    ensures
        r@ == seq![digit_char(d as int)],
{
    let r: &'static str = match d {
        0 => "0",
        1 => "1",
        2 => "2",
        3 => "3",
        4 => "4",
        5 => "5",
        6 => "6",
        7 => "7",
        8 => "8",
        _ => "9",
    };
    proof {
        reveal_strlit("0");
        reveal_strlit("1");
        reveal_strlit("2");
        reveal_strlit("3");
        reveal_strlit("4");
        reveal_strlit("5");
        reveal_strlit("6");
        reveal_strlit("7");
        reveal_strlit("8");
        reveal_strlit("9");
        assert(r@ =~= seq![digit_char(d as int)]);
    }
    r
}

/// The decimal digit string of a number.
pub fn u64_to_string(n: u64) -> (r: String)
    ensures
        r@ == dec_digits(n as int),
    decreases n,
{
    if n < 10 {
        String::from_str(digit_str(n))
    } else {
        let mut r = u64_to_string(n / 10);
        r.append(digit_str(n % 10));
        proof {
            assert(r@ =~= dec_digits(n as int));
        }
        r
    }
}

/// What each character becomes in superscript position: digits, most
/// letters, signs, the equals sign, parentheses and the slash have a
/// superscript form; any other character stays itself.
pub open spec fn sup_char(c: char) -> char {
    match c {
        '0' => '⁰',
        '1' => '¹',
        '2' => '²',
        '3' => '³',
        '4' => '⁴',
        '5' => '⁵',
        '6' => '⁶',
        '7' => '⁷',
        '8' => '⁸',
        '9' => '⁹',
        'a' => 'ᵃ',
        'b' => 'ᵇ',
        'c' => 'ᶜ',
        'd' => 'ᵈ',
        'e' => 'ᵉ',
        'f' => 'ᶠ',
        'g' => 'ᵍ',
        'h' => 'ʰ',
        'i' => 'ⁱ',
        'j' => 'ʲ',
        'k' => 'ᵏ',
        'l' => 'ˡ',
        'm' => 'ᵐ',
        'n' => 'ⁿ',
        'o' => 'ᵒ',
        'p' => 'ᵖ',
        'r' => 'ʳ',
        's' => 'ˢ',
        't' => 'ᵗ',
        'u' => 'ᵘ',
        'v' => 'ᵛ',
        'w' => 'ʷ',
        'x' => 'ˣ',
        'y' => 'ʸ',
        'z' => 'ᶻ',
        'A' => 'ᴬ',
        'B' => 'ᴮ',
        'D' => 'ᴰ',
        'E' => 'ᴱ',
        'G' => 'ᴳ',
        'H' => 'ᴴ',
        'I' => 'ᴵ',
        'J' => 'ᴶ',
        'K' => 'ᴷ',
        'L' => 'ᴸ',
        'M' => 'ᴹ',
        'N' => 'ᴺ',
        'O' => 'ᴼ',
        'P' => 'ᴾ',
        'R' => 'ᴿ',
        'T' => 'ᵀ',
        'U' => 'ᵁ',
        'V' => 'ⱽ',
        'W' => 'ᵂ',
        'X' => 'ᵡ',
        'Z' => 'ᙆ',
        '+' => '⁺',
        '-' => '⁻',
        '=' => '⁼',
        '(' => '⁽',
        ')' => '⁾',
        '/' => 'ᐟ',
        other => other,
    }
}

/// The text with every character replaced by its superscript form.
pub fn superscript(s: &str) -> (r: String)
    ensures
        r@ == Seq::new(s@.len(), |i: int| sup_char(s@[i])),
{
    let n = s.unicode_len();
    let mut r = String::new();
    let mut i: usize = 0;
    while i < n
        invariant
            i <= n,
            n == s@.len(),
            r@ == Seq::new(i as nat, |k: int| sup_char(s@[k])),
        decreases n - i,
    {
        let c = s.get_char(i);
        let ghost pre = r@;
        match c {
        '0' => {
            r.append("⁰");
            proof {
                reveal_strlit("⁰");
                assert(r@ =~= pre.push(sup_char(c)));
            }
        },
        '1' => {
            r.append("¹");
            proof {
                reveal_strlit("¹");
                assert(r@ =~= pre.push(sup_char(c)));
            }
        },
        '2' => {
            r.append("²");
            proof {
                reveal_strlit("²");
                assert(r@ =~= pre.push(sup_char(c)));
            }
        },
        '3' => {
            r.append("³");
            proof {
                reveal_strlit("³");
                assert(r@ =~= pre.push(sup_char(c)));
            }
        },
        '4' => {
            r.append("⁴");
            proof {
                reveal_strlit("⁴");
                assert(r@ =~= pre.push(sup_char(c)));
            }
        },
        '5' => {
            r.append("⁵");
            proof {
                reveal_strlit("⁵");
                assert(r@ =~= pre.push(sup_char(c)));
            }
        },
        '6' => {
            r.append("⁶");
            proof {
                reveal_strlit("⁶");
                assert(r@ =~= pre.push(sup_char(c)));
            }
        },
        '7' => {
            r.append("⁷");
            proof {
                reveal_strlit("⁷");
                assert(r@ =~= pre.push(sup_char(c)));
            }
        },
        '8' => {
            r.append("⁸");
            proof {
                reveal_strlit("⁸");
                assert(r@ =~= pre.push(sup_char(c)));
            }
        },
        '9' => {
            r.append("⁹");
            proof {
                reveal_strlit("⁹");
                assert(r@ =~= pre.push(sup_char(c)));
            }
        },
        'a' => {
            r.append("ᵃ");
            proof {
                reveal_strlit("ᵃ");
                assert(r@ =~= pre.push(sup_char(c)));
            }
        },
        'b' => {
            r.append("ᵇ");
            proof {
                reveal_strlit("ᵇ");
                assert(r@ =~= pre.push(sup_char(c)));
            }
        },
        'c' => {
            r.append("ᶜ");
            proof {
                reveal_strlit("ᶜ");
                assert(r@ =~= pre.push(sup_char(c)));
            }
        },
        'd' => {
            r.append("ᵈ");
            proof {
                reveal_strlit("ᵈ");
                assert(r@ =~= pre.push(sup_char(c)));
            }
        },
        'e' => {
            r.append("ᵉ");
            proof {
                reveal_strlit("ᵉ");
                assert(r@ =~= pre.push(sup_char(c)));
            }
        },
        'f' => {
            r.append("ᶠ");
            proof {
                reveal_strlit("ᶠ");
                assert(r@ =~= pre.push(sup_char(c)));
            }
        },
        'g' => {
            r.append("ᵍ");
            proof {
                reveal_strlit("ᵍ");
                assert(r@ =~= pre.push(sup_char(c)));
            }
        },
        'h' => {
            r.append("ʰ");
            proof {
                reveal_strlit("ʰ");
                assert(r@ =~= pre.push(sup_char(c)));
            }
        },
        'i' => {
            r.append("ⁱ");
            proof {
                reveal_strlit("ⁱ");
                assert(r@ =~= pre.push(sup_char(c)));
            }
        },
        'j' => {
            r.append("ʲ");
            proof {
                reveal_strlit("ʲ");
                assert(r@ =~= pre.push(sup_char(c)));
            }
        },
        'k' => {
            r.append("ᵏ");
            proof {
                reveal_strlit("ᵏ");
                assert(r@ =~= pre.push(sup_char(c)));
            }
        },
        'l' => {
            r.append("ˡ");
            proof {
                reveal_strlit("ˡ");
                assert(r@ =~= pre.push(sup_char(c)));
            }
        },
        'm' => {
            r.append("ᵐ");
            proof {
                reveal_strlit("ᵐ");
                assert(r@ =~= pre.push(sup_char(c)));
            }
        },
        'n' => {
            r.append("ⁿ");
            proof {
                reveal_strlit("ⁿ");
                assert(r@ =~= pre.push(sup_char(c)));
            }
        },
        'o' => {
            r.append("ᵒ");
            proof {
                reveal_strlit("ᵒ");
                assert(r@ =~= pre.push(sup_char(c)));
            }
        },
        'p' => {
            r.append("ᵖ");
            proof {
                reveal_strlit("ᵖ");
                assert(r@ =~= pre.push(sup_char(c)));
            }
        },
        'r' => {
            r.append("ʳ");
            proof {
                reveal_strlit("ʳ");
                assert(r@ =~= pre.push(sup_char(c)));
            }
        },
        's' => {
            r.append("ˢ");
            proof {
                reveal_strlit("ˢ");
                assert(r@ =~= pre.push(sup_char(c)));
            }
        },
        't' => {
            r.append("ᵗ");
            proof {
                reveal_strlit("ᵗ");
                assert(r@ =~= pre.push(sup_char(c)));
            }
        },
        'u' => {
            r.append("ᵘ");
            proof {
                reveal_strlit("ᵘ");
                assert(r@ =~= pre.push(sup_char(c)));
            }
        },
        'v' => {
            r.append("ᵛ");
            proof {
                reveal_strlit("ᵛ");
                assert(r@ =~= pre.push(sup_char(c)));
            }
        },
        'w' => {
            r.append("ʷ");
            proof {
                reveal_strlit("ʷ");
                assert(r@ =~= pre.push(sup_char(c)));
            }
        },
        'x' => {
            r.append("ˣ");
            proof {
                reveal_strlit("ˣ");
                assert(r@ =~= pre.push(sup_char(c)));
            }
        },
        'y' => {
            r.append("ʸ");
            proof {
                reveal_strlit("ʸ");
                assert(r@ =~= pre.push(sup_char(c)));
            }
        },
        'z' => {
            r.append("ᶻ");
            proof {
                reveal_strlit("ᶻ");
                assert(r@ =~= pre.push(sup_char(c)));
            }
        },
        'A' => {
            r.append("ᴬ");
            proof {
                reveal_strlit("ᴬ");
                assert(r@ =~= pre.push(sup_char(c)));
            }
        },
        'B' => {
            r.append("ᴮ");
            proof {
                reveal_strlit("ᴮ");
                assert(r@ =~= pre.push(sup_char(c)));
            }
        },
        'D' => {
            r.append("ᴰ");
            proof {
                reveal_strlit("ᴰ");
                assert(r@ =~= pre.push(sup_char(c)));
            }
        },
        'E' => {
            r.append("ᴱ");
            proof {
                reveal_strlit("ᴱ");
                assert(r@ =~= pre.push(sup_char(c)));
            }
        },
        'G' => {
            r.append("ᴳ");
            proof {
                reveal_strlit("ᴳ");
                assert(r@ =~= pre.push(sup_char(c)));
            }
        },
        'H' => {
            r.append("ᴴ");
            proof {
                reveal_strlit("ᴴ");
                assert(r@ =~= pre.push(sup_char(c)));
            }
        },
        'I' => {
            r.append("ᴵ");
            proof {
                reveal_strlit("ᴵ");
                assert(r@ =~= pre.push(sup_char(c)));
            }
        },
        'J' => {
            r.append("ᴶ");
            proof {
                reveal_strlit("ᴶ");
                assert(r@ =~= pre.push(sup_char(c)));
            }
        },
        'K' => {
            r.append("ᴷ");
            proof {
                reveal_strlit("ᴷ");
                assert(r@ =~= pre.push(sup_char(c)));
            }
        },
        'L' => {
            r.append("ᴸ");
            proof {
                reveal_strlit("ᴸ");
                assert(r@ =~= pre.push(sup_char(c)));
            }
        },
        'M' => {
            r.append("ᴹ");
            proof {
                reveal_strlit("ᴹ");
                assert(r@ =~= pre.push(sup_char(c)));
            }
        },
        'N' => {
            r.append("ᴺ");
            proof {
                reveal_strlit("ᴺ");
                assert(r@ =~= pre.push(sup_char(c)));
            }
        },
        'O' => {
            r.append("ᴼ");
            proof {
                reveal_strlit("ᴼ");
                assert(r@ =~= pre.push(sup_char(c)));
            }
        },
        'P' => {
            r.append("ᴾ");
            proof {
                reveal_strlit("ᴾ");
                assert(r@ =~= pre.push(sup_char(c)));
            }
        },
        'R' => {
            r.append("ᴿ");
            proof {
                reveal_strlit("ᴿ");
                assert(r@ =~= pre.push(sup_char(c)));
            }
        },
        'T' => {
            r.append("ᵀ");
            proof {
                reveal_strlit("ᵀ");
                assert(r@ =~= pre.push(sup_char(c)));
            }
        },
        'U' => {
            r.append("ᵁ");
            proof {
                reveal_strlit("ᵁ");
                assert(r@ =~= pre.push(sup_char(c)));
            }
        },
        'V' => {
            r.append("ⱽ");
            proof {
                reveal_strlit("ⱽ");
                assert(r@ =~= pre.push(sup_char(c)));
            }
        },
        'W' => {
            r.append("ᵂ");
            proof {
                reveal_strlit("ᵂ");
                assert(r@ =~= pre.push(sup_char(c)));
            }
        },
        'X' => {
            r.append("ᵡ");
            proof {
                reveal_strlit("ᵡ");
                assert(r@ =~= pre.push(sup_char(c)));
            }
        },
        'Z' => {
            r.append("ᙆ");
            proof {
                reveal_strlit("ᙆ");
                assert(r@ =~= pre.push(sup_char(c)));
            }
        },
        '+' => {
            r.append("⁺");
            proof {
                reveal_strlit("⁺");
                assert(r@ =~= pre.push(sup_char(c)));
            }
        },
        '-' => {
            r.append("⁻");
            proof {
                reveal_strlit("⁻");
                assert(r@ =~= pre.push(sup_char(c)));
            }
        },
        '=' => {
            r.append("⁼");
            proof {
                reveal_strlit("⁼");
                assert(r@ =~= pre.push(sup_char(c)));
            }
        },
        '(' => {
            r.append("⁽");
            proof {
                reveal_strlit("⁽");
                assert(r@ =~= pre.push(sup_char(c)));
            }
        },
        ')' => {
            r.append("⁾");
            proof {
                reveal_strlit("⁾");
                assert(r@ =~= pre.push(sup_char(c)));
            }
        },
        '/' => {
            r.append("ᐟ");
            proof {
                reveal_strlit("ᐟ");
                assert(r@ =~= pre.push(sup_char(c)));
            }
        },
            _ => {
                let piece = s.substring_char(i, i + 1);
                r.append(piece);
                proof {
                    assert(piece@ =~= seq![s@[i as int]]);
                    assert(r@ =~= pre.push(sup_char(c)));
                }
            },
        }
        proof {
            assert(r@ =~= Seq::new((i + 1) as nat, |k: int| sup_char(s@[k])));
        }
        i += 1;
    }
    proof {
        assert(r@ =~= Seq::new(s@.len(), |k: int| sup_char(s@[k])));
    }
    r
}

/// Whether two strings hold the same characters.
pub fn str_eq(a: &str, b: &str) -> (r: bool)
    ensures
        r == (a@ == b@),
{
    let na = a.unicode_len();
    let nb = b.unicode_len();
    if na != nb {
        return false;
    }
    let mut i: usize = 0;
    while i < na
        invariant
            i <= na,
            na == a@.len(),
            na == b@.len(),
            forall|k: int| 0 <= k < i ==> a@[k] == b@[k],
        decreases na - i,
    {
        if a.get_char(i) != b.get_char(i) {
            return false;
        }
        i += 1;
    }
    proof {
        assert(a@ =~= b@);
    }
    true
}

} // verus!
