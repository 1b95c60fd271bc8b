//! Text helpers: comparing strings, writing integers in decimal, and padding.

use vstd::prelude::*;
use vstd::string::*;
use vstd::std_specs::iter::IteratorSpec;

verus! {

/// The character of a single decimal digit.
pub open spec fn digit_char(d: nat) -> char
    recommends
        d < 10,
{
    if d == 0 {
        '0'
    } else if d == 1 {
        '1'
    } else if d == 2 {
        '2'
    } else if d == 3 {
        '3'
    } else if d == 4 {
        '4'
    } else if d == 5 {
        '5'
    } else if d == 6 {
        '6'
    } else if d == 7 {
        '7'
    } else if d == 8 {
        '8'
    } else {
        '9'
    }
}

/// The decimal numeral of `n`, without leading zeros.
pub open spec fn decimal(n: nat) -> Seq<char>
    decreases n,
{
    if n < 10 {
        seq![digit_char(n)]
    } else {
        decimal(n / 10).push(digit_char(n % 10))
    }
}

/// The decimal numeral of `n`, with one leading space if it has a single
/// digit, so that it fills at least two columns.
pub open spec fn decimal_width2(n: nat) -> Seq<char> {
    if n < 10 {
        seq![' ', digit_char(n)]
    } else {
        decimal(n)
    }
}

/// Whether two strings hold the same characters.
pub fn str_equal(a: &str, b: &str) -> (res: bool)
    ensures
        res == (a@ == b@),
{
    let n = a.unicode_len();
    if n != b.unicode_len() {
        return false;
    }
    let mut i: usize = 0;
    while i < n
        invariant
            n == a@.len(),
            n == b@.len(),
            i <= n,
            forall|k: int| 0 <= k < i ==> a@[k] == b@[k],
        decreases n - i,
    {
        if a.get_char(i) != b.get_char(i) {
            return false;
        }
        i += 1;
    }
    assert(a@ =~= b@);
    true
}

/// The one-character string of a decimal digit.
fn digit_str(d: usize) -> (res: &'static str)
    requires
        d < 10,
    ensures
        res@ == seq![digit_char(d as nat)],
{
    proof {
        reveal_strlit("0");
        reveal_strlit("1");
        reveal_strlit("2");
        reveal_strlit("3");
        reveal_strlit("4");
        reveal_strlit("5");
        reveal_strlit("6");
        reveal_strlit("7");
        reveal_strlit("8");
        reveal_strlit("9");
    }
    let res = if d == 0 {
        "0"
    } else if d == 1 {
        "1"
    } else if d == 2 {
        "2"
    } else if d == 3 {
        "3"
    } else if d == 4 {
        "4"
    } else if d == 5 {
        "5"
    } else if d == 6 {
        "6"
    } else if d == 7 {
        "7"
    } else if d == 8 {
        "8"
    } else {
        "9"
    };
    assert(res@ =~= seq![digit_char(d as nat)]);
    res
}

/// Writes `n` in decimal.
pub fn usize_to_string(n: usize) -> (res: String)
    ensures
        res@ == decimal(n as nat),
{
    let mut rest: usize = n / 10;
    let mut acc: String = String::from_str(digit_str(n % 10));
    proof {
        if n < 10 {
            assert(acc@ =~= decimal(n as nat));
        } else {
            assert(decimal(n as nat) =~= decimal(rest as nat) + acc@);
        }
    }
    while rest > 0
        invariant
            rest == 0 ==> acc@ == decimal(n as nat),
            rest > 0 ==> decimal(n as nat) == decimal(rest as nat) + acc@,
        decreases rest,
    {
        let d = rest % 10;
        let next = rest / 10;
        let head = String::from_str(digit_str(d));
        proof {
            if rest < 10 {
                assert(decimal(rest as nat) =~= head@);
                assert(decimal(n as nat) =~= head@ + acc@);
            } else {
                assert(decimal(rest as nat) =~= decimal(next as nat) + head@);
                assert(decimal(n as nat) =~= decimal(next as nat) + (head@ + acc@));
            }
        }
        acc = head.concat(acc.as_str());
        rest = next;
    }
    acc
}

/// Writes `n` in decimal, filling at least two columns.
pub fn usize_to_string_width2(n: usize) -> (res: String)
    ensures
        res@ == decimal_width2(n as nat),
{
    if n < 10 {
        proof {
            reveal_strlit(" ");
        }
        let res = String::from_str(" ").concat(digit_str(n));
        assert(res@ =~= decimal_width2(n as nat));
        res
    } else {
        usize_to_string(n)
    }
}

/// The characters of `text`, one by one.
pub fn to_chars(text: &str) -> (res: Vec<char>)
    ensures
        res@ == text@,
{
    let mut out: Vec<char> = Vec::new();
    let mut rest = text.chars();
    loop
        invariant
            rest.obeys_prophetic_iter_laws(),
            out@ + rest.remaining() == text@,
        decreases text@.len() - out@.len(),
    {
        let ghost before = rest.remaining();
        match rest.next() {
            Some(c) => {
                out.push(c);
                assert(out@ + rest.remaining() =~= text@) by {
                    assert(before =~= seq![c] + before.drop_first());
                }
            },
            None => {
                assert(out@ =~= text@);
                return out;
            },
        }
    }
}

/// `n` spaces.
pub open spec fn spaces(n: nat) -> Seq<char> {
    Seq::new(n, |i: int| ' ')
}

/// How many spaces fill a text of `len` characters up to `width` columns.
pub open spec fn gap(len: nat, width: nat) -> nat {
    if len < width {
        (width - len) as nat
    } else {
        0
    }
}

/// `n` spaces.
pub fn blank(n: usize) -> (res: String)
    ensures
        res@ == spaces(n as nat),
{
    let mut text = String::new();
    let mut i: usize = 0;
    proof {
        reveal_strlit(" ");
        assert(text@ =~= spaces(0));
    }
    while i < n
        invariant
            i <= n,
            " "@.len() == 1,
            " "@[0] == ' ',
            text@ == spaces(i as nat),
        decreases n - i,
    {
        text.append(" ");
        i += 1;
        assert(text@ =~= spaces(i as nat));
    }
    text
}

/// The text with spaces behind it, so that it fills at least `width`
/// columns.
pub fn pad_right(text: &str, width: usize) -> (res: String)
    ensures
        res@ == text@ + spaces(gap(text@.len(), width as nat)),
{
    let len = text.unicode_len();
    let fill = if len < width {
        width - len
    } else {
        0
    };
    String::from_str(text).concat(blank(fill).as_str())
}

/// The text with spaces in front of it, so that it fills at least `width`
/// columns.
pub fn pad_left(text: &str, width: usize) -> (res: String)
    ensures
        res@ == spaces(gap(text@.len(), width as nat)) + text@,
{
    let len = text.unicode_len();
    let fill = if len < width {
        width - len
    } else {
        0
    };
    blank(fill).concat(text)
}

} // verus!
