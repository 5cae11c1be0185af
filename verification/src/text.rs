//! Text: numbers in decimal and hexadecimal, and pieces of text put together
//! and looked for.

use vstd::prelude::*;
use vstd::string::{StrSliceExecFns, StringExecFns};
use crate::bytes::same_text;

verus! {

/// The decimal digit of a number below ten.
pub open spec fn digit(n: nat) -> char {
    (48 + n % 10) as char
}

/// A number in decimal.
pub open spec fn decimal(n: nat) -> Seq<char>
    decreases n,
{
    if n < 10 {
        seq![digit(n)]
    } else {
        decimal(n / 10).push(digit(n))
    }
}

/// The one digit of a number below ten, as text.
fn digit_text(n: u64) -> (r: &'static str)
    requires
        n < 10,
    ensures
        r@ == seq![digit(n as nat)],
{
    proof {
        reveal_strlit("0");
        reveal_strlit("1");
        reveal_strlit("2");
        reveal_strlit("3");
        reveal_strlit("4");
        reveal_strlit("5");
        reveal_strlit("6");
        reveal_strlit("7");
        reveal_strlit("8");
        reveal_strlit("9");
    }
    let r: &'static str = match n {
        0 => "0",
        1 => "1",
        2 => "2",
        3 => "3",
        4 => "4",
        5 => "5",
        6 => "6",
        7 => "7",
        8 => "8",
        _ => "9",
    };
    assert(r@ =~= seq![digit(n as nat)]);
    r
}

/// A number in decimal.
pub fn decimal_text(n: u64) -> (r: String)
    ensures
        r@ == decimal(n as nat),
    decreases n,
{
    if n < 10 {
        digit_text(n).to_owned()
    } else {
        let mut out = decimal_text(n / 10);
        out.append(digit_text(n % 10));
        assert(out@ =~= decimal(n as nat));
        out
    }
}

/// The hexadecimal digit of a number below sixteen.
pub open spec fn hex_digit(n: nat) -> char {
    if n % 16 < 10 {
        (48 + n % 16) as char
    } else {
        (87 + n % 16) as char
    }
}

/// A number in hexadecimal, in a given number of digits.
pub open spec fn hexadecimal(n: nat, digits: nat) -> Seq<char>
    decreases digits,
{
    if digits == 0 {
        Seq::empty()
    } else {
        hexadecimal(n / 16, (digits - 1) as nat).push(hex_digit(n))
    }
}

/// The one digit of a number below sixteen, as text.
fn hex_digit_text(n: u32) -> (r: &'static str)
    requires
        n < 16,
    ensures
        r@ == seq![hex_digit(n as nat)],
{
    proof {
        reveal_strlit("a");
        reveal_strlit("b");
        reveal_strlit("c");
        reveal_strlit("d");
        reveal_strlit("e");
        reveal_strlit("f");
    }
    if n < 10 {
        return digit_text(n as u64);
    }
    let r: &'static str = match n {
        10 => "a",
        11 => "b",
        12 => "c",
        13 => "d",
        14 => "e",
        _ => "f",
    };
    assert(r@ =~= seq![hex_digit(n as nat)]);
    r
}

/// A number in hexadecimal, in a given number of digits.
pub fn hex_text(n: u32, digits: u32) -> (r: String)
    ensures
        r@ == hexadecimal(n as nat, digits as nat),
    decreases digits,
{
    if digits == 0 {
        let r = "".to_owned();
        proof {
            reveal_strlit("");
        }
        assert(r@ =~= Seq::<char>::empty());
        r
    } else {
        let mut out = hex_text(n / 16, digits - 1);
        out.append(hex_digit_text(n % 16));
        assert(out@ =~= hexadecimal(n as nat, digits as nat));
        out
    }
}

/// Pieces of text, one after another.
pub fn join2(a: &str, b: &str) -> (r: String)
    ensures
        r@ == a@ + b@,
{
    let mut out = a.to_owned();
    out.append(b);
    out
}

/// Pieces of text, one after another.
pub fn join3(a: &str, b: &str, c: &str) -> (r: String)
    ensures
        r@ == a@ + b@ + c@,
{
    let mut out = a.to_owned();
    out.append(b);
    out.append(c);
    out
}

/// Pieces of text, one after another.
pub fn join5(a: &str, b: &str, c: &str, d: &str, e: &str) -> (r: String)
    ensures
        r@ == a@ + b@ + c@ + d@ + e@,
{
    let mut out = join3(a, b, c);
    out.append(d);
    out.append(e);
    out
}

/// Whether a text begins with another.
pub fn starts_with(whole: &str, part: &str) -> (r: bool)
    ensures
        r == part@.is_prefix_of(whole@),
{
    let n: usize = whole.unicode_len();
    let m: usize = part.unicode_len();
    if m > n {
        return false;
    }
    let r: bool = same_text(whole.substring_char(0, m), part);
    assert(r == part@.is_prefix_of(whole@));
    r
}

/// A text occurs in another at a place.
pub open spec fn occurs_at(whole: Seq<char>, part: Seq<char>, i: int) -> bool {
    0 <= i && i + part.len() <= whole.len() && whole.subrange(i, i + part.len()) == part
}

/// A text occurs in another.
pub open spec fn occurs_in(whole: Seq<char>, part: Seq<char>) -> bool {
    exists|i: int| occurs_at(whole, part, i)
}

/// Whether a text occurs in another.
pub fn contains_text(whole: &str, part: &str) -> (r: bool)
    ensures
        r == occurs_in(whole@, part@),
{
    let n: usize = whole.unicode_len();
    let m: usize = part.unicode_len();
    if m > n {
        return false;
    }
    let mut i: usize = 0;
    while i < n - m
        invariant
            m <= n,
            i <= n - m,
            n == whole@.len(),
            m == part@.len(),
            forall|j: int| 0 <= j < i ==> !occurs_at(whole@, part@, j),
        decreases n - m - i,
    {
        if same_text(whole.substring_char(i, i + m), part) {
            assert(occurs_at(whole@, part@, i as int));
            return true;
        }
        i += 1;
    }
    let r: bool = same_text(whole.substring_char(i, i + m), part);
    assert(r == occurs_at(whole@, part@, i as int));
    r
}

/// What Rust's `{:?}` makes of a text.
pub uninterp spec fn quoted(t: Seq<char>) -> Seq<char>;

/// `format!` with `{:?}` on a text: the text named [`quoted`], in quotes and
/// with what cannot be shown escaped.
#[verifier::external_body]
pub(crate) fn quote(t: &str) -> (r: String)
    ensures
        r@ == quoted(t@),
{
    format!("{t:?}")
}

/// The number that a row of decimal digits stands for.
pub open spec fn number_in(digits: Seq<char>) -> int
    decreases digits.len(),
{
    if digits.len() == 0 {
        0
    } else {
        10 * number_in(digits.drop_last()) + (digits.last() as int - '0' as int)
    }
}

/// A number is written so that it can be read: in decimal digits that stand for
/// it, with no zero in front unless it is all there is.
pub proof fn a_number_reads_back(n: nat)
    ensures
        number_in(decimal(n)) == n,
        decimal(n).len() >= 1,
        forall|i: int| 0 <= i < decimal(n).len() ==> '0' <= #[trigger] decimal(n)[i] <= '9',
        decimal(n)[0] == '0' ==> n == 0,
    decreases n,
{
    if n < 10 {
        assert(decimal(n).drop_last() =~= Seq::empty());
        assert(number_in(decimal(n).drop_last()) == 0);
        assert(digit(n) as int == 48 + n);
    } else {
        a_number_reads_back(n / 10);
        assert(decimal(n).drop_last() =~= decimal(n / 10));
        assert(digit(n) as int == 48 + n % 10);
        assert(decimal(n)[0] == decimal(n / 10)[0]);
        assert forall|i: int| 0 <= i < decimal(n).len() implies '0' <= #[trigger] decimal(n)[i]
            <= '9' by {
            if i < decimal(n / 10).len() {
                assert(decimal(n)[i] == decimal(n / 10)[i]);
            }
        }
    }
}

} // verus!
