//! Numbers and sizes as text.

use vstd::prelude::*;
use vstd::string::StringExecFns;

verus! {

/// The character for the decimal digit `d`.
pub open spec fn digit(d: nat) -> char {
    if d == 0 {
        '0'
    } else if d == 1 {
        '1'
    } else if d == 2 {
        '2'
    } else if d == 3 {
        '3'
    } else if d == 4 {
        '4'
    } else if d == 5 {
        '5'
    } else if d == 6 {
        '6'
    } else if d == 7 {
        '7'
    } else if d == 8 {
        '8'
    } else {
        '9'
    }
}

/// The decimal numeral of `n`, without sign or leading zeros.
pub open spec fn decimal(n: nat) -> Seq<char>
    decreases n,
{
    if n < 10 {
        seq![digit(n)]
    } else {
        decimal(n / 10).push(digit(n % 10))
    }
}

/// The digit that the character `c` stands for; zero for any other
/// character.
pub open spec fn digit_value(c: char) -> nat {
    if c == '1' {
        1
    } else if c == '2' {
        2
    } else if c == '3' {
        3
    } else if c == '4' {
        4
    } else if c == '5' {
        5
    } else if c == '6' {
        6
    } else if c == '7' {
        7
    } else if c == '8' {
        8
    } else if c == '9' {
        9
    } else {
        0
    }
}

/// Whether `c` is one of the ten digits.
pub open spec fn is_digit(c: char) -> bool {
    c == '0' || digit_value(c) > 0
}

/// The number that a run of digits stands for.
pub open spec fn numeral_value(digits: Seq<char>) -> nat
    decreases digits.len(),
{
    if digits.len() == 0 {
        0
    } else {
        numeral_value(digits.drop_last()) * 10 + digit_value(digits.last())
    }
}

/// The decimal numeral of a number is a run of at least one digit that
/// stands for that number.
pub proof fn lemma_decimal_reads_back(n: nat)
    ensures
        decimal(n).len() >= 1,
        forall|i: int| 0 <= i < decimal(n).len() ==> is_digit(#[trigger] decimal(n)[i]),
        numeral_value(decimal(n)) == n,
    decreases n,
{
    if n < 10 {
        assert(decimal(n).drop_last() =~= Seq::<char>::empty());
        assert(numeral_value(decimal(n).drop_last()) == 0);
    } else {
        lemma_decimal_reads_back(n / 10);
        assert(decimal(n).drop_last() =~= decimal(n / 10));
        assert(digit_value(digit(n % 10)) == n % 10);
    }
}

/// Two numbers with the same decimal numeral are the same number.
pub proof fn lemma_decimal_is_injective(a: nat, b: nat)
    requires
        decimal(a) == decimal(b),
    ensures
        a == b,
{
    lemma_decimal_reads_back(a);
    lemma_decimal_reads_back(b);
}

/// The one-character string for the decimal digit `d`.
fn digit_text(d: u64) -> (text: &'static str)
    requires
        d < 10,
    ensures
        text@ == seq![digit(d as nat)],
{
    proof {
        reveal_strlit("0");
        reveal_strlit("1");
        reveal_strlit("2");
        reveal_strlit("3");
        reveal_strlit("4");
        reveal_strlit("5");
        reveal_strlit("6");
        reveal_strlit("7");
        reveal_strlit("8");
        reveal_strlit("9");
    }
    let text = if d == 0 {
        "0"
    } else if d == 1 {
        "1"
    } else if d == 2 {
        "2"
    } else if d == 3 {
        "3"
    } else if d == 4 {
        "4"
    } else if d == 5 {
        "5"
    } else if d == 6 {
        "6"
    } else if d == 7 {
        "7"
    } else if d == 8 {
        "8"
    } else {
        "9"
    };
    assert(text@ =~= seq![digit(d as nat)]);
    text
}

/// Appends the decimal numeral of `n` to `out`.
pub fn append_decimal(out: &mut String, n: u64)
    ensures
        final(out)@ == old(out)@ + decimal(n as nat),
    decreases n,
{
    if n >= 10 {
        append_decimal(out, n / 10);
    }
    out.append(digit_text(n % 10));
    assert(out@ =~= old(out)@ + decimal(n as nat));
}

/// The decimal numeral of `n` as a string.
pub fn decimal_text(n: u64) -> (text: String)
    ensures
        text@ == decimal(n as nat),
{
    let mut text = String::new();
    append_decimal(&mut text, n);
    assert(text@ =~= decimal(n as nat));
    text
}

/// The number of bytes in a kibibyte.
pub const KIB: u64 = 1024;

/// The number of bytes in a mebibyte.
pub const MIB: u64 = 1048576;

/// The number of bytes in a gibibyte.
pub const GIB: u64 = 1073741824;

/// The number of bytes in `count` gibibytes, or `None` when that is more
/// than can be counted.
pub fn gibibytes(count: u64) -> (bytes: Option<u64>)
    ensures
        match bytes {
            Some(b) => b == count * GIB,
            None => count * GIB > u64::MAX,
        },
{
    count.checked_mul(GIB)
}

/// A size in the largest binary unit that divides it: `3GiB`, `32MiB`,
/// `5KiB`, or else in bytes, `1000B`.
pub open spec fn size_label(bytes: nat) -> Seq<char> {
    if bytes > 0 && bytes % (GIB as nat) == 0 {
        decimal(bytes / (GIB as nat)) + "GiB"@
    } else if bytes > 0 && bytes % (MIB as nat) == 0 {
        decimal(bytes / (MIB as nat)) + "MiB"@
    } else if bytes > 0 && bytes % (KIB as nat) == 0 {
        decimal(bytes / (KIB as nat)) + "KiB"@
    } else {
        decimal(bytes) + "B"@
    }
}

/// The numeral of a size label, where `unit` is the length of its unit:
/// what stands before the unit.
proof fn lemma_label_parts(number: nat, unit: Seq<char>)
    ensures
        (decimal(number) + unit).len() == decimal(number).len() + unit.len(),
        (decimal(number) + unit).take(decimal(number).len() as int) == decimal(number),
        forall|i: int|
            0 <= i < unit.len() ==> (decimal(number) + unit)[decimal(number).len() + i] == unit[i],
        is_digit((decimal(number) + unit)[decimal(number).len() - 1]),
{
    lemma_decimal_reads_back(number);
    assert((decimal(number) + unit).take(decimal(number).len() as int) =~= decimal(number));
    assert((decimal(number) + unit)[decimal(number).len() - 1] == decimal(number)[decimal(
        number,
    ).len() - 1]);
}

/// Two sizes with the same label are the same size.
pub proof fn lemma_size_label_is_injective(a: nat, b: nat)
    requires
        size_label(a) == size_label(b),
    ensures
        a == b,
{
    reveal_strlit("GiB");
    reveal_strlit("MiB");
    reveal_strlit("KiB");
    reveal_strlit("B");
    let g = GIB as nat;
    let m = MIB as nat;
    let k = KIB as nat;
    let (number_a, unit_a) = if a > 0 && a % g == 0 {
        (a / g, "GiB"@)
    } else if a > 0 && a % m == 0 {
        (a / m, "MiB"@)
    } else if a > 0 && a % k == 0 {
        (a / k, "KiB"@)
    } else {
        (a, "B"@)
    };
    let (number_b, unit_b) = if b > 0 && b % g == 0 {
        (b / g, "GiB"@)
    } else if b > 0 && b % m == 0 {
        (b / m, "MiB"@)
    } else if b > 0 && b % k == 0 {
        (b / k, "KiB"@)
    } else {
        (b, "B"@)
    };
    let label = size_label(a);
    assert(label == decimal(number_a) + unit_a);
    assert(label == decimal(number_b) + unit_b);
    lemma_label_parts(number_a, unit_a);
    lemma_label_parts(number_b, unit_b);
    let digits_a = decimal(number_a).len() as int;
    let digits_b = decimal(number_b).len() as int;
    let len = label.len() as int;
    // A unit of three letters ends in `iB`, and no digit is an `i`; the
    // three-letter units differ in their first letter.
    if unit_a.len() == 3 && unit_b.len() == 1 {
        assert(label[len - 2] == unit_a[1]);
        assert(label[len - 2] == label[digits_b - 1]);
        assert(false);
    }
    if unit_a.len() == 1 && unit_b.len() == 3 {
        assert(label[len - 2] == unit_b[1]);
        assert(label[len - 2] == label[digits_a - 1]);
        assert(false);
    }
    if unit_a.len() == 3 && unit_b.len() == 3 {
        assert(label[len - 3] == unit_a[0]);
        assert(label[len - 3] == unit_b[0]);
    }
    assert(unit_a == unit_b);
    assert(digits_a == digits_b);
    lemma_decimal_is_injective(number_a, number_b);
}

/// A size in the largest binary unit that divides it.
pub fn size_text(bytes: u64) -> (text: String)
    ensures
        text@ == size_label(bytes as nat),
{
    if bytes > 0 && bytes % GIB == 0 {
        decimal_text(bytes / GIB).concat("GiB")
    } else if bytes > 0 && bytes % MIB == 0 {
        decimal_text(bytes / MIB).concat("MiB")
    } else if bytes > 0 && bytes % KIB == 0 {
        decimal_text(bytes / KIB).concat("KiB")
    } else {
        decimal_text(bytes).concat("B")
    }
}

} // verus!
