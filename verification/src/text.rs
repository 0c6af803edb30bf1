//! Text: how numbers and strings are written out.
//!
//! Texts are modelled as sequences of characters.

use vstd::prelude::*;
use vstd::string::StringExecFns;

verus! {

/// Specifies `String::push`, which appends one character to the end of the string.
pub assume_specification[ String::push ](s: &mut String, c: char)
    ensures
        final(s)@ == old(s)@.push(c),
;

/// The decimal digit that stands for `d`.
pub open spec fn digit_char(d: nat) -> char {
    if d == 0 {
        '0'
    } else if d == 1 {
        '1'
    } else if d == 2 {
        '2'
    } else if d == 3 {
        '3'
    } else if d == 4 {
        '4'
    } else if d == 5 {
        '5'
    } else if d == 6 {
        '6'
    } else if d == 7 {
        '7'
    } else if d == 8 {
        '8'
    } else {
        '9'
    }
}

/// The lower-case hexadecimal digit that stands for `d`.
pub open spec fn hex_char(d: nat) -> char {
    if d < 10 {
        digit_char(d)
    } else if d == 10 {
        'a'
    } else if d == 11 {
        'b'
    } else if d == 12 {
        'c'
    } else if d == 13 {
        'd'
    } else if d == 14 {
        'e'
    } else {
        'f'
    }
}

/// The decimal digits of `n`, without leading zeros.
pub open spec fn digits(n: nat) -> Seq<char>
    decreases n,
{
    if n < 10 {
        seq![digit_char(n)]
    } else {
        digits(n / 10).push(digit_char(n % 10))
    }
}

/// The decimal notation of `v`, with a minus sign where `v` is negative.
pub open spec fn decimal(v: int) -> Seq<char> {
    if v < 0 {
        seq!['-'] + digits((-v) as nat)
    } else {
        digits(v as nat)
    }
}

/// The last `width` hexadecimal digits of `n`.
pub open spec fn hex_digits(n: nat, width: nat) -> Seq<char>
    decreases width,
{
    if width == 0 {
        Seq::empty()
    } else {
        hex_digits(n / 16, (width - 1) as nat).push(hex_char(n % 16))
    }
}

/// `v` in sixteen hexadecimal digits.
pub open spec fn hex16(v: u64) -> Seq<char> {
    hex_digits(v as nat, 16)
}

/// The notation of a truth value.
pub open spec fn bool_text(b: bool) -> Seq<char> {
    if b {
        "true"@
    } else {
        "false"@
    }
}

/// The texts that a sequence of strings holds.
pub open spec fn texts(strings: Seq<String>) -> Seq<Seq<char>> {
    strings.map_values(|s: String| s@)
}

/// The parts, one after the other, with `separator` between two neighbours.
pub open spec fn joined(parts: Seq<Seq<char>>, separator: Seq<char>) -> Seq<char>
    decreases parts.len(),
{
    if parts.len() == 0 {
        Seq::empty()
    } else if parts.len() == 1 {
        parts[0]
    } else {
        joined(parts.drop_last(), separator) + separator + parts.last()
    }
}

/// What the `{:?}` format of the standard library makes of a string: the string in double quotes,
/// with the characters that the library deems unprintable escaped.
pub uninterp spec fn debug_text(s: Seq<char>) -> Seq<char>;

/// The parts in square brackets, with a comma between two neighbours.
pub open spec fn list_text(parts: Seq<Seq<char>>) -> Seq<char> {
    "["@ + joined(parts, ", "@) + "]"@
}

/// The debug notation of a list of strings.
pub open spec fn debug_list(strings: Seq<Seq<char>>) -> Seq<char> {
    list_text(strings.map_values(|s: Seq<char>| debug_text(s)))
}

/// Calls the formatter of the standard library with `{:?}` on a string. Its result depends on the
/// string alone; which characters it escapes is left unsaid.
#[verifier::external_body]
fn debug_string(s: &str) -> (r: String)
    ensures
        r@ == debug_text(s@),
{
    format!("{:?}", s)
}

fn digit(d: u64) -> (c: char)
    requires
        d < 16,
    ensures
        c == hex_char(d as nat),
{
    match d {
        0 => '0',
        1 => '1',
        2 => '2',
        3 => '3',
        4 => '4',
        5 => '5',
        6 => '6',
        7 => '7',
        8 => '8',
        9 => '9',
        10 => 'a',
        11 => 'b',
        12 => 'c',
        13 => 'd',
        14 => 'e',
        _ => 'f',
    }
}

/// The characters of a text.
pub fn chars_of(s: &str) -> (r: Vec<char>)
    ensures
        r@ == s@,
{
    let mut out: Vec<char> = Vec::new();
    for c in it: s.chars()
        invariant
            out@ == s@.take(it.index()),
            it.seq() == s@,
    {
        out.push(c);
        assert(s@.take(it.index() + 1) =~= s@.take(it.index()).push(c));
    }
    assert(s@.take(s@.len() as int) =~= s@);
    out
}

/// Two texts, one after the other.
pub fn concat2(a: &str, b: &str) -> (r: String)
    ensures
        r@ == a@ + b@,
{
    let mut r = a.to_string();
    r.append(b);
    r
}

/// Three texts, one after the other.
pub fn concat3(a: &str, b: &str, c: &str) -> (r: String)
    ensures
        r@ == a@ + b@ + c@,
{
    let mut r = a.to_string();
    r.append(b);
    r.append(c);
    r
}

/// Appends the decimal notation of `n`.
pub fn push_u64(out: &mut String, n: u64)
    ensures
        final(out)@ == old(out)@ + decimal(n as int),
    decreases n,
{
    if n >= 10 {
        push_u64(out, n / 10);
    }
    out.push(digit(n % 10));
    assert(out@ =~= old(out)@ + digits(n as nat));
}

/// Appends the decimal notation of `n`.
pub fn push_usize(out: &mut String, n: usize)
    ensures
        final(out)@ == old(out)@ + decimal(n as int),
{
    push_u64(out, n as u64);
}

/// Appends the decimal notation of `v`.
pub fn push_i64(out: &mut String, v: i64)
    ensures
        final(out)@ == old(out)@ + decimal(v as int),
{
    if v < 0 {
        out.push('-');
        let ghost signed: Seq<char> = out@;
        push_u64(out, (-(v + 1)) as u64 + 1);
        assert(out@ =~= old(out)@ + (seq!['-'] + digits((-v) as nat)));
    } else {
        push_u64(out, v as u64);
    }
}

/// Appends the last `width` hexadecimal digits of `n`.
pub fn push_hex_digits(out: &mut String, n: u64, width: u64)
    ensures
        final(out)@ == old(out)@ + hex_digits(n as nat, width as nat),
    decreases width,
{
    if width > 0 {
        push_hex_digits(out, n / 16, width - 1);
        out.push(digit(n % 16));
    }
    assert(out@ =~= old(out)@ + hex_digits(n as nat, width as nat));
}

/// Appends `v` in sixteen hexadecimal digits.
pub fn push_hex16(out: &mut String, v: u64)
    ensures
        final(out)@ == old(out)@ + hex16(v),
{
    push_hex_digits(out, v, 16);
}

/// Appends the notation of a truth value.
pub fn push_bool(out: &mut String, b: bool)
    ensures
        final(out)@ == old(out)@ + bool_text(b),
{
    if b {
        out.append("true");
    } else {
        out.append("false");
    }
}

/// The parts, one after the other, with `separator` between two neighbours.
pub fn joined_text(parts: &Vec<String>, separator: &str) -> (r: String)
    ensures
        r@ == joined(texts(parts@), separator@),
{
    let mut out = String::new();
    let ghost all: Seq<Seq<char>> = texts(parts@);
    let mut i: usize = 0;
    while i < parts.len()
        invariant
            i <= parts.len(),
            all == texts(parts@),
            out@ == joined(all.take(i as int), separator@),
        decreases parts.len() - i,
    {
        if i > 0 {
            out.append(separator);
        }
        out.append(parts[i].as_str());
        i = i + 1;
        proof {
            let now = all.take(i as int);
            assert(now.drop_last() =~= all.take(i - 1));
            assert(now.last() == parts[i - 1]@);
            assert(out@ =~= joined(now, separator@));
        }
    }
    assert(all.take(i as int) =~= all);
    out
}

/// Appends a list: the parts in square brackets, with a comma between two neighbours.
pub fn push_list(out: &mut String, parts: &Vec<String>)
    ensures
        final(out)@ == old(out)@ + list_text(texts(parts@)),
{
    out.append("[");
    out.append(joined_text(parts, ", ").as_str());
    out.append("]");
    assert(out@ =~= old(out)@ + list_text(texts(parts@)));
}

/// The debug notation of a list of strings.
pub fn debug_strings(strings: &Vec<String>) -> (r: String)
    ensures
        r@ == debug_list(texts(strings@)),
{
    let mut parts: Vec<String> = Vec::new();
    let mut i: usize = 0;
    while i < strings.len()
        invariant
            i <= strings.len(),
            parts.len() == i,
            forall|j: int| 0 <= j < i ==> (#[trigger] parts[j])@ == debug_text(strings[j]@),
        decreases strings.len() - i,
    {
        parts.push(debug_string(strings[i].as_str()));
        i = i + 1;
    }
    assert(texts(parts@) =~= texts(strings@).map_values(|s: Seq<char>| debug_text(s)));
    let mut out = String::new();
    push_list(&mut out, &parts);
    assert(out@ =~= debug_list(texts(strings@)));
    out
}

/// Numbers below a power of sixteen have different digits.
proof fn lemma_hex_digits_injective(a: nat, b: nat, width: nat)
    requires
        a < vstd::arithmetic::power::pow(16, width),
        b < vstd::arithmetic::power::pow(16, width),
        hex_digits(a, width) == hex_digits(b, width),
    ensures
        a == b,
    decreases width,
{
    vstd::arithmetic::power::lemma_pow0(16);
    if width > 0 {
        let rest = (width - 1) as nat;
        vstd::arithmetic::power::lemma_pow_adds(16, 1, rest);
        vstd::arithmetic::power::lemma_pow1(16);
        assert(hex_digits(a, width).drop_last() =~= hex_digits(a / 16, rest));
        assert(hex_digits(b, width).drop_last() =~= hex_digits(b / 16, rest));
        assert(hex_digits(a, width).last() == hex_char(a % 16));
        assert(hex_digits(b, width).last() == hex_char(b % 16));
        assert(a % 16 == b % 16);
        lemma_hex_digits_injective(a / 16, b / 16, rest);
    }
}

proof fn lemma_hex_digits_length(n: nat, width: nat)
    ensures
        hex_digits(n, width).len() == width,
    decreases width,
{
    if width > 0 {
        lemma_hex_digits_length(n / 16, (width - 1) as nat);
    }
}

/// Sixteen hexadecimal digits tell all numbers apart.
pub proof fn law_hexadecimal_is_unambiguous(a: u64, b: u64)
    ensures
        hex16(a).len() == 16,
        hex16(a) == hex16(b) ==> a == b,
{
    lemma_hex_digits_length(a as nat, 16);
    if hex16(a) == hex16(b) {
        assert(vstd::arithmetic::power::pow(16, 16) == 0x1_0000_0000_0000_0000) by {
            reveal(vstd::arithmetic::power::pow);
            reveal_with_fuel(vstd::arithmetic::power::pow, 17);
        }
        lemma_hex_digits_injective(a as nat, b as nat, 16);
    }
}

/// The number that decimal digits stand for.
pub open spec fn numeral(s: Seq<char>) -> int
    decreases s.len(),
{
    if s.len() == 0 {
        0
    } else {
        numeral(s.drop_last()) * 10 + (s.last() as int - '0' as int)
    }
}

/// The decimal notation of a number is a minus sign where it is negative, and digits that stand
/// for its magnitude, without a leading zero unless that is all.
pub proof fn law_decimal_reads_back(v: int)
    ensures
        ({
            let digits = if v < 0 { decimal(v).skip(1) } else { decimal(v) };
            &&& v < 0 ==> decimal(v).len() > 0 && decimal(v)[0] == '-'
            &&& digits.len() > 0
            &&& forall|i: int|
                0 <= i < digits.len() ==> '0' as int <= #[trigger] digits[i] as int <= '9' as int
            &&& digits.len() > 1 ==> digits[0] != '0'
            &&& numeral(digits) == if v < 0 { -v } else { v }
        }),
{
    if v < 0 {
        lemma_digits((-v) as nat);
        assert(decimal(v).skip(1) =~= digits((-v) as nat));
    } else {
        lemma_digits(v as nat);
    }
}

proof fn lemma_digits(n: nat)
    ensures
        digits(n).len() > 0,
        forall|i: int|
            0 <= i < digits(n).len() ==> '0' as int <= #[trigger] digits(n)[i] as int <= '9' as int,
        n > 0 ==> digits(n)[0] != '0',
        n == 0 ==> digits(n).len() == 1,
        numeral(digits(n)) == n,
    decreases n,
{
    if n < 10 {
        assert(digits(n).drop_last() =~= Seq::empty());
        assert(numeral(Seq::<char>::empty()) == 0);
        assert(numeral(digits(n)) == digit_char(n) as int - '0' as int);
    } else {
        lemma_digits(n / 10);
        assert(digits(n).drop_last() =~= digits(n / 10));
        assert(digits(n)[0] == digits(n / 10)[0]);
    }
}

/// The value of a lower-case hexadecimal digit.
pub open spec fn hex_value(c: char) -> int {
    if '0' as int <= c as int <= '9' as int {
        c as int - '0' as int
    } else if 'a' as int <= c as int <= 'f' as int {
        10 + c as int - 'a' as int
    } else {
        -1
    }
}

/// The number that hexadecimal digits stand for.
pub open spec fn hex_numeral(s: Seq<char>) -> int
    decreases s.len(),
{
    if s.len() == 0 {
        0
    } else {
        hex_numeral(s.drop_last()) * 16 + hex_value(s.last())
    }
}

/// Sixteen lower-case hexadecimal digits stand for the number that they are made of.
pub proof fn law_hexadecimal_reads_back(v: u64)
    ensures
        hex16(v).len() == 16,
        forall|i: int| 0 <= i < 16 ==> 0 <= hex_value(#[trigger] hex16(v)[i]) < 16,
        hex_numeral(hex16(v)) == v,
{
    assert(vstd::arithmetic::power::pow(16, 16) == 0x1_0000_0000_0000_0000) by {
        reveal(vstd::arithmetic::power::pow);
        reveal_with_fuel(vstd::arithmetic::power::pow, 17);
    }
    lemma_hex_digits_length(v as nat, 16);
    lemma_hex_digits_value(v as nat, 16);
}

proof fn lemma_hex_digits_value(n: nat, width: nat)
    requires
        n < vstd::arithmetic::power::pow(16, width),
    ensures
        forall|i: int|
            0 <= i < hex_digits(n, width).len() ==> 0 <= hex_value(
                #[trigger] hex_digits(n, width)[i],
            ) < 16,
        hex_numeral(hex_digits(n, width)) == n,
    decreases width,
{
    vstd::arithmetic::power::lemma_pow0(16);
    if width > 0 {
        let rest = (width - 1) as nat;
        vstd::arithmetic::power::lemma_pow_adds(16, 1, rest);
        vstd::arithmetic::power::lemma_pow1(16);
        lemma_hex_digits_value(n / 16, rest);
        assert(hex_digits(n, width).drop_last() =~= hex_digits(n / 16, rest));
        assert(hex_value(hex_char(n % 16)) == n % 16);
    }
}

/// Joined parts are the first part, and then every other part with the separator before it.
pub proof fn law_parts_are_joined_in_order(parts: Seq<Seq<char>>, separator: Seq<char>)
    ensures
        parts.len() == 0 ==> joined(parts, separator) == Seq::<char>::empty(),
        parts.len() > 0 ==> joined(parts, separator) == parts[0] + Seq::new(
            (parts.len() - 1) as nat,
            |i: int| separator + parts[i + 1],
        ).flatten_alt(),
    decreases parts.len(),
{
    if parts.len() == 1 {
        let rest = Seq::new(0, |i: int| separator + parts[i + 1]);
        assert(rest.flatten_alt() =~= Seq::empty());
        assert(Seq::new((parts.len() - 1) as nat, |i: int| separator + parts[i + 1]) =~= rest);
        assert(parts[0] + rest.flatten_alt() =~= parts[0]);
    } else if parts.len() > 1 {
        let front = parts.drop_last();
        law_parts_are_joined_in_order(front, separator);
        let all = Seq::new((parts.len() - 1) as nat, |i: int| separator + parts[i + 1]);
        let before = Seq::new((front.len() - 1) as nat, |i: int| separator + front[i + 1]);
        assert(all.drop_last() =~= before);
        assert(all.last() == separator + parts.last());
        assert(parts[0] + (before.flatten_alt() + (separator + parts.last())) =~= (parts[0]
            + before.flatten_alt()) + separator + parts.last());
    }
}

} // verus!
