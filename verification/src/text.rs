//! Character-level text operations: substring replacement, joining, and
//! decimal rendering of integers.

use vstd::prelude::*;

verus! {

/// `s` with every non-overlapping occurrence of `from`, found left to right,
/// replaced by `to` (the behaviour of `str::replace`). An empty pattern leaves
/// `s` unchanged.
pub open spec fn replace_all(s: Seq<char>, from: Seq<char>, to: Seq<char>) -> Seq<char>
    decreases s.len(),
{
    if s.len() == 0 || from.len() == 0 {
        s
    } else if from.len() <= s.len() && s.take(from.len() as int) == from {
        to + replace_all(s.skip(from.len() as int), from, to)
    } else {
        seq![s[0]] + replace_all(s.skip(1), from, to)
    }
}

/// The pieces joined in order with `sep` between neighbours.
pub open spec fn join_with(parts: Seq<Seq<char>>, sep: Seq<char>) -> Seq<char>
    decreases parts.len(),
{
    if parts.len() == 0 {
        Seq::empty()
    } else if parts.len() == 1 {
        parts[0]
    } else {
        join_with(parts.drop_last(), sep) + sep + parts.last()
    }
}

/// The decimal digits of a natural number, most significant first, without
/// leading zeros ("0" for zero).
pub open spec fn decimal_digits(n: nat) -> Seq<char>
    decreases n,
{
    if n < 10 {
        seq![digit_char(n)]
    } else {
        decimal_digits(n / 10) + seq![digit_char(n % 10)]
    }
}

/// The character of a decimal digit.
pub open spec fn digit_char(d: nat) -> char {
    if d == 0 { '0' }
    else if d == 1 { '1' }
    else if d == 2 { '2' }
    else if d == 3 { '3' }
    else if d == 4 { '4' }
    else if d == 5 { '5' }
    else if d == 6 { '6' }
    else if d == 7 { '7' }
    else if d == 8 { '8' }
    else { '9' }
}

/// An integer in decimal, with a leading '-' when negative (as `Display`
/// and `Debug` write integers).
pub open spec fn signed_decimal(i: int) -> Seq<char> {
    if i < 0 {
        seq!['-'] + decimal_digits((-i) as nat)
    } else {
        decimal_digits(i as nat)
    }
}

/// The characters of a string, in order.
pub fn chars_of(s: &str) -> (r: Vec<char>)
    ensures
        r@ == s@,
{
    let mut v: Vec<char> = Vec::new();
    for c in iter: s.chars()
        invariant
            v@ == iter.seq().take(iter.index()),
    {
        v.push(c);
    }
    v
}

/// Collects characters into a `String` (std's `FromIterator<&char>` for
/// `String`): the string holds exactly these characters, in order.
#[verifier::external_body]
pub(crate) fn string_from_chars(chars: &[char]) -> (r: String)
    ensures
        r@ == chars@,
{
    chars.iter().collect::<String>()
}

/// A fresh `String` holding the characters of `s`.
pub fn owned(s: &str) -> (r: String)
    ensures
        r@ == s@,
{
    s.to_string()
}

/// Whether `pat` occurs in `s` at position `i`.
pub fn occurs_at(s: &Vec<char>, i: usize, pat: &Vec<char>) -> (b: bool)
    requires
        i <= s.len(),
    ensures
        b == (i + pat.len() <= s.len() && s@.subrange(i as int, i + pat.len()) == pat@),
{
    if pat.len() > s.len() - i {
        return false;
    }
    let mut j: usize = 0;
    while j < pat.len()
        invariant
            i + pat.len() <= s.len(),
            j <= pat.len(),
            forall|k: int| 0 <= k < j ==> s@[i + k] == pat@[k],
        decreases pat.len() - j,
    {
        if s[i + j] != pat[j] {
            assert(s@.subrange(i as int, i + pat.len())[j as int] != pat@[j as int]);
            return false;
        }
        j = j + 1;
    }
    assert(s@.subrange(i as int, i + pat.len()) =~= pat@);
    true
}

/// Replaces every occurrence of `from` in `s` by `to`, scanning left to
/// right (as `str::replace` does).
pub fn replace_all_chars(s: &Vec<char>, from: &Vec<char>, to: &Vec<char>) -> (r: Vec<char>)
    ensures
        r@ == replace_all(s@, from@, to@),
{
    let mut out: Vec<char> = Vec::new();
    let mut i: usize = 0;
    assert(s@.skip(0) =~= s@);
    while i < s.len()
        invariant
            i <= s.len(),
            out@ + replace_all(s@.skip(i as int), from@, to@) == replace_all(s@, from@, to@),
        decreases s.len() - i,
    {
        let ghost rest = s@.skip(i as int);
        if from.len() > 0 && occurs_at(s, i, from) {
            assert(rest.take(from.len() as int) =~= s@.subrange(i as int, i + from.len()));
            assert(rest.skip(from.len() as int) =~= s@.skip(i + from.len()));
            let mut k: usize = 0;
            let ghost before = out@;
            while k < to.len()
                invariant
                    k <= to.len(),
                    out@ == before + to@.take(k as int),
                decreases to.len() - k,
            {
                out.push(to[k]);
                k = k + 1;
                assert(out@ =~= before + to@.take(k as int));
            }
            assert(to@.take(to.len() as int) =~= to@);
            assert(out@ + replace_all(s@.skip(i + from.len()), from@, to@) =~= before + (to@
                + replace_all(rest.skip(from.len() as int), from@, to@)));
            i = i + from.len();
        } else {
            proof {
                if from.len() > 0 && from.len() <= rest.len() {
                    assert(rest.take(from.len() as int) =~= s@.subrange(i as int, i + from.len()));
                }
            }
            assert(rest.skip(1) =~= s@.skip(i + 1));
            let ghost before = out@;
            out.push(s[i]);
            proof {
                if from.len() == 0 {
                    assert(rest =~= seq![s@[i as int]] + s@.skip(i + 1));
                    assert(before + rest =~= out@ + s@.skip(i + 1));
                } else {
                    assert(before + (seq![rest[0]] + replace_all(rest.skip(1), from@, to@)) =~= out@
                        + replace_all(s@.skip(i + 1), from@, to@));
                }
            }
            i = i + 1;
        }
    }
    assert(s@.skip(i as int) =~= Seq::<char>::empty());
    assert(out@ + Seq::<char>::empty() =~= out@);
    out
}

/// Appends the decimal digits of `n` to `out`.
fn push_decimal(n: u64, out: &mut Vec<char>)
    ensures
        final(out)@ == old(out)@ + decimal_digits(n as nat),
    decreases n,
{
    if n >= 10 {
        push_decimal(n / 10, out);
    }
    let d = n % 10;
    let c = if d == 0 { '0' }
        else if d == 1 { '1' }
        else if d == 2 { '2' }
        else if d == 3 { '3' }
        else if d == 4 { '4' }
        else if d == 5 { '5' }
        else if d == 6 { '6' }
        else if d == 7 { '7' }
        else if d == 8 { '8' }
        else { '9' };
    out.push(c);
    assert(out@ =~= old(out)@ + decimal_digits(n as nat));
}

/// An unsigned integer in decimal.
pub fn format_u64(n: u64) -> (r: String)
    ensures
        r@ == decimal_digits(n as nat),
{
    let mut v: Vec<char> = Vec::new();
    push_decimal(n, &mut v);
    assert(v@ =~= decimal_digits(n as nat));
    string_from_chars(v.as_slice())
}

/// A signed integer in decimal, as `Display` writes it.
pub fn format_i64(i: i64) -> (r: String)
    ensures
        r@ == signed_decimal(i as int),
{
    let mut v: Vec<char> = Vec::new();
    if i < 0 {
        v.push('-');
        let m: u64 = if i == i64::MIN { 9223372036854775808u64 } else { (-i) as u64 };
        push_decimal(m, &mut v);
    } else {
        push_decimal(i as u64, &mut v);
    }
    assert(v@ =~= signed_decimal(i as int));
    string_from_chars(v.as_slice())
}

/// The strings joined in order with `sep` between neighbours (as
/// `[String]::join`).
pub fn join(parts: &Vec<String>, sep: &str) -> (r: String)
    ensures
        r@ == join_with(parts@.map_values(|p: String| p@), sep@),
{
    let ghost views = parts@.map_values(|p: String| p@);
    let mut out = String::new();
    let mut i: usize = 0;
    while i < parts.len()
        invariant
            i <= parts.len(),
            views == parts@.map_values(|p: String| p@),
            out@ == join_with(views.take(i as int), sep@),
        decreases parts.len() - i,
    {
        assert(views.take(i + 1).drop_last() =~= views.take(i as int));
        if i > 0 {
            out.append(sep);
        }
        out.append(parts[i].as_str());
        i = i + 1;
    }
    assert(views.take(parts.len() as int) =~= views);
    out
}

} // verus!
