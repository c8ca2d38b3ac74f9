//! String helpers: appending characters, file-name sanitising, joining, decimal text.
use vstd::prelude::*;
use vstd::string::*;

verus! {

/// Appends one character to a string (`String::push`).
#[verifier::external_body]
pub(crate) fn string_push(s: &mut String, c: char)
    ensures
        final(s)@ == old(s)@.push(c),
{
    s.push(c);
}

/// Whether std classifies `c` as alphanumeric (Unicode `Alphabetic` or `Numeric`).
pub uninterp spec fn spec_is_alphanumeric(c: char) -> bool;

/// `char::is_alphanumeric`: whether `c` is alphabetic or numeric in Unicode.
#[verifier::external_body]
pub(crate) fn char_is_alphanumeric(c: char) -> (r: bool)
    ensures
        r == spec_is_alphanumeric(c),
{
    c.is_alphanumeric()
}

/// The character a file name keeps in place of `c`: `c` itself when it is
/// alphanumeric, `-` or `_`, otherwise `_`.
pub open spec fn sanitized_char(c: char) -> char {
    if spec_is_alphanumeric(c) || c == '-' || c == '_' {
        c
    } else {
        '_'
    }
}

/// `s` with every character that is not alphanumeric, `-` or `_` replaced by `_`.
pub open spec fn sanitized(s: Seq<char>) -> Seq<char> {
    s.map_values(|c: char| sanitized_char(c))
}

/// Replaces every character of `s` that is not alphanumeric, `-` or `_` by `_`.
pub fn sanitize_filename(s: &str) -> (r: String)
    ensures
        r@ == sanitized(s@),
{
    broadcast use vstd::string::group_string_axioms;
    let mut r = String::new();
    let ghost src = s@;
    for c in it: s.chars()
        invariant
            it.seq() == src,
            r@ == sanitized(src.subrange(0, it.index() as int)),
    {
        let keep = char_is_alphanumeric(c) || c == '-' || c == '_';
        let ghost before = r@;
        if keep {
            string_push(&mut r, c);
        } else {
            string_push(&mut r, '_');
        }
        assert(src.subrange(0, it.index() + 1) == src.subrange(0, it.index() as int).push(c));
    }
    assert(src.subrange(0, src.len() as int) == src);
    r
}

/// The parts joined with `sep` between consecutive parts.
pub open spec fn joined(parts: Seq<Seq<char>>, sep: Seq<char>) -> Seq<char>
    decreases parts.len(),
{
    if parts.len() == 0 {
        Seq::empty()
    } else if parts.len() == 1 {
        parts[0]
    } else {
        joined(parts.drop_last(), sep) + sep + parts.last()
    }
}

/// The views of a list of strings.
pub open spec fn string_views(v: Seq<String>) -> Seq<Seq<char>> {
    v.map_values(|s: String| s@)
}

/// Joins `parts` with `sep` between consecutive parts.
pub fn join(parts: &Vec<String>, sep: &str) -> (r: String)
    ensures
        r@ == joined(string_views(parts@), sep@),
{
    let mut r = String::new();
    let n = parts.len();
    let mut i: usize = 0;
    while i < n
        invariant
            n == parts@.len(),
            i <= n,
            r@ == joined(string_views(parts@.subrange(0, i as int)), sep@),
        decreases n - i,
    {
        let ghost prev = parts@.subrange(0, i as int);
        let ghost next = parts@.subrange(0, i + 1);
        assert(string_views(next).drop_last() == string_views(prev));
        assert(string_views(next).last() == parts@[i as int]@);
        if i > 0 {
            r.append(sep);
        }
        r.append(parts[i].as_str());
        i += 1;
    }
    assert(parts@.subrange(0, n as int) == parts@);
    r
}

/// The decimal digits of `n`, most significant first, without leading zeros ("0" for 0).
pub open spec fn decimal(n: nat) -> Seq<char>
    decreases n,
{
    if n < 10 {
        seq![digit_char(n)]
    } else {
        decimal(n / 10).push(digit_char(n % 10))
    }
}

/// The character of a digit 0..=9.
pub open spec fn digit_char(d: nat) -> char {
    (48 + d) as char
}

/// The decimal text of `n`.
pub fn decimal_string(n: u32) -> (r: String)
    ensures
        r@ == decimal(n as nat),
{
    let mut digits: Vec<char> = Vec::new();
    let mut m: u32 = n;
    // digits of n in reverse order, then reversed into the string
    loop
        invariant_except_break
            m <= n,
            decimal(n as nat) == decimal(m as nat) + digits@.reverse(),
        ensures
            decimal(n as nat) == digits@.reverse(),
        decreases m,
    {
        let d = m % 10;
        let c = char_of_digit(d);
        if m < 10 {
            let ghost old_digits = digits@;
            digits.push(c);
            assert(decimal(m as nat) == seq![c]);
            assert(digits@.reverse() == seq![c] + old_digits.reverse());
            break;
        }
        proof {
            assert(decimal(m as nat) == decimal((m / 10) as nat).push(c));
        }
        let ghost old_digits = digits@;
        digits.push(c);
        assert(digits@.reverse() == seq![c] + old_digits.reverse());
        assert(decimal(m as nat) + old_digits.reverse() == decimal((m / 10) as nat) + digits@.reverse());
        m = m / 10;
    }
    let mut r = String::new();
    let k = digits.len();
    let mut j: usize = k;
    while j > 0
        invariant
            j <= k,
            k == digits@.len(),
            r@ == digits@.reverse().subrange(0, (k - j) as int),
        decreases j,
    {
        j -= 1;
        let ghost prev = r@;
        string_push(&mut r, digits[j]);
        assert(digits@.reverse().subrange(0, (k - j) as int) == prev.push(digits@[j as int]));
    }
    assert(digits@.reverse().subrange(0, k as int) == digits@.reverse());
    r
}

/// The character of digit `d` (0..=9).
fn char_of_digit(d: u32) -> (c: char)
    requires
        d < 10,
    ensures
        c == digit_char(d as nat),
{
    if d == 0 { '0' }
    else if d == 1 { '1' }
    else if d == 2 { '2' }
    else if d == 3 { '3' }
    else if d == 4 { '4' }
    else if d == 5 { '5' }
    else if d == 6 { '6' }
    else if d == 7 { '7' }
    else if d == 8 { '8' }
    else { '9' }
}

} // verus!
