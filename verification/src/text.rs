//! Character-level string utilities shared by the whole crate.
//!
//! All textual logic in this crate (fragment escaping, path building, error
//! messages) works over `Vec<char>` buffers, so that every step is visible to
//! the verifier as plain sequence manipulation; these helpers bridge between
//! `&str` / `String` and those buffers.

use vstd::prelude::*;

verus! {

/// Push a single character onto a string.
///
/// Relies on std's `String::push`: appends exactly the given character.
#[verifier::external_body]
pub fn string_push(s: &mut String, c: char)
    ensures
        final(s)@ == old(s)@.push(c),
{
    s.push(c);
}

/// Collect the characters of a string slice into a vector.
pub fn str_to_chars(s: &str) -> (r: Vec<char>)
    ensures
        r@ == s@,
{
    let mut r: Vec<char> = Vec::new();
    for c in it: s.chars()
        invariant
            r@.len() == it.index(),
            forall|j: int| 0 <= j < r@.len() ==> r@[j] == it.seq()[j],
    {
        r.push(c);
    }
    proof {
        assert(r@ =~= s@);
    }
    r
}

/// Build a string from a vector of characters.
pub fn chars_to_string(v: &Vec<char>) -> (r: String)
    ensures
        r@ == v@,
{
    let mut r = String::new();
    let mut i: usize = 0;
    while i < v.len()
        invariant
            i <= v.len(),
            r@ == v@.subrange(0, i as int),
        decreases v.len() - i,
    {
        string_push(&mut r, v[i]);
        i = i + 1;
        proof {
            assert(r@ =~= v@.subrange(0, i as int));
        }
    }
    proof {
        assert(v@.subrange(0, v@.len() as int) =~= v@);
    }
    r
}

/// The character for a single decimal digit.
pub open spec fn digit_char(d: int) -> char {
    if d == 0 {
        '0'
    } else if d == 1 {
        '1'
    } else if d == 2 {
        '2'
    } else if d == 3 {
        '3'
    } else if d == 4 {
        '4'
    } else if d == 5 {
        '5'
    } else if d == 6 {
        '6'
    } else if d == 7 {
        '7'
    } else if d == 8 {
        '8'
    } else {
        '9'
    }
}

/// The decimal digits of a natural number, most significant first.
pub open spec fn spec_nat_chars(n: nat) -> Seq<char>
    decreases n,
{
    if n < 10 {
        seq![digit_char(n as int)]
    } else {
        spec_nat_chars(n / 10).push(digit_char((n % 10) as int))
    }
}

/// The last `width` decimal digits of a natural number, with leading zeros.
pub open spec fn spec_fixed_chars(n: nat, width: nat) -> Seq<char>
    decreases width,
{
    if width == 0 {
        Seq::empty()
    } else {
        spec_fixed_chars(n / 10, (width - 1) as nat).push(digit_char((n % 10) as int))
    }
}

fn digit_char_exec(d: u64) -> (r: char)
    requires
        d < 10,
    ensures
        r == digit_char(d as int),
{
    if d == 0 {
        '0'
    } else if d == 1 {
        '1'
    } else if d == 2 {
        '2'
    } else if d == 3 {
        '3'
    } else if d == 4 {
        '4'
    } else if d == 5 {
        '5'
    } else if d == 6 {
        '6'
    } else if d == 7 {
        '7'
    } else if d == 8 {
        '8'
    } else {
        '9'
    }
}

/// Every character of a rendered number is a decimal digit.
pub proof fn lemma_nat_chars_digits(n: nat)
    ensures
        forall|i: int|
            0 <= i < spec_nat_chars(n).len() ==> 48 <= (#[trigger] spec_nat_chars(n)[i]) as u32
                <= 57,
    decreases n,
{
    if n >= 10 {
        lemma_nat_chars_digits(n / 10);
        assert(forall|i: int|
            0 <= i < spec_nat_chars(n / 10).len() ==> spec_nat_chars(n)[i] == spec_nat_chars(
                n / 10,
            )[i]);
    }
}

/// A rendered number has at least one digit.
pub proof fn lemma_nat_chars_nonempty(n: nat)
    ensures
        spec_nat_chars(n).len() >= 1,
    decreases n,
{
    if n >= 10 {
        lemma_nat_chars_nonempty(n / 10);
    }
}

/// Different numbers render to different digit strings.
pub proof fn lemma_nat_chars_injective(a: nat, b: nat)
    requires
        a != b,
    ensures
        spec_nat_chars(a) != spec_nat_chars(b),
    decreases a + b,
{
    let da = spec_nat_chars(a);
    let db = spec_nat_chars(b);
    lemma_nat_chars_nonempty(a);
    lemma_nat_chars_nonempty(b);
    if a < 10 && b < 10 {
        assert(da[0] != db[0]);
    } else if a < 10 {
        lemma_nat_chars_nonempty(b / 10);
        assert(da.len() == 1 && db.len() >= 2);
    } else if b < 10 {
        lemma_nat_chars_nonempty(a / 10);
        assert(da.len() >= 2 && db.len() == 1);
    } else {
        if a % 10 != b % 10 {
            assert(da.last() != db.last());
            if da.len() == db.len() {
                assert(da[da.len() - 1] != db[db.len() - 1]);
            }
        } else {
            lemma_nat_chars_injective(a / 10, b / 10);
            if da == db {
                assert(da.drop_last() =~= spec_nat_chars(a / 10));
                assert(db.drop_last() =~= spec_nat_chars(b / 10));
                assert(spec_nat_chars(a / 10) == spec_nat_chars(b / 10));
            }
        }
    }
}

/// Append the decimal digits of `n` to `out`.
pub fn push_nat_chars(out: &mut Vec<char>, n: u64)
    ensures
        final(out)@ == old(out)@ + spec_nat_chars(n as nat),
    decreases n,
{
    if n < 10 {
        out.push(digit_char_exec(n));
    } else {
        proof {
            vstd::arithmetic::div_mod::lemma_div_decreases(n as int, 10);
            vstd::arithmetic::div_mod::lemma_div_pos_is_pos(n as int, 10);
        }
        push_nat_chars(out, n / 10);
        out.push(digit_char_exec(n % 10));
        proof {
            assert(out@ =~= old(out)@ + spec_nat_chars(n as nat));
        }
    }
}

/// Append the last `width` decimal digits of `n` to `out`, zero padded.
pub fn push_fixed_chars(out: &mut Vec<char>, n: u64, width: u32)
    ensures
        final(out)@ == old(out)@ + spec_fixed_chars(n as nat, width as nat),
    decreases width,
{
    if width > 0 {
        push_fixed_chars(out, n / 10, width - 1);
        out.push(digit_char_exec(n % 10));
        proof {
            assert(out@ =~= old(out)@ + spec_fixed_chars(n as nat, width as nat));
        }
    } else {
        proof {
            assert(out@ =~= old(out)@ + spec_fixed_chars(n as nat, 0));
        }
    }
}

/// Compare two string slices character by character.
pub fn str_eq(a: &str, b: &str) -> (r: bool)
    ensures
        r == (a@ == b@),
{
    let av = str_to_chars(a);
    let bv = str_to_chars(b);
    chars_eq(&av, &bv)
}

/// Compare two character vectors.
pub fn chars_eq(a: &Vec<char>, b: &Vec<char>) -> (r: bool)
    ensures
        r == (a@ == b@),
{
    if a.len() != b.len() {
        return false;
    }
    let mut i: usize = 0;
    while i < a.len()
        invariant
            i <= a.len(),
            a@.len() == b@.len(),
            forall|j: int| 0 <= j < i ==> a@[j] == b@[j],
        decreases a.len() - i,
    {
        if a[i] != b[i] {
            return false;
        }
        i = i + 1;
    }
    proof {
        assert(a@ =~= b@);
    }
    true
}

} // verus!
