//! Small helpers for building owned strings out of scalar sequences and
//! numbers, used by the diagnostic renderers and the pointer / path
//! serializers.
use vstd::prelude::*;

verus! {

/// The decimal digit character for a value below ten.
pub open spec fn digit_char(d: int) -> char
    recommends
        0 <= d < 10,
{
    (('0' as u32) + d) as char
}

/// The decimal rendering of a non-negative number, most significant digit
/// first.
pub open spec fn spec_udec(n: int) -> Seq<char>
    recommends
        n >= 0,
    decreases n,
{
    if n < 10 {
        seq![digit_char(n)]
    } else {
        spec_udec(n / 10).push(digit_char(n % 10))
    }
}

/// The decimal rendering of a signed number: a minus sign ahead of the
/// digits for negative values.
pub open spec fn spec_idec(n: int) -> Seq<char> {
    if n < 0 {
        seq!['-'] + spec_udec(-n)
    } else {
        spec_udec(n)
    }
}

/// Relies on `String::push`: appends the given character to the end of the
/// string.
#[verifier::external_body]
pub(crate) fn push_char(s: &mut String, c: char)
    ensures
        final(s)@ == old(s)@.push(c),
{
    s.push(c);
}

/// Build an owned string holding exactly the given scalars.
pub fn chars_to_string(v: &Vec<char>) -> (s: String)
    ensures
        s@ == v@,
{
    let mut s = String::new();
    let mut i: usize = 0;
    while i < v.len()
        invariant
            i <= v.len(),
            s@ == v@.subrange(0, i as int),
        decreases v.len() - i,
    {
        push_char(&mut s, v[i]);
        i = i + 1;
        proof {
            assert(s@ =~= v@.subrange(0, i as int));
        }
    }
    proof {
        assert(s@ =~= v@);
    }
    s
}

/// The character for a single decimal digit.
fn digit_to_char(d: u64) -> (c: char)
    requires
        d < 10,
    ensures
        c == digit_char(d as int),
{
    match d {
        0 => '0',
        1 => '1',
        2 => '2',
        3 => '3',
        4 => '4',
        5 => '5',
        6 => '6',
        7 => '7',
        8 => '8',
        _ => '9',
    }
}

/// Append the decimal rendering of `n` to the end of `s`.
fn append_udec(s: &mut String, n: u64)
    ensures
        final(s)@ == old(s)@ + spec_udec(n as int),
    decreases n,
{
    if n < 10 {
        push_char(s, digit_to_char(n));
        proof {
            assert(s@ =~= old(s)@ + spec_udec(n as int));
        }
    } else {
        append_udec(s, n / 10);
        push_char(s, digit_to_char(n % 10));
        proof {
            assert(s@ =~= old(s)@ + spec_udec(n as int));
        }
    }
}

/// The decimal rendering of an unsigned 64-bit number.
pub fn u64_to_string(n: u64) -> (s: String)
    ensures
        s@ == spec_udec(n as int),
{
    let mut s = String::new();
    append_udec(&mut s, n);
    proof {
        assert(s@ =~= spec_udec(n as int));
    }
    s
}

/// The decimal rendering of a machine-sized unsigned number.
pub fn usize_to_string(n: usize) -> (s: String)
    ensures
        s@ == spec_udec(n as int),
{
    u64_to_string(n as u64)
}

/// The decimal rendering of a signed 64-bit number.
pub fn i64_to_string(n: i64) -> (s: String)
    ensures
        s@ == spec_idec(n as int),
{
    if n < 0 {
        let mut s = String::new();
        push_char(&mut s, '-');
        let m: u64 = ((-(n as i128)) as u64);
        append_udec(&mut s, m);
        proof {
            assert(Seq::<char>::empty().push('-') =~= seq!['-']);
            assert(s@ =~= spec_idec(n as int));
        }
        s
    } else {
        u64_to_string(n as u64)
    }
}

} // verus!
