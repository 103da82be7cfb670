//! Small string-building helpers shared by the rest of the library.

use vstd::prelude::*;

verus! {

/// Relies on `String::push`: appends the given character to the end of the
/// string, and does nothing else.
#[verifier::external_body]
pub fn push_char(s: &mut String, c: char)
    ensures
        final(s)@ == old(s)@.push(c),
{
    s.push(c);
}

/// `n` space characters.
pub open spec fn spaces(n: nat) -> Seq<char>
    decreases n,
{
    if n == 0 {
        Seq::empty()
    } else {
        spaces((n - 1) as nat).push(' ')
    }
}

/// The label text followed by `fill` padding spaces, used to line up the
/// form labels of the edit panel.
pub fn sized_text(s: &str, fill: usize) -> (r: String)
    ensures
        r@ == s@ + spaces(fill as nat),
{
    let mut r = s.to_owned();
    let mut k: usize = 0;
    while k < fill
        invariant
            k <= fill,
            r@ == s@ + spaces(k as nat),
        decreases fill - k,
    {
        push_char(&mut r, ' ');
        k += 1;
    }
    r
}

/// The characters of `s`, one per element, for index-based scanning.
pub fn chars_of(s: &str) -> (v: Vec<char>)
    ensures
        v@ == s@,
{
    let n = s.unicode_len();
    let mut v: Vec<char> = Vec::new();
    let mut i: usize = 0;
    while i < n
        invariant
            i <= n,
            n == s@.len(),
            v@ == s@.take(i as int),
        decreases n - i,
    {
        v.push(s.get_char(i));
        proof {
            assert(s@.take(i as int + 1) =~= s@.take(i as int).push(s@[i as int]));
        }
        i += 1;
    }
    proof {
        assert(s@.take(n as int) =~= s@);
    }
    v
}

} // verus!
