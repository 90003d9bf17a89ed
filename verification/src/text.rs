//! Small string primitives shared by the rest of the library.

use vstd::prelude::*;

verus! {

/// Relies on String::push: appends exactly one character to the string.
#[verifier::external_body]
pub fn push_char(s: &mut String, c: char)
    ensures
        final(s)@ == old(s)@.push(c),
{
    s.push(c);
}

/// Character-by-character string equality, proved against the string views.
pub fn str_eq(a: &str, b: &str) -> (r: bool)
    ensures
        r == (a@ == b@),
{
    let a_len = a.unicode_len();
    let b_len = b.unicode_len();
    if a_len != b_len {
        return false;
    }
    let mut i: usize = 0;
    while i < a_len
        invariant
            a_len == a@.len(),
            b_len == b@.len(),
            a_len == b_len,
            i <= a_len,
            forall|j: int| 0 <= j < i ==> a@[j] == b@[j],
        decreases a_len - i,
    {
        if a.get_char(i) != b.get_char(i) {
            return false;
        }
        i = i + 1;
    }
    proof {
        assert(a@ =~= b@);
    }
    true
}

/// A file name marks a hidden file when it starts with a dot.
pub fn get_is_hidden(file_name: &str) -> (r: bool)
    ensures
        r == (file_name@.len() > 0 && file_name@[0] == '.'),
{
    if file_name.unicode_len() == 0 {
        return false;
    }
    file_name.get_char(0) == '.'
}

} // verus!
