//! Character-level helpers for `str` and `String`.

use vstd::prelude::*;

verus! {

/// `String::push` appends the given character to the end of the string and
/// changes nothing else.
pub assume_specification[ std::string::String::push ](
    text: &mut std::string::String,
    ch: char,
)
    ensures
        final(text)@ == old(text)@.push(ch),
;

/// The characters of `text`, in order.
pub fn chars_of(text: &str) -> (chars: Vec<char>)
    ensures
        chars@ == text@,
{
    let mut chars: Vec<char> = Vec::new();
    for c in it: text.chars()
        invariant
            it.seq() == text@,
            chars@ == text@.take(it.index()),
    {
        assert(text@.take(it.index()).push(c) =~= text@.take(it.index() + 1));
        chars.push(c);
    }
    assert(text@.take(text@.len() as int) =~= text@);
    chars
}

/// Tells whether two texts hold the same characters.
pub fn same_text(left: &str, right: &str) -> (same: bool)
    ensures
        same == (left@ == right@),
{
    let expected = chars_of(right);
    let mut matched: usize = 0;
    let mut same = true;
    for c in it: left.chars()
        invariant
            it.seq() == left@,
            expected@ == right@,
            same ==> matched == it.index() && matched <= expected.len(),
            same ==> left@.take(it.index()) == right@.take(it.index()),
            !same ==> left@ != right@,
    {
        if same {
            if matched < expected.len() && expected[matched] == c {
                assert(left@.take(it.index()).push(c) =~= left@.take(it.index() + 1));
                assert(right@.take(it.index()).push(c) =~= right@.take(it.index() + 1));
                matched += 1;
            } else {
                same = false;
            }
        }
    }
    proof {
        if same {
            assert(left@.take(left@.len() as int) =~= left@);
            if matched == expected.len() {
                assert(right@.take(right@.len() as int) =~= right@);
            }
        }
    }
    same && matched == expected.len()
}

} // verus!
