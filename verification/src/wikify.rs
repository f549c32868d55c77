use vstd::prelude::*;
use vstd::string::StrSliceExecFns;

verus! {

/// The upper-case form of an ASCII letter; any other character is kept.
pub open spec fn upper_char(c: char) -> char {
    match c {
        'a' => 'A',
        'b' => 'B',
        'c' => 'C',
        'd' => 'D',
        'e' => 'E',
        'f' => 'F',
        'g' => 'G',
        'h' => 'H',
        'i' => 'I',
        'j' => 'J',
        'k' => 'K',
        'l' => 'L',
        'm' => 'M',
        'n' => 'N',
        'o' => 'O',
        'p' => 'P',
        'q' => 'Q',
        'r' => 'R',
        's' => 'S',
        't' => 'T',
        'u' => 'U',
        'v' => 'V',
        'w' => 'W',
        'x' => 'X',
        'y' => 'Y',
        'z' => 'Z',
        _ => c,
    }
}

/// An ASCII letter or digit: the characters a normalized title keeps.
pub open spec fn is_word_char(c: char) -> bool {
    ('a' <= c && c <= 'z') || ('A' <= c && c <= 'Z') || ('0' <= c && c <= '9')
}

/// The normalized form of `t` from position `i` on, where `cap` says
/// whether the next kept character starts a word: punctuation and spaces
/// are dropped, and the first letter after each dropped run is upper-cased.
pub open spec fn wikify_from(t: Seq<char>, i: int, cap: bool) -> Seq<char>
    decreases t.len() - i,
{
    if i < 0 || i >= t.len() {
        Seq::empty()
    } else if is_word_char(t[i]) {
        seq![if cap { upper_char(t[i]) } else { t[i] }] + wikify_from(t, i + 1, false)
    } else {
        wikify_from(t, i + 1, true)
    }
}

/// A title normalized for embedding in a wiki link: punctuation stripped,
/// each word capitalized, the words concatenated.
pub open spec fn wikify(t: Seq<char>) -> Seq<char> {
    wikify_from(t, 0, true)
}

fn upper(c: char) -> (r: char)
    ensures
        r == upper_char(c),
{
    match c {
        'a' => 'A',
        'b' => 'B',
        'c' => 'C',
        'd' => 'D',
        'e' => 'E',
        'f' => 'F',
        'g' => 'G',
        'h' => 'H',
        'i' => 'I',
        'j' => 'J',
        'k' => 'K',
        'l' => 'L',
        'm' => 'M',
        'n' => 'N',
        'o' => 'O',
        'p' => 'P',
        'q' => 'Q',
        'r' => 'R',
        's' => 'S',
        't' => 'T',
        'u' => 'U',
        'v' => 'V',
        'w' => 'W',
        'x' => 'X',
        'y' => 'Y',
        'z' => 'Z',
        _ => c,
    }
}

/// Relies on `String::push`: appends exactly the given character to the
/// end of the string.
#[verifier::external_body]
pub(crate) fn push_char(s: &mut String, c: char)
    ensures
        final(s)@ == old(s)@ + seq![c],
{
    s.push(c);
}

/// Appends the normalized form of `s` to `out`.
pub fn append_wikified(s: &str, out: &mut String)
    ensures
        final(out)@ == old(out)@ + wikify(s@),
{
    let n = s.unicode_len();
    let mut cap = true;
    let mut j: usize = 0;
    while j < n
        invariant
            j <= n == s@.len(),
            out@ + wikify_from(s@, j as int, cap) == old(out)@ + wikify(s@),
        decreases n - j,
    {
        let ghost pre = out@;
        let c = s.get_char(j);
        if ('a' <= c && c <= 'z') || ('A' <= c && c <= 'Z') || ('0' <= c && c <= '9') {
            let e = if cap {
                upper(c)
            } else {
                c
            };
            push_char(out, e);
            proof {
                assert(out@ + wikify_from(s@, j + 1, false) =~= pre + wikify_from(
                    s@,
                    j as int,
                    cap,
                ));
            }
            cap = false;
        } else {
            cap = true;
        }
        j += 1;
    }
}

} // verus!
