//! Character-level helpers shared by the text post-processors.

use vstd::prelude::*;

verus! {

/// Unicode `White_Space` characters: the set `char::is_whitespace`,
/// `str::trim` and the regex class `\s` use.
pub open spec fn is_white_space(c: char) -> bool {
    let u = c as u32;
    ||| 0x09 <= u <= 0x0d
    ||| u == 0x20
    ||| u == 0x85
    ||| u == 0xa0
    ||| u == 0x1680
    ||| 0x2000 <= u <= 0x200a
    ||| u == 0x2028
    ||| u == 0x2029
    ||| u == 0x202f
    ||| u == 0x205f
    ||| u == 0x3000
}

/// `s` without its leading white space.
pub open spec fn trim_start_ws(s: Seq<char>) -> Seq<char>
    decreases s.len(),
{
    if s.len() > 0 && is_white_space(s[0]) {
        trim_start_ws(s.drop_first())
    } else {
        s
    }
}

/// `s` without its trailing white space.
pub open spec fn trim_end_ws(s: Seq<char>) -> Seq<char>
    decreases s.len(),
{
    if s.len() > 0 && is_white_space(s.last()) {
        trim_end_ws(s.drop_last())
    } else {
        s
    }
}

/// `s` without leading and trailing white space.
pub open spec fn trim_ws(s: Seq<char>) -> Seq<char> {
    trim_end_ws(trim_start_ws(s))
}

/// `s` with every line feed replaced by a space.
pub open spec fn newlines_to_spaces(s: Seq<char>) -> Seq<char> {
    s.map_values(|c: char| if c == '\n' { ' ' } else { c })
}

/// Appends one character to a string.
///
/// Calls `String::push`; states that exactly `c` is appended.
#[verifier::external_body]
pub(crate) fn string_push(s: &mut String, c: char)
    ensures
        final(s)@ == old(s)@.push(c),
{
    s.push(c);
}

/// The string slice without leading and trailing white space.
///
/// Calls `str::trim`, whose documentation defines white space by the
/// Unicode `White_Space` property; states that the result is `s` with
/// those characters removed at both ends.
#[verifier::external_body]
pub(crate) fn str_trim(s: &str) -> (t: &str)
    ensures
        t@ == trim_ws(s@),
{
    s.trim()
}

/// The characters of a string slice, in order.
pub fn chars_of(s: &str) -> (v: Vec<char>)
    ensures
        v@ == s@,
{
    let mut v: Vec<char> = Vec::new();
    for c in it: s.chars()
        invariant
            v@ == it.seq().take(it.index() as int),
    {
        v.push(c);
    }
    v
}

/// Replaces each line feed by a space.
pub fn replace_newlines(text: &str) -> (out: String)
    ensures
        out@ == newlines_to_spaces(text@),
{
    let chars = chars_of(text);
    let mut out = String::new();
    let mut i: usize = 0;
    while i < chars.len()
        invariant
            i <= chars@.len(),
            chars@ == text@,
            out@ == newlines_to_spaces(chars@.take(i as int)),
        decreases chars@.len() - i,
    {
        let ch = chars[i];
        if ch == '\n' {
            string_push(&mut out, ' ');
        } else {
            string_push(&mut out, ch);
        }
        proof {
            assert(chars@.take(i + 1) =~= chars@.take(i as int).push(ch));
            assert(newlines_to_spaces(chars@.take(i + 1)) =~= newlines_to_spaces(
                chars@.take(i as int),
            ).push(if ch == '\n' { ' ' } else { ch }));
        }
        i = i + 1;
    }
    proof {
        assert(chars@.take(chars@.len() as int) =~= chars@);
    }
    out
}

} // verus!

verus! {

/// Whether `p` occurs in `s` as a contiguous run.
pub open spec fn occurs_in(s: Seq<char>, p: Seq<char>) -> bool {
    exists|i: int| 0 <= i && i + p.len() <= s.len() && #[trigger] s.subrange(i, i + p.len()) == p
}

/// Whether `needle` occurs in `hay`.
pub fn contains_str(hay: &str, needle: &str) -> (found: bool)
    requires
        hay@.len() < usize::MAX,
    ensures
        found == occurs_in(hay@, needle@),
{
    let h = chars_of(hay);
    let n = chars_of(needle);
    let hlen: usize = h.len();
    let nlen: usize = n.len();
    if nlen > hlen {
        return false;
    }
    let count: usize = hlen - nlen + 1;
    let mut i: usize = 0;
    while i < count
        invariant
            h@ == hay@,
            n@ == needle@,
            hlen == h@.len(),
            nlen == n@.len(),
            nlen <= hlen,
            count == hlen - nlen + 1,
            i <= count,
            forall|k: int| 0 <= k < i ==> #[trigger] h@.subrange(k, k + n@.len()) != n@,
        decreases count - i,
    {
        let mut j: usize = 0;
        let mut same = true;
        while j < nlen
            invariant
                i < count,
                count == hlen - nlen + 1,
                hlen == h@.len(),
                nlen == n@.len(),
                j <= nlen,
                same == (forall|m: int| 0 <= m < j ==> h@[i + m] == n@[m]),
            decreases nlen - j,
        {
            if h[i + j] != n[j] {
                same = false;
            }
            j = j + 1;
        }
        if same {
            proof {
                assert(h@.subrange(i as int, i + n@.len()) =~= n@);
            }
            return true;
        }
        proof {
            let m = choose|m: int| 0 <= m < n@.len() && h@[i + m] != n@[m];
            assert(h@.subrange(i as int, i + n@.len())[m] != n@[m]);
        }
        i = i + 1;
    }
    false
}

} // verus!
