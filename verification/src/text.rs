//! Character-level helpers on strings: Unicode whitespace and trimming.

use vstd::prelude::*;
use vstd::std_specs::iter::IteratorSpec;
use vstd::string::StrSliceExecFns;
use vstd::string::StringExecFns;

verus! {

broadcast use vstd::string::group_string_axioms;

/// A character with the Unicode `White_Space` property, the set that
/// `char::is_whitespace` accepts.
pub open spec fn is_whitespace(c: char) -> bool {
    let v = c as u32;
    ||| 0x09 <= v <= 0x0d
    ||| v == 0x20
    ||| v == 0x85
    ||| v == 0xa0
    ||| v == 0x1680
    ||| 0x2000 <= v <= 0x200a
    ||| v == 0x2028
    ||| v == 0x2029
    ||| v == 0x202f
    ||| v == 0x205f
    ||| v == 0x3000
}

/// `s` without its leading whitespace.
pub open spec fn trim_start(s: Seq<char>) -> Seq<char>
    decreases s.len(),
{
    if s.len() > 0 && is_whitespace(s[0]) {
        trim_start(s.drop_first())
    } else {
        s
    }
}

/// `s` without its trailing whitespace.
pub open spec fn trim_end(s: Seq<char>) -> Seq<char>
    decreases s.len(),
{
    if s.len() > 0 && is_whitespace(s.last()) {
        trim_end(s.drop_last())
    } else {
        s
    }
}

/// `s` without leading and trailing whitespace, as `str::trim` gives it.
pub open spec fn trim(s: Seq<char>) -> Seq<char> {
    trim_end(trim_start(s))
}

/// Whether `c` is Unicode whitespace.
pub fn char_is_whitespace(c: char) -> (b: bool)
    ensures
        b == is_whitespace(c),
{
    let v = c as u32;
    (0x09 <= v && v <= 0x0d) || v == 0x20 || v == 0x85 || v == 0xa0 || v == 0x1680 || (0x2000
        <= v && v <= 0x200a) || v == 0x2028 || v == 0x2029 || v == 0x202f || v == 0x205f || v
        == 0x3000
}

/// The characters of `s`, in order.
pub fn chars_of(s: &str) -> (v: Vec<char>)
    ensures
        v@ == s@,
{
    let mut v: Vec<char> = Vec::new();
    let chars = s.chars();
    for c in it: chars
        invariant
            v@ == it.seq().take(it.index()),
    {
        v.push(c);
        assert(v@ == it.seq().take(it.index() + 1));
    }
    v
}

proof fn lemma_trim_start_skip(s: Seq<char>, i: int)
    requires
        0 <= i <= s.len(),
        forall|k: int| 0 <= k < i ==> is_whitespace(#[trigger] s[k]),
    ensures
        trim_start(s) == trim_start(s.subrange(i, s.len() as int)),
    decreases i,
{
    if i > 0 {
        assert(s.drop_first().subrange(i - 1, s.drop_first().len() as int) =~= s.subrange(
            i,
            s.len() as int,
        ));
        lemma_trim_start_skip(s.drop_first(), i - 1);
    } else {
        assert(s.subrange(0, s.len() as int) =~= s);
    }
}

proof fn lemma_trim_end_cut(s: Seq<char>, j: int)
    requires
        0 <= j <= s.len(),
        forall|k: int| j <= k < s.len() ==> is_whitespace(#[trigger] s[k]),
    ensures
        trim_end(s) == trim_end(s.subrange(0, j)),
    decreases s.len() - j,
{
    if j < s.len() {
        assert(s.drop_last().subrange(0, j) =~= s.subrange(0, j));
        lemma_trim_end_cut(s.drop_last(), j);
    } else {
        assert(s.subrange(0, j) =~= s);
    }
}

/// `s` with leading and trailing Unicode whitespace removed.
pub fn trimmed(s: &str) -> (r: String)
    ensures
        r@ == trim(s@),
{
    let cs = chars_of(s);
    let n = cs.len();
    let mut start: usize = 0;
    while start < n && char_is_whitespace(cs[start])
        invariant
            n == cs@.len(),
            cs@ == s@,
            start <= n,
            forall|k: int| 0 <= k < start ==> is_whitespace(#[trigger] cs@[k]),
        decreases n - start,
    {
        start = start + 1;
    }
    let ghost rest = s@.subrange(start as int, n as int);
    proof {
        lemma_trim_start_skip(s@, start as int);
        if start < n {
            assert(rest[0] == s@[start as int]);
        }
        assert(trim_start(s@) == rest);
    }
    let mut end: usize = n;
    while end > start && char_is_whitespace(cs[end - 1])
        invariant
            n == cs@.len(),
            cs@ == s@,
            start <= end <= n,
            forall|k: int| end <= k < n ==> is_whitespace(#[trigger] cs@[k]),
        decreases end,
    {
        end = end - 1;
    }
    proof {
        let e = end - start;
        assert forall|k: int| e <= k < rest.len() implies is_whitespace(#[trigger] rest[k]) by {
            assert(rest[k] == s@[start + k]);
        }
        lemma_trim_end_cut(rest, e);
        let cut = rest.subrange(0, e);
        assert(cut =~= s@.subrange(start as int, end as int));
        if e > 0 {
            assert(cut.last() == s@[end - 1]);
        }
        assert(trim_end(cut) == cut);
    }
    String::from_str(s.substring_char(start, end))
}

/// `String::from_utf8` (on a copy of `bytes`): it gives text exactly when
/// `bytes` is valid UTF-8, and then the text is the UTF-8 decoding of `bytes`.
#[verifier::external_body]
pub(crate) fn utf8_text(bytes: &[u8]) -> (r: Option<String>)
    ensures
        r is Some <==> vstd::utf8::valid_utf8(bytes@),
        r matches Some(s) ==> s@ == vstd::utf8::decode_utf8(bytes@),
{
    String::from_utf8(bytes.to_vec()).ok()
}

/// Among ASCII characters, exactly the tab, line feed, vertical tab, form
/// feed, carriage return and space are whitespace; in particular no visible
/// ASCII character (letters, digits, punctuation) is.
pub proof fn law_ascii_whitespace(c: char)
    ensures
        (c as u32) < 0x80 ==> (is_whitespace(c) <==> (c == '\t' || c == '\n' || c == '\u{b}' || c
            == '\u{c}' || c == '\r' || c == ' ')),
        0x21 <= (c as u32) <= 0x7e ==> !is_whitespace(c),
{
    assert(('\t' as u32) == 9 && ('\n' as u32) == 10 && ('\u{b}' as u32) == 11 && ('\u{c}' as u32)
        == 12 && ('\r' as u32) == 13 && (' ' as u32) == 32);
    vstd::utf8::char_u32_cast(c, c as u32);
    if (c as u32) == 9 {
        vstd::utf8::char_u32_cast('\t', 9);
    } else if (c as u32) == 10 {
        vstd::utf8::char_u32_cast('\n', 10);
    } else if (c as u32) == 11 {
        vstd::utf8::char_u32_cast('\u{b}', 11);
    } else if (c as u32) == 12 {
        vstd::utf8::char_u32_cast('\u{c}', 12);
    } else if (c as u32) == 13 {
        vstd::utf8::char_u32_cast('\r', 13);
    } else if (c as u32) == 32 {
        vstd::utf8::char_u32_cast(' ', 32);
    }
}

/// Trimming leaves alone a text that neither starts nor ends with
/// whitespace, such as one that starts and ends with a visible ASCII
/// character: only whitespace is ever removed, and only at the ends.
pub proof fn law_trim_keeps_text_without_outer_whitespace(s: Seq<char>)
    requires
        s.len() == 0 || (!is_whitespace(s[0]) && !is_whitespace(s.last())),
    ensures
        trim(s) == s,
        s.len() > 0 && 0x21 <= (s[0] as u32) <= 0x7e && 0x21 <= (s.last() as u32) <= 0x7e
            ==> trim(s) == s,
{
}

/// A text whose first and last characters are visible ASCII characters is
/// its own trimmed form.
pub proof fn law_trim_keeps_visible_ascii_ends(s: Seq<char>)
    requires
        s.len() > 0,
        0x21 <= (s[0] as u32) <= 0x7e,
        0x21 <= (s.last() as u32) <= 0x7e,
    ensures
        trim(s) == s,
{
    law_ascii_whitespace(s[0]);
    law_ascii_whitespace(s.last());
    law_trim_keeps_text_without_outer_whitespace(s);
}

} // verus!
