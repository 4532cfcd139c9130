//! Character-level helpers on single lines: trailing whitespace and tab-separated fields.

use vstd::prelude::*;
use vstd::std_specs::iter::IteratorSpec;

verus! {

/// Whether `c` carries the Unicode `White_Space` property.
pub open spec fn is_whitespace(c: char) -> bool {
    let u = c as u32;
    ||| 0x09 <= u <= 0x0D
    ||| u == 0x20
    ||| u == 0x85
    ||| u == 0xA0
    ||| u == 0x1680
    ||| 0x2000 <= u <= 0x200A
    ||| u == 0x2028
    ||| u == 0x2029
    ||| u == 0x202F
    ||| u == 0x205F
    ||| u == 0x3000
}

/// Length of `s` once its trailing whitespace is removed.
pub open spec fn trimmed_len(s: Seq<char>) -> nat
    decreases s.len(),
{
    if s.len() > 0 && is_whitespace(s.last()) {
        trimmed_len(s.drop_last())
    } else {
        s.len()
    }
}

/// `s` without its trailing whitespace.
pub open spec fn trim_end(s: Seq<char>) -> Seq<char> {
    s.take(trimmed_len(s) as int)
}

/// Whether `i` is the position at which `c` first occurs in `s`.
pub open spec fn is_first_occurrence(s: Seq<char>, c: char, i: int) -> bool {
    &&& 0 <= i < s.len()
    &&& s[i] == c
    &&& forall|j: int| 0 <= j < i ==> s[j] != c
}

/// Whether `i` is the position of the first tab in `s`.
pub open spec fn is_first_tab(s: Seq<char>, i: int) -> bool {
    is_first_occurrence(s, '\t', i)
}

/// The two fields of `s` around its first tab, if it has one.
pub open spec fn split_at_tab(s: Seq<char>) -> Option<(Seq<char>, Seq<char>)> {
    match s.index_of_first('\t') {
        Some(i) => Some((s.take(i), s.skip(i + 1))),
        None => None,
    }
}

/// `trimmed_len` never exceeds the length, stops right after a character that
/// is not whitespace, and everything behind it is whitespace.
pub proof fn lemma_trimmed_len(s: Seq<char>)
    ensures
        trimmed_len(s) <= s.len(),
        trimmed_len(s) > 0 ==> !is_whitespace(s[trimmed_len(s) - 1]),
        forall|j: int| trimmed_len(s) <= j < s.len() ==> is_whitespace(#[trigger] s[j]),
    decreases s.len(),
{
    if s.len() > 0 && is_whitespace(s.last()) {
        let front = s.drop_last();
        lemma_trimmed_len(front);
        assert forall|j: int| trimmed_len(s) <= j < s.len() implies is_whitespace(
            #[trigger] s[j],
        ) by {
            if j < front.len() {
                assert(s[j] == front[j]);
            }
        }
    }
}

/// Appending one character either keeps the trimmed length (whitespace) or
/// moves it to the new end.
pub proof fn lemma_trimmed_len_push(s: Seq<char>, c: char)
    ensures
        trimmed_len(s.push(c)) == if is_whitespace(c) {
            trimmed_len(s)
        } else {
            s.len() + 1
        },
{
    assert(s.push(c).drop_last() =~= s);
}

/// The first occurrence of a character is unique, and `index_of_first` finds it.
pub proof fn lemma_first_occurrence(s: Seq<char>, c: char, i: int)
    requires
        is_first_occurrence(s, c, i),
    ensures
        s.index_of_first(c) == Some(i),
{
    s.index_of_first_ensures(c);
}

/// The first tab of a sequence is unique, and the fields lie on either side of it.
pub proof fn lemma_first_tab(s: Seq<char>, i: int)
    requires
        is_first_tab(s, i),
    ensures
        s.index_of_first('\t') == Some(i),
        split_at_tab(s) == Some((s.take(i), s.skip(i + 1))),
{
    lemma_first_occurrence(s, '\t', i);
}

/// Decides the `White_Space` property of one character.
pub fn char_is_whitespace(c: char) -> (r: bool)
    ensures
        r == is_whitespace(c),
{
    let u: u32 = c as u32;
    (0x09 <= u && u <= 0x0D) || u == 0x20 || u == 0x85 || u == 0xA0 || u == 0x1680 || (0x2000 <= u
        && u <= 0x200A) || u == 0x2028 || u == 0x2029 || u == 0x202F || u == 0x205F || u == 0x3000
}

/// Strips the trailing whitespace, line terminator included, from a raw line.
pub fn trim_line(line: &str) -> (r: &str)
    ensures
        r@ == trim_end(line@),
{
    let len = line.unicode_len();
    let mut it = line.chars();
    let mut seen: usize = 0;
    let mut end: usize = 0;
    loop
        invariant
            len == line@.len(),
            seen <= line@.len(),
            it.remaining() == line@.skip(seen as int),
            end == trimmed_len(line@.take(seen as int)),
            end <= seen,
        decreases line@.len() - seen,
    {
        match it.next() {
            Some(c) => {
                proof {
                    lemma_trimmed_len_push(line@.take(seen as int), c);
                    assert(line@.take(seen as int).push(c) =~= line@.take(seen + 1));
                }
                seen = seen + 1;
                if !char_is_whitespace(c) {
                    end = seen;
                }
            },
            None => {
                proof {
                    assert(line@.take(seen as int) =~= line@);
                }
                return line.substring_char(0, end);
            },
        }
    }
}

/// Position of the first tab of `s`, whose length in characters is `len`.
fn scan_for_tab(s: &str, len: usize) -> (r: Option<usize>)
    requires
        len == s@.len(),
    ensures
        match r {
            Some(i) => is_first_tab(s@, i as int),
            None => !s@.contains('\t'),
        },
{
    let mut it = s.chars();
    let mut i: usize = 0;
    loop
        invariant
            len == s@.len(),
            i <= s@.len(),
            it.remaining() == s@.skip(i as int),
            forall|j: int| 0 <= j < i ==> s@[j] != '\t',
        decreases s@.len() - i,
    {
        match it.next() {
            Some(c) => {
                if c == '\t' {
                    return Some(i);
                }
                i = i + 1;
            },
            None => {
                return None;
            },
        }
    }
}

/// Position of the first tab of `s`, counted in characters.
pub fn find_tab(s: &str) -> (r: Option<usize>)
    ensures
        match r {
            Some(i) => is_first_tab(s@, i as int),
            None => !s@.contains('\t'),
        },
        r is Some <==> s@.contains('\t'),
{
    scan_for_tab(s, s.unicode_len())
}

/// Splits `s` at its first tab into the field before and the field after it.
pub fn split_once_tab(s: &str) -> (r: Option<(String, String)>)
    ensures
        match r {
            Some((front, back)) => split_at_tab(s@) == Some((front@, back@)),
            None => split_at_tab(s@) is None,
        },
        r is Some <==> s@.contains('\t'),
        r matches Some((front, back)) ==> s@ == front@.push('\t') + back@ && !front@.contains('\t'),
{
    let len = s.unicode_len();
    match scan_for_tab(s, len) {
        Some(i) => {
            let front = s.substring_char(0, i);
            let back = s.substring_char(i + 1, len);
            proof {
                lemma_first_tab(s@, i as int);
            }
            Some((front.to_owned(), back.to_owned()))
        },
        None => {
            proof {
                s@.index_of_first_ensures('\t');
            }
            None
        },
    }
}

} // verus!
