//! Reading the plain-text answers of the cloud metadata services: host names,
//! path segments and line lists.
use vstd::prelude::*;
use crate::text::{
    chars_of, find_char, first_index, last_index, lemma_first_index_bounds, lemma_last_index_bounds, lines_of,
    rfind_char, slice_chars, str_lines, string_from_chars, trim, trim_chars, views_of,
};
use crate::kdl_parser::strings_view;

verus! {

/// The host name in a fully qualified name: the trimmed text up to its first dot.
pub open spec fn short_hostname(s: Seq<char>) -> Seq<char> {
    let t = trim(s);
    match first_index(t, '.') {
        Some(i) => t.subrange(0, i),
        None => t,
    }
}

/// The host name in a fully qualified name, as `short_hostname` says.
pub fn short_hostname_of(s: &str) -> (r: String)
    ensures
        r@ == short_hostname(s@),
{
    let t = trim_chars(&chars_of(s));
    proof {
        lemma_first_index_bounds(t@, '.');
    }
    match find_char(&t, '.') {
        Some(i) => {
            assert(first_index(t@, '.') == Some(i as int));
            string_from_chars(&slice_chars(&t, 0, i))
        },
        None => string_from_chars(&t),
    }
}

/// The text after the last `sep`, or all of it where there is none, as
/// `str::split(sep).last()` gives it.
pub open spec fn last_segment(s: Seq<char>, sep: char) -> Seq<char> {
    match last_index(s, sep) {
        Some(i) => s.subrange(i + 1, s.len() as int),
        None => s,
    }
}

/// The text after the last `sep`, as `last_segment` says.
pub fn last_segment_of(s: &Vec<char>, sep: char) -> (r: Vec<char>)
    ensures
        r@ == last_segment(s@, sep),
{
    proof {
        lemma_last_index_bounds(s@, sep);
    }
    match rfind_char(s, sep) {
        Some(i) => {
            assert(last_index(s@, sep) == Some(i as int));
            assert(i < s.len());
            slice_chars(s, i + 1, s.len())
        },
        None => s.clone(),
    }
}

/// The trimmed lines of a text that are not empty once trimmed.
pub open spec fn trimmed_lines(s: Seq<char>) -> Seq<Seq<char>> {
    nonempty_trimmed(str_lines(s))
}

/// The trimmed texts that are not empty.
pub open spec fn nonempty_trimmed(v: Seq<Seq<char>>) -> Seq<Seq<char>>
    decreases v.len(),
{
    if v.len() == 0 {
        Seq::empty()
    } else if trim(v.last()).len() > 0 {
        nonempty_trimmed(v.drop_last()).push(trim(v.last()))
    } else {
        nonempty_trimmed(v.drop_last())
    }
}

/// The trimmed non-empty lines of a text, as `trimmed_lines` says.
pub fn trimmed_lines_of(s: &str) -> (r: Vec<String>)
    ensures
        strings_view(r@) == trimmed_lines(s@),
{
    let lines = lines_of(&chars_of(s));
    let ghost lv = views_of(lines@);
    let mut out: Vec<String> = Vec::new();
    let mut i: usize = 0;
    assert(strings_view(out@) =~= nonempty_trimmed(lv.subrange(0, 0)));
    while i < lines.len()
        invariant
            i <= lines@.len(),
            lv == views_of(lines@),
            strings_view(out@) == nonempty_trimmed(lv.subrange(0, i as int)),
        decreases lines.len() - i,
    {
        proof {
            assert(lv.subrange(0, i as int + 1).drop_last() =~= lv.subrange(0, i as int));
            assert(lv.subrange(0, i as int + 1).last() == lines@[i as int]@);
        }
        let t = trim_chars(&lines[i]);
        if t.len() > 0 {
            let ghost before = strings_view(out@);
            out.push(string_from_chars(&t));
            assert(strings_view(out@) =~= before.push(t@));
        }
        i = i + 1;
    }
    assert(lv.subrange(0, lines@.len() as int) =~= lv);
    out
}


/// The host name taken from a fully qualified name holds no dot.
pub proof fn law_short_hostname_has_no_dot(s: Seq<char>)
    ensures
        !short_hostname(s).contains('.'),
{
    lemma_first_index_none_or_first(trim(s), '.');
}

proof fn lemma_first_index_none_or_first(s: Seq<char>, c: char)
    ensures
        first_index(s, c) is None ==> !s.contains(c),
        first_index(s, c) is Some ==> !s.subrange(0, first_index(s, c)->0).contains(c),
    decreases s.len(),
{
    lemma_first_index_bounds(s, c);
    if s.len() > 0 {
        let t = s.drop_last();
        lemma_first_index_none_or_first(t, c);
        lemma_first_index_bounds(t, c);
        if first_index(t, c) is Some {
            let i = first_index(t, c)->0;
            assert(s.subrange(0, i) =~= t.subrange(0, i));
        } else if s.last() == c {
            assert(s.subrange(0, s.len() - 1) =~= t);
        } else {
            assert forall|k: int| 0 <= k < s.len() implies s[k] != c by {
                if k < s.len() - 1 {
                    assert(s[k] == t[k]);
                }
            }
        }
    }
}
} // verus!
