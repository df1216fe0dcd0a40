//! Small string parsers for command-line values: `KEY=VALUE` pairs and
//! `[container:]path` references.

use vstd::prelude::*;

verus! {

/// Position of the first occurrence of `c` in `s`, if any.
pub open spec fn find_char(s: Seq<char>, c: char) -> Option<int>
    decreases s.len(),
{
    if s.len() == 0 {
        None
    } else if s[0] == c {
        Some(0int)
    } else {
        match find_char(s.drop_first(), c) {
            None => None,
            Some(i) => Some(i + 1),
        }
    }
}

/// `find_char` returns the first occurrence: the found position holds `c`
/// and nothing before it does; `None` means `c` does not occur at all.
pub proof fn lemma_find_char(s: Seq<char>, c: char)
    ensures
        match find_char(s, c) {
            Some(i) => 0 <= i < s.len() && s[i] == c && forall|j: int| 0 <= j < i ==> s[j] != c,
            None => forall|j: int| 0 <= j < s.len() ==> s[j] != c,
        },
    decreases s.len(),
{
    if s.len() > 0 && s[0] != c {
        lemma_find_char(s.drop_first(), c);
        match find_char(s.drop_first(), c) {
            Some(i) => {
                assert forall|j: int| 0 <= j < i + 1 implies s[j] != c by {
                    if j > 0 {
                        assert(s.drop_first()[j - 1] == s[j]);
                    }
                }
            }
            None => {
                assert forall|j: int| 0 <= j < s.len() implies s[j] != c by {
                    if j > 0 {
                        assert(s.drop_first()[j - 1] == s[j]);
                    }
                }
            }
        }
    }
}

/// A position holding `c` with no occurrence of `c` before it is exactly
/// what `find_char` returns.
pub proof fn lemma_find_char_at(s: Seq<char>, c: char, i: int)
    requires
        0 <= i < s.len(),
        s[i] == c,
        forall|j: int| 0 <= j < i ==> s[j] != c,
    ensures
        find_char(s, c) == Some(i),
    decreases s.len(),
{
    if s[0] != c {
        lemma_find_char_at(s.drop_first(), c, i - 1);
    }
}

/// Index of the first occurrence of `c` in `s`, if any.
fn find_in_str(s: &str, c: char) -> (r: Option<usize>)
    ensures
        match r {
            Some(i) => find_char(s@, c) == Some(i as int),
            None => find_char(s@, c) is None,
        },
{
    let n = s.unicode_len();
    let mut i: usize = 0;
    while i < n
        invariant
            0 <= i <= n,
            n == s@.len(),
            forall|j: int| 0 <= j < i ==> s@[j] != c,
        decreases n - i,
    {
        if s.get_char(i) == c {
            proof {
                lemma_find_char_at(s@, c, i as int);
            }
            return Some(i);
        }
        i = i + 1;
    }
    proof {
        lemma_find_char(s@, c);
        if let Some(k) = find_char(s@, c) {
            assert(s@[k] != c);
        }
    }
    None
}

/// Error returned when a `KEY=VALUE` argument has no `=` separator.
#[derive(Debug)]
pub struct KeyValError {
    pub input: String,
}

impl KeyValError {
    /// The user-facing description of the error.
    pub fn message(&self) -> (r: String)
        ensures
            r@ == "no '=' found in '"@ + self.input@ + "'"@,
    {
        let mut m = String::from_str("no '=' found in '");
        m.append(self.input.as_str());
        m.append("'");
        m
    }
}

/// Splits a `KEY=VALUE` argument at the first `=`; an argument without `=`
/// is rejected.
pub fn parse_key_val(s: &str) -> (r: Result<(String, String), KeyValError>)
    ensures
        match r {
            Ok((k, v)) => {
                &&& find_char(s@, '=') matches Some(i)
                &&& k@ == s@.subrange(0, find_char(s@, '=')->Some_0)
                &&& v@ == s@.subrange(find_char(s@, '=')->Some_0 + 1, s@.len() as int)
            },
            Err(e) => find_char(s@, '=') is None && e.input@ == s@,
        },
{
    let n = s.unicode_len();
    match find_in_str(s, '=') {
        Some(i) => {
            proof {
                lemma_find_char(s@, '=');
            }
            let k = s.substring_char(0, i);
            let v = s.substring_char(i + 1, n);
            Ok((String::from_str(k), String::from_str(v)))
        }
        None => Err(KeyValError { input: String::from_str(s) }),
    }
}

/// Splits a `KEY=VALUE` argument at the first `=`; an argument without `=`
/// is a key with no value.
pub fn parse_key_val_opt(s: &str) -> (r: (String, Option<String>))
    ensures
        match find_char(s@, '=') {
            Some(i) => {
                &&& r.0@ == s@.subrange(0, i)
                &&& r.1 matches Some(v) && v@ == s@.subrange(i + 1, s@.len() as int)
            },
            None => r.0@ == s@ && r.1 is None,
        },
{
    let n = s.unicode_len();
    match find_in_str(s, '=') {
        Some(i) => {
            proof {
                lemma_find_char(s@, '=');
            }
            let k = s.substring_char(0, i);
            let v = s.substring_char(i + 1, n);
            (String::from_str(k), Some(String::from_str(v)))
        }
        None => (String::from_str(s), None),
    }
}

/// Splits a `[container:]path` argument at the first `:`; an argument
/// without `:` is a bare path.
pub fn parse_container_path(s: &str) -> (r: (Option<String>, String))
    ensures
        match find_char(s@, ':') {
            Some(i) => {
                &&& r.0 matches Some(c) && c@ == s@.subrange(0, i)
                &&& r.1@ == s@.subrange(i + 1, s@.len() as int)
            },
            None => r.0 is None && r.1@ == s@,
        },
{
    let n = s.unicode_len();
    match find_in_str(s, ':') {
        Some(i) => {
            proof {
                lemma_find_char(s@, ':');
            }
            let c = s.substring_char(0, i);
            let p = s.substring_char(i + 1, n);
            (Some(String::from_str(c)), String::from_str(p))
        }
        None => (None, String::from_str(s)),
    }
}


/// Whether two string slices hold the same characters.
pub(crate) fn str_eq(a: &str, b: &str) -> (r: bool)
    ensures
        r == (a@ == b@),
{
    let na = a.unicode_len();
    let nb = b.unicode_len();
    if na != nb {
        proof {
            if a@ == b@ {
                assert(a@.len() == b@.len());
            }
        }
        return false;
    }
    let mut i: usize = 0;
    while i < na
        invariant
            i <= na,
            na == a@.len(),
            na == b@.len(),
            forall|j: int| 0 <= j < i ==> a@[j] == b@[j],
        decreases na - i,
    {
        if a.get_char(i) != b.get_char(i) {
            return false;
        }
        i = i + 1;
    }
    proof {
        assert(a@ =~= b@);
    }
    true
}

/// The pieces of `s` between occurrences of `c`, in order; `n` separators
/// yield `n + 1` pieces.
pub open spec fn split_char(s: Seq<char>, c: char) -> Seq<Seq<char>>
    decreases s.len(),
    via split_char_decreases
{
    match find_char(s, c) {
        None => seq![s],
        Some(i) => seq![s.subrange(0, i)] + split_char(s.subrange(i + 1, s.len() as int), c),
    }
}

#[via_fn]
proof fn split_char_decreases(s: Seq<char>, c: char) {
    lemma_find_char(s, c);
}

/// Splits `s` at every occurrence of `c`.
pub fn split_on(s: &str, c: char) -> (r: Vec<String>)
    ensures
        names_view(r@) == split_char(s@, c),
        r@.len() >= 1,
{
    let chars = crate::parser::chars_of(s);
    let n = chars.len();
    let mut parts: Vec<String> = Vec::new();
    let mut start: usize = 0;
    let mut i: usize = 0;
    proof {
        assert(s@.skip(0) =~= s@);
        assert(names_view(parts@) + split_char(s@, c) =~= split_char(s@, c));
    }
    while i < n
        invariant
            start <= i <= n,
            n == s@.len(),
            chars@ == s@,
            forall|j: int| start <= j < i ==> s@[j] != c,
            split_char(s@, c) == names_view(parts@) + split_char(s@.skip(start as int), c),
        decreases n - i,
    {
        if chars[i] == c {
            let ghost pre = parts@;
            let piece = crate::parser::string_range(&chars, start, i);
            parts.push(piece);
            proof {
                let tail = s@.skip(start as int);
                assert forall|j: int| 0 <= j < i - start implies tail[j] != c by {
                    assert(tail[j] == s@[start + j]);
                }
                assert(tail[i - start] == c);
                lemma_find_char_at(tail, c, i - start);
                assert(tail.subrange(0, i - start) =~= s@.subrange(start as int, i as int));
                assert(tail.subrange(i - start + 1, tail.len() as int) =~= s@.skip(i + 1));
                assert(names_view(parts@) =~= names_view(pre).push(piece@));
                assert(names_view(parts@) + split_char(s@.skip(i + 1), c) =~= names_view(pre)
                    + split_char(s@.skip(start as int), c));
            }
            start = i + 1;
        }
        i = i + 1;
    }
    let ghost pre = parts@;
    let piece = crate::parser::string_range(&chars, start, n);
    parts.push(piece);
    proof {
        let tail = s@.skip(start as int);
        assert forall|j: int| 0 <= j < tail.len() implies tail[j] != c by {
            assert(tail[j] == s@[start + j]);
        }
        lemma_find_char(tail, c);
        if let Some(k) = find_char(tail, c) {
            assert(tail[k] != c);
        }
        assert(piece@ =~= tail);
        assert(names_view(parts@) =~= names_view(pre).push(piece@));
        assert(names_view(parts@) =~= names_view(pre) + seq![tail]);
    }
    parts
}

/// The mathematical value of a list of names.
pub open spec fn names_view(v: Seq<String>) -> Seq<Seq<char>> {
    Seq::new(v.len(), |j: int| v[j]@)
}


/// `names_view` maps the list element by element.
pub proof fn lemma_names_view_index(v: Seq<String>)
    ensures
        names_view(v).len() == v.len(),
        forall|k: int| 0 <= k < v.len() ==> #[trigger] names_view(v)[k] == v[k]@,
{
}

/// A copy of a list of names.
pub(crate) fn clone_names(v: &Vec<String>) -> (r: Vec<String>)
    ensures
        r@ == v@,
{
    let mut r: Vec<String> = Vec::new();
    let mut i: usize = 0;
    while i < v.len()
        invariant
            i <= v@.len(),
            r@.len() == i,
            forall|k: int| 0 <= k < i ==> #[trigger] r@[k] == v@[k],
        decreases v@.len() - i,
    {
        r.push(v[i].clone());
        i = i + 1;
    }
    proof {
        assert(r@ =~= v@);
    }
    r
}

} // verus!
