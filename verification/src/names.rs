//! Naming rules of a project and its resources.
//!
//! A project name is sanitized before use: the leading run of
//! non-alphanumeric characters is removed, every other character not in
//! `[a-zA-Z0-9_.-]` is dropped, and ASCII letters are lowercased. A
//! resource (network, volume, config or secret) without an explicit name
//! defaults to `PROJECT_RESOURCE` unless it is external or no project name
//! is known, in which case its own key is used.

use vstd::prelude::*;

use crate::parser::push_char;

verus! {

/// An ASCII letter or digit.
pub open spec fn is_alnum(c: char) -> bool {
    ||| 'a' as u32 <= c as u32 && c as u32 <= 'z' as u32
    ||| 'A' as u32 <= c as u32 && c as u32 <= 'Z' as u32
    ||| '0' as u32 <= c as u32 && c as u32 <= '9' as u32
}

/// A character a project name may keep after its first.
pub open spec fn is_name_char(c: char) -> bool {
    is_alnum(c) || c == '_' || c == '.' || c == '-'
}

/// The ASCII lowercase of a character.
pub open spec fn lower_char(c: char) -> char {
    if 'A' as u32 <= c as u32 && c as u32 <= 'Z' as u32 {
        (((c as u32) + 32) as u8) as char
    } else {
        c
    }
}

/// End of the leading run of non-alphanumeric characters from `i` on.
pub open spec fn junk_end(s: Seq<char>, i: int) -> int
    decreases s.len() - i,
{
    if i < 0 || i >= s.len() || is_alnum(s[i]) {
        i
    } else {
        junk_end(s, i + 1)
    }
}

/// The kept, lowercased characters of the tail of a name.
pub open spec fn sanitize_tail(s: Seq<char>) -> Seq<char>
    decreases s.len(),
{
    if s.len() == 0 {
        Seq::empty()
    } else {
        sanitize_tail(s.drop_last()) + if is_name_char(s.last()) {
            seq![lower_char(s.last())]
        } else {
            Seq::<char>::empty()
        }
    }
}

/// The sanitized form of a project name: the leading non-alphanumeric run
/// removed, other disallowed characters dropped, letters lowercased.
pub open spec fn sanitize_spec(s: Seq<char>) -> Seq<char> {
    sanitize_tail(s.skip(junk_end(s, 0)))
}

/// The bounds of the leading junk run.
proof fn lemma_junk_end(s: Seq<char>, i: int)
    requires
        0 <= i <= s.len(),
    ensures
        i <= junk_end(s, i) <= s.len(),
    decreases s.len() - i,
{
    if i < s.len() && !is_alnum(s[i]) {
        lemma_junk_end(s, i + 1);
    }
}

/// Sanitizes a project name.
pub fn sanitize_name(s: &str) -> (r: String)
    ensures
        r@ == sanitize_spec(s@),
{
    let chars = crate::parser::chars_of(s);
    let n = chars.len();
    let mut i: usize = 0;
    while i < n && !is_alnum_exec(chars[i])
        invariant
            i <= n,
            n == s@.len(),
            chars@ == s@,
            junk_end(s@, 0) == junk_end(s@, i as int),
        decreases n - i,
    {
        i = i + 1;
    }
    let start = i;
    proof {
        lemma_junk_end(s@, 0);
        assert(junk_end(s@, start as int) == start as int);
        assert(s@.subrange(start as int, start as int) =~= Seq::<char>::empty());
    }
    let mut r = String::new();
    while i < n
        invariant
            start <= i <= n,
            n == s@.len(),
            chars@ == s@,
            r@ == sanitize_tail(s@.subrange(start as int, i as int)),
        decreases n - i,
    {
        let c = chars[i];
        let ghost pre = r@;
        if is_name_char_exec(c) {
            push_char(&mut r, lower_char_exec(c));
        }
        i = i + 1;
        proof {
            assert(s@.subrange(start as int, i as int).drop_last() =~= s@.subrange(
                start as int,
                i - 1,
            ));
            assert(s@.subrange(start as int, i as int).last() == s@[i - 1]);
            assert(r@ =~= sanitize_tail(s@.subrange(start as int, i as int)));
        }
    }
    proof {
        assert(s@.subrange(start as int, n as int) =~= s@.skip(start as int));
    }
    r
}

/// An ASCII letter or digit.
fn is_alnum_exec(c: char) -> (r: bool)
    ensures
        r == is_alnum(c),
{
    let u = c as u32;
    (97 <= u && u <= 122) || (65 <= u && u <= 90) || (48 <= u && u <= 57)
}

/// A character a project name may keep.
fn is_name_char_exec(c: char) -> (r: bool)
    ensures
        r == is_name_char(c),
{
    is_alnum_exec(c) || c == '_' || c == '.' || c == '-'
}

/// The ASCII lowercase of a character.
fn lower_char_exec(c: char) -> (r: char)
    ensures
        r == lower_char(c),
{
    let u = c as u32;
    if 65 <= u && u <= 90 {
        ((u + 32) as u8) as char
    } else {
        c
    }
}

/// The name a resource takes when its declaration gives none: its key,
/// prefixed by the project's name unless the resource is external or no
/// project name is known.
pub fn resource_name(external: bool, project: Option<&String>, key: &String) -> (r: String)
    ensures
        match project {
            Some(p) => {
                &&& !external ==> r@ == p@ + "_"@ + key@
                &&& external ==> r@ == key@
            },
            None => r@ == key@,
        },
{
    match project {
        Some(p) => {
            if !external {
                let mut r = p.clone();
                r.append("_");
                r.append(key.as_str());
                r
            } else {
                key.clone()
            }
        }
        None => key.clone(),
    }
}

} // verus!
