//! The variable-interpolation grammar of configuration values.
//!
//! A value may hold plain text, `$$` as an escaped dollar sign, `$NAME`,
//! `${NAME}`, and braced forms with an operator: `${NAME-word}` and
//! `${NAME:-word}` (fall back to `word`), `${NAME?word}` and `${NAME:?word}`
//! (fail with message `word`), `${NAME+word}` and `${NAME:+word}` (replace
//! with `word`). The `:` forms treat a set-but-empty variable as unset. The
//! word of a braced form is itself interpolated, with braces nesting. An
//! unterminated `${` is plain text; a braced form whose inside fits no rule
//! is a syntax error.
//!
//! The grammar is defined by the specification functions [`scan`] and
//! [`scan_braced`]; the executable parser returns exactly the token list
//! they describe.

use vstd::prelude::*;

verus! {

/// Whether a set-but-empty variable counts as set.
#[derive(Clone, Copy, PartialEq, Eq, Structural, Debug)]
pub enum Strictness {
    /// Only a missing variable triggers the operator (`-`, `?`, `+`).
    Unset,
    /// A missing or empty variable triggers the operator (`:-`, `:?`, `:+`).
    UnsetOrEmpty,
}

/// The operator of a braced variable reference.
#[derive(Debug)]
pub enum Var {
    /// `${NAME-word}` / `${NAME:-word}`: the word replaces an unset variable.
    Fallback(Strictness, Vec<Token>),
    /// `${NAME?word}` / `${NAME:?word}`: an unset variable is an error with
    /// the word as message.
    Required(Strictness, Vec<Token>),
    /// `${NAME+word}` / `${NAME:+word}`: the word replaces a set variable;
    /// an unset variable yields nothing.
    Replacement(Strictness, Vec<Token>),
}

/// One piece of an interpolated value.
#[derive(Debug)]
pub enum Token {
    /// Plain text.
    Lit(String),
    /// A variable reference with an optional operator.
    Var(String, Option<Var>),
}

/// The mathematical value of a token: the same shape over sequences of
/// characters.
pub enum TokenModel {
    Lit(Seq<char>),
    Var(Seq<char>, Option<VarModel>),
}

/// The mathematical value of a braced operator; the boolean is whether a
/// set-but-empty variable counts as unset.
pub enum VarModel {
    Fallback(bool, Seq<TokenModel>),
    Required(bool, Seq<TokenModel>),
    Replacement(bool, Seq<TokenModel>),
}

/// The mathematical value of a token.
pub open spec fn token_model(t: Token) -> TokenModel
    decreases t,
{
    match t {
        Token::Lit(s) => TokenModel::Lit(s@),
        Token::Var(name, v) => TokenModel::Var(
            name@,
            match v {
                Option::None => Option::None,
                Option::Some(v0) => Option::Some(var_model(v0)),
            },
        ),
    }
}

/// The mathematical value of a braced operator.
pub open spec fn var_model(v: Var) -> VarModel
    decreases v,
{
    match v {
        Var::Fallback(st, toks) => VarModel::Fallback(st is UnsetOrEmpty, tokens_model(toks@)),
        Var::Required(st, toks) => VarModel::Required(st is UnsetOrEmpty, tokens_model(toks@)),
        Var::Replacement(st, toks) => VarModel::Replacement(st is UnsetOrEmpty, tokens_model(toks@)),
    }
}

/// The mathematical value of a token list.
pub open spec fn tokens_model(ts: Seq<Token>) -> Seq<TokenModel>
    decreases ts,
{
    if ts.len() == 0 {
        Seq::empty()
    } else {
        seq![token_model(ts[0])] + tokens_model(ts.drop_first())
    }
}

/// `tokens_model` maps the list element by element.
pub proof fn lemma_tokens_model(ts: Seq<Token>)
    ensures
        tokens_model(ts).len() == ts.len(),
        forall|i: int| 0 <= i < ts.len() ==> tokens_model(ts)[i] == token_model(ts[i]),
    decreases ts.len(),
{
    if ts.len() > 0 {
        lemma_tokens_model(ts.drop_first());
        assert forall|i: int| 0 <= i < ts.len() implies tokens_model(ts)[i] == token_model(ts[i]) by {
            if i > 0 {
                assert(ts.drop_first()[i - 1] == ts[i]);
                assert(tokens_model(ts)[i] == tokens_model(ts.drop_first())[i - 1]);
            }
        }
    }
}

/// A character a variable name may consist of.
pub open spec fn is_param_char(c: char) -> bool {
    ||| 'a' as u32 <= c as u32 && c as u32 <= 'z' as u32
    ||| 'A' as u32 <= c as u32 && c as u32 <= 'Z' as u32
    ||| '0' as u32 <= c as u32 && c as u32 <= '9' as u32
    ||| c == '_'
}

/// Position of the closing brace matching nesting depth `depth` from
/// position `k` on: the first `}` not balanced by an intervening `{`.
pub open spec fn find_close(s: Seq<char>, k: int, depth: int) -> Option<int>
    decreases s.len() - k,
{
    if k < 0 || k >= s.len() {
        None
    } else if s[k] == '}' {
        if depth == 0 {
            Some(k)
        } else {
            find_close(s, k + 1, depth - 1)
        }
    } else if s[k] == '{' {
        find_close(s, k + 1, depth + 1)
    } else {
        find_close(s, k + 1, depth)
    }
}

/// A found closing brace lies within the string, at or after the start.
pub proof fn lemma_find_close_bounds(s: Seq<char>, k: int, depth: int)
    ensures
        match find_close(s, k, depth) {
            Some(j) => k <= j < s.len() && s[j] == '}',
            None => true,
        },
    decreases s.len() - k,
{
    if 0 <= k < s.len() {
        lemma_find_close_bounds(s, k + 1, depth - 1);
        lemma_find_close_bounds(s, k + 1, depth + 1);
        lemma_find_close_bounds(s, k + 1, depth);
    }
}

/// End of the run of name characters starting at `k`.
pub open spec fn param_end(s: Seq<char>, k: int) -> int
    decreases s.len() - k,
{
    if k < 0 || k >= s.len() || !is_param_char(s[k]) {
        k
    } else {
        param_end(s, k + 1)
    }
}

/// The name run: every character before its end is a name character, and
/// it ends at the string's end or at the first other character.
pub proof fn lemma_param_end(s: Seq<char>, k: int)
    requires
        0 <= k <= s.len(),
    ensures
        k <= param_end(s, k) <= s.len(),
        forall|j: int| k <= j < param_end(s, k) ==> is_param_char(s[j]),
        param_end(s, k) == s.len() || !is_param_char(s[param_end(s, k)]),
    decreases s.len() - k,
{
    if k < s.len() && is_param_char(s[k]) {
        lemma_param_end(s, k + 1);
    }
}

/// Position `i` begins a braced variable reference: `${` with a matching
/// closing brace.
pub open spec fn starts_braced(s: Seq<char>, i: int) -> bool {
    &&& 0 <= i
    &&& i + 1 < s.len()
    &&& s[i] == '$'
    &&& s[i + 1] == '{'
    &&& find_close(s, i + 2, 0) is Some
}

/// Position `i` begins a plain variable reference: `$` followed by a name
/// character.
pub open spec fn starts_plain_var(s: Seq<char>, i: int) -> bool {
    &&& 0 <= i
    &&& i + 1 < s.len()
    &&& s[i] == '$'
    &&& is_param_char(s[i + 1])
}

/// Puts one literal character in front of a token list, merging it into a
/// leading literal so that no two literals are ever adjacent.
pub open spec fn prepend_lit(c: char, rest: Seq<TokenModel>) -> Seq<TokenModel> {
    if rest.len() > 0 && rest[0] is Lit {
        seq![TokenModel::Lit(seq![c] + rest[0]->Lit_0)] + rest.drop_first()
    } else {
        seq![TokenModel::Lit(seq![c])] + rest
    }
}

/// The token list of the value from position `i` on, or `None` on a syntax
/// error. Each position either begins a braced reference (when `${` has a
/// matching close — otherwise it is plain text), a plain reference, an
/// escaped dollar, or one character of plain text.
pub open spec fn scan(s: Seq<char>, i: int) -> Option<Seq<TokenModel>>
    decreases s.len() - i,
    via scan_decreases
{
    if i < 0 || i >= s.len() {
        Some(Seq::empty())
    } else if starts_braced(s, i) {
        let j = find_close(s, i + 2, 0)->Some_0;
        match scan_braced(s.subrange(i + 2, j)) {
            None => None,
            Some(tok) => match scan(s, j + 1) {
                None => None,
                Some(rest) => Some(seq![tok] + rest),
            },
        }
    } else if starts_plain_var(s, i) {
        let k = param_end(s, i + 1);
        match scan(s, k) {
            None => None,
            Some(rest) => Some(seq![TokenModel::Var(s.subrange(i + 1, k), Option::None)] + rest),
        }
    } else if s[i] == '$' && i + 1 < s.len() && s[i + 1] == '$' {
        match scan(s, i + 2) {
            None => None,
            Some(rest) => Some(prepend_lit('$', rest)),
        }
    } else {
        match scan(s, i + 1) {
            None => None,
            Some(rest) => Some(prepend_lit(s[i], rest)),
        }
    }
}

/// The operator of a braced form, by its distinguishing character.
pub open spec fn braced_op(c: char, strict: bool, toks: Seq<TokenModel>) -> VarModel {
    if c == '-' {
        VarModel::Fallback(strict, toks)
    } else if c == '?' {
        VarModel::Required(strict, toks)
    } else {
        VarModel::Replacement(strict, toks)
    }
}

/// The token of the inside of a braced reference: a name alone, or a name,
/// an operator (`-`, `?`, `+`, with or without a leading `:`) and a word,
/// which is itself interpolated. Anything else is a syntax error.
pub open spec fn scan_braced(inner: Seq<char>) -> Option<TokenModel>
    decreases inner.len() + 1,
    via scan_braced_decreases
{
    let p = param_end(inner, 0);
    if p <= 0 {
        None
    } else if p >= inner.len() {
        Some(TokenModel::Var(inner, Option::None))
    } else if inner[p] == ':' && p + 1 < inner.len() && (inner[p + 1] == '-' || inner[p + 1] == '?'
        || inner[p + 1] == '+') {
        match scan(inner.subrange(p + 2, inner.len() as int), 0) {
            None => None,
            Some(toks) => Some(
                TokenModel::Var(inner.subrange(0, p), Option::Some(braced_op(inner[p + 1], true, toks))),
            ),
        }
    } else if inner[p] == '-' || inner[p] == '?' || inner[p] == '+' {
        match scan(inner.subrange(p + 1, inner.len() as int), 0) {
            None => None,
            Some(toks) => Some(
                TokenModel::Var(inner.subrange(0, p), Option::Some(braced_op(inner[p], false, toks))),
            ),
        }
    } else {
        None
    }
}

#[via_fn]
proof fn scan_decreases(s: Seq<char>, i: int) {
    if 0 <= i < s.len() {
        if starts_braced(s, i) {
            lemma_find_close_bounds(s, i + 2, 0);
        } else if starts_plain_var(s, i) {
            lemma_param_end(s, i + 1);
        }
    }
}

#[via_fn]
proof fn scan_braced_decreases(inner: Seq<char>) {
    lemma_param_end(inner, 0);
}


/// Relies on String::push: appends exactly the given character.
#[verifier::external_body]
pub(crate) fn push_char(s: &mut String, c: char)
    ensures
        final(s)@ == old(s)@.push(c),
{
    s.push(c);
}

/// The characters of a string slice, in order.
pub(crate) fn chars_of(s: &str) -> (r: Vec<char>)
    ensures
        r@ == s@,
{
    let n = s.unicode_len();
    let mut r: Vec<char> = Vec::new();
    let mut i: usize = 0;
    while i < n
        invariant
            i <= n,
            n == s@.len(),
            r@.len() == i,
            forall|j: int| 0 <= j < i ==> #[trigger] r@[j] == s@[j],
        decreases n - i,
    {
        r.push(s.get_char(i));
        i = i + 1;
    }
    proof {
        assert(r@ =~= s@);
    }
    r
}

/// The string of the characters `s[a..b]`.
pub(crate) fn string_range(s: &Vec<char>, a: usize, b: usize) -> (r: String)
    requires
        a <= b <= s@.len(),
    ensures
        r@ == s@.subrange(a as int, b as int),
{
    let mut r = String::new();
    let mut i: usize = a;
    while i < b
        invariant
            a <= i <= b <= s@.len(),
            r@ == s@.subrange(a as int, i as int),
        decreases b - i,
    {
        push_char(&mut r, s[i]);
        i = i + 1;
        proof {
            assert(s@.subrange(a as int, i as int) =~= s@.subrange(a as int, i - 1).push(
                s@[i - 1],
            ));
        }
    }
    r
}

/// A copy of the characters `s[a..b]`.
fn copy_range(s: &Vec<char>, a: usize, b: usize) -> (r: Vec<char>)
    requires
        a <= b <= s@.len(),
    ensures
        r@ == s@.subrange(a as int, b as int),
{
    let mut r: Vec<char> = Vec::new();
    let mut i: usize = a;
    while i < b
        invariant
            a <= i <= b <= s@.len(),
            r@.len() == i - a,
            forall|j: int| 0 <= j < i - a ==> #[trigger] r@[j] == s@[a + j],
        decreases b - i,
    {
        r.push(s[i]);
        i = i + 1;
    }
    proof {
        assert(r@ =~= s@.subrange(a as int, b as int));
    }
    r
}

/// Whether `c` may be part of a variable name.
fn is_param_char_exec(c: char) -> (r: bool)
    ensures
        r == is_param_char(c),
{
    let u = c as u32;
    (97 <= u && u <= 122) || (65 <= u && u <= 90) || (48 <= u && u <= 57) || c == '_'
}

/// Position of the unbalanced closing brace from `start` on, if any.
fn find_close_exec(s: &Vec<char>, start: usize) -> (r: Option<usize>)
    requires
        start <= s@.len(),
    ensures
        match r {
            Some(j) => find_close(s@, start as int, 0) == Some(j as int) && start <= j < s@.len(),
            None => find_close(s@, start as int, 0) is None,
        },
{
    let n = s.len();
    let mut k = start;
    let mut depth: usize = 0;
    while k < n
        invariant
            start <= k <= n,
            n == s@.len(),
            depth <= k - start,
            find_close(s@, start as int, 0) == find_close(s@, k as int, depth as int),
        decreases n - k,
    {
        let c = s[k];
        if c == '}' {
            if depth == 0 {
                return Some(k);
            }
            depth = depth - 1;
        } else if c == '{' {
            depth = depth + 1;
        }
        k = k + 1;
    }
    None
}

/// End of the run of name characters starting at `k`.
fn param_end_exec(s: &Vec<char>, k: usize) -> (r: usize)
    requires
        k <= s@.len(),
    ensures
        r == param_end(s@, k as int),
        k <= r <= s@.len(),
{
    proof {
        lemma_param_end(s@, k as int);
    }
    let n = s.len();
    let mut i = k;
    while i < n && is_param_char_exec(s[i])
        invariant
            k <= i <= n,
            n == s@.len(),
            param_end(s@, k as int) == param_end(s@, i as int),
        decreases n - i,
    {
        i = i + 1;
    }
    i
}

/// `tokens_model` of a one-longer list, from the front.
proof fn lemma_tokens_model_cons(t: Token, ts: Seq<Token>)
    ensures
        tokens_model(seq![t] + ts) == seq![token_model(t)] + tokens_model(ts),
{
    let whole = seq![t] + ts;
    assert(whole.len() == ts.len() + 1);
    assert(whole[0] == t);
    assert(whole.drop_first() =~= ts);
}

/// Puts one literal character in front of a token list, merging it into a
/// leading literal.
fn prepend_char(c: char, tokens: Vec<Token>) -> (r: Vec<Token>)
    ensures
        tokens_model(r@) == prepend_lit(c, tokens_model(tokens@)),
{
    let ghost orig = tokens@;
    proof {
        lemma_tokens_model(orig);
    }
    let mut tokens = tokens;
    if tokens.len() > 0 {
        let first = tokens.remove(0);
        proof {
            assert(tokens@ =~= orig.drop_first());
            assert(first == orig[0]);
        }
        match first {
            Token::Lit(s0) => {
                let mut ns = String::new();
                push_char(&mut ns, c);
                ns.append(s0.as_str());
                tokens.insert(0, Token::Lit(ns));
                proof {
                    assert(tokens@ =~= seq![Token::Lit(ns)] + orig.drop_first());
                    lemma_tokens_model_cons(Token::Lit(ns), orig.drop_first());
                    lemma_tokens_model(orig.drop_first());
                    assert(tokens_model(orig)[0] == token_model(orig[0]));
                    assert(tokens_model(orig)[0] is Lit);
                    assert(ns@ == seq![c] + tokens_model(orig)[0]->Lit_0);
                    assert(tokens_model(orig).drop_first() =~= tokens_model(orig.drop_first())) by {
                        lemma_tokens_model(orig);
                        lemma_tokens_model(orig.drop_first());
                        assert forall|i: int| 0 <= i < orig.len() - 1 implies tokens_model(
                            orig,
                        ).drop_first()[i] == tokens_model(orig.drop_first())[i] by {
                            assert(orig.drop_first()[i] == orig[i + 1]);
                        }
                    }
                    assert(tokens_model(tokens@) =~= prepend_lit(c, tokens_model(orig)));
                }
            }
            other => {
                let ghost o = other;
                tokens.insert(0, other);
                let mut ns = String::new();
                push_char(&mut ns, c);
                tokens.insert(0, Token::Lit(ns));
                proof {
                    assert(tokens@ =~= seq![Token::Lit(ns)] + orig);
                    lemma_tokens_model_cons(Token::Lit(ns), orig);
                    assert(tokens_model(orig)[0] == token_model(orig[0]));
                    assert(!(tokens_model(orig)[0] is Lit));
                    assert(ns@ =~= seq![c]);
                    assert(tokens_model(tokens@) =~= prepend_lit(c, tokens_model(orig)));
                }
            }
        }
    } else {
        let mut ns = String::new();
        push_char(&mut ns, c);
        tokens.push(Token::Lit(ns));
        proof {
            assert(ns@ =~= seq![c]);
            assert(tokens@ =~= seq![Token::Lit(ns)] + orig);
            lemma_tokens_model_cons(Token::Lit(ns), orig);
            assert(tokens_model(tokens@) =~= prepend_lit(c, tokens_model(orig)));
        }
    }
    tokens
}

/// Parses the value from position `i` on: the token list of [`scan`], or
/// `None` exactly on a syntax error.
fn scan_exec(s: &Vec<char>, i: usize) -> (r: Option<Vec<Token>>)
    requires
        i <= s@.len(),
    ensures
        match r {
            Some(ts) => scan(s@, i as int) == Some(tokens_model(ts@)),
            None => scan(s@, i as int) is None,
        },
    decreases s@.len() - i,
{
    let n = s.len();
    if i >= n {
        return Some(Vec::new());
    }
    let c = s[i];
    if c == '$' && i + 1 < n && s[i + 1] == '{' {
        match find_close_exec(s, i + 2) {
            Some(j) => {
                proof {
                    assert(starts_braced(s@, i as int));
                    lemma_find_close_bounds(s@, i + 2, 0);
                }
                let inner = copy_range(s, i + 2, j);
                match braced_exec(inner) {
                    None => None,
                    Some(tok) => match scan_exec(s, j + 1) {
                        None => None,
                        Some(mut rest) => {
                            let ghost rest0 = rest@;
                            let ghost tokm = token_model(tok);
                            rest.insert(0, tok);
                            proof {
                                assert(rest@ =~= seq![rest@[0]] + rest0);
                                lemma_tokens_model_cons(rest@[0], rest0);
                            }
                            Some(rest)
                        }
                    },
                }
            }
            None => {
                // `${` without a matching close is one character of text
                proof {
                    assert(!starts_braced(s@, i as int));
                    assert(!starts_plain_var(s@, i as int)) by {
                        assert(!is_param_char(s@[i + 1]));
                    }
                }
                match scan_exec(s, i + 1) {
                    None => None,
                    Some(rest) => Some(prepend_char(c, rest)),
                }
            }
        }
    } else if c == '$' && i + 1 < n && is_param_char_exec(s[i + 1]) {
        proof {
            assert(starts_plain_var(s@, i as int));
            lemma_param_end(s@, i + 1);
        }
        let k = param_end_exec(s, i + 1);
        let name = string_range(s, i + 1, k);
        match scan_exec(s, k) {
            None => None,
            Some(mut rest) => {
                let ghost rest0 = rest@;
                rest.insert(0, Token::Var(name, None));
                proof {
                    assert(rest@ =~= seq![rest@[0]] + rest0);
                    lemma_tokens_model_cons(rest@[0], rest0);
                }
                Some(rest)
            }
        }
    } else if c == '$' && i + 1 < n && s[i + 1] == '$' {
        proof {
            assert(!starts_braced(s@, i as int));
            assert(!starts_plain_var(s@, i as int));
        }
        match scan_exec(s, i + 2) {
            None => None,
            Some(rest) => Some(prepend_char('$', rest)),
        }
    } else {
        proof {
            assert(!starts_braced(s@, i as int));
            assert(!starts_plain_var(s@, i as int));
        }
        match scan_exec(s, i + 1) {
            None => None,
            Some(rest) => Some(prepend_char(c, rest)),
        }
    }
}

/// Parses the inside of a braced reference: the token of [`scan_braced`],
/// or `None` exactly on a syntax error.
fn braced_exec(inner: Vec<char>) -> (r: Option<Token>)
    ensures
        match r {
            Some(t) => scan_braced(inner@) == Some(token_model(t)),
            None => scan_braced(inner@) is None,
        },
    decreases inner@.len() + 1,
{
    let p = param_end_exec(&inner, 0);
    let n = inner.len();
    if p == 0 {
        None
    } else if p == n {
        let name = string_range(&inner, 0, n);
        proof {
            assert(name@ =~= inner@);
        }
        Some(Token::Var(name, None))
    } else {
        let sc = inner[p];
        let two = sc == ':' && p + 1 < n && (inner[p + 1] == '-' || inner[p + 1] == '?' || inner[p
            + 1] == '+');
        if two {
            let rest = copy_range(&inner, p + 2, n);
            match scan_exec(&rest, 0) {
                None => {
                    proof {
                        assert(scan(inner@.subrange(p + 2, n as int), 0) is None);
                    }
                    None
                }
                Some(toks) => {
                    let name = string_range(&inner, 0, p);
                    let opc = inner[p + 1];
                    let v = if opc == '-' {
                        Var::Fallback(Strictness::UnsetOrEmpty, toks)
                    } else if opc == '?' {
                        Var::Required(Strictness::UnsetOrEmpty, toks)
                    } else {
                        Var::Replacement(Strictness::UnsetOrEmpty, toks)
                    };
                    Some(Token::Var(name, Some(v)))
                }
            }
        } else if sc == '-' || sc == '?' || sc == '+' {
            let rest = copy_range(&inner, p + 1, n);
            match scan_exec(&rest, 0) {
                None => {
                    proof {
                        assert(scan(inner@.subrange(p + 1, n as int), 0) is None);
                    }
                    None
                }
                Some(toks) => {
                    let name = string_range(&inner, 0, p);
                    let v = if sc == '-' {
                        Var::Fallback(Strictness::Unset, toks)
                    } else if sc == '?' {
                        Var::Required(Strictness::Unset, toks)
                    } else {
                        Var::Replacement(Strictness::Unset, toks)
                    };
                    Some(Token::Var(name, Some(v)))
                }
            }
        } else {
            None
        }
    }
}

/// Parses a whole value into its token list; `None` exactly when the value
/// has a syntax error (a braced reference whose inside fits no rule).
pub fn parse(input: &str) -> (r: Option<Vec<Token>>)
    ensures
        match r {
            Some(ts) => scan(input@, 0) == Some(tokens_model(ts@)),
            None => scan(input@, 0) is None,
        },
{
    let chars = chars_of(input);
    scan_exec(&chars, 0)
}

} // verus!
