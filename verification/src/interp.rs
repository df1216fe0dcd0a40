//! Evaluation of interpolated configuration values against an environment.
//!
//! A parsed value (see [`crate::parser`]) is evaluated token by token:
//! plain text stands for itself, a bare variable reference for the
//! variable's value (an unset variable for the empty string), and the
//! braced operators fall back, fail, or replace as the variable's state
//! demands. The specification functions [`eval_tokens`], [`eval_token`] and
//! [`eval_op`] define the result exactly; [`interpolate`] composes parsing
//! and evaluation.

use vstd::prelude::*;

use crate::parser::{
    parse, scan, token_model, tokens_model, Strictness, Token, TokenModel, Var, VarModel,
};

verus! {

/// An environment: variable bindings, newest first.
pub struct Env {
    pub vars: Vec<(String, String)>,
}

/// The mathematical value of the bindings.
pub open spec fn env_model(vars: Seq<(String, String)>) -> Seq<(Seq<char>, Seq<char>)> {
    Seq::new(vars.len(), |i: int| (vars[i].0@, vars[i].1@))
}

/// The value bound to `name`: its first binding, if any.
pub open spec fn env_lookup(env: Seq<(Seq<char>, Seq<char>)>, name: Seq<char>) -> Option<Seq<char>>
    decreases env.len(),
{
    if env.len() == 0 {
        None
    } else if env[0].0 == name {
        Some(env[0].1)
    } else {
        env_lookup(env.drop_first(), name)
    }
}

impl Env {
    /// The mathematical value of the environment.
    pub open spec fn model(self) -> Seq<(Seq<char>, Seq<char>)> {
        env_model(self.vars@)
    }

    /// An empty environment.
    pub fn new() -> (r: Env)
        ensures
            r.model() == Seq::<(Seq<char>, Seq<char>)>::empty(),
    {
        let r = Env { vars: Vec::new() };
        proof {
            assert(r.model() =~= Seq::<(Seq<char>, Seq<char>)>::empty());
        }
        r
    }

    /// Binds `name` to `value`; a newer binding shadows an older one.
    pub fn set(&mut self, name: String, value: String)
        ensures
            final(self).model() == seq![(name@, value@)] + old(self).model(),
    {
        self.vars.insert(0, (name, value));
        proof {
            assert(self.model() =~= seq![(self.vars@[0].0@, self.vars@[0].1@)] + old(self).model());
        }
    }

    /// The value bound to `name`, if any.
    fn get(&self, name: &String) -> (r: Option<&String>)
        ensures
            match r {
                Some(v) => env_lookup(self.model(), name@) == Some(v@),
                None => env_lookup(self.model(), name@) is None,
            },
    {
        let n = self.vars.len();
        let mut i: usize = 0;
        proof {
            assert(self.model().skip(0) =~= self.model());
        }
        while i < n
            invariant
                i <= n,
                n == self.vars@.len(),
                env_lookup(self.model(), name@) == env_lookup(
                    self.model().skip(i as int),
                    name@,
                ),
            decreases n - i,
        {
            proof {
                assert(self.model().skip(i as int)[0] == (self.vars@[i as int].0@, self.vars@[
                    i as int].1@));
                assert(self.model().skip(i as int).drop_first() =~= self.model().skip(i + 1));
            }
            if self.vars[i].0 == *name {
                return Some(&self.vars[i].1);
            }
            i = i + 1;
        }
        proof {
            assert(self.model().skip(n as int) =~= Seq::<(Seq<char>, Seq<char>)>::empty());
        }
        None
    }
}

/// The outcome of evaluating a value: its text, or the failure demanded by
/// a `?` operator on an unset variable.
pub enum EvalOutcome {
    Done(Seq<char>),
    MissingVariable { name: Seq<char>, message: Seq<char> },
}

/// The variable's value as the operator sees it: `None` when unset — and,
/// for the `:` forms, also when empty.
pub open spec fn effective_value(
    env: Seq<(Seq<char>, Seq<char>)>,
    name: Seq<char>,
    empty_is_unset: bool,
) -> Option<Seq<char>> {
    match env_lookup(env, name) {
        Option::None => Option::None,
        Option::Some(v) => if empty_is_unset && v.len() == 0 {
            Option::None
        } else {
            Option::Some(v)
        },
    }
}

/// Evaluates a token list: the concatenation of the tokens' texts, or the
/// first failure in token order.
pub open spec fn eval_tokens(ts: Seq<TokenModel>, env: Seq<(Seq<char>, Seq<char>)>) -> EvalOutcome
    decreases ts,
{
    if ts.len() == 0 {
        EvalOutcome::Done(Seq::empty())
    } else {
        match eval_token(ts[0], env) {
            EvalOutcome::Done(s) => match eval_tokens(ts.drop_first(), env) {
                EvalOutcome::Done(rest) => EvalOutcome::Done(s + rest),
                e => e,
            },
            e => e,
        }
    }
}

/// Evaluates one token.
pub open spec fn eval_token(t: TokenModel, env: Seq<(Seq<char>, Seq<char>)>) -> EvalOutcome
    decreases t,
{
    match t {
        TokenModel::Lit(s) => EvalOutcome::Done(s),
        TokenModel::Var(name, Option::None) => EvalOutcome::Done(
            match env_lookup(env, name) {
                Option::Some(v) => v,
                Option::None => Seq::empty(),
            },
        ),
        TokenModel::Var(name, Option::Some(op)) => eval_op(name, op, env),
    }
}

/// Evaluates a braced operator on the named variable.
pub open spec fn eval_op(
    name: Seq<char>,
    op: VarModel,
    env: Seq<(Seq<char>, Seq<char>)>,
) -> EvalOutcome
    decreases op,
{
    match op {
        VarModel::Fallback(strict, toks) => match effective_value(env, name, strict) {
            Option::Some(v) => EvalOutcome::Done(v),
            Option::None => eval_tokens(toks, env),
        },
        VarModel::Required(strict, toks) => match effective_value(env, name, strict) {
            Option::Some(v) => EvalOutcome::Done(v),
            Option::None => match eval_tokens(toks, env) {
                EvalOutcome::Done(msg) => EvalOutcome::MissingVariable { name, message: msg },
                e => e,
            },
        },
        VarModel::Replacement(strict, toks) => match effective_value(env, name, strict) {
            Option::Some(_) => eval_tokens(toks, env),
            Option::None => EvalOutcome::Done(Seq::empty()),
        },
    }
}

/// Appends an outcome to already-evaluated text: a failure swallows the
/// text, a success extends it.
pub open spec fn continue_with(prefix: Seq<char>, rest: EvalOutcome) -> EvalOutcome {
    match rest {
        EvalOutcome::Done(r) => EvalOutcome::Done(prefix + r),
        e => e,
    }
}

/// Why a value could not be interpolated.
#[derive(Debug)]
pub enum InterpolateError {
    /// A braced reference whose inside fits no rule of the grammar.
    Syntax,
    /// A `?` operator met an unset variable: the variable's name and the
    /// evaluated message word.
    MissingVariable { name: String, message: String },
}

/// The user-facing description of a missing required variable.
pub open spec fn missing_message(name: Seq<char>, msg: Seq<char>) -> Seq<char> {
    "Required variable \""@ + name + "\" is missing a value"@ + if msg.len() == 0 {
        Seq::<char>::empty()
    } else {
        ": "@ + msg
    }
}

impl InterpolateError {
    /// The user-facing description of the error.
    pub fn message(&self) -> (r: String)
        ensures
            r@ == match *self {
                InterpolateError::Syntax => "invalid variable substitution syntax"@,
                InterpolateError::MissingVariable { name, message } => missing_message(
                    name@,
                    message@,
                ),
            },
    {
        match self {
            InterpolateError::Syntax => String::from_str("invalid variable substitution syntax"),
            InterpolateError::MissingVariable { name, message } => {
                let mut m = String::from_str("Required variable \"");
                m.append(name.as_str());
                m.append("\" is missing a value");
                if !message.as_str().is_empty() {
                    m.append(": ");
                    m.append(message.as_str());
                }
                proof {
                    assert(m@ =~= missing_message(name@, message@));
                }
                m
            }
        }
    }
}

/// Evaluates parsed tokens against the environment: exactly the text of
/// [`eval_tokens`], or its failure as an error value.
pub fn evaluate(tokens: &Vec<Token>, env: &Env) -> (r: Result<String, InterpolateError>)
    ensures
        match r {
            Ok(out) => eval_tokens(tokens_model(tokens@), env.model()) == EvalOutcome::Done(out@),
            Err(e) => e matches InterpolateError::MissingVariable { name, message }
                && eval_tokens(tokens_model(tokens@), env.model())
                == (EvalOutcome::MissingVariable { name: name@, message: message@ }),
        },
    decreases tokens,
{
    let ghost models = tokens_model(tokens@);
    let ghost envm = env.model();
    proof {
        crate::parser::lemma_tokens_model(tokens@);
    }
    let n = tokens.len();
    let mut acc = String::new();
    let mut i: usize = 0;
    proof {
        assert(models.skip(0) =~= models);
        if eval_tokens(models, envm) is Done {
            assert(Seq::<char>::empty() + eval_tokens(models, envm)->Done_0 =~= eval_tokens(
                models,
                envm,
            )->Done_0);
        }
    }
    while i < n
        invariant
            i <= n,
            n == tokens@.len(),
            models == tokens_model(tokens@),
            envm == env.model(),
            models.len() == n,
            forall|k: int| 0 <= k < n ==> models[k] == token_model(tokens@[k]),
            eval_tokens(models, envm) == continue_with(acc@, eval_tokens(models.skip(i as int), envm)),
        decreases n - i,
    {
        proof {
            assert(models.skip(i as int)[0] == models[i as int]);
            assert(models.skip(i as int).drop_first() =~= models.skip(i + 1));
        }
        match eval_one(&tokens[i], env) {
            Ok(s) => {
                proof {
                    let ghost rest = eval_tokens(models.skip(i + 1), envm);
                    if rest is Done {
                        assert(acc@ + (s@ + rest->Done_0) =~= (acc@ + s@) + rest->Done_0);
                    }
                }
                acc.append(s.as_str());
                i = i + 1;
            }
            Err(e) => {
                return Err(e);
            }
        }
    }
    proof {
        assert(models.skip(n as int) =~= Seq::<TokenModel>::empty());
        assert(acc@ + Seq::<char>::empty() =~= acc@);
    }
    Ok(acc)
}

/// The variable's value as the operator sees it.
fn effective(env: &Env, name: &String, st: Strictness) -> (r: Option<String>)
    ensures
        match r {
            Some(v) => effective_value(env.model(), name@, st is UnsetOrEmpty) == Some(v@),
            None => effective_value(env.model(), name@, st is UnsetOrEmpty) is None,
        },
{
    match env.get(name) {
        None => None,
        Some(v) => {
            if st == Strictness::UnsetOrEmpty && v.as_str().is_empty() {
                None
            } else {
                Some(v.clone())
            }
        }
    }
}

/// Evaluates one token.
fn eval_one(t: &Token, env: &Env) -> (r: Result<String, InterpolateError>)
    ensures
        match r {
            Ok(out) => eval_token(token_model(*t), env.model()) == EvalOutcome::Done(out@),
            Err(e) => e matches InterpolateError::MissingVariable { name, message }
                && eval_token(token_model(*t), env.model())
                == (EvalOutcome::MissingVariable { name: name@, message: message@ }),
        },
    decreases t,
{
    match t {
        Token::Lit(s) => Ok(s.clone()),
        Token::Var(name, v) => match v {
            None => match env.get(name) {
                Some(val) => Ok(val.clone()),
                None => Ok(String::new()),
            },
            Some(op) => match op {
                Var::Fallback(st, toks) => match effective(env, name, *st) {
                    Some(val) => Ok(val),
                    None => evaluate(toks, env),
                },
                Var::Required(st, toks) => match effective(env, name, *st) {
                    Some(val) => Ok(val),
                    None => match evaluate(toks, env) {
                        Ok(msg) => Err(
                            InterpolateError::MissingVariable { name: name.clone(), message: msg },
                        ),
                        Err(e) => Err(e),
                    },
                },
                Var::Replacement(st, toks) => match effective(env, name, *st) {
                    Some(_) => evaluate(toks, env),
                    None => Ok(String::new()),
                },
            },
        },
    }
}

/// Interpolates one configuration value against the environment: parses it
/// and evaluates the tokens. The result — the interpolated text, a syntax
/// error, or a missing required variable — is exactly what the grammar
/// ([`scan`]) and the evaluation ([`eval_tokens`]) prescribe.
pub fn interpolate(input: &str, env: &Env) -> (r: Result<String, InterpolateError>)
    ensures
        match r {
            Ok(out) => scan(input@, 0) matches Some(ts) && eval_tokens(ts, env.model())
                == EvalOutcome::Done(out@),
            Err(e) => match e {
                InterpolateError::Syntax => scan(input@, 0) is None,
                InterpolateError::MissingVariable { name, message } => scan(input@, 0) matches Some(
                    ts,
                ) && eval_tokens(ts, env.model()) == (EvalOutcome::MissingVariable {
                    name: name@,
                    message: message@,
                }),
            },
        },
{
    match parse(input) {
        None => Err(InterpolateError::Syntax),
        Some(tokens) => evaluate(&tokens, env),
    }
}

} // verus!
