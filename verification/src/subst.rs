//! The placeholder matcher and substitution engine.
//!
//! A placeholder opens with `{{` and closes at the nearest following `}}`;
//! the characters between are the variable name, looked up in the store. An
//! opener with no later closer is literal text. Scanning resumes after each
//! closer, so several placeholders on one line are each replaced: the text
//! `{{A}} x {{B}}` holds the two names `A` and `B`, not one name spanning
//! from the first opener to the last closer.

use crate::error::EveError;
use vstd::prelude::*;

verus! {

/// The environment store as a mathematical map. Entries are keyed by
/// variable name; when a name repeats, the earliest entry wins, matching a
/// loader that never overwrites a variable that is already set.
pub open spec fn map_of(entries: Seq<(String, String)>) -> Map<Seq<char>, Seq<char>>
    decreases entries.len(),
{
    if entries.len() == 0 {
        Map::empty()
    } else {
        map_of(entries.drop_first()).insert(entries[0].0@, entries[0].1@)
    }
}

/// What substitution returns on a text: the transformed text, or the first
/// variable name that the store does not resolve. Scanning is outside any
/// placeholder here.
pub open spec fn subst(t: Seq<char>, env: Map<Seq<char>, Seq<char>>) -> Result<
    Seq<char>,
    Seq<char>,
>
    decreases t.len(), 0int,
{
    if t.len() < 2 {
        Ok(t)
    } else if t[0] == '{' && t[1] == '{' {
        subst_in(Seq::empty(), t.subrange(2, t.len() as int), env)
    } else {
        match subst(t.drop_first(), env) {
            Ok(r) => Ok(seq![t[0]] + r),
            Err(e) => Err(e),
        }
    }
}

/// Substitution while inside a placeholder: `name` holds the characters read
/// since the opening `{{`, and `t` the rest of the text. The placeholder
/// closes at the nearest `}}`; if none follows, the opener and the name are
/// literal text.
pub open spec fn subst_in(
    name: Seq<char>,
    t: Seq<char>,
    env: Map<Seq<char>, Seq<char>>,
) -> Result<Seq<char>, Seq<char>>
    decreases t.len(), 1int,
{
    if t.len() < 2 {
        Ok(seq!['{', '{'] + name + t)
    } else if t[0] == '}' && t[1] == '}' {
        if env.dom().contains(name) {
            match subst(t.subrange(2, t.len() as int), env) {
                Ok(r) => Ok(env[name] + r),
                Err(e) => Err(e),
            }
        } else {
            Err(name)
        }
    } else {
        subst_in(name.push(t[0]), t.drop_first(), env)
    }
}

/// Prefixes a substitution result with already-transformed text.
pub open spec fn subst_then(prefix: Seq<char>, r: Result<Seq<char>, Seq<char>>) -> Result<
    Seq<char>,
    Seq<char>,
> {
    match r {
        Ok(s) => Ok(prefix + s),
        Err(e) => Err(e),
    }
}

/// No `{{` opener occurs anywhere in `t`.
pub open spec fn no_opener(t: Seq<char>) -> bool {
    forall|i: int| 0 <= i && i + 1 < t.len() ==> !(#[trigger] t[i] == '{' && t[i + 1] == '{')
}

/// No `}}` closer occurs anywhere in `t`.
pub open spec fn no_closer(t: Seq<char>) -> bool {
    forall|i: int| 0 <= i && i + 1 < t.len() ==> !(#[trigger] t[i] == '}' && t[i + 1] == '}')
}

/// A variable name as the store admits it: free of braces.
pub open spec fn brace_free(k: Seq<char>) -> bool {
    forall|i: int| 0 <= i < k.len() ==> #[trigger] k[i] != '{' && k[i] != '}'
}

proof fn lemma_subst_literal_prefix(c: Seq<char>, t: Seq<char>, env: Map<Seq<char>, Seq<char>>)
    requires
        no_opener(c),
        !(c.len() > 0 && t.len() > 0 && c.last() == '{' && t[0] == '{'),
    ensures
        subst(c + t, env) == subst_then(c, subst(t, env)),
    decreases c.len(),
{
    if c.len() == 0 {
        assert(c + t =~= t);
        match subst(t, env) {
            Ok(s) => {
                assert(c + s =~= s);
            },
            Err(_) => {},
        }
    } else if (c + t).len() < 2 {
        assert(t =~= Seq::<char>::empty());
        assert(c + t =~= c);
    } else {
        let s = c + t;
        assert(s[0] == c[0]);
        if c.len() >= 2 {
            assert(s[1] == c[1]);
            assert(!(c[0] == '{' && c[1] == '{'));
        } else {
            assert(s[1] == t[0]);
        }
        assert(!(s[0] == '{' && s[1] == '{'));
        assert(s.drop_first() =~= c.drop_first() + t);
        assert forall|i: int| 0 <= i && i + 1 < c.drop_first().len() implies !(#[trigger] c.drop_first()[i]
            == '{' && c.drop_first()[i + 1] == '{') by {
            assert(c.drop_first()[i] == c[i + 1]);
            assert(c.drop_first()[i + 1] == c[i + 2]);
        }
        if c.len() >= 2 {
            assert(c.drop_first().last() == c.last());
        }
        lemma_subst_literal_prefix(c.drop_first(), t, env);
        match subst(t, env) {
            Ok(r) => {
                assert(seq![s[0]] + (c.drop_first() + r) =~= c + r);
            },
            Err(_) => {},
        }
    }
}

proof fn lemma_subst_in_extend(
    name: Seq<char>,
    k: Seq<char>,
    t: Seq<char>,
    env: Map<Seq<char>, Seq<char>>,
)
    requires
        no_closer(k),
        !(k.len() > 0 && t.len() > 0 && k.last() == '}' && t[0] == '}'),
    ensures
        subst_in(name, k + t, env) == subst_in(name + k, t, env),
    decreases k.len(),
{
    if k.len() == 0 {
        assert(k + t =~= t);
        assert(name + k =~= name);
    } else {
        let s = k + t;
        if s.len() < 2 {
            assert(t.len() == 0);
            assert(seq!['{', '{'] + name + s =~= seq!['{', '{'] + (name + k) + t);
        } else {
            assert(s[0] == k[0]);
            if k.len() >= 2 {
                assert(s[1] == k[1]);
                assert(!(k[0] == '}' && k[1] == '}'));
            } else {
                assert(s[1] == t[0]);
            }
            assert(!(s[0] == '}' && s[1] == '}'));
            assert(s.drop_first() =~= k.drop_first() + t);
            assert forall|i: int| 0 <= i && i + 1 < k.drop_first().len() implies !(#[trigger] k.drop_first()[i]
                == '}' && k.drop_first()[i + 1] == '}') by {
                assert(k.drop_first()[i] == k[i + 1]);
                assert(k.drop_first()[i + 1] == k[i + 2]);
            }
            if k.len() >= 2 {
                assert(k.drop_first().last() == k.last());
            }
            lemma_subst_in_extend(name.push(k[0]), k.drop_first(), t, env);
            assert(name.push(k[0]) + k.drop_first() =~= name + k);
        }
    }
}

proof fn lemma_subst_open_front(k: Seq<char>, t: Seq<char>, env: Map<Seq<char>, Seq<char>>)
    requires
        no_closer(k),
        !(k.len() > 0 && k.last() == '}'),
    ensures
        subst(seq!['{', '{'] + k + seq!['}', '}'] + t, env) == (if env.dom().contains(k) {
            subst_then(env[k], subst(t, env))
        } else {
            Err(k)
        }),
{
    let s = seq!['{', '{'] + k + seq!['}', '}'] + t;
    let u = seq!['}', '}'] + t;
    assert(s[0] == '{');
    assert(s[1] == '{');
    assert(s.subrange(2, s.len() as int) =~= k + u);
    lemma_subst_in_extend(Seq::empty(), k, u, env);
    assert(Seq::<char>::empty() + k =~= k);
    assert(u[0] == '}' && u[1] == '}');
    assert(u.subrange(2, u.len() as int) =~= t);
}

proof fn lemma_subst_in_no_closer(name: Seq<char>, t: Seq<char>, env: Map<Seq<char>, Seq<char>>)
    requires
        no_closer(t),
    ensures
        subst_in(name, t, env) == Ok::<Seq<char>, Seq<char>>(seq!['{', '{'] + name + t),
    decreases t.len(),
{
    if t.len() < 2 {
    } else {
        assert(!(t[0] == '}' && t[1] == '}'));
        assert forall|i: int| 0 <= i && i + 1 < t.drop_first().len() implies !(#[trigger] t.drop_first()[i]
            == '}' && t.drop_first()[i + 1] == '}') by {
            assert(t.drop_first()[i] == t[i + 1]);
            assert(t.drop_first()[i + 1] == t[i + 2]);
        }
        lemma_subst_in_no_closer(name.push(t[0]), t.drop_first(), env);
        assert(seq!['{', '{'] + name.push(t[0]) + t.drop_first() =~= seq!['{', '{'] + name + t);
    }
}

proof fn lemma_subst_open_no_closer(t: Seq<char>, env: Map<Seq<char>, Seq<char>>)
    requires
        no_closer(t),
    ensures
        subst(seq!['{', '{'] + t, env) == Ok::<Seq<char>, Seq<char>>(seq!['{', '{'] + t),
{
    let s = seq!['{', '{'] + t;
    assert(s[0] == '{' && s[1] == '{');
    assert(s.subrange(2, s.len() as int) =~= t);
    lemma_subst_in_no_closer(Seq::empty(), t, env);
    assert(seq!['{', '{'] + Seq::<char>::empty() + t =~= s);
}

/// Substitution is the identity on placeholder-free input: text containing
/// no `{{` comes back unchanged, whatever the store holds.
pub proof fn lemma_identity_without_placeholders(t: Seq<char>, env: Map<Seq<char>, Seq<char>>)
    requires
        no_opener(t),
    ensures
        subst(t, env) == Ok::<Seq<char>, Seq<char>>(t),
{
    lemma_subst_literal_prefix(t, Seq::empty(), env);
    assert(t + Seq::<char>::empty() =~= t);
}

/// A text holding one well-formed placeholder whose name the store resolves
/// is transformed to the same text with the placeholder span replaced by the
/// stored value, and is unchanged elsewhere.
pub proof fn lemma_single_placeholder(
    a: Seq<char>,
    k: Seq<char>,
    b: Seq<char>,
    env: Map<Seq<char>, Seq<char>>,
)
    requires
        no_opener(a),
        !(a.len() > 0 && a.last() == '{'),
        brace_free(k),
        env.dom().contains(k),
        no_opener(b),
    ensures
        subst(a + seq!['{', '{'] + k + seq!['}', '}'] + b, env) == Ok::<Seq<char>, Seq<char>>(
            a + env[k] + b,
        ),
{
    let p = seq!['{', '{'] + k + seq!['}', '}'] + b;
    assert(a + seq!['{', '{'] + k + seq!['}', '}'] + b =~= a + p);
    assert(p[0] == '{');
    lemma_subst_literal_prefix(a, p, env);
    assert(no_closer(k));
    lemma_subst_open_front(k, b, env);
    lemma_identity_without_placeholders(b, env);
    assert(a + (env[k] + b) =~= a + env[k] + b);
}

/// A placeholder whose name the store does not resolve fails the whole
/// operation with that name; no transformed text is produced.
pub proof fn lemma_unresolved_fails(
    a: Seq<char>,
    k: Seq<char>,
    b: Seq<char>,
    env: Map<Seq<char>, Seq<char>>,
)
    requires
        no_opener(a),
        !(a.len() > 0 && a.last() == '{'),
        brace_free(k),
        !env.dom().contains(k),
    ensures
        subst(a + seq!['{', '{'] + k + seq!['}', '}'] + b, env) == Err::<Seq<char>, Seq<char>>(k),
{
    let p = seq!['{', '{'] + k + seq!['}', '}'] + b;
    assert(a + seq!['{', '{'] + k + seq!['}', '}'] + b =~= a + p);
    assert(p[0] == '{');
    lemma_subst_literal_prefix(a, p, env);
    assert(no_closer(k));
    lemma_subst_open_front(k, b, env);
}

/// A store of environment variables, built once from explicit key/value
/// pairs and read-only thereafter, so substitution is pure.
#[derive(Debug, Clone)]
pub struct Eve {
    entries: Vec<(String, String)>,
}

impl View for Eve {
    type V = Map<Seq<char>, Seq<char>>;

    closed spec fn view(&self) -> Map<Seq<char>, Seq<char>> {
        map_of(self.entries@)
    }
}

impl Eve {
    /// Builds the store from explicit key/value pairs; when a key repeats,
    /// the earliest pair wins.
    pub fn new(entries: Vec<(String, String)>) -> (r: Eve)
        ensures
            r@ == map_of(entries@),
    {
        Eve { entries }
    }

    /// Looks a variable name up in the store.
    pub fn lookup(&self, name: &String) -> (r: Option<&String>)
        ensures
            match r {
                Some(v) => self@.dom().contains(name@) && self@[name@] == v@,
                None => !self@.dom().contains(name@),
            },
    {
        let n = self.entries.len();
        proof {
            assert(self.entries@.subrange(0, n as int) =~= self.entries@);
        }
        let mut i: usize = 0;
        while i < n
            invariant
                i <= n,
                n == self.entries@.len(),
                map_of(self.entries@).dom().contains(name@) <==> map_of(
                    self.entries@.subrange(i as int, n as int),
                ).dom().contains(name@),
                map_of(self.entries@).dom().contains(name@) ==> map_of(self.entries@)[name@]
                    == map_of(self.entries@.subrange(i as int, n as int))[name@],
            decreases n - i,
        {
            let ghost tail = self.entries@.subrange(i as int, n as int);
            let pair = &self.entries[i];
            if pair.0 == *name {
                proof {
                    assert(tail[0] == self.entries@[i as int]);
                }
                return Some(&pair.1);
            }
            proof {
                assert(tail[0] == self.entries@[i as int]);
                assert(tail.drop_first() =~= self.entries@.subrange(i + 1, n as int));
            }
            i = i + 1;
        }
        proof {
            assert(self.entries@.subrange(n as int, n as int) =~= Seq::<(String, String)>::empty());
        }
        None
    }

    /// Performs a replacement on the provided `text`: every placeholder is
    /// replaced by the stored value of its name, left to right; the first
    /// name the store does not resolve fails the whole operation, and no
    /// transformed text is produced.
    pub fn replace(&self, text: &str) -> (res: Result<String, EveError>)
        ensures
            res matches Ok(out) ==> subst(text@, self@) == Ok::<Seq<char>, Seq<char>>(out@),
            res matches Err(e) ==> {
                &&& e matches EveError::UnresolvedVariable { name }
                &&& subst(text@, self@) == Err::<Seq<char>, Seq<char>>(name@)
            },
            res is Ok <==> subst(text@, self@) is Ok,
    {
        let n = text.unicode_len();
        let mut out = String::new();
        let mut pos: usize = 0;
        proof {
            assert(text@.subrange(0, n as int) =~= text@);
            match subst(text@, self@) {
                Ok(s) => {
                    assert(Seq::<char>::empty() + s =~= s);
                },
                Err(_) => {},
            }
        }
        while pos < n
            invariant
                pos <= n,
                n == text@.len(),
                subst(text@, self@) == subst_then(
                    out@,
                    subst(text@.subrange(pos as int, n as int), self@),
                ),
            decreases n - pos,
        {
            let ghost pos0 = pos as int;
            let ghost suffix = text@.subrange(pos as int, n as int);
            let ghost out0 = out@;
            let open_here: bool = if pos + 1 < n {
                text.get_char(pos) == '{' && text.get_char(pos + 1) == '{'
            } else {
                false
            };
            if open_here {
                let mut j: usize = pos + 2;
                let mut found: bool = false;
                loop
                    invariant_except_break
                        pos + 2 <= j <= n,
                        n == text@.len(),
                        !found,
                        forall|i: int|
                            pos + 2 <= i < j ==> !(#[trigger] text@[i] == '}' && text@[i + 1]
                                == '}'),
                    ensures
                        pos + 2 <= j <= n,
                        n == text@.len(),
                        found ==> j + 1 < n && text@[j as int] == '}' && text@[j + 1] == '}',
                        !found ==> j + 1 >= n,
                        forall|i: int|
                            pos + 2 <= i < j ==> !(#[trigger] text@[i] == '}' && text@[i + 1]
                                == '}'),
                    decreases n - j,
                {
                    if n - j < 2 {
                        break ;
                    }
                    if text.get_char(j) == '}' && text.get_char(j + 1) == '}' {
                        found = true;
                        break ;
                    }
                    j = j + 1;
                }
                if found {
                    let name_str = text.substring_char(pos + 2, j);
                    let name = String::from_str(name_str);
                    let ghost k = text@.subrange(pos + 2, j as int);
                    let ghost rest = text@.subrange(j + 2, n as int);
                    proof {
                        assert(suffix =~= seq!['{', '{'] + k + seq!['}', '}'] + rest);
                        assert forall|i: int| 0 <= i && i + 1 < k.len() implies !(#[trigger] k[i]
                            == '}' && k[i + 1] == '}') by {
                            assert(k[i] == text@[pos0 + 2 + i]);
                            assert(k[i + 1] == text@[pos0 + 2 + i + 1]);
                        }
                        if k.len() > 0 {
                            assert(k.last() == text@[j - 1]);
                            assert(!(text@[j - 1] == '}' && text@[j as int] == '}'));
                        }
                        lemma_subst_open_front(k, rest, self@);
                    }
                    match self.lookup(&name) {
                        Some(v) => {
                            out.append(v.as_str());
                            pos = j + 2;
                            proof {
                                match subst(rest, self@) {
                                    Ok(r) => {
                                        assert(out0 + (self@[k] + r) =~= (out0 + self@[k]) + r);
                                    },
                                    Err(_) => {},
                                }
                            }
                        },
                        None => {
                            return Err(EveError::UnresolvedVariable { name });
                        },
                    }
                } else {
                    let tail = text.substring_char(pos, n);
                    out.append(tail);
                    pos = n;
                    proof {
                        let t2 = suffix.subrange(2, suffix.len() as int);
                        assert(suffix =~= seq!['{', '{'] + t2);
                        assert forall|i: int| 0 <= i && i + 1 < t2.len() implies !(#[trigger] t2[i]
                            == '}' && t2[i + 1] == '}') by {
                            assert(t2[i] == text@[pos0 + 2 + i]);
                            assert(t2[i + 1] == text@[pos0 + 2 + i + 1]);
                        }
                        lemma_subst_open_no_closer(t2, self@);
                        assert(text@.subrange(n as int, n as int) =~= Seq::<char>::empty());
                        assert((out0 + suffix) + Seq::<char>::empty() =~= out0 + suffix);
                    }
                }
            } else {
                let one = text.substring_char(pos, pos + 1);
                out.append(one);
                pos = pos + 1;
                proof {
                    let c = suffix.subrange(0, 1);
                    let suffix2 = text@.subrange(pos as int, n as int);
                    assert(c =~= text@.subrange(pos0, pos0 + 1));
                    assert(suffix =~= c + suffix2);
                    assert(c.len() == 1);
                    assert(c.last() == text@[pos0]);
                    if pos0 + 1 < n {
                        assert(suffix2[0] == text@[pos0 + 1]);
                        assert(!(text@[pos0] == '{' && text@[pos0 + 1] == '{'));
                    }
                    lemma_subst_literal_prefix(c, suffix2, self@);
                    match subst(suffix2, self@) {
                        Ok(r) => {
                            assert(out0 + (c + r) =~= (out0 + c) + r);
                        },
                        Err(_) => {},
                    }
                }
            }
        }
        proof {
            assert(text@.subrange(n as int, n as int) =~= Seq::<char>::empty());
            assert(out@ + Seq::<char>::empty() =~= out@);
        }
        Ok(out)
    }
}

} // verus!
