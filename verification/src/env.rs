use vstd::prelude::*;
use vstd::string::StringExecFns;

use crate::text::{csv_items, is_ws, lemma_trim, parse_decimal, parse_unsigned, split_csv, trim, trim_str, views};

verus! {

/// A snapshot of the process environment: name/value pairs, later ones taking
/// precedence over earlier ones with the same name.
#[derive(Debug)]
pub struct EnvVars {
    pub vars: Vec<(String, String)>,
}

impl View for EnvVars {
    type V = Seq<(Seq<char>, Seq<char>)>;

    open spec fn view(&self) -> Seq<(Seq<char>, Seq<char>)> {
        pair_views(self.vars@)
    }
}

pub open spec fn pair_views(v: Seq<(String, String)>) -> Seq<(Seq<char>, Seq<char>)> {
    v.map_values(|p: (String, String)| (p.0@, p.1@))
}

/// The value of `key` in an environment: that of the last pair with this name.
pub open spec fn env_lookup(env: Seq<(Seq<char>, Seq<char>)>, key: Seq<char>) -> Option<Seq<char>>
    decreases env.len(),
{
    if env.len() == 0 {
        None
    } else if env.last().0 == key {
        Some(env.last().1)
    } else {
        env_lookup(env.drop_last(), key)
    }
}

/// The trimmed value of `key`, where it is set and not blank.
pub open spec fn env_value(env: Seq<(Seq<char>, Seq<char>)>, key: Seq<char>) -> Option<Seq<char>> {
    match env_lookup(env, key) {
        Some(v) => if trim(v).len() == 0 {
            None
        } else {
            Some(trim(v))
        },
        None => None,
    }
}

/// The items of the comma-separated list in `key`; none where it is unset or blank.
pub open spec fn env_list(env: Seq<(Seq<char>, Seq<char>)>, key: Seq<char>) -> Seq<Seq<char>> {
    match env_value(env, key) {
        Some(raw) => csv_items(raw),
        None => Seq::empty(),
    }
}

pub open spec fn opt_view(o: Option<String>) -> Option<Seq<char>> {
    match o {
        Some(s) => Some(s@),
        None => None,
    }
}

proof fn lemma_env_lookup_take(env: Seq<(Seq<char>, Seq<char>)>, key: Seq<char>, i: int)
    requires
        0 <= i <= env.len(),
        forall|k: int| i <= k < env.len() ==> (#[trigger] env[k]).0 != key,
    ensures
        env_lookup(env, key) == env_lookup(env.take(i), key),
    decreases env.len() - i,
{
    if i < env.len() {
        let t = env.drop_last();
        lemma_env_lookup_take(t, key, i);
        assert(t.take(i) =~= env.take(i));
    } else {
        assert(env.take(i) =~= env);
    }
}

impl EnvVars {
    /// An empty environment.
    pub fn new() -> (r: Self)
        ensures
            r@ == Seq::<(Seq<char>, Seq<char>)>::empty(),
    {
        let r = EnvVars { vars: Vec::new() };
        assert(r@ =~= Seq::<(Seq<char>, Seq<char>)>::empty());
        r
    }

    /// Sets `key` to `value`.
    pub fn set(&mut self, key: &str, value: &str)
        ensures
            forall|k: Seq<char>| #[trigger]
                env_lookup(final(self)@, k) == if k == key@ {
                    Some(value@)
                } else {
                    env_lookup(old(self)@, k)
                },
    {
        let ghost before = self@;
        self.vars.push((key.to_owned(), value.to_owned()));
        assert(self@.drop_last() =~= before);
    }

    /// Unsets `key`.
    pub fn remove(&mut self, key: &str)
        ensures
            forall|k: Seq<char>| #[trigger]
                env_lookup(final(self)@, k) == if k == key@ {
                    None
                } else {
                    env_lookup(old(self)@, k)
                },
    {
        let wanted = key.to_owned();
        let ghost before = self@;
        let mut kept: Vec<(String, String)> = Vec::new();
        let n = self.vars.len();
        let mut i: usize = 0;
        assert(before.take(0) =~= Seq::<(Seq<char>, Seq<char>)>::empty());
        while i < n
            invariant
                i <= n,
                n == self.vars.len(),
                before == self@,
                wanted@ == key@,
                forall|k: Seq<char>| #[trigger]
                    env_lookup(pair_views(kept@), k) == if k == key@ {
                        None
                    } else {
                        env_lookup(before.take(i as int), k)
                    },
            decreases n - i,
        {
            let ghost kv = pair_views(kept@);
            proof {
                let p = before.take(i + 1);
                assert(p.drop_last() =~= before.take(i as int));
                assert(p.last() == before[i as int]);
            }
            let ghost p = before.take(i + 1);
            if !(self.vars[i].0 == wanted) {
                let name = self.vars[i].0.clone();
                let value = self.vars[i].1.clone();
                kept.push((name, value));
                proof {
                    let kv2 = pair_views(kept@);
                    assert(before[i as int] == (self.vars@[i as int].0@, self.vars@[i as int].1@));
                    assert(before[i as int].0 != key@);
                    assert(kv2.drop_last() =~= kv);
                    assert(kv2.last() == before[i as int]);
                    assert(p.drop_last() =~= before.take(i as int));
                    assert(p.last() == before[i as int]);
                    assert forall|k: Seq<char>| #[trigger]
                        env_lookup(pair_views(kept@), k) == if k == key@ {
                            None
                        } else {
                            env_lookup(p, k)
                        } by {
                        assert(env_lookup(kv2, k) == if kv2.last().0 == k {
                            Some(kv2.last().1)
                        } else {
                            env_lookup(kv, k)
                        });
                        assert(env_lookup(p, k) == if p.last().0 == k {
                            Some(p.last().1)
                        } else {
                            env_lookup(before.take(i as int), k)
                        });
                    }
                }
            } else {
                proof {
                    assert(before[i as int] == (self.vars@[i as int].0@, self.vars@[i as int].1@));
                    assert(before[i as int].0 == key@);
                    assert(p.last().0 == key@);
                    assert forall|k: Seq<char>| #[trigger]
                        env_lookup(pair_views(kept@), k) == if k == key@ {
                            None
                        } else {
                            env_lookup(p, k)
                        } by {}
                }
            }
            i = i + 1;
        }
        assert(before.take(n as int) =~= before);
        self.vars = kept;
    }

    /// The value of `key`, where it is set.
    pub fn get(&self, key: &str) -> (r: Option<String>)
        ensures
            opt_view(r) == env_lookup(self@, key@),
    {
        let wanted = key.to_owned();
        let mut i: usize = self.vars.len();
        while i > 0
            invariant
                i <= self.vars.len(),
                wanted@ == key@,
                forall|k: int| i <= k < self@.len() ==> (#[trigger] self@[k]).0 != key@,
            decreases i,
        {
            if self.vars[i - 1].0 == wanted {
                proof {
                    lemma_env_lookup_take(self@, key@, i as int);
                    assert(self@.take(i as int).last() == self@[i - 1]);
                }
                return Some(self.vars[i - 1].1.clone());
            }
            i = i - 1;
        }
        proof {
            lemma_env_lookup_take(self@, key@, 0);
        }
        None
    }
}

/// The trimmed value of the variable `key`, or `None` where it is unset or blank.
pub fn env_non_empty(env: &EnvVars, key: &str) -> (r: Option<String>)
    ensures
        opt_view(r) == env_value(env@, key@),
{
    match env.get(key) {
        Some(value) => {
            let trimmed = trim_str(value.as_str());
            if trimmed.as_str().is_empty() {
                None
            } else {
                Some(trimmed)
            }
        },
        None => None,
    }
}

/// The items of the comma-separated list in the variable `key`, each trimmed,
/// empty ones dropped; none where the variable is unset or blank.
pub fn parse_csv_env(env: &EnvVars, key: &str) -> (r: Vec<String>)
    ensures
        views(r@) == env_list(env@, key@),
{
    match env_non_empty(env, key) {
        Some(raw) => split_csv(raw.as_str()),
        None => {
            let r: Vec<String> = Vec::new();
            assert(views(r@) =~= Seq::<Seq<char>>::empty());
            r
        },
    }
}

/// A variable's value, where there is one, is not empty and neither starts nor ends
/// with whitespace.
pub proof fn lemma_env_value_shape(env: Seq<(Seq<char>, Seq<char>)>, key: Seq<char>)
    ensures
        env_value(env, key) matches Some(v) ==> v.len() > 0 && !is_ws(v[0]) && !is_ws(v.last()),
{
    if let Some(raw) = env_lookup(env, key) {
        lemma_trim(raw);
    }
}

/// The message for a variable that does not hold a port number.
pub open spec fn invalid_port_message(key: Seq<char>, value: Seq<char>) -> Seq<char> {
    "环境变量 "@ + key + " 不是有效端口: "@ + value
}

/// The message for a variable that does not hold a count or a duration.
pub open spec fn invalid_integer_message(key: Seq<char>, value: Seq<char>) -> Seq<char> {
    "环境变量 "@ + key + " 不是有效整数: "@ + value
}

/// What a numeric variable gives: the default where it is unset or blank, its value
/// where that parses as a number no larger than `max`, an error message otherwise
/// (the one for ports where `is_port` holds).
pub open spec fn env_number(
    env: Seq<(Seq<char>, Seq<char>)>,
    key: Seq<char>,
    default_value: int,
    max: int,
    is_port: bool,
) -> Result<int, Seq<char>> {
    match env_value(env, key) {
        None => Ok(default_value),
        Some(v) => match parse_unsigned(v, max) {
            Some(x) => Ok(x),
            None => Err(
                if is_port {
                    invalid_port_message(key, v)
                } else {
                    invalid_integer_message(key, v)
                },
            ),
        },
    }
}

fn number_error(prefix: &str, key: &str, middle: &str, value: &str) -> (r: String)
    ensures
        r@ == prefix@ + key@ + middle@ + value@,
{
    let mut m = prefix.to_owned();
    m.append(key);
    m.append(middle);
    m.append(value);
    m
}

/// The port number in the variable `key`, or `default_value` where it is unset or blank.
pub fn parse_env_u16(env: &EnvVars, key: &str, default_value: u16) -> (r: Result<u16, String>)
    ensures
        match env_number(env@, key@, default_value as int, u16::MAX as int, true) {
            Ok(x) => r matches Ok(y) && y == x,
            Err(m) => r matches Err(e) && e@ == m,
        },
{
    match env_non_empty(env, key) {
        Some(value) => match parse_decimal(value.as_str(), 65535) {
            Some(x) => Ok(x as u16),
            None => Err(number_error("环境变量 ", key, " 不是有效端口: ", value.as_str())),
        },
        None => Ok(default_value),
    }
}

/// The count in the variable `key`, or `default_value` where it is unset or blank.
pub fn parse_env_usize(env: &EnvVars, key: &str, default_value: usize) -> (r: Result<usize, String>)
    ensures
        match env_number(env@, key@, default_value as int, usize::MAX as int, false) {
            Ok(x) => r matches Ok(y) && y == x,
            Err(m) => r matches Err(e) && e@ == m,
        },
{
    match env_non_empty(env, key) {
        Some(value) => match parse_decimal(value.as_str(), usize::MAX as u64) {
            Some(x) => Ok(x as usize),
            None => Err(number_error("环境变量 ", key, " 不是有效整数: ", value.as_str())),
        },
        None => Ok(default_value),
    }
}

/// The number in the variable `key`, or `default_value` where it is unset or blank.
pub fn parse_env_u64(env: &EnvVars, key: &str, default_value: u64) -> (r: Result<u64, String>)
    ensures
        match env_number(env@, key@, default_value as int, u64::MAX as int, false) {
            Ok(x) => r matches Ok(y) && y == x,
            Err(m) => r matches Err(e) && e@ == m,
        },
{
    match env_non_empty(env, key) {
        Some(value) => match parse_decimal(value.as_str(), u64::MAX) {
            Some(x) => Ok(x),
            None => Err(number_error("环境变量 ", key, " 不是有效整数: ", value.as_str())),
        },
        None => Ok(default_value),
    }
}

} // verus!
