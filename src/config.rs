use vstd::prelude::*;
use crate::error::{text_result, Failure, QuestError};
use crate::merge::{lookup, merge_into, merge_layers, pairs, Entry};

verus! {

/// A named value: either written out, or read from an environment variable.
#[derive(Debug, Clone)]
pub enum ConfiguredKeyValue {
    Value { name: String, value: String },
    ValueFromEnv { name: String, value_from_env: String },
}

impl ConfiguredKeyValue {
    pub open spec fn key(&self) -> Seq<char> {
        match self {
            ConfiguredKeyValue::Value { name, .. } => name@,
            ConfiguredKeyValue::ValueFromEnv { name, .. } => name@,
        }
    }

    /// The value in the environment `env` (a later entry of `env` shadows an
    /// earlier one).
    pub open spec fn resolved(&self, env: Seq<Entry>) -> Result<Seq<char>, Failure> {
        match self {
            ConfiguredKeyValue::Value { value, .. } => Ok(value@),
            ConfiguredKeyValue::ValueFromEnv { value_from_env, .. } => match lookup(
                env,
                value_from_env@,
            ) {
                Some(v) => Ok(v),
                None => Err(Failure::MissingEnvironmentVariable(value_from_env@)),
            },
        }
    }

    pub fn name(&self) -> (r: String)
        ensures
            r@ == self.key(),
    {
        match self {
            ConfiguredKeyValue::Value { name, .. } => name.clone(),
            ConfiguredKeyValue::ValueFromEnv { name, .. } => name.clone(),
        }
    }

    /// The value, read from the environment snapshot `env` where it names a variable.
    pub fn value(&self, env: &Vec<(String, String)>) -> (r: Result<String, QuestError>)
        ensures
            text_result(r) == self.resolved(pairs(env@)),
    {
        match self {
            ConfiguredKeyValue::Value { value, .. } => Ok(value.clone()),
            ConfiguredKeyValue::ValueFromEnv { value_from_env, .. } => {
                match env_get(env, value_from_env) {
                    Some(v) => Ok(v),
                    None => Err(QuestError::MissingEnvironmentVariable(value_from_env.clone())),
                }
            },
        }
    }
}

/// The value of `key` in the environment snapshot `env`; the last entry wins.
pub fn env_get(env: &Vec<(String, String)>, key: &String) -> (r: Option<String>)
    ensures
        match r {
            Some(v) => lookup(pairs(env@), key@) == Some(v@),
            None => lookup(pairs(env@), key@) is None,
        },
{
    let ghost pe = pairs(env@);
    let mut i: usize = env.len();
    assert(pe.take(i as int) =~= pe);
    while i > 0
        invariant
            i <= env.len(),
            pe == pairs(env@),
            lookup(pe, key@) == lookup(pe.take(i as int), key@),
        decreases i,
    {
        assert(pe.take(i as int).drop_last() =~= pe.take(i - 1));
        if env[i - 1].0 == *key {
            return Some(env[i - 1].1.clone());
        }
        i = i - 1;
    }
    None
}

/// The entries of `kvs`, each with its value resolved in `env`; the first that
/// fails decides the error.
pub open spec fn resolved_layer(kvs: Seq<ConfiguredKeyValue>, env: Seq<Entry>) -> Result<
    Seq<Entry>,
    Failure,
>
    decreases kvs.len(),
{
    if kvs.len() == 0 {
        Ok(Seq::empty())
    } else {
        match resolved_layer(kvs.drop_last(), env) {
            Err(e) => Err(e),
            Ok(prev) => match kvs.last().resolved(env) {
                Ok(v) => Ok(prev.push((kvs.last().key(), v))),
                Err(e) => Err(e),
            },
        }
    }
}

proof fn lemma_failure_persists(kvs: Seq<ConfiguredKeyValue>, env: Seq<Entry>, n: int)
    requires
        0 <= n <= kvs.len(),
        resolved_layer(kvs.take(n), env) is Err,
    ensures
        resolved_layer(kvs, env) == resolved_layer(kvs.take(n), env),
    decreases kvs.len() - n,
{
    if n == kvs.len() {
        assert(kvs.take(n) =~= kvs);
    } else {
        assert(kvs.take(n + 1).drop_last() =~= kvs.take(n));
        lemma_failure_persists(kvs, env, n + 1);
    }
}

/// The abstract view of a result that carries a list of pairs.
pub open spec fn pairs_result(r: Result<Vec<(String, String)>, QuestError>) -> Result<
    Seq<Entry>,
    Failure,
> {
    match r {
        Ok(v) => Ok(pairs(v@)),
        Err(e) => Err(e@),
    }
}

/// Resolves every entry of `kvs` in `env`, in order.
pub fn resolve_layer(kvs: &Vec<ConfiguredKeyValue>, env: &Vec<(String, String)>) -> (r: Result<
    Vec<(String, String)>,
    QuestError,
>)
    ensures
        pairs_result(r) == resolved_layer(kvs@, pairs(env@)),
{
    let ghost pe = pairs(env@);
    let mut out: Vec<(String, String)> = Vec::new();
    let mut i: usize = 0;
    assert(kvs@.take(0) =~= Seq::<ConfiguredKeyValue>::empty());
    assert(pairs(out@) =~= Seq::<Entry>::empty());
    while i < kvs.len()
        invariant
            i <= kvs.len(),
            pe == pairs(env@),
            resolved_layer(kvs@.take(i as int), pe) == Ok::<Seq<Entry>, Failure>(pairs(out@)),
        decreases kvs.len() - i,
    {
        assert(kvs@.take(i + 1).drop_last() =~= kvs@.take(i as int));
        assert(kvs@.take(i + 1).last() == kvs@[i as int]);
        let name = kvs[i].name();
        match kvs[i].value(env) {
            Ok(v) => {
                let ghost before = out@;
                let ghost entry = (name@, v@);
                out.push((name, v));
                assert(pairs(out@) =~= pairs(before).push(entry));
            },
            Err(e) => {
                proof {
                    lemma_failure_persists(kvs@, pe, i + 1);
                }
                return Err(e);
            },
        }
        i = i + 1;
    }
    assert(kvs@.take(i as int) =~= kvs@);
    Ok(out)
}

/// The three layers merged: global and quest entries resolved in `env`, then the
/// caller's pairs, a later key overriding an earlier one.
pub open spec fn layered(
    global: Seq<ConfiguredKeyValue>,
    quest: Seq<ConfiguredKeyValue>,
    cli: Seq<Entry>,
    env: Seq<Entry>,
) -> Result<Seq<Entry>, Failure> {
    match resolved_layer(global, env) {
        Err(e) => Err(e),
        Ok(g) => match resolved_layer(quest, env) {
            Err(e) => Err(e),
            Ok(q) => Ok(merge_layers(g, q, cli)),
        },
    }
}

/// Resolves the global and quest layers in `env` and merges them with the
/// caller's pairs into one ordered mapping.
pub fn merge_configured(
    global: &Vec<ConfiguredKeyValue>,
    quest: &Vec<ConfiguredKeyValue>,
    cli: Vec<(String, String)>,
    env: &Vec<(String, String)>,
) -> (r: Result<Vec<(String, String)>, QuestError>)
    ensures
        pairs_result(r) == layered(global@, quest@, pairs(cli@), pairs(env@)),
{
    let g = resolve_layer(global, env)?;
    let q = resolve_layer(quest, env)?;
    let mut m: Vec<(String, String)> = Vec::new();
    assert(pairs(m@) =~= Seq::<Entry>::empty());
    merge_into(&mut m, g);
    merge_into(&mut m, q);
    merge_into(&mut m, cli);
    Ok(m)
}

} // verus!
