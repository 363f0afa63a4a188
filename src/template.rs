use vstd::prelude::*;
use crate::error::{text_result, Failure, QuestError};
use crate::merge::{pairs, Entry};

verus! {

#[verifier::external_type_specification]
#[verifier::external_body]
pub struct ExSubstError(envsubst::Error);

/// `${key}`.
pub open spec fn placeholder(key: Seq<char>) -> Seq<char> {
    seq!['$', '{'] + key + seq!['}']
}

/// `s` with every occurrence of `${key}` replaced by `value`, scanning left to
/// right without overlap, as `str::replace` does.
pub open spec fn replace_placeholder(s: Seq<char>, key: Seq<char>, value: Seq<char>) -> Seq<char>
    decreases s.len(),
{
    let from = placeholder(key);
    if s.len() < from.len() {
        s
    } else if s.take(from.len() as int) == from {
        value + replace_placeholder(s.skip(from.len() as int), key, value)
    } else {
        seq![s[0]] + replace_placeholder(s.skip(1), key, value)
    }
}

/// The value that a map built from `vars` holds for `key`: the last one given.
pub open spec fn value_of(vars: Seq<Entry>, key: Seq<char>) -> Seq<char> {
    match crate::merge::lookup(vars, key) {
        Some(v) => v,
        None => Seq::empty(),
    }
}

/// `order` lists each distinct key of `vars` once.
pub open spec fn key_order(order: Seq<Seq<char>>, vars: Seq<Entry>) -> bool {
    order.no_duplicates() && forall|k: Seq<char>|
        #![trigger order.contains(k)]
        order.contains(k) <==> crate::merge::keys(vars).contains(k)
}

/// `template` with the keys' placeholders replaced one key after the other, in `order`.
pub open spec fn replaced_in_order(template: Seq<char>, order: Seq<Seq<char>>, vars: Seq<Entry>) -> Seq<
    char,
>
    decreases order.len(),
{
    if order.len() == 0 {
        template
    } else {
        replace_placeholder(
            replaced_in_order(template, order.drop_last(), vars),
            order.last(),
            value_of(vars, order.last()),
        )
    }
}

/// A character that envsubst refuses in a variable's name or value.
pub open spec fn forbidden_char(c: char) -> bool {
    c == '$' || c == '{' || c == '}'
}

/// `s` holds a forbidden character.
pub open spec fn has_forbidden(s: Seq<char>) -> bool {
    exists|j: int| 0 <= j < s.len() && forbidden_char(#[trigger] s[j])
}

/// Some key of `vars`, or the value that a map built from `vars` holds for it,
/// holds a forbidden character. A value overwritten by a later entry of the same
/// key is not in the map, and so not looked at.
pub open spec fn refused(vars: Seq<Entry>) -> bool {
    exists|k: Seq<char>|
        #[trigger] crate::merge::keys(vars).contains(k) && (has_forbidden(k) || has_forbidden(
            value_of(vars, k),
        ))
}

/// Relies on `envsubst::substitute`, handed a map built from `vars` (a later
/// entry of a key overwrites an earlier one). With no variables it hands the
/// template back. Otherwise it fails exactly when some key of the map, or its
/// value, holds `$`, `{` or `}`, and
/// else replaces each `${key}` by the key's value, one key after the other in the
/// order in which the map yields them, which each map seeds at random.
#[verifier::external_body]
fn envsubst_substitute(template: &String, vars: &Vec<(String, String)>) -> (r: Result<
    String,
    envsubst::Error,
>)
    ensures
        vars@.len() == 0 ==> r is Ok && r->Ok_0@ == template@,
        vars@.len() > 0 ==> (r is Err <==> refused(pairs(vars@))),
        r is Ok ==> exists|order: Seq<Seq<char>>|
            #[trigger] key_order(order, pairs(vars@)) && r->Ok_0@ == replaced_in_order(
                template@,
                order,
                pairs(vars@),
            ),
{
    let map: std::collections::HashMap<String, String> = vars.iter().cloned().collect();
    envsubst::substitute(template.clone(), &map)
}

/// `s` holds a `${`, and a `}` somewhere after it.
pub open spec fn placeholder_in(s: Seq<char>) -> bool {
    exists|i: int, j: int|
        0 <= i && i + 1 < j < s.len() && #[trigger] s[i] == '$' && s[i + 1] == '{' && #[trigger] s[j]
            == '}'
}

spec fn opened_before(s: Seq<char>, n: int) -> bool {
    exists|i: int| 0 <= i && i + 1 < n && #[trigger] s[i] == '$' && s[i + 1] == '{'
}

/// Whether `s` still holds a placeholder.
pub fn has_placeholder(s: &str) -> (r: bool)
    ensures
        r == placeholder_in(s@),
{
    let n = s.unicode_len();
    let mut opened = false;
    let mut prev: char = ' ';
    let mut i: usize = 0;
    while i < n
        invariant
            n == s@.len(),
            i <= n,
            opened == opened_before(s@, i as int),
            i > 0 ==> prev == s@[i - 1],
            forall|j: int| 0 <= j < i && #[trigger] s@[j] == '}' ==> !opened_before(s@, j),
        decreases n - i,
    {
        let c = s.get_char(i);
        if c == '}' && opened {
            assert(opened_before(s@, i as int));
            let ghost k = choose|k: int| 0 <= k && k + 1 < i && #[trigger] s@[k] == '$' && s@[k + 1] == '{';
            assert(s@[k] == '$' && s@[k + 1] == '{' && s@[i as int] == '}');
            return true;
        }
        if i > 0 && prev == '$' && c == '{' {
            opened = true;
            assert(s@[i - 1] == '$');
        }
        assert(opened == opened_before(s@, i + 1)) by {
            if opened_before(s@, i + 1) && !(i > 0 && prev == '$' && c == '{') {
                let k = choose|k: int| 0 <= k && k + 1 < i + 1 && #[trigger] s@[k] == '$' && s@[k + 1] == '{';
                assert(k + 1 < i);
            }
        }
        prev = c;
        i = i + 1;
    }
    assert(!placeholder_in(s@)) by {
        if placeholder_in(s@) {
            let (a, b) = choose|a: int, b: int|
                0 <= a && a + 1 < b < s@.len() && #[trigger] s@[a] == '$' && s@[a + 1] == '{' && #[trigger] s@[b] == '}';
            assert(opened_before(s@, b));
        }
    }
    false
}

/// The url template after substitution is accepted only if no placeholder is left.
pub fn check_substituted(s: String) -> (r: Result<String, QuestError>)
    ensures
        text_result(r) == if placeholder_in(s@) {
            Err::<Seq<char>, Failure>(Failure::UnresolvedPlaceholder)
        } else {
            Ok(s@)
        },
{
    if has_placeholder(s.as_str()) {
        Err(QuestError::UnresolvedPlaceholder)
    } else {
        Ok(s)
    }
}

/// The text accepted as a url: refused if a placeholder is left over.
pub open spec fn checked(s: Seq<char>) -> Result<Seq<char>, Failure> {
    if placeholder_in(s) {
        Err(Failure::UnresolvedPlaceholder)
    } else {
        Ok(s)
    }
}

/// `out` is a possible outcome of substituting `vars` into `template`: the
/// variables refused, or the placeholders replaced key after key in some order of
/// the keys, then checked for a placeholder left over.
pub open spec fn substitution_outcome(
    template: Seq<char>,
    vars: Seq<Entry>,
    out: Result<Seq<char>, Failure>,
) -> bool {
    if vars.len() > 0 && refused(vars) {
        out == Err::<Seq<char>, Failure>(Failure::FailedToSubstituteVariables)
    } else {
        exists|order: Seq<Seq<char>>|
            #[trigger] key_order(order, vars) && out == checked(
                replaced_in_order(template, order, vars),
            )
    }
}

/// Where all variables share one key, substitution has a single outcome: refused
/// if the key or its last value holds a forbidden character, else the key's
/// placeholders replaced by its last value, then checked for one left over.
pub proof fn lemma_single_key_outcome(
    template: Seq<char>,
    vars: Seq<Entry>,
    k: Seq<char>,
    out: Result<Seq<char>, Failure>,
)
    requires
        vars.len() > 0,
        forall|i: int| 0 <= i < vars.len() ==> #[trigger] vars[i].0 == k,
        substitution_outcome(template, vars, out),
    ensures
        out == if refused(vars) {
            Err::<Seq<char>, Failure>(Failure::FailedToSubstituteVariables)
        } else {
            checked(replace_placeholder(template, k, value_of(vars, k)))
        },
{
    if !refused(vars) {
        let order = choose|order: Seq<Seq<char>>|
            #[trigger] key_order(order, vars) && out == checked(
                replaced_in_order(template, order, vars),
            );
        let ks = crate::merge::keys(vars);
        assert(ks[0] == k);
        assert(order.contains(k));
        assert forall|i: int| 0 <= i < order.len() implies order[i] == k by {
            assert(order.contains(order[i]));
            let j = choose|j: int| 0 <= j < ks.len() && ks[j] == order[i];
            assert(vars[j].0 == k);
        }
        if order.len() >= 2 {
            assert(order[0] == order[1]);
        }
        assert(order.len() == 1);
        assert(order.drop_last().len() == 0);
        assert(replaced_in_order(template, order.drop_last(), vars) == template);
        assert(order.last() == k);
        assert(replaced_in_order(template, order, vars) == replace_placeholder(
            template,
            k,
            value_of(vars, k),
        ));
    }
}

/// Substitutes `vars` into `template`, and fails if a placeholder is left over.
/// Where one placeholder's replacement forms another, the order in which the keys
/// are taken may change the outcome; the contract covers every such order.
pub fn substitute(template: &String, vars: &Vec<(String, String)>) -> (r: Result<String, QuestError>)
    ensures
        substitution_outcome(template@, pairs(vars@), text_result(r)),
        vars@.len() == 0 ==> text_result(r) == checked(template@),
{
    let ghost pv = pairs(vars@);
    match envsubst_substitute(template, vars) {
        Ok(s) => {
            let ghost order = choose|order: Seq<Seq<char>>|
                #[trigger] key_order(order, pv) && s@ == replaced_in_order(template@, order, pv);
            let r = check_substituted(s);
            assert(key_order(order, pv));
            r
        },
        Err(_) => Err(QuestError::FailedToSubstituteVariables),
    }
}

} // verus!
