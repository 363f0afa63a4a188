use vstd::prelude::*;
use crate::error::QuestError;

verus! {

/// The version as the command line shows it: `v` before the number.
pub fn print_version(version: &str) -> (r: String)
    ensures
        r@ == "v"@ + version@,
{
    let mut r = String::from_str("v");
    r.append(version);
    r
}

/// `p` is the place of the first `=` in `s`.
pub open spec fn first_equals(s: Seq<char>, p: int) -> bool {
    0 <= p < s.len() && s[p] == '=' && forall|j: int| 0 <= j < p ==> s[j] != '='
}

/// Splits `key=value` at its first `=`; the value may hold more of them.
pub fn parse_key_val(s: &str) -> (r: Result<(String, String), QuestError>)
    ensures
        match r {
            Ok((k, v)) => exists|p: int|
                first_equals(s@, p) && k@ == s@.take(p) && v@ == s@.skip(p + 1),
            Err(e) => e@ == crate::error::Failure::InvalidKeyValue(s@) && !s@.contains('='),
        },
{
    let n = s.unicode_len();
    let mut i: usize = 0;
    while i < n
        invariant
            n == s@.len(),
            i <= n,
            forall|j: int| 0 <= j < i ==> s@[j] != '=',
        decreases n - i,
    {
        if s.get_char(i) == '=' {
            let k = s.substring_char(0, i);
            let v = s.substring_char(i + 1, n);
            assert(first_equals(s@, i as int));
            assert(k@ =~= s@.take(i as int));
            assert(v@ =~= s@.skip(i + 1));
            return Ok((String::from_str(k), String::from_str(v)));
        }
        i = i + 1;
    }
    Err(QuestError::InvalidKeyValue(String::from_str(s)))
}

} // verus!
