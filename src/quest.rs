use vstd::prelude::*;
use crate::config::{layered, merge_configured, pairs_result, ConfiguredKeyValue};
use crate::error::{text_result, Failure, QuestError};
use crate::merge::{
    assign, assign_entry, first_seen, keys, keys_unique, lemma_layer_order, lemma_layer_precedence,
    lookup, merge_layers, pairs, Entry,
};
use crate::template::{substitute, substitution_outcome};
use crate::wire::{
    header_name_accepted, header_value_accepted, lowercase_of, parse_url, parse_with_params,
    parsed_url, to_lowercase, url_text_fits, url_text_size, url_with_params, valid_header_name,
    valid_header_value, MAX_URL_CHARS,
};

verus! {

/// The HTTP verbs a quest can use.
#[derive(Clone, Copy, Debug, PartialEq, Eq, Structural, PartialOrd, Ord, Hash)]
pub enum Method {
    Get,
    Post,
    Put,
    Delete,
    Head,
    Patch,
}

impl Method {
    pub open spec fn label(self) -> Seq<char> {
        match self {
            Method::Get => "GET"@,
            Method::Post => "POST"@,
            Method::Put => "PUT"@,
            Method::Delete => "DELETE"@,
            Method::Head => "HEAD"@,
            Method::Patch => "PATCH"@,
        }
    }

    /// The verbs whose requests carry a body.
    pub open spec fn carries_body_spec(&self) -> bool {
        *self == Method::Post || *self == Method::Put || *self == Method::Patch
    }

    /// The verb's name, as a listing shows it.
    pub fn pretty_string(&self) -> (r: String)
        ensures
            r@ == self.label(),
    {
        match self {
            Method::Get => String::from_str("GET"),
            Method::Post => String::from_str("POST"),
            Method::Put => String::from_str("PUT"),
            Method::Delete => String::from_str("DELETE"),
            Method::Head => String::from_str("HEAD"),
            Method::Patch => String::from_str("PATCH"),
        }
    }

    #[verifier::when_used_as_spec(carries_body_spec)]
    pub fn carries_body(&self) -> (r: bool)
        ensures
            r == self.carries_body_spec(),
    {
        match self {
            Method::Post | Method::Put | Method::Patch => true,
            _ => false,
        }
    }
}

/// A named request template.
#[derive(Clone, Debug)]
pub struct Quest {
    pub name: String,
    pub method: Method,
    /// May hold `${NAME}` placeholders.
    pub url: String,
    pub vars: Vec<ConfiguredKeyValue>,
    pub headers: Vec<ConfiguredKeyValue>,
    pub params: Vec<ConfiguredKeyValue>,
    /// A JSON payload, sent as is.
    pub json: Option<String>,
    /// A raw body.
    pub body: Option<String>,
}

/// The body a request carries.
#[derive(Clone, Debug)]
pub enum RequestBody {
    Json(String),
    Raw(String),
}

/// A request ready to be sent.
#[derive(Clone, Debug)]
pub struct ResolvedRequest {
    pub method: Method,
    pub url: String,
    /// Lower-case names, each once, in the order first seen.
    pub headers: Vec<(String, String)>,
    pub body: Option<RequestBody>,
}

/// A template file: global layers and the quests.
#[derive(Clone, Debug)]
pub struct QuestFile {
    pub headers: Vec<ConfiguredKeyValue>,
    pub vars: Vec<ConfiguredKeyValue>,
    pub params: Vec<ConfiguredKeyValue>,
    pub quests: Vec<Quest>,
}

/// `i` is the first quest of `qs` named `name`.
pub open spec fn first_named(qs: Seq<Quest>, name: Seq<char>, i: int) -> bool {
    0 <= i < qs.len() && qs[i].name@ == name && forall|j: int| 0 <= j < i ==> qs[j].name@ != name
}

/// Header names lower-cased.
pub open spec fn lowered(s: Seq<Entry>) -> Seq<Entry> {
    s.map_values(|p: Entry| (lowercase_of(p.0), p.1))
}

/// The first header of `m` that HTTP refuses, as a failure.
pub open spec fn header_fault(m: Seq<Entry>) -> Option<Failure>
    decreases m.len(),
{
    if m.len() == 0 {
        None
    } else {
        match header_fault(m.drop_last()) {
            Some(f) => Some(f),
            None => if !valid_header_name(m.last().0) {
                Some(Failure::InvalidHeaderName(m.last().0))
            } else if !valid_header_value(m.last().1) {
                Some(Failure::InvalidHeaderValue(m.last().1))
            } else {
                None
            },
        }
    }
}

/// The header layers resolved, lower-cased, merged and checked.
pub open spec fn header_set(
    global: Seq<ConfiguredKeyValue>,
    quest: Seq<ConfiguredKeyValue>,
    cli: Seq<Entry>,
    env: Seq<Entry>,
) -> Result<Seq<Entry>, Failure> {
    match crate::config::resolved_layer(global, env) {
        Err(e) => Err(e),
        Ok(g) => match crate::config::resolved_layer(quest, env) {
            Err(e) => Err(e),
            Ok(q) => {
                let m = merge_layers(lowered(g), lowered(q), lowered(cli));
                match header_fault(m) {
                    Some(f) => Err(f),
                    None => Ok(m),
                }
            },
        },
    }
}

/// When the headers resolve, a lower-cased name takes the caller's value if the
/// caller gave one, else the quest's, else the global one; each name appears
/// once, in the order first seen across the three lower-cased layers.
pub proof fn lemma_header_layers(
    global: Seq<ConfiguredKeyValue>,
    quest: Seq<ConfiguredKeyValue>,
    cli: Seq<Entry>,
    env: Seq<Entry>,
    k: Seq<char>,
)
    requires
        header_set(global, quest, cli, env) is Ok,
    ensures
        ({
            let g = lowered(crate::config::resolved_layer(global, env)->Ok_0);
            let q = lowered(crate::config::resolved_layer(quest, env)->Ok_0);
            let c = lowered(cli);
            let m = header_set(global, quest, cli, env)->Ok_0;
            &&& lookup(m, k) == match lookup(c, k) {
                Some(v) => Some(v),
                None => match lookup(q, k) {
                    Some(v) => Some(v),
                    None => lookup(g, k),
                },
            }
            &&& keys_unique(m)
            &&& keys(m) == first_seen(keys(g) + keys(q) + keys(c))
        }),
{
    let g = lowered(crate::config::resolved_layer(global, env)->Ok_0);
    let q = lowered(crate::config::resolved_layer(quest, env)->Ok_0);
    let c = lowered(cli);
    lemma_layer_precedence(g, q, c, k);
    lemma_layer_order(g, q, c);
}

/// The url made from the substituted text `base`: the parameters merged and
/// appended as its query (no query where there are none).
pub open spec fn query_outcome(
    file: QuestFile,
    quest: Quest,
    base: Seq<char>,
    params: Seq<Entry>,
    env: Seq<Entry>,
) -> Result<Seq<char>, Failure> {
    match layered(file.params@, quest.params@, params, env) {
        Err(e) => Err(e),
        Ok(p) => if url_text_size(base, p) > MAX_URL_CHARS {
            Err(Failure::InvalidUrl)
        } else {
            let parsed = if p.len() == 0 {
                parsed_url(base)
            } else {
                url_with_params(base, p)
            };
            match parsed {
                Some(u) => Ok(u),
                None => Err(Failure::InvalidUrl),
            }
        },
    }
}

/// What follows a substitution whose outcome is `sub`.
pub open spec fn after_substitution(
    file: QuestFile,
    quest: Quest,
    sub: Result<Seq<char>, Failure>,
    params: Seq<Entry>,
    env: Seq<Entry>,
) -> Result<Seq<char>, Failure> {
    match sub {
        Err(e) => Err(e),
        Ok(s) => query_outcome(file, quest, s, params, env),
    }
}

/// `out` is a possible outcome for the quest's url: the variables merged, then
/// substituted (with any outcome that substitution allows), then the query added.
pub open spec fn url_outcome(
    file: QuestFile,
    quest: Quest,
    vars: Seq<Entry>,
    params: Seq<Entry>,
    env: Seq<Entry>,
    out: Result<Seq<char>, Failure>,
) -> bool {
    match layered(file.vars@, quest.vars@, vars, env) {
        Err(e) => out == Err::<Seq<char>, Failure>(e),
        Ok(v) => exists|sub: Result<Seq<char>, Failure>|
            #[trigger] substitution_outcome(quest.url@, v, sub) && out == after_substitution(
                file,
                quest,
                sub,
                params,
                env,
            ),
    }
}

/// Lower-cases the name of each pair.
fn lowercase_names(v: Vec<(String, String)>) -> (r: Vec<(String, String)>)
    ensures
        pairs(r@) == lowered(pairs(v@)),
{
    let mut out: Vec<(String, String)> = Vec::new();
    let mut i: usize = 0;
    while i < v.len()
        invariant
            i <= v.len(),
            pairs(out@) == lowered(pairs(v@)).take(i as int),
        decreases v.len() - i,
    {
        let k = to_lowercase(&v[i].0);
        let val = v[i].1.clone();
        let ghost before = out@;
        let ghost entry = (k@, val@);
        assert(lowered(pairs(v@))[i as int] == entry);
        out.push((k, val));
        assert(pairs(out@) =~= pairs(before).push(entry));
        assert(pairs(out@) =~= lowered(pairs(v@)).take(i + 1));
        i = i + 1;
    }
    assert(lowered(pairs(v@)).take(i as int) =~= lowered(pairs(v@)));
    out
}

/// Fails on the first header that HTTP refuses.
fn check_headers(m: &Vec<(String, String)>) -> (r: Result<(), QuestError>)
    ensures
        match r {
            Ok(_) => header_fault(pairs(m@)) is None,
            Err(e) => header_fault(pairs(m@)) == Some(e@),
        },
{
    let ghost pm = pairs(m@);
    let mut i: usize = 0;
    while i < m.len()
        invariant
            i <= m.len(),
            pm == pairs(m@),
            header_fault(pm.take(i as int)) is None,
        decreases m.len() - i,
    {
        assert(pm.take(i + 1).drop_last() =~= pm.take(i as int));
        if !header_name_accepted(&m[i].0) {
            proof {
                lemma_fault_persists(pm, i + 1);
            }
            return Err(QuestError::InvalidHeaderName(m[i].0.clone()));
        }
        if !header_value_accepted(&m[i].1) {
            proof {
                lemma_fault_persists(pm, i + 1);
            }
            return Err(QuestError::InvalidHeaderValue(m[i].1.clone()));
        }
        i = i + 1;
    }
    assert(pm.take(i as int) =~= pm);
    Ok(())
}

proof fn lemma_fault_persists(m: Seq<Entry>, n: int)
    requires
        0 <= n <= m.len(),
        header_fault(m.take(n)) is Some,
    ensures
        header_fault(m) == header_fault(m.take(n)),
    decreases m.len() - n,
{
    if n == m.len() {
        assert(m.take(n) =~= m);
    } else {
        assert(m.take(n + 1).drop_last() =~= m.take(n));
        lemma_fault_persists(m, n + 1);
    }
}

/// The body a quest's request carries: its JSON payload before its raw body,
/// and none for a verb that carries no body.
pub open spec fn body_for(quest: Quest) -> Option<RequestBody> {
    if quest.method.carries_body() {
        match quest.json {
            Some(j) => Some(RequestBody::Json(j)),
            None => match quest.body {
                Some(b) => Some(RequestBody::Raw(b)),
                None => None,
            },
        }
    } else {
        None
    }
}

/// The headers sent: a JSON body sets the content type.
pub open spec fn sent_headers(h: Seq<Entry>, quest: Quest) -> Seq<Entry> {
    match body_for(quest) {
        Some(RequestBody::Json(_)) => assign(h, "content-type"@, "application/json"@),
        _ => h,
    }
}

/// The url and the headers of the request, given the url's outcome `url`; the
/// url's failures come first.
pub open spec fn request_from(
    file: QuestFile,
    quest: Quest,
    url: Result<Seq<char>, Failure>,
    headers: Seq<Entry>,
    env: Seq<Entry>,
) -> Result<(Seq<char>, Seq<Entry>), Failure> {
    match url {
        Err(e) => Err(e),
        Ok(u) => match header_set(file.headers@, quest.headers@, headers, env) {
            Err(e) => Err(e),
            Ok(h) => Ok((u, sent_headers(h, quest))),
        },
    }
}

/// The abstract view of a resolved request's outcome: its url and headers.
pub open spec fn request_view(r: Result<ResolvedRequest, QuestError>) -> Result<
    (Seq<char>, Seq<Entry>),
    Failure,
> {
    match r {
        Ok(req) => Ok((req.url@, pairs(req.headers@))),
        Err(e) => Err(e@),
    }
}

/// The longest quest name, at least one.
pub open spec fn longest_name(qs: Seq<Quest>) -> nat
    decreases qs.len(),
{
    if qs.len() == 0 {
        1
    } else {
        let prev = longest_name(qs.drop_last());
        if qs.last().name@.len() > prev {
            qs.last().name@.len()
        } else {
            prev
        }
    }
}

/// The names of a layer, in order.
pub open spec fn names(kvs: Seq<ConfiguredKeyValue>) -> Seq<Seq<char>> {
    kvs.map_values(|kv: ConfiguredKeyValue| kv.key())
}

/// The names joined by `", "`.
pub open spec fn joined(ks: Seq<Seq<char>>) -> Seq<char>
    decreases ks.len(),
{
    if ks.len() == 0 {
        Seq::empty()
    } else if ks.len() == 1 {
        ks[0]
    } else {
        joined(ks.drop_last()) + ", "@ + ks.last()
    }
}

/// Adds `k` to `ks` unless it is there.
fn note_name(ks: &mut Vec<String>, k: String)
    ensures
        final(ks)@.map_values(|s: String| s@) == if old(ks)@.map_values(|s: String| s@).contains(k@) {
            old(ks)@.map_values(|s: String| s@)
        } else {
            old(ks)@.map_values(|s: String| s@).push(k@)
        },
{
    let ghost v = ks@.map_values(|s: String| s@);
    let mut i: usize = 0;
    while i < ks.len()
        invariant
            i <= ks.len(),
            v == ks@.map_values(|s: String| s@),
            v == old(ks)@.map_values(|s: String| s@),
            forall|j: int| 0 <= j < i ==> v[j] != k@,
        decreases ks.len() - i,
    {
        if ks[i] == k {
            assert(v[i as int] == k@);
            return;
        }
        i = i + 1;
    }
    assert(!v.contains(k@));
    ks.push(k);
    assert(ks@.map_values(|s: String| s@) =~= v.push(k@));
}

/// Adds the names of `kvs` to `ks`, each unless it is there.
fn note_names(ks: &mut Vec<String>, kvs: &Vec<ConfiguredKeyValue>, Ghost(seen): Ghost<Seq<Seq<char>>>)
    requires
        old(ks)@.map_values(|s: String| s@) == first_seen(seen),
    ensures
        final(ks)@.map_values(|s: String| s@) == first_seen(seen + names(kvs@)),
{
    let mut i: usize = 0;
    while i < kvs.len()
        invariant
            i <= kvs.len(),
            ks@.map_values(|s: String| s@) == first_seen(seen + names(kvs@).take(i as int)),
        decreases kvs.len() - i,
    {
        proof {
            assert((seen + names(kvs@).take(i + 1)).drop_last() =~= seen + names(kvs@).take(i as int));
        }
        note_name(ks, kvs[i].name());
        i = i + 1;
    }
    assert(names(kvs@).take(i as int) =~= names(kvs@));
}

/// The names joined by `", "`.
fn join_names(ks: &Vec<String>) -> (r: String)
    ensures
        r@ == joined(ks@.map_values(|s: String| s@)),
{
    let ghost v = ks@.map_values(|s: String| s@);
    let mut out = String::new();
    let mut i: usize = 0;
    while i < ks.len()
        invariant
            i <= ks.len(),
            v == ks@.map_values(|s: String| s@),
            out@ == joined(v.take(i as int)),
        decreases ks.len() - i,
    {
        assert(v.take(i + 1).drop_last() =~= v.take(i as int));
        if i > 0 {
            out.append(", ");
        } else {
            assert(v.take(0) =~= Seq::<Seq<char>>::empty());
        }
        out.append(ks[i].as_str());
        i = i + 1;
    }
    assert(v.take(i as int) =~= v);
    out
}

impl QuestFile {
    /// The first quest named `name`.
    pub fn retrieve(&self, name: &str) -> (r: Result<&Quest, QuestError>)
        ensures
            match r {
                Ok(q) => exists|i: int| first_named(self.quests@, name@, i) && *q == self.quests@[i],
                Err(e) => e@ == Failure::MissingQuest(name@) && forall|i: int|
                    0 <= i < self.quests@.len() ==> self.quests@[i].name@ != name@,
            },
    {
        let wanted = String::from_str(name);
        let mut i: usize = 0;
        while i < self.quests.len()
            invariant
                i <= self.quests@.len(),
                wanted@ == name@,
                forall|j: int| 0 <= j < i ==> self.quests@[j].name@ != name@,
            decreases self.quests@.len() - i,
        {
            if self.quests[i].name == wanted {
                assert(first_named(self.quests@, name@, i as int));
                return Ok(&self.quests[i]);
            }
            i = i + 1;
        }
        Err(QuestError::MissingQuest(wanted))
    }

    /// The variables: global, then the quest's, then the caller's.
    pub fn vars(
        &self,
        quest: &Quest,
        vars: Vec<(String, String)>,
        env: &Vec<(String, String)>,
    ) -> (r: Result<Vec<(String, String)>, QuestError>)
        ensures
            pairs_result(r) == layered(self.vars@, quest.vars@, pairs(vars@), pairs(env@)),
    {
        merge_configured(&self.vars, &quest.vars, vars, env)
    }

    /// The query parameters: global, then the quest's, then the caller's.
    pub fn params(
        &self,
        quest: &Quest,
        params: Vec<(String, String)>,
        env: &Vec<(String, String)>,
    ) -> (r: Result<Vec<(String, String)>, QuestError>)
        ensures
            pairs_result(r) == layered(self.params@, quest.params@, pairs(params@), pairs(env@)),
    {
        merge_configured(&self.params, &quest.params, params, env)
    }

    /// The headers: global, then the quest's, then the caller's, names lower-cased
    /// so that a later layer overrides a name whatever its case.
    pub fn headers(
        &self,
        quest: &Quest,
        headers: Vec<(String, String)>,
        env: &Vec<(String, String)>,
    ) -> (r: Result<Vec<(String, String)>, QuestError>)
        ensures
            pairs_result(r) == header_set(self.headers@, quest.headers@, pairs(headers@), pairs(env@)),
            r is Ok ==> keys_unique(pairs(r->Ok_0@)),
    {
        let g = crate::config::resolve_layer(&self.headers, env)?;
        let q = crate::config::resolve_layer(&quest.headers, env)?;
        let g = lowercase_names(g);
        let q = lowercase_names(q);
        let c = lowercase_names(headers);
        let mut m: Vec<(String, String)> = Vec::new();
        assert(pairs(m@) =~= Seq::<Entry>::empty());
        crate::merge::merge_into(&mut m, g);
        crate::merge::merge_into(&mut m, q);
        crate::merge::merge_into(&mut m, c);
        check_headers(&m)?;
        Ok(m)
    }

    /// The quest's url with the merged variables substituted and the merged
    /// parameters appended as its query.
    pub fn url(
        &self,
        quest: &Quest,
        vars: Vec<(String, String)>,
        params: Vec<(String, String)>,
        env: &Vec<(String, String)>,
    ) -> (r: Result<String, QuestError>)
        ensures
            url_outcome(*self, *quest, pairs(vars@), pairs(params@), pairs(env@), text_result(r)),
    {
        let ghost cli = pairs(vars@);
        let ghost pp = pairs(params@);
        let ghost pe = pairs(env@);
        let merged = self.vars(quest, vars, env)?;
        assert(layered(self.vars@, quest.vars@, cli, pairs(env@)) == Ok::<Seq<Entry>, Failure>(pairs(merged@)));
        let sub = substitute(&quest.url, &merged);
        let ghost so = text_result(sub);
        assert(substitution_outcome(quest.url@, pairs(merged@), so));
        match sub {
            Err(e) => {
                let ghost v = layered(self.vars@, quest.vars@, cli, pe)->Ok_0;
                assert(v == pairs(merged@));
                assert(substitution_outcome(quest.url@, v, so));
                assert(after_substitution(*self, *quest, so, pp, pe) == Err::<Seq<char>, Failure>(e@));
                assert(url_outcome(*self, *quest, cli, pp, pe, Err::<Seq<char>, Failure>(e@)));
                Err(e)
            },
            Ok(base) => {
                let r = self.with_query(quest, &base, params, env);
                assert(so == Ok::<Seq<char>, Failure>(base@));
                assert(text_result(r) == query_outcome(*self, *quest, base@, pp, pe));
                assert(after_substitution(*self, *quest, so, pp, pe) == text_result(r));
                let ghost v = layered(self.vars@, quest.vars@, cli, pe)->Ok_0;
                assert(v == pairs(merged@));
                assert(substitution_outcome(quest.url@, v, so));
                assert(text_result(r) == after_substitution(*self, *quest, so, pp, pe));
                assert(url_outcome(*self, *quest, cli, pp, pe, text_result(r)));
                r
            },
        }
    }

    /// The url made from the substituted text `base`, with the merged parameters
    /// appended as its query.
    pub fn with_query(
        &self,
        quest: &Quest,
        base: &String,
        params: Vec<(String, String)>,
        env: &Vec<(String, String)>,
    ) -> (r: Result<String, QuestError>)
        ensures
            text_result(r) == query_outcome(*self, *quest, base@, pairs(params@), pairs(env@)),
    {
        let params = self.params(quest, params, env)?;
        if !url_text_fits(base, &params) {
            return Err(QuestError::InvalidUrl);
        }
        let parsed = if params.len() == 0 {
            parse_url(base)
        } else {
            parse_with_params(base, &params)
        };
        match parsed {
            Ok(u) => Ok(u),
            Err(_) => Err(QuestError::InvalidUrl),
        }
    }

    /// The resolved request: url, headers and body, for the quest's verb.
    pub fn request(
        &self,
        quest: &Quest,
        vars: Vec<(String, String)>,
        headers: Vec<(String, String)>,
        params: Vec<(String, String)>,
        env: &Vec<(String, String)>,
    ) -> (r: Result<ResolvedRequest, QuestError>)
        ensures
            exists|u: Result<Seq<char>, Failure>|
                #[trigger] url_outcome(*self, *quest, pairs(vars@), pairs(params@), pairs(env@), u)
                    && request_view(r) == request_from(*self, *quest, u, pairs(headers@), pairs(env@)),
            r is Ok ==> r->Ok_0.method == quest.method && r->Ok_0.body == body_for(*quest),
    {
        let ghost pv = pairs(vars@);
        let ghost pp = pairs(params@);
        let url_r = self.url(quest, vars, params, env);
        let ghost u = text_result(url_r);
        assert(url_outcome(*self, *quest, pv, pp, pairs(env@), u));
        let url = url_r?;
        let mut headers = self.headers(quest, headers, env)?;
        let body = if quest.method.carries_body() {
            match &quest.json {
                Some(j) => Some(RequestBody::Json(j.clone())),
                None => match &quest.body {
                    Some(b) => Some(RequestBody::Raw(b.clone())),
                    None => None,
                },
            }
        } else {
            None
        };
        if let Some(RequestBody::Json(_)) = &body {
            assign_entry(
                &mut headers,
                String::from_str("content-type"),
                String::from_str("application/json"),
            );
        }
        Ok(ResolvedRequest { method: quest.method, url, headers, body })
    }

    /// The width of the name column of a listing: the longest name, and four more.
    pub fn name_width(&self) -> (r: usize)
        ensures
            r == if longest_name(self.quests@) + 4 <= usize::MAX {
                (longest_name(self.quests@) + 4) as usize
            } else {
                usize::MAX
            },
    {
        let mut widest: usize = 1;
        let mut i: usize = 0;
        while i < self.quests.len()
            invariant
                i <= self.quests@.len(),
                widest == longest_name(self.quests@.take(i as int)),
            decreases self.quests@.len() - i,
        {
            assert(self.quests@.take(i + 1).drop_last() =~= self.quests@.take(i as int));
            let n = self.quests[i].name.as_str().unicode_len();
            if n > widest {
                widest = n;
            }
            i = i + 1;
        }
        assert(self.quests@.take(i as int) =~= self.quests@);
        if widest <= usize::MAX - 4 {
            widest + 4
        } else {
            usize::MAX
        }
    }

    /// The names of the variables a quest sees, global then its own, each once,
    /// joined by `", "`.
    pub fn var_names(&self, quest: &Quest) -> (r: String)
        ensures
            r@ == joined(first_seen(names(self.vars@) + names(quest.vars@))),
    {
        let mut ks: Vec<String> = Vec::new();
        let ghost none: Seq<Seq<char>> = Seq::empty();
        assert(ks@.map_values(|s: String| s@) =~= first_seen(none));
        note_names(&mut ks, &self.vars, Ghost(none));
        assert(none + names(self.vars@) =~= names(self.vars@));
        note_names(&mut ks, &quest.vars, Ghost(names(self.vars@)));
        join_names(&ks)
    }
}

} // verus!
