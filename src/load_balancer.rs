use vstd::prelude::*;
use vstd::string::{StrSliceExecFns, StringExecFns};

use crate::cache::{RequestCache, UpstreamResponse};
use crate::listener::{normalized, ListenerRule};
use crate::selector::{next_count, RoundRobin};
use crate::text::{
    lemma_lex_antisymmetric, lemma_lex_total, lemma_lex_transitive, lemma_prefix_lex_le, lex_le,
    lex_le_exec, starts_with, trim_end_slashes, trim_slashes, trim_start_slashes, trimmed_end_slashes,
    trimmed_start_slashes,
};

verus! {

/// The key a rule prefix is matched by: the prefix without trailing slashes,
/// then one `/`, so that `/api` matches `/api/x` but not `/apiary`.
pub open spec fn match_key(prefix: Seq<char>) -> Seq<char> {
    trim_end_slashes(prefix).push('/')
}

/// The upstream path and query for a request path and query: the rule's
/// rewrite prefix is taken off the path, then its leading slashes; the graft
/// URI, when there is one, goes in front; the query is put back unchanged.
pub open spec fn rewritten(
    path: Seq<char>,
    query: Option<Seq<char>>,
    path_rewrite: Seq<char>,
    graft: Seq<char>,
) -> Seq<char> {
    let tail = trim_start_slashes(path.skip(path_rewrite.len() as int));
    let p = if graft.len() == 0 {
        seq!['/'] + tail
    } else {
        seq!['/'] + graft + seq!['/'] + tail
    };
    match query {
        Some(q) => p + seq!['?'] + q,
        None => p,
    }
}

/// The contents of an optional query string.
pub open spec fn opt_view(query: Option<&str>) -> Option<Seq<char>> {
    match query {
        Some(q) => Some(q@),
        None => None,
    }
}

/// The key `prefix` is matched by.
pub fn match_key_of(prefix: &str) -> (r: String)
    ensures
        r@ == match_key(prefix@),
{
    proof {
        reveal_strlit("/");
    }
    String::from_str(trimmed_end_slashes(prefix)).concat("/")
}

/// The upstream path and query for a request whose path starts with the
/// rule's rewrite prefix.
pub fn rewrite_path_and_query(path: &str, query: Option<&str>, path_rewrite: &str, graft: &str) -> (r: String)
    requires
        path_rewrite@.is_prefix_of(path@),
    ensures
        r@ == rewritten(path@, opt_view(query), path_rewrite@, graft@),
{
    proof {
        reveal_strlit("/");
        reveal_strlit("?");
    }
    let n = path.unicode_len();
    let tail = trimmed_start_slashes(path.substring_char(path_rewrite.unicode_len(), n));
    assert(path@.subrange(path_rewrite@.len() as int, n as int) =~= path@.skip(path_rewrite@.len() as int));
    let mut out = String::from_str("/");
    if graft.unicode_len() > 0 {
        out.append(graft);
        out.append("/");
    }
    out.append(tail);
    match query {
        Some(q) => {
            out.append("?");
            out.append(q);
        },
        None => {},
    }
    out
}

/// What became of a forward to an upstream.
pub enum ForwardOutcome {
    /// The upstream answered with this response.
    Responded(UpstreamResponse),
    /// No connection to the selected upstream could be borrowed.
    PoolUnavailable,
    /// The deadline passed before the upstream answered.
    TimedOut,
    /// Sending the request or reading the answer failed.
    SendFailed,
}

/// The status code the client gets for a forward.
pub open spec fn forward_status(outcome: ForwardOutcome) -> u16 {
    match outcome {
        ForwardOutcome::Responded(r) => r.status,
        ForwardOutcome::PoolUnavailable => 500,
        ForwardOutcome::TimedOut => 504,
        ForwardOutcome::SendFailed => 502,
    }
}

/// The status code the client gets for a forward.
pub fn forward_status_of(outcome: &ForwardOutcome) -> (r: u16)
    ensures
        r == forward_status(*outcome),
{
    match outcome {
        ForwardOutcome::Responded(r) => r.status,
        ForwardOutcome::PoolUnavailable => 500,
        ForwardOutcome::TimedOut => 504,
        ForwardOutcome::SendFailed => 502,
    }
}

/// Where a request goes first.
pub enum Routing {
    /// A cached response answers it.
    Cached(UpstreamResponse),
    /// No rule matches its path.
    NotFound,
    /// It is forwarded with the rule at this position.
    Rule(usize),
}

/// Status for a request that no rule matches.
pub const NOT_FOUND: u16 = 404;

/// Status for a rule whose group has no healthy upstream.
pub const SERVICE_UNAVAILABLE: u16 = 503;

/// What one listener rule forwards with: its selector, the handle on its
/// group's healthy list (of type `G`), its rewrite prefix in canonical form
/// and its per-forward deadline in milliseconds.
pub struct ListenerRuleHandler<G> {
    pub selector: RoundRobin,
    pub connection_pool: G,
    pub path_rewrite: String,
    pub connection_timeout: u64,
}

impl<G> ListenerRuleHandler<G> {
    /// Picks the position of an upstream in a healthy list of `healthy_len`
    /// pools; `None` when the list is empty.
    pub fn select(&mut self, healthy_len: usize) -> (r: Option<usize>)
        ensures
            healthy_len == 0 ==> r is None && final(self).selector@ == old(self).selector@,
            healthy_len > 0 ==> r == Some((old(self).selector@ % healthy_len) as usize)
                && final(self).selector@ == next_count(old(self).selector@),
            final(self).connection_pool == old(self).connection_pool,
            final(self).path_rewrite == old(self).path_rewrite,
            final(self).connection_timeout == old(self).connection_timeout,
    {
        if healthy_len == 0 {
            None
        } else {
            Some(self.selector.next_wrapping(healthy_len))
        }
    }

    /// The upstream path and query for a request to an upstream whose graft
    /// URI is `graft`; `None` when the path does not start with the rule's
    /// rewrite prefix.
    pub fn rewrite(&self, path: &str, query: Option<&str>, graft: &str) -> (r: Option<String>)
        ensures
            match r {
                Some(s) => self.path_rewrite@.is_prefix_of(path@) && s@ == rewritten(
                    path@,
                    opt_view(query),
                    self.path_rewrite@,
                    graft@,
                ),
                None => !self.path_rewrite@.is_prefix_of(path@),
            },
    {
        if starts_with(path, self.path_rewrite.as_str()) {
            Some(rewrite_path_and_query(path, query, self.path_rewrite.as_str(), graft))
        } else {
            None
        }
    }
}

/// The data plane's routing state: one handler per listener rule, in the
/// order of the rules, and the rules' match keys sorted in descending order,
/// each with the position of its rule.
pub struct LoadBalancer<G> {
    pub listener_targets: Vec<ListenerRuleHandler<G>>,
    pub prefixes: Vec<String>,
    pub prefix_targets: Vec<usize>,
    pub cache: Option<RequestCache>,
}

/// The contents of each string.
pub open spec fn string_views(s: Seq<String>) -> Seq<Seq<char>> {
    s.map_values(|x: String| x@)
}

/// The keys are sorted in descending order.
pub open spec fn descending(keys: Seq<Seq<char>>) -> bool {
    forall|i: int, j: int| 0 <= i < j < keys.len() ==> lex_le(#[trigger] keys[j], #[trigger] keys[i])
}

impl<G> LoadBalancer<G> {
    /// The match keys, in their sorted order.
    pub open spec fn keys(self) -> Seq<Seq<char>> {
        string_views(self.prefixes@)
    }

    /// Each key has a rule, and the keys are sorted in descending order.
    pub open spec fn wf(self) -> bool {
        &&& self.prefix_targets@.len() == self.prefixes@.len()
        &&& forall|p: int| 0 <= p < self.prefix_targets@.len() ==> #[trigger] self.prefix_targets@[p]
            < self.listener_targets@.len()
        &&& descending(self.keys())
    }

    /// Position of the first key that is a prefix of `path`, if any.
    pub open spec fn first_match(self, path: Seq<char>, p: int) -> bool {
        &&& 0 <= p < self.prefixes@.len()
        &&& self.keys()[p].is_prefix_of(path)
        &&& forall|q: int| 0 <= q < p ==> !(#[trigger] self.keys()[q]).is_prefix_of(path)
    }

    /// Builds one handler per rule (`connection_pools[i]` is the handle on
    /// the group of the `i`-th rule) and sorts the rules' match keys in
    /// descending order.
    pub fn new(listener_rules: Vec<ListenerRule>, connection_pools: Vec<G>, connection_timeout: u64) -> (r: Self)
        requires
            connection_pools@.len() == listener_rules@.len(),
        ensures
            r.wf(),
            r.listener_targets@.len() == listener_rules@.len(),
            forall|i: int| 0 <= i < listener_rules@.len() ==> {
                let h = #[trigger] r.listener_targets@[i];
                &&& h.selector@ == 0
                &&& h.connection_pool == connection_pools@[i]
                &&& h.path_rewrite@ == listener_rules@[i].path_rewrite@
                &&& h.connection_timeout == connection_timeout
            },
            r.prefixes@.len() == listener_rules@.len(),
            r.prefix_targets@.no_duplicates(),
            r.cache is None,
            forall|p: int| 0 <= p < r.prefixes@.len() ==> #[trigger] r.keys()[p] == match_key(
                listener_rules@[r.prefix_targets@[p] as int].path_prefix@,
            ),
    {
        let ghost pools = connection_pools@;
        let mut connection_pools = connection_pools;
        let n = listener_rules.len();
        let mut listener_targets: Vec<ListenerRuleHandler<G>> = Vec::new();
        let mut prefixes: Vec<String> = Vec::new();
        let mut prefix_targets: Vec<usize> = Vec::new();
        let mut i: usize = 0;
        while i < n
            invariant
                n == listener_rules@.len(),
                pools.len() == n,
                i <= n,
                connection_pools@ == pools.skip(i as int),
                listener_targets@.len() == i,
                prefixes@.len() == i,
                prefix_targets@.len() == i,
                forall|j: int| 0 <= j < i ==> {
                    let h = #[trigger] listener_targets@[j];
                    &&& h.selector@ == 0
                    &&& h.connection_pool == pools[j]
                    &&& h.path_rewrite@ == listener_rules@[j].path_rewrite@
                    &&& h.connection_timeout == connection_timeout
                },
                forall|p: int| 0 <= p < i ==> #[trigger] prefix_targets@[p] < i,
                prefix_targets@.no_duplicates(),
                descending(string_views(prefixes@)),
                forall|p: int| 0 <= p < i ==> #[trigger] string_views(prefixes@)[p] == match_key(
                    listener_rules@[prefix_targets@[p] as int].path_prefix@,
                ),
            decreases n - i,
        {
            let pool = connection_pools.remove(0);
            assert(connection_pools@ =~= pools.skip(i + 1));
            let rule = &listener_rules[i];
            listener_targets.push(
                ListenerRuleHandler {
                    selector: RoundRobin::new(),
                    connection_pool: pool,
                    path_rewrite: rule.path_rewrite.clone(),
                    connection_timeout,
                },
            );
            let key = match_key_of(rule.path_prefix.as_str());
            let ghost keys = string_views(prefixes@);
            let mut pos: usize = 0;
            loop
                invariant
                    prefixes@.len() == i,
                    keys == string_views(prefixes@),
                    pos <= i,
                    forall|q: int| 0 <= q < pos ==> lex_le(key@, #[trigger] keys[q]),
                ensures
                    prefixes@.len() == i,
                    keys == string_views(prefixes@),
                    pos <= i,
                    forall|q: int| 0 <= q < pos ==> lex_le(key@, #[trigger] keys[q]),
                    pos < i ==> !lex_le(key@, keys[pos as int]),
                decreases i - pos,
            {
                if pos == prefixes.len() {
                    break;
                }
                if !lex_le_exec(key.as_str(), prefixes[pos].as_str()) {
                    break;
                }
                pos = pos + 1;
            }
            proof {
                if pos < i {
                    lemma_lex_total(key@, keys[pos as int]);
                    assert forall|q: int| pos <= q < i implies lex_le(#[trigger] keys[q], key@) by {
                        if q > pos {
                            lemma_lex_transitive(keys[q], keys[pos as int], key@);
                        }
                    }
                }
                lemma_insert_descending(keys, key@, pos as int);
            }
            let ghost targets_before = prefix_targets@;
            prefixes.insert(pos, key);
            prefix_targets.insert(pos, i);
            assert(string_views(prefixes@) =~= keys.insert(pos as int, key@));
            assert forall|a: int, b: int| 0 <= a < b < prefix_targets@.len() implies
                prefix_targets@[a] != prefix_targets@[b] by {
                if a != pos && b != pos {
                    let a0 = if a < pos { a } else { a - 1 };
                    let b0 = if b < pos { b } else { b - 1 };
                    assert(targets_before[a0] != targets_before[b0]);
                } else if a == pos {
                    let b0 = b - 1;
                    assert(targets_before[b0] < i);
                } else {
                    assert(targets_before[a] < i);
                }
            }
            i = i + 1;
        }
        LoadBalancer { listener_targets, prefixes, prefix_targets, cache: None }
    }

    /// The cache is on and holds an entry for `key` that has not expired at `now`.
    pub open spec fn fresh_entry(self, key: Seq<char>, now: u64) -> bool {
        self.cache matches Some(c) && c.entries().contains_key(key) && !c.entries()[key].expired(now, c.ttl_ms())
    }

    /// `path` goes to rule `i`: the first key in descending order that is a
    /// prefix of `path` belongs to it, and no matching key is longer.
    pub open spec fn routes_to(self, path: Seq<char>, i: usize) -> bool {
        exists|p: int| #[trigger] self.first_match(path, p)
            && self.prefix_targets@[p] == i
            && forall|q: int| 0 <= q < self.prefixes@.len() && (#[trigger] self.keys()[q]).is_prefix_of(path)
                ==> self.keys()[q].len() <= self.keys()[p].len()
    }

    /// Decides where a request with URL `key` and path `path` goes at time
    /// `now`: a fresh cached response answers it; otherwise the rule with the
    /// longest matching key takes it; otherwise nothing is found.
    pub fn handle_connection(&self, key: &str, path: &str, now: u64) -> (r: Routing)
        requires
            self.wf(),
        ensures
            self.fresh_entry(key@, now) ==> (r matches Routing::Cached(v) && v@ == self.cache->0.entries()[key@].inner@),
            !self.fresh_entry(key@, now) ==> r !is Cached,
            r is NotFound <==> !self.fresh_entry(key@, now) && forall|p: int|
                0 <= p < self.prefixes@.len() ==> !(#[trigger] self.keys()[p]).is_prefix_of(path@),
            r matches Routing::Rule(i) ==> self.routes_to(path@, i),
    {
        if let Some(response) = self.cached_response(key, now) {
            return Routing::Cached(response);
        }
        match self.match_uri(path) {
            Some(i) => Routing::Rule(i),
            None => Routing::NotFound,
        }
    }

    /// The same balancer with an empty response cache whose entries live
    /// `ttl` milliseconds.
    pub fn with_cache(self, ttl: u64) -> (r: Self)
        ensures
            r.listener_targets == self.listener_targets,
            r.prefixes == self.prefixes,
            r.prefix_targets == self.prefix_targets,
            r.cache matches Some(c) && c.entries().is_empty() && c.ttl_ms() == ttl,
    {
        let LoadBalancer { listener_targets, prefixes, prefix_targets, .. } = self;
        let cache = RequestCache::new(ttl);
        assert(cache.entries() =~= Map::empty());
        LoadBalancer { listener_targets, prefixes, prefix_targets, cache: Some(cache) }
    }

    /// The cached response for the request URL `key` at time `now`, if the
    /// cache is on and holds one that has not expired.
    pub fn cached_response(&self, key: &str, now: u64) -> (r: Option<UpstreamResponse>)
        ensures
            self.cache is None ==> r is None,
            self.cache matches Some(c) ==> match r {
                Some(v) => c.entries().contains_key(key@) && !c.entries()[key@].expired(now, c.ttl_ms())
                    && v@ == c.entries()[key@].inner@,
                None => !c.entries().contains_key(key@) || c.entries()[key@].expired(now, c.ttl_ms()),
            },
    {
        match &self.cache {
            Some(c) => c.get(key, now),
            None => None,
        }
    }

    /// The response the client gets for a forward of the request URL `key`:
    /// what the upstream answered, which is then cached (when the cache is
    /// on) as of `now`, or an empty response whose status says what failed.
    pub fn complete_forward(&mut self, key: &str, outcome: ForwardOutcome, now: u64) -> (r: UpstreamResponse)
        ensures
            final(self).listener_targets == old(self).listener_targets,
            final(self).prefixes == old(self).prefixes,
            final(self).prefix_targets == old(self).prefix_targets,
            match outcome {
                ForwardOutcome::Responded(v) => {
                    &&& r == v
                    &&& old(self).cache is None ==> final(self).cache is None
                    &&& old(self).cache matches Some(c0) ==> final(self).cache matches Some(c1) && {
                        &&& c1.entries().dom() == c0.entries().dom().insert(key@)
                        &&& c1.entries()[key@].inner@ == v@
                        &&& c1.entries()[key@].set_time == now
                        &&& forall|k: Seq<char>| k != key@ ==> #[trigger] c1.entries().index(k) == c0.entries().index(k)
                        &&& c1.ttl_ms() == c0.ttl_ms()
                    }
                },
                _ => {
                    &&& r@ == (forward_status(outcome), Seq::<(Seq<char>, Seq<u8>)>::empty(), Seq::<u8>::empty())
                    &&& final(self).cache == old(self).cache
                },
            },
    {
        match outcome {
            ForwardOutcome::Responded(response) => {
                match &mut self.cache {
                    Some(c) => c.set(key, &response, now),
                    None => {},
                }
                response
            },
            _ => UpstreamResponse::empty(forward_status_of(&outcome)),
        }
    }

    /// The rule that `path` goes to: the one whose key is the first prefix
    /// of `path` in descending key order, which is the longest matching key.
    pub fn match_uri(&self, path: &str) -> (r: Option<usize>)
        requires
            self.wf(),
        ensures
            match r {
                None => forall|p: int| 0 <= p < self.prefixes@.len() ==> !(#[trigger] self.keys()[p]).is_prefix_of(path@),
                Some(i) => self.routes_to(path@, i),
            },
    {
        let mut p: usize = 0;
        while p < self.prefixes.len()
            invariant
                self.wf(),
                p <= self.prefixes@.len(),
                forall|q: int| 0 <= q < p ==> !(#[trigger] self.keys()[q]).is_prefix_of(path@),
            decreases self.prefixes@.len() - p,
        {
            if starts_with(path, self.prefixes[p].as_str()) {
                proof {
                    assert(self.keys()[p as int] == self.prefixes@[p as int]@);
                    assert forall|q: int| 0 <= q < self.prefixes@.len() && (#[trigger] self.keys()[q]).is_prefix_of(path@)
                        implies self.keys()[q].len() <= self.keys()[p as int].len() by {
                        lemma_first_match_is_longest(self.keys(), path@, p as int, q);
                    }
                    assert(self.first_match(path@, p as int));
                }
                return Some(self.prefix_targets[p]);
            }
            p = p + 1;
        }
        None
    }
}

proof fn lemma_insert_descending(keys: Seq<Seq<char>>, key: Seq<char>, pos: int)
    requires
        descending(keys),
        0 <= pos <= keys.len(),
        forall|q: int| 0 <= q < pos ==> lex_le(key, #[trigger] keys[q]),
        forall|q: int| pos <= q < keys.len() ==> lex_le(#[trigger] keys[q], key),
    ensures
        descending(keys.insert(pos, key)),
{
    let k2 = keys.insert(pos, key);
    assert forall|a: int, b: int| 0 <= a < b < k2.len() implies lex_le(#[trigger] k2[b], #[trigger] k2[a]) by {
        if a < pos && b < pos {
        } else if a < pos && b == pos {
        } else if a < pos {
            assert(k2[b] == keys[b - 1]);
        } else if a == pos {
            assert(k2[b] == keys[b - 1]);
        } else {
            assert(k2[a] == keys[a - 1]);
            assert(k2[b] == keys[b - 1]);
        }
    }
}

/// In descending key order the first key that is a prefix of a path is the
/// longest such key: of two prefixes of one path the shorter is a prefix of
/// the longer, so it comes later.
proof fn lemma_first_match_is_longest(keys: Seq<Seq<char>>, path: Seq<char>, p: int, q: int)
    requires
        descending(keys),
        0 <= p < keys.len(),
        0 <= q < keys.len(),
        keys[p].is_prefix_of(path),
        keys[q].is_prefix_of(path),
        forall|k: int| 0 <= k < p ==> !(#[trigger] keys[k]).is_prefix_of(path),
    ensures
        keys[q].len() <= keys[p].len(),
{
    if keys[q].len() > keys[p].len() {
        assert(q > p);
        assert(lex_le(keys[q], keys[p]));
        assert(keys[p].is_prefix_of(keys[q])) by {
            assert(keys[q].subrange(0, keys[p].len() as int) =~= path.subrange(0, keys[p].len() as int));
        }
        lemma_prefix_lex_le(keys[p], keys[q]);
        lemma_lex_antisymmetric(keys[p], keys[q]);
    }
}


proof fn lemma_no_trailing_slash(s: Seq<char>)
    ensures
        trim_end_slashes(s).len() == 0 || trim_end_slashes(s).last() != '/',
    decreases s.len(),
{
    if s.len() > 0 && s.last() == '/' {
        lemma_no_trailing_slash(s.drop_last());
    }
}

/// For a rule whose prefix and rewrite are both `rule` (as configured, before
/// canonical form), a request path made of the canonical rule, a slash and a
/// tail `x` is matched by the rule and forwarded as `/graft/x` (or `/x`
/// without a graft URI), with the query unchanged. A tail that itself starts
/// with a slash loses its leading slashes, so it is left out.
pub proof fn lemma_rewrite_replaces_prefix(
    rule: Seq<char>,
    x: Seq<char>,
    query: Option<Seq<char>>,
    graft: Seq<char>,
)
    requires
        x.len() == 0 || x[0] != '/',
    ensures
        ({
            let w = normalized(rule);
            let path = w + seq!['/'] + x;
            let expected = if graft.len() == 0 {
                seq!['/'] + x
            } else {
                seq!['/'] + graft + seq!['/'] + x
            };
            &&& match_key(w).is_prefix_of(path)
            &&& rewritten(path, query, w, graft) == match query {
                Some(q) => expected + seq!['?'] + q,
                None => expected,
            }
        }),
{
    let w = normalized(rule);
    let path = w + seq!['/'] + x;
    let t = trim_slashes(rule);
    lemma_no_trailing_slash(trim_start_slashes(rule));
    let slash_x = seq!['/'] + x;
    assert(path.skip(w.len() as int) =~= slash_x);
    assert(slash_x.drop_first() =~= x);
    assert(trim_start_slashes(slash_x) == trim_start_slashes(x));
    assert(trim_start_slashes(x) == x);
    if t.len() == 0 {
        assert(w =~= seq!['/']);
        assert(w.drop_last() =~= Seq::<char>::empty());
        assert(trim_end_slashes(w) == trim_end_slashes(w.drop_last()));
        assert(match_key(w) =~= seq!['/']);
        assert(path.subrange(0, 1) =~= seq!['/']);
    } else {
        assert(w.last() == t.last());
        assert(trim_end_slashes(w) == w);
        assert(path.subrange(0, match_key(w).len() as int) =~= match_key(w));
    }
}

} // verus!
