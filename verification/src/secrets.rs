//! The keys that agents want, and where they are kept.
use crate::outside::Failure;
use crate::sorted_map::StrMap;
use crate::text;
use vstd::prelude::*;
use vstd::string::*;

verus! {

/// An agent program: how it is started, and the keys that it wants.
#[derive(Debug, Clone, PartialEq, Eq)]
pub struct AgentEntry {
    pub bin: String,
    pub prompt_flag: String,
    pub env_keys: Vec<String>,
}

impl AgentEntry {
    /// A program that wants no keys.
    pub fn new(bin: &str, prompt_flag: &str) -> (e: AgentEntry)
        ensures
            e.bin@ == bin@,
            e.prompt_flag@ == prompt_flag@,
            e.env_keys@.len() == 0,
    {
        AgentEntry {
            bin: bin.to_owned(),
            prompt_flag: prompt_flag.to_owned(),
            env_keys: Vec::new(),
        }
    }
}

/// A place where secrets are kept. What it answers is stated by the place
/// itself; where it states nothing, nothing is promised.
pub trait Secrets: Send + Sized {
    /// What may be found under a name; nothing for a failed look-up.
    open spec fn gives(&self, account: Seq<char>, found: Option<Seq<char>>) -> bool {
        true
    }

    /// Looks a secret up.
    fn get(&self, account: &str) -> (r: Result<Option<String>, Failure>)
        ensures
            self.gives(account@, found_text(r)),
    ;
}

/// What a look-up found.
pub open spec fn found_text(r: Result<Option<String>, Failure>) -> Option<Seq<char>> {
    match r {
        Ok(Some(s)) => Some(s@),
        _ => None,
    }
}

/// Secrets that were written down beforehand.
pub struct MockSecrets {
    entries: StrMap<String>,
}

impl View for MockSecrets {
    type V = Map<Seq<char>, Seq<char>>;

    closed spec fn view(&self) -> Map<Seq<char>, Seq<char>> {
        self.entries@.map_values(|s: String| s@)
    }
}

impl Default for MockSecrets {
    fn default() -> (m: MockSecrets)
        ensures
            m@ == Map::<Seq<char>, Seq<char>>::empty(),
    {
        MockSecrets::new()
    }
}

impl MockSecrets {
    /// No secrets.
    pub fn new() -> (m: MockSecrets)
        ensures
            m@ == Map::<Seq<char>, Seq<char>>::empty(),
    {
        let m = MockSecrets { entries: StrMap::new() };
        assert(m@ =~= Map::<Seq<char>, Seq<char>>::empty());
        m
    }

    /// One more secret.
    pub fn with(self, account: &str, value: &str) -> (m: MockSecrets)
        ensures
            m@ == self@.insert(account@, value@),
    {
        let mut entries = self.entries;
        entries.insert(account.to_owned(), value.to_owned());
        let m = MockSecrets { entries };
        assert(m@ =~= self@.insert(account@, value@));
        m
    }
}

impl Secrets for MockSecrets {
    open spec fn gives(&self, account: Seq<char>, found: Option<Seq<char>>) -> bool {
        found == (if self@.dom().contains(account) {
            Some(self@[account])
        } else {
            None
        })
    }

    fn get(&self, account: &str) -> (r: Result<Option<String>, Failure>) {
        match self.entries.get(account) {
            Some(s) => Ok(Some(s.clone())),
            None => Ok(None),
        }
    }
}

/// The name under which an agent's key is kept.
pub open spec fn account_of(agent: Seq<char>, key: Seq<char>) -> Seq<char> {
    agent + "/"@ + key
}

/// The name under which an agent's key is kept.
pub fn secret_account(agent: &str, key: &str) -> (s: String)
    ensures
        s@ == account_of(agent@, key@),
{
    let mut s = agent.to_owned();
    s.append("/");
    s.append(key);
    s
}

/// The environment that an agent is started with, and the keys that are not
/// there.
#[derive(Debug, Clone, PartialEq, Eq)]
pub struct ResolvedEnv {
    pub vars: Vec<(String, String)>,
    pub missing: Vec<String>,
}

/// What a [`ResolvedEnv`] holds.
pub struct EnvModel {
    pub vars: Seq<(Seq<char>, Seq<char>)>,
    pub missing: Seq<Seq<char>>,
}

impl View for ResolvedEnv {
    type V = EnvModel;

    open spec fn view(&self) -> EnvModel {
        EnvModel {
            vars: self.vars@.map_values(|v: (String, String)| (v.0@, v.1@)),
            missing: text::texts(self.missing@),
        }
    }
}

impl Default for ResolvedEnv {
    fn default() -> (e: ResolvedEnv)
        ensures
            e@ == resolved(Seq::empty(), Seq::empty()),
    {
        let e = ResolvedEnv { vars: Vec::new(), missing: Vec::new() };
        assert(e@.vars =~= Seq::empty());
        assert(e@.missing =~= Seq::empty());
        e
    }
}

/// The environment for some keys, with what was found for each.
pub open spec fn resolved(keys: Seq<Seq<char>>, found: Seq<Option<Seq<char>>>) -> EnvModel
    decreases keys.len(),
{
    if keys.len() == 0 {
        EnvModel { vars: Seq::empty(), missing: Seq::empty() }
    } else {
        let rest = resolved(keys.drop_last(), found.drop_last());
        match found.last() {
            Some(value) => EnvModel { vars: rest.vars.push((keys.last(), value)), ..rest },
            None => EnvModel { missing: rest.missing.push(keys.last()), ..rest },
        }
    }
}

impl ResolvedEnv {
    fn take(&mut self, key: &String, found: Result<Option<String>, Failure>)
        ensures
            final(self)@ == (match found_text(found) {
                Some(value) => EnvModel { vars: old(self)@.vars.push((key@, value)), ..old(self)@ },
                None => EnvModel { missing: old(self)@.missing.push(key@), ..old(self)@ },
            }),
    {
        match found {
            Ok(Some(value)) => {
                self.vars.push((key.clone(), value));
                assert(self@.vars =~= old(self)@.vars.push((key@, value@)));
            },
            _ => {
                self.missing.push(key.clone());
                assert(self@.missing =~= old(self)@.missing.push(key@));
            },
        }
    }
}

/// The keys that an agent of a registry wants.
pub open spec fn wanted(registry: Map<Seq<char>, AgentEntry>, agent: Seq<char>) -> Seq<Seq<char>> {
    if registry.dom().contains(agent) {
        text::texts(registry[agent].env_keys@)
    } else {
        Seq::empty()
    }
}

/// Each of an agent's keys is looked up under its name.
pub open spec fn looked_up<S: Secrets>(
    secrets: S,
    agent: Seq<char>,
    keys: Seq<Seq<char>>,
    found: Seq<Option<Seq<char>>>,
) -> bool {
    &&& found.len() == keys.len()
    &&& forall|i: int|
        0 <= i < keys.len() ==> #[trigger] secrets.gives(account_of(agent, keys[i]), found[i])
}

/// The environment for an agent: each key that it wants is looked up; an agent
/// that is not in the registry wants none.
pub fn resolve_task_env<S: Secrets>(
    registry: &StrMap<AgentEntry>,
    secrets: &S,
    agent: &str,
) -> (e: ResolvedEnv)
    ensures
        exists|found: Seq<Option<Seq<char>>>| #[trigger]
            looked_up(*secrets, agent@, wanted(registry@, agent@), found) && e@ == resolved(
                wanted(registry@, agent@),
                found,
            ),
{
    let mut e = ResolvedEnv::default();
    let ghost keys = wanted(registry@, agent@);
    let ghost mut found: Seq<Option<Seq<char>>> = Seq::empty();
    let entry = match registry.get(agent) {
        Some(entry) => entry,
        None => {
            assert(looked_up(*secrets, agent@, keys, found));
            return e;
        },
    };
    let mut i: usize = 0;
    assert(keys.take(0) =~= Seq::empty());
    while i < entry.env_keys.len()
        invariant
            i <= entry.env_keys@.len(),
            keys == text::texts(entry.env_keys@),
            looked_up(*secrets, agent@, keys.take(i as int), found),
            e@ == resolved(keys.take(i as int), found),
        decreases entry.env_keys@.len() - i,
    {
        let key = &entry.env_keys[i];
        let ghost before = found;
        let r = secrets.get(secret_account(agent, key.as_str()).as_str());
        proof {
            found = found.push(found_text(r));
            assert(keys.take(i + 1).drop_last() =~= keys.take(i as int));
            assert(found.drop_last() =~= before);
            assert(keys.take(i + 1).last() == key@);
            assert forall|j: int| 0 <= j < i + 1 implies #[trigger] secrets.gives(
                account_of(agent@, keys.take(i + 1)[j]),
                found[j],
            ) by {
                if j < i {
                    assert(keys.take(i as int)[j] == keys[j]);
                    assert(before[j] == found[j]);
                    assert(secrets.gives(account_of(agent@, keys.take(i as int)[j]), before[j]));
                }
            }
        }
        e.take(key, r);
        i += 1;
    }
    assert(keys.take(keys.len() as int) =~= keys);
    e
}

/// `ok` tells whether all keys that an agent wants are there.
pub open spec fn keys_there<S: Secrets>(
    secrets: S,
    registry: Map<Seq<char>, AgentEntry>,
    agent: Seq<char>,
    ok: bool,
) -> bool {
    exists|found: Seq<Option<Seq<char>>>| #[trigger]
        looked_up(secrets, agent, wanted(registry, agent), found) && ok == !found.contains(None)
}

proof fn none_missing(keys: Seq<Seq<char>>, found: Seq<Option<Seq<char>>>)
    requires
        found.len() == keys.len(),
    ensures
        (resolved(keys, found).missing.len() == 0) == !found.contains(None),
    decreases keys.len(),
{
    if keys.len() > 0 {
        let rest = found.drop_last();
        none_missing(keys.drop_last(), rest);
        if rest.contains(None) {
            let k = rest.index_of(None);
            assert(found[k] is None);
        }
        if found.contains(None) {
            let k = found.index_of(None);
            if k < rest.len() {
                assert(rest[k] is None);
            }
        }
        assert(found.last() == found[found.len() - 1]);
    }
}

/// Whether each agent that wants keys has them all; nothing for an agent that
/// wants none.
pub fn load_env_status<S: Secrets>(registry: &StrMap<AgentEntry>, secrets: &S) -> (m: StrMap<bool>)
    ensures
        forall|agent: Seq<char>| #[trigger]
            m@.dom().contains(agent) <==> wanted(registry@, agent).len() > 0,
        forall|agent: Seq<char>| #[trigger]
            m@.dom().contains(agent) ==> keys_there(*secrets, registry@, agent, m@[agent]),
{
    let n: usize = registry.len();
    let ghost all = registry.entries();
    let mut m: StrMap<bool> = StrMap::new();
    let mut i: usize = 0;
    while i < n
        invariant
            i <= n == all.len(),
            all == registry.entries(),
            forall|k: int|
                0 <= k < all.len() ==> registry@.dom().contains((#[trigger] all[k]).0)
                    && registry@[all[k].0] == all[k].1,
            forall|agent: Seq<char>| #[trigger]
                m@.dom().contains(agent) <==> exists|k: int|
                    0 <= k < i && (#[trigger] all[k]).0 == agent && all[k].1.env_keys@.len() > 0,
            forall|agent: Seq<char>| #[trigger]
                m@.dom().contains(agent) ==> keys_there(*secrets, registry@, agent, m@[agent]),
        decreases n - i,
    {
        let ghost was = m@;
        let name = registry.key_at(i);
        let ghost agent = all[i as int].0;
        if registry.value_at(i).env_keys.len() > 0 {
            let e = resolve_task_env(registry, secrets, name.as_str());
            let ok = e.missing.len() == 0;
            proof {
                let keys = wanted(registry@, agent);
                let found = choose|found: Seq<Option<Seq<char>>>| #[trigger]
                    looked_up(*secrets, agent, keys, found) && e@ == resolved(keys, found);
                assert(looked_up(*secrets, agent, keys, found));
                none_missing(keys, found);
                assert(e@.missing.len() == e.missing@.len());
                assert(keys_there(*secrets, registry@, agent, ok));
            }
            m.insert(name.clone(), ok);
        }
        assert forall|a: Seq<char>| #[trigger] m@.dom().contains(a) <==> exists|k: int|
            0 <= k < i + 1 && (#[trigger] all[k]).0 == a && all[k].1.env_keys@.len() > 0 by {
            if was.dom().contains(a) {
                let k = choose|k: int|
                    0 <= k < i && (#[trigger] all[k]).0 == a && all[k].1.env_keys@.len() > 0;
                assert(all[k].0 == a);
            }
            if a == agent && all[i as int].1.env_keys@.len() > 0 {
                assert(m@.dom().contains(a));
            }
        }
        i += 1;
    }
    proof {
        assert forall|agent: Seq<char>| #[trigger] m@.dom().contains(agent) <==> wanted(
            registry@,
            agent,
        ).len() > 0 by {
            if m@.dom().contains(agent) {
                let k = choose|k: int|
                    0 <= k < n && (#[trigger] all[k]).0 == agent && all[k].1.env_keys@.len() > 0;
                assert(registry@[agent] == all[k].1);
            }
            if wanted(registry@, agent).len() > 0 {
                assert(registry@.dom().contains(agent));
                let k = choose|k: int| 0 <= k < n && registry.keys()[k] == agent;
                assert(all[k].0 == agent);
            }
        }
    }
    m
}

/// The programs that are known, and the place where their keys are kept.
pub struct Keyring<S> {
    pub registry: StrMap<AgentEntry>,
    pub secrets: S,
}

/// Every key that is wanted is either set or reported as missing, and the two
/// together are as many as are wanted.
pub proof fn every_key_is_accounted_for(keys: Seq<Seq<char>>, found: Seq<Option<Seq<char>>>)
    requires
        found.len() == keys.len(),
    ensures
        resolved(keys, found).vars.len() + resolved(keys, found).missing.len() == keys.len(),
        forall|i: int|
            0 <= i < keys.len() ==> match found[i] {
                Some(value) => resolved(keys, found).vars.contains((#[trigger] keys[i], value)),
                None => resolved(keys, found).missing.contains(keys[i]),
            },
    decreases keys.len(),
{
    if keys.len() > 0 {
        let rest = resolved(keys.drop_last(), found.drop_last());
        let all = resolved(keys, found);
        every_key_is_accounted_for(keys.drop_last(), found.drop_last());
        assert forall|i: int| 0 <= i < keys.len() implies match found[i] {
            Some(value) => all.vars.contains((#[trigger] keys[i], value)),
            None => all.missing.contains(keys[i]),
        } by {
            if i < keys.len() - 1 {
                assert(keys.drop_last()[i] == keys[i]);
                assert(found.drop_last()[i] == found[i]);
                match found[i] {
                    Some(value) => {
                        let k = rest.vars.index_of((keys[i], value));
                        assert(rest.vars.contains((keys[i], value)));
                        assert(all.vars[k] == (keys[i], value));
                    },
                    None => {
                        assert(rest.missing.contains(keys[i]));
                        let k = rest.missing.index_of(keys[i]);
                        assert(all.missing[k] == keys[i]);
                    },
                }
            } else {
                match found[i] {
                    Some(value) => {
                        assert(all.vars.last() == (keys[i], value));
                    },
                    None => {
                        assert(all.missing.last() == keys[i]);
                    },
                }
            }
        }
    }
}

/// What is found of some keys and then of some more is found of all: first
/// those of the first part, in order, then those of the second. One key gives
/// its value where there is one and is missed where there is none.
pub proof fn keys_resolve_in_turn(
    a: Seq<Seq<char>>,
    fa: Seq<Option<Seq<char>>>,
    b: Seq<Seq<char>>,
    fb: Seq<Option<Seq<char>>>,
    key: Seq<char>,
    value: Seq<char>,
)
    requires
        fa.len() == a.len(),
        fb.len() == b.len(),
    ensures
        resolved(a + b, fa + fb).vars == resolved(a, fa).vars + resolved(b, fb).vars,
        resolved(a + b, fa + fb).missing == resolved(a, fa).missing + resolved(b, fb).missing,
        resolved(seq![key], seq![Some(value)]).vars == seq![(key, value)],
        resolved(seq![key], seq![Some(value)]).missing.len() == 0,
        resolved(seq![key], seq![None]).vars.len() == 0,
        resolved(seq![key], seq![None]).missing == seq![key],
    decreases b.len(),
{
    reveal_with_fuel(resolved, 2);
    let some: Seq<Option<Seq<char>>> = seq![Some(value)];
    let none: Seq<Option<Seq<char>>> = seq![None];
    assert(seq![key].drop_last() =~= Seq::empty());
    assert(some.drop_last() =~= Seq::empty());
    assert(none.drop_last() =~= Seq::empty());
    assert(some.last() == Some(value));
    assert(none.last() == None::<Seq<char>>);
    assert(resolved(seq![key], some).vars =~= seq![(key, value)]);
    assert(resolved(seq![key], none).missing =~= seq![key]);
    if b.len() == 0 {
        assert(a + b =~= a);
        assert(fa + fb =~= fa);
    } else {
        assert((a + b).drop_last() =~= a + b.drop_last());
        assert((fa + fb).drop_last() =~= fa + fb.drop_last());
        assert((a + b).last() == b.last());
        assert((fa + fb).last() == fb.last());
        keys_resolve_in_turn(a, fa, b.drop_last(), fb.drop_last(), key, value);
    }
    assert(resolved(a + b, fa + fb).vars =~= resolved(a, fa).vars + resolved(b, fb).vars);
    assert(resolved(a + b, fa + fb).missing =~= resolved(a, fa).missing + resolved(
        b,
        fb,
    ).missing);
}

/// An agent's keys are those its entry wants, and they are kept under the
/// agent's name; an agent that is not registered wants none.
pub proof fn agents_want_their_own_keys(
    registry: Map<Seq<char>, AgentEntry>,
    agent: Seq<char>,
    key: Seq<char>,
)
    ensures
        account_of(agent, key) == agent + seq!['/'] + key,
        !registry.dom().contains(agent) ==> wanted(registry, agent).len() == 0,
        registry.dom().contains(agent) ==> wanted(registry, agent).len()
            == registry[agent].env_keys@.len() && forall|i: int|
            0 <= i < wanted(registry, agent).len() ==> #[trigger] wanted(registry, agent)[i]
                == registry[agent].env_keys@[i]@,
{
    reveal_strlit("/");
    assert("/"@ =~= seq!['/']);
}

/// An agent is marked as having its keys only where each of them was found in
/// the store of keys.
pub proof fn keys_are_there_when_all_are_found(
    ring: MockSecrets,
    registry: Map<Seq<char>, AgentEntry>,
    agent: Seq<char>,
    ok: bool,
)
    requires
        keys_there(ring, registry, agent, ok),
    ensures
        ok <==> forall|i: int|
            0 <= i < wanted(registry, agent).len() ==> ring@.dom().contains(
                agent + seq!['/'] + #[trigger] wanted(registry, agent)[i],
            ),
{
    reveal_strlit("/");
    assert("/"@ =~= seq!['/']);
    let keys = wanted(registry, agent);
    let found = choose|found: Seq<Option<Seq<char>>>| #[trigger]
        looked_up(ring, agent, keys, found) && ok == !found.contains(None);
    assert forall|i: int| 0 <= i < keys.len() implies (found[i] is Some <==> ring@.dom().contains(
        agent + seq!['/'] + #[trigger] keys[i],
    )) by {
        assert(ring.gives(account_of(agent, keys[i]), found[i]));
    }
    if ok {
        assert forall|i: int| 0 <= i < keys.len() implies ring@.dom().contains(
            agent + seq!['/'] + #[trigger] keys[i],
        ) by {
            if found[i] is None {
                assert(found.contains(None));
            }
        }
    } else {
        let i = choose|i: int| 0 <= i < found.len() && found[i] == None::<Seq<char>>;
        assert(!ring@.dom().contains(agent + seq!['/'] + keys[i]));
    }
}

} // verus!
