//! What was used, by agent and by model. The numbers are doubles and are
//! added up elsewhere; here is which of them go together.
use crate::agent::UsageSample;
use crate::sorted_map::StrMap;
use vstd::prelude::*;
use vstd::string::*;

verus! {

/// The seconds of the window that is shown beside the totals.
pub const WINDOW_5H_SECS: u64 = 18000;

/// The name under which something is counted; what has no name is counted
/// under a question mark.
pub open spec fn group_name(name: Seq<char>) -> Seq<char> {
    if name.len() == 0 {
        "?"@
    } else {
        name
    }
}

/// The places of a name in a list of names.
pub open spec fn places_of(names: Seq<Seq<char>>, name: Seq<char>) -> Seq<usize>
    decreases names.len(),
{
    if names.len() == 0 {
        Seq::empty()
    } else if names.last() == name {
        places_of(names.drop_last(), name).push((names.len() - 1) as usize)
    } else {
        places_of(names.drop_last(), name)
    }
}

/// `groups` lists for each name the places where it stands.
pub open spec fn groups_of(names: Seq<Seq<char>>, groups: Map<Seq<char>, Vec<usize>>) -> bool {
    &&& forall|k: Seq<char>| #[trigger] groups.dom().contains(k) <==> names.contains(k)
    &&& forall|k: Seq<char>|
        names.contains(k) ==> (#[trigger] groups[k])@ == places_of(names, k)
}

/// The agents of some samples.
pub open spec fn agents_of(v: Seq<UsageSample>) -> Seq<Seq<char>> {
    v.map_values(|s: UsageSample| group_name(s.agent@))
}

/// The models of some samples.
pub open spec fn models_of(v: Seq<UsageSample>) -> Seq<Seq<char>> {
    v.map_values(|s: UsageSample| group_name(s.model@))
}

/// A sample lies in the window that ends at `now`; one from the future does.
pub open spec fn in_window(ts: u64, now: u64) -> bool {
    now - ts <= WINDOW_5H_SECS
}

/// Which samples go together.
pub struct CostPlan {
    /// The places of the samples of each agent.
    pub by_agent: StrMap<Vec<usize>>,
    /// The places of the samples of each model.
    pub by_model: StrMap<Vec<usize>>,
    /// Which samples lie in the window.
    pub recent: Vec<bool>,
    /// Some sample has no cost.
    pub cost_unknown: bool,
}

fn group(name: &String) -> (s: String)
    ensures
        s@ == group_name(name@),
{
    if name.as_str().is_empty() {
        "?".to_owned()
    } else {
        name.clone()
    }
}

proof fn none_of(names: Seq<Seq<char>>, name: Seq<char>)
    requires
        !names.contains(name),
    ensures
        places_of(names, name) == Seq::<usize>::empty(),
    decreases names.len(),
{
    if names.len() > 0 {
        let rest = names.drop_last();
        assert(names[names.len() - 1] != name);
        assert(!rest.contains(name)) by {
            if rest.contains(name) {
                let k = choose|k: int| 0 <= k < rest.len() && rest[k] == name;
                assert(names[k] == name);
            }
        }
        none_of(rest, name);
    }
}

fn add_to(groups: &mut StrMap<Vec<usize>>, name: String, at: usize, Ghost(names): Ghost<Seq<Seq<char>>>)
    requires
        at == names.len(),
        groups_of(names, old(groups)@),
    ensures
        groups_of(names.push(name@), final(groups)@),
{
    let ghost was = groups@;
    let ghost key = name@;
    let ghost now = names.push(key);
    let mut list: Vec<usize> = match groups.remove(name.as_str()) {
        Some(v) => v,
        None => Vec::new(),
    };
    proof {
        if !names.contains(key) {
            none_of(names, key);
        }
        assert(list@ =~= places_of(names, key));
    }
    list.push(at);
    groups.insert(name, list);
    proof {
        assert(now.drop_last() =~= names);
        assert(now.last() == key);
        assert forall|k: Seq<char>| #[trigger] groups@.dom().contains(k) <==> now.contains(k) by {
            if now.contains(k) && k != key {
                let j = choose|j: int| 0 <= j < now.len() && now[j] == k;
                assert(names[j] == k);
            }
            if names.contains(k) {
                let j = choose|j: int| 0 <= j < names.len() && names[j] == k;
                assert(now[j] == k);
            }
            assert(now[names.len() as int] == key);
        }
        assert forall|k: Seq<char>| now.contains(k) implies (#[trigger] groups@[k])@ == places_of(
            now,
            k,
        ) by {
            assert(groups@.dom().contains(k));
            if k != key {
                assert(was.dom().contains(k));
                assert(was[k]@ == places_of(names, k));
            }
        }
    }
}

/// Which samples go together: by agent, by model, and in the last five hours.
pub fn summarize(samples: &[UsageSample], now: u64) -> (p: CostPlan)
    ensures
        groups_of(agents_of(samples@), p.by_agent@),
        groups_of(models_of(samples@), p.by_model@),
        p.recent@ == samples@.map_values(|s: UsageSample| in_window(s.ts, now)),
        p.cost_unknown == exists|i: int|
            0 <= i < samples@.len() && (#[trigger] samples@[i]).cost is None,
{
    let mut by_agent: StrMap<Vec<usize>> = StrMap::new();
    let mut by_model: StrMap<Vec<usize>> = StrMap::new();
    let mut recent: Vec<bool> = Vec::new();
    let mut cost_unknown = false;
    let mut i: usize = 0;
    assert(samples@.take(0) =~= Seq::empty());
    assert(agents_of(samples@.take(0)) =~= Seq::empty());
    assert(models_of(samples@.take(0)) =~= Seq::empty());
    while i < samples.len()
        invariant
            i <= samples@.len(),
            groups_of(agents_of(samples@.take(i as int)), by_agent@),
            groups_of(models_of(samples@.take(i as int)), by_model@),
            recent@ == samples@.take(i as int).map_values(
                |s: UsageSample| in_window(s.ts, now),
            ),
            cost_unknown == exists|k: int|
                0 <= k < i && (#[trigger] samples@[k]).cost is None,
        decreases samples@.len() - i,
    {
        let s = &samples[i];
        let ghost some = samples@.take(i as int);
        let ghost more = samples@.take(i + 1);
        assert(agents_of(more) =~= agents_of(some).push(group_name(s.agent@)));
        assert(models_of(more) =~= models_of(some).push(group_name(s.model@)));
        add_to(&mut by_agent, group(&s.agent), i, Ghost(agents_of(some)));
        add_to(&mut by_model, group(&s.model), i, Ghost(models_of(some)));
        recent.push(now.saturating_sub(s.ts) <= WINDOW_5H_SECS);
        assert(recent@ =~= more.map_values(|s: UsageSample| in_window(s.ts, now)));
        if s.cost.is_none() {
            assert(samples@[i as int].cost is None);
            cost_unknown = true;
        }
        i += 1;
    }
    assert(samples@.take(samples@.len() as int) =~= samples@);
    CostPlan { by_agent, by_model, recent, cost_unknown }
}

/// How a sum of money is shown.
#[derive(Debug, Clone, Copy, PartialEq, Eq, Structural)]
pub enum MoneyCell {
    /// There is nothing to add up.
    Dash,
    /// Every sample has a cost: the sum as it is.
    Exact,
    /// Some have none: at least the sum.
    AtLeast,
    /// None that costs anything: not known.
    Unknown,
}

/// How a sum of money is shown, by the number of samples, whether some have
/// no cost, and whether the sum is more than nothing.
pub fn money_cell(samples: usize, cost_unknown: bool, positive: bool) -> (c: MoneyCell)
    ensures
        c == (if samples == 0 {
            MoneyCell::Dash
        } else if !cost_unknown {
            MoneyCell::Exact
        } else if positive {
            MoneyCell::AtLeast
        } else {
            MoneyCell::Unknown
        }),
{
    if samples == 0 {
        MoneyCell::Dash
    } else if !cost_unknown {
        MoneyCell::Exact
    } else if positive {
        MoneyCell::AtLeast
    } else {
        MoneyCell::Unknown
    }
}

/// Every place of a name is listed once, in order, and nothing else is.
pub proof fn places_are_exact(names: Seq<Seq<char>>, name: Seq<char>, i: int)
    requires
        0 <= i < names.len() <= usize::MAX,
    ensures
        places_of(names, name).contains(i as usize) <==> names[i] == name,
    decreases names.len(),
{
    let rest = names.drop_last();
    let got = places_of(rest, name);
    let now = places_of(names, name);
    let last = (names.len() - 1) as usize;
    places_below(rest, name);
    if i < rest.len() {
        places_are_exact(rest, name, i);
        assert(rest[i] == names[i]);
        if got.contains(i as usize) {
            let k = choose|k: int| 0 <= k < got.len() && got[k] == i as usize;
            assert(now[k] == i as usize);
        }
        if now.contains(i as usize) {
            let k = choose|k: int| 0 <= k < now.len() && now[k] == i as usize;
            assert(last != i as usize);
            assert(got[k] == i as usize);
        }
    } else {
        if names[i] == name {
            assert(now[now.len() - 1] == last);
        } else if now.contains(i as usize) {
            let k = choose|k: int| 0 <= k < got.len() && got[k] == i as usize;
            assert(got[k] < rest.len());
        }
    }
}

proof fn places_below(names: Seq<Seq<char>>, name: Seq<char>)
    requires
        names.len() <= usize::MAX,
    ensures
        forall|k: int|
            0 <= k < places_of(names, name).len() ==> (#[trigger] places_of(names, name)[k])
                < names.len(),
    decreases names.len(),
{
    if names.len() > 0 {
        let rest = names.drop_last();
        places_below(rest, name);
        assert forall|k: int| 0 <= k < places_of(names, name).len() implies (
        #[trigger] places_of(names, name)[k]) < names.len() by {
            if k < places_of(rest, name).len() {
                assert(places_of(names, name)[k] == places_of(rest, name)[k]);
            }
        }
    }
}

/// The places of a group are in order, each once, and as many as there are
/// samples of that name; a sample without a name counts under a mark.
pub proof fn places_are_in_order(names: Seq<Seq<char>>, name: Seq<char>, raw: Seq<char>)
    requires
        names.len() <= usize::MAX,
    ensures
        places_of(names, name).len() == names.filter(|n: Seq<char>| n == name).len(),
        forall|i: int, j: int|
            0 <= i < j < places_of(names, name).len() ==> #[trigger] places_of(names, name)[i]
                < #[trigger] places_of(names, name)[j],
        forall|i: int|
            0 <= i < places_of(names, name).len() ==> (#[trigger] places_of(names, name)[i])
                < names.len() && names[places_of(names, name)[i] as int] == name,
        raw.len() > 0 ==> group_name(raw) == raw,
        raw.len() == 0 ==> group_name(raw) == seq!['?'],
    decreases names.len(),
{
    reveal(Seq::filter);
    reveal_strlit("?");
    assert("?"@ =~= seq!['?']);
    if names.len() > 0 {
        let rest = names.drop_last();
        places_are_in_order(rest, name, raw);
        assert forall|i: int| 0 <= i < rest.len() implies rest[i] == #[trigger] names[i] by {}
        let was = places_of(rest, name);
        let now = places_of(names, name);
        assert forall|i: int| 0 <= i < now.len() implies (#[trigger] now[i]) < names.len()
            && names[now[i] as int] == name by {
            if i < was.len() {
                assert(now[i] == was[i]);
                assert(names[was[i] as int] == rest[was[i] as int]);
            }
        }
        assert forall|i: int, j: int| 0 <= i < j < now.len() implies #[trigger] now[i]
            < #[trigger] now[j] by {
            assert(now[i] == was[i]);
            if j < was.len() {
                assert(now[j] == was[j]);
            }
        }
    }
}

/// What was used in the last five hours is in the window, and nothing older.
pub proof fn window_is_five_hours(ts: u64, now: u64)
    ensures
        in_window(ts, now) <==> now <= ts + 5 * 60 * 60,
{
}

/// Samples are grouped by name: there is a group for each name that occurs,
/// and it holds exactly the places of the samples of that name.
pub proof fn groups_hold_their_samples(
    names: Seq<Seq<char>>,
    groups: Map<Seq<char>, Vec<usize>>,
    i: int,
)
    requires
        groups_of(names, groups),
        0 <= i < names.len() <= usize::MAX,
    ensures
        groups.dom().contains(names[i]),
        groups[names[i]]@.contains(i as usize),
        forall|k: Seq<char>| #[trigger]
            groups.dom().contains(k) && k != names[i] ==> !groups[k]@.contains(i as usize),
        forall|k: Seq<char>| #[trigger] groups.dom().contains(k) ==> names.contains(k),
{
    assert(names.contains(names[i]));
    places_are_exact(names, names[i], i);
    assert forall|k: Seq<char>| #[trigger]
        groups.dom().contains(k) && k != names[i] implies !groups[k]@.contains(i as usize) by {
        assert(names.contains(k));
        places_are_exact(names, k, i);
    }
}

} // verus!
