//! The variables of a run and the environment that is resolved from them.
//!
//! The variables are held in a store of their own, so that nothing depends
//! on the environment of the process. A name is defined at most once: the
//! first definition stays, and a later one for the same name is dropped.
//! The store of a run is filled from the process first and from the env file
//! second, so the process decides wherever both define a name: see
//! [`variables_of`].
//!
//! Resolving looks up each permitted name in the store. A name without a
//! value is left out; it is not given an empty value.

use vstd::prelude::*;

verus! {

/// The store `vars` once `name` is defined as `value`: a name that is
/// already defined keeps its value.
pub open spec fn define(vars: Map<Seq<char>, Seq<char>>, name: Seq<char>, value: Seq<char>) -> Map<
    Seq<char>,
    Seq<char>,
> {
    if vars.contains_key(name) {
        vars
    } else {
        vars.insert(name, value)
    }
}

/// The store `vars` once `definitions` are made in order.
pub open spec fn load(
    vars: Map<Seq<char>, Seq<char>>,
    definitions: Seq<(Seq<char>, Seq<char>)>,
) -> Map<Seq<char>, Seq<char>>
    decreases definitions.len(),
{
    if definitions.len() == 0 {
        vars
    } else {
        define(
            load(vars, definitions.drop_last()),
            definitions.last().0,
            definitions.last().1,
        )
    }
}

/// The environment that `names` resolve to in `vars`: each name that has a
/// value, with that value, once, in the order in which the names first
/// stand in `names`.
pub open spec fn resolved(names: Seq<Seq<char>>, vars: Map<Seq<char>, Seq<char>>) -> Seq<
    (Seq<char>, Seq<char>),
>
    decreases names.len(),
{
    if names.len() == 0 {
        Seq::empty()
    } else {
        let earlier = resolved(names.drop_last(), vars);
        let name = names.last();
        if vars.contains_key(name) && !names.drop_last().contains(name) {
            earlier.push((name, vars[name]))
        } else {
            earlier
        }
    }
}

/// The names of the entries of `env`, in order.
pub open spec fn names_of(env: Seq<(Seq<char>, Seq<char>)>) -> Seq<Seq<char>> {
    env.map_values(|entry: (Seq<char>, Seq<char>)| entry.0)
}

/// A store of variables: names with their values.
#[derive(Clone, Debug)]
pub struct Variables {
    entries: Vec<(String, String)>,
}

impl View for Variables {
    type V = Map<Seq<char>, Seq<char>>;

    closed spec fn view(&self) -> Map<Seq<char>, Seq<char>> {
        load(Map::empty(), self.entries.deep_view())
    }
}

/// A name that no definition names is not defined by them.
proof fn lemma_load_undefined(definitions: Seq<(Seq<char>, Seq<char>)>, name: Seq<char>)
    requires
        forall|j: int| 0 <= j < definitions.len() ==> definitions[j].0 != name,
    ensures
        !load(Map::empty(), definitions).contains_key(name),
    decreases definitions.len(),
{
    if definitions.len() > 0 {
        lemma_load_undefined(definitions.drop_last(), name);
    }
}

/// A name has the value of the first definition that names it.
proof fn lemma_load_first(definitions: Seq<(Seq<char>, Seq<char>)>, name: Seq<char>, first: int)
    requires
        0 <= first < definitions.len(),
        definitions[first].0 == name,
        forall|j: int| 0 <= j < first ==> definitions[j].0 != name,
    ensures
        load(Map::empty(), definitions).contains_key(name),
        load(Map::empty(), definitions)[name] == definitions[first].1,
    decreases definitions.len(),
{
    if first == definitions.len() - 1 {
        lemma_load_undefined(definitions.drop_last(), name);
    } else {
        lemma_load_first(definitions.drop_last(), name, first);
    }
}

impl Variables {
    /// The store in which nothing is defined.
    pub fn new() -> (r: Variables)
        ensures
            r@ == Map::<Seq<char>, Seq<char>>::empty(),
    {
        Variables { entries: Vec::new() }
    }

    /// The value of `name`, where it has one.
    pub fn get(&self, name: &str) -> (r: Option<String>)
        ensures
            match r {
                Some(value) => self@.contains_key(name@) && self@[name@] == value@,
                None => !self@.contains_key(name@),
            },
    {
        let key = name.to_owned();
        let mut i: usize = 0;
        while i < self.entries.len()
            invariant
                i <= self.entries.len(),
                key@ == name@,
                forall|j: int| 0 <= j < i ==> self.entries.deep_view()[j].0 != name@,
            decreases self.entries.len() - i,
        {
            if self.entries[i].0 == key {
                proof {
                    lemma_load_first(self.entries.deep_view(), name@, i as int);
                }
                return Some(self.entries[i].1.clone());
            }
            i += 1;
        }
        proof {
            lemma_load_undefined(self.entries.deep_view(), name@);
        }
        None
    }

    /// Defines `name` as `value`, unless `name` is defined already.
    pub fn define(&mut self, name: &str, value: &str)
        ensures
            final(self)@ == define(old(self)@, name@, value@),
    {
        if self.get(name).is_none() {
            let ghost before = self.entries.deep_view();
            self.entries.push((name.to_owned(), value.to_owned()));
            assert(self.entries.deep_view().drop_last() =~= before);
        }
    }

    /// Makes `definitions` in order: see [`Variables::define`].
    pub fn load(&mut self, definitions: &Vec<(String, String)>)
        ensures
            final(self)@ == load(old(self)@, definitions.deep_view()),
    {
        let mut i: usize = 0;
        while i < definitions.len()
            invariant
                i <= definitions.len(),
                self@ == load(old(self)@, definitions.deep_view().take(i as int)),
            decreases definitions.len() - i,
        {
            assert(definitions.deep_view().take(i + 1).drop_last() =~= definitions.deep_view().take(
                i as int,
            ));
            self.define(definitions[i].0.as_str(), definitions[i].1.as_str());
            i += 1;
        }
        assert(definitions.deep_view().take(definitions.len() as int) =~= definitions.deep_view());
    }
}

/// The variables of a run: the store that holds the variables of the
/// process first and the entries of the env file second. Where both define
/// a name, the process decides; where the env file defines a name twice, its
/// first entry decides.
pub fn variables_of(process: &Vec<(String, String)>, env_file: &Vec<(String, String)>) -> (r:
    Variables)
    ensures
        r@ == load(load(Map::empty(), process.deep_view()), env_file.deep_view()),
{
    let mut vars = Variables::new();
    vars.load(process);
    vars.load(env_file);
    vars
}

/// Decides whether `name` stands in `names` before index `end`.
fn named_before(names: &Vec<String>, end: usize, name: &String) -> (r: bool)
    requires
        end <= names.len(),
    ensures
        r == names.deep_view().take(end as int).contains(name@),
{
    let mut j: usize = 0;
    while j < end
        invariant
            j <= end <= names.len(),
            forall|k: int| 0 <= k < j ==> names.deep_view()[k] != name@,
        decreases end - j,
    {
        if names[j] == *name {
            assert(names.deep_view().take(end as int)[j as int] == name@);
            return true;
        }
        j += 1;
    }
    false
}

/// Resolves the permitted `names` in `vars`: see [`resolved`].
pub fn resolve(names: &Vec<String>, vars: &Variables) -> (r: Vec<(String, String)>)
    ensures
        r.deep_view() == resolved(names.deep_view(), vars@),
{
    let mut out: Vec<(String, String)> = Vec::new();
    let mut i: usize = 0;
    while i < names.len()
        invariant
            i <= names.len(),
            out.deep_view() == resolved(names.deep_view().take(i as int), vars@),
        decreases names.len() - i,
    {
        let ghost before = out.deep_view();
        assert(names.deep_view().take(i + 1).drop_last() =~= names.deep_view().take(i as int));
        if !named_before(names, i, &names[i]) {
            if let Some(value) = vars.get(names[i].as_str()) {
                out.push((names[i].clone(), value));
                assert(out.deep_view() =~= before.push((names@[i as int]@, value@)));
            }
        }
        i += 1;
    }
    assert(names.deep_view().take(names.len() as int) =~= names.deep_view());
    out
}

/// A variable without a value is left out: a name that the store does not
/// define is the name of no entry of the resolved environment.
pub proof fn lemma_unresolved_is_omitted(
    names: Seq<Seq<char>>,
    vars: Map<Seq<char>, Seq<char>>,
    name: Seq<char>,
)
    requires
        !vars.contains_key(name),
    ensures
        !names_of(resolved(names, vars)).contains(name),
    decreases names.len(),
{
    let all = resolved(names, vars);
    if names.len() > 0 {
        let earlier = resolved(names.drop_last(), vars);
        lemma_unresolved_is_omitted(names.drop_last(), vars, name);
        assert forall|k: int| 0 <= k < all.len() implies names_of(all)[k] != name by {
            if k < earlier.len() {
                assert(names_of(earlier)[k] == earlier[k].0);
            }
        }
    }
}

/// Every entry of the resolved environment is a permitted name with the
/// value that the store holds for it.
pub proof fn lemma_resolved_entries(
    names: Seq<Seq<char>>,
    vars: Map<Seq<char>, Seq<char>>,
    k: int,
)
    requires
        0 <= k < resolved(names, vars).len(),
    ensures
        names.contains(resolved(names, vars)[k].0),
        vars.contains_key(resolved(names, vars)[k].0),
        resolved(names, vars)[k].1 == vars[resolved(names, vars)[k].0],
    decreases names.len(),
{
    if names.len() > 0 {
        let earlier = resolved(names.drop_last(), vars);
        if k < earlier.len() {
            lemma_resolved_entries(names.drop_last(), vars, k);
            let j = choose|j: int|
                0 <= j < names.drop_last().len() && names.drop_last()[j] == earlier[k].0;
            assert(names[j] == earlier[k].0);
        } else {
            assert(names[names.len() - 1] == names.last());
        }
    }
}

/// Every permitted name that has a value is the name of an entry of the
/// resolved environment.
pub proof fn lemma_resolved_is_complete(
    names: Seq<Seq<char>>,
    vars: Map<Seq<char>, Seq<char>>,
    name: Seq<char>,
)
    requires
        names.contains(name),
        vars.contains_key(name),
    ensures
        names_of(resolved(names, vars)).contains(name),
    decreases names.len(),
{
    let earlier = resolved(names.drop_last(), vars);
    let all = resolved(names, vars);
    if names.drop_last().contains(name) {
        lemma_resolved_is_complete(names.drop_last(), vars, name);
        let k = choose|k: int| 0 <= k < names_of(earlier).len() && names_of(earlier)[k] == name;
        assert(names_of(all)[k] == name);
    } else {
        let j = choose|j: int| 0 <= j < names.len() && names[j] == name;
        if j < names.len() - 1 {
            assert(names.drop_last()[j] == name);
        }
        assert(names_of(all)[all.len() - 1] == name);
    }
}

/// No name stands twice in the resolved environment.
pub proof fn lemma_resolved_names_differ(
    names: Seq<Seq<char>>,
    vars: Map<Seq<char>, Seq<char>>,
    j: int,
    k: int,
)
    requires
        0 <= j < k < resolved(names, vars).len(),
    ensures
        resolved(names, vars)[j].0 != resolved(names, vars)[k].0,
    decreases names.len(),
{
    if names.len() > 0 {
        let earlier = resolved(names.drop_last(), vars);
        if k < earlier.len() {
            lemma_resolved_names_differ(names.drop_last(), vars, j, k);
        } else {
            lemma_resolved_entries(names.drop_last(), vars, j);
        }
    }
}

} // verus!
