//! The registry of extension modules: modules that an embedding program adds
//! by name, each with the factory that makes it when a script imports it.
use vstd::prelude::*;
use crate::text::str_eq;

verus! {

/// The map from names to factories that a list of registrations makes, a
/// later registration of a name replacing an earlier one.
pub open spec fn entries_map<F>(s: Seq<(String, F)>) -> Map<Seq<char>, F>
    decreases s.len(),
{
    if s.len() == 0 {
        Map::empty()
    } else {
        entries_map(s.drop_last()).insert(s.last().0@, s.last().1)
    }
}

/// No name occurs twice.
pub open spec fn distinct_names<F>(s: Seq<(String, F)>) -> bool {
    forall|i: int, j: int| 0 <= i < j < s.len() ==> s[i].0@ != s[j].0@
}

/// A name is registered exactly when some entry carries it.
pub proof fn lemma_entries_dom<F>(s: Seq<(String, F)>, k: Seq<char>)
    ensures
        entries_map(s).dom().contains(k) <==> exists|i: int| 0 <= i < s.len() && s[i].0@ == k,
    decreases s.len(),
{
    if s.len() > 0 {
        lemma_entries_dom(s.drop_last(), k);
        if entries_map(s).dom().contains(k) && s.last().0@ != k {
            let i = choose|i: int| 0 <= i < s.len() - 1 && s.drop_last()[i].0@ == k;
            assert(s[i].0@ == k);
        }
        if exists|i: int| 0 <= i < s.len() && s[i].0@ == k {
            let i = choose|i: int| 0 <= i < s.len() && s[i].0@ == k;
            if i < s.len() - 1 {
                assert(s.drop_last()[i].0@ == k);
            }
        }
    }
}

/// With distinct names, each entry is what its name maps to.
pub proof fn lemma_entries_at<F>(s: Seq<(String, F)>, i: int)
    requires
        distinct_names(s),
        0 <= i < s.len(),
    ensures
        entries_map(s).dom().contains(s[i].0@),
        entries_map(s)[s[i].0@] == s[i].1,
    decreases s.len(),
{
    if i < s.len() - 1 {
        assert(distinct_names(s.drop_last()));
        lemma_entries_at(s.drop_last(), i);
        assert(s.drop_last()[i] == s[i]);
        assert(s.last().0@ != s[i].0@);
    }
}

/// Replacing the factory of an entry under the same name is an insert into
/// the map, and keeps the names distinct.
pub proof fn lemma_entries_update<F>(s: Seq<(String, F)>, i: int, key: String, f: F)
    requires
        distinct_names(s),
        0 <= i < s.len(),
        key@ == s[i].0@,
    ensures
        entries_map(s.update(i, (key, f))) == entries_map(s).insert(key@, f),
        distinct_names(s.update(i, (key, f))),
    decreases s.len(),
{
    let u = s.update(i, (key, f));
    if i == s.len() - 1 {
        assert(u.drop_last() =~= s.drop_last());
        lemma_entries_dom(s.drop_last(), s[i].0@);
        assert(entries_map(u) =~= entries_map(s).insert(s[i].0@, f));
    } else {
        assert(distinct_names(s.drop_last()));
        lemma_entries_update(s.drop_last(), i, key, f);
        assert(u.drop_last() =~= s.drop_last().update(i, (key, f)));
        assert(u.last() == s.last());
        assert(s.last().0@ != s[i].0@);
        assert(entries_map(u) =~= entries_map(s).insert(s[i].0@, f));
    }
}

/// The registered extension modules, each name with its factory.
pub struct ExtensionRegistry<F> {
    entries: Vec<(String, F)>,
}

impl<F> View for ExtensionRegistry<F> {
    type V = Map<Seq<char>, F>;

    closed spec fn view(&self) -> Map<Seq<char>, F> {
        entries_map(self.entries@)
    }
}

impl<F> ExtensionRegistry<F> {
    /// The registry's invariant: a name is registered at most once.
    pub closed spec fn wf(&self) -> bool {
        distinct_names(self.entries@)
    }

    /// An empty registry.
    pub fn new() -> (res: Self)
        ensures
            res.wf(),
            res@ == Map::<Seq<char>, F>::empty(),
    {
        ExtensionRegistry { entries: Vec::new() }
    }

    /// Where `name` is registered.
    fn find(&self, name: &str) -> (res: Option<usize>)
        ensures
            match res {
                Some(i) => i < self.entries@.len() && self.entries@[i as int].0@ == name@,
                None => forall|i: int|
                    0 <= i < self.entries@.len() ==> self.entries@[i].0@ != name@,
            },
    {
        let n = self.entries.len();
        let mut i: usize = 0;
        while i < n
            invariant
                n == self.entries@.len(),
                i <= n,
                forall|j: int| 0 <= j < i ==> self.entries@[j].0@ != name@,
            decreases n - i,
        {
            if str_eq(self.entries[i].0.as_str(), name) {
                return Some(i);
            }
            i = i + 1;
        }
        None
    }

    /// Registers `factory` under `name`, replacing what was registered
    /// under that name.
    pub fn register_extension_module(&mut self, name: &str, factory: F)
        requires
            old(self).wf(),
        ensures
            final(self).wf(),
            final(self)@ == old(self)@.insert(name@, factory),
    {
        match self.find(name) {
            Some(i) => {
                let ghost s = self.entries@;
                let key = String::from_str(name);
                let ghost k = key;
                self.entries.set(i, (key, factory));
                proof {
                    lemma_entries_update(s, i as int, k, factory);
                    assert(self.entries@ =~= s.update(i as int, (k, factory)));
                }
            },
            None => {
                let ghost s = self.entries@;
                self.entries.push((String::from_str(name), factory));
                proof {
                    assert(self.entries@.drop_last() =~= s);
                    assert(distinct_names(self.entries@));
                }
            },
        }
    }

    /// Whether a module is registered under `name`.
    pub fn is_extension_module(&self, name: &str) -> (res: bool)
        requires
            self.wf(),
        ensures
            res == self@.dom().contains(name@),
    {
        proof {
            lemma_entries_dom(self.entries@, name@);
        }
        self.find(name).is_some()
    }

    /// The factory registered under `name`, if any.
    pub fn get_extension_module(&self, name: &str) -> (res: Option<&F>)
        requires
            self.wf(),
        ensures
            match res {
                Some(f) => self@.dom().contains(name@) && *f == self@[name@],
                None => !self@.dom().contains(name@),
            },
    {
        proof {
            lemma_entries_dom(self.entries@, name@);
        }
        match self.find(name) {
            Some(i) => {
                proof {
                    lemma_entries_at(self.entries@, i as int);
                }
                Some(&self.entries[i].1)
            },
            None => None,
        }
    }
}

/// A module registered under a name is found under that name, with the
/// factory it was registered with; registering it leaves every other name
/// as it was.
pub proof fn lemma_register_then_lookup<F>(
    before: Map<Seq<char>, F>,
    name: Seq<char>,
    factory: F,
    other: Seq<char>,
)
    ensures
        before.insert(name, factory).dom().contains(name),
        before.insert(name, factory)[name] == factory,
        other != name ==> (before.insert(name, factory).dom().contains(other)
            == before.dom().contains(other)),
        other != name && before.dom().contains(other) ==> before.insert(name, factory)[other]
            == before[other],
{
}

} // verus!
