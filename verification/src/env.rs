//! A snapshot of the process environment and lookups in it.

use vstd::prelude::*;

verus! {

/// Variables of the process environment, taken once by the caller. Setting
/// a name again replaces its value.
#[derive(Debug)]
pub struct Environment {
    vars: Vec<(String, String)>,
}

/// Whether `i` is the first place in `pairs` at which `key` stands.
pub open spec fn is_first(pairs: Seq<(Seq<char>, Seq<char>)>, i: int, key: Seq<char>) -> bool {
    &&& 0 <= i < pairs.len()
    &&& pairs[i].0 == key
    &&& forall|j: int| 0 <= j < i ==> (#[trigger] pairs[j]).0 != key
}

/// The variables that a list of pairs defines: for each name the value of
/// the first pair that has it.
pub open spec fn bindings(pairs: Seq<(Seq<char>, Seq<char>)>) -> Map<Seq<char>, Seq<char>> {
    Map::new(
        |key: Seq<char>| exists|i: int| is_first(pairs, i, key),
        |key: Seq<char>| pairs[choose|i: int| is_first(pairs, i, key)].1,
    )
}

proof fn lemma_first_is_unique(pairs: Seq<(Seq<char>, Seq<char>)>, i: int, j: int, key: Seq<char>)
    requires
        is_first(pairs, i, key),
        is_first(pairs, j, key),
    ensures
        i == j,
{
}

proof fn lemma_bound(pairs: Seq<(Seq<char>, Seq<char>)>, i: int, key: Seq<char>)
    requires
        is_first(pairs, i, key),
    ensures
        bindings(pairs).contains_key(key),
        bindings(pairs)[key] == pairs[i].1,
{
    let j = choose|j: int| is_first(pairs, j, key);
    lemma_first_is_unique(pairs, i, j, key);
}

proof fn lemma_unbound(pairs: Seq<(Seq<char>, Seq<char>)>, key: Seq<char>)
    requires
        forall|j: int| 0 <= j < pairs.len() ==> (#[trigger] pairs[j]).0 != key,
    ensures
        !bindings(pairs).contains_key(key),
{
}

proof fn lemma_other_names(
    before: Seq<(Seq<char>, Seq<char>)>,
    after: Seq<(Seq<char>, Seq<char>)>,
    at: int,
    key: Seq<char>,
    other: Seq<char>,
)
    requires
        0 <= at <= before.len(),
        after.len() == if at < before.len() { before.len() } else { before.len() + 1 },
        forall|j: int| 0 <= j < after.len() && j != at ==> after[j] == before[j],
        after[at].0 == key,
        at < before.len() ==> before[at].0 == key,
        other != key,
    ensures
        bindings(after).contains_key(other) == bindings(before).contains_key(other),
        bindings(before).contains_key(other) ==> bindings(after)[other] == bindings(before)[other],
{
    if bindings(before).contains_key(other) {
        let i = choose|i: int| is_first(before, i, other);
        lemma_bound(after, i, other);
        lemma_bound(before, i, other);
    }
    if bindings(after).contains_key(other) {
        let i = choose|i: int| is_first(after, i, other);
        lemma_bound(before, i, other);
    }
}

impl View for Environment {
    type V = Map<Seq<char>, Seq<char>>;

    closed spec fn view(&self) -> Map<Seq<char>, Seq<char>> {
        bindings(self.vars.deep_view())
    }
}

impl Environment {
    /// An environment without variables.
    pub fn new() -> (env: Environment)
        ensures
            env@ == Map::<Seq<char>, Seq<char>>::empty(),
    {
        Environment { vars: Vec::new() }
    }

    fn position(&self, key: &str) -> (found: Option<usize>)
        ensures
            match found {
                Some(i) => is_first(self.vars.deep_view(), i as int, key@),
                None => forall|j: int|
                    0 <= j < self.vars.deep_view().len() ==> (#[trigger] self.vars.deep_view()[j]).0
                        != key@,
            },
    {
        let wanted = String::from_str(key);
        let mut i: usize = 0;
        while i < self.vars.len()
            invariant
                wanted@ == key@,
                i <= self.vars.len(),
                self.vars.deep_view().len() == self.vars.len(),
                forall|j: int| 0 <= j < i ==> (#[trigger] self.vars.deep_view()[j]).0 != key@,
            decreases self.vars.len() - i,
        {
            let name: &String = &self.vars[i].0;
            if *name == wanted {
                return Some(i);
            }
            i = i + 1;
        }
        None
    }

    /// Gives the variable `key` the value `value`.
    pub fn set(&mut self, key: &str, value: &str)
        ensures
            final(self)@ == old(self)@.insert(key@, value@),
    {
        let found = self.position(key);
        let ghost before = self.vars.deep_view();
        match found {
            Some(i) => {
                self.vars.set(i, (String::from_str(key), String::from_str(value)));
            },
            None => {
                self.vars.push((String::from_str(key), String::from_str(value)));
            },
        }
        proof {
            let after = self.vars.deep_view();
            let at: int = match found {
                Some(i) => i as int,
                None => before.len() as int,
            };
            assert forall|j: int| 0 <= j < after.len() && j != at implies after[j]
                == before[j] by {}
            assert(is_first(after, at, key@));
            lemma_bound(after, at, key@);
            let target = old(self)@.insert(key@, value@);
            assert forall|k: Seq<char>| self@.contains_key(k) == target.contains_key(k) by {
                if k != key@ {
                    lemma_other_names(before, after, at, key@, k);
                }
            }
            assert forall|k: Seq<char>| #[trigger] self@.contains_key(k) implies self@[k]
                == target[k] by {
                if k != key@ {
                    lemma_other_names(before, after, at, key@, k);
                }
            }
        }
    }
}

/// The value of the variable `key`, if the environment has it.
pub fn lookup(env: &Environment, key: &str) -> (value: Option<String>)
    ensures
        match value {
            Some(text) => env@.contains_key(key@) && text@ == env@[key@],
            None => !env@.contains_key(key@),
        },
{
    match env.position(key) {
        Some(i) => {
            proof {
                lemma_bound(env.vars.deep_view(), i as int, key@);
            }
            Some(env.vars[i].1.clone())
        },
        None => {
            proof {
                lemma_unbound(env.vars.deep_view(), key@);
            }
            None
        },
    }
}

/// What [`get_with_default`] returns.
pub open spec fn value_or(env: Map<Seq<char>, Seq<char>>, key: Seq<char>, default: Seq<char>) -> Seq<
    char,
> {
    if env.contains_key(key) {
        env[key]
    } else {
        default
    }
}

/// The value of the variable `key`, or `default` if the environment does
/// not have it.
pub fn get_with_default(env: &Environment, key: &str, default: &str) -> (value: String)
    ensures
        value@ == value_or(env@, key@, default@),
{
    match lookup(env, key) {
        Some(value) => value,
        None => String::from_str(default),
    }
}

/// The value of the variable `key`, or the empty text if the environment
/// does not have it.
pub fn get(env: &Environment, key: &str) -> (value: String)
    ensures
        value@ == value_or(env@, key@, Seq::empty()),
{
    proof {
        reveal_strlit("");
    }
    let value = get_with_default(env, key, "");
    value
}

} // verus!
