//! A snapshot of environment variables, taken once by the caller and consulted
//! by the substitution engine.  Lookup returns the value of the first entry
//! whose name matches.

use vstd::prelude::*;

use crate::text::str_eq;

verus! {

/// The value bound to `name` in `env`: the second component of the first pair
/// whose first component equals `name`, or `None` when no pair matches.
pub open spec fn env_value(env: Seq<(Seq<char>, Seq<char>)>, name: Seq<char>) -> Option<
    Seq<char>,
>
    decreases env.len(),
{
    if env.len() == 0 {
        None
    } else if env[0].0 == name {
        Some(env[0].1)
    } else {
        env_value(env.drop_first(), name)
    }
}

/// A set of name/value bindings, usually a snapshot of the process
/// environment supplied by the caller.
pub struct EnvMap {
    entries: Vec<(String, String)>,
}

impl View for EnvMap {
    type V = Seq<(Seq<char>, Seq<char>)>;

    closed spec fn view(&self) -> Seq<(Seq<char>, Seq<char>)> {
        self.entries@.map_values(|p: (String, String)| (p.0@, p.1@))
    }
}

impl EnvMap {
    /// An empty set of bindings.
    pub fn new() -> (r: EnvMap)
        ensures
            r@ =~= Seq::<(Seq<char>, Seq<char>)>::empty(),
    {
        EnvMap { entries: Vec::new() }
    }

    /// Adds a binding after the existing ones; an earlier binding of the same
    /// name keeps precedence.
    pub fn push(&mut self, name: String, value: String)
        ensures
            final(self)@ =~= old(self)@.push((name@, value@)),
    {
        let ghost before = self@;
        self.entries.push((name, value));
        proof {
            assert(self@ =~= before.push((name@, value@)));
        }
    }

    /// The value bound to `name`, per `env_value`.
    pub fn lookup<'a>(&'a self, name: &str) -> (r: Option<&'a String>)
        ensures
            match r {
                Some(v) => env_value(self@, name@) == Some::<Seq<char>>(v@),
                None => env_value(self@, name@) is None,
            },
    {
        let n = self.entries.len();
        let mut k: usize = 0;
        proof {
            assert(self@.skip(0) =~= self@);
        }
        while k < n
            invariant
                k <= n,
                n == self.entries.len(),
                self@.len() == n,
                forall|j: int| 0 <= j < n ==> self@[j] == (self.entries@[j].0@, self.entries@[j].1@),
                env_value(self@, name@) == env_value(self@.skip(k as int), name@),
            decreases n - k,
        {
            let entry = &self.entries[k];
            if str_eq(entry.0.as_str(), name) {
                proof {
                    assert(self@.skip(k as int)[0] == self@[k as int]);
                    assert(env_value(self@.skip(k as int), name@) == Some(entry.1@));
                }
                return Some(&entry.1);
            }
            proof {
                assert(self@.skip(k as int)[0] == self@[k as int]);
                assert(self@.skip(k as int).drop_first() =~= self@.skip(k as int + 1));
            }
            k += 1;
        }
        proof {
            assert(self@.skip(n as int) =~= Seq::<(Seq<char>, Seq<char>)>::empty());
        }
        None
    }
}

} // verus!
