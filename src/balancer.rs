use vstd::prelude::*;
use vstd::string::StrSliceExecFns;
use vstd::string::StringExecFns;

verus! {

/// The selection strategies that a configuration can name.
#[derive(Debug, Clone, Copy, PartialEq, Eq, Structural)]
pub enum LoadBalancerType {
    Random,
}

/// What `str::to_lowercase` makes of a text.
pub uninterp spec fn lower_of(s: Seq<char>) -> Seq<char>;

/// Relies on `str::to_lowercase`: the lower-case form of the text, which
/// depends on its characters alone.
#[verifier::external_body]
fn lowercase(s: &str) -> (r: String)
    ensures
        r@ == lower_of(s@),
{
    s.to_lowercase()
}

pub open spec fn random_name() -> Seq<char> {
    seq!['r', 'a', 'n', 'd', 'o', 'm']
}

/// The error for an identifier whose lower-case form is `l`.
pub open spec fn unknown_message(l: Seq<char>) -> Seq<char> {
    "Unknown load balancer type: '"@ + l + "'"@
}

impl LoadBalancerType {
    /// Reads a strategy identifier, ignoring case. An unknown identifier
    /// gives a message that quotes its lower-case form.
    pub fn from_str(s: &str) -> (r: Result<Self, String>)
        ensures
            match r {
                Ok(t) => lower_of(s@) == random_name() && t == LoadBalancerType::Random,
                Err(e) => lower_of(s@) != random_name() && e@ == unknown_message(lower_of(s@)),
            },
    {
        let l = lowercase(s);
        Self::from_lowercase(l.as_str())
    }

    /// Reads an identifier already in lower case: `random` names the random
    /// strategy; anything else gives a message that quotes it.
    pub fn from_lowercase(l: &str) -> (r: Result<Self, String>)
        ensures
            match r {
                Ok(t) => l@ == random_name() && t == LoadBalancerType::Random,
                Err(e) => l@ != random_name() && e@ == unknown_message(l@),
            },
    {
        let expected: Vec<char> = vec!['r', 'a', 'n', 'd', 'o', 'm'];
        assert(expected@ =~= random_name());
        if l.unicode_len() != 6 {
            return Err(unknown_type(l));
        }
        let mut i: usize = 0;
        while i < 6
            invariant
                i <= 6,
                l@.len() == 6,
                forall|k: int| 0 <= k < i ==> l@[k] == expected@[k],
                expected@ == random_name(),
            decreases 6 - i,
        {
            if l.get_char(i) != expected[i] {
                assert(l@[i as int] != random_name()[i as int]);
                return Err(unknown_type(l));
            }
            i = i + 1;
        }
        assert(l@ =~= random_name());
        Ok(LoadBalancerType::Random)
    }
}

fn unknown_type(l: &str) -> (r: String)
    ensures
        r@ == unknown_message(l@),
{
    let mut message = <String as StringExecFns>::from_str("Unknown load balancer type: '");
    message.append(l);
    message.append("'");
    message
}

/// Relies on `rand::seq::SliceRandom::choose` with the thread-local
/// generator: some element of a non-empty slice, none of an empty one.
#[verifier::external_body]
fn choose_from(items: &[String]) -> (r: Option<String>)
    ensures
        match r {
            Some(x) => exists|i: int| 0 <= i < items@.len() && items@[i]@ == x@,
            None => items@.len() == 0,
        },
{
    rand::seq::SliceRandom::choose(items, &mut rand::thread_rng()).cloned()
}

/// Draws a backend uniformly at random on every call.
#[derive(Debug, Clone)]
pub struct RandomLoadBalancer {
    pub backends: Vec<String>,
}

impl RandomLoadBalancer {
    pub fn new(backends: Vec<String>) -> (r: Self)
        ensures
            r.backends() == backends@,
    {
        RandomLoadBalancer { backends }
    }

    /// The backend addresses this balancer draws from.
    pub open spec fn backends(&self) -> Seq<String> {
        self.backends@
    }

    /// The number of backends this balancer draws from.
    pub fn backend_count(&self) -> (r: usize)
        ensures
            r == self.backends().len(),
    {
        self.backends.len()
    }

    /// One of the configured backends. The list must not be empty: a
    /// validated configuration gives every application a backend.
    pub fn choose_one(&mut self) -> (r: String)
        requires
            old(self).backends().len() > 0,
        ensures
            final(self).backends() == old(self).backends(),
            exists|i: int| 0 <= i < old(self).backends().len() && old(self).backends()[i]@ == r@,
    {
        let r = choose_from(self.backends.as_slice());
        let x = r.unwrap();
        proof {
            let i = choose|i: int| 0 <= i < self.backends@.len() && self.backends@[i]@ == x@;
            assert(old(self).backends()[i]@ == x@);
        }
        x
    }
}

/// A selection strategy instance, one per application.
#[derive(Debug, Clone)]
pub enum LoadBalancer {
    Random(RandomLoadBalancer),
}

impl LoadBalancer {
    /// The strategy that `kind` names, over `backends`.
    pub fn new(kind: LoadBalancerType, backends: Vec<String>) -> (r: Self)
        ensures
            r.backends() == backends@,
    {
        match kind {
            LoadBalancerType::Random => LoadBalancer::Random(RandomLoadBalancer::new(backends)),
        }
    }

    pub open spec fn backends(&self) -> Seq<String> {
        match self {
            LoadBalancer::Random(b) => b.backends(),
        }
    }

    /// The number of backends the strategy draws from.
    pub fn backend_count(&self) -> (r: usize)
        ensures
            r == self.backends().len(),
    {
        match self {
            LoadBalancer::Random(b) => b.backend_count(),
        }
    }

    /// One of the configured backends; the list must not be empty.
    pub fn choose_one(&mut self) -> (r: String)
        requires
            old(self).backends().len() > 0,
        ensures
            final(self).backends() == old(self).backends(),
            exists|i: int| 0 <= i < old(self).backends().len() && old(self).backends()[i]@ == r@,
    {
        match self {
            LoadBalancer::Random(b) => {
                let x = b.choose_one();
                proof {
                    let i = choose|i: int| 0 <= i < b.backends().len() && b.backends()[i]@ == x@;
                    assert(old(self).backends()[i]@ == x@);
                }
                x
            },
        }
    }
}

} // verus!
