//! The state registry: operation kinds and the integer codes that stand for
//! them, assigned in the order in which the kinds are first seen.

use vstd::prelude::*;

verus! {

/// The name of the synthetic state that an entity enters when an operation
/// completes.
pub open spec fn waiting_kind() -> Seq<char> {
    "waiting"@
}

/// The registered kinds after `kind` has been seen: a new real kind is
/// appended, a known one and the waiting kind change nothing.
pub open spec fn observe_kind(kinds: Seq<Seq<char>>, kind: Seq<char>) -> Seq<Seq<char>> {
    if kind == waiting_kind() || kinds.contains(kind) {
        kinds
    } else {
        kinds.push(kind)
    }
}

/// The code of `kind`: its position among the registered kinds, or the
/// number of registered kinds, which is the waiting code, where it is not
/// registered.
pub open spec fn code_of(kinds: Seq<Seq<char>>, kind: Seq<char>) -> int {
    if kinds.contains(kind) {
        kinds.index_of(kind)
    } else {
        kinds.len() as int
    }
}

/// The real kinds seen so far, in first-seen order. The code of a kind is
/// its position; the waiting state takes the code after the last real kind.
#[derive(Debug)]
pub struct StateRegistry {
    kinds: Vec<String>,
}

impl View for StateRegistry {
    type V = Seq<Seq<char>>;

    /// The names of the registered kinds, by code.
    closed spec fn view(&self) -> Seq<Seq<char>> {
        Seq::new(self.kinds@.len(), |i: int| self.kinds@[i]@)
    }
}

/// Whether `kind` names the waiting state.
pub fn is_waiting(kind: &String) -> (yes: bool)
    ensures
        yes == (kind@ == waiting_kind()),
{
    let waiting: String = "waiting".to_owned();
    *kind == waiting
}

impl StateRegistry {
    /// No kind is registered twice, and the waiting kind is never
    /// registered as a real kind.
    pub open spec fn wf(&self) -> bool {
        self@.no_duplicates() && !self@.contains(waiting_kind())
    }

    /// A registry with no kinds.
    pub fn new() -> (registry: StateRegistry)
        ensures
            registry@ == Seq::<Seq<char>>::empty(),
            registry.wf(),
    {
        let registry = StateRegistry { kinds: Vec::new() };
        assert(registry@ =~= Seq::<Seq<char>>::empty());
        registry
    }

    /// The number of real kinds.
    pub fn len(&self) -> (n: usize)
        ensures
            n == self@.len(),
    {
        self.kinds.len()
    }

    /// The code of the waiting state: the number of real kinds.
    pub fn waiting_code(&self) -> (code: usize)
        ensures
            code == self@.len(),
            self.wf() ==> code == code_of(self@, waiting_kind()),
    {
        self.kinds.len()
    }

    /// The first position at which `kind` is registered, if any.
    pub fn position(&self, kind: &String) -> (found: Option<usize>)
        ensures
            match found {
                Some(at) => at < self@.len() && self@[at as int] == kind@ && forall|k: int|
                    0 <= k < at ==> self@[k] != kind@,
                None => !self@.contains(kind@),
            },
    {
        let mut i: usize = 0;
        while i < self.kinds.len()
            invariant
                i <= self.kinds@.len(),
                self@.len() == self.kinds@.len(),
                forall|k: int| 0 <= k < i ==> self@[k] != kind@,
            decreases self.kinds@.len() - i,
        {
            if self.kinds[i] == *kind {
                return Some(i);
            }
            i += 1;
        }
        None
    }

    /// The code that events of `kind` carry.
    pub fn code(&self, kind: &String) -> (code: usize)
        requires
            self.wf(),
        ensures
            code == code_of(self@, kind@),
            code <= self@.len(),
    {
        match self.position(kind) {
            Some(at) => at,
            None => self.kinds.len(),
        }
    }

    /// Records that an operation of `kind` was seen.
    pub fn observe(&mut self, kind: &String)
        requires
            old(self).wf(),
        ensures
            final(self)@ == observe_kind(old(self)@, kind@),
            final(self).wf(),
    {
        if !is_waiting(kind) {
            if self.position(kind).is_none() {
                let ghost before = self@;
                self.kinds.push(kind.clone());
                assert(self@ =~= before.push(kind@));
            }
        }
    }

    /// The real kind that has the given code.
    pub fn real_kind(&self, code: usize) -> (name: &String)
        requires
            code < self@.len(),
        ensures
            name@ == self@[code as int],
    {
        &self.kinds[code]
    }

    /// The name of the state with the given code: a real kind, the waiting
    /// state for the code after the last real kind, and nothing beyond.
    pub fn kind_name(&self, code: usize) -> (name: Option<String>)
        ensures
            code < self@.len() ==> (name matches Some(s) && s@ == self@[code as int]),
            code == self@.len() ==> (name matches Some(s) && s@ == waiting_kind()),
            code > self@.len() ==> name is None,
    {
        if code < self.kinds.len() {
            Some(self.kinds[code].clone())
        } else if code == self.kinds.len() {
            Some("waiting".to_owned())
        } else {
            None
        }
    }
}

} // verus!
