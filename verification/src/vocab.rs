//! The bidirectional mapping between token strings and dense identifiers.
//!
//! Identifiers are the positions of the strings in one vector, so the
//! mapping is a bijection by construction as long as the strings stay
//! pairwise distinct; `wf` states exactly that.

use vstd::prelude::*;

verus! {

/// A vocabulary: token string -> dense id and its exact inverse.
///
/// The id of a token is its index in `tokens`; every id in `[0, len)` names
/// exactly one string, and under `wf` every string has exactly one id.
/// Append-only while training, frozen afterwards.
#[derive(Debug, PartialEq)]
pub struct Vocabulary {
    tokens: Vec<String>,
}

impl Clone for Vocabulary {
    fn clone(&self) -> (v: Vocabulary)
        ensures
            v.strs() == self.strs(),
    {
        let tokens = self.tokens.clone();
        let v = Vocabulary { tokens };
        proof {
            assert forall|i: int| 0 <= i < v.strs().len() implies v.strs()[i]
                == self.strs()[i] by {
                assert(cloned::<String>(self.tokens@[i], v.tokens@[i]));
            }
            assert(v.strs() =~= self.strs());
        }
        v
    }
}

impl Vocabulary {
    /// The mapping as a sequence: position `i` holds the string of id `i`.
    pub closed spec fn strs(self) -> Seq<Seq<char>> {
        self.tokens@.map_values(|s: String| s@)
    }

    /// The bijection invariant: the strings are pairwise distinct, and there
    /// are few enough of them that every id fits in a `u32`.
    pub open spec fn wf(self) -> bool {
        &&& forall|i: int, j: int|
            0 <= i < j < self.strs().len() ==> self.strs()[i] != self.strs()[j]
        &&& self.strs().len() <= u32::MAX
    }

    pub open spec fn spec_contains(self, t: Seq<char>) -> bool {
        exists|i: int| 0 <= i < self.strs().len() && self.strs()[i] == t
    }

    /// The id of a contained string (unique under `wf`).
    pub open spec fn spec_id_of(self, t: Seq<char>) -> int {
        choose|i: int| 0 <= i < self.strs().len() && self.strs()[i] == t
    }

    pub fn new() -> (v: Vocabulary)
        ensures
            v.strs() =~= Seq::<Seq<char>>::empty(),
            v.wf(),
    {
        Vocabulary { tokens: Vec::new() }
    }

    pub fn len(&self) -> (n: usize)
        ensures
            n == self.strs().len(),
    {
        self.tokens.len()
    }

    /// The inverse direction: id -> token string.
    pub fn id_to_token(&self, id: u32) -> (r: Option<String>)
        ensures
            match r {
                Some(s) => id < self.strs().len() && s@ == self.strs()[id as int],
                None => id >= self.strs().len(),
            },
    {
        if (id as usize) < self.tokens.len() {
            Some(self.tokens[id as usize].clone())
        } else {
            None
        }
    }

    /// The forward direction: token string -> id.
    pub fn token_to_id(&self, token: &String) -> (r: Option<u32>)
        requires
            self.wf(),
        ensures
            match r {
                Some(id) => {
                    &&& id < self.strs().len()
                    &&& self.strs()[id as int] == token@
                    &&& self.spec_contains(token@)
                },
                None => !self.spec_contains(token@),
            },
    {
        let n = self.tokens.len();
        for i in 0..n
            invariant
                self.wf(),
                n == self.strs().len(),
                forall|k: int| 0 <= k < i ==> self.strs()[k] != token@,
        {
            assert(self.strs()[i as int] == self.tokens@[i as int]@);
            if self.tokens[i] == *token {
                return Some(i as u32);
            }
        }
        None
    }

    /// Insert a token if absent; either way return its id.
    pub fn add(&mut self, token: String) -> (id: u32)
        requires
            old(self).wf(),
            old(self).strs().len() < u32::MAX,
        ensures
            final(self).wf(),
            final(self).spec_contains(token@),
            id < final(self).strs().len(),
            final(self).strs()[id as int] == token@,
            old(self).spec_contains(token@) ==> *final(self) == *old(self),
            !old(self).spec_contains(token@) ==> final(self).strs()
                =~= old(self).strs().push(token@) && id == old(self).strs().len(),
    {
        match self.token_to_id(&token) {
            Some(id) => id,
            None => {
                let id = self.tokens.len() as u32;
                self.tokens.push(token);
                assert(self.strs() =~= old(self).strs().push(self.strs().last()));
                id
            },
        }
    }

    /// The whole mapping as `(token, id)` pairs in id order.
    pub fn to_pairs(&self) -> (r: Vec<(String, u32)>)
        requires
            self.wf(),
        ensures
            r@.len() == self.strs().len(),
            forall|i: int| #![trigger r@[i]]
                0 <= i < r@.len() ==> r@[i].0@ == self.strs()[i] && r@[i].1 == i,
    {
        let mut r: Vec<(String, u32)> = Vec::new();
        let n = self.tokens.len();
        for i in 0..n
            invariant
                self.wf(),
                n == self.strs().len(),
                r@.len() == i,
                forall|k: int| #![trigger r@[k]]
                    0 <= k < i ==> r@[k].0@ == self.strs()[k] && r@[k].1 == k,
        {
            assert(self.strs()[i as int] == self.tokens@[i as int]@);
            let s = self.tokens[i].clone();
            assert(s@ == self.strs()[i as int]);
            r.push((s, i as u32));
            assert(r@[i as int].0@ == self.strs()[i as int]);
            assert(r@[i as int].1 == i as u32);
        }
        r
    }

    /// Under `wf`, ids found by `token_to_id` are the unique witnesses.
    pub proof fn lemma_id_unique(self, i: int, j: int)
        requires
            self.wf(),
            0 <= i < self.strs().len(),
            0 <= j < self.strs().len(),
            self.strs()[i] == self.strs()[j],
        ensures
            i == j,
    {
    }
}

} // verus!
