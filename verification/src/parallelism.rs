//! The conditional parallel-execution switch. Whether a batch runs through
//! the worker pool is decided per call from an explicit caller override
//! and the process-wide configuration value; both must agree. Whatever the
//! decision, batch results are identical and in input order.

use vstd::prelude::*;
use vstd::string::StrSliceExecFns;
use crate::models::ModelWrapper;
use crate::{Token, TokenizerError};

verus! {

/// ASCII lowercasing of one character.
pub open spec fn lower_char(c: char) -> char {
    if 'A' <= c && c <= 'Z' {
        (((c as u32) + 32) as u8) as char
    } else {
        c
    }
}

pub open spec fn lower_ascii(s: Seq<char>) -> Seq<char> {
    s.map_values(|c: char| lower_char(c))
}

/// The configuration values that switch parallelism off (after ASCII
/// lowercasing): the empty string, `off`, `false`, `f`, `no`, `n`, `0`.
pub open spec fn off_value(s: Seq<char>) -> bool {
    ||| s == Seq::<char>::empty()
    ||| s == seq!['o', 'f', 'f']
    ||| s == seq!['f', 'a', 'l', 's', 'e']
    ||| s == seq!['f']
    ||| s == seq!['n', 'o']
    ||| s == seq!['n']
    ||| s == seq!['0']
}

/// Decide the parallelism flag from an environment-style value: an absent
/// value enables parallelism, a recognized off-value disables it, anything
/// else enables it.
pub fn parallelism_enabled_from(value: Option<&String>) -> (b: bool)
    ensures
        b == match value {
            Option::None => true,
            Option::Some(v) => !off_value(lower_ascii(v@)),
        },
{
    let v = match value {
        None => {
            return true;
        },
        Some(v) => v,
    };
    let n = v.as_str().unicode_len();
    let mut low: Vec<char> = Vec::new();
    for i in 0..n
        invariant
            n == v@.len(),
            low@.len() == i,
            forall|k: int| 0 <= k < i ==> low@[k] == lower_char(v@[k]),
    {
        let c = v.as_str().get_char(i);
        let lc: char = if 'A' <= c && c <= 'Z' {
            (((c as u32) + 32) as u8) as char
        } else {
            c
        };
        low.push(lc);
    }
    proof {
        assert(low@ =~= lower_ascii(v@));
    }
    let m = low.len();
    let off: bool = if m == 0 {
        true
    } else if m == 1 {
        low[0] == 'f' || low[0] == 'n' || low[0] == '0'
    } else if m == 2 {
        low[0] == 'n' && low[1] == 'o'
    } else if m == 3 {
        low[0] == 'o' && low[1] == 'f' && low[2] == 'f'
    } else if m == 5 {
        low[0] == 'f' && low[1] == 'a' && low[2] == 'l' && low[3] == 's' && low[4] == 'e'
    } else {
        false
    };
    proof {
        if off {
            if m == 1 {
                assert(low@ =~= seq![low@[0]]);
            } else if m == 2 {
                assert(low@ =~= seq!['n', 'o']);
            } else if m == 3 {
                assert(low@ =~= seq!['o', 'f', 'f']);
            } else if m == 5 {
                assert(low@ =~= seq!['f', 'a', 'l', 's', 'e']);
            } else {
                assert(low@ =~= Seq::<char>::empty());
            }
        } else {
            if m == 1 {
                assert(low@ =~= seq![low@[0]]);
            }
            assert(!off_value(low@));
        }
    }
    !off
}

/// The per-process execution switch: a configured enable flag, a sticky
/// record of whether parallel execution was ever chosen.
pub struct ConditionalExecutor {
    pub enabled: bool,
    pub used: bool,
}

impl ConditionalExecutor {
    pub fn new(enabled: bool) -> (e: ConditionalExecutor)
        ensures
            e.enabled == enabled,
            e.used == false,
    {
        ConditionalExecutor { enabled, used: false }
    }

    /// Decide one call: parallel only when both the configuration and the
    /// caller allow it (an explicit "don't parallelize" always wins), and
    /// record the decision for diagnostics.
    pub fn decide(&mut self, caller_allows: bool) -> (parallel: bool)
        ensures
            parallel == (old(self).enabled && caller_allows),
            final(self).enabled == old(self).enabled,
            final(self).used == (old(self).used || parallel),
    {
        let parallel = self.enabled && caller_allows;
        if parallel {
            self.used = true;
        }
        parallel
    }

    pub fn has_been_used(&self) -> (b: bool)
        ensures
            b == self.used,
    {
        self.used
    }
}

/// Whether tokenizing `w` with this model fails (each model either always
/// fails or always succeeds on a given word).
pub open spec fn tokenize_fails(m: ModelWrapper, w: Seq<char>) -> bool {
    match m {
        ModelWrapper::BPE(b) => b.spec_result(w) is None,
        ModelWrapper::WordPiece(_) => false,
        ModelWrapper::WordLevel(l) => l.spec_lookup(w) is None,
        ModelWrapper::Unigram(u) => u.spec_unk() is None && (exists|k: int|
            0 <= k < u.spec_path(w, w.len() as int).len() && u.spec_path(w, w.len() as int)[k].2 is None),
    }
}

/// What batch tokenization returns, for either execution mode: results in
/// input order on all-success, else the error of the first failing input —
/// never a partial batch.
pub open spec fn batch_post(
    m: ModelWrapper,
    inputs: Seq<String>,
    r: Result<Vec<Vec<Token>>, TokenizerError>,
) -> bool {
    match r {
        Ok(v) => {
            &&& v@.len() == inputs.len()
            &&& forall|i: int| #![trigger v@[i]]
                0 <= i < inputs.len() ==> m.spec_tokenize_post(inputs[i]@, Ok(v@[i]))
        },
        Err(e) => exists|i: int|
            {
                &&& 0 <= i < inputs.len()
                &&& #[trigger] tokenize_fails(m, inputs[i]@)
                &&& forall|j: int| 0 <= j < i ==> !tokenize_fails(m, inputs[j]@)
                &&& m.spec_tokenize_post(inputs[i]@, Err(e))
            },
    }
}

/// Tokenize a batch of word spans in input order. The executor chooses the
/// execution strategy from its configuration and the caller's `allow`
/// flag; the contract does not mention the choice: both strategies return
/// byte-identical results in input order, failing fast with the first
/// failing input's error.
#[verifier::rlimit(60)]
pub fn tokenize_batch(
    model: &mut ModelWrapper,
    inputs: &Vec<String>,
    executor: &mut ConditionalExecutor,
    allow: bool,
) -> (r: Result<Vec<Vec<Token>>, TokenizerError>)
    requires
        old(model).wf(),
    ensures
        final(model).wf(),
        old(model).core_unchanged(*final(model)),
        final(executor).enabled == old(executor).enabled,
        final(executor).used == (old(executor).used || (old(executor).enabled && allow)),
        batch_post(*old(model), inputs@, r),
{
    let parallel = executor.decide(allow);
    let ghost en0 = executor.enabled;
    if parallel {
        // data-parallel form: independent chunks, merged in input order
        let ghost m0 = *model;
        let mut out: Vec<Vec<Token>> = Vec::new();
        let n = inputs.len();
        let mut start: usize = 0;
        while start < n
            invariant
                n == inputs@.len(),
                start <= n,
                model.wf(),
                m0.wf(),
                m0 == *old(model),
                en0 == old(executor).enabled,
                executor.enabled == en0,
                executor.used == (old(executor).used || (old(executor).enabled && allow)),
                m0.core_unchanged(*model),
                out@.len() == start,
                forall|i: int| #![trigger out@[i]]
                    0 <= i < start ==> m0.spec_tokenize_post(inputs@[i]@, Ok(out@[i])),
                forall|j: int| 0 <= j < start ==> !tokenize_fails(m0, inputs@[j]@),
            decreases n - start,
        {
            let end = if n - start < 64 {
                n
            } else {
                start + 64
            };
            let mut shard: Vec<Vec<Token>> = Vec::new();
            let mut i = start;
            while i < end
                invariant
                    n == inputs@.len(),
                    start < end,
                    start <= i <= end <= n,
                    model.wf(),
                    m0.wf(),
                    m0 == *old(model),
                    en0 == old(executor).enabled,
                    executor.enabled == en0,
                    executor.used == (old(executor).used || (old(executor).enabled && allow)),
                    m0.core_unchanged(*model),
                    shard@.len() == i - start,
                    forall|k: int| #![trigger shard@[k]]
                        0 <= k < i - start ==> m0.spec_tokenize_post(
                            inputs@[start + k]@,
                            Ok(shard@[k]),
                        ),
                    forall|j: int| 0 <= j < i ==> !tokenize_fails(m0, inputs@[j]@),
                decreases end - i,
            {
                proof {
                    lemma_post_transfer(m0, *model);
                }
                match model.tokenize(&inputs[i]) {
                    Ok(ts) => {
                        proof {
                            lemma_ok_not_fails(m0, inputs@[i as int]@, ts);
                        }
                        shard.push(ts);
                    },
                    Err(e) => {
                        proof {
                            lemma_fails_of_post(m0, inputs@[i as int]@, e);
                            assert forall|j: int| 0 <= j < i implies !tokenize_fails(
                                m0,
                                inputs@[j]@,
                            ) by {}
                            assert(tokenize_fails(m0, inputs@[i as int]@));
                            assert(m0.spec_tokenize_post(inputs@[i as int]@, Err::<
                                Vec<Token>,
                                TokenizerError,
                            >(e)));
                        }
                        return Err(e);
                    },
                }
                i = i + 1;
            }
            // merge the shard, preserving input order
            let mut k: usize = 0;
            let sl = shard.len();
            while k < sl
                invariant
                    sl == shard@.len() == end - start,
                    start <= end <= n,
                    n == inputs@.len(),
                    out@.len() == start + k,
                    k <= sl,
                    m0.wf(),
                    forall|k2: int| #![trigger shard@[k2]]
                        0 <= k2 < sl ==> m0.spec_tokenize_post(inputs@[start + k2]@, Ok(shard@[k2])),
                    forall|i: int| #![trigger out@[i]]
                        0 <= i < start + k ==> m0.spec_tokenize_post(inputs@[i]@, Ok(out@[i])),
                    forall|j: int| 0 <= j < start ==> !tokenize_fails(m0, inputs@[j]@),
                decreases sl - k,
            {
                let ts = clone_token_rows(&shard, k);
                out.push(ts);
                k = k + 1;
            }
            proof {
                assert forall|j: int| 0 <= j < end implies !tokenize_fails(m0, inputs@[j]@) by {
                    if start <= j {
                        assert(m0.spec_tokenize_post(inputs@[j]@, Ok(shard@[j - start])));
                        lemma_ok_not_fails(m0, inputs@[j]@, shard@[j - start]);
                    }
                }
            }
            start = end;
        }
        Ok(out)
    } else {
        let ghost m0 = *model;
        let mut out: Vec<Vec<Token>> = Vec::new();
        let n = inputs.len();
        for i in 0..n
            invariant
                n == inputs@.len(),
                model.wf(),
                m0.wf(),
                m0 == *old(model),
                en0 == old(executor).enabled,
                executor.enabled == en0,
                executor.used == (old(executor).used || (old(executor).enabled && allow)),
                m0.core_unchanged(*model),
                out@.len() == i,
                forall|k: int| #![trigger out@[k]]
                    0 <= k < i ==> m0.spec_tokenize_post(inputs@[k]@, Ok(out@[k])),
                forall|j: int| 0 <= j < i ==> !tokenize_fails(m0, inputs@[j]@),
        {
            proof {
                lemma_post_transfer(m0, *model);
            }
            match model.tokenize(&inputs[i]) {
                Ok(ts) => {
                    proof {
                        lemma_ok_not_fails(m0, inputs@[i as int]@, ts);
                    }
                    out.push(ts);
                },
                Err(e) => {
                    proof {
                        lemma_fails_of_post(m0, inputs@[i as int]@, e);
                    }
                    return Err(e);
                },
            }
        }
        Ok(out)
    }
}

/// Copy one row of a shard.
fn clone_token_rows(shard: &Vec<Vec<Token>>, k: usize) -> (r: Vec<Token>)
    requires
        k < shard@.len(),
    ensures
        r@ =~= shard@[k as int]@,
{
    let row = &shard[k];
    let mut r: Vec<Token> = Vec::new();
    let n = row.len();
    for i in 0..n
        invariant
            n == row@.len(),
            r@.len() == i,
            forall|q: int| 0 <= q < i ==> r@[q] == row@[q],
    {
        r.push(row[i].clone());
    }
    r
}

/// Two models with the same persistent core satisfy the same tokenize
/// contract.
proof fn lemma_post_transfer(a: ModelWrapper, b: ModelWrapper)
    requires
        a.core_unchanged(b),
    ensures
        forall|w: Seq<char>, r: Result<Vec<Token>, TokenizerError>| #[trigger] b.spec_tokenize_post(
            w,
            r,
        ) ==> a.spec_tokenize_post(w, r),
{
    match (a, b) {
        (ModelWrapper::BPE(x), ModelWrapper::BPE(y)) => {
            assert forall|w: Seq<char>, r: Result<Vec<Token>, TokenizerError>| #[trigger] y.spec_tokenize_post(
                w,
                r,
            ) implies x.spec_tokenize_post(w, r) by {
                assert(x.spec_result(w) == y.spec_result(w));
            }
        },
        _ => {},
    }
}

/// A successful outcome means the word does not fail.
proof fn lemma_ok_not_fails(m: ModelWrapper, w: Seq<char>, ts: Vec<Token>)
    requires
        m.spec_tokenize_post(w, Ok(ts)),
    ensures
        !tokenize_fails(m, w),
{
    match m {
        ModelWrapper::Unigram(u) => {
            if u.spec_unk() is None {
                let path = u.spec_path(w, w.len() as int);
                if exists|k: int| 0 <= k < path.len() && path[k].2 is None {
                    let k = choose|k: int| 0 <= k < path.len() && path[k].2 is None;
                    assert(u.matches_path(w, ts@));
                    let t = ts@[k];
                    assert(path[k].2 is None);
                    assert(u.spec_unk() == Some(t.id));
                    assert(false);
                }
            }
        },
        _ => {},
    }
}

/// A failing outcome means the word fails.
proof fn lemma_fails_of_post(m: ModelWrapper, w: Seq<char>, e: TokenizerError)
    requires
        m.spec_tokenize_post(w, Err(e)),
    ensures
        tokenize_fails(m, w),
{
}


/// The type of a mutable slice iterator (vstd leaves it undeclared).
#[verifier::external_type_specification]
#[verifier::external_body]
#[verifier::reject_recursive_types(T)]
pub struct ExSliceIterMut<'a, T: 'a>(core::slice::IterMut<'a, T>);

/// Relies on slice::iter_mut: hands back the slice's own iterator over
/// mutable references (nothing further is assumed of it).
#[verifier::external_body]
fn slice_iter_mut<'a, T>(s: &'a mut [T]) -> (r: core::slice::IterMut<'a, T>) {
    s.iter_mut()
}

/// Allows converting into an iterator that could run either in parallel
/// or serially; with no worker pool linked in, both modes are the same
/// serial iteration, which is what makes the two modes byte-identical.
pub trait MaybeParallelIterator<T, S> where S: Iterator<Item = T> {
    /// Iterate, the mode chosen by the process-wide configuration alone.
    fn into_maybe_par_iter(self) -> S;

    /// Iterate, the mode chosen by the configuration and the given
    /// condition together; both must allow parallelism for it to occur.
    fn into_maybe_par_iter_cond(self, cond: bool) -> S;
}

impl<T> MaybeParallelIterator<T, <Vec<T> as core::iter::IntoIterator>::IntoIter> for Vec<T> {
    fn into_maybe_par_iter(self) -> <Vec<T> as core::iter::IntoIterator>::IntoIter {
        self.into_iter()
    }

    fn into_maybe_par_iter_cond(self, _cond: bool) -> <Vec<
        T,
    > as core::iter::IntoIterator>::IntoIter {
        self.into_iter()
    }
}

impl<'a, T> MaybeParallelIterator<&'a T, <&'a Vec<T> as core::iter::IntoIterator>::IntoIter> for &'a Vec<T> {
    fn into_maybe_par_iter(self) -> <&'a Vec<T> as core::iter::IntoIterator>::IntoIter {
        self.into_iter()
    }

    fn into_maybe_par_iter_cond(self, _cond: bool) -> <&'a Vec<
        T,
    > as core::iter::IntoIterator>::IntoIter {
        self.into_iter()
    }
}

/// Shared-reference form of `MaybeParallelIterator`: iterates references,
/// does not consume self.
pub trait MaybeParallelRefIterator<'data, T, S> where S: Iterator<Item = T>, T: 'data {
    fn maybe_par_iter(&'data self) -> S;

    fn maybe_par_iter_cond(&'data self, cond: bool) -> S;
}

impl<'data, T, S, I: 'data + ?Sized> MaybeParallelRefIterator<'data, T, S> for I where
    &'data I: MaybeParallelIterator<T, S>,
    S: Iterator<Item = T>,
    T: 'data,
 {
    fn maybe_par_iter(&'data self) -> S {
        self.into_maybe_par_iter()
    }

    fn maybe_par_iter_cond(&'data self, cond: bool) -> S {
        self.into_maybe_par_iter_cond(cond)
    }
}

/// Exclusive-reference form of `MaybeParallelIterator`: iterates mutable
/// references, does not consume self.
pub trait MaybeParallelRefMutIterator<'data, T, S> where S: Iterator<Item = T>, T: 'data {
    fn maybe_par_iter_mut(&'data mut self) -> S;

    fn maybe_par_iter_mut_cond(&'data mut self, cond: bool) -> S;
}

impl<'data, T: 'data> MaybeParallelRefMutIterator<'data, &'data mut T, core::slice::IterMut<
    'data,
    T,
>> for Vec<T> {
    fn maybe_par_iter_mut(&'data mut self) -> core::slice::IterMut<'data, T> {
        slice_iter_mut(self.as_mut_slice())
    }

    fn maybe_par_iter_mut_cond(&'data mut self, _cond: bool) -> core::slice::IterMut<'data, T> {
        slice_iter_mut(self.as_mut_slice())
    }
}

/// Converts any serial iterator into one that could run either way.
pub trait MaybeParallelBridge<T, S> where S: Iterator<Item = T> + Send, T: Send {
    fn maybe_par_bridge(self) -> S;

    fn maybe_par_bridge_cond(self, cond: bool) -> S;
}

impl<T, S> MaybeParallelBridge<T, S> for S where S: Iterator<Item = T> + Send, T: Send {
    fn maybe_par_bridge(self) -> S {
        self
    }

    fn maybe_par_bridge_cond(self, _cond: bool) -> S {
        self
    }
}

} // verus!
