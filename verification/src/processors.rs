//! Post-processing (inserting special tokens around encoded sequences) is
//! an external collaborator's job; the dispatcher and the two classic
//! processors live here so the closed set of processor kinds stays
//! complete.

use vstd::prelude::*;
use crate::TokenizerError;

verus! {

/// The minimal encoded form the processors work over: ids and segment
/// type ids, index for index.
#[derive(Debug, PartialEq)]
pub struct Encoding {
    pub ids: Vec<u32>,
    pub type_ids: Vec<u32>,
}

impl Encoding {
    pub fn new(ids: Vec<u32>, type_ids: Vec<u32>) -> (e: Encoding)
        ensures
            e.ids == ids,
            e.type_ids == type_ids,
    {
        Encoding { ids, type_ids }
    }
}

/// BERT-style framing: `[CLS] a [SEP]` and, for a pair, `b [SEP]` with
/// segment ids `1`.
#[derive(Debug, PartialEq)]
pub struct BertProcessing {
    pub sep: (String, u32),
    pub cls: (String, u32),
}

/// RoBERTa-style framing: `<s> a </s>` and, for a pair, `</s> b </s>`,
/// all segment ids `0`.
#[derive(Debug, PartialEq)]
pub struct RobertaProcessing {
    pub sep: (String, u32),
    pub cls: (String, u32),
}

/// The ids a Bert processor produces.
pub open spec fn bert_ids(cls: u32, sep: u32, a: Seq<u32>, b: Option<Seq<u32>>) -> Seq<u32> {
    match b {
        None => seq![cls] + a + seq![sep],
        Some(bs) => seq![cls] + a + seq![sep] + bs + seq![sep],
    }
}

pub open spec fn bert_type_ids(a_len: int, b: Option<int>) -> Seq<u32> {
    match b {
        None => Seq::new((a_len + 2) as nat, |i: int| 0u32),
        Some(bl) => Seq::new((a_len + 2) as nat, |i: int| 0u32) + Seq::new(
            (bl + 1) as nat,
            |i: int| 1u32,
        ),
    }
}

/// The ids a Roberta processor produces.
pub open spec fn roberta_ids(cls: u32, sep: u32, a: Seq<u32>, b: Option<Seq<u32>>) -> Seq<u32> {
    match b {
        None => seq![cls] + a + seq![sep],
        Some(bs) => seq![cls] + a + seq![sep] + seq![sep] + bs + seq![sep],
    }
}

impl BertProcessing {
    pub fn new(sep: (String, u32), cls: (String, u32)) -> (p: BertProcessing)
        ensures
            p.sep == sep,
            p.cls == cls,
    {
        BertProcessing { sep, cls }
    }

    pub fn added_tokens(&self, is_pair: bool) -> (n: usize)
        ensures
            n == if is_pair {
                3int
            } else {
                2int
            },
    {
        if is_pair {
            3
        } else {
            2
        }
    }

    pub fn process(&self, encoding: Encoding, pair: Option<Encoding>, add_special_tokens: bool) -> (r:
        Result<Encoding, TokenizerError>)
        requires
            encoding.ids@.len() + match pair {
                Option::None => 0int,
                Option::Some(p) => p.ids@.len() as int,
            } + 4 <= usize::MAX,
        ensures
            r is Ok,
            add_special_tokens ==> r.unwrap().ids@ == bert_ids(
                self.cls.1,
                self.sep.1,
                encoding.ids@,
                match pair {
                    Option::None => None,
                    Option::Some(p) => Some(p.ids@),
                },
            ),
            add_special_tokens ==> r.unwrap().type_ids@ == bert_type_ids(
                encoding.ids@.len() as int,
                match pair {
                    Option::None => None,
                    Option::Some(p) => Some(p.ids@.len() as int),
                },
            ),
            !add_special_tokens ==> r.unwrap().ids@ == encoding.ids@ + match pair {
                Option::None => Seq::<u32>::empty(),
                Option::Some(p) => p.ids@,
            },
    {
        if !add_special_tokens {
            let mut ids = encoding.ids;
            let mut type_ids = encoding.type_ids;
            match pair {
                Some(p) => {
                    let ghost ids0 = ids@;
                    append_all(&mut ids, &p.ids);
                    append_all(&mut type_ids, &p.type_ids);
                    proof {
                        assert(ids@ =~= ids0 + p.ids@);
                    }
                    Ok(Encoding { ids, type_ids })
                },
                None => {
                    proof {
                        assert(ids@ =~= ids@ + Seq::<u32>::empty());
                    }
                    Ok(Encoding { ids, type_ids })
                },
            }
        } else {
            let mut ids: Vec<u32> = Vec::new();
            let mut type_ids: Vec<u32> = Vec::new();
            ids.push(self.cls.1);
            append_all(&mut ids, &encoding.ids);
            ids.push(self.sep.1);
            let an = encoding.ids.len();
            push_repeat(&mut type_ids, 0, an + 2);
            match pair {
                Some(p) => {
                    let ghost before = ids@;
                    append_all(&mut ids, &p.ids);
                    ids.push(self.sep.1);
                    push_repeat(&mut type_ids, 1, p.ids.len() + 1);
                    proof {
                        assert(ids@ =~= bert_ids(
                            self.cls.1,
                            self.sep.1,
                            encoding.ids@,
                            Some(p.ids@),
                        ));
                        assert(type_ids@ =~= bert_type_ids(
                            encoding.ids@.len() as int,
                            Some(p.ids@.len() as int),
                        ));
                    }
                    Ok(Encoding { ids, type_ids })
                },
                None => {
                    proof {
                        assert(ids@ =~= bert_ids(self.cls.1, self.sep.1, encoding.ids@, None));
                        assert(type_ids@ =~= bert_type_ids(encoding.ids@.len() as int, None));
                    }
                    Ok(Encoding { ids, type_ids })
                },
            }
        }
    }
}

impl RobertaProcessing {
    pub fn new(sep: (String, u32), cls: (String, u32)) -> (p: RobertaProcessing)
        ensures
            p.sep == sep,
            p.cls == cls,
    {
        RobertaProcessing { sep, cls }
    }

    pub fn added_tokens(&self, is_pair: bool) -> (n: usize)
        ensures
            n == if is_pair {
                4int
            } else {
                2int
            },
    {
        if is_pair {
            4
        } else {
            2
        }
    }

    pub fn process(&self, encoding: Encoding, pair: Option<Encoding>, add_special_tokens: bool) -> (r:
        Result<Encoding, TokenizerError>)
        requires
            encoding.ids@.len() + match pair {
                Option::None => 0int,
                Option::Some(p) => p.ids@.len() as int,
            } + 4 <= usize::MAX,
        ensures
            r is Ok,
            add_special_tokens ==> r.unwrap().ids@ == roberta_ids(
                self.cls.1,
                self.sep.1,
                encoding.ids@,
                match pair {
                    Option::None => None,
                    Option::Some(p) => Some(p.ids@),
                },
            ),
            add_special_tokens ==> r.unwrap().type_ids@ == Seq::new(
                r.unwrap().ids@.len(),
                |i: int| 0u32,
            ),
            !add_special_tokens ==> r.unwrap().ids@ == encoding.ids@ + match pair {
                Option::None => Seq::<u32>::empty(),
                Option::Some(p) => p.ids@,
            },
    {
        if !add_special_tokens {
            let mut ids = encoding.ids;
            let mut type_ids = encoding.type_ids;
            match pair {
                Some(p) => {
                    let ghost ids0 = ids@;
                    append_all(&mut ids, &p.ids);
                    append_all(&mut type_ids, &p.type_ids);
                    proof {
                        assert(ids@ =~= ids0 + p.ids@);
                    }
                    Ok(Encoding { ids, type_ids })
                },
                None => {
                    proof {
                        assert(ids@ =~= ids@ + Seq::<u32>::empty());
                    }
                    Ok(Encoding { ids, type_ids })
                },
            }
        } else {
            let mut ids: Vec<u32> = Vec::new();
            ids.push(self.cls.1);
            append_all(&mut ids, &encoding.ids);
            ids.push(self.sep.1);
            match pair {
                Some(p) => {
                    ids.push(self.sep.1);
                    append_all(&mut ids, &p.ids);
                    ids.push(self.sep.1);
                    let mut type_ids: Vec<u32> = Vec::new();
                    push_repeat(&mut type_ids, 0, ids.len());
                    proof {
                        assert(ids@ =~= roberta_ids(
                            self.cls.1,
                            self.sep.1,
                            encoding.ids@,
                            Some(p.ids@),
                        ));
                        assert(type_ids@ =~= Seq::new(ids@.len(), |i: int| 0u32));
                    }
                    Ok(Encoding { ids, type_ids })
                },
                None => {
                    let mut type_ids: Vec<u32> = Vec::new();
                    push_repeat(&mut type_ids, 0, ids.len());
                    proof {
                        assert(ids@ =~= roberta_ids(self.cls.1, self.sep.1, encoding.ids@, None));
                        assert(type_ids@ =~= Seq::new(ids@.len(), |i: int| 0u32));
                    }
                    Ok(Encoding { ids, type_ids })
                },
            }
        }
    }
}

/// Append a copy of every element of `src`.
fn append_all(dst: &mut Vec<u32>, src: &Vec<u32>)
    ensures
        final(dst)@ == old(dst)@ + src@,
{
    let n = src.len();
    for i in 0..n
        invariant
            n == src@.len(),
            dst@.len() == old(dst)@.len() + i,
            dst@ =~= old(dst)@ + src@.subrange(0, i as int),
    {
        dst.push(src[i]);
        proof {
            assert(dst@ =~= old(dst)@ + src@.subrange(0, i + 1));
        }
    }
    proof {
        assert(src@.subrange(0, src@.len() as int) =~= src@);
        assert(final(dst)@ =~= old(dst)@ + src@);
    }
}

/// Push `count` copies of `v`.
fn push_repeat(dst: &mut Vec<u32>, v: u32, count: usize)
    ensures
        final(dst)@ == old(dst)@ + Seq::new(count as nat, |i: int| v),
{
    for i in 0..count
        invariant
            dst@ =~= old(dst)@ + Seq::new(i as nat, |q: int| v),
    {
        dst.push(v);
        proof {
            assert(dst@ =~= old(dst)@ + Seq::new((i + 1) as nat, |q: int| v));
        }
    }
    proof {
        assert(final(dst)@ =~= old(dst)@ + Seq::new(count as nat, |i: int| v));
    }
}

/// The closed set of post-processor kinds.
///
/// Roberta stays before Bert: untagged loading would try the declared
/// shapes in this order, and Bert's shape is a structural subset of
/// Roberta's.
#[derive(Debug, PartialEq)]
pub enum PostProcessorWrapper {
    Roberta(RobertaProcessing),
    Bert(BertProcessing),
}

impl PostProcessorWrapper {
    pub fn added_tokens(&self, is_pair: bool) -> (n: usize)
        ensures
            n == match *self {
                PostProcessorWrapper::Roberta(_) => if is_pair {
                    4int
                } else {
                    2int
                },
                PostProcessorWrapper::Bert(_) => if is_pair {
                    3int
                } else {
                    2int
                },
            },
    {
        match self {
            PostProcessorWrapper::Roberta(p) => p.added_tokens(is_pair),
            PostProcessorWrapper::Bert(p) => p.added_tokens(is_pair),
        }
    }

    pub fn process(&self, encoding: Encoding, pair: Option<Encoding>, add_special_tokens: bool) -> (r:
        Result<Encoding, TokenizerError>)
        requires
            encoding.ids@.len() + match pair {
                Option::None => 0int,
                Option::Some(p) => p.ids@.len() as int,
            } + 4 <= usize::MAX,
        ensures
            r is Ok,
            add_special_tokens ==> r.unwrap().ids@ == match *self {
                PostProcessorWrapper::Roberta(p) => roberta_ids(
                    p.cls.1,
                    p.sep.1,
                    encoding.ids@,
                    match pair {
                        Option::None => None,
                        Option::Some(q) => Some(q.ids@),
                    },
                ),
                PostProcessorWrapper::Bert(p) => bert_ids(
                    p.cls.1,
                    p.sep.1,
                    encoding.ids@,
                    match pair {
                        Option::None => None,
                        Option::Some(q) => Some(q.ids@),
                    },
                ),
            },
            add_special_tokens ==> r.unwrap().type_ids@ == match *self {
                PostProcessorWrapper::Roberta(_) => Seq::new(r.unwrap().ids@.len(), |i: int| 0u32),
                PostProcessorWrapper::Bert(_) => bert_type_ids(
                    encoding.ids@.len() as int,
                    match pair {
                        Option::None => None,
                        Option::Some(q) => Some(q.ids@.len() as int),
                    },
                ),
            },
            !add_special_tokens ==> r.unwrap().ids@ == encoding.ids@ + match pair {
                Option::None => Seq::<u32>::empty(),
                Option::Some(q) => q.ids@,
            },
    {
        match self {
            PostProcessorWrapper::Roberta(p) => p.process(encoding, pair, add_special_tokens),
            PostProcessorWrapper::Bert(p) => p.process(encoding, pair, add_special_tokens),
        }
    }
}

} // verus!
