//! Assembly of batched completion results.
//!
//! A list of prompts is answered by the provider in fixed-size chunks of at
//! most [`BATCH_SIZE`] prompts, one provider call per chunk, in order.  The
//! caller that talks to the network drives a [`BatchRun`]: it takes the next
//! chunk of prompts, performs the call, and feeds the returned texts back.
//! The run trims each text and keeps everything aligned: the i-th assembled
//! result always answers the i-th submitted prompt.  If any chunk call
//! fails, the caller simply stops feeding the run; an incomplete run
//! surrenders no results, so no partial merge can happen downstream.

use vstd::prelude::*;

use crate::errors::Error;
use crate::text::spec_trim;
use crate::text::trim_str;

verus! {

/// The largest number of prompts submitted to the provider in one call.
pub const BATCH_SIZE: usize = 20;

/// The views of a sequence of strings.
pub open spec fn seq_views(s: Seq<String>) -> Seq<Seq<char>> {
    Seq::new(s.len(), |i: int| s[i]@)
}

/// Each text of `s`, trimmed of surrounding whitespace.
pub open spec fn trims(s: Seq<Seq<char>>) -> Seq<Seq<char>> {
    Seq::new(s.len(), |i: int| spec_trim(s[i]))
}

/// Law: chunk boundaries are invisible in the assembled results: trimming
/// distributes over concatenation, so feeding one response list in any two
/// ways that concatenate to the same texts assembles the same results.
pub proof fn lemma_chunking_transparent(a: Seq<Seq<char>>, b: Seq<Seq<char>>)
    ensures
        trims(a + b) == trims(a) + trims(b),
{
    assert(trims(a + b) =~= trims(a) + trims(b));
}

/// What a run assembles from the chunked responses it was fed, in order:
/// the fold that [`BatchRun::push_chunk`] performs chunk by chunk.
pub open spec fn spec_assembled(chunks: Seq<Seq<Seq<char>>>) -> Seq<Seq<char>>
    decreases chunks.len(),
{
    if chunks.len() == 0 {
        Seq::empty()
    } else {
        spec_assembled(chunks.drop_last()) + trims(chunks.last())
    }
}

/// Law: the assembled results are a function of the flat response list
/// alone: however the responses were cut into chunks, the run ends with
/// the trims of every text, in order.
pub proof fn lemma_assembled_from_flat(chunks: Seq<Seq<Seq<char>>>)
    ensures
        spec_assembled(chunks) == trims(chunks.flatten()),
    decreases chunks.len(),
{
    broadcast use vstd::prelude::Seq::lemma_flatten_push;

    if chunks.len() == 0 {
        assert(chunks.flatten() =~= Seq::<Seq<char>>::empty());
        assert(trims(chunks.flatten()) =~= Seq::<Seq<char>>::empty());
    } else {
        lemma_assembled_from_flat(chunks.drop_last());
        assert(chunks.drop_last().push(chunks.last()) =~= chunks);
        assert(chunks.flatten() == chunks.drop_last().flatten() + chunks.last());
        lemma_chunking_transparent(chunks.drop_last().flatten(), chunks.last());
    }
}

/// Law: two runs fed response chunks that concatenate to the same flat
/// list assemble the same results.
pub proof fn lemma_chunk_boundaries_invisible(
    chunks1: Seq<Seq<Seq<char>>>,
    chunks2: Seq<Seq<Seq<char>>>,
)
    requires
        chunks1.flatten() == chunks2.flatten(),
    ensures
        spec_assembled(chunks1) == spec_assembled(chunks2),
{
    lemma_assembled_from_flat(chunks1);
    lemma_assembled_from_flat(chunks2);
}

/// One batched completion call in flight: the prompts submitted, and the
/// trimmed results assembled so far, aligned by position.
pub struct BatchRun {
    prompts: Vec<String>,
    results: Vec<String>,
}

impl BatchRun {
    /// The submitted prompts.
    pub closed spec fn prompts_view(&self) -> Seq<Seq<char>> {
        seq_views(self.prompts@)
    }

    /// The results assembled so far, in submission order.
    pub closed spec fn results_view(&self) -> Seq<Seq<char>> {
        seq_views(self.results@)
    }

    /// No more results than prompts.
    pub closed spec fn wf(&self) -> bool {
        self.results@.len() <= self.prompts@.len()
    }

    /// How many prompts the next chunk holds: a full chunk, or whatever is
    /// left at the end of the prompt list.
    pub open spec fn spec_next_chunk_len(&self) -> int {
        let pending = self.prompts_view().len() - self.results_view().len();
        if pending < BATCH_SIZE {
            pending
        } else {
            BATCH_SIZE as int
        }
    }

    /// Start a run over the given prompts.
    pub fn new(prompts: Vec<String>) -> (r: BatchRun)
        ensures
            r.wf(),
            r.prompts_view() == seq_views(prompts@),
            r.results_view() == Seq::<Seq<char>>::empty(),
    {
        let r = BatchRun { prompts, results: Vec::new() };
        proof {
            assert(r.results_view() =~= Seq::<Seq<char>>::empty());
        }
        r
    }

    /// Whether every prompt has been answered.
    pub fn is_complete(&self) -> (r: bool)
        ensures
            r == (self.results_view().len() == self.prompts_view().len()),
    {
        self.results.len() == self.prompts.len()
    }

    /// The next chunk of prompts to submit, or nothing if the run is
    /// complete.  The chunk is the next [`BATCH_SIZE`] unanswered prompts,
    /// or all of them if fewer are left.
    pub fn next_chunk(&self) -> (r: Option<Vec<String>>)
        requires
            self.wf(),
        ensures
            match r {
                Option::None => self.results_view().len() == self.prompts_view().len(),
                Option::Some(c) => {
                    &&& self.results_view().len() < self.prompts_view().len()
                    &&& c@.len() == self.spec_next_chunk_len()
                    &&& seq_views(c@) == self.prompts_view().subrange(
                        self.results_view().len() as int,
                        self.results_view().len() + self.spec_next_chunk_len(),
                    )
                },
            },
    {
        let done = self.results.len();
        let total = self.prompts.len();
        if done == total {
            return None;
        }
        let pending = total - done;
        let take = if pending < BATCH_SIZE {
            pending
        } else {
            BATCH_SIZE
        };
        let mut c: Vec<String> = Vec::new();
        let mut i: usize = 0;
        while i < take
            invariant
                i <= take,
                done + take <= total,
                total == self.prompts@.len(),
                c@.len() == i,
                forall|j: int| 0 <= j < i ==> (#[trigger] c@[j])@ == self.prompts@[done + j]@,
            decreases take - i,
        {
            c.push(self.prompts[done + i].clone());
            i = i + 1;
        }
        proof {
            assert(seq_views(c@) =~= self.prompts_view().subrange(
                done as int,
                done + self.spec_next_chunk_len(),
            ));
        }
        Some(c)
    }

    /// Feed back the texts the provider returned for the chunk that
    /// [`Self::next_chunk`] last handed out.  Exactly one text per prompt of
    /// that chunk is accepted; each is trimmed and appended in order.  A
    /// list of any other length is refused without changing the run, since
    /// it signals a position-alignment defect.
    pub fn push_chunk(&mut self, texts: Vec<String>) -> (r: Result<(), Error>)
        requires
            old(self).wf(),
        ensures
            final(self).wf(),
            final(self).prompts_view() == old(self).prompts_view(),
            match r {
                Result::Ok(()) => {
                    &&& texts@.len() == old(self).spec_next_chunk_len()
                    &&& final(self).results_view() == old(self).results_view() + trims(
                        seq_views(texts@),
                    )
                },
                Result::Err(e) => {
                    &&& e == (Error::Alignment {
                        expected: old(self).spec_next_chunk_len() as usize,
                        got: texts@.len() as usize,
                    })
                    &&& texts@.len() != old(self).spec_next_chunk_len()
                    &&& *final(self) == *old(self)
                },
            },
    {
        let done = self.results.len();
        let total = self.prompts.len();
        let pending = total - done;
        let expected = if pending < BATCH_SIZE {
            pending
        } else {
            BATCH_SIZE
        };
        if texts.len() != expected {
            return Err(Error::Alignment { expected, got: texts.len() });
        }
        let n = texts.len();
        let mut i: usize = 0;
        while i < n
            invariant
                i <= n,
                n == texts@.len(),
                self.prompts@ == old(self).prompts@,
                self.results@.len() == old(self).results@.len() + i,
                old(self).results@.len() + n <= self.prompts@.len(),
                forall|j: int|
                    0 <= j < old(self).results@.len() ==> (#[trigger] self.results@[j])@ == old(
                        self,
                    ).results@[j]@,
                forall|j: int|
                    0 <= j < i ==> (#[trigger] self.results@[old(self).results@.len() + j])@
                        == spec_trim(texts@[j]@),
            decreases n - i,
        {
            let t = trim_str(texts[i].as_str());
            self.results.push(t);
            i = i + 1;
        }
        proof {
            let m = old(self).results@.len() as int;
            assert(self.results@.len() == m + n);
            assert forall|j: int| 0 <= j < self.results@.len() implies (#[trigger] self.results@[j])@
                == (old(self).results_view() + trims(seq_views(texts@)))[j] by {
                if j < m {
                    assert((self.results@[j])@ == old(self).results@[j]@);
                } else {
                    let k = j - m;
                    assert((self.results@[m + k])@ == spec_trim(texts@[k]@));
                }
            }
            assert(self.results_view() =~= old(self).results_view() + trims(seq_views(texts@)));
            assert(self.prompts_view() =~= old(self).prompts_view());
        }
        Ok(())
    }

    /// Surrender the assembled results.  They come out if and only if every
    /// prompt has been answered, in the order the prompts were submitted,
    /// one trimmed text per prompt.
    pub fn into_results(self) -> (r: Result<Vec<String>, Error>)
        requires
            self.wf(),
        ensures
            match r {
                Result::Ok(out) => {
                    &&& self.results_view().len() == self.prompts_view().len()
                    &&& seq_views(out@) == self.results_view()
                },
                Result::Err(e) => {
                    &&& self.results_view().len() < self.prompts_view().len()
                    &&& e == (Error::IncompleteBatch {
                        expected: self.prompts_view().len() as usize,
                        got: self.results_view().len() as usize,
                    })
                },
            },
    {
        if self.results.len() == self.prompts.len() {
            proof {
                assert(seq_views(self.results@) =~= self.results_view());
            }
            Ok(self.results)
        } else {
            Err(
                Error::IncompleteBatch {
                    expected: self.prompts.len(),
                    got: self.results.len(),
                },
            )
        }
    }
}

} // verus!
