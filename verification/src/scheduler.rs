//! The block-scheduler attribute parser: structures the single-line,
//! whitespace-separated `queue/scheduler` text, in which one name wrapped in
//! square brackets marks the currently active scheduler.

use vstd::prelude::*;
use crate::text::{spec_split_ws, split_ws, lemma_split_ws_tokens_nonempty};

verus! {

/// A token of the scheduler attribute with its bracket marker removed: a
/// token opened by `[` loses its first and last character.
pub open spec fn spec_strip_brackets(t: Seq<char>) -> Seq<char> {
    if t.len() > 0 && t[0] == '[' {
        t.subrange(1, t.len() - 1)
    } else {
        t
    }
}

/// The scheduler names the token sequence lists, in order.
pub open spec fn spec_scheduler_names(tokens: Seq<Seq<char>>) -> Seq<Seq<char>> {
    tokens.map_values(|t: Seq<char>| spec_strip_brackets(t))
}

/// The index of the active scheduler: the position of the last
/// bracket-marked token, or 0 when no token is marked.  The fallback 0 is a
/// documented ambiguity of the source format, not a statement that the first
/// scheduler is active.
pub open spec fn spec_active_index(tokens: Seq<Seq<char>>) -> int
    decreases tokens.len(),
{
    if tokens.len() == 0 {
        0
    } else if tokens.last().len() > 0 && tokens.last()[0] == '[' {
        tokens.len() - 1
    } else {
        spec_active_index(tokens.drop_last())
    }
}

/// Every token opened by `[` is long enough to carry its closing bracket.
/// Stripping a lone `[` is undefined, so parsing demands this of its input.
pub open spec fn tokens_well_bracketed(tokens: Seq<Seq<char>>) -> bool {
    forall|k: int|
        0 <= k < tokens.len() ==> ((#[trigger] tokens[k]).len() > 0 && tokens[k][0] == '['
            ==> tokens[k].len() >= 2)
}

/// The active index is 0 on an empty token sequence and in range otherwise.
pub proof fn lemma_active_index_in_range(tokens: Seq<Seq<char>>)
    ensures
        0 <= spec_active_index(tokens),
        tokens.len() == 0 ==> spec_active_index(tokens) == 0,
        tokens.len() > 0 ==> spec_active_index(tokens) < tokens.len(),
    decreases tokens.len(),
{
    if tokens.len() > 0 {
        lemma_active_index_in_range(tokens.drop_last());
    }
}

/// The structured form of the `queue/scheduler` attribute: the scheduler
/// names in file order, and the index of the active one among them.
pub struct BlockScheduler {
    schedules: Vec<String>,
    active: usize,
}

impl BlockScheduler {
    /// The scheduler names this value holds.
    pub closed spec fn spec_schedulers(&self) -> Seq<Seq<char>> {
        self.schedules.deep_view()
    }

    /// The position of the active scheduler among the names.
    pub closed spec fn spec_active(&self) -> int {
        self.active as int
    }

    /// Well-formedness: the active index stays inside the name list, and is 0
    /// when the list is empty.
    pub closed spec fn wf(&self) -> bool {
        if self.schedules@.len() == 0 {
            self.active == 0
        } else {
            (self.active as int) < self.schedules@.len()
        }
    }

    /// Parses the raw text of the scheduler attribute: splits it on
    /// whitespace, records the position of the last bracket-marked token as
    /// the active index, and stores every token with its brackets stripped.
    pub fn parse(s: &str) -> (r: BlockScheduler)
        requires
            tokens_well_bracketed(spec_split_ws(s@)),
        ensures
            r.wf(),
            r.spec_schedulers() == spec_scheduler_names(spec_split_ws(s@)),
            r.spec_active() == spec_active_index(spec_split_ws(s@)),
    {
        let tokens = split_ws(s);
        proof {
            lemma_split_ws_tokens_nonempty(s@, 0, Seq::<char>::empty());
            assert(seq![] =~= Seq::<char>::empty());
        }
        let ghost toks = tokens.deep_view();
        let mut schedules: Vec<String> = Vec::new();
        let mut active: usize = 0;
        let mut k: usize = 0;
        proof {
            assert(toks.take(0) =~= Seq::<Seq<char>>::empty());
            assert(schedules.deep_view() =~= spec_scheduler_names(toks.take(0)));
        }
        while k < tokens.len()
            invariant
                0 <= k <= tokens@.len(),
                toks == tokens.deep_view(),
                toks == spec_split_ws(s@),
                tokens_well_bracketed(toks),
                forall|j: int| 0 <= j < toks.len() ==> (#[trigger] toks[j]).len() > 0,
                schedules@.len() == k,
                schedules.deep_view() == spec_scheduler_names(toks.take(k as int)),
                active as int == spec_active_index(toks.take(k as int)),
                active <= k,
            decreases tokens@.len() - k,
        {
            proof {
                assert(toks[k as int] == tokens@[k as int]@);
                assert(toks[k as int].len() > 0);
            }
            let t: &String = &tokens[k];
            let ghost prev = schedules.deep_view();
            if t.as_str().get_char(0) == '[' {
                proof {
                    assert(toks[k as int].len() >= 2);
                }
                active = schedules.len();
                let n = t.as_str().unicode_len();
                let stripped = t.as_str().substring_char(1, n - 1).to_owned();
                schedules.push(stripped);
                proof {
                    assert(schedules.deep_view() =~= prev.push(
                        spec_strip_brackets(toks[k as int]),
                    ));
                }
            } else {
                let kept = t.clone();
                schedules.push(kept);
                proof {
                    assert(schedules.deep_view() =~= prev.push(
                        spec_strip_brackets(toks[k as int]),
                    ));
                }
            }
            k = k + 1;
            proof {
                assert(toks.take(k as int).drop_last() =~= toks.take(k - 1));
                assert(toks.take(k as int).last() == toks[k - 1]);
                assert(spec_scheduler_names(toks.take(k as int)) =~= spec_scheduler_names(
                    toks.take(k - 1),
                ).push(spec_strip_brackets(toks[k - 1])));
            }
        }
        proof {
            assert(toks.take(toks.len() as int) =~= toks);
            lemma_active_index_in_range(toks);
        }
        BlockScheduler { schedules, active }
    }

    /// The name of the active scheduler.  On text with no bracket-marked
    /// entry this is the first name, possibly not actually active.
    pub fn active(&self) -> (r: &str)
        requires
            self.wf(),
            self.spec_schedulers().len() > 0,
        ensures
            r@ == self.spec_schedulers()[self.spec_active()],
    {
        proof {
            assert(self.schedules@[self.active as int]@ == self.spec_schedulers()[
                self.spec_active()
            ]);
        }
        self.schedules[self.active].as_str()
    }

    /// The position of the active scheduler within [`Self::schedulers`].
    pub fn active_index(&self) -> (r: usize)
        ensures
            r as int == self.spec_active(),
    {
        self.active
    }

    /// Every scheduler name the attribute listed, in file order.
    pub fn schedulers(&self) -> (r: &[String])
        ensures
            r.deep_view() == self.spec_schedulers(),
    {
        let r = self.schedules.as_slice();
        proof {
            assert(r.deep_view() =~= self.schedules.deep_view());
        }
        r
    }
}

} // verus!
