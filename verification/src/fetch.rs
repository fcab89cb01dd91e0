//! The article fetcher's decisions: which requests a run makes, and how
//! per-attempt outcomes are folded into the result list.
//!
//! The network work itself (one GET per target, with a fixed delay before
//! each) is performed by the caller; this module fixes the request targets
//! — the first `n` extracted URLs, each with `.json` appended — and keeps
//! the articles of the successful attempts, in order, dropping failures.

use vstd::prelude::*;
use vstd::string::StringExecFns;
use crate::article::SnlArticle;
use crate::clean::{article_cleaned, clean_articles};

verus! {

/// One attempt's outcome, as reported back by the caller that performed
/// the request: the transport failed, the response did not decode as an
/// article, or an article was decoded.
pub enum FetchOutcome {
    TransportFailed,
    DecodeFailed,
    Fetched(SnlArticle),
}

/// The character at position `m` of the fixed request suffix `.json`.
pub open spec fn suffix_char(m: int) -> char {
    if m == 0 {
        '.'
    } else if m == 1 {
        'j'
    } else if m == 2 {
        's'
    } else if m == 3 {
        'o'
    } else {
        'n'
    }
}

/// The fixed suffix `.json` appended to every article URL.
pub open spec fn json_suffix() -> Seq<char> {
    Seq::new(5, |m: int| suffix_char(m))
}

/// The request targets of a run: the first `n` URLs (all of them, if there
/// are fewer), in order, each with `.json` appended. Its length is the
/// exact number of requests the run attempts.
pub fn request_targets(urls: &Vec<String>, n: usize) -> (targets: Vec<String>)
    ensures
        targets@.len() == if n as int <= urls@.len() {
            n as int
        } else {
            urls@.len() as int
        },
        forall|i: int|
            0 <= i < targets@.len() ==> (#[trigger] targets@[i])@ == urls@[i]@ + json_suffix(),
{
    let m = if n <= urls.len() {
        n
    } else {
        urls.len()
    };
    let mut targets: Vec<String> = Vec::new();
    let mut i: usize = 0;
    while i < m
        invariant
            m <= urls@.len(),
            m as int == if n as int <= urls@.len() {
                n as int
            } else {
                urls@.len() as int
            },
            i <= m,
            targets@.len() == i,
            forall|t: int|
                0 <= t < i ==> (#[trigger] targets@[t])@ == urls@[t]@ + json_suffix(),
        decreases m - i,
    {
        let mut target = urls[i].clone();
        target.append(".json");
        proof {
            reveal_strlit(".json");
            assert(".json"@ =~= json_suffix());
        }
        targets.push(target);
        i = i + 1;
    }
    targets
}

/// The articles of the successful outcomes, in order.
pub open spec fn successes(outs: Seq<FetchOutcome>) -> Seq<SnlArticle>
    decreases outs.len(),
{
    if outs.len() == 0 {
        Seq::empty()
    } else {
        let rest = successes(outs.drop_first());
        match outs[0] {
            FetchOutcome::Fetched(a) => seq![a] + rest,
            _ => rest,
        }
    }
}

pub proof fn lemma_successes_len(outs: Seq<FetchOutcome>)
    ensures
        successes(outs).len() <= outs.len(),
    decreases outs.len(),
{
    if outs.len() > 0 {
        lemma_successes_len(outs.drop_first());
    }
}

/// Law: one failed attempt is isolated. If attempt `k` failed, the result
/// holds at most one article per other attempt, and it is exactly the
/// result of the same outcomes with attempt `k` left out: every other
/// success appears, in the same relative order.
pub proof fn lemma_failure_isolation(outs: Seq<FetchOutcome>, k: int)
    requires
        0 <= k < outs.len(),
        !(outs[k] is Fetched),
    ensures
        successes(outs).len() <= outs.len() - 1,
        successes(outs) == successes(outs.remove(k)),
    decreases outs.len(),
{
    if k == 0 {
        assert(outs.remove(0) =~= outs.drop_first());
        lemma_successes_len(outs.drop_first());
    } else {
        let tail = outs.drop_first();
        lemma_failure_isolation(tail, k - 1);
        assert(outs.remove(k).drop_first() =~= tail.remove(k - 1));
        assert(outs.remove(k)[0] == outs[0]);
        lemma_successes_len(tail.remove(k - 1));
    }
}

/// Keeps the articles of the successful outcomes, in order, dropping the
/// failed attempts.
pub fn collect_articles(outcomes: Vec<FetchOutcome>) -> (articles: Vec<SnlArticle>)
    ensures
        articles@ == successes(outcomes@),
{
    let ghost orig = outcomes@;
    let mut rest = outcomes;
    let mut articles: Vec<SnlArticle> = Vec::new();
    proof {
        assert(articles@ + successes(rest@) =~= successes(orig));
    }
    while rest.len() > 0
        invariant
            successes(orig) == articles@ + successes(rest@),
        decreases rest@.len(),
    {
        let ghost before = rest@;
        let outcome = rest.remove(0);
        proof {
            assert(rest@ =~= before.drop_first());
        }
        match outcome {
            FetchOutcome::Fetched(a) => {
                let ghost prev = articles@;
                articles.push(a);
                proof {
                    assert(prev + (seq![a] + successes(rest@)) =~= articles@ + successes(rest@));
                }
            },
            FetchOutcome::TransportFailed => {},
            FetchOutcome::DecodeFailed => {},
        }
    }
    proof {
        assert(successes(rest@) =~= Seq::<SnlArticle>::empty());
        assert(articles@ + successes(rest@) =~= articles@);
    }
    articles
}

/// The result list of a run, from its attempts' outcomes: the articles of
/// the successful attempts, in order, each with its body cleaned and every
/// other field kept.
pub fn run_results(outcomes: Vec<FetchOutcome>) -> (articles: Vec<SnlArticle>)
    ensures
        articles@.len() == successes(outcomes@).len(),
        forall|i: int|
            0 <= i < articles@.len() ==> article_cleaned(
                successes(outcomes@)[i],
                #[trigger] articles@[i],
            ),
{
    let collected = collect_articles(outcomes);
    clean_articles(collected)
}

} // verus!
