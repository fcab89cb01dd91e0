//! The body cleaner: strips markup tags from text.
//!
//! A tag is `<`, then one or more characters other than `<` (as few as
//! possible, at least one), then `>`. Every such match is removed and all
//! other text is kept verbatim; entities are not decoded and no document
//! structure is assumed.

use vstd::prelude::*;
use crate::article::SnlArticle;
use crate::chars::{push_char, str_chars};

verus! {

/// Index of the first `'>'` at or after position `k`, unless a `'<'` or the
/// end of the text comes first, in which case there is no close.
pub open spec fn tag_close(s: Seq<char>, k: int) -> Option<int>
    decreases s.len() - k,
{
    if k < 0 || k >= s.len() {
        None
    } else if s[k] == '<' {
        None
    } else if s[k] == '>' {
        Some(k)
    } else {
        tag_close(s, k + 1)
    }
}

/// A tag match starting at the first character of `s`: a `'<'`, at least one
/// following character other than `'<'`, then the first `'>'` after that.
/// Returns the index of the closing `'>'` of the shortest such match.
pub open spec fn tag_end(s: Seq<char>) -> Option<int> {
    if s.len() >= 2 && s[0] == '<' && s[1] != '<' {
        tag_close(s, 2)
    } else {
        None
    }
}

pub proof fn lemma_tag_close_bounds(s: Seq<char>, k: int)
    requires
        0 <= k,
        tag_close(s, k) is Some,
    ensures
        tag_close(s, k) matches Some(j) && k <= j < s.len() && s[j] == '>',
    decreases s.len() - k,
{
    if k >= s.len() {
    } else if s[k] == '<' {
    } else if s[k] == '>' {
    } else {
        lemma_tag_close_bounds(s, k + 1);
    }
}

/// The text with every tag match removed, scanning left to right and
/// resuming right after each removed match.
pub open spec fn clean_text(s: Seq<char>) -> Seq<char>
    decreases s.len(),
    via clean_text_decreases
{
    if s.len() == 0 {
        Seq::empty()
    } else {
        match tag_end(s) {
            Some(j) => clean_text(s.skip(j + 1)),
            None => seq![s[0]] + clean_text(s.skip(1)),
        }
    }
}

#[via_fn]
proof fn clean_text_decreases(s: Seq<char>) {
    if s.len() > 0 && tag_end(s) is Some {
        lemma_tag_close_bounds(s, 2);
    }
}

/// No tag match starts anywhere in `s`.
pub open spec fn tag_free(s: Seq<char>) -> bool {
    forall|i: int| 0 <= i < s.len() ==> tag_end(#[trigger] s.skip(i)) is None
}

/// Text without a tag match is left exactly as it is by the cleaner.
pub proof fn lemma_clean_of_tag_free(s: Seq<char>)
    requires
        tag_free(s),
    ensures
        clean_text(s) == s,
    decreases s.len(),
{
    if s.len() == 0 {
        assert(clean_text(s) =~= s);
    } else {
        assert(s.skip(0) =~= s);
        assert(tag_end(s) is None);
        assert forall|i: int| 0 <= i < s.skip(1).len() implies tag_end(
            #[trigger] s.skip(1).skip(i),
        ) is None by {
            assert(s.skip(1).skip(i) =~= s.skip(i + 1));
        }
        lemma_clean_of_tag_free(s.skip(1));
        assert(clean_text(s) =~= s);
    }
}

/// Text without a `'<'` holds no tag match at all.
pub proof fn lemma_no_open_no_tag(s: Seq<char>)
    requires
        forall|i: int| 0 <= i < s.len() ==> s[i] != '<',
    ensures
        tag_free(s),
{
    assert forall|i: int| 0 <= i < s.len() implies tag_end(#[trigger] s.skip(i)) is None by {
        if s.skip(i).len() >= 2 {
            assert(s.skip(i)[0] == s[i]);
        }
    }
}

/// Law: the cleaner is idempotent. Whenever one pass leaves no tag match
/// behind, a second pass returns its input unchanged.
pub proof fn lemma_clean_idempotent(s: Seq<char>)
    requires
        tag_free(clean_text(s)),
    ensures
        clean_text(clean_text(s)) == clean_text(s),
{
    lemma_clean_of_tag_free(clean_text(s));
}

/// Scans for the closing `'>'` of a tag opened at position `i`, over the
/// suffix of `cs` starting there.
fn find_tag_close(cs: &Vec<char>, i: usize) -> (r: Option<usize>)
    requires
        i < cs@.len(),
    ensures
        match r {
            Some(j) => i <= j < cs@.len() && tag_close(cs@.skip(i as int), 2) == Some(j - i),
            None => tag_close(cs@.skip(i as int), 2) is None,
        },
{
    let ghost sfx = cs@.skip(i as int);
    if cs.len() - i < 3 {
        return None;
    }
    let mut k: usize = i + 2;
    while k < cs.len()
        invariant
            i + 2 <= k <= cs@.len(),
            sfx == cs@.skip(i as int),
            i < cs@.len(),
            tag_close(sfx, 2) == tag_close(sfx, k - i),
        decreases cs@.len() - k,
    {
        let c = cs[k];
        assert(sfx[k - i] == cs@[k as int]);
        if c == '<' {
            return None;
        }
        if c == '>' {
            return Some(k);
        }
        k = k + 1;
    }
    None
}

/// Strips every tag match from `html`, keeping all other characters.
pub fn clean_html(html: &str) -> (r: String)
    ensures
        r@ == clean_text(html@),
{
    let cs = str_chars(html);
    let mut out = String::new();
    let mut i: usize = 0;
    proof {
        assert(html@.skip(0) =~= html@);
        assert(out@ + clean_text(html@) =~= clean_text(html@));
    }
    while i < cs.len()
        invariant
            cs@ == html@,
            i <= cs@.len(),
            clean_text(html@) == out@ + clean_text(html@.skip(i as int)),
        decreases cs@.len() - i,
    {
        let ghost sfx = html@.skip(i as int);
        assert(sfx[0] == html@[i as int]);
        let mut close: Option<usize> = None;
        if cs[i] == '<' && i + 1 < cs.len() {
            assert(sfx[1] == html@[i + 1]);
            if cs[i + 1] != '<' {
                close = find_tag_close(&cs, i);
            }
        }
        match close {
            Some(j) => {
                proof {
                    lemma_tag_close_bounds(sfx, 2);
                    assert(tag_end(sfx) == Some(j - i));
                    assert(sfx.skip(j - i + 1) =~= html@.skip(j + 1));
                }
                i = j + 1;
            },
            None => {
                proof {
                    assert(tag_end(sfx) is None);
                    assert(sfx.skip(1) =~= html@.skip(i + 1));
                    assert(clean_text(sfx) == seq![html@[i as int]] + clean_text(
                        html@.skip(i + 1),
                    ));
                }
                let c = cs[i];
                push_char(&mut out, c);
                proof {
                    assert(out@ + clean_text(html@.skip(i + 1)) =~= clean_text(html@));
                }
                i = i + 1;
            },
        }
    }
    proof {
        assert(html@.skip(i as int) =~= Seq::<char>::empty());
        assert(out@ + clean_text(html@.skip(i as int)) =~= out@);
    }
    out
}

/// Whether `b` is `a` with its body cleaned and every other field kept.
pub open spec fn article_cleaned(a: SnlArticle, b: SnlArticle) -> bool {
    &&& b.id == a.id
    &&& b.url == a.url
    &&& b.title == a.title
    &&& b.subject_title == a.subject_title
    &&& b.xhtml_body@ == clean_text(a.xhtml_body@)
}

/// Cleans the body of every article in the list, in order, leaving all
/// other fields and the order of the list unchanged.
pub fn clean_articles(articles: Vec<SnlArticle>) -> (r: Vec<SnlArticle>)
    ensures
        r@.len() == articles@.len(),
        forall|i: int| 0 <= i < r@.len() ==> article_cleaned(articles@[i], #[trigger] r@[i]),
{
    let ghost orig = articles@;
    let mut rest = articles;
    let mut out: Vec<SnlArticle> = Vec::new();
    while rest.len() > 0
        invariant
            out@.len() + rest@.len() == orig.len(),
            rest@ == orig.skip(out@.len() as int),
            forall|i: int| 0 <= i < out@.len() ==> article_cleaned(orig[i], #[trigger] out@[i]),
        decreases rest@.len(),
    {
        let a = rest.remove(0);
        assert(a == orig[out@.len() as int]);
        let body = clean_html(a.xhtml_body.as_str());
        out.push(
            SnlArticle {
                id: a.id,
                url: a.url,
                title: a.title,
                subject_title: a.subject_title,
                xhtml_body: body,
            },
        );
        proof {
            assert(rest@ =~= orig.skip(out@.len() as int));
        }
    }
    out
}

} // verus!
