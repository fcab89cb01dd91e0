//! The URL extractor: scans arbitrary text for article URLs of the fixed
//! shape `https://snl.no/` followed by one or more word characters
//! (ASCII letters, digits, underscore), in order of appearance,
//! duplicates kept. Each match takes as many word characters as it can,
//! and scanning resumes right after it.

use vstd::prelude::*;
use vstd::string::{StrSliceExecFns, StringExecFns};
use crate::chars::str_chars;

verus! {

/// The character at position `m` of the fixed URL prefix `https://snl.no/`.
pub open spec fn prefix_char(m: int) -> char {
    if m == 0 {
        'h'
    } else if m == 1 {
        't'
    } else if m == 2 {
        't'
    } else if m == 3 {
        'p'
    } else if m == 4 {
        's'
    } else if m == 5 {
        ':'
    } else if m == 6 {
        '/'
    } else if m == 7 {
        '/'
    } else if m == 8 {
        's'
    } else if m == 9 {
        'n'
    } else if m == 10 {
        'l'
    } else if m == 11 {
        '.'
    } else if m == 12 {
        'n'
    } else if m == 13 {
        'o'
    } else {
        '/'
    }
}

/// The fixed URL prefix `https://snl.no/`, fifteen characters long.
pub open spec fn url_prefix() -> Seq<char> {
    Seq::new(15, |m: int| prefix_char(m))
}

/// A word character of the URL pattern: an ASCII letter, digit or underscore.
pub open spec fn is_word_char(c: char) -> bool {
    let u = c as u32;
    (97 <= u && u <= 122) || (65 <= u && u <= 90) || (48 <= u && u <= 57) || u == 95
}

/// First index at or after `k` that is past the end of `s` or holds a
/// character that is not a word character.
pub open spec fn word_end(s: Seq<char>, k: int) -> int
    decreases s.len() - k,
{
    if k < 0 || k >= s.len() {
        k
    } else if !is_word_char(s[k]) {
        k
    } else {
        word_end(s, k + 1)
    }
}

pub proof fn lemma_word_end_props(s: Seq<char>, k: int)
    requires
        0 <= k <= s.len(),
    ensures
        k <= word_end(s, k) <= s.len(),
        forall|m: int| k <= m < word_end(s, k) ==> is_word_char(#[trigger] s[m]),
        word_end(s, k) < s.len() ==> !is_word_char(s[word_end(s, k)]),
    decreases s.len() - k,
{
    if k >= s.len() {
    } else if !is_word_char(s[k]) {
    } else {
        lemma_word_end_props(s, k + 1);
    }
}

/// A URL match starting at the first character of `s`: the fixed prefix
/// followed by at least one word character.
pub open spec fn match_at_start(s: Seq<char>) -> bool {
    s.len() > 15 && s.take(15) == url_prefix() && is_word_char(s[15])
}

/// All article URLs in `s`, in order of appearance. A match extends over
/// every word character that follows its prefix, and scanning resumes
/// right after it; elsewhere the scan moves one character at a time.
pub open spec fn extract_urls(s: Seq<char>) -> Seq<Seq<char>>
    decreases s.len(),
    via extract_urls_decreases
{
    if s.len() == 0 {
        Seq::empty()
    } else if match_at_start(s) {
        let e = word_end(s, 16);
        seq![s.take(e)] + extract_urls(s.skip(e))
    } else {
        extract_urls(s.skip(1))
    }
}

#[via_fn]
proof fn extract_urls_decreases(s: Seq<char>) {
    if s.len() > 0 && match_at_start(s) {
        lemma_word_end_props(s, 16);
    }
}

/// The shape of an extracted URL: the fixed prefix, then only word
/// characters, at least one.
pub open spec fn is_article_url(u: Seq<char>) -> bool {
    &&& u.len() > 15
    &&& u.take(15) == url_prefix()
    &&& forall|m: int| 15 <= m < u.len() ==> is_word_char(#[trigger] u[m])
}

/// `u` occurs verbatim as a contiguous part of `s`.
pub open spec fn occurs_in(u: Seq<char>, s: Seq<char>) -> bool {
    exists|i: int| 0 <= i && i + u.len() <= s.len() && u == #[trigger] s.subrange(i, i + u.len())
}

/// Law: extraction is deterministic. Two runs over the same text return
/// the same URLs in the same order.
pub proof fn lemma_extraction_deterministic(s: Seq<char>, r1: Seq<Seq<char>>, r2: Seq<Seq<char>>)
    requires
        r1 == extract_urls(s),
        r2 == extract_urls(s),
    ensures
        r1 == r2,
{
}

/// Law: extraction reflects only pattern matches. Every extracted URL has
/// the fixed prefix followed by word characters only, and occurs verbatim
/// as a contiguous part of the scanned text.
pub proof fn lemma_extracted_urls_are_matches(s: Seq<char>, k: int)
    requires
        0 <= k < extract_urls(s).len(),
    ensures
        is_article_url(extract_urls(s)[k]),
        occurs_in(extract_urls(s)[k], s),
    decreases s.len(),
{
    if match_at_start(s) {
        let e = word_end(s, 16);
        lemma_word_end_props(s, 16);
        if k == 0 {
            let u = s.take(e);
            assert(u.take(15) =~= s.take(15));
            assert(s.take(15) =~= url_prefix());
            assert(forall|m: int| 15 <= m < u.len() ==> is_word_char(#[trigger] u[m]));
            assert(u == s.subrange(0, 0 + u.len() as int)) by {
                assert(u =~= s.subrange(0, 0 + u.len() as int));
            }
            assert(occurs_in(u, s));
        } else {
            lemma_extracted_urls_are_matches(s.skip(e), k - 1);
            let u = extract_urls(s)[k];
            assert(u == extract_urls(s.skip(e))[k - 1]);
            let i = choose|i: int|
                0 <= i && i + u.len() <= s.skip(e).len() && u == #[trigger] s.skip(e).subrange(
                    i,
                    i + u.len(),
                );
            assert(u == s.subrange(e + i, (e + i) + u.len())) by {
                assert(s.skip(e).subrange(i, i + u.len()) =~= s.subrange(
                    e + i,
                    (e + i) + u.len(),
                ));
            }
            assert(occurs_in(u, s));
        }
    } else {
        lemma_extracted_urls_are_matches(s.skip(1), k);
        let u = extract_urls(s)[k];
        let i = choose|i: int|
            0 <= i && i + u.len() <= s.skip(1).len() && u == #[trigger] s.skip(1).subrange(
                i,
                i + u.len(),
            );
        assert(u == s.subrange(1 + i, (1 + i) + u.len())) by {
            assert(s.skip(1).subrange(i, i + u.len()) =~= s.subrange(1 + i, (1 + i) + u.len()));
        }
        assert(occurs_in(u, s));
    }
}

/// No URL match starts anywhere in `s`.
pub open spec fn match_free(s: Seq<char>) -> bool {
    forall|i: int| 0 <= i < s.len() ==> !match_at_start(#[trigger] s.skip(i))
}

/// Law: text in which no URL match starts anywhere yields an empty
/// extraction — and with it an empty run, since no requests are planned
/// from an empty URL list.
pub proof fn lemma_no_match_no_urls(s: Seq<char>)
    requires
        match_free(s),
    ensures
        extract_urls(s) == Seq::<Seq<char>>::empty(),
    decreases s.len(),
{
    if s.len() > 0 {
        assert(s.skip(0) =~= s);
        assert(!match_at_start(s));
        assert forall|i: int| 0 <= i < s.skip(1).len() implies !match_at_start(
            #[trigger] s.skip(1).skip(i),
        ) by {
            assert(s.skip(1).skip(i) =~= s.skip(i + 1));
        }
        lemma_no_match_no_urls(s.skip(1));
    }
}

/// The character of the fixed prefix at position `m`, as a value.
fn prefix_char_at(m: usize) -> (c: char)
    requires
        m < 15,
    ensures
        c == prefix_char(m as int),
{
    match m {
        0 => 'h',
        1 => 't',
        2 => 't',
        3 => 'p',
        4 => 's',
        5 => ':',
        6 => '/',
        7 => '/',
        8 => 's',
        9 => 'n',
        10 => 'l',
        11 => '.',
        12 => 'n',
        13 => 'o',
        _ => '/',
    }
}

/// Whether `c` is a word character of the URL pattern.
pub fn word_char(c: char) -> (r: bool)
    ensures
        r == is_word_char(c),
{
    let u = c as u32;
    (97 <= u && u <= 122) || (65 <= u && u <= 90) || (48 <= u && u <= 57) || u == 95
}

/// Whether a URL match starts at position `i` of `cs`.
fn match_at(cs: &Vec<char>, i: usize) -> (r: bool)
    requires
        i < cs@.len(),
    ensures
        r == match_at_start(cs@.skip(i as int)),
{
    let ghost sfx = cs@.skip(i as int);
    if cs.len() - i < 16 {
        return false;
    }
    let mut m: usize = 0;
    while m < 15
        invariant
            m <= 15,
            i + 16 <= cs@.len(),
            cs@.len() <= usize::MAX,
            sfx == cs@.skip(i as int),
            forall|t: int| 0 <= t < m ==> sfx[t] == prefix_char(t),
        decreases 15 - m,
    {
        let c = cs[i + m];
        assert(sfx[m as int] == cs@[i + m]);
        if c != prefix_char_at(m) {
            assert(sfx.take(15)[m as int] != url_prefix()[m as int]);
            return false;
        }
        m = m + 1;
    }
    assert(sfx.take(15) =~= url_prefix());
    let c = cs[i + 15];
    assert(sfx[15] == cs@[i + 15]);
    word_char(c)
}

/// Extracts every article URL from the sitemap text, in order of
/// appearance, duplicates kept.
pub fn get_urls(sitemap: &str) -> (urls: Vec<String>)
    ensures
        urls.deep_view() == extract_urls(sitemap@),
{
    let cs = str_chars(sitemap);
    let mut urls: Vec<String> = Vec::new();
    let mut i: usize = 0;
    proof {
        assert(sitemap@.skip(0) =~= sitemap@);
        assert(urls.deep_view() + extract_urls(sitemap@) =~= extract_urls(sitemap@));
    }
    while i < cs.len()
        invariant
            cs@ == sitemap@,
            i <= cs@.len(),
            extract_urls(sitemap@) == urls.deep_view() + extract_urls(sitemap@.skip(i as int)),
        decreases cs@.len() - i,
    {
        let ghost sfx = sitemap@.skip(i as int);
        if match_at(&cs, i) {
            proof {
                lemma_word_end_props(sfx, 16);
            }
            let mut k: usize = i + 16;
            while k < cs.len()
                invariant
                    i + 16 <= k <= cs@.len(),
                    cs@ == sitemap@,
                    sfx == sitemap@.skip(i as int),
                    i < cs@.len(),
                    word_end(sfx, 16) == word_end(sfx, k - i),
                ensures
                    i + 16 <= k <= cs@.len(),
                    word_end(sfx, 16) == k - i,
                decreases cs@.len() - k,
            {
                assert(sfx[k - i] == cs@[k as int]);
                if !word_char(cs[k]) {
                    proof {
                        assert(word_end(sfx, k - i) == k - i);
                    }
                    break;
                }
                k = k + 1;
            }
            let ghost e = word_end(sfx, 16);
            assert(e == k - i);
            let url = String::from_str(sitemap.substring_char(i, k));
            proof {
                assert(sfx.take(e) =~= sitemap@.subrange(i as int, k as int));
                assert(sfx.skip(e) =~= sitemap@.skip(k as int));
            }
            let ghost old_dv = urls.deep_view();
            urls.push(url);
            proof {
                assert(urls.deep_view() =~= old_dv.push(url@));
                assert(old_dv.push(url@) + extract_urls(sitemap@.skip(k as int)) =~= old_dv + (
                seq![url@] + extract_urls(sitemap@.skip(k as int))));
            }
            i = k;
        } else {
            proof {
                assert(sfx.skip(1) =~= sitemap@.skip(i + 1));
            }
            i = i + 1;
        }
    }
    proof {
        assert(sitemap@.skip(i as int) =~= Seq::<char>::empty());
        assert(urls.deep_view() + extract_urls(sitemap@.skip(i as int)) =~= urls.deep_view());
    }
    urls
}

} // verus!
