//! The collection writer's text: serializes the cleaned article list as a
//! single JSON array of objects, fields in schema order. String contents
//! are escaped the usual JSON way: `"` and `\` get a backslash, the named
//! control characters their short forms, every other control character a
//! `\u00..` sequence with lowercase hex digits; nothing else is changed.
//! Writing the text to the output file is the caller's part.

use vstd::prelude::*;
use crate::article::SnlArticle;
use crate::chars::{push_char, str_chars};

verus! {

/// The decimal digit character for a value below ten.
pub open spec fn dec_digit(d: int) -> char {
    if d == 0 {
        '0'
    } else if d == 1 {
        '1'
    } else if d == 2 {
        '2'
    } else if d == 3 {
        '3'
    } else if d == 4 {
        '4'
    } else if d == 5 {
        '5'
    } else if d == 6 {
        '6'
    } else if d == 7 {
        '7'
    } else if d == 8 {
        '8'
    } else {
        '9'
    }
}

/// The lowercase hex digit character for a value below sixteen.
pub open spec fn hex_digit(d: int) -> char {
    if d < 10 {
        dec_digit(d)
    } else if d == 10 {
        'a'
    } else if d == 11 {
        'b'
    } else if d == 12 {
        'c'
    } else if d == 13 {
        'd'
    } else if d == 14 {
        'e'
    } else {
        'f'
    }
}

/// The decimal representation of `n`, most significant digit first, no sign
/// and no leading zero (a single `'0'` for zero).
pub open spec fn dec_rep(n: nat) -> Seq<char>
    decreases n,
{
    if n < 10 {
        seq![dec_digit(n as int)]
    } else {
        dec_rep(n / 10) + seq![dec_digit((n % 10) as int)]
    }
}

/// What a character contributes to a JSON string body.
pub open spec fn escape_char(c: char) -> Seq<char> {
    let u = c as u32;
    if c == '"' {
        seq!['\\', '"']
    } else if c == '\\' {
        seq!['\\', '\\']
    } else if u == 8 {
        seq!['\\', 'b']
    } else if u == 9 {
        seq!['\\', 't']
    } else if u == 10 {
        seq!['\\', 'n']
    } else if u == 12 {
        seq!['\\', 'f']
    } else if u == 13 {
        seq!['\\', 'r']
    } else if u < 32 {
        seq!['\\', 'u', '0', '0', hex_digit(u as int / 16), hex_digit(u as int % 16)]
    } else {
        seq![c]
    }
}

/// The body of a JSON string: every character escaped in place.
pub open spec fn escape_str(s: Seq<char>) -> Seq<char>
    decreases s.len(),
{
    if s.len() == 0 {
        Seq::empty()
    } else {
        escape_str(s.drop_last()) + escape_char(s.last())
    }
}

/// A JSON string: the escaped body between double quotes.
pub open spec fn quoted(s: Seq<char>) -> Seq<char> {
    seq!['"'] + escape_str(s) + seq!['"']
}

/// The JSON object of one article, fields in schema order.
pub open spec fn article_json(a: SnlArticle) -> Seq<char> {
    "{\"id\":"@ + dec_rep(a.id as nat) + ",\"url\":"@ + quoted(a.url@) + ",\"title\":"@ + quoted(
        a.title@,
    ) + ",\"subject_title\":"@ + quoted(a.subject_title@) + ",\"xhtml_body\":"@ + quoted(
        a.xhtml_body@,
    ) + "}"@
}

/// The comma-separated object list of a JSON array.
pub open spec fn articles_json_items(list: Seq<SnlArticle>) -> Seq<char>
    decreases list.len(),
{
    if list.len() == 0 {
        Seq::empty()
    } else if list.len() == 1 {
        article_json(list[0])
    } else {
        articles_json_items(list.drop_last()) + seq![','] + article_json(list.last())
    }
}

/// The JSON array of a whole article list.
pub open spec fn articles_json(list: Seq<SnlArticle>) -> Seq<char> {
    seq!['['] + articles_json_items(list) + seq![']']
}

/// The decimal digit character for `d`, as a value.
fn dec_digit_at(d: usize) -> (c: char)
    requires
        d < 10,
    ensures
        c == dec_digit(d as int),
{
    match d {
        0 => '0',
        1 => '1',
        2 => '2',
        3 => '3',
        4 => '4',
        5 => '5',
        6 => '6',
        7 => '7',
        8 => '8',
        _ => '9',
    }
}

/// The lowercase hex digit character for `d`, as a value.
fn hex_digit_at(d: u32) -> (c: char)
    requires
        d < 16,
    ensures
        c == hex_digit(d as int),
{
    match d {
        0 => '0',
        1 => '1',
        2 => '2',
        3 => '3',
        4 => '4',
        5 => '5',
        6 => '6',
        7 => '7',
        8 => '8',
        9 => '9',
        10 => 'a',
        11 => 'b',
        12 => 'c',
        13 => 'd',
        14 => 'e',
        _ => 'f',
    }
}

/// Appends the decimal representation of `n`.
fn push_dec(n: usize, out: &mut String)
    ensures
        final(out)@ == old(out)@ + dec_rep(n as nat),
    decreases n,
{
    if n >= 10 {
        push_dec(n / 10, out);
    }
    let c = dec_digit_at(n % 10);
    push_char(out, c);
    proof {
        assert(final(out)@ =~= old(out)@ + dec_rep(n as nat));
    }
}

/// Appends the JSON string for `s`: opening quote, escaped body, closing
/// quote.
fn push_json_string(s: &str, out: &mut String)
    ensures
        final(out)@ == old(out)@ + quoted(s@),
{
    let cs = str_chars(s);
    push_char(out, '"');
    let ghost base = out@;
    let mut i: usize = 0;
    proof {
        assert(escape_str(s@.take(0)) =~= Seq::<char>::empty());
        assert(base + escape_str(s@.take(0)) =~= base);
    }
    while i < cs.len()
        invariant
            cs@ == s@,
            i <= cs@.len(),
            out@ == base + escape_str(s@.take(i as int)),
        decreases cs@.len() - i,
    {
        let c = cs[i];
        let ghost before = out@;
        let u = c as u32;
        if c == '"' {
            push_char(out, '\\');
            push_char(out, '"');
        } else if c == '\\' {
            push_char(out, '\\');
            push_char(out, '\\');
        } else if u == 8 {
            push_char(out, '\\');
            push_char(out, 'b');
        } else if u == 9 {
            push_char(out, '\\');
            push_char(out, 't');
        } else if u == 10 {
            push_char(out, '\\');
            push_char(out, 'n');
        } else if u == 12 {
            push_char(out, '\\');
            push_char(out, 'f');
        } else if u == 13 {
            push_char(out, '\\');
            push_char(out, 'r');
        } else if u < 32 {
            push_char(out, '\\');
            push_char(out, 'u');
            push_char(out, '0');
            push_char(out, '0');
            let hi = hex_digit_at(u / 16);
            push_char(out, hi);
            let lo = hex_digit_at(u % 16);
            push_char(out, lo);
        } else {
            push_char(out, c);
        }
        proof {
            assert(out@ =~= before + escape_char(s@[i as int]));
            assert(s@.take(i + 1).drop_last() =~= s@.take(i as int));
            assert(s@.take(i + 1).last() == s@[i as int]);
            assert(out@ =~= base + escape_str(s@.take(i + 1)));
        }
        i = i + 1;
    }
    proof {
        assert(s@.take(i as int) =~= s@);
    }
    push_char(out, '"');
    proof {
        assert(out@ =~= old(out)@ + quoted(s@));
    }
}

/// Appends the JSON object of one article, fields in schema order.
fn push_article_json(a: &SnlArticle, out: &mut String)
    ensures
        final(out)@ == old(out)@ + article_json(*a),
{
    out.append("{\"id\":");
    push_dec(a.id, out);
    out.append(",\"url\":");
    push_json_string(a.url.as_str(), out);
    out.append(",\"title\":");
    push_json_string(a.title.as_str(), out);
    out.append(",\"subject_title\":");
    push_json_string(a.subject_title.as_str(), out);
    out.append(",\"xhtml_body\":");
    push_json_string(a.xhtml_body.as_str(), out);
    out.append("}");
    proof {
        assert(out@ =~= old(out)@ + article_json(*a));
    }
}

/// Serializes the article list as a single JSON array of objects, in
/// order. The caller writes the returned text to the output file whole.
pub fn articles_to_json(articles: &Vec<SnlArticle>) -> (r: String)
    ensures
        r@ == articles_json(articles@),
{
    let mut out = String::new();
    push_char(&mut out, '[');
    let mut i: usize = 0;
    proof {
        assert(articles_json_items(articles@.take(0)) =~= Seq::<char>::empty());
        assert(out@ =~= seq!['['] + articles_json_items(articles@.take(0)));
    }
    while i < articles.len()
        invariant
            i <= articles@.len(),
            out@ == seq!['['] + articles_json_items(articles@.take(i as int)),
        decreases articles@.len() - i,
    {
        if i > 0 {
            push_char(&mut out, ',');
        }
        let ghost before = out@;
        push_article_json(&articles[i], &mut out);
        proof {
            assert(articles@.take(i + 1).drop_last() =~= articles@.take(i as int));
            assert(articles@.take(i + 1).last() == articles@[i as int]);
            assert(out@ =~= seq!['['] + articles_json_items(articles@.take(i + 1)));
        }
        i = i + 1;
    }
    proof {
        assert(articles@.take(i as int) =~= articles@);
    }
    push_char(&mut out, ']');
    proof {
        assert(out@ =~= articles_json(articles@));
    }
    out
}

} // verus!
