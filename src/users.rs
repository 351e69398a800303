//! Finding the user ID in a command argument: a bare ID of 16 to 20 digits,
//! or a mention `<@ID>` or `<@!ID>`, wherever it stands in the word.

use vstd::prelude::*;

use crate::text::{
    all_digits, digits_value, is_digit, parse_u64, parse_u64_spec, split_words, views_of,
    whitespace_words,
};

verus! {

/// How many decimal digits follow one another from position `p` on.
pub open spec fn digit_run(w: Seq<char>, p: int) -> nat
    decreases w.len() - p,
{
    if 0 <= p < w.len() && is_digit(w[p]) {
        1 + digit_run(w, p + 1)
    } else {
        0
    }
}

/// A bare ID at `p`: at least 16 digits, of which it takes up to 20.
pub open spec fn bare_id_at(w: Seq<char>, p: int) -> Option<Seq<char>> {
    let k = digit_run(w, p);
    if k >= 16 {
        Some(w.subrange(p, p + if k > 20 { 20 } else { k as int }))
    } else {
        None
    }
}

/// Where the digits of a mention at `p` start: after `<@`, and after a `!`
/// if one follows.
pub open spec fn mention_digits_start(w: Seq<char>, p: int) -> int {
    if p + 2 < w.len() && w[p + 2] == '!' {
        p + 3
    } else {
        p + 2
    }
}

/// A mention at `p`: `<@`, an optional `!`, 16 to 20 digits, then `>`.
pub open spec fn mention_id_at(w: Seq<char>, p: int) -> Option<Seq<char>> {
    let q = mention_digits_start(w, p);
    let k = digit_run(w, q);
    if 0 <= p && p + 1 < w.len() && w[p] == '<' && w[p + 1] == '@' && 16 <= k <= 20 && q + k
        < w.len() && w[q + k] == '>' {
        Some(w.subrange(q, q + k))
    } else {
        None
    }
}

/// The digits of an ID that starts at `p`, a bare one before a mention.
pub open spec fn id_digits_at(w: Seq<char>, p: int) -> Option<Seq<char>> {
    if bare_id_at(w, p) is Some {
        bare_id_at(w, p)
    } else {
        mention_id_at(w, p)
    }
}

/// The digits of the leftmost ID that starts at `p` or later.
pub open spec fn first_id_digits(w: Seq<char>, p: int) -> Option<Seq<char>>
    decreases w.len() - p,
{
    if p < 0 || p >= w.len() {
        None
    } else if id_digits_at(w, p) is Some {
        id_digits_at(w, p)
    } else {
        first_id_digits(w, p + 1)
    }
}

/// The user ID in a word: the leftmost ID in it, if its value fits in a `u64`.
pub open spec fn user_id_of_word(w: Seq<char>) -> Option<u64> {
    match first_id_digits(w, 0) {
        Some(d) => if digits_value(d) <= u64::MAX {
            Some(digits_value(d) as u64)
        } else {
            None
        },
        None => None,
    }
}

proof fn lemma_digit_run_digits(w: Seq<char>, p: int, j: int)
    requires
        0 <= p,
        0 <= j < digit_run(w, p),
    ensures
        p + j < w.len(),
        is_digit(w[p + j]),
    decreases j,
{
    if j > 0 {
        lemma_digit_run_digits(w, p + 1, j - 1);
    }
}

proof fn lemma_parse_digits(w: Seq<char>, from: int, to: int)
    requires
        0 <= from < to <= w.len(),
        to - from <= digit_run(w, from),
    ensures
        parse_u64_spec(w.subrange(from, to)) == (if digits_value(w.subrange(from, to))
            <= u64::MAX {
            Some(digits_value(w.subrange(from, to)) as u64)
        } else {
            None
        }),
{
    let d = w.subrange(from, to);
    assert forall|i: int| 0 <= i < d.len() implies is_digit(#[trigger] d[i]) by {
        lemma_digit_run_digits(w, from, i);
    }
    assert(all_digits(d));
    assert(d[0] != '+');
}

fn is_digit_char(c: char) -> (r: bool)
    ensures
        r == is_digit(c),
{
    '0' <= c && c <= '9'
}

/// The digit run from `p` on, counted up to `cap`.
fn digit_run_capped(w: &str, n: usize, p: usize, cap: usize) -> (r: usize)
    requires
        n == w@.len(),
        p <= n,
    ensures
        r == (if digit_run(w@, p as int) < cap {
            digit_run(w@, p as int)
        } else {
            cap as nat
        }),
        p + r <= n,
{
    let mut i: usize = p;
    while i < n && i - p < cap && is_digit_char(w.get_char(i))
        invariant
            p <= i <= n,
            n == w@.len(),
            i - p <= cap,
            digit_run(w@, p as int) == (i - p) + digit_run(w@, i as int),
        decreases n - i,
    {
        i = i + 1;
    }
    i - p
}

/// The user ID in a word, as the leftmost bare ID or mention in it gives it.
/// An ID whose value does not fit in a `u64` is none.
pub fn user_id_from_word(word: &str) -> (r: Option<u64>)
    ensures
        r == user_id_of_word(word@),
{
    let n = word.unicode_len();
    let mut p: usize = 0;
    while p < n
        invariant
            p <= n,
            n == word@.len(),
            first_id_digits(word@, 0) == first_id_digits(word@, p as int),
        decreases n - p,
    {
        let k = digit_run_capped(word, n, p, 21);
        if k >= 16 {
            let len = if k > 20 {
                20
            } else {
                k
            };
            proof {
                lemma_parse_digits(word@, p as int, p + len);
            }
            return parse_u64(word.substring_char(p, p + len));
        }
        if p + 1 < n && word.get_char(p) == '<' && word.get_char(p + 1) == '@' {
            let q = if p + 2 < n && word.get_char(p + 2) == '!' {
                p + 3
            } else {
                p + 2
            };
            let m = digit_run_capped(word, n, q, 21);
            if 16 <= m && m <= 20 && q + m < n && word.get_char(q + m) == '>' {
                proof {
                    lemma_parse_digits(word@, q as int, q + m);
                }
                return parse_u64(word.substring_char(q, q + m));
            }
        }
        p = p + 1;
    }
    None
}

/// The user ID in each word: the ID, or the word that holds none.
pub fn user_ids_from_words(words: &Vec<String>) -> (r: Vec<Result<u64, String>>)
    ensures
        r.len() == words.len(),
        forall|i: int|
            0 <= i < r.len() ==> match user_id_of_word(#[trigger] words@[i]@) {
                Some(id) => r[i] == Ok::<u64, String>(id),
                None => r[i] matches Err(a) && a@ == words@[i]@,
            },
{
    let mut r: Vec<Result<u64, String>> = Vec::new();
    let mut i: usize = 0;
    while i < words.len()
        invariant
            i <= words.len(),
            r.len() == i,
            forall|j: int|
                0 <= j < i ==> match user_id_of_word(#[trigger] words@[j]@) {
                    Some(id) => r[j] == Ok::<u64, String>(id),
                    None => r[j] matches Err(a) && a@ == words@[j]@,
                },
        decreases words.len() - i,
    {
        match user_id_from_word(words[i].as_str()) {
            Some(id) => r.push(Ok(id)),
            None => r.push(Err(words[i].clone())),
        }
        i = i + 1;
    }
    r
}

/// The user ID in each whitespace-separated argument, in order.
pub fn user_ids_from_args(args: &str) -> (r: Vec<Result<u64, String>>)
    ensures
        r.len() == whitespace_words(args@).len(),
        forall|i: int|
            0 <= i < r.len() ==> match user_id_of_word(#[trigger] whitespace_words(args@)[i]) {
                Some(id) => r[i] == Ok::<u64, String>(id),
                None => r[i] matches Err(a) && a@ == whitespace_words(args@)[i],
            },
{
    let words = split_words(args);
    let r = user_ids_from_words(&words);
    assert forall|i: int| 0 <= i < r.len() implies #[trigger] whitespace_words(args@)[i] == words@[i]@ by {
        assert(views_of(words@)[i] == words@[i]@);
    }
    r
}

} // verus!
