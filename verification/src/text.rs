//! Character-level helpers: string equality, whitespace-delimited token
//! counting, and rendering an index as decimal text.

use vstd::prelude::*;

verus! {

/// Whether a character counts as whitespace when splitting a text into words.
pub uninterp spec fn whitespace_char(c: char) -> bool;

/// Relies on `char::is_whitespace`: whether the character has the Unicode
/// whitespace property, which depends on the character alone.
#[verifier::external_body]
fn is_whitespace_char(c: char) -> (r: bool)
    ensures
        r == whitespace_char(c),
{
    c.is_whitespace()
}

/// Character-for-character equality of two string slices.
pub fn str_eq(a: &str, b: &str) -> (r: bool)
    ensures
        r == (a@ == b@),
{
    let alen = a.unicode_len();
    let blen = b.unicode_len();
    if alen != blen {
        return false;
    }
    let mut i: usize = 0;
    while i < alen
        invariant
            i <= alen,
            alen == a@.len(),
            blen == b@.len(),
            alen == blen,
            forall|j: int| 0 <= j < i ==> a@[j] == b@[j],
        decreases alen - i,
    {
        if a.get_char(i) != b.get_char(i) {
            return false;
        }
        i = i + 1;
    }
    proof {
        assert(a@ =~= b@);
    }
    true
}

/// Position `i` starts a word: it holds a non-whitespace character that is
/// either at the start of the text or preceded by whitespace.
pub open spec fn starts_token(s: Seq<char>, i: int) -> bool {
    &&& 0 <= i < s.len()
    &&& !whitespace_char(s[i])
    &&& (i == 0 || whitespace_char(s[i - 1]))
}

/// Number of words that start before position `n`.
pub open spec fn token_count_upto(s: Seq<char>, n: int) -> nat
    decreases n,
{
    if n <= 0 {
        0
    } else {
        token_count_upto(s, n - 1) + (if starts_token(s, n - 1) {
            1nat
        } else {
            0nat
        })
    }
}

/// Number of whitespace-delimited words in a text.
pub open spec fn token_count(s: Seq<char>) -> nat {
    token_count_upto(s, s.len() as int)
}

/// Counts the whitespace-delimited words of `text`.
pub fn count_words(text: &str) -> (n: usize)
    ensures
        n == token_count(text@),
{
    let len = text.unicode_len();
    let mut n: usize = 0;
    let mut prev_ws = true;
    let mut i: usize = 0;
    while i < len
        invariant
            i <= len,
            len == text@.len(),
            n == token_count_upto(text@, i as int),
            n <= i,
            prev_ws == (i == 0 || whitespace_char(text@[i as int - 1])),
        decreases len - i,
    {
        let c = text.get_char(i);
        let ws = is_whitespace_char(c);
        if !ws && prev_ws {
            n = n + 1;
        }
        prev_ws = ws;
        i = i + 1;
    }
    n
}

/// Total number of words across a sequence of texts.
pub open spec fn total_words(texts: Seq<Seq<char>>) -> nat
    decreases texts.len(),
{
    if texts.len() == 0 {
        0
    } else {
        total_words(texts.drop_last()) + token_count(texts.last())
    }
}

/// A word total capped at the largest value a `u16` field can hold.
pub open spec fn crop16(n: nat) -> nat {
    if n > u16::MAX {
        u16::MAX as nat
    } else {
        n
    }
}

/// The decimal digit character for `d < 10`.
pub open spec fn decimal_digit(d: nat) -> char {
    if d == 0 {
        '0'
    } else if d == 1 {
        '1'
    } else if d == 2 {
        '2'
    } else if d == 3 {
        '3'
    } else if d == 4 {
        '4'
    } else if d == 5 {
        '5'
    } else if d == 6 {
        '6'
    } else if d == 7 {
        '7'
    } else if d == 8 {
        '8'
    } else {
        '9'
    }
}

/// The decimal rendering of `n`, most significant digit first.
pub open spec fn decimal_chars(n: nat) -> Seq<char>
    decreases n,
{
    if n < 10 {
        seq![decimal_digit(n)]
    } else {
        decimal_chars(n / 10).push(decimal_digit(n % 10))
    }
}

fn digit_str(d: usize) -> (r: &'static str)
    requires
        d < 10,
    ensures
        r@ == seq![decimal_digit(d as nat)],
{
    proof {
        reveal_strlit("0");
        reveal_strlit("1");
        reveal_strlit("2");
        reveal_strlit("3");
        reveal_strlit("4");
        reveal_strlit("5");
        reveal_strlit("6");
        reveal_strlit("7");
        reveal_strlit("8");
        reveal_strlit("9");
    }
    let r = match d {
        0 => "0",
        1 => "1",
        2 => "2",
        3 => "3",
        4 => "4",
        5 => "5",
        6 => "6",
        7 => "7",
        8 => "8",
        _ => "9",
    };
    proof {
        assert(r@ =~= seq![decimal_digit(d as nat)]);
    }
    r
}

/// Renders an index as decimal text.
pub fn usize_to_string(n: usize) -> (s: String)
    ensures
        s@ == decimal_chars(n as nat),
    decreases n,
{
    if n < 10 {
        String::from_str(digit_str(n))
    } else {
        let mut s = usize_to_string(n / 10);
        s.append(digit_str(n % 10));
        proof {
            assert(decimal_chars((n / 10) as nat) + seq![decimal_digit(n as nat % 10)] =~= decimal_chars(
                (n / 10) as nat,
            ).push(decimal_digit(n as nat % 10)));
            assert(n as nat / 10 == (n / 10) as nat);
        }
        s
    }
}

} // verus!
