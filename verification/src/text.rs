//! Characters and plain-text helpers: whitespace classification, ASCII
//! case folding, whitespace tokenization and line splitting.

use vstd::prelude::*;
use vstd::string::*;

verus! {

/// The characters that separate tokens: the Unicode `White_Space` set.
pub open spec fn is_space(c: char) -> bool {
    ||| c == ' '
    ||| ('\t' <= c && c <= '\r')
    ||| c == '\u{85}'
    ||| c == '\u{a0}'
    ||| c == '\u{1680}'
    ||| ('\u{2000}' <= c && c <= '\u{200a}')
    ||| c == '\u{2028}'
    ||| c == '\u{2029}'
    ||| c == '\u{202f}'
    ||| c == '\u{205f}'
    ||| c == '\u{3000}'
}

/// True of the characters `'A'` through `'Z'`.
pub open spec fn is_upper(c: char) -> bool {
    'A' <= c && c <= 'Z'
}

/// Case-folds one character: an upper-case ASCII letter becomes its
/// lower-case form; every other character is unchanged.
pub open spec fn lower_char(c: char) -> char {
    if is_upper(c) {
        ((c as u8) + 32) as char
    } else {
        c
    }
}

/// Case-folds every character of a string.
pub open spec fn lower_seq(s: Seq<char>) -> Seq<char> {
    s.map_values(|c: char| lower_char(c))
}

pub fn char_is_space(c: char) -> (b: bool)
    ensures
        b == is_space(c),
{
    c == ' ' || ('\t' <= c && c <= '\r') || c == '\u{85}' || c == '\u{a0}' || c == '\u{1680}' || (
    '\u{2000}' <= c && c <= '\u{200a}') || c == '\u{2028}' || c == '\u{2029}' || c == '\u{202f}'
        || c == '\u{205f}' || c == '\u{3000}'
}

/// The lower-case form of an upper-case ASCII letter, as a one-character
/// string slice.
fn lower_letter(c: char) -> (r: &'static str)
    requires
        is_upper(c),
    ensures
        r@ =~= seq![lower_char(c)],
{
    let lowers = "abcdefghijklmnopqrstuvwxyz";
    proof {
        reveal_strlit("abcdefghijklmnopqrstuvwxyz");
    }
    let idx = (c as u8 - 65u8) as usize;
    let r = lowers.substring_char(idx, idx + 1);
    proof {
        assert(lowers@[idx as int] == lower_char(c));
        assert(r@ =~= seq![lower_char(c)]);
    }
    r
}

/// Whether two string slices hold the same characters.
pub fn str_eq(a: &str, b: &str) -> (r: bool)
    ensures
        r == (a@ == b@),
{
    let a_len = a.unicode_len();
    let b_len = b.unicode_len();
    if a_len != b_len {
        return false;
    }
    for i in 0..a_len
        invariant
            a_len == a@.len(),
            b_len == b@.len(),
            a_len == b_len,
            forall|k: int| 0 <= k < i ==> a@[k] == b@[k],
    {
        if a.get_char(i) != b.get_char(i) {
            return false;
        }
    }
    proof {
        assert(a@ =~= b@);
    }
    true
}

/// Case-folds a string slice into a fresh `String`.
pub fn lower_str(s: &str) -> (r: String)
    ensures
        r@ == lower_seq(s@),
{
    let len = s.unicode_len();
    let mut r = String::new();
    for i in 0..len
        invariant
            len == s@.len(),
            r@ =~= lower_seq(s@).subrange(0, i as int),
    {
        let c = s.get_char(i);
        if 'A' <= c && c <= 'Z' {
            r.append(lower_letter(c));
        } else {
            r.append(s.substring_char(i, i + 1));
        }
        proof {
            assert(r@ =~= lower_seq(s@).subrange(0, i + 1));
        }
    }
    proof {
        assert(lower_seq(s@).subrange(0, s@.len() as int) =~= lower_seq(s@));
    }
    r
}

/// The end of the run of non-space characters that starts at `i`: the
/// first index at or after `i` holding a space, or the end of the string.
pub open spec fn token_end(s: Seq<char>, i: int) -> int
    decreases s.len() - i,
{
    if i < 0 || i >= s.len() || is_space(s[i]) {
        i
    } else {
        token_end(s, i + 1)
    }
}

pub proof fn lemma_token_end_bounds(s: Seq<char>, i: int)
    requires
        0 <= i <= s.len(),
    ensures
        i <= token_end(s, i) <= s.len(),
    decreases s.len() - i,
{
    if i < s.len() && !is_space(s[i]) {
        lemma_token_end_bounds(s, i + 1);
    }
}

/// The whitespace-separated tokens of `s` from index `i` on: maximal
/// runs of non-space characters, with empties discarded.
pub open spec fn tokens_from(s: Seq<char>, i: int) -> Seq<Seq<char>>
    decreases s.len() - i,
{
    if i < 0 || i >= s.len() {
        seq![]
    } else if is_space(s[i]) {
        tokens_from(s, i + 1)
    } else {
        proof {
            lemma_token_end_bounds(s, i + 1);
        }
        seq![s.subrange(i, token_end(s, i))] + tokens_from(s, token_end(s, i))
    }
}

/// The whitespace-separated tokens of one line.
pub open spec fn spec_tokens(s: Seq<char>) -> Seq<Seq<char>> {
    tokens_from(s, 0)
}

/// Splits a string slice on runs of whitespace, discarding empties.
pub fn tokenize<'a>(line: &'a str) -> (r: Vec<&'a str>)
    ensures
        r.deep_view() == spec_tokens(line@),
{
    let len = line.unicode_len();
    let mut r: Vec<&'a str> = Vec::new();
    let mut i: usize = 0;
    while i < len
        invariant
            len == line@.len(),
            0 <= i <= len,
            r.deep_view() + tokens_from(line@, i as int) =~= spec_tokens(line@),
        decreases len - i,
    {
        let c = line.get_char(i);
        if char_is_space(c) {
            i += 1;
        } else {
            let ghost start = i as int;
            let mut j: usize = i + 1;
            while j < len && !char_is_space(line.get_char(j))
                invariant
                    len == line@.len(),
                    start < j <= len,
                    token_end(line@, start) == token_end(line@, j as int),
                decreases len - j,
            {
                j += 1;
            }
            proof {
                assert(token_end(line@, j as int) == j);
            }
            let tok = line.substring_char(i, j);
            r.push(tok);
            proof {
                assert(r.deep_view() + tokens_from(line@, j as int) =~= spec_tokens(line@));
            }
            i = j;
        }
    }
    proof {
        assert(r.deep_view() =~= spec_tokens(line@));
    }
    r
}

/// The first index at or after `i` holding a line feed, or the end of
/// the string.
pub open spec fn line_end(s: Seq<char>, i: int) -> int
    decreases s.len() - i,
{
    if i < 0 || i >= s.len() || s[i] == '\n' {
        i
    } else {
        line_end(s, i + 1)
    }
}

pub proof fn lemma_line_end_bounds(s: Seq<char>, i: int)
    requires
        0 <= i <= s.len(),
    ensures
        i <= line_end(s, i) <= s.len(),
    decreases s.len() - i,
{
    if i < s.len() && s[i] != '\n' {
        lemma_line_end_bounds(s, i + 1);
    }
}

/// One line's content: the run up to the line feed, with a final
/// carriage return stripped.
pub open spec fn strip_cr(l: Seq<char>) -> Seq<char> {
    if l.len() > 0 && l.last() == '\r' {
        l.drop_last()
    } else {
        l
    }
}

/// The lines of `s` from index `i` on: runs separated by line feeds,
/// each with a final carriage return stripped; a final line feed ends
/// the last line rather than opening an empty one.
pub open spec fn lines_from(s: Seq<char>, i: int) -> Seq<Seq<char>>
    decreases s.len() - i,
{
    if i < 0 || i >= s.len() {
        seq![]
    } else {
        proof {
            lemma_line_end_bounds(s, i);
        }
        if line_end(s, i) >= s.len() {
            seq![strip_cr(s.subrange(i, line_end(s, i)))]
        } else {
            seq![strip_cr(s.subrange(i, line_end(s, i)))] + lines_from(s, line_end(s, i) + 1)
        }
    }
}

/// The lines of a report text.
pub open spec fn spec_lines(s: Seq<char>) -> Seq<Seq<char>> {
    lines_from(s, 0)
}

/// Splits a string slice into its lines.
pub fn split_lines<'a>(text: &'a str) -> (r: Vec<&'a str>)
    ensures
        r.deep_view() == spec_lines(text@),
{
    let len = text.unicode_len();
    let mut r: Vec<&'a str> = Vec::new();
    let mut i: usize = 0;
    while i < len
        invariant
            len == text@.len(),
            0 <= i <= len,
            r.deep_view() + lines_from(text@, i as int) =~= spec_lines(text@),
        decreases len - i,
    {
        let ghost start = i as int;
        let mut j: usize = i;
        while j < len && text.get_char(j) != '\n'
            invariant
                len == text@.len(),
                start <= j <= len,
                line_end(text@, start) == line_end(text@, j as int),
            decreases len - j,
        {
            j += 1;
        }
        proof {
            assert(line_end(text@, j as int) == j);
        }
        let line = if j > i && text.get_char(j - 1) == '\r' {
            let l = text.substring_char(i, j - 1);
            proof {
                assert(l@ =~= strip_cr(text@.subrange(start, j as int)));
            }
            l
        } else {
            let l = text.substring_char(i, j);
            proof {
                assert(l@ =~= strip_cr(text@.subrange(start, j as int)));
            }
            l
        };
        r.push(line);
        if j < len {
            proof {
                assert(r.deep_view() + lines_from(text@, j + 1) =~= spec_lines(text@));
            }
            i = j + 1;
        } else {
            proof {
                assert(r.deep_view() + lines_from(text@, j as int) =~= spec_lines(text@));
            }
            i = j;
        }
    }
    proof {
        assert(r.deep_view() =~= spec_lines(text@));
    }
    r
}

} // verus!
