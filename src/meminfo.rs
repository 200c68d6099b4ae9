use vstd::prelude::*;
use crate::text::{chars_of, copy_range, parse_u64_chars, parse_u64_spec, NumberError};

verus! {

/// Why the total memory could not be read from a meminfo listing.
#[derive(Clone, Copy, Debug, PartialEq, Eq, Structural)]
pub enum MemInfoError {
    /// No line starts with `MemTotal:` followed by a value.
    Missing,
    /// The value after `MemTotal:` is not an unsigned integer.
    Value(NumberError),
}

/// Blanks that separate the fields of one line: the characters that
/// `char::is_whitespace` accepts, but for the newline that ends the line.
pub open spec fn is_blank(c: char) -> bool {
    c == ' ' || c == '\t' || c == '\r' || c == '\x0b' || c == '\x0c' || c == '\u{85}'
        || c == '\u{a0}' || c == '\u{1680}' || ('\u{2000}' <= c && c <= '\u{200a}') || c
        == '\u{2028}' || c == '\u{2029}' || c == '\u{202f}' || c == '\u{205f}' || c == '\u{3000}'
}

fn blank(c: char) -> (r: bool)
    ensures
        r == is_blank(c),
{
    c == ' ' || c == '\t' || c == '\r' || c == '\x0b' || c == '\x0c' || c == '\u{85}'
        || c == '\u{a0}' || c == '\u{1680}' || ('\u{2000}' <= c && c <= '\u{200a}') || c
        == '\u{2028}' || c == '\u{2029}' || c == '\u{202f}' || c == '\u{205f}' || c == '\u{3000}'
}

/// The index of the newline that ends the line holding `i`, or the length.
pub open spec fn line_end(s: Seq<char>, i: int) -> int
    decreases s.len() - i,
{
    if i >= s.len() || s[i] == '\n' {
        i
    } else {
        line_end(s, i + 1)
    }
}

/// The first index from `i` on, before `e`, that holds no blank.
pub open spec fn skip_blanks(s: Seq<char>, i: int, e: int) -> int
    decreases e - i,
{
    if i >= e || !is_blank(s[i]) {
        i
    } else {
        skip_blanks(s, i + 1, e)
    }
}

/// The first index from `i` on, before `e`, that holds a blank.
pub open spec fn field_end(s: Seq<char>, i: int, e: int) -> int
    decreases e - i,
{
    if i >= e || is_blank(s[i]) {
        i
    } else {
        field_end(s, i + 1, e)
    }
}

pub open spec fn mem_total_label() -> Seq<char> {
    seq!['M', 'e', 'm', 'T', 'o', 't', 'a', 'l', ':']
}

/// The second field of the first line, from index `i` on, whose first field
/// is `MemTotal:` and which has a second field.
pub open spec fn mem_total_field(s: Seq<char>, i: int) -> Option<Seq<char>>
    decreases s.len() - i,
{
    if i < 0 || i >= s.len() {
        None
    } else {
        let e = line_end(s, i);
        let a = skip_blanks(s, i, e);
        let b = field_end(s, a, e);
        let c = skip_blanks(s, b, e);
        let d = field_end(s, c, e);
        if s.subrange(a, b) == mem_total_label() && c < e {
            Some(s.subrange(c, d))
        } else if i <= e < s.len() {
            mem_total_field(s, e + 1)
        } else {
            None
        }
    }
}

/// What a meminfo listing says of the total memory, in kilobytes.
pub open spec fn mem_total_spec(s: Seq<char>) -> Result<u64, MemInfoError> {
    match mem_total_field(s, 0) {
        None => Err(MemInfoError::Missing),
        Some(f) => match parse_u64_spec(f) {
            Ok(v) => Ok(v),
            Err(k) => Err(MemInfoError::Value(k)),
        },
    }
}

proof fn lemma_line_end_bounds(s: Seq<char>, i: int)
    requires
        0 <= i <= s.len(),
    ensures
        i <= line_end(s, i) <= s.len(),
        forall|k: int| i <= k < line_end(s, i) ==> s[k] != '\n',
        line_end(s, i) < s.len() ==> s[line_end(s, i)] == '\n',
    decreases s.len() - i,
{
    if i < s.len() && s[i] != '\n' {
        lemma_line_end_bounds(s, i + 1);
    }
}

fn find_line_end(s: &Vec<char>, i: usize) -> (r: usize)
    requires
        i <= s@.len(),
    ensures
        r == line_end(s@, i as int),
{
    let mut j = i;
    while j < s.len() && s[j] != '\n'
        invariant
            i <= j <= s@.len(),
            line_end(s@, j as int) == line_end(s@, i as int),
        decreases s@.len() - j,
    {
        j = j + 1;
    }
    j
}

fn skip_blank_chars(s: &Vec<char>, i: usize, e: usize) -> (r: usize)
    requires
        i <= e <= s@.len(),
    ensures
        r == skip_blanks(s@, i as int, e as int),
        i <= r <= e,
{
    let mut j = i;
    while j < e && blank(s[j])
        invariant
            i <= j <= e,
            e <= s@.len(),
            skip_blanks(s@, j as int, e as int) == skip_blanks(s@, i as int, e as int),
        decreases e - j,
    {
        j = j + 1;
    }
    j
}

fn find_field_end(s: &Vec<char>, i: usize, e: usize) -> (r: usize)
    requires
        i <= e <= s@.len(),
    ensures
        r == field_end(s@, i as int, e as int),
        i <= r <= e,
{
    let mut j = i;
    while j < e && !blank(s[j])
        invariant
            i <= j <= e,
            e <= s@.len(),
            field_end(s@, j as int, e as int) == field_end(s@, i as int, e as int),
        decreases e - j,
    {
        j = j + 1;
    }
    j
}

fn is_mem_total_label(s: &Vec<char>, a: usize, b: usize) -> (r: bool)
    requires
        a <= b <= s@.len(),
    ensures
        r == (s@.subrange(a as int, b as int) == mem_total_label()),
{
    let w = copy_range(s, a, b);
    if w.len() != 9 {
        return false;
    }
    let r = w[0] == 'M' && w[1] == 'e' && w[2] == 'm' && w[3] == 'T' && w[4] == 'o' && w[5] == 't'
        && w[6] == 'a' && w[7] == 'l' && w[8] == ':';
    proof {
        if r {
            assert(w@ =~= mem_total_label());
        } else {
            assert(w@ != mem_total_label()) by {
                if w@ == mem_total_label() {
                    assert(w@[0] == 'M');
                }
            }
        }
    }
    r
}

/// Reads the total memory, in kilobytes, from a meminfo listing: the value
/// on the first line whose first field is `MemTotal:`.
pub fn parse_mem_total(text: &str) -> (r: Result<u64, MemInfoError>)
    ensures
        r == mem_total_spec(text@),
{
    let s = chars_of(text);
    let mut i: usize = 0;
    while i < s.len()
        invariant
            s@ == text@,
            i <= s@.len(),
            mem_total_field(s@, i as int) == mem_total_field(s@, 0),
        decreases s@.len() - i,
    {
        let e = find_line_end(&s, i);
        proof {
            lemma_line_end_bounds(s@, i as int);
        }
        let a = skip_blank_chars(&s, i, e);
        let b = find_field_end(&s, a, e);
        let c = skip_blank_chars(&s, b, e);
        let d = find_field_end(&s, c, e);
        if is_mem_total_label(&s, a, b) && c < e {
            let f = copy_range(&s, c, d);
            return match parse_u64_chars(&f) {
                Ok(v) => Ok(v),
                Err(k) => Err(MemInfoError::Value(k)),
            };
        }
        i = if e < s.len() { e + 1 } else { e };
        assert(mem_total_field(s@, e + 1) == mem_total_field(s@, i as int));
    }
    Err(MemInfoError::Missing)
}

} // verus!
