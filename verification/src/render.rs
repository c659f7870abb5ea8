//! Plain-text rendering helpers: HTML escaping, level badge classes, and
//! the bracketed source / location labels shown beside log lines.
//!
//! Terminal coloring and full page generation are left to callers; these
//! functions produce the uncolored text itself.

use vstd::prelude::*;
use crate::models::{LogLevel, spec_level_of, spec_level_str};
use crate::text::{chars_of, dec_digits, push_dec_u32, string_from_chars};

verus! {

/// The replacement for one character under HTML escaping.
pub open spec fn spec_escape_char(c: char) -> Seq<char> {
    if c == '&' {
        seq!['&', 'a', 'm', 'p', ';']
    } else if c == '<' {
        seq!['&', 'l', 't', ';']
    } else if c == '>' {
        seq!['&', 'g', 't', ';']
    } else if c == '"' {
        seq!['&', 'q', 'u', 'o', 't', ';']
    } else if c == '\'' {
        seq!['&', '#', 'x', '2', '7', ';']
    } else {
        seq![c]
    }
}

/// The HTML escaping of a character sequence.
pub open spec fn spec_escape(s: Seq<char>) -> Seq<char>
    decreases s.len(),
{
    if s.len() == 0 {
        Seq::empty()
    } else {
        spec_escape(s.drop_last()) + spec_escape_char(s.last())
    }
}

/// Escape the HTML special characters `&`, `<`, `>`, `"` and `'`.
pub fn escape_html(s: &str) -> (r: String)
    ensures
        r@ == spec_escape(s@),
{
    let cs = chars_of(s);
    let mut out: Vec<char> = Vec::new();
    let mut i: usize = 0;
    while i < cs.len()
        invariant
            i <= cs@.len(),
            out@ == spec_escape(cs@.take(i as int)),
        decreases cs@.len() - i,
    {
        let c = cs[i];
        if c == '&' {
            out.push('&');
            out.push('a');
            out.push('m');
            out.push('p');
            out.push(';');
        } else if c == '<' {
            out.push('&');
            out.push('l');
            out.push('t');
            out.push(';');
        } else if c == '>' {
            out.push('&');
            out.push('g');
            out.push('t');
            out.push(';');
        } else if c == '"' {
            out.push('&');
            out.push('q');
            out.push('u');
            out.push('o');
            out.push('t');
            out.push(';');
        } else if c == '\'' {
            out.push('&');
            out.push('#');
            out.push('x');
            out.push('2');
            out.push('7');
            out.push(';');
        } else {
            out.push(c);
        }
        i = i + 1;
        proof {
            assert(cs@.take(i as int).drop_last() =~= cs@.take(i as int - 1));
            assert(out@ =~= spec_escape(cs@.take(i as int - 1)) + spec_escape_char(
                cs@[i as int - 1],
            ));
        }
    }
    proof {
        assert(cs@.take(cs@.len() as int) =~= cs@);
    }
    string_from_chars(&out)
}

/// The style badge class for a severity string: the canonical name of the
/// level it parses to.
pub fn get_level_badge_class(level: &str) -> (r: &'static str)
    ensures
        r@ == spec_level_str(spec_level_of(level@)),
{
    LogLevel::from_str(level).as_str()
}

/// A source label: the source identifier in brackets.
pub fn format_source(source: &str) -> (r: String)
    ensures
        r@ == seq!['['] + source@ + seq![']'],
{
    let cs = chars_of(source);
    let mut out: Vec<char> = Vec::new();
    out.push('[');
    let mut i: usize = 0;
    while i < cs.len()
        invariant
            i <= cs@.len(),
            out@ == seq!['['] + cs@.take(i as int),
        decreases cs@.len() - i,
    {
        out.push(cs[i]);
        i = i + 1;
        proof {
            assert(out@ =~= seq!['['] + cs@.take(i as int));
        }
    }
    out.push(']');
    proof {
        assert(out@ =~= seq!['['] + cs@ + seq![']']);
    }
    string_from_chars(&out)
}

/// Where the file name starts in a path: just past the last `/`, or the
/// start when the path holds no `/`.
pub open spec fn spec_cut_point(s: Seq<char>) -> int
    decreases s.len(),
{
    if s.len() == 0 {
        0
    } else if s.last() == '/' {
        s.len() as int
    } else {
        spec_cut_point(s.drop_last())
    }
}

/// The file-name part of a path: everything after the last `/`.
pub open spec fn spec_base_name(s: Seq<char>) -> Seq<char> {
    s.skip(spec_cut_point(s))
}

proof fn lemma_cut_point_unique(s: Seq<char>, i: int)
    requires
        0 <= i <= s.len(),
        i == 0 || s[i - 1] == '/',
        forall|j: int| i <= j < s.len() ==> s[j] != '/',
    ensures
        spec_cut_point(s) == i,
    decreases s.len(),
{
    if s.len() == 0 {
    } else if s.last() == '/' {
        assert(i == s.len());
    } else {
        assert(i < s.len());
        lemma_cut_point_unique(s.drop_last(), i);
    }
}

/// A location label: the file name and line number in brackets, separated
/// by a colon.
pub fn format_location(file: &str, line: u32) -> (r: String)
    ensures
        r@ == seq!['['] + spec_base_name(file@) + seq![':'] + dec_digits(line as nat) + seq![
            ']',
        ],
{
    let cs = chars_of(file);
    let n = cs.len();
    let mut cut: usize = n;
    while cut > 0 && cs[cut - 1] != '/'
        invariant
            cut <= n,
            n == cs@.len(),
            cs@ == file@,
            forall|j: int| cut <= j < n ==> cs@[j] != '/',
        decreases cut,
    {
        cut = cut - 1;
    }
    proof {
        lemma_cut_point_unique(file@, cut as int);
    }
    let mut out: Vec<char> = Vec::new();
    out.push('[');
    let mut i: usize = cut;
    while i < n
        invariant
            cut <= i <= n,
            n == cs@.len(),
            cs@ == file@,
            out@ == seq!['['] + cs@.subrange(cut as int, i as int),
        decreases n - i,
    {
        out.push(cs[i]);
        i = i + 1;
        proof {
            assert(out@ =~= seq!['['] + cs@.subrange(cut as int, i as int));
        }
    }
    proof {
        assert(cs@.subrange(cut as int, n as int) =~= spec_base_name(file@));
    }
    out.push(':');
    push_dec_u32(&mut out, line);
    out.push(']');
    proof {
        assert(out@ =~= seq!['['] + spec_base_name(file@) + seq![':'] + dec_digits(line as nat)
            + seq![']']);
    }
    string_from_chars(&out)
}

} // verus!
