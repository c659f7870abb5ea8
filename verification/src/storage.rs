//! Layout of persisted uploads.
//!
//! Each fulfilled request's batch is persisted as one line-delimited file
//! of serialized entries at `{base}/{user}/{device}/{request}.jsonl`, the
//! device name sanitized against path traversal. This module holds the
//! path and framing logic; reading and writing the files themselves, and
//! turning each line into a value, are left to callers.

use vstd::prelude::*;
use crate::ids::{uuid_str_of, uuid_string};
use crate::text::{chars_of, push_chars, string_from_chars};

verus! {

/// Whether a character counts as alphanumeric (Unicode letters and
/// digits), exactly as `char::is_alphanumeric` decides it.
pub uninterp spec fn is_alnum(c: char) -> bool;

/// Relies on `char::is_alphanumeric` of std: a pure predicate of the
/// character.
pub assume_specification[ char::is_alphanumeric ](c: char) -> (r: bool)
    ensures
        r == is_alnum(c),
;

/// Whether a character survives file-name sanitization: alphanumeric,
/// `-` or `_`. Everything else — separators, dots, anything a path could
/// be traversed with — is dropped.
pub open spec fn spec_keep_char(c: char) -> bool {
    is_alnum(c) || c == '-' || c == '_'
}

/// The sanitized form of a name.
pub open spec fn spec_sanitized(s: Seq<char>) -> Seq<char> {
    s.filter(|c: char| spec_keep_char(c))
}

/// Drop every character of `name` that is not alphanumeric, `-` or `_`,
/// preventing path traversal through caller-supplied names.
pub fn sanitize_filename(name: &str) -> (r: String)
    ensures
        r@ == spec_sanitized(name@),
{
    let ghost pred = |c: char| spec_keep_char(c);
    let cs = chars_of(name);
    let mut out: Vec<char> = Vec::new();
    proof {
        reveal(Seq::filter);
        assert(cs@.take(0) =~= Seq::<char>::empty());
    }
    let mut i: usize = 0;
    while i < cs.len()
        invariant
            i <= cs@.len(),
            cs@ == name@,
            out@ == cs@.take(i as int).filter(pred),
            pred == (|c: char| spec_keep_char(c)),
        decreases cs@.len() - i,
    {
        let c = cs[i];
        let keep = c.is_alphanumeric() || c == '-' || c == '_';
        proof {
            reveal(Seq::filter);
            assert(cs@.take(i + 1).drop_last() =~= cs@.take(i as int));
            assert(cs@.take(i + 1).last() == cs@[i as int]);
        }
        if keep {
            out.push(c);
        }
        i = i + 1;
    }
    proof {
        assert(cs@.take(cs@.len() as int) =~= cs@);
    }
    string_from_chars(&out)
}

/// The path of an upload relative to the storage root:
/// `{user}/{sanitized device}/{request}.jsonl`.
pub open spec fn spec_upload_rel_path(user: u128, device: Seq<char>, request: u128) -> Seq<
    char,
> {
    uuid_str_of(user) + seq!['/'] + spec_sanitized(device) + seq!['/'] + uuid_str_of(request)
        + seq!['.', 'j', 's', 'o', 'n', 'l']
}

/// Build the relative path of an upload.
pub fn upload_rel_path(user_id: u128, device_id: &str, request_id: u128) -> (r: String)
    ensures
        r@ == spec_upload_rel_path(user_id, device_id@, request_id),
{
    let user = uuid_string(user_id);
    let device = sanitize_filename(device_id);
    let request = uuid_string(request_id);
    let mut out: Vec<char> = Vec::new();
    push_chars(&mut out, user.as_str());
    out.push('/');
    push_chars(&mut out, device.as_str());
    out.push('/');
    push_chars(&mut out, request.as_str());
    out.push('.');
    out.push('j');
    out.push('s');
    out.push('o');
    out.push('n');
    out.push('l');
    proof {
        assert(out@ =~= spec_upload_rel_path(user_id, device_id@, request_id));
    }
    string_from_chars(&out)
}

/// Where persisted uploads live: a storage root and the path logic under
/// it. Directory and file input/output against these paths is the
/// caller's.
pub struct LogStorage {
    base_path: String,
}

impl View for LogStorage {
    type V = Seq<char>;

    /// The storage root.
    closed spec fn view(&self) -> Seq<char> {
        self.base_path@
    }
}

impl Clone for LogStorage {
    fn clone(&self) -> (r: Self)
        ensures
            r@ == self@,
    {
        LogStorage { base_path: self.base_path.clone() }
    }
}

impl LogStorage {
    /// A storage layout rooted at `base_path`.
    pub fn new(base_path: String) -> (r: Self)
        ensures
            r@ == base_path@,
    {
        LogStorage { base_path }
    }

    /// The storage root.
    pub fn base_path(&self) -> (r: &str)
        ensures
            r@ == self@,
    {
        self.base_path.as_str()
    }

    /// The full path of an upload:
    /// `{base}/{user}/{sanitized device}/{request}.jsonl`.
    pub fn upload_path(&self, user_id: u128, device_id: &str, request_id: u128) -> (r: String)
        ensures
            r@ == self@ + seq!['/'] + spec_upload_rel_path(user_id, device_id@, request_id),
    {
        let rel = upload_rel_path(user_id, device_id, request_id);
        let mut out: Vec<char> = Vec::new();
        push_chars(&mut out, self.base_path.as_str());
        out.push('/');
        push_chars(&mut out, rel.as_str());
        proof {
            assert(out@ =~= self@ + seq!['/'] + spec_upload_rel_path(
                user_id,
                device_id@,
                request_id,
            ));
        }
        string_from_chars(&out)
    }
}

/// Where the first line break is in `s`, or its length when it has none.
pub open spec fn spec_first_nl(s: Seq<char>) -> nat
    decreases s.len(),
{
    if s.len() == 0 {
        0
    } else if s[0] == '\n' {
        0
    } else {
        1 + spec_first_nl(s.drop_first())
    }
}

/// The raw lines of `s`: the segments between line breaks, the final line
/// break optional.
pub open spec fn spec_raw_lines(s: Seq<char>) -> Seq<Seq<char>>
    decreases s.len(),
{
    if s.len() == 0 {
        Seq::empty()
    } else {
        let k = spec_first_nl(s);
        if k >= s.len() {
            seq![s]
        } else {
            seq![s.take(k as int)] + spec_raw_lines(s.skip(k as int + 1))
        }
    }
}

/// A raw line without its trailing carriage return, if it has one.
pub open spec fn spec_strip_cr(l: Seq<char>) -> Seq<char> {
    if l.len() > 0 && l.last() == '\r' {
        l.drop_last()
    } else {
        l
    }
}

/// Whether a line holds nothing but blanks (spaces, tabs, carriage
/// returns).
pub open spec fn spec_is_blank(l: Seq<char>) -> bool {
    forall|i: int| 0 <= i < l.len() ==> l[i] == ' ' || l[i] == '\t' || l[i] == '\r'
}

/// The content lines of a line-delimited upload file: its raw lines,
/// each without a trailing carriage return, the blank ones dropped.
pub open spec fn spec_content_lines(s: Seq<char>) -> Seq<Seq<char>> {
    spec_raw_lines(s).map_values(|l: Seq<char>| spec_strip_cr(l)).filter(
        |l: Seq<char>| !spec_is_blank(l),
    )
}

/// The views of a sequence of character vectors.
pub open spec fn line_views(s: Seq<Vec<char>>) -> Seq<Seq<char>> {
    s.map_values(|l: Vec<char>| l@)
}

/// The views of a sequence of strings.
pub open spec fn string_views(s: Seq<String>) -> Seq<Seq<char>> {
    s.map_values(|t: String| t@)
}

proof fn lemma_first_nl_unique(s: Seq<char>, k: int)
    requires
        0 <= k <= s.len(),
        forall|j: int| 0 <= j < k ==> s[j] != '\n',
        k < s.len() ==> s[k] == '\n',
    ensures
        spec_first_nl(s) == k,
    decreases s.len(),
{
    if s.len() == 0 {
    } else if s[0] == '\n' {
        assert(k == 0);
    } else {
        assert(k >= 1);
        assert forall|j: int| 0 <= j < k - 1 implies s.drop_first()[j] != '\n' by {
            assert(s[j + 1] != '\n');
        }
        lemma_first_nl_unique(s.drop_first(), k - 1);
    }
}

/// Split a line-delimited file into its non-blank content lines, each
/// without a trailing carriage return.
pub fn split_content_lines(content: &str) -> (r: Vec<String>)
    ensures
        string_views(r@) == spec_content_lines(content@),
{
    let ghost blank = |l: Seq<char>| !spec_is_blank(l);
    let cs = chars_of(content);
    let raw = split_raw(&cs, 0);
    proof {
        assert(cs@.skip(0) =~= cs@);
        reveal(Seq::filter);
    }
    let mut out: Vec<String> = Vec::new();
    let ghost rawv = line_views(raw@);
    proof {
        assert(rawv.take(0) =~= Seq::<Seq<char>>::empty());
        assert(rawv.take(0).map_values(|l: Seq<char>| spec_strip_cr(l)).filter(blank)
            =~= Seq::<Seq<char>>::empty());
    }
    let mut i: usize = 0;
    while i < raw.len()
        invariant
            i <= raw@.len(),
            rawv == line_views(raw@),
            rawv == spec_raw_lines(content@),
            blank == (|l: Seq<char>| !spec_is_blank(l)),
            string_views(out@) == rawv.take(i as int).map_values(
                |l: Seq<char>| spec_strip_cr(l),
            ).filter(blank),
        decreases raw@.len() - i,
    {
        let mut line = clone_chars(&raw[i]);
        if line.len() > 0 && line[line.len() - 1] == '\r' {
            line.pop();
        }
        proof {
            assert(line@ == spec_strip_cr(rawv[i as int]));
        }
        let keep = !is_blank_chars(&line);
        let ghost out0 = string_views(out@);
        proof {
            reveal(Seq::filter);
            let mapped = rawv.take(i + 1).map_values(|l: Seq<char>| spec_strip_cr(l));
            assert(mapped.drop_last() =~= rawv.take(i as int).map_values(
                |l: Seq<char>| spec_strip_cr(l),
            ));
            assert(mapped.last() == spec_strip_cr(rawv[i as int]));
        }
        if keep {
            let s = string_from_chars(&line);
            out.push(s);
            proof {
                assert(string_views(out@) =~= out0.push(line@));
            }
        }
        i = i + 1;
    }
    proof {
        assert(rawv.take(rawv.len() as int) =~= rawv);
    }
    out
}

fn clone_chars(v: &Vec<char>) -> (r: Vec<char>)
    ensures
        r@ == v@,
{
    let mut r: Vec<char> = Vec::new();
    let mut i: usize = 0;
    while i < v.len()
        invariant
            i <= v@.len(),
            r@ == v@.take(i as int),
        decreases v@.len() - i,
    {
        r.push(v[i]);
        i = i + 1;
        proof {
            assert(r@ =~= v@.take(i as int));
        }
    }
    proof {
        assert(v@.take(v@.len() as int) =~= v@);
    }
    r
}

fn is_blank_chars(v: &Vec<char>) -> (r: bool)
    ensures
        r == spec_is_blank(v@),
{
    let mut i: usize = 0;
    while i < v.len()
        invariant
            i <= v@.len(),
            forall|j: int| 0 <= j < i ==> v@[j] == ' ' || v@[j] == '\t' || v@[j] == '\r',
        decreases v@.len() - i,
    {
        let c = v[i];
        if !(c == ' ' || c == '\t' || c == '\r') {
            return false;
        }
        i = i + 1;
    }
    true
}

proof fn lemma_lines_views_push(s: Seq<Vec<char>>, c: Vec<char>)
    ensures
        line_views(s.push(c)) == line_views(s).push(c@),
{
    assert forall|t: int| 0 <= t < s.len() + 1 implies line_views(s.push(c))[t]
        == line_views(s).push(c@)[t] by {
        assert(line_views(s.push(c))[t] == s.push(c)[t]@);
        if t < s.len() {
            assert(line_views(s)[t] == s[t]@);
        }
    }
    assert(line_views(s.push(c)) =~= line_views(s).push(
        c@,
    ));
}

fn split_raw(cs: &Vec<char>, from: usize) -> (r: Vec<Vec<char>>)
    requires
        from <= cs@.len(),
    ensures
        line_views(r@) == spec_raw_lines(cs@.skip(from as int)),
    decreases cs@.len() - from,
{
    let n = cs.len();
    if from == n {
        let r: Vec<Vec<char>> = Vec::new();
        proof {
            assert(cs@.skip(from as int) =~= Seq::<char>::empty());
            assert(line_views(r@) =~= spec_raw_lines(cs@.skip(from as int)));
        }
        return r;
    }
    let mut k: usize = from;
    while k < n && cs[k] != '\n'
        invariant
            from <= k <= n,
            n == cs@.len(),
            forall|j: int| from <= j < k ==> cs@[j] != '\n',
        decreases n - k,
    {
        k = k + 1;
    }
    let ghost tail = cs@.skip(from as int);
    proof {
        assert forall|j: int| 0 <= j < k - from implies tail[j] != '\n' by {
            assert(cs@[j + from] != '\n');
        }
        if k < n {
            assert(tail[k - from] == '\n');
        }
        lemma_first_nl_unique(tail, k - from as int);
    }
    let mut line: Vec<char> = Vec::new();
    let mut j: usize = from;
    while j < k
        invariant
            from <= j <= k <= n,
            n == cs@.len(),
            line@ == cs@.subrange(from as int, j as int),
        decreases k - j,
    {
        line.push(cs[j]);
        j = j + 1;
        proof {
            assert(line@ =~= cs@.subrange(from as int, j as int));
        }
    }
    proof {
        assert(line@ =~= tail.take(k - from as int));
    }
    if k == n {
        let mut r: Vec<Vec<char>> = Vec::new();
        r.push(line);
        proof {
            assert(tail.take(k - from as int) =~= tail);
            assert(line_views(r@) =~= spec_raw_lines(tail));
        }
        r
    } else {
        let rest = split_raw(cs, k + 1);
        let mut r: Vec<Vec<char>> = Vec::new();
        r.push(line);
        let mut m: usize = 0;
        let ghost restv = line_views(rest@);
        proof {
            assert(line_views(r@) =~= seq![tail.take(k - from as int)]
                + restv.take(0));
        }
        while m < rest.len()
            invariant
                m <= rest@.len(),
                restv == line_views(rest@),
                line_views(r@) == seq![tail.take(k - from as int)]
                    + restv.take(m as int),
            decreases rest@.len() - m,
        {
            let ghost r0 = r@;
            let cl = clone_chars(&rest[m]);
            let ghost clg = cl;
            r.push(cl);
            m = m + 1;
            proof {
                lemma_lines_views_push(r0, clg);
                assert(restv[m - 1] == rest@[m - 1]@);
                assert(seq![tail.take(k - from as int)] + restv.take(m as int) =~= (seq![
                    tail.take(k - from as int),
                ] + restv.take(m as int - 1)).push(restv[m - 1]));
            }
        }
        proof {
            assert(restv.take(restv.len() as int) =~= restv);
            assert(cs@.skip(k + 1 as int) =~= tail.skip(k - from + 1));
            assert(line_views(r@) =~= spec_raw_lines(tail));
        }
        r
    }
}

} // verus!
