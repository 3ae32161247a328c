//! The manifest parser.
//!
//! A manifest is an ordered sequence of text lines. After leading whitespace,
//! a line that is empty or starts with `# `, `; ` or `// ` is a comment and
//! yields nothing. On every other line an inline comment — the earliest of
//! ` #`, ` //`, ` ;` — is cut off and the rest right-trimmed. What remains is
//! either `<url> -> <destination>` or a bare `<url>`, whose destination is the
//! segment after the last `/`. A line whose destination would be empty, or a
//! bare line without `/`, is invalid and rejects the whole manifest. Parsing
//! is pure text transformation: no network or filesystem access.

use vstd::prelude::*;

verus! {

/// One parsed manifest entry: where to fetch from and the file name to
/// materialize under.
#[derive(Debug)]
pub struct Descriptor {
    pub url: String,
    pub dest: String,
}

/// Why a manifest was rejected.
#[derive(Debug)]
pub enum ParseError {
    /// The named line is neither blank, nor a comment, nor a parseable
    /// descriptor (carries the line with its inline comment already cut).
    InvalidDescriptor(String),
}

/// Whitespace, as `char::is_whitespace` reads it: the Unicode `White_Space`
/// set.
pub open spec fn is_space_char(c: char) -> bool {
    ||| ('\u{9}' <= c && c <= '\u{d}')
    ||| c == ' '
    ||| c == '\u{85}'
    ||| c == '\u{a0}'
    ||| c == '\u{1680}'
    ||| ('\u{2000}' <= c && c <= '\u{200a}')
    ||| c == '\u{2028}'
    ||| c == '\u{2029}'
    ||| c == '\u{202f}'
    ||| c == '\u{205f}'
    ||| c == '\u{3000}'
}

/// The line without its leading whitespace.
pub open spec fn trim_start_spec(s: Seq<char>) -> Seq<char>
    decreases s.len(),
{
    if s.len() > 0 && is_space_char(s[0]) {
        trim_start_spec(s.drop_first())
    } else {
        s
    }
}

/// The line without its trailing whitespace.
pub open spec fn trim_end_spec(s: Seq<char>) -> Seq<char>
    decreases s.len(),
{
    if s.len() > 0 && is_space_char(s[s.len() - 1]) {
        trim_end_spec(s.drop_last())
    } else {
        s
    }
}

/// A comment opener stands at the head of the (already left-trimmed) line:
/// `# `, `; ` or `// `.
pub open spec fn comment_start(t: Seq<char>) -> bool {
    ||| (t.len() >= 2 && t[0] == '#' && t[1] == ' ')
    ||| (t.len() >= 2 && t[0] == ';' && t[1] == ' ')
    ||| (t.len() >= 3 && t[0] == '/' && t[1] == '/' && t[2] == ' ')
}

/// A line that yields no descriptor: blank, or a comment.
pub open spec fn is_comment_spec(line: Seq<char>) -> bool {
    trim_start_spec(line).len() == 0 || comment_start(trim_start_spec(line))
}

/// An inline comment opens at position `i` of the line: ` #`, ` //` or ` ;`.
pub open spec fn marker_at(line: Seq<char>, i: int) -> bool {
    &&& 0 <= i
    &&& line[i] == ' '
    &&& {
        ||| (i + 2 <= line.len() && (line[i + 1] == '#' || line[i + 1] == ';'))
        ||| (i + 3 <= line.len() && line[i + 1] == '/' && line[i + 2] == '/')
    }
}

/// The position of the earliest inline comment at or after `i`, if any.
pub open spec fn first_marker_from(line: Seq<char>, i: int) -> Option<int>
    decreases line.len() - i
        when 0 <= i
{
    if i >= line.len() {
        None
    } else if marker_at(line, i) {
        Some(i)
    } else {
        first_marker_from(line, i + 1)
    }
}

/// The line with its inline comment cut off and the rest right-trimmed;
/// without an inline comment, the line as it stands.
pub open spec fn strip_comment_spec(line: Seq<char>) -> Seq<char> {
    match first_marker_from(line, 0) {
        Some(i) => trim_end_spec(line.take(i)),
        None => line,
    }
}

fn is_space(c: char) -> (r: bool)
    ensures
        r == is_space_char(c),
{
    ('\u{9}' <= c && c <= '\u{d}') || c == ' ' || c == '\u{85}' || c == '\u{a0}' || c == '\u{1680}'
        || ('\u{2000}' <= c && c <= '\u{200a}') || c == '\u{2028}' || c == '\u{2029}'
        || c == '\u{202f}' || c == '\u{205f}' || c == '\u{3000}'
}

/// Whether `line` is blank or a comment line; such lines yield no descriptor.
pub fn is_comment(line: &str) -> (r: bool)
    ensures
        r == is_comment_spec(line@),
{
    let n = line.unicode_len();
    let mut i: usize = 0;
    proof {
        assert(line@.skip(0) =~= line@);
    }
    while i < n && is_space(line.get_char(i))
        invariant
            n == line@.len(),
            i <= n,
            trim_start_spec(line@) == trim_start_spec(line@.skip(i as int)),
        decreases n - i,
    {
        proof {
            assert(line@.skip(i as int).drop_first() =~= line@.skip(i + 1));
        }
        i += 1;
    }
    proof {
        assert(trim_start_spec(line@) == line@.skip(i as int));
    }
    if i == n {
        return true;
    }
    let c0 = line.get_char(i);
    if c0 == '#' || c0 == ';' {
        i + 1 < n && line.get_char(i + 1) == ' '
    } else if c0 == '/' {
        i + 1 < n && line.get_char(i + 1) == '/' && i + 2 < n && line.get_char(i + 2) == ' '
    } else {
        false
    }
}

fn marker_at_exec(line: &str, n: usize, i: usize) -> (r: bool)
    requires
        n == line@.len(),
        i < n,
    ensures
        r == marker_at(line@, i as int),
{
    if line.get_char(i) != ' ' {
        return false;
    }
    if i + 1 < n {
        let c1 = line.get_char(i + 1);
        if c1 == '#' || c1 == ';' {
            return true;
        }
        if c1 == '/' && i + 2 < n && line.get_char(i + 2) == '/' {
            return true;
        }
    }
    false
}

fn find_marker(line: &str) -> (r: Option<usize>)
    ensures
        match r {
            Some(i) => i < line@.len() && first_marker_from(line@, 0) == Some(i as int),
            None => first_marker_from(line@, 0) is None,
        },
{
    let n = line.unicode_len();
    let mut i: usize = 0;
    while i < n
        invariant
            n == line@.len(),
            i <= n,
            first_marker_from(line@, 0) == first_marker_from(line@, i as int),
        decreases n - i,
    {
        if marker_at_exec(line, n, i) {
            return Some(i);
        }
        i += 1;
    }
    None
}

/// The line up to (not including) position `to`, right-trimmed, as an owned
/// string.
fn prefix_trim_end(line: &str, to: usize) -> (r: String)
    requires
        to <= line@.len(),
    ensures
        r@ == trim_end_spec(line@.take(to as int)),
{
    let mut j: usize = to;
    while j > 0 && is_space(line.get_char(j - 1))
        invariant
            to <= line@.len(),
            j <= to,
            trim_end_spec(line@.take(to as int)) == trim_end_spec(line@.take(j as int)),
        decreases j,
    {
        proof {
            assert(line@.take(j as int).drop_last() =~= line@.take(j - 1));
        }
        j -= 1;
    }
    proof {
        assert(trim_end_spec(line@.take(j as int)) == line@.take(j as int));
    }
    let s = line.substring_char(0, j);
    s.to_owned()
}

/// The line with its inline comment (the earliest of ` #`, ` //`, ` ;`) cut
/// off and the rest right-trimmed; a line without one comes back whole.
pub fn strip_comment_part(line: &str) -> (r: String)
    ensures
        r@ == strip_comment_spec(line@),
{
    match find_marker(line) {
        Some(i) => prefix_trim_end(line, i),
        None => line.to_owned(),
    }
}

/// The explicit-destination separator ` -> ` stands at position `i`.
pub open spec fn arrow_at(line: Seq<char>, i: int) -> bool {
    &&& 0 <= i
    &&& i + 4 <= line.len()
    &&& line[i] == ' '
    &&& line[i + 1] == '-'
    &&& line[i + 2] == '>'
    &&& line[i + 3] == ' '
}

/// The position of the first ` -> ` separator at or after `i`, if any.
pub open spec fn first_arrow_from(line: Seq<char>, i: int) -> Option<int>
    decreases line.len() - i
        when 0 <= i
{
    if i >= line.len() {
        None
    } else if arrow_at(line, i) {
        Some(i)
    } else {
        first_arrow_from(line, i + 1)
    }
}

/// The position of the last `/` of the line, if any.
pub open spec fn last_slash(line: Seq<char>) -> Option<int>
    decreases line.len(),
{
    if line.len() == 0 {
        None
    } else if line[line.len() - 1] == '/' {
        Some(line.len() - 1)
    } else {
        last_slash(line.drop_last())
    }
}

/// What one (comment-stripped) manifest line means: `Some((url, destination))`
/// for a well-formed descriptor, `None` for an invalid line. With a ` -> `
/// separator the URL stands left of it and the destination right of it;
/// without one the whole line is the URL and the destination is the segment
/// after its last `/`. A missing `/` (in a bare line) or an empty destination
/// makes the line invalid.
pub open spec fn parse_dl_spec(line: Seq<char>) -> Option<(Seq<char>, Seq<char>)> {
    match first_arrow_from(line, 0) {
        Some(i) => {
            let url = line.take(i);
            let dest = line.skip(i + 4);
            if dest.len() == 0 {
                None
            } else {
                Some((url, dest))
            }
        },
        None => match last_slash(line) {
            Some(i) => {
                let dest = line.skip(i + 1);
                if dest.len() == 0 {
                    None
                } else {
                    Some((line, dest))
                }
            },
            None => None,
        },
    }
}

fn arrow_at_exec(line: &str, n: usize, i: usize) -> (r: bool)
    requires
        n == line@.len(),
        i < n,
    ensures
        r == arrow_at(line@, i as int),
{
    n - i >= 4 && line.get_char(i) == ' ' && line.get_char(i + 1) == '-' && line.get_char(i + 2)
        == '>' && line.get_char(i + 3) == ' '
}

fn find_arrow(line: &str) -> (r: Option<usize>)
    ensures
        match r {
            Some(i) => i + 4 <= line@.len() && first_arrow_from(line@, 0) == Some(i as int),
            None => first_arrow_from(line@, 0) is None,
        },
{
    let n = line.unicode_len();
    let mut i: usize = 0;
    while i < n
        invariant
            n == line@.len(),
            i <= n,
            first_arrow_from(line@, 0) == first_arrow_from(line@, i as int),
        decreases n - i,
    {
        if arrow_at_exec(line, n, i) {
            return Some(i);
        }
        i += 1;
    }
    None
}

fn find_last_slash(line: &str) -> (r: Option<usize>)
    ensures
        match r {
            Some(i) => i < line@.len() && last_slash(line@) == Some(i as int),
            None => last_slash(line@) is None,
        },
{
    let n = line.unicode_len();
    let mut j: usize = n;
    proof {
        assert(line@.take(n as int) =~= line@);
    }
    while j > 0
        invariant
            n == line@.len(),
            j <= n,
            last_slash(line@) == last_slash(line@.take(j as int)),
        decreases j,
    {
        if line.get_char(j - 1) == '/' {
            return Some(j - 1);
        }
        proof {
            assert(line@.take(j as int).drop_last() =~= line@.take(j - 1));
        }
        j -= 1;
    }
    None
}

/// Parses one manifest line (with its inline comment already stripped) into a
/// descriptor; an invalid line is reported, carried in the error.
pub fn parse_dl(line: &str) -> (r: Result<Descriptor, ParseError>)
    ensures
        match parse_dl_spec(line@) {
            Some(p) => r matches Ok(d) && d.url@ == p.0 && d.dest@ == p.1,
            None => r matches Err(ParseError::InvalidDescriptor(l)) && l@ == line@,
        },
{
    let n = line.unicode_len();
    match find_arrow(line) {
        Some(i) => {
            if i + 4 == n {
                return Err(ParseError::InvalidDescriptor(line.to_owned()));
            }
            let url = line.substring_char(0, i).to_owned();
            let dest = line.substring_char(i + 4, n).to_owned();
            Ok(Descriptor { url, dest })
        },
        None => match find_last_slash(line) {
            Some(i) => {
                if i + 1 == n {
                    return Err(ParseError::InvalidDescriptor(line.to_owned()));
                }
                let url = line.to_owned();
                let dest = line.substring_char(i + 1, n).to_owned();
                Ok(Descriptor { url, dest })
            },
            None => Err(ParseError::InvalidDescriptor(line.to_owned())),
        },
    }
}

/// A line with a carriage return left at its end (from a `\r\n` line ending)
/// loses it.
pub open spec fn drop_cr(l: Seq<char>) -> Seq<char> {
    if l.len() > 0 && l[l.len() - 1] == '\r' {
        l.drop_last()
    } else {
        l
    }
}

/// The lines of `text` from position `i` on, where `start` marks the
/// beginning of the line being scanned. Lines end at `\n` (a preceding `\r`
/// is dropped); a last line without a line ending counts, an empty one does
/// not.
pub open spec fn lines_from(text: Seq<char>, start: int, i: int) -> Seq<Seq<char>>
    decreases text.len() - i
        when 0 <= start <= i <= text.len()
{
    if i >= text.len() {
        if start < text.len() {
            seq![text.subrange(start, text.len() as int)]
        } else {
            seq![]
        }
    } else if text[i] == '\n' {
        seq![drop_cr(text.subrange(start, i))] + lines_from(text, i + 1, i + 1)
    } else {
        lines_from(text, start, i + 1)
    }
}

/// The lines of a manifest text.
pub open spec fn lines_spec(text: Seq<char>) -> Seq<Seq<char>> {
    lines_from(text, 0, 0)
}

/// Splits a manifest text into its lines.
pub fn split_lines(text: &str) -> (r: Vec<String>)
    ensures
        r.deep_view() == lines_spec(text@),
{
    let n = text.unicode_len();
    let mut r: Vec<String> = Vec::new();
    let mut start: usize = 0;
    let mut i: usize = 0;
    proof {
        assert(r.deep_view() =~= Seq::<Seq<char>>::empty());
        assert(lines_spec(text@) =~= r.deep_view() + lines_from(text@, 0, 0));
    }
    while i < n
        invariant
            n == text@.len(),
            start <= i <= n,
            lines_spec(text@) == r.deep_view() + lines_from(text@, start as int, i as int),
        decreases n - i,
    {
        if text.get_char(i) == '\n' {
            let e = if i > start && text.get_char(i - 1) == '\r' {
                i - 1
            } else {
                i
            };
            proof {
                if i > start && text@[i - 1] == '\r' {
                    assert(text@.subrange(start as int, i as int).drop_last() =~= text@.subrange(
                        start as int,
                        i - 1,
                    ));
                }
                assert(drop_cr(text@.subrange(start as int, i as int)) =~= text@.subrange(
                    start as int,
                    e as int,
                ));
            }
            let line = text.substring_char(start, e).to_owned();
            let ghost old_r = r;
            r.push(line);
            proof {
                assert(r.deep_view() =~= old_r.deep_view().push(line@));
                assert(old_r.deep_view() + lines_from(text@, start as int, i as int)
                    =~= r.deep_view() + lines_from(text@, i + 1, i + 1));
            }
            start = i + 1;
        }
        i += 1;
    }
    if start < n {
        let line = text.substring_char(start, n).to_owned();
        let ghost old_r = r;
        r.push(line);
        proof {
            assert(r.deep_view() =~= old_r.deep_view().push(line@));
            assert(old_r.deep_view() + lines_from(text@, start as int, n as int)
                =~= r.deep_view());
        }
    } else {
        proof {
            assert(r.deep_view() + lines_from(text@, start as int, n as int) =~= r.deep_view());
        }
    }
    r
}

/// What the manifest's lines from position `i` on mean: the descriptors of
/// the non-comment lines in order, or the first (comment-stripped) line that
/// is invalid.
pub open spec fn parse_lines_from(ls: Seq<Seq<char>>, i: int) -> Result<
    Seq<(Seq<char>, Seq<char>)>,
    Seq<char>,
>
    decreases ls.len() - i
        when 0 <= i <= ls.len()
{
    if i >= ls.len() {
        Ok(seq![])
    } else if is_comment_spec(ls[i]) {
        parse_lines_from(ls, i + 1)
    } else {
        let s = strip_comment_spec(ls[i]);
        match parse_dl_spec(s) {
            Some(p) => match parse_lines_from(ls, i + 1) {
                Ok(rest) => Ok(seq![p] + rest),
                Err(e) => Err(e),
            },
            None => Err(s),
        }
    }
}

/// What a whole manifest text means: its descriptors in order, or the first
/// invalid line.
pub open spec fn parse_manifest_spec(text: Seq<char>) -> Result<
    Seq<(Seq<char>, Seq<char>)>,
    Seq<char>,
> {
    parse_lines_from(lines_spec(text), 0)
}

/// The `(url, destination)` views of a sequence of descriptors.
pub open spec fn descriptor_views(ds: Seq<Descriptor>) -> Seq<(Seq<char>, Seq<char>)> {
    Seq::new(ds.len(), |k: int| (ds[k].url@, ds[k].dest@))
}

/// Parses a manifest text into its download descriptors. Blank and comment
/// lines yield nothing; the first invalid line rejects the whole manifest, so
/// that a malformed manifest is caught before any network activity.
pub fn parse_manifest(text: &str) -> (r: Result<Vec<Descriptor>, ParseError>)
    ensures
        match parse_manifest_spec(text@) {
            Ok(ds) => r matches Ok(v) && descriptor_views(v@) == ds,
            Err(l) => r matches Err(ParseError::InvalidDescriptor(s)) && s@ == l,
        },
{
    let lines = split_lines(text);
    let ghost ls = lines_spec(text@);
    let mut dls: Vec<Descriptor> = Vec::new();
    let mut i: usize = 0;
    proof {
        assert(descriptor_views(dls@) =~= Seq::<(Seq<char>, Seq<char>)>::empty());
    }
    while i < lines.len()
        invariant
            ls == lines.deep_view(),
            ls == lines_spec(text@),
            i <= lines.len(),
            lines@.len() == ls.len(),
            match parse_lines_from(ls, i as int) {
                Ok(rest) => parse_lines_from(ls, 0) == Ok::<_, Seq<char>>(
                    descriptor_views(dls@) + rest,
                ),
                Err(e) => parse_lines_from(ls, 0) == Err::<Seq<(Seq<char>, Seq<char>)>, _>(e),
            },
        decreases lines.len() - i,
    {
        let line = &lines[i];
        proof {
            assert(line@ == ls[i as int]);
        }
        if !is_comment(line.as_str()) {
            let stripped = strip_comment_part(line.as_str());
            match parse_dl(stripped.as_str()) {
                Ok(d) => {
                    let ghost old_dls = dls;
                    dls.push(d);
                    proof {
                        let p = (d.url@, d.dest@);
                        assert(descriptor_views(dls@) =~= descriptor_views(old_dls@).push(p));
                        if let Ok(rest) = parse_lines_from(ls, i + 1) {
                            assert(descriptor_views(old_dls@) + (seq![p] + rest)
                                =~= descriptor_views(dls@) + rest);
                        }
                    }
                },
                Err(e) => {
                    return Err(e);
                },
            }
        }
        i += 1;
    }
    proof {
        assert(parse_lines_from(ls, 0) == Ok::<_, Seq<char>>(
            descriptor_views(dls@) + Seq::<(Seq<char>, Seq<char>)>::empty(),
        ));
        assert(descriptor_views(dls@) + Seq::<(Seq<char>, Seq<char>)>::empty() =~= descriptor_views(
            dls@,
        ));
    }
    Ok(dls)
}

} // verus!
