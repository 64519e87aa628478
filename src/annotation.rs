//! One line at a time: whether a line is in comment context, the payload
//! between the `//TODO:` and `:ODOT//` markers, and the optional `U:<n> `
//! priority inside that payload.
use vstd::prelude::*;
use crate::text::{
    chars_of, find_exec, find_from, occurs_at, parse_u8, parse_u8_range, string_of, trim,
    trim_range,
};

verus! {

/// The opening marker `//TODO:`.
pub open spec fn open_marker() -> Seq<char> {
    seq!['/', '/', 'T', 'O', 'D', 'O', ':']
}

/// The closing marker `:ODOT//`.
pub open spec fn close_marker() -> Seq<char> {
    seq![':', 'O', 'D', 'O', 'T', '/', '/']
}

/// The priority field tag `U:`.
pub open spec fn priority_tag() -> Seq<char> {
    seq!['U', ':']
}

fn open_marker_exec() -> (r: Vec<char>)
    ensures
        r@ == open_marker(),
{
    let r = vec!['/', '/', 'T', 'O', 'D', 'O', ':'];
    assert(r@ =~= open_marker());
    r
}

fn close_marker_exec() -> (r: Vec<char>)
    ensures
        r@ == close_marker(),
{
    let r = vec![':', 'O', 'D', 'O', 'T', '/', '/'];
    assert(r@ =~= close_marker());
    r
}

/// The left-to-right scan of a line from position `i`, with the current
/// `in_string` and `in_comment` flags; its result is the final `in_comment`.
///
/// A `"` toggles `in_string`, wherever it stands. Outside a string, `//`
/// enters a comment and ends the scan, and `/*` enters a comment and the
/// scan goes on. In a comment, `*/` leaves it and ends the scan.
pub open spec fn scan_from(s: Seq<char>, i: int, in_string: bool, in_comment: bool) -> bool
    decreases s.len() - i,
{
    if i < 0 || i >= s.len() {
        in_comment
    } else {
        let c = s[i];
        let next_is = |d: char| i + 1 < s.len() && s[i + 1] == d;
        if c == '"' {
            scan_from(s, i + 1, !in_string, in_comment)
        } else if c == '/' && !in_string {
            if next_is('/') {
                true
            } else if next_is('*') {
                scan_from(s, i + 1, in_string, true)
            } else {
                scan_from(s, i + 1, in_string, in_comment)
            }
        } else if c == '*' && next_is('/') && in_comment {
            false
        } else {
            scan_from(s, i + 1, in_string, in_comment)
        }
    }
}

/// Whether the line, scanned from its start, ends in comment context.
pub open spec fn comment_context(s: Seq<char>) -> bool {
    scan_from(s, 0, false, false)
}

fn comment_context_chars(s: &Vec<char>) -> (r: bool)
    ensures
        r == comment_context(s@),
{
    let mut in_string = false;
    let mut in_comment = false;
    let mut i: usize = 0;
    while i < s.len()
        invariant
            i <= s.len(),
            comment_context(s@) == scan_from(s@, i as int, in_string, in_comment),
        decreases s.len() - i,
    {
        let c = s[i];
        let next_slash = i + 1 < s.len() && s[i + 1] == '/';
        let next_star = i + 1 < s.len() && s[i + 1] == '*';
        if c == '"' {
            in_string = !in_string;
        } else if c == '/' && !in_string {
            if next_slash {
                return true;
            } else if next_star {
                in_comment = true;
            }
        } else if c == '*' && next_slash && in_comment {
            return false;
        }
        i = i + 1;
    }
    in_comment
}

/// Whether `line` is in comment context: the quote-toggling scan finds a
/// `//`, or a `/*` that no `*/` on the same line closes.
pub fn in_comment_context(line: &str) -> (r: bool)
    ensures
        r == comment_context(line@),
{
    let s = chars_of(line);
    comment_context_chars(&s)
}

/// The trimmed text between the first `//TODO:` and the first `:ODOT//`
/// after it, if both are there.
pub open spec fn todo_payload(s: Seq<char>) -> Option<Seq<char>> {
    match find_from(s, open_marker(), 0) {
        None => None,
        Some(st) => {
            let from = st + open_marker().len();
            match find_from(s, close_marker(), from) {
                None => None,
                Some(e) => Some(trim(s.subrange(from, e))),
            }
        },
    }
}

fn todo_payload_chars(s: &Vec<char>) -> (r: Option<Vec<char>>)
    ensures
        r matches Some(p) ==> todo_payload(s@) == Some(p@),
        r is None ==> todo_payload(s@) is None,
{
    let open = open_marker_exec();
    let close = close_marker_exec();
    match find_exec(s, &open, 0) {
        None => None,
        Some(st) => {
            proof {
                crate::text::lemma_find_from(s@, open@, 0);
            }
            let n = s.len();
            assert(st + open@.len() <= n);
            let from = st + open.len();
            match find_exec(s, &close, from) {
                None => None,
                Some(e) => {
                    proof {
                        crate::text::lemma_find_from(s@, close@, from as int);
                    }
                    Some(trim_range(s, from, e))
                },
            }
        },
    }
}

/// The annotation text of `line`: what stands between the first `//TODO:`
/// and the first `:ODOT//` after it, trimmed; `None` where either marker is
/// missing.
pub fn extract_todo_comment(line: &str) -> (r: Option<String>)
    ensures
        r matches Some(c) ==> todo_payload(line@) == Some(c@),
        r is None ==> todo_payload(line@) is None,
{
    let s = chars_of(line);
    match todo_payload_chars(&s) {
        None => None,
        Some(p) => Some(string_of(&p)),
    }
}

/// A payload split into its text and its priority.
///
/// Where the payload holds `U:`, and a space follows later, and what stands
/// between them parses as an unsigned byte, that number is the priority and
/// the span from `U:` through the space is cut out. Otherwise the payload
/// stays as it is and the priority is 0.
pub open spec fn split_uscore(c: Seq<char>) -> (Seq<char>, u8) {
    match find_from(c, priority_tag(), 0) {
        None => (c, 0),
        Some(u) => match find_from(c, seq![' '], u + 2) {
            None => (c, 0),
            Some(sp) => match parse_u8(c.subrange(u + 2, sp)) {
                None => (c, 0),
                Some(n) => (c.subrange(0, u) + c.subrange(sp + 1, c.len() as int), n),
            },
        },
    }
}

fn split_uscore_chars(c: &Vec<char>) -> (r: (Vec<char>, u8))
    ensures
        (r.0@, r.1) == split_uscore(c@),
{
    let tag = vec!['U', ':'];
    assert(tag@ =~= priority_tag());
    let space = vec![' '];
    assert(space@ =~= seq![' ']);
    let unchanged = (c.clone(), 0u8);
    match find_exec(c, &tag, 0) {
        None => unchanged,
        Some(u) => {
            proof {
                crate::text::lemma_find_from(c@, tag@, 0);
            }
            match find_exec(c, &space, u + 2) {
                None => unchanged,
                Some(sp) => {
                    proof {
                        crate::text::lemma_find_from(c@, space@, u + 2);
                    }
                    match parse_u8_range(c, u + 2, sp) {
                        None => unchanged,
                        Some(n) => {
                            let mut text: Vec<char> = Vec::new();
                            let mut k: usize = 0;
                            while k < u
                                invariant
                                    k <= u < c.len(),
                                    text@ == c@.subrange(0, k as int),
                                decreases u - k,
                            {
                                text.push(c[k]);
                                k = k + 1;
                                assert(text@ =~= c@.subrange(0, k as int));
                            }
                            let mut k: usize = sp + 1;
                            while k < c.len()
                                invariant
                                    u < sp + 1 <= k <= c.len(),
                                    text@ == c@.subrange(0, u as int) + c@.subrange(
                                        sp + 1,
                                        k as int,
                                    ),
                                decreases c.len() - k,
                            {
                                text.push(c[k]);
                                k = k + 1;
                                assert(text@ =~= c@.subrange(0, u as int) + c@.subrange(
                                    sp + 1,
                                    k as int,
                                ));
                            }
                            (text, n)
                        },
                    }
                },
            }
        },
    }
}

/// Splits an annotation text into its text and its priority, as
/// [`split_uscore`] describes: `"U:42 do the thing"` gives
/// `("do the thing", 42)`.
pub fn extract_uscore(comment: &str) -> (r: (String, u8))
    ensures
        (r.0@, r.1) == split_uscore(comment@),
{
    let c = chars_of(comment);
    let (text, n) = split_uscore_chars(&c);
    (string_of(&text), n)
}

/// What one line yields: its annotation text and priority, where the line
/// is in comment context and holds a closed annotation.
pub open spec fn line_annotation(s: Seq<char>) -> Option<(Seq<char>, u8)> {
    if comment_context(s) {
        match todo_payload(s) {
            Some(p) => Some(split_uscore(p)),
            None => None,
        }
    } else {
        None
    }
}

/// The annotation text and priority of one line, as [`line_annotation`]
/// describes.
pub fn annotation_of_line(line: &str) -> (r: Option<(String, u8)>)
    ensures
        r matches Some(a) ==> line_annotation(line@) == Some((a.0@, a.1)),
        r is None ==> line_annotation(line@) is None,
{
    let s = chars_of(line);
    match todo_payload_chars(&s) {
        None => None,
        Some(p) => {
            if comment_context_chars(&s) {
                let (text, n) = split_uscore_chars(&p);
                Some((string_of(&text), n))
            } else {
                None
            }
        },
    }
}

} // verus!
