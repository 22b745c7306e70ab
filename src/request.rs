use std::collections::HashMap;
use vstd::prelude::*;
use vstd::std_specs::hash::obeys_key_model;
use vstd::string::*;

use crate::multipart::{occurrence_from, split_first};

verus! {

/// The methods of an HTTP request line.
#[derive(PartialEq, Eq, Clone, Copy, Debug, Structural)]
pub enum RequestMethod {
    GET,
    HEAD,
    POST,
    PUT,
    DELETE,
    CONNECT,
    OPTIONS,
    TRACE,
    PATCH,
}

/// Why a request could not be read.
#[derive(PartialEq, Eq, Debug)]
pub enum ParseError {
    /// The first word of the request line names no known method.
    UnknownMethod(String),
    /// The request has no header lines at all.
    EmptyHeaders,
}

/// The method that `token` names, if any.
pub open spec fn method_named(token: Seq<char>) -> Option<RequestMethod> {
    if token == "GET"@ {
        Some(RequestMethod::GET)
    } else if token == "HEAD"@ {
        Some(RequestMethod::HEAD)
    } else if token == "POST"@ {
        Some(RequestMethod::POST)
    } else if token == "PUT"@ {
        Some(RequestMethod::PUT)
    } else if token == "DELETE"@ {
        Some(RequestMethod::DELETE)
    } else if token == "CONNECT"@ {
        Some(RequestMethod::CONNECT)
    } else if token == "OPTIONS"@ {
        Some(RequestMethod::OPTIONS)
    } else if token == "TRACE"@ {
        Some(RequestMethod::TRACE)
    } else if token == "PATCH"@ {
        Some(RequestMethod::PATCH)
    } else {
        None
    }
}

/// The position of the first occurrence of `c` in `s`, or the length of `s`.
pub open spec fn find_char(s: Seq<char>, c: char) -> int
    decreases s.len(),
{
    if s.len() == 0 {
        0
    } else if find_char(s.drop_last(), c) < s.len() - 1 {
        find_char(s.drop_last(), c)
    } else if s.last() == c {
        s.len() - 1
    } else {
        s.len() as int
    }
}

/// The text of `s` up to its first `c`.
pub open spec fn before_char(s: Seq<char>, c: char) -> Seq<char> {
    s.subrange(0, find_char(s, c))
}

/// The text of `s` after its first `c`; empty when there is none.
pub open spec fn after_char(s: Seq<char>, c: char) -> Seq<char> {
    if find_char(s, c) < s.len() {
        s.subrange(find_char(s, c) + 1, s.len() as int)
    } else {
        Seq::empty()
    }
}

/// Whether `a` and `b` hold the same characters.
pub(crate) fn same_text(a: &str, b: &str) -> (r: bool)
    ensures
        r == (a@ == b@),
{
    let n = a.unicode_len();
    if n != b.unicode_len() {
        return false;
    }
    let mut i: usize = 0;
    while i < n
        invariant
            n == a@.len(),
            n == b@.len(),
            i <= n,
            forall|j: int| 0 <= j < i ==> a@[j] == b@[j],
        decreases n - i,
    {
        if a.get_char(i) != b.get_char(i) {
            return false;
        }
        i += 1;
    }
    assert(a@ =~= b@);
    true
}

/// The method that `token` names, if any.
pub fn method_from_token(token: &str) -> (r: Option<RequestMethod>)
    ensures
        r == method_named(token@),
{
    if same_text(token, "GET") {
        Some(RequestMethod::GET)
    } else if same_text(token, "HEAD") {
        Some(RequestMethod::HEAD)
    } else if same_text(token, "POST") {
        Some(RequestMethod::POST)
    } else if same_text(token, "PUT") {
        Some(RequestMethod::PUT)
    } else if same_text(token, "DELETE") {
        Some(RequestMethod::DELETE)
    } else if same_text(token, "CONNECT") {
        Some(RequestMethod::CONNECT)
    } else if same_text(token, "OPTIONS") {
        Some(RequestMethod::OPTIONS)
    } else if same_text(token, "TRACE") {
        Some(RequestMethod::TRACE)
    } else if same_text(token, "PATCH") {
        Some(RequestMethod::PATCH)
    } else {
        None
    }
}

/// The position of the first `c` in `s`, or the length of `s`.
fn position_of_char(s: &str, c: char) -> (r: usize)
    ensures
        r == find_char(s@, c),
        r <= s@.len(),
{
    let n = s.unicode_len();
    let mut i: usize = 0;
    while i < n
        invariant
            n == s@.len(),
            i <= n,
            find_char(s@.subrange(0, i as int), c) == i,
        decreases n - i,
    {
        let ghost pre = s@.subrange(0, i + 1);
        assert(pre.drop_last() =~= s@.subrange(0, i as int));
        if s.get_char(i) == c {
            proof {
                lemma_find_char_extend(s@, c, i as int);
            }
            return i;
        }
        i += 1;
    }
    assert(s@.subrange(0, n as int) =~= s@);
    n
}

/// Once `c` occurs at position `i`, with no `c` before it, later text does
/// not move its first occurrence.
proof fn lemma_find_char_extend(s: Seq<char>, c: char, i: int)
    requires
        0 <= i < s.len(),
        s[i] == c,
        find_char(s.subrange(0, i), c) == i,
    ensures
        find_char(s, c) == i,
    decreases s.len(),
{
    if s.len() == i + 1 {
        assert(s.drop_last() =~= s.subrange(0, i));
    } else {
        assert(s.drop_last().subrange(0, i) =~= s.subrange(0, i));
        lemma_find_char_extend(s.drop_last(), c, i);
    }
}

/// Reads the method and the URI from the header lines of a request: the
/// first and second space-separated words of the first line. A first line
/// with no second word gives an empty URI.
pub fn parse_request_line(lines: &Vec<String>) -> (r: Result<(RequestMethod, String), ParseError>)
    ensures
        lines@.len() == 0 ==> r == Err::<(RequestMethod, String), ParseError>(
            ParseError::EmptyHeaders,
        ),
        lines@.len() > 0 ==> {
            let line = lines@[0]@;
            let token = before_char(line, ' ');
            match r {
                Ok((method, uri)) => method_named(token) == Some(method) && uri@ == before_char(
                    after_char(line, ' '),
                    ' ',
                ),
                Err(ParseError::UnknownMethod(t)) => method_named(token) is None && t@ == token,
                Err(ParseError::EmptyHeaders) => false,
            }
        },
{
    if lines.len() == 0 {
        return Err(ParseError::EmptyHeaders);
    }
    let line = lines[0].as_str();
    let n = line.unicode_len();
    let first = position_of_char(line, ' ');
    let token = line.substring_char(0, first);
    let method = match method_from_token(token) {
        Some(m) => m,
        None => {
            return Err(ParseError::UnknownMethod(token.to_owned()));
        },
    };
    let rest = if first < n {
        line.substring_char(first + 1, n)
    } else {
        line.substring_char(n, n)
    };
    assert(rest@ =~= after_char(line@, ' '));
    let second = position_of_char(rest, ' ');
    let uri = rest.substring_char(0, second);
    Ok((method, uri.to_owned()))
}

/// The text after the last `/` of `uri`; all of it when it has none.
pub open spec fn last_segment(uri: Seq<char>) -> Seq<char>
    decreases uri.len(),
{
    if uri.len() == 0 {
        uri
    } else if uri.last() == '/' {
        Seq::empty()
    } else {
        last_segment(uri.drop_last()).push(uri.last())
    }
}

/// Whether `c` is one of the decimal digits `0` to `9`.
pub open spec fn is_digit(c: char) -> bool {
    '0' <= c && c <= '9'
}

/// The number that the decimal digits `d` write.
pub open spec fn decimal_value(d: Seq<char>) -> int
    decreases d.len(),
{
    if d.len() == 0 {
        0
    } else {
        decimal_value(d.drop_last()) * 10 + (d.last() as int - '0' as int)
    }
}

/// `s` without one leading `+`.
pub open spec fn unsigned_digits(s: Seq<char>) -> Seq<char> {
    if s.len() > 0 && s[0] == '+' {
        s.drop_first()
    } else {
        s
    }
}

/// The `u32` that `s` writes in decimal: an optional `+`, then at least one
/// digit and nothing else, worth at most `u32::MAX`.
pub open spec fn parsed_u32(s: Seq<char>) -> Option<u32> {
    let d = unsigned_digits(s);
    if d.len() > 0 && (forall|i: int| 0 <= i < d.len() ==> is_digit(#[trigger] d[i]))
        && decimal_value(d) <= u32::MAX {
        Some(decimal_value(d) as u32)
    } else {
        None
    }
}

/// A prefix of a digit string writes no more than the whole string.
proof fn lemma_decimal_prefix(d: Seq<char>, k: int)
    requires
        0 <= k <= d.len(),
        forall|i: int| 0 <= i < d.len() ==> is_digit(#[trigger] d[i]),
    ensures
        0 <= decimal_value(d.subrange(0, k)) <= decimal_value(d),
    decreases d.len(),
{
    if k == d.len() {
        assert(d.subrange(0, k) =~= d);
        lemma_decimal_nonnegative(d);
    } else {
        assert(d.drop_last().subrange(0, k) =~= d.subrange(0, k));
        lemma_decimal_prefix(d.drop_last(), k);
        assert(is_digit(d[d.len() - 1]));
    }
}

proof fn lemma_decimal_nonnegative(d: Seq<char>)
    requires
        forall|i: int| 0 <= i < d.len() ==> is_digit(#[trigger] d[i]),
    ensures
        decimal_value(d) >= 0,
    decreases d.len(),
{
    if d.len() > 0 {
        lemma_decimal_nonnegative(d.drop_last());
        assert(is_digit(d[d.len() - 1]));
    }
}

/// Reads `s` as a decimal `u32`, as `str::parse::<u32>` does.
fn parse_u32(s: &str) -> (r: Option<u32>)
    ensures
        r == parsed_u32(s@),
{
    let n = s.unicode_len();
    let mut i: usize = 0;
    if n > 0 && s.get_char(0) == '+' {
        i = 1;
    }
    let start = i;
    let ghost d = unsigned_digits(s@);
    assert(d =~= s@.subrange(start as int, n as int));
    if i == n {
        return None;
    }
    let mut acc: u64 = 0;
    while i < n
        invariant
            start <= i <= n,
            n == s@.len(),
            d == s@.subrange(start as int, n as int),
            d == unsigned_digits(s@),
            acc == decimal_value(d.subrange(0, i - start)),
            acc <= u32::MAX,
            forall|j: int| 0 <= j < i - start ==> is_digit(#[trigger] d[j]),
        decreases n - i,
    {
        let c = s.get_char(i);
        if !('0' <= c && c <= '9') {
            assert(!is_digit(d[i - start]));
            return None;
        }
        assert(d.subrange(0, i - start + 1).drop_last() =~= d.subrange(0, i - start));
        acc = acc * 10 + (c as u64 - '0' as u64);
        if acc > u32::MAX as u64 {
            proof {
                if forall|j: int| 0 <= j < d.len() ==> is_digit(#[trigger] d[j]) {
                    lemma_decimal_prefix(d, i - start + 1);
                }
            }
            return None;
        }
        i += 1;
    }
    assert(d.subrange(0, n - start) =~= d);
    Some(acc as u32)
}

/// The message for a segment that is not a number: `'s' is not a number`.
fn not_a_number(s: &str) -> (r: String)
    ensures
        r@ == seq!['\''] + s@ + "' is not a number"@,
{
    let mut r = String::from_str("'");
    r.append(s);
    r.append("' is not a number");
    proof {
        reveal_strlit("'");
    }
    assert(r@ =~= seq!['\''] + s@ + "' is not a number"@);
    r
}

/// Reads the number at the end of a URI such as `/pi/12`: the text after
/// its last `/`, read as a decimal `u32`. Otherwise an error message that
/// quotes that text.
pub fn get_param(uri: String) -> (r: Result<u32, String>)
    ensures
        match r {
            Ok(v) => parsed_u32(last_segment(uri@)) == Some(v),
            Err(msg) => parsed_u32(last_segment(uri@)) is None && msg@ == seq!['\'']
                + last_segment(uri@) + "' is not a number"@,
        },
{
    let text = uri.as_str();
    let n = text.unicode_len();
    let mut start: usize = 0;
    let mut i: usize = 0;
    while i < n
        invariant
            n == text@.len(),
            start <= i <= n,
            last_segment(text@.subrange(0, i as int)) == text@.subrange(start as int, i as int),
        decreases n - i,
    {
        assert(text@.subrange(0, i + 1).drop_last() =~= text@.subrange(0, i as int));
        if text.get_char(i) == '/' {
            start = i + 1;
            assert(text@.subrange(start as int, i + 1) =~= Seq::<char>::empty());
        } else {
            assert(text@.subrange(start as int, i + 1) =~= text@.subrange(start as int, i as int).push(
                text@[i as int],
            ));
        }
        i += 1;
    }
    assert(text@.subrange(0, n as int) =~= text@);
    let segment = text.substring_char(start, n);
    match parse_u32(segment) {
        Some(v) => Ok(v),
        None => Err(not_a_number(segment)),
    }
}

/// The lower-case form of a text, as `str::to_lowercase` gives it.
pub uninterp spec fn lower_of(s: Seq<char>) -> Seq<char>;

/// Relies on `str::to_lowercase`: the lower-case form of `s`, which
/// depends on its characters alone.
#[verifier::external_body]
fn lowercase(s: &str) -> (r: String)
    ensures
        r@ == lower_of(s@),
{
    s.to_lowercase()
}

/// The key and value of a header line `Key: value`: the text before the
/// first `": "`, lower-cased, and the text after it; none without `": "`.
pub open spec fn header_entry(line: Seq<char>) -> Option<(Seq<char>, Seq<char>)> {
    match occurrence_from(line, ": "@, 0) {
        Some(i) => Some((lower_of(line.subrange(0, i)), line.subrange(i + ": "@.len(), line.len() as int))),
        None => None,
    }
}

/// The entries of the header lines `lines`, in order, skipping lines that
/// have no `": "`.
pub open spec fn header_entries(lines: Seq<String>) -> Seq<(Seq<char>, Seq<char>)>
    decreases lines.len(),
{
    if lines.len() == 0 {
        Seq::empty()
    } else {
        let rest = header_entries(lines.drop_last());
        match header_entry(lines.last()@) {
            Some(e) => rest.push(e),
            None => rest,
        }
    }
}

/// The lines of a request after its request line.
pub open spec fn header_lines(lines: Seq<String>) -> Seq<String> {
    if lines.len() == 0 {
        lines
    } else {
        lines.subrange(1, lines.len() as int)
    }
}

/// The key and value of every header line of a request, in order: the
/// lines after the first, split at their first `": "`, the key lower-cased.
/// Lines without `": "` are skipped.
pub fn header_pairs(lines: &Vec<String>) -> (r: Vec<(String, String)>)
    ensures
        r@.len() == header_entries(header_lines(lines@)).len(),
        forall|k: int|
            0 <= k < r@.len() ==> ((#[trigger] r@[k]).0@, r@[k].1@) == header_entries(
                header_lines(lines@),
            )[k],
{
    let mut r: Vec<(String, String)> = Vec::new();
    if lines.len() == 0 {
        return r;
    }
    let n = lines.len();
    let mut i: usize = 1;
    assert(lines@.subrange(1, 1) =~= Seq::<String>::empty());
    while i < n
        invariant
            n == lines@.len(),
            1 <= i <= n,
            r@.len() == header_entries(lines@.subrange(1, i as int)).len(),
            forall|k: int|
                0 <= k < r@.len() ==> ((#[trigger] r@[k]).0@, r@[k].1@) == header_entries(
                    lines@.subrange(1, i as int),
                )[k],
        decreases n - i,
    {
        assert(lines@.subrange(1, i + 1).drop_last() =~= lines@.subrange(1, i as int));
        assert(lines@.subrange(1, i + 1).last() == lines@[i as int]);
        proof {
            reveal_strlit(": ");
        }
        match split_first(lines[i].as_str(), ": ") {
            Some((key, value)) => {
                let lower = lowercase(key.as_str());
                r.push((lower, value));
            },
            None => {},
        }
        i += 1;
    }
    r
}

/// Whether `m` has a key whose text is `name`.
pub open spec fn has_key_named(m: Map<String, String>, name: Seq<char>) -> bool {
    exists|key: String| #[trigger] m.contains_key(key) && key@ == name
}

/// The headers of a request as a map from lower-cased key to value, as
/// `header_pairs` gives them, a later line winning over an earlier one with
/// the same key. What the map holds is stated under vstd's key model for
/// `String`, on which vstd's `HashMap::insert` specification rests: every
/// entry is the key and value of a header line, and every header line's key
/// is in the map.
pub fn parse_headers(lines: &Vec<String>) -> (headers: HashMap<String, String>)
    ensures
        obeys_key_model::<String>() ==> {
            &&& forall|key: String| #[trigger]
                headers@.contains_key(key) ==> exists|k: int|
                    0 <= k < header_entries(header_lines(lines@)).len() && #[trigger] header_entries(
                        header_lines(lines@),
                    )[k] == (key@, headers@[key]@)
            &&& forall|k: int|
                0 <= k < header_entries(header_lines(lines@)).len() ==> has_key_named(
                    headers@,
                    #[trigger] header_entries(header_lines(lines@))[k].0,
                )
        },
{
    broadcast use vstd::std_specs::hash::group_hash_axioms;

    let pairs = header_pairs(lines);
    let mut headers: HashMap<String, String> = HashMap::new();
    let n = pairs.len();
    let mut i: usize = 0;
    while i < n
        invariant
            n == pairs@.len(),
            n == header_entries(header_lines(lines@)).len(),
            i <= n,
            forall|k: int| 0 <= k < n ==> ((#[trigger] pairs@[k]).0@, pairs@[k].1@) == header_entries(header_lines(lines@))[k],
            obeys_key_model::<String>() ==> {
                &&& forall|key: String| #[trigger]
                    headers@.contains_key(key) ==> exists|k: int|
                        0 <= k < i && #[trigger] pairs@[k] == (key, headers@[key])
                &&& forall|k: int|
                    0 <= k < i ==> #[trigger] headers@.contains_key(pairs@[k].0)
            },
        decreases n - i,
    {
        let key = pairs[i].0.clone();
        let value = pairs[i].1.clone();
        headers.insert(key, value);
        i += 1;
    }
    proof {
        if obeys_key_model::<String>() {
            assert forall|key: String| #[trigger]
                headers@.contains_key(key) implies exists|k: int|
                    0 <= k < header_entries(header_lines(lines@)).len() && #[trigger] header_entries(header_lines(lines@))[k] == (key@, headers@[key]@) by {
                let k = choose|k: int| 0 <= k < n && #[trigger] pairs@[k] == (key, headers@[key]);
                assert(pairs@[k] == (key, headers@[key]));
                assert(header_entries(header_lines(lines@))[k] == (key@, headers@[key]@));
            }
            assert forall|k: int|
                0 <= k < header_entries(header_lines(lines@)).len() implies has_key_named(
                    headers@,
                    #[trigger] header_entries(header_lines(lines@))[k].0,
                ) by {
                assert(headers@.contains_key(pairs@[k].0));
            }
        }
    }
    headers
}

} // verus!
