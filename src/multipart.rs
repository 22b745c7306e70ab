use vstd::prelude::*;
use vstd::string::*;

use crate::request::same_text;

verus! {

/// The first position at or after `i` where `p` occurs in `s`, if any.
pub open spec fn occurrence_from(s: Seq<char>, p: Seq<char>, i: int) -> Option<int>
    decreases s.len() + 1 - i,
{
    if i < 0 || i + p.len() > s.len() {
        None
    } else if s.subrange(i, i + p.len()) == p {
        Some(i)
    } else {
        occurrence_from(s, p, i + 1)
    }
}

/// The text of `s` after the first occurrence of `p`, if `p` occurs.
pub open spec fn after_first(s: Seq<char>, p: Seq<char>) -> Option<Seq<char>> {
    match occurrence_from(s, p, 0) {
        Some(i) => Some(s.subrange(i + p.len(), s.len() as int)),
        None => None,
    }
}

/// The number of `"` at the front of `s`.
pub open spec fn leading_quotes(s: Seq<char>) -> int
    decreases s.len(),
{
    if s.len() == 0 || s[0] != '"' {
        0
    } else {
        1 + leading_quotes(s.drop_first())
    }
}

/// The number of `"` at the back of `s`.
pub open spec fn trailing_quotes(s: Seq<char>) -> int
    decreases s.len(),
{
    if s.len() == 0 || s.last() != '"' {
        0
    } else {
        1 + trailing_quotes(s.drop_last())
    }
}

/// `s` without the `"` at either end.
pub open spec fn trim_quotes(s: Seq<char>) -> Seq<char> {
    if leading_quotes(s) >= s.len() {
        Seq::empty()
    } else {
        s.subrange(leading_quotes(s), s.len() - trailing_quotes(s))
    }
}

/// The text of `s` after the first occurrence of `p`, if `p` occurs.
fn text_after(s: &str, p: &str) -> (r: Option<String>)
    ensures
        match r {
            Some(t) => after_first(s@, p@) == Some(t@),
            None => after_first(s@, p@) is None,
        },
{
    let n = s.unicode_len();
    let m = p.unicode_len();
    if m > n {
        return None;
    }
    let mut i: usize = 0;
    let last = n - m;
    loop
        invariant
            n == s@.len(),
            m == p@.len(),
            last == n - m,
            i <= last,
            occurrence_from(s@, p@, 0) == occurrence_from(s@, p@, i as int),
        decreases last - i,
    {
        if same_text(s.substring_char(i, i + m), p) {
            return Some(s.substring_char(i + m, n).to_owned());
        }
        if i == last {
            return None;
        }
        i += 1;
    }
}

/// The text of `s` before and after the first occurrence of `p`, if `p` occurs.
pub fn split_first(s: &str, p: &str) -> (r: Option<(String, String)>)
    ensures
        match occurrence_from(s@, p@, 0) {
            Some(i) => match r {
                Some((before, after)) => before@ == s@.subrange(0, i) && after@ == s@.subrange(
                    i + p@.len(),
                    s@.len() as int,
                ),
                None => false,
            },
            None => r is None,
        },
{
    let n = s.unicode_len();
    let m = p.unicode_len();
    if m > n {
        return None;
    }
    let mut i: usize = 0;
    let last = n - m;
    loop
        invariant
            n == s@.len(),
            m == p@.len(),
            last == n - m,
            i <= last,
            occurrence_from(s@, p@, 0) == occurrence_from(s@, p@, i as int),
        decreases last - i,
    {
        if same_text(s.substring_char(i, i + m), p) {
            return Some((s.substring_char(0, i).to_owned(), s.substring_char(i + m, n).to_owned()));
        }
        if i == last {
            return None;
        }
        i += 1;
    }
}

/// The boundary that a `Content-Type` header value announces: the text
/// after the first `boundary=`, if any.
pub fn parse_boundary(content_type: &String) -> (r: Option<String>)
    ensures
        match r {
            Some(b) => after_first(content_type@, "boundary="@) == Some(b@),
            None => after_first(content_type@, "boundary="@) is None,
        },
{
    text_after(content_type.as_str(), "boundary=")
}

proof fn lemma_leading_quotes(s: Seq<char>)
    ensures
        0 <= leading_quotes(s) <= s.len(),
        leading_quotes(s) < s.len() ==> s[leading_quotes(s)] != '"',
    decreases s.len(),
{
    if s.len() > 0 && s[0] == '"' {
        lemma_leading_quotes(s.drop_first());
    }
}

proof fn lemma_trailing_quotes(s: Seq<char>)
    ensures
        0 <= trailing_quotes(s) <= s.len(),
        forall|i: int| s.len() - trailing_quotes(s) <= i < s.len() ==> #[trigger] s[i] == '"',
    decreases s.len(),
{
    if s.len() > 0 && s.last() == '"' {
        lemma_trailing_quotes(s.drop_last());
        assert forall|i: int| s.len() - trailing_quotes(s) <= i < s.len() implies #[trigger] s[i]
            == '"' by {
            if i < s.len() - 1 {
                assert(s.drop_last()[i] == '"');
            }
        }
    }
}

/// The number of `"` at the front of `s`.
fn count_leading_quotes(s: &str) -> (k: usize)
    ensures
        k == leading_quotes(s@),
{
    let n = s.unicode_len();
    let mut i: usize = 0;
    assert(s@.subrange(0, n as int) =~= s@);
    while i < n && s.get_char(i) == '"'
        invariant
            n == s@.len(),
            i <= n,
            leading_quotes(s@) == i + leading_quotes(s@.subrange(i as int, n as int)),
        decreases n - i,
    {
        assert(s@.subrange(i as int, n as int).drop_first() =~= s@.subrange(i + 1, n as int));
        i += 1;
    }
    i
}

/// The number of `"` at the back of `s`.
fn count_trailing_quotes(s: &str) -> (k: usize)
    ensures
        k == trailing_quotes(s@),
{
    let n = s.unicode_len();
    let mut k: usize = 0;
    assert(s@.subrange(0, n as int) =~= s@);
    while k < n && s.get_char(n - 1 - k) == '"'
        invariant
            n == s@.len(),
            k <= n,
            trailing_quotes(s@) == k + trailing_quotes(s@.subrange(0, n - k)),
        decreases n - k,
    {
        assert(s@.subrange(0, n - k).drop_last() =~= s@.subrange(0, n - k - 1));
        k += 1;
    }
    k
}

/// The file name that a `Content-Disposition` header value gives: the
/// text after the first `filename=`, without the `"` at either end.
pub fn get_file_name(content_disposition: &String) -> (r: Result<String, String>)
    ensures
        match r {
            Ok(name) => match after_first(content_disposition@, "filename="@) {
                Some(t) => name@ == trim_quotes(t),
                None => false,
            },
            Err(msg) => after_first(content_disposition@, "filename="@) is None && msg@
                == "File not found or empty"@,
        },
{
    match text_after(content_disposition.as_str(), "filename=") {
        Some(text) => {
            let t = text.as_str();
            let n = t.unicode_len();
            let lead = count_leading_quotes(t);
            if lead >= n {
                return Ok(String::new());
            }
            let trail = count_trailing_quotes(t);
            proof {
                lemma_leading_quotes(t@);
                lemma_trailing_quotes(t@);
                if trail > n - lead {
                    assert(t@[lead as int] == '"');
                }
            }
            Ok(t.substring_char(lead, n - trail).to_owned())
        },
        None => Err("File not found or empty".to_owned()),
    }
}

} // verus!
