use vstd::prelude::*;
use vstd::string::*;

use crate::request::same_text;

verus! {

/// The number of lines that `grep_chunk` filters as one piece of work.
pub const CHUNK_SIZE: usize = 10_000;

/// Whether `pattern` occurs as a contiguous run of characters in `line`.
pub open spec fn occurs_in(pattern: Seq<char>, line: Seq<char>) -> bool {
    exists|i: int|
        0 <= i && i + pattern.len() <= line.len() && #[trigger] line.subrange(i, i + pattern.len())
            == pattern
}

/// The test that selects a line: `pattern` occurs in it.
pub open spec fn selects(pattern: Seq<char>) -> spec_fn(String) -> bool {
    |line: String| occurs_in(pattern, line@)
}

/// The lines of `lines` in which `pattern` occurs, in their order.
pub open spec fn matching_lines(pattern: Seq<char>, lines: Seq<String>) -> Seq<String> {
    lines.filter(selects(pattern))
}

/// The lines of `groups`, one group after another.
pub open spec fn concat(groups: Seq<Vec<String>>) -> Seq<String>
    decreases groups.len(),
{
    if groups.len() == 0 {
        Seq::empty()
    } else {
        concat(groups.drop_last()) + groups.last()@
    }
}

/// The matching lines of every file, file after file.
pub open spec fn matching_in_files(pattern: Seq<char>, files: Seq<Vec<String>>) -> Seq<String> {
    matching_lines(pattern, concat(files))
}

/// Whether `pattern` occurs in `line`.
fn contains(line: &String, pattern: &String) -> (r: bool)
    ensures
        r == occurs_in(pattern@, line@),
{
    let s = line.as_str();
    let p = pattern.as_str();
    let n = s.unicode_len();
    let m = p.unicode_len();
    if m > n {
        return false;
    }
    let last = n - m;
    let mut i: usize = 0;
    loop
        invariant
            s@ == line@,
            p@ == pattern@,
            n == s@.len(),
            m == p@.len(),
            last == n - m,
            i <= last,
            forall|j: int| 0 <= j < i ==> #[trigger] s@.subrange(j, j + p@.len()) != p@,
        decreases last - i,
    {
        if same_text(s.substring_char(i, i + m), p) {
            assert(line@.subrange(i as int, i + pattern@.len()) == pattern@);
            return true;
        }
        if i == last {
            assert forall|j: int| 0 <= j && j + pattern@.len() <= line@.len() implies #[trigger] line@.subrange(
                j,
                j + pattern@.len(),
            ) != pattern@ by {
                assert(j <= i);
            }
            return false;
        }
        i += 1;
    }
}

/// The lines of `lines` that contain `pattern`, in their order.
pub fn grep_lines(pattern: &String, lines: &Vec<String>) -> (r: Vec<String>)
    ensures
        r@ == matching_lines(pattern@, lines@),
{
    let mut r: Vec<String> = Vec::new();
    let mut i: usize = 0;
    while i < lines.len()
        invariant
            i <= lines@.len(),
            r@ == matching_lines(pattern@, lines@.subrange(0, i as int)),
        decreases lines@.len() - i,
    {
        proof {
            assert(lines@.subrange(0, i + 1) =~= lines@.subrange(0, i as int).push(lines@[i as int]));
            lines@.subrange(0, i as int).lemma_filter_push(lines@[i as int], selects(pattern@));
        }
        if contains(&lines[i], pattern) {
            r.push(lines[i].clone());
        }
        i += 1;
    }
    assert(lines@.subrange(0, lines@.len() as int) =~= lines@);
    r
}

/// Appending a group adds its matching lines at the end.
proof fn lemma_matching_push(pattern: Seq<char>, groups: Seq<Vec<String>>, group: Vec<String>)
    ensures
        matching_lines(pattern, concat(groups.push(group))) == matching_lines(
            pattern,
            concat(groups),
        ) + matching_lines(pattern, group@),
{
    assert(groups.push(group).drop_last() =~= groups);
    Seq::filter_distributes_over_add(concat(groups), group@, selects(pattern));
}

/// Every line of every file that contains `pattern`, file after file, each
/// file's lines in their order. `files` holds the lines of each file.
pub fn grep_seq(pattern: String, files: Vec<Vec<String>>) -> (r: Vec<String>)
    ensures
        r@ == matching_in_files(pattern@, files@),
{
    let mut r: Vec<String> = Vec::new();
    let mut i: usize = 0;
    while i < files.len()
        invariant
            i <= files@.len(),
            r@ == matching_in_files(pattern@, files@.subrange(0, i as int)),
        decreases files@.len() - i,
    {
        proof {
            assert(files@.subrange(0, i + 1) =~= files@.subrange(0, i as int).push(files@[i as int]));
            lemma_matching_push(pattern@, files@.subrange(0, i as int), files@[i as int]);
        }
        let mut found = grep_lines(&pattern, &files[i]);
        r.append(&mut found);
        i += 1;
    }
    assert(files@.subrange(0, files@.len() as int) =~= files@);
    r
}

/// `lines` cut into consecutive pieces of `size` lines, the last one
/// possibly shorter; no piece is empty.
pub fn split_into_chunks(lines: &Vec<String>, size: usize) -> (chunks: Vec<Vec<String>>)
    requires
        size > 0,
    ensures
        concat(chunks@) == lines@,
        forall|k: int|
            0 <= k < chunks@.len() ==> 0 < (#[trigger] chunks@[k])@.len() <= size,
        forall|k: int| 0 <= k < chunks@.len() - 1 ==> (#[trigger] chunks@[k])@.len() == size,
{
    let mut chunks: Vec<Vec<String>> = Vec::new();
    let mut chunk: Vec<String> = Vec::new();
    let mut i: usize = 0;
    while i < lines.len()
        invariant
            i <= lines@.len(),
            chunk@.len() < size,
            concat(chunks@) + chunk@ == lines@.subrange(0, i as int),
            forall|k: int| 0 <= k < chunks@.len() ==> (#[trigger] chunks@[k])@.len() == size,
        decreases lines@.len() - i,
    {
        let ghost prev = chunk@;
        chunk.push(lines[i].clone());
        assert(lines@.subrange(0, i + 1) =~= lines@.subrange(0, i as int).push(lines@[i as int]));
        assert(concat(chunks@) + chunk@ =~= (concat(chunks@) + prev).push(lines@[i as int]));
        if chunk.len() == size {
            let ghost before = chunks@;
            chunks.push(chunk);
            chunk = Vec::new();
            assert(chunks@.drop_last() == before);
            assert(concat(chunks@) + chunk@ =~= lines@.subrange(0, i + 1));
        }
        i += 1;
    }
    let ghost full = chunks@;
    if chunk.len() > 0 {
        chunks.push(chunk);
        assert(chunks@.drop_last() == full);
    } else {
        assert(concat(chunks@) + chunk@ =~= concat(chunks@));
    }
    assert(lines@.subrange(0, lines@.len() as int) =~= lines@);
    chunks
}

/// The same lines as `grep_seq`, found by cutting each file into pieces of
/// `CHUNK_SIZE` lines and filtering piece by piece.
pub fn grep_chunk(pattern: String, files: Vec<Vec<String>>) -> (r: Vec<String>)
    ensures
        r@ == matching_in_files(pattern@, files@),
{
    let mut r: Vec<String> = Vec::new();
    let mut i: usize = 0;
    while i < files.len()
        invariant
            i <= files@.len(),
            r@ == matching_in_files(pattern@, files@.subrange(0, i as int)),
        decreases files@.len() - i,
    {
        proof {
            assert(files@.subrange(0, i + 1) =~= files@.subrange(0, i as int).push(files@[i as int]));
            lemma_matching_push(pattern@, files@.subrange(0, i as int), files@[i as int]);
        }
        let chunks = split_into_chunks(&files[i], CHUNK_SIZE);
        let mut j: usize = 0;
        let ghost start = r@;
        while j < chunks.len()
            invariant
                j <= chunks@.len(),
                r@ == start + matching_lines(pattern@, concat(chunks@.subrange(0, j as int))),
            decreases chunks@.len() - j,
        {
            proof {
                assert(chunks@.subrange(0, j + 1) =~= chunks@.subrange(0, j as int).push(
                    chunks@[j as int],
                ));
                lemma_matching_push(pattern@, chunks@.subrange(0, j as int), chunks@[j as int]);
            }
            let mut found = grep_lines(&pattern, &chunks[j]);
            r.append(&mut found);
            assert(r@ =~= start + matching_lines(pattern@, concat(chunks@.subrange(0, j + 1))));
            j += 1;
        }
        assert(chunks@.subrange(0, chunks@.len() as int) =~= chunks@);
        i += 1;
    }
    assert(files@.subrange(0, files@.len() as int) =~= files@);
    r
}

} // verus!
