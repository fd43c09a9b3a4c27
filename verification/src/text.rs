//! Plain text primitives: substring containment and splitting a text into
//! lines, each with a mathematical definition and a verified implementation.

use vstd::prelude::*;

verus! {

/// `pat` occurs in `text` as a contiguous run starting at position `i`.
pub open spec fn matches_at(text: Seq<char>, pat: Seq<char>, i: int) -> bool {
    0 <= i && i + pat.len() <= text.len() && text.subrange(i, i + pat.len()) == pat
}

/// `text` contains `pat` as a contiguous substring.
pub open spec fn contains_pat(text: Seq<char>, pat: Seq<char>) -> bool {
    exists|i: int| matches_at(text, pat, i)
}

/// The empty pattern occurs in every text, at position zero.
pub(crate) proof fn lemma_empty_pat_matches(text: Seq<char>, pat: Seq<char>)
    requires
        pat.len() == 0,
    ensures
        contains_pat(text, pat),
{
    assert(text.subrange(0, 0) =~= pat);
    assert(matches_at(text, pat, 0));
}

/// Compares `query` against `line` at offset `i`, character by character.
fn match_at(line: &str, query: &str, i: usize, n: usize, m: usize) -> (r: bool)
    requires
        n == line@.len(),
        m == query@.len(),
        i + m <= n,
    ensures
        r == matches_at(line@, query@, i as int),
{
    let mut j: usize = 0;
    while j < m
        invariant
            n == line@.len(),
            m == query@.len(),
            i + m <= n,
            j <= m,
            forall|k: int| 0 <= k < j ==> line@[i + k] == query@[k],
        decreases m - j,
    {
        if line.get_char(i + j) != query.get_char(j) {
            proof {
                assert(line@.subrange(i as int, i + m)[j as int] == line@[i + j]);
            }
            return false;
        }
        j += 1;
    }
    proof {
        assert(line@.subrange(i as int, i + m) =~= query@);
    }
    true
}

/// Does `line` contain `query` as a substring?
pub(crate) fn contains_query(line: &str, query: &str) -> (r: bool)
    ensures
        r == contains_pat(line@, query@),
{
    let n = line.unicode_len();
    let m = query.unicode_len();
    if m == 0 {
        proof {
            lemma_empty_pat_matches(line@, query@);
        }
        return true;
    }
    if m > n {
        return false;
    }
    let mut i: usize = 0;
    while i <= n - m
        invariant
            n == line@.len(),
            m == query@.len(),
            0 < m <= n,
            i <= n - m + 1,
            forall|k: int| 0 <= k < i ==> !matches_at(line@, query@, k),
        decreases n - m - i + 1,
    {
        if match_at(line, query, i, n, m) {
            return true;
        }
        i += 1;
    }
    proof {
        assert forall|k: int| !matches_at(line@, query@, k) by {
            if k >= i {
                assert(k + m > n);
            }
        }
    }
    false
}

/// The position of the first newline character in `text`, or `text.len()`
/// when there is none.
pub open spec fn first_newline(text: Seq<char>) -> int
    decreases text.len(),
{
    if text.len() == 0 {
        0
    } else if text[0] == '\n' {
        0
    } else {
        1 + first_newline(text.subrange(1, text.len() as int))
    }
}

/// `first_newline` points at a newline inside `text`, or just past its end,
/// and nothing before it is a newline.
proof fn lemma_first_newline_bounds(text: Seq<char>)
    ensures
        0 <= first_newline(text) <= text.len(),
        first_newline(text) < text.len() ==> text[first_newline(text)] == '\n',
        forall|j: int| 0 <= j < first_newline(text) ==> text[j] != '\n',
    decreases text.len(),
{
    if text.len() > 0 && text[0] != '\n' {
        let rest = text.subrange(1, text.len() as int);
        lemma_first_newline_bounds(rest);
        assert forall|j: int| 0 <= j < first_newline(text) implies text[j] != '\n' by {
            if j > 0 {
                assert(rest[j - 1] != '\n');
            }
        }
    }
}

/// Any position that is preceded by no newline, and either holds a newline or
/// ends the text, is `first_newline`.
proof fn lemma_first_newline_at(text: Seq<char>, k: int)
    requires
        0 <= k <= text.len(),
        forall|j: int| 0 <= j < k ==> text[j] != '\n',
        k < text.len() ==> text[k] == '\n',
    ensures
        first_newline(text) == k,
    decreases text.len(),
{
    if text.len() > 0 && text[0] != '\n' {
        let rest = text.subrange(1, text.len() as int);
        assert forall|j: int| 0 <= j < k - 1 implies rest[j] != '\n' by {
            assert(text[j + 1] != '\n');
        }
        assert(k - 1 < rest.len() ==> rest[k - 1] == '\n');
        lemma_first_newline_at(rest, k - 1);
    }
}

/// `seg` without one carriage return standing at its end: when a newline
/// closes a line, a carriage return just before it belongs to the terminator,
/// not to the line.
pub open spec fn strip_cr(seg: Seq<char>) -> Seq<char> {
    if seg.len() > 0 && seg.last() == '\r' {
        seg.drop_last()
    } else {
        seg
    }
}

/// The lines of `text`, split at line endings that are either a newline or a
/// carriage return followed by a newline: an empty text has no lines, a final
/// line ending closes the last line rather than opening an empty one, and an
/// unterminated final segment stands whole, a trailing carriage return
/// included.
pub open spec fn lines_of(text: Seq<char>) -> Seq<Seq<char>>
    decreases text.len(),
    via lines_of_decreases
{
    if text.len() == 0 {
        Seq::empty()
    } else {
        let k = first_newline(text);
        if k == text.len() {
            seq![text]
        } else {
            seq![strip_cr(text.subrange(0, k))] + lines_of(
                text.subrange(k + 1, text.len() as int),
            )
        }
    }
}

#[via_fn]
proof fn lines_of_decreases(text: Seq<char>) {
    lemma_first_newline_bounds(text);
}

/// Splits `contents` into its lines, as `lines_of` describes them.
pub(crate) fn split_lines<'a>(contents: &'a str) -> (lines: Vec<&'a str>)
    ensures
        lines.deep_view() == lines_of(contents@),
{
    let n = contents.unicode_len();
    let mut lines: Vec<&'a str> = Vec::new();
    let mut pos: usize = 0;
    proof {
        assert(contents@.subrange(0, n as int) =~= contents@);
        assert(lines.deep_view() + lines_of(contents@) =~= lines_of(contents@));
    }
    while pos < n
        invariant
            n == contents@.len(),
            pos <= n,
            lines_of(contents@) == lines.deep_view() + lines_of(
                contents@.subrange(pos as int, n as int),
            ),
        decreases n - pos,
    {
        let ghost prev = lines.deep_view();
        let ghost rest = contents@.subrange(pos as int, n as int);
        let mut end: usize = pos;
        while end < n && contents.get_char(end) != '\n'
            invariant
                n == contents@.len(),
                pos <= end <= n,
                forall|j: int| pos <= j < end ==> contents@[j] != '\n',
            decreases n - end,
        {
            end += 1;
        }
        let line = if end < n && end > pos && contents.get_char(end - 1) == '\r' {
            contents.substring_char(pos, end - 1)
        } else {
            contents.substring_char(pos, end)
        };
        lines.push(line);
        proof {
            let k: int = end - pos;
            assert forall|j: int| 0 <= j < k implies rest[j] != '\n' by {
                assert(contents@[pos + j] != '\n');
            }
            assert(k < rest.len() ==> rest[k] == '\n');
            lemma_first_newline_at(rest, k);
            assert(lines.deep_view() =~= prev + seq![line@]);
            if end == n {
                assert(rest =~= line@);
                assert(lines_of(rest) == seq![line@]);
                assert(lines_of(contents@.subrange(n as int, n as int)) == Seq::<Seq<char>>::empty());
                assert(prev + lines_of(rest) =~= lines.deep_view() + lines_of(
                    contents@.subrange(n as int, n as int),
                ));
            } else {
                let seg = rest.subrange(0, k);
                assert(seg =~= contents@.subrange(pos as int, end as int));
                if end > pos && contents@[end - 1] == '\r' {
                    assert(seg.last() == '\r');
                    assert(seg.drop_last() =~= line@);
                } else {
                    assert(seg.len() > 0 ==> seg.last() == contents@[end - 1]);
                    assert(seg =~= line@);
                }
                assert(strip_cr(seg) == line@);
                assert(rest.subrange(k + 1, rest.len() as int) =~= contents@.subrange(
                    end + 1,
                    n as int,
                ));
                assert(lines_of(rest) == seq![line@] + lines_of(
                    contents@.subrange(end + 1, n as int),
                ));
                assert(prev + lines_of(rest) =~= lines.deep_view() + lines_of(
                    contents@.subrange(end + 1, n as int),
                ));
            }
        }
        if end < n {
            pos = end + 1;
        } else {
            pos = end;
        }
    }
    proof {
        assert(contents@.subrange(pos as int, n as int) =~= Seq::<char>::empty());
        assert(lines_of(Seq::<char>::empty()) == Seq::<Seq<char>>::empty());
        assert(lines.deep_view() + Seq::<Seq<char>>::empty() =~= lines.deep_view());
    }
    lines
}

} // verus!
