//! Lines and words of a text.
//!
//! The chunkers measure text in whitespace-delimited words and cut it at
//! line boundaries, so the notions of "line" and "word" are pinned down
//! here once, as spec functions, together with the executable code that
//! computes them.

use vstd::prelude::*;

verus! {

/// ASCII whitespace: the separators recognised by word counting and by
/// blank-line detection.
pub open spec fn is_ws(c: char) -> bool {
    c == ' ' || c == '\t' || c == '\n' || c == '\r' || c == '\u{c}'
}

/// `i` starts a word of `s`: a non-whitespace character at the beginning
/// of the text or right after a whitespace character.
pub open spec fn is_word_start(s: Seq<char>, i: int) -> bool {
    &&& 0 <= i < s.len()
    &&& !is_ws(s[i])
    &&& (i == 0 || is_ws(s[i - 1]))
}

/// How many words of `s` start before index `n`.
pub open spec fn word_count_upto(s: Seq<char>, n: int) -> int
    decreases n,
{
    if n <= 0 {
        0
    } else {
        word_count_upto(s, n - 1) + if is_word_start(s, n - 1) {
            1int
        } else {
            0int
        }
    }
}

/// The number of whitespace-delimited words of `s`.
pub open spec fn spec_word_count(s: Seq<char>) -> int {
    word_count_upto(s, s.len() as int)
}

proof fn lemma_word_count_upto_bound(s: Seq<char>, n: int)
    requires
        0 <= n <= s.len(),
    ensures
        0 <= word_count_upto(s, n) <= n,
    decreases n,
{
    if n > 0 {
        lemma_word_count_upto_bound(s, n - 1);
    }
}

/// A word count never exceeds the length of the text.
pub proof fn lemma_word_count_le_len(s: Seq<char>)
    ensures
        0 <= spec_word_count(s) <= s.len(),
{
    lemma_word_count_upto_bound(s, s.len() as int);
}

/// The index of the first occurrence of `c` in `s` at or after `i`, or
/// `s.len()` when there is none.
pub open spec fn find_from(s: Seq<char>, c: char, i: int) -> int
    recommends
        0 <= i <= s.len(),
    decreases s.len() - i,
{
    if i < 0 || i >= s.len() {
        s.len() as int
    } else if s[i] == c {
        i
    } else {
        find_from(s, c, i + 1)
    }
}

/// The index of the first occurrence of `c` in `s`, or `s.len()` when
/// there is none.
pub open spec fn spec_find(s: Seq<char>, c: char) -> int {
    find_from(s, c, 0)
}

/// A line of text, stripped of its terminator: the characters up to the
/// first line feed, with a carriage return directly before that line
/// feed removed as well.
pub open spec fn first_line(s: Seq<char>) -> Seq<char> {
    let i = spec_find(s, '\n');
    if i == s.len() {
        s
    } else if i > 0 && s[i - 1] == '\r' {
        s.take(i - 1)
    } else {
        s.take(i)
    }
}

/// The lines of `s`: maximal stretches separated by line feeds, each
/// stripped of a trailing carriage return that preceded its line feed.
/// A trailing line terminator opens no further empty line.
pub open spec fn spec_lines(s: Seq<char>) -> Seq<Seq<char>>
    decreases s.len(),
{
    if s.len() == 0 {
        seq![]
    } else {
        let i = spec_find(s, '\n');
        if 0 <= i < s.len() {
            seq![first_line(s)] + spec_lines(s.skip(i + 1))
        } else {
            seq![s]
        }
    }
}

proof fn lemma_find_from_at(t: Seq<char>, c: char, i: int, k: int)
    requires
        0 <= i <= k <= t.len(),
        forall|j: int| i <= j < k ==> t[j] != c,
        k < t.len() ==> t[k] == c,
    ensures
        find_from(t, c, i) == if k < t.len() {
            k
        } else {
            t.len() as int
        },
    decreases k - i,
{
    if i < k {
        lemma_find_from_at(t, c, i + 1, k);
    }
}

/// `spec_find` is the first match: no `c` before it, and `c` at it when
/// it lies inside the text.
pub proof fn lemma_find_char_at(t: Seq<char>, c: char, k: int)
    requires
        0 <= k <= t.len(),
        forall|j: int| 0 <= j < k ==> t[j] != c,
        k < t.len() ==> t[k] == c,
    ensures
        spec_find(t, c) == if k < t.len() {
            k
        } else {
            t.len() as int
        },
{
    lemma_find_from_at(t, c, 0, k);
}

/// The lines of `s`, in order, as `str::lines` draws them.
pub fn split_lines(s: &str) -> (lines: Vec<String>)
    ensures
        lines.deep_view() == spec_lines(s@),
{
    let n = s.unicode_len();
    let mut lines: Vec<String> = Vec::new();
    let mut start: usize = 0;
    proof {
        assert(s@.skip(0) =~= s@);
        assert(lines.deep_view() =~= Seq::<Seq<char>>::empty());
        assert(Seq::<Seq<char>>::empty() + spec_lines(s@) =~= spec_lines(s@));
    }
    while start < n
        invariant
            start <= n,
            n == s@.len(),
            spec_lines(s@) == lines.deep_view() + spec_lines(s@.skip(start as int)),
        decreases n - start,
    {
        let mut i: usize = start;
        while i < n && s.get_char(i) != '\n'
            invariant
                start <= i <= n,
                n == s@.len(),
                forall|j: int| start <= j < i ==> s@[j] != '\n',
            decreases n - i,
        {
            i = i + 1;
        }
        let ghost rest = s@.skip(start as int);
        proof {
            assert(forall|j: int| 0 <= j < i - start ==> rest[j] != '\n');
            assert(i < n ==> rest[i - start] == '\n');
            lemma_find_char_at(rest, '\n', i - start);
        }
        let ghost prev = lines.deep_view();
        if i == n {
            let line = s.substring_char(start, n);
            lines.push(line.to_owned());
            proof {
                assert(line@ =~= rest);
                assert(spec_lines(rest) == seq![rest]);
                assert(lines.deep_view() =~= prev + seq![rest]);
                assert(s@.skip(n as int) =~= Seq::<char>::empty());
                assert(spec_lines(s@.skip(n as int)) == Seq::<Seq<char>>::empty());
                assert(prev + (seq![rest] + Seq::<Seq<char>>::empty()) =~= prev + seq![rest]);
            }
            start = n;
        } else {
            let end = if i > start && s.get_char(i - 1) == '\r' {
                i - 1
            } else {
                i
            };
            let line = s.substring_char(start, end);
            lines.push(line.to_owned());
            proof {
                assert(rest.len() > 0);
                assert(spec_find(rest, '\n') == i - start);
                assert(first_line(rest) =~= s@.subrange(start as int, end as int));
                assert(rest.skip(i - start + 1) =~= s@.skip(i + 1));
                assert(spec_lines(rest) == seq![first_line(rest)] + spec_lines(s@.skip(i + 1)));
                assert(lines.deep_view() =~= prev + seq![line@]);
                assert(lines.deep_view() + spec_lines(s@.skip(i + 1)) =~= prev + spec_lines(
                    rest,
                ));
            }
            start = i + 1;
        }
    }
    proof {
        assert(s@.skip(n as int) =~= Seq::<char>::empty());
        assert(spec_lines(s@.skip(start as int)) == Seq::<Seq<char>>::empty());
        assert(lines.deep_view() =~= lines.deep_view() + Seq::<Seq<char>>::empty());
    }
    lines
}

fn is_ws_exec(c: char) -> (r: bool)
    ensures
        r == is_ws(c),
{
    c == ' ' || c == '\t' || c == '\n' || c == '\r' || c == '\u{c}'
}

/// A blank line: empty, or whitespace throughout.
pub open spec fn is_blank(l: Seq<char>) -> bool {
    forall|j: int| 0 <= j < l.len() ==> is_ws(l[j])
}

/// Whether `line` is blank: empty or whitespace throughout.
pub fn line_is_blank(line: &str) -> (r: bool)
    ensures
        r == is_blank(line@),
{
    let len = line.unicode_len();
    let mut i: usize = 0;
    while i < len
        invariant
            i <= len,
            len == line@.len(),
            forall|j: int| 0 <= j < i ==> is_ws(line@[j]),
        decreases len - i,
    {
        if !is_ws_exec(line.get_char(i)) {
            return false;
        }
        i = i + 1;
    }
    true
}

/// The number of whitespace-delimited words of `line`, counted with
/// ASCII whitespace semantics.
pub fn word_count(line: &str) -> (n: usize)
    ensures
        n == spec_word_count(line@),
{
    let len = line.unicode_len();
    let mut count: usize = 0;
    let mut i: usize = 0;
    while i < len
        invariant
            i <= len,
            len == line@.len(),
            count == word_count_upto(line@, i as int),
            count <= i,
        decreases len - i,
    {
        let c = line.get_char(i);
        let starts = !is_ws_exec(c) && (i == 0 || is_ws_exec(line.get_char(i - 1)));
        if starts {
            count = count + 1;
        }
        i = i + 1;
    }
    count
}

} // verus!
