//! Splitting a text into bounded chunks.
//!
//! Two strategies cut a text into an ordered sequence of chunks along
//! line boundaries. The word-budget strategy keeps a running word count
//! and closes the open chunk when the next line would push the count
//! over the budget; by default the final, still open chunk is dropped,
//! and `flush_tail` emits it instead. The paragraph strategy closes a chunk at every blank line
//! and always drops the final open chunk.

use vstd::prelude::*;

use crate::text::is_blank;
use crate::text::line_is_blank;
use crate::text::spec_lines;
use crate::text::spec_word_count;
use crate::text::split_lines;
use crate::text::word_count;

verus! {

/// The total word count of a sequence of lines.
pub open spec fn total_words(lines: Seq<Seq<char>>) -> int
    decreases lines.len(),
{
    if lines.len() == 0 {
        0
    } else {
        total_words(lines.drop_last()) + spec_word_count(lines.last())
    }
}

/// The state of the word-budget accumulator after the first `i` lines:
/// the closed groups of lines, the open group, and its word count.
pub open spec fn budget_state(lines: Seq<Seq<char>>, max: int, i: int) -> (Seq<Seq<Seq<char>>>, Seq<
    Seq<char>,
>, int)
    decreases i,
{
    if i <= 0 {
        (seq![], seq![], 0int)
    } else {
        let s = budget_state(lines, max, i - 1);
        let l = lines[i - 1];
        let wc = spec_word_count(l);
        if s.2 + wc > max {
            (s.0.push(s.1), seq![l], wc)
        } else {
            (s.0, s.1.push(l), s.2 + wc)
        }
    }
}

/// The groups of lines that the word-budget strategy emits for `lines`.
pub open spec fn budget_groups(lines: Seq<Seq<char>>, max: int, flush_tail: bool) -> Seq<
    Seq<Seq<char>>,
> {
    let s = budget_state(lines, max, lines.len() as int);
    if flush_tail && s.1.len() > 0 {
        s.0.push(s.1)
    } else {
        s.0
    }
}

/// The lines still held by the open accumulator after all of `lines`:
/// exactly the text that the default word-budget strategy drops.
pub open spec fn budget_tail(lines: Seq<Seq<char>>, max: int) -> Seq<Seq<char>> {
    budget_state(lines, max, lines.len() as int).1
}

/// The text of a word-budget chunk: its lines joined with no separator.
pub open spec fn joined(group: Seq<Seq<char>>) -> Seq<char> {
    group.flatten()
}

/// The texts of a sequence of groups.
pub open spec fn joined_all(groups: Seq<Seq<Seq<char>>>) -> Seq<Seq<char>> {
    groups.map_values(|g: Seq<Seq<char>>| joined(g))
}

/// What `split` returns for `text`: the text of each emitted group.
pub open spec fn budget_chunks(text: Seq<char>, max: int, flush_tail: bool) -> Seq<Seq<char>> {
    joined_all(budget_groups(spec_lines(text), max, flush_tail))
}

/// Splits `raw_text` into chunks of at most `max_words` words, except
/// that a single line longer than the budget forms its own chunk. Lines
/// of a chunk are joined with no separator. The final, still open chunk
/// is emitted only when `flush_tail` is set.
pub fn split(raw_text: &str, max_words: usize, flush_tail: bool) -> (chunks: Vec<String>)
    ensures
        chunks.deep_view() == budget_chunks(raw_text@, max_words as int, flush_tail),
{
    let ghost max = max_words as int;
    let lines = split_lines(raw_text);
    let ghost lns = lines.deep_view();
    let mut chunks: Vec<String> = Vec::new();
    let mut cur = String::new();
    let ghost mut cur_group: Seq<Seq<char>> = seq![];
    let mut cnt: usize = 0;
    let mut i: usize = 0;
    proof {
        assert(chunks.deep_view() =~= Seq::<Seq<char>>::empty());
        assert(cur_group.flatten() =~= Seq::<char>::empty());
    }
    while i < lines.len()
        invariant
            i <= lines.len(),
            lns == lines.deep_view(),
            lns == spec_lines(raw_text@),
            max == max_words as int,
            joined_all(budget_state(lns, max, i as int).0) == chunks.deep_view(),
            budget_state(lns, max, i as int).1 == cur_group,
            budget_state(lns, max, i as int).2 == cnt as int,
            cur@ == cur_group.flatten(),
            (cur_group.len() > 0) <==> (i > 0),
        decreases lines.len() - i,
    {
        let ghost prev = budget_state(lns, max, i as int);
        let line: &String = &lines[i];
        proof {
            assert(line@ == lns[i as int]);
        }
        let wc = word_count(line.as_str());
        if wc > max_words || cnt > max_words - wc {
            assert(prev.2 + spec_word_count(lns[i as int]) > max);
            let ghost chunks0 = chunks.deep_view();
            chunks.push(cur);
            cur = String::new();
            cur.append(line.as_str());
            cnt = wc;
            proof {
                assert(chunks.deep_view() =~= chunks0.push(joined(cur_group)));
                assert(joined_all(prev.0.push(cur_group)) =~= joined_all(prev.0).push(
                    joined(cur_group),
                ));
                cur_group = seq![lns[i as int]];
                assert(cur@ =~= cur_group.flatten()) by {
                    cur_group.lemma_flatten_one_element();
                }
            }
        } else {
            assert(prev.2 + spec_word_count(lns[i as int]) <= max);
            cur.append(line.as_str());
            cnt = cnt + wc;
            proof {
                cur_group.lemma_flatten_push(lns[i as int]);
                cur_group = cur_group.push(lns[i as int]);
            }
        }
        i = i + 1;
    }
    if flush_tail && lines.len() > 0 {
        let ghost chunks0 = chunks.deep_view();
        chunks.push(cur);
        proof {
            let s = budget_state(lns, max, lns.len() as int);
            assert(chunks.deep_view() =~= chunks0.push(joined(cur_group)));
            assert(joined_all(s.0.push(s.1)) =~= joined_all(s.0).push(joined(s.1)));
        }
    }
    chunks
}

proof fn lemma_total_words_take_succ(lines: Seq<Seq<char>>, i: int)
    requires
        0 <= i < lines.len(),
    ensures
        total_words(lines.take(i + 1)) == total_words(lines.take(i)) + spec_word_count(lines[i]),
{
    assert(lines.take(i + 1).drop_last() =~= lines.take(i));
    assert(lines.take(i + 1).last() == lines[i]);
}

proof fn lemma_total_words_take_le(lines: Seq<Seq<char>>, i: int)
    requires
        0 <= i <= lines.len(),
    ensures
        total_words(lines.take(i)) <= total_words(lines),
    decreases lines.len(),
{
    if i == lines.len() {
        assert(lines.take(i) =~= lines);
    } else {
        crate::text::lemma_word_count_le_len(lines.last());
        assert(lines.take(i) =~= lines.drop_last().take(i));
        lemma_total_words_take_le(lines.drop_last(), i);
    }
}

proof fn lemma_budget_no_flush(lines: Seq<Seq<char>>, max: int, i: int)
    requires
        total_words(lines) <= max,
        0 <= i <= lines.len(),
    ensures
        budget_state(lines, max, i).0 == Seq::<Seq<Seq<char>>>::empty(),
        budget_state(lines, max, i).1 == lines.take(i),
        budget_state(lines, max, i).2 == total_words(lines.take(i)),
    decreases i,
{
    if i == 0 {
        assert(lines.take(0) =~= Seq::<Seq<char>>::empty());
    } else {
        lemma_budget_no_flush(lines, max, i - 1);
        lemma_total_words_take_succ(lines, i - 1);
        lemma_total_words_take_le(lines, i);
        assert(lines.take(i - 1).push(lines[i - 1]) =~= lines.take(i));
    }
}

/// A text whose total word count stays within the budget yields at most
/// one chunk: nothing is ever flushed, so the default strategy emits no
/// chunk at all and `flush_tail` emits exactly the one open chunk (none
/// for an empty text).
pub proof fn lemma_budget_within_single_chunk(text: Seq<char>, max: int, flush_tail: bool)
    requires
        total_words(spec_lines(text)) <= max,
    ensures
        budget_chunks(text, max, flush_tail).len() <= 1,
{
    let lines = spec_lines(text);
    lemma_budget_no_flush(lines, max, lines.len() as int);
}

proof fn lemma_budget_cover(lines: Seq<Seq<char>>, max: int, i: int)
    requires
        0 <= i <= lines.len(),
    ensures
        budget_state(lines, max, i).0.flatten() + budget_state(lines, max, i).1 == lines.take(i),
    decreases i,
{
    if i == 0 {
        assert(budget_state(lines, max, 0).0.flatten() == Seq::<Seq<char>>::empty());
        assert(Seq::<Seq<char>>::empty() + Seq::<Seq<char>>::empty() =~= lines.take(0));
    } else {
        lemma_budget_cover(lines, max, i - 1);
        let s = budget_state(lines, max, i - 1);
        let l = lines[i - 1];
        assert(lines.take(i - 1).push(l) =~= lines.take(i));
        if s.2 + spec_word_count(l) > max {
            s.0.lemma_flatten_push(s.1);
            assert((s.0.flatten() + s.1) + seq![l] =~= (s.0.push(s.1)).flatten() + seq![l]);
            assert((s.0.flatten() + s.1) + seq![l] =~= lines.take(i));
        } else {
            assert(s.0.flatten() + s.1.push(l) =~= (s.0.flatten() + s.1).push(l));
        }
    }
}

/// `split` loses no line and invents none: with `flush_tail` the emitted
/// groups carry exactly the input's lines in order; without it they
/// carry exactly the input's lines minus `budget_tail`, the final open
/// group that the default behaviour silently drops.
pub proof fn lemma_split_covers_lines(text: Seq<char>, max: int)
    ensures
        budget_groups(spec_lines(text), max, false).flatten() + budget_tail(spec_lines(text), max)
            == spec_lines(text),
        budget_groups(spec_lines(text), max, true).flatten() == spec_lines(text),
{
    let lines = spec_lines(text);
    let n = lines.len() as int;
    lemma_budget_cover(lines, max, n);
    assert(lines.take(n) =~= lines);
    let s = budget_state(lines, max, n);
    if s.1.len() > 0 {
        s.0.lemma_flatten_push(s.1);
        assert(budget_groups(lines, max, true).flatten() =~= s.0.flatten() + s.1);
    } else {
        assert(s.0.flatten() + s.1 =~= s.0.flatten());
    }
}

/// The state of the paragraph accumulator after the first `i` lines:
/// the closed groups of lines and the open group.
pub open spec fn para_state(lines: Seq<Seq<char>>, i: int) -> (Seq<Seq<Seq<char>>>, Seq<Seq<char>>)
    decreases i,
{
    if i <= 0 {
        (seq![], seq![])
    } else {
        let s = para_state(lines, i - 1);
        let l = lines[i - 1];
        let c = s.1.push(l);
        if is_blank(l) {
            (s.0.push(c), seq![])
        } else {
            (s.0, c)
        }
    }
}

/// The groups of lines that the paragraph strategy emits for `lines`:
/// one group per blank-line-terminated stretch, the final open group
/// dropped.
pub open spec fn para_groups(lines: Seq<Seq<char>>) -> Seq<Seq<Seq<char>>> {
    para_state(lines, lines.len() as int).0
}

/// The lines still held by the open accumulator after all of `lines`:
/// exactly the text that the paragraph strategy drops.
pub open spec fn para_tail(lines: Seq<Seq<char>>) -> Seq<Seq<char>> {
    para_state(lines, lines.len() as int).1
}

/// The text of a paragraph chunk: each of its lines with a line feed
/// re-added.
pub open spec fn joined_lines(group: Seq<Seq<char>>) -> Seq<char> {
    group.flat_map(|l: Seq<char>| l.push('\n'))
}

/// The texts of a sequence of paragraph groups.
pub open spec fn joined_lines_all(groups: Seq<Seq<Seq<char>>>) -> Seq<Seq<char>> {
    groups.map_values(|g: Seq<Seq<char>>| joined_lines(g))
}

/// What `split_text_into_chunks` returns for `text`.
pub open spec fn para_chunks(text: Seq<char>) -> Seq<Seq<char>> {
    joined_lines_all(para_groups(spec_lines(text)))
}

/// Splits `raw_text` into paragraphs: a chunk ends at every blank line,
/// with no word budget at all. Each line of a chunk appears with a
/// terminating line feed. A final stretch not closed by a blank line is
/// dropped.
pub fn split_text_into_chunks(raw_text: &str) -> (chunks: Vec<String>)
    ensures
        chunks.deep_view() == para_chunks(raw_text@),
{
    let lines = split_lines(raw_text);
    let ghost lns = lines.deep_view();
    let mut chunks: Vec<String> = Vec::new();
    let mut cur = String::new();
    let ghost mut cur_group: Seq<Seq<char>> = seq![];
    let mut i: usize = 0;
    proof {
        assert(chunks.deep_view() =~= Seq::<Seq<char>>::empty());
        assert(cur_group.map_values(|l: Seq<char>| l.push('\n')).flatten() =~= Seq::<
            char,
        >::empty());
    }
    while i < lines.len()
        invariant
            i <= lines.len(),
            lns == lines.deep_view(),
            lns == spec_lines(raw_text@),
            joined_lines_all(para_state(lns, i as int).0) == chunks.deep_view(),
            para_state(lns, i as int).1 == cur_group,
            cur@ == joined_lines(cur_group),
        decreases lines.len() - i,
    {
        let ghost prev = para_state(lns, i as int);
        let line: &String = &lines[i];
        proof {
            assert(line@ == lns[i as int]);
        }
        cur.append(line.as_str());
        cur.append("\n");
        proof {
            reveal_strlit("\n");
            assert("\n"@ =~= seq!['\n']);
            cur_group.lemma_flat_map_push(|l: Seq<char>| l.push('\n'), lns[i as int]);
            assert(lns[i as int].push('\n') =~= lns[i as int] + "\n"@);
            cur_group = cur_group.push(lns[i as int]);
            assert(cur@ == joined_lines(cur_group));
        }
        if line_is_blank(line.as_str()) {
            let ghost chunks0 = chunks.deep_view();
            chunks.push(cur);
            cur = String::new();
            proof {
                assert(chunks.deep_view() =~= chunks0.push(joined_lines(cur_group)));
                assert(joined_lines_all(prev.0.push(cur_group)) =~= joined_lines_all(prev.0).push(
                    joined_lines(cur_group),
                ));
                cur_group = seq![];
                assert(cur@ =~= joined_lines(cur_group));
            }
        }
        i = i + 1;
    }
    chunks
}

proof fn lemma_para_cover(lines: Seq<Seq<char>>, i: int)
    requires
        0 <= i <= lines.len(),
    ensures
        para_state(lines, i).0.flatten() + para_state(lines, i).1 == lines.take(i),
    decreases i,
{
    if i == 0 {
        assert(para_state(lines, 0).0.flatten() == Seq::<Seq<char>>::empty());
        assert(Seq::<Seq<char>>::empty() + Seq::<Seq<char>>::empty() =~= lines.take(0));
    } else {
        lemma_para_cover(lines, i - 1);
        let s = para_state(lines, i - 1);
        let l = lines[i - 1];
        assert(lines.take(i - 1).push(l) =~= lines.take(i));
        assert(s.0.flatten() + s.1.push(l) =~= (s.0.flatten() + s.1).push(l));
        if is_blank(l) {
            s.0.lemma_flatten_push(s.1.push(l));
            assert((s.0.push(s.1.push(l))).flatten() + Seq::<Seq<char>>::empty() =~= s.0.flatten()
                + s.1.push(l));
        }
    }
}

/// The paragraph strategy loses no line and invents none: its groups
/// carry exactly the input's lines in order, minus `para_tail`, the
/// final stretch not closed by a blank line.
pub proof fn lemma_paragraphs_cover_lines(text: Seq<char>)
    ensures
        para_groups(spec_lines(text)).flatten() + para_tail(spec_lines(text)) == spec_lines(text),
{
    let lines = spec_lines(text);
    lemma_para_cover(lines, lines.len() as int);
    assert(lines.take(lines.len() as int) =~= lines);
}

} // verus!
