//! Splitting text into lines and joining lines back into text.
//!
//! A line ends at a line feed; a carriage return directly before that line feed
//! belongs to the line ending. The last line needs no line feed, and a text that
//! ends with one has no empty line after it.

use vstd::prelude::*;
use vstd::slice::{slice_subrange, slice_to_vec};

verus! {

/// The character that ends a line.
pub const LINE_FEED: char = '\n';

/// The character that may stand before a line feed as part of the line ending.
pub const CARRIAGE_RETURN: char = '\r';

/// Number of characters before the first line feed of `text`, which is the
/// length of `text` when it holds no line feed.
pub open spec fn first_line_feed(text: Seq<char>) -> nat
    decreases text.len(),
{
    if text.len() == 0 || text[0] == LINE_FEED {
        0
    } else {
        (1 + first_line_feed(text.drop_first())) as nat
    }
}

/// Whether the last character of `line` is a carriage return.
pub open spec fn ends_with_carriage_return(line: Seq<char>) -> bool {
    line.len() > 0 && line.last() == CARRIAGE_RETURN
}

/// `line` without the carriage return at its end, if it has one.
pub open spec fn without_carriage_return(line: Seq<char>) -> Seq<char> {
    if ends_with_carriage_return(line) {
        line.drop_last()
    } else {
        line
    }
}

/// The lines of `text`, without their line endings.
pub open spec fn split_lines(text: Seq<char>) -> Seq<Seq<char>>
    decreases text.len(),
{
    let n = first_line_feed(text) as int;
    if text.len() == 0 {
        Seq::empty()
    } else if n >= text.len() {
        seq![text]
    } else {
        seq![without_carriage_return(text.take(n))] + split_lines(text.skip(n + 1))
    }
}

/// The text made of `lines` with one line feed between each two neighbours.
pub open spec fn join_lines(lines: Seq<Seq<char>>) -> Seq<char>
    decreases lines.len(),
{
    if lines.len() == 0 {
        Seq::empty()
    } else if lines.len() == 1 {
        lines[0]
    } else {
        lines[0] + seq![LINE_FEED] + join_lines(lines.drop_first())
    }
}

/// The texts held by a vector of lines.
pub open spec fn line_texts(lines: Seq<Vec<char>>) -> Seq<Seq<char>> {
    Seq::new(lines.len(), |i: int| lines[i]@)
}

/// Whether `line` holds no line feed.
pub open spec fn is_single_line(line: Seq<char>) -> bool {
    forall|i: int| 0 <= i < line.len() ==> line[i] != LINE_FEED
}

/// Whether splitting the joined `lines` gives `lines` back: no line holds a
/// line feed, no line but the last ends with a carriage return, and the last
/// line is not empty.
pub open spec fn survives_joining(lines: Seq<Seq<char>>) -> bool {
    &&& forall|i: int| 0 <= i < lines.len() ==> is_single_line(#[trigger] lines[i])
    &&& forall|i: int|
        0 <= i < lines.len() - 1 ==> !ends_with_carriage_return(#[trigger] lines[i])
    &&& lines.len() > 0 ==> lines.last().len() > 0
}

/// Whether a carriage return stands directly before a line feed somewhere in
/// `text`.
pub open spec fn has_long_line_ending(text: Seq<char>) -> bool {
    exists|i: int|
        0 <= i < text.len() - 1 && #[trigger] text[i] == CARRIAGE_RETURN && text[i + 1]
            == LINE_FEED
}

/// Whether `text` ends with a line feed.
pub open spec fn ends_with_line_feed(text: Seq<char>) -> bool {
    text.len() > 0 && text.last() == LINE_FEED
}

/// Appends the characters of `source` to `target`.
pub fn append_chars(target: &mut Vec<char>, source: &Vec<char>)
    ensures
        final(target)@ == old(target)@ + source@,
{
    let mut i: usize = 0;
    while i < source.len()
        invariant
            i <= source.len(),
            target@ == old(target)@ + source@.take(i as int),
        decreases source.len() - i,
    {
        target.push(source[i]);
        i += 1;
    }
}

/// Splits `text` into its lines, without their line endings.
pub fn split_into_lines(text: &Vec<char>) -> (lines: Vec<Vec<char>>)
    ensures
        line_texts(lines@) == split_lines(text@),
{
    let mut lines: Vec<Vec<char>> = Vec::new();
    let mut start: usize = 0;
    let mut i: usize = 0;
    assert(text@.skip(0) =~= text@);
    while i < text.len()
        invariant
            start <= i <= text.len(),
            forall|j: int| start <= j < i ==> text@[j] != LINE_FEED,
            split_lines(text@) == line_texts(lines@) + split_lines(text@.skip(start as int)),
        decreases text.len() - i,
    {
        if text[i] == LINE_FEED {
            let end = if i > start && text[i - 1] == CARRIAGE_RETURN {
                i - 1
            } else {
                i
            };
            let line = slice_to_vec(slice_subrange(text.as_slice(), start, end));
            proof {
                let rest = text@.skip(start as int);
                let n = i - start;
                lemma_first_line_feed_at(rest, n);
                assert(rest.skip(n + 1) =~= text@.skip(i + 1));
                assert(line@ =~= without_carriage_return(rest.take(n)));
                assert(line_texts(lines@) + (seq![line@] + split_lines(rest.skip(n + 1)))
                    =~= line_texts(lines@) + seq![line@] + split_lines(rest.skip(n + 1)));
            }
            lines.push(line);
            start = i + 1;
        }
        i += 1;
    }
    proof {
        let rest = text@.skip(start as int);
        lemma_first_line_feed_at(rest, rest.len() as int);
    }
    if start < text.len() {
        let line = slice_to_vec(slice_subrange(text.as_slice(), start, text.len()));
        lines.push(line);
    }
    lines
}

/// Joins `lines` into one text, with a line feed between each two neighbours.
pub fn join_with_line_feeds(lines: &Vec<Vec<char>>) -> (text: Vec<char>)
    ensures
        text@ == join_lines(line_texts(lines@)),
{
    let mut text: Vec<char> = Vec::new();
    let mut i: usize = 0;
    while i < lines.len()
        invariant
            i <= lines.len(),
            text@ == join_lines(line_texts(lines@).take(i as int)),
        decreases lines.len() - i,
    {
        if i > 0 {
            text.push(LINE_FEED);
        }
        append_chars(&mut text, &lines[i]);
        proof {
            let all = line_texts(lines@);
            lemma_join_lines_push(all.take(i as int), all[i as int]);
            assert(all.take(i + 1) =~= all.take(i as int).push(all[i as int]));
        }
        i += 1;
    }
    assert(line_texts(lines@).take(lines.len() as int) =~= line_texts(lines@));
    text
}

/// The first line feed of `text` stands at `at` when no earlier character is
/// one and either `at` is the end of `text` or a line feed stands there.
pub proof fn lemma_first_line_feed_at(text: Seq<char>, at: int)
    requires
        0 <= at <= text.len(),
        forall|i: int| 0 <= i < at ==> text[i] != LINE_FEED,
        at < text.len() ==> text[at] == LINE_FEED,
    ensures
        first_line_feed(text) == at,
    decreases at,
{
    if at > 0 {
        lemma_first_line_feed_at(text.drop_first(), at - 1);
    }
}

/// The first line feed of `text` lies within `text` or at its end, and no
/// character before it is a line feed.
pub proof fn lemma_first_line_feed_is_first(text: Seq<char>)
    ensures
        first_line_feed(text) <= text.len(),
        first_line_feed(text) < text.len() ==> text[first_line_feed(text) as int] == LINE_FEED,
        is_single_line(text.take(first_line_feed(text) as int)),
    decreases text.len(),
{
    if text.len() == 0 || text[0] == LINE_FEED {
    } else {
        let rest = text.drop_first();
        lemma_first_line_feed_is_first(rest);
        let n = first_line_feed(text) as int;
        assert forall|i: int| 0 <= i < text.take(n).len() implies text.take(n)[i]
            != LINE_FEED by {
            if i > 0 {
                assert(text.take(n)[i] == rest.take(n - 1)[i - 1]);
            }
        }
    }
}

/// Appending a line to `lines` appends it to the joined text, after a line
/// feed unless it is the first line.
pub proof fn lemma_join_lines_push(lines: Seq<Seq<char>>, line: Seq<char>)
    ensures
        join_lines(lines.push(line)) == if lines.len() == 0 {
            line
        } else {
            join_lines(lines) + seq![LINE_FEED] + line
        },
    decreases lines.len(),
{
    if lines.len() > 0 {
        let rest = lines.drop_first();
        assert(lines.push(line).drop_first() =~= rest.push(line));
        lemma_join_lines_push(rest, line);
    }
}

/// No line of a text holds a line feed.
pub proof fn lemma_split_lines_are_single(text: Seq<char>)
    ensures
        forall|i: int|
            0 <= i < split_lines(text).len() ==> is_single_line(#[trigger] split_lines(text)[i]),
    decreases text.len(),
{
    let n = first_line_feed(text) as int;
    lemma_first_line_feed_is_first(text);
    if text.len() == 0 {
    } else if n >= text.len() {
        assert(text.take(n) =~= text);
    } else {
        let tail = split_lines(text.skip(n + 1));
        lemma_split_lines_are_single(text.skip(n + 1));
        assert forall|i: int| 0 <= i < split_lines(text).len() implies is_single_line(
            #[trigger] split_lines(text)[i],
        ) by {
            if i > 0 {
                assert(split_lines(text)[i] == tail[i - 1]);
            }
        }
    }
}

/// Splitting the text joined from `lines` gives `lines` back, provided they
/// survive joining.
pub proof fn lemma_split_of_joined(lines: Seq<Seq<char>>)
    requires
        survives_joining(lines),
    ensures
        split_lines(join_lines(lines)) == lines,
    decreases lines.len(),
{
    let text = join_lines(lines);
    if lines.len() == 1 {
        lemma_first_line_feed_at(text, text.len() as int);
    } else if lines.len() > 1 {
        let first = lines[0];
        let rest = lines.drop_first();
        let n = first.len() as int;
        lemma_first_line_feed_at(text, n);
        assert(text.take(n) =~= first);
        assert(text.skip(n + 1) =~= join_lines(rest));
        assert(survives_joining(rest));
        lemma_split_of_joined(rest);
        assert(split_lines(text) == seq![first] + rest);
    }
}

/// Joining the lines of a text never gives a longer text, and gives a
/// shorter one where the text ends with a line feed or holds a carriage
/// return before a line feed.
pub proof fn lemma_joined_lines_are_no_longer(text: Seq<char>)
    ensures
        join_lines(split_lines(text)).len() <= text.len(),
        ends_with_line_feed(text) || has_long_line_ending(text) ==> join_lines(
            split_lines(text),
        ).len() < text.len(),
    decreases text.len(),
{
    let n = first_line_feed(text) as int;
    lemma_first_line_feed_is_first(text);
    if text.len() == 0 {
    } else if n >= text.len() {
        // One line without a line feed: joining gives the text back.
        assert(text.take(n) =~= text);
    } else {
        let rest = text.skip(n + 1);
        lemma_joined_lines_are_no_longer(rest);
        if split_lines(rest).len() > 0 {
            assert(split_lines(text).drop_first() =~= split_lines(rest));
            if has_long_line_ending(text) {
                // The long ending closes the first line, which then loses its
                // carriage return, or it lies in the rest of the text.
                let i = choose|i: int|
                    0 <= i < text.len() - 1 && #[trigger] text[i] == CARRIAGE_RETURN && text[i
                        + 1] == LINE_FEED;
                if i + 1 < n {
                    assert(text.take(n)[i + 1] == LINE_FEED);
                } else if i + 1 > n {
                    assert(rest[i - n - 1] == CARRIAGE_RETURN);
                }
            }
        }
    }
}

/// The text joined from two or more lines of which the last is empty ends
/// with a line feed.
pub proof fn lemma_empty_last_line_joins_to_line_feed(lines: Seq<Seq<char>>)
    requires
        lines.len() >= 2,
        lines.last().len() == 0,
    ensures
        ends_with_line_feed(join_lines(lines)),
{
    lemma_join_lines_push(lines.drop_last(), lines.last());
    assert(lines.drop_last().push(lines.last()) =~= lines);
}

/// The text joined from lines of which one but the last ends with a carriage
/// return holds a carriage return before a line feed.
pub proof fn lemma_carriage_return_joins_to_long_ending(lines: Seq<Seq<char>>, at: int)
    requires
        0 <= at < lines.len() - 1,
        ends_with_carriage_return(lines[at]),
    ensures
        has_long_line_ending(join_lines(lines)),
    decreases lines.len(),
{
    let text = join_lines(lines);
    let first = lines[0];
    let rest = lines.drop_first();
    if at == 0 {
        let i = first.len() - 1;
        assert(text[i] == CARRIAGE_RETURN && text[i + 1] == LINE_FEED);
    } else {
        lemma_carriage_return_joins_to_long_ending(rest, at - 1);
        let inner = join_lines(rest);
        let j = choose|j: int|
            0 <= j < inner.len() - 1 && #[trigger] inner[j] == CARRIAGE_RETURN && inner[j + 1]
                == LINE_FEED;
        let i = first.len() + 1 + j;
        assert(text[i] == CARRIAGE_RETURN && text[i + 1] == LINE_FEED);
    }
}

} // verus!
