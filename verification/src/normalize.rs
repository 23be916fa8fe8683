//! Removes from a source text the module declarations that flattening makes
//! redundant: once a module's file stands inline in its `mod` block, the line
//! that only declared the module would declare it a second time.

use crate::lines::{
    ends_with_carriage_return, is_single_line, join_lines, join_with_line_feeds,
    lemma_carriage_return_joins_to_long_ending, lemma_empty_last_line_joins_to_line_feed,
    lemma_join_lines_push, lemma_joined_lines_are_no_longer, lemma_split_lines_are_single,
    lemma_split_of_joined, line_texts, split_into_lines, split_lines, survives_joining,
};
use crate::text::{from_chars, to_chars};
use vstd::prelude::*;

verus! {

/// How a private module declaration starts.
pub const MODULE_PREFIX: &'static str = "mod ";

/// How a public module declaration starts.
pub const PUBLIC_MODULE_PREFIX: &'static str = "pub mod ";

/// How a module declaration ends.
pub const STATEMENT_END: &'static str = ";";

/// Whether `c` can start a module name.
pub open spec fn is_name_start(c: char) -> bool {
    c == '_' || ('a' <= c && c <= 'z') || ('A' <= c && c <= 'Z')
}

/// Whether `c` can stand inside a module name.
pub open spec fn is_name_part(c: char) -> bool {
    is_name_start(c) || ('0' <= c && c <= '9')
}

/// Whether `name` is a module name: a letter or an underscore, followed by
/// letters, digits and underscores.
pub open spec fn is_module_name(name: Seq<char>) -> bool {
    &&& name.len() > 0
    &&& is_name_start(name[0])
    &&& forall|i: int| 0 < i < name.len() ==> is_name_part(#[trigger] name[i])
}

/// Whether `line` is `prefix`, a module name and the semicolon, and nothing
/// else.
pub open spec fn declares_module_after(line: Seq<char>, prefix: Seq<char>) -> bool {
    let name = line.subrange(prefix.len() as int, line.len() - STATEMENT_END@.len());
    &&& prefix.len() + STATEMENT_END@.len() <= line.len()
    &&& line == prefix + name + STATEMENT_END@
    &&& is_module_name(name)
}

/// Whether `line` declares a module without giving its body: `mod`, with or
/// without `pub` before it, one space, a module name and the semicolon, and
/// nothing before, between or after them.
pub open spec fn is_module_declaration(line: Seq<char>) -> bool {
    declares_module_after(line, MODULE_PREFIX@) || declares_module_after(
        line,
        PUBLIC_MODULE_PREFIX@,
    )
}

/// The lines of `lines` that are no module declarations, in their order.
pub open spec fn kept_lines(lines: Seq<Seq<char>>) -> Seq<Seq<char>> {
    lines.filter(|line: Seq<char>| !is_module_declaration(line))
}

/// The text `code` without its module declarations.
pub open spec fn clean(code: Seq<char>) -> Seq<char> {
    join_lines(kept_lines(split_lines(code)))
}

/// Whether cleaning `code` a second time changes nothing: of the lines that
/// cleaning keeps, none but the last ends with a carriage return, and the
/// last is not empty unless it is the only one.
pub open spec fn is_settled(code: Seq<char>) -> bool {
    let kept = kept_lines(split_lines(code));
    &&& forall|i: int| 0 <= i < kept.len() - 1 ==> !ends_with_carriage_return(#[trigger] kept[i])
    &&& kept.len() >= 2 ==> kept.last().len() > 0
}

/// Tells whether `line` starts with `prefix`.
pub fn starts_with(line: &Vec<char>, prefix: &Vec<char>) -> (found: bool)
    ensures
        found == prefix@.is_prefix_of(line@),
{
    if prefix.len() > line.len() {
        return false;
    }
    let mut i: usize = 0;
    while i < prefix.len()
        invariant
            i <= prefix.len() <= line.len(),
            forall|j: int| 0 <= j < i ==> prefix@[j] == line@[j],
        decreases prefix.len() - i,
    {
        if prefix[i] != line[i] {
            assert(line@.subrange(0, prefix@.len() as int)[i as int] == line@[i as int]);
            return false;
        }
        i += 1;
    }
    true
}

/// Tells whether `line` ends with `suffix`.
pub fn ends_with(line: &Vec<char>, suffix: &Vec<char>) -> (found: bool)
    ensures
        found == suffix@.is_suffix_of(line@),
{
    if suffix.len() > line.len() {
        return false;
    }
    let offset = line.len() - suffix.len();
    let mut i: usize = 0;
    while i < suffix.len()
        invariant
            i <= suffix.len() <= line.len(),
            offset == line.len() - suffix.len(),
            forall|j: int| 0 <= j < i ==> suffix@[j] == line@[offset + j],
        decreases suffix.len() - i,
    {
        if suffix[i] != line[offset + i] {
            assert(line@.subrange(offset as int, line@.len() as int)[i as int] == line@[offset
                + i]);
            return false;
        }
        i += 1;
    }
    true
}

/// Tells whether `c` can start a module name.
fn starts_name(c: char) -> (found: bool)
    ensures
        found == is_name_start(c),
{
    c == '_' || ('a' <= c && c <= 'z') || ('A' <= c && c <= 'Z')
}

/// Tells whether `c` can stand inside a module name.
fn continues_name(c: char) -> (found: bool)
    ensures
        found == is_name_part(c),
{
    starts_name(c) || ('0' <= c && c <= '9')
}

/// Tells whether the characters of `line` from `from` up to `to` are a
/// module name.
fn holds_module_name(line: &Vec<char>, from: usize, to: usize) -> (found: bool)
    requires
        from <= to <= line.len(),
    ensures
        found == is_module_name(line@.subrange(from as int, to as int)),
{
    let ghost name = line@.subrange(from as int, to as int);
    if from == to || !starts_name(line[from]) {
        assert(from < to ==> name[0] == line@[from as int]);
        return false;
    }
    let mut i: usize = from + 1;
    while i < to
        invariant
            from < i <= to <= line.len(),
            name == line@.subrange(from as int, to as int),
            forall|j: int| 0 < j < i - from ==> is_name_part(#[trigger] name[j]),
        decreases to - i,
    {
        if !continues_name(line[i]) {
            assert(name[i - from] == line@[i as int]);
            return false;
        }
        i += 1;
    }
    assert(name[0] == line@[from as int]);
    true
}

/// Tells whether `line` is `prefix`, a module name and the semicolon.
fn declares_after(line: &Vec<char>, prefix: &Vec<char>, end: &Vec<char>) -> (found: bool)
    requires
        end@ == STATEMENT_END@,
    ensures
        found == declares_module_after(line@, prefix@),
{
    if prefix.len() > line.len() || end.len() > line.len() - prefix.len() {
        return false;
    }
    let from = prefix.len();
    let to = line.len() - end.len();
    let ghost name = line@.subrange(from as int, to as int);
    let ghost whole = prefix@ + name + end@;
    if !starts_with(line, prefix) {
        assert(whole.subrange(0, from as int) =~= prefix@);
        return false;
    }
    if !ends_with(line, end) {
        assert(whole.subrange(to as int, whole.len() as int) =~= end@);
        return false;
    }
    assert(line@ =~= whole);
    holds_module_name(line, from, to)
}

/// Drops the module declarations from `lines` and keeps the other lines in
/// their order.
pub fn remove_module_declarations(lines: Vec<Vec<char>>) -> (kept: Vec<Vec<char>>)
    ensures
        line_texts(kept@) == kept_lines(line_texts(lines@)),
{
    let private_prefix = to_chars(MODULE_PREFIX);
    let public_prefix = to_chars(PUBLIC_MODULE_PREFIX);
    let end = to_chars(STATEMENT_END);
    let ghost all = line_texts(lines@);
    let mut kept: Vec<Vec<char>> = Vec::new();
    proof {
        reveal(Seq::filter);
    }
    assert(all.take(0) =~= Seq::empty());
    for line in it: lines
        invariant
            it.seq() == lines@,
            all == line_texts(lines@),
            private_prefix@ == MODULE_PREFIX@,
            public_prefix@ == PUBLIC_MODULE_PREFIX@,
            end@ == STATEMENT_END@,
            line_texts(kept@) == kept_lines(all.take(it.index() as int)),
    {
        let ghost done = it.index() as int;
        let declares = declares_after(&line, &private_prefix, &end) || declares_after(
            &line,
            &public_prefix,
            &end,
        );
        proof {
            let next = all.take(done + 1);
            assert(next.drop_last() =~= all.take(done));
            assert(next.last() == line@);
            lemma_kept_lines_last(next);
            assert(line_texts(kept@.push(line)) =~= line_texts(kept@).push(line@));
        }
        if !declares {
            kept.push(line);
        }
    }
    assert(all.take(all.len() as int) =~= all);
    kept
}

/// Removes every module declaration line from `code` and joins the remaining
/// lines with line feeds.
pub fn clean_code(code: String) -> (cleaned: String)
    ensures
        cleaned@ == clean(code@),
{
    let chars = to_chars(code.as_str());
    let lines = split_into_lines(&chars);
    let kept = remove_module_declarations(lines);
    let joined = join_with_line_feeds(&kept);
    from_chars(&joined)
}

/// How `kept_lines` treats the last line: it drops a module declaration and
/// keeps any other line behind the kept lines before it.
pub proof fn lemma_kept_lines_last(lines: Seq<Seq<char>>)
    requires
        lines.len() > 0,
    ensures
        kept_lines(lines) == if is_module_declaration(lines.last()) {
            kept_lines(lines.drop_last())
        } else {
            kept_lines(lines.drop_last()).push(lines.last())
        },
{
    reveal(Seq::filter);
}

/// Every kept line is a line that is no module declaration, and holds no
/// line feed where no line does.
pub proof fn lemma_kept_lines_hold(lines: Seq<Seq<char>>)
    ensures
        forall|i: int|
            0 <= i < kept_lines(lines).len() ==> !is_module_declaration(
                #[trigger] kept_lines(lines)[i],
            ),
        (forall|i: int| 0 <= i < lines.len() ==> is_single_line(#[trigger] lines[i]))
            ==> forall|i: int|
            0 <= i < kept_lines(lines).len() ==> is_single_line(#[trigger] kept_lines(lines)[i]),
    decreases lines.len(),
{
    if lines.len() == 0 {
        reveal(Seq::filter);
    } else {
        let init = lines.drop_last();
        lemma_kept_lines_last(lines);
        lemma_kept_lines_hold(init);
        if forall|i: int| 0 <= i < lines.len() ==> is_single_line(#[trigger] lines[i]) {
            assert forall|i: int| 0 <= i < init.len() implies is_single_line(
                #[trigger] init[i],
            ) by {
                assert(init[i] == lines[i]);
            }
            assert(is_single_line(lines.last()));
        }
    }
}

/// Lines without a module declaration among them are all kept.
pub proof fn lemma_kept_lines_of_kept(lines: Seq<Seq<char>>)
    requires
        forall|i: int| 0 <= i < lines.len() ==> !is_module_declaration(#[trigger] lines[i]),
    ensures
        kept_lines(lines) == lines,
    decreases lines.len(),
{
    if lines.len() == 0 {
        reveal(Seq::filter);
    } else {
        let init = lines.drop_last();
        lemma_kept_lines_last(lines);
        assert forall|i: int| 0 <= i < init.len() implies !is_module_declaration(
            #[trigger] init[i],
        ) by {
            assert(init[i] == lines[i]);
        }
        lemma_kept_lines_of_kept(init);
        assert(init.push(lines.last()) =~= lines);
    }
}

/// Cleaning is idempotent on settled text: cleaning the cleaned text gives
/// the cleaned text again.
pub proof fn lemma_clean_is_idempotent(code: Seq<char>)
    requires
        is_settled(code),
    ensures
        clean(clean(code)) == clean(code),
{
    let lines = split_lines(code);
    let kept = kept_lines(lines);
    lemma_split_lines_are_single(code);
    lemma_kept_lines_hold(lines);
    if kept.len() == 0 || (kept.len() == 1 && kept[0].len() == 0) {
        // The cleaned text is empty, and so are its lines.
        assert(clean(code).len() == 0);
        lemma_kept_lines_of_kept(split_lines(clean(code)));
    } else {
        assert(survives_joining(kept));
        lemma_split_of_joined(kept);
        lemma_kept_lines_of_kept(kept);
    }
}

/// Dropping the module declarations never makes the joined text longer.
pub proof fn lemma_kept_lines_join_no_longer(lines: Seq<Seq<char>>)
    ensures
        join_lines(kept_lines(lines)).len() <= join_lines(lines).len(),
    decreases lines.len(),
{
    if lines.len() == 0 {
        reveal(Seq::filter);
    } else {
        let init = lines.drop_last();
        let last = lines.last();
        lemma_kept_lines_last(lines);
        lemma_kept_lines_join_no_longer(init);
        lemma_join_lines_push(init, last);
        assert(init.push(last) =~= lines);
        lemma_join_lines_push(kept_lines(init), last);
    }
}

/// Cleaning is idempotent on settled text only: on any other text, cleaning
/// the cleaned text makes it shorter.
pub proof fn lemma_clean_shortens_unsettled(code: Seq<char>)
    requires
        !is_settled(code),
    ensures
        clean(clean(code)).len() < clean(code).len(),
        clean(clean(code)) != clean(code),
{
    let kept = kept_lines(split_lines(code));
    let cleaned = join_lines(kept);
    if kept.len() >= 2 && kept.last().len() == 0 {
        lemma_empty_last_line_joins_to_line_feed(kept);
    } else {
        let at = choose|i: int|
            0 <= i < kept.len() - 1 && ends_with_carriage_return(#[trigger] kept[i]);
        lemma_carriage_return_joins_to_long_ending(kept, at);
    }
    lemma_joined_lines_are_no_longer(cleaned);
    lemma_kept_lines_join_no_longer(split_lines(cleaned));
}

/// A module declaration starts with `mod ` or `pub mod ` and ends with the
/// semicolon.
pub proof fn lemma_module_declaration_shape(line: Seq<char>)
    requires
        is_module_declaration(line),
    ensures
        MODULE_PREFIX@.is_prefix_of(line) || PUBLIC_MODULE_PREFIX@.is_prefix_of(line),
        STATEMENT_END@.is_suffix_of(line),
{
    let prefix = if declares_module_after(line, MODULE_PREFIX@) {
        MODULE_PREFIX@
    } else {
        PUBLIC_MODULE_PREFIX@
    };
    let end = STATEMENT_END@;
    assert(line.subrange(0, prefix.len() as int) =~= prefix);
    assert(line.subrange(line.len() - end.len(), line.len() as int) =~= end);
}

/// Cleaning removes every module declaration: none is left among the lines
/// that the cleaned text is joined from.
pub proof fn lemma_clean_removes_declarations(code: Seq<char>)
    ensures
        forall|i: int|
            0 <= i < kept_lines(split_lines(code)).len() ==> !is_module_declaration(
                #[trigger] kept_lines(split_lines(code))[i],
            ),
{
    lemma_kept_lines_hold(split_lines(code));
}

/// Cleaning keeps every other line as it is and where it is: line `at`
/// vanishes if it is a module declaration and otherwise stands, unchanged,
/// right after the kept lines before it and right before the kept lines
/// after it.
pub proof fn lemma_kept_lines_around(lines: Seq<Seq<char>>, at: int)
    requires
        0 <= at < lines.len(),
    ensures
        kept_lines(lines) == kept_lines(lines.take(at)) + (if is_module_declaration(lines[at]) {
            Seq::<Seq<char>>::empty()
        } else {
            seq![lines[at]]
        }) + kept_lines(lines.skip(at + 1)),
{
    let keeps = |line: Seq<char>| !is_module_declaration(line);
    let before = lines.take(at);
    let one = seq![lines[at]];
    let after = lines.skip(at + 1);
    assert(lines =~= before + one + after);
    Seq::filter_distributes_over_add(before + one, after, keeps);
    Seq::filter_distributes_over_add(before, one, keeps);
    assert(one.drop_last() =~= Seq::<Seq<char>>::empty());
    lemma_kept_lines_last(one);
    lemma_kept_lines_of_kept(one.drop_last());
    assert(kept_lines(one) =~= if is_module_declaration(lines[at]) {
        Seq::<Seq<char>>::empty()
    } else {
        one
    });
}

/// Cleaning a text without module declarations only joins its lines again.
pub proof fn lemma_clean_without_declarations(code: Seq<char>)
    requires
        forall|i: int|
            0 <= i < split_lines(code).len() ==> !is_module_declaration(
                #[trigger] split_lines(code)[i],
            ),
    ensures
        clean(code) == join_lines(split_lines(code)),
{
    lemma_kept_lines_of_kept(split_lines(code));
}

} // verus!
