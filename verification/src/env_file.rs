//! `.env` files: which there are, what a line says, and which variables loading them sets.

use vstd::prelude::*;

use crate::settings::Vars;
use crate::text::{
    chars_of, first_at_end_of, is_white_space, pieces_add_up, split, split_all, split_first,
    split_first_divides, split_once, text_without_separator_is_one_piece, texts, trim, trim_end,
    trim_end_is_exact, trim_leaves_the_middle, trim_matches, trim_start, trim_start_is_exact,
    trim_start_leaves_the_rest, trim_start_matches, trimmed_end_makes_no_difference,
    trimmed_text_is_kept, Cut,
};

verus! {

/// A variable with its value.
pub type Entry = (Seq<char>, Seq<char>);

/// The environment files, in the order in which they are loaded.
pub open spec fn env_file_names() -> Seq<Seq<char>> {
    seq![".env"@, ".env.local"@, ".env.production"@, ".env.development"@]
}

/// The names whose mark is set.
pub open spec fn marked(names: Seq<Seq<char>>, marks: Seq<bool>) -> Seq<Seq<char>>
    decreases names.len(),
{
    if names.len() == 0 {
        Seq::empty()
    } else if marks.last() {
        marked(names.drop_last(), marks.drop_last()).push(names.last())
    } else {
        marked(names.drop_last(), marks.drop_last())
    }
}

/// The names of the environment files.
pub fn env_files() -> (names: Vec<String>)
    ensures
        texts(names@) == env_file_names(),
{
    let mut names: Vec<String> = Vec::new();
    names.push(".env".to_owned());
    names.push(".env.local".to_owned());
    names.push(".env.production".to_owned());
    names.push(".env.development".to_owned());
    assert(texts(names@) =~= env_file_names());
    names
}

/// Names the environment files that there are. The marks say of each file, in loading order,
/// whether it exists.
pub fn detect_env_files(exists: &[bool; 4]) -> (found: Vec<String>)
    ensures
        texts(found@) == marked(env_file_names(), exists@),
{
    let names = env_files();
    assert(texts(names@).len() == 4);
    let mut found: Vec<String> = Vec::new();
    let mut i: usize = 0;
    assert(texts(found@) =~= Seq::empty());
    while i < 4
        invariant
            i <= 4,
            exists@.len() == 4,
            names@.len() == 4,
            texts(names@) == env_file_names(),
            texts(found@) == marked(env_file_names().take(i as int), exists@.take(i as int)),
        decreases 4 - i,
    {
        let ghost before = texts(found@);
        assert(env_file_names().take(i + 1).drop_last() == env_file_names().take(i as int));
        assert(exists@.take(i + 1).drop_last() == exists@.take(i as int));
        assert(texts(names@)[i as int] == names@[i as int]@);
        if exists[i] {
            found.push(names[i].clone());
            assert(texts(found@) =~= before.push(names@[i as int]@));
        }
        i = i + 1;
    }
    assert(env_file_names().take(4) == env_file_names());
    assert(exists@.take(4) == exists@);
    found
}

// ---------------------------------------------------------------------------
// Lines
// ---------------------------------------------------------------------------

/// Whether a comment begins at `i`: at a `#` that follows white space.
pub open spec fn starts_comment(value: Seq<char>, i: int) -> bool {
    0 < i < value.len() && value[i] == '#' && is_white_space(value[i - 1])
}

/// Where the first comment at or after `from` begins; the length of the value where there is none.
pub open spec fn comment_at(value: Seq<char>, from: int) -> int
    decreases value.len() - from,
{
    if from >= value.len() {
        value.len() as int
    } else if starts_comment(value, from) {
        from
    } else {
        comment_at(value, from + 1)
    }
}

/// Whether a value begins with a quote.
pub open spec fn is_quoted(value: Seq<char>) -> bool {
    let text = trim_start(value, Cut::WhiteSpace);
    text.len() > 0 && (text[0] == '"' || text[0] == '\'')
}

/// A value without the comment that follows it. In a value that begins with a quote no comment is
/// looked for.
pub open spec fn without_comment(value: Seq<char>) -> Seq<char> {
    if is_quoted(value) {
        value
    } else {
        value.take(comment_at(value, 0))
    }
}

/// A value without white space, then double quotes, then single quotes at its ends.
pub open spec fn unquoted(value: Seq<char>) -> Seq<char> {
    trim(trim(trim(value, Cut::WhiteSpace), Cut::Only('"')), Cut::Only('\''))
}

/// The variable that a line defines: none for an empty line, a comment, or a line without an
/// equals sign. A comment after the value is no part of it.
pub open spec fn line_entry(line: Seq<char>) -> Option<Entry> {
    let text = trim(line, Cut::WhiteSpace);
    if text.len() == 0 || text[0] == '#' {
        None
    } else {
        match split_first(text, '=') {
            Some((name, value)) => Some(
                (trim(name, Cut::WhiteSpace), unquoted(without_comment(value))),
            ),
            None => None,
        }
    }
}

/// The variables that some lines define, in order.
pub open spec fn lines_entries(lines: Seq<Seq<char>>) -> Seq<Entry>
    decreases lines.len(),
{
    if lines.len() == 0 {
        Seq::empty()
    } else {
        match line_entry(lines.last()) {
            Some(entry) => lines_entries(lines.drop_last()).push(entry),
            None => lines_entries(lines.drop_last()),
        }
    }
}

/// The variables that a file defines, in order. A carriage return before a line feed is white
/// space at the end of its line.
pub open spec fn file_entries(contents: Seq<char>) -> Seq<Entry> {
    lines_entries(split(contents, '\n'))
}

/// The variables that some files define, in order. A file that could not be read defines none.
pub open spec fn files_entries(files: Seq<Option<Seq<char>>>) -> Seq<Entry>
    decreases files.len(),
{
    if files.len() == 0 {
        Seq::empty()
    } else {
        files_entries(files.drop_last()) + match files.last() {
            Some(contents) => file_entries(contents),
            None => Seq::empty(),
        }
    }
}

/// The contents of variables with their values.
pub open spec fn entry_texts(entries: Seq<(String, String)>) -> Seq<Entry> {
    Seq::new(entries.len(), |i: int| (entries[i].0@, entries[i].1@))
}

/// The contents of files, as far as they could be read.
pub open spec fn file_texts(files: Seq<Option<String>>) -> Seq<Option<Seq<char>>> {
    Seq::new(
        files.len(),
        |i: int|
            match files[i] {
                Some(s) => Some(s@),
                None => None,
            },
    )
}

/// No comment begins between `from` and the place that `comment_at` gives, and one begins there,
/// unless that is the end.
proof fn lemma_comment_at(value: Seq<char>, from: int)
    requires
        0 <= from <= value.len(),
    ensures
        from <= comment_at(value, from) <= value.len(),
        forall|i: int| from <= i < comment_at(value, from) ==> !starts_comment(value, i),
        comment_at(value, from) < value.len() ==> starts_comment(value, comment_at(value, from)),
    decreases value.len() - from,
{
    if from < value.len() && !starts_comment(value, from) {
        lemma_comment_at(value, from + 1);
    }
}

/// Cuts off the comment that follows a value.
fn cut_comment<'a>(value: &'a str) -> (r: &'a str)
    ensures
        r@ == without_comment(value@),
{
    let text = trim_start_matches(value, Cut::WhiteSpace);
    if !text.is_empty() && (text.get_char(0) == '"' || text.get_char(0) == '\'') {
        return value;
    }
    let chars = chars_of(value);
    let mut i: usize = 0;
    while i < chars.len() && !(i > 0 && chars[i] == '#' && Cut::WhiteSpace.matches(chars[i - 1]))
        invariant
            chars@ == value@,
            i <= chars.len(),
            comment_at(value@, 0) == comment_at(value@, i as int),
        decreases chars.len() - i,
    {
        i = i + 1;
    }
    assert(value@.take(i as int) == value@.subrange(0, i as int));
    value.substring_char(0, i)
}

/// Reads the variable that a line defines.
pub fn parse_env_line(line: &str) -> (entry: Option<(String, String)>)
    ensures
        match entry {
            Some((name, value)) => line_entry(line@) == Some((name@, value@)),
            None => line_entry(line@) is None,
        },
{
    let text = trim_matches(line, Cut::WhiteSpace);
    if text.is_empty() {
        return None;
    }
    if text.get_char(0) == '#' {
        return None;
    }
    match split_once(text, '=') {
        Some((name, value)) => {
            let name = trim_matches(name, Cut::WhiteSpace);
            let value = trim_matches(
                trim_matches(trim_matches(cut_comment(value), Cut::WhiteSpace), Cut::Only('"')),
                Cut::Only('\''),
            );
            Some((name.to_owned(), value.to_owned()))
        },
        None => None,
    }
}

/// Reads the variables that a file defines.
pub fn parse_env_file(contents: &str) -> (entries: Vec<(String, String)>)
    ensures
        entry_texts(entries@) == file_entries(contents@),
{
    let lines = split_all(contents, '\n');
    let ghost all = texts(lines@);
    let mut entries: Vec<(String, String)> = Vec::new();
    let mut i: usize = 0;
    assert(entry_texts(entries@) =~= Seq::empty());
    assert(all.take(0) =~= Seq::empty());
    while i < lines.len()
        invariant
            i <= lines.len(),
            all == texts(lines@),
            entry_texts(entries@) == lines_entries(all.take(i as int)),
        decreases lines.len() - i,
    {
        let ghost before = entry_texts(entries@);
        assert(all.take(i + 1).drop_last() == all.take(i as int));
        match parse_env_line(lines[i].as_str()) {
            Some(entry) => {
                entries.push(entry);
                assert(entry_texts(entries@) =~= before.push((entry.0@, entry.1@)));
            },
            None => {},
        }
        i = i + 1;
    }
    assert(all.take(all.len() as int) == all);
    entries
}

// ---------------------------------------------------------------------------
// Loading
// ---------------------------------------------------------------------------

/// The environment after some variables were offered to it in order: a variable that is there
/// already stays as it is.
pub open spec fn loaded(env: Map<Seq<char>, Seq<char>>, entries: Seq<Entry>) -> Map<
    Seq<char>,
    Seq<char>,
>
    decreases entries.len(),
{
    if entries.len() == 0 {
        env
    } else {
        let before = loaded(env, entries.drop_last());
        if before.contains_key(entries.last().0) {
            before
        } else {
            before.insert(entries.last().0, entries.last().1)
        }
    }
}

/// The offered variables that the environment takes, in order.
pub open spec fn taken(env: Map<Seq<char>, Seq<char>>, entries: Seq<Entry>) -> Seq<Entry>
    decreases entries.len(),
{
    if entries.len() == 0 {
        Seq::empty()
    } else if loaded(env, entries.drop_last()).contains_key(entries.last().0) {
        taken(env, entries.drop_last())
    } else {
        taken(env, entries.drop_last()).push(entries.last())
    }
}

/// Offers the variables of one file to the environment, and notes those that it takes.
fn load_entries(env: &mut Vars, entries: Vec<(String, String)>, sets: &mut Vec<(String, String)>)
    ensures
        final(env)@ == loaded(old(env)@, entry_texts(entries@)),
        entry_texts(final(sets)@) == entry_texts(old(sets)@) + taken(
            old(env)@,
            entry_texts(entries@),
        ),
{
    let ghost start = env@;
    let ghost before_sets = entry_texts(sets@);
    let ghost all = entry_texts(entries@);
    let mut i: usize = 0;
    assert(all.take(0) =~= Seq::empty());
    assert(before_sets + Seq::<Entry>::empty() =~= before_sets);
    while i < entries.len()
        invariant
            i <= entries.len(),
            all == entry_texts(entries@),
            env@ == loaded(start, all.take(i as int)),
            entry_texts(sets@) == before_sets + taken(start, all.take(i as int)),
        decreases entries.len() - i,
    {
        assert(all.take(i + 1).drop_last() == all.take(i as int));
        let name = entries[i].0.clone();
        let value = entries[i].1.clone();
        let ghost so_far = entry_texts(sets@);
        if env.get(name.as_str()).is_none() {
            env.set(name.clone(), value.clone());
            sets.push((name, value));
            assert(entry_texts(sets@) =~= so_far.push((name@, value@)));
            assert(before_sets + taken(start, all.take(i + 1)) =~= so_far.push((name@, value@)));
        }
        i = i + 1;
    }
    assert(all.take(all.len() as int) == all);
}

/// Loads environment files, in order, into the environment, and lists the variables that this
/// sets. A file that could not be read is skipped.
pub fn load_env(env: &mut Vars, files: &Vec<Option<String>>) -> (sets: Vec<(String, String)>)
    ensures
        final(env)@ == loaded(old(env)@, files_entries(file_texts(files@))),
        entry_texts(sets@) == taken(old(env)@, files_entries(file_texts(files@))),
{
    let ghost start = env@;
    let ghost all = file_texts(files@);
    let mut sets: Vec<(String, String)> = Vec::new();
    let mut i: usize = 0;
    assert(all.take(0) =~= Seq::empty());
    assert(entry_texts(sets@) =~= Seq::empty());
    while i < files.len()
        invariant
            i <= files.len(),
            all == file_texts(files@),
            env@ == loaded(start, files_entries(all.take(i as int))),
            entry_texts(sets@) == taken(start, files_entries(all.take(i as int))),
        decreases files.len() - i,
    {
        let ghost offered = files_entries(all.take(i as int));
        assert(all.take(i + 1).drop_last() == all.take(i as int));
        match &files[i] {
            Some(contents) => {
                let entries = parse_env_file(contents.as_str());
                proof {
                    lemma_loaded_in_steps(start, offered, entry_texts(entries@));
                }
                load_entries(env, entries, &mut sets);
            },
            None => {
                assert(offered + Seq::<Entry>::empty() =~= offered);
            },
        }
        i = i + 1;
    }
    assert(all.take(all.len() as int) == all);
    sets
}

/// Offering two lists one after the other is offering both at once.
pub proof fn lemma_loaded_in_steps(
    env: Map<Seq<char>, Seq<char>>,
    first: Seq<Entry>,
    second: Seq<Entry>,
)
    ensures
        loaded(env, first + second) == loaded(loaded(env, first), second),
        taken(env, first + second) == taken(env, first) + taken(loaded(env, first), second),
    decreases second.len(),
{
    if second.len() == 0 {
        assert(first + second == first);
        assert(taken(env, first) + Seq::<Entry>::empty() == taken(env, first));
    } else {
        assert((first + second).drop_last() == first + second.drop_last());
        lemma_loaded_in_steps(env, first, second.drop_last());
        assert(taken(env, first + second) =~= taken(env, first) + taken(
            loaded(env, first),
            second,
        ));
    }
}

// ---------------------------------------------------------------------------
// Laws
// ---------------------------------------------------------------------------

/// Whether a text can stand before the equals sign of a line and is a name as it is.
pub open spec fn is_plain_name(name: Seq<char>) -> bool {
    &&& name.len() > 0
    &&& name[0] != '#'
    &&& !name.contains('=')
    &&& !is_white_space(name[0])
    &&& !is_white_space(name.last())
}

/// Whether a text has neither white space nor quotes at its ends, and no comment in it.
pub open spec fn is_plain_value(value: Seq<char>) -> bool {
    &&& value.len() > 0 ==> !is_white_space(value[0]) && !is_white_space(value.last())
    &&& value.len() > 0 ==> value[0] != '"' && value.last() != '"'
    &&& value.len() > 0 ==> value[0] != '\'' && value.last() != '\''
    &&& forall|i: int| !starts_comment(value, i)
}

/// A line of a name, an equals sign and a value defines that variable, where neither side has
/// anything to trim, the name is neither empty nor a comment, and no comment begins in the value.
/// A `#` that does not follow white space is part of the value.
pub proof fn plain_line_defines_its_variable(name: Seq<char>, value: Seq<char>)
    requires
        is_plain_name(name),
        is_plain_value(value),
    ensures
        line_entry(name + seq!['='] + value) == Some((name, value)),
{
    let line = name + seq!['='] + value;
    assert(line[0] == name[0]);
    assert(line.last() == if value.len() > 0 {
        value.last()
    } else {
        '='
    });
    trimmed_text_is_kept(line, Cut::WhiteSpace);
    first_at_end_of(name, '=', value);
    trimmed_text_is_kept(name, Cut::WhiteSpace);
    lemma_comment_at(value, 0);
    assert(without_comment(value) == value);
    trimmed_text_is_kept(value, Cut::WhiteSpace);
    trimmed_text_is_kept(value, Cut::Only('"'));
    trimmed_text_is_kept(value, Cut::Only('\''));
}

/// White space after a text is trimmed away.
proof fn lemma_trim_gap(s: Seq<char>, gap: Seq<char>)
    requires
        forall|i: int| 0 <= i < gap.len() ==> is_white_space(#[trigger] gap[i]),
    ensures
        trim(s + gap, Cut::WhiteSpace) == trim(s, Cut::WhiteSpace),
    decreases gap.len(),
{
    if gap.len() == 0 {
        assert(s + gap == s);
    } else {
        assert(s + gap == (s + gap.drop_last()).push(gap.last()));
        lemma_trim_gap(s, gap.drop_last());
        trimmed_end_makes_no_difference(s + gap.drop_last(), gap.last(), Cut::WhiteSpace);
    }
}

/// A plain value that is followed by white space and a comment is cut before the comment.
proof fn lemma_comment_after_value(value: Seq<char>, gap: Seq<char>, rest: Seq<char>)
    requires
        is_plain_value(value),
        gap.len() > 0,
        forall|i: int| 0 <= i < gap.len() ==> is_white_space(#[trigger] gap[i]),
    ensures
        unquoted(without_comment(value + gap + seq!['#'] + rest)) == value,
{
    let whole = value + gap + seq!['#'] + rest;
    let at = value.len() + gap.len() as int;
    let first = if value.len() > 0 {
        value[0]
    } else {
        '#'
    };
    assert(!is_quoted(whole)) by {
        crate::text::trim_start_is_exact(whole, Cut::WhiteSpace);
        let text = trim_start(whole, Cut::WhiteSpace);
        let cut = whole.len() - text.len();
        assert(whole[at] == '#');
        if cut > at {
            assert(is_white_space(whole[at]));
        }
        if value.len() > 0 {
            assert(whole[0] == value[0]);
        } else if cut < at {
            assert(whole[cut] == gap[cut]);
        }
        assert(text[0] == whole[cut]);
        assert(text[0] == first);
    }
    assert(whole[at - 1] == gap.last());
    assert(starts_comment(whole, at));
    assert forall|i: int| 0 <= i < at implies !starts_comment(whole, i) by {
        if i < value.len() {
            assert(!starts_comment(value, i));
        } else {
            assert(whole[i] == gap[i - value.len()]);
        }
    }
    lemma_comment_at(whole, 0);
    assert(comment_at(whole, 0) == at);
    assert(whole.take(at) == value + gap);
    lemma_trim_gap(value, gap);
    trimmed_text_is_kept(value, Cut::WhiteSpace);
    trimmed_text_is_kept(value, Cut::Only('"'));
    trimmed_text_is_kept(value, Cut::Only('\''));
}

/// White space, a `#` and anything else after a plain value are no part of it.
pub proof fn trailing_comment_is_dropped(
    name: Seq<char>,
    value: Seq<char>,
    gap: Seq<char>,
    rest: Seq<char>,
)
    requires
        is_plain_name(name),
        is_plain_value(value),
        gap.len() > 0,
        forall|i: int| 0 <= i < gap.len() ==> is_white_space(#[trigger] gap[i]),
    ensures
        line_entry(name + seq!['='] + (value + gap + seq!['#'] + rest)) == Some((name, value)),
{
    let line = name + seq!['='] + (value + gap + seq!['#'] + rest);
    let at = name.len() + 1 + value.len() + gap.len() as int;
    assert(line[0] == name[0]);
    assert(trim_start(line, Cut::WhiteSpace) == line);
    trim_end_is_exact(line, Cut::WhiteSpace);
    let text = trim_end(line, Cut::WhiteSpace);
    assert(line[at] == '#');
    if text.len() <= at {
        assert(is_white_space(line[at]));
    }
    let left = rest.take(text.len() - at - 1);
    let tail = value + gap + seq!['#'] + left;
    assert(text =~= name + seq!['='] + tail);
    assert(text[0] == name[0]);
    first_at_end_of(name, '=', tail);
    trimmed_text_is_kept(name, Cut::WhiteSpace);
    lemma_comment_after_value(value, gap, left);
}

/// A value in double quotes is kept as it is, whatever `#` or white space it holds.
pub proof fn quoted_line_defines_its_variable(name: Seq<char>, value: Seq<char>)
    requires
        is_plain_name(name),
        value.len() > 0 ==> value[0] != '"' && value.last() != '"',
        value.len() > 0 ==> value[0] != '\'' && value.last() != '\'',
    ensures
        line_entry(name + seq!['='] + (seq!['"'] + value + seq!['"'])) == Some((name, value)),
{
    let quoted = seq!['"'] + value + seq!['"'];
    let line = name + seq!['='] + quoted;
    assert(line[0] == name[0]);
    assert(line.last() == '"');
    trimmed_text_is_kept(line, Cut::WhiteSpace);
    first_at_end_of(name, '=', quoted);
    trimmed_text_is_kept(name, Cut::WhiteSpace);
    assert(quoted[0] == '"');
    assert(trim_start(quoted, Cut::WhiteSpace) == quoted);
    double_quotes_are_dropped(value);
}

/// Double quotes round a value are not part of it.
pub proof fn double_quotes_are_dropped(value: Seq<char>)
    requires
        value.len() > 0 ==> value[0] != '"' && value.last() != '"',
        value.len() > 0 ==> value[0] != '\'' && value.last() != '\'',
    ensures
        unquoted(seq!['"'] + value + seq!['"']) == value,
{
    let quoted = seq!['"'] + value + seq!['"'];
    let open = value + seq!['"'];
    trimmed_text_is_kept(quoted, Cut::WhiteSpace);
    assert(quoted.drop_first() == open);
    assert(open == value.push('"'));
    trimmed_end_makes_no_difference(value, '"', Cut::Only('"'));
    trimmed_text_is_kept(value, Cut::Only('"'));
    trimmed_text_is_kept(value, Cut::Only('\''));
}

/// Whether a line ends with a carriage return makes no difference.
pub proof fn carriage_return_makes_no_difference(line: Seq<char>)
    ensures
        line_entry(line.push('\r')) == line_entry(line),
{
    trimmed_end_makes_no_difference(line, '\r', Cut::WhiteSpace);
}

/// A comment defines nothing.
pub proof fn comment_defines_nothing(text: Seq<char>)
    ensures
        line_entry(seq!['#'] + text) is None,
{
    let line = seq!['#'] + text;
    assert(line[0] == '#');
    assert(trim_start(line, Cut::WhiteSpace) == line);
    trim_end_is_exact(line, Cut::WhiteSpace);
    let kept = trim_end(line, Cut::WhiteSpace);
    if kept.len() > 0 {
        assert(kept[0] == line[0]);
    }
}

/// Real environment variables take precedence over environment files: loading overwrites none.
pub proof fn real_variables_are_kept(
    env: Map<Seq<char>, Seq<char>>,
    entries: Seq<Entry>,
    name: Seq<char>,
)
    requires
        env.contains_key(name),
    ensures
        loaded(env, entries).contains_key(name),
        loaded(env, entries)[name] == env[name],
    decreases entries.len(),
{
    if entries.len() > 0 {
        real_variables_are_kept(env, entries.drop_last(), name);
    }
}

/// A variable that the environment lacks gets the first value that is offered for it, so an
/// earlier file takes precedence over a later one.
pub proof fn first_definition_wins(
    env: Map<Seq<char>, Seq<char>>,
    entries: Seq<Entry>,
    i: int,
)
    requires
        0 <= i < entries.len(),
        !env.contains_key(entries[i].0),
        forall|j: int| 0 <= j < i ==> (#[trigger] entries[j]).0 != entries[i].0,
    ensures
        loaded(env, entries).contains_key(entries[i].0),
        loaded(env, entries)[entries[i].0] == entries[i].1,
    decreases entries.len(),
{
    if i < entries.len() - 1 {
        assert(entries.drop_last()[i] == entries[i]);
        assert forall|j: int| 0 <= j < i implies (#[trigger] entries.drop_last()[j]).0
            != entries.drop_last()[i].0 by {
            assert(entries.drop_last()[j] == entries[j]);
        }
        first_definition_wins(env, entries.drop_last(), i);
    } else {
        only_offered_variables_appear(env, entries.drop_last(), entries[i].0);
        assert forall|j: int| 0 <= j < entries.drop_last().len() implies (
        #[trigger] entries.drop_last()[j]).0 != entries[i].0 by {
            assert(entries.drop_last()[j] == entries[j]);
        }
    }
}

/// Loading adds no variable but those that the files define.
pub proof fn only_offered_variables_appear(
    env: Map<Seq<char>, Seq<char>>,
    entries: Seq<Entry>,
    name: Seq<char>,
)
    ensures
        loaded(env, entries).contains_key(name) <==> (env.contains_key(name) || exists|i: int|
            0 <= i < entries.len() && (#[trigger] entries[i]).0 == name),
    decreases entries.len(),
{
    if entries.len() > 0 {
        let rest = entries.drop_last();
        only_offered_variables_appear(env, rest, name);
        if exists|i: int| 0 <= i < rest.len() && (#[trigger] rest[i]).0 == name {
            let i = choose|i: int| 0 <= i < rest.len() && (#[trigger] rest[i]).0 == name;
            assert(entries[i] == rest[i]);
        }
        if exists|i: int| 0 <= i < entries.len() && (#[trigger] entries[i]).0 == name {
            let i = choose|i: int| 0 <= i < entries.len() && (#[trigger] entries[i]).0 == name;
            if i < rest.len() {
                assert(rest[i] == entries[i]);
            } else {
                assert(entries.last() == entries[i]);
            }
        }
        if loaded(env, entries).contains_key(name) && !loaded(env, rest).contains_key(name) {
            assert(entries[entries.len() - 1].0 == name);
        }
    }
}

/// What the environment takes is new to it, and no variable is taken twice.
pub proof fn taken_variables_are_new(env: Map<Seq<char>, Seq<char>>, entries: Seq<Entry>)
    ensures
        forall|i: int|
            0 <= i < taken(env, entries).len() ==> !env.contains_key(
                (#[trigger] taken(env, entries)[i]).0,
            ) && loaded(env, entries).contains_key(taken(env, entries)[i].0),
        forall|i: int, j: int|
            0 <= i < j < taken(env, entries).len() ==> (#[trigger] taken(env, entries)[i]).0 != (
            #[trigger] taken(env, entries)[j]).0,
    decreases entries.len(),
{
    if entries.len() > 0 {
        let rest = entries.drop_last();
        taken_variables_are_new(env, rest);
        if env.contains_key(entries.last().0) {
            real_variables_are_kept(env, rest, entries.last().0);
        }
        assert forall|i: int, j: int| 0 <= i < j < taken(env, entries).len() implies (
        #[trigger] taken(env, entries)[i]).0 != (#[trigger] taken(env, entries)[j]).0 by {
            assert(taken(env, entries)[i] == taken(env, rest)[i]);
            if j < taken(env, rest).len() {
                assert(taken(env, entries)[j] == taken(env, rest)[j]);
            }
        }
        assert forall|i: int| 0 <= i < taken(env, entries).len() implies !env.contains_key(
            (#[trigger] taken(env, entries)[i]).0,
        ) && loaded(env, entries).contains_key(taken(env, entries)[i].0) by {
            if i < taken(env, rest).len() {
                assert(taken(env, entries)[i] == taken(env, rest)[i]);
            }
        }
    }
}

/// Setting the taken variables one after the other turns the environment into the loaded one.
pub proof fn taken_variables_make_the_loaded_environment(
    env: Map<Seq<char>, Seq<char>>,
    entries: Seq<Entry>,
)
    ensures
        assigned(env, taken(env, entries)) == loaded(env, entries),
    decreases entries.len(),
{
    if entries.len() > 0 {
        taken_variables_make_the_loaded_environment(env, entries.drop_last());
        if !loaded(env, entries.drop_last()).contains_key(entries.last().0) {
            assert(taken(env, entries).drop_last() == taken(env, entries.drop_last()));
        }
    }
}

/// The environment after some variables were set one after the other.
pub open spec fn assigned(env: Map<Seq<char>, Seq<char>>, entries: Seq<Entry>) -> Map<
    Seq<char>,
    Seq<char>,
>
    decreases entries.len(),
{
    if entries.len() == 0 {
        env
    } else {
        assigned(env, entries.drop_last()).insert(entries.last().0, entries.last().1)
    }
}

/// Loading the same variables a second time changes nothing.
pub proof fn loading_twice_is_loading_once(env: Map<Seq<char>, Seq<char>>, entries: Seq<Entry>)
    ensures
        loaded(loaded(env, entries), entries) == loaded(env, entries),
{
    let once = loaded(env, entries);
    assert forall|i: int| 0 <= i < entries.len() implies once.contains_key(
        (#[trigger] entries[i]).0,
    ) by {
        only_offered_variables_appear(env, entries, entries[i].0);
    }
    lemma_known_variables_change_nothing(once, entries);
}

proof fn lemma_known_variables_change_nothing(
    env: Map<Seq<char>, Seq<char>>,
    entries: Seq<Entry>,
)
    requires
        forall|i: int| 0 <= i < entries.len() ==> env.contains_key((#[trigger] entries[i]).0),
    ensures
        loaded(env, entries) == env,
    decreases entries.len(),
{
    if entries.len() > 0 {
        assert forall|i: int| 0 <= i < entries.drop_last().len() implies env.contains_key(
            (#[trigger] entries.drop_last()[i]).0,
        ) by {
            assert(entries.drop_last()[i] == entries[i]);
        }
        lemma_known_variables_change_nothing(env, entries.drop_last());
        assert(env.contains_key(entries[entries.len() - 1].0));
    }
}

/// The environment files are `.env`, `.env.local`, `.env.production` and `.env.development`, and are
/// loaded in this order.
pub proof fn there_are_four_environment_files()
    ensures
        env_file_names().len() == 4,
        env_file_names()[0] == ".env"@,
        env_file_names()[1] == ".env.local"@,
        env_file_names()[2] == ".env.production"@,
        env_file_names()[3] == ".env.development"@,
{
}

/// Whether a file is named depends on its own mark alone, and the names keep their order.
pub proof fn marks_count_one_by_one(
    names: Seq<Seq<char>>,
    marks: Seq<bool>,
    more_names: Seq<Seq<char>>,
    more_marks: Seq<bool>,
)
    requires
        names.len() == marks.len(),
        more_names.len() == more_marks.len(),
    ensures
        marked(names + more_names, marks + more_marks) == marked(names, marks) + marked(
            more_names,
            more_marks,
        ),
        names.len() == 1 ==> marked(names, marks) == if marks[0] {
            names
        } else {
            Seq::empty()
        },
    decreases more_names.len(),
{
    if names.len() == 1 {
        assert(names.drop_last() =~= Seq::empty());
        assert(marked(names.drop_last(), marks.drop_last()) =~= Seq::empty());
        assert(marked(names, marks) =~= if marks[0] {
            names
        } else {
            Seq::empty()
        });
    }
    if more_names.len() == 0 {
        assert(names + more_names == names);
        assert(marks + more_marks == marks);
        assert(marked(names, marks) + Seq::<Seq<char>>::empty() == marked(names, marks));
    } else {
        assert((names + more_names).drop_last() == names + more_names.drop_last());
        assert((marks + more_marks).drop_last() == marks + more_marks.drop_last());
        marks_count_one_by_one(names, marks, more_names.drop_last(), more_marks.drop_last());
        assert(marked(names + more_names, marks + more_marks) =~= marked(names, marks) + marked(
            more_names,
            more_marks,
        ));
    }
}

/// A list of variables, or of files, stands for the contents of its items, one by one.
pub proof fn lists_stand_for_their_items(
    entries: Seq<(String, String)>,
    files: Seq<Option<String>>,
    i: int,
)
    ensures
        entry_texts(entries).len() == entries.len(),
        file_texts(files).len() == files.len(),
        0 <= i < entries.len() ==> entry_texts(entries)[i] == (entries[i].0@, entries[i].1@),
        0 <= i < files.len() ==> (file_texts(files)[i] is Some <==> files[i] is Some),
        0 <= i < files.len() && files[i] is Some ==> file_texts(files)[i] == Some(files[i]->0@),
{
}

/// Where neither begins with a quote nor holds a comment, a value is cut before the comment that
/// follows it.
proof fn lemma_cut_after(value: Seq<char>, gap: Seq<char>, rest: Seq<char>)
    requires
        !is_quoted(value),
        forall|i: int| !starts_comment(value, i),
        gap.len() > 0,
        forall|i: int| 0 <= i < gap.len() ==> is_white_space(#[trigger] gap[i]),
    ensures
        without_comment(value + gap + seq!['#'] + rest) == value + gap,
{
    let whole = value + gap + seq!['#'] + rest;
    let at = value.len() + gap.len() as int;
    assert(whole[at] == '#');
    assert(!is_quoted(whole)) by {
        trim_start_is_exact(whole, Cut::WhiteSpace);
        trim_start_is_exact(value, Cut::WhiteSpace);
        let text = trim_start(whole, Cut::WhiteSpace);
        let own = trim_start(value, Cut::WhiteSpace);
        let cut = whole.len() - text.len();
        if cut > at {
            assert(is_white_space(whole[at]));
        }
        assert(text[0] == whole[cut]);
        if cut < value.len() {
            let own_cut = value.len() - own.len();
            if own_cut < cut {
                assert(is_white_space(whole[own_cut]));
                assert(own[0] == value[own_cut]);
            } else if own_cut > cut {
                assert(is_white_space(value[cut]));
            }
            assert(own[0] == value[own_cut]);
        } else if cut < at {
            assert(whole[cut] == gap[cut - value.len()]);
        }
    }
    assert(whole[at - 1] == gap.last());
    assert(starts_comment(whole, at));
    assert forall|i: int| 0 <= i < at implies !starts_comment(whole, i) by {
        if i < value.len() {
            assert(!starts_comment(value, i));
        } else {
            assert(whole[i] == gap[i - value.len()]);
        }
    }
    lemma_comment_at(whole, 0);
    assert(comment_at(whole, 0) == at);
    assert(whole.take(at) =~= value + gap);
}

/// A line is a name, an equals sign and a value, with white space anywhere round them; what stands
/// on the left is the name and what stands on the right the value.
proof fn lemma_line_sides(
    lead: Seq<char>,
    name: Seq<char>,
    left: Seq<char>,
    value: Seq<char>,
    end: Seq<char>,
)
    requires
        forall|i: int| 0 <= i < lead.len() ==> is_white_space(#[trigger] lead[i]),
        forall|i: int| 0 <= i < left.len() ==> is_white_space(#[trigger] left[i]),
        forall|i: int| 0 <= i < end.len() ==> is_white_space(#[trigger] end[i]),
        name.len() > 0 ==> name[0] != '#' && !is_white_space(name[0]) && !is_white_space(name.last()),
        !name.contains('='),
        value.len() > 0 ==> !is_white_space(value.last()),
    ensures
        line_entry(lead + name + left + seq!['='] + value + end) == Some(
            (name, unquoted(without_comment(value))),
        ),
{
    let line = lead + name + left + seq!['='] + value + end;
    if name.len() == 0 {
        let middle = seq!['='] + value;
        let before = lead + left;
        assert forall|i: int| 0 <= i < before.len() implies is_white_space(#[trigger] before[i]) by {
            if i >= lead.len() {
                assert(before[i] == left[i - lead.len()]);
            }
        }
        assert(line =~= before + middle + end);
        assert(middle[0] == '=');
        trim_leaves_the_middle(before, middle, end, Cut::WhiteSpace);
        assert(middle =~= Seq::<char>::empty() + seq!['='] + value);
        first_at_end_of(Seq::<char>::empty(), '=', value);
        assert(trim(Seq::<char>::empty(), Cut::WhiteSpace) =~= name);
    } else {
        let middle = name + left + seq!['='] + value;
        assert(line =~= lead + middle + end);
        assert(middle[0] == name[0]);
        assert(middle.last() == if value.len() > 0 {
            value.last()
        } else {
            '='
        });
        trim_leaves_the_middle(lead, middle, end, Cut::WhiteSpace);
        let side = name + left;
        assert(!side.contains('=')) by {
            if side.contains('=') {
                let i = choose|i: int| 0 <= i < side.len() && side[i] == '=';
                if i < name.len() {
                    assert(name[i] == '=');
                } else {
                    assert(is_white_space(left[i - name.len()]));
                }
            }
        }
        first_at_end_of(side, '=', value);
        assert(Seq::<char>::empty() + name + left =~= side);
        trim_leaves_the_middle(Seq::empty(), name, left, Cut::WhiteSpace);
    }
}

/// A line defines the name before its first equals sign, with the value after it. White space round
/// the line, the name and the value is dropped, then all double quotes and then all single quotes at
/// the ends of the value. Everything else of both stays, white space inside the quotes too.
pub proof fn line_defines_its_variable(
    lead: Seq<char>,
    name: Seq<char>,
    left: Seq<char>,
    right: Seq<char>,
    double: Seq<char>,
    single: Seq<char>,
    value: Seq<char>,
    end_single: Seq<char>,
    end_double: Seq<char>,
    end: Seq<char>,
)
    requires
        forall|i: int| 0 <= i < lead.len() ==> is_white_space(#[trigger] lead[i]),
        forall|i: int| 0 <= i < left.len() ==> is_white_space(#[trigger] left[i]),
        forall|i: int| 0 <= i < right.len() ==> is_white_space(#[trigger] right[i]),
        forall|i: int| 0 <= i < end.len() ==> is_white_space(#[trigger] end[i]),
        forall|i: int| 0 <= i < double.len() ==> #[trigger] double[i] == '"',
        forall|i: int| 0 <= i < single.len() ==> #[trigger] single[i] == '\'',
        forall|i: int| 0 <= i < end_single.len() ==> #[trigger] end_single[i] == '\'',
        forall|i: int| 0 <= i < end_double.len() ==> #[trigger] end_double[i] == '"',
        name.len() > 0 ==> name[0] != '#' && !is_white_space(name[0]) && !is_white_space(name.last()),
        !name.contains('='),
        value.len() > 0 ==> value[0] != '"' && value[0] != '\'',
        value.len() > 0 ==> value.last() != '"' && value.last() != '\'',
        value.len() > 0 && double.len() + single.len() == 0 ==> !is_white_space(value[0]),
        value.len() > 0 && end_double.len() + end_single.len() == 0 ==> !is_white_space(
            value.last(),
        ),
        double.len() + single.len() == 0 ==> (value.len() > 0 && right.len() > 0 ==> value[0] != '#')
            && forall|i: int|
            0 < i < value.len() && #[trigger] value[i] == '#' ==> !is_white_space(value[i - 1]),
    ensures
        line_entry(
            lead + name + left + seq!['='] + (right + double + single + value + end_single
                + end_double) + end,
        ) == Some((name, value)),
{
    let inner = single + value + end_single;
    let raw = double + inner + end_double;
    let side = right + raw;
    assert(side =~= right + double + single + value + end_single + end_double);
    let begins_quoted = double.len() + single.len() > 0;
    if raw.len() > 0 {
        if double.len() > 0 {
            assert(raw[0] == double[0]);
        } else if single.len() > 0 {
            assert(raw[0] == single[0]);
        } else if value.len() > 0 {
            assert(raw[0] == value[0]);
        } else if end_single.len() > 0 {
            assert(raw[0] == end_single[0]);
        } else {
            assert(raw[0] == end_double[0]);
        }
        if end_double.len() > 0 {
            assert(raw.last() == end_double.last());
        } else if end_single.len() > 0 {
            assert(raw.last() == end_single.last());
        } else if value.len() > 0 {
            assert(raw.last() == value.last());
        } else if single.len() > 0 {
            assert(raw.last() == single.last());
        } else {
            assert(raw.last() == double.last());
        }
        assert(!is_white_space(raw[0]) && !is_white_space(raw.last()));
    }
    trim_start_leaves_the_rest(right, raw, Cut::WhiteSpace);
    assert(without_comment(side) == side) by {
        if !is_quoted(side) {
            assert(!begins_quoted);
            assert forall|i: int| 0 <= i < side.len() implies !starts_comment(side, i) by {
                let k = i - right.len();
                if k < 0 {
                    assert(side[i] == right[i]);
                } else if k < value.len() {
                    assert(side[i] == value[k]);
                    if k > 0 {
                        assert(side[i - 1] == value[k - 1]);
                    }
                } else if k < value.len() + end_single.len() {
                    assert(side[i] == end_single[k - value.len()]);
                } else {
                    assert(side[i] == end_double[k - value.len() - end_single.len()]);
                }
            }
            lemma_comment_at(side, 0);
            assert(side.take(side.len() as int) =~= side);
        }
    }
    assert(right + raw + Seq::<char>::empty() =~= side);
    trim_leaves_the_middle(right, raw, Seq::empty(), Cut::WhiteSpace);
    if inner.len() > 0 {
        if single.len() > 0 {
            assert(inner[0] == single[0]);
        } else if value.len() > 0 {
            assert(inner[0] == value[0]);
        } else {
            assert(inner[0] == end_single[0]);
        }
        if end_single.len() > 0 {
            assert(inner.last() == end_single.last());
        } else if value.len() > 0 {
            assert(inner.last() == value.last());
        } else {
            assert(inner.last() == single.last());
        }
    }
    trim_leaves_the_middle(double, inner, end_double, Cut::Only('"'));
    trim_leaves_the_middle(single, value, end_single, Cut::Only('\''));
    assert(unquoted(side) == value);
    if raw.len() > 0 {
        assert(side.last() == raw.last());
        lemma_line_sides(lead, name, left, side, end);
    } else {
        let after = right + end;
        assert forall|i: int| 0 <= i < after.len() implies is_white_space(#[trigger] after[i]) by {
            if i >= right.len() {
                assert(after[i] == end[i - right.len()]);
            }
        }
        lemma_line_sides(lead, name, left, Seq::empty(), after);
        assert(lead + name + left + seq!['='] + Seq::<char>::empty() + after =~= lead + name + left
            + seq!['='] + side + end);
        assert(value =~= Seq::empty());
        let none = Seq::<char>::empty();
        assert(none.take(comment_at(none, 0)) =~= none);
        trimmed_text_is_kept(none, Cut::WhiteSpace);
        trimmed_text_is_kept(none, Cut::Only('"'));
        trimmed_text_is_kept(none, Cut::Only('\''));
    }
}

/// After a value that does not begin with a quote, white space, a `#` and all that follows are
/// dropped.
pub proof fn comment_after_a_value_is_dropped(
    lead: Seq<char>,
    name: Seq<char>,
    left: Seq<char>,
    right: Seq<char>,
    value: Seq<char>,
    gap: Seq<char>,
    rest: Seq<char>,
)
    requires
        forall|i: int| 0 <= i < lead.len() ==> is_white_space(#[trigger] lead[i]),
        forall|i: int| 0 <= i < left.len() ==> is_white_space(#[trigger] left[i]),
        forall|i: int| 0 <= i < right.len() ==> is_white_space(#[trigger] right[i]),
        forall|i: int| 0 <= i < gap.len() ==> is_white_space(#[trigger] gap[i]),
        gap.len() > 0,
        name.len() > 0 ==> name[0] != '#' && !is_white_space(name[0]) && !is_white_space(name.last()),
        !name.contains('='),
        value.len() > 0 ==> value[0] != '"' && value[0] != '\'' && !is_white_space(value[0]),
        value.len() > 0 ==> value.last() != '"' && value.last() != '\'' && !is_white_space(
            value.last(),
        ),
        value.len() > 0 && right.len() > 0 ==> value[0] != '#',
        forall|i: int|
            0 < i < value.len() && #[trigger] value[i] == '#' ==> !is_white_space(value[i - 1]),
    ensures
        line_entry(
            lead + name + left + seq!['='] + (right + value + gap + seq!['#'] + rest),
        ) == Some((name, value)),
{
    let side = right + value;
    let tail = side + gap + seq!['#'] + rest;
    trim_end_is_exact(tail, Cut::WhiteSpace);
    let kept = trim_end(tail, Cut::WhiteSpace);
    let at = side.len() + gap.len() as int;
    assert(tail[at] == '#');
    if kept.len() <= at {
        assert(is_white_space(tail[at]));
    }
    let left_over = rest.take(kept.len() - at - 1);
    let end = tail.skip(kept.len() as int);
    assert(kept =~= side + gap + seq!['#'] + left_over);
    assert forall|i: int| 0 <= i < end.len() implies is_white_space(#[trigger] end[i]) by {
        assert(end[i] == tail[kept.len() + i]);
    }
    assert(lead + name + left + seq!['='] + (right + value + gap + seq!['#'] + rest) =~= lead + name
        + left + seq!['='] + kept + end);
    lemma_line_sides(lead, name, left, kept, end);
    trim_start_leaves_the_rest(right, value, Cut::WhiteSpace);
    assert forall|i: int| !starts_comment(side, i) by {
        if 0 < i < side.len() {
            if i < right.len() {
                assert(side[i] == right[i]);
            } else {
                assert(side[i] == value[i - right.len()]);
                if i > right.len() {
                    assert(side[i - 1] == value[i - right.len() - 1]);
                }
            }
        }
    }
    lemma_cut_after(side, gap, left_over);
    trim_leaves_the_middle(right, value, gap, Cut::WhiteSpace);
    trimmed_text_is_kept(value, Cut::Only('"'));
    trimmed_text_is_kept(value, Cut::Only('\''));
}

/// White space alone, a comment, and a text without an equals sign define nothing.
pub proof fn other_lines_define_nothing(lead: Seq<char>, text: Seq<char>)
    requires
        forall|i: int| 0 <= i < lead.len() ==> is_white_space(#[trigger] lead[i]),
    ensures
        line_entry(lead) is None,
        line_entry(lead + seq!['#'] + text) is None,
        !text.contains('=') ==> line_entry(text) is None,
{
    let none = Seq::<char>::empty();
    assert(lead + none + none =~= lead);
    trim_leaves_the_middle(lead, none, none, Cut::WhiteSpace);
    let comment = seq!['#'] + text;
    trim_start_leaves_the_rest(lead, comment, Cut::WhiteSpace);
    assert(lead + seq!['#'] + text =~= lead + comment);
    trim_end_is_exact(comment, Cut::WhiteSpace);
    let kept = trim_end(comment, Cut::WhiteSpace);
    if kept.len() > 0 {
        assert(kept[0] == comment[0]);
    }
    if !text.contains('=') {
        let front = trim_start(text, Cut::WhiteSpace);
        let middle = trim(text, Cut::WhiteSpace);
        trim_start_is_exact(text, Cut::WhiteSpace);
        trim_end_is_exact(front, Cut::WhiteSpace);
        split_first_divides(middle, '=');
        if split_first(middle, '=') is Some {
            let a = (split_first(middle, '=')->0).0;
            assert(middle[a.len() as int] == '=');
            assert(front[a.len() as int] == '=');
            assert(text[text.len() - front.len() + a.len()] == '=');
        }
    }
}

/// A file defines what its lines define, line after line, and nothing else.
pub proof fn files_are_read_line_by_line(a: Seq<char>, b: Seq<char>)
    ensures
        file_entries(a + seq!['\n'] + b) == file_entries(a) + file_entries(b),
        !a.contains('\n') ==> file_entries(a) == match line_entry(a) {
            Some(entry) => seq![entry],
            None => Seq::empty(),
        },
{
    pieces_add_up(a, '\n', b);
    lemma_lines_add_up(split(a, '\n'), split(b, '\n'));
    if !a.contains('\n') {
        text_without_separator_is_one_piece(a, '\n');
        assert(seq![a].drop_last() =~= Seq::empty());
        assert(lines_entries(seq![a].drop_last()) =~= Seq::empty());
        assert(lines_entries(seq![a]) =~= match line_entry(a) {
            Some(entry) => seq![entry],
            None => Seq::empty(),
        });
    }
}

proof fn lemma_lines_add_up(a: Seq<Seq<char>>, b: Seq<Seq<char>>)
    ensures
        lines_entries(a + b) == lines_entries(a) + lines_entries(b),
    decreases b.len(),
{
    if b.len() == 0 {
        assert(a + b == a);
        assert(lines_entries(a) + Seq::<Entry>::empty() == lines_entries(a));
    } else {
        assert((a + b).drop_last() == a + b.drop_last());
        lemma_lines_add_up(a, b.drop_last());
        assert(lines_entries(a + b) =~= lines_entries(a) + lines_entries(b));
    }
}

/// Every readable file is loaded, after the files before it and before those after it; a file that
/// cannot be read adds nothing.
pub proof fn every_file_is_offered(
    before: Seq<Option<Seq<char>>>,
    file: Option<Seq<char>>,
    after: Seq<Option<Seq<char>>>,
)
    ensures
        files_entries(before + seq![file] + after) == files_entries(before) + match file {
            Some(contents) => file_entries(contents),
            None => Seq::empty(),
        } + files_entries(after),
        files_entries(Seq::empty()) == Seq::<Entry>::empty(),
{
    let one = seq![file];
    assert(one.drop_last() =~= Seq::empty());
    assert(files_entries(one.drop_last()) =~= Seq::empty());
    assert(files_entries(one) =~= match file {
        Some(contents) => file_entries(contents),
        None => Seq::empty(),
    });
    lemma_files_add_up(before, one);
    lemma_files_add_up(before + one, after);
}

proof fn lemma_files_add_up(a: Seq<Option<Seq<char>>>, b: Seq<Option<Seq<char>>>)
    ensures
        files_entries(a + b) == files_entries(a) + files_entries(b),
    decreases b.len(),
{
    if b.len() == 0 {
        assert(a + b == a);
        assert(files_entries(a) + Seq::<Entry>::empty() == files_entries(a));
    } else {
        assert((a + b).drop_last() == a + b.drop_last());
        lemma_files_add_up(a, b.drop_last());
        assert(files_entries(a + b) =~= files_entries(a) + files_entries(b));
    }
}

/// A variable that neither the environment nor an earlier file has gets the first value that a file
/// gives it, whichever file that is.
pub proof fn file_sets_what_is_new(
    env: Map<Seq<char>, Seq<char>>,
    before: Seq<Option<Seq<char>>>,
    contents: Seq<char>,
    after: Seq<Option<Seq<char>>>,
    j: int,
)
    requires
        0 <= j < file_entries(contents).len(),
        !env.contains_key(file_entries(contents)[j].0),
        forall|k: int|
            0 <= k < j ==> (#[trigger] file_entries(contents)[k]).0 != file_entries(contents)[j].0,
        forall|k: int|
            0 <= k < files_entries(before).len() ==> (#[trigger] files_entries(before)[k]).0
                != file_entries(contents)[j].0,
    ensures
        loaded(env, files_entries(before + seq![Some(contents)] + after)).contains_key(
            file_entries(contents)[j].0,
        ),
        loaded(env, files_entries(before + seq![Some(contents)] + after))[file_entries(
            contents,
        )[j].0] == file_entries(contents)[j].1,
{
    every_file_is_offered(before, Some(contents), after);
    let all = files_entries(before + seq![Some(contents)] + after);
    let n = files_entries(before).len() as int;
    let own = file_entries(contents);
    assert(all[n + j] == own[j]);
    assert forall|k: int| 0 <= k < n + j implies (#[trigger] all[k]).0 != all[n + j].0 by {
        if k < n {
            assert(all[k] == files_entries(before)[k]);
        } else {
            assert(all[k] == own[k - n]);
        }
    }
    first_definition_wins(env, all, n + j);
}

/// The variables that are set are the new ones of the loaded environment, with their values there.
pub proof fn set_variables_are_the_new_ones(
    env: Map<Seq<char>, Seq<char>>,
    entries: Seq<Entry>,
    name: Seq<char>,
    value: Seq<char>,
)
    ensures
        taken(env, entries).contains((name, value)) <==> !env.contains_key(name) && loaded(
            env,
            entries,
        ).contains_key(name) && loaded(env, entries)[name] == value,
    decreases entries.len(),
{
    if entries.len() > 0 {
        let rest = entries.drop_last();
        let last = entries.last();
        set_variables_are_the_new_ones(env, rest, name, value);
        let earlier = taken(env, rest);
        if env.contains_key(last.0) {
            real_variables_are_kept(env, rest, last.0);
        }
        if !loaded(env, rest).contains_key(last.0) {
            let now = earlier.push(last);
            assert(taken(env, entries) == now);
            assert(now.contains((name, value)) <==> earlier.contains((name, value)) || last == (
                name,
                value,
            )) by {
                if earlier.contains((name, value)) {
                    let i = choose|i: int|
                        0 <= i < earlier.len() && earlier[i] == (name, value);
                    assert(now[i] == (name, value));
                }
                assert(now[earlier.len() as int] == last);
                if now.contains((name, value)) {
                    let i = choose|i: int| 0 <= i < now.len() && now[i] == (name, value);
                    if i < earlier.len() {
                        assert(earlier[i] == (name, value));
                    }
                }
            }
        }
    }
}

/// A line defines the same with and without a comment after its value, whatever quotes the value
/// ends with.
pub proof fn comment_makes_no_difference(
    lead: Seq<char>,
    name: Seq<char>,
    left: Seq<char>,
    right: Seq<char>,
    value: Seq<char>,
    gap: Seq<char>,
    rest: Seq<char>,
)
    requires
        forall|i: int| 0 <= i < lead.len() ==> is_white_space(#[trigger] lead[i]),
        forall|i: int| 0 <= i < left.len() ==> is_white_space(#[trigger] left[i]),
        forall|i: int| 0 <= i < right.len() ==> is_white_space(#[trigger] right[i]),
        forall|i: int| 0 <= i < gap.len() ==> is_white_space(#[trigger] gap[i]),
        gap.len() > 0,
        name.len() > 0 ==> name[0] != '#' && !is_white_space(name[0]) && !is_white_space(name.last()),
        !name.contains('='),
        value.len() > 0,
        value[0] != '"' && value[0] != '\'' && !is_white_space(value[0]),
        !is_white_space(value.last()),
        right.len() > 0 ==> value[0] != '#',
        forall|i: int|
            0 < i < value.len() && #[trigger] value[i] == '#' ==> !is_white_space(value[i - 1]),
    ensures
        line_entry(
            lead + name + left + seq!['='] + (right + value + gap + seq!['#'] + rest),
        ) == line_entry(lead + name + left + seq!['='] + (right + value)),
{
    let side = right + value;
    let tail = side + gap + seq!['#'] + rest;
    trim_end_is_exact(tail, Cut::WhiteSpace);
    let kept = trim_end(tail, Cut::WhiteSpace);
    let at = side.len() + gap.len() as int;
    assert(tail[at] == '#');
    if kept.len() <= at {
        assert(is_white_space(tail[at]));
    }
    let left_over = rest.take(kept.len() - at - 1);
    let end = tail.skip(kept.len() as int);
    assert(kept =~= side + gap + seq!['#'] + left_over);
    assert forall|i: int| 0 <= i < end.len() implies is_white_space(#[trigger] end[i]) by {
        assert(end[i] == tail[kept.len() + i]);
    }
    assert(lead + name + left + seq!['='] + (right + value + gap + seq!['#'] + rest) =~= lead + name
        + left + seq!['='] + kept + end);
    lemma_line_sides(lead, name, left, kept, end);
    trim_start_leaves_the_rest(right, value, Cut::WhiteSpace);
    assert forall|i: int| !starts_comment(side, i) by {
        if 0 < i < side.len() {
            if i < right.len() {
                assert(side[i] == right[i]);
            } else {
                assert(side[i] == value[i - right.len()]);
                if i > right.len() {
                    assert(side[i - 1] == value[i - right.len() - 1]);
                }
            }
        }
    }
    lemma_cut_after(side, gap, left_over);
    lemma_trim_gap(side, gap);
    assert(side.last() == value.last());
    assert(lead + name + left + seq!['='] + side + Seq::<char>::empty() =~= lead + name + left + seq![
        '=',
    ] + side);
    lemma_line_sides(lead, name, left, side, Seq::empty());
    lemma_comment_at(side, 0);
    assert(side.take(side.len() as int) =~= side);
}

} // verus!
