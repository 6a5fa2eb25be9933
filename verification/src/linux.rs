use vstd::prelude::*;
use crate::pid::{parse_process_id, parsed_process_id, ProcessID};
use crate::text::{chars_of, find_char, index_of, lemma_index_of, lemma_index_of_properties, views_of};
use vstd::string::StrSliceExecFns;

verus! {

/// The process ids among the entry names `names` of the process directory, in
/// order: the names that read as an id, read as ids; all other entries dropped.
pub open spec fn ids_among(names: Seq<Seq<char>>) -> Seq<ProcessID>
    decreases names.len(),
{
    if names.len() == 0 {
        Seq::empty()
    } else {
        match parsed_process_id(names.last()) {
            Some(pid) => ids_among(names.drop_last()).push(pid),
            None => ids_among(names.drop_last()),
        }
    }
}

/// Keeps the entries of the process directory whose names are process ids, as ids.
pub fn process_ids_from_names(names: &Vec<String>) -> (pids: Vec<ProcessID>)
    ensures
        pids@ == ids_among(views_of(names@)),
{
    let ghost all = views_of(names@);
    let mut pids: Vec<ProcessID> = Vec::new();
    let mut i: usize = 0;
    while i < names.len()
        invariant
            i <= names.len(),
            all == views_of(names@),
            pids@ == ids_among(all.take(i as int)),
        decreases names.len() - i,
    {
        proof {
            assert(all.take(i + 1).drop_last() =~= all.take(i as int));
            assert(all.take(i + 1).last() == names@[i as int]@);
        }
        match parse_process_id(names[i].as_str()) {
            Some(pid) => pids.push(pid),
            None => {},
        }
        i = i + 1;
    }
    assert(all.take(names.len() as int) =~= all);
    pids
}

/// The first line of `text` as `str::lines` gives it: up to the first line feed,
/// without a carriage return just before that line feed; all of `text` when it
/// holds no line feed.
pub open spec fn first_line(text: Seq<char>) -> Seq<char> {
    let end = index_of(text, '\n');
    if end < text.len() {
        let line = text.take(end);
        if line.len() > 0 && line.last() == '\r' {
            line.drop_last()
        } else {
            line
        }
    } else {
        text
    }
}

/// The program name in the text of a process status file: the second
/// tab-separated field of its first line. Nothing when the text is empty or
/// that line holds no tab.
pub open spec fn status_name(status: Seq<char>) -> Option<Seq<char>> {
    if status.len() == 0 {
        None
    } else {
        let line = first_line(status);
        let tab = index_of(line, '\t');
        if tab < line.len() {
            let rest = line.skip(tab + 1);
            Some(rest.take(index_of(rest, '\t')))
        } else {
            None
        }
    }
}

/// The name read from a status file is one field of one line: it holds
/// neither a tab nor a line feed.
pub proof fn lemma_status_name_is_one_field(status: Seq<char>)
    ensures
        status_name(status) matches Some(name) ==>
            forall|i: int| 0 <= i < name.len() ==> #[trigger] name[i] != '\t' && name[i] != '\n',
{
    if status.len() > 0 {
        lemma_index_of_properties(status, '\n');
        let line = first_line(status);
        let tab = index_of(line, '\t');
        lemma_index_of_properties(line, '\t');
        assert forall|k: int| 0 <= k < line.len() implies #[trigger] line[k] != '\n' by {
            let end = index_of(status, '\n');
            if end < status.len() {
                assert(line[k] == status[k]);
            }
        }
        if tab < line.len() {
            let rest = line.skip(tab + 1);
            lemma_index_of_properties(rest, '\t');
            let name = rest.take(index_of(rest, '\t'));
            assert forall|i: int| 0 <= i < name.len() implies #[trigger] name[i] != '\t' && name[i] != '\n' by {
                assert(name[i] == rest[i]);
                assert(rest[i] == line[tab + 1 + i]);
            }
        }
    }
}

/// No character of `s` is a tab or a line feed.
pub open spec fn one_field(s: Seq<char>) -> bool {
    forall|i: int| 0 <= i < s.len() ==> #[trigger] s[i] != '\t' && s[i] != '\n'
}

/// The name is the whole second field of the first line, whatever it holds
/// besides tabs and line feeds (spaces, digits, any other character): for a
/// first field `key`, a status text `key`, tab, `name`, then either a tab or a
/// line feed (the name then not ending in a carriage return), then anything,
/// gives exactly `name`.
pub proof fn lemma_status_name_is_whole_field(key: Seq<char>, name: Seq<char>, end: char, rest: Seq<char>)
    requires
        one_field(key),
        one_field(name),
        end == '\t' || (end == '\n' && !(name.len() > 0 && name.last() == '\r')),
    ensures
        status_name(key + seq!['\t'] + name + seq![end] + rest) == Some(name),
{
    let status = key + seq!['\t'] + name + seq![end] + rest;
    let k = key.len() as int;
    let n = name.len() as int;
    assert(status[k] == '\t');
    assert(status[k + 1 + n] == end);
    assert forall|j: int| 0 <= j < k + 1 + n implies status[j] != '\n' by {
        if j < k {
            assert(status[j] == key[j]);
        } else if j > k {
            assert(status[j] == name[j - k - 1]);
        }
    }
    lemma_index_of_properties(status, '\n');
    let nl = index_of(status, '\n');
    assert(nl >= k + 1 + n) by {
        if nl < k + 1 + n {
            assert(status[nl] == '\n');
        }
    }
    let line = first_line(status);
    // the line reaches at least to the end of the name, and past the second tab when there is one
    assert(line.len() >= k + 1 + n);
    assert(end == '\t' ==> line.len() >= k + 2 + n) by {
        if end == '\t' && nl < status.len() && nl == k + 2 + n - 1 {
            assert(status[nl] == '\t');
        }
    }
    assert(end == '\n' ==> line.len() == k + 1 + n) by {
        if end == '\n' {
            assert(nl == k + 1 + n);
            if n > 0 {
                assert(status[k + n] == name.last());
            }
        }
    }
    assert forall|j: int| 0 <= j < line.len() implies #[trigger] line[j] == status[j] by {}
    assert forall|j: int| 0 <= j < k implies line[j] != '\t' by {
        assert(line[j] == status[j]);
        assert(status[j] == key[j]);
    }
    assert(line[k] == '\t');
    lemma_index_of(line, '\t', k);
    let after = line.skip(k + 1);
    assert forall|j: int| 0 <= j < n implies after[j] != '\t' by {
        assert(after[j] == line[k + 1 + j]);
        assert(status[k + 1 + j] == name[j]);
    }
    if end == '\t' {
        assert(after[n] == line[k + 1 + n]);
    }
    lemma_index_of(after, '\t', n);
    assert(after.take(n) =~= name) by {
        assert forall|j: int| 0 <= j < n implies after.take(n)[j] == name[j] by {
            assert(after[j] == line[k + 1 + j]);
            assert(status[k + 1 + j] == name[j]);
        }
    }
}

/// Reads the program name out of the text of a process status file.
pub fn name_from_status(status: &str) -> (name: Option<String>)
    ensures
        name is Some <==> status_name(status@) is Some,
        name matches Some(n) ==> n@ == status_name(status@)->0,
{
    let chars = chars_of(status);
    if chars.len() == 0 {
        return None;
    }
    let newline = find_char(&chars, 0, '\n');
    assert(chars@.subrange(0, chars@.len() as int) =~= chars@);
    let mut line_end = newline;
    if newline < chars.len() && newline > 0 && chars[newline - 1] == '\r' {
        line_end = newline - 1;
    }
    let ghost line = first_line(status@);
    assert(line =~= chars@.subrange(0, line_end as int));
    let tab = find_char(&chars, 0, '\t');
    let ghost line_tab = index_of(line, '\t');
    proof {
        let whole = chars@.subrange(0, chars@.len() as int);
        assert(whole =~= chars@);
        lemma_index_of_properties(whole, '\t');
        if tab < line_end {
            lemma_index_of(line, '\t', tab as int);
        } else {
            assert forall|j: int| 0 <= j < line.len() implies line[j] != '\t' by {
                assert(line[j] == chars@[j]);
            }
            lemma_index_of(line, '\t', line.len() as int);
        }
    }
    if tab >= line_end {
        return None;
    }
    let field_end_all = find_char(&chars, tab + 1, '\t');
    let field_end = if field_end_all < line_end { field_end_all } else { line_end };
    proof {
        let rest = line.skip(tab + 1);
        assert(rest =~= chars@.subrange(tab + 1, line_end as int));
        let tail = chars@.subrange(tab + 1, chars@.len() as int);
        lemma_index_of_properties(tail, '\t');
        assert forall|j: int| 0 <= j < field_end - (tab + 1) implies rest[j] != '\t' by {
            assert(rest[j] == tail[j]);
        }
        if field_end < line_end {
            assert(rest[field_end - (tab + 1)] == tail[field_end - (tab + 1)]);
        }
        lemma_index_of(rest, '\t', field_end - (tab + 1));
        assert(rest.take(field_end - (tab + 1)) =~= chars@.subrange(tab + 1, field_end as int));
    }
    Some(status.substring_char(tab + 1, field_end).to_owned())
}


/// A NUL character becomes a space; any other character stays.
pub open spec fn nul_to_space(c: char) -> char {
    if c == '\0' {
        ' '
    } else {
        c
    }
}

/// The command line that the text of a process's `cmdline` file stands for:
/// the arguments there end each in a NUL; here the last NUL is dropped and the
/// others become spaces, so that the arguments stand separated by single spaces.
pub open spec fn cmdline_text(raw: Seq<char>) -> Seq<char> {
    let args = if raw.len() > 0 && raw.last() == '\0' {
        raw.drop_last()
    } else {
        raw
    };
    args.map_values(|c: char| nul_to_space(c))
}

/// Turns the text of a process's `cmdline` file, whose arguments end each in a
/// NUL, into the command line with the arguments separated by spaces.
pub fn command_line_from_cmdline(raw: &str) -> (text: String)
    ensures
        text@ == cmdline_text(raw@),
{
    let chars = chars_of(raw);
    let end: usize = if chars.len() > 0 && chars[chars.len() - 1] == '\0' { chars.len() - 1 } else { chars.len() };
    let ghost args = chars@.take(end as int);
    assert(cmdline_text(raw@) =~= args.map_values(|c: char| nul_to_space(c)));
    let mut text = String::new();
    let mut segment: usize = 0;
    let mut i: usize = 0;
    while i < end
        invariant
            end <= chars.len(),
            chars@ == raw@,
            args == chars@.take(end as int),
            segment <= i <= end,
            text@ == args.take(segment as int).map_values(|c: char| nul_to_space(c)),
            forall|j: int| segment <= j < i ==> chars@[j] != '\0',
        decreases end - i,
    {
        if chars[i] == '\0' {
            let piece = raw.substring_char(segment, i);
            let ghost before = text@;
            text.append(piece);
            text.append(" ");
            proof {
                reveal_strlit(" ");
                assert(text@ =~= args.take(i + 1).map_values(|c: char| nul_to_space(c))) by {
                    assert forall|j: int| 0 <= j < i + 1 implies #[trigger] text@[j] == nul_to_space(args[j]) by {
                        if j < segment {
                            assert(text@[j] == before[j]);
                        } else if j < i {
                            assert(text@[j] == piece@[j - segment]);
                        }
                    }
                }
            }
            segment = i + 1;
        }
        i = i + 1;
    }
    let piece = raw.substring_char(segment, end);
    let ghost before = text@;
    text.append(piece);
    assert(text@ =~= args.map_values(|c: char| nul_to_space(c))) by {
        assert forall|j: int| 0 <= j < end implies #[trigger] text@[j] == nul_to_space(args[j]) by {
            if j < segment {
                assert(text@[j] == before[j]);
            } else {
                assert(text@[j] == piece@[j - segment]);
            }
        }
    }
    text
}

} // verus!
