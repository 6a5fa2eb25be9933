use vstd::prelude::*;

pub mod cli;
pub mod linux;
pub mod pid;
pub mod text;
pub mod winapi_bindings;
pub mod windows;

use crate::pid::{parse_process_id, parsed_process_id, ProcessID};
use crate::text::{compare_text, contains_text, lemma_contains_transitive, lemma_exact_match_implies_partial_match, join_strings, join_with_space, text_matches, text_matches_exec, views_of};

verus! {

/// Options that steer how processes are selected and what is done with them.
#[derive(Clone, Copy, PartialEq, Eq, Structural, Debug)]
pub struct Config {
    pub case_sensitive: bool,
    pub match_cmdline: bool,
    pub match_exact: bool,
    pub match_pid: bool,
    pub listing: bool,
    pub ignore_unrecognised: bool,
}

impl Config {
    /// The configuration with every option switched off.
    pub open spec fn spec_default() -> Config {
        Config {
            case_sensitive: false,
            match_cmdline: false,
            match_exact: false,
            match_pid: false,
            listing: false,
            ignore_unrecognised: false,
        }
    }
}

impl Default for Config {
    fn default() -> (c: Self)
        ensures
            c == Config::spec_default(),
    {
        Self {
            match_cmdline: false,
            case_sensitive: false,
            match_exact: false,
            match_pid: false,
            listing: false,
            ignore_unrecognised: false,
        }
    }
}

/// A process together with the text that it is matched by (its name or its
/// command line), when that text could be read.
pub struct ProcessText {
    pub pid: ProcessID,
    pub text: Option<String>,
}

/// Whether `pid` is one of `pids`.
pub fn contains_pid(pids: &Vec<ProcessID>, pid: ProcessID) -> (found: bool)
    ensures
        found == pids@.contains(pid),
{
    let mut i: usize = 0;
    while i < pids.len()
        invariant
            i <= pids.len(),
            forall|j: int| 0 <= j < i ==> pids@[j] != pid,
        decreases pids.len() - i,
    {
        if pids[i] == pid {
            return true;
        }
        i = i + 1;
    }
    false
}

/// What matching by process id makes of the arguments `args`, in order: the ids
/// that parse, are not `self_pid` and are among `all_pids`; and the arguments that
/// do not parse as an id.
pub open spec fn pid_selection(args: Seq<Seq<char>>, self_pid: ProcessID, all_pids: Seq<ProcessID>) -> (Seq<ProcessID>, Seq<Seq<char>>)
    decreases args.len(),
{
    if args.len() == 0 {
        (Seq::empty(), Seq::empty())
    } else {
        let before = pid_selection(args.drop_last(), self_pid, all_pids);
        match parsed_process_id(args.last()) {
            None => (before.0, before.1.push(args.last())),
            Some(pid) => if pid != self_pid && all_pids.contains(pid) {
                (before.0.push(pid), before.1)
            } else {
                before
            },
        }
    }
}

/// Selects processes by the ids written in `kill_args`. Returns the selected ids,
/// in the order of the arguments, and the arguments that are no process id.
/// The running process, `self_pid`, is never selected, nor an id that is not
/// among `all_pids`.
pub fn get_matching_by_pid(kill_args: &Vec<String>, self_pid: ProcessID, all_pids: &Vec<ProcessID>) -> (selection: (Vec<ProcessID>, Vec<String>))
    ensures
        selection.0@ == pid_selection(views_of(kill_args@), self_pid, all_pids@).0,
        views_of(selection.1@) == pid_selection(views_of(kill_args@), self_pid, all_pids@).1,
{
    let mut matched: Vec<ProcessID> = Vec::new();
    let mut rejected: Vec<String> = Vec::new();
    let ghost args = views_of(kill_args@);
    let mut i: usize = 0;
    while i < kill_args.len()
        invariant
            i <= kill_args.len(),
            args == views_of(kill_args@),
            matched@ == pid_selection(args.take(i as int), self_pid, all_pids@).0,
            views_of(rejected@) == pid_selection(args.take(i as int), self_pid, all_pids@).1,
        decreases kill_args.len() - i,
    {
        let arg = &kill_args[i];
        proof {
            assert(args.take(i + 1).drop_last() =~= args.take(i as int));
            assert(args.take(i + 1).last() == arg@);
        }
        match parse_process_id(arg.as_str()) {
            None => {
                let ghost old_views = views_of(rejected@);
                rejected.push(arg.clone());
                assert(views_of(rejected@) =~= old_views.push(arg@));
            },
            Some(pid) => {
                if self_pid != pid && contains_pid(all_pids, pid) {
                    matched.push(pid);
                }
            },
        }
        i = i + 1;
    }
    assert(args.take(kill_args.len() as int) =~= args);
    (matched, rejected)
}

/// The ids of the processes in `processes`, in order, that are not `self_pid`
/// and whose text could be read and matches `pattern` as the options ask.
pub open spec fn selected_by_text(case_sensitive: bool, exact: bool, pattern: Seq<char>, self_pid: ProcessID, processes: Seq<ProcessText>) -> Seq<ProcessID>
    decreases processes.len(),
{
    if processes.len() == 0 {
        Seq::empty()
    } else {
        let before = selected_by_text(case_sensitive, exact, pattern, self_pid, processes.drop_last());
        let p = processes.last();
        if p.pid != self_pid && p.text is Some && text_matches(case_sensitive, exact, pattern, p.text->0@) {
            before.push(p.pid)
        } else {
            before
        }
    }
}

/// Selects processes whose name (or command line, as the caller read it by
/// `config.match_cmdline`) matches the arguments joined by spaces. The running
/// process, `self_pid`, is never selected, nor one whose text could not be read.
pub fn get_matching_by_string(config: &Config, kill_args: &Vec<String>, self_pid: ProcessID, processes: &Vec<ProcessText>) -> (matched: Vec<ProcessID>)
    ensures
        matched@ == selected_by_text(config.case_sensitive, config.match_exact, join_with_space(views_of(kill_args@)), self_pid, processes@),
{
    let kill_string = join_strings(kill_args);
    let mut matched: Vec<ProcessID> = Vec::new();
    let mut i: usize = 0;
    while i < processes.len()
        invariant
            i <= processes.len(),
            matched@ == selected_by_text(config.case_sensitive, config.match_exact, kill_string@, self_pid, processes@.take(i as int)),
        decreases processes.len() - i,
    {
        let p = &processes[i];
        proof {
            assert(processes@.take(i + 1).drop_last() =~= processes@.take(i as int));
        }
        if p.pid != self_pid {
            match &p.text {
                Some(text) => {
                    if text_matches_exec(config.case_sensitive, config.match_exact, kill_string.as_str(), text.as_str()) {
                        matched.push(p.pid);
                    }
                },
                None => {},
            }
        }
        i = i + 1;
    }
    assert(processes@.take(processes.len() as int) =~= processes@);
    matched
}

/// The ids of the processes in `processes`, in order, other than 0 and
/// `self_pid`, whose text could be read and holds `pattern`.
pub open spec fn selected_by_pattern(pattern: Seq<char>, self_pid: ProcessID, processes: Seq<ProcessText>) -> Seq<ProcessID>
    decreases processes.len(),
{
    if processes.len() == 0 {
        Seq::empty()
    } else {
        let before = selected_by_pattern(pattern, self_pid, processes.drop_last());
        let p = processes.last();
        if p.pid != 0 && p.pid != self_pid && p.text is Some && contains_text(p.text->0@, pattern) {
            before.push(p.pid)
        } else {
            before
        }
    }
}

fn select_by_pattern(pattern: &String, self_pid: ProcessID, processes: &Vec<ProcessText>) -> (matched: Vec<ProcessID>)
    ensures
        matched@ == selected_by_pattern(pattern@, self_pid, processes@),
{
    let mut matched: Vec<ProcessID> = Vec::new();
    let mut i: usize = 0;
    while i < processes.len()
        invariant
            i <= processes.len(),
            matched@ == selected_by_pattern(pattern@, self_pid, processes@.take(i as int)),
        decreases processes.len() - i,
    {
        let p = &processes[i];
        proof {
            assert(processes@.take(i + 1).drop_last() =~= processes@.take(i as int));
        }
        if p.pid != 0 && p.pid != self_pid {
            match &p.text {
                Some(text) => {
                    if compare_text(false, pattern.as_str(), text.as_str()) {
                        matched.push(p.pid);
                    }
                },
                None => {},
            }
        }
        i = i + 1;
    }
    assert(processes@.take(processes.len() as int) =~= processes@);
    matched
}

/// Selects the processes whose program name (as read into `processes`) holds
/// `pattern`, leaving out process 0 and the running process `self_pid`.
/// The matching rule, case-sensitive containment, is this library's own
/// choice: the rule these selections were written against is defined nowhere.
pub fn get_matching_pids_name(pattern: &String, self_pid: ProcessID, processes: &Vec<ProcessText>) -> (matched: Vec<ProcessID>)
    ensures
        matched@ == selected_by_pattern(pattern@, self_pid, processes@),
{
    select_by_pattern(pattern, self_pid, processes)
}

/// Selects the processes whose full command line (as read into `processes`)
/// holds `pattern`, leaving out process 0 and the running process `self_pid`.
/// The matching rule, case-sensitive containment, is this library's own
/// choice: the rule these selections were written against is defined nowhere.
pub fn get_matching_pids_full(pattern: &String, self_pid: ProcessID, processes: &Vec<ProcessText>) -> (matched: Vec<ProcessID>)
    ensures
        matched@ == selected_by_pattern(pattern@, self_pid, processes@),
{
    select_by_pattern(pattern, self_pid, processes)
}

/// Matching by process id never selects the running process, and selects only
/// processes that exist.
pub proof fn lemma_pid_selection_sound(args: Seq<Seq<char>>, self_pid: ProcessID, all_pids: Seq<ProcessID>)
    ensures
        forall|i: int| 0 <= i < pid_selection(args, self_pid, all_pids).0.len() ==> {
            let pid = #[trigger] pid_selection(args, self_pid, all_pids).0[i];
            pid != self_pid && all_pids.contains(pid)
        },
    decreases args.len(),
{
    if args.len() > 0 {
        lemma_pid_selection_sound(args.drop_last(), self_pid, all_pids);
        let sel = pid_selection(args, self_pid, all_pids).0;
        let before = pid_selection(args.drop_last(), self_pid, all_pids).0;
        assert forall|i: int| 0 <= i < sel.len() implies #[trigger] sel[i] != self_pid && all_pids.contains(sel[i]) by {
            if i < before.len() {
                assert(sel[i] == before[i]);
            }
        }
    }
}

/// Matching by process id misses nothing: every argument, in any position,
/// that reads as the id of a process that exists and is not the running one has
/// that id selected; and every argument that does not read as an id is
/// reported, and only such arguments are.
pub proof fn lemma_pid_selection_complete(args: Seq<Seq<char>>, self_pid: ProcessID, all_pids: Seq<ProcessID>)
    ensures
        forall|i: int, pid: ProcessID| #![trigger parsed_process_id(args[i]), all_pids.contains(pid)]
            0 <= i < args.len() && parsed_process_id(args[i]) == Some(pid)
            && pid != self_pid && all_pids.contains(pid)
            ==> pid_selection(args, self_pid, all_pids).0.contains(pid),
        forall|i: int| 0 <= i < args.len() && (#[trigger] parsed_process_id(args[i])) is None
            ==> pid_selection(args, self_pid, all_pids).1.contains(args[i]),
        forall|i: int| 0 <= i < pid_selection(args, self_pid, all_pids).1.len()
            ==> parsed_process_id(#[trigger] pid_selection(args, self_pid, all_pids).1[i]) is None,
    decreases args.len(),
{
    if args.len() > 0 {
        let rest = args.drop_last();
        lemma_pid_selection_complete(rest, self_pid, all_pids);
        let sel = pid_selection(args, self_pid, all_pids);
        let before = pid_selection(rest, self_pid, all_pids);
        assert forall|i: int, pid: ProcessID| #![trigger parsed_process_id(args[i]), all_pids.contains(pid)]
            0 <= i < args.len() && parsed_process_id(args[i]) == Some(pid)
            && pid != self_pid && all_pids.contains(pid) implies sel.0.contains(pid) by {
            if i < rest.len() {
                assert(rest[i] == args[i]);
                assert(parsed_process_id(rest[i]) == parsed_process_id(args[i]));
                let k = choose|k: int| 0 <= k < before.0.len() && before.0[k] == pid;
                assert(sel.0[k] == pid);
            } else {
                assert(args.last() == args[i]);
                assert(sel.0[sel.0.len() - 1] == pid);
            }
        }
        assert forall|i: int| 0 <= i < args.len() && (#[trigger] parsed_process_id(args[i])) is None
            implies sel.1.contains(args[i]) by {
            if i < rest.len() {
                assert(rest[i] == args[i]);
                assert(parsed_process_id(rest[i]) is None);
                let k = choose|k: int| 0 <= k < before.1.len() && before.1[k] == args[i];
                assert(sel.1[k] == args[i]);
            } else {
                assert(args.last() == args[i]);
                assert(sel.1[sel.1.len() - 1] == args[i]);
            }
        }
        assert forall|i: int| 0 <= i < sel.1.len() implies parsed_process_id(#[trigger] sel.1[i]) is None by {
            if i < before.1.len() {
                assert(sel.1[i] == before.1[i]);
            }
        }
    }
}

/// Matching by process id reads the arguments one by one: the selection for
/// two runs of arguments, one after the other, is the selection for the first
/// followed by the selection for the second, and likewise for the arguments
/// reported as no id.
pub proof fn lemma_pid_selection_concatenates(first: Seq<Seq<char>>, second: Seq<Seq<char>>, self_pid: ProcessID, all_pids: Seq<ProcessID>)
    ensures
        pid_selection(first + second, self_pid, all_pids).0
            == pid_selection(first, self_pid, all_pids).0 + pid_selection(second, self_pid, all_pids).0,
        pid_selection(first + second, self_pid, all_pids).1
            == pid_selection(first, self_pid, all_pids).1 + pid_selection(second, self_pid, all_pids).1,
    decreases second.len(),
{
    if second.len() == 0 {
        assert(first + second =~= first);
        assert(pid_selection(first, self_pid, all_pids).0 + Seq::<ProcessID>::empty() =~= pid_selection(first, self_pid, all_pids).0);
        assert(pid_selection(first, self_pid, all_pids).1 + Seq::<Seq<char>>::empty() =~= pid_selection(first, self_pid, all_pids).1);
    } else {
        lemma_pid_selection_concatenates(first, second.drop_last(), self_pid, all_pids);
        assert((first + second).drop_last() =~= first + second.drop_last());
        assert((first + second).last() == second.last());
        let a = pid_selection(first, self_pid, all_pids);
        let b = pid_selection(second.drop_last(), self_pid, all_pids);
        assert((a.0 + b.0).push(parsed_process_id(second.last())->0) =~= a.0 + b.0.push(parsed_process_id(second.last())->0));
        assert((a.1 + b.1).push(second.last()) =~= a.1 + b.1.push(second.last()));
    }
}

/// A single argument that reads as the id of an existing process other than
/// the running one selects exactly that id; one that reads as another id
/// selects nothing; one that is no id is reported.
pub proof fn lemma_pid_selection_single(arg: Seq<char>, self_pid: ProcessID, all_pids: Seq<ProcessID>)
    ensures
        parsed_process_id(arg) is Some && parsed_process_id(arg)->0 != self_pid && all_pids.contains(parsed_process_id(arg)->0) ==>
            pid_selection(seq![arg], self_pid, all_pids) == (seq![parsed_process_id(arg)->0], Seq::<Seq<char>>::empty()),
        parsed_process_id(arg) is Some && !(parsed_process_id(arg)->0 != self_pid && all_pids.contains(parsed_process_id(arg)->0)) ==>
            pid_selection(seq![arg], self_pid, all_pids) == (Seq::<ProcessID>::empty(), Seq::<Seq<char>>::empty()),
        parsed_process_id(arg) is None ==>
            pid_selection(seq![arg], self_pid, all_pids) == (Seq::<ProcessID>::empty(), seq![arg]),
{
    let args = seq![arg];
    assert(args.drop_last() =~= Seq::<Seq<char>>::empty());
    assert(args.last() == arg);
    let empty = pid_selection(args.drop_last(), self_pid, all_pids);
    assert(empty.0 =~= Seq::<ProcessID>::empty() && empty.1 =~= Seq::<Seq<char>>::empty());
    let r = pid_selection(args, self_pid, all_pids);
    if let Some(pid) = parsed_process_id(arg) {
        if pid != self_pid && all_pids.contains(pid) {
            assert(r.0 =~= seq![pid]);
            assert(r.1 =~= Seq::<Seq<char>>::empty());
        } else {
            assert(r.0 =~= Seq::<ProcessID>::empty());
            assert(r.1 =~= Seq::<Seq<char>>::empty());
        }
    } else {
        assert(r.0 =~= Seq::<ProcessID>::empty());
        assert(r.1 =~= seq![arg]);
    }
}

/// `p` is a process other than `self_pid` whose text could be read and matches `pattern`.
pub open spec fn text_match_entry(case_sensitive: bool, exact: bool, pattern: Seq<char>, self_pid: ProcessID, p: ProcessText) -> bool {
    &&& p.pid != self_pid
    &&& p.text is Some
    &&& text_matches(case_sensitive, exact, pattern, p.text->0@)
}

/// Matching by name or command line never selects the running process, and
/// selects only processes whose text could be read and matches.
pub proof fn lemma_text_selection_sound(case_sensitive: bool, exact: bool, pattern: Seq<char>, self_pid: ProcessID, processes: Seq<ProcessText>)
    ensures
        forall|i: int| #![trigger selected_by_text(case_sensitive, exact, pattern, self_pid, processes)[i]]
            0 <= i < selected_by_text(case_sensitive, exact, pattern, self_pid, processes).len() ==>
            exists|j: int| 0 <= j < processes.len()
                && text_match_entry(case_sensitive, exact, pattern, self_pid, #[trigger] processes[j])
                && processes[j].pid == selected_by_text(case_sensitive, exact, pattern, self_pid, processes)[i],
        !selected_by_text(case_sensitive, exact, pattern, self_pid, processes).contains(self_pid),
    decreases processes.len(),
{
    if processes.len() > 0 {
        let rest = processes.drop_last();
        lemma_text_selection_sound(case_sensitive, exact, pattern, self_pid, rest);
        let sel = selected_by_text(case_sensitive, exact, pattern, self_pid, processes);
        let before = selected_by_text(case_sensitive, exact, pattern, self_pid, rest);
        assert forall|i: int| #![trigger sel[i]] 0 <= i < sel.len() implies exists|j: int| 0 <= j < processes.len()
            && text_match_entry(case_sensitive, exact, pattern, self_pid, #[trigger] processes[j])
            && processes[j].pid == sel[i] by {
            if i < before.len() {
                assert(before[i] == sel[i]);
                let j = choose|j: int| 0 <= j < rest.len()
                    && text_match_entry(case_sensitive, exact, pattern, self_pid, #[trigger] rest[j])
                    && rest[j].pid == before[i];
                assert(processes[j] == rest[j]);
            } else {
                assert(processes[processes.len() - 1] == processes.last());
            }
        }
        if sel.contains(self_pid) {
            let i = choose|i: int| 0 <= i < sel.len() && sel[i] == self_pid;
            if i < before.len() {
                assert(before[i] == self_pid);
            }
        }
    }
}

/// `f` places each element of `a`, in order, at a place of `b` that holds it.
pub open spec fn embeds(a: Seq<ProcessID>, b: Seq<ProcessID>, f: Seq<int>) -> bool {
    &&& f.len() == a.len()
    &&& forall|i: int| 0 <= i < f.len() ==> 0 <= #[trigger] f[i] < b.len() && b[f[i]] == a[i]
    &&& forall|i: int, j: int| 0 <= i < j < f.len() ==> #[trigger] f[i] < #[trigger] f[j]
}

/// `a` is `b` with some elements left out, the others kept in order.
pub open spec fn is_subsequence(a: Seq<ProcessID>, b: Seq<ProcessID>) -> bool {
    exists|f: Seq<int>| embeds(a, b, f)
}

/// When every text that the first rule matches is also matched by the second,
/// the first selection is the second one with some processes left out.
proof fn lemma_selection_embeds(
    case_sensitive1: bool, exact1: bool, pattern1: Seq<char>,
    case_sensitive2: bool, exact2: bool, pattern2: Seq<char>,
    self_pid: ProcessID, processes: Seq<ProcessText>,
) -> (f: Seq<int>)
    requires
        forall|t: Seq<char>| #[trigger] text_matches(case_sensitive1, exact1, pattern1, t)
            ==> text_matches(case_sensitive2, exact2, pattern2, t),
    ensures
        embeds(
            selected_by_text(case_sensitive1, exact1, pattern1, self_pid, processes),
            selected_by_text(case_sensitive2, exact2, pattern2, self_pid, processes),
            f,
        ),
    decreases processes.len(),
{
    if processes.len() == 0 {
        Seq::empty()
    } else {
        let rest = processes.drop_last();
        let f0 = lemma_selection_embeds(case_sensitive1, exact1, pattern1, case_sensitive2, exact2, pattern2, self_pid, rest);
        let a = selected_by_text(case_sensitive1, exact1, pattern1, self_pid, rest);
        let b = selected_by_text(case_sensitive2, exact2, pattern2, self_pid, rest);
        let sa = selected_by_text(case_sensitive1, exact1, pattern1, self_pid, processes);
        let sb = selected_by_text(case_sensitive2, exact2, pattern2, self_pid, processes);
        let p = processes.last();
        let first = p.pid != self_pid && p.text is Some && text_matches(case_sensitive1, exact1, pattern1, p.text->0@);
        if first {
            let f = f0.push(b.len() as int);
            assert forall|i: int| 0 <= i < f.len() implies 0 <= #[trigger] f[i] < sb.len() && sb[f[i]] == sa[i] by {
                if i < f0.len() {
                    assert(f[i] == f0[i]);
                }
            }
            assert forall|i: int, j: int| 0 <= i < j < f.len() implies #[trigger] f[i] < #[trigger] f[j] by {
                if j < f0.len() {
                    assert(f[i] == f0[i] && f[j] == f0[j]);
                } else {
                    assert(f[i] == f0[i]);
                }
            }
            f
        } else {
            assert forall|i: int| 0 <= i < f0.len() implies 0 <= #[trigger] f0[i] < sb.len() && sb[f0[i]] == sa[i] by {
                assert(sb[f0[i]] == b[f0[i]]);
            }
            f0
        }
    }
}

/// The processes selected by exact matching are among those that matching in
/// part selects from the same processes, in the same order.
pub proof fn lemma_exact_selection_within_partial(case_sensitive: bool, pattern: Seq<char>, self_pid: ProcessID, processes: Seq<ProcessText>)
    ensures
        is_subsequence(
            selected_by_text(case_sensitive, true, pattern, self_pid, processes),
            selected_by_text(case_sensitive, false, pattern, self_pid, processes),
        ),
{
    assert forall|t: Seq<char>| #[trigger] text_matches(case_sensitive, true, pattern, t)
        implies text_matches(case_sensitive, false, pattern, t) by {
        lemma_exact_match_implies_partial_match(case_sensitive, pattern, t);
    }
    let f = lemma_selection_embeds(case_sensitive, true, pattern, case_sensitive, false, pattern, self_pid, processes);
}

/// With case taken as written and matching in part, a longer pattern that holds
/// a shorter one never selects more: its selection is among the shorter one's.
pub proof fn lemma_longer_pattern_selects_fewer(shorter: Seq<char>, longer: Seq<char>, self_pid: ProcessID, processes: Seq<ProcessText>)
    requires
        contains_text(longer, shorter),
    ensures
        is_subsequence(
            selected_by_text(true, false, longer, self_pid, processes),
            selected_by_text(true, false, shorter, self_pid, processes),
        ),
{
    assert forall|t: Seq<char>| #[trigger] text_matches(true, false, longer, t)
        implies text_matches(true, false, shorter, t) by {
        lemma_contains_transitive(t, longer, shorter);
    }
    let f = lemma_selection_embeds(true, false, longer, true, false, shorter, self_pid, processes);
}

/// Matching by pattern never selects process 0 or the running process.
pub proof fn lemma_pattern_selection_sound(pattern: Seq<char>, self_pid: ProcessID, processes: Seq<ProcessText>)
    ensures
        !selected_by_pattern(pattern, self_pid, processes).contains(self_pid),
        !selected_by_pattern(pattern, self_pid, processes).contains(0),
    decreases processes.len(),
{
    if processes.len() > 0 {
        lemma_pattern_selection_sound(pattern, self_pid, processes.drop_last());
        let sel = selected_by_pattern(pattern, self_pid, processes);
        let before = selected_by_pattern(pattern, self_pid, processes.drop_last());
        if sel.contains(self_pid) {
            let i = choose|i: int| 0 <= i < sel.len() && sel[i] == self_pid;
            if i < before.len() {
                assert(before[i] == self_pid);
            }
        }
        if sel.contains(0) {
            let i = choose|i: int| 0 <= i < sel.len() && sel[i] == 0;
            if i < before.len() {
                assert(before[i] == 0);
            }
        }
    }
}

} // verus!
