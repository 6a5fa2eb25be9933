use vstd::prelude::*;
use vstd::utf8::is_ascii_chars;

verus! {

/// `needle` occurs in `haystack` as a contiguous run starting at `start`.
pub open spec fn occurs_at(haystack: Seq<char>, needle: Seq<char>, start: int) -> bool {
    &&& 0 <= start
    &&& start + needle.len() <= haystack.len()
    &&& haystack.subrange(start, start + needle.len()) == needle
}

/// `needle` occurs somewhere in `haystack` (the empty text occurs everywhere).
pub open spec fn contains_text(haystack: Seq<char>, needle: Seq<char>) -> bool {
    exists|start: int| occurs_at(haystack, needle, start)
}

/// The texts in `parts` written one after another, a single space between neighbours.
pub open spec fn join_with_space(parts: Seq<Seq<char>>) -> Seq<char>
    decreases parts.len(),
{
    if parts.len() == 0 {
        Seq::empty()
    } else if parts.len() == 1 {
        parts[0]
    } else {
        join_with_space(parts.drop_last()) + seq![' '] + parts.last()
    }
}

/// The views of a sequence of strings.
pub open spec fn views_of(strings: Seq<String>) -> Seq<Seq<char>> {
    strings.map_values(|s: String| s@)
}

/// The characters of `s`, in order.
pub fn chars_of(s: &str) -> (chars: Vec<char>)
    ensures
        chars@ == s@,
{
    let mut chars: Vec<char> = Vec::new();
    for c in it: s.chars()
        invariant
            it.seq() == s@,
            chars@ == it.seq().take(it.index() as int),
    {
        chars.push(c);
    }
    chars
}

/// Whether two character sequences are the same.
pub fn same_chars(a: &Vec<char>, b: &Vec<char>) -> (same: bool)
    ensures
        same == (a@ == b@),
{
    if a.len() != b.len() {
        return false;
    }
    let mut i: usize = 0;
    while i < a.len()
        invariant
            a.len() == b.len(),
            i <= a.len(),
            forall|j: int| 0 <= j < i ==> a@[j] == b@[j],
        decreases a.len() - i,
    {
        if a[i] != b[i] {
            return false;
        }
        i = i + 1;
    }
    assert(a@ =~= b@);
    true
}

/// Whether two texts are the same.
pub fn same_text(a: &str, b: &str) -> (same: bool)
    ensures
        same == (a@ == b@),
{
    let ca = chars_of(a);
    let cb = chars_of(b);
    same_chars(&ca, &cb)
}

/// Whether `needle` occurs in `haystack` at `start`.
fn occurs_at_exec(haystack: &Vec<char>, needle: &Vec<char>, start: usize) -> (found: bool)
    requires
        start + needle.len() <= haystack.len(),
    ensures
        found == occurs_at(haystack@, needle@, start as int),
{
    let mut j: usize = 0;
    while j < needle.len()
        invariant
            start + needle.len() <= haystack.len(),
            j <= needle.len(),
            forall|k: int| 0 <= k < j ==> haystack@[start + k] == needle@[k],
        decreases needle.len() - j,
    {
        if haystack[start + j] != needle[j] {
            assert(haystack@.subrange(start as int, start + needle.len())[j as int] != needle@[j as int]);
            return false;
        }
        j = j + 1;
    }
    assert(haystack@.subrange(start as int, start + needle.len()) =~= needle@);
    true
}

/// Whether `needle` occurs somewhere in `haystack`.
pub fn contains_chars(haystack: &Vec<char>, needle: &Vec<char>) -> (found: bool)
    ensures
        found == contains_text(haystack@, needle@),
{
    if needle.len() > haystack.len() {
        return false;
    }
    let last = haystack.len() - needle.len();
    let mut start: usize = 0;
    loop
        invariant
            last == haystack.len() - needle.len(),
            needle.len() <= haystack.len(),
            start <= last,
            forall|k: int| 0 <= k < start ==> !occurs_at(haystack@, needle@, k),
        decreases last - start,
    {
        if occurs_at_exec(haystack, needle, start) {
            return true;
        }
        if start == last {
            return false;
        }
        start = start + 1;
    }
}

/// The texts in `parts` joined by single spaces.
pub fn join_strings(parts: &Vec<String>) -> (joined: String)
    ensures
        joined@ == join_with_space(views_of(parts@)),
{
    let mut joined = String::new();
    let ghost views = views_of(parts@);
    let mut i: usize = 0;
    while i < parts.len()
        invariant
            i <= parts.len(),
            views == views_of(parts@),
            joined@ == join_with_space(views.take(i as int)),
        decreases parts.len() - i,
    {
        if i != 0 {
            joined.append(" ");
        }
        joined.append(parts[i].as_str());
        proof {
            assert(views.take(i + 1).drop_last() =~= views.take(i as int));
            reveal_strlit(" ");
        }
        i = i + 1;
    }
    assert(views.take(parts.len() as int) =~= views);
    joined
}

/// The text that Unicode lowercasing makes of `s` (`str::to_lowercase`). The
/// mapping is not character by character in every case: a capital sigma becomes
/// a final or a non-final small sigma by where it stands in a word.
pub uninterp spec fn lowercase(s: Seq<char>) -> Seq<char>;

/// Calls `str::to_lowercase`. The contract claims only that the result is a
/// function of the text's characters, named `lowercase`; the Unicode case tables
/// are not stated.
#[verifier::external_body]
fn to_lowercase(s: &str) -> (lower: String)
    ensures
        lower@ == lowercase(s@),
{
    s.to_lowercase()
}

/// `pattern` matches `subject`: it is the whole of it when `exact`, a part of it otherwise.
pub open spec fn compared(exact: bool, pattern: Seq<char>, subject: Seq<char>) -> bool {
    if exact {
        pattern == subject
    } else {
        contains_text(subject, pattern)
    }
}

/// `c` is one of the ASCII capitals `A` to `Z`.
pub open spec fn is_ascii_capital(c: char) -> bool {
    65 <= (c as int) && (c as int) <= 90
}

/// The lowercase of an ASCII character: a capital becomes its small letter,
/// every other character stays as it is.
pub open spec fn ascii_lower(c: char) -> char {
    if is_ascii_capital(c) {
        ((c as int) + 32) as char
    } else {
        c
    }
}

/// What lowercasing makes of `s`: for a text of ASCII characters only, each
/// character lowercased on its own (which is what Unicode lowercasing does to
/// such a text); for any other text, Unicode lowercasing (`lowercase`).
pub open spec fn folded(s: Seq<char>) -> Seq<char> {
    if is_ascii_chars(s) {
        s.map_values(|c: char| ascii_lower(c))
    } else {
        lowercase(s)
    }
}

/// `pattern` matches `subject` as the options ask: compared as written when
/// `case_sensitive`, both lowercased otherwise; whole or in part by `exact`.
pub open spec fn text_matches(case_sensitive: bool, exact: bool, pattern: Seq<char>, subject: Seq<char>) -> bool {
    if case_sensitive {
        compared(exact, pattern, subject)
    } else {
        compared(exact, folded(pattern), folded(subject))
    }
}

/// Lowercasing an ASCII text keeps its length, turns each capital into its
/// small letter and keeps every other character (digits, spaces, punctuation,
/// small letters) as it is.
pub proof fn lemma_folding_ascii_text(s: Seq<char>)
    requires
        is_ascii_chars(s),
    ensures
        folded(s).len() == s.len(),
        forall|i: int| 0 <= i < s.len() && !is_ascii_capital(s[i]) ==> #[trigger] folded(s)[i] == s[i],
        forall|i: int| 0 <= i < s.len() && is_ascii_capital(s[i]) ==> (#[trigger] folded(s)[i]) as int == (s[i] as int) + 32,
{
}

/// Ignoring case makes no difference between ASCII texts without capitals:
/// they match with case ignored exactly when they match as written.
pub proof fn lemma_case_irrelevant_without_capitals(exact: bool, pattern: Seq<char>, subject: Seq<char>)
    requires
        is_ascii_chars(pattern),
        is_ascii_chars(subject),
        forall|i: int| 0 <= i < pattern.len() ==> !is_ascii_capital(#[trigger] pattern[i]),
        forall|i: int| 0 <= i < subject.len() ==> !is_ascii_capital(#[trigger] subject[i]),
    ensures
        text_matches(false, exact, pattern, subject) == text_matches(true, exact, pattern, subject),
{
    assert(folded(pattern) =~= pattern);
    assert(folded(subject) =~= subject);
}

/// For ASCII texts, matching with case ignored is matching as written of the
/// texts with every capital turned into its small letter.
pub proof fn lemma_ignoring_case_on_ascii(exact: bool, pattern: Seq<char>, subject: Seq<char>)
    requires
        is_ascii_chars(pattern),
        is_ascii_chars(subject),
    ensures
        text_matches(false, exact, pattern, subject) == text_matches(
            true,
            exact,
            pattern.map_values(|c: char| ascii_lower(c)),
            subject.map_values(|c: char| ascii_lower(c)),
        ),
{
}

/// An exact match is also a match in part: whatever `pattern` matches
/// exactly, it also matches when matching parts, with case folded or not.
pub proof fn lemma_exact_match_implies_partial_match(case_sensitive: bool, pattern: Seq<char>, subject: Seq<char>)
    requires
        text_matches(case_sensitive, true, pattern, subject),
    ensures
        text_matches(case_sensitive, false, pattern, subject),
{
    let (p, s) = if case_sensitive {
        (pattern, subject)
    } else {
        (folded(pattern), folded(subject))
    };
    assert(s.subrange(0, p.len() as int) =~= p);
    assert(occurs_at(s, p, 0));
}

/// What holds a text holds every part of that text.
pub proof fn lemma_contains_transitive(haystack: Seq<char>, middle: Seq<char>, needle: Seq<char>)
    requires
        contains_text(haystack, middle),
        contains_text(middle, needle),
    ensures
        contains_text(haystack, needle),
{
    let i = choose|i: int| occurs_at(haystack, middle, i);
    let j = choose|j: int| occurs_at(middle, needle, j);
    assert forall|k: int| 0 <= k < needle.len() implies
        #[trigger] haystack.subrange(i + j, i + j + needle.len())[k] == needle[k] by {
        assert(middle.subrange(j, j + needle.len())[k] == needle[k]);
        assert(haystack.subrange(i, i + middle.len())[j + k] == middle[j + k]);
    }
    assert(haystack.subrange(i + j, i + j + needle.len()) =~= needle);
    assert(occurs_at(haystack, needle, i + j));
}

/// Compares two texts as they are: equality when `exact`, occurrence otherwise.
pub fn compare_text(exact: bool, pattern: &str, subject: &str) -> (matched: bool)
    ensures
        matched == compared(exact, pattern@, subject@),
{
    let p = chars_of(pattern);
    let s = chars_of(subject);
    if exact {
        same_chars(&p, &s)
    } else {
        contains_chars(&s, &p)
    }
}

/// Compares two texts, lowercasing both first unless `case_sensitive`.
pub fn text_matches_exec(case_sensitive: bool, exact: bool, pattern: &str, subject: &str) -> (matched: bool)
    ensures
        matched == text_matches(case_sensitive, exact, pattern@, subject@),
{
    if case_sensitive {
        compare_text(exact, pattern, subject)
    } else {
        let p = fold_text(pattern);
        let s = fold_text(subject);
        if exact {
            same_chars(&p, &s)
        } else {
            contains_chars(&s, &p)
        }
    }
}

/// The lowercase of the ASCII character `c`.
fn ascii_lower_char(c: char) -> (lower: char)
    requires
        (c as int) < 128,
    ensures
        lower == ascii_lower(c),
{
    if c >= 'A' && c <= 'Z' {
        let code = c as u8;
        assert(code as int == c as int);
        let lower = (code + 32) as char;
        assert(lower as int == code + 32);
        lower
    } else {
        c
    }
}

/// The characters of `s` lowercased: one by one when `s` is ASCII, by Unicode
/// lowercasing otherwise.
fn fold_text(s: &str) -> (lower: Vec<char>)
    ensures
        lower@ == folded(s@),
{
    if s.is_ascii() {
        let chars = chars_of(s);
        let mut lower: Vec<char> = Vec::new();
        let mut i: usize = 0;
        while i < chars.len()
            invariant
                i <= chars.len(),
                chars@ == s@,
                is_ascii_chars(s@),
                lower@ == chars@.take(i as int).map_values(|c: char| ascii_lower(c)),
            decreases chars.len() - i,
        {
            assert('\0' <= chars@[i as int] <= '\u{7f}');
            let c = ascii_lower_char(chars[i]);
            lower.push(c);
            assert(lower@ =~= chars@.take(i + 1).map_values(|c: char| ascii_lower(c)));
            i = i + 1;
        }
        assert(chars@.take(chars.len() as int) =~= chars@);
        lower
    } else {
        let l = to_lowercase(s);
        chars_of(l.as_str())
    }
}

/// Where `c` first occurs in `s`, or the length of `s` when it does not.
pub open spec fn index_of(s: Seq<char>, c: char) -> int
    decreases s.len(),
{
    if s.len() == 0 {
        0
    } else if s[0] == c {
        0
    } else {
        1 + index_of(s.drop_first(), c)
    }
}

/// `index_of` is the first place that holds `c`, or the end.
pub proof fn lemma_index_of(s: Seq<char>, c: char, k: int)
    requires
        0 <= k <= s.len(),
        forall|j: int| 0 <= j < k ==> s[j] != c,
        k < s.len() ==> s[k] == c,
    ensures
        index_of(s, c) == k,
    decreases k,
{
    if k > 0 {
        assert(s[0] != c);
        lemma_index_of(s.drop_first(), c, k - 1);
    }
}

/// What `index_of` gives: a place within `s` or its end, before which `c`
/// does not occur, and which holds `c` unless it is the end.
pub proof fn lemma_index_of_properties(s: Seq<char>, c: char)
    ensures
        0 <= index_of(s, c) <= s.len(),
        forall|j: int| 0 <= j < index_of(s, c) ==> s[j] != c,
        index_of(s, c) < s.len() ==> s[index_of(s, c)] == c,
    decreases s.len(),
{
    if s.len() > 0 && s[0] != c {
        lemma_index_of_properties(s.drop_first(), c);
        assert forall|j: int| 0 <= j < index_of(s, c) implies s[j] != c by {
            if j > 0 {
                assert(s[j] == s.drop_first()[j - 1]);
            }
        }
    }
}

/// Finds where `c` first occurs in `s` at or after `from`; the length of `s` when it does not.
pub fn find_char(s: &Vec<char>, from: usize, c: char) -> (idx: usize)
    requires
        from <= s.len(),
    ensures
        from <= idx <= s.len(),
        idx - from == index_of(s@.subrange(from as int, s@.len() as int), c),
{
    let mut i: usize = from;
    while i < s.len()
        invariant
            from <= i <= s.len(),
            forall|j: int| from <= j < i ==> s@[j] != c,
        ensures
            from <= i <= s.len(),
            forall|j: int| from <= j < i ==> s@[j] != c,
            i < s.len() ==> s@[i as int] == c,
        decreases s.len() - i,
    {
        if s[i] == c {
            break;
        }
        i = i + 1;
    }
    proof {
        let rest = s@.subrange(from as int, s@.len() as int);
        assert forall|j: int| 0 <= j < i - from implies rest[j] != c by {
            assert(rest[j] == s@[from + j]);
        }
        if i < s.len() {
            assert(rest[i - from] == s@[i as int]);
        }
        lemma_index_of(rest, c, i - from);
    }
    i
}

} // verus!
