//! The two link shapes by which the archive's pages name issues and the files
//! of an issue.
//!
//! An issue link holds `/issues/<digits>/`. An entry link of issue `n` holds
//! `/issues/<n>/<token>.txt` or `/issues/<n>/<token>.pdf`, where the token is a
//! run of word characters and `-`. A link is read at the leftmost place where
//! the shape stands. Which characters are digits and which are word
//! characters is asked of the `regex` crate, whose classes `\d` and `\w`
//! cover all of Unicode.

use crate::text::{decimal, occurs_at, occurs_in};
use regex::Regex;
use vstd::prelude::*;

verus! {

/// Whether the `regex` crate accepts `pattern` as a regular expression.
pub uninterp spec fn pattern_compiles(pattern: Seq<char>) -> bool;

/// Whether the regular expression `pattern`, as the `regex` crate reads it,
/// matches somewhere in `text`.
pub uninterp spec fn pattern_matches(pattern: Seq<char>, text: Seq<char>) -> bool;

/// The pattern of the characters that count as digits in a link.
pub open spec fn digit_pattern() -> Seq<char> {
    "\\d"@
}

/// The pattern of the characters that may stand in the token of an entry
/// link.
pub open spec fn token_pattern() -> Seq<char> {
    "[\\w-]"@
}

/// Whether `flags` says of each character of `h` whether `pattern` matches
/// it.
pub open spec fn marked(h: Seq<char>, flags: Seq<bool>, pattern: Seq<char>) -> bool {
    &&& flags.len() == h.len()
    &&& forall|i: int|
        0 <= i < h.len() ==> #[trigger] flags[i] == pattern_matches(pattern, seq![h[i]])
}

/// Runs `regex`: `Regex::new` on `pattern`, then `Regex::is_match` on each
/// character of `text` taken as a text of its own. Comes back empty-handed
/// exactly when the crate rejects the pattern, which it does not for the two
/// class patterns of this module: its syntax lists `\d`, `\w` and bracketed
/// classes, and its Unicode tables are part of the crate as it is built here.
/// Beyond that the contract only names what the two calls return.
#[verifier::external_body]
fn match_each(pattern: &str, text: &str) -> (flags: Option<Vec<bool>>)
    ensures
        match flags {
            Some(f) => pattern_compiles(pattern@) && f@.len() == text@.len() && forall|i: int|
                0 <= i < f@.len() ==> #[trigger] f@[i] == pattern_matches(
                    pattern@,
                    seq![text@[i]],
                ),
            None => !pattern_compiles(pattern@),
        },
        pattern@ == digit_pattern() || pattern@ == token_pattern() ==> flags is Some,
{
    let re = Regex::new(pattern).ok()?;
    Some(text.chars().map(|c| re.is_match(c.encode_utf8(&mut [0u8; 4]))).collect())
}

/// Says of each character of `text` whether `pattern` matches it; nothing if
/// `pattern` is no regular expression.
pub fn classify(pattern: &str, text: &str) -> (flags: Option<Vec<bool>>)
    ensures
        match flags {
            Some(f) => pattern_compiles(pattern@) && marked(text@, f@, pattern@),
            None => !pattern_compiles(pattern@),
        },
        pattern@ == digit_pattern() || pattern@ == token_pattern() ==> flags is Some,
{
    match_each(pattern, text)
}

/// Says of each character of `text` whether it counts as a digit in a link.
pub fn classify_digits(text: &str) -> (flags: Vec<bool>)
    ensures
        marked(text@, flags@, digit_pattern()),
{
    match classify("\\d", text) {
        Some(flags) => flags,
        None => Vec::new(),
    }
}

/// Says of each character of `text` whether it may stand in a token.
pub fn classify_tokens(text: &str) -> (flags: Vec<bool>)
    ensures
        marked(text@, flags@, token_pattern()),
{
    match classify("[\\w-]", text) {
        Some(flags) => flags,
        None => Vec::new(),
    }
}

/// The text that every link into the archive's issues holds: `/issues/`.
pub open spec fn issues_prefix() -> Seq<char> {
    seq!['/', 'i', 's', 's', 'u', 'e', 's', '/']
}

/// The text in front of the file name in an entry link of issue `number`.
pub open spec fn issue_dir_prefix(number: u32) -> Seq<char> {
    issues_prefix() + decimal(number as nat) + seq!['/']
}

/// The ending of a link to an article.
pub open spec fn txt_suffix() -> Seq<char> {
    seq!['t', 'x', 't']
}

/// The ending of a link to a PDF.
pub open spec fn pdf_suffix() -> Seq<char> {
    seq!['p', 'd', 'f']
}

/// Whether `c` counts as a digit in a link: a decimal digit of any script.
pub open spec fn is_link_digit(c: char) -> bool {
    pattern_matches(digit_pattern(), seq![c])
}

/// Whether `c` may stand in the token of an entry link: a word character of
/// any script, or `-`.
pub open spec fn is_token_char(c: char) -> bool {
    pattern_matches(token_pattern(), seq![c])
}

/// Whether `s` holds link digits only.
pub open spec fn all_link_digits(s: Seq<char>) -> bool {
    forall|i: int| 0 <= i < s.len() ==> is_link_digit(#[trigger] s[i])
}

/// Where the run of digits that starts at `from` ends.
pub open spec fn digits_end(h: Seq<char>, from: int) -> int
    decreases h.len() - from,
{
    if 0 <= from < h.len() && is_link_digit(h[from]) {
        digits_end(h, from + 1)
    } else {
        from
    }
}

/// Where the run of token characters that starts at `from` ends.
pub open spec fn token_end(h: Seq<char>, from: int) -> int
    decreases h.len() - from,
{
    if 0 <= from < h.len() && is_token_char(h[from]) {
        token_end(h, from + 1)
    } else {
        from
    }
}

/// Whether an issue link stands in `h` at `at`: the prefix, one or more
/// digits, and a `/` right after the last digit.
pub open spec fn issue_link_at(h: Seq<char>, at: int) -> bool {
    let start = at + issues_prefix().len();
    let end = digits_end(h, start);
    &&& occurs_at(h, issues_prefix(), at)
    &&& start < end < h.len()
    &&& h[end] == '/'
}

/// The digits of the issue link that stands in `h` at `at`.
pub open spec fn issue_digits_at(h: Seq<char>, at: int) -> Seq<char> {
    h.subrange(at + issues_prefix().len(), digits_end(h, at + issues_prefix().len()))
}

/// The place of the leftmost issue link of `h` at or after `from`.
pub open spec fn first_issue_link(h: Seq<char>, from: int) -> Option<int>
    decreases h.len() - from,
{
    if from < 0 || from >= h.len() {
        None
    } else if issue_link_at(h, from) {
        Some(from)
    } else {
        first_issue_link(h, from + 1)
    }
}

/// The digits of the leftmost issue link of `h`, if it holds one.
pub open spec fn issue_ref(h: Seq<char>) -> Option<Seq<char>> {
    match first_issue_link(h, 0) {
        Some(at) => Some(issue_digits_at(h, at)),
        None => None,
    }
}

/// What an entry link points to.
#[derive(Clone, Copy, Debug, PartialEq, Eq, Structural)]
pub enum EntryKind {
    /// An article: the link ends in `.txt`.
    Text,
    /// A PDF: the link ends in `.pdf`.
    Pdf,
}

/// What an entry link says: the token in front of the dot, and the kind.
pub struct EntryRef {
    pub token: Seq<char>,
    pub kind: EntryKind,
}

/// The entry link that stands in `h` at `at`, behind `prefix`: a token of one
/// or more characters, a dot, and `txt` or `pdf`.
pub open spec fn entry_link_at(h: Seq<char>, prefix: Seq<char>, at: int) -> Option<EntryRef> {
    let start = at + prefix.len();
    let end = token_end(h, start);
    if occurs_at(h, prefix, at) && start < end < h.len() && h[end] == '.' {
        if occurs_at(h, txt_suffix(), end + 1) {
            Some(EntryRef { token: h.subrange(start, end), kind: EntryKind::Text })
        } else if occurs_at(h, pdf_suffix(), end + 1) {
            Some(EntryRef { token: h.subrange(start, end), kind: EntryKind::Pdf })
        } else {
            None
        }
    } else {
        None
    }
}

/// The leftmost entry link of `h` at or after `from`.
pub open spec fn first_entry_link(h: Seq<char>, prefix: Seq<char>, from: int) -> Option<EntryRef>
    decreases h.len() - from,
{
    if from < 0 || from >= h.len() {
        None
    } else if entry_link_at(h, prefix, from) is Some {
        entry_link_at(h, prefix, from)
    } else {
        first_entry_link(h, prefix, from + 1)
    }
}

/// The leftmost entry link of issue `number` in `h`, if it holds one.
pub open spec fn entry_ref(h: Seq<char>, number: u32) -> Option<EntryRef> {
    first_entry_link(h, issue_dir_prefix(number), 0)
}

/// The ending that says of which kind an entry link is.
pub open spec fn kind_suffix(kind: EntryKind) -> Seq<char> {
    match kind {
        EntryKind::Text => txt_suffix(),
        EntryKind::Pdf => pdf_suffix(),
    }
}

/// The run of digits that starts at `from` holds digits only and cannot be
/// made longer.
pub proof fn lemma_digits_run(h: Seq<char>, from: int)
    requires
        0 <= from <= h.len(),
    ensures
        from <= digits_end(h, from) <= h.len(),
        all_link_digits(h.subrange(from, digits_end(h, from))),
        digits_end(h, from) < h.len() ==> !is_link_digit(h[digits_end(h, from)]),
    decreases h.len() - from,
{
    if from < h.len() && is_link_digit(h[from]) {
        lemma_digits_run(h, from + 1);
        let end = digits_end(h, from);
        assert forall|i: int| 0 <= i < end - from implies is_link_digit(
            #[trigger] h.subrange(from, end)[i],
        ) by {
            if i > 0 {
                assert(h.subrange(from + 1, end)[i - 1] == h[from + i]);
            }
        }
    }
}

/// The run of token characters that starts at `from` holds token characters
/// only and cannot be made longer.
pub proof fn lemma_token_run(h: Seq<char>, from: int)
    requires
        0 <= from <= h.len(),
    ensures
        from <= token_end(h, from) <= h.len(),
        forall|i: int| from <= i < token_end(h, from) ==> is_token_char(#[trigger] h[i]),
        token_end(h, from) < h.len() ==> !is_token_char(h[token_end(h, from)]),
    decreases h.len() - from,
{
    if from < h.len() && is_token_char(h[from]) {
        lemma_token_run(h, from + 1);
    }
}

/// What [`first_issue_link`] finds is an issue link with none before it; and
/// where it finds nothing, there is none.
pub proof fn lemma_first_issue_link(h: Seq<char>, from: int)
    requires
        0 <= from,
    ensures
        match first_issue_link(h, from) {
            Some(at) => from <= at < h.len() && issue_link_at(h, at) && forall|j: int|
                from <= j < at ==> !issue_link_at(h, j),
            None => forall|j: int| from <= j ==> !issue_link_at(h, j),
        },
    decreases h.len() - from,
{
    if from < h.len() && !issue_link_at(h, from) {
        lemma_first_issue_link(h, from + 1);
    }
}

/// What [`first_entry_link`] finds is the entry link at some place with none
/// before it; and where it finds nothing, there is none.
pub proof fn lemma_first_entry_link(h: Seq<char>, prefix: Seq<char>, from: int)
    requires
        0 <= from,
    ensures
        match first_entry_link(h, prefix, from) {
            Some(link) => exists|at: int|
                from <= at < h.len() && #[trigger] entry_link_at(h, prefix, at) == Some(link)
                    && forall|j: int| from <= j < at ==> entry_link_at(h, prefix, j) is None,
            None => forall|j: int| from <= j ==> entry_link_at(h, prefix, j) is None,
        },
    decreases h.len() - from,
{
    if from < h.len() {
        if entry_link_at(h, prefix, from) is Some {
            assert(entry_link_at(h, prefix, from) == first_entry_link(h, prefix, from));
        } else {
            lemma_first_entry_link(h, prefix, from + 1);
            match first_entry_link(h, prefix, from + 1) {
                Some(link) => {
                    let at = choose|at: int|
                        from + 1 <= at < h.len() && #[trigger] entry_link_at(h, prefix, at) == Some(
                            link,
                        ) && forall|j: int|
                            from + 1 <= j < at ==> entry_link_at(h, prefix, j) is None;
                    assert(from <= at < h.len() && entry_link_at(h, prefix, at) == Some(link)
                        && forall|j: int| from <= j < at ==> entry_link_at(h, prefix, j) is None);
                },
                None => {},
            }
        }
    }
}

/// An href that does not hold `/issues/` holds no issue link, whatever its
/// characters are.
pub proof fn lemma_no_prefix_no_issue_link(h: Seq<char>)
    requires
        !occurs_in(h, issues_prefix()),
    ensures
        issue_ref(h) is None,
{
    lemma_first_issue_link(h, 0);
    if first_issue_link(h, 0) is Some {
        assert(occurs_at(h, issues_prefix(), first_issue_link(h, 0)->0));
    }
}

/// The digits that are read off an href are one or more digits, and the href
/// holds them between `/issues/` and `/`.
pub proof fn lemma_issue_ref_is_link(h: Seq<char>)
    requires
        issue_ref(h) is Some,
    ensures
        issue_ref(h)->0.len() > 0,
        all_link_digits(issue_ref(h)->0),
        occurs_in(h, issues_prefix() + issue_ref(h)->0 + seq!['/']),
{
    lemma_first_issue_link(h, 0);
    let at = first_issue_link(h, 0)->0;
    let start = at + issues_prefix().len();
    lemma_digits_run(h, start);
    let end = digits_end(h, start);
    let digits = issue_ref(h)->0;
    let shape = issues_prefix() + digits + seq!['/'];
    assert(h.subrange(at, at + shape.len()) =~= shape) by {
        assert forall|i: int| 0 <= i < shape.len() implies h.subrange(at, at + shape.len())[i]
            == shape[i] by {
            if i < issues_prefix().len() {
                assert(h.subrange(at, at + issues_prefix().len())[i] == issues_prefix()[i]);
            } else if i < issues_prefix().len() + digits.len() {
                assert(digits[i - issues_prefix().len()] == h[at + i]);
            }
        }
    }
    assert(occurs_at(h, shape, at));
}

/// What is read off an href as an entry of issue `number` has a token of one
/// or more token characters, and the href holds the issue's prefix, the
/// token, a dot and the ending of its kind, one after the other.
pub proof fn lemma_entry_ref_is_link(h: Seq<char>, number: u32)
    requires
        entry_ref(h, number) is Some,
    ensures
        entry_ref(h, number)->0.token.len() > 0,
        forall|i: int|
            0 <= i < entry_ref(h, number)->0.token.len() ==> is_token_char(
                #[trigger] entry_ref(h, number)->0.token[i],
            ),
        occurs_in(
            h,
            issue_dir_prefix(number) + entry_ref(h, number)->0.token + seq!['.'] + kind_suffix(
                entry_ref(h, number)->0.kind,
            ),
        ),
{
    let prefix = issue_dir_prefix(number);
    let link = entry_ref(h, number)->0;
    lemma_first_entry_link(h, prefix, 0);
    let at = choose|at: int|
        0 <= at < h.len() && #[trigger] entry_link_at(h, prefix, at) == Some(link);
    let start = at + prefix.len();
    lemma_token_run(h, start);
    let end = token_end(h, start);
    let suffix = kind_suffix(link.kind);
    let shape = prefix + link.token + seq!['.'] + suffix;
    assert(link.token == h.subrange(start, end));
    assert(occurs_at(h, suffix, end + 1));
    assert forall|i: int| 0 <= i < link.token.len() implies is_token_char(
        #[trigger] link.token[i],
    ) by {
        assert(link.token[i] == h[start + i]);
    }
    assert(h.subrange(at, at + shape.len()) =~= shape) by {
        assert forall|i: int| 0 <= i < shape.len() implies h.subrange(at, at + shape.len())[i]
            == shape[i] by {
            if i < prefix.len() {
                assert(h.subrange(at, at + prefix.len())[i] == prefix[i]);
            } else if i < prefix.len() + link.token.len() {
                assert(link.token[i - prefix.len()] == h[at + i]);
            } else if i > prefix.len() + link.token.len() {
                let k = i - prefix.len() - link.token.len() - 1;
                assert(h.subrange(end + 1, end + 1 + suffix.len())[k] == suffix[k]);
            }
        }
    }
    assert(occurs_at(h, shape, at));
}

/// Where a link was found in a text: the token's first position, the position
/// after its last, and the kind of the link.
#[derive(Clone, Copy, Debug)]
pub struct EntryMatch {
    pub start: usize,
    pub end: usize,
    pub kind: EntryKind,
}

/// Whether `pattern` stands in `text` at `at`.
pub fn stands_at(text: &Vec<char>, pattern: &Vec<char>, at: usize) -> (b: bool)
    ensures
        b == occurs_at(text@, pattern@, at as int),
{
    if pattern.len() > text.len() || at > text.len() - pattern.len() {
        return false;
    }
    let mut i: usize = 0;
    while i < pattern.len()
        invariant
            i <= pattern.len(),
            at + pattern.len() <= text.len(),
            forall|j: int| 0 <= j < i ==> text@[at + j] == pattern@[j],
        decreases pattern.len() - i,
    {
        if text[at + i] != pattern[i] {
            assert(text@.subrange(at as int, at + pattern.len())[i as int] != pattern@[i as int]);
            return false;
        }
        i = i + 1;
    }
    assert(text@.subrange(at as int, at + pattern.len()) =~= pattern@);
    true
}

/// The position after the run of digits that starts at `from`.
pub fn digits_stop(h: &Vec<char>, digits: &Vec<bool>, from: usize) -> (end: usize)
    requires
        marked(h@, digits@, digit_pattern()),
        from <= h.len(),
    ensures
        end == digits_end(h@, from as int),
        from <= end <= h.len(),
{
    let mut end: usize = from;
    while end < h.len() && digits[end]
        invariant
            marked(h@, digits@, digit_pattern()),
            from <= end <= h.len(),
            digits_end(h@, from as int) == digits_end(h@, end as int),
        decreases h.len() - end,
    {
        end = end + 1;
    }
    end
}

/// The position after the run of token characters that starts at `from`.
pub fn token_stop(h: &Vec<char>, tokens: &Vec<bool>, from: usize) -> (end: usize)
    requires
        marked(h@, tokens@, token_pattern()),
        from <= h.len(),
    ensures
        end == token_end(h@, from as int),
        from <= end <= h.len(),
{
    let mut end: usize = from;
    while end < h.len() && tokens[end]
        invariant
            marked(h@, tokens@, token_pattern()),
            from <= end <= h.len(),
            token_end(h@, from as int) == token_end(h@, end as int),
        decreases h.len() - end,
    {
        end = end + 1;
    }
    end
}

/// The characters of `/issues/`.
pub fn issues_prefix_chars() -> (prefix: Vec<char>)
    ensures
        prefix@ == issues_prefix(),
{
    let mut prefix: Vec<char> = Vec::new();
    prefix.push('/');
    prefix.push('i');
    prefix.push('s');
    prefix.push('s');
    prefix.push('u');
    prefix.push('e');
    prefix.push('s');
    prefix.push('/');
    assert(prefix@ =~= issues_prefix());
    prefix
}

/// Finds the digits of the leftmost issue link of `h`: their first position
/// and the position after their last. `digits` says which characters of `h`
/// are digits.
pub fn find_issue_ref(h: &Vec<char>, digits: &Vec<bool>) -> (r: Option<(usize, usize)>)
    requires
        marked(h@, digits@, digit_pattern()),
    ensures
        match r {
            Some((start, end)) => start <= end <= h.len() && issue_ref(h@) == Some(
                h@.subrange(start as int, end as int),
            ),
            None => issue_ref(h@) is None,
        },
{
    let prefix = issues_prefix_chars();
    let mut at: usize = 0;
    while at < h.len()
        invariant
            at <= h.len(),
            marked(h@, digits@, digit_pattern()),
            prefix@ == issues_prefix(),
            first_issue_link(h@, 0) == first_issue_link(h@, at as int),
        decreases h.len() - at,
    {
        if stands_at(h, &prefix, at) {
            let start = at + prefix.len();
            let end = digits_stop(h, digits, start);
            if start < end && end < h.len() && h[end] == '/' {
                return Some((start, end));
            }
        }
        at = at + 1;
    }
    None
}

/// Finds the leftmost entry link of `h` behind `prefix`. `tokens` says which
/// characters of `h` may stand in a token.
pub fn find_entry_ref(h: &Vec<char>, tokens: &Vec<bool>, prefix: &Vec<char>) -> (r: Option<
    EntryMatch,
>)
    requires
        marked(h@, tokens@, token_pattern()),
    ensures
        match r {
            Some(m) => m.start <= m.end <= h.len() && first_entry_link(h@, prefix@, 0) == Some(
                EntryRef { token: h@.subrange(m.start as int, m.end as int), kind: m.kind },
            ),
            None => first_entry_link(h@, prefix@, 0) is None,
        },
{
    let mut txt: Vec<char> = Vec::new();
    txt.push('t');
    txt.push('x');
    txt.push('t');
    let mut pdf: Vec<char> = Vec::new();
    pdf.push('p');
    pdf.push('d');
    pdf.push('f');
    assert(txt@ =~= txt_suffix());
    assert(pdf@ =~= pdf_suffix());
    let mut at: usize = 0;
    while at < h.len()
        invariant
            at <= h.len(),
            marked(h@, tokens@, token_pattern()),
            txt@ == txt_suffix(),
            pdf@ == pdf_suffix(),
            first_entry_link(h@, prefix@, 0) == first_entry_link(h@, prefix@, at as int),
        decreases h.len() - at,
    {
        if stands_at(h, prefix, at) {
            let start = at + prefix.len();
            let end = token_stop(h, tokens, start);
            if start < end && end < h.len() && h[end] == '.' {
                if stands_at(h, &txt, end + 1) {
                    return Some(EntryMatch { start, end, kind: EntryKind::Text });
                }
                if stands_at(h, &pdf, end + 1) {
                    return Some(EntryMatch { start, end, kind: EntryKind::Pdf });
                }
            }
        }
        at = at + 1;
    }
    None
}

/// Copies the characters of `h` from `start` up to `end`.
pub fn slice_of(h: &Vec<char>, start: usize, end: usize) -> (part: Vec<char>)
    requires
        start <= end <= h.len(),
    ensures
        part@ == h@.subrange(start as int, end as int),
{
    let mut part: Vec<char> = Vec::new();
    let mut i: usize = start;
    while i < end
        invariant
            start <= i <= end <= h.len(),
            part@ == h@.subrange(start as int, i as int),
        decreases end - i,
    {
        part.push(h[i]);
        assert(part@ =~= h@.subrange(start as int, i + 1));
        i = i + 1;
    }
    part
}

} // verus!
