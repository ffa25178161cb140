//! Anchored wildcard matching where `*` matches any run of characters.

use vstd::prelude::*;

verus! {

/// Anchored, case-sensitive glob match: `*` in the pattern matches zero or
/// more arbitrary characters; every other pattern character matches itself.
pub open spec fn glob_match(pattern: Seq<char>, text: Seq<char>) -> bool
    decreases pattern.len(), text.len(),
{
    if pattern.len() == 0 {
        text.len() == 0
    } else if pattern[0] == '*' {
        glob_match(pattern.skip(1), text) || (text.len() > 0 && glob_match(
            pattern,
            text.skip(1),
        ))
    } else {
        text.len() > 0 && pattern[0] == text[0] && glob_match(pattern.skip(1), text.skip(1))
    }
}

/// A compiled wildcard pattern; matching is anchored (whole-string).
#[derive(Debug, PartialEq, Eq)]
pub struct Pattern {
    chars: Vec<char>,
}

impl View for Pattern {
    type V = Seq<char>;

    closed spec fn view(&self) -> Seq<char> {
        self.chars@
    }
}

impl Pattern {
    /// Compiles a pattern from its textual form; every character is kept.
    pub fn new(pattern: &str) -> (result: Pattern)
        ensures
            result@ == pattern@,
    {
        Pattern { chars: chars_of(pattern) }
    }

    /// Reports whether the whole of `text` matches this pattern.
    pub fn matches(&self, text: &str) -> (result: bool)
        ensures
            result == glob_match(self@, text@),
    {
        let text_chars = chars_of(text);
        let result = glob_match_at(&self.chars, 0, &text_chars, 0);
        assert(self.chars@.skip(0) =~= self.chars@);
        assert(text_chars@.skip(0) =~= text_chars@);
        result
    }
}

/// Collects the characters of a string slice into a vector.
pub fn chars_of(s: &str) -> (result: Vec<char>)
    ensures
        result@ == s@,
{
    let n = s.unicode_len();
    let mut result: Vec<char> = Vec::new();
    let mut i: usize = 0;
    while i < n
        invariant
            i <= n,
            n == s@.len(),
            result@ == s@.take(i as int),
        decreases n - i,
    {
        result.push(s.get_char(i));
        i = i + 1;
        assert(result@ =~= s@.take(i as int));
    }
    assert(s@.take(n as int) =~= s@);
    result
}

/// Position of the first occurrence of `c` at or after `from` in `s`,
/// as a character index.
pub fn find_from(s: &str, from: usize, c: char) -> (result: Option<usize>)
    requires
        from <= s@.len(),
    ensures
        match result {
            Some(i) => from <= i < s@.len() && s@[i as int] == c && (forall|j: int|
                from <= j < i ==> s@[j] != c),
            None => forall|j: int| from <= j < s@.len() ==> s@[j] != c,
        },
{
    let n = s.unicode_len();
    let mut i: usize = from;
    while i < n
        invariant
            from <= i <= n,
            n == s@.len(),
            forall|j: int| from <= j < i ==> s@[j] != c,
        decreases n - i,
    {
        if s.get_char(i) == c {
            return Some(i);
        }
        i = i + 1;
    }
    None
}

/// Matches the pattern suffix starting at `pi` against the text suffix
/// starting at `ti`, mirroring `glob_match` on the two suffixes.
fn glob_match_at(pattern: &Vec<char>, pi: usize, text: &Vec<char>, ti: usize) -> (result: bool)
    requires
        pi <= pattern.len(),
        ti <= text.len(),
    ensures
        result == glob_match(pattern@.skip(pi as int), text@.skip(ti as int)),
    decreases pattern.len() - pi, text.len() - ti,
{
    let ghost p = pattern@.skip(pi as int);
    let ghost t = text@.skip(ti as int);
    if pi == pattern.len() {
        ti == text.len()
    } else if pattern[pi] == '*' {
        assert(p[0] == pattern@[pi as int]);
        assert(p.skip(1) =~= pattern@.skip(pi as int + 1));
        if glob_match_at(pattern, pi + 1, text, ti) {
            true
        } else if ti < text.len() {
            let result = glob_match_at(pattern, pi, text, ti + 1);
            assert(t.skip(1) =~= text@.skip(ti as int + 1));
            result
        } else {
            false
        }
    } else {
        assert(p[0] == pattern@[pi as int]);
        if ti == text.len() {
            false
        } else if pattern[pi] == text[ti] {
            let result = glob_match_at(pattern, pi + 1, text, ti + 1);
            assert(t[0] == text@[ti as int]);
            assert(p.skip(1) =~= pattern@.skip(pi as int + 1));
            assert(t.skip(1) =~= text@.skip(ti as int + 1));
            result
        } else {
            assert(t[0] == text@[ti as int]);
            false
        }
    }
}

} // verus!
