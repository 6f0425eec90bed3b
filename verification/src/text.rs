//! Text operations over `Seq<char>`, each with its exact meaning.

use vstd::prelude::*;
use vstd::slice::*;
use vstd::string::*;
use vstd::utf8::*;

pub mod laws;

verus! {

/// Appends one character, by `String::push`: the content grows by `c`.
#[verifier::external_body]
fn push_char(s: &mut String, c: char)
    ensures
        final(s)@ == old(s)@.push(c),
{
    s.push(c);
}

/// What a result holds: the content of its value, or of its message.
pub open spec fn outcome<T: DeepView>(r: Result<T, String>) -> Result<T::V, Seq<char>> {
    match r {
        Ok(value) => Ok(value.deep_view()),
        Err(message) => Err(message@),
    }
}

/// The characters of a text.
pub fn to_chars(s: &str) -> (out: Vec<char>)
    ensures
        out@ == s@,
{
    let mut out: Vec<char> = Vec::new();
    for c in it: s.chars()
        invariant
            it.seq() == s@,
            out@ == s@.take(it.index() as int),
    {
        proof {
            assert(s@.take(it.index() as int + 1) =~= s@.take(it.index() as int).push(c));
        }
        out.push(c);
    }
    proof {
        assert(s@.take(s@.len() as int) =~= s@);
    }
    out
}

/// The text with the given characters.
pub fn from_chars(chars: &[char]) -> (out: String)
    ensures
        out@ == chars@,
{
    let mut out = String::new();
    let mut i: usize = 0;
    while i < chars.len()
        invariant
            i <= chars@.len(),
            out@ == chars@.take(i as int),
        decreases chars@.len() - i,
    {
        push_char(&mut out, chars[i]);
        proof {
            assert(chars@.take(i as int + 1) =~= chars@.take(i as int).push(chars@[i as int]));
        }
        i += 1;
    }
    proof {
        assert(chars@.take(chars@.len() as int) =~= chars@);
    }
    out
}

/// Whether two texts hold the same characters.
pub fn same_text(a: &str, b: &str) -> (same: bool)
    ensures
        same == (a@ == b@),
{
    let left = to_chars(a);
    let right = to_chars(b);
    if left.len() != right.len() {
        return false;
    }
    let mut i: usize = 0;
    while i < left.len()
        invariant
            i <= left@.len(),
            left@.len() == right@.len(),
            left@ == a@,
            right@ == b@,
            forall|k: int| 0 <= k < i ==> left@[k] == right@[k],
        decreases left@.len() - i,
    {
        if left[i] != right[i] {
            return false;
        }
        i += 1;
    }
    proof {
        assert(left@ =~= right@);
    }
    true
}

/// The characters of `chars` from `lo` up to, not including, `hi`.
pub fn piece(chars: &Vec<char>, lo: usize, hi: usize) -> (out: String)
    requires
        lo <= hi <= chars@.len(),
    ensures
        out@ == chars@.subrange(lo as int, hi as int),
{
    from_chars(slice_subrange(chars.as_slice(), lo, hi))
}

/// One character as a text.
pub fn char_text(c: char) -> (out: String)
    ensures
        out@ == seq![c],
{
    let mut out = String::new();
    push_char(&mut out, c);
    proof {
        assert(out@ =~= seq![c]);
    }
    out
}

/// Appends one character.
pub fn append_char(s: &mut String, c: char)
    ensures
        final(s)@ == old(s)@.push(c),
{
    push_char(s, c);
}

// ---------------------------------------------------------------------------
// Character classes
// ---------------------------------------------------------------------------

/// Unicode's `White_Space` characters.
pub open spec fn is_space(c: char) -> bool {
    let u = c as u32;
    ||| 0x09 <= u <= 0x0d
    ||| u == 0x20
    ||| u == 0x85
    ||| u == 0xa0
    ||| u == 0x1680
    ||| 0x2000 <= u <= 0x200a
    ||| u == 0x2028
    ||| u == 0x2029
    ||| u == 0x202f
    ||| u == 0x205f
    ||| u == 0x3000
}

/// Whether `c` is a `White_Space` character.
pub fn space(c: char) -> (yes: bool)
    ensures
        yes == is_space(c),
{
    let u: u32 = c as u32;
    (0x09 <= u && u <= 0x0d) || u == 0x20 || u == 0x85 || u == 0xa0 || u == 0x1680 || (0x2000 <= u
        && u <= 0x200a) || u == 0x2028 || u == 0x2029 || u == 0x202f || u == 0x205f || u == 0x3000
}

pub open spec fn is_digit(c: char) -> bool {
    '0' <= c && c <= '9'
}

pub open spec fn is_ascii_letter(c: char) -> bool {
    ('a' <= c && c <= 'z') || ('A' <= c && c <= 'Z')
}

pub open spec fn is_alnum(c: char) -> bool {
    is_digit(c) || is_ascii_letter(c)
}

/// Whether `c` is one of `0` to `9`.
pub fn digit(c: char) -> (yes: bool)
    ensures
        yes == is_digit(c),
{
    '0' <= c && c <= '9'
}

/// Whether `c` is an ASCII letter or digit.
pub fn alnum(c: char) -> (yes: bool)
    ensures
        yes == is_alnum(c),
{
    ('0' <= c && c <= '9') || ('a' <= c && c <= 'z') || ('A' <= c && c <= 'Z')
}

pub open spec fn upper_char(c: char) -> char {
    if 'a' <= c && c <= 'z' {
        (c as u32 - 32) as char
    } else {
        c
    }
}

pub open spec fn lower_char(c: char) -> char {
    if 'A' <= c && c <= 'Z' {
        (c as u32 + 32) as char
    } else {
        c
    }
}

pub open spec fn ascii_upper(s: Seq<char>) -> Seq<char> {
    Seq::new(s.len(), |i: int| upper_char(s[i]))
}

pub open spec fn ascii_lower(s: Seq<char>) -> Seq<char> {
    Seq::new(s.len(), |i: int| lower_char(s[i]))
}

fn to_upper_char(c: char) -> (out: char)
    ensures
        out == upper_char(c),
{
    if 'a' <= c && c <= 'z' {
        (c as u8 - 32) as char
    } else {
        c
    }
}

fn to_lower_char(c: char) -> (out: char)
    ensures
        out == lower_char(c),
{
    if 'A' <= c && c <= 'Z' {
        (c as u8 + 32) as char
    } else {
        c
    }
}

/// The text with ASCII letters in upper case.
pub fn to_ascii_upper(s: &str) -> (out: String)
    ensures
        out@ == ascii_upper(s@),
{
    let chars = to_chars(s);
    let mut out = String::new();
    let mut i: usize = 0;
    while i < chars.len()
        invariant
            i <= chars@.len(),
            chars@ == s@,
            out@ =~= ascii_upper(s@).take(i as int),
        decreases chars@.len() - i,
    {
        push_char(&mut out, to_upper_char(chars[i]));
        i += 1;
    }
    proof {
        assert(out@ =~= ascii_upper(s@));
    }
    out
}

/// The text with ASCII letters in lower case.
pub fn to_ascii_lower(s: &str) -> (out: String)
    ensures
        out@ == ascii_lower(s@),
{
    let chars = to_chars(s);
    let mut out = String::new();
    let mut i: usize = 0;
    while i < chars.len()
        invariant
            i <= chars@.len(),
            chars@ == s@,
            out@ =~= ascii_lower(s@).take(i as int),
        decreases chars@.len() - i,
    {
        push_char(&mut out, to_lower_char(chars[i]));
        i += 1;
    }
    proof {
        assert(out@ =~= ascii_lower(s@));
    }
    out
}

// ---------------------------------------------------------------------------
// Trimming
// ---------------------------------------------------------------------------

pub open spec fn trimmed_start(s: Seq<char>) -> Seq<char>
    decreases s.len(),
{
    if s.len() > 0 && is_space(s[0]) {
        trimmed_start(s.drop_first())
    } else {
        s
    }
}

pub open spec fn trimmed_end(s: Seq<char>) -> Seq<char>
    decreases s.len(),
{
    if s.len() > 0 && is_space(s.last()) {
        trimmed_end(s.drop_last())
    } else {
        s
    }
}

/// The text without leading and trailing white space.
pub open spec fn trimmed(s: Seq<char>) -> Seq<char> {
    trimmed_end(trimmed_start(s))
}

/// The text without leading and trailing white space.
pub fn trim(s: &str) -> (out: String)
    ensures
        out@ == trimmed(s@),
{
    let chars = to_chars(s);
    let mut lo: usize = 0;
    proof {
        assert(s@.skip(0) =~= s@);
    }
    while lo < chars.len() && space(chars[lo])
        invariant
            lo <= chars@.len(),
            chars@ == s@,
            trimmed_start(s@) == trimmed_start(s@.skip(lo as int)),
        decreases chars@.len() - lo,
    {
        proof {
            assert(s@.skip(lo as int).drop_first() =~= s@.skip(lo as int + 1));
        }
        lo += 1;
    }
    let mut hi: usize = chars.len();
    proof {
        assert(s@.subrange(lo as int, hi as int) =~= s@.skip(lo as int));
    }
    while lo < hi && space(chars[hi - 1])
        invariant
            lo <= hi <= chars@.len(),
            chars@ == s@,
            trimmed_end(s@.skip(lo as int)) == trimmed_end(s@.subrange(lo as int, hi as int)),
        decreases hi,
    {
        proof {
            assert(s@.subrange(lo as int, hi as int).drop_last() =~= s@.subrange(
                lo as int,
                hi as int - 1,
            ));
        }
        hi -= 1;
    }
    piece(&chars, lo, hi)
}

pub open spec fn trimmed_end_of(s: Seq<char>, c: char) -> Seq<char>
    decreases s.len(),
{
    if s.len() > 0 && s.last() == c {
        trimmed_end_of(s.drop_last(), c)
    } else {
        s
    }
}

/// The text without the run of `c` at its end.
pub fn trim_end_of(s: &str, c: char) -> (out: String)
    ensures
        out@ == trimmed_end_of(s@, c),
{
    let chars = to_chars(s);
    let mut hi: usize = chars.len();
    proof {
        assert(s@.take(hi as int) =~= s@);
    }
    while 0 < hi && chars[hi - 1] == c
        invariant
            hi <= chars@.len(),
            chars@ == s@,
            trimmed_end_of(s@, c) == trimmed_end_of(s@.take(hi as int), c),
        decreases hi,
    {
        proof {
            assert(s@.take(hi as int).drop_last() =~= s@.take(hi as int - 1));
        }
        hi -= 1;
    }
    proof {
        assert(s@.subrange(0, hi as int) =~= s@.take(hi as int));
    }
    piece(&chars, 0, hi)
}

// ---------------------------------------------------------------------------
// Searching
// ---------------------------------------------------------------------------

/// Whether `pattern` stands in `s` at index `i`.
pub open spec fn occurs_at(s: Seq<char>, pattern: Seq<char>, i: int) -> bool {
    0 <= i && i + pattern.len() <= s.len() && s.subrange(i, i + pattern.len()) == pattern
}

/// Whether `pattern` stands anywhere in `s`.
pub open spec fn contains_text(s: Seq<char>, pattern: Seq<char>) -> bool {
    exists|i: int| occurs_at(s, pattern, i)
}

/// The first index, from `from` on, at which `pattern` stands.
pub open spec fn find_from(s: Seq<char>, pattern: Seq<char>, from: int) -> Option<int>
    decreases s.len() - from + 1,
{
    if from < 0 || from + pattern.len() > s.len() {
        None
    } else if occurs_at(s, pattern, from) {
        Some(from)
    } else {
        find_from(s, pattern, from + 1)
    }
}

/// Whether `pattern` stands in `chars` at index `i`.
pub fn matches_at(chars: &Vec<char>, pattern: &Vec<char>, i: usize) -> (yes: bool)
    ensures
        yes == occurs_at(chars@, pattern@, i as int),
{
    if i > chars.len() || pattern.len() > chars.len() - i {
        return false;
    }
    let mut k: usize = 0;
    while k < pattern.len()
        invariant
            k <= pattern@.len(),
            i + pattern@.len() <= chars.len(),
            forall|j: int| 0 <= j < k ==> #[trigger] pattern@[j] == chars@[i + j],
        decreases pattern@.len() - k,
    {
        if chars[i + k] != pattern[k] {
            proof {
                assert(chars@.subrange(i as int, i + pattern@.len())[k as int] == chars@[i + k]);
            }
            return false;
        }
        k += 1;
    }
    proof {
        assert(chars@.subrange(i as int, i + pattern@.len()) =~= pattern@);
    }
    true
}

/// The first index, from `from` on, at which `pattern` stands in `chars`.
pub fn find(chars: &Vec<char>, pattern: &Vec<char>, from: usize) -> (at: Option<usize>)
    ensures
        match at {
            Some(i) => find_from(chars@, pattern@, from as int) == Some(i as int),
            None => find_from(chars@, pattern@, from as int) is None,
        },
        at matches Some(i) ==> from <= i && occurs_at(chars@, pattern@, i as int),
{
    let mut i: usize = from;
    while i <= chars.len() && pattern.len() <= chars.len() - i
        invariant
            from <= i,
            find_from(chars@, pattern@, from as int) == find_from(chars@, pattern@, i as int),
        decreases chars@.len() + 1 - i,
    {
        if matches_at(chars, pattern, i) {
            return Some(i);
        }
        if i == chars.len() {
            proof {
                assert(find_from(chars@, pattern@, i as int + 1) is None);
            }
            return None;
        }
        i += 1;
    }
    None
}

/// A pattern is found from `from` on exactly where it stands at or after it.
pub proof fn lemma_find_from(s: Seq<char>, pattern: Seq<char>, from: int)
    requires
        0 <= from,
    ensures
        find_from(s, pattern, from) is Some <==> exists|i: int|
            from <= i && occurs_at(s, pattern, i),
        find_from(s, pattern, from) matches Some(k) ==> from <= k && occurs_at(s, pattern, k)
            && forall|j: int| from <= j < k ==> !occurs_at(s, pattern, j),
    decreases s.len() - from + 1,
{
    if from + pattern.len() <= s.len() && !occurs_at(s, pattern, from) {
        lemma_find_from(s, pattern, from + 1);
        assert forall|i: int| from <= i && occurs_at(s, pattern, i) implies from + 1 <= i by {
            assert(i != from);
        }
    }
}

/// Whether `pattern` stands anywhere in the text.
pub fn has_text(s: &str, pattern: &str) -> (yes: bool)
    ensures
        yes == contains_text(s@, pattern@),
{
    let chars = to_chars(s);
    let wanted = to_chars(pattern);
    proof {
        lemma_find_from(s@, pattern@, 0);
        assert(contains_text(s@, pattern@) <==> exists|i: int|
            0 <= i && occurs_at(s@, pattern@, i));
    }
    find(&chars, &wanted, 0).is_some()
}

/// Whether the text holds the character.
pub fn has_char(s: &str, c: char) -> (yes: bool)
    ensures
        yes == s@.contains(c),
{
    let chars = to_chars(s);
    let mut i: usize = 0;
    while i < chars.len()
        invariant
            i <= chars@.len(),
            chars@ == s@,
            forall|k: int| 0 <= k < i ==> s@[k] != c,
        decreases chars@.len() - i,
    {
        if chars[i] == c {
            return true;
        }
        i += 1;
    }
    false
}

/// Whether the text begins with `prefix`.
pub fn begins_with(s: &str, prefix: &str) -> (yes: bool)
    ensures
        yes == prefix@.is_prefix_of(s@),
{
    let chars = to_chars(s);
    let wanted = to_chars(prefix);
    matches_at(&chars, &wanted, 0)
}

/// Whether the text ends with `suffix`.
pub fn finishes_with(s: &str, suffix: &str) -> (yes: bool)
    ensures
        yes == suffix@.is_suffix_of(s@),
{
    let chars = to_chars(s);
    let wanted = to_chars(suffix);
    if wanted.len() > chars.len() {
        return false;
    }
    matches_at(&chars, &wanted, chars.len() - wanted.len())
}

/// What follows `prefix`, where the text begins with it.
pub open spec fn without_prefix(s: Seq<char>, prefix: Seq<char>) -> Option<Seq<char>> {
    if prefix.is_prefix_of(s) {
        Some(s.skip(prefix.len() as int))
    } else {
        None
    }
}

/// What stands before `suffix`, where the text ends with it.
pub open spec fn without_suffix(s: Seq<char>, suffix: Seq<char>) -> Option<Seq<char>> {
    if suffix.is_suffix_of(s) {
        Some(s.take(s.len() - suffix.len()))
    } else {
        None
    }
}

/// What follows `prefix`, where the text begins with it.
pub fn strip_prefix(s: &str, prefix: &str) -> (rest: Option<String>)
    ensures
        rest.deep_view() == without_prefix(s@, prefix@),
{
    let chars = to_chars(s);
    let wanted = to_chars(prefix);
    if matches_at(&chars, &wanted, 0) {
        proof {
            assert(s@.subrange(prefix@.len() as int, s@.len() as int) =~= s@.skip(
                prefix@.len() as int,
            ));
        }
        Some(piece(&chars, wanted.len(), chars.len()))
    } else {
        None
    }
}

/// What stands before `suffix`, where the text ends with it.
pub fn strip_suffix(s: &str, suffix: &str) -> (rest: Option<String>)
    ensures
        rest.deep_view() == without_suffix(s@, suffix@),
{
    let chars = to_chars(s);
    let wanted = to_chars(suffix);
    if wanted.len() <= chars.len() && matches_at(&chars, &wanted, chars.len() - wanted.len()) {
        proof {
            assert(s@.subrange(0, s@.len() - suffix@.len()) =~= s@.take(s@.len() - suffix@.len()));
        }
        Some(piece(&chars, 0, chars.len() - wanted.len()))
    } else {
        None
    }
}

// ---------------------------------------------------------------------------
// Splitting, joining, replacing
// ---------------------------------------------------------------------------

/// The pieces of `s` between the occurrences of `c`.
pub open spec fn split(s: Seq<char>, c: char) -> Seq<Seq<char>>
    decreases s.len(),
{
    if s.len() == 0 {
        seq![Seq::<char>::empty()]
    } else {
        let before = split(s.drop_last(), c);
        if s.last() == c {
            before.push(Seq::<char>::empty())
        } else {
            before.drop_last().push(before.last().push(s.last()))
        }
    }
}

/// The pieces of the text between the occurrences of `c`.
pub fn split_at_char(s: &str, c: char) -> (pieces: Vec<String>)
    ensures
        pieces.deep_view() == split(s@, c),
        pieces@.len() > 0,
{
    let chars = to_chars(s);
    let mut pieces: Vec<String> = Vec::new();
    let mut current = String::new();
    let mut i: usize = 0;
    proof {
        assert(pieces.deep_view().push(current@) =~= split(s@.take(0), c));
    }
    while i < chars.len()
        invariant
            i <= chars@.len(),
            chars@ == s@,
            pieces.deep_view().push(current@) == split(s@.take(i as int), c),
        decreases chars@.len() - i,
    {
        let ghost before = pieces.deep_view();
        let ghost word = current@;
        proof {
            assert(s@.take(i as int + 1).drop_last() =~= s@.take(i as int));
            assert(before.push(word).drop_last() =~= before);
        }
        if chars[i] == c {
            pieces.push(current);
            current = String::new();
            proof {
                assert(pieces.deep_view() =~= before.push(word));
            }
        } else {
            push_char(&mut current, chars[i]);
        }
        i += 1;
    }
    let ghost before = pieces.deep_view();
    pieces.push(current);
    proof {
        assert(s@.take(s@.len() as int) =~= s@);
        assert(pieces.deep_view() =~= before.push(current@));
    }
    pieces
}

/// The parts before and after the first `c`.
pub open spec fn split_once_at(s: Seq<char>, c: char) -> Option<(Seq<char>, Seq<char>)> {
    match find_from(s, seq![c], 0) {
        Some(i) => Some((s.take(i), s.skip(i + 1))),
        None => None,
    }
}

/// The parts before and after the first `c`.
pub fn split_once(s: &str, c: char) -> (parts: Option<(String, String)>)
    ensures
        parts.deep_view() == split_once_at(s@, c),
{
    let chars = to_chars(s);
    let mut wanted: Vec<char> = Vec::new();
    wanted.push(c);
    proof {
        assert(wanted@ =~= seq![c]);
    }
    match find(&chars, &wanted, 0) {
        Some(i) => {
            let total: usize = chars.len();
            let parts = (piece(&chars, 0, i), piece(&chars, i + 1, total));
            proof {
                assert(parts.0@ =~= s@.take(i as int));
                assert(parts.1@ =~= s@.skip(i as int + 1));
            }
            Some(parts)
        },
        None => None,
    }
}

/// A line without the carriage return at its end.
pub open spec fn without_cr(s: Seq<char>) -> Seq<char> {
    if s.len() > 0 && s.last() == '\r' {
        s.drop_last()
    } else {
        s
    }
}

/// The lines of a text: each ends with a line feed, alone or after a carriage
/// return; the last may end with the text.
pub open spec fn lines_of(s: Seq<char>) -> Seq<Seq<char>> {
    let pieces = split(s, '\n');
    let ended = Seq::new((pieces.len() - 1) as nat, |i: int| without_cr(pieces[i]));
    if pieces.last().len() == 0 {
        ended
    } else {
        ended.push(pieces.last())
    }
}

/// The lines of a text.
pub fn lines(s: &str) -> (out: Vec<String>)
    ensures
        out.deep_view() == lines_of(s@),
{
    let pieces = split_at_char(s, '\n');
    let mut out: Vec<String> = Vec::new();
    let mut i: usize = 0;
    let ghost all = split(s@, '\n');
    while i < pieces.len() - 1
        invariant
            i < pieces@.len(),
            pieces.deep_view() == all,
            out.deep_view() =~= Seq::new(i as nat, |k: int| without_cr(all[k])),
        decreases pieces@.len() - i,
    {
        let ghost before = out.deep_view();
        let line = pieces[i].as_str();
        proof {
            assert(all[i as int] == pieces@[i as int]@);
            reveal_strlit("\r");
            assert("\r"@ =~= seq!['\r']);
            let w = line@;
            if "\r"@.is_suffix_of(w) {
                assert(w.subrange(w.len() - 1, w.len() as int)[0] == w.last());
                assert(w.take(w.len() - 1) =~= w.drop_last());
            } else if w.len() > 0 && w.last() == '\r' {
                assert(w.subrange(w.len() - 1, w.len() as int) =~= "\r"@);
            }
        }
        match strip_suffix(line, "\r") {
            Some(rest) => {
                out.push(rest);
            },
            None => {
                out.push(line.to_owned());
            },
        }
        proof {
            assert(out.deep_view() =~= before.push(without_cr(all[i as int])));
        }
        i += 1;
    }
    let last = pieces[pieces.len() - 1].as_str();
    proof {
        assert(all.last() == last@);
    }
    if !last.is_empty() {
        let ghost before = out.deep_view();
        out.push(last.to_owned());
        proof {
            assert(out.deep_view() =~= before.push(last@));
        }
    }
    out
}

/// The texts one after another, with `sep` between them.
pub open spec fn joined(parts: Seq<Seq<char>>, sep: Seq<char>) -> Seq<char>
    decreases parts.len(),
{
    if parts.len() == 0 {
        Seq::empty()
    } else if parts.len() == 1 {
        parts[0]
    } else {
        joined(parts.drop_last(), sep) + sep + parts.last()
    }
}

/// The texts one after another, with `sep` between them.
pub fn join(parts: &Vec<String>, sep: &str) -> (out: String)
    ensures
        out@ == joined(parts.deep_view(), sep@),
{
    let mut out = String::new();
    let mut i: usize = 0;
    let ghost all = parts.deep_view();
    while i < parts.len()
        invariant
            i <= parts@.len(),
            all == parts.deep_view(),
            out@ == joined(all.take(i as int), sep@),
        decreases parts@.len() - i,
    {
        proof {
            assert(all[i as int] == parts@[i as int]@);
            assert(all.take(i as int + 1).drop_last() =~= all.take(i as int));
            assert(Seq::<char>::empty() + all[i as int] =~= all[i as int]);
        }
        if i > 0 {
            out.append(sep);
        }
        out.append(parts[i].as_str());
        i += 1;
    }
    proof {
        assert(all.take(all.len() as int) =~= all);
    }
    out
}

/// Whether one of the texts is `wanted`.
pub fn one_of(texts: &Vec<&str>, wanted: &str) -> (yes: bool)
    ensures
        yes == texts.deep_view().contains(wanted@),
{
    let mut i: usize = 0;
    while i < texts.len()
        invariant
            i <= texts@.len(),
            forall|k: int| 0 <= k < i ==> texts.deep_view()[k] != wanted@,
        decreases texts@.len() - i,
    {
        if same_text(texts[i], wanted) {
            proof {
                assert(texts.deep_view()[i as int] == wanted@);
            }
            return true;
        }
        i += 1;
    }
    false
}

/// Whether one of the texts is `wanted`.
pub fn holds_text(texts: &Vec<String>, wanted: &str) -> (yes: bool)
    ensures
        yes == texts.deep_view().contains(wanted@),
{
    let mut i: usize = 0;
    while i < texts.len()
        invariant
            i <= texts@.len(),
            forall|k: int| 0 <= k < i ==> texts.deep_view()[k] != wanted@,
        decreases texts@.len() - i,
    {
        if same_text(texts[i].as_str(), wanted) {
            proof {
                assert(texts.deep_view()[i as int] == wanted@);
            }
            return true;
        }
        i += 1;
    }
    false
}

/// The same texts, owned.
pub fn owned_texts(texts: &Vec<&str>) -> (out: Vec<String>)
    ensures
        out.deep_view() == texts.deep_view(),
{
    let mut out: Vec<String> = Vec::new();
    let mut i: usize = 0;
    while i < texts.len()
        invariant
            i <= texts@.len(),
            out.deep_view() =~= texts.deep_view().take(i as int),
        decreases texts@.len() - i,
    {
        let ghost before = out.deep_view();
        out.push(texts[i].to_owned());
        proof {
            assert(out.deep_view() =~= before.push(texts@[i as int]@));
        }
        i += 1;
    }
    proof {
        assert(out.deep_view() =~= texts.deep_view());
    }
    out
}

/// `s` with each occurrence of `from`, taken from the left, replaced by `to`.
pub open spec fn replaced(s: Seq<char>, from: Seq<char>, to: Seq<char>) -> Seq<char>
    decreases s.len(),
{
    if from.len() == 0 || s.len() < from.len() {
        s
    } else if occurs_at(s, from, 0) {
        to + replaced(s.skip(from.len() as int), from, to)
    } else {
        seq![s[0]] + replaced(s.drop_first(), from, to)
    }
}

/// The text with each occurrence of `from`, taken from the left, replaced by
/// `to`.
pub fn replace(s: &str, from: &str, to: &str) -> (out: String)
    requires
        from@.len() > 0,
    ensures
        out@ == replaced(s@, from@, to@),
{
    let chars = to_chars(s);
    let wanted = to_chars(from);
    let mut out = String::new();
    let mut i: usize = 0;
    proof {
        assert(s@.skip(0) =~= s@);
        assert(out@ + replaced(s@.skip(0), from@, to@) =~= replaced(s@, from@, to@));
    }
    while i < chars.len()
        invariant
            i <= chars@.len(),
            chars@ == s@,
            wanted@ == from@,
            from@.len() > 0,
            out@ + replaced(s@.skip(i as int), from@, to@) == replaced(s@, from@, to@),
        decreases chars@.len() - i,
    {
        let ghost rest = s@.skip(i as int);
        let ghost done = out@;
        if matches_at(&chars, &wanted, i) {
            proof {
                assert(rest.subrange(0, from@.len() as int) =~= s@.subrange(
                    i as int,
                    i + from@.len(),
                ));
                assert(rest.skip(from@.len() as int) =~= s@.skip(i + from@.len()));
                let tail = replaced(s@.skip(i + from@.len()), from@, to@);
                assert(done + (to@ + tail) =~= (done + to@) + tail);
            }
            out.append(to);
            i += wanted.len();
        } else {
            proof {
                if rest.len() >= from@.len() {
                    assert(rest.subrange(0, from@.len() as int) =~= s@.subrange(
                        i as int,
                        i + from@.len(),
                    ));
                    assert(rest.drop_first() =~= s@.skip(i + 1));
                    let tail = replaced(s@.skip(i + 1), from@, to@);
                    assert(done + (seq![rest[0]] + tail) =~= done.push(rest[0]) + tail);
                } else {
                    assert(s@.skip(i + 1) =~= rest.drop_first());
                    assert(done + rest =~= done.push(rest[0]) + rest.drop_first());
                }
            }
            push_char(&mut out, chars[i]);
            i += 1;
        }
    }
    proof {
        assert(s@.skip(i as int) =~= Seq::<char>::empty());
        assert(out@ + Seq::<char>::empty() =~= out@);
    }
    out
}

/// Whether a word begins at index `i`: no white space there, and white space
/// or nothing before it.
pub open spec fn word_begins(s: Seq<char>, i: int) -> bool {
    0 <= i < s.len() && !is_space(s[i]) && (i == 0 || is_space(s[i - 1]))
}

/// How many words the text has.
pub open spec fn words_in(s: Seq<char>) -> nat
    decreases s.len(),
{
    if s.len() == 0 {
        0
    } else {
        words_in(s.drop_last()) + (if word_begins(s, s.len() - 1) {
            1nat
        } else {
            0nat
        })
    }
}

/// How many words the text has.
pub fn count_words(s: &str) -> (count: usize)
    ensures
        count == words_in(s@),
{
    let chars = to_chars(s);
    let mut count: usize = 0;
    let mut i: usize = 0;
    while i < chars.len()
        invariant
            i <= chars@.len(),
            chars@ == s@,
            count <= i,
            count == words_in(s@.take(i as int)),
        decreases chars@.len() - i,
    {
        proof {
            assert(s@.take(i as int + 1).drop_last() =~= s@.take(i as int));
        }
        if !space(chars[i]) && (i == 0 || space(chars[i - 1])) {
            count += 1;
        }
        i += 1;
    }
    proof {
        assert(s@.take(s@.len() as int) =~= s@);
    }
    count
}

/// The last `count` characters, or the whole text where it has no more.
pub open spec fn tail(s: Seq<char>, count: nat) -> Seq<char> {
    if s.len() <= count {
        s
    } else {
        s.skip(s.len() - count)
    }
}

/// The last `count` characters, or the whole text where it has no more.
pub fn tail_chars(s: &str, count: usize) -> (out: String)
    ensures
        out@ == tail(s@, count as nat),
{
    let chars = to_chars(s);
    if chars.len() <= count {
        return s.to_owned();
    }
    proof {
        assert(s@.subrange(s@.len() - count, s@.len() as int) =~= s@.skip(s@.len() - count));
    }
    piece(&chars, chars.len() - count, chars.len())
}

/// The first `count` characters, or the whole text where it has no more.
pub open spec fn head(s: Seq<char>, count: nat) -> Seq<char> {
    if s.len() <= count {
        s
    } else {
        s.take(count as int)
    }
}

/// The first `count` characters, or the whole text where it has no more.
pub fn head_chars(s: &str, count: usize) -> (out: String)
    ensures
        out@ == head(s@, count as nat),
{
    let chars = to_chars(s);
    if chars.len() <= count {
        return s.to_owned();
    }
    proof {
        assert(s@.subrange(0, count as int) =~= s@.take(count as int));
    }
    piece(&chars, 0, count)
}

// ---------------------------------------------------------------------------
// Lengths in bytes
// ---------------------------------------------------------------------------

/// The length of a text in UTF-8.
pub open spec fn byte_len(s: Seq<char>) -> nat {
    encode_utf8(s).len()
}

/// The longest beginning of a text that takes at most `max` bytes.
pub open spec fn byte_head(s: Seq<char>, max: nat) -> Seq<char>
    decreases s.len(),
{
    if byte_len(s) <= max || s.len() == 0 {
        s
    } else {
        byte_head(s.drop_last(), max)
    }
}

pub open spec fn char_width(c: char) -> nat {
    let u = c as u32;
    if u < 0x80 {
        1
    } else if u < 0x800 {
        2
    } else if u < 0x1_0000 {
        3
    } else {
        4
    }
}

proof fn lemma_byte_len_push(s: Seq<char>, c: char)
    ensures
        byte_len(s.push(c)) == byte_len(s) + char_width(c),
    decreases s.len(),
{
    let pushed = s.push(c);
    if s.len() == 0 {
        assert(pushed.drop_first() =~= Seq::<char>::empty());
        assert(encode_utf8(pushed.drop_first()).len() == 0);
    } else {
        assert(pushed.drop_first() =~= s.drop_first().push(c));
        assert(pushed[0] == s[0]);
        lemma_byte_len_push(s.drop_first(), c);
    }
}

proof fn lemma_byte_len_take(s: Seq<char>, k: int)
    requires
        0 <= k <= s.len(),
    ensures
        byte_len(s.take(k)) <= byte_len(s),
    decreases s.len() - k,
{
    if k < s.len() {
        lemma_byte_len_push(s.take(k), s[k]);
        assert(s.take(k).push(s[k]) =~= s.take(k + 1));
        lemma_byte_len_take(s, k + 1);
    } else {
        assert(s.take(k) =~= s);
    }
}

proof fn lemma_byte_head(s: Seq<char>, max: nat, k: int)
    requires
        0 <= k <= s.len(),
        byte_len(s.take(k)) <= max,
        k < s.len() ==> byte_len(s.take(k + 1)) > max,
    ensures
        byte_head(s, max) == s.take(k),
    decreases s.len() - k,
{
    if k == s.len() {
        assert(s.take(k) =~= s);
    } else {
        lemma_byte_len_take(s, k + 1);
        let shorter = s.drop_last();
        assert(shorter.take(k) =~= s.take(k));
        if k + 1 < s.len() {
            assert(shorter.take(k + 1) =~= s.take(k + 1));
        }
        lemma_byte_head(shorter, max, k);
    }
}

fn width(c: char) -> (bytes: usize)
    ensures
        bytes == char_width(c),
        1 <= bytes <= 4,
{
    let u: u32 = c as u32;
    if u < 0x80 {
        1
    } else if u < 0x800 {
        2
    } else if u < 0x1_0000 {
        3
    } else {
        4
    }
}

/// The longest beginning of a text that takes at most `max_bytes` bytes.
pub fn truncate_bytes(s: &str, max_bytes: usize) -> (out: String)
    ensures
        out@ == byte_head(s@, max_bytes as nat),
{
    let chars = to_chars(s);
    let mut used: usize = 0;
    let mut i: usize = 0;
    proof {
        assert(s@.take(0) =~= Seq::<char>::empty());
    }
    while i < chars.len()
        invariant
            i <= chars@.len(),
            chars@ == s@,
            used <= max_bytes,
            used == byte_len(s@.take(i as int)),
        decreases chars@.len() - i,
    {
        let w: usize = width(chars[i]);
        proof {
            lemma_byte_len_push(s@.take(i as int), s@[i as int]);
            assert(s@.take(i as int).push(s@[i as int]) =~= s@.take(i as int + 1));
        }
        if w > max_bytes - used {
            proof {
                lemma_byte_head(s@, max_bytes as nat, i as int);
                assert(s@.subrange(0, i as int) =~= s@.take(i as int));
            }
            return piece(&chars, 0, i);
        }
        used += w;
        i += 1;
    }
    proof {
        lemma_byte_head(s@, max_bytes as nat, i as int);
        assert(s@.take(i as int) =~= s@);
    }
    s.to_owned()
}

/// A truncated text never takes more than its limit, and is the whole text
/// where that fits.
pub proof fn truncated_text_fits(s: Seq<char>, max: nat)
    ensures
        byte_len(byte_head(s, max)) <= max,
        byte_head(s, max).is_prefix_of(s),
        byte_len(s) <= max ==> byte_head(s, max) == s,
    decreases s.len(),
{
    if byte_len(s) > max && s.len() > 0 {
        truncated_text_fits(s.drop_last(), max);
    }
}

// ---------------------------------------------------------------------------
// Order
// ---------------------------------------------------------------------------

/// Whether `a` comes before `b`: at the first difference it has the lesser
/// character, or it is a beginning of `b`.
pub open spec fn comes_before(a: Seq<char>, b: Seq<char>) -> bool
    decreases a.len(),
{
    if b.len() == 0 {
        false
    } else if a.len() == 0 {
        true
    } else if a[0] == b[0] {
        comes_before(a.drop_first(), b.drop_first())
    } else {
        a[0] < b[0]
    }
}

/// Whether `a` comes before `b`.
pub fn text_before(a: &str, b: &str) -> (yes: bool)
    ensures
        yes == comes_before(a@, b@),
{
    let left = to_chars(a);
    let right = to_chars(b);
    let mut i: usize = 0;
    proof {
        assert(a@.skip(0) =~= a@);
        assert(b@.skip(0) =~= b@);
    }
    while i < left.len() && i < right.len()
        invariant
            i <= left@.len(),
            i <= right@.len(),
            left@ == a@,
            right@ == b@,
            comes_before(a@, b@) == comes_before(a@.skip(i as int), b@.skip(i as int)),
        decreases left@.len() - i,
    {
        proof {
            assert(a@.skip(i as int)[0] == a@[i as int]);
            assert(b@.skip(i as int)[0] == b@[i as int]);
            assert(a@.skip(i as int).drop_first() =~= a@.skip(i as int + 1));
            assert(b@.skip(i as int).drop_first() =~= b@.skip(i as int + 1));
        }
        if left[i] != right[i] {
            return left[i] < right[i];
        }
        i += 1;
    }
    i < right.len()
}

pub proof fn lemma_before_total(a: Seq<char>, b: Seq<char>)
    ensures
        comes_before(a, b) || comes_before(b, a) || a == b,
        !(comes_before(a, b) && comes_before(b, a)),
        !comes_before(a, a),
    decreases a.len(),
{
    if a.len() > 0 && b.len() > 0 && a[0] == b[0] {
        lemma_before_total(a.drop_first(), b.drop_first());
        if a.drop_first() == b.drop_first() {
            assert(a =~= seq![a[0]] + a.drop_first());
            assert(b =~= seq![b[0]] + b.drop_first());
        }
    } else if a.len() == 0 && b.len() == 0 {
        assert(a =~= b);
    }
    if a.len() > 0 {
        lemma_before_irreflexive(a);
    }
}

proof fn lemma_before_irreflexive(a: Seq<char>)
    ensures
        !comes_before(a, a),
    decreases a.len(),
{
    if a.len() > 0 {
        lemma_before_irreflexive(a.drop_first());
    }
}

pub proof fn lemma_before_transitive(a: Seq<char>, b: Seq<char>, c: Seq<char>)
    requires
        comes_before(a, b),
        comes_before(b, c),
    ensures
        comes_before(a, c),
    decreases a.len(),
{
    if a.len() > 0 && b.len() > 0 && c.len() > 0 && a[0] == b[0] && b[0] == c[0] {
        lemma_before_transitive(a.drop_first(), b.drop_first(), c.drop_first());
    }
}

} // verus!
