//! What can be relied on of texts that are cut, joined or changed.

use vstd::prelude::*;

use crate::text::{
    ascii_lower, ascii_upper, contains_text, find_from, head, is_space, joined, lemma_find_from,
    lines_of, lower_char, occurs_at, replaced, split, split_once_at, tail, trimmed, trimmed_end,
    trimmed_start, upper_char, without_prefix, without_suffix,
};

verus! {

// ---------------------------------------------------------------------------
// White space and case
// ---------------------------------------------------------------------------

/// Whether a text is blank between two places.
pub open spec fn blank_between(s: Seq<char>, from: int, to: int) -> bool {
    forall|i: int| from <= i < to ==> is_space(#[trigger] s[i])
}

proof fn lemma_start(s: Seq<char>) -> (from: int)
    ensures
        0 <= from <= s.len(),
        trimmed_start(s) == s.skip(from),
        blank_between(s, 0, from),
        from < s.len() ==> !is_space(s[from]),
    decreases s.len(),
{
    if s.len() > 0 && is_space(s[0]) {
        let rest = s.drop_first();
        let k = lemma_start(rest);
        assert(rest.skip(k) =~= s.skip(k + 1));
        assert forall|i: int| 0 <= i < k + 1 implies is_space(#[trigger] s[i]) by {
            if i > 0 {
                assert(s[i] == rest[i - 1]);
            }
        }
        if k < rest.len() {
            assert(rest[k] == s[k + 1]);
        }
        k + 1
    } else {
        assert(s.skip(0) =~= s);
        0
    }
}

proof fn lemma_end(s: Seq<char>) -> (to: int)
    ensures
        0 <= to <= s.len(),
        trimmed_end(s) == s.take(to),
        blank_between(s, to, s.len() as int),
        to > 0 ==> !is_space(s[to - 1]),
    decreases s.len(),
{
    if s.len() > 0 && is_space(s.last()) {
        let rest = s.drop_last();
        let k = lemma_end(rest);
        assert(rest.take(k) =~= s.take(k));
        assert forall|i: int| k <= i < s.len() implies is_space(#[trigger] s[i]) by {
            if i < rest.len() {
                assert(s[i] == rest[i]);
            }
        }
        if k > 0 {
            assert(rest[k - 1] == s[k - 1]);
        }
        k
    } else {
        assert(s.take(s.len() as int) =~= s);
        s.len() as int
    }
}

/// Whether a text is a part of another, and all around it is blank.
pub open spec fn is_core(s: Seq<char>, core: Seq<char>, from: int, to: int) -> bool {
    &&& 0 <= from <= to <= s.len()
    &&& core == s.subrange(from, to)
    &&& blank_between(s, 0, from)
    &&& blank_between(s, to, s.len() as int)
}

/// Trimming takes white space away at both ends, all of it, and nothing else.
pub proof fn trimming_takes_only_white_space(s: Seq<char>)
    ensures
        exists|from: int, to: int| #[trigger] is_core(s, trimmed(s), from, to),
        trimmed(s).len() > 0 ==> !is_space(trimmed(s)[0]) && !is_space(trimmed(s).last()),
        trimmed(trimmed(s)) == trimmed(s),
        trimmed(s).len() == 0 <==> blank_between(s, 0, s.len() as int),
{
    let from = lemma_start(s);
    let rest = s.skip(from);
    let k = lemma_end(rest);
    let to = from + k;
    assert(rest.take(k) =~= s.subrange(from, to));
    assert forall|i: int| to <= i < s.len() implies is_space(#[trigger] s[i]) by {
        assert(rest[i - from] == s[i]);
    }
    assert(is_core(s, trimmed(s), from, to));
    let core = trimmed(s);
    if core.len() > 0 {
        assert(core[0] == s[from]);
        assert(core.last() == rest[k - 1]);
        assert(!is_space(s[from]));
        assert(trimmed_start(core) == core);
        assert(trimmed_end(core) == core);
    } else {
        assert forall|i: int| 0 <= i < s.len() implies is_space(#[trigger] s[i]) by {
            if i >= from {
                assert(rest[i - from] == s[i]);
            }
        }
    }
}

/// Changing the case of ASCII letters changes nothing else: character by character the
/// text stays as long as it is, and either case leads back to the other.
pub proof fn case_changes_letters_only(s: Seq<char>)
    ensures
        ascii_lower(s).len() == s.len(),
        ascii_upper(s).len() == s.len(),
        forall|i: int|
            0 <= i < s.len() && !('A' <= s[i] && s[i] <= 'Z') ==> #[trigger] ascii_lower(s)[i]
                == s[i],
        forall|i: int|
            0 <= i < s.len() && !('a' <= s[i] && s[i] <= 'z') ==> #[trigger] ascii_upper(s)[i]
                == s[i],
        forall|i: int|
            0 <= i < s.len() ==> !('A' <= #[trigger] ascii_lower(s)[i] && ascii_lower(s)[i]
                <= 'Z'),
        forall|i: int|
            0 <= i < s.len() ==> !('a' <= #[trigger] ascii_upper(s)[i] && ascii_upper(s)[i]
                <= 'z'),
        ascii_lower(ascii_upper(s)) == ascii_lower(s),
        ascii_upper(ascii_lower(s)) == ascii_upper(s),
        ascii_lower(ascii_lower(s)) == ascii_lower(s),
{
    assert forall|i: int| 0 <= i < s.len() implies ascii_lower(ascii_upper(s))[i] == ascii_lower(
        s,
    )[i] && ascii_upper(ascii_lower(s))[i] == ascii_upper(s)[i] && ascii_lower(ascii_lower(s))[i]
        == ascii_lower(s)[i] by {
        assert(lower_char(upper_char(s[i])) == lower_char(s[i]));
        assert(upper_char(lower_char(s[i])) == upper_char(s[i]));
        assert(lower_char(lower_char(s[i])) == lower_char(s[i]));
    }
    assert(ascii_lower(ascii_upper(s)) =~= ascii_lower(s));
    assert(ascii_upper(ascii_lower(s)) =~= ascii_upper(s));
    assert(ascii_lower(ascii_lower(s)) =~= ascii_lower(s));
}

// ---------------------------------------------------------------------------
// Pieces
// ---------------------------------------------------------------------------

proof fn lemma_joined_last(parts: Seq<Seq<char>>, sep: Seq<char>, c: char)
    requires
        parts.len() > 0,
    ensures
        joined(parts.drop_last().push(parts.last().push(c)), sep) == joined(parts, sep).push(c),
{
    let after = parts.drop_last().push(parts.last().push(c));
    if parts.len() == 1 {
        assert(after[0] == parts[0].push(c));
    } else {
        assert(after.drop_last() =~= parts.drop_last());
        assert(joined(after, sep) =~= joined(parts, sep).push(c));
    }
}

/// What is split can be joined again: the pieces with the separator between them are the
/// text, and no piece holds the separator.
pub proof fn pieces_make_up_the_text(s: Seq<char>, c: char)
    ensures
        joined(split(s, c), seq![c]) == s,
        split(s, c).len() > 0,
        forall|i: int| 0 <= i < split(s, c).len() ==> !(#[trigger] split(s, c)[i]).contains(c),
    decreases s.len(),
{
    let all = split(s, c);
    if s.len() == 0 {
        assert(all[0] =~= Seq::<char>::empty());
        assert(joined(all, seq![c]) =~= s);
    } else {
        let rest = s.drop_last();
        let before = split(rest, c);
        pieces_make_up_the_text(rest, c);
        assert(rest.push(s.last()) =~= s);
        if s.last() == c {
            assert(all.drop_last() =~= before);
            assert(joined(all, seq![c]) =~= joined(before, seq![c]) + seq![c] + Seq::<
                char,
            >::empty());
            assert(joined(all, seq![c]) =~= s);
            assert forall|i: int| 0 <= i < all.len() implies !(#[trigger] all[i]).contains(c) by {
                if i < before.len() {
                    assert(all[i] == before[i]);
                }
            }
        } else {
            lemma_joined_last(before, seq![c], s.last());
            assert forall|i: int| 0 <= i < all.len() implies !(#[trigger] all[i]).contains(c) by {
                if i < before.len() - 1 {
                    assert(all[i] == before[i]);
                } else {
                    let last = before[before.len() - 1];
                    assert(all[i] == last.push(s.last()));
                    if all[i].contains(c) {
                        let k = choose|k: int| 0 <= k < all[i].len() && all[i][k] == c;
                        assert(last[k] == c);
                        assert(last.contains(c));
                    }
                }
            }
        }
    }
}

/// What is joined holds each of its parts.
pub proof fn joined_text_holds_its_parts(parts: Seq<Seq<char>>, sep: Seq<char>, i: int)
    requires
        0 <= i < parts.len(),
    ensures
        contains_text(joined(parts, sep), parts[i]),
    decreases parts.len(),
{
    let all = joined(parts, sep);
    if parts.len() == 1 {
        assert(all.subrange(0, all.len() as int) =~= parts[i]);
        assert(occurs_at(all, parts[i], 0));
    } else {
        let before = joined(parts.drop_last(), sep);
        if i == parts.len() - 1 {
            let at = (before + sep).len() as int;
            assert(all.subrange(at, at + parts[i].len()) =~= parts[i]);
            assert(occurs_at(all, parts[i], at));
        } else {
            joined_text_holds_its_parts(parts.drop_last(), sep, i);
            assert(parts.drop_last()[i] == parts[i]);
            let at = choose|at: int| occurs_at(before, parts[i], at);
            assert(all.subrange(at, at + parts[i].len()) =~= before.subrange(
                at,
                at + parts[i].len(),
            ));
            assert(occurs_at(all, parts[i], at));
        }
    }
}

/// What stands in a text stands in every text around it.
pub proof fn held_text_stays_held(
    before: Seq<char>,
    s: Seq<char>,
    after: Seq<char>,
    part: Seq<char>,
)
    requires
        contains_text(s, part),
    ensures
        contains_text(before + s + after, part),
{
    let all = before + s + after;
    let i = choose|i: int| occurs_at(s, part, i);
    let at = before.len() + i;
    assert(all.subrange(at, at + part.len()) =~= s.subrange(i, i + part.len()));
    assert(occurs_at(all, part, at));
}

/// What is split at the first separator is the text before it and the text after it.
pub proof fn halves_make_up_the_text(s: Seq<char>, c: char)
    ensures
        split_once_at(s, c) is Some <==> s.contains(c),
        split_once_at(s, c) matches Some((key, value)) ==> key + seq![c] + value == s
            && !key.contains(c),
{
    lemma_find_from(s, seq![c], 0);
    match find_from(s, seq![c], 0) {
        Some(i) => {
            assert(s.subrange(i, i + 1)[0] == s[i]);
            assert(s[i] == c);
            assert(s.take(i) + seq![c] + s.skip(i + 1) =~= s);
            if s.take(i).contains(c) {
                let k = choose|k: int| 0 <= k < i && s.take(i)[k] == c;
                assert(s.subrange(k, k + 1) =~= seq![c]);
                assert(occurs_at(s, seq![c], k));
            }
        },
        None => {
            if s.contains(c) {
                let k = choose|k: int| 0 <= k < s.len() && s[k] == c;
                assert(s.subrange(k, k + 1) =~= seq![c]);
                assert(occurs_at(s, seq![c], k));
            }
        },
    }
}

/// What is left without a beginning or an end is the rest.
pub proof fn rest_completes_the_text(s: Seq<char>, part: Seq<char>)
    ensures
        without_prefix(s, part) matches Some(rest) ==> part + rest == s,
        without_suffix(s, part) matches Some(rest) ==> rest + part == s,
        without_prefix(part + s, part) == Some(s),
        without_suffix(s + part, part) == Some(s),
{
    if part.is_prefix_of(s) {
        assert(s.subrange(0, part.len() as int) =~= part);
        assert(part + s.skip(part.len() as int) =~= s);
    }
    if part.is_suffix_of(s) {
        assert(s.take(s.len() - part.len()) + part =~= s);
    }
    assert((part + s).subrange(0, part.len() as int) =~= part);
    assert((part + s).skip(part.len() as int) =~= s);
    assert((s + part).subrange((s + part).len() - part.len(), (s + part).len() as int) =~= part);
    assert((s + part).take((s + part).len() - part.len()) =~= s);
}

/// The first and the last characters of a text are its beginning and its end, as many as
/// are asked for or all that there are.
pub proof fn ends_of_text(s: Seq<char>, count: nat)
    ensures
        head(s, count).is_prefix_of(s),
        tail(s, count).is_suffix_of(s),
        head(s, count).len() == if s.len() < count {
            s.len()
        } else {
            count
        },
        tail(s, count).len() == head(s, count).len(),
{
    assert(s.subrange(0, head(s, count).len() as int) =~= head(s, count));
    assert(s.subrange(s.len() - tail(s, count).len(), s.len() as int) =~= tail(s, count));
}

/// Replacing puts one text in the place of another, and changes nothing where that does
/// not stand.
pub proof fn replacing_puts_one_text_for_another(s: Seq<char>, from: Seq<char>, to: Seq<char>)
    requires
        from.len() > 0,
    ensures
        !contains_text(s, from) ==> replaced(s, from, to) == s,
        replaced(from, from, to) == to,
        replaced(from + s, from, to) == to + replaced(s, from, to),
    decreases s.len(),
{
    let none = Seq::<char>::empty();
    assert(from.subrange(0, from.len() as int) =~= from);
    assert(from.skip(from.len() as int) =~= none);
    assert(replaced(none, from, to) == none);
    assert(occurs_at(from, from, 0));
    assert(replaced(from, from, to) == to + replaced(none, from, to));
    assert(to + none =~= to);
    assert((from + s).subrange(0, from.len() as int) =~= from);
    assert((from + s).skip(from.len() as int) =~= s);
    if !contains_text(s, from) && s.len() >= from.len() {
        assert(!occurs_at(s, from, 0));
        let rest = s.drop_first();
        assert(!contains_text(rest, from)) by {
            if contains_text(rest, from) {
                let i = choose|i: int| occurs_at(rest, from, i);
                assert(s.subrange(i + 1, i + 1 + from.len()) =~= rest.subrange(i, i + from.len()));
                assert(occurs_at(s, from, i + 1));
            }
        }
        replacing_puts_one_text_for_another(rest, from, to);
        assert(seq![s[0]] + rest =~= s);
    }
}

/// A placeholder does not stand in another one that differs from it.
pub proof fn placeholders_do_not_overlap(p: Seq<char>, q: Seq<char>, k: int)
    requires
        0 <= k < p.len(),
        k < q.len(),
        p[k] != q[k],
        q[0] == '{',
        forall|i: int| 1 <= i < p.len() ==> #[trigger] p[i] != '{',
    ensures
        !contains_text(p, q),
{
    if contains_text(p, q) {
        let i = choose|i: int| occurs_at(p, q, i);
        assert(p.subrange(i, i + q.len())[0] == p[i]);
        assert(i == 0);
        assert(p.subrange(0, q.len() as int)[k] == p[k]);
    }
}

/// A placeholder does not stand in a text without a brace.
pub proof fn plain_text_holds_no_placeholder(s: Seq<char>, q: Seq<char>)
    requires
        q.len() > 0,
        q[0] == '{',
        !s.contains('{'),
    ensures
        !contains_text(s, q),
{
    if contains_text(s, q) {
        let i = choose|i: int| occurs_at(s, q, i);
        assert(s.subrange(i, i + q.len())[0] == s[i]);
        assert(s.contains(s[i]));
    }
}

proof fn lemma_split_around(a: Seq<char>, c: char, b: Seq<char>)
    ensures
        split(a + seq![c] + b, c) == split(a, c) + split(b, c),
        split(b, c).len() > 0,
    decreases b.len(),
{
    let all = a + seq![c] + b;
    if b.len() == 0 {
        assert(all.drop_last() =~= a);
        assert(split(all, c) =~= split(a, c) + split(b, c));
    } else {
        lemma_split_around(a, c, b.drop_last());
        assert(all.drop_last() =~= a + seq![c] + b.drop_last());
        assert(all.last() == b.last());
        let before = split(a, c);
        let rest = split(b.drop_last(), c);
        if b.last() == c {
            assert((before + rest).push(Seq::<char>::empty()) =~= before + rest.push(
                Seq::<char>::empty(),
            ));
        } else {
            assert((before + rest).last() == rest.last());
            assert((before + rest).drop_last().push((before + rest).last().push(b.last()))
                =~= before + rest.drop_last().push(rest.last().push(b.last())));
        }
    }
}

/// A separator parts a text in two, and each part is split on its own.
pub proof fn separator_parts_the_text(a: Seq<char>, c: char, b: Seq<char>)
    ensures
        split(a + seq![c] + b, c) == split(a, c) + split(b, c),
        !a.contains(c) ==> split(a, c) == seq![a],
{
    lemma_split_around(a, c, b);
    if !a.contains(c) {
        lemma_unsplit(a, c);
    }
}

proof fn lemma_unsplit(a: Seq<char>, c: char)
    requires
        !a.contains(c),
    ensures
        split(a, c) == seq![a],
    decreases a.len(),
{
    if a.len() == 0 {
        assert(a =~= Seq::<char>::empty());
    } else {
        let shorter = a.drop_last();
        assert(a[a.len() - 1] != c);
        if shorter.contains(c) {
            let i = choose|i: int| 0 <= i < shorter.len() && shorter[i] == c;
            assert(a[i] == c);
        }
        lemma_unsplit(shorter, c);
        assert(shorter.push(a.last()) =~= a);
        assert(split(a, c) =~= seq![a]);
    }
}

/// A line is what stands before the end of the line, and what comes after it are the lines
/// that follow. A carriage return before the end belongs to the end.
pub proof fn lines_follow_one_another(line: Seq<char>, rest: Seq<char>)
    requires
        !line.contains('\n'),
    ensures
        line.len() == 0 || line.last() != '\r' ==> lines_of(line + seq!['\n'] + rest) == seq![line]
            + lines_of(rest),
        line.len() > 0 && line.last() == '\r' ==> lines_of(line + seq!['\n'] + rest) == seq![
            line.drop_last(),
        ] + lines_of(rest),
        line.len() > 0 ==> lines_of(line) == seq![line],
{
    separator_parts_the_text(line, '\n', rest);
    let after = split(rest, '\n');
    lemma_split_around(line, '\n', rest);
    let all = split(line + seq!['\n'] + rest, '\n');
    assert(all =~= seq![line] + after);
    assert(all.last() == after.last());
    let first = if line.len() > 0 && line.last() == '\r' {
        line.drop_last()
    } else {
        line
    };
    let wanted = seq![first] + lines_of(rest);
    let found = lines_of(line + seq!['\n'] + rest);
    assert forall|i: int| 0 <= i < found.len() implies found[i] == wanted[i] by {
        if i > 0 {
            assert(all[i] == after[i - 1]);
        }
    }
    assert(found =~= wanted);
    if line.len() > 0 {
        assert(split(line, '\n').last() == line);
        assert(lines_of(line) =~= seq![line]);
    }
}

} // verus!
