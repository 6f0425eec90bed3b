//! Running commands whose output carries marked results.

use vstd::prelude::*;
use vstd::string::*;

use crate::duration::Duration;
use crate::number::{i64_text, signed_decimal, u128_text, decimal};
use crate::text::laws::joined_text_holds_its_parts;
use crate::text::{
    contains_text, find, find_from, join, joined, lemma_find_from, lines, lines_of, occurs_at, outcome, piece,
    tail, tail_chars, to_chars, trim, trimmed,
};

verus! {

pub const OUTPUT_START_MARKER: &'static str = "---NANOCLAW_OUTPUT_START---";

pub const OUTPUT_END_MARKER: &'static str = "---NANOCLAW_OUTPUT_END---";

#[derive(Debug, Clone, Copy, PartialEq, Eq, Structural)]
pub enum ContainerOutputStatus {
    Success,
    Error,
}

/// One marked result.
#[derive(Debug, PartialEq, Eq)]
pub struct ContainerOutput {
    pub status: ContainerOutputStatus,
    pub result: Option<String>,
    pub new_session_id: Option<String>,
    pub error: Option<String>,
}

/// What a marked result holds.
pub struct OutputView {
    pub status: ContainerOutputStatus,
    pub result: Option<Seq<char>>,
    pub new_session_id: Option<Seq<char>>,
    pub error: Option<Seq<char>>,
}

impl DeepView for ContainerOutput {
    type V = OutputView;

    open spec fn deep_view(&self) -> OutputView {
        OutputView {
            status: self.status,
            result: self.result.deep_view(),
            new_session_id: self.new_session_id.deep_view(),
            error: self.error.deep_view(),
        }
    }
}

// ---------------------------------------------------------------------------
// Frames
// ---------------------------------------------------------------------------

pub open spec fn start_marker() -> Seq<char> {
    "---NANOCLAW_OUTPUT_START---"@
}

pub open spec fn end_marker() -> Seq<char> {
    "---NANOCLAW_OUTPUT_END---"@
}

pub proof fn lemma_markers()
    ensures
        start_marker().len() == 27,
        end_marker().len() == 25,
{
    reveal_strlit("---NANOCLAW_OUTPUT_START---");
    reveal_strlit("---NANOCLAW_OUTPUT_END---");
}

/// The payloads between start and end markers, without surrounding white space,
/// and what is kept of the text for later: an unfinished frame, or the last
/// characters, in which a start marker may begin.
pub open spec fn frames(s: Seq<char>) -> (Seq<Seq<char>>, Seq<char>)
    decreases s.len(),
{
    match find_from(s, start_marker(), 0) {
        None => (Seq::empty(), tail(s, start_marker().len())),
        Some(i) => match find_from(s, end_marker(), i + start_marker().len()) {
            None => (Seq::empty(), s.skip(i)),
            Some(j) => {
                proof {
                    lemma_markers();
                    lemma_find_from(s, start_marker(), 0);
                    lemma_find_from(s, end_marker(), i + start_marker().len());
                }
                let (more, kept) = frames(s.skip(j + end_marker().len()));
                (seq![trimmed(s.subrange(i + start_marker().len(), j))] + more, kept)
            },
        },
    }
}

/// Finds the framed payloads in text that comes in pieces.
#[derive(Debug)]
pub struct OutputMarkerParser {
    buffer: Vec<char>,
}

impl View for OutputMarkerParser {
    type V = Seq<char>;

    closed spec fn view(&self) -> Seq<char> {
        self.buffer@
    }
}

impl Default for OutputMarkerParser {
    fn default() -> (parser: OutputMarkerParser)
        ensures
            parser@ == Seq::<char>::empty(),
    {
        OutputMarkerParser { buffer: Vec::new() }
    }
}

fn suffix(chars: &Vec<char>, from: usize) -> (out: Vec<char>)
    requires
        from <= chars@.len(),
    ensures
        out@ == chars@.skip(from as int),
{
    let mut out: Vec<char> = Vec::new();
    let mut i: usize = from;
    while i < chars.len()
        invariant
            from <= i <= chars@.len(),
            out@ =~= chars@.subrange(from as int, i as int),
        decreases chars@.len() - i,
    {
        out.push(chars[i]);
        i += 1;
    }
    proof {
        assert(out@ =~= chars@.skip(from as int));
    }
    out
}

impl OutputMarkerParser {
    /// Takes a piece of text and gives the payloads that it completes.
    pub fn push_payloads(&mut self, chunk: &str) -> (payloads: Vec<String>)
        ensures
            payloads.deep_view() == frames(old(self)@ + chunk@).0,
            final(self)@ == frames(old(self)@ + chunk@).1,
    {
        let ghost all = self@ + chunk@;
        let start = to_chars(OUTPUT_START_MARKER);
        let end = to_chars(OUTPUT_END_MARKER);
        let mut added = to_chars(chunk);
        self.buffer.append(&mut added);
        proof {
            lemma_markers();
            assert(self@ =~= all);
        }
        let mut payloads: Vec<String> = Vec::new();
        let mut done = false;
        proof {
            assert(payloads.deep_view() + frames(all).0 =~= frames(all).0);
        }
        while !done
            invariant
                start@ == start_marker(),
                end@ == end_marker(),
                start@.len() == 27,
                end@.len() == 25,
                !done ==> payloads.deep_view() + frames(self@).0 == frames(all).0,
                !done ==> frames(self@).1 == frames(all).1,
                done ==> payloads.deep_view() == frames(all).0,
                done ==> self@ == frames(all).1,
            decreases
                    (if done {
                        0
                    } else {
                        1 + self@.len()
                    }),
        {
            let ghost before = self@;
            let ghost found = payloads.deep_view();
            let total: usize = self.buffer.len();
            match find(&self.buffer, &start, 0) {
                None => {
                    if total > start.len() {
                        let rest = suffix(&self.buffer, total - start.len());
                        self.buffer = rest;
                    }
                    done = true;
                    proof {
                        assert(found + Seq::<Seq<char>>::empty() =~= found);
                    }
                },
                Some(i) => {
                    match find(&self.buffer, &end, i + start.len()) {
                        None => {
                            let rest = suffix(&self.buffer, i);
                            self.buffer = rest;
                            done = true;
                            proof {
                                assert(found + Seq::<Seq<char>>::empty() =~= found);
                            }
                        },
                        Some(j) => {
                            let payload = trim(piece(&self.buffer, i + start.len(), j).as_str());
                            payloads.push(payload);
                            let rest = suffix(&self.buffer, j + end.len());
                            self.buffer = rest;
                            proof {
                                assert(payloads.deep_view() =~= found.push(payload@));
                                let more = frames(self@).0;
                                assert(found.push(payload@) + more =~= found + (seq![payload@]
                                    + more));
                            }
                        },
                    }
                },
            }
        }
        payloads
    }
}

proof fn lemma_find_unique(s: Seq<char>, p: Seq<char>, from: int, i: int)
    requires
        0 <= from <= i,
        occurs_at(s, p, i),
        forall|k: int| from <= k < i ==> !occurs_at(s, p, k),
    ensures
        find_from(s, p, from) == Some(i),
{
    lemma_find_from(s, p, from);
    let k = find_from(s, p, from)->Some_0;
    if k < i {
        assert(!occurs_at(s, p, k));
    } else if k > i {
        assert(!occurs_at(s, p, i));
    }
}

/// What stands in a text stands in a longer one at the same place.
proof fn lemma_occurs_prefix(a: Seq<char>, b: Seq<char>, p: Seq<char>, i: int)
    requires
        0 <= i,
        i + p.len() <= a.len(),
    ensures
        occurs_at(a, p, i) == occurs_at(a + b, p, i),
{
    assert((a + b).subrange(i, i + p.len()) =~= a.subrange(i, i + p.len()));
}

proof fn lemma_find_prefix(a: Seq<char>, b: Seq<char>, p: Seq<char>, from: int)
    requires
        0 <= from,
        find_from(a, p, from) is Some,
    ensures
        find_from(a + b, p, from) == find_from(a, p, from),
{
    lemma_find_from(a, p, from);
    let i = find_from(a, p, from)->Some_0;
    lemma_occurs_prefix(a, b, p, i);
    assert forall|k: int| from <= k < i implies !occurs_at(a + b, p, k) by {
        lemma_occurs_prefix(a, b, p, k);
    }
    lemma_find_unique(a + b, p, from, i);
}

/// Leaving characters out in front moves what is found by as many.
proof fn lemma_find_shift(s: Seq<char>, p: Seq<char>, k: int, from: int)
    requires
        0 <= from,
        0 <= k <= s.len(),
    ensures
        find_from(s.skip(k), p, from) == (match find_from(s, p, from + k) {
            Some(i) => Some(i - k),
            None => None,
        }),
{
    lemma_find_from(s, p, from + k);
    lemma_find_from(s.skip(k), p, from);
    assert forall|i: int| 0 <= i implies occurs_at(s.skip(k), p, i) == occurs_at(s, p, i + k) by {
        if i + p.len() <= s.len() - k {
            assert(s.skip(k).subrange(i, i + p.len()) =~= s.subrange(i + k, i + k + p.len()));
        }
    }
    match find_from(s, p, from + k) {
        Some(i) => {
            assert(occurs_at(s.skip(k), p, i - k));
            assert forall|j: int| from <= j < i - k implies !occurs_at(s.skip(k), p, j) by {
                assert(!occurs_at(s, p, j + k));
            }
            lemma_find_unique(s.skip(k), p, from, i - k);
        },
        None => {
            if find_from(s.skip(k), p, from) is Some {
                let i = find_from(s.skip(k), p, from)->Some_0;
                assert(occurs_at(s, p, i + k));
            }
        },
    }
}

/// How the text is cut into pieces makes no difference: what is framed in the
/// whole is what is framed in the first part, followed by what is framed in the
/// rest after what was kept.
pub proof fn chunking_makes_no_difference(a: Seq<char>, b: Seq<char>)
    ensures
        frames(a + b).0 == frames(a).0 + frames(frames(a).1 + b).0,
        frames(a + b).1 == frames(frames(a).1 + b).1,
    decreases a.len(),
{
    lemma_markers();
    let start = start_marker();
    let end = end_marker();
    let s = a + b;
    match find_from(a, start, 0) {
        None => {
            let kept = tail(a, start.len());
            let dropped = a.len() - kept.len();
            assert(kept + b =~= s.skip(dropped));
            lemma_find_from(a, start, 0);
            lemma_find_from(s, start, 0);
            lemma_find_from(s, start, dropped);
            assert forall|p: int| 0 <= p < dropped implies !occurs_at(s, start, p) by {
                lemma_occurs_prefix(a, b, start, p);
            }
            assert(find_from(s, start, 0) == find_from(s, start, dropped)) by {
                if find_from(s, start, dropped) is Some {
                    let i = find_from(s, start, dropped)->Some_0;
                    lemma_find_unique(s, start, 0, i);
                }
            }
            lemma_find_shift(s, start, dropped, 0);
            lemma_same_frames(s, dropped);
        },
        Some(i) => {
            lemma_find_from(a, start, 0);
            lemma_find_prefix(a, b, start, 0);
            lemma_find_from(s, start, 0);
            match find_from(a, end, i + start.len()) {
                None => {
                    assert(a.skip(i) + b =~= s.skip(i));
                    assert(s.skip(i).subrange(0, 27) =~= s.subrange(i, i + 27));
                    lemma_find_unique(s.skip(i), start, 0, 0);
                    lemma_same_frames(s, i);
                },
                Some(j) => {
                    lemma_find_from(a, end, i + start.len());
                    lemma_find_prefix(a, b, end, i + start.len());
                    let rest = a.skip(j + end.len());
                    assert(s.skip(j + end.len()) =~= rest + b);
                    assert(s.subrange(i + start.len(), j) =~= a.subrange(i + start.len(), j));
                    chunking_makes_no_difference(rest, b);
                    let payload = trimmed(a.subrange(i + start.len(), j));
                    assert(seq![payload] + (frames(rest).0 + frames(frames(rest).1 + b).0) =~= (
                    seq![payload] + frames(rest).0) + frames(frames(rest).1 + b).0);
                },
            }
        },
    }
}

/// Characters before the first start marker do not count, as long as enough of
/// them stay.
proof fn lemma_same_frames(s: Seq<char>, k: int)
    requires
        0 <= k <= s.len(),
        find_from(s.skip(k), start_marker(), 0) == (match find_from(s, start_marker(), 0) {
            Some(i) => Some(i - k),
            None => None,
        }),
        s.len() - k >= 27 || k == 0,
    ensures
        frames(s) == frames(s.skip(k)),
{
    lemma_markers();
    let start = start_marker();
    let end = end_marker();
    let t = s.skip(k);
    lemma_find_from(s, start, 0);
    lemma_find_from(t, start, 0);
    match find_from(s, start, 0) {
        None => {
            assert(tail(s, 27) =~= tail(t, 27));
        },
        Some(i) => {
            lemma_find_shift(s, end, k, i - k + 27);
            lemma_find_from(s, end, i + 27);
            match find_from(s, end, i + 27) {
                None => {
                    assert(s.skip(i) =~= t.skip(i - k));
                },
                Some(j) => {
                    assert(s.skip(j + 25) =~= t.skip(j - k + 25));
                    assert(s.subrange(i + 27, j) =~= t.subrange(i - k + 27, j - k));
                },
            }
        },
    }
}

/// Whether a start marker stands at a place of a text, as far as the text goes.
pub open spec fn opens_at(s: Seq<char>, i: int) -> bool {
    0 <= i < s.len() && forall|j: int|
        0 <= j < start_marker().len() && i + j < s.len() ==> #[trigger] s[i + j]
            == start_marker()[j]
}

/// Whether a start marker stands in a text, or begins at its end.
pub open spec fn holds_open_block(s: Seq<char>) -> bool {
    exists|i: int| opens_at(s, i)
}

/// What was kept makes no difference to what follows if no block is open in it.
proof fn lemma_nothing_open(kept: Seq<char>, b: Seq<char>)
    requires
        !holds_open_block(kept),
    ensures
        frames(kept + b).0 == frames(b).0,
{
    lemma_markers();
    let start = start_marker();
    let s = kept + b;
    let k = kept.len() as int;
    assert(s.skip(k) =~= b);
    assert forall|p: int| 0 <= p < k implies !occurs_at(s, start, p) by {
        if occurs_at(s, start, p) {
            assert forall|j: int| 0 <= j < 27 && p + j < kept.len() implies #[trigger] kept[p + j]
                == start[j] by {
                assert(s.subrange(p, p + 27)[j] == s[p + j]);
            }
            assert(opens_at(kept, p));
        }
    }
    lemma_find_from(s, start, 0);
    lemma_find_from(s, start, k);
    assert(find_from(s, start, 0) == find_from(s, start, k)) by {
        if find_from(s, start, k) is Some {
            lemma_find_unique(s, start, 0, find_from(s, start, k)->Some_0);
        }
    }
    lemma_find_shift(s, start, k, 0);
    if b.len() >= 27 {
        lemma_same_frames(s, k);
    }
}

/// Blocks follow one another: where no block is left open, as where a text ends with
/// its last block and nothing is kept, the blocks of a longer text are those of its
/// first part and those of the rest.
pub proof fn blocks_follow_one_another(a: Seq<char>, b: Seq<char>)
    requires
        !holds_open_block(frames(a).1),
    ensures
        frames(a + b).0 == frames(a).0 + frames(b).0,
{
    chunking_makes_no_difference(a, b);
    lemma_nothing_open(frames(a).1, b);
}

// ---------------------------------------------------------------------------
// Results
// ---------------------------------------------------------------------------

/// Whether a decoder may give `raw` for a payload.
pub open spec fn decodes_to<D: Fn(&str) -> Result<ContainerOutput, String>>(
    decode: D,
    payload: Seq<char>,
    raw: Result<ContainerOutput, String>,
) -> bool {
    exists|text: &str| text@ == payload && #[trigger] call_ensures(decode, (text,), raw)
}

/// Whether `out` is `raw` with its message behind a label.
pub open spec fn labelled(
    raw: Result<ContainerOutput, String>,
    out: Result<ContainerOutput, String>,
    label: Seq<char>,
) -> bool {
    match (raw, out) {
        (Ok(a), Ok(b)) => a == b,
        (Err(a), Err(b)) => b@ == label + a@,
        _ => false,
    }
}

/// Whether `out` is what a decoder may give for a payload, its message behind a
/// label.
pub open spec fn decoded_as<D: Fn(&str) -> Result<ContainerOutput, String>>(
    decode: D,
    payload: Seq<char>,
    out: Result<ContainerOutput, String>,
    label: Seq<char>,
) -> bool {
    exists|raw: Result<ContainerOutput, String>| #[trigger]
        decodes_to(decode, payload, raw) && labelled(raw, out, label)
}

pub open spec fn marker_label() -> Seq<char> {
    "failed to parse marker payload as JSON: "@
}

pub open spec fn fallback_label() -> Seq<char> {
    "failed to parse fallback output line as JSON: "@
}

/// Whether each result is what the decoder may give for its payload.
pub open spec fn all_decoded<D: Fn(&str) -> Result<ContainerOutput, String>>(
    decode: D,
    payloads: Seq<Seq<char>>,
    parsed: Seq<Result<ContainerOutput, String>>,
) -> bool {
    &&& parsed.len() == payloads.len()
    &&& forall|i: int|
        0 <= i < parsed.len() ==> decoded_as(
            decode,
            payloads[i],
            #[trigger] parsed[i],
            marker_label(),
        )
}

fn decode_labelled<D: Fn(&str) -> Result<ContainerOutput, String>>(
    decode: &D,
    payload: &str,
    label: &str,
) -> (out: Result<ContainerOutput, String>)
    requires
        forall|text: &str| call_requires(*decode, (text,)),
    ensures
        decoded_as(*decode, payload@, out, label@),
{
    let raw = decode(payload);
    proof {
        assert(decodes_to(*decode, payload@, raw));
    }
    match raw {
        Ok(output) => Ok(output),
        Err(message) => Err(label.to_owned().concat(message.as_str())),
    }
}

fn decode_payloads<D: Fn(&str) -> Result<ContainerOutput, String>>(
    payloads: &Vec<String>,
    decode: &D,
) -> (parsed: Vec<Result<ContainerOutput, String>>)
    requires
        forall|text: &str| call_requires(*decode, (text,)),
    ensures
        all_decoded(*decode, payloads.deep_view(), parsed@),
{
    let mut parsed: Vec<Result<ContainerOutput, String>> = Vec::new();
    let mut i: usize = 0;
    while i < payloads.len()
        invariant
            i <= payloads@.len(),
            parsed@.len() == i,
            forall|text: &str| call_requires(*decode, (text,)),
            forall|k: int|
                0 <= k < i ==> decoded_as(
                    *decode,
                    payloads.deep_view()[k],
                    #[trigger] parsed@[k],
                    marker_label(),
                ),
        decreases payloads@.len() - i,
    {
        let out = decode_labelled(
            decode,
            payloads[i].as_str(),
            "failed to parse marker payload as JSON: ",
        );
        parsed.push(out);
        i += 1;
    }
    parsed
}

impl OutputMarkerParser {
    /// Takes a piece of text and gives the results that it completes, as the
    /// decoder reads them.
    pub fn push_chunk<D: Fn(&str) -> Result<ContainerOutput, String>>(
        &mut self,
        chunk: &str,
        decode: &D,
    ) -> (parsed: Vec<Result<ContainerOutput, String>>)
        requires
            forall|text: &str| call_requires(*decode, (text,)),
        ensures
            final(self)@ == frames(old(self)@ + chunk@).1,
            all_decoded(*decode, frames(old(self)@ + chunk@).0, parsed@),
    {
        let payloads = self.push_payloads(chunk);
        decode_payloads(&payloads, decode)
    }
}

/// The results among what was parsed.
pub open spec fn good_results(parsed: Seq<Result<ContainerOutput, String>>) -> Seq<ContainerOutput>
    decreases parsed.len(),
{
    if parsed.len() == 0 {
        Seq::empty()
    } else {
        match parsed.last() {
            Ok(output) => good_results(parsed.drop_last()).push(output),
            Err(_) => good_results(parsed.drop_last()),
        }
    }
}

/// The messages among what was parsed.
pub open spec fn bad_results(parsed: Seq<Result<ContainerOutput, String>>) -> Seq<Seq<char>>
    decreases parsed.len(),
{
    if parsed.len() == 0 {
        Seq::empty()
    } else {
        match parsed.last() {
            Ok(_) => bad_results(parsed.drop_last()),
            Err(message) => bad_results(parsed.drop_last()).push(message@),
        }
    }
}

/// Parts results from messages, each in their order.
pub fn part_results(parsed: Vec<Result<ContainerOutput, String>>) -> (parts: (
    Vec<ContainerOutput>,
    Vec<String>,
))
    ensures
        parts.0@ == good_results(parsed@),
        parts.1.deep_view() == bad_results(parsed@),
{
    let ghost all = parsed@;
    let mut rest = parsed;
    let mut later: Vec<Result<ContainerOutput, String>> = Vec::new();
    while rest.len() > 0
        invariant
            rest@ + later@.reverse() =~= all,
        decreases rest@.len(),
    {
        let ghost before = rest@;
        let ghost moved = later@;
        match rest.pop() {
            Some(item) => {
                later.push(item);
                proof {
                    assert(before =~= rest@.push(item));
                    assert(later@.reverse() =~= seq![item] + moved.reverse());
                }
            },
            None => {},
        }
    }
    let mut outputs: Vec<ContainerOutput> = Vec::new();
    let mut errors: Vec<String> = Vec::new();
    let ghost mut done: Seq<Result<ContainerOutput, String>> = Seq::empty();
    while later.len() > 0
        invariant
            done + later@.reverse() =~= all,
            outputs@ =~= good_results(done),
            errors.deep_view() =~= bad_results(done),
        decreases later@.len(),
    {
        let ghost before = later@;
        let ghost bad = errors.deep_view();
        match later.pop() {
            Some(item) => {
                proof {
                    assert(before =~= later@.push(item));
                    assert(before.reverse() =~= seq![item] + later@.reverse());
                    assert(done.push(item).drop_last() =~= done);
                    done = done.push(item);
                }
                match item {
                    Ok(output) => {
                        outputs.push(output);
                    },
                    Err(message) => {
                        errors.push(message);
                        proof {
                            assert(errors.deep_view() =~= bad.push(message@));
                        }
                    },
                }
            },
            None => {},
        }
    }
    proof {
        assert(done =~= all);
    }
    (outputs, errors)
}

/// Whether results and messages are what a decoder may give for the blocks of a
/// text.
pub open spec fn parses_as<D: Fn(&str) -> Result<ContainerOutput, String>>(
    decode: D,
    stdout: Seq<char>,
    good: Seq<ContainerOutput>,
    bad: Seq<Seq<char>>,
) -> bool {
    exists|parsed: Seq<Result<ContainerOutput, String>>| #[trigger]
        all_decoded(decode, frames(stdout).0, parsed) && good == good_results(parsed) && bad
            == bad_results(parsed)
}

/// All results in a text, and the messages on those that could not be read.
pub fn parse_all_outputs<D: Fn(&str) -> Result<ContainerOutput, String>>(
    stdout: &str,
    decode: &D,
) -> (parts: (Vec<ContainerOutput>, Vec<String>))
    requires
        forall|text: &str| call_requires(*decode, (text,)),
    ensures
        parses_as(*decode, stdout@, parts.0@, parts.1.deep_view()),
{
    let mut parser = OutputMarkerParser::default();
    proof {
        assert(Seq::<char>::empty() + stdout@ =~= stdout@);
    }
    let parsed = parser.push_chunk(stdout, decode);
    part_results(parsed)
}

proof fn lemma_results_concat(
    first: Seq<Result<ContainerOutput, String>>,
    second: Seq<Result<ContainerOutput, String>>,
)
    ensures
        good_results(first + second) == good_results(first) + good_results(second),
        bad_results(first + second) == bad_results(first) + bad_results(second),
    decreases second.len(),
{
    if second.len() == 0 {
        assert(first + second =~= first);
        assert(good_results(first) + good_results(second) =~= good_results(first));
        assert(bad_results(first) + bad_results(second) =~= bad_results(first));
    } else {
        lemma_results_concat(first, second.drop_last());
        assert((first + second).drop_last() =~= first + second.drop_last());
        assert(good_results(first + second) =~= good_results(first) + good_results(second));
        assert(bad_results(first + second) =~= bad_results(first) + bad_results(second));
    }
}

proof fn lemma_results_count(parsed: Seq<Result<ContainerOutput, String>>)
    ensures
        good_results(parsed).len() + bad_results(parsed).len() == parsed.len(),
    decreases parsed.len(),
{
    if parsed.len() > 0 {
        lemma_results_count(parsed.drop_last());
    }
}

/// Every block gives a result or a message: together they are as many as the
/// complete blocks of the text.
pub proof fn every_block_is_accounted_for<D: Fn(&str) -> Result<ContainerOutput, String>>(
    decode: D,
    stdout: Seq<char>,
    good: Seq<ContainerOutput>,
    bad: Seq<Seq<char>>,
)
    requires
        parses_as(decode, stdout, good, bad),
    ensures
        good.len() + bad.len() == frames(stdout).0.len(),
{
    let parsed = choose|parsed: Seq<Result<ContainerOutput, String>>| #[trigger]
        all_decoded(decode, frames(stdout).0, parsed) && good == good_results(parsed) && bad
            == bad_results(parsed);
    lemma_results_count(parsed);
}

/// Results follow one another: where no block is left open, what a text and its
/// continuation give, one after the other, is what the two give as one text.
pub proof fn outputs_follow_one_another<D: Fn(&str) -> Result<ContainerOutput, String>>(
    decode: D,
    a: Seq<char>,
    b: Seq<char>,
    first: (Seq<ContainerOutput>, Seq<Seq<char>>),
    second: (Seq<ContainerOutput>, Seq<Seq<char>>),
)
    requires
        !holds_open_block(frames(a).1),
        parses_as(decode, a, first.0, first.1),
        parses_as(decode, b, second.0, second.1),
    ensures
        parses_as(decode, a + b, first.0 + second.0, first.1 + second.1),
{
    blocks_follow_one_another(a, b);
    let p = choose|p: Seq<Result<ContainerOutput, String>>| #[trigger]
        all_decoded(decode, frames(a).0, p) && first.0 == good_results(p) && first.1
            == bad_results(p);
    let q = choose|q: Seq<Result<ContainerOutput, String>>| #[trigger]
        all_decoded(decode, frames(b).0, q) && second.0 == good_results(q) && second.1
            == bad_results(q);
    lemma_results_concat(p, q);
    assert forall|i: int| 0 <= i < (p + q).len() implies decoded_as(
        decode,
        frames(a + b).0[i],
        #[trigger] (p + q)[i],
        marker_label(),
    ) by {
        if i < p.len() {
            assert((p + q)[i] == p[i]);
        } else {
            assert((p + q)[i] == q[i - p.len()]);
        }
    }
    assert(all_decoded(decode, frames(a + b).0, p + q));
}

/// Whether a decoder gives one and the same for one and the same text.
pub open spec fn is_function<D: Fn(&str) -> Result<ContainerOutput, String>>(decode: D) -> bool {
    forall|
        payload: Seq<char>,
        x: Result<ContainerOutput, String>,
        y: Result<ContainerOutput, String>,
    |
        #![trigger decodes_to(decode, payload, x), decodes_to(decode, payload, y)]
        decodes_to(decode, payload, x) && decodes_to(decode, payload, y) ==> outcome(x) == outcome(
            y,
        )
}

/// What results hold.
pub open spec fn contents(good: Seq<ContainerOutput>) -> Seq<OutputView> {
    good.map_values(|output: ContainerOutput| output.deep_view())
}

proof fn lemma_same_results(
    p: Seq<Result<ContainerOutput, String>>,
    q: Seq<Result<ContainerOutput, String>>,
)
    requires
        p.len() == q.len(),
        forall|i: int| 0 <= i < p.len() ==> outcome(#[trigger] p[i]) == outcome(q[i]),
    ensures
        contents(good_results(p)) == contents(good_results(q)),
        bad_results(p) == bad_results(q),
    decreases p.len(),
{
    if p.len() > 0 {
        assert forall|i: int| 0 <= i < p.drop_last().len() implies outcome(
            #[trigger] p.drop_last()[i],
        ) == outcome(q.drop_last()[i]) by {
            assert(p.drop_last()[i] == p[i]);
        }
        lemma_same_results(p.drop_last(), q.drop_last());
        assert(outcome(p[p.len() - 1]) == outcome(q[p.len() - 1]));
        if p.last() is Ok {
            let before = good_results(p.drop_last());
            let after = good_results(q.drop_last());
            assert(contents(before.push(p.last()->Ok_0)) =~= contents(before).push(
                p.last()->Ok_0.deep_view(),
            ));
            assert(contents(after.push(q.last()->Ok_0)) =~= contents(after).push(
                q.last()->Ok_0.deep_view(),
            ));
        }
    }
}

/// With a decoder that gives one and the same for one and the same text, a text
/// gives one and the same, so what two parts give as one text, with no block left
/// open between them, is what they give one after the other.
pub proof fn outputs_of_parts_make_up_the_whole<D: Fn(&str) -> Result<ContainerOutput, String>>(
    decode: D,
    a: Seq<char>,
    b: Seq<char>,
    first: (Seq<ContainerOutput>, Seq<Seq<char>>),
    second: (Seq<ContainerOutput>, Seq<Seq<char>>),
    whole: (Seq<ContainerOutput>, Seq<Seq<char>>),
)
    requires
        is_function(decode),
        !holds_open_block(frames(a).1),
        parses_as(decode, a, first.0, first.1),
        parses_as(decode, b, second.0, second.1),
        parses_as(decode, a + b, whole.0, whole.1),
    ensures
        contents(whole.0) == contents(first.0) + contents(second.0),
        whole.1 == first.1 + second.1,
        first.0.len() + first.1.len() == frames(a).0.len(),
{
    outputs_follow_one_another(decode, a, b, first, second);
    every_block_is_accounted_for(decode, a, first.0, first.1);
    let payloads = frames(a + b).0;
    let p = choose|p: Seq<Result<ContainerOutput, String>>| #[trigger]
        all_decoded(decode, payloads, p) && whole.0 == good_results(p) && whole.1 == bad_results(p);
    let q = choose|q: Seq<Result<ContainerOutput, String>>| #[trigger]
        all_decoded(decode, payloads, q) && first.0 + second.0 == good_results(q) && first.1
            + second.1 == bad_results(q);
    assert forall|i: int| 0 <= i < p.len() implies outcome(#[trigger] p[i]) == outcome(q[i]) by {
        assert(decoded_as(decode, payloads[i], p[i], marker_label()));
        assert(decoded_as(decode, payloads[i], q[i], marker_label()));
        let x = choose|x: Result<ContainerOutput, String>| #[trigger]
            decodes_to(decode, payloads[i], x) && labelled(x, p[i], marker_label());
        let y = choose|y: Result<ContainerOutput, String>| #[trigger]
            decodes_to(decode, payloads[i], y) && labelled(y, q[i], marker_label());
        assert(outcome(x) == outcome(y));
    }
    lemma_same_results(p, q);
    assert(contents(first.0 + second.0) =~= contents(first.0) + contents(second.0));
}

/// The last line that is not blank, without surrounding white space.
pub open spec fn last_filled(lines: Seq<Seq<char>>) -> Option<Seq<char>>
    decreases lines.len(),
{
    if lines.len() == 0 {
        None
    } else if trimmed(lines.last()).len() > 0 {
        Some(trimmed(lines.last()))
    } else {
        last_filled(lines.drop_last())
    }
}

fn last_filled_line(text: &str) -> (line: Option<String>)
    ensures
        line.deep_view() == last_filled(lines_of(text@)),
{
    let all = lines(text);
    let ghost content = all.deep_view();
    let mut i: usize = all.len();
    proof {
        assert(content.take(i as int) =~= content);
    }
    while i > 0
        invariant
            i <= all@.len(),
            content == all.deep_view(),
            content == lines_of(text@),
            last_filled(content) == last_filled(content.take(i as int)),
        decreases i,
    {
        proof {
            assert(content.take(i as int).last() == all@[i - 1]@);
            assert(content.take(i as int).drop_last() =~= content.take(i - 1));
        }
        let line = trim(all[i - 1].as_str());
        if !line.as_str().is_empty() {
            return Some(line);
        }
        i -= 1;
    }
    None
}

/// What a text amounts to, given what was parsed of its frames: the last
/// result, else the messages, else what its last line says.
pub open spec fn amounts_to<D: Fn(&str) -> Result<ContainerOutput, String>>(
    decode: D,
    stdout: Seq<char>,
    parsed: Seq<Result<ContainerOutput, String>>,
    out: Result<ContainerOutput, String>,
) -> bool {
    let good = good_results(parsed);
    let bad = bad_results(parsed);
    if good.len() > 0 {
        out == Ok::<ContainerOutput, String>(good.last())
    } else if bad.len() > 0 {
        out matches Err(message) && message@ == joined(bad, "; "@)
    } else {
        match last_filled(lines_of(stdout)) {
            None => out matches Err(message) && message@ == "no output found"@,
            Some(line) => decoded_as(decode, line, out, fallback_label()),
        }
    }
}

/// The last result in a text; without any the messages, and without frames what
/// its last line says.
pub fn parse_last_output<D: Fn(&str) -> Result<ContainerOutput, String>>(
    stdout: &str,
    decode: &D,
) -> (out: Result<ContainerOutput, String>)
    requires
        forall|text: &str| call_requires(*decode, (text,)),
    ensures
        exists|parsed: Seq<Result<ContainerOutput, String>>| #[trigger]
            all_decoded(*decode, frames(stdout@).0, parsed) && amounts_to(
                *decode,
                stdout@,
                parsed,
                out,
            ),
{
    let (mut outputs, errors) = parse_all_outputs(stdout, decode);
    if let Some(last) = outputs.pop() {
        return Ok(last);
    }
    proof {
        assert(errors.deep_view().len() == errors@.len());
    }
    if errors.len() > 0 {
        return Err(join(&errors, "; "));
    }
    match last_filled_line(stdout) {
        None => Err("no output found".to_owned()),
        Some(line) => decode_labelled(
            decode,
            line.as_str(),
            "failed to parse fallback output line as JSON: ",
        ),
    }
}

// ---------------------------------------------------------------------------
// Commands
// ---------------------------------------------------------------------------

#[derive(Debug, PartialEq, Eq)]
pub struct CommandRunRequest {
    pub program: String,
    pub args: Vec<String>,
    pub timeout: Duration,
}

#[derive(Debug, PartialEq, Eq)]
pub struct CommandRunResult {
    pub exit_code: Option<i32>,
    pub stdout: String,
    pub stderr: String,
    pub outputs: Vec<ContainerOutput>,
    pub parse_errors: Vec<String>,
}

#[derive(Debug, PartialEq, Eq)]
pub enum CommandRunError {
    Timeout { timeout: Duration },
    SpawnFailed(String),
    NonZeroExit { exit_code: Option<i32>, stderr_tail: String, stdout_tail: String },
}

/// An exit code as it is shown: its number, or that there is none.
pub open spec fn code_shown(code: Option<i32>) -> Seq<char> {
    match code {
        Some(n) => "Some("@ + signed_decimal(n as int) + ")"@,
        None => "None"@,
    }
}

/// An exit code as it is shown.
pub fn show_code(code: Option<i32>) -> (text: String)
    ensures
        text@ == code_shown(code),
{
    match code {
        Some(n) => "Some(".to_owned().concat(i64_text(n as i64).as_str()).concat(")"),
        None => "None".to_owned(),
    }
}

/// The message of a [`CommandRunError`].
pub open spec fn command_error_text(error: CommandRunError) -> Seq<char> {
    match error {
        CommandRunError::Timeout { timeout } => "process timed out after "@ + decimal(
            timeout.total() / 1_000_000,
        ) + "ms"@,
        CommandRunError::SpawnFailed(message) => "failed to spawn process: "@ + message@,
        CommandRunError::NonZeroExit { exit_code, stderr_tail, .. } => "process exited with code "@
            + code_shown(exit_code) + ": "@ + stderr_tail@,
    }
}

pub open spec fn timeout_ok(error: CommandRunError) -> bool {
    error matches CommandRunError::Timeout { timeout } ==> timeout.wf()
}

impl CommandRunError {
    /// The error as a message.
    pub fn message(&self) -> (text: String)
        requires
            timeout_ok(*self),
        ensures
            text@ == command_error_text(*self),
    {
        match self {
            CommandRunError::Timeout { timeout } => "process timed out after ".to_owned().concat(
                u128_text(timeout.as_millis()).as_str(),
            ).concat("ms"),
            CommandRunError::SpawnFailed(message) => "failed to spawn process: ".to_owned().concat(
                message.as_str(),
            ),
            CommandRunError::NonZeroExit {
                exit_code,
                stderr_tail,
                ..
            } => "process exited with code ".to_owned().concat(
                show_code(*exit_code).as_str(),
            ).concat(": ").concat(stderr_tail.as_str()),
        }
    }
}

/// What a part of the runtime says of a failed command: its own name for the
/// command, and what of the output is not blank.
pub open spec fn command_failure(subject: Seq<char>, error: CommandRunError) -> Seq<char> {
    match error {
        CommandRunError::Timeout { timeout } => subject + " timed out after "@ + decimal(
            timeout.total() / 1_000_000,
        ) + "ms"@,
        CommandRunError::SpawnFailed(message) => subject + " spawn failed: "@ + message@,
        CommandRunError::NonZeroExit { exit_code, stderr_tail, stdout_tail } => {
            let head = subject + " exited with code "@ + code_shown(exit_code);
            let with_stderr = if trimmed(stderr_tail@).len() > 0 {
                head + "; stderr: "@ + stderr_tail@
            } else {
                head
            };
            if trimmed(stdout_tail@).len() > 0 {
                with_stderr + "; stdout: "@ + stdout_tail@
            } else {
                with_stderr
            }
        },
    }
}

/// What a part of the runtime says of a failed command.
pub fn describe_failure(subject: &str, error: &CommandRunError) -> (text: String)
    requires
        timeout_ok(*error),
    ensures
        text@ == command_failure(subject@, *error),
{
    match error {
        CommandRunError::Timeout { timeout } => subject.to_owned().concat(
            " timed out after ",
        ).concat(u128_text(timeout.as_millis()).as_str()).concat("ms"),
        CommandRunError::SpawnFailed(message) => subject.to_owned().concat(
            " spawn failed: ",
        ).concat(message.as_str()),
        CommandRunError::NonZeroExit { exit_code, stderr_tail, stdout_tail } => {
            let mut detail = subject.to_owned().concat(" exited with code ").concat(
                show_code(*exit_code).as_str(),
            );
            if !trim(stderr_tail.as_str()).as_str().is_empty() {
                detail = detail.concat("; stderr: ").concat(stderr_tail.as_str());
            }
            if !trim(stdout_tail.as_str()).as_str().is_empty() {
                detail = detail.concat("; stdout: ").concat(stdout_tail.as_str());
            }
            detail
        },
    }
}

/// What a command that ended amounts to: its output, or the ends of it where
/// the command failed.
pub fn conclude_command(
    succeeded: bool,
    exit_code: Option<i32>,
    stdout: String,
    stderr: String,
    outputs: Vec<ContainerOutput>,
    parse_errors: Vec<String>,
) -> (result: Result<CommandRunResult, CommandRunError>)
    ensures
        match result {
            Ok(r) => {
                &&& succeeded
                &&& r.exit_code == exit_code
                &&& r.stdout == stdout
                &&& r.stderr == stderr
                &&& r.outputs == outputs
                &&& r.parse_errors == parse_errors
            },
            Err(e) => {
                &&& !succeeded
                &&& e matches CommandRunError::NonZeroExit {
                    exit_code: code,
                    stderr_tail,
                    stdout_tail,
                } && code == exit_code && stderr_tail@ == tail(stderr@, 200) && stdout_tail@
                    == tail(stdout@, 200)
            },
        },
{
    if !succeeded {
        return Err(
            CommandRunError::NonZeroExit {
                exit_code,
                stderr_tail: tail_chars(stderr.as_str(), 200),
                stdout_tail: tail_chars(stdout.as_str(), 200),
            },
        );
    }
    Ok(CommandRunResult { exit_code, stdout, stderr, outputs, parse_errors })
}

/// A block between the markers gives its payload, without surrounding white space, and
/// what follows the block is read on.
pub proof fn block_gives_its_payload(before: Seq<char>, payload: Seq<char>, after: Seq<char>)
    requires
        forall|k: int|
            0 <= k < before.len() ==> !#[trigger] occurs_at(
                before + "---NANOCLAW_OUTPUT_START---"@ + payload + "---NANOCLAW_OUTPUT_END---"@
                    + after,
                "---NANOCLAW_OUTPUT_START---"@,
                k,
            ),
        forall|k: int|
            0 <= k < payload.len() ==> !#[trigger] occurs_at(
                payload + "---NANOCLAW_OUTPUT_END---"@ + after,
                "---NANOCLAW_OUTPUT_END---"@,
                k,
            ),
    ensures
        frames(
            before + "---NANOCLAW_OUTPUT_START---"@ + payload + "---NANOCLAW_OUTPUT_END---"@
                + after,
        ).0 == seq![trimmed(payload)] + frames(after).0,
{
    let start = "---NANOCLAW_OUTPUT_START---"@;
    let end = "---NANOCLAW_OUTPUT_END---"@;
    let s = before + start + payload + end + after;
    let rest = payload + end + after;
    let i = before.len() as int;
    let from = i + start.len();
    let j = from + payload.len();
    lemma_markers();
    assert(s.subrange(i, i + start.len()) =~= start);
    lemma_find_unique(s, start, 0, i);
    assert(s.subrange(j, j + end.len()) =~= end);
    assert forall|k: int| from <= k < j implies !occurs_at(s, end, k) by {
        assert(!occurs_at(rest, end, k - from));
        if occurs_at(s, end, k) {
            assert(s.subrange(k, k + end.len()) =~= rest.subrange(
                k - from,
                k - from + end.len(),
            ));
        }
    }
    lemma_find_unique(s, end, from, j);
    assert(s.subrange(from, j) =~= payload);
    assert(s.skip(j + end.len()) =~= after);
}

proof fn lemma_last_good(parsed: Seq<Result<ContainerOutput, String>>, k: int)
    requires
        0 <= k < parsed.len(),
        parsed[k] is Ok,
        forall|j: int| k < j < parsed.len() ==> (#[trigger] parsed[j]) is Err,
    ensures
        good_results(parsed).len() > 0,
        good_results(parsed).last() == parsed[k]->Ok_0,
    decreases parsed.len(),
{
    let rest = parsed.drop_last();
    if k < parsed.len() - 1 {
        assert(parsed[parsed.len() - 1] is Err);
        lemma_last_good(rest, k);
    }
}

proof fn lemma_all_bad(parsed: Seq<Result<ContainerOutput, String>>)
    requires
        forall|j: int| 0 <= j < parsed.len() ==> (#[trigger] parsed[j]) is Err,
    ensures
        good_results(parsed).len() == 0,
        bad_results(parsed).len() == parsed.len(),
        forall|j: int|
            0 <= j < parsed.len() ==> bad_results(parsed)[j] == (#[trigger] parsed[j])->Err_0@,
    decreases parsed.len(),
{
    if parsed.len() > 0 {
        let rest = parsed.drop_last();
        assert(parsed[parsed.len() - 1] is Err);
        lemma_all_bad(rest);
        assert forall|j: int| 0 <= j < parsed.len() implies bad_results(parsed)[j] == (
        #[trigger] parsed[j])->Err_0@ by {
            if j < rest.len() {
                assert(rest[j] == parsed[j]);
            }
        }
    }
}

/// An output amounts to the last block that can be read, and where none can, to what is
/// wrong with them, all of them.
pub proof fn last_readable_block_counts<D: Fn(&str) -> Result<ContainerOutput, String>>(
    decode: D,
    stdout: Seq<char>,
    parsed: Seq<Result<ContainerOutput, String>>,
    out: Result<ContainerOutput, String>,
    k: int,
)
    requires
        amounts_to(decode, stdout, parsed, out),
        0 <= k < parsed.len(),
    ensures
        parsed[k] is Ok && (forall|j: int|
            k < j < parsed.len() ==> (#[trigger] parsed[j]) is Err) ==> out == parsed[k],
        (forall|j: int| 0 <= j < parsed.len() ==> (#[trigger] parsed[j]) is Err) ==> out is Err
            && contains_text(out->Err_0@, parsed[k]->Err_0@),
{
    if parsed[k] is Ok && (forall|j: int|
        k < j < parsed.len() ==> (#[trigger] parsed[j]) is Err) {
        lemma_last_good(parsed, k);
    }
    if forall|j: int| 0 <= j < parsed.len() ==> (#[trigger] parsed[j]) is Err {
        lemma_all_bad(parsed);
        joined_text_holds_its_parts(bad_results(parsed), "; "@, k);
        assert(bad_results(parsed)[k] == parsed[k]->Err_0@);
    }
}

/// Without blocks the last line that is not blank is read; blank lines after it make no
/// difference.
pub proof fn last_line_is_read(lines: Seq<Seq<char>>, k: int)
    requires
        0 <= k < lines.len(),
        trimmed(lines[k]).len() > 0,
        forall|j: int| k < j < lines.len() ==> trimmed(#[trigger] lines[j]).len() == 0,
    ensures
        last_filled(lines) == Some(trimmed(lines[k])),
    decreases lines.len(),
{
    if k < lines.len() - 1 {
        assert(trimmed(lines[lines.len() - 1]).len() == 0);
        last_line_is_read(lines.drop_last(), k);
    }
}

/// What is said of a failed command begins with its name and holds what the command said
/// itself, and how it ended.
pub proof fn failure_tells_what_happened(subject: Seq<char>, error: CommandRunError, ms: nat)
    ensures
        subject.is_prefix_of(command_failure(subject, error)),
        (error matches CommandRunError::SpawnFailed(message) ==> message@.is_suffix_of(
            command_failure(subject, error),
        )),
        (error matches CommandRunError::Timeout { timeout } ==> timeout.total() == ms * 1_000_000
            ==> contains_text(command_failure(subject, error), decimal(ms) + "ms"@)),
        (error matches CommandRunError::NonZeroExit { exit_code, stderr_tail, stdout_tail } ==> {
            let text = command_failure(subject, error);
            &&& contains_text(text, "exited with code "@ + code_shown(exit_code))
            &&& trimmed(stderr_tail@).len() > 0 ==> contains_text(
                text,
                "stderr: "@ + stderr_tail@,
            )
            &&& trimmed(stdout_tail@).len() > 0 ==> ("stdout: "@ + stdout_tail@).is_suffix_of(text)
        }),
{
    let text = command_failure(subject, error);
    assert(text.subrange(0, subject.len() as int) =~= subject);
    reveal_strlit(" exited with code ");
    reveal_strlit("exited with code ");
    reveal_strlit("; stderr: ");
    reveal_strlit("stderr: ");
    reveal_strlit("; stdout: ");
    reveal_strlit("stdout: ");
    match error {
        CommandRunError::SpawnFailed(message) => {
            assert(text.subrange(text.len() - message@.len(), text.len() as int) =~= message@);
        },
        CommandRunError::Timeout { timeout } => {
            if timeout.total() == ms * 1_000_000 {
                let at = (subject + " timed out after "@).len() as int;
                let wanted = decimal(ms) + "ms"@;
                assert(text.subrange(at, at + wanted.len()) =~= wanted);
                assert(occurs_at(text, wanted, at));
            }
        },
        CommandRunError::NonZeroExit { exit_code, stderr_tail, stdout_tail } => {
            let code = "exited with code "@ + code_shown(exit_code);
            let at: int = subject.len() + 1int;
            assert(text.subrange(at, at + code.len()) =~= code);
            assert(occurs_at(text, code, at));
            let stderr = "stderr: "@ + stderr_tail@;
            if trimmed(stderr_tail@).len() > 0 {
                let from = at + code.len() + 2;
                assert(text.subrange(from, from + stderr.len()) =~= stderr);
                assert(occurs_at(text, stderr, from));
            }
            let stdout = "stdout: "@ + stdout_tail@;
            if trimmed(stdout_tail@).len() > 0 {
                assert(text.subrange(text.len() - stdout.len(), text.len() as int) =~= stdout);
            }
        },
    }
}

} // verus!
