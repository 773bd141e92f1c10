//! Decoding of the trigger metadata that the client embeds in each inbound
//! text message into a command name and its optional arguments.

use vstd::prelude::*;
use vstd::std_specs::iter::IteratorSpec;

verus! {

/// The pieces of `s` between occurrences of `d`, as `str::split` yields them:
/// always at least one piece, and empty pieces are kept.
pub open spec fn split(s: Seq<char>, d: char) -> Seq<Seq<char>>
    decreases s.len(),
{
    if s.len() == 0 {
        seq![Seq::empty()]
    } else {
        let prev = split(s.drop_last(), d);
        if s.last() == d {
            prev.push(Seq::empty())
        } else {
            prev.update(prev.len() - 1, prev.last().push(s.last()))
        }
    }
}

/// `i` is the position of the first `d` in `s`.
pub open spec fn first_at(s: Seq<char>, d: char, i: int) -> bool {
    &&& 0 <= i < s.len()
    &&& s[i] == d
    &&& forall|j: int| 0 <= j < i ==> s[j] != d
}

/// The parts before and after the first `d`, as `str::split_once` gives them.
pub open spec fn split_once(s: Seq<char>, d: char) -> Option<(Seq<char>, Seq<char>)> {
    if exists|i: int| first_at(s, d, i) {
        let i = choose|i: int| first_at(s, d, i);
        Some((s.subrange(0, i), s.subrange(i + 1, s.len() as int)))
    } else {
        None
    }
}

/// `s` without one surrounding `"` on each side, where there is one.
pub open spec fn strip_quotes(s: Seq<char>) -> Seq<char> {
    let a = if s.len() > 0 && s[0] == '"' {
        s.drop_first()
    } else {
        s
    };
    if a.len() > 0 && a.last() == '"' {
        a.drop_last()
    } else {
        a
    }
}

/// The header entry's value, where the entry is `key:value` with the
/// trigger-name key and a non-empty value (quotes stripped from both).
pub open spec fn trigger_value(entry: Seq<char>) -> Option<Seq<char>> {
    match split_once(entry, ':') {
        Some((k, v)) => if strip_quotes(k) == "HX-Trigger-Name"@ && strip_quotes(v).len() > 0 {
            Some(strip_quotes(v))
        } else {
            None
        },
        None => None,
    }
}

/// The value of the first entry that carries the trigger name.
pub open spec fn first_trigger(entries: Seq<Seq<char>>) -> Option<Seq<char>>
    decreases entries.len(),
{
    if entries.len() == 0 {
        None
    } else {
        match trigger_value(entries[0]) {
            Some(v) => Some(v),
            None => first_trigger(entries.drop_first()),
        }
    }
}

/// A trigger value as a command: `name` alone, or `name:a,b,...` with its
/// arguments in order.
pub open spec fn command_of(v: Seq<char>) -> (Seq<char>, Option<Seq<Seq<char>>>) {
    match split_once(v, ':') {
        None => (v, None),
        Some((name, args)) => (name, Some(split(args, ','))),
    }
}

/// The command carried by a text payload: the third `{`-separated segment
/// holds the `,`-separated header entries.
pub open spec fn decoded(text: Seq<char>) -> Option<(Seq<char>, Option<Seq<Seq<char>>>)> {
    let segments = split(text, '{');
    if segments.len() < 3 {
        None
    } else {
        match first_trigger(split(segments[2], ',')) {
            Some(v) => Some(command_of(v)),
            None => None,
        }
    }
}

/// The model of a decoded command.
pub open spec fn command_view(c: Option<(String, Option<Vec<String>>)>) -> Option<
    (Seq<char>, Option<Seq<Seq<char>>>),
> {
    match c {
        Some((name, args)) => Some(
            (
                name@,
                match args {
                    Some(a) => Some(a.deep_view()),
                    None => None,
                },
            ),
        ),
        None => None,
    }
}

proof fn lemma_split_len(s: Seq<char>, d: char)
    ensures
        split(s, d).len() >= 1,
    decreases s.len(),
{
    if s.len() > 0 {
        lemma_split_len(s.drop_last(), d);
    }
}

proof fn lemma_split_once_at(s: Seq<char>, d: char, i: int)
    requires
        first_at(s, d, i),
    ensures
        split_once(s, d) == Some((s.subrange(0, i), s.subrange(i + 1, s.len() as int))),
{
    let k = choose|k: int| first_at(s, d, k);
    assert(first_at(s, d, k));
    if k < i {
        assert(s[k] != d);
    } else if i < k {
        assert(s[i] != d);
    }
}

proof fn lemma_split_once_none(s: Seq<char>, d: char)
    requires
        forall|j: int| 0 <= j < s.len() ==> s[j] != d,
    ensures
        split_once(s, d).is_none(),
{
    if exists|i: int| first_at(s, d, i) {
        let k = choose|k: int| first_at(s, d, k);
        assert(s[k] != d);
    }
}

/// The characters of `text`, in order.
fn chars_of(text: &str) -> (out: Vec<char>)
    ensures
        out@ == text@,
{
    broadcast use vstd::string::group_string_axioms;

    let mut it = text.chars();
    let mut out: Vec<char> = Vec::new();
    loop
        invariant
            out@ + it.remaining() == text@,
            IteratorSpec::obeys_prophetic_iter_laws(&it),
            IteratorSpec::decrease(&it) is Some,
        ensures
            out@ == text@,
        decreases IteratorSpec::decrease(&it)->0,
    {
        let ghost before = it.remaining();
        match it.next() {
            Some(c) => {
                assert(out@.push(c) + before.drop_first() =~= out@ + before);
                out.push(c);
            },
            None => {
                assert(out@ + before =~= out@);
                break ;
            },
        }
    }
    out
}

/// The spans `(start, end)` of the pieces of `s[lo..hi]` between occurrences
/// of `d`.
fn split_spans(s: &Vec<char>, lo: usize, hi: usize, d: char) -> (r: Vec<(usize, usize)>)
    requires
        lo <= hi <= s@.len(),
    ensures
        r@.len() == split(s@.subrange(lo as int, hi as int), d).len(),
        forall|k: int|
            0 <= k < r@.len() ==> {
                &&& lo <= (#[trigger] r@[k]).0 <= r@[k].1 <= hi
                &&& s@.subrange(r@[k].0 as int, r@[k].1 as int) == split(
                    s@.subrange(lo as int, hi as int),
                    d,
                )[k]
            },
{
    let mut r: Vec<(usize, usize)> = Vec::new();
    let mut st: usize = lo;
    let mut i: usize = lo;
    while i < hi
        invariant
            lo <= st <= i <= hi <= s@.len(),
            split(s@.subrange(lo as int, i as int), d).len() == r@.len() + 1,
            split(s@.subrange(lo as int, i as int), d)[r@.len() as int] == s@.subrange(
                st as int,
                i as int,
            ),
            forall|k: int|
                0 <= k < r@.len() ==> {
                    &&& lo <= (#[trigger] r@[k]).0 <= r@[k].1 <= i
                    &&& s@.subrange(r@[k].0 as int, r@[k].1 as int) == split(
                        s@.subrange(lo as int, i as int),
                        d,
                    )[k]
                },
        decreases hi - i,
    {
        assert(s@.subrange(lo as int, i + 1).drop_last() =~= s@.subrange(lo as int, i as int));
        if s[i] == d {
            r.push((st, i));
            st = i + 1;
        } else {
            assert(s@.subrange(st as int, i + 1) =~= s@.subrange(st as int, i as int).push(s@[i as int]));
        }
        i = i + 1;
    }
    r.push((st, hi));
    r
}

/// The position of the first `d` in `s[lo..hi]`, if any.
fn find_char(s: &Vec<char>, lo: usize, hi: usize, d: char) -> (r: Option<usize>)
    requires
        lo <= hi <= s@.len(),
    ensures
        match r {
            Some(i) => first_at(s@.subrange(lo as int, hi as int), d, i - lo),
            None => forall|j: int| lo <= j < hi ==> s@[j] != d,
        },
{
    let mut i: usize = lo;
    while i < hi
        invariant
            lo <= i <= hi <= s@.len(),
            forall|j: int| lo <= j < i ==> s@[j] != d,
        decreases hi - i,
    {
        if s[i] == d {
            let ghost t = s@.subrange(lo as int, hi as int);
            assert(forall|j: int| 0 <= j < i - lo ==> t[j] == s@[lo + j]);
            return Some(i);
        }
        i = i + 1;
    }
    None
}

/// The span of `s[a..b]` without one surrounding `"` on each side.
fn strip_span(s: &Vec<char>, a: usize, b: usize) -> (r: (usize, usize))
    requires
        a <= b <= s@.len(),
    ensures
        a <= r.0 <= r.1 <= b,
        s@.subrange(r.0 as int, r.1 as int) == strip_quotes(s@.subrange(a as int, b as int)),
{
    let ghost t = s@.subrange(a as int, b as int);
    let mut start = a;
    if a < b && s[a] == '"' {
        start = a + 1;
        assert(t.drop_first() =~= s@.subrange(start as int, b as int));
    }
    let ghost u = s@.subrange(start as int, b as int);
    let mut end = b;
    if start < b && s[b - 1] == '"' {
        end = b - 1;
        assert(u.drop_last() =~= s@.subrange(start as int, end as int));
    }
    (start, end)
}

/// Whether `s[a..b]` spells `lit`.
fn span_equals(s: &Vec<char>, a: usize, b: usize, lit: &str) -> (r: bool)
    requires
        a <= b <= s@.len(),
    ensures
        r == (s@.subrange(a as int, b as int) == lit@),
{
    let n = lit.unicode_len();
    if b - a != n {
        return false;
    }
    let mut k: usize = 0;
    while k < n
        invariant
            a <= b <= s@.len(),
            b - a == n == lit@.len(),
            k <= n,
            forall|j: int| 0 <= j < k ==> s@[a + j] == lit@[j],
        decreases n - k,
    {
        if s[a + k] != lit.get_char(k) {
            assert(s@.subrange(a as int, b as int)[k as int] != lit@[k as int]);
            return false;
        }
        k = k + 1;
    }
    assert(s@.subrange(a as int, b as int) =~= lit@);
    true
}

/// The span of the trigger value that the entry `s[a..b]` carries, if any.
fn entry_value(s: &Vec<char>, a: usize, b: usize) -> (r: Option<(usize, usize)>)
    requires
        a <= b <= s@.len(),
    ensures
        match r {
            Some((va, vb)) => a <= va <= vb <= b && trigger_value(s@.subrange(a as int, b as int))
                == Some(s@.subrange(va as int, vb as int)),
            None => trigger_value(s@.subrange(a as int, b as int)).is_none(),
        },
{
    let ghost t = s@.subrange(a as int, b as int);
    match find_char(s, a, b, ':') {
        None => {
            proof {
                lemma_split_once_none(t, ':');
            }
            None
        },
        Some(i) => {
            proof {
                lemma_split_once_at(t, ':', i - a);
                assert(t.subrange(0, i - a) =~= s@.subrange(a as int, i as int));
                assert(t.subrange(i - a + 1, t.len() as int) =~= s@.subrange(i + 1, b as int));
            }
            let (ka, kb) = strip_span(s, a, i);
            let (va, vb) = strip_span(s, i + 1, b);
            if span_equals(s, ka, kb, "HX-Trigger-Name") && va < vb {
                Some((va, vb))
            } else {
                None
            }
        },
    }
}

/// The command that the trigger value `text[va..vb]` names.
fn command_at(text: &str, s: &Vec<char>, va: usize, vb: usize) -> (r: (String, Option<Vec<String>>))
    requires
        s@ == text@,
        va <= vb <= s@.len(),
    ensures
        command_view(Some(r)) == Some(command_of(s@.subrange(va as int, vb as int))),
        match r.1 {
            Some(args) => args@.len() > 0,
            None => true,
        },
{
    let ghost v = s@.subrange(va as int, vb as int);
    match find_char(s, va, vb, ':') {
        None => {
            proof {
                lemma_split_once_none(v, ':');
            }
            (String::from_str(text.substring_char(va, vb)), None)
        },
        Some(i) => {
            proof {
                lemma_split_once_at(v, ':', i - va);
                assert(v.subrange(0, i - va) =~= s@.subrange(va as int, i as int));
                assert(v.subrange(i - va + 1, v.len() as int) =~= s@.subrange(i + 1, vb as int));
            }
            let name = String::from_str(text.substring_char(va, i));
            let spans = split_spans(s, i + 1, vb, ',');
            let ghost parts = split(s@.subrange(i + 1, vb as int), ',');
            proof {
                lemma_split_len(s@.subrange(i + 1, vb as int), ',');
            }
            let mut args: Vec<String> = Vec::new();
            let mut k: usize = 0;
            while k < spans.len()
                invariant
                    s@ == text@,
                    i + 1 <= vb <= s@.len(),
                    k <= spans@.len() == parts.len(),
                    args@.len() == k,
                    forall|j: int| 0 <= j < k ==> (#[trigger] args@[j])@ == parts[j],
                    forall|j: int|
                        0 <= j < spans@.len() ==> {
                            &&& i + 1 <= (#[trigger] spans@[j]).0 <= spans@[j].1 <= vb
                            &&& s@.subrange(spans@[j].0 as int, spans@[j].1 as int) == parts[j]
                        },
                decreases spans@.len() - k,
            {
                let (pa, pb) = spans[k];
                args.push(String::from_str(text.substring_char(pa, pb)));
                k = k + 1;
            }
            assert(args.deep_view() =~= parts);
            (name, Some(args))
        },
    }
}

/// Decodes a text payload into a command name and its optional arguments.
///
/// The payload is split on `{`; the third segment holds `,`-separated
/// `key:value` entries. The first entry whose key (quotes stripped) is
/// `HX-Trigger-Name` and whose value is non-empty names the command: the
/// value alone, or `name:args` with the arguments split on `,`.
pub fn decode(text: &str) -> (r: Option<(String, Option<Vec<String>>)>)
    ensures
        command_view(r) == decoded(text@),
        match r {
            Some((_, Some(args))) => args@.len() > 0,
            _ => true,
        },
{
    let s = chars_of(text);
    let n = s.len();
    assert(s@.subrange(0, n as int) =~= s@);
    let segments = split_spans(&s, 0, n, '{');
    if segments.len() < 3 {
        return None;
    }
    let (sa, sb) = segments[2];
    let entries = split_spans(&s, sa, sb, ',');
    let ghost es = split(s@.subrange(sa as int, sb as int), ',');
    assert(es.subrange(0, es.len() as int) =~= es);
    let mut k: usize = 0;
    while k < entries.len()
        invariant
            s@ == text@,
            k <= entries@.len() == es.len(),
            es == split(split(text@, '{')[2], ','),
            decoded(text@) == match first_trigger(es.subrange(k as int, es.len() as int)) {
                Some(v) => Some(command_of(v)),
                None => None,
            },
            forall|j: int|
                0 <= j < entries@.len() ==> {
                    &&& (#[trigger] entries@[j]).0 <= entries@[j].1 <= s@.len()
                    &&& s@.subrange(entries@[j].0 as int, entries@[j].1 as int) == es[j]
                },
        decreases entries@.len() - k,
    {
        let (a, b) = entries[k];
        assert(es.subrange(k as int, es.len() as int).drop_first() =~= es.subrange(k + 1, es.len() as int));
        match entry_value(&s, a, b) {
            Some((va, vb)) => {
                return Some(command_at(text, &s, va, vb));
            },
            None => {},
        }
        k = k + 1;
    }
    None
}

/// An inbound frame as the decoder sees it: the text of a text frame, or
/// any other kind of frame, which never carries a command.
pub enum Frame {
    Text(String),
    Other,
}

/// The command that a frame carries.
pub open spec fn frame_command(input: Frame) -> Option<(Seq<char>, Option<Seq<Seq<char>>>)> {
    match input {
        Frame::Text(t) => decoded(t@),
        Frame::Other => None,
    }
}

/// Decodes an inbound frame: only a text frame can carry a command, decoded
/// as `decode` does.
pub fn parse_command(input: Frame) -> (r: Option<(String, Option<Vec<String>>)>)
    ensures
        command_view(r) == frame_command(input),
        match r {
            Some((_, Some(args))) => args@.len() > 0,
            _ => true,
        },
{
    match input {
        Frame::Text(text) => decode(text.as_str()),
        Frame::Other => None,
    }
}

} // verus!
