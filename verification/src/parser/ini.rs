//! A basic INI parser.
//!
//! A line that starts with `#` is a comment. A line of the shape `[name]`
//! opens a section. A line that holds `=` is a key and a value, split at the
//! first `=`. Every other line is ignored. Lines are trimmed before they are
//! read; keys and values are not trimmed any further.

use super::{write_over, BufferFull, UnParser};
use crate::text::{
    chars_of, find_char, index_of, is_whitespace, lemma_index_of, lemma_index_of_is, lemma_trim,
    lemma_trim_fixed, split, string_of, trim, trim_range,
};
use vstd::prelude::*;
use vstd::string::StrSliceExecFns;
use vstd::string::StringExecFns;

verus! {

/// A key and its value, with the section they were found in.
#[derive(Debug)]
pub struct Pair {
    /// The name of the section header that came last before the pair, or the
    /// empty string where none did.
    pub section: String,
    pub key: String,
    pub value: String,
}

/// What a [`Pair`] holds, as character sequences.
pub struct PairView {
    pub section: Seq<char>,
    pub key: Seq<char>,
    pub value: Seq<char>,
}

impl View for Pair {
    type V = PairView;

    open spec fn view(&self) -> PairView {
        PairView { section: self.section@, key: self.key@, value: self.value@ }
    }
}

impl DeepView for Pair {
    type V = PairView;

    open spec fn deep_view(&self) -> PairView {
        self@
    }
}

impl Clone for Pair {
    fn clone(&self) -> (r: Self)
        ensures
            r == *self,
    {
        Pair { section: self.section.clone(), key: self.key.clone(), value: self.value.clone() }
    }
}

/// What one line of the text says.
pub enum Line {
    /// A comment: nothing.
    Comment,
    /// The header of the section with this name.
    Section(Seq<char>),
    /// A key and a value.
    Entry(Seq<char>, Seq<char>),
    /// Anything else: nothing.
    Other,
}

/// Reads one line. The line is trimmed first.
pub open spec fn classify(line: Seq<char>) -> Line {
    let t = trim(line);
    let eq = index_of(t, '=');
    if t.len() > 0 && t[0] == '#' {
        Line::Comment
    } else if t.len() > 0 && t[0] == '[' && t.last() == ']' {
        Line::Section(t.subrange(1, t.len() - 1))
    } else if eq < t.len() {
        Line::Entry(t.take(eq), t.skip(eq + 1))
    } else {
        Line::Other
    }
}

/// The pairs that `lines` hold when read in order, the first of them inside
/// the section `section`.
pub open spec fn pairs_of_lines(lines: Seq<Seq<char>>, section: Seq<char>) -> Seq<PairView>
    decreases lines.len(),
{
    if lines.len() == 0 {
        Seq::empty()
    } else {
        match classify(lines[0]) {
            Line::Section(name) => pairs_of_lines(lines.drop_first(), name),
            Line::Entry(key, value) => seq![PairView { section, key, value }] + pairs_of_lines(
                lines.drop_first(),
                section,
            ),
            _ => pairs_of_lines(lines.drop_first(), section),
        }
    }
}

/// The pairs of `text` when its first line lies inside the section `section`.
pub open spec fn parse_from(text: Seq<char>, section: Seq<char>) -> Seq<PairView> {
    pairs_of_lines(split(text, '\n'), section)
}

/// The pairs of `text`.
pub open spec fn parse(text: Seq<char>) -> Seq<PairView> {
    parse_from(text, Seq::empty())
}

/// The text that `pairs` are written as, after a pair of the section `last`:
/// a header line before each pair whose section differs from that of the
/// pair before it, and a line `key=value` for the pair itself.
pub open spec fn serialize_from(pairs: Seq<PairView>, last: Seq<char>) -> Seq<char>
    decreases pairs.len(),
{
    if pairs.len() == 0 {
        Seq::empty()
    } else {
        let p = pairs[0];
        let header = if p.section != last {
            seq!['['] + p.section + seq![']', '\n']
        } else {
            Seq::empty()
        };
        header + p.key + seq!['='] + p.value + seq!['\n'] + serialize_from(
            pairs.drop_first(),
            p.section,
        )
    }
}

/// The text that `pairs` are written as.
pub open spec fn serialize(pairs: Seq<PairView>) -> Seq<char> {
    serialize_from(pairs, Seq::empty())
}

/// How [`parse_from`] unfolds at the first line break of a text.
pub proof fn lemma_parse_unfold(text: Seq<char>, section: Seq<char>)
    ensures
        parse_from(text, section) == {
            let end = index_of(text, '\n');
            let rest = if end < text.len() {
                text.skip(end + 1)
            } else {
                Seq::empty()
            };
            match classify(text.take(end)) {
                Line::Section(name) => parse_from(rest, name),
                Line::Entry(key, value) => seq![PairView { section, key, value }] + parse_from(
                    rest,
                    section,
                ),
                _ => parse_from(rest, section),
            }
        },
{
    reveal_with_fuel(pairs_of_lines, 2);
    lemma_index_of(text, '\n');
    let end = index_of(text, '\n');
    let lines = split(text, '\n');
    lemma_parse_empty(section);
    match classify(text.take(end)) {
        Line::Section(name) => lemma_parse_empty(name),
        _ => {},
    }
    if end < text.len() {
        assert(lines.drop_first() =~= split(text.skip(end + 1), '\n'));
    } else {
        assert(text.take(end) =~= text);
        assert(lines.drop_first() =~= Seq::<Seq<char>>::empty());
    }
}

/// The empty text holds no pair.
pub proof fn lemma_parse_empty(section: Seq<char>)
    ensures
        parse_from(Seq::empty(), section) == Seq::<PairView>::empty(),
{
    let lines = split(Seq::<char>::empty(), '\n');
    assert(lines == seq![Seq::<char>::empty()]);
    assert(lines.drop_first() =~= Seq::<Seq<char>>::empty());
    assert(classify(lines[0]) == Line::Other);
    reveal_with_fuel(pairs_of_lines, 2);
}

/// An INI parser: it hands out the pairs of a text one at a time.
#[derive(Debug)]
pub struct Parse {
    text: Vec<char>,
    pos: usize,
    section: String,
}

impl Parse {
    #[verifier::type_invariant]
    spec fn inv(&self) -> bool {
        self.pos <= self.text.len()
    }

    /// The pairs that are still to come.
    pub closed spec fn remaining(&self) -> Seq<PairView> {
        parse_from(self.text@.skip(self.pos as int), self.section@)
    }

    /// A parser at the start of `s`.
    pub fn from(s: &str) -> (p: Parse)
        ensures
            p.remaining() == parse(s@),
    {
        let text = chars_of(s);
        assert(text@.skip(0) =~= s@);
        Parse { text, pos: 0, section: String::new() }
    }

    /// The next pair of the text, or `None` when there is none left.
    pub fn next(&mut self) -> (r: Option<Pair>)
        ensures
            match r {
                Some(p) => old(self).remaining().len() > 0 && p@ == old(self).remaining()[0]
                    && final(self).remaining() == old(self).remaining().drop_first(),
                None => old(self).remaining().len() == 0 && final(self).remaining().len() == 0,
            },
    {
        proof {
            use_type_invariant(&*self);
        }
        let n = self.text.len();
        while self.pos < n
            invariant
                n == self.text.len(),
                self.pos <= n,
                self.text == old(self).text,
                self.remaining() == old(self).remaining(),
            decreases n - self.pos,
        {
            let ghost rest = self.text@.skip(self.pos as int);
            let start = self.pos;
            let end = find_char(&self.text, start, n, '\n');
            let (a, b) = trim_range(&self.text, start, end);
            proof {
                lemma_parse_unfold(rest, self.section@);
                assert(self.text@.subrange(start as int, n as int) =~= rest);
                assert(rest.take(end - start) =~= self.text@.subrange(start as int, end as int));
                if end < n {
                    assert(rest.skip(end - start + 1) =~= self.text@.skip(end as int + 1));
                } else {
                    assert(self.text@.skip(n as int) =~= Seq::<char>::empty());
                }
            }
            let ghost t = self.text@.subrange(a as int, b as int);
            let next = if end < n {
                end + 1
            } else {
                n
            };
            if a < b && self.text[a] == '#' {
                self.pos = next;
            } else if a < b && self.text[a] == '[' && self.text[b - 1] == ']' {
                let name = string_of(&self.text, a + 1, b - 1);
                assert(t.subrange(1, t.len() - 1) =~= self.text@.subrange(a as int + 1, b as int - 1));
                self.section = name;
                self.pos = next;
            } else {
                let eq = find_char(&self.text, a, b, '=');
                if eq < b {
                    let key = string_of(&self.text, a, eq);
                    let value = string_of(&self.text, eq + 1, b);
                    assert(t.take(eq - a) =~= self.text@.subrange(a as int, eq as int));
                    assert(t.skip(eq - a + 1) =~= self.text@.subrange(eq as int + 1, b as int));
                    let pair = Pair { section: self.section.clone(), key, value };
                    self.pos = next;
                    assert(old(self).remaining() =~= seq![pair@] + self.remaining());
                    assert(old(self).remaining().drop_first() =~= self.remaining());
                    return Some(pair);
                }
                self.pos = next;
            }
        }
        proof {
            assert(self.text@.skip(n as int) =~= Seq::<char>::empty());
            lemma_parse_empty(self.section@);
        }
        None
    }

    /// All the pairs that are still to come, in order.
    pub fn collect(self) -> (pairs: Vec<Pair>)
        ensures
            pairs.deep_view() == self.remaining(),
    {
        let mut parser = self;
        let mut pairs: Vec<Pair> = Vec::new();
        loop
            invariant
                self.remaining() == pairs.deep_view() + parser.remaining(),
            decreases parser.remaining().len(),
        {
            let ghost before = pairs.deep_view();
            match parser.next() {
                Some(pair) => {
                    pairs.push(pair);
                    assert(pairs.deep_view() =~= before.push(pair@));
                },
                None => {
                    assert(parser.remaining() =~= Seq::<PairView>::empty());
                    return pairs;
                },
            }
        }
    }
}

/// The pairs of `text`, in order.
pub fn parse_str(text: &str) -> (pairs: Vec<Pair>)
    ensures
        pairs.deep_view() == parse(text@),
{
    Parse::from(text).collect()
}

impl UnParser for Vec<Pair> {
    open spec fn serialized(&self) -> Seq<char> {
        serialize(self.deep_view())
    }

    fn serialize_to_string(&self) -> (s: String) {
        let empty = String::new();
        let mut out = String::new();
        let mut i: usize = 0;
        assert(self.deep_view().skip(0) =~= self.deep_view());
        assert(out@ + serialize(self.deep_view()) =~= serialize(self.deep_view()));
        while i < self.len()
            invariant
                i <= self.len(),
                empty@ == Seq::<char>::empty(),
                serialize(self.deep_view()) == out@ + serialize_from(
                    self.deep_view().skip(i as int),
                    if i == 0 {
                        Seq::empty()
                    } else {
                        self[i - 1].section@
                    },
                ),
            decreases self.len() - i,
        {
            let ghost rest = self.deep_view().skip(i as int);
            let ghost before = out@;
            let p = &self[i];
            assert(rest[0] == p@);
            assert(rest.drop_first() =~= self.deep_view().skip(i + 1));
            let same = if i == 0 {
                p.section == empty
            } else {
                p.section == self[i - 1].section
            };
            if !same {
                out.push('[');
                out.append(p.section.as_str());
                out.push(']');
                out.push('\n');
                assert(out@ =~= before + (seq!['['] + p.section@ + seq![']', '\n']));
            }
            let ghost with_header = out@;
            out.append(p.key.as_str());
            out.push('=');
            out.append(p.value.as_str());
            out.push('\n');
            assert(out@ =~= with_header + p.key@ + seq!['='] + p.value@ + seq!['\n']);
            i += 1;
            assert(serialize(self.deep_view()) =~= out@ + serialize_from(
                self.deep_view().skip(i as int),
                p.section@,
            ));
        }
        assert(self.deep_view().skip(i as int) =~= Seq::<PairView>::empty());
        assert(out@ + Seq::<char>::empty() =~= out@);
        out
    }

    fn serialize_to_bytes(&self) -> (bytes: Vec<u8>) {
        let s = self.serialize_to_string();
        s.as_str().as_bytes_vec()
    }

    fn serialize_into_bytes(&self, buf: &mut Vec<u8>) -> (r: Result<(), BufferFull>) {
        let bytes = self.serialize_to_bytes();
        write_over(&bytes, buf)
    }
}

/// Whether a pair comes back from the text it is written as: no part holds
/// a line break, the key holds no `=`, the line `key=value` neither begins
/// nor ends with whitespace, and it reads neither as a comment nor as a
/// section header.
pub open spec fn survives(p: PairView) -> bool {
    &&& !p.section.contains('\n')
    &&& !p.key.contains('\n')
    &&& !p.key.contains('=')
    &&& !p.value.contains('\n')
    &&& p.key.len() > 0 ==> !is_whitespace(p.key[0]) && p.key[0] != '#'
    &&& p.value.len() > 0 ==> !is_whitespace(p.value.last())
    &&& !(p.key.len() > 0 && p.key[0] == '[' && p.value.len() > 0 && p.value.last() == ']')
}

/// A text that begins with a line `line`, a line break and then `rest`
/// holds what the line says, followed by the pairs of `rest`.
pub proof fn lemma_parse_line(line: Seq<char>, rest: Seq<char>, section: Seq<char>)
    requires
        !line.contains('\n'),
    ensures
        parse_from(line + seq!['\n'] + rest, section) == match classify(line) {
            Line::Section(name) => parse_from(rest, name),
            Line::Entry(key, value) => seq![PairView { section, key, value }] + parse_from(
                rest,
                section,
            ),
            _ => parse_from(rest, section),
        },
{
    let text = line + seq!['\n'] + rest;
    assert forall|j: int| 0 <= j < line.len() implies text[j] != '\n' by {
        assert(text[j] == line[j]);
    }
    lemma_index_of_is(text, '\n', line.len() as int);
    lemma_parse_unfold(text, section);
    assert(text.take(line.len() as int) =~= line);
    assert(text.skip(line.len() as int + 1) =~= rest);
}

/// The line `[name]` is the header of the section `name`.
pub proof fn lemma_classify_header(name: Seq<char>)
    ensures
        classify(seq!['['] + name + seq![']']) == Line::Section(name),
{
    let line = seq!['['] + name + seq![']'];
    lemma_trim_fixed(line);
    assert(line.subrange(1, line.len() - 1) =~= name);
}

/// The line `key=value` of a pair that [`survives`] is that key and value.
pub proof fn lemma_classify_entry(p: PairView)
    requires
        survives(p),
    ensures
        classify(p.key + seq!['='] + p.value) == Line::Entry(p.key, p.value),
{
    let line = p.key + seq!['='] + p.value;
    lemma_trim_fixed(line);
    assert forall|j: int| 0 <= j < p.key.len() implies line[j] != '=' by {
        assert(line[j] == p.key[j]);
    }
    lemma_index_of_is(line, '=', p.key.len() as int);
    assert(line.take(p.key.len() as int) =~= p.key);
    assert(line.skip(p.key.len() as int + 1) =~= p.value);
}

/// Round trip, from any point in a text: pairs that [`survive`](survives),
/// written after a pair of the section `last` and parsed from inside that
/// section, come back as they were.
pub proof fn lemma_round_trip_from(pairs: Seq<PairView>, last: Seq<char>)
    requires
        forall|i: int| 0 <= i < pairs.len() ==> survives(#[trigger] pairs[i]),
    ensures
        parse_from(serialize_from(pairs, last), last) == pairs,
    decreases pairs.len(),
{
    if pairs.len() == 0 {
        lemma_parse_empty(last);
    } else {
        let p = pairs[0];
        let tail = pairs.drop_first();
        assert(survives(p));
        assert forall|i: int| 0 <= i < tail.len() implies survives(#[trigger] tail[i]) by {
            assert(tail[i] == pairs[i + 1]);
        }
        lemma_round_trip_from(tail, p.section);
        let after = serialize_from(tail, p.section);
        let entry = p.key + seq!['='] + p.value;
        assert forall|j: int| 0 <= j < entry.len() implies entry[j] != '\n' by {
            if j < p.key.len() {
                assert(entry[j] == p.key[j]);
            } else if j > p.key.len() {
                assert(entry[j] == p.value[j - p.key.len() - 1]);
            }
        }
        lemma_classify_entry(p);
        lemma_parse_line(entry, after, p.section);
        assert(seq![p] + tail =~= pairs);
        if p.section != last {
            let header = seq!['['] + p.section + seq![']'];
            assert forall|j: int| 0 <= j < header.len() implies header[j] != '\n' by {
                if 0 < j <= p.section.len() {
                    assert(header[j] == p.section[j - 1]);
                }
            }
            lemma_classify_header(p.section);
            lemma_parse_line(header, entry + seq!['\n'] + after, last);
            assert(serialize_from(pairs, last) =~= header + seq!['\n'] + (entry + seq!['\n']
                + after));
        } else {
            assert(serialize_from(pairs, last) =~= entry + seq!['\n'] + after);
        }
    }
}

/// Round trip: a sequence of pairs that [`survive`](survives), written as
/// text and parsed again, comes back as it was, in the same order.
pub proof fn lemma_round_trip(pairs: Seq<PairView>)
    requires
        forall|i: int| 0 <= i < pairs.len() ==> survives(#[trigger] pairs[i]),
    ensures
        parse(serialize(pairs)) == pairs,
{
    lemma_round_trip_from(pairs, Seq::empty());
}

/// What a line without a line break says holds no line break either, and
/// a key and a value that it gives [`survive`](survives) in any section
/// without one.
pub proof fn lemma_classified_survives(line: Seq<char>, section: Seq<char>)
    requires
        !line.contains('\n'),
        !section.contains('\n'),
    ensures
        classify(line) matches Line::Section(name) ==> !name.contains('\n'),
        classify(line) matches Line::Entry(key, value) ==> survives(
            PairView { section, key, value },
        ),
{
    let t = trim(line);
    lemma_trim(line);
    lemma_index_of(t, '=');
    assert forall|i: int| 0 <= i < t.len() implies t[i] != '\n' by {
        assert(line.contains(t[i]));
    }
    match classify(line) {
        Line::Section(name) => {
            assert forall|i: int| 0 <= i < name.len() implies name[i] != '\n' by {
                assert(name[i] == t[i + 1]);
            }
        },
        Line::Entry(key, value) => {
            let eq = index_of(t, '=');
            assert forall|i: int| 0 <= i < key.len() implies key[i] != '\n' && key[i] != '=' by {
                assert(key[i] == t[i]);
            }
            assert forall|i: int| 0 <= i < value.len() implies value[i] != '\n' by {
                assert(value[i] == t[eq + 1 + i]);
            }
            if key.len() > 0 {
                assert(key[0] == t[0]);
            }
            if value.len() > 0 {
                assert(value.last() == t.last());
            }
        },
        _ => {},
    }
}

/// Every pair that a text holds [`survives`].
pub proof fn lemma_parsed_pairs_survive(text: Seq<char>, section: Seq<char>)
    requires
        !section.contains('\n'),
    ensures
        forall|i: int|
            0 <= i < parse_from(text, section).len() ==> survives(
                #[trigger] parse_from(text, section)[i],
            ),
    decreases text.len(),
{
    if text.len() == 0 {
        assert(text =~= Seq::empty());
        lemma_parse_empty(section);
    } else {
        lemma_index_of(text, '\n');
        lemma_parse_unfold(text, section);
        let end = index_of(text, '\n');
        let line = text.take(end);
        let rest = if end < text.len() {
            text.skip(end + 1)
        } else {
            Seq::empty()
        };
        assert forall|i: int| 0 <= i < line.len() implies line[i] != '\n' by {
            assert(line[i] == text[i]);
        }
        lemma_classified_survives(line, section);
        if end == text.len() {
            lemma_parse_empty(section);
            match classify(line) {
                Line::Section(name) => lemma_parse_empty(name),
                _ => {},
            }
        } else {
            match classify(line) {
                Line::Section(name) => lemma_parsed_pairs_survive(rest, name),
                _ => lemma_parsed_pairs_survive(rest, section),
            }
        }
        let all = parse_from(text, section);
        assert forall|i: int| 0 <= i < all.len() implies survives(#[trigger] all[i]) by {
            match classify(line) {
                Line::Entry(key, value) => {
                    if i > 0 {
                        assert(all[i] == parse_from(rest, section)[i - 1]);
                    }
                },
                _ => {},
            }
        }
    }
}

/// Round trip, both ways: a sequence of pairs comes back from the text it
/// is written as exactly when each of its pairs [`survives`].
pub proof fn lemma_round_trip_exactly(pairs: Seq<PairView>)
    ensures
        parse(serialize(pairs)) == pairs <==> forall|i: int|
            0 <= i < pairs.len() ==> survives(#[trigger] pairs[i]),
{
    if forall|i: int| 0 <= i < pairs.len() ==> survives(#[trigger] pairs[i]) {
        lemma_round_trip(pairs);
    }
    if parse(serialize(pairs)) == pairs {
        lemma_parsed_pairs_survive(serialize(pairs), Seq::empty());
    }
}

/// A parser: it hands out the items of a text one at a time.
pub trait Parser {
}

impl Parser for Parse {
}

} // verus!
