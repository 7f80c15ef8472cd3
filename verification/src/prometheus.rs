//! Prometheus scrape collector: pulls a text exposition over a minimal HTTP/1.1 `GET`
//! and maps it onto the signal model. The GenAI metrics follow the OpenTelemetry GenAI
//! semantic conventions; everything else is renamed into `harnesssphere.openclaw.*`,
//! labels become attributes and `# TYPE` declarations become metric kinds.
//!
//! Sample values stay the text the exposition holds. The edge parses them as floats
//! (dropping a sample whose value does not parse) and reassembles histogram buckets,
//! which is floating-point arithmetic.

use crate::ports::{Criticality, ProbeResult, SourceDescriptor};
use crate::signal::{attrs_view, AttrValue, AttrView, Layer, MetricKind};
use crate::text::{
    chars_of, concat, fields_seq, first_index, has_prefix, has_suffix, lemma_first_index,
    lemma_first_index_unique, lemma_lex_irreflexive, lemma_lex_total, lemma_lex_transitive,
    lex_less, lex_lt, lines_seq, next_field, next_line, owned, parse_unsigned,
    parse_unsigned_seq, skip_ws, string_of_window, text_eq, trim_seq, trim_start_seq,
    trim_window, window_ends_with, window_eq, window_starts_with,
};
use crate::clock::{duration_from_secs, duration_of_secs};
use crate::ports::CollectError;
use std::time::Duration;
use vstd::prelude::*;
use vstd::utf8::{decode_utf8, valid_utf8};

verus! {

// ------------------------------------------------------------------------------------
// Label sets
// ------------------------------------------------------------------------------------

/// The label set of `s` (which starts with `{`) ends at the first `}` outside a quoted
/// value, scanning from position `i` in the given quoting state.
pub open spec fn label_end_from(s: Seq<char>, i: int, in_quote: bool, escaped: bool) -> Option<int>
    decreases s.len() - i,
{
    if i < 0 || i >= s.len() {
        None
    } else {
        let c = s[i];
        if in_quote {
            if escaped {
                label_end_from(s, i + 1, true, false)
            } else if c == '\\' {
                label_end_from(s, i + 1, true, true)
            } else if c == '"' {
                label_end_from(s, i + 1, false, false)
            } else {
                label_end_from(s, i + 1, true, false)
            }
        } else if c == '"' {
            label_end_from(s, i + 1, true, false)
        } else if c == '}' {
            Some(i)
        } else {
            label_end_from(s, i + 1, false, false)
        }
    }
}

/// Index of the `}` closing the label set `s` (which starts with `{`), respecting quoted
/// values and backslash escapes inside them.
pub open spec fn label_end(s: Seq<char>) -> Option<int> {
    label_end_from(s, 1, false, false)
}

proof fn lemma_label_end_from(s: Seq<char>, i: int, q: bool, e: bool)
    ensures
        label_end_from(s, i, q, e) matches Some(k) ==> i <= k < s.len() && s[k] == '}',
    decreases s.len() - i,
{
    if 0 <= i < s.len() {
        let c = s[i];
        if q {
            if e {
                lemma_label_end_from(s, i + 1, true, false);
            } else if c == '\\' {
                lemma_label_end_from(s, i + 1, true, true);
            } else if c == '"' {
                lemma_label_end_from(s, i + 1, false, false);
            } else {
                lemma_label_end_from(s, i + 1, true, false);
            }
        } else if c == '"' {
            lemma_label_end_from(s, i + 1, true, false);
        } else if c != '}' {
            lemma_label_end_from(s, i + 1, false, false);
        }
    }
}

pub fn find_label_end(s: &Vec<char>) -> (r: Option<usize>)
    ensures
        match r {
            Some(k) => label_end(s@) == Some(k as int),
            None => label_end(s@).is_none(),
        },
{
    let mut i: usize = 1;
    let mut in_quote = false;
    let mut escaped = false;
    while i < s.len()
        invariant
            1 <= i,
            escaped ==> in_quote,
            label_end(s@) == label_end_from(s@, i as int, in_quote, escaped),
        decreases s.len() - i,
    {
        let c = s[i];
        if in_quote {
            if escaped {
                escaped = false;
            } else if c == '\\' {
                escaped = true;
            } else if c == '"' {
                in_quote = false;
            }
        } else if c == '"' {
            in_quote = true;
        } else if c == '}' {
            return Some(i);
        }
        i += 1;
    }
    None
}

/// The text a backslash followed by `d` stands for inside a label value: `\n`, `\"` and
/// `\\` are escapes; any other character keeps its backslash.
pub open spec fn escape_of(d: char) -> Seq<char> {
    if d == 'n' {
        seq!['\n']
    } else if d == '"' {
        seq!['"']
    } else if d == '\\' {
        seq!['\\']
    } else {
        seq!['\\', d]
    }
}

/// A quoted label value whose text starts at `j`: its unescaped characters and the
/// position after its closing quote (the end, when it is never closed).
pub open spec fn read_value(s: Seq<char>, j: int) -> (Seq<char>, int)
    decreases s.len() - j,
{
    if j < 0 || j >= s.len() {
        (Seq::empty(), s.len() as int)
    } else if s[j] == '\\' && j + 1 < s.len() {
        let (v, a) = read_value(s, j + 2);
        (escape_of(s[j + 1]) + v, a)
    } else if s[j] == '"' {
        (Seq::empty(), j + 1)
    } else {
        let (v, a) = read_value(s, j + 1);
        (seq![s[j]] + v, a)
    }
}

pub proof fn lemma_read_value(s: Seq<char>, j: int)
    requires
        0 <= j,
    ensures
        j < read_value(s, j).1 <= s.len() || (j >= s.len() && read_value(s, j).1 == s.len()),
    decreases s.len() - j,
{
    if j < s.len() {
        if s[j] == '\\' && j + 1 < s.len() {
            lemma_read_value(s, j + 2);
        } else if s[j] != '"' {
            lemma_read_value(s, j + 1);
        }
    }
}

/// First position at or after `i` holding none of `,`, space and tab (or the end).
pub open spec fn skip_seps(s: Seq<char>, i: int) -> int
    decreases s.len() - i,
{
    if i < 0 || i >= s.len() {
        if i < 0 { 0 } else { i }
    } else if s[i] == ',' || s[i] == ' ' || s[i] == '\t' {
        skip_seps(s, i + 1)
    } else {
        i
    }
}

/// First position at or after `i` holding `c` (or the end).
pub open spec fn find_from(s: Seq<char>, i: int, c: char) -> int
    decreases s.len() - i,
{
    if i < 0 || i >= s.len() {
        if i < 0 { 0 } else { i }
    } else if s[i] == c {
        i
    } else {
        find_from(s, i + 1, c)
    }
}

pub proof fn lemma_skip_find(s: Seq<char>, i: int)
    requires
        0 <= i,
    ensures
        i <= skip_seps(s, i),
        i <= find_from(s, i, '='),
    decreases s.len() - i,
{
    if i < s.len() {
        lemma_skip_find(s, i + 1);
    }
}

/// The labels `k1="v1",k2="v2"` from position `i` on: separators (`,`, space, tab) are
/// skipped, a key runs to `=` and is trimmed, its value must be quoted; parsing stops at
/// the first label that breaks this shape. A label with an empty key is dropped.
pub open spec fn labels_from(s: Seq<char>, i: int) -> Seq<(Seq<char>, Seq<char>)>
    decreases s.len() - i,
{
    if i < 0 || i >= s.len() {
        Seq::empty()
    } else {
        let i1 = skip_seps(s, i);
        if i1 >= s.len() {
            Seq::empty()
        } else {
            let e = find_from(s, i1, '=');
            if e >= s.len() || e + 1 >= s.len() || s[e + 1] != '"' {
                Seq::empty()
            } else {
                let key = trim_seq(s.subrange(i1, e));
                let (val, after) = read_value(s, e + 2);
                proof {
                    lemma_skip_find(s, i);
                    lemma_skip_find(s, i1);
                    lemma_read_value(s, e + 2);
                }
                (if key.len() > 0 {
                    seq![(key, val)]
                } else {
                    Seq::empty()
                }) + labels_from(s, after)
            }
        }
    }
}

/// The labels of a label set's contents (the text between the braces).
pub open spec fn labels_spec(s: Seq<char>) -> Seq<(Seq<char>, Seq<char>)> {
    labels_from(s, 0)
}

pub open spec fn label_pairs_view(v: Seq<(String, String)>) -> Seq<(Seq<char>, Seq<char>)> {
    v.map_values(|p: (String, String)| (p.0@, p.1@))
}

/// Reads the quoted value starting at `j`.
fn read_value_exec(s: &Vec<char>, j: usize) -> (r: (Vec<char>, usize))
    ensures
        r.0@ == read_value(s@, j as int).0,
        r.1 as int == read_value(s@, j as int).1,
{
    let mut acc: Vec<char> = Vec::new();
    let mut k = j;
    while k < s.len()
        invariant
            j <= k,
            acc@ + read_value(s@, k as int).0 == read_value(s@, j as int).0,
            read_value(s@, k as int).1 == read_value(s@, j as int).1,
        decreases s.len() - k,
    {
        let c = s[k];
        if c == '\\' && k + 1 < s.len() {
            let d = s[k + 1];
            let ghost a0 = acc@;
            if d == 'n' {
                acc.push('\n');
            } else if d == '"' {
                acc.push('"');
            } else if d == '\\' {
                acc.push('\\');
            } else {
                acc.push('\\');
                acc.push(d);
            }
            assert(acc@ =~= a0 + escape_of(d));
            assert(a0 + (escape_of(d) + read_value(s@, k + 2).0) =~= acc@ + read_value(s@, k + 2).0);
            k = k + 2;
        } else if c == '"' {
            assert(acc@ + Seq::<char>::empty() =~= acc@);
            return (acc, k + 1);
        } else {
            let ghost a0 = acc@;
            acc.push(c);
            assert(a0 + (seq![c] + read_value(s@, k + 1).0) =~= acc@ + read_value(s@, k + 1).0);
            k = k + 1;
        }
    }
    assert(acc@ + Seq::<char>::empty() =~= acc@);
    (acc, s.len())
}

/// Parses the contents of a label set (`k1="v1",k2="v2"`), unescaping `\\`, `\"` and
/// `\n` and allowing commas inside quoted values.
pub fn parse_labels(s: &Vec<char>) -> (r: Vec<(String, String)>)
    ensures
        label_pairs_view(r@) == labels_spec(s@),
{
    let mut out: Vec<(String, String)> = Vec::new();
    let mut i: usize = 0;
    assert(label_pairs_view(out@) =~= Seq::<(Seq<char>, Seq<char>)>::empty());
    assert(labels_spec(s@) =~= Seq::<(Seq<char>, Seq<char>)>::empty() + labels_from(s@, 0));
    while i < s.len()
        invariant
            i <= s.len(),
            label_pairs_view(out@) + labels_from(s@, i as int) == labels_spec(s@),
        decreases s.len() - i,
    {
        let ghost total = labels_spec(s@);
        let ghost o0 = label_pairs_view(out@);
        let mut i1 = i;
        while i1 < s.len() && (s[i1] == ',' || s[i1] == ' ' || s[i1] == '\t')
            invariant
                i <= i1 <= s.len(),
                skip_seps(s@, i1 as int) == skip_seps(s@, i as int),
            decreases s.len() - i1,
        {
            i1 += 1;
        }
        if i1 >= s.len() {
            assert(labels_from(s@, i as int) =~= Seq::<(Seq<char>, Seq<char>)>::empty());
            assert(o0 + Seq::<(Seq<char>, Seq<char>)>::empty() =~= o0);
            return out;
        }
        let mut e = i1;
        while e < s.len() && s[e] != '='
            invariant
                i1 <= e <= s.len(),
                find_from(s@, e as int, '=') == find_from(s@, i1 as int, '='),
            decreases s.len() - e,
        {
            e += 1;
        }
        if e >= s.len() || e + 1 >= s.len() || s[e + 1] != '"' {
            assert(labels_from(s@, i as int) =~= Seq::<(Seq<char>, Seq<char>)>::empty());
            assert(o0 + Seq::<(Seq<char>, Seq<char>)>::empty() =~= o0);
            return out;
        }
        let (ka, kb) = trim_window(s, i1, e);
        let (val, after) = read_value_exec(s, e + 2);
        proof {
            lemma_read_value(s@, e + 2);
        }
        let ghost key = trim_seq(s@.subrange(i1 as int, e as int));
        let ghost head: Seq<(Seq<char>, Seq<char>)> = if key.len() > 0 { seq![(key, val@)] } else { Seq::empty() };
        assert(labels_from(s@, i as int) == head + labels_from(s@, after as int));
        if ka < kb {
            let k = string_of_window(s, ka, kb);
            let v = string_of_window(&val, 0, val.len());
            assert(val@.subrange(0, val@.len() as int) =~= val@);
            out.push((k, v));
            assert(label_pairs_view(out@) =~= o0.push((key, val@)));
            assert(o0.push((key, val@)) + labels_from(s@, after as int) =~= o0 + (head + labels_from(s@, after as int)));
        } else {
            assert(head =~= Seq::<(Seq<char>, Seq<char>)>::empty());
            assert(head + labels_from(s@, after as int) =~= labels_from(s@, after as int));
        }
        i = after;
    }
    assert(labels_from(s@, i as int) =~= Seq::<(Seq<char>, Seq<char>)>::empty());
    assert(label_pairs_view(out@) + Seq::<(Seq<char>, Seq<char>)>::empty() =~= label_pairs_view(out@));
    out
}

// ------------------------------------------------------------------------------------
// Samples and the exposition
// ------------------------------------------------------------------------------------

/// A metric family's declared type.
#[derive(Debug, Clone, Copy, PartialEq, Eq, Structural)]
pub enum FamilyType {
    Counter,
    Gauge,
    Histogram,
    Summary,
    Untyped,
}

pub open spec fn family_of(t: Seq<char>) -> FamilyType {
    if t == "counter"@ {
        FamilyType::Counter
    } else if t == "gauge"@ {
        FamilyType::Gauge
    } else if t == "histogram"@ {
        FamilyType::Histogram
    } else if t == "summary"@ {
        FamilyType::Summary
    } else {
        FamilyType::Untyped
    }
}

fn family_exec(s: &Vec<char>, lo: usize, hi: usize) -> (f: FamilyType)
    requires
        lo <= hi <= s.len(),
    ensures
        f == family_of(s@.subrange(lo as int, hi as int)),
{
    if window_eq(s, lo, hi, &chars_of("counter")) {
        FamilyType::Counter
    } else if window_eq(s, lo, hi, &chars_of("gauge")) {
        FamilyType::Gauge
    } else if window_eq(s, lo, hi, &chars_of("histogram")) {
        FamilyType::Histogram
    } else if window_eq(s, lo, hi, &chars_of("summary")) {
        FamilyType::Summary
    } else {
        FamilyType::Untyped
    }
}

/// One sample line: metric name, labels, and the value as written (a timestamp after it
/// is ignored).
#[derive(Debug, Clone)]
pub struct Sample {
    pub name: String,
    pub labels: Vec<(String, String)>,
    pub value: String,
}

pub struct SampleView {
    pub name: Seq<char>,
    pub labels: Seq<(Seq<char>, Seq<char>)>,
    pub value: Seq<char>,
}

impl View for Sample {
    type V = SampleView;

    open spec fn view(&self) -> SampleView {
        SampleView { name: self.name@, labels: label_pairs_view(self.labels@), value: self.value@ }
    }
}

pub open spec fn is_name_end(c: char) -> bool {
    c == '{' || c == ' ' || c == '\t'
}

/// Where the metric name of a sample line ends: its first `{`, space or tab (or the end).
pub open spec fn name_end(s: Seq<char>) -> int
    decreases s.len(),
{
    if s.len() == 0 {
        0
    } else if is_name_end(s[0]) {
        0
    } else {
        1 + name_end(s.drop_first())
    }
}

proof fn lemma_name_end_at(s: Seq<char>, i: int)
    requires
        0 <= i <= s.len(),
        forall|j: int| 0 <= j < i ==> !is_name_end(#[trigger] s[j]),
        i < s.len() ==> is_name_end(s[i]),
    ensures
        name_end(s) == i,
    decreases s.len(),
{
    if s.len() > 0 && !is_name_end(s[0]) {
        assert forall|j: int| 0 <= j < i - 1 implies !is_name_end(#[trigger] s.drop_first()[j]) by {
            assert(s.drop_first()[j] == s[j + 1]);
        }
        lemma_name_end_at(s.drop_first(), i - 1);
    }
}

/// A (trimmed) sample line: `name{labels} value [timestamp]` or `name value
/// [timestamp]`. No separator after the name, an empty name, an unclosed label set or a
/// missing value make it no sample.
pub open spec fn sample_spec(line: Seq<char>) -> Option<SampleView> {
    let split = name_end(line);
    if split >= line.len() || split < 0 {
        None
    } else {
        let name = trim_seq(line.take(split));
        let after = line.skip(split);
        if name.len() == 0 {
            None
        } else if after[0] == '{' {
            match label_end(after) {
                Some(end) => {
                    let fs = fields_seq(after.skip(end + 1));
                    if fs.len() == 0 {
                        None
                    } else {
                        Some(SampleView { name, labels: labels_spec(after.subrange(1, end)), value: fs[0] })
                    }
                },
                None => None,
            }
        } else {
            let fs = fields_seq(after);
            if fs.len() == 0 {
                None
            } else {
                Some(SampleView { name, labels: Seq::empty(), value: fs[0] })
            }
        }
    }
}

pub open spec fn opt_sample_view(s: Option<Sample>) -> Option<SampleView> {
    match s {
        Some(x) => Some(x@),
        None => None,
    }
}

/// Parses the sample line `line[lo..hi]`.
pub fn parse_sample(line: &Vec<char>, lo: usize, hi: usize) -> (r: Option<Sample>)
    requires
        lo <= hi <= line.len(),
    ensures
        opt_sample_view(r) == sample_spec(line@.subrange(lo as int, hi as int)),
{
    let ghost w = line@.subrange(lo as int, hi as int);
    let mut split = lo;
    while split < hi && !(line[split] == '{' || line[split] == ' ' || line[split] == '\t')
        invariant
            lo <= split <= hi <= line.len(),
            w == line@.subrange(lo as int, hi as int),
            forall|j: int| 0 <= j < split - lo ==> !is_name_end(#[trigger] w[j]),
        decreases hi - split,
    {
        assert(w[split - lo] == line@[split as int]);
        split += 1;
    }
    proof {
        if split < hi {
            assert(w[split - lo] == line@[split as int]);
        }
        lemma_name_end_at(w, split - lo);
    }
    if split >= hi {
        return None;
    }
    let (na, nb) = trim_window(line, lo, split);
    proof {
        assert(w.take(split - lo) =~= line@.subrange(lo as int, split as int));
    }
    if na == nb {
        return None;
    }
    let name = string_of_window(line, na, nb);
    let ghost after = w.skip(split - lo);
    assert(after =~= line@.subrange(split as int, hi as int));
    if line[split] == '{' {
        let mut braces: Vec<char> = Vec::new();
        let mut k = split;
        while k < hi
            invariant
                split <= k <= hi <= line.len(),
                braces@ == line@.subrange(split as int, k as int),
            decreases hi - k,
        {
            braces.push(line[k]);
            k += 1;
        }
        assert(braces@ =~= after);
        match find_label_end(&braces) {
            None => None,
            Some(end) => {
                proof {
                    lemma_label_end_from(after, 1, false, false);
                }
                let mut inner: Vec<char> = Vec::new();
                let mut m: usize = 1;
                while m < end
                    invariant
                        1 <= m <= end < braces.len(),
                        inner@ == braces@.subrange(1, m as int),
                    decreases end - m,
                {
                    inner.push(braces[m]);
                    m += 1;
                }
                let labels = parse_labels(&inner);
                match next_field(&braces, end + 1, braces.len()) {
                    None => None,
                    Some((a, b)) => {
                        proof {
                            assert(braces@.subrange(end + 1, braces.len() as int) =~= after.skip(end + 1));
                        }
                        let value = string_of_window(&braces, a, b);
                        Some(Sample { name, labels, value })
                    },
                }
            },
        }
    } else {
        match next_field(line, split, hi) {
            None => None,
            Some((a, b)) => {
                let value = string_of_window(line, a, b);
                let labels: Vec<(String, String)> = Vec::new();
                assert(label_pairs_view(labels@) =~= Seq::<(Seq<char>, Seq<char>)>::empty());
                Some(Sample { name, labels, value })
            },
        }
    }
}

/// The family declared by a comment's text (after its `#`): `TYPE <name> <type>`, with
/// leading whitespace allowed. Other comments declare nothing.
pub open spec fn type_decl(rest: Seq<char>) -> Option<(Seq<char>, FamilyType)> {
    let r = trim_start_seq(rest);
    if has_prefix(r, "TYPE "@) {
        let fs = fields_seq(r.skip(5));
        if fs.len() >= 2 {
            Some((fs[0], family_of(fs[1])))
        } else {
            None
        }
    } else {
        None
    }
}

/// A parsed exposition: the declared family types (the last declaration of a name wins)
/// and the samples, in order.
pub struct ParsedView {
    pub types: Map<Seq<char>, FamilyType>,
    pub samples: Seq<SampleView>,
}

pub open spec fn exposition_step(p: ParsedView, line: Seq<char>) -> ParsedView {
    let t = trim_seq(line);
    if t.len() == 0 {
        p
    } else if t[0] == '#' {
        match type_decl(t.drop_first()) {
            Some((n, f)) => ParsedView { types: p.types.insert(n, f), samples: p.samples },
            None => p,
        }
    } else {
        match sample_spec(t) {
            Some(smp) => ParsedView { types: p.types, samples: p.samples.push(smp) },
            None => p,
        }
    }
}

pub open spec fn exposition_lines(ls: Seq<Seq<char>>) -> ParsedView
    decreases ls.len(),
{
    if ls.len() == 0 {
        ParsedView { types: Map::empty(), samples: Seq::empty() }
    } else {
        exposition_step(exposition_lines(ls.drop_last()), ls.last())
    }
}

/// The parsed form of an exposition text, line by line.
pub open spec fn exposition_spec(text: Seq<char>) -> ParsedView {
    exposition_lines(lines_seq(text))
}

/// Type declarations in the order they were read; later ones override earlier ones.
pub open spec fn types_map(v: Seq<(Seq<char>, FamilyType)>) -> Map<Seq<char>, FamilyType>
    decreases v.len(),
{
    if v.len() == 0 {
        Map::empty()
    } else {
        types_map(v.drop_last()).insert(v.last().0, v.last().1)
    }
}

pub open spec fn decls_view(v: Seq<(String, FamilyType)>) -> Seq<(Seq<char>, FamilyType)> {
    v.map_values(|d: (String, FamilyType)| (d.0@, d.1))
}

pub struct Parsed {
    pub types: Vec<(String, FamilyType)>,
    pub samples: Vec<Sample>,
}

impl View for Parsed {
    type V = ParsedView;

    open spec fn view(&self) -> ParsedView {
        ParsedView {
            types: types_map(decls_view(self.types@)),
            samples: self.samples@.map_values(|x: Sample| x@),
        }
    }
}

impl Parsed {
    /// The declared type of family `name`, if any.
    pub fn family(&self, name: &str) -> (r: Option<FamilyType>)
        ensures
            r == (if self@.types.contains_key(name@) { Some(self@.types[name@]) } else { None::<FamilyType> }),
    {
        let ghost dv = decls_view(self.types@);
        let mut i = self.types.len();
        assert(dv.take(i as int) =~= dv);
        while i > 0
            invariant
                i <= self.types.len(),
                dv == decls_view(self.types@),
                types_map(dv).contains_key(name@) == types_map(dv.take(i as int)).contains_key(name@),
                types_map(dv).contains_key(name@) ==> types_map(dv)[name@] == types_map(dv.take(i as int))[name@],
            decreases i,
        {
            proof {
                assert(dv.take(i as int).drop_last() =~= dv.take(i - 1));
                assert(dv.take(i as int).last() == dv[i - 1]);
            }
            if text_eq(self.types[i - 1].0.as_str(), name) {
                return Some(self.types[i - 1].1);
            }
            i -= 1;
        }
        None
    }
}

/// Parses a Prometheus text exposition. Only `# TYPE` comments carry data; other
/// comments and blank lines are skipped, and lines that are no sample are dropped.
pub fn parse_exposition(text: &str) -> (p: Parsed)
    ensures
        p@ == exposition_spec(text@),
{
    let v = chars_of(text);
    let ghost all = lines_seq(v@);
    let mut p = Parsed { types: Vec::new(), samples: Vec::new() };
    let ghost mut done: Seq<Seq<char>> = Seq::empty();
    assert(v@.subrange(0, v.len() as int) =~= v@);
    assert(decls_view(p.types@) =~= Seq::<(Seq<char>, FamilyType)>::empty());
    assert(p.samples@.map_values(|x: Sample| x@) =~= Seq::<SampleView>::empty());
    assert(p@ == exposition_lines(done));
    let mut pos: usize = 0;
    while pos < v.len()
        invariant
            pos <= v.len(),
            v@ == text@,
            all == lines_seq(v@),
            all == done + lines_seq(v@.subrange(pos as int, v.len() as int)),
            p@ == exposition_lines(done),
        decreases v.len() - pos,
    {
        let (a, b, nxt) = next_line(&v, pos, v.len());
        let ghost line = v@.subrange(a as int, b as int);
        let ghost rest = lines_seq(v@.subrange(nxt as int, v.len() as int));
        let ghost p0 = p@;
        let (ta, tb) = trim_window(&v, a, b);
        let ghost t = v@.subrange(ta as int, tb as int);
        if ta < tb {
            if v[ta] == '#' {
                assert(t[0] == '#');
                let c = skip_ws(&v, ta + 1, tb);
                proof {
                    assert(t.drop_first() =~= v@.subrange(ta + 1, tb as int));
                }
                let ghost r = v@.subrange(c as int, tb as int);
                if window_starts_with(&v, c, tb, &chars_of("TYPE ")) {
                    proof {
                        reveal_strlit("TYPE ");
                        assert(r.skip(5) =~= v@.subrange(c + 5, tb as int));
                    }
                    match next_field(&v, c + 5, tb) {
                        Some((n0, n1)) => match next_field(&v, n1, tb) {
                            Some((f0, f1)) => {
                                let name = string_of_window(&v, n0, n1);
                                let fam = family_exec(&v, f0, f1);
                                let ghost before = decls_view(p.types@);
                                p.types.push((name, fam));
                                proof {
                                    assert(decls_view(p.types@) =~= before.push((v@.subrange(n0 as int, n1 as int), fam)));
                                    assert(decls_view(p.types@).drop_last() =~= before);
                                }
                            },
                            None => {},
                        },
                        None => {},
                    }
                }
            } else {
                let ghost before = p.samples@;
                match parse_sample(&v, ta, tb) {
                    Some(smp) => {
                        p.samples.push(smp);
                        proof {
                            assert(p.samples@.map_values(|x: Sample| x@) =~= before.map_values(|x: Sample| x@).push(smp@));
                        }
                    },
                    None => {},
                }
            }
        }
        proof {
            assert(done.push(line).drop_last() =~= done);
            assert(done.push(line).last() == line);
            assert(done + (seq![line] + rest) =~= done.push(line) + rest);
            done = done.push(line);
        }
        pos = nxt;
    }
    assert(lines_seq(v@.subrange(pos as int, v.len() as int)) =~= Seq::<Seq<char>>::empty());
    assert(done + Seq::<Seq<char>>::empty() =~= done);
    p
}

// ------------------------------------------------------------------------------------
// Mapping onto signals
// ------------------------------------------------------------------------------------

/// Which component of a histogram family a sample is.
#[derive(Debug, Clone, Copy, PartialEq, Eq, Structural)]
pub enum Role {
    Bucket,
    Sum,
    Count,
}

/// When `name` is the `_bucket`, `_sum` or `_count` line of a family declared as a
/// histogram (tried in that order), the family's name and the component.
pub open spec fn hist_component_spec(name: Seq<char>, types: Map<Seq<char>, FamilyType>) -> Option<(Seq<char>, Role)> {
    let is_hist = |base: Seq<char>| types.contains_key(base) && types[base] == FamilyType::Histogram;
    if has_suffix(name, "_bucket"@) && is_hist(name.take(name.len() - 7)) {
        Some((name.take(name.len() - 7), Role::Bucket))
    } else if has_suffix(name, "_sum"@) && is_hist(name.take(name.len() - 4)) {
        Some((name.take(name.len() - 4), Role::Sum))
    } else if has_suffix(name, "_count"@) && is_hist(name.take(name.len() - 6)) {
        Some((name.take(name.len() - 6), Role::Count))
    } else {
        None
    }
}

/// `name` without the suffix `suffix` (which it ends with), when the rest is declared a
/// histogram.
fn histogram_base(parsed: &Parsed, v: &Vec<char>, suffix: &str) -> (r: Option<String>)
    ensures
        match r {
            Some(b) => has_suffix(v@, suffix@) && b@ == v@.take(v@.len() - suffix@.len()) && parsed@.types.contains_key(b@)
                && parsed@.types[b@] == FamilyType::Histogram,
            None => !(has_suffix(v@, suffix@) && parsed@.types.contains_key(v@.take(v@.len() - suffix@.len()))
                && parsed@.types[v@.take(v@.len() - suffix@.len())] == FamilyType::Histogram),
        },
{
    let sv = chars_of(suffix);
    let n = v.len();
    assert(v@.subrange(0, n as int) =~= v@);
    if !window_ends_with(v, 0, n, &sv) {
        return None;
    }
    let base = string_of_window(v, 0, n - sv.len());
    assert(v@.subrange(0, n - sv.len()) =~= v@.take(n - sv.len()));
    match parsed.family(base.as_str()) {
        Some(FamilyType::Histogram) => Some(base),
        _ => None,
    }
}

/// If `name` is a component of a declared histogram family, the family and the
/// component.
pub fn hist_component(name: &str, parsed: &Parsed) -> (r: Option<(String, Role)>)
    ensures
        match r {
            Some((b, role)) => hist_component_spec(name@, parsed@.types) == Some((b@, role)),
            None => hist_component_spec(name@, parsed@.types).is_none(),
        },
{
    let v = chars_of(name);
    proof {
        reveal_strlit("_bucket");
        reveal_strlit("_sum");
        reveal_strlit("_count");
    }
    if let Some(b) = histogram_base(parsed, &v, "_bucket") {
        return Some((b, Role::Bucket));
    }
    if let Some(b) = histogram_base(parsed, &v, "_sum") {
        return Some((b, Role::Sum));
    }
    if let Some(b) = histogram_base(parsed, &v, "_count") {
        return Some((b, Role::Count));
    }
    None
}

/// Position at which `x` goes into `sorted` so that it follows every label whose key is
/// not greater than its own (which keeps the sort stable).
pub open spec fn insert_pos(sorted: Seq<(Seq<char>, Seq<char>)>, x: (Seq<char>, Seq<char>)) -> int
    decreases sorted.len(),
{
    if sorted.len() == 0 {
        0
    } else if lex_lt(x.0, sorted.last().0) {
        insert_pos(sorted.drop_last(), x)
    } else {
        sorted.len() as int
    }
}

/// Labels stably sorted by key: each one inserted after every label whose key is not
/// greater.
pub open spec fn sort_by_key(s: Seq<(Seq<char>, Seq<char>)>) -> Seq<(Seq<char>, Seq<char>)>
    decreases s.len(),
{
    if s.len() == 0 {
        Seq::empty()
    } else {
        let sorted = sort_by_key(s.drop_last());
        sorted.insert(insert_pos(sorted, s.last()), s.last())
    }
}

/// The labels other than `le`, in order.
pub open spec fn without_le(s: Seq<(Seq<char>, Seq<char>)>) -> Seq<(Seq<char>, Seq<char>)>
    decreases s.len(),
{
    if s.len() == 0 {
        Seq::empty()
    } else if s.last().0 == "le"@ {
        without_le(s.drop_last())
    } else {
        without_le(s.drop_last()).push(s.last())
    }
}

/// `k\u{1}v` for each label, joined with `\u{2}`.
pub open spec fn joined_key(s: Seq<(Seq<char>, Seq<char>)>) -> Seq<char>
    decreases s.len(),
{
    if s.len() == 0 {
        Seq::empty()
    } else if s.len() == 1 {
        s[0].0 + seq!['\u{1}'] + s[0].1
    } else {
        joined_key(s.drop_last()) + seq!['\u{2}'] + s.last().0 + seq!['\u{1}'] + s.last().1
    }
}

/// A histogram series' identity: its labels other than `le`, sorted by key.
pub open spec fn series_key_spec(labels: Seq<(Seq<char>, Seq<char>)>) -> Seq<char> {
    joined_key(sort_by_key(without_le(labels)))
}

proof fn lemma_insert_pos(sorted: Seq<(Seq<char>, Seq<char>)>, x: (Seq<char>, Seq<char>))
    ensures
        0 <= insert_pos(sorted, x) <= sorted.len(),
    decreases sorted.len(),
{
    if sorted.len() > 0 && lex_lt(x.0, sorted.last().0) {
        lemma_insert_pos(sorted.drop_last(), x);
    }
}

proof fn lemma_sort_len(s: Seq<(Seq<char>, Seq<char>)>)
    ensures
        sort_by_key(s).len() == s.len(),
    decreases s.len(),
{
    if s.len() > 0 {
        lemma_sort_len(s.drop_last());
        lemma_insert_pos(sort_by_key(s.drop_last()), s.last());
    }
}

/// A copy of the labels other than `le`, in order.
fn labels_without_le(labels: &Vec<(String, String)>) -> (kept: Vec<(String, String)>)
    ensures
        label_pairs_view(kept@) == without_le(label_pairs_view(labels@)),
{
    let ghost lv = label_pairs_view(labels@);
    let mut kept: Vec<(String, String)> = Vec::new();
    let mut i: usize = 0;
    assert(lv.take(0) =~= Seq::<(Seq<char>, Seq<char>)>::empty());
    assert(label_pairs_view(kept@) =~= Seq::<(Seq<char>, Seq<char>)>::empty());
    while i < labels.len()
        invariant
            i <= labels.len(),
            lv == label_pairs_view(labels@),
            label_pairs_view(kept@) == without_le(lv.take(i as int)),
        decreases labels.len() - i,
    {
        proof {
            assert(lv.take(i + 1).drop_last() =~= lv.take(i as int));
            assert(lv.take(i + 1).last() == lv[i as int]);
        }
        if !text_eq(labels[i].0.as_str(), "le") {
            let ghost before = label_pairs_view(kept@);
            kept.push((owned(labels[i].0.as_str()), owned(labels[i].1.as_str())));
            assert(label_pairs_view(kept@) =~= before.push(lv[i as int]));
        }
        i += 1;
    }
    assert(lv.take(labels.len() as int) =~= lv);
    kept
}

fn key_of_pair(p: &(String, String)) -> (r: Vec<char>)
    ensures
        r@ == p.0@,
{
    chars_of(p.0.as_str())
}

/// The stable identity of a histogram series: its labels other than `le`, sorted by key,
/// joined as `k\u{1}v` pairs separated by `\u{2}`.
pub fn series_key(labels: &Vec<(String, String)>) -> (r: String)
    ensures
        r@ == series_key_spec(label_pairs_view(labels@)),
{
    let kept = labels_without_le(labels);
    // Stable insertion sort by key.
    let ghost kv = label_pairs_view(kept@);
    let mut sorted: Vec<(String, String)> = Vec::new();
    let mut j: usize = 0;
    assert(kv.take(0) =~= Seq::<(Seq<char>, Seq<char>)>::empty());
    assert(label_pairs_view(sorted@) =~= Seq::<(Seq<char>, Seq<char>)>::empty());
    while j < kept.len()
        invariant
            j <= kept.len(),
            kv == label_pairs_view(kept@),
            label_pairs_view(sorted@) == sort_by_key(kv.take(j as int)),
        decreases kept.len() - j,
    {
        proof {
            assert(kv.take(j + 1).drop_last() =~= kv.take(j as int));
            assert(kv.take(j + 1).last() == kv[j as int]);
        }
        let x = (owned(kept[j].0.as_str()), owned(kept[j].1.as_str()));
        let xk = key_of_pair(&x);
        let ghost sv = label_pairs_view(sorted@);
        let mut p = sorted.len();
        proof {
            lemma_insert_pos(sv, kv[j as int]);
            assert(sv.take(p as int) =~= sv);
        }
        while p > 0 && lex_less(&xk, &key_of_pair(&sorted[p - 1]))
            invariant
                p <= sorted.len(),
                j < kv.len(),
                sv == label_pairs_view(sorted@),
                xk@ == kv[j as int].0,
                insert_pos(sv, kv[j as int]) == insert_pos(sv.take(p as int), kv[j as int]),
            decreases p,
        {
            proof {
                assert(sv.take(p as int).drop_last() =~= sv.take(p - 1));
                assert(sv.take(p as int).last() == sv[p - 1]);
            }
            p -= 1;
        }
        proof {
            if p > 0 {
                assert(sv.take(p as int).last() == sv[p - 1]);
            }
            assert(insert_pos(sv.take(p as int), kv[j as int]) == p);
        }
        sorted.insert(p, x);
        assert(label_pairs_view(sorted@) =~= sv.insert(p as int, kv[j as int]));
        j += 1;
    }
    assert(kv.take(kept.len() as int) =~= kv);
    // Join.
    let ghost st = label_pairs_view(sorted@);
    let mut acc: Vec<char> = Vec::new();
    let mut m: usize = 0;
    assert(st.take(0) =~= Seq::<(Seq<char>, Seq<char>)>::empty());
    while m < sorted.len()
        invariant
            m <= sorted.len(),
            st == label_pairs_view(sorted@),
            acc@ == joined_key(st.take(m as int)),
        decreases sorted.len() - m,
    {
        proof {
            assert(st.take(m + 1).drop_last() =~= st.take(m as int));
            assert(st.take(m + 1).last() == st[m as int]);
        }
        let ghost a0 = acc@;
        if m > 0 {
            acc.push('\u{2}');
        }
        let k = chars_of(sorted[m].0.as_str());
        let mut q: usize = 0;
        let ghost a1 = acc@;
        while q < k.len()
            invariant
                q <= k.len(),
                acc@ == a1 + k@.take(q as int),
            decreases k.len() - q,
        {
            acc.push(k[q]);
            q += 1;
        }
        acc.push('\u{1}');
        let val = chars_of(sorted[m].1.as_str());
        let ghost a2 = acc@;
        let mut q2: usize = 0;
        while q2 < val.len()
            invariant
                q2 <= val.len(),
                acc@ == a2 + val@.take(q2 as int),
            decreases val.len() - q2,
        {
            acc.push(val[q2]);
            q2 += 1;
        }
        proof {
            assert(k@.take(k.len() as int) =~= k@);
            assert(val@.take(val.len() as int) =~= val@);
            assert(st[m as int] == (k@, val@));
            if m == 0 {
                assert(st.take(1).len() == 1);
                assert(st.take(1)[0] == st[0]);
                assert(acc@ =~= st[0].0 + seq!['\u{1}'] + st[0].1);
            } else {
                assert(acc@ =~= a0 + seq!['\u{2}'] + st[m as int].0 + seq!['\u{1}'] + st[m as int].1);
            }
        }
        m += 1;
    }
    assert(st.take(sorted.len() as int) =~= st);
    crate::text::string_from_chars(acc.as_slice())
}

/// A family's emitted name and unit.
pub struct Mapped {
    pub name: String,
    pub unit: Option<String>,
}

pub open spec fn strip_prefix_or(s: Seq<char>, p: Seq<char>) -> Seq<char> {
    if has_prefix(s, p) { s.skip(p.len() as int) } else { s }
}

pub open spec fn strip_suffix_or(s: Seq<char>, p: Seq<char>) -> Seq<char> {
    if has_suffix(s, p) { s.take(s.len() - p.len()) } else { s }
}

/// The curated name mapping. The two GenAI families take their OpenTelemetry semantic
/// convention names; any other family loses an `openclaw_` prefix and a `_total`
/// suffix, folds a `_seconds`, `_bytes` or `_ratio` suffix into its unit, and is
/// namespaced under `harnesssphere.openclaw.`.
pub open spec fn map_name_spec(base: Seq<char>) -> (Seq<char>, Option<Seq<char>>) {
    if base == "openclaw_gen_ai_client_token_usage"@ {
        ("gen_ai.client.token.usage"@, Some("{token}"@))
    } else if base == "openclaw_model_call_duration_seconds"@ {
        ("gen_ai.client.operation.duration"@, Some("s"@))
    } else {
        let core = strip_suffix_or(strip_prefix_or(base, "openclaw_"@), "_total"@);
        if has_suffix(core, "_seconds"@) {
            ("harnesssphere.openclaw."@ + core.take(core.len() - 8), Some("s"@))
        } else if has_suffix(core, "_bytes"@) {
            ("harnesssphere.openclaw."@ + core.take(core.len() - 6), Some("By"@))
        } else if has_suffix(core, "_ratio"@) {
            ("harnesssphere.openclaw."@ + core.take(core.len() - 6), Some("1"@))
        } else {
            ("harnesssphere.openclaw."@ + core, None)
        }
    }
}

fn strip_prefix_or_exec(v: &Vec<char>, p: &str) -> (r: Vec<char>)
    ensures
        r@ == strip_prefix_or(v@, p@),
{
    let pv = chars_of(p);
    let n = v.len();
    assert(v@.subrange(0, n as int) =~= v@);
    if window_starts_with(v, 0, n, &pv) {
        let mut out: Vec<char> = Vec::new();
        let mut i = pv.len();
        while i < n
            invariant
                pv.len() <= i <= n == v.len(),
                out@ == v@.subrange(pv.len() as int, i as int),
            decreases n - i,
        {
            out.push(v[i]);
            i += 1;
        }
        assert(out@ =~= v@.skip(pv.len() as int));
        out
    } else {
        v.clone()
    }
}

fn strip_suffix_or_exec(v: &Vec<char>, p: &str) -> (r: Vec<char>)
    ensures
        r@ == strip_suffix_or(v@, p@),
{
    let pv = chars_of(p);
    let n = v.len();
    assert(v@.subrange(0, n as int) =~= v@);
    if window_ends_with(v, 0, n, &pv) {
        let mut out: Vec<char> = Vec::new();
        let mut i: usize = 0;
        while i < n - pv.len()
            invariant
                i <= n - pv.len(),
                n == v.len(),
                pv.len() <= n,
                out@ == v@.take(i as int),
            decreases n - pv.len() - i,
        {
            out.push(v[i]);
            i += 1;
        }
        out
    } else {
        v.clone()
    }
}

fn text_of(v: &Vec<char>) -> (s: String)
    ensures
        s@ == v@,
{
    crate::text::string_from_chars(v.as_slice())
}

/// The name and unit a family is emitted under.
pub fn map_name(base: &str) -> (m: Mapped)
    ensures
        m.name@ == map_name_spec(base@).0,
        match m.unit {
            Some(u) => map_name_spec(base@).1 == Some(u@),
            None => map_name_spec(base@).1.is_none(),
        },
{
    if text_eq(base, "openclaw_gen_ai_client_token_usage") {
        return Mapped { name: owned("gen_ai.client.token.usage"), unit: Some(owned("{token}")) };
    }
    if text_eq(base, "openclaw_model_call_duration_seconds") {
        return Mapped { name: owned("gen_ai.client.operation.duration"), unit: Some(owned("s")) };
    }
    let v = chars_of(base);
    let stripped = strip_prefix_or_exec(&v, "openclaw_");
    let core = strip_suffix_or_exec(&stripped, "_total");
    let n = core.len();
    assert(core@.subrange(0, n as int) =~= core@);
    proof {
        reveal_strlit("_seconds");
        reveal_strlit("_bytes");
        reveal_strlit("_ratio");
    }
    if window_ends_with(&core, 0, n, &chars_of("_seconds")) {
        let c = string_of_window(&core, 0, n - 8);
        assert(core@.subrange(0, n - 8) =~= core@.take(n - 8));
        Mapped { name: concat("harnesssphere.openclaw.", c.as_str()), unit: Some(owned("s")) }
    } else if window_ends_with(&core, 0, n, &chars_of("_bytes")) {
        let c = string_of_window(&core, 0, n - 6);
        assert(core@.subrange(0, n - 6) =~= core@.take(n - 6));
        Mapped { name: concat("harnesssphere.openclaw.", c.as_str()), unit: Some(owned("By")) }
    } else if window_ends_with(&core, 0, n, &chars_of("_ratio")) {
        let c = string_of_window(&core, 0, n - 6);
        assert(core@.subrange(0, n - 6) =~= core@.take(n - 6));
        Mapped { name: concat("harnesssphere.openclaw.", c.as_str()), unit: Some(owned("1")) }
    } else {
        let c = text_of(&core);
        Mapped { name: concat("harnesssphere.openclaw.", c.as_str()), unit: None }
    }
}

/// The families whose labels are rewritten to semantic-convention keys.
pub open spec fn is_genai(base: Seq<char>) -> bool {
    base == "openclaw_gen_ai_client_token_usage"@ || base == "openclaw_model_call_duration_seconds"@
}

/// A GenAI label key's semantic-convention name; any other label is kept under
/// `openclaw.` so that no data is dropped.
pub open spec fn genai_key(k: Seq<char>) -> Seq<char> {
    if k == "model"@ {
        "gen_ai.request.model"@
    } else if k == "provider"@ {
        "gen_ai.provider.name"@
    } else if k == "token_type"@ {
        "gen_ai.token.type"@
    } else if k == "error_category"@ {
        "error.type"@
    } else {
        "openclaw."@ + k
    }
}

pub open spec fn rewrite_spec(base: Seq<char>, labels: Seq<(Seq<char>, Seq<char>)>) -> Seq<(Seq<char>, Seq<char>)> {
    if is_genai(base) {
        labels.map_values(|p: (Seq<char>, Seq<char>)| (genai_key(p.0), p.1))
    } else {
        labels
    }
}

fn genai_key_exec(k: &str) -> (r: String)
    ensures
        r@ == genai_key(k@),
{
    if text_eq(k, "model") {
        owned("gen_ai.request.model")
    } else if text_eq(k, "provider") {
        owned("gen_ai.provider.name")
    } else if text_eq(k, "token_type") {
        owned("gen_ai.token.type")
    } else if text_eq(k, "error_category") {
        owned("error.type")
    } else {
        concat("openclaw.", k)
    }
}

/// Rewrites the label keys of the curated GenAI families; other families' labels are
/// left alone.
pub fn rewrite_genai_labels(base: &str, labels: &mut Vec<(String, String)>)
    ensures
        label_pairs_view(final(labels)@) == rewrite_spec(base@, label_pairs_view(old(labels)@)),
{
    if !text_eq(base, "openclaw_gen_ai_client_token_usage") && !text_eq(base, "openclaw_model_call_duration_seconds") {
        return;
    }
    let ghost l0 = label_pairs_view(labels@);
    let mut i: usize = 0;
    while i < labels.len()
        invariant
            i <= labels.len(),
            l0.len() == labels@.len(),
            forall|k: int| 0 <= k < i ==> #[trigger] label_pairs_view(labels@)[k] == (genai_key(l0[k].0), l0[k].1),
            forall|k: int| i <= k < labels@.len() ==> #[trigger] label_pairs_view(labels@)[k] == l0[k],
        decreases labels.len() - i,
    {
        let nk = genai_key_exec(labels[i].0.as_str());
        let v = owned(labels[i].1.as_str());
        let ghost before = labels@;
        labels.set(i, (nk, v));
        proof {
            assert forall|k: int| 0 <= k < i + 1 implies #[trigger] label_pairs_view(labels@)[k] == (genai_key(l0[k].0), l0[k].1) by {
                if k < i {
                    assert(labels@[k] == before[k]);
                    assert(label_pairs_view(before)[k] == (genai_key(l0[k].0), l0[k].1));
                } else {
                    assert(label_pairs_view(before)[k] == l0[k]);
                }
            }
            assert forall|k: int| i + 1 <= k < labels@.len() implies #[trigger] label_pairs_view(labels@)[k] == l0[k] by {
                assert(labels@[k] == before[k]);
                assert(label_pairs_view(before)[k] == l0[k]);
            }
        }
        i += 1;
    }
    assert(label_pairs_view(labels@) =~= rewrite_spec(base@, l0));
}

/// Labels as string attributes, then `server.address` and `harness.name`.
pub open spec fn build_attrs_spec(labels: Seq<(Seq<char>, Seq<char>)>, server: Seq<char>, harness: Seq<char>) -> Seq<(Seq<char>, AttrView)> {
    labels.map_values(|p: (Seq<char>, Seq<char>)| (p.0, AttrView::Str(p.1))) + seq![
        ("server.address"@, AttrView::Str(server)),
        ("harness.name"@, AttrView::Str(harness)),
    ]
}

pub fn build_attrs(labels: Vec<(String, String)>, server: &str, harness: &str) -> (a: Vec<(String, AttrValue)>)
    ensures
        attrs_view(a@) == build_attrs_spec(label_pairs_view(labels@), server@, harness@),
{
    let ghost lv = label_pairs_view(labels@);
    let mut out: Vec<(String, AttrValue)> = Vec::new();
    let mut i: usize = 0;
    while i < labels.len()
        invariant
            i <= labels.len(),
            lv == label_pairs_view(labels@),
            out@.len() == i,
            forall|k: int| 0 <= k < i ==> #[trigger] attrs_view(out@)[k] == (lv[k].0, AttrView::Str(lv[k].1)),
        decreases labels.len() - i,
    {
        let ghost before = out@;
        out.push((owned(labels[i].0.as_str()), AttrValue::text(labels[i].1.as_str())));
        proof {
            assert forall|k: int| 0 <= k < i + 1 implies #[trigger] attrs_view(out@)[k] == (lv[k].0, AttrView::Str(lv[k].1)) by {
                if k < i {
                    assert(out@[k] == before[k]);
                    assert(attrs_view(before)[k] == (lv[k].0, AttrView::Str(lv[k].1)));
                }
            }
        }
        i += 1;
    }
    let ghost head = attrs_view(out@);
    out.push((owned("server.address"), AttrValue::text(server)));
    out.push((owned("harness.name"), AttrValue::text(harness)));
    assert(head =~= lv.map_values(|p: (Seq<char>, Seq<char>)| (p.0, AttrView::Str(p.1))));
    assert(attrs_view(out@) =~= build_attrs_spec(lv, server@, harness@));
    out
}

/// What a scrape maps to: one metric per scalar sample, and one histogram per series of
/// a declared histogram family. Values are the exposition's text.
#[derive(Debug, Clone)]
pub enum PromSeries {
    Scalar {
        name: String,
        kind: MetricKind,
        unit: Option<String>,
        attributes: Vec<(String, AttrValue)>,
        value: String,
    },
    Histogram {
        name: String,
        unit: Option<String>,
        attributes: Vec<(String, AttrValue)>,
        /// `(le, cumulative count)` per `_bucket` line, as written.
        buckets: Vec<(String, String)>,
        sum: Option<String>,
        count: Option<String>,
    },
}

pub enum SeriesView {
    Scalar {
        name: Seq<char>,
        kind: MetricKind,
        unit: Option<Seq<char>>,
        attributes: Seq<(Seq<char>, AttrView)>,
        value: Seq<char>,
    },
    Histogram {
        name: Seq<char>,
        unit: Option<Seq<char>>,
        attributes: Seq<(Seq<char>, AttrView)>,
        buckets: Seq<(Seq<char>, Seq<char>)>,
        sum: Option<Seq<char>>,
        count: Option<Seq<char>>,
    },
}

pub open spec fn opt_text(o: Option<String>) -> Option<Seq<char>> {
    match o {
        Some(s) => Some(s@),
        None => None,
    }
}

impl View for PromSeries {
    type V = SeriesView;

    open spec fn view(&self) -> SeriesView {
        match self {
            PromSeries::Scalar { name, kind, unit, attributes, value } => SeriesView::Scalar {
                name: name@,
                kind: *kind,
                unit: opt_text(*unit),
                attributes: attrs_view(attributes@),
                value: value@,
            },
            PromSeries::Histogram { name, unit, attributes, buckets, sum, count } => SeriesView::Histogram {
                name: name@,
                unit: opt_text(*unit),
                attributes: attrs_view(attributes@),
                buckets: label_pairs_view(buckets@),
                sum: opt_text(*sum),
                count: opt_text(*count),
            },
        }
    }
}

/// A histogram series being assembled from its component lines.
pub struct AccView {
    pub base: Seq<char>,
    pub key: Seq<char>,
    pub labels: Seq<(Seq<char>, Seq<char>)>,
    pub buckets: Seq<(Seq<char>, Seq<char>)>,
    pub sum: Option<Seq<char>>,
    pub count: Option<Seq<char>>,
}

/// Position of the series `(base, key)` among `accs`, or `accs.len()`.
pub open spec fn acc_index(accs: Seq<AccView>, base: Seq<char>, key: Seq<char>) -> int
    decreases accs.len(),
{
    if accs.len() == 0 {
        0
    } else if accs[0].base == base && accs[0].key == key {
        0
    } else {
        1 + acc_index(accs.drop_first(), base, key)
    }
}

/// The value of the first `le` label.
pub open spec fn first_le(labels: Seq<(Seq<char>, Seq<char>)>) -> Option<Seq<char>>
    decreases labels.len(),
{
    if labels.len() == 0 {
        None
    } else if labels[0].0 == "le"@ {
        Some(labels[0].1)
    } else {
        first_le(labels.drop_first())
    }
}

/// The scalar series a sample that is no histogram component maps to: a counter when
/// its family is declared one, a gauge otherwise (summaries and untyped included).
pub open spec fn scalar_spec(smp: SampleView, types: Map<Seq<char>, FamilyType>, server: Seq<char>, harness: Seq<char>) -> SeriesView {
    let m = map_name_spec(smp.name);
    SeriesView::Scalar {
        name: m.0,
        kind: if types.contains_key(smp.name) && types[smp.name] == FamilyType::Counter {
            MetricKind::Counter
        } else {
            MetricKind::Gauge
        },
        unit: m.1,
        attributes: build_attrs_spec(rewrite_spec(smp.name, smp.labels), server, harness),
        value: smp.value,
    }
}

/// A component line added to its series: a bucket records `(le, value)` when it has an
/// `le` label; `_sum` and `_count` set the sum and the count (a later line wins).
pub open spec fn acc_add(a: AccView, role: Role, smp: SampleView) -> AccView {
    match role {
        Role::Bucket => match first_le(smp.labels) {
            Some(le) => AccView { buckets: a.buckets.push((le, smp.value)), ..a },
            None => a,
        },
        Role::Sum => AccView { sum: Some(smp.value), ..a },
        Role::Count => AccView { count: Some(smp.value), ..a },
    }
}

/// The scalar series so far and the histogram series being assembled, after the samples
/// in order.
pub open spec fn series_state(samples: Seq<SampleView>, types: Map<Seq<char>, FamilyType>, server: Seq<char>, harness: Seq<char>) -> (Seq<SeriesView>, Seq<AccView>)
    decreases samples.len(),
{
    if samples.len() == 0 {
        (Seq::empty(), Seq::empty())
    } else {
        let (sc, accs) = series_state(samples.drop_last(), types, server, harness);
        let smp = samples.last();
        match hist_component_spec(smp.name, types) {
            Some((base, role)) => {
                let key = series_key_spec(smp.labels);
                let i = acc_index(accs, base, key);
                if 0 <= i < accs.len() {
                    (sc, accs.update(i, acc_add(accs[i], role, smp)))
                } else {
                    let fresh = AccView {
                        base,
                        key,
                        labels: without_le(smp.labels),
                        buckets: Seq::empty(),
                        sum: None,
                        count: None,
                    };
                    (sc, accs.push(acc_add(fresh, role, smp)))
                }
            },
            None => (sc.push(scalar_spec(smp, types, server, harness)), accs),
        }
    }
}

/// The histogram series an assembled accumulator maps to.
pub open spec fn histogram_spec(a: AccView, server: Seq<char>, harness: Seq<char>) -> SeriesView {
    let m = map_name_spec(a.base);
    SeriesView::Histogram {
        name: m.0,
        unit: m.1,
        attributes: build_attrs_spec(rewrite_spec(a.base, a.labels), server, harness),
        buckets: a.buckets,
        sum: a.sum,
        count: a.count,
    }
}

/// Everything a scrape maps to: the scalar series in sample order, then the histogram
/// series in the order their first line appeared.
pub open spec fn to_signals_spec(p: ParsedView, server: Seq<char>, harness: Seq<char>) -> Seq<SeriesView> {
    let (sc, accs) = series_state(p.samples, p.types, server, harness);
    sc + accs.map_values(|a: AccView| histogram_spec(a, server, harness))
}

/// Sample `smp` maps to the scalar series `s` of the kind its declared family calls for.
pub open spec fn scalar_of_sample(s: SeriesView, smp: SampleView, types: Map<Seq<char>, FamilyType>) -> bool {
    s matches SeriesView::Scalar { name, kind, value, .. } && name == map_name_spec(smp.name).0 && value == smp.value
        && (kind == MetricKind::Counter <==> (types.contains_key(smp.name) && types[smp.name] == FamilyType::Counter))
        && (kind != MetricKind::Counter ==> kind == MetricKind::Gauge)
}

proof fn lemma_scalars_follow_families(samples: Seq<SampleView>, types: Map<Seq<char>, FamilyType>, server: Seq<char>, harness: Seq<char>)
    ensures
        forall|i: int|
            0 <= i < series_state(samples, types, server, harness).0.len() ==> exists|j: int|
                0 <= j < samples.len() && hist_component_spec(samples[j].name, types).is_none() && scalar_of_sample(
                    #[trigger] series_state(samples, types, server, harness).0[i],
                    samples[j],
                    types,
                ),
    decreases samples.len(),
{
    if samples.len() > 0 {
        let pre = samples.drop_last();
        lemma_scalars_follow_families(pre, types, server, harness);
        let sc0 = series_state(pre, types, server, harness).0;
        let sc = series_state(samples, types, server, harness).0;
        let n = samples.len() - 1;
        assert forall|i: int| 0 <= i < sc.len() implies exists|j: int|
            0 <= j < samples.len() && hist_component_spec(samples[j].name, types).is_none() && scalar_of_sample(
                #[trigger] sc[i],
                samples[j],
                types,
            ) by {
            if i < sc0.len() {
                assert(sc[i] == sc0[i]);
                let j = choose|j: int|
                    0 <= j < pre.len() && hist_component_spec(pre[j].name, types).is_none() && scalar_of_sample(
                        sc0[i],
                        pre[j],
                        types,
                    );
                assert(pre[j] == samples[j]);
            } else {
                assert(sc[i] == scalar_spec(samples[n], types, server, harness));
                assert(scalar_of_sample(sc[i], samples[n], types));
            }
        }
    }
}

/// Every scalar series a scrape maps to comes from a sample that is no histogram
/// component, keeps its value, and is a counter exactly when the sample's family is
/// declared `counter`; a sample of a summary, gauge or untyped family, or of a family with
/// no `# TYPE` line at all, maps to a gauge.
pub proof fn law_scalar_kind_follows_the_declared_family(text: Seq<char>, server: Seq<char>, harness: Seq<char>)
    ensures
        ({
            let p = exposition_spec(text);
            let out = to_signals_spec(p, server, harness);
            forall|i: int|
                0 <= i < out.len() && out[i] is Scalar ==> exists|j: int|
                    0 <= j < p.samples.len() && hist_component_spec(p.samples[j].name, p.types).is_none()
                        && scalar_of_sample(#[trigger] out[i], p.samples[j], p.types)
        }),
{
    let p = exposition_spec(text);
    lemma_scalars_follow_families(p.samples, p.types, server, harness);
    let (sc, accs) = series_state(p.samples, p.types, server, harness);
    let hs = accs.map_values(|a: AccView| histogram_spec(a, server, harness));
    let out = to_signals_spec(p, server, harness);
    assert(out == sc + hs);
    assert forall|i: int| 0 <= i < out.len() && out[i] is Scalar implies exists|j: int|
        0 <= j < p.samples.len() && hist_component_spec(p.samples[j].name, p.types).is_none() && scalar_of_sample(
            #[trigger] out[i],
            p.samples[j],
            p.types,
        ) by {
        if i < sc.len() {
            assert(out[i] == sc[i]);
        } else {
            assert(out[i] == hs[i - sc.len()]);
        }
    }
}

struct HistAcc {
    base: String,
    key: String,
    labels: Vec<(String, String)>,
    buckets: Vec<(String, String)>,
    sum: Option<String>,
    count: Option<String>,
}

spec fn acc_view(a: HistAcc) -> AccView {
    AccView {
        base: a.base@,
        key: a.key@,
        labels: label_pairs_view(a.labels@),
        buckets: label_pairs_view(a.buckets@),
        sum: opt_text(a.sum),
        count: opt_text(a.count),
    }
}

spec fn accs_view(v: Seq<HistAcc>) -> Seq<AccView> {
    v.map_values(|a: HistAcc| acc_view(a))
}

proof fn lemma_acc_index_at(accs: Seq<AccView>, base: Seq<char>, key: Seq<char>, i: int)
    requires
        0 <= i <= accs.len(),
        forall|k: int| 0 <= k < i ==> !(#[trigger] accs[k].base == base && accs[k].key == key),
        i < accs.len() ==> accs[i].base == base && accs[i].key == key,
    ensures
        acc_index(accs, base, key) == i,
    decreases accs.len(),
{
    if accs.len() > 0 && !(accs[0].base == base && accs[0].key == key) {
        assert forall|k: int| 0 <= k < i - 1 implies !(#[trigger] accs.drop_first()[k].base == base && accs.drop_first()[k].key == key) by {
            assert(accs.drop_first()[k] == accs[k + 1]);
        }
        lemma_acc_index_at(accs.drop_first(), base, key, i - 1);
    }
}

fn find_acc(accs: &Vec<HistAcc>, base: &str, key: &str) -> (r: usize)
    ensures
        r as int == acc_index(accs_view(accs@), base@, key@),
        r <= accs.len(),
{
    let ghost av = accs_view(accs@);
    let mut i: usize = 0;
    while i < accs.len()
        invariant
            i <= accs.len(),
            av == accs_view(accs@),
            forall|k: int| 0 <= k < i ==> !(#[trigger] av[k].base == base@ && av[k].key == key@),
        decreases accs.len() - i,
    {
        if text_eq(accs[i].base.as_str(), base) && text_eq(accs[i].key.as_str(), key) {
            proof {
                lemma_acc_index_at(av, base@, key@, i as int);
            }
            return i;
        }
        i += 1;
    }
    proof {
        lemma_acc_index_at(av, base@, key@, av.len() as int);
    }
    accs.len()
}

fn first_le_exec(labels: &Vec<(String, String)>) -> (r: Option<String>)
    ensures
        opt_text(r) == first_le(label_pairs_view(labels@)),
{
    let ghost lv = label_pairs_view(labels@);
    let mut i: usize = 0;
    assert(lv.skip(0) =~= lv);
    while i < labels.len()
        invariant
            i <= labels.len(),
            lv == label_pairs_view(labels@),
            first_le(lv) == first_le(lv.skip(i as int)),
        decreases labels.len() - i,
    {
        assert(lv.skip(i as int)[0] == lv[i as int]);
        assert(lv.skip(i as int).drop_first() =~= lv.skip(i + 1));
        if text_eq(labels[i].0.as_str(), "le") {
            return Some(owned(labels[i].1.as_str()));
        }
        i += 1;
    }
    None
}

fn copy_labels(labels: &Vec<(String, String)>) -> (r: Vec<(String, String)>)
    ensures
        label_pairs_view(r@) == label_pairs_view(labels@),
{
    let mut out: Vec<(String, String)> = Vec::new();
    let mut i: usize = 0;
    while i < labels.len()
        invariant
            i <= labels.len(),
            label_pairs_view(out@) == label_pairs_view(labels@).take(i as int),
        decreases labels.len() - i,
    {
        let ghost before = label_pairs_view(out@);
        out.push((owned(labels[i].0.as_str()), owned(labels[i].1.as_str())));
        assert(label_pairs_view(out@) =~= before.push(label_pairs_view(labels@)[i as int]));
        assert(label_pairs_view(labels@).take(i + 1) =~= label_pairs_view(labels@).take(i as int).push(label_pairs_view(labels@)[i as int]));
        i += 1;
    }
    assert(label_pairs_view(labels@).take(labels.len() as int) =~= label_pairs_view(labels@));
    out
}

fn add_component(a: &mut HistAcc, role: Role, smp: &Sample)
    ensures
        acc_view(*final(a)) == acc_add(acc_view(*old(a)), role, smp@),
{
    match role {
        Role::Bucket => match first_le_exec(&smp.labels) {
            Some(le) => {
                let ghost b0 = label_pairs_view(a.buckets@);
                a.buckets.push((le, owned(smp.value.as_str())));
                assert(label_pairs_view(a.buckets@) =~= b0.push((opt_text(Some(le)).unwrap(), smp.value@)));
            },
            None => {},
        },
        Role::Sum => {
            a.sum = Some(owned(smp.value.as_str()));
        },
        Role::Count => {
            a.count = Some(owned(smp.value.as_str()));
        },
    }
}

/// Maps a parsed scrape onto series: scalar samples become metrics (renamed, typed,
/// labels as attributes plus `server.address` and `harness.name`); the `_bucket`,
/// `_sum` and `_count` lines of each histogram series are gathered into one histogram.
pub fn to_signals(parsed: &Parsed, server: &str, harness: &str) -> (out: Vec<PromSeries>)
    ensures
        out@.map_values(|x: PromSeries| x@) == to_signals_spec(parsed@, server@, harness@),
{
    let ghost sv = parsed.samples@.map_values(|x: Sample| x@);
    let ghost types = parsed@.types;
    let mut scalars: Vec<PromSeries> = Vec::new();
    let mut accs: Vec<HistAcc> = Vec::new();
    let mut i: usize = 0;
    assert(sv.take(0) =~= Seq::<SampleView>::empty());
    assert(scalars@.map_values(|x: PromSeries| x@) =~= Seq::<SeriesView>::empty());
    assert(accs_view(accs@) =~= Seq::<AccView>::empty());
    while i < parsed.samples.len()
        invariant
            i <= parsed.samples.len(),
            sv == parsed.samples@.map_values(|x: Sample| x@),
            types == parsed@.types,
            scalars@.map_values(|x: PromSeries| x@) == series_state(sv.take(i as int), types, server@, harness@).0,
            accs_view(accs@) == series_state(sv.take(i as int), types, server@, harness@).1,
        decreases parsed.samples.len() - i,
    {
        proof {
            assert(sv.take(i + 1).drop_last() =~= sv.take(i as int));
            assert(sv.take(i + 1).last() == sv[i as int]);
        }
        let smp = &parsed.samples[i];
        match hist_component(smp.name.as_str(), parsed) {
            Some((base, role)) => {
                let key = series_key(&smp.labels);
                let j = find_acc(&accs, base.as_str(), key.as_str());
                let ghost a0 = accs_view(accs@);
                if j < accs.len() {
                    let mut a = accs.remove(j);
                    add_component(&mut a, role, smp);
                    accs.insert(j, a);
                    assert(accs_view(accs@) =~= a0.update(j as int, acc_add(a0[j as int], role, smp@)));
                } else {
                    let mut a = HistAcc {
                        base,
                        key,
                        labels: labels_without_le(&smp.labels),
                        buckets: Vec::new(),
                        sum: None,
                        count: None,
                    };
                    assert(label_pairs_view(a.buckets@) =~= Seq::<(Seq<char>, Seq<char>)>::empty());
                    add_component(&mut a, role, smp);
                    accs.push(a);
                    assert(accs_view(accs@) =~= a0.push(acc_view(a)));
                }
            },
            None => {
                let kind = match parsed.family(smp.name.as_str()) {
                    Some(FamilyType::Counter) => MetricKind::Counter,
                    _ => MetricKind::Gauge,
                };
                let mapped = map_name(smp.name.as_str());
                let mut labels = copy_labels(&smp.labels);
                rewrite_genai_labels(smp.name.as_str(), &mut labels);
                let attributes = build_attrs(labels, server, harness);
                let ghost s0 = scalars@.map_values(|x: PromSeries| x@);
                let series = PromSeries::Scalar {
                    name: mapped.name,
                    kind,
                    unit: mapped.unit,
                    attributes,
                    value: owned(smp.value.as_str()),
                };
                assert(series@ == scalar_spec(smp@, types, server@, harness@));
                scalars.push(series);
                assert(scalars@.map_values(|x: PromSeries| x@) =~= s0.push(scalar_spec(smp@, types, server@, harness@)));
            },
        }
        i += 1;
    }
    assert(sv.take(parsed.samples.len() as int) =~= sv);
    let ghost av = accs_view(accs@);
    let mut out = scalars;
    let ghost o0 = out@.map_values(|x: PromSeries| x@);
    let mut k: usize = 0;
    while k < accs.len()
        invariant
            k <= accs.len(),
            av == accs_view(accs@),
            out@.map_values(|x: PromSeries| x@) == o0 + av.take(k as int).map_values(|a: AccView| histogram_spec(a, server@, harness@)),
        decreases accs.len() - k,
    {
        let a = &accs[k];
        let mapped = map_name(a.base.as_str());
        let mut labels = copy_labels(&a.labels);
        rewrite_genai_labels(a.base.as_str(), &mut labels);
        let attributes = build_attrs(labels, server, harness);
        let buckets = copy_labels(&a.buckets);
        let sum = match &a.sum {
            Some(x) => Some(owned(x.as_str())),
            None => None,
        };
        let count = match &a.count {
            Some(x) => Some(owned(x.as_str())),
            None => None,
        };
        let series = PromSeries::Histogram { name: mapped.name, unit: mapped.unit, attributes, buckets, sum, count };
        assert(series@ == histogram_spec(av[k as int], server@, harness@));
        let ghost before = out@.map_values(|x: PromSeries| x@);
        out.push(series);
        proof {
            assert(out@.map_values(|x: PromSeries| x@) =~= before.push(histogram_spec(av[k as int], server@, harness@)));
            assert(av.take(k + 1).map_values(|a: AccView| histogram_spec(a, server@, harness@)) =~= av.take(k as int).map_values(
                |a: AccView| histogram_spec(a, server@, harness@),
            ).push(histogram_spec(av[k as int], server@, harness@)));
        }
        k += 1;
    }
    assert(av.take(accs.len() as int) =~= av);
    out
}

// ------------------------------------------------------------------------------------
// The scrape target and the HTTP exchange
// ------------------------------------------------------------------------------------

/// A parsed `http://host:port/path` target.
#[derive(Debug, Clone)]
pub struct ScrapeUrl {
    pub host: String,
    pub port: u16,
    /// Request target (path and optional query).
    pub path: String,
    /// `host:port`, for the `Host` header and error messages.
    pub authority: String,
}

pub struct UrlView {
    pub host: Seq<char>,
    pub port: u16,
    pub path: Seq<char>,
    pub authority: Seq<char>,
}

impl View for ScrapeUrl {
    type V = UrlView;

    open spec fn view(&self) -> UrlView {
        UrlView { host: self.host@, port: self.port, path: self.path@, authority: self.authority@ }
    }
}

/// Position of the last `c` in `s`, or -1.
pub open spec fn last_index(s: Seq<char>, c: char) -> int
    decreases s.len(),
{
    if s.len() == 0 {
        -1
    } else if s.last() == c {
        s.len() - 1
    } else {
        last_index(s.drop_last(), c)
    }
}

/// How a scrape URL reads: only plain `http://` is supported (TLS is out of scope); the
/// authority runs to the first `/` (the path defaults to `/`); a port after the last `:`
/// must be a valid `u16` (80 otherwise); the host must not be empty.
pub open spec fn parse_url_spec(raw: Seq<char>) -> Result<UrlView, Seq<char>> {
    if !has_prefix(raw, "http://"@) {
        Err(
            if has_prefix(raw, "https://"@) {
                "https scrape is not supported (TLS out of scope): "@ + raw
            } else {
                "prometheus_scrape_url must start with http:// : "@ + raw
            },
        )
    } else {
        let rest = raw.skip(7);
        let slash = first_index(rest, '/');
        let authority = if slash < rest.len() { rest.take(slash) } else { rest };
        let path = if slash < rest.len() { rest.skip(slash) } else { "/"@ };
        let colon = last_index(authority, ':');
        if colon >= 0 {
            match parse_unsigned_seq(authority.skip(colon + 1), 65535) {
                None => Err("invalid port in scrape url: "@ + authority),
                Some(port) => if colon == 0 {
                    Err("empty host in scrape url: "@ + raw)
                } else {
                    Ok(UrlView { host: authority.take(colon), port: port as u16, path, authority })
                },
            }
        } else if authority.len() == 0 {
            Err("empty host in scrape url: "@ + raw)
        } else {
            Ok(UrlView { host: authority, port: 80, path, authority })
        }
    }
}

pub open spec fn url_result_view(r: Result<ScrapeUrl, String>) -> Result<UrlView, Seq<char>> {
    match r {
        Ok(u) => Ok(u@),
        Err(e) => Err(e@),
    }
}

proof fn lemma_last_index(s: Seq<char>, c: char)
    ensures
        -1 <= last_index(s, c) < s.len(),
        last_index(s, c) >= 0 ==> s[last_index(s, c)] == c,
        forall|j: int| last_index(s, c) < j < s.len() ==> s[j] != c,
    decreases s.len(),
{
    if s.len() > 0 && s.last() != c {
        lemma_last_index(s.drop_last(), c);
        assert forall|j: int| last_index(s, c) < j < s.len() implies s[j] != c by {
            if j < s.len() - 1 {
                assert(s.drop_last()[j] == s[j]);
            }
        }
    }
}

/// Position of the last `:` of `v`.
fn last_colon(v: &Vec<char>) -> (r: Option<usize>)
    ensures
        match r {
            Some(k) => last_index(v@, ':') == k as int && k < v@.len(),
            None => last_index(v@, ':') == -1,
        },
{
    let mut c = v.len();
    while c > 0 && v[c - 1] != ':'
        invariant
            c <= v.len(),
            forall|j: int| c <= j < v.len() ==> v@[j] != ':',
        decreases c,
    {
        c -= 1;
    }
    proof {
        lemma_last_index(v@, ':');
        let li = last_index(v@, ':');
        if li >= 0 {
            assert(v@[li] == ':');
        }
        if c > 0 {
            assert(v@[c - 1] == ':');
        }
    }
    if c > 0 {
        Some(c - 1)
    } else {
        None
    }
}

/// The host and port of an authority, or the error it gives.
fn host_and_port(raw: &str, authority: &str) -> (r: Result<(String, u16), String>)
    ensures
        match r {
            Ok((h, p)) => {
                let colon = last_index(authority@, ':');
                if colon >= 0 {
                    parse_unsigned_seq(authority@.skip(colon + 1), 65535) == Some(p as int) && colon > 0 && h@ == authority@.take(colon)
                } else {
                    authority@.len() > 0 && h@ == authority@ && p == 80
                }
            },
            Err(e) => {
                let colon = last_index(authority@, ':');
                if colon >= 0 {
                    match parse_unsigned_seq(authority@.skip(colon + 1), 65535) {
                        None => e@ == "invalid port in scrape url: "@ + authority@,
                        Some(_) => colon == 0 && e@ == "empty host in scrape url: "@ + raw@,
                    }
                } else {
                    authority@.len() == 0 && e@ == "empty host in scrape url: "@ + raw@
                }
            },
        },
{
    let av = chars_of(authority);
    let an = av.len();
    match last_colon(&av) {
        Some(colon) => {
            assert(av@.subrange(colon + 1, an as int) =~= av@.skip(colon + 1));
            match parse_unsigned(&av, colon + 1, an, 65535) {
                None => Err(concat("invalid port in scrape url: ", authority)),
                Some(port) => {
                    proof {
                        crate::text::lemma_parse_unsigned_range(av@.subrange(colon + 1, an as int), 65535);
                    }
                    if colon == 0 {
                        return Err(concat("empty host in scrape url: ", raw));
                    }
                    let host = string_of_window(&av, 0, colon);
                    assert(av@.subrange(0, colon as int) =~= av@.take(colon as int));
                    Ok((host, port as u16))
                },
            }
        },
        None => {
            if an == 0 {
                return Err(concat("empty host in scrape url: ", raw));
            }
            Ok((owned(authority), 80))
        },
    }
}

/// Parses a scrape URL.
pub fn parse_http_url(raw: &str) -> (r: Result<ScrapeUrl, String>)
    ensures
        url_result_view(r) == parse_url_spec(raw@),
{
    let v = chars_of(raw);
    let n = v.len();
    assert(v@.subrange(0, n as int) =~= v@);
    proof {
        reveal_strlit("http://");
    }
    if !window_starts_with(&v, 0, n, &chars_of("http://")) {
        if window_starts_with(&v, 0, n, &chars_of("https://")) {
            return Err(concat("https scrape is not supported (TLS out of scope): ", raw));
        }
        return Err(concat("prometheus_scrape_url must start with http:// : ", raw));
    }
    let ghost rest = v@.skip(7);
    assert(v@.subrange(7, n as int) =~= rest);
    let slash = crate::text::find_char(&v, 7, n, '/');
    proof {
        lemma_first_index(rest, '/');
    }
    let authority = string_of_window(&v, 7, slash);
    let path = if slash < n {
        let p = string_of_window(&v, slash, n);
        assert(v@.subrange(slash as int, n as int) =~= rest.skip(slash - 7));
        p
    } else {
        owned("/")
    };
    assert(v@.subrange(7, slash as int) =~= (if slash - 7 < rest.len() { rest.take(slash - 7) } else { rest }));
    match host_and_port(raw, authority.as_str()) {
        Ok((host, port)) => Ok(ScrapeUrl { host, port, path, authority }),
        Err(e) => Err(e),
    }
}

/// The request a scrape sends: a `GET` with `Connection: close` (so that reading to the
/// end terminates on a keep-alive server) and, with a token, a bearer `Authorization`.
pub open spec fn request_spec(path: Seq<char>, authority: Seq<char>, token: Option<Seq<char>>) -> Seq<char> {
    "GET "@ + path + " HTTP/1.1\r\nHost: "@ + authority + "\r\nUser-Agent: harnesssphere\r\nAccept: text/plain\r\nConnection: close\r\n"@
        + match token {
        Some(t) => "Authorization: Bearer "@ + t + "\r\n"@,
        None => Seq::empty(),
    } + "\r\n"@
}

pub fn build_request(url: &ScrapeUrl, token: Option<&str>) -> (r: String)
    ensures
        r@ == request_spec(url.path@, url.authority@, match token {
            Some(t) => Some(t@),
            None => None,
        }),
{
    let a = concat("GET ", url.path.as_str());
    let b = concat(a.as_str(), " HTTP/1.1\r\nHost: ");
    let c = concat(b.as_str(), url.authority.as_str());
    let d = concat(c.as_str(), "\r\nUser-Agent: harnesssphere\r\nAccept: text/plain\r\nConnection: close\r\n");
    let e = match token {
        Some(t) => {
            let x = concat(d.as_str(), "Authorization: Bearer ");
            let y = concat(x.as_str(), t);
            concat(y.as_str(), "\r\n")
        },
        None => {
            proof {
                reveal_strlit("");
            }
            d
        },
    };
    let r = concat(e.as_str(), "\r\n");
    proof {
        match token {
            Some(t) => {},
            None => {
                assert(d@ + Seq::<char>::empty() =~= d@);
            },
        }
    }
    r
}

/// What `String::from_utf8_lossy` makes of `bytes`.
pub uninterp spec fn lossy_utf8(bytes: Seq<u8>) -> Seq<char>;

/// Calls `String::from_utf8_lossy` and takes ownership of the text. The contract names
/// the result, and states what the documentation gives for valid UTF-8: it is decoded
/// unchanged. (Invalid sequences become U+FFFD; that is not stated.)
#[verifier::external_body]
fn utf8_lossy(bytes: &[u8]) -> (s: String)
    ensures
        s@ == lossy_utf8(bytes@),
        valid_utf8(bytes@) ==> s@ == decode_utf8(bytes@),
{
    String::from_utf8_lossy(bytes).into_owned()
}

/// The decimal digits of `n`.
pub open spec fn decimal_spec(n: nat) -> Seq<char>
    decreases n,
{
    if n < 10 {
        seq![digit_char(n)]
    } else {
        decimal_spec(n / 10) + seq![digit_char(n % 10)]
    }
}

pub open spec fn digit_char(d: nat) -> char {
    if d == 0 { '0' } else if d == 1 { '1' } else if d == 2 { '2' } else if d == 3 { '3' } else if d == 4 {
        '4'
    } else if d == 5 { '5' } else if d == 6 { '6' } else if d == 7 { '7' } else if d == 8 { '8' } else { '9' }
}

fn digit_exec(d: u64) -> (c: char)
    requires
        d < 10,
    ensures
        c == digit_char(d as nat),
{
    if d == 0 { '0' } else if d == 1 { '1' } else if d == 2 { '2' } else if d == 3 { '3' } else if d == 4 {
        '4'
    } else if d == 5 { '5' } else if d == 6 { '6' } else if d == 7 { '7' } else if d == 8 { '8' } else { '9' }
}

/// `n` in decimal.
pub fn decimal(n: u64) -> (s: String)
    ensures
        s@ == decimal_spec(n as nat),
{
    let mut digits: Vec<char> = Vec::new();
    let mut m = n;
    // Digits are produced least significant first.
    while m >= 10
        invariant
            decimal_spec(n as nat) == decimal_spec(m as nat) + digits@.reverse(),
        decreases m,
    {
        let ghost d0 = digits@;
        digits.push(digit_exec(m % 10));
        proof {
            assert(digits@.reverse() =~= seq![digit_char((m % 10) as nat)] + d0.reverse());
            assert(decimal_spec(m as nat) == decimal_spec((m / 10) as nat) + seq![digit_char((m % 10) as nat)]);
            assert(decimal_spec((m / 10) as nat) + seq![digit_char((m % 10) as nat)] + d0.reverse() =~= decimal_spec(
                (m / 10) as nat,
            ) + digits@.reverse());
        }
        m = m / 10;
    }
    let ghost d1 = digits@;
    digits.push(digit_exec(m));
    proof {
        assert(digits@.reverse() =~= seq![digit_char(m as nat)] + d1.reverse());
    }
    let mut out: Vec<char> = Vec::new();
    let mut k = digits.len();
    while k > 0
        invariant
            k <= digits.len(),
            out@ == digits@.reverse().take(digits.len() - k),
        decreases k,
    {
        out.push(digits[k - 1]);
        proof {
            assert(digits@.reverse().take(digits.len() - k + 1) =~= digits@.reverse().take(digits.len() - k).push(
                digits@[k - 1],
            ));
        }
        k -= 1;
    }
    assert(digits@.reverse().take(digits.len() as int) =~= digits@.reverse());
    crate::text::string_from_chars(out.as_slice())
}

/// Position of the first `\r\n\r\n` in `b`, or `b.len()`.
pub open spec fn header_end(b: Seq<u8>) -> int
    decreases b.len(),
{
    if b.len() < 4 {
        b.len() as int
    } else if b[0] == 13 && b[1] == 10 && b[2] == 13 && b[3] == 10 {
        0
    } else {
        1 + header_end(b.drop_first())
    }
}

/// The first line of `text`, or nothing.
pub open spec fn first_line(text: Seq<char>) -> Seq<char> {
    let ls = lines_seq(text);
    if ls.len() > 0 { ls[0] } else { Seq::empty() }
}

/// How a raw HTTP response reads: the headers end at the first blank line; the status
/// code is the second field of the first line and must be a `u16`; only a 2xx status
/// hands back the body (decoded leniently).
pub open spec fn response_spec(raw: Seq<u8>) -> Result<Seq<char>, Seq<char>> {
    let split = header_end(raw);
    if split >= raw.len() {
        Err("malformed HTTP response (no header terminator)"@)
    } else {
        let status = first_line(lossy_utf8(raw.take(split)));
        let fs = fields_seq(status);
        let code = if fs.len() >= 2 { parse_unsigned_seq(fs[1], 65535) } else { None };
        match code {
            None => Err("malformed status line: "@ + status),
            Some(c) => if c < 200 || c >= 300 {
                Err("scrape returned HTTP "@ + decimal_spec(c as nat))
            } else {
                Ok(lossy_utf8(raw.skip(split + 4)))
            },
        }
    }
}

/// `b` holds a blank line's `\r\n\r\n` at `j`.
pub open spec fn blank_at(b: Seq<u8>, j: int) -> bool {
    0 <= j && j + 4 <= b.len() && b[j] == 13 && b[j + 1] == 10 && b[j + 2] == 13 && b[j + 3] == 10
}

proof fn lemma_header_end_at(b: Seq<u8>, i: int)
    requires
        0 <= i <= b.len(),
        forall|j: int| 0 <= j < i ==> !#[trigger] blank_at(b, j),
        i + 4 <= b.len() ==> blank_at(b, i),
        i + 4 > b.len() ==> i == b.len(),
    ensures
        header_end(b) == i,
    decreases b.len(),
{
    if i > 0 {
        assert(!blank_at(b, 0));
    }
    if b.len() >= 4 && !(b[0] == 13 && b[1] == 10 && b[2] == 13 && b[3] == 10) {
        if i == 0 {
            assert(blank_at(b, 0));
        }
        let d = b.drop_first();
        if i - 1 + 4 <= d.len() {
            assert(blank_at(b, i));
            assert(d[i - 1] == b[i] && d[i] == b[i + 1] && d[i + 1] == b[i + 2] && d[i + 2] == b[i + 3]);
        }
        assert forall|j: int| 0 <= j < i - 1 implies !#[trigger] blank_at(d, j) by {
            assert(!blank_at(b, j + 1));
            if j + 4 <= d.len() {
                assert(d[j] == b[j + 1] && d[j + 1] == b[j + 2] && d[j + 2] == b[j + 3] && d[j + 3] == b[j + 4]);
            }
        }
        lemma_header_end_at(d, i - 1);
    }
}

fn slice_of(b: &[u8], lo: usize, hi: usize) -> (r: Vec<u8>)
    requires
        lo <= hi <= b@.len(),
    ensures
        r@ == b@.subrange(lo as int, hi as int),
{
    let mut out: Vec<u8> = Vec::new();
    let mut i = lo;
    while i < hi
        invariant
            lo <= i <= hi <= b@.len(),
            out@ == b@.subrange(lo as int, i as int),
        decreases hi - i,
    {
        out.push(b[i]);
        i += 1;
    }
    out
}

/// Where the headers of a raw response end.
fn find_blank_line(raw: &[u8]) -> (i: usize)
    ensures
        i as int == header_end(raw@),
        i <= raw@.len(),
        i < raw@.len() ==> blank_at(raw@, i as int),
{
    let n = raw.len();
    let mut i: usize = 0;
    while i < n && n - i >= 4
        invariant
            i <= n == raw@.len(),
            forall|j: int| 0 <= j < i ==> !#[trigger] blank_at(raw@, j),
        decreases n - i,
    {
        if raw[i] == 13 && raw[i + 1] == 10 && raw[i + 2] == 13 && raw[i + 3] == 10 {
            proof {
                assert(blank_at(raw@, i as int));
                lemma_header_end_at(raw@, i as int);
            }
            return i;
        }
        assert(!blank_at(raw@, i as int));
        i += 1;
    }
    proof {
        assert forall|j: int| 0 <= j < n implies !#[trigger] blank_at(raw@, j) by {
            if j >= i {
                assert(j + 4 > n);
            }
        }
        lemma_header_end_at(raw@, n as int);
    }
    n
}

/// The first line of `text`.
fn first_line_of(text: &str) -> (s: String)
    ensures
        s@ == first_line(text@),
{
    let hv = chars_of(text);
    if hv.len() > 0 {
        let (a, b, _) = next_line(&hv, 0, hv.len());
        assert(hv@.subrange(0, hv.len() as int) =~= hv@);
        string_of_window(&hv, a, b)
    } else {
        assert(lines_seq(hv@) =~= Seq::<Seq<char>>::empty());
        proof {
            reveal_strlit("");
        }
        owned("")
    }
}

/// The status code of a status line: its second field, as a `u16`.
fn status_code(status: &str) -> (r: Option<u64>)
    ensures
        r == (if fields_seq(status@).len() >= 2 {
            match parse_unsigned_seq(fields_seq(status@)[1], 65535) {
                Some(c) => Some(c as u64),
                None => None::<u64>,
            }
        } else {
            None::<u64>
        }),
        r matches Some(c) ==> c <= 65535 && fields_seq(status@).len() >= 2 && parse_unsigned_seq(fields_seq(status@)[1], 65535) == Some(c as int),
{
    let sv = chars_of(status);
    assert(sv@.subrange(0, sv.len() as int) =~= sv@);
    proof {
        if fields_seq(status@).len() >= 2 {
            crate::text::lemma_parse_unsigned_range(fields_seq(status@)[1], 65535);
        }
    }
    match next_field(&sv, 0, sv.len()) {
        None => None,
        Some((_, b1)) => match next_field(&sv, b1, sv.len()) {
            None => None,
            Some((c0, c1)) => parse_unsigned(&sv, c0, c1, 65535),
        },
    }
}

/// Reads a raw HTTP response into its body.
pub fn parse_http_response(raw: &[u8]) -> (r: Result<String, String>)
    ensures
        match r {
            Ok(body) => response_spec(raw@) == Ok::<Seq<char>, Seq<char>>(body@),
            Err(e) => response_spec(raw@) == Err::<Seq<char>, Seq<char>>(e@),
        },
{
    let n = raw.len();
    let i = find_blank_line(raw);
    if i >= n {
        return Err(owned("malformed HTTP response (no header terminator)"));
    }
    let head_bytes = slice_of(raw, 0, i);
    assert(head_bytes@ =~= raw@.take(i as int));
    let headers = utf8_lossy(head_bytes.as_slice());
    let status = first_line_of(headers.as_str());
    match status_code(status.as_str()) {
        None => Err(concat("malformed status line: ", status.as_str())),
        Some(c) => {
            if c < 200 || c >= 300 {
                let d = decimal(c);
                Err(concat("scrape returned HTTP ", d.as_str()))
            } else {
                let body_bytes = slice_of(raw, i + 4, n);
                assert(body_bytes@ =~= raw@.skip(i + 4));
                Ok(utf8_lossy(body_bytes.as_slice()))
            }
        },
    }
}

// ------------------------------------------------------------------------------------
// The collector
// ------------------------------------------------------------------------------------

/// Scrapes one exposition endpoint. An unusable URL or an unreachable endpoint degrades
/// this Optional source; it never fails the watcher.
pub struct PrometheusCollector {
    descriptor: SourceDescriptor,
    url: Result<ScrapeUrl, String>,
    token: Option<String>,
    harness_name: String,
}

pub struct PrometheusModel {
    pub name: Seq<char>,
    pub interval: Duration,
    pub url: Result<UrlView, Seq<char>>,
    pub token: Option<Seq<char>>,
    pub harness_name: Seq<char>,
}

impl View for PrometheusCollector {
    type V = PrometheusModel;

    closed spec fn view(&self) -> PrometheusModel {
        PrometheusModel {
            name: self.descriptor.name@,
            interval: self.descriptor.default_interval,
            url: url_result_view(self.url),
            token: opt_text(self.token),
            harness_name: self.harness_name@,
        }
    }
}

impl PrometheusCollector {
    #[verifier::type_invariant]
    spec fn inv(self) -> bool {
        &&& self.descriptor.layer == Layer::Gateway
        &&& self.descriptor.criticality == Criticality::Optional
    }

    /// `url` is an `http://host:port/path` exposition endpoint; `token`, when present, is
    /// sent as a bearer token; `harness_name` is stamped on every series.
    pub fn new(url: &str, token: Option<String>, harness_name: &str, interval: Duration) -> (c: Self)
        ensures
            c@.name == "prometheus"@,
            c@.interval == interval,
            c@.url == parse_url_spec(url@),
            c@.token == opt_text(token),
            c@.harness_name == harness_name@,
    {
        PrometheusCollector {
            descriptor: SourceDescriptor::new(owned("prometheus"), Layer::Gateway, Criticality::Optional, interval),
            url: parse_http_url(url),
            token,
            harness_name: owned(harness_name),
        }
    }

    pub fn descriptor(&self) -> (d: &SourceDescriptor)
        ensures
            d.name@ == self@.name,
            d.layer == Layer::Gateway,
            d.criticality == Criticality::Optional,
            d.default_interval == self@.interval,
    {
        proof {
            use_type_invariant(self);
        }
        &self.descriptor
    }

    /// Ready when the URL is usable; otherwise unavailable, with the reason.
    pub fn probe(&self) -> (r: ProbeResult)
        ensures
            self@.url is Ok ==> r is Ready,
            self@.url matches Err(e) ==> (r matches ProbeResult::Unavailable(m) && m@ == e),
    {
        match &self.url {
            Ok(_) => ProbeResult::Ready,
            Err(e) => ProbeResult::Unavailable(owned(e.as_str())),
        }
    }

    /// The target of a cycle, or why there is none.
    pub fn target(&self) -> (r: Result<&ScrapeUrl, CollectError>)
        ensures
            match r {
                Ok(u) => self@.url == Ok::<UrlView, Seq<char>>(u@),
                Err(e) => self@.url matches Err(m) && (e matches CollectError::Unavailable(x) && x@ == m),
            },
    {
        match &self.url {
            Ok(u) => Ok(u),
            Err(e) => Err(CollectError::Unavailable(owned(e.as_str()))),
        }
    }

    /// The request this collector sends to its target.
    pub fn request(&self, url: &ScrapeUrl) -> (r: String)
        ensures
            r@ == request_spec(url.path@, url.authority@, self@.token),
    {
        match &self.token {
            Some(t) => build_request(url, Some(t.as_str())),
            None => build_request(url, None),
        }
    }

    pub fn harness_name(&self) -> (s: &str)
        ensures
            s@ == self@.harness_name,
    {
        self.harness_name.as_str()
    }

    /// One connect-request-read exchange is bounded by 5 s.
    pub fn scrape_timeout(&self) -> (d: Duration)
        ensures
            d == duration_of_secs(5),
    {
        duration_from_secs(5)
    }
}

} // verus!
